//! Plugin-loading (requester) capability.
//!
//! The requester surface for any application that late-binds guests into its
//! deployment's declared plugin seams: the guest names code (a package, a
//! location, and an optional content pin) and the host acquires, verifies,
//! validates, and registers it, handing back a typed [`Plugin`] handle.

use crate::guest::error::Error as GuestError;
use crate::idmap::IdMap;
use crate::text::{chars_of, str_eq};
use vstd::prelude::*;
use vstd::string::StringExecFns;

verus! {

/// The canonical digest scheme prefix.
pub const SCHEME: &'static str = "sha256:";

/// Hex characters in a sha256 digest.
pub const HEX_LEN: usize = 64;

/// Where the deployment's acquirer finds a package's component bytes.
#[derive(Debug, PartialEq, Eq)]
pub enum Location {
    /// A package registry; `None` selects the acquirer's default.
    Registry(Option<String>),
    /// A location-relative component path, read fresh on every load.
    Path(String),
}

/// A validated `sha256:<hex>` content digest, canonicalized to lowercase.
#[derive(Debug, PartialEq, Eq)]
pub struct Digest(String);

/// Whether a character is a hexadecimal digit, of either case.
pub open spec fn is_hex(c: char) -> bool {
    '0' <= c <= '9' || 'a' <= c <= 'f' || 'A' <= c <= 'F'
}

/// The lowercase of a hexadecimal digit.
pub open spec fn lower_hex(c: char) -> char {
    if 'A' <= c <= 'F' {
        ((c as u8) + 32) as char
    } else {
        c
    }
}

/// What follows the scheme in a pin, if it has it.
pub open spec fn pin_hex(pin: Seq<char>) -> Option<Seq<char>> {
    if SCHEME@.len() <= pin.len() && pin.subrange(0, SCHEME@.len() as int) == SCHEME@ {
        Some(pin.subrange(SCHEME@.len() as int, pin.len() as int))
    } else {
        None
    }
}

/// Whether a text is the hexadecimal part of a digest.
pub open spec fn all_hex(hex: Seq<char>) -> bool {
    hex.len() == HEX_LEN && forall|i: int| 0 <= i < hex.len() ==> is_hex(#[trigger] hex[i])
}

/// The canonical digest of a pin, if it is one.
pub open spec fn canonical(pin: Seq<char>) -> Option<Seq<char>> {
    match pin_hex(pin) {
        Some(hex) => if all_hex(hex) {
            Some(SCHEME@ + hex.map_values(|c: char| lower_hex(c)))
        } else {
            None
        },
        None => None,
    }
}

/// Why a pin is refused that is no digest.
pub open spec fn refusal(pin: Seq<char>) -> Seq<char> {
    if pin_hex(pin) is None {
        "digest pin `"@ + pin + "` does not use the `sha256:<hex>` scheme"@
    } else {
        "digest pin `"@ + pin + "` is not 64 hex characters"@
    }
}

impl View for Digest {
    type V = Seq<char>;

    closed spec fn view(&self) -> Seq<char> {
        self.0@
    }
}

impl Digest {
    /// The text is canonical: parsing it gives it back.
    #[verifier::type_invariant]
    spec fn wf(self) -> bool {
        canonical(self.0@) == Some(self.0@)
    }

    /// The canonical `sha256:<hex>` digest string.
    #[must_use]
    pub fn as_str(&self) -> (r: &str)
        ensures
            r@ == self@,
            canonical(r@) == Some(r@),
    {
        proof {
            use_type_invariant(self);
        }
        self.0.as_str()
    }

    /// A copy of the digest.
    #[must_use]
    pub fn copy(&self) -> (r: Self)
        ensures
            r == *self,
    {
        proof {
            use_type_invariant(self);
        }
        Digest(self.0.clone())
    }

    /// Parse a content pin, of either case.
    ///
    /// # Errors
    ///
    /// Returns [`Error::Refused`] when the pin does not use the scheme or does
    /// not have that many hex characters.
    pub fn parse(pin: &str) -> (r: Result<Self, Error>)
        ensures
            match canonical(pin@) {
                Some(text) => r matches Ok(digest) && digest@ == text,
                None => r matches Err(Error::Refused(text)) && text@ == refusal(pin@),
            },
    {
        let chars = chars_of(pin);
        let scheme = chars_of(SCHEME);
        let ghost s = SCHEME@;
        let mut i: usize = 0;
        while i < scheme.len()
            invariant
                i <= scheme@.len(),
                i <= chars@.len(),
                scheme@ == s,
                s == SCHEME@,
                chars@ == pin@,
                pin@.subrange(0, i as int) == s.subrange(0, i as int),
            decreases scheme@.len() - i,
        {
            if i >= chars.len() || chars[i] != scheme[i] {
                assert(pin_hex(pin@) is None) by {
                    if pin_hex(pin@) is Some {
                        assert(pin@.subrange(0, s.len() as int)[i as int] == s[i as int]);
                    }
                }
                return Err(
                    Error::Refused(
                        String::from_str("digest pin `").concat(pin).concat(
                            "` does not use the `sha256:<hex>` scheme",
                        ),
                    ),
                );
            }
            assert(pin@.subrange(0, i + 1) =~= pin@.subrange(0, i as int).push(pin@[i as int]));
            assert(s.subrange(0, i + 1) =~= s.subrange(0, i as int).push(s[i as int]));
            i = i + 1;
        }
        assert(s.subrange(0, s.len() as int) =~= s);
        let ghost hex = pin@.subrange(s.len() as int, pin@.len() as int);
        assert(pin_hex(pin@) == Some(hex));
        let mut good = chars.len() - scheme.len() == HEX_LEN;
        let mut text = String::from_str(SCHEME);
        let mut k: usize = scheme.len();
        assert(hex.subrange(0, 0).map_values(|c: char| lower_hex(c)) =~= Seq::empty());
        while k < chars.len()
            invariant
                s.len() <= k <= chars@.len(),
                chars@ == pin@,
                hex == pin@.subrange(s.len() as int, pin@.len() as int),
                good == (hex.len() == HEX_LEN && forall|j: int|
                    0 <= j < k - s.len() ==> is_hex(#[trigger] hex[j])),
                text@ == s + hex.subrange(0, k - s.len()).map_values(|c: char| lower_hex(c)),
            decreases chars@.len() - k,
        {
            let c = chars[k];
            assert(c == hex[k - s.len()]);
            if !(('0' <= c && c <= '9') || ('a' <= c && c <= 'f') || ('A' <= c && c <= 'F')) {
                good = false;
            }
            let low = if 'A' <= c && c <= 'F' {
                ((c as u8) + 32) as char
            } else {
                c
            };
            text.push(low);
            assert(hex.subrange(0, k - s.len() + 1).map_values(|c: char| lower_hex(c))
                =~= hex.subrange(0, k - s.len()).map_values(|c: char| lower_hex(c)).push(low));
            k = k + 1;
        }
        assert(hex.subrange(0, hex.len() as int) =~= hex);
        if !good {
            return Err(
                Error::Refused(
                    String::from_str("digest pin `").concat(pin).concat(
                        "` is not 64 hex characters",
                    ),
                ),
            );
        }
        proof {
            lemma_canonical_is_stable(pin@);
        }
        Ok(Digest(text))
    }
}

proof fn lemma_canonical_is_stable(pin: Seq<char>)
    ensures
        canonical(pin) matches Some(text) ==> canonical(text) == Some(text),
{
    if let Some(text) = canonical(pin) {
        let hex = pin_hex(pin)->0;
        let low = hex.map_values(|c: char| lower_hex(c));
        assert(text.subrange(0, SCHEME@.len() as int) =~= SCHEME@);
        assert(text.subrange(SCHEME@.len() as int, text.len() as int) =~= low);
        assert forall|i: int| 0 <= i < low.len() implies is_hex(#[trigger] low[i]) && lower_hex(
            low[i],
        ) == low[i] by {
            assert(is_hex(hex[i]));
        }
        assert(low.map_values(|c: char| lower_hex(c)) =~= low);
    }
}

/// A digest is canonical: parsing its text gives the same digest back.
pub proof fn digests_are_canonical(pin: Seq<char>)
    ensures
        canonical(pin) matches Some(text) ==> canonical(text) == Some(text),
{
    lemma_canonical_is_stable(pin);
}

/// Pins that differ in the case of their hex characters alone are one digest.
pub proof fn digests_ignore_case(a: Seq<char>, b: Seq<char>)
    requires
        canonical(a) is Some,
        canonical(b) is Some,
        forall|i: int|
            SCHEME@.len() <= i < a.len() ==> lower_hex(#[trigger] a[i]) == lower_hex(b[i]),
    ensures
        canonical(a) == canonical(b),
{
    let x = pin_hex(a)->0;
    let y = pin_hex(b)->0;
    assert forall|i: int| 0 <= i < x.len() implies lower_hex(x[i]) == lower_hex(y[i]) by {
        assert(x[i] == a[i + SCHEME@.len()]);
        assert(y[i] == b[i + SCHEME@.len()]);
    }
    assert(x.map_values(|c: char| lower_hex(c)) =~= y.map_values(|c: char| lower_hex(c)));
}

/// The (package, location, pin) triple a requester names for one load.
#[derive(Debug, PartialEq, Eq)]
pub struct PluginRef {
    /// The package identity to register under (also the routed dispatch
    /// identity), for example `emery:intent@1.0.0`.
    pub package: String,
    /// Where the deployment's acquirer finds the component bytes.
    pub location: Location,
    /// Optional content pin, verified host-side before validation.
    pub digest: Option<Digest>,
}

/// A loaded plugin: the routed dispatch identity plus its resolved digest.
///
/// A plain value: loading confers no lifecycle authority over the loaded
/// component.
#[derive(Debug, PartialEq, Eq)]
pub struct Plugin {
    id: String,
    digest: Digest,
}

impl Plugin {
    pub closed spec fn id_spec(&self) -> Seq<char> {
        self.id@
    }

    pub closed spec fn digest_spec(&self) -> Digest {
        self.digest
    }

    /// A handle over a routed identity and its resolved digest.
    #[must_use]
    pub fn new(id: String, digest: Digest) -> (r: Self)
        ensures
            r.id_spec() == id@,
            r.digest_spec() == digest,
    {
        Plugin { id, digest }
    }

    /// The routed identity host-mediated dispatch keys on.
    #[must_use]
    pub fn id(&self) -> (r: &str)
        ensures
            r@ == self.id_spec(),
    {
        self.id.as_str()
    }

    /// The resolved content digest of the loaded bytes: commit it as a pin
    /// to make an unpinned load reproducible.
    #[must_use]
    pub fn digest(&self) -> (r: &Digest)
        ensures
            *r == self.digest_spec(),
    {
        &self.digest
    }

    /// A copy of the handle.
    #[must_use]
    pub fn copy(&self) -> (r: Self)
        ensures
            r == *self,
    {
        Plugin { id: self.id.clone(), digest: self.digest.copy() }
    }

    /// The handle that a host's report gives.
    ///
    /// # Errors
    ///
    /// Returns [`Error::Internal`] when the reported digest is malformed.
    pub fn reported(id: String, digest: &str) -> (r: Result<Self, Error>)
        ensures
            match canonical(digest@) {
                Some(text) => r matches Ok(plugin) && plugin.id_spec() == id@
                    && plugin.digest_spec()@ == text,
                None => r matches Err(Error::Internal(text)) && text@
                    == "host reported a malformed digest: "@ + ("refused: "@ + refusal(digest@)),
            },
    {
        match Digest::parse(digest) {
            Ok(digest) => Ok(Plugin::new(id, digest)),
            Err(error) => Err(
                Error::Internal(
                    String::from_str("host reported a malformed digest: ").concat(
                        error.text().as_str(),
                    ),
                ),
            ),
        }
    }
}

/// Typed load refusal.
#[derive(Debug, PartialEq, Eq)]
pub enum Error {
    /// The request or deployment is wrong and a retry cannot succeed: an
    /// unserved location kind, a malformed or mismatched digest pin, or an
    /// invalid artifact.
    Refused(String),
    /// The acquirer could not produce the package bytes; the source may
    /// recover, so a retry can succeed.
    Unavailable(String),
    /// The package identity is already active and cannot be re-bound.
    AlreadyActive(String),
    /// Loader misconfiguration or an internal registration failure.
    Internal(String),
}

impl Error {
    pub open spec fn code_spec(self) -> Seq<char> {
        match self {
            Error::Refused(_) => "refused"@,
            Error::Unavailable(_) => "unavailable"@,
            Error::AlreadyActive(_) => "already-active"@,
            Error::Internal(_) => "internal"@,
        }
    }

    pub open spec fn detail(self) -> String {
        match self {
            Error::Refused(detail) => detail,
            Error::Unavailable(detail) => detail,
            Error::AlreadyActive(detail) => detail,
            Error::Internal(detail) => detail,
        }
    }

    /// The kebab-case wire discriminant, stable for callers to branch on.
    #[must_use]
    pub fn code(&self) -> (code: &'static str)
        ensures
            code@ == self.code_spec(),
    {
        match self {
            Error::Refused(_) => "refused",
            Error::Unavailable(_) => "unavailable",
            Error::AlreadyActive(_) => "already-active",
            Error::Internal(_) => "internal",
        }
    }

    pub open spec fn text_spec(self) -> Seq<char> {
        match self {
            Error::Refused(detail) => "refused: "@ + detail@,
            Error::Unavailable(detail) => "unavailable: "@ + detail@,
            Error::AlreadyActive(detail) => "already active: "@ + detail@,
            Error::Internal(detail) => "internal: "@ + detail@,
        }
    }

    /// The refusal in words.
    #[must_use]
    pub fn text(&self) -> (text: String)
        ensures
            text@ == self.text_spec(),
    {
        match self {
            Error::Refused(detail) => String::from_str("refused: ").concat(detail.as_str()),
            Error::Unavailable(detail) => String::from_str("unavailable: ").concat(
                detail.as_str(),
            ),
            Error::AlreadyActive(detail) => String::from_str("already active: ").concat(
                detail.as_str(),
            ),
            Error::Internal(detail) => String::from_str("internal: ").concat(detail.as_str()),
        }
    }

    /// The domain error of a load refusal: an upstream failure where a retry
    /// can succeed, an internal error where the loader is at fault, else a bad
    /// request.
    #[must_use]
    pub fn into_guest(self) -> (r: GuestError)
        ensures
            r.code_spec()@ == self.code_spec(),
            r.description_spec() == self.detail(),
            match self {
                Error::Unavailable(_) => r.kind() is BadGateway,
                Error::Internal(_) => r.kind() is ServerError,
                _ => r.kind() is BadRequest,
            },
    {
        let code = String::from_str(self.code());
        match self {
            Error::Unavailable(description) => GuestError::BadGateway { code, description },
            Error::Internal(description) => GuestError::ServerError { code, description },
            Error::Refused(description) => GuestError::BadRequest { code, description },
            Error::AlreadyActive(description) => GuestError::BadRequest { code, description },
        }
    }
}

/// Ensure-once memoization of loads: handles are memoized by package identity
/// for the instance's lifetime, never bytes, whose caching stays inside the
/// host's acquirer.
pub struct PluginCache {
    loaded: IdMap<Plugin>,
}

/// What a memo of loaded plugins answers a load: the held handle, or that
/// another digest is pinned, or nothing.
pub open spec fn memo(loaded: Map<Seq<char>, Plugin>, plugin: PluginRef) -> Option<
    Result<Plugin, Seq<char>>,
> {
    if !loaded.dom().contains(plugin.package@) {
        None
    } else {
        let held = loaded[plugin.package@];
        match plugin.digest {
            Some(pin) => if pin@ != held.digest_spec()@ {
                Some(
                    Err(
                        "`"@ + plugin.package@ + "` is active with digest "@
                            + held.digest_spec()@,
                    ),
                )
            } else {
                Some(Ok(held))
            },
            None => Some(Ok(held)),
        }
    }
}

impl PluginCache {
    /// The handles held, by package.
    pub closed spec fn loaded_spec(&self) -> Map<Seq<char>, Plugin> {
        self.loaded@
    }

    pub closed spec fn wf(&self) -> bool {
        self.loaded.wf()
    }

    /// An empty memo.
    #[must_use]
    pub fn new() -> (r: Self)
        ensures
            r.wf(),
            r.loaded_spec() == Map::<Seq<char>, Plugin>::empty(),
    {
        PluginCache { loaded: IdMap::new() }
    }

    /// What the memo answers a load of `plugin`; `None` on a cold load.
    #[must_use]
    pub fn lookup(&self, plugin: &PluginRef) -> (r: Option<Result<Plugin, Error>>)
        requires
            self.wf(),
        ensures
            match memo(self.loaded_spec(), *plugin) {
                None => r is None,
                Some(Ok(held)) => r == Some(Ok::<Plugin, Error>(held)),
                Some(Err(text)) => r matches Some(Err(Error::AlreadyActive(detail))) && detail@
                    == text,
            },
    {
        let held = match self.loaded.get(plugin.package.as_str()) {
            Some(held) => held,
            None => {
                return None;
            },
        };
        match &plugin.digest {
            Some(pin) => {
                if !str_eq(pin.as_str(), held.digest().as_str()) {
                    return Some(
                        Err(
                            Error::AlreadyActive(
                                String::from_str("`").concat(plugin.package.as_str()).concat(
                                    "` is active with digest ",
                                ).concat(held.digest().as_str()),
                            ),
                        ),
                    );
                }
            },
            None => {},
        }
        Some(Ok(held.copy()))
    }

    /// Hold the handle of a package.
    pub fn store(&mut self, package: String, handle: Plugin)
        requires
            old(self).wf(),
        ensures
            final(self).wf(),
            final(self).loaded_spec() == old(self).loaded_spec().insert(package@, handle),
    {
        self.loaded.insert(package, handle);
    }

    /// Load `plugin` at most once per package: a memo hit returns the held
    /// handle without calling `load`.
    ///
    /// # Errors
    ///
    /// Returns [`Error::AlreadyActive`] when a memoized package is re-pinned
    /// to a different digest (mirroring the host's refusal), or the error of
    /// `load` on a cold load.
    pub fn ensure<F: FnOnce(&PluginRef) -> Result<Plugin, Error>>(
        &mut self,
        plugin: &PluginRef,
        load: F,
    ) -> (r: Result<Plugin, Error>)
        requires
            old(self).wf(),
            load.requires((plugin,)),
        ensures
            final(self).wf(),
            match memo(old(self).loaded_spec(), *plugin) {
                Some(Ok(held)) => r == Ok::<Plugin, Error>(held) && final(self).loaded_spec()
                    == old(self).loaded_spec(),
                Some(Err(text)) => (r matches Err(Error::AlreadyActive(detail)) && detail@ == text)
                    && final(self).loaded_spec() == old(self).loaded_spec(),
                None => load.ensures((plugin,), r) && final(self).loaded_spec() == match r {
                    Ok(handle) => old(self).loaded_spec().insert(plugin.package@, handle),
                    Err(_) => old(self).loaded_spec(),
                },
            },
    {
        if let Some(answer) = self.lookup(plugin) {
            return answer;
        }
        let loaded = load(plugin);
        if let Ok(handle) = &loaded {
            self.store(plugin.package.clone(), handle.copy());
        }
        loaded
    }
}

/// A package is loaded at most once: once a load of it is held, any later load
/// of it, with no pin or with that digest as its pin, is answered with the
/// held handle.
pub proof fn packages_load_once(
    loaded: Map<Seq<char>, Plugin>,
    handle: Plugin,
    plugin: PluginRef,
)
    requires
        plugin.digest matches Some(pin) ==> pin@ == handle.digest_spec()@,
    ensures
        memo(loaded.insert(plugin.package@, handle), plugin) == Some(
            Ok::<Plugin, Seq<char>>(handle),
        ),
{
}

/// Loading one package never changes how another is answered.
pub proof fn packages_load_apart(
    loaded: Map<Seq<char>, Plugin>,
    package: Seq<char>,
    handle: Plugin,
    plugin: PluginRef,
)
    requires
        plugin.package@ != package,
    ensures
        memo(loaded.insert(package, handle), plugin) == memo(loaded, plugin),
{
}

/// The value of a hexadecimal digit, of either case.
pub open spec fn digit_value(c: char) -> int {
    if '0' <= c <= '9' {
        c as int - '0' as int
    } else if 'a' <= c <= 'f' {
        c as int - 'a' as int + 10
    } else {
        c as int - 'A' as int + 10
    }
}

/// A digest has the digits of its pin, value for value, without an upper-case
/// letter, behind the same scheme.
pub proof fn digests_keep_their_value(pin: Seq<char>, i: int)
    requires
        canonical(pin) is Some,
        0 <= i < pin.len(),
    ensures
        ({
            let digest = canonical(pin)->0;
            &&& digest.len() == pin.len()
            &&& i < SCHEME@.len() ==> digest[i] == pin[i]
            &&& i >= SCHEME@.len() ==> {
                &&& digit_value(digest[i]) == digit_value(pin[i])
                &&& ('0' <= digest[i] <= '9' || 'a' <= digest[i] <= 'f')
            }
        }),
{
    let hex = pin_hex(pin)->0;
    let digest = canonical(pin)->0;
    assert(pin.subrange(0, SCHEME@.len() as int) == SCHEME@);
    if i >= SCHEME@.len() {
        assert(hex[i - SCHEME@.len()] == pin[i]);
        assert(is_hex(hex[i - SCHEME@.len()]));
    } else {
        assert(SCHEME@[i] == pin.subrange(0, SCHEME@.len() as int)[i]);
    }
}

/// The scheme and as many hexadecimal digits as a digest has make a pin; a
/// digit less, a digit more or a character that is none do not.
pub proof fn pins_are_whole_digests(hex: Seq<char>)
    ensures
        canonical(SCHEME@ + hex) is Some <==> hex.len() == 64 && forall|i: int|
            0 <= i < hex.len() ==> is_hex(#[trigger] hex[i]),
{
    let pin = SCHEME@ + hex;
    assert(pin.subrange(0, SCHEME@.len() as int) =~= SCHEME@);
    assert(pin.subrange(SCHEME@.len() as int, pin.len() as int) =~= hex);
}

/// A refused pin is told.
pub proof fn refused_pins_are_told(pin: Seq<char>)
    ensures
        crate::text::holds(refusal(pin), pin),
{
    crate::text::holding_goes_on(pin);
}

/// A package that was not loaded is not answered; one that was is refused
/// exactly where another digest is pinned, telling both the package and the
/// digest it has.
pub proof fn repinned_packages_are_refused(
    loaded: Map<Seq<char>, Plugin>,
    plugin: PluginRef,
)
    ensures
        memo(loaded, plugin) is None <==> !loaded.dom().contains(plugin.package@),
        memo(loaded, plugin) matches Some(Ok(held)) ==> held == loaded[plugin.package@],
        ({
            let held = loaded[plugin.package@].digest_spec()@;
            &&& (memo(loaded, plugin) matches Some(Err(_))) <==> loaded.dom().contains(
                plugin.package@,
            ) && plugin.digest is Some && plugin.digest->0@ != held
            &&& memo(loaded, plugin) matches Some(Err(text)) ==> crate::text::holds(
                text,
                plugin.package@,
            ) && crate::text::holds(text, held)
        }),
{
    let package = plugin.package@;
    let held = loaded[package].digest_spec()@;
    crate::text::holding_goes_on(package);
    assert(crate::text::holds("`"@ + package, package));
    assert(crate::text::holds("`"@ + package + "` is active with digest "@, package));
    crate::text::holding_goes_on(held);
}

} // verus!
