//! Digests, the refusal taxonomy, and ensure-once memoization.

use omnia::guest::error::Error as GuestError;
use omnia::guest::plugins::{Digest, Error, Location, Plugin, PluginCache, PluginRef};
use omnia::plugin::LoadError;
use omnia::runtime::AdmitError;

#[test]
fn digest_canonicalizes_case() {
    let parsed =
        Digest::parse(&format!("sha256:{}", "AB".repeat(32))).expect("uppercase hex accepted");
    assert_eq!(parsed.as_str(), format!("sha256:{}", "ab".repeat(32)));
    assert_eq!(Digest::parse(parsed.as_str()).expect("canonical"), parsed);
}

#[test]
fn digest_malformed() {
    for pin in [
        format!("sha512:{}", "ab".repeat(32)),
        "sha256:abcd".into(),
        format!("sha256:{}", "zz".repeat(32)),
    ] {
        let error = Digest::parse(&pin).expect_err("malformed pin refused");
        assert!(matches!(error, Error::Refused(_)), "{pin} refused");
    }
}

#[test]
fn digest_refusals_in_words() {
    assert_eq!(
        Digest::parse("md5:00").unwrap_err().text(),
        "refused: digest pin `md5:00` does not use the `sha256:<hex>` scheme"
    );
    assert_eq!(
        Digest::parse("sha256:00").unwrap_err().text(),
        "refused: digest pin `sha256:00` is not 64 hex characters"
    );
    assert!(Digest::parse(&format!("sha256:{}", "é".repeat(32))).is_err());
    assert!(Digest::parse("").is_err());
}

#[test]
fn digest_serde() {
    let json = format!("\"sha256:{}\"", "ab".repeat(32));
    let text: String = serde_json::from_str(&json).expect("a JSON string");
    let parsed = Digest::parse(&text).expect("valid digest deserializes");
    assert_eq!(serde_json::to_string(parsed.as_str()).expect("serializes"), json);
    let malformed: String = serde_json::from_str("\"sha256:abcd\"").expect("a JSON string");
    Digest::parse(&malformed).expect_err("malformed digest refused");
}

#[test]
fn taxonomy_mapping() {
    let cases = [
        (Error::Refused("r".into()), "refused"),
        (Error::Unavailable("u".into()), "unavailable"),
        (Error::AlreadyActive("c".into()), "already-active"),
        (Error::Internal("x".into()), "internal"),
    ];
    for (error, code) in cases {
        assert_eq!(error.code(), code);
        let unavailable = matches!(error, Error::Unavailable(_));
        let internal = matches!(error, Error::Internal(_));
        let mapped = error.into_guest();
        assert_eq!(mapped.code(), code);
        if unavailable {
            assert!(matches!(mapped, GuestError::BadGateway { .. }));
        } else if internal {
            assert!(matches!(mapped, GuestError::ServerError { .. }));
        } else {
            assert!(matches!(mapped, GuestError::BadRequest { .. }));
        }
    }
    assert_eq!(Error::AlreadyActive("c".into()).text(), "already active: c");
    assert_eq!(Error::Unavailable("c".into()).text(), "unavailable: c");
    assert_eq!(Error::Internal("c".into()).text(), "internal: c");
}

fn digest(hex_pair: &str) -> Digest {
    Digest::parse(&format!("sha256:{}", hex_pair.repeat(32))).expect("a valid digest")
}

fn path_ref(package: &str, pin: Option<Digest>) -> PluginRef {
    PluginRef {
        package: package.to_owned(),
        location: Location::Path("./plugin.wasm".into()),
        digest: pin,
    }
}

/// A scripted loader: loads what is asked for, under the pin or a digest of
/// its own, and counts the loads.
#[derive(Default)]
struct Loader {
    loads: Vec<String>,
}

impl Loader {
    fn ensure(&mut self, cache: &mut PluginCache, plugin: &PluginRef) -> Result<Plugin, Error> {
        let loads = &mut self.loads;
        cache.ensure(plugin, |plugin| {
            loads.push(plugin.package.clone());
            let held = plugin.digest.as_ref().map_or_else(|| digest("ab"), Digest::copy);
            Ok(Plugin::new(plugin.package.clone(), held))
        })
    }
}

#[test]
fn ensure_once() {
    let mut loader = Loader::default();
    let mut cache = PluginCache::new();
    let first = loader.ensure(&mut cache, &path_ref("test:echoer", None)).expect("cold load");
    let again = loader.ensure(&mut cache, &path_ref("test:echoer", None)).expect("memo hit");
    assert_eq!(first, again);
    assert_eq!(loader.loads.len(), 1);

    loader.ensure(&mut cache, &path_ref("test:other", None)).expect("distinct package loads");
    assert_eq!(loader.loads.len(), 2);
}

#[test]
fn ensure_re_pin() {
    let mut loader = Loader::default();
    let mut cache = PluginCache::new();
    loader
        .ensure(&mut cache, &path_ref("test:echoer", Some(digest("ab"))))
        .expect("pinned load");

    let error = loader
        .ensure(&mut cache, &path_ref("test:echoer", Some(digest("cd"))))
        .expect_err("conflicting pin refused");
    assert_eq!(
        error,
        Error::AlreadyActive(format!(
            "`test:echoer` is active with digest sha256:{}",
            "ab".repeat(32)
        ))
    );
    assert_eq!(loader.loads.len(), 1, "the host is never re-asked");

    let matching = loader
        .ensure(&mut cache, &path_ref("test:echoer", Some(digest("AB"))))
        .expect("matching pin served from the memo");
    assert_eq!(matching.digest(), &digest("ab"));
}

#[test]
fn failed_loads_are_not_held() {
    let mut cache = PluginCache::new();
    let plugin = path_ref("test:echoer", None);
    let error = cache.ensure(&plugin, |_| Err(Error::Unavailable("down".to_owned())));
    assert_eq!(error, Err(Error::Unavailable("down".to_owned())));
    assert!(cache.lookup(&plugin).is_none());
    let held = Loader::default().ensure(&mut cache, &plugin).expect("the retry loads");
    assert_eq!(held.id(), "test:echoer");
    assert_eq!(cache.lookup(&plugin), Some(Ok(held)));
}

#[test]
fn reported_digests_are_checked() {
    let good = Plugin::reported("a:b".to_owned(), &format!("sha256:{}", "AB".repeat(32)));
    assert_eq!(good, Ok(Plugin::new("a:b".to_owned(), digest("ab"))));
    assert_eq!(
        Plugin::reported("a:b".to_owned(), "junk").unwrap_err().text(),
        "internal: host reported a malformed digest: refused: digest pin `junk` does not use the `sha256:<hex>` scheme"
    );
}

#[test]
fn load_errors_in_words() {
    assert_eq!(LoadError::Refused("a".into()).text(), "refused: a");
    assert_eq!(LoadError::Unavailable("a".into()).text(), "unavailable: a");
    assert_eq!(LoadError::AlreadyActive("a".into()).text(), "already-active: a");
    assert_eq!(LoadError::Internal("a".into()).text(), "internal: a");
    assert!(LoadError::no_plugins("a:b").text().contains("has no plugins"));
    assert!(LoadError::no_plugins("a:b").text().ends_with("to load `a:b`"));
}

#[test]
fn admission_refusals_map_to_loads() {
    assert_eq!(
        LoadError::from(AdmitError::ArtifactRefused("x".into())),
        LoadError::Refused("x".into())
    );
    assert_eq!(
        LoadError::from(AdmitError::AlreadyRegistered("x".into())),
        LoadError::AlreadyActive("x".into())
    );
    assert_eq!(LoadError::from(AdmitError::Internal("x".into())), LoadError::Internal("x".into()));
}
