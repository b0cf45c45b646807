//! The loader's refusal vocabulary.

use crate::runtime::AdmitError;
use vstd::prelude::*;
use vstd::string::StringExecFns;

verus! {

/// Why a load was refused.
#[derive(Clone, Debug, PartialEq, Eq)]
pub enum LoadError {
    /// The request or deployment is wrong and a retry cannot succeed.
    Refused(String),
    /// The acquirer could not produce the package bytes; a retry may succeed.
    Unavailable(String),
    /// The package identity is already registered and cannot be re-bound.
    AlreadyActive(String),
    /// Loader misconfiguration or an internal registration failure.
    Internal(String),
}

impl LoadError {
    /// The shared refusal for a deployment that linked the loader host but
    /// installed no plugins.
    #[must_use]
    pub fn no_plugins(package: &str) -> (r: Self)
        ensures
            r matches LoadError::Internal(text) && text@
                == "this deployment has no plugins; declare a location (`plugins: { locations: [...] }` inline, or `[[location]]` in the config file) to load `"@
                + package@ + "`"@,
    {
        LoadError::Internal(
            String::from_str(
                "this deployment has no plugins; declare a location (`plugins: { locations: [...] }` inline, or `[[location]]` in the config file) to load `",
            ).concat(package).concat("`"),
        )
    }

    pub open spec fn text_spec(self) -> Seq<char> {
        match self {
            LoadError::Refused(detail) => "refused: "@ + detail@,
            LoadError::Unavailable(detail) => "unavailable: "@ + detail@,
            LoadError::AlreadyActive(detail) => "already-active: "@ + detail@,
            LoadError::Internal(detail) => "internal: "@ + detail@,
        }
    }

    /// The refusal in words.
    #[must_use]
    pub fn text(&self) -> (text: String)
        ensures
            text@ == self.text_spec(),
    {
        match self {
            LoadError::Refused(detail) => String::from_str("refused: ").concat(detail.as_str()),
            LoadError::Unavailable(detail) => String::from_str("unavailable: ").concat(
                detail.as_str(),
            ),
            LoadError::AlreadyActive(detail) => String::from_str("already-active: ").concat(
                detail.as_str(),
            ),
            LoadError::Internal(detail) => String::from_str("internal: ").concat(
                detail.as_str(),
            ),
        }
    }
}

impl vstd::std_specs::convert::FromSpecImpl<AdmitError> for LoadError {
    open spec fn obeys_from_spec() -> bool {
        true
    }

    open spec fn from_spec(error: AdmitError) -> Self {
        match error {
            AdmitError::ArtifactRefused(reason) => LoadError::Refused(reason),
            AdmitError::AlreadyRegistered(reason) => LoadError::AlreadyActive(reason),
            AdmitError::Internal(reason) => LoadError::Internal(reason),
        }
    }
}

impl From<AdmitError> for LoadError {
    fn from(error: AdmitError) -> (r: Self) {
        match error {
            AdmitError::ArtifactRefused(reason) => LoadError::Refused(reason),
            AdmitError::AlreadyRegistered(reason) => LoadError::AlreadyActive(reason),
            AdmitError::Internal(reason) => LoadError::Internal(reason),
        }
    }
}

/// A refused admission refuses the load for the same reason and tells it: an
/// artifact at fault is refused for good, an identity that is taken is active
/// already, and nothing else is worth a retry.
pub proof fn loads_are_refused_as_admissions(error: AdmitError)
    ensures
        ({
            let refusal = <LoadError as vstd::std_specs::convert::FromSpec<AdmitError>>::from_spec(
                error,
            );
            &&& refusal is Refused <==> error is ArtifactRefused
            &&& refusal is AlreadyActive <==> error is AlreadyRegistered
            &&& refusal is Internal <==> error is Internal
            &&& crate::text::holds(refusal.text_spec(), error.text_spec())
        }),
{
    crate::text::holding_goes_on(error.text_spec());
}

/// A load without plugins is the deployment's fault, and tells the package.
pub proof fn missing_plugins_name_the_package(package: &str, r: LoadError)
    requires
        call_ensures(LoadError::no_plugins, (package,), r),
    ensures
        r is Internal,
        crate::text::holds(r.text_spec(), package@),
{
    crate::text::holding_goes_on(package@);
}

} // verus!
