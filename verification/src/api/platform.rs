//! The platform API versions that this lifecycle speaks.

use vstd::prelude::*;
use vstd::string::*;
use crate::api::version::{
    any_listed_superset, lemma_parse_zero_dot_one, lemma_parse_zero_dot_two, listed_superset,
    parse_version_spec, written_accepts, Version,
};
use crate::text::{trim, trimmed};

verus! {

/// The supported platform API versions, as written.
pub open spec fn supported_platform_apis_spec() -> Seq<Seq<char>> {
    seq!["0.7"@, "0.8"@, "0.9"@, "0.10"@, "0.11"@, "0.12"@, "0.13"@, "0.14"@, "0.15"@]
}

/// The deprecated platform API versions, as written: there are none.
pub open spec fn deprecated_platform_apis_spec() -> Seq<Seq<char>> {
    Seq::empty()
}

/// `requested` is a supported platform API version.
pub open spec fn platform_api_supported(requested: Version) -> bool {
    listed_superset(supported_platform_apis_spec(), requested)
}

/// `requested` is a deprecated platform API version.
pub open spec fn platform_api_deprecated(requested: Version) -> bool {
    listed_superset(deprecated_platform_apis_spec(), requested)
}

/// The supported platform API versions, as written.
pub fn supported_platform_apis() -> (res: Vec<&'static str>)
    ensures
        res@.map_values(|s: &str| s@) == supported_platform_apis_spec(),
{
    let mut v: Vec<&'static str> = Vec::new();
    v.push("0.7");
    v.push("0.8");
    v.push("0.9");
    v.push("0.10");
    v.push("0.11");
    v.push("0.12");
    v.push("0.13");
    v.push("0.14");
    v.push("0.15");
    assert(v@.map_values(|s: &str| s@) =~= supported_platform_apis_spec());
    v
}

/// The deprecated platform API versions, as written.
pub fn deprecated_platform_apis() -> (res: Vec<&'static str>)
    ensures
        res@.map_values(|s: &str| s@) == deprecated_platform_apis_spec(),
{
    let v: Vec<&'static str> = Vec::new();
    assert(v@.map_values(|s: &str| s@) =~= deprecated_platform_apis_spec());
    v
}

/// Whether `requested` is a supported platform API version.
pub fn is_supported(requested: &Version) -> (res: bool)
    ensures
        res == platform_api_supported(*requested),
{
    let list = supported_platform_apis();
    any_listed_superset(&list, requested)
}

/// Whether `requested` is a deprecated platform API version.
pub fn is_deprecated(requested: &Version) -> (res: bool)
    ensures
        res == platform_api_deprecated(*requested),
        !res,
{
    let list = deprecated_platform_apis();
    any_listed_superset(&list, requested)
}

/// The supported platform API versions are exactly `0.7` to `0.15`.
pub proof fn lemma_platform_supported_range(requested: Version)
    ensures
        platform_api_supported(requested) <==> (requested.major == 0 && 7 <= requested.minor
            <= 15),
{
    let list = supported_platform_apis_spec();
    reveal_strlit("0.7");
    reveal_strlit("0.8");
    reveal_strlit("0.9");
    reveal_strlit("0.10");
    reveal_strlit("0.11");
    reveal_strlit("0.12");
    reveal_strlit("0.13");
    reveal_strlit("0.14");
    reveal_strlit("0.15");
    assert(list[0] =~= seq!['0', '.', '7']);
    assert(list[1] =~= seq!['0', '.', '8']);
    assert(list[2] =~= seq!['0', '.', '9']);
    assert(list[3] =~= seq!['0', '.', '1', '0']);
    assert(list[4] =~= seq!['0', '.', '1', '1']);
    assert(list[5] =~= seq!['0', '.', '1', '2']);
    assert(list[6] =~= seq!['0', '.', '1', '3']);
    assert(list[7] =~= seq!['0', '.', '1', '4']);
    assert(list[8] =~= seq!['0', '.', '1', '5']);
    lemma_parse_zero_dot_one('7');
    lemma_parse_zero_dot_one('8');
    lemma_parse_zero_dot_one('9');
    lemma_parse_zero_dot_two('1', '0');
    lemma_parse_zero_dot_two('1', '1');
    lemma_parse_zero_dot_two('1', '2');
    lemma_parse_zero_dot_two('1', '3');
    lemma_parse_zero_dot_two('1', '4');
    lemma_parse_zero_dot_two('1', '5');
    if requested.major == 0 && 7 <= requested.minor <= 15 {
        let i = requested.minor - 7;
        assert(written_accepts(list[i as int], requested));
    }
}

/// Why the platform's requested API version was refused.
#[derive(Debug, PartialEq, Eq)]
pub enum PlatformApiError {
    /// The request is empty, or white space only.
    Empty,
    /// The request does not parse.
    Invalid(String),
    /// The request parses but the lifecycle does not support it.
    Incompatible(String),
}

impl PlatformApiError {
    /// The human-readable message of this error.
    pub open spec fn message_spec(&self) -> Seq<char> {
        match self {
            PlatformApiError::Empty => "Platform API version is empty"@,
            PlatformApiError::Invalid(v) => "parse platform API '"@ + v@ + "'"@,
            PlatformApiError::Incompatible(v) => "platform API version '"@ + v@
                + "' is incompatible with the lifecycle"@,
        }
    }

    /// The human-readable message of this error.
    pub fn to_string(&self) -> (res: String)
        ensures
            res@ == self.message_spec(),
    {
        match self {
            PlatformApiError::Empty => String::from_str("Platform API version is empty"),
            PlatformApiError::Invalid(v) => {
                let mut m = String::from_str("parse platform API '");
                m.append(v.as_str());
                m.append("'");
                m
            },
            PlatformApiError::Incompatible(v) => {
                let mut m = String::from_str("platform API version '");
                m.append(v.as_str());
                m.append("' is incompatible with the lifecycle");
                m
            },
        }
    }
}

/// Checks the platform API version that the platform requests: the request,
/// trimmed of white space, must be non-empty, parse and be supported.
pub fn verify_platform_api(requested_str: &str) -> (res: Result<Version, PlatformApiError>)
    ensures
        ({
            let clean = trimmed(requested_str@);
            match res {
                Ok(v) => parse_version_spec(clean) == Some(v) && platform_api_supported(v),
                Err(PlatformApiError::Empty) => clean.len() == 0,
                Err(PlatformApiError::Invalid(version)) => {
                    &&& clean.len() > 0
                    &&& parse_version_spec(clean) is None
                    &&& version@ == clean
                },
                Err(PlatformApiError::Incompatible(version)) => {
                    &&& parse_version_spec(clean) matches Some(v)
                    &&& !platform_api_supported(v)
                    &&& version@ == clean
                },
            }
        }),
{
    let clean = trim(requested_str);
    if clean.is_empty() {
        return Err(PlatformApiError::Empty);
    }
    match Version::parse(clean) {
        Err(_) => Err(PlatformApiError::Invalid(String::from_str(clean))),
        Ok(requested) => {
            if is_supported(&requested) {
                Ok(requested)
            } else {
                Err(PlatformApiError::Incompatible(String::from_str(clean)))
            }
        },
    }
}

} // verus!
