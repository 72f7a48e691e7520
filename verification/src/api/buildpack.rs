//! The buildpack API versions that this lifecycle speaks.

use vstd::prelude::*;
use vstd::string::*;
use crate::api::version::{
    any_listed_superset, lemma_parse_zero_dot_one, lemma_parse_zero_dot_two, listed_superset,
    parse_error_message, parse_version_spec, written_accepts, Version,
};
use crate::text::{trim, trimmed};

verus! {

/// The supported buildpack API versions, as written.
pub open spec fn supported_buildpack_apis_spec() -> Seq<Seq<char>> {
    seq!["0.7"@, "0.8"@, "0.9"@, "0.10"@, "0.11"@, "0.12"@]
}

/// The deprecated buildpack API versions, as written: there are none.
pub open spec fn deprecated_buildpack_apis_spec() -> Seq<Seq<char>> {
    Seq::empty()
}

/// `requested` is a supported buildpack API version.
pub open spec fn buildpack_api_supported(requested: Version) -> bool {
    listed_superset(supported_buildpack_apis_spec(), requested)
}

/// `requested` is a deprecated buildpack API version.
pub open spec fn buildpack_api_deprecated(requested: Version) -> bool {
    listed_superset(deprecated_buildpack_apis_spec(), requested)
}

/// The supported buildpack API versions, as written.
pub fn supported_buildpack_apis() -> (res: Vec<&'static str>)
    ensures
        res@.map_values(|s: &str| s@) == supported_buildpack_apis_spec(),
{
    let mut v: Vec<&'static str> = Vec::new();
    v.push("0.7");
    v.push("0.8");
    v.push("0.9");
    v.push("0.10");
    v.push("0.11");
    v.push("0.12");
    assert(v@.map_values(|s: &str| s@) =~= supported_buildpack_apis_spec());
    v
}

/// The deprecated buildpack API versions, as written.
pub fn deprecated_buildpack_apis() -> (res: Vec<&'static str>)
    ensures
        res@.map_values(|s: &str| s@) == deprecated_buildpack_apis_spec(),
{
    let v: Vec<&'static str> = Vec::new();
    assert(v@.map_values(|s: &str| s@) =~= deprecated_buildpack_apis_spec());
    v
}

/// Whether `requested` is a supported buildpack API version.
pub fn is_supported(requested: &Version) -> (res: bool)
    ensures
        res == buildpack_api_supported(*requested),
{
    let list = supported_buildpack_apis();
    any_listed_superset(&list, requested)
}

/// Whether `requested` is a deprecated buildpack API version.
pub fn is_deprecated(requested: &Version) -> (res: bool)
    ensures
        res == buildpack_api_deprecated(*requested),
        !res,
{
    let list = deprecated_buildpack_apis();
    any_listed_superset(&list, requested)
}

/// The supported buildpack API versions are exactly `0.7` to `0.12`.
pub proof fn lemma_buildpack_supported_range(requested: Version)
    ensures
        buildpack_api_supported(requested) <==> (requested.major == 0 && 7 <= requested.minor
            <= 12),
{
    let list = supported_buildpack_apis_spec();
    reveal_strlit("0.7");
    reveal_strlit("0.8");
    reveal_strlit("0.9");
    reveal_strlit("0.10");
    reveal_strlit("0.11");
    reveal_strlit("0.12");
    assert(list[0] =~= seq!['0', '.', '7']);
    assert(list[1] =~= seq!['0', '.', '8']);
    assert(list[2] =~= seq!['0', '.', '9']);
    assert(list[3] =~= seq!['0', '.', '1', '0']);
    assert(list[4] =~= seq!['0', '.', '1', '1']);
    assert(list[5] =~= seq!['0', '.', '1', '2']);
    lemma_parse_zero_dot_one('7');
    lemma_parse_zero_dot_one('8');
    lemma_parse_zero_dot_one('9');
    lemma_parse_zero_dot_two('1', '0');
    lemma_parse_zero_dot_two('1', '1');
    lemma_parse_zero_dot_two('1', '2');
    if requested.major == 0 && 7 <= requested.minor <= 12 {
        let i = requested.minor - 7;
        assert(written_accepts(list[i as int], requested));
    }
}

/// Why a buildpack's requested API version was refused.
#[derive(Debug, PartialEq, Eq, Clone)]
pub enum BuildpackApiError {
    /// The version does not parse.
    Parse { bp_id: String, version: String, error: String },
    /// The version parses but the lifecycle does not support it.
    Incompatible { bp_id: String, version: String },
}

impl BuildpackApiError {
    /// The human-readable message of this error.
    pub open spec fn message_spec(&self) -> Seq<char> {
        match self {
            BuildpackApiError::Parse { bp_id, version, error } => "Parse buildpack API '"@
                + version@ + "' for buildpack '"@ + bp_id@ + "': "@ + error@,
            BuildpackApiError::Incompatible { bp_id, version } => "buildpack API version '"@
                + version@ + "' is incompatible with the lifecycle for buildpack '"@ + bp_id@
                + "'"@,
        }
    }

    /// The human-readable message of this error.
    pub fn to_string(&self) -> (res: String)
        ensures
            res@ == self.message_spec(),
    {
        match self {
            BuildpackApiError::Parse { bp_id, version, error } => {
                let mut m = String::from_str("Parse buildpack API '");
                m.append(version.as_str());
                m.append("' for buildpack '");
                m.append(bp_id.as_str());
                m.append("': ");
                m.append(error.as_str());
                m
            },
            BuildpackApiError::Incompatible { bp_id, version } => {
                let mut m = String::from_str("buildpack API version '");
                m.append(version.as_str());
                m.append("' is incompatible with the lifecycle for buildpack '");
                m.append(bp_id.as_str());
                m.append("'");
                m
            },
        }
    }
}

/// Checks the buildpack API version that buildpack `bp_id` requests: the
/// request, trimmed of white space, must parse and be supported.
pub fn verify_buildpack_api(bp_id: &str, requested_str: &str) -> (res: Result<
    Version,
    BuildpackApiError,
>)
    ensures
        ({
            let clean = trimmed(requested_str@);
            match res {
                Ok(v) => parse_version_spec(clean) == Some(v) && buildpack_api_supported(v),
                Err(BuildpackApiError::Parse { bp_id: b, version, error }) => {
                    &&& parse_version_spec(clean) is None
                    &&& b@ == bp_id@
                    &&& version@ == clean
                    &&& error@ == parse_error_message(clean)
                },
                Err(BuildpackApiError::Incompatible { bp_id: b, version }) => {
                    &&& parse_version_spec(clean) matches Some(v)
                    &&& !buildpack_api_supported(v)
                    &&& b@ == bp_id@
                    &&& version@ == clean
                },
            }
        }),
{
    let clean = trim(requested_str);
    match Version::parse(clean) {
        Err(e) => Err(
            BuildpackApiError::Parse {
                bp_id: String::from_str(bp_id),
                version: String::from_str(clean),
                error: e,
            },
        ),
        Ok(requested) => {
            if is_supported(&requested) {
                Ok(requested)
            } else {
                Err(
                    BuildpackApiError::Incompatible {
                        bp_id: String::from_str(bp_id),
                        version: String::from_str(clean),
                    },
                )
            }
        },
    }
}

} // verus!
