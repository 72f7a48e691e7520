//! The output of exec.d programs: TOML tables of variables to set.

use std::collections::BTreeMap;
use vstd::prelude::*;
use vstd::string::*;
use crate::env::{map_of, names_unique};
use crate::text::{trim, trimmed};

verus! {

#[verifier::external_type_specification]
#[verifier::external_body]
pub struct ExTomlDeError(toml::de::Error);

/// The table that the TOML document `text` holds, when all its top-level
/// keys have string values; `None` when `text` is no such document.
pub uninterp spec fn toml_string_table(text: Seq<char>) -> Option<Map<Seq<char>, Seq<char>>>;

/// Calls `toml::from_str` to read `text` into a `BTreeMap<String, String>`
/// and lists the map's entries, each key once. Whether the document is read
/// and which table it holds are named by `toml_string_table`, not stated.
#[verifier::external_body]
fn parse_toml_string_table(text: &str) -> (res: Result<Vec<(String, String)>, toml::de::Error>)
    ensures
        match res {
            Ok(entries) => names_unique(entries@) && toml_string_table(text@) == Some(
                map_of(entries@),
            ),
            Err(_) => toml_string_table(text@) is None,
        },
{
    match toml::from_str::<BTreeMap<String, String>>(text) {
        Ok(table) => Ok(table.into_iter().collect()),
        Err(e) => Err(e),
    }
}

/// Calls the `Display` impl of `toml::de::Error` (through `to_string`) for
/// the text that says why a document was not read. Nothing is stated of
/// that text.
#[verifier::external_body]
fn toml_error_text(e: &toml::de::Error) -> String {
    e.to_string()
}

/// The message for exec.d output that is no table of strings.
pub open spec fn exec_d_decode_error_spec(path: Seq<char>, detail: Seq<char>, output: Seq<char>) -> Seq<
    char,
> {
    "Failed to decode TOML output from exec.d binary '"@ + path + "': "@ + detail + "\nOutput: '"@
        + output + "'"@
}

/// The message for the output `output` of the exec.d program `path` that
/// does not decode, `detail` saying why.
pub fn exec_d_decode_error(path: &str, detail: &str, output: &str) -> (res: String)
    ensures
        res@ == exec_d_decode_error_spec(path@, detail@, output@),
{
    let mut m = String::from_str("Failed to decode TOML output from exec.d binary '");
    m.append(path);
    m.append("': ");
    m.append(detail);
    m.append("\nOutput: '");
    m.append(output);
    m.append("'");
    m
}

/// Decodes what the exec.d program `path` wrote to its output: nothing (or
/// white space only) sets nothing; otherwise a TOML table of strings gives
/// the variables to set.
pub fn decode_exec_d_output(path: &str, output: &str) -> (res: Result<Vec<(String, String)>, String>)
    ensures
        trimmed(output@).len() == 0 ==> (res matches Ok(v) && v@.len() == 0),
        trimmed(output@).len() > 0 ==> match res {
            Ok(v) => names_unique(v@) && toml_string_table(output@) == Some(map_of(v@)),
            Err(m) => toml_string_table(output@) is None && exists|detail: Seq<char>|
                m@ == exec_d_decode_error_spec(path@, detail, output@),
        },
{
    if trim(output).is_empty() {
        return Ok(Vec::new());
    }
    match parse_toml_string_table(output) {
        Ok(vars) => Ok(vars),
        Err(e) => {
            let detail = toml_error_text(&e);
            Err(exec_d_decode_error(path, detail.as_str(), output))
        },
    }
}

} // verus!
