//! JSON documents, as `serde_json` reads them.  The library carries them
//! through and never looks inside.
use vstd::prelude::*;

verus! {

/// A JSON document of `serde_json`.
#[verifier::external_type_specification]
#[verifier::external_body]
pub struct ExJsonValue(serde_json::Value);

/// What `serde_json::from_str::<Value>` gives for a text: the document, or
/// the text of its error.
pub uninterp spec fn json_parse(text: Seq<char>) -> Result<serde_json::Value, Seq<char>>;

/// Reads a JSON document.
///
/// Trusted: `serde_json::from_str` into a `serde_json::Value`.  The outcome
/// (the document, or the `Display` text of the error) depends on the text
/// alone and is named `json_parse`; which texts are accepted is left to
/// `serde_json`.
#[verifier::external_body]
pub(crate) fn parse_json(text: &str) -> (r: Result<serde_json::Value, String>)
    ensures
        match r {
            Ok(v) => json_parse(text@) == Ok::<serde_json::Value, Seq<char>>(v),
            Err(e) => json_parse(text@) == Err::<serde_json::Value, Seq<char>>(e@),
        },
{
    match serde_json::from_str::<serde_json::Value>(text) {
        Ok(v) => Ok(v),
        Err(e) => Err(e.to_string()),
    }
}

/// A copy of a JSON document.
///
/// Trusted: `Clone` of `serde_json::Value`, which copies the whole document.
#[verifier::external_body]
pub(crate) fn clone_json(v: &serde_json::Value) -> (r: serde_json::Value)
    ensures
        r == *v,
{
    v.clone()
}

/// The JSON body of the default configuration, as text.
pub open spec fn default_body_text() -> Seq<char> {
    "{\"test\":\"api_performance\",\"timestamp\":\"auto\"}"@
}

/// Reads the JSON body of the default configuration.
///
/// Trusted: `serde_json::from_str` into a `serde_json::Value`.  The only
/// text admitted is `default_body_text()`, which is valid JSON, so the call
/// succeeds; the document returned is what `json_parse` names for the text.
#[verifier::external_body]
pub(crate) fn parse_default_body(text: &str) -> (r: serde_json::Value)
    requires
        text@ == default_body_text(),
    ensures
        (json_parse(text@) == Ok::<serde_json::Value, Seq<char>>(r)),
{
    serde_json::from_str::<serde_json::Value>(text).unwrap()
}

} // verus!
