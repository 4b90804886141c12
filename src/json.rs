use vstd::prelude::*;

verus! {

#[verifier::external_type_specification]
#[verifier::external_body]
pub struct ExJsonError(serde_json::Error);

/// The table that a JSON text denotes as an array of arrays of strings and
/// nulls, or `None` where it denotes none.
pub uninterp spec fn json_table_of(text: Seq<char>) -> Option<Seq<Seq<Option<Seq<char>>>>>;

/// The JSON text that a table is written as, or `None` where it cannot be
/// written.
pub uninterp spec fn json_text_of(table: Seq<Seq<Option<Seq<char>>>>) -> Option<Seq<char>>;

/// Why a table could not be read from, or written to, JSON text.
#[derive(Debug)]
pub enum JsonError {
    /// The text is not a JSON array of arrays of strings and nulls.
    Parse(serde_json::Error),
    /// The table could not be written as JSON.
    Serialize(serde_json::Error),
}

/// Relies on `serde_json::from_str` at `Vec<Vec<Option<String>>>`: whether it
/// succeeds, and the table it builds, depend on the text alone.
#[verifier::external_body]
fn parse_json_table(text: &str) -> (r: Result<Vec<Vec<Option<String>>>, serde_json::Error>)
    ensures
        r is Ok <==> json_table_of(text@) is Some,
        r matches Ok(t) ==> t.deep_view() == json_table_of(text@)->Some_0,
{
    serde_json::from_str::<Vec<Vec<Option<String>>>>(text)
}

/// Relies on `serde_json::to_string` at `Vec<Vec<Option<String>>>`: whether it
/// succeeds, and the text it writes, depend on the table's contents alone.
#[verifier::external_body]
fn write_json_table(table: &Vec<Vec<Option<String>>>) -> (r: Result<String, serde_json::Error>)
    ensures
        r is Ok <==> json_text_of(table.deep_view()) is Some,
        r matches Ok(s) ==> s@ == json_text_of(table.deep_view())->Some_0,
{
    serde_json::to_string(table)
}

/// Reads a table from JSON text: an array of rows, each an array whose items
/// are strings (text cells) or nulls (absent cells).
pub fn json_text_to_table(text: &str) -> (r: Result<Vec<Vec<Option<String>>>, JsonError>)
    ensures
        r is Ok <==> json_table_of(text@) is Some,
        r matches Ok(t) ==> t.deep_view() == json_table_of(text@)->Some_0,
        r matches Err(e) ==> e is Parse,
{
    match parse_json_table(text) {
        Ok(t) => Ok(t),
        Err(e) => Err(JsonError::Parse(e)),
    }
}

/// Writes a table as JSON text: an array of rows, each an array of strings
/// and nulls.
pub fn table_to_json_text(table: &Vec<Vec<Option<String>>>) -> (r: Result<String, JsonError>)
    ensures
        r is Ok <==> json_text_of(table.deep_view()) is Some,
        r matches Ok(s) ==> s@ == json_text_of(table.deep_view())->Some_0,
        r matches Err(e) ==> e is Serialize,
{
    match write_json_table(table) {
        Ok(s) => Ok(s),
        Err(e) => Err(JsonError::Serialize(e)),
    }
}

} // verus!
