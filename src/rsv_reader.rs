use vstd::prelude::*;
use vstd::utf8::{decode_utf8, valid_utf8};

use crate::model::{
    decode_bytes, initial_state, lemma_run_from_append, lemma_run_from_failed, run_from, step,
    DecodeState, EOR, EOV, NULL,
};

verus! {

/// Why RSV bytes could not be decoded.
#[derive(Debug, Clone, Copy, PartialEq, Eq, Structural)]
pub enum DecodeError {
    /// The bytes of a value are not well-formed UTF-8.
    InvalidText,
}

/// Relies on `String::from_utf8`: it accepts exactly the well-formed UTF-8
/// byte sequences, and the string it returns holds the characters that they
/// encode.
#[verifier::external_body]
fn string_from_utf8(bytes: Vec<u8>) -> (r: Option<String>)
    ensures
        r is Some <==> valid_utf8(bytes@),
        r matches Some(s) ==> s@ == decode_utf8(bytes@),
{
    String::from_utf8(bytes).ok()
}

/// Decodes RSV bytes into a table, in one pass. Only rows closed by `EOR`
/// are kept; the one error is a value whose bytes are not UTF-8.
pub fn convert_rsv_to_vec(rsv_content: &[u8]) -> (r: Result<Vec<Vec<Option<String>>>, DecodeError>)
    ensures
        r is Ok <==> decode_bytes(rsv_content@) is Some,
        r matches Ok(t) ==> t.deep_view() == decode_bytes(rsv_content@)->Some_0,
{
    let mut rsv_table: Vec<Vec<Option<String>>> = Vec::new();
    let mut rsv_row: Vec<Option<String>> = Vec::new();
    let mut curr_bytes_sequence: Vec<u8> = Vec::new();
    let mut last_is_null: bool = false;
    let mut i: usize = 0;
    assert(rsv_table.deep_view() =~= Seq::empty());
    assert(rsv_row.deep_view() =~= Seq::empty());
    while i < rsv_content.len()
        invariant
            i <= rsv_content@.len(),
            run_from(Some(initial_state()), rsv_content@.subrange(0, i as int)) == Some(
                DecodeState {
                    table: rsv_table.deep_view(),
                    row: rsv_row.deep_view(),
                    acc: curr_bytes_sequence@,
                    pending_null: last_is_null,
                },
            ),
        decreases rsv_content@.len() - i,
    {
        let byte = rsv_content[i];
        let ghost s = DecodeState {
            table: rsv_table.deep_view(),
            row: rsv_row.deep_view(),
            acc: curr_bytes_sequence@,
            pending_null: last_is_null,
        };
        assert(rsv_content@.subrange(0, i + 1).drop_last() =~= rsv_content@.subrange(0, i as int));
        if byte == EOV {
            let value = curr_bytes_sequence;
            curr_bytes_sequence = Vec::new();
            if last_is_null {
                last_is_null = false;
            } else {
                match string_from_utf8(value) {
                    Some(text) => {
                        rsv_row.push(Some(text));
                        assert(rsv_row.deep_view() =~= s.row.push(Some(decode_utf8(s.acc))));
                    },
                    None => {
                        proof {
                            let whole = rsv_content@;
                            assert(whole =~= whole.subrange(0, i + 1) + whole.subrange(i + 1, whole.len() as int));
                            lemma_run_from_append(Some(initial_state()), whole.subrange(0, i + 1), whole.subrange(i + 1, whole.len() as int));
                            lemma_run_from_failed(whole.subrange(i + 1, whole.len() as int));
                        }
                        return Err(DecodeError::InvalidText);
                    },
                }
            }
        } else if byte == EOR {
            let row = rsv_row;
            rsv_row = Vec::new();
            rsv_table.push(row);
            curr_bytes_sequence = Vec::new();
            assert(rsv_table.deep_view() =~= s.table.push(s.row));
            assert(rsv_row.deep_view() =~= Seq::empty());
        } else if byte == NULL {
            last_is_null = true;
            rsv_row.push(None);
            assert(rsv_row.deep_view() =~= s.row.push(None));
        } else {
            curr_bytes_sequence.push(byte);
        }
        assert(curr_bytes_sequence@ =~= step(s, byte)->Some_0.acc);
        i += 1;
    }
    assert(rsv_content@.subrange(0, rsv_content@.len() as int) =~= rsv_content@);
    Ok(rsv_table)
}

} // verus!
