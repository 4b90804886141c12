use vstd::prelude::*;
use vstd::utf8::{
    char_is_scalar, encode_scalar, encode_utf8, encode_utf8_decode_utf8,
    encode_utf8_valid_utf8, is_scalar, valid_utf8,
};

use crate::model::{
    cell_bytes, cells_bytes, decode_bytes, initial_state, is_reserved, lemma_run_from_append,
    lemma_run_from_failed, row_bytes, run_from, step, table_bytes, DecodeState, RowView,
    TableView, EOR, EOV, NULL,
};

verus! {

pub open spec fn free_of_reserved(bytes: Seq<u8>) -> bool {
    forall|k: int| 0 <= k < bytes.len() ==> !is_reserved(#[trigger] bytes[k])
}

proof fn lemma_scalar_free_of_reserved(v: u32)
    requires
        is_scalar(v),
    ensures
        free_of_reserved(encode_scalar(v)),
{
    assert(((v & 0x7F) as u8) < 0xF5u8) by (bit_vector);
    assert((0xC0u8 | ((v >> 6) & 0x1F) as u8) < 0xF5u8) by (bit_vector);
    assert((0xE0u8 | ((v >> 12) & 0x0F) as u8) < 0xF5u8) by (bit_vector);
    assert((0x80u8 | (v & 0x3F) as u8) < 0xF5u8) by (bit_vector);
    assert((0x80u8 | ((v >> 6) & 0x3F) as u8) < 0xF5u8) by (bit_vector);
    assert((0x80u8 | ((v >> 12) & 0x3F) as u8) < 0xF5u8) by (bit_vector);
    assert(v <= 0x10FFFFu32 ==> (0xF0u8 | ((v >> 18) & 0x7) as u8) < 0xF5u8) by (bit_vector);
}

/// The UTF-8 form of any text holds none of the three reserved bytes: no
/// well-formed UTF-8 byte is 0xF5 or above.
pub proof fn lemma_utf8_free_of_reserved(s: Seq<char>)
    ensures
        free_of_reserved(encode_utf8(s)),
    decreases s.len(),
{
    if s.len() > 0 {
        char_is_scalar(s[0]);
        lemma_scalar_free_of_reserved(s[0] as u32);
        lemma_utf8_free_of_reserved(s.drop_first());
        let a = encode_scalar(s[0] as u32);
        let b = encode_utf8(s.drop_first());
        assert forall|k: int| 0 <= k < (a + b).len() implies !is_reserved(#[trigger] (a + b)[k]) by {
            if k >= a.len() {
                assert((a + b)[k] == b[k - a.len()]);
            }
        }
    }
}

proof fn lemma_run_from_one(s: Option<DecodeState>, b: u8)
    ensures
        run_from(s, seq![b]) == match s {
            Some(t) => step(t, b),
            None => None,
        },
{
    assert(seq![b].drop_last() =~= Seq::<u8>::empty());
    assert(run_from(s, Seq::<u8>::empty()) == s);
}

/// Value bytes only grow the accumulator.
proof fn lemma_run_value_bytes(s: DecodeState, bytes: Seq<u8>)
    requires
        free_of_reserved(bytes),
    ensures
        run_from(Some(s), bytes) == Some(
            DecodeState { table: s.table, row: s.row, acc: s.acc + bytes, pending_null: s.pending_null },
        ),
    decreases bytes.len(),
{
    if bytes.len() == 0 {
        assert(s.acc + bytes =~= s.acc);
    } else {
        lemma_run_value_bytes(s, bytes.drop_last());
        assert(!is_reserved(bytes[bytes.len() - 1]));
        assert((s.acc + bytes.drop_last()).push(bytes.last()) =~= s.acc + bytes);
    }
}

/// The bytes of one cell push that cell onto the row being read.
proof fn lemma_run_cell(s: DecodeState, c: Option<Seq<char>>)
    requires
        s.acc.len() == 0,
        !s.pending_null,
    ensures
        run_from(Some(s), cell_bytes(c)) == Some(
            DecodeState { table: s.table, row: s.row.push(c), acc: Seq::empty(), pending_null: false },
        ),
{
    match c {
        Some(text) => {
            let v = encode_utf8(text);
            lemma_utf8_free_of_reserved(text);
            lemma_run_value_bytes(s, v);
            lemma_run_from_append(Some(s), v, seq![EOV]);
            assert(v + seq![EOV] =~= cell_bytes(c));
            assert(s.acc + v =~= v);
            encode_utf8_valid_utf8(text);
            encode_utf8_decode_utf8(text);
            lemma_run_from_one(run_from(Some(s), v), EOV);
        },
        None => {
            lemma_run_from_one(Some(s), NULL);
            lemma_run_from_append(Some(s), seq![NULL], seq![EOV]);
            assert(seq![NULL] + seq![EOV] =~= cell_bytes(c));
            lemma_run_from_one(run_from(Some(s), seq![NULL]), EOV);
        },
    }
}

/// The bytes of a row's cells append those cells to the row being read.
proof fn lemma_run_cells(s: DecodeState, r: RowView)
    requires
        s.acc.len() == 0,
        !s.pending_null,
    ensures
        run_from(Some(s), cells_bytes(r)) == Some(
            DecodeState { table: s.table, row: s.row + r, acc: Seq::empty(), pending_null: false },
        ),
    decreases r.len(),
{
    if r.len() == 0 {
        assert(s.row + r =~= s.row);
        assert(s.acc =~= Seq::<u8>::empty());
    } else {
        lemma_run_cells(s, r.drop_last());
        let mid = DecodeState {
            table: s.table,
            row: s.row + r.drop_last(),
            acc: Seq::empty(),
            pending_null: false,
        };
        lemma_run_from_append(Some(s), cells_bytes(r.drop_last()), cell_bytes(r.last()));
        lemma_run_cell(mid, r.last());
        assert((s.row + r.drop_last()).push(r.last()) =~= s.row + r);
    }
}

/// The bytes of a table's rows append those rows to the table being read.
proof fn lemma_run_rows(t: TableView)
    ensures
        run_from(Some(initial_state()), table_bytes(t)) == Some(
            DecodeState { table: t, row: Seq::empty(), acc: Seq::empty(), pending_null: false },
        ),
    decreases t.len(),
{
    if t.len() == 0 {
        assert(run_from(Some(initial_state()), table_bytes(t)) == Some(initial_state()));
        assert(t =~= Seq::<RowView>::empty());
    } else {
        let prev = t.drop_last();
        let r = t.last();
        lemma_run_rows(prev);
        let s = DecodeState { table: prev, row: Seq::empty(), acc: Seq::empty(), pending_null: false };
        lemma_run_from_append(Some(initial_state()), table_bytes(prev), row_bytes(r));
        lemma_run_cells(s, r);
        assert(Seq::<Option<Seq<char>>>::empty() + r =~= r);
        lemma_run_from_append(Some(s), cells_bytes(r), seq![EOR]);
        assert(cells_bytes(r) + seq![EOR] =~= row_bytes(r));
        lemma_run_from_one(run_from(Some(s), cells_bytes(r)), EOR);
        assert(prev.push(r) =~= t);
    }
}

/// Decoding the encoding of any table gives that table back: cells, their
/// order, absent cells and empty rows included.
pub proof fn lemma_round_trip(t: TableView)
    ensures
        decode_bytes(table_bytes(t)) == Some(t),
{
    lemma_run_rows(t);
}

/// After any whole table, a value whose bytes are not well-formed UTF-8 makes
/// decoding fail.
pub proof fn lemma_invalid_text_fails(t: TableView, value: Seq<u8>, rest: Seq<u8>)
    requires
        free_of_reserved(value),
        !valid_utf8(value),
    ensures
        decode_bytes(table_bytes(t) + value + seq![EOV] + rest) is None,
{
    let s = DecodeState { table: t, row: Seq::empty(), acc: Seq::empty(), pending_null: false };
    lemma_run_rows(t);
    lemma_run_value_bytes(s, value);
    assert(s.acc + value =~= value);
    lemma_run_from_append(Some(initial_state()), table_bytes(t), value);
    lemma_run_from_append(Some(initial_state()), table_bytes(t) + value, seq![EOV]);
    lemma_run_from_one(run_from(Some(initial_state()), table_bytes(t) + value), EOV);
    lemma_run_from_append(Some(initial_state()), table_bytes(t) + value + seq![EOV], rest);
    lemma_run_from_failed(rest);
}

/// A row that no end of row closes is dropped: after any whole table, the
/// bytes of some cells and then value bytes with no `EOR` decode to that
/// table alone.
pub proof fn lemma_unterminated_row_dropped(t: TableView, r: RowView, value: Seq<u8>)
    requires
        free_of_reserved(value),
    ensures
        decode_bytes(table_bytes(t) + cells_bytes(r) + value) == Some(t),
{
    let s = DecodeState { table: t, row: Seq::empty(), acc: Seq::empty(), pending_null: false };
    lemma_run_rows(t);
    lemma_run_cells(s, r);
    let after_cells = DecodeState {
        table: t,
        row: Seq::<Option<Seq<char>>>::empty() + r,
        acc: Seq::empty(),
        pending_null: false,
    };
    lemma_run_value_bytes(after_cells, value);
    lemma_run_from_append(Some(initial_state()), table_bytes(t), cells_bytes(r));
    lemma_run_from_append(Some(initial_state()), table_bytes(t) + cells_bytes(r), value);
}

} // verus!
