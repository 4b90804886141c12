use vstd::prelude::*;
use vstd::utf8::*;

verus! {

/// Ends every value of a row.
pub const EOV: u8 = 0xFF;

/// Ends a row.
pub const EOR: u8 = 0xFD;

/// Marks the value that it precedes as absent.
pub const NULL: u8 = 0xFE;

/// A table as mathematics sees it: rows of cells, a cell being absent or a
/// sequence of characters.
pub type TableView = Seq<Seq<Option<Seq<char>>>>;

/// One row of a `TableView`.
pub type RowView = Seq<Option<Seq<char>>>;

pub open spec fn is_reserved(b: u8) -> bool {
    b == EOV || b == EOR || b == NULL
}

/// The bytes of one cell: the UTF-8 form of its text, or the null marker,
/// and then the end of the value.
pub open spec fn cell_bytes(c: Option<Seq<char>>) -> Seq<u8> {
    match c {
        Some(s) => encode_utf8(s).push(EOV),
        None => seq![NULL, EOV],
    }
}

/// The bytes of a row's cells, one after the other.
pub open spec fn cells_bytes(r: RowView) -> Seq<u8>
    decreases r.len(),
{
    if r.len() == 0 {
        Seq::empty()
    } else {
        cells_bytes(r.drop_last()) + cell_bytes(r.last())
    }
}

/// The bytes of a row: its cells, then the end of the row.
pub open spec fn row_bytes(r: RowView) -> Seq<u8> {
    cells_bytes(r).push(EOR)
}

/// The RSV encoding of a table: its rows, one after the other.
pub open spec fn table_bytes(t: TableView) -> Seq<u8>
    decreases t.len(),
{
    if t.len() == 0 {
        Seq::empty()
    } else {
        table_bytes(t.drop_last()) + row_bytes(t.last())
    }
}

/// What the decoder holds between two bytes: the rows finished so far, the
/// row being read, the bytes of the value being read, and whether the last
/// cell pushed was an absent one whose end has not come yet.
pub struct DecodeState {
    pub table: TableView,
    pub row: RowView,
    pub acc: Seq<u8>,
    pub pending_null: bool,
}

pub open spec fn initial_state() -> DecodeState {
    DecodeState { table: Seq::empty(), row: Seq::empty(), acc: Seq::empty(), pending_null: false }
}

/// One transition of the decoder on byte `b`; `None` when a value that ends
/// here is not well-formed UTF-8.
pub open spec fn step(s: DecodeState, b: u8) -> Option<DecodeState> {
    if b == EOV {
        if s.pending_null {
            Some(DecodeState { table: s.table, row: s.row, acc: Seq::empty(), pending_null: false })
        } else if valid_utf8(s.acc) {
            Some(
                DecodeState {
                    table: s.table,
                    row: s.row.push(Some(decode_utf8(s.acc))),
                    acc: Seq::empty(),
                    pending_null: false,
                },
            )
        } else {
            None
        }
    } else if b == EOR {
        Some(
            DecodeState {
                table: s.table.push(s.row),
                row: Seq::empty(),
                acc: Seq::empty(),
                pending_null: s.pending_null,
            },
        )
    } else if b == NULL {
        Some(DecodeState { table: s.table, row: s.row.push(None), acc: s.acc, pending_null: true })
    } else {
        Some(DecodeState { table: s.table, row: s.row, acc: s.acc.push(b), pending_null: s.pending_null })
    }
}

/// The decoder's state after reading `bytes` from state `s`; once failed, it
/// stays failed.
pub open spec fn run_from(s: Option<DecodeState>, bytes: Seq<u8>) -> Option<DecodeState>
    decreases bytes.len(),
{
    if bytes.len() == 0 {
        s
    } else {
        match run_from(s, bytes.drop_last()) {
            Some(t) => step(t, bytes.last()),
            None => None,
        }
    }
}

/// The table that `bytes` decode to: the rows that an end of row closed.
/// `None` when some value is not well-formed UTF-8.
pub open spec fn decode_bytes(bytes: Seq<u8>) -> Option<TableView> {
    match run_from(Some(initial_state()), bytes) {
        Some(s) => Some(s.table),
        None => None,
    }
}

/// A failed decoder stays failed, whatever follows.
pub proof fn lemma_run_from_failed(bytes: Seq<u8>)
    ensures
        run_from(None, bytes) is None,
    decreases bytes.len(),
{
    if bytes.len() > 0 {
        lemma_run_from_failed(bytes.drop_last());
    }
}

/// Reading `a + b` is reading `a`, then `b`.
pub proof fn lemma_run_from_append(s: Option<DecodeState>, a: Seq<u8>, b: Seq<u8>)
    ensures
        run_from(s, a + b) == run_from(run_from(s, a), b),
    decreases b.len(),
{
    if b.len() == 0 {
        assert(a + b =~= a);
    } else {
        assert((a + b).drop_last() =~= a + b.drop_last());
        lemma_run_from_append(s, a, b.drop_last());
    }
}

} // verus!
