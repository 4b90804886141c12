use vstd::prelude::*;

use crate::model::{cell_bytes, cells_bytes, table_bytes, EOR, EOV, NULL};

verus! {

/// Encodes a table as RSV bytes: each cell's text (or the null marker),
/// followed by `EOV`, and each row followed by `EOR`.
///
/// No cell is checked for reserved bytes: a `String` is well-formed UTF-8,
/// which never holds them (see `laws::lemma_utf8_free_of_reserved`), so every
/// table decodes back to itself (`laws::lemma_round_trip`).
pub fn convert_vec_to_rsv(table_data: Vec<Vec<Option<String>>>) -> (r: Vec<u8>)
    ensures
        r@ == table_bytes(table_data.deep_view()),
{
    let mut binary_table_encoding: Vec<u8> = Vec::new();
    let ghost t = table_data.deep_view();
    let mut i: usize = 0;
    while i < table_data.len()
        invariant
            i <= table_data@.len(),
            t == table_data.deep_view(),
            binary_table_encoding@ == table_bytes(t.subrange(0, i as int)),
        decreases table_data@.len() - i,
    {
        let row = &table_data[i];
        let ghost r = row.deep_view();
        assert(r == t[i as int]);
        let ghost before = binary_table_encoding@;
        let mut j: usize = 0;
        while j < row.len()
            invariant
                j <= row@.len(),
                r == row.deep_view(),
                binary_table_encoding@ == before + cells_bytes(r.subrange(0, j as int)),
            decreases row@.len() - j,
        {
            let ghost mid = binary_table_encoding@;
            match &row[j] {
                Some(value) => {
                    binary_table_encoding.extend_from_slice(value.as_str().as_bytes());
                },
                None => {
                    binary_table_encoding.push(NULL);
                },
            }
            binary_table_encoding.push(EOV);
            proof {
                assert(binary_table_encoding@ =~= mid + cell_bytes(r[j as int]));
                assert(r.subrange(0, j + 1).drop_last() =~= r.subrange(0, j as int));
                assert(before + cells_bytes(r.subrange(0, j as int)) + cell_bytes(r[j as int])
                    =~= before + cells_bytes(r.subrange(0, j + 1)));
            }
            j += 1;
        }
        binary_table_encoding.push(EOR);
        proof {
            assert(r.subrange(0, r.len() as int) =~= r);
            assert(t.subrange(0, i + 1).drop_last() =~= t.subrange(0, i as int));
            assert(binary_table_encoding@ =~= table_bytes(t.subrange(0, i + 1)));
        }
        i += 1;
    }
    assert(t.subrange(0, t.len() as int) =~= t);
    binary_table_encoding
}

} // verus!
