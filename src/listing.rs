//! Layout of the vault listing: the width of each column of a table.

use vstd::prelude::*;
use vstd::utf8::*;

verus! {

/// The length of a text in UTF-8 bytes.
pub open spec fn byte_len(s: Seq<char>) -> nat {
    encode_utf8(s).len()
}

/// The views of a row of cells.
pub open spec fn row_view(row: Seq<String>) -> Seq<Seq<char>> {
    row.map_values(|s: String| s@)
}

/// The views of a table's rows.
pub open spec fn rows_view(rows: Seq<Vec<String>>) -> Seq<Seq<Seq<char>>> {
    rows.map_values(|r: Vec<String>| row_view(r@))
}

/// The width of column `i`: the byte length of its widest cell, header
/// included.
pub open spec fn column_width(headers: Seq<Seq<char>>, rows: Seq<Seq<Seq<char>>>, i: int) -> nat
    decreases rows.len(),
{
    if rows.len() == 0 {
        byte_len(headers[i])
    } else {
        let w = column_width(headers, rows.drop_last(), i);
        let c = byte_len(rows.last()[i]);
        if c > w {
            c
        } else {
            w
        }
    }
}

/// The width of each column of a table, or nothing when a row has not as
/// many cells as there are headers.
pub fn column_widths(headers: &Vec<String>, rows: &Vec<Vec<String>>) -> (r: Option<Vec<usize>>)
    ensures
        match r {
            Some(w) => (forall|k: int|
                0 <= k < rows@.len() ==> (#[trigger] rows@[k])@.len() == headers@.len())
                && w@.len() == headers@.len() && forall|i: int|
                0 <= i < w@.len() ==> #[trigger] w@[i] == column_width(
                    row_view(headers@),
                    rows_view(rows@),
                    i,
                ),
            None => exists|k: int|
                0 <= k < rows@.len() && (#[trigger] rows@[k])@.len() != headers@.len(),
        },
{
    let ghost hv = row_view(headers@);
    let mut widths: Vec<usize> = Vec::new();
    let mut i: usize = 0;
    while i < headers.len()
        invariant
            i <= headers@.len(),
            hv == row_view(headers@),
            widths@.len() == i,
            forall|j: int|
                0 <= j < i ==> #[trigger] widths@[j] == column_width(hv, Seq::empty(), j),
        decreases headers@.len() - i,
    {
        widths.push(headers[i].as_str().as_bytes().len());
        i = i + 1;
    }
    let mut r: usize = 0;
    while r < rows.len()
        invariant
            r <= rows@.len(),
            hv == row_view(headers@),
            widths@.len() == headers@.len(),
            forall|k: int| 0 <= k < r ==> (#[trigger] rows@[k])@.len() == headers@.len(),
            forall|j: int|
                0 <= j < widths@.len() ==> #[trigger] widths@[j] == column_width(
                    hv,
                    rows_view(rows@).take(r as int),
                    j,
                ),
        decreases rows@.len() - r,
    {
        let row = &rows[r];
        if row.len() != headers.len() {
            return None;
        }
        let ghost before = widths@;
        let ghost taken = rows_view(rows@).take(r as int + 1);
        assert(taken.drop_last() =~= rows_view(rows@).take(r as int));
        assert(taken.last() == row_view(row@));
        let mut c: usize = 0;
        while c < row.len()
            invariant
                c <= row@.len(),
                row@.len() == headers@.len(),
                widths@.len() == headers@.len(),
                taken.drop_last() == rows_view(rows@).take(r as int),
                taken.last() == row_view(row@),
                taken.len() == r + 1,
                before.len() == widths@.len(),
                forall|j: int|
                    0 <= j < c ==> #[trigger] widths@[j] == column_width(hv, taken, j),
                forall|j: int| c <= j < widths@.len() ==> #[trigger] widths@[j] == before[j],
                forall|j: int|
                    0 <= j < widths@.len() ==> before[j] == column_width(
                        hv,
                        taken.drop_last(),
                        j,
                    ),
            decreases row@.len() - c,
        {
            let n = row[c].as_str().as_bytes().len();
            assert(row_view(row@)[c as int] == row@[c as int]@);
            assert(byte_len(taken.last()[c as int]) == n);
            assert(taken.len() > 0);
            assert(widths@[c as int] == column_width(hv, taken.drop_last(), c as int));
            if n > widths[c] {
                widths.set(c, n);
            }
            c = c + 1;
        }
        r = r + 1;
    }
    assert(rows_view(rows@).take(rows@.len() as int) =~= rows_view(rows@));
    Some(widths)
}

} // verus!
