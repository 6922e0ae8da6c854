//! Tabular reference input: selecting one column of an xvg-style table
//! whose comment rows are ignored.
//!
//! File reading and whitespace tokenisation happen at the caller's edge;
//! this module holds the table logic itself: which rows carry data, and
//! which token of each data row the column selector picks.

use vstd::prelude::*;
use crate::result::Error;
use crate::result::Result;

verus! {

/// Whether a tokenised row carries data: comment rows start with `#` or
/// `@`, and blank rows have no tokens at all.
pub open spec fn xvg_row_kept(row: Seq<String>) -> bool {
    &&& row.len() > 0
    &&& row[0]@.len() > 0
    &&& row[0]@[0] != '#'
    &&& row[0]@[0] != '@'
}

/// The tokens the column selector picks from the first `n` rows.
pub open spec fn xvg_selected(rows: Seq<Vec<String>>, column: int, n: int) -> Seq<Seq<char>>
    decreases n,
{
    if n <= 0 {
        Seq::empty()
    } else {
        let prev = xvg_selected(rows, column, n - 1);
        if xvg_row_kept(rows[n - 1]@) {
            prev.push(rows[n - 1]@[column]@)
        } else {
            prev
        }
    }
}

/// Whether every data row among the first `n` has a token in the column.
pub open spec fn xvg_rows_wide_enough(rows: Seq<Vec<String>>, column: int, n: int) -> bool {
    forall|k: int| 0 <= k < n && xvg_row_kept((#[trigger] rows[k])@) ==> column < rows[k]@.len()
}

/// Read one column of a tokenised xvg-style table.
///
/// Comment rows (leading `#` or `@`) and blank rows are ignored; every
/// remaining row must have a token in the selected column, else the
/// whole table is rejected.
pub fn xvg_column(rows: &Vec<Vec<String>>, column: usize) -> (r: Result<Vec<String>>)
    ensures
        match r {
            Ok(out) => {
                &&& xvg_rows_wide_enough(rows@, column as int, rows@.len() as int)
                &&& out@.map_values(|s: String| s@) == xvg_selected(
                    rows@,
                    column as int,
                    rows@.len() as int,
                )
            },
            Err(e) => e is ValueError && !xvg_rows_wide_enough(
                rows@,
                column as int,
                rows@.len() as int,
            ),
        },
{
    let n = rows.len();
    let mut out: Vec<String> = Vec::new();
    let mut k: usize = 0;
    proof {
        assert(out@.map_values(|s: String| s@) =~= Seq::<Seq<char>>::empty());
    }
    while k < n
        invariant
            k <= n,
            n == rows@.len(),
            xvg_rows_wide_enough(rows@, column as int, k as int),
            out@.map_values(|s: String| s@) == xvg_selected(rows@, column as int, k as int),
        decreases n - k,
    {
        let row = &rows[k];
        let kept = if row.len() == 0 {
            false
        } else {
            let first = row[0].as_str();
            if first.unicode_len() == 0 {
                false
            } else {
                let c = first.get_char(0);
                c != '#' && c != '@'
            }
        };
        let ghost prev = out@;
        if kept {
            if column >= row.len() {
                return Err(Error::ValueError("A row has too few values"));
            }
            out.push(row[column].clone());
            proof {
                assert(out@.map_values(|s: String| s@) =~= prev.map_values(|s: String| s@).push(
                    rows@[k as int]@[column as int]@,
                ));
            }
        } else {
            proof {
                if row@.len() > 0 && row@[0]@.len() > 0 {
                    assert(!xvg_row_kept(rows@[k as int]@));
                }
            }
        }
        k = k + 1;
    }
    Ok(out)
}

} // verus!
