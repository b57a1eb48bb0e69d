//! Matrices as lists of rows.

use vstd::prelude::*;

verus! {

/// The rows of a matrix.
pub open spec fn row_views<J>(m: Seq<Vec<J>>) -> Seq<Seq<J>> {
    m.map_values(|row: Vec<J>| row@)
}

/// A row with the same entries.
pub fn copy_row<J: Copy>(row: &Vec<J>) -> (r: Vec<J>)
    ensures
        r@ == row@,
{
    let mut out: Vec<J> = Vec::new();
    while out.len() < row.len()
        invariant
            out.len() <= row.len(),
            out@ == row@.take(out@.len() as int),
        decreases row.len() - out.len(),
    {
        let k: usize = out.len();
        out.push(row[k]);
        proof {
            assert(out@ =~= row@.take(k + 1));
        }
    }
    proof {
        assert(out@ =~= row@);
    }
    out
}

/// The chosen rows of a matrix, in the order given.
pub fn choose_rows<J: Copy>(m: &Vec<Vec<J>>, rows: &Vec<usize>) -> (r: Vec<Vec<J>>)
    requires
        forall|k: int| 0 <= k < rows@.len() ==> #[trigger] rows@[k] < m@.len(),
    ensures
        row_views(r@) == rows@.map_values(|i: usize| m@[i as int]@),
{
    let ghost want = rows@.map_values(|i: usize| m@[i as int]@);
    let mut out: Vec<Vec<J>> = Vec::new();
    while out.len() < rows.len()
        invariant
            out.len() <= rows.len(),
            want == rows@.map_values(|i: usize| m@[i as int]@),
            forall|k: int| 0 <= k < rows@.len() ==> #[trigger] rows@[k] < m@.len(),
            forall|k: int| 0 <= k < out@.len() ==> (#[trigger] out@[k])@ == want[k],
        decreases rows.len() - out.len(),
    {
        let k: usize = out.len();
        proof {
            assert(rows@[k as int] < m@.len());
        }
        let row: Vec<J> = copy_row(&m[rows[k]]);
        out.push(row);
    }
    proof {
        assert(row_views(out@) =~= want);
    }
    out
}

} // verus!
