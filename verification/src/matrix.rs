//! Rectangular matrices of exact rationals.
//!
//! A `Matrix` is a row-major grid of `Rat` entries whose invariant ties the
//! stored dimensions to the data: every row has exactly `cols` entries and
//! every entry is well formed. Its view is the grid of mathematical `Ratio`
//! values.

use vstd::prelude::*;

use crate::rational::Rat;
use crate::rational::Ratio;
use crate::rational::ratio_wf;

verus! {

/// The mathematical values of a sequence of machine rationals.
pub open spec fn row_vals(r: Seq<Rat>) -> Seq<Ratio> {
    Seq::new(r.len(), |j: int| r[j]@)
}

/// The mathematical values of a row-major grid of machine rationals.
pub open spec fn grid_vals(g: Seq<Vec<Rat>>) -> Seq<Seq<Ratio>> {
    Seq::new(g.len(), |i: int| row_vals(g[i]@))
}

/// Well-formedness of a mathematical grid: `rows` rows of `cols` well-formed
/// entries each.
pub open spec fn grid_wf(g: Seq<Seq<Ratio>>, rows: int, cols: int) -> bool {
    &&& g.len() == rows
    &&& forall|i: int| 0 <= i < rows ==> (#[trigger] g[i]).len() == cols
    &&& forall|i: int, j: int|
        0 <= i < rows && 0 <= j < cols ==> ratio_wf(#[trigger] g[i][j])
}

/// Well-formedness of a sequence of mathematical rationals.
pub open spec fn vals_wf(s: Seq<Ratio>) -> bool {
    forall|i: int| 0 <= i < s.len() ==> ratio_wf(#[trigger] s[i])
}

/// A design matrix: `rows` observations of `cols` features each, held as
/// exact rationals.
pub struct Matrix {
    pub rows: usize,
    pub cols: usize,
    pub data: Vec<Vec<Rat>>,
}

impl View for Matrix {
    type V = Seq<Seq<Ratio>>;

    open spec fn view(&self) -> Seq<Seq<Ratio>> {
        grid_vals(self.data@)
    }
}

impl Matrix {
    /// Well-formedness: the data matches the stored dimensions, every entry
    /// is a well-formed rational, and one more column can still be counted
    /// in a `usize`.
    pub open spec fn wf(self) -> bool {
        &&& self.data@.len() == self.rows
        &&& grid_wf(self@, self.rows as int, self.cols as int)
        &&& self.cols < usize::MAX
    }

    /// Builds a matrix with the given column count from rows of entries.
    /// Returns `None` when some row does not have exactly `cols` entries or
    /// some entry is malformed: the caller hands in rectangular data.
    pub fn from_rows(data: Vec<Vec<Rat>>, cols: usize) -> (r: Option<Matrix>)
        ensures
            (r is Some) == ({
                &&& cols < usize::MAX
                &&& forall|i: int| 0 <= i < data@.len() ==> (#[trigger] data@[i])@.len() == cols
                &&& forall|i: int, j: int|
                    0 <= i < data@.len() && 0 <= j < cols ==> (#[trigger] data@[i]@[j]).wf()
            }),
            r matches Some(m) ==> {
                &&& m.wf()
                &&& m.rows == data@.len()
                &&& m.cols == cols
                &&& m@ == grid_vals(data@)
            },
    {
        if cols >= usize::MAX {
            return None;
        }
        let rows = data.len();
        let mut i: usize = 0;
        while i < rows
            invariant
                rows == data@.len(),
                0 <= i <= rows,
                forall|i2: int| 0 <= i2 < i ==> (#[trigger] data@[i2])@.len() == cols,
                forall|i2: int, j: int|
                    0 <= i2 < i && 0 <= j < cols ==> (#[trigger] data@[i2]@[j]).wf(),
            decreases rows - i,
        {
            if data[i].len() != cols {
                return None;
            }
            let mut j: usize = 0;
            while j < cols
                invariant
                    rows == data@.len(),
                    0 <= i < rows,
                    0 <= j <= cols,
                    data@[i as int]@.len() == cols,
                    forall|j2: int| 0 <= j2 < j ==> (#[trigger] data@[i as int]@[j2]).wf(),
                decreases cols - j,
            {
                if data[i][j].den <= 0 {
                    return None;
                }
                j += 1;
            }
            i += 1;
        }
        let m = Matrix { rows, cols, data };
        proof {
            assert forall|i2: int, j: int|
                0 <= i2 < rows && 0 <= j < cols implies ratio_wf(#[trigger] m@[i2][j]) by {
                assert(m@[i2][j] == m.data@[i2]@[j]@);
            }
        }
        Some(m)
    }
}

} // verus!
