//! A diagonal matrix: every value off the diagonal is zero, so only the
//! diagonal is stored, as one slot per row. Coordinates are 1-based, and a
//! slot left unset renders as zero.

use vstd::prelude::*;

use crate::decimal::dec_str;

verus! {

/// The diagonal matrix: `dim` rows and columns, one stored slot per
/// diagonal position.
pub struct DiagonalMatrix {
    pub dim: usize,
    pub diag: Vec<Option<i32>>,
}

/// The text of the cell at row `i`, column `j`: the stored value on a set
/// diagonal slot, and zero everywhere else.
pub open spec fn cell_text(m: &DiagonalMatrix, i: int, j: int) -> Seq<char> {
    if i == j && m.diag@[i - 1] is Some {
        dec_str(m.diag@[i - 1].unwrap() as int)
    } else {
        seq!['0']
    }
}

/// The text of row `i` from column `j` on, with its closing line break.
pub open spec fn row_text_from(m: &DiagonalMatrix, i: int, j: int) -> Seq<char>
    decreases m.dim + 1 - j,
{
    if j > m.dim || j < 1 {
        seq!['\n']
    } else {
        cell_text(m, i, j) + row_text_from(m, i, j + 1)
    }
}

/// The text of the rows from `i` on.
pub open spec fn rows_text_from(m: &DiagonalMatrix, i: int) -> Seq<char>
    decreases m.dim + 1 - i,
{
    if i > m.dim || i < 1 {
        Seq::empty()
    } else {
        row_text_from(m, i, 1) + rows_text_from(m, i + 1)
    }
}

impl DiagonalMatrix {
    /// One stored slot per diagonal position.
    pub open spec fn inv(&self) -> bool {
        self.diag@.len() == self.dim
    }

    /// A matrix of the given dimension with no value set yet.
    pub fn new(dim: usize) -> (r: Self)
        ensures
            r.inv(),
            r.dim == dim,
            forall|k: int| 0 <= k < dim ==> r.diag@[k] is None,
    {
        let mut diag: Vec<Option<i32>> = Vec::new();
        for k in 0..dim
            invariant
                diag@.len() == k,
                forall|j: int| 0 <= j < k ==> diag@[j] is None,
        {
            diag.push(None);
        }
        Self { dim, diag }
    }

    /// The value at `(x, y)`: a stored diagonal value when `x == y`, and
    /// `None` off the diagonal.
    pub fn get(&self, x: usize, y: usize) -> (r: Option<i32>)
        requires
            self.inv(),
            x == y ==> 1 <= x <= self.dim,
        ensures
            x != y ==> r is None,
            x == y ==> r == self.diag@[x - 1],
    {
        if x != y {
            return None;
        }
        self.diag[x - 1]
    }

    /// Stores `val` at `(x, y)` when the position lies on the diagonal;
    /// off the diagonal nothing happens.
    pub fn set(&mut self, x: usize, y: usize, val: i32)
        requires
            old(self).inv(),
            x == y ==> 1 <= x <= old(self).dim,
        ensures
            final(self).inv(),
            final(self).dim == old(self).dim,
            x != y ==> final(self).diag@ == old(self).diag@,
            x == y ==> final(self).diag@ == old(self).diag@.update(x - 1, Some(val)),
    {
        if x == y {
            self.diag[x - 1] = Some(val);
        }
    }

    /// The matrix as text: one line per row, a digit run per cell, zeros
    /// everywhere off the diagonal or where no value is set.
    pub fn render(&self) -> (s: String)
        requires
            self.inv(),
            self.dim < usize::MAX,
        ensures
            s@ == rows_text_from(self, 1),
    {
        let mut s = String::new();
        for i in 1..self.dim + 1
            invariant
                self.inv(),
                self.dim < usize::MAX,
                1 <= i <= self.dim + 1,
                rows_text_from(self, 1) =~= s@ + rows_text_from(self, i as int),
        {
            for j in 1..self.dim + 1
                invariant
                    self.inv(),
                    self.dim < usize::MAX,
                    1 <= i <= self.dim,
                    1 <= j <= self.dim + 1,
                    rows_text_from(self, 1) =~= s@ + row_text_from(self, i as int, j as int)
                        + rows_text_from(self, i + 1),
            {
                proof {
                    reveal_strlit("0");
                }
                if i == j {
                    match self.diag[i - 1] {
                        Some(val) => {
                            let rendered = crate::decimal::i32_to_string(val);
                            s.append(rendered.as_str());
                        }
                        None => {
                            s.append("0");
                        }
                    }
                } else {
                    s.append("0");
                }
                proof {
                    assert(row_text_from(self, i as int, j as int) =~= cell_text(
                        self,
                        i as int,
                        j as int,
                    ) + row_text_from(self, i as int, j + 1));
                }
            }
            proof {
                reveal_strlit("\n");
            }
            s.append("\n");
            proof {
                assert(row_text_from(self, i as int, self.dim + 1) =~= seq!['\n']);
            }
        }
        proof {
            assert(rows_text_from(self, self.dim + 1) =~= Seq::<char>::empty());
        }
        s
    }
}

} // verus!
