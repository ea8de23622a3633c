//! Row-by-row traversal of a matrix.

use vstd::prelude::*;

use crate::calculations::matrix::Matrix;
use crate::scalar::Scalar;

verus! {

/// A cursor handing out copies of the matrix rows, first to last.
pub struct MatrixIntoIter<'a, T> {
    /// The matrix being traversed.
    pub matrix: &'a Matrix<T>,
    /// The row the next step will copy.
    pub index: usize,
}

impl<'a, T: Scalar> MatrixIntoIter<'a, T> {
    /// Copies the current row and advances, or reports the end.
    pub fn next(&mut self) -> (r: Option<Vec<T>>)
        requires
            old(self).matrix.wf(),
        ensures
            final(self).matrix == old(self).matrix,
            old(self).index < old(self).matrix.rows ==> (r matches Some(v) && v@
                == old(self).matrix.row_model(old(self).index as int) && final(self).index == old(
                self,
            ).index + 1),
            old(self).index >= old(self).matrix.rows ==> r is None && final(self).index == old(
                self,
            ).index,
    {
        if self.matrix.rows > self.index {
            let row = self.matrix.get_row(self.index);
            self.index += 1;
            return Some(row);
        }

        None
    }
}

impl<T: Scalar> Matrix<T> {
    /// Starts a row-by-row traversal of the matrix.
    pub fn into_iter(&self) -> (r: MatrixIntoIter<'_, T>)
        ensures
            r.matrix == self,
            r.index == 0,
    {
        MatrixIntoIter { matrix: self, index: 0 }
    }
}

} // verus!
