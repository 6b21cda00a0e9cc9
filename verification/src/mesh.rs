//! A dense grid of scalars, stored column by column in a `nalgebra` matrix.

use vstd::prelude::*;
use crate::plot::{greatest, least};

verus! {

/// A rectangular grid of scalars. The grid is a dynamically sized `nalgebra`
/// matrix, which Verus does not look into: contracts speak of it through
/// [`mesh_shape`] and [`mesh_cells`].
#[verifier::external_body]
pub struct Mesh {
    cells: nalgebra::DMatrix<i64>,
}

/// The number of rows and the number of columns of the grid.
pub uninterp spec fn mesh_shape(m: Mesh) -> (nat, nat);

/// The cells of the grid, column after column.
pub uninterp spec fn mesh_cells(m: Mesh) -> Seq<i64>;

impl Mesh {
    /// Number of rows.
    pub open spec fn rows(&self) -> nat {
        mesh_shape(*self).0
    }

    /// Number of columns.
    pub open spec fn cols(&self) -> nat {
        mesh_shape(*self).1
    }

    /// The cell in row `i` and column `j`.
    pub open spec fn at(&self, i: int, j: int) -> i64 {
        mesh_cells(*self)[j * self.rows() + i]
    }

    /// The grid holds exactly one cell per position.
    pub open spec fn wf(&self) -> bool {
        mesh_cells(*self).len() == self.rows() * self.cols()
    }

    /// Calls `DMatrix::from_vec`, which takes the cells column after column
    /// and stops the program unless their number is `nrows * ncols`.
    #[verifier::external_body]
    pub(crate) fn build(nrows: usize, ncols: usize, data: Vec<i64>) -> (m: Mesh)
        requires
            nrows * ncols == data@.len(),
        ensures
            mesh_shape(m) == (nrows as nat, ncols as nat),
            mesh_cells(m) == data@,
    {
        Mesh { cells: nalgebra::DMatrix::from_vec(nrows, ncols, data) }
    }

    /// Calls `Matrix::transpose`: the result has the shape reversed and holds
    /// at `(j, i)` what `self` holds at `(i, j)`.
    #[verifier::external_body]
    pub(crate) fn transpose(&self) -> (t: Mesh)
        ensures
            mesh_shape(t) == (self.cols(), self.rows()),
            mesh_cells(t).len() == mesh_cells(*self).len(),
            forall|i: int, j: int| 0 <= i < self.rows() && 0 <= j < self.cols()
                ==> t.at(j, i) == #[trigger] self.at(i, j),
    {
        Mesh { cells: self.cells.transpose() }
    }

    /// Calls `Matrix::nrows`.
    #[verifier::external_body]
    pub(crate) fn nrows(&self) -> (n: usize)
        ensures
            n == self.rows(),
    {
        self.cells.nrows()
    }

    /// Calls `Matrix::ncols`.
    #[verifier::external_body]
    pub(crate) fn ncols(&self) -> (n: usize)
        ensures
            n == self.cols(),
    {
        self.cells.ncols()
    }

    /// Indexes the matrix with `(i, j)`, which stops the program when the
    /// position lies outside the grid.
    #[verifier::external_body]
    pub(crate) fn cell(&self, i: usize, j: usize) -> (cell: i64)
        requires
            i < self.rows(),
            j < self.cols(),
        ensures
            cell == self.at(i as int, j as int),
    {
        self.cells[(i, j)]
    }

    /// Copies what `Matrix::as_slice` exposes: the cells, column after column.
    #[verifier::external_body]
    pub(crate) fn as_slice(&self) -> (cells: Vec<i64>)
        ensures
            cells@ == mesh_cells(*self),
    {
        self.cells.as_slice().to_vec()
    }

    /// Calls `Matrix::min`, which yields the smallest cell, and zero for a
    /// grid without cells.
    #[verifier::external_body]
    pub(crate) fn min(&self) -> (lowest: i64)
        ensures
            mesh_cells(*self).len() == 0 ==> lowest == 0,
            mesh_cells(*self).len() > 0 ==> lowest == least(mesh_cells(*self)),
    {
        self.cells.min()
    }

    /// Calls `Matrix::max`, which yields the largest cell, and zero for a
    /// grid without cells.
    #[verifier::external_body]
    pub(crate) fn max(&self) -> (highest: i64)
        ensures
            mesh_cells(*self).len() == 0 ==> highest == 0,
            mesh_cells(*self).len() > 0 ==> highest == greatest(mesh_cells(*self)),
    {
        self.cells.max()
    }

    /// A grid of `nrows` by `ncols` cells, given column after column; `None`
    /// unless `data` holds exactly one value per cell.
    pub fn from_vec(nrows: usize, ncols: usize, data: Vec<i64>) -> (made: Option<Mesh>)
        ensures
            made.is_some() == (nrows * ncols == data@.len()),
            made.is_some() ==> {
                let m = made.unwrap();
                &&& mesh_shape(m) == (nrows as nat, ncols as nat)
                &&& mesh_cells(m) == data@
                &&& m.wf()
            },
    {
        let len = data.len();
        match nrows.checked_mul(ncols) {
            Some(count) => {
                if count == len {
                    Some(Mesh::build(nrows, ncols, data))
                } else {
                    None
                }
            },
            None => None,
        }
    }

    /// Executable test for [`Mesh::wf`].
    pub fn is_wf(&self) -> (b: bool)
        ensures
            b == self.wf(),
    {
        let len = self.as_slice().len();
        match self.nrows().checked_mul(self.ncols()) {
            Some(count) => count == len,
            None => false,
        }
    }

    /// The number of rows and the number of columns.
    pub fn shape(&self) -> (shape: (usize, usize))
        ensures
            shape.0 == self.rows(),
            shape.1 == self.cols(),
    {
        (self.nrows(), self.ncols())
    }

    /// The cell in row `i` and column `j`; `None` outside the grid.
    pub fn get(&self, i: usize, j: usize) -> (cell: Option<i64>)
        ensures
            cell.is_some() == (i < self.rows() && j < self.cols()),
            cell.is_some() ==> cell.unwrap() == self.at(i as int, j as int),
    {
        if i < self.nrows() && j < self.ncols() {
            Some(self.cell(i, j))
        } else {
            None
        }
    }
}

} // verus!
