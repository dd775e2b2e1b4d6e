//! The two-dimensional array that holds a grid's cells.
//!
//! The array itself is an `ndarray::Array2`. Nothing in this module is
//! proved: each function states what the `ndarray` operation it calls does,
//! and the rest of the crate is verified against those statements.

use vstd::prelude::*;
use ndarray::Array2;
use crate::cell::Cell;

verus! {

/// An `ndarray::Array2<Cell>`, opaque to the verifier.
#[verifier::external_body]
pub struct CellArray {
    inner: Array2<Cell>,
}

/// The rows of the array from the first axis index 0 upwards, each row
/// listing its cells from the second axis index 0 upwards.
pub uninterp spec fn array_rows(a: CellArray) -> Seq<Seq<Cell>>;

/// `Array2::from_elem((height, width), elem)`: an array of `height` rows of
/// `width` cells, every one a copy of `elem`. `ndarray` panics when the
/// number of cells exceeds `isize::MAX`, so such shapes are left out.
#[verifier::external_body]
pub(crate) fn array_from_elem(height: usize, width: usize, elem: Cell) -> (a: CellArray)
    requires
        0 < height,
        0 < width,
        height * width <= isize::MAX,
    ensures
        array_rows(a) == Seq::new(height as nat, |y: int| Seq::new(width as nat, |x: int| elem)),
{
    CellArray { inner: Array2::from_elem((height, width), elem) }
}

/// Indexing `a[[y, x]]`: the cell in row `y`, column `x`. `ndarray` panics
/// on an index outside the array, so such indices are left out.
#[verifier::external_body]
pub(crate) fn array_get(a: &CellArray, y: usize, x: usize) -> (c: Cell)
    requires
        y < array_rows(*a).len(),
        x < array_rows(*a)[y as int].len(),
    ensures
        c == array_rows(*a)[y as int][x as int],
{
    a.inner[[y, x]]
}

/// Assignment through `a[[y, x]]`: the cell in row `y`, column `x` becomes
/// `c` and every other cell stays as it was. `ndarray` panics on an index
/// outside the array, so such indices are left out.
#[verifier::external_body]
pub(crate) fn array_set(a: &mut CellArray, y: usize, x: usize, c: Cell)
    requires
        y < array_rows(*old(a)).len(),
        x < array_rows(*old(a))[y as int].len(),
    ensures
        array_rows(*final(a)) == array_rows(*old(a)).update(
            y as int,
            array_rows(*old(a))[y as int].update(x as int, c),
        ),
{
    a.inner[[y, x]] = c;
}

} // verus!
