//! A rectangular table stored row by row.
use vstd::prelude::*;

verus! {

/// A table of `height` rows of `width` cells.
pub struct TwoDVec<T> {
    storage: Vec<Vec<T>>,
    width: usize,
}

impl<T: Copy> TwoDVec<T> {
    /// The table as rows of cells.
    pub closed spec fn view_rows(&self) -> Seq<Seq<T>> {
        self.storage@.map_values(|row: Vec<T>| row@)
    }

    pub closed spec fn spec_width(&self) -> nat {
        self.width as nat
    }

    /// Every row has `width` cells.
    pub open spec fn well_formed(&self) -> bool {
        forall|r: int| 0 <= r < self.view_rows().len() ==> #[trigger] self.view_rows()[r].len()
            == self.spec_width()
    }

    /// A table of `height` rows of `width` copies of `initial`.
    pub fn new(initial: T, width: usize, height: usize) -> (r: Self)
        ensures
            r.well_formed(),
            r.spec_width() == width,
            r.view_rows().len() == height,
            forall|i: int, j: int|
                0 <= i < height && 0 <= j < width ==> #[trigger] r.view_rows()[i][j] == initial,
    {
        let mut storage: Vec<Vec<T>> = Vec::new();
        for k in 0..height
            invariant
                storage@.len() == k,
                forall|i: int| 0 <= i < k ==> (#[trigger] storage@[i])@ == Seq::new(width as nat, |j: int| initial),
        {
            let mut row: Vec<T> = Vec::new();
            for c in 0..width
                invariant
                    row@ == Seq::new(c as nat, |j: int| initial),
            {
                row.push(initial);
                assert(row@ =~= Seq::new((c + 1) as nat, |j: int| initial));
            }
            storage.push(row);
        }
        let r = TwoDVec { storage, width };
        assert forall|i: int, j: int| 0 <= i < height && 0 <= j < width implies #[trigger] r.view_rows()[i][j]
            == initial by {
            assert(r.view_rows()[i] == r.storage@[i]@);
        }
        r
    }

    pub fn height(&self) -> (r: usize)
        ensures
            r == self.view_rows().len(),
    {
        self.storage.len()
    }

    pub fn width(&self) -> (r: usize)
        ensures
            r == self.spec_width(),
    {
        self.width
    }

    /// The cell in row `row` and column `col`.
    pub fn get(&self, row: usize, col: usize) -> (r: T)
        requires
            self.well_formed(),
            row < self.view_rows().len(),
            col < self.spec_width(),
        ensures
            r == self.view_rows()[row as int][col as int],
    {
        assert(self.view_rows()[row as int] == self.storage@[row as int]@);
        self.storage[row][col]
    }

    /// Writes `value` into the cell in row `row` and column `col`.
    pub fn set(&mut self, row: usize, col: usize, value: T)
        requires
            old(self).well_formed(),
            row < old(self).view_rows().len(),
            col < old(self).spec_width(),
        ensures
            final(self).well_formed(),
            final(self).spec_width() == old(self).spec_width(),
            final(self).view_rows() == old(self).view_rows().update(
                row as int,
                old(self).view_rows()[row as int].update(col as int, value),
            ),
    {
        assert(self.view_rows()[row as int] == self.storage@[row as int]@);
        self.storage[row].set(col, value);
        assert(self.view_rows() =~= old(self).view_rows().update(
            row as int,
            old(self).view_rows()[row as int].update(col as int, value),
        ));
    }
}

} // verus!
