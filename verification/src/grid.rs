//! Two-dimensional sparse storage addressed by signed (x, y) coordinates.
//!
//! The x coordinate selects a column through the same two-sided split that
//! [`NegativeIndexVec`] uses for its slots, except that each slot here
//! holds an optional column — itself a `NegativeIndexVec` indexed by y,
//! created lazily on the first write to that x. The grid also tracks the
//! bounding box of every coordinate pair ever written; the box starts
//! degenerate at the origin and only ever widens.

use crate::axis::{grow_to_include, grown_len, neg_slot, NegativeIndexVec};
use vstd::prelude::*;

verus! {

/// A lazily growing plane of optional values with signed coordinates on
/// both axes, plus the bounding box of all writes so far.
pub struct Grid<T> {
    positive: Vec<Option<NegativeIndexVec<T>>>,
    negative: Vec<Option<NegativeIndexVec<T>>>,
    min_x: isize,
    max_x: isize,
    min_y: isize,
    max_y: isize,
}

impl<T> Grid<T> {
    /// Length of the non-negative column array: columns `0 .. x_pos_len()`
    /// are reachable (though possibly still absent).
    pub closed spec fn x_pos_len(self) -> nat {
        self.positive@.len()
    }

    /// Length of the negative column array: columns `-x_neg_len() .. 0`
    /// are reachable (though possibly still absent).
    pub closed spec fn x_neg_len(self) -> nat {
        self.negative@.len()
    }

    /// The column at `x`, if one was ever created there: `None` both for a
    /// slot never filled and for an `x` the column arrays have not grown to.
    pub closed spec fn col(self, x: int) -> Option<NegativeIndexVec<T>> {
        if 0 <= x < self.x_pos_len() {
            self.positive@[x]
        } else if x < 0 && -x <= self.x_neg_len() {
            self.negative@[-x - 1]
        } else {
            None
        }
    }

    /// The value stored at `(x, y)`: `None` when the column at `x` is
    /// absent or holds nothing at `y`.
    pub open spec fn cell(self, x: int, y: int) -> Option<T> {
        match self.col(x) {
            Some(column) => column.at(y),
            None => None,
        }
    }

    /// Smallest x coordinate ever written, or 0 before any write.
    pub closed spec fn spec_min_x(self) -> int {
        self.min_x as int
    }

    /// Largest x coordinate ever written, or 0 before any write.
    pub closed spec fn spec_max_x(self) -> int {
        self.max_x as int
    }

    /// Smallest y coordinate ever written, or 0 before any write.
    pub closed spec fn spec_min_y(self) -> int {
        self.min_y as int
    }

    /// Largest y coordinate ever written, or 0 before any write.
    pub closed spec fn spec_max_y(self) -> int {
        self.max_y as int
    }

    /// The bounding box always contains the origin: it starts degenerate
    /// at (0, 0) and only ever widens.
    pub open spec fn wf(self) -> bool {
        &&& self.spec_min_x() <= 0 <= self.spec_max_x()
        &&& self.spec_min_y() <= 0 <= self.spec_max_y()
    }

    /// An empty grid: no columns, nothing stored, and a zero-width
    /// bounding box at the origin.
    pub fn new() -> (grid: Self)
        ensures
            grid.wf(),
            grid.spec_min_x() == 0,
            grid.spec_max_x() == 0,
            grid.spec_min_y() == 0,
            grid.spec_max_y() == 0,
            grid.x_pos_len() == 0,
            grid.x_neg_len() == 0,
            forall|x: int| grid.col(x) is None,
            forall|x: int, y: int| grid.cell(x, y) is None,
    {
        Grid {
            positive: Vec::new(),
            negative: Vec::new(),
            min_x: 0,
            max_x: 0,
            min_y: 0,
            max_y: 0,
        }
    }

    /// Smallest x of the bounding box.
    pub fn min_x(&self) -> (r: isize)
        ensures
            r as int == self.spec_min_x(),
    {
        self.min_x
    }

    /// Largest x of the bounding box.
    pub fn max_x(&self) -> (r: isize)
        ensures
            r as int == self.spec_max_x(),
    {
        self.max_x
    }

    /// Smallest y of the bounding box.
    pub fn min_y(&self) -> (r: isize)
        ensures
            r as int == self.spec_min_y(),
    {
        self.min_y
    }

    /// Largest y of the bounding box.
    pub fn max_y(&self) -> (r: isize)
        ensures
            r as int == self.spec_max_y(),
    {
        self.max_y
    }

    /// Grows whichever column array `size` falls on until that x is
    /// reachable. New slots hold no column; every existing column and the
    /// bounding box are untouched.
    fn assert_size(&mut self, size: isize)
        ensures
            final(self).x_pos_len() == (if size >= 0 {
                grown_len(old(self).x_pos_len(), (size + 1) as nat)
            } else {
                old(self).x_pos_len()
            }),
            final(self).x_neg_len() == (if size < 0 {
                grown_len(old(self).x_neg_len(), (-(size as int)) as nat)
            } else {
                old(self).x_neg_len()
            }),
            forall|a: int| final(self).col(a) == old(self).col(a),
            final(self).spec_min_x() == old(self).spec_min_x(),
            final(self).spec_max_x() == old(self).spec_max_x(),
            final(self).spec_min_y() == old(self).spec_min_y(),
            final(self).spec_max_y() == old(self).spec_max_y(),
    {
        if size >= 0 {
            grow_to_include(&mut self.positive, size as usize);
        } else {
            grow_to_include(&mut self.negative, neg_slot(size));
        }
    }

    /// Creates an empty column at `x` when the slot there holds none; an
    /// existing column, all other columns and the bounding box are untouched.
    /// The slot must already be reachable.
    fn assert_existence(&mut self, x: isize)
        requires
            x >= 0 ==> x < old(self).x_pos_len(),
            x < 0 ==> -(x as int) <= old(self).x_neg_len(),
        ensures
            final(self).col(x as int) is Some,
            old(self).col(x as int) is Some ==> final(self).col(x as int) == old(self).col(
                x as int,
            ),
            old(self).col(x as int) is None ==> final(self).col(x as int).unwrap().pos_len() == 0
                && final(self).col(x as int).unwrap().neg_len() == 0 && (forall|b: int|
                final(self).col(x as int).unwrap().at(b) is None),
            forall|a: int| a != x as int ==> final(self).col(a) == old(self).col(a),
            final(self).x_pos_len() == old(self).x_pos_len(),
            final(self).x_neg_len() == old(self).x_neg_len(),
            final(self).spec_min_x() == old(self).spec_min_x(),
            final(self).spec_max_x() == old(self).spec_max_x(),
            final(self).spec_min_y() == old(self).spec_min_y(),
            final(self).spec_max_y() == old(self).spec_max_y(),
    {
        if x >= 0 {
            let i: usize = x as usize;
            if self.positive[i].is_none() {
                self.positive[i] = Some(NegativeIndexVec::new());
            }
        } else {
            let s: usize = neg_slot(x);
            if self.negative[s].is_none() {
                self.negative[s] = Some(NegativeIndexVec::new());
            }
        }
    }

    /// Widens the bounding box just enough to contain (x, y); the columns
    /// are untouched.
    fn update_boundaries(&mut self, x: isize, y: isize)
        requires
            old(self).wf(),
        ensures
            final(self).wf(),
            final(self).spec_min_x() == (if x < old(self).spec_min_x() {
                x as int
            } else {
                old(self).spec_min_x()
            }),
            final(self).spec_max_x() == (if x > old(self).spec_max_x() {
                x as int
            } else {
                old(self).spec_max_x()
            }),
            final(self).spec_min_y() == (if y < old(self).spec_min_y() {
                y as int
            } else {
                old(self).spec_min_y()
            }),
            final(self).spec_max_y() == (if y > old(self).spec_max_y() {
                y as int
            } else {
                old(self).spec_max_y()
            }),
            forall|a: int| final(self).col(a) == old(self).col(a),
            final(self).x_pos_len() == old(self).x_pos_len(),
            final(self).x_neg_len() == old(self).x_neg_len(),
    {
        if x < self.min_x {
            self.min_x = x;
        } else if x > self.max_x {
            self.max_x = x;
        }
        if y < self.min_y {
            self.min_y = y;
        } else if y > self.max_y {
            self.max_y = y;
        }
    }

    /// Writes `item` at (x, y): grows the column arrays to reach `x`,
    /// creates the column there when absent, widens the bounding box to
    /// contain (x, y), and stores the value at `y` in that column. Always
    /// succeeds; every other cell and every other column are untouched,
    /// and the box never shrinks.
    pub fn set(&mut self, x: isize, y: isize, item: T)
        requires
            old(self).wf(),
        ensures
            final(self).wf(),
            final(self).cell(x as int, y as int) == Some(item),
            forall|a: int, b: int|
                !(a == x as int && b == y as int) ==> final(self).cell(a, b) == old(self).cell(
                    a,
                    b,
                ),
            forall|a: int| a != x as int ==> final(self).col(a) == old(self).col(a),
            final(self).col(x as int) is Some,
            final(self).x_pos_len() == (if x >= 0 {
                grown_len(old(self).x_pos_len(), (x + 1) as nat)
            } else {
                old(self).x_pos_len()
            }),
            final(self).x_neg_len() == (if x < 0 {
                grown_len(old(self).x_neg_len(), (-(x as int)) as nat)
            } else {
                old(self).x_neg_len()
            }),
            final(self).spec_min_x() == (if x < old(self).spec_min_x() {
                x as int
            } else {
                old(self).spec_min_x()
            }),
            final(self).spec_max_x() == (if x > old(self).spec_max_x() {
                x as int
            } else {
                old(self).spec_max_x()
            }),
            final(self).spec_min_y() == (if y < old(self).spec_min_y() {
                y as int
            } else {
                old(self).spec_min_y()
            }),
            final(self).spec_max_y() == (if y > old(self).spec_max_y() {
                y as int
            } else {
                old(self).spec_max_y()
            }),
            final(self).spec_min_x() <= x as int <= final(self).spec_max_x(),
            final(self).spec_min_y() <= y as int <= final(self).spec_max_y(),
            final(self).spec_min_x() <= old(self).spec_min_x(),
            final(self).spec_max_x() >= old(self).spec_max_x(),
            final(self).spec_min_y() <= old(self).spec_min_y(),
            final(self).spec_max_y() >= old(self).spec_max_y(),
    {
        self.assert_size(x);
        self.assert_existence(x);
        self.update_boundaries(x, y);
        let ghost mid = *self;
        if x >= 0 {
            let i: usize = x as usize;
            match self.positive[i].as_mut() {
                Some(column) => column.set(y, item),
                None => {},
            }
        } else {
            let s: usize = neg_slot(x);
            match self.negative[s].as_mut() {
                Some(column) => column.set(y, item),
                None => {},
            }
        }
        proof {
            assert(NegativeIndexVec::set_step(
                mid.col(x as int).unwrap(),
                y as int,
                item,
                self.col(x as int).unwrap(),
            ));
            assert forall|a: int, b: int|
                !(a == x as int && b == y as int) implies self.cell(a, b) == old(self).cell(
                a,
                b,
            ) by {
                if a == x as int {
                    assert(self.col(a).unwrap().at(b) == mid.col(a).unwrap().at(b));
                    if old(self).col(a) is None {
                        assert(mid.col(a).unwrap().at(b) is None);
                    }
                } else {
                    assert(self.col(a) == old(self).col(a));
                }
            }
        }
    }

    /// Reads the value at (x, y): exactly the stored value, `None` when
    /// the column or the cell inside it is absent. Never mutates.
    pub fn get(&self, x: isize, y: isize) -> (r: Option<&T>)
        ensures
            (match r {
                Some(v) => self.cell(x as int, y as int) == Some(*v),
                None => self.cell(x as int, y as int) is None,
            }),
    {
        if x >= 0 {
            let i: usize = x as usize;
            if i < self.positive.len() {
                match self.positive[i].as_ref() {
                    Some(column) => column.get(y),
                    None => None,
                }
            } else {
                None
            }
        } else {
            let s: usize = neg_slot(x);
            if s < self.negative.len() {
                match self.negative[s].as_ref() {
                    Some(column) => column.get(y),
                    None => None,
                }
            } else {
                None
            }
        }
    }

    /// A mutable handle on the value at (x, y), when one is stored there.
    /// Creates no column and grows nothing; only the addressed value can
    /// change through the handle.
    pub fn get_mut(&mut self, x: isize, y: isize) -> (r: Option<&mut T>)
        ensures
            final(self).x_pos_len() == old(self).x_pos_len(),
            final(self).x_neg_len() == old(self).x_neg_len(),
            final(self).spec_min_x() == old(self).spec_min_x(),
            final(self).spec_max_x() == old(self).spec_max_x(),
            final(self).spec_min_y() == old(self).spec_min_y(),
            final(self).spec_max_y() == old(self).spec_max_y(),
            forall|a: int| a != x as int ==> final(self).col(a) == old(self).col(a),
            forall|a: int, b: int|
                !(a == x as int && b == y as int) ==> final(self).cell(a, b) == old(self).cell(
                    a,
                    b,
                ),
            final(self).col(x as int) is Some <==> old(self).col(x as int) is Some,
            old(self).col(x as int) is Some ==> final(self).col(x as int).unwrap().pos_len() == old(
                self,
            ).col(x as int).unwrap().pos_len() && final(self).col(x as int).unwrap().neg_len()
                == old(self).col(x as int).unwrap().neg_len(),
            old(self).cell(x as int, y as int) is None ==> r is None && final(self).cell(
                x as int,
                y as int,
            ) is None,
            old(self).cell(x as int, y as int) is Some ==> r is Some && *r.unwrap() == old(
                self,
            ).cell(x as int, y as int).unwrap() && final(self).cell(x as int, y as int) == Some(
                *final(r.unwrap()),
            ),
    {
        if x >= 0 {
            let i: usize = x as usize;
            if i < self.positive.len() {
                match self.positive[i].as_mut() {
                    Some(column) => column.get_mut(y),
                    None => None,
                }
            } else {
                None
            }
        } else {
            let s: usize = neg_slot(x);
            if s < self.negative.len() {
                match self.negative[s].as_mut() {
                    Some(column) => column.get_mut(y),
                    None => None,
                }
            } else {
                None
            }
        }
    }
}

impl<T> Default for Grid<T> {
    /// Same as `Grid::new`: an empty grid with a zero-width bounding box
    /// at the origin.
    fn default() -> (grid: Self)
        ensures
            grid.wf(),
            grid.spec_min_x() == 0,
            grid.spec_max_x() == 0,
            grid.spec_min_y() == 0,
            grid.spec_max_y() == 0,
            grid.x_pos_len() == 0,
            grid.x_neg_len() == 0,
            forall|x: int, y: int| grid.cell(x, y) is None,
    {
        Grid::new()
    }
}

} // verus!
