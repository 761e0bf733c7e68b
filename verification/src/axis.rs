//! One-dimensional storage addressable by any signed index.
//!
//! A logical index `i >= 0` lives at slot `i` of the non-negative side; a
//! logical index `i < 0` lives at slot `-i - 1` of the negative side (so
//! index -1 is slot 0, index -2 is slot 1, and so on). Each side grows
//! lazily on writes, one empty slot at a time, and never shrinks.

use vstd::prelude::*;

verus! {

/// How a signed index relates to the current lengths of the two sides:
/// `Positive` if it falls inside the non-negative side, `Negative` if it
/// falls inside the negative side, `Nonexistent` if storage has not grown
/// that far. This classifies reachability only; a classified slot may
/// still hold no value.
#[derive(Clone, Copy, Debug, PartialEq, Eq)]
pub enum Existence {
    Positive,
    Negative,
    Nonexistent,
}

/// The length of a side after growing it to cover `n` slots: growth never
/// shrinks, so an already long enough side keeps its length.
pub open spec fn grown_len(len: nat, n: nat) -> nat {
    if len >= n {
        len
    } else {
        n
    }
}

/// The slot on the negative side for a negative logical index: `-index - 1`.
/// Total for every negative `isize`, including the smallest one.
pub(crate) fn neg_slot(index: isize) -> (s: usize)
    requires
        index < 0,
    ensures
        s as int == -(index as int) - 1,
{
    (-(index + 1)) as usize
}

/// Appends empty slots until slot `slot` exists; a no-op when the vector
/// is already long enough. Existing slots keep their values.
pub(crate) fn grow_to_include<U>(v: &mut Vec<Option<U>>, slot: usize)
    ensures
        final(v)@.len() == grown_len(old(v)@.len(), slot as nat + 1),
        forall|j: int| 0 <= j < old(v)@.len() ==> final(v)@[j] == old(v)@[j],
        forall|j: int| old(v)@.len() <= j < final(v)@.len() ==> final(v)@[j] is None,
{
    while v.len() <= slot
        invariant
            v@.len() >= old(v)@.len(),
            v@.len() <= grown_len(old(v)@.len(), slot as nat + 1),
            forall|j: int| 0 <= j < old(v)@.len() ==> v@[j] == old(v)@[j],
            forall|j: int| old(v)@.len() <= j < v@.len() ==> v@[j] is None,
        decreases slot + 1 - v.len(),
    {
        v.push(None);
    }
}

/// Growable storage whose logical indices range over all of `isize`,
/// realized as two ordinary vectors of optional values.
pub struct NegativeIndexVec<T> {
    positive: Vec<Option<T>>,
    negative: Vec<Option<T>>,
}

impl<T> NegativeIndexVec<T> {
    /// Length of the non-negative side: indices `0 .. pos_len()` are reachable.
    pub closed spec fn pos_len(self) -> nat {
        self.positive@.len()
    }

    /// Length of the negative side: indices `-neg_len() .. 0` are reachable.
    pub closed spec fn neg_len(self) -> nat {
        self.negative@.len()
    }

    /// The value stored at logical index `i`: `None` both for a slot that
    /// was never written and for an index the storage has not grown to.
    pub closed spec fn at(self, i: int) -> Option<T> {
        if 0 <= i < self.pos_len() {
            self.positive@[i]
        } else if i < 0 && -i <= self.neg_len() {
            self.negative@[-i - 1]
        } else {
            None
        }
    }

    /// Classification of index `i` against the current side lengths:
    /// `Positive` exactly for `0 <= i < pos_len()`, `Negative` exactly for
    /// `-neg_len() <= i < 0`, `Nonexistent` otherwise.
    pub open spec fn spec_existence(self, i: int) -> Existence {
        if 0 <= i < self.pos_len() {
            Existence::Positive
        } else if i < 0 && -i <= self.neg_len() {
            Existence::Negative
        } else {
            Existence::Nonexistent
        }
    }

    /// What one write does: the written index holds the new value and every
    /// other index is untouched.
    pub open spec fn set_step(pre: Self, i: int, v: T, post: Self) -> bool {
        &&& post.at(i) == Some(v)
        &&& forall|j: int| j != i ==> post.at(j) == pre.at(j)
    }

    /// An empty axis: nothing reachable, nothing stored.
    pub fn new() -> (axis: Self)
        ensures
            axis.pos_len() == 0,
            axis.neg_len() == 0,
            forall|i: int| axis.at(i) is None,
    {
        NegativeIndexVec { positive: Vec::new(), negative: Vec::new() }
    }

    /// Classifies `index` without touching storage.
    pub fn existence(&self, index: isize) -> (e: Existence)
        ensures
            e == self.spec_existence(index as int),
    {
        if index >= 0 {
            if (index as usize) < self.positive.len() {
                Existence::Positive
            } else {
                Existence::Nonexistent
            }
        } else {
            let s: usize = neg_slot(index);
            if s < self.negative.len() {
                Existence::Negative
            } else {
                Existence::Nonexistent
            }
        }
    }

    /// Grows whichever side `size` falls on until that index is reachable;
    /// the other side and every stored value are untouched.
    fn assert_size(&mut self, size: isize)
        ensures
            final(self).pos_len() == (if size >= 0 {
                grown_len(old(self).pos_len(), (size + 1) as nat)
            } else {
                old(self).pos_len()
            }),
            final(self).neg_len() == (if size < 0 {
                grown_len(old(self).neg_len(), (-(size as int)) as nat)
            } else {
                old(self).neg_len()
            }),
            forall|j: int| final(self).at(j) == old(self).at(j),
    {
        if size >= 0 {
            grow_to_include(&mut self.positive, size as usize);
        } else {
            grow_to_include(&mut self.negative, neg_slot(size));
        }
    }

    /// Writes `item` at logical index `index`, growing storage first, so a
    /// write always succeeds. Every other index keeps its value, and
    /// neither side ever shrinks.
    pub fn set(&mut self, index: isize, item: T)
        ensures
            Self::set_step(*old(self), index as int, item, *final(self)),
            final(self).pos_len() == (if index >= 0 {
                grown_len(old(self).pos_len(), (index + 1) as nat)
            } else {
                old(self).pos_len()
            }),
            final(self).neg_len() == (if index < 0 {
                grown_len(old(self).neg_len(), (-(index as int)) as nat)
            } else {
                old(self).neg_len()
            }),
            final(self).pos_len() >= old(self).pos_len(),
            final(self).neg_len() >= old(self).neg_len(),
    {
        self.assert_size(index);
        if index >= 0 {
            let i: usize = index as usize;
            self.positive[i] = Some(item);
        } else {
            let s: usize = neg_slot(index);
            self.negative[s] = Some(item);
        }
    }

    /// Reads the value at logical index `index`: exactly the stored value,
    /// `None` when the slot is empty or the index was never grown to.
    pub fn get(&self, index: isize) -> (r: Option<&T>)
        ensures
            (match r {
                Some(v) => self.at(index as int) == Some(*v),
                None => self.at(index as int) is None,
            }),
    {
        match self.existence(index) {
            Existence::Positive => self.positive[index as usize].as_ref(),
            Existence::Negative => self.negative[neg_slot(index)].as_ref(),
            Existence::Nonexistent => None,
        }
    }

    /// A mutable handle on the value at logical index `index`, when one is
    /// stored there. Does not grow storage; only the addressed value can
    /// change through the handle.
    pub fn get_mut(&mut self, index: isize) -> (r: Option<&mut T>)
        ensures
            final(self).pos_len() == old(self).pos_len(),
            final(self).neg_len() == old(self).neg_len(),
            forall|j: int| j != index as int ==> final(self).at(j) == old(self).at(j),
            old(self).at(index as int) is None ==> r is None && final(self).at(index as int)
                is None,
            old(self).at(index as int) is Some ==> r is Some && *r.unwrap() == old(self).at(
                index as int,
            ).unwrap() && final(self).at(index as int) == Some(*final(r.unwrap())),
    {
        match self.existence(index) {
            Existence::Positive => self.positive[index as usize].as_mut(),
            Existence::Negative => self.negative[neg_slot(index)].as_mut(),
            Existence::Nonexistent => None,
        }
    }
}

/// The value a sequence of writes leaves at index `i`: the value of the
/// last write addressed to `i`, or `None` when no write addressed `i`.
pub open spec fn last_write<T>(ws: Seq<(int, T)>, i: int) -> Option<T>
    decreases ws.len(),
{
    if ws.len() == 0 {
        None
    } else if ws.last().0 == i {
        Some(ws.last().1)
    } else {
        last_write(ws.drop_last(), i)
    }
}

/// The contents left by the writes `ws`, as a total map from logical index
/// to optional value: empty at first, then one update per write, in order.
pub open spec fn model_after<T>(ws: Seq<(int, T)>) -> Map<int, Option<T>>
    decreases ws.len(),
{
    if ws.len() == 0 {
        Map::total(|i: int| None)
    } else {
        model_after(ws.drop_last()).insert(ws.last().0, Some(ws.last().1))
    }
}

/// Whether the axis stores, at every logical index, exactly what the model
/// map says. `new` establishes this for the empty write sequence and `set`
/// preserves it, as the two lemmas below state.
pub open spec fn models<T>(axis: NegativeIndexVec<T>, m: Map<int, Option<T>>) -> bool {
    forall|i: int| #[trigger] axis.at(i) == m[i]
}

/// A fresh axis carries the model of the empty write sequence.
pub proof fn lemma_new_models_empty<T>(axis: NegativeIndexVec<T>)
    requires
        forall|j: int| axis.at(j) is None,
    ensures
        models(axis, model_after(Seq::<(int, T)>::empty())),
{
}

/// A single write, acting as `set`'s contract describes, moves an axis
/// modeled by `ws` to an axis modeled by `ws` extended with that write.
pub proof fn lemma_set_models<T>(
    pre: NegativeIndexVec<T>,
    ws: Seq<(int, T)>,
    i: int,
    v: T,
    post: NegativeIndexVec<T>,
)
    requires
        models(pre, model_after(ws)),
        NegativeIndexVec::set_step(pre, i, v, post),
    ensures
        models(post, model_after(ws.push((i, v)))),
{
    assert(ws.push((i, v)).drop_last() =~= ws);
}

/// The model map reads back, at every index, the last value written there.
proof fn lemma_model_after_index<T>(ws: Seq<(int, T)>, i: int)
    ensures
        model_after(ws)[i] == last_write(ws, i),
    decreases ws.len(),
{
    if ws.len() > 0 {
        lemma_model_after_index(ws.drop_last(), i);
    }
}

/// Round-trip law: after any sequence of writes over any mix of positive,
/// negative and zero indices, starting from a fresh axis, every index
/// holds exactly the value of the last write addressed to it, and an index
/// never written — inside or outside the grown range — holds nothing.
pub proof fn lemma_round_trip<T>(axis: NegativeIndexVec<T>, ws: Seq<(int, T)>, i: int)
    requires
        models(axis, model_after(ws)),
    ensures
        axis.at(i) == last_write(ws, i),
{
    lemma_model_after_index(ws, i);
}

} // verus!
