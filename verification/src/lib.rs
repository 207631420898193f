//! Complement-wise traversal over an owned sequence of elements.
//!
//! A traversal visits each position of the sequence in turn. At every
//! step it gives the caller exclusive (mutable) access to the element at
//! the cursor, together with read-only access to the complement: every
//! other element, in original order. This serves algorithms that update
//! each item from the current state of all its peers (pairwise
//! interaction models, relational consistency checks) without cloning
//! the collection.

use vstd::prelude::*;

verus! {

/// The complement of position `i` in `s`: all elements of `s` in their
/// original order, with the element at index `i` removed.
pub open spec fn complement_of<T>(s: Seq<T>, i: int) -> Seq<T> {
    s.subrange(0, i) + s.subrange(i + 1, s.len() as int)
}

/// One visit of an action at position `pos`: the action saw the element
/// at `pos` and the two halves of its complement, and the sequence went
/// from `s` to `t` by writing the action's result at `pos`.
pub open spec fn visits<T, F: Fn(&T, &[T], &[T]) -> T>(
    action: F,
    s: Seq<T>,
    pos: int,
    t: Seq<T>,
) -> bool {
    exists|x: &T, b: &[T], a: &[T], out: T|
        {
            &&& *x == s[pos]
            &&& b@ == s.subrange(0, pos)
            &&& a@ == s.subrange(pos + 1, s.len() as int)
            &&& #[trigger] call_ensures(action, (x, b, a), out)
            &&& t == s.update(pos, out)
        }
}

/// The complement of position `i` is exactly the original sequence with
/// index `i` removed: it keeps every element below `i` at its place,
/// shifts every element above `i` down by one, and is one element
/// shorter than the original.
pub proof fn lemma_complement_elements<T>(s: Seq<T>, i: int)
    requires
        0 <= i < s.len(),
    ensures
        complement_of(s, i) == s.remove(i),
        complement_of(s, i).len() == s.len() - 1,
        forall|k: int| 0 <= k < i ==> complement_of(s, i)[k] == s[k],
        forall|k: int| i <= k < s.len() - 1 ==> complement_of(s, i)[k] == s[k + 1],
{
    assert(complement_of(s, i) =~= s.remove(i));
}

/// An in-place update at position `i` is visible to the complement of
/// every later position `j`: that complement is the complement the
/// un-updated sequence would have shown, with the new value at the slot
/// where index `i` appears (slot `i`, since `i` precedes `j`).
pub proof fn lemma_update_visible_later<T>(s: Seq<T>, i: int, v: T, j: int)
    requires
        0 <= i < j < s.len(),
    ensures
        complement_of(s.update(i, v), j) == complement_of(s, j).update(i, v),
{
    assert(complement_of(s.update(i, v), j) =~= complement_of(s, j).update(i, v));
}

/// A traversal engine over an owned sequence. It owns the elements for
/// the duration of the traversal and keeps a cursor; each successful
/// step exposes the element at the cursor for mutation and the rest of
/// the sequence for reading.
pub struct ComplewiseIterator<T> {
    /// The elements under traversal.
    elems: Vec<T>,
    /// The cursor: number of steps taken so far.
    index: usize,
}

impl<T> ComplewiseIterator<T> {
    /// The elements currently held by the engine.
    pub closed spec fn seq(self) -> Seq<T> {
        self.elems@
    }

    /// The cursor position: how many steps have been taken.
    pub closed spec fn cursor(self) -> nat {
        self.index as nat
    }

    /// Advance the traversal by one step. While positions remain, this
    /// returns the position the step visits and moves the cursor past
    /// it; once the cursor has reached the end, it returns `None` and
    /// leaves the engine unchanged, on this and every later call.
    pub fn next(&mut self) -> (r: Option<usize>)
        ensures
            final(self).seq() == old(self).seq(),
            if old(self).cursor() < old(self).seq().len() {
                &&& r == Some(old(self).cursor() as usize)
                &&& final(self).cursor() == old(self).cursor() + 1
            } else {
                &&& r is None
                &&& final(self).cursor() == old(self).cursor()
            },
    {
        if self.index < self.elems.len() {
            let visited = self.index;
            self.index = self.index + 1;
            Some(visited)
        } else {
            None
        }
    }

    /// Read-only access to the element the latest step visited: the one
    /// at the position just before the cursor.
    pub fn current(&self) -> (r: &T)
        requires
            0 < self.cursor() <= self.seq().len(),
        ensures
            *r == self.seq()[self.cursor() - 1],
    {
        &self.elems[self.index - 1]
    }

    /// Exclusive access to the element the latest step visited. While
    /// the returned reference lives, no other part of the sequence can
    /// be reached through the engine; whatever the caller writes through
    /// it becomes the element's value in place.
    pub fn current_mut(&mut self) -> (r: &mut T)
        requires
            0 < old(self).cursor() <= old(self).seq().len(),
        ensures
            *r == old(self).seq()[old(self).cursor() - 1],
            final(self).seq() == old(self).seq().update(
                old(self).cursor() - 1,
                *final(r),
            ),
            final(self).cursor() == old(self).cursor(),
    {
        let at = self.index - 1;
        &mut self.elems[at]
    }

    /// How many elements the latest step's complement holds: every
    /// element but the one under the cursor.
    pub fn complement_len(&self) -> (n: usize)
        requires
            0 < self.cursor() <= self.seq().len(),
        ensures
            n == complement_of(self.seq(), self.cursor() - 1).len(),
    {
        self.elems.len() - 1
    }

    /// Read-only access to the `k`-th element of the latest step's
    /// complement: the elements before the visited position in
    /// increasing index order, then those after it. The view is
    /// zero-copy; each read goes straight to the sequence's storage.
    pub fn complement_get(&self, k: usize) -> (r: &T)
        requires
            0 < self.cursor() <= self.seq().len(),
            k < complement_of(self.seq(), self.cursor() - 1).len(),
        ensures
            *r == complement_of(self.seq(), self.cursor() - 1)[k as int],
    {
        proof {
            assert(self.elems.len() == self.seq().len());
            assert(complement_of(self.seq(), self.cursor() - 1).len() == self.seq().len() - 1);
        }
        let at = self.index - 1;
        if k < at {
            &self.elems[k]
        } else {
            &self.elems[k + 1]
        }
    }

    /// Drive the traversal to exhaustion, one step at a time, touching
    /// nothing: the visit-all driver with a no-op action. Returns how
    /// many steps it performed; the elements come through unchanged.
    pub fn run_to_end(&mut self) -> (steps: usize)
        requires
            old(self).cursor() <= old(self).seq().len(),
        ensures
            final(self).seq() == old(self).seq(),
            final(self).cursor() == old(self).seq().len(),
            steps == old(self).seq().len() - old(self).cursor(),
    {
        let mut steps: usize = 0;
        while self.index < self.elems.len()
            invariant
                self.seq() == old(self).seq(),
                old(self).cursor() <= self.cursor() <= self.seq().len(),
                steps == self.cursor() - old(self).cursor(),
            decreases self.seq().len() - self.cursor(),
        {
            let _ = self.next();
            steps = steps + 1;
        }
        steps
    }

    /// Drive the traversal to exhaustion, invoking `action` once per
    /// remaining position, in cursor order. Each invocation receives the
    /// element at the visited position and the two halves of its
    /// complement (the elements before the position, then those after
    /// it, both in original order, straight from the sequence's
    /// storage); the value it returns replaces the visited element
    /// before the next step, so every later invocation sees the effect.
    /// Returns how many invocations were made.
    pub fn visit_all<F: Fn(&T, &[T], &[T]) -> T>(&mut self, action: F) -> (steps: usize)
        requires
            old(self).cursor() <= old(self).seq().len(),
            forall|x: &T, b: &[T], a: &[T]|
                b@.len() + a@.len() + 1 == old(self).seq().len() ==> call_requires(
                    action,
                    (x, b, a),
                ),
        ensures
            final(self).seq().len() == old(self).seq().len(),
            final(self).cursor() == old(self).seq().len(),
            steps == old(self).seq().len() - old(self).cursor(),
            forall|k: int|
                0 <= k < old(self).cursor() ==> final(self).seq()[k] == old(self).seq()[k],
            exists|hist: Seq<Seq<T>>|
                {
                    &&& hist.len() == steps + 1
                    &&& hist.first() == old(self).seq()
                    &&& hist.last() == final(self).seq()
                    &&& forall|j: int|
                        0 <= j < steps ==> #[trigger] visits(
                            action,
                            hist[j],
                            old(self).cursor() + j,
                            hist[j + 1],
                        )
                },
    {
        let ghost start = self.cursor();
        let ghost mut hist: Seq<Seq<T>> = seq![self.seq()];
        let mut steps: usize = 0;
        while self.index < self.elems.len()
            invariant
                forall|x: &T, b: &[T], a: &[T]|
                    b@.len() + a@.len() + 1 == old(self).seq().len() ==> call_requires(
                        action,
                        (x, b, a),
                    ),
                self.seq().len() == old(self).seq().len(),
                start == old(self).cursor(),
                start <= self.cursor() <= self.seq().len(),
                steps == self.cursor() - start,
                forall|k: int| 0 <= k < start ==> self.seq()[k] == old(self).seq()[k],
                hist.len() == steps + 1,
                hist.first() == old(self).seq(),
                hist.last() == self.seq(),
                forall|j: int|
                    0 <= j < steps ==> #[trigger] visits(
                        action,
                        hist[j],
                        start + j,
                        hist[j + 1],
                    ),
            decreases self.seq().len() - self.cursor(),
        {
            let i = self.index;
            let n = self.elems.len();
            let whole = self.elems.as_slice();
            let before = vstd::slice::slice_subrange(whole, 0, i);
            let after = vstd::slice::slice_subrange(whole, i + 1, n);
            let cur = &self.elems[i];
            let out = action(cur, before, after);
            let ghost gout = out;
            let ghost pre = self.seq();
            let slot = &mut self.elems[i];
            *slot = out;
            proof {
                assert(call_ensures(action, (cur, before, after), gout));
                assert(self.seq() == pre.update(i as int, gout));
                assert(visits(action, pre, i as int, self.seq()));
                hist = hist.push(self.seq());
            }
            let _ = self.next();
            steps = steps + 1;
        }
        steps
    }

    /// How many elements the traversal holds. Fixed for the traversal's
    /// whole lifetime.
    pub fn len(&self) -> (n: usize)
        ensures
            n == self.seq().len(),
    {
        self.elems.len()
    }

    /// Where the cursor stands: how many steps have been taken, and so
    /// the position the next step will visit while any remain.
    pub fn position(&self) -> (i: usize)
        ensures
            i == self.cursor(),
    {
        self.index
    }

    /// End the traversal and hand the elements back to the caller.
    pub fn into_inner(self) -> (v: Vec<T>)
        ensures
            v@ == self.seq(),
    {
        self.elems
    }
}

/// Conversion of a sequence of elements into a complement-wise
/// traversal. The traversal takes sole possession of the elements and
/// starts with its cursor at the first position.
pub trait IntoComplewiseIterator<T>: Sized {
    /// The elements the conversion hands to the traversal.
    spec fn elements(self) -> Seq<T>;

    /// Begin a complement-wise traversal over the elements.
    fn complewise(self) -> (it: ComplewiseIterator<T>)
        ensures
            it.seq() == self.elements(),
            it.cursor() == 0,
    ;
}

impl<T> IntoComplewiseIterator<T> for Vec<T> {
    open spec fn elements(self) -> Seq<T> {
        self@
    }

    fn complewise(self) -> (it: ComplewiseIterator<T>) {
        ComplewiseIterator { elems: self, index: 0 }
    }
}

} // verus!
