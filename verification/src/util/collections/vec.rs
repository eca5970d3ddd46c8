//! A dynamically-resizable array of elements.

use vstd::prelude::*;
use crate::errno::{AllocError, AllocResult};

verus! {

/// A vector collection is a dynamically-resizable array of elements.
///
/// When resizing a vector, the elements may be moved, thus the callee should
/// not rely on pointers to elements inside a vector.
///
/// The vector keeps count of the room that it has reserved, and fails when
/// asked for more room than can be counted.
pub struct Vec<T> {
    /// The number of elements that the vector has room for.
    capacity: usize,
    /// The vector's data
    data: std::vec::Vec<T>,
}

impl<T> View for Vec<T> {
    type V = Seq<T>;

    closed spec fn view(&self) -> Seq<T> {
        self.data@
    }
}

impl<T> Default for Vec<T> {
    fn default() -> (v: Self)
        ensures
            v.wf(),
            v@.len() == 0,
            v.spec_capacity() == 0,
    {
        Vec { capacity: 0, data: std::vec::Vec::new() }
    }
}

/// The capacity that a vector of capacity `capacity` and of `len` elements
/// takes to have room for `min` more: the one it has, if it is enough, or
/// else a quarter more, if that can be counted, or what it takes if that is
/// more.
pub open spec fn grown(capacity: int, len: int, min: int) -> int {
    if len + min <= capacity {
        capacity
    } else if len + min < capacity + capacity / 4 <= usize::MAX {
        capacity + capacity / 4
    } else {
        len + min
    }
}

/// Tells whether `answers` holds, for each element of `s` in turn, an answer
/// that the closure `f` may give for it.
pub open spec fn answered<T, F: Fn(&T) -> bool>(s: Seq<T>, f: F, answers: Seq<bool>) -> bool {
    &&& answers.len() == s.len()
    &&& forall|k: int| 0 <= k < s.len() ==> f.ensures((&#[trigger] s[k],), answers[k])
}

/// The elements of `s` whose answer in `answers` is `true`, in the order of
/// `s`.
pub open spec fn masked<T>(s: Seq<T>, answers: Seq<bool>) -> Seq<T>
    decreases s.len(),
{
    if s.len() == 0 || answers.len() != s.len() {
        Seq::empty()
    } else if answers.last() {
        masked(s.drop_last(), answers.drop_last()).push(s.last())
    } else {
        masked(s.drop_last(), answers.drop_last())
    }
}

/// Where the answers are those of the predicate `keep`, the elements that
/// are left are those that the predicate holds of.
pub proof fn lemma_masked<T>(s: Seq<T>, answers: Seq<bool>, keep: spec_fn(T) -> bool)
    requires
        answers.len() == s.len(),
        forall|k: int| 0 <= k < s.len() ==> answers[k] == keep(#[trigger] s[k]),
    ensures
        masked(s, answers) == retained(s, keep),
    decreases s.len(),
{
    if s.len() > 0 {
        assert forall|k: int| 0 <= k < s.len() - 1 implies answers.drop_last()[k] == keep(
            #[trigger] s.drop_last()[k],
        ) by {
            assert(s.drop_last()[k] == s[k]);
        }
        assert(answers.last() == keep(s[s.len() - 1]));
        lemma_masked(s.drop_last(), answers.drop_last(), keep);
    }
}

/// The elements of `s` that `keep` holds of, in the order of `s`.
pub open spec fn retained<T>(s: Seq<T>, keep: spec_fn(T) -> bool) -> Seq<T>
    decreases s.len(),
{
    if s.len() == 0 {
        Seq::empty()
    } else if keep(s.last()) {
        retained(s.drop_last(), keep).push(s.last())
    } else {
        retained(s.drop_last(), keep)
    }
}

impl<T> Vec<T> {
    /// The vector's invariant: it has room for its elements.
    pub closed spec fn wf(&self) -> bool {
        self.data@.len() <= self.capacity
    }

    /// The number of elements that the vector has room for.
    pub closed spec fn spec_capacity(&self) -> nat {
        self.capacity as nat
    }

    /// A well-formed vector has room for its elements.
    pub proof fn lemma_capacity(&self)
        requires
            self.wf(),
        ensures
            self@.len() <= self.spec_capacity(),
    {
    }

    /// Creates a new empty vector.
    pub fn new() -> (v: Self)
        ensures
            v.wf(),
            v@.len() == 0,
            v.spec_capacity() == 0,
    {
        Vec { capacity: 0, data: std::vec::Vec::new() }
    }

    /// Reallocates the vector's data with the vector's capacity.
    ///
    /// `capacity` is the new capacity in number of elements.
    fn realloc(&mut self, capacity: usize)
        requires
            old(self)@.len() <= capacity,
        ensures
            final(self).wf(),
            final(self)@ == old(self)@,
            final(self).spec_capacity() == capacity,
    {
        if capacity > self.capacity {
            self.data.reserve(capacity - self.data.len());
        }
        self.capacity = capacity;
    }

    /// Increases the capacity of so that at least `min` more elements can
    /// fit. The function fails, and changes nothing, iff the capacity that it
    /// takes cannot be counted.
    fn increase_capacity(&mut self, min: usize) -> (r: AllocResult<()>)
        requires
            old(self).wf(),
        ensures
            final(self).wf(),
            final(self)@ == old(self)@,
            match r {
                Ok(()) => {
                    &&& old(self)@.len() + min <= usize::MAX
                    &&& final(self).spec_capacity() == grown(
                        old(self).spec_capacity() as int,
                        old(self)@.len() as int,
                        min as int,
                    )
                    &&& final(self)@.len() + min <= final(self).spec_capacity()
                },
                Err(_) => {
                    &&& old(self)@.len() + min > usize::MAX
                    &&& final(self).spec_capacity() == old(self).spec_capacity()
                },
            },
    {
        let Some(needed) = self.data.len().checked_add(min) else {
            return Err(AllocError);
        };
        if needed <= self.capacity {
            return Ok(());
        }
        let curr_capacity = self.capacity;
        // multiply capacity by 1.25
        let larger = match curr_capacity.checked_add(curr_capacity / 4) {
            Some(larger) => larger,
            None => needed,
        };
        let capacity = if larger > needed {
            larger
        } else {
            needed
        };
        self.realloc(capacity);
        Ok(())
    }

    /// Creates a new empty vector with the given capacity.
    pub fn with_capacity(capacity: usize) -> (r: AllocResult<Self>)
        ensures
            r matches Ok(v) && v.wf() && v@.len() == 0 && v.spec_capacity() == capacity,
    {
        let mut vec = Self::new();
        vec.realloc(capacity);
        Ok(vec)
    }

    /// Returns the number of elements inside the vector.
    pub fn len(&self) -> (n: usize)
        ensures
            n == self@.len(),
    {
        self.data.len()
    }

    /// Returns `true` if the vector contains no elements.
    pub fn is_empty(&self) -> (b: bool)
        ensures
            b == (self@.len() == 0),
    {
        self.data.len() == 0
    }

    /// Returns the number of elements that can be stored inside of the vector
    /// without needing to reallocate the memory.
    pub fn capacity(&self) -> (c: usize)
        ensures
            c == self.spec_capacity(),
    {
        self.capacity
    }

    /// Returns a slice containing the data.
    pub fn as_slice(&self) -> (s: &[T])
        ensures
            s@ == self@,
    {
        self.data.as_slice()
    }

    /// Returns a mutable slice containing the data.
    pub fn as_mut_slice(&mut self) -> (s: &mut [T])
        ensures
            s@ == old(self)@,
            final(self)@ == final(s)@,
            final(self).spec_capacity() == old(self).spec_capacity(),
    {
        self.data.as_mut_slice()
    }

    /// Returns a reference to the element at position `index`, if the vector
    /// has one.
    pub fn get(&self, index: usize) -> (r: Option<&T>)
        ensures
            match r {
                Some(e) => index < self@.len() && *e == self@[index as int],
                None => index >= self@.len(),
            },
    {
        if index < self.data.len() {
            Some(&self.data[index])
        } else {
            None
        }
    }

    /// Inserts an element at position index within the vector, shifting all
    /// elements after it to the right.
    ///
    /// The function fails, and changes nothing, iff the vector cannot grow.
    pub fn insert(&mut self, index: usize, element: T) -> (r: AllocResult<()>)
        requires
            old(self).wf(),
            index <= old(self)@.len(),
        ensures
            final(self).wf(),
            match r {
                Ok(()) => {
                    &&& old(self)@.len() < usize::MAX
                    &&& final(self)@ == old(self)@.insert(index as int, element)
                    &&& final(self).spec_capacity() == grown(
                        old(self).spec_capacity() as int,
                        old(self)@.len() as int,
                        1,
                    )
                },
                Err(_) => {
                    &&& old(self)@.len() == usize::MAX
                    &&& final(self)@ == old(self)@
                    &&& final(self).spec_capacity() == old(self).spec_capacity()
                },
            },
    {
        match self.increase_capacity(1) {
            Ok(()) => {},
            Err(e) => {
                return Err(e);
            },
        }
        self.data.insert(index, element);
        Ok(())
    }

    /// Removes and returns the element at position index within the vector,
    /// shifting all elements after it to the left.
    pub fn remove(&mut self, index: usize) -> (e: T)
        requires
            old(self).wf(),
            index < old(self)@.len(),
        ensures
            final(self).wf(),
            e == old(self)@[index as int],
            final(self)@ == old(self)@.remove(index as int),
            final(self).spec_capacity() == old(self).spec_capacity(),
    {
        self.data.remove(index)
    }

    /// Moves all the elements of `other` into `Self`, leaving `other` empty.
    ///
    /// The function fails, and changes nothing, iff the vector cannot grow.
    pub fn append(&mut self, other: &mut Vec<T>) -> (r: AllocResult<()>)
        requires
            old(self).wf(),
            old(other).wf(),
        ensures
            final(self).wf(),
            final(other).wf(),
            match r {
                Ok(()) => {
                    &&& old(self)@.len() + old(other)@.len() <= usize::MAX
                    &&& final(self)@ == old(self)@ + old(other)@
                    &&& final(other)@.len() == 0
                    &&& final(self).spec_capacity() == if old(other)@.len() == 0 {
                        old(self).spec_capacity() as int
                    } else {
                        grown(
                            old(self).spec_capacity() as int,
                            old(self)@.len() as int,
                            old(other)@.len() as int,
                        )
                    }
                    &&& final(other).spec_capacity() == if old(other)@.len() == 0 {
                        old(other).spec_capacity()
                    } else {
                        0
                    }
                },
                Err(_) => {
                    &&& old(self)@.len() + old(other)@.len() > usize::MAX
                    &&& final(self)@ == old(self)@
                    &&& final(other)@ == old(other)@
                    &&& final(self).spec_capacity() == old(self).spec_capacity()
                    &&& final(other).spec_capacity() == old(other).spec_capacity()
                },
            },
    {
        if other.is_empty() {
            assert(self@ + other@ =~= self@);
            return Ok(());
        }
        match self.increase_capacity(other.len()) {
            Ok(()) => {},
            Err(e) => {
                return Err(e);
            },
        }
        self.data.append(&mut other.data);
        other.capacity = 0;
        Ok(())
    }

    /// Appends an element to the back of a collection.
    ///
    /// The function fails, and changes nothing, iff the vector cannot grow.
    pub fn push(&mut self, value: T) -> (r: AllocResult<()>)
        requires
            old(self).wf(),
        ensures
            final(self).wf(),
            match r {
                Ok(()) => {
                    &&& old(self)@.len() < usize::MAX
                    &&& final(self)@ == old(self)@.push(value)
                    &&& final(self).spec_capacity() == grown(
                        old(self).spec_capacity() as int,
                        old(self)@.len() as int,
                        1,
                    )
                },
                Err(_) => {
                    &&& old(self)@.len() == usize::MAX
                    &&& final(self)@ == old(self)@
                    &&& final(self).spec_capacity() == old(self).spec_capacity()
                },
            },
    {
        match self.increase_capacity(1) {
            Ok(()) => {},
            Err(e) => {
                return Err(e);
            },
        }
        self.data.push(value);
        Ok(())
    }

    /// Removes the last element from a vector and returns it, or `None` if it
    /// is empty.
    pub fn pop(&mut self) -> (r: Option<T>)
        requires
            old(self).wf(),
        ensures
            final(self).wf(),
            final(self).spec_capacity() == old(self).spec_capacity(),
            match r {
                Some(e) => old(self)@.len() > 0 && e == old(self)@.last() && final(self)@ == old(self)@.drop_last(),
                None => old(self)@.len() == 0 && final(self)@ == old(self)@,
            },
    {
        self.data.pop()
    }

    /// Retains only the elements for which the given closure returns `true`.
    ///
    /// The closure is called once on each element, in order: the elements
    /// that are left are those for which it has answered `true`, in their
    /// order.
    pub fn retain<F: Fn(&T) -> bool>(&mut self, f: F)
        requires
            old(self).wf(),
            forall|e: T| #[trigger] f.requires((&e,)),
        ensures
            final(self).wf(),
            final(self).spec_capacity() == old(self).spec_capacity(),
            exists|answers: Seq<bool>|
                answered(old(self)@, f, answers) && final(self)@ == #[trigger] masked(
                    old(self)@,
                    answers,
                ),
    {
        let mut i: usize = 0;
        let ghost mut answers: Seq<bool> = Seq::empty();
        while i < self.data.len()
            invariant
                self.wf(),
                self.capacity == old(self).capacity,
                answers.len() <= old(self)@.len(),
                i <= self@.len(),
                self@.len() - i == old(self)@.len() - answers.len(),
                answered(old(self)@.subrange(0, answers.len() as int), f, answers),
                self@.subrange(0, i as int) == masked(
                    old(self)@.subrange(0, answers.len() as int),
                    answers,
                ),
                self@.subrange(i as int, self@.len() as int) == old(self)@.subrange(
                    answers.len() as int,
                    old(self)@.len() as int,
                ),
                forall|e: T| #[trigger] f.requires((&e,)),
            decreases self@.len() - i,
        {
            let ghost before = self@;
            let ghost done = answers.len() as int;
            let ghost e = self@[i as int];
            proof {
                assert(before.subrange(i as int, before.len() as int)[0] == e);
                assert(e == old(self)@[done]);
            }
            let ghost tail = before.subrange(i as int, before.len() as int);
            let ghost old_tail = old(self)@.subrange(done, old(self)@.len() as int);
            let ghost old_rest = old(self)@.subrange(done + 1, old(self)@.len() as int);
            let keep = f(&self.data[i]);
            proof {
                let next = old(self)@.subrange(0, done + 1);
                let known = old(self)@.subrange(0, done);
                assert(next.drop_last() =~= known);
                assert(next.last() == e);
                assert(answers.push(keep).drop_last() =~= answers);
                assert forall|k: int| 0 <= k < next.len() implies f.ensures(
                    (&#[trigger] next[k],),
                    answers.push(keep)[k],
                ) by {
                    if k < done {
                        assert(next[k] == known[k]);
                    }
                }
            }
            if keep {
                proof {
                    assert(self@.subrange(0, i + 1) =~= self@.subrange(0, i as int).push(e));
                    let rest = self@.subrange(i + 1, self@.len() as int);
                    assert forall|k: int| 0 <= k < rest.len() implies #[trigger] rest[k]
                        == old_rest[k] by {
                        assert(tail[k + 1] == old_tail[k + 1]);
                    }
                    assert(rest =~= old_rest);
                }
                i = i + 1;
            } else {
                let _ = self.data.remove(i);
                proof {
                    before.remove_ensures(i as int);
                    assert(self@.subrange(0, i as int) =~= before.subrange(0, i as int));
                    let rest = self@.subrange(i as int, self@.len() as int);
                    assert forall|k: int| 0 <= k < rest.len() implies #[trigger] rest[k]
                        == old_rest[k] by {
                        assert(tail[k + 1] == old_tail[k + 1]);
                    }
                    assert(rest =~= old_rest);
                }
            }
            proof {
                answers = answers.push(keep);
            }
        }
        proof {
            assert(self@.subrange(0, i as int) =~= self@);
            assert(old(self)@.subrange(0, answers.len() as int) =~= old(self)@);
        }
    }

    /// Truncates the vector to the given new len `len`.
    ///
    /// If `len` is greater than or equal to the current length, the function
    /// has no effect on the elements. A vector that is truncated to no
    /// element gives back the room that it had.
    pub fn truncate(&mut self, len: usize)
        requires
            old(self).wf(),
        ensures
            final(self).wf(),
            final(self)@ == if len < old(self)@.len() {
                old(self)@.subrange(0, len as int)
            } else {
                old(self)@
            },
            final(self).spec_capacity() == if len == 0 {
                0
            } else {
                old(self).spec_capacity()
            },
    {
        self.data.truncate(len);
        if len == 0 {
            self.capacity = 0;
        }
    }

    /// Clears the vector, removing all values.
    pub fn clear(&mut self)
        ensures
            final(self).wf(),
            final(self)@.len() == 0,
            final(self).spec_capacity() == 0,
    {
        self.data.clear();
        self.capacity = 0;
    }
}

impl<T: Copy> Vec<T> {
    /// Resizes the vector to the given length `new_len` with the `value` used
    /// for all the new elements.
    ///
    /// If the new length is lower than the current, the size of the vector is
    /// truncated.
    ///
    /// The function fails, and changes nothing, iff the vector cannot grow.
    pub fn resize(&mut self, new_len: usize, value: T) -> (r: AllocResult<()>)
        requires
            old(self).wf(),
        ensures
            final(self).wf(),
            r.is_ok(),
            final(self)@.len() == new_len,
            forall|i: int|
                0 <= i < new_len ==> final(self)@[i] == if i < old(self)@.len() {
                    old(self)@[i]
                } else {
                    value
                },
            final(self).spec_capacity() == if new_len < old(self)@.len() {
                if new_len == 0 {
                    0
                } else {
                    old(self).spec_capacity() as int
                }
            } else {
                grown(
                    old(self).spec_capacity() as int,
                    old(self)@.len() as int,
                    new_len - old(self)@.len(),
                )
            },
    {
        if new_len < self.len() {
            self.truncate(new_len);
        } else {
            let more = new_len - self.data.len();
            match self.increase_capacity(more) {
                Ok(()) => {},
                Err(e) => {
                    return Err(e);
                },
            }
            while self.data.len() < new_len
                invariant
                    self.wf(),
                    self.capacity >= new_len,
                    self@.len() <= new_len,
                    self@.len() >= old(self)@.len(),
                    self.spec_capacity() == grown(
                        old(self).spec_capacity() as int,
                        old(self)@.len() as int,
                        new_len - old(self)@.len(),
                    ),
                    forall|i: int|
                        0 <= i < self@.len() ==> self@[i] == if i < old(self)@.len() {
                            old(self)@[i]
                        } else {
                            value
                        },
                decreases new_len - self@.len(),
            {
                self.data.push(value);
            }
        }
        Ok(())
    }

    /// Creates a new vector from the given slice.
    pub fn from_slice(slice: &[T]) -> (r: AllocResult<Self>)
        ensures
            r matches Ok(v) && v.wf() && v@ == slice@ && v.spec_capacity() == slice@.len(),
    {
        let mut v = Vec { capacity: slice.len(), data: std::vec::Vec::new() };
        let mut i: usize = 0;
        while i < slice.len()
            invariant
                i <= slice@.len(),
                v.capacity == slice@.len(),
                v@ == slice@.subrange(0, i as int),
            decreases slice@.len() - i,
        {
            v.data.push(slice[i]);
            assert(v@ =~= slice@.subrange(0, i + 1));
            i = i + 1;
        }
        assert(v@ =~= slice@);
        Ok(v)
    }

    /// Extends the vector by cloning the elements from the given slice
    /// `slice`.
    ///
    /// The function fails, and changes nothing, iff the vector cannot grow.
    pub fn extend_from_slice(&mut self, slice: &[T]) -> (r: AllocResult<()>)
        requires
            old(self).wf(),
        ensures
            final(self).wf(),
            match r {
                Ok(()) => {
                    &&& old(self)@.len() + slice@.len() <= usize::MAX
                    &&& final(self)@ == old(self)@ + slice@
                    &&& final(self).spec_capacity() == if slice@.len() == 0 {
                        old(self).spec_capacity() as int
                    } else {
                        grown(
                            old(self).spec_capacity() as int,
                            old(self)@.len() as int,
                            slice@.len() as int,
                        )
                    }
                },
                Err(_) => {
                    &&& old(self)@.len() + slice@.len() > usize::MAX
                    &&& final(self)@ == old(self)@
                    &&& final(self).spec_capacity() == old(self).spec_capacity()
                },
            },
    {
        if slice.len() == 0 {
            assert(self@ + slice@ =~= self@);
            return Ok(());
        }
        match self.increase_capacity(slice.len()) {
            Ok(()) => {},
            Err(e) => {
                return Err(e);
            },
        }
        let mut i: usize = 0;
        while i < slice.len()
            invariant
                i <= slice@.len(),
                self.capacity >= old(self)@.len() + slice@.len(),
                self.spec_capacity() == grown(
                    old(self).spec_capacity() as int,
                    old(self)@.len() as int,
                    slice@.len() as int,
                ),
                self@ == old(self)@ + slice@.subrange(0, i as int),
            decreases slice@.len() - i,
        {
            self.data.push(slice[i]);
            assert(self@ =~= old(self)@ + slice@.subrange(0, i + 1));
            i = i + 1;
        }
        assert(slice@.subrange(0, slice@.len() as int) =~= slice@);
        Ok(())
    }

    /// Creates a copy of the vector.
    pub fn try_clone(&self) -> (r: AllocResult<Self>)
        ensures
            r matches Ok(v) && v.wf() && v@ == self@ && v.spec_capacity() == self@.len(),
    {
        Self::from_slice(self.data.as_slice())
    }
}

/// The elements of `s`, the last one first.
pub open spec fn backwards<T>(s: Seq<T>) -> Seq<T> {
    Seq::new(s.len(), |i: int| s[s.len() - 1 - i])
}

/// A consuming iterator over [`Vec`].
pub struct IntoIter<T> {
    /// The elements that are left, the next one last.
    rest: std::vec::Vec<T>,
}

impl<T> IntoIter<T> {
    /// The elements that are left, in the order in which they come.
    pub closed spec fn remaining(&self) -> Seq<T> {
        backwards(self.rest@)
    }

    /// Returns the next element, if one is left.
    pub fn next(&mut self) -> (r: Option<T>)
        ensures
            match r {
                Some(e) => old(self).remaining().len() > 0 && e == old(self).remaining()[0]
                    && final(self).remaining() == old(self).remaining().subrange(
                    1,
                    old(self).remaining().len() as int,
                ),
                None => old(self).remaining().len() == 0 && final(self).remaining() == old(self).remaining(),
            },
    {
        let r = self.rest.pop();
        proof {
            if r.is_some() {
                assert(backwards(self.rest@) =~= backwards(old(self).rest@).subrange(
                    1,
                    old(self).rest@.len() as int,
                ));
            }
        }
        r
    }

    /// Returns the last element, if one is left.
    pub fn next_back(&mut self) -> (r: Option<T>)
        ensures
            match r {
                Some(e) => old(self).remaining().len() > 0 && e == old(self).remaining().last()
                    && final(self).remaining() == old(self).remaining().drop_last(),
                None => old(self).remaining().len() == 0 && final(self).remaining() == old(self).remaining(),
            },
    {
        if self.rest.len() == 0 {
            return None;
        }
        let e = self.rest.remove(0);
        proof {
            assert(backwards(self.rest@) =~= backwards(old(self).rest@).drop_last());
        }
        Some(e)
    }

    /// Returns the number of elements that are left, as the least and as the
    /// most that can come.
    pub fn size_hint(&self) -> (r: (usize, Option<usize>))
        ensures
            r.0 == self.remaining().len(),
            r.1 == Some(self.remaining().len() as usize),
    {
        let len = self.rest.len();
        (len, Some(len))
    }

    /// Returns the number of elements that are left.
    pub fn count(self) -> (n: usize)
        ensures
            n == self.remaining().len(),
    {
        self.rest.len()
    }
}

impl<T> Vec<T> {
    /// Turns the vector into an iterator over its elements, which come in
    /// the order of the vector.
    pub fn into_iter(self) -> (it: IntoIter<T>)
        ensures
            it.remaining() == self@,
    {
        let mut data = self.data;
        let mut rest: std::vec::Vec<T> = std::vec::Vec::new();
        let ghost all = data@;
        while data.len() > 0
            invariant
                backwards(rest@) == all.subrange(data@.len() as int, all.len() as int),
                data@ == all.subrange(0, data@.len() as int),
                data@.len() <= all.len(),
            decreases data@.len(),
        {
            let ghost n = data@.len();
            let ghost before = rest@;
            let e = data.pop().unwrap();
            rest.push(e);
            proof {
                assert(e == all[n - 1]);
                let now = backwards(rest@);
                let want = all.subrange(n - 1, all.len() as int);
                assert(backwards(before).len() == before.len());
                assert(all.subrange(n as int, all.len() as int).len() == all.len() - n);
                assert(now.len() == want.len());
                assert forall|k: int| 0 <= k < now.len() implies #[trigger] now[k] == want[k] by {
                    if k > 0 {
                        assert(backwards(before)[k - 1] == all.subrange(
                            n as int,
                            all.len() as int,
                        )[k - 1]);
                    }
                }
                assert(now =~= want);
                assert(data@ =~= all.subrange(0, n - 1));
            }
        }
        proof {
            assert(all.subrange(0, all.len() as int) =~= all);
        }
        IntoIter { rest }
    }
}

/// The result of the collection of the elements of an iterator, which fails
/// if there is no memory for them.
pub struct CollectResult<T>(pub AllocResult<T>);

impl<T> CollectResult<Vec<T>> {
    /// Collects the elements that are left in `iter` in a vector, in the
    /// order in which they come.
    pub fn from_iter(iter: IntoIter<T>) -> (r: Self)
        ensures
            r.0 matches Ok(v) && v.wf() && v@ == iter.remaining(),
    {
        let ghost all = iter.remaining();
        let mut rest = iter;
        let min_size = rest.size_hint().0;
        let mut vec = match Vec::with_capacity(min_size) {
            Ok(vec) => vec,
            Err(e) => {
                return CollectResult(Err(e));
            },
        };
        while rest.size_hint().0 > 0
            invariant
                vec.wf(),
                vec@.len() + rest.remaining().len() == all.len(),
                all.len() <= usize::MAX,
                vec@ == all.subrange(0, vec@.len() as int),
                rest.remaining() == all.subrange(vec@.len() as int, all.len() as int),
            decreases rest.remaining().len(),
        {
            let ghost done = vec@;
            match rest.next() {
                Some(elem) => {
                    let pushed = vec.push(elem);
                    proof {
                        assert(pushed.is_ok());
                        assert(vec@ =~= all.subrange(0, done.len() as int + 1));
                        assert(rest.remaining() =~= all.subrange(done.len() as int + 1, all.len() as int));
                    }
                },
                None => {},
            }
        }
        assert(vec@ =~= all);
        CollectResult(Ok(vec))
    }
}

} // verus!
