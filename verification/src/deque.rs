//! A fixed-capacity circular buffer ("deque") with one producer side and one
//! consumer side.  One slot of the backing array stays reserved, so a buffer
//! over `SIZE` slots holds at most `SIZE - 1` elements and "full" and "empty"
//! remain distinguishable from the two cursors alone.  A `push` into a full
//! buffer is a silent no-op (the lossy-on-overflow policy of the bus); a `pop`
//! or an indexed peek demands, as a precondition, that the element exists.

use vstd::prelude::*;

verus! {

broadcast use vstd::array::group_array_axioms;

/// Circular storage over `SIZE` slots with a write cursor (`head`) and a read
/// cursor (`tail`).  The logical contents run from `tail` (oldest) forward to
/// `head` (next write slot), wrapping at `SIZE`.
pub struct Deque<T: Copy + Default, const SIZE: usize> {
    data: [T; SIZE],
    head: usize,
    tail: usize,
}

/// What a buffer holding `s` looks like after one more element is pushed:
/// appended while there is room, unchanged once `cap` elements are held.
pub open spec fn push_model<T>(s: Seq<T>, cap: int, x: T) -> Seq<T> {
    if s.len() < cap {
        s.push(x)
    } else {
        s
    }
}

/// What a buffer holding `s` looks like after every element of `xs` has been
/// pushed in order, under capacity `cap`.
pub open spec fn loaded<T>(s: Seq<T>, cap: int, xs: Seq<T>) -> Seq<T>
    decreases xs.len(),
{
    if xs.len() == 0 {
        s
    } else {
        loaded(push_model(s, cap, xs.first()), cap, xs.drop_first())
    }
}

/// Pushing a whole sequence is pushing all but the last element, then the last.
pub proof fn lemma_loaded_snoc<T>(s: Seq<T>, cap: int, xs: Seq<T>, x: T)
    ensures
        loaded(s, cap, xs.push(x)) == push_model(loaded(s, cap, xs), cap, x),
    decreases xs.len(),
{
    if xs.len() == 0 {
        assert(xs.push(x).first() == x);
        assert(xs.push(x).drop_first() =~= Seq::<T>::empty());
        assert(loaded(s, cap, xs.push(x)) == loaded(push_model(s, cap, x), cap, Seq::<T>::empty()));
        assert(loaded(push_model(s, cap, x), cap, Seq::<T>::empty()) == push_model(s, cap, x));
        assert(loaded(s, cap, xs) == s);
    } else {
        assert(xs.push(x).first() == xs.first());
        assert(xs.push(x).drop_first() =~= xs.drop_first().push(x));
        assert(loaded(s, cap, xs.push(x)) == loaded(
            push_model(s, cap, xs.first()),
            cap,
            xs.drop_first().push(x),
        ));
        lemma_loaded_snoc(push_model(s, cap, xs.first()), cap, xs.drop_first(), x);
        assert(loaded(s, cap, xs) == loaded(push_model(s, cap, xs.first()), cap, xs.drop_first()));
    }
}

/// A sequence that fits in the remaining room is appended without loss.
pub proof fn lemma_loaded_fits<T>(s: Seq<T>, cap: int, xs: Seq<T>)
    requires
        s.len() + xs.len() <= cap,
    ensures
        loaded(s, cap, xs) == s + xs,
    decreases xs.len(),
{
    if xs.len() == 0 {
        assert(s + xs =~= s);
    } else {
        lemma_loaded_fits(s.push(xs.first()), cap, xs.drop_first());
        assert(s.push(xs.first()) + xs.drop_first() =~= s + xs);
    }
}

/// FIFO law: pushing a sequence of at most `cap` elements into an empty buffer
/// stores exactly that sequence, and because each `pop` returns the front
/// element and drops it, the `k`-th pop afterwards returns the `k`-th pushed
/// element — values come out in push order.
pub proof fn lemma_fifo<T>(xs: Seq<T>, cap: int)
    requires
        xs.len() <= cap,
    ensures
        loaded(Seq::<T>::empty(), cap, xs) == xs,
        forall|k: int| 0 <= k < xs.len() ==> #[trigger] xs.skip(k)[0] == xs[k],
{
    lemma_loaded_fits(Seq::<T>::empty(), cap, xs);
    assert(Seq::<T>::empty() + xs =~= xs);
}

impl<T: Copy + Default, const SIZE: usize> View for Deque<T, SIZE> {
    type V = Seq<T>;

    closed spec fn view(&self) -> Seq<T> {
        let head = self.head as int;
        let tail = self.tail as int;
        let size = SIZE as int;
        let len = if head >= tail {
            head - tail
        } else {
            size - tail + head
        };
        Seq::new(
            len as nat,
            |i: int|
                self.data@[if tail + i < size {
                    tail + i
                } else {
                    tail + i - size
                }],
        )
    }
}

impl<T: Copy + Default, const SIZE: usize> Deque<T, SIZE> {
    /// Both cursors stay inside the backing array.
    pub closed spec fn wf(&self) -> bool {
        self.head < SIZE && self.tail < SIZE
    }

    /// An empty buffer with both cursors at slot zero.
    pub fn new() -> (d: Self)
        requires
            SIZE >= 1,
        ensures
            d.wf(),
            d@ == Seq::<T>::empty(),
    {
        Self { data: [T::default(); SIZE], head: 0, tail: 0 }
    }

    /// The number of elements currently held: the forward distance from `tail`
    /// to `head`, modulo `SIZE`.  Two calls with no mutation in between return
    /// the same value, since the result is a function of the buffer alone.
    pub fn len(&self) -> (n: usize)
        requires
            self.wf(),
        ensures
            n == self@.len(),
    {
        if self.head >= self.tail {
            self.head - self.tail
        } else {
            SIZE - self.tail + self.head
        }
    }

    /// Whether the buffer is at usable capacity (`SIZE - 1` elements).
    pub fn is_full(&self) -> (r: bool)
        requires
            self.wf(),
        ensures
            r == (self@.len() >= SIZE - 1),
    {
        self.len() >= SIZE - 1
    }

    /// Whether the buffer holds nothing.
    pub fn is_empty(&self) -> (r: bool)
        requires
            self.wf(),
        ensures
            r == (self@.len() == 0),
    {
        self.head == self.tail
    }

    /// The number of free slots, counting the reserved one.
    pub fn space(&self) -> (r: usize)
        requires
            self.wf(),
        ensures
            r == SIZE - self@.len(),
    {
        SIZE - self.len()
    }

    /// Appends `line` at `head`, or silently drops it when the buffer already
    /// holds `SIZE - 1` elements; existing contents are never disturbed.
    pub fn push(&mut self, line: T)
        requires
            old(self).wf(),
        ensures
            final(self).wf(),
            old(self)@.len() < SIZE - 1 ==> final(self)@ == old(self)@.push(line),
            old(self)@.len() >= SIZE - 1 ==> final(self)@ == old(self)@,
            final(self)@ == push_model(old(self)@, SIZE - 1, line),
    {
        if !self.is_full() {
            let head = self.head;
            self.data[head] = line;
            self.head = if head < SIZE - 1 {
                head + 1
            } else {
                head + 1 - SIZE
            };
            proof {
                assert(self@ =~= old(self)@.push(line));
            }
        }
    }

    /// Removes and returns the oldest element; the buffer must not be empty.
    pub fn pop(&mut self) -> (r: T)
        requires
            old(self).wf(),
            old(self)@.len() > 0,
        ensures
            final(self).wf(),
            r == old(self)@[0],
            final(self)@ == old(self)@.skip(1),
    {
        let tail = self.tail;
        let value = self.data[tail];
        self.tail = if tail < SIZE - 1 {
            tail + 1
        } else {
            tail + 1 - SIZE
        };
        proof {
            assert(self@ =~= old(self)@.skip(1));
        }
        value
    }

    /// Peeks at logical offset `i`, where offset 0 is the oldest element; the
    /// offset must lie inside the current contents.
    pub fn index(&self, i: usize) -> (r: T)
        requires
            self.wf(),
            i < self@.len(),
        ensures
            r == self@[i as int],
    {
        let offset = if i < SIZE - self.tail {
            self.tail + i
        } else {
            i - (SIZE - self.tail)
        };
        self.data[offset]
    }

    /// Resets both cursors; every held element is discarded.
    pub fn clear(&mut self)
        requires
            old(self).wf(),
        ensures
            final(self).wf(),
            final(self)@ == Seq::<T>::empty(),
    {
        self.head = 0;
        self.tail = 0;
    }

    /// Pushes every element of `data` in order; once the buffer fills, the
    /// remaining elements are silently dropped.
    pub fn load(&mut self, data: &[T])
        requires
            old(self).wf(),
        ensures
            final(self).wf(),
            final(self)@ == loaded(old(self)@, SIZE - 1, data@),
            old(self)@.len() + data@.len() <= SIZE - 1 ==> final(self)@ == old(self)@ + data@,
    {
        let mut idx: usize = 0;
        while idx < data.len()
            invariant
                self.wf(),
                idx <= data@.len(),
                self@ == loaded(old(self)@, SIZE - 1, data@.take(idx as int)),
            decreases data@.len() - idx,
        {
            let d = data[idx];
            proof {
                assert(data@.take(idx as int + 1) =~= data@.take(idx as int).push(data@[idx as int]));
                lemma_loaded_snoc(old(self)@, SIZE - 1, data@.take(idx as int), data@[idx as int]);
            }
            self.push(d);
            idx += 1;
        }
        proof {
            assert(data@.take(data@.len() as int) =~= data@);
            if old(self)@.len() + data@.len() <= SIZE - 1 {
                lemma_loaded_fits(old(self)@, SIZE - 1, data@);
            }
        }
    }

    /// A fresh iteration over the current contents, oldest first.
    pub fn iter<'a>(&'a self) -> (it: DequeIterator<'a, T, SIZE>)
        requires
            self.wf(),
        ensures
            it.wf(),
            it.src() == self@,
            it.pos() == 0,
    {
        DequeIterator { deque: self, pos: 0 }
    }
}

/// A lazy walk over a borrowed buffer, driven by repeated indexed peeks with a
/// cursor that starts at the oldest element.
pub struct DequeIterator<'a, T: Copy + Default, const SIZE: usize> {
    deque: &'a Deque<T, SIZE>,
    pos: usize,
}

impl<'a, T: Copy + Default, const SIZE: usize> DequeIterator<'a, T, SIZE> {
    /// The contents being walked.
    pub closed spec fn src(&self) -> Seq<T> {
        self.deque@
    }

    /// How many elements have been yielded so far.
    pub closed spec fn pos(&self) -> int {
        self.pos as int
    }

    /// The borrowed buffer is well formed.
    pub closed spec fn wf(&self) -> bool {
        self.deque.wf()
    }

    /// Yields the element at the cursor and advances, or reports the end.
    pub fn next(&mut self) -> (r: Option<T>)
        requires
            old(self).wf(),
        ensures
            final(self).wf(),
            final(self).src() == old(self).src(),
            old(self).pos() < old(self).src().len() ==> {
                &&& r == Some(old(self).src()[old(self).pos()])
                &&& final(self).pos() == old(self).pos() + 1
            },
            old(self).pos() >= old(self).src().len() ==> {
                &&& r is None
                &&& final(self).pos() == old(self).pos()
            },
    {
        if self.pos < self.deque.len() {
            let value = self.deque.index(self.pos);
            self.pos += 1;
            Some(value)
        } else {
            None
        }
    }
}

} // verus!
