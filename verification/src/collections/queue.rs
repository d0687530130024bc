//! A ring buffer of fixed capacity.
use vstd::prelude::*;
use crate::collections::list::{CurserIter, List, RawList, RawListIter};

verus! {

/// For `0 <= x < 2 * n`, reducing modulo `n` subtracts `n` at most once.
pub proof fn lemma_mod_once(x: int, n: int)
    requires
        n > 0,
        0 <= x < 2 * n,
    ensures
        x % n == if x < n { x } else { x - n },
{
    if x < n {
        vstd::arithmetic::div_mod::lemma_fundamental_div_mod_converse(x, n, 0, x);
    } else {
        vstd::arithmetic::div_mod::lemma_fundamental_div_mod_converse(x, n, 1, x - n);
    }
}

/// A queue over the slots of `buffer`; `put_idx` is where the next value
/// goes, `get_idx` where the oldest one is, and `last_op` tells a full queue
/// (the last operation put a value) from an empty one when the two meet.
pub struct Queue<N> {
    buffer: Vec<N>,
    put_idx: usize,
    get_idx: usize,
    last_op: bool,
}

impl<N: Copy> Queue<N> {
    pub closed spec fn capacity(&self) -> nat {
        self.buffer@.len()
    }

    pub closed spec fn wf(&self) -> bool {
        ||| (self.buffer@.len() == 0 && self.put_idx == 0 && self.get_idx == 0 && !self.last_op)
        ||| (self.put_idx < self.buffer@.len() && self.get_idx < self.buffer@.len())
    }

    /// Number of values held.
    pub closed spec fn count(&self) -> int {
        let len = self.buffer@.len() as int;
        if self.put_idx == self.get_idx {
            if self.last_op { len } else { 0 }
        } else if self.put_idx > self.get_idx {
            self.put_idx - self.get_idx
        } else {
            self.put_idx + len - self.get_idx
        }
    }

    /// The values held, oldest first.
    pub closed spec fn view(&self) -> Seq<N> {
        Seq::new(
            self.count() as nat,
            |i: int| self.buffer@[(self.get_idx + i) % (self.buffer@.len() as int)],
        )
    }

    proof fn lemma_count_bounds(&self)
        requires
            self.wf(),
        ensures
            0 <= self.count() <= self.capacity(),
            self.capacity() > 0 ==> self.put_idx == (self.get_idx + self.count()) % (self.capacity() as int),
    {
        let len = self.buffer@.len() as int;
        if len > 0 {
            lemma_mod_once(self.get_idx + self.count(), len);
        }
    }

    /// A queue never holds more values than its buffer has room for.
    pub proof fn lemma_within_capacity(&self)
        requires
            self.wf(),
        ensures
            self@.len() <= self.capacity(),
    {
        self.lemma_count_bounds();
    }

    /// A queue over `buffer`; it starts empty, whatever the buffer holds.
    pub fn new(buffer: Vec<N>) -> (r: Self)
        ensures
            r.wf(),
            r@ == Seq::<N>::empty(),
            r.capacity() == buffer@.len(),
    {
        let r = Self { buffer, put_idx: 0, get_idx: 0, last_op: false };
        proof {
            assert(r@ =~= Seq::<N>::empty());
        }
        r
    }

    pub fn is_empty(&self) -> (r: bool)
        requires
            self.wf(),
        ensures
            r == (self@.len() == 0),
    {
        proof {
            self.lemma_count_bounds();
        }
        self.put_idx == self.get_idx && !self.last_op
    }

    /// Number of values held.
    pub fn len(&self) -> (r: usize)
        requires
            self.wf(),
        ensures
            r == self@.len(),
    {
        proof {
            self.lemma_count_bounds();
        }
        if self.put_idx == self.get_idx {
            if self.last_op { self.buffer.len() } else { 0 }
        } else if self.put_idx > self.get_idx {
            self.put_idx - self.get_idx
        } else {
            self.put_idx + (self.buffer.len() - self.get_idx)
        }
    }

    /// The value `i` places from the oldest.
    pub fn get(&self, i: usize) -> (r: N)
        requires
            self.wf(),
            i < self@.len(),
        ensures
            r == self@[i as int],
    {
        proof {
            self.lemma_count_bounds();
        }
        let len = self.buffer.len();
        let room = len - self.get_idx;
        let k = if i < room { self.get_idx + i } else { i - room };
        proof {
            lemma_mod_once(self.get_idx + i, len as int);
        }
        self.buffer[k]
    }

    pub fn is_full(&self) -> (r: bool)
        requires
            self.wf(),
        ensures
            r == (self.capacity() > 0 && self@.len() == self.capacity()),
    {
        proof {
            self.lemma_count_bounds();
        }
        self.put_idx == self.get_idx && self.last_op
    }

    /// Appends `value`; `Err` when the queue is full.
    pub fn enqueue(&mut self, value: N) -> (r: Result<(), ()>)
        requires
            old(self).wf(),
            old(self).capacity() > 0,
        ensures
            final(self).wf(),
            final(self).capacity() == old(self).capacity(),
            r is Err <==> old(self)@.len() == old(self).capacity(),
            r is Err ==> final(self)@ == old(self)@,
            r is Ok ==> final(self)@ == old(self)@.push(value),
            final(self)@.len() <= final(self).capacity(),
    {
        proof {
            self.lemma_count_bounds();
        }
        if self.is_full() {
            return Err(());
        }
        let ghost old_view = self@;
        let ghost len = self.buffer@.len() as int;
        let ghost g = self.get_idx as int;
        let ghost c = self.count();
        let put = self.put_idx;
        self.buffer.set(put, value);
        let len_exec = self.buffer.len();
        self.put_idx = (put + 1) % len_exec;
        self.last_op = true;
        proof {
            lemma_mod_once(put + 1, len);
            assert(c < len);
            // the new count is one more than the old one
            if c + 1 == len {
                assert(self.put_idx == self.get_idx) by {
                    lemma_mod_once(g + c, len);
                }
            } else {
                lemma_mod_once(g + c, len);
                lemma_mod_once(g + c + 1, len);
            }
            assert(self.count() == c + 1);
            assert forall|i: int| 0 <= i < c + 1 implies #[trigger] self@[i] == old_view.push(value)[i] by {
                lemma_mod_once(g + i, len);
                lemma_mod_once(g + c, len);
            }
            assert(self@ =~= old_view.push(value));
        }
        Ok(())
    }

    /// Removes and returns the oldest value; `Err` when the queue is empty.
    pub fn dequeue(&mut self) -> (r: Result<N, ()>)
        requires
            old(self).wf(),
        ensures
            final(self).wf(),
            final(self).capacity() == old(self).capacity(),
            r is Err <==> old(self)@.len() == 0,
            r is Err ==> final(self)@ == old(self)@,
            r matches Ok(v) ==> v == old(self)@[0] && final(self)@ == old(self)@.drop_first(),
            final(self)@.len() <= final(self).capacity(),
            r is Ok ==> final(self)@.len() < final(self).capacity(),
    {
        proof {
            self.lemma_count_bounds();
        }
        if self.is_empty() {
            return Err(());
        }
        let ghost old_view = self@;
        let ghost len = self.buffer@.len() as int;
        let ghost g = self.get_idx as int;
        let ghost c = self.count();
        let get = self.get_idx;
        let value = self.buffer[get];
        let len_exec = self.buffer.len();
        self.get_idx = (get + 1) % len_exec;
        self.last_op = false;
        proof {
            lemma_mod_once(g, len);
            lemma_mod_once(g + 1, len);
            lemma_mod_once(g + c, len);
            assert(self.count() == c - 1);
            assert(value == old_view[0]);
            assert forall|i: int| 0 <= i < c - 1 implies #[trigger] self@[i] == old_view.drop_first()[i] by {
                lemma_mod_once(g + 1 + i, len);
                lemma_mod_once(self.get_idx + i, len);
            }
            assert(self@ =~= old_view.drop_first());
        }
        Ok(value)
    }
}

/// A first-in first-out queue of handles, kept in a linked list.
pub struct RefQueue<T> {
    pub list: List<T>,
}

impl<T: Copy> RefQueue<T> {
    pub open spec fn wf(&self) -> bool {
        self.list.wf()
    }

    /// The handles, oldest first.
    pub open spec fn view(&self) -> Seq<T> {
        self.list@
    }

    pub fn new() -> (r: Self)
        ensures
            r.wf(),
            r@ == Seq::<T>::empty(),
            r.list.arena_len() == 0,
            r.list.free_count() == 0,
    {
        Self { list: List::new() }
    }

    pub fn is_empty(&self) -> (r: bool)
        requires
            self.wf(),
        ensures
            r == (self@.len() == 0),
    {
        self.list.is_empty()
    }

    pub fn length(&self) -> (r: usize)
        requires
            self.wf(),
        ensures
            r == self@.len(),
    {
        self.list.length()
    }

    /// Puts `data` at the back.
    pub fn push(&mut self, data: T)
        requires
            old(self).wf(),
            old(self).list.free_count() > 0 || old(self).list.arena_len() < usize::MAX,
        ensures
            final(self).wf(),
            final(self)@ == old(self)@.push(data),
            old(self).list.free_count() > 0 ==> final(self).list.arena_len() == old(self).list.arena_len()
                && final(self).list.free_count() == old(self).list.free_count() - 1,
            old(self).list.free_count() == 0 ==> final(self).list.arena_len() == old(self).list.arena_len() + 1
                && final(self).list.free_count() == 0,
    {
        self.list.push(data);
    }

    /// Takes the handle at the front.
    pub fn pop(&mut self) -> (r: Option<T>)
        requires
            old(self).wf(),
        ensures
            final(self).wf(),
            final(self).list.arena_len() == old(self).list.arena_len(),
            old(self)@.len() == 0 ==> r is None && final(self)@ == old(self)@
                && final(self).list.free_count() == old(self).list.free_count(),
            old(self)@.len() > 0 ==> r == Some(old(self)@[0]) && final(self)@ == old(self)@.drop_first()
                && final(self).list.free_count() == old(self).list.free_count() + 1,
    {
        self.list.pop()
    }

    /// Cursors over the queue, from the front.
    pub fn iter(&self) -> (r: CurserIter)
        requires
            self.wf(),
        ensures
            self.list.valid_cursor(r.curser),
            self@.len() == 0 ==> r.curser.node is None,
            self@.len() > 0 ==> self.list.position(r.curser) == Some(0int),
    {
        self.list.iter()
    }
}

/// A first-in first-out queue on a `RawList`.
pub struct RawQueue<T>(pub RawList<T>);

impl<T: Copy> RawQueue<T> {
    /// The values, newest first.
    pub open spec fn view(&self) -> Seq<T> {
        self.0@
    }

    pub fn new() -> (r: Self)
        ensures
            r@ == Seq::<T>::empty(),
    {
        Self(RawList::empty())
    }

    pub fn push(&mut self, data: T)
        ensures
            final(self)@ == seq![data] + old(self)@,
    {
        self.0.push(data);
    }

    /// The oldest value.
    pub fn pop(&mut self) -> (r: Option<T>)
        ensures
            old(self)@.len() == 0 ==> r is None && final(self)@ == old(self)@,
            old(self)@.len() > 0 ==> r == Some(old(self)@.last()) && final(self)@ == old(self)@.drop_last(),
    {
        self.0.pop()
    }

    pub fn length(&self) -> (r: usize)
        ensures
            r == self@.len(),
    {
        self.0.len()
    }
}

} // verus!
