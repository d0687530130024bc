//! A write-back cache of tagged buffers with least-recently-used eviction.
use vstd::prelude::*;
use crate::collections::queue::RefQueue;
use crate::util::{copy_vec, filled_vec};

verus! {

/// The state of an evicted entry: dirty with its tag and data, or clean.
pub enum CacheState<T> {
    Dirty(u64, Vec<T>),
    Clean,
}

/// One cached buffer, named by its tag.
pub struct CacheEntry<T> {
    pub tag: u64,
    pub dirty: bool,
    pub data: Vec<T>,
}

impl<T: Copy> CacheEntry<T> {
    /// A clean entry with tag 0 and `size` copies of `fill`.
    pub fn new(size: usize, fill: T) -> (r: Self)
        ensures
            r.tag == 0,
            !r.dirty,
            r.data@ == Seq::new(size as nat, |i: int| fill),
    {
        Self { tag: 0, dirty: false, data: filled_vec(fill, size) }
    }

    pub fn tag(&self) -> (r: u64)
        ensures
            r == self.tag,
    {
        self.tag
    }

    pub fn set_tag(&mut self, tag: u64)
        ensures
            final(self).tag == tag,
            final(self).dirty == old(self).dirty,
            final(self).data@ == old(self).data@,
    {
        self.tag = tag;
    }
}

/// What a cache entry holds, as plain values.
pub struct EntryView<T> {
    pub tag: u64,
    pub dirty: bool,
    pub data: Seq<T>,
}

/// The first position in `entries` whose tag is `tag`.
#[verifier::opaque]
pub open spec fn first_match<T>(entries: Seq<EntryView<T>>, tag: u64) -> Option<int> {
    if exists|k: int| 0 <= k < entries.len() && entries[k].tag == tag {
        Some(choose|k: int| 0 <= k < entries.len() && entries[k].tag == tag
            && forall|j: int| 0 <= j < k ==> entries[j].tag != tag)
    } else {
        None
    }
}

/// What `first_match` says of each position.
pub proof fn lemma_first_match<T>(entries: Seq<EntryView<T>>, tag: u64)
    ensures
        first_match(entries, tag) matches Some(k) ==> 0 <= k < entries.len() && entries[k].tag == tag
            && forall|j: int| 0 <= j < k ==> entries[j].tag != tag,
        first_match(entries, tag) is None ==> forall|j: int| 0 <= j < entries.len() ==> entries[j].tag != tag,
{
    reveal(first_match);
    if exists|k: int| 0 <= k < entries.len() && entries[k].tag == tag {
        let w = choose|k: int| 0 <= k < entries.len() && entries[k].tag == tag;
        lemma_least_match(entries, tag, w);
    }
}

/// Moving an entry to the back, possibly replaced, keeps the length of
/// every entry's data when the replacement has that length too.
pub proof fn lemma_touch_keeps_len<T>(entries: Seq<EntryView<T>>, k: int, e: EntryView<T>, n: nat)
    requires
        0 <= k < entries.len(),
        e.data.len() == n,
        forall|i: int| 0 <= i < entries.len() ==> (#[trigger] entries[i]).data.len() == n,
    ensures
        touch(entries, k, e).len() == entries.len(),
        forall|i: int| 0 <= i < entries.len() ==> (#[trigger] touch(entries, k, e)[i]).data.len() == n,
{
    let t = touch(entries, k, e);
    assert forall|i: int| 0 <= i < entries.len() implies (#[trigger] touch(entries, k, e)[i]).data.len() == n by {
        if i < k {
            assert(t[i] == entries[i]);
        } else if i < entries.len() - 1 {
            assert(t[i] == entries[i + 1]);
        }
    }
}

proof fn lemma_least_match<T>(entries: Seq<EntryView<T>>, tag: u64, w: int)
    requires
        0 <= w < entries.len(),
        entries[w].tag == tag,
    ensures
        exists|k: int| 0 <= k < entries.len() && entries[k].tag == tag
            && forall|j: int| 0 <= j < k ==> entries[j].tag != tag,
    decreases w,
{
    if exists|j: int| 0 <= j < w && entries[j].tag == tag {
        let j = choose|j: int| 0 <= j < w && entries[j].tag == tag;
        lemma_least_match(entries, tag, j);
    } else {
        assert(0 <= w < entries.len() && entries[w].tag == tag
            && forall|j: int| 0 <= j < w ==> entries[j].tag != tag);
    }
}

/// Moves the entry at `k` to the back, giving it new contents.
pub open spec fn touch<T>(entries: Seq<EntryView<T>>, k: int, e: EntryView<T>) -> Seq<EntryView<T>> {
    entries.remove(k).push(e)
}

/// A pool of entries with a queue that orders them from least to most
/// recently used.
pub struct Cache<T> {
    pool: Vec<CacheEntry<T>>,
    queue: RefQueue<usize>,
}

impl<T: Copy> Cache<T> {
    pub closed spec fn wf(&self) -> bool {
        let q = self.queue@;
        &&& self.queue.wf()
        &&& q.len() == self.pool@.len()
        &&& self.pool@.len() <= usize::MAX
        &&& q.no_duplicates()
        &&& forall|i: int| 0 <= i < q.len() ==> #[trigger] q[i] < self.pool@.len()
        &&& self.queue.list.free_count() == 0
        &&& self.queue.list.arena_len() == self.pool@.len()
    }

    pub closed spec fn entry(&self, i: int) -> EntryView<T> {
        EntryView { tag: self.pool@[i].tag, dirty: self.pool@[i].dirty, data: self.pool@[i].data@ }
    }

    /// The entries, least recently used first.
    pub closed spec fn view(&self) -> Seq<EntryView<T>> {
        Seq::new(self.queue@.len(), |k: int| self.entry(self.queue@[k] as int))
    }

    /// The entries in the order of the pool, the order `flush` writes in.
    pub closed spec fn pool_view(&self) -> Seq<EntryView<T>> {
        Seq::new(self.pool@.len(), |i: int| self.entry(i))
    }

    /// For each entry of the view, least recently used first, its place in
    /// the pool.
    pub closed spec fn order(&self) -> Seq<usize> {
        self.queue@
    }

    /// The view lists the entries of the pool, each once, in recency order.
    pub proof fn lemma_view_is_pool(&self)
        requires
            self.wf(),
        ensures
            self.order().len() == self@.len(),
            self.pool_view().len() == self@.len(),
            self.order().no_duplicates(),
            forall|k: int| 0 <= k < self@.len() ==> #[trigger] self.order()[k] < self@.len()
                && self@[k] == self.pool_view()[self.order()[k] as int],
    {
    }

    /// A cache of `length` clean entries, each of `size` copies of `fill`,
    /// all tagged 0.
    pub fn new(size: usize, length: usize, fill: T) -> (r: Self)
        ensures
            r.wf(),
            r@.len() == length,
            forall|k: int| 0 <= k < length ==> #[trigger] r@[k] == (EntryView {
                tag: 0,
                dirty: false,
                data: Seq::new(size as nat, |i: int| fill),
            }),
            r.pool_view() == r@,
            dirty_entries(r.pool_view()) == Seq::<EntryView<T>>::empty(),
    {
        let mut pool: Vec<CacheEntry<T>> = Vec::new();
        while pool.len() < length
            invariant
                pool@.len() <= length,
                forall|i: int| 0 <= i < pool@.len() ==> (#[trigger] pool@[i]).tag == 0 && !pool@[i].dirty
                    && pool@[i].data@ == Seq::new(size as nat, |j: int| fill),
            decreases length - pool@.len(),
        {
            pool.push(CacheEntry::new(size, fill));
        }
        let mut me = Self { pool, queue: RefQueue::new() };
        me.init();
        proof {
            assert forall|k: int| 0 <= k < length implies #[trigger] me@[k] == (EntryView {
                tag: 0,
                dirty: false,
                data: Seq::new(size as nat, |i: int| fill),
            }) by {
                assert(me.queue@[k] < me.pool@.len());
            }
            assert(me.pool_view() =~= me@);
            lemma_clean_not_dirty(me.pool_view());
        }
        me
    }

    fn init(&mut self)
        requires
            old(self).queue.wf(),
            old(self).queue@.len() == 0,
            old(self).queue.list.arena_len() == 0,
            old(self).queue.list.free_count() == 0,
        ensures
            final(self).wf(),
            final(self).pool@ == old(self).pool@,
            forall|k: int| 0 <= k < final(self).pool@.len() ==> #[trigger] final(self).queue@[k] == k,
    {
        let n = self.pool.len();
        let mut i: usize = 0;
        while i < n
            invariant
                i <= n,
                n == self.pool@.len(),
                n <= usize::MAX,
                self.pool@ == old(self).pool@,
                self.queue.wf(),
                self.queue@.len() == i,
                self.queue.list.arena_len() == i,
                self.queue.list.free_count() == 0,
                forall|k: int| 0 <= k < i ==> #[trigger] self.queue@[k] == k,
            decreases n - i,
        {
            self.queue.push(i);
            i = i + 1;
        }
        proof {
            let q = self.queue@;
            assert(q.no_duplicates()) by {
                assert forall|a: int, b: int| 0 <= a < b < q.len() implies q[a] != q[b] by {
                    assert(q[a] == a);
                    assert(q[b] == b);
                }
            }
        }
    }

    /// Finds the queue position of the least recently used entry tagged
    /// `tag`, walking the queue with its cursor.
    fn find(&self, tag: u64) -> (r: Option<usize>)
        requires
            self.wf(),
        ensures
            r == (match first_match(self@, tag) { Some(k) => Some(k as usize), None => None::<usize> }),
            r matches Some(k) ==> k < self@.len(),
    {
        proof {
            lemma_first_match(self@, tag);
        }
        let mut iter = self.queue.iter();
        let ghost n = self.queue@.len();
        let mut k: usize = 0;
        while k < self.queue.length()
            invariant
                self.wf(),
                n == self.queue@.len(),
                k <= n,
                self.queue.list.valid_cursor(iter.curser),
                k < n ==> self.queue.list.position(iter.curser) == Some(k as int),
                forall|j: int| 0 <= j < k ==> self@[j].tag != tag,
            decreases n - k,
        {
            let curser = iter.next(&self.queue.list);
            let idx = curser.data(&self.queue.list).unwrap();
            if self.pool[idx].tag == tag {
                proof {
                    let v = self@;
                    lemma_first_match(v, tag);
                    assert(v[k as int].tag == tag);
                    let c = first_match(v, tag)->0;
                    if first_match(v, tag) is Some {
                        if c < k {
                            assert(v[c].tag != tag);
                        } else if c > k {
                            assert(v[k as int].tag != tag);
                        }
                    }
                }
                return Some(k);
            }
            k = k + 1;
        }
        proof {
            let v = self@;
            lemma_first_match(v, tag);
            if first_match(v, tag) is Some {
                let c = first_match(v, tag)->0;
                assert(v[c].tag != tag);
            }
        }
        None
    }

    /// Moves the queue entry at position `k` to the back.
    fn move_to_back(&mut self, k: usize)
        requires
            old(self).wf(),
            k < old(self).queue@.len(),
        ensures
            final(self).wf(),
            final(self).pool@ == old(self).pool@,
            final(self).queue@ == old(self).queue@.remove(k as int).push(old(self).queue@[k as int]),
    {
        let mut curser = self.queue.list.front();
        let mut j: usize = 0;
        while j < k
            invariant
                self.wf(),
                k < self.queue@.len(),
                j <= k,
                self.queue.list.valid_cursor(curser),
                self.queue.list.position(curser) == Some(j as int),
                self.queue@ == old(self).queue@,
                self.pool@ == old(self).pool@,
            decreases k - j,
        {
            curser.move_next(&self.queue.list);
            j = j + 1;
        }
        let idx = curser.remove(&mut self.queue.list).unwrap();
        self.queue.push(idx);
        proof {
            let q0 = old(self).queue@;
            let q = self.queue@;
            assert(q =~= q0.remove(k as int).push(q0[k as int]));
            assert(q.no_duplicates()) by {
                assert forall|a: int, b: int| 0 <= a < b < q.len() implies q[a] != q[b] by {
                    let aa = if a < k { a } else { a + 1 };
                    let bb = if b == q.len() - 1 { k as int } else if b < k { b } else { b + 1 };
                    assert(q[a] == q0[aa]);
                    assert(q[b] == q0[bb]);
                }
            }
            assert forall|i: int| 0 <= i < q.len() implies #[trigger] q[i] < self.pool@.len() by {
                if i == q.len() - 1 {
                    assert(q[i] == q0[k as int]);
                } else if i < k {
                    assert(q[i] == q0[i]);
                } else {
                    assert(q[i] == q0[i + 1]);
                }
            }
        }
    }

    proof fn lemma_view_after_touch(old_c: &Self, new_c: &Self, k: int, e: EntryView<T>)
        requires
            old_c.wf(),
            new_c.wf(),
            0 <= k < old_c.queue@.len(),
            new_c.queue@ == old_c.queue@.remove(k).push(old_c.queue@[k]),
            new_c.pool@.len() == old_c.pool@.len(),
            new_c.entry(old_c.queue@[k] as int) == e,
            forall|i: int| 0 <= i < old_c.pool@.len() && i != old_c.queue@[k] ==> new_c.pool@[i] == old_c.pool@[i],
        ensures
            new_c@ == touch(old_c@, k, e),
    {
        let q = old_c.queue@;
        assert forall|j: int| 0 <= j < new_c@.len() implies #[trigger] new_c@[j] == touch(old_c@, k, e)[j] by {
            if j == new_c@.len() - 1 {
            } else if j < k {
                assert(q[j] != q[k]);
                assert(new_c.pool@[q[j] as int] == old_c.pool@[q[j] as int]);
            } else {
                assert(q[j + 1] != q[k]);
                assert(new_c.pool@[q[j + 1] as int] == old_c.pool@[q[j + 1] as int]);
            }
        }
        assert(new_c@ =~= touch(old_c@, k, e));
    }

    /// The data of the least recently used entry tagged `tag`, which becomes
    /// the most recently used one; `Err` when no entry has the tag.
    pub fn read_from_cache(&mut self, tag: u64) -> (r: Result<Vec<T>, ()>)
        requires
            old(self).wf(),
        ensures
            final(self).wf(),
            first_match(old(self)@, tag) is None ==> r is Err && final(self)@ == old(self)@,
            first_match(old(self)@, tag) matches Some(k) ==> {
                &&& r matches Ok(d) && d@ == old(self)@[k].data
                &&& final(self)@ == touch(old(self)@, k, old(self)@[k])
            },
    {
        proof {
            lemma_first_match(self@, tag);
        }
        match self.find(tag) {
            None => Err(()),
            Some(k) => {
                let ghost old_self = *self;
                proof {
                    let c = first_match(old_self@, tag)->0;
                    assert(first_match(old_self@, tag) is Some);
                    assert(c as usize == k);
                    assert(c == k as int);
                }
                let idx = self.queue_at(k);
                self.move_to_back(k);
                proof {
                    Self::lemma_view_after_touch(&old_self, self, k as int, old_self@[k as int]);
                }
                Ok(copy_vec(&self.pool[idx].data))
            },
        }
    }

    /// The pool index at queue position `k`.
    fn queue_at(&self, k: usize) -> (r: usize)
        requires
            self.wf(),
            k < self.queue@.len(),
        ensures
            r == self.queue@[k as int],
            r < self.pool@.len(),
    {
        let mut curser = self.queue.list.front();
        let mut j: usize = 0;
        while j < k
            invariant
                self.wf(),
                k < self.queue@.len(),
                j <= k,
                self.queue.list.valid_cursor(curser),
                self.queue.list.position(curser) == Some(j as int),
            decreases k - j,
        {
            curser.move_next(&self.queue.list);
            j = j + 1;
        }
        curser.data(&self.queue.list).unwrap()
    }

    /// Stores `value` in the least recently used entry tagged `tag`, marks it
    /// dirty and makes it the most recently used one; `Err` when no entry has
    /// the tag.
    pub fn write_to_cache(&mut self, tag: u64, value: &Vec<T>) -> (r: Result<(), ()>)
        requires
            old(self).wf(),
        ensures
            final(self).wf(),
            first_match(old(self)@, tag) is None ==> r is Err && final(self)@ == old(self)@,
            first_match(old(self)@, tag) matches Some(k) ==> r is Ok
                && final(self)@ == touch(old(self)@, k, EntryView { tag, dirty: true, data: value@ })
                && final(self).pool_view() == old(self).pool_view().update(old(self).order()[k] as int,
                    EntryView { tag, dirty: true, data: value@ }),
    {
        proof {
            lemma_first_match(self@, tag);
        }
        match self.find(tag) {
            None => Err(()),
            Some(k) => {
                let ghost old_self = *self;
                proof {
                    let c = first_match(old_self@, tag)->0;
                    assert(first_match(old_self@, tag) is Some);
                    assert(c as usize == k);
                    assert(c == k as int);
                }
                let idx = self.queue_at(k);
                self.set_entry(idx, tag, true, value);
                let ghost mid = *self;
                self.move_to_back(k);
                proof {
                    Self::lemma_view_after_touch(&old_self, self, k as int, EntryView { tag, dirty: true, data: value@ });
                    assert(self.pool_view() =~= old_self.pool_view().update(old_self.order()[k as int] as int,
                        EntryView { tag, dirty: true, data: value@ }));
                }
                Ok(())
            },
        }
    }

    fn set_entry(&mut self, idx: usize, tag: u64, dirty: bool, value: &Vec<T>)
        requires
            old(self).wf(),
            idx < old(self).pool@.len(),
        ensures
            final(self).wf(),
            final(self).queue == old(self).queue,
            final(self).pool@.len() == old(self).pool@.len(),
            final(self).entry(idx as int) == (EntryView { tag, dirty, data: value@ }),
            forall|i: int| 0 <= i < old(self).pool@.len() && i != idx ==> final(self).pool@[i] == old(self).pool@[i],
    {
        let entry = CacheEntry { tag, dirty, data: copy_vec(value) };
        self.pool.set(idx, entry);
    }

    /// Reuses the least recently used entry for `tag` and `value`, making it
    /// the most recently used one. When the reused entry was dirty, its tag
    /// and data come back so that the caller can write them out; `Err` when
    /// the cache has no entries.
    pub fn allocate_cache(&mut self, tag: u64, value: &Vec<T>) -> (r: Result<Option<(u64, Vec<T>)>, ()>)
        requires
            old(self).wf(),
        ensures
            final(self).wf(),
            old(self)@.len() == 0 ==> r is Err && final(self)@ == old(self)@,
            old(self)@.len() > 0 ==> {
                &&& final(self)@ == touch(old(self)@, 0, EntryView { tag, dirty: false, data: value@ })
                &&& r matches Ok(evicted)
                &&& (old(self)@[0].dirty ==> (evicted matches Some((t, d)) && t == old(self)@[0].tag && d@ == old(self)@[0].data))
                &&& (!old(self)@[0].dirty ==> evicted is None)
            },
    {
        if self.queue.is_empty() {
            return Err(());
        }
        let ghost old_self = *self;
        let idx = self.queue_at(0);
        let evicted = if self.pool[idx].dirty {
            Some((self.pool[idx].tag, copy_vec(&self.pool[idx].data)))
        } else {
            None
        };
        self.set_entry(idx, tag, false, value);
        self.move_to_back(0);
        proof {
            Self::lemma_view_after_touch(&old_self, self, 0, EntryView { tag, dirty: false, data: value@ });
        }
        Ok(evicted)
    }

    /// Marks every entry clean and returns, in pool order, the tag and data
    /// of each entry that was dirty, for the caller to write out.
    pub fn flush(&mut self) -> (r: Vec<(u64, Vec<T>)>)
        requires
            old(self).wf(),
        ensures
            final(self).wf(),
            final(self)@.len() == old(self)@.len(),
            forall|k: int| 0 <= k < old(self)@.len() ==> #[trigger] final(self)@[k] == (EntryView {
                dirty: false, ..old(self)@[k] }),
            r@.len() == dirty_entries(old(self).pool_view()).len(),
            forall|i: int| 0 <= i < r@.len() ==> r@[i].0 == dirty_entries(old(self).pool_view())[i].tag
                && r@[i].1@ == dirty_entries(old(self).pool_view())[i].data,
            final(self).order() == old(self).order(),
            final(self).pool_view().len() == old(self).pool_view().len(),
            forall|i: int| 0 <= i < old(self).pool_view().len() ==> #[trigger] final(self).pool_view()[i]
                == (EntryView { dirty: false, ..old(self).pool_view()[i] }),
            dirty_entries(final(self).pool_view()) == Seq::<EntryView<T>>::empty(),
    {
        let ghost old_pool = self.pool_view();
        let mut out: Vec<(u64, Vec<T>)> = Vec::new();
        let n = self.pool.len();
        let mut i: usize = 0;
        while i < n
            invariant
                self.wf(),
                i <= n,
                n == self.pool@.len(),
                self.queue == old(self).queue,
                forall|j: int| 0 <= j < n ==> #[trigger] self.entry(j) == (if j < i {
                    EntryView { dirty: false, ..old_pool[j] } } else { old_pool[j] }),
                old_pool.len() == n,
                out@.len() == dirty_entries(old_pool.subrange(0, i as int)).len(),
                forall|j: int| 0 <= j < out@.len() ==> out@[j].0 == dirty_entries(old_pool.subrange(0, i as int))[j].tag
                    && out@[j].1@ == dirty_entries(old_pool.subrange(0, i as int))[j].data,
            decreases n - i,
        {
            let ghost before = self.entry(i as int);
            proof {
                assert(old_pool.subrange(0, i + 1) =~= old_pool.subrange(0, i as int).push(old_pool[i as int]));
            }
            if self.pool[i].dirty {
                out.push((self.pool[i].tag, copy_vec(&self.pool[i].data)));
            }
            let tag = self.pool[i].tag;
            let data = copy_vec(&self.pool[i].data);
            let ghost pre = *self;
            self.set_entry(i, tag, false, &data);
            proof {
                let s1 = old_pool.subrange(0, i as int);
                let s2 = old_pool.subrange(0, i + 1);
                assert(s2.len() == i + 1);
                assert(s2.drop_last() =~= s1);
                assert(self.entry(i as int) == (EntryView { dirty: false, ..old_pool[i as int] }));
                assert forall|j: int| 0 <= j < n implies #[trigger] self.entry(j) == (if j < i + 1 {
                    EntryView { dirty: false, ..old_pool[j] } } else { old_pool[j] }) by {
                    if j != i {
                        assert(self.pool@[j] == pre.pool@[j]);
                        assert(pre.entry(j) == (if j < i {
                            EntryView { dirty: false, ..old_pool[j] } } else { old_pool[j] }));
                    }
                }
                assert(s2.last() == old_pool[i as int]);
                assert(before == old_pool[i as int]);
            }
            i = i + 1;
        }
        proof {
            assert(old_pool.subrange(0, n as int) =~= old_pool);
            assert forall|k: int| 0 <= k < old(self)@.len() implies #[trigger] self@[k] == (EntryView {
                dirty: false, ..old(self)@[k] }) by {
                assert(self.queue@[k] < n);
            }
            assert forall|j: int| 0 <= j < old_pool.len() implies #[trigger] self.pool_view()[j]
                == (EntryView { dirty: false, ..old_pool[j] }) by {
                assert(self.entry(j) == (EntryView { dirty: false, ..old_pool[j] }));
            }
            lemma_clean_not_dirty(self.pool_view());
        }
        out
    }
}

/// A cache whose entries are all clean has nothing to write out.
pub proof fn lemma_clean_not_dirty<T>(entries: Seq<EntryView<T>>)
    requires
        forall|i: int| 0 <= i < entries.len() ==> !(#[trigger] entries[i]).dirty,
    ensures
        dirty_entries(entries) == Seq::<EntryView<T>>::empty(),
    decreases entries.len(),
{
    if entries.len() > 0 {
        let rest = entries.drop_last();
        assert forall|i: int| 0 <= i < rest.len() implies !(#[trigger] rest[i]).dirty by {
            assert(rest[i] == entries[i]);
        }
        lemma_clean_not_dirty(rest);
        assert(!entries[entries.len() - 1].dirty);
    }
}

/// The dirty entries of `entries`, in order.
pub open spec fn dirty_entries<T>(entries: Seq<EntryView<T>>) -> Seq<EntryView<T>>
    decreases entries.len(),
{
    if entries.len() == 0 {
        Seq::empty()
    } else {
        let rest = dirty_entries(entries.drop_last());
        if entries.last().dirty { rest.push(entries.last()) } else { rest }
    }
}

/// Law: after a write of `value` under a tag that names one entry only, a
/// read of that tag gives `value` back.
pub proof fn law_cache_read_after_write<T>(entries: Seq<EntryView<T>>, tag: u64, value: Seq<T>)
    requires
        first_match(entries, tag) is Some,
        forall|a: int, b: int| 0 <= a < b < entries.len() && entries[a].tag == tag ==> entries[b].tag != tag,
    ensures ({
        let k = first_match(entries, tag)->0;
        let after = touch(entries, k, EntryView { tag, dirty: true, data: value });
        first_match(after, tag) matches Some(k2) && after[k2].data == value
    }),
{
    lemma_first_match(entries, tag);
    let k = first_match(entries, tag)->0;
    let after = touch(entries, k, EntryView { tag, dirty: true, data: value });
    let last = after.len() - 1;
    lemma_first_match(after, tag);
    assert(after[last].tag == tag);
    assert(forall|j: int| 0 <= j < last ==> after[j].tag != tag) by {
        assert forall|j: int| 0 <= j < last implies after[j].tag != tag by {
            if j < k {
                assert(entries[j].tag != tag);
            } else {
                assert(after[j] == entries[j + 1]);
                assert(entries[k].tag == tag);
            }
        }
    }
    let c = first_match(after, tag)->0;
    if c < last {
        assert(after[c].tag != tag);
    }
}

} // verus!
