//! A doubly-linked list whose nodes live in slots of an arena, with a cursor
//! that walks and edits it, and a plain list that pushes at one end and pops
//! at the other.
use vstd::prelude::*;

verus! {

/// A list node: the value and the slots of its neighbours.
#[derive(Clone, Copy)]
pub struct Node<T> {
    pub data: T,
    pub next: Option<usize>,
    pub prev: Option<usize>,
}

impl<T> Node<T> {
    /// A node with no neighbours.
    pub fn new(data: T) -> (r: Self)
        ensures
            r.data == data,
            r.next is None,
            r.prev is None,
    {
        Self { data, next: None, prev: None }
    }
}

/// A doubly-linked list. A node that leaves the list frees its slot.
pub struct List<T> {
    nodes: Vec<Option<Node<T>>>,
    head: Option<usize>,
    tail: Option<usize>,
    length: usize,
    free: Vec<usize>,
    order: Ghost<Seq<usize>>,
}

/// A position in a list: a node, or past either end.
#[derive(Clone, Copy)]
pub struct Curser {
    pub node: Option<usize>,
}

impl<T: Copy> List<T> {
    /// The slots of the nodes, from head to tail.
    pub closed spec fn slots(&self) -> Seq<usize> {
        self.order@
    }

    /// Number of slots the arena has handed out.
    pub closed spec fn arena_len(&self) -> nat {
        self.nodes@.len()
    }

    /// Number of freed slots waiting to be used again.
    pub closed spec fn free_count(&self) -> nat {
        self.free@.len()
    }

    pub closed spec fn wf(&self) -> bool {
        let o = self.order@;
        &&& self.length == o.len()
        &&& o.no_duplicates()
        &&& self.free@.no_duplicates()
        &&& forall|i: int| 0 <= i < self.free@.len() ==> {
            &&& #[trigger] self.free@[i] < self.nodes@.len()
            &&& self.nodes@[self.free@[i] as int] is None
        }
        &&& (o.len() == 0 ==> self.head is None && self.tail is None)
        &&& (o.len() > 0 ==> self.head == Some(o[0]) && self.tail == Some(o.last()))
        &&& forall|i: int| 0 <= i < o.len() ==> {
            &&& #[trigger] o[i] < self.nodes@.len()
            &&& self.nodes@[o[i] as int] is Some
            &&& self.nodes@[o[i] as int].unwrap().next == (if i + 1 < o.len() { Some(o[i + 1]) } else { None::<usize> })
            &&& self.nodes@[o[i] as int].unwrap().prev == (if i > 0 { Some(o[i - 1]) } else { None::<usize> })
        }
    }

    /// The values, from head to tail.
    pub closed spec fn view(&self) -> Seq<T> {
        Seq::new(self.order@.len(), |i: int| self.nodes@[self.order@[i] as int].unwrap().data)
    }

    /// The index in the list of the node a cursor is on.
    pub open spec fn position(&self, c: Curser) -> Option<int> {
        match c.node {
            None => None,
            Some(slot) => if self.slots().contains(slot) {
                Some(self.slots().index_of(slot))
            } else {
                None
            },
        }
    }

    /// A cursor is on a node of the list, or past the end.
    pub open spec fn valid_cursor(&self, c: Curser) -> bool {
        c.node matches Some(slot) ==> self.slots().contains(slot)
    }

    /// The list has one slot per value, each slot once: a cursor's position
    /// is an index into the values.
    pub proof fn lemma_slots_match(&self)
        requires
            self.wf(),
        ensures
            self.slots().len() == self@.len(),
            self.slots().no_duplicates(),
            forall|c: Curser| #[trigger] self.position(c) is Some ==> 0 <= self.position(c)->0 < self@.len(),
    {
        assert forall|c: Curser| #[trigger] self.position(c) is Some implies 0 <= self.position(c)->0 < self@.len() by {
            if let Some(slot) = c.node {
                if self.slots().contains(slot) {
                    self.slots().index_of_first_ensures(slot);
                }
            }
        }
    }

    pub fn new() -> (r: Self)
        ensures
            r.wf(),
            r@ == Seq::<T>::empty(),
            r.arena_len() == 0,
            r.free_count() == 0,
    {
        let r = Self { nodes: Vec::new(), head: None, tail: None, length: 0, free: Vec::new(), order: Ghost(Seq::empty()) };
        proof {
            assert(r@ =~= Seq::<T>::empty());
        }
        r
    }

    pub fn is_empty(&self) -> (r: bool)
        requires
            self.wf(),
        ensures
            r == (self@.len() == 0),
    {
        self.head.is_none()
    }

    pub fn length(&self) -> (r: usize)
        requires
            self.wf(),
        ensures
            r == self@.len(),
    {
        self.length
    }

    /// A cursor on the first node.
    pub fn front(&self) -> (r: Curser)
        requires
            self.wf(),
        ensures
            self.valid_cursor(r),
            self@.len() == 0 ==> r.node is None,
            self@.len() > 0 ==> self.position(r) == Some(0int),
    {
        proof {
            if self.order@.len() > 0 {
                assert(self.order@.contains(self.order@[0]));
                assert(self.order@.index_of(self.order@[0]) == 0) by {
                    self.order@.index_of_first_ensures(self.order@[0]);
                }
            }
        }
        Curser { node: self.head }
    }

    /// A cursor on the last node.
    pub fn tail(&self) -> (r: Curser)
        requires
            self.wf(),
        ensures
            self.valid_cursor(r),
            self@.len() == 0 ==> r.node is None,
            self@.len() > 0 ==> self.position(r) == Some(self@.len() - 1),
    {
        proof {
            let o = self.order@;
            if o.len() > 0 {
                assert(o.contains(o[o.len() - 1]));
                lemma_index_of_distinct(o, o.len() - 1);
            }
        }
        Curser { node: self.tail }
    }

    /// Appends `data` at the tail.
    pub fn push(&mut self, data: T)
        requires
            old(self).wf(),
            old(self).free_count() > 0 || old(self).arena_len() < usize::MAX,
        ensures
            final(self).wf(),
            final(self)@ == old(self)@.push(data),
            old(self).free_count() > 0 ==> final(self).arena_len() == old(self).arena_len()
                && final(self).free_count() == old(self).free_count() - 1,
            old(self).free_count() == 0 ==> final(self).arena_len() == old(self).arena_len() + 1
                && final(self).free_count() == 0,
    {
        self.push_node(Node::new(data));
    }

    #[verifier::rlimit(40)]
    /// Takes a slot that holds no node and is not waiting in the free list:
    /// a freed one when there is one, else a new one at the end of the arena.
    fn alloc_slot(&mut self) -> (slot: usize)
        requires
            old(self).wf(),
            old(self).free_count() > 0 || old(self).arena_len() < usize::MAX,
        ensures
            final(self).wf(),
            final(self).order@ == old(self).order@,
            final(self).head == old(self).head,
            final(self).tail == old(self).tail,
            final(self).length == old(self).length,
            final(self).length < usize::MAX,
            final(self)@ == old(self)@,
            slot < final(self).nodes@.len(),
            final(self).nodes@[slot as int] is None,
            !final(self).order@.contains(slot),
            !final(self).free@.contains(slot),
            forall|s: int| 0 <= s < old(self).nodes@.len() && s != slot ==> final(self).nodes@[s] == old(self).nodes@[s],
            old(self).free_count() > 0 ==> final(self).arena_len() == old(self).arena_len()
                && final(self).free_count() == old(self).free_count() - 1,
            old(self).free_count() == 0 ==> final(self).arena_len() == old(self).arena_len() + 1
                && final(self).free_count() == 0,
    {
        let ghost o = self.order@;
        let _n = self.nodes.len();
        proof {
            lemma_distinct_bounded(o, self.nodes@.len());
        }
        if self.free.len() > 0 {
            let ghost f = self.free@;
            let slot = self.free.pop().unwrap();
            proof {
                assert(self.free@ =~= f.drop_last());
                assert(slot == f[f.len() - 1]);
                assert(!o.contains(slot)) by {
                    if o.contains(slot) {
                        let i = o.index_of(slot);
                        assert(self.nodes@[o[i] as int] is Some);
                    }
                }
                assert(!self.free@.contains(slot)) by {
                    if self.free@.contains(slot) {
                        let i = self.free@.index_of(slot);
                        assert(f[i] == f[f.len() - 1]);
                    }
                }
                lemma_fresh_slot_room(o, slot, self.nodes@.len());
                assert forall|i: int| 0 <= i < self.free@.len() implies {
                    &&& #[trigger] self.free@[i] < self.nodes@.len()
                    &&& self.nodes@[self.free@[i] as int] is None
                } by {
                    assert(self.free@[i] == f[i]);
                }
            }
            slot
        } else {
            let slot = self.nodes.len();
            proof {
                assert(!o.contains(slot)) by {
                    if o.contains(slot) {
                        let i = o.index_of(slot);
                        assert(o[i] < self.nodes@.len());
                    }
                }
                assert(!self.free@.contains(slot));
                if self.length == usize::MAX {
                    assert(self.nodes@.len() < usize::MAX);
                }
            }
            self.nodes.push(None);
            proof {
                assert forall|i: int| 0 <= i < self.free@.len() implies {
                    &&& #[trigger] self.free@[i] < self.nodes@.len()
                    &&& self.nodes@[self.free@[i] as int] is None
                } by {}
                assert(self@ =~= old(self)@);
            }
            slot
        }
    }

    #[verifier::rlimit(40)]
    fn push_node(&mut self, node: Node<T>)
        requires
            old(self).wf(),
            old(self).free_count() > 0 || old(self).arena_len() < usize::MAX,
        ensures
            final(self).wf(),
            final(self)@ == old(self)@.push(node.data),
            final(self).slots().len() == old(self).slots().len() + 1,
            forall|i: int| 0 <= i < old(self).slots().len() ==> final(self).slots()[i] == old(self).slots()[i],
            old(self).free_count() > 0 ==> final(self).arena_len() == old(self).arena_len()
                && final(self).free_count() == old(self).free_count() - 1,
            old(self).free_count() == 0 ==> final(self).arena_len() == old(self).arena_len() + 1
                && final(self).free_count() == 0,
    {
        let slot = self.alloc_slot();
        let ghost mid = *self;
        let ghost o = self.order@;
        let mut new_node = node;
        new_node.next = None;
        new_node.prev = self.tail;
        self.nodes.set(slot, Some(new_node));
        if let Some(prev) = self.tail {
            let mut p = self.nodes[prev].unwrap();
            p.next = Some(slot);
            self.nodes.set(prev, Some(p));
        }
        self.tail = Some(slot);
        if self.head.is_none() {
            self.head = Some(slot);
        }
        self.length = self.length + 1;
        self.order = Ghost(o.push(slot));
        proof {
            let n = self.order@;
            assert(n.no_duplicates()) by {
                assert forall|i: int, j: int| 0 <= i < j < n.len() implies n[i] != n[j] by {
                    if j == n.len() - 1 {
                        assert(o.contains(n[i]));
                    }
                }
            }
            assert forall|i: int| 0 <= i < n.len() implies {
                &&& #[trigger] n[i] < self.nodes@.len()
                &&& self.nodes@[n[i] as int] is Some
                &&& self.nodes@[n[i] as int].unwrap().next == (if i + 1 < n.len() { Some(n[i + 1]) } else { None::<usize> })
                &&& self.nodes@[n[i] as int].unwrap().prev == (if i > 0 { Some(n[i - 1]) } else { None::<usize> })
            } by {
                if i < o.len() {
                    assert(mid.nodes@[o[i] as int] is Some);
                    assert(o[i] != slot);
                }
            }
            assert forall|i: int| 0 <= i < self.free@.len() implies {
                &&& #[trigger] self.free@[i] < self.nodes@.len()
                &&& self.nodes@[self.free@[i] as int] is None
            } by {
                assert(mid.nodes@[mid.free@[i] as int] is None);
                assert(mid.free@[i] != slot);
                if o.len() > 0 {
                    assert(mid.nodes@[o[o.len() - 1] as int] is Some);
                }
            }
            assert(self@ =~= mid@.push(node.data));
        }
    }

    /// Links a node in front of the head of a list that is not empty.
    #[verifier::rlimit(40)]
    fn push_front_node(&mut self, node: Node<T>)
        requires
            old(self).wf(),
            old(self)@.len() > 0,
            old(self).free_count() > 0 || old(self).arena_len() < usize::MAX,
        ensures
            final(self).wf(),
            final(self)@ == seq![node.data] + old(self)@,
            final(self).slots().len() == old(self).slots().len() + 1,
            forall|i: int| 0 <= i < old(self).slots().len() ==> final(self).slots()[i + 1] == old(self).slots()[i],
            old(self).free_count() > 0 ==> final(self).arena_len() == old(self).arena_len()
                && final(self).free_count() == old(self).free_count() - 1,
            old(self).free_count() == 0 ==> final(self).arena_len() == old(self).arena_len() + 1
                && final(self).free_count() == 0,
    {
        let slot = self.alloc_slot();
        let ghost mid = *self;
        let ghost o = self.order@;
        let head = self.head.unwrap();
        let mut new_node = node;
        new_node.prev = None;
        new_node.next = Some(head);
        self.nodes.set(slot, Some(new_node));
        let mut h = self.nodes[head].unwrap();
        h.prev = Some(slot);
        self.nodes.set(head, Some(h));
        self.head = Some(slot);
        self.length = self.length + 1;
        self.order = Ghost(seq![slot] + o);
        proof {
            let n = self.order@;
            assert(head == o[0]);
            assert(n.no_duplicates()) by {
                assert forall|i: int, j: int| 0 <= i < j < n.len() implies n[i] != n[j] by {
                    if i == 0 {
                        assert(n[j] == o[j - 1]);
                        assert(o.contains(n[j]));
                    } else {
                        assert(n[i] == o[i - 1] && n[j] == o[j - 1]);
                    }
                }
            }
            assert forall|i: int| 0 <= i < n.len() implies {
                &&& #[trigger] n[i] < self.nodes@.len()
                &&& self.nodes@[n[i] as int] is Some
                &&& self.nodes@[n[i] as int].unwrap().next == (if i + 1 < n.len() { Some(n[i + 1]) } else { None::<usize> })
                &&& self.nodes@[n[i] as int].unwrap().prev == (if i > 0 { Some(n[i - 1]) } else { None::<usize> })
            } by {
                if i > 0 {
                    assert(n[i] == o[i - 1]);
                    assert(mid.nodes@[o[i - 1] as int] is Some);
                    assert(o[i - 1] != slot);
                    if i + 1 < n.len() {
                        assert(n[i + 1] == o[i]);
                    }
                    if i > 1 {
                        assert(n[i - 1] == o[i - 2]);
                    }
                } else {
                    assert(n[1] == o[0]);
                }
            }
            assert forall|i: int| 0 <= i < self.free@.len() implies {
                &&& #[trigger] self.free@[i] < self.nodes@.len()
                &&& self.nodes@[self.free@[i] as int] is None
            } by {
                assert(mid.nodes@[mid.free@[i] as int] is None);
                assert(mid.free@[i] != slot);
                assert(mid.free@[i] != head) by {
                    assert(mid.nodes@[o[0] as int] is Some);
                }
            }
            assert(self.tail == Some(n.last())) by {
                assert(n.last() == o.last());
            }
            assert(self@ =~= seq![node.data] + mid@);
        }
    }

    /// Removes the head node and returns its value.
    pub fn pop(&mut self) -> (r: Option<T>)
        requires
            old(self).wf(),
        ensures
            final(self).wf(),
            final(self).arena_len() == old(self).arena_len(),
            old(self)@.len() == 0 ==> r is None && final(self)@ == old(self)@
                && final(self).free_count() == old(self).free_count(),
            old(self)@.len() > 0 ==> r == Some(old(self)@[0]) && final(self)@ == old(self)@.drop_first()
                && final(self).free_count() == old(self).free_count() + 1,
    {
        let ghost old_self = *self;
        let ghost o = self.order@;
        if let Some(slot) = self.head {
            let node = self.nodes[slot].unwrap();
            let next_node = node.next;
            self.head = next_node;
            if let Some(next) = next_node {
                let mut n = self.nodes[next].unwrap();
                n.prev = None;
                self.nodes.set(next, Some(n));
            } else {
                self.tail = None;
            }
            self.length = self.length - 1;
            self.nodes.set(slot, None);
            proof {
                assert(!old_self.free@.contains(slot)) by {
                    if old_self.free@.contains(slot) {
                        let j = old_self.free@.index_of(slot);
                        assert(old_self.nodes@[old_self.free@[j] as int] is None);
                    }
                }
            }
            self.free.push(slot);
            self.order = Ghost(o.drop_first());
            proof {
                assert forall|i: int| 0 <= i < self.free@.len() implies {
                    &&& #[trigger] self.free@[i] < self.nodes@.len()
                    &&& self.nodes@[self.free@[i] as int] is None
                } by {
                    if i < old_self.free@.len() {
                        assert(self.free@[i] == old_self.free@[i]);
                    }
                }
                let n = self.order@;
                assert forall|i: int| 0 <= i < n.len() implies {
                    &&& #[trigger] n[i] < self.nodes@.len()
                    &&& self.nodes@[n[i] as int] is Some
                    &&& self.nodes@[n[i] as int].unwrap().next == (if i + 1 < n.len() { Some(n[i + 1]) } else { None::<usize> })
                    &&& self.nodes@[n[i] as int].unwrap().prev == (if i > 0 { Some(n[i - 1]) } else { None::<usize> })
                } by {
                    assert(n[i] == o[i + 1]);
                    assert(o[i + 1] != o[0]);
                    assert(old_self.nodes@[o[i + 1] as int] is Some);
                }
                if n.len() > 0 {
                    assert(n.last() == o.last());
                }
                assert(self@ =~= old_self@.drop_first());
            }
            return Some(node.data);
        }
        None
    }

    /// A forward iterator of cursors, from the head.
    pub fn iter(&self) -> (r: CurserIter)
        requires
            self.wf(),
        ensures
            self.valid_cursor(r.curser),
            self@.len() == 0 ==> r.curser.node is None,
            self@.len() > 0 ==> self.position(r.curser) == Some(0int),
    {
        CurserIter { curser: self.front() }
    }
}

/// In a sequence without duplicates, the index of the element at `i` is `i`.
pub proof fn lemma_index_of_distinct(s: Seq<usize>, i: int)
    requires
        s.no_duplicates(),
        0 <= i < s.len(),
    ensures
        s.contains(s[i]),
        s.index_of(s[i]) == i,
{
    assert(s.contains(s[i]));
    s.index_of_first_ensures(s[i]);
}

/// A slot below `bound` that is not among the distinct slots `o` leaves
/// room: `o` has fewer than `bound` elements.
pub proof fn lemma_fresh_slot_room(o: Seq<usize>, slot: usize, bound: nat)
    requires
        o.no_duplicates(),
        forall|i: int| 0 <= i < o.len() ==> #[trigger] o[i] < bound,
        !o.contains(slot),
        slot < bound,
    ensures
        o.len() < bound,
{
    let full = o.push(slot);
    assert(full.no_duplicates()) by {
        assert forall|a: int, b: int| 0 <= a < b < full.len() implies full[a] != full[b] by {
            if b == full.len() - 1 {
                assert(o.contains(full[a]));
            }
        }
    }
    assert forall|i: int| 0 <= i < full.len() implies #[trigger] full[i] < bound by {
        if i < o.len() {
            assert(full[i] == o[i]);
        }
    }
    lemma_distinct_bounded(full, bound);
}

/// Distinct values below `bound` number at most `bound`.
pub proof fn lemma_distinct_bounded(s: Seq<usize>, bound: nat)
    requires
        s.no_duplicates(),
        forall|i: int| 0 <= i < s.len() ==> #[trigger] s[i] < bound,
    ensures
        s.len() <= bound,
{
    let set = s.to_set();
    s.unique_seq_to_set();
    let full = Set::new(|x: usize| x < bound);
    assert(set.subset_of(full));
    lemma_small_set_len(bound);
    vstd::set_lib::lemma_len_subset(set, full);
}

proof fn lemma_small_set_len(bound: nat)
    ensures
        Set::new(|x: usize| x < bound).finite(),
        Set::new(|x: usize| x < bound).len() <= bound,
    decreases bound,
{
    if bound == 0 {
        assert(Set::new(|x: usize| x < bound) =~= Set::<usize>::empty());
    } else {
        lemma_small_set_len((bound - 1) as nat);
        let smaller = Set::new(|x: usize| x < (bound - 1) as nat);
        if bound - 1 <= usize::MAX {
            let top = (bound - 1) as usize;
            assert(Set::new(|x: usize| x < bound) =~= smaller.insert(top));
        } else {
            assert(Set::new(|x: usize| x < bound) =~= smaller);
        }
    }
}

impl Curser {
    /// Moves to the next node; past the end it stays past the end.
    pub fn move_next<T: Copy>(&mut self, list: &List<T>)
        requires
            list.wf(),
            list.valid_cursor(*old(self)),
        ensures
            list.valid_cursor(*final(self)),
            old(self).node is None ==> final(self).node is None,
            list.position(*old(self)) matches Some(k) ==> (
                if k + 1 < list@.len() {
                    list.position(*final(self)) == Some(k + 1)
                } else {
                    final(self).node is None
                }),
    {
        if let Some(current) = self.node {
            proof {
                let o = list.slots();
                let k = o.index_of(current);
                o.index_of_first_ensures(current);
                assert(o[k] == current);
                if k + 1 < o.len() {
                    lemma_index_of_distinct(o, k + 1);
                }
            }
            self.node = list.nodes[current].unwrap().next;
        }
    }

    /// Moves to the previous node; past either end it stays there.
    pub fn move_prev<T: Copy>(&mut self, list: &List<T>)
        requires
            list.wf(),
            list.valid_cursor(*old(self)),
        ensures
            list.valid_cursor(*final(self)),
            old(self).node is None ==> final(self).node is None,
            list.position(*old(self)) matches Some(k) ==> (
                if k > 0 {
                    list.position(*final(self)) == Some(k - 1)
                } else {
                    final(self).node is None
                }),
    {
        if let Some(current) = self.node {
            proof {
                let o = list.slots();
                let k = o.index_of(current);
                o.index_of_first_ensures(current);
                if k > 0 {
                    lemma_index_of_distinct(o, k - 1);
                }
            }
            self.node = list.nodes[current].unwrap().prev;
        }
    }

    /// Puts `data` in a new node before the node the cursor is on, which is
    /// the head; the new node becomes the head. (Before a node further in,
    /// the node before it would keep pointing past the new one, so the walks
    /// from the head and from the tail would disagree: the list is not left
    /// in such a state.)
    pub fn insert_before<T: Copy>(&mut self, list: &mut List<T>, data: T)
        requires
            old(list).wf(),
            old(list).position(*old(self)) == Some(0int),
            old(list).free_count() > 0 || old(list).arena_len() < usize::MAX,
        ensures
            final(list).wf(),
            final(list)@ == seq![data] + old(list)@,
            *final(self) == *old(self),
            final(list).position(*final(self)) == Some(1int),
    {
        proof {
            old(list).slots().index_of_first_ensures(self.node.unwrap());
        }
        let ghost slot = self.node.unwrap();
        proof {
            old(list).lemma_slots_match();
        }
        list.push_front_node(Node::new(data));
        proof {
            let o = list.slots();
            list.lemma_slots_match();
            assert(o[1] == slot);
            lemma_index_of_distinct(o, 1);
        }
    }

    /// Puts `data` in a new node after the node the cursor is on, which is
    /// the tail; the new node becomes the tail. (After a node further in,
    /// the node after it would keep pointing back past the new one: the
    /// list is not left in such a state.)
    pub fn insert_next<T: Copy>(&mut self, list: &mut List<T>, data: T)
        requires
            old(list).wf(),
            old(list)@.len() > 0,
            old(list).position(*old(self)) == Some(old(list)@.len() - 1),
            old(list).free_count() > 0 || old(list).arena_len() < usize::MAX,
        ensures
            final(list).wf(),
            final(list)@ == old(list)@.push(data),
            *final(self) == *old(self),
            final(list).position(*final(self)) == Some(old(list)@.len() - 1),
    {
        proof {
            old(list).slots().index_of_first_ensures(self.node.unwrap());
        }
        let ghost slot = self.node.unwrap();
        let ghost k = old(list)@.len() - 1;
        proof {
            old(list).lemma_slots_match();
        }
        list.push_node(Node::new(data));
        proof {
            let o = list.slots();
            list.lemma_slots_match();
            assert(o[k] == slot);
            lemma_index_of_distinct(o, k);
        }
    }

    /// The value of the node the cursor is on.
    pub fn data<T: Copy>(&self, list: &List<T>) -> (r: Option<T>)
        requires
            list.wf(),
            list.valid_cursor(*self),
        ensures
            self.node is None ==> r is None,
            list.position(*self) matches Some(k) ==> r == Some(list@[k]),
    {
        match self.node {
            None => None,
            Some(current) => {
                proof {
                    list.slots().index_of_first_ensures(current);
                }
                Some(list.nodes[current].unwrap().data)
            },
        }
    }

    /// Unlinks the node the cursor is on and returns its value. The cursor
    /// keeps naming the freed slot, so it must not be used on the list again.
    pub fn remove<T: Copy>(&mut self, list: &mut List<T>) -> (r: Option<T>)
        requires
            old(list).wf(),
            old(list).valid_cursor(*old(self)),
        ensures
            final(list).wf(),
            final(list).arena_len() == old(list).arena_len(),
            *final(self) == *old(self),
            old(self).node is None ==> r is None && final(list)@ == old(list)@
                && final(list).free_count() == old(list).free_count(),
            old(list).position(*old(self)) matches Some(k) ==>
                r == Some(old(list)@[k]) && final(list)@ == old(list)@.remove(k)
                && final(list).free_count() == old(list).free_count() + 1
                && 0 <= k < old(list)@.len() && final(list)@.len() == old(list)@.len() - 1,
    {
        match self.node {
            None => None,
            Some(current) => {
                let ghost old_list = *list;
                let ghost o = list.order@;
                let ghost k = o.index_of(current);
                proof {
                    o.index_of_first_ensures(current);
                }
                let node = list.nodes[current].unwrap();
                let next_node = node.next;
                let prev_node = node.prev;
                if let Some(next) = next_node {
                    let mut n = list.nodes[next].unwrap();
                    n.prev = prev_node;
                    list.nodes.set(next, Some(n));
                }
                if let Some(prev) = prev_node {
                    proof {
                        if k + 1 < o.len() {
                            assert(o[k - 1] != o[k + 1]);
                        }
                    }
                    let mut p = list.nodes[prev].unwrap();
                    p.next = next_node;
                    list.nodes.set(prev, Some(p));
                }
                if let Some(head) = list.head {
                    if head == current {
                        list.head = next_node;
                    }
                }
                if let Some(tail) = list.tail {
                    if tail == current {
                        list.tail = prev_node;
                    }
                }
                list.length = list.length - 1;
                list.nodes.set(current, None);
                list.free.push(current);
                list.order = Ghost(o.remove(k));
                proof {
                    if k > 0 {
                        assert(o[0] != o[k]);
                    }
                    if k < o.len() - 1 {
                        assert(o.last() != o[k]);
                    }
                    List::lemma_unlinked(old_list, *list, k);
                }
                Some(node.data)
            },
        }
    }
}

impl<T: Copy> List<T> {
    /// Unlinking the node at index `k` leaves a well-formed list without it.
    #[verifier::spinoff_prover]
    #[verifier::rlimit(60)]
    proof fn lemma_unlinked(a: Self, b: Self, k: int)
        requires
            a.wf(),
            0 <= k < a.order@.len(),
            b.order@ == a.order@.remove(k),
            b.length == a.length - 1,
            b.nodes@.len() == a.nodes@.len(),
            b.nodes@[a.order@[k] as int] is None,
            k > 0 ==> b.nodes@[a.order@[k - 1] as int] == Some(Node {
                next: if k + 1 < a.order@.len() { Some(a.order@[k + 1]) } else { None::<usize> },
                ..a.nodes@[a.order@[k - 1] as int].unwrap() }),
            k + 1 < a.order@.len() ==> b.nodes@[a.order@[k + 1] as int] == Some(Node {
                prev: if k > 0 { Some(a.order@[k - 1]) } else { None::<usize> },
                ..a.nodes@[a.order@[k + 1] as int].unwrap() }),
            forall|s: int| 0 <= s < a.nodes@.len() && s != a.order@[k]
                && (k == 0 || s != a.order@[k - 1]) && (k + 1 >= a.order@.len() || s != a.order@[k + 1])
                ==> b.nodes@[s] == a.nodes@[s],
            b.head == (if k == 0 { if k + 1 < a.order@.len() { Some(a.order@[k + 1]) } else { None::<usize> } } else { a.head }),
            b.tail == (if k == a.order@.len() - 1 { if k > 0 { Some(a.order@[k - 1]) } else { None::<usize> } } else { a.tail }),
            b.free@ == a.free@.push(a.order@[k]),
        ensures
            b.wf(),
            b@ == a@.remove(k),
            b.free_count() == a.free_count() + 1,
    {
        let o = a.order@;
        let n = b.order@;
        assert(n.len() == o.len() - 1);
        assert forall|i: int| 0 <= i < n.len() implies
            #[trigger] n[i] == (if i < k { o[i] } else { o[i + 1] }) by {}
        assert(n.no_duplicates()) by {
            assert forall|i: int, j: int| 0 <= i < j < n.len() implies n[i] != n[j] by {
                let ii = if i < k { i } else { i + 1 };
                let jj = if j < k { j } else { j + 1 };
                assert(n[i] == o[ii]);
                assert(n[j] == o[jj]);
            }
        }
        assert(!a.free@.contains(o[k])) by {
            if a.free@.contains(o[k]) {
                let j = a.free@.index_of(o[k]);
                assert(a.nodes@[a.free@[j] as int] is None);
            }
        }
        assert(b.free@.no_duplicates()) by {
            assert forall|i: int, j: int| 0 <= i < j < b.free@.len() implies b.free@[i] != b.free@[j] by {
                if j == b.free@.len() - 1 {
                    assert(a.free@.contains(b.free@[i]));
                }
            }
        }
        assert forall|i: int| 0 <= i < b.free@.len() implies {
            &&& #[trigger] b.free@[i] < b.nodes@.len()
            &&& b.nodes@[b.free@[i] as int] is None
        } by {
            if i < a.free@.len() {
                let s = a.free@[i];
                assert(a.nodes@[s as int] is None);
                if k > 0 {
                    assert(a.nodes@[o[k - 1] as int] is Some);
                }
                if k + 1 < o.len() {
                    assert(a.nodes@[o[k + 1] as int] is Some);
                }
            }
        }
        assert forall|i: int| 0 <= i < n.len() implies {
            &&& #[trigger] n[i] < b.nodes@.len()
            &&& b.nodes@[n[i] as int] is Some
            &&& b.nodes@[n[i] as int].unwrap().next == (if i + 1 < n.len() { Some(n[i + 1]) } else { None::<usize> })
            &&& b.nodes@[n[i] as int].unwrap().prev == (if i > 0 { Some(n[i - 1]) } else { None::<usize> })
        } by {
            let ii = if i < k { i } else { i + 1 };
            assert(n[i] == o[ii]);
            assert(o[ii] != o[k]);
            assert(a.nodes@[o[ii] as int] is Some);
            if k > 0 {
                assert(o[k - 1] != o[k]);
                if ii != k - 1 {
                    assert(o[ii] != o[k - 1]);
                }
            }
            if k + 1 < o.len() {
                assert(o[k + 1] != o[k]);
                if ii != k + 1 {
                    assert(o[ii] != o[k + 1]);
                }
            }
        }
        if n.len() > 0 {
            if k == 0 {
                assert(n[0] == o[1]);
            }
            if k == o.len() - 1 {
                assert(n.last() == o[k - 1]);
            } else {
                assert(n.last() == o.last());
            }
        }
        assert(b@ =~= a@.remove(k)) by {
            assert forall|i: int| 0 <= i < n.len() implies #[trigger] b@[i] == a@.remove(k)[i] by {
                let ii = if i < k { i } else { i + 1 };
                assert(n[i] == o[ii]);
                assert(o[ii] != o[k]);
                if k > 0 && ii == k - 1 {
                } else if k + 1 < o.len() && ii == k + 1 {
                } else {
                    if k > 0 {
                        assert(o[ii] != o[k - 1]);
                    }
                    if k + 1 < o.len() {
                        assert(o[ii] != o[k + 1]);
                    }
                }
            }
        }
    }
}

/// Hands out a cursor for every step: on each node in turn, then past the
/// end for ever.
pub struct CurserIter {
    pub curser: Curser,
}

impl CurserIter {
    /// The current cursor; the iterator moves on to the next node.
    pub fn next<T: Copy>(&mut self, list: &List<T>) -> (r: Curser)
        requires
            list.wf(),
            list.valid_cursor(old(self).curser),
        ensures
            r == old(self).curser,
            list.valid_cursor(final(self).curser),
            old(self).curser.node is None ==> final(self).curser.node is None,
            list.position(old(self).curser) matches Some(k) ==> (
                if k + 1 < list@.len() {
                    list.position(final(self).curser) == Some(k + 1)
                } else {
                    final(self).curser.node is None
                }),
    {
        let before = self.curser;
        self.curser.move_next(list);
        before
    }
}

/// A list that takes values at its head and gives them back from its tail,
/// so the first value in is the first value out.
pub struct RawList<T> {
    items: Vec<T>,
}

impl<T: Copy> RawList<T> {
    /// The values, from head to tail.
    pub closed spec fn view(&self) -> Seq<T> {
        self.items@
    }

    pub fn empty() -> (r: Self)
        ensures
            r@ == Seq::<T>::empty(),
    {
        Self { items: Vec::new() }
    }

    /// Puts `data` at the head.
    pub fn push(&mut self, data: T)
        ensures
            final(self)@ == seq![data] + old(self)@,
    {
        self.items.insert(0, data);
        proof {
            assert(self@ =~= seq![data] + old(self)@);
        }
    }

    /// Takes the value at the tail.
    pub fn pop(&mut self) -> (r: Option<T>)
        ensures
            old(self)@.len() == 0 ==> r is None && final(self)@ == old(self)@,
            old(self)@.len() > 0 ==> r == Some(old(self)@.last()) && final(self)@ == old(self)@.drop_last(),
    {
        self.items.pop()
    }

    pub fn len(&self) -> (r: usize)
        ensures
            r == self@.len(),
    {
        self.items.len()
    }

    /// An iterator from the head. A push links the new head to the old one
    /// but leaves the old head without a next value, so the walk from the
    /// head meets at most the two newest values.
    pub fn iter(&self) -> (r: RawListIter)
        ensures
            r.0 == 0,
    {
        RawListIter(0)
    }
}

/// Walks a `RawList` from its head along the links a push leaves: the head,
/// then the value pushed before it, then nothing. The field is the next
/// index.
pub struct RawListIter(pub usize);

/// How many values the walk from the head of a list of `len` values meets.
pub open spec fn raw_walk_len(len: int) -> int {
    if len < 2 { len } else { 2 }
}

impl RawListIter {
    pub fn next<T: Copy>(&mut self, list: &RawList<T>) -> (r: Option<T>)
        ensures
            old(self).0 < raw_walk_len(list@.len() as int) ==> r == Some(list@[old(self).0 as int])
                && final(self).0 == old(self).0 + 1,
            old(self).0 >= raw_walk_len(list@.len() as int) ==> r is None && final(self).0 == old(self).0,
    {
        if self.0 < list.len() && self.0 < 2 {
            let v = list.items[self.0];
            self.0 = self.0 + 1;
            Some(v)
        } else {
            None
        }
    }
}

} // verus!
