//! The container itself: an ordered sequence stored in a dense arena of
//! slots, each holding an optional element and the index of its successor.
//!
//! The abstract value of a `LinkedVector<T>` is the `Seq<T>` of its live
//! elements in logical order (its view, written `self@`). Well-formedness
//! (`wf`) relates the physical fields to a ghost sequence of slot indices:
//! every slot is either on the live chain or on the free list, never both,
//! and the `next` links thread the live slots in logical order.

use vstd::layout::size_of;
use vstd::prelude::*;

verus! {

/// Relies on `Vec::capacity`: the number of elements the vector can hold
/// without reallocating, which its documentation promises is at least the
/// current length. How much headroom the allocator granted beyond that is
/// not a function of the vector's contents, so nothing more is assumed.
#[verifier::external_body]
fn vec_capacity<T>(v: &Vec<T>) -> (c: usize)
    ensures
        c >= v@.len(),
{
    v.capacity()
}

/// Takes the slot at arena index `i` out by value, leaving an empty slot
/// (no element, no successor) in its place.
fn take_node<T>(data: &mut Vec<LinkedNode<T>>, i: usize) -> (node: LinkedNode<T>)
    requires
        i < old(data)@.len(),
    ensures
        node == old(data)@[i as int],
        final(data)@ == old(data)@.update(
            i as int,
            LinkedNode { item: None, next: None },
        ),
{
    let mut tmp = LinkedNode { item: None, next: None };
    core::mem::swap(&mut data[i], &mut tmp);
    tmp
}

/// Redirects the successor link of the slot at arena index `i` to `nxt`,
/// leaving its element in place.
fn relink<T>(data: &mut Vec<LinkedNode<T>>, i: usize, nxt: Option<usize>)
    requires
        i < old(data)@.len(),
    ensures
        final(data)@ == old(data)@.update(
            i as int,
            LinkedNode { item: old(data)@[i as int].item, next: nxt },
        ),
{
    let node = &mut data[i];
    node.next = nxt;
}

/// One arena slot: the stored element (absent only for recycled slots) and
/// the arena index of the logical successor (`None` at the tail).
pub struct LinkedNode<T> {
    pub item: Option<T>,
    /// Arena index of the logical successor; stale for recycled slots.
    pub next: Option<usize>,
}

/// An ordered container with linked-list semantics backed by a dense arena.
///
/// `data` never shrinks: slots vacated by `pop_front` or `delete` are
/// recorded in `freelist` and overwritten by later allocations.
pub struct LinkedVector<T> {
    data: Vec<LinkedNode<T>>,
    head: Option<usize>,
    tail: Option<usize>,
    freelist: Vec<usize>,
    length: usize,
    /// The arena index of each live element, in logical order.
    chain: Ghost<Seq<usize>>,
}

impl<T> View for LinkedVector<T> {
    type V = Seq<T>;

    closed spec fn view(&self) -> Seq<T> {
        Seq::new(self.chain@.len(), |i: int| self.data@[self.chain@[i] as int].item.unwrap())
    }
}

impl<T> LinkedVector<T> {
    /// Number of slots in the backing arena, live and free together. This
    /// only ever grows: it records the high-water mark of simultaneously
    /// live elements.
    pub closed spec fn spec_true_len(self) -> nat {
        self.data@.len()
    }

    /// Number of vacated slots currently awaiting reuse.
    pub closed spec fn spec_free_count(self) -> nat {
        self.freelist@.len()
    }

    /// The arena index of the first live slot, absent iff the list is empty.
    pub closed spec fn spec_head(self) -> Option<usize> {
        self.head
    }

    /// The arena index of the last live slot, absent iff the list is empty.
    pub closed spec fn spec_tail(self) -> Option<usize> {
        self.tail
    }

    /// Well-formedness: the ghost chain lists distinct in-bounds slots, the
    /// free list likewise, the two are disjoint and together account for
    /// every arena slot; each live slot holds an element and links to its
    /// successor; `head`, `tail` and `length` agree with the chain.
    pub closed spec fn wf(self) -> bool {
        &&& self.length == self.chain@.len()
        &&& self.data@.len() == self.chain@.len() + self.freelist@.len()
        &&& forall|i: int|
            0 <= i < self.chain@.len() ==> (#[trigger] self.chain@[i]) < self.data@.len()
        &&& forall|i: int, j: int|
            0 <= i < j < self.chain@.len() ==> self.chain@[i] != self.chain@[j]
        &&& forall|i: int|
            0 <= i < self.freelist@.len() ==> (#[trigger] self.freelist@[i]) < self.data@.len()
        &&& forall|i: int, j: int|
            0 <= i < j < self.freelist@.len() ==> self.freelist@[i] != self.freelist@[j]
        &&& forall|i: int, j: int|
            0 <= i < self.chain@.len() && 0 <= j < self.freelist@.len() ==> self.chain@[i]
                != self.freelist@[j]
        &&& forall|i: int|
            0 <= i < self.chain@.len() ==> (#[trigger] self.data@[self.chain@[i] as int].item)
                is Some
        &&& forall|i: int|
            0 <= i < self.chain@.len() - 1 ==> (#[trigger] self.data@[self.chain@[i] as int].next)
                == Some(self.chain@[i + 1])
        &&& self.chain@.len() > 0 ==> self.data@[self.chain@.last() as int].next is None
        &&& self.head == (if self.chain@.len() == 0 {
            None
        } else {
            Some(self.chain@[0])
        })
        &&& self.tail == (if self.chain@.len() == 0 {
            None
        } else {
            Some(self.chain@.last())
        })
    }

    /// Returns an empty list: no live elements, no arena slots, nothing to
    /// recycle.
    pub fn new() -> (r: Self)
        ensures
            r.wf(),
            r@ == Seq::<T>::empty(),
            r.spec_true_len() == 0,
            r.spec_free_count() == 0,
    {
        let r = LinkedVector {
            data: Vec::new(),
            head: None,
            tail: None,
            freelist: Vec::new(),
            length: 0,
            chain: Ghost(Seq::empty()),
        };
        proof {
            assert(r@ =~= Seq::<T>::empty());
        }
        r
    }

    /// Returns an empty list whose arena pre-reserves room for `n` slots;
    /// its abstract state is the same as that of `new`.
    pub fn with_capacity(n: usize) -> (r: Self)
        ensures
            r.wf(),
            r@ == Seq::<T>::empty(),
            r.spec_true_len() == 0,
            r.spec_free_count() == 0,
    {
        let r = LinkedVector {
            data: Vec::with_capacity(n),
            head: None,
            tail: None,
            freelist: Vec::new(),
            length: 0,
            chain: Ghost(Seq::empty()),
        };
        proof {
            assert(r@ =~= Seq::<T>::empty());
        }
        r
    }

    /// Number of live elements.
    pub fn len(&self) -> (r: usize)
        requires
            self.wf(),
        ensures
            r == self@.len(),
    {
        self.length
    }

    /// Size of the backing arena: live elements plus recyclable slots.
    pub fn true_len(&self) -> (r: usize)
        requires
            self.wf(),
        ensures
            r == self.spec_true_len(),
            r == self@.len() + self.spec_free_count(),
    {
        self.data.len()
    }

    /// Reserved capacity of the backing arena; at least `true_len`.
    pub fn capacity(&self) -> (r: usize)
        ensures
            r >= self.spec_true_len(),
    {
        vec_capacity(&self.data)
    }

    /// Heap bytes actively used, counting every arena slot (live or free,
    /// since the arena never shrinks) at one element plus one link index
    /// each, and one index per free-list entry.
    pub open spec fn spec_mem_used(self) -> nat {
        (size_of::<T>() + size_of::<usize>()) * self.spec_true_len() + size_of::<usize>()
            * self.spec_free_count()
    }

    /// Estimate of the heap memory actively used, in bytes: the
    /// `spec_mem_used` formula over the arena size and the free-list
    /// length.
    pub fn mem_used(&self) -> (r: usize)
        requires
            self.wf(),
            size_of::<T>() + size_of::<usize>() <= usize::MAX,
            self.spec_mem_used() <= usize::MAX,
        ensures
            r == self.spec_mem_used(),
    {
        let st = core::mem::size_of::<T>();
        let su = core::mem::size_of::<usize>();
        let per = st + su;
        per * self.data.len() + su * self.freelist.len()
    }

    /// Estimate of the heap memory allocated, in bytes: the `spec_mem_used`
    /// formula over the reserved capacities of the arena and the free list
    /// rather than their lengths. The capacities depend on the allocator
    /// and are at least the lengths, so the result is at least `mem_used`;
    /// it saturates at `usize::MAX` rather than overflow.
    pub fn true_mem_used(&self) -> (r: usize)
        requires
            self.wf(),
            size_of::<T>() + size_of::<usize>() <= usize::MAX,
            self.spec_mem_used() <= usize::MAX,
        ensures
            r >= self.spec_mem_used(),
    {
        let st = core::mem::size_of::<T>();
        let su = core::mem::size_of::<usize>();
        let per = st + su;
        let dcap = vec_capacity(&self.data);
        let fcap = vec_capacity(&self.freelist);
        let a = match per.checked_mul(dcap) {
            Some(x) => x,
            None => usize::MAX,
        };
        let b = match su.checked_mul(fcap) {
            Some(x) => x,
            None => usize::MAX,
        };
        proof {
            let n = self.data@.len() as int;
            let f = self.freelist@.len() as int;
            assert((per as int) * (dcap as int) >= (per as int) * n) by (nonlinear_arith)
                requires
                    dcap as int >= n,
                    per as int >= 0,
                    n >= 0,
            ;
            assert((su as int) * (fcap as int) >= (su as int) * f) by (nonlinear_arith)
                requires
                    fcap as int >= f,
                    su as int >= 0,
                    f >= 0,
            ;
        }
        a.saturating_add(b)
    }

    /// Slot accounting invariant: at any well-formed state, the arena size
    /// is exactly the number of live elements plus the number of free
    /// slots — no slot is lost and none is counted twice.
    pub proof fn lemma_slot_accounting(&self)
        requires
            self.wf(),
        ensures
            self.spec_true_len() == self@.len() + self.spec_free_count(),
    {
    }

    /// At any well-formed state, the list is empty exactly when it has no
    /// head slot, and exactly when it has no tail slot.
    pub proof fn lemma_empty_iff_no_ends(&self)
        requires
            self.wf(),
        ensures
            self@.len() == 0 <==> self.spec_head() is None,
            self@.len() == 0 <==> self.spec_tail() is None,
    {
    }

    /// The allocation primitive shared by `push_front` and `push_back`:
    /// write `node` into a recycled slot if one is free, otherwise append a
    /// fresh slot to the arena. Returns the slot's index. Only `data` and
    /// `freelist` change; the chain and the other fields are untouched.
    fn allocate_slot(&mut self, node: LinkedNode<T>) -> (idx: usize)
        requires
            old(self).wf(),
        ensures
            final(self).head == old(self).head,
            final(self).tail == old(self).tail,
            final(self).length == old(self).length,
            final(self).chain@ == old(self).chain@,
            idx < final(self).data@.len(),
            final(self).data@[idx as int] == node,
            forall|j: int|
                0 <= j < old(self).data@.len() && j != idx ==> final(self).data@[j] == old(
                    self,
                ).data@[j],
            !old(self).chain@.contains(idx),
            old(self).freelist@.len() == 0 ==> final(self).data@.len() == old(self).data@.len() + 1
                && idx == old(self).data@.len() && final(self).freelist@ == old(self).freelist@,
            old(self).freelist@.len() > 0 ==> final(self).data@.len() == old(self).data@.len()
                && idx == old(self).freelist@.last() && final(self).freelist@ == old(
                self,
            ).freelist@.drop_last(),
    {
        let popped = self.freelist.pop();
        match popped {
            Some(idx) => {
                proof {
                    if old(self).chain@.contains(idx) {
                        let i = choose|i: int|
                            0 <= i < old(self).chain@.len() && old(self).chain@[i] == idx;
                        assert(old(self).chain@[i] != old(self).freelist@[
                        old(self).freelist@.len() - 1]);
                    }
                }
                self.data[idx] = node;
                idx
            },
            None => {
                self.data.push(node);
                self.data.len() - 1
            },
        }
    }

    /// Puts `item` at the front of the list: a newly allocated slot becomes
    /// the head and links to the old head. The arena grows only when no
    /// recycled slot was available.
    pub fn push_front(&mut self, item: T)
        requires
            old(self).wf(),
            old(self)@.len() < usize::MAX,
        ensures
            final(self).wf(),
            final(self)@ == seq![item] + old(self)@,
            old(self).spec_free_count() == 0 ==> final(self).spec_true_len() == old(
                self,
            ).spec_true_len() + 1 && final(self).spec_free_count() == 0,
            old(self).spec_free_count() > 0 ==> final(self).spec_true_len() == old(
                self,
            ).spec_true_len() && final(self).spec_free_count() == old(self).spec_free_count() - 1,
    {
        let ghost old_chain = self.chain@;
        let node = LinkedNode { item: Some(item), next: self.head };
        let nidx = self.allocate_slot(node);
        self.head = Some(nidx);
        if self.tail.is_none() {
            self.tail = Some(nidx);
        }
        self.length = self.length + 1;
        self.chain = Ghost(seq![nidx] + old_chain);
        proof {
            assert forall|i: int| 0 <= i < self.chain@.len() - 1 implies (
            #[trigger] self.data@[self.chain@[i] as int].next) == Some(self.chain@[i + 1]) by {
                if i == 0 {
                    assert(self.data@[nidx as int].next == old(self).head);
                } else {
                    assert(old(self).chain@[i - 1] != nidx);
                    assert(self.data@[self.chain@[i] as int] == old(self).data@[old(self).chain@[i
                        - 1] as int]);
                }
            }
            assert(self@ =~= seq![item] + old(self)@);
        }
    }

    /// Puts `item` at the end of the list: a newly allocated slot becomes
    /// the tail, and the old tail (if any) links to it. The arena grows
    /// only when no recycled slot was available.
    pub fn push_back(&mut self, item: T)
        requires
            old(self).wf(),
            old(self)@.len() < usize::MAX,
        ensures
            final(self).wf(),
            final(self)@ == old(self)@.push(item),
            old(self).spec_free_count() == 0 ==> final(self).spec_true_len() == old(
                self,
            ).spec_true_len() + 1 && final(self).spec_free_count() == 0,
            old(self).spec_free_count() > 0 ==> final(self).spec_true_len() == old(
                self,
            ).spec_true_len() && final(self).spec_free_count() == old(self).spec_free_count() - 1,
    {
        let ghost old_chain = self.chain@;
        let nidx = self.allocate_slot(LinkedNode { item: Some(item), next: None });
        match self.tail {
            Some(t) => {
                proof {
                    assert(t == old_chain.last());
                    assert(old_chain.contains(old_chain.last()));
                }
                relink(&mut self.data, t, Some(nidx));
                self.tail = Some(nidx);
            },
            None => {
                self.head = Some(nidx);
                self.tail = Some(nidx);
            },
        }
        self.length = self.length + 1;
        self.chain = Ghost(old_chain.push(nidx));
        proof {
            let c = self.chain@;
            let n = c.len();
            assert forall|i: int| 0 <= i < n implies (#[trigger] self.data@[c[i] as int].item)
                is Some by {
                if i < n - 1 {
                    assert(old(self).data@[old_chain[i] as int].item is Some);
                }
            }
            assert forall|i: int| 0 <= i < n - 1 implies (#[trigger] self.data@[c[i] as int].next)
                == Some(c[i + 1]) by {
                if i < n - 2 {
                    assert(old(self).data@[old_chain[i] as int].next == Some(old_chain[i + 1]));
                    assert(old_chain[i] != old_chain[n - 2]);
                }
            }
            assert(self@ =~= old(self)@.push(item));
        }
    }

    /// Removes and returns the first element, or `None` on an empty list
    /// (not an error). The vacated slot goes onto the free list, so the
    /// arena keeps its size; `tail` is cleared together with `head` when
    /// the last element leaves.
    pub fn pop_front(&mut self) -> (r: Option<T>)
        requires
            old(self).wf(),
        ensures
            final(self).wf(),
            old(self)@.len() == 0 ==> r is None && *final(self) == *old(self),
            old(self)@.len() > 0 ==> r == Some(old(self)@[0]) && final(self)@ == old(
                self,
            )@.drop_first() && final(self).spec_free_count() == old(self).spec_free_count() + 1,
            final(self).spec_true_len() == old(self).spec_true_len(),
    {
        match self.head {
            None => None,
            Some(h) => {
                let ghost old_chain = self.chain@;
                let nxt = self.data[h].next;
                self.head = nxt;
                self.freelist.push(h);
                self.length = self.length - 1;
                if self.length == 0 {
                    self.tail = None;
                }
                self.chain = Ghost(old_chain.drop_first());
                let node = take_node(&mut self.data, h);
                proof {
                    let c = self.chain@;
                    let n = c.len();
                    assert forall|i: int| 0 <= i < n implies c[i] != h by {
                        assert(old_chain[0] != old_chain[i + 1]);
                    }
                    assert forall|i: int| 0 <= i < n implies (#[trigger] self.data@[c[i] as int].item)
                        is Some by {
                        assert(old(self).data@[old_chain[i + 1] as int].item is Some);
                    }
                    assert forall|i: int| 0 <= i < n - 1 implies (#[trigger] self.data@[c[i] as int].next)
                        == Some(c[i + 1]) by {
                        assert(old(self).data@[old_chain[i + 1] as int].next == Some(old_chain[i
                            + 2]));
                    }
                    assert forall|j: int| 0 <= j < self.freelist@.len() implies (
                    #[trigger] self.freelist@[j]) < self.data@.len() by {
                        if j < old(self).freelist@.len() {
                            assert(old(self).freelist@[j] < old(self).data@.len());
                        }
                    }
                    if n > 0 {
                        assert(c.last() == old_chain.last());
                        assert(self.data@[c.last() as int].next is None);
                    }
                    assert(self@ =~= old(self)@.drop_first());
                }
                Some(node.item.unwrap())
            },
        }
    }

    /// Walks the chain from the head: returns the arena index of the slot
    /// at logical position `i`, in O(i) link follows.
    fn slot_at(&self, i: usize) -> (p: usize)
        requires
            self.wf(),
            i < self@.len(),
        ensures
            p == self.chain@[i as int],
    {
        let mut cur = self.head.unwrap();
        let mut k: usize = 0;
        while k < i
            invariant
                self.wf(),
                i < self@.len(),
                k <= i,
                cur == self.chain@[k as int],
            decreases i - k,
        {
            cur = self.data[cur].next.unwrap();
            k = k + 1;
        }
        cur
    }

    /// Reads the live slot at logical position `index` (0 is the head),
    /// found by an O(index) walk from the head; `None` iff `index` is out
    /// of bounds. The slot holds the element `self@[index]`.
    pub fn get(&self, index: usize) -> (r: Option<&LinkedNode<T>>)
        requires
            self.wf(),
        ensures
            index < self@.len() ==> match r {
                Some(node) => node.item == Some(self@[index as int]),
                None => false,
            },
            index >= self@.len() ==> r is None,
    {
        if index < self.length {
            let p = self.slot_at(index);
            Some(&self.data[p])
        } else {
            None
        }
    }

    /// Grants write access to the element at logical position `index` (0
    /// is the head), found by an O(index) walk from the head. Only the
    /// element can change through the returned reference: the chain, the
    /// arena size and the free list stay as they are.
    pub fn get_mut(&mut self, index: usize) -> (r: &mut T)
        requires
            old(self).wf(),
            index < old(self)@.len(),
        ensures
            *r == old(self)@[index as int],
            final(self).wf(),
            final(self)@ == old(self)@.update(index as int, *final(r)),
            final(self).spec_true_len() == old(self).spec_true_len(),
            final(self).spec_free_count() == old(self).spec_free_count(),
            final(self).spec_head() == old(self).spec_head(),
            final(self).spec_tail() == old(self).spec_tail(),
    {
        let p = self.slot_at(index);
        let node = &mut self.data[p];
        match &mut node.item {
            Some(x) => x,
            None => unreached(),
        }
    }

    /// Reads the slot at the head, or `None` iff the list is empty.
    pub fn head(&self) -> (r: Option<&LinkedNode<T>>)
        requires
            self.wf(),
        ensures
            match r {
                Some(node) => self@.len() > 0 && node.item == Some(self@[0]),
                None => self@.len() == 0,
            },
    {
        match self.head {
            Some(idx) => Some(&self.data[idx]),
            None => None,
        }
    }

    /// Reads the slot at the tail, or `None` iff the list is empty.
    pub fn tail(&self) -> (r: Option<&LinkedNode<T>>)
        requires
            self.wf(),
        ensures
            match r {
                Some(node) => self@.len() > 0 && node.item == Some(self@[self@.len() - 1]),
                None => self@.len() == 0,
            },
    {
        match self.tail {
            Some(idx) => Some(&self.data[idx]),
            None => None,
        }
    }

    /// Grants write access to the head element, or returns `None` and
    /// leaves the list untouched iff it is empty.
    pub fn head_mut(&mut self) -> (r: Option<&mut T>)
        requires
            old(self).wf(),
        ensures
            old(self)@.len() == 0 ==> r is None && *final(self) == *old(self),
            old(self)@.len() > 0 ==> match r {
                Some(x) => {
                    &&& *x == old(self)@[0]
                    &&& final(self).wf()
                    &&& final(self)@ == old(self)@.update(0, *final(x))
                    &&& final(self).spec_true_len() == old(self).spec_true_len()
                    &&& final(self).spec_free_count() == old(self).spec_free_count()
                },
                None => false,
            },
    {
        if self.length > 0 {
            Some(self.get_mut(0))
        } else {
            None
        }
    }

    /// Grants write access to the tail element, or returns `None` and
    /// leaves the list untouched iff it is empty.
    pub fn tail_mut(&mut self) -> (r: Option<&mut T>)
        requires
            old(self).wf(),
        ensures
            old(self)@.len() == 0 ==> r is None && *final(self) == *old(self),
            old(self)@.len() > 0 ==> match r {
                Some(x) => {
                    &&& *x == old(self)@[old(self)@.len() - 1]
                    &&& final(self).wf()
                    &&& final(self)@ == old(self)@.update(old(self)@.len() - 1, *final(x))
                    &&& final(self).spec_true_len() == old(self).spec_true_len()
                    &&& final(self).spec_free_count() == old(self).spec_free_count()
                },
                None => false,
            },
    {
        if self.length > 0 {
            let last = self.length - 1;
            Some(self.get_mut(last))
        } else {
            None
        }
    }

    /// Removes and returns the element at logical position `index` (0 is
    /// the head), relinking its predecessor past it; O(index) link
    /// follows. The vacated slot is recycled, so the arena keeps its size;
    /// removing the last position moves `tail` to the predecessor.
    pub fn delete(&mut self, index: usize) -> (r: T)
        requires
            old(self).wf(),
            index < old(self)@.len(),
        ensures
            final(self).wf(),
            r == old(self)@[index as int],
            final(self)@ == old(self)@.remove(index as int),
            final(self).spec_true_len() == old(self).spec_true_len(),
            final(self).spec_free_count() == old(self).spec_free_count() + 1,
    {
        if index == 0 {
            let r = self.pop_front();
            proof {
                assert(old(self)@.drop_first() =~= old(self)@.remove(0));
            }
            return r.unwrap();
        }
        let ghost old_chain = self.chain@;
        let prev = self.slot_at(index - 1);
        let removed = self.data[prev].next.unwrap();
        proof {
            assert(removed == old_chain[index as int]);
        }
        let rnext = self.data[removed].next;
        relink(&mut self.data, prev, rnext);
        self.freelist.push(removed);
        self.length = self.length - 1;
        if index == self.length {
            self.tail = Some(prev);
        }
        self.chain = Ghost(old_chain.remove(index as int));
        let node = take_node(&mut self.data, removed);
        proof {
            let c = self.chain@;
            let n = c.len();
            assert forall|i: int, j: int| 0 <= i < j < n implies c[i] != c[j] by {
                let i0 = if i < index { i } else { i + 1 };
                let j0 = if j < index { j } else { j + 1 };
                assert(old_chain[i0] != old_chain[j0]);
            }
            assert forall|i: int| 0 <= i < n implies (#[trigger] self.data@[c[i] as int].item)
                is Some by {
                let i0 = if i < index { i } else { i + 1 };
                assert(c[i] == old_chain[i0]);
                assert(old_chain[i0] != old_chain[index as int]);
                assert(old(self).data@[old_chain[i0] as int].item is Some);
            }
            assert forall|i: int| 0 <= i < n - 1 implies (#[trigger] self.data@[c[i] as int].next)
                == Some(c[i + 1]) by {
                let i0 = if i < index { i } else { i + 1 };
                assert(c[i] == old_chain[i0]);
                assert(old_chain[i0] != old_chain[index as int]);
                if i0 == index - 1 {
                    assert(c[i] == prev);
                    assert(self.data@[prev as int].next == rnext);
                    assert(rnext == old(self).data@[old_chain[index as int] as int].next);
                } else {
                    assert(old_chain[i0] != old_chain[index - 1]);
                    assert(self.data@[c[i] as int] == old(self).data@[old_chain[i0] as int]);
                    assert(old(self).data@[old_chain[i0] as int].next == Some(old_chain[i0 + 1]));
                }
            }
            assert forall|j: int| 0 <= j < self.freelist@.len() implies (
            #[trigger] self.freelist@[j]) < self.data@.len() by {
                if j < old(self).freelist@.len() {
                    assert(old(self).freelist@[j] < old(self).data@.len());
                }
            }
            assert forall|i: int, j: int|
                0 <= i < n && 0 <= j < self.freelist@.len() implies c[i] != self.freelist@[j] by {
                let i0 = if i < index { i } else { i + 1 };
                assert(c[i] == old_chain[i0]);
                if j < old(self).freelist@.len() {
                    assert(old_chain[i0] != old(self).freelist@[j]);
                } else {
                    assert(old_chain[i0] != old_chain[index as int]);
                }
            }
            assert forall|i: int, j: int|
                0 <= i < j < self.freelist@.len() implies self.freelist@[i] != self.freelist@[j] by {
                if j < old(self).freelist@.len() {
                    assert(old(self).freelist@[i] != old(self).freelist@[j]);
                } else {
                    assert(old(self).chain@[index as int] != old(self).freelist@[i]);
                }
            }
            if n > 0 {
                if index == old_chain.len() - 1 {
                    assert(c.last() == old_chain[index - 1]);
                    assert(c.last() == prev);
                    assert(rnext is None);
                } else {
                    assert(c.last() == old_chain.last());
                    assert(old_chain.last() != old_chain[index - 1]);
                    assert(old_chain.last() != old_chain[index as int]);
                }
            }
            assert(c[0] == old_chain[0]);
            assert(self@ =~= old(self)@.remove(index as int));
        }
        node.item.unwrap()
    }

    /// The bounds-checked form of `delete`: removes and returns the element
    /// at logical position `index`, or returns `None` and leaves the list
    /// untouched iff `index` is out of bounds.
    pub fn try_delete(&mut self, index: usize) -> (r: Option<T>)
        requires
            old(self).wf(),
        ensures
            final(self).wf(),
            index < old(self)@.len() ==> r == Some(old(self)@[index as int]) && final(self)@ == old(
                self,
            )@.remove(index as int) && final(self).spec_free_count() == old(self).spec_free_count()
                + 1,
            index >= old(self)@.len() ==> r is None && *final(self) == *old(self),
            final(self).spec_true_len() == old(self).spec_true_len(),
    {
        if index < self.length {
            Some(self.delete(index))
        } else {
            None
        }
    }
}

} // verus!
