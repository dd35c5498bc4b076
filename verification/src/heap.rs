//! The heap: a fixed number of slots that objects occupy, a doubly linked
//! list of the free slots, and the objects themselves.
//!
//! Every object ever allocated stays at its position in `arena`; a
//! reference is that position. The slots count the objects against the
//! heap's size; the collector frees the slots of objects that the frames
//! cannot reach.

use vstd::prelude::*;
use crate::object::Object;

verus! {

/// A heap slot: occupied by the object at a position of the arena, or free
/// and linked to its neighbours in the free list.
#[derive(Debug, Clone, Copy, PartialEq, Eq, Structural)]
pub enum Slot {
    Occupied(usize),
    Free { next: Option<usize>, prev: Option<usize> },
}

/// The slot that position `k` of the free list `l` must hold.
pub open spec fn link(l: Seq<usize>, k: int) -> Slot {
    Slot::Free {
        next: if k + 1 < l.len() { Some(l[k + 1]) } else { None },
        prev: if k > 0 { Some(l[k - 1]) } else { None },
    }
}

/// Whether `l` lists distinct slots of `slots`, each free and linked to its
/// neighbours in `l`, and `head` is its first element.
pub open spec fn list_wf(slots: Seq<Slot>, l: Seq<usize>, head: Option<usize>) -> bool {
    &&& head == (if l.len() == 0 { None::<usize> } else { Some(l[0]) })
    &&& forall|k: int| 0 <= k < l.len() ==> (#[trigger] l[k]) < slots.len() && slots[l[k] as int] == link(l, k)
    &&& forall|a: int, b: int| 0 <= a < b < l.len() ==> #[trigger] l[a] != #[trigger] l[b]
}

/// Whether slot `k` holds an object of the young generation.
pub open spec fn is_young_at(slots: Seq<Slot>, arena: Seq<Object>, k: int) -> bool {
    slots[k] matches Slot::Occupied(o) && o < arena.len() && arena[o as int].header.generation == 0
}

/// The number of slots from `lo` on that hold young objects.
pub open spec fn count_young(slots: Seq<Slot>, arena: Seq<Object>, lo: int) -> nat
    decreases slots.len() - lo,
{
    if lo < 0 || lo >= slots.len() {
        0
    } else {
        (if is_young_at(slots, arena, lo) { 1nat } else { 0nat }) + count_young(slots, arena, lo + 1)
    }
}

/// Two heaps that agree on which slots hold young objects, except perhaps
/// at `k0`, have counts that differ by what they hold at `k0`.
pub proof fn lemma_count_point(s1: Seq<Slot>, a1: Seq<Object>, s2: Seq<Slot>, a2: Seq<Object>, lo: int, k0: int)
    requires
        s1.len() == s2.len(),
        0 <= lo,
        forall|k: int| lo <= k < s1.len() && k != k0 ==> is_young_at(s1, a1, k) == is_young_at(s2, a2, k),
    ensures
        count_young(s1, a1, lo) + (if lo <= k0 < s1.len() && is_young_at(s2, a2, k0) { 1int } else { 0int })
            == count_young(s2, a2, lo) + (if lo <= k0 < s1.len() && is_young_at(s1, a1, k0) { 1int } else { 0int }),
    decreases s1.len() - lo,
{
    if lo < s1.len() {
        lemma_count_point(s1, a1, s2, a2, lo + 1, k0);
    }
}

/// Whether no object occupies two slots.
pub open spec fn slots_injective(slots: Seq<Slot>) -> bool {
    forall|a: int, b: int| 0 <= a < b < slots.len() && (#[trigger] slots[a]) is Occupied && (#[trigger] slots[b]) is Occupied
        ==> slots[a] != slots[b]
}

/// The heap.
pub struct Heap {
    pub size: usize,
    pub objects: Vec<Slot>,
    pub free_head: Option<usize>,
    pub young_count: usize,
    pub old_count: usize,
    pub arena: Vec<Object>,
    pub next_id: u32,
    pub free_list: Ghost<Seq<usize>>,
}

impl Heap {
    /// The heap's invariant: the free list is well linked and holds every
    /// free slot, occupied slots
    /// hold objects of the arena, the young count is at least the number of
    /// young objects in slots, and the two counts together do not exceed
    /// the number of objects allocated.
    pub open spec fn wf(&self) -> bool {
        &&& self.objects@.len() == self.size
        &&& list_wf(self.objects@, self.free_list@, self.free_head)
        &&& forall|s: int| 0 <= s < self.objects@.len() && (#[trigger] self.objects@[s]) is Free ==> self.free_list@.contains(
            s as usize)
        &&& forall|s: int| 0 <= s < self.objects@.len() ==> ((#[trigger] self.objects@[s]) matches Slot::Occupied(o)
            ==> o < self.arena@.len())
        &&& slots_injective(self.objects@)
        &&& self.young_count >= count_young(self.objects@, self.arena@, 0)
        &&& self.young_count + self.old_count <= self.arena@.len()
    }

    /// A heap of `size` slots, all free, linked in order.
    pub fn new(size: usize) -> (res: Heap)
        ensures
            res.wf(),
            res.size == size,
            res.free_list@ == Seq::new(size as nat, |i: int| i as usize),
            res.free_head == (if size == 0 { None::<usize> } else { Some(0usize) }),
            res.arena@.len() == 0,
            res.young_count == 0,
            res.old_count == 0,
    {
        let mut objects: Vec<Slot> = Vec::new();
        let ghost l = Seq::new(size as nat, |i: int| i as usize);
        let mut i: usize = 0;
        while i < size
            invariant
                i <= size,
                l == Seq::new(size as nat, |i: int| i as usize),
                objects@.len() == i,
                forall|k: int| 0 <= k < i ==> objects@[k] == link(l, k),
            decreases size - i,
        {
            objects.push(Slot::Free {
                next: if i + 1 < size { Some(i + 1) } else { None },
                prev: if i > 0 { Some(i - 1) } else { None },
            });
            i = i + 1;
        }
        let heap = Heap {
            size,
            objects,
            free_head: if size == 0 { None } else { Some(0) },
            young_count: 0,
            old_count: 0,
            arena: Vec::new(),
            next_id: 0,
            free_list: Ghost(l),
        };
        proof {
            assert forall|k: int| 0 <= k < heap.objects@.len() implies !is_young_at(heap.objects@, heap.arena@, k) by {
                assert(heap.objects@[k] == link(l, k));
            }
            lemma_count_zero(heap.objects@, heap.arena@, 0);
            assert forall|k: int| 0 <= k < l.len() implies (#[trigger] l[k]) < heap.objects@.len()
                && heap.objects@[l[k] as int] == link(l, k) by {
                assert(l[k] == k);
            }
            assert forall|a: int, b: int| 0 <= a < b < l.len() implies #[trigger] l[a] != #[trigger] l[b] by {
                assert(l[a] == a && l[b] == b);
            }
            assert forall|s: int| 0 <= s < heap.objects@.len() implies !((#[trigger] heap.objects@[s]) is Occupied) by {
                assert(heap.objects@[s] == link(l, s));
            }
            assert forall|s: int| 0 <= s < heap.objects@.len() && (#[trigger] heap.objects@[s]) is Free implies l.contains(
                s as usize) by {
                assert(l[s] == s as usize);
            }
            if size > 0 {
                assert(l[0] == 0);
            }
        }
        heap
    }

    /// Puts object `obj` in the free slot `index`, unlinking it from the
    /// free list.
    pub fn take_slot(&mut self, index: usize, obj: usize)
        requires
            list_wf(old(self).objects@, old(self).free_list@, old(self).free_head),
            old(self).free_list@.contains(index),
        ensures
            list_wf(final(self).objects@, final(self).free_list@, final(self).free_head),
            final(self).free_list@ == old(self).free_list@.remove(old(self).free_list@.index_of(index)),
            final(self).objects@ == unlinked(old(self).objects@, old(self).free_list@,
                old(self).free_list@.index_of(index), obj),
            final(self).objects@.len() == old(self).objects@.len(),
            final(self).objects@[index as int] == Slot::Occupied(obj),
            forall|s: int| 0 <= s < old(self).objects@.len() && s != index && !old(self).free_list@.contains(s as usize)
                ==> #[trigger] final(self).objects@[s] == old(self).objects@[s],
            forall|j: int| 0 <= j < old(self).free_list@.len() && old(self).free_list@[j] != index
                ==> (#[trigger] final(self).objects@[old(self).free_list@[j] as int]) is Free,
            final(self).size == old(self).size,
            final(self).arena == old(self).arena,
            final(self).young_count == old(self).young_count,
            final(self).old_count == old(self).old_count,
            final(self).next_id == old(self).next_id,
    {
        let ghost l = self.free_list@;
        let ghost s0 = self.objects@;
        let ghost p = l.index_of(index);
        assert(0 <= p < l.len() && l[p] == index);
        assert(s0[index as int] == link(l, p));
        let (next, prev) = match self.objects[index] {
            Slot::Free { next, prev } => (next, prev),
            Slot::Occupied(_) => {
                assert(false);
                unreached()
            },
        };
        let ghost s_a = self.objects@;
        match prev {
            Some(pr) => {
                assert(pr == l[p - 1]);
                assert(s0[pr as int] == link(l, p - 1));
                let pr_prev = match self.objects[pr] {
                    Slot::Free { prev: p2, .. } => p2,
                    Slot::Occupied(_) => None,
                };
                self.objects.set(pr, Slot::Free { next, prev: pr_prev });
            },
            None => {
                self.free_head = next;
            },
        }
        match next {
            Some(nx) => {
                assert(nx == l[p + 1]);
                assert(s0[nx as int] == link(l, p + 1));
                proof {
                    if p >= 1 {
                        assert(l[p - 1] != l[p + 1]);
                    }
                }
                let nx_next = match self.objects[nx] {
                    Slot::Free { next: n2, .. } => n2,
                    Slot::Occupied(_) => None,
                };
                self.objects.set(nx, Slot::Free { next: nx_next, prev });
            },
            None => {},
        }
        self.objects.set(index, Slot::Occupied(obj));
        self.free_list = Ghost(l.remove(p));
        proof {
            lemma_unlinked_wf(s0, l, p, obj);
            assert(self.objects@ =~= unlinked(s0, l, p, obj));
        }
    }
}

/// The slots after slot `l[p]` of the free list `l` takes object `obj`.
pub open spec fn unlinked(s0: Seq<Slot>, l: Seq<usize>, p: int, obj: usize) -> Seq<Slot> {
    let nl = l.remove(p);
    let s1 = if p > 0 { s0.update(l[p - 1] as int, link(nl, p - 1)) } else { s0 };
    let s2 = if p + 1 < l.len() { s1.update(l[p + 1] as int, link(nl, p)) } else { s1 };
    s2.update(l[p] as int, Slot::Occupied(obj))
}

/// Unlinking position `p` keeps the free list well linked, and changes no
/// slot outside the list.
pub proof fn lemma_unlinked_wf(s0: Seq<Slot>, l: Seq<usize>, p: int, obj: usize)
    requires
        list_wf(s0, l, if l.len() == 0 { None::<usize> } else { Some(l[0]) }),
        0 <= p < l.len(),
    ensures
        list_wf(unlinked(s0, l, p, obj), l.remove(p), if l.len() == 1 { None::<usize> } else if p == 0 { Some(l[1]) } else {
            Some(l[0])
        }),
        unlinked(s0, l, p, obj).len() == s0.len(),
        forall|s: int| 0 <= s < s0.len() && !l.contains(s as usize) ==> #[trigger] unlinked(s0, l, p, obj)[s] == s0[s],
        forall|j: int| 0 <= j < l.len() && j != p ==> (#[trigger] unlinked(s0, l, p, obj)[l[j] as int]) is Free,
{
    let nl = l.remove(p);
    lemma_unlinked_links(s0, l, p, obj);
    assert forall|j: int| 0 <= j < l.len() && j != p implies (#[trigger] unlinked(s0, l, p, obj)[l[j] as int]) is Free by {
        let j2 = if j < p { j } else { j - 1 };
        assert(nl[j2] == l[j]);
    }
    lemma_remove_distinct(l, p);
    lemma_unlinked_frame(s0, l, p, obj);
    if nl.len() > 0 {
        if p == 0 {
            assert(nl[0] == l[1]);
        } else {
            assert(nl[0] == l[0]);
        }
    }
}

/// After unlinking, every element of the shorter list is linked.
#[verifier::rlimit(40)]
proof fn lemma_unlinked_links(s0: Seq<Slot>, l: Seq<usize>, p: int, obj: usize)
    requires
        list_wf(s0, l, if l.len() == 0 { None::<usize> } else { Some(l[0]) }),
        0 <= p < l.len(),
    ensures
        forall|k: int| 0 <= k < l.remove(p).len() ==> (#[trigger] l.remove(p)[k]) < unlinked(s0, l, p, obj).len()
            && unlinked(s0, l, p, obj)[l.remove(p)[k] as int] == link(l.remove(p), k),
{
    let nl = l.remove(p);
    let s1 = unlinked(s0, l, p, obj);
    assert forall|k: int| 0 <= k < nl.len() implies (#[trigger] nl[k]) < s1.len() && s1[nl[k] as int] == link(nl, k) by {
        let k2 = if k < p { k } else { k + 1 };
        assert(nl[k] == l[k2]);
        assert(l[k2] != l[p]);
        if k != p - 1 && k != p {
            if p > 0 {
                assert(l[k2] != l[p - 1]);
            }
            if p + 1 < l.len() {
                assert(l[k2] != l[p + 1]);
            }
            assert(s0[l[k2] as int] == link(l, k2));
            if k < p - 1 {
                assert(nl[k + 1] == l[k + 1]);
                if k > 0 {
                    assert(nl[k - 1] == l[k - 1]);
                }
            } else {
                if k + 1 < nl.len() {
                    assert(nl[k + 1] == l[k2 + 1]);
                }
                assert(nl[k - 1] == l[k2 - 1]);
            }
            assert(link(nl, k) == link(l, k2));
        } else if k == p {
            if p > 0 {
                assert(l[p + 1] != l[p - 1]);
                assert(nl[k - 1] == l[p - 1]);
            }
            if k + 1 < nl.len() {
                assert(nl[k + 1] == l[p + 2]);
            }
        } else {
            if k > 0 {
                assert(nl[k - 1] == l[k - 1]);
            }
            if k + 1 < nl.len() {
                assert(nl[k + 1] == l[p + 1]);
            }
        }
    }
}

/// Removing an element keeps a list without repetitions so.
proof fn lemma_remove_distinct(l: Seq<usize>, p: int)
    requires
        0 <= p < l.len(),
        forall|a: int, b: int| 0 <= a < b < l.len() ==> #[trigger] l[a] != #[trigger] l[b],
    ensures
        forall|a: int, b: int| 0 <= a < b < l.remove(p).len() ==> #[trigger] l.remove(p)[a] != #[trigger] l.remove(p)[b],
{
    let nl = l.remove(p);
    assert forall|a: int, b: int| 0 <= a < b < nl.len() implies #[trigger] nl[a] != #[trigger] nl[b] by {
        let a2 = if a < p { a } else { a + 1 };
        let b2 = if b < p { b } else { b + 1 };
        assert(nl[a] == l[a2] && nl[b] == l[b2]);
    }
}

/// Unlinking changes no slot outside the free list.
proof fn lemma_unlinked_frame(s0: Seq<Slot>, l: Seq<usize>, p: int, obj: usize)
    requires
        0 <= p < l.len(),
        forall|k: int| 0 <= k < l.len() ==> (#[trigger] l[k]) < s0.len(),
    ensures
        unlinked(s0, l, p, obj).len() == s0.len(),
        forall|s: int| 0 <= s < s0.len() && !l.contains(s as usize) ==> #[trigger] unlinked(s0, l, p, obj)[s] == s0[s],
{
    assert forall|s: int| 0 <= s < s0.len() && !l.contains(s as usize) implies #[trigger] unlinked(s0, l, p, obj)[s]
        == s0[s] by {
        assert(l[p] != s);
        if p > 0 {
            assert(l[p - 1] != s);
        }
        if p + 1 < l.len() {
            assert(l[p + 1] != s);
        }
    }
}

/// A heap whose slots hold no young object counts none.
pub proof fn lemma_count_zero(slots: Seq<Slot>, arena: Seq<Object>, lo: int)
    requires
        0 <= lo,
        forall|k: int| lo <= k < slots.len() ==> !is_young_at(slots, arena, k),
    ensures
        count_young(slots, arena, lo) == 0,
    decreases slots.len() - lo,
{
    if lo < slots.len() {
        lemma_count_zero(slots, arena, lo + 1);
    }
}

/// The positions of the objects in `slots` of generation `g`, in slot
/// order.
pub open spec fn generation_objects(slots: Seq<Slot>, arena: Seq<Object>, g: u8) -> Seq<usize>
    decreases slots.len(),
{
    if slots.len() == 0 {
        Seq::empty()
    } else {
        let rest = generation_objects(slots.drop_last(), arena, g);
        match slots.last() {
            Slot::Occupied(o) => if o < arena.len() && arena[o as int].header.generation == g {
                rest.push(o)
            } else {
                rest
            },
            _ => rest,
        }
    }
}

impl Heap {
    /// The objects in slots, the young ones and the old ones, in slot
    /// order.
    pub fn objects_by_generation(&self) -> (res: (Vec<usize>, Vec<usize>))
        ensures
            res.0@ == generation_objects(self.objects@, self.arena@, 0),
            res.1@ == generation_objects(self.objects@, self.arena@, 1),
    {
        let mut young: Vec<usize> = Vec::new();
        let mut old: Vec<usize> = Vec::new();
        let mut i: usize = 0;
        while i < self.objects.len()
            invariant
                i <= self.objects@.len(),
                young@ == generation_objects(self.objects@.take(i as int), self.arena@, 0),
                old@ == generation_objects(self.objects@.take(i as int), self.arena@, 1),
            decreases self.objects@.len() - i,
        {
            assert(self.objects@.take(i + 1).drop_last() =~= self.objects@.take(i as int));
            if let Slot::Occupied(o) = self.objects[i] {
                if o < self.arena.len() {
                    if self.arena[o].header.generation == 0 {
                        young.push(o);
                    } else if self.arena[o].header.generation == 1 {
                        old.push(o);
                    }
                }
            }
            i = i + 1;
        }
        assert(self.objects@.take(i as int) =~= self.objects@);
        (young, old)
    }
}

/// Taking the free slot `idx` keeps every free slot on the free list.
pub proof fn lemma_take_complete(s1: Seq<Slot>, s2: Seq<Slot>, l: Seq<usize>, idx: usize)
    requires
        l.contains(idx),
        forall|a: int, b: int| 0 <= a < b < l.len() ==> #[trigger] l[a] != #[trigger] l[b],
        forall|s: int| 0 <= s < s1.len() && (#[trigger] s1[s]) is Free ==> l.contains(s as usize),
        s1.len() <= usize::MAX,
        s2.len() == s1.len(),
        s2[idx as int] is Occupied,
        forall|s: int| 0 <= s < s1.len() && s != idx && !l.contains(s as usize) ==> #[trigger] s2[s] == s1[s],
    ensures
        forall|s: int| 0 <= s < s2.len() && (#[trigger] s2[s]) is Free ==> l.remove(l.index_of(idx)).contains(s as usize),
{
    let p = l.index_of(idx);
    assert(0 <= p < l.len() && l[p] == idx);
    let nl = l.remove(p);
    assert forall|s: int| 0 <= s < s2.len() && (#[trigger] s2[s]) is Free implies nl.contains(s as usize) by {
        if !l.contains(s as usize) {
            assert(s2[s] == s1[s]);
        }
        assert(s != idx);
        let j = choose|j: int| 0 <= j < l.len() && l[j] == s as usize;
        assert(j != p);
        if j < p {
            assert(nl[j] == l[j]);
        } else {
            assert(nl[j - 1] == l[j]);
        }
    }
}

} // verus!
