//! The collector: marking from the frames, and the minor and major sweeps.

use vstd::prelude::*;
use crate::heap::{count_young, is_young_at, lemma_count_point, lemma_count_zero, link, list_wf, slots_injective, Heap, Slot};
use crate::object::{contents, Object, ObjectHeader};
use crate::runtime::{Frame, Value};

verus! {

/// Whether a frame holds a reference to `c` in an operand or a local.
pub open spec fn frame_holds(f: Frame, c: usize) -> bool {
    ||| exists|j: int| 0 <= j < f.operands@.len() && f.operands@[j] == Value::Reference(Some(c))
    ||| exists|j: int| 0 <= j < f.locals@.len() && f.locals@[j] == Value::Reference(Some(c))
}

/// Whether one of the frames holds a reference to `c`.
pub open spec fn is_root(frames: Seq<Frame>, c: usize) -> bool {
    exists|f: int| 0 <= f < frames.len() && #[trigger] frame_holds(frames[f], c)
}

/// Whether object `o` holds a reference to `c` in a field or an element.
pub open spec fn holds_ref(o: Object, c: usize) -> bool {
    exists|j: int| 0 <= j < contents(o).len() && contents(o)[j] == Value::Reference(Some(c))
}

/// Whether `path` is a chain of references from the frames: a frame holds
/// its first object, and each of its objects holds the next.
pub open spec fn chain(frames: Seq<Frame>, arena: Seq<Object>, path: Seq<usize>) -> bool {
    &&& path.len() > 0
    &&& is_root(frames, path[0])
    &&& forall|k: int| 0 <= k < path.len() - 1 ==> (#[trigger] path[k]) < arena.len() && holds_ref(arena[path[k] as int], path[k + 1])
}

/// Whether some chain of references from the frames, through any objects,
/// ends at `c`.
pub open spec fn reachable(frames: Seq<Frame>, arena: Seq<Object>, c: usize) -> bool {
    exists|path: Seq<usize>| #[trigger] chain(frames, arena, path) && path.last() == c
}

/// An object that a frame holds is reachable.
proof fn lemma_root_reachable(frames: Seq<Frame>, arena: Seq<Object>, c: usize)
    requires
        is_root(frames, c),
    ensures
        reachable(frames, arena, c),
{
    assert(chain(frames, arena, seq![c]));
}

/// An object that a reachable object holds is reachable.
proof fn lemma_step_reachable(frames: Seq<Frame>, arena: Seq<Object>, p: usize, c: usize)
    requires
        reachable(frames, arena, p),
        p < arena.len(),
        holds_ref(arena[p as int], c),
    ensures
        reachable(frames, arena, c),
{
    let path = choose|path: Seq<usize>| #[trigger] chain(frames, arena, path) && path.last() == p;
    let longer = path.push(c);
    assert forall|k: int| 0 <= k < longer.len() - 1 implies (#[trigger] longer[k]) < arena.len()
        && holds_ref(arena[longer[k] as int], longer[k + 1]) by {
        if k < path.len() - 1 {
            assert(longer[k] == path[k] && longer[k + 1] == path[k + 1]);
        }
    }
    assert(chain(frames, arena, longer));
}

/// Reachability looks at what objects hold, not at their marks.
proof fn lemma_reachable_marks(frames: Seq<Frame>, a: Seq<Object>, b: Seq<Object>, c: usize)
    requires
        same_but_marks(a, b),
        reachable(frames, a, c),
    ensures
        reachable(frames, b, c),
{
    let path = choose|path: Seq<usize>| #[trigger] chain(frames, a, path) && path.last() == c;
    assert forall|k: int| 0 <= k < path.len() - 1 implies (#[trigger] path[k]) < b.len()
        && holds_ref(b[path[k] as int], path[k + 1]) by {
        assert(b[path[k] as int].kind == a[path[k] as int].kind);
    }
    assert(chain(frames, b, path));
}

/// Reachability carries over to objects with the same contents.
pub proof fn lemma_reachable_same_kinds(frames: Seq<Frame>, a: Seq<Object>, b: Seq<Object>, c: usize)
    requires
        a.len() == b.len(),
        forall|o: int| 0 <= o < a.len() ==> (#[trigger] b[o]).kind == a[o].kind,
        reachable(frames, a, c),
    ensures
        reachable(frames, b, c),
{
    let path = choose|path: Seq<usize>| #[trigger] chain(frames, a, path) && path.last() == c;
    assert forall|k: int| 0 <= k < path.len() - 1 implies (#[trigger] path[k]) < b.len()
        && holds_ref(b[path[k] as int], path[k + 1]) by {
        assert(b[path[k] as int].kind == a[path[k] as int].kind);
    }
    assert(chain(frames, b, path));
}

/// Whether object `c` exists and is marked.
pub open spec fn marked(arena: Seq<Object>, c: usize) -> bool {
    c < arena.len() && arena[c as int].header.mark
}

/// Whether an object occupies one of the slots.
pub open spec fn in_slot(slots: Seq<Slot>, o: usize) -> bool {
    exists|s: int| 0 <= s < slots.len() && slots[s] == Slot::Occupied(o)
}

/// Whether `b` is `a` with marks changed at most.
pub open spec fn same_but_marks(a: Seq<Object>, b: Seq<Object>) -> bool {
    &&& a.len() == b.len()
    &&& forall|o: int| 0 <= o < a.len() ==> {
        &&& (#[trigger] b[o]).class == a[o].class
        &&& b[o].kind == a[o].kind
        &&& b[o].header.generation == a[o].header.generation
        &&& b[o].header.ref_count == a[o].header.ref_count
        &&& b[o].header.object_id == a[o].header.object_id
    }
}

/// Whether `b` is `a` but for its mark.
pub open spec fn same_object_but_mark(b: Object, a: Object) -> bool {
    &&& b.class == a.class
    &&& b.kind == a.kind
    &&& b.header.generation == a.header.generation
    &&& b.header.ref_count == a.header.ref_count
    &&& b.header.object_id == a.header.object_id
}

/// The number of unmarked objects from position `lo` on.
pub open spec fn count_unmarked(arena: Seq<Object>, lo: int) -> nat
    decreases arena.len() - lo,
{
    if lo < 0 || lo >= arena.len() {
        0
    } else {
        (if arena[lo].header.mark { 0nat } else { 1nat }) + count_unmarked(arena, lo + 1)
    }
}

/// Marking one unmarked object, and changing nothing else of the marks,
/// lowers the number of unmarked objects by one.
proof fn lemma_unmarked_point(a: Seq<Object>, b: Seq<Object>, lo: int, k: int)
    requires
        a.len() == b.len(),
        0 <= lo <= k < a.len(),
        !a[k].header.mark,
        b[k].header.mark,
        forall|o: int| lo <= o < a.len() && o != k ==> b[o].header.mark == a[o].header.mark,
    ensures
        count_unmarked(b, lo) + 1 == count_unmarked(a, lo),
    decreases k - lo,
{
    if lo < k {
        lemma_unmarked_point(a, b, lo + 1, k);
    } else {
        lemma_unmarked_same(a, b, lo + 1);
    }
}

/// Equal marks give equal counts.
proof fn lemma_unmarked_same(a: Seq<Object>, b: Seq<Object>, lo: int)
    requires
        a.len() == b.len(),
        0 <= lo,
        forall|o: int| lo <= o < a.len() ==> b[o].header.mark == a[o].header.mark,
    ensures
        count_unmarked(b, lo) == count_unmarked(a, lo),
    decreases a.len() - lo,
{
    if lo < a.len() {
        lemma_unmarked_same(a, b, lo + 1);
    }
}

/// Whether the marks in `arena` are what marking from the frames gives,
/// where `pre` is the arena when marking began: the referenced objects that
/// the frames hold are marked, and every object that marking marked has its
/// referenced objects marked.
pub open spec fn marks_closed(pre: Seq<Object>, arena: Seq<Object>, frames: Seq<Frame>) -> bool {
    &&& forall|c: usize| #[trigger] is_root(frames, c) && c < arena.len() ==> marked(arena, c)
    &&& forall|o: usize, c: usize| #[trigger] marked(arena, o) && !marked(pre, o) && #[trigger] holds_ref(arena[o as int], c)
        && c < arena.len() ==> marked(arena, c)
}

impl Heap {
    /// Sets the mark of object `o`.
    fn set_mark(&mut self, o: usize, m: bool)
        requires
            o < old(self).arena@.len(),
        ensures
            final(self).arena@ == old(self).arena@.update(o as int, Object {
                header: ObjectHeader { mark: m, ..old(self).arena@[o as int].header },
                ..old(self).arena@[o as int]
            }),
            final(self).objects == old(self).objects,
            final(self).size == old(self).size,
            final(self).free_head == old(self).free_head,
            final(self).free_list == old(self).free_list,
            final(self).young_count == old(self).young_count,
            final(self).old_count == old(self).old_count,
            final(self).next_id == old(self).next_id,
    {
        self.arena[o].header.mark = m;
    }

    /// Clears the marks of the objects that occupy slots.
    fn clear_marks(&mut self)
        requires
            forall|s: int| 0 <= s < old(self).objects@.len() ==> ((#[trigger] old(self).objects@[s]) matches Slot::Occupied(o)
                ==> o < old(self).arena@.len()),
        ensures
            same_but_marks(old(self).arena@, final(self).arena@),
            forall|o: usize| #[trigger] in_slot(old(self).objects@, o) ==> !marked(final(self).arena@, o),
            forall|o: usize| !in_slot(old(self).objects@, o) && o < old(self).arena@.len() ==> (#[trigger] final(self).arena@[o as int]).header.mark
                == old(self).arena@[o as int].header.mark,
            final(self).objects == old(self).objects,
            final(self).size == old(self).size,
            final(self).free_head == old(self).free_head,
            final(self).free_list == old(self).free_list,
            final(self).young_count == old(self).young_count,
            final(self).old_count == old(self).old_count,
            final(self).next_id == old(self).next_id,
    {
        let mut i: usize = 0;
        while i < self.objects.len()
            invariant
                i <= self.objects@.len(),
                self.objects == old(self).objects,
                self.size == old(self).size,
                self.free_head == old(self).free_head,
                self.free_list == old(self).free_list,
                self.young_count == old(self).young_count,
                self.old_count == old(self).old_count,
                self.next_id == old(self).next_id,
                forall|s: int| 0 <= s < self.objects@.len() ==> ((#[trigger] self.objects@[s]) matches Slot::Occupied(o)
                    ==> o < self.arena@.len()),
                same_but_marks(old(self).arena@, self.arena@),
                forall|s: int| 0 <= s < i ==> ((#[trigger] self.objects@[s]) matches Slot::Occupied(o) ==> !marked(self.arena@, o)),
                forall|o: usize| o < self.arena@.len() && !(exists|s: int| 0 <= s < i && self.objects@[s] == Slot::Occupied(o))
                    ==> (#[trigger] self.arena@[o as int]).header.mark == old(self).arena@[o as int].header.mark,
            decreases self.objects@.len() - i,
        {
            match self.objects[i] {
                Slot::Occupied(o) => {
                    self.set_mark(o, false);
                    assert(self.objects@[i as int] == Slot::Occupied(o));
                },
                Slot::Free { .. } => {},
            }
            i = i + 1;
        }
        proof {
            assert forall|o: usize| #[trigger] in_slot(old(self).objects@, o) implies !marked(self.arena@, o) by {
                let s = choose|s: int| 0 <= s < old(self).objects@.len() && old(self).objects@[s] == Slot::Occupied(o);
                assert(self.objects@[s] == Slot::Occupied(o));
            }
        }
    }

    /// Marks every object that the frames reach. Marks of objects that
    /// occupy slots are cleared first; an object found already marked is
    /// not followed further.
    pub fn mark_from_roots(&mut self, frames: &Vec<Frame>)
        requires
            forall|s: int| 0 <= s < old(self).objects@.len() ==> ((#[trigger] old(self).objects@[s]) matches Slot::Occupied(o)
                ==> o < old(self).arena@.len()),
        ensures
            same_but_marks(old(self).arena@, final(self).arena@),
            exists|pre: Seq<Object>| {
                &&& same_but_marks(old(self).arena@, pre)
                &&& forall|o: usize| #[trigger] in_slot(old(self).objects@, o) ==> !marked(pre, o)
                &&& forall|o: usize| #[trigger] marked(pre, o) ==> marked(final(self).arena@, o)
                &&& marks_closed(pre, final(self).arena@, frames@)
                &&& forall|o: usize| #[trigger] marked(final(self).arena@, o) && !marked(pre, o) ==> reachable(frames@, pre, o)
            },
            final(self).objects == old(self).objects,
            final(self).size == old(self).size,
            final(self).free_head == old(self).free_head,
            final(self).free_list == old(self).free_list,
            final(self).young_count == old(self).young_count,
            final(self).old_count == old(self).old_count,
            final(self).next_id == old(self).next_id,
    {
        self.clear_marks();
        let ghost pre = self.arena@;
        let mut work: Vec<usize> = Vec::new();
        let mut f: usize = 0;
        while f < frames.len()
            invariant
                f <= frames@.len(),
                forall|c: usize| (exists|g: int| 0 <= g < f && #[trigger] frame_holds(frames@[g], c)) ==> work@.contains(c),
                forall|k: int| 0 <= k < work@.len() ==> is_root(frames@, #[trigger] work@[k]),
            decreases frames@.len() - f,
        {
            let ghost w0 = work@;
            collect_refs(&frames[f].operands, &mut work);
            let ghost w1 = work@;
            collect_refs(&frames[f].locals, &mut work);
            proof {
                assert forall|k: int| 0 <= k < work@.len() implies is_root(frames@, #[trigger] work@[k]) by {
                    let c = work@[k];
                    if k < w0.len() {
                        assert(w1[k] == w0[k]);
                    } else if k < w1.len() {
                        assert(w1[k] == c);
                        assert(frame_holds(frames@[f as int], c));
                    } else {
                        assert(frame_holds(frames@[f as int], c));
                    }
                }
                assert forall|c: usize| (exists|g: int| 0 <= g < f + 1 && #[trigger] frame_holds(frames@[g], c)) implies work@.contains(c) by {
                    let g = choose|g: int| 0 <= g < f + 1 && #[trigger] frame_holds(frames@[g], c);
                    if g < f {
                        assert(w0.contains(c));
                        let k = choose|k: int| 0 <= k < w0.len() && w0[k] == c;
                        assert(w1[k] == c);
                        assert(work@[k] == c);
                    } else if exists|j: int| 0 <= j < frames@[g].operands@.len() && frames@[g].operands@[j] == Value::Reference(Some(c)) {
                        assert(w1.contains(c));
                        let k = choose|k: int| 0 <= k < w1.len() && w1[k] == c;
                        assert(work@[k] == c);
                    }
                }
            }
            f = f + 1;
        }
        let n = self.arena.len();
        proof {
            assert forall|k: int| 0 <= k < work@.len() implies reachable(frames@, pre, #[trigger] work@[k]) by {
                lemma_root_reachable(frames@, pre, work@[k]);
            }
        }
        loop
            invariant
                n == self.arena@.len(),
                same_but_marks(pre, self.arena@),
                forall|o: usize| #[trigger] marked(pre, o) ==> marked(self.arena@, o),
                self.objects == old(self).objects,
                self.size == old(self).size,
                self.free_head == old(self).free_head,
                self.free_list == old(self).free_list,
                self.young_count == old(self).young_count,
                self.old_count == old(self).old_count,
                self.next_id == old(self).next_id,
                forall|c: usize| #[trigger] is_root(frames@, c) && c < n ==> marked(self.arena@, c) || work@.contains(c),
                forall|o: usize, c: usize| #[trigger] marked(self.arena@, o) && !marked(pre, o) && #[trigger] holds_ref(
                    self.arena@[o as int], c) && c < n ==> marked(self.arena@, c) || work@.contains(c),
                forall|k: int| 0 <= k < work@.len() ==> reachable(frames@, pre, #[trigger] work@[k]),
                forall|o: usize| #[trigger] marked(self.arena@, o) && !marked(pre, o) ==> reachable(frames@, pre, o),
            ensures
                work@.len() == 0,
            decreases count_unmarked(self.arena@, 0), work@.len(),
        {
            let ghost w = work@;
            let ghost a0 = self.arena@;
            let p = match work.pop() {
                Some(p) => p,
                None => {
                    break;
                },
            };
            assert forall|c: usize| w.contains(c) && c != p implies work@.contains(c) by {
                let k = choose|k: int| 0 <= k < w.len() && w[k] == c;
                assert(k < w.len() - 1);
                assert(work@[k] == c);
            }
            assert(reachable(frames@, pre, p)) by {
                assert(w[w.len() - 1] == p);
            }
            assert forall|k: int| 0 <= k < work@.len() implies reachable(frames@, pre, #[trigger] work@[k]) by {
                assert(work@[k] == w[k]);
            }
            if p < n && !self.arena[p].header.mark {
                self.set_mark(p, true);
                proof {
                    lemma_unmarked_point(a0, self.arena@, 0, p as int);
                }
                let ghost a1 = self.arena@;
                let ghost w2 = work@;
                let count = self.arena[p].value_count();
                let mut j: usize = 0;
                while j < count
                    invariant
                        p < n,
                        n == self.arena@.len(),
                        self.arena@ == a1,
                        count == contents(a1[p as int]).len(),
                        j <= count,
                        work@.len() >= w2.len(),
                        forall|k: int| 0 <= k < w2.len() ==> work@[k] == w2[k],
                        forall|c: usize| (exists|jj: int| 0 <= jj < j && contents(a1[p as int])[jj] == Value::Reference(
                            Some(c))) ==> #[trigger] work@.contains(c),
                        forall|k: int| w2.len() <= k < work@.len() ==> exists|jj: int| 0 <= jj < j
                            && contents(a1[p as int])[jj] == Value::Reference(Some(#[trigger] work@[k])),
                    decreases count - j,
                {
                    let ghost wb = work@;
                    let v = self.arena[p].value_at(j);
                    if let Value::Reference(Some(c)) = v {
                        work.push(c);
                        assert(work@[work@.len() - 1] == c);
                    }
                    proof {
                        assert forall|c: usize| (exists|jj: int| 0 <= jj < j + 1 && contents(a1[p as int])[jj]
                            == Value::Reference(Some(c))) implies #[trigger] work@.contains(c) by {
                            let jj = choose|jj: int| 0 <= jj < j + 1 && contents(a1[p as int])[jj] == Value::Reference(Some(c));
                            if jj < j {
                                assert(wb.contains(c));
                                let k = choose|k: int| 0 <= k < wb.len() && wb[k] == c;
                                assert(work@[k] == c);
                            }
                        }
                    }
                    j = j + 1;
                }
                proof {
                    assert forall|k: int| 0 <= k < work@.len() implies reachable(frames@, pre, #[trigger] work@[k]) by {
                        if k < w2.len() {
                            assert(work@[k] == w2[k]);
                        } else {
                            let c = work@[k];
                            assert(holds_ref(a1[p as int], c));
                            assert(pre[p as int].kind == a1[p as int].kind);
                            lemma_step_reachable(frames@, pre, p, c);
                        }
                    }
                    assert forall|c: usize| w2.contains(c) implies work@.contains(c) by {
                        let k = choose|k: int| 0 <= k < w2.len() && w2[k] == c;
                        assert(work@[k] == c);
                    }
                    assert forall|c: usize| holds_ref(a1[p as int], c) implies work@.contains(c) by {
                        let jj = choose|jj: int| 0 <= jj < contents(a1[p as int]).len() && contents(a1[p as int])[jj]
                            == Value::Reference(Some(c));
                        assert(exists|jj: int| 0 <= jj < count && contents(a1[p as int])[jj] == Value::Reference(Some(c)));
                    }
                    assert forall|o: usize| #[trigger] marked(pre, o) implies marked(self.arena@, o) by {
                        assert(marked(a0, o));
                    }
                    assert forall|o: usize| #[trigger] marked(self.arena@, o) && !marked(pre, o) implies reachable(frames@, pre, o) by {
                        if o != p {
                            assert(marked(a0, o));
                        }
                    }
                    assert forall|o: usize, c: usize| #[trigger] marked(self.arena@, o) && !marked(pre, o)
                        && #[trigger] holds_ref(self.arena@[o as int], c) && c < n implies marked(self.arena@, c)
                        || work@.contains(c) by {
                        if o != p {
                            assert(marked(a0, o));
                            assert(a0[o as int].kind == self.arena@[o as int].kind);
                            assert(holds_ref(a0[o as int], c));
                            if c != p {
                                if !marked(a0, c) {
                                    assert(w.contains(c));
                                }
                            }
                        } else {
                            assert(holds_ref(a1[p as int], c));
                        }
                    }
                    assert forall|c: usize| #[trigger] is_root(frames@, c) && c < n implies marked(self.arena@, c)
                        || work@.contains(c) by {
                        if c != p && !marked(a0, c) {
                            assert(w.contains(c));
                        }
                    }
                }
            } else {
                proof {
                    assert forall|o: usize, c: usize| #[trigger] marked(self.arena@, o) && !marked(pre, o)
                        && #[trigger] holds_ref(self.arena@[o as int], c) && c < n implies marked(self.arena@, c)
                        || work@.contains(c) by {
                        if c != p && !marked(a0, c) {
                            assert(w.contains(c));
                        }
                    }
                    assert forall|c: usize| #[trigger] is_root(frames@, c) && c < n implies marked(self.arena@, c)
                        || work@.contains(c) by {
                        if c != p && !marked(a0, c) {
                            assert(w.contains(c));
                        }
                    }
                }
            }
        }
        proof {
            assert(same_but_marks(old(self).arena@, self.arena@));
            assert(marks_closed(pre, self.arena@, frames@));
        }
    }
}

/// Appends to `work` the object of every reference in `values`.
fn collect_refs(values: &Vec<Value>, work: &mut Vec<usize>)
    ensures
        final(work)@.len() >= old(work)@.len(),
        forall|k: int| 0 <= k < old(work)@.len() ==> final(work)@[k] == old(work)@[k],
        forall|c: usize| (exists|j: int| 0 <= j < values@.len() && values@[j] == Value::Reference(Some(c)))
            ==> #[trigger] final(work)@.contains(c),
        forall|k: int| old(work)@.len() <= k < final(work)@.len() ==> exists|j: int| 0 <= j < values@.len()
            && values@[j] == Value::Reference(Some(#[trigger] final(work)@[k])),
{
    let ghost w0 = work@;
    let mut i: usize = 0;
    while i < values.len()
        invariant
            i <= values@.len(),
            work@.len() >= w0.len(),
            forall|k: int| 0 <= k < w0.len() ==> work@[k] == w0[k],
            forall|c: usize| (exists|j: int| 0 <= j < i && values@[j] == Value::Reference(Some(c)))
                ==> #[trigger] work@.contains(c),
            forall|k: int| w0.len() <= k < work@.len() ==> exists|j: int| 0 <= j < i
                && values@[j] == Value::Reference(Some(#[trigger] work@[k])),
        decreases values@.len() - i,
    {
        let ghost wb = work@;
        if let Value::Reference(Some(c)) = values[i] {
            work.push(c);
            assert(work@[work@.len() - 1] == c);
        }
        proof {
            assert forall|c: usize| (exists|j: int| 0 <= j < i + 1 && values@[j] == Value::Reference(Some(c)))
                implies #[trigger] work@.contains(c) by {
                let j = choose|j: int| 0 <= j < i + 1 && values@[j] == Value::Reference(Some(c));
                if j < i {
                    assert(wb.contains(c));
                    let k = choose|k: int| 0 <= k < wb.len() && wb[k] == c;
                    assert(work@[k] == c);
                }
            }
        }
        i = i + 1;
    }
}

/// Whether the sweep frees slot `k`: it holds an unmarked object, of the
/// young generation for a minor sweep.
pub open spec fn frees(slots: Seq<Slot>, arena: Seq<Object>, minor: bool, k: int) -> bool {
    slots[k] matches Slot::Occupied(o) && o < arena.len() && !arena[o as int].header.mark
        && (minor ==> arena[o as int].header.generation == 0)
}

/// Whether the sweep links slot `k` into the new free list: it frees it,
/// or it was free already.
pub open spec fn relinks(slots: Seq<Slot>, arena: Seq<Object>, minor: bool, k: int) -> bool {
    frees(slots, arena, minor, k) || (0 <= k < slots.len() && slots[k] is Free)
}

/// The slots below `n` that the sweep links, in increasing order.
pub open spec fn freed_slots(slots: Seq<Slot>, arena: Seq<Object>, minor: bool, n: int) -> Seq<usize>
    decreases n,
{
    if n <= 0 {
        Seq::empty()
    } else {
        let r = freed_slots(slots, arena, minor, n - 1);
        if relinks(slots, arena, minor, n - 1) { r.push((n - 1) as usize) } else { r }
    }
}

/// Whether slot `k` holds a marked young object: a minor sweep promotes it.
pub open spec fn promotes(slots: Seq<Slot>, arena: Seq<Object>, k: int) -> bool {
    is_young_at(slots, arena, k) && (slots[k] matches Slot::Occupied(o) && arena[o as int].header.mark)
}

/// The number of slots from `lo` on that hold marked young objects.
pub open spec fn count_promoted(slots: Seq<Slot>, arena: Seq<Object>, lo: int) -> nat
    decreases slots.len() - lo,
{
    if lo < 0 || lo >= slots.len() {
        0
    } else {
        (if promotes(slots, arena, lo) { 1nat } else { 0nat }) + count_promoted(slots, arena, lo + 1)
    }
}

/// The number of slots from `lo` on that held young objects in `slots` and
/// are still occupied in `after`.
pub open spec fn count_kept_young(slots: Seq<Slot>, arena: Seq<Object>, after: Seq<Slot>, lo: int) -> nat
    decreases slots.len() - lo,
{
    if lo < 0 || lo >= slots.len() {
        0
    } else {
        (if is_young_at(slots, arena, lo) && after[lo] is Occupied { 1nat } else { 0nat }) + count_kept_young(slots, arena, after,
            lo + 1)
    }
}

/// Counting promoted slots is counting the young slots kept, where a slot
/// promotes exactly when it held a young object and is kept.
proof fn lemma_promoted_kept(slots: Seq<Slot>, marked_arena: Seq<Object>, arena: Seq<Object>, after: Seq<Slot>, lo: int)
    requires
        0 <= lo,
        forall|k: int| lo <= k < slots.len() ==> promotes(slots, marked_arena, k) == (is_young_at(slots, arena, k)
            && after[k] is Occupied),
    ensures
        count_promoted(slots, marked_arena, lo) == count_kept_young(slots, arena, after, lo),
    decreases slots.len() - lo,
{
    if lo < slots.len() {
        lemma_promoted_kept(slots, marked_arena, arena, after, lo + 1);
    }
}

/// No more slots promote than hold young objects.
proof fn lemma_promoted_le_young(slots: Seq<Slot>, arena: Seq<Object>, lo: int)
    requires
        0 <= lo,
    ensures
        count_promoted(slots, arena, lo) <= count_young(slots, arena, lo),
    decreases slots.len() - lo,
{
    if lo < slots.len() {
        lemma_promoted_le_young(slots, arena, lo + 1);
    }
}

/// Whether a minor sweep promotes object `o`: it is young, marked and in a
/// slot.
pub open spec fn promoted_object(slots: Seq<Slot>, arena: Seq<Object>, o: usize) -> bool {
    o < arena.len() && arena[o as int].header.generation == 0 && arena[o as int].header.mark && in_slot(slots, o)
}

/// The object `o` after a minor sweep of `slots`.
pub open spec fn after_minor(slots: Seq<Slot>, arena: Seq<Object>, o: int) -> Object {
    if promoted_object(slots, arena, o as usize) {
        Object { header: ObjectHeader { generation: 1, ..arena[o].header }, ..arena[o] }
    } else {
        arena[o]
    }
}

/// The elements of `freed_slots` are below `n`, increasing, and each is a
/// freed slot; every freed slot below `n` is one of them.
proof fn lemma_freed_slots(slots: Seq<Slot>, arena: Seq<Object>, minor: bool, n: int)
    requires
        0 <= n <= slots.len(),
        slots.len() <= usize::MAX,
    ensures
        forall|k: int| 0 <= k < freed_slots(slots, arena, minor, n).len() ==> (#[trigger] freed_slots(slots, arena, minor, n)[k]) < n
            && relinks(slots, arena, minor, freed_slots(slots, arena, minor, n)[k] as int),
        forall|a: int, b: int| 0 <= a < b < freed_slots(slots, arena, minor, n).len() ==> #[trigger] freed_slots(slots, arena, minor, n)[a]
            < #[trigger] freed_slots(slots, arena, minor, n)[b],
        forall|k: int| 0 <= k < n && relinks(slots, arena, minor, k) ==> #[trigger] freed_slots(slots, arena, minor, n).contains(k as usize),
    decreases n,
{
    if n > 0 {
        lemma_freed_slots(slots, arena, minor, n - 1);
        let r = freed_slots(slots, arena, minor, n - 1);
        let f = freed_slots(slots, arena, minor, n);
        if relinks(slots, arena, minor, n - 1) {
            assert(f == r.push((n - 1) as usize));
            assert forall|k: int| 0 <= k < f.len() implies (#[trigger] f[k]) < n && relinks(slots, arena, minor, f[k] as int) by {
                if k < r.len() {
                    assert(f[k] == r[k]);
                }
            }
            assert forall|a: int, b: int| 0 <= a < b < f.len() implies #[trigger] f[a] < #[trigger] f[b] by {
                assert(f[a] == r[a]);
                if b < r.len() {
                    assert(f[b] == r[b]);
                }
            }
        } else {
            assert(f == r);
        }
        assert forall|k: int| 0 <= k < n && relinks(slots, arena, minor, k) implies #[trigger] f.contains(k as usize) by {
            if k < n - 1 {
                assert(r.contains(k as usize));
                let j = choose|j: int| 0 <= j < r.len() && r[j] == k as usize;
                assert(f[j] == k as usize);
            } else {
                assert(f[r.len() as int] == k as usize);
            }
        }
    }
}

/// Appending slot `i` to the end of a well linked free list `nl`, by
/// making it free with the last element as its predecessor and making that
/// element point to it, gives a well linked list.
proof fn lemma_append_free(before: Seq<Slot>, after: Seq<Slot>, nl: Seq<usize>, i: int)
    requires
        0 <= i < before.len(),
        i <= usize::MAX,
        after.len() == before.len(),
        forall|k: int| 0 <= k < nl.len() ==> (#[trigger] nl[k]) < i && before[nl[k] as int] == link(nl, k),
        forall|a: int, b: int| 0 <= a < b < nl.len() ==> #[trigger] nl[a] < #[trigger] nl[b],
        nl.len() == 0 ==> after == before.update(i, Slot::Free { next: None, prev: None }),
        nl.len() > 0 ==> after == before.update(i, Slot::Free { next: None, prev: Some(nl.last()) }).update(
            nl.last() as int, Slot::Free { next: Some(i as usize), prev: if nl.len() > 1 { Some(nl[nl.len() - 2]) } else { None } }),
    ensures
        forall|k: int| 0 <= k < nl.push(i as usize).len() ==> (#[trigger] nl.push(i as usize)[k]) < i + 1
            && after[nl.push(i as usize)[k] as int] == link(nl.push(i as usize), k),
        forall|a: int, b: int| 0 <= a < b < nl.push(i as usize).len() ==> #[trigger] nl.push(i as usize)[a]
            < #[trigger] nl.push(i as usize)[b],
{
    let nl2 = nl.push(i as usize);
    assert forall|k: int| 0 <= k < nl2.len() implies (#[trigger] nl2[k]) < i + 1 && after[nl2[k] as int] == link(nl2, k) by {
        lemma_append_one(before, after, nl, i, k);
    }
    assert forall|a: int, b: int| 0 <= a < b < nl2.len() implies #[trigger] nl2[a] < #[trigger] nl2[b] by {
        assert(nl2[a] == nl[a]);
        if b < nl.len() {
            assert(nl2[b] == nl[b]);
        }
    }
}

/// One position of the list that `lemma_append_free` builds is linked.
#[verifier::rlimit(40)]
proof fn lemma_append_one(before: Seq<Slot>, after: Seq<Slot>, nl: Seq<usize>, i: int, k: int)
    requires
        0 <= i < before.len(),
        i <= usize::MAX,
        after.len() == before.len(),
        forall|k: int| 0 <= k < nl.len() ==> (#[trigger] nl[k]) < i && before[nl[k] as int] == link(nl, k),
        forall|a: int, b: int| 0 <= a < b < nl.len() ==> #[trigger] nl[a] < #[trigger] nl[b],
        nl.len() == 0 ==> after == before.update(i, Slot::Free { next: None, prev: None }),
        nl.len() > 0 ==> after == before.update(i, Slot::Free { next: None, prev: Some(nl.last()) }).update(
            nl.last() as int, Slot::Free { next: Some(i as usize), prev: if nl.len() > 1 { Some(nl[nl.len() - 2]) } else { None } }),
        0 <= k <= nl.len(),
    ensures
        nl.push(i as usize)[k] < i + 1 && after[nl.push(i as usize)[k] as int] == link(nl.push(i as usize), k),
{
    let nl2 = nl.push(i as usize);
    if k < nl.len() {
        assert(nl2[k] == nl[k]);
        assert(nl[k] < i);
        if k > 0 {
            assert(nl2[k - 1] == nl[k - 1]);
        }
        if k + 1 < nl.len() {
            assert(nl2[k + 1] == nl[k + 1]);
            assert(nl[k] < nl[nl.len() - 1]);
            assert(after[nl[k] as int] == before[nl[k] as int]);
        } else {
            assert(k == nl.len() - 1);
        }
    } else {
        assert(nl2[k] == i);
        if k > 0 {
            assert(nl2[k - 1] == nl[k - 1]);
            assert(nl[k - 1] < i);
        }
    }
}

/// Whether object `o` occupies one of the slots below `i`.
pub open spec fn in_slot_below(slots: Seq<Slot>, o: usize, i: int) -> bool {
    exists|k: int| 0 <= k < i && slots[k] == Slot::Occupied(o)
}

/// The object `o` after a minor sweep has passed the slots below `i`.
pub open spec fn swept_object(slots: Seq<Slot>, arena: Seq<Object>, o: int, i: int) -> Object {
    if in_slot_below(slots, o as usize, i) { after_minor(slots, arena, o) } else { arena[o] }
}

/// After a minor sweep, each young object still in a slot is in the old
/// generation, and every other object keeps its generation.
proof fn lemma_minor_generations(s0: Seq<Slot>, a0: Seq<Object>, a1: Seq<Object>, s2: Seq<Slot>, a2: Seq<Object>)
    requires
        a0.len() <= usize::MAX,
        a1.len() == a0.len(),
        a2.len() == a0.len(),
        s2.len() == s0.len(),
        forall|o: int| 0 <= o < a0.len() ==> (#[trigger] a1[o]).header.generation == a0[o].header.generation,
        forall|o: int| 0 <= o < a0.len() ==> #[trigger] a2[o] == after_minor(s0, a1, o),
        forall|k: int| 0 <= k < s0.len() ==> if relinks(s0, a1, true, k) {
            (#[trigger] s2[k]) is Free
        } else {
            s2[k] == s0[k]
        },
        forall|s: int| 0 <= s < s0.len() ==> ((#[trigger] s0[s]) matches Slot::Occupied(o) ==> o < a0.len()),
    ensures
        forall|o: int| 0 <= o < a0.len() ==> (#[trigger] a2[o]).header.generation == if a0[o].header.generation == 0
            && in_slot(s2, o as usize) {
            1u8
        } else {
            a0[o].header.generation
        },
{
    assert forall|o: int| 0 <= o < a0.len() implies (#[trigger] a2[o]).header.generation == if a0[o].header.generation == 0
        && in_slot(s2, o as usize) {
        1u8
    } else {
        a0[o].header.generation
    } by {
        assert(a2[o] == after_minor(s0, a1, o));
        if promoted_object(s0, a1, o as usize) {
            let k = choose|k: int| 0 <= k < s0.len() && s0[k] == Slot::Occupied(o as usize);
            assert(!relinks(s0, a1, true, k));
            assert(s2[k] == s0[k]);
        } else if a0[o].header.generation == 0 && in_slot(s2, o as usize) {
            let k = choose|k: int| 0 <= k < s2.len() && s2[k] == Slot::Occupied(o as usize);
            assert(s2[k] == s0[k]);
            assert(in_slot(s0, o as usize));
            assert(frees(s0, a1, true, k));
        }
    }
}

impl Heap {
    /// Sweeps slot `i`.
    #[verifier::rlimit(60)]
    fn sweep_step(
        &mut self,
        i: usize,
        minor: bool,
        new_head: &mut Option<usize>,
        last_free: &mut Option<usize>,
        Ghost(s0): Ghost<Seq<Slot>>,
        Ghost(a0): Ghost<Seq<Object>>,
        Ghost(y0): Ghost<usize>,
        Ghost(o0): Ghost<usize>,
        Ghost(nl): Ghost<Seq<usize>>,
    ) -> (nl2: Ghost<Seq<usize>>)
        requires
            i < s0.len(),
            s0.len() <= usize::MAX,
            a0.len() <= usize::MAX,
            slots_injective(s0),
            forall|s: int| 0 <= s < s0.len() ==> ((#[trigger] s0[s]) matches Slot::Occupied(o) ==> o < a0.len()),
            sweep_list_ok(old(self).objects@, s0, a0, minor, i as int, nl, *old(new_head), *old(last_free)),
            sweep_arena_ok(old(self).arena@, s0, a0, minor, i as int),
            sweep_counts_ok(old(self).young_count, old(self).old_count, s0, a0, minor, i as int, y0, o0),
        ensures
            sweep_list_ok(final(self).objects@, s0, a0, minor, i + 1, nl2@, *final(new_head), *final(last_free)),
            sweep_arena_ok(final(self).arena@, s0, a0, minor, i + 1),
            sweep_counts_ok(final(self).young_count, final(self).old_count, s0, a0, minor, i + 1, y0, o0),
            final(self).size == old(self).size,
            final(self).next_id == old(self).next_id,
    {
        let ghost before = self.objects@;
        let ghost arena_before = self.arena@;
        let ghost head0 = *new_head;
        let ghost last0 = *last_free;
        let slot = self.objects[i];
        proof {
            assert(slot == s0[i as int]);
            lemma_young_step(s0, a0, i as int);
        }
        if let Slot::Occupied(o) = slot {
            proof {
                lemma_first_slot(s0, i as int, o);
                if minor {
                    assert(self.arena@[o as int] == swept_object(s0, a0, o as int, i as int));
                }
            }
            let generation = self.arena[o].header.generation;
            let mark = self.arena[o].header.mark;
            if !mark && (!minor || generation == 0) {
                assert(relinks(s0, a0, minor, i as int));
                self.link_last(i, new_head, last_free, Ghost(s0), Ghost(a0), Ghost(minor), Ghost(nl));
                if minor {
                    self.young_count = self.young_count - 1;
                }
                proof {
                    lemma_list_free(before, self.objects@, s0, a0, minor, i as int, nl, head0, last0);
                    if minor {
                        lemma_arena_step(arena_before, self.arena@, s0, a0, i as int, o);
                    }
                }
                Ghost(nl.push(i))
            } else {
                assert(!relinks(s0, a0, minor, i as int));
                if minor && generation == 0 {
                    self.arena[o].header.generation = 1;
                    self.young_count = self.young_count - 1;
                    self.old_count = self.old_count + 1;
                }
                proof {
                    lemma_list_keep(self.objects@, s0, a0, minor, i as int, nl, head0, last0);
                    if minor {
                        lemma_arena_step(arena_before, self.arena@, s0, a0, i as int, o);
                    }
                }
                Ghost(nl)
            }
        } else {
            assert(relinks(s0, a0, minor, i as int));
            self.link_last(i, new_head, last_free, Ghost(s0), Ghost(a0), Ghost(minor), Ghost(nl));
            proof {
                lemma_list_free(before, self.objects@, s0, a0, minor, i as int, nl, head0, last0);
                if minor {
                    lemma_arena_skip(self.arena@, s0, a0, i as int);
                }
            }
            Ghost(nl.push(i))
        }
    }

    /// Makes slot `i` free and links it at the end of the new free list
    /// `nl`, whose last slot is `last_free`.
    fn link_last(
        &mut self,
        i: usize,
        new_head: &mut Option<usize>,
        last_free: &mut Option<usize>,
        Ghost(s0): Ghost<Seq<Slot>>,
        Ghost(a0): Ghost<Seq<Object>>,
        Ghost(minor): Ghost<bool>,
        Ghost(nl): Ghost<Seq<usize>>,
    )
        requires
            i < s0.len(),
            sweep_list_ok(old(self).objects@, s0, a0, minor, i as int, nl, *old(new_head), *old(last_free)),
        ensures
            final(self).objects@.len() == old(self).objects@.len(),
            nl.len() == 0 ==> final(self).objects@ == old(self).objects@.update(i as int, Slot::Free { next: None, prev: None }),
            nl.len() > 0 ==> final(self).objects@ == old(self).objects@.update(i as int, Slot::Free { next: None, prev: Some(nl.last()) }).update(
                nl.last() as int, Slot::Free { next: Some(i), prev: if nl.len() > 1 { Some(nl[nl.len() - 2]) } else { None } }),
            *final(new_head) == if *old(new_head) is None { Some(i) } else { *old(new_head) },
            *final(last_free) == Some(i),
            final(self).arena == old(self).arena,
            final(self).size == old(self).size,
            final(self).next_id == old(self).next_id,
            final(self).young_count == old(self).young_count,
            final(self).old_count == old(self).old_count,
    {
        let ghost before = self.objects@;
        self.objects.set(i, Slot::Free { next: None, prev: *last_free });
        if let Some(pv) = *last_free {
            let pv_prev = match self.objects[pv] {
                Slot::Free { prev: p2, .. } => p2,
                Slot::Occupied(_) => None,
            };
            proof {
                assert(pv == nl[nl.len() - 1]);
                assert(before[pv as int] == link(nl, nl.len() - 1));
            }
            self.objects.set(pv, Slot::Free { next: Some(i), prev: pv_prev });
        }
        if new_head.is_none() {
            *new_head = Some(i);
        }
        *last_free = Some(i);
    }


    /// Frees the slots that `frees` selects and links them, with the slots
    /// that were free already, in increasing order, into a new free list; a minor sweep moves the marked young
    /// objects it keeps to the old generation. The young and old counts
    /// follow: a minor sweep takes one off the young count for each young
    /// object it frees or promotes, and adds one to the old count for each
    /// it promotes; a major sweep leaves both as they were.
    pub fn sweep(&mut self, minor: bool)
        requires
            old(self).wf(),
        ensures
            final(self).wf(),
            final(self).size == old(self).size,
            final(self).next_id == old(self).next_id,
            final(self).objects@.len() == old(self).objects@.len(),
            forall|k: int| 0 <= k < old(self).objects@.len() ==> if relinks(old(self).objects@, old(self).arena@, minor, k) {
                (#[trigger] final(self).objects@[k]) is Free
            } else {
                final(self).objects@[k] == old(self).objects@[k]
            },
            final(self).free_list@ == freed_slots(old(self).objects@, old(self).arena@, minor, old(self).objects@.len() as int),
            forall|a: int, b: int| 0 <= a < b < final(self).free_list@.len() ==> #[trigger] final(self).free_list@[a]
                < #[trigger] final(self).free_list@[b],
            final(self).arena@.len() == old(self).arena@.len(),
            minor ==> forall|o: int| 0 <= o < old(self).arena@.len() ==> #[trigger] final(self).arena@[o] == after_minor(
                old(self).objects@, old(self).arena@, o),
            !minor ==> final(self).arena@ == old(self).arena@,
            minor ==> final(self).young_count + count_young(old(self).objects@, old(self).arena@, 0) == old(self).young_count,
            minor ==> final(self).old_count == old(self).old_count + count_promoted(old(self).objects@, old(self).arena@, 0),
            !minor ==> final(self).young_count == old(self).young_count,
            !minor ==> final(self).old_count == old(self).old_count,
            final(self).young_count + final(self).old_count <= old(self).young_count + old(self).old_count,
            minor ==> forall|k: int| 0 <= k < final(self).objects@.len() ==> !is_young_at(final(self).objects@, final(self).arena@, k),
    {
        let ghost s0 = self.objects@;
        let ghost a0 = self.arena@;
        let ghost y0 = self.young_count;
        let ghost o0 = self.old_count;
        proof {
            lemma_freed_slots(s0, a0, minor, s0.len() as int);
            lemma_count_young_bound(s0, a0, 0);
        }
        let mut new_head: Option<usize> = None;
        let mut last_free: Option<usize> = None;
        let ghost mut nl: Seq<usize> = Seq::empty();
        let mut i: usize = 0;
        assert(self.arena@.len() == self.arena.len());
        assert(self.objects@.len() == self.objects.len());
        assert(sweep_arena_ok(self.arena@, s0, a0, minor, 0)) by {
            if minor {
                assert forall|o: int| 0 <= o < a0.len() implies #[trigger] self.arena@[o] == swept_object(s0, a0, o, 0) by {}
            }
        }
        while i < self.objects.len()
            invariant
                i <= s0.len(),
                s0.len() <= usize::MAX,
                a0.len() <= usize::MAX,
                self.objects@.len() == s0.len(),
                self.size == old(self).size,
                self.next_id == old(self).next_id,
                slots_injective(s0),
                forall|s: int| 0 <= s < s0.len() ==> ((#[trigger] s0[s]) matches Slot::Occupied(o) ==> o < a0.len()),
                sweep_list_ok(self.objects@, s0, a0, minor, i as int, nl, new_head, last_free),
                sweep_arena_ok(self.arena@, s0, a0, minor, i as int),
                sweep_counts_ok(self.young_count, self.old_count, s0, a0, minor, i as int, y0, o0),
            decreases s0.len() - i,
        {
            let Ghost(n2) = self.sweep_step(i, minor, &mut new_head, &mut last_free, Ghost(s0), Ghost(a0), Ghost(y0),
                Ghost(o0), Ghost(nl));
            proof {
                nl = n2;
            }
            i = i + 1;
        }
        self.free_head = new_head;
        self.free_list = Ghost(nl);
        proof {
            lemma_sweep_done(self.objects@, self.arena@, s0, a0, minor, nl);
            lemma_promoted_le_young(s0, a0, 0);
            if minor {
                lemma_count_zero(self.objects@, self.arena@, 0);
            } else {
                lemma_count_mono(s0, a0, self.objects@, self.arena@, 0);
            }
        }
    }
}

/// The sweep's progress over the slots below `i`.
pub open spec fn sweep_list_ok(objs: Seq<Slot>, s0: Seq<Slot>, a0: Seq<Object>, minor: bool, i: int, nl: Seq<usize>,
    head: Option<usize>, last: Option<usize>) -> bool {
    &&& objs.len() == s0.len()
    &&& forall|k: int| i <= k < s0.len() ==> #[trigger] objs[k] == s0[k]
    &&& forall|k: int| 0 <= k < i ==> if relinks(s0, a0, minor, k) { (#[trigger] objs[k]) is Free } else { objs[k] == s0[k] }
    &&& nl == freed_slots(s0, a0, minor, i)
    &&& forall|k: int| 0 <= k < nl.len() ==> (#[trigger] nl[k]) < i && objs[nl[k] as int] == link(nl, k)
    &&& forall|a: int, b: int| 0 <= a < b < nl.len() ==> #[trigger] nl[a] < #[trigger] nl[b]
    &&& head == (if nl.len() == 0 { None::<usize> } else { Some(nl[0]) })
    &&& last == (if nl.len() == 0 { None::<usize> } else { Some(nl.last()) })
}

/// The objects after the sweep passed the slots below `i`.
pub open spec fn sweep_arena_ok(arena: Seq<Object>, s0: Seq<Slot>, a0: Seq<Object>, minor: bool, i: int) -> bool {
    &&& arena.len() == a0.len()
    &&& minor ==> forall|o: int| 0 <= o < a0.len() ==> #[trigger] arena[o] == swept_object(s0, a0, o, i)
    &&& !minor ==> arena == a0
}

/// The counts after the sweep passed the slots below `i`.
pub open spec fn sweep_counts_ok(y: usize, o: usize, s0: Seq<Slot>, a0: Seq<Object>, minor: bool, i: int, y0: usize, o0: usize) -> bool {
    &&& minor ==> y + count_young(s0, a0, 0) == y0 + count_young(s0, a0, i)
    &&& minor ==> o + count_promoted(s0, a0, i) == o0 + count_promoted(s0, a0, 0)
    &&& !minor ==> y == y0 && o == o0
    &&& y0 >= count_young(s0, a0, 0)
    &&& y + o <= a0.len()
    &&& y0 + o0 <= a0.len()
}

/// The counts at slot `i` split off one slot.
proof fn lemma_young_step(s0: Seq<Slot>, a0: Seq<Object>, i: int)
    requires
        0 <= i < s0.len(),
    ensures
        count_young(s0, a0, i) == (if is_young_at(s0, a0, i) { 1nat } else { 0nat }) + count_young(s0, a0, i + 1),
        count_promoted(s0, a0, i) == (if promotes(s0, a0, i) { 1nat } else { 0nat }) + count_promoted(s0, a0, i + 1),
{
}

/// Counts from `lo` are at most the count from 0.
proof fn lemma_count_young_bound(s0: Seq<Slot>, a0: Seq<Object>, lo: int)
    requires
        0 <= lo,
    ensures
        count_promoted(s0, a0, lo) <= count_young(s0, a0, lo),
    decreases s0.len() - lo,
{
    lemma_promoted_le_young(s0, a0, lo);
}

/// After freeing slot `i`, the slots below `i + 1` are as the sweep leaves
/// them.
proof fn lemma_prefix_after_free(before: Seq<Slot>, after: Seq<Slot>, s0: Seq<Slot>, a0: Seq<Object>, minor: bool, i: int,
    nl: Seq<usize>)
    requires
        0 <= i < s0.len(),
        s0.len() <= usize::MAX,
        before.len() == s0.len(),
        after.len() == s0.len(),
        relinks(s0, a0, minor, i),
        nl == freed_slots(s0, a0, minor, i),
        forall|k: int| 0 <= k < i ==> if relinks(s0, a0, minor, k) { (#[trigger] before[k]) is Free } else { before[k] == s0[k] },
        forall|k: int| i <= k < s0.len() ==> #[trigger] before[k] == s0[k],
        after[i] is Free,
        nl.len() > 0 ==> after[nl.last() as int] is Free,
        forall|s: int| 0 <= s < before.len() && s != i && !(nl.len() > 0 && s == nl.last()) ==> #[trigger] after[s] == before[s],
    ensures
        forall|k: int| 0 <= k < i + 1 ==> if relinks(s0, a0, minor, k) { (#[trigger] after[k]) is Free } else { after[k] == s0[k] },
        forall|k: int| i + 1 <= k < s0.len() ==> #[trigger] after[k] == s0[k],
{
    lemma_freed_slots(s0, a0, minor, i);
    assert forall|k: int| 0 <= k < i + 1 implies if relinks(s0, a0, minor, k) { (#[trigger] after[k]) is Free } else { after[k]
        == s0[k] } by {
        if k < i && nl.len() > 0 && k == nl.last() {
            assert(relinks(s0, a0, minor, nl[nl.len() - 1] as int));
        }
    }
}

/// A minor sweep's step over slot `i` holding object `o` leaves the objects
/// as `swept_object` says.
proof fn lemma_arena_step(before: Seq<Object>, after: Seq<Object>, s0: Seq<Slot>, a0: Seq<Object>, i: int, o: usize)
    requires
        0 <= i < s0.len(),
        s0[i] == Slot::Occupied(o),
        o < a0.len(),
        a0.len() <= usize::MAX,
        before.len() == a0.len(),
        forall|k: int| 0 <= k < i ==> #[trigger] s0[k] != Slot::Occupied(o),
        forall|p: int| 0 <= p < a0.len() ==> #[trigger] before[p] == swept_object(s0, a0, p, i),
        after.len() == a0.len(),
        forall|p: int| 0 <= p < a0.len() && p != o ==> #[trigger] after[p] == before[p],
        after[o as int] == after_minor(s0, a0, o as int),
    ensures
        forall|p: int| 0 <= p < a0.len() ==> #[trigger] after[p] == swept_object(s0, a0, p, i + 1),
{
    assert(in_slot(s0, o));
    assert(in_slot_below(s0, o, i + 1));
    assert forall|p: int| 0 <= p < a0.len() implies #[trigger] after[p] == swept_object(s0, a0, p, i + 1) by {
        if p != o {
            if in_slot_below(s0, p as usize, i + 1) {
                let k = choose|k: int| 0 <= k < i + 1 && s0[k] == Slot::Occupied(p as usize);
                assert(k != i);
                assert(in_slot_below(s0, p as usize, i));
            }
        }
    }
}

/// The first slot that holds `o` is `i`, when no object occupies two slots.
proof fn lemma_first_slot(s0: Seq<Slot>, i: int, o: usize)
    requires
        0 <= i < s0.len(),
        slots_injective(s0),
        s0[i] == Slot::Occupied(o),
    ensures
        forall|k: int| 0 <= k < i ==> #[trigger] s0[k] != Slot::Occupied(o),
        !in_slot_below(s0, o, i),
{
    assert forall|k: int| 0 <= k < i implies #[trigger] s0[k] != Slot::Occupied(o) by {
        assert(s0[k] != s0[i]);
    }
}

/// Freeing slot `i` carries the sweep's progress one slot further.
#[verifier::rlimit(40)]
proof fn lemma_list_free(before: Seq<Slot>, after: Seq<Slot>, s0: Seq<Slot>, a0: Seq<Object>, minor: bool, i: int,
    nl: Seq<usize>, head: Option<usize>, last: Option<usize>)
    requires
        0 <= i < s0.len(),
        s0.len() <= usize::MAX,
        relinks(s0, a0, minor, i),
        sweep_list_ok(before, s0, a0, minor, i, nl, head, last),
        after.len() == before.len(),
        nl.len() == 0 ==> after == before.update(i, Slot::Free { next: None, prev: None }),
        nl.len() > 0 ==> after == before.update(i, Slot::Free { next: None, prev: Some(nl.last()) }).update(
            nl.last() as int, Slot::Free { next: Some(i as usize), prev: if nl.len() > 1 { Some(nl[nl.len() - 2]) } else { None } }),
    ensures
        sweep_list_ok(after, s0, a0, minor, i + 1, nl.push(i as usize), if head is None { Some(i as usize) } else { head },
            Some(i as usize)),
{
    lemma_append_free(before, after, nl, i);
    let nl2 = nl.push(i as usize);
    assert(nl2 == freed_slots(s0, a0, minor, i + 1));
    assert forall|s: int| 0 <= s < before.len() && s != i && !(nl.len() > 0 && s == nl.last()) implies #[trigger] after[s]
        == before[s] by {}
    lemma_prefix_after_free(before, after, s0, a0, minor, i, nl);
    if nl.len() > 0 {
        assert(nl2[0] == nl[0]);
    }
}

/// Keeping slot `i` carries the sweep's progress one slot further.
proof fn lemma_list_keep(objs: Seq<Slot>, s0: Seq<Slot>, a0: Seq<Object>, minor: bool, i: int, nl: Seq<usize>,
    head: Option<usize>, last: Option<usize>)
    requires
        0 <= i < s0.len(),
        !relinks(s0, a0, minor, i),
        sweep_list_ok(objs, s0, a0, minor, i, nl, head, last),
    ensures
        sweep_list_ok(objs, s0, a0, minor, i + 1, nl, head, last),
{
    assert(nl == freed_slots(s0, a0, minor, i + 1));
}

/// A free slot changes no object.
proof fn lemma_arena_skip(arena: Seq<Object>, s0: Seq<Slot>, a0: Seq<Object>, i: int)
    requires
        0 <= i < s0.len(),
        s0[i] is Free,
        arena.len() == a0.len(),
        forall|p: int| 0 <= p < a0.len() ==> #[trigger] arena[p] == swept_object(s0, a0, p, i),
    ensures
        forall|p: int| 0 <= p < a0.len() ==> #[trigger] arena[p] == swept_object(s0, a0, p, i + 1),
{
    assert forall|p: int| 0 <= p < a0.len() implies #[trigger] arena[p] == swept_object(s0, a0, p, i + 1) by {
        if in_slot_below(s0, p as usize, i + 1) {
            let k = choose|k: int| 0 <= k < i + 1 && s0[k] == Slot::Occupied(p as usize);
            assert(in_slot_below(s0, p as usize, i));
        }
    }
}

/// At the end of the sweep, the heap is well formed.
proof fn lemma_sweep_done(objs: Seq<Slot>, arena: Seq<Object>, s0: Seq<Slot>, a0: Seq<Object>, minor: bool, nl: Seq<usize>)
    requires
        s0.len() <= usize::MAX,
        slots_injective(s0),
        forall|s: int| 0 <= s < s0.len() ==> ((#[trigger] s0[s]) matches Slot::Occupied(o) ==> o < a0.len()),
        sweep_list_ok(objs, s0, a0, minor, s0.len() as int, nl, if nl.len() == 0 { None::<usize> } else { Some(nl[0]) },
            if nl.len() == 0 { None::<usize> } else { Some(nl.last()) }),
        sweep_arena_ok(arena, s0, a0, minor, s0.len() as int),
    ensures
        list_wf(objs, nl, if nl.len() == 0 { None::<usize> } else { Some(nl[0]) }),
        slots_injective(objs),
        forall|s: int| 0 <= s < objs.len() ==> ((#[trigger] objs[s]) matches Slot::Occupied(o) ==> o < arena.len()),
        minor ==> forall|k: int| 0 <= k < objs.len() ==> !is_young_at(objs, arena, k),
        !minor ==> forall|k: int| 0 <= k < objs.len() && is_young_at(objs, arena, k) ==> is_young_at(s0, a0, k),
        minor ==> forall|o: int| 0 <= o < a0.len() ==> #[trigger] arena[o] == after_minor(s0, a0, o),
{
    assert forall|a: int, b: int| 0 <= a < b < nl.len() implies #[trigger] nl[a] != #[trigger] nl[b] by {}
    assert forall|a: int, b: int| 0 <= a < b < objs.len() && (#[trigger] objs[a]) is Occupied && (#[trigger] objs[b]) is Occupied
        implies objs[a] != objs[b] by {
        assert(s0[a] != s0[b]);
    }
    assert forall|s: int| 0 <= s < objs.len() implies ((#[trigger] objs[s]) matches Slot::Occupied(o) ==> o < arena.len()) by {}
    if minor {
        assert forall|o: int| 0 <= o < a0.len() implies #[trigger] arena[o] == after_minor(s0, a0, o) by {
            assert(arena[o] == swept_object(s0, a0, o, s0.len() as int));
            if in_slot(s0, o as usize) {
                let k = choose|k: int| 0 <= k < s0.len() && s0[k] == Slot::Occupied(o as usize);
                assert(in_slot_below(s0, o as usize, s0.len() as int));
            }
        }
        assert forall|k: int| 0 <= k < objs.len() implies !is_young_at(objs, arena, k) by {
            if let Slot::Occupied(o) = s0[k] {
                if !relinks(s0, a0, true, k) {
                    assert(in_slot(s0, o));
                    assert(in_slot_below(s0, o, s0.len() as int));
                    assert(arena[o as int] == after_minor(s0, a0, o as int));
                }
            }
        }
    }
}

/// A heap in which fewer slots hold young objects counts no more of them.
pub proof fn lemma_count_mono(s1: Seq<Slot>, a1: Seq<Object>, s2: Seq<Slot>, a2: Seq<Object>, lo: int)
    requires
        s1.len() == s2.len(),
        0 <= lo,
        forall|k: int| lo <= k < s1.len() && is_young_at(s2, a2, k) ==> is_young_at(s1, a1, k),
    ensures
        count_young(s2, a2, lo) <= count_young(s1, a1, lo),
    decreases s1.len() - lo,
{
    if lo < s1.len() {
        lemma_count_mono(s1, a1, s2, a2, lo + 1);
    }
}

/// Whether `path` is a chain of references that starts at an object a
/// frame holds, in which each object but the last occupies a slot and holds
/// a reference to the next.
pub open spec fn reaches(frames: Seq<Frame>, arena: Seq<Object>, slots: Seq<Slot>, path: Seq<usize>) -> bool {
    &&& path.len() > 0
    &&& is_root(frames, path[0])
    &&& forall|k: int| 0 <= k < path.len() ==> (#[trigger] path[k]) < arena.len()
    &&& forall|k: int| 0 <= k < path.len() - 1 ==> in_slot(slots, #[trigger] path[k]) && holds_ref(arena[path[k] as int], path[k + 1])
}

/// Marking marks every object along a chain that `reaches` describes.
pub proof fn lemma_path_marked(pre: Seq<Object>, arena: Seq<Object>, frames: Seq<Frame>, slots: Seq<Slot>, path: Seq<usize>)
    requires
        same_but_marks(pre, arena),
        forall|o: usize| #[trigger] in_slot(slots, o) ==> !marked(pre, o),
        marks_closed(pre, arena, frames),
        reaches(frames, arena, slots, path),
    ensures
        forall|k: int| 0 <= k < path.len() ==> marked(arena, #[trigger] path[k]),
    decreases path.len(),
{
    if path.len() > 1 {
        let prefix = path.drop_last();
        assert forall|k: int| 0 <= k < prefix.len() - 1 implies in_slot(slots, #[trigger] prefix[k])
            && holds_ref(arena[prefix[k] as int], prefix[k + 1]) by {
            assert(prefix[k] == path[k] && prefix[k + 1] == path[k + 1]);
        }
        assert forall|k: int| 0 <= k < prefix.len() implies (#[trigger] prefix[k]) < arena.len() by {
            assert(prefix[k] == path[k]);
        }
        lemma_path_marked(pre, arena, frames, slots, prefix);
        let j = path.len() - 2;
        assert(prefix[j] == path[j]);
        assert(marked(arena, path[j]));
        assert(in_slot(slots, path[j]));
        assert(!marked(pre, path[j]));
        assert(holds_ref(arena[path[j] as int], path[j + 1]));
        assert forall|k: int| 0 <= k < path.len() implies marked(arena, #[trigger] path[k]) by {
            if k < path.len() - 1 {
                assert(prefix[k] == path[k]);
            }
        }
    } else {
        assert(is_root(frames, path[0]));
    }
}

impl Heap {
    /// Marks from the frames, then sweeps: a minor collection frees the
    /// slots of unmarked young objects and promotes the marked ones; a major
    /// collection frees the slots of all unmarked objects. Either way, no
    /// slot is freed whose object the frames reach through objects in slots,
    /// and every slot is freed whose object no chain of references from the
    /// frames reaches (a young one, for a minor collection, which leaves the
    /// slots of old objects as they are).
    pub fn collect(&mut self, frames: &Vec<Frame>, minor: bool)
        requires
            old(self).wf(),
        ensures
            final(self).wf(),
            final(self).size == old(self).size,
            final(self).next_id == old(self).next_id,
            final(self).arena@.len() == old(self).arena@.len(),
            forall|o: int| 0 <= o < old(self).arena@.len() ==> (#[trigger] final(self).arena@[o]).kind == old(self).arena@[o].kind
                && final(self).arena@[o].class == old(self).arena@[o].class,
            forall|o: int| 0 <= o < old(self).arena@.len() && !in_slot(old(self).objects@, o as usize) ==> same_object_but_mark(
                #[trigger] final(self).arena@[o], old(self).arena@[o]),
            final(self).young_count + final(self).old_count <= old(self).young_count + old(self).old_count,
            final(self).objects@.len() == old(self).objects@.len(),
            forall|k: int| 0 <= k < old(self).objects@.len() ==> (#[trigger] final(self).objects@[k] is Free
                || final(self).objects@[k] == old(self).objects@[k]),
            forall|path: Seq<usize>, s: int| #[trigger] reaches(frames@, old(self).arena@, old(self).objects@, path) && 0 <= s
                < old(self).objects@.len() && (old(self).objects@[s] matches Slot::Occupied(o) && path.contains(o))
                ==> #[trigger] final(self).objects@[s] == old(self).objects@[s],
            forall|k: int| 0 <= k < old(self).objects@.len() && (#[trigger] old(self).objects@[k] matches Slot::Occupied(o)
                && o < old(self).arena@.len() && !reachable(frames@, old(self).arena@, o)
                && (minor ==> old(self).arena@[o as int].header.generation == 0)) ==> final(self).objects@[k] is Free,
            minor ==> forall|k: int| 0 <= k < old(self).objects@.len() && (#[trigger] old(self).objects@[k] matches Slot::Occupied(o)
                && o < old(self).arena@.len() && old(self).arena@[o as int].header.generation != 0)
                ==> final(self).objects@[k] == old(self).objects@[k],
            minor ==> final(self).young_count + count_young(old(self).objects@, old(self).arena@, 0) == old(self).young_count,
            minor ==> final(self).old_count == old(self).old_count + count_kept_young(old(self).objects@, old(self).arena@,
                final(self).objects@, 0),
            minor ==> forall|k: int| 0 <= k < final(self).objects@.len() ==> !is_young_at(final(self).objects@, final(self).arena@, k),
            !minor ==> final(self).young_count == old(self).young_count && final(self).old_count == old(self).old_count,
            minor ==> forall|o: int| 0 <= o < old(self).arena@.len() ==> (#[trigger] final(self).arena@[o]).header.generation == if old(
                self).arena@[o].header.generation == 0 && in_slot(final(self).objects@, o as usize) {
                1u8
            } else {
                old(self).arena@[o].header.generation
            },
            forall|a: int, b: int| 0 <= a < b < final(self).free_list@.len() ==> #[trigger] final(self).free_list@[a]
                < #[trigger] final(self).free_list@[b],
    {
        let ghost s0 = self.objects@;
        let ghost a0 = self.arena@;
        self.mark_from_roots(frames);
        let ghost a1 = self.arena@;
        proof {
            let pre = choose|pre: Seq<Object>| {
                &&& same_but_marks(a0, pre)
                &&& forall|o: usize| #[trigger] in_slot(s0, o) ==> !marked(pre, o)
                &&& forall|o: usize| #[trigger] marked(pre, o) ==> marked(a1, o)
                &&& marks_closed(pre, a1, frames@)
                &&& forall|o: usize| #[trigger] marked(a1, o) && !marked(pre, o) ==> reachable(frames@, pre, o)
            };
            assert forall|k: int| 0 <= k < s0.len() && (#[trigger] s0[k] matches Slot::Occupied(o) && o < a0.len()
                && !reachable(frames@, a0, o) && (minor ==> a0[o as int].header.generation == 0)) implies relinks(s0, a1, minor, k) by {
                if let Slot::Occupied(o) = s0[k] {
                    assert(in_slot(s0, o));
                    if marked(a1, o) {
                        lemma_reachable_marks(frames@, pre, a0, o);
                    }
                    assert(a1[o as int].header.generation == a0[o as int].header.generation);
                }
            }
            assert forall|path: Seq<usize>, s: int| #![trigger reaches(frames@, a0, s0, path), s0[s]]
                reaches(frames@, a0, s0, path) && 0 <= s < s0.len()
                && (s0[s] matches Slot::Occupied(o) && path.contains(o)) implies !relinks(s0, a1, minor, s) by {
                assert forall|k: int| 0 <= k < path.len() - 1 implies holds_ref(a1[path[k] as int], path[k + 1]) by {
                    assert(a1[path[k] as int].kind == a0[path[k] as int].kind);
                    assert(holds_ref(a0[path[k] as int], path[k + 1]));
                }
                assert(same_but_marks(pre, a1)) by {
                    assert forall|o: int| 0 <= o < pre.len() implies (#[trigger] a1[o]).class == pre[o].class
                        && a1[o].kind == pre[o].kind && a1[o].header.generation == pre[o].header.generation
                        && a1[o].header.ref_count == pre[o].header.ref_count
                        && a1[o].header.object_id == pre[o].header.object_id by {
                        assert(a1[o].kind == a0[o].kind && pre[o].kind == a0[o].kind);
                    }
                }
                assert(reaches(frames@, a1, s0, path));
                lemma_path_marked(pre, a1, frames@, s0, path);
                if let Slot::Occupied(o) = s0[s] {
                    let k = choose|k: int| 0 <= k < path.len() && path[k] == o;
                    assert(marked(a1, path[k]));
                }
            }
        }
        proof {
            assert forall|k: int| 0 <= k < s0.len() && k != -1 implies is_young_at(s0, a0, k) == is_young_at(s0, a1, k) by {
                if let Slot::Occupied(o) = s0[k] {
                    if o < a0.len() {
                        assert(a1[o as int].header.generation == a0[o as int].header.generation);
                    }
                }
            }
            lemma_count_point(s0, a0, s0, a1, 0, -1);
        }
        self.sweep(minor);
        proof {
            if minor {
                assert(a0.len() == self.arena.len());
                lemma_minor_generations(s0, a0, a1, self.objects@, self.arena@);
                assert forall|k: int| 0 <= k < s0.len() implies promotes(s0, a1, k) == (is_young_at(s0, a0, k)
                    && self.objects@[k] is Occupied) by {
                    if let Slot::Occupied(o) = s0[k] {
                        if o < a0.len() {
                            assert(a1[o as int].header.generation == a0[o as int].header.generation);
                        }
                    }
                }
                lemma_promoted_kept(s0, a1, a0, self.objects@, 0);
            }
            assert forall|o: int| 0 <= o < a0.len() implies (#[trigger] self.arena@[o]).kind == a0[o].kind
                && self.arena@[o].class == a0[o].class by {
                assert(a1[o].kind == a0[o].kind);
                if minor {
                    assert(self.arena@[o] == after_minor(s0, a1, o));
                }
            }
            assert forall|o: int| 0 <= o < a0.len() && !in_slot(s0, o as usize) implies same_object_but_mark(
                #[trigger] self.arena@[o], a0[o]) by {
                assert(a1[o].kind == a0[o].kind);
                if minor {
                    assert(self.arena@[o] == after_minor(s0, a1, o));
                }
            }
        }
    }

    /// `collect` as a minor collection: the young objects it keeps move to
    /// the old generation; the young count drops by the number of young
    /// objects in slots, and the old count grows by the number kept.
    pub fn run_minor_gc(&mut self, frames: &Vec<Frame>)
        requires
            old(self).wf(),
        ensures
            final(self).wf(),
            final(self).young_count + final(self).old_count <= old(self).young_count + old(self).old_count,
            final(self).objects@.len() == old(self).objects@.len(),
            forall|k: int| 0 <= k < old(self).objects@.len() ==> (#[trigger] final(self).objects@[k] is Free
                || final(self).objects@[k] == old(self).objects@[k]),
            final(self).size == old(self).size,
            final(self).next_id == old(self).next_id,
            final(self).arena@.len() == old(self).arena@.len(),
            forall|o: int| 0 <= o < old(self).arena@.len() ==> (#[trigger] final(self).arena@[o]).kind == old(self).arena@[o].kind
                && final(self).arena@[o].class == old(self).arena@[o].class,
            forall|o: int| 0 <= o < old(self).arena@.len() && !in_slot(old(self).objects@, o as usize) ==> same_object_but_mark(
                #[trigger] final(self).arena@[o], old(self).arena@[o]),
            forall|path: Seq<usize>, s: int| #[trigger] reaches(frames@, old(self).arena@, old(self).objects@, path) && 0 <= s
                < old(self).objects@.len() && (old(self).objects@[s] matches Slot::Occupied(o) && path.contains(o))
                ==> #[trigger] final(self).objects@[s] == old(self).objects@[s],
            forall|k: int| 0 <= k < old(self).objects@.len() && (#[trigger] old(self).objects@[k] matches Slot::Occupied(o)
                && o < old(self).arena@.len() && !reachable(frames@, old(self).arena@, o)
                && (old(self).arena@[o as int].header.generation == 0)) ==> final(self).objects@[k] is Free,
            forall|k: int| 0 <= k < old(self).objects@.len() && (#[trigger] old(self).objects@[k] matches Slot::Occupied(o)
                && o < old(self).arena@.len() && old(self).arena@[o as int].header.generation != 0)
                ==> final(self).objects@[k] == old(self).objects@[k],
            final(self).young_count + count_young(old(self).objects@, old(self).arena@, 0) == old(self).young_count,
            final(self).old_count == old(self).old_count + count_kept_young(old(self).objects@, old(self).arena@,
                final(self).objects@, 0),
            forall|k: int| 0 <= k < final(self).objects@.len() ==> !is_young_at(final(self).objects@, final(self).arena@, k),
            forall|o: int| 0 <= o < old(self).arena@.len() ==> (#[trigger] final(self).arena@[o]).header.generation == if old(
                self).arena@[o].header.generation == 0 && in_slot(final(self).objects@, o as usize) {
                1u8
            } else {
                old(self).arena@[o].header.generation
            },
            forall|a: int, b: int| 0 <= a < b < final(self).free_list@.len() ==> #[trigger] final(self).free_list@[a]
                < #[trigger] final(self).free_list@[b],
    {
        self.collect(frames, true);
    }

    /// `collect` as a major collection.
    pub fn run_major_gc(&mut self, frames: &Vec<Frame>)
        requires
            old(self).wf(),
        ensures
            final(self).wf(),
            final(self).young_count + final(self).old_count <= old(self).young_count + old(self).old_count,
            final(self).objects@.len() == old(self).objects@.len(),
            forall|k: int| 0 <= k < old(self).objects@.len() ==> (#[trigger] final(self).objects@[k] is Free
                || final(self).objects@[k] == old(self).objects@[k]),
            final(self).size == old(self).size,
            final(self).next_id == old(self).next_id,
            final(self).arena@.len() == old(self).arena@.len(),
            forall|o: int| 0 <= o < old(self).arena@.len() ==> (#[trigger] final(self).arena@[o]).kind == old(self).arena@[o].kind
                && final(self).arena@[o].class == old(self).arena@[o].class,
            forall|o: int| 0 <= o < old(self).arena@.len() && !in_slot(old(self).objects@, o as usize) ==> same_object_but_mark(
                #[trigger] final(self).arena@[o], old(self).arena@[o]),
            forall|path: Seq<usize>, s: int| #[trigger] reaches(frames@, old(self).arena@, old(self).objects@, path) && 0 <= s
                < old(self).objects@.len() && (old(self).objects@[s] matches Slot::Occupied(o) && path.contains(o))
                ==> #[trigger] final(self).objects@[s] == old(self).objects@[s],
            forall|k: int| 0 <= k < old(self).objects@.len() && (#[trigger] old(self).objects@[k] matches Slot::Occupied(o)
                && o < old(self).arena@.len() && !reachable(frames@, old(self).arena@, o)) ==> final(self).objects@[k] is Free,
            final(self).young_count == old(self).young_count && final(self).old_count == old(self).old_count,
            forall|a: int, b: int| 0 <= a < b < final(self).free_list@.len() ==> #[trigger] final(self).free_list@[a]
                < #[trigger] final(self).free_list@[b],
    {
        self.collect(frames, false);
    }
}

} // verus!
