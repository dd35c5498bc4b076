//! Allocation: new objects take the first free slot; when none is free a
//! minor collection runs, then a major one.

use vstd::prelude::*;
use crate::class_loader::{class_wf, ClassLoader};
use crate::garbage_collector::{in_slot, lemma_reachable_same_kinds, reachable, same_object_but_mark};
use crate::heap::{count_young, is_young_at, lemma_count_point, lemma_take_complete, Heap, Slot};
use crate::jvm_error::JVMError;
use crate::loaded_class::{spec_default_value, spec_last_named, FieldSlot};
use crate::object::{contents, slots_typed, starts_as, Object, ObjectHeader, ObjectKind};
use crate::runtime::{Frame, Value};
use crate::text::{concat, str_to_chars};

verus! {

/// Whether `e` is the error of an allocation that found no free slot.
pub open spec fn is_exhausted(e: JVMError) -> bool {
    e matches JVMError::Other(m) && m@ == "Heap exhausted after GC"@
}

/// Whether slot `i` is the first of `slots` whose descriptor names no type.
pub open spec fn first_untyped(slots: Seq<FieldSlot>, i: int) -> bool {
    &&& 0 <= i < slots.len()
    &&& spec_default_value(slots[i].descriptor@) is None
    &&& forall|k: int| 0 <= k < i ==> spec_default_value((#[trigger] slots[k]).descriptor@) is Some
}

/// Whether `e` is the refusal to make an instance of a class with the
/// instance fields `slots`, one of whose descriptors names no type: the
/// first such descriptor is named.
pub open spec fn untyped_error(slots: Seq<FieldSlot>, e: JVMError) -> bool {
    exists|i: int| #[trigger] first_untyped(slots, i) && (e matches JVMError::Other(m) && m@ == "Unknown descriptor type: "@
        + slots[i].descriptor@)
}

/// Checks that every descriptor of `slots` names a type.
fn check_typed(slots: &Vec<FieldSlot>) -> (res: Result<(), JVMError>)
    ensures
        res is Ok <==> slots_typed(slots@),
        res matches Err(e) ==> untyped_error(slots@, e),
{
    let mut i: usize = 0;
    while i < slots.len()
        invariant
            i <= slots@.len(),
            forall|k: int| 0 <= k < i ==> spec_default_value((#[trigger] slots@[k]).descriptor@) is Some,
        decreases slots@.len() - i,
    {
        if crate::loaded_class::default_value(slots[i].descriptor.as_str()).is_none() {
            assert(first_untyped(slots@, i as int));
            return Err(JVMError::Other(concat("Unknown descriptor type: ", slots[i].descriptor.as_str())));
        }
        i = i + 1;
    }
    Ok(())
}

/// Whether every slot of `heap` holds an object that the frames reach.
pub open spec fn full_of_reachable(heap: Heap, frames: Seq<Frame>) -> bool {
    forall|k: int| 0 <= k < heap.objects@.len() ==> (#[trigger] heap.objects@[k] matches Slot::Occupied(o) && reachable(frames,
        heap.arena@, o))
}

/// The descriptor that an array of elements named `t` records: `t` itself
/// for a one-letter primitive name or an array type, `L<t>;` for a class.
pub open spec fn array_type_of(t: Seq<char>) -> Seq<char> {
    if (t.len() > 0 && t[0] == '[') || t.len() == 1 {
        t
    } else {
        seq!['L'] + t + seq![';']
    }
}

/// Whether an array of elements named `t` belongs to the class named `t`.
pub open spec fn array_has_class(t: Seq<char>) -> bool {
    !((t.len() > 0 && t[0] == '[') || t.len() == 1)
}

/// The values that the characters of a string give: each character's code.
pub open spec fn char_values(s: Seq<char>) -> Seq<Value> {
    s.map_values(|c: char| Value::Int(c as u32 as i32))
}

/// Whether the heap after an allocation holds `obj` at `n`, the next
/// position, in a slot.
pub open spec fn allocated(heap: Heap, n: usize, obj: Object) -> bool {
    &&& heap.arena@.len() == n + 1
    &&& same_object_but_mark(heap.arena@[n as int], obj)
    &&& exists|k: int| 0 <= k < heap.objects@.len() && heap.objects@[k] == Slot::Occupied(n)
}

impl Heap {
    /// The header of the next object: its identity is the running count of
    /// objects made, which wraps around.
    pub fn new_header(&mut self) -> (res: ObjectHeader)
        ensures
            res == (ObjectHeader { mark: false, generation: 0, ref_count: 1, object_id: old(self).next_id }),
            final(self).next_id == old(self).next_id.wrapping_add(1),
            final(self).size == old(self).size,
            final(self).objects == old(self).objects,
            final(self).free_head == old(self).free_head,
            final(self).free_list == old(self).free_list,
            final(self).young_count == old(self).young_count,
            final(self).old_count == old(self).old_count,
            final(self).arena == old(self).arena,
    {
        let h = ObjectHeader::new(self.next_id);
        self.next_id = self.next_id.wrapping_add(1);
        h
    }

    /// Puts `obj` at the next position of the arena and gives it a slot:
    /// the first free one; when there is none, after a minor collection;
    /// when there is still none, after a major one. The collections keep
    /// every object that the frames reach through objects in slots; the
    /// allocation fails only when, after them, every slot holds an object
    /// that the frames reach.
    #[verifier::rlimit(40)]
    pub fn allocate(&mut self, frames: &Vec<Frame>, obj: Object) -> (res: Result<usize, JVMError>)
        requires
            old(self).wf(),
        ensures
            final(self).wf(),
            final(self).size == old(self).size,
            final(self).next_id == old(self).next_id,
            final(self).arena@.len() == old(self).arena@.len() + 1,
            same_object_but_mark(final(self).arena@.last(), obj),
            forall|o: int| 0 <= o < old(self).arena@.len() ==> (#[trigger] final(self).arena@[o]).kind == old(self).arena@[o].kind
                && final(self).arena@[o].class == old(self).arena@[o].class,
            match res {
                Ok(n) => n == old(self).arena@.len() && allocated(*final(self), n, obj),
                Err(e) => is_exhausted(e) && final(self).free_head is None,
            },
            old(self).free_head is Some ==> res is Ok && final(self).arena@ == old(self).arena@.push(obj)
                && final(self).young_count == old(self).young_count + 1 && final(self).old_count == old(self).old_count
                && final(self).free_list@.len() == old(self).free_list@.len() - 1
                && forall|k: int| 0 <= k < old(self).objects@.len() && (#[trigger] old(self).objects@[k]) is Occupied
                    ==> final(self).objects@[k] == old(self).objects@[k],
            res is Err ==> full_of_reachable(*final(self), frames@),
    {
        let n = self.arena.len();
        let ghost s0 = self.objects@;
        let ghost a0 = self.arena@;
        self.arena.push(obj);
        proof {
            assert forall|k: int| 0 <= k < s0.len() && k != -1 implies is_young_at(s0, a0, k) == is_young_at(s0, self.arena@, k) by {
                if let Slot::Occupied(o) = s0[k] {
                    assert(o < a0.len());
                    assert(self.arena@[o as int] == a0[o as int]);
                }
            }
            lemma_count_point(s0, a0, s0, self.arena@, 0, -1);
        }
        let ghost a1 = self.arena@;
        proof {
            assert(!in_slot(s0, n)) by {
                if in_slot(s0, n) {
                    let k = choose|k: int| 0 <= k < s0.len() && s0[k] == Slot::Occupied(n);
                }
            }
        }
        let idx = match self.free_head {
            Some(i) => i,
            None => {
                let ghost sa = self.objects@;
                self.run_minor_gc(frames);
                proof {
                    assert(!in_slot(self.objects@, n)) by {
                        if in_slot(self.objects@, n) {
                            let k = choose|k: int| 0 <= k < self.objects@.len() && self.objects@[k] == Slot::Occupied(n);
                            assert(sa[k] == Slot::Occupied(n));
                        }
                    }
                }
                match self.free_head {
                    Some(i) => i,
                    None => {
                        let ghost sm = self.objects@;
                        let ghost am = self.arena@;
                        self.run_major_gc(frames);
                        match self.free_head {
                            Some(i) => i,
                            None => {
                                proof {
                                    assert forall|k: int| 0 <= k < self.objects@.len() implies (#[trigger] self.objects@[k]
                                        matches Slot::Occupied(o) && reachable(frames@, self.arena@, o)) by {
                                        if self.objects@[k] is Free {
                                            assert(self.free_list@.contains(k as usize));
                                        }
                                        if let Slot::Occupied(o) = self.objects@[k] {
                                            assert(sm[k] == Slot::Occupied(o));
                                            assert(reachable(frames@, am, o));
                                            lemma_reachable_same_kinds(frames@, am, self.arena@, o);
                                        }
                                    }
                                }
                                return Err(JVMError::Other("Heap exhausted after GC".to_string()));
                            },
                        }
                    },
                }
            },
        };
        let ghost s1 = self.objects@;
        let ghost a2 = self.arena@;
        let ghost l1 = self.free_list@;
        proof {
            assert(l1[0] == idx);
            assert(self.arena@.len() == self.arena.len());
            assert(self.objects@.len() == self.objects.len());
        }
        self.young_count = self.young_count + 1;
        self.take_slot(idx, n);
        proof {
            lemma_take_new(s1, self.objects@, a2, l1, idx, n);
            lemma_take_complete(s1, self.objects@, l1, idx);
            assert forall|k: int| 0 <= k < s1.len() && (#[trigger] s1[k]) is Occupied implies self.objects@[k] == s1[k] by {
                if l1.contains(k as usize) {
                    let j = choose|j: int| 0 <= j < l1.len() && l1[j] == k as usize;
                }
            }
        }
        Ok(n)
    }
}

/// Putting the new object `n` in the free slot `idx` keeps the slots
/// injective and in the arena, and counts at most one more young object.
proof fn lemma_take_new(s1: Seq<Slot>, s2: Seq<Slot>, arena: Seq<Object>, l: Seq<usize>, idx: usize, n: usize)
    requires
        n < arena.len(),
        s1.len() <= usize::MAX,
        l.contains(idx),
        forall|k: int| 0 <= k < l.len() ==> (#[trigger] l[k]) < s1.len() && s1[l[k] as int] is Free,
        s2.len() == s1.len(),
        s2[idx as int] == Slot::Occupied(n),
        forall|s: int| 0 <= s < s1.len() && s != idx && !l.contains(s as usize) ==> #[trigger] s2[s] == s1[s],
        forall|j: int| 0 <= j < l.len() && l[j] != idx ==> (#[trigger] s2[l[j] as int]) is Free,
        forall|s: int| 0 <= s < s1.len() ==> ((#[trigger] s1[s]) matches Slot::Occupied(o) ==> o < n),
        crate::heap::slots_injective(s1),
    ensures
        count_young(s2, arena, 0) <= count_young(s1, arena, 0) + 1,
        forall|s: int| 0 <= s < s2.len() ==> ((#[trigger] s2[s]) matches Slot::Occupied(o) ==> o < arena.len()),
        crate::heap::slots_injective(s2),
{
    assert forall|k: int| 0 <= k < s1.len() && k != idx implies is_young_at(s1, arena, k) == is_young_at(s2, arena, k) by {
        if l.contains(k as usize) {
            let j = choose|j: int| 0 <= j < l.len() && l[j] == k as usize;
            assert(s1[k] is Free);
            assert(s2[k] is Free);
        }
    }
    lemma_count_point(s1, arena, s2, arena, 0, idx as int);
    assert forall|a: int, b: int| 0 <= a < b < s2.len() && (#[trigger] s2[a]) is Occupied && (#[trigger] s2[b]) is Occupied
        implies s2[a] != s2[b] by {
        if a != idx {
            if l.contains(a as usize) {
                let j = choose|j: int| 0 <= j < l.len() && l[j] == a as usize;
                assert(s2[a] is Free);
            }
        }
        if b != idx {
            if l.contains(b as usize) {
                let j = choose|j: int| 0 <= j < l.len() && l[j] == b as usize;
                assert(s2[b] is Free);
            }
        }
        if a != idx && b != idx {
            assert(s1[a] != s1[b]);
        }
    }
}

/// Whether `res` is a reference to a new object at position `n` that
/// `heap` holds in a slot, of class `class` and contents `kind`.
pub open spec fn new_object(heap: Heap, n: usize, class: Option<usize>, res: Value) -> bool {
    &&& res == Value::Reference(Some(n))
    &&& heap.arena@.len() == n + 1
    &&& heap.arena@[n as int].class == class
    &&& exists|k: int| 0 <= k < heap.objects@.len() && heap.objects@[k] == Slot::Occupied(n)
}

/// An array of `char`s holding the codes of the characters of `s`.
fn char_array_of(s: &str, header: ObjectHeader) -> (res: Object)
    ensures
        res.class is None,
        res.header == header,
        res.kind matches ObjectKind::ArrayInstance { length, elements, element_type }
            && length == s@.len() && elements@ == char_values(s@) && element_type@ == "C"@,
{
    let chars = str_to_chars(s);
    let mut char_array = Object::new_array(None, chars.len(), "C", header);
    let mut i: usize = 0;
    while i < chars.len()
        invariant
            i <= chars@.len(),
            chars@ == s@,
            char_array.class is None,
            char_array.header == header,
            char_array.kind matches ObjectKind::ArrayInstance { length, elements, element_type }
                && length == chars@.len() && elements@.len() == chars@.len() && element_type@ == "C"@,
            contents(char_array).take(i as int) == char_values(s@).take(i as int),
        decreases chars@.len() - i,
    {
        let _ = char_array.set_element(i, Value::Int(chars[i] as u32 as i32));
        proof {
            assert(contents(char_array).take(i + 1) =~= char_values(s@).take(i + 1));
        }
        i = i + 1;
    }
    proof {
        assert(contents(char_array).take(i as int) =~= contents(char_array));
        assert(char_values(s@).take(i as int) =~= char_values(s@));
    }
    char_array
}

/// The character that `extract_string` reads from an element: its low
/// byte, or `?` for an element that holds no `int`.
pub open spec fn byte_char(v: Value) -> char {
    match v {
        Value::Int(c) => (c as u8) as char,
        _ => '?',
    }
}

/// The text that `extract_string` reads from the elements of a `char` array.
pub open spec fn byte_chars(s: Seq<Value>) -> Seq<char> {
    s.map_values(|v: Value| byte_char(v))
}

/// The text that `extract_string` gives for object `obj`, when it gives
/// one.
pub open spec fn string_text(arena: Seq<Object>, obj: usize) -> Option<Seq<char>> {
    if obj < arena.len() {
        match arena[obj as int].kind {
            ObjectKind::ClassInstance { fields } => match first_char_array(arena, fields@, 0) {
                Some(j) => Some(byte_chars(array_elements(arena, fields@[j]))),
                None => None,
            },
            ObjectKind::ArrayInstance { .. } => None,
        }
    } else {
        None
    }
}

/// What `extract_string` gives for object `obj`: its text, or the message
/// of why it holds none.
pub open spec fn string_read(arena: Seq<Object>, obj: usize) -> Result<Seq<char>, Seq<char>> {
    if obj < arena.len() {
        match arena[obj as int].kind {
            ObjectKind::ClassInstance { fields } => match first_char_array(arena, fields@, 0) {
                Some(j) => Ok(byte_chars(array_elements(arena, fields@[j]))),
                None => Err("No char array found in String object fields"@),
            },
            ObjectKind::ArrayInstance { .. } => Err("Object is not a ClassInstance"@),
        }
    } else {
        Err("Object is not a ClassInstance"@)
    }
}

impl Heap {
    /// A new instance of class `class_id`, each field at the default value
    /// of its type.
    pub fn allocate_object(&mut self, frames: &Vec<Frame>, loader: &ClassLoader, class_id: usize) -> (res: Result<Value, JVMError>)
        requires
            old(self).wf(),
            loader.wf(),
            class_id < loader.classes@.len(),
        ensures
            final(self).wf(),
            final(self).size == old(self).size,
            match res {
                Ok(v) => {
                    &&& new_object(*final(self), old(self).arena@.len() as usize, Some(class_id), v)
                    &&& final(self).arena@.last().kind matches ObjectKind::ClassInstance { fields }
                    &&& starts_as(fields@, loader.classes@[class_id as int].instance_fields@)
                },
                Err(e) => (is_exhausted(e) && final(self).free_head is None && full_of_reachable(*final(self), frames@))
                    || untyped_error(loader.classes@[class_id as int].instance_fields@, e),
            },
            !slots_typed(loader.classes@[class_id as int].instance_fields@) ==> res is Err && *final(self) == *old(self),
            old(self).free_head is Some && slots_typed(loader.classes@[class_id as int].instance_fields@) ==> res is Ok,
    {
        check_typed(&loader.classes[class_id].instance_fields)?;
        let header = self.new_header();
        let obj = Object::new_class(&loader.classes[class_id], class_id, header);
        let n = self.allocate(frames, obj)?;
        Ok(Value::Reference(Some(n)))
    }

    /// A new array of `length` elements named `element_type`, each
    /// `Default`. An array of a class's instances belongs to that class,
    /// `element_class`.
    pub fn allocate_array(
        &mut self,
        frames: &Vec<Frame>,
        element_type: &str,
        length: usize,
        element_class: Option<usize>,
    ) -> (res: Result<Value, JVMError>)
        requires
            old(self).wf(),
        ensures
            final(self).wf(),
            final(self).size == old(self).size,
            match res {
                Ok(v) => {
                    &&& new_object(*final(self), old(self).arena@.len() as usize,
                        if array_has_class(element_type@) { element_class } else { None }, v)
                    &&& final(self).arena@.last().kind matches ObjectKind::ArrayInstance { length: n, elements, element_type: t }
                    &&& n == length && elements@ == Seq::new(length as nat, |i: int| Value::Default)
                    &&& t@ == array_type_of(element_type@)
                },
                Err(e) => is_exhausted(e) && final(self).free_head is None && full_of_reachable(*final(self), frames@),
            },
            old(self).free_head is Some ==> res is Ok,
            final(self).arena@.len() >= old(self).arena@.len(),
            forall|o: int| 0 <= o < old(self).arena@.len() ==> (#[trigger] final(self).arena@[o]).kind == old(self).arena@[o].kind,
    {
        let chars = str_to_chars(element_type);
        let primitive_or_array = (chars.len() > 0 && chars[0] == '[') || chars.len() == 1;
        let class = if primitive_or_array { None } else { element_class };
        let appended = if primitive_or_array {
            element_type.to_string()
        } else {
            let a = concat("L", element_type);
            concat(a.as_str(), ";")
        };
        proof {
            reveal_strlit("L");
            reveal_strlit(";");
            assert("L"@ == seq!['L']);
            assert(";"@ == seq![';']);
        }
        let header = self.new_header();
        let obj = Object::new_array(class, length, appended.as_str(), header);
        let n = self.allocate(frames, obj)?;
        Ok(Value::Reference(Some(n)))
    }

    /// A new `java/lang/String` holding `string_value`: a `char` array of
    /// the characters' codes is allocated first, then the string, whose
    /// field `value` refers to the array.
    #[verifier::rlimit(60)]
    pub fn allocate_string(
        &mut self,
        frames: &Vec<Frame>,
        loader: &ClassLoader,
        string_class: usize,
        string_value: &str,
    ) -> (res: Result<Value, JVMError>)
        requires
            old(self).wf(),
            loader.wf(),
            string_class < loader.classes@.len(),
        ensures
            final(self).wf(),
            final(self).size == old(self).size,
            final(self).arena@.len() >= old(self).arena@.len(),
            match res {
                Ok(v) => {
                    let n = (final(self).arena@.len() - 1) as usize;
                    let m = old(self).arena@.len() as usize;
                    &&& new_object(*final(self), n, Some(string_class), v)
                    &&& n == m + 1
                    &&& final(self).arena@[m as int].kind matches ObjectKind::ArrayInstance { length, elements, element_type }
                    &&& length == string_value@.len() && elements@ == char_values(string_value@) && element_type@ == "C"@
                    &&& final(self).arena@[n as int].kind matches ObjectKind::ClassInstance { fields }
                    &&& spec_last_named(loader.classes@[string_class as int].instance_fields@, "value"@) matches Some(i)
                    &&& i < fields@.len() && fields@[i] == Value::Reference(Some(m))
                },
                Err(e) => (is_exhausted(e) && final(self).free_head is None) || (e matches JVMError::Other(_)
                    && spec_last_named(loader.classes@[string_class as int].instance_fields@, "value"@) is None)
                    || untyped_error(loader.classes@[string_class as int].instance_fields@, e),
            },
            !slots_typed(loader.classes@[string_class as int].instance_fields@) ==> res is Err && *final(self) == *old(self),
            old(self).free_list@.len() >= 2 && spec_last_named(loader.classes@[string_class as int].instance_fields@, "value"@)
                is Some && slots_typed(loader.classes@[string_class as int].instance_fields@) ==> {
                &&& res is Ok
                &&& final(self).young_count == old(self).young_count + 2
                &&& exists|k: int| 0 <= k < final(self).objects@.len() && final(self).objects@[k] == Slot::Occupied(
                    old(self).arena@.len() as usize)
            },
    {
        let ghost y0 = self.young_count;
        check_typed(&loader.classes[string_class].instance_fields)?;
        let header = self.new_header();
        let char_array = char_array_of(string_value, header);
        let m = self.allocate(frames, char_array)?;
        let ghost s_mid = self.objects@;
        let header = self.new_header();
        let mut string_obj = Object::new_class(&loader.classes[string_class], string_class, header);
        proof {
            crate::loaded_class::lemma_last_named_bound(loader.classes@[string_class as int].instance_fields@, "value"@);
        }
        string_obj.set_field(&loader.classes[string_class], "value", Value::Reference(Some(m)))?;
        let ghost a_mid = self.arena@;
        let n = self.allocate(frames, string_obj)?;
        proof {
            assert(self.arena@[m as int].kind == a_mid[m as int].kind);
            if old(self).free_list@.len() >= 2 {
                let k = choose|k: int| 0 <= k < s_mid.len() && s_mid[k] == Slot::Occupied(m);
                assert(self.objects@[k] == s_mid[k]);
            }
        }
        Ok(Value::Reference(Some(n)))
    }

    /// A new `java/lang/Class` object for class `loaded_class`: its name is
    /// allocated as a string first, and the field `name` refers to it.
    pub fn allocate_class(
        &mut self,
        frames: &Vec<Frame>,
        loader: &ClassLoader,
        class_class: usize,
        string_class: usize,
        loaded_class: usize,
    ) -> (res: Result<Value, JVMError>)
        requires
            old(self).wf(),
            loader.wf(),
            class_class < loader.classes@.len(),
            string_class < loader.classes@.len(),
            loaded_class < loader.classes@.len(),
        ensures
            final(self).wf(),
            final(self).size == old(self).size,
            match res {
                Ok(v) => {
                    let n = (final(self).arena@.len() - 1) as usize;
                    &&& new_object(*final(self), n, Some(class_class), v)
                    &&& final(self).arena@[n as int].kind matches ObjectKind::ClassInstance { fields }
                    &&& spec_last_named(loader.classes@[class_class as int].instance_fields@, "name"@) matches Some(i)
                    &&& i < fields@.len()
                    &&& fields@[i] matches Value::Reference(Some(s))
                    &&& s < n && final(self).arena@[s as int].class == Some(string_class)
                },
                Err(e) => is_exhausted(e) || e matches JVMError::Other(_),
            },
    {
        check_typed(&loader.classes[class_class].instance_fields)?;
        let name_value = self.allocate_string(frames, loader, string_class, loader.classes[loaded_class].class_name.as_str())?;
        let ghost s_arena = self.arena@;
        let header = self.new_header();
        let mut class_obj = Object::new_class(&loader.classes[class_class], class_class, header);
        proof {
            crate::loaded_class::lemma_last_named_bound(loader.classes@[class_class as int].instance_fields@, "name"@);
        }
        class_obj.set_field(&loader.classes[class_class], "name", name_value)?;
        let n = self.allocate(frames, class_obj)?;
        proof {
            let s = (s_arena.len() - 1) as usize;
            assert(self.arena@[s as int].class == s_arena[s as int].class);
        }
        Ok(Value::Reference(Some(n)))
    }

    /// The text of a string object: the first field of `obj` that refers to
    /// a `char` array gives it, each element taken as one byte.
    pub fn extract_string(&self, obj: usize) -> (res: Result<String, String>)
        ensures
            match string_read(self.arena@, obj) {
                Ok(t) => res matches Ok(s) && s@ == t,
                Err(m) => res matches Err(e) && e@ == m,
            },
            match string_text(self.arena@, obj) {
                Some(t) => res matches Ok(s) && s@ == t,
                None => res is Err,
            },
    {
        if obj >= self.arena.len() {
            return Err("Object is not a ClassInstance".to_string());
        }
        match &self.arena[obj].kind {
            ObjectKind::ClassInstance { fields } => {
                let mut j: usize = 0;
                while j < fields.len()
                    invariant
                        j <= fields@.len(),
                        obj < self.arena@.len(),
                        self.arena@[obj as int].kind == (ObjectKind::ClassInstance { fields: *fields }),
                        first_char_array(self.arena@, fields@, 0) == first_char_array(self.arena@, fields@, j as int),
                    decreases fields@.len() - j,
                {
                    if let Value::Reference(Some(a)) = fields[j] {
                        if a < self.arena.len() {
                            if let ObjectKind::ArrayInstance { elements, element_type, .. } = &self.arena[a].kind {
                                if crate::text::str_eq(element_type.as_str(), "C") {
                                    let out = bytes_text(elements);
                                    return Ok(out);
                                }
                            }
                        }
                    }
                    j = j + 1;
                }
                Err("No char array found in String object fields".to_string())
            },
            ObjectKind::ArrayInstance { .. } => Err("Object is not a ClassInstance".to_string()),
        }
    }
}

/// The text of a `char` array's elements, each taken as one byte.
fn bytes_text(elements: &Vec<Value>) -> (res: String)
    ensures
        res@ == byte_chars(elements@),
{
    let mut out = String::new();
    let mut k: usize = 0;
    while k < elements.len()
        invariant
            k <= elements@.len(),
            out@ == byte_chars(elements@.take(k as int)),
        decreases elements@.len() - k,
    {
        let c = match elements[k] {
            Value::Int(c) => (#[verifier::truncate] (c as u8)) as char,
            _ => '?',
        };
        crate::text::string_push(&mut out, c);
        k = k + 1;
        assert(out@ =~= byte_chars(elements@.take(k as int)));
    }
    assert(elements@.take(k as int) =~= elements@);
    out
}

/// Whether `v` refers to an array of `char`s.
pub open spec fn is_char_array(arena: Seq<Object>, v: Value) -> bool {
    &&& v matches Value::Reference(Some(a))
    &&& a < arena.len()
    &&& arena[a as int].kind matches ObjectKind::ArrayInstance { element_type, .. }
    &&& element_type@ == "C"@
}

/// The elements of the array that `v` refers to.
pub open spec fn array_elements(arena: Seq<Object>, v: Value) -> Seq<Value> {
    match v {
        Value::Reference(Some(a)) => contents(arena[a as int]),
        _ => Seq::empty(),
    }
}

/// The position of the first of `fields`, from `j` on, that refers to an
/// array of `char`s.
pub open spec fn first_char_array(arena: Seq<Object>, fields: Seq<Value>, j: int) -> Option<int>
    decreases fields.len() - j,
{
    if j < 0 || j >= fields.len() {
        None
    } else if is_char_array(arena, fields[j]) {
        Some(j)
    } else {
        first_char_array(arena, fields, j + 1)
    }
}

} // verus!
