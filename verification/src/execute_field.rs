//! Field access: `getfield`, `putfield`, `getstatic` and `putstatic`.

use vstd::prelude::*;
use crate::class_loader::{chain_has, static_owner, ClassLoader};
use crate::constant_pool::{
    spec_class_name, spec_entry, spec_utf8, ConstantFieldRefInfo, ConstantInfo, ConstantNameAndTypeInfo,
};
use crate::garbage_collector::same_object_but_mark;
use crate::heap::Heap;
use crate::jvm_error::JVMError;
use crate::loaded_class::spec_last_named;
use crate::object::{is_instance_with, ObjectKind};
use crate::runtime::{fails_with, pop_one, pushes, ExecutionResult, Failure, Frame, Tag, Value};

verus! {

/// The position of the first `;` in `d` from `i` on, or its length.
pub open spec fn semicolon_at(d: Seq<char>, i: int) -> int
    decreases d.len() - i,
{
    if i < 0 || i >= d.len() || d[i] == ';' {
        if i < 0 { 0 } else if i > d.len() { d.len() as int } else { i }
    } else {
        semicolon_at(d, i + 1)
    }
}

/// The kind of value a field of descriptor `d` holds, read from the part
/// of `d` before its first `;`.
pub open spec fn field_tag(d: Seq<char>) -> Option<Tag> {
    let p = d.take(semicolon_at(d, 0));
    if p == seq!['Z'] || p == seq!['B'] || p == seq!['C'] || p == seq!['S'] || p == seq!['I'] {
        Some(Tag::Int)
    } else if p == seq!['J'] {
        Some(Tag::Long)
    } else if p == seq!['F'] {
        Some(Tag::Float)
    } else if p == seq!['D'] {
        Some(Tag::Double)
    } else if p.len() > 0 && (p[0] == 'L' || p[0] == '[') {
        Some(Tag::Reference)
    } else {
        None
    }
}

/// What a field reference at `index` names: the class, the field's name and
/// its descriptor; or the error that resolving it gives.
pub open spec fn spec_field_ref(cp: Seq<ConstantInfo>, index: u16) -> Result<(Seq<char>, Seq<char>, Seq<char>), JVMError> {
    match spec_entry(cp, index) {
        None => Err(JVMError::ConstantPoolIndexOutOfBounds { index, max: cp.len() as usize }),
        Some(ConstantInfo::FieldRef(ConstantFieldRefInfo { class_index, name_and_type_index })) => match spec_class_name(
            cp,
            class_index,
        ) {
            None => Err(JVMError::InvalidConstantType { expected: "Class", found: "missing name" }),
            Some(class_name) => match spec_name_and_type(cp, name_and_type_index) {
                Err(e) => Err(e),
                Ok((name, des)) => Ok((class_name, name, des)),
            },
        },
        Some(_) => Err(JVMError::InvalidConstantType { expected: "Fieldref", found: "other" }),
    }
}

/// The name and descriptor that the `NameAndType` entry at `index` names,
/// or the error that resolving it gives.
pub open spec fn spec_name_and_type(cp: Seq<ConstantInfo>, index: u16) -> Result<(Seq<char>, Seq<char>), JVMError> {
    match spec_entry(cp, index) {
        None => Err(JVMError::ConstantPoolIndexOutOfBounds { index, max: cp.len() as usize }),
        Some(ConstantInfo::NameAndType(ConstantNameAndTypeInfo { name_index, descriptor_index })) => match spec_utf8(
            cp,
            name_index,
        ) {
            None => Err(JVMError::InvalidConstantType { expected: "NameAndType", found: "missing name" }),
            Some(name) => match spec_utf8(cp, descriptor_index) {
                None => Err(JVMError::InvalidConstantType { expected: "NameAndType", found: "missing type" }),
                Some(des) => Ok((name, des)),
            },
        },
        Some(_) => Err(JVMError::InvalidConstantType { expected: "NameAndType", found: "other" }),
    }
}

/// Whether `res` holds the three strings `r` gives, or its error.
pub open spec fn resolves_to(res: Result<(String, String, String), JVMError>, r: Result<(Seq<char>, Seq<char>, Seq<char>), JVMError>) -> bool {
    match r {
        Ok((a, b, c)) => res matches Ok((x, y, z)) && x@ == a && y@ == b && z@ == c,
        Err(e) => res == Err::<(String, String, String), JVMError>(e),
    }
}

/// The kind of value a field of descriptor `descriptor` holds.
pub fn field_kind(descriptor: &str) -> (res: Option<Tag>)
    ensures
        res == field_tag(descriptor@),
{
    let chars = crate::text::str_to_chars(descriptor);
    let mut n: usize = 0;
    while n < chars.len() && chars[n] != ';'
        invariant
            n <= chars@.len(),
            chars@ == descriptor@,
            semicolon_at(descriptor@, 0) == semicolon_at(descriptor@, n as int),
        decreases chars@.len() - n,
    {
        n = n + 1;
    }
    let ghost p = descriptor@.take(n as int);
    if n == 1 {
        let c = chars[0];
        assert(p =~= seq![c]);
        proof {
            lemma_single_eq(c);
        }
        if c == 'Z' || c == 'B' || c == 'C' || c == 'S' || c == 'I' {
            return Some(Tag::Int);
        } else if c == 'J' {
            return Some(Tag::Long);
        } else if c == 'F' {
            return Some(Tag::Float);
        } else if c == 'D' {
            return Some(Tag::Double);
        }
    }
    proof {
        if n != 1 {
            assert(p.len() != 1);
            assert(p != seq!['Z'] && p != seq!['B'] && p != seq!['C'] && p != seq!['S'] && p != seq!['I']);
            assert(p != seq!['J'] && p != seq!['F'] && p != seq!['D']);
        } else {
            assert(p == seq![chars@[0]]);
        }
    }
    if n > 0 && (chars[0] == 'L' || chars[0] == '[') {
        assert(p[0] == chars@[0]);
        Some(Tag::Reference)
    } else {
        None
    }
}

/// A one-element sequence equals another exactly when their elements do.
proof fn lemma_single_eq(c: char)
    ensures
        forall|d: char| (seq![c] == seq![d]) == (c == d),
{
    assert forall|d: char| (seq![c] == seq![d]) == (c == d) by {
        if seq![c] == seq![d] {
            assert(seq![c][0] == seq![d][0]);
        }
    }
}

/// The outcome of `getfield` of the reference at `index`.
pub open spec fn getfield_result(old: Frame, new: Frame, index: u16, heap: Heap, loader: ClassLoader, res: Result<ExecutionResult, JVMError>) -> bool {
    &&& old.same_but_operands(new)
    &&& match spec_field_ref(old.constant_pool.entries(), index) {
        Err(e) => res == Err::<ExecutionResult, JVMError>(e),
        Ok((cn, name, _)) => match pop_one(old.operands@, Tag::Reference) {
            Err(f) => fails_with(res, f),
            Ok(Value::Reference(None)) => res matches Err(JVMError::NullReference),
            Ok(Value::Reference(Some(o))) => if o >= heap.arena@.len() {
                res == Err::<ExecutionResult, JVMError>(JVMError::NullReference)
            } else {
                match heap.arena@[o as int].class {
                    None => res matches Err(JVMError::Other(_)),
                    Some(c) => if c >= loader.classes@.len() {
                        res matches Err(JVMError::Other(_))
                    } else if !chain_has(loader.classes@, c as nat, cn) {
                        res matches Err(JVMError::IncompatibleClass { .. })
                    } else {
                        match heap.arena@[o as int].kind {
                            ObjectKind::ClassInstance { fields } => match spec_last_named(
                                loader.classes@[c as int].instance_fields@,
                                name,
                            ) {
                                Some(i) => if i < fields@.len() {
                                    pushes(old.code.max_stack, old.operands@.drop_last(), fields@[i], new.operands@, res)
                                } else {
                                    res matches Err(JVMError::Other(_))
                                },
                                None => res matches Err(JVMError::Other(_)),
                            },
                            _ => res matches Err(JVMError::Other(_)),
                        }
                    },
                }
            },
            _ => false,
        },
    }
}

/// The outcome of `putfield` of the reference at `index`.
pub open spec fn putfield_result(old: Frame, new: Frame, index: u16, old_heap: Heap, new_heap: Heap, loader: ClassLoader, res: Result<ExecutionResult, JVMError>) -> bool {
    &&& old.same_but_operands(new)
    &&& new_heap.wf()
    &&& new_heap.arena@.len() == old_heap.arena@.len()
    &&& new_heap.objects == old_heap.objects
    &&& putfield_outcome(old, new, index, old_heap, new_heap, loader, res)
}

/// What `putfield` of the reference at `index` gives, and does to the
/// operands and the objects.
pub open spec fn putfield_outcome(old: Frame, new: Frame, index: u16, old_heap: Heap, new_heap: Heap, loader: ClassLoader, res: Result<ExecutionResult, JVMError>) -> bool {
    match spec_field_ref(old.constant_pool.entries(), index) {
        Err(e) => res == Err::<ExecutionResult, JVMError>(e) && new_heap.arena@ =~= old_heap.arena@,
        Ok((cn, name, des)) => match field_tag(des) {
            None => res matches Err(JVMError::Other(_)) && new_heap.arena@ =~= old_heap.arena@,
            Some(t) => match crate::runtime::pop_many(old.operands@, seq![t, Tag::Reference]) {
                Err(f) => fails_with(res, f) && new_heap.arena@ =~= old_heap.arena@,
                Ok(vs) => match vs[1] {
                    Value::Reference(Some(o)) => if o >= old_heap.arena@.len() {
                        res == Err::<ExecutionResult, JVMError>(JVMError::NullReference) && new_heap.arena@ =~= old_heap.arena@
                    } else {
                        match old_heap.arena@[o as int].class {
                            Some(c) => if c >= loader.classes@.len() {
                                res matches Err(JVMError::Other(_)) && new_heap.arena@ =~= old_heap.arena@
                            } else if !chain_has(loader.classes@, c as nat, cn) {
                                res matches Err(JVMError::IncompatibleClass { .. }) && new_heap.arena@ =~= old_heap.arena@
                            } else {
                                match old_heap.arena@[o as int].kind {
                                    ObjectKind::ClassInstance { fields } => match spec_last_named(
                                        loader.classes@[c as int].instance_fields@,
                                        name,
                                    ) {
                                        Some(i) => if i < fields@.len() {
                                            &&& res matches Ok(ExecutionResult::Continue)
                                            &&& new.operands@ =~= old.operands@.take(old.operands@.len() - 2)
                                            &&& is_instance_with(new_heap.arena@[o as int], fields@.update(i, vs[0]))
                                            &&& new_heap.arena@[o as int].class == old_heap.arena@[o as int].class
                                            &&& forall|p: int| 0 <= p < old_heap.arena@.len() && p != o ==> #[trigger] new_heap.arena@[p]
                                                == old_heap.arena@[p]
                                        } else {
                                            res matches Err(JVMError::Other(_))
                                        },
                                        None => res matches Err(JVMError::Other(_)),
                                    },
                                    _ => res matches Err(JVMError::Other(_)),
                                }
                            },
                            None => res matches Err(JVMError::Other(_)) && new_heap.arena@ =~= old_heap.arena@,
                        }
                    },
                    _ => res matches Err(JVMError::NullReference),
                },
            },
        },
    }
}

/// The outcome of `getstatic` of the reference at `index`, in class `class_id`.
pub open spec fn getstatic_result(old: Frame, new: Frame, index: u16, class_id: usize, loader: ClassLoader, res: Result<ExecutionResult, JVMError>) -> bool {
    &&& old.same_but_operands(new)
    &&& match spec_field_ref(old.constant_pool.entries(), index) {
        Err(e) => res == Err::<ExecutionResult, JVMError>(e),
        Ok((_, name, _)) => match static_owner(loader.classes@, class_id as nat, name) {
            Some((c, k)) => pushes(old.code.max_stack, old.operands@,
                loader.classes@[c as int].static_values@[k as int], new.operands@, res),
            None => res matches Err(JVMError::Other(_)),
        },
    }
}

/// The outcome of `putstatic` of the reference at `index`, in class `class_id`.
pub open spec fn putstatic_result(old: Frame, new: Frame, index: u16, class_id: usize, old_loader: ClassLoader, new_loader: ClassLoader, res: Result<ExecutionResult, JVMError>) -> bool {
    &&& old.same_but_operands(new)
    &&& new_loader.wf()
    &&& match spec_field_ref(old.constant_pool.entries(), index) {
        Err(e) => res == Err::<ExecutionResult, JVMError>(e) && new_loader.classes@ =~= old_loader.classes@,
        Ok((_, name, des)) => match field_tag(des) {
            None => res matches Err(JVMError::Other(_)) && new_loader.classes@ =~= old_loader.classes@,
            Some(t) => match pop_one(old.operands@, t) {
                Err(f) => fails_with(res, f) && new_loader.classes@ =~= old_loader.classes@,
                Ok(v) => match static_owner(old_loader.classes@, class_id as nat, name) {
                    Some((c, k)) => {
                        &&& res matches Ok(ExecutionResult::Continue)
                        &&& new.operands@ =~= old.operands@.drop_last()
                        &&& new_loader.classes@[c as int].static_values@ == old_loader.classes@[c as int].static_values@.update(
                            k as int, v)
                    },
                    None => res matches Err(JVMError::Other(_)) && new_loader.classes@ =~= old_loader.classes@,
                },
            },
        },
    }
}

impl Frame {
    /// The name and descriptor that the `NameAndType` entry at `index` names.
    pub fn get_name_and_type(&self, index: u16) -> (res: Result<(String, String), JVMError>)
        ensures
            match spec_name_and_type(self.constant_pool.entries(), index) {
                Ok((n, d)) => res matches Ok((x, y)) && x@ == n && y@ == d,
                Err(e) => res == Err::<(String, String), JVMError>(e),
            },
    {
        let cp_entry = match self.constant_pool.get_entry(index) {
            Some(e) => e,
            None => {
                return Err(JVMError::ConstantPoolIndexOutOfBounds { index, max: self.constant_pool.get_len() });
            },
        };
        match cp_entry {
            ConstantInfo::NameAndType(ConstantNameAndTypeInfo { name_index, descriptor_index }) => {
                let name = match self.constant_pool.get_underlying_string_from_utf8_index(*name_index) {
                    Some(n) => n.clone(),
                    None => {
                        return Err(JVMError::InvalidConstantType { expected: "NameAndType", found: "missing name" });
                    },
                };
                let type_ = match self.constant_pool.get_underlying_string_from_utf8_index(*descriptor_index) {
                    Some(d) => d.clone(),
                    None => {
                        return Err(JVMError::InvalidConstantType { expected: "NameAndType", found: "missing type" });
                    },
                };
                Ok((name, type_))
            },
            _ => Err(JVMError::InvalidConstantType { expected: "NameAndType", found: "other" }),
        }
    }

    /// The class name, field name and descriptor of the field reference at
    /// `index`.
    pub fn resolve_field_ref(&self, index: u16) -> (res: Result<(String, String, String), JVMError>)
        ensures
            resolves_to(res, spec_field_ref(self.constant_pool.entries(), index)),
    {
        let cp_entry = match self.constant_pool.get_entry(index) {
            Some(e) => e,
            None => {
                return Err(JVMError::ConstantPoolIndexOutOfBounds { index, max: self.constant_pool.get_len() });
            },
        };
        let (class_index, name_and_type_index) = match cp_entry {
            ConstantInfo::FieldRef(ConstantFieldRefInfo { class_index, name_and_type_index }) => (
                *class_index,
                *name_and_type_index,
            ),
            _ => {
                return Err(JVMError::InvalidConstantType { expected: "Fieldref", found: "other" });
            },
        };
        let class_name = match self.constant_pool.get_underlying_string_from_constant_class_info_index(class_index) {
            Some(c) => c.clone(),
            None => {
                return Err(JVMError::InvalidConstantType { expected: "Class", found: "missing name" });
            },
        };
        let (name, descriptor) = self.get_name_and_type(name_and_type_index)?;
        Ok((class_name, name, descriptor))
    }

    /// Pops a value of kind `t`.
    pub fn pop_expect(&mut self, t: Tag) -> (res: Result<Value, JVMError>)
        requires
            t != Tag::Any,
        ensures
            old(self).same_but_operands(*final(self)),
            match pop_one(old(self).operands@, t) {
                Ok(v) => res == Ok::<Value, JVMError>(v) && final(self).operands@ == old(self).operands@.drop_last(),
                Err(f) => fails_with(res, f),
            },
    {
        match t {
            Tag::Int => Ok(Value::Int(self.pop_expect_int()?)),
            Tag::Long => Ok(Value::Long(self.pop_expect_long()?)),
            Tag::Float => Ok(Value::Float(self.pop_expect_float()?)),
            Tag::Double => Ok(Value::Double(self.pop_expect_double()?)),
            _ => Ok(Value::Reference(self.pop_expect_reference()?)),
        }
    }

    /// `getfield`: pops an object and pushes its field that the field
    /// reference at `index` names; the object's class must be the class the
    /// reference names or descend from it.
    pub fn getfield(&mut self, index: u16, heap: &Heap, loader: &ClassLoader) -> (res: Result<ExecutionResult, JVMError>)
        requires
            loader.wf(),
        ensures
            getfield_result(*old(self), *final(self), index, *heap, *loader, res),
    {
        let (expected_class_name, name, _descriptor) = self.resolve_field_ref(index)?;
        let obj_ref = self.pop_expect_reference()?;
        match obj_ref {
            Some(o) => {
                if o >= heap.arena.len() {
                    return Err(JVMError::NullReference);
                }
                let c = match heap.arena[o].class {
                    Some(c) => c,
                    None => {
                        return Err(JVMError::Other("Object has no class".to_string()));
                    },
                };
                if c >= loader.classes.len() {
                    return Err(JVMError::Other("Object has no class".to_string()));
                }
                if !loader.is_compatible_class(c, expected_class_name.as_str()) {
                    return Err(JVMError::IncompatibleClass {
                        expected: expected_class_name,
                        found: loader.classes[c].class_name.clone(),
                    });
                }
                let value = heap.arena[o].get_field(&loader.classes[c], name.as_str())?;
                self.push(value)?;
                Ok(ExecutionResult::Continue)
            },
            None => Err(JVMError::NullReference),
        }
    }

    /// `putfield`: pops a value of the field's kind and an object, and stores
    /// the value in the object's field that the reference at `index` names.
    #[verifier::rlimit(40)]
    pub fn putfield(&mut self, index: u16, heap: &mut Heap, loader: &ClassLoader) -> (res: Result<ExecutionResult, JVMError>)
        requires
            loader.wf(),
            old(heap).wf(),
        ensures
            putfield_result(*old(self), *final(self), index, *old(heap), *final(heap), *loader, res),
    {
        proof {
            reveal_with_fuel(crate::runtime::pop_many, 3);
        }
        let (expected_class_name, name, descriptor) = self.resolve_field_ref(index)?;
        let t = match field_kind(descriptor.as_str()) {
            Some(t) => t,
            None => {
                return Err(JVMError::Other(crate::text::concat("Unsupported field descriptor: ", descriptor.as_str())));
            },
        };
        let value = self.pop_expect(t)?;
        let obj_ref = self.pop_expect(Tag::Reference)?;
        assert(self.operands@ =~= old(self).operands@.take(old(self).operands@.len() - 2));
        match obj_ref {
            Value::Reference(Some(o)) => {
                if o >= heap.arena.len() {
                    return Err(JVMError::NullReference);
                }
                let c = match heap.arena[o].class {
                    Some(c) => c,
                    None => {
                        return Err(JVMError::Other("Object has no class".to_string()));
                    },
                };
                if c >= loader.classes.len() {
                    return Err(JVMError::Other("Object has no class".to_string()));
                }
                if !loader.is_compatible_class(c, expected_class_name.as_str()) {
                    return Err(JVMError::IncompatibleClass {
                        expected: expected_class_name,
                        found: loader.classes[c].class_name.clone(),
                    });
                }
                heap.set_object_field(o, &loader.classes[c], name.as_str(), value)?;
                Ok(ExecutionResult::Continue)
            },
            _ => Err(JVMError::NullReference),
        }
    }

    /// `getstatic`: pushes the static field that the reference at `index`
    /// names, as its class (at `class_id`) sees it.
    pub fn getstatic(&mut self, index: u16, class_id: usize, loader: &ClassLoader) -> (res: Result<ExecutionResult, JVMError>)
        requires
            loader.wf(),
        ensures
            getstatic_result(*old(self), *final(self), index, class_id, *loader, res),
    {
        let (_class_name, name, _descriptor) = self.resolve_field_ref(index)?;
        let value = loader.get_static_field(class_id, name.as_str())?;
        self.push(value)?;
        Ok(ExecutionResult::Continue)
    }

    /// `putstatic`: pops a value of the field's kind into the static field
    /// that the reference at `index` names, as its class (at `class_id`)
    /// sees it.
    pub fn putstatic(&mut self, index: u16, class_id: usize, loader: &mut ClassLoader) -> (res: Result<ExecutionResult, JVMError>)
        requires
            old(loader).wf(),
        ensures
            putstatic_result(*old(self), *final(self), index, class_id, *old(loader), *final(loader), res),
    {
        let (_class_name, name, descriptor) = self.resolve_field_ref(index)?;
        let t = match field_kind(descriptor.as_str()) {
            Some(t) => t,
            None => {
                return Err(JVMError::Other(crate::text::concat("Unsupported field descriptor: ", descriptor.as_str())));
            },
        };
        let value = self.pop_expect(t)?;
        loader.set_static_field(class_id, name.as_str(), value)?;
        Ok(ExecutionResult::Continue)
    }
}

impl Heap {
    /// Sets field `name` of object `o`, an instance of `class`.
    pub fn set_object_field(&mut self, o: usize, class: &crate::loaded_class::LoadedClass, name: &str, value: Value) -> (res: Result<(), JVMError>)
        requires
            old(self).wf(),
            o < old(self).arena@.len(),
        ensures
            final(self).wf(),
            final(self).objects == old(self).objects,
            final(self).arena@.len() == old(self).arena@.len(),
            forall|p: int| 0 <= p < old(self).arena@.len() && p != o ==> #[trigger] final(self).arena@[p] == old(self).arena@[p],
            final(self).arena@[o as int].class == old(self).arena@[o as int].class,
            match old(self).arena@[o as int].kind {
                ObjectKind::ClassInstance { fields } => match spec_last_named(class.instance_fields@, name@) {
                    Some(i) => if i < fields@.len() {
                        res is Ok && is_instance_with(final(self).arena@[o as int], fields@.update(i, value))
                    } else {
                        res matches Err(JVMError::Other(_)) && final(self).arena@ == old(self).arena@
                    },
                    None => res matches Err(JVMError::Other(_)) && final(self).arena@ == old(self).arena@,
                },
                _ => res matches Err(JVMError::Other(_)) && final(self).arena@ == old(self).arena@,
            },
    {
        let ghost a0 = self.arena@;
        let r = self.arena[o].set_field(class, name, value);
        proof {
            assert forall|k: int| 0 <= k < self.objects@.len() && crate::heap::is_young_at(self.objects@, a0, k) != crate::heap::is_young_at(self.objects@, self.arena@, k) implies false by {}
            crate::heap::lemma_count_point(self.objects@, a0, self.objects@, self.arena@, 0, -1);
            if r is Err {
                assert(self.arena@ =~= a0);
            }
        }
        r
    }
}

} // verus!
