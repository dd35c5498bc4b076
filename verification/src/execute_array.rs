//! Array instructions: creation, loads, stores and `arraylength`.

use vstd::prelude::*;
use crate::allocation::{array_has_class, array_type_of, is_exhausted, new_object};
use crate::class_loader::{chain_has, spec_find_class, ClassLoader};
use crate::constant_pool::{spec_entry, spec_utf8, ConstantClassInfo, ConstantInfo};
use crate::execute_arith::int_of;
use crate::heap::Heap;
use crate::jvm_error::JVMError;
use crate::object::{contents, ObjectKind};
use crate::runtime::{fails_with, popped, pushes, rest, ExecutionResult, Frame, Tag, Value};

verus! {

/// The kind of elements an array load or store works on.
#[derive(Debug, Clone, Copy, PartialEq, Eq, Structural)]
pub enum ArrayKind {
    I,
    J,
    F,
    D,
    L,
    B,
    C,
    S,
}

/// The one-letter name of an array kind.
pub open spec fn kind_name(k: ArrayKind) -> Seq<char> {
    match k {
        ArrayKind::I => seq!['I'],
        ArrayKind::J => seq!['J'],
        ArrayKind::F => seq!['F'],
        ArrayKind::D => seq!['D'],
        ArrayKind::L => seq!['L'],
        ArrayKind::B => seq!['B'],
        ArrayKind::C => seq!['C'],
        ArrayKind::S => seq!['S'],
    }
}

/// Whether an array whose elements are named `t` can be loaded from or
/// stored to as kind `k`: a reference kind takes class and array element
/// types, `B` takes byte and boolean arrays, another kind takes its own
/// one-letter name only.
pub open spec fn kind_fits(k: ArrayKind, t: Seq<char>) -> bool {
    if k == ArrayKind::L {
        t.len() > 0 && (t[0] == 'L' || t[0] == '[')
    } else if k == ArrayKind::B {
        t == kind_name(k) || t == seq!['Z']
    } else {
        t == kind_name(k)
    }
}

/// The kind of value that array kind `k` pops.
pub open spec fn kind_tag(k: ArrayKind) -> Tag {
    match k {
        ArrayKind::J => Tag::Long,
        ArrayKind::F => Tag::Float,
        ArrayKind::D => Tag::Double,
        ArrayKind::L => Tag::Reference,
        _ => Tag::Int,
    }
}

/// Whether `res` is the throw of `java/lang/ArrayIndexOutOfBoundsException`.
pub open spec fn throws_bounds(res: Result<ExecutionResult, JVMError>) -> bool {
    res matches Ok(ExecutionResult::Throw(s)) && s@ == "java/lang/ArrayIndexOutOfBoundsException"@
}

/// The element type named by `newarray`'s type code.
pub open spec fn atype_name(atype: u8) -> Option<Seq<char>> {
    if atype == 4 { Some(seq!['Z']) }
    else if atype == 5 { Some(seq!['C']) }
    else if atype == 6 { Some(seq!['F']) }
    else if atype == 7 { Some(seq!['D']) }
    else if atype == 8 { Some(seq!['B']) }
    else if atype == 9 { Some(seq!['S']) }
    else if atype == 10 { Some(seq!['I']) }
    else if atype == 11 { Some(seq!['J']) }
    else { None }
}

/// The class name an array element type names for a store check: `t`
/// without a leading `L` and a trailing `;` when it has both.
pub open spec fn strip_class(t: Seq<char>) -> Seq<char> {
    if t.len() >= 2 && t[0] == 'L' && t.last() == ';' { t.subrange(1, t.len() - 1) } else { t }
}

/// Whether value `v` fits an array of kind `k`: a `byte`, `char` or
/// `short` must lie in its range.
pub open spec fn in_range(k: ArrayKind, v: Value) -> bool {
    match (k, v) {
        (ArrayKind::B, Value::Int(x)) => -128 <= x <= 127,
        (ArrayKind::C, Value::Int(x)) => 0 <= x <= 65535,
        (ArrayKind::S, Value::Int(x)) => -32768 <= x <= 32767,
        _ => true,
    }
}

/// The element type of a `newarray` type code.
fn atype_str(atype: u8) -> (res: Option<&'static str>)
    ensures
        match atype_name(atype) {
            Some(n) => res matches Some(s) && s@ == n,
            None => res is None,
        },
{
    proof {
        reveal_strlit("Z");
        reveal_strlit("C");
        reveal_strlit("F");
        reveal_strlit("D");
        reveal_strlit("B");
        reveal_strlit("S");
        reveal_strlit("I");
        reveal_strlit("J");
    }
    match atype {
        4 => Some("Z"),
        5 => Some("C"),
        6 => Some("F"),
        7 => Some("D"),
        8 => Some("B"),
        9 => Some("S"),
        10 => Some("I"),
        11 => Some("J"),
        _ => None,
    }
}

/// The one-letter name of an array kind.
fn kind_str(k: ArrayKind) -> (res: &'static str)
    ensures
        res@ == kind_name(k),
{
    proof {
        reveal_strlit("I");
        reveal_strlit("J");
        reveal_strlit("F");
        reveal_strlit("D");
        reveal_strlit("L");
        reveal_strlit("B");
        reveal_strlit("C");
        reveal_strlit("S");
    }
    match k {
        ArrayKind::I => "I",
        ArrayKind::J => "J",
        ArrayKind::F => "F",
        ArrayKind::D => "D",
        ArrayKind::L => "L",
        ArrayKind::B => "B",
        ArrayKind::C => "C",
        ArrayKind::S => "S",
    }
}

/// Whether an array whose elements are named `t` takes kind `k`.
fn kind_fits_exec(k: ArrayKind, t: &str) -> (res: bool)
    ensures
        res == kind_fits(k, t@),
{
    let chars = crate::text::str_to_chars(t);
    if k == ArrayKind::L {
        chars.len() > 0 && (chars[0] == 'L' || chars[0] == '[')
    } else if k == ArrayKind::B {
        proof {
            reveal_strlit("Z");
            assert("Z"@ =~= seq!['Z']);
        }
        crate::text::str_eq(t, kind_str(k)) || crate::text::str_eq(t, "Z")
    } else {
        crate::text::str_eq(t, kind_str(k))
    }
}

/// The class name an array's element type names for a store check.
fn strip_class_exec(t: &str) -> (res: String)
    ensures
        res@ == strip_class(t@),
{
    let chars = crate::text::str_to_chars(t);
    let n = chars.len();
    if n >= 2 && chars[0] == 'L' && chars[n - 1] == ';' {
        let mut out = String::new();
        let mut i: usize = 1;
        while i < n - 1
            invariant
                1 <= i <= n - 1,
                n == chars@.len(),
                chars@ == t@,
                out@ == t@.subrange(1, i as int),
            decreases n - 1 - i,
        {
            crate::text::string_push(&mut out, chars[i]);
            i = i + 1;
            assert(out@ =~= t@.subrange(1, i as int));
        }
        out
    } else {
        t.to_string()
    }
}

/// The outcome of `newarray` of element type code `atype`.
pub open spec fn newarray_result(old: Frame, new: Frame, atype: u8, old_heap: Heap, new_heap: Heap, res: Result<ExecutionResult, JVMError>) -> bool {
    &&& new_heap.wf()
    &&& old.same_but_operands(new)
    &&& match popped(old.operands@, 0, seq![Tag::Int]) {
        Err(f) => fails_with(res, f),
        Ok(vs) => match atype_name(atype) {
            None => res matches Err(JVMError::Other(_)),
            Some(t) => if int_of(vs[0]) < 0 {
                res matches Err(JVMError::Other(_))
            } else {
                match res {
                    Ok(_) => {
                        &&& new.operands@.len() == old.operands@.len()
                        &&& new.operands@.drop_last() =~= rest(old.operands@, 1)
                        &&& new_object(new_heap, old_heap.arena@.len() as usize, None, new.operands@.last())
                        &&& new_heap.arena@.last().kind matches ObjectKind::ArrayInstance { length, element_type, .. }
                        &&& length == int_of(vs[0]) as usize && element_type@ == t
                    },
                    Err(e) => (is_exhausted(e) && new_heap.free_head is None)
                        || (e is StackOverflow && old.operands@.len() - 1 >= old.code.max_stack),
                }
            },
        },
    }
}

/// The outcome of `anewarray` of the class at `index`.
pub open spec fn anewarray_result(old: Frame, new: Frame, index: u16, old_heap: Heap, new_heap: Heap, loader: ClassLoader, res: Result<ExecutionResult, JVMError>) -> bool {
    &&& new_heap.wf()
    &&& old.same_but_operands(new)
    &&& match popped(old.operands@, 0, seq![Tag::Int]) {
        Err(f) => fails_with(res, f),
        Ok(vs) => match spec_entry(old.constant_pool.entries(), index) {
            None => res matches Err(JVMError::ConstantPoolIndexOutOfBounds { .. }),
            Some(ConstantInfo::Class(ConstantClassInfo(name_index))) => match spec_utf8(
                old.constant_pool.entries(),
                name_index,
            ) {
                None => res matches Err(JVMError::Other(_)),
                Some(name) => if int_of(vs[0]) < 0 {
                    res matches Err(JVMError::Other(_))
                } else {
                    match res {
                        Ok(_) => {
                            &&& new.operands@.drop_last() =~= rest(old.operands@, 1)
                            &&& new_object(new_heap, old_heap.arena@.len() as usize,
                                if array_has_class(name) {
                                    match spec_find_class(loader.classes@, name) {
                                        Some(c) => Some(c as usize),
                                        None => None,
                                    }
                                } else {
                                    None
                                }, new.operands@.last())
                            &&& new_heap.arena@.last().kind matches ObjectKind::ArrayInstance { length, element_type, .. }
                            &&& length == int_of(vs[0]) as usize && element_type@ == array_type_of(name)
                        },
                        Err(e) => (is_exhausted(e) && new_heap.free_head is None)
                            || (e is StackOverflow && old.operands@.len() - 1 >= old.code.max_stack),
                    }
                },
            },
            Some(_) => res matches Err(JVMError::InvalidConstantType { .. }),
        },
    }
}

/// The outcome of the array load of kind `kind`.
pub open spec fn array_load_result(old: Frame, new: Frame, kind: ArrayKind, heap: Heap, res: Result<ExecutionResult, JVMError>) -> bool {
    &&& old.same_but_operands(new)
    &&& match popped(old.operands@, 0, seq![Tag::Int, Tag::Reference]) {
        Err(f) => fails_with(res, f),
        Ok(vs) => match vs[1] {
            Value::Reference(Some(a)) => if a >= heap.arena@.len() {
                res == Err::<ExecutionResult, JVMError>(JVMError::NullReference)
            } else {
                match heap.arena@[a as int].kind {
                    ObjectKind::ArrayInstance { length, elements, element_type } => if !kind_fits(kind, element_type@) {
                        res matches Err(JVMError::TypeMismatch { .. })
                    } else if (int_of(vs[0]) as usize) < length && (int_of(vs[0]) as usize) < elements@.len() {
                        pushes(old.code.max_stack, rest(old.operands@, 2), elements@[int_of(vs[0]) as usize as int],
                            new.operands@, res)
                    } else {
                        throws_bounds(res)
                    },
                    _ => res matches Err(JVMError::TypeMismatch { .. }),
                }
            },
            _ => res matches Err(JVMError::NullReference),
        },
    }
}

/// The outcome of the array store of kind `kind`.
pub open spec fn array_store_result(old: Frame, new: Frame, kind: ArrayKind, old_heap: Heap, new_heap: Heap, loader: ClassLoader, res: Result<ExecutionResult, JVMError>) -> bool {
    &&& new_heap.wf()
    &&& new_heap.objects == old_heap.objects
    &&& new_heap.arena@.len() == old_heap.arena@.len()
    &&& old.same_but_operands(new)
    &&& match popped(old.operands@, 0, seq![kind_tag(kind), Tag::Int, Tag::Reference]) {
        Err(f) => fails_with(res, f) && new_heap.arena@ =~= old_heap.arena@,
        Ok(vs) => match vs[2] {
            Value::Reference(Some(a)) => if a >= old_heap.arena@.len() {
                res == Err::<ExecutionResult, JVMError>(JVMError::NullReference) && new_heap.arena@ =~= old_heap.arena@
            } else {
                match old_heap.arena@[a as int].kind {
                ObjectKind::ArrayInstance { length, elements, element_type } => if !kind_fits(kind, element_type@) {
                    res matches Err(JVMError::TypeMismatch { .. }) && new_heap.arena@ =~= old_heap.arena@
                } else if !in_range(kind, vs[0]) {
                    res matches Err(JVMError::TypeMismatch { .. }) && new_heap.arena@ =~= old_heap.arena@
                } else if (kind == ArrayKind::L && (vs[0] matches Value::Reference(Some(r)) && r < old_heap.arena@.len()
                    && (old_heap.arena@[r as int].class matches Some(rc) && rc < loader.classes@.len()
                    && !chain_has(loader.classes@, rc as nat, strip_class(element_type@))))) {
                    res matches Err(JVMError::TypeMismatch { .. }) && new_heap.arena@ =~= old_heap.arena@
                } else if (int_of(vs[1]) as usize) < length && (int_of(vs[1]) as usize) < elements@.len() {
                    &&& res matches Ok(ExecutionResult::Continue)
                    &&& new.operands@ =~= rest(old.operands@, 3)
                    &&& contents(new_heap.arena@[a as int]) == elements@.update(int_of(vs[1]) as usize as int, vs[0])
                    &&& new_heap.arena@[a as int].kind matches ObjectKind::ArrayInstance { length: n, element_type: t, .. }
                    &&& n == length && t == element_type
                    &&& forall|p: int| 0 <= p < old_heap.arena@.len() && p != a ==> #[trigger] new_heap.arena@[p]
                        == old_heap.arena@[p]
                } else {
                    throws_bounds(res) && new_heap.arena@ =~= old_heap.arena@
                },
                _ => res matches Err(JVMError::TypeMismatch { .. }) && new_heap.arena@ =~= old_heap.arena@,
                }
            },
            _ => res matches Err(JVMError::NullReference) && new_heap.arena@ =~= old_heap.arena@,
        },
    }
}

/// The outcome of `arraylength`.
pub open spec fn arraylength_result(old: Frame, new: Frame, heap: Heap, res: Result<ExecutionResult, JVMError>) -> bool {
    &&& old.same_but_operands(new)
    &&& match popped(old.operands@, 0, seq![Tag::Reference]) {
        Err(f) => fails_with(res, f),
        Ok(vs) => match vs[0] {
            Value::Reference(Some(a)) => if a >= heap.arena@.len() {
                res == Err::<ExecutionResult, JVMError>(JVMError::NullReference)
            } else {
                match heap.arena@[a as int].kind {
                    ObjectKind::ArrayInstance { length, .. } => pushes(old.code.max_stack, rest(old.operands@, 1),
                        Value::Int(length as i32), new.operands@, res),
                    _ => res matches Err(JVMError::Other(_)),
                }
            },
            _ => res matches Err(JVMError::NullReference),
        },
    }
}

impl Frame {
    /// `newarray`: pops a length and pushes a new array of the primitive
    /// type that `atype` codes.
    pub fn newarray(&mut self, atype: u8, roots: &Vec<Frame>, heap: &mut Heap) -> (res: Result<ExecutionResult, JVMError>)
        requires
            old(heap).wf(),
        ensures
            newarray_result(*old(self), *final(self), atype, *old(heap), *final(heap), res),
    {
        proof {
            reveal_with_fuel(crate::runtime::pop_many, 2);
        }
        let length = self.pop_expect_int()?;
        assert(rest(old(self).operands@, 1) =~= self.operands@);
        let element_type = match atype_str(atype) {
            Some(t) => t,
            None => {
                return Err(JVMError::Other("Invalid array type".to_string()));
            },
        };
        if length < 0 {
            return Err(JVMError::Other("Negative array size".to_string()));
        }
        let array_ref = heap.allocate_array(roots, element_type, length as usize, None)?;
        proof {
            assert(array_type_of(element_type@) == element_type@);
        }
        self.push(array_ref)?;
        Ok(ExecutionResult::Continue)
    }

    /// `anewarray`: pops a length and pushes a new array of the class that
    /// the `Class` entry at `index` names.
    pub fn anewarray(&mut self, index: u16, roots: &Vec<Frame>, heap: &mut Heap, loader: &ClassLoader) -> (res: Result<ExecutionResult, JVMError>)
        requires
            old(heap).wf(),
        ensures
            anewarray_result(*old(self), *final(self), index, *old(heap), *final(heap), *loader, res),
    {
        proof {
            reveal_with_fuel(crate::runtime::pop_many, 2);
        }
        let length = self.pop_expect_int()?;
        assert(rest(old(self).operands@, 1) =~= self.operands@);
        let cp_entry = match self.constant_pool.get_entry(index) {
            Some(e) => e,
            None => {
                return Err(JVMError::ConstantPoolIndexOutOfBounds { index, max: self.constant_pool.get_len() });
            },
        };
        let element_type = match cp_entry {
            ConstantInfo::Class(ConstantClassInfo(name_index)) => match self.constant_pool.get_underlying_string_from_utf8_index(
                *name_index,
            ) {
                Some(n) => n,
                None => {
                    return Err(JVMError::Other("Invalid name_index".to_string()));
                },
            },
            _ => {
                return Err(JVMError::InvalidConstantType { expected: "Class", found: "other" });
            },
        };
        if length < 0 {
            return Err(JVMError::Other("Negative array size".to_string()));
        }
        let class = loader.find_loaded_class(element_type.as_str());
        let array_ref = heap.allocate_array(roots, element_type.as_str(), length as usize, class)?;
        self.push(array_ref)?;
        Ok(ExecutionResult::Continue)
    }

    /// `<t>aload`: pops an index and an array and pushes the element there;
    /// an index past the end throws `java/lang/ArrayIndexOutOfBoundsException`.
    pub fn array_load(&mut self, kind: ArrayKind, heap: &Heap) -> (res: Result<ExecutionResult, JVMError>)
        ensures
            array_load_result(*old(self), *final(self), kind, *heap, res),
    {
        proof {
            reveal_with_fuel(crate::runtime::pop_many, 3);
        }
        let index = self.pop_expect_int()? as usize;
        let array_ref = self.pop_expect_reference()?;
        assert(rest(old(self).operands@, 2) =~= self.operands@);
        match array_ref {
            Some(a) => {
                if a >= heap.arena.len() {
                    return Err(JVMError::NullReference);
                }
                match &heap.arena[a].kind {
                    ObjectKind::ArrayInstance { element_type, .. } => {
                        if !kind_fits_exec(kind, element_type.as_str()) {
                            return Err(JVMError::TypeMismatch {
                                expected: if kind == ArrayKind::L { "L... or [...".to_string() } else { kind_str(kind).to_string() },
                                found: element_type.clone(),
                            });
                        }
                    },
                    ObjectKind::ClassInstance { .. } => {
                        return Err(JVMError::TypeMismatch {
                            expected: if kind == ArrayKind::L { "L... or [...".to_string() } else { kind_str(kind).to_string() },
                            found: "non-array".to_string(),
                        });
                    },
                }
                let value = match heap.arena[a].get_element(index) {
                    Ok(v) => v,
                    Err(_) => {
                        return Ok(ExecutionResult::Throw("java/lang/ArrayIndexOutOfBoundsException".to_string()));
                    },
                };
                self.push(value)?;
                Ok(ExecutionResult::Continue)
            },
            None => Err(JVMError::NullReference),
        }
    }

    /// `<t>astore`: pops a value of kind `kind`, an index and an array, and
    /// stores the value there; an index past the end throws
    /// `java/lang/ArrayIndexOutOfBoundsException`.
    pub fn array_store(&mut self, kind: ArrayKind, heap: &mut Heap, loader: &ClassLoader) -> (res: Result<ExecutionResult, JVMError>)
        requires
            old(heap).wf(),
            loader.wf(),
        ensures
            array_store_result(*old(self), *final(self), kind, *old(heap), *final(heap), *loader, res),
    {
        proof {
            reveal_with_fuel(crate::runtime::pop_many, 4);
        }
        let value = match kind {
            ArrayKind::J => Value::Long(self.pop_expect_long()?),
            ArrayKind::F => Value::Float(self.pop_expect_float()?),
            ArrayKind::D => Value::Double(self.pop_expect_double()?),
            ArrayKind::L => Value::Reference(self.pop_expect_reference()?),
            _ => Value::Int(self.pop_expect_int()?),
        };
        let index = self.pop_expect_int()? as usize;
        let array_ref = self.pop_expect_reference()?;
        assert(rest(old(self).operands@, 3) =~= self.operands@);
        match array_ref {
            Some(a) => {
                if a >= heap.arena.len() {
                    return Err(JVMError::NullReference);
                }
                let expected_type = match &heap.arena[a].kind {
                    ObjectKind::ArrayInstance { element_type, .. } => {
                        if !kind_fits_exec(kind, element_type.as_str()) {
                            return Err(JVMError::TypeMismatch {
                                expected: if kind == ArrayKind::L { "L... or [...".to_string() } else { kind_str(kind).to_string() },
                                found: element_type.clone(),
                            });
                        }
                        strip_class_exec(element_type.as_str())
                    },
                    ObjectKind::ClassInstance { .. } => {
                        return Err(JVMError::TypeMismatch {
                            expected: if kind == ArrayKind::L { "L... or [...".to_string() } else { kind_str(kind).to_string() },
                            found: "non-array".to_string(),
                        });
                    },
                };
                match (kind, value) {
                    (ArrayKind::B, Value::Int(v)) => {
                        if v < -128 || v > 127 {
                            return Err(JVMError::TypeMismatch { expected: "B (byte)".to_string(), found: "out of range".to_string() });
                        }
                    },
                    (ArrayKind::C, Value::Int(v)) => {
                        if v < 0 || v > 65535 {
                            return Err(JVMError::TypeMismatch { expected: "C (char)".to_string(), found: "out of range".to_string() });
                        }
                    },
                    (ArrayKind::S, Value::Int(v)) => {
                        if v < -32768 || v > 32767 {
                            return Err(JVMError::TypeMismatch { expected: "S (short)".to_string(), found: "out of range".to_string() });
                        }
                    },
                    (ArrayKind::L, Value::Reference(Some(r))) => {
                        if r < heap.arena.len() {
                            if let Some(rc) = heap.arena[r].class {
                                if rc < loader.classes.len() && !loader.is_compatible_class(rc, expected_type.as_str()) {
                                    return Err(JVMError::TypeMismatch {
                                        expected: expected_type,
                                        found: loader.classes[rc].class_name.clone(),
                                    });
                                }
                            }
                        }
                    },
                    _ => {},
                }
                match heap.set_object_element(a, index, value) {
                    Ok(()) => Ok(ExecutionResult::Continue),
                    Err(_) => Ok(ExecutionResult::Throw("java/lang/ArrayIndexOutOfBoundsException".to_string())),
                }
            },
            None => Err(JVMError::NullReference),
        }
    }

    /// `arraylength`: pops an array and pushes its length.
    pub fn arraylength(&mut self, heap: &Heap) -> (res: Result<ExecutionResult, JVMError>)
        ensures
            arraylength_result(*old(self), *final(self), *heap, res),
    {
        proof {
            reveal_with_fuel(crate::runtime::pop_many, 2);
        }
        let array_ref = self.pop_expect_reference()?;
        assert(rest(old(self).operands@, 1) =~= self.operands@);
        match array_ref {
            Some(a) => {
                if a >= heap.arena.len() {
                    return Err(JVMError::NullReference);
                }
                match &heap.arena[a].kind {
                    ObjectKind::ArrayInstance { length, .. } => {
                        let n = *length as i32;
                        self.push(Value::Int(n))?;
                        Ok(ExecutionResult::Continue)
                    },
                    ObjectKind::ClassInstance { .. } => Err(JVMError::Other("arraylength on non-array object".to_string())),
                }
            },
            None => Err(JVMError::NullReference),
        }
    }
}

impl Heap {
    /// Sets element `index` of array `o`.
    pub fn set_object_element(&mut self, o: usize, index: usize, value: Value) -> (res: Result<(), JVMError>)
        requires
            old(self).wf(),
            o < old(self).arena@.len(),
        ensures
            final(self).wf(),
            final(self).objects == old(self).objects,
            final(self).arena@.len() == old(self).arena@.len(),
            forall|p: int| 0 <= p < old(self).arena@.len() && p != o ==> #[trigger] final(self).arena@[p] == old(self).arena@[p],
            match old(self).arena@[o as int].kind {
                ObjectKind::ArrayInstance { length, elements, element_type } => if index < length && index < elements@.len() {
                    &&& res is Ok
                    &&& contents(final(self).arena@[o as int]) == elements@.update(index as int, value)
                    &&& final(self).arena@[o as int].kind matches ObjectKind::ArrayInstance { length: n, element_type: t, .. }
                    &&& n == length && t == element_type
                } else {
                    res is Err && final(self).arena@ == old(self).arena@
                },
                _ => res is Err && final(self).arena@ == old(self).arena@,
            },
    {
        let ghost a0 = self.arena@;
        let r = self.arena[o].set_element(index, value);
        proof {
            crate::heap::lemma_count_point(self.objects@, a0, self.objects@, self.arena@, 0, -1);
            if r is Err {
                assert(self.arena@ =~= a0);
            }
        }
        r
    }
}

} // verus!
