//! Instructions that create objects: `new`, `ldc` of strings and classes,
//! and `multianewarray`.

use vstd::prelude::*;
use crate::allocation::{array_type_of, is_exhausted, new_object, untyped_error};
use crate::class_loader::{spec_find_class, ClassLoader};
use crate::constant_pool::{spec_class_name, spec_entry, spec_utf8, ConstantClassInfo, ConstantInfo, ConstantStringInfo};
use crate::execute_constant::spec_constant_type;
use crate::heap::Heap;
use crate::jvm_error::JVMError;
use crate::loaded_class::spec_last_named;
use crate::execute_arith::int_of;
use crate::object::{contents, Object, ObjectKind};
use crate::runtime::{fails_with, misfit, pop_one, pushes, ExecutionResult, Failure, Frame, Tag, Value};

verus! {

/// How looking up the class name of a `Class` entry fails.
#[derive(Debug, Clone, Copy, PartialEq, Eq, Structural)]
pub enum ClassEntryFailure {
    NoEntry,
    NoName,
    NotClass,
}

/// The name of the class that the `Class` entry at `index` names.
pub open spec fn new_class_name(cp: Seq<ConstantInfo>, index: u16) -> Result<Seq<char>, ClassEntryFailure> {
    match spec_entry(cp, index) {
        None => Err(ClassEntryFailure::NoEntry),
        Some(ConstantInfo::Class(ConstantClassInfo(name_index))) => match spec_utf8(cp, name_index) {
            Some(n) => Ok(n),
            None => Err(ClassEntryFailure::NoName),
        },
        Some(_) => Err(ClassEntryFailure::NotClass),
    }
}

/// Whether `res` is the error that `new` reports for failure `f`.
pub open spec fn class_entry_error<T>(res: Result<T, JVMError>, f: ClassEntryFailure) -> bool {
    match f {
        ClassEntryFailure::NoEntry => res matches Err(JVMError::ConstantPoolIndexOutOfBounds { .. }),
        ClassEntryFailure::NoName => res matches Err(JVMError::Other(_)),
        ClassEntryFailure::NotClass => res == Err::<T, JVMError>(JVMError::InvalidConstantType { expected: "Class", found: "other" }),
    }
}

/// `Class not loaded: <name>`.
fn not_loaded(name: &str) -> (res: JVMError)
    ensures
        res matches JVMError::Other(m) && m@ == "Class not loaded: "@ + name@,
{
    JVMError::Other(crate::text::concat("Class not loaded: ", name))
}

/// The outcome of `new` of the class at `index`.
pub open spec fn new_result(old: Frame, new: Frame, index: u16, old_heap: Heap, new_heap: Heap, loader: ClassLoader, res: Result<ExecutionResult, JVMError>) -> bool {
    &&& new_heap.wf()
    &&& old.same_but_operands(new)
    &&& match new_class_name(old.constant_pool.entries(), index) {
        Err(f) => class_entry_error(res, f),
        Ok(name) => match spec_find_class(loader.classes@, name) {
            None => res matches Err(JVMError::Other(m)) && m@ == "Class not loaded: "@ + name,
            Some(c) => match res {
                Ok(_) => {
                    &&& new.operands@.drop_last() =~= old.operands@
                    &&& new_object(new_heap, old_heap.arena@.len() as usize, Some(c as usize), new.operands@.last())
                },
                Err(e) => (is_exhausted(e) && new_heap.free_head is None)
                    || (e is StackOverflow && old.operands@.len() >= old.code.max_stack)
                    || untyped_error(loader.classes@[c as int].instance_fields@, e),
            },
        },
    }
}

/// The outcome of `ldc` and `ldc_w` of the entry at `index`.
pub open spec fn ldc_result(old: Frame, new: Frame, index: u16, old_heap: Heap, new_heap: Heap, loader: ClassLoader, res: Result<ExecutionResult, JVMError>) -> bool {
    &&& new_heap.wf()
    &&& old.same_but_operands(new)
    &&& match spec_entry(old.constant_pool.entries(), index) {
        None => res matches Err(JVMError::ConstantPoolIndexOutOfBounds { .. }),
        Some(ConstantInfo::Integer(i)) => pushes(old.code.max_stack, old.operands@, Value::Int(i.0),
            new.operands@, res) && new_heap.arena@ =~= old_heap.arena@,
        Some(ConstantInfo::Float(f)) => pushes(old.code.max_stack, old.operands@, Value::Float(f.0),
            new.operands@, res) && new_heap.arena@ =~= old_heap.arena@,
        Some(ConstantInfo::String(ConstantStringInfo { string_index })) => match spec_utf8(
            old.constant_pool.entries(),
            string_index,
        ) {
            None => res matches Err(JVMError::Other(_)),
            Some(_) => match spec_find_class(loader.classes@, "java/lang/String"@) {
                None => res matches Err(JVMError::Other(_)),
                Some(sc) => match res {
                    Ok(_) => {
                        &&& new.operands@.drop_last() =~= old.operands@
                        &&& new.operands@.last() matches Value::Reference(Some(n))
                        &&& n + 1 == new_heap.arena@.len() && new_heap.arena@[n as int].class == Some(sc as usize)
                    },
                    Err(e) => (is_exhausted(e) && new_heap.free_head is None)
                        || (e is StackOverflow && old.operands@.len() >= old.code.max_stack)
                        || (e is Other && spec_last_named(loader.classes@[sc as int].instance_fields@, "value"@) is None)
                        || untyped_error(loader.classes@[sc as int].instance_fields@, e),
                },
            },
        },
        Some(ConstantInfo::Class(ConstantClassInfo(name_index))) => match spec_utf8(
            old.constant_pool.entries(),
            name_index,
        ) {
            None => res matches Err(JVMError::Other(_)),
            Some(name) => match spec_find_class(loader.classes@, name) {
                None => res matches Err(JVMError::Other(_)),
                Some(c) => match res {
                    Ok(_) => {
                        &&& new.operands@.drop_last() =~= old.operands@
                        &&& new_object(new_heap, old_heap.arena@.len() as usize, Some(c as usize), new.operands@.last())
                    },
                    Err(e) => (is_exhausted(e) && new_heap.free_head is None)
                        || (e is StackOverflow && old.operands@.len() >= old.code.max_stack)
                        || untyped_error(loader.classes@[c as int].instance_fields@, e),
                },
            },
        },
        Some(other) => res == Err::<ExecutionResult, JVMError>(JVMError::InvalidConstantType {
            expected: "integer, float, string, or class",
            found: spec_constant_type(other),
        }),
    }
}

/// The array sizes that `multianewarray` of `dimensions` dimensions takes
/// from `ops`, outermost first: the deepest of the popped values first.
pub open spec fn array_sizes(ops: Seq<Value>, dimensions: nat) -> Seq<usize> {
    Seq::new(dimensions, |m: int| int_of(ops[ops.len() - dimensions + m]) as usize)
}

/// Whether object `a` is an array of `sizes[from]` elements named by `t`
/// without its first character and, with more than one dimension left,
/// each element refers to a later object that is such an array again, one
/// level down.
pub open spec fn multi_array(arena: Seq<Object>, a: usize, t: Seq<char>, sizes: Seq<usize>, from: int, dims: nat) -> bool
    decreases dims,
{
    &&& a < arena.len()
    &&& t.len() > 0
    &&& 0 <= from < sizes.len()
    &&& arena[a as int].kind matches ObjectKind::ArrayInstance { length, elements, element_type }
    &&& length == sizes[from] && elements@.len() == length
    &&& element_type@ == array_type_of(t.subrange(1, t.len() as int))
    &&& dims > 1 ==> forall|j: int| 0 <= j < elements@.len() ==> (#[trigger] elements@[j] matches Value::Reference(Some(x))
        && a < x && multi_array(arena, x, t.subrange(1, t.len() as int), sizes, from + 1, (dims - 1) as nat))
}

/// A nested array stays one when objects from `lo` on, where it lies, keep
/// what they are.
pub proof fn lemma_multi_array_frame(a1: Seq<Object>, a2: Seq<Object>, lo: int, a: usize, t: Seq<char>, sizes: Seq<usize>, from: int, dims: nat)
    requires
        multi_array(a1, a, t, sizes, from, dims),
        lo <= a,
        a1.len() <= a2.len(),
        forall|o: int| lo <= o < a1.len() ==> (#[trigger] a2[o]).kind == a1[o].kind,
    ensures
        multi_array(a2, a, t, sizes, from, dims),
    decreases dims,
{
    if dims > 1 {
        if let ObjectKind::ArrayInstance { elements, .. } = a1[a as int].kind {
            assert forall|j: int| 0 <= j < elements@.len() implies (#[trigger] elements@[j] matches Value::Reference(Some(x))
                && a < x && multi_array(a2, x, t.subrange(1, t.len() as int), sizes, from + 1, (dims - 1) as nat)) by {
                if let Value::Reference(Some(x)) = elements@[j] {
                    lemma_multi_array_frame(a1, a2, lo, x, t.subrange(1, t.len() as int), sizes, from + 1, (dims - 1) as nat);
                }
            }
        }
    }
}

/// What popping `k` array sizes off `ops` (its top first) meets first:
/// nothing (`None`), a failed pop (`Some(Some(f))`), or a negative size
/// (`Some(None)`).
pub open spec fn size_pops(ops: Seq<Value>, k: nat) -> Option<Option<Failure>>
    decreases k,
{
    if k == 0 {
        None
    } else {
        match pop_one(ops, Tag::Int) {
            Err(f) => Some(Some(f)),
            Ok(v) => match v {
                Value::Int(i) => if i < 0 {
                    Some(None)
                } else {
                    size_pops(ops.drop_last(), (k - 1) as nat)
                },
                _ => Some(Some(misfit(Tag::Int, v))),
            },
        }
    }
}

/// The outcome of `multianewarray` of the class at `index` with `dimensions` sizes.
/// Before anything is allocated it fails on no dimensions, on a size that
/// cannot be popped or is negative, and on a class entry that is not an
/// array type; after that, only the heap's space, an array type shorter
/// than the dimensions, or a full operand stack makes it fail.
pub open spec fn multianewarray_result(old: Frame, new: Frame, index: u16, dimensions: u8, old_heap: Heap, new_heap: Heap, loader: ClassLoader, res: Result<ExecutionResult, JVMError>) -> bool {
    &&& new_heap.wf()
    &&& old.same_but_operands(new)
    &&& if dimensions == 0 {
        res matches Err(JVMError::Other(_)) && new == old && new_heap == old_heap
    } else {
        match size_pops(old.operands@, dimensions as nat) {
            Some(Some(f)) => fails_with(res, f) && new_heap == old_heap,
            Some(None) => res matches Err(JVMError::Other(_)) && new_heap == old_heap,
            None => match spec_class_name(old.constant_pool.entries(), index) {
                None => res matches Err(JVMError::Other(_)) && new_heap == old_heap,
                Some(t) => if t.len() == 0 || t[0] != '[' {
                    res matches Err(JVMError::Other(_)) && new_heap == old_heap
                } else {
                    match res {
                        Ok(r) => {
                            &&& r == ExecutionResult::Continue
                            &&& new.operands@.drop_last() =~= old.operands@.take(old.operands@.len() - dimensions)
                            &&& new.operands@.last() matches Value::Reference(Some(n))
                            &&& n < new_heap.arena@.len()
                            &&& new_heap.arena@[n as int].kind matches ObjectKind::ArrayInstance { length, element_type, .. }
                            &&& element_type@ == array_type_of(t.subrange(1, t.len() as int))
                            &&& old.operands@[old.operands@.len() - dimensions] == Value::Int(length as i32)
                            &&& multi_array(new_heap.arena@, n, t, array_sizes(old.operands@, dimensions as nat), 0, dimensions as nat)
                        },
                        Err(e) => (is_exhausted(e) && new_heap.free_head is None) || t.len() < dimensions
                            || (e is StackOverflow && old.operands@.len() - dimensions >= old.code.max_stack),
                    }
                },
            },
        }
    }
}

impl Frame {
    /// `new`: pushes a new instance of the class that the `Class` entry at
    /// `index` names, which must be loaded.
    pub fn execute_new(&mut self, index: u16, roots: &Vec<Frame>, heap: &mut Heap, loader: &ClassLoader) -> (res: Result<ExecutionResult, JVMError>)
        requires
            old(heap).wf(),
            loader.wf(),
        ensures
            new_result(*old(self), *final(self), index, *old(heap), *final(heap), *loader, res),
    {
        let cp_entry = match self.constant_pool.get_entry(index) {
            Some(e) => e,
            None => {
                return Err(JVMError::ConstantPoolIndexOutOfBounds { index, max: self.constant_pool.get_len() });
            },
        };
        let class_name = match cp_entry {
            ConstantInfo::Class(ConstantClassInfo(name_index)) => match self.constant_pool.get_underlying_string_from_utf8_index(
                *name_index,
            ) {
                Some(n) => n,
                None => {
                    return Err(JVMError::Other("Invalid name_index".to_string()));
                },
            },
            _ => {
                return Err(JVMError::InvalidConstantType { expected: "Class", found: "other" });
            },
        };
        let c = match loader.find_loaded_class(class_name.as_str()) {
            Some(c) => c,
            None => {
                return Err(not_loaded(class_name.as_str()));
            },
        };
        let obj_ref = heap.allocate_object(roots, loader, c)?;
        self.push(obj_ref)?;
        Ok(ExecutionResult::Continue)
    }

    /// `ldc` and `ldc_w`: pushes the `Integer`, `Float`, `String` or `Class`
    /// entry at `index`. A string becomes a new `java/lang/String`; a class
    /// entry becomes a new instance of the class it names.
    pub fn load_constant(&mut self, index: u16, roots: &Vec<Frame>, heap: &mut Heap, loader: &ClassLoader) -> (res: Result<ExecutionResult, JVMError>)
        requires
            old(heap).wf(),
            loader.wf(),
        ensures
            ldc_result(*old(self), *final(self), index, *old(heap), *final(heap), *loader, res),
    {
        let constant = self.get_constant(index)?;
        let v = match constant {
            ConstantInfo::Integer(value) => Value::Int(value.0),
            ConstantInfo::Float(value) => Value::Float(value.0),
            ConstantInfo::String(ConstantStringInfo { string_index }) => {
                let string_value = match self.constant_pool.get_underlying_string_from_utf8_index(*string_index) {
                    Some(s) => s,
                    None => {
                        return Err(JVMError::Other("Invalid string_index".to_string()));
                    },
                };
                let sc = match loader.find_loaded_class("java/lang/String") {
                    Some(c) => c,
                    None => {
                        return Err(not_loaded("java/lang/String"));
                    },
                };
                heap.allocate_string(roots, loader, sc, string_value.as_str())?
            },
            ConstantInfo::Class(ConstantClassInfo(name_index)) => {
                let class_name = match self.constant_pool.get_underlying_string_from_utf8_index(*name_index) {
                    Some(n) => n,
                    None => {
                        return Err(JVMError::Other("Invalid name_index".to_string()));
                    },
                };
                let c = match loader.find_loaded_class(class_name.as_str()) {
                    Some(c) => c,
                    None => {
                        return Err(not_loaded(class_name.as_str()));
                    },
                };
                heap.allocate_object(roots, loader, c)?
            },
            other => {
                return Err(JVMError::InvalidConstantType {
                    expected: "integer, float, string, or class",
                    found: Self::get_constant_type(other),
                });
            },
        };
        self.push(v)?;
        Ok(ExecutionResult::Continue)
    }

    /// `multianewarray`: pops `dimensions` sizes and pushes a new array of
    /// the array type that the `Class` entry at `index` names, whose
    /// elements are arrays down to the given depth.
    #[verifier::rlimit(50)]
    #[verifier::spinoff_prover]
    pub fn multi_anew_array(&mut self, index: u16, dimensions: u8, roots: &Vec<Frame>, heap: &mut Heap, loader: &ClassLoader) -> (res: Result<ExecutionResult, JVMError>)
        requires
            old(heap).wf(),
        ensures
            multianewarray_result(*old(self), *final(self), index, dimensions, *old(heap), *final(heap), *loader, res),
    {
        if dimensions == 0 {
            return Err(JVMError::Other("Invalid dimensions for MultiANewArray".to_string()));
        }
        let ghost ops0 = self.operands@;
        let mut sizes: Vec<usize> = Vec::new();
        let mut k: u8 = 0;
        while k < dimensions
            invariant
                k <= dimensions,
                sizes@.len() == k,
                self.operands@.len() + k == ops0.len(),
                ops0.len() >= k,
                self.operands@ == ops0.take(ops0.len() - k),
                *heap == *old(heap),
                heap.wf(),
                forall|j: int| 0 <= j < k ==> ops0[ops0.len() - 1 - j] == Value::Int(sizes@[j] as i32) && sizes@[j] <= i32::MAX,
                old(self).same_but_operands(*self),
                size_pops(ops0, dimensions as nat) == size_pops(self.operands@, (dimensions - k) as nat),
                ops0 == old(self).operands@,
            decreases dimensions - k,
        {
            let ghost before = self.operands@;
            let popped = self.pop_expect_int();
            let size = match popped {
                Ok(v) => v,
                Err(e) => {
                    assert(size_pops(ops0, dimensions as nat) == Some(Some(pop_one(before, Tag::Int)->Err_0)));
                    return Err(e);
                },
            };
            assert(size_pops(before, (dimensions - k) as nat) == size_pops(before.drop_last(), (dimensions - k - 1) as nat)
                || size < 0);
            if size < 0 {
                assert(size_pops(ops0, dimensions as nat) == Some(None::<Failure>));
                return Err(JVMError::Other("Negative array size".to_string()));
            }
            sizes.push(size as usize);
            k = k + 1;
            assert(self.operands@ =~= ops0.take(ops0.len() - k));
        }
        let mut ordered: Vec<usize> = Vec::new();
        let mut j: usize = sizes.len();
        while j > 0
            invariant
                j <= sizes@.len(),
                ordered@.len() == sizes@.len() - j,
                forall|m: int| 0 <= m < ordered@.len() ==> ordered@[m] == sizes@[sizes@.len() - 1 - m],
            decreases j,
        {
            ordered.push(sizes[j - 1]);
            j = j - 1;
        }
        let array_type = match self.constant_pool.get_underlying_string_from_constant_class_info_index(index) {
            Some(t) => t.clone(),
            None => {
                return Err(JVMError::Other("Invalid class index".to_string()));
            },
        };
        let chars = crate::text::str_to_chars(array_type.as_str());
        if chars.len() == 0 || chars[0] != '[' {
            return Err(JVMError::Other("Invalid array type".to_string()));
        }
        proof {
            assert forall|m: int| 0 <= m < dimensions implies #[trigger] array_sizes(ops0, dimensions as nat)[m] == ordered@[m] by {
                let j = dimensions - 1 - m;
                assert(ops0[ops0.len() - 1 - j] == Value::Int(sizes@[j] as i32));
            }
            assert(array_sizes(ops0, dimensions as nat) =~= ordered@);
        }
        let array_ref = create_multi_array(roots, heap, loader, array_type.as_str(), &ordered, 0, dimensions as usize)?;
        self.push(Value::Reference(Some(array_ref)))?;
        Ok(ExecutionResult::Continue)
    }
}

/// The part of `s` after its first character.
fn tail(s: &str) -> (res: String)
    ensures
        s@.len() > 0 ==> res@ == s@.subrange(1, s@.len() as int),
{
    let chars = crate::text::str_to_chars(s);
    let mut out = String::new();
    if chars.len() == 0 {
        return out;
    }
    let mut i: usize = 1;
    while i < chars.len()
        invariant
            1 <= i <= chars@.len(),
            chars@ == s@,
            out@ == s@.subrange(1, i as int),
        decreases chars@.len() - i,
    {
        crate::text::string_push(&mut out, chars[i]);
        i = i + 1;
        assert(out@ =~= s@.subrange(1, i as int));
    }
    out
}

/// Allocates an array of `sizes[from]` elements of `array_type` without its
/// first character; when more dimensions remain, each element is a new
/// array of the next size, made the same way.
fn create_multi_array(
    roots: &Vec<Frame>,
    heap: &mut Heap,
    loader: &ClassLoader,
    array_type: &str,
    sizes: &Vec<usize>,
    from: usize,
    dims_to_init: usize,
) -> (res: Result<usize, JVMError>)
    requires
        old(heap).wf(),
        dims_to_init > 0,
        from + dims_to_init <= sizes@.len(),
    ensures
        final(heap).wf(),
        res matches Err(e) ==> (is_exhausted(e) && final(heap).free_head is None) || array_type@.len() < dims_to_init,
        res matches Ok(n) ==> {
            &&& n < final(heap).arena@.len()
            &&& array_type@.len() > 0
            &&& final(heap).arena@[n as int].kind matches ObjectKind::ArrayInstance { length, element_type, .. }
            &&& from < sizes@.len() && length == sizes@[from as int]
            &&& element_type@ == array_type_of(array_type@.subrange(1, array_type@.len() as int))
            &&& n >= old(heap).arena@.len()
            &&& multi_array(final(heap).arena@, n, array_type@, sizes@, from as int, dims_to_init as nat)
        },
        final(heap).arena@.len() >= old(heap).arena@.len(),
        forall|o: int| 0 <= o < old(heap).arena@.len() ==> (#[trigger] final(heap).arena@[o]).kind == old(heap).arena@[o].kind,
    decreases dims_to_init,
{
    if dims_to_init == 0 || from >= sizes.len() {
        return Err(JVMError::Other("Invalid dimensions or sizes for array".to_string()));
    }
    let chars = crate::text::str_to_chars(array_type);
    if chars.len() == 0 {
        return Err(JVMError::Other("Invalid array type".to_string()));
    }
    let size = sizes[from];
    let element_type = tail(array_type);
    let class = loader.find_loaded_class(element_type.as_str());
    assert(heap.arena@.len() == heap.arena.len());
    let array_ref = heap.allocate_array(roots, element_type.as_str(), size, class)?;
    let a = match array_ref {
        Value::Reference(Some(a)) => a,
        _ => {
            return Err(JVMError::Other("Expected reference value".to_string()));
        },
    };
    if dims_to_init > 1 {
        let mut i: usize = 0;
        while i < size
            invariant
                heap.wf(),
                from < sizes@.len(),
                dims_to_init > 1,
                from + 1 <= usize::MAX,
                a >= old(heap).arena@.len(),
                heap.arena@.len() >= old(heap).arena@.len(),
                forall|o: int| 0 <= o < old(heap).arena@.len() ==> (#[trigger] heap.arena@[o]).kind == old(heap).arena@[o].kind,
                a < heap.arena@.len(),
                heap.arena@[a as int].kind matches ObjectKind::ArrayInstance { length, elements, element_type: t }
                    && length == size && elements@.len() == size && t@ == array_type_of(element_type@)
                    && forall|j: int| 0 <= j < i ==> (#[trigger] elements@[j] matches Value::Reference(Some(x))
                        && a < x && multi_array(heap.arena@, x, element_type@, sizes@, from + 1, (dims_to_init - 1) as nat)),
                i <= size,
                from + dims_to_init <= sizes@.len(),
                chars@.len() > 0,
                chars@ == array_type@,
                from < sizes@.len() && size == sizes@[from as int],
                element_type@ == array_type@.subrange(1, array_type@.len() as int),
            decreases size - i,
        {
            let ghost h0 = heap.arena@;
            let sub = create_multi_array(roots, heap, loader, element_type.as_str(), sizes, from + 1, dims_to_init - 1)?;
            let ghost h1 = heap.arena@;
            proof {
                if let ObjectKind::ArrayInstance { elements, .. } = h0[a as int].kind {
                    assert forall|j: int| 0 <= j < i implies (#[trigger] elements@[j] matches Value::Reference(Some(x))
                        && a < x && multi_array(h1, x, element_type@, sizes@, from + 1, (dims_to_init - 1) as nat)) by {
                        if let Value::Reference(Some(x)) = elements@[j] {
                            lemma_multi_array_frame(h0, h1, 0, x, element_type@, sizes@, from + 1, (dims_to_init - 1) as nat);
                        }
                    }
                }
            }
            let r = heap.set_object_element(a, i, Value::Reference(Some(sub)));
            if r.is_err() {
                return Err(JVMError::Other("Element index out of bounds".to_string()));
            }
            proof {
                let h2 = heap.arena@;
                lemma_multi_array_frame(h1, h2, a + 1, sub, element_type@, sizes@, from + 1, (dims_to_init - 1) as nat);
                if let ObjectKind::ArrayInstance { elements, .. } = h1[a as int].kind {
                    assert forall|j: int| 0 <= j < i + 1 implies (#[trigger] contents(h2[a as int])[j] matches Value::Reference(Some(x))
                        && a < x && multi_array(h2, x, element_type@, sizes@, from + 1, (dims_to_init - 1) as nat)) by {
                        if j < i {
                            if let Value::Reference(Some(x)) = elements@[j] {
                                lemma_multi_array_frame(h1, h2, a + 1, x, element_type@, sizes@, from + 1, (dims_to_init - 1) as nat);
                            }
                        }
                    }
                }
            }
            i = i + 1;
        }
    }
    Ok(a)
}

} // verus!
