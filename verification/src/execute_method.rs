//! Method calls: resolving method references, passing arguments, and the
//! four `invoke` instructions.

use std::sync::Arc;
use vstd::prelude::*;
use crate::access_flag::{has_bits, MethodFlags};
use crate::attribute::Code;
use crate::class_loader::{
    chain_has, class_wf, implements, lemma_virtual_lookup_bound, spec_find_class, virtual_lookup, ClassLoader,
};
use crate::constant_pool::{
    spec_class_name, spec_entry, spec_utf8, ConstantInfo, ConstantInterfaceMethodRefInfo, ConstantMethodRefInfo,
    ConstantNameAndTypeInfo,
};
use crate::heap::Heap;
use crate::object::Object;
use crate::jvm_error::JVMError;
use crate::loaded_class::{spec_code_of, spec_find_method, LoadedClass, NameDes};
use crate::runtime::{ExecutionResult, Frame, Value};

verus! {

/// How a method reference fails to resolve.
#[derive(Debug, Clone, Copy, PartialEq, Eq, Structural)]
pub enum MethodRefFailure {
    NoEntry,
    NoClass,
    NoNameAndType,
    NotNameAndType,
    NoNames,
    NotMethodRef,
}

/// The class, method name and descriptor that the method reference at
/// `index` names.
pub open spec fn spec_method_ref(cp: Seq<ConstantInfo>, index: u16) -> Result<(Seq<char>, Seq<char>, Seq<char>), MethodRefFailure> {
    let refs = match spec_entry(cp, index) {
        Some(ConstantInfo::Methodref(ConstantMethodRefInfo { class_index, name_and_type_index })) => Some((class_index, name_and_type_index)),
        Some(ConstantInfo::InterfaceMethodRef(ConstantInterfaceMethodRefInfo { class_index, name_and_type_index })) => Some((class_index, name_and_type_index)),
        _ => None,
    };
    match spec_entry(cp, index) {
        None => Err(MethodRefFailure::NoEntry),
        Some(_) => match refs {
            None => Err(MethodRefFailure::NotMethodRef),
            Some((class_index, nat_index)) => match spec_class_name(cp, class_index) {
                None => Err(MethodRefFailure::NoClass),
                Some(class_name) => match spec_entry(cp, nat_index) {
                    None => Err(MethodRefFailure::NoNameAndType),
                    Some(ConstantInfo::NameAndType(ConstantNameAndTypeInfo { name_index, descriptor_index })) => match (
                        spec_utf8(cp, name_index),
                        spec_utf8(cp, descriptor_index),
                    ) {
                        (Some(n), Some(d)) => Ok((class_name, n, d)),
                        _ => Err(MethodRefFailure::NoNames),
                    },
                    Some(_) => Err(MethodRefFailure::NotNameAndType),
                },
            },
        },
    }
}

/// Whether `res` is the error that resolving reports for failure `f`.
pub open spec fn method_ref_error<T>(res: Result<T, JVMError>, f: MethodRefFailure) -> bool {
    match f {
        MethodRefFailure::NoEntry => res matches Err(JVMError::ConstantPoolIndexOutOfBounds { .. }),
        MethodRefFailure::NoClass => res matches Err(JVMError::ConstantPoolIndexOutOfBounds { .. }),
        MethodRefFailure::NoNameAndType => res matches Err(JVMError::ConstantPoolIndexOutOfBounds { .. }),
        MethodRefFailure::NoNames => res matches Err(JVMError::Other(_)),
        _ => res == Err::<T, JVMError>(JVMError::InvalidConstantType {
            expected: "Methodref or InterfaceMethodref",
            found: "other",
        }),
    }
}

/// A state of the scan that counts the parameters of a descriptor.
#[derive(Debug, Clone, Copy, PartialEq, Eq, Structural)]
pub enum Scan {
    Normal,
    Class,
    Brackets,
}

/// The number of parameters that the scan counts from position `i` of `d`
/// in state `m`: one for each field descriptor before the `)` that ends
/// the list. A letter other than `L` and `[` is a whole descriptor; `L`
/// runs to the next `;`; `[` starts an array type, whose further brackets
/// and element descriptor belong to it.
pub open spec fn scan_count(d: Seq<char>, i: int, m: Scan) -> nat
    decreases d.len() - i,
{
    if i < 0 || i >= d.len() {
        0
    } else {
        let c = d[i];
        match m {
            Scan::Normal => if c == ')' {
                0
            } else if c == 'L' {
                1 + scan_count(d, i + 1, Scan::Class)
            } else if c == '[' {
                1 + scan_count(d, i + 1, Scan::Brackets)
            } else {
                1 + scan_count(d, i + 1, Scan::Normal)
            },
            Scan::Class => if c == ';' { scan_count(d, i + 1, Scan::Normal) } else { scan_count(d, i + 1, Scan::Class) },
            Scan::Brackets => if c == '[' {
                scan_count(d, i + 1, Scan::Brackets)
            } else if c == 'L' {
                scan_count(d, i + 1, Scan::Class)
            } else {
                scan_count(d, i + 1, Scan::Normal)
            },
        }
    }
}

/// The number of parameters counted for descriptor `d`: the scan starts
/// after its first character.
pub open spec fn spec_count_parameters(d: Seq<char>) -> nat {
    scan_count(d, 1, Scan::Normal)
}

/// How many local slots a value takes: two for a `long` or a `double`.
pub open spec fn width(v: Value) -> int {
    if v is Long || v is Double { 2 } else { 1 }
}

/// The local slot of argument `k`: the widths of the arguments before it.
pub open spec fn slot_of(args: Seq<Value>, k: int) -> int
    decreases k,
{
    if k <= 0 { 0 } else { slot_of(args, k - 1) + width(args[k - 1]) }
}

/// The locals after the first `k` arguments are placed in their slots;
/// a slot past the locals is skipped.
pub open spec fn placed(locals: Seq<Value>, args: Seq<Value>, k: int) -> Seq<Value>
    decreases k,
{
    if k <= 0 {
        locals
    } else {
        let prev = placed(locals, args, k - 1);
        let s = slot_of(args, k - 1);
        if 0 <= s < prev.len() { prev.update(s, args[k - 1]) } else { prev }
    }
}

/// Placing arguments keeps the number of locals.
proof fn lemma_placed_len(locals: Seq<Value>, args: Seq<Value>, k: int)
    ensures
        placed(locals, args, k).len() == locals.len(),
    decreases k,
{
    if k > 0 {
        lemma_placed_len(locals, args, k - 1);
    }
}

/// Whether `f` is a new frame for method `n` of descriptor `d` of class `c` with body
/// `code`, holding `args` in its first locals.
pub open spec fn called_frame(f: Frame, c: LoadedClass, n: Seq<char>, d: Seq<char>, code: Arc<Code>, args: Seq<Value>) -> bool {
    &&& f.constant_pool == c.constant_pool
    &&& f.method_name_des.name@ == n
    &&& f.method_name_des.des@ == d
    &&& f.code == code
    &&& f.pc == 0
    &&& f.operands@.len() == 0
    &&& f.locals@ == placed(Seq::new(code.max_locals as nat, |i: int| Value::Default), args, args.len() as int)
}

/// Whether `res` and the operands `after` are what taking the arguments of
/// descriptor `d` from `ops` for a call with body `code` of class `c` gives:
/// too few operands, or a new frame holding the arguments.
pub open spec fn arguments_call(ops: Seq<Value>, c: LoadedClass, n: Seq<char>, d: Seq<char>, code: Arc<Code>, res: Result<ExecutionResult, JVMError>, after: Seq<Value>) -> bool {
    let k = spec_count_parameters(d);
    if ops.len() < k {
        res == Err::<ExecutionResult, JVMError>(JVMError::InsufficientOperands { required: k as usize, found: ops.len() as usize })
    } else {
        &&& res matches Ok(ExecutionResult::Invoke(f))
        &&& called_frame(f, c, n, d, code, ops.subrange(ops.len() - k, ops.len() as int))
        &&& after == ops.take(ops.len() - k)
    }
}

/// Whether `res` and the operands `after` are what a call of method `n`
/// of descriptor `d` on the object below its arguments on `ops` gives: the
/// arguments are taken, then the object, whose class `c` is found in the
/// heap; with `interface`, `c` must implement it; the method is looked up
/// from `c`. `special` is the class whose method `code` is called directly
/// instead, after checking that `c` descends from its name `cn`.
pub open spec fn object_call(classes: Seq<LoadedClass>, arena: Seq<Object>, ops: Seq<Value>, interface: Option<Seq<char>>, special: Option<(int, Seq<char>, Arc<Code>)>, n: Seq<char>, d: Seq<char>, res: Result<ExecutionResult, JVMError>, after: Seq<Value>) -> bool {
    let k = spec_count_parameters(d);
    if ops.len() < k {
        res == Err::<ExecutionResult, JVMError>(JVMError::InsufficientOperands { required: k as usize, found: ops.len() as usize })
    } else if ops.len() == k {
        res matches Err(JVMError::StackUnderflow)
    } else {
        let r = ops[ops.len() - k - 1];
        let args = seq![r] + ops.subrange(ops.len() - k, ops.len() as int);
        let rest = ops.take(ops.len() - k - 1);
        match r {
            Value::Reference(Some(o)) => match special {
                Some((t, cn, code)) => {
                    if o < arena.len() && (arena[o as int].class matches Some(c) && c < classes.len()
                        && !chain_has(classes, c as nat, cn)) {
                        res matches Err(JVMError::IncompatibleClass { .. })
                    } else {
                        &&& res matches Ok(ExecutionResult::Invoke(f))
                        &&& called_frame(f, classes[t], n, d, code, args)
                        &&& after == rest
                    }
                },
                None => {
                    if o >= arena.len() || arena[o as int].class is None || arena[o as int].class.unwrap() >= classes.len() {
                        res matches Err(JVMError::NullReference)
                    } else {
                        let c = arena[o as int].class.unwrap();
                        if interface matches Some(iname) && !implements(classes, c as nat, iname) {
                            res matches Err(JVMError::IncompatibleClass { .. })
                        } else {
                            match virtual_lookup(classes, c as nat, n, d) {
                                Err(_) => res matches Err(JVMError::MethodNotFound { .. }),
                                Ok((mc, code)) => {
                                    &&& res matches Ok(ExecutionResult::Invoke(f))
                                    &&& called_frame(f, classes[mc as int], n, d, code, args)
                                    &&& after == rest
                                },
                            }
                        }
                    }
                },
            },
            Value::Reference(None) => res matches Err(JVMError::NullReference),
            _ => res matches Err(JVMError::TypeMismatch { .. }),
        }
    }
}

/// Counts the parameters of a method descriptor by the scan that
/// `spec_count_parameters` describes.
pub fn count_parameters(descriptor: &str) -> (res: usize)
    ensures
        res == spec_count_parameters(descriptor@),
{
    let chars = crate::text::str_to_chars(descriptor);
    let mut count: usize = 0;
    let mut i: usize = 1;
    let mut m = Scan::Normal;
    if chars.len() == 0 {
        return 0;
    }
    while i < chars.len()
        invariant
            1 <= i <= chars@.len(),
            chars@ == descriptor@,
            count + scan_count(descriptor@, i as int, m) == spec_count_parameters(descriptor@),
            count <= i,
        decreases chars@.len() - i,
    {
        let c = chars[i];
        match m {
            Scan::Normal => {
                if c == ')' {
                    return count;
                } else if c == 'L' {
                    count = count + 1;
                    m = Scan::Class;
                } else if c == '[' {
                    count = count + 1;
                    m = Scan::Brackets;
                } else {
                    count = count + 1;
                }
            },
            Scan::Class => {
                if c == ';' {
                    m = Scan::Normal;
                }
            },
            Scan::Brackets => {
                if c == 'L' {
                    m = Scan::Class;
                } else if c != '[' {
                    m = Scan::Normal;
                }
            },
        }
        i = i + 1;
    }
    count
}

/// The outcome of `invokestatic` of the reference at `index`.
pub open spec fn invokestatic_result(old: Frame, new: Frame, index: u16, loader: ClassLoader, res: Result<ExecutionResult, JVMError>) -> bool {
    &&& old.same_but_operands(new)
    &&& match spec_method_ref(old.constant_pool.entries(), index) {
        Err(f) => method_ref_error(res, f) && new.operands@ =~= old.operands@,
        Ok((cn, n, d)) => match spec_find_class(loader.classes@, cn) {
            None => res matches Err(JVMError::Other(_)),
            Some(t) => match spec_find_method(loader.classes@[t].methods@, loader.classes@[t].constant_pool.entries(), n, d) {
                None => res matches Err(JVMError::Other(_)),
                Some(mi) => {
                    let ops = old.operands@;
                    let k = spec_count_parameters(d);
                    if has_bits(loader.classes@[t].methods@[mi].access_flags.bits, MethodFlags::ACC_NATIVE) {
                        if ops.len() < k {
                            res == Err::<ExecutionResult, JVMError>(JVMError::InsufficientOperands {
                                required: k as usize,
                                found: ops.len() as usize,
                            })
                        } else {
                            &&& res matches Ok(ExecutionResult::Native { class_name, name_des, args })
                            &&& class_name@ == cn
                            &&& name_des.name@ == n
                            &&& name_des.des@ == d
                            &&& args@ == ops.subrange(ops.len() - k, ops.len() as int).reverse()
                            &&& new.operands@ =~= ops.take(ops.len() - k)
                        }
                    } else {
                        match virtual_lookup(loader.classes@, t as nat, n, d) {
                            Err(_) => res matches Err(JVMError::MethodNotFound { .. }),
                            Ok((mc, code)) => arguments_call(ops, loader.classes@[mc as int], n, d, code, res,
                                new.operands@),
                        }
                    }
                },
            },
        },
    }
}

/// The outcome of `invokespecial` of the reference at `index`.
pub open spec fn invokespecial_result(old: Frame, new: Frame, index: u16, heap: Heap, loader: ClassLoader, res: Result<ExecutionResult, JVMError>) -> bool {
    &&& old.same_but_operands(new)
    &&& match spec_method_ref(old.constant_pool.entries(), index) {
        Err(f) => method_ref_error(res, f),
        Ok((cn, n, d)) => match spec_find_class(loader.classes@, cn) {
            None => res matches Err(JVMError::Other(_)),
            Some(t) => match spec_code_of(loader.classes@[t].methods@, loader.classes@[t].constant_pool.entries(), n, d) {
                None => res matches Err(JVMError::MethodNotFound { .. }),
                Some(code) => object_call(loader.classes@, heap.arena@, old.operands@, None, Some((t, cn, code)), n, d,
                    res, new.operands@),
            },
        },
    }
}

/// The outcome of `invokevirtual` of the reference at `index`.
pub open spec fn invokevirtual_result(old: Frame, new: Frame, index: u16, heap: Heap, loader: ClassLoader, res: Result<ExecutionResult, JVMError>) -> bool {
    &&& old.same_but_operands(new)
    &&& match spec_method_ref(old.constant_pool.entries(), index) {
        Err(f) => method_ref_error(res, f),
        Ok((cn, n, d)) => object_call(loader.classes@, heap.arena@, old.operands@, None, None, n, d, res,
            new.operands@),
    }
}

/// The outcome of `invokeinterface` of the reference at `index`.
pub open spec fn invokeinterface_result(old: Frame, new: Frame, index: u16, heap: Heap, loader: ClassLoader, res: Result<ExecutionResult, JVMError>) -> bool {
    &&& old.same_but_operands(new)
    &&& match spec_method_ref(old.constant_pool.entries(), index) {
        Err(f) => method_ref_error(res, f),
        Ok((cn, n, d)) => match spec_find_class(loader.classes@, cn) {
            None => res matches Err(JVMError::Other(_)),
            Some(i) => object_call(loader.classes@, heap.arena@, old.operands@, Some(cn), None, n, d, res,
                new.operands@),
        },
    }
}

impl Frame {
    /// The class name, method name and descriptor of the method reference
    /// at `index`.
    pub fn resolve_method_ref(&self, index: u16) -> (res: Result<(String, NameDes), JVMError>)
        ensures
            match spec_method_ref(self.constant_pool.entries(), index) {
                Ok((c, n, d)) => res matches Ok((x, nd)) && x@ == c && nd.name@ == n && nd.des@ == d,
                Err(f) => method_ref_error(res, f),
            },
    {
        let cp_entry = self.get_entry(index)?;
        let (class_index, name_and_type_index) = match cp_entry {
            ConstantInfo::Methodref(ConstantMethodRefInfo { class_index, name_and_type_index }) => (*class_index, *name_and_type_index),
            ConstantInfo::InterfaceMethodRef(ConstantInterfaceMethodRefInfo { class_index, name_and_type_index }) => (
                *class_index,
                *name_and_type_index,
            ),
            _ => {
                return Err(JVMError::InvalidConstantType { expected: "Methodref or InterfaceMethodref", found: "other" });
            },
        };
        let class_name = match self.constant_pool.get_underlying_string_from_constant_class_info_index(class_index) {
            Some(c) => c.clone(),
            None => {
                return Err(JVMError::ConstantPoolIndexOutOfBounds { index, max: self.constant_pool.get_len() });
            },
        };
        let name_and_type = self.get_entry(name_and_type_index)?;
        match name_and_type {
            ConstantInfo::NameAndType(value) => {
                if self.constant_pool.get_underlying_string_from_utf8_index(value.name_index).is_none()
                    || self.constant_pool.get_underlying_string_from_utf8_index(value.descriptor_index).is_none() {
                    return Err(JVMError::Other("Invalid NameAndType entry".to_string()));
                }
                let name_des = NameDes::new(value, &self.constant_pool);
                Ok((class_name, name_des))
            },
            _ => Err(JVMError::InvalidConstantType { expected: "Methodref or InterfaceMethodref", found: "other" }),
        }
    }

    /// Pops the arguments of a method of descriptor `descriptor`: as many
    /// values as `count_parameters` counts, given in the order they were
    /// pushed.
    pub fn prepare_arguments(&mut self, descriptor: &str) -> (res: Result<Vec<Value>, JVMError>)
        ensures
            old(self).same_but_operands(*final(self)),
            ({
                let n = spec_count_parameters(descriptor@);
                let ops = old(self).operands@;
                if ops.len() < n {
                    res == Err::<Vec<Value>, JVMError>(JVMError::InsufficientOperands {
                        required: n as usize,
                        found: ops.len() as usize,
                    })
                } else {
                    res matches Ok(args) && args@ == ops.subrange(ops.len() - n, ops.len() as int)
                        && final(self).operands@ == ops.take(ops.len() - n)
                }
            }),
    {
        let param_count = count_parameters(descriptor);
        if self.operands.len() < param_count {
            return Err(JVMError::InsufficientOperands { required: param_count, found: self.operands.len() });
        }
        let ghost ops = self.operands@;
        let mut popped: Vec<Value> = Vec::new();
        let mut k: usize = 0;
        while k < param_count
            invariant
                k <= param_count,
                param_count <= ops.len(),
                self.operands@ == ops.take(ops.len() - k),
                popped@.len() == k,
                forall|j: int| 0 <= j < k ==> popped@[j] == ops[ops.len() - 1 - j],
                old(self).same_but_operands(*self),
            decreases param_count - k,
        {
            let v = match self.operands.pop() {
                Some(v) => v,
                None => {
                    assert(false);
                    unreached()
                },
            };
            popped.push(v);
            k = k + 1;
            assert(self.operands@ =~= ops.take(ops.len() - k));
        }
        let mut args: Vec<Value> = Vec::new();
        let mut j: usize = popped.len();
        while j > 0
            invariant
                j <= popped@.len(),
                popped@.len() == param_count,
                param_count <= ops.len(),
                forall|m: int| 0 <= m < param_count ==> popped@[m] == ops[ops.len() - 1 - m],
                args@ == ops.subrange(ops.len() - param_count, ops.len() - j),
            decreases j,
        {
            args.push(popped[j - 1]);
            j = j - 1;
            assert(args@ =~= ops.subrange(ops.len() - param_count, ops.len() - j));
        }
        Ok(args)
    }

    /// A new frame for method `name_des` of `class` with body `code`, whose
    /// locals hold `args`: each in the next slot, a `long` or `double`
    /// taking two.
    pub fn with_arguments(class: &LoadedClass, name_des: &NameDes, code: Arc<Code>, args: &Vec<Value>) -> (res: Frame)
        ensures
            called_frame(res, *class, name_des.name@, name_des.des@, code, args@),
    {
        let mut frame = Frame::new(class, name_des, code);
        let ghost locals0 = frame.locals@;
        let mut i: u128 = 0;
        let mut k: usize = 0;
        proof {
            lemma_placed_len(locals0, args@, 0);
        }
        while k < args.len()
            invariant
                k <= args@.len(),
                i == slot_of(args@, k as int),
                i <= 2 * k,
                frame.locals@ == placed(locals0, args@, k as int),
                frame.constant_pool == class.constant_pool,
                frame.method_name_des.name@ == name_des.name@,
                frame.method_name_des.des@ == name_des.des@,
                frame.code == code,
                frame.pc == 0,
                frame.operands@.len() == 0,
                locals0 == Seq::new(code.max_locals as nat, |i: int| Value::Default),
            decreases args@.len() - k,
        {
            let arg = args[k];
            proof {
                lemma_placed_len(locals0, args@, k as int);
            }
            if i < frame.locals.len() as u128 {
                frame.set_local(i as usize, arg);
            }
            let w: u128 = match arg {
                Value::Long(_) | Value::Double(_) => 2,
                _ => 1,
            };
            i = i + w;
            k = k + 1;
        }
        assert(frame.method_name_des.name@ == name_des.name@);
        frame
    }

    /// `invokestatic`: calls the static method that the reference at
    /// `index` names, in its class, which must be loaded. A native method
    /// is handed out with its arguments; another one gets a new frame.
    pub fn invokestatic(&mut self, index: u16, loader: &ClassLoader) -> (res: Result<ExecutionResult, JVMError>)
        requires
            loader.wf(),
        ensures
            invokestatic_result(*old(self), *final(self), index, *loader, res),
    {
        let (class_name, name_des) = self.resolve_method_ref(index)?;
        let target = match loader.find_loaded_class(class_name.as_str()) {
            Some(t) => t,
            None => {
                return Err(JVMError::Other(crate::text::concat("Class not loaded: ", class_name.as_str())));
            },
        };
        proof {
            assert(class_wf(loader.classes@[target as int], target as int));
            crate::loaded_class::lemma_find_method_bound(loader.classes@[target as int].methods@,
                loader.classes@[target as int].constant_pool.entries(), name_des.name@, name_des.des@);
        }
        let method_info = match loader.classes[target].get_method_info_from_name_and_descriptor(&name_des) {
            Some(m) => m,
            None => {
                return Err(JVMError::Other(crate::text::concat("Method not found: ", name_des.name.as_str())));
            },
        };
        if method_info.access_flags.contains(MethodFlags::ACC_NATIVE) {
            let args = self.prepare_arguments(name_des.des.as_str())?;
            let mut reversed: Vec<Value> = Vec::new();
            let mut j: usize = args.len();
            while j > 0
                invariant
                    j <= args@.len(),
                    reversed@ == args@.subrange(j as int, args@.len() as int).reverse(),
                decreases j,
            {
                reversed.push(args[j - 1]);
                j = j - 1;
                assert(reversed@ =~= args@.subrange(j as int, args@.len() as int).reverse());
            }
            assert(args@.subrange(0, args@.len() as int) =~= args@);
            Ok(ExecutionResult::Native { class_name, name_des, args: reversed })
        } else {
            let (method_class, method_code) = loader.lookup_virtual_method(target, &name_des)?;
            proof {
                lemma_virtual_lookup_bound(loader.classes@, target as nat, name_des.name@, name_des.des@);
                assert(loader.classes@.len() == loader.classes.len());
            }
            let args = self.prepare_arguments(name_des.des.as_str())?;
            let new_frame = Frame::with_arguments(&loader.classes[method_class], &name_des, method_code, &args);
            Ok(ExecutionResult::Invoke(new_frame))
        }
    }

    /// `invokespecial`: calls the method that the reference at `index` names
    /// in its class itself, on the object below the arguments.
    pub fn invokespecial(&mut self, index: u16, heap: &Heap, loader: &ClassLoader) -> (res: Result<ExecutionResult, JVMError>)
        requires
            loader.wf(),
        ensures
            invokespecial_result(*old(self), *final(self), index, *heap, *loader, res),
    {
        let (class_name, name_des) = self.resolve_method_ref(index)?;
        let target = match loader.find_loaded_class(class_name.as_str()) {
            Some(t) => t,
            None => {
                return Err(JVMError::Other(crate::text::concat("Class not loaded: ", class_name.as_str())));
            },
        };
        let (method_class, method_code) = loader.lookup_method(target, &name_des)?;
        let ghost ops = self.operands@;
        let args = self.prepare_arguments(name_des.des.as_str())?;
        let ghost taken = self.operands@;
        let object_ref = self.pop()?;
        proof {
            let k = spec_count_parameters(name_des.des@);
            assert(taken == ops.take(ops.len() - k));
            assert(object_ref == taken.last());
            assert(object_ref == ops[ops.len() - k - 1]);
            assert(self.operands@ =~= ops.take(ops.len() - k - 1));
        }
        match object_ref {
            Value::Reference(Some(o)) => {
                if o < heap.arena.len() {
                    if let Some(c) = heap.arena[o].class {
                        if c < loader.classes.len() && !loader.is_compatible_class(c, class_name.as_str()) {
                            return Err(JVMError::IncompatibleClass {
                                expected: class_name,
                                found: loader.classes[c].class_name.clone(),
                            });
                        }
                    }
                }
                let mut all: Vec<Value> = Vec::new();
                all.push(object_ref);
                let mut j: usize = 0;
                while j < args.len()
                    invariant
                        j <= args@.len(),
                        all@ == seq![object_ref] + args@.take(j as int),
                    decreases args@.len() - j,
                {
                    all.push(args[j]);
                    j = j + 1;
                    assert(all@ =~= seq![object_ref] + args@.take(j as int));
                }
                assert(args@.take(j as int) =~= args@);
                let new_frame = Frame::with_arguments(&loader.classes[method_class], &name_des, method_code, &all);
                Ok(ExecutionResult::Invoke(new_frame))
            },
            Value::Reference(None) => Err(JVMError::NullReference),
            _ => Err(JVMError::TypeMismatch { expected: "Reference".to_string(), found: "non-reference".to_string() }),
        }
    }

    /// `invokevirtual` and, with `interface` the loaded interface, the call
    /// part of `invokeinterface`: calls the method that a virtual lookup
    /// finds from the class of the object below the arguments.
    fn invoke_on_object(&mut self, class_name: String, name_des: NameDes, interface: Option<usize>, heap: &Heap, loader: &ClassLoader) -> (res: Result<ExecutionResult, JVMError>)
        requires
            loader.wf(),
            interface matches Some(i) ==> i < loader.classes@.len(),
        ensures
            old(self).same_but_operands(*final(self)),
            object_call(loader.classes@, heap.arena@, old(self).operands@,
                match interface { Some(i) => Some(loader.classes@[i as int].class_name@), None => None }, None,
                name_des.name@, name_des.des@, res, final(self).operands@),
    {
        let ghost ops = self.operands@;
        let args = self.prepare_arguments(name_des.des.as_str())?;
        let ghost taken = self.operands@;
        let object_ref = self.pop()?;
        proof {
            let k = spec_count_parameters(name_des.des@);
            assert(taken == ops.take(ops.len() - k));
            assert(object_ref == taken.last());
            assert(object_ref == ops[ops.len() - k - 1]);
            assert(self.operands@ =~= ops.take(ops.len() - k - 1));
        }
        match object_ref {
            Value::Reference(Some(o)) => {
                if o >= heap.arena.len() {
                    return Err(JVMError::NullReference);
                }
                let c = match heap.arena[o].class {
                    Some(c) => c,
                    None => {
                        return Err(JVMError::NullReference);
                    },
                };
                if c >= loader.classes.len() {
                    return Err(JVMError::NullReference);
                }
                if let Some(i) = interface {
                    if !loader.implements_interface(c, i) {
                        return Err(JVMError::IncompatibleClass { expected: class_name, found: loader.classes[c].class_name.clone() });
                    }
                }
                let (method_class, method_code) = loader.lookup_virtual_method(c, &name_des)?;
                proof {
                    lemma_virtual_lookup_bound(loader.classes@, c as nat, name_des.name@, name_des.des@);
                    assert(loader.classes@.len() == loader.classes.len());
                }
                let mut all: Vec<Value> = Vec::new();
                all.push(object_ref);
                let mut j: usize = 0;
                while j < args.len()
                    invariant
                        j <= args@.len(),
                        all@ == seq![object_ref] + args@.take(j as int),
                    decreases args@.len() - j,
                {
                    all.push(args[j]);
                    j = j + 1;
                    assert(all@ =~= seq![object_ref] + args@.take(j as int));
                }
                assert(args@.take(j as int) =~= args@);
                let new_frame = Frame::with_arguments(&loader.classes[method_class], &name_des, method_code, &all);
                Ok(ExecutionResult::Invoke(new_frame))
            },
            Value::Reference(None) => Err(JVMError::NullReference),
            _ => Err(JVMError::TypeMismatch { expected: "Reference".to_string(), found: "non-reference".to_string() }),
        }
    }

    /// `invokevirtual`: calls the method that the reference at `index`
    /// names, looked up from the class of the object below the arguments.
    pub fn invokevirtual(&mut self, index: u16, heap: &Heap, loader: &ClassLoader) -> (res: Result<ExecutionResult, JVMError>)
        requires
            loader.wf(),
        ensures
            invokevirtual_result(*old(self), *final(self), index, *heap, *loader, res),
    {
        let (class_name, name_des) = self.resolve_method_ref(index)?;
        self.invoke_on_object(class_name, name_des, None, heap, loader)
    }

    /// `invokeinterface`: like `invokevirtual`, after checking that the
    /// object's class implements the interface that the reference names,
    /// which must be loaded.
    pub fn invokeinterface(&mut self, index: u16, heap: &Heap, loader: &ClassLoader) -> (res: Result<ExecutionResult, JVMError>)
        requires
            loader.wf(),
        ensures
            invokeinterface_result(*old(self), *final(self), index, *heap, *loader, res),
    {
        let (class_name, name_des) = self.resolve_method_ref(index)?;
        let interface = match loader.find_loaded_class(class_name.as_str()) {
            Some(i) => i,
            None => {
                return Err(JVMError::Other(crate::text::concat("Class not loaded: ", class_name.as_str())));
            },
        };
        proof {
            crate::class_loader::lemma_find_class_bound(loader.classes@, class_name@);
        }
        self.invoke_on_object(class_name, name_des, Some(interface), heap, loader)
    }
}

} // verus!
