//! Exceptions and type checks: finding a handler, `athrow`, `checkcast`
//! and `instanceof`.

use vstd::prelude::*;
use crate::attribute::ExceptionTableEntry;
use crate::class_loader::{chain_has, lemma_find_class_bound, spec_find_class, subclass_of, ClassLoader};
use crate::constant_pool::{spec_class_name, ConstantInfo};
use crate::heap::Heap;
use crate::jvm_error::JVMError;
use crate::loaded_class::LoadedClass;
use crate::object::Object;
use crate::runtime::{fails_with, pop_one, pushes, ExecutionResult, Frame, Tag, Value};
use crate::text::{concat, str_eq};

verus! {

/// Whether a handler for the class named `catch` catches an exception of
/// the class named `thrown`: the names are equal, or `thrown` is loaded
/// and `catch` names it or one of its superclasses.
pub open spec fn catches(classes: Seq<LoadedClass>, thrown: Seq<char>, catch: Seq<char>) -> bool {
    ||| thrown == catch
    ||| (spec_find_class(classes, thrown) matches Some(t) && chain_has(classes, t as nat, catch))
}

/// The handler address of the first entry of `table` that covers the
/// instruction at `address` and catches the class named `name`: a catch
/// type of 0 catches everything, another one the class that the constant
/// pool names at that index and its subclasses.
pub open spec fn spec_handler(
    classes: Seq<LoadedClass>,
    table: Seq<ExceptionTableEntry>,
    cp: Seq<ConstantInfo>,
    address: u32,
    name: Seq<char>,
) -> Option<u16>
    decreases table.len(),
{
    if table.len() == 0 {
        None
    } else {
        let e = table[0];
        if e.start_pc <= address && address < e.end_pc && (e.catch_type == 0 || (spec_class_name(cp, e.catch_type) matches Some(
            c) && catches(classes, name, c))) {
            Some(e.handler_pc)
        } else {
            spec_handler(classes, table.drop_first(), cp, address, name)
        }
    }
}

/// The class of the object that `o` refers to, when the object is in the
/// heap and its class is a loaded one.
pub open spec fn object_class(classes: Seq<LoadedClass>, arena: Seq<Object>, o: usize) -> Option<usize> {
    if o < arena.len() && (arena[o as int].class matches Some(c) && c < classes.len()) {
        arena[o as int].class
    } else {
        None
    }
}

/// Whether `res` and the operands `after` are what `checkcast` (or, with
/// `instance`, `instanceof`) of the class at `index` of the constant pool
/// `cp` gives on the operands `ops` of a frame of maximum depth `max`.
pub open spec fn type_check(
    classes: Seq<LoadedClass>,
    arena: Seq<Object>,
    cp: Seq<ConstantInfo>,
    index: u16,
    instance: bool,
    max: u16,
    ops: Seq<Value>,
    res: Result<ExecutionResult, JVMError>,
    after: Seq<Value>,
) -> bool {
    if ops.len() == 0 {
        res matches Err(JVMError::StackUnderflow)
    } else {
        let below = ops.drop_last();
        match ops.last() {
            Value::Reference(None) => pushes(max, below, if instance { Value::Int(0) } else { Value::Reference(None) }, after, res),
            Value::Reference(Some(o)) => match spec_class_name(cp, index) {
                None => res matches Err(JVMError::Other(_)),
                Some(target) => match spec_find_class(classes, target) {
                    None => res matches Err(JVMError::Other(_)),
                    Some(_) => match object_class(classes, arena, o) {
                        None => res matches Err(JVMError::Other(m)) && m@ == "Object has no class"@,
                        Some(c) => {
                            let fits = chain_has(classes, c as nat, target);
                            if instance {
                                pushes(max, below, Value::Int(if fits { 1 } else { 0 }), after, res)
                            } else if fits {
                                pushes(max, below, ops.last(), after, res)
                            } else {
                                res matches Err(JVMError::ClassCastException(m))
                                    && m@ == "Cannot cast "@ + classes[c as int].class_name@ + " to "@ + target
                            }
                        },
                    },
                },
            },
            _ => res matches Err(JVMError::Other(_)),
        }
    }
}

/// Whether `res` is what `athrow` gives on the operands `ops`: the thrown
/// object's class must descend from `java/lang/Throwable`, which must be
/// loaded, and is handed out by name.
pub open spec fn throw_outcome(classes: Seq<LoadedClass>, arena: Seq<Object>, ops: Seq<Value>, res: Result<ExecutionResult, JVMError>) -> bool {
    match pop_one(ops, Tag::Reference) {
        Err(f) => fails_with(res, f),
        Ok(Value::Reference(Some(o))) => match object_class(classes, arena, o) {
            None => res matches Err(JVMError::Other(m)) && m@ == "Exception object has no class"@,
            Some(c) => match spec_find_class(classes, "java/lang/Throwable"@) {
                None => res matches Err(JVMError::Other(_)),
                Some(_) => if subclass_of(classes, c as nat, "java/lang/Throwable"@) {
                    res matches Ok(ExecutionResult::Throw(name)) && name@ == classes[c as int].class_name@
                } else {
                    res matches Err(JVMError::TypeMismatch { expected, found }) && expected@ == "Throwable"@
                        && found@ == classes[c as int].class_name@
                },
            },
        },
        Ok(_) => res matches Err(JVMError::Other(m)) && m@ == "Expected some reference value but got null"@,
    }
}

impl Frame {
    /// The handler address of the first entry of this method's exception
    /// table that covers the current instruction and catches the class
    /// named `exception_class_name` or one of its superclasses.
    pub fn find_exception_handler(&self, exception_class_name: &str, loader: &ClassLoader) -> (res: Option<usize>)
        requires
            self.pc < self.code.code@.len(),
            loader.wf(),
        ensures
            match spec_handler(loader.classes@, self.code.exception_table@, self.constant_pool.entries(),
                self.code.code@[self.pc as int].0, exception_class_name@) {
                Some(h) => res matches Some(r) && r == h,
                None => res is None,
            },
    {
        let table = &self.code.exception_table;
        let address = self.code.get_address_at_index(self.pc);
        let ghost cp = self.constant_pool.entries();
        let ghost classes = loader.classes@;
        let thrown = loader.find_loaded_class(exception_class_name);
        proof {
            lemma_find_class_bound(classes, exception_class_name@);
        }
        let mut i: usize = 0;
        assert(table@.skip(0) =~= table@);
        while i < table.len()
            invariant
                i <= table@.len(),
                cp == self.constant_pool.entries(),
                classes == loader.classes@,
                loader.wf(),
                table@ == self.code.exception_table@,
                self.pc < self.code.code@.len(),
                address == self.code.code@[self.pc as int].0,
                match spec_find_class(classes, exception_class_name@) {
                    Some(t) => thrown matches Some(r) && r == t,
                    None => thrown is None,
                },
                spec_handler(classes, table@, cp, address, exception_class_name@) == spec_handler(classes, table@.skip(i as int),
                    cp, address, exception_class_name@),
            decreases table@.len() - i,
        {
            let entry = table[i];
            assert(table@.skip(i as int)[0] == entry);
            assert(table@.skip(i as int).drop_first() =~= table@.skip(i + 1));
            if entry.start_pc as u32 <= address && address < entry.end_pc as u32 {
                if entry.catch_type == 0 {
                    return Some(entry.handler_pc as usize);
                }
                if let Some(catch_name) = self.constant_pool.get_underlying_string_from_constant_class_info_index(entry.catch_type) {
                    if str_eq(exception_class_name, catch_name.as_str()) {
                        return Some(entry.handler_pc as usize);
                    }
                    if let Some(t) = thrown {
                        if loader.is_compatible_class(t, catch_name.as_str()) {
                            return Some(entry.handler_pc as usize);
                        }
                    }
                }
            }
            i = i + 1;
        }
        None
    }

    /// The class of the object that `o` refers to, when there is one.
    fn class_of_object(o: usize, heap: &Heap, loader: &ClassLoader) -> (res: Option<usize>)
        ensures
            res == object_class(loader.classes@, heap.arena@, o),
    {
        if o < heap.arena.len() {
            if let Some(c) = heap.arena[o].class {
                if c < loader.classes.len() {
                    return Some(c);
                }
            }
        }
        None
    }

    /// `athrow`: pops a reference to an exception object and hands out the
    /// name of its class, which must descend from `java/lang/Throwable`.
    pub fn athrow(&mut self, heap: &Heap, loader: &ClassLoader) -> (res: Result<ExecutionResult, JVMError>)
        requires
            loader.wf(),
        ensures
            old(self).same_but_operands(*final(self)),
            throw_outcome(loader.classes@, heap.arena@, old(self).operands@, res),
            pop_one(old(self).operands@, Tag::Reference) is Ok ==> final(self).operands@ == old(self).operands@.drop_last(),
    {
        let exception = match self.pop_expect_reference()? {
            Some(value) => value,
            None => {
                return Err(JVMError::Other("Expected some reference value but got null".to_string()));
            },
        };
        match Self::class_of_object(exception, heap, loader) {
            Some(c) => {
                let throwable = match loader.find_loaded_class("java/lang/Throwable") {
                    Some(t) => t,
                    None => {
                        return Err(JVMError::Other(concat("Class not loaded: ", "java/lang/Throwable")));
                    },
                };
                proof {
                    lemma_find_class_bound(loader.classes@, "java/lang/Throwable"@);
                }
                if !loader.is_subclass_of(c, throwable) {
                    return Err(JVMError::TypeMismatch {
                        expected: "Throwable".to_string(),
                        found: loader.classes[c].class_name.clone(),
                    });
                }
                Ok(ExecutionResult::Throw(loader.classes[c].class_name.clone()))
            },
            None => Err(JVMError::Other("Exception object has no class".to_string())),
        }
    }

    /// The common part of `checkcast` and `instanceof`.
    fn check_type(&mut self, index: u16, instance: bool, heap: &Heap, loader: &ClassLoader) -> (res: Result<ExecutionResult, JVMError>)
        requires
            loader.wf(),
        ensures
            old(self).same_but_operands(*final(self)),
            type_check(loader.classes@, heap.arena@, old(self).constant_pool.entries(), index, instance, old(self).code.max_stack,
                old(self).operands@, res, final(self).operands@),
    {
        let ref_value = self.pop()?;
        match ref_value {
            Value::Reference(None) => {
                if instance {
                    self.push(Value::Int(0))?;
                } else {
                    self.push(Value::Reference(None))?;
                }
                Ok(ExecutionResult::Continue)
            },
            Value::Reference(Some(o)) => {
                let target_name = match self.constant_pool.get_underlying_string_from_constant_class_info_index(index) {
                    Some(n) => n,
                    None => {
                        return Err(JVMError::Other("Invalid class index".to_string()));
                    },
                };
                let target = match loader.find_loaded_class(target_name.as_str()) {
                    Some(t) => t,
                    None => {
                        return Err(JVMError::Other(concat("Class not loaded: ", target_name.as_str())));
                    },
                };
                proof {
                    lemma_find_class_bound(loader.classes@, target_name@);
                }
                let c = match Self::class_of_object(o, heap, loader) {
                    Some(c) => c,
                    None => {
                        return Err(JVMError::Other("Object has no class".to_string()));
                    },
                };
                let fits = loader.is_assignable(c, target);
                if instance {
                    self.push(Value::Int(if fits { 1 } else { 0 }))?;
                    Ok(ExecutionResult::Continue)
                } else if fits {
                    self.push(ref_value)?;
                    Ok(ExecutionResult::Continue)
                } else {
                    let a = concat("Cannot cast ", loader.classes[c].class_name.as_str());
                    let b = concat(a.as_str(), " to ");
                    Err(JVMError::ClassCastException(concat(b.as_str(), target_name.as_str())))
                }
            },
            _ => Err(JVMError::Other("Checkcast requires a reference type".to_string())),
        }
    }

    /// `checkcast`: leaves a reference on the stack when it is null or its
    /// object's class is the class at `index` or descends from it through
    /// superclasses; fails with `ClassCastException` otherwise.
    pub fn checkcast(&mut self, index: u16, heap: &Heap, loader: &ClassLoader) -> (res: Result<ExecutionResult, JVMError>)
        requires
            loader.wf(),
        ensures
            old(self).same_but_operands(*final(self)),
            type_check(loader.classes@, heap.arena@, old(self).constant_pool.entries(), index, false, old(self).code.max_stack,
                old(self).operands@, res, final(self).operands@),
    {
        self.check_type(index, false, heap, loader)
    }

    /// `instanceof`: replaces a reference by 1 when it is not null and its
    /// object's class is the class at `index` or descends from it through
    /// superclasses, by 0 otherwise.
    pub fn instanceof(&mut self, index: u16, heap: &Heap, loader: &ClassLoader) -> (res: Result<ExecutionResult, JVMError>)
        requires
            loader.wf(),
        ensures
            old(self).same_but_operands(*final(self)),
            type_check(loader.classes@, heap.arena@, old(self).constant_pool.entries(), index, true, old(self).code.max_stack,
                old(self).operands@, res, final(self).operands@),
    {
        self.check_type(index, true, heap, loader)
    }
}

} // verus!
