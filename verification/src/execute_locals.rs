//! Instructions that move values between local variables and the operand
//! stack: the loads, the stores and `iinc`.

use vstd::prelude::*;
use crate::jvm_error::JVMError;
use crate::runtime::{
    fails_with, pushes, spec_value_type, tag_fits, ExecutionResult, Failure, Frame, Tag, Value,
};

verus! {

/// The name of a kind in the messages of loads and stores.
pub open spec fn tag_name(t: Tag) -> &'static str {
    match t {
        Tag::Int => "int",
        Tag::Long => "long",
        Tag::Float => "float",
        Tag::Double => "double",
        Tag::Reference => "reference",
        Tag::Any => "any",
    }
}

/// The outcome of loading local `index` of kind `t` onto the operand stack.
pub open spec fn load_result(old: Frame, new: Frame, index: u8, t: Tag, res: Result<ExecutionResult, JVMError>) -> bool {
    &&& old.same_but_operands(new)
    &&& if index >= old.locals@.len() {
        res == Err::<ExecutionResult, JVMError>(
            JVMError::IndexOutOfBounds { index: index as usize, max: old.locals@.len() as usize })
    } else if !tag_fits(t, old.locals@[index as int]) {
        fails_with(res, Failure::Mismatch(tag_name(t), spec_value_type(old.locals@[index as int])))
    } else {
        pushes(old.code.max_stack, old.operands@, old.locals@[index as int], new.operands@, res)
    }
}

/// The outcome of storing the top of the operand stack, of kind `t`, in
/// local `index`.
pub open spec fn store_result(old: Frame, new: Frame, index: u8, t: Tag, res: Result<ExecutionResult, JVMError>) -> bool {
    &&& new.constant_pool == old.constant_pool
    &&& new.method_name_des == old.method_name_des
    &&& new.code == old.code
    &&& new.pc == old.pc
    &&& if index >= old.locals@.len() {
        res == Err::<ExecutionResult, JVMError>(
            JVMError::IndexOutOfBounds { index: index as usize, max: old.locals@.len() as usize })
    } else if old.operands@.len() == 0 {
        res matches Err(JVMError::StackUnderflow)
    } else if !tag_fits(t, old.operands@.last()) {
        fails_with(res, Failure::Mismatch(tag_name(t), spec_value_type(old.operands@.last())))
    } else {
        &&& res matches Ok(ExecutionResult::Continue)
        &&& new.locals@ == old.locals@.update(index as int, old.operands@.last())
        &&& new.operands@ == old.operands@.drop_last()
    }
}

/// The outcome of `iinc` of local `index` by `value`.
pub open spec fn iinc_result(old: Frame, new: Frame, index: u8, value: i8, res: Result<ExecutionResult, JVMError>) -> bool {
    &&& new.constant_pool == old.constant_pool
    &&& new.method_name_des == old.method_name_des
    &&& new.code == old.code
    &&& new.pc == old.pc
    &&& new.operands@ == old.operands@
    &&& index >= old.locals@.len() ==> res == Err::<ExecutionResult, JVMError>(
        JVMError::InvalidLocalVariable { index: index as usize })
    &&& index < old.locals@.len() ==> match old.locals@[index as int] {
        Value::Int(v) => if i32::MIN <= v + value <= i32::MAX {
            &&& res matches Ok(ExecutionResult::Continue)
            &&& new.locals@ == old.locals@.update(index as int, Value::Int((v + value) as i32))
        } else {
            res matches Err(JVMError::ArithmeticOverflow)
        },
        other => fails_with(res, Failure::Mismatch("Int", spec_value_type(other)))
    }
}

impl Frame {
    /// Loads local `index` when it holds a value of kind `t`.
    fn load_local(&mut self, index: u8, t: Tag) -> (res: Result<ExecutionResult, JVMError>)
        requires
            t != Tag::Any,
        ensures
            load_result(*old(self), *final(self), index, t, res),
    {
        let index = index as usize;
        self.check_local_index(index)?;
        let v = self.locals[index];
        let (fits, name): (bool, &'static str) = match (t, v) {
            (Tag::Int, Value::Int(_)) => (true, "int"),
            (Tag::Long, Value::Long(_)) => (true, "long"),
            (Tag::Float, Value::Float(_)) => (true, "float"),
            (Tag::Double, Value::Double(_)) => (true, "double"),
            (Tag::Reference, Value::Reference(_)) => (true, "reference"),
            (Tag::Int, _) => (false, "int"),
            (Tag::Long, _) => (false, "long"),
            (Tag::Float, _) => (false, "float"),
            (Tag::Double, _) => (false, "double"),
            (_, _) => (false, "reference"),
        };
        if !fits {
            return Err(JVMError::TypeMismatch {
                expected: name.to_string(),
                found: Self::get_value_type(&v).to_string(),
            });
        }
        self.push(v)?;
        Ok(ExecutionResult::Continue)
    }

    /// `iload`: pushes local `index`, which must hold an `int`.
    pub fn iload(&mut self, index: u8) -> (res: Result<ExecutionResult, JVMError>)
        ensures
            load_result(*old(self), *final(self), index, Tag::Int, res),
    {
        self.load_local(index, Tag::Int)
    }

    /// `lload`: pushes local `index`, which must hold a `long`.
    pub fn lload(&mut self, index: u8) -> (res: Result<ExecutionResult, JVMError>)
        ensures
            load_result(*old(self), *final(self), index, Tag::Long, res),
    {
        self.load_local(index, Tag::Long)
    }

    /// `fload`: pushes local `index`, which must hold a `float`.
    pub fn fload(&mut self, index: u8) -> (res: Result<ExecutionResult, JVMError>)
        ensures
            load_result(*old(self), *final(self), index, Tag::Float, res),
    {
        self.load_local(index, Tag::Float)
    }

    /// `dload`: pushes local `index`, which must hold a `double`.
    pub fn dload(&mut self, index: u8) -> (res: Result<ExecutionResult, JVMError>)
        ensures
            load_result(*old(self), *final(self), index, Tag::Double, res),
    {
        self.load_local(index, Tag::Double)
    }

    /// `aload`: pushes local `index`, which must hold a reference.
    pub fn aload(&mut self, index: u8) -> (res: Result<ExecutionResult, JVMError>)
        ensures
            load_result(*old(self), *final(self), index, Tag::Reference, res),
    {
        self.load_local(index, Tag::Reference)
    }

    /// Pops a value of kind `t` into local `index`.
    fn store_local(&mut self, index: u8, t: Tag) -> (res: Result<ExecutionResult, JVMError>)
        requires
            t != Tag::Any,
        ensures
            store_result(*old(self), *final(self), index, t, res),
    {
        let index = index as usize;
        self.check_local_index(index)?;
        let v = self.pop()?;
        let (fits, name): (bool, &'static str) = match (t, v) {
            (Tag::Int, Value::Int(_)) => (true, "int"),
            (Tag::Long, Value::Long(_)) => (true, "long"),
            (Tag::Float, Value::Float(_)) => (true, "float"),
            (Tag::Double, Value::Double(_)) => (true, "double"),
            (Tag::Reference, Value::Reference(_)) => (true, "reference"),
            (Tag::Int, _) => (false, "int"),
            (Tag::Long, _) => (false, "long"),
            (Tag::Float, _) => (false, "float"),
            (Tag::Double, _) => (false, "double"),
            (_, _) => (false, "reference"),
        };
        if !fits {
            return Err(JVMError::TypeMismatch {
                expected: name.to_string(),
                found: Self::get_value_type(&v).to_string(),
            });
        }
        self.locals.set(index, v);
        Ok(ExecutionResult::Continue)
    }

    /// `istore`: pops an `int` into local `index`.
    pub fn istore(&mut self, index: u8) -> (res: Result<ExecutionResult, JVMError>)
        ensures
            store_result(*old(self), *final(self), index, Tag::Int, res),
    {
        self.store_local(index, Tag::Int)
    }

    /// `lstore`: pops a `long` into local `index`.
    pub fn lstore(&mut self, index: u8) -> (res: Result<ExecutionResult, JVMError>)
        ensures
            store_result(*old(self), *final(self), index, Tag::Long, res),
    {
        self.store_local(index, Tag::Long)
    }

    /// `fstore`: pops a `float` into local `index`.
    pub fn fstore(&mut self, index: u8) -> (res: Result<ExecutionResult, JVMError>)
        ensures
            store_result(*old(self), *final(self), index, Tag::Float, res),
    {
        self.store_local(index, Tag::Float)
    }

    /// `dstore`: pops a `double` into local `index`.
    pub fn dstore(&mut self, index: u8) -> (res: Result<ExecutionResult, JVMError>)
        ensures
            store_result(*old(self), *final(self), index, Tag::Double, res),
    {
        self.store_local(index, Tag::Double)
    }

    /// `astore`: pops a reference into local `index`.
    pub fn astore(&mut self, index: u8) -> (res: Result<ExecutionResult, JVMError>)
        ensures
            store_result(*old(self), *final(self), index, Tag::Reference, res),
    {
        self.store_local(index, Tag::Reference)
    }

    /// `iinc`: adds `value` to the `int` in local `index`; the sum must fit
    /// in an `int`.
    pub fn iinc(&mut self, index: u8, value: i8) -> (res: Result<ExecutionResult, JVMError>)
        ensures
            iinc_result(*old(self), *final(self), index, value, res),
    {
        let current = match self.get_local(index as usize) {
            Some(Value::Int(val)) => *val,
            Some(other) => {
                return Err(JVMError::TypeMismatch {
                    expected: "Int".to_string(),
                    found: Self::get_value_type(other).to_string(),
                });
            },
            None => {
                return Err(JVMError::InvalidLocalVariable { index: index as usize });
            },
        };
        let result = match current.checked_add(value as i32) {
            Some(r) => r,
            None => {
                return Err(JVMError::ArithmeticOverflow);
            },
        };
        self.set_local(index as usize, Value::Int(result));
        Ok(ExecutionResult::Continue)
    }
}

} // verus!
