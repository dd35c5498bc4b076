//! Instructions that rearrange the operand stack, and the returns.

use vstd::prelude::*;
use crate::jvm_error::JVMError;
use crate::runtime::{fails_with, popped, rest, ExecutionResult, Frame, Tag, Value};

verus! {

/// Whether pushing `vals` in order onto `ops`, in a frame of maximum depth
/// `max`, gives `new_ops` and `res`.
pub open spec fn pushes_all(max: u16, ops: Seq<Value>, vals: Seq<Value>, new_ops: Seq<Value>, res: Result<ExecutionResult, JVMError>) -> bool {
    if ops.len() + vals.len() > max {
        res matches Err(JVMError::StackOverflow)
    } else {
        res matches Ok(ExecutionResult::Continue) && new_ops == ops + vals
    }
}

/// The outcome of popping `n` values and pushing back the popped values
/// chosen by `order` (positions counted from the top, the first pushed
/// first).
pub open spec fn shuffle_result(old: Frame, new: Frame, n: int, order: Seq<int>, res: Result<ExecutionResult, JVMError>) -> bool {
    &&& old.same_but_operands(new)
    &&& if old.operands@.len() < n {
        res matches Err(JVMError::StackUnderflow)
    } else {
        let top = |k: int| old.operands@[old.operands@.len() - 1 - k];
        pushes_all(old.code.max_stack, rest(old.operands@, n), order.map_values(top), new.operands@, res)
    }
}

/// The outcome of a return that pops a value of kind `t`.
pub open spec fn return_result(old: Frame, new: Frame, t: Tag, res: Result<ExecutionResult, JVMError>) -> bool {
    &&& old.same_but_operands(new)
    &&& match popped(old.operands@, 0, seq![t]) {
        Err(f) => fails_with(res, f),
        Ok(vs) => res == Ok::<ExecutionResult, JVMError>(ExecutionResult::Return(Some(vs[0])))
            && new.operands@ == rest(old.operands@, 1),
    }
}

/// The outcome of `pop2`: one `long` or `double` is popped, or two values
/// of another kind.
pub open spec fn pop2_result(old: Frame, new: Frame, res: Result<ExecutionResult, JVMError>) -> bool {
    &&& old.same_but_operands(new)
    &&& ({
        let ops = old.operands@;
        let n: int = if ops.len() > 0 && (ops.last() is Long || ops.last() is Double) { 1 } else { 2 };
        if ops.len() < n {
            res matches Err(JVMError::StackUnderflow)
        } else {
            res matches Ok(ExecutionResult::Continue) && new.operands@ == rest(ops, n)
        }
    })
}

impl Frame {
    /// `dup`: pushes a copy of the top value.
    pub fn dup(&mut self) -> (res: Result<ExecutionResult, JVMError>)
        ensures
            shuffle_result(*old(self), *final(self), 1, seq![0, 0], res),
    {
        let value = self.pop()?;
        assert(rest(old(self).operands@, 1) =~= self.operands@);
        self.push(value)?;
        self.push(value)?;
        proof {
            let top = |k: int| old(self).operands@[old(self).operands@.len() - 1 - k];
            assert(seq![0int, 0].map_values(top) =~= seq![value, value]);
            assert(self.operands@ =~= rest(old(self).operands@, 1) + seq![value, value]);
        }
        Ok(ExecutionResult::Continue)
    }

    /// `dup_x1`: copies the top value beneath the second one.
    pub fn dup_x1(&mut self) -> (res: Result<ExecutionResult, JVMError>)
        ensures
            shuffle_result(*old(self), *final(self), 2, seq![0, 1, 0], res),
    {
        let value1 = self.pop()?;
        let value2 = self.pop()?;
        assert(rest(old(self).operands@, 2) =~= self.operands@);
        self.push(value1)?;
        self.push(value2)?;
        self.push(value1)?;
        proof {
            let top = |k: int| old(self).operands@[old(self).operands@.len() - 1 - k];
            assert(seq![0int, 1, 0].map_values(top) =~= seq![value1, value2, value1]);
            assert(self.operands@ =~= rest(old(self).operands@, 2) + seq![value1, value2, value1]);
        }
        Ok(ExecutionResult::Continue)
    }

    /// `dup_x2`: copies the top value beneath the third one.
    pub fn dup_x2(&mut self) -> (res: Result<ExecutionResult, JVMError>)
        ensures
            shuffle_result(*old(self), *final(self), 3, seq![0, 2, 1, 0], res),
    {
        let value1 = self.pop()?;
        let value2 = self.pop()?;
        let value3 = self.pop()?;
        assert(rest(old(self).operands@, 3) =~= self.operands@);
        self.push(value1)?;
        self.push(value3)?;
        self.push(value2)?;
        self.push(value1)?;
        proof {
            let top = |k: int| old(self).operands@[old(self).operands@.len() - 1 - k];
            assert(seq![0int, 2, 1, 0].map_values(top) =~= seq![value1, value3, value2, value1]);
            assert(self.operands@ =~= rest(old(self).operands@, 3) + seq![value1, value3, value2, value1]);
        }
        Ok(ExecutionResult::Continue)
    }

    /// `dup2`: copies the top two values.
    pub fn dup2(&mut self) -> (res: Result<ExecutionResult, JVMError>)
        ensures
            shuffle_result(*old(self), *final(self), 2, seq![1, 0, 1, 0], res),
    {
        let value1 = self.pop()?;
        let value2 = self.pop()?;
        assert(rest(old(self).operands@, 2) =~= self.operands@);
        self.push(value2)?;
        self.push(value1)?;
        self.push(value2)?;
        self.push(value1)?;
        proof {
            let top = |k: int| old(self).operands@[old(self).operands@.len() - 1 - k];
            assert(seq![1int, 0, 1, 0].map_values(top) =~= seq![value2, value1, value2, value1]);
            assert(self.operands@ =~= rest(old(self).operands@, 2) + seq![value2, value1, value2, value1]);
        }
        Ok(ExecutionResult::Continue)
    }

    /// `dup2_x1`: copies the top two values beneath the third.
    pub fn dup2_x1(&mut self) -> (res: Result<ExecutionResult, JVMError>)
        ensures
            shuffle_result(*old(self), *final(self), 3, seq![1, 0, 2, 1, 0], res),
    {
        let value1 = self.pop()?;
        let value2 = self.pop()?;
        let value3 = self.pop()?;
        assert(rest(old(self).operands@, 3) =~= self.operands@);
        self.push(value2)?;
        self.push(value1)?;
        self.push(value3)?;
        self.push(value2)?;
        self.push(value1)?;
        proof {
            let top = |k: int| old(self).operands@[old(self).operands@.len() - 1 - k];
            assert(seq![1int, 0, 2, 1, 0].map_values(top) =~= seq![value2, value1, value3, value2, value1]);
            assert(self.operands@ =~= rest(old(self).operands@, 3) + seq![value2, value1, value3, value2, value1]);
        }
        Ok(ExecutionResult::Continue)
    }

    /// `dup2_x2`: copies the top two values beneath the fourth.
    pub fn dup2_x2(&mut self) -> (res: Result<ExecutionResult, JVMError>)
        ensures
            shuffle_result(*old(self), *final(self), 4, seq![1, 0, 3, 2, 1, 0], res),
    {
        let value1 = self.pop()?;
        let value2 = self.pop()?;
        let value3 = self.pop()?;
        let value4 = self.pop()?;
        assert(rest(old(self).operands@, 4) =~= self.operands@);
        self.push(value2)?;
        self.push(value1)?;
        self.push(value4)?;
        self.push(value3)?;
        self.push(value2)?;
        self.push(value1)?;
        proof {
            let top = |k: int| old(self).operands@[old(self).operands@.len() - 1 - k];
            assert(seq![1int, 0, 3, 2, 1, 0].map_values(top) =~= seq![value2, value1, value4, value3, value2, value1]);
            assert(self.operands@ =~= rest(old(self).operands@, 4)
                + seq![value2, value1, value4, value3, value2, value1]);
        }
        Ok(ExecutionResult::Continue)
    }

    /// `pop2`: pops one `long` or `double`, or two values of another kind.
    pub fn pop2(&mut self) -> (res: Result<ExecutionResult, JVMError>)
        ensures
            pop2_result(*old(self), *final(self), res),
    {
        let wide = match self.operands.last() {
            Some(Value::Long(_)) | Some(Value::Double(_)) => true,
            _ => false,
        };
        self.pop()?;
        if !wide {
            self.pop()?;
        }
        assert(final(self).operands@ =~= rest(old(self).operands@, if wide { 1 } else { 2 }));
        Ok(ExecutionResult::Continue)
    }

    /// `return`.
    pub fn return_void(&mut self) -> (res: Result<ExecutionResult, JVMError>)
        ensures
            *final(self) == *old(self),
            res == Ok::<ExecutionResult, JVMError>(ExecutionResult::Return(None)),
    {
        Ok(ExecutionResult::Return(None))
    }

    /// `ireturn`: returns the `int` on top of the stack.
    pub fn return_int(&mut self) -> (res: Result<ExecutionResult, JVMError>)
        ensures
            return_result(*old(self), *final(self), Tag::Int, res),
    {
        proof {
            reveal_with_fuel(crate::runtime::pop_many, 2);
        }
        let value = Value::Int(self.pop_expect_int()?);
        assert(rest(old(self).operands@, 1) =~= self.operands@);
        Ok(ExecutionResult::Return(Some(value)))
    }

    /// `lreturn`.
    pub fn return_long(&mut self) -> (res: Result<ExecutionResult, JVMError>)
        ensures
            return_result(*old(self), *final(self), Tag::Long, res),
    {
        proof {
            reveal_with_fuel(crate::runtime::pop_many, 2);
        }
        let value = Value::Long(self.pop_expect_long()?);
        assert(rest(old(self).operands@, 1) =~= self.operands@);
        Ok(ExecutionResult::Return(Some(value)))
    }

    /// `freturn`.
    pub fn return_float(&mut self) -> (res: Result<ExecutionResult, JVMError>)
        ensures
            return_result(*old(self), *final(self), Tag::Float, res),
    {
        proof {
            reveal_with_fuel(crate::runtime::pop_many, 2);
        }
        let value = Value::Float(self.pop_expect_float()?);
        assert(rest(old(self).operands@, 1) =~= self.operands@);
        Ok(ExecutionResult::Return(Some(value)))
    }

    /// `dreturn`.
    pub fn return_double(&mut self) -> (res: Result<ExecutionResult, JVMError>)
        ensures
            return_result(*old(self), *final(self), Tag::Double, res),
    {
        proof {
            reveal_with_fuel(crate::runtime::pop_many, 2);
        }
        let value = Value::Double(self.pop_expect_double()?);
        assert(rest(old(self).operands@, 1) =~= self.operands@);
        Ok(ExecutionResult::Return(Some(value)))
    }

    /// `areturn`.
    pub fn return_reference(&mut self) -> (res: Result<ExecutionResult, JVMError>)
        ensures
            return_result(*old(self), *final(self), Tag::Reference, res),
    {
        proof {
            reveal_with_fuel(crate::runtime::pop_many, 2);
        }
        let value = Value::Reference(self.pop_expect_reference()?);
        assert(rest(old(self).operands@, 1) =~= self.operands@);
        Ok(ExecutionResult::Return(Some(value)))
    }
}

} // verus!
