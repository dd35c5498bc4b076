//! Integer arithmetic, shifts, bitwise operations and the integer
//! conversions.

use vstd::prelude::*;
use crate::jvm_error::JVMError;
use crate::runtime::{
    fails_with, popped, pushes, rest, ExecutionResult, Frame, Tag, Value,
};

verus! {

/// A binary arithmetic operation.
#[derive(Debug, Clone, Copy, PartialEq, Eq, Structural)]
pub enum ArithOp {
    Add,
    Sub,
    Mul,
    Div,
    Rem,
}

/// The absolute value.
pub open spec fn abs(x: int) -> int {
    if x < 0 { -x } else { x }
}

/// Division that rounds toward zero.
pub open spec fn quot(x: int, d: int) -> int {
    if (x < 0) == (d < 0) { abs(x) / abs(d) } else { -(abs(x) / abs(d)) }
}

/// The remainder of `quot`: its sign is that of the dividend.
pub open spec fn rem(x: int, d: int) -> int {
    if x < 0 { -(abs(x) % abs(d)) } else { abs(x) % abs(d) }
}

/// The exact result of `op` on two integers.
pub open spec fn arith(op: ArithOp, x: int, y: int) -> int {
    match op {
        ArithOp::Add => x + y,
        ArithOp::Sub => x - y,
        ArithOp::Mul => x * y,
        ArithOp::Div => quot(x, y),
        ArithOp::Rem => rem(x, y),
    }
}

/// Whether `op` on `x` and `y` fits in the range `lo ..= hi`; a remainder
/// of the least value by -1 counts as not fitting.
pub open spec fn arith_fits(op: ArithOp, x: int, y: int, lo: int, hi: int) -> bool {
    &&& lo <= arith(op, x, y) <= hi
    &&& !(op == ArithOp::Rem && x == lo && y == -1)
}

/// The `int` inside a value (0 for another kind).
pub open spec fn int_of(v: Value) -> i32 {
    match v {
        Value::Int(i) => i,
        _ => 0,
    }
}

/// The `long` inside a value (0 for another kind).
pub open spec fn long_of(v: Value) -> i64 {
    match v {
        Value::Long(i) => i,
        _ => 0,
    }
}

/// Whether `res` is the throw of `java/lang/ArithmeticException`.
pub open spec fn throws_arithmetic(res: Result<ExecutionResult, JVMError>) -> bool {
    res matches Ok(ExecutionResult::Throw(s)) && s@ == "java/lang/ArithmeticException"@
}

/// The outcome of a binary `int` operation.
pub open spec fn int_binary_result(old: Frame, new: Frame, op: ArithOp, res: Result<ExecutionResult, JVMError>) -> bool {
    &&& old.same_but_operands(new)
    &&& match popped(old.operands@, 2, seq![Tag::Int, Tag::Int]) {
        Err(f) => fails_with(res, f),
        Ok(vs) => {
            let b = int_of(vs[0]);
            let a = int_of(vs[1]);
            let r = rest(old.operands@, 2);
            if op == ArithOp::Div && b == 0 {
                throws_arithmetic(res) && new.operands@ == r
            } else if op == ArithOp::Rem && b == 0 {
                res matches Err(JVMError::DivisionByZero)
            } else if !arith_fits(op, a as int, b as int, i32::MIN as int, i32::MAX as int) {
                res matches Err(JVMError::ArithmeticOverflow)
            } else {
                pushes(old.code.max_stack, r, Value::Int(arith(op, a as int, b as int) as i32), new.operands@, res)
            }
        },
    }
}

/// The outcome of a binary `long` operation.
pub open spec fn long_binary_result(old: Frame, new: Frame, op: ArithOp, res: Result<ExecutionResult, JVMError>) -> bool {
    &&& old.same_but_operands(new)
    &&& match popped(old.operands@, 2, seq![Tag::Long, Tag::Long]) {
        Err(f) => fails_with(res, f),
        Ok(vs) => {
            let b = long_of(vs[0]);
            let a = long_of(vs[1]);
            let r = rest(old.operands@, 2);
            if op == ArithOp::Div && b == 0 {
                throws_arithmetic(res) && new.operands@ == r
            } else if op == ArithOp::Rem && b == 0 {
                res matches Err(JVMError::DivisionByZero)
            } else if !arith_fits(op, a as int, b as int, i64::MIN as int, i64::MAX as int) {
                res matches Err(JVMError::ArithmeticOverflow)
            } else {
                pushes(old.code.max_stack, r, Value::Long(arith(op, a as int, b as int) as i64), new.operands@, res)
            }
        },
    }
}

/// `op` on two `int`s, or `None` when the result does not fit.
fn int_op(op: ArithOp, a: i32, b: i32) -> (res: Option<i32>)
    requires
        (op == ArithOp::Div || op == ArithOp::Rem) ==> b != 0,
    ensures
        arith_fits(op, a as int, b as int, i32::MIN as int, i32::MAX as int) ==> res == Some(
            arith(op, a as int, b as int) as i32),
        !arith_fits(op, a as int, b as int, i32::MIN as int, i32::MAX as int) ==> res is None,
{
    match op {
        ArithOp::Add => a.checked_add(b),
        ArithOp::Sub => a.checked_sub(b),
        ArithOp::Mul => a.checked_mul(b),
        ArithOp::Div => a.checked_div(b),
        ArithOp::Rem => a.checked_rem(b),
    }
}

/// `op` on two `long`s, or `None` when the result does not fit.
fn long_op(op: ArithOp, a: i64, b: i64) -> (res: Option<i64>)
    requires
        (op == ArithOp::Div || op == ArithOp::Rem) ==> b != 0,
    ensures
        arith_fits(op, a as int, b as int, i64::MIN as int, i64::MAX as int) ==> res == Some(
            arith(op, a as int, b as int) as i64),
        !arith_fits(op, a as int, b as int, i64::MIN as int, i64::MAX as int) ==> res is None,
{
    match op {
        ArithOp::Add => a.checked_add(b),
        ArithOp::Sub => a.checked_sub(b),
        ArithOp::Mul => a.checked_mul(b),
        ArithOp::Div => a.checked_div(b),
        ArithOp::Rem => a.checked_rem(b),
    }
}

/// The outcome of `ineg`.
pub open spec fn ineg_result(old: Frame, new: Frame, res: Result<ExecutionResult, JVMError>) -> bool {
    &&& old.same_but_operands(new)
    &&& match popped(old.operands@, 1, seq![Tag::Int]) {
        Err(f) => fails_with(res, f),
        Ok(vs) => if int_of(vs[0]) == i32::MIN {
            res matches Err(JVMError::ArithmeticOverflow)
        } else {
            pushes(old.code.max_stack, rest(old.operands@, 1),
                Value::Int(-int_of(vs[0]) as i32), new.operands@, res)
        }
    }
}

/// The outcome of `lneg`.
pub open spec fn lneg_result(old: Frame, new: Frame, res: Result<ExecutionResult, JVMError>) -> bool {
    &&& old.same_but_operands(new)
    &&& match popped(old.operands@, 1, seq![Tag::Long]) {
        Err(f) => fails_with(res, f),
        Ok(vs) => if long_of(vs[0]) == i64::MIN {
            res matches Err(JVMError::ArithmeticOverflow)
        } else {
            pushes(old.code.max_stack, rest(old.operands@, 1),
                Value::Long(-long_of(vs[0]) as i64), new.operands@, res)
        }
    }
}

impl Frame {
    /// Pops two `int`s, applies `op` and pushes the result.
    fn int_binary(&mut self, op: ArithOp) -> (res: Result<ExecutionResult, JVMError>)
        ensures
            int_binary_result(*old(self), *final(self), op, res),
    {
        proof {
            reveal_with_fuel(crate::runtime::pop_many, 3);
        }
        self.ensure_operands(2)?;
        let b = self.pop_expect_int()?;
        let a = self.pop_expect_int()?;
        assert(rest(old(self).operands@, 2) =~= self.operands@);
        if b == 0 && op == ArithOp::Div {
            return Ok(ExecutionResult::Throw("java/lang/ArithmeticException".to_string()));
        }
        if b == 0 && op == ArithOp::Rem {
            return Err(JVMError::DivisionByZero);
        }
        let r = match int_op(op, a, b) {
            Some(r) => r,
            None => {
                return Err(JVMError::ArithmeticOverflow);
            },
        };
        self.push(Value::Int(r))?;
        Ok(ExecutionResult::Continue)
    }

    /// Pops two `long`s, applies `op` and pushes the result.
    fn long_binary(&mut self, op: ArithOp) -> (res: Result<ExecutionResult, JVMError>)
        ensures
            long_binary_result(*old(self), *final(self), op, res),
    {
        proof {
            reveal_with_fuel(crate::runtime::pop_many, 3);
        }
        self.ensure_operands(2)?;
        let b = self.pop_expect_long()?;
        let a = self.pop_expect_long()?;
        assert(rest(old(self).operands@, 2) =~= self.operands@);
        if b == 0 && op == ArithOp::Div {
            return Ok(ExecutionResult::Throw("java/lang/ArithmeticException".to_string()));
        }
        if b == 0 && op == ArithOp::Rem {
            return Err(JVMError::DivisionByZero);
        }
        let r = match long_op(op, a, b) {
            Some(r) => r,
            None => {
                return Err(JVMError::ArithmeticOverflow);
            },
        };
        self.push(Value::Long(r))?;
        Ok(ExecutionResult::Continue)
    }

    /// `iadd`: the sum must fit in an `int`.
    pub fn iadd(&mut self) -> (res: Result<ExecutionResult, JVMError>)
        ensures
            int_binary_result(*old(self), *final(self), ArithOp::Add, res),
    {
        self.int_binary(ArithOp::Add)
    }

    /// `isub`: the difference must fit in an `int`.
    pub fn isub(&mut self) -> (res: Result<ExecutionResult, JVMError>)
        ensures
            int_binary_result(*old(self), *final(self), ArithOp::Sub, res),
    {
        self.int_binary(ArithOp::Sub)
    }

    /// `imul`: the product must fit in an `int`.
    pub fn imul(&mut self) -> (res: Result<ExecutionResult, JVMError>)
        ensures
            int_binary_result(*old(self), *final(self), ArithOp::Mul, res),
    {
        self.int_binary(ArithOp::Mul)
    }

    /// `idiv`: a zero divisor throws `java/lang/ArithmeticException`.
    pub fn idiv(&mut self) -> (res: Result<ExecutionResult, JVMError>)
        ensures
            int_binary_result(*old(self), *final(self), ArithOp::Div, res),
    {
        self.int_binary(ArithOp::Div)
    }

    /// `irem`: a zero divisor is the error `DivisionByZero`.
    pub fn irem(&mut self) -> (res: Result<ExecutionResult, JVMError>)
        ensures
            int_binary_result(*old(self), *final(self), ArithOp::Rem, res),
    {
        self.int_binary(ArithOp::Rem)
    }

    /// `ladd`.
    pub fn ladd(&mut self) -> (res: Result<ExecutionResult, JVMError>)
        ensures
            long_binary_result(*old(self), *final(self), ArithOp::Add, res),
    {
        self.long_binary(ArithOp::Add)
    }

    /// `lsub`.
    pub fn lsub(&mut self) -> (res: Result<ExecutionResult, JVMError>)
        ensures
            long_binary_result(*old(self), *final(self), ArithOp::Sub, res),
    {
        self.long_binary(ArithOp::Sub)
    }

    /// `lmul`.
    pub fn lmul(&mut self) -> (res: Result<ExecutionResult, JVMError>)
        ensures
            long_binary_result(*old(self), *final(self), ArithOp::Mul, res),
    {
        self.long_binary(ArithOp::Mul)
    }

    /// `ldiv`: a zero divisor throws `java/lang/ArithmeticException`.
    pub fn ldiv(&mut self) -> (res: Result<ExecutionResult, JVMError>)
        ensures
            long_binary_result(*old(self), *final(self), ArithOp::Div, res),
    {
        self.long_binary(ArithOp::Div)
    }

    /// `lrem`: a zero divisor is the error `DivisionByZero`.
    pub fn lrem(&mut self) -> (res: Result<ExecutionResult, JVMError>)
        ensures
            long_binary_result(*old(self), *final(self), ArithOp::Rem, res),
    {
        self.long_binary(ArithOp::Rem)
    }

    /// `ineg`: the negation must fit in an `int`.
    pub fn ineg(&mut self) -> (res: Result<ExecutionResult, JVMError>)
        ensures
            ineg_result(*old(self), *final(self), res),
    {
        proof {
            reveal_with_fuel(crate::runtime::pop_many, 2);
        }
        self.ensure_operands(1)?;
        let v = self.pop_expect_int()?;
        assert(rest(old(self).operands@, 1) =~= self.operands@);
        if v == i32::MIN {
            return Err(JVMError::ArithmeticOverflow);
        }
        self.push(Value::Int(-v))?;
        Ok(ExecutionResult::Continue)
    }

    /// `lneg`: the negation must fit in a `long`.
    pub fn lneg(&mut self) -> (res: Result<ExecutionResult, JVMError>)
        ensures
            lneg_result(*old(self), *final(self), res),
    {
        proof {
            reveal_with_fuel(crate::runtime::pop_many, 2);
        }
        self.ensure_operands(1)?;
        let v = self.pop_expect_long()?;
        assert(rest(old(self).operands@, 1) =~= self.operands@);
        if v == i64::MIN {
            return Err(JVMError::ArithmeticOverflow);
        }
        self.push(Value::Long(-v))?;
        Ok(ExecutionResult::Continue)
    }
}

} // verus!
