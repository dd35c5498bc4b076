//! Shifts, bitwise operations and the conversions between integer kinds.

use vstd::prelude::*;
use crate::execute_arith::{int_of, long_of};
use crate::jvm_error::JVMError;
use crate::runtime::{fails_with, popped, pushes, rest, ExecutionResult, Frame, Tag, Value};

verus! {

/// A shift or bitwise operation on `int`s or `long`s.
#[derive(Debug, Clone, Copy, PartialEq, Eq, Structural)]
pub enum BitOp {
    Shl,
    Shr,
    Ushr,
    Or,
    Xor,
    And,
}

/// The `int` result of `op`, where `a` was popped first (the top) and `b`
/// second.
pub open spec fn int_bits(op: BitOp, a: i32, b: i32) -> i32 {
    match op {
        BitOp::Shl => b << ((a & 0x1f) as u32),
        BitOp::Shr => b >> ((a & 0x1f) as u32),
        BitOp::Ushr => ((b as u32) >> ((a & 0x1f) as u32)) as i32,
        BitOp::Or => a | b,
        BitOp::Xor => a ^ b,
        BitOp::And => a & b,
    }
}

/// The `long` result of a shift of `b` by `a`, or of a bitwise operation on
/// `a` (the top) and `b`.
pub open spec fn long_bits(op: BitOp, a: i64, b: i64) -> i64 {
    match op {
        BitOp::Shl => b << ((a & 0x3f) as u32),
        BitOp::Shr => b >> ((a & 0x3f) as u32),
        BitOp::Ushr => ((b as u64) >> ((a & 0x3f) as u32)) as i64,
        BitOp::Or => a | b,
        BitOp::Xor => a ^ b,
        BitOp::And => a & b,
    }
}

/// Whether `op` shifts.
pub open spec fn is_shift(op: BitOp) -> bool {
    op == BitOp::Shl || op == BitOp::Shr || op == BitOp::Ushr
}

/// The outcome of an `int` shift or bitwise operation.
pub open spec fn int_bits_result(old: Frame, new: Frame, op: BitOp, res: Result<ExecutionResult, JVMError>) -> bool {
    &&& old.same_but_operands(new)
    &&& match popped(old.operands@, 0, seq![Tag::Int, Tag::Int]) {
        Err(f) => fails_with(res, f),
        Ok(vs) => pushes(old.code.max_stack, rest(old.operands@, 2),
            Value::Int(int_bits(op, int_of(vs[0]), int_of(vs[1]))), new.operands@, res),
    }
}

/// The outcome of a `long` shift (an `int` count on a `long`) or bitwise
/// operation (two `long`s).
pub open spec fn long_bits_result(old: Frame, new: Frame, op: BitOp, res: Result<ExecutionResult, JVMError>) -> bool {
    &&& old.same_but_operands(new)
    &&& match popped(old.operands@, 0, seq![if is_shift(op) { Tag::Int } else { Tag::Long }, Tag::Long]) {
        Err(f) => fails_with(res, f),
        Ok(vs) => {
            let a: i64 = if is_shift(op) { int_of(vs[0]) as i64 } else { long_of(vs[0]) };
            pushes(old.code.max_stack, rest(old.operands@, 2),
                Value::Long(long_bits(op, a, long_of(vs[1]))), new.operands@, res)
        },
    }
}

/// A conversion instruction: from one numeric kind to another.
#[derive(Debug, Clone, Copy, PartialEq, Eq, Structural)]
pub enum Conversion {
    I2L,
    I2F,
    I2D,
    L2I,
    L2F,
    L2D,
    F2I,
    F2L,
    F2D,
    D2I,
    D2L,
    D2F,
    I2B,
    I2C,
    I2S,
}

/// Whether a conversion involves a floating-point kind.
pub open spec fn is_floating(c: Conversion) -> bool {
    !(c == Conversion::I2L || c == Conversion::L2I || c == Conversion::I2B || c == Conversion::I2C
        || c == Conversion::I2S)
}

/// The outcome of the conversion `c` between integer kinds.
pub open spec fn convert_result(old: Frame, new: Frame, c: Conversion, res: Result<ExecutionResult, JVMError>) -> bool {
    &&& old.same_but_operands(new)
    &&& match popped(old.operands@, 0, seq![if c == Conversion::L2I { Tag::Long } else { Tag::Int }]) {
        Err(f) => fails_with(res, f),
        Ok(vs) => pushes(old.code.max_stack, rest(old.operands@, 1),
            match c {
                Conversion::I2L => Value::Long(int_of(vs[0]) as i64),
                Conversion::L2I => Value::Int(long_of(vs[0]) as i32),
                Conversion::I2B => Value::Int(int_of(vs[0]) as i8 as i32),
                Conversion::I2C => Value::Int(int_of(vs[0]) as u16 as i32),
                _ => Value::Int(int_of(vs[0]) as i16 as i32),
            },
            new.operands@, res)
    }
}

impl Frame {
    /// Pops two `int`s and pushes `op` of them.
    fn int_bits_op(&mut self, op: BitOp) -> (res: Result<ExecutionResult, JVMError>)
        ensures
            int_bits_result(*old(self), *final(self), op, res),
    {
        proof {
            reveal_with_fuel(crate::runtime::pop_many, 3);
        }
        let a = self.pop_expect_int()?;
        let b = self.pop_expect_int()?;
        assert(rest(old(self).operands@, 2) =~= self.operands@);
        assert(0 <= (a & 0x1f) < 32) by (bit_vector);
        let s: u32 = (a & 0x1f) as u32;
        let r: i32 = match op {
            BitOp::Shl => b << s,
            BitOp::Shr => b >> s,
            BitOp::Ushr => ((b as u32) >> s) as i32,
            BitOp::Or => a | b,
            BitOp::Xor => a ^ b,
            BitOp::And => a & b,
        };
        self.push(Value::Int(r))?;
        Ok(ExecutionResult::Continue)
    }

    /// Pops a shift count and a `long`, or two `long`s, and pushes `op` of them.
    fn long_bits_op(&mut self, op: BitOp) -> (res: Result<ExecutionResult, JVMError>)
        ensures
            long_bits_result(*old(self), *final(self), op, res),
    {
        proof {
            reveal_with_fuel(crate::runtime::pop_many, 3);
        }
        let a: i64 = if op == BitOp::Shl || op == BitOp::Shr || op == BitOp::Ushr {
            let s = self.pop_expect_int()?;
            s as i64
        } else {
            self.pop_expect_long()?
        };
        let b = self.pop_expect_long()?;
        assert(rest(old(self).operands@, 2) =~= self.operands@);
        assert(0 <= (a & 0x3f) < 64) by (bit_vector);
        let s: u32 = (a & 0x3f) as u32;
        let r: i64 = match op {
            BitOp::Shl => b << s,
            BitOp::Shr => b >> s,
            BitOp::Ushr => ((b as u64) >> s) as i64,
            BitOp::Or => a | b,
            BitOp::Xor => a ^ b,
            BitOp::And => a & b,
        };
        self.push(Value::Long(r))?;
        Ok(ExecutionResult::Continue)
    }

    /// `ishl`: shifts left by the low five bits of the count.
    pub fn ishl(&mut self) -> (res: Result<ExecutionResult, JVMError>)
        ensures
            int_bits_result(*old(self), *final(self), BitOp::Shl, res),
    {
        self.int_bits_op(BitOp::Shl)
    }

    /// `ishr`: shifts right, keeping the sign.
    pub fn ishr(&mut self) -> (res: Result<ExecutionResult, JVMError>)
        ensures
            int_bits_result(*old(self), *final(self), BitOp::Shr, res),
    {
        self.int_bits_op(BitOp::Shr)
    }

    /// `iushr`: shifts right, filling with zeros.
    pub fn iushr(&mut self) -> (res: Result<ExecutionResult, JVMError>)
        ensures
            int_bits_result(*old(self), *final(self), BitOp::Ushr, res),
    {
        self.int_bits_op(BitOp::Ushr)
    }

    /// `lshl`: shifts left by the low six bits of the count.
    pub fn lshl(&mut self) -> (res: Result<ExecutionResult, JVMError>)
        ensures
            long_bits_result(*old(self), *final(self), BitOp::Shl, res),
    {
        self.long_bits_op(BitOp::Shl)
    }

    /// `lshr`.
    pub fn lshr(&mut self) -> (res: Result<ExecutionResult, JVMError>)
        ensures
            long_bits_result(*old(self), *final(self), BitOp::Shr, res),
    {
        self.long_bits_op(BitOp::Shr)
    }

    /// `lushr`.
    pub fn lushr(&mut self) -> (res: Result<ExecutionResult, JVMError>)
        ensures
            long_bits_result(*old(self), *final(self), BitOp::Ushr, res),
    {
        self.long_bits_op(BitOp::Ushr)
    }

    /// `ior`.
    pub fn ior(&mut self) -> (res: Result<ExecutionResult, JVMError>)
        ensures
            int_bits_result(*old(self), *final(self), BitOp::Or, res),
    {
        self.int_bits_op(BitOp::Or)
    }

    /// `lor`.
    pub fn lor(&mut self) -> (res: Result<ExecutionResult, JVMError>)
        ensures
            long_bits_result(*old(self), *final(self), BitOp::Or, res),
    {
        self.long_bits_op(BitOp::Or)
    }

    /// `ixor`.
    pub fn ixor(&mut self) -> (res: Result<ExecutionResult, JVMError>)
        ensures
            int_bits_result(*old(self), *final(self), BitOp::Xor, res),
    {
        self.int_bits_op(BitOp::Xor)
    }

    /// `lxor`.
    pub fn lxor(&mut self) -> (res: Result<ExecutionResult, JVMError>)
        ensures
            long_bits_result(*old(self), *final(self), BitOp::Xor, res),
    {
        self.long_bits_op(BitOp::Xor)
    }

    /// `iand`.
    pub fn iand(&mut self) -> (res: Result<ExecutionResult, JVMError>)
        ensures
            int_bits_result(*old(self), *final(self), BitOp::And, res),
    {
        self.int_bits_op(BitOp::And)
    }

    /// `land`.
    pub fn land(&mut self) -> (res: Result<ExecutionResult, JVMError>)
        ensures
            long_bits_result(*old(self), *final(self), BitOp::And, res),
    {
        self.long_bits_op(BitOp::And)
    }

    /// The conversions between integer kinds: `i2l` widens, `l2i` keeps the
    /// low 32 bits, `i2b`, `i2c` and `i2s` keep the low 8 or 16 bits, signed,
    /// unsigned and signed.
    pub fn convert(&mut self, c: Conversion) -> (res: Result<ExecutionResult, JVMError>)
        requires
            !is_floating(c),
        ensures
            convert_result(*old(self), *final(self), c, res),
            res is Err ==> final(self).operands@ == (if old(self).operands@.len() > 0 {
                old(self).operands@.drop_last()
            } else {
                old(self).operands@
            }),
    {
        proof {
            reveal_with_fuel(crate::runtime::pop_many, 2);
        }
        let converted = match c {
            Conversion::L2I => {
                let v = self.pop_expect_long()?;
                Value::Int(v as i32)
            },
            _ => {
                let v = self.pop_expect_int()?;
                match c {
                    Conversion::I2L => Value::Long(v as i64),
                    Conversion::I2B => Value::Int(v as i8 as i32),
                    Conversion::I2C => Value::Int(v as u16 as i32),
                    _ => Value::Int(v as i16 as i32),
                }
            },
        };
        assert(rest(old(self).operands@, 1) =~= self.operands@);
        self.push(converted)?;
        Ok(ExecutionResult::Continue)
    }
}

} // verus!
