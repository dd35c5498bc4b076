//! Instructions that push constants, and the lookup of constant pool
//! entries from a frame.

use vstd::prelude::*;
use crate::constant_pool::{spec_entry, ConstantInfo};
use crate::jvm_error::JVMError;
use crate::runtime::{pushes, ExecutionResult, Frame, Value};

verus! {

/// The name of the kind of a constant pool entry, as error messages give it.
pub open spec fn spec_constant_type(c: ConstantInfo) -> &'static str {
    match c {
        ConstantInfo::Integer(_) => "integer",
        ConstantInfo::Float(_) => "float",
        ConstantInfo::Long(_) => "long",
        ConstantInfo::Double(_) => "double",
        ConstantInfo::String(_) => "string",
        ConstantInfo::Class(_) => "class",
        ConstantInfo::Utf8(_) => "utf8",
        _ => "unknown",
    }
}

/// Whether a constant-pushing instruction pushed `v`.
pub open spec fn pushed_constant(old: Frame, new: Frame, v: Value, res: Result<ExecutionResult, JVMError>) -> bool {
    &&& old.same_but_operands(new)
    &&& pushes(old.code.max_stack, old.operands@, v, new.operands@, res)
}

/// The outcome of `ldc2_w` of the entry at `index`.
pub open spec fn ldc2_result(old: Frame, new: Frame, index: u16, res: Result<ExecutionResult, JVMError>) -> bool {
    &&& old.same_but_operands(new)
    &&& match spec_entry(old.constant_pool.entries(), index) {
        None => res == Err::<ExecutionResult, JVMError>(JVMError::ConstantPoolIndexOutOfBounds {
            index,
            max: old.constant_pool.entries().len() as usize,
        }),
        Some(ConstantInfo::Long(l)) => pushes(old.code.max_stack, old.operands@,
            Value::Long(l.0), new.operands@, res),
        Some(ConstantInfo::Double(d)) => pushes(old.code.max_stack, old.operands@,
            Value::Double(d.0), new.operands@, res),
        Some(other) => res == Err::<ExecutionResult, JVMError>(JVMError::InvalidConstantType {
            expected: "integer, float, string, or class",
            found: spec_constant_type(other),
        })
    }
}

impl Frame {
    /// `aconst_null`: pushes the null reference.
    pub fn aconst_null(&mut self) -> (res: Result<ExecutionResult, JVMError>)
        ensures
            pushed_constant(*old(self), *final(self), Value::Reference(None), res),
    {
        self.push(Value::Reference(None))?;
        Ok(ExecutionResult::Continue)
    }

    /// `iconst_<i>`.
    pub fn iconst(&mut self, value: i32) -> (res: Result<ExecutionResult, JVMError>)
        ensures
            pushed_constant(*old(self), *final(self), Value::Int(value), res),
    {
        self.push(Value::Int(value))?;
        Ok(ExecutionResult::Continue)
    }

    /// `lconst_<l>`.
    pub fn lconst(&mut self, value: i64) -> (res: Result<ExecutionResult, JVMError>)
        ensures
            pushed_constant(*old(self), *final(self), Value::Long(value), res),
    {
        self.push(Value::Long(value))?;
        Ok(ExecutionResult::Continue)
    }

    /// `fconst_<f>`, with the bit pattern of the constant.
    pub fn fconst(&mut self, value: u32) -> (res: Result<ExecutionResult, JVMError>)
        ensures
            pushed_constant(*old(self), *final(self), Value::Float(value), res),
    {
        self.push(Value::Float(value))?;
        Ok(ExecutionResult::Continue)
    }

    /// `dconst_<d>`, with the bit pattern of the constant.
    pub fn dconst(&mut self, value: u64) -> (res: Result<ExecutionResult, JVMError>)
        ensures
            pushed_constant(*old(self), *final(self), Value::Double(value), res),
    {
        self.push(Value::Double(value))?;
        Ok(ExecutionResult::Continue)
    }

    /// `bipush`: pushes a byte, sign-extended.
    pub fn bipush(&mut self, byte: i8) -> (res: Result<ExecutionResult, JVMError>)
        ensures
            pushed_constant(*old(self), *final(self), Value::Int(byte as i32), res),
    {
        self.push(Value::Int(byte as i32))?;
        Ok(ExecutionResult::Continue)
    }

    /// `sipush`: pushes a short, sign-extended.
    pub fn sipush(&mut self, short: i16) -> (res: Result<ExecutionResult, JVMError>)
        ensures
            pushed_constant(*old(self), *final(self), Value::Int(short as i32), res),
    {
        self.push(Value::Int(short as i32))?;
        Ok(ExecutionResult::Continue)
    }

    /// The entry of this frame's constant pool at `index`.
    pub fn get_constant(&self, index: u16) -> (res: Result<&ConstantInfo, JVMError>)
        ensures
            match spec_entry(self.constant_pool.entries(), index) {
                Some(c) => res == Ok::<&ConstantInfo, JVMError>(&c),
                None => res == Err::<&ConstantInfo, JVMError>(JVMError::ConstantPoolIndexOutOfBounds {
                    index,
                    max: self.constant_pool.entries().len() as usize,
                }),
            },
    {
        let constant_pool_len = self.constant_pool.get_len();
        if index as usize > constant_pool_len {
            return Err(JVMError::ConstantPoolIndexOutOfBounds { index, max: constant_pool_len });
        }
        match self.constant_pool.get_entry(index) {
            Some(c) => Ok(c),
            None => Err(JVMError::ConstantPoolIndexOutOfBounds { index, max: constant_pool_len }),
        }
    }

    /// The entry of this frame's constant pool at `index`.
    pub fn get_entry(&self, index: u16) -> (res: Result<&ConstantInfo, JVMError>)
        ensures
            match spec_entry(self.constant_pool.entries(), index) {
                Some(c) => res == Ok::<&ConstantInfo, JVMError>(&c),
                None => res == Err::<&ConstantInfo, JVMError>(JVMError::ConstantPoolIndexOutOfBounds {
                    index,
                    max: self.constant_pool.entries().len() as usize,
                }),
            },
    {
        match self.constant_pool.get_entry(index) {
            Some(c) => Ok(c),
            None => Err(JVMError::ConstantPoolIndexOutOfBounds { index, max: self.constant_pool.get_len() }),
        }
    }

    /// The name of the kind of a constant pool entry.
    pub fn get_constant_type(constant: &ConstantInfo) -> (res: &'static str)
        ensures
            res == spec_constant_type(*constant),
    {
        match constant {
            ConstantInfo::Integer(_) => "integer",
            ConstantInfo::Float(_) => "float",
            ConstantInfo::Long(_) => "long",
            ConstantInfo::Double(_) => "double",
            ConstantInfo::String(_) => "string",
            ConstantInfo::Class(_) => "class",
            ConstantInfo::Utf8(_) => "utf8",
            _ => "unknown",
        }
    }

    /// `ldc2_w`: pushes the `Long` or `Double` entry at `index`.
    pub fn ldc2_w(&mut self, index: u16) -> (res: Result<ExecutionResult, JVMError>)
        ensures
            ldc2_result(*old(self), *final(self), index, res),
    {
        let v = match self.get_constant(index)? {
            ConstantInfo::Long(value) => Value::Long(value.0),
            ConstantInfo::Double(value) => Value::Double(value.0),
            other => {
                return Err(JVMError::InvalidConstantType {
                    expected: "integer, float, string, or class",
                    found: Self::get_constant_type(other),
                });
            },
        };
        self.push(v)?;
        Ok(ExecutionResult::Continue)
    }
}

} // verus!
