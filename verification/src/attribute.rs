//! Attributes of classes, fields, methods and code.

use std::sync::Arc;
use vstd::prelude::*;
use crate::instruction::{Instruction, Operation};

verus! {

/// An attribute of a class file, a field, a method or a `Code` attribute.
#[derive(Debug)]
pub enum AttributeInfo {
    Attribute(RemainingAttribute),
    ConstantValue(ConstantValue),
    LineNumberTable(LineNumberTable),
    Code(Arc<Code>),
    BootstrapMethod(BootstrapMethod),
    NestHost(NestHost),
    NestMembers(NestMembers),
    PermitterSubclasses(PermitterSubclasses),
}

/// An attribute kept as its raw bytes.
#[derive(Debug)]
pub struct RemainingAttribute {
    pub attribute_name_index: u16,
    pub info: Vec<u8>,
}

/// `ConstantValue`: the constant pool index of a field's constant value.
#[derive(Debug)]
pub struct ConstantValue(pub u16);

/// `Code`: the body of a method.
#[derive(Debug)]
pub struct Code {
    pub max_stack: u16,
    pub max_locals: u16,
    pub code: Vec<Instruction>,
    pub exception_table: Vec<ExceptionTableEntry>,
    pub attributes: Vec<AttributeInfo>,
}

/// One entry of a method's exception table.
#[derive(Debug, Clone, Copy)]
pub struct ExceptionTableEntry {
    pub start_pc: u16,
    pub end_pc: u16,
    pub handler_pc: u16,
    pub catch_type: u16,
}

/// `LineNumberTable`.
#[derive(Debug)]
pub struct LineNumberTable(pub Vec<LineNumberTableEntry>);

/// One entry of a `LineNumberTable`.
#[derive(Debug, Clone, Copy)]
pub struct LineNumberTableEntry {
    pub start_pc: u16,
    pub line_number: u16,
}

/// `StackMapTable`, kept for its name; its frames are not decoded.
#[derive(Debug)]
pub struct StackMapTable(pub Vec<StackMapFrame>);

/// A frame of a `StackMapTable`.
#[derive(Debug)]
pub struct StackMapFrame {}

/// `BootstrapMethods`.
#[derive(Debug)]
pub struct BootstrapMethod(pub Vec<BootstrapMethodEntry>);

/// One bootstrap method with its static arguments.
#[derive(Debug)]
pub struct BootstrapMethodEntry {
    pub bootstrap_method_ref: u16,
    pub bootstrap_args: Vec<u16>,
}

/// `NestHost`: the constant pool index of the nest host class.
#[derive(Debug)]
pub struct NestHost(pub u16);

/// `NestMembers`: constant pool indices of the nest members.
#[derive(Debug)]
pub struct NestMembers(pub Vec<u16>);

/// `PermittedSubclasses`: constant pool indices of the permitted subclasses.
#[derive(Debug)]
pub struct PermitterSubclasses(pub Vec<u16>);

/// Whether `i` is the first index of `code` whose address is `address`.
pub open spec fn first_index_at_address(code: Seq<Instruction>, address: u32, i: int) -> bool {
    &&& 0 <= i < code.len()
    &&& code[i].0 == address
    &&& forall|j: int| 0 <= j < i ==> code[j].0 != address
}

impl Code {
    /// The operation of the instruction at position `index`.
    pub fn get_operation_at_index(&self, index: usize) -> (res: &Operation)
        requires
            index < self.code@.len(),
        ensures
            *res == self.code@[index as int].1,
    {
        &self.code[index].1
    }

    /// The byte address of the instruction at position `index`.
    pub fn get_address_at_index(&self, index: usize) -> (res: u32)
        requires
            index < self.code@.len(),
        ensures
            res == self.code@[index as int].0,
    {
        self.code[index].0
    }

    /// The position of the first instruction whose byte address is `address`,
    /// or `None` when no instruction starts there.
    pub fn get_index_at_address(&self, address: u32) -> (res: Option<usize>)
        ensures
            res matches Some(i) ==> first_index_at_address(self.code@, address, i as int),
            res is None ==> forall|j: int| 0 <= j < self.code@.len() ==> self.code@[j].0 != address,
    {
        let mut i: usize = 0;
        while i < self.code.len()
            invariant
                i <= self.code@.len(),
                forall|j: int| 0 <= j < i ==> self.code@[j].0 != address,
            decreases self.code@.len() - i,
        {
            if self.code[i].0 == address {
                return Some(i);
            }
            i = i + 1;
        }
        None
    }
}

} // verus!
