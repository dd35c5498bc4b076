//! Access flags of classes, methods and fields, as bit sets over `u16`.

use vstd::prelude::*;

verus! {

/// The bits that a class's `access_flags` may hold.
pub const CLASS_FLAG_MASK: u16 = 0xF631;
/// The bits that a method's `access_flags` may hold.
pub const METHOD_FLAG_MASK: u16 = 0x1DFF;
/// The bits that a field's `access_flags` may hold.
pub const FIELD_FLAG_MASK: u16 = 0x50DF;

/// Access flags of a class or interface.
#[derive(Debug, Clone, Copy, PartialEq, Eq, Structural)]
pub struct ClassFlags {
    pub bits: u16,
}

/// Access flags of a method.
#[derive(Debug, Clone, Copy, PartialEq, Eq, Structural)]
pub struct MethodFlags {
    pub bits: u16,
}

/// Access flags of a field.
#[derive(Debug, Clone, Copy, PartialEq, Eq, Structural)]
pub struct FieldFlags {
    pub bits: u16,
}

/// Whether every bit of `bits` lies inside `mask`.
pub open spec fn within_mask(bits: u16, mask: u16) -> bool {
    bits & !mask == 0
}

/// Whether every bit of `wanted` is set in `bits`.
pub open spec fn has_bits(bits: u16, wanted: u16) -> bool {
    bits & wanted == wanted
}

impl ClassFlags {
    pub const ACC_PUBLIC: u16 = 0x0001;
    pub const ACC_FINAL: u16 = 0x0010;
    pub const ACC_SUPER: u16 = 0x0020;
    pub const ACC_INTERFACE: u16 = 0x0200;
    pub const ACC_ABSTRACT: u16 = 0x0400;
    pub const ACC_SYNTHETIC: u16 = 0x1000;
    pub const ACC_ANNOTATION: u16 = 0x2000;
    pub const ACC_ENUM: u16 = 0x4000;
    pub const ACC_MODULE: u16 = 0x8000;

    /// The flags of `bits`, or `None` when a bit is set that names no class flag.
    pub fn from_bits(bits: u16) -> (res: Option<ClassFlags>)
        ensures
            res is Some <==> within_mask(bits, CLASS_FLAG_MASK),
            res matches Some(f) ==> f.bits == bits,
    {
        if bits & !CLASS_FLAG_MASK == 0 {
            Some(ClassFlags { bits })
        } else {
            None
        }
    }

    /// Whether all the bits of `flags` are set.
    pub fn contains(&self, flags: u16) -> (res: bool)
        ensures
            res == has_bits(self.bits, flags),
    {
        self.bits & flags == flags
    }
}

impl MethodFlags {
    pub const ACC_PUBLIC: u16 = 0x0001;
    pub const ACC_PRIVATE: u16 = 0x0002;
    pub const ACC_PROTECTED: u16 = 0x0004;
    pub const ACC_STATIC: u16 = 0x0008;
    pub const ACC_FINAL: u16 = 0x0010;
    pub const ACC_SYNCHRONIZED: u16 = 0x0020;
    pub const ACC_BRIDGE: u16 = 0x0040;
    pub const ACC_VARARGS: u16 = 0x0080;
    pub const ACC_NATIVE: u16 = 0x0100;
    pub const ACC_ABSTRACT: u16 = 0x0400;
    pub const ACC_STRICT: u16 = 0x0800;
    pub const ACC_SYNTHETIC: u16 = 0x1000;

    /// The flags of `bits`, or `None` when a bit is set that names no method flag.
    pub fn from_bits(bits: u16) -> (res: Option<MethodFlags>)
        ensures
            res is Some <==> within_mask(bits, METHOD_FLAG_MASK),
            res matches Some(f) ==> f.bits == bits,
    {
        if bits & !METHOD_FLAG_MASK == 0 {
            Some(MethodFlags { bits })
        } else {
            None
        }
    }

    /// Whether all the bits of `flags` are set.
    pub fn contains(&self, flags: u16) -> (res: bool)
        ensures
            res == has_bits(self.bits, flags),
    {
        self.bits & flags == flags
    }
}

impl FieldFlags {
    pub const ACC_PUBLIC: u16 = 0x0001;
    pub const ACC_PRIVATE: u16 = 0x0002;
    pub const ACC_PROTECTED: u16 = 0x0004;
    pub const ACC_STATIC: u16 = 0x0008;
    pub const ACC_FINAL: u16 = 0x0010;
    pub const ACC_VOLATILE: u16 = 0x0040;
    pub const ACC_TRANSIENT: u16 = 0x0080;
    pub const ACC_SYNTHETIC: u16 = 0x1000;
    pub const ACC_ENUM: u16 = 0x4000;

    /// The flags of `bits`, or `None` when a bit is set that names no field flag.
    pub fn from_bits(bits: u16) -> (res: Option<FieldFlags>)
        ensures
            res is Some <==> within_mask(bits, FIELD_FLAG_MASK),
            res matches Some(f) ==> f.bits == bits,
    {
        if bits & !FIELD_FLAG_MASK == 0 {
            Some(FieldFlags { bits })
        } else {
            None
        }
    }

    /// Whether all the bits of `flags` are set.
    pub fn contains(&self, flags: u16) -> (res: bool)
        ensures
            res == has_bits(self.bits, flags),
    {
        self.bits & flags == flags
    }
}

} // verus!
