//! The constant pool of a class file, and the field and method tables.

use vstd::prelude::*;
use crate::access_flag::{FieldFlags, MethodFlags};
use crate::attribute::{AttributeInfo, Code};
use crate::text::str_eq;
use std::sync::Arc;

verus! {

/// The tag byte that starts each constant pool entry.
#[derive(Debug, Clone, Copy, PartialEq, Eq, Structural)]
pub enum ConstantTag {
    Class,
    Fieldref,
    Methodref,
    InterfaceMethodref,
    String,
    Integer,
    Float,
    Long,
    Double,
    NameAndType,
    Utf8,
    MethodHandle,
    MethodType,
    Dynamic,
    InvokeDynamic,
    Module,
    Package,
}

/// The tag byte of each kind of constant.
pub open spec fn spec_tag_value(tag: ConstantTag) -> u8 {
    match tag {
        ConstantTag::Class => 7,
        ConstantTag::Fieldref => 9,
        ConstantTag::Methodref => 10,
        ConstantTag::InterfaceMethodref => 11,
        ConstantTag::String => 8,
        ConstantTag::Integer => 3,
        ConstantTag::Float => 4,
        ConstantTag::Long => 5,
        ConstantTag::Double => 6,
        ConstantTag::NameAndType => 12,
        ConstantTag::Utf8 => 1,
        ConstantTag::MethodHandle => 15,
        ConstantTag::MethodType => 16,
        ConstantTag::Dynamic => 17,
        ConstantTag::InvokeDynamic => 18,
        ConstantTag::Module => 19,
        ConstantTag::Package => 20,
    }
}

/// Whether a byte is the tag of some kind of constant.
pub open spec fn spec_is_tag(value: u8) -> bool {
    value == 1 || (3 <= value <= 12) || (15 <= value <= 20)
}

impl ConstantTag {
    /// The tag byte of this kind of constant.
    pub fn value(&self) -> (res: u8)
        ensures
            res == spec_tag_value(*self),
    {
        match self {
            ConstantTag::Class => 7,
            ConstantTag::Fieldref => 9,
            ConstantTag::Methodref => 10,
            ConstantTag::InterfaceMethodref => 11,
            ConstantTag::String => 8,
            ConstantTag::Integer => 3,
            ConstantTag::Float => 4,
            ConstantTag::Long => 5,
            ConstantTag::Double => 6,
            ConstantTag::NameAndType => 12,
            ConstantTag::Utf8 => 1,
            ConstantTag::MethodHandle => 15,
            ConstantTag::MethodType => 16,
            ConstantTag::Dynamic => 17,
            ConstantTag::InvokeDynamic => 18,
            ConstantTag::Module => 19,
            ConstantTag::Package => 20,
        }
    }

    /// The kind of constant that a tag byte names, or `None` for a byte that
    /// is no tag.
    pub fn from_byte(value: u8) -> (res: Option<ConstantTag>)
        ensures
            res is Some <==> spec_is_tag(value),
            res matches Some(t) ==> spec_tag_value(t) == value,
    {
        match value {
            7 => Some(ConstantTag::Class),
            9 => Some(ConstantTag::Fieldref),
            10 => Some(ConstantTag::Methodref),
            11 => Some(ConstantTag::InterfaceMethodref),
            8 => Some(ConstantTag::String),
            3 => Some(ConstantTag::Integer),
            4 => Some(ConstantTag::Float),
            5 => Some(ConstantTag::Long),
            6 => Some(ConstantTag::Double),
            12 => Some(ConstantTag::NameAndType),
            1 => Some(ConstantTag::Utf8),
            15 => Some(ConstantTag::MethodHandle),
            16 => Some(ConstantTag::MethodType),
            17 => Some(ConstantTag::Dynamic),
            18 => Some(ConstantTag::InvokeDynamic),
            19 => Some(ConstantTag::Module),
            20 => Some(ConstantTag::Package),
            _ => None,
        }
    }
}

/// One constant pool entry; the tag is the variant.
#[derive(Debug)]
pub enum ConstantInfo {
    Class(ConstantClassInfo),
    FieldRef(ConstantFieldRefInfo),
    Methodref(ConstantMethodRefInfo),
    InterfaceMethodRef(ConstantInterfaceMethodRefInfo),
    String(ConstantStringInfo),
    Integer(ConstantIntegerInfo),
    Float(ConstantFloatInfo),
    Long(ConstantLongInfo),
    Double(ConstantDoubleInfo),
    NameAndType(ConstantNameAndTypeInfo),
    Utf8(ConstantUtf8Info),
    MethodHandle(ConstantMethodHandleInfo),
    MethodType(ConstantMethodTypeInfo),
    Dynamic(ConstantDynamicInfo),
    InvokeDynamic(ConstantInvokeDynamicInfo),
    Module(ConstantModuleInfo),
    Package(ConstantPackageInfo),
}

/// `CONSTANT_Class`: the index of the class name.
#[derive(Debug, Clone, Copy, PartialEq, Eq)]
pub struct ConstantClassInfo(pub u16);

#[derive(Debug, Clone, Copy, PartialEq, Eq)]
pub struct ConstantFieldRefInfo {
    pub class_index: u16,
    pub name_and_type_index: u16,
}

#[derive(Debug, Clone, Copy, PartialEq, Eq)]
pub struct ConstantMethodRefInfo {
    pub class_index: u16,
    pub name_and_type_index: u16,
}

#[derive(Debug, Clone, Copy, PartialEq, Eq)]
pub struct ConstantInterfaceMethodRefInfo {
    pub class_index: u16,
    pub name_and_type_index: u16,
}

#[derive(Debug, Clone, Copy, PartialEq, Eq)]
pub struct ConstantStringInfo {
    pub string_index: u16,
}

#[derive(Debug, Clone, Copy, PartialEq, Eq)]
pub struct ConstantIntegerInfo(pub i32);

/// `CONSTANT_Float`, kept as the IEEE 754 bit pattern of the value.
#[derive(Debug, Clone, Copy, PartialEq, Eq)]
pub struct ConstantFloatInfo(pub u32);

#[derive(Debug, Clone, Copy, PartialEq, Eq)]
pub struct ConstantLongInfo(pub i64);

/// `CONSTANT_Double`, kept as the IEEE 754 bit pattern of the value.
#[derive(Debug, Clone, Copy, PartialEq, Eq)]
pub struct ConstantDoubleInfo(pub u64);

#[derive(Debug, Clone, Copy, PartialEq, Eq)]
pub struct ConstantNameAndTypeInfo {
    pub name_index: u16,
    pub descriptor_index: u16,
}

/// `CONSTANT_Utf8`, decoded from modified UTF-8.
#[derive(Debug)]
pub struct ConstantUtf8Info(pub String);

#[derive(Debug, Clone, Copy, PartialEq, Eq)]
pub struct ConstantMethodHandleInfo {
    pub reference_kind: u8,
    pub reference_index: u16,
}

#[derive(Debug, Clone, Copy, PartialEq, Eq)]
pub struct ConstantMethodTypeInfo {
    pub descriptor_index: u16,
}

#[derive(Debug, Clone, Copy, PartialEq, Eq)]
pub struct ConstantDynamicInfo {
    pub bootstrap_method_attr_index: u16,
    pub name_and_type_index: u16,
}

#[derive(Debug, Clone, Copy, PartialEq, Eq)]
pub struct ConstantInvokeDynamicInfo {
    pub bootstrap_method_attr_index: u16,
    pub name_and_type_index: u16,
}

#[derive(Debug, Clone, Copy, PartialEq, Eq)]
pub struct ConstantModuleInfo {
    pub name_index: u16,
}

#[derive(Debug, Clone, Copy, PartialEq, Eq)]
pub struct ConstantPackageInfo {
    pub name_index: u16,
}

/// A method of a class file.
#[derive(Debug)]
pub struct MethodInfo {
    pub access_flags: MethodFlags,
    pub name_index: u16,
    pub descriptor_index: u16,
    pub attributes_count: u16,
    pub attributes: Vec<AttributeInfo>,
}

/// A field of a class file.
#[derive(Debug)]
pub struct FieldInfo {
    pub access_flags: FieldFlags,
    pub name_index: u16,
    pub descriptor_index: u16,
    pub attributes_count: u16,
    pub attributes: Vec<AttributeInfo>,
}

/// The constant pool; entry `i` (counting from 1) is element `i - 1`.
#[derive(Debug)]
pub struct ConstantPool(pub Vec<ConstantInfo>);

/// The entry that index `index` names: none for index 0 or past the end.
pub open spec fn spec_entry(pool: Seq<ConstantInfo>, index: u16) -> Option<ConstantInfo> {
    if index == 0 || index > pool.len() {
        None
    } else {
        Some(pool[index - 1])
    }
}

/// The string of the `Utf8` entry at `index`, if that entry is one.
pub open spec fn spec_utf8(pool: Seq<ConstantInfo>, index: u16) -> Option<Seq<char>> {
    match spec_entry(pool, index) {
        Some(ConstantInfo::Utf8(ConstantUtf8Info(s))) => Some(s@),
        _ => None,
    }
}

/// The name of the `Class` entry at `index`, if that entry is one whose
/// name index names a `Utf8` entry.
pub open spec fn spec_class_name(pool: Seq<ConstantInfo>, index: u16) -> Option<Seq<char>> {
    match spec_entry(pool, index) {
        Some(ConstantInfo::Class(ConstantClassInfo(name_index))) => spec_utf8(pool, name_index),
        _ => None,
    }
}

impl ConstantPool {
    /// The entries of the pool.
    pub open spec fn entries(&self) -> Seq<ConstantInfo> {
        self.0@
    }

    /// The number of entries.
    pub fn get_len(&self) -> (res: usize)
        ensures
            res == self.entries().len(),
    {
        self.0.len()
    }

    /// The entry at `index`: `None` for index 0 and past the end.
    pub fn get_entry(&self, index: u16) -> (res: Option<&ConstantInfo>)
        ensures
            match spec_entry(self.entries(), index) {
                Some(c) => res == Some(&c),
                None => res is None,
            },
    {
        if index == 0 {
            None
        } else if (index as usize) <= self.0.len() {
            Some(&self.0[(index - 1) as usize])
        } else {
            None
        }
    }

    /// The string of the `Utf8` entry at `index`.
    pub fn get_underlying_string_from_utf8_index(&self, index: u16) -> (res: Option<&String>)
        ensures
            match spec_utf8(self.entries(), index) {
                Some(s) => res matches Some(r) && r@ == s,
                None => res is None,
            },
    {
        match self.get_entry(index) {
            Some(ConstantInfo::Utf8(ConstantUtf8Info(s))) => Some(s),
            _ => None,
        }
    }

    /// The name of the class that the `Class` entry at `index` names.
    pub fn get_underlying_string_from_constant_class_info_index(&self, index: u16) -> (res: Option<&String>)
        ensures
            match spec_class_name(self.entries(), index) {
                Some(s) => res matches Some(r) && r@ == s,
                None => res is None,
            },
    {
        match self.get_entry(index) {
            Some(ConstantInfo::Class(ConstantClassInfo(name_index))) => {
                self.get_underlying_string_from_utf8_index(*name_index)
            },
            _ => None,
        }
    }
}

/// Whether a method is `public static`, named `main`, with a descriptor
/// that ends in `V`.
pub open spec fn spec_is_main(m: MethodInfo, pool: Seq<ConstantInfo>) -> bool {
    &&& spec_utf8(pool, m.name_index) == Some(seq!['m', 'a', 'i', 'n'])
    &&& crate::access_flag::has_bits(m.access_flags.bits, 0x0009)
    &&& spec_utf8(pool, m.descriptor_index) matches Some(d) && d.len() > 0 && d.last() == 'V'
}

/// The first `Code` attribute of a list of attributes.
pub open spec fn spec_first_code(attrs: Seq<AttributeInfo>) -> Option<Arc<Code>>
    decreases attrs.len(),
{
    if attrs.len() == 0 {
        None
    } else {
        match attrs[0] {
            AttributeInfo::Code(c) => Some(c),
            _ => spec_first_code(attrs.drop_first()),
        }
    }
}

impl MethodInfo {
    /// The name of the method.
    pub fn get_name<'a>(&self, cp: &'a ConstantPool) -> (res: &'a String)
        requires
            spec_utf8(cp.entries(), self.name_index) is Some,
        ensures
            Some(res@) == spec_utf8(cp.entries(), self.name_index),
    {
        match cp.get_underlying_string_from_utf8_index(self.name_index) {
            Some(s) => s,
            None => {
                assert(false);
                unreached()
            },
        }
    }

    /// The descriptor of the method.
    pub fn get_des<'a>(&self, cp: &'a ConstantPool) -> (res: &'a String)
        requires
            spec_utf8(cp.entries(), self.descriptor_index) is Some,
        ensures
            Some(res@) == spec_utf8(cp.entries(), self.descriptor_index),
    {
        match cp.get_underlying_string_from_utf8_index(self.descriptor_index) {
            Some(s) => s,
            None => {
                assert(false);
                unreached()
            },
        }
    }

    /// Whether this is the entry point `public static void main`.
    pub fn is_main(&self, cp: &ConstantPool) -> (res: bool)
        requires
            spec_utf8(cp.entries(), self.name_index) is Some,
            spec_utf8(cp.entries(), self.descriptor_index) matches Some(d) && d.len() > 0,
        ensures
            res == spec_is_main(*self, cp.entries()),
    {
        let name = self.get_name(cp);
        let des = self.get_des(cp);
        let n = des.as_str().unicode_len();
        proof {
            reveal_strlit("main");
            assert("main"@ =~= seq!['m', 'a', 'i', 'n']);
            assert(1u16 | 8u16 == 9u16) by (bit_vector);
        }
        str_eq(name.as_str(), "main")
            && self.access_flags.contains(MethodFlags::ACC_PUBLIC | MethodFlags::ACC_STATIC)
            && des.as_str().get_char(n - 1) == 'V'
    }

    /// The method's `Code` attribute: the first one in its attribute list.
    pub fn get_code_attribute(&self) -> (res: Option<&Arc<Code>>)
        ensures
            match spec_first_code(self.attributes@) {
                Some(c) => res == Some(&c),
                None => res is None,
            },
    {
        let mut i: usize = 0;
        assert(self.attributes@.skip(0) =~= self.attributes@);
        while i < self.attributes.len()
            invariant
                i <= self.attributes@.len(),
                spec_first_code(self.attributes@) == spec_first_code(self.attributes@.skip(i as int)),
            decreases self.attributes@.len() - i,
        {
            assert(self.attributes@.skip(i as int).drop_first() =~= self.attributes@.skip(i + 1));
            if let AttributeInfo::Code(code) = &self.attributes[i] {
                return Some(code);
            }
            i = i + 1;
        }
        assert(self.attributes@.skip(i as int) =~= Seq::<AttributeInfo>::empty());
        None
    }
}

} // verus!
