//! Decoding a class file from its bytes.

use vstd::prelude::*;
use crate::instruction::{build_operation, operand_count, spec_opcode, spec_operand_count, Instruction, Operation};
use crate::attribute::{
    AttributeInfo, BootstrapMethod, BootstrapMethodEntry, Code, ConstantValue, ExceptionTableEntry,
    LineNumberTable, LineNumberTableEntry, NestHost, NestMembers, PermitterSubclasses, RemainingAttribute,
};
use crate::text::str_eq;
use crate::access_flag::{ClassFlags, FieldFlags, MethodFlags};
use crate::class_file::ClassFile;
use crate::class_version::ClassVersion;
use std::sync::Arc;
use crate::class_format::{
    be16, be32, be64, be_i32, be_i64, constant_at, constant_body_at, fits, is_wide, java_utf8_decode,
    last_width, op_at, pool_at, attribute_at, attribute_list_at, attributes_at, bootstrap_entries_at,
    bytecode_at, class_file_at, code_at, instruction_ok, lemma_class_file_layout, lemma_fields_end, lemma_methods_end, lemma_pool_next, lemma_pool_append, lemma_pool_follows, pool_slots, pools_agree, lemma_field_attribute_next, lemma_fields_next, lemma_method_attribute_next, lemma_methods_next, lemma_attribute_list_next, lemma_attributes_next, lemma_bootstrap_next, lemma_bytecode_next, lemma_op_at, lookupswitch_ok, match_value, switch_padding, tableswitch_ok, field_at, fields_at, method_at, methods_at, exception_entries_at, instrs_at, line_entries_at, name_bootstrap_methods, name_code,
    name_constant_value, name_line_number_table, name_nest_host, name_nest_members, name_permitted_subclasses, pool_complete, u16_list_at, u16s_at, spec_constant_tag, u16_at, u16_body, u16_pair_body,
};
use crate::constant_pool::{
    spec_is_tag, spec_tag_value, spec_utf8, ConstantClassInfo, ConstantDoubleInfo, ConstantDynamicInfo,
    ConstantFieldRefInfo, ConstantFloatInfo, ConstantInfo, ConstantIntegerInfo,
    ConstantInterfaceMethodRefInfo, ConstantInvokeDynamicInfo, ConstantLongInfo,
    ConstantMethodHandleInfo, ConstantMethodRefInfo, ConstantMethodTypeInfo, ConstantModuleInfo,
    ConstantNameAndTypeInfo, ConstantPackageInfo, ConstantPool, ConstantStringInfo, ConstantTag,
    ConstantUtf8Info, FieldInfo, MethodInfo,
};

verus! {

/// Whether every byte is below 0x80.
pub open spec fn all_ascii(bytes: Seq<u8>) -> bool {
    forall|i: int| 0 <= i < bytes.len() ==> #[trigger] bytes[i] < 0x80
}

/// The characters whose codes are the given bytes.
pub open spec fn ascii_chars(bytes: Seq<u8>) -> Seq<char> {
    bytes.map_values(|c: u8| c as char)
}

/// Decodes a modified UTF-8 string (the form the constant pool stores).
///
/// Trusted: calls `cesu8::from_java_cesu8`. Its result is named
/// `java_utf8_decode`; besides, the crate first tries plain UTF-8 and
/// returns the input unchanged when that succeeds, so bytes that are all
/// ASCII decode to themselves.
#[verifier::external_body]
fn decode_modified_utf8(bytes: &[u8]) -> (res: Option<String>)
    ensures
        res is Some <==> java_utf8_decode(bytes@) is Some,
        res is Some ==> java_utf8_decode(bytes@) == Some(res->0@),
        all_ascii(bytes@) ==> res is Some && res->0@ == ascii_chars(bytes@),
{
    match cesu8::from_java_cesu8(bytes) {
        Ok(s) => Some(s.into_owned()),
        Err(_) => None,
    }
}


/// Why a class file could not be decoded.
#[derive(Debug, Clone, Copy, PartialEq, Eq, Structural)]
pub enum ParseError {
    /// The bytes end in the middle of an item.
    UnexpectedEof,
    /// A constant pool entry starts with a byte that is no tag.
    InvalidConstantTag(u8),
    /// Access flags hold a bit that names no flag.
    InvalidAccessFlags(u16),
    /// A `Utf8` constant is no modified UTF-8.
    InvalidModifiedUtf8,
    /// An attribute's name index names no `Utf8` constant.
    AttributeNameNotUtf8(u16),
    /// A `ConstantValue` attribute whose length is not 2.
    InvalidConstantValueLength(u32),
    /// A `Code` attribute with an empty code array.
    EmptyCode,
    /// A byte in a code array that is no opcode.
    InvalidOpcode(u8),
    /// An instruction runs past the end of the code array.
    BytecodeOverrun,
    /// A `lookupswitch` with a negative number of pairs.
    NegativeLookupswitchPairs(i32),
    /// `lookupswitch` match values that do not strictly increase.
    UnorderedLookupswitch(i32, i32),
    /// A `tableswitch` whose low bound is above its high bound.
    TableswitchBounds(i32, i32),
}

/// The error of reading the pairs of a `lookupswitch` from pair `k` on:
/// the first pair that runs past the bytes ends the reading, and the first
/// whose match value is not above the one before it is refused.
pub open spec fn lookup_pairs_error(b: Seq<u8>, q: int, n: int, k: int) -> ParseError
    decreases n - k,
{
    if k < 0 || k >= n {
        ParseError::UnexpectedEof
    } else if !fits(b, q + 8 + 8 * k, 8) {
        ParseError::UnexpectedEof
    } else if k > 0 && match_value(b, q, k) <= match_value(b, q, k - 1) {
        ParseError::UnorderedLookupswitch(match_value(b, q, k) as i32, match_value(b, q, k - 1) as i32)
    } else {
        lookup_pairs_error(b, q, n, k + 1)
    }
}

/// The error of reading a `lookupswitch` at `p` whose address is `address`.
pub open spec fn lookupswitch_error(b: Seq<u8>, p: int, address: int) -> ParseError {
    let q = p + 1 + switch_padding(address);
    if !fits(b, q, 8) {
        ParseError::UnexpectedEof
    } else if be_i32(b, q + 4) < 0 {
        ParseError::NegativeLookupswitchPairs(be_i32(b, q + 4) as i32)
    } else {
        lookup_pairs_error(b, q, be_i32(b, q + 4), 0)
    }
}

/// The error of reading a `tableswitch` at `p` whose address is `address`.
pub open spec fn tableswitch_error(b: Seq<u8>, p: int, address: int) -> ParseError {
    let q = p + 1 + switch_padding(address);
    if fits(b, q, 12) && be_i32(b, q + 4) > be_i32(b, q + 8) {
        ParseError::TableswitchBounds(be_i32(b, q + 4) as i32, be_i32(b, q + 8) as i32)
    } else {
        ParseError::UnexpectedEof
    }
}

/// The error of reading an instruction at `p` whose address is `address`:
/// a byte that is no opcode is refused, a switch as its own reader says,
/// and anything else ran past the bytes.
pub open spec fn instruction_error(b: Seq<u8>, p: int, address: int) -> ParseError {
    if !fits(b, p, 1) {
        ParseError::UnexpectedEof
    } else if b[p] == 171 {
        lookupswitch_error(b, p, address)
    } else if b[p] == 170 {
        tableswitch_error(b, p, address)
    } else if spec_operand_count(b[p]) is None {
        ParseError::InvalidOpcode(b[p])
    } else {
        ParseError::UnexpectedEof
    }
}

/// No constant with tag `tag` has its body encoded at `q`.
pub open spec fn no_constant_body(b: Seq<u8>, q: int, tag: u8) -> bool {
    forall|c: ConstantInfo| spec_constant_tag(c) == tag ==> constant_body_at(b, q, c) is None
}

/// Reads a class file from its bytes.
pub struct ClassFileReader {
    buf: Vec<u8>,
    pos: usize,
}

impl ClassFileReader {
    /// The bytes being read.
    pub closed spec fn bytes(&self) -> Seq<u8> {
        self.buf@
    }

    /// The position of the next byte to read.
    pub closed spec fn position(&self) -> int {
        self.pos as int
    }

    /// The position lies within the bytes.
    pub closed spec fn wf(&self) -> bool {
        self.pos <= self.buf@.len()
    }

    /// A reader at the start of `buf`.
    pub fn new(buf: Vec<u8>) -> (res: Self)
        ensures
            res.wf(),
            res.bytes() == buf@,
            res.position() == 0,
    {
        ClassFileReader { buf, pos: 0 }
    }

    fn read_u1(&mut self) -> (res: Result<u8, ParseError>)
        requires
            old(self).wf(),
        ensures
            final(self).wf(),
            final(self).bytes() == old(self).bytes(),
            match res {
                Ok(v) => fits(old(self).bytes(), old(self).position(), 1) && v == old(self).bytes()[old(self).position()]
                    && final(self).position() == old(self).position() + 1,
                Err(e) => e == ParseError::UnexpectedEof && !fits(old(self).bytes(), old(self).position(), 1),
            },
    {
        if self.pos < self.buf.len() {
            let v = self.buf[self.pos];
            self.pos = self.pos + 1;
            Ok(v)
        } else {
            Err(ParseError::UnexpectedEof)
        }
    }

    fn read_u2(&mut self) -> (res: Result<u16, ParseError>)
        requires
            old(self).wf(),
        ensures
            final(self).wf(),
            final(self).bytes() == old(self).bytes(),
            match res {
                Ok(v) => fits(old(self).bytes(), old(self).position(), 2) && v as int == be16(old(self).bytes(), old(self).position())
                    && final(self).position() == old(self).position() + 2,
                Err(e) => e == ParseError::UnexpectedEof && !fits(old(self).bytes(), old(self).position(), 2),
            },
    {
        if self.buf.len() - self.pos >= 2 {
            let hi = self.buf[self.pos];
            let lo = self.buf[self.pos + 1];
            self.pos = self.pos + 2;
            Ok((hi as u16) * 256 + (lo as u16))
        } else {
            Err(ParseError::UnexpectedEof)
        }
    }

    fn read_u4(&mut self) -> (res: Result<u32, ParseError>)
        requires
            old(self).wf(),
        ensures
            final(self).wf(),
            final(self).bytes() == old(self).bytes(),
            match res {
                Ok(v) => fits(old(self).bytes(), old(self).position(), 4) && v as int == be32(old(self).bytes(), old(self).position())
                    && final(self).position() == old(self).position() + 4,
                Err(e) => e == ParseError::UnexpectedEof && !fits(old(self).bytes(), old(self).position(), 4),
            },
    {
        if self.buf.len() - self.pos >= 4 {
            let hi = self.read_u2();
            let lo = self.read_u2();
            match (hi, lo) {
                (Ok(hi), Ok(lo)) => Ok((hi as u32) * 65536 + (lo as u32)),
                _ => {
                    assert(false);
                    Err(ParseError::UnexpectedEof)
                },
            }
        } else {
            Err(ParseError::UnexpectedEof)
        }
    }

    /// Reads four bytes as a big-endian two's complement value.
    fn read_i4(&mut self) -> (res: Result<i32, ParseError>)
        requires
            old(self).wf(),
        ensures
            final(self).wf(),
            final(self).bytes() == old(self).bytes(),
            match res {
                Ok(v) => fits(old(self).bytes(), old(self).position(), 4) && v as int == be_i32(old(self).bytes(), old(self).position())
                    && final(self).position() == old(self).position() + 4,
                Err(e) => e == ParseError::UnexpectedEof && !fits(old(self).bytes(), old(self).position(), 4),
            },
    {
        let v = self.read_u4()?;
        if v >= 0x8000_0000 {
            Ok(((v - 0x8000_0000) as i32) + i32::MIN)
        } else {
            Ok(v as i32)
        }
    }

    /// Reads eight bytes as a big-endian unsigned value.
    fn read_u8_bytes(&mut self) -> (res: Result<u64, ParseError>)
        requires
            old(self).wf(),
        ensures
            final(self).wf(),
            final(self).bytes() == old(self).bytes(),
            match res {
                Ok(v) => fits(old(self).bytes(), old(self).position(), 8) && v as int == be64(old(self).bytes(), old(self).position())
                    && final(self).position() == old(self).position() + 8,
                Err(e) => e == ParseError::UnexpectedEof && !fits(old(self).bytes(), old(self).position(), 8),
            },
    {
        if self.buf.len() - self.pos >= 8 {
            let hi = self.read_u4();
            let lo = self.read_u4();
            match (hi, lo) {
                (Ok(hi), Ok(lo)) => Ok((hi as u64) * 0x1_0000_0000 + (lo as u64)),
                _ => {
                    assert(false);
                    Err(ParseError::UnexpectedEof)
                },
            }
        } else {
            Err(ParseError::UnexpectedEof)
        }
    }

    fn read_n_bytes(&mut self, n: usize) -> (res: Result<Vec<u8>, ParseError>)
        requires
            old(self).wf(),
        ensures
            final(self).wf(),
            final(self).bytes() == old(self).bytes(),
            match res {
                Ok(v) => fits(old(self).bytes(), old(self).position(), n as int)
                    && v@ == old(self).bytes().subrange(old(self).position(), old(self).position() + n)
                    && final(self).position() == old(self).position() + n,
                Err(e) => e == ParseError::UnexpectedEof && !fits(old(self).bytes(), old(self).position(), n as int),
            },
    {
        if self.buf.len() - self.pos >= n {
            let mut v: Vec<u8> = Vec::new();
            let start = self.pos;
            let mut i: usize = 0;
            while i < n
                invariant
                    self.wf(),
                    start + n <= self.buf.len(),
                    i <= n,
                    v@ == self.buf@.subrange(start as int, start + i),
                decreases n - i,
            {
                v.push(self.buf[start + i]);
                i = i + 1;
                assert(v@ =~= self.buf@.subrange(start as int, start + i));
            }
            self.pos = start + n;
            Ok(v)
        } else {
            Err(ParseError::UnexpectedEof)
        }
    }

    fn parse_constant_class(&mut self) -> (res: Result<ConstantInfo, ParseError>)
        requires
            old(self).wf(),
        ensures
            final(self).wf(),
            final(self).bytes() == old(self).bytes(),
            match res {
                Ok(c) => spec_constant_tag(c) == 7
                    && constant_body_at(old(self).bytes(), old(self).position(), c) == Some(final(self).position()),
                Err(_) => no_constant_body(old(self).bytes(), old(self).position(), 7),
            },
    {
        let name_index = self.read_u2()?;
        Ok(ConstantInfo::Class(ConstantClassInfo(name_index)))
    }

    fn parse_constant_method_ref(&mut self) -> (res: Result<ConstantInfo, ParseError>)
        requires
            old(self).wf(),
        ensures
            final(self).wf(),
            final(self).bytes() == old(self).bytes(),
            match res {
                Ok(c) => spec_constant_tag(c) == 10
                    && constant_body_at(old(self).bytes(), old(self).position(), c) == Some(final(self).position()),
                Err(_) => no_constant_body(old(self).bytes(), old(self).position(), 10),
            },
    {
        let class_index = self.read_u2()?;
        let name_and_type_index = self.read_u2()?;
        Ok(ConstantInfo::Methodref(ConstantMethodRefInfo { class_index, name_and_type_index }))
    }

    fn parse_constant_field_ref(&mut self) -> (res: Result<ConstantInfo, ParseError>)
        requires
            old(self).wf(),
        ensures
            final(self).wf(),
            final(self).bytes() == old(self).bytes(),
            match res {
                Ok(c) => spec_constant_tag(c) == 9
                    && constant_body_at(old(self).bytes(), old(self).position(), c) == Some(final(self).position()),
                Err(_) => no_constant_body(old(self).bytes(), old(self).position(), 9),
            },
    {
        let class_index = self.read_u2()?;
        let name_and_type_index = self.read_u2()?;
        Ok(ConstantInfo::FieldRef(ConstantFieldRefInfo { class_index, name_and_type_index }))
    }

    fn parse_constant_interface_method_ref(&mut self) -> (res: Result<ConstantInfo, ParseError>)
        requires
            old(self).wf(),
        ensures
            final(self).wf(),
            final(self).bytes() == old(self).bytes(),
            match res {
                Ok(c) => spec_constant_tag(c) == 11
                    && constant_body_at(old(self).bytes(), old(self).position(), c) == Some(final(self).position()),
                Err(_) => no_constant_body(old(self).bytes(), old(self).position(), 11),
            },
    {
        let class_index = self.read_u2()?;
        let name_and_type_index = self.read_u2()?;
        Ok(ConstantInfo::InterfaceMethodRef(ConstantInterfaceMethodRefInfo { class_index, name_and_type_index }))
    }

    fn parse_constant_name_and_type(&mut self) -> (res: Result<ConstantInfo, ParseError>)
        requires
            old(self).wf(),
        ensures
            final(self).wf(),
            final(self).bytes() == old(self).bytes(),
            match res {
                Ok(c) => spec_constant_tag(c) == 12
                    && constant_body_at(old(self).bytes(), old(self).position(), c) == Some(final(self).position()),
                Err(_) => no_constant_body(old(self).bytes(), old(self).position(), 12),
            },
    {
        let name_index = self.read_u2()?;
        let descriptor_index = self.read_u2()?;
        Ok(ConstantInfo::NameAndType(ConstantNameAndTypeInfo { name_index, descriptor_index }))
    }

    fn parse_constant_dynamic(&mut self) -> (res: Result<ConstantInfo, ParseError>)
        requires
            old(self).wf(),
        ensures
            final(self).wf(),
            final(self).bytes() == old(self).bytes(),
            match res {
                Ok(c) => spec_constant_tag(c) == 17
                    && constant_body_at(old(self).bytes(), old(self).position(), c) == Some(final(self).position()),
                Err(_) => no_constant_body(old(self).bytes(), old(self).position(), 17),
            },
    {
        let bootstrap_method_attr_index = self.read_u2()?;
        let name_and_type_index = self.read_u2()?;
        Ok(ConstantInfo::Dynamic(ConstantDynamicInfo { bootstrap_method_attr_index, name_and_type_index }))
    }

    fn parse_constant_invoke_dynamic(&mut self) -> (res: Result<ConstantInfo, ParseError>)
        requires
            old(self).wf(),
        ensures
            final(self).wf(),
            final(self).bytes() == old(self).bytes(),
            match res {
                Ok(c) => spec_constant_tag(c) == 18
                    && constant_body_at(old(self).bytes(), old(self).position(), c) == Some(final(self).position()),
                Err(_) => no_constant_body(old(self).bytes(), old(self).position(), 18),
            },
    {
        let bootstrap_method_attr_index = self.read_u2()?;
        let name_and_type_index = self.read_u2()?;
        Ok(ConstantInfo::InvokeDynamic(ConstantInvokeDynamicInfo { bootstrap_method_attr_index, name_and_type_index }))
    }

    fn parse_constant_string(&mut self) -> (res: Result<ConstantInfo, ParseError>)
        requires
            old(self).wf(),
        ensures
            final(self).wf(),
            final(self).bytes() == old(self).bytes(),
            match res {
                Ok(c) => spec_constant_tag(c) == 8
                    && constant_body_at(old(self).bytes(), old(self).position(), c) == Some(final(self).position()),
                Err(_) => no_constant_body(old(self).bytes(), old(self).position(), 8),
            },
    {
        let string_index = self.read_u2()?;
        Ok(ConstantInfo::String(ConstantStringInfo { string_index }))
    }

    fn parse_constant_method_type(&mut self) -> (res: Result<ConstantInfo, ParseError>)
        requires
            old(self).wf(),
        ensures
            final(self).wf(),
            final(self).bytes() == old(self).bytes(),
            match res {
                Ok(c) => spec_constant_tag(c) == 16
                    && constant_body_at(old(self).bytes(), old(self).position(), c) == Some(final(self).position()),
                Err(_) => no_constant_body(old(self).bytes(), old(self).position(), 16),
            },
    {
        let descriptor_index = self.read_u2()?;
        Ok(ConstantInfo::MethodType(ConstantMethodTypeInfo { descriptor_index }))
    }

    fn parse_constant_module(&mut self) -> (res: Result<ConstantInfo, ParseError>)
        requires
            old(self).wf(),
        ensures
            final(self).wf(),
            final(self).bytes() == old(self).bytes(),
            match res {
                Ok(c) => spec_constant_tag(c) == 19
                    && constant_body_at(old(self).bytes(), old(self).position(), c) == Some(final(self).position()),
                Err(_) => no_constant_body(old(self).bytes(), old(self).position(), 19),
            },
    {
        let name_index = self.read_u2()?;
        Ok(ConstantInfo::Module(ConstantModuleInfo { name_index }))
    }

    fn parse_constant_package(&mut self) -> (res: Result<ConstantInfo, ParseError>)
        requires
            old(self).wf(),
        ensures
            final(self).wf(),
            final(self).bytes() == old(self).bytes(),
            match res {
                Ok(c) => spec_constant_tag(c) == 20
                    && constant_body_at(old(self).bytes(), old(self).position(), c) == Some(final(self).position()),
                Err(_) => no_constant_body(old(self).bytes(), old(self).position(), 20),
            },
    {
        let name_index = self.read_u2()?;
        Ok(ConstantInfo::Package(ConstantPackageInfo { name_index }))
    }

    fn parse_constant_integer(&mut self) -> (res: Result<ConstantInfo, ParseError>)
        requires
            old(self).wf(),
        ensures
            final(self).wf(),
            final(self).bytes() == old(self).bytes(),
            match res {
                Ok(c) => spec_constant_tag(c) == 3
                    && constant_body_at(old(self).bytes(), old(self).position(), c) == Some(final(self).position()),
                Err(_) => no_constant_body(old(self).bytes(), old(self).position(), 3),
            },
    {
        let value = self.read_i4()?;
        Ok(ConstantInfo::Integer(ConstantIntegerInfo(value)))
    }

    fn parse_constant_float(&mut self) -> (res: Result<ConstantInfo, ParseError>)
        requires
            old(self).wf(),
        ensures
            final(self).wf(),
            final(self).bytes() == old(self).bytes(),
            match res {
                Ok(c) => spec_constant_tag(c) == 4
                    && constant_body_at(old(self).bytes(), old(self).position(), c) == Some(final(self).position()),
                Err(_) => no_constant_body(old(self).bytes(), old(self).position(), 4),
            },
    {
        let bits = self.read_u4()?;
        Ok(ConstantInfo::Float(ConstantFloatInfo(bits)))
    }

    fn parse_constant_double(&mut self) -> (res: Result<ConstantInfo, ParseError>)
        requires
            old(self).wf(),
        ensures
            final(self).wf(),
            final(self).bytes() == old(self).bytes(),
            match res {
                Ok(c) => spec_constant_tag(c) == 6
                    && constant_body_at(old(self).bytes(), old(self).position(), c) == Some(final(self).position()),
                Err(_) => no_constant_body(old(self).bytes(), old(self).position(), 6),
            },
    {
        let bits = self.read_u8_bytes()?;
        Ok(ConstantInfo::Double(ConstantDoubleInfo(bits)))
    }

    fn parse_constant_method_handle(&mut self) -> (res: Result<ConstantInfo, ParseError>)
        requires
            old(self).wf(),
        ensures
            final(self).wf(),
            final(self).bytes() == old(self).bytes(),
            match res {
                Ok(c) => spec_constant_tag(c) == 15
                    && constant_body_at(old(self).bytes(), old(self).position(), c) == Some(final(self).position()),
                Err(_) => no_constant_body(old(self).bytes(), old(self).position(), 15),
            },
    {
        let reference_kind = self.read_u1()?;
        let reference_index = self.read_u2()?;
        Ok(ConstantInfo::MethodHandle(ConstantMethodHandleInfo { reference_kind, reference_index }))
    }

    fn parse_constant_long(&mut self) -> (res: Result<ConstantInfo, ParseError>)
        requires
            old(self).wf(),
        ensures
            final(self).wf(),
            final(self).bytes() == old(self).bytes(),
            match res {
                Ok(c) => spec_constant_tag(c) == 5
                    && constant_body_at(old(self).bytes(), old(self).position(), c) == Some(final(self).position()),
                Err(_) => no_constant_body(old(self).bytes(), old(self).position(), 5),
            },
    {
        let raw = self.read_u8_bytes()?;
        let value: i64 = if raw >= 0x8000_0000_0000_0000 {
            ((raw - 0x8000_0000_0000_0000) as i64) + i64::MIN
        } else {
            raw as i64
        };
        Ok(ConstantInfo::Long(ConstantLongInfo(value)))
    }

    fn parse_constant_utf8(&mut self) -> (res: Result<ConstantInfo, ParseError>)
        requires
            old(self).wf(),
        ensures
            final(self).wf(),
            final(self).bytes() == old(self).bytes(),
            match res {
                Ok(c) => spec_constant_tag(c) == 1
                    && constant_body_at(old(self).bytes(), old(self).position(), c) == Some(final(self).position()),
                Err(_) => no_constant_body(old(self).bytes(), old(self).position(), 1),
            },
    {
        let length = self.read_u2()?;
        let start = self.pos;
        let java_utf8_bytes = self.read_n_bytes(length as usize)?;
        assert(java_utf8_bytes@ == self.buf@.subrange(start as int, start + length));
        match decode_modified_utf8(java_utf8_bytes.as_slice()) {
            Some(s) => Ok(ConstantInfo::Utf8(ConstantUtf8Info(s))),
            None => Err(ParseError::InvalidModifiedUtf8),
        }
    }

    fn parse_constant(&mut self) -> (res: Result<ConstantInfo, ParseError>)
        requires
            old(self).wf(),
        ensures
            final(self).wf(),
            final(self).bytes() == old(self).bytes(),
            match res {
                Ok(c) => constant_at(old(self).bytes(), old(self).position(), c) == Some(final(self).position()),
                Err(_) => forall|c: ConstantInfo| constant_at(old(self).bytes(), old(self).position(), c) is None,
            },
    {
        let tag = self.read_u1()?;
        let constant = match ConstantTag::from_byte(tag) {
            None => {
                assert forall|c: ConstantInfo| constant_at(old(self).bytes(), old(self).position(), c) is None by {
                    assert(spec_is_tag(spec_constant_tag(c)));
                }
                return Err(ParseError::InvalidConstantTag(tag));
            },
            Some(ConstantTag::Class) => self.parse_constant_class()?,
            Some(ConstantTag::Fieldref) => self.parse_constant_field_ref()?,
            Some(ConstantTag::Methodref) => self.parse_constant_method_ref()?,
            Some(ConstantTag::InterfaceMethodref) => self.parse_constant_interface_method_ref()?,
            Some(ConstantTag::String) => self.parse_constant_string()?,
            Some(ConstantTag::Integer) => self.parse_constant_integer()?,
            Some(ConstantTag::Float) => self.parse_constant_float()?,
            Some(ConstantTag::Long) => self.parse_constant_long()?,
            Some(ConstantTag::Double) => self.parse_constant_double()?,
            Some(ConstantTag::NameAndType) => self.parse_constant_name_and_type()?,
            Some(ConstantTag::Utf8) => self.parse_constant_utf8()?,
            Some(ConstantTag::MethodHandle) => self.parse_constant_method_handle()?,
            Some(ConstantTag::MethodType) => self.parse_constant_method_type()?,
            Some(ConstantTag::Dynamic) => self.parse_constant_dynamic()?,
            Some(ConstantTag::InvokeDynamic) => self.parse_constant_invoke_dynamic()?,
            Some(ConstantTag::Module) => self.parse_constant_module()?,
            Some(ConstantTag::Package) => self.parse_constant_package()?,
        };
        Ok(constant)
    }

    fn read_u2_vec(&mut self) -> (res: Result<Vec<u16>, ParseError>)
        requires
            old(self).wf(),
        ensures
            final(self).wf(),
            final(self).bytes() == old(self).bytes(),
            res is Ok ==> final(self).position() >= old(self).position(),
            res matches Ok(v) ==> u16_list_at(old(self).bytes(), old(self).position(), v@) == Some(final(self).position()),
            res is Err ==> forall|v: Seq<u16>| u16_list_at(old(self).bytes(), old(self).position(), v) is None,
    {
        let item_count = self.read_u2()?;
        let start = self.pos;
        let mut items: Vec<u16> = Vec::new();
        let mut k: u16 = 0;
        while k < item_count
            invariant
                self.wf(),
                self.buf@ == old(self).buf@,
                k <= item_count,
                item_count as int == be16(self.buf@, start - 2),
                start == old(self).pos + 2,
                items@.len() == k,
                self.pos == start + 2 * k,
                fits(self.buf@, start as int, 2 * k),
                forall|i: int| 0 <= i < k ==> #[trigger] items@[i] as int == be16(self.buf@, start + 2 * i),
            decreases item_count - k,
        {
            let item = self.read_u2()?;
            items.push(item);
            k = k + 1;
        }
        assert(u16s_at(self.buf@, start as int, items@) == Some(self.pos as int));
        Ok(items)
    }

    fn parse_constant_pool(&mut self) -> (res: Result<ConstantPool, ParseError>)
        requires
            old(self).wf(),
        ensures
            final(self).wf(),
            final(self).bytes() == old(self).bytes(),
            res matches Ok(cp) ==> fits(old(self).bytes(), old(self).position(), 2)
                && pool_complete(old(self).bytes(), old(self).position() + 2, be16(old(self).bytes(), old(self).position()),
                    cp.entries()) == Some(final(self).position()),
            res matches Ok(cp) ==> forall|e: Seq<ConstantInfo>|
                #[trigger] pool_complete(old(self).bytes(), old(self).position() + 2, be16(old(self).bytes(), old(self).position()), e) is Some
                ==> pool_complete(old(self).bytes(), old(self).position() + 2, be16(old(self).bytes(), old(self).position()), e)
                    == Some(final(self).position()) && pools_agree(e, cp.entries()),
            res is Err ==> forall|e: Seq<ConstantInfo>| !(fits(old(self).bytes(), old(self).position(), 2)
                && #[trigger] pool_complete(old(self).bytes(), old(self).position() + 2, be16(old(self).bytes(), old(self).position()), e) is Some),
    {
        let constants_count = self.read_u2()?;
        let start = self.pos;
        let ghost b = self.buf@;
        let ghost count = be16(b, old(self).pos as int);
        let mut constant_pool: Vec<ConstantInfo> = Vec::new();
        //long and double takes two slot
        let mut i: u32 = 1;
        while i < constants_count as u32
            invariant
                self.wf(),
                self.buf@ == old(self).buf@,
                b == old(self).buf@,
                start == old(self).pos + 2,
                constants_count as int == count,
                count == be16(b, old(self).pos as int),
                i as int == 1 + constant_pool@.len(),
                i <= constants_count as u32 + 1,
                pool_at(self.buf@, start as int, constant_pool@) == Some(self.pos as int),
                constant_pool@.len() == 0 || constant_pool@.len() - last_width(constant_pool@) + 1 < constants_count,
            decreases constants_count as u32 + 1 - i,
        {
            let ghost before = constant_pool@;
            let ghost here = self.pos as int;
            let constant = match self.parse_constant() {
                Ok(c) => c,
                Err(e) => {
                    proof {
                        assert forall|e: Seq<ConstantInfo>| !(fits(old(self).bytes(), old(self).position(), 2)
                            && #[trigger] pool_complete(old(self).bytes(), old(self).position() + 2, be16(old(self).bytes(), old(self).position()), e) is Some) by {
                            if fits(b, old(self).pos as int, 2) && pool_complete(b, start as int, count, e) is Some {
                                lemma_pool_next(b, start as int, count, before, here, e);
                            }
                        }
                    }
                    return Err(e);
                },
            };
            proof {
                lemma_pool_append(b, start as int, before, here, constant);
            }
            match constant {
                ConstantInfo::Long(v) => {
                    constant_pool.push(ConstantInfo::Long(v));
                    constant_pool.push(ConstantInfo::Long(v));
                    i = i + 2;
                    assert(constant_pool@ =~= before + pool_slots(constant));
                },
                ConstantInfo::Double(v) => {
                    constant_pool.push(ConstantInfo::Double(v));
                    constant_pool.push(ConstantInfo::Double(v));
                    i = i + 2;
                    assert(constant_pool@ =~= before + pool_slots(constant));
                },
                other => {
                    constant_pool.push(other);
                    i = i + 1;
                    assert(constant_pool@ =~= before + pool_slots(constant));
                },
            }
        }
        proof {
            let done = constant_pool@;
            assert forall|e: Seq<ConstantInfo>| #[trigger] pool_complete(b, start as int, count, e) is Some
                implies pool_complete(b, start as int, count, e) == Some(self.pos as int) && pools_agree(e, done) by {
                if e.len() < done.len() {
                    let qe = pool_at(b, start as int, e)->0;
                    lemma_pool_follows(b, start as int, e, qe, done);
                    let rest = done.skip(e.len() as int);
                    assert(rest.len() == 1);
                    assert(rest[0] == done.last());
                    assert(false);
                }
                lemma_pool_follows(b, start as int, done, self.pos as int, e);
                if e.len() > done.len() {
                    let rest = e.skip(done.len() as int);
                    assert(rest.len() == 1);
                    assert(is_wide(rest[0]));
                    assert(false);
                }
                assert(e.take(done.len() as int) =~= e);
                assert(e.skip(done.len() as int) =~= Seq::<ConstantInfo>::empty());
            }
        }
        Ok(ConstantPool(constant_pool))
    }

    fn skip_padding(&mut self, padding: u32) -> (res: Result<(), ParseError>)
        requires
            old(self).wf(),
        ensures
            final(self).wf(),
            final(self).bytes() == old(self).bytes(),
            res is Ok ==> fits(old(self).bytes(), old(self).position(), padding as int)
                && final(self).position() == old(self).position() + padding,
            res is Err ==> !fits(old(self).bytes(), old(self).position(), padding as int),
            res matches Err(e) ==> e == ParseError::UnexpectedEof,
    {
        let mut k: u32 = 0;
        while k < padding
            invariant
                self.wf(),
                self.buf@ == old(self).buf@,
                k <= padding,
                self.pos == old(self).pos + k,
            decreases padding - k,
        {
            if let Err(e) = self.read_u1() {
                return Err(e);
            }
            k = k + 1;
        }
        Ok(())
    }

    fn parse_lookupswitch(&mut self, start: usize, address: u32) -> (res: Result<Operation, ParseError>)
        requires
            old(self).wf(),
            old(self).position() == start + 1,
            address < u32::MAX,
            fits(old(self).bytes(), start as int, 1),
            old(self).bytes()[start as int] == 171,
        ensures
            final(self).wf(),
            final(self).bytes() == old(self).bytes(),
            res matches Ok(op) ==> op_at(old(self).bytes(), start as int, op, address as int) == Some(final(self).position()),
            res is Err ==> !lookupswitch_ok(old(self).bytes(), start as int, address as int),
            res matches Err(e) ==> e == lookupswitch_error(old(self).bytes(), start as int, address as int),
    {
        let ghost b = self.buf@;
        let padding = (4 - ((address + 1) % 4)) % 4;
        assert(padding == switch_padding(address as int));
        if let Err(e) = self.skip_padding(padding) {
            return Err(e);
        }
        let q = self.pos;
        let default_offset = match self.read_i4() {
            Ok(v) => v,
            Err(e) => {
                return Err(e);
            },
        };
        let npairs = match self.read_i4() {
            Ok(v) => v,
            Err(e) => {
                return Err(e);
            },
        };
        if npairs < 0 {
            return Err(ParseError::NegativeLookupswitchPairs(npairs));
        }
        let mut pairs: Vec<(i32, i32)> = Vec::new();
        let mut last_match: Option<i32> = None;
        let mut k: i32 = 0;
        while k < npairs
            invariant
                self.wf(),
                self.buf@ == old(self).buf@,
                b == old(self).buf@,
                q == start + 1 + switch_padding(address as int),
                npairs as int == be_i32(b, q + 4),
                0 <= k <= npairs,
                pairs@.len() == k,
                self.pos == q + 8 + 8 * k,
                fits(self.buf@, q as int, 8 + 8 * k),
                forall|i: int| 0 <= i < k ==>
                    (#[trigger] pairs@[i]).0 as int == be_i32(self.buf@, q + 8 + 8 * i)
                    && pairs@[i].1 as int == be_i32(self.buf@, q + 12 + 8 * i),
                forall|i: int, j: int| 0 <= i < j < k ==> #[trigger] pairs@[i].0 < #[trigger] pairs@[j].0,
                k == 0 <==> last_match is None,
                last_match matches Some(m) ==> m == pairs@[k - 1].0,
                lookup_pairs_error(b, q as int, npairs as int, 0) == lookup_pairs_error(b, q as int, npairs as int, k as int),
            decreases npairs - k,
        {
            let value = match self.read_i4() {
                Ok(v) => v,
                Err(e) => {
                    return Err(e);
                },
            };
            let offset = match self.read_i4() {
                Ok(v) => v,
                Err(e) => {
                    return Err(e);
                },
            };
            if let Some(last) = last_match {
                if value <= last {
                    proof {
                        assert(value as int == match_value(b, q as int, k as int));
                        assert(last as int == match_value(b, q as int, k - 1));
                    }
                    return Err(ParseError::UnorderedLookupswitch(value, last));
                }
            }
            pairs.push((value, offset));
            last_match = Some(value);
            k = k + 1;
        }
        let op = Operation::Lookupswitch(default_offset, npairs, pairs);
        assert(spec_opcode(op) == 171);
        Ok(op)
    }

    fn parse_tableswitch(&mut self, start: usize, address: u32) -> (res: Result<Operation, ParseError>)
        requires
            old(self).wf(),
            old(self).position() == start + 1,
            address < u32::MAX,
            fits(old(self).bytes(), start as int, 1),
            old(self).bytes()[start as int] == 170,
        ensures
            final(self).wf(),
            final(self).bytes() == old(self).bytes(),
            res matches Ok(op) ==> op_at(old(self).bytes(), start as int, op, address as int) == Some(final(self).position()),
            res is Err ==> !tableswitch_ok(old(self).bytes(), start as int, address as int),
            res matches Err(e) ==> e == tableswitch_error(old(self).bytes(), start as int, address as int),
    {
        let padding = (4 - ((address + 1) % 4)) % 4;
        assert(padding == switch_padding(address as int));
        if let Err(e) = self.skip_padding(padding) {
            return Err(e);
        }
        let q = self.pos;
        let default_offset = match self.read_i4() {
            Ok(v) => v,
            Err(e) => {
                return Err(e);
            },
        };
        let low = match self.read_i4() {
            Ok(v) => v,
            Err(e) => {
                return Err(e);
            },
        };
        let high = match self.read_i4() {
            Ok(v) => v,
            Err(e) => {
                return Err(e);
            },
        };
        if low > high {
            return Err(ParseError::TableswitchBounds(low, high));
        }
        let num_offsets: i64 = (high as i64) - (low as i64) + 1;
        let mut jump_offsets: Vec<i32> = Vec::new();
        let mut k: i64 = 0;
        while k < num_offsets
            invariant
                self.wf(),
                self.buf@ == old(self).buf@,
                q == start + 1 + switch_padding(address as int),
                low as int == be_i32(self.buf@, q + 4),
                high as int == be_i32(self.buf@, q + 8),
                0 <= k <= num_offsets,
                num_offsets == high - low + 1,
                jump_offsets@.len() == k,
                self.pos == q + 12 + 4 * k,
                fits(self.buf@, q as int, 12 + 4 * k),
                forall|i: int| 0 <= i < k ==> #[trigger] jump_offsets@[i] as int == be_i32(self.buf@, q + 12 + 4 * i),
            decreases num_offsets - k,
        {
            let offset = match self.read_i4() {
                Ok(v) => v,
                Err(e) => {
                    return Err(e);
                },
            };
            jump_offsets.push(offset);
            k = k + 1;
        }
        let op = Operation::Tableswitch(default_offset, low, high, jump_offsets);
        assert(spec_opcode(op) == 170);
        Ok(op)
    }

    /// Reads one instruction whose address in the code array is `address`;
    /// gives the number of bytes it takes and the operation. It fails
    /// exactly when no instruction is encoded there, with the error that
    /// `instruction_error` names.
    pub fn parse_instruction(&mut self, address: &u32) -> (res: Result<(usize, Operation), ParseError>)
        requires
            old(self).wf(),
            address < u32::MAX,
        ensures
            final(self).wf(),
            final(self).bytes() == old(self).bytes(),
            res matches Ok((n, op)) ==> final(self).position() == old(self).position() + n && n >= 1
                && op_at(old(self).bytes(), old(self).position(), op, address as int) == Some(final(self).position()),
            res is Err ==> !instruction_ok(old(self).bytes(), old(self).position(), address as int),
            res is Err ==> forall|op: Operation| op_at(old(self).bytes(), old(self).position(), op, address as int) is None,
            res matches Err(e) ==> e == instruction_error(old(self).bytes(), old(self).position(), address as int),
    {
        proof {
            assert forall|op: Operation| !instruction_ok(old(self).bytes(), old(self).position(), address as int)
                implies op_at(old(self).bytes(), old(self).position(), op, address as int) is None by {
                lemma_op_at(old(self).bytes(), old(self).position(), op, op, address as int);
            }
        }
        let start = self.pos;
        let op_code = match self.read_u1() {
            Ok(c) => c,
            Err(e) => {
                return Err(e);
            },
        };
        let instruction = if op_code == 0xab {
            match self.parse_lookupswitch(start, *address) {
                Ok(op) => op,
                Err(e) => {
                    return Err(e);
                },
            }
        } else if op_code == 0xaa {
            match self.parse_tableswitch(start, *address) {
                Ok(op) => op,
                Err(e) => {
                    return Err(e);
                },
            }
        } else {
            match operand_count(op_code) {
                None => {
                    return Err(ParseError::InvalidOpcode(op_code));
                },
                Some(k) => {
                    let operands = match self.read_n_bytes(k as usize) {
                        Ok(v) => v,
                        Err(e) => {
                            return Err(e);
                        },
                    };
                    let op = build_operation(op_code, operands.as_slice());
                    assert(op !is Lookupswitch && op !is Tableswitch);
                    op
                },
            }
        };
        Ok((self.pos - start, instruction))
    }

    fn parse_byte_code(&mut self, code_length: u32) -> (res: Result<Vec<Instruction>, ParseError>)
        requires
            old(self).wf(),
            code_length > 0,
        ensures
            final(self).wf(),
            final(self).bytes() == old(self).bytes(),
            res is Ok ==> final(self).position() >= old(self).position(),
            res matches Ok(code) ==> bytecode_at(old(self).bytes(), old(self).position(), code_length as int, code@)
                == Some(final(self).position()),
            res is Err ==> forall|code: Seq<Instruction>| bytecode_at(old(self).bytes(), old(self).position(), code_length as int, code) is None,
    {
        let start = self.pos;
        let mut address: u32 = 0;
        let mut instructions: Vec<Instruction> = Vec::new();
        loop
            invariant_except_break
                self.wf(),
                self.buf@ == old(self).buf@,
                start == old(self).pos,
                address < code_length,
                address as int == self.pos - start,
                instrs_at(self.buf@, start as int, instructions@) == Some(self.pos as int),
                forall|k: int| 0 < k < instructions@.len() ==> (#[trigger] instructions@[k]).0 < code_length,
            ensures
                self.wf(),
                self.buf@ == old(self).buf@,
                instructions@.len() > 0,
                self.pos == start + code_length,
                instrs_at(self.buf@, start as int, instructions@) == Some(self.pos as int),
                forall|k: int| 0 < k < instructions@.len() ==> (#[trigger] instructions@[k]).0 < code_length,
            decreases code_length - address,
        {
            let ghost before = instructions@;
            let ghost here = self.pos as int;
            let (instr_bytes, instruction) = match self.parse_instruction(&address) {
                Ok(r) => r,
                Err(e) => {
                    proof {
                        assert forall|code: Seq<Instruction>| bytecode_at(self.buf@, start as int, code_length as int, code) is None by {
                            if bytecode_at(self.buf@, start as int, code_length as int, code) is Some {
                                lemma_bytecode_next(self.buf@, start as int, code_length as int, before, here, code);
                            }
                        }
                    }
                    return Err(e);
                },
            };
            instructions.push(Instruction(address, instruction));
            assert(instructions@.drop_last() =~= before);
            if instr_bytes > (code_length - address) as usize {
                proof {
                    assert forall|code: Seq<Instruction>| bytecode_at(self.buf@, start as int, code_length as int, code) is None by {
                        if bytecode_at(self.buf@, start as int, code_length as int, code) is Some {
                            lemma_bytecode_next(self.buf@, start as int, code_length as int, before, here, code);
                            lemma_op_at(self.buf@, here, instruction, code[before.len() as int].1, address as int);
                        }
                    }
                }
                return Err(ParseError::BytecodeOverrun);
            }
            address = address + instr_bytes as u32;
            if address == code_length {
                break;
            }
        }
        Ok(instructions)
    }

    fn parse_exception_table(&mut self, exception_table_count: u16) -> (res: Result<Vec<ExceptionTableEntry>, ParseError>)
        requires
            old(self).wf(),
        ensures
            final(self).wf(),
            final(self).bytes() == old(self).bytes(),
            res is Ok ==> final(self).position() >= old(self).position(),
            res matches Ok(es) ==> es@.len() == exception_table_count
                && exception_entries_at(old(self).bytes(), old(self).position(), es@) == Some(final(self).position()),
            res is Err ==> forall|es: Seq<ExceptionTableEntry>| es.len() == exception_table_count
                ==> exception_entries_at(old(self).bytes(), old(self).position(), es) is None,
    {
        let start = self.pos;
        let mut exception_table: Vec<ExceptionTableEntry> = Vec::new();
        let mut k: u16 = 0;
        while k < exception_table_count
            invariant
                self.wf(),
                self.buf@ == old(self).buf@,
                start == old(self).pos,
                k <= exception_table_count,
                exception_table@.len() == k,
                self.pos == start + 8 * k,
                fits(self.buf@, start as int, 8 * k),
                forall|i: int| 0 <= i < k ==> {
                    &&& (#[trigger] exception_table@[i]).start_pc as int == be16(self.buf@, start + 8 * i)
                    &&& exception_table@[i].end_pc as int == be16(self.buf@, start + 8 * i + 2)
                    &&& exception_table@[i].handler_pc as int == be16(self.buf@, start + 8 * i + 4)
                    &&& exception_table@[i].catch_type as int == be16(self.buf@, start + 8 * i + 6)
                },
            decreases exception_table_count - k,
        {
            let start_pc = self.read_u2()?;
            let end_pc = self.read_u2()?;
            let handler_pc = self.read_u2()?;
            let catch_type = self.read_u2()?;
            let entry = ExceptionTableEntry { start_pc, end_pc, handler_pc, catch_type };
            exception_table.push(entry);
            k = k + 1;
        }
        Ok(exception_table)
    }

    fn parse_line_number_table_attribute(&mut self) -> (res: Result<AttributeInfo, ParseError>)
        requires
            old(self).wf(),
        ensures
            final(self).wf(),
            final(self).bytes() == old(self).bytes(),
            res is Ok ==> final(self).position() >= old(self).position(),
            res matches Ok(a) ==> a matches AttributeInfo::LineNumberTable(LineNumberTable(es))
                && fits(old(self).bytes(), old(self).position(), 2)
                && be16(old(self).bytes(), old(self).position()) == es@.len()
                && line_entries_at(old(self).bytes(), old(self).position() + 2, es@) == Some(final(self).position()),
            res is Err ==> forall|es: Seq<LineNumberTableEntry>| !(fits(old(self).bytes(), old(self).position(), 2)
                && be16(old(self).bytes(), old(self).position()) == es.len()
                && line_entries_at(old(self).bytes(), old(self).position() + 2, es) is Some),
    {
        let line_number_table_count = self.read_u2()?;
        let start = self.pos;
        let mut line_number_table: Vec<LineNumberTableEntry> = Vec::new();
        let mut k: u16 = 0;
        while k < line_number_table_count
            invariant
                self.wf(),
                self.buf@ == old(self).buf@,
                start == old(self).pos + 2,
                line_number_table_count as int == be16(self.buf@, start - 2),
                k <= line_number_table_count,
                line_number_table@.len() == k,
                self.pos == start + 4 * k,
                fits(self.buf@, start as int, 4 * k),
                forall|i: int| 0 <= i < k ==> {
                    &&& (#[trigger] line_number_table@[i]).start_pc as int == be16(self.buf@, start + 4 * i)
                    &&& line_number_table@[i].line_number as int == be16(self.buf@, start + 4 * i + 2)
                },
            decreases line_number_table_count - k,
        {
            let start_pc = self.read_u2()?;
            let line_number = self.read_u2()?;
            line_number_table.push(LineNumberTableEntry { start_pc, line_number });
            k = k + 1;
        }
        Ok(AttributeInfo::LineNumberTable(LineNumberTable(line_number_table)))
    }

    fn parse_bootstrap_method_attribute(&mut self) -> (res: Result<AttributeInfo, ParseError>)
        requires
            old(self).wf(),
        ensures
            final(self).wf(),
            final(self).bytes() == old(self).bytes(),
            res is Ok ==> final(self).position() >= old(self).position(),
            res matches Ok(a) ==> a matches AttributeInfo::BootstrapMethod(BootstrapMethod(es))
                && fits(old(self).bytes(), old(self).position(), 2)
                && be16(old(self).bytes(), old(self).position()) == es@.len()
                && bootstrap_entries_at(old(self).bytes(), old(self).position() + 2, es@) == Some(final(self).position()),
            res is Err ==> forall|es: Seq<BootstrapMethodEntry>| !(fits(old(self).bytes(), old(self).position(), 2)
                && be16(old(self).bytes(), old(self).position()) == es.len()
                && bootstrap_entries_at(old(self).bytes(), old(self).position() + 2, es) is Some),
    {
        let bootstrap_methods_count = self.read_u2()?;
        let start = self.pos;
        let mut bootstrap_methods: Vec<BootstrapMethodEntry> = Vec::new();
        let mut k: u16 = 0;
        while k < bootstrap_methods_count
            invariant
                self.wf(),
                self.buf@ == old(self).buf@,
                start == old(self).pos + 2,
                bootstrap_methods_count as int == be16(self.buf@, start - 2),
                k <= bootstrap_methods_count,
                bootstrap_methods@.len() == k,
                bootstrap_entries_at(self.buf@, start as int, bootstrap_methods@) == Some(self.pos as int),
                start <= self.pos,
            decreases bootstrap_methods_count - k,
        {
            let ghost before = bootstrap_methods@;
            let ghost here = self.pos as int;
            proof {
                assert forall|es: Seq<BootstrapMethodEntry>| #![trigger bootstrap_entries_at(self.buf@, start as int, es)]
                    es.len() == bootstrap_methods_count && bootstrap_entries_at(self.buf@, start as int, es) is Some
                    implies u16_at(self.buf@, here, es[k as int].bootstrap_method_ref)
                        && u16_list_at(self.buf@, here + 2, es[k as int].bootstrap_args@) is Some by {
                    lemma_bootstrap_next(self.buf@, start as int, before, here, es);
                }
            }
            let bootstrap_method_ref = self.read_u2()?;
            let bootstrap_args = self.read_u2_vec()?;
            bootstrap_methods.push(BootstrapMethodEntry { bootstrap_method_ref, bootstrap_args });
            assert(bootstrap_methods@.drop_last() =~= before);
            k = k + 1;
        }
        Ok(AttributeInfo::BootstrapMethod(BootstrapMethod(bootstrap_methods)))
    }

    fn parse_nest_host_attribute(&mut self) -> (res: Result<AttributeInfo, ParseError>)
        requires
            old(self).wf(),
        ensures
            final(self).wf(),
            final(self).bytes() == old(self).bytes(),
            res matches Ok(a) ==> a matches AttributeInfo::NestHost(NestHost(v))
                && u16_at(old(self).bytes(), old(self).position(), v)
                && final(self).position() == old(self).position() + 2,
            res is Err ==> forall|v: u16| !u16_at(old(self).bytes(), old(self).position(), v),
    {
        let host_class_index = self.read_u2()?;
        Ok(AttributeInfo::NestHost(NestHost(host_class_index)))
    }

    fn parse_nest_members_attribute(&mut self) -> (res: Result<AttributeInfo, ParseError>)
        requires
            old(self).wf(),
        ensures
            final(self).wf(),
            final(self).bytes() == old(self).bytes(),
            res is Ok ==> final(self).position() >= old(self).position(),
            res matches Ok(a) ==> a matches AttributeInfo::NestMembers(NestMembers(v))
                && u16_list_at(old(self).bytes(), old(self).position(), v@) == Some(final(self).position()),
            res is Err ==> forall|v: Seq<u16>| u16_list_at(old(self).bytes(), old(self).position(), v) is None,
    {
        let classes = self.read_u2_vec()?;
        Ok(AttributeInfo::NestMembers(NestMembers(classes)))
    }

    fn parse_permitted_subclasses_atttribute(&mut self) -> (res: Result<AttributeInfo, ParseError>)
        requires
            old(self).wf(),
        ensures
            final(self).wf(),
            final(self).bytes() == old(self).bytes(),
            res is Ok ==> final(self).position() >= old(self).position(),
            res matches Ok(a) ==> a matches AttributeInfo::PermitterSubclasses(PermitterSubclasses(v))
                && u16_list_at(old(self).bytes(), old(self).position(), v@) == Some(final(self).position()),
            res is Err ==> forall|v: Seq<u16>| u16_list_at(old(self).bytes(), old(self).position(), v) is None,
    {
        let classes = self.read_u2_vec()?;
        Ok(AttributeInfo::PermitterSubclasses(PermitterSubclasses(classes)))
    }

    fn parse_constant_value_attribute(&mut self, attribute_length: u32) -> (res: Result<AttributeInfo, ParseError>)
        requires
            old(self).wf(),
        ensures
            final(self).wf(),
            final(self).bytes() == old(self).bytes(),
            res matches Ok(a) ==> a matches AttributeInfo::ConstantValue(ConstantValue(v))
                && attribute_length == 2 && u16_at(old(self).bytes(), old(self).position(), v)
                && final(self).position() == old(self).position() + 2,
            res is Err ==> forall|v: u16| !(attribute_length == 2 && u16_at(old(self).bytes(), old(self).position(), v)),
    {
        if attribute_length == 2 {
            let constant_value_index = self.read_u2()?;
            Ok(AttributeInfo::ConstantValue(ConstantValue(constant_value_index)))
        } else {
            Err(ParseError::InvalidConstantValueLength(attribute_length))
        }
    }

    fn parse_remaining_attribute(&mut self, attribute_name_index: u16, attribute_length: u32)
        -> (res: Result<AttributeInfo, ParseError>)
        requires
            old(self).wf(),
        ensures
            final(self).wf(),
            final(self).bytes() == old(self).bytes(),
            res matches Ok(a) ==> a matches AttributeInfo::Attribute(RemainingAttribute { attribute_name_index: n, info })
                && n == attribute_name_index && fits(old(self).bytes(), old(self).position(), attribute_length as int)
                && info@ == old(self).bytes().subrange(old(self).position(), old(self).position() + attribute_length)
                && final(self).position() == old(self).position() + attribute_length,
            res is Err ==> !fits(old(self).bytes(), old(self).position(), attribute_length as int),
    {
        let info = self.read_n_bytes(attribute_length as usize)?;
        Ok(AttributeInfo::Attribute(RemainingAttribute { attribute_name_index, info }))
    }

    fn parse_code_attribute(&mut self, cp: &ConstantPool) -> (res: Result<AttributeInfo, ParseError>)
        requires
            old(self).wf(),
        ensures
            final(self).wf(),
            final(self).bytes() == old(self).bytes(),
            res is Ok ==> final(self).position() >= old(self).position(),
            res matches Ok(a) ==> a matches AttributeInfo::Code(c)
                && code_at(old(self).bytes(), old(self).position(), cp.entries(), *c) == Some(final(self).position()),
            res is Err ==> forall|c: Code| code_at(old(self).bytes(), old(self).position(), cp.entries(), c) is None,
        decreases old(self).bytes().len() - old(self).position(), 0int,
    {
        let max_stack = self.read_u2()?;
        let max_locals = self.read_u2()?;
        let code_length = self.read_u4()?;
        if code_length == 0 {
            return Err(ParseError::EmptyCode);
        }
        let code = self.parse_byte_code(code_length)?;
        let exception_table_count = self.read_u2()?;
        let exception_table = self.parse_exception_table(exception_table_count)?;
        let ghost here = self.pos as int;
        let attributes = match self.parse_attributes(cp) {
            Ok(a) => a,
            Err(e) => {
                proof {
                    assert forall|c: Code| code_at(self.buf@, old(self).pos as int, cp.entries(), c) is None by {
                        if code_at(self.buf@, old(self).pos as int, cp.entries(), c) is Some {
                            assert(attribute_list_at(self.buf@, here, cp.entries(), c.attributes@) is None);
                        }
                    }
                }
                return Err(e);
            },
        };
        let c = Code { max_stack, max_locals, code, exception_table, attributes };
        Ok(AttributeInfo::Code(Arc::new(c)))
    }

    fn parse_attributes(&mut self, cp: &ConstantPool) -> (res: Result<Vec<AttributeInfo>, ParseError>)
        requires
            old(self).wf(),
        ensures
            final(self).wf(),
            final(self).bytes() == old(self).bytes(),
            res is Ok ==> final(self).position() >= old(self).position(),
            res matches Ok(attrs) ==> attribute_list_at(old(self).bytes(), old(self).position(), cp.entries(), attrs@)
                == Some(final(self).position()),
            res is Err ==> forall|attrs: Seq<AttributeInfo>| attribute_list_at(old(self).bytes(), old(self).position(), cp.entries(), attrs) is None,
        decreases old(self).bytes().len() - old(self).position(), 2int,
    {
        let attributes_count = self.read_u2()?;
        let start = self.pos;
        let mut attributes: Vec<AttributeInfo> = Vec::new();
        let mut k: u16 = 0;
        while k < attributes_count
            invariant
                self.wf(),
                self.buf@ == old(self).buf@,
                start == old(self).pos + 2,
                start <= self.pos,
                attributes_count as int == be16(self.buf@, start - 2),
                k <= attributes_count,
                attributes@.len() == k,
                attributes_at(self.buf@, start as int, cp.entries(), attributes@) == Some(self.pos as int),
            decreases attributes_count - k,
        {
            let ghost before = attributes@;
            let ghost here = self.pos as int;
            let attribute = match self.parse_attribute_info(cp) {
                Ok(a) => a,
                Err(e) => {
                    proof {
                        assert forall|xs: Seq<AttributeInfo>|
                            attribute_list_at(self.buf@, old(self).pos as int, cp.entries(), xs) is None by {
                            if attribute_list_at(self.buf@, old(self).pos as int, cp.entries(), xs) is Some {
                                lemma_attribute_list_next(self.buf@, old(self).pos as int, cp.entries(), before, here, xs);
                            }
                        }
                    }
                    return Err(e);
                },
            };
            attributes.push(attribute);
            assert(attributes@.drop_last() =~= before);
            k = k + 1;
        }
        Ok(attributes)
    }

    fn parse_attribute_info(&mut self, cp: &ConstantPool) -> (res: Result<AttributeInfo, ParseError>)
        requires
            old(self).wf(),
        ensures
            final(self).wf(),
            final(self).bytes() == old(self).bytes(),
            res is Ok ==> final(self).position() >= old(self).position(),
            res matches Ok(a) ==> attribute_at(old(self).bytes(), old(self).position(), cp.entries(), a)
                == Some(final(self).position()),
            res is Err ==> forall|a: AttributeInfo| attribute_at(old(self).bytes(), old(self).position(), cp.entries(), a) is None,
        decreases old(self).bytes().len() - old(self).position(), 1int,
    {
        let attribute_name_index = self.read_u2()?;
        let attribute_length = self.read_u4()?;
        let attribute_name = match cp.get_underlying_string_from_utf8_index(attribute_name_index) {
            Some(s) => s.as_str(),
            None => {
                return Err(ParseError::AttributeNameNotUtf8(attribute_name_index));
            },
        };
        proof {
            reveal_strlit("ConstantValue");
            reveal_strlit("Code");
            reveal_strlit("LineNumberTable");
            reveal_strlit("BootstrapMethods");
            reveal_strlit("NestHost");
            reveal_strlit("NestMembers");
            reveal_strlit("PermittedSubclasses");
            assert("ConstantValue"@ =~= name_constant_value());
            assert("Code"@ =~= name_code());
            assert("LineNumberTable"@ =~= name_line_number_table());
            assert("BootstrapMethods"@ =~= name_bootstrap_methods());
            assert("NestHost"@ =~= name_nest_host());
            assert("NestMembers"@ =~= name_nest_members());
            assert("PermittedSubclasses"@ =~= name_permitted_subclasses());
        }
        let ghost b = self.buf@;
        let ghost p = old(self).pos as int;
        let ghost name = attribute_name@;
        let res = if str_eq(attribute_name, "ConstantValue") {
            self.parse_constant_value_attribute(attribute_length)
        } else if str_eq(attribute_name, "Code") {
            self.parse_code_attribute(cp)
        } else if str_eq(attribute_name, "LineNumberTable") {
            self.parse_line_number_table_attribute()
        } else if str_eq(attribute_name, "BootstrapMethods") {
            self.parse_bootstrap_method_attribute()
        } else if str_eq(attribute_name, "NestHost") {
            self.parse_nest_host_attribute()
        } else if str_eq(attribute_name, "NestMembers") {
            self.parse_nest_members_attribute()
        } else if str_eq(attribute_name, "PermittedSubclasses") {
            self.parse_permitted_subclasses_atttribute()
        } else {
            self.parse_remaining_attribute(attribute_name_index, attribute_length)
        };
        proof {
            if res is Err {
                assert forall|a: AttributeInfo| attribute_at(b, p, cp.entries(), a) is None by {
                    assert(spec_utf8(cp.entries(), be16(b, p) as u16) == Some(name));
                    match a {
                        AttributeInfo::Code(c) => {
                            if name == name_code() {
                                assert(code_at(b, p + 6, cp.entries(), *c) is None);
                            }
                        },
                        AttributeInfo::LineNumberTable(LineNumberTable(es)) => {
                            if name == name_line_number_table() {
                                assert(!(fits(b, p + 6, 2) && be16(b, p + 6) == es@.len() && line_entries_at(b, p + 8, es@) is Some));
                            }
                        },
                        AttributeInfo::BootstrapMethod(BootstrapMethod(es)) => {
                            if name == name_bootstrap_methods() {
                                assert(!(fits(b, p + 6, 2) && be16(b, p + 6) == es@.len() && bootstrap_entries_at(b, p + 8, es@) is Some));
                            }
                        },
                        AttributeInfo::NestMembers(NestMembers(v)) => {
                            if name == name_nest_members() {
                                assert(u16_list_at(b, p + 6, v@) is None);
                            }
                        },
                        AttributeInfo::PermitterSubclasses(PermitterSubclasses(v)) => {
                            if name == name_permitted_subclasses() {
                                assert(u16_list_at(b, p + 6, v@) is None);
                            }
                        },
                        _ => {},
                    }
                }
            }
        }
        res
    }

    fn parse_field_info(&mut self, cp: &ConstantPool) -> (res: Result<FieldInfo, ParseError>)
        requires
            old(self).wf(),
        ensures
            final(self).wf(),
            final(self).bytes() == old(self).bytes(),
            res is Ok ==> final(self).position() >= old(self).position(),
            res matches Ok(m) ==> field_at(old(self).bytes(), old(self).position(), cp.entries(), m) == Some(final(self).position()),
            res is Err ==> forall|x: FieldInfo| field_at(old(self).bytes(), old(self).position(), cp.entries(), x) is None,
    {
        let flag_value = self.read_u2()?;
        let access_flags = match FieldFlags::from_bits(flag_value) {
            Some(f) => f,
            None => {
                return Err(ParseError::InvalidAccessFlags(flag_value));
            },
        };
        let name_index = self.read_u2()?;
        let descriptor_index = self.read_u2()?;
        let attributes_count = self.read_u2()?;
        let start = self.pos;
        let mut attributes: Vec<AttributeInfo> = Vec::new();
        let mut k: u16 = 0;
        while k < attributes_count
            invariant
                self.wf(),
                self.buf@ == old(self).buf@,
                start == old(self).pos + 8,
                start <= self.pos,
                fits(self.buf@, old(self).pos as int, 8),
                attributes_count as int == be16(self.buf@, old(self).pos + 6),
                k <= attributes_count,
                attributes@.len() == k,
                attributes_at(self.buf@, start as int, cp.entries(), attributes@) == Some(self.pos as int),
            decreases attributes_count - k,
        {
            let ghost before = attributes@;
            let ghost here = self.pos as int;
            let attribute = match self.parse_attribute_info(cp) {
                Ok(a) => a,
                Err(e) => {
                    proof {
                        assert forall|x: FieldInfo| field_at(self.buf@, old(self).pos as int, cp.entries(), x) is None by {
                            if field_at(self.buf@, old(self).pos as int, cp.entries(), x) is Some {
                                lemma_field_attribute_next(self.buf@, old(self).pos as int, cp.entries(), before, here, x);
                            }
                        }
                    }
                    return Err(e);
                },
            };
            attributes.push(attribute);
            assert(attributes@.drop_last() =~= before);
            k = k + 1;
        }
        Ok(FieldInfo { access_flags, name_index, descriptor_index, attributes_count, attributes })
    }

    fn parse_method_info(&mut self, cp: &ConstantPool) -> (res: Result<MethodInfo, ParseError>)
        requires
            old(self).wf(),
        ensures
            final(self).wf(),
            final(self).bytes() == old(self).bytes(),
            res is Ok ==> final(self).position() >= old(self).position(),
            res matches Ok(m) ==> method_at(old(self).bytes(), old(self).position(), cp.entries(), m) == Some(final(self).position()),
            res is Err ==> forall|x: MethodInfo| method_at(old(self).bytes(), old(self).position(), cp.entries(), x) is None,
    {
        let flag_value = self.read_u2()?;
        let access_flags = match MethodFlags::from_bits(flag_value) {
            Some(f) => f,
            None => {
                return Err(ParseError::InvalidAccessFlags(flag_value));
            },
        };
        let name_index = self.read_u2()?;
        let descriptor_index = self.read_u2()?;
        let attributes_count = self.read_u2()?;
        let start = self.pos;
        let mut attributes: Vec<AttributeInfo> = Vec::new();
        let mut k: u16 = 0;
        while k < attributes_count
            invariant
                self.wf(),
                self.buf@ == old(self).buf@,
                start == old(self).pos + 8,
                start <= self.pos,
                fits(self.buf@, old(self).pos as int, 8),
                attributes_count as int == be16(self.buf@, old(self).pos + 6),
                k <= attributes_count,
                attributes@.len() == k,
                attributes_at(self.buf@, start as int, cp.entries(), attributes@) == Some(self.pos as int),
            decreases attributes_count - k,
        {
            let ghost before = attributes@;
            let ghost here = self.pos as int;
            let attribute = match self.parse_attribute_info(cp) {
                Ok(a) => a,
                Err(e) => {
                    proof {
                        assert forall|x: MethodInfo| method_at(self.buf@, old(self).pos as int, cp.entries(), x) is None by {
                            if method_at(self.buf@, old(self).pos as int, cp.entries(), x) is Some {
                                lemma_method_attribute_next(self.buf@, old(self).pos as int, cp.entries(), before, here, x);
                            }
                        }
                    }
                    return Err(e);
                },
            };
            attributes.push(attribute);
            assert(attributes@.drop_last() =~= before);
            k = k + 1;
        }
        Ok(MethodInfo { access_flags, name_index, descriptor_index, attributes_count, attributes })
    }

    fn parse_fields(&mut self, cp: &ConstantPool) -> (res: Result<Vec<FieldInfo>, ParseError>)
        requires
            old(self).wf(),
        ensures
            final(self).wf(),
            final(self).bytes() == old(self).bytes(),
            res matches Ok(ms) ==> fits(old(self).bytes(), old(self).position(), 2)
                && be16(old(self).bytes(), old(self).position()) == ms@.len()
                && fields_at(old(self).bytes(), old(self).position() + 2, cp.entries(), ms@) == Some(final(self).position()),
            res is Err ==> forall|xs: Seq<FieldInfo>| !(fits(old(self).bytes(), old(self).position(), 2)
                && be16(old(self).bytes(), old(self).position()) == xs.len()
                && fields_at(old(self).bytes(), old(self).position() + 2, cp.entries(), xs) is Some),
    {
        let count = self.read_u2()?;
        let start = self.pos;
        let mut items: Vec<FieldInfo> = Vec::new();
        let mut k: u16 = 0;
        while k < count
            invariant
                self.wf(),
                self.buf@ == old(self).buf@,
                start == old(self).pos + 2,
                count as int == be16(self.buf@, old(self).pos as int),
                k <= count,
                items@.len() == k,
                fields_at(self.buf@, start as int, cp.entries(), items@) == Some(self.pos as int),
            decreases count - k,
        {
            let ghost before = items@;
            let ghost here = self.pos as int;
            let item = match self.parse_field_info(cp) {
                Ok(x) => x,
                Err(e) => {
                    proof {
                        assert forall|xs: Seq<FieldInfo>| !(fits(self.buf@, old(self).pos as int, 2)
                            && be16(self.buf@, old(self).pos as int) == xs.len()
                            && fields_at(self.buf@, start as int, cp.entries(), xs) is Some) by {
                            if be16(self.buf@, old(self).pos as int) == xs.len() && fields_at(self.buf@, start as int, cp.entries(), xs) is Some {
                                lemma_fields_next(self.buf@, start as int, cp.entries(), before, here, xs);
                            }
                        }
                    }
                    return Err(e);
                },
            };
            items.push(item);
            assert(items@.drop_last() =~= before);
            k = k + 1;
        }
        Ok(items)
    }

    fn parse_methods(&mut self, cp: &ConstantPool) -> (res: Result<Vec<MethodInfo>, ParseError>)
        requires
            old(self).wf(),
        ensures
            final(self).wf(),
            final(self).bytes() == old(self).bytes(),
            res matches Ok(ms) ==> fits(old(self).bytes(), old(self).position(), 2)
                && be16(old(self).bytes(), old(self).position()) == ms@.len()
                && methods_at(old(self).bytes(), old(self).position() + 2, cp.entries(), ms@) == Some(final(self).position()),
            res is Err ==> forall|xs: Seq<MethodInfo>| !(fits(old(self).bytes(), old(self).position(), 2)
                && be16(old(self).bytes(), old(self).position()) == xs.len()
                && methods_at(old(self).bytes(), old(self).position() + 2, cp.entries(), xs) is Some),
    {
        let count = self.read_u2()?;
        let start = self.pos;
        let mut items: Vec<MethodInfo> = Vec::new();
        let mut k: u16 = 0;
        while k < count
            invariant
                self.wf(),
                self.buf@ == old(self).buf@,
                start == old(self).pos + 2,
                count as int == be16(self.buf@, old(self).pos as int),
                k <= count,
                items@.len() == k,
                methods_at(self.buf@, start as int, cp.entries(), items@) == Some(self.pos as int),
            decreases count - k,
        {
            let ghost before = items@;
            let ghost here = self.pos as int;
            let item = match self.parse_method_info(cp) {
                Ok(x) => x,
                Err(e) => {
                    proof {
                        assert forall|xs: Seq<MethodInfo>| !(fits(self.buf@, old(self).pos as int, 2)
                            && be16(self.buf@, old(self).pos as int) == xs.len()
                            && methods_at(self.buf@, start as int, cp.entries(), xs) is Some) by {
                            if be16(self.buf@, old(self).pos as int) == xs.len() && methods_at(self.buf@, start as int, cp.entries(), xs) is Some {
                                lemma_methods_next(self.buf@, start as int, cp.entries(), before, here, xs);
                            }
                        }
                    }
                    return Err(e);
                },
            };
            items.push(item);
            assert(items@.drop_last() =~= before);
            k = k + 1;
        }
        Ok(items)
    }

    /// Decodes the whole class file. Bytes after the class file's last
    /// attribute are not looked at. It fails exactly when the bytes begin
    /// with no class file.
    pub fn parse(self) -> (res: Result<ClassFile, ParseError>)
        requires
            self.wf(),
            self.position() == 0,
        ensures
            res matches Ok(cf) ==> class_file_at(self.bytes(), cf),
            res is Err ==> forall|cf: ClassFile| !class_file_at(self.bytes(), cf),
    {
        let mut reader = self;
        reader.parse_class_file()
    }

    #[verifier::spinoff_prover]
    #[verifier::rlimit(80)]
    fn parse_class_file(&mut self) -> (res: Result<ClassFile, ParseError>)
        requires
            old(self).wf(),
            old(self).position() == 0,
        ensures
            res matches Ok(cf) ==> class_file_at(old(self).bytes(), cf),
            res is Err ==> forall|cf: ClassFile| !class_file_at(old(self).bytes(), cf),
    {
        let ghost b = self.buf@;
        let magic = self.read_u4()?;
        let minor = self.read_u2()?;
        let major = self.read_u2()?;
        let version = ClassVersion::from_pair((minor, major));
        let constant_pool = self.parse_constant_pool()?;
        let ghost cp = constant_pool.entries();
        let ghost p1 = self.pos as int;
        let ghost p2 = p1 + 8 + 2 * be16(b, p1 + 6);
        let flags = match self.read_u2() {
            Ok(f) => f,
            Err(e) => {
                proof {
                    assert forall|cf: ClassFile| !class_file_at(b, cf) by {
                        if class_file_at(b, cf) {
                            lemma_class_file_layout(b, cf, cp, p1);
                        }
                    }
                }
                return Err(e);
            },
        };
        let access_flags = match ClassFlags::from_bits(flags) {
            Some(f) => f,
            None => {
                proof {
                    assert forall|cf: ClassFile| !class_file_at(b, cf) by {
                        if class_file_at(b, cf) {
                            lemma_class_file_layout(b, cf, cp, p1);
                        }
                    }
                }
                return Err(ParseError::InvalidAccessFlags(flags));
            },
        };
        let this_class = self.read_u2();
        let super_class = self.read_u2();
        let interfaces = self.read_u2_vec();
        let (this_class, super_class, interfaces) = match (this_class, super_class, interfaces) {
            (Ok(t), Ok(s), Ok(i)) => (t, s, i),
            (Err(e), _, _) | (_, Err(e), _) | (_, _, Err(e)) => {
                proof {
                    assert forall|cf: ClassFile| !class_file_at(b, cf) by {
                        if class_file_at(b, cf) {
                            lemma_class_file_layout(b, cf, cp, p1);
                        }
                    }
                }
                return Err(e);
            },
        };
        assert(self.pos == p2);
        let fields = match self.parse_fields(&constant_pool) {
            Ok(f) => f,
            Err(e) => {
                proof {
                    assert forall|cf: ClassFile| !class_file_at(b, cf) by {
                        if class_file_at(b, cf) {
                            lemma_class_file_layout(b, cf, cp, p1);
                        }
                    }
                }
                return Err(e);
            },
        };
        let ghost p3 = self.pos as int;
        let methods = match self.parse_methods(&constant_pool) {
            Ok(m) => m,
            Err(e) => {
                proof {
                    assert forall|cf: ClassFile| !class_file_at(b, cf) by {
                        if class_file_at(b, cf) {
                            lemma_class_file_layout(b, cf, cp, p1);
                            lemma_fields_end(b, p2 + 2, cp, cf.fields@, fields@);
                        }
                    }
                }
                return Err(e);
            },
        };
        let ghost p4 = self.pos as int;
        let attributes = match self.parse_attributes(&constant_pool) {
            Ok(a) => a,
            Err(e) => {
                proof {
                    assert forall|cf: ClassFile| !class_file_at(b, cf) by {
                        if class_file_at(b, cf) {
                            lemma_class_file_layout(b, cf, cp, p1);
                            lemma_fields_end(b, p2 + 2, cp, cf.fields@, fields@);
                            lemma_methods_end(b, p3 + 2, cp, cf.methods@, methods@);
                        }
                    }
                }
                return Err(e);
            },
        };
        Ok(ClassFile {
            magic,
            version,
            constant_pool,
            access_flags,
            this_class,
            super_class,
            interfaces,
            fields,
            methods,
            attributes,
        })
    }
}

} // verus!