//! The byte layout of a class file, stated as predicates that say whether a
//! decoded value is what a given stretch of bytes encodes, and where that
//! stretch ends.

use vstd::prelude::*;
use std::sync::Arc;
use crate::access_flag::{within_mask, CLASS_FLAG_MASK, FIELD_FLAG_MASK, METHOD_FLAG_MASK};
use crate::attribute::{
    AttributeInfo, BootstrapMethod, BootstrapMethodEntry, Code, ConstantValue, ExceptionTableEntry,
    LineNumberTable, LineNumberTableEntry, NestHost, NestMembers, PermitterSubclasses, RemainingAttribute,
};
use crate::class_file::{spec_class_names, ClassFile};
use crate::constant_pool::{
    spec_utf8, ConstantClassInfo, ConstantDoubleInfo, ConstantDynamicInfo, ConstantFieldRefInfo,
    ConstantFloatInfo, ConstantInfo, ConstantIntegerInfo, ConstantInterfaceMethodRefInfo,
    ConstantInvokeDynamicInfo, ConstantLongInfo, ConstantMethodHandleInfo, ConstantMethodRefInfo,
    ConstantMethodTypeInfo, ConstantModuleInfo, ConstantNameAndTypeInfo, ConstantPackageInfo,
    ConstantStringInfo, ConstantUtf8Info, FieldInfo, MethodInfo,
};
use crate::instruction::{spec_opcode, spec_operand_count, spec_operands, Instruction, Operation};

verus! {

/// What decoding a modified UTF-8 string gives: the characters, or `None`
/// for bytes that are no modified UTF-8.
pub uninterp spec fn java_utf8_decode(bytes: Seq<u8>) -> Option<Seq<char>>;

/// Whether `n` bytes are available at `p`.
pub open spec fn fits(b: Seq<u8>, p: int, n: int) -> bool {
    0 <= p && 0 <= n && p + n <= b.len()
}

/// The big-endian unsigned value of the two bytes at `p`.
pub open spec fn be16(b: Seq<u8>, p: int) -> int {
    b[p] as int * 256 + b[p + 1] as int
}

/// The big-endian unsigned value of the four bytes at `p`.
pub open spec fn be32(b: Seq<u8>, p: int) -> int {
    be16(b, p) * 65536 + be16(b, p + 2)
}

/// The big-endian two's complement value of the four bytes at `p`.
pub open spec fn be_i32(b: Seq<u8>, p: int) -> int {
    if be32(b, p) >= 0x8000_0000 { be32(b, p) - 0x1_0000_0000 } else { be32(b, p) }
}

/// The big-endian unsigned value of the eight bytes at `p`.
pub open spec fn be64(b: Seq<u8>, p: int) -> int {
    be32(b, p) * 0x1_0000_0000 + be32(b, p + 4)
}

/// The big-endian two's complement value of the eight bytes at `p`.
pub open spec fn be_i64(b: Seq<u8>, p: int) -> int {
    if be64(b, p) >= 0x8000_0000_0000_0000 { be64(b, p) - 0x1_0000_0000_0000_0000 } else { be64(b, p) }
}

/// Two bytes at `p` that hold `v`.
pub open spec fn u16_at(b: Seq<u8>, p: int, v: u16) -> bool {
    fits(b, p, 2) && v as int == be16(b, p)
}

/// The end of a pair of `u16` values `(x, y)` at `q`.
pub open spec fn u16_pair_body(b: Seq<u8>, q: int, x: u16, y: u16) -> Option<int> {
    if u16_at(b, q, x) && u16_at(b, q + 2, y) { Some(q + 4) } else { None }
}

/// The end of a single `u16` value `x` at `q`.
pub open spec fn u16_body(b: Seq<u8>, q: int, x: u16) -> Option<int> {
    if u16_at(b, q, x) { Some(q + 2) } else { None }
}

/// The tag byte that starts the constant `c`.
pub open spec fn spec_constant_tag(c: ConstantInfo) -> u8 {
    match c {
        ConstantInfo::Class(_) => 7,
        ConstantInfo::FieldRef(_) => 9,
        ConstantInfo::Methodref(_) => 10,
        ConstantInfo::InterfaceMethodRef(_) => 11,
        ConstantInfo::String(_) => 8,
        ConstantInfo::Integer(_) => 3,
        ConstantInfo::Float(_) => 4,
        ConstantInfo::Long(_) => 5,
        ConstantInfo::Double(_) => 6,
        ConstantInfo::NameAndType(_) => 12,
        ConstantInfo::Utf8(_) => 1,
        ConstantInfo::MethodHandle(_) => 15,
        ConstantInfo::MethodType(_) => 16,
        ConstantInfo::Dynamic(_) => 17,
        ConstantInfo::InvokeDynamic(_) => 18,
        ConstantInfo::Module(_) => 19,
        ConstantInfo::Package(_) => 20,
    }
}

/// The end of the body of the constant `c` (what follows its tag) at `q`.
pub open spec fn constant_body_at(b: Seq<u8>, q: int, c: ConstantInfo) -> Option<int> {
    match c {
        ConstantInfo::Class(ConstantClassInfo(i)) => u16_body(b, q, i),
        ConstantInfo::FieldRef(ConstantFieldRefInfo { class_index, name_and_type_index }) =>
            u16_pair_body(b, q, class_index, name_and_type_index),
        ConstantInfo::Methodref(ConstantMethodRefInfo { class_index, name_and_type_index }) =>
            u16_pair_body(b, q, class_index, name_and_type_index),
        ConstantInfo::InterfaceMethodRef(ConstantInterfaceMethodRefInfo { class_index, name_and_type_index }) =>
            u16_pair_body(b, q, class_index, name_and_type_index),
        ConstantInfo::String(ConstantStringInfo { string_index }) => u16_body(b, q, string_index),
        ConstantInfo::Integer(ConstantIntegerInfo(v)) =>
            if fits(b, q, 4) && v as int == be_i32(b, q) { Some(q + 4) } else { None },
        ConstantInfo::Float(ConstantFloatInfo(bits)) =>
            if fits(b, q, 4) && bits as int == be32(b, q) { Some(q + 4) } else { None },
        ConstantInfo::Long(ConstantLongInfo(v)) =>
            if fits(b, q, 8) && v as int == be_i64(b, q) { Some(q + 8) } else { None },
        ConstantInfo::Double(ConstantDoubleInfo(bits)) =>
            if fits(b, q, 8) && bits as int == be64(b, q) { Some(q + 8) } else { None },
        ConstantInfo::NameAndType(ConstantNameAndTypeInfo { name_index, descriptor_index }) =>
            u16_pair_body(b, q, name_index, descriptor_index),
        ConstantInfo::Utf8(ConstantUtf8Info(s)) =>
            if fits(b, q, 2) && fits(b, q + 2, be16(b, q))
                && java_utf8_decode(b.subrange(q + 2, q + 2 + be16(b, q))) == Some(s@) {
                Some(q + 2 + be16(b, q))
            } else {
                None
            },
        ConstantInfo::MethodHandle(ConstantMethodHandleInfo { reference_kind, reference_index }) =>
            if fits(b, q, 1) && reference_kind == b[q] && u16_at(b, q + 1, reference_index) { Some(q + 3) } else { None },
        ConstantInfo::MethodType(ConstantMethodTypeInfo { descriptor_index }) => u16_body(b, q, descriptor_index),
        ConstantInfo::Dynamic(ConstantDynamicInfo { bootstrap_method_attr_index, name_and_type_index }) =>
            u16_pair_body(b, q, bootstrap_method_attr_index, name_and_type_index),
        ConstantInfo::InvokeDynamic(ConstantInvokeDynamicInfo { bootstrap_method_attr_index, name_and_type_index }) =>
            u16_pair_body(b, q, bootstrap_method_attr_index, name_and_type_index),
        ConstantInfo::Module(ConstantModuleInfo { name_index }) => u16_body(b, q, name_index),
        ConstantInfo::Package(ConstantPackageInfo { name_index }) => u16_body(b, q, name_index),
    }
}

/// The end of the constant pool entry `c` when it is encoded at `p`.
pub open spec fn constant_at(b: Seq<u8>, p: int, c: ConstantInfo) -> Option<int> {
    if fits(b, p, 1) && b[p] == spec_constant_tag(c) { constant_body_at(b, p + 1, c) } else { None }
}

/// Whether a constant takes two slots of the pool (`long` and `double`).
pub open spec fn is_wide(c: ConstantInfo) -> bool {
    c is Long || c is Double
}

/// The end of the pool entries `entries` encoded from `p`, the first
/// first. A wide constant is read once and stands twice in a row in the
/// entries.
pub open spec fn pool_at(b: Seq<u8>, p: int, entries: Seq<ConstantInfo>) -> Option<int>
    decreases entries.len(),
{
    if entries.len() == 0 {
        Some(p)
    } else {
        match constant_at(b, p, entries[0]) {
            None => None,
            Some(q) => if is_wide(entries[0]) {
                if entries.len() >= 2 && entries[1] == entries[0] {
                    pool_at(b, q, entries.skip(2))
                } else {
                    None
                }
            } else {
                pool_at(b, q, entries.skip(1))
            },
        }
    }
}

/// The entries that reading the constant `c` adds to the pool: `c`, twice
/// when it is wide.
pub open spec fn pool_slots(c: ConstantInfo) -> Seq<ConstantInfo> {
    if is_wide(c) { seq![c, c] } else { seq![c] }
}

/// The string of a `Utf8` constant; `None` for any other.
pub open spec fn utf8_of(c: ConstantInfo) -> Option<Seq<char>> {
    match c {
        ConstantInfo::Utf8(ConstantUtf8Info(s)) => Some(s@),
        _ => None,
    }
}

/// Whether two constants are the same: equal, or, for two `Utf8`
/// constants, holding the same string.
pub open spec fn entry_agree(c1: ConstantInfo, c2: ConstantInfo) -> bool {
    &&& is_wide(c1) == is_wide(c2)
    &&& utf8_of(c1) == utf8_of(c2)
    &&& !(c1 is Utf8) ==> c1 == c2
}

/// Whether two pools have as many entries, each pair agreeing.
pub open spec fn pools_agree(e1: Seq<ConstantInfo>, e2: Seq<ConstantInfo>) -> bool {
    &&& e1.len() == e2.len()
    &&& forall|j: int| 0 <= j < e1.len() ==> entry_agree(#[trigger] e1[j], e2[j])
}

/// Two constants read at `p` end at the same byte and agree.
pub proof fn lemma_constant_end(b: Seq<u8>, p: int, c1: ConstantInfo, c2: ConstantInfo)
    requires
        constant_at(b, p, c1) is Some,
        constant_at(b, p, c2) is Some,
    ensures
        constant_at(b, p, c1) == constant_at(b, p, c2),
        entry_agree(c1, c2),
{
}

/// Reading one more constant after a pool that ends at `q` extends it.
pub proof fn lemma_pool_append(b: Seq<u8>, p: int, entries: Seq<ConstantInfo>, q: int, c: ConstantInfo)
    requires
        pool_at(b, p, entries) == Some(q),
        constant_at(b, q, c) is Some,
    ensures
        pool_at(b, p, entries + pool_slots(c)) == constant_at(b, q, c),
    decreases entries.len(),
{
    let all = entries + pool_slots(c);
    if entries.len() == 0 {
        assert(all =~= pool_slots(c));
        let w: int = if is_wide(c) { 2 } else { 1 };
        assert(all.skip(w) =~= Seq::<ConstantInfo>::empty());
        let r = constant_at(b, q, c)->0;
        assert(pool_at(b, r, all.skip(w)) == Some(r));
        assert(all[0] == c);
        if is_wide(c) {
            assert(all[1] == c);
        }
    } else {
        let r = constant_at(b, p, entries[0])->0;
        let w: int = if is_wide(entries[0]) { 2 } else { 1 };
        assert(all[0] == entries[0]);
        if is_wide(entries[0]) {
            assert(all[1] == entries[1]);
        }
        assert(all.skip(w) =~= entries.skip(w) + pool_slots(c));
        lemma_pool_append(b, r, entries.skip(w), q, c);
    }
}

/// A pool `done` read from `p` up to `q` is, up to agreement, the start of
/// any pool at least as long read from `p`; the rest of that pool is read
/// from `q`.
pub proof fn lemma_pool_follows(b: Seq<u8>, p: int, done: Seq<ConstantInfo>, q: int, e: Seq<ConstantInfo>)
    requires
        pool_at(b, p, done) == Some(q),
        pool_at(b, p, e) is Some,
        e.len() >= done.len(),
    ensures
        pool_at(b, q, e.skip(done.len() as int)) == pool_at(b, p, e),
        pools_agree(e.take(done.len() as int), done),
    decreases done.len(),
{
    if done.len() == 0 {
        assert(e.skip(0) =~= e);
    } else {
        lemma_constant_end(b, p, done[0], e[0]);
        let r = constant_at(b, p, done[0])->0;
        let w: int = if is_wide(done[0]) { 2 } else { 1 };
        lemma_pool_follows(b, r, done.skip(w), q, e.skip(w));
        assert(e.skip(w).skip(done.len() - w) =~= e.skip(done.len() as int));
        assert forall|j: int| 0 <= j < done.len() implies entry_agree(#[trigger] e.take(done.len() as int)[j], done[j]) by {
            if j >= w {
                assert(e.take(done.len() as int)[j] == e.skip(w).take(done.len() - w)[j - w]);
                assert(done[j] == done.skip(w)[j - w]);
            }
        }
    }
}

/// In any complete pool of `count` slots read from `p`, the constant after
/// the first entries, `done`, which end at `q` and leave slots to fill, is
/// read at `q`.
pub proof fn lemma_pool_next(b: Seq<u8>, p: int, count: int, done: Seq<ConstantInfo>, q: int, e: Seq<ConstantInfo>)
    requires
        pool_at(b, p, done) == Some(q),
        done.len() + 1 < count,
        pool_complete(b, p, count, e) is Some,
    ensures
        done.len() < e.len(),
        constant_at(b, q, e[done.len() as int]) is Some,
{
    lemma_pool_follows(b, p, done, q, e);
    let rest = e.skip(done.len() as int);
    assert(rest[0] == e[done.len() as int]);
}

/// The number of pool slots that the last constant of `entries` takes.
pub open spec fn last_width(entries: Seq<ConstantInfo>) -> int {
    if entries.len() > 0 && is_wide(entries.last()) { 2 } else { 1 }
}

/// The end of a constant pool of `count` slots (slot 0 is not stored): the
/// reading goes on while fewer than `count - 1` slots are filled.
pub open spec fn pool_complete(b: Seq<u8>, p: int, count: int, entries: Seq<ConstantInfo>) -> Option<int> {
    if entries.len() + 1 >= count && (entries.len() == 0 || entries.len() - last_width(entries) + 1 < count) {
        pool_at(b, p, entries)
    } else {
        None
    }
}

/// The end of `v.len()` big-endian `u16` values at `p`.
pub open spec fn u16s_at(b: Seq<u8>, p: int, v: Seq<u16>) -> Option<int> {
    if fits(b, p, (2 * v.len()) as int) && forall|i: int| 0 <= i < v.len() ==> #[trigger] v[i] as int == be16(b, p + 2 * i) {
        Some(p + 2 * v.len())
    } else {
        None
    }
}

/// The end of a `u16` count followed by that many `u16` values.
pub open spec fn u16_list_at(b: Seq<u8>, p: int, v: Seq<u16>) -> Option<int> {
    if fits(b, p, 2) && be16(b, p) == v.len() { u16s_at(b, p + 2, v) } else { None }
}

/// The padding that aligns the operands of a switch at `address` to four bytes.
pub open spec fn switch_padding(address: int) -> int {
    (4 - ((address + 1) % 4)) % 4
}

/// The end of the instruction `op` at byte `p`, whose address in the code array is `address`.
pub open spec fn op_at(b: Seq<u8>, p: int, op: Operation, address: int) -> Option<int> {
    if !fits(b, p, 1) || b[p] != spec_opcode(op) {
        None
    } else {
        match op {
            Operation::Lookupswitch(default_offset, npairs, pairs) => {
                let q = p + 1 + switch_padding(address);
                if fits(b, q, 8) && default_offset as int == be_i32(b, q) && npairs as int == be_i32(b, q + 4)
                    && npairs >= 0 && pairs@.len() == npairs && fits(b, q + 8, (8 * pairs@.len()) as int)
                    && (forall|i: int| 0 <= i < pairs@.len() ==>
                        (#[trigger] pairs@[i]).0 as int == be_i32(b, q + 8 + 8 * i)
                        && pairs@[i].1 as int == be_i32(b, q + 12 + 8 * i))
                    && (forall|i: int, j: int| 0 <= i < j < pairs@.len() ==> #[trigger] pairs@[i].0 < #[trigger] pairs@[j].0) {
                    Some(q + 8 + 8 * pairs@.len())
                } else {
                    None
                }
            },
            Operation::Tableswitch(default_offset, low, high, offsets) => {
                let q = p + 1 + switch_padding(address);
                if fits(b, q, 12) && default_offset as int == be_i32(b, q) && low as int == be_i32(b, q + 4)
                    && high as int == be_i32(b, q + 8) && low <= high && offsets@.len() == high - low + 1
                    && fits(b, q + 12, (4 * offsets@.len()) as int)
                    && forall|i: int| 0 <= i < offsets@.len() ==> #[trigger] offsets@[i] as int == be_i32(b, q + 12 + 4 * i) {
                    Some(q + 12 + 4 * offsets@.len())
                } else {
                    None
                }
            },
            _ => {
                let k = spec_operands(op).len();
                if spec_operand_count(b[p]) == Some(k) && fits(b, p + 1, k as int)
                    && b.subrange(p + 1, p + 1 + k) == spec_operands(op) {
                    Some(p + 1 + k)
                } else {
                    None
                }
            },
        }
    }
}

/// The match value of pair `i` of a `lookupswitch` whose operands start at `q`.
pub open spec fn match_value(b: Seq<u8>, q: int, i: int) -> int {
    be_i32(b, q + 8 + 8 * i)
}

/// Whether the bytes at `p` can start a `lookupswitch` at `address`: its
/// operands are there, its number of pairs is not negative, and its match
/// values strictly increase.
pub open spec fn lookupswitch_ok(b: Seq<u8>, p: int, address: int) -> bool {
    let q = p + 1 + switch_padding(address);
    &&& fits(b, q, 8)
    &&& be_i32(b, q + 4) >= 0
    &&& fits(b, q + 8, 8 * be_i32(b, q + 4))
    &&& forall|i: int, j: int| 0 <= i < j < be_i32(b, q + 4) ==> #[trigger] match_value(b, q, i) < #[trigger] match_value(b, q, j)
}

/// Whether the bytes at `p` can start a `tableswitch` at `address`: its
/// bounds are in order and its offsets are there.
pub open spec fn tableswitch_ok(b: Seq<u8>, p: int, address: int) -> bool {
    let q = p + 1 + switch_padding(address);
    &&& fits(b, q, 12)
    &&& be_i32(b, q + 4) <= be_i32(b, q + 8)
    &&& fits(b, q + 12, 4 * (be_i32(b, q + 8) - be_i32(b, q + 4) + 1))
}

/// Whether some instruction at `address` is encoded at `p`.
pub open spec fn instruction_ok(b: Seq<u8>, p: int, address: int) -> bool {
    &&& fits(b, p, 1)
    &&& if b[p] == 171 {
        lookupswitch_ok(b, p, address)
    } else if b[p] == 170 {
        tableswitch_ok(b, p, address)
    } else {
        spec_operand_count(b[p]) matches Some(k) && fits(b, p + 1, k as int)
    }
}

/// An instruction can be read only where `instruction_ok` holds, and two
/// instructions read at the same place end at the same byte.
pub proof fn lemma_op_at(b: Seq<u8>, p: int, op: Operation, other: Operation, address: int)
    ensures
        op_at(b, p, op, address) is Some ==> instruction_ok(b, p, address),
        op_at(b, p, op, address) is Some && op_at(b, p, other, address) is Some
            ==> op_at(b, p, op, address) == op_at(b, p, other, address),
{
    if op_at(b, p, op, address) is Some {
        let q = p + 1 + switch_padding(address);
        match op {
            Operation::Lookupswitch(_, npairs, pairs) => {
                assert forall|i: int, j: int| 0 <= i < j < be_i32(b, q + 4) implies #[trigger] match_value(b, q, i)
                    < #[trigger] match_value(b, q, j) by {
                    assert(pairs@[i].0 < pairs@[j].0);
                }
            },
            _ => {},
        }
    }
}

/// The end of the instructions `code` read one after the other from
/// `start`; the address of each is its distance from `start`.
pub open spec fn instrs_at(b: Seq<u8>, start: int, code: Seq<Instruction>) -> Option<int>
    decreases code.len(),
{
    if code.len() == 0 {
        Some(start)
    } else {
        match instrs_at(b, start, code.drop_last()) {
            Some(q) => if code.last().0 as int == q - start { op_at(b, q, code.last().1, q - start) } else { None },
            None => None,
        }
    }
}

/// The end of a code array of `code_length` bytes at `start`: reading
/// stops at the first instruction that ends exactly at `code_length`.
pub open spec fn bytecode_at(b: Seq<u8>, start: int, code_length: int, code: Seq<Instruction>) -> Option<int> {
    if code.len() > 0 && instrs_at(b, start, code) == Some(start + code_length)
        && forall|k: int| 0 < k < code.len() ==> (#[trigger] code[k]).0 < code_length {
        Some(start + code_length)
    } else {
        None
    }
}

/// A prefix of instructions that can be read can be read too.
pub proof fn lemma_instrs_prefix(b: Seq<u8>, start: int, code: Seq<Instruction>, k: int)
    requires
        instrs_at(b, start, code) is Some,
        0 <= k <= code.len(),
    ensures
        instrs_at(b, start, code.take(k)) is Some,
    decreases code.len(),
{
    if k < code.len() {
        assert(code.drop_last().take(k) =~= code.take(k));
        lemma_instrs_prefix(b, start, code.drop_last(), k);
    } else {
        assert(code.take(k) =~= code);
    }
}

/// Two sequences of as many instructions read from `start` end at the same byte.
pub proof fn lemma_instrs_end(b: Seq<u8>, start: int, c1: Seq<Instruction>, c2: Seq<Instruction>)
    requires
        instrs_at(b, start, c1) is Some,
        instrs_at(b, start, c2) is Some,
        c1.len() == c2.len(),
    ensures
        instrs_at(b, start, c1) == instrs_at(b, start, c2),
    decreases c1.len(),
{
    if c1.len() > 0 {
        lemma_instrs_end(b, start, c1.drop_last(), c2.drop_last());
        let q = instrs_at(b, start, c1.drop_last())->0;
        lemma_op_at(b, q, c1.last().1, c2.last().1, q - start);
    }
}

/// The instruction that follows `done` in any code array that can be read:
/// `done` ends where a prefix of the same length ends, and the next
/// instruction there ends within the array.
pub proof fn lemma_bytecode_next(b: Seq<u8>, start: int, len: int, done: Seq<Instruction>, q: int, code: Seq<Instruction>)
    requires
        instrs_at(b, start, done) == Some(q),
        q < start + len,
        forall|j: int| 0 < j < done.len() ==> (#[trigger] done[j]).0 < len,
        bytecode_at(b, start, len, code) is Some,
    ensures
        done.len() < code.len(),
        code[done.len() as int].0 == q - start,
        op_at(b, q, code[done.len() as int].1, q - start) matches Some(e) && e <= start + len,
{
    let n = code.len() as int;
    let k = done.len() as int;
    if n <= k {
        lemma_instrs_prefix(b, start, done, n as int);
        lemma_instrs_end(b, start, done.take(n as int), code);
        assert(code.take(n as int) =~= code);
        if n < k {
            lemma_instrs_prefix(b, start, done, n + 1);
            assert(done.take(n + 1).drop_last() =~= done.take(n as int));
            assert(done.take(n + 1).last() == done[n as int]);
        } else {
            assert(done.take(n as int) =~= done);
        }
        assert(false);
    }
    lemma_instrs_prefix(b, start, code, k as int);
    lemma_instrs_end(b, start, code.take(k as int), done);
    lemma_instrs_prefix(b, start, code, k + 1);
    assert(code.take(k + 1).drop_last() =~= code.take(k as int));
    assert(code.take(k + 1).last() == code[k as int]);
    let e = op_at(b, q, code[k as int].1, q - start)->0;
    if k + 1 < n {
        lemma_instrs_prefix(b, start, code, k + 2);
        assert(code.take(k + 2).drop_last() =~= code.take(k + 1));
        assert(code.take(k + 2).last() == code[k + 1]);
    } else {
        assert(code.take(k + 1) =~= code);
    }
}

/// The end of `es.len()` exception table entries at `p`.
pub open spec fn exception_entries_at(b: Seq<u8>, p: int, es: Seq<ExceptionTableEntry>) -> Option<int> {
    if fits(b, p, (8 * es.len()) as int) && forall|i: int| 0 <= i < es.len() ==> {
        &&& (#[trigger] es[i]).start_pc as int == be16(b, p + 8 * i)
        &&& es[i].end_pc as int == be16(b, p + 8 * i + 2)
        &&& es[i].handler_pc as int == be16(b, p + 8 * i + 4)
        &&& es[i].catch_type as int == be16(b, p + 8 * i + 6)
    } {
        Some(p + 8 * es.len())
    } else {
        None
    }
}

/// The end of `es.len()` line number entries at `p`.
pub open spec fn line_entries_at(b: Seq<u8>, p: int, es: Seq<LineNumberTableEntry>) -> Option<int> {
    if fits(b, p, (4 * es.len()) as int) && forall|i: int| 0 <= i < es.len() ==> {
        &&& (#[trigger] es[i]).start_pc as int == be16(b, p + 4 * i)
        &&& es[i].line_number as int == be16(b, p + 4 * i + 2)
    } {
        Some(p + 4 * es.len())
    } else {
        None
    }
}

/// The end of the bootstrap method entries `es` read one after the other from `p`.
pub open spec fn bootstrap_entries_at(b: Seq<u8>, p: int, es: Seq<BootstrapMethodEntry>) -> Option<int>
    decreases es.len(),
{
    if es.len() == 0 {
        Some(p)
    } else {
        match bootstrap_entries_at(b, p, es.drop_last()) {
            Some(q) => if u16_at(b, q, es.last().bootstrap_method_ref) {
                u16_list_at(b, q + 2, es.last().bootstrap_args@)
            } else {
                None
            },
            None => None,
        }
    }
}

pub open spec fn name_constant_value() -> Seq<char> {
    seq!['C', 'o', 'n', 's', 't', 'a', 'n', 't', 'V', 'a', 'l', 'u', 'e']
}

pub open spec fn name_code() -> Seq<char> {
    seq!['C', 'o', 'd', 'e']
}

pub open spec fn name_line_number_table() -> Seq<char> {
    seq!['L', 'i', 'n', 'e', 'N', 'u', 'm', 'b', 'e', 'r', 'T', 'a', 'b', 'l', 'e']
}

pub open spec fn name_bootstrap_methods() -> Seq<char> {
    seq!['B', 'o', 'o', 't', 's', 't', 'r', 'a', 'p', 'M', 'e', 't', 'h', 'o', 'd', 's']
}

pub open spec fn name_nest_host() -> Seq<char> {
    seq!['N', 'e', 's', 't', 'H', 'o', 's', 't']
}

pub open spec fn name_nest_members() -> Seq<char> {
    seq!['N', 'e', 's', 't', 'M', 'e', 'm', 'b', 'e', 'r', 's']
}

pub open spec fn name_permitted_subclasses() -> Seq<char> {
    seq!['P', 'e', 'r', 'm', 'i', 't', 't', 'e', 'd', 'S', 'u', 'b', 'c', 'l', 'a', 's', 's', 'e', 's']
}

/// The end of the attribute `a` at `p`; its name is looked up in `cp`.
pub open spec fn attribute_at(b: Seq<u8>, p: int, cp: Seq<ConstantInfo>, a: AttributeInfo) -> Option<int>
    decreases a, 0int,
{
    if !fits(b, p, 6) {
        None
    } else {
        let name_index = be16(b, p);
        let length = be32(b, p + 2);
        let q = p + 6;
        match spec_utf8(cp, name_index as u16) {
            None => None,
            Some(name) => {
                if name == name_constant_value() {
                    match a {
                        AttributeInfo::ConstantValue(ConstantValue(v)) =>
                            if length == 2 && u16_at(b, q, v) { Some(q + 2) } else { None },
                        _ => None,
                    }
                } else if name == name_code() {
                    match a {
                        AttributeInfo::Code(c) => code_at(b, q, cp, *c),
                        _ => None,
                    }
                } else if name == name_line_number_table() {
                    match a {
                        AttributeInfo::LineNumberTable(LineNumberTable(es)) =>
                            if fits(b, q, 2) && be16(b, q) == es@.len() { line_entries_at(b, q + 2, es@) } else { None },
                        _ => None,
                    }
                } else if name == name_bootstrap_methods() {
                    match a {
                        AttributeInfo::BootstrapMethod(BootstrapMethod(es)) =>
                            if fits(b, q, 2) && be16(b, q) == es@.len() { bootstrap_entries_at(b, q + 2, es@) } else { None },
                        _ => None,
                    }
                } else if name == name_nest_host() {
                    match a {
                        AttributeInfo::NestHost(NestHost(v)) => if u16_at(b, q, v) { Some(q + 2) } else { None },
                        _ => None,
                    }
                } else if name == name_nest_members() {
                    match a {
                        AttributeInfo::NestMembers(NestMembers(v)) => u16_list_at(b, q, v@),
                        _ => None,
                    }
                } else if name == name_permitted_subclasses() {
                    match a {
                        AttributeInfo::PermitterSubclasses(PermitterSubclasses(v)) => u16_list_at(b, q, v@),
                        _ => None,
                    }
                } else {
                    match a {
                        AttributeInfo::Attribute(RemainingAttribute { attribute_name_index, info }) =>
                            if attribute_name_index as int == name_index && fits(b, q, length) && info@ == b.subrange(q, q + length) {
                                Some(q + length)
                            } else {
                                None
                            },
                        _ => None,
                    }
                }
            },
        }
    }
}

/// The end of the body of a `Code` attribute at `q` (after its name and length).
pub open spec fn code_at(b: Seq<u8>, q: int, cp: Seq<ConstantInfo>, c: Code) -> Option<int>
    decreases c, 0int,
{
    if fits(b, q, 8) && c.max_stack as int == be16(b, q) && c.max_locals as int == be16(b, q + 2) && be32(b, q + 4) > 0 {
        match bytecode_at(b, q + 8, be32(b, q + 4), c.code@) {
            Some(r) => if fits(b, r, 2) && be16(b, r) == c.exception_table@.len() {
                match exception_entries_at(b, r + 2, c.exception_table@) {
                    Some(s) => attribute_list_at(b, s, cp, c.attributes@),
                    None => None,
                }
            } else {
                None
            },
            None => None,
        }
    } else {
        None
    }
}

/// The end of the attributes `attrs` read one after the other from `p`.
pub open spec fn attributes_at(b: Seq<u8>, p: int, cp: Seq<ConstantInfo>, attrs: Seq<AttributeInfo>) -> Option<int>
    decreases attrs, 0int,
{
    if attrs.len() == 0 {
        Some(p)
    } else {
        match attributes_at(b, p, cp, attrs.drop_last()) {
            Some(q) => attribute_at(b, q, cp, attrs.last()),
            None => None,
        }
    }
}

/// The end of a `u16` count followed by that many attributes.
pub open spec fn attribute_list_at(b: Seq<u8>, p: int, cp: Seq<ConstantInfo>, attrs: Seq<AttributeInfo>) -> Option<int>
    decreases attrs, 1int,
{
    if fits(b, p, 2) && be16(b, p) == attrs.len() { attributes_at(b, p + 2, cp, attrs) } else { None }
}

/// Two sequences of as many bootstrap entries read from `p` end at the same byte.
pub proof fn lemma_bootstrap_end(b: Seq<u8>, p: int, e1: Seq<BootstrapMethodEntry>, e2: Seq<BootstrapMethodEntry>)
    requires
        bootstrap_entries_at(b, p, e1) is Some,
        bootstrap_entries_at(b, p, e2) is Some,
        e1.len() == e2.len(),
    ensures
        bootstrap_entries_at(b, p, e1) == bootstrap_entries_at(b, p, e2),
    decreases e1.len(),
{
    if e1.len() > 0 {
        lemma_bootstrap_end(b, p, e1.drop_last(), e2.drop_last());
    }
}

/// A prefix of bootstrap entries that can be read can be read too.
pub proof fn lemma_bootstrap_prefix(b: Seq<u8>, p: int, es: Seq<BootstrapMethodEntry>, k: int)
    requires
        bootstrap_entries_at(b, p, es) is Some,
        0 <= k <= es.len(),
    ensures
        bootstrap_entries_at(b, p, es.take(k)) is Some,
    decreases es.len(),
{
    if k < es.len() {
        assert(es.drop_last().take(k) =~= es.take(k));
        lemma_bootstrap_prefix(b, p, es.drop_last(), k);
    } else {
        assert(es.take(k) =~= es);
    }
}

/// In any sequence of bootstrap entries that can be read from `p` and is
/// longer than `done`, which ends at `q`, the next entry is read at `q`.
pub proof fn lemma_bootstrap_next(b: Seq<u8>, p: int, done: Seq<BootstrapMethodEntry>, q: int, es: Seq<BootstrapMethodEntry>)
    requires
        bootstrap_entries_at(b, p, done) == Some(q),
        bootstrap_entries_at(b, p, es) is Some,
        done.len() < es.len(),
    ensures
        u16_at(b, q, es[done.len() as int].bootstrap_method_ref),
        u16_list_at(b, q + 2, es[done.len() as int].bootstrap_args@) is Some,
{
    let k = done.len() as int;
    lemma_bootstrap_prefix(b, p, es, k);
    lemma_bootstrap_end(b, p, es.take(k), done);
    lemma_bootstrap_prefix(b, p, es, k + 1);
    assert(es.take(k + 1).drop_last() =~= es.take(k));
    assert(es.take(k + 1).last() == es[k]);
}

/// Two attributes read at `p` end at the same byte.
pub proof fn lemma_attribute_end(b: Seq<u8>, p: int, cp: Seq<ConstantInfo>, a1: AttributeInfo, a2: AttributeInfo)
    requires
        attribute_at(b, p, cp, a1) is Some,
        attribute_at(b, p, cp, a2) is Some,
    ensures
        attribute_at(b, p, cp, a1) == attribute_at(b, p, cp, a2),
    decreases a1, 0int,
{
    let q = p + 6;
    match a1 {
        AttributeInfo::Code(c1) => match a2 {
            AttributeInfo::Code(c2) => {
                lemma_code_end(b, q, cp, c1, c2);
            },
            _ => {},
        },
        AttributeInfo::BootstrapMethod(BootstrapMethod(e1)) => match a2 {
            AttributeInfo::BootstrapMethod(BootstrapMethod(e2)) => {
                lemma_bootstrap_end(b, q + 2, e1@, e2@);
            },
            _ => {},
        },
        _ => {},
    }
}

/// Two `Code` bodies read at `q` end at the same byte.
pub proof fn lemma_code_end(b: Seq<u8>, q: int, cp: Seq<ConstantInfo>, c1: Arc<Code>, c2: Arc<Code>)
    requires
        code_at(b, q, cp, *c1) is Some,
        code_at(b, q, cp, *c2) is Some,
    ensures
        code_at(b, q, cp, *c1) == code_at(b, q, cp, *c2),
    decreases c1, 0int,
{
    let r = q + 8 + be32(b, q + 4);
    let s = r + 2 + 8 * be16(b, r);
    lemma_attribute_list_end(b, s, cp, c1.attributes@, c2.attributes@);
}

/// Two counted attribute lists read at `p` end at the same byte.
pub proof fn lemma_attribute_list_end(b: Seq<u8>, p: int, cp: Seq<ConstantInfo>, x1: Seq<AttributeInfo>, x2: Seq<AttributeInfo>)
    requires
        attribute_list_at(b, p, cp, x1) is Some,
        attribute_list_at(b, p, cp, x2) is Some,
    ensures
        attribute_list_at(b, p, cp, x1) == attribute_list_at(b, p, cp, x2),
    decreases x1, 1int,
{
    lemma_attributes_end(b, p + 2, cp, x1, x2);
}

/// Two sequences of as many attributes read from `p` end at the same byte.
pub proof fn lemma_attributes_end(b: Seq<u8>, p: int, cp: Seq<ConstantInfo>, x1: Seq<AttributeInfo>, x2: Seq<AttributeInfo>)
    requires
        attributes_at(b, p, cp, x1) is Some,
        attributes_at(b, p, cp, x2) is Some,
        x1.len() == x2.len(),
    ensures
        attributes_at(b, p, cp, x1) == attributes_at(b, p, cp, x2),
    decreases x1, 0int,
{
    if x1.len() > 0 {
        lemma_attributes_end(b, p, cp, x1.drop_last(), x2.drop_last());
        let q = attributes_at(b, p, cp, x1.drop_last())->0;
        lemma_attribute_end(b, q, cp, x1.last(), x2.last());
    }
}

/// A prefix of attributes that can be read can be read too.
pub proof fn lemma_attributes_prefix(b: Seq<u8>, p: int, cp: Seq<ConstantInfo>, xs: Seq<AttributeInfo>, k: int)
    requires
        attributes_at(b, p, cp, xs) is Some,
        0 <= k <= xs.len(),
    ensures
        attributes_at(b, p, cp, xs.take(k)) is Some,
    decreases xs.len(),
{
    if k < xs.len() {
        assert(xs.drop_last().take(k) =~= xs.take(k));
        lemma_attributes_prefix(b, p, cp, xs.drop_last(), k);
    } else {
        assert(xs.take(k) =~= xs);
    }
}

/// In any sequence of attributes that can be read from `p` and is longer
/// than `done`, which ends at `q`, the next attribute is read at `q`.
pub proof fn lemma_attributes_next(b: Seq<u8>, p: int, cp: Seq<ConstantInfo>, done: Seq<AttributeInfo>, q: int, xs: Seq<AttributeInfo>)
    requires
        attributes_at(b, p, cp, done) == Some(q),
        attributes_at(b, p, cp, xs) is Some,
        done.len() < xs.len(),
    ensures
        attribute_at(b, q, cp, xs[done.len() as int]) is Some,
{
    let k = done.len() as int;
    lemma_attributes_prefix(b, p, cp, xs, k);
    lemma_attributes_end(b, p, cp, xs.take(k), done);
    lemma_attributes_prefix(b, p, cp, xs, k + 1);
    assert(xs.take(k + 1).drop_last() =~= xs.take(k));
    assert(xs.take(k + 1).last() == xs[k]);
}

/// In any counted attribute list that can be read at `p`, the attribute
/// after the first ones, `done`, which end at `q`, is read at `q`.
pub proof fn lemma_attribute_list_next(b: Seq<u8>, p: int, cp: Seq<ConstantInfo>, done: Seq<AttributeInfo>, q: int, xs: Seq<AttributeInfo>)
    requires
        fits(b, p, 2),
        attributes_at(b, p + 2, cp, done) == Some(q),
        done.len() < be16(b, p),
        attribute_list_at(b, p, cp, xs) is Some,
    ensures
        attribute_at(b, q, cp, xs[done.len() as int]) is Some,
{
    lemma_attributes_next(b, p + 2, cp, done, q, xs);
}

/// The end of the field `f` at `p`.
pub open spec fn field_at(b: Seq<u8>, p: int, cp: Seq<ConstantInfo>, f: FieldInfo) -> Option<int> {
    if fits(b, p, 8) && within_mask(be16(b, p) as u16, FIELD_FLAG_MASK) && f.access_flags.bits as int == be16(b, p)
        && f.name_index as int == be16(b, p + 2) && f.descriptor_index as int == be16(b, p + 4)
        && f.attributes_count as int == be16(b, p + 6) && f.attributes@.len() == f.attributes_count {
        attributes_at(b, p + 8, cp, f.attributes@)
    } else {
        None
    }
}

/// The end of the method `m` at `p`.
pub open spec fn method_at(b: Seq<u8>, p: int, cp: Seq<ConstantInfo>, m: MethodInfo) -> Option<int> {
    if fits(b, p, 8) && within_mask(be16(b, p) as u16, METHOD_FLAG_MASK) && m.access_flags.bits as int == be16(b, p)
        && m.name_index as int == be16(b, p + 2) && m.descriptor_index as int == be16(b, p + 4)
        && m.attributes_count as int == be16(b, p + 6) && m.attributes@.len() == m.attributes_count {
        attributes_at(b, p + 8, cp, m.attributes@)
    } else {
        None
    }
}

/// The end of the fields `fs` read one after the other from `p`.
pub open spec fn fields_at(b: Seq<u8>, p: int, cp: Seq<ConstantInfo>, fs: Seq<FieldInfo>) -> Option<int>
    decreases fs.len(),
{
    if fs.len() == 0 {
        Some(p)
    } else {
        match fields_at(b, p, cp, fs.drop_last()) {
            Some(q) => field_at(b, q, cp, fs.last()),
            None => None,
        }
    }
}

/// The end of the methods `ms` read one after the other from `p`.
pub open spec fn methods_at(b: Seq<u8>, p: int, cp: Seq<ConstantInfo>, ms: Seq<MethodInfo>) -> Option<int>
    decreases ms.len(),
{
    if ms.len() == 0 {
        Some(p)
    } else {
        match methods_at(b, p, cp, ms.drop_last()) {
            Some(q) => method_at(b, q, cp, ms.last()),
            None => None,
        }
    }
}

/// Two fields read at `p` end at the same byte.
pub proof fn lemma_field_end(b: Seq<u8>, p: int, cp: Seq<ConstantInfo>, x1: FieldInfo, x2: FieldInfo)
    requires
        field_at(b, p, cp, x1) is Some,
        field_at(b, p, cp, x2) is Some,
    ensures
        field_at(b, p, cp, x1) == field_at(b, p, cp, x2),
{
    lemma_attributes_end(b, p + 8, cp, x1.attributes@, x2.attributes@);
}

/// Two sequences of as many fields read from `p` end at the same byte.
pub proof fn lemma_fields_end(b: Seq<u8>, p: int, cp: Seq<ConstantInfo>, x1: Seq<FieldInfo>, x2: Seq<FieldInfo>)
    requires
        fields_at(b, p, cp, x1) is Some,
        fields_at(b, p, cp, x2) is Some,
        x1.len() == x2.len(),
    ensures
        fields_at(b, p, cp, x1) == fields_at(b, p, cp, x2),
    decreases x1.len(),
{
    if x1.len() > 0 {
        lemma_fields_end(b, p, cp, x1.drop_last(), x2.drop_last());
        let q = fields_at(b, p, cp, x1.drop_last())->0;
        lemma_field_end(b, q, cp, x1.last(), x2.last());
    }
}

/// A prefix of fields that can be read can be read too.
pub proof fn lemma_fields_prefix(b: Seq<u8>, p: int, cp: Seq<ConstantInfo>, xs: Seq<FieldInfo>, k: int)
    requires
        fields_at(b, p, cp, xs) is Some,
        0 <= k <= xs.len(),
    ensures
        fields_at(b, p, cp, xs.take(k)) is Some,
    decreases xs.len(),
{
    if k < xs.len() {
        assert(xs.drop_last().take(k) =~= xs.take(k));
        lemma_fields_prefix(b, p, cp, xs.drop_last(), k);
    } else {
        assert(xs.take(k) =~= xs);
    }
}

/// In any sequence of fields that can be read from `p` and is longer
/// than `done`, which ends at `q`, the next one is read at `q`.
pub proof fn lemma_fields_next(b: Seq<u8>, p: int, cp: Seq<ConstantInfo>, done: Seq<FieldInfo>, q: int, xs: Seq<FieldInfo>)
    requires
        fields_at(b, p, cp, done) == Some(q),
        fields_at(b, p, cp, xs) is Some,
        done.len() < xs.len(),
    ensures
        field_at(b, q, cp, xs[done.len() as int]) is Some,
{
    let k = done.len() as int;
    lemma_fields_prefix(b, p, cp, xs, k);
    lemma_fields_end(b, p, cp, xs.take(k), done);
    lemma_fields_prefix(b, p, cp, xs, k + 1);
    assert(xs.take(k + 1).drop_last() =~= xs.take(k));
    assert(xs.take(k + 1).last() == xs[k]);
}

/// In any field that can be read at `p`, the attribute after the first
/// ones, `done`, which end at `q`, is read at `q`.
pub proof fn lemma_field_attribute_next(b: Seq<u8>, p: int, cp: Seq<ConstantInfo>, done: Seq<AttributeInfo>, q: int, x: FieldInfo)
    requires
        fits(b, p, 8),
        attributes_at(b, p + 8, cp, done) == Some(q),
        done.len() < be16(b, p + 6),
        field_at(b, p, cp, x) is Some,
    ensures
        attribute_at(b, q, cp, x.attributes@[done.len() as int]) is Some,
{
    lemma_attributes_next(b, p + 8, cp, done, q, x.attributes@);
}

/// Two methods read at `p` end at the same byte.
pub proof fn lemma_method_end(b: Seq<u8>, p: int, cp: Seq<ConstantInfo>, x1: MethodInfo, x2: MethodInfo)
    requires
        method_at(b, p, cp, x1) is Some,
        method_at(b, p, cp, x2) is Some,
    ensures
        method_at(b, p, cp, x1) == method_at(b, p, cp, x2),
{
    lemma_attributes_end(b, p + 8, cp, x1.attributes@, x2.attributes@);
}

/// Two sequences of as many methods read from `p` end at the same byte.
pub proof fn lemma_methods_end(b: Seq<u8>, p: int, cp: Seq<ConstantInfo>, x1: Seq<MethodInfo>, x2: Seq<MethodInfo>)
    requires
        methods_at(b, p, cp, x1) is Some,
        methods_at(b, p, cp, x2) is Some,
        x1.len() == x2.len(),
    ensures
        methods_at(b, p, cp, x1) == methods_at(b, p, cp, x2),
    decreases x1.len(),
{
    if x1.len() > 0 {
        lemma_methods_end(b, p, cp, x1.drop_last(), x2.drop_last());
        let q = methods_at(b, p, cp, x1.drop_last())->0;
        lemma_method_end(b, q, cp, x1.last(), x2.last());
    }
}

/// A prefix of methods that can be read can be read too.
pub proof fn lemma_methods_prefix(b: Seq<u8>, p: int, cp: Seq<ConstantInfo>, xs: Seq<MethodInfo>, k: int)
    requires
        methods_at(b, p, cp, xs) is Some,
        0 <= k <= xs.len(),
    ensures
        methods_at(b, p, cp, xs.take(k)) is Some,
    decreases xs.len(),
{
    if k < xs.len() {
        assert(xs.drop_last().take(k) =~= xs.take(k));
        lemma_methods_prefix(b, p, cp, xs.drop_last(), k);
    } else {
        assert(xs.take(k) =~= xs);
    }
}

/// In any sequence of methods that can be read from `p` and is longer
/// than `done`, which ends at `q`, the next one is read at `q`.
pub proof fn lemma_methods_next(b: Seq<u8>, p: int, cp: Seq<ConstantInfo>, done: Seq<MethodInfo>, q: int, xs: Seq<MethodInfo>)
    requires
        methods_at(b, p, cp, done) == Some(q),
        methods_at(b, p, cp, xs) is Some,
        done.len() < xs.len(),
    ensures
        method_at(b, q, cp, xs[done.len() as int]) is Some,
{
    let k = done.len() as int;
    lemma_methods_prefix(b, p, cp, xs, k);
    lemma_methods_end(b, p, cp, xs.take(k), done);
    lemma_methods_prefix(b, p, cp, xs, k + 1);
    assert(xs.take(k + 1).drop_last() =~= xs.take(k));
    assert(xs.take(k + 1).last() == xs[k]);
}

/// In any method that can be read at `p`, the attribute after the first
/// ones, `done`, which end at `q`, is read at `q`.
pub proof fn lemma_method_attribute_next(b: Seq<u8>, p: int, cp: Seq<ConstantInfo>, done: Seq<AttributeInfo>, q: int, x: MethodInfo)
    requires
        fits(b, p, 8),
        attributes_at(b, p + 8, cp, done) == Some(q),
        done.len() < be16(b, p + 6),
        method_at(b, p, cp, x) is Some,
    ensures
        attribute_at(b, q, cp, x.attributes@[done.len() as int]) is Some,
{
    lemma_attributes_next(b, p + 8, cp, done, q, x.attributes@);
}

/// Whether two pools hold the same `Utf8` strings at each index.
pub open spec fn same_strings(cp1: Seq<ConstantInfo>, cp2: Seq<ConstantInfo>) -> bool {
    forall|i: u16| #[trigger] spec_utf8(cp1, i) == spec_utf8(cp2, i)
}

/// Pools that agree hold the same strings.
pub proof fn lemma_agree_strings(cp1: Seq<ConstantInfo>, cp2: Seq<ConstantInfo>)
    requires
        pools_agree(cp1, cp2),
    ensures
        same_strings(cp1, cp2),
{
    assert forall|i: u16| #[trigger] spec_utf8(cp1, i) == spec_utf8(cp2, i) by {
        if i != 0 && i <= cp1.len() {
            assert(entry_agree(cp1[i - 1], cp2[i - 1]));
        }
    }
}

/// An attribute reads the same against pools with the same strings.
pub proof fn lemma_attribute_strings(b: Seq<u8>, p: int, cp1: Seq<ConstantInfo>, cp2: Seq<ConstantInfo>, a: AttributeInfo)
    requires
        same_strings(cp1, cp2),
    ensures
        attribute_at(b, p, cp1, a) == attribute_at(b, p, cp2, a),
    decreases a, 0int,
{
    assert(spec_utf8(cp1, be16(b, p) as u16) == spec_utf8(cp2, be16(b, p) as u16));
    match a {
        AttributeInfo::Code(c) => {
            lemma_code_strings(b, p + 6, cp1, cp2, c);
        },
        _ => {},
    }
}

/// A `Code` body reads the same against pools with the same strings.
pub proof fn lemma_code_strings(b: Seq<u8>, q: int, cp1: Seq<ConstantInfo>, cp2: Seq<ConstantInfo>, c: Arc<Code>)
    requires
        same_strings(cp1, cp2),
    ensures
        code_at(b, q, cp1, *c) == code_at(b, q, cp2, *c),
    decreases c, 0int,
{
    let r = q + 8 + be32(b, q + 4);
    let s = r + 2 + 8 * c.exception_table@.len();
    lemma_attribute_list_strings(b, s, cp1, cp2, c.attributes@);
}

/// A counted attribute list reads the same against pools with the same strings.
pub proof fn lemma_attribute_list_strings(b: Seq<u8>, p: int, cp1: Seq<ConstantInfo>, cp2: Seq<ConstantInfo>, xs: Seq<AttributeInfo>)
    requires
        same_strings(cp1, cp2),
    ensures
        attribute_list_at(b, p, cp1, xs) == attribute_list_at(b, p, cp2, xs),
    decreases xs, 1int,
{
    lemma_attributes_strings(b, p + 2, cp1, cp2, xs);
}

/// A sequence of attributes reads the same against pools with the same strings.
pub proof fn lemma_attributes_strings(b: Seq<u8>, p: int, cp1: Seq<ConstantInfo>, cp2: Seq<ConstantInfo>, xs: Seq<AttributeInfo>)
    requires
        same_strings(cp1, cp2),
    ensures
        attributes_at(b, p, cp1, xs) == attributes_at(b, p, cp2, xs),
    decreases xs, 0int,
{
    if xs.len() > 0 {
        lemma_attributes_strings(b, p, cp1, cp2, xs.drop_last());
        match attributes_at(b, p, cp1, xs.drop_last()) {
            Some(q) => lemma_attribute_strings(b, q, cp1, cp2, xs.last()),
            None => {},
        }
    }
}

/// A sequence of fields reads the same against pools with the same strings.
pub proof fn lemma_fields_strings(b: Seq<u8>, p: int, cp1: Seq<ConstantInfo>, cp2: Seq<ConstantInfo>, xs: Seq<FieldInfo>)
    requires
        same_strings(cp1, cp2),
    ensures
        fields_at(b, p, cp1, xs) == fields_at(b, p, cp2, xs),
    decreases xs.len(),
{
    if xs.len() > 0 {
        lemma_fields_strings(b, p, cp1, cp2, xs.drop_last());
        match fields_at(b, p, cp1, xs.drop_last()) {
            Some(q) => lemma_attributes_strings(b, q + 8, cp1, cp2, xs.last().attributes@),
            None => {},
        }
    }
}

/// A sequence of methods reads the same against pools with the same strings.
pub proof fn lemma_methods_strings(b: Seq<u8>, p: int, cp1: Seq<ConstantInfo>, cp2: Seq<ConstantInfo>, xs: Seq<MethodInfo>)
    requires
        same_strings(cp1, cp2),
    ensures
        methods_at(b, p, cp1, xs) == methods_at(b, p, cp2, xs),
    decreases xs.len(),
{
    if xs.len() > 0 {
        lemma_methods_strings(b, p, cp1, cp2, xs.drop_last());
        match methods_at(b, p, cp1, xs.drop_last()) {
            Some(q) => lemma_attributes_strings(b, q + 8, cp1, cp2, xs.last().attributes@),
            None => {},
        }
    }
}

/// Whether `cf` is the class file that the bytes `b` begin with.
pub open spec fn class_file_at(b: Seq<u8>, cf: ClassFile) -> bool {
    let cp = cf.constant_pool.entries();
    &&& fits(b, 0, 10)
    &&& cf.magic as int == be32(b, 0)
    &&& cf.version.spec_minor() as int == be16(b, 4)
    &&& cf.version.spec_major() as int == be16(b, 6)
    &&& pool_complete(b, 10, be16(b, 8), cp) matches Some(p1)
    &&& fits(b, p1, 6)
    &&& within_mask(be16(b, p1) as u16, CLASS_FLAG_MASK)
    &&& cf.access_flags.bits as int == be16(b, p1)
    &&& cf.this_class as int == be16(b, p1 + 2)
    &&& cf.super_class as int == be16(b, p1 + 4)
    &&& u16_list_at(b, p1 + 6, cf.interfaces@) matches Some(p2)
    &&& fits(b, p2, 2) && be16(b, p2) == cf.fields@.len()
    &&& fields_at(b, p2 + 2, cp, cf.fields@) matches Some(p3)
    &&& fits(b, p3, 2) && be16(b, p3) == cf.methods@.len()
    &&& methods_at(b, p3 + 2, cp, cf.methods@) matches Some(p4)
    &&& attribute_list_at(b, p4, cp, cf.attributes@) is Some
}


/// The layout of a class file read with a pool `cp` that agrees with its
/// own: where its interfaces, fields, methods and attributes lie.
pub proof fn lemma_class_file_layout(b: Seq<u8>, cf: ClassFile, cp: Seq<ConstantInfo>, p1: int)
    requires
        class_file_at(b, cf),
        pool_complete(b, 10, be16(b, 8), cf.constant_pool.entries()) == Some(p1),
        pools_agree(cf.constant_pool.entries(), cp),
    ensures
        fits(b, p1, 6),
        within_mask(be16(b, p1) as u16, CLASS_FLAG_MASK),
        u16_list_at(b, p1 + 6, cf.interfaces@) == Some(p1 + 8 + 2 * be16(b, p1 + 6)),
        fits(b, p1 + 8 + 2 * be16(b, p1 + 6), 2),
        be16(b, p1 + 8 + 2 * be16(b, p1 + 6)) == cf.fields@.len(),
        match fields_at(b, p1 + 10 + 2 * be16(b, p1 + 6), cp, cf.fields@) {
            Some(p3) => fits(b, p3, 2) && be16(b, p3) == cf.methods@.len() && match methods_at(b, p3 + 2, cp, cf.methods@) {
                Some(p4) => attribute_list_at(b, p4, cp, cf.attributes@) is Some,
                None => false,
            },
            None => false,
        },
{
    let e = cf.constant_pool.entries();
    lemma_agree_strings(e, cp);
    let p2 = p1 + 8 + 2 * be16(b, p1 + 6);
    lemma_fields_strings(b, p2 + 2, e, cp, cf.fields@);
    let p3 = fields_at(b, p2 + 2, e, cf.fields@)->0;
    lemma_methods_strings(b, p3 + 2, e, cp, cf.methods@);
    let p4 = methods_at(b, p3 + 2, e, cf.methods@)->0;
    lemma_attribute_list_strings(b, p4, e, cp, cf.attributes@);
}


/// Two complete pools of `count` slots read from `p` end at the same byte
/// and agree.
pub proof fn lemma_pools_agree(b: Seq<u8>, p: int, count: int, e1: Seq<ConstantInfo>, e2: Seq<ConstantInfo>)
    requires
        pool_complete(b, p, count, e1) is Some,
        pool_complete(b, p, count, e2) is Some,
        e1.len() <= e2.len(),
    ensures
        pool_complete(b, p, count, e1) == pool_complete(b, p, count, e2),
        pools_agree(e1, e2),
{
    let q1 = pool_at(b, p, e1)->0;
    lemma_pool_follows(b, p, e1, q1, e2);
    if e2.len() > e1.len() {
        let rest = e2.skip(e1.len() as int);
        assert(rest.len() == 1);
        assert(rest[0] == e2.last());
        assert(false);
    }
    assert(e2.take(e1.len() as int) =~= e2);
    assert(e2.skip(e1.len() as int) =~= Seq::<ConstantInfo>::empty());
    assert forall|j: int| 0 <= j < e1.len() implies entry_agree(#[trigger] e1[j], e2[j]) by {
        assert(entry_agree(e2[j], e1[j]));
    }
}

/// Pools that agree give the same class names.
pub proof fn lemma_agree_class_names(e1: Seq<ConstantInfo>, e2: Seq<ConstantInfo>, indices: Seq<u16>)
    requires
        pools_agree(e1, e2),
    ensures
        spec_class_names(e1, indices) == spec_class_names(e2, indices),
    decreases indices.len(),
{
    lemma_agree_strings(e1, e2);
    if indices.len() > 0 {
        lemma_agree_class_names(e1, e2, indices.drop_last());
        let i = indices.last();
        if i != 0 && i <= e1.len() {
            assert(entry_agree(e1[i - 1], e2[i - 1]));
        }
    }
}

/// Every class file that the bytes begin with names the same interfaces.
pub proof fn lemma_class_names_agree(b: Seq<u8>, cf1: ClassFile, cf2: ClassFile)
    requires
        class_file_at(b, cf1),
        class_file_at(b, cf2),
    ensures
        spec_class_names(cf1.constant_pool.entries(), cf1.interfaces@)
            == spec_class_names(cf2.constant_pool.entries(), cf2.interfaces@),
{
    let e1 = cf1.constant_pool.entries();
    let e2 = cf2.constant_pool.entries();
    if e1.len() <= e2.len() {
        lemma_pools_agree(b, 10, be16(b, 8), e1, e2);
        lemma_agree_class_names(e1, e2, cf1.interfaces@);
    } else {
        lemma_pools_agree(b, 10, be16(b, 8), e2, e1);
        lemma_agree_class_names(e2, e1, cf1.interfaces@);
    }
    assert(cf1.interfaces@ =~= cf2.interfaces@);
}

} // verus!
