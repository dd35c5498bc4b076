//! The rules of the Java virtual machine that the decoder and the
//! interpreter follow, each stated in the terms of the JVM specification
//! rather than through the tables and helpers the code is built from: the
//! opcode of every instruction, which handler catches an exception, where
//! a call places its arguments, which case a switch takes, and which
//! values a narrow array store accepts.

use vstd::prelude::*;
use crate::attribute::ExceptionTableEntry;
use crate::class_loader::{spec_find_class, lemma_find_class_bound};
use crate::constant_pool::{spec_class_name, ConstantInfo};
use crate::execute_array::{array_load_result, array_store_result, ArrayKind};
use crate::execute_branch::{lookup_offsets, table_offsets};
use crate::execute::frame_effect;
use crate::execute_exception::spec_handler;
use crate::execute_method::{placed, slot_of};
use crate::heap::Heap;
use crate::class_loader::ClassLoader;
use crate::instruction::{spec_opcode, Operation};
use crate::jvm_error::JVMError;
use crate::loaded_class::LoadedClass;
use crate::object::{contents, ObjectKind};
use crate::runtime::{ExecutionResult, Frame, Value};

verus! {

/// The opcode of each instruction is the one the JVM specification's
/// table gives it. The decoder reads an instruction only where its opcode
/// byte is the byte at hand (`op_at`, `build_operation`), so this fixes
/// which operation each byte decodes to.
pub proof fn law_opcode_table()
    ensures
        spec_opcode(Operation::Nop) == 0x00,
        spec_opcode(Operation::Aconstnull) == 0x01,
        spec_opcode(Operation::Iconstm1) == 0x02,
        spec_opcode(Operation::Iconst0) == 0x03,
        spec_opcode(Operation::Iconst1) == 0x04,
        spec_opcode(Operation::Iconst2) == 0x05,
        spec_opcode(Operation::Iconst3) == 0x06,
        spec_opcode(Operation::Iconst4) == 0x07,
        spec_opcode(Operation::Iconst5) == 0x08,
        spec_opcode(Operation::Lconst0) == 0x09,
        spec_opcode(Operation::Lconst1) == 0x0a,
        spec_opcode(Operation::Fconst0) == 0x0b,
        spec_opcode(Operation::Fconst1) == 0x0c,
        spec_opcode(Operation::Fconst2) == 0x0d,
        spec_opcode(Operation::Dconst0) == 0x0e,
        spec_opcode(Operation::Dconst1) == 0x0f,
        forall|x0: u8| #[trigger] spec_opcode(Operation::Bipush(x0)) == 0x10,
        forall|x0: u8, x1: u8| #[trigger] spec_opcode(Operation::Sipush(x0, x1)) == 0x11,
        forall|x0: u8| #[trigger] spec_opcode(Operation::Ldc(x0)) == 0x12,
        forall|x0: u8, x1: u8| #[trigger] spec_opcode(Operation::Ldcw(x0, x1)) == 0x13,
        forall|x0: u8, x1: u8| #[trigger] spec_opcode(Operation::Ldc2w(x0, x1)) == 0x14,
        forall|x0: u8| #[trigger] spec_opcode(Operation::Iload(x0)) == 0x15,
        forall|x0: u8| #[trigger] spec_opcode(Operation::Lload(x0)) == 0x16,
        forall|x0: u8| #[trigger] spec_opcode(Operation::Fload(x0)) == 0x17,
        forall|x0: u8| #[trigger] spec_opcode(Operation::Dload(x0)) == 0x18,
        forall|x0: u8| #[trigger] spec_opcode(Operation::Aload(x0)) == 0x19,
        spec_opcode(Operation::Iload0) == 0x1a,
        spec_opcode(Operation::Iload1) == 0x1b,
        spec_opcode(Operation::Iload2) == 0x1c,
        spec_opcode(Operation::Iload3) == 0x1d,
        spec_opcode(Operation::Lload0) == 0x1e,
        spec_opcode(Operation::Lload1) == 0x1f,
        spec_opcode(Operation::Lload2) == 0x20,
        spec_opcode(Operation::Lload3) == 0x21,
        spec_opcode(Operation::Fload0) == 0x22,
        spec_opcode(Operation::Fload1) == 0x23,
        spec_opcode(Operation::Fload2) == 0x24,
        spec_opcode(Operation::Fload3) == 0x25,
        spec_opcode(Operation::Dload0) == 0x26,
        spec_opcode(Operation::Dload1) == 0x27,
        spec_opcode(Operation::Dload2) == 0x28,
        spec_opcode(Operation::Dload3) == 0x29,
        spec_opcode(Operation::Aload0) == 0x2a,
        spec_opcode(Operation::Aload1) == 0x2b,
        spec_opcode(Operation::Aload2) == 0x2c,
        spec_opcode(Operation::Aload3) == 0x2d,
        spec_opcode(Operation::Iaload) == 0x2e,
        spec_opcode(Operation::Laload) == 0x2f,
        spec_opcode(Operation::Faload) == 0x30,
        spec_opcode(Operation::Daload) == 0x31,
        spec_opcode(Operation::Aaload) == 0x32,
        spec_opcode(Operation::Baload) == 0x33,
        spec_opcode(Operation::Caload) == 0x34,
        spec_opcode(Operation::Saload) == 0x35,
        forall|x0: u8| #[trigger] spec_opcode(Operation::Istore(x0)) == 0x36,
        forall|x0: u8| #[trigger] spec_opcode(Operation::Lstore(x0)) == 0x37,
        forall|x0: u8| #[trigger] spec_opcode(Operation::Fstore(x0)) == 0x38,
        forall|x0: u8| #[trigger] spec_opcode(Operation::Dstore(x0)) == 0x39,
        forall|x0: u8| #[trigger] spec_opcode(Operation::Astore(x0)) == 0x3a,
        spec_opcode(Operation::Istore0) == 0x3b,
        spec_opcode(Operation::Istore1) == 0x3c,
        spec_opcode(Operation::Istore2) == 0x3d,
        spec_opcode(Operation::Istore3) == 0x3e,
        spec_opcode(Operation::Lstore0) == 0x3f,
        spec_opcode(Operation::Lstore1) == 0x40,
        spec_opcode(Operation::Lstore2) == 0x41,
        spec_opcode(Operation::Lstore3) == 0x42,
        spec_opcode(Operation::Fstore0) == 0x43,
        spec_opcode(Operation::Fstore1) == 0x44,
        spec_opcode(Operation::Fstore2) == 0x45,
        spec_opcode(Operation::Fstore3) == 0x46,
        spec_opcode(Operation::Dstore0) == 0x47,
        spec_opcode(Operation::Dstore1) == 0x48,
        spec_opcode(Operation::Dstore2) == 0x49,
        spec_opcode(Operation::Dstore3) == 0x4a,
        spec_opcode(Operation::Astore0) == 0x4b,
        spec_opcode(Operation::Astore1) == 0x4c,
        spec_opcode(Operation::Astore2) == 0x4d,
        spec_opcode(Operation::Astore3) == 0x4e,
        spec_opcode(Operation::Iastore) == 0x4f,
        spec_opcode(Operation::Lastore) == 0x50,
        spec_opcode(Operation::Fastore) == 0x51,
        spec_opcode(Operation::Dastore) == 0x52,
        spec_opcode(Operation::Aastore) == 0x53,
        spec_opcode(Operation::Bastore) == 0x54,
        spec_opcode(Operation::Castore) == 0x55,
        spec_opcode(Operation::Sastore) == 0x56,
        spec_opcode(Operation::Pop) == 0x57,
        spec_opcode(Operation::Pop2) == 0x58,
        spec_opcode(Operation::Dup) == 0x59,
        spec_opcode(Operation::Dupx1) == 0x5a,
        spec_opcode(Operation::Dupx2) == 0x5b,
        spec_opcode(Operation::Dup2) == 0x5c,
        spec_opcode(Operation::Dup2x1) == 0x5d,
        spec_opcode(Operation::Dup2x2) == 0x5e,
        spec_opcode(Operation::Swap) == 0x5f,
        spec_opcode(Operation::Iadd) == 0x60,
        spec_opcode(Operation::Ladd) == 0x61,
        spec_opcode(Operation::Fadd) == 0x62,
        spec_opcode(Operation::Dadd) == 0x63,
        spec_opcode(Operation::Isub) == 0x64,
        spec_opcode(Operation::Lsub) == 0x65,
        spec_opcode(Operation::Fsub) == 0x66,
        spec_opcode(Operation::Dsub) == 0x67,
        spec_opcode(Operation::Imul) == 0x68,
        spec_opcode(Operation::Lmul) == 0x69,
        spec_opcode(Operation::Fmul) == 0x6a,
        spec_opcode(Operation::Dmul) == 0x6b,
        spec_opcode(Operation::Idiv) == 0x6c,
        spec_opcode(Operation::Ldiv) == 0x6d,
        spec_opcode(Operation::Fdiv) == 0x6e,
        spec_opcode(Operation::Ddiv) == 0x6f,
        spec_opcode(Operation::Irem) == 0x70,
        spec_opcode(Operation::Lrem) == 0x71,
        spec_opcode(Operation::Frem) == 0x72,
        spec_opcode(Operation::Drem) == 0x73,
        spec_opcode(Operation::Ineg) == 0x74,
        spec_opcode(Operation::Lneg) == 0x75,
        spec_opcode(Operation::Fneg) == 0x76,
        spec_opcode(Operation::Dneg) == 0x77,
        spec_opcode(Operation::Ishl) == 0x78,
        spec_opcode(Operation::Lshl) == 0x79,
        spec_opcode(Operation::Ishr) == 0x7a,
        spec_opcode(Operation::Lshr) == 0x7b,
        spec_opcode(Operation::Iushr) == 0x7c,
        spec_opcode(Operation::Lushr) == 0x7d,
        spec_opcode(Operation::Iand) == 0x7e,
        spec_opcode(Operation::Land) == 0x7f,
        spec_opcode(Operation::Ior) == 0x80,
        spec_opcode(Operation::Lor) == 0x81,
        spec_opcode(Operation::Ixor) == 0x82,
        spec_opcode(Operation::Lxor) == 0x83,
        forall|x0: u8, x1: u8| #[trigger] spec_opcode(Operation::Iinc(x0, x1)) == 0x84,
        spec_opcode(Operation::I2l) == 0x85,
        spec_opcode(Operation::I2f) == 0x86,
        spec_opcode(Operation::I2d) == 0x87,
        spec_opcode(Operation::L2i) == 0x88,
        spec_opcode(Operation::L2f) == 0x89,
        spec_opcode(Operation::L2d) == 0x8a,
        spec_opcode(Operation::F2i) == 0x8b,
        spec_opcode(Operation::F2l) == 0x8c,
        spec_opcode(Operation::F2d) == 0x8d,
        spec_opcode(Operation::D2i) == 0x8e,
        spec_opcode(Operation::D2l) == 0x8f,
        spec_opcode(Operation::D2f) == 0x90,
        spec_opcode(Operation::I2b) == 0x91,
        spec_opcode(Operation::I2c) == 0x92,
        spec_opcode(Operation::I2s) == 0x93,
        spec_opcode(Operation::Lcmp) == 0x94,
        spec_opcode(Operation::Fcmpl) == 0x95,
        spec_opcode(Operation::Fcmpg) == 0x96,
        spec_opcode(Operation::Dcmpl) == 0x97,
        spec_opcode(Operation::Dcmpg) == 0x98,
        forall|x0: u8, x1: u8| #[trigger] spec_opcode(Operation::Ifeq(x0, x1)) == 0x99,
        forall|x0: u8, x1: u8| #[trigger] spec_opcode(Operation::Ifne(x0, x1)) == 0x9a,
        forall|x0: u8, x1: u8| #[trigger] spec_opcode(Operation::Iflt(x0, x1)) == 0x9b,
        forall|x0: u8, x1: u8| #[trigger] spec_opcode(Operation::Ifge(x0, x1)) == 0x9c,
        forall|x0: u8, x1: u8| #[trigger] spec_opcode(Operation::Ifgt(x0, x1)) == 0x9d,
        forall|x0: u8, x1: u8| #[trigger] spec_opcode(Operation::Ifle(x0, x1)) == 0x9e,
        forall|x0: u8, x1: u8| #[trigger] spec_opcode(Operation::Ificmpeq(x0, x1)) == 0x9f,
        forall|x0: u8, x1: u8| #[trigger] spec_opcode(Operation::Ificmpne(x0, x1)) == 0xa0,
        forall|x0: u8, x1: u8| #[trigger] spec_opcode(Operation::Ificmplt(x0, x1)) == 0xa1,
        forall|x0: u8, x1: u8| #[trigger] spec_opcode(Operation::Ificmpge(x0, x1)) == 0xa2,
        forall|x0: u8, x1: u8| #[trigger] spec_opcode(Operation::Ificmpgt(x0, x1)) == 0xa3,
        forall|x0: u8, x1: u8| #[trigger] spec_opcode(Operation::Ificmple(x0, x1)) == 0xa4,
        forall|x0: u8, x1: u8| #[trigger] spec_opcode(Operation::Ifacmpeq(x0, x1)) == 0xa5,
        forall|x0: u8, x1: u8| #[trigger] spec_opcode(Operation::Ifacmpne(x0, x1)) == 0xa6,
        forall|x0: u8, x1: u8| #[trigger] spec_opcode(Operation::Goto(x0, x1)) == 0xa7,
        forall|x0: u8, x1: u8| #[trigger] spec_opcode(Operation::Jsr(x0, x1)) == 0xa8,
        forall|x0: u8| #[trigger] spec_opcode(Operation::Ret(x0)) == 0xa9,
        spec_opcode(Operation::Ireturn) == 0xac,
        spec_opcode(Operation::Lreturn) == 0xad,
        spec_opcode(Operation::Freturn) == 0xae,
        spec_opcode(Operation::Dreturn) == 0xaf,
        spec_opcode(Operation::Areturn) == 0xb0,
        spec_opcode(Operation::Return) == 0xb1,
        forall|x0: u8, x1: u8| #[trigger] spec_opcode(Operation::Getstatic(x0, x1)) == 0xb2,
        forall|x0: u8, x1: u8| #[trigger] spec_opcode(Operation::Putstatic(x0, x1)) == 0xb3,
        forall|x0: u8, x1: u8| #[trigger] spec_opcode(Operation::Getfield(x0, x1)) == 0xb4,
        forall|x0: u8, x1: u8| #[trigger] spec_opcode(Operation::Putfield(x0, x1)) == 0xb5,
        forall|x0: u8, x1: u8| #[trigger] spec_opcode(Operation::Invokevirtual(x0, x1)) == 0xb6,
        forall|x0: u8, x1: u8| #[trigger] spec_opcode(Operation::Invokespecial(x0, x1)) == 0xb7,
        forall|x0: u8, x1: u8| #[trigger] spec_opcode(Operation::Invokestatic(x0, x1)) == 0xb8,
        forall|x0: u8, x1: u8, x2: u8, x3: u8| #[trigger] spec_opcode(Operation::Invokeinterface(x0, x1, x2, x3)) == 0xb9,
        forall|x0: u8, x1: u8, x2: u8, x3: u8| #[trigger] spec_opcode(Operation::Invokedynamic(x0, x1, x2, x3)) == 0xba,
        forall|x0: u8, x1: u8| #[trigger] spec_opcode(Operation::New(x0, x1)) == 0xbb,
        forall|x0: u8| #[trigger] spec_opcode(Operation::Newarray(x0)) == 0xbc,
        forall|x0: u8, x1: u8| #[trigger] spec_opcode(Operation::Anewarray(x0, x1)) == 0xbd,
        spec_opcode(Operation::Arraylength) == 0xbe,
        spec_opcode(Operation::Athrow) == 0xbf,
        forall|x0: u8, x1: u8| #[trigger] spec_opcode(Operation::Checkcast(x0, x1)) == 0xc0,
        forall|x0: u8, x1: u8| #[trigger] spec_opcode(Operation::Instanceof(x0, x1)) == 0xc1,
        spec_opcode(Operation::Monitorenter) == 0xc2,
        spec_opcode(Operation::Monitorexit) == 0xc3,
        forall|x0: u8, x1: u8, x2: u8| #[trigger] spec_opcode(Operation::Wide(x0, x1, x2)) == 0xc4,
        forall|x0: u8, x1: u8, x2: u8| #[trigger] spec_opcode(Operation::Multianewarray(x0, x1, x2)) == 0xc5,
        forall|x0: u8, x1: u8| #[trigger] spec_opcode(Operation::Ifnull(x0, x1)) == 0xc6,
        forall|x0: u8, x1: u8| #[trigger] spec_opcode(Operation::Ifnonnull(x0, x1)) == 0xc7,
        forall|x0: u8, x1: u8, x2: u8, x3: u8| #[trigger] spec_opcode(Operation::Gotow(x0, x1, x2, x3)) == 0xc8,
        forall|x0: u8, x1: u8, x2: u8, x3: u8| #[trigger] spec_opcode(Operation::Jsrw(x0, x1, x2, x3)) == 0xc9,
        spec_opcode(Operation::Breakpoint) == 0xca,
        spec_opcode(Operation::Impdep1) == 0xfe,
        spec_opcode(Operation::Impdep2) == 0xff,
        forall|x0: i32, x1: i32, x2: Vec<(i32, i32)>| #[trigger] spec_opcode(Operation::Lookupswitch(x0, x1, x2)) == 0xab,
        forall|x0: i32, x1: i32, x2: i32, x3: Vec<i32>| #[trigger] spec_opcode(Operation::Tableswitch(x0, x1, x2, x3)) == 0xaa,
{
}

/// An exception table entry catches the class named `name` when it names
/// that very class, loaded or not; or, for a loaded class, the class its
/// superclass names; or when its catch type is 0.
pub open spec fn entry_catches(classes: Seq<LoadedClass>, cp: Seq<ConstantInfo>, e: ExceptionTableEntry, name: Seq<char>) -> bool {
    ||| e.catch_type == 0
    ||| spec_class_name(cp, e.catch_type) == Some(name)
    ||| (spec_find_class(classes, name) matches Some(t) && classes[t].super_class matches Some(s) && s < classes.len()
        && spec_class_name(cp, e.catch_type) == Some(classes[s as int].class_name@))
}

/// The handler found for an exception thrown at `address`, in a table of
/// well-formed classes, is that of entry `j` when no entry before it covers
/// `address` and entry `j` covers it and catches the thrown class.
pub proof fn law_handler_of_first_covering_entry(
    classes: Seq<LoadedClass>,
    table: Seq<ExceptionTableEntry>,
    cp: Seq<ConstantInfo>,
    address: u32,
    name: Seq<char>,
    j: int,
)
    requires
        forall|c: int| 0 <= c < classes.len() ==> crate::class_loader::class_wf(#[trigger] classes[c], c),
        0 <= j < table.len(),
        forall|k: int| 0 <= k < j ==> !((#[trigger] table[k]).start_pc <= address && address < table[k].end_pc),
        table[j].start_pc <= address && address < table[j].end_pc,
        entry_catches(classes, cp, table[j], name),
    ensures
        spec_handler(classes, table, cp, address, name) == Some(table[j].handler_pc),
    decreases j,
{
    lemma_find_class_bound(classes, name);
    if j > 0 {
        assert(!(table[0].start_pc <= address && address < table[0].end_pc));
        let rest = table.drop_first();
        assert forall|k: int| 0 <= k < j - 1 implies !((#[trigger] rest[k]).start_pc <= address && address < rest[k].end_pc) by {
            assert(rest[k] == table[k + 1]);
        }
        assert(rest[j - 1] == table[j]);
        law_handler_of_first_covering_entry(classes, rest, cp, address, name, j - 1);
    } else {
        if let Some(t) = spec_find_class(classes, name) {
            if let Some(s) = classes[t].super_class {
                if s < classes.len() && spec_class_name(cp, table[0].catch_type) == Some(classes[s as int].class_name@)
                    && table[0].catch_type != 0 && spec_class_name(cp, table[0].catch_type) != Some(name) {
                    assert(crate::class_loader::class_wf(classes[t], t));
                    assert(crate::class_loader::chain_has(classes, s as nat, classes[s as int].class_name@));
                    assert(crate::class_loader::chain_has(classes, t as nat, classes[s as int].class_name@));
                }
            }
        }
    }
}

/// The number of `long` and `double` values among `args`.
pub open spec fn count_wide(args: Seq<Value>) -> nat
    decreases args.len(),
{
    if args.len() == 0 {
        0
    } else {
        count_wide(args.drop_last()) + if args.last() is Long || args.last() is Double { 1nat } else { 0nat }
    }
}

/// Each `long` or `double` argument of a call takes two local slots, any
/// other one: argument `k` lands in local `k` plus the number of `long` and
/// `double` arguments before it, and placing the arguments after it does
/// not overwrite it.
pub proof fn law_argument_slots(locals: Seq<Value>, args: Seq<Value>, k: int)
    requires
        0 <= k < args.len(),
        k + count_wide(args.take(k)) < locals.len(),
    ensures
        slot_of(args, k) == k + count_wide(args.take(k)),
        placed(locals, args, args.len() as int)[k + count_wide(args.take(k))] == args[k],
{
    lemma_slot_count(args, k);
    lemma_placed_keeps(locals, args, k, args.len() as int);
}

/// The slot of argument `k` counts one for each argument before it and one
/// more for each `long` or `double` among them.
proof fn lemma_slot_count(args: Seq<Value>, k: int)
    requires
        0 <= k <= args.len(),
    ensures
        slot_of(args, k) == k + count_wide(args.take(k)),
    decreases k,
{
    if k > 0 {
        lemma_slot_count(args, k - 1);
        assert(args.take(k).drop_last() =~= args.take(k - 1));
        assert(args.take(k).last() == args[k - 1]);
    }
}

/// Slots grow with the argument position.
proof fn lemma_slot_grows(args: Seq<Value>, k: int, m: int)
    requires
        0 <= k < m <= args.len(),
    ensures
        slot_of(args, k) < slot_of(args, m),
    decreases m - k,
{
    if m > k + 1 {
        lemma_slot_grows(args, k, m - 1);
    }
}

/// Argument `k` is in its slot once the arguments up to `n` are placed.
proof fn lemma_placed_keeps(locals: Seq<Value>, args: Seq<Value>, k: int, n: int)
    requires
        0 <= k < n <= args.len(),
        0 <= slot_of(args, k) < locals.len(),
    ensures
        placed(locals, args, n)[slot_of(args, k)] == args[k],
        placed(locals, args, n).len() == locals.len(),
    decreases n,
{
    lemma_placed_len_here(locals, args, n - 1);
    if n - 1 > k {
        lemma_placed_keeps(locals, args, k, n - 1);
        lemma_slot_grows(args, k, n - 1);
    }
}

/// Placing arguments keeps the number of locals.
proof fn lemma_placed_len_here(locals: Seq<Value>, args: Seq<Value>, n: int)
    ensures
        placed(locals, args, n).len() == locals.len(),
    decreases n,
{
    if n > 0 {
        lemma_placed_len_here(locals, args, n - 1);
    }
}

/// A `tableswitch` over the keys `low..=high` takes, for the key at
/// position `i` of that range, the offset at position `i` of its table,
/// and the default offset for a key outside the range.
pub proof fn law_tableswitch_cases(offsets: Seq<i32>, low: i32, high: i32, default: i32)
    requires
        low <= high,
        high - low < offsets.len(),
    ensures
        forall|i: int| 0 <= i <= high - low ==> #[trigger] (table_offsets(offsets, low, high, default))((low + i) as i32)
            == offsets[i],
        forall|key: i32| key < low || key > high ==> #[trigger] (table_offsets(offsets, low, high, default))(key) == default,
{
}

/// A `lookupswitch` whose match values strictly increase takes, for a key
/// equal to the match value of pair `j`, the offset of pair `j`, and the
/// default offset for a key no pair matches.
pub proof fn law_lookupswitch_cases(pairs: Seq<(i32, i32)>, default: i32)
    requires
        forall|a: int, b: int| 0 <= a < b < pairs.len() ==> #[trigger] pairs[a].0 < #[trigger] pairs[b].0,
    ensures
        forall|j: int| 0 <= j < pairs.len() ==> #[trigger] (lookup_offsets(pairs, default))(pairs[j].0) == pairs[j].1,
        forall|key: i32| (forall|j: int| 0 <= j < pairs.len() ==> #[trigger] pairs[j].0 != key) ==> #[trigger] (lookup_offsets(
            pairs,
            default,
        ))(key) == default,
{
    assert forall|j: int| 0 <= j < pairs.len() implies #[trigger] (lookup_offsets(pairs, default))(pairs[j].0) == pairs[j].1 by {
        lemma_lookup_pair(pairs, default, j);
    }
    assert forall|key: i32| (forall|j: int| 0 <= j < pairs.len() ==> #[trigger] pairs[j].0 != key) implies #[trigger] (
        lookup_offsets(pairs, default))(key) == default by {
        lemma_lookup_missing(pairs, default, key);
    }
}

proof fn lemma_lookup_pair(pairs: Seq<(i32, i32)>, default: i32, j: int)
    requires
        0 <= j < pairs.len(),
        forall|a: int, b: int| 0 <= a < b < pairs.len() ==> #[trigger] pairs[a].0 < #[trigger] pairs[b].0,
    ensures
        crate::execute_branch::lookup_offset(pairs, pairs[j].0, default) == pairs[j].1,
    decreases j,
{
    if j > 0 {
        let rest = pairs.drop_first();
        assert(pairs[0].0 < pairs[j].0);
        assert(rest[j - 1] == pairs[j]);
        assert forall|a: int, b: int| 0 <= a < b < rest.len() implies #[trigger] rest[a].0 < #[trigger] rest[b].0 by {
            assert(rest[a] == pairs[a + 1] && rest[b] == pairs[b + 1]);
        }
        lemma_lookup_pair(rest, default, j - 1);
    }
}

proof fn lemma_lookup_missing(pairs: Seq<(i32, i32)>, default: i32, key: i32)
    requires
        forall|j: int| 0 <= j < pairs.len() ==> #[trigger] pairs[j].0 != key,
    ensures
        crate::execute_branch::lookup_offset(pairs, key, default) == default,
    decreases pairs.len(),
{
    if pairs.len() > 0 {
        let rest = pairs.drop_first();
        assert(pairs[0].0 != key);
        assert forall|j: int| 0 <= j < rest.len() implies #[trigger] rest[j].0 != key by {
            assert(rest[j] == pairs[j + 1]);
        }
        lemma_lookup_missing(rest, default, key);
    }
}

/// The values a store of kind `kind` accepts: a `byte` store takes
/// -128..=127, a `char` store 0..=65535, a `short` store -32768..=32767 and
/// an `int` store any `int`.
pub open spec fn java_range(kind: ArrayKind, x: i32) -> bool {
    match kind {
        ArrayKind::B => -128 <= x <= 127,
        ArrayKind::C => 0 <= x <= 65535,
        ArrayKind::S => -32768 <= x <= 32767,
        _ => true,
    }
}

/// The one-letter element types of arrays that a store of the narrow or
/// `int` kind `kind` writes to: `byte` and `boolean` arrays for a `byte`
/// store.
pub open spec fn stores_into(kind: ArrayKind, t: Seq<char>) -> bool {
    match kind {
        ArrayKind::B => t == seq!['B'] || t == seq!['Z'],
        ArrayKind::C => t == seq!['C'],
        ArrayKind::S => t == seq!['S'],
        ArrayKind::I => t == seq!['I'],
        _ => false,
    }
}

/// Storing the `int` `x` at index `i` of an array of a matching element
/// type succeeds and leaves `x` there when `x` lies in the Java range of
/// the store's kind, and is refused when it does not.
#[verifier::rlimit(60)]
pub proof fn law_narrow_array_store(
    old: Frame,
    new: Frame,
    kind: ArrayKind,
    old_heap: Heap,
    new_heap: Heap,
    loader: ClassLoader,
    res: Result<ExecutionResult, JVMError>,
    a: usize,
    i: i32,
    x: i32,
)
    requires
        kind == ArrayKind::B || kind == ArrayKind::C || kind == ArrayKind::S || kind == ArrayKind::I,
        array_store_result(old, new, kind, old_heap, new_heap, loader, res),
        old.operands@.len() >= 3,
        old.operands@[old.operands@.len() - 3] == Value::Reference(Some(a)),
        old.operands@[old.operands@.len() - 2] == Value::Int(i),
        old.operands@[old.operands@.len() - 1] == Value::Int(x),
        a < old_heap.arena@.len(),
        old_heap.arena@[a as int].kind matches ObjectKind::ArrayInstance { length, elements, element_type }
            && stores_into(kind, element_type@) && length == elements@.len() && 0 <= i < length,
    ensures
        java_range(kind, x) ==> res == Ok::<ExecutionResult, JVMError>(ExecutionResult::Continue)
            && contents(new_heap.arena@[a as int])[i as int] == Value::Int(x),
        !java_range(kind, x) ==> res is Err,
{
    let ops = old.operands@;
    let s = ops.take(ops.len() - 3);
    assert(ops =~= s.push(Value::Reference(Some(a))).push(Value::Int(i)).push(Value::Int(x)));
    lemma_pop_three(ops, s, Value::Reference(Some(a)), Value::Int(i), Value::Int(x), crate::runtime::Tag::Int);
    assert(i as usize as int == i as int);
}

/// A value stored into an array element is what a later load of that
/// element gives back: after a store of `v` at index `i` of array `a`
/// succeeds (goes on to the next instruction), a load of the same kind at `i` of `a` pushes `v`.
#[verifier::rlimit(60)]
pub proof fn law_array_store_then_load(
    f0: Frame,
    f1: Frame,
    kind: ArrayKind,
    h0: Heap,
    h1: Heap,
    loader: ClassLoader,
    stored: Result<ExecutionResult, JVMError>,
    g0: Frame,
    g1: Frame,
    loaded: Result<ExecutionResult, JVMError>,
    s: Seq<Value>,
    t: Seq<Value>,
    a: usize,
    i: i32,
    v: Value,
)
    requires
        f0.operands@ == s.push(Value::Reference(Some(a))).push(Value::Int(i)).push(v),
        array_store_result(f0, f1, kind, h0, h1, loader, stored),
        stored == Ok::<ExecutionResult, JVMError>(ExecutionResult::Continue),
        g0.operands@ == t.push(Value::Reference(Some(a))).push(Value::Int(i)),
        t.len() < g0.code.max_stack,
        array_load_result(g0, g1, kind, h1, loaded),
    ensures
        loaded == Ok::<ExecutionResult, JVMError>(ExecutionResult::Continue),
        g1.operands@ == t.push(v),
{
    let ops = f0.operands@;
    let tk = crate::execute_array::kind_tag(kind);
    if !crate::runtime::tag_fits(tk, v) {
        reveal_with_fuel(crate::runtime::pop_many, 1);
        assert(ops.last() == v);
        assert(crate::runtime::popped(ops, 0, seq![tk, crate::runtime::Tag::Int, crate::runtime::Tag::Reference]) is Err);
    }
    lemma_pop_three(ops, s, Value::Reference(Some(a)), Value::Int(i), v, tk);
    lemma_pop_two(g0.operands@, t, Value::Reference(Some(a)), Value::Int(i), crate::runtime::Tag::Int,
        crate::runtime::Tag::Reference, 0);
    assert(a < h0.arena@.len());
    assert(h0.arena@[a as int].kind is ArrayInstance);
}

/// Popping a value of kind `t`, an `int` and a reference off `ops` gives
/// them in that order.
proof fn lemma_pop_three(ops: Seq<Value>, s: Seq<Value>, r: Value, x: Value, v: Value, t: crate::runtime::Tag)
    requires
        ops == s.push(r).push(x).push(v),
        crate::runtime::tag_fits(t, v),
        r is Reference,
        x is Int,
    ensures
        crate::runtime::popped(ops, 0, seq![t, crate::runtime::Tag::Int, crate::runtime::Tag::Reference])
            == Ok::<Seq<Value>, crate::runtime::Failure>(seq![v, x, r]),
{
    reveal_with_fuel(crate::runtime::pop_many, 4);
    assert(ops.drop_last() =~= s.push(r).push(x));
    assert(ops.drop_last().drop_last() =~= s.push(r));
    let tags = seq![t, crate::runtime::Tag::Int, crate::runtime::Tag::Reference];
    assert(tags.drop_first() =~= seq![crate::runtime::Tag::Int, crate::runtime::Tag::Reference]);
    assert(tags.drop_first().drop_first() =~= seq![crate::runtime::Tag::Reference]);
    assert(tags.drop_first().drop_first().drop_first() =~= Seq::<crate::runtime::Tag>::empty());
    assert(seq![v] + (seq![x] + (seq![r] + Seq::<Value>::empty())) =~= seq![v, x, r]);
}

/// A load from an array of a fitting kind pushes the element at the
/// popped index when the index lies inside the array, and throws
/// `java/lang/ArrayIndexOutOfBoundsException` when it lies past its end.
pub proof fn law_array_load(
    old: Frame,
    new: Frame,
    kind: ArrayKind,
    heap: Heap,
    res: Result<ExecutionResult, JVMError>,
    s: Seq<Value>,
    a: usize,
    i: i32,
)
    requires
        old.operands@ == s.push(Value::Reference(Some(a))).push(Value::Int(i)),
        s.len() < old.code.max_stack,
        array_load_result(old, new, kind, heap, res),
        a < heap.arena@.len(),
        heap.arena@[a as int].kind matches ObjectKind::ArrayInstance { length, elements, element_type }
            && crate::execute_array::kind_fits(kind, element_type@) && length == elements@.len(),
    ensures
        0 <= i < contents(heap.arena@[a as int]).len() ==> res == Ok::<ExecutionResult, JVMError>(
            ExecutionResult::Continue) && new.operands@ == s.push(contents(heap.arena@[a as int])[i as int]),
        i >= contents(heap.arena@[a as int]).len() ==> crate::execute_array::throws_bounds(res),
{
    lemma_pop_two(old.operands@, s, Value::Reference(Some(a)), Value::Int(i), crate::runtime::Tag::Int,
        crate::runtime::Tag::Reference, 0);
}

/// `arraylength` of an array pushes its length.
pub proof fn law_arraylength(
    old: Frame,
    new: Frame,
    heap: Heap,
    res: Result<ExecutionResult, JVMError>,
    s: Seq<Value>,
    a: usize,
)
    requires
        old.operands@ == s.push(Value::Reference(Some(a))),
        s.len() < old.code.max_stack,
        crate::execute_array::arraylength_result(old, new, heap, res),
        a < heap.arena@.len(),
        heap.arena@[a as int].kind matches ObjectKind::ArrayInstance { length, .. } && length <= i32::MAX,
    ensures
        res == Ok::<ExecutionResult, JVMError>(ExecutionResult::Continue),
        heap.arena@[a as int].kind matches ObjectKind::ArrayInstance { length, .. }
            && new.operands@ == s.push(Value::Int(length as i32)) && length as i32 as int == length as int,
{
    lemma_pop_one(old.operands@, s, Value::Reference(Some(a)), crate::runtime::Tag::Reference, 0);
}

/// Division of `x` by `d` rounds toward zero: `quot` and `rem` are the
/// quotient and remainder of the JVM's `idiv` and `irem`.
pub proof fn lemma_quot_rem(x: int, d: int)
    requires
        d != 0,
    ensures
        crate::execute_arith::quot(x, d) * d + crate::execute_arith::rem(x, d) == x,
        crate::execute_arith::abs(crate::execute_arith::rem(x, d)) < crate::execute_arith::abs(d),
        crate::execute_arith::rem(x, d) == 0 || (crate::execute_arith::rem(x, d) < 0) == (x < 0),
{
    let ax = crate::execute_arith::abs(x);
    let ad = crate::execute_arith::abs(d);
    vstd::arithmetic::div_mod::lemma_fundamental_div_mod(ax, ad);
    vstd::arithmetic::div_mod::lemma_mod_pos_bound(ax, ad);
    let q0 = ax / ad;
    let r0 = ax % ad;
    assert(ax == ad * q0 + r0);
    if x >= 0 && d > 0 {
        assert(q0 * d == ad * q0) by (nonlinear_arith) requires ad == d;
    } else if x >= 0 && d < 0 {
        assert((-q0) * d == ad * q0) by (nonlinear_arith) requires ad == -d;
    } else if x < 0 && d > 0 {
        assert((-q0) * d == -(ad * q0)) by (nonlinear_arith) requires ad == d;
    } else {
        assert(q0 * d == -(ad * q0)) by (nonlinear_arith) requires ad == -d;
    }
}

/// `iadd`, `isub` and `imul` of the two `int`s on top, the first pushed on
/// the left, push their sum, difference and product when it is an `int`.
pub proof fn law_int_arithmetic(old: Frame, new: Frame, res: Result<ExecutionResult, JVMError>, s: Seq<Value>, a: i32, b: i32)
    requires
        old.operands@ == s.push(Value::Int(a)).push(Value::Int(b)),
        s.len() < old.code.max_stack,
    ensures
        frame_effect(Operation::Iadd, old, new, res) && i32::MIN <= a + b <= i32::MAX ==> res == Ok::<ExecutionResult,
            JVMError>(ExecutionResult::Continue) && new.operands@ == s.push(Value::Int((a + b) as i32)),
        frame_effect(Operation::Isub, old, new, res) && i32::MIN <= a - b <= i32::MAX ==> res == Ok::<ExecutionResult,
            JVMError>(ExecutionResult::Continue) && new.operands@ == s.push(Value::Int((a - b) as i32)),
        frame_effect(Operation::Imul, old, new, res) && i32::MIN <= a * b <= i32::MAX ==> res == Ok::<ExecutionResult,
            JVMError>(ExecutionResult::Continue) && new.operands@ == s.push(Value::Int((a * b) as i32)),
{
    lemma_pop_two(old.operands@, s, Value::Int(a), Value::Int(b), crate::runtime::Tag::Int, crate::runtime::Tag::Int, 2);
}

/// Whether `q` and `m` are the quotient and remainder of `x` divided by
/// `d` rounded toward zero: `q` times `d` plus `m` is `x`, `m` is smaller
/// than `d` and has the sign of `x`.
pub open spec fn divides(x: int, d: int, q: int, m: int) -> bool {
    &&& q * d + m == x
    &&& crate::execute_arith::abs(m) < crate::execute_arith::abs(d)
    &&& m == 0 || (m < 0) == (x < 0)
}

/// `idiv` and `irem` by a non-zero `int` push the quotient rounded toward
/// zero and the remainder that goes with it: quotient times divisor plus
/// remainder is the dividend, the remainder is smaller than the divisor
/// and has the dividend's sign. Division by zero throws
/// `java/lang/ArithmeticException`.
pub proof fn law_int_division(old: Frame, new: Frame, res: Result<ExecutionResult, JVMError>, s: Seq<Value>, a: i32, b: i32)
    requires
        old.operands@ == s.push(Value::Int(a)).push(Value::Int(b)),
        s.len() < old.code.max_stack,
    ensures
        frame_effect(Operation::Idiv, old, new, res) && b != 0 && !(a == i32::MIN && b == -1) ==> {
            &&& res == Ok::<ExecutionResult, JVMError>(ExecutionResult::Continue)
            &&& exists|q: i32, m: int| #[trigger] divides(a as int, b as int, q as int, m) && new.operands@ == s.push(Value::Int(q))
        },
        frame_effect(Operation::Irem, old, new, res) && b != 0 && !(a == i32::MIN && b == -1) ==> {
            &&& res == Ok::<ExecutionResult, JVMError>(ExecutionResult::Continue)
            &&& exists|q: int, m: i32| #[trigger] divides(a as int, b as int, q, m as int) && new.operands@ == s.push(Value::Int(m))
        },
        frame_effect(Operation::Idiv, old, new, res) && b == 0 ==> (res matches Ok(ExecutionResult::Throw(n))
            && n@ == "java/lang/ArithmeticException"@),
{
    lemma_pop_two(old.operands@, s, Value::Int(a), Value::Int(b), crate::runtime::Tag::Int, crate::runtime::Tag::Int, 2);
    if b != 0 {
        lemma_quot_rem(a as int, b as int);
        let q = crate::execute_arith::quot(a as int, b as int);
        let m = crate::execute_arith::rem(a as int, b as int);
        if !(a == i32::MIN && b == -1) {
            lemma_quot_fits(a as int, b as int);
            assert((q as i32) as int == q);
            assert((m as i32) as int == m);
            assert(divides(a as int, b as int, (q as i32) as int, m));
            assert(divides(a as int, b as int, q, (m as i32) as int));
            assert(crate::execute_arith::arith(crate::execute_arith::ArithOp::Div, a as int, b as int) == q);
            assert(crate::execute_arith::arith(crate::execute_arith::ArithOp::Rem, a as int, b as int) == m);
            assert(crate::execute_arith::arith_fits(crate::execute_arith::ArithOp::Div, a as int, b as int, i32::MIN as int,
                i32::MAX as int));
            assert(crate::execute_arith::arith_fits(crate::execute_arith::ArithOp::Rem, a as int, b as int, i32::MIN as int,
                i32::MAX as int));
            if frame_effect(Operation::Idiv, old, new, res) {
                assert(new.operands@ == s.push(Value::Int(q as i32)));
                assert(new.operands@.drop_last() =~= s);
                assert(res == Ok::<ExecutionResult, JVMError>(ExecutionResult::Continue));
                assert(new.operands@.last() == Value::Int(q as i32));
                assert(divides(a as int, b as int, (q as i32) as int, m) && new.operands@ == s.push(Value::Int(q as i32)));
            }
            if frame_effect(Operation::Irem, old, new, res) {
                assert(new.operands@ == s.push(Value::Int(m as i32)));
                assert(new.operands@.drop_last() =~= s);
                assert(res == Ok::<ExecutionResult, JVMError>(ExecutionResult::Continue));
                assert(new.operands@.last() == Value::Int(m as i32));
                assert(divides(a as int, b as int, q, (m as i32) as int) && new.operands@ == s.push(Value::Int(m as i32)));
            }
        }
    }
}

/// The quotient of two `int`s fits an `int` unless it is the least one
/// divided by -1, and so does the remainder.
proof fn lemma_quot_fits(x: int, d: int)
    requires
        i32::MIN <= x <= i32::MAX,
        i32::MIN <= d <= i32::MAX,
        d != 0,
        !(x == i32::MIN && d == -1),
    ensures
        i32::MIN <= crate::execute_arith::quot(x, d) <= i32::MAX,
        i32::MIN <= crate::execute_arith::rem(x, d) <= i32::MAX,
{
    let ax = crate::execute_arith::abs(x);
    let ad = crate::execute_arith::abs(d);
    vstd::arithmetic::div_mod::lemma_mod_pos_bound(ax, ad);
    vstd::arithmetic::div_mod::lemma_div_pos_is_pos(ax, ad);
    vstd::arithmetic::div_mod::lemma_div_is_ordered_by_denominator(ax, 1, ad);
    assert(ax / 1 == ax);
    if x == i32::MIN && ad >= 2 {
        vstd::arithmetic::div_mod::lemma_div_is_ordered_by_denominator(ax, 2, ad);
        assert(ax / 2 == 0x4000_0000);
    }
}

/// Popping two values of the kinds `tx` (the top) and `ty` off `s`, `y`,
/// `x` gives the top first; the rest is `s`.
proof fn lemma_pop_two(ops: Seq<Value>, s: Seq<Value>, y: Value, x: Value, tx: crate::runtime::Tag, ty: crate::runtime::Tag, need: usize)
    requires
        ops == s.push(y).push(x),
        crate::runtime::tag_fits(tx, x),
        crate::runtime::tag_fits(ty, y),
        need <= 2,
    ensures
        crate::runtime::popped(ops, need, seq![tx, ty]) == Ok::<Seq<Value>, crate::runtime::Failure>(seq![x, y]),
        crate::runtime::rest(ops, 2) == s,
        crate::runtime::rest(ops, 1) == s.push(y),
{
    reveal_with_fuel(crate::runtime::pop_many, 3);
    assert(ops.drop_last() =~= s.push(y));
    assert(ops.drop_last().drop_last() =~= s);
    assert(crate::runtime::rest(ops, 2) =~= s);
    assert(crate::runtime::rest(ops, 1) =~= s.push(y));
    assert(seq![x] + (seq![y] + Seq::<Value>::empty()) =~= seq![x, y]);
}

/// Popping one value of the kind `t` off `s`, `x` gives `x`; the rest is `s`.
proof fn lemma_pop_one(ops: Seq<Value>, s: Seq<Value>, x: Value, t: crate::runtime::Tag, need: usize)
    requires
        ops == s.push(x),
        crate::runtime::tag_fits(t, x),
        need <= 1,
    ensures
        crate::runtime::popped(ops, need, seq![t]) == Ok::<Seq<Value>, crate::runtime::Failure>(seq![x]),
        crate::runtime::rest(ops, 1) == s,
{
    reveal_with_fuel(crate::runtime::pop_many, 2);
    assert(ops.drop_last() =~= s);
    assert(crate::runtime::rest(ops, 1) =~= s);
    assert(seq![x] + Seq::<Value>::empty() =~= seq![x]);
}

/// `lshl`, `lshr` and `lushr` shift the `long` below by the low six bits
/// of the `int` on top: left, right keeping the sign, and right filling
/// with zeros.
pub proof fn law_long_shifts(old: Frame, new: Frame, res: Result<ExecutionResult, JVMError>, s: Seq<Value>, a: i64, n: i32)
    requires
        old.operands@ == s.push(Value::Long(a)).push(Value::Int(n)),
        s.len() < old.code.max_stack,
    ensures
        frame_effect(Operation::Lshl, old, new, res) ==> res == Ok::<ExecutionResult, JVMError>(ExecutionResult::Continue)
            && new.operands@ == s.push(Value::Long(a << ((n & 63) as u32))),
        frame_effect(Operation::Lshr, old, new, res) ==> res == Ok::<ExecutionResult, JVMError>(ExecutionResult::Continue)
            && new.operands@ == s.push(Value::Long(a >> ((n & 63) as u32))),
        frame_effect(Operation::Lushr, old, new, res) ==> res == Ok::<ExecutionResult, JVMError>(ExecutionResult::Continue)
            && new.operands@ == s.push(Value::Long(((a as u64) >> ((n & 63) as u32)) as i64)),
{
    lemma_pop_two(old.operands@, s, Value::Long(a), Value::Int(n), crate::runtime::Tag::Int, crate::runtime::Tag::Long, 0);
    assert(((n as i64) & 0x3f) as u32 == (n & 63) as u32) by (bit_vector);
}

/// `ineg` and `lneg` push the value that added to the popped one gives 0,
/// for every value but the least, whose negation does not fit.
pub proof fn law_negation(old: Frame, new: Frame, res: Result<ExecutionResult, JVMError>, s: Seq<Value>, x: i32, y: i64)
    requires
        s.len() < old.code.max_stack,
    ensures
        frame_effect(Operation::Ineg, old, new, res) && old.operands@ == s.push(Value::Int(x)) && x != i32::MIN ==> {
            &&& res == Ok::<ExecutionResult, JVMError>(ExecutionResult::Continue)
            &&& new.operands@.drop_last() == s
            &&& new.operands@.last() matches Value::Int(z) && z + x == 0
        },
        frame_effect(Operation::Lneg, old, new, res) && old.operands@ == s.push(Value::Long(y)) && y != i64::MIN ==> {
            &&& res == Ok::<ExecutionResult, JVMError>(ExecutionResult::Continue)
            &&& new.operands@.drop_last() == s
            &&& new.operands@.last() matches Value::Long(z) && z + y == 0
        },
{
    if old.operands@ == s.push(Value::Int(x)) {
        lemma_pop_one(old.operands@, s, Value::Int(x), crate::runtime::Tag::Int, 1);
        assert(s.push(Value::Int((-x) as i32)).drop_last() =~= s);
    }
    if old.operands@ == s.push(Value::Long(y)) {
        lemma_pop_one(old.operands@, s, Value::Long(y), crate::runtime::Tag::Long, 1);
        assert(s.push(Value::Long((-y) as i64)).drop_last() =~= s);
    }
}

/// `ldiv` and `lrem` by a non-zero `long` push the quotient rounded toward
/// zero and the remainder that goes with it; `ldiv` by zero throws
/// `java/lang/ArithmeticException`.
pub proof fn law_long_division(old: Frame, new: Frame, res: Result<ExecutionResult, JVMError>, s: Seq<Value>, a: i64, b: i64)
    requires
        old.operands@ == s.push(Value::Long(a)).push(Value::Long(b)),
        s.len() < old.code.max_stack,
    ensures
        frame_effect(Operation::Ldiv, old, new, res) && b != 0 && !(a == i64::MIN && b == -1) ==> {
            &&& res == Ok::<ExecutionResult, JVMError>(ExecutionResult::Continue)
            &&& exists|q: i64, m: int| #[trigger] divides(a as int, b as int, q as int, m) && new.operands@ == s.push(Value::Long(q))
        },
        frame_effect(Operation::Lrem, old, new, res) && b != 0 && !(a == i64::MIN && b == -1) ==> {
            &&& res == Ok::<ExecutionResult, JVMError>(ExecutionResult::Continue)
            &&& exists|q: int, m: i64| #[trigger] divides(a as int, b as int, q, m as int) && new.operands@ == s.push(Value::Long(m))
        },
        frame_effect(Operation::Ldiv, old, new, res) && b == 0 ==> (res matches Ok(ExecutionResult::Throw(n))
            && n@ == "java/lang/ArithmeticException"@),
{
    lemma_pop_two(old.operands@, s, Value::Long(a), Value::Long(b), crate::runtime::Tag::Long, crate::runtime::Tag::Long, 2);
    if b != 0 {
        lemma_quot_rem(a as int, b as int);
        let q = crate::execute_arith::quot(a as int, b as int);
        let m = crate::execute_arith::rem(a as int, b as int);
        if !(a == i64::MIN && b == -1) {
            lemma_quot_fits_long(a as int, b as int);
            assert((q as i64) as int == q);
            assert((m as i64) as int == m);
            assert(crate::execute_arith::arith(crate::execute_arith::ArithOp::Div, a as int, b as int) == q);
            assert(crate::execute_arith::arith(crate::execute_arith::ArithOp::Rem, a as int, b as int) == m);
            assert(crate::execute_arith::arith_fits(crate::execute_arith::ArithOp::Div, a as int, b as int, i64::MIN as int,
                i64::MAX as int));
            assert(crate::execute_arith::arith_fits(crate::execute_arith::ArithOp::Rem, a as int, b as int, i64::MIN as int,
                i64::MAX as int));
            if frame_effect(Operation::Ldiv, old, new, res) {
                assert(divides(a as int, b as int, (q as i64) as int, m) && new.operands@ == s.push(Value::Long(q as i64)));
            }
            if frame_effect(Operation::Lrem, old, new, res) {
                assert(divides(a as int, b as int, q, (m as i64) as int) && new.operands@ == s.push(Value::Long(m as i64)));
            }
        }
    }
}

/// The quotient of two `long`s fits a `long` unless it is the least one
/// divided by -1, and so does the remainder.
proof fn lemma_quot_fits_long(x: int, d: int)
    requires
        i64::MIN <= x <= i64::MAX,
        i64::MIN <= d <= i64::MAX,
        d != 0,
        !(x == i64::MIN && d == -1),
    ensures
        i64::MIN <= crate::execute_arith::quot(x, d) <= i64::MAX,
        i64::MIN <= crate::execute_arith::rem(x, d) <= i64::MAX,
{
    let ax = crate::execute_arith::abs(x);
    let ad = crate::execute_arith::abs(d);
    vstd::arithmetic::div_mod::lemma_mod_pos_bound(ax, ad);
    vstd::arithmetic::div_mod::lemma_div_pos_is_pos(ax, ad);
    vstd::arithmetic::div_mod::lemma_div_is_ordered_by_denominator(ax, 1, ad);
    assert(ax / 1 == ax);
    if x == i64::MIN && ad >= 2 {
        vstd::arithmetic::div_mod::lemma_div_is_ordered_by_denominator(ax, 2, ad);
        assert(ax / 2 == 0x4000_0000_0000_0000);
    }
}

/// `goto` always jumps by its offset and leaves the operand stack as it
/// was; `pop` drops the top value; `pop2` drops one `long` or `double`, or
/// else two values of the other kinds.
pub proof fn law_goto_and_pops(old: Frame, new: Frame, res: Result<ExecutionResult, JVMError>, s: Seq<Value>, x: Value, y: Value,
    h: u8, l: u8)
    requires
        old.operands@.len() > 0,
    ensures
        frame_effect(Operation::Goto(h, l), old, new, res) ==> new.operands@ == old.operands@ && branched(old, new, true,
            crate::execute::offset16(h, l), res),
        frame_effect(Operation::Pop, old, new, res) && old.operands@ == s.push(x) ==> res == Ok::<ExecutionResult,
            JVMError>(ExecutionResult::Continue) && new.operands@ == s,
        frame_effect(Operation::Pop2, old, new, res) && old.operands@ == s.push(x) && (x is Long || x is Double) ==> res
            == Ok::<ExecutionResult, JVMError>(ExecutionResult::Continue) && new.operands@ == s,
        frame_effect(Operation::Pop2, old, new, res) && old.operands@ == s.push(y).push(x) && !(x is Long || x is Double)
            ==> res == Ok::<ExecutionResult, JVMError>(ExecutionResult::Continue) && new.operands@ == s,
{
    if old.operands@ == s.push(x) {
        assert(crate::runtime::rest(old.operands@, 1) =~= s);
        assert(old.operands@.drop_last() =~= s);
    }
    if old.operands@ == s.push(y).push(x) {
        assert(crate::runtime::rest(old.operands@, 2) =~= s);
    }
}

/// `sipush` pushes its two operand bytes read as a signed 16-bit value,
/// the high byte first.
pub proof fn law_sipush(old: Frame, new: Frame, res: Result<ExecutionResult, JVMError>, h: u8, l: u8)
    requires
        old.operands@.len() < old.code.max_stack,
    ensures
        frame_effect(Operation::Sipush(h, l), old, new, res) ==> {
            &&& res == Ok::<ExecutionResult, JVMError>(ExecutionResult::Continue)
            &&& new.operands@.drop_last() == old.operands@
            &&& new.operands@.last() matches Value::Int(v)
            &&& (h < 128 ==> v == h * 256 + l)
            &&& (h >= 128 ==> v == h * 256 + l - 65536)
        },
{
    let u = h as int * 256 + l as int;
    assert(0 <= u < 65536) by (nonlinear_arith) requires 0 <= h < 256, 0 <= l < 256, u == h as int * 256 + l as int;
    assert(h < 128 ==> u < 32768) by (nonlinear_arith) requires 0 <= l < 256, u == h as int * 256 + l as int;
    assert(h >= 128 ==> u >= 32768) by (nonlinear_arith) requires 0 <= l < 256, u == h as int * 256 + l as int;
    let w: u16 = u as u16;
    assert(w as int == u);
    assert(crate::execute::offset16(h, l) == w as i16);
    assert(w < 32768 ==> (w as i16) as i32 == w as i32) by (bit_vector);
    assert(w >= 32768 ==> (w as i16) as i32 == w as i32 - 65536) by (bit_vector);
    assert(old.operands@.push(Value::Int(crate::execute::short_value(h, l))).drop_last() =~= old.operands@);
}

/// `ireturn`, `lreturn` and `areturn` hand the value on top of the
/// stack back to the caller, when it is of the instruction's kind;
/// `return` hands back nothing.
pub proof fn law_returns(old: Frame, new: Frame, res: Result<ExecutionResult, JVMError>, s: Seq<Value>, v: Value)
    requires
        old.operands@ == s.push(v),
    ensures
        frame_effect(Operation::Ireturn, old, new, res) && v is Int ==> res == Ok::<ExecutionResult, JVMError>(
            ExecutionResult::Return(Some(v))) && new.operands@ == s,
        frame_effect(Operation::Lreturn, old, new, res) && v is Long ==> res == Ok::<ExecutionResult, JVMError>(
            ExecutionResult::Return(Some(v))) && new.operands@ == s,
        frame_effect(Operation::Areturn, old, new, res) && v is Reference ==> res == Ok::<ExecutionResult, JVMError>(
            ExecutionResult::Return(Some(v))) && new.operands@ == s,
        frame_effect(Operation::Return, old, new, res) ==> res == Ok::<ExecutionResult, JVMError>(
            ExecutionResult::Return(None)),
{
    if v is Int {
        lemma_pop_one(old.operands@, s, v, crate::runtime::Tag::Int, 0);
    }
    if v is Long {
        lemma_pop_one(old.operands@, s, v, crate::runtime::Tag::Long, 0);
    }
    if v is Reference {
        lemma_pop_one(old.operands@, s, v, crate::runtime::Tag::Reference, 0);
    }
}

/// `iand`, `ior` and `ixor` of the two `int`s on top push their bitwise
/// and, or and exclusive or; `ishl`, `ishr` and `iushr` shift the `int`
/// below by the low five bits of the `int` on top: left, right keeping the
/// sign, and right filling with zeros.
pub proof fn law_int_bitwise(old: Frame, new: Frame, res: Result<ExecutionResult, JVMError>, s: Seq<Value>, a: i32, b: i32)
    requires
        old.operands@ == s.push(Value::Int(a)).push(Value::Int(b)),
        s.len() < old.code.max_stack,
    ensures
        frame_effect(Operation::Iand, old, new, res) ==> res == Ok::<ExecutionResult, JVMError>(ExecutionResult::Continue)
            && new.operands@ == s.push(Value::Int(a & b)),
        frame_effect(Operation::Ior, old, new, res) ==> res == Ok::<ExecutionResult, JVMError>(ExecutionResult::Continue)
            && new.operands@ == s.push(Value::Int(a | b)),
        frame_effect(Operation::Ixor, old, new, res) ==> res == Ok::<ExecutionResult, JVMError>(ExecutionResult::Continue)
            && new.operands@ == s.push(Value::Int(a ^ b)),
        frame_effect(Operation::Ishl, old, new, res) ==> res == Ok::<ExecutionResult, JVMError>(ExecutionResult::Continue)
            && new.operands@ == s.push(Value::Int(a << ((b & 31) as u32))),
        frame_effect(Operation::Ishr, old, new, res) ==> res == Ok::<ExecutionResult, JVMError>(ExecutionResult::Continue)
            && new.operands@ == s.push(Value::Int(a >> ((b & 31) as u32))),
        frame_effect(Operation::Iushr, old, new, res) ==> res == Ok::<ExecutionResult, JVMError>(ExecutionResult::Continue)
            && new.operands@ == s.push(Value::Int(((a as u32) >> ((b & 31) as u32)) as i32)),
{
    lemma_pop_two(old.operands@, s, Value::Int(a), Value::Int(b), crate::runtime::Tag::Int, crate::runtime::Tag::Int, 2);
    assert(b & 31 == b & 0x1f);
    assert(a & b == b & a) by (bit_vector);
    assert(a | b == b | a) by (bit_vector);
    assert(a ^ b == b ^ a) by (bit_vector);
}

/// `ladd`, `lsub` and `lmul` of the two `long`s on top push their sum,
/// difference and product when it is a `long`; `land`, `lor` and `lxor`
/// their bitwise and, or and exclusive or.
pub proof fn law_long_arithmetic(old: Frame, new: Frame, res: Result<ExecutionResult, JVMError>, s: Seq<Value>, a: i64, b: i64)
    requires
        old.operands@ == s.push(Value::Long(a)).push(Value::Long(b)),
        s.len() < old.code.max_stack,
    ensures
        frame_effect(Operation::Ladd, old, new, res) && i64::MIN <= a + b <= i64::MAX ==> res == Ok::<ExecutionResult,
            JVMError>(ExecutionResult::Continue) && new.operands@ == s.push(Value::Long((a + b) as i64)),
        frame_effect(Operation::Lsub, old, new, res) && i64::MIN <= a - b <= i64::MAX ==> res == Ok::<ExecutionResult,
            JVMError>(ExecutionResult::Continue) && new.operands@ == s.push(Value::Long((a - b) as i64)),
        frame_effect(Operation::Lmul, old, new, res) && i64::MIN <= a * b <= i64::MAX ==> res == Ok::<ExecutionResult,
            JVMError>(ExecutionResult::Continue) && new.operands@ == s.push(Value::Long((a * b) as i64)),
        frame_effect(Operation::Land, old, new, res) ==> res == Ok::<ExecutionResult, JVMError>(ExecutionResult::Continue)
            && new.operands@ == s.push(Value::Long(a & b)),
        frame_effect(Operation::Lor, old, new, res) ==> res == Ok::<ExecutionResult, JVMError>(ExecutionResult::Continue)
            && new.operands@ == s.push(Value::Long(a | b)),
        frame_effect(Operation::Lxor, old, new, res) ==> res == Ok::<ExecutionResult, JVMError>(ExecutionResult::Continue)
            && new.operands@ == s.push(Value::Long(a ^ b)),
{
    lemma_pop_two(old.operands@, s, Value::Long(a), Value::Long(b), crate::runtime::Tag::Long, crate::runtime::Tag::Long, 2);
    assert(a & b == b & a) by (bit_vector);
    assert(a | b == b | a) by (bit_vector);
    assert(a ^ b == b ^ a) by (bit_vector);
}

/// Whether the branch of the frame `old` by `offset` gave `new` and `res`:
/// when `taken`, a jump by `offset` from the current instruction; else the
/// frame stays at the branch, for the interpreter to move past it.
pub open spec fn branched(old: Frame, new: Frame, taken: bool, offset: i16, res: Result<ExecutionResult, JVMError>) -> bool {
    if taken {
        crate::execute_branch::jumps_to(*old.code, old.pc, crate::execute_branch::target16(old.code.code@[old.pc as int].0,
            offset), offset as i32, new.pc, res)
    } else {
        res == Ok::<ExecutionResult, JVMError>(ExecutionResult::Continue) && new.pc == old.pc
    }
}

/// `ifeq`, `ifne`, `iflt`, `ifge`, `ifgt` and `ifle` pop an `int` and
/// branch when it is equal to, different from, less than, at least,
/// greater than or at most 0.
pub proof fn law_branch_on_zero(old: Frame, new: Frame, res: Result<ExecutionResult, JVMError>, s: Seq<Value>, v: i32, h: u8, l: u8)
    requires
        old.operands@ == s.push(Value::Int(v)),
    ensures
        frame_effect(Operation::Ifeq(h, l), old, new, res) ==> new.operands@ == s && branched(old, new, v == 0,
            crate::execute::offset16(h, l), res),
        frame_effect(Operation::Ifne(h, l), old, new, res) ==> new.operands@ == s && branched(old, new, v != 0,
            crate::execute::offset16(h, l), res),
        frame_effect(Operation::Iflt(h, l), old, new, res) ==> new.operands@ == s && branched(old, new, v < 0,
            crate::execute::offset16(h, l), res),
        frame_effect(Operation::Ifge(h, l), old, new, res) ==> new.operands@ == s && branched(old, new, v >= 0,
            crate::execute::offset16(h, l), res),
        frame_effect(Operation::Ifgt(h, l), old, new, res) ==> new.operands@ == s && branched(old, new, v > 0,
            crate::execute::offset16(h, l), res),
        frame_effect(Operation::Ifle(h, l), old, new, res) ==> new.operands@ == s && branched(old, new, v <= 0,
            crate::execute::offset16(h, l), res),
{
    lemma_pop_one(old.operands@, s, Value::Int(v), crate::runtime::Tag::Int, 1);
}

/// `if_icmpeq`, `if_icmpne`, `if_icmplt`, `if_icmpge`, `if_icmpgt` and
/// `if_icmple` pop two `int`s and branch when the first pushed is equal
/// to, different from, less than, at least, greater than or at most the
/// second.
pub proof fn law_branch_on_compare(old: Frame, new: Frame, res: Result<ExecutionResult, JVMError>, s: Seq<Value>, x: i32, y: i32, h: u8,
    l: u8)
    requires
        old.operands@ == s.push(Value::Int(x)).push(Value::Int(y)),
    ensures
        frame_effect(Operation::Ificmpeq(h, l), old, new, res) ==> new.operands@ == s && branched(old, new, x == y,
            crate::execute::offset16(h, l), res),
        frame_effect(Operation::Ificmpne(h, l), old, new, res) ==> new.operands@ == s && branched(old, new, x != y,
            crate::execute::offset16(h, l), res),
        frame_effect(Operation::Ificmplt(h, l), old, new, res) ==> new.operands@ == s && branched(old, new, x < y,
            crate::execute::offset16(h, l), res),
        frame_effect(Operation::Ificmpge(h, l), old, new, res) ==> new.operands@ == s && branched(old, new, x >= y,
            crate::execute::offset16(h, l), res),
        frame_effect(Operation::Ificmpgt(h, l), old, new, res) ==> new.operands@ == s && branched(old, new, x > y,
            crate::execute::offset16(h, l), res),
        frame_effect(Operation::Ificmple(h, l), old, new, res) ==> new.operands@ == s && branched(old, new, x <= y,
            crate::execute::offset16(h, l), res),
{
    lemma_pop_two(old.operands@, s, Value::Int(x), Value::Int(y), crate::runtime::Tag::Int, crate::runtime::Tag::Int, 2);
}

/// `ifnull` and `ifnonnull` pop a reference and branch when it is null, or
/// when it is not.
pub proof fn law_branch_on_null(old: Frame, new: Frame, res: Result<ExecutionResult, JVMError>, s: Seq<Value>, r: Option<usize>, h: u8,
    l: u8)
    requires
        old.operands@ == s.push(Value::Reference(r)),
    ensures
        frame_effect(Operation::Ifnull(h, l), old, new, res) ==> new.operands@ == s && branched(old, new, r is None,
            crate::execute::offset16(h, l), res),
        frame_effect(Operation::Ifnonnull(h, l), old, new, res) ==> new.operands@ == s && branched(old, new, r is Some,
            crate::execute::offset16(h, l), res),
{
    lemma_pop_one(old.operands@, s, Value::Reference(r), crate::runtime::Tag::Reference, 1);
}

/// `if_acmpeq` and `if_acmpne` pop two references and branch when they are
/// the same (both null, or to the same object), or when they are not.
pub proof fn law_branch_on_same_reference(old: Frame, new: Frame, res: Result<ExecutionResult, JVMError>, s: Seq<Value>,
    p: Option<usize>, q: Option<usize>, h: u8, l: u8)
    requires
        old.operands@ == s.push(Value::Reference(p)).push(Value::Reference(q)),
    ensures
        frame_effect(Operation::Ifacmpeq(h, l), old, new, res) ==> new.operands@ == s && branched(old, new, p == q,
            crate::execute::offset16(h, l), res),
        frame_effect(Operation::Ifacmpne(h, l), old, new, res) ==> new.operands@ == s && branched(old, new, p != q,
            crate::execute::offset16(h, l), res),
{
    lemma_pop_two(old.operands@, s, Value::Reference(p), Value::Reference(q), crate::runtime::Tag::Reference,
        crate::runtime::Tag::Reference, 2);
}

/// The constant instructions push their constant: `iconst_m1` to
/// `iconst_5` the `int`s -1 to 5, `lconst_0` and `lconst_1` the `long`s 0
/// and 1, `aconst_null` the null reference, and `bipush` its operand byte
/// read as a signed byte.
pub proof fn law_constants(old: Frame, new: Frame, res: Result<ExecutionResult, JVMError>, l: u8)
    requires
        old.operands@.len() < old.code.max_stack,
    ensures
        frame_effect(Operation::Iconstm1, old, new, res) ==> new.operands@ == old.operands@.push(Value::Int(-1i32)),
        frame_effect(Operation::Iconst0, old, new, res) ==> new.operands@ == old.operands@.push(Value::Int(0)),
        frame_effect(Operation::Iconst1, old, new, res) ==> new.operands@ == old.operands@.push(Value::Int(1)),
        frame_effect(Operation::Iconst2, old, new, res) ==> new.operands@ == old.operands@.push(Value::Int(2)),
        frame_effect(Operation::Iconst3, old, new, res) ==> new.operands@ == old.operands@.push(Value::Int(3)),
        frame_effect(Operation::Iconst4, old, new, res) ==> new.operands@ == old.operands@.push(Value::Int(4)),
        frame_effect(Operation::Iconst5, old, new, res) ==> new.operands@ == old.operands@.push(Value::Int(5)),
        frame_effect(Operation::Lconst0, old, new, res) ==> new.operands@ == old.operands@.push(Value::Long(0)),
        frame_effect(Operation::Lconst1, old, new, res) ==> new.operands@ == old.operands@.push(Value::Long(1)),
        frame_effect(Operation::Aconstnull, old, new, res) ==> new.operands@ == old.operands@.push(Value::Reference(None)),
        frame_effect(Operation::Bipush(l), old, new, res) && l < 128 ==> new.operands@ == old.operands@.push(Value::Int(l as i32)),
        frame_effect(Operation::Bipush(l), old, new, res) && l >= 128 ==> (new.operands@.drop_last() == old.operands@
            && (new.operands@.last() matches Value::Int(v) && v + 256 == l)),
{
    assert(l < 128 ==> (l as i8) as i32 == l as i32) by (bit_vector);
    assert(l >= 128 ==> (l as i8) as i32 + 256 == l as i32) by (bit_vector);
    assert(old.operands@.push(Value::Int(crate::execute::byte_value(l))).drop_last() =~= old.operands@);
}

/// The stack instructions copy values as the JVM specification shows: with
/// `a` below `b` below `c` below `d` on top, `dup` leaves `d d`, `dup_x1`
/// leaves `d c d`, `dup_x2` leaves `d b c d`, `dup2` leaves `c d c d`,
/// `dup2_x1` leaves `c d b c d` and `dup2_x2` leaves `c d a b c d`.
pub proof fn law_stack_copies(old: Frame, new: Frame, res: Result<ExecutionResult, JVMError>, s: Seq<Value>, a: Value, b: Value,
    c: Value, d: Value)
    requires
        old.operands@ == s.push(a).push(b).push(c).push(d),
        s.len() + 10 <= old.code.max_stack,
    ensures
        frame_effect(Operation::Dup, old, new, res) ==> new.operands@ == s.push(a).push(b).push(c).push(d).push(d),
        frame_effect(Operation::Dupx1, old, new, res) ==> new.operands@ == s.push(a).push(b).push(d).push(c).push(d),
        frame_effect(Operation::Dupx2, old, new, res) ==> new.operands@ == s.push(a).push(d).push(b).push(c).push(d),
        frame_effect(Operation::Dup2, old, new, res) ==> new.operands@ == s.push(a).push(b).push(c).push(d).push(c).push(d),
        frame_effect(Operation::Dup2x1, old, new, res) ==> new.operands@ == s.push(a).push(c).push(d).push(b).push(c).push(d),
        frame_effect(Operation::Dup2x2, old, new, res) ==> new.operands@ == s.push(c).push(d).push(a).push(b).push(c).push(d),
{
    let ops = old.operands@;
    let n = s.len() as int;
    assert(ops[n] == a && ops[n + 1] == b && ops[n + 2] == c && ops[n + 3] == d);
    assert(crate::runtime::rest(ops, 1) =~= s.push(a).push(b).push(c));
    assert(crate::runtime::rest(ops, 2) =~= s.push(a).push(b));
    assert(crate::runtime::rest(ops, 3) =~= s.push(a));
    assert(crate::runtime::rest(ops, 4) =~= s);
    let top = |k: int| ops[ops.len() - 1 - k];
    assert(seq![0int, 0].map_values(top) =~= seq![d, d]);
    assert(seq![0int, 1, 0].map_values(top) =~= seq![d, c, d]);
    assert(seq![0int, 2, 1, 0].map_values(top) =~= seq![d, b, c, d]);
    assert(seq![1int, 0, 1, 0].map_values(top) =~= seq![c, d, c, d]);
    assert(seq![1int, 0, 2, 1, 0].map_values(top) =~= seq![c, d, b, c, d]);
    assert(seq![1int, 0, 3, 2, 1, 0].map_values(top) =~= seq![c, d, a, b, c, d]);
    assert(s.push(a).push(b).push(c) + seq![d, d] =~= s.push(a).push(b).push(c).push(d).push(d));
    assert(s.push(a).push(b) + seq![d, c, d] =~= s.push(a).push(b).push(d).push(c).push(d));
    assert(s.push(a) + seq![d, b, c, d] =~= s.push(a).push(d).push(b).push(c).push(d));
    assert(s.push(a).push(b) + seq![c, d, c, d] =~= s.push(a).push(b).push(c).push(d).push(c).push(d));
    assert(s.push(a) + seq![c, d, b, c, d] =~= s.push(a).push(c).push(d).push(b).push(c).push(d));
    assert(s + seq![c, d, a, b, c, d] =~= s.push(c).push(d).push(a).push(b).push(c).push(d));
}

/// The load instructions push the local they name: `iload_0` to `iload_3`
/// locals 0 to 3, `iload` the local its operand names, and the same for the
/// `long`, `float`, `double` and reference loads, each of its own kind.
pub proof fn law_loads(old: Frame, new: Frame, res: Result<ExecutionResult, JVMError>, i: u8)
    requires
        old.operands@.len() < old.code.max_stack,
    ensures
        frame_effect(Operation::Iload0, old, new, res) && old.locals@.len() > 0 && old.locals@[0] is Int ==> new.operands@
            == old.operands@.push(old.locals@[0]),
        frame_effect(Operation::Iload1, old, new, res) && old.locals@.len() > 1 && old.locals@[1] is Int ==> new.operands@
            == old.operands@.push(old.locals@[1]),
        frame_effect(Operation::Iload2, old, new, res) && old.locals@.len() > 2 && old.locals@[2] is Int ==> new.operands@
            == old.operands@.push(old.locals@[2]),
        frame_effect(Operation::Iload3, old, new, res) && old.locals@.len() > 3 && old.locals@[3] is Int ==> new.operands@
            == old.operands@.push(old.locals@[3]),
        frame_effect(Operation::Iload(i), old, new, res) && old.locals@.len() > i && old.locals@[i as int] is Int ==> new.operands@
            == old.operands@.push(old.locals@[i as int]),
        frame_effect(Operation::Lload0, old, new, res) && old.locals@.len() > 0 && old.locals@[0] is Long ==> new.operands@
            == old.operands@.push(old.locals@[0]),
        frame_effect(Operation::Lload1, old, new, res) && old.locals@.len() > 1 && old.locals@[1] is Long ==> new.operands@
            == old.operands@.push(old.locals@[1]),
        frame_effect(Operation::Lload2, old, new, res) && old.locals@.len() > 2 && old.locals@[2] is Long ==> new.operands@
            == old.operands@.push(old.locals@[2]),
        frame_effect(Operation::Lload3, old, new, res) && old.locals@.len() > 3 && old.locals@[3] is Long ==> new.operands@
            == old.operands@.push(old.locals@[3]),
        frame_effect(Operation::Lload(i), old, new, res) && old.locals@.len() > i && old.locals@[i as int] is Long ==> new.operands@
            == old.operands@.push(old.locals@[i as int]),
        frame_effect(Operation::Fload0, old, new, res) && old.locals@.len() > 0 && old.locals@[0] is Float ==> new.operands@
            == old.operands@.push(old.locals@[0]),
        frame_effect(Operation::Fload1, old, new, res) && old.locals@.len() > 1 && old.locals@[1] is Float ==> new.operands@
            == old.operands@.push(old.locals@[1]),
        frame_effect(Operation::Fload2, old, new, res) && old.locals@.len() > 2 && old.locals@[2] is Float ==> new.operands@
            == old.operands@.push(old.locals@[2]),
        frame_effect(Operation::Fload3, old, new, res) && old.locals@.len() > 3 && old.locals@[3] is Float ==> new.operands@
            == old.operands@.push(old.locals@[3]),
        frame_effect(Operation::Fload(i), old, new, res) && old.locals@.len() > i && old.locals@[i as int] is Float ==> new.operands@
            == old.operands@.push(old.locals@[i as int]),
        frame_effect(Operation::Dload0, old, new, res) && old.locals@.len() > 0 && old.locals@[0] is Double ==> new.operands@
            == old.operands@.push(old.locals@[0]),
        frame_effect(Operation::Dload1, old, new, res) && old.locals@.len() > 1 && old.locals@[1] is Double ==> new.operands@
            == old.operands@.push(old.locals@[1]),
        frame_effect(Operation::Dload2, old, new, res) && old.locals@.len() > 2 && old.locals@[2] is Double ==> new.operands@
            == old.operands@.push(old.locals@[2]),
        frame_effect(Operation::Dload3, old, new, res) && old.locals@.len() > 3 && old.locals@[3] is Double ==> new.operands@
            == old.operands@.push(old.locals@[3]),
        frame_effect(Operation::Dload(i), old, new, res) && old.locals@.len() > i && old.locals@[i as int] is Double ==> new.operands@
            == old.operands@.push(old.locals@[i as int]),
        frame_effect(Operation::Aload0, old, new, res) && old.locals@.len() > 0 && old.locals@[0] is Reference ==> new.operands@
            == old.operands@.push(old.locals@[0]),
        frame_effect(Operation::Aload1, old, new, res) && old.locals@.len() > 1 && old.locals@[1] is Reference ==> new.operands@
            == old.operands@.push(old.locals@[1]),
        frame_effect(Operation::Aload2, old, new, res) && old.locals@.len() > 2 && old.locals@[2] is Reference ==> new.operands@
            == old.operands@.push(old.locals@[2]),
        frame_effect(Operation::Aload3, old, new, res) && old.locals@.len() > 3 && old.locals@[3] is Reference ==> new.operands@
            == old.operands@.push(old.locals@[3]),
        frame_effect(Operation::Aload(i), old, new, res) && old.locals@.len() > i && old.locals@[i as int] is Reference ==> new.operands@
            == old.operands@.push(old.locals@[i as int]),
{
}

/// The store instructions pop the top into the local they name: `istore_0`
/// to `istore_3` locals 0 to 3, `istore` the local its operand names, and
/// the same for the `long`, `float`, `double` and reference stores, each of
/// its own kind.
pub proof fn law_stores(old: Frame, new: Frame, res: Result<ExecutionResult, JVMError>, i: u8)
    ensures
        frame_effect(Operation::Istore0, old, new, res) && old.locals@.len() > 0 && old.operands@.len() > 0
            && old.operands@.last() is Int ==> new.locals@ == old.locals@.update(0, old.operands@.last()) && new.operands@
            == old.operands@.drop_last(),
        frame_effect(Operation::Istore1, old, new, res) && old.locals@.len() > 1 && old.operands@.len() > 0
            && old.operands@.last() is Int ==> new.locals@ == old.locals@.update(1, old.operands@.last()) && new.operands@
            == old.operands@.drop_last(),
        frame_effect(Operation::Istore2, old, new, res) && old.locals@.len() > 2 && old.operands@.len() > 0
            && old.operands@.last() is Int ==> new.locals@ == old.locals@.update(2, old.operands@.last()) && new.operands@
            == old.operands@.drop_last(),
        frame_effect(Operation::Istore3, old, new, res) && old.locals@.len() > 3 && old.operands@.len() > 0
            && old.operands@.last() is Int ==> new.locals@ == old.locals@.update(3, old.operands@.last()) && new.operands@
            == old.operands@.drop_last(),
        frame_effect(Operation::Istore(i), old, new, res) && old.locals@.len() > i && old.operands@.len() > 0
            && old.operands@.last() is Int ==> new.locals@ == old.locals@.update(i as int, old.operands@.last()) && new.operands@
            == old.operands@.drop_last(),
        frame_effect(Operation::Lstore0, old, new, res) && old.locals@.len() > 0 && old.operands@.len() > 0
            && old.operands@.last() is Long ==> new.locals@ == old.locals@.update(0, old.operands@.last()) && new.operands@
            == old.operands@.drop_last(),
        frame_effect(Operation::Lstore1, old, new, res) && old.locals@.len() > 1 && old.operands@.len() > 0
            && old.operands@.last() is Long ==> new.locals@ == old.locals@.update(1, old.operands@.last()) && new.operands@
            == old.operands@.drop_last(),
        frame_effect(Operation::Lstore2, old, new, res) && old.locals@.len() > 2 && old.operands@.len() > 0
            && old.operands@.last() is Long ==> new.locals@ == old.locals@.update(2, old.operands@.last()) && new.operands@
            == old.operands@.drop_last(),
        frame_effect(Operation::Lstore3, old, new, res) && old.locals@.len() > 3 && old.operands@.len() > 0
            && old.operands@.last() is Long ==> new.locals@ == old.locals@.update(3, old.operands@.last()) && new.operands@
            == old.operands@.drop_last(),
        frame_effect(Operation::Lstore(i), old, new, res) && old.locals@.len() > i && old.operands@.len() > 0
            && old.operands@.last() is Long ==> new.locals@ == old.locals@.update(i as int, old.operands@.last()) && new.operands@
            == old.operands@.drop_last(),
        frame_effect(Operation::Fstore0, old, new, res) && old.locals@.len() > 0 && old.operands@.len() > 0
            && old.operands@.last() is Float ==> new.locals@ == old.locals@.update(0, old.operands@.last()) && new.operands@
            == old.operands@.drop_last(),
        frame_effect(Operation::Fstore1, old, new, res) && old.locals@.len() > 1 && old.operands@.len() > 0
            && old.operands@.last() is Float ==> new.locals@ == old.locals@.update(1, old.operands@.last()) && new.operands@
            == old.operands@.drop_last(),
        frame_effect(Operation::Fstore2, old, new, res) && old.locals@.len() > 2 && old.operands@.len() > 0
            && old.operands@.last() is Float ==> new.locals@ == old.locals@.update(2, old.operands@.last()) && new.operands@
            == old.operands@.drop_last(),
        frame_effect(Operation::Fstore3, old, new, res) && old.locals@.len() > 3 && old.operands@.len() > 0
            && old.operands@.last() is Float ==> new.locals@ == old.locals@.update(3, old.operands@.last()) && new.operands@
            == old.operands@.drop_last(),
        frame_effect(Operation::Fstore(i), old, new, res) && old.locals@.len() > i && old.operands@.len() > 0
            && old.operands@.last() is Float ==> new.locals@ == old.locals@.update(i as int, old.operands@.last()) && new.operands@
            == old.operands@.drop_last(),
        frame_effect(Operation::Dstore0, old, new, res) && old.locals@.len() > 0 && old.operands@.len() > 0
            && old.operands@.last() is Double ==> new.locals@ == old.locals@.update(0, old.operands@.last()) && new.operands@
            == old.operands@.drop_last(),
        frame_effect(Operation::Dstore1, old, new, res) && old.locals@.len() > 1 && old.operands@.len() > 0
            && old.operands@.last() is Double ==> new.locals@ == old.locals@.update(1, old.operands@.last()) && new.operands@
            == old.operands@.drop_last(),
        frame_effect(Operation::Dstore2, old, new, res) && old.locals@.len() > 2 && old.operands@.len() > 0
            && old.operands@.last() is Double ==> new.locals@ == old.locals@.update(2, old.operands@.last()) && new.operands@
            == old.operands@.drop_last(),
        frame_effect(Operation::Dstore3, old, new, res) && old.locals@.len() > 3 && old.operands@.len() > 0
            && old.operands@.last() is Double ==> new.locals@ == old.locals@.update(3, old.operands@.last()) && new.operands@
            == old.operands@.drop_last(),
        frame_effect(Operation::Dstore(i), old, new, res) && old.locals@.len() > i && old.operands@.len() > 0
            && old.operands@.last() is Double ==> new.locals@ == old.locals@.update(i as int, old.operands@.last()) && new.operands@
            == old.operands@.drop_last(),
        frame_effect(Operation::Astore0, old, new, res) && old.locals@.len() > 0 && old.operands@.len() > 0
            && old.operands@.last() is Reference ==> new.locals@ == old.locals@.update(0, old.operands@.last()) && new.operands@
            == old.operands@.drop_last(),
        frame_effect(Operation::Astore1, old, new, res) && old.locals@.len() > 1 && old.operands@.len() > 0
            && old.operands@.last() is Reference ==> new.locals@ == old.locals@.update(1, old.operands@.last()) && new.operands@
            == old.operands@.drop_last(),
        frame_effect(Operation::Astore2, old, new, res) && old.locals@.len() > 2 && old.operands@.len() > 0
            && old.operands@.last() is Reference ==> new.locals@ == old.locals@.update(2, old.operands@.last()) && new.operands@
            == old.operands@.drop_last(),
        frame_effect(Operation::Astore3, old, new, res) && old.locals@.len() > 3 && old.operands@.len() > 0
            && old.operands@.last() is Reference ==> new.locals@ == old.locals@.update(3, old.operands@.last()) && new.operands@
            == old.operands@.drop_last(),
        frame_effect(Operation::Astore(i), old, new, res) && old.locals@.len() > i && old.operands@.len() > 0
            && old.operands@.last() is Reference ==> new.locals@ == old.locals@.update(i as int, old.operands@.last()) && new.operands@
            == old.operands@.drop_last(),
{
}

/// `iinc` adds its second operand byte, read as a signed byte, to the `int`
/// local its first operand names, when the sum is an `int`.
pub proof fn law_iinc(old: Frame, new: Frame, res: Result<ExecutionResult, JVMError>, i: u8, c: u8, v: i32)
    requires
        i < old.locals@.len(),
        old.locals@[i as int] == Value::Int(v),
    ensures
        frame_effect(Operation::Iinc(i, c), old, new, res) && c < 128 && v + c <= i32::MAX ==> res == Ok::<ExecutionResult,
            JVMError>(ExecutionResult::Continue) && new.locals@ == old.locals@.update(i as int, Value::Int((v + c) as i32)),
        frame_effect(Operation::Iinc(i, c), old, new, res) && c >= 128 && i32::MIN <= v + c - 256 ==> res == Ok::<
            ExecutionResult,
            JVMError,
        >(ExecutionResult::Continue) && new.locals@ == old.locals@.update(i as int, Value::Int((v + c - 256) as i32)),
{
    assert(c < 128 ==> (c as i8) as i32 == c as i32) by (bit_vector);
    assert(c >= 128 ==> (c as i8) as i32 + 256 == c as i32) by (bit_vector);
}

/// The narrowing conversions keep the low bits and read them with the
/// sign of the narrower type: `i2b` gives the `int` in -128..=127, `i2s`
/// the one in -32768..=32767, `i2c` the one in 0..=65535, with the low 8
/// or 16 bits of the operand; `l2i` the `int` with the low 32 bits of the
/// `long`; `i2l` the same number as a `long`.
pub proof fn law_conversions(old: Frame, new: Frame, res: Result<ExecutionResult, JVMError>, s: Seq<Value>, v: i32, w: i64)
    requires
        s.len() < old.code.max_stack,
    ensures
        old.operands@ == s.push(Value::Int(v)) && frame_effect(Operation::I2b, old, new, res) ==> (new.operands@.drop_last() == s
            && (new.operands@.last() matches Value::Int(r) && -128 <= r <= 127 && r & 0xff == v & 0xff)),
        old.operands@ == s.push(Value::Int(v)) && frame_effect(Operation::I2s, old, new, res) ==> (new.operands@.drop_last() == s
            && (new.operands@.last() matches Value::Int(r) && -32768 <= r <= 32767 && r & 0xffff == v & 0xffff)),
        old.operands@ == s.push(Value::Int(v)) && frame_effect(Operation::I2c, old, new, res) ==> (new.operands@.drop_last() == s
            && (new.operands@.last() matches Value::Int(r) && 0 <= r <= 65535 && r & 0xffff == v & 0xffff)),
        old.operands@ == s.push(Value::Int(v)) && frame_effect(Operation::I2l, old, new, res) ==> new.operands@ == s.push(
            Value::Long(v as i64)) && (v as i64) as int == v as int,
        old.operands@ == s.push(Value::Long(w)) && frame_effect(Operation::L2i, old, new, res) ==> (new.operands@.drop_last() == s
            && (new.operands@.last() matches Value::Int(r) && (r as i64) & 0xffff_ffff == w & 0xffff_ffff)),
{
    reveal_with_fuel(crate::runtime::pop_many, 2);
    assert(-128 <= (v as i8) as i32 <= 127 && ((v as i8) as i32) & 0xff == v & 0xff) by (bit_vector);
    assert(-32768 <= (v as i16) as i32 <= 32767 && ((v as i16) as i32) & 0xffff == v & 0xffff) by (bit_vector);
    assert(0 <= (v as u16) as i32 <= 65535 && ((v as u16) as i32) & 0xffff == v & 0xffff) by (bit_vector);
    assert((((w as i32) as i64) & 0xffff_ffff) == w & 0xffff_ffff) by (bit_vector);
    if old.operands@ == s.push(Value::Int(v)) {
        assert(old.operands@.drop_last() =~= s);
        assert(crate::runtime::rest(old.operands@, 1) =~= s);
    }
    if old.operands@ == s.push(Value::Long(w)) {
        assert(old.operands@.drop_last() =~= s);
        assert(crate::runtime::rest(old.operands@, 1) =~= s);
    }
}

/// A class name scanned from `p` runs to its `;`, after which the scan
/// counts on as at the start of a type.
proof fn lemma_class_skip(d: Seq<char>, p: int)
    requires
        0 <= p,
        crate::parse_des::semicolon_from(d, p) < d.len(),
    ensures
        crate::execute_method::scan_count(d, p, crate::execute_method::Scan::Class) == crate::execute_method::scan_count(d,
            crate::parse_des::semicolon_from(d, p) + 1, crate::execute_method::Scan::Normal),
    decreases d.len() - p,
{
    if p < d.len() && d[p] != ';' {
        lemma_class_skip(d, p + 1);
    }
}

/// The brackets of an array type scanned from `p` are skipped; the scan
/// then takes the element type.
proof fn lemma_brackets_skip(d: Seq<char>, p: int)
    requires
        0 <= p,
        crate::parse_des::brackets_end(d, p) < d.len(),
    ensures
        crate::execute_method::scan_count(d, p, crate::execute_method::Scan::Brackets) == if d[crate::parse_des::brackets_end(
            d,
            p,
        )] == 'L' {
            crate::execute_method::scan_count(d, crate::parse_des::brackets_end(d, p) + 1, crate::execute_method::Scan::Class)
        } else {
            crate::execute_method::scan_count(d, crate::parse_des::brackets_end(d, p) + 1, crate::execute_method::Scan::Normal)
        },
    decreases d.len() - p,
{
    if p < d.len() && d[p] == '[' {
        lemma_brackets_skip(d, p + 1);
    }
}

/// The parameter count of a descriptor that `parse_descriptor` takes apart
/// from position `i` on is the number of parameter types it reads there.
proof fn lemma_count_matches_parse(d: Seq<char>, i: int, args: Seq<Seq<char>>)
    requires
        1 <= i,
    ensures
        crate::parse_des::scan_types(d, i, args) matches Ok((all, r)) ==> crate::execute_method::scan_count(d, i,
            crate::execute_method::Scan::Normal) + args.len() == all.len(),
    decreases d.len() - i,
{
    if i < d.len() {
        let c = d[i];
        if c == 'L' {
            crate::parse_des::lemma_semicolon_from(d, i + 1);
            let j = crate::parse_des::semicolon_from(d, i + 1);
            if j < d.len() {
                lemma_class_skip(d, i + 1);
                lemma_count_matches_parse(d, j + 1, args.push(d.subrange(i, j + 1)));
            }
        } else if c == '[' {
            crate::parse_des::lemma_brackets_end(d, i + 1);
            let k = crate::parse_des::brackets_end(d, i + 1);
            if k < d.len() {
                lemma_brackets_skip(d, i + 1);
                if d[k] == 'L' {
                    crate::parse_des::lemma_semicolon_from(d, k + 1);
                    let j = crate::parse_des::semicolon_from(d, k + 1);
                    if j < d.len() {
                        lemma_class_skip(d, k + 1);
                        lemma_count_matches_parse(d, j + 1, args.push(d.subrange(i, j + 1)));
                    }
                } else {
                    lemma_count_matches_parse(d, k + 1, args.push(d.subrange(i, k + 1)));
                }
            }
        } else if c != ')' {
            lemma_count_matches_parse(d, i + 1, args.push(seq![c]));
        }
    }
}

/// A call takes as many arguments as its method descriptor lists parameter
/// types: the count that `invokestatic` and the other calls pop is the
/// number of types that `parse_descriptor` reads between the brackets.
pub proof fn law_parameter_count(d: Seq<char>)
    ensures
        crate::parse_des::spec_parse_descriptor(d) matches Ok((args, r)) ==> crate::execute_method::spec_count_parameters(d)
            == args.len(),
{
    if d.len() > 0 && d[0] == '(' {
        lemma_count_matches_parse(d, 1, Seq::empty());
    }
}

} // verus!
