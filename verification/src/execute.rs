//! Decoding the operands of an instruction and running it on the current
//! frame.
//!
//! The arithmetic, comparisons and conversions of `float` and `double`
//! values are left to the host; every other instruction runs here.

use vstd::prelude::*;
use crate::class_loader::{spec_find_class, ClassLoader};
use crate::execute_array::{anewarray_result, array_load_result, array_store_result, arraylength_result, newarray_result};
use crate::execute_exception::{throw_outcome, type_check};
use crate::execute_field::{getfield_result, getstatic_result, putfield_result, putstatic_result, spec_field_ref};
use crate::execute_method::{invokeinterface_result, invokespecial_result, invokestatic_result, invokevirtual_result};
use crate::execute_object::{ldc_result, multianewarray_result, new_result};
use crate::execute_arith::{ineg_result, int_binary_result, lneg_result, long_binary_result, ArithOp};
use crate::execute_array::ArrayKind;
use crate::execute_branch::{
    cond_branch_result, jumps_to, lookup_offsets, null_test, pair_test, same_but_pc, same_ref_test, switch_result,
    table_offsets, target16, target32, zero_test, Relation,
};
use crate::execute_constant::{ldc2_result, pushed_constant};
use crate::execute_locals::{iinc_result, load_result, store_result};
use crate::execute_shift::{convert_result, int_bits_result, long_bits_result, BitOp, Conversion};
use crate::execute_stack::{pop2_result, return_result, shuffle_result};
use crate::heap::Heap;
use crate::constant_pool::ConstantInfo;
use crate::instruction::Operation;
use crate::jvm_error::JVMError;
use crate::runtime::{ExecutionResult, Frame, Tag, Value};

verus! {

/// The unsigned index that two operand bytes give, the high byte first.
pub open spec fn index16(hi: u8, lo: u8) -> u16 {
    (hi as int * 256 + lo as int) as u16
}

/// The signed offset that two operand bytes give, the high byte first.
pub open spec fn offset16(hi: u8, lo: u8) -> i16 {
    (hi as int * 256 + lo as int) as i16
}

/// The signed offset that four operand bytes give, the high byte first.
pub open spec fn offset32(a: u8, b: u8, c: u8, d: u8) -> i32 {
    (a as int * 0x100_0000 + b as int * 0x1_0000 + c as int * 0x100 + d as int) as i32
}

/// Joins two operand bytes into an unsigned index.
pub fn join_index(hi: u8, lo: u8) -> (res: u16)
    ensures
        res == index16(hi, lo),
{
    (hi as u16) * 256 + lo as u16
}

/// Joins two operand bytes into a signed offset.
pub fn join_offset(hi: u8, lo: u8) -> (res: i16)
    ensures
        res == offset16(hi, lo),
{
    join_index(hi, lo) as i16
}

/// Joins four operand bytes into a signed offset.
pub fn join_offset32(a: u8, b: u8, c: u8, d: u8) -> (res: i32)
    ensures
        res == offset32(a, b, c, d),
{
    ((a as u32) * 0x100_0000 + (b as u32) * 0x1_0000 + (c as u32) * 0x100 + d as u32) as i32
}

/// The `int` that an operand byte gives, read as signed.
pub open spec fn byte_value(b: u8) -> i32 {
    b as i8 as i32
}

/// The `int` that two operand bytes give, read as a signed 16-bit value.
pub open spec fn short_value(hi: u8, lo: u8) -> i32 {
    offset16(hi, lo) as i32
}

/// Reads an operand byte as signed.
pub fn signed_byte(b: u8) -> (res: i8)
    ensures
        res == b as i8,
{
    b as i8
}

/// Widens a one-byte constant pool index.
pub fn widen_index(b: u8) -> (res: u16)
    ensures
        res == b as u16,
{
    b as u16
}

/// The outcome of `iinc` with the operand bytes `index` and `value`.
pub open spec fn iinc_effect(old: Frame, new: Frame, index: u8, value: u8, res: Result<ExecutionResult, JVMError>) -> bool {
    iinc_result(old, new, index, value as i8, res)
}

/// The outcome of `goto` by `offset`.
pub open spec fn goto_effect(old: Frame, new: Frame, offset: i16, res: Result<ExecutionResult, JVMError>) -> bool {
    &&& same_but_pc(old, new)
    &&& jumps_to(*old.code, old.pc, target16(old.code.code@[old.pc as int].0, offset), offset as i32, new.pc, res)
}

/// The outcome of `goto_w` by `offset`.
pub open spec fn goto_w_effect(old: Frame, new: Frame, offset: i32, res: Result<ExecutionResult, JVMError>) -> bool {
    &&& same_but_pc(old, new)
    &&& jumps_to(*old.code, old.pc, target32(old.code.code@[old.pc as int].0, offset), offset, new.pc, res)
}

/// Whether `op` computes on `float` or `double` values: their arithmetic,
/// comparisons and conversions.
pub open spec fn spec_is_float_op(op: Operation) -> bool {
    match op {
        Operation::Fadd | Operation::Dadd | Operation::Fsub | Operation::Dsub | Operation::Fmul | Operation::Dmul
        | Operation::Fdiv | Operation::Ddiv | Operation::Frem | Operation::Drem | Operation::Fneg | Operation::Dneg
        | Operation::Fcmpl | Operation::Fcmpg | Operation::Dcmpl | Operation::Dcmpg | Operation::I2f | Operation::I2d
        | Operation::L2f | Operation::L2d | Operation::F2i | Operation::F2l | Operation::F2d | Operation::D2i
        | Operation::D2l | Operation::D2f => true,
        _ => false,
    }
}

/// Whether `op` computes on `float` or `double` values.
pub fn is_float_op(op: &Operation) -> (res: bool)
    ensures
        res == spec_is_float_op(*op),
{
    match op {
        Operation::Fadd | Operation::Dadd | Operation::Fsub | Operation::Dsub | Operation::Fmul | Operation::Dmul
        | Operation::Fdiv | Operation::Ddiv | Operation::Frem | Operation::Drem | Operation::Fneg | Operation::Dneg
        | Operation::Fcmpl | Operation::Fcmpg | Operation::Dcmpl | Operation::Dcmpg | Operation::I2f | Operation::I2d
        | Operation::L2f | Operation::L2d | Operation::F2i | Operation::F2l | Operation::F2d | Operation::D2i
        | Operation::D2l | Operation::D2f => true,
        _ => false,
    }
}

/// Whether the operands of `op` fit together: a table switch holds an
/// offset for each key of its range.
pub open spec fn op_wf(op: Operation) -> bool {
    match op {
        Operation::Tableswitch(_, low, high, offsets) => low <= high ==> high - low < offsets@.len(),
        _ => true,
    }
}

/// Whether the operands of `op` fit together.
pub fn is_well_formed(op: &Operation) -> (res: bool)
    ensures
        res == op_wf(*op),
{
    match op {
        Operation::Tableswitch(_, low, high, offsets) => {
            if *low > *high {
                true
            } else {
                (((*high as i64) - (*low as i64)) as usize) < offsets.len()
            }
        },
        _ => true,
    }
}

/// Whether `op` reaches past its frame: into the heap, the loaded classes,
/// or to another method.
pub open spec fn reaches_out(op: Operation) -> bool {
    match op {
        Operation::Ldc(_) | Operation::Ldcw(_, _) | Operation::Newarray(_) | Operation::Anewarray(_, _)
        | Operation::Multianewarray(_, _, _) | Operation::Iaload | Operation::Laload | Operation::Faload
        | Operation::Daload | Operation::Aaload | Operation::Baload | Operation::Caload | Operation::Saload
        | Operation::Iastore | Operation::Lastore | Operation::Fastore | Operation::Dastore | Operation::Aastore
        | Operation::Bastore | Operation::Castore | Operation::Sastore | Operation::Arraylength | Operation::New(_, _)
        | Operation::Putfield(_, _) | Operation::Getfield(_, _) | Operation::Putstatic(_, _) | Operation::Getstatic(_, _)
        | Operation::Invokestatic(_, _) | Operation::Invokespecial(_, _) | Operation::Invokevirtual(_, _)
        | Operation::Invokeinterface(_, _, _, _) | Operation::Athrow | Operation::Checkcast(_, _)
        | Operation::Instanceof(_, _) => true,
        _ => false,
    }
}

/// What an instruction that stays within its frame does to it: `old`
/// becomes `new` and `res` is returned. Instructions that this interpreter
/// does not implement leave the frame as it is and continue.
pub open spec fn frame_effect(op: Operation, old: Frame, new: Frame, res: Result<ExecutionResult, JVMError>) -> bool {
    match op {
        Operation::Iload(i) => load_result(old, new, i, Tag::Int, res),
        Operation::Lload(i) => load_result(old, new, i, Tag::Long, res),
        Operation::Fload(i) => load_result(old, new, i, Tag::Float, res),
        Operation::Dload(i) => load_result(old, new, i, Tag::Double, res),
        Operation::Aload(i) => load_result(old, new, i, Tag::Reference, res),
        Operation::Iload0 => load_result(old, new, 0, Tag::Int, res),
        Operation::Iload1 => load_result(old, new, 1, Tag::Int, res),
        Operation::Iload2 => load_result(old, new, 2, Tag::Int, res),
        Operation::Iload3 => load_result(old, new, 3, Tag::Int, res),
        Operation::Lload0 => load_result(old, new, 0, Tag::Long, res),
        Operation::Lload1 => load_result(old, new, 1, Tag::Long, res),
        Operation::Lload2 => load_result(old, new, 2, Tag::Long, res),
        Operation::Lload3 => load_result(old, new, 3, Tag::Long, res),
        Operation::Fload0 => load_result(old, new, 0, Tag::Float, res),
        Operation::Fload1 => load_result(old, new, 1, Tag::Float, res),
        Operation::Fload2 => load_result(old, new, 2, Tag::Float, res),
        Operation::Fload3 => load_result(old, new, 3, Tag::Float, res),
        Operation::Dload0 => load_result(old, new, 0, Tag::Double, res),
        Operation::Dload1 => load_result(old, new, 1, Tag::Double, res),
        Operation::Dload2 => load_result(old, new, 2, Tag::Double, res),
        Operation::Dload3 => load_result(old, new, 3, Tag::Double, res),
        Operation::Aload0 => load_result(old, new, 0, Tag::Reference, res),
        Operation::Aload1 => load_result(old, new, 1, Tag::Reference, res),
        Operation::Aload2 => load_result(old, new, 2, Tag::Reference, res),
        Operation::Aload3 => load_result(old, new, 3, Tag::Reference, res),
        Operation::Istore(i) => store_result(old, new, i, Tag::Int, res),
        Operation::Lstore(i) => store_result(old, new, i, Tag::Long, res),
        Operation::Fstore(i) => store_result(old, new, i, Tag::Float, res),
        Operation::Dstore(i) => store_result(old, new, i, Tag::Double, res),
        Operation::Astore(i) => store_result(old, new, i, Tag::Reference, res),
        Operation::Istore0 => store_result(old, new, 0, Tag::Int, res),
        Operation::Istore1 => store_result(old, new, 1, Tag::Int, res),
        Operation::Istore2 => store_result(old, new, 2, Tag::Int, res),
        Operation::Istore3 => store_result(old, new, 3, Tag::Int, res),
        Operation::Lstore0 => store_result(old, new, 0, Tag::Long, res),
        Operation::Lstore1 => store_result(old, new, 1, Tag::Long, res),
        Operation::Lstore2 => store_result(old, new, 2, Tag::Long, res),
        Operation::Lstore3 => store_result(old, new, 3, Tag::Long, res),
        Operation::Fstore0 => store_result(old, new, 0, Tag::Float, res),
        Operation::Fstore1 => store_result(old, new, 1, Tag::Float, res),
        Operation::Fstore2 => store_result(old, new, 2, Tag::Float, res),
        Operation::Fstore3 => store_result(old, new, 3, Tag::Float, res),
        Operation::Dstore0 => store_result(old, new, 0, Tag::Double, res),
        Operation::Dstore1 => store_result(old, new, 1, Tag::Double, res),
        Operation::Dstore2 => store_result(old, new, 2, Tag::Double, res),
        Operation::Dstore3 => store_result(old, new, 3, Tag::Double, res),
        Operation::Astore0 => store_result(old, new, 0, Tag::Reference, res),
        Operation::Astore1 => store_result(old, new, 1, Tag::Reference, res),
        Operation::Astore2 => store_result(old, new, 2, Tag::Reference, res),
        Operation::Astore3 => store_result(old, new, 3, Tag::Reference, res),
        Operation::Aconstnull => pushed_constant(old, new, Value::Reference(None), res),
        Operation::Iconstm1 => pushed_constant(old, new, Value::Int(-1i32), res),
        Operation::Iconst0 => pushed_constant(old, new, Value::Int(0), res),
        Operation::Iconst1 => pushed_constant(old, new, Value::Int(1), res),
        Operation::Iconst2 => pushed_constant(old, new, Value::Int(2), res),
        Operation::Iconst3 => pushed_constant(old, new, Value::Int(3), res),
        Operation::Iconst4 => pushed_constant(old, new, Value::Int(4), res),
        Operation::Iconst5 => pushed_constant(old, new, Value::Int(5), res),
        Operation::Lconst0 => pushed_constant(old, new, Value::Long(0), res),
        Operation::Lconst1 => pushed_constant(old, new, Value::Long(1), res),
        Operation::Fconst0 => pushed_constant(old, new, Value::Float(0), res),
        Operation::Fconst1 => pushed_constant(old, new, Value::Float(0x3f80_0000), res),
        Operation::Fconst2 => pushed_constant(old, new, Value::Float(0x4000_0000), res),
        Operation::Dconst0 => pushed_constant(old, new, Value::Double(0), res),
        Operation::Dconst1 => pushed_constant(old, new, Value::Double(0x3ff0_0000_0000_0000), res),
        Operation::Bipush(b) => pushed_constant(old, new, Value::Int(byte_value(b)), res),
        Operation::Sipush(a, b) => pushed_constant(old, new, Value::Int(short_value(a, b)), res),
        Operation::Ldc2w(a, b) => ldc2_result(old, new, index16(a, b), res),
        Operation::Ishl => int_bits_result(old, new, BitOp::Shl, res),
        Operation::Ishr => int_bits_result(old, new, BitOp::Shr, res),
        Operation::Iushr => int_bits_result(old, new, BitOp::Ushr, res),
        Operation::Lshl => long_bits_result(old, new, BitOp::Shl, res),
        Operation::Lshr => long_bits_result(old, new, BitOp::Shr, res),
        Operation::Lushr => long_bits_result(old, new, BitOp::Ushr, res),
        Operation::Ior => int_bits_result(old, new, BitOp::Or, res),
        Operation::Lor => long_bits_result(old, new, BitOp::Or, res),
        Operation::Ixor => int_bits_result(old, new, BitOp::Xor, res),
        Operation::Lxor => long_bits_result(old, new, BitOp::Xor, res),
        Operation::Iand => int_bits_result(old, new, BitOp::And, res),
        Operation::Land => long_bits_result(old, new, BitOp::And, res),
        Operation::Iadd => int_binary_result(old, new, ArithOp::Add, res),
        Operation::Isub => int_binary_result(old, new, ArithOp::Sub, res),
        Operation::Imul => int_binary_result(old, new, ArithOp::Mul, res),
        Operation::Idiv => int_binary_result(old, new, ArithOp::Div, res),
        Operation::Irem => int_binary_result(old, new, ArithOp::Rem, res),
        Operation::Ineg => ineg_result(old, new, res),
        Operation::Iinc(i, v) => iinc_effect(old, new, i, v, res),
        Operation::Ladd => long_binary_result(old, new, ArithOp::Add, res),
        Operation::Lsub => long_binary_result(old, new, ArithOp::Sub, res),
        Operation::Lmul => long_binary_result(old, new, ArithOp::Mul, res),
        Operation::Ldiv => long_binary_result(old, new, ArithOp::Div, res),
        Operation::Lrem => long_binary_result(old, new, ArithOp::Rem, res),
        Operation::Lneg => lneg_result(old, new, res),
        Operation::Ifeq(a, b) => cond_branch_result(old, new, 1, seq![Tag::Int], zero_test(Relation::Eq), offset16(a, b), res),
        Operation::Ifne(a, b) => cond_branch_result(old, new, 1, seq![Tag::Int], zero_test(Relation::Ne), offset16(a, b), res),
        Operation::Iflt(a, b) => cond_branch_result(old, new, 1, seq![Tag::Int], zero_test(Relation::Lt), offset16(a, b), res),
        Operation::Ifge(a, b) => cond_branch_result(old, new, 1, seq![Tag::Int], zero_test(Relation::Ge), offset16(a, b), res),
        Operation::Ifgt(a, b) => cond_branch_result(old, new, 1, seq![Tag::Int], zero_test(Relation::Gt), offset16(a, b), res),
        Operation::Ifle(a, b) => cond_branch_result(old, new, 1, seq![Tag::Int], zero_test(Relation::Le), offset16(a, b), res),
        Operation::Ifnull(a, b) => cond_branch_result(old, new, 1, seq![Tag::Reference], null_test(true), offset16(a, b), res),
        Operation::Ifnonnull(a, b) => cond_branch_result(old, new, 1, seq![Tag::Reference], null_test(false), offset16(a, b), res),
        Operation::Ificmpeq(a, b) => cond_branch_result(old, new, 2, seq![Tag::Int, Tag::Int], pair_test(Relation::Eq), offset16(a, b), res),
        Operation::Ificmpne(a, b) => cond_branch_result(old, new, 2, seq![Tag::Int, Tag::Int], pair_test(Relation::Ne), offset16(a, b), res),
        Operation::Ificmplt(a, b) => cond_branch_result(old, new, 2, seq![Tag::Int, Tag::Int], pair_test(Relation::Lt), offset16(a, b), res),
        Operation::Ificmpge(a, b) => cond_branch_result(old, new, 2, seq![Tag::Int, Tag::Int], pair_test(Relation::Ge), offset16(a, b), res),
        Operation::Ificmpgt(a, b) => cond_branch_result(old, new, 2, seq![Tag::Int, Tag::Int], pair_test(Relation::Gt), offset16(a, b), res),
        Operation::Ificmple(a, b) => cond_branch_result(old, new, 2, seq![Tag::Int, Tag::Int], pair_test(Relation::Le), offset16(a, b), res),
        Operation::Ifacmpeq(a, b) => cond_branch_result(old, new, 2, seq![Tag::Reference, Tag::Reference], same_ref_test(true), offset16(a, b), res),
        Operation::Ifacmpne(a, b) => cond_branch_result(old, new, 2, seq![Tag::Reference, Tag::Reference], same_ref_test(false), offset16(a, b), res),
        Operation::Goto(a, b) => goto_effect(old, new, offset16(a, b), res),
        Operation::Gotow(a, b, c, d) => goto_w_effect(old, new, offset32(a, b, c, d), res),
        Operation::Tableswitch(default, low, high, offsets) => switch_result(old, new, table_offsets(offsets@, low, high, default), res),
        Operation::Lookupswitch(default, _, pairs) => switch_result(old, new, lookup_offsets(pairs@, default), res),
        Operation::Return => new == old && res == Ok::<ExecutionResult, JVMError>(ExecutionResult::Return(None)),
        Operation::Ireturn => return_result(old, new, Tag::Int, res),
        Operation::Lreturn => return_result(old, new, Tag::Long, res),
        Operation::Freturn => return_result(old, new, Tag::Float, res),
        Operation::Dreturn => return_result(old, new, Tag::Double, res),
        Operation::Areturn => return_result(old, new, Tag::Reference, res),
        Operation::Dup => shuffle_result(old, new, 1, seq![0, 0], res),
        Operation::Dupx1 => shuffle_result(old, new, 2, seq![0, 1, 0], res),
        Operation::Dupx2 => shuffle_result(old, new, 3, seq![0, 2, 1, 0], res),
        Operation::Dup2 => shuffle_result(old, new, 2, seq![1, 0, 1, 0], res),
        Operation::Dup2x1 => shuffle_result(old, new, 3, seq![1, 0, 2, 1, 0], res),
        Operation::Dup2x2 => shuffle_result(old, new, 4, seq![1, 0, 3, 2, 1, 0], res),
        Operation::I2l => convert_result(old, new, Conversion::I2L, res),
        Operation::L2i => convert_result(old, new, Conversion::L2I, res),
        Operation::I2b => convert_result(old, new, Conversion::I2B, res),
        Operation::I2c => convert_result(old, new, Conversion::I2C, res),
        Operation::I2s => convert_result(old, new, Conversion::I2S, res),
        Operation::Pop => {
            &&& old.same_but_operands(new)
            &&& if old.operands@.len() == 0 {
                res matches Err(JVMError::StackUnderflow)
            } else {
                res matches Ok(ExecutionResult::Continue) && new.operands@ == old.operands@.drop_last()
            }
        },
        Operation::Pop2 => pop2_result(old, new, res),
        _ => reaches_out(op) || spec_is_float_op(op) || (new == old && res matches Ok(ExecutionResult::Continue)),
    }
}

/// The loaded class that declares the field that the reference at `index`
/// names, as the static field instructions find it.
pub open spec fn field_class_of(cp: Seq<ConstantInfo>, index: u16, loader: ClassLoader, res: Result<usize, JVMError>) -> bool {
    match spec_field_ref(cp, index) {
        Err(e) => res == Err::<usize, JVMError>(e),
        Ok((cn, _, _)) => match spec_find_class(loader.classes@, cn) {
            Some(c) => res == Ok::<usize, JVMError>(c as usize),
            None => res matches Err(JVMError::Other(_)),
        },
    }
}

/// What a static field instruction of the reference at `index` does:
/// the class that declares the field must be loaded; then `then` holds of
/// its position.
pub open spec fn static_effect(old: Frame, index: u16, loader: ClassLoader, res: Result<ExecutionResult, JVMError>, then: spec_fn(usize) -> bool) -> bool {
    match spec_field_ref(old.constant_pool.entries(), index) {
        Err(e) => res == Err::<ExecutionResult, JVMError>(e),
        Ok((cn, _, _)) => match spec_find_class(loader.classes@, cn) {
            Some(c) => then(c as usize),
            None => res matches Err(JVMError::Other(_)),
        },
    }
}

/// What an instruction that reaches past its frame does to the frame `old`,
/// the heap `old_heap` and the classes `old_loader`: as the instruction's
/// own function says, with its operand bytes decoded. The heap and the
/// classes change only where that function changes them.
pub open spec fn object_effect(
    op: Operation,
    old: Frame,
    new: Frame,
    old_heap: Heap,
    new_heap: Heap,
    old_loader: ClassLoader,
    new_loader: ClassLoader,
    res: Result<ExecutionResult, JVMError>,
) -> bool {
    let cp = old.constant_pool.entries();
    let classes = old_loader.classes@;
    let arena = old_heap.arena@;
    match op {
        Operation::Ldc(i) => ldc_result(old, new, i as u16, old_heap, new_heap, old_loader, res) && new_loader == old_loader,
        Operation::Ldcw(a, b) => ldc_result(old, new, index16(a, b), old_heap, new_heap, old_loader, res) && new_loader == old_loader,
        Operation::Newarray(t) => newarray_result(old, new, t, old_heap, new_heap, res) && new_loader == old_loader,
        Operation::Anewarray(a, b) => anewarray_result(old, new, index16(a, b), old_heap, new_heap, old_loader, res)
            && new_loader == old_loader,
        Operation::Multianewarray(a, b, d) => multianewarray_result(old, new, index16(a, b), d, old_heap, new_heap, old_loader, res)
            && new_loader == old_loader,
        Operation::Iaload => array_load_result(old, new, ArrayKind::I, old_heap, res) && new_heap == old_heap && new_loader == old_loader,
        Operation::Laload => array_load_result(old, new, ArrayKind::J, old_heap, res) && new_heap == old_heap && new_loader == old_loader,
        Operation::Faload => array_load_result(old, new, ArrayKind::F, old_heap, res) && new_heap == old_heap && new_loader == old_loader,
        Operation::Daload => array_load_result(old, new, ArrayKind::D, old_heap, res) && new_heap == old_heap && new_loader == old_loader,
        Operation::Aaload => array_load_result(old, new, ArrayKind::L, old_heap, res) && new_heap == old_heap && new_loader == old_loader,
        Operation::Baload => array_load_result(old, new, ArrayKind::B, old_heap, res) && new_heap == old_heap && new_loader == old_loader,
        Operation::Caload => array_load_result(old, new, ArrayKind::C, old_heap, res) && new_heap == old_heap && new_loader == old_loader,
        Operation::Saload => array_load_result(old, new, ArrayKind::S, old_heap, res) && new_heap == old_heap && new_loader == old_loader,
        Operation::Iastore => array_store_result(old, new, ArrayKind::I, old_heap, new_heap, old_loader, res) && new_loader == old_loader,
        Operation::Lastore => array_store_result(old, new, ArrayKind::J, old_heap, new_heap, old_loader, res) && new_loader == old_loader,
        Operation::Fastore => array_store_result(old, new, ArrayKind::F, old_heap, new_heap, old_loader, res) && new_loader == old_loader,
        Operation::Dastore => array_store_result(old, new, ArrayKind::D, old_heap, new_heap, old_loader, res) && new_loader == old_loader,
        Operation::Aastore => array_store_result(old, new, ArrayKind::L, old_heap, new_heap, old_loader, res) && new_loader == old_loader,
        Operation::Bastore => array_store_result(old, new, ArrayKind::B, old_heap, new_heap, old_loader, res) && new_loader == old_loader,
        Operation::Castore => array_store_result(old, new, ArrayKind::C, old_heap, new_heap, old_loader, res) && new_loader == old_loader,
        Operation::Sastore => array_store_result(old, new, ArrayKind::S, old_heap, new_heap, old_loader, res) && new_loader == old_loader,
        Operation::Arraylength => arraylength_result(old, new, old_heap, res) && new_heap == old_heap && new_loader == old_loader,
        Operation::New(a, b) => new_result(old, new, index16(a, b), old_heap, new_heap, old_loader, res) && new_loader == old_loader,
        Operation::Putfield(a, b) => putfield_result(old, new, index16(a, b), old_heap, new_heap, old_loader, res)
            && new_loader == old_loader,
        Operation::Getfield(a, b) => getfield_result(old, new, index16(a, b), old_heap, old_loader, res) && new_heap == old_heap
            && new_loader == old_loader,
        Operation::Getstatic(a, b) => new_heap == old_heap && new_loader == old_loader && static_effect(old, index16(a, b), old_loader,
            res, |c: usize| getstatic_result(old, new, index16(a, b), c, old_loader, res)),
        Operation::Putstatic(a, b) => new_heap == old_heap && static_effect(old, index16(a, b), old_loader, res,
            |c: usize| putstatic_result(old, new, index16(a, b), c, old_loader, new_loader, res)),
        Operation::Invokestatic(a, b) => invokestatic_result(old, new, index16(a, b), old_loader, res) && new_heap == old_heap
            && new_loader == old_loader,
        Operation::Invokespecial(a, b) => invokespecial_result(old, new, index16(a, b), old_heap, old_loader, res)
            && new_heap == old_heap && new_loader == old_loader,
        Operation::Invokevirtual(a, b) => invokevirtual_result(old, new, index16(a, b), old_heap, old_loader, res)
            && new_heap == old_heap && new_loader == old_loader,
        Operation::Invokeinterface(a, b, _, _) => invokeinterface_result(old, new, index16(a, b), old_heap, old_loader, res)
            && new_heap == old_heap && new_loader == old_loader,
        Operation::Athrow => throw_outcome(classes, arena, old.operands@, res) && new_heap == old_heap && new_loader == old_loader,
        Operation::Checkcast(a, b) => type_check(classes, arena, cp, index16(a, b), false,
            old.code.max_stack, old.operands@, res, new.operands@) && new_heap == old_heap && new_loader == old_loader,
        Operation::Instanceof(a, b) => type_check(classes, arena, cp, index16(a, b), true,
            old.code.max_stack, old.operands@, res, new.operands@) && new_heap == old_heap && new_loader == old_loader,
        _ => true,
    }
}

impl Frame {
    /// The position of the loaded class that declares the field that the
    /// reference at `index` names.
    fn field_class(&self, index: u16, loader: &ClassLoader) -> (res: Result<usize, JVMError>)
        ensures
            res matches Ok(c) ==> c < loader.classes@.len(),
            field_class_of(self.constant_pool.entries(), index, *loader, res),
    {
        let (class_name, _name, _descriptor) = self.resolve_field_ref(index)?;
        match loader.find_loaded_class(class_name.as_str()) {
            Some(c) => Ok(c),
            None => Err(JVMError::Other(crate::text::concat("Class not loaded: ", class_name.as_str()))),
        }
    }

    /// Runs the instruction `op` at the current position of this frame.
    /// `roots` holds the frames of the call stack as they were before, for a
    /// collection that an allocation may start. The position moves only by
    /// a jump; the caller moves to the next instruction after `Continue`.
    pub fn execute_instruction(&mut self, op: &Operation, roots: &Vec<Frame>, heap: &mut Heap, loader: &mut ClassLoader) -> (res: Result<ExecutionResult, JVMError>)
        requires
            old(self).pc < old(self).code.code@.len(),
            old(heap).wf(),
            old(loader).wf(),
            !spec_is_float_op(*op),
            op_wf(*op),
        ensures
            final(heap).wf(),
            final(loader).wf(),
            final(self).constant_pool == old(self).constant_pool,
            final(self).method_name_des == old(self).method_name_des,
            final(self).code == old(self).code,
            frame_effect(*op, *old(self), *final(self), res),
            object_effect(*op, *old(self), *final(self), *old(heap), *final(heap), *old(loader), *final(loader), res),
            !reaches_out(*op) ==> *final(heap) == *old(heap) && *final(loader) == *old(loader),
            reaches_out(*op) ==> final(self).pc == old(self).pc && final(self).locals@ == old(self).locals@,
    {
        match op {
            Operation::Iload(index) => self.iload(*index),
            Operation::Lload(index) => self.lload(*index),
            Operation::Fload(index) => self.fload(*index),
            Operation::Dload(index) => self.dload(*index),
            Operation::Aload(index) => self.aload(*index),
            Operation::Iload0 => self.iload(0),
            Operation::Iload1 => self.iload(1),
            Operation::Iload2 => self.iload(2),
            Operation::Iload3 => self.iload(3),
            Operation::Lload0 => self.lload(0),
            Operation::Lload1 => self.lload(1),
            Operation::Lload2 => self.lload(2),
            Operation::Lload3 => self.lload(3),
            Operation::Fload0 => self.fload(0),
            Operation::Fload1 => self.fload(1),
            Operation::Fload2 => self.fload(2),
            Operation::Fload3 => self.fload(3),
            Operation::Dload0 => self.dload(0),
            Operation::Dload1 => self.dload(1),
            Operation::Dload2 => self.dload(2),
            Operation::Dload3 => self.dload(3),
            Operation::Aload0 => self.aload(0),
            Operation::Aload1 => self.aload(1),
            Operation::Aload2 => self.aload(2),
            Operation::Aload3 => self.aload(3),
            Operation::Istore(index) => self.istore(*index),
            Operation::Lstore(index) => self.lstore(*index),
            Operation::Fstore(index) => self.fstore(*index),
            Operation::Dstore(index) => self.dstore(*index),
            Operation::Astore(index) => self.astore(*index),
            Operation::Istore0 => self.istore(0),
            Operation::Istore1 => self.istore(1),
            Operation::Istore2 => self.istore(2),
            Operation::Istore3 => self.istore(3),
            Operation::Lstore0 => self.lstore(0),
            Operation::Lstore1 => self.lstore(1),
            Operation::Lstore2 => self.lstore(2),
            Operation::Lstore3 => self.lstore(3),
            Operation::Fstore0 => self.fstore(0),
            Operation::Fstore1 => self.fstore(1),
            Operation::Fstore2 => self.fstore(2),
            Operation::Fstore3 => self.fstore(3),
            Operation::Dstore0 => self.dstore(0),
            Operation::Dstore1 => self.dstore(1),
            Operation::Dstore2 => self.dstore(2),
            Operation::Dstore3 => self.dstore(3),
            Operation::Astore0 => self.astore(0),
            Operation::Astore1 => self.astore(1),
            Operation::Astore2 => self.astore(2),
            Operation::Astore3 => self.astore(3),
            Operation::Aconstnull => self.aconst_null(),
            Operation::Iconstm1 => self.iconst(-1),
            Operation::Iconst0 => self.iconst(0),
            Operation::Iconst1 => self.iconst(1),
            Operation::Iconst2 => self.iconst(2),
            Operation::Iconst3 => self.iconst(3),
            Operation::Iconst4 => self.iconst(4),
            Operation::Iconst5 => self.iconst(5),
            Operation::Lconst0 => self.lconst(0),
            Operation::Lconst1 => self.lconst(1),
            Operation::Fconst0 => self.fconst(0),
            Operation::Fconst1 => self.fconst(0x3f80_0000),
            Operation::Fconst2 => self.fconst(0x4000_0000),
            Operation::Dconst0 => self.dconst(0),
            Operation::Dconst1 => self.dconst(0x3ff0_0000_0000_0000),
            Operation::Bipush(byte) => self.bipush(signed_byte(*byte)),
            Operation::Sipush(a, b) => self.sipush(join_offset(*a, *b)),
            Operation::Ldc(index) => self.load_constant(widen_index(*index), roots, heap, loader),
            Operation::Ldcw(a, b) => self.load_constant(join_index(*a, *b), roots, heap, loader),
            Operation::Ldc2w(a, b) => self.ldc2_w(join_index(*a, *b)),
            Operation::Ishl => self.ishl(),
            Operation::Ishr => self.ishr(),
            Operation::Iushr => self.iushr(),
            Operation::Lshl => self.lshl(),
            Operation::Lshr => self.lshr(),
            Operation::Lushr => self.lushr(),
            Operation::Ior => self.ior(),
            Operation::Lor => self.lor(),
            Operation::Ixor => self.ixor(),
            Operation::Lxor => self.lxor(),
            Operation::Iand => self.iand(),
            Operation::Land => self.land(),
            Operation::Iadd => self.iadd(),
            Operation::Isub => self.isub(),
            Operation::Imul => self.imul(),
            Operation::Idiv => self.idiv(),
            Operation::Irem => self.irem(),
            Operation::Ineg => self.ineg(),
            Operation::Iinc(index, value) => self.iinc(*index, signed_byte(*value)),
            Operation::Ladd => self.ladd(),
            Operation::Lsub => self.lsub(),
            Operation::Lmul => self.lmul(),
            Operation::Ldiv => self.ldiv(),
            Operation::Lrem => self.lrem(),
            Operation::Lneg => self.lneg(),
            Operation::Ifeq(a, b) => self.ifeq(join_offset(*a, *b)),
            Operation::Ifne(a, b) => self.ifne(join_offset(*a, *b)),
            Operation::Iflt(a, b) => self.iflt(join_offset(*a, *b)),
            Operation::Ifge(a, b) => self.ifge(join_offset(*a, *b)),
            Operation::Ifgt(a, b) => self.ifgt(join_offset(*a, *b)),
            Operation::Ifle(a, b) => self.ifle(join_offset(*a, *b)),
            Operation::Ifnull(a, b) => self.ifnull(join_offset(*a, *b)),
            Operation::Ifnonnull(a, b) => self.ifnonnull(join_offset(*a, *b)),
            Operation::Ificmpeq(a, b) => self.if_icmpeq(join_offset(*a, *b)),
            Operation::Ificmpne(a, b) => self.if_icmpne(join_offset(*a, *b)),
            Operation::Ificmplt(a, b) => self.if_icmplt(join_offset(*a, *b)),
            Operation::Ificmpge(a, b) => self.if_icmpge(join_offset(*a, *b)),
            Operation::Ificmpgt(a, b) => self.if_icmpgt(join_offset(*a, *b)),
            Operation::Ificmple(a, b) => self.if_icmple(join_offset(*a, *b)),
            Operation::Ifacmpeq(a, b) => self.if_acmpeq(join_offset(*a, *b)),
            Operation::Ifacmpne(a, b) => self.if_acmpne(join_offset(*a, *b)),
            Operation::Goto(a, b) => self.branch_16(join_offset(*a, *b)),
            Operation::Gotow(a, b, c, d) => self.branch_32(join_offset32(*a, *b, *c, *d)),
            Operation::Tableswitch(default_offset, low, high, jump_offsets) => self.table_switch(*default_offset, *low, *high,
                jump_offsets),
            Operation::Lookupswitch(default_offset, _, pairs) => self.lookup_switch(*default_offset, pairs),
            Operation::Return => self.return_void(),
            Operation::Ireturn => self.return_int(),
            Operation::Lreturn => self.return_long(),
            Operation::Freturn => self.return_float(),
            Operation::Dreturn => self.return_double(),
            Operation::Areturn => self.return_reference(),
            Operation::Newarray(atype) => self.newarray(*atype, roots, heap),
            Operation::Anewarray(a, b) => self.anewarray(join_index(*a, *b), roots, heap, loader),
            Operation::Multianewarray(a, b, dimensions) => self.multi_anew_array(join_index(*a, *b), *dimensions, roots, heap,
                loader),
            Operation::Iaload => self.array_load(ArrayKind::I, heap),
            Operation::Laload => self.array_load(ArrayKind::J, heap),
            Operation::Faload => self.array_load(ArrayKind::F, heap),
            Operation::Daload => self.array_load(ArrayKind::D, heap),
            Operation::Aaload => self.array_load(ArrayKind::L, heap),
            Operation::Baload => self.array_load(ArrayKind::B, heap),
            Operation::Caload => self.array_load(ArrayKind::C, heap),
            Operation::Saload => self.array_load(ArrayKind::S, heap),
            Operation::Iastore => self.array_store(ArrayKind::I, heap, loader),
            Operation::Lastore => self.array_store(ArrayKind::J, heap, loader),
            Operation::Fastore => self.array_store(ArrayKind::F, heap, loader),
            Operation::Dastore => self.array_store(ArrayKind::D, heap, loader),
            Operation::Aastore => self.array_store(ArrayKind::L, heap, loader),
            Operation::Bastore => self.array_store(ArrayKind::B, heap, loader),
            Operation::Castore => self.array_store(ArrayKind::C, heap, loader),
            Operation::Sastore => self.array_store(ArrayKind::S, heap, loader),
            Operation::Arraylength => self.arraylength(heap),
            Operation::New(a, b) => self.execute_new(join_index(*a, *b), roots, heap, loader),
            Operation::Dup => self.dup(),
            Operation::Dupx1 => self.dup_x1(),
            Operation::Dupx2 => self.dup_x2(),
            Operation::Dup2 => self.dup2(),
            Operation::Dup2x1 => self.dup2_x1(),
            Operation::Dup2x2 => self.dup2_x2(),
            Operation::Putfield(a, b) => self.putfield(join_index(*a, *b), heap, loader),
            Operation::Getfield(a, b) => self.getfield(join_index(*a, *b), heap, loader),
            Operation::Putstatic(a, b) => {
                let index = join_index(*a, *b);
                let class_id = self.field_class(index, loader)?;
                self.putstatic(index, class_id, loader)
            },
            Operation::Getstatic(a, b) => {
                let index = join_index(*a, *b);
                let class_id = self.field_class(index, loader)?;
                self.getstatic(index, class_id, loader)
            },
            Operation::Invokestatic(a, b) => self.invokestatic(join_index(*a, *b), loader),
            Operation::Invokespecial(a, b) => self.invokespecial(join_index(*a, *b), heap, loader),
            Operation::Invokevirtual(a, b) => self.invokevirtual(join_index(*a, *b), heap, loader),
            Operation::Invokeinterface(a, b, _, _) => self.invokeinterface(join_index(*a, *b), heap, loader),
            Operation::I2l => self.convert(Conversion::I2L),
            Operation::L2i => self.convert(Conversion::L2I),
            Operation::I2b => self.convert(Conversion::I2B),
            Operation::I2c => self.convert(Conversion::I2C),
            Operation::I2s => self.convert(Conversion::I2S),
            Operation::Athrow => self.athrow(heap, loader),
            Operation::Pop => {
                self.pop()?;
                Ok(ExecutionResult::Continue)
            },
            Operation::Pop2 => self.pop2(),
            Operation::Checkcast(a, b) => self.checkcast(join_index(*a, *b), heap, loader),
            Operation::Instanceof(a, b) => self.instanceof(join_index(*a, *b), heap, loader),
            _ => Ok(ExecutionResult::Continue),
        }
    }
}

} // verus!
