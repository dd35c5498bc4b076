//! The instruction set: one variant per opcode, with the operand bytes that
//! follow the opcode in the code array.

use vstd::prelude::*;

verus! {

/// One decoded bytecode instruction. Operand bytes are kept as they appear
/// in the code array; the two switch instructions carry their decoded tables.
#[derive(Debug)]
pub enum Operation {
    Nop,
    Aconstnull,
    Iconstm1,
    Iconst0,
    Iconst1,
    Iconst2,
    Iconst3,
    Iconst4,
    Iconst5,
    Lconst0,
    Lconst1,
    Fconst0,
    Fconst1,
    Fconst2,
    Dconst0,
    Dconst1,
    Bipush(u8),
    Sipush(u8, u8),
    Ldc(u8),
    Ldcw(u8, u8),
    Ldc2w(u8, u8),
    Iload(u8),
    Lload(u8),
    Fload(u8),
    Dload(u8),
    Aload(u8),
    Iload0,
    Iload1,
    Iload2,
    Iload3,
    Lload0,
    Lload1,
    Lload2,
    Lload3,
    Fload0,
    Fload1,
    Fload2,
    Fload3,
    Dload0,
    Dload1,
    Dload2,
    Dload3,
    Aload0,
    Aload1,
    Aload2,
    Aload3,
    Iaload,
    Laload,
    Faload,
    Daload,
    Aaload,
    Baload,
    Caload,
    Saload,
    Istore(u8),
    Lstore(u8),
    Fstore(u8),
    Dstore(u8),
    Astore(u8),
    Istore0,
    Istore1,
    Istore2,
    Istore3,
    Lstore0,
    Lstore1,
    Lstore2,
    Lstore3,
    Fstore0,
    Fstore1,
    Fstore2,
    Fstore3,
    Dstore0,
    Dstore1,
    Dstore2,
    Dstore3,
    Astore0,
    Astore1,
    Astore2,
    Astore3,
    Iastore,
    Lastore,
    Fastore,
    Dastore,
    Aastore,
    Bastore,
    Castore,
    Sastore,
    Pop,
    Pop2,
    Dup,
    Dupx1,
    Dupx2,
    Dup2,
    Dup2x1,
    Dup2x2,
    Swap,
    Iadd,
    Ladd,
    Fadd,
    Dadd,
    Isub,
    Lsub,
    Fsub,
    Dsub,
    Imul,
    Lmul,
    Fmul,
    Dmul,
    Idiv,
    Ldiv,
    Fdiv,
    Ddiv,
    Irem,
    Lrem,
    Frem,
    Drem,
    Ineg,
    Lneg,
    Fneg,
    Dneg,
    Ishl,
    Lshl,
    Ishr,
    Lshr,
    Iushr,
    Lushr,
    Iand,
    Land,
    Ior,
    Lor,
    Ixor,
    Lxor,
    Iinc(u8, u8),
    I2l,
    I2f,
    I2d,
    L2i,
    L2f,
    L2d,
    F2i,
    F2l,
    F2d,
    D2i,
    D2l,
    D2f,
    I2b,
    I2c,
    I2s,
    Lcmp,
    Fcmpl,
    Fcmpg,
    Dcmpl,
    Dcmpg,
    Ifeq(u8, u8),
    Ifne(u8, u8),
    Iflt(u8, u8),
    Ifge(u8, u8),
    Ifgt(u8, u8),
    Ifle(u8, u8),
    Ificmpeq(u8, u8),
    Ificmpne(u8, u8),
    Ificmplt(u8, u8),
    Ificmpge(u8, u8),
    Ificmpgt(u8, u8),
    Ificmple(u8, u8),
    Ifacmpeq(u8, u8),
    Ifacmpne(u8, u8),
    Goto(u8, u8),
    Jsr(u8, u8),
    Ret(u8),
    Ireturn,
    Lreturn,
    Freturn,
    Dreturn,
    Areturn,
    Return,
    Getstatic(u8, u8),
    Putstatic(u8, u8),
    Getfield(u8, u8),
    Putfield(u8, u8),
    Invokevirtual(u8, u8),
    Invokespecial(u8, u8),
    Invokestatic(u8, u8),
    Invokeinterface(u8, u8, u8, u8),
    Invokedynamic(u8, u8, u8, u8),
    New(u8, u8),
    Newarray(u8),
    Anewarray(u8, u8),
    Arraylength,
    Athrow,
    Checkcast(u8, u8),
    Instanceof(u8, u8),
    Monitorenter,
    Monitorexit,
    Wide(u8, u8, u8),
    Multianewarray(u8, u8, u8),
    Ifnull(u8, u8),
    Ifnonnull(u8, u8),
    Gotow(u8, u8, u8, u8),
    Jsrw(u8, u8, u8, u8),
    Breakpoint,
    Impdep1,
    Impdep2,
    Lookupswitch(i32, i32, Vec<(i32, i32)>),
    Tableswitch(i32, i32, i32, Vec<i32>),
}

/// An instruction together with its byte address in the code array.
#[derive(Debug)]
pub struct Instruction(pub u32, pub Operation);

/// The opcode byte of an operation.
pub open spec fn spec_opcode(op: Operation) -> u8 {
    match op {
        Operation::Nop => 0u8,
        Operation::Aconstnull => 1u8,
        Operation::Iconstm1 => 2u8,
        Operation::Iconst0 => 3u8,
        Operation::Iconst1 => 4u8,
        Operation::Iconst2 => 5u8,
        Operation::Iconst3 => 6u8,
        Operation::Iconst4 => 7u8,
        Operation::Iconst5 => 8u8,
        Operation::Lconst0 => 9u8,
        Operation::Lconst1 => 10u8,
        Operation::Fconst0 => 11u8,
        Operation::Fconst1 => 12u8,
        Operation::Fconst2 => 13u8,
        Operation::Dconst0 => 14u8,
        Operation::Dconst1 => 15u8,
        Operation::Bipush(_) => 16u8,
        Operation::Sipush(_, _) => 17u8,
        Operation::Ldc(_) => 18u8,
        Operation::Ldcw(_, _) => 19u8,
        Operation::Ldc2w(_, _) => 20u8,
        Operation::Iload(_) => 21u8,
        Operation::Lload(_) => 22u8,
        Operation::Fload(_) => 23u8,
        Operation::Dload(_) => 24u8,
        Operation::Aload(_) => 25u8,
        Operation::Iload0 => 26u8,
        Operation::Iload1 => 27u8,
        Operation::Iload2 => 28u8,
        Operation::Iload3 => 29u8,
        Operation::Lload0 => 30u8,
        Operation::Lload1 => 31u8,
        Operation::Lload2 => 32u8,
        Operation::Lload3 => 33u8,
        Operation::Fload0 => 34u8,
        Operation::Fload1 => 35u8,
        Operation::Fload2 => 36u8,
        Operation::Fload3 => 37u8,
        Operation::Dload0 => 38u8,
        Operation::Dload1 => 39u8,
        Operation::Dload2 => 40u8,
        Operation::Dload3 => 41u8,
        Operation::Aload0 => 42u8,
        Operation::Aload1 => 43u8,
        Operation::Aload2 => 44u8,
        Operation::Aload3 => 45u8,
        Operation::Iaload => 46u8,
        Operation::Laload => 47u8,
        Operation::Faload => 48u8,
        Operation::Daload => 49u8,
        Operation::Aaload => 50u8,
        Operation::Baload => 51u8,
        Operation::Caload => 52u8,
        Operation::Saload => 53u8,
        Operation::Istore(_) => 54u8,
        Operation::Lstore(_) => 55u8,
        Operation::Fstore(_) => 56u8,
        Operation::Dstore(_) => 57u8,
        Operation::Astore(_) => 58u8,
        Operation::Istore0 => 59u8,
        Operation::Istore1 => 60u8,
        Operation::Istore2 => 61u8,
        Operation::Istore3 => 62u8,
        Operation::Lstore0 => 63u8,
        Operation::Lstore1 => 64u8,
        Operation::Lstore2 => 65u8,
        Operation::Lstore3 => 66u8,
        Operation::Fstore0 => 67u8,
        Operation::Fstore1 => 68u8,
        Operation::Fstore2 => 69u8,
        Operation::Fstore3 => 70u8,
        Operation::Dstore0 => 71u8,
        Operation::Dstore1 => 72u8,
        Operation::Dstore2 => 73u8,
        Operation::Dstore3 => 74u8,
        Operation::Astore0 => 75u8,
        Operation::Astore1 => 76u8,
        Operation::Astore2 => 77u8,
        Operation::Astore3 => 78u8,
        Operation::Iastore => 79u8,
        Operation::Lastore => 80u8,
        Operation::Fastore => 81u8,
        Operation::Dastore => 82u8,
        Operation::Aastore => 83u8,
        Operation::Bastore => 84u8,
        Operation::Castore => 85u8,
        Operation::Sastore => 86u8,
        Operation::Pop => 87u8,
        Operation::Pop2 => 88u8,
        Operation::Dup => 89u8,
        Operation::Dupx1 => 90u8,
        Operation::Dupx2 => 91u8,
        Operation::Dup2 => 92u8,
        Operation::Dup2x1 => 93u8,
        Operation::Dup2x2 => 94u8,
        Operation::Swap => 95u8,
        Operation::Iadd => 96u8,
        Operation::Ladd => 97u8,
        Operation::Fadd => 98u8,
        Operation::Dadd => 99u8,
        Operation::Isub => 100u8,
        Operation::Lsub => 101u8,
        Operation::Fsub => 102u8,
        Operation::Dsub => 103u8,
        Operation::Imul => 104u8,
        Operation::Lmul => 105u8,
        Operation::Fmul => 106u8,
        Operation::Dmul => 107u8,
        Operation::Idiv => 108u8,
        Operation::Ldiv => 109u8,
        Operation::Fdiv => 110u8,
        Operation::Ddiv => 111u8,
        Operation::Irem => 112u8,
        Operation::Lrem => 113u8,
        Operation::Frem => 114u8,
        Operation::Drem => 115u8,
        Operation::Ineg => 116u8,
        Operation::Lneg => 117u8,
        Operation::Fneg => 118u8,
        Operation::Dneg => 119u8,
        Operation::Ishl => 120u8,
        Operation::Lshl => 121u8,
        Operation::Ishr => 122u8,
        Operation::Lshr => 123u8,
        Operation::Iushr => 124u8,
        Operation::Lushr => 125u8,
        Operation::Iand => 126u8,
        Operation::Land => 127u8,
        Operation::Ior => 128u8,
        Operation::Lor => 129u8,
        Operation::Ixor => 130u8,
        Operation::Lxor => 131u8,
        Operation::Iinc(_, _) => 132u8,
        Operation::I2l => 133u8,
        Operation::I2f => 134u8,
        Operation::I2d => 135u8,
        Operation::L2i => 136u8,
        Operation::L2f => 137u8,
        Operation::L2d => 138u8,
        Operation::F2i => 139u8,
        Operation::F2l => 140u8,
        Operation::F2d => 141u8,
        Operation::D2i => 142u8,
        Operation::D2l => 143u8,
        Operation::D2f => 144u8,
        Operation::I2b => 145u8,
        Operation::I2c => 146u8,
        Operation::I2s => 147u8,
        Operation::Lcmp => 148u8,
        Operation::Fcmpl => 149u8,
        Operation::Fcmpg => 150u8,
        Operation::Dcmpl => 151u8,
        Operation::Dcmpg => 152u8,
        Operation::Ifeq(_, _) => 153u8,
        Operation::Ifne(_, _) => 154u8,
        Operation::Iflt(_, _) => 155u8,
        Operation::Ifge(_, _) => 156u8,
        Operation::Ifgt(_, _) => 157u8,
        Operation::Ifle(_, _) => 158u8,
        Operation::Ificmpeq(_, _) => 159u8,
        Operation::Ificmpne(_, _) => 160u8,
        Operation::Ificmplt(_, _) => 161u8,
        Operation::Ificmpge(_, _) => 162u8,
        Operation::Ificmpgt(_, _) => 163u8,
        Operation::Ificmple(_, _) => 164u8,
        Operation::Ifacmpeq(_, _) => 165u8,
        Operation::Ifacmpne(_, _) => 166u8,
        Operation::Goto(_, _) => 167u8,
        Operation::Jsr(_, _) => 168u8,
        Operation::Ret(_) => 169u8,
        Operation::Ireturn => 172u8,
        Operation::Lreturn => 173u8,
        Operation::Freturn => 174u8,
        Operation::Dreturn => 175u8,
        Operation::Areturn => 176u8,
        Operation::Return => 177u8,
        Operation::Getstatic(_, _) => 178u8,
        Operation::Putstatic(_, _) => 179u8,
        Operation::Getfield(_, _) => 180u8,
        Operation::Putfield(_, _) => 181u8,
        Operation::Invokevirtual(_, _) => 182u8,
        Operation::Invokespecial(_, _) => 183u8,
        Operation::Invokestatic(_, _) => 184u8,
        Operation::Invokeinterface(_, _, _, _) => 185u8,
        Operation::Invokedynamic(_, _, _, _) => 186u8,
        Operation::New(_, _) => 187u8,
        Operation::Newarray(_) => 188u8,
        Operation::Anewarray(_, _) => 189u8,
        Operation::Arraylength => 190u8,
        Operation::Athrow => 191u8,
        Operation::Checkcast(_, _) => 192u8,
        Operation::Instanceof(_, _) => 193u8,
        Operation::Monitorenter => 194u8,
        Operation::Monitorexit => 195u8,
        Operation::Wide(_, _, _) => 196u8,
        Operation::Multianewarray(_, _, _) => 197u8,
        Operation::Ifnull(_, _) => 198u8,
        Operation::Ifnonnull(_, _) => 199u8,
        Operation::Gotow(_, _, _, _) => 200u8,
        Operation::Jsrw(_, _, _, _) => 201u8,
        Operation::Breakpoint => 202u8,
        Operation::Impdep1 => 254u8,
        Operation::Impdep2 => 255u8,
        Operation::Lookupswitch(_, _, _) => 171u8,
        Operation::Tableswitch(_, _, _, _) => 170u8,
    }
}

/// The operand bytes of an operation that is not a switch, in order.
pub open spec fn spec_operands(op: Operation) -> Seq<u8> {
    match op {
        Operation::Bipush(a) => seq![a],
        Operation::Sipush(a, b) => seq![a, b],
        Operation::Ldc(a) => seq![a],
        Operation::Ldcw(a, b) => seq![a, b],
        Operation::Ldc2w(a, b) => seq![a, b],
        Operation::Iload(a) => seq![a],
        Operation::Lload(a) => seq![a],
        Operation::Fload(a) => seq![a],
        Operation::Dload(a) => seq![a],
        Operation::Aload(a) => seq![a],
        Operation::Istore(a) => seq![a],
        Operation::Lstore(a) => seq![a],
        Operation::Fstore(a) => seq![a],
        Operation::Dstore(a) => seq![a],
        Operation::Astore(a) => seq![a],
        Operation::Iinc(a, b) => seq![a, b],
        Operation::Ifeq(a, b) => seq![a, b],
        Operation::Ifne(a, b) => seq![a, b],
        Operation::Iflt(a, b) => seq![a, b],
        Operation::Ifge(a, b) => seq![a, b],
        Operation::Ifgt(a, b) => seq![a, b],
        Operation::Ifle(a, b) => seq![a, b],
        Operation::Ificmpeq(a, b) => seq![a, b],
        Operation::Ificmpne(a, b) => seq![a, b],
        Operation::Ificmplt(a, b) => seq![a, b],
        Operation::Ificmpge(a, b) => seq![a, b],
        Operation::Ificmpgt(a, b) => seq![a, b],
        Operation::Ificmple(a, b) => seq![a, b],
        Operation::Ifacmpeq(a, b) => seq![a, b],
        Operation::Ifacmpne(a, b) => seq![a, b],
        Operation::Goto(a, b) => seq![a, b],
        Operation::Jsr(a, b) => seq![a, b],
        Operation::Ret(a) => seq![a],
        Operation::Getstatic(a, b) => seq![a, b],
        Operation::Putstatic(a, b) => seq![a, b],
        Operation::Getfield(a, b) => seq![a, b],
        Operation::Putfield(a, b) => seq![a, b],
        Operation::Invokevirtual(a, b) => seq![a, b],
        Operation::Invokespecial(a, b) => seq![a, b],
        Operation::Invokestatic(a, b) => seq![a, b],
        Operation::Invokeinterface(a, b, c, d) => seq![a, b, c, d],
        Operation::Invokedynamic(a, b, c, d) => seq![a, b, c, d],
        Operation::New(a, b) => seq![a, b],
        Operation::Newarray(a) => seq![a],
        Operation::Anewarray(a, b) => seq![a, b],
        Operation::Checkcast(a, b) => seq![a, b],
        Operation::Instanceof(a, b) => seq![a, b],
        Operation::Wide(a, b, c) => seq![a, b, c],
        Operation::Multianewarray(a, b, c) => seq![a, b, c],
        Operation::Ifnull(a, b) => seq![a, b],
        Operation::Ifnonnull(a, b) => seq![a, b],
        Operation::Gotow(a, b, c, d) => seq![a, b, c, d],
        Operation::Jsrw(a, b, c, d) => seq![a, b, c, d],
        _ => Seq::empty(),
    }
}

/// The number of operand bytes that follow an opcode of fixed length;
/// `None` for the two switch opcodes and for bytes that are no opcode.
pub open spec fn spec_operand_count(opcode: u8) -> Option<nat> {
    if opcode == 0 || opcode == 1 || opcode == 2 || opcode == 3 || opcode == 4 || opcode == 5 || opcode == 6 || opcode == 7 || opcode == 8 || opcode == 9 || opcode == 10 || opcode == 11 || opcode == 12 || opcode == 13 || opcode == 14 || opcode == 15 || opcode == 26 || opcode == 27 || opcode == 28 || opcode == 29 || opcode == 30 || opcode == 31 || opcode == 32 || opcode == 33 || opcode == 34 || opcode == 35 || opcode == 36 || opcode == 37 || opcode == 38 || opcode == 39 || opcode == 40 || opcode == 41 || opcode == 42 || opcode == 43 || opcode == 44 || opcode == 45 || opcode == 46 || opcode == 47 || opcode == 48 || opcode == 49 || opcode == 50 || opcode == 51 || opcode == 52 || opcode == 53 || opcode == 59 || opcode == 60 || opcode == 61 || opcode == 62 || opcode == 63 || opcode == 64 || opcode == 65 || opcode == 66 || opcode == 67 || opcode == 68 || opcode == 69 || opcode == 70 || opcode == 71 || opcode == 72 || opcode == 73 || opcode == 74 || opcode == 75 || opcode == 76 || opcode == 77 || opcode == 78 || opcode == 79 || opcode == 80 || opcode == 81 || opcode == 82 || opcode == 83 || opcode == 84 || opcode == 85 || opcode == 86 || opcode == 87 || opcode == 88 || opcode == 89 || opcode == 90 || opcode == 91 || opcode == 92 || opcode == 93 || opcode == 94 || opcode == 95 || opcode == 96 || opcode == 97 || opcode == 98 || opcode == 99 || opcode == 100 || opcode == 101 || opcode == 102 || opcode == 103 || opcode == 104 || opcode == 105 || opcode == 106 || opcode == 107 || opcode == 108 || opcode == 109 || opcode == 110 || opcode == 111 || opcode == 112 || opcode == 113 || opcode == 114 || opcode == 115 || opcode == 116 || opcode == 117 || opcode == 118 || opcode == 119 || opcode == 120 || opcode == 121 || opcode == 122 || opcode == 123 || opcode == 124 || opcode == 125 || opcode == 126 || opcode == 127 || opcode == 128 || opcode == 129 || opcode == 130 || opcode == 131 || opcode == 133 || opcode == 134 || opcode == 135 || opcode == 136 || opcode == 137 || opcode == 138 || opcode == 139 || opcode == 140 || opcode == 141 || opcode == 142 || opcode == 143 || opcode == 144 || opcode == 145 || opcode == 146 || opcode == 147 || opcode == 148 || opcode == 149 || opcode == 150 || opcode == 151 || opcode == 152 || opcode == 172 || opcode == 173 || opcode == 174 || opcode == 175 || opcode == 176 || opcode == 177 || opcode == 190 || opcode == 191 || opcode == 194 || opcode == 195 || opcode == 202 || opcode == 254 || opcode == 255 {
        Some(0)
    } else if opcode == 16 || opcode == 18 || opcode == 21 || opcode == 22 || opcode == 23 || opcode == 24 || opcode == 25 || opcode == 54 || opcode == 55 || opcode == 56 || opcode == 57 || opcode == 58 || opcode == 169 || opcode == 188 {
        Some(1)
    } else if opcode == 17 || opcode == 19 || opcode == 20 || opcode == 132 || opcode == 153 || opcode == 154 || opcode == 155 || opcode == 156 || opcode == 157 || opcode == 158 || opcode == 159 || opcode == 160 || opcode == 161 || opcode == 162 || opcode == 163 || opcode == 164 || opcode == 165 || opcode == 166 || opcode == 167 || opcode == 168 || opcode == 178 || opcode == 179 || opcode == 180 || opcode == 181 || opcode == 182 || opcode == 183 || opcode == 184 || opcode == 187 || opcode == 189 || opcode == 192 || opcode == 193 || opcode == 198 || opcode == 199 {
        Some(2)
    } else if opcode == 196 || opcode == 197 {
        Some(3)
    } else if opcode == 185 || opcode == 186 || opcode == 200 || opcode == 201 {
        Some(4)
    } else {
        None
    }
}

/// The operand count of a fixed-length opcode, as `spec_operand_count` states it.
pub fn operand_count(opcode: u8) -> (res: Option<u8>)
    ensures
        res matches Some(k) ==> spec_operand_count(opcode) == Some(k as nat),
        res is None ==> spec_operand_count(opcode) is None,
{
    match opcode {
        0 | 1 | 2 | 3 | 4 | 5 | 6 | 7 | 8 | 9 | 10 | 11 | 12 | 13 | 14 | 15 | 26 | 27 | 28 | 29 | 30 | 31 | 32 | 33 | 34 | 35 | 36 | 37 | 38 | 39 | 40 | 41 | 42 | 43 | 44 | 45 | 46 | 47 | 48 | 49 | 50 | 51 | 52 | 53 | 59 | 60 | 61 | 62 | 63 | 64 | 65 | 66 | 67 | 68 | 69 | 70 | 71 | 72 | 73 | 74 | 75 | 76 | 77 | 78 | 79 | 80 | 81 | 82 | 83 | 84 | 85 | 86 | 87 | 88 | 89 | 90 | 91 | 92 | 93 | 94 | 95 | 96 | 97 | 98 | 99 | 100 | 101 | 102 | 103 | 104 | 105 | 106 | 107 | 108 | 109 | 110 | 111 | 112 | 113 | 114 | 115 | 116 | 117 | 118 | 119 | 120 | 121 | 122 | 123 | 124 | 125 | 126 | 127 | 128 | 129 | 130 | 131 | 133 | 134 | 135 | 136 | 137 | 138 | 139 | 140 | 141 | 142 | 143 | 144 | 145 | 146 | 147 | 148 | 149 | 150 | 151 | 152 | 172 | 173 | 174 | 175 | 176 | 177 | 190 | 191 | 194 | 195 | 202 | 254 | 255 => Some(0),
        16 | 18 | 21 | 22 | 23 | 24 | 25 | 54 | 55 | 56 | 57 | 58 | 169 | 188 => Some(1),
        17 | 19 | 20 | 132 | 153 | 154 | 155 | 156 | 157 | 158 | 159 | 160 | 161 | 162 | 163 | 164 | 165 | 166 | 167 | 168 | 178 | 179 | 180 | 181 | 182 | 183 | 184 | 187 | 189 | 192 | 193 | 198 | 199 => Some(2),
        196 | 197 => Some(3),
        185 | 186 | 200 | 201 => Some(4),
        _ => None,
    }
}

/// Builds the operation of an opcode that takes 0 operand byte(s).
#[verifier::spinoff_prover]
#[verifier::rlimit(60)]
fn build_operation_0(opcode: u8) -> (op: Operation)
    requires
        spec_operand_count(opcode) == Some(0nat),
    ensures
        spec_opcode(op) == opcode,
        spec_operands(op) == Seq::<u8>::empty(),
{
    match opcode {
        0 => Operation::Nop,
        1 => Operation::Aconstnull,
        2 => Operation::Iconstm1,
        3 => Operation::Iconst0,
        4 => Operation::Iconst1,
        5 => Operation::Iconst2,
        6 => Operation::Iconst3,
        7 => Operation::Iconst4,
        8 => Operation::Iconst5,
        9 => Operation::Lconst0,
        10 => Operation::Lconst1,
        11 => Operation::Fconst0,
        12 => Operation::Fconst1,
        13 => Operation::Fconst2,
        14 => Operation::Dconst0,
        15 => Operation::Dconst1,
        26 => Operation::Iload0,
        27 => Operation::Iload1,
        28 => Operation::Iload2,
        29 => Operation::Iload3,
        30 => Operation::Lload0,
        31 => Operation::Lload1,
        32 => Operation::Lload2,
        33 => Operation::Lload3,
        34 => Operation::Fload0,
        35 => Operation::Fload1,
        36 => Operation::Fload2,
        37 => Operation::Fload3,
        38 => Operation::Dload0,
        39 => Operation::Dload1,
        40 => Operation::Dload2,
        41 => Operation::Dload3,
        42 => Operation::Aload0,
        43 => Operation::Aload1,
        44 => Operation::Aload2,
        45 => Operation::Aload3,
        46 => Operation::Iaload,
        47 => Operation::Laload,
        48 => Operation::Faload,
        49 => Operation::Daload,
        50 => Operation::Aaload,
        51 => Operation::Baload,
        52 => Operation::Caload,
        53 => Operation::Saload,
        59 => Operation::Istore0,
        60 => Operation::Istore1,
        61 => Operation::Istore2,
        62 => Operation::Istore3,
        63 => Operation::Lstore0,
        64 => Operation::Lstore1,
        65 => Operation::Lstore2,
        66 => Operation::Lstore3,
        67 => Operation::Fstore0,
        68 => Operation::Fstore1,
        69 => Operation::Fstore2,
        70 => Operation::Fstore3,
        71 => Operation::Dstore0,
        72 => Operation::Dstore1,
        73 => Operation::Dstore2,
        74 => Operation::Dstore3,
        75 => Operation::Astore0,
        76 => Operation::Astore1,
        77 => Operation::Astore2,
        78 => Operation::Astore3,
        79 => Operation::Iastore,
        80 => Operation::Lastore,
        81 => Operation::Fastore,
        82 => Operation::Dastore,
        83 => Operation::Aastore,
        84 => Operation::Bastore,
        85 => Operation::Castore,
        86 => Operation::Sastore,
        87 => Operation::Pop,
        88 => Operation::Pop2,
        89 => Operation::Dup,
        90 => Operation::Dupx1,
        91 => Operation::Dupx2,
        92 => Operation::Dup2,
        93 => Operation::Dup2x1,
        94 => Operation::Dup2x2,
        95 => Operation::Swap,
        96 => Operation::Iadd,
        97 => Operation::Ladd,
        98 => Operation::Fadd,
        99 => Operation::Dadd,
        100 => Operation::Isub,
        101 => Operation::Lsub,
        102 => Operation::Fsub,
        103 => Operation::Dsub,
        104 => Operation::Imul,
        105 => Operation::Lmul,
        106 => Operation::Fmul,
        107 => Operation::Dmul,
        108 => Operation::Idiv,
        109 => Operation::Ldiv,
        110 => Operation::Fdiv,
        111 => Operation::Ddiv,
        112 => Operation::Irem,
        113 => Operation::Lrem,
        114 => Operation::Frem,
        115 => Operation::Drem,
        116 => Operation::Ineg,
        117 => Operation::Lneg,
        118 => Operation::Fneg,
        119 => Operation::Dneg,
        120 => Operation::Ishl,
        121 => Operation::Lshl,
        122 => Operation::Ishr,
        123 => Operation::Lshr,
        124 => Operation::Iushr,
        125 => Operation::Lushr,
        126 => Operation::Iand,
        127 => Operation::Land,
        128 => Operation::Ior,
        129 => Operation::Lor,
        130 => Operation::Ixor,
        131 => Operation::Lxor,
        133 => Operation::I2l,
        134 => Operation::I2f,
        135 => Operation::I2d,
        136 => Operation::L2i,
        137 => Operation::L2f,
        138 => Operation::L2d,
        139 => Operation::F2i,
        140 => Operation::F2l,
        141 => Operation::F2d,
        142 => Operation::D2i,
        143 => Operation::D2l,
        144 => Operation::D2f,
        145 => Operation::I2b,
        146 => Operation::I2c,
        147 => Operation::I2s,
        148 => Operation::Lcmp,
        149 => Operation::Fcmpl,
        150 => Operation::Fcmpg,
        151 => Operation::Dcmpl,
        152 => Operation::Dcmpg,
        172 => Operation::Ireturn,
        173 => Operation::Lreturn,
        174 => Operation::Freturn,
        175 => Operation::Dreturn,
        176 => Operation::Areturn,
        177 => Operation::Return,
        190 => Operation::Arraylength,
        191 => Operation::Athrow,
        194 => Operation::Monitorenter,
        195 => Operation::Monitorexit,
        202 => Operation::Breakpoint,
        254 => Operation::Impdep1,
        255 => Operation::Impdep2,
        _ => {
            assert(false);
            Operation::Nop
        }
    }
}

/// Builds the operation of an opcode that takes 1 operand byte(s).
#[verifier::spinoff_prover]
#[verifier::rlimit(60)]
fn build_operation_1(opcode: u8, a: u8) -> (op: Operation)
    requires
        spec_operand_count(opcode) == Some(1nat),
    ensures
        spec_opcode(op) == opcode,
        spec_operands(op) == seq![a],
{
    match opcode {
        16 => Operation::Bipush(a),
        18 => Operation::Ldc(a),
        21 => Operation::Iload(a),
        22 => Operation::Lload(a),
        23 => Operation::Fload(a),
        24 => Operation::Dload(a),
        25 => Operation::Aload(a),
        54 => Operation::Istore(a),
        55 => Operation::Lstore(a),
        56 => Operation::Fstore(a),
        57 => Operation::Dstore(a),
        58 => Operation::Astore(a),
        169 => Operation::Ret(a),
        188 => Operation::Newarray(a),
        _ => {
            assert(false);
            Operation::Nop
        }
    }
}

/// Builds the operation of an opcode that takes 2 operand byte(s).
#[verifier::spinoff_prover]
#[verifier::rlimit(60)]
fn build_operation_2(opcode: u8, a: u8, b: u8) -> (op: Operation)
    requires
        spec_operand_count(opcode) == Some(2nat),
    ensures
        spec_opcode(op) == opcode,
        spec_operands(op) == seq![a, b],
{
    match opcode {
        17 => Operation::Sipush(a, b),
        19 => Operation::Ldcw(a, b),
        20 => Operation::Ldc2w(a, b),
        132 => Operation::Iinc(a, b),
        153 => Operation::Ifeq(a, b),
        154 => Operation::Ifne(a, b),
        155 => Operation::Iflt(a, b),
        156 => Operation::Ifge(a, b),
        157 => Operation::Ifgt(a, b),
        158 => Operation::Ifle(a, b),
        159 => Operation::Ificmpeq(a, b),
        160 => Operation::Ificmpne(a, b),
        161 => Operation::Ificmplt(a, b),
        162 => Operation::Ificmpge(a, b),
        163 => Operation::Ificmpgt(a, b),
        164 => Operation::Ificmple(a, b),
        165 => Operation::Ifacmpeq(a, b),
        166 => Operation::Ifacmpne(a, b),
        167 => Operation::Goto(a, b),
        168 => Operation::Jsr(a, b),
        178 => Operation::Getstatic(a, b),
        179 => Operation::Putstatic(a, b),
        180 => Operation::Getfield(a, b),
        181 => Operation::Putfield(a, b),
        182 => Operation::Invokevirtual(a, b),
        183 => Operation::Invokespecial(a, b),
        184 => Operation::Invokestatic(a, b),
        187 => Operation::New(a, b),
        189 => Operation::Anewarray(a, b),
        192 => Operation::Checkcast(a, b),
        193 => Operation::Instanceof(a, b),
        198 => Operation::Ifnull(a, b),
        199 => Operation::Ifnonnull(a, b),
        _ => {
            assert(false);
            Operation::Nop
        }
    }
}

/// Builds the operation of an opcode that takes 3 operand byte(s).
#[verifier::spinoff_prover]
#[verifier::rlimit(60)]
fn build_operation_3(opcode: u8, a: u8, b: u8, c: u8) -> (op: Operation)
    requires
        spec_operand_count(opcode) == Some(3nat),
    ensures
        spec_opcode(op) == opcode,
        spec_operands(op) == seq![a, b, c],
{
    match opcode {
        196 => Operation::Wide(a, b, c),
        197 => Operation::Multianewarray(a, b, c),
        _ => {
            assert(false);
            Operation::Nop
        }
    }
}

/// Builds the operation of an opcode that takes 4 operand byte(s).
#[verifier::spinoff_prover]
#[verifier::rlimit(60)]
fn build_operation_4(opcode: u8, a: u8, b: u8, c: u8, d: u8) -> (op: Operation)
    requires
        spec_operand_count(opcode) == Some(4nat),
    ensures
        spec_opcode(op) == opcode,
        spec_operands(op) == seq![a, b, c, d],
{
    match opcode {
        185 => Operation::Invokeinterface(a, b, c, d),
        186 => Operation::Invokedynamic(a, b, c, d),
        200 => Operation::Gotow(a, b, c, d),
        201 => Operation::Jsrw(a, b, c, d),
        _ => {
            assert(false);
            Operation::Nop
        }
    }
}

/// Builds the operation of a fixed-length opcode from its operand bytes.
pub fn build_operation(opcode: u8, operands: &[u8]) -> (op: Operation)
    requires
        spec_operand_count(opcode) matches Some(k) && operands@.len() == k,
    ensures
        spec_opcode(op) == opcode,
        spec_operands(op) == operands@,
{
    let n = operands.len();
    if n == 0 {
        let op = build_operation_0(opcode);
        assert(operands@ =~= Seq::<u8>::empty());
        op
    } else if n == 1 {
        let op = build_operation_1(opcode, operands[0]);
        assert(operands@ =~= seq![operands[0]]);
        op
    } else if n == 2 {
        let op = build_operation_2(opcode, operands[0], operands[1]);
        assert(operands@ =~= seq![operands[0], operands[1]]);
        op
    } else if n == 3 {
        let op = build_operation_3(opcode, operands[0], operands[1], operands[2]);
        assert(operands@ =~= seq![operands[0], operands[1], operands[2]]);
        op
    } else {
        let op = build_operation_4(opcode, operands[0], operands[1], operands[2], operands[3]);
        assert(operands@ =~= seq![operands[0], operands[1], operands[2], operands[3]]);
        op
    }
}

} // verus!
