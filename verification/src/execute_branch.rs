//! Jumps: `goto`, the conditional branches and the two switches.
//!
//! A jump sets `pc` to the position before its target, since the
//! interpreter moves to the next position after an instruction that
//! continues.

use vstd::prelude::*;
use crate::attribute::{first_index_at_address, Code};
use crate::execute_arith::int_of;
use crate::jvm_error::JVMError;
use crate::runtime::{fails_with, popped, rest, ExecutionResult, Frame, Tag, Value};

verus! {

/// The address that a 16-bit offset leads to from `address`; the sum wraps
/// around at 2^16.
pub open spec fn target16(address: u32, offset: i16) -> u32 {
    ((address % 65536 + offset + 65536) % 65536) as u32
}

/// The address that a 32-bit offset leads to from `address`; the sum wraps
/// around at 2^32.
pub open spec fn target32(address: u32, offset: i32) -> u32 {
    ((address + offset + 0x1_0000_0000) % 0x1_0000_0000) as u32
}

/// Whether a jump to `target` from position `pc` of `code` gives the new
/// position `new_pc` and `res`: it lands before the first instruction at
/// `target`, and fails with `InvalidOffset(offset)` when there is none past
/// the first position.
pub open spec fn jumps_to(code: Code, pc: usize, target: u32, offset: i32, new_pc: usize, res: Result<ExecutionResult, JVMError>) -> bool {
    if exists|i: int| 1 <= i && first_index_at_address(code.code@, target, i) {
        res matches Ok(ExecutionResult::Continue) && first_index_at_address(code.code@, target, new_pc + 1)
    } else {
        res == Err::<ExecutionResult, JVMError>(JVMError::InvalidOffset(offset)) && new_pc == pc
    }
}

/// Whether the frame was left as it was but for its position.
pub open spec fn same_but_pc(old: Frame, new: Frame) -> bool {
    &&& new.constant_pool == old.constant_pool
    &&& new.method_name_des == old.method_name_des
    &&& new.code == old.code
    &&& new.locals@ == old.locals@
    &&& new.operands@ == old.operands@
}

/// A comparison of a conditional branch.
#[derive(Debug, Clone, Copy, PartialEq, Eq, Structural)]
pub enum Relation {
    Eq,
    Ne,
    Lt,
    Ge,
    Gt,
    Le,
}

/// Whether `a` compares to `b` as `c` asks.
pub open spec fn compares(c: Relation, a: int, b: int) -> bool {
    match c {
        Relation::Eq => a == b,
        Relation::Ne => a != b,
        Relation::Lt => a < b,
        Relation::Ge => a >= b,
        Relation::Gt => a > b,
        Relation::Le => a <= b,
    }
}

/// The test of a branch that compares one popped `int` to zero.
pub open spec fn zero_test(c: Relation) -> spec_fn(Seq<Value>) -> bool {
    |vs: Seq<Value>| compares(c, int_of(vs[0]) as int, 0)
}

/// The test of a branch that compares two popped `int`s, the first pushed
/// on the left.
pub open spec fn pair_test(c: Relation) -> spec_fn(Seq<Value>) -> bool {
    |vs: Seq<Value>| compares(c, int_of(vs[1]) as int, int_of(vs[0]) as int)
}

/// The test of a branch on whether a popped reference is null.
pub open spec fn null_test(when_null: bool) -> spec_fn(Seq<Value>) -> bool {
    |vs: Seq<Value>| (vs[0] == Value::Reference(None)) == when_null
}

/// The test of a branch on whether the two popped references are the same
/// (both null, or to the same object), or differ when `same` is false.
pub open spec fn same_ref_test(same: bool) -> spec_fn(Seq<Value>) -> bool {
    |vs: Seq<Value>| (vs[0] == vs[1]) == same
}

/// The outcome of a conditional branch that checks for `need` operands,
/// pops values of the kinds `tags` and jumps by `offset` when `taken` holds
/// of the popped values.
pub open spec fn cond_branch_result(
    old: Frame,
    new: Frame,
    need: usize,
    tags: Seq<Tag>,
    taken: spec_fn(Seq<Value>) -> bool,
    offset: i16,
    res: Result<ExecutionResult, JVMError>,
) -> bool {
    &&& new.constant_pool == old.constant_pool
    &&& new.method_name_des == old.method_name_des
    &&& new.code == old.code
    &&& new.locals@ == old.locals@
    &&& match popped(old.operands@, need, tags) {
        Err(f) => fails_with(res, f),
        Ok(vs) => {
            &&& new.operands@ == rest(old.operands@, tags.len() as int)
            &&& if taken(vs) {
                jumps_to(*old.code, old.pc, target16(old.code.code@[old.pc as int].0, offset), offset as i32,
                    new.pc, res)
            } else {
                res matches Ok(ExecutionResult::Continue) && new.pc == old.pc
            }
        },
    }
}

/// The outcome of a switch that jumps by `offset_of` the popped key.
pub open spec fn switch_result(old: Frame, new: Frame, offset_of: spec_fn(i32) -> i32, res: Result<ExecutionResult, JVMError>) -> bool {
    &&& new.constant_pool == old.constant_pool
    &&& new.method_name_des == old.method_name_des
    &&& new.code == old.code
    &&& new.locals@ == old.locals@
    &&& match popped(old.operands@, 0, seq![Tag::Int]) {
        Err(f) => fails_with(res, f),
        Ok(vs) => {
            let offset = offset_of(int_of(vs[0]));
            &&& new.operands@ == rest(old.operands@, 1)
            &&& jumps_to(*old.code, old.pc, target32(old.code.code@[old.pc as int].0, offset), offset, new.pc, res)
        },
    }
}

/// The offset of the first pair whose key is `key`, or `default`.
pub open spec fn lookup_offset(pairs: Seq<(i32, i32)>, key: i32, default: i32) -> i32
    decreases pairs.len(),
{
    if pairs.len() == 0 {
        default
    } else if pairs[0].0 == key {
        pairs[0].1
    } else {
        lookup_offset(pairs.drop_first(), key, default)
    }
}

/// The offset that a table switch picks for `index`.
pub open spec fn table_offset(offsets: Seq<i32>, low: i32, high: i32, index: i32, default: i32) -> i32 {
    if index < low || index > high { default } else { offsets[index - low] }
}

/// The offsets of a lookup switch over `pairs`.
pub open spec fn lookup_offsets(pairs: Seq<(i32, i32)>, default: i32) -> spec_fn(i32) -> i32 {
    |k: i32| lookup_offset(pairs, k, default)
}

/// The offsets of a table switch over `offsets` for the keys `low..=high`.
pub open spec fn table_offsets(offsets: Seq<i32>, low: i32, high: i32, default: i32) -> spec_fn(i32) -> i32 {
    |k: i32| table_offset(offsets, low, high, k, default)
}

impl Frame {
    /// Sets `pc` before the first instruction at `target`.
    fn jump(&mut self, target: u32, offset: i32) -> (res: Result<ExecutionResult, JVMError>)
        ensures
            same_but_pc(*old(self), *final(self)),
            jumps_to(*old(self).code, old(self).pc, target, offset, final(self).pc, res),
    {
        match self.code.get_index_at_address(target) {
            Some(i) => {
                if i == 0 {
                    return Err(JVMError::InvalidOffset(offset));
                }
                self.pc = i - 1;
                Ok(ExecutionResult::Continue)
            },
            None => Err(JVMError::InvalidOffset(offset)),
        }
    }

    /// Jumps by a 16-bit offset from the current instruction.
    pub fn branch_16(&mut self, offset: i16) -> (res: Result<ExecutionResult, JVMError>)
        requires
            old(self).pc < old(self).code.code@.len(),
        ensures
            same_but_pc(*old(self), *final(self)),
            jumps_to(*old(self).code, old(self).pc, target16(old(self).code.code@[old(self).pc as int].0, offset),
                offset as i32, final(self).pc, res),
    {
        let address = self.code.get_address_at_index(self.pc);
        let t16: i64 = ((address % 65536) as i64 + offset as i64 + 65536) % 65536;
        self.jump(t16 as u32, offset as i32)
    }

    /// Jumps by a 32-bit offset from the current instruction.
    pub fn branch_32(&mut self, offset: i32) -> (res: Result<ExecutionResult, JVMError>)
        requires
            old(self).pc < old(self).code.code@.len(),
        ensures
            same_but_pc(*old(self), *final(self)),
            jumps_to(*old(self).code, old(self).pc, target32(old(self).code.code@[old(self).pc as int].0, offset),
                offset, final(self).pc, res),
    {
        let address = self.code.get_address_at_index(self.pc);
        let t32: i64 = (address as i64 + offset as i64 + 0x1_0000_0000) % 0x1_0000_0000;
        self.jump(t32 as u32, offset)
    }

    /// Pops an `int` and jumps when it compares to zero as `c` asks.
    fn if_zero(&mut self, c: Relation, offset: i16) -> (res: Result<ExecutionResult, JVMError>)
        requires
            old(self).pc < old(self).code.code@.len(),
        ensures
            cond_branch_result(*old(self), *final(self), 1, seq![Tag::Int],
                zero_test(c), offset, res),
    {
        proof {
            reveal_with_fuel(crate::runtime::pop_many, 2);
        }
        self.ensure_operands(1)?;
        let value = self.pop_expect_int()?;
        assert(rest(old(self).operands@, 1) =~= self.operands@);
        let taken = match c {
            Relation::Eq => value == 0,
            Relation::Ne => value != 0,
            Relation::Lt => value < 0,
            Relation::Ge => value >= 0,
            Relation::Gt => value > 0,
            Relation::Le => value <= 0,
        };
        if taken {
            self.branch_16(offset)?;
        }
        Ok(ExecutionResult::Continue)
    }

    /// Pops two `int`s and jumps when the first pushed compares to the second
    /// as `c` asks.
    fn if_int_pair(&mut self, c: Relation, offset: i16) -> (res: Result<ExecutionResult, JVMError>)
        requires
            old(self).pc < old(self).code.code@.len(),
        ensures
            cond_branch_result(*old(self), *final(self), 2, seq![Tag::Int, Tag::Int],
                pair_test(c), offset, res),
    {
        proof {
            reveal_with_fuel(crate::runtime::pop_many, 3);
        }
        self.ensure_operands(2)?;
        let value2 = self.pop_expect_int()?;
        let value1 = self.pop_expect_int()?;
        assert(rest(old(self).operands@, 2) =~= self.operands@);
        let taken = match c {
            Relation::Eq => value1 == value2,
            Relation::Ne => value1 != value2,
            Relation::Lt => value1 < value2,
            Relation::Ge => value1 >= value2,
            Relation::Gt => value1 > value2,
            Relation::Le => value1 <= value2,
        };
        if taken {
            self.branch_16(offset)?;
        }
        Ok(ExecutionResult::Continue)
    }

    /// `ifeq`.
    pub fn ifeq(&mut self, offset: i16) -> (res: Result<ExecutionResult, JVMError>)
        requires
            old(self).pc < old(self).code.code@.len(),
        ensures
            cond_branch_result(*old(self), *final(self), 1, seq![Tag::Int],
                zero_test(Relation::Eq), offset, res),
    {
        self.if_zero(Relation::Eq, offset)
    }

    /// `ifne`.
    pub fn ifne(&mut self, offset: i16) -> (res: Result<ExecutionResult, JVMError>)
        requires
            old(self).pc < old(self).code.code@.len(),
        ensures
            cond_branch_result(*old(self), *final(self), 1, seq![Tag::Int],
                zero_test(Relation::Ne), offset, res),
    {
        self.if_zero(Relation::Ne, offset)
    }

    /// `iflt`.
    pub fn iflt(&mut self, offset: i16) -> (res: Result<ExecutionResult, JVMError>)
        requires
            old(self).pc < old(self).code.code@.len(),
        ensures
            cond_branch_result(*old(self), *final(self), 1, seq![Tag::Int],
                zero_test(Relation::Lt), offset, res),
    {
        self.if_zero(Relation::Lt, offset)
    }

    /// `ifge`.
    pub fn ifge(&mut self, offset: i16) -> (res: Result<ExecutionResult, JVMError>)
        requires
            old(self).pc < old(self).code.code@.len(),
        ensures
            cond_branch_result(*old(self), *final(self), 1, seq![Tag::Int],
                zero_test(Relation::Ge), offset, res),
    {
        self.if_zero(Relation::Ge, offset)
    }

    /// `ifgt`.
    pub fn ifgt(&mut self, offset: i16) -> (res: Result<ExecutionResult, JVMError>)
        requires
            old(self).pc < old(self).code.code@.len(),
        ensures
            cond_branch_result(*old(self), *final(self), 1, seq![Tag::Int],
                zero_test(Relation::Gt), offset, res),
    {
        self.if_zero(Relation::Gt, offset)
    }

    /// `ifle`.
    pub fn ifle(&mut self, offset: i16) -> (res: Result<ExecutionResult, JVMError>)
        requires
            old(self).pc < old(self).code.code@.len(),
        ensures
            cond_branch_result(*old(self), *final(self), 1, seq![Tag::Int],
                zero_test(Relation::Le), offset, res),
    {
        self.if_zero(Relation::Le, offset)
    }

    /// `if_icmpeq`.
    pub fn if_icmpeq(&mut self, offset: i16) -> (res: Result<ExecutionResult, JVMError>)
        requires
            old(self).pc < old(self).code.code@.len(),
        ensures
            cond_branch_result(*old(self), *final(self), 2, seq![Tag::Int, Tag::Int],
                pair_test(Relation::Eq), offset, res),
    {
        self.if_int_pair(Relation::Eq, offset)
    }

    /// `if_icmpne`.
    pub fn if_icmpne(&mut self, offset: i16) -> (res: Result<ExecutionResult, JVMError>)
        requires
            old(self).pc < old(self).code.code@.len(),
        ensures
            cond_branch_result(*old(self), *final(self), 2, seq![Tag::Int, Tag::Int],
                pair_test(Relation::Ne), offset, res),
    {
        self.if_int_pair(Relation::Ne, offset)
    }

    /// `if_icmplt`.
    pub fn if_icmplt(&mut self, offset: i16) -> (res: Result<ExecutionResult, JVMError>)
        requires
            old(self).pc < old(self).code.code@.len(),
        ensures
            cond_branch_result(*old(self), *final(self), 2, seq![Tag::Int, Tag::Int],
                pair_test(Relation::Lt), offset, res),
    {
        self.if_int_pair(Relation::Lt, offset)
    }

    /// `if_icmpge`.
    pub fn if_icmpge(&mut self, offset: i16) -> (res: Result<ExecutionResult, JVMError>)
        requires
            old(self).pc < old(self).code.code@.len(),
        ensures
            cond_branch_result(*old(self), *final(self), 2, seq![Tag::Int, Tag::Int],
                pair_test(Relation::Ge), offset, res),
    {
        self.if_int_pair(Relation::Ge, offset)
    }

    /// `if_icmpgt`.
    pub fn if_icmpgt(&mut self, offset: i16) -> (res: Result<ExecutionResult, JVMError>)
        requires
            old(self).pc < old(self).code.code@.len(),
        ensures
            cond_branch_result(*old(self), *final(self), 2, seq![Tag::Int, Tag::Int],
                pair_test(Relation::Gt), offset, res),
    {
        self.if_int_pair(Relation::Gt, offset)
    }

    /// `if_icmple`.
    pub fn if_icmple(&mut self, offset: i16) -> (res: Result<ExecutionResult, JVMError>)
        requires
            old(self).pc < old(self).code.code@.len(),
        ensures
            cond_branch_result(*old(self), *final(self), 2, seq![Tag::Int, Tag::Int],
                pair_test(Relation::Le), offset, res),
    {
        self.if_int_pair(Relation::Le, offset)
    }

    /// Pops a reference and jumps when its nullness is `when_null`.
    fn if_null_check(&mut self, when_null: bool, offset: i16) -> (res: Result<ExecutionResult, JVMError>)
        requires
            old(self).pc < old(self).code.code@.len(),
        ensures
            cond_branch_result(*old(self), *final(self), 1, seq![Tag::Reference],
                null_test(when_null), offset, res),
    {
        proof {
            reveal_with_fuel(crate::runtime::pop_many, 2);
        }
        self.ensure_operands(1)?;
        let reference = self.pop_expect_reference()?;
        assert(rest(old(self).operands@, 1) =~= self.operands@);
        if reference.is_none() == when_null {
            self.branch_16(offset)?;
        }
        Ok(ExecutionResult::Continue)
    }

    /// `ifnull`.
    pub fn ifnull(&mut self, offset: i16) -> (res: Result<ExecutionResult, JVMError>)
        requires
            old(self).pc < old(self).code.code@.len(),
        ensures
            cond_branch_result(*old(self), *final(self), 1, seq![Tag::Reference],
                null_test(true), offset, res),
    {
        self.if_null_check(true, offset)
    }

    /// `ifnonnull`.
    pub fn ifnonnull(&mut self, offset: i16) -> (res: Result<ExecutionResult, JVMError>)
        requires
            old(self).pc < old(self).code.code@.len(),
        ensures
            cond_branch_result(*old(self), *final(self), 1, seq![Tag::Reference],
                null_test(false), offset, res),
    {
        self.if_null_check(false, offset)
    }

    /// Pops two references and jumps when they are the same reference
    /// (both null, or to the same object) and `same` holds, or when they
    /// differ and `same` does not.
    fn if_acmp(&mut self, same: bool, offset: i16) -> (res: Result<ExecutionResult, JVMError>)
        requires
            old(self).pc < old(self).code.code@.len(),
        ensures
            cond_branch_result(*old(self), *final(self), 2, seq![Tag::Reference, Tag::Reference],
                same_ref_test(same), offset, res),
    {
        proof {
            reveal_with_fuel(crate::runtime::pop_many, 3);
        }
        self.ensure_operands(2)?;
        let ref2 = self.pop_expect_reference()?;
        let ref1 = self.pop_expect_reference()?;
        assert(rest(old(self).operands@, 2) =~= self.operands@);
        let equal = match (ref1, ref2) {
            (None, None) => true,
            (Some(a), Some(b)) => a == b,
            _ => false,
        };
        if equal == same {
            self.branch_16(offset)?;
        }
        Ok(ExecutionResult::Continue)
    }

    /// `if_acmpeq`: jumps when the two references are the same.
    pub fn if_acmpeq(&mut self, offset: i16) -> (res: Result<ExecutionResult, JVMError>)
        requires
            old(self).pc < old(self).code.code@.len(),
        ensures
            cond_branch_result(*old(self), *final(self), 2, seq![Tag::Reference, Tag::Reference],
                same_ref_test(true), offset, res),
    {
        self.if_acmp(true, offset)
    }

    /// `if_acmpne`: jumps when the two references differ.
    pub fn if_acmpne(&mut self, offset: i16) -> (res: Result<ExecutionResult, JVMError>)
        requires
            old(self).pc < old(self).code.code@.len(),
        ensures
            cond_branch_result(*old(self), *final(self), 2, seq![Tag::Reference, Tag::Reference],
                same_ref_test(false), offset, res),
    {
        self.if_acmp(false, offset)
    }

    /// `lookupswitch`: jumps by the offset of the first pair whose key is the
    /// popped `int`, or by `default_offset`.
    pub fn lookup_switch(&mut self, default_offset: i32, pairs: &Vec<(i32, i32)>) -> (res: Result<ExecutionResult, JVMError>)
        requires
            old(self).pc < old(self).code.code@.len(),
        ensures
            switch_result(*old(self), *final(self), lookup_offsets(pairs@, default_offset), res),
    {
        proof {
            reveal_with_fuel(crate::runtime::pop_many, 2);
        }
        let key = self.pop_expect_int()?;
        assert(rest(old(self).operands@, 1) =~= self.operands@);
        let mut offset = default_offset;
        let mut found = false;
        let mut i: usize = 0;
        assert(pairs@.skip(0) =~= pairs@);
        while i < pairs.len() && !found
            invariant
                i <= pairs@.len(),
                found ==> offset == lookup_offset(pairs@, key, default_offset),
                !found ==> offset == default_offset,
                !found ==> lookup_offset(pairs@, key, default_offset) == lookup_offset(pairs@.skip(i as int), key, default_offset),
            decreases pairs@.len() - i + (if found { 0int } else { 1int }),
        {
            assert(pairs@.skip(i as int).drop_first() =~= pairs@.skip(i + 1));
            if pairs[i].0 == key {
                offset = pairs[i].1;
                found = true;
            } else {
                i = i + 1;
            }
        }
        proof {
            if !found {
                assert(pairs@.skip(i as int).len() == 0);
            }
        }
        assert(offset == lookup_offset(pairs@, key, default_offset));
        self.branch_32(offset)?;
        Ok(ExecutionResult::Continue)
    }

    /// `tableswitch`: jumps by the offset at `index - low` when the popped
    /// `index` lies in `low ..= high`, else by `default_offset`.
    pub fn table_switch(&mut self, default_offset: i32, low: i32, high: i32, jump_offsets: &Vec<i32>) -> (res: Result<ExecutionResult, JVMError>)
        requires
            old(self).pc < old(self).code.code@.len(),
            low <= high ==> high - low < jump_offsets@.len(),
        ensures
            switch_result(*old(self), *final(self), table_offsets(jump_offsets@, low, high, default_offset), res),
    {
        proof {
            reveal_with_fuel(crate::runtime::pop_many, 2);
        }
        let index = self.pop_expect_int()?;
        assert(rest(old(self).operands@, 1) =~= self.operands@);
        let offset = if index < low || index > high {
            default_offset
        } else {
            let table_index = (index as i64 - low as i64) as usize;
            jump_offsets[table_index]
        };
        self.branch_32(offset)?;
        Ok(ExecutionResult::Continue)
    }
}

} // verus!
