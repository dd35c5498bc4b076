//! Properties that relate several operations: what a read gives back of a
//! write, and how a call and its return fit together.

use vstd::prelude::*;
use crate::class_loader::{spec_find_class, static_owner, ClassLoader};
use crate::execute_field::{field_tag, getfield_result, putfield_outcome, putfield_result, spec_field_ref};
use crate::heap::Heap;
use crate::class_path::{lemma_split_nonempty, spec_split_path};
use crate::execute_locals::{load_result, store_result};
use crate::jvm_error::JVMError;
use crate::parse_des::{joined, lemma_scan_parts, spec_parse_descriptor};
use crate::loaded_class::{spec_last_named, LoadedClass};
use crate::object::{field_value, is_instance_with, Object, ObjectKind};
use crate::runtime::{tag_fits, ExecutionResult, Frame, Tag, Value};
use crate::vm::{completed, frames_after, others_same, Step, VM};

verus! {

/// Storing the top of the operand stack in a local and loading that local
/// again leaves the operand stack as it was, with the value kept in the
/// local.
pub proof fn law_store_then_load(f0: Frame, f1: Frame, f2: Frame, index: u8, t: Tag, r1: Result<ExecutionResult, JVMError>, r2: Result<ExecutionResult, JVMError>)
    requires
        t != Tag::Any,
        store_result(f0, f1, index, t, r1),
        r1 is Ok,
        load_result(f1, f2, index, t, r2),
        f0.operands@.len() <= f0.code.max_stack,
    ensures
        r2 matches Ok(ExecutionResult::Continue),
        f2.operands@ == f0.operands@,
        f2.locals@[index as int] == f0.operands@.last(),
        f2.locals@ == f0.locals@.update(index as int, f0.operands@.last()),
{
    assert(f0.operands@.drop_last().push(f0.operands@.last()) =~= f0.operands@);
}

/// Reading field `name` of an object after writing `value` to it gives
/// `value`; every field that lies elsewhere in the layout keeps its value.
pub proof fn law_field_write_then_read(old: Object, new: Object, class: LoadedClass, name: Seq<char>, value: Value, other: Seq<char>)
    requires
        old.kind matches ObjectKind::ClassInstance { fields } && spec_last_named(class.instance_fields@, name) matches Some(
            i,
        ) && 0 <= i < fields@.len() && is_instance_with(new, fields@.update(i, value)),
    ensures
        field_value(new, class, name) == Some(value),
        spec_last_named(class.instance_fields@, other) != spec_last_named(class.instance_fields@, name) ==> field_value(
            new,
            class,
            other,
        ) == field_value(old, class, other),
{
}

/// Whether object `o` of `heap` is an instance of a class that has the
/// field that the reference at `index` of `cp` names, holding `v` there.
pub open spec fn holds_field(cp: Seq<crate::constant_pool::ConstantInfo>, index: u16, heap: Heap, loader: ClassLoader, o: usize, v: Value) -> bool {
    match spec_field_ref(cp, index) {
        Ok((cn, name, _)) => o < heap.arena@.len() && match heap.arena@[o as int].class {
            Some(c) => c < loader.classes@.len() && crate::class_loader::chain_has(loader.classes@, c as nat, cn) && match heap.arena@[o as int].kind {
                ObjectKind::ClassInstance { fields } => match spec_last_named(loader.classes@[c as int].instance_fields@, name) {
                    Some(i) => i < fields@.len() && fields@[i] == v,
                    None => false,
                },
                _ => false,
            },
            None => false,
        },
        Err(_) => false,
    }
}

/// A `putfield` that succeeds leaves the value it popped in the field.
#[verifier::rlimit(40)]
proof fn lemma_putfield_holds(f0: Frame, f1: Frame, index: u16, h0: Heap, h1: Heap, loader: ClassLoader, o: usize,
    r1: Result<ExecutionResult, JVMError>)
    requires
        putfield_outcome(f0, f1, index, h0, h1, loader, r1),
        h1.arena@.len() == h0.arena@.len(),
        r1 is Ok,
        f0.operands@.len() >= 2,
        f0.operands@[f0.operands@.len() - 2] == Value::Reference(Some(o)),
    ensures
        holds_field(f0.constant_pool.entries(), index, h1, loader, o, f0.operands@.last()),
{
    reveal_with_fuel(crate::runtime::pop_many, 3);
    let ops = f0.operands@;
    assert(ops.drop_last().last() == ops[ops.len() - 2]);
    let cp = f0.constant_pool.entries();
    if let Ok((cn, name, des)) = spec_field_ref(cp, index) {
        if let Some(t) = field_tag(des) {
            if let Ok(vs) = crate::runtime::pop_many(ops, seq![t, Tag::Reference]) {
                assert(vs[0] == ops.last());
                assert(vs[1] == Value::Reference(Some(o)));
                assert(o < h0.arena@.len());
                if let Some(c) = h0.arena@[o as int].class {
                    assert(h1.arena@[o as int].class == Some(c));
                    crate::loaded_class::lemma_last_named_bound(loader.classes@[c as int].instance_fields@, name);
                    if let ObjectKind::ClassInstance { fields } = h0.arena@[o as int].kind {
                        if let Some(i) = spec_last_named(loader.classes@[c as int].instance_fields@, name) {
                            if 0 <= i < fields@.len() {
                                let nf = fields@.update(i, vs[0]);
                                assert(is_instance_with(h1.arena@[o as int], nf));
                                assert(nf[i] == ops.last());
                            }
                        }
                    }
                }
            }
        }
    }
}

/// `getfield` of a field that an object holds pushes the value held.
proof fn lemma_getfield_holds(f2: Frame, f3: Frame, index: u16, h: Heap, loader: ClassLoader, o: usize, v: Value,
    r2: Result<ExecutionResult, JVMError>)
    requires
        holds_field(f2.constant_pool.entries(), index, h, loader, o, v),
        f2.operands@.len() > 0,
        f2.operands@.last() == Value::Reference(Some(o)),
        f2.operands@.len() - 1 < f2.code.max_stack,
        getfield_result(f2, f3, index, h, loader, r2),
    ensures
        r2 is Ok,
        f3.operands@ == f2.operands@.drop_last().push(v),
{
}

/// `getfield` of a field reference right after `putfield` of the same
/// reference on the same object pushes the value that was written.
pub proof fn law_putfield_then_getfield(
    f0: Frame,
    f1: Frame,
    f2: Frame,
    f3: Frame,
    index: u16,
    h0: Heap,
    h1: Heap,
    loader: ClassLoader,
    o: usize,
    r1: Result<ExecutionResult, JVMError>,
    r2: Result<ExecutionResult, JVMError>,
)
    requires
        putfield_result(f0, f1, index, h0, h1, loader, r1),
        r1 is Ok,
        f0.operands@.len() >= 2,
        f0.operands@[f0.operands@.len() - 2] == Value::Reference(Some(o)),
        f2.constant_pool == f1.constant_pool,
        f2.operands@ == f1.operands@.push(Value::Reference(Some(o))),
        f1.operands@.len() < f2.code.max_stack,
        getfield_result(f2, f3, index, h1, loader, r2),
    ensures
        r2 is Ok,
        f3.operands@ == f1.operands@.push(f0.operands@.last()),
{
    lemma_putfield_holds(f0, f1, index, h0, h1, loader, o, r1);
    assert(f2.operands@.drop_last() =~= f1.operands@);
    lemma_getfield_holds(f2, f3, index, h1, loader, o, f0.operands@.last(), r2);
}

/// The class and position that `static_owner` gives depend on the static
/// field names and the superclasses alone.
pub proof fn lemma_static_owner_frame(a: Seq<LoadedClass>, b: Seq<LoadedClass>, i: nat, name: Seq<char>)
    requires
        a.len() == b.len(),
        forall|j: int| 0 <= j < a.len() ==> (#[trigger] a[j]).static_fields == b[j].static_fields && a[j].super_class
            == b[j].super_class,
    ensures
        static_owner(a, i, name) == static_owner(b, i, name),
    decreases i,
{
    if i < a.len() {
        assert(a[i as int].static_fields == b[i as int].static_fields);
        if let Some(s) = a[i as int].super_class {
            if s < i {
                lemma_static_owner_frame(a, b, s as nat, name);
            }
        }
    }
}

/// The class that `static_owner` gives is in the table.
pub proof fn lemma_static_owner_bound(classes: Seq<LoadedClass>, i: nat, name: Seq<char>)
    ensures
        static_owner(classes, i, name) matches Some((c, k)) ==> c < classes.len(),
    decreases i,
{
    if i < classes.len() {
        if let Some(s) = classes[i as int].super_class {
            if s < i {
                lemma_static_owner_bound(classes, s as nat, name);
            }
        }
    }
}

/// Reading static field `name` as class `class_id` sees it, after writing
/// `value` there, gives `value`; every static field that lies elsewhere
/// keeps its value, and every name keeps its owner.
pub proof fn law_static_write_then_read(
    old: Seq<LoadedClass>,
    new: Seq<LoadedClass>,
    class_id: nat,
    name: Seq<char>,
    value: Value,
    other_id: nat,
    other: Seq<char>,
)
    requires
        static_owner(old, class_id, name) matches Some((c, k)) && c < old.len() && k < old[c as int].static_values@.len() && new
            == old.update(c as int, LoadedClass { static_values: new[c as int].static_values, ..old[c as int] })
            && new[c as int].static_values@ == old[c as int].static_values@.update(k as int, value),
    ensures
        static_owner(new, class_id, name) == static_owner(old, class_id, name),
        static_owner(new, other_id, other) == static_owner(old, other_id, other),
        static_owner(new, class_id, name) matches Some((c, k)) && new[c as int].static_values@[k as int] == value,
        match static_owner(old, other_id, other) {
            Some((c2, k2)) => static_owner(old, class_id, name) != Some((c2, k2)) && c2 < old.len()
                && k2 < old[c2 as int].static_values@.len() ==> new[c2 as int].static_values@[k2 as int] == old[c2 as int].static_values@[k2 as int],
            None => true,
        },
{
    lemma_static_owner_bound(old, class_id, name);
    lemma_static_owner_frame(new, old, class_id, name);
    lemma_static_owner_frame(new, old, other_id, other);
}

/// A class that was just added to the table is the one found by its name.
pub proof fn law_define_then_find(old: Seq<LoadedClass>, new: Seq<LoadedClass>, name: Seq<char>)
    requires
        new.len() == old.len() + 1,
        new.take(old.len() as int) == old,
        new.last().class_name@ == name,
    ensures
        spec_find_class(new, name) == Some(old.len() as int),
        forall|other: Seq<char>| other != name ==> spec_find_class(new, other) == spec_find_class(old, other),
{
    assert(new.drop_last() =~= old);
}

/// A call followed at once by the return of a value from the called method
/// resumes the caller past its call instruction, with the value pushed on
/// its operands and the levels as they were before the call.
pub proof fn law_call_then_return(vm0: VM, vm1: VM, vm2: VM, vm3: VM, callee: Frame, value: Value, res: Result<Step, JVMError>)
    requires
        vm0.levels@.len() > 0,
        vm0.levels@.last() + 1 == vm0.stack.frames@.len(),
        completed(vm0, vm1, ExecutionResult::Invoke(callee), Ok(Step::Continue)),
        vm2.levels == vm1.levels,
        vm2.stack.max_stack_size == vm1.stack.max_stack_size,
        others_same(vm1.stack.frames@, vm2.stack.frames@, vm0.stack.frames@.len() as int),
        completed(vm2, vm3, ExecutionResult::Return(Some(value)), res),
        vm0.stack.frames@.last().operands@.len() < vm0.stack.frames@.last().code.max_stack,
        vm0.stack.frames@.last().pc < usize::MAX,
    ensures
        res matches Ok(Step::Continue),
        vm3.levels@ == vm0.levels@,
        frames_after(vm0.stack.frames@, vm3.stack.frames@, vm0.levels@.last() as int, Some(value), vm0.levels@.last() as int),
{
    let frames = vm0.stack.frames@;
    assert(vm2.stack.frames@.drop_last() =~= frames);
    assert(vm1.levels@.drop_last() =~= vm0.levels@);
}

/// The class path string that `parts` make when joined with `:`.
pub open spec fn spec_join_path(parts: Seq<Seq<char>>) -> Seq<char>
    decreases parts.len(),
{
    if parts.len() == 0 {
        Seq::empty()
    } else if parts.len() == 1 {
        parts[0]
    } else {
        spec_join_path(parts.drop_last()) + seq![':'] + parts.last()
    }
}

/// Joining the entries of a class path with `:` gives the class path back.
pub proof fn law_split_then_join(path: Seq<char>)
    ensures
        spec_join_path(spec_split_path(path)) == path,
    decreases path.len(),
{
    if path.len() > 0 {
        let prefix = path.drop_last();
        let c = path.last();
        law_split_then_join(prefix);
        lemma_split_nonempty(prefix);
        let rest = spec_split_path(prefix);
        if c == ':' {
            assert(rest.push(Seq::empty()).drop_last() =~= rest);
            assert(spec_join_path(rest) + seq![':'] + Seq::<char>::empty() =~= path);
        } else {
            let parts = rest.update(rest.len() - 1, rest.last().push(c));
            if rest.len() == 1 {
                assert(parts[0] =~= path);
            } else {
                assert(parts.drop_last() =~= rest.drop_last());
                assert(spec_join_path(rest.drop_last()) + seq![':'] + rest.last().push(c) =~= (spec_join_path(rest.drop_last())
                    + seq![':'] + rest.last()).push(c));
                assert(prefix.push(c) =~= path);
            }
        }
    }
}

/// A descriptor that `parse_descriptor` takes apart is `(`, its parameter
/// types written one after another, `)` and its one-character return
/// type; no parameter type is empty.
pub proof fn law_descriptor_parts(d: Seq<char>)
    ensures
        spec_parse_descriptor(d) matches Ok((args, r)) ==> {
            &&& d == seq!['('] + joined(args) + seq![')', r]
            &&& forall|k: int| 0 <= k < args.len() ==> (#[trigger] args[k]).len() > 0
        },
{
    if d.len() > 0 && d[0] == '(' {
        lemma_scan_parts(d, 1, Seq::empty());
        if let Ok((args, r)) = spec_parse_descriptor(d) {
            assert(joined(Seq::<Seq<char>>::empty()) =~= Seq::<char>::empty());
            assert(Seq::<char>::empty() + d.subrange(1, d.len() as int) =~= d.subrange(1, d.len() as int));
            assert(d =~= seq!['('] + d.subrange(1, d.len() as int));
        }
    }
}

/// A class found by its name stays found at the same position whatever is
/// loaded afterwards: loading keeps the classes loaded before and the names
/// of the table distinct, so `begin_load` of that name answers `Done` with
/// the same position at once, without asking for a file.
pub proof fn law_loaded_class_found_again(before: Seq<LoadedClass>, after: Seq<LoadedClass>, name: Seq<char>, i: int)
    requires
        spec_find_class(before, name) == Some(i),
        after.len() >= before.len(),
        after.take(before.len() as int) == before,
        crate::class_loader::names_distinct(after),
    ensures
        spec_find_class(after, name) == Some(i),
{
    crate::class_loader::lemma_find_class_bound(before, name);
    assert(after[i] == after.take(before.len() as int)[i]);
    crate::class_loader::lemma_find_class_unique(after, name, i);
}

/// The padding after the opcode of a `tableswitch` or `lookupswitch` at
/// `address` is at most three bytes and brings its operands to an address
/// that is a multiple of four; `parse_instruction` counts it in the bytes
/// it reads.
pub proof fn law_switch_padding(address: int)
    requires
        address >= 0,
    ensures
        0 <= crate::class_format::switch_padding(address) <= 3,
        (address + 1 + crate::class_format::switch_padding(address)) % 4 == 0,
{
    let r = (address + 1) % 4;
    assert(0 <= r < 4);
    assert((address + 1) == 4 * ((address + 1) / 4) + r);
    if r == 0 {
        assert(crate::class_format::switch_padding(address) == 0);
    } else {
        assert(crate::class_format::switch_padding(address) == 4 - r);
        assert(address + 1 + (4 - r) == 4 * ((address + 1) / 4 + 1));
    }
}

} // verus!
