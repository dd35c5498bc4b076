//! A class after loading: its field layout, static values and methods.

use std::sync::Arc;
use vstd::prelude::*;
use crate::access_flag::{has_bits, ClassFlags, FieldFlags};
use crate::attribute::Code;
use crate::constant_pool::{
    spec_first_code, spec_utf8, ConstantInfo, ConstantNameAndTypeInfo, ConstantPool, FieldInfo, MethodInfo,
};
use crate::runtime::{arc_clone, Value};
use crate::text::str_eq;

verus! {

/// Where a class stands in its initialization.
#[derive(Debug, Clone, Copy, PartialEq, Eq, Structural)]
pub enum InitState {
    Uninitialized,
    InProgress,
    Initialized,
}

/// A method's name and descriptor.
#[derive(Debug)]
pub struct NameDes {
    pub name: String,
    pub des: String,
}

impl Clone for NameDes {
    fn clone(&self) -> (res: Self)
        ensures
            res == *self,
    {
        NameDes { name: self.name.clone(), des: self.des.clone() }
    }
}

/// A field's name and descriptor, resolved from the constant pool.
#[derive(Debug)]
pub struct FieldSlot {
    pub name: String,
    pub descriptor: String,
}

/// The value that a field of descriptor `d` starts with; `None` for a
/// descriptor that names no type.
pub open spec fn spec_default_value(d: Seq<char>) -> Option<Value> {
    if d.len() == 1 && (d[0] == 'Z' || d[0] == 'B' || d[0] == 'C' || d[0] == 'S' || d[0] == 'I') {
        Some(Value::Int(0))
    } else if d.len() == 1 && d[0] == 'J' {
        Some(Value::Long(0))
    } else if d.len() == 1 && d[0] == 'F' {
        Some(Value::Float(0))
    } else if d.len() == 1 && d[0] == 'D' {
        Some(Value::Double(0))
    } else if d.len() > 0 && (d[0] == 'L' || d[0] == '[') {
        Some(Value::Reference(None))
    } else {
        None
    }
}

/// The value that a field of descriptor `descriptor` starts with.
pub fn default_value(descriptor: &str) -> (res: Option<Value>)
    ensures
        res == spec_default_value(descriptor@),
{
    let n = descriptor.unicode_len();
    if n == 0 {
        return None;
    }
    let c = descriptor.get_char(0);
    if n == 1 && (c == 'Z' || c == 'B' || c == 'C' || c == 'S' || c == 'I') {
        Some(Value::Int(0))
    } else if n == 1 && c == 'J' {
        Some(Value::Long(0))
    } else if n == 1 && c == 'F' {
        Some(Value::Float(0))
    } else if n == 1 && c == 'D' {
        Some(Value::Double(0))
    } else if c == 'L' || c == '[' {
        Some(Value::Reference(None))
    } else {
        None
    }
}

/// Whether a field is static.
pub open spec fn is_static_field(f: FieldInfo) -> bool {
    has_bits(f.access_flags.bits, 0x0008)
}

/// The fields of `fields` that satisfy `static_` (static or instance), in order.
pub open spec fn spec_select(fields: Seq<FieldInfo>, static_: bool) -> Seq<FieldInfo>
    decreases fields.len(),
{
    if fields.len() == 0 {
        Seq::empty()
    } else {
        let rest = spec_select(fields.drop_last(), static_);
        if is_static_field(fields.last()) == static_ { rest.push(fields.last()) } else { rest }
    }
}

/// Whether field `f` can be laid out: an instance field's name and
/// descriptor name `Utf8` entries; a static field's descriptor names a
/// `Utf8` entry that names a type, for its starting value.
pub open spec fn field_ok(f: FieldInfo, cp: Seq<ConstantInfo>) -> bool {
    if is_static_field(f) {
        spec_utf8(cp, f.descriptor_index) matches Some(d) && spec_default_value(d) is Some
    } else {
        spec_utf8(cp, f.name_index) is Some && spec_utf8(cp, f.descriptor_index) is Some
    }
}

/// Whether every field can be laid out.
pub open spec fn fields_resolvable(fields: Seq<FieldInfo>, cp: Seq<ConstantInfo>) -> bool {
    forall|i: int| 0 <= i < fields.len() ==> field_ok(#[trigger] fields[i], cp)
}

/// Whether every field's name and descriptor name `Utf8` entries.
pub open spec fn fields_named(fields: Seq<FieldInfo>, cp: Seq<ConstantInfo>) -> bool {
    forall|i: int| 0 <= i < fields.len() ==> spec_utf8(cp, (#[trigger] fields[i]).name_index) is Some
        && spec_utf8(cp, fields[i].descriptor_index) is Some
}

/// The fields of `fields` whose name names a `Utf8` entry, in order.
pub open spec fn spec_named(fields: Seq<FieldInfo>, cp: Seq<ConstantInfo>) -> Seq<FieldInfo>
    decreases fields.len(),
{
    if fields.len() == 0 {
        Seq::empty()
    } else {
        let rest = spec_named(fields.drop_last(), cp);
        if spec_utf8(cp, fields.last().name_index) is Some { rest.push(fields.last()) } else { rest }
    }
}

/// The named fields are fields of `fields`, each with a name.
pub proof fn lemma_named(fields: Seq<FieldInfo>, cp: Seq<ConstantInfo>)
    ensures
        forall|i: int| 0 <= i < spec_named(fields, cp).len() ==> fields.contains(#[trigger] spec_named(fields, cp)[i])
            && spec_utf8(cp, spec_named(fields, cp)[i].name_index) is Some,
    decreases fields.len(),
{
    if fields.len() > 0 {
        lemma_named(fields.drop_last(), cp);
        let rest = spec_named(fields.drop_last(), cp);
        assert forall|i: int| 0 <= i < spec_named(fields, cp).len() implies fields.contains(#[trigger] spec_named(fields, cp)[i])
            && spec_utf8(cp, spec_named(fields, cp)[i].name_index) is Some by {
            if i < rest.len() {
                let k = choose|k: int| 0 <= k < fields.drop_last().len() && fields.drop_last()[k] == rest[i];
                assert(fields[k] == rest[i]);
            } else {
                assert(fields[fields.len() - 1] == fields.last());
            }
        }
    }
}

/// Whether `slots` are the resolved names and descriptors of `fields`.
pub open spec fn slots_resolve(slots: Seq<FieldSlot>, fields: Seq<FieldInfo>, cp: Seq<ConstantInfo>) -> bool {
    &&& slots.len() == fields.len()
    &&& forall|i: int| 0 <= i < fields.len() ==> {
        &&& spec_utf8(cp, (#[trigger] fields[i]).name_index) == Some(slots[i].name@)
        &&& spec_utf8(cp, fields[i].descriptor_index) == Some(slots[i].descriptor@)
    }
}

/// The last position whose slot is named `name`.
pub open spec fn spec_last_named(slots: Seq<FieldSlot>, name: Seq<char>) -> Option<int>
    decreases slots.len(),
{
    if slots.len() == 0 {
        None
    } else if slots.last().name@ == name {
        Some(slots.len() - 1)
    } else {
        spec_last_named(slots.drop_last(), name)
    }
}

/// The position that `spec_last_named` gives lies within the slots.
pub proof fn lemma_last_named_bound(slots: Seq<FieldSlot>, name: Seq<char>)
    ensures
        spec_last_named(slots, name) matches Some(j) ==> 0 <= j < slots.len(),
    decreases slots.len(),
{
    if slots.len() > 0 {
        lemma_last_named_bound(slots.drop_last(), name);
    }
}

/// A loaded class. The superclass and interfaces are positions in the
/// class loader's table.
#[derive(Debug)]
pub struct LoadedClass {
    pub class_name: String,
    pub super_class: Option<usize>,
    pub interfaces: Vec<usize>,
    /// All instance fields, those of the superclasses first.
    pub instance_fields: Vec<FieldSlot>,
    /// The static fields that this class declares.
    pub static_fields: Vec<FieldSlot>,
    pub static_values: Vec<Value>,
    pub methods: Vec<MethodInfo>,
    pub constant_pool: Arc<ConstantPool>,
    pub access_flags: ClassFlags,
    pub init_state: InitState,
}

/// The last position of `slots` named `name`.
pub fn last_named(slots: &Vec<FieldSlot>, name: &str) -> (res: Option<usize>)
    ensures
        match spec_last_named(slots@, name@) {
            Some(i) => 0 <= i < slots@.len() && (res matches Some(r) && r == i),
            None => res is None,
        },
{
    let mut k = slots.len();
    assert(slots@.take(k as int) =~= slots@);
    proof { lemma_last_named_bound(slots@, name@); }
    while k > 0
        invariant
            k <= slots@.len(),
            spec_last_named(slots@, name@) == spec_last_named(slots@.take(k as int), name@),
            spec_last_named(slots@.take(k as int), name@) matches Some(j) ==> 0 <= j < k,
        decreases k,
    {
        assert(slots@.take(k as int).drop_last() =~= slots@.take(k - 1));
        proof { lemma_last_named_bound(slots@.take(k - 1), name@); }
        if str_eq(slots[k - 1].name.as_str(), name) {
            return Some(k - 1);
        }
        k = k - 1;
    }
    None
}

/// Resolves the name and descriptor of each field.
fn resolve_slots(fields: &Vec<FieldInfo>, cp: &ConstantPool) -> (res: Vec<FieldSlot>)
    requires
        fields_named(fields@, cp.entries()),
    ensures
        slots_resolve(res@, fields@, cp.entries()),
{
    let mut slots: Vec<FieldSlot> = Vec::new();
    let mut i: usize = 0;
    while i < fields.len()
        invariant
            i <= fields@.len(),
            fields_named(fields@, cp.entries()),
            slots_resolve(slots@, fields@.take(i as int), cp.entries()),
        decreases fields@.len() - i,
    {
        let f = &fields[i];
        assert(fields@.take(i + 1)[i as int] == fields@[i as int]);
        let name = match cp.get_underlying_string_from_utf8_index(f.name_index) {
            Some(n) => n.clone(),
            None => {
                assert(false);
                unreached()
            },
        };
        let descriptor = match cp.get_underlying_string_from_utf8_index(f.descriptor_index) {
            Some(d) => d.clone(),
            None => {
                assert(false);
                unreached()
            },
        };
        slots.push(FieldSlot { name, descriptor });
        i = i + 1;
        assert forall|j: int| 0 <= j < i implies {
            &&& spec_utf8(cp.entries(), (#[trigger] fields@.take(i as int)[j]).name_index) == Some(slots@[j].name@)
            &&& spec_utf8(cp.entries(), fields@.take(i as int)[j].descriptor_index) == Some(slots@[j].descriptor@)
        } by {
            if j < i - 1 {
                assert(fields@.take(i as int)[j] == fields@.take(i - 1)[j]);
            }
        }
    }
    assert(fields@.take(i as int) =~= fields@);
    slots
}

/// Resolves the name and descriptor of each field whose name names a
/// `Utf8` entry; the others are left out.
fn resolve_named_slots(fields: &Vec<FieldInfo>, cp: &ConstantPool) -> (res: Vec<FieldSlot>)
    requires
        forall|i: int| 0 <= i < fields@.len() ==> spec_utf8(cp.entries(), (#[trigger] fields@[i]).descriptor_index) is Some,
    ensures
        slots_resolve(res@, spec_named(fields@, cp.entries()), cp.entries()),
{
    let ghost e = cp.entries();
    let mut slots: Vec<FieldSlot> = Vec::new();
    let mut i: usize = 0;
    while i < fields.len()
        invariant
            i <= fields@.len(),
            e == cp.entries(),
            forall|i: int| 0 <= i < fields@.len() ==> spec_utf8(e, (#[trigger] fields@[i]).descriptor_index) is Some,
            slots_resolve(slots@, spec_named(fields@.take(i as int), e), e),
        decreases fields@.len() - i,
    {
        let f = &fields[i];
        let ghost before = slots@;
        assert(fields@.take(i + 1).drop_last() =~= fields@.take(i as int));
        assert(fields@.take(i + 1).last() == fields@[i as int]);
        match cp.get_underlying_string_from_utf8_index(f.name_index) {
            Some(n) => {
                let name = n.clone();
                let descriptor = match cp.get_underlying_string_from_utf8_index(f.descriptor_index) {
                    Some(d) => d.clone(),
                    None => {
                        assert(false);
                        unreached()
                    },
                };
                slots.push(FieldSlot { name, descriptor });
                proof {
                    let sn = spec_named(fields@.take(i + 1), e);
                    assert(sn == spec_named(fields@.take(i as int), e).push(fields@[i as int]));
                    assert forall|j: int| 0 <= j < sn.len() implies {
                        &&& spec_utf8(e, (#[trigger] sn[j]).name_index) == Some(slots@[j].name@)
                        &&& spec_utf8(e, sn[j].descriptor_index) == Some(slots@[j].descriptor@)
                    } by {
                        if j < sn.len() - 1 {
                            assert(slots@[j] == before[j]);
                        }
                    }
                }
            },
            None => {
                assert(spec_named(fields@.take(i + 1), e) == spec_named(fields@.take(i as int), e));
            },
        }
        i = i + 1;
    }
    assert(fields@.take(i as int) =~= fields@);
    slots
}

/// Splits fields into instance and static ones, keeping their order.
fn partition_fields(fields: Vec<FieldInfo>) -> (res: (Vec<FieldInfo>, Vec<FieldInfo>))
    ensures
        res.0@ == spec_select(fields@, false),
        res.1@ == spec_select(fields@, true),
{
    let mut instance: Vec<FieldInfo> = Vec::new();
    let mut statics: Vec<FieldInfo> = Vec::new();
    let ghost all = fields@;
    let mut rest = fields;
    assert(all.len() == rest.len());
    let mut taken: usize = 0;
    while rest.len() > 0
        invariant
            taken <= all.len(),
            all.len() <= usize::MAX,
            rest@ =~= all.skip(taken as int),
            instance@ == spec_select(all.take(taken as int), false),
            statics@ == spec_select(all.take(taken as int), true),
        decreases rest@.len(),
    {
        let f = rest.remove(0);
        proof {
            assert(f == all[taken as int]);
            assert(all.take(taken + 1).drop_last() =~= all.take(taken as int));
            assert(all.take(taken + 1).last() == f);
        }
        if f.access_flags.contains(FieldFlags::ACC_STATIC) {
            statics.push(f);
        } else {
            instance.push(f);
        }
        taken = taken + 1;
        assert(rest@ =~= all.skip(taken as int));
    }
    assert(all.take(taken as int) =~= all);
    (instance, statics)
}


impl Clone for FieldSlot {
    fn clone(&self) -> (res: Self)
        ensures
            res == *self,
    {
        FieldSlot { name: self.name.clone(), descriptor: self.descriptor.clone() }
    }
}

/// Whether two lists of slots have the same names and descriptors.
pub open spec fn slots_same(a: Seq<FieldSlot>, b: Seq<FieldSlot>) -> bool {
    &&& a.len() == b.len()
    &&& forall|i: int| 0 <= i < a.len() ==> (#[trigger] a[i]).name@ == b[i].name@ && a[i].descriptor@ == b[i].descriptor@
}

/// Whether `values` are the starting values of the fields `slots`.
pub open spec fn defaults_of(values: Seq<Value>, slots: Seq<FieldSlot>) -> bool {
    &&& values.len() == slots.len()
    &&& forall|i: int| 0 <= i < slots.len() ==> spec_default_value((#[trigger] slots[i]).descriptor@) == Some(values[i])
}

/// The starting values of the fields `slots`.
fn default_values(slots: &Vec<FieldSlot>) -> (res: Vec<Value>)
    requires
        forall|i: int| 0 <= i < slots@.len() ==> spec_default_value((#[trigger] slots@[i]).descriptor@) is Some,
    ensures
        defaults_of(res@, slots@),
{
    let mut values: Vec<Value> = Vec::new();
    let mut i: usize = 0;
    while i < slots.len()
        invariant
            i <= slots@.len(),
            forall|k: int| 0 <= k < slots@.len() ==> spec_default_value((#[trigger] slots@[k]).descriptor@) is Some,
            values@.len() == i,
            forall|k: int| 0 <= k < i ==> spec_default_value((#[trigger] slots@[k]).descriptor@) == Some(values@[k]),
        decreases slots@.len() - i,
    {
        match default_value(slots[i].descriptor.as_str()) {
            Some(v) => values.push(v),
            None => {
                assert(false);
            },
        }
        i = i + 1;
    }
    values
}

impl LoadedClass {
    /// Lays out a class: its instance fields follow those of its superclass,
    /// and its static fields start at the default value of their type. A
    /// static field whose name names no `Utf8` entry cannot be found by
    /// name and is left out.
    pub fn new(
        class_name: String,
        super_id: Option<usize>,
        super_class: Option<&LoadedClass>,
        interfaces: Vec<usize>,
        fields: Vec<FieldInfo>,
        methods: Vec<MethodInfo>,
        constant_pool: Arc<ConstantPool>,
        access_flags: ClassFlags,
    ) -> (res: LoadedClass)
        requires
            fields_resolvable(fields@, constant_pool.entries()),
        ensures
            res.class_name == class_name,
            res.super_class == super_id,
            res.interfaces == interfaces,
            res.methods == methods,
            res.constant_pool == constant_pool,
            res.access_flags == access_flags,
            res.init_state == InitState::Uninitialized,
            ({
                let inherited = match super_class { Some(sc) => sc.instance_fields@, None => Seq::empty() };
                &&& res.instance_fields@.len() == inherited.len() + spec_select(fields@, false).len()
                &&& slots_same(res.instance_fields@.take(inherited.len() as int), inherited)
                &&& slots_resolve(res.instance_fields@.skip(inherited.len() as int), spec_select(fields@, false),
                    constant_pool.entries())
            }),
            slots_resolve(res.static_fields@, spec_named(spec_select(fields@, true), constant_pool.entries()),
                constant_pool.entries()),
            defaults_of(res.static_values@, res.static_fields@),
    {
        let ghost all = fields@;
        let (instance_fields, static_fields) = partition_fields(fields);
        let ghost cpe = constant_pool.entries();
        proof {
            lemma_select_resolvable(all, false, cpe);
            lemma_select_resolvable(all, true, cpe);
            assert forall|i: int| 0 <= i < instance_fields@.len() implies spec_utf8(cpe, (#[trigger] instance_fields@[i]).name_index) is Some
                && spec_utf8(cpe, instance_fields@[i].descriptor_index) is Some by {
                assert(field_ok(instance_fields@[i], cpe));
            }
            assert forall|i: int| 0 <= i < static_fields@.len() implies spec_utf8(cpe, (#[trigger] static_fields@[i]).descriptor_index) is Some by {
                assert(field_ok(static_fields@[i], cpe));
            }
        }
        let static_slots = resolve_named_slots(&static_fields, &constant_pool);
        let own_slots = resolve_slots(&instance_fields, &constant_pool);
        let mut all_instance: Vec<FieldSlot> = Vec::new();
        match super_class {
            Some(sc) => {
                let mut i: usize = 0;
                while i < sc.instance_fields.len()
                    invariant
                        i <= sc.instance_fields@.len(),
                        slots_same(all_instance@, sc.instance_fields@.take(i as int)),
                    decreases sc.instance_fields@.len() - i,
                {
                    all_instance.push(sc.instance_fields[i].clone());
                    i = i + 1;
                }
                assert(sc.instance_fields@.take(i as int) =~= sc.instance_fields@);
            },
            None => {},
        }
        let ghost inherited_len = all_instance@.len();
        let ghost inherited = all_instance@;
        let mut j: usize = 0;
        while j < own_slots.len()
            invariant
                j <= own_slots@.len(),
                all_instance@.len() == inherited_len + j,
                all_instance@.take(inherited_len as int) == inherited,
                slots_same(all_instance@.skip(inherited_len as int), own_slots@.take(j as int)),
            decreases own_slots@.len() - j,
        {
            let ghost prev = all_instance@;
            all_instance.push(own_slots[j].clone());
            j = j + 1;
            assert(all_instance@.take(inherited_len as int) =~= inherited);
            assert forall|k: int| 0 <= k < j implies
                (#[trigger] all_instance@.skip(inherited_len as int)[k]).name@ == own_slots@.take(j as int)[k].name@
                && all_instance@.skip(inherited_len as int)[k].descriptor@ == own_slots@.take(j as int)[k].descriptor@
            by {
                if k < j - 1 {
                    assert(all_instance@.skip(inherited_len as int)[k] == prev.skip(inherited_len as int)[k]);
                    assert(own_slots@.take(j as int)[k] == own_slots@.take(j - 1)[k]);
                }
            }
        }
        assert(own_slots@.take(j as int) =~= own_slots@);
        proof {
            lemma_named(static_fields@, cpe);
        }
        assert forall|i: int| 0 <= i < static_slots@.len() implies
            spec_default_value((#[trigger] static_slots@[i]).descriptor@) is Some by {
            let f = spec_named(static_fields@, cpe)[i];
            assert(spec_utf8(cpe, f.descriptor_index) == Some(static_slots@[i].descriptor@));
            assert(static_fields@.contains(f));
            let k = choose|k: int| 0 <= k < static_fields@.len() && static_fields@[k] == f;
            assert(field_ok(static_fields@[k], cpe));
        }
        let static_values = default_values(&static_slots);
        LoadedClass {
            class_name,
            super_class: super_id,
            interfaces,
            instance_fields: all_instance,
            static_fields: static_slots,
            static_values,
            methods,
            constant_pool,
            access_flags,
            init_state: InitState::Uninitialized,
        }
    }
}

/// Selecting some of the fields keeps them resolvable.
pub proof fn lemma_select_resolvable(fields: Seq<FieldInfo>, static_: bool, cp: Seq<ConstantInfo>)
    requires
        fields_resolvable(fields, cp),
    ensures
        fields_resolvable(spec_select(fields, static_), cp),
        forall|i: int| 0 <= i < spec_select(fields, static_).len() ==>
            fields.contains(#[trigger] spec_select(fields, static_)[i]) && is_static_field(spec_select(fields, static_)[i]) == static_,
    decreases fields.len(),
{
    if fields.len() > 0 {
        lemma_select_resolvable(fields.drop_last(), static_, cp);
        assert(fields_resolvable(fields.drop_last(), cp)) by {
            assert forall|i: int| 0 <= i < fields.drop_last().len() implies field_ok(#[trigger] fields.drop_last()[i], cp) by {
                assert(fields.drop_last()[i] == fields[i]);
            }
        }
        let rest = spec_select(fields.drop_last(), static_);
        assert forall|i: int| 0 <= i < spec_select(fields, static_).len() implies
            fields.contains(#[trigger] spec_select(fields, static_)[i]) && is_static_field(spec_select(fields, static_)[i]) == static_ by {
            if i < rest.len() {
                let k = choose|k: int| 0 <= k < fields.drop_last().len() && fields.drop_last()[k] == rest[i];
                assert(fields[k] == rest[i]);
            } else {
                assert(fields[fields.len() - 1] == fields.last());
            }
        }
    }
}

/// Whether every method's name and descriptor name `Utf8` entries.
pub open spec fn methods_resolvable(methods: Seq<MethodInfo>, cp: Seq<ConstantInfo>) -> bool {
    forall|i: int| 0 <= i < methods.len() ==> {
        &&& spec_utf8(cp, (#[trigger] methods[i]).name_index) is Some
        &&& spec_utf8(cp, methods[i].descriptor_index) is Some
    }
}

/// Whether method `m` is named `name` with descriptor `des`.
pub open spec fn method_is(m: MethodInfo, cp: Seq<ConstantInfo>, name: Seq<char>, des: Seq<char>) -> bool {
    spec_utf8(cp, m.name_index) == Some(name) && spec_utf8(cp, m.descriptor_index) == Some(des)
}

/// The position of the first method named `name` with descriptor `des`.
pub open spec fn spec_find_method(methods: Seq<MethodInfo>, cp: Seq<ConstantInfo>, name: Seq<char>, des: Seq<char>) -> Option<int>
    decreases methods.len(),
{
    if methods.len() == 0 {
        None
    } else if method_is(methods[0], cp, name, des) {
        Some(0)
    } else {
        match spec_find_method(methods.drop_first(), cp, name, des) {
            Some(i) => Some(i + 1),
            None => None,
        }
    }
}

/// The position that `spec_find_method` gives lies within the methods.
pub proof fn lemma_find_method_bound(methods: Seq<MethodInfo>, cp: Seq<ConstantInfo>, name: Seq<char>, des: Seq<char>)
    ensures
        spec_find_method(methods, cp, name, des) matches Some(i) ==> 0 <= i < methods.len(),
    decreases methods.len(),
{
    if methods.len() > 0 {
        lemma_find_method_bound(methods.drop_first(), cp, name, des);
    }
}

/// The body of the first method named `name` with descriptor `des`, when
/// it has one.
pub open spec fn spec_code_of(methods: Seq<MethodInfo>, cp: Seq<ConstantInfo>, name: Seq<char>, des: Seq<char>) -> Option<Arc<Code>> {
    match spec_find_method(methods, cp, name, des) {
        Some(i) => spec_first_code(methods[i].attributes@),
        None => None,
    }
}

impl LoadedClass {
    /// The first method named and typed as `name_des`.
    pub fn get_method_info_from_name_and_descriptor(&self, name_des: &NameDes) -> (res: Option<&MethodInfo>)
        requires
            methods_resolvable(self.methods@, self.constant_pool.entries()),
        ensures
            match spec_find_method(self.methods@, self.constant_pool.entries(), name_des.name@, name_des.des@) {
                Some(i) => res == Some(&self.methods@[i]),
                None => res is None,
            },
    {
        let ghost cp = self.constant_pool.entries();
        let mut i: usize = 0;
        assert(self.methods@.skip(0) =~= self.methods@);
        while i < self.methods.len()
            invariant
                i <= self.methods@.len(),
                cp == self.constant_pool.entries(),
                methods_resolvable(self.methods@, cp),
                spec_find_method(self.methods@, cp, name_des.name@, name_des.des@) == match spec_find_method(
                    self.methods@.skip(i as int), cp, name_des.name@, name_des.des@) {
                    Some(k) => Some(k + i),
                    None => None,
                },
            decreases self.methods@.len() - i,
        {
            assert(self.methods@.skip(i as int).drop_first() =~= self.methods@.skip(i + 1));
            assert(self.methods@.skip(i as int)[0] == self.methods@[i as int]);
            let method = &self.methods[i];
            let name = method.get_name(&self.constant_pool);
            let des = method.get_des(&self.constant_pool);
            if str_eq(name.as_str(), name_des.name.as_str()) && str_eq(des.as_str(), name_des.des.as_str()) {
                return Some(method);
            }
            i = i + 1;
        }
        assert(self.methods@.skip(i as int).len() == 0);
        None
    }

    /// The body of the first method named and typed as `name_des`, when it
    /// has a `Code` attribute.
    pub fn get_code_from_method(&self, name_des: &NameDes) -> (res: Option<Arc<Code>>)
        requires
            methods_resolvable(self.methods@, self.constant_pool.entries()),
        ensures
            res == spec_code_of(self.methods@, self.constant_pool.entries(), name_des.name@, name_des.des@),
    {
        proof {
            lemma_find_method_bound(self.methods@, self.constant_pool.entries(), name_des.name@, name_des.des@);
        }
        match self.get_method_info_from_name_and_descriptor(name_des) {
            Some(method_info) => match method_info.get_code_attribute() {
                Some(code) => Some(arc_clone(code)),
                None => None,
            },
            None => None,
        }
    }
}

impl NameDes {
    /// The name and descriptor that a `NameAndType` entry names.
    pub fn new(argu: &ConstantNameAndTypeInfo, cp: &ConstantPool) -> (res: NameDes)
        requires
            spec_utf8(cp.entries(), argu.name_index) is Some,
            spec_utf8(cp.entries(), argu.descriptor_index) is Some,
        ensures
            Some(res.name@) == spec_utf8(cp.entries(), argu.name_index),
            Some(res.des@) == spec_utf8(cp.entries(), argu.descriptor_index),
    {
        let name = match cp.get_underlying_string_from_utf8_index(argu.name_index) {
            Some(n) => n.clone(),
            None => {
                assert(false);
                unreached()
            },
        };
        let des = match cp.get_underlying_string_from_utf8_index(argu.descriptor_index) {
            Some(d) => d.clone(),
            None => {
                assert(false);
                unreached()
            },
        };
        NameDes { name, des }
    }
}

} // verus!
