//! The decoded form of a class file.

use vstd::prelude::*;
use crate::access_flag::ClassFlags;
use crate::attribute::AttributeInfo;
use crate::class_version::ClassVersion;
use crate::constant_pool::{spec_class_name, spec_entry, ConstantInfo, ConstantPool, FieldInfo, MethodInfo};

verus! {

/// A parsed class file.
#[derive(Debug)]
pub struct ClassFile {
    pub magic: u32,
    pub version: ClassVersion,
    pub constant_pool: ConstantPool,
    pub access_flags: ClassFlags,
    pub this_class: u16,
    pub super_class: u16,
    pub interfaces: Vec<u16>,
    pub fields: Vec<FieldInfo>,
    pub methods: Vec<MethodInfo>,
    pub attributes: Vec<AttributeInfo>,
}

/// The names of the `Class` entries that `indices` name, when all of them
/// name a class with a `Utf8` name.
pub open spec fn spec_class_names(pool: Seq<ConstantInfo>, indices: Seq<u16>) -> Option<Seq<Seq<char>>>
    decreases indices.len(),
{
    if indices.len() == 0 {
        Some(Seq::empty())
    } else {
        match (spec_class_names(pool, indices.drop_last()), spec_class_name(pool, indices.last())) {
            (Some(names), Some(n)) => Some(names.push(n)),
            _ => None,
        }
    }
}

impl ClassFile {
    /// The constant pool entry at `index`.
    pub fn get_constant_pool_entry(&self, index: u16) -> (res: Option<&ConstantInfo>)
        ensures
            match spec_entry(self.constant_pool.entries(), index) {
                Some(c) => res == Some(&c),
                None => res is None,
            },
    {
        self.constant_pool.get_entry(index)
    }

    /// The name of this class.
    pub fn get_class_name(&self) -> (res: &String)
        requires
            spec_class_name(self.constant_pool.entries(), self.this_class) is Some,
        ensures
            Some(res@) == spec_class_name(self.constant_pool.entries(), self.this_class),
    {
        match self.constant_pool.get_underlying_string_from_constant_class_info_index(self.this_class) {
            Some(name) => name,
            None => {
                assert(false);
                unreached()
            },
        }
    }

    /// The name of the superclass; `None` when `super_class` names no class
    /// (index 0 for `java/lang/Object`).
    pub fn get_super_class_name(&self) -> (res: Option<&String>)
        ensures
            match spec_class_name(self.constant_pool.entries(), self.super_class) {
                Some(s) => res matches Some(r) && r@ == s,
                None => res is None,
            },
    {
        self.constant_pool.get_underlying_string_from_constant_class_info_index(self.super_class)
    }

    /// The names of the direct superinterfaces, in the order of the class
    /// file; `None` when one of the indices names no class.
    pub fn get_interfaces_name(&self) -> (res: Option<Vec<String>>)
        ensures
            match spec_class_names(self.constant_pool.entries(), self.interfaces@) {
                Some(names) => res matches Some(v) && v@.len() == names.len()
                    && forall|i: int| 0 <= i < names.len() ==> #[trigger] v@[i]@ == names[i],
                None => res is None,
            },
    {
        let mut names: Vec<String> = Vec::new();
        let mut i: usize = 0;
        while i < self.interfaces.len()
            invariant
                i <= self.interfaces@.len(),
                spec_class_names(self.constant_pool.entries(), self.interfaces@.take(i as int)) matches Some(ns)
                    && names@.len() == ns.len()
                    && forall|k: int| 0 <= k < ns.len() ==> #[trigger] names@[k]@ == ns[k],
            decreases self.interfaces@.len() - i,
        {
            assert(self.interfaces@.take(i + 1).drop_last() =~= self.interfaces@.take(i as int));
            match self.constant_pool.get_underlying_string_from_constant_class_info_index(self.interfaces[i]) {
                Some(name) => {
                    names.push(name.clone());
                },
                None => {
                    proof { lemma_class_names_prefix_none(self.constant_pool.entries(), self.interfaces@, i as int + 1); }
                    return None;
                },
            }
            i = i + 1;
        }
        assert(self.interfaces@.take(i as int) =~= self.interfaces@);
        Some(names)
    }
}

/// A prefix of indices that fails to name classes makes the whole list fail.
pub proof fn lemma_class_names_prefix_none(pool: Seq<ConstantInfo>, indices: Seq<u16>, k: int)
    requires
        0 <= k <= indices.len(),
        spec_class_names(pool, indices.take(k)) is None,
    ensures
        spec_class_names(pool, indices) is None,
    decreases indices.len() - k,
{
    if k < indices.len() {
        assert(indices.take(k + 1).drop_last() =~= indices.take(k));
        lemma_class_names_prefix_none(pool, indices, k + 1);
    } else {
        assert(indices.take(k) =~= indices);
    }
}

} // verus!
