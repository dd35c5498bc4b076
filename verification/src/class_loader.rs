//! The table of loaded classes: the decisions of class loading, static
//! fields, and the questions asked of the class hierarchy.
//!
//! Classes are kept in the order they were defined; a superclass or an
//! interface is always defined before the classes that name it, so every
//! walk up the hierarchy goes to smaller positions and ends.

use std::sync::Arc;
use vstd::prelude::*;
use crate::access_flag::{has_bits, ClassFlags, FieldFlags};
use crate::attribute::Code;
use crate::class_file::ClassFile;
use crate::jvm_error::JVMError;
use crate::loaded_class::{
    fields_resolvable, methods_resolvable, spec_code_of, spec_last_named, InitState, LoadedClass, NameDes,
};
use crate::object::slots_typed;
use crate::runtime::Value;
use crate::text::{concat, str_eq};

verus! {

/// Why a class could not be loaded.
#[derive(Debug)]
pub enum ClassLoadingError {
    LinkageError(String),
    VerifyError(String),
    ClassFormatError(String),
    UnsupportedClassVersionError(String),
    NoClassDefFoundError(String),
    IncompatibleClassChangeError(String),
    ClassCircularityError(String),
    IllegalAccessError(String),
    NoSuchFieldError(String),
    NoSuchMethodError(String),
    InstantiationError(String),
    AbstractMethodError(String),
    ClassNotFoundException(String),
    SecurityException(String),
    OutOfMemoryError(String),
    IoError(String),
    ParseError(String),
    InvalidJarFile(String),
    NetworkError(String),
    Other(String),
}

/// What a class in the table must satisfy at position `i`.
pub open spec fn class_wf(c: LoadedClass, i: int) -> bool {
    &&& c.super_class matches Some(s) ==> s < i
    &&& forall|k: int| 0 <= k < c.interfaces@.len() ==> #[trigger] c.interfaces@[k] < i
    &&& c.static_values@.len() == c.static_fields@.len()
    &&& methods_resolvable(c.methods@, c.constant_pool.entries())
}

/// The position of the last class named `name`.
pub open spec fn spec_find_class(classes: Seq<LoadedClass>, name: Seq<char>) -> Option<int>
    decreases classes.len(),
{
    if classes.len() == 0 {
        None
    } else if classes.last().class_name@ == name {
        Some(classes.len() - 1)
    } else {
        spec_find_class(classes.drop_last(), name)
    }
}

/// The position that `spec_find_class` gives lies within the table, and
/// the class there has the name looked for.
pub proof fn lemma_find_class_bound(classes: Seq<LoadedClass>, name: Seq<char>)
    ensures
        spec_find_class(classes, name) matches Some(i) ==> 0 <= i < classes.len() && classes[i].class_name@ == name,
    decreases classes.len(),
{
    if classes.len() > 0 {
        lemma_find_class_bound(classes.drop_last(), name);
    }
}

/// Whether no two classes have the same name.
pub open spec fn names_distinct(classes: Seq<LoadedClass>) -> bool {
    forall|a: int, b: int| 0 <= a < b < classes.len() ==> #[trigger] classes[a].class_name@ != #[trigger] classes[b].class_name@
}

/// A name that `spec_find_class` does not find is the name of no class.
pub proof fn lemma_find_class_none(classes: Seq<LoadedClass>, name: Seq<char>)
    ensures
        spec_find_class(classes, name) is None ==> forall|k: int| 0 <= k < classes.len() ==> (#[trigger] classes[k]).class_name@
            != name,
    decreases classes.len(),
{
    if classes.len() > 0 {
        lemma_find_class_none(classes.drop_last(), name);
        if spec_find_class(classes, name) is None {
            assert forall|k: int| 0 <= k < classes.len() implies (#[trigger] classes[k]).class_name@ != name by {
                if k < classes.len() - 1 {
                    assert(classes[k] == classes.drop_last()[k]);
                }
            }
        }
    }
}

/// In a table of distinct names, the class named `name` is the one found.
pub proof fn lemma_find_class_unique(classes: Seq<LoadedClass>, name: Seq<char>, i: int)
    requires
        names_distinct(classes),
        0 <= i < classes.len(),
        classes[i].class_name@ == name,
    ensures
        spec_find_class(classes, name) == Some(i),
    decreases classes.len(),
{
    if classes.last().class_name@ != name {
        assert(i < classes.len() - 1);
        assert(names_distinct(classes.drop_last())) by {
            assert forall|a: int, b: int| 0 <= a < b < classes.drop_last().len() implies #[trigger] classes.drop_last()[a].class_name@
                != #[trigger] classes.drop_last()[b].class_name@ by {
                assert(classes.drop_last()[a] == classes[a] && classes.drop_last()[b] == classes[b]);
            }
        }
        assert(classes.drop_last()[i] == classes[i]);
        lemma_find_class_unique(classes.drop_last(), name, i);
    } else if i != classes.len() - 1 {
        assert(classes[i].class_name@ != classes[classes.len() - 1].class_name@);
    }
}

/// Whether class `i` or one of its superclasses is named `name`.
pub open spec fn chain_has(classes: Seq<LoadedClass>, i: nat, name: Seq<char>) -> bool
    decreases i,
{
    &&& i < classes.len()
    &&& {
        ||| classes[i as int].class_name@ == name
        ||| (classes[i as int].super_class matches Some(s) && s < i && chain_has(classes, s as nat, name))
    }
}

/// Whether class `i` is named `name` or descends from it through its
/// superclasses, or through its own interfaces and theirs.
pub open spec fn subclass_of(classes: Seq<LoadedClass>, i: nat, name: Seq<char>) -> bool
    decreases i, 1nat, 0nat,
{
    &&& i < classes.len()
    &&& (chain_has(classes, i, name) || any_subclass(classes, i, classes[i as int].interfaces@, name))
}

/// Whether one of the interfaces `ifs`, each below `i`, is a subclass of `name`.
pub open spec fn any_subclass(classes: Seq<LoadedClass>, i: nat, ifs: Seq<usize>, name: Seq<char>) -> bool
    decreases i, 0nat, ifs.len(),
{
    &&& ifs.len() > 0
    &&& {
        ||| (ifs[0] < i && subclass_of(classes, ifs[0] as nat, name))
        ||| any_subclass(classes, i, ifs.drop_first(), name)
    }
}

/// Whether class `i` is named `name`, or one of its interfaces or its
/// superclass implements `name`.
pub open spec fn implements(classes: Seq<LoadedClass>, i: nat, name: Seq<char>) -> bool
    decreases i, 1nat, 0nat,
{
    &&& i < classes.len()
    &&& {
        ||| classes[i as int].class_name@ == name
        ||| any_implements(classes, i, classes[i as int].interfaces@, name)
        ||| (classes[i as int].super_class matches Some(s) && s < i && implements(classes, s as nat, name))
    }
}

/// Whether one of the interfaces `ifs`, each below `i`, implements `name`.
pub open spec fn any_implements(classes: Seq<LoadedClass>, i: nat, ifs: Seq<usize>, name: Seq<char>) -> bool
    decreases i, 0nat, ifs.len(),
{
    &&& ifs.len() > 0
    &&& {
        ||| (ifs[0] < i && implements(classes, ifs[0] as nat, name))
        ||| any_implements(classes, i, ifs.drop_first(), name)
    }
}

/// The class that holds static field `name` for class `i`, with the field's
/// position: the first of `i` and its superclasses that declares it.
pub open spec fn static_owner(classes: Seq<LoadedClass>, i: nat, name: Seq<char>) -> Option<(nat, nat)>
    decreases i,
{
    if i >= classes.len() {
        None
    } else {
        match spec_last_named(classes[i as int].static_fields@, name) {
            Some(k) => Some((i, k as nat)),
            None => match classes[i as int].super_class {
                Some(s) => if s < i { static_owner(classes, s as nat, name) } else { None },
                None => None,
            },
        }
    }
}

/// The first of class `i` and its superclasses whose method `name` with
/// descriptor `des` has a body, with that body.
pub open spec fn code_in_chain(classes: Seq<LoadedClass>, i: nat, name: Seq<char>, des: Seq<char>) -> Option<(nat, Arc<Code>)>
    decreases i,
{
    if i >= classes.len() {
        None
    } else {
        match spec_code_of(classes[i as int].methods@, classes[i as int].constant_pool.entries(), name, des) {
            Some(c) => Some((i, c)),
            None => match classes[i as int].super_class {
                Some(s) => if s < i { code_in_chain(classes, s as nat, name, des) } else { None },
                None => None,
            },
        }
    }
}

/// Whether a class is an interface.
pub open spec fn is_interface(c: LoadedClass) -> bool {
    has_bits(c.access_flags.bits, ClassFlags::ACC_INTERFACE)
}

/// The method that a virtual call of `name` with descriptor `des` on class
/// `i` runs: found in `i` or a superclass; for an interface that has none,
/// looked up in its first superinterface. `Err(j)` names the class whose
/// name the failure reports.
pub open spec fn virtual_lookup(classes: Seq<LoadedClass>, i: nat, name: Seq<char>, des: Seq<char>) -> Result<(nat, Arc<Code>), nat>
    decreases i,
{
    match code_in_chain(classes, i, name, des) {
        Some(found) => Ok(found),
        None => if i < classes.len() && is_interface(classes[i as int]) && classes[i as int].interfaces@.len() > 0
            && classes[i as int].interfaces@[0] < i {
            virtual_lookup(classes, classes[i as int].interfaces@[0] as nat, name, des)
        } else {
            Err(i)
        },
    }
}

/// The class in which a method is found up the superclass chain is a
/// loaded class.
pub proof fn lemma_code_in_chain_bound(classes: Seq<LoadedClass>, i: nat, name: Seq<char>, des: Seq<char>)
    ensures
        code_in_chain(classes, i, name, des) matches Some((c, _)) ==> c < classes.len(),
    decreases i,
{
    if i < classes.len() {
        if let Some(s) = classes[i as int].super_class {
            if s < i {
                lemma_code_in_chain_bound(classes, s as nat, name, des);
            }
        }
    }
}

/// The class in which a virtual lookup finds a method is a loaded class.
pub proof fn lemma_virtual_lookup_bound(classes: Seq<LoadedClass>, i: nat, name: Seq<char>, des: Seq<char>)
    ensures
        virtual_lookup(classes, i, name, des) matches Ok((c, _)) ==> c < classes.len(),
    decreases i,
{
    lemma_code_in_chain_bound(classes, i, name, des);
    if i < classes.len() && classes[i as int].interfaces@.len() > 0 && classes[i as int].interfaces@[0] < i {
        lemma_virtual_lookup_bound(classes, classes[i as int].interfaces@[0] as nat, name, des);
    }
}

/// The loaded classes.
#[derive(Debug)]
pub struct ClassLoader {
    pub classes: Vec<LoadedClass>,
}

/// `Static field <name> not found in class hierarchy`.
fn static_not_found(name: &str) -> (res: JVMError)
    ensures
        res matches JVMError::Other(m) && m@ == "Static field "@ + name@ + " not found in class hierarchy"@,
{
    let a = concat("Static field ", name);
    JVMError::Other(concat(a.as_str(), " not found in class hierarchy"))
}

impl ClassLoader {
    /// Whether every class satisfies `class_wf` at its position, and no two
    /// classes have the same name.
    pub open spec fn wf(&self) -> bool {
        &&& forall|i: int| 0 <= i < self.classes@.len() ==> class_wf(#[trigger] self.classes@[i], i)
        &&& names_distinct(self.classes@)
    }

    /// An empty table.
    pub fn new() -> (res: ClassLoader)
        ensures
            res.classes@.len() == 0,
            res.wf(),
    {
        ClassLoader { classes: Vec::new() }
    }

    /// The position of the last class loaded under `class_name`.
    pub fn find_loaded_class(&self, class_name: &str) -> (res: Option<usize>)
        ensures
            match spec_find_class(self.classes@, class_name@) {
                Some(i) => res matches Some(r) && r == i,
                None => res is None,
            },
            res matches Some(r) ==> r < self.classes@.len(),
    {
        proof {
            lemma_find_class_bound(self.classes@, class_name@);
        }
        let mut k = self.classes.len();
        assert(self.classes@.take(k as int) =~= self.classes@);
        while k > 0
            invariant
                k <= self.classes@.len(),
                spec_find_class(self.classes@, class_name@) == spec_find_class(self.classes@.take(k as int), class_name@),
            decreases k,
        {
            assert(self.classes@.take(k as int).drop_last() =~= self.classes@.take(k - 1));
            if str_eq(self.classes[k - 1].class_name.as_str(), class_name) {
                return Some(k - 1);
            }
            k = k - 1;
        }
        None
    }

    /// Checks the magic number and the least length of class file bytes.
    pub fn verify_class_format(class_data: &[u8]) -> (res: Result<(), ClassLoadingError>)
        ensures
            (class_data@.len() < 4 || class_data@.take(4) != seq![0xCAu8, 0xFE, 0xBA, 0xBE]) ==> (res matches Err(
                ClassLoadingError::ClassFormatError(m)) && m@ == "Invalid class file magic number"@),
            (class_data@.len() >= 4 && class_data@.take(4) == seq![0xCAu8, 0xFE, 0xBA, 0xBE] && class_data@.len() < 8)
                ==> (res matches Err(ClassLoadingError::ClassFormatError(m)) && m@ == "Class file too short"@),
            (class_data@.len() >= 8 && class_data@.take(4) == seq![0xCAu8, 0xFE, 0xBA, 0xBE]) ==> res is Ok,
    {
        if class_data.len() < 4 || class_data[0] != 0xCA || class_data[1] != 0xFE || class_data[2] != 0xBA
            || class_data[3] != 0xBE {
            proof {
                if class_data@.len() >= 4 {
                    let t = class_data@.take(4);
                    assert(t[0] == class_data@[0] && t[1] == class_data@[1] && t[2] == class_data@[2] && t[3]
                        == class_data@[3]);
                    assert(t != seq![0xCAu8, 0xFE, 0xBA, 0xBE]) by {
                        let s = seq![0xCAu8, 0xFE, 0xBA, 0xBE];
                        if t == s {
                            assert(t[0] == s[0] && t[1] == s[1] && t[2] == s[2] && t[3] == s[3]);
                        }
                    }
                }
            }
            return Err(ClassLoadingError::ClassFormatError("Invalid class file magic number".to_string()));
        }
        assert(class_data@.take(4) =~= seq![0xCAu8, 0xFE, 0xBA, 0xBE]);
        if class_data.len() < 8 {
            return Err(ClassLoadingError::ClassFormatError("Class file too short".to_string()));
        }
        Ok(())
    }

    /// Whether the class at `id` is an interface.
    pub fn check_interface(&self, id: usize) -> (res: bool)
        requires
            id < self.classes@.len(),
        ensures
            res == is_interface(self.classes@[id as int]),
    {
        self.classes[id].access_flags.contains(ClassFlags::ACC_INTERFACE)
    }

    /// Lays out a parsed class whose superclass and interfaces are already
    /// loaded, and adds it to the table; gives its position. A class with an
    /// instance field whose name or descriptor is missing, a static field
    /// whose descriptor is missing or names no type, or a method whose name
    /// or descriptor is missing, is refused with `ClassFormatError`.
    pub fn define_class(
        &mut self,
        class_name: String,
        super_id: Option<usize>,
        interfaces: Vec<usize>,
        parsed: ClassFile,
    ) -> (res: Result<usize, ClassLoadingError>)
        requires
            old(self).wf(),
            spec_find_class(old(self).classes@, class_name@) is None,
            super_id matches Some(s) ==> s < old(self).classes@.len(),
            forall|k: int| 0 <= k < interfaces@.len() ==> #[trigger] interfaces@[k] < old(self).classes@.len(),
        ensures
            final(self).wf(),
            !fields_resolvable(parsed.fields@, parsed.constant_pool.entries()) ==> (res matches Err(
                ClassLoadingError::ClassFormatError(m)) && m@ == "Unresolvable field in class file"@
                && final(self).classes@ == old(self).classes@),
            fields_resolvable(parsed.fields@, parsed.constant_pool.entries()) && !methods_resolvable(
                parsed.methods@, parsed.constant_pool.entries()) ==> (res matches Err(
                ClassLoadingError::ClassFormatError(m)) && m@ == "Unresolvable method in class file"@
                && final(self).classes@ == old(self).classes@),
            fields_resolvable(parsed.fields@, parsed.constant_pool.entries()) && methods_resolvable(
                parsed.methods@, parsed.constant_pool.entries()) ==> {
                &&& res == Ok::<usize, ClassLoadingError>(old(self).classes@.len() as usize)
                &&& final(self).classes@.len() == old(self).classes@.len() + 1
                &&& final(self).classes@.take(old(self).classes@.len() as int) == old(self).classes@
                &&& final(self).classes@.last().class_name == class_name
                &&& final(self).classes@.last().super_class == super_id
                &&& final(self).classes@.last().interfaces == interfaces
                &&& final(self).classes@.last().methods == parsed.methods
                &&& *final(self).classes@.last().constant_pool == parsed.constant_pool
                &&& final(self).classes@.last().access_flags == parsed.access_flags
            },
    {
        if !crate::class_loader::all_fields_resolvable(&parsed) {
            return Err(ClassLoadingError::ClassFormatError("Unresolvable field in class file".to_string()));
        }
        if !crate::class_loader::all_methods_resolvable(&parsed) {
            return Err(ClassLoadingError::ClassFormatError("Unresolvable method in class file".to_string()));
        }
        let n = self.classes.len();
        let ghost all_fields = parsed.fields@;
        let ghost cp = parsed.constant_pool;
        let super_class = match super_id {
            Some(s) => Some(&self.classes[s]),
            None => None,
        };
        proof {
            if let Some(s) = super_id {
                assert(class_wf(self.classes@[s as int], s as int));
            }
        }
        let c = LoadedClass::new(
            class_name,
            super_id,
            super_class,
            interfaces,
            parsed.fields,
            parsed.methods,
            Arc::new(parsed.constant_pool),
            parsed.access_flags,
        );
        proof {
            lemma_find_class_none(old(self).classes@, c.class_name@);
        }
        self.classes.push(c);
        proof {
            assert forall|i: int| 0 <= i < self.classes@.len() implies class_wf(#[trigger] self.classes@[i], i) by {
                if i < n {
                    assert(self.classes@[i] == old(self).classes@[i]);
                }
            }
            assert forall|a: int, b: int| 0 <= a < b < self.classes@.len() implies #[trigger] self.classes@[a].class_name@
                != #[trigger] self.classes@[b].class_name@ by {
                assert(self.classes@[a] == old(self).classes@[a]);
                if b < n {
                    assert(self.classes@[b] == old(self).classes@[b]);
                }
            }
            assert(self.classes@.take(n as int) =~= old(self).classes@);
        }
        Ok(n)
    }
}

impl ClassLoader {
    /// The value of static field `name` as class `class_id` sees it: in the
    /// first of the class and its superclasses that declares it.
    pub fn get_static_field(&self, class_id: usize, name: &str) -> (res: Result<Value, JVMError>)
        requires
            self.wf(),
        ensures
            match static_owner(self.classes@, class_id as nat, name@) {
                Some((c, k)) => res == Ok::<Value, JVMError>(self.classes@[c as int].static_values@[k as int]),
                None => res matches Err(JVMError::Other(m)) && m@ == "Static field "@ + name@
                    + " not found in class hierarchy"@,
            },
    {
        let mut current = class_id;
        loop
            invariant
                self.wf(),
                current <= class_id,
                static_owner(self.classes@, class_id as nat, name@) == static_owner(self.classes@, current as nat, name@),
            decreases current,
        {
            if current >= self.classes.len() {
                return Err(static_not_found(name));
            }
            let cls = &self.classes[current];
            assert(class_wf(self.classes@[current as int], current as int));
            proof { crate::loaded_class::lemma_last_named_bound(cls.static_fields@, name@); }
            match crate::loaded_class::last_named(&cls.static_fields, name) {
                Some(index) => {
                    return Ok(cls.static_values[index]);
                },
                None => {},
            }
            match cls.super_class {
                Some(s) => {
                    current = s;
                },
                None => {
                    return Err(static_not_found(name));
                },
            }
        }
    }

    /// Sets static field `name` as class `class_id` sees it.
    pub fn set_static_field(&mut self, class_id: usize, name: &str, value: Value) -> (res: Result<(), JVMError>)
        requires
            old(self).wf(),
        ensures
            final(self).wf(),
            final(self).classes@.len() == old(self).classes@.len(),
            match static_owner(old(self).classes@, class_id as nat, name@) {
                Some((c, k)) => {
                    &&& res is Ok
                    &&& final(self).classes@ == old(self).classes@.update(c as int, LoadedClass {
                        static_values: final(self).classes@[c as int].static_values,
                        ..old(self).classes@[c as int]
                    })
                    &&& final(self).classes@[c as int].static_values@ == old(self).classes@[c as int].static_values@.update(
                        k as int, value)
                },
                None => {
                    &&& res matches Err(JVMError::Other(m)) && m@ == "Static field "@ + name@ + " not found in class hierarchy"@
                    &&& final(self).classes@ == old(self).classes@
                },
            },
    {
        let mut current = class_id;
        loop
            invariant
                self.wf(),
                *self == *old(self),
                current <= class_id,
                static_owner(self.classes@, class_id as nat, name@) == static_owner(self.classes@, current as nat, name@),
            decreases current,
        {
            if current >= self.classes.len() {
                return Err(static_not_found(name));
            }
            assert(class_wf(self.classes@[current as int], current as int));
            proof { crate::loaded_class::lemma_last_named_bound(self.classes@[current as int].static_fields@, name@); }
            match crate::loaded_class::last_named(&self.classes[current].static_fields, name) {
                Some(index) => {
                    let ghost before = self.classes@;
                    self.classes[current].static_values.set(index, value);
                    proof {
                        assert forall|i: int| 0 <= i < self.classes@.len() implies class_wf(#[trigger] self.classes@[i], i) by {
                            assert(class_wf(before[i], i));
                        }
                        assert(self.classes@ =~= before.update(current as int, LoadedClass {
                            static_values: self.classes@[current as int].static_values,
                            ..before[current as int]
                        }));
                    }
                    return Ok(());
                },
                None => {},
            }
            match self.classes[current].super_class {
                Some(s) => {
                    current = s;
                },
                None => {
                    return Err(static_not_found(name));
                },
            }
        }
    }

    /// Whether class `actual`, or one of its superclasses, is named
    /// `expected_class_name`.
    pub fn is_compatible_class(&self, actual: usize, expected_class_name: &str) -> (res: bool)
        requires
            self.wf(),
        ensures
            res == chain_has(self.classes@, actual as nat, expected_class_name@),
    {
        let mut current = actual;
        loop
            invariant
                self.wf(),
                chain_has(self.classes@, actual as nat, expected_class_name@) == chain_has(self.classes@, current as nat,
                    expected_class_name@),
            decreases current,
        {
            if current >= self.classes.len() {
                return false;
            }
            assert(class_wf(self.classes@[current as int], current as int));
            if str_eq(self.classes[current].class_name.as_str(), expected_class_name) {
                return true;
            }
            match self.classes[current].super_class {
                Some(s) => {
                    current = s;
                },
                None => {
                    return false;
                },
            }
        }
    }

    /// Whether an object of class `from_class` can be used as one of class
    /// `to_class`: one of them is named like the other or a superclass of
    /// `from_class` is named like `to_class`.
    pub fn is_assignable(&self, from_class: usize, to_class: usize) -> (res: bool)
        requires
            self.wf(),
            to_class < self.classes@.len(),
        ensures
            res == chain_has(self.classes@, from_class as nat, self.classes@[to_class as int].class_name@),
    {
        self.is_compatible_class(from_class, self.classes[to_class].class_name.as_str())
    }

    /// Whether class `class` descends from `target` through its
    /// superclasses, or through its own interfaces and theirs.
    pub fn is_subclass_of(&self, class: usize, target: usize) -> (res: bool)
        requires
            self.wf(),
            target < self.classes@.len(),
        ensures
            res == subclass_of(self.classes@, class as nat, self.classes@[target as int].class_name@),
        decreases class,
    {
        if class >= self.classes.len() {
            return false;
        }
        if self.is_compatible_class(class, self.classes[target].class_name.as_str()) {
            return true;
        }
        assert(class_wf(self.classes@[class as int], class as int));
        let ifs = &self.classes[class].interfaces;
        let mut i: usize = 0;
        assert(ifs@.skip(0) =~= ifs@);
        while i < ifs.len()
            invariant
                self.wf(),
                class < self.classes@.len(),
                target < self.classes@.len(),
                *ifs == self.classes@[class as int].interfaces,
                i <= ifs@.len(),
                forall|k: int| 0 <= k < ifs@.len() ==> #[trigger] ifs@[k] < class,
                subclass_of(self.classes@, class as nat, self.classes@[target as int].class_name@) == any_subclass(
                    self.classes@, class as nat, ifs@.skip(i as int), self.classes@[target as int].class_name@),
            decreases ifs@.len() - i,
        {
            assert(ifs@.skip(i as int).drop_first() =~= ifs@.skip(i + 1));
            assert(ifs@.skip(i as int)[0] == ifs@[i as int]);
            if self.is_subclass_of(ifs[i], target) {
                return true;
            }
            i = i + 1;
        }
        false
    }

    /// Whether class `class` is named like `interface`, or one of its
    /// interfaces or its superclass implements it.
    pub fn implements_interface(&self, class: usize, interface: usize) -> (res: bool)
        requires
            self.wf(),
            interface < self.classes@.len(),
        ensures
            res == implements(self.classes@, class as nat, self.classes@[interface as int].class_name@),
        decreases class,
    {
        if class >= self.classes.len() {
            return false;
        }
        assert(class_wf(self.classes@[class as int], class as int));
        if str_eq(self.classes[class].class_name.as_str(), self.classes[interface].class_name.as_str()) {
            return true;
        }
        let ifs = &self.classes[class].interfaces;
        let mut i: usize = 0;
        assert(ifs@.skip(0) =~= ifs@);
        while i < ifs.len()
            invariant
                self.wf(),
                class < self.classes@.len(),
                interface < self.classes@.len(),
                *ifs == self.classes@[class as int].interfaces,
                i <= ifs@.len(),
                forall|k: int| 0 <= k < ifs@.len() ==> #[trigger] ifs@[k] < class,
                any_implements(self.classes@, class as nat, ifs@, self.classes@[interface as int].class_name@)
                    == any_implements(self.classes@, class as nat, ifs@.skip(i as int), self.classes@[interface as int].class_name@),
            decreases ifs@.len() - i,
        {
            assert(ifs@.skip(i as int).drop_first() =~= ifs@.skip(i + 1));
            assert(ifs@.skip(i as int)[0] == ifs@[i as int]);
            if self.implements_interface(ifs[i], interface) {
                return true;
            }
            i = i + 1;
        }
        match self.classes[class].super_class {
            Some(s) => self.implements_interface(s, interface),
            None => false,
        }
    }

    /// The body of method `name_des` of class `class` itself.
    pub fn lookup_method(&self, class: usize, name_des: &NameDes) -> (res: Result<(usize, Arc<Code>), JVMError>)
        requires
            self.wf(),
            class < self.classes@.len(),
        ensures
            match spec_code_of(self.classes@[class as int].methods@, self.classes@[class as int].constant_pool.entries(),
                name_des.name@, name_des.des@) {
                Some(c) => res == Ok::<(usize, Arc<Code>), JVMError>((class, c)),
                None => res matches Err(JVMError::MethodNotFound { class: cn, name, descriptor })
                    && cn@ == self.classes@[class as int].class_name@ && name@ == name_des.name@
                    && descriptor@ == name_des.des@,
            },
    {
        assert(class_wf(self.classes@[class as int], class as int));
        match self.classes[class].get_code_from_method(name_des) {
            Some(code) => Ok((class, code)),
            None => Err(JVMError::MethodNotFound {
                class: self.classes[class].class_name.clone(),
                name: name_des.name.clone(),
                descriptor: name_des.des.clone(),
            }),
        }
    }

    /// The first of class `class` and its superclasses whose method
    /// `name_des` has a body.
    fn code_in_superclasses(&self, class: usize, name_des: &NameDes) -> (res: Option<(usize, Arc<Code>)>)
        requires
            self.wf(),
        ensures
            match code_in_chain(self.classes@, class as nat, name_des.name@, name_des.des@) {
                Some((c, code)) => res == Some((c as usize, code)),
                None => res is None,
            },
    {
        let mut current = class;
        loop
            invariant
                self.wf(),
                code_in_chain(self.classes@, class as nat, name_des.name@, name_des.des@) == code_in_chain(
                    self.classes@, current as nat, name_des.name@, name_des.des@),
            decreases current,
        {
            if current >= self.classes.len() {
                return None;
            }
            assert(class_wf(self.classes@[current as int], current as int));
            match self.classes[current].get_code_from_method(name_des) {
                Some(code) => {
                    return Some((current, code));
                },
                None => {},
            }
            match self.classes[current].super_class {
                Some(s) => {
                    current = s;
                },
                None => {
                    return None;
                },
            }
        }
    }

    /// The method that a virtual call of `name_des` on an object of class
    /// `class` runs, with the class that declares it.
    pub fn lookup_virtual_method(&self, class: usize, name_des: &NameDes) -> (res: Result<(usize, Arc<Code>), JVMError>)
        requires
            self.wf(),
            class < self.classes@.len(),
        ensures
            match virtual_lookup(self.classes@, class as nat, name_des.name@, name_des.des@) {
                Ok((c, code)) => res == Ok::<(usize, Arc<Code>), JVMError>((c as usize, code)),
                Err(j) => j < self.classes@.len() && (res matches Err(JVMError::MethodNotFound {
                    class: cn,
                    name,
                    descriptor,
                }) && cn@ == self.classes@[j as int].class_name@ && name@ == name_des.name@
                    && descriptor@ == name_des.des@),
            },
        decreases class,
    {
        if let Some(found) = self.code_in_superclasses(class, name_des) {
            return Ok(found);
        }
        assert(class_wf(self.classes@[class as int], class as int));
        if self.classes[class].access_flags.contains(ClassFlags::ACC_INTERFACE) && self.classes[class].interfaces.len() > 0 {
            let first = self.classes[class].interfaces[0];
            return self.lookup_virtual_method(first, name_des);
        }
        Err(JVMError::MethodNotFound {
            class: self.classes[class].class_name.clone(),
            name: name_des.name.clone(),
            descriptor: name_des.des.clone(),
        })
    }
}

use crate::loaded_class::spec_default_value;

/// Whether every field of a parsed class can be laid out.
fn all_fields_resolvable(parsed: &ClassFile) -> (res: bool)
    ensures
        res == fields_resolvable(parsed.fields@, parsed.constant_pool.entries()),
{
    let ghost cp = parsed.constant_pool.entries();
    let mut i: usize = 0;
    while i < parsed.fields.len()
        invariant
            i <= parsed.fields@.len(),
            cp == parsed.constant_pool.entries(),
            forall|k: int| 0 <= k < i ==> crate::loaded_class::field_ok(#[trigger] parsed.fields@[k], cp),
        decreases parsed.fields@.len() - i,
    {
        let f = &parsed.fields[i];
        let descriptor = parsed.constant_pool.get_underlying_string_from_utf8_index(f.descriptor_index);
        let ok = if f.access_flags.contains(FieldFlags::ACC_STATIC) {
            match descriptor {
                Some(d) => crate::loaded_class::default_value(d.as_str()).is_some(),
                None => false,
            }
        } else {
            parsed.constant_pool.get_underlying_string_from_utf8_index(f.name_index).is_some() && descriptor.is_some()
        };
        if !ok {
            assert(!crate::loaded_class::field_ok(parsed.fields@[i as int], cp));
            return false;
        }
        i = i + 1;
    }
    true
}

/// Whether every method of a parsed class resolves.
fn all_methods_resolvable(parsed: &ClassFile) -> (res: bool)
    ensures
        res == methods_resolvable(parsed.methods@, parsed.constant_pool.entries()),
{
    let mut i: usize = 0;
    while i < parsed.methods.len()
        invariant
            i <= parsed.methods@.len(),
            methods_resolvable(parsed.methods@.take(i as int), parsed.constant_pool.entries()),
        decreases parsed.methods@.len() - i,
    {
        let m = &parsed.methods[i];
        if parsed.constant_pool.get_underlying_string_from_utf8_index(m.name_index).is_none()
            || parsed.constant_pool.get_underlying_string_from_utf8_index(m.descriptor_index).is_none() {
            assert(!methods_resolvable(parsed.methods@, parsed.constant_pool.entries())) by {
                assert(parsed.methods@[i as int] == *m);
            }
            return false;
        }
        i = i + 1;
        assert forall|k: int| 0 <= k < i implies {
            &&& crate::constant_pool::spec_utf8(parsed.constant_pool.entries(), (#[trigger] parsed.methods@.take(i as int)[k]).name_index) is Some
            &&& crate::constant_pool::spec_utf8(parsed.constant_pool.entries(), parsed.methods@.take(i as int)[k].descriptor_index) is Some
        } by {
            if k < i - 1 {
                assert(parsed.methods@.take(i as int)[k] == parsed.methods@.take(i - 1)[k]);
            }
        }
    }
    assert(parsed.methods@.take(i as int) =~= parsed.methods@);
    true
}

/// The classes that initializing class `c` of `classes` walks through, from
/// `c` up its superclasses to the first one that is initialized or has no
/// superclass, each of them not yet initialized; and whether the walk met
/// a class whose initialization is in progress.
pub open spec fn init_path(classes: Seq<LoadedClass>, c: nat) -> (Seq<usize>, bool)
    decreases c,
{
    if c >= classes.len() {
        (Seq::empty(), false)
    } else {
        match classes[c as int].init_state {
            InitState::Initialized => (Seq::empty(), false),
            InitState::InProgress => (Seq::empty(), true),
            InitState::Uninitialized => match classes[c as int].super_class {
                Some(s) => if s < c {
                    let rest = init_path(classes, s as nat);
                    (seq![c as usize] + rest.0, rest.1)
                } else {
                    (seq![c as usize], false)
                },
                None => (seq![c as usize], false),
            },
        }
    }
}

/// The classes of `path` are below `bound`, each below the one before it.
pub proof fn lemma_init_path_below(classes: Seq<LoadedClass>, c: nat)
    requires
        classes.len() <= usize::MAX,
    ensures
        forall|j: int| 0 <= j < init_path(classes, c).0.len() ==> #[trigger] init_path(classes, c).0[j] <= c
            && (j > 0 ==> init_path(classes, c).0[j] < init_path(classes, c).0[j - 1]),
    decreases c,
{
    if c < classes.len() {
        if let Some(s) = classes[c as int].super_class {
            if s < c && classes[c as int].init_state == InitState::Uninitialized {
                lemma_init_path_below(classes, s as nat);
                let rest = init_path(classes, s as nat).0;
                let p = init_path(classes, c).0;
                assert(p == seq![c as usize] + rest);
                assert forall|j: int| 0 <= j < p.len() implies #[trigger] p[j] <= c && (j > 0 ==> p[j] < p[j - 1]) by {
                    if j > 0 {
                        assert(p[j] == rest[j - 1]);
                        if j > 1 {
                            assert(p[j - 1] == rest[j - 2]);
                        }
                    }
                }
            }
        }
    }
}

/// Class `k` of `before` as initializing class `c` leaves it.
pub open spec fn marked_in_progress(before: Seq<LoadedClass>, c: nat, k: int) -> LoadedClass {
    if init_path(before, c).0.contains(k as usize) {
        LoadedClass { init_state: InitState::InProgress, ..before[k] }
    } else {
        before[k]
    }
}

impl LoadedClass {
    /// Starts the initialization of class `class` of the table: it and each
    /// superclass that is not initialized yet are marked as in progress, up
    /// to the first initialized one, and given superclass first; the host
    /// runs the `<clinit>` method of each in that order and marks each one
    /// initialized after its own. Meeting a class whose initialization is
    /// already in progress is a circular initialization; the classes marked
    /// before stay marked.
    pub fn initialize(loader: &mut ClassLoader, class: usize) -> (res: Result<Vec<usize>, JVMError>)
        requires
            old(loader).wf(),
            class < old(loader).classes@.len(),
        ensures
            final(loader).wf(),
            final(loader).classes@.len() == old(loader).classes@.len(),
            forall|k: int| 0 <= k < old(loader).classes@.len() ==> #[trigger] final(loader).classes@[k] == marked_in_progress(
                old(loader).classes@, class as nat, k),
            init_path(old(loader).classes@, class as nat).1 ==> (res matches Err(JVMError::Other(m))
                && m@ == "Circular initialization detected"@),
            !init_path(old(loader).classes@, class as nat).1 ==> (res matches Ok(order) && {
                let p = init_path(old(loader).classes@, class as nat).0;
                &&& order@.len() == p.len()
                &&& forall|i: int| 0 <= i < p.len() ==> #[trigger] order@[i] == p[p.len() - 1 - i]
            }),
    {
        let ghost c0 = loader.classes@;
        assert(c0.len() == loader.classes.len());
        let mut path: Vec<usize> = Vec::new();
        let mut cur = class;
        proof {
            lemma_init_path_below(c0, class as nat);
        }
        loop
            invariant_except_break
                init_path(c0, class as nat) == (path@ + init_path(c0, cur as nat).0, init_path(c0, cur as nat).1),
                forall|j: int| 0 <= j < path@.len() ==> cur < #[trigger] path@[j],
            invariant
                c0 == old(loader).classes@,
                c0.len() <= usize::MAX,
                loader.wf(),
                loader.classes@.len() == c0.len(),
                cur < c0.len(),
                forall|k: int| 0 <= k < c0.len() ==> #[trigger] loader.classes@[k] == if path@.contains(k as usize) {
                    LoadedClass { init_state: InitState::InProgress, ..c0[k] }
                } else {
                    c0[k]
                },
            ensures
                init_path(c0, class as nat) == (path@, false),
            decreases cur,
        {
            assert(!path@.contains(cur)) by {
                if path@.contains(cur) {
                    let j = choose|j: int| 0 <= j < path@.len() && path@[j] == cur;
                }
            }
            match loader.classes[cur].init_state {
                InitState::Initialized => {
                    assert(path@ + init_path(c0, cur as nat).0 =~= path@);
                    break;
                },
                InitState::InProgress => {
                    assert(init_path(c0, class as nat).1);
                    proof {
                        assert forall|k: int| 0 <= k < c0.len() implies #[trigger] loader.classes@[k] == marked_in_progress(c0,
                            class as nat, k) by {
                            assert(init_path(c0, class as nat).0 =~= path@);
                        }
                    }
                    return Err(JVMError::Other("Circular initialization detected".to_string()));
                },
                InitState::Uninitialized => {
                    let ghost before = loader.classes@;
                    let ghost old_path = path@;
                    loader.classes[cur].init_state = InitState::InProgress;
                    path.push(cur);
                    proof {
                        assert forall|i: int| 0 <= i < loader.classes@.len() implies class_wf(#[trigger] loader.classes@[i], i) by {
                            assert(class_wf(before[i], i));
                        }
                        assert forall|k: int| 0 <= k < c0.len() implies #[trigger] loader.classes@[k] == if path@.contains(
                            k as usize) {
                            LoadedClass { init_state: InitState::InProgress, ..c0[k] }
                        } else {
                            c0[k]
                        } by {
                            if k == cur {
                                assert(path@[path@.len() - 1] == cur);
                            } else {
                                if path@.contains(k as usize) {
                                    let j = choose|j: int| 0 <= j < path@.len() && path@[j] == k as usize;
                                    assert(old_path[j] == k as usize);
                                }
                                if old_path.contains(k as usize) {
                                    let j = choose|j: int| 0 <= j < old_path.len() && old_path[j] == k as usize;
                                    assert(path@[j] == k as usize);
                                }
                            }
                        }
                    }
                    assert(class_wf(c0[cur as int], cur as int));
                    match loader.classes[cur].super_class {
                        Some(s) => {
                            assert(old_path + init_path(c0, cur as nat).0 =~= path@ + init_path(c0, s as nat).0);
                            cur = s;
                        },
                        None => {
                            assert(old_path + init_path(c0, cur as nat).0 =~= path@);
                            break;
                        },
                    }
                },
            }
        }
        proof {
            assert forall|k: int| 0 <= k < c0.len() implies #[trigger] loader.classes@[k] == marked_in_progress(c0, class as nat, k)
                by {}
        }
        let mut order: Vec<usize> = Vec::new();
        let mut j = path.len();
        while j > 0
            invariant
                j <= path@.len(),
                order@.len() == path@.len() - j,
                forall|i: int| 0 <= i < order@.len() ==> #[trigger] order@[i] == path@[path@.len() - 1 - i],
            decreases j,
        {
            j = j - 1;
            order.push(path[j]);
        }
        Ok(order)
    }

    /// Marks class `class` of the table as initialized, once its
    /// `<clinit>` method has run.
    pub fn mark_initialized(loader: &mut ClassLoader, class: usize)
        requires
            old(loader).wf(),
            class < old(loader).classes@.len(),
        ensures
            final(loader).wf(),
            final(loader).classes@ == old(loader).classes@.update(class as int, LoadedClass {
                init_state: InitState::Initialized,
                ..old(loader).classes@[class as int]
            }),
    {
        let ghost before = loader.classes@;
        loader.classes[class].init_state = InitState::Initialized;
        proof {
            assert forall|i: int| 0 <= i < loader.classes@.len() implies class_wf(#[trigger] loader.classes@[i], i) by {
                assert(class_wf(before[i], i));
            }
            assert(loader.classes@ =~= before.update(class as int, LoadedClass {
                init_state: InitState::Initialized,
                ..before[class as int]
            }));
        }
    }
}

} // verus!
