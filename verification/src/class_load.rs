//! Loading a class: its file is read, checked and parsed, its superclass
//! and interfaces are loaded first, and then it is laid out and added to
//! the table.
//!
//! Reading a class file is the host's part: `ClassLoader::begin_load` and
//! `ClassLoader::continue_load` ask for the file of a class by name, and
//! take its bytes, or the reason they could not be read, in return.

use vstd::prelude::*;
use crate::class_file::{spec_class_names, ClassFile};
use crate::class_format::{class_file_at, lemma_class_names_agree};
use crate::class_file_reader::ClassFileReader;
use crate::class_loader::{is_interface, lemma_find_class_bound, spec_find_class, ClassLoader, ClassLoadingError};
use crate::loaded_class::{fields_resolvable, methods_resolvable};
use crate::text::{concat, str_eq};

verus! {

/// The text of a class loading error, as it reads in a message.
pub open spec fn error_text(e: ClassLoadingError) -> Seq<char> {
    match e {
        ClassLoadingError::LinkageError(m) => "LinkageError: "@ + m@,
        ClassLoadingError::VerifyError(m) => "VerifyError: "@ + m@,
        ClassLoadingError::ClassFormatError(m) => "ClassFormatError: "@ + m@,
        ClassLoadingError::UnsupportedClassVersionError(m) => "Unsupported class version error: "@ + m@,
        ClassLoadingError::NoClassDefFoundError(m) => "No class definition found error: "@ + m@,
        ClassLoadingError::IncompatibleClassChangeError(m) => "Incompatible class change error: "@ + m@,
        ClassLoadingError::ClassCircularityError(m) => "Class circularity error: "@ + m@,
        ClassLoadingError::IllegalAccessError(m) => "Illegal access error: "@ + m@,
        ClassLoadingError::NoSuchFieldError(m) => "No such field error: "@ + m@,
        ClassLoadingError::NoSuchMethodError(m) => "No such method error: "@ + m@,
        ClassLoadingError::InstantiationError(m) => "Instantiation error: "@ + m@,
        ClassLoadingError::AbstractMethodError(m) => "Abstract method error: "@ + m@,
        ClassLoadingError::ClassNotFoundException(m) => "Class not found exception: "@ + m@,
        ClassLoadingError::SecurityException(m) => "Security exception: "@ + m@,
        ClassLoadingError::OutOfMemoryError(m) => "Out of memory error: "@ + m@,
        ClassLoadingError::IoError(m) => "I/O error: "@ + m@,
        ClassLoadingError::ParseError(m) => "Parse error: "@ + m@,
        ClassLoadingError::InvalidJarFile(m) => "Invalid JAR file: "@ + m@,
        ClassLoadingError::NetworkError(m) => "Network error: "@ + m@,
        ClassLoadingError::Other(m) => "Other error: "@ + m@,
    }
}

impl ClassLoadingError {
    /// The text of this error, as it reads in a message.
    pub fn describe(&self) -> (res: String)
        ensures
            res@ == error_text(*self),
    {
        match self {
            ClassLoadingError::LinkageError(m) => concat("LinkageError: ", m.as_str()),
            ClassLoadingError::VerifyError(m) => concat("VerifyError: ", m.as_str()),
            ClassLoadingError::ClassFormatError(m) => concat("ClassFormatError: ", m.as_str()),
            ClassLoadingError::UnsupportedClassVersionError(m) => concat("Unsupported class version error: ", m.as_str()),
            ClassLoadingError::NoClassDefFoundError(m) => concat("No class definition found error: ", m.as_str()),
            ClassLoadingError::IncompatibleClassChangeError(m) => concat("Incompatible class change error: ", m.as_str()),
            ClassLoadingError::ClassCircularityError(m) => concat("Class circularity error: ", m.as_str()),
            ClassLoadingError::IllegalAccessError(m) => concat("Illegal access error: ", m.as_str()),
            ClassLoadingError::NoSuchFieldError(m) => concat("No such field error: ", m.as_str()),
            ClassLoadingError::NoSuchMethodError(m) => concat("No such method error: ", m.as_str()),
            ClassLoadingError::InstantiationError(m) => concat("Instantiation error: ", m.as_str()),
            ClassLoadingError::AbstractMethodError(m) => concat("Abstract method error: ", m.as_str()),
            ClassLoadingError::ClassNotFoundException(m) => concat("Class not found exception: ", m.as_str()),
            ClassLoadingError::SecurityException(m) => concat("Security exception: ", m.as_str()),
            ClassLoadingError::OutOfMemoryError(m) => concat("Out of memory error: ", m.as_str()),
            ClassLoadingError::IoError(m) => concat("I/O error: ", m.as_str()),
            ClassLoadingError::ParseError(m) => concat("Parse error: ", m.as_str()),
            ClassLoadingError::InvalidJarFile(m) => concat("Invalid JAR file: ", m.as_str()),
            ClassLoadingError::NetworkError(m) => concat("Network error: ", m.as_str()),
            ClassLoadingError::Other(m) => concat("Other error: ", m.as_str()),
        }
    }
}

/// A class whose file was read and parsed, waiting for its superclass and
/// its interfaces.
pub struct PendingClass {
    pub name: String,
    pub parsed: ClassFile,
    /// The superclass to load first; none for `java/lang/Object`.
    pub super_name: Option<String>,
    pub super_id: Option<usize>,
    pub interface_names: Vec<String>,
    /// The interfaces loaded so far, in the order of `interface_names`.
    pub interfaces: Vec<usize>,
}

/// The loading of a class and of the classes it needs first: the classes
/// waiting, the one that needs the next, last.
pub struct ClassLoad {
    pub target: String,
    pub pending: Vec<PendingClass>,
    /// The class whose file the host was asked for.
    pub reading: String,
}

/// What loading asks of the host, or its end.
#[derive(Debug)]
pub enum LoadRequest {
    /// The bytes of the file of the class named here.
    Read(String),
    /// The class is loaded, at this position of the table.
    Done(usize),
}

/// Whether the superclass of `p` is still to be found.
pub open spec fn needs_super(p: PendingClass) -> bool {
    p.super_name is Some && p.super_id is None
}

/// The class that `p` waits for.
pub open spec fn awaited(p: PendingClass) -> Seq<char> {
    if needs_super(p) {
        p.super_name.unwrap()@
    } else {
        p.interface_names@[p.interfaces@.len() as int]@
    }
}

/// The start of the message with which a waiting class wraps the error of
/// the class it waits for.
pub open spec fn wrap_prefix(p: PendingClass) -> Seq<char> {
    if needs_super(p) {
        "Failed to load superclass "@
    } else {
        "Failed to load interface "@
    }
}

/// The message of the error that level `k` of `pending` gives when the
/// class at the top failed with an error whose text is `t`: each level
/// wraps the text of the error of the class it waits for.
pub open spec fn wrap_text(pending: Seq<PendingClass>, k: int, t: Seq<char>) -> Seq<char>
    decreases pending.len() - k,
{
    if k < 0 || k >= pending.len() {
        Seq::empty()
    } else {
        let inner = if k + 1 < pending.len() {
            "No class definition found error: "@ + wrap_text(pending, k + 1, t)
        } else {
            t
        };
        wrap_prefix(pending[k]) + awaited(pending[k]) + ": "@ + inner
    }
}

/// Whether `res` is the error that loading ends with when the class that
/// the top of `pending` waits for failed with `e`: `e` itself with nothing
/// waiting, else the error of the first waiting class.
pub open spec fn fails_as<T>(res: Result<T, ClassLoadingError>, pending: Seq<PendingClass>, e: ClassLoadingError) -> bool {
    if pending.len() == 0 {
        res == Err::<T, ClassLoadingError>(e)
    } else {
        res matches Err(ClassLoadingError::NoClassDefFoundError(m)) && m@ == wrap_text(pending, 0, error_text(e))
    }
}

/// Whether `res` is the error that loading ends with when the class that
/// the top of `pending` waits for failed with an error whose text is `t`.
pub open spec fn fails_reading<T>(res: Result<T, ClassLoadingError>, pending: Seq<PendingClass>, t: Seq<char>) -> bool {
    if pending.len() == 0 {
        res matches Err(e) && error_text(e) == t
    } else {
        res matches Err(ClassLoadingError::NoClassDefFoundError(m)) && m@ == wrap_text(pending, 0, t)
    }
}

/// Whether the bytes start with the class file magic number.
pub open spec fn has_magic(bytes: Seq<u8>) -> bool {
    bytes.len() >= 4 && bytes.take(4) == seq![0xCAu8, 0xFE, 0xBA, 0xBE]
}

/// The work left for a waiting class: its superclass, its interfaces, and
/// its own definition.
pub open spec fn work(p: PendingClass) -> nat {
    (if needs_super(p) { 1nat } else { 0nat }) + (p.interface_names@.len() - p.interfaces@.len()) as nat + 1
}

/// The work left for all waiting classes.
pub open spec fn total_work(pending: Seq<PendingClass>) -> nat
    decreases pending.len(),
{
    if pending.len() == 0 {
        0
    } else {
        total_work(pending.drop_last()) + work(pending.last())
    }
}

/// Whether the fields and the methods of the parsed class `cf` name
/// entries of its constant pool that are there, and its field descriptors
/// name types: whether it can be added to the table.
pub open spec fn definable(cf: ClassFile) -> bool {
    &&& fields_resolvable(cf.fields@, cf.constant_pool.entries())
    &&& methods_resolvable(cf.methods@, cf.constant_pool.entries())
}

/// Whether `res` is the error that adding the parsed class `cf` to the
/// table ends with, the classes `waiting` waiting for it: its fields are
/// checked first, then its methods.
pub open spec fn define_failure<T>(res: Result<T, ClassLoadingError>, cf: ClassFile, waiting: Seq<PendingClass>) -> bool {
    if !fields_resolvable(cf.fields@, cf.constant_pool.entries()) {
        fails_reading(res, waiting, "ClassFormatError: "@ + "Unresolvable field in class file"@)
    } else {
        &&& !methods_resolvable(cf.methods@, cf.constant_pool.entries())
        &&& fails_reading(res, waiting, "ClassFormatError: "@ + "Unresolvable method in class file"@)
    }
}

/// Whether `res` is the refusal of the interface that the top class of
/// `load` waits for: a class of `loader` by that name is no interface.
pub open spec fn interface_refused<T>(res: Result<T, ClassLoadingError>, load: ClassLoad, loader: ClassLoader) -> bool {
    let pending = load.pending@;
    &&& pending.len() > 0
    &&& !needs_super(pending.last())
    &&& spec_find_class(loader.classes@, awaited(pending.last())) matches Some(i)
    &&& !is_interface(loader.classes@[i as int])
    &&& fails_reading(res, pending.drop_last(),
        "Incompatible class change error: "@ + "Class "@ + awaited(pending.last()) + " is not an interface"@)
}

/// Whether `res` is an error that resolving the waiting classes `before`
/// against the table ends with, `load` and `loader` being what is left:
/// an interface that the top class names is a class, or the class whose
/// turn came, the one past the top of what is left, could not be added.
pub open spec fn resolve_failure<T>(res: Result<T, ClassLoadingError>, before: Seq<PendingClass>, load: ClassLoad, loader: ClassLoader) -> bool {
    let k: int = load.pending@.len() as int;
    ||| interface_refused(res, load, loader)
    ||| (k < before.len() && define_failure(res, before[k].parsed, load.pending@))
}

impl ClassLoad {
    /// Whether every class that a waiting class found is in `loader`, and
    /// no waiting class found more interfaces than it names.
    pub open spec fn wf(&self, loader: ClassLoader) -> bool {
        &&& self.pending@.len() > 0 ==> self.pending@[0].name@ == self.target@
        &&& self.pending@.len() == 0 ==> self.reading@ == self.target@
        &&& forall|k: int| 0 <= k < self.pending@.len() ==> {
            let p = #[trigger] self.pending@[k];
            &&& p.super_id matches Some(s) ==> s < loader.classes@.len()
            &&& forall|j: int| 0 <= j < p.interfaces@.len() ==> #[trigger] p.interfaces@[j] < loader.classes@.len()
            &&& p.interfaces@.len() <= p.interface_names@.len()
        }
    }

    /// The error that loading ends with when the class at the top failed
    /// with `e`.
    fn wrap_error(&self, top: usize, e: ClassLoadingError) -> (res: ClassLoadingError)
        requires
            top <= self.pending@.len(),
            forall|k: int| 0 <= k < top ==> {
                let p = #[trigger] self.pending@[k];
                needs_super(p) || p.interfaces@.len() < p.interface_names@.len()
            },
        ensures
            fails_as(Err::<(), ClassLoadingError>(res), self.pending@.take(top as int), e),
    {
        let ghost ps = self.pending@.take(top as int);
        let mut cur = e;
        let mut i: usize = top;
        while i > 0
            invariant
                i <= top,
                top <= self.pending@.len(),
                ps == self.pending@.take(top as int),
                forall|k: int| 0 <= k < top ==> {
                    let p = #[trigger] self.pending@[k];
                    needs_super(p) || p.interfaces@.len() < p.interface_names@.len()
                },
                i == top ==> cur == e,
                i < top ==> (cur matches ClassLoadingError::NoClassDefFoundError(m) && m@ == wrap_text(ps, i as int, error_text(e))),
            decreases i,
        {
            let p = &self.pending[i - 1];
            assert(ps[i - 1] == *p);
            let text = cur.describe();
            let (prefix, waited) = match &p.super_name {
                Some(s) => {
                    if p.super_id.is_none() {
                        ("Failed to load superclass ", s.clone())
                    } else {
                        ("Failed to load interface ", p.interface_names[p.interfaces.len()].clone())
                    }
                },
                None => ("Failed to load interface ", p.interface_names[p.interfaces.len()].clone()),
            };
            let a = concat(prefix, waited.as_str());
            let b = concat(a.as_str(), ": ");
            let m = concat(b.as_str(), text.as_str());
            proof {
                assert(prefix@ + waited@ == wrap_prefix(ps[i - 1]) + awaited(ps[i - 1]));
            }
            cur = ClassLoadingError::NoClassDefFoundError(m);
            i = i - 1;
        }
        cur
    }
}

impl ClassLoader {
    /// Starts loading the class `name`: done at once when it is loaded;
    /// else its file is asked for.
    pub fn begin_load(&self, name: &str) -> (res: (ClassLoad, LoadRequest))
        ensures
            res.0.target@ == name@,
            res.0.pending@.len() == 0,
            res.0.wf(*self),
            match spec_find_class(self.classes@, name@) {
                Some(i) => res.1 matches LoadRequest::Done(r) && r == i,
                None => res.1 matches LoadRequest::Read(n) && n@ == name@ && res.0.reading@ == name@,
            },
    {
        let load = ClassLoad { target: name.to_string(), pending: Vec::new(), reading: name.to_string() };
        match self.find_loaded_class(name) {
            Some(i) => (load, LoadRequest::Done(i)),
            None => (load, LoadRequest::Read(name.to_string())),
        }
    }

    /// Whether a class named `name` is waiting in `load`.
    fn is_pending(load: &ClassLoad, name: &str) -> (res: bool)
        ensures
            res == exists|k: int| 0 <= k < load.pending@.len() && (#[trigger] load.pending@[k]).name@ == name@,
    {
        let mut k: usize = 0;
        while k < load.pending.len()
            invariant
                k <= load.pending@.len(),
                forall|j: int| 0 <= j < k ==> (#[trigger] load.pending@[j]).name@ != name@,
            decreases load.pending@.len() - k,
        {
            if str_eq(load.pending[k].name.as_str(), name) {
                return true;
            }
            k = k + 1;
        }
        false
    }

    /// Goes on loading with the bytes of the class file that was asked
    /// for, or the reason it could not be read. The file is checked and
    /// parsed; its superclass and interfaces are loaded first, each one
    /// asked for in turn; then the class is added to the table. An error
    /// ends the loading, wrapped by each class that waited for the one that
    /// failed.
    pub fn continue_load(&mut self, load: &mut ClassLoad, data: Result<Vec<u8>, ClassLoadingError>) -> (res: Result<LoadRequest, ClassLoadingError>)
        requires
            old(self).wf(),
            old(load).wf(*old(self)),
            forall|k: int| 0 <= k < old(load).pending@.len() ==> {
                let p = #[trigger] old(load).pending@[k];
                needs_super(p) || p.interfaces@.len() < p.interface_names@.len()
            },
        ensures
            final(self).wf(),
            final(load).wf(*final(self)),
            forall|k: int| 0 <= k < final(load).pending@.len() ==> {
                let p = #[trigger] final(load).pending@[k];
                needs_super(p) || p.interfaces@.len() < p.interface_names@.len()
            },
            final(self).classes@.len() >= old(self).classes@.len(),
            final(self).classes@.take(old(self).classes@.len() as int) == old(self).classes@,
            final(load).target == old(load).target,
            final(load).pending@.len() <= old(load).pending@.len() + 1,
            forall|k: int| 0 <= k < final(load).pending@.len() ==> (#[trigger] final(load).pending@[k]).name@
                == if k < old(load).pending@.len() { old(load).pending@[k].name@ } else { old(load).reading@ },
            data matches Err(e) ==> fails_as(res, old(load).pending@, e) && final(self).classes@ == old(self).classes@,
            data matches Ok(bytes) ==> {
                let pending = old(load).pending@;
                let name = old(load).reading@;
                let unchanged = final(self).classes@ == old(self).classes@;
                if !has_magic(bytes@) {
                    fails_reading(res, pending, "ClassFormatError: "@ + "Invalid class file magic number"@) && unchanged
                } else if bytes@.len() < 8 {
                    fails_reading(res, pending, "ClassFormatError: "@ + "Class file too short"@) && unchanged
                } else if forall|cf: ClassFile| !class_file_at(bytes@, cf) {
                    fails_reading(res, pending, "Parse error: "@ + "Malformed class file"@) && unchanged
                } else if exists|k: int| 0 <= k < pending.len() && (#[trigger] pending[k]).name@ == name {
                    fails_reading(res, pending, "Class circularity error: "@ + name) && unchanged
                } else if forall|cf: ClassFile| #[trigger] class_file_at(bytes@, cf)
                    ==> spec_class_names(cf.constant_pool.entries(), cf.interfaces@) is None {
                    fails_reading(res, pending, "ClassFormatError: "@ + "Invalid interface index"@) && unchanged
                } else {
                    let k: int = final(load).pending@.len() as int;
                    &&& res is Err ==> {
                        ||| interface_refused(res, *final(load), *final(self))
                        ||| (k < pending.len() && define_failure(res, pending[k].parsed, final(load).pending@))
                        ||| (k == pending.len() && exists|cf: ClassFile| #[trigger] class_file_at(bytes@, cf)
                            && define_failure(res, cf, final(load).pending@))
                    }
                    &&& (forall|j: int| 0 <= j < pending.len() ==> definable(#[trigger] pending[j].parsed))
                        && (forall|cf: ClassFile| #[trigger] class_file_at(bytes@, cf) ==> definable(cf))
                        ==> res is Ok || interface_refused(res, *final(load), *final(self))
                }
            },
            res matches Ok(LoadRequest::Read(n)) ==> n@ == final(load).reading@
                && final(load).pending@.len() > 0
                && n@ == awaited(final(load).pending@.last())
                && spec_find_class(final(self).classes@, n@) is None,
            res matches Ok(LoadRequest::Done(i)) ==> i < final(self).classes@.len()
                && final(self).classes@[i as int].class_name@ == old(load).target@
                && final(load).pending@.len() == 0
                && spec_find_class(final(self).classes@, old(load).target@) == Some(i as int),
    {
        let top = load.pending.len();
        assert(load.pending@.take(top as int) =~= load.pending@);
        let bytes = match data {
            Ok(b) => b,
            Err(e) => {
                return Err(load.wrap_error(top, e));
            },
        };
        if let Err(e) = ClassLoader::verify_class_format(bytes.as_slice()) {
            return Err(load.wrap_error(top, e));
        }
        let ghost b = bytes@;
        let parsed = match ClassFileReader::new(bytes).parse() {
            Ok(p) => p,
            Err(_) => {
                return Err(load.wrap_error(top, ClassLoadingError::ParseError("Malformed class file".to_string())));
            },
        };
        let name = load.reading.clone();
        if ClassLoader::is_pending(load, name.as_str()) {
            return Err(load.wrap_error(top, ClassLoadingError::ClassCircularityError(name)));
        }
        let super_name = if !str_eq(name.as_str(), "java/lang/Object") {
            match parsed.get_super_class_name() {
                Some(s) => Some(s.clone()),
                None => None,
            }
        } else {
            None
        };
        let interface_names = match parsed.get_interfaces_name() {
            Some(v) => v,
            None => {
                proof {
                    assert forall|cf: ClassFile| #[trigger] class_file_at(b, cf)
                        implies spec_class_names(cf.constant_pool.entries(), cf.interfaces@) is None by {
                        lemma_class_names_agree(b, cf, parsed);
                    }
                }
                return Err(load.wrap_error(top, ClassLoadingError::ClassFormatError("Invalid interface index".to_string())));
            },
        };
        proof {
            if top == 0 {
                assert(load.reading@ == load.target@);
            }
        }
        let ghost cf = parsed;
        load.pending.push(PendingClass { name, parsed, super_name, super_id: None, interface_names, interfaces: Vec::new() });
        let ghost before = load.pending@;
        let res = self.resolve(load);
        proof {
            let k: int = load.pending@.len() as int;
            if res is Err && k == before.len() - 1 {
                assert(before[k].parsed == cf);
                assert(class_file_at(b, cf));
            }
            if k < before.len() - 1 {
                assert(before[k] == old(load).pending@[k]);
            }
        }
        res
    }

    /// Loads what the waiting classes need, from the top: asks for the file
    /// of the first class that is not loaded yet, and adds each class whose
    /// superclass and interfaces are all found; a class that is in the
    /// table by then is taken as it is, so no name is added twice.
    fn resolve(&mut self, load: &mut ClassLoad) -> (res: Result<LoadRequest, ClassLoadingError>)
        requires
            old(self).wf(),
            old(load).wf(*old(self)),
            old(load).pending@.len() > 0,
            forall|k: int| 0 <= k < old(load).pending@.len() - 1 ==> {
                let p = #[trigger] old(load).pending@[k];
                needs_super(p) || p.interfaces@.len() < p.interface_names@.len()
            },
        ensures
            final(self).wf(),
            final(load).wf(*final(self)),
            forall|k: int| 0 <= k < final(load).pending@.len() ==> {
                let p = #[trigger] final(load).pending@[k];
                needs_super(p) || p.interfaces@.len() < p.interface_names@.len()
            },
            final(self).classes@.len() >= old(self).classes@.len(),
            final(self).classes@.take(old(self).classes@.len() as int) == old(self).classes@,
            final(load).target == old(load).target,
            final(load).pending@.len() <= old(load).pending@.len(),
            forall|k: int| 0 <= k < final(load).pending@.len() ==> (#[trigger] final(load).pending@[k]).name == old(load).pending@[k].name
                && final(load).pending@[k].parsed == old(load).pending@[k].parsed,
            res is Err ==> resolve_failure(res, old(load).pending@, *final(load), *final(self)),
            res matches Ok(LoadRequest::Read(n)) ==> n@ == final(load).reading@
                && final(load).pending@.len() > 0
                && n@ == awaited(final(load).pending@.last())
                && spec_find_class(final(self).classes@, n@) is None,
            res matches Ok(LoadRequest::Done(i)) ==> i < final(self).classes@.len()
                && final(self).classes@[i as int].class_name@ == old(load).target@
                && final(load).pending@.len() == 0
                && spec_find_class(final(self).classes@, old(load).target@) == Some(i as int),
    {
        let ghost classes0 = self.classes@;
        loop
            invariant
                self.wf(),
                load.wf(*self),
                load.pending@.len() > 0,
                forall|k: int| 0 <= k < load.pending@.len() - 1 ==> {
                    let p = #[trigger] load.pending@[k];
                    needs_super(p) || p.interfaces@.len() < p.interface_names@.len()
                },
                classes0 == old(self).classes@,
                self.classes@.len() >= classes0.len(),
                self.classes@.take(classes0.len() as int) == classes0,
                load.target == old(load).target,
                load.pending@.len() <= old(load).pending@.len(),
                forall|k: int| 0 <= k < load.pending@.len() ==> (#[trigger] load.pending@[k]).name == old(load).pending@[k].name
                    && load.pending@[k].parsed == old(load).pending@[k].parsed,
            decreases total_work(load.pending@),
        {
            let top = load.pending.len() - 1;
            let ghost ps = load.pending@;
            let needs = load.pending[top].super_name.is_some() && load.pending[top].super_id.is_none();
            if needs {
                let s = match &load.pending[top].super_name {
                    Some(s) => s.clone(),
                    None => {
                        assert(false);
                        unreached()
                    },
                };
                match self.find_loaded_class(s.as_str()) {
                    Some(i) => {
                        load.pending[top].super_id = Some(i);
                        proof {
                            assert(load.pending@.drop_last() =~= ps.drop_last());
                        }
                    },
                    None => {
                        load.reading = s.clone();
                        return Ok(LoadRequest::Read(s));
                    },
                }
            } else if load.pending[top].interfaces.len() < load.pending[top].interface_names.len() {
                let k = load.pending[top].interfaces.len();
                let n = load.pending[top].interface_names[k].clone();
                match self.find_loaded_class(n.as_str()) {
                    Some(i) => {
                        if !self.check_interface(i) {
                            let a = concat("Class ", n.as_str());
                            let m = concat(a.as_str(), " is not an interface");
                            proof {
                                assert(load.pending@.take(top as int) =~= load.pending@.drop_last());
                                assert("Incompatible class change error: "@ + m@ =~= "Incompatible class change error: "@
                                    + "Class "@ + n@ + " is not an interface"@);
                            }
                            return Err(load.wrap_error(top, ClassLoadingError::IncompatibleClassChangeError(m)));
                        }
                        load.pending[top].interfaces.push(i);
                        proof {
                            assert(load.pending@.drop_last() =~= ps.drop_last());
                        }
                    },
                    None => {
                        load.reading = n.clone();
                        return Ok(LoadRequest::Read(n));
                    },
                }
            } else {
                let p = match load.pending.pop() {
                    Some(p) => p,
                    None => {
                        assert(false);
                        unreached()
                    },
                };
                proof {
                    assert(load.pending@ =~= ps.drop_last());
                }
                if load.pending.len() == 0 {
                    load.reading = load.target.clone();
                }
                let ghost len0 = self.classes@.len();
                assert(self.classes@.len() == self.classes.len());
                let ghost pname = p.name;
                let ghost pparsed = p.parsed;
                assert(pparsed == old(load).pending@[top as int].parsed);
                let id = match self.find_loaded_class(p.name.as_str()) {
                    Some(i) => {
                        proof {
                            lemma_find_class_bound(self.classes@, pname@);
                        }
                        i
                    },
                    None => {
                        let id = match self.define_class(p.name, p.super_id, p.interfaces, p.parsed) {
                            Ok(id) => id,
                            Err(e) => {
                                proof {
                                    assert(load.pending@.take(top as int) =~= load.pending@);
                                }
                                return Err(load.wrap_error(top, e));
                            },
                        };
                        proof {
                            assert(self.classes@.take(classes0.len() as int) =~= classes0) by {
                                assert(self.classes@.take(len0 as int).take(classes0.len() as int) =~= self.classes@.take(
                                    classes0.len() as int));
                            }
                        }
                        id
                    },
                };
                if load.pending.len() == 0 {
                    assert(pname@ == old(load).target@);
                    return Ok(LoadRequest::Done(id));
                }
            }
        }
    }
}

} // verus!
