//! The virtual machine: the call stack, the loaded classes and the heap,
//! and the interpreter that runs the current method one instruction at a
//! time.
//!
//! The interpreter asks its host for what it cannot do itself: reading a
//! class file that an instruction needs, calling a native method and
//! computing on floating-point values. `VM::step` returns such a request;
//! the host answers it and calls `step` again, or `finish_native` and
//! `complete` with what the request produced.
//!
//! Each running method occupies a level of the interpreter: a call pushes a
//! level, which ends when its method returns or runs past its last
//! instruction. The level below then moves past its call instruction.

use std::sync::Arc;
use vstd::prelude::*;
use crate::allocation::array_has_class;
use crate::attribute::Code;
use crate::class_loader::{spec_find_class, ClassLoader};
use crate::constant_pool::{spec_class_name, spec_entry, spec_utf8, ConstantClassInfo, ConstantInfo, ConstantStringInfo};
use crate::execute::{index16, is_float_op, is_well_formed, join_index, op_wf, spec_is_float_op, widen_index};
use crate::execute_field::spec_field_ref;
use crate::execute_method::spec_method_ref;
use crate::execute_object::new_class_name;
use crate::heap::Heap;
use crate::instruction::{Instruction, Operation};
use crate::jvm_error::JVMError;
use crate::loaded_class::{spec_code_of, LoadedClass, NameDes};
use crate::object::Object;
use crate::runtime::{arc_clone, ExecutionResult, Frame, Stack, Value};
use crate::text::str_to_chars;

verus! {

/// The name of the class whose `Class` entry is at `index`, when the entry
/// is one.
pub open spec fn class_entry_name(cp: Seq<ConstantInfo>, index: u16) -> Option<Seq<char>> {
    match new_class_name(cp, index) {
        Ok(n) => Some(n),
        Err(_) => None,
    }
}

/// The class that `ldc` of the entry at `index` creates an instance of.
pub open spec fn constant_class(cp: Seq<ConstantInfo>, index: u16) -> Option<Seq<char>> {
    match spec_entry(cp, index) {
        Some(ConstantInfo::String(_)) => Some("java/lang/String"@),
        Some(ConstantInfo::Class(ConstantClassInfo(name_index))) => spec_utf8(cp, name_index),
        _ => None,
    }
}

/// The class that the instruction `op` loads before it runs, on the
/// constant pool `cp`, the operands `ops` and the heap objects `arena`:
/// the class that `ldc` creates an instance of, that `new` instantiates,
/// that `anewarray` makes an array of, that declares the field of
/// `getstatic` and `putstatic` or the method of `invokestatic`,
/// `invokespecial` and `invokeinterface`; for a non-null reference on top,
/// the class that `checkcast` and `instanceof` test, and
/// `java/lang/Throwable` for `athrow` of an object of a class.
pub open spec fn needed_class(op: Operation, cp: Seq<ConstantInfo>, ops: Seq<Value>, arena: Seq<Object>) -> Option<Seq<char>> {
    match op {
        Operation::Ldc(i) => constant_class(cp, i as u16),
        Operation::Ldcw(a, b) => constant_class(cp, index16(a, b)),
        Operation::New(a, b) => class_entry_name(cp, index16(a, b)),
        Operation::Anewarray(a, b) => match class_entry_name(cp, index16(a, b)) {
            Some(n) => if array_has_class(n) { Some(n) } else { None },
            None => None,
        },
        Operation::Getstatic(a, b) | Operation::Putstatic(a, b) => match spec_field_ref(cp, index16(a, b)) {
            Ok((c, _, _)) => Some(c),
            Err(_) => None,
        },
        Operation::Invokestatic(a, b) | Operation::Invokespecial(a, b) | Operation::Invokeinterface(a, b, _, _) => match spec_method_ref(
            cp,
            index16(a, b),
        ) {
            Ok((c, _, _)) => Some(c),
            Err(_) => None,
        },
        Operation::Checkcast(a, b) | Operation::Instanceof(a, b) => if ops.len() > 0 && (ops.last() matches Value::Reference(Some(_))) {
            spec_class_name(cp, index16(a, b))
        } else {
            None
        },
        Operation::Athrow => if ops.len() > 0 && (ops.last() matches Value::Reference(Some(o)) && o < arena.len() && arena[o as int].class is Some) {
            Some("java/lang/Throwable"@)
        } else {
            None
        },
        _ => None,
    }
}

/// A request of the interpreter to its host, or the news that the run
/// moved on or ended.
#[derive(Debug)]
pub enum Step {
    /// An instruction ran or a level ended; the run goes on.
    Continue,
    /// The outermost level ended: the run is over.
    Finished,
    /// The class named here must be loaded before the current instruction
    /// can run; then `step` runs it.
    LoadClass(String),
    /// The current instruction computes on floating-point values; the host
    /// runs it on the current frame and hands the outcome to `complete`.
    FloatOp,
    /// A call of the native method `name_des` of the class `class_name`
    /// with `args`, in reverse order of the parameters; the host makes it
    /// and hands the value it returns to `finish_native`.
    Native { class_name: String, name_des: NameDes, args: Vec<Value> },
}

/// A copy of the frames, as roots of a collection.
fn frames_snapshot(frames: &Vec<Frame>) -> (res: Vec<Frame>)
    ensures
        res@.len() == frames@.len(),
        forall|i: int| 0 <= i < frames@.len() ==> (#[trigger] res@[i]).same_frame(frames@[i]),
{
    let mut res: Vec<Frame> = Vec::new();
    let mut i: usize = 0;
    while i < frames.len()
        invariant
            i <= frames@.len(),
            res@.len() == i,
            forall|k: int| 0 <= k < i ==> (#[trigger] res@[k]).same_frame(frames@[k]),
        decreases frames@.len() - i,
    {
        res.push(frames[i].clone());
        i = i + 1;
    }
    res
}

/// Whether descriptor `d` ends with `V`: the method returns nothing.
pub open spec fn returns_void(d: Seq<char>) -> bool {
    d.len() > 0 && d.last() == 'V'
}

/// Whether `new` is `old` with `push` pushed on its operands, when there is
/// one, and moved to the next instruction when `bump` holds.
pub open spec fn frame_after(old: Frame, new: Frame, push: Option<Value>, bump: bool) -> bool {
    &&& new.constant_pool == old.constant_pool
    &&& new.method_name_des == old.method_name_des
    &&& new.code == old.code
    &&& new.locals@ == old.locals@
    &&& new.operands@ == (match push {
        Some(v) => old.operands@.push(v),
        None => old.operands@,
    })
    &&& new.pc == (if bump { old.pc + 1 } else { old.pc as int })
}

/// Whether the frames `new` are `old` with `push` pushed on frame `at` and
/// frame `bump` moved to the next instruction.
pub open spec fn frames_after(old: Seq<Frame>, new: Seq<Frame>, at: int, push: Option<Value>, bump: int) -> bool {
    &&& new.len() == old.len()
    &&& forall|j: int| 0 <= j < old.len() ==> frame_after(old[j], #[trigger] new[j], if j == at { push } else { None }, j == bump)
}

/// Whether ending the top level of `levels` on the frames `frames`, after
/// `push` is pushed on frame `at`, gives the levels `new_levels`, the
/// frames `new_frames` and `res`: the run is over when no level is left;
/// else the level below moves past its call.
pub open spec fn level_ended(
    levels: Seq<usize>,
    frames: Seq<Frame>,
    at: int,
    push: Option<Value>,
    max_stack: u16,
    new_levels: Seq<usize>,
    new_frames: Seq<Frame>,
    res: Result<Step, JVMError>,
) -> bool {
    let rest = levels.drop_last();
    if push is Some && frames[at].operands@.len() >= max_stack {
        res matches Err(JVMError::StackOverflow)
    } else if rest.len() == 0 {
        &&& res matches Ok(Step::Finished)
        &&& new_levels == rest
        &&& frames_after(frames, new_frames, at, push, -1)
    } else if rest.last() >= frames.len() {
        res matches Err(JVMError::NoFrame)
    } else if frames[rest.last() as int].pc == usize::MAX {
        res matches Err(JVMError::Other(_))
    } else {
        &&& res matches Ok(Step::Continue)
        &&& new_levels == rest
        &&& frames_after(frames, new_frames, at, push, rest.last() as int)
    }
}

/// The handler address in the exception table of `f` that catches the
/// class named `name`, or a subclass of it, at the current instruction of
/// `f`.
pub open spec fn handler_of(classes: Seq<LoadedClass>, f: Frame, name: Seq<char>) -> Option<u16> {
    if f.pc < f.code.code@.len() {
        crate::execute_exception::spec_handler(classes, f.code.exception_table@, f.constant_pool.entries(),
            f.code.code@[f.pc as int].0, name)
    } else {
        None
    }
}

/// The topmost frame from `fi` down to the first whose handler catches
/// the class named `name`, with that handler's address.
pub open spec fn catching_frame(classes: Seq<LoadedClass>, frames: Seq<Frame>, fi: int, name: Seq<char>) -> Option<(int, u16)>
    decreases fi + 1,
{
    if fi < 0 {
        None
    } else {
        match handler_of(classes, frames[fi], name) {
            Some(h) => Some((fi, h)),
            None => catching_frame(classes, frames, fi - 1, name),
        }
    }
}

/// The levels `levels` once every level that runs a frame above `g` has
/// ended: the top level then runs frame `g`.
pub open spec fn levels_down_to(levels: Seq<usize>, g: usize) -> Seq<usize>
    decreases levels.len(),
{
    if levels.len() > 0 && levels.last() > g {
        levels_down_to(levels.drop_last(), g)
    } else if levels.len() > 0 && levels.last() == g {
        levels
    } else {
        levels.push(g)
    }
}

/// Whether entering the handler at address `h` turns `old` into `new` and
/// gives `res`: the operands become one null reference, and the position
/// the first instruction at `h`.
pub open spec fn handler_entered(old: Frame, new: Frame, h: u16, res: Result<Step, JVMError>) -> bool {
    if old.code.max_stack == 0 {
        res matches Err(JVMError::StackOverflow)
    } else if exists|i: int| #[trigger] crate::attribute::first_index_at_address(old.code.code@, h as u32, i) {
        &&& res matches Ok(Step::Continue)
        &&& new.constant_pool == old.constant_pool
        &&& new.method_name_des == old.method_name_des
        &&& new.code == old.code
        &&& new.locals@ == old.locals@
        &&& new.operands@ == seq![Value::Reference(None)]
        &&& crate::attribute::first_index_at_address(old.code.code@, h as u32, new.pc as int)
    } else {
        res matches Err(JVMError::InvalidOffset(_))
    }
}

/// Whether the frames `new` are `old` but for frame `i`.
pub open spec fn others_same(old: Seq<Frame>, new: Seq<Frame>, i: int) -> bool {
    &&& new.len() == old.len()
    &&& forall|j: int| 0 <= j < old.len() && j != i ==> new[j] == old[j]
}

/// Whether throwing the exception class `name` from frame `fi`, the top
/// level's, of the frames `frames` gives `res`, the levels `new_levels`
/// and the frames `new_frames`: the exception unwinds from frame `fi`
/// down to the first frame whose handler catches it; the frames above
/// that one are dropped, their levels end, and the handler is entered.
/// An exception that no frame catches ends the run.
pub open spec fn thrown(
    classes: Seq<LoadedClass>,
    levels: Seq<usize>,
    frames: Seq<Frame>,
    fi: int,
    name: Seq<char>,
    new_levels: Seq<usize>,
    new_frames: Seq<Frame>,
    res: Result<Step, JVMError>,
) -> bool {
    match catching_frame(classes, frames, fi, name) {
        None => res matches Err(JVMError::UncaughtException(n)) && n@ == name,
        Some((g, h)) => {
            &&& new_levels == levels_down_to(levels, g as usize)
            &&& new_frames.len() == g + 1
            &&& forall|j: int| 0 <= j < g ==> new_frames[j] == frames[j]
            &&& handler_entered(frames[g], new_frames[g], h, res)
        },
    }
}

/// Whether handing the outcome `result` of the current instruction of the
/// machine `old` to the interpreter gives the machine `new` and `res`.
pub open spec fn completed(old: VM, new: VM, result: ExecutionResult, res: Result<Step, JVMError>) -> bool {
    let levels = old.levels@;
    let frames = old.stack.frames@;
    if levels.len() == 0 || levels.last() >= frames.len() {
        res matches Err(JVMError::NoFrame) && new == old
    } else {
        let fi = levels.last() as int;
        match result {
            ExecutionResult::Continue => if frames[fi].pc == usize::MAX {
                res matches Err(JVMError::Other(_))
            } else {
                &&& res matches Ok(Step::Continue)
                &&& new.levels@ == levels
                &&& frames_after(frames, new.stack.frames@, fi, None, fi)
            },
            ExecutionResult::Invoke(f) => if frames.len() >= old.stack.max_stack_size {
                res matches Err(JVMError::StackOverflow)
            } else {
                &&& res matches Ok(Step::Continue)
                &&& new.stack.frames@ == frames.push(f)
                &&& new.levels@ == levels.push(frames.len() as usize)
            },
            ExecutionResult::Return(v) => if fi == 0 {
                level_ended(levels, frames, 0, None, 0, new.levels@, new.stack.frames@, res)
            } else {
                let below = frames.drop_last();
                level_ended(levels, below, fi - 1, v, below[fi - 1].code.max_stack, new.levels@, new.stack.frames@, res)
            },
            ExecutionResult::Throw(name) => thrown(old.class_loader.classes@, levels, frames, fi, name@, new.levels@, new.stack.frames@,
                res),
            ExecutionResult::Native { class_name, name_des, args } => {
                &&& res matches Ok(Step::Native { class_name: c, name_des: nd, args: a })
                &&& c == class_name && nd == name_des && a == args
                &&& new.levels@ == levels
                &&& new.stack.frames@ == frames
            },
        }
    }
}

/// Whether running the instruction `op` on frame `fi` of `old` gives the
/// machine `mid` and the outcome `r`.
pub open spec fn executed(old: VM, mid: VM, fi: int, op: Operation, r: Result<ExecutionResult, JVMError>) -> bool {
    &&& mid.levels == old.levels
    &&& mid.stack.max_stack_size == old.stack.max_stack_size
    &&& others_same(old.stack.frames@, mid.stack.frames@, fi)
    &&& crate::execute::frame_effect(op, old.stack.frames@[fi], mid.stack.frames@[fi], r)
    &&& crate::execute::object_effect(op, old.stack.frames@[fi], mid.stack.frames@[fi], old.heap, mid.heap, old.class_loader,
        mid.class_loader, r)
    &&& mid.heap.wf()
    &&& mid.class_loader.wf()
    &&& !crate::execute::reaches_out(op) ==> mid.heap == old.heap && mid.class_loader == old.class_loader
}

/// Whether one step of the interpreter on the machine `old` gives the
/// machine `new` and `res`: with no level, or no frame for the top level,
/// the step fails with `NoFrame` and changes nothing; a level
/// whose method ran past its last instruction ends; a floating-point
/// instruction, and one that needs a class not loaded yet, are handed to
/// the host; any other instruction runs, and its outcome is handed on as
/// `completed` says.
pub open spec fn stepped(old: VM, new: VM, res: Result<Step, JVMError>) -> bool {
    let levels = old.levels@;
    let frames = old.stack.frames@;
    if levels.len() == 0 || levels.last() >= frames.len() {
        res matches Err(JVMError::NoFrame) && new == old
    } else {
        let fi = levels.last() as int;
        let f = frames[fi];
        if f.pc >= f.code.code@.len() {
            &&& level_ended(levels, frames, fi, None, f.code.max_stack, new.levels@, new.stack.frames@, res)
            &&& new.heap == old.heap
            &&& new.class_loader == old.class_loader
        } else {
            let op = f.code.code@[f.pc as int].1;
            let needed = needed_class(op, f.constant_pool.entries(), f.operands@, old.heap.arena@);
            if spec_is_float_op(op) {
                res matches Ok(Step::FloatOp) && new == old
            } else if !op_wf(op) {
                res matches Err(JVMError::Other(_))
            } else if needed matches Some(n) && spec_find_class(old.class_loader.classes@, n) is None {
                res matches Ok(Step::LoadClass(m)) && m@ == needed.unwrap() && new == old
            } else {
                exists|mid: VM, r: Result<ExecutionResult, JVMError>| {
                    &&& #[trigger] executed(old, mid, fi, op, r)
                    &&& match r {
                        Err(e) => res == Err::<Step, JVMError>(e),
                        Ok(x) => {
                            &&& completed(mid, new, x, res)
                            &&& new.heap == mid.heap
                            &&& new.class_loader == mid.class_loader
                        },
                    }
                }
            }
        }
    }
}

/// The virtual machine.
pub struct VM {
    pub stack: Stack,
    pub class_loader: ClassLoader,
    pub heap: Heap,
    /// The frame that each level of the interpreter runs, the top last.
    pub levels: Vec<usize>,
}

impl VM {
    /// Whether the heap and the table of classes are well formed.
    pub open spec fn wf(&self) -> bool {
        &&& self.heap.wf()
        &&& self.class_loader.wf()
    }

    /// A machine with a heap of `heap_size` slots, no class loaded and no
    /// method running.
    pub fn new(heap_size: usize) -> (res: VM)
        ensures
            res.wf(),
            res.heap.size == heap_size,
            res.heap.arena@.len() == 0,
            res.class_loader.classes@.len() == 0,
            res.stack.frames@.len() == 0,
            res.levels@.len() == 0,
    {
        VM { stack: Stack::new(), class_loader: ClassLoader::new(), heap: Heap::new(heap_size), levels: Vec::new() }
    }

    /// Starts the run of `main(String[])` of the loaded class `class_name`:
    /// its frame becomes the first level.
    pub fn invoke_main(&mut self, class_name: &str) -> (res: Result<(), JVMError>)
        requires
            old(self).wf(),
        ensures
            final(self).wf(),
            final(self).heap == old(self).heap,
            final(self).class_loader == old(self).class_loader,
            final(self).stack.max_stack_size == old(self).stack.max_stack_size,
            res is Err ==> final(self).stack.frames@ == old(self).stack.frames@ && final(self).levels@ == old(self).levels@,
            match spec_find_class(old(self).class_loader.classes@, class_name@) {
                None => res matches Err(JVMError::Other(m)) && m@ == "Class not loaded: "@ + class_name@,
                Some(c) => {
                    let class = old(self).class_loader.classes@[c as int];
                    match spec_code_of(class.methods@, class.constant_pool.entries(), "main"@, "([Ljava/lang/String;)V"@) {
                        None => res matches Err(JVMError::MethodNotFound { .. }),
                        Some(code) => if old(self).stack.frames@.len() >= old(self).stack.max_stack_size {
                            res matches Err(JVMError::StackOverflow)
                        } else {
                            let f = final(self).stack.frames@.last();
                            &&& res is Ok
                            &&& final(self).stack.frames@.len() == old(self).stack.frames@.len() + 1
                            &&& final(self).stack.frames@.drop_last() == old(self).stack.frames@
                            &&& f.method_name_des.name@ == "main"@
                            &&& f.method_name_des.des@ == "([Ljava/lang/String;)V"@
                            &&& f.constant_pool == class.constant_pool
                            &&& f.code == code
                            &&& f.pc == 0
                            &&& f.locals@ == Seq::new(code.max_locals as nat, |i: int| Value::Default)
                            &&& f.operands@.len() == 0
                            &&& final(self).levels@ == old(self).levels@.push(old(self).stack.frames@.len() as usize)
                        },
                    }
                },
            },
    {
        let main_class = match self.class_loader.find_loaded_class(class_name) {
            Some(c) => c,
            None => {
                return Err(JVMError::Other(crate::text::concat("Class not loaded: ", class_name)));
            },
        };
        let main_name_des = NameDes { name: "main".to_string(), des: "([Ljava/lang/String;)V".to_string() };
        proof {
            reveal_strlit("main");
            reveal_strlit("([Ljava/lang/String;)V");
        }
        let (method_class, main_code) = self.class_loader.lookup_method(main_class, &main_name_des)?;
        let main_frame = Frame::new(&self.class_loader.classes[method_class], &main_name_des, main_code);
        let n = self.stack.frames.len();
        self.stack.push_frame(main_frame)?;
        self.levels.push(n);
        assert(self.stack.frames@.drop_last() =~= old(self).stack.frames@);
        Ok(())
    }

    /// Starts the run of the static initializer `<clinit>()V` of the loaded
    /// class `class`, when it declares one: its frame becomes a new level,
    /// and `true` is given; a class without one gives `false` and nothing
    /// changes. The host runs the level to its end and then marks the class
    /// initialized.
    pub fn invoke_clinit(&mut self, class: usize) -> (res: Result<bool, JVMError>)
        requires
            old(self).wf(),
            class < old(self).class_loader.classes@.len(),
        ensures
            final(self).wf(),
            final(self).heap == old(self).heap,
            final(self).class_loader == old(self).class_loader,
            final(self).stack.max_stack_size == old(self).stack.max_stack_size,
            ({
                let c = old(self).class_loader.classes@[class as int];
                match spec_code_of(c.methods@, c.constant_pool.entries(), "<clinit>"@, "()V"@) {
                    None => res == Ok::<bool, JVMError>(false) && *final(self) == *old(self),
                    Some(code) => if old(self).stack.frames@.len() >= old(self).stack.max_stack_size {
                        res matches Err(JVMError::StackOverflow) && final(self).stack.frames@ == old(self).stack.frames@
                            && final(self).levels@ == old(self).levels@
                    } else {
                        let f = final(self).stack.frames@.last();
                        &&& res == Ok::<bool, JVMError>(true)
                        &&& final(self).stack.frames@.len() == old(self).stack.frames@.len() + 1
                        &&& final(self).stack.frames@.drop_last() == old(self).stack.frames@
                        &&& f.method_name_des.name@ == "<clinit>"@
                        &&& f.method_name_des.des@ == "()V"@
                        &&& f.constant_pool == c.constant_pool
                        &&& f.code == code
                        &&& f.pc == 0
                        &&& f.operands@.len() == 0
                        &&& final(self).levels@ == old(self).levels@.push(old(self).stack.frames@.len() as usize)
                    },
                }
            }),
    {
        let name_des = NameDes { name: "<clinit>".to_string(), des: "()V".to_string() };
        proof {
            reveal_strlit("<clinit>");
            reveal_strlit("()V");
            assert(crate::class_loader::class_wf(self.class_loader.classes@[class as int], class as int));
        }
        let code = match self.class_loader.classes[class].get_code_from_method(&name_des) {
            Some(code) => code,
            None => {
                return Ok(false);
            },
        };
        let frame = Frame::new(&self.class_loader.classes[class], &name_des, code);
        let n = self.stack.frames.len();
        self.stack.push_frame(frame)?;
        self.levels.push(n);
        assert(self.stack.frames@.drop_last() =~= old(self).stack.frames@);
        Ok(true)
    }

    /// The frame that the top level runs.
    pub fn current_frame_index(&self) -> (res: Option<usize>)
        ensures
            self.levels@.len() == 0 ==> res is None,
            self.levels@.len() > 0 ==> res == Some(self.levels@.last()),
    {
        if self.levels.len() == 0 {
            None
        } else {
            Some(self.levels[self.levels.len() - 1])
        }
    }

    /// Pushes `push` on frame `at` and ends the top level.
    fn end_level(&mut self, at: usize, push: Option<Value>) -> (res: Result<Step, JVMError>)
        requires
            old(self).levels@.len() > 0,
            at < old(self).stack.frames@.len(),
        ensures
            level_ended(old(self).levels@, old(self).stack.frames@, at as int, push,
                old(self).stack.frames@[at as int].code.max_stack, final(self).levels@, final(self).stack.frames@, res),
            final(self).heap == old(self).heap,
            final(self).class_loader == old(self).class_loader,
            final(self).stack.max_stack_size == old(self).stack.max_stack_size,
    {
        let ghost frames0 = self.stack.frames@;
        if let Some(v) = push {
            self.stack.frames[at].push(v)?;
        }
        let ghost frames1 = self.stack.frames@;
        assert(frames_after(frames0, frames1, at as int, push, -1));
        self.levels.pop();
        assert(self.levels@ =~= old(self).levels@.drop_last());
        if self.levels.len() == 0 {
            return Ok(Step::Finished);
        }
        let outer = self.levels[self.levels.len() - 1];
        if outer >= self.stack.frames.len() {
            return Err(JVMError::NoFrame);
        }
        if self.stack.frames[outer].pc == usize::MAX {
            return Err(JVMError::Other("Position past the end of the code".to_string()));
        }
        let pc = self.stack.frames[outer].pc;
        self.stack.frames[outer].pc = pc + 1;
        proof {
            assert forall|j: int| 0 <= j < frames0.len() implies frame_after(frames0[j], #[trigger] self.stack.frames@[j],
                if j == at { push } else { None }, j == outer) by {
                assert(frame_after(frames0[j], frames1[j], if j == at { push } else { None }, false));
            }
        }
        Ok(Step::Continue)
    }

    /// The handler address that frame `i` has for the exception class
    /// `name` at its current instruction.
    fn handler_in(&self, i: usize, name: &str) -> (res: Option<usize>)
        requires
            i < self.stack.frames@.len(),
            self.class_loader.wf(),
        ensures
            match handler_of(self.class_loader.classes@, self.stack.frames@[i as int], name@) {
                Some(h) => res matches Some(r) && r == h,
                None => res is None,
            },
    {
        if self.stack.frames[i].pc < self.stack.frames[i].code.code.len() {
            self.stack.frames[i].find_exception_handler(name, &self.class_loader)
        } else {
            None
        }
    }

    /// Enters the handler at address `h` in frame `i`.
    fn enter_handler(&mut self, i: usize, h: usize) -> (res: Result<Step, JVMError>)
        requires
            i < old(self).stack.frames@.len(),
            h < 0x1_0000,
        ensures
            others_same(old(self).stack.frames@, final(self).stack.frames@, i as int),
            handler_entered(old(self).stack.frames@[i as int], final(self).stack.frames@[i as int], h as u16, res),
            final(self).levels == old(self).levels,
            final(self).heap == old(self).heap,
            final(self).class_loader == old(self).class_loader,
            final(self).stack.max_stack_size == old(self).stack.max_stack_size,
    {
        self.stack.frames[i].operands = Vec::new();
        self.stack.frames[i].push(Value::Reference(None))?;
        assert(self.stack.frames@[i as int].operands@ =~= seq![Value::Reference(None)]);
        let address = h as u32;
        match self.stack.frames[i].code.get_index_at_address(address) {
            Some(index) => {
                self.stack.frames[i].pc = index;
                Ok(Step::Continue)
            },
            None => Err(JVMError::InvalidOffset(h as i32)),
        }
    }

    /// Ends the levels that run a frame above `g`; the top level then runs
    /// frame `g`.
    fn end_levels_above(&mut self, g: usize)
        ensures
            final(self).levels@ == levels_down_to(old(self).levels@, g),
            final(self).stack == old(self).stack,
            final(self).heap == old(self).heap,
            final(self).class_loader == old(self).class_loader,
    {
        while self.levels.len() > 0 && self.levels[self.levels.len() - 1] > g
            invariant
                levels_down_to(self.levels@, g) == levels_down_to(old(self).levels@, g),
                self.stack == old(self).stack,
                self.heap == old(self).heap,
                self.class_loader == old(self).class_loader,
            decreases self.levels@.len(),
        {
            self.levels.pop();
        }
        if self.levels.len() == 0 || self.levels[self.levels.len() - 1] != g {
            self.levels.push(g);
        }
    }

    /// Throws the exception class `name` from frame `fi`, the top level's.
    fn throw_exception(&mut self, fi: usize, name: String) -> (res: Result<Step, JVMError>)
        requires
            fi < old(self).stack.frames@.len(),
            old(self).class_loader.wf(),
        ensures
            thrown(old(self).class_loader.classes@, old(self).levels@, old(self).stack.frames@, fi as int, name@,
                final(self).levels@, final(self).stack.frames@, res),
            final(self).heap == old(self).heap,
            final(self).class_loader == old(self).class_loader,
            final(self).stack.max_stack_size == old(self).stack.max_stack_size,
    {
        let ghost classes = self.class_loader.classes@;
        let ghost frames0 = self.stack.frames@;
        let mut g = fi;
        let mut h: usize = 0;
        loop
            invariant
                g <= fi < frames0.len(),
                *self == *old(self),
                classes == self.class_loader.classes@,
                frames0 == self.stack.frames@,
                self.class_loader.wf(),
                catching_frame(classes, frames0, fi as int, name@) == catching_frame(classes, frames0, g as int, name@),
            ensures
                g <= fi < frames0.len(),
                *self == *old(self),
                h < 0x1_0000,
                catching_frame(classes, frames0, fi as int, name@) == Some((g as int, h as u16)),
            decreases g,
        {
            match self.handler_in(g, name.as_str()) {
                Some(x) => {
                    h = x;
                    break;
                },
                None => {
                    if g == 0 {
                        assert(catching_frame(classes, frames0, -1, name@) is None);
                        return Err(JVMError::UncaughtException(name));
                    }
                    g = g - 1;
                },
            }
        }
        assert(catching_frame(classes, frames0, fi as int, name@) == Some((g as int, h as u16)));
        let n = self.stack.frames.len();
        assert(g < n);
        self.stack.frames.truncate(g + 1);
        self.end_levels_above(g);
        self.enter_handler(g, h)
    }

    /// Hands the outcome `result` of the current instruction to the
    /// interpreter: it moves on, calls, returns, throws, or asks the host
    /// for a native call.
    pub fn complete(&mut self, result: ExecutionResult) -> (res: Result<Step, JVMError>)
        requires
            old(self).wf(),
        ensures
            final(self).wf(),
            completed(*old(self), *final(self), result, res),
            final(self).heap == old(self).heap,
            final(self).class_loader == old(self).class_loader,
            final(self).stack.max_stack_size == old(self).stack.max_stack_size,
    {
        if self.levels.len() == 0 {
            return Err(JVMError::NoFrame);
        }
        let fi = self.levels[self.levels.len() - 1];
        if fi >= self.stack.frames.len() {
            return Err(JVMError::NoFrame);
        }
        match result {
            ExecutionResult::Continue => {
                if self.stack.frames[fi].pc == usize::MAX {
                    return Err(JVMError::Other("Position past the end of the code".to_string()));
                }
                let pc = self.stack.frames[fi].pc;
                self.stack.frames[fi].pc = pc + 1;
                Ok(Step::Continue)
            },
            ExecutionResult::Invoke(frame) => {
                let n = self.stack.frames.len();
                self.stack.push_frame(frame)?;
                self.levels.push(n);
                Ok(Step::Continue)
            },
            ExecutionResult::Return(value) => {
                if fi == 0 {
                    self.end_level(0, None)
                } else {
                    self.stack.pop_frame()?;
                    self.end_level(fi - 1, value)
                }
            },
            ExecutionResult::Throw(name) => self.throw_exception(fi, name),
            ExecutionResult::Native { class_name, name_des, args } => Ok(Step::Native { class_name, name_des, args }),
        }
    }

    /// One step of the interpreter: runs the current instruction of the top
    /// level, or ends that level when its method has run past its last
    /// instruction, or asks the host for what it needs first.
    pub fn step(&mut self) -> (res: Result<Step, JVMError>)
        requires
            old(self).wf(),
        ensures
            final(self).wf(),
            stepped(*old(self), *final(self), res),
    {
        if self.levels.len() == 0 {
            return Err(JVMError::NoFrame);
        }
        let fi = self.levels[self.levels.len() - 1];
        if fi >= self.stack.frames.len() {
            return Err(JVMError::NoFrame);
        }
        let code = arc_clone(&self.stack.frames[fi].code);
        let pc = self.stack.frames[fi].pc;
        if pc >= code.code.len() {
            return self.end_level(fi, None);
        }
        let op = code.get_operation_at_index(pc);
        if is_float_op(op) {
            return Ok(Step::FloatOp);
        }
        if !is_well_formed(op) {
            return Err(JVMError::Other("Malformed instruction".to_string()));
        }
        if let Some(name) = self.stack.frames[fi].required_class(op, &self.heap, &self.class_loader) {
            return Ok(Step::LoadClass(name));
        }
        let roots = frames_snapshot(&self.stack.frames);
        let result = self.stack.frames[fi].execute_instruction(op, &roots, &mut self.heap, &mut self.class_loader);
        let ghost mid = *self;
        let ghost r = result;
        assert(executed(*old(self), mid, fi as int, *op, r));
        match result {
            Ok(x) => self.complete(x),
            Err(e) => Err(e),
        }
    }

    /// A new instance of the loaded class `class_name`, on the heap whose
    /// roots are the frames of the call stack.
    pub fn allocate_object(&mut self, class_name: &str) -> (res: Result<Value, JVMError>)
        requires
            old(self).wf(),
        ensures
            final(self).wf(),
            final(self).stack == old(self).stack,
            final(self).class_loader == old(self).class_loader,
            final(self).levels == old(self).levels,
            match spec_find_class(old(self).class_loader.classes@, class_name@) {
                None => res matches Err(JVMError::Other(m)) && m@ == "Class not loaded: "@ + class_name@,
                Some(c) => match res {
                    Ok(v) => crate::allocation::new_object(final(self).heap, old(self).heap.arena@.len() as usize, Some(c as usize), v),
                    Err(e) => (crate::allocation::is_exhausted(e) && final(self).heap.free_head is None
                        && crate::allocation::full_of_reachable(final(self).heap, final(self).stack.frames@))
                        || crate::allocation::untyped_error(old(self).class_loader.classes@[c as int].instance_fields@, e),
                },
            },
    {
        let c = match self.class_loader.find_loaded_class(class_name) {
            Some(c) => c,
            None => {
                return Err(JVMError::Other(crate::text::concat("Class not loaded: ", class_name)));
            },
        };
        self.heap.allocate_object(&self.stack.frames, &self.class_loader, c)
    }

    /// A new array of `length` elements named `element_type`, on the heap
    /// whose roots are the frames of the call stack. An array of instances
    /// of a loaded class belongs to that class.
    pub fn allocate_array(&mut self, element_type: &str, length: usize) -> (res: Result<Value, JVMError>)
        requires
            old(self).wf(),
        ensures
            final(self).wf(),
            final(self).stack == old(self).stack,
            final(self).class_loader == old(self).class_loader,
            final(self).levels == old(self).levels,
            match res {
                Ok(v) => crate::allocation::new_object(final(self).heap, old(self).heap.arena@.len() as usize,
                    if array_has_class(element_type@) {
                        match spec_find_class(old(self).class_loader.classes@, element_type@) {
                            Some(c) => Some(c as usize),
                            None => None,
                        }
                    } else {
                        None
                    }, v),
                Err(e) => crate::allocation::is_exhausted(e) && final(self).heap.free_head is None
                    && crate::allocation::full_of_reachable(final(self).heap, final(self).stack.frames@),
            },
    {
        let class = self.class_loader.find_loaded_class(element_type);
        self.heap.allocate_array(&self.stack.frames, element_type, length, class)
    }

    /// Hands the value `result` of the native call that the current
    /// instruction asked for to the interpreter: it is pushed unless the
    /// descriptor of the method says it returns nothing, and the current
    /// frame moves on.
    pub fn finish_native(&mut self, name_des: &NameDes, result: Value) -> (res: Result<Step, JVMError>)
        requires
            old(self).wf(),
        ensures
            final(self).wf(),
            final(self).heap == old(self).heap,
            final(self).class_loader == old(self).class_loader,
            ({
                let levels = old(self).levels@;
                let frames = old(self).stack.frames@;
                if levels.len() == 0 || levels.last() >= frames.len() {
                    res matches Err(JVMError::NoFrame)
                } else {
                    let fi = levels.last() as int;
                    let push = if returns_void(name_des.des@) { None } else { Some(result) };
                    if push is Some && frames[fi].operands@.len() >= frames[fi].code.max_stack {
                        res matches Err(JVMError::StackOverflow)
                    } else if frames[fi].pc == usize::MAX {
                        res matches Err(JVMError::Other(_))
                    } else {
                        &&& res matches Ok(Step::Continue)
                        &&& final(self).levels@ == levels
                        &&& frames_after(frames, final(self).stack.frames@, fi, push, fi)
                    }
                }
            }),
    {
        if self.levels.len() == 0 {
            return Err(JVMError::NoFrame);
        }
        let fi = self.levels[self.levels.len() - 1];
        if fi >= self.stack.frames.len() {
            return Err(JVMError::NoFrame);
        }
        let des = str_to_chars(name_des.des.as_str());
        let void = des.len() > 0 && des[des.len() - 1] == 'V';
        if !void {
            self.stack.frames[fi].push(result)?;
        }
        if self.stack.frames[fi].pc == usize::MAX {
            return Err(JVMError::Other("Position past the end of the code".to_string()));
        }
        let pc = self.stack.frames[fi].pc;
        self.stack.frames[fi].pc = pc + 1;
        Ok(Step::Continue)
    }

}

impl Frame {
    /// The name of the class that the `Class` entry at `index` names.
    fn class_entry(&self, index: u16) -> (res: Option<String>)
        ensures
            match class_entry_name(self.constant_pool.entries(), index) {
                Some(n) => res matches Some(r) && r@ == n,
                None => res is None,
            },
    {
        match self.constant_pool.get_entry(index) {
            Some(ConstantInfo::Class(ConstantClassInfo(name_index))) => {
                match self.constant_pool.get_underlying_string_from_utf8_index(*name_index) {
                    Some(n) => Some(n.clone()),
                    None => None,
                }
            },
            _ => None,
        }
    }

    /// The class that `op` loads before it runs, as `needed_class` gives it.
    fn needed_class_name(&self, op: &Operation, heap: &Heap) -> (res: Option<String>)
        ensures
            match needed_class(*op, self.constant_pool.entries(), self.operands@, heap.arena@) {
                Some(n) => res matches Some(r) && r@ == n,
                None => res is None,
            },
    {
        match op {
            Operation::Ldc(_) | Operation::Ldcw(_, _) => {
                let index = match op {
                    Operation::Ldc(i) => widen_index(*i),
                    Operation::Ldcw(a, b) => join_index(*a, *b),
                    _ => 0,
                };
                match self.constant_pool.get_entry(index) {
                    Some(ConstantInfo::String(_)) => Some("java/lang/String".to_string()),
                    Some(ConstantInfo::Class(ConstantClassInfo(name_index))) => {
                        match self.constant_pool.get_underlying_string_from_utf8_index(*name_index) {
                            Some(n) => Some(n.clone()),
                            None => None,
                        }
                    },
                    _ => None,
                }
            },
            Operation::New(a, b) => self.class_entry(join_index(*a, *b)),
            Operation::Anewarray(a, b) => match self.class_entry(join_index(*a, *b)) {
                Some(n) => {
                    let chars = str_to_chars(n.as_str());
                    if (chars.len() > 0 && chars[0] == '[') || chars.len() == 1 {
                        None
                    } else {
                        Some(n)
                    }
                },
                None => None,
            },
            Operation::Getstatic(a, b) | Operation::Putstatic(a, b) => match self.resolve_field_ref(join_index(*a, *b)) {
                Ok((c, _, _)) => Some(c),
                Err(_) => None,
            },
            Operation::Invokestatic(a, b) | Operation::Invokespecial(a, b) | Operation::Invokeinterface(a, b, _, _) => {
                match self.resolve_method_ref(join_index(*a, *b)) {
                    Ok((c, _)) => Some(c),
                    Err(_) => None,
                }
            },
            Operation::Checkcast(a, b) | Operation::Instanceof(a, b) => {
                if self.operands.len() > 0 {
                    match self.operands[self.operands.len() - 1] {
                        Value::Reference(Some(_)) => {
                            match self.constant_pool.get_underlying_string_from_constant_class_info_index(join_index(*a, *b)) {
                                Some(n) => Some(n.clone()),
                                None => None,
                            }
                        },
                        _ => None,
                    }
                } else {
                    None
                }
            },
            Operation::Athrow => {
                if self.operands.len() > 0 {
                    match self.operands[self.operands.len() - 1] {
                        Value::Reference(Some(o)) => {
                            if o < heap.arena.len() && heap.arena[o].class.is_some() {
                                Some("java/lang/Throwable".to_string())
                            } else {
                                None
                            }
                        },
                        _ => None,
                    }
                } else {
                    None
                }
            },
            _ => None,
        }
    }

    /// The class that `op` needs and that is not loaded yet: the host loads
    /// it before the instruction runs.
    pub fn required_class(&self, op: &Operation, heap: &Heap, loader: &ClassLoader) -> (res: Option<String>)
        ensures
            match needed_class(*op, self.constant_pool.entries(), self.operands@, heap.arena@) {
                Some(n) => if spec_find_class(loader.classes@, n) is Some {
                    res is None
                } else {
                    res matches Some(r) && r@ == n
                },
                None => res is None,
            },
    {
        match self.needed_class_name(op, heap) {
            Some(n) => {
                if loader.find_loaded_class(n.as_str()).is_some() {
                    None
                } else {
                    Some(n)
                }
            },
            None => None,
        }
    }
}

/// Turns instructions into their operations, dropping their addresses.
pub fn convert_instructions(instructions: Vec<Instruction>) -> (res: Vec<Operation>)
    ensures
        res@.len() == instructions@.len(),
        forall|i: int| 0 <= i < res@.len() ==> res@[i] == (#[trigger] instructions@[i]).1,
{
    let mut rest = instructions;
    let ghost all = rest@;
    let mut reversed: Vec<Operation> = Vec::new();
    while rest.len() > 0
        invariant
            rest@ == all.take(rest@.len() as int),
            rest@.len() + reversed@.len() == all.len(),
            forall|k: int| 0 <= k < reversed@.len() ==> #[trigger] reversed@[k] == all[all.len() - 1 - k].1,
        decreases rest@.len(),
    {
        let Instruction(_, op) = match rest.pop() {
            Some(i) => i,
            None => {
                assert(false);
                unreached()
            },
        };
        reversed.push(op);
        assert(rest@ =~= all.take(rest@.len() as int));
    }
    let mut res: Vec<Operation> = Vec::new();
    let ghost rev = reversed@;
    while reversed.len() > 0
        invariant
            reversed@ == rev.take(reversed@.len() as int),
            rev.len() == all.len(),
            reversed@.len() + res@.len() == all.len(),
            forall|k: int| 0 <= k < rev.len() ==> #[trigger] rev[k] == all[all.len() - 1 - k].1,
            forall|k: int| 0 <= k < res@.len() ==> #[trigger] res@[k] == all[k].1,
        decreases reversed@.len(),
    {
        let op = match reversed.pop() {
            Some(o) => o,
            None => {
                assert(false);
                unreached()
            },
        };
        proof {
            let k = res@.len() as int;
            assert(op == rev[rev.len() - 1 - k]);
        }
        res.push(op);
        assert(reversed@ =~= rev.take(reversed@.len() as int));
    }
    res
}

} // verus!
