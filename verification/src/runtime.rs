//! Values, frames and the frame stack of the interpreter.

use std::sync::Arc;
use vstd::prelude::*;
use crate::attribute::Code;
use crate::constant_pool::ConstantPool;
use crate::jvm_error::JVMError;
use crate::loaded_class::{LoadedClass, NameDes};

verus! {

/// A value in a local variable, on the operand stack, in a field or in an
/// array element. Floating-point values are kept as their IEEE 754 bit
/// patterns; a reference is the identity of an object, or `None` for null.
#[derive(Debug, Clone, Copy, PartialEq, Eq, Structural)]
pub enum Value {
    Default,
    Int(i32),
    Long(i64),
    Float(u32),
    Double(u64),
    Reference(Option<usize>),
}

/// Makes a second handle to a shared value.
///
/// Trusted: calls `Arc::clone`, which std documents as giving another
/// pointer to the same allocation.
#[verifier::external_body]
pub(crate) fn arc_clone<T>(a: &Arc<T>) -> (res: Arc<T>)
    ensures
        res == *a,
{
    Arc::clone(a)
}

/// The name of the kind of a value, as error messages give it.
pub open spec fn spec_value_type(v: Value) -> &'static str {
    match v {
        Value::Int(_) => "int",
        Value::Long(_) => "long",
        Value::Float(_) => "float",
        Value::Double(_) => "double",
        Value::Reference(_) => "reference",
        Value::Default => "default",
    }
}

/// What a pop expects to find on top of the operand stack.
#[derive(Debug, Clone, Copy, PartialEq, Eq, Structural)]
pub enum Tag {
    Any,
    Int,
    Long,
    Float,
    Double,
    Reference,
}

/// How an operation fails: with an error that holds no text, or with a
/// `TypeMismatch` whose two texts are given.
#[derive(Debug)]
pub enum Failure {
    Plain(JVMError),
    Mismatch(&'static str, &'static str),
}

/// Whether `res` is the error that `f` describes.
pub open spec fn fails_with<T>(res: Result<T, JVMError>, f: Failure) -> bool {
    match f {
        Failure::Plain(e) => res == Err::<T, JVMError>(e),
        Failure::Mismatch(x, y) => res matches Err(JVMError::TypeMismatch { expected, found })
            && expected@ == x@ && found@ == y@,
    }
}

/// Whether `v` is of the kind `t` asks for.
pub open spec fn tag_fits(t: Tag, v: Value) -> bool {
    match t {
        Tag::Any => true,
        Tag::Int => v is Int,
        Tag::Long => v is Long,
        Tag::Float => v is Float,
        Tag::Double => v is Double,
        Tag::Reference => v is Reference,
    }
}

/// The failure of a pop that expected `t` and found `v`.
pub open spec fn misfit(t: Tag, v: Value) -> Failure {
    match t {
        Tag::Int => Failure::Plain(JVMError::InvalidOperandType { expected: "int", found: spec_value_type(v) }),
        Tag::Long => Failure::Plain(JVMError::InvalidOperandType { expected: "Long", found: spec_value_type(v) }),
        Tag::Float => Failure::Mismatch("Float", spec_value_type(v)),
        Tag::Double => Failure::Mismatch("Double", spec_value_type(v)),
        _ => Failure::Plain(JVMError::InvalidOperandType { expected: "reference", found: spec_value_type(v) }),
    }
}

/// Pops one value of kind `t` from `ops` (its top is the last element).
pub open spec fn pop_one(ops: Seq<Value>, t: Tag) -> Result<Value, Failure> {
    if ops.len() == 0 {
        Err(Failure::Plain(JVMError::StackUnderflow))
    } else if tag_fits(t, ops.last()) {
        Ok(ops.last())
    } else {
        Err(misfit(t, ops.last()))
    }
}

/// Pops values of the kinds `tags`, the first from the top; gives the
/// values in the order they were popped.
pub open spec fn pop_many(ops: Seq<Value>, tags: Seq<Tag>) -> Result<Seq<Value>, Failure>
    decreases tags.len(),
{
    if tags.len() == 0 {
        Ok(Seq::empty())
    } else {
        match pop_one(ops, tags[0]) {
            Err(f) => Err(f),
            Ok(v) => match pop_many(ops.drop_last(), tags.drop_first()) {
                Err(f) => Err(f),
                Ok(vs) => Ok(seq![v] + vs),
            },
        }
    }
}

/// The check that at least `n` operands are on the stack.
pub open spec fn ensure_fails(ops: Seq<Value>, n: usize) -> Option<Failure> {
    if ops.len() < n {
        Some(Failure::Plain(JVMError::InsufficientOperands { required: n, found: ops.len() as usize }))
    } else {
        None
    }
}

/// The outcome of an operation that pops values of the kinds `tags`, after
/// checking that `need` operands are there (`need` is 0 for no check).
pub open spec fn popped(ops: Seq<Value>, need: usize, tags: Seq<Tag>) -> Result<Seq<Value>, Failure> {
    match ensure_fails(ops, need) {
        Some(f) => Err(f),
        None => pop_many(ops, tags),
    }
}

/// The operand stack left after popping `n` values.
pub open spec fn rest(ops: Seq<Value>, n: int) -> Seq<Value> {
    ops.take(ops.len() - n)
}

/// Whether pushing `v` onto `ops` in a frame of maximum depth `max` gives
/// `new_ops` and the result `res`.
pub open spec fn pushes(max: u16, ops: Seq<Value>, v: Value, new_ops: Seq<Value>, res: Result<ExecutionResult, JVMError>) -> bool {
    if ops.len() >= max {
        res matches Err(JVMError::StackOverflow)
    } else {
        res matches Ok(ExecutionResult::Continue) && new_ops == ops.push(v)
    }
}

/// A frame of the call stack: the method it runs, the position of the next
/// instruction, its local variables and its operand stack.
#[derive(Debug)]
pub struct Frame {
    pub constant_pool: Arc<ConstantPool>,
    pub method_name_des: NameDes,
    pub code: Arc<Code>,
    pub pc: usize,
    pub locals: Vec<Value>,
    pub operands: Vec<Value>,
}

/// What the execution of one instruction asks the interpreter to do next.
/// `Native` asks for a call of a native method of the class named
/// `class_name`, with `args` in reverse order of the parameters.
#[derive(Debug)]
pub enum ExecutionResult {
    Continue,
    Invoke(Frame),
    Return(Option<Value>),
    Throw(String),
    Native { class_name: String, name_des: NameDes, args: Vec<Value> },
}

/// Copies a list of values.
pub fn copy_values(v: &Vec<Value>) -> (res: Vec<Value>)
    ensures
        res@ == v@,
{
    let mut res: Vec<Value> = Vec::new();
    let mut i: usize = 0;
    while i < v.len()
        invariant
            i <= v@.len(),
            res@ == v@.take(i as int),
        decreases v@.len() - i,
    {
        res.push(v[i]);
        i = i + 1;
        assert(res@ =~= v@.take(i as int));
    }
    assert(v@.take(i as int) =~= v@);
    res
}

impl Clone for Frame {
    fn clone(&self) -> (res: Self)
        ensures
            res.same_frame(*self),
    {
        let locals = copy_values(&self.locals);
        let operands = copy_values(&self.operands);
        let res = Frame {
            constant_pool: arc_clone(&self.constant_pool),
            method_name_des: self.method_name_des.clone(),
            code: arc_clone(&self.code),
            pc: self.pc,
            locals,
            operands,
        };
        res
    }
}

impl Frame {
    /// Whether `other` holds the same method, position, locals and operands.
    pub open spec fn same_frame(self, other: Frame) -> bool {
        &&& self.same_but_operands(other)
        &&& other.operands@ == self.operands@
    }

    /// Whether `other` differs from this frame in its operand stack at most.
    pub open spec fn same_but_operands(self, other: Frame) -> bool {
        &&& other.constant_pool == self.constant_pool
        &&& other.method_name_des == self.method_name_des
        &&& other.code == self.code
        &&& other.pc == self.pc
        &&& other.locals@ == self.locals@
    }

    /// The frame for a call of the method `name_des` of `class` with the body
    /// `code`: every local holds `Default`, the operand stack is empty.
    pub fn new(class: &LoadedClass, name_des: &NameDes, code: Arc<Code>) -> (res: Frame)
        ensures
            res.constant_pool == class.constant_pool,
            res.method_name_des == *name_des,
            res.code == code,
            res.pc == 0,
            res.locals@ == Seq::new(code.max_locals as nat, |i: int| Value::Default),
            res.operands@.len() == 0,
    {
        let mut locals: Vec<Value> = Vec::new();
        let n = code.max_locals as usize;
        let mut i: usize = 0;
        while i < n
            invariant
                i <= n,
                n == code.max_locals,
                locals@ == Seq::new(i as nat, |k: int| Value::Default),
            decreases n - i,
        {
            locals.push(Value::Default);
            i = i + 1;
            assert(locals@ =~= Seq::new(i as nat, |k: int| Value::Default));
        }
        Frame {
            constant_pool: arc_clone(&class.constant_pool),
            method_name_des: name_des.clone(),
            code,
            pc: 0,
            locals,
            operands: Vec::new(),
        }
    }

    /// Pushes a value; fails with `StackOverflow` when the operand stack
    /// already holds `max_stack` values.
    pub fn push(&mut self, value: Value) -> (res: Result<(), JVMError>)
        ensures
            old(self).same_but_operands(*final(self)),
            old(self).operands@.len() >= old(self).code.max_stack ==> (res matches Err(JVMError::StackOverflow))
                && final(self).operands@ == old(self).operands@,
            old(self).operands@.len() < old(self).code.max_stack ==> res is Ok
                && final(self).operands@ == old(self).operands@.push(value),
    {
        if self.operands.len() >= self.code.max_stack as usize {
            return Err(JVMError::StackOverflow);
        }
        self.operands.push(value);
        Ok(())
    }

    /// Pops the top of the operand stack; fails with `StackUnderflow` when it
    /// is empty.
    pub fn pop(&mut self) -> (res: Result<Value, JVMError>)
        ensures
            old(self).same_but_operands(*final(self)),
            old(self).operands@.len() == 0 ==> (res matches Err(JVMError::StackUnderflow))
                && final(self).operands@ == old(self).operands@,
            old(self).operands@.len() > 0 ==> res == Ok::<Value, JVMError>(old(self).operands@.last())
                && final(self).operands@ == old(self).operands@.drop_last(),
    {
        match self.operands.pop() {
            Some(v) => Ok(v),
            None => Err(JVMError::StackUnderflow),
        }
    }

    /// Stores a value in a local variable; an index past the locals is
    /// ignored.
    pub fn set_local(&mut self, index: usize, value: Value)
        ensures
            final(self).constant_pool == old(self).constant_pool,
            final(self).method_name_des == old(self).method_name_des,
            final(self).code == old(self).code,
            final(self).pc == old(self).pc,
            final(self).operands@ == old(self).operands@,
            index < old(self).locals@.len() ==> final(self).locals@ == old(self).locals@.update(index as int, value),
            index >= old(self).locals@.len() ==> final(self).locals@ == old(self).locals@,
    {
        if index < self.locals.len() {
            self.locals.set(index, value);
        }
    }

    /// The value of a local variable, or `None` past the locals.
    pub fn get_local(&self, index: usize) -> (res: Option<&Value>)
        ensures
            index < self.locals@.len() ==> res == Some(&self.locals@[index as int]),
            index >= self.locals@.len() ==> res is None,
    {
        if index < self.locals.len() {
            Some(&self.locals[index])
        } else {
            None
        }
    }

    /// Checks that `index` names a local variable.
    pub fn check_local_index(&self, index: usize) -> (res: Result<(), JVMError>)
        ensures
            index < self.locals@.len() <==> res is Ok,
            index >= self.locals@.len() ==> res == Err::<(), JVMError>(
                JVMError::IndexOutOfBounds { index, max: self.locals@.len() as usize }),
    {
        if index >= self.locals.len() {
            return Err(JVMError::IndexOutOfBounds { index, max: self.locals.len() });
        }
        Ok(())
    }

    /// Checks that at least `required` operands are on the stack.
    pub fn ensure_operands(&self, required: usize) -> (res: Result<(), JVMError>)
        ensures
            match ensure_fails(self.operands@, required) {
                Some(f) => fails_with(res, f),
                None => res is Ok,
            },
    {
        if self.operands.len() < required {
            return Err(JVMError::InsufficientOperands { required, found: self.operands.len() });
        }
        Ok(())
    }

    /// The name of the kind of a value.
    pub fn get_value_type(value: &Value) -> (res: &'static str)
        ensures
            res == spec_value_type(*value),
    {
        match value {
            Value::Int(_) => "int",
            Value::Long(_) => "long",
            Value::Float(_) => "float",
            Value::Double(_) => "double",
            Value::Reference(_) => "reference",
            Value::Default => "default",
        }
    }

    /// Pops an `int`.
    pub fn pop_expect_int(&mut self) -> (res: Result<i32, JVMError>)
        ensures
            old(self).same_but_operands(*final(self)),
            match pop_one(old(self).operands@, Tag::Int) {
                Ok(v) => v matches Value::Int(i) && res == Ok::<i32, JVMError>(i)
                    && final(self).operands@ == old(self).operands@.drop_last(),
                Err(f) => fails_with(res, f),
            },
            res is Err ==> final(self).operands@ == (if old(self).operands@.len() > 0 {
                old(self).operands@.drop_last()
            } else {
                old(self).operands@
            }),
    {
        match self.pop()? {
            Value::Int(v) => Ok(v),
            other => Err(JVMError::InvalidOperandType { expected: "int", found: Self::get_value_type(&other) }),
        }
    }

    /// Pops a `long`.
    pub fn pop_expect_long(&mut self) -> (res: Result<i64, JVMError>)
        ensures
            old(self).same_but_operands(*final(self)),
            match pop_one(old(self).operands@, Tag::Long) {
                Ok(v) => v matches Value::Long(i) && res == Ok::<i64, JVMError>(i)
                    && final(self).operands@ == old(self).operands@.drop_last(),
                Err(f) => fails_with(res, f),
            },
            res is Err ==> final(self).operands@ == (if old(self).operands@.len() > 0 {
                old(self).operands@.drop_last()
            } else {
                old(self).operands@
            }),
    {
        match self.pop()? {
            Value::Long(v) => Ok(v),
            other => Err(JVMError::InvalidOperandType { expected: "Long", found: Self::get_value_type(&other) }),
        }
    }

    /// Pops a `float`, given as its bit pattern.
    pub fn pop_expect_float(&mut self) -> (res: Result<u32, JVMError>)
        ensures
            old(self).same_but_operands(*final(self)),
            match pop_one(old(self).operands@, Tag::Float) {
                Ok(v) => v matches Value::Float(i) && res == Ok::<u32, JVMError>(i)
                    && final(self).operands@ == old(self).operands@.drop_last(),
                Err(f) => fails_with(res, f),
            },
    {
        match self.pop()? {
            Value::Float(v) => Ok(v),
            other => Err(JVMError::TypeMismatch {
                expected: "Float".to_string(),
                found: Self::get_value_type(&other).to_string(),
            }),
        }
    }

    /// Pops a `double`, given as its bit pattern.
    pub fn pop_expect_double(&mut self) -> (res: Result<u64, JVMError>)
        ensures
            old(self).same_but_operands(*final(self)),
            match pop_one(old(self).operands@, Tag::Double) {
                Ok(v) => v matches Value::Double(i) && res == Ok::<u64, JVMError>(i)
                    && final(self).operands@ == old(self).operands@.drop_last(),
                Err(f) => fails_with(res, f),
            },
    {
        match self.pop()? {
            Value::Double(v) => Ok(v),
            other => Err(JVMError::TypeMismatch {
                expected: "Double".to_string(),
                found: Self::get_value_type(&other).to_string(),
            }),
        }
    }

    /// Pops a reference.
    pub fn pop_expect_reference(&mut self) -> (res: Result<Option<usize>, JVMError>)
        ensures
            old(self).same_but_operands(*final(self)),
            match pop_one(old(self).operands@, Tag::Reference) {
                Ok(v) => v matches Value::Reference(r) && res == Ok::<Option<usize>, JVMError>(r)
                    && final(self).operands@ == old(self).operands@.drop_last(),
                Err(f) => fails_with(res, f),
            },
    {
        match self.pop()? {
            Value::Reference(r) => Ok(r),
            other => Err(JVMError::InvalidOperandType { expected: "reference", found: Self::get_value_type(&other) }),
        }
    }
}

/// The call stack: frames, the innermost last.
#[derive(Debug)]
pub struct Stack {
    pub frames: Vec<Frame>,
    pub max_stack_size: usize,
}

impl Clone for Stack {
    fn clone(&self) -> (res: Self)
        ensures
            res.frames@.len() == self.frames@.len(),
            forall|i: int| 0 <= i < self.frames@.len() ==> (#[trigger] res.frames@[i]).same_frame(self.frames@[i]),
            res.max_stack_size == self.max_stack_size,
    {
        let mut frames: Vec<Frame> = Vec::new();
        let mut i: usize = 0;
        while i < self.frames.len()
            invariant
                i <= self.frames@.len(),
                frames@.len() == i,
                forall|k: int| 0 <= k < i ==> (#[trigger] frames@[k]).same_frame(self.frames@[k]),
            decreases self.frames@.len() - i,
        {
            frames.push(self.frames[i].clone());
            i = i + 1;
        }
        Stack { frames, max_stack_size: self.max_stack_size }
    }
}

impl Stack {
    /// An empty stack that holds at most 1024 frames.
    pub fn new() -> (res: Stack)
        ensures
            res.frames@.len() == 0,
            res.max_stack_size == 1024,
    {
        Stack { frames: Vec::new(), max_stack_size: 1024 }
    }

    /// Pushes a frame; fails with `StackOverflow` when the stack is full.
    pub fn push_frame(&mut self, frame: Frame) -> (res: Result<(), JVMError>)
        ensures
            final(self).max_stack_size == old(self).max_stack_size,
            old(self).frames@.len() >= old(self).max_stack_size ==> (res matches Err(JVMError::StackOverflow))
                && final(self).frames@ == old(self).frames@,
            old(self).frames@.len() < old(self).max_stack_size ==> res is Ok
                && final(self).frames@ == old(self).frames@.push(frame),
    {
        if self.frames.len() >= self.max_stack_size {
            return Err(JVMError::StackOverflow);
        }
        self.frames.push(frame);
        Ok(())
    }

    /// Pops the innermost frame; fails with `StackUnderflow` when there is none.
    pub fn pop_frame(&mut self) -> (res: Result<Frame, JVMError>)
        ensures
            final(self).max_stack_size == old(self).max_stack_size,
            old(self).frames@.len() == 0 ==> (res matches Err(JVMError::StackUnderflow))
                && final(self).frames@ == old(self).frames@,
            old(self).frames@.len() > 0 ==> res == Ok::<Frame, JVMError>(old(self).frames@.last())
                && final(self).frames@ == old(self).frames@.drop_last(),
    {
        match self.frames.pop() {
            Some(f) => Ok(f),
            None => Err(JVMError::StackUnderflow),
        }
    }
}

} // verus!
