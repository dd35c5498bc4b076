use std::collections::HashMap;

use jvm::class_load::LoadRequest;
use jvm::class_loader::ClassLoadingError;
use jvm::jvm_error::JVMError;
use jvm::loaded_class::LoadedClass;
use jvm::native::{native_symbol, prepare_native_call, NativeArg};
use jvm::runtime::{ExecutionResult, Value};
use jvm::vm::{Step, VM};

/// Builds the bytes of a class file.
struct ClassBuilder {
    pool: Vec<Vec<u8>>,
    this_class: u16,
    super_class: u16,
    flags: u16,
    interfaces: Vec<u16>,
    fields: Vec<(u16, u16, u16)>,
    methods: Vec<Vec<u8>>,
}

fn u2(v: u16) -> [u8; 2] {
    v.to_be_bytes()
}

impl ClassBuilder {
    fn new(name: &str, super_name: Option<&str>) -> ClassBuilder {
        let mut b = ClassBuilder {
            pool: Vec::new(),
            this_class: 0,
            super_class: 0,
            flags: 0x0021,
            interfaces: Vec::new(),
            fields: Vec::new(),
            methods: Vec::new(),
        };
        b.this_class = b.class(name);
        if let Some(s) = super_name {
            b.super_class = b.class(s);
        }
        b
    }

    fn add(&mut self, entry: Vec<u8>) -> u16 {
        self.pool.push(entry);
        self.pool.len() as u16
    }

    fn utf8(&mut self, s: &str) -> u16 {
        let mut e = vec![1u8];
        e.extend_from_slice(&u2(s.len() as u16));
        e.extend_from_slice(s.as_bytes());
        self.add(e)
    }

    fn raw_utf8(&mut self, bytes: &[u8]) -> u16 {
        let mut e = vec![1u8];
        e.extend_from_slice(&u2(bytes.len() as u16));
        e.extend_from_slice(bytes);
        self.add(e)
    }

    fn class(&mut self, name: &str) -> u16 {
        let n = self.utf8(name);
        let mut e = vec![7u8];
        e.extend_from_slice(&u2(n));
        self.add(e)
    }

    fn string(&mut self, s: &str) -> u16 {
        let n = self.utf8(s);
        let mut e = vec![8u8];
        e.extend_from_slice(&u2(n));
        self.add(e)
    }

    fn name_and_type(&mut self, name: &str, des: &str) -> u16 {
        let n = self.utf8(name);
        let d = self.utf8(des);
        let mut e = vec![12u8];
        e.extend_from_slice(&u2(n));
        e.extend_from_slice(&u2(d));
        self.add(e)
    }

    fn member_ref(&mut self, tag: u8, class: &str, name: &str, des: &str) -> u16 {
        let c = self.class(class);
        let nt = self.name_and_type(name, des);
        let mut e = vec![tag];
        e.extend_from_slice(&u2(c));
        e.extend_from_slice(&u2(nt));
        self.add(e)
    }

    fn method_ref(&mut self, class: &str, name: &str, des: &str) -> u16 {
        self.member_ref(10, class, name, des)
    }

    fn field_ref(&mut self, class: &str, name: &str, des: &str) -> u16 {
        self.member_ref(9, class, name, des)
    }

    fn field(&mut self, flags: u16, name: &str, des: &str) {
        let n = self.utf8(name);
        let d = self.utf8(des);
        self.fields.push((flags, n, d));
    }

    fn method(&mut self, flags: u16, name: &str, des: &str, max_stack: u16, max_locals: u16, code: &[u8], handlers: &[(u16, u16, u16, u16)]) {
        let n = self.utf8(name);
        let d = self.utf8(des);
        let code_name = self.utf8("Code");
        let mut m = Vec::new();
        m.extend_from_slice(&u2(flags));
        m.extend_from_slice(&u2(n));
        m.extend_from_slice(&u2(d));
        m.extend_from_slice(&u2(1));
        let mut body = Vec::new();
        body.extend_from_slice(&u2(max_stack));
        body.extend_from_slice(&u2(max_locals));
        body.extend_from_slice(&(code.len() as u32).to_be_bytes());
        body.extend_from_slice(code);
        body.extend_from_slice(&u2(handlers.len() as u16));
        for (s, e, h, c) in handlers {
            body.extend_from_slice(&u2(*s));
            body.extend_from_slice(&u2(*e));
            body.extend_from_slice(&u2(*h));
            body.extend_from_slice(&u2(*c));
        }
        body.extend_from_slice(&u2(0));
        m.extend_from_slice(&u2(code_name));
        m.extend_from_slice(&(body.len() as u32).to_be_bytes());
        m.extend_from_slice(&body);
        self.methods.push(m);
    }

    fn native_method(&mut self, name: &str, des: &str) {
        let n = self.utf8(name);
        let d = self.utf8(des);
        let mut m = Vec::new();
        m.extend_from_slice(&u2(0x0109));
        m.extend_from_slice(&u2(n));
        m.extend_from_slice(&u2(d));
        m.extend_from_slice(&u2(0));
        self.methods.push(m);
    }

    fn bytes(&self) -> Vec<u8> {
        let mut out = vec![0xCA, 0xFE, 0xBA, 0xBE, 0, 0, 0, 52];
        out.extend_from_slice(&u2(self.pool.len() as u16 + 1));
        for e in &self.pool {
            out.extend_from_slice(e);
        }
        out.extend_from_slice(&u2(self.flags));
        out.extend_from_slice(&u2(self.this_class));
        out.extend_from_slice(&u2(self.super_class));
        out.extend_from_slice(&u2(self.interfaces.len() as u16));
        for i in &self.interfaces {
            out.extend_from_slice(&u2(*i));
        }
        out.extend_from_slice(&u2(self.fields.len() as u16));
        for (f, n, d) in &self.fields {
            out.extend_from_slice(&u2(*f));
            out.extend_from_slice(&u2(*n));
            out.extend_from_slice(&u2(*d));
            out.extend_from_slice(&u2(0));
        }
        out.extend_from_slice(&u2(self.methods.len() as u16));
        for m in &self.methods {
            out.extend_from_slice(m);
        }
        out.extend_from_slice(&u2(0));
        out
    }
}

fn object_class() -> Vec<u8> {
    ClassBuilder::new("java/lang/Object", None).bytes()
}

fn load(vm: &mut VM, files: &HashMap<String, Vec<u8>>, name: &str) -> Result<usize, ClassLoadingError> {
    let (mut load, mut req) = vm.class_loader.begin_load(name);
    loop {
        match req {
            LoadRequest::Done(i) => return Ok(i),
            LoadRequest::Read(n) => {
                let data = files
                    .get(&n)
                    .cloned()
                    .ok_or(ClassLoadingError::ClassNotFoundException(format!("Could not find class {}", n)));
                req = vm.class_loader.continue_load(&mut load, data)?;
            }
        }
    }
}

/// Runs `main` of `Main` until it ends; native calls are answered with 0.
fn run(vm: &mut VM, files: &HashMap<String, Vec<u8>>) -> Result<Vec<Vec<NativeArg>>, JVMError> {
    load(vm, files, "Main").map_err(|e| JVMError::Other(e.describe()))?;
    vm.invoke_main("Main")?;
    let mut natives = Vec::new();
    loop {
        match vm.step()? {
            Step::Continue => {}
            Step::Finished => return Ok(natives),
            Step::LoadClass(n) => {
                load(vm, files, &n).map_err(|e| JVMError::Other(e.describe()))?;
            }
            Step::FloatOp => panic!("no floating-point instruction expected"),
            Step::Native { class_name, name_des, args } => {
                let symbol = native_symbol(&class_name, &name_des.name);
                let call = prepare_native_call(&symbol, &args, &name_des.des, &vm.heap).map_err(JVMError::Other)?;
                natives.push(call.args);
                vm.finish_native(&name_des, Value::Int(0))?;
            }
        }
    }
}

fn files_with(main: ClassBuilder, others: Vec<(&str, Vec<u8>)>) -> HashMap<String, Vec<u8>> {
    let mut files = HashMap::new();
    files.insert("java/lang/Object".to_string(), object_class());
    files.insert("Main".to_string(), main.bytes());
    for (n, b) in others {
        files.insert(n.to_string(), b);
    }
    files
}

fn main_frame_local(vm: &VM, i: usize) -> Value {
    vm.stack.frames[0].locals[i]
}

#[test]
fn adds_two_constants() {
    let mut main = ClassBuilder::new("Main", Some("java/lang/Object"));
    main.method(0x0009, "main", "([Ljava/lang/String;)V", 2, 2, &[0x05, 0x06, 0x60, 0x3c, 0xb1], &[]);
    let files = files_with(main, vec![]);
    let mut vm = VM::new(16);
    run(&mut vm, &files).unwrap();
    assert_eq!(main_frame_local(&vm, 1), Value::Int(5));
    assert!(vm.levels.is_empty());
}

#[test]
fn sums_a_loop() {
    let mut main = ClassBuilder::new("Main", Some("java/lang/Object"));
    let code = [
        0x03, 0x3c, 0x04, 0x3d, 0x1c, 0x10, 10, 0xa3, 0x00, 13, 0x1b, 0x1c, 0x60, 0x3c, 0x84, 2, 1, 0xa7, 0xff, 0xf3, 0xb1,
    ];
    main.method(0x0009, "main", "([Ljava/lang/String;)V", 2, 3, &code, &[]);
    let files = files_with(main, vec![]);
    let mut vm = VM::new(16);
    run(&mut vm, &files).unwrap();
    assert_eq!(main_frame_local(&vm, 1), Value::Int(55));
    assert_eq!(main_frame_local(&vm, 2), Value::Int(11));
}

#[test]
fn calls_a_static_method() {
    let mut main = ClassBuilder::new("Main", Some("java/lang/Object"));
    let square = main.method_ref("Main", "square", "(I)I");
    let [hi, lo] = u2(square);
    main.method(0x0009, "main", "([Ljava/lang/String;)V", 1, 2, &[0x07, 0xb8, hi, lo, 0x3c, 0xb1], &[]);
    main.method(0x0009, "square", "(I)I", 2, 1, &[0x1a, 0x1a, 0x68, 0xac], &[]);
    let files = files_with(main, vec![]);
    let mut vm = VM::new(16);
    run(&mut vm, &files).unwrap();
    assert_eq!(main_frame_local(&vm, 1), Value::Int(16));
    assert_eq!(vm.stack.frames.len(), 1);
}

#[test]
fn catches_a_division_by_zero() {
    let mut main = ClassBuilder::new("Main", Some("java/lang/Object"));
    let code = [0x04, 0x03, 0x6c, 0x3c, 0xb1, 0x57, 0x02, 0x3c, 0xb1];
    main.method(0x0009, "main", "([Ljava/lang/String;)V", 2, 2, &code, &[(0, 5, 5, 0)]);
    let files = files_with(main, vec![]);
    let mut vm = VM::new(16);
    run(&mut vm, &files).unwrap();
    assert_eq!(main_frame_local(&vm, 1), Value::Int(-1));
}

#[test]
fn uncaught_division_by_zero_ends_the_run() {
    let mut main = ClassBuilder::new("Main", Some("java/lang/Object"));
    main.method(0x0009, "main", "([Ljava/lang/String;)V", 2, 2, &[0x04, 0x03, 0x6c, 0x3c, 0xb1], &[]);
    let files = files_with(main, vec![]);
    let mut vm = VM::new(16);
    match run(&mut vm, &files) {
        Err(JVMError::UncaughtException(name)) => assert_eq!(name, "java/lang/ArithmeticException"),
        other => panic!("unexpected outcome {:?}", other),
    }
}

#[test]
fn writes_and_reads_an_instance_field() {
    let mut point = ClassBuilder::new("Point", Some("java/lang/Object"));
    point.field(0x0000, "x", "I");
    let mut main = ClassBuilder::new("Main", Some("java/lang/Object"));
    let class = main.class("Point");
    let x = main.field_ref("Point", "x", "I");
    let [ch, cl] = u2(class);
    let [xh, xl] = u2(x);
    let code = [0xbb, ch, cl, 0x59, 0x08, 0xb5, xh, xl, 0xb4, xh, xl, 0x3c, 0xb1];
    main.method(0x0009, "main", "([Ljava/lang/String;)V", 3, 2, &code, &[]);
    let files = files_with(main, vec![("Point", point.bytes())]);
    let mut vm = VM::new(16);
    run(&mut vm, &files).unwrap();
    assert_eq!(main_frame_local(&vm, 1), Value::Int(5));
    assert_eq!(vm.heap.arena.len(), 1);
}

#[test]
fn writes_and_reads_a_static_field() {
    let mut main = ClassBuilder::new("Main", Some("java/lang/Object"));
    main.field(0x0008, "count", "I");
    let f = main.field_ref("Main", "count", "I");
    let [h, l] = u2(f);
    main.method(0x0009, "main", "([Ljava/lang/String;)V", 1, 2, &[0x10, 42, 0xb3, h, l, 0xb2, h, l, 0x3c, 0xb1], &[]);
    let files = files_with(main, vec![]);
    let mut vm = VM::new(16);
    run(&mut vm, &files).unwrap();
    assert_eq!(main_frame_local(&vm, 1), Value::Int(42));
    assert_eq!(vm.class_loader.classes[1].static_values[0], Value::Int(42));
}

#[test]
fn stores_and_loads_array_elements() {
    let mut main = ClassBuilder::new("Main", Some("java/lang/Object"));
    let code = [
        0x06, 0xbc, 10, 0x4c, 0x2b, 0x04, 0x10, 7, 0x4f, 0x2b, 0x04, 0x2e, 0x3d, 0x2b, 0xbe, 0x3e, 0xb1,
    ];
    main.method(0x0009, "main", "([Ljava/lang/String;)V", 3, 4, &code, &[]);
    let files = files_with(main, vec![]);
    let mut vm = VM::new(16);
    run(&mut vm, &files).unwrap();
    assert_eq!(main_frame_local(&vm, 2), Value::Int(7));
    assert_eq!(main_frame_local(&vm, 3), Value::Int(3));
}

#[test]
fn array_index_past_the_end_throws() {
    let mut main = ClassBuilder::new("Main", Some("java/lang/Object"));
    let code = [0x05, 0xbc, 10, 0x4c, 0x2b, 0x07, 0x2e, 0x3d, 0xb1];
    main.method(0x0009, "main", "([Ljava/lang/String;)V", 3, 4, &code, &[]);
    let files = files_with(main, vec![]);
    let mut vm = VM::new(16);
    match run(&mut vm, &files) {
        Err(JVMError::UncaughtException(name)) => assert_eq!(name, "java/lang/ArrayIndexOutOfBoundsException"),
        other => panic!("unexpected outcome {:?}", other),
    }
}

#[test]
fn collection_frees_dropped_objects() {
    let mut point = ClassBuilder::new("Point", Some("java/lang/Object"));
    point.field(0x0000, "x", "I");
    let mut main = ClassBuilder::new("Main", Some("java/lang/Object"));
    let class = main.class("Point");
    let [ch, cl] = u2(class);
    let mut code = Vec::new();
    for _ in 0..6 {
        code.extend_from_slice(&[0xbb, ch, cl, 0x57]);
    }
    code.push(0xb1);
    main.method(0x0009, "main", "([Ljava/lang/String;)V", 1, 1, &code, &[]);
    let files = files_with(main, vec![("Point", point.bytes())]);
    let mut vm = VM::new(2);
    run(&mut vm, &files).unwrap();
    assert_eq!(vm.heap.arena.len(), 6);
}

#[test]
fn heap_exhausted_when_every_object_is_kept() {
    let mut point = ClassBuilder::new("Point", Some("java/lang/Object"));
    point.field(0x0000, "x", "I");
    let mut main = ClassBuilder::new("Main", Some("java/lang/Object"));
    let class = main.class("Point");
    let [ch, cl] = u2(class);
    let code = [0xbb, ch, cl, 0x4c, 0xbb, ch, cl, 0x4d, 0xbb, ch, cl, 0x4e, 0xb1];
    main.method(0x0009, "main", "([Ljava/lang/String;)V", 1, 4, &code, &[]);
    let files = files_with(main, vec![("Point", point.bytes())]);
    let mut vm = VM::new(2);
    match run(&mut vm, &files) {
        Err(JVMError::Other(m)) => assert_eq!(m, "Heap exhausted after GC"),
        other => panic!("unexpected outcome {:?}", other),
    }
}

#[test]
fn prints_a_string_through_a_native_method() {
    let mut string = ClassBuilder::new("java/lang/String", Some("java/lang/Object"));
    string.field(0x0000, "value", "[C");
    let mut io = ClassBuilder::new("ioTer", Some("java/lang/Object"));
    io.native_method("prints", "(Ljava/lang/String;)V");
    let mut main = ClassBuilder::new("Main", Some("java/lang/Object"));
    let s = main.string("hi");
    let prints = main.method_ref("ioTer", "prints", "(Ljava/lang/String;)V");
    let [ph, pl] = u2(prints);
    main.method(0x0009, "main", "([Ljava/lang/String;)V", 1, 1, &[0x12, s as u8, 0xb8, ph, pl, 0xb1], &[]);
    let files = files_with(main, vec![("java/lang/String", string.bytes()), ("ioTer", io.bytes())]);
    let mut vm = VM::new(16);
    let natives = run(&mut vm, &files).unwrap();
    assert_eq!(natives.len(), 1);
    match &natives[0][..] {
        [NativeArg::Text(t)] => assert_eq!(t, "hi"),
        other => panic!("unexpected arguments {:?}", other),
    }
}

#[test]
fn missing_superclass_is_reported_by_name() {
    let mut main = ClassBuilder::new("Main", Some("Missing"));
    main.method(0x0009, "main", "([Ljava/lang/String;)V", 1, 1, &[0xb1], &[]);
    let files = files_with(main, vec![]);
    let mut vm = VM::new(4);
    match load(&mut vm, &files, "Main") {
        Err(ClassLoadingError::NoClassDefFoundError(m)) => {
            assert_eq!(m, "Failed to load superclass Missing: Class not found exception: Could not find class Missing")
        }
        other => panic!("unexpected outcome {:?}", other.map(|_| ())),
    }
    assert!(vm.class_loader.classes.is_empty());
}

#[test]
fn a_class_is_loaded_once() {
    let mut main = ClassBuilder::new("Main", Some("java/lang/Object"));
    main.method(0x0009, "main", "([Ljava/lang/String;)V", 1, 1, &[0xb1], &[]);
    let files = files_with(main, vec![]);
    let mut vm = VM::new(4);
    let first = load(&mut vm, &files, "Main").unwrap();
    let second = load(&mut vm, &files, "Main").unwrap();
    assert_eq!(first, second);
    assert_eq!(vm.class_loader.classes.len(), 2);
    assert_eq!(vm.class_loader.find_loaded_class("java/lang/Object"), Some(0));
}

#[test]
fn a_superinterface_that_is_a_class_is_refused() {
    let mut main = ClassBuilder::new("Main", Some("java/lang/Object"));
    let not_interface = main.class("java/lang/Object");
    main.interfaces.push(not_interface);
    main.method(0x0009, "main", "([Ljava/lang/String;)V", 1, 1, &[0xb1], &[]);
    let files = files_with(main, vec![]);
    let mut vm = VM::new(4);
    match load(&mut vm, &files, "Main") {
        Err(ClassLoadingError::IncompatibleClassChangeError(m)) => assert_eq!(m, "Class java/lang/Object is not an interface"),
        other => panic!("unexpected outcome {:?}", other.map(|_| ())),
    }
}

#[test]
fn a_bad_magic_number_is_refused() {
    let mut files = HashMap::new();
    files.insert("Main".to_string(), vec![0, 1, 2, 3, 4, 5, 6, 7]);
    let mut vm = VM::new(4);
    match load(&mut vm, &files, "Main") {
        Err(ClassLoadingError::ClassFormatError(m)) => assert_eq!(m, "Invalid class file magic number"),
        other => panic!("unexpected outcome {:?}", other.map(|_| ())),
    }
}

#[test]
fn main_must_be_loaded_before_it_runs() {
    let mut vm = VM::new(4);
    assert!(matches!(vm.invoke_main("Main"), Err(JVMError::Other(_))));
    assert!(matches!(vm.step(), Err(JVMError::NoFrame)));
    assert!(vm.levels.is_empty() && vm.stack.frames.is_empty());
}

#[test]
fn a_call_pushes_a_level_and_its_return_pops_it() {
    let mut main = ClassBuilder::new("Main", Some("java/lang/Object"));
    let square = main.method_ref("Main", "square", "(I)I");
    let [hi, lo] = u2(square);
    main.method(0x0009, "main", "([Ljava/lang/String;)V", 1, 2, &[0x07, 0xb8, hi, lo, 0x3c, 0xb1], &[]);
    main.method(0x0009, "square", "(I)I", 2, 1, &[0x1a, 0x1a, 0x68, 0xac], &[]);
    let files = files_with(main, vec![]);
    let mut vm = VM::new(16);
    load(&mut vm, &files, "Main").unwrap();
    vm.invoke_main("Main").unwrap();
    assert!(matches!(vm.step(), Ok(Step::Continue)));
    assert!(matches!(vm.step(), Ok(Step::Continue)));
    assert_eq!(vm.levels, vec![0, 1]);
    assert_eq!(vm.stack.frames[1].locals[0], Value::Int(4));
    for _ in 0..4 {
        assert!(matches!(vm.step(), Ok(Step::Continue)));
    }
    assert_eq!(vm.levels, vec![0]);
    assert_eq!(vm.stack.frames.len(), 1);
    assert_eq!(vm.stack.frames[0].operands, vec![Value::Int(16)]);
    assert_eq!(vm.stack.frames[0].pc, 2);
    let _ = ExecutionResult::Continue;
}

#[test]
fn a_truncated_class_file_is_malformed() {
    let mut main = ClassBuilder::new("Main", Some("java/lang/Object"));
    main.method(0x0009, "main", "([Ljava/lang/String;)V", 1, 1, &[0xb1], &[]);
    let mut bytes = main.bytes();
    bytes.truncate(bytes.len() - 3);
    let mut files = HashMap::new();
    files.insert("Main".to_string(), bytes);
    let mut vm = VM::new(4);
    match load(&mut vm, &files, "Main") {
        Err(ClassLoadingError::ParseError(m)) => assert_eq!(m, "Malformed class file"),
        other => panic!("unexpected outcome {:?}", other.map(|_| ())),
    }
}

#[test]
fn a_byte_that_is_no_opcode_makes_the_file_malformed() {
    let mut main = ClassBuilder::new("Main", Some("java/lang/Object"));
    main.method(0x0009, "main", "([Ljava/lang/String;)V", 1, 1, &[0xcb, 0xb1], &[]);
    let files = files_with(main, vec![]);
    let mut vm = VM::new(4);
    match load(&mut vm, &files, "Main") {
        Err(ClassLoadingError::ParseError(m)) => assert_eq!(m, "Malformed class file"),
        other => panic!("unexpected outcome {:?}", other.map(|_| ())),
    }
}

#[test]
fn a_class_that_extends_itself_is_circular() {
    let main = ClassBuilder::new("Main", Some("Main"));
    let files = files_with(main, vec![]);
    let mut vm = VM::new(4);
    match load(&mut vm, &files, "Main") {
        Err(ClassLoadingError::NoClassDefFoundError(m)) => {
            assert_eq!(m, "Failed to load superclass Main: Class circularity error: Main")
        }
        other => panic!("unexpected outcome {:?}", other.map(|_| ())),
    }
}

#[test]
fn builds_a_two_dimensional_array() {
    let mut main = ClassBuilder::new("Main", Some("java/lang/Object"));
    let t = main.class("[[I");
    let [th, tl] = u2(t);
    main.method(0x0009, "main", "([Ljava/lang/String;)V", 2, 2, &[0x05, 0x06, 0xc5, th, tl, 0x02, 0x4c, 0xb1], &[]);
    let files = files_with(main, vec![]);
    let mut vm = VM::new(64);
    run(&mut vm, &files).unwrap();
    let outer = match main_frame_local(&vm, 1) {
        Value::Reference(Some(a)) => a,
        other => panic!("unexpected local {:?}", other),
    };
    match &vm.heap.arena[outer].kind {
        jvm::object::ObjectKind::ArrayInstance { length, elements, .. } => {
            assert_eq!(*length, 2);
            for e in elements {
                let inner = match e {
                    Value::Reference(Some(i)) => *i,
                    other => panic!("unexpected element {:?}", other),
                };
                match &vm.heap.arena[inner].kind {
                    jvm::object::ObjectKind::ArrayInstance { length, .. } => assert_eq!(*length, 3),
                    other => panic!("unexpected object {:?}", other),
                }
            }
        }
        other => panic!("unexpected object {:?}", other),
    }
}

#[test]
fn a_negative_array_size_is_refused() {
    let mut main = ClassBuilder::new("Main", Some("java/lang/Object"));
    let t = main.class("[[I");
    let [th, tl] = u2(t);
    main.method(0x0009, "main", "([Ljava/lang/String;)V", 2, 2, &[0x02, 0x05, 0xc5, th, tl, 0x02, 0x4c, 0xb1], &[]);
    let files = files_with(main, vec![]);
    let mut vm = VM::new(64);
    match run(&mut vm, &files) {
        Err(JVMError::Other(m)) => assert_eq!(m, "Negative array size"),
        other => panic!("unexpected outcome {:?}", other),
    }
}

#[test]
fn printf_passes_its_format_string() {
    let mut string = ClassBuilder::new("java/lang/String", Some("java/lang/Object"));
    string.field(0x0000, "value", "[C");
    let mut io = ClassBuilder::new("NativeIO", Some("java/lang/Object"));
    io.native_method("printf", "(Ljava/lang/String;)V");
    let mut main = ClassBuilder::new("Main", Some("java/lang/Object"));
    let s = main.string("n=%d");
    let printf = main.method_ref("NativeIO", "printf", "(Ljava/lang/String;)V");
    let [ph, pl] = u2(printf);
    main.method(0x0009, "main", "([Ljava/lang/String;)V", 1, 1, &[0x12, s as u8, 0xb8, ph, pl, 0xb1], &[]);
    let files = files_with(main, vec![("java/lang/String", string.bytes()), ("NativeIO", io.bytes())]);
    let mut vm = VM::new(16);
    let natives = run(&mut vm, &files).unwrap();
    match &natives[..] {
        [args] => match &args[..] {
            [NativeArg::Text(t)] => assert_eq!(t, "n=%d"),
            other => panic!("unexpected arguments {:?}", other),
        },
        other => panic!("unexpected calls {:?}", other),
    }
}

#[test]
fn printf_refuses_a_null_format() {
    let mut io = ClassBuilder::new("NativeIO", Some("java/lang/Object"));
    io.native_method("printf", "(Ljava/lang/String;)V");
    let mut main = ClassBuilder::new("Main", Some("java/lang/Object"));
    let printf = main.method_ref("NativeIO", "printf", "(Ljava/lang/String;)V");
    let [ph, pl] = u2(printf);
    main.method(0x0009, "main", "([Ljava/lang/String;)V", 1, 1, &[0x01, 0xb8, ph, pl, 0xb1], &[]);
    let files = files_with(main, vec![("NativeIO", io.bytes())]);
    let mut vm = VM::new(16);
    match run(&mut vm, &files) {
        Err(JVMError::Other(m)) => assert_eq!(m, "First argument must be a String format"),
        other => panic!("unexpected outcome {:?}", other),
    }
}

#[test]
fn an_interface_index_that_names_no_class_is_refused() {
    let mut main = ClassBuilder::new("Main", Some("java/lang/Object"));
    let not_a_class = main.utf8("Runnable");
    main.interfaces.push(not_a_class);
    let files = files_with(main, vec![]);
    let mut vm = VM::new(4);
    match load(&mut vm, &files, "Main") {
        Err(ClassLoadingError::ClassFormatError(m)) => assert_eq!(m, "Invalid interface index"),
        other => panic!("unexpected outcome {:?}", other.map(|_| ())),
    }
}

#[test]
fn a_field_with_missing_names_is_refused() {
    let mut main = ClassBuilder::new("Main", Some("java/lang/Object"));
    main.fields.push((0x0000, 900, 901));
    let files = files_with(main, vec![]);
    let mut vm = VM::new(4);
    match load(&mut vm, &files, "Main") {
        Err(ClassLoadingError::ClassFormatError(m)) => assert_eq!(m, "Unresolvable field in class file"),
        other => panic!("unexpected outcome {:?}", other.map(|_| ())),
    }
    assert_eq!(vm.class_loader.classes.len(), 1);
}

#[test]
fn a_handler_for_a_superclass_catches_the_exception() {
    let mut main = ClassBuilder::new("Main", Some("java/lang/Object"));
    let runtime = main.class("java/lang/RuntimeException");
    let code = [0x04, 0x03, 0x6c, 0x3c, 0xb1, 0x57, 0x02, 0x3c, 0xb1];
    main.method(0x0009, "main", "([Ljava/lang/String;)V", 2, 2, &code, &[(0, 5, 5, runtime)]);
    let arithmetic = ClassBuilder::new("java/lang/ArithmeticException", Some("java/lang/RuntimeException")).bytes();
    let runtime_class = ClassBuilder::new("java/lang/RuntimeException", Some("java/lang/Object")).bytes();
    let files = files_with(main, vec![("java/lang/ArithmeticException", arithmetic), ("java/lang/RuntimeException", runtime_class)]);
    let mut vm = VM::new(16);
    load(&mut vm, &files, "java/lang/ArithmeticException").unwrap();
    run(&mut vm, &files).unwrap();
    assert_eq!(main_frame_local(&vm, 1), Value::Int(-1));
}

#[test]
fn a_handler_for_an_unrelated_class_does_not_catch() {
    let mut main = ClassBuilder::new("Main", Some("java/lang/Object"));
    let other = main.class("java/lang/IllegalStateException");
    let code = [0x04, 0x03, 0x6c, 0x3c, 0xb1, 0x57, 0x02, 0x3c, 0xb1];
    main.method(0x0009, "main", "([Ljava/lang/String;)V", 2, 2, &code, &[(0, 5, 5, other)]);
    let files = files_with(main, vec![]);
    let mut vm = VM::new(16);
    match run(&mut vm, &files) {
        Err(JVMError::UncaughtException(name)) => assert_eq!(name, "java/lang/ArithmeticException"),
        other => panic!("unexpected outcome {:?}", other),
    }
}

fn three_deep(handler: bool) -> HashMap<String, Vec<u8>> {
    let mut main = ClassBuilder::new("Main", Some("java/lang/Object"));
    let [ahi, alo] = u2(main.method_ref("Main", "a", "()V"));
    let [bhi, blo] = u2(main.method_ref("Main", "b", "()V"));
    let handlers: Vec<(u16, u16, u16, u16)> = if handler { vec![(0, 3, 4, 0)] } else { vec![] };
    main.method(0x0009, "main", "([Ljava/lang/String;)V", 1, 2, &[0xb8, ahi, alo, 0xb1, 0x57, 0x02, 0x3c, 0xb1], &handlers);
    main.method(0x0009, "a", "()V", 1, 0, &[0xb8, bhi, blo, 0xb1], &[]);
    main.method(0x0009, "b", "()V", 2, 0, &[0x04, 0x03, 0x6c, 0x57, 0xb1], &[]);
    files_with(main, vec![])
}

#[test]
fn an_exception_unwinds_through_frames_without_handlers() {
    let files = three_deep(true);
    let mut vm = VM::new(16);
    run(&mut vm, &files).unwrap();
    assert_eq!(main_frame_local(&vm, 1), Value::Int(-1));
    assert_eq!(vm.stack.frames.len(), 1);
    assert!(vm.levels.is_empty());
}

#[test]
fn an_exception_that_no_frame_catches_ends_the_run() {
    let files = three_deep(false);
    let mut vm = VM::new(16);
    match run(&mut vm, &files) {
        Err(JVMError::UncaughtException(name)) => assert_eq!(name, "java/lang/ArithmeticException"),
        other => panic!("unexpected outcome {:?}", other),
    }
}

#[test]
fn instanceof_pushes_one_or_zero() {
    let mut main = ClassBuilder::new("Main", Some("java/lang/Object"));
    let this = main.class("Main");
    let [mhi, mlo] = u2(this);
    let [ohi, olo] = u2(main.class("java/lang/Object"));
    let [phi, plo] = u2(main.class("Point"));
    let code = [
        0x01, 0xc1, mhi, mlo, 0x3c, 0xbb, mhi, mlo, 0xc1, ohi, olo, 0x3d, 0xbb, mhi, mlo, 0xc1, phi, plo, 0x3e, 0xb1,
    ];
    main.method(0x0009, "main", "([Ljava/lang/String;)V", 1, 4, &code, &[]);
    let point = ClassBuilder::new("Point", Some("java/lang/Object")).bytes();
    let files = files_with(main, vec![("Point", point)]);
    let mut vm = VM::new(16);
    run(&mut vm, &files).unwrap();
    assert_eq!(main_frame_local(&vm, 1), Value::Int(0));
    assert_eq!(main_frame_local(&vm, 2), Value::Int(1));
    assert_eq!(main_frame_local(&vm, 3), Value::Int(0));
}

#[test]
fn if_acmpeq_branches_on_the_same_object() {
    let mut main = ClassBuilder::new("Main", Some("java/lang/Object"));
    let [mhi, mlo] = u2(main.class("Main"));
    let code = [0xbb, mhi, mlo, 0x59, 0xa5, 0x00, 0x06, 0x03, 0x3c, 0xb1, 0x04, 0x3c, 0xb1];
    main.method(0x0009, "main", "([Ljava/lang/String;)V", 2, 2, &code, &[]);
    let files = files_with(main, vec![]);
    let mut vm = VM::new(16);
    run(&mut vm, &files).unwrap();
    assert_eq!(main_frame_local(&vm, 1), Value::Int(1));
}

#[test]
fn if_acmpne_branches_on_two_objects() {
    let mut main = ClassBuilder::new("Main", Some("java/lang/Object"));
    let [mhi, mlo] = u2(main.class("Main"));
    let code = [0xbb, mhi, mlo, 0xbb, mhi, mlo, 0xa6, 0x00, 0x06, 0x03, 0x3c, 0xb1, 0x04, 0x3c, 0xb1];
    main.method(0x0009, "main", "([Ljava/lang/String;)V", 2, 2, &code, &[]);
    let files = files_with(main, vec![]);
    let mut vm = VM::new(16);
    run(&mut vm, &files).unwrap();
    assert_eq!(main_frame_local(&vm, 1), Value::Int(1));
}

#[test]
fn bastore_stores_into_a_boolean_array() {
    let mut main = ClassBuilder::new("Main", Some("java/lang/Object"));
    let code = [0x05, 0xbc, 4, 0x4c, 0x2b, 0x03, 0x04, 0x54, 0x2b, 0x03, 0x33, 0x3d, 0xb1];
    main.method(0x0009, "main", "([Ljava/lang/String;)V", 3, 3, &code, &[]);
    let files = files_with(main, vec![]);
    let mut vm = VM::new(16);
    run(&mut vm, &files).unwrap();
    assert_eq!(main_frame_local(&vm, 2), Value::Int(1));
}

#[test]
fn initialization_runs_superclasses_first_and_once() {
    let main = ClassBuilder::new("Main", Some("java/lang/Object"));
    let files = files_with(main, vec![]);
    let mut vm = VM::new(16);
    let m = load(&mut vm, &files, "Main").unwrap();
    let o = vm.class_loader.find_loaded_class("java/lang/Object").unwrap();
    assert_eq!(LoadedClass::initialize(&mut vm.class_loader, m).unwrap(), vec![o, m]);
    match LoadedClass::initialize(&mut vm.class_loader, m) {
        Err(JVMError::Other(msg)) => assert_eq!(msg, "Circular initialization detected"),
        other => panic!("unexpected outcome {:?}", other),
    }
    LoadedClass::mark_initialized(&mut vm.class_loader, o);
    LoadedClass::mark_initialized(&mut vm.class_loader, m);
    assert_eq!(LoadedClass::initialize(&mut vm.class_loader, m).unwrap(), Vec::<usize>::new());
}

#[test]
fn initialization_stops_at_an_initialized_superclass() {
    let main = ClassBuilder::new("Main", Some("java/lang/Object"));
    let files = files_with(main, vec![]);
    let mut vm = VM::new(16);
    let m = load(&mut vm, &files, "Main").unwrap();
    let o = vm.class_loader.find_loaded_class("java/lang/Object").unwrap();
    assert_eq!(LoadedClass::initialize(&mut vm.class_loader, o).unwrap(), vec![o]);
    LoadedClass::mark_initialized(&mut vm.class_loader, o);
    assert_eq!(LoadedClass::initialize(&mut vm.class_loader, m).unwrap(), vec![m]);
}

#[test]
fn an_instance_field_of_unknown_type_fails_only_when_an_object_is_made() {
    let mut odd = ClassBuilder::new("Odd", Some("java/lang/Object"));
    odd.field(0x0000, "q", "Q");
    let mut main = ClassBuilder::new("Main", Some("java/lang/Object"));
    let [h, l] = u2(main.class("Odd"));
    main.method(0x0009, "main", "([Ljava/lang/String;)V", 1, 1, &[0xbb, h, l, 0x57, 0xb1], &[]);
    let files = files_with(main, vec![("Odd", odd.bytes())]);
    let mut vm = VM::new(16);
    load(&mut vm, &files, "Odd").unwrap();
    match run(&mut vm, &files) {
        Err(JVMError::Other(m)) => assert_eq!(m, "Unknown descriptor type: Q"),
        other => panic!("unexpected outcome {:?}", other),
    }
}

#[test]
fn a_static_field_without_a_name_is_left_out() {
    let mut main = ClassBuilder::new("Main", Some("java/lang/Object"));
    let not_a_name = main.class("Other");
    let desc = main.utf8("I");
    main.fields.push((0x0008, not_a_name, desc));
    main.field(0x0008, "count", "I");
    let f = main.field_ref("Main", "count", "I");
    let [h, l] = u2(f);
    main.method(0x0009, "main", "([Ljava/lang/String;)V", 1, 2, &[0x10, 7, 0xb3, h, l, 0xb2, h, l, 0x3c, 0xb1], &[]);
    let files = files_with(main, vec![]);
    let mut vm = VM::new(16);
    run(&mut vm, &files).unwrap();
    assert_eq!(main_frame_local(&vm, 1), Value::Int(7));
    assert_eq!(vm.class_loader.classes[1].static_fields.len(), 1);
}

#[test]
fn a_class_loaded_by_another_load_meanwhile_is_not_added_twice() {
    let main = ClassBuilder::new("Main", Some("java/lang/Object"));
    let files = files_with(main, vec![]);
    let mut vm = VM::new(16);
    let (mut first, req) = vm.class_loader.begin_load("Main");
    assert!(matches!(req, LoadRequest::Read(ref n) if n == "Main"));
    let req = vm.class_loader.continue_load(&mut first, Ok(files["Main"].clone())).unwrap();
    assert!(matches!(req, LoadRequest::Read(ref n) if n == "java/lang/Object"));
    let o = load(&mut vm, &files, "java/lang/Object").unwrap();
    let req = vm.class_loader.continue_load(&mut first, Ok(files["java/lang/Object"].clone())).unwrap();
    let m = match req {
        LoadRequest::Done(i) => i,
        other => panic!("unexpected request {:?}", other),
    };
    assert_eq!(vm.class_loader.classes.len(), 2);
    assert_eq!(vm.class_loader.find_loaded_class("java/lang/Object"), Some(o));
    assert!(matches!(vm.class_loader.begin_load("java/lang/Object").1, LoadRequest::Done(i) if i == o));
    assert!(matches!(vm.class_loader.begin_load("Main").1, LoadRequest::Done(i) if i == m));
}

#[test]
fn static_initializers_run_superclass_first_then_mark_the_class() {
    let mut main = ClassBuilder::new("Main", Some("java/lang/Object"));
    main.field(0x0008, "count", "I");
    let [h, l] = u2(main.field_ref("Main", "count", "I"));
    main.method(0x0008, "<clinit>", "()V", 1, 0, &[0x10, 5, 0xb3, h, l, 0xb1], &[]);
    let files = files_with(main, vec![]);
    let mut vm = VM::new(16);
    let m = load(&mut vm, &files, "Main").unwrap();
    let o = vm.class_loader.find_loaded_class("java/lang/Object").unwrap();
    let order = LoadedClass::initialize(&mut vm.class_loader, m).unwrap();
    assert_eq!(order, vec![o, m]);
    let mut ran = Vec::new();
    for c in order {
        if vm.invoke_clinit(c).unwrap() {
            ran.push(c);
            loop {
                match vm.step().unwrap() {
                    Step::Continue => {}
                    Step::Finished => break,
                    other => panic!("unexpected request {:?}", other),
                }
            }
            vm.stack.pop_frame().unwrap();
        }
        LoadedClass::mark_initialized(&mut vm.class_loader, c);
    }
    assert_eq!(ran, vec![m]);
    assert_eq!(vm.class_loader.classes[m].static_values[0], Value::Int(5));
    assert!(vm.levels.is_empty() && vm.stack.frames.is_empty());
    assert_eq!(LoadedClass::initialize(&mut vm.class_loader, m).unwrap(), Vec::<usize>::new());
}
