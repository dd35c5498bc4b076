use std::sync::Arc;

use jvm::attribute::Code;
use jvm::class_file_reader::{ClassFileReader, ParseError};
use jvm::class_id::ClassId;
use jvm::class_loader::{ClassLoader, ClassLoadingError};
use jvm::class_path::{class_file_name, jar_member_name, split_class_path, BASE};
use jvm::constant_pool::{ConstantInfo, ConstantPool};
use jvm::execute_method::count_parameters;
use jvm::execute_shift::Conversion;
use jvm::instruction::{Instruction, Operation};
use jvm::jvm_error::JVMError;
use jvm::loaded_class::NameDes;
use jvm::native::{decimal, native_symbol};
use jvm::parse_des::{parse_descriptor, parse_return_type, NativeType};
use jvm::runtime::{ExecutionResult, Frame, Value};
use jvm::state::{Header, MessageData};
use jvm::vm::convert_instructions;

fn frame(operands: Vec<Value>) -> Frame {
    Frame {
        constant_pool: Arc::new(ConstantPool(vec![])),
        method_name_des: NameDes { name: "m".to_string(), des: "()V".to_string() },
        code: Arc::new(Code {
            max_stack: 4,
            max_locals: 4,
            code: vec![Instruction(0, Operation::Nop)],
            exception_table: vec![],
            attributes: vec![],
        }),
        pc: 0,
        locals: vec![Value::Default; 4],
        operands,
    }
}

#[test]
fn integer_addition_pushes_the_sum() {
    let mut f = frame(vec![Value::Int(2), Value::Int(3)]);
    assert!(matches!(f.iadd(), Ok(ExecutionResult::Continue)));
    assert_eq!(f.operands, vec![Value::Int(5)]);
}

#[test]
fn integer_overflow_is_an_error() {
    let mut f = frame(vec![Value::Int(i32::MAX), Value::Int(1)]);
    assert!(matches!(f.iadd(), Err(JVMError::ArithmeticOverflow)));
    let mut g = frame(vec![Value::Int(i32::MIN)]);
    assert!(matches!(g.ineg(), Err(JVMError::ArithmeticOverflow)));
}

#[test]
fn integer_division_by_zero_throws_and_remainder_fails() {
    let mut f = frame(vec![Value::Int(7), Value::Int(0)]);
    match f.idiv() {
        Ok(ExecutionResult::Throw(name)) => assert_eq!(name, "java/lang/ArithmeticException"),
        other => panic!("unexpected {:?}", other),
    }
    let mut g = frame(vec![Value::Int(7), Value::Int(0)]);
    assert!(matches!(g.irem(), Err(JVMError::DivisionByZero)));
}

#[test]
fn division_truncates_toward_zero() {
    let mut f = frame(vec![Value::Int(-7), Value::Int(2)]);
    assert!(matches!(f.idiv(), Ok(ExecutionResult::Continue)));
    assert_eq!(f.operands, vec![Value::Int(-3)]);
    let mut g = frame(vec![Value::Int(-7), Value::Int(2)]);
    assert!(matches!(g.irem(), Ok(ExecutionResult::Continue)));
    assert_eq!(g.operands, vec![Value::Int(-1)]);
}

#[test]
fn long_subtraction_and_shifts() {
    let mut f = frame(vec![Value::Long(10), Value::Long(15)]);
    assert!(matches!(f.lsub(), Ok(ExecutionResult::Continue)));
    assert_eq!(f.operands, vec![Value::Long(-5)]);
    let mut g = frame(vec![Value::Int(-16), Value::Int(2)]);
    assert!(matches!(g.ishr(), Ok(ExecutionResult::Continue)));
    assert_eq!(g.operands, vec![Value::Int(-4)]);
    let mut h = frame(vec![Value::Int(-16), Value::Int(28)]);
    assert!(matches!(h.iushr(), Ok(ExecutionResult::Continue)));
    assert_eq!(h.operands, vec![Value::Int(15)]);
}

#[test]
fn narrowing_conversions_keep_the_low_bits() {
    let mut f = frame(vec![Value::Int(0x1ff)]);
    assert!(matches!(f.convert(Conversion::I2B), Ok(ExecutionResult::Continue)));
    assert_eq!(f.operands, vec![Value::Int(-1)]);
    let mut g = frame(vec![Value::Int(-1)]);
    assert!(matches!(g.convert(Conversion::I2C), Ok(ExecutionResult::Continue)));
    assert_eq!(g.operands, vec![Value::Int(0xffff)]);
    let mut h = frame(vec![Value::Long(0x1_0000_0005)]);
    assert!(matches!(h.convert(Conversion::L2I), Ok(ExecutionResult::Continue)));
    assert_eq!(h.operands, vec![Value::Int(5)]);
}

#[test]
fn wrong_operand_kind_is_reported() {
    let mut f = frame(vec![Value::Long(1), Value::Int(1)]);
    assert!(matches!(f.iadd(), Err(JVMError::InvalidOperandType { .. })));
    let mut g = frame(vec![Value::Int(1)]);
    assert!(matches!(g.iadd(), Err(JVMError::InsufficientOperands { required: 2, found: 1 })));
}

#[test]
fn storing_then_loading_a_local_gives_the_value_back() {
    let mut f = frame(vec![Value::Int(9), Value::Int(42)]);
    assert!(matches!(f.istore(2), Ok(ExecutionResult::Continue)));
    assert!(matches!(f.iload(2), Ok(ExecutionResult::Continue)));
    assert_eq!(f.operands, vec![Value::Int(9), Value::Int(42)]);
    assert_eq!(f.locals[2], Value::Int(42));
}

#[test]
fn loading_a_local_of_another_kind_fails() {
    let mut f = frame(vec![Value::Long(3)]);
    assert!(matches!(f.lstore(1), Ok(ExecutionResult::Continue)));
    assert!(matches!(f.iload(1), Err(JVMError::TypeMismatch { .. })));
    assert!(matches!(f.iload(9), Err(JVMError::IndexOutOfBounds { index: 9, max: 4 })));
}

#[test]
fn push_past_the_maximum_depth_overflows() {
    let mut f = frame(vec![Value::Int(1), Value::Int(2), Value::Int(3), Value::Int(4)]);
    assert!(matches!(f.iconst(5), Err(JVMError::StackOverflow)));
    assert_eq!(f.operands.len(), 4);
}

#[test]
fn dup_x1_copies_the_top_under_the_second() {
    let mut f = frame(vec![Value::Int(1), Value::Int(2)]);
    assert!(matches!(f.dup_x1(), Ok(ExecutionResult::Continue)));
    assert_eq!(f.operands, vec![Value::Int(2), Value::Int(1), Value::Int(2)]);
}

#[test]
fn counts_parameters_of_descriptors() {
    assert_eq!(count_parameters("()V"), 0);
    assert_eq!(count_parameters("(IJLjava/lang/String;)V"), 3);
    assert_eq!(count_parameters("(I[II)V"), 3);
    assert_eq!(count_parameters("(IJLjava/lang/String;[[I)V"), 4);
    assert_eq!(count_parameters("([Ljava/lang/String;)V"), 1);
    assert_eq!(count_parameters("(I[JLjava/lang/Object;)V"), 3);
    assert_eq!(count_parameters("([[Ljava/lang/Object;D)I"), 2);
}

#[test]
fn takes_a_descriptor_apart() {
    let p = parse_descriptor("(ILjava/lang/String;[I[[Ljava/lang/Object;)V").unwrap();
    assert_eq!(p.arg_types, vec!["I", "Ljava/lang/String;", "[I", "[[Ljava/lang/Object;"]);
    assert_eq!(p.return_type, "V");
}

#[test]
fn refuses_malformed_descriptors() {
    assert_eq!(parse_descriptor("I)V").unwrap_err(), "Invalid descriptor: expected '('");
    assert_eq!(parse_descriptor("([").unwrap_err(), "Invalid descriptor: incomplete array type");
    assert_eq!(parse_descriptor("(X)V").unwrap_err(), "Unexpected character in descriptor: X");
    assert_eq!(parse_descriptor("(I)Ljava/lang/String;").unwrap_err(), "Invalid descriptor: extra characters after return type");
    assert_eq!(parse_descriptor("(I").unwrap_err(), "Invalid descriptor: missing ')' or return type");
}

#[test]
fn return_types_map_to_native_types() {
    assert_eq!(parse_return_type("V"), Ok(NativeType::Void));
    assert_eq!(parse_return_type("Z"), Ok(NativeType::I32));
    assert_eq!(parse_return_type("J"), Ok(NativeType::I64));
    assert_eq!(parse_return_type("["), Ok(NativeType::Pointer));
    assert_eq!(parse_return_type("Q"), Err("Unsupported return type: Q".to_string()));
}

#[test]
fn splits_and_joins_a_class_path() {
    let parts = split_class_path("a:b::c");
    assert_eq!(parts, vec!["a", "b", "", "c"]);
    assert_eq!(parts.join(":"), "a:b::c");
    assert_eq!(split_class_path(""), vec![""]);
}

#[test]
fn names_class_files() {
    assert_eq!(class_file_name("pkg/A"), "pkg/A.class");
    assert_eq!(jar_member_name(BASE, "java/lang/Object"), "classes/java/lang/Object.class");
    assert_eq!(jar_member_name("/tmp/lib.jar", "x/Y"), "x/Y.class");
}

#[test]
fn native_symbols_and_numbers() {
    assert_eq!(native_symbol("java/lang/Foo", "bar"), "Java_java_lang_Foo_bar");
    assert_eq!(decimal(0), "0");
    assert_eq!(decimal(1234), "1234");
}

#[test]
fn class_identities_keep_their_number() {
    assert_eq!(ClassId::new(7).id_as_u32(), 7);
}

#[test]
fn loading_errors_describe_themselves() {
    assert_eq!(ClassLoadingError::ClassFormatError("x".to_string()).describe(), "ClassFormatError: x");
    assert_eq!(ClassLoadingError::IoError("gone".to_string()).describe(), "I/O error: gone");
}

#[test]
fn class_format_checks_magic_and_length() {
    assert!(matches!(ClassLoader::verify_class_format(&[0xCA, 0xFE]), Err(ClassLoadingError::ClassFormatError(_))));
    match ClassLoader::verify_class_format(&[0xCA, 0xFE, 0xBA, 0xBE, 0]) {
        Err(ClassLoadingError::ClassFormatError(m)) => assert_eq!(m, "Class file too short"),
        other => panic!("unexpected {:?}", other),
    }
    assert!(ClassLoader::verify_class_format(&[0xCA, 0xFE, 0xBA, 0xBE, 0, 0, 0, 52]).is_ok());
}

#[test]
fn viewer_messages() {
    let m = MessageData::data("{}".to_string());
    assert_eq!(m.header, Header::DATA);
    assert_eq!(m.json, "{}");
    let e = MessageData::end();
    assert_eq!(e.header, Header::EOF);
    assert!(e.json.is_empty());
}

#[test]
fn instructions_become_operations() {
    let ops = convert_instructions(vec![Instruction(0, Operation::Iconst1), Instruction(1, Operation::Bipush(3))]);
    assert!(matches!(ops[..], [Operation::Iconst1, Operation::Bipush(3)]));
}

#[test]
fn constant_pool_lookups() {
    let pool = ConstantPool(vec![ConstantInfo::Integer(jvm::constant_pool::ConstantIntegerInfo(5))]);
    assert!(pool.get_entry(0).is_none());
    assert!(matches!(pool.get_entry(1), Some(ConstantInfo::Integer(_))));
    assert!(pool.get_entry(2).is_none());
}

#[test]
fn native_calls_are_checked_before_they_are_made() {
    let heap = jvm::heap::Heap::new(8);
    let no_args: Vec<Value> = vec![];
    match jvm::native::prepare_native_call("Java_NativeIO_printf", &no_args, "()V", &heap) {
        Err(m) => assert_eq!(m, "No arguments provided for printf"),
        Ok(_) => panic!("printf without arguments was accepted"),
    }
    let three = vec![Value::Int(1), Value::Int(2), Value::Int(3)];
    match jvm::native::prepare_native_call("Java_ioTer_add", &three, "(II)I", &heap) {
        Err(m) => assert_eq!(m, "Expected 2 arguments for add, got 3"),
        Ok(_) => panic!("add with three arguments was accepted"),
    }
    match jvm::native::prepare_native_call("Java_x_y", &three, "()V", &heap) {
        Err(m) => assert_eq!(m, "Unknown native function: Java_x_y"),
        Ok(_) => panic!("an unknown function was accepted"),
    }
    match jvm::native::prepare_native_call("Java_ioTer_add", &vec![Value::Int(1), Value::Int(2)], "(II)I", &heap) {
        Ok(call) => {
            assert!(matches!(call.args[..], [jvm::native::NativeArg::I32(1), jvm::native::NativeArg::I32(2)]));
            assert!(!call.void);
        }
        Err(m) => panic!("add was refused: {}", m),
    }
}

#[test]
fn lookupswitch_keys_must_increase() {
    let mut r = ClassFileReader::new(vec![
        0xab, 0, 0, 0, 0, 0, 0, 0, 0, 0, 0, 2, 0, 0, 0, 5, 0, 0, 0, 8, 0, 0, 0, 5, 0, 0, 0, 12,
    ]);
    assert_eq!(r.parse_instruction(&0).unwrap_err(), ParseError::UnorderedLookupswitch(5, 5));
}

#[test]
fn lookupswitch_pairs_must_not_be_negative() {
    let mut r = ClassFileReader::new(vec![0xab, 0, 0, 0, 0, 0, 0, 0, 0xff, 0xff, 0xff, 0xff]);
    assert_eq!(r.parse_instruction(&0).unwrap_err(), ParseError::NegativeLookupswitchPairs(-1));
}

#[test]
fn tableswitch_bounds_must_be_in_order() {
    let mut r = ClassFileReader::new(vec![0xaa, 0, 0, 0, 0, 0, 0, 0, 0, 0, 0, 2, 0, 0, 0, 1]);
    assert_eq!(r.parse_instruction(&0).unwrap_err(), ParseError::TableswitchBounds(2, 1));
}

#[test]
fn a_byte_that_is_no_opcode_is_refused() {
    let mut r = ClassFileReader::new(vec![0xcb, 0x00]);
    assert_eq!(r.parse_instruction(&0).unwrap_err(), ParseError::InvalidOpcode(203));
}

#[test]
fn an_instruction_cut_short_is_unexpected_eof() {
    let mut r = ClassFileReader::new(vec![0x10]);
    assert_eq!(r.parse_instruction(&0).unwrap_err(), ParseError::UnexpectedEof);
}

#[test]
fn reads_a_lookupswitch() {
    let mut r = ClassFileReader::new(vec![
        0xab, 0, 0, 0, 0, 0, 0, 9, 0, 0, 0, 2, 0, 0, 0, 1, 0, 0, 0, 8, 0, 0, 0, 5, 0, 0, 0, 12,
    ]);
    let (n, op) = r.parse_instruction(&0).unwrap();
    assert_eq!(n, 28);
    match op {
        Operation::Lookupswitch(d, n, pairs) => {
            assert_eq!((d, n), (9, 2));
            assert_eq!(pairs, vec![(1, 8), (5, 12)]);
        }
        other => panic!("unexpected operation {:?}", other),
    }
}

#[test]
fn a_failed_conversion_pushes_nothing() {
    let mut f = frame(vec![Value::Long(1)]);
    match f.convert(Conversion::I2L) {
        Err(JVMError::InvalidOperandType { expected, found }) => {
            assert_eq!(expected, "int");
            assert_eq!(found, "long");
        }
        other => panic!("unexpected outcome {:?}", other),
    }
    assert!(f.operands.is_empty());
}
