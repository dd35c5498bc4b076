//! A small Java virtual machine: a class file parser, a frame-based
//! bytecode interpreter, a slot heap with a generational collector and a
//! table of loaded classes.

pub mod text;
pub mod instruction;
pub mod access_flag;
pub mod class_version;
pub mod attribute;
pub mod constant_pool;
pub mod class_file;
pub mod class_format;
pub mod class_file_reader;
pub mod jvm_error;
pub mod runtime;
pub mod loaded_class;
pub mod execute_locals;
pub mod execute_arith;
pub mod execute_shift;
pub mod execute_constant;
pub mod execute_stack;
pub mod execute_branch;
pub mod object;
pub mod class_loader;
pub mod heap;
pub mod garbage_collector;
pub mod allocation;
pub mod execute_field;
pub mod execute_array;
pub mod execute_object;
pub mod execute_method;
pub mod execute_exception;
pub mod execute;
pub mod vm;
pub mod class_load;
pub mod parse_des;
pub mod class_id;
pub mod state;
pub mod class_path;
pub mod native;
pub mod laws;
pub mod jvm_rules;
