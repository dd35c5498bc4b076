//! Native calls: the symbol of a native method, and the arguments and the
//! return type with which the host calls it.
//!
//! Loading libraries and calling through their symbols is the host's part.

use vstd::prelude::*;
use crate::allocation::string_read;
use crate::heap::Heap;
use crate::object::{Object, ObjectKind};
use crate::parse_des::{descriptor_error_text, parse_descriptor, parse_return_type, spec_parse_descriptor, spec_return_type, NativeType};
use crate::runtime::Value;
use crate::text::{concat, str_eq, str_to_chars, string_push};

verus! {

/// The decimal digits of `n`.
pub open spec fn spec_decimal(n: nat) -> Seq<char>
    decreases n,
{
    let d = ((n % 10) as u8 + 48) as char;
    if n < 10 {
        seq![d]
    } else {
        spec_decimal(n / 10).push(d)
    }
}

/// The decimal digits of `n`.
pub fn decimal(n: usize) -> (res: String)
    ensures
        res@ == spec_decimal(n as nat),
    decreases n,
{
    let d = ((n % 10) as u8 + 48) as char;
    if n < 10 {
        let mut s = String::new();
        string_push(&mut s, d);
        s
    } else {
        let mut s = decimal(n / 10);
        string_push(&mut s, d);
        s
    }
}

/// The symbol of native method `method_name` of class `class_name`:
/// `Java_`, the class name with `_` for each `/`, `_` and the method name.
pub open spec fn spec_native_symbol(class_name: Seq<char>, method_name: Seq<char>) -> Seq<char> {
    "Java_"@ + class_name.map_values(|c: char| if c == '/' { '_' } else { c }) + "_"@ + method_name
}

/// The symbol of a native method.
pub fn native_symbol(class_name: &str, method_name: &str) -> (res: String)
    ensures
        res@ == spec_native_symbol(class_name@, method_name@),
{
    let chars = str_to_chars(class_name);
    let mut s = String::new();
    let mut i: usize = 0;
    while i < chars.len()
        invariant
            i <= chars@.len(),
            chars@ == class_name@,
            s@ == class_name@.take(i as int).map_values(|c: char| if c == '/' { '_' } else { c }),
        decreases chars@.len() - i,
    {
        let c = chars[i];
        string_push(&mut s, if c == '/' { '_' } else { c });
        i = i + 1;
        assert(class_name@.take(i as int).map_values(|c: char| if c == '/' { '_' } else { c }) =~= class_name@.take(i - 1).map_values(
            |c: char| if c == '/' { '_' } else { c }).push(if c == '/' { '_' } else { c }));
    }
    assert(class_name@.take(i as int) =~= class_name@);
    let a = concat("Java_", s.as_str());
    let b = concat(a.as_str(), "_");
    concat(b.as_str(), method_name)
}

/// A value handed to a native function. Floating-point values are kept as
/// their bit patterns; the three `…AsDouble` forms are widened to a
/// `double` by the caller.
#[derive(Debug)]
pub enum NativeArg {
    I32(i32),
    I64(i64),
    F32(u32),
    F64(u64),
    Text(String),
    IntAsDouble(i32),
    FloatAsDouble(u32),
}

/// How to call a native function: its arguments, and the type of what it
/// returns.
#[derive(Debug)]
pub struct NativeCall {
    pub args: Vec<NativeArg>,
    pub return_type: NativeType,
    /// Whether the function returns nothing: the call then gives `0`.
    pub void: bool,
}

/// Whether parameter type `t` is passed as an `int`.
pub open spec fn int_kind(t: Seq<char>) -> bool {
    t == "I"@ || t == "B"@ || t == "S"@ || t == "C"@ || t == "Z"@
}

/// The message with which `printf` refuses vararg `v` for parameter type
/// `t`, or `None` when `v` fits `t`.
pub open spec fn vararg_refusal(v: Value, t: Seq<char>, arena: Seq<Object>) -> Option<Seq<char>> {
    let mismatch = Some("Type mismatch: expected="@ + t);
    match v {
        Value::Int(_) => if int_kind(t) { None } else { mismatch },
        Value::Long(_) => if t == "J"@ { None } else { mismatch },
        Value::Float(_) => if t == "F"@ { None } else { mismatch },
        Value::Double(_) => if t == "D"@ { None } else { mismatch },
        Value::Reference(Some(o)) => if t == "Ljava/lang/String;"@ {
            match string_read(arena, o) {
                Ok(_) => None,
                Err(m) => Some(m),
            }
        } else {
            mismatch
        },
        _ => mismatch,
    }
}

/// Whether `a` is the form in which vararg `v` is passed.
pub open spec fn vararg_passed(v: Value, arena: Seq<Object>, a: NativeArg) -> bool {
    match v {
        Value::Int(i) => a == NativeArg::I32(i),
        Value::Long(l) => a == NativeArg::I64(l),
        Value::Float(f) => a == NativeArg::F32(f),
        Value::Double(d) => a == NativeArg::F64(d),
        Value::Reference(Some(o)) => a matches NativeArg::Text(s) && string_read(arena, o) == Ok::<Seq<char>, Seq<char>>(s@),
        _ => false,
    }
}

/// How many of the varargs `elements` are passed: one for each parameter
/// type after the format string's, as far as there are elements.
pub open spec fn vararg_count(elements: Seq<Value>, types: Seq<Seq<char>>) -> int {
    if types.len() <= elements.len() + 1 {
        if types.len() == 0 { 0 } else { types.len() - 1 }
    } else {
        elements.len() as int
    }
}

/// The first refusal among the varargs from position `k` on that are passed.
pub open spec fn first_refusal(elements: Seq<Value>, types: Seq<Seq<char>>, arena: Seq<Object>, k: nat) -> Option<Seq<char>>
    decreases elements.len() - k,
{
    if k < elements.len() && k + 1 < types.len() {
        match vararg_refusal(elements[k as int], types[k + 1int], arena) {
            Some(m) => Some(m),
            None => first_refusal(elements, types, arena, k + 1),
        }
    } else {
        None
    }
}

/// Whether `out` holds, after `format`, the varargs of `elements` that are
/// passed, each in its form.
pub open spec fn varargs_passed(elements: Seq<Value>, types: Seq<Seq<char>>, arena: Seq<Object>, format: Seq<char>, out: Seq<NativeArg>) -> bool {
    &&& out.len() == 1 + vararg_count(elements, types)
    &&& out[0] matches NativeArg::Text(f) && f@ == format
    &&& forall|j: int| 0 <= j < vararg_count(elements, types) ==> vararg_passed(elements[j], arena, #[trigger] out[1 + j])
}

/// The message with which `printf` refuses `args`, or `None`.
pub open spec fn printf_refusal(args: Seq<Value>, types: Seq<Seq<char>>, arena: Seq<Object>) -> Option<Seq<char>> {
    if args.len() == 0 {
        Some("No arguments provided for printf"@)
    } else {
        match args[0] {
            Value::Reference(Some(o)) => match string_read(arena, o) {
                Err(m) => Some(m),
                Ok(_) => if args.len() == 1 {
                    None
                } else {
                    match args[1] {
                        Value::Reference(Some(a)) => if a >= arena.len() {
                            Some("Varargs argument is not an array"@)
                        } else {
                            match arena[a as int].kind {
                                ObjectKind::ArrayInstance { elements, element_type, .. } => if element_type@ != "[Ljava/lang/Object;"@ {
                                    Some("Expected [Ljava/lang/Object; got "@ + element_type@)
                                } else {
                                    first_refusal(elements@, types, arena, 0)
                                },
                                _ => Some("Varargs argument is not an array"@),
                            }
                        },
                        _ => Some("Second argument must be an array for varargs"@),
                    }
                },
            },
            _ => Some("First argument must be a String format"@),
        }
    }
}

/// Whether `out` is what `printf` is passed for `args` that it takes: the
/// format string's text, then the varargs that are passed.
pub open spec fn printf_passed(args: Seq<Value>, types: Seq<Seq<char>>, arena: Seq<Object>, out: Seq<NativeArg>) -> bool {
    &&& args.len() > 0
    &&& args[0] matches Value::Reference(Some(o))
    &&& string_read(arena, o) matches Ok(format)
    &&& if args.len() == 1 {
        &&& out.len() == 1
        &&& out[0] matches NativeArg::Text(f)
        &&& f@ == format
    } else {
        &&& args[1] matches Value::Reference(Some(a))
        &&& a < arena.len()
        &&& arena[a as int].kind matches ObjectKind::ArrayInstance { elements, .. }
        &&& varargs_passed(elements@, types, arena, format, out)
    }
}

/// The arguments of `add` and `printn`, or the message of why `args` do
/// not fit.
pub open spec fn simple_args(name: Seq<char>, args: Seq<Value>) -> Option<Result<Seq<NativeArg>, Seq<char>>> {
    if name == "Java_ioTer_add"@ {
        Some(if args.len() != 2 {
            Err("Expected 2 arguments for add, got "@ + spec_decimal(args.len()))
        } else {
            match (args[0], args[1]) {
                (Value::Int(a), Value::Int(b)) => Ok(seq![NativeArg::I32(a), NativeArg::I32(b)]),
                _ => Err("Expected two int arguments for add"@),
            }
        })
    } else if name == "Java_ioTer_printn"@ {
        Some(if args.len() != 1 {
            Err("Expected 1 argument for printNum, got "@ + spec_decimal(args.len()))
        } else {
            match args[0] {
                Value::Int(i) => Ok(seq![NativeArg::IntAsDouble(i)]),
                Value::Float(f) => Ok(seq![NativeArg::FloatAsDouble(f)]),
                Value::Double(d) => Ok(seq![NativeArg::F64(d)]),
                _ => Err("Argument must be a number (int, float, double)"@),
            }
        })
    } else {
        None
    }
}

/// The message with which `prints` refuses `args`, or `None`.
pub open spec fn prints_refusal(args: Seq<Value>, arena: Seq<Object>) -> Option<Seq<char>> {
    if args.len() != 1 {
        Some("Expected 1 arguments for add, got "@ + spec_decimal(args.len()))
    } else {
        match args[0] {
            Value::Reference(Some(o)) => match string_read(arena, o) {
                Ok(_) => None,
                Err(m) => Some(m),
            },
            _ => Some("Expected string argument"@),
        }
    }
}

/// Whether `out` passes the one string argument of `prints` in `args`.
pub open spec fn prints_args(args: Seq<Value>, arena: Seq<Object>, out: Seq<NativeArg>) -> bool {
    &&& args.len() == 1
    &&& args[0] matches Value::Reference(Some(o))
    &&& string_read(arena, o) matches Ok(t)
    &&& out.len() == 1
    &&& out[0] matches NativeArg::Text(s)
    &&& s@ == t
}

/// The message with which native function `name` refuses `args` for the
/// parameter types `types`, or `None` when it takes them.
pub open spec fn call_refusal(name: Seq<char>, args: Seq<Value>, types: Seq<Seq<char>>, arena: Seq<Object>) -> Option<Seq<char>> {
    if name == "Java_NativeIO_printf"@ {
        printf_refusal(args, types, arena)
    } else if name == "Java_ioTer_prints"@ {
        prints_refusal(args, arena)
    } else {
        match simple_args(name, args) {
            Some(Err(m)) => Some(m),
            Some(Ok(_)) => None,
            None => Some("Unknown native function: "@ + name),
        }
    }
}

/// Whether `out` is what native function `name` is passed for `args` that
/// it takes.
pub open spec fn call_args(name: Seq<char>, args: Seq<Value>, types: Seq<Seq<char>>, arena: Seq<Object>, out: Seq<NativeArg>) -> bool {
    if name == "Java_NativeIO_printf"@ {
        printf_passed(args, types, arena, out)
    } else if name == "Java_ioTer_prints"@ {
        prints_args(args, arena, out)
    } else {
        simple_args(name, args) == Some(Ok::<Seq<NativeArg>, Seq<char>>(out))
    }
}

/// The view of each parameter type.
pub open spec fn type_views(types: Seq<String>) -> Seq<Seq<char>> {
    types.map_values(|t: String| t@)
}

/// Appends the elements of a `printf` argument array to `out`, each in the
/// form that the parameter type after the format string asks for; stops at
/// the shorter of the two lists.
fn push_varargs(elements: &Vec<Value>, arg_types: &Vec<String>, heap: &Heap, out: &mut Vec<NativeArg>) -> (res: Result<(), String>)
    ensures
        match first_refusal(elements@, type_views(arg_types@), heap.arena@, 0) {
            Some(m) => res matches Err(e) && e@ == m,
            None => {
                &&& res is Ok
                &&& final(out)@.len() == old(out)@.len() + vararg_count(elements@, type_views(arg_types@))
                &&& final(out)@.take(old(out)@.len() as int) == old(out)@
                &&& forall|j: int| 0 <= j < vararg_count(elements@, type_views(arg_types@))
                    ==> vararg_passed(elements@[j], heap.arena@, #[trigger] final(out)@[old(out)@.len() + j])
            },
        },
{
    let ghost types = type_views(arg_types@);
    let mut k: usize = 0;
    while k < elements.len() && k + 1 < arg_types.len()
        invariant
            k <= elements@.len(),
            types == type_views(arg_types@),
            first_refusal(elements@, types, heap.arena@, 0) == first_refusal(elements@, types, heap.arena@, k as nat),
            out@.len() == old(out)@.len() + k,
            out@.take(old(out)@.len() as int) == old(out)@,
            forall|j: int| 0 <= j < k ==> vararg_passed(elements@[j], heap.arena@, #[trigger] out@[old(out)@.len() + j]),
            k < elements@.len() ==> k <= vararg_count(elements@, types) || k + 1 >= types.len(),
            k <= vararg_count(elements@, types),
        decreases elements@.len() - k,
    {
        let expected = arg_types[k + 1].as_str();
        assert(expected@ == types[k + 1]);
        let v = elements[k];
        let is_int_kind = str_eq(expected, "I") || str_eq(expected, "B") || str_eq(expected, "S") || str_eq(expected, "C")
            || str_eq(expected, "Z");
        let ghost before = out@;
        match v {
            Value::Int(i) if is_int_kind => out.push(NativeArg::I32(i)),
            Value::Long(l) if str_eq(expected, "J") => out.push(NativeArg::I64(l)),
            Value::Float(f) if str_eq(expected, "F") => out.push(NativeArg::F32(f)),
            Value::Double(d) if str_eq(expected, "D") => out.push(NativeArg::F64(d)),
            Value::Reference(Some(o)) if str_eq(expected, "Ljava/lang/String;") => {
                let s = heap.extract_string(o)?;
                out.push(NativeArg::Text(s));
            },
            _ => {
                return Err(concat("Type mismatch: expected=", expected));
            },
        }
        assert(out@.take(old(out)@.len() as int) =~= before.take(old(out)@.len() as int));
        k = k + 1;
    }
    Ok(())
}

/// Prepares the call of native function `name` with `args` for the
/// method descriptor `descriptor`: checks the arguments that the function
/// takes, turns each into the form it is passed in, and reads the return
/// type from the descriptor.
pub fn prepare_native_call(name: &str, args: &Vec<Value>, descriptor: &str, heap: &Heap) -> (res: Result<NativeCall, String>)
    ensures
        match spec_parse_descriptor(descriptor@) {
            Err(e) => res matches Err(m) && m@ == descriptor_error_text(e),
            Ok((types, r)) => match call_refusal(name@, args@, types, heap.arena@) {
                Some(m) => res matches Err(e) && e@ == m,
                None => match spec_return_type(seq![r]) {
                    None => res matches Err(m) && m@ == "Unsupported return type: "@ + seq![r],
                    Some(t) => {
                        &&& res matches Ok(call)
                        &&& call.return_type == t
                        &&& call.void == (r == 'V')
                        &&& call_args(name@, args@, types, heap.arena@, call.args@)
                    },
                },
            },
        },
{
    proof {
        reveal_strlit("Java_NativeIO_printf");
        reveal_strlit("Java_ioTer_add");
        reveal_strlit("Java_ioTer_prints");
        reveal_strlit("Java_ioTer_printn");
        assert("Java_NativeIO_printf"@.len() != "Java_ioTer_add"@.len());
        assert("Java_NativeIO_printf"@.len() != "Java_ioTer_printn"@.len());
        assert("Java_ioTer_prints"@.len() != "Java_ioTer_add"@.len());
        assert("Java_ioTer_prints"@[16] != "Java_ioTer_printn"@[16]);
    }
    let parsed = parse_descriptor(descriptor)?;
    proof {
        let (types, r) = spec_parse_descriptor(descriptor@)->Ok_0;
        assert(type_views(parsed.arg_types@) =~= types);
    }
    let mut out: Vec<NativeArg> = Vec::new();
    if str_eq(name, "Java_NativeIO_printf") {
        if args.len() == 0 {
            return Err("No arguments provided for printf".to_string());
        }
        let format = match args[0] {
            Value::Reference(Some(o)) => heap.extract_string(o)?,
            _ => {
                return Err("First argument must be a String format".to_string());
            },
        };
        out.push(NativeArg::Text(format));
        if args.len() > 1 {
            let a = match args[1] {
                Value::Reference(Some(a)) => a,
                _ => {
                    return Err("Second argument must be an array for varargs".to_string());
                },
            };
            if a >= heap.arena.len() {
                return Err("Varargs argument is not an array".to_string());
            }
            match &heap.arena[a].kind {
                ObjectKind::ArrayInstance { elements, element_type, .. } => {
                    if !str_eq(element_type.as_str(), "[Ljava/lang/Object;") {
                        return Err(concat("Expected [Ljava/lang/Object; got ", element_type.as_str()));
                    }
                    let ghost before = out@;
                    push_varargs(elements, &parsed.arg_types, heap, &mut out)?;
                    proof {
                        assert(out@[0] == out@.take(1)[0]);
                        assert(forall|j: int| 0 <= j < vararg_count(elements@, type_views(parsed.arg_types@))
                            ==> #[trigger] out@[1 + j] == out@[before.len() + j]);
                    }
                },
                _ => {
                    return Err("Varargs argument is not an array".to_string());
                },
            }
        }
    } else if str_eq(name, "Java_ioTer_add") {
        if args.len() != 2 {
            return Err(concat("Expected 2 arguments for add, got ", decimal(args.len()).as_str()));
        }
        match (args[0], args[1]) {
            (Value::Int(a), Value::Int(b)) => {
                out.push(NativeArg::I32(a));
                out.push(NativeArg::I32(b));
            },
            _ => {
                return Err("Expected two int arguments for add".to_string());
            },
        }
    } else if str_eq(name, "Java_ioTer_prints") {
        if args.len() != 1 {
            return Err(concat("Expected 1 arguments for add, got ", decimal(args.len()).as_str()));
        }
        match args[0] {
            Value::Reference(Some(o)) => {
                let s = heap.extract_string(o)?;
                out.push(NativeArg::Text(s));
            },
            _ => {
                return Err("Expected string argument".to_string());
            },
        }
    } else if str_eq(name, "Java_ioTer_printn") {
        if args.len() != 1 {
            return Err(concat("Expected 1 argument for printNum, got ", decimal(args.len()).as_str()));
        }
        match args[0] {
            Value::Int(i) => out.push(NativeArg::IntAsDouble(i)),
            Value::Float(f) => out.push(NativeArg::FloatAsDouble(f)),
            Value::Double(d) => out.push(NativeArg::F64(d)),
            _ => {
                return Err("Argument must be a number (int, float, double)".to_string());
            },
        }
    } else {
        return Err(concat("Unknown native function: ", name));
    }
    let return_type = parse_return_type(parsed.return_type.as_str())?;
    let void = str_eq(parsed.return_type.as_str(), "V");
    proof {
        reveal_strlit("V");
        if parsed.return_type@.len() == 1 {
            if parsed.return_type@[0] == 'V' {
                assert(parsed.return_type@ =~= "V"@);
            } else {
                assert(parsed.return_type@[0] != "V"@[0]);
            }
        }
    }
    proof {
        match simple_args(name@, args@) {
            Some(Ok(expected)) => {
                assert(out@ =~= expected);
            },
            _ => {},
        }
    }
    Ok(NativeCall { args: out, return_type, void })
}

} // verus!
