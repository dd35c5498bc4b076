//! Method descriptors: the types of the parameters and the return type, as
//! the native calls need them.

use vstd::prelude::*;
use crate::text::{chars_to_string, concat, str_to_chars};

verus! {

/// A method descriptor taken apart.
#[derive(Debug)]
pub struct ParsedDescriptor {
    /// The parameter types, such as `Ljava/lang/String;` or `[I`.
    pub arg_types: Vec<String>,
    /// The return type, one character such as `V` or `I`.
    pub return_type: String,
}

/// Why a descriptor could not be taken apart.
#[derive(Debug, Clone, Copy, PartialEq, Eq, Structural)]
pub enum DescriptorError {
    ExpectedParen,
    IncompleteArray,
    Unexpected(char),
    ExtraAfterReturn,
    Missing,
}

/// The message of a descriptor error.
pub open spec fn descriptor_error_text(e: DescriptorError) -> Seq<char> {
    match e {
        DescriptorError::ExpectedParen => "Invalid descriptor: expected '('"@,
        DescriptorError::IncompleteArray => "Invalid descriptor: incomplete array type"@,
        DescriptorError::Unexpected(c) => "Unexpected character in descriptor: "@.push(c),
        DescriptorError::ExtraAfterReturn => "Invalid descriptor: extra characters after return type"@,
        DescriptorError::Missing => "Invalid descriptor: missing ')' or return type"@,
    }
}

/// Whether `c` names a primitive type.
pub open spec fn is_primitive(c: char) -> bool {
    c == 'I' || c == 'J' || c == 'F' || c == 'D' || c == 'B' || c == 'S' || c == 'C' || c == 'Z'
}

/// The position of the first `;` of `d` from `j` on, or the length of `d`.
pub open spec fn semicolon_from(d: Seq<char>, j: int) -> int
    decreases d.len() - j,
{
    if j >= d.len() {
        d.len() as int
    } else if d[j] == ';' {
        j
    } else {
        semicolon_from(d, j + 1)
    }
}

/// The position of the first character of `d` from `j` on that is not
/// `[`, or the length of `d`.
pub open spec fn brackets_end(d: Seq<char>, j: int) -> int
    decreases d.len() - j,
{
    if j >= d.len() {
        d.len() as int
    } else if d[j] != '[' {
        j
    } else {
        brackets_end(d, j + 1)
    }
}

/// `semicolon_from` looks from `j` on.
pub proof fn lemma_semicolon_from(d: Seq<char>, j: int)
    ensures
        j <= d.len() ==> j <= semicolon_from(d, j) <= d.len(),
        semicolon_from(d, j) < d.len() ==> d[semicolon_from(d, j)] == ';',
        forall|k: int| j <= k < semicolon_from(d, j) ==> d[k] != ';',
    decreases d.len() - j,
{
    if j < d.len() && d[j] != ';' {
        lemma_semicolon_from(d, j + 1);
    }
}

/// `brackets_end` looks from `j` on.
pub proof fn lemma_brackets_end(d: Seq<char>, j: int)
    ensures
        j <= d.len() ==> j <= brackets_end(d, j) <= d.len(),
        brackets_end(d, j) < d.len() ==> d[brackets_end(d, j)] != '[',
        forall|k: int| j <= k < brackets_end(d, j) ==> d[k] == '[',
    decreases d.len() - j,
{
    if j < d.len() && d[j] == '[' {
        lemma_brackets_end(d, j + 1);
    }
}

/// The parameter types read from position `i` of `d` on, after the types
/// `args` already read, and the return type: a class type runs to its
/// `;`, an array type takes its brackets and its element type, a primitive
/// type one character; after `)` comes one character, the last.
pub open spec fn scan_types(d: Seq<char>, i: int, args: Seq<Seq<char>>) -> Result<(Seq<Seq<char>>, char), DescriptorError>
    decreases d.len() - i,
{
    if i < 0 || i >= d.len() {
        Err(DescriptorError::Missing)
    } else {
        let c = d[i];
        if c == ')' {
            if i + 1 >= d.len() {
                Err(DescriptorError::Missing)
            } else if i + 2 == d.len() {
                Ok((args, d[i + 1]))
            } else {
                Err(DescriptorError::ExtraAfterReturn)
            }
        } else if c == 'L' {
            let j = semicolon_from(d, i + 1);
            proof {
                lemma_semicolon_from(d, i + 1);
            }
            if j >= d.len() {
                Err(DescriptorError::Missing)
            } else {
                scan_types(d, j + 1, args.push(d.subrange(i, j + 1)))
            }
        } else if c == '[' {
            let k = brackets_end(d, i + 1);
            proof {
                lemma_brackets_end(d, i + 1);
            }
            if k >= d.len() {
                Err(DescriptorError::IncompleteArray)
            } else if d[k] == 'L' {
                let j = semicolon_from(d, k + 1);
                proof {
                    lemma_semicolon_from(d, k + 1);
                }
                if j >= d.len() {
                    Err(DescriptorError::Missing)
                } else {
                    scan_types(d, j + 1, args.push(d.subrange(i, j + 1)))
                }
            } else {
                scan_types(d, k + 1, args.push(d.subrange(i, k + 1)))
            }
        } else if is_primitive(c) {
            scan_types(d, i + 1, args.push(seq![c]))
        } else {
            Err(DescriptorError::Unexpected(c))
        }
    }
}

/// The parameter types and the return type of descriptor `d`, which starts
/// with `(`.
pub open spec fn spec_parse_descriptor(d: Seq<char>) -> Result<(Seq<Seq<char>>, char), DescriptorError> {
    if d.len() == 0 || d[0] != '(' {
        Err(DescriptorError::ExpectedParen)
    } else {
        scan_types(d, 1, Seq::empty())
    }
}

/// The types `ts` written one after another.
pub open spec fn joined(ts: Seq<Seq<char>>) -> Seq<char>
    decreases ts.len(),
{
    if ts.len() == 0 {
        Seq::empty()
    } else {
        joined(ts.drop_last()) + ts.last()
    }
}

/// What the scan reads from position `i` on, written after the types
/// `args` already read, is the types it gives, `)` and the return type;
/// each type it adds is not empty.
pub proof fn lemma_scan_parts(d: Seq<char>, i: int, args: Seq<Seq<char>>)
    requires
        0 <= i,
    ensures
        scan_types(d, i, args) matches Ok((all, r)) ==> {
            &&& all.len() >= args.len()
            &&& all.take(args.len() as int) == args
            &&& joined(args) + d.subrange(i, d.len() as int) == joined(all) + seq![')', r]
            &&& forall|k: int| args.len() <= k < all.len() ==> (#[trigger] all[k]).len() > 0
        },
    decreases d.len() - i,
{
    if i < d.len() {
        let c = d[i];
        if c == ')' {
            if i + 2 == d.len() {
                assert(d.subrange(i, d.len() as int) =~= seq![')', d[i + 1]]);
                assert(args.take(args.len() as int) =~= args);
            }
        } else {
            let (next, part) = if c == 'L' {
                lemma_semicolon_from(d, i + 1);
                let j = semicolon_from(d, i + 1);
                (j + 1, d.subrange(i, j + 1))
            } else if c == '[' {
                lemma_brackets_end(d, i + 1);
                let k = brackets_end(d, i + 1);
                if k < d.len() && d[k] == 'L' {
                    lemma_semicolon_from(d, k + 1);
                    let j = semicolon_from(d, k + 1);
                    (j + 1, d.subrange(i, j + 1))
                } else {
                    (k + 1, d.subrange(i, k + 1))
                }
            } else {
                (i + 1, seq![c])
            };
            if scan_types(d, i, args) is Ok {
                assert(next <= d.len());
                assert(scan_types(d, i, args) == scan_types(d, next, args.push(part)));
                lemma_scan_parts(d, next, args.push(part));
                let all = scan_types(d, i, args)->Ok_0.0;
                assert(joined(args.push(part)) == joined(args) + part) by {
                    assert(args.push(part).drop_last() =~= args);
                }
                if c != 'L' && c != '[' {
                    assert(part =~= d.subrange(i, i + 1));
                }
                assert(d.subrange(i, d.len() as int) =~= part + d.subrange(next, d.len() as int));
                assert(joined(args) + d.subrange(i, d.len() as int) =~= joined(args.push(part)) + d.subrange(next, d.len() as int));
                assert(all.take(args.len() as int) =~= all.take(args.len() as int + 1).take(args.len() as int));
                assert(all.take(args.len() as int + 1)[args.len() as int] == part);
                assert(all.take(args.len() as int) =~= args.push(part).take(args.len() as int));
                assert(args.push(part).take(args.len() as int) =~= args);
            }
        }
    }
}

/// The position of the first `;` of `chars` from `j` on, or its length.
fn find_semicolon(chars: &Vec<char>, j: usize) -> (res: usize)
    requires
        j <= chars@.len(),
    ensures
        res == semicolon_from(chars@, j as int),
{
    proof {
        lemma_semicolon_from(chars@, j as int);
    }
    let mut k = j;
    while k < chars.len() && chars[k] != ';'
        invariant
            j <= k <= chars@.len(),
            semicolon_from(chars@, j as int) == semicolon_from(chars@, k as int),
        decreases chars@.len() - k,
    {
        k = k + 1;
    }
    k
}

/// The position of the first character of `chars` from `j` on that is not
/// `[`, or its length.
fn find_brackets_end(chars: &Vec<char>, j: usize) -> (res: usize)
    requires
        j <= chars@.len(),
    ensures
        res == brackets_end(chars@, j as int),
{
    let mut k = j;
    while k < chars.len() && chars[k] == '['
        invariant
            j <= k <= chars@.len(),
            brackets_end(chars@, j as int) == brackets_end(chars@, k as int),
        decreases chars@.len() - k,
    {
        k = k + 1;
    }
    k
}

/// The message of a descriptor error.
fn descriptor_error(e: DescriptorError) -> (res: String)
    ensures
        res@ == descriptor_error_text(e),
{
    match e {
        DescriptorError::ExpectedParen => "Invalid descriptor: expected '('".to_string(),
        DescriptorError::IncompleteArray => "Invalid descriptor: incomplete array type".to_string(),
        DescriptorError::Unexpected(c) => {
            let mut m = "Unexpected character in descriptor: ".to_string();
            crate::text::string_push(&mut m, c);
            m
        },
        DescriptorError::ExtraAfterReturn => "Invalid descriptor: extra characters after return type".to_string(),
        DescriptorError::Missing => "Invalid descriptor: missing ')' or return type".to_string(),
    }
}

/// Takes a method descriptor apart into its parameter types and its return
/// type, as `spec_parse_descriptor` says. A return type of more than one
/// character is refused.
pub fn parse_descriptor(descriptor: &str) -> (res: Result<ParsedDescriptor, String>)
    ensures
        match spec_parse_descriptor(descriptor@) {
            Ok((args, r)) => res matches Ok(p) && p.arg_types@.len() == args.len()
                && (forall|i: int| 0 <= i < args.len() ==> #[trigger] p.arg_types@[i]@ == args[i])
                && p.return_type@ == seq![r],
            Err(e) => res matches Err(m) && m@ == descriptor_error_text(e),
        },
{
    let chars = str_to_chars(descriptor);
    if chars.len() == 0 || chars[0] != '(' {
        return Err(descriptor_error(DescriptorError::ExpectedParen));
    }
    let ghost d = chars@;
    let mut args: Vec<String> = Vec::new();
    let ghost mut sargs: Seq<Seq<char>> = Seq::empty();
    let mut i: usize = 1;
    loop
        invariant
            d == chars@,
            d == descriptor@,
            d.len() > 0 && d[0] == '(',
            1 <= i <= d.len(),
            args@.len() == sargs.len(),
            forall|k: int| 0 <= k < sargs.len() ==> #[trigger] args@[k]@ == sargs[k],
            spec_parse_descriptor(d) == scan_types(d, i as int, sargs),
        decreases d.len() - i,
    {
        if i >= chars.len() {
            return Err(descriptor_error(DescriptorError::Missing));
        }
        let c = chars[i];
        if c == ')' {
            if i + 1 >= chars.len() {
                return Err(descriptor_error(DescriptorError::Missing));
            } else if i + 2 == chars.len() {
                let mut r = String::new();
                crate::text::string_push(&mut r, chars[i + 1]);
                assert(r@ =~= seq![chars@[i + 1]]);
                return Ok(ParsedDescriptor { arg_types: args, return_type: r });
            } else {
                return Err(descriptor_error(DescriptorError::ExtraAfterReturn));
            }
        } else if c == 'L' {
            let j = find_semicolon(&chars, i + 1);
            proof {
                lemma_semicolon_from(d, i + 1);
            }
            if j >= chars.len() {
                return Err(descriptor_error(DescriptorError::Missing));
            }
            args.push(chars_to_string(&chars, i, j + 1));
            proof {
                sargs = sargs.push(d.subrange(i as int, j + 1));
            }
            i = j + 1;
        } else if c == '[' {
            let k = find_brackets_end(&chars, i + 1);
            proof {
                lemma_brackets_end(d, i + 1);
            }
            if k >= chars.len() {
                return Err(descriptor_error(DescriptorError::IncompleteArray));
            }
            if chars[k] == 'L' {
                let j = find_semicolon(&chars, k + 1);
                proof {
                    lemma_semicolon_from(d, k + 1);
                }
                if j >= chars.len() {
                    return Err(descriptor_error(DescriptorError::Missing));
                }
                args.push(chars_to_string(&chars, i, j + 1));
                proof {
                    sargs = sargs.push(d.subrange(i as int, j + 1));
                }
                i = j + 1;
            } else {
                args.push(chars_to_string(&chars, i, k + 1));
                proof {
                    sargs = sargs.push(d.subrange(i as int, k + 1));
                }
                i = k + 1;
            }
        } else if c == 'I' || c == 'J' || c == 'F' || c == 'D' || c == 'B' || c == 'S' || c == 'C' || c == 'Z' {
            let mut one = String::new();
            crate::text::string_push(&mut one, c);
            args.push(one);
            proof {
                sargs = sargs.push(seq![c]);
                assert(args@[args@.len() - 1]@ =~= seq![c]);
            }
            i = i + 1;
        } else {
            return Err(descriptor_error(DescriptorError::Unexpected(c)));
        }
    }
}

/// The type with which a native call passes or returns a value.
#[derive(Debug, Clone, Copy, PartialEq, Eq, Structural)]
pub enum NativeType {
    Void,
    I32,
    I64,
    F32,
    F64,
    Pointer,
}

/// The native type for return type `t`: `V` none, `I`, `B`, `S`, `C` and
/// `Z` a 32-bit integer, `J` a 64-bit one, `F` and `D` floating-point
/// values, `L` and `[` a pointer.
pub open spec fn spec_return_type(t: Seq<char>) -> Option<NativeType> {
    if t == "V"@ {
        Some(NativeType::Void)
    } else if t == "I"@ || t == "B"@ || t == "S"@ || t == "C"@ || t == "Z"@ {
        Some(NativeType::I32)
    } else if t == "J"@ {
        Some(NativeType::I64)
    } else if t == "F"@ {
        Some(NativeType::F32)
    } else if t == "D"@ {
        Some(NativeType::F64)
    } else if t == "L"@ || t == "["@ {
        Some(NativeType::Pointer)
    } else {
        None
    }
}

/// The native type of the return type `return_type`.
pub fn parse_return_type(return_type: &str) -> (res: Result<NativeType, String>)
    ensures
        match spec_return_type(return_type@) {
            Some(t) => res == Ok::<NativeType, String>(t),
            None => res matches Err(m) && m@ == "Unsupported return type: "@ + return_type@,
        },
{
    let eq = |a: &str| -> (r: bool)
        ensures
            r == (return_type@ == a@),
        { crate::text::str_eq(return_type, a) };
    if eq("V") {
        Ok(NativeType::Void)
    } else if eq("I") || eq("B") || eq("S") || eq("C") || eq("Z") {
        Ok(NativeType::I32)
    } else if eq("J") {
        Ok(NativeType::I64)
    } else if eq("F") {
        Ok(NativeType::F32)
    } else if eq("D") {
        Ok(NativeType::F64)
    } else if eq("L") || eq("[") {
        Ok(NativeType::Pointer)
    } else {
        Err(concat("Unsupported return type: ", return_type))
    }
}

} // verus!
