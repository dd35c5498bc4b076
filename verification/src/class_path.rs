//! Where class files are found: directories and jar files, and the names
//! of class files in them.

use vstd::prelude::*;
use crate::text::{concat, str_eq};

verus! {

/// The jar file of the Java base module, whose class files lie under
/// `classes/`.
pub const BASE: &'static str = "/usr/lib/jvm/java-24-openjdk/jmods/java.base.jmod";

/// A directory of class files.
#[derive(Debug)]
pub struct DirectoryEntry {
    pub path: String,
}

/// The name of the file of class `class_name`, relative to a directory of
/// class files.
pub fn class_file_name(class_name: &str) -> (res: String)
    ensures
        res@ == class_name@ + ".class"@,
{
    concat(class_name, ".class")
}

/// The name of the member of the jar file at `jar_path` that holds class
/// `class_name`: under `classes/` in the base module, at the top in any
/// other jar.
pub fn jar_member_name(jar_path: &str, class_name: &str) -> (res: String)
    ensures
        jar_path@ == BASE@ ==> res@ == "classes/"@ + class_name@ + ".class"@,
        jar_path@ != BASE@ ==> res@ == class_name@ + ".class"@,
{
    if str_eq(jar_path, BASE) {
        let a = concat("classes/", class_name);
        concat(a.as_str(), ".class")
    } else {
        concat(class_name, ".class")
    }
}

/// Why a class path entry could not be used.
#[derive(Debug)]
pub enum ClassPathError {
    Invalid(String),
}

/// Why a jar file could not be opened.
#[derive(Debug)]
pub enum JarError {
    NotFound(String),
    ReadingError(String),
    InvalidJar(String),
}

/// A path that names no directory.
#[derive(Debug)]
pub struct InvalidDirectory {
    pub path: String,
}

/// The entries of a class path written as one string: the parts between
/// the `:` separators, empty ones included.
pub open spec fn spec_split_path(s: Seq<char>) -> Seq<Seq<char>>
    decreases s.len(),
{
    if s.len() == 0 {
        seq![Seq::empty()]
    } else {
        let rest = spec_split_path(s.drop_last());
        if s.last() == ':' {
            rest.push(Seq::empty())
        } else {
            rest.update(rest.len() - 1, rest.last().push(s.last()))
        }
    }
}

/// `spec_split_path` gives at least one part.
pub proof fn lemma_split_nonempty(s: Seq<char>)
    ensures
        spec_split_path(s).len() >= 1,
    decreases s.len(),
{
    if s.len() > 0 {
        lemma_split_nonempty(s.drop_last());
    }
}

/// Splits a class path at its `:` separators.
pub fn split_class_path(path: &str) -> (res: Vec<String>)
    ensures
        res@.len() == spec_split_path(path@).len(),
        forall|i: int| 0 <= i < res@.len() ==> #[trigger] res@[i]@ == spec_split_path(path@)[i],
{
    let chars = crate::text::str_to_chars(path);
    let mut parts: Vec<String> = Vec::new();
    parts.push(String::new());
    let mut i: usize = 0;
    while i < chars.len()
        invariant
            i <= chars@.len(),
            chars@ == path@,
            parts@.len() == spec_split_path(chars@.take(i as int)).len(),
            forall|k: int| 0 <= k < parts@.len() ==> #[trigger] parts@[k]@ == spec_split_path(chars@.take(i as int))[k],
        decreases chars@.len() - i,
    {
        proof {
            lemma_split_nonempty(chars@.take(i as int));
            assert(chars@.take(i + 1).drop_last() =~= chars@.take(i as int));
        }
        let c = chars[i];
        if c == ':' {
            parts.push(String::new());
        } else {
            let last = parts.len() - 1;
            let mut p = parts.remove(last);
            crate::text::string_push(&mut p, c);
            parts.push(p);
        }
        i = i + 1;
        proof {
            let prev = spec_split_path(chars@.take(i - 1));
            assert forall|k: int| 0 <= k < parts@.len() implies #[trigger] parts@[k]@ == spec_split_path(chars@.take(i as int))[k] by {
                if k < prev.len() - 1 {
                    assert(parts@[k]@ == prev[k]);
                }
            }
        }
    }
    assert(chars@.take(i as int) =~= chars@);
    parts
}

/// `s` without a trailing `.class`.
pub open spec fn without_class_suffix(s: Seq<char>) -> Seq<char> {
    if s.len() >= 6 && s.skip(s.len() - 6) == ".class"@ {
        s.take(s.len() - 6)
    } else {
        s
    }
}

/// The position of the last `/` of `s`.
pub open spec fn last_slash(s: Seq<char>) -> Option<int>
    decreases s.len(),
{
    if s.len() == 0 {
        None
    } else if s.last() == '/' {
        Some(s.len() - 1)
    } else {
        last_slash(s.drop_last())
    }
}

/// The name of the main class that a path to its class file gives, and
/// the directory to add to the class path: the part up to the last `/`,
/// when there is one, after a trailing `.class` is dropped.
pub open spec fn spec_main_class_of(path: Seq<char>) -> (Seq<char>, Option<Seq<char>>) {
    let t = without_class_suffix(path);
    match last_slash(t) {
        Some(p) => (t.skip(p + 1), Some(t.take(p + 1))),
        None => (t, None),
    }
}

/// The position that `last_slash` gives lies in `s`.
pub proof fn lemma_last_slash(s: Seq<char>)
    ensures
        last_slash(s) matches Some(p) ==> 0 <= p < s.len(),
    decreases s.len(),
{
    if s.len() > 0 {
        lemma_last_slash(s.drop_last());
    }
}

/// Splits the path of a main class file into the class name and the
/// directory that holds it.
pub fn main_class_of(path: &str) -> (res: (String, Option<String>))
    ensures
        res.0@ == spec_main_class_of(path@).0,
        match spec_main_class_of(path@).1 {
            Some(d) => res.1 matches Some(r) && r@ == d,
            None => res.1 is None,
        },
{
    let chars = crate::text::str_to_chars(path);
    let n = chars.len();
    proof {
        reveal_strlit(".class");
    }
    let suffix = n >= 6 && chars[n - 6] == '.' && chars[n - 5] == 'c' && chars[n - 4] == 'l' && chars[n - 3] == 'a'
        && chars[n - 2] == 's' && chars[n - 1] == 's';
    proof {
        if n >= 6 {
            let tail = chars@.skip(n - 6);
            if suffix {
                assert(tail =~= ".class"@);
            } else {
                assert(tail != ".class"@) by {
                    if tail == ".class"@ {
                        assert(tail[0] == chars@[n - 6] && tail[1] == chars@[n - 5] && tail[2] == chars@[n - 4]
                            && tail[3] == chars@[n - 3] && tail[4] == chars@[n - 2] && tail[5] == chars@[n - 1]);
                    }
                }
            }
        }
    }
    let end = if suffix { n - 6 } else { n };
    let ghost t = without_class_suffix(path@);
    assert(t =~= chars@.take(end as int));
    let mut k = end;
    while k > 0 && chars[k - 1] != '/'
        invariant
            k <= end <= chars@.len(),
            t == chars@.take(end as int),
            last_slash(t) == last_slash(chars@.take(k as int)),
        decreases k,
    {
        assert(chars@.take(k as int).drop_last() =~= chars@.take(k - 1));
        k = k - 1;
    }
    proof {
        lemma_last_slash(t);
    }
    if k == 0 {
        assert(chars@.take(0) =~= Seq::<char>::empty());
        (crate::text::chars_to_string(&chars, 0, end), None)
    } else {
        assert(chars@.take(k as int).last() == '/');
        assert(t.skip(k as int) =~= chars@.subrange(k as int, end as int));
        assert(t.take(k as int) =~= chars@.subrange(0, k as int));
        (crate::text::chars_to_string(&chars, k, end), Some(crate::text::chars_to_string(&chars, 0, k)))
    }
}

} // verus!
