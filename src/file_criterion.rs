//! Which files a grammar applies to: by extension or by exact file name.

use vstd::prelude::*;
use crate::text::{chars_of, string_of, push_all};

verus! {

/// A file criterion defines a set of matching files to be parsed
/// using a specific grammar.
#[derive(Debug, Clone, PartialEq)]
pub enum FileCriterion {
    /// File names ending with a particular extension
    ByExt(&'static str),
    /// Only this particular file name
    ByName(&'static str),
}

/// The index of the last `c` among the first `k` characters of `s`, or -1.
pub open spec fn last_index_before(s: Seq<char>, c: char, k: int) -> int
    decreases k,
{
    if k <= 0 {
        -1
    } else if s[k - 1] == c {
        k - 1
    } else {
        last_index_before(s, c, k - 1)
    }
}

/// Where the first `e` characters of a path end once trailing `/` and `.`
/// components are dropped, as `Path` reads them.
pub open spec fn name_end(p: Seq<char>, e: int) -> int
    decreases e,
{
    if e <= 0 || e > p.len() {
        0
    } else if p[e - 1] == '/' {
        name_end(p, e - 1)
    } else if p[e - 1] == '.' && (e == 1 || p[e - 2] == '/') {
        name_end(p, e - 1)
    } else {
        e
    }
}

/// The last component of a path, as `Path::file_name` reads it: trailing `/`
/// and `.` components are dropped, then what follows the last `/` is taken.
pub open spec fn file_name_spec(path: Seq<char>) -> Seq<char> {
    let q = path.subrange(0, name_end(path, path.len() as int));
    q.subrange(last_index_before(q, '/', q.len() as int) + 1, q.len() as int)
}

/// Whether a last component is a file name: it is not empty and not `..`.
pub open spec fn is_file_name(name: Seq<char>) -> bool {
    name.len() > 0 && name != seq!['.', '.']
}

/// Whether a file name has an extension: a `.` after its first character.
pub open spec fn has_extension(name: Seq<char>) -> bool {
    last_index_before(name, '.', name.len() as int) > 0
}

/// The extension of a file name: what follows its last `.`.
pub open spec fn extension_spec(name: Seq<char>) -> Seq<char> {
    name.subrange(last_index_before(name, '.', name.len() as int) + 1, name.len() as int)
}

/// A character with ASCII upper case turned to lower case.
pub open spec fn ascii_lower(c: char) -> char {
    if 'A' <= c && c <= 'Z' {
        ((c as u8) + 32) as u8 as char
    } else {
        c
    }
}

/// Whether two texts are equal when ASCII case is ignored.
pub open spec fn eq_ignore_ascii_case(a: Seq<char>, b: Seq<char>) -> bool {
    a.len() == b.len() && forall|i: int| 0 <= i < a.len() ==> ascii_lower(#[trigger] a[i]) == ascii_lower(b[i])
}

/// Whether the file at `path` has extension `ext`, ASCII case ignored.
pub open spec fn matches_ext(path: Seq<char>, ext: Seq<char>) -> bool {
    let name = file_name_spec(path);
    is_file_name(name) && has_extension(name) && eq_ignore_ascii_case(extension_spec(name), ext)
}

/// Whether the file at `path` is named `target`.
pub open spec fn matches_name(path: Seq<char>, target: Seq<char>) -> bool {
    let name = file_name_spec(path);
    is_file_name(name) && name == target
}

/// Whether a criterion matches the file at `path`.
pub open spec fn criterion_matches(c: FileCriterion, path: Seq<char>) -> bool {
    match c {
        FileCriterion::ByExt(ext) => matches_ext(path, ext@),
        FileCriterion::ByName(target) => matches_name(path, target@),
    }
}

/// The position just after the last `c` in `s`, or 0.
fn after_last(s: &Vec<char>, c: char) -> (r: usize)
    ensures
        r == last_index_before(s@, c, s@.len() as int) + 1,
        r <= s@.len(),
{
    let mut k: usize = s.len();
    while k > 0 && s[k - 1] != c
        invariant
            k <= s@.len(),
            last_index_before(s@, c, s@.len() as int) == last_index_before(s@, c, k as int),
        decreases k,
    {
        k = k - 1;
    }
    k
}

fn lower(c: char) -> (r: char)
    ensures
        r == ascii_lower(c),
{
    if 'A' <= c && c <= 'Z' {
        ((c as u8) + 32) as char
    } else {
        c
    }
}

/// Where `s` ends once trailing `/` and `.` components are dropped.
fn end_of_name(s: &Vec<char>) -> (e: usize)
    ensures
        e == name_end(s@, s@.len() as int),
        e <= s@.len(),
{
    let mut e: usize = s.len();
    while e > 0 && (s[e - 1] == '/' || (s[e - 1] == '.' && (e == 1 || s[e - 2] == '/')))
        invariant
            e <= s@.len(),
            name_end(s@, s@.len() as int) == name_end(s@, e as int),
        decreases e,
    {
        e = e - 1;
    }
    e
}

/// The first `to` characters of `s`.
fn head(s: &Vec<char>, to: usize) -> (r: Vec<char>)
    requires
        to <= s@.len(),
    ensures
        r@ == s@.subrange(0, to as int),
{
    let mut r: Vec<char> = Vec::new();
    let mut i: usize = 0;
    while i < to
        invariant
            i <= to <= s@.len(),
            r@ == s@.subrange(0, i as int),
        decreases to - i,
    {
        r.push(s[i]);
        i = i + 1;
        assert(r@ =~= s@.subrange(0, i as int));
    }
    r
}

/// The characters of `s` from `from` on.
fn tail(s: &Vec<char>, from: usize) -> (r: Vec<char>)
    requires
        from <= s@.len(),
    ensures
        r@ == s@.subrange(from as int, s@.len() as int),
{
    let mut r: Vec<char> = Vec::new();
    let mut i: usize = from;
    while i < s.len()
        invariant
            from <= i <= s@.len(),
            r@ == s@.subrange(from as int, i as int),
        decreases s@.len() - i,
    {
        r.push(s[i]);
        i = i + 1;
        assert(r@ =~= s@.subrange(from as int, i as int));
    }
    r
}

fn same_ignoring_case(a: &Vec<char>, b: &Vec<char>) -> (r: bool)
    ensures
        r == eq_ignore_ascii_case(a@, b@),
{
    if a.len() != b.len() {
        return false;
    }
    let mut i: usize = 0;
    while i < a.len()
        invariant
            a@.len() == b@.len(),
            i <= a@.len(),
            forall|j: int| 0 <= j < i ==> ascii_lower(#[trigger] a@[j]) == ascii_lower(b@[j]),
        decreases a@.len() - i,
    {
        if lower(a[i]) != lower(b[i]) {
            return false;
        }
        i = i + 1;
    }
    true
}

fn same_chars(a: &Vec<char>, b: &Vec<char>) -> (r: bool)
    ensures
        r == (a@ == b@),
{
    if a.len() != b.len() {
        return false;
    }
    let mut i: usize = 0;
    while i < a.len()
        invariant
            a@.len() == b@.len(),
            i <= a@.len(),
            forall|j: int| 0 <= j < i ==> a@[j] == b@[j],
        decreases a@.len() - i,
    {
        if a[i] != b[i] {
            assert(a@[i as int] != b@[i as int]);
            return false;
        }
        i = i + 1;
    }
    assert(a@ =~= b@);
    true
}

impl FileCriterion {
    /// Checks if the file at the given path matches the criterion.
    pub fn matches(&self, path: &str) -> (r: bool)
        ensures
            r == criterion_matches(*self, path@),
    {
        let p = chars_of(path);
        let q = head(&p, end_of_name(&p));
        let name = tail(&q, after_last(&q, '/'));
        let present = name.len() > 0 && !(name.len() == 2 && name[0] == '.' && name[1] == '.');
        proof {
            if name@ == seq!['.', '.'] {
                assert(name@[0] == '.' && name@[1] == '.');
            }
            if name@.len() == 2 && name@[0] == '.' && name@[1] == '.' {
                assert(name@ =~= seq!['.', '.']);
            }
        }
        if !present {
            return false;
        }
        match self {
            FileCriterion::ByExt(target_ext) => {
                let dot = after_last(&name, '.');
                if dot <= 1 {
                    false
                } else {
                    let ext = tail(&name, dot);
                    same_ignoring_case(&ext, &chars_of(target_ext))
                }
            },
            FileCriterion::ByName(target_name) => {
                name.len() > 0 && same_chars(&name, &chars_of(target_name))
            },
        }
    }

    /// The criterion treated as a language identifier (for instance to identify
    /// the language via a command line option).
    pub fn as_alternate_name(&self) -> (r: &'static str)
        ensures
            r@ == match *self {
                FileCriterion::ByExt(e) => e@,
                FileCriterion::ByName(n) => n@,
            },
    {
        match self {
            FileCriterion::ByExt(extension) => extension,
            FileCriterion::ByName(full_name) => full_name,
        }
    }

    /// The criterion in the form that Git reads in its gitattributes files:
    /// `*.` and the extension, or the file name.
    pub fn to_string(&self) -> (r: String)
        ensures
            r@ == match *self {
                FileCriterion::ByExt(e) => seq!['*', '.'] + e@,
                FileCriterion::ByName(n) => n@,
            },
    {
        match self {
            FileCriterion::ByExt(extension) => {
                let mut v: Vec<char> = Vec::new();
                v.push('*');
                v.push('.');
                push_all(&mut v, &chars_of(extension));
                assert(v@ =~= seq!['*', '.'] + extension@);
                string_of(&v)
            },
            FileCriterion::ByName(name) => String::from_str(name),
        }
    }
}

} // verus!
