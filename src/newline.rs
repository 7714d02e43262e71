//! Line endings: merging works on `\n` alone, and the output takes back the
//! `\r\n` endings of an input that had them.

use vstd::prelude::*;
use crate::text::{chars_of, string_of};

verus! {

/// `s` with the `\r` of each `\r\n` removed.
pub open spec fn lf_only(s: Seq<char>) -> Seq<char>
    decreases s.len(),
{
    if s.len() == 0 {
        s
    } else if s.len() >= 2 && s[0] == '\r' && s[1] == '\n' {
        lf_only(s.drop_first())
    } else {
        seq![s[0]] + lf_only(s.drop_first())
    }
}

/// `s` with each `\n` preceded by `\r`.
pub open spec fn crlf_everywhere(s: Seq<char>) -> Seq<char>
    decreases s.len(),
{
    if s.len() == 0 {
        s
    } else if s[0] == '\n' {
        seq!['\r', '\n'] + crlf_everywhere(s.drop_first())
    } else {
        seq![s[0]] + crlf_everywhere(s.drop_first())
    }
}

/// Whether `s` holds a `\r\n`.
pub open spec fn has_crlf(s: Seq<char>) -> bool {
    exists|i: int| 0 <= i < s.len() - 1 && s[i] == '\r' && #[trigger] s[i + 1] == '\n'
}

/// Replaces each `\r\n` of `s` by `\n`.
pub fn normalize_to_lf(s: &str) -> (r: String)
    ensures
        r@ == lf_only(s@),
{
    let v = chars_of(s);
    let mut i: usize = v.len();
    // built from the end, so that each step prepends to what is done
    let mut rev: Vec<char> = Vec::new();
    while i > 0
        invariant
            i <= v@.len(),
            rev@.reverse() == lf_only(v@.subrange(i as int, v@.len() as int)),
        decreases i,
    {
        let ghost tail = v@.subrange(i as int, v@.len() as int);
        let ghost longer = v@.subrange(i - 1, v@.len() as int);
        assert(longer.drop_first() =~= tail);
        let c = v[i - 1];
        if !(c == '\r' && i < v.len() && v[i] == '\n') {
            rev.push(c);
        }
        assert(rev@.reverse() =~= lf_only(longer));
        i = i - 1;
    }
    assert(v@.subrange(0, v@.len() as int) =~= v@);
    string_of(&reversed(&rev))
}

/// Whether `s` holds a `\r\n`.
fn contains_crlf(s: &Vec<char>) -> (r: bool)
    ensures
        r == has_crlf(s@),
{
    if s.len() < 2 {
        return false;
    }
    let mut i: usize = 0;
    while i < s.len() - 1
        invariant
            s@.len() >= 2,
            forall|j: int| 0 <= j < i && j < s@.len() - 1 ==> !(s@[j] == '\r' && #[trigger] s@[j + 1] == '\n'),
        decreases s@.len() - i,
    {
        if s[i] == '\r' && s[i + 1] == '\n' {
            return true;
        }
        i = i + 1;
    }
    false
}

/// The characters of `rev`, last first.
fn reversed(rev: &Vec<char>) -> (r: Vec<char>)
    ensures
        r@ == rev@.reverse(),
{
    let mut out: Vec<char> = Vec::new();
    let mut k: usize = rev.len();
    while k > 0
        invariant
            k <= rev@.len(),
            out@ == rev@.reverse().subrange(0, rev@.len() - k),
        decreases k,
    {
        out.push(rev[k - 1]);
        k = k - 1;
        assert(out@ =~= rev@.reverse().subrange(0, rev@.len() - k));
    }
    assert(out@ =~= rev@.reverse());
    out
}

/// The merge output, with `\r\n` endings where the input had any.
pub fn imitate_cr_lf_from_input(input: &str, output: &str) -> (r: String)
    ensures
        r@ == if has_crlf(input@) {
            crlf_everywhere(output@)
        } else {
            output@
        },
{
    let inp = chars_of(input);
    if !contains_crlf(&inp) {
        return string_of(&chars_of(output));
    }
    let v = chars_of(output);
    let mut i: usize = v.len();
    let mut rev: Vec<char> = Vec::new();
    while i > 0
        invariant
            i <= v@.len(),
            rev@.reverse() == crlf_everywhere(v@.subrange(i as int, v@.len() as int)),
        decreases i,
    {
        let ghost tail = v@.subrange(i as int, v@.len() as int);
        let ghost longer = v@.subrange(i - 1, v@.len() as int);
        assert(longer.drop_first() =~= tail);
        let c = v[i - 1];
        rev.push(c);
        if c == '\n' {
            rev.push('\r');
        }
        assert(rev@.reverse() =~= crlf_everywhere(longer));
        i = i - 1;
    }
    assert(v@.subrange(0, v@.len() as int) =~= v@);
    string_of(&reversed(&rev))
}

} // verus!
