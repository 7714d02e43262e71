//! Text with conflict markers, as produced by a line-based merge: parsing it
//! into resolved and conflicting chunks, and rendering it back.

use vstd::prelude::*;
use crate::text::{chars_of, string_of, push_all, push_repeated, repeat_char};
use crate::settings::DisplaySettings;
use crate::pcs::Revision;
use vstd::utf8::encode_utf8;

verus! {

/// A piece of a merged file, in mathematical form.
pub enum Chunk {
    /// Text on which the revisions agree
    Resolved(Seq<char>),
    /// The left, base and right sides of a conflict
    Conflict(Seq<char>, Seq<char>, Seq<char>),
}

/// A piece of a merged file.
#[derive(Debug)]
pub enum MergedChunk {
    /// Text on which the revisions agree
    Resolved { contents: String },
    /// A conflict, with the text of each side
    Conflict { left: String, base: String, right: String },
}

impl View for MergedChunk {
    type V = Chunk;

    open spec fn view(&self) -> Chunk {
        match self {
            MergedChunk::Resolved { contents } => Chunk::Resolved(contents@),
            MergedChunk::Conflict { left, base, right } => Chunk::Conflict(left@, base@, right@),
        }
    }
}

/// Why a text with conflict markers could not be parsed.
#[derive(Debug, PartialEq, Eq, Structural)]
pub enum ParseMergeError {
    /// A conflict has no base section: it was written in diff2 style
    Diff2Detected,
    /// A marker stands where it cannot, or a conflict is not closed
    Malformed,
}

/// A merged file split into chunks.
#[derive(Debug)]
pub struct ParsedMerge {
    pub chunks: Vec<MergedChunk>,
}

/// The chunks of a parsed merge, in mathematical form.
pub open spec fn chunks_view(v: Seq<MergedChunk>) -> Seq<Chunk> {
    v.map_values(|c: MergedChunk| c@)
}

impl View for ParsedMerge {
    type V = Seq<Chunk>;

    open spec fn view(&self) -> Seq<Chunk> {
        chunks_view(self.chunks@)
    }
}

/// How many characters follow position `p` on its line, its newline included.
pub open spec fn line_rest(s: Seq<char>, p: nat) -> nat
    decreases s.len() - p,
{
    if p + 1 >= s.len() || s[p as int] == '\n' {
        0
    } else {
        1 + line_rest(s, p + 1)
    }
}

/// A line ends within the text.
pub proof fn lemma_line_rest_bound(s: Seq<char>, p: nat)
    requires
        p < s.len(),
    ensures
        p + 1 + line_rest(s, p) <= s.len(),
    decreases s.len() - p,
{
    if !(p + 1 >= s.len() || s[p as int] == '\n') {
        lemma_line_rest_bound(s, p + 1);
    }
}

/// Whether `line` is a marker made of `n` copies of `c`, followed by the end of
/// the line, a space or a newline.
pub open spec fn is_marker(line: Seq<char>, c: char, n: nat) -> bool {
    &&& line.len() >= n
    &&& forall|k: int| 0 <= k < n ==> line[k] == c
    &&& (line.len() == n || line[n as int] == ' ' || line[n as int] == '\n')
}

/// Where the parser stands between two lines.
pub enum ParseState {
    Outside(Seq<char>),
    InLeft(Seq<char>),
    InBase(Seq<char>, Seq<char>),
    InRight(Seq<char>, Seq<char>, Seq<char>),
}

/// Closes the resolved text gathered so far, if there is any.
pub open spec fn flush(acc: Seq<Chunk>, t: Seq<char>) -> Seq<Chunk> {
    if t.len() == 0 {
        acc
    } else {
        acc.push(Chunk::Resolved(t))
    }
}

/// How one line moves the parser from state `st`, with `acc` parsed before.
pub open spec fn step(st: ParseState, acc: Seq<Chunk>, line: Seq<char>, n: nat) -> Result<
    (ParseState, Seq<Chunk>),
    ParseMergeError,
> {
    let start = is_marker(line, '<', n);
    let mid = is_marker(line, '|', n);
    let sep = is_marker(line, '=', n);
    let end = is_marker(line, '>', n);
    match st {
        ParseState::Outside(t) => if start {
            Ok((ParseState::InLeft(Seq::empty()), flush(acc, t)))
        } else {
            Ok((ParseState::Outside(t + line), acc))
        },
        ParseState::InLeft(l) => if mid {
            Ok((ParseState::InBase(l, Seq::empty()), acc))
        } else if sep {
            Err(ParseMergeError::Diff2Detected)
        } else if start || end {
            Err(ParseMergeError::Malformed)
        } else {
            Ok((ParseState::InLeft(l + line), acc))
        },
        ParseState::InBase(l, b) => if sep {
            Ok((ParseState::InRight(l, b, Seq::empty()), acc))
        } else if start || mid || end {
            Err(ParseMergeError::Malformed)
        } else {
            Ok((ParseState::InBase(l, b + line), acc))
        },
        ParseState::InRight(l, b, r) => if end {
            Ok((ParseState::Outside(Seq::empty()), acc.push(Chunk::Conflict(l, b, r))))
        } else if start || mid || sep {
            Err(ParseMergeError::Malformed)
        } else {
            Ok((ParseState::InRight(l, b, r + line), acc))
        },
    }
}

/// What the parser returns once the text is over, in state `st`.
pub open spec fn finish(st: ParseState, acc: Seq<Chunk>) -> Result<Seq<Chunk>, ParseMergeError> {
    match st {
        ParseState::Outside(t) => Ok(flush(acc, t)),
        _ => Err(ParseMergeError::Malformed),
    }
}

/// The result of parsing `s` from position `p` in state `st`, with `acc` parsed before.
pub open spec fn parse_from(s: Seq<char>, n: nat, p: nat, st: ParseState, acc: Seq<Chunk>) -> Result<
    Seq<Chunk>,
    ParseMergeError,
>
    decreases s.len() - p,
{
    if p >= s.len() {
        finish(st, acc)
    } else {
        let e = p + 1 + line_rest(s, p);
        proof {
            lemma_line_rest_bound(s, p);
        }
        match step(st, acc, s.subrange(p as int, e as int), n) {
            Ok((st2, acc2)) => parse_from(s, n, e, st2, acc2),
            Err(err) => Err(err),
        }
    }
}

/// The chunks of a text whose conflict markers have size `n`.
pub open spec fn parse_spec(s: Seq<char>, n: nat) -> Result<Seq<Chunk>, ParseMergeError> {
    parse_from(s, n, 0, ParseState::Outside(Seq::empty()), Seq::empty())
}

/// How many chunks are conflicts.
pub open spec fn count_conflicts(c: Seq<Chunk>) -> nat
    decreases c.len(),
{
    if c.len() == 0 {
        0
    } else {
        count_conflicts(c.drop_last()) + if c.last() is Conflict {
            1nat
        } else {
            0nat
        }
    }
}

/// The number of bytes that `t` takes in UTF-8, as `str::len` reports it.
pub open spec fn byte_len(t: Seq<char>) -> nat {
    (encode_utf8(t).len() as usize) as nat
}

/// The bytes of a chunk that lie inside conflict markers.
pub open spec fn chunk_mass(c: Chunk) -> nat {
    match c {
        Chunk::Resolved(_) => 0,
        Chunk::Conflict(l, b, r) => byte_len(l) + byte_len(b) + byte_len(r),
    }
}

/// The bytes that lie inside conflict markers, over all chunks.
pub open spec fn total_mass(c: Seq<Chunk>) -> nat
    decreases c.len(),
{
    if c.len() == 0 {
        0
    } else {
        total_mass(c.drop_last()) + chunk_mass(c.last())
    }
}

/// `x`, or the largest `usize` where `x` is larger.
pub open spec fn saturate(x: nat) -> usize {
    if x > usize::MAX {
        usize::MAX
    } else {
        x as usize
    }
}

/// A marker line: `n` copies of `c`, a space, a revision name and a newline.
pub open spec fn marker_line(c: char, n: nat, name: Seq<char>) -> Seq<char> {
    repeat_char(c, n) + seq![' '] + name + seq!['\n']
}

/// The line that separates the base from the right side of a conflict.
pub open spec fn separator_line(n: nat) -> Seq<char> {
    repeat_char('=', n) + seq!['\n']
}

/// The text of one chunk, with conflicts displayed as `settings` says.
pub open spec fn render_chunk(c: Chunk, settings: DisplaySettings) -> Seq<char> {
    let n = settings.conflict_marker_size as nat;
    match c {
        Chunk::Resolved(t) => t,
        Chunk::Conflict(l, b, r) => marker_line('<', n, settings.left_revision_name@) + l + (if settings.diff3 {
            marker_line('|', n, settings.base_revision_name@) + b
        } else {
            Seq::empty()
        }) + separator_line(n) + r + marker_line('>', n, settings.right_revision_name@),
    }
}

/// The text of all chunks, in order.
pub open spec fn render_spec(c: Seq<Chunk>, settings: DisplaySettings) -> Seq<char>
    decreases c.len(),
{
    if c.len() == 0 {
        Seq::empty()
    } else {
        render_spec(c.drop_last(), settings) + render_chunk(c.last(), settings)
    }
}

/// The text that one revision had in a chunk.
pub open spec fn chunk_side(c: Chunk, rev: Revision) -> Seq<char> {
    match c {
        Chunk::Resolved(t) => t,
        Chunk::Conflict(l, b, r) => match rev {
            Revision::Base => b,
            Revision::Left => l,
            Revision::Right => r,
        },
    }
}

/// The text that one revision had, over all chunks.
pub open spec fn revision_spec(c: Seq<Chunk>, rev: Revision) -> Seq<char>
    decreases c.len(),
{
    if c.len() == 0 {
        Seq::empty()
    } else {
        revision_spec(c.drop_last(), rev) + chunk_side(c.last(), rev)
    }
}

/// The parser's state as held by the executable code.
#[derive(PartialEq, Eq, Structural, Clone, Copy)]
enum Phase {
    Outside,
    Left,
    Base,
    Right,
}

spec fn state_of(ph: Phase, t: Seq<char>, l: Seq<char>, b: Seq<char>, r: Seq<char>) -> ParseState {
    match ph {
        Phase::Outside => ParseState::Outside(t),
        Phase::Left => ParseState::InLeft(l),
        Phase::Base => ParseState::InBase(l, b),
        Phase::Right => ParseState::InRight(l, b, r),
    }
}

/// The position just after the line that starts at `p`.
fn line_end(s: &Vec<char>, p: usize) -> (e: usize)
    requires
        p < s@.len(),
    ensures
        e == p + 1 + line_rest(s@, p as nat),
        e <= s@.len(),
{
    let mut q: usize = p;
    while q < s.len() - 1 && s[q] != '\n'
        invariant
            p <= q < s@.len(),
            line_rest(s@, p as nat) == (q - p) + line_rest(s@, q as nat),
        decreases s@.len() - q,
    {
        q = q + 1;
    }
    proof {
        lemma_line_rest_bound(s@, p as nat);
    }
    q + 1
}

/// Whether the line `s[p..e]` is a marker of `n` copies of `c`.
fn marker_at(s: &Vec<char>, p: usize, e: usize, c: char, n: usize) -> (r: bool)
    requires
        p <= e <= s@.len(),
    ensures
        r == is_marker(s@.subrange(p as int, e as int), c, n as nat),
{
    let ghost line = s@.subrange(p as int, e as int);
    if e - p < n {
        return false;
    }
    let mut k: usize = 0;
    while k < n
        invariant
            k <= n <= e - p,
            p <= e <= s@.len(),
            line == s@.subrange(p as int, e as int),
            forall|j: int| 0 <= j < k ==> line[j] == c,
        decreases n - k,
    {
        if s[p + k] != c {
            assert(line[k as int] != c);
            return false;
        }
        k = k + 1;
    }
    e - p == n || s[p + n] == ' ' || s[p + n] == '\n'
}

/// Appends `s[from..to]` to `v`.
fn push_range(v: &mut Vec<char>, s: &Vec<char>, from: usize, to: usize)
    requires
        from <= to <= s@.len(),
    ensures
        final(v)@ == old(v)@ + s@.subrange(from as int, to as int),
{
    let mut i: usize = from;
    while i < to
        invariant
            from <= i <= to <= s@.len(),
            v@ == old(v)@ + s@.subrange(from as int, i as int),
        decreases to - i,
    {
        v.push(s[i]);
        i = i + 1;
        assert(v@ =~= old(v)@ + s@.subrange(from as int, i as int));
    }
}

/// Closes the resolved text `t`, if it is not empty.
fn flush_exec(chunks: &mut Vec<MergedChunk>, t: &Vec<char>)
    ensures
        chunks_view(final(chunks)@) == flush(chunks_view(old(chunks)@), t@),
{
    if t.len() > 0 {
        let contents = string_of(t);
        chunks.push(MergedChunk::Resolved { contents });
        assert(chunks_view(chunks@) =~= chunks_view(old(chunks)@).push(Chunk::Resolved(t@)));
    }
}

impl ParsedMerge {
    /// Parses a text with conflict markers of the size that `settings` gives.
    pub fn parse(contents: &str, settings: &DisplaySettings) -> (r: Result<ParsedMerge, ParseMergeError>)
        ensures
            match r {
                Ok(pm) => parse_spec(contents@, settings.conflict_marker_size as nat) == Ok::<
                    Seq<Chunk>,
                    ParseMergeError,
                >(pm@),
                Err(e) => parse_spec(contents@, settings.conflict_marker_size as nat) == Err::<
                    Seq<Chunk>,
                    ParseMergeError,
                >(e),
            },
    {
        let n = settings.conflict_marker_size;
        let s = chars_of(contents);
        let mut chunks: Vec<MergedChunk> = Vec::new();
        let mut phase = Phase::Outside;
        let mut t: Vec<char> = Vec::new();
        let mut l: Vec<char> = Vec::new();
        let mut b: Vec<char> = Vec::new();
        let mut r: Vec<char> = Vec::new();
        let mut p: usize = 0;
        assert(chunks_view(chunks@) =~= Seq::<Chunk>::empty());
        assert(t@ =~= Seq::<char>::empty());
        while p < s.len()
            invariant
                s@ == contents@,
                n == settings.conflict_marker_size,
                p <= s@.len(),
                parse_from(s@, n as nat, p as nat, state_of(phase, t@, l@, b@, r@), chunks_view(chunks@))
                    == parse_spec(s@, n as nat),
            decreases s@.len() - p,
        {
            let e = line_end(&s, p);
            let start = marker_at(&s, p, e, '<', n);
            let mid = marker_at(&s, p, e, '|', n);
            let sep = marker_at(&s, p, e, '=', n);
            let end = marker_at(&s, p, e, '>', n);
            match phase {
                Phase::Outside => {
                    if start {
                        flush_exec(&mut chunks, &t);
                        l = Vec::new();
                        phase = Phase::Left;
                    } else {
                        push_range(&mut t, &s, p, e);
                    }
                },
                Phase::Left => {
                    if mid {
                        b = Vec::new();
                        phase = Phase::Base;
                    } else if sep {
                        return Err(ParseMergeError::Diff2Detected);
                    } else if start || end {
                        return Err(ParseMergeError::Malformed);
                    } else {
                        push_range(&mut l, &s, p, e);
                    }
                },
                Phase::Base => {
                    if sep {
                        r = Vec::new();
                        phase = Phase::Right;
                    } else if start || mid || end {
                        return Err(ParseMergeError::Malformed);
                    } else {
                        push_range(&mut b, &s, p, e);
                    }
                },
                Phase::Right => {
                    if end {
                        let ghost before = chunks_view(chunks@);
                        let left = string_of(&l);
                        let base = string_of(&b);
                        let right = string_of(&r);
                        chunks.push(MergedChunk::Conflict { left, base, right });
                        assert(chunks_view(chunks@) =~= before.push(Chunk::Conflict(l@, b@, r@)));
                        t = Vec::new();
                        phase = Phase::Outside;
                    } else if start || mid || sep {
                        return Err(ParseMergeError::Malformed);
                    } else {
                        push_range(&mut r, &s, p, e);
                    }
                },
            }
            p = e;
        }
        match phase {
            Phase::Outside => {
                flush_exec(&mut chunks, &t);
                Ok(ParsedMerge { chunks })
            },
            _ => Err(ParseMergeError::Malformed),
        }
    }
}

impl ParsedMerge {
    /// The number of conflicts.
    pub fn conflict_count(&self) -> (r: usize)
        ensures
            r == count_conflicts(self@),
    {
        let mut count: usize = 0;
        let mut i: usize = 0;
        while i < self.chunks.len()
            invariant
                i <= self.chunks@.len(),
                count == count_conflicts(self@.subrange(0, i as int)),
                count <= i,
            decreases self.chunks@.len() - i,
        {
            assert(self@.subrange(0, i + 1).drop_last() =~= self@.subrange(0, i as int));
            match &self.chunks[i] {
                MergedChunk::Conflict { .. } => {
                    count = count + 1;
                },
                MergedChunk::Resolved { .. } => {},
            }
            i = i + 1;
        }
        assert(self@.subrange(0, i as int) =~= self@);
        count
    }

    /// The number of bytes inside conflict markers, or the largest `usize` where
    /// there are more.
    pub fn conflict_mass(&self) -> (r: usize)
        ensures
            r == saturate(total_mass(self@)),
    {
        let mut mass: usize = 0;
        let mut i: usize = 0;
        while i < self.chunks.len()
            invariant
                i <= self.chunks@.len(),
                mass == saturate(total_mass(self@.subrange(0, i as int))),
            decreases self.chunks@.len() - i,
        {
            assert(self@.subrange(0, i + 1).drop_last() =~= self@.subrange(0, i as int));
            match &self.chunks[i] {
                MergedChunk::Conflict { left, base, right } => {
                    let ls = left.as_str();
                    let bs = base.as_str();
                    let rs = right.as_str();
                    let ln = ls.len();
                    let bn = bs.len();
                    let rn = rs.len();
                    assert(ln == byte_len(left@) && bn == byte_len(base@) && rn == byte_len(right@));
                    mass = mass.saturating_add(ln);
                    mass = mass.saturating_add(bn);
                    mass = mass.saturating_add(rn);
                },
                MergedChunk::Resolved { .. } => {},
            }
            i = i + 1;
        }
        assert(self@.subrange(0, i as int) =~= self@);
        mass
    }

    /// The merged text, with conflicts displayed as `settings` says.
    pub fn render(&self, settings: &DisplaySettings) -> (r: String)
        ensures
            r@ == render_spec(self@, *settings),
    {
        let n = settings.conflict_marker_size;
        let left_name = chars_of(settings.left_revision_name.as_str());
        let base_name = chars_of(settings.base_revision_name.as_str());
        let right_name = chars_of(settings.right_revision_name.as_str());
        let mut out: Vec<char> = Vec::new();
        let mut i: usize = 0;
        while i < self.chunks.len()
            invariant
                i <= self.chunks@.len(),
                n == settings.conflict_marker_size,
                left_name@ == settings.left_revision_name@,
                base_name@ == settings.base_revision_name@,
                right_name@ == settings.right_revision_name@,
                out@ == render_spec(self@.subrange(0, i as int), *settings),
            decreases self.chunks@.len() - i,
        {
            assert(self@.subrange(0, i + 1).drop_last() =~= self@.subrange(0, i as int));
            let ghost before = out@;
            match &self.chunks[i] {
                MergedChunk::Resolved { contents } => {
                    push_all(&mut out, &chars_of(contents.as_str()));
                },
                MergedChunk::Conflict { left, base, right } => {
                    push_marker(&mut out, '<', n, &left_name);
                    push_all(&mut out, &chars_of(left.as_str()));
                    if settings.diff3 {
                        push_marker(&mut out, '|', n, &base_name);
                        push_all(&mut out, &chars_of(base.as_str()));
                    }
                    push_repeated(&mut out, '=', n);
                    out.push('\n');
                    push_all(&mut out, &chars_of(right.as_str()));
                    push_marker(&mut out, '>', n, &right_name);
                },
            }
            assert(out@ =~= before + render_chunk(self@[i as int], *settings));
            i = i + 1;
        }
        assert(self@.subrange(0, i as int) =~= self@);
        string_of(&out)
    }

    /// The text of one revision: resolved chunks, and that revision's side of
    /// each conflict.
    pub fn reconstruct_revision(&self, rev: Revision) -> (r: String)
        ensures
            r@ == revision_spec(self@, rev),
    {
        let mut out: Vec<char> = Vec::new();
        let mut i: usize = 0;
        while i < self.chunks.len()
            invariant
                i <= self.chunks@.len(),
                out@ == revision_spec(self@.subrange(0, i as int), rev),
            decreases self.chunks@.len() - i,
        {
            assert(self@.subrange(0, i + 1).drop_last() =~= self@.subrange(0, i as int));
            let side = match &self.chunks[i] {
                MergedChunk::Resolved { contents } => contents,
                MergedChunk::Conflict { left, base, right } => match rev {
                    Revision::Base => base,
                    Revision::Left => left,
                    Revision::Right => right,
                },
            };
            push_all(&mut out, &chars_of(side.as_str()));
            i = i + 1;
        }
        assert(self@.subrange(0, i as int) =~= self@);
        string_of(&out)
    }
}

/// Appends a marker line to `out`.
fn push_marker(out: &mut Vec<char>, c: char, n: usize, name: &Vec<char>)
    ensures
        final(out)@ == old(out)@ + marker_line(c, n as nat, name@),
{
    push_repeated(out, c, n);
    out.push(' ');
    push_all(out, name);
    out.push('\n');
    assert(out@ =~= old(out)@ + marker_line(c, n as nat, name@));
}

} // verus!
