//! The outcome of one merge strategy, and the choice among several.

use vstd::prelude::*;
use crate::parsed_merge::{ParsedMerge, ParseMergeError, count_conflicts, total_mass, saturate, render_spec, parse_spec, revision_spec};
use crate::pcs::Revision;
use crate::settings::DisplaySettings;
use crate::text::{chars_of, string_of, same_text, push_all};

verus! {

/// The method name of a line-based merge.
pub const LINE_BASED_METHOD: &'static str = "line_based";

/// The method name of a structured resolution of line-based conflicts.
pub const STRUCTURED_RESOLUTION_METHOD: &'static str = "structured_resolution";

/// The method name of a structured merge of the whole revisions.
pub const FULLY_STRUCTURED_METHOD: &'static str = "fully_structured";

/// The method name of the conflicts handed in, rendered again unchanged.
pub const FROM_PARSED_ORIGINAL: &'static str = "from_parsed_original";

/// The error given where no merge result can be chosen.
pub const NO_SOLUTION: &'static str = "Could not generate any solution";

/// A merged output together with statistics about the conflicts it contains.
#[derive(Debug)]
pub struct MergeResult {
    /// The output of the merge (the file contents possibly with conflicts)
    pub contents: String,
    /// The number of conflicts
    pub conflict_count: usize,
    /// The sum of the sizes of conflicts
    pub conflict_mass: usize,
    /// A name for the merge, identifying with which technique it was produced
    pub method: &'static str,
    /// Known conflicts which are not marked as such (such as duplicate signatures)
    pub has_additional_issues: bool,
}

/// Whether result `a` is preferred to result `b`: one without additional issues
/// first, then the smaller conflict mass.
pub open spec fn preferred(a: MergeResult, b: MergeResult) -> bool {
    (!a.has_additional_issues && b.has_additional_issues) || (a.has_additional_issues
        == b.has_additional_issues && a.conflict_mass < b.conflict_mass)
}

/// The index of the best of `s`: no other is preferred to it, and among equals
/// it comes first.
pub open spec fn best_index(s: Seq<MergeResult>) -> int
    decreases s.len(),
{
    if s.len() <= 1 {
        0
    } else {
        let k = best_index(s.drop_last());
        if preferred(s.last(), s[k]) {
            s.len() - 1
        } else {
            k
        }
    }
}

/// The best of a list of results is in the list, and no result is preferred to it.
pub proof fn lemma_best_is_minimal(s: Seq<MergeResult>)
    requires
        s.len() > 0,
    ensures
        0 <= best_index(s) < s.len(),
        forall|j: int| 0 <= j < s.len() ==> !preferred(#[trigger] s[j], s[best_index(s)]),
    decreases s.len(),
{
    if s.len() > 1 {
        lemma_best_is_minimal(s.drop_last());
        let k = best_index(s.drop_last());
        assert forall|j: int| 0 <= j < s.len() implies !preferred(#[trigger] s[j], s[best_index(s)]) by {
            if j < s.len() - 1 {
                assert(s[j] == s.drop_last()[j]);
            }
        }
    }
}

/// Where a result without additional issues is among those selected from, the
/// chosen one has no additional issues either, and no more conflict mass.
pub proof fn lemma_best_has_no_more_mass(s: Seq<MergeResult>, k: int)
    requires
        0 <= k < s.len(),
        !s[k].has_additional_issues,
        best_solve_spec(s) is Some,
    ensures
        !best_solve_spec(s)->Some_0.has_additional_issues,
        best_solve_spec(s)->Some_0.conflict_mass <= s[k].conflict_mass,
{
    lemma_best_is_minimal(s);
    assert(!preferred(s[k], s[best_index(s)]));
}

/// The result that the selection returns from `s`, if any: none where `s` is
/// empty or where its best result only renders the original conflicts again.
pub open spec fn best_solve_spec(s: Seq<MergeResult>) -> Option<MergeResult> {
    if s.len() == 0 || s[best_index(s)].method@ == FROM_PARSED_ORIGINAL@ {
        None
    } else {
        Some(s[best_index(s)])
    }
}

/// `s`, with a newline added unless it ends with one.
pub open spec fn with_final_newline_spec(s: Seq<char>) -> Seq<char> {
    if s.len() > 0 && s.last() == '\n' {
        s
    } else {
        s.push('\n')
    }
}

/// Ensures a given string has a newline at the end.
pub fn with_final_newline(s: &str) -> (r: String)
    ensures
        r@ == with_final_newline_spec(s@),
{
    let mut v = chars_of(s);
    if v.len() == 0 || v[v.len() - 1] != '\n' {
        v.push('\n');
    }
    string_of(&v)
}

/// Takes the results of several merge strategies and picks the best one: one
/// without additional issues, then with the smallest conflict mass, then the
/// earliest. There is none where the list is empty or where the best one only
/// renders the original conflicts again.
pub fn select_best_solve(solves: Vec<MergeResult>) -> (r: Result<MergeResult, String>)
    ensures
        match r {
            Ok(best) => best_solve_spec(solves@) == Some(best),
            Err(e) => best_solve_spec(solves@) is None && e@ == NO_SOLUTION@,
        },
{
    if solves.len() == 0 {
        return Err(String::from_str(NO_SOLUTION));
    }
    let mut k: usize = 0;
    let mut i: usize = 1;
    while i < solves.len()
        invariant
            1 <= i <= solves@.len(),
            k < i,
            k == best_index(solves@.subrange(0, i as int)),
        decreases solves@.len() - i,
    {
        let ghost prefix = solves@.subrange(0, i + 1);
        assert(prefix.drop_last() =~= solves@.subrange(0, i as int));
        assert(prefix.last() == solves@[i as int]);
        assert(prefix[k as int] == solves@[k as int]);
        let a = &solves[i];
        let b = &solves[k];
        if (!a.has_additional_issues && b.has_additional_issues) || (a.has_additional_issues
            == b.has_additional_issues && a.conflict_mass < b.conflict_mass) {
            k = i;
        }
        i = i + 1;
    }
    assert(solves@.subrange(0, i as int) =~= solves@);
    let mut solves = solves;
    let best = solves.remove(k);
    if same_text(best.method, FROM_PARSED_ORIGINAL) {
        Err(String::from_str(NO_SOLUTION))
    } else {
        Ok(best)
    }
}

impl MergeResult {
    /// The result that a parsed line-based merge stands for, rendered as
    /// `settings` says. It is assumed to have additional issues, since it may
    /// come from a tool that does not know the syntax.
    pub fn from_parsed_merge(parsed_merge: &ParsedMerge, settings: &DisplaySettings) -> (r: MergeResult)
        ensures
            r.contents@ == render_spec(parsed_merge@, *settings),
            r.conflict_count == count_conflicts(parsed_merge@),
            r.conflict_mass == saturate(total_mass(parsed_merge@)),
            r.method@ == LINE_BASED_METHOD@,
            r.has_additional_issues,
    {
        MergeResult {
            contents: parsed_merge.render(settings),
            conflict_count: parsed_merge.conflict_count(),
            conflict_mass: parsed_merge.conflict_mass(),
            method: LINE_BASED_METHOD,
            has_additional_issues: true,
        }
    }
}

/// Whether two of `sigs` are equal.
pub open spec fn has_duplicate(sigs: Seq<Seq<char>>) -> bool {
    exists|i: int, j: int| 0 <= i < j < sigs.len() && #[trigger] sigs[i] == #[trigger] sigs[j]
}

/// The signatures of sibling nodes, as text.
pub open spec fn texts_view(v: Seq<String>) -> Seq<Seq<char>> {
    v.map_values(|s: String| s@)
}

/// Whether two siblings share a signature, which a merge without conflicts can
/// still make wrong (two methods with the same parameter types).
pub fn has_duplicate_signatures(signatures: &Vec<String>) -> (r: bool)
    ensures
        r == has_duplicate(texts_view(signatures@)),
{
    let ghost sv = texts_view(signatures@);
    let mut i: usize = 0;
    while i < signatures.len()
        invariant
            i <= signatures@.len(),
            sv == texts_view(signatures@),
            forall|a: int, b: int| 0 <= a < b < signatures@.len() && a < i ==> sv[a] != sv[b],
        decreases signatures@.len() - i,
    {
        let mut j: usize = i + 1;
        while j < signatures.len()
            invariant
                i < j <= signatures@.len(),
                sv == texts_view(signatures@),
                forall|a: int, b: int| 0 <= a < b < signatures@.len() && a < i ==> sv[a] != sv[b],
                forall|b: int| i < b < j ==> sv[i as int] != sv[b],
            decreases signatures@.len() - j,
        {
            if same_text(signatures[i].as_str(), signatures[j].as_str()) {
                assert(sv[i as int] == sv[j as int]);
                return true;
            }
            j = j + 1;
        }
        i = i + 1;
    }
    false
}

/// The message that reports conflicts solved, after `count` of them.
pub open spec fn solved_text(count: usize, attempt_id: Seq<char>) -> Seq<char> {
    (if count == 1 {
        "Mergiraf: Solved 1 conflict."@
    } else {
        "Mergiraf: Solved "@ + decimal(count as nat) + " conflicts."@
    }) + " Review with: mergiraf review "@ + attempt_id
}

/// The decimal digits of `n`.
pub open spec fn decimal(n: nat) -> Seq<char>
    decreases n,
{
    if n < 10 {
        seq![digit(n)]
    } else {
        decimal(n / 10).push(digit(n % 10))
    }
}

/// The digit for `d`, below ten.
pub open spec fn digit(d: nat) -> char {
    if d == 0 { '0' } else if d == 1 { '1' } else if d == 2 { '2' } else if d == 3 { '3' } else if d == 4 {
        '4'
    } else if d == 5 { '5' } else if d == 6 { '6' } else if d == 7 { '7' } else if d == 8 { '8' } else { '9' }
}

fn digit_char(d: usize) -> (r: char)
    requires
        d < 10,
    ensures
        r == digit(d as nat),
{
    if d == 0 { '0' } else if d == 1 { '1' } else if d == 2 { '2' } else if d == 3 { '3' } else if d == 4 {
        '4'
    } else if d == 5 { '5' } else if d == 6 { '6' } else if d == 7 { '7' } else if d == 8 { '8' } else { '9' }
}

/// Appends the decimal digits of `n` to `out`.
fn push_decimal(out: &mut Vec<char>, n: usize)
    ensures
        final(out)@ == old(out)@ + decimal(n as nat),
    decreases n,
{
    if n < 10 {
        out.push(digit_char(n));
        assert(out@ =~= old(out)@ + decimal(n as nat));
    } else {
        push_decimal(out, n / 10);
        out.push(digit_char(n % 10));
        assert(out@ =~= old(out)@ + decimal(n as nat));
    }
}

impl MergeResult {
    /// What to report once this result is chosen as the best of an attempt
    /// whose line-based merge had `line_based_conflicts` conflicts: a message
    /// where this result solved them all, none otherwise.
    pub fn solved_message(&self, line_based_conflicts: usize, attempt_id: &str) -> (r: Option<String>)
        ensures
            match r {
                Some(m) => self.conflict_count == 0 && line_based_conflicts > 0 && m@ == solved_text(
                    line_based_conflicts,
                    attempt_id@,
                ),
                None => !(self.conflict_count == 0 && line_based_conflicts > 0),
            },
    {
        if self.conflict_count == 0 && line_based_conflicts > 0 {
            let mut out: Vec<char> = Vec::new();
            if line_based_conflicts == 1 {
                push_all(&mut out, &chars_of("Mergiraf: Solved 1 conflict."));
            } else {
                push_all(&mut out, &chars_of("Mergiraf: Solved "));
                push_decimal(&mut out, line_based_conflicts);
                push_all(&mut out, &chars_of(" conflicts."));
            }
            push_all(&mut out, &chars_of(" Review with: mergiraf review "));
            push_all(&mut out, &chars_of(attempt_id));
            Some(string_of(&out))
        } else {
            None
        }
    }

    /// The texts whose syntax and signatures decide whether this result has
    /// additional issues: its contents where it has no conflicts, else each
    /// revision that its conflicts hold, base, left and right.
    pub fn revisions_to_check(&self, settings: &DisplaySettings) -> (r: Result<Vec<String>, ParseMergeError>)
        ensures
            self.conflict_count == 0 ==> r is Ok && r->Ok_0@.len() == 1 && r->Ok_0@[0]@ == self.contents@,
            self.conflict_count != 0 ==> match (r, parse_spec(self.contents@, settings.conflict_marker_size as nat)) {
                (Ok(v), Ok(chunks)) => v@.len() == 3 && v@[0]@ == revision_spec(chunks, Revision::Base) && v@[1]@
                    == revision_spec(chunks, Revision::Left) && v@[2]@ == revision_spec(chunks, Revision::Right),
                (Err(e), Err(e2)) => e == e2,
                _ => false,
            },
    {
        let mut v: Vec<String> = Vec::new();
        if self.conflict_count == 0 {
            v.push(self.contents.clone());
            return Ok(v);
        }
        match ParsedMerge::parse(self.contents.as_str(), settings) {
            Ok(parsed_merge) => {
                v.push(parsed_merge.reconstruct_revision(Revision::Base));
                v.push(parsed_merge.reconstruct_revision(Revision::Left));
                v.push(parsed_merge.reconstruct_revision(Revision::Right));
                Ok(v)
            },
            Err(e) => Err(e),
        }
    }

    /// This result, its additional issues set where any checked text had one.
    pub fn with_issues_found(self, issues: &Vec<bool>) -> (r: MergeResult)
        ensures
            r.contents == self.contents,
            r.conflict_count == self.conflict_count,
            r.conflict_mass == self.conflict_mass,
            r.method == self.method,
            r.has_additional_issues == exists|i: int| 0 <= i < issues@.len() && issues@[i],
    {
        let mut any = false;
        let mut i: usize = 0;
        while i < issues.len()
            invariant
                i <= issues@.len(),
                any == exists|k: int| 0 <= k < i && issues@[k],
            decreases issues@.len() - i,
        {
            if issues[i] {
                any = true;
            }
            i = i + 1;
        }
        MergeResult { has_additional_issues: any, ..self }
    }
}

} // verus!
