//! Exact replacements in a text file.
//!
//! Each edit names a text that must match exactly once, and what to put in its place. The
//! edits of one request are located in the original text and may not overlap.

use vstd::prelude::*;

use crate::config::SecurityMode;
use crate::paths::joined_path;
use crate::text::byte_len;
use crate::text::chars_of;
use crate::text::concat3;
use crate::text::decimal;
use crate::text::matches_at;
use crate::text::numeral;
use crate::text::stands_at;
use crate::text::text_bytes;
use crate::text::text_of;
use crate::tools::access::disabled;
use crate::tools::access::ensure_writable;
use crate::tools::access::write_access;
use crate::tools::access::FileAccess;
use crate::tools::access::Surroundings;
use crate::tools::access::NO_SANDBOX;

verus! {

/// One replacement: the text to look for and the text to put in its place.
#[derive(Debug)]
pub struct ReplaceEdit {
    pub old_text: String,
    pub new_text: String,
}

/// The arguments of the edit tool.
#[derive(Debug)]
pub struct EditParams {
    pub path: String,
    pub edits: Vec<ReplaceEdit>,
}

/// What the edit tool reports.
#[derive(Debug)]
pub struct EditOutput {
    pub path: String,
    pub edits_applied: usize,
    pub bytes: usize,
}

/// Why a list of edits cannot be applied.
#[derive(Debug, Clone, Copy, PartialEq, Eq, Structural)]
pub enum EditProblem {
    /// An edit looks for the empty text.
    EmptyOldText,
    /// An edit's text does not match exactly once; how often it matches.
    MatchCount(usize),
    /// Two edits claim the same part of the text.
    Overlap,
}

/// A replacement as a mathematical value.
pub struct Edit {
    pub old_text: Seq<char>,
    pub new_text: Seq<char>,
}

/// A located replacement: the characters from `start` up to `end` become `new_text`.
pub struct Replacement {
    pub start: int,
    pub end: int,
    pub new_text: Seq<char>,
}

impl View for ReplaceEdit {
    type V = Edit;

    open spec fn view(&self) -> Edit {
        Edit { old_text: self.old_text@, new_text: self.new_text@ }
    }
}

/// The views of a list of edits.
pub open spec fn edits_view(edits: Seq<ReplaceEdit>) -> Seq<Edit> {
    edits.map_values(|e: ReplaceEdit| e@)
}

/// The positions from `from` on at which `old` is found when the search always goes on
/// behind the last match.
pub open spec fn occurrences(text: Seq<char>, old: Seq<char>, from: int) -> Seq<int>
    decreases text.len() - from,
{
    if old.len() == 0 || from < 0 || from + old.len() > text.len() {
        Seq::<int>::empty()
    } else if stands_at(text, old, from) {
        seq![from] + occurrences(text, old, from + old.len())
    } else {
        occurrences(text, old, from + 1)
    }
}

/// What is wrong with one edit on its own.
pub open spec fn problem_of(text: Seq<char>, edit: Edit) -> Option<EditProblem> {
    let found = occurrences(text, edit.old_text, 0);
    if edit.old_text.len() == 0 {
        Some(EditProblem::EmptyOldText)
    } else if found.len() != 1 {
        Some(EditProblem::MatchCount(found.len() as usize))
    } else {
        None
    }
}

/// What is wrong with the first edit, from position `from` on, with which anything is.
pub open spec fn first_problem(text: Seq<char>, edits: Seq<Edit>, from: int) -> Option<EditProblem>
    decreases edits.len() - from,
{
    if from < 0 || from >= edits.len() {
        None
    } else {
        match problem_of(text, edits[from]) {
            Some(p) => Some(p),
            None => first_problem(text, edits, from + 1),
        }
    }
}

/// Where an edit that matches exactly once takes place.
pub open spec fn located(text: Seq<char>, edit: Edit) -> Replacement {
    let start = occurrences(text, edit.old_text, 0)[0];
    Replacement { start, end: start + edit.old_text.len(), new_text: edit.new_text }
}

/// Where the edits take place, in the order in which they were given.
pub open spec fn all_located(text: Seq<char>, edits: Seq<Edit>) -> Seq<Replacement> {
    edits.map_values(|e: Edit| located(text, e))
}

/// Whether two replacements share a character.
pub open spec fn share(a: Replacement, b: Replacement) -> bool {
    a.start < b.end && b.start < a.end
}

/// Whether two of the replacements share a character.
pub open spec fn overlapping(reps: Seq<Replacement>) -> bool {
    exists|k: int, l: int| 0 <= k < l < reps.len() && share(#[trigger] reps[k], #[trigger] reps[l])
}

/// What is wrong with the edits, if anything is.
pub open spec fn edit_problem(text: Seq<char>, edits: Seq<Edit>) -> Option<EditProblem> {
    match first_problem(text, edits, 0) {
        Some(p) => Some(p),
        None => if overlapping(all_located(text, edits)) {
            Some(EditProblem::Overlap)
        } else {
            None
        },
    }
}

/// Whether some replacement begins at position `i`.
pub open spec fn begins_at(reps: Seq<Replacement>, i: int) -> bool {
    exists|r: Replacement| #[trigger] reps.contains(r) && r.start == i
}

/// Whether some replacement covers position `i`.
pub open spec fn covers(reps: Seq<Replacement>, i: int) -> bool {
    exists|r: Replacement| #[trigger] reps.contains(r) && r.start <= i < r.end
}

/// What becomes of the character at position `i`: a replacement's new text where one
/// begins, nothing elsewhere in a replacement, the character itself outside of them all.
pub open spec fn piece(text: Seq<char>, reps: Seq<Replacement>, i: int) -> Seq<char> {
    if begins_at(reps, i) {
        let r = choose|r: Replacement| #[trigger] reps.contains(r) && r.start == i;
        r.new_text
    } else if covers(reps, i) {
        Seq::<char>::empty()
    } else {
        seq![text[i]]
    }
}

/// What becomes of the first `n` characters of the text.
pub open spec fn rewritten(text: Seq<char>, reps: Seq<Replacement>, n: int) -> Seq<char>
    decreases n,
{
    if n <= 0 {
        Seq::<char>::empty()
    } else {
        rewritten(text, reps, n - 1) + piece(text, reps, n - 1)
    }
}

/// The text after all the edits.
pub open spec fn edited(text: Seq<char>, edits: Seq<Edit>) -> Seq<char> {
    rewritten(text, all_located(text, edits), text.len() as int)
}

/// The message for a problem.
pub open spec fn problem_text(p: EditProblem) -> Seq<char> {
    match p {
        EditProblem::EmptyOldText => "edits[].oldText must not be empty"@,
        EditProblem::MatchCount(n) => "edits[].oldText must match exactly once; matched "@
            + numeral(n as nat) + " times"@,
        EditProblem::Overlap => "edits overlap; merge nearby edits into one replacement"@,
    }
}

impl EditProblem {
    /// The message for this problem.
    pub fn message(&self) -> (r: String)
        ensures
            r@ == problem_text(*self),
    {
        match self {
            EditProblem::EmptyOldText => "edits[].oldText must not be empty".to_owned(),
            EditProblem::MatchCount(n) => {
                let count = decimal(*n as u64);
                concat3(
                    "edits[].oldText must match exactly once; matched ",
                    count.as_str(),
                    " times",
                )
            },
            EditProblem::Overlap =>
                "edits overlap; merge nearby edits into one replacement".to_owned(),
        }
    }
}

/// All matches lie in the text, in increasing order and apart from each other.
pub proof fn lemma_occurrences(text: Seq<char>, old: Seq<char>, from: int)
    requires
        0 <= from,
    ensures
        forall|k: int|
            0 <= k < occurrences(text, old, from).len() ==> {
                let p = #[trigger] occurrences(text, old, from)[k];
                from <= p && stands_at(text, old, p) && old.len() > 0
            },
        occurrences(text, old, from).len() <= text.len(),
        from <= text.len() ==> occurrences(text, old, from).len() <= text.len() - from,
    decreases text.len() - from,
{
    if old.len() == 0 || from + old.len() > text.len() {
    } else if stands_at(text, old, from) {
        lemma_occurrences(text, old, from + old.len());
    } else {
        lemma_occurrences(text, old, from + 1);
    }
}

/// A located replacement, with machine integers for the positions.
struct Found {
    start: usize,
    end: usize,
}

/// The positions at which `old` is found, as `str::match_indices` finds them.
fn find_all(text: &Vec<char>, old: &Vec<char>) -> (r: Vec<usize>)
    requires
        old@.len() > 0,
    ensures
        r@.map_values(|p: usize| p as int) == occurrences(text@, old@, 0),
{
    let mut found: Vec<usize> = Vec::new();
    let total: usize = text.len();
    let width: usize = old.len();
    let mut i: usize = 0;
    assert(found@.map_values(|p: usize| p as int) + occurrences(text@, old@, 0)
        =~= occurrences(text@, old@, 0));
    while i <= total && width <= total - i
        invariant
            total == text@.len(),
            width == old@.len() > 0,
            i <= total,
            found@.map_values(|p: usize| p as int) + occurrences(text@, old@, i as int)
                == occurrences(text@, old@, 0),
        decreases total - i,
    {
        if matches_at(text, old, i) {
            let ghost before = found@.map_values(|p: usize| p as int);
            found.push(i);
            assert(found@.map_values(|p: usize| p as int) =~= before.push(i as int));
            assert(before.push(i as int) + occurrences(text@, old@, i + width) =~= before + (
            seq![i as int] + occurrences(text@, old@, i + width)));
            i += width;
        } else {
            i += 1;
        }
    }
    assert(occurrences(text@, old@, i as int) =~= Seq::<int>::empty());
    assert(found@.map_values(|p: usize| p as int) + occurrences(text@, old@, i as int)
        =~= found@.map_values(|p: usize| p as int));
    found
}

/// The replacement that a found range and an edit's new text stand for.
spec fn rep(f: Found, e: Edit) -> Replacement {
    Replacement { start: f.start as int, end: f.end as int, new_text: e.new_text }
}

/// The found ranges are those of the first edits.
spec fn found_for(text: Seq<char>, edits: Seq<Edit>, found: Seq<Found>) -> bool {
    &&& found.len() <= edits.len()
    &&& forall|k: int|
        0 <= k < found.len() ==> {
            &&& rep(#[trigger] found[k], edits[k]) == located(text, edits[k])
            &&& 0 <= found[k].start < found[k].end <= text.len()
        }
}

/// Locates every edit, or says what is wrong with the first one with which anything is.
fn locate(text: &Vec<char>, edits: &Vec<ReplaceEdit>) -> (r: Result<Vec<Found>, EditProblem>)
    ensures
        match r {
            Ok(found) => first_problem(text@, edits_view(edits@), 0) is None && found@.len()
                == edits@.len() && found_for(text@, edits_view(edits@), found@),
            Err(p) => first_problem(text@, edits_view(edits@), 0) == Some(p),
        },
{
    let mut found: Vec<Found> = Vec::new();
    let mut i: usize = 0;
    while i < edits.len()
        invariant
            i <= edits@.len(),
            found@.len() == i,
            found_for(text@, edits_view(edits@), found@),
            first_problem(text@, edits_view(edits@), 0) == first_problem(
                text@,
                edits_view(edits@),
                i as int,
            ),
        decreases edits@.len() - i,
    {
        let old = chars_of(edits[i].old_text.as_str());
        assert(edits_view(edits@)[i as int].old_text == old@);
        if old.len() == 0 {
            return Err(EditProblem::EmptyOldText);
        }
        let places = find_all(text, &old);
        let ghost found_places = occurrences(text@, old@, 0);
        proof {
            lemma_occurrences(text@, old@, 0);
            assert(found_places.len() == places@.len());
        }
        if places.len() != 1 {
            return Err(EditProblem::MatchCount(places.len()));
        }
        let start: usize = places[0];
        assert(found_places[0] == places@.map_values(|p: usize| p as int)[0]);
        assert(stands_at(text@, old@, start as int));
        let total: usize = text.len();
        assert(start + old@.len() <= total);
        let end: usize = start + old.len();
        found.push(Found { start, end });
        i += 1;
    }
    Ok(found)
}

/// Whether two of the found ranges share a character.
fn any_overlap(found: &Vec<Found>, Ghost(reps): Ghost<Seq<Replacement>>) -> (r: bool)
    requires
        reps.len() == found@.len(),
        forall|k: int|
            0 <= k < found@.len() ==> (#[trigger] reps[k]).start == found@[k].start && reps[k].end
                == found@[k].end,
    ensures
        r == overlapping(reps),
{
    let mut k: usize = 0;
    while k < found.len()
        invariant
            k <= found@.len() == reps.len(),
            forall|a: int|
                0 <= a < found@.len() ==> (#[trigger] reps[a]).start == found@[a].start
                    && reps[a].end == found@[a].end,
            forall|a: int, b: int|
                0 <= a < k && a < b < reps.len() ==> !share(#[trigger] reps[a], #[trigger] reps[b]),
        decreases found@.len() - k,
    {
        let mut l: usize = k + 1;
        while l < found.len()
            invariant
                k < l <= found@.len() == reps.len(),
                forall|a: int|
                    0 <= a < found@.len() ==> (#[trigger] reps[a]).start == found@[a].start
                        && reps[a].end == found@[a].end,
                forall|b: int| k < b < l ==> !share(reps[k as int], #[trigger] reps[b]),
            decreases found@.len() - l,
        {
            if found[k].start < found[l].end && found[l].start < found[k].end {
                assert(share(reps[k as int], reps[l as int]));
                return true;
            }
            l += 1;
        }
        k += 1;
    }
    false
}

/// The replacements are not empty, lie in the text and do not overlap.
pub open spec fn well_placed(reps: Seq<Replacement>, len: int) -> bool {
    &&& !overlapping(reps)
    &&& forall|k: int|
        0 <= k < reps.len() ==> 0 <= (#[trigger] reps[k]).start < reps[k].end <= len
}

/// Of well placed replacements only one covers a position.
pub proof fn lemma_unique(reps: Seq<Replacement>, len: int, a: Replacement, b: Replacement, i: int)
    requires
        well_placed(reps, len),
        reps.contains(a),
        reps.contains(b),
        a.start <= i < a.end,
        b.start <= i < b.end,
    ensures
        a == b,
{
    let k = choose|k: int| 0 <= k < reps.len() && reps[k] == a;
    let l = choose|l: int| 0 <= l < reps.len() && reps[l] == b;
    if k < l {
        assert(share(reps[k], reps[l]));
    } else if l < k {
        assert(share(reps[l], reps[k]));
    }
}

/// Whether position `i` lies outside of all replacements.
spec fn outside(reps: Seq<Replacement>, i: int) -> bool {
    !begins_at(reps, i) && !covers(reps, i)
}

/// Characters outside of all replacements stay as they are.
proof fn lemma_copy(text: Seq<char>, reps: Seq<Replacement>, from: int, to: int)
    requires
        0 <= from <= to <= text.len(),
        forall|i: int| from <= i < to ==> outside(reps, i),
    ensures
        rewritten(text, reps, to) == rewritten(text, reps, from) + text.subrange(from, to),
    decreases to - from,
{
    if from < to {
        lemma_copy(text, reps, from, to - 1);
        assert(outside(reps, to - 1));
        assert(text.subrange(from, to) =~= text.subrange(from, to - 1) + seq![text[to - 1]]);
        assert(rewritten(text, reps, to) =~= rewritten(text, reps, from) + text.subrange(from, to));
    } else {
        assert(rewritten(text, reps, from) + text.subrange(from, to) =~= rewritten(
            text,
            reps,
            from,
        ));
    }
}

/// A replacement puts its new text in the place of the characters that it covers.
proof fn lemma_replace(text: Seq<char>, reps: Seq<Replacement>, r: Replacement, to: int)
    requires
        well_placed(reps, text.len() as int),
        reps.contains(r),
        r.start < to <= r.end,
    ensures
        rewritten(text, reps, to) == rewritten(text, reps, r.start) + r.new_text,
    decreases to - r.start,
{
    let k = choose|k: int| 0 <= k < reps.len() && reps[k] == r;
    assert(0 <= reps[k].start < reps[k].end);
    let i = to - 1;
    if i == r.start {
        assert(begins_at(reps, i));
        let c = choose|c: Replacement| #[trigger] reps.contains(c) && c.start == i;
        let l = choose|l: int| 0 <= l < reps.len() && reps[l] == c;
        assert(0 <= reps[l].start < reps[l].end);
        lemma_unique(reps, text.len() as int, r, c, i);
    } else {
        lemma_replace(text, reps, r, i);
        if begins_at(reps, i) {
            let c = choose|c: Replacement| #[trigger] reps.contains(c) && c.start == i;
            let l = choose|l: int| 0 <= l < reps.len() && reps[l] == c;
            assert(0 <= reps[l].start < reps[l].end);
            lemma_unique(reps, text.len() as int, r, c, i);
        }
        assert(covers(reps, i));
        assert(rewritten(text, reps, to) =~= rewritten(text, reps, r.start) + r.new_text);
    }
}

/// Nothing that begins before `pos` reaches beyond it.
spec fn settled(reps: Seq<Replacement>, pos: int) -> bool {
    forall|k: int| 0 <= k < reps.len() && (#[trigger] reps[k]).start < pos ==> reps[k].end <= pos
}

/// The index of the range that begins first, among those that begin at `pos` or later.
fn next_range(found: &Vec<Found>, pos: usize) -> (r: Option<usize>)
    ensures
        match r {
            Some(k) => k < found@.len() && found@[k as int].start >= pos && forall|j: int|
                0 <= j < found@.len() && (#[trigger] found@[j]).start >= pos
                    ==> found@[k as int].start <= found@[j].start,
            None => forall|j: int| 0 <= j < found@.len() ==> (#[trigger] found@[j]).start < pos,
        },
{
    let mut best: Option<usize> = None;
    let mut i: usize = 0;
    while i < found.len()
        invariant
            i <= found@.len(),
            match best {
                Some(k) => k < i && found@[k as int].start >= pos && forall|j: int|
                    0 <= j < i && (#[trigger] found@[j]).start >= pos ==> found@[k as int].start
                        <= found@[j].start,
                None => forall|j: int| 0 <= j < i ==> (#[trigger] found@[j]).start < pos,
            },
        decreases found@.len() - i,
    {
        if found[i].start >= pos {
            match best {
                Some(k) => {
                    if found[i].start < found[k].start {
                        best = Some(i);
                    }
                },
                None => {
                    best = Some(i);
                },
            }
        }
        i += 1;
    }
    best
}

/// Appends the characters from `from` up to `to`.
fn push_range(out: &mut Vec<char>, text: &Vec<char>, from: usize, to: usize)
    requires
        from <= to <= text@.len(),
    ensures
        final(out)@ == old(out)@ + text@.subrange(from as int, to as int),
{
    let mut i: usize = from;
    assert(out@ =~= old(out)@ + text@.subrange(from as int, i as int));
    while i < to
        invariant
            from <= i <= to <= text@.len(),
            out@ == old(out)@ + text@.subrange(from as int, i as int),
        decreases to - i,
    {
        out.push(text[i]);
        i += 1;
        assert(text@.subrange(from as int, i as int) =~= text@.subrange(from as int, i - 1).push(
            text@[i - 1],
        ));
        assert(out@ =~= old(out)@ + text@.subrange(from as int, i as int));
    }
}

/// Applies the edits to the text, or says why they cannot be applied: every edit must look
/// for a text that matches exactly once, and no two may overlap.
pub fn apply_edits(text: &str, edits: &Vec<ReplaceEdit>) -> (r: Result<String, EditProblem>)
    ensures
        match r {
            Ok(s) => edit_problem(text@, edits_view(edits@)) is None && s@ == edited(
                text@,
                edits_view(edits@),
            ),
            Err(p) => edit_problem(text@, edits_view(edits@)) == Some(p),
        },
{
    let chars = chars_of(text);
    let ghost es = edits_view(edits@);
    let ghost reps = all_located(text@, es);
    let found = match locate(&chars, edits) {
        Ok(found) => found,
        Err(p) => {
            return Err(p);
        },
    };
    assert forall|k: int| 0 <= k < found@.len() implies (#[trigger] reps[k]).start
        == found@[k].start && reps[k].end == found@[k].end && reps[k].new_text
        == es[k].new_text && 0 <= reps[k].start < reps[k].end <= text@.len() by {
        assert(rep(found@[k], es[k]) == located(text@, es[k]));
    }
    if any_overlap(&found, Ghost(reps)) {
        return Err(EditProblem::Overlap);
    }
    assert(well_placed(reps, text@.len() as int));
    let mut out: Vec<char> = Vec::new();
    let mut pos: usize = 0;
    let mut next = next_range(&found, pos);
    loop
        invariant
            chars@ == text@,
            es == edits_view(edits@),
            reps == all_located(text@, es),
            found@.len() == edits@.len() == reps.len(),
            well_placed(reps, text@.len() as int),
            edit_problem(text@, es) is None,
            forall|k: int|
                0 <= k < found@.len() ==> (#[trigger] reps[k]).start == found@[k].start
                    && reps[k].end == found@[k].end && reps[k].new_text == es[k].new_text,
            pos <= text@.len(),
            settled(reps, pos as int),
            out@ == rewritten(text@, reps, pos as int),
            match next {
                Some(k) => k < found@.len() && found@[k as int].start >= pos && forall|j: int|
                    0 <= j < found@.len() && (#[trigger] found@[j]).start >= pos
                        ==> found@[k as int].start <= found@[j].start,
                None => forall|j: int| 0 <= j < found@.len() ==> (#[trigger] found@[j]).start < pos,
            },
        decreases text@.len() - pos,
    {
        match next {
            Some(k) => {
                let start: usize = found[k].start;
                let end: usize = found[k].end;
                let ghost r = reps[k as int];
                proof {
                    assert(reps.contains(r));
                    assert forall|i: int| pos <= i < start implies outside(reps, i) by {
                        lemma_gap(reps, found@, pos as int, start as int, i);
                    }
                    lemma_copy(text@, reps, pos as int, start as int);
                    lemma_replace(text@, reps, r, end as int);
                    assert forall|j: int|
                        0 <= j < reps.len() && (#[trigger] reps[j]).start < end implies reps[j].end
                        <= end by {
                        if reps[j].start >= pos {
                            assert(found@[j].start >= start);
                            assert(reps.contains(reps[j]));
                            lemma_unique(reps, text@.len() as int, r, reps[j], reps[j].start);
                        }
                    }
                }
                push_range(&mut out, &chars, pos, start);
                let fresh = chars_of(edits[k].new_text.as_str());
                push_range(&mut out, &fresh, 0, fresh.len());
                assert(fresh@.subrange(0, fresh@.len() as int) =~= r.new_text);
                assert(reps[k as int].start < reps[k as int].end);
                pos = end;
                next = next_range(&found, pos);
            },
            None => {
                let total: usize = chars.len();
                proof {
                    assert forall|i: int| pos <= i < total implies outside(reps, i) by {
                        lemma_gap(reps, found@, pos as int, total as int, i);
                    }
                    lemma_copy(text@, reps, pos as int, total as int);
                }
                push_range(&mut out, &chars, pos, total);
                return Ok(text_of(&out));
            },
        }
    }
}

/// Between `pos` and the next replacement nothing is covered.
proof fn lemma_gap(reps: Seq<Replacement>, found: Seq<Found>, pos: int, next: int, i: int)
    requires
        reps.len() == found.len(),
        forall|k: int|
            0 <= k < found.len() ==> (#[trigger] reps[k]).start == found[k].start && reps[k].end
                == found[k].end && reps[k].start < reps[k].end,
        settled(reps, pos),
        forall|j: int|
            0 <= j < found.len() && (#[trigger] found[j]).start >= pos ==> found[j].start >= next,
        pos <= i < next,
    ensures
        outside(reps, i),
{
    if begins_at(reps, i) {
        let c = choose|c: Replacement| #[trigger] reps.contains(c) && c.start == i;
        let l = choose|l: int| 0 <= l < reps.len() && reps[l] == c;
        assert(found[l].start >= next);
    }
    if covers(reps, i) {
        let c = choose|c: Replacement| #[trigger] reps.contains(c) && c.start <= i < c.end;
        let l = choose|l: int| 0 <= l < reps.len() && reps[l] == c;
        if reps[l].start < pos {
            assert(reps[l].end <= pos);
        } else {
            assert(found[l].start >= next);
        }
    }
}

/// The message for a request without edits.
pub const NO_EDITS: &'static str = "edits must not be empty";

/// How the edit tool gets at the file, or why the request is refused.
pub fn edit_access(around: &Surroundings, input: &EditParams) -> (r: Result<FileAccess, String>)
    ensures
        if around.security.mode == SecurityMode::Readonly {
            r matches Err(m) && m@ == disabled("edit"@)
        } else if input.edits@.len() == 0 {
            r matches Err(m) && m@ == NO_EDITS@
        } else if around.security.mode == SecurityMode::Safe {
            if around.sandboxed {
                r == Ok::<FileAccess, String>(FileAccess::Sandbox)
            } else {
                r matches Err(m) && m@ == NO_SANDBOX@
            }
        } else {
            r matches Ok(FileAccess::Host(p)) && p@ == joined_path(around.workspace@, input.path@)
        },
{
    match ensure_writable(around.security.mode, "edit") {
        Ok(()) => {},
        Err(m) => {
            return Err(m);
        },
    }
    if input.edits.len() == 0 {
        return Err(NO_EDITS.to_owned());
    }
    write_access(around, input.path.as_str(), "edit")
}

/// What the edit tool says and reports once the new text has been written.
pub fn edit_result(input: &EditParams, updated: &str) -> (r: (String, EditOutput))
    ensures
        r.0@ == "Successfully applied "@ + numeral(input.edits@.len()) + " edit(s) to "@
            + input.path@,
        r.1.path == input.path,
        r.1.edits_applied == input.edits@.len(),
        r.1.bytes == byte_len(updated@),
{
    let count: usize = input.edits.len();
    let digits = decimal(count as u64);
    let mut message = concat3("Successfully applied ", digits.as_str(), " edit(s) to ");
    message.push_str(input.path.as_str());
    let bytes = text_bytes(updated);
    (message, EditOutput { path: input.path.clone(), edits_applied: count, bytes })
}

/// Without a problem, every edit is fine on its own.
proof fn lemma_no_problem(text: Seq<char>, edits: Seq<Edit>, from: int)
    requires
        0 <= from <= edits.len(),
    ensures
        first_problem(text, edits, from) is None <==> forall|k: int|
            from <= k < edits.len() ==> problem_of(text, #[trigger] edits[k]) is None,
    decreases edits.len() - from,
{
    if from < edits.len() {
        lemma_no_problem(text, edits, from + 1);
        assert(problem_of(text, edits[from]) is None || problem_of(text, edits[from]) is Some);
    }
}

/// Edits without a problem are well placed.
proof fn lemma_placed(text: Seq<char>, edits: Seq<Edit>)
    requires
        edit_problem(text, edits) is None,
    ensures
        well_placed(all_located(text, edits), text.len() as int),
{
    lemma_no_problem(text, edits, 0);
    let reps = all_located(text, edits);
    assert forall|k: int| 0 <= k < reps.len() implies 0 <= (#[trigger] reps[k]).start < reps[k].end
        <= text.len() by {
        assert(problem_of(text, edits[k]) is None);
        lemma_occurrences(text, edits[k].old_text, 0);
        assert(stands_at(text, edits[k].old_text, occurrences(text, edits[k].old_text, 0)[0]));
    }
}

/// Two lists with the same elements: what stands at two places of the one stands at two
/// places of the other.
proof fn lemma_two_places(a: Seq<Edit>, b: Seq<Edit>, k: int, l: int) -> (places: (int, int))
    requires
        a.to_multiset() == b.to_multiset(),
        0 <= k < l < b.len(),
    ensures
        0 <= places.0 < a.len(),
        0 <= places.1 < a.len(),
        places.0 != places.1,
        a[places.0] == b[k],
        a[places.1] == b[l],
{
    broadcast use vstd::seq_lib::group_to_multiset_ensures;

    assert(b.contains(b[k]));
    assert(b.to_multiset().count(b[k]) > 0);
    assert(a.contains(b[k]));
    let i = choose|i: int| 0 <= i < a.len() && a[i] == b[k];
    let rest_b = b.remove(k);
    let rest_a = a.remove(i);
    assert(rest_b.to_multiset() =~= b.to_multiset().remove(b[k]));
    assert(rest_a.to_multiset() =~= a.to_multiset().remove(a[i]));
    assert(rest_b[l - 1] == b[l]);
    assert(rest_b.contains(b[l]));
    assert(rest_b.to_multiset().count(b[l]) > 0);
    assert(rest_a.contains(b[l]));
    let j = choose|j: int| 0 <= j < rest_a.len() && rest_a[j] == b[l];
    if j < i {
        (i, j)
    } else {
        (i, j + 1)
    }
}

/// Edits that are applied are applied to the same effect in whatever order they are given.
pub proof fn lemma_order_is_irrelevant(text: Seq<char>, a: Seq<Edit>, b: Seq<Edit>)
    requires
        a.to_multiset() == b.to_multiset(),
        edit_problem(text, a) is None,
    ensures
        edit_problem(text, b) is None,
        edited(text, b) == edited(text, a),
{
    broadcast use vstd::seq_lib::group_to_multiset_ensures;

    let ra = all_located(text, a);
    let rb = all_located(text, b);
    lemma_no_problem(text, a, 0);
    lemma_no_problem(text, b, 0);
    assert forall|k: int| 0 <= k < b.len() implies problem_of(text, #[trigger] b[k]) is None by {
        assert(b.contains(b[k]));
        assert(b.to_multiset().count(b[k]) > 0);
        assert(a.contains(b[k]));
        let i = choose|i: int| 0 <= i < a.len() && a[i] == b[k];
        assert(problem_of(text, a[i]) is None);
    }
    if overlapping(rb) {
        let (k, l) = choose|k: int, l: int|
            0 <= k < l < rb.len() && share(#[trigger] rb[k], #[trigger] rb[l]);
        let (i, j) = lemma_two_places(a, b, k, l);
        assert(ra[i] == rb[k] && ra[j] == rb[l]);
        if i < j {
            assert(share(ra[i], ra[j]));
        } else {
            assert(share(ra[j], ra[i]));
        }
    }
    lemma_placed(text, a);
    lemma_placed(text, b);
    assert forall|r: Replacement| ra.contains(r) <==> rb.contains(r) by {
        if ra.contains(r) {
            let i = choose|i: int| 0 <= i < ra.len() && ra[i] == r;
            assert(a.contains(a[i]));
            assert(a.to_multiset().count(a[i]) > 0);
            assert(b.contains(a[i]));
            let k = choose|k: int| 0 <= k < b.len() && b[k] == a[i];
            assert(rb[k] == r);
        }
        if rb.contains(r) {
            let i = choose|i: int| 0 <= i < rb.len() && rb[i] == r;
            assert(b.contains(b[i]));
            assert(b.to_multiset().count(b[i]) > 0);
            assert(a.contains(b[i]));
            let k = choose|k: int| 0 <= k < a.len() && a[k] == b[i];
            assert(ra[k] == r);
        }
    }
    lemma_same_rewriting(text, ra, rb, text.len() as int);
}

/// What becomes of the text depends only on which replacements there are.
proof fn lemma_same_rewriting(text: Seq<char>, ra: Seq<Replacement>, rb: Seq<Replacement>, n: int)
    requires
        well_placed(ra, text.len() as int),
        well_placed(rb, text.len() as int),
        forall|r: Replacement| ra.contains(r) <==> rb.contains(r),
        0 <= n <= text.len(),
    ensures
        rewritten(text, ra, n) == rewritten(text, rb, n),
    decreases n,
{
    if n > 0 {
        lemma_same_rewriting(text, ra, rb, n - 1);
        let i = n - 1;
        if begins_at(ra, i) {
            let x = choose|r: Replacement| #[trigger] ra.contains(r) && r.start == i;
            assert(rb.contains(x));
            assert(begins_at(rb, i));
            let y = choose|r: Replacement| #[trigger] rb.contains(r) && r.start == i;
            let p = choose|p: int| 0 <= p < rb.len() && rb[p] == x;
            let q = choose|q: int| 0 <= q < rb.len() && rb[q] == y;
            assert(rb[p].start < rb[p].end && rb[q].start < rb[q].end);
            lemma_unique(rb, text.len() as int, x, y, i);
        } else {
            assert(!begins_at(rb, i)) by {
                if begins_at(rb, i) {
                    let y = choose|r: Replacement| #[trigger] rb.contains(r) && r.start == i;
                    assert(ra.contains(y));
                }
            }
            assert(covers(ra, i) == covers(rb, i)) by {
                if covers(ra, i) {
                    let x = choose|r: Replacement| #[trigger]
                        ra.contains(r) && r.start <= i < r.end;
                    assert(rb.contains(x));
                }
                if covers(rb, i) {
                    let y = choose|r: Replacement| #[trigger]
                        rb.contains(r) && r.start <= i < r.end;
                    assert(ra.contains(y));
                }
            }
        }
    }
}

/// One edit changes the text that it looks for and nothing else.
pub proof fn lemma_single_edit(text: Seq<char>, edit: Edit)
    requires
        problem_of(text, edit) is None,
    ensures
        edit_problem(text, seq![edit]) is None,
        ({
            let at = occurrences(text, edit.old_text, 0)[0];
            &&& text == text.take(at) + edit.old_text + text.skip(at + edit.old_text.len())
            &&& edited(text, seq![edit]) == text.take(at) + edit.new_text + text.skip(
                at + edit.old_text.len(),
            )
        }),
{
    let edits = seq![edit];
    let reps = all_located(text, edits);
    let n = text.len() as int;
    lemma_no_problem(text, edits, 0);
    lemma_placed(text, edits);
    let r = reps[0];
    assert(reps.contains(r));
    assert(0 <= r.start < r.end <= n);
    lemma_occurrences(text, edit.old_text, 0);
    assert(stands_at(text, edit.old_text, r.start));
    assert forall|i: int| 0 <= i < r.start implies outside(reps, i) by {
        lemma_single_outside(reps, i);
    }
    assert forall|i: int| r.end <= i < n implies outside(reps, i) by {
        lemma_single_outside(reps, i);
    }
    lemma_copy(text, reps, 0, r.start);
    lemma_replace(text, reps, r, r.end);
    lemma_copy(text, reps, r.end, n);
    assert(text =~= text.take(r.start) + edit.old_text + text.skip(r.end));
    assert(edited(text, edits) =~= text.take(r.start) + edit.new_text + text.skip(r.end));
}

/// With one replacement, every position that it does not cover lies outside.
proof fn lemma_single_outside(reps: Seq<Replacement>, i: int)
    requires
        reps.len() == 1,
        reps[0].start < reps[0].end,
        i < reps[0].start || reps[0].end <= i,
    ensures
        outside(reps, i),
{
    assert forall|r: Replacement| reps.contains(r) implies r == reps[0] by {
        let k = choose|k: int| 0 <= k < reps.len() && reps[k] == r;
        assert(k == 0);
    }
}

/// Whether position `i` lies in a replacement behind its first character.
spec fn inside(reps: Seq<Replacement>, i: int) -> bool {
    exists|r: Replacement| #[trigger] reps.contains(r) && r.start < i < r.end
}

/// Replacements that put in what they take out leave the text as it is, up to any position that
/// does not lie inside of one.
proof fn lemma_kept_text(text: Seq<char>, reps: Seq<Replacement>, n: int)
    requires
        well_placed(reps, text.len() as int),
        forall|r: Replacement| #[trigger]
            reps.contains(r) ==> r.new_text == text.subrange(r.start, r.end),
        0 <= n <= text.len(),
        !inside(reps, n),
    ensures
        rewritten(text, reps, n) == text.take(n),
    decreases n,
{
    if n > 0 {
        let i = n - 1;
        if covers(reps, i) {
            let r = choose|r: Replacement| #[trigger] reps.contains(r) && r.start <= i < r.end;
            let k = choose|k: int| 0 <= k < reps.len() && reps[k] == r;
            assert(0 <= reps[k].start < reps[k].end <= text.len());
            assert(r.end == n);
            assert(!inside(reps, r.start)) by {
                if inside(reps, r.start) {
                    let q = choose|q: Replacement| #[trigger]
                        reps.contains(q) && q.start < r.start < q.end;
                    lemma_unique(reps, text.len() as int, q, r, r.start);
                }
            }
            lemma_kept_text(text, reps, r.start);
            lemma_replace(text, reps, r, n);
            assert(text.take(n) =~= text.take(r.start) + text.subrange(r.start, n));
        } else {
            assert(!begins_at(reps, i)) by {
                if begins_at(reps, i) {
                    let r = choose|r: Replacement| #[trigger] reps.contains(r) && r.start == i;
                    let k = choose|k: int| 0 <= k < reps.len() && reps[k] == r;
                    assert(reps[k].start < reps[k].end);
                    assert(covers(reps, i));
                }
            }
            assert(!inside(reps, i)) by {
                if inside(reps, i) {
                    let r = choose|r: Replacement| #[trigger]
                        reps.contains(r) && r.start < i < r.end;
                    assert(covers(reps, i));
                }
            }
            lemma_kept_text(text, reps, i);
            assert(text.take(n) =~= text.take(i).push(text[i]));
        }
    } else {
        assert(text.take(0) =~= Seq::<char>::empty());
    }
}

/// Edits that put in the text that they look for change nothing.
pub proof fn lemma_edits_without_effect(text: Seq<char>, edits: Seq<Edit>)
    requires
        edit_problem(text, edits) is None,
        forall|k: int|
            0 <= k < edits.len() ==> (#[trigger] edits[k]).new_text == edits[k].old_text,
    ensures
        edited(text, edits) == text,
{
    let reps = all_located(text, edits);
    let n = text.len() as int;
    lemma_placed(text, edits);
    lemma_no_problem(text, edits, 0);
    assert forall|r: Replacement| #[trigger] reps.contains(r) implies r.new_text
        == text.subrange(r.start, r.end) by {
        let k = choose|k: int| 0 <= k < reps.len() && reps[k] == r;
        lemma_occurrences(text, edits[k].old_text, 0);
        assert(problem_of(text, edits[k]) is None);
        assert(stands_at(text, edits[k].old_text, r.start));
        assert(text.subrange(r.start, r.end) =~= edits[k].old_text);
    }
    assert(!inside(reps, n)) by {
        if inside(reps, n) {
            let r = choose|r: Replacement| #[trigger] reps.contains(r) && r.start < n < r.end;
            let k = choose|k: int| 0 <= k < reps.len() && reps[k] == r;
            assert(reps[k].end <= n);
        }
    }
    lemma_kept_text(text, reps, n);
    assert(text.take(n) =~= text);
}

/// What becomes of the text up to a position is how everything begins.
proof fn lemma_rewritten_prefix(text: Seq<char>, reps: Seq<Replacement>, m: int, n: int)
    requires
        0 <= m <= n,
    ensures
        rewritten(text, reps, m).len() <= rewritten(text, reps, n).len(),
        rewritten(text, reps, n).take(rewritten(text, reps, m).len() as int) == rewritten(
            text,
            reps,
            m,
        ),
    decreases n - m,
{
    let a = rewritten(text, reps, m);
    if m < n {
        lemma_rewritten_prefix(text, reps, m, n - 1);
        let b = rewritten(text, reps, n - 1);
        assert((b + piece(text, reps, n - 1)).take(a.len() as int) =~= b.take(a.len() as int));
    } else {
        assert(a.take(a.len() as int) =~= a);
    }
}

/// The new text of every edit stands in the edited text, behind what has become of the text
/// before its place.
pub proof fn lemma_every_edit_takes_place(text: Seq<char>, edits: Seq<Edit>, k: int)
    requires
        edit_problem(text, edits) is None,
        0 <= k < edits.len(),
    ensures
        ({
            let at = located(text, edits[k]).start;
            let before = rewritten(text, all_located(text, edits), at);
            stands_at(edited(text, edits), edits[k].new_text, before.len() as int)
        }),
{
    let reps = all_located(text, edits);
    let n = text.len() as int;
    let r = reps[k];
    lemma_placed(text, edits);
    assert(reps.contains(r));
    assert(0 <= r.start < r.end <= n);
    lemma_replace(text, reps, r, r.end);
    lemma_rewritten_prefix(text, reps, r.end, n);
    let before = rewritten(text, reps, r.start);
    let upto = rewritten(text, reps, r.end);
    let all = edited(text, edits);
    assert(upto =~= before + r.new_text);
    assert(all.subrange(before.len() as int, upto.len() as int) =~= r.new_text) by {
        assert forall|i: int| 0 <= i < r.new_text.len() implies all[before.len() + i]
            == r.new_text[i] by {
            assert(all.take(upto.len() as int)[before.len() + i] == upto[before.len() + i]);
        }
    }
}

// ---------------------------------------------------------------------------------------
// What the search finds

/// The search finds everything: wherever the text that is looked for stands, from `from` on, one
/// of the matches covers that place.
pub proof fn lemma_search_is_complete(text: Seq<char>, old: Seq<char>, from: int, p: int) -> (k: int)
    requires
        0 <= from <= p,
        old.len() > 0,
        stands_at(text, old, p),
    ensures
        0 <= k < occurrences(text, old, from).len(),
        occurrences(text, old, from)[k] <= p < occurrences(text, old, from)[k] + old.len(),
    decreases text.len() - from,
{
    if stands_at(text, old, from) {
        let rest = occurrences(text, old, from + old.len());
        assert(occurrences(text, old, from) =~= seq![from] + rest);
        if p < from + old.len() {
            0
        } else {
            lemma_search_is_complete(text, old, from + old.len(), p) + 1
        }
    } else {
        lemma_search_is_complete(text, old, from + 1, p)
    }
}

/// What is found stands there.
pub proof fn lemma_match_stands_there(text: Seq<char>, old: Seq<char>, from: int, k: int)
    requires
        0 <= from,
        0 <= k < occurrences(text, old, from).len(),
    ensures
        from <= occurrences(text, old, from)[k],
        stands_at(text, old, occurrences(text, old, from)[k]),
{
    lemma_occurrences(text, old, from);
}

/// No two matches share a character, and they come in the order of the text.
pub proof fn lemma_matches_are_apart(text: Seq<char>, old: Seq<char>, from: int, j: int, k: int)
    requires
        0 <= from,
        0 <= j < k < occurrences(text, old, from).len(),
    ensures
        occurrences(text, old, from)[j] + old.len() <= occurrences(text, old, from)[k],
    decreases text.len() - from,
{
    if stands_at(text, old, from) {
        let rest = occurrences(text, old, from + old.len());
        assert(occurrences(text, old, from) =~= seq![from] + rest);
        lemma_match_stands_there(text, old, from + old.len(), k - 1);
        if j > 0 {
            lemma_matches_are_apart(text, old, from + old.len(), j - 1, k - 1);
        }
    } else {
        lemma_matches_are_apart(text, old, from + 1, j, k);
    }
}

/// Matches are taken from the start of the text on: the first one is where the text that is
/// looked for stands first, and each further one is where it stands first behind the one before.
pub proof fn lemma_matches_are_taken_in_order(text: Seq<char>, old: Seq<char>, k: int, p: int)
    requires
        old.len() > 0,
        0 <= k < occurrences(text, old, 0).len(),
        stands_at(text, old, p),
        k == 0 || occurrences(text, old, 0)[k - 1] + old.len() <= p,
    ensures
        occurrences(text, old, 0)[k] <= p,
{
    let j = lemma_search_is_complete(text, old, 0, p);
    if j < k {
        if j < k - 1 {
            lemma_matches_are_apart(text, old, 0, j, k - 1);
        }
    } else if j > k {
        lemma_matches_are_apart(text, old, 0, k, j);
    }
}

/// A text that is not empty and stands at exactly one place is found, and at that place,
/// whatever stands before it.
pub proof fn lemma_single_place_is_found(text: Seq<char>, edit: Edit, at: int)
    requires
        edit.old_text.len() > 0,
        stands_at(text, edit.old_text, at),
        forall|p: int| #[trigger] stands_at(text, edit.old_text, p) ==> p == at,
    ensures
        problem_of(text, edit) is None,
        edit_problem(text, seq![edit]) is None,
        located(text, edit).start == at,
        located(text, edit).end == at + edit.old_text.len(),
        edited(text, seq![edit]) == text.take(at) + edit.new_text + text.skip(
            at + edit.old_text.len(),
        ),
{
    let old = edit.old_text;
    let found = occurrences(text, old, 0);
    let k = lemma_search_is_complete(text, old, 0, at);
    lemma_match_stands_there(text, old, 0, k);
    if found.len() > 1 {
        lemma_match_stands_there(text, old, 0, 0);
        lemma_match_stands_there(text, old, 0, 1);
        lemma_matches_are_apart(text, old, 0, 0, 1);
    }
    lemma_single_edit(text, edit);
}

/// When an edit is refused on its own: a text that is empty; one that stands nowhere, which is
/// reported as matching zero times; and one that stands at two places that share no character,
/// which is reported as matching at least twice. Otherwise it is accepted.
pub proof fn lemma_when_an_edit_is_refused(text: Seq<char>, edit: Edit)
    requires
        text.len() <= usize::MAX,
    ensures
        problem_of(text, edit) == Some(EditProblem::EmptyOldText) <==> edit.old_text.len() == 0,
        edit.old_text.len() > 0 ==> (problem_of(text, edit) == Some(EditProblem::MatchCount(0))
            <==> forall|p: int| !#[trigger] stands_at(text, edit.old_text, p)),
        edit.old_text.len() > 0 ==> ((problem_of(text, edit) matches Some(EditProblem::MatchCount(n))
            && n >= 2) <==> exists|p: int, q: int|
            #[trigger] stands_at(text, edit.old_text, p) && #[trigger] stands_at(
                text,
                edit.old_text,
                q,
            ) && p + edit.old_text.len() <= q),
        edit.old_text.len() > 0 && problem_of(text, edit) is Some ==> problem_of(text, edit)
            == Some(
            EditProblem::MatchCount(occurrences(text, edit.old_text, 0).len() as usize),
        ),
{
    let old = edit.old_text;
    let found = occurrences(text, old, 0);
    if old.len() > 0 {
        assert(found.len() <= text.len()) by {
            lemma_occurrences(text, old, 0);
        }
        if found.len() == 0 {
            assert forall|p: int| !#[trigger] stands_at(text, old, p) by {
                if stands_at(text, old, p) {
                    let k = lemma_search_is_complete(text, old, 0, p);
                }
            }
        } else {
            lemma_match_stands_there(text, old, 0, 0);
        }
        if found.len() >= 2 {
            lemma_match_stands_there(text, old, 0, 1);
            lemma_matches_are_apart(text, old, 0, 0, 1);
            assert(stands_at(text, old, found[0]) && stands_at(text, old, found[1]) && found[0]
                + old.len() <= found[1]);
        }
        if exists|p: int, q: int|
            #[trigger] stands_at(text, old, p) && #[trigger] stands_at(text, old, q) && p
                + old.len() <= q {
            let (p, q) = choose|p: int, q: int|
                #[trigger] stands_at(text, old, p) && #[trigger] stands_at(text, old, q) && p
                    + old.len() <= q;
            let j = lemma_search_is_complete(text, old, 0, p);
            let k = lemma_search_is_complete(text, old, 0, q);
            assert(j != k);
        }
    }
}

/// What is wrong with a list of edits: what is wrong with the first one that is refused on its
/// own; else, where two of them share a character, that they overlap; else nothing.
pub proof fn lemma_what_is_wrong_with_edits(text: Seq<char>, edits: Seq<Edit>, k: int)
    requires
        0 <= k < edits.len(),
        forall|j: int| 0 <= j < k ==> problem_of(text, #[trigger] edits[j]) is None,
    ensures
        problem_of(text, edits[k]) is Some ==> edit_problem(text, edits) == problem_of(
            text,
            edits[k],
        ),
        k == edits.len() - 1 && problem_of(text, edits[k]) is None ==> {
            let clash = exists|i: int, j: int|
                #![trigger located(text, edits[i]), located(text, edits[j])]
                0 <= i < j < edits.len() && located(text, edits[i]).start < located(
                    text,
                    edits[j],
                ).end && located(text, edits[j]).start < located(text, edits[i]).end;
            edit_problem(text, edits) == if clash {
                Some(EditProblem::Overlap)
            } else {
                None::<EditProblem>
            }
        },
{
    if problem_of(text, edits[k]) is Some {
        lemma_first_problem_is_reported(text, edits, 0, k);
    }
    if k == edits.len() - 1 && problem_of(text, edits[k]) is None {
        lemma_no_problem(text, edits, 0);
        let reps = all_located(text, edits);
        assert forall|j: int| 0 <= j < edits.len() implies problem_of(
            text,
            #[trigger] edits[j],
        ) is None by {}
        if overlapping(reps) {
            let (i, j) = choose|i: int, j: int|
                0 <= i < j < reps.len() && share(#[trigger] reps[i], #[trigger] reps[j]);
            assert(reps[i] == located(text, edits[i]) && reps[j] == located(text, edits[j]));
        }
        if exists|i: int, j: int|
            #![trigger located(text, edits[i]), located(text, edits[j])]
            0 <= i < j < edits.len() && located(text, edits[i]).start < located(text, edits[j]).end
                && located(text, edits[j]).start < located(text, edits[i]).end {
            let (i, j) = choose|i: int, j: int|
                #![trigger located(text, edits[i]), located(text, edits[j])]
                0 <= i < j < edits.len() && located(text, edits[i]).start < located(
                    text,
                    edits[j],
                ).end && located(text, edits[j]).start < located(text, edits[i]).end;
            assert(share(reps[i], reps[j]));
        }
    }
}

proof fn lemma_first_problem_is_reported(text: Seq<char>, edits: Seq<Edit>, from: int, k: int)
    requires
        0 <= from <= k < edits.len(),
        forall|j: int| 0 <= j < k ==> problem_of(text, #[trigger] edits[j]) is None,
        problem_of(text, edits[k]) is Some,
    ensures
        first_problem(text, edits, from) == problem_of(text, edits[k]),
    decreases k - from,
{
    if from < k {
        assert(problem_of(text, edits[from]) is None);
        lemma_first_problem_is_reported(text, edits, from + 1, k);
    }
}

/// Nothing to edit, nothing changed.
pub proof fn lemma_no_edits(text: Seq<char>)
    ensures
        edit_problem(text, Seq::empty()) is None,
        edited(text, Seq::empty()) == text,
{
    lemma_edits_without_effect(text, Seq::empty());
}

/// The edits take place side by side. Let one of them be the last in the text: with it, the
/// text becomes what it becomes without it, except that from its place on there is its new text
/// and then the rest of the text as it was.
pub proof fn lemma_edits_take_place_side_by_side(text: Seq<char>, edits: Seq<Edit>, k: int)
    requires
        edit_problem(text, edits) is None,
        0 <= k < edits.len(),
        forall|j: int|
            0 <= j < edits.len() ==> located(text, #[trigger] edits[j]).start <= located(
                text,
                edits[k],
            ).start,
    ensures
        edit_problem(text, edits.remove(k)) is None,
        ({
            let r = located(text, edits[k]);
            let without = edited(text, edits.remove(k));
            let tail = text.len() - r.start;
            &&& tail <= without.len()
            &&& without.skip(without.len() - tail) == text.skip(r.start)
            &&& edited(text, edits) == without.take(without.len() - tail) + edits[k].new_text
                + text.skip(r.start + edits[k].old_text.len())
        }),
{
    let rest = edits.remove(k);
    let all = all_located(text, edits);
    let few = all_located(text, rest);
    let r = all[k];
    let n = text.len() as int;
    lemma_no_problem(text, edits, 0);
    lemma_no_problem(text, rest, 0);
    lemma_placed(text, edits);
    assert(0 <= r.start < r.end <= n);
    assert forall|j: int| 0 <= j < rest.len() implies problem_of(text, #[trigger] rest[j]) is None
        && few[j] == all[if j < k {
        j
    } else {
        j + 1
    }] by {
        let i = if j < k {
            j
        } else {
            j + 1
        };
        assert(rest[j] == edits[i]);
        assert(problem_of(text, edits[i]) is None);
    }
    assert(!overlapping(few)) by {
        if overlapping(few) {
            let (a, b) = choose|a: int, b: int|
                0 <= a < b < few.len() && share(#[trigger] few[a], #[trigger] few[b]);
            assert(problem_of(text, rest[a]) is None && problem_of(text, rest[b]) is None);
            let i = if a < k {
                a
            } else {
                a + 1
            };
            let j = if b < k {
                b
            } else {
                b + 1
            };
            assert(share(all[i], all[j]));
        }
    }
    lemma_placed(text, rest);
    assert forall|q: Replacement| #[trigger] few.contains(q) implies all.contains(q) && q.end
        <= r.start by {
        let j = choose|j: int| 0 <= j < few.len() && few[j] == q;
        assert(problem_of(text, rest[j]) is None);
        let i = if j < k {
            j
        } else {
            j + 1
        };
        assert(all[i] == q);
        assert(located(text, edits[i]).start <= r.start);
        assert(0 <= all[i].start < all[i].end);
        if i < k {
            assert(!share(all[i], all[k]));
        } else {
            assert(!share(all[k], all[i]));
        }
    }
    assert forall|q: Replacement| #[trigger] all.contains(q) && q != r implies few.contains(q) by {
        let i = choose|i: int| 0 <= i < all.len() && all[i] == q;
        let j = if i < k {
            i
        } else {
            i - 1
        };
        assert(problem_of(text, rest[j]) is None);
        assert(few[j] == q);
    }
    lemma_same_before(text, all, few, r, r.start);
    assert forall|i: int| r.start <= i < n implies outside(few, i) by {
        if begins_at(few, i) {
            let q = choose|q: Replacement| #[trigger] few.contains(q) && q.start == i;
            let l = choose|l: int| 0 <= l < few.len() && few[l] == q;
            assert(few[l].start < few[l].end);
        }
    }
    lemma_copy(text, few, r.start, n);
    assert(all.contains(r));
    lemma_replace(text, all, r, r.end);
    assert forall|i: int| r.end <= i < n implies outside(all, i) by {
        if begins_at(all, i) {
            let q = choose|q: Replacement| #[trigger] all.contains(q) && q.start == i;
            assert(few.contains(q));
            let l = choose|l: int| 0 <= l < few.len() && few[l] == q;
            assert(few[l].start < few[l].end);
        }
        if covers(all, i) {
            let q = choose|q: Replacement| #[trigger] all.contains(q) && q.start <= i < q.end;
            assert(few.contains(q));
        }
    }
    lemma_copy(text, all, r.end, n);
    let head = rewritten(text, few, r.start);
    let without = edited(text, rest);
    assert(text.subrange(r.start, n) =~= text.skip(r.start));
    assert(text.subrange(r.end, n) =~= text.skip(r.end));
    assert(without =~= head + text.skip(r.start));
    assert(without.skip(head.len() as int) =~= text.skip(r.start));
    assert(without.take(head.len() as int) =~= head);
}

/// Up to where a replacement begins, the text becomes the same with it and without it.
proof fn lemma_same_before(
    text: Seq<char>,
    all: Seq<Replacement>,
    few: Seq<Replacement>,
    r: Replacement,
    n: int,
)
    requires
        well_placed(all, text.len() as int),
        well_placed(few, text.len() as int),
        all.contains(r),
        forall|q: Replacement| #[trigger] few.contains(q) ==> all.contains(q),
        forall|q: Replacement| #[trigger] all.contains(q) && q != r ==> few.contains(q),
        0 <= n <= r.start <= text.len(),
    ensures
        rewritten(text, all, n) == rewritten(text, few, n),
    decreases n,
{
    if n > 0 {
        let i = n - 1;
        lemma_same_before(text, all, few, r, i);
        if begins_at(all, i) {
            let x = choose|q: Replacement| #[trigger] all.contains(q) && q.start == i;
            assert(few.contains(x));
            let y = choose|q: Replacement| #[trigger] few.contains(q) && q.start == i;
            let a = choose|a: int| 0 <= a < few.len() && few[a] == x;
            let b = choose|b: int| 0 <= b < few.len() && few[b] == y;
            assert(few[a].start < few[a].end && few[b].start < few[b].end);
            lemma_unique(few, text.len() as int, x, y, i);
        } else {
            assert(!begins_at(few, i)) by {
                if begins_at(few, i) {
                    let y = choose|q: Replacement| #[trigger] few.contains(q) && q.start == i;
                    assert(all.contains(y));
                }
            }
            if covers(all, i) {
                let x = choose|q: Replacement| #[trigger] all.contains(q) && q.start <= i < q.end;
                assert(few.contains(x));
            }
            if covers(few, i) {
                let y = choose|q: Replacement| #[trigger] few.contains(q) && q.start <= i < q.end;
                assert(all.contains(y));
            }
        }
    }
}

/// What is said of edits that are refused, and what an edit holds.
pub proof fn lemma_what_is_said_of_edits(n: usize, e: ReplaceEdit, edits: Seq<ReplaceEdit>, i: int)
    ensures
        problem_text(EditProblem::EmptyOldText) == "edits[].oldText must not be empty"@,
        problem_text(EditProblem::MatchCount(n))
            == "edits[].oldText must match exactly once; matched "@ + numeral(n as nat)
            + " times"@,
        problem_text(EditProblem::Overlap)
            == "edits overlap; merge nearby edits into one replacement"@,
        NO_EDITS@ == "edits must not be empty"@,
        e@.old_text == e.old_text@,
        e@.new_text == e.new_text@,
        edits_view(edits).len() == edits.len(),
        0 <= i < edits.len() ==> edits_view(edits)[i] == edits[i]@,
{
}

} // verus!
