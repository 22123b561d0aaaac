//! Reconciles the fixes of a document's issues into one rewrite.
//!
//! Every fix is first resolved to a span of the unchanged document. Fixes
//! are then accepted in the order of the issues: a fix is accepted unless
//! its span collides with that of a fix accepted before it. The accepted
//! edits are applied together, so no edit sees an offset that another has
//! moved.

use crate::lines::{
    begin_of, content_end_of, end_of, index_lines, lemma_line_bounds, line_begin, line_content_end,
    line_count, line_end,
};
use crate::lsp::code_actions::{deleted_count, deletes_line, inserted_text, target_line};
use crate::lsp::utils::zero_based;
use crate::text::{append, chars_of, string_of};
use crate::types::{LintError, LintErrorView, issues_view};
use vstd::prelude::*;

verus! {

/// The replacement of the characters from `start` up to, not including,
/// `end` by `text`. Offsets count characters of the unchanged document.
pub struct Edit {
    pub start: int,
    pub end: int,
    pub text: Seq<char>,
}

/// The edit that an issue's fix makes in `content`.
///
/// A whole-line delete spans the line and its terminator. Any other fix
/// begins at its column and spans the characters it deletes; it must lie
/// within the content of its line. There is no edit where the issue has no
/// fix, the line does not exist, the fix names no column, or the span would
/// leave the line: a fix is applied whole or not at all.
pub open spec fn resolve(content: Seq<char>, error: LintErrorView) -> Option<Edit> {
    match error.fix_info {
        None => None,
        Some(fix) => {
            let idx = zero_based(target_line(error, fix));
            if idx >= line_count(content) {
                None
            } else if deletes_line(fix) {
                Some(
                    Edit {
                        start: line_begin(content, idx),
                        end: line_end(content, idx),
                        text: Seq::empty(),
                    },
                )
            } else {
                match fix.edit_column {
                    None => None,
                    Some(column) => {
                        let start = line_begin(content, idx) + zero_based(column as int);
                        let end = start + deleted_count(fix);
                        if end > line_content_end(content, idx) {
                            None
                        } else {
                            Some(Edit { start, end, text: inserted_text(fix) })
                        }
                    },
                }
            }
        },
    }
}

/// Whether `a` lies wholly before `b`: it ends where `b` starts or earlier,
/// and does not start at the same place.
pub open spec fn strictly_before(a: Edit, b: Edit) -> bool {
    a.end <= b.start && a.start < b.start
}

/// Whether two edits collide: neither lies wholly before the other. Edits
/// that touch a common character collide, and so do two edits that start at
/// the same place.
pub open spec fn collide(a: Edit, b: Edit) -> bool {
    !strictly_before(a, b) && !strictly_before(b, a)
}

/// Whether `e` collides with none of `chosen`.
pub open spec fn fits(chosen: Seq<Edit>, e: Edit) -> bool {
    forall|k: int| 0 <= k < chosen.len() ==> !collide(#[trigger] chosen[k], e)
}

/// `es` with `e` put before the first edit that does not start earlier.
pub open spec fn insert_by_start(es: Seq<Edit>, e: Edit) -> Seq<Edit>
    decreases es.len(),
{
    if es.len() == 0 {
        seq![e]
    } else if es.last().start < e.start {
        es.push(e)
    } else {
        insert_by_start(es.drop_last(), e).push(es.last())
    }
}

/// The edits that are applied, in the order of their spans: each issue in
/// turn contributes its edit unless that collides with one accepted before.
pub open spec fn accepted(content: Seq<char>, issues: Seq<LintErrorView>) -> Seq<Edit>
    decreases issues.len(),
{
    if issues.len() == 0 {
        Seq::empty()
    } else {
        let before = accepted(content, issues.drop_last());
        match resolve(content, issues.last()) {
            Some(e) => if fits(before, e) {
                insert_by_start(before, e)
            } else {
                before
            },
            None => before,
        }
    }
}

/// What is left of `content` from `from` on once the edits `es`, which are
/// ordered and lie behind `from`, are made.
pub open spec fn splice(content: Seq<char>, es: Seq<Edit>, from: int) -> Seq<char>
    decreases es.len(),
{
    if es.len() == 0 {
        content.subrange(from, content.len() as int)
    } else {
        content.subrange(from, es[0].start) + es[0].text + splice(
            content,
            es.drop_first(),
            es[0].end,
        )
    }
}

/// The document after the fixes of `issues` that do not collide.
pub open spec fn fixed(content: Seq<char>, issues: Seq<LintErrorView>) -> Seq<char> {
    splice(content, accepted(content, issues), 0)
}

/// Whether the edits lie within a text of `len` characters, one wholly
/// before the next.
pub open spec fn well_placed(es: Seq<Edit>, len: int) -> bool {
    &&& forall|k: int| 0 <= k < es.len() ==> 0 <= (#[trigger] es[k]).start <= es[k].end <= len
    &&& forall|k: int, m: int| 0 <= k < m < es.len() ==> strictly_before(es[k], es[m])
}

/// An edit that an issue resolves to lies within the document.
pub proof fn lemma_resolve_in_bounds(content: Seq<char>, error: LintErrorView)
    ensures
        match resolve(content, error) {
            Some(e) => 0 <= e.start <= e.end <= content.len(),
            None => true,
        },
{
    match error.fix_info {
        None => {},
        Some(fix) => {
            let idx = zero_based(target_line(error, fix));
            lemma_line_bounds(content, idx);
        },
    }
}

/// Putting an edit that fits among well-placed edits, at position `p`
/// behind those that start earlier, is what `insert_by_start` does, and the
/// result is well placed.
pub proof fn lemma_insert_by_start(es: Seq<Edit>, e: Edit, p: int, len: int)
    requires
        well_placed(es, len),
        fits(es, e),
        0 <= e.start <= e.end <= len,
        0 <= p <= es.len(),
        forall|k: int| 0 <= k < p ==> (#[trigger] es[k]).start < e.start,
        forall|k: int| p <= k < es.len() ==> (#[trigger] es[k]).start >= e.start,
    ensures
        insert_by_start(es, e) == es.insert(p, e),
        well_placed(es.insert(p, e), len),
    decreases es.len(),
{
    let r = es.insert(p, e);
    if es.len() == 0 {
        assert(r =~= seq![e]);
    } else if es.last().start < e.start {
        assert(p == es.len());
        assert(r =~= es.push(e));
    } else {
        assert(p < es.len());
        let rest = es.drop_last();
        assert(well_placed(rest, len));
        assert(fits(rest, e)) by {
            assert forall|k: int| 0 <= k < rest.len() implies !collide(#[trigger] rest[k], e) by {
                assert(rest[k] == es[k]);
            }
        }
        lemma_insert_by_start(rest, e, p, len);
        assert(r =~= rest.insert(p, e).push(es.last()));
    }
    assert forall|k: int, m: int| 0 <= k < m < r.len() implies strictly_before(r[k], r[m]) by {
        if k < p && m == p {
            assert(r[k] == es[k]);
            assert(!collide(es[k], e));
        } else if k == p {
            assert(r[m] == es[m - 1]);
            assert(!collide(es[m - 1], e));
        } else if k < p && m < p {
        } else if k < p {
            assert(r[m] == es[m - 1]);
        } else {
            assert(r[k] == es[k - 1]);
            assert(r[m] == es[m - 1]);
        }
    }
    assert forall|k: int| 0 <= k < r.len() implies 0 <= (#[trigger] r[k]).start <= r[k].end
        <= len by {
        if k < p {
            assert(r[k] == es[k]);
        } else if k > p {
            assert(r[k] == es[k - 1]);
        }
    }
}

/// Among well-placed edits there is a position behind those that start
/// before `e` and before those that do not.
pub open spec fn rank_of(es: Seq<Edit>, e: Edit) -> int
    decreases es.len(),
{
    if es.len() == 0 {
        0
    } else if es.last().start < e.start {
        es.len() as int
    } else {
        rank_of(es.drop_last(), e)
    }
}

/// `rank_of` is a place in the list: the edits before it start before `e`,
/// the others do not.
pub proof fn lemma_rank_of(es: Seq<Edit>, e: Edit, len: int)
    requires
        well_placed(es, len),
    ensures
        0 <= rank_of(es, e) <= es.len(),
        forall|k: int| 0 <= k < rank_of(es, e) ==> (#[trigger] es[k]).start < e.start,
        forall|k: int| rank_of(es, e) <= k < es.len() ==> (#[trigger] es[k]).start >= e.start,
    decreases es.len(),
{
    if es.len() == 0 {
    } else if es.last().start < e.start {
        assert forall|k: int| 0 <= k < es.len() implies (#[trigger] es[k]).start < e.start by {
            if k < es.len() - 1 {
                assert(strictly_before(es[k], es[es.len() - 1]));
            }
        }
    } else {
        let rest = es.drop_last();
        assert(well_placed(rest, len));
        lemma_rank_of(rest, e, len);
        assert forall|k: int| 0 <= k < rank_of(es, e) implies (#[trigger] es[k]).start
            < e.start by {
            assert(rest[k] == es[k]);
        }
        assert forall|k: int| rank_of(es, e) <= k < es.len() implies (#[trigger] es[k]).start
            >= e.start by {
            if k < es.len() - 1 {
                assert(rest[k] == es[k]);
            }
        }
    }
}

/// The accepted edits lie within the document, one wholly before the next:
/// no two of them collide.
pub proof fn lemma_accepted_well_placed(content: Seq<char>, issues: Seq<LintErrorView>)
    ensures
        well_placed(accepted(content, issues), content.len() as int),
    decreases issues.len(),
{
    if issues.len() > 0 {
        let before = accepted(content, issues.drop_last());
        lemma_accepted_well_placed(content, issues.drop_last());
        lemma_resolve_in_bounds(content, issues.last());
        match resolve(content, issues.last()) {
            Some(e) => {
                if fits(before, e) {
                    lemma_rank_of(before, e, content.len() as int);
                    lemma_insert_by_start(before, e, rank_of(before, e), content.len() as int);
                }
            },
            None => {},
        }
    }
}

/// An edit that waits to be applied.
pub struct PendingEdit {
    pub start: usize,
    pub end: usize,
    pub text: Vec<char>,
}

impl View for PendingEdit {
    type V = Edit;

    open spec fn view(&self) -> Edit {
        Edit { start: self.start as int, end: self.end as int, text: self.text@ }
    }
}

/// The views of a list of pending edits.
pub open spec fn edits_view(v: Seq<PendingEdit>) -> Seq<Edit> {
    Seq::new(v.len(), |i: int| v[i]@)
}

/// Resolves the fix of an issue to its span in `text`, whose lines begin at
/// `starts`.
pub(crate) fn resolve_fix(text: &[char], starts: &Vec<usize>, error: &LintError) -> (r: Option<
    PendingEdit,
>)
    requires
        starts@.len() == line_count(text@),
        forall|j: int|
            0 <= j < starts@.len() ==> starts@[j] as int == crate::lines::line_starts(text@)[j],
    ensures
        match r {
            Some(e) => resolve(text@, error@) == Some(e@),
            None => resolve(text@, error@) is None,
        },
{
    let fix = match &error.fix_info {
        Some(f) => f,
        None => { return None; },
    };
    let target: usize = match fix.line_number {
        Some(n) => n,
        None => error.line_number,
    };
    let idx: usize = if target > 0 { target - 1 } else { 0 };
    if idx >= starts.len() {
        return None;
    }
    let begin = begin_of(text, starts, idx);
    if fix.delete_count == Some(-1i32) {
        let end = end_of(text, starts, idx);
        proof {
            lemma_line_bounds(text@, idx as int);
        }
        return Some(PendingEdit { start: begin, end, text: Vec::new() });
    }
    let column: usize = match fix.edit_column {
        Some(c) => c,
        None => { return None; },
    };
    let offset: usize = if column > 0 { column - 1 } else { 0 };
    let count: usize = match fix.delete_count {
        Some(n) => if n > 0 {
            n as usize
        } else {
            0
        },
        None => 0,
    };
    let limit = content_end_of(text, starts, idx);
    if offset > limit - begin || count > limit - begin - offset {
        return None;
    }
    let inserted = match &fix.insert_text {
        Some(t) => chars_of(t.as_str()),
        None => Vec::new(),
    };
    Some(PendingEdit { start: begin + offset, end: begin + offset + count, text: inserted })
}

/// Whether `e` collides with none of `chosen`.
pub fn fits_among(chosen: &Vec<PendingEdit>, e: &PendingEdit) -> (r: bool)
    ensures
        r == fits(edits_view(chosen@), e@),
{
    let mut k: usize = 0;
    while k < chosen.len()
        invariant
            k <= chosen.len(),
            forall|j: int| 0 <= j < k ==> !collide(#[trigger] edits_view(chosen@)[j], e@),
        decreases chosen.len() - k,
    {
        let c = &chosen[k];
        let c_first = c.end <= e.start && c.start < e.start;
        let e_first = e.end <= c.start && e.start < c.start;
        if !c_first && !e_first {
            assert(collide(edits_view(chosen@)[k as int], e@));
            return false;
        }
        k += 1;
    }
    true
}

/// The number of edits of `chosen`, which are in order, that start before
/// `e`.
fn position_for(chosen: &Vec<PendingEdit>, e: &PendingEdit, Ghost(len): Ghost<int>) -> (r:
    usize)
    requires
        well_placed(edits_view(chosen@), len),
    ensures
        r == rank_of(edits_view(chosen@), e@),
        r <= chosen.len(),
{
    let ghost es = edits_view(chosen@);
    proof {
        lemma_rank_of(es, e@, len);
    }
    let mut p: usize = 0;
    while p < chosen.len() && chosen[p].start < e.start
        invariant
            p <= chosen.len(),
            es == edits_view(chosen@),
            p <= rank_of(es, e@) <= es.len(),
            forall|k: int| 0 <= k < rank_of(es, e@) ==> (#[trigger] es[k]).start < e@.start,
            forall|k: int| rank_of(es, e@) <= k < es.len() ==> (#[trigger] es[k]).start >= e@.start,
        decreases chosen.len() - p,
    {
        assert(es[p as int].start < e@.start);
        p += 1;
    }
    if p < chosen.len() {
        assert(es[p as int].start >= e@.start);
    }
    p
}

/// Applies the fixes of `errors` to `content` in one pass.
///
/// Fixes are taken in the order of `errors`; one whose span collides with
/// that of a fix taken before it is left out, and so is one that cannot be
/// resolved within its line. The rest of the document is kept as it is.
pub fn apply_fixes(content: &str, errors: &[LintError]) -> (r: String)
    ensures
        r@ == fixed(content@, issues_view(errors@)),
{
    let text = chars_of(content);
    let starts = index_lines(text.as_slice());
    let ghost issues = issues_view(errors@);
    let mut chosen: Vec<PendingEdit> = Vec::new();
    let mut i: usize = 0;
    assert(issues.take(0) =~= Seq::empty());
    while i < errors.len()
        invariant
            i <= errors.len(),
            issues == issues_view(errors@),
            text@ == content@,
            starts@.len() == line_count(text@),
            forall|j: int|
                0 <= j < starts@.len() ==> starts@[j] as int == crate::lines::line_starts(
                    text@,
                )[j],
            edits_view(chosen@) == accepted(text@, issues.take(i as int)),
        decreases errors.len() - i,
    {
        assert(issues.take(i + 1).drop_last() =~= issues.take(i as int));
        assert(issues.take(i + 1).last() == errors@[i as int]@);
        proof {
            lemma_accepted_well_placed(text@, issues.take(i as int));
            lemma_resolve_in_bounds(text@, errors@[i as int]@);
        }
        match resolve_fix(text.as_slice(), &starts, &errors[i]) {
            Some(e) => {
                if fits_among(&chosen, &e) {
                    let p = position_for(&chosen, &e, Ghost(text@.len() as int));
                    let ghost before = edits_view(chosen@);
                    let ghost ev = e@;
                    proof {
                        lemma_rank_of(before, ev, text@.len() as int);
                        lemma_insert_by_start(before, ev, p as int, text@.len() as int);
                    }
                    chosen.insert(p, e);
                    assert(edits_view(chosen@) =~= before.insert(p as int, ev));
                }
            },
            None => {},
        }
        i += 1;
    }
    assert(issues.take(i as int) =~= issues);
    let ghost es = edits_view(chosen@);
    proof {
        lemma_accepted_well_placed(text@, issues);
    }
    let mut out: Vec<char> = Vec::new();
    let mut pos: usize = 0;
    let mut k: usize = 0;
    assert(es.skip(0) =~= es);
    while k < chosen.len()
        invariant
            k <= chosen.len(),
            es == edits_view(chosen@),
            well_placed(es, text@.len() as int),
            pos <= text@.len(),
            forall|m: int| k <= m < es.len() ==> pos <= (#[trigger] es[m]).start,
            splice(text@, es, 0) == out@ + splice(text@, es.skip(k as int), pos as int),
        decreases chosen.len() - k,
    {
        let e = &chosen[k];
        assert(es[k as int] == e@);
        assert(es.skip(k as int)[0] == es[k as int]);
        assert(es.skip(k as int).drop_first() =~= es.skip(k + 1));
        let ghost done = out@;
        let kept = crate::text::slice_of(text.as_slice(), pos, e.start);
        append(&mut out, kept.as_slice());
        append(&mut out, e.text.as_slice());
        assert(out@ + splice(text@, es.skip(k + 1), e.end as int) =~= done + splice(
            text@,
            es.skip(k as int),
            pos as int,
        ));
        assert forall|m: int| k + 1 <= m < es.len() implies e.end <= (#[trigger] es[m]).start by {
            assert(strictly_before(es[k as int], es[m]));
        }
        pos = e.end;
        k += 1;
    }
    assert(es.skip(k as int) =~= Seq::empty());
    let rest = crate::text::slice_of(text.as_slice(), pos, text.len());
    append(&mut out, rest.as_slice());
    string_of(out.as_slice())
}

/// Whether the fix of issue `i` is applied: it resolves to an edit that
/// collides with none of the edits accepted from the issues before it.
pub open spec fn applied(content: Seq<char>, issues: Seq<LintErrorView>, i: int) -> bool {
    &&& 0 <= i < issues.len()
    &&& match resolve(content, issues[i]) {
        Some(e) => fits(accepted(content, issues.take(i)), e),
        None => false,
    }
}

/// The edits accepted from the first `n` issues are still accepted after
/// `m >= n` issues, and the edit of an applied issue is among them.
pub proof fn lemma_accepted_grows(content: Seq<char>, issues: Seq<LintErrorView>, n: int, m: int)
    requires
        0 <= n <= m <= issues.len(),
    ensures
        forall|e: Edit|
            accepted(content, issues.take(n)).contains(e) ==> accepted(
                content,
                issues.take(m),
            ).contains(e),
        n < m && applied(content, issues, n) ==> accepted(content, issues.take(m)).contains(
            resolve(content, issues[n])->0,
        ),
    decreases m - n,
{
    if n < m {
        lemma_accepted_grows(content, issues, n, m - 1);
        let part = issues.take(m);
        assert(part.drop_last() =~= issues.take(m - 1));
        assert(part.last() == issues[m - 1]);
        let before = accepted(content, issues.take(m - 1));
        let after = accepted(content, part);
        lemma_accepted_well_placed(content, issues.take(m - 1));
        lemma_resolve_in_bounds(content, issues[m - 1]);
        match resolve(content, issues[m - 1]) {
            Some(x) => {
                if fits(before, x) {
                    let p = rank_of(before, x);
                    lemma_rank_of(before, x, content.len() as int);
                    lemma_insert_by_start(before, x, p, content.len() as int);
                    assert(after == before.insert(p, x));
                    assert(after[p] == x);
                    assert forall|e: Edit| before.contains(e) implies after.contains(e) by {
                        let k = choose|k: int| 0 <= k < before.len() && before[k] == e;
                        if k < p {
                            assert(after[k] == e);
                        } else {
                            assert(after[k + 1] == e);
                        }
                    }
                }
            },
            None => {},
        }
    }
}

/// Of two issues whose fixes collide, at most one is applied.
pub proof fn lemma_colliding_fixes_not_both(
    content: Seq<char>,
    issues: Seq<LintErrorView>,
    i: int,
    j: int,
)
    requires
        0 <= i < j < issues.len(),
        resolve(content, issues[i]) is Some,
        resolve(content, issues[j]) is Some,
        collide(resolve(content, issues[i])->0, resolve(content, issues[j])->0),
    ensures
        !(applied(content, issues, i) && applied(content, issues, j)),
{
    if applied(content, issues, i) {
        lemma_accepted_grows(content, issues, i, j);
        let a = resolve(content, issues[i])->0;
        let chosen = accepted(content, issues.take(j));
        let k = choose|k: int| 0 <= k < chosen.len() && chosen[k] == a;
        assert(collide(chosen[k], resolve(content, issues[j])->0));
    }
}

/// The accepted edits are the edits of the applied issues, and no others.
pub proof fn lemma_accepted_are_applied(content: Seq<char>, issues: Seq<LintErrorView>, e: Edit)
    ensures
        accepted(content, issues).contains(e) <==> exists|i: int|
            #[trigger] applied(content, issues, i) && resolve(content, issues[i]) == Some(e),
    decreases issues.len(),
{
    let n = issues.len() as int;
    assert(issues.take(n) =~= issues);
    if accepted(content, issues).contains(e) {
        lemma_accepted_source(content, issues, n, e);
    }
    if exists|i: int| #[trigger] applied(content, issues, i) && resolve(content, issues[i]) == Some(e) {
        let i = choose|i: int|
            #[trigger] applied(content, issues, i) && resolve(content, issues[i]) == Some(e);
        lemma_accepted_grows(content, issues, i, n);
    }
}

/// Every edit accepted from the first `n` issues is the edit of an applied
/// issue among them.
proof fn lemma_accepted_source(content: Seq<char>, issues: Seq<LintErrorView>, n: int, e: Edit)
    requires
        0 <= n <= issues.len(),
        accepted(content, issues.take(n)).contains(e),
    ensures
        exists|i: int|
            #[trigger] applied(content, issues, i) && i < n && resolve(content, issues[i]) == Some(
                e,
            ),
    decreases n,
{
    if n > 0 {
        let part = issues.take(n);
        assert(part.drop_last() =~= issues.take(n - 1));
        assert(part.last() == issues[n - 1]);
        let before = accepted(content, issues.take(n - 1));
        if before.contains(e) {
            lemma_accepted_source(content, issues, n - 1, e);
        } else {
            lemma_accepted_well_placed(content, issues.take(n - 1));
            lemma_resolve_in_bounds(content, issues[n - 1]);
            let x = resolve(content, issues[n - 1])->0;
            let p = rank_of(before, x);
            lemma_rank_of(before, x, content.len() as int);
            lemma_insert_by_start(before, x, p, content.len() as int);
            let after = before.insert(p, x);
            let k = choose|k: int| 0 <= k < after.len() && after[k] == e;
            if k < p {
                assert(before[k] == e);
            } else if k > p {
                assert(before[k - 1] == e);
            }
            assert(applied(content, issues, n - 1));
        }
    }
}

/// By how much an edit lengthens the document.
pub open spec fn growth(e: Edit) -> int {
    e.text.len() - (e.end - e.start)
}

/// By how much the edits lengthen the document.
pub open spec fn total_growth(es: Seq<Edit>) -> int
    decreases es.len(),
{
    if es.len() == 0 {
        0
    } else {
        growth(es[0]) + total_growth(es.drop_first())
    }
}

/// By how much the edits that end at `p` or before it lengthen the
/// document: how far the character at offset `p` moves.
pub open spec fn shift_at(es: Seq<Edit>, p: int) -> int
    decreases es.len(),
{
    if es.len() == 0 {
        0
    } else if es[0].end <= p {
        growth(es[0]) + shift_at(es.drop_first(), p)
    } else {
        shift_at(es.drop_first(), p)
    }
}

/// Whether offset `p` lies in none of the spans that the edits replace.
pub open spec fn untouched(es: Seq<Edit>, p: int) -> bool {
    forall|k: int| 0 <= k < es.len() ==> !((#[trigger] es[k]).start <= p < es[k].end)
}

/// The length of what `splice` gives, and where it keeps a character that
/// no edit touches.
proof fn lemma_splice(content: Seq<char>, es: Seq<Edit>, from: int, p: int)
    requires
        well_placed(es, content.len() as int),
        0 <= from <= content.len(),
        forall|k: int| 0 <= k < es.len() ==> from <= (#[trigger] es[k]).start,
    ensures
        splice(content, es, from).len() == content.len() - from + total_growth(es),
        from <= p < content.len() && untouched(es, p) ==> {
            let at = p - from + shift_at(es, p);
            0 <= at < splice(content, es, from).len() && splice(content, es, from)[at]
                == content[p]
        },
    decreases es.len(),
{
    if es.len() > 0 {
        let e = es[0];
        let rest = es.drop_first();
        assert(well_placed(rest, content.len() as int)) by {
            assert forall|k: int, m: int| 0 <= k < m < rest.len() implies strictly_before(
                rest[k],
                rest[m],
            ) by {
                assert(strictly_before(es[k + 1], es[m + 1]));
            }
            assert forall|k: int| 0 <= k < rest.len() implies 0 <= (#[trigger] rest[k]).start
                <= rest[k].end <= content.len() by {
                assert(rest[k] == es[k + 1]);
            }
        }
        assert forall|k: int| 0 <= k < rest.len() implies e.end <= (#[trigger] rest[k]).start by {
            assert(strictly_before(es[0], es[k + 1]));
        }
        lemma_splice(content, rest, e.end, p);
        if from <= p < content.len() && untouched(es, p) {
            assert(untouched(rest, p)) by {
                assert forall|k: int| 0 <= k < rest.len() implies !((#[trigger] rest[k]).start <= p
                    < rest[k].end) by {
                    assert(rest[k] == es[k + 1]);
                }
            }
            assert(!(es[0].start <= p < es[0].end));
            if p < e.start {
                lemma_shift_none(rest, p);
            }
        }
    }
}

/// Edits that end behind `p` do not move the character at `p`.
proof fn lemma_shift_none(es: Seq<Edit>, p: int)
    requires
        forall|k: int| 0 <= k < es.len() ==> p < (#[trigger] es[k]).end,
    ensures
        shift_at(es, p) == 0,
    decreases es.len(),
{
    if es.len() > 0 {
        assert(p < es[0].end);
        let rest = es.drop_first();
        assert forall|k: int| 0 <= k < rest.len() implies p < (#[trigger] rest[k]).end by {
            assert(rest[k] == es[k + 1]);
        }
        lemma_shift_none(rest, p);
    }
}

/// The rewritten document is the document with the accepted spans replaced
/// and nothing else changed: its length is the document's plus what the
/// accepted edits add, and every character outside the accepted spans is
/// still there, moved by what the edits before it add.
pub proof fn lemma_fixed_keeps_the_rest(content: Seq<char>, issues: Seq<LintErrorView>, p: int)
    requires
        0 <= p < content.len(),
        untouched(accepted(content, issues), p),
    ensures
        fixed(content, issues).len() == content.len() + total_growth(accepted(content, issues)),
        0 <= p + shift_at(accepted(content, issues), p) < fixed(content, issues).len(),
        fixed(content, issues)[p + shift_at(accepted(content, issues), p)] == content[p],
{
    lemma_accepted_well_placed(content, issues);
    lemma_splice(content, accepted(content, issues), 0, p);
}

/// A document whose issues carry no applicable fix is left as it is.
pub proof fn lemma_fixed_without_edits(content: Seq<char>, issues: Seq<LintErrorView>)
    requires
        accepted(content, issues).len() == 0,
    ensures
        fixed(content, issues) == content,
{
    assert(content.subrange(0, content.len() as int) =~= content);
}

/// By how much the edits before edit `k` lengthen the document.
pub open spec fn growth_before(es: Seq<Edit>, k: int) -> int
    decreases k,
{
    if k <= 0 || k > es.len() {
        0
    } else {
        growth_before(es, k - 1) + growth(es[k - 1])
    }
}

/// What `splice` gives holds the text of each edit where the edit starts.
proof fn lemma_splice_holds_texts(content: Seq<char>, es: Seq<Edit>, from: int, k: int)
    requires
        well_placed(es, content.len() as int),
        0 <= from <= content.len(),
        forall|m: int| 0 <= m < es.len() ==> from <= (#[trigger] es[m]).start,
        0 <= k < es.len(),
    ensures
        ({
            let at = es[k].start - from + growth_before(es, k);
            &&& 0 <= at
            &&& at + es[k].text.len() <= splice(content, es, from).len()
            &&& splice(content, es, from).subrange(at, at + es[k].text.len()) == es[k].text
        }),
    decreases es.len(),
{
    let e = es[0];
    let rest = es.drop_first();
    assert(well_placed(rest, content.len() as int)) by {
        assert forall|i: int, j: int| 0 <= i < j < rest.len() implies strictly_before(
            rest[i],
            rest[j],
        ) by {
            assert(strictly_before(es[i + 1], es[j + 1]));
        }
        assert forall|i: int| 0 <= i < rest.len() implies 0 <= (#[trigger] rest[i]).start
            <= rest[i].end <= content.len() by {
            assert(rest[i] == es[i + 1]);
        }
    }
    assert forall|m: int| 0 <= m < rest.len() implies e.end <= (#[trigger] rest[m]).start by {
        assert(strictly_before(es[0], es[m + 1]));
    }
    lemma_splice(content, rest, e.end, e.end);
    let whole = splice(content, es, from);
    let tail = splice(content, rest, e.end);
    let head = content.subrange(from, e.start) + e.text;
    assert(whole == head + tail);
    if k == 0 {
        assert(growth_before(es, 0) == 0);
        assert(whole.subrange(e.start - from, e.start - from + e.text.len()) =~= e.text);
    } else {
        lemma_splice_holds_texts(content, rest, e.end, k - 1);
        lemma_growth_before_shift(es, k);
        let inner = rest[k - 1].start - e.end + growth_before(rest, k - 1);
        let at = es[k].start - from + growth_before(es, k);
        assert(rest[k - 1] == es[k]);
        assert(at == head.len() + inner);
        assert(whole.subrange(at, at + es[k].text.len()) =~= tail.subrange(
            inner,
            inner + es[k].text.len(),
        ));
    }
}

/// What the edits before `k` add is what the first adds and what the
/// others before `k` add.
proof fn lemma_growth_before_shift(es: Seq<Edit>, k: int)
    requires
        0 < k <= es.len(),
    ensures
        growth_before(es, k) == growth(es[0]) + growth_before(es.drop_first(), k - 1),
    decreases k,
{
    let rest = es.drop_first();
    if k > 1 {
        lemma_growth_before_shift(es, k - 1);
        assert(rest[k - 2] == es[k - 1]);
        assert(growth_before(es, k) == growth_before(es, k - 1) + growth(es[k - 1]));
        assert(growth_before(rest, k - 1) == growth_before(rest, k - 2) + growth(rest[k - 2]));
    } else {
        assert(growth_before(es, 0) == 0);
        assert(growth_before(es, 1) == growth_before(es, 0) + growth(es[0]));
        assert(growth_before(rest, 0) == 0);
    }
}

/// The text of every accepted edit stands in the rewritten document, where
/// the edit starts, moved by what the edits before it add.
pub proof fn lemma_fixed_holds_the_texts(content: Seq<char>, issues: Seq<LintErrorView>, k: int)
    requires
        0 <= k < accepted(content, issues).len(),
    ensures
        ({
            let es = accepted(content, issues);
            let at = es[k].start + growth_before(es, k);
            &&& 0 <= at
            &&& at + es[k].text.len() <= fixed(content, issues).len()
            &&& fixed(content, issues).subrange(at, at + es[k].text.len()) == es[k].text
        }),
{
    lemma_accepted_well_placed(content, issues);
    lemma_splice_holds_texts(content, accepted(content, issues), 0, k);
}

} // verus!
