//! Quick fixes: the edit that a fix describes, and replacements suggested
//! for a link fragment that matches no heading.

use crate::lines::{begin_of, content_end_of, index_lines, line_count, line_text};
use crate::lsp::protocol::{
    CodeAction, CodeActionKind, CodeActionView, Diagnostic, Position, Range, TextEdit,
    TextEditView, WorkspaceEdit, WorkspaceEditView, actions_view, diagnostic_view,
};
use crate::lsp::utils::{clamp_u32, position_of, to_position, to_u32, zero_based};
use crate::lsp::diagnostics::{units_before, utf16_width};
use crate::text::{
    append, append_str, chars_of, find, is_first_occurrence, last_index_of, len_before,
    occurs_in, rfind, run_before, slice_of, string_of,
};
use crate::types::{FixInfo, FixInfoView, LintError, LintErrorView, texts_view};
use vstd::prelude::*;

verus! {

/// The edit that deletes line `line_number` (counted from 1) of a document
/// of `total_lines` lines: up to the start of the next line where there is
/// one, else up to the end of the line.
pub open spec fn delete_line_edit(line_number: int, total_lines: int) -> TextEditView {
    let idx = zero_based(line_number);
    let start = Position { line: clamp_u32(idx), character: 0 };
    let end = if line_number < total_lines {
        Position { line: clamp_u32(idx + 1), character: 0 }
    } else {
        Position { line: clamp_u32(idx), character: u32::MAX }
    };
    TextEditView { range: Range { start, end }, new_text: Seq::empty() }
}

/// The edit that deletes a whole line with its terminator.
pub fn create_delete_line_edit(line_number: usize, total_lines: usize) -> (r: TextEdit)
    ensures
        r@ == delete_line_edit(line_number as int, total_lines as int),
{
    let line_idx: usize = if line_number > 0 { line_number - 1 } else { 0 };
    let start = Position { line: to_u32(line_idx), character: 0 };
    let end = if line_number < total_lines {
        Position { line: to_u32(line_idx + 1), character: 0 }
    } else {
        Position { line: to_u32(line_idx), character: u32::MAX }
    };
    TextEdit { range: Range { start, end }, new_text: String::new() }
}

/// The 1-based line that a fix edits: its own where it names one, else the
/// issue's.
pub open spec fn target_line(error: LintErrorView, fix: FixInfoView) -> int {
    match fix.line_number {
        Some(n) => n as int,
        None => error.line_number as int,
    }
}

/// The text that a fix inserts.
pub open spec fn inserted_text(fix: FixInfoView) -> Seq<char> {
    match fix.insert_text {
        Some(t) => t,
        None => Seq::empty(),
    }
}

/// The number of characters that a fix deletes from its column on; 0 for a
/// fix that only inserts.
pub open spec fn deleted_count(fix: FixInfoView) -> int {
    match fix.delete_count {
        Some(n) => if n > 0 {
            n as int
        } else {
            0
        },
        None => 0,
    }
}

/// Whether a fix deletes its whole line.
pub open spec fn deletes_line(fix: FixInfoView) -> bool {
    fix.delete_count == Some(-1i32)
}

/// The edit that a fix describes in `content`. There is none where the
/// target line does not exist, or where the fix names no column and is not
/// a whole-line delete.
pub open spec fn text_edit_of(error: LintErrorView, fix: FixInfoView, content: Seq<char>) -> Option<
    TextEditView,
> {
    let target = target_line(error, fix);
    if zero_based(target) >= line_count(content) {
        None
    } else if deletes_line(fix) {
        Some(delete_line_edit(target, line_count(content) as int))
    } else {
        match fix.edit_column {
            None => None,
            Some(column) => {
                let start = position_of(target, column as int);
                let end = Position {
                    line: start.line,
                    character: clamp_u32(start.character + deleted_count(fix)),
                };
                Some(TextEditView { range: Range { start, end }, new_text: inserted_text(fix) })
            },
        }
    }
}

/// Computes the edit that a fix describes.
pub fn calculate_text_edit(error: &LintError, fix_info: &FixInfo, content: &str) -> (r: Option<
    TextEdit,
>)
    ensures
        match r {
            Some(e) => text_edit_of(error@, fix_info@, content@) == Some(e@),
            None => text_edit_of(error@, fix_info@, content@) is None,
        },
{
    let text = chars_of(content);
    let starts = index_lines(text.as_slice());
    let target_line: usize = match fix_info.line_number {
        Some(n) => n,
        None => error.line_number,
    };
    let line_idx: usize = if target_line > 0 { target_line - 1 } else { 0 };
    if line_idx >= starts.len() {
        return None;
    }
    if fix_info.delete_count == Some(-1i32) {
        return Some(create_delete_line_edit(target_line, starts.len()));
    }
    let edit_col: usize = match fix_info.edit_column {
        Some(c) => c,
        None => { return None; },
    };
    let start = to_position(target_line, edit_col);
    let end = match fix_info.delete_count {
        Some(n) => {
            if n > 0 {
                Position { line: start.line, character: start.character.saturating_add(n as u32) }
            } else {
                start
            }
        },
        None => start,
    };
    let new_text = match &fix_info.insert_text {
        Some(t) => t.clone(),
        None => String::new(),
    };
    Some(TextEdit { range: Range { start, end }, new_text })
}

/// The name by which an issue's rule is known: the first of its names.
pub open spec fn primary_name(error: LintErrorView) -> Seq<char> {
    if error.rule_names.len() > 0 {
        error.rule_names[0]
    } else {
        "unknown"@
    }
}

/// The title of the action that applies an issue's fix.
pub open spec fn fix_title(error: LintErrorView) -> Seq<char> {
    "Fix: "@ + error.rule_description + " ("@ + primary_name(error) + ")"@
}

/// The quick fix for an issue: none where the issue has no fix or the fix
/// describes no edit.
pub open spec fn fix_action(
    uri: Seq<char>,
    error: LintErrorView,
    content: Seq<char>,
    diagnostic: Option<Diagnostic>,
) -> Option<CodeActionView> {
    match error.fix_info {
        None => None,
        Some(fix) => match text_edit_of(error, fix, content) {
            None => None,
            Some(edit) => Some(
                CodeActionView {
                    title: fix_title(error),
                    kind: CodeActionKind::QuickFix,
                    edit: Some(WorkspaceEditView { uri, edits: seq![edit] }),
                    command: None,
                    diagnostic: diagnostic_view(diagnostic),
                },
            ),
        },
    }
}

/// Turns an issue's fix into a quick fix for the document `uri`. The action
/// refers to `diagnostic` where one is given.
pub fn fix_to_code_action(
    uri: &str,
    error: &LintError,
    content: &str,
    diagnostic: Option<Diagnostic>,
) -> (r: Option<CodeAction>)
    ensures
        match r {
            Some(a) => fix_action(uri@, error@, content@, diagnostic) == Some(a@),
            None => fix_action(uri@, error@, content@, diagnostic) is None,
        },
{
    let fix_info = match &error.fix_info {
        Some(f) => f,
        None => { return None; },
    };
    let text_edit = match calculate_text_edit(error, fix_info, content) {
        Some(e) => e,
        None => { return None; },
    };
    let mut title: Vec<char> = Vec::new();
    append_str(&mut title, "Fix: ");
    append_str(&mut title, error.rule_description.as_str());
    append_str(&mut title, " (");
    if error.rule_names.len() > 0 {
        append_str(&mut title, error.rule_names[0].as_str());
    } else {
        append_str(&mut title, "unknown");
    }
    append_str(&mut title, ")");
    let mut edits: Vec<TextEdit> = Vec::new();
    let ghost edit_view = text_edit@;
    edits.push(text_edit);
    let edit = WorkspaceEdit { uri: string_of(chars_of(uri).as_slice()), edits };
    assert(edit@.edits =~= seq![edit_view]);
    Some(
        CodeAction {
            title: string_of(title.as_slice()),
            kind: CodeActionKind::QuickFix,
            edit: Some(edit),
            command: None,
            diagnostic,
        },
    )
}

/// The smallest of three numbers.
pub open spec fn min3(a: nat, b: nat, c: nat) -> nat {
    if a <= b && a <= c {
        a
    } else if b <= c {
        b
    } else {
        c
    }
}

/// The edit distance of two texts: the least number of single-character
/// insertions, deletions and substitutions that turn `a` into `b`.
pub open spec fn levenshtein(a: Seq<char>, b: Seq<char>) -> nat
    decreases a.len() + b.len(),
{
    if a.len() == 0 {
        b.len()
    } else if b.len() == 0 {
        a.len()
    } else {
        let cost: nat = if a.last() == b.last() {
            0
        } else {
            1
        };
        min3(
            levenshtein(a.drop_last(), b) + 1,
            levenshtein(a, b.drop_last()) + 1,
            levenshtein(a.drop_last(), b.drop_last()) + cost,
        )
    }
}

/// The distance is at most the length of the longer text.
pub proof fn lemma_levenshtein_bound(a: Seq<char>, b: Seq<char>)
    ensures
        levenshtein(a, b) <= if a.len() >= b.len() {
            a.len()
        } else {
            b.len()
        },
    decreases a.len() + b.len(),
{
    if a.len() > 0 && b.len() > 0 {
        lemma_levenshtein_bound(a.drop_last(), b.drop_last());
    }
}

/// A text is at distance 0 from itself.
pub proof fn lemma_levenshtein_same(a: Seq<char>)
    ensures
        levenshtein(a, a) == 0,
    decreases a.len(),
{
    if a.len() > 0 {
        lemma_levenshtein_same(a.drop_last());
    }
}

/// The distance does not depend on the direction.
pub proof fn lemma_levenshtein_symmetric(a: Seq<char>, b: Seq<char>)
    ensures
        levenshtein(a, b) == levenshtein(b, a),
    decreases a.len() + b.len(),
{
    if a.len() > 0 && b.len() > 0 {
        lemma_levenshtein_symmetric(a.drop_last(), b);
        lemma_levenshtein_symmetric(a, b.drop_last());
        lemma_levenshtein_symmetric(a.drop_last(), b.drop_last());
    }
}

/// The distance is at least the difference of the lengths.
pub proof fn lemma_levenshtein_lower_bound(a: Seq<char>, b: Seq<char>)
    ensures
        levenshtein(a, b) >= a.len() - b.len(),
        levenshtein(a, b) >= b.len() - a.len(),
    decreases a.len() + b.len(),
{
    if a.len() > 0 && b.len() > 0 {
        lemma_levenshtein_lower_bound(a.drop_last(), b);
        lemma_levenshtein_lower_bound(a, b.drop_last());
        lemma_levenshtein_lower_bound(a.drop_last(), b.drop_last());
    }
}

/// Going by way of a third text is no shorter: the distance from `a` to
/// `c` is at most the distance from `a` to `b` and that from `b` to `c`.
pub proof fn lemma_levenshtein_triangle(a: Seq<char>, b: Seq<char>, c: Seq<char>)
    ensures
        levenshtein(a, c) <= levenshtein(a, b) + levenshtein(b, c),
    decreases a.len() + b.len() + c.len(),
{
    if a.len() == 0 {
        lemma_levenshtein_lower_bound(b, c);
    } else if c.len() == 0 {
        lemma_levenshtein_lower_bound(a, b);
    } else if b.len() == 0 {
        lemma_levenshtein_bound(a, c);
    } else {
        lemma_levenshtein_triangle(a.drop_last(), b, c);
        lemma_levenshtein_triangle(a, b, c.drop_last());
        lemma_levenshtein_triangle(a, b.drop_last(), c);
        lemma_levenshtein_triangle(a, b.drop_last(), c.drop_last());
        lemma_levenshtein_triangle(a.drop_last(), b.drop_last(), c);
        lemma_levenshtein_triangle(a.drop_last(), b.drop_last(), c.drop_last());
    }
}

/// Only a text itself is at distance 0 from it.
pub proof fn lemma_levenshtein_zero(a: Seq<char>, b: Seq<char>)
    requires
        levenshtein(a, b) == 0,
    ensures
        a == b,
    decreases a.len() + b.len(),
{
    if a.len() == 0 || b.len() == 0 {
        assert(a =~= b);
    } else {
        lemma_levenshtein_zero(a.drop_last(), b.drop_last());
        assert(a =~= a.drop_last().push(a.last()));
        assert(b =~= b.drop_last().push(b.last()));
    }
}

/// The edit distance of two character sequences.
pub fn distance(a: &[char], b: &[char]) -> (r: usize)
    ensures
        r == levenshtein(a@, b@),
{
    let mut prev: Vec<usize> = Vec::new();
    prev.push(0);
    let mut j: usize = 0;
    assert(a@.take(0).len() == 0);
    while j < b.len()
        invariant
            j <= b.len(),
            prev@.len() == j + 1,
            forall|k: int| 0 <= k <= j ==> prev@[k] == k,
        decreases b.len() - j,
    {
        j += 1;
        prev.push(j);
    }
    assert forall|k: int| 0 <= k <= b.len() implies prev@[k] == levenshtein(
        a@.take(0),
        b@.take(k),
    ) by {
        assert(a@.take(0).len() == 0);
    }
    let mut i: usize = 0;
    while i < a.len()
        invariant
            i <= a.len(),
            prev@.len() == b.len() + 1,
            forall|k: int|
                0 <= k <= b.len() ==> prev@[k] == levenshtein(a@.take(i as int), b@.take(k)),
        decreases a.len() - i,
    {
        let ghost row = a@.take(i + 1);
        assert(row.drop_last() =~= a@.take(i as int));
        assert(row.last() == a@[i as int]);
        let mut curr: Vec<usize> = Vec::new();
        curr.push(i + 1);
        assert(b@.take(0).len() == 0);
        let mut j: usize = 0;
        while j < b.len()
            invariant
                i < a.len(),
                j <= b.len(),
                row == a@.take(i + 1),
                row.drop_last() == a@.take(i as int),
                row.last() == a@[i as int],
                prev@.len() == b.len() + 1,
                curr@.len() == j + 1,
                forall|k: int|
                    0 <= k <= b.len() ==> prev@[k] == levenshtein(a@.take(i as int), b@.take(k)),
                forall|k: int| 0 <= k <= j ==> curr@[k] == levenshtein(row, b@.take(k)),
            decreases b.len() - j,
        {
            let ghost col = b@.take(j + 1);
            assert(col.drop_last() =~= b@.take(j as int));
            assert(col.last() == b@[j as int]);
            proof {
                lemma_levenshtein_bound(a@.take(i as int), b@.take(j as int));
            }
            let cost: usize = if a[i] == b[j] { 0 } else { 1 };
            let mut best: usize = prev[j] + cost;
            if prev[j + 1] < best {
                best = prev[j + 1] + 1;
            }
            if curr[j] < best {
                best = curr[j] + 1;
            }
            assert(best == levenshtein(row, col));
            curr.push(best);
            j += 1;
        }
        prev = curr;
        i += 1;
    }
    assert(a@.take(i as int) =~= a@);
    assert(b@.take(b@.len() as int) =~= b@);
    prev[b.len()]
}

/// The edit distance of two texts, counted in characters.
pub fn edit_distance(a: &str, b: &str) -> (r: usize)
    ensures
        r == levenshtein(a@, b@),
{
    let x = chars_of(a);
    let y = chars_of(b);
    distance(x.as_slice(), y.as_slice())
}

/// The fragment that an issue's context names: what stands behind the last
/// `#`, up to the next closing bracket or, without one, up to the end.
pub open spec fn fragment_of(context: Seq<char>) -> Option<Seq<char>> {
    match last_index_of(context, '#') {
        Some(at) => {
            let after = context.skip(at + 1);
            Some(after.take(run_before(after, ')') as int))
        },
        None => None,
    }
}

/// The place of the fragment that an issue complains of: the line, counted
/// from 0, and the columns at which the fragment starts and ends there,
/// counted in UTF-16 code units as the editor counts. What is looked for
/// in the line is `#` with the fragment behind it, and its first occurrence
/// counts. There is no place where the issue has no context, the context names no fragment, the
/// issue's line does not exist, or `#` and the fragment do not stand in it.
pub open spec fn fragment_span(error: LintErrorView, content: Seq<char>) -> Option<(int, int, int)> {
    match error.error_context {
        None => None,
        Some(context) => match fragment_of(context) {
            None => None,
            Some(fragment) => {
                let idx = zero_based(error.line_number as int);
                let line = line_text(content, idx);
                let pattern = seq!['#'] + fragment;
                if fragment.len() == 0 || idx >= line_count(content) || !occurs_in(line, pattern) {
                    None
                } else {
                    let at = choose|at: int| is_first_occurrence(line, pattern, Some(at));
                    let start = utf16_width(line.take(at)) + 1;
                    Some((idx, start as int, (start + utf16_width(fragment)) as int))
                }
            },
        },
    }
}

/// The distance of `fragment` to each of the candidates.
pub open spec fn distances_to(fragment: Seq<char>, candidates: Seq<Seq<char>>) -> Seq<nat> {
    Seq::new(candidates.len(), |i: int| levenshtein(fragment, candidates[i]))
}

/// Whether candidate `i` ranks before candidate `j`: it is nearer, or as
/// near and earlier in the list.
pub open spec fn ranks_before(d: Seq<nat>, i: int, j: int) -> bool {
    d[i] < d[j] || (d[i] == d[j] && i < j)
}

/// Whether `order` lists the `limit` best-ranked candidates, best first.
pub open spec fn is_top_ranking(d: Seq<nat>, order: Seq<int>, limit: nat) -> bool {
    &&& order.len() == if limit <= d.len() {
        limit
    } else {
        d.len()
    }
    &&& forall|r: int| 0 <= r < order.len() ==> 0 <= #[trigger] order[r] < d.len()
    &&& forall|r: int, t: int| 0 <= r < t < order.len() ==> ranks_before(d, order[r], order[t])
    &&& forall|r: int, m: int|
        0 <= r < order.len() && 0 <= m < d.len() && !order.contains(m) ==> ranks_before(
            d,
            order[r],
            m,
        )
}

/// The `limit` best-ranked candidates, best first.
pub open spec fn top_ranking(d: Seq<nat>, limit: nat) -> Seq<int> {
    choose|order: Seq<int>| is_top_ranking(d, order, limit)
}

/// The place of candidate `i` in an order of the candidates before it:
/// behind those that are as near or nearer.
spec fn place_of(d: Seq<nat>, order: Seq<int>, i: int) -> int
    decreases order.len(),
{
    if order.len() == 0 {
        0
    } else if d[order.last()] <= d[i] {
        order.len() as int
    } else {
        place_of(d, order.drop_last(), i)
    }
}

/// The first `n` candidates, best first.
spec fn ranked(d: Seq<nat>, n: int) -> Seq<int>
    decreases n,
{
    if n <= 0 {
        Seq::empty()
    } else {
        let before = ranked(d, n - 1);
        before.insert(place_of(d, before, n - 1), n - 1)
    }
}

/// Whether `order` lists candidates best first.
spec fn is_ranked(d: Seq<nat>, order: Seq<int>) -> bool {
    forall|r: int, t: int| 0 <= r < t < order.len() ==> ranks_before(d, order[r], order[t])
}

/// In an order that lists candidates best first, the place of a candidate
/// lies behind those that are as near or nearer and before the others.
proof fn lemma_place_of(d: Seq<nat>, order: Seq<int>, i: int)
    requires
        is_ranked(d, order),
    ensures
        0 <= place_of(d, order, i) <= order.len(),
        forall|r: int| 0 <= r < place_of(d, order, i) ==> d[#[trigger] order[r]] <= d[i],
        forall|r: int| place_of(d, order, i) <= r < order.len() ==> d[#[trigger] order[r]] > d[i],
    decreases order.len(),
{
    if order.len() == 0 {
    } else if d[order.last()] <= d[i] {
        assert forall|r: int| 0 <= r < order.len() implies d[#[trigger] order[r]] <= d[i] by {
            if r < order.len() - 1 {
                assert(ranks_before(d, order[r], order[order.len() - 1]));
            }
        }
    } else {
        let rest = order.drop_last();
        assert(is_ranked(d, rest)) by {
            assert forall|r: int, t: int| 0 <= r < t < rest.len() implies ranks_before(
                d,
                rest[r],
                rest[t],
            ) by {
                assert(ranks_before(d, order[r], order[t]));
            }
        }
        lemma_place_of(d, rest, i);
        assert forall|r: int| 0 <= r < place_of(d, order, i) implies d[#[trigger] order[r]]
            <= d[i] by {
            assert(rest[r] == order[r]);
        }
        assert forall|r: int| place_of(d, order, i) <= r < order.len() implies d[#[trigger] order[r]]
            > d[i] by {
            if r < order.len() - 1 {
                assert(rest[r] == order[r]);
            }
        }
    }
}

/// The first `n` candidates, best first, are those candidates, each once.
proof fn lemma_ranked(d: Seq<nat>, n: int)
    requires
        0 <= n <= d.len(),
    ensures
        ranked(d, n).len() == n,
        is_ranked(d, ranked(d, n)),
        forall|r: int| 0 <= r < n ==> 0 <= #[trigger] ranked(d, n)[r] < n,
        forall|m: int| 0 <= m < n ==> ranked(d, n).contains(m),
    decreases n,
{
    if n > 0 {
        let i = n - 1;
        let before = ranked(d, i);
        lemma_ranked(d, i);
        lemma_place_of(d, before, i);
        let p = place_of(d, before, i);
        let after = before.insert(p, i);
        assert(after == ranked(d, n));
        assert forall|r: int, t: int| 0 <= r < t < after.len() implies ranks_before(
            d,
            after[r],
            after[t],
        ) by {
            if t < p {
                assert(ranks_before(d, before[r], before[t]));
            } else if t == p {
                assert(after[r] == before[r]);
            } else if r < p {
                assert(after[t] == before[t - 1]);
                if r < t - 1 {
                    assert(ranks_before(d, before[r], before[t - 1]));
                }
            } else if r == p {
                assert(after[t] == before[t - 1]);
            } else {
                assert(after[r] == before[r - 1]);
                assert(after[t] == before[t - 1]);
                assert(ranks_before(d, before[r - 1], before[t - 1]));
            }
        }
        assert forall|r: int| 0 <= r < n implies 0 <= #[trigger] after[r] < n by {
            if r < p {
                assert(after[r] == before[r]);
            } else if r > p {
                assert(after[r] == before[r - 1]);
            }
        }
        assert forall|m: int| 0 <= m < n implies after.contains(m) by {
            if m == i {
                assert(after[p] == m);
            } else {
                assert(before.contains(m));
                let r = choose|r: int| 0 <= r < before.len() && before[r] == m;
                if r < p {
                    assert(after[r] == m);
                } else {
                    assert(after[r + 1] == m);
                }
            }
        }
    }
}

/// There is a ranking, whatever the distances and the limit: `top_ranking`
/// is one.
pub proof fn lemma_ranking_exists(d: Seq<nat>, limit: nat)
    ensures
        is_top_ranking(d, top_ranking(d, limit), limit),
{
    let n = d.len() as int;
    let full = ranked(d, n);
    lemma_ranked(d, n);
    let k: int = if limit <= d.len() {
        limit as int
    } else {
        n
    };
    let order = full.take(k);
    assert forall|r: int, t: int| 0 <= r < t < order.len() implies ranks_before(
        d,
        order[r],
        order[t],
    ) by {
        assert(ranks_before(d, full[r], full[t]));
    }
    assert forall|r: int, m: int|
        0 <= r < order.len() && 0 <= m < d.len() && !order.contains(m) implies ranks_before(
        d,
        order[r],
        m,
    ) by {
        assert(full.contains(m));
        let t = choose|t: int| 0 <= t < full.len() && full[t] == m;
        if t < k {
            assert(order[t] == m);
        }
        assert(ranks_before(d, full[r], full[t]));
    }
    assert(is_top_ranking(d, order, limit));
}

/// There is only one ranking.
pub proof fn lemma_ranking_unique(d: Seq<nat>, a: Seq<int>, b: Seq<int>, limit: nat)
    requires
        is_top_ranking(d, a, limit),
        is_top_ranking(d, b, limit),
    ensures
        a == b,
{
    assert forall|r: int| 0 <= r < a.len() implies a[r] == b[r] by {
        lemma_ranking_agree(d, a, b, limit, r);
    }
    assert(a =~= b);
}

/// Two rankings of the same candidates agree at every place.
proof fn lemma_ranking_agree(d: Seq<nat>, a: Seq<int>, b: Seq<int>, limit: nat, r: int)
    requires
        is_top_ranking(d, a, limit),
        is_top_ranking(d, b, limit),
        0 <= r < a.len(),
    ensures
        a[r] == b[r],
    decreases r,
{
    if r > 0 {
        lemma_ranking_agree(d, a, b, limit, r - 1);
    }
    assert forall|t: int| 0 <= t < r implies a[t] == b[t] by {
        lemma_ranking_agree(d, a, b, limit, t);
    }
    if a[r] != b[r] {
        lemma_ranking_misses(d, a, b, limit, r);
        lemma_ranking_misses(d, b, a, limit, r);
    }
}

/// Where two rankings agree before `r` and differ at `r`, the entry of the
/// second ranks before that of the first.
proof fn lemma_ranking_misses(d: Seq<nat>, a: Seq<int>, b: Seq<int>, limit: nat, r: int)
    requires
        is_top_ranking(d, a, limit),
        is_top_ranking(d, b, limit),
        0 <= r < a.len(),
        forall|t: int| 0 <= t < r ==> a[t] == b[t],
        a[r] != b[r],
    ensures
        ranks_before(d, b[r], a[r]),
{
    let x = a[r];
    if b.contains(x) {
        let t = choose|t: int| 0 <= t < b.len() && b[t] == x;
        if t < r {
            assert(a[t] == b[t]);
            assert(ranks_before(d, a[t], a[r]));
        } else {
            assert(t > r);
            assert(ranks_before(d, b[r], b[t]));
        }
    } else {
        assert(ranks_before(d, b[r], x));
    }
}

/// The first of a ranking is a nearest candidate: no candidate is nearer.
pub proof fn lemma_first_is_nearest(d: Seq<nat>, order: Seq<int>, limit: nat, m: int)
    requires
        is_top_ranking(d, order, limit),
        order.len() > 0,
        0 <= m < d.len(),
    ensures
        d[order[0]] <= d[m],
{
    if order.contains(m) {
        let t = choose|t: int| 0 <= t < order.len() && order[t] == m;
        if t > 0 {
            assert(ranks_before(d, order[0], order[t]));
        }
    } else {
        assert(ranks_before(d, order[0], m));
    }
}

/// The action that replaces the fragment at `span` by `heading`.
pub open spec fn suggestion_action(
    uri: Seq<char>,
    span: (int, int, int),
    heading: Seq<char>,
    diagnostic: Option<Diagnostic>,
) -> CodeActionView {
    let line = clamp_u32(span.0);
    CodeActionView {
        title: "MD051: Replace with #"@ + heading,
        kind: CodeActionKind::QuickFix,
        edit: Some(
            WorkspaceEditView {
                uri,
                edits: seq![
                    TextEditView {
                        range: Range {
                            start: Position { line, character: clamp_u32(span.1) },
                            end: Position { line, character: clamp_u32(span.2) },
                        },
                        new_text: heading,
                    },
                ],
            },
        ),
        command: None,
        diagnostic: diagnostic_view(diagnostic),
    }
}

/// The suggestions for an issue: none where the fragment has no place or
/// there is no candidate; else one action for each of the `limit` nearest
/// candidates, nearest first, ties in the order of the list.
pub open spec fn suggestions(
    uri: Seq<char>,
    error: LintErrorView,
    content: Seq<char>,
    candidates: Seq<Seq<char>>,
    diagnostic: Option<Diagnostic>,
    limit: nat,
) -> Seq<CodeActionView> {
    match fragment_span(error, content) {
        None => Seq::empty(),
        Some(span) => {
            let fragment = fragment_of(error.error_context->0)->0;
            let order = top_ranking(distances_to(fragment, candidates), limit);
            Seq::new(
                order.len(),
                |r: int| suggestion_action(uri, span, candidates[order[r]], diagnostic),
            )
        },
    }
}

/// Whether `m` is one of the entries of `order`.
pub open spec fn lists(order: Seq<usize>, m: int) -> bool {
    exists|r: int| 0 <= r < order.len() && order[r] == m
}

/// The candidates' indices, the `limit` nearest to `fragment`, nearest
/// first; candidates equally near keep the order of the list.
pub fn rank_candidates(fragment: &[char], candidates: &Vec<String>, limit: usize) -> (r: Vec<usize>)
    ensures
        r@.map_values(|i: usize| i as int) == top_ranking(
            distances_to(fragment@, texts_view(candidates@)),
            limit as nat,
        ),
        forall|k: int| 0 <= k < r@.len() ==> r@[k] < candidates@.len(),
{
    let ghost d = distances_to(fragment@, texts_view(candidates@));
    let mut dist: Vec<usize> = Vec::new();
    let mut order: Vec<usize> = Vec::new();
    let mut i: usize = 0;
    while i < candidates.len()
        invariant
            i <= candidates.len(),
            d == distances_to(fragment@, texts_view(candidates@)),
            dist@.len() == i,
            forall|k: int| 0 <= k < i ==> dist@[k] as nat == d[k],
            order@.len() == i,
            forall|r: int| 0 <= r < i ==> #[trigger] order@[r] < i,
            forall|r: int, t: int|
                0 <= r < t < i ==> ranks_before(d, order@[r] as int, order@[t] as int),
            forall|m: int| 0 <= m < i ==> #[trigger] lists(order@, m),
        decreases candidates.len() - i,
    {
        let c = chars_of(candidates[i].as_str());
        let di = distance(fragment, c.as_slice());
        dist.push(di);
        let mut p: usize = 0;
        while p < order.len() && dist[order[p]] <= di
            invariant
                p <= order@.len(),
                order@.len() == i,
                dist@.len() == i + 1,
                i < candidates.len(),
                d.len() == candidates.len(),
                di as nat == d[i as int],
                forall|k: int| 0 <= k <= i ==> dist@[k] as nat == d[k],
                forall|r: int| 0 <= r < i ==> #[trigger] order@[r] < i,
                forall|r: int| 0 <= r < p ==> d[order@[r] as int] <= d[i as int],
            decreases order@.len() - p,
        {
            p += 1;
        }
        let ghost old_order = order@;
        order.insert(p, i);
        proof {
            assert forall|r: int, t: int| 0 <= r < t < i + 1 implies ranks_before(
                d,
                order@[r] as int,
                order@[t] as int,
            ) by {
                if t < p {
                } else if t == p {
                    assert(order@[r] == old_order[r]);
                } else if r < p {
                    assert(order@[t] == old_order[t - 1]);
                    if p < i && r < p {
                        assert(ranks_before(d, old_order[r] as int, old_order[t - 1] as int));
                    }
                } else if r == p {
                    assert(order@[t] == old_order[t - 1]);
                    assert(ranks_before(d, old_order[p as int] as int, old_order[t - 1] as int)
                        || p == t - 1);
                } else {
                    assert(order@[r] == old_order[r - 1]);
                    assert(order@[t] == old_order[t - 1]);
                }
            }
            assert forall|m: int| 0 <= m < i + 1 implies #[trigger] lists(order@, m) by {
                if m == i {
                    assert(order@[p as int] == m);
                } else {
                    assert(lists(old_order, m));
                    let r0 = choose|r: int| 0 <= r < old_order.len() && old_order[r] == m;
                    if r0 < p {
                        assert(order@[r0] == m);
                    } else {
                        assert(order@[r0 + 1] == m);
                    }
                }
            }
        }
        i += 1;
    }
    let keep: usize = if limit <= order.len() { limit } else { order.len() };
    let ghost full = order@;
    order.truncate(keep);
    proof {
        let got = order@.map_values(|i: usize| i as int);
        assert forall|r: int, m: int|
            0 <= r < got.len() && 0 <= m < d.len() && !got.contains(m) implies ranks_before(
            d,
            got[r],
            m,
        ) by {
            assert(lists(full, m));
            let t = choose|t: int| 0 <= t < full.len() && full[t] == m;
            if t < keep {
                assert(got[t] == m);
            }
        }
        assert(is_top_ranking(d, got, limit as nat));
        lemma_ranking_unique(d, got, top_ranking(d, limit as nat), limit as nat);
    }
    order
}

/// A copy of an optional diagnostic.
pub fn clone_diagnostic(d: &Option<Diagnostic>) -> (r: Option<Diagnostic>)
    ensures
        diagnostic_view(r) == diagnostic_view(*d),
{
    match d {
        Some(x) => Some(x.clone()),
        None => None,
    }
}

/// The leftmost occurrence is one offset only.
pub proof fn lemma_first_occurrence_unique(s: Seq<char>, pat: Seq<char>, a: int, b: int)
    requires
        is_first_occurrence(s, pat, Some(a)),
        is_first_occurrence(s, pat, Some(b)),
    ensures
        a == b,
{
}

/// Builds quick fixes for a link whose fragment matches no heading: reads
/// the fragment from the issue's context, finds it in the issue's line, and
/// offers the `max_suggestions` nearest of `available_headings` in its
/// place.
pub fn md051_code_actions(
    uri: &str,
    error: &LintError,
    content: &str,
    available_headings: &Vec<String>,
    diagnostic: Option<Diagnostic>,
    max_suggestions: usize,
) -> (r: Vec<CodeAction>)
    ensures
        actions_view(r@) == suggestions(
            uri@,
            error@,
            content@,
            texts_view(available_headings@),
            diagnostic,
            max_suggestions as nat,
        ),
{
    let mut actions: Vec<CodeAction> = Vec::new();
    let ghost goal = suggestions(
        uri@,
        error@,
        content@,
        texts_view(available_headings@),
        diagnostic,
        max_suggestions as nat,
    );
    let context = match &error.error_context {
        Some(c) => chars_of(c.as_str()),
        None => {
            assert(actions_view(actions@) =~= goal);
            return actions;
        },
    };
    let hash = match rfind(context.as_slice(), '#') {
        Some(at) => at,
        None => {
            assert(actions_view(actions@) =~= goal);
            return actions;
        },
    };
    let after = slice_of(context.as_slice(), hash + 1, context.len());
    assert(after@ =~= context@.skip(hash + 1));
    let fragment_len = len_before(after.as_slice(), ')');
    let fragment = slice_of(after.as_slice(), 0, fragment_len);
    assert(fragment@ =~= after@.take(fragment_len as int));
    assert(fragment_of(context@) == Some(fragment@));
    let text = chars_of(content);
    let starts = index_lines(text.as_slice());
    let idx: usize = if error.line_number > 0 { error.line_number - 1 } else { 0 };
    if fragment_len == 0 || idx >= starts.len() {
        assert(actions_view(actions@) =~= goal);
        return actions;
    }
    let begin = begin_of(text.as_slice(), &starts, idx);
    let end = content_end_of(text.as_slice(), &starts, idx);
    let line = slice_of(text.as_slice(), begin, end);
    let mut pattern: Vec<char> = Vec::new();
    pattern.push('#');
    append(&mut pattern, fragment.as_slice());
    assert(pattern@ =~= seq!['#'] + fragment@);
    let at = match find(line.as_slice(), pattern.as_slice()) {
        Some(at) => at,
        None => {
            assert(actions_view(actions@) =~= goal);
            return actions;
        },
    };
    proof {
        assert(occurs_in(line@, pattern@));
        let chosen = choose|c: int| is_first_occurrence(line@, pattern@, Some(c));
        lemma_first_occurrence_unique(line@, pattern@, at as int, chosen);
    }
    let start_col = units_before(line.as_slice(), at).saturating_add(1);
    assert(fragment@.take(fragment@.len() as int) =~= fragment@);
    let end_col = start_col.saturating_add(units_before(fragment.as_slice(), fragment.len()));
    let ghost span = fragment_span(error@, content@)->0;
    assert(fragment_span(error@, content@) is Some);
    assert(span.0 == idx);
    assert(clamp_u32(span.1) == clamp_u32(start_col as int));
    assert(clamp_u32(span.2) == clamp_u32(end_col as int));
    let order = rank_candidates(fragment.as_slice(), available_headings, max_suggestions);
    let ghost ranking = top_ranking(
        distances_to(fragment@, texts_view(available_headings@)),
        max_suggestions as nat,
    );
    let line_no = to_u32(idx);
    let mut k: usize = 0;
    while k < order.len()
        invariant
            k <= order.len(),
            actions@.len() == k,
            order@.map_values(|i: usize| i as int) == ranking,
            forall|j: int| 0 <= j < order@.len() ==> order@[j] < available_headings@.len(),
            line_no == clamp_u32(span.0),
            clamp_u32(span.1) == clamp_u32(start_col as int),
            clamp_u32(span.2) == clamp_u32(end_col as int),
            forall|j: int|
                0 <= j < k ==> actions@[j]@ == suggestion_action(
                    uri@,
                    span,
                    available_headings@[ranking[j]]@,
                    diagnostic,
                ),
        decreases order.len() - k,
    {
        let heading = &available_headings[order[k]];
        assert(ranking[k as int] == order@[k as int] as int);
        let mut title: Vec<char> = Vec::new();
        append_str(&mut title, "MD051: Replace with #");
        append_str(&mut title, heading.as_str());
        let text_edit = TextEdit {
            range: Range {
                start: Position { line: line_no, character: to_u32(start_col) },
                end: Position { line: line_no, character: to_u32(end_col) },
            },
            new_text: heading.clone(),
        };
        let ghost edit_view = text_edit@;
        let mut edits: Vec<TextEdit> = Vec::new();
        edits.push(text_edit);
        let edit = WorkspaceEdit { uri: string_of(chars_of(uri).as_slice()), edits };
        assert(edit@.edits =~= seq![edit_view]);
        actions.push(
            CodeAction {
                title: string_of(title.as_slice()),
                kind: CodeActionKind::QuickFix,
                edit: Some(edit),
                command: None,
                diagnostic: clone_diagnostic(&diagnostic),
            },
        );
        k += 1;
    }
    assert(actions_view(actions@) =~= goal);
    actions
}

} // verus!
