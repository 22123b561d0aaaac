//! The line structure of a document.
//!
//! A line begins at offset 0 and after every newline that is not the last
//! character of the text. Its terminator is a newline, with the carriage
//! return before it where there is one; the last line may have none.

use vstd::prelude::*;

verus! {

/// The offsets at which the lines of `s` begin, in increasing order.
pub open spec fn line_starts(s: Seq<char>) -> Seq<int>
    decreases s.len(),
{
    if s.len() == 0 {
        Seq::empty()
    } else {
        let before = line_starts(s.drop_last());
        let i = s.len() - 1;
        if i == 0 || s[i - 1] == '\n' {
            before.push(i)
        } else {
            before
        }
    }
}

/// The number of lines of `s`.
pub open spec fn line_count(s: Seq<char>) -> nat {
    line_starts(s).len()
}

/// The offset at which line `k` (counted from 0) begins; the length of the
/// text where there is no such line.
pub open spec fn line_begin(s: Seq<char>, k: int) -> int {
    if 0 <= k < line_count(s) {
        line_starts(s)[k]
    } else {
        s.len() as int
    }
}

/// The offset just behind line `k` and its terminator.
pub open spec fn line_end(s: Seq<char>, k: int) -> int {
    line_begin(s, k + 1)
}

/// The offset just behind the content of line `k`, before its terminator.
pub open spec fn line_content_end(s: Seq<char>, k: int) -> int {
    let b = line_begin(s, k);
    let e = line_end(s, k);
    if b < e && s[e - 1] == '\n' {
        if b < e - 1 && s[e - 2] == '\r' {
            e - 2
        } else {
            e - 1
        }
    } else {
        e
    }
}

/// The content of line `k`, without its terminator.
pub open spec fn line_text(s: Seq<char>, k: int) -> Seq<char> {
    s.subrange(line_begin(s, k), line_content_end(s, k))
}

/// Line `k` with its terminator.
pub open spec fn line_with_terminator(s: Seq<char>, k: int) -> Seq<char> {
    s.subrange(line_begin(s, k), line_end(s, k))
}

/// The lines of `s`, each with its terminator.
pub open spec fn lines_with_terminators(s: Seq<char>) -> Seq<Seq<char>> {
    Seq::new(line_count(s), |k: int| line_with_terminator(s, k))
}

/// The lines of `s`, each without its terminator.
pub open spec fn lines_of(s: Seq<char>) -> Seq<Seq<char>> {
    Seq::new(line_count(s), |k: int| line_text(s, k))
}

/// Line starts are offsets of the text, the first is 0, each later one
/// follows a newline, and they increase.
pub proof fn lemma_line_starts(s: Seq<char>)
    ensures
        forall|k: int| 0 <= k < line_count(s) ==> 0 <= #[trigger] line_starts(s)[k] < s.len(),
        forall|k: int|
            0 < k < line_count(s) ==> s[#[trigger] line_starts(s)[k] - 1] == '\n'
                && line_starts(s)[k - 1] < line_starts(s)[k],
        s.len() > 0 ==> line_count(s) > 0 && line_starts(s)[0] == 0,
        s.len() == 0 ==> line_count(s) == 0,
        line_count(s) <= s.len(),
    decreases s.len(),
{
    if s.len() > 0 {
        lemma_line_starts(s.drop_last());
    }
}

/// Line boundaries are ordered: a line begins no later than its content
/// ends, which is no later than the line ends, within the text.
pub proof fn lemma_line_bounds(s: Seq<char>, k: int)
    requires
        0 <= k,
    ensures
        0 <= line_begin(s, k) <= line_content_end(s, k) <= line_end(s, k) <= s.len(),
        k < line_count(s) ==> line_begin(s, k) < line_end(s, k),
{
    lemma_line_starts(s);
}

/// The offsets at which the lines of `s` begin.
pub fn index_lines(s: &[char]) -> (starts: Vec<usize>)
    ensures
        starts@.len() == line_count(s@),
        forall|k: int| 0 <= k < starts@.len() ==> starts@[k] as int == line_starts(s@)[k],
{
    let mut starts: Vec<usize> = Vec::new();
    let mut i: usize = 0;
    while i < s.len()
        invariant
            i <= s.len(),
            starts@.len() == line_count(s@.take(i as int)),
            forall|k: int|
                0 <= k < starts@.len() ==> starts@[k] as int == line_starts(s@.take(i as int))[k],
        decreases s.len() - i,
    {
        assert(s@.take(i + 1).drop_last() =~= s@.take(i as int));
        if i == 0 || s[i - 1] == '\n' {
            starts.push(i);
        }
        i += 1;
    }
    assert(s@.take(i as int) =~= s@);
    starts
}

/// Where line `k` begins, given the table of line starts.
pub(crate) fn begin_of(s: &[char], starts: &Vec<usize>, k: usize) -> (r: usize)
    requires
        starts@.len() == line_count(s@),
        forall|j: int| 0 <= j < starts@.len() ==> starts@[j] as int == line_starts(s@)[j],
    ensures
        r == line_begin(s@, k as int),
        r <= s.len(),
{
    proof {
        lemma_line_starts(s@);
    }
    if k < starts.len() {
        starts[k]
    } else {
        s.len()
    }
}

/// Where line `k` and its terminator end, given the table of line starts.
pub(crate) fn end_of(s: &[char], starts: &Vec<usize>, k: usize) -> (r: usize)
    requires
        starts@.len() == line_count(s@),
        forall|j: int| 0 <= j < starts@.len() ==> starts@[j] as int == line_starts(s@)[j],
    ensures
        r == line_end(s@, k as int),
        r <= s.len(),
{
    proof {
        lemma_line_starts(s@);
    }
    if k < starts.len() && k + 1 < starts.len() {
        starts[k + 1]
    } else {
        s.len()
    }
}

/// Where the content of line `k` ends, given the table of line starts.
pub(crate) fn content_end_of(s: &[char], starts: &Vec<usize>, k: usize) -> (r: usize)
    requires
        starts@.len() == line_count(s@),
        forall|j: int| 0 <= j < starts@.len() ==> starts@[j] as int == line_starts(s@)[j],
    ensures
        r == line_content_end(s@, k as int),
        line_begin(s@, k as int) <= r <= s.len(),
{
    proof {
        lemma_line_bounds(s@, k as int);
    }
    let b = begin_of(s, starts, k);
    let e = end_of(s, starts, k);
    if b < e && s[e - 1] == '\n' {
        if b < e - 1 && s[e - 2] == '\r' {
            e - 2
        } else {
            e - 1
        }
    } else {
        e
    }
}

/// The lines of a text, each with its terminator.
pub fn terminated_lines(content: &str) -> (r: Vec<String>)
    ensures
        crate::types::texts_view(r@) == lines_with_terminators(content@),
{
    let text = crate::text::chars_of(content);
    let starts = index_lines(text.as_slice());
    let mut r: Vec<String> = Vec::new();
    let mut k: usize = 0;
    while k < starts.len()
        invariant
            k <= starts@.len(),
            text@ == content@,
            starts@.len() == line_count(text@),
            forall|j: int| 0 <= j < starts@.len() ==> starts@[j] as int == line_starts(text@)[j],
            r@.len() == k,
            forall|j: int| 0 <= j < k ==> r@[j]@ == line_with_terminator(text@, j),
        decreases starts.len() - k,
    {
        proof {
            lemma_line_bounds(text@, k as int);
        }
        let b = begin_of(text.as_slice(), &starts, k);
        let e = end_of(text.as_slice(), &starts, k);
        let piece = crate::text::slice_of(text.as_slice(), b, e);
        r.push(crate::text::string_of(piece.as_slice()));
        k += 1;
    }
    assert(crate::types::texts_view(r@) =~= lines_with_terminators(content@));
    r
}

/// The lines of a text, each without its terminator.
pub fn content_lines(content: &str) -> (r: Vec<String>)
    ensures
        crate::types::texts_view(r@) == lines_of(content@),
{
    let text = crate::text::chars_of(content);
    let starts = index_lines(text.as_slice());
    let mut r: Vec<String> = Vec::new();
    let mut k: usize = 0;
    while k < starts.len()
        invariant
            k <= starts@.len(),
            text@ == content@,
            starts@.len() == line_count(text@),
            forall|j: int| 0 <= j < starts@.len() ==> starts@[j] as int == line_starts(text@)[j],
            r@.len() == k,
            forall|j: int| 0 <= j < k ==> r@[j]@ == line_text(text@, j),
        decreases starts.len() - k,
    {
        proof {
            lemma_line_bounds(text@, k as int);
        }
        let b = begin_of(text.as_slice(), &starts, k);
        let e = content_end_of(text.as_slice(), &starts, k);
        let piece = crate::text::slice_of(text.as_slice(), b, e);
        r.push(crate::text::string_of(piece.as_slice()));
        k += 1;
    }
    assert(crate::types::texts_view(r@) =~= lines_of(content@));
    r
}

} // verus!
