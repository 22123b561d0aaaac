//! Small helpers on text.

use crate::text::{
    chars_of, contains, joined, matches_at, occurs_at, occurs_in, slice_of, starts_with,
    string_of, trim_end_len, trimmed_end_len,
};
use crate::unicode::{alphanumeric, is_alphanumeric, lowercase, to_lowercase};
use vstd::prelude::*;

verus! {

/// The two characters that end a line on Windows.
pub open spec fn crlf() -> Seq<char> {
    seq!['\r', '\n']
}

/// The character that ends a line elsewhere.
pub open spec fn lf() -> Seq<char> {
    seq!['\n']
}

/// Whether `s` is a web address: whether it begins with `http://` or
/// `https://`.
pub fn is_url(s: &str) -> (r: bool)
    ensures
        r == (occurs_at(s@, "http://"@, 0) || occurs_at(s@, "https://"@, 0)),
{
    let t = chars_of(s);
    let http = chars_of("http://");
    let https = chars_of("https://");
    starts_with(t.as_slice(), http.as_slice()) || starts_with(t.as_slice(), https.as_slice())
}

/// Whether `s` holds no character.
pub fn is_empty_string(s: &str) -> (r: bool)
    ensures
        r == (s@.len() == 0),
{
    s.is_empty()
}

/// The line ending a text uses: `"\r\n"` where that pair occurs in it, else
/// `"\n"`.
pub fn detect_line_ending(content: &str) -> (r: &'static str)
    ensures
        r@ == if occurs_in(content@, crlf()) {
            crlf()
        } else {
            lf()
        },
{
    let t = chars_of(content);
    let pair: Vec<char> = vec!['\r', '\n'];
    assert(pair@ =~= crlf());
    if contains(t.as_slice(), pair.as_slice()) {
        proof {
            reveal_strlit("\r\n");
        }
        assert("\r\n"@ =~= crlf());
        "\r\n"
    } else {
        proof {
            reveal_strlit("\n");
        }
        assert("\n"@ =~= lf());
        "\n"
    }
}

/// Whether a trimmed line opens or closes a fenced code block: whether it
/// begins with three backticks or three tildes.
pub fn is_code_fence(trimmed: &str) -> (r: bool)
    ensures
        r == (occurs_at(trimmed@, "```"@, 0) || occurs_at(trimmed@, "~~~"@, 0)),
{
    let t = chars_of(trimmed);
    let ticks = chars_of("```");
    let tildes = chars_of("~~~");
    starts_with(t.as_slice(), ticks.as_slice()) || starts_with(t.as_slice(), tildes.as_slice())
}

/// The state of an anchor while a heading is read: what was written so far,
/// and whether the last thing written was a hyphen that stands for a space
/// or a hyphen.
pub struct AnchorScan {
    pub written: Seq<char>,
    pub after_hyphen: bool,
}

/// The anchor state after the characters of `s`: alphanumeric characters
/// are kept, a space or a hyphen becomes one hyphen unless a hyphen was just
/// written, and everything else is dropped.
pub open spec fn anchor_scan(s: Seq<char>) -> AnchorScan
    decreases s.len(),
{
    if s.len() == 0 {
        AnchorScan { written: Seq::empty(), after_hyphen: false }
    } else {
        let before = anchor_scan(s.drop_last());
        let ch = s.last();
        if alphanumeric(ch) {
            AnchorScan { written: before.written.push(ch), after_hyphen: false }
        } else if (ch == ' ' || ch == '-') && !before.after_hyphen {
            AnchorScan { written: before.written.push('-'), after_hyphen: true }
        } else {
            before
        }
    }
}

/// The number of `c` at the beginning of `s`.
pub open spec fn leading_run(s: Seq<char>, c: char) -> nat
    decreases s.len(),
{
    if s.len() > 0 && s[0] == c {
        1 + leading_run(s.drop_first(), c)
    } else {
        0
    }
}

/// `s` without the runs of `c` at its two ends.
pub open spec fn trim_char(s: Seq<char>, c: char) -> Seq<char> {
    let kept = s.take(trimmed_end_len(s, c) as int);
    kept.skip(leading_run(kept, c) as int)
}

/// The anchor of a heading: its lowercase form, scanned as `anchor_scan`
/// says, without hyphens at either end.
pub open spec fn heading_anchor(text: Seq<char>) -> Seq<char> {
    trim_char(anchor_scan(lowercase(text)).written, '-')
}

/// The number of `c` at the beginning of `s`.
pub fn leading_len(s: &[char], c: char) -> (r: usize)
    ensures
        r == leading_run(s@, c),
        r <= s.len(),
{
    let mut n: usize = 0;
    assert(s@.skip(0) =~= s@);
    while n < s.len() && s[n] == c
        invariant
            n <= s.len(),
            leading_run(s@, c) == n + leading_run(s@.skip(n as int), c),
        decreases s.len() - n,
    {
        assert(s@.skip(n as int).drop_first() =~= s@.skip(n + 1));
        n += 1;
    }
    n
}

/// `s` without the runs of `c` at its two ends.
pub fn trim_matches(s: &[char], c: char) -> (r: Vec<char>)
    ensures
        r@ == trim_char(s@, c),
{
    let end = trim_end_len(s, s.len(), c);
    assert(s@.take(s@.len() as int) =~= s@);
    let kept = slice_of(s, 0, end);
    assert(kept@ =~= s@.take(end as int));
    let skip = leading_len(kept.as_slice(), c);
    let r = slice_of(kept.as_slice(), skip, kept.len());
    assert(r@ =~= kept@.skip(skip as int));
    r
}

/// Converts a heading's text to its anchor: lowercase, spaces and hyphens
/// as single hyphens, other punctuation dropped, no hyphen at either end.
pub fn heading_to_anchor_id(text: &str) -> (r: String)
    ensures
        r@ == heading_anchor(text@),
{
    let lower_text = to_lowercase(text);
    let lower = chars_of(lower_text.as_str());
    let mut id: Vec<char> = Vec::new();
    let mut prev_hyphen = false;
    let mut i: usize = 0;
    while i < lower.len()
        invariant
            i <= lower.len(),
            anchor_scan(lower@.take(i as int)) == (AnchorScan {
                written: id@,
                after_hyphen: prev_hyphen,
            }),
        decreases lower.len() - i,
    {
        let ch = lower[i];
        assert(lower@.take(i + 1).drop_last() =~= lower@.take(i as int));
        if is_alphanumeric(ch) {
            id.push(ch);
            prev_hyphen = false;
        } else if (ch == ' ' || ch == '-') && !prev_hyphen {
            id.push('-');
            prev_hyphen = true;
        }
        i += 1;
    }
    assert(lower@.take(i as int) =~= lower@);
    let trimmed = trim_matches(id.as_slice(), '-');
    string_of(trimmed.as_slice())
}

/// The pieces of `s[start..]` between the occurrences of `sep`, read from
/// left to right, where no occurrence begins in `start..at`.
pub open spec fn split_from(s: Seq<char>, sep: Seq<char>, start: int, at: int) -> Seq<Seq<char>>
    recommends
        sep.len() > 0,
        0 <= start <= at,
    decreases s.len() - at,
    when sep.len() > 0
{
    if at + sep.len() > s.len() {
        seq![s.subrange(start, s.len() as int)]
    } else if occurs_at(s, sep, at) {
        seq![s.subrange(start, at)] + split_from(s, sep, at + sep.len(), at + sep.len())
    } else {
        split_from(s, sep, start, at + 1)
    }
}

/// The pieces of `s` between the occurrences of `sep`.
pub open spec fn split_on(s: Seq<char>, sep: Seq<char>) -> Seq<Seq<char>> {
    split_from(s, sep, 0, 0)
}

/// Joining a first part and more parts puts the separator behind the
/// first.
pub proof fn lemma_joined_first(first: Seq<char>, rest: Seq<Seq<char>>, sep: Seq<char>)
    requires
        rest.len() > 0,
    ensures
        joined(seq![first] + rest, sep) == first + sep + joined(rest, sep),
    decreases rest.len(),
{
    let all = seq![first] + rest;
    assert(all.drop_last() =~= seq![first] + rest.drop_last());
    assert(all.last() == rest.last());
    if rest.len() == 1 {
        assert(all.drop_last() =~= seq![first]);
        assert(joined(all.drop_last(), sep) == first);
        assert(joined(rest, sep) == rest[0]);
    } else {
        lemma_joined_first(first, rest.drop_last(), sep);
        assert(joined(all, sep) =~= first + sep + joined(rest, sep));
    }
}

/// Splitting loses nothing: the pieces of a text, joined by the separator,
/// are the text.
pub proof fn lemma_split_joins_back(s: Seq<char>, sep: Seq<char>, start: int, at: int)
    requires
        sep.len() > 0,
        0 <= start <= at <= s.len(),
    ensures
        split_from(s, sep, start, at).len() > 0,
        joined(split_from(s, sep, start, at), sep) == s.subrange(start, s.len() as int),
    decreases s.len() - at,
{
    if at + sep.len() > s.len() {
    } else if occurs_at(s, sep, at) {
        let next = at + sep.len();
        lemma_split_joins_back(s, sep, next, next);
        lemma_joined_first(s.subrange(start, at), split_from(s, sep, next, next), sep);
        assert(s.subrange(start, at) + sep + s.subrange(next, s.len() as int) =~= s.subrange(
            start,
            s.len() as int,
        ));
    } else {
        lemma_split_joins_back(s, sep, start, at + 1);
    }
}

/// The line ending of a text, as `detect_line_ending` finds it.
pub open spec fn line_ending_of(content: Seq<char>) -> Seq<char> {
    if occurs_in(content, crlf()) {
        crlf()
    } else {
        lf()
    }
}

/// The views of a list of character vectors.
pub open spec fn rows_view(v: Seq<Vec<char>>) -> Seq<Seq<char>> {
    Seq::new(v.len(), |i: int| v[i]@)
}

/// The pieces of `s` between the occurrences of `sep`.
pub fn split(s: &[char], sep: &[char]) -> (r: Vec<Vec<char>>)
    requires
        sep.len() > 0,
    ensures
        rows_view(r@) == split_on(s@, sep@),
{
    let mut r: Vec<Vec<char>> = Vec::new();
    let mut start: usize = 0;
    let mut at: usize = 0;
    while sep.len() <= s.len() && at <= s.len() - sep.len()
        invariant
            sep.len() > 0,
            start <= at <= s.len(),
            split_on(s@, sep@) == rows_view(r@) + split_from(s@, sep@, start as int, at as int),
        decreases s.len() - at,
    {
        if matches_at(s, sep, at) {
            let piece = slice_of(s, start, at);
            let ghost before = rows_view(r@);
            r.push(piece);
            assert(rows_view(r@) =~= before.push(s@.subrange(start as int, at as int)));
            at = at + sep.len();
            start = at;
            assert(split_on(s@, sep@) =~= rows_view(r@) + split_from(
                s@,
                sep@,
                start as int,
                at as int,
            ));
        } else {
            at += 1;
        }
    }
    let piece = slice_of(s, start, s.len());
    let ghost before = rows_view(r@);
    r.push(piece);
    assert(rows_view(r@) =~= before.push(s@.subrange(start as int, s@.len() as int)));
    assert(rows_view(r@) =~= split_on(s@, sep@));
    r
}

/// The lines of a text: its pieces between the occurrences of its line
/// ending.
pub fn split_lines(content: &str) -> (r: Vec<String>)
    ensures
        crate::types::texts_view(r@) == split_on(content@, line_ending_of(content@)),
{
    let t = chars_of(content);
    let ending = chars_of(detect_line_ending(content));
    let pieces = split(t.as_slice(), ending.as_slice());
    let mut r: Vec<String> = Vec::new();
    let mut i: usize = 0;
    while i < pieces.len()
        invariant
            i <= pieces.len(),
            r.len() == i,
            forall|k: int| 0 <= k < i ==> r@[k]@ == pieces@[k]@,
        decreases pieces.len() - i,
    {
        r.push(string_of(pieces[i].as_slice()));
        i += 1;
    }
    assert(crate::types::texts_view(r@) =~= rows_view(pieces@));
    r
}

} // verus!
