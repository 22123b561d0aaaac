//! Regular expressions, matched by the `regex` crate.
//!
//! What a pattern matches in a text is named rather than spelled out: the
//! names below stand for what the crate returns, which depends on the
//! pattern and the text alone. A matcher compiles its pattern once and is
//! then asked about many texts. A pattern that the crate does not accept
//! matches nothing, and replacing its matches changes nothing.

use regex::Regex;
use vstd::prelude::*;

verus! {

/// `regex::Regex`, a compiled regular expression.
#[verifier::external_type_specification]
#[verifier::external_body]
pub struct ExRegex(Regex);

/// Whether the crate accepts `pattern` as a regular expression.
pub uninterp spec fn compiles(pattern: Seq<char>) -> bool;

/// The groups of the leftmost match of `pattern` in `text`: the whole match
/// first, then each group of the pattern in the order of its opening
/// bracket, `None` for a group that took no part. `None` where nothing
/// matches.
pub uninterp spec fn captures_of(pattern: Seq<char>, text: Seq<char>) -> Option<
    Seq<Option<Seq<char>>>,
>;

/// The groups of every match of `pattern` in `text`, from left to right,
/// matches not overlapping.
pub uninterp spec fn all_captures_of(pattern: Seq<char>, text: Seq<char>) -> Seq<
    Seq<Option<Seq<char>>>,
>;

/// Whether `pattern` matches somewhere in `text`.
pub uninterp spec fn has_match(pattern: Seq<char>, text: Seq<char>) -> bool;

/// `text` with every match of `pattern` replaced by `replacement`.
pub uninterp spec fn replaced(pattern: Seq<char>, text: Seq<char>, replacement: Seq<char>) -> Seq<
    char,
>;

/// A compiled pattern, with the text it was compiled from.
pub struct Pattern {
    source: String,
    compiled: Regex,
}

impl View for Pattern {
    type V = Seq<char>;

    closed spec fn view(&self) -> Seq<char> {
        self.source@
    }
}

/// The view of the groups of a match.
pub open spec fn groups_view(groups: Seq<Option<String>>) -> Seq<Option<Seq<char>>> {
    Seq::new(groups.len(), |i: int| crate::types::text_view(groups[i]))
}

/// The view of the groups of a match, if there is one.
pub open spec fn match_view(found: Option<Vec<Option<String>>>) -> Option<Seq<Option<Seq<char>>>> {
    match found {
        Some(groups) => Some(groups_view(groups@)),
        None => None,
    }
}

/// The view of the groups of several matches.
pub open spec fn matches_view(found: Seq<Vec<Option<String>>>) -> Seq<Seq<Option<Seq<char>>>> {
    Seq::new(found.len(), |i: int| groups_view(found[i]@))
}

/// `Regex::new` compiles a pattern, or refuses it.
#[verifier::external_body]
fn compile(source: &str) -> (r: Option<Pattern>)
    ensures
        match r {
            Some(pattern) => pattern@ == source@ && compiles(source@),
            None => !compiles(source@),
        },
{
    match Regex::new(source) {
        Ok(compiled) => Some(Pattern { source: source.to_string(), compiled }),
        Err(_) => None,
    }
}

/// `Regex::captures` searches for the leftmost match and returns its
/// groups; the groups are handed out as strings.
#[verifier::external_body]
fn captures(pattern: &Pattern, text: &str) -> (r: Option<Vec<Option<String>>>)
    ensures
        match_view(r) == captures_of(pattern@, text@),
{
    pattern.compiled.captures(text).map(
        |c| c.iter().map(|g| g.map(|m| m.as_str().to_string())).collect(),
    )
}

/// `Regex::captures_iter` yields the groups of the successive matches that
/// do not overlap; the groups are handed out as strings.
#[verifier::external_body]
fn captures_iter(pattern: &Pattern, text: &str) -> (r: Vec<Vec<Option<String>>>)
    ensures
        matches_view(r@) == all_captures_of(pattern@, text@),
{
    pattern.compiled.captures_iter(text).map(
        |c| c.iter().map(|g| g.map(|m| m.as_str().to_string())).collect(),
    ).collect()
}

/// `Regex::is_match` tells whether there is a match anywhere in the text.
#[verifier::external_body]
fn is_match(pattern: &Pattern, text: &str) -> (r: bool)
    ensures
        r == has_match(pattern@, text@),
{
    pattern.compiled.is_match(text)
}

/// `Regex::replace_all` replaces every match that does not overlap an
/// earlier one by the replacement.
#[verifier::external_body]
fn replace_all(pattern: &Pattern, text: &str, replacement: &str) -> (r: String)
    ensures
        r@ == replaced(pattern@, text@, replacement@),
{
    pattern.compiled.replace_all(text, replacement).into_owned()
}

/// The groups of the leftmost match of `pattern` in `text`; none where the
/// pattern does not compile.
pub open spec fn first_match(pattern: Seq<char>, text: Seq<char>) -> Option<Seq<Option<Seq<char>>>> {
    if compiles(pattern) {
        captures_of(pattern, text)
    } else {
        None
    }
}

/// The groups of every match of `pattern` in `text`; none where the
/// pattern does not compile.
pub open spec fn all_matches(pattern: Seq<char>, text: Seq<char>) -> Seq<Seq<Option<Seq<char>>>> {
    if compiles(pattern) {
        all_captures_of(pattern, text)
    } else {
        Seq::empty()
    }
}

/// Whether `pattern` matches somewhere in `text`; it does not where it does
/// not compile.
pub open spec fn matches_in(pattern: Seq<char>, text: Seq<char>) -> bool {
    compiles(pattern) && has_match(pattern, text)
}

/// `text` with every match of `pattern` replaced by `replacement`; `text`
/// itself where the pattern does not compile.
pub open spec fn with_replaced(pattern: Seq<char>, text: Seq<char>, replacement: Seq<char>) -> Seq<
    char,
> {
    if compiles(pattern) {
        replaced(pattern, text, replacement)
    } else {
        text
    }
}

/// A pattern that is ready to be matched against texts.
pub struct Matcher {
    source: String,
    pattern: Option<Pattern>,
}

impl View for Matcher {
    type V = Seq<char>;

    closed spec fn view(&self) -> Seq<char> {
        self.source@
    }
}

impl Matcher {
    /// The pattern is compiled from the source, where the source compiles.
    #[verifier::type_invariant]
    spec fn compiled(&self) -> bool {
        match self.pattern {
            Some(pattern) => pattern@ == self.source@ && compiles(self.source@),
            None => !compiles(self.source@),
        }
    }

    /// The matcher of a pattern.
    pub fn new(source: &str) -> (r: Self)
        ensures
            r@ == source@,
    {
        Matcher {
            source: crate::text::string_of(crate::text::chars_of(source).as_slice()),
            pattern: compile(source),
        }
    }

    /// The groups of the leftmost match in `text`.
    pub fn first(&self, text: &str) -> (r: Option<Vec<Option<String>>>)
        ensures
            match_view(r) == first_match(self@, text@),
    {
        proof {
            use_type_invariant(self);
        }
        match &self.pattern {
            Some(pattern) => captures(pattern, text),
            None => None,
        }
    }

    /// The groups of every match in `text`.
    pub fn all(&self, text: &str) -> (r: Vec<Vec<Option<String>>>)
        ensures
            matches_view(r@) == all_matches(self@, text@),
    {
        proof {
            use_type_invariant(self);
        }
        match &self.pattern {
            Some(pattern) => captures_iter(pattern, text),
            None => {
                let r: Vec<Vec<Option<String>>> = Vec::new();
                assert(matches_view(r@) =~= Seq::empty());
                r
            },
        }
    }

    /// Whether the pattern matches somewhere in `text`.
    pub fn matches(&self, text: &str) -> (r: bool)
        ensures
            r == matches_in(self@, text@),
    {
        proof {
            use_type_invariant(self);
        }
        match &self.pattern {
            Some(pattern) => is_match(pattern, text),
            None => false,
        }
    }

    /// `text` with every match replaced by `replacement`.
    pub fn replace_every(&self, text: &str, replacement: &str) -> (r: String)
        ensures
            r@ == with_replaced(self@, text@, replacement@),
    {
        proof {
            use_type_invariant(self);
        }
        match &self.pattern {
            Some(pattern) => replace_all(pattern, text, replacement),
            None => crate::text::string_of(crate::text::chars_of(text).as_slice()),
        }
    }
}

/// Group `i` of a match, if the match has that group and the group took
/// part in it.
pub open spec fn group_of(groups: Seq<Option<Seq<char>>>, i: int) -> Option<Seq<char>> {
    if 0 <= i < groups.len() {
        groups[i]
    } else {
        None
    }
}

/// Group `i` of a match.
pub fn group(groups: &Vec<Option<String>>, i: usize) -> (r: Option<&String>)
    ensures
        match r {
            Some(s) => group_of(groups_view(groups@), i as int) == Some(s@),
            None => group_of(groups_view(groups@), i as int) is None,
        },
{
    if i < groups.len() {
        match &groups[i] {
            Some(s) => Some(s),
            None => None,
        }
    } else {
        None
    }
}

} // verus!
