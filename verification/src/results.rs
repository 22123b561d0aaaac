//! The issues of several files, kept in the order of the file names: the
//! order is an invariant of the type, so a report needs no sorting.

use crate::text::chars_of;
use crate::types::{LintError, LintErrorView, Severity, issues_view, texts_view};
use vstd::prelude::*;

verus! {

/// Whether `a` comes before `b` in the order of strings: at the first
/// place where they differ `a` has the smaller character, or `a` ends
/// there and `b` goes on.
pub open spec fn lex_less(a: Seq<char>, b: Seq<char>) -> bool
    decreases a.len(),
{
    if b.len() == 0 {
        false
    } else if a.len() == 0 {
        true
    } else if a[0] != b[0] {
        (a[0] as u32) < (b[0] as u32)
    } else {
        lex_less(a.drop_first(), b.drop_first())
    }
}

/// Of two different strings one comes before the other.
pub proof fn lemma_lex_total(a: Seq<char>, b: Seq<char>)
    requires
        a != b,
    ensures
        lex_less(a, b) || lex_less(b, a),
    decreases a.len(),
{
    if a.len() > 0 && b.len() > 0 && a[0] == b[0] {
        if a.drop_first() == b.drop_first() {
            assert(a =~= seq![a[0]] + a.drop_first());
            assert(b =~= seq![b[0]] + b.drop_first());
        }
        lemma_lex_total(a.drop_first(), b.drop_first());
    } else if a.len() == 0 && b.len() == 0 {
        assert(a =~= b);
    } else if a.len() > 0 && b.len() > 0 {
        vstd::utf8::char_u32_cast(a[0], a[0] as u32);
        vstd::utf8::char_u32_cast(b[0], b[0] as u32);
    }
}

/// The order of strings is transitive.
pub proof fn lemma_lex_transitive(a: Seq<char>, b: Seq<char>, c: Seq<char>)
    requires
        lex_less(a, b),
        lex_less(b, c),
    ensures
        lex_less(a, c),
    decreases a.len(),
{
    if a.len() > 0 && a[0] == b[0] && b[0] == c[0] {
        lemma_lex_transitive(a.drop_first(), b.drop_first(), c.drop_first());
    }
}

/// No string comes before itself.
pub proof fn lemma_lex_irreflexive(a: Seq<char>)
    ensures
        !lex_less(a, a),
    decreases a.len(),
{
    if a.len() > 0 {
        lemma_lex_irreflexive(a.drop_first());
    }
}

/// Whether `a` comes before `b` in the order of strings.
pub fn less(a: &[char], b: &[char]) -> (r: bool)
    ensures
        r == lex_less(a@, b@),
{
    let mut i: usize = 0;
    assert(a@.skip(0) =~= a@);
    assert(b@.skip(0) =~= b@);
    while i < a.len() && i < b.len() && a[i] == b[i]
        invariant
            i <= a.len(),
            i <= b.len(),
            lex_less(a@, b@) == lex_less(a@.skip(i as int), b@.skip(i as int)),
        decreases a.len() - i,
    {
        assert(a@.skip(i as int).drop_first() =~= a@.skip(i + 1));
        assert(b@.skip(i as int).drop_first() =~= b@.skip(i + 1));
        i += 1;
    }
    if i >= b.len() {
        false
    } else if i >= a.len() {
        true
    } else {
        (a[i] as u32) < (b[i] as u32)
    }
}

/// The issues of one file.
#[derive(Debug, PartialEq, Eq)]
pub struct FileIssues {
    pub file: String,
    pub errors: Vec<LintError>,
}

/// What the issues of a file stand for in contracts.
pub struct FileIssuesView {
    pub file: Seq<char>,
    pub errors: Seq<LintErrorView>,
}

impl View for FileIssues {
    type V = FileIssuesView;

    open spec fn view(&self) -> FileIssuesView {
        FileIssuesView { file: self.file@, errors: issues_view(self.errors@) }
    }
}

/// `entries` with the issues of `file` set: in place of the entry of that
/// file where there is one, else before the first entry whose file comes
/// after it.
pub open spec fn with_entry(entries: Seq<FileIssuesView>, entry: FileIssuesView) -> Seq<
    FileIssuesView,
>
    decreases entries.len(),
{
    if entries.len() == 0 {
        seq![entry]
    } else if entries[0].file == entry.file {
        seq![entry] + entries.drop_first()
    } else if lex_less(entry.file, entries[0].file) {
        seq![entry] + entries
    } else {
        seq![entries[0]] + with_entry(entries.drop_first(), entry)
    }
}

/// Whether the entries are in the order of their files, each file once.
pub open spec fn in_file_order(entries: Seq<FileIssuesView>) -> bool {
    forall|i: int, j: int|
        0 <= i < j < entries.len() ==> lex_less(
            (#[trigger] entries[i]).file,
            (#[trigger] entries[j]).file,
        )
}

/// The issues of `file`.
pub open spec fn issues_of(entries: Seq<FileIssuesView>, file: Seq<char>) -> Option<
    Seq<LintErrorView>,
>
    decreases entries.len(),
{
    if entries.len() == 0 {
        None
    } else if entries[0].file == file {
        Some(entries[0].errors)
    } else {
        issues_of(entries.drop_first(), file)
    }
}

/// The number of issues of the given severity.
pub open spec fn count_in(errors: Seq<LintErrorView>, severity: Severity) -> nat
    decreases errors.len(),
{
    if errors.len() == 0 {
        0
    } else {
        count_in(errors.drop_last(), severity) + if errors.last().severity == severity {
            1nat
        } else {
            0nat
        }
    }
}

/// The number of issues of the given severity in all files.
pub open spec fn count_all(entries: Seq<FileIssuesView>, severity: Severity) -> nat
    decreases entries.len(),
{
    if entries.len() == 0 {
        0
    } else {
        count_all(entries.drop_last(), severity) + count_in(entries.last().errors, severity)
    }
}

/// The files that have issues, in order.
pub open spec fn files_with_issues(entries: Seq<FileIssuesView>) -> Seq<Seq<char>>
    decreases entries.len(),
{
    if entries.len() == 0 {
        Seq::empty()
    } else if entries.last().errors.len() > 0 {
        files_with_issues(entries.drop_last()).push(entries.last().file)
    } else {
        files_with_issues(entries.drop_last())
    }
}

/// Every entry after setting one is the entry set or an entry from before.
pub proof fn lemma_with_entry_members(entries: Seq<FileIssuesView>, entry: FileIssuesView, k: int)
    requires
        0 <= k < with_entry(entries, entry).len(),
    ensures
        with_entry(entries, entry)[k] == entry || entries.contains(with_entry(entries, entry)[k]),
    decreases entries.len(),
{
    if entries.len() == 0 {
    } else if entries[0].file == entry.file {
        if k > 0 {
            assert(entries.drop_first()[k - 1] == entries[k]);
        }
    } else if lex_less(entry.file, entries[0].file) {
        if k > 0 {
            assert(entries[k - 1] == with_entry(entries, entry)[k]);
        }
    } else {
        if k > 0 {
            lemma_with_entry_members(entries.drop_first(), entry, k - 1);
            let x = with_entry(entries.drop_first(), entry)[k - 1];
            if x != entry {
                let m = choose|m: int|
                    0 <= m < entries.drop_first().len() && entries.drop_first()[m] == x;
                assert(entries[m + 1] == x);
            }
        } else {
            assert(entries[0] == with_entry(entries, entry)[0]);
        }
    }
}

/// Setting an entry keeps the order of the files.
pub proof fn lemma_with_entry_keeps_order(entries: Seq<FileIssuesView>, entry: FileIssuesView)
    requires
        in_file_order(entries),
    ensures
        in_file_order(with_entry(entries, entry)),
    decreases entries.len(),
{
    let after = with_entry(entries, entry);
    if entries.len() == 0 {
    } else if entries[0].file == entry.file {
        assert forall|i: int, j: int| 0 <= i < j < after.len() implies lex_less(
            (#[trigger] after[i]).file,
            (#[trigger] after[j]).file,
        ) by {
            assert(after[j] == entries[j]);
            if i > 0 {
                assert(after[i] == entries[i]);
            } else {
                assert(lex_less(entries[0].file, entries[j].file));
            }
        }
    } else if lex_less(entry.file, entries[0].file) {
        assert forall|i: int, j: int| 0 <= i < j < after.len() implies lex_less(
            (#[trigger] after[i]).file,
            (#[trigger] after[j]).file,
        ) by {
            assert(after[j] == entries[j - 1]);
            if i > 0 {
                assert(after[i] == entries[i - 1]);
            } else if j > 1 {
                assert(lex_less(entries[0].file, entries[j - 1].file));
                lemma_lex_transitive(entry.file, entries[0].file, entries[j - 1].file);
            }
        }
    } else {
        let rest = entries.drop_first();
        assert(in_file_order(rest)) by {
            assert forall|i: int, j: int| 0 <= i < j < rest.len() implies lex_less(
                (#[trigger] rest[i]).file,
                (#[trigger] rest[j]).file,
            ) by {
                assert(rest[i] == entries[i + 1]);
                assert(rest[j] == entries[j + 1]);
            }
        }
        lemma_with_entry_keeps_order(rest, entry);
        let inner = with_entry(rest, entry);
        lemma_lex_total(entries[0].file, entry.file);
        assert forall|i: int, j: int| 0 <= i < j < after.len() implies lex_less(
            (#[trigger] after[i]).file,
            (#[trigger] after[j]).file,
        ) by {
            assert(after[j] == inner[j - 1]);
            if i > 0 {
                assert(after[i] == inner[i - 1]);
            } else {
                lemma_with_entry_members(rest, entry, j - 1);
                if inner[j - 1] != entry {
                    let m = choose|m: int| 0 <= m < rest.len() && rest[m] == inner[j - 1];
                    assert(rest[m] == entries[m + 1]);
                    assert(lex_less(entries[0].file, entries[m + 1].file));
                }
            }
        }
    }
}

/// The issues of several files, in the order of the file names.
pub struct LintResults {
    entries: Vec<FileIssues>,
}

/// The views of the entries.
pub open spec fn entries_view(v: Seq<FileIssues>) -> Seq<FileIssuesView> {
    Seq::new(v.len(), |i: int| v[i]@)
}

/// Sets the issues of a file in a list of entries: in place of the entry of
/// that file where there is one, else before the first entry whose file
/// comes after it.
fn insert_entry(entries: &mut Vec<FileIssues>, file: String, errors: Vec<LintError>)
    ensures
        entries_view(final(entries)@) == with_entry(
            entries_view(old(entries)@),
            FileIssuesView { file: file@, errors: issues_view(errors@) },
        ),
{
    let ghost before = entries_view(entries@);
    let ghost entry = FileIssuesView { file: file@, errors: issues_view(errors@) };
    let name = chars_of(file.as_str());
    let ghost stored = entries@;
    let mut i: usize = 0;
    assert(before.skip(0) =~= before);
    assert(before.take(0) + with_entry(before, entry) =~= with_entry(before, entry));
    while i < entries.len()
        invariant
            i <= entries@.len(),
            entries@ == stored,
            before == entries_view(stored),
            before == entries_view(old(entries)@),
            name@ == file@,
            entry == (FileIssuesView { file: file@, errors: issues_view(errors@) }),
            with_entry(before, entry) == before.take(i as int) + with_entry(
                before.skip(i as int),
                entry,
            ),
        decreases entries.len() - i,
    {
        let current = chars_of(entries[i].file.as_str());
        assert(before[i as int] == entries@[i as int]@);
        assert(before.skip(i as int)[0] == before[i as int]);
        assert(before.skip(i as int).drop_first() =~= before.skip(i + 1));
        let ghost here = before.skip(i as int);
        if crate::text::same(current.as_slice(), name.as_slice()) {
            assert(here[0].file == entry.file);
            assert(with_entry(here, entry) == seq![entry] + here.drop_first());
            let _ = entries.remove(i);
            let fresh = FileIssues { file, errors };
            assert(fresh@ == entry);
            entries.insert(i, fresh);
            assert(entries@ == stored.remove(i as int).insert(i as int, fresh));
            let ghost goal = before.take(i as int) + (seq![entry] + before.skip(i + 1));
            assert forall|k: int| 0 <= k < goal.len() implies entries_view(entries@)[k] == goal[k] by {
                if k < i {
                    assert(entries@[k] == stored[k]);
                } else if k > i {
                    assert(entries@[k] == stored[k]);
                }
            }
            assert(entries_view(entries@) =~= goal);
            return;
        }
        if less(name.as_slice(), current.as_slice()) {
            assert(here[0].file != entry.file);
            assert(with_entry(here, entry) == seq![entry] + here);
            let fresh = FileIssues { file, errors };
            assert(fresh@ == entry);
            entries.insert(i, fresh);
            let ghost goal = before.take(i as int) + (seq![entry] + before.skip(i as int));
            assert forall|k: int| 0 <= k < goal.len() implies entries_view(entries@)[k] == goal[k] by {
                if k < i {
                    assert(entries@[k] == stored[k]);
                } else if k > i {
                    assert(entries@[k] == stored[k - 1]);
                }
            }
            assert(entries_view(entries@) =~= goal);
            return;
        }
        assert(with_entry(here, entry) == seq![here[0]] + with_entry(here.drop_first(), entry));
        assert(before.take(i + 1) + with_entry(before.skip(i + 1), entry) =~= before.take(
            i as int,
        ) + (seq![before[i as int]] + with_entry(before.skip(i + 1), entry)));
        i += 1;
    }
    let fresh = FileIssues { file, errors };
    assert(fresh@ == entry);
    entries.push(fresh);
    assert(before.skip(i as int) =~= Seq::<FileIssuesView>::empty());
    assert(entries_view(entries@) =~= before.take(i as int) + seq![entry]);
}


impl LintResults {
    /// The files are kept in order.
    #[verifier::type_invariant]
    spec fn ordered(&self) -> bool {
        in_file_order(entries_view(self.entries@))
    }

    /// The files with their issues, in the order of the file names.
    pub closed spec fn entries(&self) -> Seq<FileIssuesView> {
        entries_view(self.entries@)
    }

    /// Results without files.
    pub fn new() -> (r: Self)
        ensures
            r.entries() == Seq::<FileIssuesView>::empty(),
    {
        let r = LintResults { entries: Vec::new() };
        assert(r.entries() =~= Seq::<FileIssuesView>::empty());
        r
    }

    /// Sets the issues of a file, in place of those it had. The files stay
    /// in order.
    pub fn add(&mut self, file: String, errors: Vec<LintError>)
        ensures
            final(self).entries() == with_entry(
                old(self).entries(),
                FileIssuesView { file: file@, errors: issues_view(errors@) },
            ),
    {
        proof {
            use_type_invariant(&*self);
            lemma_with_entry_keeps_order(
                self.entries(),
                FileIssuesView { file: file@, errors: issues_view(errors@) },
            );
        }
        let mut entries: Vec<FileIssues> = Vec::new();
        assert(entries_view(entries@) =~= Seq::<FileIssuesView>::empty());
        core::mem::swap(&mut entries, &mut self.entries);
        insert_entry(&mut entries, file, errors);
        self.entries = entries;
    }

    /// The issues of a file.
    pub fn get(&self, file: &str) -> (r: Option<&Vec<LintError>>)
        ensures
            match r {
                Some(errors) => issues_of(self.entries(), file@) == Some(issues_view(errors@)),
                None => issues_of(self.entries(), file@) is None,
            },
    {
        let ghost all = self.entries();
        let name = chars_of(file);
        let mut i: usize = 0;
        assert(all.skip(0) =~= all);
        while i < self.entries.len()
            invariant
                i <= self.entries@.len(),
                all == self.entries(),
                name@ == file@,
                issues_of(all, file@) == issues_of(all.skip(i as int), file@),
            decreases self.entries.len() - i,
        {
            assert(all.skip(i as int)[0] == self.entries@[i as int]@);
            assert(all.skip(i as int).drop_first() =~= all.skip(i + 1));
            if crate::text::same(chars_of(self.entries[i].file.as_str()).as_slice(), name.as_slice()) {
                return Some(&self.entries[i].errors);
            }
            i += 1;
        }
        None
    }

    /// The number of files. The files are in order, each once.
    pub fn len(&self) -> (n: usize)
        ensures
            n == self.entries().len(),
            in_file_order(self.entries()),
    {
        proof {
            use_type_invariant(self);
        }
        self.entries.len()
    }

    /// The file and the issues of entry `i`.
    pub fn entry(&self, i: usize) -> (r: &FileIssues)
        requires
            i < self.entries().len(),
        ensures
            r@ == self.entries()[i as int],
    {
        &self.entries[i]
    }

    /// The number of issues of the given severity, or the largest number
    /// where there are more.
    pub fn count(&self, severity: Severity) -> (n: usize)
        ensures
            n == crate::rules::md046::clamp_usize(count_all(self.entries(), severity)),
    {
        let ghost all = self.entries();
        let mut n: usize = 0;
        let mut i: usize = 0;
        assert(all.take(0) =~= Seq::<FileIssuesView>::empty());
        while i < self.entries.len()
            invariant
                i <= self.entries@.len(),
                all == self.entries(),
                n == crate::rules::md046::clamp_usize(count_all(all.take(i as int), severity)),
            decreases self.entries.len() - i,
        {
            assert(all.take(i + 1).drop_last() =~= all.take(i as int));
            assert(all.take(i + 1).last() == self.entries@[i as int]@);
            let errors = &self.entries[i].errors;
            let ghost these = issues_view(errors@);
            let mut m: usize = 0;
            let mut k: usize = 0;
            assert(these.take(0) =~= Seq::<LintErrorView>::empty());
            while k < errors.len()
                invariant
                    k <= errors@.len(),
                    these == issues_view(errors@),
                    m == crate::rules::md046::clamp_usize(count_in(these.take(k as int), severity)),
                decreases errors.len() - k,
            {
                assert(these.take(k + 1).drop_last() =~= these.take(k as int));
                assert(these.take(k + 1).last() == errors@[k as int]@);
                let same = match (errors[k].severity, severity) {
                    (Severity::Error, Severity::Error) => true,
                    (Severity::Warning, Severity::Warning) => true,
                    _ => false,
                };
                if same {
                    m = m.saturating_add(1);
                }
                k += 1;
            }
            assert(these.take(k as int) =~= these);
            n = n.saturating_add(m);
            i += 1;
        }
        assert(all.take(i as int) =~= all);
        n
    }

    /// The number of issues of severity `Error`.
    pub fn error_count(&self) -> (n: usize)
        ensures
            n == crate::rules::md046::clamp_usize(count_all(self.entries(), Severity::Error)),
    {
        self.count(Severity::Error)
    }

    /// The number of issues of severity `Warning`.
    pub fn warning_count(&self) -> (n: usize)
        ensures
            n == crate::rules::md046::clamp_usize(count_all(self.entries(), Severity::Warning)),
    {
        self.count(Severity::Warning)
    }

    /// The files that have issues, in order.
    pub fn files_with_errors(&self) -> (r: Vec<String>)
        ensures
            texts_view(r@) == files_with_issues(self.entries()),
    {
        let ghost all = self.entries();
        let mut r: Vec<String> = Vec::new();
        let mut i: usize = 0;
        assert(all.take(0) =~= Seq::<FileIssuesView>::empty());
        while i < self.entries.len()
            invariant
                i <= self.entries@.len(),
                all == self.entries(),
                texts_view(r@) == files_with_issues(all.take(i as int)),
            decreases self.entries.len() - i,
        {
            assert(all.take(i + 1).drop_last() =~= all.take(i as int));
            assert(all.take(i + 1).last() == self.entries@[i as int]@);
            if self.entries[i].errors.len() > 0 {
                let ghost before = texts_view(r@);
                r.push(self.entries[i].file.clone());
                assert(texts_view(r@) =~= before.push(self.entries@[i as int].file@));
            }
            i += 1;
        }
        assert(all.take(i as int) =~= all);
        r
    }

    /// Whether no file has an issue.
    pub fn is_empty(&self) -> (r: bool)
        ensures
            r == (files_with_issues(self.entries()).len() == 0),
    {
        self.files_with_errors().len() == 0
    }
}

} // verus!
