//! The documents that are open in the editor.

use crate::table::Table;
use crate::text::{chars_of, string_of};
use crate::types::{LintError, LintErrorView, clone_issues, issues_view, texts_view};
use vstd::prelude::*;

verus! {

/// An open document: its text, the version the editor gave it, and the
/// issues found when it was last linted.
#[derive(Debug, PartialEq, Eq)]
pub struct Document {
    pub uri: String,
    pub content: String,
    pub version: i32,
    pub cached_errors: Vec<LintError>,
}

/// What a document stands for in contracts.
pub struct DocumentView {
    pub uri: Seq<char>,
    pub content: Seq<char>,
    pub version: i32,
    pub cached_errors: Seq<LintErrorView>,
}

impl View for Document {
    type V = DocumentView;

    open spec fn view(&self) -> DocumentView {
        DocumentView {
            uri: self.uri@,
            content: self.content@,
            version: self.version,
            cached_errors: issues_view(self.cached_errors@),
        }
    }
}

impl Clone for Document {
    fn clone(&self) -> (r: Self)
        ensures
            r@ == self@,
    {
        Document {
            uri: self.uri.clone(),
            content: self.content.clone(),
            version: self.version,
            cached_errors: clone_issues(&self.cached_errors),
        }
    }
}

/// Holds the open documents by their URI.
pub struct DocumentManager {
    documents: Table<Document>,
}

impl DocumentManager {
    /// The open documents.
    pub closed spec fn documents(&self) -> Map<Seq<char>, DocumentView> {
        self.documents.map().map_values(|d: Document| d@)
    }

    /// The URIs of the open documents, in the order in which they were
    /// opened.
    pub closed spec fn uris(&self) -> Seq<Seq<char>> {
        self.documents.keys()
    }

    /// A manager without documents.
    pub fn new() -> (r: Self)
        ensures
            r.documents() == Map::<Seq<char>, DocumentView>::empty(),
            r.uris() == Seq::<Seq<char>>::empty(),
    {
        let r = DocumentManager { documents: Table::new() };
        assert(r.documents() =~= Map::<Seq<char>, DocumentView>::empty());
        r
    }

    /// Opens a document, in place of the one that was open under that URI.
    /// The new document has no cached issues.
    pub fn insert(&mut self, uri: String, content: String, version: i32)
        ensures
            final(self).documents() == old(self).documents().insert(
                uri@,
                DocumentView { uri: uri@, content: content@, version, cached_errors: Seq::empty() },
            ),
            final(self).uris() == if old(self).documents().contains_key(uri@) {
                old(self).uris()
            } else {
                old(self).uris().push(uri@)
            },
    {
        let key = uri.clone();
        let document = Document { uri, content, version, cached_errors: Vec::new() };
        assert(document@.cached_errors =~= Seq::empty());
        let ghost before = self.documents.map();
        let _ = self.documents.set(key, document);
        assert(self.documents() =~= before.map_values(|d: Document| d@).insert(
            uri@,
            document@,
        ));
    }

    /// Replaces the text and the version of an open document; the last
    /// writer wins, whatever the versions. Its cached issues stay. Returns
    /// whether the document is open; nothing changes where it is not.
    pub fn update(&mut self, uri: &str, content: String, version: i32) -> (known: bool)
        ensures
            final(self).uris() == old(self).uris(),
            known == old(self).documents().contains_key(uri@),
            final(self).documents() == if known {
                old(self).documents().insert(
                    uri@,
                    DocumentView { content: content@, version, ..old(self).documents()[uri@] },
                )
            } else {
                old(self).documents()
            },
    {
        let ghost before = self.documents.map();
        if self.documents.get(uri).is_none() {
            return false;
        }
        let previous = self.take(uri);
        let document = Document {
            uri: previous.uri,
            content,
            version,
            cached_errors: previous.cached_errors,
        };
        let _ = self.documents.set(string_of(chars_of(uri).as_slice()), document);
        assert(self.documents.map() =~= before.insert(uri@, document));
        assert(self.documents() =~= before.map_values(|d: Document| d@).insert(uri@, document@));
        true
    }

    /// Takes an open document out and leaves an empty one in its place.
    fn take(&mut self, uri: &str) -> (r: Document)
        requires
            old(self).documents.map().contains_key(uri@),
        ensures
            final(self).documents.keys() == old(self).documents.keys(),
            r == old(self).documents.map()[uri@],
            final(self).documents.map().insert(uri@, r) == old(self).documents.map(),
            final(self).documents.map().contains_key(uri@),
    {
        let ghost before = self.documents.map();
        let placeholder = Document {
            uri: String::new(),
            content: String::new(),
            version: 0,
            cached_errors: Vec::new(),
        };
        let previous = self.documents.set(string_of(chars_of(uri).as_slice()), placeholder);
        assert(self.documents.map().insert(uri@, before[uri@]) =~= before);
        previous.unwrap()
    }

    /// A copy of an open document.
    pub fn get(&self, uri: &str) -> (r: Option<Document>)
        ensures
            match r {
                Some(d) => self.documents().contains_key(uri@) && d@ == self.documents()[uri@],
                None => !self.documents().contains_key(uri@),
            },
    {
        match self.documents.get(uri) {
            Some(d) => Some(d.clone()),
            None => None,
        }
    }

    /// Replaces the cached issues of an open document, all of them.
    /// Returns whether the document is open; nothing changes where it is
    /// not.
    pub fn update_errors(&mut self, uri: &str, errors: Vec<LintError>) -> (known: bool)
        ensures
            final(self).uris() == old(self).uris(),
            known == old(self).documents().contains_key(uri@),
            final(self).documents() == if known {
                old(self).documents().insert(
                    uri@,
                    DocumentView {
                        cached_errors: issues_view(errors@),
                        ..old(self).documents()[uri@]
                    },
                )
            } else {
                old(self).documents()
            },
    {
        let ghost before = self.documents.map();
        if self.documents.get(uri).is_none() {
            return false;
        }
        let previous = self.take(uri);
        let document = Document {
            uri: previous.uri,
            content: previous.content,
            version: previous.version,
            cached_errors: errors,
        };
        let _ = self.documents.set(string_of(chars_of(uri).as_slice()), document);
        assert(self.documents.map() =~= before.insert(uri@, document));
        assert(self.documents() =~= before.map_values(|d: Document| d@).insert(uri@, document@));
        true
    }

    /// Closes a document and returns it.
    pub fn remove(&mut self, uri: &str) -> (r: Option<Document>)
        ensures
            final(self).documents() == old(self).documents().remove(uri@),
            final(self).uris() == old(self).uris().filter(crate::table::other_than(uri@)),
            match r {
                Some(d) => old(self).documents().contains_key(uri@) && d@ == old(self).documents()[uri@],
                None => !old(self).documents().contains_key(uri@),
            },
    {
        let ghost before = self.documents.map();
        let r = self.documents.remove(uri);
        assert(self.documents() =~= before.map_values(|d: Document| d@).remove(uri@));
        r
    }

    /// The URIs of the open documents, in the order in which they were
    /// opened, each once.
    pub fn all_uris(&self) -> (r: Vec<String>)
        ensures
            texts_view(r@) == self.uris(),
            self.uris().no_duplicates(),
            forall|uri: Seq<char>| self.uris().contains(uri) <==> self.documents().contains_key(uri),
    {
        self.documents.key_list()
    }
}

} // verus!
