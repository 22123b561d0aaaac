//! Discovery and caching of per-directory configuration.
//!
//! A directory is a list of path components, the outermost first; the
//! filesystem root is the empty list. Discovery walks from a file's
//! directory towards the root and probes, in each directory, the candidate
//! file names in order. Reading files is the caller's part: the manager
//! says which file to probe next and is told what was found there.

use crate::text::same;
use crate::types::{clone_texts, texts_view};
use dashmap::DashMap;
use std::collections::hash_map::RandomState;
use vstd::prelude::*;

verus! {

/// The setting of one rule.
#[derive(Debug, PartialEq, Eq)]
pub struct RuleSetting {
    /// One of the rule's names.
    pub name: String,
    pub enabled: bool,
    /// The style that the rule is asked to enforce, where it has styles.
    pub style: Option<String>,
}

/// What a rule setting stands for in contracts.
pub struct RuleSettingView {
    pub name: Seq<char>,
    pub enabled: bool,
    pub style: Option<Seq<char>>,
}

impl View for RuleSetting {
    type V = RuleSettingView;

    open spec fn view(&self) -> RuleSettingView {
        RuleSettingView {
            name: self.name@,
            enabled: self.enabled,
            style: crate::types::text_view(self.style),
        }
    }
}

impl Clone for RuleSetting {
    fn clone(&self) -> (r: Self)
        ensures
            r@ == self@,
    {
        RuleSetting {
            name: self.name.clone(),
            enabled: self.enabled,
            style: crate::types::clone_text(&self.style),
        }
    }
}

/// A parsed configuration file: the settings of the rules it names, in the
/// order of the file.
#[derive(Debug, PartialEq, Eq)]
pub struct Config {
    pub rules: Vec<RuleSetting>,
}

/// What a configuration stands for in contracts.
pub struct ConfigView {
    pub rules: Seq<RuleSettingView>,
}

impl View for Config {
    type V = ConfigView;

    open spec fn view(&self) -> ConfigView {
        ConfigView { rules: Seq::new(self.rules@.len(), |i: int| self.rules@[i]@) }
    }
}

impl Clone for Config {
    fn clone(&self) -> (r: Self)
        ensures
            r@ == self@,
    {
        let mut rules: Vec<RuleSetting> = Vec::new();
        let mut i: usize = 0;
        while i < self.rules.len()
            invariant
                i <= self.rules.len(),
                rules.len() == i,
                forall|k: int| 0 <= k < i ==> rules@[k]@ == self.rules@[k]@,
            decreases self.rules.len() - i,
        {
            rules.push(self.rules[i].clone());
            i += 1;
        }
        let r = Config { rules };
        assert(r@.rules =~= self@.rules);
        r
    }
}

/// The view of an optional configuration.
pub open spec fn config_view(o: Option<Config>) -> Option<ConfigView> {
    match o {
        Some(c) => Some(c@),
        None => None,
    }
}

/// A copy of an optional configuration.
pub fn clone_config(o: &Option<Config>) -> (r: Option<Config>)
    ensures
        config_view(r) == config_view(*o),
{
    match o {
        Some(c) => Some(c.clone()),
        None => None,
    }
}

/// Whether directory `dir` is `root` or lies below it.
pub open spec fn nested_under(dir: Seq<Seq<char>>, root: Seq<Seq<char>>) -> bool {
    root.len() <= dir.len() && dir.take(root.len() as int) == root
}

/// Whether directory `dir` is `root` or lies below it.
pub fn is_nested_under(dir: &Vec<String>, root: &Vec<String>) -> (r: bool)
    ensures
        r == nested_under(texts_view(dir@), texts_view(root@)),
{
    if root.len() > dir.len() {
        return false;
    }
    let mut i: usize = 0;
    while i < root.len()
        invariant
            i <= root.len() <= dir.len(),
            forall|k: int| 0 <= k < i ==> dir@[k]@ == root@[k]@,
        decreases root.len() - i,
    {
        if dir[i] != root[i] {
            assert(texts_view(dir@).take(root@.len() as int)[i as int] != texts_view(root@)[i as int]);
            return false;
        }
        i += 1;
    }
    assert(texts_view(dir@).take(root@.len() as int) =~= texts_view(root@));
    true
}

/// Whether directory `dir` lies outside the tree of `root`: whether it is
/// neither `root` nor below it.
pub fn is_outside(dir: &Vec<String>, root: &Vec<String>) -> (r: bool)
    ensures
        r == !nested_under(texts_view(dir@), texts_view(root@)),
{
    !is_nested_under(dir, root)
}

/// Whether two directories are the same.
pub fn same_dir(a: &Vec<String>, b: &Vec<String>) -> (r: bool)
    ensures
        r == (texts_view(a@) == texts_view(b@)),
{
    if a.len() != b.len() {
        return false;
    }
    let r = is_nested_under(a, b);
    assert(texts_view(a@).take(b@.len() as int) =~= texts_view(a@));
    r
}

/// `dashmap::DashMap`, a hash map that can be shared between threads.
#[verifier::external_type_specification]
#[verifier::external_body]
#[verifier::reject_recursive_types(K)]
#[verifier::reject_recursive_types(V)]
#[verifier::reject_recursive_types(S)]
pub struct ExDashMap<K, V, S>(DashMap<K, V, S>);

/// What a cache holds: for each directory searched, what was found for it.
pub uninterp spec fn cache_contents(
    cache: DashMap<Vec<String>, Option<Config>, RandomState>,
) -> Map<Seq<Seq<char>>, Option<ConfigView>>;

/// The contents of an empty cache.
pub open spec fn no_entries() -> Map<Seq<Seq<char>>, Option<ConfigView>> {
    Map::empty()
}

/// `DashMap::new` makes a map without entries.
#[verifier::external_body]
fn cache_new() -> (cache: DashMap<Vec<String>, Option<Config>, RandomState>)
    ensures
        cache_contents(cache) == no_entries(),
{
    DashMap::new()
}

/// `DashMap::get` finds the entry of a key, if the map has one; the value
/// is handed out as a copy.
#[verifier::external_body]
fn cache_get(cache: &DashMap<Vec<String>, Option<Config>, RandomState>, dir: &Vec<String>) -> (r:
    Option<Option<Config>>)
    ensures
        match r {
            Some(found) => cache_contents(*cache).contains_key(texts_view(dir@)) && config_view(
                found,
            ) == cache_contents(*cache)[texts_view(dir@)],
            None => !cache_contents(*cache).contains_key(texts_view(dir@)),
        },
{
    cache.get(dir).map(|entry| entry.value().clone())
}

/// `DashMap::insert` sets the value of a key, in place of the old one where
/// the map had the key.
#[verifier::external_body]
fn cache_insert(
    cache: &mut DashMap<Vec<String>, Option<Config>, RandomState>,
    dir: Vec<String>,
    found: Option<Config>,
)
    ensures
        cache_contents(*final(cache)) == cache_contents(*old(cache)).insert(
            texts_view(dir@),
            config_view(found),
        ),
{
    cache.insert(dir, found);
}

/// `DashMap::remove` takes the entry of a key out of the map, if it has
/// one.
#[verifier::external_body]
fn cache_remove(cache: &mut DashMap<Vec<String>, Option<Config>, RandomState>, dir: &Vec<String>)
    ensures
        cache_contents(*final(cache)) == cache_contents(*old(cache)).remove(texts_view(dir@)),
{
    cache.remove(dir);
}

/// `DashMap::retain` keeps the entries for which the closure returns true
/// and drops the others; here it keeps the directories that lie outside
/// the tree of `root`.
#[verifier::external_body]
fn cache_drop_tree(cache: &mut DashMap<Vec<String>, Option<Config>, RandomState>, root: &Vec<String>)
    ensures
        cache_contents(*final(cache)) == cache_contents(*old(cache)).remove_keys(
            Set::new(|dir: Seq<Seq<char>>| nested_under(dir, texts_view(root@))),
        ),
{
    cache.retain(|dir, _| is_outside(dir, root));
}

/// `DashMap::clear` removes every entry.
#[verifier::external_body]
fn cache_clear(cache: &mut DashMap<Vec<String>, Option<Config>, RandomState>)
    ensures
        cache_contents(*final(cache)) == no_entries(),
{
    cache.clear();
}

/// `DashMap::len` counts the entries.
#[verifier::external_body]
fn cache_len(cache: &DashMap<Vec<String>, Option<Config>, RandomState>) -> (n: usize)
    ensures
        n == cache_contents(*cache).len(),
{
    cache.len()
}

/// The file names that may hold a configuration, in the order in which a
/// directory is probed for them.
pub open spec fn candidate_names() -> Seq<Seq<char>> {
    seq![
        ".markdownlint.json"@,
        ".markdownlint.jsonc"@,
        ".markdownlint.yaml"@,
        ".markdownlint.yml"@,
        ".markdownlintrc"@,
    ]
}

/// The number of candidate file names.
pub const CANDIDATE_COUNT: usize = 5;

/// The candidate file name number `i`; the last one for any larger `i`.
pub fn candidate_name(i: usize) -> (r: &'static str)
    ensures
        r@ == candidate_names()[if i < CANDIDATE_COUNT {
            i as int
        } else {
            CANDIDATE_COUNT - 1
        }],
{
    if i == 0 {
        ".markdownlint.json"
    } else if i == 1 {
        ".markdownlint.jsonc"
    } else if i == 2 {
        ".markdownlint.yaml"
    } else if i == 3 {
        ".markdownlint.yml"
    } else {
        ".markdownlintrc"
    }
}

/// A search under way: the directory it is for, the directory it has
/// reached, and the number of the candidate to probe there.
#[derive(Debug, PartialEq, Eq)]
pub struct Search {
    pub start: Vec<String>,
    pub current: Vec<String>,
    pub candidate: usize,
}

/// What a search stands for in contracts.
pub struct SearchView {
    pub start: Seq<Seq<char>>,
    pub current: Seq<Seq<char>>,
    pub candidate: int,
}

impl View for Search {
    type V = SearchView;

    open spec fn view(&self) -> SearchView {
        SearchView {
            start: texts_view(self.start@),
            current: texts_view(self.current@),
            candidate: self.candidate as int,
        }
    }
}

/// What the manager answers: the configuration of the directory, or the
/// file to probe next.
#[derive(Debug, PartialEq, Eq)]
pub enum Discovery {
    /// The search is over: the configuration found, or none.
    Done(Option<Config>),
    /// The caller is to probe candidate `candidate` in directory `current`
    /// and to hand the outcome to `resume`.
    Probe(Search),
}

/// How a search goes on once a probe is answered.
pub enum Step {
    Finished(Option<ConfigView>),
    Continue(SearchView),
}

/// Whether `dir` is one of `roots`.
pub open spec fn is_root(roots: Seq<Seq<Seq<char>>>, dir: Seq<Seq<char>>) -> bool {
    exists|k: int| 0 <= k < roots.len() && roots[k] == dir
}

/// The step after a probe.
///
/// A configuration that was found ends the search. Otherwise the next
/// candidate of the directory is probed; after the last one the search ends
/// without a result where the directory is a workspace root or the
/// filesystem root, and else moves to the parent directory.
pub open spec fn next_step(
    roots: Seq<Seq<Seq<char>>>,
    search: SearchView,
    found: Option<ConfigView>,
) -> Step {
    if found is Some {
        Step::Finished(found)
    } else if search.candidate + 1 < CANDIDATE_COUNT {
        Step::Continue(SearchView { candidate: search.candidate + 1, ..search })
    } else if is_root(roots, search.current) || search.current.len() == 0 {
        Step::Finished(None)
    } else {
        Step::Continue(
            SearchView { start: search.start, current: search.current.drop_last(), candidate: 0 },
        )
    }
}

/// Discovers and caches the configuration of directories.
pub struct ConfigManager {
    cache: DashMap<Vec<String>, Option<Config>, RandomState>,
    /// The directories at which a search stops.
    pub workspace_roots: Vec<Vec<String>>,
}

/// The views of a list of directories.
pub open spec fn dirs_view(v: Seq<Vec<String>>) -> Seq<Seq<Seq<char>>> {
    Seq::new(v.len(), |i: int| texts_view(v[i]@))
}

impl ConfigManager {
    /// What is cached: for each directory searched, what was found.
    pub closed spec fn cached(&self) -> Map<Seq<Seq<char>>, Option<ConfigView>> {
        cache_contents(self.cache)
    }

    /// The workspace roots.
    pub closed spec fn roots(&self) -> Seq<Seq<Seq<char>>> {
        dirs_view(self.workspace_roots@)
    }

    /// A manager with an empty cache.
    pub fn new(workspace_roots: Vec<Vec<String>>) -> (r: Self)
        ensures
            r.cached() == no_entries(),
            r.roots() == dirs_view(workspace_roots@),
    {
        ConfigManager { cache: cache_new(), workspace_roots }
    }

    /// Begins the discovery for the file at `file`, a path given by its
    /// components.
    ///
    /// A path without components has no directory: the answer is `Done`
    /// without a configuration. Where the file's directory is cached, the
    /// answer is what is cached. Otherwise the first candidate of the file's
    /// directory is to be probed. The cache is not changed.
    pub fn discover_config(&self, file: &Vec<String>) -> (r: Discovery)
        ensures
            file@.len() == 0 ==> r == Discovery::Done(None),
            file@.len() > 0 ==> {
                let dir = texts_view(file@).drop_last();
                match r {
                    Discovery::Done(found) => self.cached().contains_key(dir) && config_view(found)
                        == self.cached()[dir],
                    Discovery::Probe(search) => !self.cached().contains_key(dir) && search@ == (
                    SearchView { start: dir, current: dir, candidate: 0 }),
                }
            },
    {
        if file.len() == 0 {
            return Discovery::Done(None);
        }
        let mut dir = clone_texts(file);
        dir.pop();
        assert(texts_view(dir@) =~= texts_view(file@).drop_last());
        match cache_get(&self.cache, &dir) {
            Some(found) => Discovery::Done(found),
            None => {
                let current = clone_texts(&dir);
                Discovery::Probe(Search { start: dir, current, candidate: 0 })
            },
        }
    }

    /// Whether `dir` is one of the workspace roots.
    pub fn is_workspace_root(&self, dir: &Vec<String>) -> (r: bool)
        ensures
            r == is_root(self.roots(), texts_view(dir@)),
    {
        let mut k: usize = 0;
        while k < self.workspace_roots.len()
            invariant
                k <= self.workspace_roots.len(),
                forall|j: int| 0 <= j < k ==> self.roots()[j] != texts_view(dir@),
            decreases self.workspace_roots.len() - k,
        {
            if same_dir(&self.workspace_roots[k], dir) {
                assert(self.roots()[k as int] == texts_view(dir@));
                return true;
            }
            k += 1;
        }
        false
    }

    /// Goes on with a search once its probe is answered: `found` is the
    /// configuration read from the probed file, or `None` where the file
    /// does not exist or does not parse.
    ///
    /// The search goes on as `next_step` says. When it ends, the result is
    /// cached for the directory the search was for.
    pub fn resume(&mut self, search: Search, found: Option<Config>) -> (r: Discovery)
        ensures
            final(self).roots() == old(self).roots(),
            match next_step(old(self).roots(), search@, config_view(found)) {
                Step::Finished(result) => r matches Discovery::Done(c) && config_view(c) == result
                    && final(self).cached() == old(self).cached().insert(search@.start, result),
                Step::Continue(next) => r matches Discovery::Probe(s) && s@ == next
                    && final(self).cached() == old(self).cached(),
            },
    {
        if found.is_some() {
            let copy = clone_config(&found);
            cache_insert(&mut self.cache, search.start, found);
            return Discovery::Done(copy);
        }
        if search.candidate < CANDIDATE_COUNT - 1 {
            return Discovery::Probe(
                Search {
                    start: search.start,
                    current: search.current,
                    candidate: search.candidate + 1,
                },
            );
        }
        if self.is_workspace_root(&search.current) || search.current.len() == 0 {
            cache_insert(&mut self.cache, search.start, None);
            return Discovery::Done(None);
        }
        let mut parent = search.current;
        let ghost before = texts_view(parent@);
        parent.pop();
        assert(texts_view(parent@) =~= before.drop_last());
        Discovery::Probe(Search { start: search.start, current: parent, candidate: 0 })
    }

    /// Forgets what is cached for `path`.
    pub fn invalidate(&mut self, path: &Vec<String>)
        ensures
            final(self).roots() == old(self).roots(),
            final(self).cached() == old(self).cached().remove(texts_view(path@)),
    {
        cache_remove(&mut self.cache, path);
    }

    /// Forgets what is cached for `root` and for every directory below it.
    /// Every other entry stays as it is.
    pub fn invalidate_tree(&mut self, root: &Vec<String>)
        ensures
            final(self).roots() == old(self).roots(),
            forall|dir: Seq<Seq<char>>|
                final(self).cached().contains_key(dir) <==> old(self).cached().contains_key(dir)
                    && !nested_under(dir, texts_view(root@)),
            forall|dir: Seq<Seq<char>>|
                final(self).cached().contains_key(dir) ==> final(self).cached()[dir] == old(self).cached()[dir],
    {
        cache_drop_tree(&mut self.cache, root);
    }

    /// Forgets everything that is cached.
    pub fn clear_cache(&mut self)
        ensures
            final(self).roots() == old(self).roots(),
            final(self).cached() == no_entries(),
    {
        cache_clear(&mut self.cache);
    }

    /// The number of directories for which something is cached.
    pub fn cache_size(&self) -> (n: usize)
        ensures
            n == self.cached().len(),
    {
        cache_len(&self.cache)
    }
}

/// The search that begins in `dir`.
pub open spec fn fresh_search(dir: Seq<Seq<char>>) -> SearchView {
    SearchView { start: dir, current: dir, candidate: 0 }
}

/// What a search ends with when every probe is answered by `files`, which
/// gives for a directory and a candidate number the configuration that is
/// read there.
pub open spec fn search_result(
    roots: Seq<Seq<Seq<char>>>,
    files: spec_fn(Seq<Seq<char>>, int) -> Option<ConfigView>,
    search: SearchView,
) -> Option<ConfigView>
    decreases search.current.len(), CANDIDATE_COUNT - search.candidate,
{
    match next_step(roots, search, files(search.current, search.candidate)) {
        Step::Finished(result) => result,
        Step::Continue(next) => search_result(roots, files, next),
    }
}

/// What a discovery for `file` returns and leaves in the cache, when every
/// probe is answered by `files`.
pub open spec fn discovered(
    cache: Map<Seq<Seq<char>>, Option<ConfigView>>,
    roots: Seq<Seq<Seq<char>>>,
    files: spec_fn(Seq<Seq<char>>, int) -> Option<ConfigView>,
    file: Seq<Seq<char>>,
) -> (Option<ConfigView>, Map<Seq<Seq<char>>, Option<ConfigView>>) {
    if file.len() == 0 {
        (None, cache)
    } else {
        let dir = file.drop_last();
        if cache.contains_key(dir) {
            (cache[dir], cache)
        } else {
            let result = search_result(roots, files, fresh_search(dir));
            (result, cache.insert(dir, result))
        }
    }
}

/// Discovery is idempotent: a second discovery for a file of the same
/// directory, with the files unchanged, returns what the first returned
/// and leaves the cache as the first left it; the first adds no entry but
/// that of the directory.
pub proof fn lemma_discovery_is_idempotent(
    cache: Map<Seq<Seq<char>>, Option<ConfigView>>,
    roots: Seq<Seq<Seq<char>>>,
    files: spec_fn(Seq<Seq<char>>, int) -> Option<ConfigView>,
    file: Seq<Seq<char>>,
    sibling: Seq<Seq<char>>,
)
    requires
        file.len() > 0,
        sibling.len() > 0,
        sibling.drop_last() == file.drop_last(),
    ensures
        ({
            let first = discovered(cache, roots, files, file);
            let second = discovered(first.1, roots, files, sibling);
            &&& second.0 == first.0
            &&& second.1 == first.1
            &&& first.1.dom() == cache.dom().insert(file.drop_last())
        }),
{
    let first = discovered(cache, roots, files, file);
    assert(first.1.dom() =~= cache.dom().insert(file.drop_last()));
}

/// Whether `dir` is one of `roots` or lies below one.
pub open spec fn within_roots(roots: Seq<Seq<Seq<char>>>, dir: Seq<Seq<char>>) -> bool {
    exists|k: int| 0 <= k < roots.len() && nested_under(dir, #[trigger] roots[k])
}

/// A directory of which every workspace root is a proper descendant lies
/// within none of them.
pub proof fn lemma_above_roots_is_outside(roots: Seq<Seq<Seq<char>>>, dir: Seq<Seq<char>>)
    requires
        forall|k: int|
            0 <= k < roots.len() ==> nested_under(#[trigger] roots[k], dir) && roots[k] != dir,
    ensures
        !within_roots(roots, dir),
{
    if within_roots(roots, dir) {
        let k = choose|k: int| 0 <= k < roots.len() && nested_under(dir, #[trigger] roots[k]);
        assert(nested_under(roots[k], dir));
        assert(roots[k].take(dir.len() as int) =~= roots[k]);
    }
}

/// A search that has reached a directory within the workspace roots does
/// not leave them.
pub proof fn lemma_search_stays_within_roots(
    roots: Seq<Seq<Seq<char>>>,
    search: SearchView,
    found: Option<ConfigView>,
)
    requires
        within_roots(roots, search.current),
    ensures
        next_step(roots, search, found) matches Step::Continue(next) ==> within_roots(
            roots,
            next.current,
        ),
{
    match next_step(roots, search, found) {
        Step::Continue(next) => {
            if next.current != search.current {
                let k = choose|k: int|
                    0 <= k < roots.len() && nested_under(search.current, #[trigger] roots[k]);
                let root = roots[k];
                assert(root != search.current);
                if root.len() == search.current.len() {
                    assert(search.current.take(root.len() as int) =~= search.current);
                }
                assert(next.current.take(root.len() as int) =~= search.current.take(
                    root.len() as int,
                ));
                assert(nested_under(next.current, roots[k]));
            }
        },
        Step::Finished(_) => {},
    }
}

/// Files outside the workspace roots are never discovered from within
/// them: a search that begins within the roots ends the same whatever is
/// found in directories that lie within none of them.
pub proof fn lemma_outside_is_never_discovered(
    roots: Seq<Seq<Seq<char>>>,
    files: spec_fn(Seq<Seq<char>>, int) -> Option<ConfigView>,
    others: spec_fn(Seq<Seq<char>>, int) -> Option<ConfigView>,
    search: SearchView,
)
    requires
        within_roots(roots, search.current),
        forall|dir: Seq<Seq<char>>, candidate: int|
            within_roots(roots, dir) ==> #[trigger] files(dir, candidate) == others(dir, candidate),
    ensures
        search_result(roots, files, search) == search_result(roots, others, search),
    decreases search.current.len(), CANDIDATE_COUNT - search.candidate,
{
    let found = files(search.current, search.candidate);
    assert(found == others(search.current, search.candidate));
    lemma_search_stays_within_roots(roots, search, found);
    match next_step(roots, search, found) {
        Step::Continue(next) => {
            lemma_outside_is_never_discovered(roots, files, others, next);
        },
        Step::Finished(_) => {},
    }
}

/// A configuration file that was read: the directory it is in, the number
/// of the candidate name it has, and what it holds.
#[derive(Debug, PartialEq, Eq)]
pub struct ConfigFile {
    pub dir: Vec<String>,
    pub candidate: usize,
    pub config: Config,
}

/// What the table `files` holds for a directory and a candidate number:
/// the first entry for them.
pub open spec fn table_entry(files: Seq<ConfigFile>, dir: Seq<Seq<char>>, candidate: int) -> Option<
    ConfigView,
>
    decreases files.len(),
{
    if files.len() == 0 {
        None
    } else if texts_view(files[0].dir@) == dir && files[0].candidate == candidate {
        Some(files[0].config@)
    } else {
        table_entry(files.drop_first(), dir, candidate)
    }
}

/// A table of files as an answer to every probe.
pub open spec fn table_of(files: Seq<ConfigFile>) -> spec_fn(Seq<Seq<char>>, int) -> Option<
    ConfigView,
> {
    |dir: Seq<Seq<char>>, candidate: int| table_entry(files, dir, candidate)
}

/// Looks a directory and a candidate number up in a table of files.
pub fn probe_table(files: &Vec<ConfigFile>, dir: &Vec<String>, candidate: usize) -> (r: Option<
    Config,
>)
    ensures
        config_view(r) == table_entry(files@, texts_view(dir@), candidate as int),
{
    let mut i: usize = 0;
    assert(files@.skip(0) =~= files@);
    while i < files.len()
        invariant
            i <= files.len(),
            table_entry(files@, texts_view(dir@), candidate as int) == table_entry(
                files@.skip(i as int),
                texts_view(dir@),
                candidate as int,
            ),
        decreases files.len() - i,
    {
        assert(files@.skip(i as int).drop_first() =~= files@.skip(i + 1));
        if files[i].candidate == candidate && same_dir(&files[i].dir, dir) {
            return Some(files[i].config.clone());
        }
        i += 1;
    }
    None
}

impl ConfigManager {
    /// Discovers the configuration for `file` among the files of a table,
    /// and caches it.
    pub fn discover_in(&mut self, file: &Vec<String>, files: &Vec<ConfigFile>) -> (r: Option<
        Config,
    >)
        ensures
            final(self).roots() == old(self).roots(),
            (config_view(r), final(self).cached()) == discovered(
                old(self).cached(),
                old(self).roots(),
                table_of(files@),
                texts_view(file@),
            ),
    {
        let ghost table = table_of(files@);
        let ghost roots = self.roots();
        let ghost dir = texts_view(file@).take(file@.len() - 1);
        let mut search = match self.discover_config(file) {
            Discovery::Done(found) => { return found; },
            Discovery::Probe(search) => search,
        };
        loop
            invariant
                self.roots() == roots,
                roots == old(self).roots(),
                self.cached() == old(self).cached(),
                file@.len() > 0,
                dir == texts_view(file@).drop_last(),
                !old(self).cached().contains_key(dir),
                search@.start == dir,
                search_result(roots, table, search@) == search_result(
                    roots,
                    table,
                    fresh_search(dir),
                ),
                table == table_of(files@),
            decreases search@.current.len(), CANDIDATE_COUNT - search@.candidate,
        {
            let found = probe_table(files, &search.current, search.candidate);
            assert(config_view(found) == table(search@.current, search@.candidate));
            match self.resume(search, found) {
                Discovery::Done(result) => { return result; },
                Discovery::Probe(next) => {
                    search = next;
                },
            }
        }
    }
}

} // verus!
