//! A lazily filled index from recipe names to recipe files under a base
//! directory.
//!
//! The directory walk itself is done by the caller: it asks the index where
//! to look, and hands back what it found, one step at a time. The index
//! keeps every recipe file seen (by stem), and every name known to be
//! missing, so that no entry of the walk is visited twice and a missing
//! name never starts another walk.
use vstd::prelude::*;
use vstd::string::*;

use crate::text::{chars_lt, lemma_chars_lt_irrefl, lemma_chars_lt_total, str_eq, str_less};
use crate::paths::{
    extension, file_name, file_stem, join, path_extension, path_file_name, path_file_stem,
    path_join, path_with_extension, with_extension,
};

verus! {

/// An entry of a directory walk.
pub struct DirEntry {
    path: String,
    depth: usize,
    is_file: bool,
    is_dir: bool,
}

/// What the index needs to know of a walk entry.
pub struct EntryView {
    pub path: Seq<char>,
    pub is_file: bool,
}

/// The extension of recipe files.
pub open spec fn cook_ext() -> Seq<char> {
    seq!['c', 'o', 'o', 'k']
}

/// A recipe file: a file with the recipe extension.
pub open spec fn is_recipe_file(e: EntryView) -> bool {
    e.is_file && path_extension(e.path) == Some(cook_ext())
}

/// The name a walk entry is indexed under: its stem, or its whole path
/// when it has none.
pub open spec fn entry_stem(p: Seq<char>) -> Seq<char> {
    match path_file_stem(p) {
        Some(s) => s,
        None => p,
    }
}

impl DirEntry {
    pub open spec fn spec_view(&self) -> EntryView {
        EntryView { path: self.spec_path()@, is_file: self.spec_is_file() }
    }

    pub closed spec fn spec_path(&self) -> String {
        self.path
    }

    pub closed spec fn spec_is_file(&self) -> bool {
        self.is_file
    }

    pub closed spec fn spec_is_dir(&self) -> bool {
        self.is_dir
    }

    pub closed spec fn spec_depth(&self) -> usize {
        self.depth
    }

    pub fn new(path: String, depth: usize, is_file: bool, is_dir: bool) -> (r: DirEntry)
        ensures
            r.spec_path() == path,
            r.spec_depth() == depth,
            r.spec_is_file() == is_file,
            r.spec_is_dir() == is_dir,
    {
        DirEntry { path, depth, is_file, is_dir }
    }

    /// The last component of the path, or the whole path.
    pub fn file_name(&self) -> (r: String)
        ensures
            r@ == (match path_file_name(self.spec_path()@) {
                Some(n) => n,
                None => self.spec_path()@,
            }),
    {
        match file_name(self.path.as_str()) {
            Some(n) => n,
            None => self.path.clone(),
        }
    }

    /// The stem of the path, or the whole path.
    pub fn file_stem(&self) -> (r: String)
        ensures
            r@ == entry_stem(self.spec_path()@),
    {
        match file_stem(self.path.as_str()) {
            Some(n) => n,
            None => self.path.clone(),
        }
    }

    pub fn depth(&self) -> (r: usize)
        ensures
            r == self.spec_depth(),
    {
        self.depth
    }

    pub fn path(&self) -> (r: &str)
        ensures
            r@ == self.spec_path()@,
    {
        self.path.as_str()
    }

    pub fn is_file(&self) -> (r: bool)
        ensures
            r == self.spec_is_file(),
    {
        self.is_file
    }

    pub fn is_dir(&self) -> (r: bool)
        ensures
            r == self.spec_is_dir(),
    {
        self.is_dir
    }

    /// Whether the entry is a recipe file.
    pub fn is_recipe(&self) -> (r: bool)
        ensures
            r == is_recipe_file(self.spec_view()),
    {
        if !self.is_file {
            return false;
        }
        proof {
            reveal_strlit("cook");
            assert("cook"@ =~= cook_ext());
        }
        match extension(self.path.as_str()) {
            Some(e) => str_eq(e.as_str(), "cook"),
            None => false,
        }
    }
}

/// The order of a directory walk: files before directories, and by name
/// within each kind. Negative when `a` comes first, zero when they tie.
pub fn entry_order(a_is_file: bool, a_name: &str, b_is_file: bool, b_name: &str) -> (r: i8)
    ensures
        a_is_file && !b_is_file ==> r == -1,
        !a_is_file && b_is_file ==> r == 1,
        a_is_file == b_is_file ==> (r == -1 <==> chars_lt(a_name@, b_name@)) && (r == 0 <==> a_name@
            == b_name@) && (r == 1 <==> chars_lt(b_name@, a_name@)),
{
    if a_is_file && !b_is_file {
        -1
    } else if !a_is_file && b_is_file {
        1
    } else if str_eq(a_name, b_name) {
        proof {
            lemma_chars_lt_irrefl(a_name@);
        }
        0
    } else if str_less(a_name, b_name) {
        proof {
            lemma_chars_lt_total(a_name@, b_name@);
        }
        -1
    } else {
        proof {
            lemma_chars_lt_total(a_name@, b_name@);
        }
        1
    }
}

/// A recipe file that the index resolved a name to.
pub struct RecipeEntry(String);

/// A walk entry that is no recipe file.
pub struct NotRecipe(pub DirEntry);

/// A path that is not valid UTF-8, shown lossily.
pub struct NonUtf8(pub String);

/// Why a lookup failed.
pub enum Error {
    NotFound(String),
    /// The walk failed; holds its message.
    Walk(String),
    Canonicalize(String),
    InvalidName(String),
    NonUtf8(NonUtf8),
}

impl RecipeEntry {
    pub closed spec fn spec_path(&self) -> Seq<char> {
        self.0@
    }

    pub fn path(&self) -> (r: &str)
        ensures
            r@ == self.spec_path(),
    {
        self.0.as_str()
    }

    /// The recipe behind a walk entry, when it is a recipe file.
    pub fn from_entry(entry: DirEntry) -> (r: Result<RecipeEntry, NotRecipe>)
        ensures
            is_recipe_file(entry.spec_view()) ==> r is Ok && r->Ok_0.spec_path() == entry.spec_path()@,
            !is_recipe_file(entry.spec_view()) ==> r is Err && r->Err_0.0 == entry,
    {
        if entry.is_recipe() {
            Ok(RecipeEntry(entry.path))
        } else {
            Err(NotRecipe(entry))
        }
    }
}

/// The text of a recipe file, with the path it was read from.
pub struct RecipeContent {
    content: String,
    path: String,
}

impl RecipeContent {
    pub closed spec fn spec_text(&self) -> Seq<char> {
        self.content@
    }

    pub closed spec fn spec_path(&self) -> Seq<char> {
        self.path@
    }

    pub fn new(content: String, path: String) -> (r: RecipeContent)
        ensures
            r.spec_text() == content@,
            r.spec_path() == path@,
    {
        RecipeContent { content, path }
    }

    pub fn text(&self) -> (r: &str)
        ensures
            r@ == self.spec_text(),
    {
        self.content.as_str()
    }

    pub fn path(&self) -> (r: &str)
        ensures
            r@ == self.spec_path(),
    {
        self.path.as_str()
    }

    /// The recipe's name, its file stem, which the parser is given.
    pub fn name(&self) -> (r: Option<String>)
        ensures
            match path_file_stem(self.spec_path()) {
                Some(n) => r is Some && r->Some_0@ == n,
                None => r is None,
            },
    {
        file_stem(self.path.as_str())
    }
}

/// Where a lookup stands, as seen by the contracts.
pub enum Outcome {
    Found(Seq<char>),
    NotFound(Seq<char>),
    InvalidName(Seq<char>),
    /// Look whether this file exists, then call `probed`.
    Probe(Seq<char>),
    /// Hand the next walk entry to `walked`, or call `walk_ended`.
    Walk,
}

/// What a lookup step asks of its caller, or its result.
pub enum Step {
    Found(RecipeEntry),
    Failed(Error),
    Probe(String),
    Walk,
}

impl Step {
    pub open spec fn outcome(self) -> Option<Outcome> {
        match self {
            Step::Found(e) => Some(Outcome::Found(e.spec_path())),
            Step::Failed(Error::NotFound(n)) => Some(Outcome::NotFound(n@)),
            Step::Failed(Error::InvalidName(n)) => Some(Outcome::InvalidName(n@)),
            Step::Probe(p) => Some(Outcome::Probe(p@)),
            Step::Walk => Some(Outcome::Walk),
            _ => None,
        }
    }
}

/// The state of an index: its base, the recipe files seen as (stem, path)
/// in the order seen, the names known to be missing, and how many walk
/// entries it has been handed.
pub struct IndexView {
    pub base: Seq<char>,
    pub cache: Seq<(Seq<char>, Seq<char>)>,
    pub absent: Seq<Seq<char>>,
    pub visited: nat,
}

/// The file that a name stands for when read as a path under `base`.
pub open spec fn probe_path(base: Seq<char>, name: Seq<char>) -> Seq<char> {
    path_with_extension(path_join(base, name), cook_ext())
}

/// A name without a directory part.
pub open spec fn is_bare(name: Seq<char>) -> bool {
    !name.contains('/')
}

/// A cached path answers a lookup of `name`: it is the name itself, or the
/// file the name stands for under `base`, or the name has no directory
/// part (so any file of that stem will do).
pub open spec fn path_matches(base: Seq<char>, name: Seq<char>, p: Seq<char>) -> bool {
    p == name || p == probe_path(base, name) || is_bare(name)
}

/// The first cached path, at or after `i`, of stem `stem` that answers `name`.
pub open spec fn find_from(v: IndexView, stem: Seq<char>, name: Seq<char>, i: int) -> Option<Seq<char>>
    decreases v.cache.len() - i,
{
    if i < 0 || i >= v.cache.len() {
        None
    } else if v.cache[i].0 == stem && path_matches(v.base, name, v.cache[i].1) {
        Some(v.cache[i].1)
    } else {
        find_from(v, stem, name, i + 1)
    }
}

impl IndexView {
    pub open spec fn find(self, stem: Seq<char>, name: Seq<char>) -> Option<Seq<char>> {
        find_from(self, stem, name, 0)
    }

    /// The first step of a lookup: an invalid name, a cached answer, a name
    /// known to be missing, or else the file to probe.
    pub open spec fn start(self, name: Seq<char>) -> Outcome {
        match path_file_stem(name) {
            None => Outcome::InvalidName(name),
            Some(stem) => match self.find(stem, name) {
                Some(p) => Outcome::Found(p),
                None => if self.absent.contains(name) {
                    Outcome::NotFound(name)
                } else {
                    Outcome::Probe(probe_path(self.base, name))
                },
            },
        }
    }

    /// After the probe: the probed file, cached, if it exists; else walk.
    pub open spec fn probed(self, name: Seq<char>, exists: bool) -> (IndexView, Outcome) {
        let p = probe_path(self.base, name);
        if exists {
            (
                IndexView { cache: self.cache.push((path_file_stem(name)->Some_0, p)), ..self },
                Outcome::Found(p),
            )
        } else {
            (self, Outcome::Walk)
        }
    }

    /// After one walk entry: a recipe file is cached, and answers the
    /// lookup when its stem is the name's.
    pub open spec fn walked(self, name: Seq<char>, e: EntryView) -> (IndexView, Outcome) {
        let s1 = IndexView { visited: self.visited + 1, ..self };
        if is_recipe_file(e) {
            let s2 = IndexView { cache: s1.cache.push((entry_stem(e.path), e.path)), ..s1 };
            if entry_stem(e.path) == path_file_stem(name)->Some_0 {
                (s2, Outcome::Found(e.path))
            } else {
                (s2, Outcome::Walk)
            }
        } else {
            (s1, Outcome::Walk)
        }
    }

    /// After the walk ended without an answer: the name is missing.
    pub open spec fn ended(self, name: Seq<char>) -> IndexView {
        IndexView { absent: self.absent.push(name), ..self }
    }
}

/// The index of a directory of recipes.
pub struct FsIndex {
    base_path: String,
    max_depth: usize,
    cache: Vec<(String, String)>,
    non_existent: Vec<String>,
    visited: usize,
}

pub open spec fn pair_views(v: Seq<(String, String)>) -> Seq<(Seq<char>, Seq<char>)> {
    v.map_values(|x: (String, String)| (x.0@, x.1@))
}

pub open spec fn str_views(v: Seq<String>) -> Seq<Seq<char>> {
    v.map_values(|x: String| x@)
}

impl View for FsIndex {
    type V = IndexView;

    closed spec fn view(&self) -> IndexView {
        IndexView {
            base: self.base_path@,
            cache: pair_views(self.cache@),
            absent: str_views(self.non_existent@),
            visited: self.visited as nat,
        }
    }
}

fn has_slash(s: &str) -> (r: bool)
    ensures
        r == s@.contains('/'),
{
    let n = s.unicode_len();
    let mut i: usize = 0;
    while i < n
        invariant
            n == s@.len(),
            i <= n,
            forall|j: int| 0 <= j < i ==> s@[j] != '/',
        decreases n - i,
    {
        if s.get_char(i) == '/' {
            assert(s@[i as int] == '/');
            return true;
        }
        i = i + 1;
    }
    false
}

impl FsIndex {
    pub closed spec fn spec_max_depth(&self) -> usize {
        self.max_depth
    }

    /// An empty index of the recipes under `base_path`, down to `max_depth`.
    pub fn new(base_path: &str, max_depth: usize) -> (r: FsIndex)
        ensures
            r@ == (IndexView { base: base_path@, cache: seq![], absent: seq![], visited: 0 }),
            r.spec_max_depth() == max_depth,
    {
        let r = FsIndex {
            base_path: String::from_str(base_path),
            max_depth,
            cache: Vec::new(),
            non_existent: Vec::new(),
            visited: 0,
        };
        assert(pair_views(r.cache@) =~= seq![]);
        assert(str_views(r.non_existent@) =~= seq![]);
        r
    }

    pub fn base_path(&self) -> (r: &str)
        ensures
            r@ == self@.base,
    {
        self.base_path.as_str()
    }

    pub fn max_depth(&self) -> (r: usize)
        ensures
            r == self.spec_max_depth(),
    {
        self.max_depth
    }

    /// How many walk entries the index has been handed.
    pub fn visited(&self) -> (r: usize)
        ensures
            r == self@.visited,
    {
        self.visited
    }

    fn probe_path(&self, name: &str) -> (r: String)
        ensures
            r@ == probe_path(self@.base, name@),
    {
        proof {
            reveal_strlit("cook");
            assert("cook"@ =~= cook_ext());
            assert(!cook_ext().contains('/')) by {
                if cook_ext().contains('/') {
                    let k = choose|k: int| 0 <= k < cook_ext().len() && cook_ext()[k] == '/';
                }
            }
        }
        let joined = join(self.base_path.as_str(), name);
        with_extension(joined.as_str(), "cook")
    }

    fn find(&self, stem: &str, name: &str) -> (r: Option<String>)
        ensures
            match self@.find(stem@, name@) {
                Some(p) => r is Some && r->Some_0@ == p,
                None => r is None,
            },
    {
        let probe = self.probe_path(name);
        let bare = !has_slash(name);
        let mut i: usize = 0;
        while i < self.cache.len()
            invariant
                i <= self.cache@.len(),
                probe@ == probe_path(self@.base, name@),
                bare == is_bare(name@),
                self@.cache == pair_views(self.cache@),
                find_from(self@, stem@, name@, 0) == find_from(self@, stem@, name@, i as int),
            decreases self.cache.len() - i,
        {
            let (s, p) = &self.cache[i];
            if str_eq(s.as_str(), stem) && (str_eq(p.as_str(), name) || str_eq(p.as_str(), probe.as_str()) || bare) {
                return Some(p.clone());
            }
            i = i + 1;
        }
        None
    }

    fn is_absent(&self, name: &str) -> (r: bool)
        ensures
            r == self@.absent.contains(name@),
    {
        let mut i: usize = 0;
        while i < self.non_existent.len()
            invariant
                i <= self.non_existent@.len(),
                self@.absent == str_views(self.non_existent@),
                forall|j: int| 0 <= j < i ==> self@.absent[j] != name@,
            decreases self.non_existent.len() - i,
        {
            if str_eq(self.non_existent[i].as_str(), name) {
                assert(self@.absent[i as int] == name@);
                return true;
            }
            i = i + 1;
        }
        false
    }

    /// The first step of a lookup of `recipe`, a name or a path relative to
    /// the base. Touches nothing: a cached answer or a known miss costs no
    /// walking.
    pub fn start_get(&self, recipe: &str) -> (r: Step)
        ensures
            r.outcome() == Some(self@.start(recipe@)),
    {
        let stem = match file_stem(recipe) {
            Some(s) => s,
            None => return Step::Failed(Error::InvalidName(String::from_str(recipe))),
        };
        match self.find(stem.as_str(), recipe) {
            Some(p) => return Step::Found(RecipeEntry(p)),
            None => {},
        }
        if self.is_absent(recipe) {
            return Step::Failed(Error::NotFound(String::from_str(recipe)));
        }
        Step::Probe(self.probe_path(recipe))
    }

    /// Records whether the probed file exists: it does, and is cached and
    /// returned; or the walk must go on.
    fn probed(&mut self, recipe: &str, exists: bool) -> (r: Step)
        requires
            old(self)@.start(recipe@) is Probe,
        ensures
            final(self)@ == old(self)@.probed(recipe@, exists).0,
            r.outcome() == Some(old(self)@.probed(recipe@, exists).1),
    {
        if !exists {
            return Step::Walk;
        }
        let stem = match file_stem(recipe) {
            Some(s) => s,
            None => return Step::Walk,
        };
        let p = self.probe_path(recipe);
        let ghost old_cache = self.cache@;
        self.cache.push((stem, p.clone()));
        assert(pair_views(self.cache@) =~= pair_views(old_cache).push((stem@, p@)));
        Step::Found(RecipeEntry(p))
    }

    /// Takes the next walk entry: a recipe file is cached; it answers the
    /// lookup when its stem is the name's.
    fn walked(&mut self, recipe: &str, entry: &DirEntry) -> (r: Step)
        requires
            old(self)@.start(recipe@) is Probe,
            old(self)@.visited < usize::MAX,
        ensures
            final(self)@ == old(self)@.walked(recipe@, entry.spec_view()).0,
            r.outcome() == Some(old(self)@.walked(recipe@, entry.spec_view()).1),
    {
        self.visited = self.visited + 1;
        if !entry.is_recipe() {
            return Step::Walk;
        }
        let stem = match file_stem(recipe) {
            Some(s) => s,
            None => return Step::Walk,
        };
        let entry_stem = entry.file_stem();
        let ghost old_cache = self.cache@;
        self.cache.push((entry_stem.clone(), entry.path.clone()));
        assert(pair_views(self.cache@) =~= pair_views(old_cache).push((entry_stem@, entry.spec_path()@)));
        if str_eq(entry_stem.as_str(), stem.as_str()) {
            Step::Found(RecipeEntry(entry.path.clone()))
        } else {
            Step::Walk
        }
    }

    /// Hands a lookup of `recipe` the answer of its probe: whether the file
    /// that `start_get` asked about exists. When the lookup is not at the
    /// probe, nothing changes and its first step is returned.
    pub fn probe_step(&mut self, recipe: &str, exists: bool) -> (r: Step)
        ensures
            old(self)@.start(recipe@) is Probe ==> final(self)@ == old(self)@.probed(recipe@, exists).0
                && r.outcome() == Some(old(self)@.probed(recipe@, exists).1),
            !(old(self)@.start(recipe@) is Probe) ==> final(self)@ == old(self)@ && r.outcome() == Some(
                old(self)@.start(recipe@),
            ),
    {
        match self.start_get(recipe) {
            Step::Probe(_) => self.probed(recipe, exists),
            s => s,
        }
    }

    /// Hands a lookup of `recipe` the next entry of the walk. When the
    /// lookup is not walking, nothing changes and its first step is
    /// returned; when the index cannot count another entry, the walk fails.
    pub fn walk_step(&mut self, recipe: &str, entry: &DirEntry) -> (r: Step)
        ensures
            old(self)@.start(recipe@) is Probe && old(self)@.visited < usize::MAX ==> final(self)@
                == old(self)@.walked(recipe@, entry.spec_view()).0 && r.outcome() == Some(
                old(self)@.walked(recipe@, entry.spec_view()).1,
            ),
            old(self)@.start(recipe@) is Probe && old(self)@.visited == usize::MAX ==> final(self)@
                == old(self)@ && r is Failed && r->Failed_0 is Walk,
            !(old(self)@.start(recipe@) is Probe) ==> final(self)@ == old(self)@ && r.outcome() == Some(
                old(self)@.start(recipe@),
            ),
    {
        match self.start_get(recipe) {
            Step::Probe(_) => {
                if self.visited == usize::MAX {
                    Step::Failed(Error::Walk(String::from_str("too many walk entries")))
                } else {
                    self.walked(recipe, entry)
                }
            },
            s => s,
        }
    }

    /// The walk ended without an answer: `recipe` is recorded as missing.
    pub fn walk_ended(&mut self, recipe: &str) -> (r: Error)
        ensures
            final(self)@ == old(self)@.ended(recipe@),
            r is NotFound && r->NotFound_0@ == recipe@,
    {
        let ghost old_ne = self.non_existent@;
        self.non_existent.push(String::from_str(recipe));
        assert(str_views(self.non_existent@) =~= str_views(old_ne).push(recipe@));
        Error::NotFound(String::from_str(recipe))
    }
}

proof fn lemma_find_push(v: IndexView, w: IndexView, stem: Seq<char>, name: Seq<char>, i: int)
    requires
        0 <= i <= v.cache.len(),
        w.base == v.base,
        w.cache.len() == v.cache.len() + 1,
        forall|k: int| 0 <= k < v.cache.len() ==> w.cache[k] == v.cache[k],
        find_from(v, stem, name, i) is None,
    ensures
        find_from(w, stem, name, i) == (if w.cache.last().0 == stem && path_matches(
            v.base,
            name,
            w.cache.last().1,
        ) {
            Some(w.cache.last().1)
        } else {
            None
        }),
    decreases v.cache.len() - i,
{
    if i < v.cache.len() {
        lemma_find_push(v, w, stem, name, i + 1);
    } else {
        assert(find_from(w, stem, name, i + 1) is None);
        assert(w.cache.last() == w.cache[i]);
    }
}

proof fn lemma_find_same(v: IndexView, w: IndexView, stem: Seq<char>, name: Seq<char>, i: int)
    requires
        w.base == v.base,
        w.cache == v.cache,
    ensures
        find_from(w, stem, name, i) == find_from(v, stem, name, i),
    decreases v.cache.len() - i,
{
    if 0 <= i < v.cache.len() {
        lemma_find_same(v, w, stem, name, i + 1);
    }
}

/// A name found by probing its file is, right after, found again from the
/// cache, with no walking.
pub proof fn lemma_probe_hit_is_cached(v: IndexView, name: Seq<char>)
    requires
        v.start(name) is Probe,
    ensures
        v.probed(name, true).1 == Outcome::Found(probe_path(v.base, name)),
        v.probed(name, true).0.start(name) == v.probed(name, true).1,
        v.probed(name, true).0.visited == v.visited,
{
    let w = v.probed(name, true).0;
    lemma_find_push(v, w, path_file_stem(name)->Some_0, name, 0);
}

/// A bare name found by the walk is, right after, found again from the
/// cache, with no more walking.
pub proof fn lemma_walk_hit_is_cached(v: IndexView, name: Seq<char>, e: EntryView)
    requires
        v.start(name) is Probe,
        is_bare(name),
        v.walked(name, e).1 is Found,
    ensures
        v.walked(name, e).0.start(name) == v.walked(name, e).1,
        v.walked(name, e).0.visited == v.visited + 1,
{
    let w = v.walked(name, e).0;
    lemma_find_push(v, w, path_file_stem(name)->Some_0, name, 0);
}

/// A walk entry that does not answer the lookup leaves it in the walking
/// phase: no cached answer appears and the name is not marked missing.
pub proof fn lemma_walk_goes_on(v: IndexView, name: Seq<char>, e: EntryView)
    requires
        v.start(name) is Probe,
        v.walked(name, e).1 is Walk,
    ensures
        v.walked(name, e).0.start(name) is Probe,
{
    let w = v.walked(name, e).0;
    if is_recipe_file(e) {
        lemma_find_push(v, w, path_file_stem(name)->Some_0, name, 0);
    } else {
        lemma_find_same(v, w, path_file_stem(name)->Some_0, name, 0);
    }
}

/// A name that the whole walk did not find fails at once on its next
/// lookup, with no probing and no walking.
pub proof fn lemma_miss_is_remembered(v: IndexView, name: Seq<char>)
    requires
        v.start(name) is Probe,
    ensures
        v.ended(name).start(name) == Outcome::NotFound(name),
        v.ended(name).visited == v.visited,
{
    let w = v.ended(name);
    lemma_find_same(v, w, path_file_stem(name)->Some_0, name, 0);
    assert(w.absent.last() == name);
}

/// A walk entry answers a lookup of `name`: a recipe file of the same stem.
pub open spec fn answers(name: Seq<char>, e: EntryView) -> bool {
    is_recipe_file(e) && entry_stem(e.path) == path_file_stem(name)->Some_0
}

/// The lookup of `name` handed the entries `es` in order, until one answers.
pub open spec fn walk_all(v: IndexView, name: Seq<char>, es: Seq<EntryView>) -> (IndexView, Outcome)
    decreases es.len(),
{
    if es.len() == 0 {
        (v, Outcome::Walk)
    } else {
        let (w, o) = v.walked(name, es[0]);
        if o is Found {
            (w, o)
        } else {
            walk_all(w, name, es.drop_first())
        }
    }
}

/// The path of the first entry that answers a lookup of `name`.
pub open spec fn first_answer(name: Seq<char>, es: Seq<EntryView>) -> Option<Seq<char>>
    decreases es.len(),
{
    if es.len() == 0 {
        None
    } else if answers(name, es[0]) {
        Some(es[0].path)
    } else {
        first_answer(name, es.drop_first())
    }
}

proof fn lemma_walk_all_first(v: IndexView, name: Seq<char>, es: Seq<EntryView>)
    ensures
        walk_all(v, name, es).1 == (match first_answer(name, es) {
            Some(p) => Outcome::Found(p),
            None => Outcome::Walk,
        }),
    decreases es.len(),
{
    if es.len() > 0 {
        lemma_walk_all_first(v.walked(name, es[0]).0, name, es.drop_first());
    }
}

proof fn lemma_first_answer(name: Seq<char>, es: Seq<EntryView>, k: int)
    requires
        0 <= k < es.len(),
        answers(name, es[k]),
        forall|j: int| 0 <= j < k ==> !answers(name, #[trigger] es[j]),
    ensures
        first_answer(name, es) == Some(es[k].path),
    decreases es.len(),
{
    if k > 0 {
        let rest = es.drop_first();
        assert(!answers(name, es[0]));
        assert forall|j: int| 0 <= j < k - 1 implies !answers(name, #[trigger] rest[j]) by {
            assert(rest[j] == es[j + 1]);
        }
        lemma_first_answer(name, rest, k - 1);
    }
}

proof fn lemma_no_answer(name: Seq<char>, es: Seq<EntryView>)
    requires
        forall|j: int| 0 <= j < es.len() ==> !answers(name, #[trigger] es[j]),
    ensures
        first_answer(name, es) is None,
    decreases es.len(),
{
    if es.len() > 0 {
        let rest = es.drop_first();
        assert forall|j: int| 0 <= j < rest.len() implies !answers(name, #[trigger] rest[j]) by {
            assert(rest[j] == es[j + 1]);
        }
        lemma_no_answer(name, rest);
    }
}

/// A walk answers a lookup with the first entry, in walk order, that is a
/// recipe file of the name's stem: of two files with the same stem, the one
/// the walk meets first wins. With no such entry the walk goes on.
pub proof fn lemma_walk_takes_first(v: IndexView, name: Seq<char>, es: Seq<EntryView>, k: int)
    requires
        0 <= k < es.len(),
        answers(name, es[k]),
        forall|j: int| 0 <= j < k ==> !answers(name, #[trigger] es[j]),
    ensures
        walk_all(v, name, es).1 == Outcome::Found(es[k].path),
{
    lemma_walk_all_first(v, name, es);
    lemma_first_answer(name, es, k);
}

/// A walk none of whose entries answers the lookup leaves it walking.
pub proof fn lemma_walk_without_answer(v: IndexView, name: Seq<char>, es: Seq<EntryView>)
    requires
        forall|j: int| 0 <= j < es.len() ==> !answers(name, #[trigger] es[j]),
    ensures
        walk_all(v, name, es).1 == Outcome::Walk,
{
    lemma_walk_all_first(v, name, es);
    lemma_no_answer(name, es);
}

} // verus!
