//! Looking up installed modules.
//!
//! A [`ModuleSearch`] says at every moment what has to be found out next. Its owner
//! finds that out, tells the answer with [`Perl::search_step`], and goes on until the
//! search is [`ModuleSearch::Done`].

use crate::execute::{ExecuteResult, Execution, ExecutionView, ResultView};
use crate::interpreter::{ConfigView, InterpreterConfig};
use crate::module_name;
use crate::outside;
use crate::path;
use crate::path::FilePath;
use crate::perl;
use crate::perl::{Perl, PerlView};
use crate::version;
use std::borrow::Cow;
use vstd::prelude::*;

verus! {

/// Whether one of `dirs` is the same path as `dir`.
pub open spec fn has_path(dirs: Seq<Seq<u8>>, dir: Seq<u8>) -> bool {
    exists|i: int| 0 <= i < dirs.len() && path::same_path(#[trigger] dirs[i], dir)
}

/// `dirs` with `dir` at the end, unless `dir` is empty or already there.
pub open spec fn with_unique(dirs: Seq<Seq<u8>>, dir: Seq<u8>) -> Seq<Seq<u8>> {
    if dir.len() == 0 || has_path(dirs, dir) {
        dirs
    } else {
        dirs.push(dir)
    }
}

/// The paths in `list`, in order, each where it comes first, without empty ones.
pub open spec fn unique_paths(list: Seq<Seq<u8>>) -> Seq<Seq<u8>>
    decreases list.len(),
{
    if list.len() == 0 {
        Seq::empty()
    } else {
        with_unique(unique_paths(list.drop_last()), list.last())
    }
}

/// Pushes `dir` onto `dirs` unless it is empty or already present.
pub fn push_unique(dirs: &mut Vec<FilePath>, dir: FilePath)
    ensures
        final(dirs).deep_view() == with_unique(old(dirs).deep_view(), dir@),
{
    if dir.is_empty() {
        return;
    }
    let mut i: usize = 0;
    while i < dirs.len()
        invariant
            i <= dirs@.len(),
            dirs@ == old(dirs)@,
            forall|j: int|
                0 <= j < i ==> !path::same_path(#[trigger] dirs.deep_view()[j], dir@),
        decreases dirs@.len() - i,
    {
        assert(dirs.deep_view()[i as int] == dirs@[i as int]@);
        if dirs[i].is_same_path(&dir) {
            return;
        }
        i += 1;
    }
    dirs.push(dir);
    assert(dirs.deep_view() == old(dirs).deep_view().push(dir@));
}

/// The directory `lib/perl5` below `base`.
pub open spec fn perl5_dir(base: Seq<u8>) -> Seq<u8> {
    path::joined(
        path::joined(base, vstd::utf8::encode_utf8("lib"@)),
        vstd::utf8::encode_utf8("perl5"@),
    )
}

/// The directories of the `local::lib` layout below an install location.
pub open spec fn install_dirs(base: Option<Seq<u8>>, archname: Option<Seq<char>>) -> Seq<Seq<u8>> {
    match (base, archname) {
        (Some(base), Some(arch)) => seq![
            path::joined(perl5_dir(base), vstd::utf8::encode_utf8(arch)),
            perl5_dir(base),
        ],
        (Some(base), None) => seq![perl5_dir(base)],
        (None, _) => Seq::empty(),
    }
}

/// Every directory that may hold modules, most significant first.
pub open spec fn module_dirs(p: PerlView, config: ConfigView) -> Seq<Seq<u8>> {
    p.lib + install_dirs(p.install_base, config.archname) + config.inc
}

/// The directories to search for modules, most significant first.
pub open spec fn search_path(p: PerlView, config: ConfigView) -> Seq<Seq<u8>> {
    unique_paths(module_dirs(p, config))
}

/// Pushes every path of `list` onto `dirs` unless it is empty or already present.
fn push_all(dirs: &mut Vec<FilePath>, list: &[FilePath], Ghost(done): Ghost<Seq<Seq<u8>>>)
    requires
        old(dirs).deep_view() == unique_paths(done),
    ensures
        final(dirs).deep_view() == unique_paths(done + list.deep_view()),
{
    let mut i: usize = 0;
    assert(done + list.deep_view().take(0) == done);
    while i < list.len()
        invariant
            i <= list@.len(),
            dirs.deep_view() == unique_paths(done + list.deep_view().take(i as int)),
        decreases list@.len() - i,
    {
        push_unique(dirs, list[i].clone());
        proof {
            let next = done + list.deep_view().take(i + 1);
            assert(next.drop_last() == done + list.deep_view().take(i as int));
            assert(next.last() == list@[i as int]@);
        }
        i += 1;
    }
    assert(list.deep_view().take(list@.len() as int) == list.deep_view());
}

/// The directories to search for a module's `.pm` file when `config` is known of the
/// interpreter.
fn search_dirs(perl: &Perl, config: &InterpreterConfig) -> (dirs: Vec<FilePath>)
    ensures
        dirs.deep_view() == search_path(perl@, config@),
{
    let mut dirs: Vec<FilePath> = Vec::new();
    assert(dirs.deep_view() == unique_paths(Seq::empty()));
    push_all(&mut dirs, perl.lib.as_slice(), Ghost(Seq::empty()));
    let ghost done = perl@.lib;
    assert(Seq::empty() + perl@.lib == done);
    if let Some(base) = &perl.install_base {
        let perl5 = base.join(&FilePath::new("lib")).join(&FilePath::new("perl5"));
        let mut layout: Vec<FilePath> = Vec::new();
        if let Some(arch) = config.archname() {
            layout.push(perl5.join(&FilePath::new(arch)));
        }
        layout.push(perl5);
        assert(layout.deep_view() == install_dirs(perl@.install_base, config@.archname));
        push_all(&mut dirs, layout.as_slice(), Ghost(done));
    } else {
        assert(done + install_dirs(perl@.install_base, config@.archname) == done);
    }
    push_all(
        &mut dirs,
        config.inc(),
        Ghost(done + install_dirs(perl@.install_base, config@.archname)),
    );
    dirs
}

impl Perl {
    /// The directories to search for a module's `.pm` file, most significant first:
    /// `lib`, then the `local::lib` layout under `install_base`, then the
    /// interpreter's [`inc`](Self::inc), which is taken from `outcome` if it is not
    /// known yet.
    pub fn module_search_path(&mut self, outcome: Option<ExecuteResult>) -> (dirs: Vec<FilePath>)
        ensures
            final(self)@ == perl::asked(old(self)@, outcome.deep_view()),
            dirs.deep_view() == search_path(
                old(self)@,
                perl::known_config(old(self)@, outcome.deep_view()),
            ),
    {
        let config = self.interpreter_config(outcome).clone();
        search_dirs(self, &config)
    }
}

/// A module found on disk, as mathematical values.
#[verifier::ext_equal]
pub struct ModuleView {
    /// The name as requested.
    pub name: Seq<char>,
    /// The path of the `.pm` file.
    pub path: Seq<u8>,
    /// The version declared in the source.
    pub version: Option<Seq<char>>,
}

/// An installed Perl module located on disk.
#[derive(Debug, PartialEq, Eq)]
#[non_exhaustive]
pub struct Module {
    /// The module name as requested, for example `Foo::Bar`.
    pub name: String,
    /// Full path to the module's `.pm` file.
    pub path: FilePath,
    /// The version declared in the module source, or `None` when the module declares
    /// no version (or it could not be recovered without executing the module).
    pub version: Option<String>,
}

impl View for Module {
    type V = ModuleView;

    open spec fn view(&self) -> ModuleView {
        ModuleView { name: self.name@, path: self.path@, version: self.version.deep_view() }
    }
}

impl DeepView for Module {
    type V = ModuleView;

    open spec fn deep_view(&self) -> ModuleView {
        self@
    }
}

impl Clone for Module {
    fn clone(&self) -> (copy: Self)
        ensures
            copy@ == self@,
    {
        Module {
            name: self.name.clone(),
            path: self.path.clone(),
            version: match &self.version {
                Some(version) => Some(version.clone()),
                None => None,
            },
        }
    }
}

/// A search, as mathematical values.
#[verifier::ext_equal]
pub enum SearchView {
    /// See `ModuleSearch::Query`.
    Query { name: Seq<char>, query: ExecutionView },
    /// See `ModuleSearch::Probe`.
    Probe { name: Seq<char>, candidate: Seq<u8>, rest: Seq<Seq<u8>> },
    /// See `ModuleSearch::Resolve`.
    Resolve { name: Seq<char>, candidate: Seq<u8> },
    /// See `ModuleSearch::Read`.
    Read { name: Seq<char>, path: Seq<u8> },
    /// See `ModuleSearch::Done`.
    Done(Option<ModuleView>),
}

/// A search for the file of a module, and what has to be found out next.
#[derive(Debug, PartialEq, Eq)]
pub enum ModuleSearch {
    /// What comes of running `query`.
    Query {
        /// The module that is searched for.
        name: String,
        /// The run of the interpreter that reports its search path.
        query: Execution,
    },
    /// Whether `candidate` is a file.
    Probe {
        /// The module that is searched for.
        name: String,
        /// The most significant path where the module may be.
        candidate: FilePath,
        /// The other paths where it may be, in order.
        rest: Vec<FilePath>,
    },
    /// The canonical form of `candidate`.
    Resolve {
        /// The module that is searched for.
        name: String,
        /// The path where it was found.
        candidate: FilePath,
    },
    /// What the file `path` holds.
    Read {
        /// The module that is searched for.
        name: String,
        /// The path of its file.
        path: FilePath,
    },
    /// Nothing more: the module, or `None` if it is not installed.
    Done(Option<Module>),
}

impl View for ModuleSearch {
    type V = SearchView;

    open spec fn view(&self) -> SearchView {
        match self {
            ModuleSearch::Query { name, query } => SearchView::Query { name: name@, query: query@ },
            ModuleSearch::Probe { name, candidate, rest } => SearchView::Probe {
                name: name@,
                candidate: candidate@,
                rest: rest.deep_view(),
            },
            ModuleSearch::Resolve { name, candidate } => SearchView::Resolve {
                name: name@,
                candidate: candidate@,
            },
            ModuleSearch::Read { name, path } => SearchView::Read { name: name@, path: path@ },
            ModuleSearch::Done(module) => SearchView::Done(module.deep_view()),
        }
    }
}

/// An answer to what a search had to find out, as mathematical values.
pub enum AnswerView {
    /// See `Answer::Ran`.
    Ran(Option<ResultView>),
    /// See `Answer::IsFile`.
    IsFile(bool),
    /// See `Answer::Canonical`.
    Canonical(Option<Seq<u8>>),
    /// See `Answer::Contents`.
    Contents(Option<Seq<u8>>),
}

/// An answer to what a search had to find out.
#[derive(Debug, PartialEq, Eq)]
pub enum Answer {
    /// What came of a run, or `None` if it failed.
    Ran(Option<ExecuteResult>),
    /// Whether the candidate is a file.
    IsFile(bool),
    /// The canonical form of the candidate, or `None` if it has none.
    Canonical(Option<FilePath>),
    /// What the file holds, or `None` if it cannot be read.
    Contents(Option<Vec<u8>>),
}

impl View for Answer {
    type V = AnswerView;

    open spec fn view(&self) -> AnswerView {
        match self {
            Answer::Ran(outcome) => AnswerView::Ran(outcome.deep_view()),
            Answer::IsFile(yes) => AnswerView::IsFile(*yes),
            Answer::Canonical(path) => AnswerView::Canonical(path.deep_view()),
            Answer::Contents(bytes) => AnswerView::Contents(crate::command::optional_bytes(*bytes)),
        }
    }
}

/// The path of the file of the module `name` in the directory `dir`.
pub open spec fn file_in(dir: Seq<u8>, name: Seq<char>) -> Seq<u8> {
    path::joined(dir, vstd::utf8::encode_utf8(module_name::module_file(name)))
}

/// The paths where the module `name` may be, most significant first.
pub open spec fn candidates(p: PerlView, config: ConfigView, name: Seq<char>) -> Seq<Seq<u8>> {
    search_path(p, config).map_values(|dir: Seq<u8>| file_in(dir, name))
}

/// The search that is left when the module `name` may be at any of `paths`.
pub open spec fn probing(name: Seq<char>, paths: Seq<Seq<u8>>) -> SearchView {
    if paths.len() == 0 {
        SearchView::Done(None)
    } else {
        SearchView::Probe { name, candidate: paths[0], rest: paths.drop_first() }
    }
}

/// The version of a module whose file holds `contents`.
pub open spec fn contents_version(contents: Option<Seq<u8>>) -> Option<Seq<char>> {
    match contents {
        Some(bytes) => version::declared_version(outside::utf8_lossy(bytes)),
        None => None,
    }
}

/// The search for the module `name` at its start.
pub open spec fn search_start(p: PerlView, name: Seq<char>) -> SearchView {
    if !module_name::is_module_name(name) {
        SearchView::Done(None)
    } else {
        match p.interpreter {
            Some(config) => probing(name, candidates(p, config, name)),
            None => SearchView::Query { name, query: perl::query_run(p) },
        }
    }
}

/// The search after `answer`. An answer to another question changes nothing.
pub open spec fn search_next(p: PerlView, search: SearchView, answer: AnswerView) -> SearchView {
    match (search, answer) {
        (SearchView::Query { name, .. }, AnswerView::Ran(outcome)) => if module_name::is_module_name(
            name,
        ) {
            probing(name, candidates(p, perl::known_config(p, outcome), name))
        } else {
            SearchView::Done(None)
        },
        (SearchView::Probe { name, candidate, rest }, AnswerView::IsFile(yes)) => if yes {
            SearchView::Resolve { name, candidate }
        } else {
            probing(name, rest)
        },
        (SearchView::Resolve { name, candidate }, AnswerView::Canonical(path)) => SearchView::Read {
            name,
            path: match path {
                Some(path) => path,
                None => candidate,
            },
        },
        (SearchView::Read { name, path }, AnswerView::Contents(contents)) => SearchView::Done(
            Some(ModuleView { name, path, version: contents_version(contents) }),
        ),
        _ => search,
    }
}

/// The interpreter `p` after `answer` was given to `search`: an answer to a query is
/// kept.
pub open spec fn perl_next(p: PerlView, search: SearchView, answer: AnswerView) -> PerlView {
    match (search, answer) {
        (SearchView::Query { .. }, AnswerView::Ran(outcome)) => perl::asked(p, outcome),
        _ => p,
    }
}

/// The search that is left when a module may be at any of `paths`.
fn probe(name: String, mut paths: Vec<FilePath>) -> (search: ModuleSearch)
    ensures
        search@ == probing(name@, paths.deep_view()),
{
    if paths.len() == 0 {
        return ModuleSearch::Done(None);
    }
    let ghost all = paths.deep_view();
    let candidate = paths.remove(0);
    assert(paths.deep_view() == all.drop_first());
    ModuleSearch::Probe { name, candidate, rest: paths }
}

/// The paths of `file` in each of `dirs`.
fn join_all(dirs: &Vec<FilePath>, file: &FilePath) -> (paths: Vec<FilePath>)
    ensures
        paths.deep_view() == dirs.deep_view().map_values(|dir: Seq<u8>| path::joined(dir, file@)),
{
    let mut paths: Vec<FilePath> = Vec::new();
    let mut i: usize = 0;
    while i < dirs.len()
        invariant
            i <= dirs@.len(),
            paths@.len() == i,
            forall|j: int| 0 <= j < i ==> #[trigger] paths@[j]@ == path::joined(dirs@[j]@, file@),
        decreases dirs@.len() - i,
    {
        paths.push(dirs[i].join(file));
        i += 1;
    }
    assert(paths.deep_view() == dirs.deep_view().map_values(
        |dir: Seq<u8>| path::joined(dir, file@),
    ));
    paths
}

impl Perl {
    /// Starts to look up an installed Perl module by name (for example `"Foo::Bar"`).
    ///
    /// The module's `.pm` file is searched for on the interpreter's module search path:
    /// `lib` first, then the `local::lib`-style directories under `install_base`, then
    /// the interpreter's own `@INC`. `@INC` is obtained by asking the interpreter to
    /// print it; if that cannot be run only `lib` and `install_base` are searched.
    ///
    /// The search ends with `None` when no matching file is found (the module is not
    /// installed) or when `name` is not a syntactically valid module name. Otherwise it
    /// ends with a [`Module`] that carries the requested `name`, the full path to the
    /// file, and the version declared in its source, if any.
    ///
    /// The module is not loaded, compiled, or executed: its version is read from the
    /// source text by [`version::parse_version`].
    pub fn module(&self, name: &str) -> (search: ModuleSearch)
        ensures
            search@ == search_start(self@, name@),
    {
        match module_name::module_relative_path(name) {
            Some(file) => match &self.interpreter {
                Some(config) => {
                    let dirs = search_dirs(self, config);
                    let paths = join_all(&dirs, &file);
                    assert(paths.deep_view() == candidates(self@, config@, name@));
                    probe(name.to_owned(), paths)
                },
                None => match self.query_interpreter_config() {
                    Some(query) => ModuleSearch::Query { name: name.to_owned(), query },
                    None => ModuleSearch::Done(None),
                },
            },
            None => ModuleSearch::Done(None),
        }
    }

    /// Takes in the answer to what `search` had to find out. What the interpreter
    /// reports of itself is kept.
    pub fn search_step(&mut self, search: ModuleSearch, answer: Answer) -> (next: ModuleSearch)
        ensures
            next@ == search_next(old(self)@, search@, answer@),
            final(self)@ == perl_next(old(self)@, search@, answer@),
            (search, answer) matches (
                ModuleSearch::Read { name, path },
                Answer::Contents(Some(bytes)),
            ) ==> vstd::utf8::valid_utf8(bytes@) ==> next@ == SearchView::Done(
                Some(
                    ModuleView {
                        name: name@,
                        path: path@,
                        version: version::declared_version(vstd::utf8::decode_utf8(bytes@)),
                    },
                ),
            ),
    {
        match (search, answer) {
            (ModuleSearch::Query { name, .. }, Answer::Ran(outcome)) => {
                let ghost config = perl::known_config(self@, outcome.deep_view());
                let dirs = self.module_search_path(outcome);
                match module_name::module_relative_path(name.as_str()) {
                    Some(file) => {
                        let paths = join_all(&dirs, &file);
                        assert(paths.deep_view() == candidates(old(self)@, config, name@));
                        probe(name, paths)
                    },
                    None => ModuleSearch::Done(None),
                }
            },
            (ModuleSearch::Probe { name, candidate, rest }, Answer::IsFile(yes)) => if yes {
                ModuleSearch::Resolve { name, candidate }
            } else {
                probe(name, rest)
            },
            (ModuleSearch::Resolve { name, candidate }, Answer::Canonical(path)) => {
                let path = match path {
                    Some(path) => path,
                    None => candidate,
                };
                ModuleSearch::Read { name, path }
            },
            (ModuleSearch::Read { name, path }, Answer::Contents(contents)) => {
                let version = match contents {
                    Some(bytes) => match String::from_utf8_lossy(bytes.as_slice()) {
                        Cow::Borrowed(source) => version::parse_version(source),
                        Cow::Owned(source) => version::parse_version(source.as_str()),
                    },
                    None => None,
                };
                ModuleSearch::Done(Some(Module { name, path, version }))
            },
            (search, _) => search,
        }
    }
}

/// A search path names no directory twice, holds no empty path, and holds only paths
/// that it was made from.
pub proof fn law_search_path_has_no_repeats(list: Seq<Seq<u8>>)
    ensures
        forall|i: int, j: int|
            0 <= i < j < unique_paths(list).len() ==> !path::same_path(
                #[trigger] unique_paths(list)[i],
                #[trigger] unique_paths(list)[j],
            ),
        forall|i: int|
            0 <= i < unique_paths(list).len() ==> (#[trigger] unique_paths(list)[i]).len() > 0
                && list.contains(unique_paths(list)[i]),
    decreases list.len(),
{
    if list.len() > 0 {
        let before = list.drop_last();
        law_search_path_has_no_repeats(before);
        let kept = unique_paths(before);
        let all = unique_paths(list);
        assert(list[list.len() - 1] == list.last());
        assert forall|i: int| 0 <= i < all.len() implies (#[trigger] all[i]).len() > 0
            && list.contains(all[i]) by {
            if i < kept.len() {
                assert(all[i] == kept[i]);
                let k = choose|k: int| 0 <= k < before.len() && before[k] == kept[i];
                assert(list[k] == all[i]);
            }
        }
        assert forall|i: int, j: int| 0 <= i < j < all.len() implies !path::same_path(
            #[trigger] all[i],
            #[trigger] all[j],
        ) by {
            assert(all[i] == kept[i]);
            if j < kept.len() {
                assert(all[j] == kept[j]);
            }
        }
    }
}

/// What comes earlier in the list of directories comes earlier in the search path: more
/// directories at the end of the list only add to the end of the search path.
pub proof fn law_earlier_directories_come_first(list: Seq<Seq<u8>>, more: Seq<Seq<u8>>)
    ensures
        unique_paths(list).len() <= unique_paths(list + more).len(),
        unique_paths(list + more).take(unique_paths(list).len() as int) == unique_paths(list),
    decreases more.len(),
{
    if more.len() == 0 {
        assert(list + more == list);
    } else {
        let before = more.drop_last();
        law_earlier_directories_come_first(list, before);
        assert((list + more).drop_last() == list + before);
        let n = unique_paths(list).len() as int;
        assert(unique_paths(list + more).take(n) == unique_paths(list + before).take(n));
    }
}

/// Every directory that is not empty is on the search path, and it is there as it is
/// written where it comes first.
pub proof fn law_search_path_is_complete(list: Seq<Seq<u8>>, i: int)
    requires
        0 <= i < list.len(),
        list[i].len() > 0,
    ensures
        has_path(unique_paths(list), list[i]),
        exists|k: int|
            0 <= k < unique_paths(list).len() && path::same_path(
                #[trigger] unique_paths(list)[k],
                list[i],
            ),
        (forall|j: int| 0 <= j < i ==> !path::same_path(#[trigger] list[j], list[i]))
            ==> unique_paths(list).contains(list[i]),
{
    let before = list.take(i);
    let upto = list.take(i + 1);
    let dir = list[i];
    assert(upto.drop_last() == before);
    assert(upto.last() == dir);
    assert(list == upto + list.skip(i + 1));
    law_earlier_directories_come_first(upto, list.skip(i + 1));
    law_search_path_has_no_repeats(before);
    let kept = unique_paths(before);
    let now = unique_paths(upto);
    let all = unique_paths(list);
    if has_path(kept, dir) {
        let k = choose|k: int| 0 <= k < kept.len() && path::same_path(#[trigger] kept[k], dir);
        assert(all.take(now.len() as int)[k] == all[k]);
        assert(path::same_path(all[k], dir));
        let m = choose|m: int| 0 <= m < before.len() && before[m] == kept[k];
        assert(list[m] == kept[k]);
    } else {
        let k = kept.len() as int;
        assert(now[k] == dir);
        assert(all.take(now.len() as int)[k] == all[k]);
        assert(path::same_path(all[k], dir));
    }
}

/// The directories of `lib` are searched first, then those of the install location,
/// then the interpreter's own.
pub proof fn law_search_order(p: PerlView, config: ConfigView)
    ensures
        ({
            let own = unique_paths(p.lib);
            let installed = unique_paths(p.lib + install_dirs(p.install_base, config.archname));
            let all = search_path(p, config);
            &&& own.len() <= installed.len() <= all.len()
            &&& installed.take(own.len() as int) == own
            &&& all.take(installed.len() as int) == installed
        }),
{
    let installed = install_dirs(p.install_base, config.archname);
    law_earlier_directories_come_first(p.lib, installed);
    law_earlier_directories_come_first(p.lib + installed, config.inc);
}

/// What a search can find out about the world around it.
pub struct WorldView {
    /// What comes of running the query script.
    pub outcome: Option<ResultView>,
    /// Which paths are files.
    pub is_file: spec_fn(Seq<u8>) -> bool,
    /// The canonical forms of paths.
    pub canonical: spec_fn(Seq<u8>) -> Option<Seq<u8>>,
    /// What files hold.
    pub contents: spec_fn(Seq<u8>) -> Option<Seq<u8>>,
}

/// The answer that `world` gives to what `search` has to find out.
pub open spec fn answer_in(world: WorldView, search: SearchView) -> AnswerView {
    match search {
        SearchView::Query { .. } => AnswerView::Ran(world.outcome),
        SearchView::Probe { candidate, .. } => AnswerView::IsFile((world.is_file)(candidate)),
        SearchView::Resolve { candidate, .. } => AnswerView::Canonical(
            (world.canonical)(candidate),
        ),
        SearchView::Read { path, .. } => AnswerView::Contents((world.contents)(path)),
        SearchView::Done(_) => AnswerView::IsFile(false),
    }
}

/// The interpreter and the search after `n` answers that `world` gives.
pub open spec fn after_steps(
    p: PerlView,
    search: SearchView,
    world: WorldView,
    n: nat,
) -> (PerlView, SearchView)
    decreases n,
{
    if n == 0 {
        (p, search)
    } else {
        let answer = answer_in(world, search);
        after_steps(
            perl_next(p, search, answer),
            search_next(p, search, answer),
            world,
            (n - 1) as nat,
        )
    }
}

/// The module `name` whose file was found at `candidate`.
pub open spec fn module_at(world: WorldView, name: Seq<char>, candidate: Seq<u8>) -> ModuleView {
    let path = match (world.canonical)(candidate) {
        Some(path) => path,
        None => candidate,
    };
    ModuleView { name, path, version: contents_version((world.contents)(path)) }
}

/// Whether the path at position `i` is the first of `paths` that is a file.
pub open spec fn is_first_file(world: WorldView, paths: Seq<Seq<u8>>, i: int) -> bool {
    &&& 0 <= i < paths.len()
    &&& (world.is_file)(paths[i])
    &&& forall|j: int| 0 <= j < i ==> !(world.is_file)(#[trigger] paths[j])
}

/// Whether `result` is what a search for `name` among `paths` has to end with: the
/// module at the first path that is a file, or nothing if none is.
pub open spec fn is_search_result(
    world: WorldView,
    name: Seq<char>,
    paths: Seq<Seq<u8>>,
    result: Option<ModuleView>,
) -> bool {
    match result {
        Some(module) => exists|i: int|
            #[trigger] is_first_file(world, paths, i) && module == module_at(
                world,
                name,
                paths[i],
            ),
        None => forall|i: int| 0 <= i < paths.len() ==> !(world.is_file)(#[trigger] paths[i]),
    }
}

proof fn lemma_done_is_final(p: PerlView, result: Option<ModuleView>, world: WorldView, n: nat)
    ensures
        after_steps(p, SearchView::Done(result), world, n) == (p, SearchView::Done(result)),
    decreases n,
{
    if n > 0 {
        lemma_done_is_final(p, result, world, (n - 1) as nat);
    }
}

proof fn lemma_probing(
    p: PerlView,
    name: Seq<char>,
    paths: Seq<Seq<u8>>,
    world: WorldView,
    n: nat,
)
    requires
        n >= paths.len() + 2,
    ensures
        ({
            let (q, end) = after_steps(p, probing(name, paths), world, n);
            &&& q == p
            &&& end matches SearchView::Done(result)
            &&& is_search_result(world, name, paths, result)
        }),
    decreases paths.len(),
{
    if paths.len() == 0 {
        lemma_done_is_final(p, None, world, n);
    } else if (world.is_file)(paths[0]) {
        let module = module_at(world, name, paths[0]);
        reveal_with_fuel(after_steps, 4);
        lemma_done_is_final(p, Some(module), world, (n - 3) as nat);
        assert(is_first_file(world, paths, 0));
    } else {
        let rest = paths.drop_first();
        lemma_probing(p, name, rest, world, (n - 1) as nat);
        let (q, end) = after_steps(p, probing(name, rest), world, (n - 1) as nat);
        let result = end->Done_0;
        match result {
            Some(module) => {
                let i = choose|i: int|
                    #[trigger] is_first_file(world, rest, i) && module == module_at(
                        world,
                        name,
                        rest[i],
                    );
                assert forall|j: int| 0 <= j < i + 1 implies !(world.is_file)(
                    #[trigger] paths[j],
                ) by {
                    if j > 0 {
                        assert(rest[j - 1] == paths[j]);
                    }
                }
                assert(rest[i] == paths[i + 1]);
                assert(is_first_file(world, paths, i + 1));
            },
            None => {
                assert forall|j: int| 0 <= j < paths.len() implies !(world.is_file)(
                    #[trigger] paths[j],
                ) by {
                    if j > 0 {
                        assert(rest[j - 1] == paths[j]);
                    }
                }
            },
        }
    }
}

/// However the world answers, a search ends. For a valid name it ends with the module at
/// the first candidate on the search path that is a file, with its canonical path and
/// the version that its source declares, or with nothing if no candidate is a file; and
/// what the interpreter reported is kept. For any other name it ends with nothing, and
/// the interpreter is not asked.
pub proof fn law_search_finds_the_first_file(
    p: PerlView,
    name: Seq<char>,
    world: WorldView,
    n: nat,
)
    requires
        n >= candidates(p, perl::known_config(p, world.outcome), name).len() + 3,
    ensures
        ({
            let (q, end) = after_steps(p, search_start(p, name), world, n);
            let paths = candidates(p, perl::known_config(p, world.outcome), name);
            if module_name::is_module_name(name) {
                &&& q == perl::asked(p, world.outcome)
                &&& end matches SearchView::Done(result)
                &&& is_search_result(world, name, paths, result)
            } else {
                q == p && end == SearchView::Done(None)
            }
        }),
{
    if !module_name::is_module_name(name) {
        lemma_done_is_final(p, None, world, n);
    } else {
        let config = perl::known_config(p, world.outcome);
        let paths = candidates(p, config, name);
        if p.interpreter is Some {
            lemma_probing(p, name, paths, world, n);
        } else {
            let q = perl::asked(p, world.outcome);
            lemma_probing(q, name, paths, world, (n - 1) as nat);
        }
    }
}

/// A directory is added at the end, unless it is empty or the same path as one that is
/// there; what is there stays as it is.
pub proof fn law_directory_is_added(dirs: Seq<Seq<u8>>, dir: Seq<u8>)
    ensures
        ({
            let next = with_unique(dirs, dir);
            let there = exists|i: int|
                0 <= i < dirs.len() && path::same_path(#[trigger] dirs[i], dir);
            &&& next.len() == dirs.len() + if dir.len() == 0 || there {
                0int
            } else {
                1
            }
            &&& forall|i: int| 0 <= i < dirs.len() ==> #[trigger] next[i] == dirs[i]
            &&& next.len() > dirs.len() ==> next[dirs.len() as int] == dir
        }),
{
}

/// A directory that is not empty is left off the search path only if one with the same root
/// and the same full sequence of names comes before it.
pub proof fn law_only_repeats_are_left_off(list: Seq<Seq<u8>>, i: int)
    requires
        0 <= i < list.len(),
        list[i].len() > 0,
        forall|j: int|
            0 <= j < i ==> !(path::is_absolute(#[trigger] list[j]) == path::is_absolute(list[i])
                && path::names(list[j]) == path::names(list[i])),
    ensures
        unique_paths(list).contains(list[i]),
{
    assert forall|j: int| 0 <= j < i implies !path::same_path(#[trigger] list[j], list[i]) by {
        path::law_same_paths_have_the_same_names(list[j], list[i]);
        if path::same_path(list[j], list[i]) {
            assert(path::names(list[j]) == path::names(list[i]));
        }
    }
    law_search_path_is_complete(list, i);
}

/// The layout of an install location: `lib/perl5` below it, and before that the directory
/// named after the architecture below `lib/perl5`, if the architecture is known.
pub proof fn law_install_layout(base: Seq<u8>, arch: Seq<char>, other: Option<Seq<char>>)
    requires
        base.len() > 0,
        base.last() != 0x2f,
        arch.len() > 0,
        vstd::utf8::encode_utf8(arch).len() > 0,
        vstd::utf8::encode_utf8(arch)[0] != 0x2f,
    ensures
        ({
            let perl5 = base + seq![0x2fu8] + vstd::utf8::encode_utf8("lib"@) + seq![0x2fu8]
                + vstd::utf8::encode_utf8("perl5"@);
            &&& install_dirs(Some(base), None) == seq![perl5]
            &&& install_dirs(Some(base), Some(arch)) == seq![
                perl5 + seq![0x2fu8] + vstd::utf8::encode_utf8(arch),
                perl5,
            ]
            &&& install_dirs(None, other).len() == 0
        }),
{
    reveal_strlit("lib");
    reveal_strlit("perl5");
    let lib = vstd::utf8::encode_utf8("lib"@);
    let name = vstd::utf8::encode_utf8("perl5"@);
    vstd::utf8::is_ascii_chars_encode_utf8("lib"@);
    vstd::utf8::is_ascii_chars_encode_utf8("perl5"@);
    assert(lib.len() == 3 && lib[0] == 'l' as u8 && lib[2] == 'b' as u8);
    assert(name.len() == 5 && name[0] == 'p' as u8 && name[4] == '5' as u8);
    let upper = base + seq![0x2fu8] + lib;
    let perl5 = upper + seq![0x2fu8] + name;
    path::law_joined_bytes(base, lib, lib);
    assert(upper.last() == lib[2]);
    path::law_joined_bytes(upper, name, name);
    assert(perl5.last() == name[4]);
    path::law_joined_bytes(perl5, vstd::utf8::encode_utf8(arch), name);
}

/// Below any install location, whatever its spelling and that of the architecture, the
/// layout is made by joining names.
pub proof fn law_install_layout_is_joined(base: Seq<u8>, arch: Seq<char>)
    ensures
        ({
            let lib = path::joined(base, vstd::utf8::encode_utf8("lib"@));
            let perl5 = path::joined(lib, vstd::utf8::encode_utf8("perl5"@));
            &&& install_dirs(Some(base), None) == seq![perl5]
            &&& install_dirs(Some(base), Some(arch)) == seq![
                path::joined(perl5, vstd::utf8::encode_utf8(arch)),
                perl5,
            ]
        }),
{
}

/// The search path is made of `lib`, the layout of the install location and the
/// interpreter's own directories, in that order: each of them that is not empty is on it,
/// and nothing else is.
pub proof fn law_search_path_is_made_of(p: PerlView, config: ConfigView, dir: Seq<u8>)
    ensures
        ({
            let all = search_path(p, config);
            let layout = install_dirs(p.install_base, config.archname);
            &&& all == unique_paths(p.lib + layout + config.inc)
            &&& dir.len() > 0 && (p.lib.contains(dir) || layout.contains(dir)
                || config.inc.contains(dir)) ==> exists|k: int|
                0 <= k < all.len() && path::same_path(#[trigger] all[k], dir)
            &&& all.contains(dir) ==> dir.len() > 0 && (p.lib.contains(dir) || layout.contains(dir)
                || config.inc.contains(dir))
        }),
{
    let layout = install_dirs(p.install_base, config.archname);
    let list = p.lib + layout + config.inc;
    let all = search_path(p, config);
    if dir.len() > 0 && (p.lib.contains(dir) || layout.contains(dir) || config.inc.contains(dir)) {
        let i: int = if p.lib.contains(dir) {
            choose|i: int| 0 <= i < p.lib.len() && p.lib[i] == dir
        } else if layout.contains(dir) {
            p.lib.len() + choose|i: int| 0 <= i < layout.len() && layout[i] == dir
        } else {
            p.lib.len() + layout.len() + choose|i: int|
                0 <= i < config.inc.len() && config.inc[i] == dir
        };
        assert(0 <= i < list.len() && list[i] == dir);
        law_search_path_is_complete(list, i);
    }
    law_search_path_has_no_repeats(list);
    if all.contains(dir) {
        let k = choose|k: int| 0 <= k < all.len() && all[k] == dir;
        assert(all[k].len() > 0 && list.contains(all[k]));
        let i = choose|i: int| 0 <= i < list.len() && list[i] == dir;
        if i < p.lib.len() {
            assert(p.lib[i] == dir);
        } else if i < p.lib.len() + layout.len() {
            assert(layout[i - p.lib.len()] == dir);
        } else {
            assert(config.inc[i - p.lib.len() - layout.len()] == dir);
        }
    }
}

/// A module is looked for in each directory of the search path, in order, at the file of
/// its name below that directory.
pub proof fn law_candidates(p: PerlView, config: ConfigView, name: Seq<char>)
    ensures
        candidates(p, config, name).len() == search_path(p, config).len(),
        forall|i: int|
            0 <= i < search_path(p, config).len() ==> #[trigger] candidates(p, config, name)[i]
                == path::joined(
                search_path(p, config)[i],
                vstd::utf8::encode_utf8(module_name::module_file(name)),
            ),
{
}

/// How a search starts: it ends at once if the name is not valid, asks the interpreter if
/// that was not asked yet, and else looks at the first candidate, if there is one.
pub proof fn law_search_starts(p: PerlView, name: Seq<char>)
    ensures
        ({
            let start = search_start(p, name);
            if !module_name::is_module_name(name) {
                start == SearchView::Done(None)
            } else {
                match p.interpreter {
                    None => start == (SearchView::Query { name, query: perl::query_run(p) }),
                    Some(config) => {
                        let paths = candidates(p, config, name);
                        &&& paths.len() == 0 ==> start == SearchView::Done(None)
                        &&& paths.len() > 0 ==> start == (SearchView::Probe {
                            name,
                            candidate: paths[0],
                            rest: paths.skip(1),
                        })
                    },
                }
            }
        }),
{
    if let Some(config) = p.interpreter {
        let paths = candidates(p, config, name);
        if paths.len() > 0 {
            assert(paths.drop_first() == paths.skip(1));
        }
    }
}

/// How a search goes on: a candidate that is no file gives way to the next one, one that is
/// a file is put in canonical form if it has one, and is then read for its version.
pub proof fn law_search_goes_on(
    p: PerlView,
    name: Seq<char>,
    candidate: Seq<u8>,
    rest: Seq<Seq<u8>>,
    path: Seq<u8>,
    contents: Seq<u8>,
)
    ensures
        ({
            let probe = SearchView::Probe { name, candidate, rest };
            &&& search_next(p, probe, AnswerView::IsFile(true)) == (SearchView::Resolve {
                name,
                candidate,
            })
            &&& rest.len() == 0 ==> search_next(p, probe, AnswerView::IsFile(false))
                == SearchView::Done(None)
            &&& rest.len() > 0 ==> search_next(p, probe, AnswerView::IsFile(false)) == (
            SearchView::Probe { name, candidate: rest[0], rest: rest.skip(1) })
        }),
        ({
            let resolve = SearchView::Resolve { name, candidate };
            &&& search_next(p, resolve, AnswerView::Canonical(Some(path))) == (SearchView::Read {
                name,
                path,
            })
            &&& search_next(p, resolve, AnswerView::Canonical(None)) == (SearchView::Read {
                name,
                path: candidate,
            })
        }),
        ({
            let read = SearchView::Read { name, path };
            let found = search_next(p, read, AnswerView::Contents(Some(contents)));
            let unread = search_next(p, read, AnswerView::Contents(None));
            &&& found == SearchView::Done(
                Some(
                    ModuleView {
                        name,
                        path,
                        version: version::declared_version(outside::utf8_lossy(contents)),
                    },
                ),
            )
            &&& unread == SearchView::Done(Some(ModuleView { name, path, version: None }))
        }),
{
    if rest.len() > 0 {
        assert(rest.drop_first() == rest.skip(1));
    }
}

/// What the interpreter answers is kept, and the search goes on to the candidates that it
/// leads to. Any other answer leaves the interpreter as it is, and an answer to another
/// question leaves the search as it is.
pub proof fn law_answers(p: PerlView, search: SearchView, answer: AnswerView)
    ensures
        match (search, answer) {
            (SearchView::Query { name, .. }, AnswerView::Ran(outcome)) => {
                let paths = candidates(p, perl::known_config(p, outcome), name);
                let next = search_next(p, search, answer);
                &&& perl_next(p, search, answer) == perl::asked(p, outcome)
                &&& !module_name::is_module_name(name) || paths.len() == 0 ==> next
                    == SearchView::Done(None)
                &&& module_name::is_module_name(name) && paths.len() > 0 ==> next == (
                SearchView::Probe { name, candidate: paths[0], rest: paths.skip(1) })
            },
            _ => perl_next(p, search, answer) == p,
        },
        match search {
            SearchView::Query { .. } => !(answer is Ran),
            SearchView::Probe { .. } => !(answer is IsFile),
            SearchView::Resolve { .. } => !(answer is Canonical),
            SearchView::Read { .. } => !(answer is Contents),
            SearchView::Done(_) => true,
        } ==> search_next(p, search, answer) == search,
{
    if let (SearchView::Query { name, .. }, AnswerView::Ran(outcome)) = (search, answer) {
        let paths = candidates(p, perl::known_config(p, outcome), name);
        if paths.len() > 0 {
            assert(paths.drop_first() == paths.skip(1));
        }
    }
}

/// What modules, searches and answers stand for is what they hold.
pub proof fn law_search_views(module: Module, search: ModuleSearch, answer: Answer)
    ensures
        module@.name == module.name@,
        module@.path == module.path.bytes@,
        module@.version is Some <==> module.version is Some,
        module.version matches Some(version) ==> module@.version == Some(version@),
        match search {
            ModuleSearch::Query { name, query } => search@ == (SearchView::Query {
                name: name@,
                query: query@,
            }),
            ModuleSearch::Probe { name, candidate, rest } => search@ == (SearchView::Probe {
                name: name@,
                candidate: candidate.bytes@,
                rest: rest.deep_view(),
            }),
            ModuleSearch::Resolve { name, candidate } => search@ == (SearchView::Resolve {
                name: name@,
                candidate: candidate.bytes@,
            }),
            ModuleSearch::Read { name, path } => search@ == (SearchView::Read {
                name: name@,
                path: path.bytes@,
            }),
            ModuleSearch::Done(None) => search@ == SearchView::Done(None),
            ModuleSearch::Done(Some(module)) => search@ == SearchView::Done(Some(module@)),
        },
        match answer {
            Answer::Ran(None) => answer@ == AnswerView::Ran(None),
            Answer::Ran(Some(result)) => answer@ == AnswerView::Ran(Some(result@)),
            Answer::IsFile(yes) => answer@ == AnswerView::IsFile(yes),
            Answer::Canonical(None) => answer@ == AnswerView::Canonical(None),
            Answer::Canonical(Some(path)) => answer@ == AnswerView::Canonical(Some(path.bytes@)),
            Answer::Contents(None) => answer@ == AnswerView::Contents(None),
            Answer::Contents(Some(bytes)) => answer@ == AnswerView::Contents(Some(bytes@)),
        },
{
}

} // verus!
