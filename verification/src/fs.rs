//! What is on disk, as far as the resolver asks.

use crate::ast::push_text;
use crate::include_vars::{Params, ParamsModel};
use crate::parse::Node;
use crate::parse_libyaml::{self, parse_lenient};
use crate::paths::{self, join, normalise};
use crate::resolve::FileContext;
use crate::splitter;
use crate::text::{self, contains, is_suffix, starts_with, str_eq, strip_prefix};
use vstd::prelude::*;

verus! {

/// What came of loading a directory of variables.
#[derive(Debug, PartialEq, Eq)]
pub enum Outcome {
    /// The directory and the files in it that are loaded.
    Loaded { dir: Option<String>, files: Vec<String> },
    /// Absent below the role; at run time the value decays to one below the current directory.
    CwdFallback { relative: String },
    /// Nothing there; the directory that was looked for, where there is one.
    Failed { root: Option<String> },
}

/// What an [`Outcome`] says.
pub enum OutcomeModel {
    Loaded { dir: Option<Seq<char>>, files: Seq<Seq<char>> },
    CwdFallback { relative: Seq<char> },
    Failed { root: Option<Seq<char>> },
}

/// What an optional text says.
pub open spec fn maybe(s: Option<String>) -> Option<Seq<char>> {
    match s {
        Some(s) => Some(s@),
        None => None,
    }
}

impl Outcome {
    pub open spec fn view(&self) -> OutcomeModel {
        match self {
            Outcome::Loaded { dir, files } => OutcomeModel::Loaded {
                dir: maybe(*dir),
                files: splitter::texts(files@),
            },
            Outcome::CwdFallback { relative } => OutcomeModel::CwdFallback { relative: relative@ },
            Outcome::Failed { root } => OutcomeModel::Failed { root: maybe(*root) },
        }
    }
}

/// A file that was read: what it holds, and where it stands.
pub struct Source {
    pub nodes: Vec<Node>,
    pub ctx: FileContext,
}

impl Source {
    /// What a text holds, where it can be parsed.
    pub fn parse(text: String, ctx: FileContext) -> (r: Option<Self>)
        ensures
            match r {
                Some(source) => parse_libyaml::lenient(text@) == Some(
                    parse_libyaml::node_models(source.nodes@),
                ) && source.ctx == ctx,
                None => parse_libyaml::lenient(text@) is None,
            },
    {
        match parse_lenient(text.as_str()) {
            Some(nodes) => Some(Source { nodes, ctx }),
            None => None,
        }
    }
}

/// A file system that the caller supplies, so that it can remember what it was asked. While it is
/// in use its answers do not change. What they are, the spec functions say; an implementation that
/// leaves those out says nothing of its answers.
pub trait Fs {
    /// Is there a file at the path?
    open spec fn file(&self, p: Seq<char>) -> bool {
        arbitrary()
    }

    /// Is there a directory at the path?
    open spec fn folder(&self, p: Seq<char>) -> bool {
        arbitrary()
    }

    /// The names of the files in a directory.
    open spec fn names(&self, dir: Seq<char>) -> Seq<Seq<char>> {
        arbitrary()
    }

    /// The files that a templated path could reach from these directories.
    open spec fn reached(&self, bases: Seq<Seq<char>>, pattern: Seq<char>) -> Seq<Seq<char>> {
        arbitrary()
    }

    /// What comes of loading a directory of variables for a task file in a directory, and in a role
    /// where there is one.
    open spec fn loaded(
        &self,
        params: ParamsModel,
        role: Option<Seq<char>>,
        task_dir: Seq<char>,
    ) -> OutcomeModel {
        arbitrary()
    }

    /// The one spelling of a path that exists.
    open spec fn settled(&self, p: Seq<char>) -> Option<Seq<char>> {
        arbitrary()
    }

    /// The spellings that paths can settle on.
    open spec fn known(&self) -> Seq<Seq<char>> {
        arbitrary()
    }

    /// What the file at a path holds, where it can be read and parsed.
    open spec fn parsed(&self, p: Seq<char>) -> Option<Source> {
        arbitrary()
    }

    /// The YAML files below a directory.
    open spec fn yaml_below(&self, dir: Seq<char>) -> Seq<Seq<char>> {
        arbitrary()
    }

    fn is_file(&self, p: &str) -> (r: bool)
        ensures
            r == self.file(p@),
    ;

    fn canonical(&self, p: &str) -> (r: Option<String>)
        ensures
            maybe(r) == self.settled(p@),
            r is Some ==> among(self.known(), r->0@),
    ;

    fn source(&self, p: &str) -> (r: Option<&Source>)
        ensures
            r is Some == self.parsed(p@) is Some,
            r is Some ==> *r->0 == self.parsed(p@)->0,
    ;

    fn yaml_files(&self, dir: &str) -> (r: Vec<String>)
        ensures
            splitter::texts(r@) == self.yaml_below(dir@),
    ;

    fn is_dir(&self, p: &str) -> (r: bool)
        ensures
            r == self.folder(p@),
    ;

    fn files_in(&self, dir: &str) -> (r: Vec<String>)
        ensures
            splitter::texts(r@) == self.names(dir@),
    ;

    fn glob(&self, bases: &Vec<String>, pattern: &str) -> (r: Vec<String>)
        ensures
            splitter::texts(r@) == self.reached(splitter::texts(bases@), pattern@),
    ;

    fn load_dir(&self, params: &Params, role: &Option<String>, task_dir: &str) -> (r: Outcome)
        ensures
            r.view() == self.loaded(params.view(), maybe(*role), task_dir@),
    ;
}

/// A listing of files, in memory. A directory is there where a file is below it, or where it is
/// named. Of a templated path it knows what it was told.
pub struct Listing {
    pub files: Vec<String>,
    pub dirs: Vec<String>,
    /// What templated paths reach.
    pub globs: Vec<(String, Vec<String>)>,
    /// The files that directories of variables hold.
    pub vars_dirs: Vec<(String, Vec<String>)>,
    /// What files hold.
    pub sources: Vec<(String, Source)>,
}

impl Default for Listing {
    fn default() -> (r: Self)
        ensures
            r.files@.len() == 0 && r.dirs@.len() == 0 && r.globs@.len() == 0,
            r.vars_dirs@.len() == 0 && r.sources@.len() == 0,
    {
        Listing {
            files: Vec::new(),
            dirs: Vec::new(),
            globs: Vec::new(),
            vars_dirs: Vec::new(),
            sources: Vec::new(),
        }
    }
}

/// What the first file with this path holds, from `i` on.
pub open spec fn held_at(v: Seq<(String, Source)>, p: Seq<char>, i: int) -> Option<Source>
    decreases v.len() - i,
{
    if i < 0 || i >= v.len() {
        None
    } else if v[i].0@ == p {
        Some(v[i].1)
    } else {
        held_at(v, p, i + 1)
    }
}

/// Does the path end in `.yml` or `.yaml`?
pub open spec fn is_yaml_path(p: Seq<char>) -> bool {
    text::ends_with(p, ".yml"@) || text::ends_with(p, ".yaml"@)
}

/// Those of the first `n` paths that lie below a directory and name YAML files.
pub open spec fn yaml_among(v: Seq<Seq<char>>, n: int, dir: Seq<char>) -> Seq<Seq<char>>
    decreases n,
{
    if n <= 0 || n > v.len() {
        Seq::empty()
    } else if lies_below(v[n - 1], dir) && is_yaml_path(v[n - 1]) {
        yaml_among(v, n - 1, dir).push(v[n - 1])
    } else {
        yaml_among(v, n - 1, dir)
    }
}

/// The beginnings of the first `n` paths.
pub open spec fn beginnings(v: Seq<Seq<char>>, n: int) -> Seq<Seq<char>>
    decreases n,
{
    if n <= 0 || n > v.len() {
        Seq::empty()
    } else {
        beginnings(v, n - 1) + Seq::new(v[n - 1].len() + 1, |k: int| v[n - 1].take(k))
    }
}

proof fn beginning_is_among(v: Seq<Seq<char>>, n: int, i: int, k: int)
    requires
        0 <= i < n <= v.len(),
        0 <= k <= v[i].len(),
    ensures
        among(beginnings(v, n), v[i].take(k)),
    decreases n,
{
    let before = beginnings(v, n - 1);
    let own = Seq::new(v[n - 1].len() + 1, |k: int| v[n - 1].take(k));
    if i == n - 1 {
        assert((before + own)[before.len() + k] == v[i].take(k));
    } else {
        beginning_is_among(v, n - 1, i, k);
        let j = choose|j: int| 0 <= j < before.len() && #[trigger] before[j] == v[i].take(k);
        assert((before + own)[j] == v[i].take(k));
    }
}

/// Is the text among these?
pub open spec fn among(v: Seq<Seq<char>>, s: Seq<char>) -> bool {
    exists|i: int| 0 <= i < v.len() && #[trigger] v[i] == s
}

/// Is the path below the directory?
pub open spec fn lies_below(p: Seq<char>, dir: Seq<char>) -> bool {
    text::begins_with(p, dir.push('/'))
}

/// Does any of the paths lie below the directory?
pub open spec fn any_below(v: Seq<Seq<char>>, dir: Seq<char>) -> bool {
    exists|i: int| 0 <= i < v.len() && lies_below(#[trigger] v[i], dir)
}

/// The names of those of the first `n` paths that lie directly in a directory.
pub open spec fn names_below(v: Seq<Seq<char>>, n: int, dir: Seq<char>) -> Seq<Seq<char>>
    decreases n,
{
    if n <= 0 || n > v.len() {
        Seq::empty()
    } else {
        let before = names_below(v, n - 1, dir);
        let p = v[n - 1];
        let rest = p.subrange(dir.len() + 1int, p.len() as int);
        if lies_below(p, dir) && !text::occurs(rest, "/"@) {
            before.push(rest)
        } else {
            before
        }
    }
}

/// The first answer for a key, from `i` on.
pub open spec fn answer(v: Seq<(String, Vec<String>)>, key: Seq<char>, i: int) -> Option<
    Seq<Seq<char>>,
>
    decreases v.len() - i,
{
    if i < 0 || i >= v.len() {
        None
    } else if v[i].0@ == key {
        Some(splitter::texts(v[i].1@))
    } else {
        answer(v, key, i + 1)
    }
}

pub fn is_among(v: &Vec<String>, s: &str) -> (r: bool)
    ensures
        r == among(splitter::texts(v@), s@),
{
    let ghost model = splitter::texts(v@);
    let n: usize = v.len();
    let mut i: usize = 0;
    while i < n
        invariant
            i <= n == v@.len(),
            model == splitter::texts(v@),
            forall|j: int| 0 <= j < i ==> #[trigger] model[j] != s@,
        decreases n - i,
    {
        if str_eq(v[i].as_str(), s) {
            assert(model[i as int] == s@);
            return true;
        }
        i += 1;
    }
    false
}

pub fn find_answer(v: &Vec<(String, Vec<String>)>, key: &str) -> (r: Option<usize>)
    ensures
        r is Some == answer(v@, key@, 0) is Some,
        r is Some ==> r->0 < v@.len() && answer(v@, key@, 0)->0 == splitter::texts(
            v@[r->0 as int].1@,
        ),
{
    let n: usize = v.len();
    let mut i: usize = 0;
    while i < n
        invariant
            i <= n == v@.len(),
            answer(v@, key@, 0) == answer(v@, key@, i as int),
        decreases n - i,
    {
        if str_eq(v[i].0.as_str(), key) {
            return Some(i);
        }
        i += 1;
    }
    None
}

/// The directory that is meant by a relative one of a task: below the role's `vars/`, where there is
/// a role and the directory is not written with that name, else beside the task file.
pub open spec fn vars_root(dir: Option<Seq<char>>, role: Option<Seq<char>>, task_dir: Seq<char>) -> Option<
    Seq<char>,
> {
    match dir {
        Some(d) => match role {
            Some(r) => if d == "vars"@ || text::begins_with(d, "vars/"@) {
                Some(paths::joined(r, d))
            } else {
                Some(paths::joined(paths::joined(r, "vars"@), d))
            },
            None => Some(paths::joined(task_dir, d)),
        },
        None => None,
    }
}

impl Fs for Listing {
    open spec fn file(&self, p: Seq<char>) -> bool {
        among(splitter::texts(self.files@), p)
    }

    open spec fn folder(&self, p: Seq<char>) -> bool {
        among(splitter::texts(self.dirs@), p) || any_below(splitter::texts(self.files@), p)
    }

    open spec fn names(&self, dir: Seq<char>) -> Seq<Seq<char>> {
        names_below(splitter::texts(self.files@), self.files@.len() as int, dir)
    }

    open spec fn reached(&self, bases: Seq<Seq<char>>, pattern: Seq<char>) -> Seq<Seq<char>> {
        match answer(self.globs@, pattern, 0) {
            Some(v) => v,
            None => Seq::empty(),
        }
    }

    open spec fn loaded(
        &self,
        params: ParamsModel,
        role: Option<Seq<char>>,
        task_dir: Seq<char>,
    ) -> OutcomeModel {
        let root = vars_root(params.dir, role, task_dir);
        match root {
            Some(dir) => match answer(self.vars_dirs@, dir, 0) {
                Some(files) => OutcomeModel::Loaded { dir: root, files },
                None => OutcomeModel::Failed { root },
            },
            None => OutcomeModel::Failed { root: None },
        }
    }

    open spec fn settled(&self, p: Seq<char>) -> Option<Seq<char>> {
        let q = paths::normal(p);
        if self.file(q) || self.folder(q) {
            Some(q)
        } else {
            None
        }
    }

    open spec fn known(&self) -> Seq<Seq<char>> {
        splitter::texts(self.dirs@) + beginnings(
            splitter::texts(self.files@),
            self.files@.len() as int,
        )
    }

    open spec fn parsed(&self, p: Seq<char>) -> Option<Source> {
        held_at(self.sources@, paths::normal(p), 0)
    }

    open spec fn yaml_below(&self, dir: Seq<char>) -> Seq<Seq<char>> {
        yaml_among(splitter::texts(self.files@), self.files@.len() as int, dir)
    }

    fn is_file(&self, p: &str) -> (r: bool) {
        is_among(&self.files, p)
    }

    fn source(&self, p: &str) -> (r: Option<&Source>) {
        let q = normalise(p);
        let n: usize = self.sources.len();
        let mut i: usize = 0;
        while i < n
            invariant
                i <= n == self.sources@.len(),
                q@ == paths::normal(p@),
                self.parsed(p@) == held_at(self.sources@, q@, i as int),
            decreases n - i,
        {
            if str_eq(self.sources[i].0.as_str(), q.as_str()) {
                return Some(&self.sources[i].1);
            }
            i += 1;
        }
        None
    }

    fn yaml_files(&self, dir: &str) -> (r: Vec<String>) {
        let ghost model = splitter::texts(self.files@);
        let mut prefix = dir.to_owned();
        prefix.push('/');
        let mut out: Vec<String> = Vec::new();
        let n: usize = self.files.len();
        let mut i: usize = 0;
        assert(splitter::texts(out@) =~= Seq::empty());
        while i < n
            invariant
                i <= n == self.files@.len(),
                model == splitter::texts(self.files@),
                prefix@ == dir@.push('/'),
                splitter::texts(out@) == yaml_among(model, i as int, dir@),
            decreases n - i,
        {
            let p = self.files[i].as_str();
            if starts_with(p, prefix.as_str()) && (is_suffix(p, ".yml") || is_suffix(
                p,
                ".yaml",
            )) {
                push_text(&mut out, p);
            }
            i += 1;
        }
        out
    }

    fn canonical(&self, p: &str) -> (r: Option<String>) {
        let q = normalise(p);
        if self.is_file(q.as_str()) || self.is_dir(q.as_str()) {
            proof {
                let dirs = splitter::texts(self.dirs@);
                let files = splitter::texts(self.files@);
                let rest = beginnings(files, files.len() as int);
                if among(dirs, q@) {
                    let i = choose|i: int| 0 <= i < dirs.len() && #[trigger] dirs[i] == q@;
                    assert((dirs + rest)[i] == q@);
                } else {
                    let i = if among(files, q@) {
                        choose|i: int| 0 <= i < files.len() && #[trigger] files[i] == q@
                    } else {
                        choose|i: int| 0 <= i < files.len() && lies_below(#[trigger] files[i], q@)
                    };
                    assert(files[i].take(q@.len() as int) =~= q@);
                    beginning_is_among(files, files.len() as int, i, q@.len() as int);
                    let j = choose|j: int| 0 <= j < rest.len() && #[trigger] rest[j] == q@;
                    assert((dirs + rest)[dirs.len() + j] == q@);
                }
            }
            Some(q)
        } else {
            None
        }
    }

    fn is_dir(&self, p: &str) -> (r: bool) {
        if is_among(&self.dirs, p) {
            return true;
        }
        let ghost model = splitter::texts(self.files@);
        let mut dir = p.to_owned();
        dir.push('/');
        let n: usize = self.files.len();
        let mut i: usize = 0;
        while i < n
            invariant
                i <= n == self.files@.len(),
                model == splitter::texts(self.files@),
                dir@ == p@.push('/'),
                forall|j: int| 0 <= j < i ==> !lies_below(#[trigger] model[j], p@),
            decreases n - i,
        {
            if starts_with(self.files[i].as_str(), dir.as_str()) {
                assert(lies_below(model[i as int], p@));
                return true;
            }
            i += 1;
        }
        false
    }

    fn files_in(&self, dir: &str) -> (r: Vec<String>) {
        let ghost model = splitter::texts(self.files@);
        let mut prefix = dir.to_owned();
        prefix.push('/');
        let mut out: Vec<String> = Vec::new();
        let n: usize = self.files.len();
        let mut i: usize = 0;
        assert(splitter::texts(out@) =~= Seq::empty());
        while i < n
            invariant
                i <= n == self.files@.len(),
                model == splitter::texts(self.files@),
                prefix@ == dir@.push('/'),
                splitter::texts(out@) == names_below(model, i as int, dir@),
            decreases n - i,
        {
            if let Some(rest) = strip_prefix(self.files[i].as_str(), prefix.as_str()) {
                if !contains(rest, "/") {
                    let ghost before = out@;
                    out.push(rest.to_owned());
                    assert(splitter::texts(out@) =~= splitter::texts(before).push(rest@));
                }
            }
            i += 1;
        }
        out
    }

    fn glob(&self, bases: &Vec<String>, pattern: &str) -> (r: Vec<String>) {
        match find_answer(&self.globs, pattern) {
            Some(i) => crate::include_vars::clone_texts(&self.globs[i].1),
            None => {
                let none: Vec<String> = Vec::new();
                assert(splitter::texts(none@) =~= Seq::empty());
                none
            },
        }
    }

    fn load_dir(&self, params: &Params, role: &Option<String>, task_dir: &str) -> (r: Outcome) {
        let dir = match &params.dir {
            Some(d) => match role {
                Some(r) => if str_eq(d.as_str(), "vars") || starts_with(d.as_str(), "vars/") {
                    join(r.as_str(), d.as_str())
                } else {
                    join(join(r.as_str(), "vars").as_str(), d.as_str())
                },
                None => join(task_dir, d.as_str()),
            },
            None => return Outcome::Failed { root: None },
        };
        match find_answer(&self.vars_dirs, dir.as_str()) {
            Some(i) => Outcome::Loaded {
                files: crate::include_vars::clone_texts(&self.vars_dirs[i].1),
                dir: Some(dir),
            },
            None => Outcome::Failed { root: Some(dir) },
        }
    }
}

} // verus!
