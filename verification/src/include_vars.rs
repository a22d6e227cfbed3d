//! The arguments of an `include_vars:` that loads a directory.

use crate::ast::{self, push_text, word_of};
use crate::jinja::lexer::{self, magnitude};
use crate::parse::Node;
use crate::splitter::{self, parse_kv};
use crate::text::to_chars;
use vstd::prelude::*;

verus! {

/// What is loaded from a directory.
#[derive(Debug, PartialEq, Eq)]
pub struct Params {
    /// The directory.
    pub dir: Option<String>,
    /// The extensions of the files that are loaded.
    pub extensions: Vec<String>,
    /// How deep the directory is walked; 0 is without a limit.
    pub depth: u64,
}

/// What [`Params`] say.
pub struct ParamsModel {
    pub dir: Option<Seq<char>>,
    pub extensions: Seq<Seq<char>>,
    pub depth: u64,
}

impl Params {
    pub open spec fn view(&self) -> ParamsModel {
        ParamsModel {
            dir: match self.dir {
                Some(s) => Some(s@),
                None => None,
            },
            extensions: splitter::texts(self.extensions@),
            depth: self.depth,
        }
    }
}

impl Clone for Params {
    fn clone(&self) -> (r: Self)
        ensures
            r.view() == self.view(),
    {
        Params {
            dir: match &self.dir {
                Some(s) => Some(s.clone()),
                None => None,
            },
            extensions: clone_texts(&self.extensions),
            depth: self.depth,
        }
    }
}

/// A copy of texts.
pub fn clone_texts(v: &Vec<String>) -> (r: Vec<String>)
    ensures
        splitter::texts(r@) == splitter::texts(v@),
{
    let mut out: Vec<String> = Vec::new();
    let n: usize = v.len();
    let mut i: usize = 0;
    assert(splitter::texts(out@) =~= splitter::texts(v@).subrange(0, 0));
    while i < n
        invariant
            i <= n == v@.len(),
            splitter::texts(out@) == splitter::texts(v@).subrange(0, i as int),
        decreases n - i,
    {
        push_text(&mut out, v[i].as_str());
        i += 1;
        assert(splitter::texts(v@).subrange(0, i as int) =~= splitter::texts(v@).subrange(
            0,
            i - 1,
        ).push(v@[i - 1]@));
    }
    assert(splitter::texts(v@).subrange(0, n as int) =~= splitter::texts(v@));
    out
}

/// The extensions of an include that names none.
pub open spec fn default_extensions() -> Seq<Seq<char>> {
    seq!["json"@, "yaml"@, "yml"@]
}

pub fn usual_extensions() -> (r: Vec<String>)
    ensures
        splitter::texts(r@) == default_extensions(),
{
    let mut out: Vec<String> = Vec::new();
    push_text(&mut out, "json");
    push_text(&mut out, "yaml");
    push_text(&mut out, "yml");
    assert(splitter::texts(out@) =~= default_extensions());
    out
}

/// The depth that a text spells; 0 where it spells none.
pub open spec fn depth_of(s: Option<Seq<char>>) -> u64 {
    match s {
        Some(s) => if lexer::all_digits(s, 10) && lexer::digits_value(s, 10)
            <= 0x8000_0000_0000_0000 {
            lexer::digits_value(s, 10) as u64
        } else {
            0
        },
        None => 0,
    }
}

pub fn read_depth(s: Option<&str>) -> (r: u64)
    ensures
        r == depth_of(
            match s {
                Some(s) => Some(s@),
                None => None,
            },
        ),
{
    match s {
        Some(s) => {
            let v = to_chars(s);
            assert(v@.subrange(0, v@.len() as int) =~= v@);
            match magnitude(v.as_slice(), 0, 10) {
                Some(m) => m,
                None => 0,
            }
        },
        None => 0,
    }
}

/// The value of an option of a free-form line.
pub open spec fn option_of(kv: splitter::KvModel, key: Seq<char>) -> Option<Seq<char>> {
    match splitter::option_index(kv.options, key, 0) {
        Some(i) => Some(kv.options[i].1),
        None => None,
    }
}

/// The arguments of an include: a mapping, or a free-form line. A line that does not split has
/// none.
pub open spec fn params_of(args: Node) -> Option<ParamsModel> {
    match args {
        Node::Mapping { .. } => Some(
            ParamsModel {
                dir: ast::word_under(args, "dir"@),
                extensions: match args.value_of("extensions"@) {
                    Some(v) => ast::clauses(v),
                    None => default_extensions(),
                },
                depth: depth_of(ast::word_under(args, "depth"@)),
            },
        ),
        Node::Scalar { value, .. } => match splitter::split_of(value@) {
            Err(_) => None,
            Ok(tokens) => {
                let kv = splitter::kv_of_tokens(tokens, false);
                Some(
                    ParamsModel {
                        dir: option_of(kv, "dir"@),
                        extensions: match option_of(kv, "extensions"@) {
                            Some(s) => seq![s],
                            None => default_extensions(),
                        },
                        depth: depth_of(option_of(kv, "depth"@)),
                    },
                )
            },
        },
        _ => None,
    }
}

fn owned(s: Option<&str>) -> (r: Option<String>)
    ensures
        r is Some == s is Some,
        r is Some ==> (r->0)@ == (s->0)@,
{
    match s {
        Some(s) => Some(s.to_owned()),
        None => None,
    }
}

/// The arguments of an include.
pub fn params_from_args(args: &Node) -> (r: Option<Params>)
    ensures
        r is Some == params_of(*args) is Some,
        r is Some ==> (r->0).view() == params_of(*args)->0,
{
    match args {
        Node::Mapping { .. } => {
            let extensions = match args.get("extensions") {
                Some(v) => ast::clauses_of(v),
                None => usual_extensions(),
            };
            Some(
                Params {
                    dir: owned(word_of(args, "dir")),
                    extensions,
                    depth: read_depth(word_of(args, "depth")),
                },
            )
        },
        Node::Scalar { value, .. } => match parse_kv(value.as_str(), false) {
            Err(_) => None,
            Ok(kv) => {
                let extensions = match kv.get("extensions") {
                    Some(s) => {
                        let mut one: Vec<String> = Vec::new();
                        push_text(&mut one, s);
                        assert(splitter::texts(one@) =~= seq![s@]);
                        one
                    },
                    None => usual_extensions(),
                };
                Some(
                    Params {
                        dir: owned(kv.get("dir")),
                        extensions,
                        depth: read_depth(kv.get("depth")),
                    },
                )
            },
        },
        _ => None,
    }
}

} // verus!
