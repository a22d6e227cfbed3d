//! The reverse index: from a file to every reference in the workspace that reaches it.
//!
//! An edge is one reference, not one pair of files: two includes of the same file are two edges. A
//! templated reference has an edge to every candidate that the resolver offered: that can only make
//! a file look used when it might not be.

use crate::fs::Fs;
use crate::order::{self, is_path_less};
use crate::parse::{Document, Span};
use crate::paths::{self, is_path_among, is_same_path};
use crate::references::{Reference, ReferenceKind};
use crate::resolve::Resolution;
use crate::splitter;
use vstd::prelude::*;

verus! {

#[derive(Debug, Clone, PartialEq, Eq)]
pub struct Edge {
    /// The file that the reference is written in, in its one spelling.
    pub source: String,
    /// Where the value of the reference stands in it.
    pub span: Span,
    /// The line of that place, from 0.
    pub line: u32,
    pub kind: ReferenceKind,
    /// The value is templated, so this is one of the files that it may reach.
    pub templated: bool,
}

/// What an [`Edge`] says.
pub struct EdgeModel {
    pub source: Seq<char>,
    pub span: Span,
    pub line: u32,
    pub kind: ReferenceKind,
    pub templated: bool,
}

impl Edge {
    pub open spec fn view(&self) -> EdgeModel {
        EdgeModel {
            source: self.source@,
            span: self.span,
            line: self.line,
            kind: self.kind,
            templated: self.templated,
        }
    }
}

/// What edges say.
pub open spec fn edge_models(v: Seq<Edge>) -> Seq<EdgeModel> {
    v.map_values(|e: Edge| e.view())
}

/// The edges that leave one file.
#[derive(Debug)]
pub struct SourceEdges {
    pub source: String,
    pub edges: Vec<(String, Edge)>,
}

/// What edges with their targets say.
pub open spec fn pair_models(v: Seq<(String, Edge)>) -> Seq<(Seq<char>, EdgeModel)> {
    Seq::new(v.len(), |i: int| (v[i].0@, v[i].1.view()))
}

/// The edges of an index, by the file that they reach. Those of one file stand by the file that they
/// come from, then by line.
#[derive(Debug)]
pub struct ReverseIndex {
    pub by_target: Vec<(String, Vec<Edge>)>,
}

/// The entries of an index.
pub type Entries = Seq<(Seq<char>, Seq<EdgeModel>)>;

/// What entries say.
pub open spec fn entry_models(v: Seq<(String, Vec<Edge>)>) -> Entries {
    Seq::new(v.len(), |i: int| (v[i].0@, edge_models(v[i].1@)))
}

/// Does the edge `a` stand before the edge `b`?
pub open spec fn edge_less(a: EdgeModel, b: EdgeModel) -> bool {
    ||| order::path_less(a.source, b.source)
    ||| paths::same_path(a.source, b.source) && a.line < b.line
    ||| paths::same_path(a.source, b.source) && a.line == b.line && a.span.start < b.span.start
}

/// Edges in order.
pub open spec fn in_order(v: Seq<EdgeModel>) -> bool {
    forall|i: int, j: int| 0 <= i < j < v.len() ==> !edge_less(#[trigger] v[j], #[trigger] v[i])
}

/// Where an edge goes: behind all that do not stand after it.
pub open spec fn edge_slot(v: Seq<EdgeModel>, e: EdgeModel, i: int) -> int
    decreases v.len() - i,
{
    if i < 0 || i >= v.len() || edge_less(e, v[i]) {
        i
    } else {
        edge_slot(v, e, i + 1)
    }
}

/// Edges in order with one more.
pub open spec fn placed(v: Seq<EdgeModel>, e: EdgeModel) -> Seq<EdgeModel> {
    v.insert(edge_slot(v, e, 0), e)
}

/// The first `n` edges without those of a source.
pub open spec fn kept(v: Seq<EdgeModel>, n: int, source: Seq<char>) -> Seq<EdgeModel>
    decreases n,
{
    if n <= 0 || n > v.len() {
        Seq::empty()
    } else if paths::same_path(v[n - 1].source, source) {
        kept(v, n - 1, source)
    } else {
        kept(v, n - 1, source).push(v[n - 1])
    }
}

/// The edges into a file, from entry `i` on.
pub open spec fn edges_into(of: Entries, target: Seq<char>, i: int) -> Seq<EdgeModel>
    decreases of.len() - i,
{
    if i < 0 || i >= of.len() {
        Seq::empty()
    } else if paths::same_path(of[i].0, target) {
        of[i].1
    } else {
        edges_into(of, target, i + 1)
    }
}

/// The edges into a file once the first `n` of more edges are added to those in `held`.
pub open spec fn poured(
    more: Seq<(Seq<char>, EdgeModel)>,
    n: int,
    target: Seq<char>,
    held: Seq<EdgeModel>,
) -> Seq<EdgeModel>
    decreases n,
{
    if n <= 0 || n > more.len() {
        held
    } else if paths::same_path(more[n - 1].0, target) {
        placed(poured(more, n - 1, target, held), more[n - 1].1)
    } else {
        poured(more, n - 1, target, held)
    }
}

/// How many edges the first `n` entries hold.
pub open spec fn total(of: Entries, n: int) -> nat
    decreases n,
{
    if n <= 0 || n > of.len() {
        0
    } else {
        total(of, n - 1) + of[n - 1].1.len()
    }
}

impl ReverseIndex {
    pub open spec fn view(&self) -> Entries {
        entry_models(self.by_target@)
    }

    /// The edges into a file.
    pub open spec fn reaching(&self, target: Seq<char>) -> Seq<EdgeModel> {
        edges_into(self.view(), target, 0)
    }

    pub open spec fn wf(&self) -> bool {
        well_formed(self.view())
    }
}

/// The one spelling of a path, where it exists.
pub open spec fn canon_of<F: Fs>(fs: &F, p: Seq<char>) -> Seq<char> {
    match fs.settled(p) {
        Some(q) => q,
        None => p,
    }
}

/// The edges of one reference to the first `n` of its targets.
pub open spec fn target_edges<F: Fs>(
    fs: &F,
    targets: Seq<Seq<char>>,
    n: int,
    e: EdgeModel,
) -> Seq<(Seq<char>, EdgeModel)>
    decreases n,
{
    if n <= 0 || n > targets.len() {
        Seq::empty()
    } else {
        target_edges(fs, targets, n - 1, e).push((canon_of(fs, targets[n - 1]), e))
    }
}

/// The edges of the first `n` references of a file. The reference that spans a first-match list
/// reaches the same file as the alternative that wins, so it has none of its own.
pub open spec fn ref_edges<F: Fs>(
    fs: &F,
    source: Seq<char>,
    refs: Seq<(Reference, Resolution)>,
    n: int,
    doc: &Document,
) -> Seq<(Seq<char>, EdgeModel)>
    decreases n,
{
    if n <= 0 || n > refs.len() {
        Seq::empty()
    } else {
        let before = ref_edges(fs, source, refs, n - 1, doc);
        let r = refs[n - 1].0.view();
        let targets = refs[n - 1].1.view().targets;
        if r.vars_files_group is Some {
            before
        } else {
            before + target_edges(
                fs,
                targets,
                targets.len() as int,
                EdgeModel {
                    source,
                    span: r.span,
                    line: doc.line_at(r.span.start as int) as u32,
                    kind: r.kind,
                    templated: r.templated,
                },
            )
        }
    }
}

// -------------------------------------------------------------- the functions

/// The one spelling of a path, or the path as it is where nothing is there.
pub fn canon<F: Fs>(fs: &F, p: &str) -> (r: String)
    ensures
        r@ == canon_of(fs, p@),
{
    match fs.canonical(p) {
        Some(q) => q,
        None => p.to_owned(),
    }
}

fn push_pair(v: &mut Vec<(String, Edge)>, target: String, e: Edge)
    ensures
        pair_models(final(v)@) == pair_models(old(v)@).push((target@, e.view())),
        final(v)@ == old(v)@.push((target, e)),
{
    let ghost before = v@;
    let ghost pair = (target@, e.view());
    v.push((target, e));
    assert(pair_models(v@) =~= pair_models(before).push(pair));
}

/// The edges that one file has: one for each target of each of its references.
pub fn edges_of<F: Fs>(
    fs: &F,
    source: &str,
    refs: &Vec<(Reference, Resolution)>,
    doc: &Document,
) -> (r: SourceEdges)
    requires
        doc.wf(),
    ensures
        r.wf(),
        r.source@ == canon_of(fs, source@),
        pair_models(r.edges@) == ref_edges(fs, r.source@, refs@, refs@.len() as int, doc),
{
    let from = canon(fs, source);
    let mut edges: Vec<(String, Edge)> = Vec::new();
    let n: usize = refs.len();
    let mut i: usize = 0;
    assert(pair_models(edges@) =~= Seq::empty());
    while i < n
        invariant
            doc.wf(),
            i <= n == refs@.len(),
            pair_models(edges@) == ref_edges(fs, from@, refs@, i as int, doc),
            forall|j: int| 0 <= j < edges@.len() ==> (#[trigger] edges@[j]).1.source@ == from@,
        decreases n - i,
    {
        let r = &refs[i].0;
        let res = &refs[i].1;
        if r.vars_files_group.is_none() {
            let (line, _) = doc.byte_to_lsp(r.span.start);
            let ghost before = pair_models(edges@);
            let ghost targets = splitter::texts(res.targets@);
            let ghost e = EdgeModel {
                source: from@,
                span: r.span,
                line,
                kind: r.kind,
                templated: r.templated,
            };
            let m: usize = res.targets.len();
            let mut k: usize = 0;
            assert(before =~= before + Seq::empty());
            while k < m
                invariant
                    k <= m == res.targets@.len(),
                    targets == splitter::texts(res.targets@),
                    e == (EdgeModel {
                        source: from@,
                        span: r.span,
                        line,
                        kind: r.kind,
                        templated: r.templated,
                    }),
                    pair_models(edges@) == before + target_edges(fs, targets, k as int, e),
                    forall|j: int|
                        0 <= j < edges@.len() ==> (#[trigger] edges@[j]).1.source@ == from@,
                decreases m - k,
            {
                let target = canon(fs, res.targets[k].as_str());
                let edge = Edge {
                    source: from.clone(),
                    span: r.span,
                    line,
                    kind: r.kind,
                    templated: r.templated,
                };
                assert(edge.view() == e);
                push_pair(&mut edges, target, edge);
                k += 1;
                assert(pair_models(edges@) =~= before + target_edges(fs, targets, k as int, e));
            }
        }
        i += 1;
    }
    SourceEdges { source: from, edges }
}

fn is_edge_less(a: &Edge, b: &Edge) -> (r: bool)
    ensures
        r == edge_less(a.view(), b.view()),
{
    is_path_less(a.source.as_str(), b.source.as_str()) || (is_same_path(
        a.source.as_str(),
        b.source.as_str(),
    ) && (a.line < b.line || (a.line == b.line && a.span.start < b.span.start)))
}

proof fn edge_less_is_transitive(a: EdgeModel, b: EdgeModel, c: EdgeModel)
    requires
        !edge_less(b, a),
        !edge_less(c, b),
    ensures
        !edge_less(c, a),
{
    order::paths_are_in_order(a.source, b.source);
    order::paths_are_in_order(b.source, c.source);
    order::paths_are_in_order(a.source, b.source);
    order::paths_are_in_order(b.source, c.source);
    order::paths_are_in_order(a.source, c.source);
    if order::path_less(a.source, b.source) && order::path_less(b.source, c.source) {
        order::path_order_is_transitive(a.source, b.source, c.source);
    }
}

proof fn slot_splits(v: Seq<EdgeModel>, e: EdgeModel, i: int)
    requires
        0 <= i <= v.len(),
        forall|j: int| 0 <= j < i ==> !edge_less(e, #[trigger] v[j]),
    ensures
        i <= edge_slot(v, e, i) <= v.len(),
        forall|j: int| 0 <= j < edge_slot(v, e, i) ==> !edge_less(e, #[trigger] v[j]),
        edge_slot(v, e, i) < v.len() ==> edge_less(e, v[edge_slot(v, e, i)]),
    decreases v.len() - i,
{
    if i < v.len() && !edge_less(e, v[i]) {
        slot_splits(v, e, i + 1);
    }
}

proof fn edge_less_is_strict(a: EdgeModel, b: EdgeModel)
    ensures
        edge_less(a, b) ==> !edge_less(b, a),
{
    order::paths_are_in_order(a.source, b.source);
    order::paths_are_in_order(b.source, a.source);
}

/// Edges in order stay so with one more.
pub proof fn placing_keeps_order(v: Seq<EdgeModel>, e: EdgeModel)
    requires
        in_order(v),
    ensures
        in_order(placed(v, e)),
{
    slot_splits(v, e, 0);
    let k = edge_slot(v, e, 0);
    let w = placed(v, e);
    assert forall|i: int, j: int| 0 <= i < j < w.len() implies !edge_less(
        #[trigger] w[j],
        #[trigger] w[i],
    ) by {
        if i == k {
            edge_less_is_strict(e, v[k]);
            if j - 1 > k {
                assert(!edge_less(v[j - 1], v[k]));
                edge_less_is_transitive(e, v[k], v[j - 1]);
            }
        } else if j == k {
            assert(!edge_less(e, v[i]));
        } else if j < k {
            assert(!edge_less(v[j], v[i]));
        } else if i < k {
            assert(!edge_less(v[j - 1], v[i]));
        } else {
            assert(!edge_less(v[j - 1], v[i - 1]));
        }
    }
}

fn place_edge(v: &mut Vec<Edge>, e: Edge)
    ensures
        edge_models(final(v)@) == placed(edge_models(old(v)@), e.view()),
{
    let ghost model = edge_models(v@);
    let ghost m = e.view();
    let n: usize = v.len();
    let mut i: usize = 0;
    while i < n && !is_edge_less(&e, &v[i])
        invariant
            i <= n == v@.len(),
            v@ == old(v)@,
            model == edge_models(v@),
            m == e.view(),
            edge_slot(model, m, 0) == edge_slot(model, m, i as int),
        decreases n - i,
    {
        i += 1;
    }
    v.insert(i, e);
    assert(edge_models(v@) =~= model.insert(i as int, m));
}

// -------------------------------------------------------------- the index

/// Each file stands once, in order; none has no edges; and the edges of each are in order.
pub open spec fn well_formed(of: Entries) -> bool {
    &&& forall|i: int, j: int|
        0 <= i < j < of.len() ==> order::path_less((#[trigger] of[i]).0, (#[trigger] of[j]).0)
    &&& forall|i: int|
        0 <= i < of.len() ==> (#[trigger] of[i]).1.len() > 0 && in_order(of[i].1)
}

/// The first `n` entries without the edges of a source; an entry that is left without edges goes.
pub open spec fn dropped(of: Entries, n: int, source: Seq<char>) -> Entries
    decreases n,
{
    if n <= 0 || n > of.len() {
        Seq::empty()
    } else {
        let before = dropped(of, n - 1, source);
        let list = of[n - 1].1;
        let rest = kept(list, list.len() as int, source);
        if rest.len() == 0 {
            before
        } else {
            before.push((of[n - 1].0, rest))
        }
    }
}

/// Where the entry of a file stands, or would stand.
pub open spec fn entry_slot(of: Entries, target: Seq<char>, i: int) -> int
    decreases of.len() - i,
{
    if i < 0 || i >= of.len() || !order::path_less(of[i].0, target) {
        i
    } else {
        entry_slot(of, target, i + 1)
    }
}

/// The entries with one more edge.
pub open spec fn added(of: Entries, target: Seq<char>, e: EdgeModel) -> Entries {
    let k = entry_slot(of, target, 0);
    if 0 <= k < of.len() && paths::same_path(of[k].0, target) {
        of.update(k, (of[k].0, placed(of[k].1, e)))
    } else {
        of.insert(k, (target, seq![e]))
    }
}

/// The entries with the first `n` of more edges.
pub open spec fn added_all(of: Entries, more: Seq<(Seq<char>, EdgeModel)>, n: int) -> Entries
    decreases n,
{
    if n <= 0 || n > more.len() {
        of
    } else {
        added(added_all(of, more, n - 1), more[n - 1].0, more[n - 1].1)
    }
}

proof fn found(of: Entries, target: Seq<char>, i: int, k: int)
    requires
        0 <= i <= k < of.len(),
        paths::same_path(of[k].0, target),
        forall|j: int| i <= j < k ==> !paths::same_path((#[trigger] of[j]).0, target),
    ensures
        edges_into(of, target, i) == of[k].1,
    decreases k - i,
{
    if i < k {
        found(of, target, i + 1, k);
    }
}

proof fn missing(of: Entries, target: Seq<char>, i: int)
    requires
        0 <= i,
        forall|j: int| i <= j < of.len() ==> !paths::same_path((#[trigger] of[j]).0, target),
    ensures
        edges_into(of, target, i) == Seq::<EdgeModel>::empty(),
    decreases of.len() - i,
{
    if i < of.len() {
        missing(of, target, i + 1);
    }
}

/// In an index each file has its own list.
proof fn entry_is_found(of: Entries, k: int, target: Seq<char>)
    requires
        well_formed(of),
        0 <= k < of.len(),
        paths::same_path(of[k].0, target),
    ensures
        edges_into(of, target, 0) == of[k].1,
{
    assert forall|j: int| 0 <= j < k implies !paths::same_path((#[trigger] of[j]).0, target) by {
        assert(order::path_less(of[j].0, of[k].0));
        order::paths_are_in_order(of[j].0, of[k].0);
    }
    found(of, target, 0, k);
}

proof fn entry_slot_splits(of: Entries, target: Seq<char>, i: int)
    requires
        0 <= i <= of.len(),
        forall|j: int| 0 <= j < i ==> order::path_less((#[trigger] of[j]).0, target),
    ensures
        i <= entry_slot(of, target, i) <= of.len(),
        forall|j: int|
            0 <= j < entry_slot(of, target, i) ==> order::path_less(
                (#[trigger] of[j]).0,
                target,
            ),
        entry_slot(of, target, i) < of.len() ==> !order::path_less(
            of[entry_slot(of, target, i)].0,
            target,
        ),
    decreases of.len() - i,
{
    if i < of.len() && order::path_less(of[i].0, target) {
        entry_slot_splits(of, target, i + 1);
    }
}

/// Behind the slot of a file stand only files that come after it.
proof fn behind_the_slot(of: Entries, target: Seq<char>, j: int)
    requires
        well_formed(of),
        entry_slot(of, target, 0) <= j < of.len(),
        j == entry_slot(of, target, 0) ==> !paths::same_path(of[j].0, target),
    ensures
        order::path_less(target, of[j].0),
        !paths::same_path(of[j].0, target),
{
    entry_slot_splits(of, target, 0);
    let k = entry_slot(of, target, 0);
    order::paths_are_in_order(of[k].0, target);
    if k < j {
        assert(order::path_less(of[k].0, of[j].0));
        if !paths::same_path(of[k].0, target) {
            order::path_order_is_transitive(target, of[k].0, of[j].0);
        }
    }
    order::paths_are_in_order(target, of[j].0);
}

/// An edge more goes into the list of its file, and every other list stays.
pub proof fn an_edge_goes_to_its_file(
    of: Entries,
    target: Seq<char>,
    e: EdgeModel,
    other: Seq<char>,
)
    requires
        well_formed(of),
    ensures
        well_formed(added(of, target, e)),
        edges_into(added(of, target, e), other, 0) == if paths::same_path(target, other) {
            placed(edges_into(of, other, 0), e)
        } else {
            edges_into(of, other, 0)
        },
{
    let k = entry_slot(of, target, 0);
    let w = added(of, target, e);
    entry_slot_splits(of, target, 0);
    order::paths_are_in_order(target, target);
    if k < of.len() && paths::same_path(of[k].0, target) {
        placing_keeps_order(of[k].1, e);
        slot_splits(of[k].1, e, 0);
        assert(forall|j: int| 0 <= j < w.len() ==> (#[trigger] w[j]).0 == of[j].0);
        assert(well_formed(w));
        if paths::same_path(target, other) {
            entry_is_found(of, k, other);
            entry_is_found(w, k, other);
        } else if exists|m: int| 0 <= m < of.len() && paths::same_path((#[trigger] of[m]).0, other) {
            let m = choose|m: int| 0 <= m < of.len() && paths::same_path((#[trigger] of[m]).0, other);
            entry_is_found(of, m, other);
            entry_is_found(w, m, other);
        } else {
            missing(of, other, 0);
            missing(w, other, 0);
        }
    } else {
        assert forall|j: int| k <= j < of.len() implies order::path_less(
            target,
            (#[trigger] of[j]).0,
        ) && !paths::same_path(of[j].0, target) by {
            behind_the_slot(of, target, j);
        }
        assert forall|j: int| 0 <= j < of.len() implies !paths::same_path((#[trigger] of[j]).0, target) by {
            if j < k {
                assert(order::path_less(of[j].0, target));
            }
        }
        assert(forall|j: int| 0 <= j < k ==> (#[trigger] w[j]) == of[j]);
        assert(forall|j: int| k < j < w.len() ==> (#[trigger] w[j]) == of[j - 1]);
        assert(w[k] == (target, seq![e]));
        assert forall|i: int, j: int| 0 <= i < j < w.len() implies order::path_less(
            (#[trigger] w[i]).0,
            (#[trigger] w[j]).0,
        ) by {
            if i != k && j != k {
                let a = if i < k {
                    i
                } else {
                    i - 1
                };
                let b = if j < k {
                    j
                } else {
                    j - 1
                };
                assert(order::path_less(of[a].0, of[b].0));
            } else if i == k {
                assert(of[j - 1].0 == w[j].0);
            } else {
                assert(of[i].0 == w[i].0);
            }
        }
        assert(well_formed(w));
        if paths::same_path(target, other) {
            missing(of, other, 0);
            entry_is_found(w, k, other);
            assert(placed(Seq::empty(), e) =~= seq![e]);
        } else if exists|m: int| 0 <= m < of.len() && paths::same_path((#[trigger] of[m]).0, other) {
            let m = choose|m: int| 0 <= m < of.len() && paths::same_path((#[trigger] of[m]).0, other);
            entry_is_found(of, m, other);
            let n = if m < k {
                m
            } else {
                m + 1
            };
            assert(w[n] == of[m]);
            entry_is_found(w, n, other);
        } else {
            missing(of, other, 0);
            assert forall|j: int| 0 <= j < w.len() implies !paths::same_path((#[trigger] w[j]).0, other) by {
                if j < k {
                    assert(w[j] == of[j]);
                } else if j > k {
                    assert(w[j] == of[j - 1]);
                }
            }
            missing(w, other, 0);
        }
    }
}

proof fn all_edges_go_to_their_files(
    of: Entries,
    more: Seq<(Seq<char>, EdgeModel)>,
    n: int,
    target: Seq<char>,
)
    requires
        well_formed(of),
        0 <= n <= more.len(),
    ensures
        well_formed(added_all(of, more, n)),
        edges_into(added_all(of, more, n), target, 0) == poured(
            more,
            n,
            target,
            edges_into(of, target, 0),
        ),
    decreases n,
{
    if n > 0 {
        all_edges_go_to_their_files(of, more, n - 1, target);
        an_edge_goes_to_its_file(
            added_all(of, more, n - 1),
            more[n - 1].0,
            more[n - 1].1,
            target,
        );
    }
}

proof fn kept_is_a_part(v: Seq<EdgeModel>, n: int, source: Seq<char>)
    requires
        0 <= n <= v.len(),
        in_order(v),
    ensures
        in_order(kept(v, n, source)),
        forall|i: int|
            0 <= i < kept(v, n, source).len() ==> {
                &&& !paths::same_path((#[trigger] kept(v, n, source)[i]).source, source)
                &&& exists|j: int| 0 <= j < n && #[trigger] v[j] == kept(v, n, source)[i]
            },
    decreases n,
{
    if n > 0 {
        kept_is_a_part(v, n - 1, source);
        let before = kept(v, n - 1, source);
        let w = kept(v, n, source);
        if !paths::same_path(v[n - 1].source, source) {
            assert(w == before.push(v[n - 1]));
            assert forall|i: int, j: int| 0 <= i < j < w.len() implies !edge_less(
                #[trigger] w[j],
                #[trigger] w[i],
            ) by {
                if j == before.len() {
                    assert(w[i] == before[i]);
                    let m = choose|m: int| 0 <= m < n - 1 && #[trigger] v[m] == before[i];
                    assert(!edge_less(v[n - 1], v[m]));
                } else {
                    assert(w[i] == before[i] && w[j] == before[j]);
                }
            }
            assert forall|i: int| 0 <= i < w.len() implies {
                &&& !paths::same_path((#[trigger] w[i]).source, source)
                &&& exists|j: int| 0 <= j < n && #[trigger] v[j] == w[i]
            } by {
                if i < before.len() {
                    assert(w[i] == before[i]);
                    let m = choose|m: int| 0 <= m < n - 1 && #[trigger] v[m] == before[i];
                    assert(v[m] == w[i]);
                } else {
                    assert(v[n - 1] == w[i]);
                }
            }
        }
    }
}

/// Dropping a source takes its edges out of every list and changes no other.
proof fn dropping_keeps_the_rest(of: Entries, n: int, source: Seq<char>, target: Seq<char>)
    requires
        well_formed(of),
        0 <= n <= of.len(),
    ensures
        well_formed(dropped(of, n, source)),
        forall|i: int|
            0 <= i < dropped(of, n, source).len() ==> exists|j: int|
                0 <= j < n && (#[trigger] of[j]).0 == (#[trigger] dropped(of, n, source)[i]).0,
        edges_into(dropped(of, n, source), target, 0) == {
            let v = edges_into(of.take(n), target, 0);
            kept(v, v.len() as int, source)
        },
    decreases n,
{
    if n > 0 {
        dropping_keeps_the_rest(of, n - 1, source, target);
        let before = dropped(of, n - 1, source);
        let w = dropped(of, n, source);
        let list = of[n - 1].1;
        let rest = kept(list, list.len() as int, source);
        let a = of.take(n - 1);
        let b = of.take(n);
        assert(b =~= a.push(of[n - 1]));
        kept_is_a_part(list, list.len() as int, source);
        assert forall|i: int| 0 <= i < before.len() implies order::path_less(
            (#[trigger] before[i]).0,
            of[n - 1].0,
        ) by {
            let j = choose|j: int| 0 <= j < n - 1 && (#[trigger] of[j]).0 == before[i].0;
            assert(order::path_less(of[j].0, of[n - 1].0));
        }
        if rest.len() > 0 {
            assert(w == before.push((of[n - 1].0, rest)));
            assert forall|i: int, j: int| 0 <= i < j < w.len() implies order::path_less(
                (#[trigger] w[i]).0,
                (#[trigger] w[j]).0,
            ) by {
                assert(w[i] == before[i]);
                if j < before.len() {
                    assert(w[j] == before[j]);
                }
            }
            assert forall|i: int| 0 <= i < w.len() implies (#[trigger] w[i]).1.len() > 0
                && in_order(w[i].1) by {
                if i < before.len() {
                    assert(w[i] == before[i]);
                }
            }
            assert forall|i: int| 0 <= i < w.len() implies exists|j: int|
                0 <= j < n && (#[trigger] of[j]).0 == (#[trigger] w[i]).0 by {
                if i < before.len() {
                    assert(w[i] == before[i]);
                    let j = choose|j: int| 0 <= j < n - 1 && (#[trigger] of[j]).0 == before[i].0;
                    assert(of[j].0 == w[i].0);
                } else {
                    assert(of[n - 1].0 == w[i].0);
                }
            }
        }
        assert(well_formed(w));
        part_is_well_formed(of, n - 1);
        part_is_well_formed(of, n);
        if paths::same_path(of[n - 1].0, target) {
            entry_is_found(b, n - 1, target);
            assert forall|j: int| 0 <= j < before.len() implies !paths::same_path(
                (#[trigger] before[j]).0,
                target,
            ) by {
                order::paths_are_in_order(before[j].0, target);
            }
            if rest.len() > 0 {
                entry_is_found(w, w.len() - 1, target);
            } else {
                missing(w, target, 0);
                assert(rest =~= Seq::empty());
            }
        } else {
            same_without_the_last(a, of[n - 1], target);
            if rest.len() > 0 {
                same_without_the_last(before, (of[n - 1].0, rest), target);
            }
        }
    }
}

proof fn part_is_well_formed(of: Entries, n: int)
    requires
        well_formed(of),
        0 <= n <= of.len(),
    ensures
        well_formed(of.take(n)),
{
    let a = of.take(n);
    assert(forall|j: int| 0 <= j < n ==> #[trigger] a[j] == of[j]);
}

proof fn same_without_the_last(
    of: Entries,
    last: (Seq<char>, Seq<EdgeModel>),
    target: Seq<char>,
)
    requires
        !paths::same_path(last.0, target),
    ensures
        edges_into(of.push(last), target, 0) == edges_into(of, target, 0),
{
    let w = of.push(last);
    if exists|m: int| 0 <= m < of.len() && paths::same_path((#[trigger] of[m]).0, target) {
        first_with(of, target, 0);
        let m = choose|m: int|
            0 <= m < of.len() && paths::same_path((#[trigger] of[m]).0, target) && forall|j: int|
                0 <= j < m ==> !paths::same_path((#[trigger] of[j]).0, target);
        found(of, target, 0, m);
        assert(forall|j: int| 0 <= j < of.len() ==> #[trigger] w[j] == of[j]);
        found(w, target, 0, m);
    } else {
        missing(of, target, 0);
        assert forall|j: int| 0 <= j < w.len() implies !paths::same_path((#[trigger] w[j]).0, target) by {
            if j < of.len() {
                assert(w[j] == of[j]);
            }
        }
        missing(w, target, 0);
    }
}

proof fn first_with(of: Entries, target: Seq<char>, i: int)
    requires
        0 <= i <= of.len(),
        forall|j: int| 0 <= j < i ==> !paths::same_path((#[trigger] of[j]).0, target),
        exists|m: int| 0 <= m < of.len() && paths::same_path((#[trigger] of[m]).0, target),
    ensures
        exists|m: int|
            0 <= m < of.len() && paths::same_path((#[trigger] of[m]).0, target) && forall|j: int|
                0 <= j < m ==> !paths::same_path((#[trigger] of[j]).0, target),
    decreases of.len() - i,
{
    if i < of.len() && !paths::same_path(of[i].0, target) {
        first_with(of, target, i + 1);
    }
}

/// Edges without those of a source.
pub open spec fn without(v: Seq<EdgeModel>, source: Seq<char>) -> Seq<EdgeModel> {
    kept(v, v.len() as int, source)
}

/// Edges without those of the first `n` of some sources.
pub open spec fn without_all(v: Seq<EdgeModel>, gone: Seq<Seq<char>>, n: int) -> Seq<EdgeModel>
    decreases n,
{
    if n <= 0 || n > gone.len() {
        v
    } else {
        without(without_all(v, gone, n - 1), gone[n - 1])
    }
}

/// Does an edge of the index come from this file?
pub open spec fn is_source(of: Entries, s: Seq<char>) -> bool {
    exists|i: int, j: int|
        0 <= i < of.len() && 0 <= j < of[i].1.len() && paths::same_path(
            (#[trigger] of[i].1[j]).source,
            s,
        )
}

/// Does an edge of the index have its source spelled like this?
pub open spec fn is_spelled(of: Entries, s: Seq<char>) -> bool {
    exists|i: int, j: int|
        0 <= i < of.len() && 0 <= j < of[i].1.len() && (#[trigger] of[i].1[j]).source == s
}

spec fn is_among_first(v: Seq<EdgeModel>, n: int, s: Seq<char>) -> bool {
    exists|j: int| 0 <= j < n && paths::same_path((#[trigger] v[j]).source, s)
}

/// Can `keep` answer `b` about a path?
pub open spec fn answers<K: Fn(&str) -> bool>(keep: K, s: Seq<char>, b: bool) -> bool {
    exists|x: &str| x@ == s && #[trigger] call_ensures(keep, (x,), b)
}

/// Does `keep` accept the file, as an edge of the index spells it?
pub open spec fn is_kept<K: Fn(&str) -> bool>(of: Entries, keep: K, s: Seq<char>) -> bool {
    exists|t: Seq<char>|
        #[trigger] paths::same_path(t, s) && is_spelled(of, t) && answers(keep, t, true)
}

/// The index `after` is the index `before` without the sources in `gone`, which are those that
/// `keep` refused.
pub open spec fn retained<K: Fn(&str) -> bool>(
    before: ReverseIndex,
    after: ReverseIndex,
    keep: K,
    gone: Seq<Seq<char>>,
) -> bool {
    &&& forall|i: int|
        0 <= i < gone.len() ==> answers(keep, #[trigger] gone[i], false) && is_spelled(
            before.view(),
            gone[i],
        )
    &&& forall|s: Seq<char>|
        #[trigger] is_source(before.view(), s) && !paths::path_among(gone, s) ==> is_kept(
            before.view(),
            keep,
            s,
        )
    &&& forall|t: Seq<char>|
        #[trigger] after.reaching(t) == without_all(before.reaching(t), gone, gone.len() as int)
}

impl SourceEdges {
    /// All edges leave the one file.
    pub open spec fn wf(&self) -> bool {
        forall|i: int| 0 <= i < self.edges@.len() ==> (#[trigger] self.edges@[i]).1.source@
            == self.source@
    }
}

proof fn one_taken_out<A>(head: Seq<A>, of: Seq<A>, n: int)
    requires
        0 <= n < of.len(),
    ensures
        (head + of.skip(n)).remove(head.len() as int) == head + of.skip(n + 1),
{
    assert((head + of.skip(n)).remove(head.len() as int) =~= head + of.skip(n + 1));
}

fn keep_others(v: &mut Vec<Edge>, source: &str)
    ensures
        edge_models(final(v)@) == without(edge_models(old(v)@), source@),
{
    let ghost model = edge_models(v@);
    let ghost mut seen: int = 0;
    let mut i: usize = 0;
    assert(model =~= kept(model, 0, source@) + model.skip(0));
    while i < v.len()
        invariant
            0 <= seen <= model.len(),
            i == kept(model, seen, source@).len(),
            i <= v@.len(),
            edge_models(v@) == kept(model, seen, source@) + model.skip(seen),
        decreases v@.len() - i,
    {
        let ghost before = v@;
        assert(edge_models(before)[i as int] == model.skip(seen)[0]);
        if is_same_path(v[i].source.as_str(), source) {
            v.remove(i);
            assert(edge_models(v@) =~= edge_models(before).remove(i as int));
            proof {
                one_taken_out(kept(model, seen, source@), model, seen);
            }
            assert(edge_models(v@) =~= kept(model, seen, source@) + model.skip(seen + 1));
        } else {
            i += 1;
            assert(edge_models(v@) =~= kept(model, seen, source@).push(model[seen]) + model.skip(
                seen + 1,
            ));
        }
        proof {
            seen = seen + 1;
        }
    }
    assert(edge_models(v@).len() == kept(model, seen, source@).len() + model.skip(seen).len());
    assert(edge_models(v@) =~= kept(model, model.len() as int, source@));
}

impl Default for ReverseIndex {
    fn default() -> (r: Self)
        ensures
            r.wf(),
            r.view() == Seq::<(Seq<char>, Seq<EdgeModel>)>::empty(),
    {
        let r = ReverseIndex { by_target: Vec::new() };
        assert(r.view() =~= Seq::empty());
        r
    }
}

impl ReverseIndex {
    fn remove_canonical(&mut self, source: &str)
        requires
            old(self).wf(),
        ensures
            final(self).wf(),
            final(self).view() == dropped(old(self).view(), old(self).view().len() as int, source@),
            forall|t: Seq<char>|
                #[trigger] final(self).reaching(t) == without(old(self).reaching(t), source@),
    {
        let ghost model = self.view();
        let ghost mut seen: int = 0;
        let mut i: usize = 0;
        assert(model =~= dropped(model, 0, source@) + model.skip(0));
        while i < self.by_target.len()
            invariant
                0 <= seen <= model.len(),
                i == dropped(model, seen, source@).len(),
                i <= self.by_target@.len(),
                self.view() == dropped(model, seen, source@) + model.skip(seen),
            decreases self.by_target@.len() - i,
        {
            let ghost before = self.by_target@;
            assert(self.view()[i as int] == model.skip(seen)[0]);
            keep_others(&mut self.by_target[i].1, source);
            assert(forall|j: int|
                0 <= j < before.len() && j != i ==> #[trigger] self.by_target@[j] == before[j]);
            if self.by_target[i].1.len() == 0 {
                let ghost all = self.by_target@;
                assert(entry_models(all) =~= entry_models(before).update(
                    i as int,
                    entry_models(all)[i as int],
                ));
                self.by_target.remove(i);
                assert(self.view() =~= entry_models(before).remove(i as int));
                proof {
                    one_taken_out(dropped(model, seen, source@), model, seen);
                }
                assert(self.view() =~= dropped(model, seen, source@) + model.skip(seen + 1));
            } else {
                let ghost rest = without(model[seen].1, source@);
                assert(edge_models(self.by_target@[i as int].1@) == rest);
                assert(self.view() =~= entry_models(before).update(
                    i as int,
                    (model[seen].0, rest),
                ));
                i += 1;
                assert(self.view() =~= dropped(model, seen, source@).push((model[seen].0, rest))
                    + model.skip(seen + 1));
            }
            proof {
                seen = seen + 1;
            }
        }
        assert(self.view().len() == dropped(model, seen, source@).len() + model.skip(seen).len());
        assert(self.view() =~= dropped(model, model.len() as int, source@));
        proof {
            assert(model.take(model.len() as int) =~= model);
            dropping_keeps_the_rest(model, model.len() as int, source@, Seq::empty());
            assert forall|t: Seq<char>| #[trigger]
                self.reaching(t) == without(old(self).reaching(t), source@) by {
                dropping_keeps_the_rest(model, model.len() as int, source@, t);
            }
        }
    }

    fn place(&mut self, target: String, e: Edge)
        requires
            old(self).wf(),
        ensures
            final(self).wf(),
            final(self).view() == added(old(self).view(), target@, e.view()),
    {
        let ghost model = self.view();
        let ghost m = e.view();
        let n: usize = self.by_target.len();
        let mut i: usize = 0;
        while i < n && is_path_less(self.by_target[i].0.as_str(), target.as_str())
            invariant
                i <= n == self.by_target@.len(),
                *self == *old(self),
                model == self.view(),
                entry_slot(model, target@, 0) == entry_slot(model, target@, i as int),
            decreases n - i,
        {
            i += 1;
        }
        proof {
            an_edge_goes_to_its_file(model, target@, m, target@);
        }
        if i < n && is_same_path(self.by_target[i].0.as_str(), target.as_str()) {
            let ghost before = self.by_target@;
            place_edge(&mut self.by_target[i].1, e);
            assert(forall|j: int|
                0 <= j < before.len() && j != i ==> #[trigger] self.by_target@[j] == before[j]);
            assert(self.view() =~= model.update(
                i as int,
                (model[i as int].0, placed(model[i as int].1, m)),
            ));
        } else {
            let ghost name = target@;
            let mut list: Vec<Edge> = Vec::new();
            list.push(e);
            assert(edge_models(list@) =~= seq![m]);
            self.by_target.insert(i, (target, list));
            assert(self.view() =~= model.insert(i as int, (name, seq![m])));
        }
    }

    /// Sets the edges of a file to exactly these and drops those that it had. A file that can no
    /// longer be read leaves the index with an empty list.
    pub fn replace(&mut self, edges: SourceEdges)
        requires
            old(self).wf(),
            edges.wf(),
        ensures
            final(self).wf(),
            final(self).view() == added_all(
                dropped(old(self).view(), old(self).view().len() as int, edges.source@),
                pair_models(edges.edges@),
                edges.edges@.len() as int,
            ),
            forall|t: Seq<char>|
                #[trigger] final(self).reaching(t) == poured(
                    pair_models(edges.edges@),
                    edges.edges@.len() as int,
                    t,
                    without(old(self).reaching(t), edges.source@),
                ),
    {
        let SourceEdges { source, edges: more } = edges;
        self.remove_canonical(source.as_str());
        let ghost rest = *self;
        let ghost pairs = pair_models(more@);
        let mut more = more;
        let ghost mut done: int = 0;
        assert(more@ =~= edges.edges@.skip(0));
        while more.len() > 0
            invariant
                0 <= done <= edges.edges@.len(),
                more@ == edges.edges@.skip(done),
                pairs == pair_models(edges.edges@),
                rest.wf(),
                self.wf(),
                self.view() == added_all(rest.view(), pairs, done),
            decreases more@.len(),
        {
            let (target, edge) = more.remove(0);
            assert(pairs[done] == (target@, edge.view()));
            self.place(target, edge);
            proof {
                done = done + 1;
            }
            assert(more@ =~= edges.edges@.skip(done));
        }
        proof {
            assert(done == edges.edges@.len());
            assert forall|t: Seq<char>| #[trigger]
                self.reaching(t) == poured(
                    pairs,
                    done,
                    t,
                    without(old(self).reaching(t), edges.source@),
                ) by {
                all_edges_go_to_their_files(rest.view(), pairs, done, t);
                assert(rest.reaching(t) == without(old(self).reaching(t), edges.source@));
            }
        }
    }

    /// Drops the edges of a file.
    pub fn remove<F: Fs>(&mut self, fs: &F, source: &str)
        requires
            old(self).wf(),
        ensures
            final(self).wf(),
            final(self).view() == dropped(
                old(self).view(),
                old(self).view().len() as int,
                canon_of(fs, source@),
            ),
            forall|t: Seq<char>|
                #[trigger] final(self).reaching(t) == without(old(self).reaching(t), canon_of(fs, source@)),
    {
        let k = canon(fs, source);
        self.remove_canonical(k.as_str());
    }

    /// The files that edges of the index come from, each once, spelled as an edge has it.
    pub fn sources(&self) -> (r: Vec<String>)
        ensures
            forall|i: int, j: int|
                0 <= i < j < r@.len() ==> !paths::same_path(
                    (#[trigger] r@[i])@,
                    (#[trigger] r@[j])@,
                ),
            forall|i: int| 0 <= i < r@.len() ==> is_spelled(self.view(), (#[trigger] r@[i])@),
            forall|s: Seq<char>|
                paths::path_among(splitter::texts(r@), s) <==> #[trigger] is_source(
                    self.view(),
                    s,
                ),
    {
        let ghost model = self.view();
        let mut r: Vec<String> = Vec::new();
        let n: usize = self.by_target.len();
        let mut i: usize = 0;
        while i < n
            invariant
                i <= n == self.by_target@.len(),
                model == self.view(),
                forall|x: int, y: int|
                    0 <= x < y < r@.len() ==> !paths::same_path(
                        (#[trigger] r@[x])@,
                        (#[trigger] r@[y])@,
                    ),
                forall|x: int| 0 <= x < r@.len() ==> is_spelled(model, (#[trigger] r@[x])@),
                forall|s: Seq<char>|
                    paths::path_among(splitter::texts(r@), s) <==> #[trigger] is_source(
                        model.take(i as int),
                        s,
                    ),
            decreases n - i,
        {
            let list = &self.by_target[i].1;
            let ghost edges = model[i as int].1;
            let ghost head = model.take(i as int);
            let m: usize = list.len();
            let mut k: usize = 0;
            while k < m
                invariant
                    k <= m == list@.len(),
                    i < model.len(),
                    edges == edge_models(list@),
                    edges == model[i as int].1,
                    forall|x: int, y: int|
                        0 <= x < y < r@.len() ==> !paths::same_path(
                            (#[trigger] r@[x])@,
                            (#[trigger] r@[y])@,
                        ),
                    forall|x: int| 0 <= x < r@.len() ==> is_spelled(model, (#[trigger] r@[x])@),
                    forall|s: Seq<char>| #[trigger]
                        paths::path_among(splitter::texts(r@), s) <==> is_source(head, s)
                            || is_among_first(edges, k as int, s),
                decreases m - k,
            {
                let ghost before = splitter::texts(r@);
                let ghost was = r@;
                let ghost name = list@[k as int].source@;
                assert(edges[k as int].source == name);
                let there = is_path_among(&r, list[k].source.as_str());
                if !there {
                    r.push(list[k].source.clone());
                    assert(splitter::texts(r@) =~= before.push(name));
                    assert(model[i as int].1[k as int].source == name);
                    assert forall|x: int, y: int| 0 <= x < y < r@.len() implies !paths::same_path(
                        (#[trigger] r@[x])@,
                        (#[trigger] r@[y])@,
                    ) by {
                        assert(r@[x] == was[x]);
                        assert(before[x] == was[x]@);
                        if y < was.len() {
                            assert(r@[y] == was[y]);
                        }
                    }
                }
                let ghost after = splitter::texts(r@);
                assert forall|s: Seq<char>| #[trigger]
                    paths::path_among(after, s) <==> is_source(head, s) || is_among_first(
                        edges,
                        k + 1int,
                        s,
                    ) by {
                    with_one_more(before, name, s);
                    one_edge_more(edges, k as int, s);
                    assert(paths::path_among(before, s) <==> is_source(head, s) || is_among_first(
                        edges,
                        k as int,
                        s,
                    ));
                    if there && paths::same_path(name, s) {
                        let j = choose|j: int|
                            0 <= j < before.len() && paths::same_path(#[trigger] before[j], name);
                        assert(paths::same_path(before[j], s));
                    }
                }
                k += 1;
            }
            assert forall|s: Seq<char>|
                paths::path_among(splitter::texts(r@), s) <==> #[trigger] is_source(
                    model.take(i + 1int),
                    s,
                ) by {
                one_entry_more(model, i as int, s);
                assert(paths::path_among(splitter::texts(r@), s) <==> is_source(head, s)
                    || is_among_first(edges, m as int, s));
            }
            i += 1;
        }
        assert(model.take(n as int) =~= model);
        r
    }

    /// Drops every file that `keep` refuses.
    pub fn retain_sources<K: Fn(&str) -> bool>(&mut self, keep: K)
        requires
            old(self).wf(),
            forall|x: &str| call_requires(keep, (x,)),
        ensures
            final(self).wf(),
            exists|gone: Seq<Seq<char>>| #[trigger]
                retained(*old(self), *final(self), keep, gone),
    {
        let all = self.sources();
        let ghost names = splitter::texts(all@);
        let ghost first = *self;
        let ghost mut gone: Seq<Seq<char>> = Seq::empty();
        let n: usize = all.len();
        let mut i: usize = 0;
        while i < n
            invariant
                i <= n == all@.len(),
                first == *old(self),
                names == splitter::texts(all@),
                self.wf(),
                forall|x: &str| call_requires(keep, (x,)),
                forall|k: int| 0 <= k < n ==> is_spelled(first.view(), (#[trigger] all@[k])@),
                forall|k: int|
                    0 <= k < gone.len() ==> answers(keep, #[trigger] gone[k], false) && is_spelled(
                        first.view(),
                        gone[k],
                    ),
                forall|k: int|
                    0 <= k < i ==> paths::path_among(gone, #[trigger] names[k]) || answers(
                        keep,
                        names[k],
                        true,
                    ),
                forall|t: Seq<char>|
                    #[trigger] self.reaching(t) == without_all(first.reaching(t), gone, gone.len() as int),
            decreases n - i,
        {
            let s = all[i].as_str();
            assert(names[i as int] == s@);
            assert(is_spelled(first.view(), all@[i as int]@));
            if !keep(s) {
                assert(answers(keep, s@, false));
                let ghost before = *self;
                self.remove_canonical(s);
                let ghost more = gone.push(s@);
                assert forall|t: Seq<char>| #[trigger]
                    self.reaching(t) == without_all(first.reaching(t), more, more.len() as int) by {
                    assert(before.reaching(t) == without_all(first.reaching(t), gone, gone.len() as int));
                    same_so_far(first.reaching(t), gone, s@, gone.len() as int);
                }
                assert forall|k: int| 0 <= k < i + 1 implies paths::path_among(
                    more,
                    #[trigger] names[k],
                ) || answers(keep, names[k], true) by {
                    with_one_more(gone, s@, names[k]);
                }
                assert forall|k: int| 0 <= k < more.len() implies answers(
                    keep,
                    #[trigger] more[k],
                    false,
                ) && is_spelled(first.view(), more[k]) by {
                    if k < gone.len() {
                        assert(more[k] == gone[k]);
                    }
                }
                proof {
                    gone = more;
                }
            } else {
                assert(answers(keep, s@, true));
            }
            i += 1;
        }
        proof {
            assert forall|s: Seq<char>| #[trigger]
                is_source(first.view(), s) && !paths::path_among(gone, s) implies is_kept(
                first.view(),
                keep,
                s,
            ) by {
                assert(paths::path_among(names, s));
                let k = choose|k: int|
                    0 <= k < names.len() && paths::same_path(#[trigger] names[k], s);
                if paths::path_among(gone, names[k]) {
                    let j = choose|j: int|
                        0 <= j < gone.len() && paths::same_path(#[trigger] gone[j], names[k]);
                    assert(paths::same_path(gone[j], s));
                }
                assert(is_spelled(first.view(), all@[k]@));
                assert(paths::same_path(names[k], s));
            }
            assert(retained(*old(self), *self, keep, gone));
        }
    }

    /// The edges into a file, by the file that they come from, then by line.
    pub fn inbound<F: Fs>(&self, fs: &F, target: &str) -> (r: &[Edge])
        ensures
            edge_models(r@) == self.reaching(canon_of(fs, target@)),
    {
        let k = canon(fs, target);
        let ghost model = self.view();
        let n: usize = self.by_target.len();
        let mut i: usize = 0;
        while i < n
            invariant
                i <= n == self.by_target@.len(),
                model == self.view(),
                k@ == canon_of(fs, target@),
                edges_into(model, k@, 0) == edges_into(model, k@, i as int),
            decreases n - i,
        {
            if is_same_path(self.by_target[i].0.as_str(), k.as_str()) {
                return self.by_target[i].1.as_slice();
            }
            i += 1;
        }
        let r: &[Edge] = &[];
        assert(edge_models(r@) =~= Seq::empty());
        r
    }

    /// Every file that is reached, in path order, with the edges into it.
    pub fn targets(&self) -> (r: Vec<(&str, &[Edge])>)
        ensures
            r@.len() == self.view().len(),
            forall|i: int|
                0 <= i < r@.len() ==> (#[trigger] r@[i]).0@ == self.view()[i].0 && edge_models(
                    r@[i].1@,
                ) == self.view()[i].1,
    {
        let mut r: Vec<(&str, &[Edge])> = Vec::new();
        let n: usize = self.by_target.len();
        let mut i: usize = 0;
        while i < n
            invariant
                i <= n == self.by_target@.len(),
                r@.len() == i,
                forall|k: int|
                    0 <= k < i ==> (#[trigger] r@[k]).0@ == self.view()[k].0 && edge_models(
                        r@[k].1@,
                    ) == self.view()[k].1,
            decreases n - i,
        {
            let entry = &self.by_target[i];
            r.push((entry.0.as_str(), entry.1.as_slice()));
            i += 1;
        }
        r
    }

    /// How many edges there are.
    pub fn len(&self) -> (r: usize)
        requires
            total(self.view(), self.view().len() as int) <= usize::MAX,
        ensures
            r == total(self.view(), self.view().len() as int),
    {
        let ghost model = self.view();
        let n: usize = self.by_target.len();
        let mut sum: usize = 0;
        let mut i: usize = 0;
        while i < n
            invariant
                i <= n == self.by_target@.len(),
                model == self.view(),
                sum == total(model, i as int),
                total(model, n as int) <= usize::MAX,
            decreases n - i,
        {
            proof {
                total_grows(model, i + 1, n as int);
                assert(model[i as int].1.len() == self.by_target@[i as int].1@.len());
            }
            sum = sum + self.by_target[i].1.len();
            i += 1;
        }
        sum
    }

    pub fn is_empty(&self) -> (r: bool)
        ensures
            r == (self.view().len() == 0),
    {
        self.by_target.len() == 0
    }
}

proof fn total_grows(of: Entries, a: int, b: int)
    requires
        0 <= a <= b <= of.len(),
    ensures
        total(of, a) <= total(of, b),
    decreases b,
{
    if a < b {
        total_grows(of, a, b - 1);
    }
}

proof fn one_edge_more(v: Seq<EdgeModel>, n: int, s: Seq<char>)
    requires
        0 <= n < v.len(),
    ensures
        is_among_first(v, n + 1, s) <==> is_among_first(v, n, s) || paths::same_path(
            v[n].source,
            s,
        ),
{
    if paths::same_path(v[n].source, s) {
        assert(is_among_first(v, n + 1, s));
    }
    if is_among_first(v, n, s) {
        let j = choose|j: int| 0 <= j < n && paths::same_path((#[trigger] v[j]).source, s);
        assert(paths::same_path(v[j].source, s) && j < n + 1);
    }
}

proof fn with_one_more(v: Seq<Seq<char>>, name: Seq<char>, s: Seq<char>)
    ensures
        paths::path_among(v.push(name), s) <==> paths::path_among(v, s) || paths::same_path(
            name,
            s,
        ),
{
    let w = v.push(name);
    assert(w[v.len() as int] == name);
    if paths::path_among(v, s) {
        let j = choose|j: int| 0 <= j < v.len() && paths::same_path(#[trigger] v[j], s);
        assert(w[j] == v[j]);
    }
    if paths::path_among(w, s) {
        let j = choose|j: int| 0 <= j < w.len() && paths::same_path(#[trigger] w[j], s);
        if j < v.len() {
            assert(v[j] == w[j]);
        }
    }
}

proof fn one_entry_more(of: Entries, n: int, s: Seq<char>)
    requires
        0 <= n < of.len(),
    ensures
        is_source(of.take(n + 1), s) <==> is_source(of.take(n), s) || is_among_first(
            of[n].1,
            of[n].1.len() as int,
            s,
        ),
{
    let a = of.take(n);
    let b = of.take(n + 1);
    let last = of[n].1;
    assert(forall|i: int| 0 <= i < n ==> #[trigger] b[i] == a[i]);
    assert(b[n] == of[n]);
    if is_source(a, s) {
        let (i, j) = choose|i: int, j: int|
            0 <= i < a.len() && 0 <= j < a[i].1.len() && paths::same_path(
                (#[trigger] a[i].1[j]).source,
                s,
            );
        assert(paths::same_path(b[i].1[j].source, s));
    }
    if is_among_first(last, last.len() as int, s) {
        let j = choose|j: int|
            0 <= j < last.len() && paths::same_path((#[trigger] last[j]).source, s);
        assert(paths::same_path(b[n].1[j].source, s));
    }
    if is_source(b, s) {
        let (i, j) = choose|i: int, j: int|
            0 <= i < b.len() && 0 <= j < b[i].1.len() && paths::same_path(
                (#[trigger] b[i].1[j]).source,
                s,
            );
        if i < n {
            assert(paths::same_path(a[i].1[j].source, s));
        } else {
            assert(paths::same_path(last[j].source, s));
        }
    }
}

proof fn same_so_far(v: Seq<EdgeModel>, gone: Seq<Seq<char>>, s: Seq<char>, n: int)
    requires
        0 <= n <= gone.len(),
    ensures
        without_all(v, gone.push(s), n) == without_all(v, gone, n),
    decreases n,
{
    if n > 0 {
        same_so_far(v, gone, s, n - 1);
        assert(gone.push(s)[n - 1] == gone[n - 1]);
    }
}

// ----------------------------------------------------------------------- laws

/// The edges of a list that come from one file.
pub open spec fn from_source(v: Seq<EdgeModel>, source: Seq<char>) -> Seq<EdgeModel> {
    v.filter(|e: EdgeModel| paths::same_path(e.source, source))
}

proof fn from_source_of_pushed(v: Seq<EdgeModel>, e: EdgeModel, source: Seq<char>)
    ensures
        from_source(v.push(e), source) == if paths::same_path(e.source, source) {
            from_source(v, source).push(e)
        } else {
            from_source(v, source)
        },
{
    reveal(Seq::filter);
    assert(v.push(e).drop_last() =~= v);
}

proof fn kept_from_source(v: Seq<EdgeModel>, n: int, source: Seq<char>, other: Seq<char>)
    requires
        0 <= n <= v.len(),
    ensures
        from_source(kept(v, n, source), other) == if paths::same_path(other, source) {
            Seq::empty()
        } else {
            from_source(v.take(n), other)
        },
    decreases n,
{
    reveal(Seq::filter);
    if n > 0 {
        kept_from_source(v, n - 1, source, other);
        assert(v.take(n) =~= v.take(n - 1).push(v[n - 1]));
        from_source_of_pushed(v.take(n - 1), v[n - 1], other);
        from_source_of_pushed(kept(v, n - 1, source), v[n - 1], other);
    } else {
        assert(v.take(0) =~= Seq::empty());
    }
}

/// A source that is dropped leaves no edge behind, and the edges of every other source stay as they
/// were, in their order.
pub proof fn dropping_takes_one_source(
    v: Seq<EdgeModel>,
    source: Seq<char>,
    other: Seq<char>,
)
    ensures
        from_source(without(v, source), source) == Seq::<EdgeModel>::empty(),
        !paths::same_path(other, source) ==> from_source(without(v, source), other) == from_source(
            v,
            other,
        ),
{
    kept_from_source(v, v.len() as int, source, source);
    kept_from_source(v, v.len() as int, source, other);
    assert(v.take(v.len() as int) =~= v);
}

proof fn placed_from_source(v: Seq<EdgeModel>, e: EdgeModel, other: Seq<char>)
    requires
        !paths::same_path(e.source, other),
    ensures
        from_source(placed(v, e), other) == from_source(v, other),
{
    slot_splits(v, e, 0);
    let k = edge_slot(v, e, 0);
    let pred = |e: EdgeModel| paths::same_path(e.source, other);
    let a = v.take(k);
    let b = v.skip(k);
    assert(placed(v, e) =~= a.push(e) + b);
    assert(v =~= a + b);
    Seq::filter_distributes_over_add(a.push(e), b, pred);
    Seq::filter_distributes_over_add(a, b, pred);
    from_source_of_pushed(a, e, other);
}

proof fn poured_from_source(
    more: Seq<(Seq<char>, EdgeModel)>,
    n: int,
    target: Seq<char>,
    v: Seq<EdgeModel>,
    source: Seq<char>,
    other: Seq<char>,
)
    requires
        0 <= n <= more.len(),
        forall|i: int| 0 <= i < more.len() ==> (#[trigger] more[i]).1.source == source,
        !paths::same_path(other, source),
    ensures
        from_source(poured(more, n, target, v), other) == from_source(v, other),
    decreases n,
{
    if n > 0 {
        poured_from_source(more, n - 1, target, v, source, other);
        if paths::same_path(more[n - 1].0, target) {
            placed_from_source(poured(more, n - 1, target, v), more[n - 1].1, other);
        }
    }
}

/// Replacing the edges of a file changes nothing of the edges that come from another.
pub proof fn replacing_leaves_other_sources(
    v: Seq<EdgeModel>,
    edges: SourceEdges,
    target: Seq<char>,
    other: Seq<char>,
)
    requires
        edges.wf(),
        !paths::same_path(other, edges.source@),
    ensures
        from_source(
            poured(
                pair_models(edges.edges@),
                edges.edges@.len() as int,
                target,
                without(v, edges.source@),
            ),
            other,
        ) == from_source(v, other),
{
    dropping_takes_one_source(v, edges.source@, other);
    poured_from_source(
        pair_models(edges.edges@),
        edges.edges@.len() as int,
        target,
        without(v, edges.source@),
        edges.source@,
        other,
    );
}

/// A file that is replaced by no edges at all leaves the index: no list holds an edge of it.
pub proof fn an_empty_replacement_removes(v: Seq<EdgeModel>, source: Seq<char>, target: Seq<char>)
    ensures
        poured(Seq::empty(), 0, target, without(v, source)) == without(v, source),
        from_source(without(v, source), source) == Seq::<EdgeModel>::empty(),
{
    dropping_takes_one_source(v, source, source);
}

/// Those of the first `n` edges that reach a file, in the order in which they were given.
pub open spec fn aimed(more: Seq<(Seq<char>, EdgeModel)>, n: int, target: Seq<char>) -> Seq<
    EdgeModel,
>
    decreases n,
{
    if n <= 0 || n > more.len() {
        Seq::empty()
    } else if paths::same_path(more[n - 1].0, target) {
        aimed(more, n - 1, target).push(more[n - 1].1)
    } else {
        aimed(more, n - 1, target)
    }
}

proof fn placed_is_one_more(v: Seq<EdgeModel>, e: EdgeModel)
    ensures
        placed(v, e).to_multiset() == v.to_multiset().insert(e),
{
    slot_splits(v, e, 0);
    vstd::seq_lib::to_multiset_insert(v, edge_slot(v, e, 0), e);
}

proof fn poured_is_a_sum(
    more: Seq<(Seq<char>, EdgeModel)>,
    n: int,
    target: Seq<char>,
    v: Seq<EdgeModel>,
)
    requires
        0 <= n <= more.len(),
    ensures
        poured(more, n, target, v).to_multiset() == v.to_multiset().add(
            aimed(more, n, target).to_multiset(),
        ),
    decreases n,
{
    let sum = v.to_multiset().add(aimed(more, n, target).to_multiset());
    if n > 0 {
        poured_is_a_sum(more, n - 1, target, v);
        if paths::same_path(more[n - 1].0, target) {
            placed_is_one_more(poured(more, n - 1, target, v), more[n - 1].1);
            aimed(more, n - 1, target).to_multiset_ensures();
            assert(poured(more, n, target, v).to_multiset() =~= sum);
        }
    } else {
        assert(poured(more, n, target, v).to_multiset() =~= sum) by {
            Seq::<EdgeModel>::empty().to_multiset_ensures();
        }
    }
}

proof fn placed_from_own_source(v: Seq<EdgeModel>, e: EdgeModel, source: Seq<char>)
    requires
        paths::same_path(e.source, source),
    ensures
        from_source(placed(v, e), source).to_multiset() == from_source(
            v,
            source,
        ).to_multiset().insert(e),
{
    slot_splits(v, e, 0);
    let k = edge_slot(v, e, 0);
    let pred = |e: EdgeModel| paths::same_path(e.source, source);
    let a = v.take(k);
    let b = v.skip(k);
    assert(placed(v, e) =~= a.push(e) + b);
    assert(v =~= a + b);
    Seq::filter_distributes_over_add(a.push(e), b, pred);
    Seq::filter_distributes_over_add(a, b, pred);
    from_source_of_pushed(a, e, source);
    let x = from_source(a, source);
    let y = from_source(b, source);
    assert(x.push(e) + y =~= (x + y).insert(x.len() as int, e));
    vstd::seq_lib::to_multiset_insert(x + y, x.len() as int, e);
}

proof fn poured_from_own_source(
    more: Seq<(Seq<char>, EdgeModel)>,
    n: int,
    target: Seq<char>,
    v: Seq<EdgeModel>,
    source: Seq<char>,
)
    requires
        0 <= n <= more.len(),
        forall|i: int| 0 <= i < more.len() ==> (#[trigger] more[i]).1.source == source,
        from_source(v, source) == Seq::<EdgeModel>::empty(),
    ensures
        from_source(poured(more, n, target, v), source).to_multiset() == aimed(
            more,
            n,
            target,
        ).to_multiset(),
    decreases n,
{
    if n > 0 {
        poured_from_own_source(more, n - 1, target, v, source);
        if paths::same_path(more[n - 1].0, target) {
            placed_from_own_source(poured(more, n - 1, target, v), more[n - 1].1, source);
            aimed(more, n - 1, target).to_multiset_ensures();
        }
    }
}

/// Replacing the edges of a file sets them: afterwards those that come from it and reach a file are
/// exactly the new ones that do. The list of that file holds them and what it held of others, and
/// nothing else.
pub proof fn replacing_sets_the_edges(v: Seq<EdgeModel>, edges: SourceEdges, target: Seq<char>)
    requires
        edges.wf(),
    ensures
        from_source(
            poured(
                pair_models(edges.edges@),
                edges.edges@.len() as int,
                target,
                without(v, edges.source@),
            ),
            edges.source@,
        ).to_multiset() == aimed(
            pair_models(edges.edges@),
            edges.edges@.len() as int,
            target,
        ).to_multiset(),
        poured(
            pair_models(edges.edges@),
            edges.edges@.len() as int,
            target,
            without(v, edges.source@),
        ).to_multiset() == without(v, edges.source@).to_multiset().add(
            aimed(
                pair_models(edges.edges@),
                edges.edges@.len() as int,
                target,
            ).to_multiset(),
        ),
{
    let more = pair_models(edges.edges@);
    let n = edges.edges@.len() as int;
    let rest = without(v, edges.source@);
    dropping_takes_one_source(v, edges.source@, edges.source@);
    poured_from_own_source(more, n, target, rest, edges.source@);
    poured_is_a_sum(more, n, target, rest);
}

/// Dropping a source is a filter.
proof fn kept_is_a_filter(v: Seq<EdgeModel>, n: int, source: Seq<char>)
    requires
        0 <= n <= v.len(),
    ensures
        kept(v, n, source) == v.take(n).filter(
            |e: EdgeModel| !paths::same_path(e.source, source),
        ),
    decreases n,
{
    reveal(Seq::filter);
    if n > 0 {
        kept_is_a_filter(v, n - 1, source);
        assert(v.take(n).drop_last() =~= v.take(n - 1));
    }
}

proof fn without_is_a_filter(v: Seq<EdgeModel>, source: Seq<char>)
    ensures
        without(v, source) == v.filter(|e: EdgeModel| !paths::same_path(e.source, source)),
{
    kept_is_a_filter(v, v.len() as int, source);
    assert(v.take(v.len() as int) =~= v);
}

proof fn without_what_was_placed(v: Seq<EdgeModel>, e: EdgeModel, source: Seq<char>)
    requires
        paths::same_path(e.source, source),
    ensures
        without(placed(v, e), source) == without(v, source),
{
    slot_splits(v, e, 0);
    let k = edge_slot(v, e, 0);
    let pred = |e: EdgeModel| !paths::same_path(e.source, source);
    let a = v.take(k);
    let b = v.skip(k);
    without_is_a_filter(v, source);
    without_is_a_filter(placed(v, e), source);
    assert(placed(v, e) =~= a.push(e) + b);
    assert(v =~= a + b);
    Seq::filter_distributes_over_add(a.push(e), b, pred);
    Seq::filter_distributes_over_add(a, b, pred);
    assert(a.push(e).filter(pred) == a.filter(pred)) by {
        reveal(Seq::filter);
        assert(a.push(e).drop_last() =~= a);
    }
}

proof fn without_what_was_poured(
    more: Seq<(Seq<char>, EdgeModel)>,
    n: int,
    target: Seq<char>,
    v: Seq<EdgeModel>,
    source: Seq<char>,
)
    requires
        0 <= n <= more.len(),
        forall|i: int| 0 <= i < more.len() ==> (#[trigger] more[i]).1.source == source,
    ensures
        without(poured(more, n, target, v), source) == without(v, source),
    decreases n,
{
    if n > 0 {
        without_what_was_poured(more, n - 1, target, v, source);
        if paths::same_path(more[n - 1].0, target) {
            without_what_was_placed(poured(more, n - 1, target, v), more[n - 1].1, source);
        }
    }
}

proof fn nothing_to_drop(v: Seq<EdgeModel>, n: int, source: Seq<char>)
    requires
        0 <= n <= v.len(),
        forall|j: int| 0 <= j < v.len() ==> !paths::same_path((#[trigger] v[j]).source, source),
    ensures
        kept(v, n, source) == v.take(n),
    decreases n,
{
    if n > 0 {
        nothing_to_drop(v, n - 1, source);
        assert(v.take(n) =~= v.take(n - 1).push(v[n - 1]));
    } else {
        assert(v.take(0) =~= Seq::empty());
    }
}

proof fn comes_from_the_index(of: Entries, source: Seq<char>, target: Seq<char>, i: int)
    requires
        0 <= i,
        !is_source(of, source),
    ensures
        forall|j: int|
            0 <= j < edges_into(of, target, i).len() ==> !paths::same_path(
                (#[trigger] edges_into(of, target, i)[j]).source,
                source,
            ),
    decreases of.len() - i,
{
    if i < of.len() {
        if paths::same_path(of[i].0, target) {
            let v = of[i].1;
            assert forall|j: int| 0 <= j < v.len() implies !paths::same_path(
                (#[trigger] v[j]).source,
                source,
            ) by {
                assert(of[i].1[j].source == v[j].source);
            }
        } else {
            comes_from_the_index(of, source, target, i + 1);
        }
    }
}

/// Removing a file that was new to the index undoes its replacement: every list is what it was.
pub proof fn removing_undoes_replacing(of: Entries, edges: SourceEdges, target: Seq<char>)
    requires
        well_formed(of),
        edges.wf(),
        !is_source(of, edges.source@),
    ensures
        ({
            let with = added_all(
                dropped(of, of.len() as int, edges.source@),
                pair_models(edges.edges@),
                edges.edges@.len() as int,
            );
            edges_into(dropped(with, with.len() as int, edges.source@), target, 0) == edges_into(
                of,
                target,
                0,
            )
        }),
{
    let source = edges.source@;
    let more = pair_models(edges.edges@);
    let n = edges.edges@.len() as int;
    let rest = dropped(of, of.len() as int, source);
    let with = added_all(rest, more, n);
    let v = edges_into(of, target, 0);
    dropping_keeps_the_rest(of, of.len() as int, source, target);
    assert(of.take(of.len() as int) =~= of);
    all_edges_go_to_their_files(rest, more, n, target);
    dropping_keeps_the_rest(with, with.len() as int, source, target);
    assert(with.take(with.len() as int) =~= with);
    comes_from_the_index(of, source, target, 0);
    nothing_to_drop(v, v.len() as int, source);
    assert(v.take(v.len() as int) =~= v);
    without_what_was_poured(more, n, target, v, source);
}

proof fn filtered_twice(
    v: Seq<EdgeModel>,
    f: spec_fn(EdgeModel) -> bool,
    g: spec_fn(EdgeModel) -> bool,
    h: spec_fn(EdgeModel) -> bool,
)
    requires
        forall|e: EdgeModel| #[trigger] h(e) <==> f(e) && g(e),
    ensures
        v.filter(f).filter(g) == v.filter(h),
    decreases v.len(),
{
    reveal(Seq::filter);
    if v.len() > 0 {
        filtered_twice(v.drop_last(), f, g, h);
        let e = v.last();
        let x = v.drop_last().filter(f);
        assert(h(e) <==> f(e) && g(e));
        if f(e) {
            assert(x.push(e).drop_last() =~= x);
        }
    }
}

proof fn all_dropped(v: Seq<EdgeModel>, gone: Seq<Seq<char>>, n: int)
    requires
        0 <= n <= gone.len(),
    ensures
        without_all(v, gone, n) == v.filter(
            |e: EdgeModel| !paths::path_among(gone.take(n), e.source),
        ),
    decreases n,
{
    let h = |e: EdgeModel| !paths::path_among(gone.take(n), e.source);
    if n > 0 {
        all_dropped(v, gone, n - 1);
        let f = |e: EdgeModel| !paths::path_among(gone.take(n - 1), e.source);
        let g = |e: EdgeModel| !paths::same_path(e.source, gone[n - 1]);
        without_is_a_filter(without_all(v, gone, n - 1), gone[n - 1]);
        assert(gone.take(n) =~= gone.take(n - 1).push(gone[n - 1]));
        assert forall|e: EdgeModel| #[trigger] h(e) <==> f(e) && g(e) by {
            with_one_more(gone.take(n - 1), gone[n - 1], e.source);
        }
        filtered_twice(v, f, g, h);
    } else {
        assert(forall|e: EdgeModel| #[trigger] h(e));
        all_pass(v, h);
    }
}

proof fn all_pass(v: Seq<EdgeModel>, h: spec_fn(EdgeModel) -> bool)
    requires
        forall|e: EdgeModel| #[trigger] h(e),
    ensures
        v.filter(h) == v,
    decreases v.len(),
{
    reveal(Seq::filter);
    if v.len() > 0 {
        all_pass(v.drop_last(), h);
        assert(v.drop_last().push(v.last()) =~= v);
    } else {
        assert(v.filter(h) =~= v);
    }
}

/// Retaining sources filters every list: an edge stays where its source is none of those that are
/// gone, and those that stay keep their order.
pub proof fn retaining_is_a_filter<K: Fn(&str) -> bool>(
    before: ReverseIndex,
    after: ReverseIndex,
    keep: K,
    gone: Seq<Seq<char>>,
    target: Seq<char>,
)
    requires
        retained(before, after, keep, gone),
    ensures
        after.reaching(target) == before.reaching(target).filter(
            |e: EdgeModel| !paths::path_among(gone, e.source),
        ),
{
    all_dropped(before.reaching(target), gone, gone.len() as int);
    assert(gone.take(gone.len() as int) =~= gone);
}

/// The lists of all files together hold as many edges as the index counts.
pub proof fn the_lists_add_up(of: Entries, n: int)
    requires
        0 <= n <= of.len(),
    ensures
        of.take(n).map_values(|entry: (Seq<char>, Seq<EdgeModel>)| entry.1).flatten().len() == total(
            of,
            n,
        ),
    decreases n,
{
    let list = |entry: (Seq<char>, Seq<EdgeModel>)| entry.1;
    let all = of.take(n).map_values(list);
    if n > 0 {
        the_lists_add_up(of, n - 1);
        let before = of.take(n - 1).map_values(list);
        assert(all =~= before.push(of[n - 1].1));
        before.lemma_flatten_push(of[n - 1].1);
    } else {
        assert(all =~= Seq::empty());
    }
}

} // verus!
