//! Texts in order.

use crate::paths::{self, list_parts};
use crate::splitter;
use crate::text::{str_eq, to_chars};
use vstd::prelude::*;

verus! {

/// Does `a` come before `b` when they are compared character by character from `i` on?
pub open spec fn less_from(a: Seq<char>, b: Seq<char>, i: int) -> bool
    decreases a.len() - i,
{
    if i < 0 || i >= b.len() {
        false
    } else if i >= a.len() {
        true
    } else if a[i] != b[i] {
        (a[i] as int) < (b[i] as int)
    } else {
        less_from(a, b, i + 1)
    }
}

/// Does the text `a` come before the text `b`?
pub open spec fn less(a: Seq<char>, b: Seq<char>) -> bool {
    less_from(a, b, 0)
}

/// The rank of a component of a path: the root, then `.`, then `..`, then names.
pub open spec fn part_rank(part: Seq<char>) -> int {
    if part == seq!['/'] {
        0
    } else if part == seq!['.'] {
        1
    } else if part == seq!['.', '.'] {
        2
    } else {
        3
    }
}

/// Does the component `a` come before the component `b`?
pub open spec fn part_less(a: Seq<char>, b: Seq<char>) -> bool {
    part_rank(a) < part_rank(b) || (part_rank(a) == part_rank(b) && less(a, b))
}

/// Do the components `a` come before `b` when they are compared one by one from `i` on?
pub open spec fn parts_less(a: Seq<Seq<char>>, b: Seq<Seq<char>>, i: int) -> bool
    decreases a.len() - i,
{
    if i < 0 || i >= b.len() {
        false
    } else if i >= a.len() {
        true
    } else if a[i] != b[i] {
        part_less(a[i], b[i])
    } else {
        parts_less(a, b, i + 1)
    }
}

/// Does the path `a` come before the path `b`? They are compared component by component.
pub open spec fn path_less(a: Seq<char>, b: Seq<char>) -> bool {
    parts_less(paths::path_parts(a), paths::path_parts(b), 0)
}

/// Where a text goes among texts in order: before the first that is not less.
pub open spec fn slot(v: Seq<Seq<char>>, s: Seq<char>, i: int) -> int
    decreases v.len() - i,
{
    if i < 0 || i >= v.len() || !less(v[i], s) {
        i
    } else {
        slot(v, s, i + 1)
    }
}

/// Texts in order with one more; one that is there already is not repeated.
pub open spec fn inserted(v: Seq<Seq<char>>, s: Seq<char>) -> Seq<Seq<char>> {
    let k = slot(v, s, 0);
    if 0 <= k < v.len() && v[k] == s {
        v
    } else {
        v.insert(k, s)
    }
}

/// The first `n` texts in order, none repeated.
pub open spec fn sorted(of: Seq<Seq<char>>, n: int) -> Seq<Seq<char>>
    decreases n,
{
    if n <= 0 || n > of.len() {
        Seq::empty()
    } else {
        inserted(sorted(of, n - 1), of[n - 1])
    }
}

/// Is every text less than those behind it?
pub open spec fn increasing(v: Seq<Seq<char>>) -> bool {
    forall|i: int, j: int| 0 <= i < j < v.len() ==> less(#[trigger] v[i], #[trigger] v[j])
}

pub proof fn less_is_strict(a: Seq<char>, b: Seq<char>, i: int)
    requires
        0 <= i,
    ensures
        !less_from(a, a, i),
        less_from(a, b, i) ==> !less_from(b, a, i),
    decreases a.len() - i,
{
    if i < a.len() {
        less_is_strict(a, b, i + 1);
    }
}

pub proof fn less_is_transitive(a: Seq<char>, b: Seq<char>, c: Seq<char>, i: int)
    requires
        0 <= i,
        less_from(a, b, i),
        less_from(b, c, i),
    ensures
        less_from(a, c, i),
    decreases a.len() - i,
{
    if i < a.len() && a[i] == b[i] && b[i] == c[i] {
        less_is_transitive(a, b, c, i + 1);
    }
}

pub proof fn less_is_total(a: Seq<char>, b: Seq<char>, i: int)
    requires
        0 <= i,
        i <= a.len() && i <= b.len(),
        forall|j: int| 0 <= j < i ==> a[j] == b[j],
    ensures
        less_from(a, b, i) || less_from(b, a, i) || a == b,
    decreases a.len() - i,
{
    if i < a.len() && i < b.len() {
        if a[i] == b[i] {
            less_is_total(a, b, i + 1);
        }
    } else if i >= a.len() && i >= b.len() {
        assert(a =~= b);
    }
}

proof fn part_less_is_strict(a: Seq<char>, b: Seq<char>)
    ensures
        !part_less(a, a),
        part_less(a, b) ==> !part_less(b, a),
        part_less(a, b) || part_less(b, a) || a == b,
{
    less_is_strict(a, b, 0);
    less_is_strict(a, a, 0);
    less_is_total(a, b, 0);
}

proof fn parts_are_strict(a: Seq<Seq<char>>, b: Seq<Seq<char>>, i: int)
    requires
        0 <= i,
    ensures
        !parts_less(a, a, i),
        parts_less(a, b, i) ==> !parts_less(b, a, i),
    decreases a.len() - i,
{
    if i < a.len() {
        parts_are_strict(a, b, i + 1);
        if i < b.len() {
            part_less_is_strict(a[i], b[i]);
        }
    }
}

proof fn parts_are_transitive(
    a: Seq<Seq<char>>,
    b: Seq<Seq<char>>,
    c: Seq<Seq<char>>,
    i: int,
)
    requires
        0 <= i,
        parts_less(a, b, i),
        parts_less(b, c, i),
    ensures
        parts_less(a, c, i),
    decreases a.len() - i,
{
    if i < a.len() {
        if a[i] == b[i] && b[i] == c[i] {
            parts_are_transitive(a, b, c, i + 1);
        } else if a[i] != b[i] && b[i] != c[i] {
            if less(a[i], b[i]) && less(b[i], c[i]) {
                less_is_transitive(a[i], b[i], c[i], 0);
            }
            part_less_is_strict(a[i], b[i]);
            part_less_is_strict(b[i], c[i]);
        }
    }
}

proof fn parts_are_total(a: Seq<Seq<char>>, b: Seq<Seq<char>>, i: int)
    requires
        0 <= i,
        i <= a.len() && i <= b.len(),
        forall|j: int| 0 <= j < i ==> a[j] == b[j],
    ensures
        parts_less(a, b, i) || parts_less(b, a, i) || a == b,
    decreases a.len() - i,
{
    if i < a.len() && i < b.len() {
        if a[i] == b[i] {
            parts_are_total(a, b, i + 1);
        } else {
            part_less_is_strict(a[i], b[i]);
        }
    } else if i >= a.len() && i >= b.len() {
        assert(a =~= b);
    }
}

/// Of two paths one comes before the other, or they are the same, and only one of the three.
pub proof fn paths_are_in_order(a: Seq<char>, b: Seq<char>)
    ensures
        path_less(a, b) || path_less(b, a) || paths::same_path(a, b),
        path_less(a, b) ==> !path_less(b, a) && !paths::same_path(a, b),
{
    let x = paths::path_parts(a);
    let y = paths::path_parts(b);
    parts_are_total(x, y, 0);
    parts_are_strict(x, y, 0);
}

/// A path that comes before another comes before what the other comes before.
pub proof fn path_order_is_transitive(a: Seq<char>, b: Seq<char>, c: Seq<char>)
    requires
        path_less(a, b),
        path_less(b, c),
    ensures
        path_less(a, c),
{
    parts_are_transitive(paths::path_parts(a), paths::path_parts(b), paths::path_parts(c), 0);
}

proof fn slot_splits(v: Seq<Seq<char>>, s: Seq<char>, i: int)
    requires
        0 <= i <= v.len(),
        forall|j: int| 0 <= j < i ==> less(#[trigger] v[j], s),
    ensures
        i <= slot(v, s, i) <= v.len(),
        forall|j: int| 0 <= j < slot(v, s, i) ==> less(#[trigger] v[j], s),
        slot(v, s, i) < v.len() ==> !less(v[slot(v, s, i)], s),
    decreases v.len() - i,
{
    if i < v.len() && less(v[i], s) {
        slot_splits(v, s, i + 1);
    }
}

proof fn inserting_keeps_order(v: Seq<Seq<char>>, s: Seq<char>)
    requires
        increasing(v),
    ensures
        increasing(inserted(v, s)),
        forall|t: Seq<char>| inserted(v, s).contains(t) <==> v.contains(t) || t == s,
{
    slot_splits(v, s, 0);
    let k = slot(v, s, 0);
    let w = inserted(v, s);
    if k < v.len() && v[k] == s {
        assert forall|t: Seq<char>| w.contains(t) <==> v.contains(t) || t == s by {
            if t == s {
                assert(v[k] == t);
            }
        }
    } else {
        assert(w == v.insert(k, s));
        assert forall|i: int, j: int| 0 <= i < j < w.len() implies less(
            #[trigger] w[i],
            #[trigger] w[j],
        ) by {
            let a = if i < k {
                i
            } else {
                i - 1
            };
            let b = if j < k {
                j
            } else {
                j - 1
            };
            if i == k {
                less_is_total(v[k], s, 0);
                if b > k {
                    assert(less(v[k], v[b]));
                    less_is_transitive(s, v[k], v[b], 0);
                }
            } else if j == k {
                assert(less(v[a], s));
            } else {
                assert(less(v[a], v[b]));
            }
        }
        assert forall|t: Seq<char>| w.contains(t) <==> v.contains(t) || t == s by {
            if v.contains(t) {
                let m = choose|m: int| 0 <= m < v.len() && v[m] == t;
                if m < k {
                    assert(w[m] == t);
                } else {
                    assert(w[m + 1] == t);
                }
            }
            if t == s {
                assert(w[k] == s);
            }
            if w.contains(t) && t != s {
                let m = choose|m: int| 0 <= m < w.len() && w[m] == t;
                if m < k {
                    assert(v[m] == t);
                } else {
                    assert(v[m - 1] == t);
                }
            }
        }
    }
}

/// Sorting puts the texts in order, repeats none, and neither loses nor adds one.
pub proof fn sorting_keeps_the_texts(of: Seq<Seq<char>>, n: int)
    requires
        0 <= n <= of.len(),
    ensures
        increasing(sorted(of, n)),
        forall|t: Seq<char>| sorted(of, n).contains(t) <==> of.subrange(0, n).contains(t),
    decreases n,
{
    if n > 0 {
        sorting_keeps_the_texts(of, n - 1);
        let before = sorted(of, n - 1);
        inserting_keeps_order(before, of[n - 1]);
        assert forall|t: Seq<char>| sorted(of, n).contains(t) <==> of.subrange(0, n).contains(t) by {
            let a = of.subrange(0, n);
            let b = of.subrange(0, n - 1);
            assert(inserted(before, of[n - 1]).contains(t) <==> before.contains(t) || t == of[n
                - 1]);
            assert(before.contains(t) <==> b.contains(t));
            if b.contains(t) {
                let m = choose|m: int| 0 <= m < b.len() && b[m] == t;
                assert(a[m] == t);
            }
            if t == of[n - 1] {
                assert(a[n - 1] == t);
            }
            if a.contains(t) && t != of[n - 1] {
                let m = choose|m: int| 0 <= m < a.len() && a[m] == t;
                assert(b[m] == t);
            }
        }
    }
}

/// Does the text `a` come before the text `b`?
pub fn is_less(a: &str, b: &str) -> (r: bool)
    ensures
        r == less(a@, b@),
{
    let x = to_chars(a);
    let y = to_chars(b);
    let n: usize = x.len();
    let m: usize = y.len();
    let mut i: usize = 0;
    while i < n && i < m
        invariant
            i <= n == x@.len(),
            i <= m == y@.len(),
            x@ == a@,
            y@ == b@,
            less(a@, b@) == less_from(a@, b@, i as int),
        decreases n - i,
    {
        if x[i] != y[i] {
            return x[i] < y[i];
        }
        i += 1;
    }
    i < m
}

fn rank_part(part: &str) -> (r: u8)
    ensures
        r == part_rank(part@),
{
    proof {
        reveal_strlit("/");
        reveal_strlit(".");
        reveal_strlit("..");
        assert("/"@ =~= seq!['/']);
        assert("."@ =~= seq!['.']);
        assert(".."@ =~= seq!['.', '.']);
    }
    if str_eq(part, "/") {
        0
    } else if str_eq(part, ".") {
        1
    } else if str_eq(part, "..") {
        2
    } else {
        3
    }
}

fn is_part_less(a: &str, b: &str) -> (r: bool)
    ensures
        r == part_less(a@, b@),
{
    let x: u8 = rank_part(a);
    let y: u8 = rank_part(b);
    x < y || (x == y && is_less(a, b))
}

/// Does the path `a` come before the path `b`?
pub fn is_path_less(a: &str, b: &str) -> (r: bool)
    ensures
        r == path_less(a@, b@),
{
    let x = list_parts(a);
    let y = list_parts(b);
    let ghost u = splitter::texts(x@);
    let ghost v = splitter::texts(y@);
    let n: usize = x.len();
    let m: usize = y.len();
    let mut i: usize = 0;
    while i < n && i < m
        invariant
            i <= n == x@.len(),
            i <= m == y@.len(),
            u == splitter::texts(x@),
            v == splitter::texts(y@),
            u == paths::path_parts(a@),
            v == paths::path_parts(b@),
            path_less(a@, b@) == parts_less(u, v, i as int),
        decreases n - i,
    {
        assert(u[i as int] == x@[i as int]@ && v[i as int] == y@[i as int]@);
        if !str_eq(x[i].as_str(), y[i].as_str()) {
            return is_part_less(x[i].as_str(), y[i].as_str());
        }
        i += 1;
    }
    i < m
}

/// Adds a text to texts in order.
pub fn insert_text(v: &mut Vec<String>, s: String)
    ensures
        splitter::texts(final(v)@) == inserted(splitter::texts(old(v)@), s@),
{
    let ghost model = splitter::texts(v@);
    let n: usize = v.len();
    let mut i: usize = 0;
    while i < n && is_less(v[i].as_str(), s.as_str())
        invariant
            i <= n == v@.len(),
            v@ == old(v)@,
            model == splitter::texts(v@),
            slot(model, s@, 0) == slot(model, s@, i as int),
        decreases n - i,
    {
        i += 1;
    }
    if i < n && str_eq(v[i].as_str(), s.as_str()) {
        return ;
    }
    let ghost before = v@;
    let ghost text = s@;
    v.insert(i, s);
    assert(splitter::texts(v@) =~= model.insert(i as int, text));
}

} // verus!
