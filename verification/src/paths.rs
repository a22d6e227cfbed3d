//! Paths as text, with `/` between their components, the way Ansible prints them.

use crate::splitter;
use crate::text::{from_chars, str_eq, to_chars};
use vstd::prelude::*;

verus! {

pub open spec fn is_absolute_path(p: Seq<char>) -> bool {
    p.len() > 0 && p[0] == '/'
}

/// A path below another; an absolute one stands for itself.
pub open spec fn joined(base: Seq<char>, rest: Seq<char>) -> Seq<char> {
    if is_absolute_path(rest) || base.len() == 0 {
        rest
    } else if base.last() == '/' {
        base + rest
    } else {
        base.push('/') + rest
    }
}

/// The first place of a character at or after `i`, or the end.
pub open spec fn place_of(s: Seq<char>, c: char, i: int) -> int
    decreases s.len() - i,
{
    if i < 0 || i >= s.len() || s[i] == c {
        i
    } else {
        place_of(s, c, i + 1)
    }
}

/// The parts of a text from `i` on, with a separator between them.
pub open spec fn parts_from(s: Seq<char>, c: char, i: int) -> Seq<Seq<char>>
    decreases s.len() + 1 - i,
{
    let end = place_of(s, c, i);
    if i < 0 || i > s.len() {
        Seq::empty()
    } else if end < s.len() && i <= end {
        seq![s.subrange(i, end)] + parts_from(s, c, end + 1)
    } else {
        seq![s.subrange(i, s.len() as int)]
    }
}

/// The parts of a text.
pub open spec fn parts(s: Seq<char>, c: char) -> Seq<Seq<char>> {
    parts_from(s, c, 0)
}

/// What one part makes of the components before it: nothing and `.` are dropped, `..` takes the
/// last one away.
pub open spec fn entered(held: Seq<Seq<char>>, part: Seq<char>) -> Seq<Seq<char>> {
    if part.len() == 0 || part == seq!['.'] {
        held
    } else if part == seq!['.', '.'] {
        if held.len() > 0 {
            held.drop_last()
        } else {
            held
        }
    } else {
        held.push(part)
    }
}

/// The components that the first `n` parts come to.
pub open spec fn components(of: Seq<Seq<char>>, n: int) -> Seq<Seq<char>>
    decreases n,
{
    if n <= 0 || n > of.len() {
        Seq::empty()
    } else {
        entered(components(of, n - 1), of[n - 1])
    }
}

/// The first `n` components with `/` between them.
pub open spec fn written(held: Seq<Seq<char>>, n: int) -> Seq<char>
    decreases n,
{
    if n <= 0 || n > held.len() {
        Seq::empty()
    } else if n == 1 {
        held[0]
    } else {
        written(held, n - 1).push('/') + held[n - 1]
    }
}

/// A path without `.` and `..`, by its text alone.
pub open spec fn normal(p: Seq<char>) -> Seq<char> {
    let of = parts(p, '/');
    let held = components(of, of.len() as int);
    if is_absolute_path(p) {
        seq!['/'] + written(held, held.len() as int)
    } else {
        written(held, held.len() as int)
    }
}

/// The parts among the first `n` that name a component. Nothing between two separators names none,
/// and `.` only where a path begins with it.
pub open spec fn named_parts(of: Seq<Seq<char>>, n: int) -> Seq<Seq<char>>
    decreases n,
{
    if n <= 0 || n > of.len() {
        Seq::empty()
    } else if of[n - 1].len() == 0 || (n > 1 && of[n - 1] == seq!['.']) {
        named_parts(of, n - 1)
    } else {
        named_parts(of, n - 1).push(of[n - 1])
    }
}

/// The components of a path, with a `/` for the root. Unlike in [`normal`], `..` is one of them.
pub open spec fn path_parts(p: Seq<char>) -> Seq<Seq<char>> {
    let of = parts(p, '/');
    let root = if is_absolute_path(p) {
        seq![seq!['/']]
    } else {
        Seq::<Seq<char>>::empty()
    };
    root + named_parts(of, of.len() as int)
}

/// Are two paths the same, however they are spelled?
pub open spec fn same_path(a: Seq<char>, b: Seq<char>) -> bool {
    path_parts(a) == path_parts(b)
}

/// Is the path among these, in any spelling?
pub open spec fn path_among(v: Seq<Seq<char>>, p: Seq<char>) -> bool {
    exists|i: int| 0 <= i < v.len() && same_path(#[trigger] v[i], p)
}

/// Is the path absolute?
pub fn is_absolute(p: &str) -> (r: bool)
    ensures
        r == is_absolute_path(p@),
{
    let v = to_chars(p);
    v.len() > 0 && v[0] == '/'
}

/// A path below another.
pub fn join(base: &str, rest: &str) -> (r: String)
    ensures
        r@ == joined(base@, rest@),
{
    let b = to_chars(base);
    let n: usize = b.len();
    if is_absolute(rest) || n == 0 {
        return rest.to_owned();
    }
    let mut out = base.to_owned();
    if b[n - 1] != '/' {
        out.push('/');
    }
    out.append(rest);
    out
}

fn find_place(v: &[char], c: char, from: usize) -> (r: usize)
    requires
        from <= v@.len(),
    ensures
        r == place_of(v@, c, from as int),
        from <= r <= v@.len(),
{
    let n: usize = v.len();
    let mut i: usize = from;
    while i < n && v[i] != c
        invariant
            from <= i <= n == v@.len(),
            place_of(v@, c, from as int) == place_of(v@, c, i as int),
        decreases n - i,
    {
        i += 1;
    }
    i
}

/// The parts of a text, with a separator between them.
pub fn split(s: &str, c: char) -> (r: Vec<String>)
    ensures
        splitter::texts(r@) == parts(s@, c),
        r@.len() > 0,
{
    let v = to_chars(s);
    let n: usize = v.len();
    let mut out: Vec<String> = Vec::new();
    let mut i: usize = 0;
    assert(splitter::texts(out@) + parts(s@, c) =~= parts(s@, c));
    loop
        invariant
            i <= n == v@.len(),
            v@ == s@,
            splitter::texts(out@) + parts_from(s@, c, i as int) == parts(s@, c),
        decreases n + 1 - i,
    {
        let end = find_place(v.as_slice(), c, i);
        let ghost before = out@;
        let part = from_chars(v.as_slice(), i, end);
        let ghost text = part@;
        out.push(part);
        assert(splitter::texts(out@) =~= splitter::texts(before).push(text));
        if end >= n {
            assert(parts_from(s@, c, i as int) =~= seq![text]);
            assert(splitter::texts(out@) =~= parts(s@, c));
            return out;
        }
        assert(splitter::texts(out@) + parts_from(s@, c, end + 1) =~= splitter::texts(before) + parts_from(
            s@,
            c,
            i as int,
        ));
        i = end + 1;
    }
}

fn is_dot(s: &str) -> (r: bool)
    ensures
        r == (s@ == seq!['.']),
{
    proof {
        reveal_strlit(".");
        assert("."@ =~= seq!['.']);
    }
    str_eq(s, ".")
}

fn is_up(s: &str) -> (r: bool)
    ensures
        r == (s@ == seq!['.', '.']),
{
    proof {
        reveal_strlit("..");
        assert(".."@ =~= seq!['.', '.']);
    }
    str_eq(s, "..")
}

fn is_nothing(s: &str) -> (r: bool)
    ensures
        r == (s@.len() == 0),
{
    proof {
        reveal_strlit("");
        assert(""@ =~= Seq::<char>::empty());
        if s@.len() == 0 {
            assert(s@ =~= ""@);
        }
    }
    str_eq(s, "")
}

/// A path without `.` and `..`, by its text alone: the path need not exist.
pub fn normalise(p: &str) -> (r: String)
    ensures
        r@ == normal(p@),
{
    let of = split(p, '/');
    let ghost model = splitter::texts(of@);
    let n: usize = of.len();
    let mut held: Vec<String> = Vec::new();
    let mut i: usize = 0;
    assert(splitter::texts(held@) =~= Seq::empty());
    while i < n
        invariant
            i <= n == of@.len(),
            model == splitter::texts(of@),
            splitter::texts(held@) == components(model, i as int),
        decreases n - i,
    {
        let ghost before = held@;
        let part = of[i].as_str();
        assert(part@ == model[i as int]);
        if is_nothing(part) || is_dot(part) {
        } else if is_up(part) {
            if held.len() > 0 {
                held.pop();
                assert(splitter::texts(held@) =~= splitter::texts(before).drop_last());
            }
        } else {
            held.push(part.to_owned());
            assert(splitter::texts(held@) =~= splitter::texts(before).push(part@));
        }
        i += 1;
    }
    let ghost all = splitter::texts(held@);
    let mut out = String::new();
    if is_absolute(p) {
        out.push('/');
    }
    let ghost root = out@;
    let m: usize = held.len();
    let mut k: usize = 0;
    assert(root + Seq::empty() =~= root);
    while k < m
        invariant
            k <= m == held@.len(),
            all == splitter::texts(held@),
            out@ == root + written(all, k as int),
        decreases m - k,
    {
        if k > 0 {
            out.push('/');
        }
        out.append(held[k].as_str());
        k += 1;
        assert(out@ =~= root + written(all, k as int));
    }
    assert(out@ =~= normal(p@));
    out
}

/// The components of a path, with a `/` for the root.
pub fn list_parts(p: &str) -> (r: Vec<String>)
    ensures
        splitter::texts(r@) == path_parts(p@),
{
    let of = split(p, '/');
    let ghost model = splitter::texts(of@);
    let n: usize = of.len();
    let mut out: Vec<String> = Vec::new();
    if is_absolute(p) {
        let mut root = String::new();
        root.push('/');
        assert(root@ =~= seq!['/']);
        out.push(root);
    }
    let ghost root = splitter::texts(out@);
    assert(root =~= (if is_absolute_path(p@) {
        seq![seq!['/']]
    } else {
        Seq::<Seq<char>>::empty()
    }));
    let mut i: usize = 0;
    assert(root =~= root + named_parts(model, 0));
    while i < n
        invariant
            i <= n == of@.len(),
            model == splitter::texts(of@),
            splitter::texts(out@) == root + named_parts(model, i as int),
        decreases n - i,
    {
        let ghost before = splitter::texts(out@);
        let part = of[i].as_str();
        assert(part@ == model[i as int]);
        if !(is_nothing(part) || (i > 0 && is_dot(part))) {
            out.push(part.to_owned());
            assert(splitter::texts(out@) =~= before.push(part@));
            assert(before.push(part@) =~= root + named_parts(model, i as int).push(part@));
        }
        i += 1;
    }
    out
}

/// Are two paths the same, however they are spelled?
pub fn is_same_path(a: &str, b: &str) -> (r: bool)
    ensures
        r == same_path(a@, b@),
{
    let x = list_parts(a);
    let y = list_parts(b);
    let n: usize = x.len();
    let ghost u = splitter::texts(x@);
    let ghost v = splitter::texts(y@);
    if n != y.len() {
        assert(u.len() != v.len());
        return false;
    }
    let mut i: usize = 0;
    while i < n
        invariant
            i <= n == x@.len(),
            n == y@.len(),
            u == splitter::texts(x@),
            v == splitter::texts(y@),
            u == path_parts(a@),
            v == path_parts(b@),
            forall|k: int| 0 <= k < i ==> #[trigger] u[k] == v[k],
        decreases n - i,
    {
        if !str_eq(x[i].as_str(), y[i].as_str()) {
            assert(u[i as int] != v[i as int]);
            return false;
        }
        assert(u[i as int] == v[i as int]);
        i += 1;
    }
    assert(u =~= v);
    true
}

/// Is the path among these, in any spelling?
pub fn is_path_among(v: &Vec<String>, p: &str) -> (r: bool)
    ensures
        r == path_among(splitter::texts(v@), p@),
{
    let ghost model = splitter::texts(v@);
    let n: usize = v.len();
    let mut i: usize = 0;
    while i < n
        invariant
            i <= n == v@.len(),
            model == splitter::texts(v@),
            forall|k: int| 0 <= k < i ==> !same_path(#[trigger] model[k], p@),
        decreases n - i,
    {
        if is_same_path(v[i].as_str(), p) {
            assert(same_path(model[i as int], p@));
            return true;
        }
        assert(model[i as int] == v@[i as int]@);
        i += 1;
    }
    false
}

// ----------------------------------------------------------------------- laws

/// Does the character not occur in the text?
pub open spec fn free_of(s: Seq<char>, c: char) -> bool {
    forall|i: int| 0 <= i < s.len() ==> s[i] != c
}

/// A component that names something: it is not empty, neither `.` nor `..`, and has no `/` in it.
pub open spec fn proper(part: Seq<char>) -> bool {
    part.len() > 0 && part != seq!['.'] && part != seq!['.', '.'] && free_of(part, '/')
}

proof fn place_is_first(s: Seq<char>, c: char, i: int)
    requires
        0 <= i <= s.len(),
    ensures
        i <= place_of(s, c, i) <= s.len(),
        forall|j: int| i <= j < place_of(s, c, i) ==> s[j] != c,
        place_of(s, c, i) < s.len() ==> s[place_of(s, c, i)] == c,
    decreases s.len() - i,
{
    if i < s.len() && s[i] != c {
        place_is_first(s, c, i + 1);
    }
}

pub proof fn place_is(s: Seq<char>, c: char, i: int, k: int)
    requires
        0 <= i <= k <= s.len(),
        forall|j: int| i <= j < k ==> s[j] != c,
        k < s.len() ==> s[k] == c,
    ensures
        place_of(s, c, i) == k,
    decreases k - i,
{
    if i < k {
        place_is(s, c, i + 1, k);
    }
}

proof fn parts_are_free(s: Seq<char>, c: char, i: int, k: int)
    requires
        0 <= i <= s.len(),
        0 <= k < parts_from(s, c, i).len(),
    ensures
        free_of(parts_from(s, c, i)[k], c),
    decreases s.len() + 1 - i,
{
    let end = place_of(s, c, i);
    place_is_first(s, c, i);
    if end < s.len() && k > 0 {
        parts_are_free(s, c, end + 1, k - 1);
        assert(parts_from(s, c, i)[k] == parts_from(s, c, end + 1)[k - 1]);
    }
}

/// A part behind a separator is the last part.
pub proof fn parts_of_longer(w: Seq<char>, c: char, x: Seq<char>, i: int)
    requires
        0 <= i <= w.len(),
        free_of(x, c),
    ensures
        parts_from(w.push(c) + x, c, i) == parts_from(w, c, i).push(x),
    decreases w.len() + 1 - i,
{
    let whole = w.push(c) + x;
    place_is_first(w, c, i);
    let end = place_of(w, c, i);
    assert forall|j: int| 0 <= j < w.len() implies whole[j] == w[j] by {}
    if end < w.len() {
        place_is(whole, c, i, end);
        parts_of_longer(w, c, x, end + 1);
        assert(whole.subrange(i, end) =~= w.subrange(i, end));
        assert(parts_from(whole, c, i) =~= parts_from(w, c, i).push(x));
    } else {
        place_is(whole, c, i, w.len() as int);
        assert forall|j: int| w.len() + 1 <= j < whole.len() implies whole[j] != c by {
            assert(whole[j] == x[j - w.len() - 1]);
        }
        place_is(whole, c, w.len() + 1int, whole.len() as int);
        assert(whole.subrange(i, w.len() as int) =~= w.subrange(i, w.len() as int));
        assert(whole.subrange(w.len() + 1int, whole.len() as int) =~= x);
        assert(parts_from(whole, c, w.len() + 1int) =~= seq![x]);
        assert(parts_from(whole, c, i) =~= parts_from(w, c, i).push(x));
    }
}

/// What stands before a place does not change the parts behind it.
proof fn parts_of_tail(x: Seq<char>, w: Seq<char>, c: char, i: int)
    requires
        0 <= i <= w.len(),
    ensures
        parts_from(x + w, c, x.len() + i) == parts_from(w, c, i),
    decreases w.len() + 1 - i,
{
    let whole = x + w;
    place_is_first(w, c, i);
    let end = place_of(w, c, i);
    assert forall|j: int| 0 <= j < w.len() implies #[trigger] whole[x.len() + j] == w[j] by {}
    assert forall|j: int| x.len() + i <= j < x.len() + end implies whole[j] != c by {
        assert(whole[x.len() + (j - x.len())] == w[j - x.len()]);
    }
    if end < w.len() {
        assert(whole[x.len() + end] == w[end]);
        place_is(whole, c, x.len() + i, x.len() + end);
        parts_of_tail(x, w, c, end + 1);
        assert(whole.subrange(x.len() + i, x.len() + end) =~= w.subrange(i, end));
    } else {
        place_is(whole, c, x.len() + i, whole.len() as int);
        assert(whole.subrange(x.len() + i, whole.len() as int) =~= w.subrange(i, w.len() as int));
    }
}

proof fn components_are_proper(of: Seq<Seq<char>>, n: int, k: int)
    requires
        0 <= n <= of.len(),
        forall|j: int| 0 <= j < of.len() ==> free_of(#[trigger] of[j], '/'),
        0 <= k < components(of, n).len(),
    ensures
        proper(components(of, n)[k]),
    decreases n,
{
    if n > 0 {
        let before = components(of, n - 1);
        if k < before.len() {
            components_are_proper(of, n - 1, k);
        }
        assert(free_of(of[n - 1], '/'));
    }
}

/// No component of a normal path is empty, `.` or `..`.
pub proof fn a_normal_path_has_no_dots(p: Seq<char>, k: int)
    requires
        0 <= k < components(parts(p, '/'), parts(p, '/').len() as int).len(),
    ensures
        proper(components(parts(p, '/'), parts(p, '/').len() as int)[k]),
{
    let of = parts(p, '/');
    assert forall|j: int| 0 <= j < of.len() implies free_of(#[trigger] of[j], '/') by {
        parts_are_free(p, '/', 0, j);
    }
    components_are_proper(of, of.len() as int, k);
}

proof fn parts_of_written(held: Seq<Seq<char>>, n: int)
    requires
        0 < n <= held.len(),
        forall|j: int| 0 <= j < held.len() ==> proper(#[trigger] held[j]),
    ensures
        parts(written(held, n), '/') == held.subrange(0, n),
    decreases n,
{
    assert(proper(held[n - 1]));
    if n == 1 {
        place_is(held[0], '/', 0, held[0].len() as int);
        assert(held[0].subrange(0, held[0].len() as int) =~= held[0]);
        assert(parts(held[0], '/') =~= held.subrange(0, 1));
    } else {
        parts_of_written(held, n - 1);
        parts_of_longer(written(held, n - 1), '/', held[n - 1], 0);
        assert(held.subrange(0, n) =~= held.subrange(0, n - 1).push(held[n - 1]));
    }
}

proof fn components_of_proper(held: Seq<Seq<char>>, n: int)
    requires
        0 <= n <= held.len(),
        forall|j: int| 0 <= j < held.len() ==> proper(#[trigger] held[j]),
    ensures
        components(held, n) == held.subrange(0, n),
    decreases n,
{
    if n > 0 {
        components_of_proper(held, n - 1);
        assert(proper(held[n - 1]));
        assert(held.subrange(0, n) =~= held.subrange(0, n - 1).push(held[n - 1]));
    } else {
        assert(held.subrange(0, 0) =~= Seq::empty());
    }
}

/// An empty first part says nothing.
proof fn components_behind_nothing(held: Seq<Seq<char>>, n: int)
    requires
        0 <= n <= held.len(),
    ensures
        components(seq![Seq::<char>::empty()] + held, n + 1) == components(held, n),
    decreases n,
{
    let of = seq![Seq::<char>::empty()] + held;
    if n > 0 {
        components_behind_nothing(held, n - 1);
        assert(of[n] == held[n - 1]);
    } else {
        assert(components(of, 0) =~= Seq::empty());
    }
}

pub proof fn written_begins(held: Seq<Seq<char>>, n: int)
    requires
        0 < n <= held.len(),
        forall|j: int| 0 <= j < held.len() ==> proper(#[trigger] held[j]),
    ensures
        written(held, n).len() > 0,
        written(held, n)[0] != '/',
    decreases n,
{
    assert(proper(held[0]));
    if n > 1 {
        written_begins(held, n - 1);
    }
}

/// A path that was normalised stays as it is.
pub proof fn normalising_twice_is_once(p: Seq<char>)
    ensures
        normal(normal(p)) == normal(p),
{
    let of = parts(p, '/');
    let held = components(of, of.len() as int);
    let m = held.len() as int;
    assert forall|j: int| 0 <= j < held.len() implies proper(#[trigger] held[j]) by {
        a_normal_path_has_no_dots(p, j);
    }
    let w = written(held, m);
    let q = normal(p);
    let none = Seq::<char>::empty();
    assert(held.subrange(0, m) =~= held);
    if m > 0 {
        parts_of_written(held, m);
        components_of_proper(held, m);
        written_begins(held, m);
    } else {
        place_is(none, '/', 0, 0);
        assert(none.subrange(0, 0) =~= none);
        assert(parts(w, '/') =~= seq![none]);
        assert(components(seq![none], 0) =~= Seq::empty());
        assert(components(seq![none], 1) =~= Seq::empty());
    }
    if is_absolute_path(p) {
        let root = seq!['/'];
        assert(q == root + w);
        parts_of_tail(root, w, '/', 0);
        place_is(q, '/', 0, 0);
        assert(q.subrange(0, 0) =~= none);
        assert(parts(q, '/') =~= seq![none] + parts(w, '/'));
        components_behind_nothing(parts(w, '/'), parts(w, '/').len() as int);
        assert(components(parts(q, '/'), parts(q, '/').len() as int) =~= held);
    } else {
        assert(q == w);
        assert(components(parts(q, '/'), parts(q, '/').len() as int) =~= held);
    }
}

proof fn named_parts_of_proper(of: Seq<Seq<char>>, n: int)
    requires
        0 <= n <= of.len(),
        forall|j: int| 0 <= j < of.len() ==> proper(#[trigger] of[j]),
    ensures
        named_parts(of, n) == of.subrange(0, n),
    decreases n,
{
    if n > 0 {
        named_parts_of_proper(of, n - 1);
        assert(proper(of[n - 1]));
        assert(of.subrange(0, n) =~= of.subrange(0, n - 1).push(of[n - 1]));
    } else {
        assert(of.subrange(0, 0) =~= Seq::empty());
    }
}

proof fn named_parts_behind_nothing(held: Seq<Seq<char>>, n: int)
    requires
        0 <= n <= held.len(),
        forall|j: int| 0 <= j < held.len() ==> held[j] != seq!['.'],
    ensures
        named_parts(seq![Seq::<char>::empty()] + held, n + 1) == named_parts(held, n),
    decreases n,
{
    let of = seq![Seq::<char>::empty()] + held;
    if n > 0 {
        named_parts_behind_nothing(held, n - 1);
        assert(of[n] == held[n - 1]);
    } else {
        assert(named_parts(of, 0) =~= Seq::empty());
    }
}

/// The components of a normal path are those that it was written from.
proof fn components_of_normal(p: Seq<char>)
    ensures
        ({
            let held = components(parts(p, '/'), parts(p, '/').len() as int);
            path_parts(normal(p)) == if is_absolute_path(p) {
                seq![seq!['/']] + held
            } else {
                held
            }
        }),
{
    let of = parts(p, '/');
    let held = components(of, of.len() as int);
    let m = held.len() as int;
    assert forall|j: int| 0 <= j < held.len() implies proper(#[trigger] held[j]) by {
        a_normal_path_has_no_dots(p, j);
    }
    let w = written(held, m);
    let q = normal(p);
    let none = Seq::<char>::empty();
    assert(held.subrange(0, m) =~= held);
    if m > 0 {
        parts_of_written(held, m);
        named_parts_of_proper(held, m);
        written_begins(held, m);
    } else {
        place_is(none, '/', 0, 0);
        assert(none.subrange(0, 0) =~= none);
        assert(parts(w, '/') =~= seq![none]);
        assert(named_parts(seq![none], 0) =~= Seq::empty());
        assert(named_parts(seq![none], 1) =~= Seq::empty());
    }
    assert(named_parts(parts(w, '/'), parts(w, '/').len() as int) =~= held);
    if is_absolute_path(p) {
        let root = seq!['/'];
        assert(q == root + w);
        parts_of_tail(root, w, '/', 0);
        place_is(q, '/', 0, 0);
        assert(q.subrange(0, 0) =~= none);
        assert(parts(q, '/') =~= seq![none] + parts(w, '/'));
        assert forall|j: int| 0 <= j < parts(w, '/').len() implies parts(w, '/')[j]
            != seq!['.'] by {
            if m > 0 {
                assert(proper(held[j]));
            } else {
                assert(parts(w, '/')[j].len() == 0);
            }
        }
        named_parts_behind_nothing(parts(w, '/'), parts(w, '/').len() as int);
    } else {
        assert(q == w);
        assert(!is_absolute_path(q));
        assert(path_parts(q) =~= held);
    }
}

/// Two normal paths are the same path only where they are spelled the same.
pub proof fn a_normal_path_has_one_spelling(a: Seq<char>, b: Seq<char>)
    requires
        same_path(normal(a), normal(b)),
    ensures
        normal(a) == normal(b),
{
    components_of_normal(a);
    components_of_normal(b);
    let x = components(parts(a, '/'), parts(a, '/').len() as int);
    let y = components(parts(b, '/'), parts(b, '/').len() as int);
    let root = seq![seq!['/']];
    if is_absolute_path(a) && is_absolute_path(b) {
        assert((root + x).subrange(1, (root + x).len() as int) =~= x);
        assert((root + y).subrange(1, (root + y).len() as int) =~= y);
    } else if is_absolute_path(a) {
        assert((root + x)[0] == seq!['/']);
        a_normal_path_has_no_dots(b, 0);
        assert(y[0][0] == '/');
    } else if is_absolute_path(b) {
        assert((root + y)[0] == seq!['/']);
        a_normal_path_has_no_dots(a, 0);
        assert(x[0][0] == '/');
    }
}

/// The place of the last separator before `n`.
pub open spec fn last_place(s: Seq<char>, c: char, n: int) -> Option<int>
    decreases n,
{
    if n <= 0 || n > s.len() {
        None
    } else if s[n - 1] == c {
        Some(n - 1)
    } else {
        last_place(s, c, n - 1)
    }
}

/// The directory that a path in its normal form lies in: none for the root and for no path at all.
pub open spec fn parent_of(p: Seq<char>) -> Option<Seq<char>> {
    if p.len() == 0 || p == seq!['/'] {
        None
    } else {
        match last_place(p, '/', p.len() as int) {
            Some(k) => if k == 0 {
                Some(seq!['/'])
            } else {
                Some(p.take(k))
            },
            None => Some(Seq::empty()),
        }
    }
}

/// The directory that a path in its normal form lies in.
pub fn parent(p: &str) -> (r: Option<String>)
    ensures
        r is Some == parent_of(p@) is Some,
        r is Some ==> r->0@ == parent_of(p@)->0,
{
    let v = to_chars(p);
    let n: usize = v.len();
    if n == 0 {
        return None;
    }
    let mut k: usize = n;
    while k > 0 && v[k - 1] != '/'
        invariant
            k <= n == v@.len(),
            v@ == p@,
            last_place(p@, '/', n as int) == last_place(p@, '/', k as int),
        decreases k,
    {
        k -= 1;
    }
    if k == 0 {
        assert(p@ != seq!['/']) by {
            assert(seq!['/'][0] == '/');
            if p@ == seq!['/'] {
                assert(last_place(p@, '/', 1) == Some(0int));
            }
        }
        let r = String::new();
        assert(r@ =~= Seq::empty());
        return Some(r);
    }
    if k == 1 {
        if n == 1 {
            assert(p@ =~= seq!['/']);
            return None;
        }
        assert(p@ != seq!['/']);
        let r = from_chars(v.as_slice(), 0, 1);
        assert(r@ =~= seq!['/']);
        return Some(r);
    }
    assert(p@ != seq!['/']);
    let r = from_chars(v.as_slice(), 0, k - 1);
    assert(r@ =~= p@.take(k - 1));
    Some(r)
}

/// A path the way Ansible prints it, with `/` between its components. Only on Windows is a `\\`
/// a separator; elsewhere a file may have one in its name.
pub open spec fn posix(p: Seq<char>, windows: bool) -> Seq<char> {
    if windows {
        p.map_values(
            |c: char|
                if c == '\\' {
                    '/'
                } else {
                    c
                },
        )
    } else {
        p
    }
}

/// A path the way Ansible prints it.
pub fn posix_display(p: &str, windows: bool) -> (r: String)
    ensures
        r@ == posix(p@, windows),
{
    if !windows {
        return p.to_owned();
    }
    let v = to_chars(p);
    let mut out = String::new();
    let n: usize = v.len();
    let mut i: usize = 0;
    assert(out@ =~= posix(p@, true).take(0));
    while i < n
        invariant
            i <= n == v@.len(),
            v@ == p@,
            out@ == posix(p@, true).take(i as int),
        decreases n - i,
    {
        if v[i] == '\\' {
            out.push('/');
        } else {
            out.push(v[i]);
        }
        i += 1;
        assert(posix(p@, true).take(i as int) =~= posix(p@, true).take(i - 1).push(
            posix(p@, true)[i - 1],
        ));
    }
    assert(posix(p@, true).take(n as int) =~= posix(p@, true));
    out
}

/// On Windows no `\\` is left, and elsewhere the path is printed as it is.
pub proof fn printed_paths_have_slashes(p: Seq<char>)
    ensures
        posix(p, false) == p,
        posix(p, true).len() == p.len(),
        forall|i: int| 0 <= i < p.len() ==> #[trigger] posix(p, true)[i] != '\\',
        posix(posix(p, true), true) == posix(p, true),
{
    assert(posix(posix(p, true), true) =~= posix(p, true));
}

} // verus!
