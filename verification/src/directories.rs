//! How paths are walked: a name enters a directory, `..` leaves it, and `.` and nothing stay.

use vstd::prelude::*;

use crate::paths;

verus! {

/// A path with one part more behind a separator.
pub open spec fn deeper(p: Seq<char>, x: Seq<char>) -> Seq<char> {
    p.push('/') + x
}

proof fn components_of_first(of: Seq<Seq<char>>, x: Seq<char>, n: int)
    requires
        0 <= n <= of.len(),
    ensures
        paths::components(of.push(x), n) == paths::components(of, n),
    decreases n,
{
    if n > 0 {
        components_of_first(of, x, n - 1);
        assert(of.push(x)[n - 1] == of[n - 1]);
    }
}

/// The components of a path with one part more.
proof fn one_part_more(p: Seq<char>, x: Seq<char>)
    requires
        p.len() > 0,
        paths::free_of(x, '/'),
    ensures
        ({
            let of = paths::parts(p, '/');
            let more = paths::parts(deeper(p, x), '/');
            &&& paths::components(more, more.len() as int) == paths::entered(
                paths::components(of, of.len() as int),
                x,
            )
            &&& paths::is_absolute_path(deeper(p, x)) == paths::is_absolute_path(p)
        }),
{
    let of = paths::parts(p, '/');
    paths::parts_of_longer(p, '/', x, 0);
    let more = paths::parts(deeper(p, x), '/');
    assert(more == of.push(x));
    components_of_first(of, x, of.len() as int);
    assert(more[of.len() as int] == x);
    assert(deeper(p, x)[0] == p[0]);
}

/// The first components are written the same, whatever stands behind them.
proof fn written_of_first(held: Seq<Seq<char>>, x: Seq<char>, n: int)
    requires
        0 <= n <= held.len(),
    ensures
        paths::written(held.push(x), n) == paths::written(held, n),
    decreases n,
{
    if n > 0 {
        written_of_first(held, x, n - 1);
        assert(held.push(x)[n - 1] == held[n - 1]);
        assert(held.push(x)[0] == held[0]);
    }
}

/// Nothing and `.` behind a separator stay in the directory.
pub proof fn a_dot_stays(p: Seq<char>)
    requires
        p.len() > 0,
    ensures
        paths::normal(deeper(p, seq!['.'])) == paths::normal(p),
        paths::normal(deeper(p, Seq::empty())) == paths::normal(p),
{
    one_part_more(p, seq!['.']);
    one_part_more(p, Seq::empty());
}

/// A name behind a separator is that name in the normal form of the directory.
pub proof fn a_name_enters(p: Seq<char>, x: Seq<char>)
    requires
        p.len() > 0,
        paths::proper(x),
    ensures
        paths::normal(p).len() == 0 ==> paths::normal(deeper(p, x)) == x,
        paths::normal(p) == seq!['/'] ==> paths::normal(deeper(p, x)) == seq!['/'] + x,
        paths::normal(p).len() > 0 && paths::normal(p) != seq!['/'] ==> paths::normal(deeper(p, x))
            == paths::normal(p) + seq!['/'] + x,
{
    one_part_more(p, x);
    let of = paths::parts(p, '/');
    let held = paths::components(of, of.len() as int);
    let m = held.len() as int;
    let w = paths::written(held, m);
    let more = held.push(x);
    written_of_first(held, x, m);
    assert(more[m] == x);
    if m == 0 {
        assert(more[0] == x);
        assert(w =~= Seq::empty());
        assert(seq!['/'] + w =~= seq!['/']);
        assert(paths::written(more, 1) == x);
    } else {
        assert forall|j: int| 0 <= j < held.len() implies paths::proper(#[trigger] held[j]) by {
            paths::a_normal_path_has_no_dots(p, j);
        }
        paths::written_begins(held, m);
        assert(paths::written(more, m + 1) == w.push('/') + x);
        assert(w.push('/') + x =~= w + seq!['/'] + x);
        assert(seq!['/'] + (w.push('/') + x) =~= (seq!['/'] + w) + seq!['/'] + x);
        if paths::is_absolute_path(p) {
            assert((seq!['/'] + w).len() > 1);
        } else if w == seq!['/'] {
            assert(w[0] == '/');
        }
    }
}

/// `..` behind a name leaves the directory that the name entered.
pub proof fn two_dots_leave(p: Seq<char>, x: Seq<char>)
    requires
        p.len() > 0,
        paths::proper(x),
    ensures
        paths::normal(deeper(deeper(p, x), seq!['.', '.'])) == paths::normal(p),
{
    one_part_more(p, x);
    let q = deeper(p, x);
    one_part_more(q, seq!['.', '.']);
    let of = paths::parts(p, '/');
    let held = paths::components(of, of.len() as int);
    assert(held.push(x).drop_last() =~= held);
}

/// The directory of a name in a directory is that directory; of a name alone it is the empty path,
/// and of one at the root the root.
pub proof fn a_parent_is_left(d: Seq<char>, x: Seq<char>)
    requires
        x.len() > 0,
        paths::free_of(x, '/'),
    ensures
        d.len() > 0 ==> paths::parent_of(deeper(d, x)) == Some(d),
        paths::parent_of(x) == Some(Seq::<char>::empty()),
        paths::parent_of(seq!['/'] + x) == Some(seq!['/']),
{
    let p = deeper(d, x);
    let n = p.len() as int;
    last_is(p, n, d.len() as int);
    if d.len() > 0 {
        assert(p.take(d.len() as int) =~= d);
        assert(p.len() > 1);
    }
    none_is(x, x.len() as int);
    let r = seq!['/'] + x;
    last_is(r, r.len() as int, 0);
    if x == seq!['/'] {
        assert(x[0] == '/');
    }
}

proof fn last_is(s: Seq<char>, n: int, k: int)
    requires
        0 <= k < n <= s.len(),
        s[k] == '/',
        forall|j: int| k < j < n ==> s[j] != '/',
    ensures
        paths::last_place(s, '/', n) == Some(k),
    decreases n,
{
    if n - 1 > k {
        last_is(s, n - 1, k);
    }
}

proof fn none_is(s: Seq<char>, n: int)
    requires
        0 <= n <= s.len(),
        forall|j: int| 0 <= j < n ==> s[j] != '/',
    ensures
        paths::last_place(s, '/', n) is None,
    decreases n,
{
    if n > 0 {
        none_is(s, n - 1);
    }
}

/// A text without the separator is one part; a separator and such a text behind it are one part
/// more.
pub proof fn separators_part(s: Seq<char>, c: char, x: Seq<char>)
    requires
        paths::free_of(x, c),
    ensures
        paths::parts(x, c) == seq![x],
        paths::parts(s.push(c) + x, c) == paths::parts(s, c).push(x),
{
    paths::parts_of_longer(s, c, x, 0);
    paths::place_is(x, c, 0, x.len() as int);
    assert(x.subrange(0, x.len() as int) =~= x);
}

} // verus!
