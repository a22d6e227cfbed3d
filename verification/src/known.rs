//! What becomes of a path whose variables are known, and what the files of a listing are.

use vstd::prelude::*;

use crate::assign;
use crate::fs;
use crate::paths;
use crate::resolve;
use crate::search;
use crate::text;

verus! {

proof fn found_at(s: Seq<char>, p: Seq<char>, i: int, k: int)
    requires
        0 <= i <= k,
        text::stands_at(s, p, k),
        forall|j: int| i <= j < k ==> !#[trigger] text::stands_at(s, p, j),
    ensures
        text::find_from(s, p, i) == Some(k),
{
    text::find_from_is_first(s, p, i);
}

proof fn stands_as_two(s: Seq<char>, c: char, i: int)
    requires
        0 <= i,
    ensures
        text::stands_at(s, seq![c, c], i) == (i + 2 <= s.len() && s[i] == c && s[i + 1] == c),
{
    if i + 2 <= s.len() {
        let t = s.subrange(i, i + 2);
        assert(t[0] == s[i] && t[1] == s[i + 1]);
        if s[i] == c && s[i + 1] == c {
            assert(t =~= seq![c, c]);
        }
    }
}

/// A path with one variable in it, of which the values are known, is the path with each of the
/// values in its place.
pub proof fn a_known_variable_is_put_in(
    a: Seq<char>,
    name: Seq<char>,
    b: Seq<char>,
    literals: Seq<(String, Vec<String>)>,
    vals: Seq<Seq<char>>,
)
    requires
        search::literal(a),
        a.len() > 0 ==> a[a.len() - 1] != '{',
        search::literal(b),
        resolve::bare_name(name),
        forall|i: int|
            0 <= i < name.len() ==> !text::white(#[trigger] name[i]) && name[i] != '{' && name[i]
                != '}',
        fs::answer(literals, name, 0) == Some(vals),
    ensures
        ({
            let r = resolve::put_in(
                a + seq!['{', '{'] + name + seq!['}', '}'] + b,
                0,
                literals,
                seq![Seq::empty()],
            );
            &&& r is Some && r->0.len() == vals.len()
            &&& forall|i: int| 0 <= i < vals.len() ==> #[trigger] r->0[i] == a + vals[i] + b
        }),
{
    let none = Seq::<char>::empty();
    let s = a + seq!['{', '{'] + name + seq!['}', '}'] + b;
    let m = a.len() as int;
    let k = m + 2 + name.len();
    let e = k + 2;
    reveal_strlit("{{");
    reveal_strlit("}}");
    assert("{{"@ =~= seq!['{', '{']);
    assert("}}"@ =~= seq!['}', '}']);
    assert(s[m] == '{' && s[m + 1] == '{' && s[k] == '}' && s[k + 1] == '}');
    assert forall|j: int| 0 <= j < m implies !#[trigger] text::stands_at(s, "{{"@, j) by {
        stands_as_two(s, '{', j);
        assert(s[j] == a[j]);
        if j + 1 < m {
            assert(s[j + 1] == a[j + 1]);
        }
    }
    stands_as_two(s, '{', m);
    found_at(s, "{{"@, 0, m);
    assert forall|j: int| m + 2 <= j < k implies !#[trigger] text::stands_at(s, "}}"@, j) by {
        stands_as_two(s, '}', j);
        assert(s[j] == name[j - m - 2]);
    }
    stands_as_two(s, '}', k);
    found_at(s, "}}"@, m + 2, k);
    assert(s.subrange(m + 2, k) =~= name);
    assert(!text::white(name[0]) && !text::white(name[name.len() - 1]));
    assign::a_bare_text_is_trimmed(name);
    let one = seq![none];
    assert(s.subrange(0, m) =~= a);
    let next = resolve::product(one, 1, a, vals);
    continued_is(none + a, vals, vals.len() as int);
    assert(none + a =~= a);
    reveal_with_fuel(resolve::product, 2);
    assert(one[0] == none);
    assert(next =~= resolve::continued(a, vals, vals.len() as int));
    text::find_from_is_first(s, "{{"@, e);
    if let Some(j) = text::find_from(s, "{{"@, e) {
        stands_as_two(s, '{', j);
        assert(s[j] == b[j - e] && s[j + 1] == b[j + 1 - e]);
    }
    assert(s.subrange(e, s.len() as int) =~= b);
    let out = next.map_values(|x: Seq<char>| x + s.subrange(e, s.len() as int));
    assert(resolve::put_in(s, e, literals, next) == Some(out));
    assert(resolve::put_in(s, 0, literals, one) == Some(out));
    assert forall|i: int| 0 <= i < vals.len() implies #[trigger] out[i] == a + vals[i] + b by {
        assert(next[i] == a + vals[i]);
    }
}

proof fn continued_is(base: Seq<char>, vals: Seq<Seq<char>>, n: int)
    requires
        0 <= n <= vals.len(),
    ensures
        resolve::continued(base, vals, n).len() == n,
        forall|i: int|
            0 <= i < n ==> #[trigger] resolve::continued(base, vals, n)[i] == base + vals[i],
    decreases n,
{
    if n > 0 {
        continued_is(base, vals, n - 1);
    }
}

// ------------------------------------------------------------------ listings

/// A relative directory of variables of a role is in `vars` of the role, where it is not written
/// with that; without a role it is beside the task.
pub proof fn variables_are_in_vars(d: Seq<char>, role: Seq<char>, task_dir: Seq<char>)
    ensures
        fs::vars_root(Some(d), None, task_dir) == Some(paths::joined(task_dir, d)),
        d == "vars"@ || (d.len() >= 5 && d.subrange(0, 5) == "vars/"@) ==> fs::vars_root(
            Some(d),
            Some(role),
            task_dir,
        ) == Some(paths::joined(role, d)),
        d != "vars"@ && (d.len() < 5 || d.subrange(0, 5) != "vars/"@) ==> fs::vars_root(
            Some(d),
            Some(role),
            task_dir,
        ) == Some(paths::joined(paths::joined(role, "vars"@), d)),
{
    reveal_strlit("vars/");
}

/// The names in a directory are those of the files directly in it, and no others.
pub proof fn names_are_of_the_directory(v: Seq<Seq<char>>, n: int, dir: Seq<char>, x: Seq<char>)
    requires
        0 <= n <= v.len(),
    ensures
        fs::names_below(v, n, dir).contains(x) <==> (exists|i: int|
            0 <= i < n && #[trigger] v[i] == dir.push('/') + x) && paths::free_of(x, '/'),
    decreases n,
{
    if n > 0 {
        names_are_of_the_directory(v, n - 1, dir, x);
        let before = fs::names_below(v, n - 1, dir);
        let all = fs::names_below(v, n, dir);
        let p = v[n - 1];
        let rest = p.subrange(dir.len() + 1int, p.len() as int);
        slashes(rest);
        if fs::lies_below(p, dir) {
            assert(p =~= dir.push('/') + rest);
        }
        if p == dir.push('/') + x {
            assert(p.subrange(0, dir.push('/').len() as int) =~= dir.push('/'));
            assert(rest =~= x);
        }
        let direct = fs::lies_below(p, dir) && paths::free_of(rest, '/');
        if direct {
            assert(all == before.push(rest));
            assert(all[before.len() as int] == rest);
            assert forall|y: Seq<char>| before.contains(y) implies #[trigger] all.contains(y) by {
                let k = choose|k: int| 0 <= k < before.len() && before[k] == y;
                assert(all[k] == y);
            }
            if all.contains(x) && !before.contains(x) {
                let k = choose|k: int| 0 <= k < all.len() && all[k] == x;
                if k < before.len() {
                    assert(before[k] == x);
                }
                assert(v[n - 1] == dir.push('/') + x);
            }
        }
    } else {
        assert(!fs::names_below(v, 0, dir).contains(x));
    }
}

proof fn slashes(s: Seq<char>)
    ensures
        text::occurs(s, "/"@) == !paths::free_of(s, '/'),
{
    reveal_strlit("/");
    text::find_from_is_first(s, "/"@, 0);
    if let Some(k) = text::find_from(s, "/"@, 0) {
        assert(s.subrange(k, k + 1)[0] == s[k]);
    } else if !paths::free_of(s, '/') {
        let k = choose|k: int| 0 <= k < s.len() && s[k] == '/';
        assert(s.subrange(k, k + 1) =~= "/"@);
        assert(text::stands_at(s, "/"@, k));
    }
}

} // verus!
