//! How a free-form value parts into parameters: at blanks, but not inside of quotes.

use vstd::prelude::*;

use crate::assign;
use crate::jinja::lexemes;
use crate::splitter::{self, KvModel, Split};
use crate::text;

verus! {

/// A character that neither parts nor opens anything.
pub open spec fn plain(c: char) -> bool {
    c != ' ' && c != '\n' && c != '"' && c != '\'' && c != '{' && c != '}' && c != '\\'
}

/// Is the text a word of such characters?
pub open spec fn word(s: Seq<char>) -> bool {
    s.len() > 0 && forall|k: int| 0 <= k < s.len() ==> plain(#[trigger] s[k])
}

proof fn no_pairs(s: Seq<char>, a: char, b: char, i: int)
    requires
        0 <= i,
        a == '{' || b == '}',
        forall|k: int| 0 <= k < s.len() ==> s[k] != '{' && s[k] != '}',
    ensures
        splitter::pairs_from(s, a, b, i) == 0,
    decreases s.len() - i,
{
    if i + 1 < s.len() {
        no_pairs(s, a, b, i + 1);
    }
}

proof fn no_blocks(st: Split, s: Seq<char>)
    requires
        forall|k: int| 0 <= k < s.len() ==> s[k] != '{' && s[k] != '}',
        !st.in_block(),
        st.print >= 0,
        st.block >= 0,
        st.comment >= 0,
    ensures
        splitter::depth_after(st.print, s, '{', '{', '}', '}') == st.print,
        splitter::depth_after(st.block, s, '{', '%', '%', '}') == st.block,
        splitter::depth_after(st.comment, s, '{', '#', '#', '}') == st.comment,
{
    no_pairs(s, '{', '{', 0);
    no_pairs(s, '}', '}', 0);
    no_pairs(s, '{', '%', 0);
    no_pairs(s, '%', '}', 0);
    no_pairs(s, '{', '#', 0);
    no_pairs(s, '#', '}', 0);
}

proof fn no_quotes(s: Seq<char>, i: int, quote: Option<char>)
    requires
        0 <= i,
        forall|k: int| i <= k < s.len() ==> s[k] != '"' && s[k] != '\'',
    ensures
        splitter::quote_after(s, i, quote) == quote,
    decreases s.len() - i,
{
    if i < s.len() {
        no_quotes(s, i + 1, quote);
    }
}

proof fn ends_at(s: Seq<char>, i: int, e: int)
    requires
        0 <= i <= e <= s.len(),
        forall|k: int| i <= k < e ==> s[k] != ' ' && s[k] != '\n',
        e < s.len() ==> s[e] == ' ' || s[e] == '\n',
    ensures
        splitter::token_end(s, i) == e,
    decreases e - i,
{
    if i < e {
        ends_at(s, i + 1, e);
    }
}

proof fn token_end_is(s: Seq<char>, i: int)
    requires
        0 <= i <= s.len(),
    ensures
        i <= splitter::token_end(s, i) <= s.len(),
        forall|k: int| i <= k < splitter::token_end(s, i) ==> s[k] != ' ' && s[k] != '\n',
        splitter::token_end(s, i) < s.len() ==> s[splitter::token_end(s, i)] == ' '
            || s[splitter::token_end(s, i)] == '\n',
    decreases s.len() - i,
{
    if i < s.len() && s[i] != ' ' && s[i] != '\n' {
        token_end_is(s, i + 1);
    }
}

// ------------------------------------------------------------------ one word more

/// The last token of a text is a step behind all the others.
proof fn last_token(st: Split, s: Seq<char>, w: Seq<char>, i: int, idx: int) -> (last: int)
    requires
        0 <= i <= s.len(),
        0 <= idx,
        forall|k: int| 0 <= k < w.len() ==> w[k] != ' ' && w[k] != '\n',
    ensures
        last > 0,
        splitter::split_from(st, s.push(' ') + w, i, idx) == splitter::step(
            splitter::split_from(st, s, i, idx),
            w,
            last,
        ),
    decreases s.len() + 1 - i,
{
    let t = s.push(' ') + w;
    token_end_is(s, i);
    let e = splitter::token_end(s, i);
    assert forall|k: int| 0 <= k < s.len() implies t[k] == s[k] by {}
    assert(t[s.len() as int] == ' ');
    ends_at(t, i, e);
    assert(t.subrange(i, e) =~= s.subrange(i, e));
    let next = splitter::step(st, s.subrange(i, e), idx);
    if e >= s.len() {
        let from = s.len() as int + 1;
        assert forall|k: int| from <= k < t.len() implies t[k] != ' ' && t[k] != '\n' by {
            assert(t[k] == w[k - from]);
        }
        ends_at(t, from, t.len() as int);
        assert(t.subrange(from, t.len() as int) =~= w);
        assert(splitter::split_from(next, t, from, idx + 1) == splitter::step(next, w, idx + 1));
        idx + 1
    } else if s[e] == ' ' {
        last_token(next, s, w, e + 1, idx + 1)
    } else {
        last_token(splitter::line_feed(next), s, w, e + 1, 0)
    }
}

proof fn depths_stay_positive(st: Split, s: Seq<char>, i: int, idx: int)
    requires
        st.print >= 0,
        st.block >= 0,
        st.comment >= 0,
    ensures
        ({
            let r = splitter::split_from(st, s, i, idx);
            r.print >= 0 && r.block >= 0 && r.comment >= 0
        }),
    decreases s.len() + 1 - i,
{
    if 0 <= i <= s.len() {
        let e = splitter::token_end(s, i);
        let next = splitter::step(st, s.subrange(i, e), idx);
        if !(e < i || e >= s.len()) {
            if s[e] == ' ' {
                depths_stay_positive(next, s, e + 1, idx + 1);
            } else {
                depths_stay_positive(splitter::line_feed(next), s, e + 1, 0);
            }
        }
    }
}

/// A blank and a plain word behind a text that can be split are one parameter more.
pub proof fn a_word_is_one_parameter_more(s: Seq<char>, w: Seq<char>)
    requires
        word(w),
        splitter::split_of(s) is Ok,
    ensures
        splitter::split_of(s.push(' ') + w) == Ok::<Seq<Seq<char>>, Seq<char>>(
            splitter::split_of(s)->Ok_0.push(w),
        ),
{
    let st = splitter::split_from(splitter::split_start(), s, 0, 0);
    depths_stay_positive(splitter::split_start(), s, 0, 0);
    assert forall|k: int| 0 <= k < w.len() implies w[k] != ' ' && w[k] != '\n' && w[k] != '{'
        && w[k] != '}' && w[k] != '"' && w[k] != '\'' && w[k] != '\\' by {
        assert(plain(w[k]));
    }
    let last = last_token(splitter::split_start(), s, w, 0, 0);
    no_blocks(st, w);
    no_quotes(w, 0, None);
    if w == seq!['\\'] {
        assert(w[0] == '\\');
    }
}

// ------------------------------------------------------------------ quotes

/// A text that may stand in these quotes: no quote, brace, backslash or line feed in it.
pub open spec fn quotable(t: Seq<char>) -> bool {
    forall|k: int|
        0 <= k < t.len() ==> #[trigger] t[k] != '"' && t[k] != '\'' && t[k] != '{' && t[k] != '}'
            && t[k] != '\\' && t[k] != '\n'
}

/// The rest of a quoted text, up to its closing quote, goes on with the parameter.
proof fn quoted_rest(st: Split, s: Seq<char>, q: char, i: int, idx: int)
    requires
        0 < i <= s.len() - 1,
        idx > 0,
        q == '"' || q == '\'',
        s[s.len() - 1] == q,
        s[i - 1] == ' ',
        quotable(s.subrange(i, s.len() - 1)),
        st.quote == Some(q),
        !st.in_block(),
        st.print >= 0,
        st.block >= 0,
        st.comment >= 0,
        st.params.len() > 0,
    ensures
        ({
            let r = splitter::split_from(st, s, i, idx);
            &&& r.quote is None && !r.in_block()
            &&& r.params == splitter::extend_last(
                st.params,
                seq![' '] + s.subrange(i, s.len() as int),
            )
        }),
    decreases s.len() - i,
{
    let n = s.len() as int;
    token_end_is(s, i);
    let e = splitter::token_end(s, i);
    let token = s.subrange(i, e);
    let inner = s.subrange(i, n - 1);
    assert forall|k: int| i <= k < n - 1 implies s[k] != '"' && s[k] != '\'' && s[k] != '{' && s[k]
        != '}' && s[k] != '\\' && s[k] != '\n' by {
        assert(inner[k - i] == s[k]);
    }
    assert forall|k: int| 0 <= k < token.len() implies token[k] != '{' && token[k] != '}' by {
        assert(token[k] == s[i + k]);
    }
    no_blocks(st, token);
    if e < n {
        assert(e < n - 1);
        assert forall|k: int| 0 <= k < token.len() implies token[k] != '"' && token[k] != '\'' by {
            assert(token[k] == s[i + k]);
        }
        no_quotes(token, 0, Some(q));
        let next = splitter::step(st, token, idx);
        assert(s[e] == ' ');
        assert(s.subrange(e + 1, n - 1) =~= inner.subrange(e + 1 - i, n - 1 - i));
        let t = s.subrange(e + 1, n - 1);
        assert forall|k: int| 0 <= k < t.len() implies #[trigger] t[k] != '"' && t[k] != '\''
            && t[k] != '{' && t[k] != '}' && t[k] != '\\' && t[k] != '\n' by {
            assert(t[k] == s[e + 1 + k]);
        }
        if token.len() == 0 {
            assert(seq![' '] + token =~= seq![' ']);
        }
        assert(next.params == splitter::extend_last(st.params, seq![' '] + token));
        quoted_rest(next, s, q, e + 1, idx + 1);
        let a = seq![' '] + token;
        let b = seq![' '] + s.subrange(e + 1, n);
        assert(a + b =~= seq![' '] + s.subrange(i, n));
        let last = st.params.last();
        assert((last + a) + b =~= last + (a + b));
        assert(splitter::extend_last(next.params, b) =~= splitter::extend_last(
            st.params,
            seq![' '] + s.subrange(i, n),
        ));
    } else {
        let m = token.len() as int;
        assert(token[m - 1] == q);
        closes(token, q, 0);
        assert(token != seq!['\\']) by {
            assert(token[m - 1] == q);
        }
        assert(splitter::split_from(st, s, i, idx) == splitter::step(st, token, idx));
    }
}

/// A token whose last character is the quote that is open, with no quote and no backslash before
/// it, closes the quote.
proof fn closes(token: Seq<char>, q: char, i: int)
    requires
        0 <= i < token.len(),
        q == '"' || q == '\'',
        token[token.len() - 1] == q,
        forall|k: int|
            0 <= k < token.len() - 1 ==> token[k] != '"' && token[k] != '\'' && token[k] != '\\',
    ensures
        splitter::quote_after(token, i, Some(q)) is None,
    decreases token.len() - i,
{
    if i < token.len() - 1 {
        closes(token, q, i + 1);
    } else {
        reveal_with_fuel(splitter::quote_after, 2);
    }
}

/// A token with one quote in it, behind which nothing escaped stands, opens that quote.
proof fn opens(token: Seq<char>, q: char, at: int, i: int)
    requires
        0 <= i <= at < token.len(),
        q == '"' || q == '\'',
        token[at] == q,
        forall|k: int|
            0 <= k < token.len() && k != at ==> token[k] != '"' && token[k] != '\'' && token[k]
                != '\\',
    ensures
        splitter::quote_after(token, i, None) == Some(q),
    decreases at - i,
{
    if i < at {
        opens(token, q, at, i + 1);
    } else {
        no_quotes(token, at + 1, Some(q));
    }
}

/// A word with a quoted text behind it, blanks and all, is one parameter.
#[verifier::spinoff_prover]
pub proof fn a_quoted_text_is_one_parameter(k: Seq<char>, t: Seq<char>, q: char)
    requires
        word(k),
        quotable(t),
        q == '"' || q == '\'',
    ensures
        splitter::split_of(k + (seq![q] + t.push(q))) == Ok::<Seq<Seq<char>>, Seq<char>>(
            seq![k + (seq![q] + t.push(q))],
        ),
{
    let s = k + (seq![q] + t.push(q));
    let n = s.len() as int;
    let st = splitter::split_start();
    let m = k.len() as int;
    assert(s[m] == q && s[n - 1] == q);
    assert forall|j: int| 0 <= j < n && j != m && j != n - 1 implies s[j] != '"' && s[j] != '\''
        && s[j] != '{' && s[j] != '}' && s[j] != '\\' && s[j] != '\n' && (j < m ==> s[j]
        != ' ') by {
        if j < m {
            assert(s[j] == k[j] && plain(k[j]));
        } else {
            assert(s[j] == t[j - m - 1]);
        }
    }
    token_end_is(s, 0);
    let e = splitter::token_end(s, 0);
    let token = s.subrange(0, e);
    assert(s[0] == k[0] && plain(k[0]));
    assert(e > m);
    assert forall|j: int| 0 <= j < token.len() implies token[j] != '{' && token[j] != '}' by {
        assert(token[j] == s[j]);
    }
    no_blocks(st, token);
    assert(token[0] == k[0]);
    if token == seq!['\\'] {
        assert(token[0] == '\\');
    }
    if e < n {
        assert(e < n - 1);
        opens(token, q, m, 0);
        let next = splitter::step(st, token, 0);
        assert(next.params =~= seq![token]);
        assert(s[e] == ' ');
        let inner = s.subrange(e + 1, n - 1);
        assert forall|j: int| 0 <= j < inner.len() implies #[trigger] inner[j] != '"' && inner[j]
            != '\'' && inner[j] != '{' && inner[j] != '}' && inner[j] != '\\' && inner[j]
            != '\n' by {
            assert(inner[j] == s[e + 1 + j]);
        }
        quoted_rest(next, s, q, e + 1, 1);
        assert(token + (seq![' '] + s.subrange(e + 1, n)) =~= s);
        let r = splitter::split_from(next, s, e + 1, 1);
        assert(r.params =~= seq![s]);
        assert(splitter::split_from(st, s, 0, 0) == r);
    } else {
        assert(token =~= s);
        opens_and_closes(s, q, m, 0);
        assert(splitter::split_from(st, s, 0, 0) == splitter::step(st, s, 0));
        assert(Seq::<Seq<char>>::empty().push(s) =~= seq![s]);
    }
}

proof fn opens_and_closes(s: Seq<char>, q: char, at: int, i: int)
    requires
        0 <= i <= at < s.len() - 1,
        q == '"' || q == '\'',
        s[at] == q,
        s[s.len() - 1] == q,
        forall|k: int|
            0 <= k < s.len() - 1 && k != at ==> s[k] != '"' && s[k] != '\'' && s[k] != '\\',
    ensures
        splitter::quote_after(s, i, None) is None,
    decreases at - i,
{
    if i < at {
        opens_and_closes(s, q, at, i + 1);
    } else {
        closes_from(s, q, at, at + 1);
    }
}

proof fn closes_from(s: Seq<char>, q: char, at: int, i: int)
    requires
        0 <= at < i < s.len(),
        q == '"' || q == '\'',
        s[at] == q,
        s[s.len() - 1] == q,
        forall|k: int|
            0 <= k < s.len() - 1 && k != at ==> s[k] != '"' && s[k] != '\'' && s[k] != '\\',
    ensures
        splitter::quote_after(s, i, Some(q)) is None,
    decreases s.len() - i,
{
    if i < s.len() - 1 {
        closes_from(s, q, at, i + 1);
    } else {
        reveal_with_fuel(splitter::quote_after, 2);
    }
}

/// `key="a text with blanks"` is the one option of that key, and its value is the text without the
/// quotes.
pub proof fn a_quoted_value_is_read(k: Seq<char>, t: Seq<char>, q: char)
    requires
        word(k),
        forall|i: int| 0 <= i < k.len() ==> k[i] != '=' && !text::white(#[trigger] k[i]),
        quotable(t),
        q == '"' || q == '\'',
    ensures
        ({
            let s = k.push('=') + (seq![q] + t.push(q));
            &&& splitter::split_of(s) is Ok
            &&& splitter::kv_of_tokens(splitter::split_of(s)->Ok_0, false) == (KvModel {
                options: seq![(k, t)],
                raw_params: None,
            })
        }),
{
    let key = k.push('=');
    let v = seq![q] + t.push(q);
    let s = key + v;
    assert(word(key)) by {
        assert forall|i: int| 0 <= i < key.len() implies plain(#[trigger] key[i]) by {
            if i < k.len() {
                assert(plain(k[i]));
            }
        }
    }
    a_quoted_text_is_one_parameter(key, t, q);
    assert forall|i: int| 0 <= i < s.len() implies s[i] != '\\' by {
        if i < key.len() {
            assert(plain(key[i]) && s[i] == key[i]);
        } else if i == key.len() || i == s.len() - 1 {
            assert(s[i] == q);
        } else {
            assert(s[i] == t[i - key.len() - 1]);
        }
    }
    assign::nothing_to_decode(s);
    let none = Seq::<Seq<char>>::empty();
    assert(none.push(s) =~= seq![s]);
    assert(plain(k[k.len() - 1]));
    assert(assign::is_key(k));
    assign::an_assignment_sets_its_option(none, s, k, v);
    assert(!text::white(k[0]) && !text::white(k[k.len() - 1]));
    assign::a_bare_text_is_trimmed(k);
    assert(v[0] == q && v[v.len() - 1] == q);
    assign::a_bare_text_is_trimmed(v);
    if t.len() > 0 {
        assert(t[t.len() - 1] != '\\');
    }
    assign::outer_quotes_come_off(t, q);
    let new = splitter::kv_of_tokens(none.push(s), false);
    assert(splitter::kv_of_tokens(none, false).options.len() == 0);
    let i = choose|i: int| 0 <= i < new.options.len() && #[trigger] new.options[i] == (k, t);
    assert(new.options =~= seq![(k, t)]);
}

// ------------------------------------------------------------------ escapes

/// An escape sequence in a token stands for its character.
pub proof fn an_escape_is_decoded(a: Seq<char>, c: char, r: char, b: Seq<char>)
    requires
        lexemes::escape(c, r),
        forall|k: int| 0 <= k < a.len() ==> a[k] != '\\',
        forall|k: int| 0 <= k < b.len() ==> b[k] != '\\',
    ensures
        splitter::decoded_from(a + seq!['\\', c] + b, 0) == a.push(r) + b,
{
    let s = a + seq!['\\', c] + b;
    let n = a.len() as int;
    assert(s[n] == '\\' && s[n + 1] == c);
    assert forall|k: int| 0 <= k < n implies s[k] != '\\' by {
        assert(s[k] == a[k]);
    }
    assert forall|k: int| n + 2 <= k < s.len() implies s[k] != '\\' by {
        assert(s[k] == b[k - n - 2]);
    }
    plain_prefix(s, 0, n);
    assert(splitter::escape_len(s, n) == Some(2int));
    let m = s.subrange(n, n + 2);
    assert(m[1] == c && m.len() == 2);
    plain_prefix(s, n + 2, s.len() as int);
    assert(s.subrange(n + 2, s.len() as int) =~= b);
    assert(splitter::decoded_from(s, s.len() as int) == Seq::<char>::empty());
    assert(splitter::decoded_from(s, n + 2) =~= b);
    assert(splitter::unescaped(m) == seq![r]);
    assert(splitter::decoded_from(s, n) == seq![r] + b);
    assert(s.subrange(0, n) =~= a);
    assert(a + (seq![r] + b) =~= a.push(r) + b);
}

proof fn plain_prefix(s: Seq<char>, i: int, j: int)
    requires
        0 <= i <= j <= s.len(),
        forall|k: int| i <= k < j ==> s[k] != '\\',
    ensures
        splitter::decoded_from(s, i) == s.subrange(i, j) + splitter::decoded_from(s, j),
    decreases j - i,
{
    if i < j {
        plain_prefix(s, i + 1, j);
        assert(seq![s[i]] + (s.subrange(i + 1, j) + splitter::decoded_from(s, j)) =~= s.subrange(
            i,
            j,
        ) + splitter::decoded_from(s, j));
    } else {
        assert(s.subrange(i, j) + splitter::decoded_from(s, j) =~= splitter::decoded_from(s, j));
    }
}

} // verus!
