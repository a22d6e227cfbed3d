//! What the tokens of a free-form value become: `key=value` is an option, everything else is raw.

use vstd::prelude::*;

use crate::keywords;
use crate::splitter;
use crate::text;

verus! {

/// Do the options give the key this value?
pub open spec fn gives(
    options: Seq<(Seq<char>, Seq<char>)>,
    key: Seq<char>,
    value: Seq<char>,
) -> bool {
    exists|i: int| 0 <= i < options.len() && #[trigger] options[i] == (key, value)
}

/// Does no key occur twice?
pub open spec fn unrepeated(options: Seq<(Seq<char>, Seq<char>)>) -> bool {
    forall|i: int, j: int|
        0 <= i < j < options.len() ==> (#[trigger] options[i]).0 != (#[trigger] options[j]).0
}

/// Does an `=` stand inside of the text, behind its first character and behind no backslash?
pub open spec fn parted(s: Seq<char>) -> bool {
    exists|j: int| 1 <= j < s.len() && #[trigger] s[j] == '=' && s[j - 1] != '\\'
}

/// The text in front of the first `=`, such as a key: not empty, with no `=` in it that parts it,
/// and no backslash at its end.
pub open spec fn is_key(k: Seq<char>) -> bool {
    k.len() > 0 && k[k.len() - 1] != '\\' && !parted(k)
}

// ------------------------------------------------------------------ the first sign

/// The `=` that parts a token is the first one that can.
pub proof fn the_first_equals_parts(s: Seq<char>)
    ensures
        match splitter::equals_from(s, 1) {
            Some(p) => {
                &&& 1 <= p < s.len() && s[p] == '=' && s[p - 1] != '\\'
                &&& !parted(s.subrange(0, p))
            },
            None => !parted(s),
        },
{
    first_equals(s, 1);
    if let Some(p) = splitter::equals_from(s, 1) {
        let k = s.subrange(0, p);
        assert forall|j: int| 1 <= j < k.len() && #[trigger] k[j] == '=' implies k[j - 1]
            == '\\' by {
            assert(s[j] == '=');
        }
    }
}

proof fn first_equals(s: Seq<char>, i: int)
    requires
        1 <= i,
    ensures
        match splitter::equals_from(s, i) {
            Some(p) => {
                &&& i <= p < s.len() && s[p] == '=' && s[p - 1] != '\\'
                &&& forall|j: int| i <= j < p && #[trigger] s[j] == '=' ==> s[j - 1] == '\\'
            },
            None => forall|j: int| i <= j < s.len() && #[trigger] s[j] == '=' ==> s[j - 1] == '\\',
        },
    decreases s.len() - i,
{
    if i < s.len() {
        first_equals(s, i + 1);
    }
}

/// A key, an `=` and a value part at that `=`, whatever the value holds.
proof fn parts_behind_the_key(k: Seq<char>, v: Seq<char>)
    requires
        is_key(k),
    ensures
        splitter::equals_from(k.push('=') + v, 1) == Some(k.len() as int),
        (k.push('=') + v).subrange(0, k.len() as int) == k,
        (k.push('=') + v).subrange(k.len() as int + 1, (k.push('=') + v).len() as int) == v,
{
    let x = k.push('=') + v;
    first_equals(x, 1);
    assert(x.subrange(0, k.len() as int) =~= k);
    assert(x.subrange(k.len() as int + 1, x.len() as int) =~= v);
    assert(x[k.len() as int] == '=' && x[k.len() - 1] == k[k.len() - 1]);
    if let Some(p) = splitter::equals_from(x, 1) {
        if p < k.len() {
            assert(k[p] == '=' && k[p - 1] == x[p - 1]);
            assert(parted(k));
        }
    }
}

// ------------------------------------------------------------------ blanks and quotes

/// To trim a text is to take white space from both ends of it, and all that is there.
pub proof fn trimming_takes_white_ends(s: Seq<char>)
    ensures
        ({
            let t = text::trim(s);
            &&& exists|a: int|
                0 <= a <= s.len() - t.len() && t == #[trigger] s.subrange(a, a + t.len()) && (forall|
                    k: int,
                |
                    0 <= k < a || a + t.len() <= k < s.len() ==> text::white(#[trigger] s[k]))
            &&& t.len() > 0 ==> !text::white(t[0]) && !text::white(t[t.len() - 1])
        }),
{
    let u = text::trim_start(s);
    let t = text::trim(s);
    text::trimmed_start_is_white(s);
    text::trimmed_end_is_white(u);
    start_is_bare(s);
    end_is_bare(u);
    let a = s.len() - u.len();
    assert(t =~= s.subrange(a, a + t.len()));
    assert forall|k: int| 0 <= k < a || a + t.len() <= k < s.len() implies text::white(
        #[trigger] s[k],
    ) by {
        if k >= a {
            assert(s[k] == u[k - a]);
        }
    }
    if t.len() > 0 {
        assert(t[0] == u[0]);
    }
}

proof fn start_is_bare(s: Seq<char>)
    ensures
        text::trim_start(s).len() > 0 ==> !text::white(text::trim_start(s)[0]),
    decreases s.len(),
{
    if s.len() > 0 && text::white(s[0]) {
        start_is_bare(s.subrange(1, s.len() as int));
    }
}

proof fn end_is_bare(s: Seq<char>)
    ensures
        text::trim_end(s).len() > 0 ==> !text::white(text::trim_end(s)[text::trim_end(s).len() - 1]),
    decreases s.len(),
{
    if s.len() > 0 && text::white(s[s.len() - 1]) {
        end_is_bare(s.subrange(0, s.len() - 1));
    }
}

/// A text with no white space at its ends is its own trimming.
pub proof fn a_bare_text_is_trimmed(s: Seq<char>)
    requires
        s.len() > 0 ==> !text::white(s[0]) && !text::white(s[s.len() - 1]),
    ensures
        text::trim(s) == s,
{
}

/// Quotes around a text are taken off once, where they match and the last one is not escaped.
pub proof fn outer_quotes_come_off(s: Seq<char>, q: char)
    requires
        q == '"' || q == '\'',
        s.len() > 0 ==> s[s.len() - 1] != '\\',
    ensures
        splitter::unquoted(seq![q] + s.push(q)) == s,
{
    let x = seq![q] + s.push(q);
    assert(x[0] == q && x[x.len() - 1] == q);
    if s.len() > 0 {
        assert(x[x.len() - 2] == s[s.len() - 1]);
    }
    assert(x.subrange(1, x.len() - 1) =~= s);
}

/// A text that does not both begin and end with the same quote stays as it is.
pub proof fn no_outer_quotes_come_off(s: Seq<char>)
    requires
        s.len() < 2 || s[0] != s[s.len() - 1] || (s[0] != '"' && s[0] != '\''),
    ensures
        splitter::unquoted(s) == s,
{
}

/// A text without backslashes has no escape sequences.
pub proof fn nothing_to_decode(s: Seq<char>)
    requires
        forall|k: int| 0 <= k < s.len() ==> s[k] != '\\',
    ensures
        splitter::decoded_from(s, 0) == s,
{
    nothing_to_decode_from(s, 0);
    assert(s.subrange(0, s.len() as int) =~= s);
}

proof fn nothing_to_decode_from(s: Seq<char>, i: int)
    requires
        0 <= i <= s.len(),
        forall|k: int| 0 <= k < s.len() ==> s[k] != '\\',
    ensures
        splitter::decoded_from(s, i) == s.subrange(i, s.len() as int),
    decreases s.len() - i,
{
    if i < s.len() {
        nothing_to_decode_from(s, i + 1);
        assert(seq![s[i]] + s.subrange(i + 1, s.len() as int) =~= s.subrange(i, s.len() as int));
    } else {
        assert(s.subrange(i, s.len() as int) =~= Seq::empty());
    }
}

// ------------------------------------------------------------------ one token more

proof fn index_finds(options: Seq<(Seq<char>, Seq<char>)>, key: Seq<char>, i: int)
    requires
        0 <= i,
    ensures
        match splitter::option_index(options, key, i) {
            Some(k) => i <= k < options.len() && options[k].0 == key,
            None => forall|k: int| i <= k < options.len() ==> (#[trigger] options[k]).0 != key,
        },
    decreases options.len() - i,
{
    if i < options.len() {
        index_finds(options, key, i + 1);
    }
}

/// To set an option leaves the others, and the places of all.
proof fn set_option_sets(options: Seq<(Seq<char>, Seq<char>)>, key: Seq<char>, value: Seq<char>)
    requires
        unrepeated(options),
    ensures
        ({
            let new = splitter::with_option(options, key, value);
            &&& unrepeated(new)
            &&& options.len() <= new.len() <= options.len() + 1
            &&& forall|i: int|
                0 <= i < options.len() ==> (#[trigger] new[i]).0 == options[i].0 && (options[i].0
                    != key ==> new[i] == options[i])
            &&& gives(new, key, value)
            &&& new.len() > options.len() <==> (forall|i: int|
                0 <= i < options.len() ==> (#[trigger] options[i]).0 != key)
            &&& new.len() > options.len() ==> new[options.len() as int] == (key, value)
        }),
{
    let new = splitter::with_option(options, key, value);
    index_finds(options, key, 0);
    match splitter::option_index(options, key, 0) {
        Some(i) => assert(new[i] == (key, value)),
        None => assert(new[options.len() as int] == (key, value)),
    }
}

/// The last token is sorted out behind all others.
proof fn one_token_more(
    tokens: Seq<Seq<char>>,
    t: Seq<char>,
    i: int,
    check_raw: bool,
    options: Seq<(Seq<char>, Seq<char>)>,
    raw: Seq<Seq<char>>,
)
    requires
        0 <= i <= tokens.len(),
    ensures
        ({
            let (o, r) = splitter::sorted_out(tokens, i, check_raw, options, raw);
            splitter::sorted_out(tokens.push(t), i, check_raw, options, raw)
                == splitter::sorted_out(seq![t], 0, check_raw, o, r)
        }),
    decreases tokens.len() - i,
{
    if i < tokens.len() {
        let orig = tokens[i];
        assert(tokens.push(t)[i] == orig);
        let x = splitter::decoded_from(orig, 0);
        match splitter::equals_from(x, 1) {
            Some(p) => {
                let k = x.subrange(0, p);
                let v = x.subrange(p + 1, x.len() as int);
                if check_raw && !keywords::listed(splitter::RAW_OK_KEYS@, k) {
                    one_token_more(tokens, t, i + 1, check_raw, options, raw.push(orig));
                } else {
                    let set = splitter::with_option(
                        options,
                        text::trim(k),
                        splitter::unquoted(text::trim(v)),
                    );
                    one_token_more(tokens, t, i + 1, check_raw, set, raw);
                }
            },
            None => if x.contains('=') {
                one_token_more(
                    tokens,
                    t,
                    i + 1,
                    check_raw,
                    options,
                    raw.push(splitter::plain_equals(x, 0)),
                );
            } else {
                one_token_more(tokens, t, i + 1, check_raw, options, raw.push(orig));
            },
        }
    } else {
        let all = tokens.push(t);
        assert(all[i] == t && seq![t][0] == t);
        reveal_with_fuel(splitter::sorted_out, 2);
    }
}

spec fn options_of(tokens: Seq<Seq<char>>, check_raw: bool) -> Seq<(Seq<char>, Seq<char>)> {
    splitter::sorted_out(tokens, 0, check_raw, Seq::empty(), Seq::empty()).0
}

spec fn raw_of(tokens: Seq<Seq<char>>, check_raw: bool) -> Seq<Seq<char>> {
    splitter::sorted_out(tokens, 0, check_raw, Seq::empty(), Seq::empty()).1
}

/// What one token more does.
proof fn step(tokens: Seq<Seq<char>>, t: Seq<char>, check_raw: bool)
    ensures
        ({
            let x = splitter::decoded_from(t, 0);
            let o = options_of(tokens, check_raw);
            let r = raw_of(tokens, check_raw);
            let o2 = options_of(tokens.push(t), check_raw);
            let r2 = raw_of(tokens.push(t), check_raw);
            match splitter::equals_from(x, 1) {
                Some(p) => {
                    let k = x.subrange(0, p);
                    let v = x.subrange(p + 1, x.len() as int);
                    if check_raw && !keywords::listed(splitter::RAW_OK_KEYS@, k) {
                        o2 == o && r2 == r.push(t)
                    } else {
                        o2 == splitter::with_option(
                            o,
                            text::trim(k),
                            splitter::unquoted(text::trim(v)),
                        ) && r2 == r
                    }
                },
                None => o2 == o && r2 == if x.contains('=') {
                    r.push(splitter::plain_equals(x, 0))
                } else {
                    r.push(t)
                },
            }
        }),
{
    one_token_more(tokens, t, 0, check_raw, Seq::empty(), Seq::empty());
    reveal_with_fuel(splitter::sorted_out, 2);
    assert(seq![t][0] == t);
}

// ------------------------------------------------------------------ what is promised

/// No key is given twice.
pub proof fn no_key_occurs_twice(tokens: Seq<Seq<char>>, check_raw: bool)
    ensures
        unrepeated(splitter::kv_of_tokens(tokens, check_raw).options),
    decreases tokens.len(),
{
    if tokens.len() > 0 {
        let before = tokens.drop_last();
        let t = tokens.last();
        assert(before.push(t) =~= tokens);
        no_key_occurs_twice(before, check_raw);
        step(before, t, check_raw);
        let x = splitter::decoded_from(t, 0);
        if let Some(p) = splitter::equals_from(x, 1) {
            set_option_sets(
                options_of(before, check_raw),
                text::trim(x.subrange(0, p)),
                splitter::unquoted(text::trim(x.subrange(p + 1, x.len() as int))),
            );
        }
    }
}

/// No key holds an `=`, unless as its first character or behind a backslash.
pub proof fn no_key_holds_an_equals(tokens: Seq<Seq<char>>, check_raw: bool)
    ensures
        forall|i: int|
            0 <= i < splitter::kv_of_tokens(tokens, check_raw).options.len() ==> !parted(
                (#[trigger] splitter::kv_of_tokens(tokens, check_raw).options[i]).0,
            ),
    decreases tokens.len(),
{
    if tokens.len() > 0 {
        let before = tokens.drop_last();
        let t = tokens.last();
        assert(before.push(t) =~= tokens);
        no_key_holds_an_equals(before, check_raw);
        no_key_occurs_twice(before, check_raw);
        step(before, t, check_raw);
        let x = splitter::decoded_from(t, 0);
        the_first_equals_parts(x);
        if let Some(p) = splitter::equals_from(x, 1) {
            let k = x.subrange(0, p);
            let key = text::trim(k);
            set_option_sets(
                options_of(before, check_raw),
                key,
                splitter::unquoted(text::trim(x.subrange(p + 1, x.len() as int))),
            );
            trimming_takes_white_ends(k);
            let a = choose|a: int|
                0 <= a <= k.len() - key.len() && key == #[trigger] k.subrange(a, a + key.len());
            assert forall|j: int| 1 <= j < key.len() && #[trigger] key[j] == '=' implies key[j - 1]
                == '\\' by {
                assert(k[a + j] == '=');
                assert(k[a + j - 1] == key[j - 1]);
            }
            let old = options_of(before, check_raw);
            let new = options_of(tokens, check_raw);
            assert forall|i: int| 0 <= i < new.len() implies !parted((#[trigger] new[i]).0) by {
                if i < old.len() {
                    assert(new[i].0 == old[i].0);
                    assert(splitter::kv_of_tokens(before, check_raw).options[i] == old[i]);
                }
            }
        }
    }
}

/// A token `k=v` sets the option `k` to what `v` says, whatever signs stand in `v`. It leaves every
/// other option, the order of all, and what is raw.
pub proof fn an_assignment_sets_its_option(
    before: Seq<Seq<char>>,
    t: Seq<char>,
    k: Seq<char>,
    v: Seq<char>,
)
    requires
        is_key(k),
        splitter::decoded_from(t, 0) == k.push('=') + v,
    ensures
        ({
            let old = splitter::kv_of_tokens(before, false);
            let new = splitter::kv_of_tokens(before.push(t), false);
            let key = text::trim(k);
            &&& gives(new.options, key, splitter::unquoted(text::trim(v)))
            &&& old.options.len() <= new.options.len() <= old.options.len() + 1
            &&& forall|i: int|
                0 <= i < old.options.len() ==> (#[trigger] new.options[i]).0 == old.options[i].0
                    && (old.options[i].0 != key ==> new.options[i] == old.options[i])
            &&& new.options.len() > old.options.len() ==> new.options.last().0 == key
            &&& new.raw_params == old.raw_params
        }),
{
    step(before, t, false);
    parts_behind_the_key(k, v);
    no_key_occurs_twice(before, false);
    set_option_sets(options_of(before, false), text::trim(k), splitter::unquoted(text::trim(v)));
}

/// Of a command's tokens only these eight keys are options; all else is raw.
pub open spec fn raw_key(k: Seq<char>) -> bool {
    ||| k == "creates"@
    ||| k == "removes"@
    ||| k == "chdir"@
    ||| k == "executable"@
    ||| k == "warn"@
    ||| k == "stdin"@
    ||| k == "stdin_add_newline"@
    ||| k == "strip_empty_ends"@
}

/// A token `k=v` of a command is an option where its key is one of the eight, as it is elsewhere;
/// any other token of that form is raw, as it was written.
pub proof fn a_command_takes_few_options(
    before: Seq<Seq<char>>,
    t: Seq<char>,
    k: Seq<char>,
    v: Seq<char>,
)
    requires
        is_key(k),
        splitter::decoded_from(t, 0) == k.push('=') + v,
    ensures
        ({
            let old = splitter::kv_of_tokens(before, true);
            let new = splitter::kv_of_tokens(before.push(t), true);
            if raw_key(k) {
                &&& gives(new.options, text::trim(k), splitter::unquoted(text::trim(v)))
                &&& new.raw_params == old.raw_params
            } else {
                &&& new.options == old.options
                &&& new.raw_params == Some(
                    match old.raw_params {
                        Some(s) => splitter::joined_with(s, t),
                        None => t,
                    },
                )
            }
        }),
{
    step(before, t, true);
    parts_behind_the_key(k, v);
    no_key_occurs_twice(before, true);
    set_option_sets(options_of(before, true), text::trim(k), splitter::unquoted(text::trim(v)));
    raw_keys_are_listed(k);
    if !raw_key(k) {
        raw_grows(raw_of(before, true), t);
    }
}

proof fn raw_keys_are_listed(k: Seq<char>)
    ensures
        keywords::listed(splitter::RAW_OK_KEYS@, k) == raw_key(k),
{
    let table = splitter::RAW_OK_KEYS@;
    assert(table.len() == 8);
    assert(table[0]@ == "creates"@ && table[1]@ == "removes"@ && table[2]@ == "chdir"@ && table[3]@
        == "executable"@);
    assert(table[4]@ == "warn"@ && table[5]@ == "stdin"@ && table[6]@ == "stdin_add_newline"@
        && table[7]@ == "strip_empty_ends"@);
}

/// One raw token more stands behind the others.
proof fn raw_grows(raw: Seq<Seq<char>>, t: Seq<char>)
    ensures
        splitter::joined_from(raw.push(t), 0, Seq::empty()) == if raw.len() > 0 {
            splitter::joined_with(splitter::joined_from(raw, 0, Seq::empty()), t)
        } else {
            t
        },
{
    raw_grows_from(raw, t, 0, Seq::empty());
    assert(Seq::<char>::empty() + t =~= t);
}

proof fn raw_grows_from(raw: Seq<Seq<char>>, t: Seq<char>, i: int, acc: Seq<char>)
    requires
        0 <= i <= raw.len(),
    ensures
        splitter::joined_from(raw.push(t), i, acc) == splitter::joined_with(
            splitter::joined_from(raw, i, acc),
            t,
        ),
    decreases raw.len() - i,
{
    if i < raw.len() {
        assert(raw.push(t)[i] == raw[i]);
        raw_grows_from(raw, t, i + 1, splitter::joined_with(acc, raw[i]));
    } else {
        assert(raw.push(t)[i] == t);
        reveal_with_fuel(splitter::joined_from, 2);
    }
}

/// A token that no `=` parts is raw, and no option.
pub proof fn other_tokens_are_raw(before: Seq<Seq<char>>, t: Seq<char>, check_raw: bool)
    requires
        !parted(splitter::decoded_from(t, 0)),
    ensures
        ({
            let old = splitter::kv_of_tokens(before, check_raw);
            let new = splitter::kv_of_tokens(before.push(t), check_raw);
            &&& new.options == old.options
            &&& new.raw_params is Some
            &&& !splitter::decoded_from(t, 0).contains('=') ==> new.raw_params == Some(
                match old.raw_params {
                    Some(s) => splitter::joined_with(s, t),
                    None => t,
                },
            )
        }),
{
    let x = splitter::decoded_from(t, 0);
    step(before, t, check_raw);
    the_first_equals_parts(x);
    if let Some(p) = splitter::equals_from(x, 1) {
        assert(x[p] == '=' && x[p - 1] != '\\');
        assert(parted(x));
    }
    raw_grows(raw_of(before, check_raw), t);
}

/// The text `k=v`, without blanks, line feeds, quotes, braces and backslashes, is the one option
/// `k` with the value `v`, however many `=` stand in `v`.
pub proof fn a_plain_assignment_is_read(k: Seq<char>, v: Seq<char>)
    requires
        k.len() > 0,
        forall|i: int| 0 <= i < k.len() ==> k[i] != '=' && !text::white(#[trigger] k[i]),
        forall|i: int| 0 <= i < v.len() ==> !text::white(#[trigger] v[i]),
        forall|i: int|
            0 <= i < k.len() ==> #[trigger] k[i] != '"' && k[i] != '\'' && k[i] != '{' && k[i]
                != '}' && k[i] != '\\',
        forall|i: int|
            0 <= i < v.len() ==> #[trigger] v[i] != '"' && v[i] != '\'' && v[i] != '{' && v[i]
                != '}' && v[i] != '\\',
    ensures
        splitter::split_of(k.push('=') + v) is Ok,
        splitter::kv_of_tokens(splitter::split_of(k.push('=') + v)->Ok_0, false) == (
        splitter::KvModel { options: seq![(k, v)], raw_params: None }),
{
    let s = k.push('=') + v;
    assert forall|i: int| 0 <= i < s.len() implies s[i] != ' ' && s[i] != '\n' && s[i] != '"'
        && s[i] != '\'' && s[i] != '{' && s[i] != '}' && s[i] != '\\' by {
        if i < k.len() {
            assert(s[i] == k[i]);
        } else if i > k.len() {
            assert(s[i] == v[i - k.len() - 1]);
        }
    }
    splitter::a_plain_word_is_one_parameter(s);
    nothing_to_decode(s);
    assert(seq![s] =~= Seq::<Seq<char>>::empty().push(s));
    step(Seq::empty(), s, false);
    parts_behind_the_key(k, v);
    if k.len() > 0 {
        assert(!text::white(k[0]) && !text::white(k[k.len() - 1]));
    }
    if v.len() > 0 {
        assert(!text::white(v[0]) && !text::white(v[v.len() - 1]));
    }
    a_bare_text_is_trimmed(k);
    a_bare_text_is_trimmed(v);
    if v.len() > 0 {
        assert(v[0] != '"' && v[0] != '\'');
    }
    no_outer_quotes_come_off(v);
    assert(Seq::<(Seq<char>, Seq<char>)>::empty().push((k, v)) =~= seq![(k, v)]);
}

} // verus!
