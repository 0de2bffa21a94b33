//! The case-conversion engine: eight naming conventions applied to
//! identifier-like strings. Snake case is the pivot: a separator is inserted
//! before every uppercase letter that is not the first character and
//! everything is lowercased; the other conventions are derived from it.
//! All case mapping is ASCII-only.

use vstd::prelude::*;

use crate::strutil::{
    is_ascii_lower, is_ascii_upper, lower_char, push_char, to_lower_char, to_upper_char,
    upper_char,
};

verus! {

/// One of the eight supported naming conventions.
#[derive(Copy, Clone, Debug, PartialEq, Eq, Structural)]
pub enum Inflection {
    Lower,
    Upper,
    Camel,
    Snake,
    Pascal,
    ScreamingSnake,
    Kebab,
    ScreamingKebab,
}

impl Default for Inflection {
    /// The convention assumed when none is named.
    fn default() -> (r: Self)
        ensures
            r == Inflection::Camel,
    {
        Inflection::Camel
    }
}

/// Every character lowercased (ASCII).
pub open spec fn lower_seq(s: Seq<char>) -> Seq<char> {
    s.map_values(|c: char| to_lower_char(c))
}

/// Every character uppercased (ASCII).
pub open spec fn upper_seq(s: Seq<char>) -> Seq<char> {
    s.map_values(|c: char| to_upper_char(c))
}

/// Snake case of every character after the first: an underscore before each
/// uppercase letter, and everything lowercased.
pub open spec fn snake_tail(s: Seq<char>) -> Seq<char>
    decreases s.len(),
{
    if s.len() == 0 {
        Seq::empty()
    } else {
        (if is_ascii_upper(s[0]) {
            seq!['_', to_lower_char(s[0])]
        } else {
            seq![to_lower_char(s[0])]
        }) + snake_tail(s.drop_first())
    }
}

/// Snake case: the first character is lowercased without a separator; every
/// later uppercase letter gets an underscore before it.
pub open spec fn snake_seq(s: Seq<char>) -> Seq<char> {
    if s.len() == 0 {
        Seq::empty()
    } else {
        seq![to_lower_char(s[0])] + snake_tail(s.drop_first())
    }
}

/// Pascal case from a given position: `cap` says whether the next character
/// begins a segment. Underscores are dropped and begin a new segment.
pub open spec fn pascal_rec(s: Seq<char>, cap: bool) -> Seq<char>
    decreases s.len(),
{
    if s.len() == 0 {
        Seq::empty()
    } else if s[0] == '_' {
        pascal_rec(s.drop_first(), true)
    } else {
        seq![
            if cap {
                to_upper_char(s[0])
            } else {
                s[0]
            },
        ] + pascal_rec(s.drop_first(), false)
    }
}

/// Pascal case: each underscore-delimited segment capitalized, underscores
/// removed.
pub open spec fn pascal_seq(s: Seq<char>) -> Seq<char> {
    pascal_rec(s, true)
}

/// Camel case: pascal case with its first character lowercased.
pub open spec fn camel_seq(s: Seq<char>) -> Seq<char> {
    let p = pascal_seq(s);
    if p.len() == 0 {
        Seq::empty()
    } else {
        seq![to_lower_char(p[0])] + p.drop_first()
    }
}

/// Underscores replaced by hyphens.
pub open spec fn dash_seq(s: Seq<char>) -> Seq<char> {
    s.map_values(
        |c: char|
            if c == '_' {
                '-'
            } else {
                c
            },
    )
}

/// Kebab case: snake case with hyphens for underscores.
pub open spec fn kebab_seq(s: Seq<char>) -> Seq<char> {
    dash_seq(snake_seq(s))
}

/// What [`Inflection::apply`] returns for each convention.
pub open spec fn apply_spec(v: Inflection, s: Seq<char>) -> Seq<char> {
    match v {
        Inflection::Lower => lower_seq(s),
        Inflection::Upper => upper_seq(s),
        Inflection::Camel => camel_seq(s),
        Inflection::Snake => snake_seq(s),
        Inflection::Pascal => pascal_seq(s),
        Inflection::ScreamingSnake => upper_seq(snake_seq(s)),
        Inflection::Kebab => kebab_seq(s),
        Inflection::ScreamingKebab => upper_seq(kebab_seq(s)),
    }
}

/// Applies a character-to-character map to the whole string.
fn map_chars(s: &str, to_upper: bool) -> (r: String)
    ensures
        to_upper ==> r@ == upper_seq(s@),
        !to_upper ==> r@ == lower_seq(s@),
{
    let n = s.unicode_len();
    let mut r = String::new();
    let mut i: usize = 0;
    while i < n
        invariant
            i <= n,
            n == s@.len(),
            to_upper ==> r@ == upper_seq(s@.take(i as int)),
            !to_upper ==> r@ == lower_seq(s@.take(i as int)),
        decreases n - i,
    {
        let c = s.get_char(i);
        if to_upper {
            push_char(&mut r, upper_char(c));
        } else {
            push_char(&mut r, lower_char(c));
        }
        proof {
            assert(s@.take(i + 1) =~= s@.take(i as int).push(s@[i as int]));
            assert(upper_seq(s@.take(i + 1)) =~= upper_seq(s@.take(i as int)).push(
                to_upper_char(s@[i as int]),
            ));
            assert(lower_seq(s@.take(i + 1)) =~= lower_seq(s@.take(i as int)).push(
                to_lower_char(s@[i as int]),
            ));
        }
        i = i + 1;
    }
    proof {
        assert(s@.take(n as int) =~= s@);
    }
    r
}

/// Replaces underscores with hyphens.
fn map_dashes(s: &str) -> (r: String)
    ensures
        r@ == dash_seq(s@),
{
    let n = s.unicode_len();
    let mut r = String::new();
    let mut i: usize = 0;
    while i < n
        invariant
            i <= n,
            n == s@.len(),
            r@ == dash_seq(s@.take(i as int)),
        decreases n - i,
    {
        let c = s.get_char(i);
        if c == '_' {
            push_char(&mut r, '-');
        } else {
            push_char(&mut r, c);
        }
        proof {
            assert(s@.take(i + 1) =~= s@.take(i as int).push(s@[i as int]));
            assert(dash_seq(s@.take(i + 1)) =~= dash_seq(s@.take(i as int)).push(
                if s@[i as int] == '_' {
                    '-'
                } else {
                    s@[i as int]
                },
            ));
        }
        i = i + 1;
    }
    proof {
        assert(s@.take(n as int) =~= s@);
    }
    r
}

/// Snake case of the characters from position `i` on, all treated as
/// non-initial.
fn snake_from(s: &str, i: usize, out: &mut String)
    requires
        i <= s@.len(),
    ensures
        final(out)@ == old(out)@ + snake_tail(s@.skip(i as int)),
    decreases s@.len() - i,
{
    let n = s.unicode_len();
    if i < n {
        let c = s.get_char(i);
        if 65 <= c as u32 && c as u32 <= 90 {
            push_char(out, '_');
        }
        push_char(out, lower_char(c));
        snake_from(s, i + 1, out);
        proof {
            assert(s@.skip(i as int).drop_first() =~= s@.skip(i + 1));
            assert(s@.skip(i as int)[0] == s@[i as int]);
            if is_ascii_upper(s@[i as int]) {
                assert(old(out)@ + seq!['_', to_lower_char(s@[i as int])] + snake_tail(
                    s@.skip(i + 1),
                ) =~= old(out)@ + (seq!['_', to_lower_char(s@[i as int])] + snake_tail(
                    s@.skip(i + 1),
                )));
                assert(old(out)@.push('_').push(to_lower_char(s@[i as int])) =~= old(out)@ + seq![
                    '_',
                    to_lower_char(s@[i as int]),
                ]);
            } else {
                assert(old(out)@ + seq![to_lower_char(s@[i as int])] + snake_tail(s@.skip(i + 1))
                    =~= old(out)@ + (seq![to_lower_char(s@[i as int])] + snake_tail(
                    s@.skip(i + 1),
                )));
                assert(old(out)@.push(to_lower_char(s@[i as int])) =~= old(out)@ + seq![
                    to_lower_char(s@[i as int]),
                ]);
            }
        }
    } else {
        proof {
            assert(s@.skip(i as int) =~= Seq::<char>::empty());
        }
    }
}

/// Snake case of the whole string.
fn snake(s: &str) -> (r: String)
    ensures
        r@ == snake_seq(s@),
{
    let n = s.unicode_len();
    let mut r = String::new();
    if n == 0 {
        return r;
    }
    let c = s.get_char(0);
    push_char(&mut r, lower_char(c));
    snake_from(s, 1, &mut r);
    proof {
        assert(s@.skip(1) =~= s@.drop_first());
        assert(seq![to_lower_char(s@[0])] + snake_tail(s@.drop_first()) =~= Seq::<
            char,
        >::empty().push(to_lower_char(s@[0])) + snake_tail(s@.drop_first()));
    }
    r
}

/// Pascal case of the characters from position `i` on, with `cap` saying
/// whether the next character begins a segment.
fn pascal_from(s: &str, i: usize, cap: bool, out: &mut String)
    requires
        i <= s@.len(),
    ensures
        final(out)@ == old(out)@ + pascal_rec(s@.skip(i as int), cap),
    decreases s@.len() - i,
{
    let n = s.unicode_len();
    if i < n {
        let c = s.get_char(i);
        proof {
            assert(s@.skip(i as int).drop_first() =~= s@.skip(i + 1));
            assert(s@.skip(i as int)[0] == s@[i as int]);
        }
        if c == '_' {
            pascal_from(s, i + 1, true, out);
        } else {
            let e = if cap {
                upper_char(c)
            } else {
                c
            };
            push_char(out, e);
            pascal_from(s, i + 1, false, out);
            proof {
                assert(old(out)@.push(e) =~= old(out)@ + seq![e]);
                assert(old(out)@ + seq![e] + pascal_rec(s@.skip(i + 1), false) =~= old(out)@ + (
                seq![e] + pascal_rec(s@.skip(i + 1), false)));
            }
        }
    } else {
        proof {
            assert(s@.skip(i as int) =~= Seq::<char>::empty());
        }
    }
}

/// Pascal case of the whole string.
fn pascal(s: &str) -> (r: String)
    ensures
        r@ == pascal_seq(s@),
{
    let mut r = String::new();
    pascal_from(s, 0, true, &mut r);
    proof {
        assert(s@.skip(0) =~= s@);
    }
    r
}

impl Inflection {
    /// Applies this convention to the string. Deterministic; any input is
    /// accepted, and only ASCII letters take part in case mapping.
    pub fn apply(self, string: &str) -> (r: String)
        ensures
            r@ == apply_spec(self, string@),
    {
        match self {
            Inflection::Lower => map_chars(string, false),
            Inflection::Upper => map_chars(string, true),
            Inflection::Camel => {
                let p = pascal(string);
                let n = p.as_str().unicode_len();
                if n == 0 {
                    return String::new();
                }
                let c = p.as_str().get_char(0);
                let mut r = String::new();
                push_char(&mut r, lower_char(c));
                let rest = p.as_str().substring_char(1, n);
                r.append(rest);
                proof {
                    assert(r@ =~= seq![to_lower_char(p@[0])] + p@.drop_first());
                }
                r
            },
            Inflection::Snake => snake(string),
            Inflection::Pascal => pascal(string),
            Inflection::ScreamingSnake => {
                let t = snake(string);
                map_chars(t.as_str(), true)
            },
            Inflection::Kebab => {
                let t = snake(string);
                map_dashes(t.as_str())
            },
            Inflection::ScreamingKebab => {
                let t = snake(string);
                let d = map_dashes(t.as_str());
                map_chars(d.as_str(), true)
            },
        }
    }
}

/// No character of the string is an ASCII uppercase letter.
pub open spec fn no_upper(s: Seq<char>) -> bool {
    forall|i: int| 0 <= i < s.len() ==> !is_ascii_upper(#[trigger] s[i])
}

/// No character of the string is an underscore.
pub open spec fn no_underscore(s: Seq<char>) -> bool {
    forall|i: int| 0 <= i < s.len() ==> (#[trigger] s[i]) != '_'
}

/// Lowering an uppercase letter gives the matching lowercase letter, and
/// raising it back restores the original.
proof fn lemma_case_pair(c: char)
    requires
        is_ascii_upper(c),
    ensures
        to_lower_char(c) as u32 == c as u32 + 32,
        is_ascii_lower(to_lower_char(c)),
        !is_ascii_upper(to_lower_char(c)),
        to_upper_char(to_lower_char(c)) == c,
{
}

/// Case mapping in either direction is idempotent on single characters.
proof fn lemma_case_idempotent(c: char)
    ensures
        to_lower_char(to_lower_char(c)) == to_lower_char(c),
        to_upper_char(to_upper_char(c)) == to_upper_char(c),
        to_upper_char(to_lower_char(c)) == to_upper_char(c),
{
}

/// Snake case leaves a string without uppercase letters unchanged.
proof fn lemma_snake_tail_fixed(u: Seq<char>)
    requires
        no_upper(u),
    ensures
        snake_tail(u) == u,
    decreases u.len(),
{
    if u.len() > 0 {
        lemma_snake_tail_fixed(u.drop_first());
        assert(to_lower_char(u[0]) == u[0]);
        assert(seq![u[0]] + u.drop_first() =~= u);
    }
}

/// Snake case output contains no uppercase letters.
proof fn lemma_snake_tail_no_upper(u: Seq<char>)
    ensures
        no_upper(snake_tail(u)),
    decreases u.len(),
{
    if u.len() > 0 {
        lemma_snake_tail_no_upper(u.drop_first());
        if is_ascii_upper(u[0]) {
            lemma_case_pair(u[0]);
        }
        assert(!is_ascii_upper('_')) by {
            assert('_' as u32 == 95);
        }
    }
}

/// Pascal case output contains no underscores.
proof fn lemma_pascal_rec_no_underscore(s: Seq<char>, cap: bool)
    ensures
        no_underscore(pascal_rec(s, cap)),
    decreases s.len(),
{
    if s.len() > 0 {
        if s[0] == '_' {
            lemma_pascal_rec_no_underscore(s.drop_first(), true);
        } else {
            lemma_pascal_rec_no_underscore(s.drop_first(), false);
            assert(to_upper_char(s[0]) != '_');
        }
    }
}

/// The first character of pascal case output is never a lowercase letter.
proof fn lemma_pascal_first_not_lower(s: Seq<char>)
    ensures
        pascal_rec(s, true).len() > 0 ==> !is_ascii_lower(pascal_rec(s, true)[0]),
    decreases s.len(),
{
    if s.len() > 0 {
        if s[0] == '_' {
            lemma_pascal_first_not_lower(s.drop_first());
        } else {
            assert(!is_ascii_lower(to_upper_char(s[0])));
        }
    }
}

/// Without underscores and without a segment start, pascal case is the
/// identity.
proof fn lemma_pascal_rec_fixed(u: Seq<char>)
    requires
        no_underscore(u),
    ensures
        pascal_rec(u, false) == u,
    decreases u.len(),
{
    if u.len() > 0 {
        lemma_pascal_rec_fixed(u.drop_first());
        assert(seq![u[0]] + u.drop_first() =~= u);
    }
}

/// Pascal case undoes the snake-case expansion of a string without
/// underscores, character by character past the first.
proof fn lemma_pascal_unsnake_tail(u: Seq<char>)
    requires
        no_underscore(u),
    ensures
        pascal_rec(snake_tail(u), false) == u,
    decreases u.len(),
{
    if u.len() == 0 {
    } else {
        let c = u[0];
        let rest = snake_tail(u.drop_first());
        lemma_pascal_unsnake_tail(u.drop_first());
        if is_ascii_upper(c) {
            lemma_case_pair(c);
            let lc = to_lower_char(c);
            let t = seq!['_', lc] + rest;
            assert(snake_tail(u) == t);
            assert(t[0] == '_');
            assert(t.drop_first() =~= seq![lc] + rest);
            assert(pascal_rec(t, false) == pascal_rec(seq![lc] + rest, true));
            assert((seq![lc] + rest)[0] == lc);
            assert(lc != '_');
            assert((seq![lc] + rest).drop_first() =~= rest);
            assert(pascal_rec(seq![lc] + rest, true) == seq![to_upper_char(lc)] + pascal_rec(
                rest,
                false,
            ));
            assert(seq![c] + u.drop_first() =~= u);
        } else {
            let t = seq![to_lower_char(c)] + rest;
            assert(snake_tail(u) == t);
            assert(to_lower_char(c) == c);
            assert(t[0] == c);
            assert(c != '_');
            assert(t.drop_first() =~= rest);
            assert(pascal_rec(t, false) == seq![c] + pascal_rec(rest, false));
            assert(seq![c] + u.drop_first() =~= u);
        }
    }
}

/// LAW: pascal case after snake case restores any string that has no
/// underscores and does not begin with a lowercase letter — converting a
/// pascal-case name to snake case and back reconstructs it exactly.
pub proof fn lemma_pascal_snake_roundtrip(t: Seq<char>)
    requires
        no_underscore(t),
        t.len() > 0 ==> !is_ascii_lower(t[0]),
    ensures
        pascal_seq(snake_seq(t)) == t,
{
    if t.len() == 0 {
        assert(snake_seq(t) == Seq::<char>::empty());
    } else {
        let c = t[0];
        let st = snake_tail(t.drop_first());
        let lc = to_lower_char(c);
        let w = seq![lc] + st;
        assert(snake_seq(t) == w);
        if is_ascii_upper(c) {
            lemma_case_pair(c);
        }
        assert(lc != '_');
        assert(w[0] == lc);
        assert(w.drop_first() =~= st);
        assert(pascal_rec(w, true) == seq![to_upper_char(lc)] + pascal_rec(st, false));
        lemma_pascal_unsnake_tail(t.drop_first());
        assert(to_upper_char(lc) == c) by {
            if is_ascii_upper(c) {
                lemma_case_pair(c);
            } else {
                assert(to_lower_char(c) == c);
                assert(!is_ascii_lower(c));
            }
        }
        assert(seq![c] + t.drop_first() =~= t);
    }
}

/// LAW: applying pascal case, then snake case, then pascal case again gives
/// the same result as pascal case alone: the segmentation a pascal-case
/// conversion chooses survives a round trip through snake case.
pub proof fn lemma_pascal_snake_pascal(s: Seq<char>)
    ensures
        pascal_seq(snake_seq(pascal_seq(s))) == pascal_seq(s),
{
    lemma_pascal_rec_no_underscore(s, true);
    lemma_pascal_first_not_lower(s);
    lemma_pascal_snake_roundtrip(pascal_seq(s));
}

/// LAW: the lower, upper, snake, pascal, camel and kebab conventions are
/// idempotent: applying one of them to its own output changes nothing.
/// (The screaming conventions are not: they uppercase their output, and a
/// second pass inserts separators before the letters so raised.)
pub proof fn lemma_apply_idempotent(v: Inflection, s: Seq<char>)
    requires
        v != Inflection::ScreamingSnake,
        v != Inflection::ScreamingKebab,
    ensures
        apply_spec(v, apply_spec(v, s)) == apply_spec(v, s),
{
    match v {
        Inflection::Lower => {
            assert forall|i: int| 0 <= i < lower_seq(lower_seq(s)).len() implies lower_seq(
                lower_seq(s),
            )[i] == lower_seq(s)[i] by {
                lemma_case_idempotent(s[i]);
            }
            assert(lower_seq(lower_seq(s)) =~= lower_seq(s));
        },
        Inflection::Upper => {
            assert forall|i: int| 0 <= i < upper_seq(upper_seq(s)).len() implies upper_seq(
                upper_seq(s),
            )[i] == upper_seq(s)[i] by {
                lemma_case_idempotent(s[i]);
            }
            assert(upper_seq(upper_seq(s)) =~= upper_seq(s));
        },
        Inflection::Snake => {
            lemma_snake_idempotent(s);
        },
        Inflection::Pascal => {
            lemma_pascal_idempotent(s);
        },
        Inflection::Camel => {
            lemma_camel_idempotent(s);
        },
        Inflection::Kebab => {
            lemma_kebab_idempotent(s);
        },
        _ => {
        },
    }
}

/// Snake case applied to its own output changes nothing.
proof fn lemma_snake_idempotent(s: Seq<char>)
    ensures
        snake_seq(snake_seq(s)) == snake_seq(s),
{
    if s.len() > 0 {
        let t = snake_seq(s);
        lemma_snake_tail_no_upper(s.drop_first());
        if is_ascii_upper(s[0]) {
            lemma_case_pair(s[0]);
        }
        assert(no_upper(t)) by {
            assert(t[0] == to_lower_char(s[0]));
            assert(!is_ascii_upper(to_lower_char(s[0])));
            assert(forall|i: int|
                1 <= i < t.len() ==> t[i] == snake_tail(s.drop_first())[i - 1]);
        }
        assert(t.len() > 0);
        assert(to_lower_char(t[0]) == t[0]);
        lemma_snake_tail_fixed(t.drop_first());
        assert(snake_seq(t) == seq![t[0]] + t.drop_first());
        assert(seq![t[0]] + t.drop_first() =~= t);
    }
}

/// Pascal case applied to its own output changes nothing.
proof fn lemma_pascal_idempotent(s: Seq<char>)
    ensures
        pascal_seq(pascal_seq(s)) == pascal_seq(s),
{
    let t = pascal_seq(s);
    lemma_pascal_rec_no_underscore(s, true);
    lemma_pascal_first_not_lower(s);
    if t.len() > 0 {
        assert(t[0] != '_');
        lemma_pascal_rec_fixed(t.drop_first());
        assert(to_upper_char(t[0]) == t[0]) by {
            assert(!is_ascii_lower(t[0]));
        }
        assert(pascal_rec(t, true) == seq![t[0]] + t.drop_first());
        assert(seq![t[0]] + t.drop_first() =~= t);
    }
}

/// Camel case applied to its own output changes nothing.
proof fn lemma_camel_idempotent(s: Seq<char>)
    ensures
        camel_seq(camel_seq(s)) == camel_seq(s),
{
    let p = pascal_seq(s);
    lemma_pascal_rec_no_underscore(s, true);
    lemma_pascal_first_not_lower(s);
    if p.len() == 0 {
        assert(camel_seq(s) == Seq::<char>::empty());
        assert(pascal_seq(Seq::<char>::empty()) == Seq::<char>::empty());
    } else {
        let t = camel_seq(s);
        let lc = to_lower_char(p[0]);
        assert(t == seq![lc] + p.drop_first());
        assert(t[0] == lc);
        assert(lc != '_') by {
            if is_ascii_upper(p[0]) {
                lemma_case_pair(p[0]);
            }
        }
        assert(no_underscore(t.drop_first())) by {
            assert(t.drop_first() =~= p.drop_first());
            assert(forall|i: int| 0 <= i < p.drop_first().len() ==> p.drop_first()[i] == p[i + 1]);
        }
        lemma_pascal_rec_fixed(t.drop_first());
        assert(pascal_rec(t, true) == seq![to_upper_char(lc)] + pascal_rec(t.drop_first(), false));
        assert(to_upper_char(lc) == p[0]) by {
            if is_ascii_upper(p[0]) {
                lemma_case_pair(p[0]);
            } else {
                assert(to_lower_char(p[0]) == p[0]);
                assert(!is_ascii_lower(p[0]));
            }
        }
        assert(t.drop_first() =~= p.drop_first());
        assert(pascal_seq(t) =~= p);
        assert(camel_seq(t) == seq![to_lower_char(p[0])] + p.drop_first());
    }
}

/// Kebab case applied to its own output changes nothing.
proof fn lemma_kebab_idempotent(s: Seq<char>)
    ensures
        kebab_seq(kebab_seq(s)) == kebab_seq(s),
{
    let t = kebab_seq(s);
    let u = snake_seq(s);
    assert(no_upper(u)) by {
        if s.len() > 0 {
            lemma_snake_tail_no_upper(s.drop_first());
            if is_ascii_upper(s[0]) {
                lemma_case_pair(s[0]);
            }
            assert(u[0] == to_lower_char(s[0]));
            assert(forall|i: int|
                1 <= i < u.len() ==> u[i] == snake_tail(s.drop_first())[i - 1]);
        }
    }
    assert(no_upper(t)) by {
        assert(forall|i: int| 0 <= i < t.len() ==> t[i] == (if u[i] == '_' {
            '-'
        } else {
            u[i]
        }));
        assert(!is_ascii_upper('-')) by {
            assert('-' as u32 == 45);
        }
    }
    assert(no_underscore(t)) by {
        assert('-' != '_');
        assert(forall|i: int| 0 <= i < t.len() ==> t[i] == (if u[i] == '_' {
            '-'
        } else {
            u[i]
        }));
    }
    assert(snake_seq(t) == t) by {
        if t.len() > 0 {
            lemma_snake_tail_fixed(t.drop_first());
            assert(to_lower_char(t[0]) == t[0]);
            assert(seq![t[0]] + t.drop_first() =~= t);
        }
    }
    assert(dash_seq(t) =~= t);
}

} // verus!
