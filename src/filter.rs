//! Search filters built from a template by substituting a placeholder.

use vstd::prelude::*;
use vstd::string::StrSliceExecFns;
use vstd::string::StringExecFns;
use crate::text::str_eq;

verus! {

/// Whether `p` occurs in `t` at index `i`.
pub open spec fn occurs_at(t: Seq<char>, p: Seq<char>, i: int) -> bool {
    0 <= i && i + p.len() <= t.len() && t.subrange(i, i + p.len()) == p
}

/// `t` with each occurrence of `p`, found from left to right and not
/// overlapping, replaced by `v`. An empty `p` leaves `t` as it is.
pub open spec fn replace_all(t: Seq<char>, p: Seq<char>, v: Seq<char>) -> Seq<char>
    decreases t.len(),
{
    if p.len() == 0 || t.len() < p.len() {
        t
    } else if t.subrange(0, p.len() as int) == p {
        v + replace_all(t.subrange(p.len() as int, t.len() as int), p, v)
    } else {
        seq![t[0]] + replace_all(t.drop_first(), p, v)
    }
}

/// The characters that a search filter gives a meaning of their own.
pub open spec fn is_filter_special(c: char) -> bool {
    c == '\\' || c == '*' || c == '(' || c == ')' || c == '\0'
}

/// How one character stands in an assertion value of a search filter: a
/// special character as `\` and its code in two lower-case hex digits.
pub open spec fn escape_char(c: char) -> Seq<char> {
    if c == '\\' {
        seq!['\\', '5', 'c']
    } else if c == '*' {
        seq!['\\', '2', 'a']
    } else if c == '(' {
        seq!['\\', '2', '8']
    } else if c == ')' {
        seq!['\\', '2', '9']
    } else if c == '\0' {
        seq!['\\', '0', '0']
    } else {
        seq![c]
    }
}

/// `s` with every character escaped for a search filter.
pub open spec fn escaped(s: Seq<char>) -> Seq<char>
    decreases s.len(),
{
    if s.len() == 0 {
        Seq::empty()
    } else {
        escape_char(s[0]) + escaped(s.drop_first())
    }
}

/// Whether `c` is a lower-case hex digit.
pub open spec fn is_hex_digit(c: char) -> bool {
    ('0' <= c && c <= '9') || ('a' <= c && c <= 'f')
}

/// The value of a lower-case hex digit.
pub open spec fn hex_value(c: char) -> int {
    if '0' <= c && c <= '9' {
        c as int - '0' as int
    } else {
        c as int - 'a' as int + 10
    }
}

/// The code points that an escaped assertion value stands for: `\` with two
/// hex digits is the code they spell, any other character is itself.
pub open spec fn unescaped(s: Seq<char>) -> Seq<u32>
    decreases s.len(),
{
    if s.len() == 0 {
        Seq::empty()
    } else if s[0] == '\\' && s.len() >= 3 {
        seq![(hex_value(s[1]) * 16 + hex_value(s[2])) as u32] + unescaped(
            s.subrange(3, s.len() as int),
        )
    } else {
        seq![s[0] as u32] + unescaped(s.drop_first())
    }
}

/// Relies on ldap3::ldap_escape: each of `\`, `*`, `(`, `)` and NUL is
/// replaced by `\` and the two lower-case hex digits of its byte, and every
/// other character is kept.
#[verifier::external_body]
fn escape_value(value: &str) -> (r: String)
    ensures
        r@ == escaped(value@),
{
    ldap3::ldap_escape(value).into_owned()
}

/// Replaces each occurrence of `placeholder` in `template` by `text`, as it
/// stands.
pub fn substitute(template: &str, placeholder: &str, text: &str) -> (r: String)
    ensures
        r@ == replace_all(template@, placeholder@, text@),
{
    let n = template.unicode_len();
    let m = placeholder.unicode_len();
    let mut out = String::new();
    if m == 0 {
        out.append(template);
        return out;
    }
    let mut i: usize = 0;
    assert(template@.subrange(0, n as int) == template@);
    while i < n
        invariant
            n == template@.len(),
            m == placeholder@.len(),
            m > 0,
            i <= n,
            out@ + replace_all(template@.subrange(i as int, n as int), placeholder@, text@)
                == replace_all(template@, placeholder@, text@),
        decreases n - i,
    {
        let ghost rest = template@.subrange(i as int, n as int);
        if m <= n - i && str_eq(template.substring_char(i, i + m), placeholder) {
            assert(rest.subrange(0, m as int) == template@.subrange(i as int, i + m));
            assert(rest.subrange(m as int, rest.len() as int) == template@.subrange(
                i + m,
                n as int,
            ));
            out.append(text);
            assert(out@ + replace_all(template@.subrange(i + m, n as int), placeholder@, text@)
                == replace_all(template@, placeholder@, text@));
            i = i + m;
        } else {
            if m <= n - i {
                assert(rest.subrange(0, m as int) == template@.subrange(i as int, i + m));
            }
            assert(rest.drop_first() == template@.subrange(i + 1, n as int));
            out.append(template.substring_char(i, i + 1));
            assert(template@.subrange(i as int, i + 1) == seq![rest[0]]);
            assert(out@ + replace_all(template@.subrange(i + 1, n as int), placeholder@, text@)
                == replace_all(template@, placeholder@, text@));
            i = i + 1;
        }
    }
    assert(template@.subrange(n as int, n as int).len() == 0);
    assert(out@ + Seq::empty() == out@);
    out
}

/// Renders a filter template: `value` is escaped for the filter syntax, then
/// put in place of each occurrence of `placeholder`.
pub fn render(template: &str, placeholder: &str, value: &str) -> (r: String)
    ensures
        r@ == replace_all(template@, placeholder@, escaped(value@)),
{
    let safe = escape_value(value);
    substitute(template, placeholder, safe.as_str())
}

/// A template in which the placeholder does not occur is left as it is.
pub proof fn lemma_substitute_without_placeholder(t: Seq<char>, p: Seq<char>, v: Seq<char>)
    requires
        forall|i: int| !occurs_at(t, p, i),
    ensures
        replace_all(t, p, v) == t,
    decreases t.len(),
{
    if p.len() > 0 && t.len() >= p.len() {
        assert(!occurs_at(t, p, 0));
        let u = t.drop_first();
        assert forall|i: int| !occurs_at(u, p, i) by {
            if occurs_at(u, p, i) {
                assert(u.subrange(i, i + p.len()) == t.subrange(i + 1, i + 1 + p.len()));
                assert(occurs_at(t, p, i + 1));
            }
        }
        lemma_substitute_without_placeholder(u, p, v);
        assert(seq![t[0]] + u == t);
    }
}

/// At the first occurrence of the placeholder its replacement stands, the
/// text before it is kept, and the rest is rendered in turn.
pub proof fn lemma_substitute_first_occurrence(
    a: Seq<char>,
    p: Seq<char>,
    b: Seq<char>,
    v: Seq<char>,
)
    requires
        p.len() > 0,
        forall|i: int| 0 <= i < a.len() ==> !occurs_at(a + p + b, p, i),
    ensures
        replace_all(a + p + b, p, v) == a + v + replace_all(b, p, v),
    decreases a.len(),
{
    let t = a + p + b;
    if a.len() == 0 {
        assert(t.subrange(0, p.len() as int) == p);
        assert(t.subrange(p.len() as int, t.len() as int) == b);
        assert(a + v == v);
    } else {
        assert(!occurs_at(t, p, 0));
        let a2 = a.drop_first();
        assert(t.drop_first() == a2 + p + b);
        assert forall|i: int| 0 <= i < a2.len() implies !occurs_at(a2 + p + b, p, i) by {
            if occurs_at(a2 + p + b, p, i) {
                assert((a2 + p + b).subrange(i, i + p.len()) == t.subrange(
                    i + 1,
                    i + 1 + p.len(),
                ));
                assert(occurs_at(t, p, i + 1));
            }
        }
        lemma_substitute_first_occurrence(a2, p, b, v);
        assert(seq![a[0]] + (a2 + v + replace_all(b, p, v)) == a + v + replace_all(b, p, v));
    }
}

/// A value with no special character is rendered as it stands.
pub proof fn lemma_plain_value_unchanged(s: Seq<char>)
    requires
        forall|i: int| 0 <= i < s.len() ==> !is_filter_special(#[trigger] s[i]),
    ensures
        escaped(s) == s,
    decreases s.len(),
{
    if s.len() > 0 {
        assert(!is_filter_special(s[0]));
        assert forall|i: int| 0 <= i < s.drop_first().len() implies !is_filter_special(
            #[trigger] s.drop_first()[i],
        ) by {
            assert(s.drop_first()[i] == s[i + 1]);
        }
        lemma_plain_value_unchanged(s.drop_first());
        assert(seq![s[0]] + s.drop_first() == s);
    }
}

/// An escaped value holds no parenthesis, asterisk or NUL, so it cannot close
/// the component it stands in or form a wildcard; and it stands for exactly
/// the characters of the value. Every backslash in it starts an escape of
/// two hex digits.
pub proof fn lemma_escaped_is_literal(s: Seq<char>)
    ensures
        forall|i: int|
            0 <= i < escaped(s).len() && #[trigger] escaped(s)[i] == '\\' ==> i + 2 < escaped(
                s,
            ).len() && is_hex_digit(escaped(s)[i + 1]) && is_hex_digit(escaped(s)[i + 2]),
        forall|i: int|
            0 <= i < escaped(s).len() ==> {
                let c = #[trigger] escaped(s)[i];
                c != '(' && c != ')' && c != '*' && c != '\0'
            },
        unescaped(escaped(s)) == s.map_values(|c: char| c as u32),
    decreases s.len(),
{
    if s.len() > 0 {
        let rest = s.drop_first();
        lemma_escaped_is_literal(rest);
        let e = escape_char(s[0]);
        let t = e + escaped(rest);
        assert(escaped(s) == t);
        if is_filter_special(s[0]) {
            assert(t[0] == '\\' && t.len() >= 3);
            assert(t.subrange(3, t.len() as int) == escaped(rest));
            assert(unescaped(t) == seq![(hex_value(t[1]) * 16 + hex_value(t[2])) as u32]
                + unescaped(escaped(rest)));
            assert(unescaped(t) == seq![s[0] as u32] + unescaped(escaped(rest)));
        } else {
            assert(t[0] == s[0] && t[0] != '\\');
            assert(t.drop_first() == escaped(rest));
        }
        assert(s.map_values(|c: char| c as u32) == seq![s[0] as u32] + rest.map_values(
            |c: char| c as u32,
        ));
        assert forall|i: int| 0 <= i < t.len() implies {
            let c = #[trigger] t[i];
            c != '(' && c != ')' && c != '*' && c != '\0'
        } by {
            if i >= e.len() {
                assert(t[i] == escaped(rest)[i - e.len()]);
            }
        }
        assert forall|i: int|
            0 <= i < t.len() && #[trigger] t[i] == '\\' implies i + 2 < t.len() && is_hex_digit(
                t[i + 1],
            ) && is_hex_digit(t[i + 2]) by {
            if i >= e.len() {
                let j = i - e.len();
                assert(t[i] == escaped(rest)[j]);
                assert(t[i + 1] == escaped(rest)[j + 1]);
                assert(t[i + 2] == escaped(rest)[j + 2]);
            } else if is_filter_special(s[0]) {
                assert(e.len() == 3);
                assert(t[1] == e[1] && t[2] == e[2]);
            }
        }
    }
}

/// Whether `c` gives a filter its structure: it opens or closes a
/// component, or makes a substring or presence match.
pub open spec fn is_structural(c: char) -> bool {
    c == '(' || c == ')' || c == '*'
}

/// The structural characters of `s`, in order.
pub open spec fn skeleton(s: Seq<char>) -> Seq<char>
    decreases s.len(),
{
    if s.len() == 0 {
        Seq::empty()
    } else if is_structural(s[0]) {
        seq![s[0]] + skeleton(s.drop_first())
    } else {
        skeleton(s.drop_first())
    }
}

proof fn lemma_skeleton_concat(a: Seq<char>, b: Seq<char>)
    ensures
        skeleton(a + b) == skeleton(a) + skeleton(b),
    decreases a.len(),
{
    if a.len() == 0 {
        assert(a + b == b);
        assert(Seq::<char>::empty() + skeleton(b) == skeleton(b));
    } else {
        lemma_skeleton_concat(a.drop_first(), b);
        assert((a + b).drop_first() == a.drop_first() + b);
        assert((a + b)[0] == a[0]);
        if is_structural(a[0]) {
            assert(seq![a[0]] + (skeleton(a.drop_first()) + skeleton(b)) == (seq![a[0]]
                + skeleton(a.drop_first())) + skeleton(b));
        }
    }
}

proof fn lemma_skeleton_of_escaped(v: Seq<char>)
    ensures
        skeleton(escaped(v)) == Seq::<char>::empty(),
    decreases v.len(),
{
    if v.len() > 0 {
        lemma_skeleton_of_escaped(v.drop_first());
        let e = escape_char(v[0]);
        lemma_skeleton_concat(e, escaped(v.drop_first()));
        reveal_with_fuel(skeleton, 4);
        if is_filter_special(v[0]) {
            assert(e.len() == 3 && !is_structural(e[0]) && !is_structural(e[1]) && !is_structural(
                e[2],
            ));
            assert(e.drop_first().drop_first().drop_first().len() == 0);
        } else {
            assert(e.len() == 1 && !is_structural(e[0]));
            assert(e.drop_first().len() == 0);
        }
        assert(skeleton(e) == Seq::<char>::empty());
        assert(Seq::<char>::empty() + Seq::<char>::empty() == Seq::<char>::empty());
    }
}

/// The parentheses and asterisks of a rendered filter are exactly those of
/// its template with each placeholder taken out, whatever the value: a value
/// can neither open nor close a component, nor turn an equality match into
/// a substring or presence match.
pub proof fn lemma_render_keeps_structure(t: Seq<char>, p: Seq<char>, v: Seq<char>)
    ensures
        skeleton(replace_all(t, p, escaped(v))) == skeleton(replace_all(t, p, Seq::empty())),
    decreases t.len(),
{
    if p.len() == 0 || t.len() < p.len() {
    } else if t.subrange(0, p.len() as int) == p {
        let rest = t.subrange(p.len() as int, t.len() as int);
        lemma_render_keeps_structure(rest, p, v);
        lemma_skeleton_concat(escaped(v), replace_all(rest, p, escaped(v)));
        lemma_skeleton_concat(Seq::empty(), replace_all(rest, p, Seq::empty()));
        lemma_skeleton_of_escaped(v);
        assert(Seq::<char>::empty() + skeleton(replace_all(rest, p, escaped(v))) == skeleton(
            replace_all(rest, p, escaped(v)),
        ));
        assert(Seq::<char>::empty() + skeleton(replace_all(rest, p, Seq::empty())) == skeleton(
            replace_all(rest, p, Seq::empty()),
        ));
    } else {
        let rest = t.drop_first();
        lemma_render_keeps_structure(rest, p, v);
        lemma_skeleton_concat(seq![t[0]], replace_all(rest, p, escaped(v)));
        lemma_skeleton_concat(seq![t[0]], replace_all(rest, p, Seq::empty()));
    }
}

} // verus!
