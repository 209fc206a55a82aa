//! Literal replacement of placeholder tokens by values.
use vstd::prelude::*;
use crate::text::{chars_of, string_of};

verus! {

/// The text with every non-overlapping occurrence of `pat`, found from the
/// left, replaced by `rep`; an empty pattern matches before every character
/// and at the end.
pub open spec fn replace_all(s: Seq<char>, pat: Seq<char>, rep: Seq<char>) -> Seq<char>
    decreases s.len(),
{
    if pat.len() == 0 {
        if s.len() == 0 {
            rep
        } else {
            rep + seq![s[0]] + replace_all(s.drop_first(), pat, rep)
        }
    } else if s.len() < pat.len() {
        s
    } else if s.take(pat.len() as int) == pat {
        rep + replace_all(s.skip(pat.len() as int), pat, rep)
    } else {
        seq![s[0]] + replace_all(s.drop_first(), pat, rep)
    }
}

/// The texts of a list of strings.
pub open spec fn texts(v: Seq<String>) -> Seq<Seq<char>> {
    v.map_values(|s: String| s@)
}

/// The text after replacing, for each token in order, every occurrence of it
/// in the text as it stands at that point by the value at the same position.
pub open spec fn substituted(text: Seq<char>, tokens: Seq<Seq<char>>, values: Seq<Seq<char>>) -> Seq<char>
    decreases tokens.len(),
{
    if tokens.len() == 0 {
        text
    } else {
        replace_all(
            substituted(text, tokens.drop_last(), values.drop_last()),
            tokens.last(),
            values.last(),
        )
    }
}

/// Relies on `str::replace`: all non-overlapping matches of the pattern,
/// taken from the left, are replaced.
#[verifier::external_body]
fn replace_str(s: &str, from: &str, to: &str) -> (r: String)
    ensures
        r@ == replace_all(s@, from@, to@),
{
    s.replace(from, to)
}

/// Fills the text with values: each token, in order, is replaced everywhere
/// in the text as it stands by the value at the same position.
pub fn replace_tokens(input: &str, tokens: &Vec<String>, values: &Vec<String>) -> (r: String)
    requires
        tokens.len() == values.len(),
    ensures
        r@ == substituted(input@, texts(tokens@), texts(values@)),
{
    let mut output: String = string_of(&chars_of(input));
    let mut idx: usize = 0;
    while idx < tokens.len()
        invariant
            tokens.len() == values.len(),
            idx <= tokens.len(),
            output@ == substituted(
                input@,
                texts(tokens@).take(idx as int),
                texts(values@).take(idx as int),
            ),
        decreases tokens.len() - idx,
    {
        let ghost before = output@;
        output = replace_str(output.as_str(), tokens[idx].as_str(), values[idx].as_str());
        proof {
            let tk = texts(tokens@).take(idx + 1);
            let vk = texts(values@).take(idx + 1);
            assert(tk.drop_last() =~= texts(tokens@).take(idx as int));
            assert(vk.drop_last() =~= texts(values@).take(idx as int));
        }
        idx = idx + 1;
    }
    assert(texts(tokens@).take(idx as int) =~= texts(tokens@));
    assert(texts(values@).take(idx as int) =~= texts(values@));
    output
}

/// `u` occurs in `s`.
pub open spec fn occurs_in(s: Seq<char>, u: Seq<char>) -> bool {
    exists|p: int| 0 <= p && p + u.len() <= s.len() && #[trigger] s.subrange(p, p + u.len()) == u
}

/// No character of `v` occurs in `u`.
pub open spec fn chars_disjoint(v: Seq<char>, u: Seq<char>) -> bool {
    forall|k: int| 0 <= k < v.len() ==> !u.contains(#[trigger] v[k])
}

/// Where the first `k` characters of a replacement's result hold no character
/// of the value, they are the first `k` characters of the input.
proof fn lemma_untouched_prefix(s: Seq<char>, t: Seq<char>, v: Seq<char>, k: int)
    requires
        t.len() > 0,
        v.len() > 0,
        0 <= k <= replace_all(s, t, v).len(),
        forall|q: int| 0 <= q < k ==> !v.contains(#[trigger] replace_all(s, t, v)[q]),
    ensures
        k <= s.len(),
        replace_all(s, t, v).take(k) == s.take(k),
    decreases s.len(),
{
    let r = replace_all(s, t, v);
    if k == 0 {
        assert(r.take(0) =~= s.take(0));
    } else if s.len() < t.len() {
    } else if s.take(t.len() as int) == t {
        assert(r[0] == v[0]);
        assert(v.contains(v[0]));
        assert(!v.contains(r[0]));
    } else {
        let r1 = replace_all(s.drop_first(), t, v);
        assert(r =~= seq![s[0]] + r1);
        assert forall|q: int| 0 <= q < k - 1 implies !v.contains(#[trigger] r1[q]) by {
            assert(r[q + 1] == r1[q]);
        }
        lemma_untouched_prefix(s.drop_first(), t, v, k - 1);
        assert(r.take(k) =~= seq![s[0]] + r1.take(k - 1));
        assert(s.take(k) =~= seq![s[0]] + s.drop_first().take(k - 1));
    }
}

/// An occurrence, in a replacement's result, of a text that shares no
/// character with the value was already in the input, and is not the
/// replaced pattern.
proof fn lemma_occurrence_from_input(s: Seq<char>, t: Seq<char>, v: Seq<char>, u: Seq<char>)
    requires
        t.len() > 0,
        v.len() > 0,
        u.len() > 0,
        chars_disjoint(v, u),
        occurs_in(replace_all(s, t, v), u),
    ensures
        occurs_in(s, u),
        u != t,
    decreases s.len(),
{
    let r = replace_all(s, t, v);
    let p = choose|p: int| 0 <= p && p + u.len() <= r.len() && #[trigger] r.subrange(p, p + u.len()) == u;
    if s.len() < t.len() {
        assert(r == s);
        if u == t {
            assert(r.subrange(p, p + u.len()).len() == u.len());
        }
    } else if s.take(t.len() as int) == t {
        let rest = s.skip(t.len() as int);
        let r1 = replace_all(rest, t, v);
        assert(r =~= v + r1);
        if p < v.len() {
            assert(r[p] == v[p]);
            assert(u[0] == r.subrange(p, p + u.len())[0]);
            assert(u.contains(u[0]));
        } else {
            let p_rest = p - v.len();
            assert(r1.subrange(p_rest, p_rest + u.len()) =~= r.subrange(p, p + u.len()));
            lemma_occurrence_from_input(rest, t, v, u);
            let q = choose|q: int| 0 <= q && q + u.len() <= rest.len() && #[trigger] rest.subrange(q, q + u.len()) == u;
            assert(s.subrange(q + t.len(), q + t.len() + u.len()) =~= rest.subrange(q, q + u.len()));
        }
    } else {
        let rest = s.drop_first();
        let r1 = replace_all(rest, t, v);
        assert(r =~= seq![s[0]] + r1);
        if p >= 1 {
            let p_rest = p - 1;
            assert(r1.subrange(p_rest, p_rest + u.len()) =~= r.subrange(p, p + u.len()));
            lemma_occurrence_from_input(rest, t, v, u);
            let q = choose|q: int| 0 <= q && q + u.len() <= rest.len() && #[trigger] rest.subrange(q, q + u.len()) == u;
            assert(s.subrange(q + 1, q + 1 + u.len()) =~= rest.subrange(q, q + u.len()));
        } else {
            assert forall|q: int| 0 <= q < u.len() implies !v.contains(#[trigger] r[q]) by {
                assert(r[q] == u[q]);
                if v.contains(r[q]) {
                    let k = choose|k: int| 0 <= k < v.len() && v[k] == r[q];
                    assert(u.contains(u[q]));
                }
            }
            lemma_untouched_prefix(s, t, v, u.len() as int);
            assert(r.take(u.len() as int) =~= r.subrange(0, u.len() as int));
            assert(s.subrange(0, u.len() as int) =~= s.take(u.len() as int));
            if u == t {
                assert(s.take(t.len() as int) =~= s.subrange(0, u.len() as int));
            }
        }
    }
}

/// After substituting, no token is left in the text, provided that every
/// token and every value is non-empty and no value shares a character with
/// any token (so that no value, alone or beside its neighbours, can bring a
/// token back).
pub proof fn lemma_no_token_left(text: Seq<char>, tokens: Seq<Seq<char>>, values: Seq<Seq<char>>)
    requires
        tokens.len() == values.len(),
        forall|i: int| 0 <= i < tokens.len() ==> (#[trigger] tokens[i]).len() > 0,
        forall|j: int| 0 <= j < values.len() ==> (#[trigger] values[j]).len() > 0,
        forall|i: int, j: int|
            0 <= i < tokens.len() && 0 <= j < values.len() ==> chars_disjoint(#[trigger] values[j], #[trigger] tokens[i]),
    ensures
        forall|i: int| 0 <= i < tokens.len() ==> !occurs_in(substituted(text, tokens, values), #[trigger] tokens[i]),
    decreases tokens.len(),
{
    if tokens.len() > 0 {
        let n = tokens.len() - 1;
        let tp = tokens.drop_last();
        let vp = values.drop_last();
        assert forall|i: int| 0 <= i < tp.len() implies (#[trigger] tp[i]).len() > 0 by {
            assert(tp[i] == tokens[i]);
        }
        assert forall|j: int| 0 <= j < vp.len() implies (#[trigger] vp[j]).len() > 0 by {
            assert(vp[j] == values[j]);
        }
        assert forall|i: int, j: int| 0 <= i < tp.len() && 0 <= j < vp.len() implies chars_disjoint(
            #[trigger] vp[j],
            #[trigger] tp[i],
        ) by {
            assert(vp[j] == values[j]);
            assert(tp[i] == tokens[i]);
        }
        lemma_no_token_left(text, tp, vp);
        let prev = substituted(text, tp, vp);
        let t = tokens.last();
        let v = values.last();
        assert(substituted(text, tokens, values) == replace_all(prev, t, v));
        assert forall|i: int| 0 <= i < tokens.len() implies !occurs_in(
            substituted(text, tokens, values),
            #[trigger] tokens[i],
        ) by {
            assert(chars_disjoint(values[n], tokens[i]));
            assert(tokens[n] == t && values[n] == v);
            if occurs_in(replace_all(prev, t, v), tokens[i]) {
                lemma_occurrence_from_input(prev, t, v, tokens[i]);
                if i < n {
                    assert(tp[i] == tokens[i]);
                }
            }
        }
    }
}

} // verus!
