//! Placeholder tokens `{{...}}`: scanning a template body and validating the
//! token list.
use vstd::prelude::*;
use crate::error::DocxError;
use crate::substitution::texts;
use crate::text::str_equal;

verus! {

/// The pattern of a token: `{{`, the fewest characters other than a newline,
/// `}}`.
pub const TOKEN_PATTERN: &'static str = "\\{\\{.*?\\}\\}";

/// A `}}` starts at `q` after the opening `{{` of `s`, with no newline between.
pub open spec fn closes_at(s: Seq<char>, q: int) -> bool {
    &&& 2 <= q
    &&& q + 2 <= s.len()
    &&& s[q] == '}'
    &&& s[q + 1] == '}'
    &&& forall|k: int| 2 <= k < q ==> s[k] != '\n'
}

/// A token starts at the first character of `s`.
pub open spec fn opens_span(s: Seq<char>) -> bool {
    s.len() >= 4 && s[0] == '{' && s[1] == '{' && exists|q: int| closes_at(s, q)
}

/// The nearest closing position of the token that starts `s`.
pub open spec fn span_end(s: Seq<char>) -> int {
    choose|q: int| closes_at(s, q) && forall|q2: int| #[trigger] closes_at(s, q2) ==> q <= q2
}

/// The tokens of a text in order: the leftmost, shortest `{{...}}` spans
/// without a newline inside, none overlapping.
pub open spec fn brace_spans(s: Seq<char>) -> Seq<Seq<char>>
    decreases s.len(),
{
    if s.len() == 0 {
        seq![]
    } else if opens_span(s) && 0 < span_end(s) + 2 <= s.len() {
        seq![s.take(span_end(s) + 2)] + brace_spans(s.skip(span_end(s) + 2))
    } else {
        brace_spans(s.drop_first())
    }
}

/// The distinct elements of a sequence in order of first appearance.
pub open spec fn first_seen(s: Seq<Seq<char>>) -> Seq<Seq<char>>
    decreases s.len(),
{
    if s.len() == 0 {
        seq![]
    } else {
        let d = first_seen(s.drop_last());
        if d.contains(s.last()) { d } else { d.push(s.last()) }
    }
}

/// A token is `{{`, a non-empty name without braces, `}}`.
pub open spec fn well_formed_token(t: Seq<char>) -> bool {
    &&& t.len() >= 5
    &&& t[0] == '{' && t[1] == '{'
    &&& t[t.len() - 2] == '}' && t[t.len() - 1] == '}'
    &&& forall|k: int| 2 <= k < t.len() - 2 ==> t[k] != '{' && t[k] != '}'
}

/// A token list is accepted when it is not empty and each token is well formed.
pub open spec fn tokens_valid(tokens: Seq<Seq<char>>) -> bool {
    tokens.len() > 0 && forall|i: int| 0 <= i < tokens.len() ==> well_formed_token(#[trigger] tokens[i])
}

/// Relies on `regex::Regex::new` and `Regex::find_iter`: for the token pattern,
/// the matched texts in order are the leftmost-first, non-overlapping,
/// shortest `{{...}}` spans (`.` does not match a newline). The token pattern
/// is valid syntax, so it compiles.
#[verifier::external_body]
fn regex_find_all(pattern: &str, text: &str) -> (r: Result<Vec<String>, String>)
    ensures
        pattern@ == TOKEN_PATTERN@ ==> r is Ok,
        pattern@ == TOKEN_PATTERN@ ==> (r matches Ok(v) ==> texts(v@) == brace_spans(text@)),
{
    let re = regex::Regex::new(pattern).map_err(|e| e.to_string())?;
    Ok(re.find_iter(text).map(|m| m.as_str().to_string()).collect())
}

/// Whether a list holds a text.
pub fn contains_text(v: &Vec<String>, x: &String) -> (r: bool)
    ensures
        r == texts(v@).contains(x@),
{
    let mut i: usize = 0;
    while i < v.len()
        invariant
            i <= v.len(),
            forall|k: int| 0 <= k < i ==> v@[k]@ != x@,
        decreases v.len() - i,
    {
        if str_equal(v[i].as_str(), x.as_str()) {
            assert(texts(v@)[i as int] == x@);
            return true;
        }
        i = i + 1;
    }
    proof {
        if texts(v@).contains(x@) {
            let k = choose|k: int| 0 <= k < texts(v@).len() && texts(v@)[k] == x@;
            assert(v@[k]@ == x@);
        }
    }
    false
}

/// Keeps the first appearance of each text, in order.
pub fn dedup_tokens(matches: Vec<String>) -> (r: Vec<String>)
    ensures
        texts(r@) == first_seen(texts(matches@)),
{
    let mut out: Vec<String> = Vec::new();
    let mut i: usize = 0;
    while i < matches.len()
        invariant
            i <= matches.len(),
            texts(out@) == first_seen(texts(matches@).take(i as int)),
        decreases matches.len() - i,
    {
        let ghost pre = texts(matches@).take(i + 1);
        assert(pre.drop_last() =~= texts(matches@).take(i as int));
        assert(pre.last() == matches@[i as int]@);
        if !contains_text(&out, &matches[i]) {
            out.push(matches[i].clone());
            assert(texts(out@) =~= first_seen(pre));
        }
        i = i + 1;
    }
    assert(texts(matches@).take(i as int) =~= texts(matches@));
    out
}

fn token_well_formed(t: &String) -> (r: bool)
    ensures
        r == well_formed_token(t@),
{
    let c = crate::text::chars_of(t.as_str());
    let n = c.len();
    if n < 5 || c[0] != '{' || c[1] != '{' || c[n - 2] != '}' || c[n - 1] != '}' {
        return false;
    }
    let mut k: usize = 2;
    while k < n - 2
        invariant
            c@ == t@,
            n == c@.len(),
            n >= 5,
            2 <= k <= n - 2,
            forall|j: int| 2 <= j < k ==> c@[j] != '{' && c@[j] != '}',
        decreases n - 2 - k,
    {
        if c[k] == '{' || c[k] == '}' {
            return false;
        }
        k = k + 1;
    }
    true
}

/// Checks a template's token list: `Ok` exactly when it is not empty and every
/// token is well formed, otherwise a processing error.
pub fn validate_tokens(tokens: &Vec<String>) -> (r: Result<(), DocxError>)
    ensures
        r is Ok <==> tokens_valid(texts(tokens@)),
        r matches Err(e) ==> e is Processing,
{
    if tokens.len() == 0 {
        return Err(DocxError::Processing(String::from_str("the template holds no token")));
    }
    let mut i: usize = 0;
    while i < tokens.len()
        invariant
            i <= tokens.len(),
            forall|k: int| 0 <= k < i ==> well_formed_token(#[trigger] texts(tokens@)[k]),
        decreases tokens.len() - i,
    {
        if !token_well_formed(&tokens[i]) {
            assert(!well_formed_token(texts(tokens@)[i as int]));
            return Err(DocxError::Processing(String::from_str("the template holds a malformed token")));
        }
        i = i + 1;
    }
    Ok(())
}

/// The token list of a body from the matches of the token pattern in it:
/// distinct matches in order of first appearance, then validated.
pub fn tokens_from_matches(matches: Vec<String>) -> (r: Result<Vec<String>, DocxError>)
    ensures
        match r {
            Ok(t) => texts(t@) == first_seen(texts(matches@))
                && tokens_valid(first_seen(texts(matches@))),
            Err(e) => e is Processing && !tokens_valid(first_seen(texts(matches@))),
        },
{
    let tokens = dedup_tokens(matches);
    match validate_tokens(&tokens) {
        Ok(()) => Ok(tokens),
        Err(e) => Err(e),
    }
}

/// Scans a body for its tokens: distinct `{{...}}` spans in order of first
/// appearance, validated.
pub fn scan_tokens(document: &str) -> (r: Result<Vec<String>, DocxError>)
    ensures
        r is Ok <==> tokens_valid(first_seen(brace_spans(document@))),
        match r {
            Ok(t) => texts(t@) == first_seen(brace_spans(document@))
                && tokens_valid(first_seen(brace_spans(document@))),
            Err(e) => e is Processing,
        },
{
    match regex_find_all(TOKEN_PATTERN, document) {
        Ok(matches) => tokens_from_matches(matches),
        Err(msg) => Err(DocxError::Processing(msg)),
    }
}

proof fn lemma_first_seen_two(s: Seq<Seq<char>>, a: Seq<char>, b: Seq<char>)
    requires
        a != b,
        s.len() > 0,
        s[0] == a,
        forall|i: int| 0 <= i < s.len() ==> #[trigger] s[i] == a || s[i] == b,
    ensures
        first_seen(s) == (if s.contains(b) { seq![a, b] } else { seq![a] }),
    decreases s.len(),
{
    if s.len() == 1 {
        assert(s.drop_last() =~= Seq::<Seq<char>>::empty());
        assert(first_seen(s.drop_last()) =~= Seq::<Seq<char>>::empty());
        assert(first_seen(s) =~= seq![a]);
        if s.contains(b) {
            let k = choose|k: int| 0 <= k < s.len() && s[k] == b;
            assert(k == 0);
        }
    } else {
        let p = s.drop_last();
        assert(p[0] == a);
        assert forall|i: int| 0 <= i < p.len() implies #[trigger] p[i] == a || p[i] == b by {
            assert(p[i] == s[i]);
        }
        lemma_first_seen_two(p, a, b);
        let x = s.last();
        assert(x == s[s.len() - 1]);
        if p.contains(b) {
            let k = choose|k: int| 0 <= k < p.len() && p[k] == b;
            assert(s[k] == b);
        }
        if s.contains(b) && !p.contains(b) {
            let k = choose|k: int| 0 <= k < s.len() && s[k] == b;
            if k < p.len() {
                assert(p[k] == b);
            }
            assert(x == b);
        }
        if x == b {
            assert(s.contains(b)) by {
                assert(s[s.len() - 1] == b);
            }
        }
        let d = first_seen(p);
        assert(seq![a].contains(a)) by {
            assert(seq![a][0] == a);
        }
        assert(seq![a, b].contains(a)) by {
            assert(seq![a, b][0] == a);
        }
        assert(seq![a, b].contains(b)) by {
            assert(seq![a, b][1] == b);
        }
        if x == b && !p.contains(b) {
            assert(!seq![a].contains(b)) by {
                if seq![a].contains(b) {
                    let k = choose|k: int| 0 <= k < 1 && seq![a][k] == b;
                    assert(seq![a][k] == a);
                }
            }
            assert(d.push(x) =~= seq![a, b]);
        }
    }
}

/// Two distinct tokens, the first appearing first, repeated any number of
/// times and with no other token in the body, give exactly those two tokens
/// in that order; where both are well formed, that list passes validation.
pub proof fn lemma_two_tokens_first_seen(body: Seq<char>, a: Seq<char>, b: Seq<char>)
    requires
        a != b,
        brace_spans(body).len() > 0,
        brace_spans(body)[0] == a,
        brace_spans(body).contains(b),
        forall|i: int| 0 <= i < brace_spans(body).len() ==> #[trigger] brace_spans(body)[i] == a
            || brace_spans(body)[i] == b,
    ensures
        first_seen(brace_spans(body)) == seq![a, b],
        well_formed_token(a) && well_formed_token(b) ==> tokens_valid(first_seen(brace_spans(body))),
{
    lemma_first_seen_two(brace_spans(body), a, b);
    if well_formed_token(a) && well_formed_token(b) {
        let l = seq![a, b];
        assert forall|i: int| 0 <= i < l.len() implies well_formed_token(#[trigger] l[i]) by {
            if i == 0 { assert(l[i] == a); } else { assert(l[i] == b); }
        }
    }
}

/// Keeping first appearances leaves no repeated entry and loses no entry:
/// the result holds each distinct element of the sequence exactly once.
pub proof fn lemma_first_seen_distinct(s: Seq<Seq<char>>)
    ensures
        forall|i: int, j: int|
            0 <= i < j < first_seen(s).len() ==> #[trigger] first_seen(s)[i] != #[trigger] first_seen(s)[j],
        forall|x: Seq<char>| #[trigger] first_seen(s).contains(x) <==> s.contains(x),
    decreases s.len(),
{
    if s.len() > 0 {
        let p = s.drop_last();
        lemma_first_seen_distinct(p);
        let d = first_seen(p);
        let x = s.last();
        assert forall|y: Seq<char>| #[trigger] first_seen(s).contains(y) <==> s.contains(y) by {
            if s.contains(y) && y != x {
                let k = choose|k: int| 0 <= k < s.len() && s[k] == y;
                assert(k < p.len());
                assert(p[k] == y);
            }
            if p.contains(y) {
                let k = choose|k: int| 0 <= k < p.len() && p[k] == y;
                assert(s[k] == y);
            }
            if y == x {
                assert(s[s.len() - 1] == y);
                if !d.contains(x) {
                    assert(d.push(x)[d.len() as int] == x);
                }
            }
            if first_seen(s).contains(y) && !d.contains(y) {
                let k = choose|k: int| 0 <= k < first_seen(s).len() && first_seen(s)[k] == y;
                if k < d.len() {
                    assert(d.push(x)[k] == d[k]);
                }
            }
            if d.contains(y) && !d.contains(x) {
                let k = choose|k: int| 0 <= k < d.len() && d[k] == y;
                assert(d.push(x)[k] == y);
            }
        }
        if !d.contains(x) {
            assert forall|i: int, j: int|
                0 <= i < j < first_seen(s).len() implies #[trigger] first_seen(s)[i] != #[trigger] first_seen(s)[j] by {
                if j == d.len() {
                    assert(first_seen(s)[i] == d[i]);
                }
            }
        }
    }
}

} // verus!
