//! The placeholder-substitution engine and its content-specific entry points.
use vstd::prelude::*;
use crate::json::{serialize, serialized, Value};
use crate::text::{chars_of, push_char, push_chars, string_of};

verus! {

/// `s` with every non-overlapping occurrence of `pat` replaced by `rep`,
/// scanning from the left; with an empty `pat`, `s` itself.
pub open spec fn replace_all(s: Seq<char>, pat: Seq<char>, rep: Seq<char>) -> Seq<char>
    decreases s.len(),
{
    if pat.len() == 0 || s.len() < pat.len() {
        s
    } else if s.take(pat.len() as int) == pat {
        rep + replace_all(s.skip(pat.len() as int), pat, rep)
    } else {
        seq![s[0]] + replace_all(s.skip(1), pat, rep)
    }
}

/// The placeholder token `{{name}}`.
pub open spec fn placeholder(name: Seq<char>) -> Seq<char> {
    seq!['{', '{'] + name + seq!['}', '}']
}

/// The template `t` after one pass per pair, in order: each pass replaces
/// every occurrence of the pair's placeholder in the text left by the
/// passes before it.
pub open spec fn substitute(t: Seq<char>, pairs: Seq<(Seq<char>, Seq<char>)>) -> Seq<char>
    decreases pairs.len(),
{
    if pairs.len() == 0 {
        t
    } else {
        let last = pairs.last();
        replace_all(substitute(t, pairs.drop_last()), placeholder(last.0), last.1)
    }
}

/// The name/value pairs as character sequences.
pub open spec fn pair_views(pairs: Seq<(&str, &str)>) -> Seq<(Seq<char>, Seq<char>)> {
    pairs.map_values(|p: (&str, &str)| (p.0@, p.1@))
}

/// Whether `pat` occurs in `s` at position `i`.
fn matches_at(s: &Vec<char>, i: usize, pat: &Vec<char>) -> (r: bool)
    requires
        i + pat.len() <= s.len(),
    ensures
        r == (s@.subrange(i as int, i + pat.len()) == pat@),
{
    let mut k: usize = 0;
    while k < pat.len()
        invariant
            i + pat.len() <= s.len(),
            k <= pat.len(),
            forall|j: int| 0 <= j < k ==> s@[i + j] == pat@[j],
        decreases pat.len() - k,
    {
        if s[i + k] != pat[k] {
            assert(s@.subrange(i as int, i + pat.len())[k as int] != pat@[k as int]);
            return false;
        }
        k = k + 1;
    }
    assert(s@.subrange(i as int, i + pat.len()) =~= pat@);
    true
}

proof fn lemma_replace_short(s: Seq<char>, pat: Seq<char>, rep: Seq<char>)
    requires
        s.len() < pat.len(),
    ensures
        replace_all(s, pat, rep) == s,
{
}

/// Replaces every occurrence of a non-empty `pat` in `s` by `rep`.
fn replace_chars(s: &Vec<char>, pat: &Vec<char>, rep: &Vec<char>) -> (r: String)
    requires
        pat.len() > 0,
    ensures
        r@ == replace_all(s@, pat@, rep@),
{
    let mut out = String::new();
    let mut i: usize = 0;
    assert(s@.skip(0) =~= s@);
    while i < s.len()
        invariant
            pat.len() > 0,
            i <= s.len(),
            out@ + replace_all(s@.skip(i as int), pat@, rep@) == replace_all(s@, pat@, rep@),
        decreases s.len() - i,
    {
        let ghost rest = s@.skip(i as int);
        if pat.len() <= s.len() - i && matches_at(s, i, pat) {
            assert(rest.take(pat.len() as int) =~= s@.subrange(i as int, i + pat.len()));
            assert(rest.skip(pat.len() as int) =~= s@.skip(i + pat.len()));
            let ghost before = out@;
            push_chars(&mut out, rep);
            assert(before + (rep@ + replace_all(s@.skip(i + pat.len()), pat@, rep@))
                =~= out@ + replace_all(s@.skip(i + pat.len()), pat@, rep@));
            i = i + pat.len();
        } else {
            assert(rest.skip(1) =~= s@.skip(i + 1));
            assert(rest =~= seq![s@[i as int]] + s@.skip(i + 1));
            proof {
                if rest.len() < pat@.len() {
                    lemma_replace_short(rest, pat@, rep@);
                    lemma_replace_short(s@.skip(i + 1), pat@, rep@);
                } else {
                    assert(rest.take(pat.len() as int) =~= s@.subrange(i as int, i + pat.len()));
                }
            }
            let ghost before = out@;
            push_char(&mut out, s[i]);
            assert(before + (seq![s@[i as int]] + replace_all(s@.skip(i + 1), pat@, rep@))
                =~= out@ + replace_all(s@.skip(i + 1), pat@, rep@));
            i = i + 1;
        }
    }
    assert(s@.skip(i as int) =~= Seq::<char>::empty());
    assert(out@ + Seq::<char>::empty() =~= out@);
    out
}

/// The characters of the placeholder for `name`.
fn placeholder_chars(name: &str) -> (r: Vec<char>)
    ensures
        r@ == placeholder(name@),
{
    let mut r: Vec<char> = Vec::new();
    r.push('{');
    r.push('{');
    let n = chars_of(name);
    let mut k: usize = 0;
    while k < n.len()
        invariant
            k <= n.len(),
            r@ == seq!['{', '{'] + n@.take(k as int),
        decreases n.len() - k,
    {
        r.push(n[k]);
        assert(n@.take(k + 1) =~= n@.take(k as int).push(n@[k as int]));
        k = k + 1;
    }
    r.push('}');
    r.push('}');
    assert(n@.take(n.len() as int) =~= n@);
    assert(r@ =~= placeholder(name@));
    r
}

/// One pass: every placeholder for `name` in `cur` replaced by `value`.
fn replace_pass(cur: &Vec<char>, name: &str, value: &str) -> (r: Vec<char>)
    ensures
        r@ == replace_all(cur@, placeholder(name@), value@),
{
    let pat = placeholder_chars(name);
    let rep = chars_of(value);
    let out = replace_chars(cur, &pat, &rep);
    chars_of(out.as_str())
}

/// Replaces the placeholders `{{name}}` of `content` by the values of
/// `pairs`: one pass per pair, in order, over the text left by the passes
/// before it. Placeholders without a pair stay as they are.
pub fn do_replace(content: &str, pairs: &[(&str, &str)]) -> (r: String)
    ensures
        r@ == substitute(content@, pair_views(pairs@)),
{
    let ghost pv = pair_views(pairs@);
    let mut cur = chars_of(content);
    let mut i: usize = 0;
    assert(pv.take(0) =~= Seq::<(Seq<char>, Seq<char>)>::empty());
    while i < pairs.len()
        invariant
            pv == pair_views(pairs@),
            i <= pairs.len(),
            cur@ == substitute(content@, pv.take(i as int)),
        decreases pairs.len() - i,
    {
        let (name, value) = pairs[i];
        cur = replace_pass(&cur, name, value);
        assert(pv.take(i + 1).drop_last() =~= pv.take(i as int));
        assert(pv.take(i + 1).last() == pv[i as int]);
        i = i + 1;
    }
    assert(pv.take(pairs.len() as int) =~= pv);
    string_of(&cur)
}

/// The pairs of a JSON substitution, each value as its JSON fragment.
pub open spec fn json_pair_views(pairs: Seq<(&str, Value)>) -> Seq<(Seq<char>, Seq<char>)> {
    pairs.map_values(|p: (&str, Value)| (p.0@, serialized(p.1)))
}

/// Substitution into JSON content: as [`do_replace`], with each value
/// inserted as its JSON fragment (strings quoted, numbers and booleans bare).
pub fn do_json(content: &str, pairs: &[(&str, Value)]) -> (r: String)
    ensures
        r@ == substitute(content@, json_pair_views(pairs@)),
{
    let ghost pv = json_pair_views(pairs@);
    let mut cur = chars_of(content);
    let mut i: usize = 0;
    assert(pv.take(0) =~= Seq::<(Seq<char>, Seq<char>)>::empty());
    while i < pairs.len()
        invariant
            pv == json_pair_views(pairs@),
            i <= pairs.len(),
            cur@ == substitute(content@, pv.take(i as int)),
        decreases pairs.len() - i,
    {
        let fragment = serialize(&pairs[i].1);
        cur = replace_pass(&cur, pairs[i].0, fragment.as_str());
        assert(pv.take(i + 1).drop_last() =~= pv.take(i as int));
        assert(pv.take(i + 1).last() == pv[i as int]);
        i = i + 1;
    }
    assert(pv.take(pairs.len() as int) =~= pv);
    string_of(&cur)
}

/// Substitution into HTML content: the same as [`do_replace`].
pub fn do_html(content: &str, pairs: &[(&str, &str)]) -> (r: String)
    ensures
        r@ == substitute(content@, pair_views(pairs@)),
{
    do_replace(content, pairs)
}

/// Substitution into XML content: the same as [`do_replace`].
pub fn do_xml(content: &str, pairs: &[(&str, &str)]) -> (r: String)
    ensures
        r@ == substitute(content@, pair_views(pairs@)),
{
    do_replace(content, pairs)
}

/// With no pairs, substitution leaves every template as it is.
pub proof fn no_pairs_keep_template(t: Seq<char>, pairs: Seq<(&str, &str)>)
    requires
        pairs.len() == 0,
    ensures
        substitute(t, pair_views(pairs)) == t,
{
    assert(pair_views(pairs).len() == 0);
}

} // verus!
