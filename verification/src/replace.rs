//! Literal replacement of a token in a text.

use crate::text::{chars_of, string_of_range};
use vstd::prelude::*;

verus! {

/// `s` with every occurrence of `pat` replaced by `to`.
///
/// Occurrences are found from left to right and do not overlap; what a
/// replacement put in is not searched again. An empty `pat` occurs before
/// every character and at the end.
pub open spec fn replaced(s: Seq<char>, pat: Seq<char>, to: Seq<char>) -> Seq<char>
    decreases s.len(),
{
    if pat.len() == 0 {
        if s.len() == 0 {
            to
        } else {
            to + seq![s[0]] + replaced(s.drop_first(), pat, to)
        }
    } else if s.len() < pat.len() {
        s
    } else if s.take(pat.len() as int) == pat {
        to + replaced(s.skip(pat.len() as int), pat, to)
    } else {
        seq![s[0]] + replaced(s.drop_first(), pat, to)
    }
}

/// Whether `s` starts with `pat`.
pub open spec fn starts_with(s: Seq<char>, pat: Seq<char>) -> bool {
    pat.len() <= s.len() && s.take(pat.len() as int) == pat
}

/// Whether `pat` stands in `cs` at position `at`.
fn matches_at(cs: &Vec<char>, at: usize, pat: &Vec<char>) -> (b: bool)
    requires
        at + pat.len() <= cs.len(),
    ensures
        b == (cs@.subrange(at as int, at + pat.len()) == pat@),
{
    let mut k: usize = 0;
    while k < pat.len()
        invariant
            k <= pat.len(),
            at + pat.len() <= cs.len(),
            forall|j: int| 0 <= j < k ==> cs@[at + j] == pat@[j],
        decreases pat.len() - k,
    {
        if cs[at + k] != pat[k] {
            assert(cs@.subrange(at as int, at + pat.len())[k as int] != pat@[k as int]);
            return false;
        }
        k += 1;
    }
    assert(cs@.subrange(at as int, at + pat.len()) =~= pat@);
    true
}

/// `s` with every occurrence of `pat` replaced by `to`, as `replaced` defines it.
pub fn replace_all(s: &str, pat: &str, to: &str) -> (r: String)
    ensures
        r@ == replaced(s@, pat@, to@),
{
    let cs = chars_of(s);
    let ps = chars_of(pat);
    let n = cs.len();
    let m = ps.len();
    let mut out = String::new();
    let mut i: usize = 0;
    assert(cs@.skip(0) =~= cs@);
    assert(out@ + replaced(cs@, ps@, to@) =~= replaced(cs@, ps@, to@));
    if m == 0 {
        while i < n
            invariant
                i <= n == cs.len(),
                ps@.len() == 0,
                replaced(cs@, ps@, to@) == out@ + replaced(cs@.skip(i as int), ps@, to@),
            decreases n - i,
        {
            proof {
                let rest = cs@.skip(i as int);
                assert(rest.drop_first() =~= cs@.skip(i + 1));
                assert(out@ + (to@ + seq![rest[0]] + replaced(rest.drop_first(), ps@, to@)) =~= (out@
                    + to@).push(cs@[i as int]) + replaced(cs@.skip(i + 1), ps@, to@));
            }
            out.append(to);
            out.push(cs[i]);
            i += 1;
        }
        out.append(to);
        return out;
    }
    while n - i >= m
        invariant
            i <= n == cs.len(),
            0 < m == ps.len(),
            replaced(cs@, ps@, to@) == out@ + replaced(cs@.skip(i as int), ps@, to@),
        decreases n - i,
    {
        proof {
            let rest = cs@.skip(i as int);
            assert(rest.take(m as int) =~= cs@.subrange(i as int, i + m));
            assert(rest.skip(m as int) =~= cs@.skip(i + m));
            assert(rest.drop_first() =~= cs@.skip(i + 1));
            assert(out@ + (to@ + replaced(rest.skip(m as int), ps@, to@)) =~= (out@ + to@)
                + replaced(rest.skip(m as int), ps@, to@));
            assert(out@ + (seq![rest[0]] + replaced(rest.drop_first(), ps@, to@)) =~= out@.push(
                cs@[i as int],
            ) + replaced(rest.drop_first(), ps@, to@));
        }
        if matches_at(&cs, i, &ps) {
            out.append(to);
            i += m;
        } else {
            out.push(cs[i]);
            i += 1;
        }
    }
    let tail = string_of_range(&cs, i, n);
    assert(cs@.skip(i as int) =~= tail@);
    out.append(tail.as_str());
    out
}

/// Where `pat` stands at the start of a text, it is replaced there and the
/// search goes on behind it.
pub proof fn lemma_replaced_at_match(pat: Seq<char>, rest: Seq<char>, to: Seq<char>)
    requires
        pat.len() > 0,
    ensures
        replaced(pat + rest, pat, to) == to + replaced(rest, pat, to),
{
    let s = pat + rest;
    assert(s.take(pat.len() as int) =~= pat);
    assert(s.skip(pat.len() as int) =~= rest);
}

/// A start of the text that holds the first character of `pat` nowhere is
/// kept as it is, and the search goes on behind it.
pub proof fn lemma_replaced_skips_prefix(
    prefix: Seq<char>,
    rest: Seq<char>,
    pat: Seq<char>,
    to: Seq<char>,
)
    requires
        pat.len() > 0,
        forall|i: int| 0 <= i < prefix.len() ==> prefix[i] != pat[0],
    ensures
        replaced(prefix + rest, pat, to) == prefix + replaced(rest, pat, to),
    decreases prefix.len(),
{
    let s = prefix + rest;
    if prefix.len() == 0 {
        assert(s =~= rest);
        assert(prefix + replaced(rest, pat, to) =~= replaced(rest, pat, to));
    } else {
        assert(s[0] == prefix[0]);
        assert(s.drop_first() =~= prefix.drop_first() + rest);
        lemma_replaced_skips_prefix(prefix.drop_first(), rest, pat, to);
        if s.len() < pat.len() {
            assert(replaced(rest, pat, to) == rest);
        } else {
            assert(s.take(pat.len() as int)[0] != pat[0]);
            assert(seq![s[0]] + (prefix.drop_first() + replaced(rest, pat, to)) =~= prefix
                + replaced(rest, pat, to));
        }
    }
}

/// A text that holds the first character of `pat` nowhere is left as it is.
pub proof fn lemma_replaced_absent(s: Seq<char>, pat: Seq<char>, to: Seq<char>)
    requires
        pat.len() > 0,
        forall|i: int| 0 <= i < s.len() ==> s[i] != pat[0],
    ensures
        replaced(s, pat, to) == s,
{
    lemma_replaced_skips_prefix(s, Seq::empty(), pat, to);
    assert(s + Seq::<char>::empty() =~= s);
}

/// Where a text does not start with `pat`, its first character is kept and
/// the search goes on behind it.
pub proof fn lemma_replaced_keeps_first(s: Seq<char>, pat: Seq<char>, to: Seq<char>)
    requires
        pat.len() > 0,
        s.len() > 0,
        !starts_with(s, pat),
    ensures
        replaced(s, pat, to) == seq![s[0]] + replaced(s.drop_first(), pat, to),
{
    if s.len() < pat.len() {
        assert(replaced(s.drop_first(), pat, to) == s.drop_first());
        assert(s =~= seq![s[0]] + s.drop_first());
    }
}

/// A character that neither the text nor the replacement starts with is not
/// what the result starts with.
pub proof fn lemma_replaced_first(s: Seq<char>, pat: Seq<char>, to: Seq<char>, c: char)
    requires
        pat.len() > 0,
        to.len() > 0,
        to[0] != c,
        s.len() > 0 ==> s[0] != c,
    ensures
        replaced(s, pat, to).len() > 0 ==> replaced(s, pat, to)[0] != c,
{
}

} // verus!
