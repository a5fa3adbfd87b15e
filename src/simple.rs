//! The simple matcher: one greedy left-to-right scan, no score.
use vstd::prelude::*;

use crate::text::{eq_ignore_case, chars_of, same_folded};

verus! {

/// How many leading characters of `p` a single left-to-right scan of `t`
/// consumes, taking each character of `t` that equals (ignoring ASCII case)
/// the next character of `p` still to be matched.
pub open spec fn greedy_count(p: Seq<char>, t: Seq<char>) -> nat
    decreases t.len(),
{
    if t.len() == 0 {
        0
    } else {
        let n = greedy_count(p, t.drop_last());
        if n < p.len() && same_folded(p[n as int], t.last()) {
            n + 1
        } else {
            n
        }
    }
}

/// The simple matcher's answer: the pattern is not empty and the scan
/// consumes all of it. An empty pattern is reported as no match.
pub open spec fn simple_match_spec(p: Seq<char>, t: Seq<char>) -> bool {
    p.len() > 0 && greedy_count(p, t) == p.len()
}

/// Whether `l` lists, for the first `l.len()` characters of `p`, strictly
/// increasing positions of `t` holding those characters (ignoring ASCII case).
pub open spec fn aligns_prefix(p: Seq<char>, t: Seq<char>, l: Seq<int>) -> bool {
    &&& l.len() <= p.len()
    &&& forall|k: int| 0 <= k < l.len() ==> 0 <= #[trigger] l[k] < t.len()
    &&& forall|k: int| 0 <= k < l.len() ==> same_folded(p[k], t[#[trigger] l[k]])
    &&& forall|a: int, b: int| 0 <= a < b < l.len() ==> #[trigger] l[a] < #[trigger] l[b]
}

/// Whether `l` aligns the whole of `p` with positions of `t`: `p`, ignoring
/// ASCII case, is a subsequence of `t` at the positions `l`.
pub open spec fn is_alignment(p: Seq<char>, t: Seq<char>, l: Seq<int>) -> bool {
    aligns_prefix(p, t, l) && l.len() == p.len()
}

/// The scan never consumes more than the whole pattern.
pub proof fn lemma_greedy_count_bound(p: Seq<char>, t: Seq<char>)
    ensures
        greedy_count(p, t) <= p.len(),
    decreases t.len(),
{
    if t.len() > 0 {
        lemma_greedy_count_bound(p, t.drop_last());
    }
}

/// The positions that the scan takes align the consumed prefix of `p`.
pub proof fn lemma_greedy_alignment(p: Seq<char>, t: Seq<char>) -> (l: Seq<int>)
    ensures
        aligns_prefix(p, t, l),
        l.len() == greedy_count(p, t),
    decreases t.len(),
{
    if t.len() == 0 {
        Seq::empty()
    } else {
        let u = t.drop_last();
        let l0 = lemma_greedy_alignment(p, u);
        lemma_greedy_count_bound(p, u);
        let n = greedy_count(p, u);
        if n < p.len() && same_folded(p[n as int], t.last()) {
            let l = l0.push(t.len() - 1);
            assert forall|k: int| 0 <= k < l.len() implies same_folded(p[k], t[#[trigger] l[k]]) by {
                if k < l0.len() {
                    assert(t[l0[k]] == u[l0[k]]);
                }
            }
            l
        } else {
            assert forall|k: int| 0 <= k < l0.len() implies same_folded(p[k], t[#[trigger] l0[k]]) by {
                assert(t[l0[k]] == u[l0[k]]);
            }
            l0
        }
    }
}

/// When the simple matcher reports a match, the pattern's characters occur,
/// in order and ignoring ASCII case, at increasing positions of the target.
pub proof fn lemma_simple_match_is_subsequence(p: Seq<char>, t: Seq<char>)
    requires
        simple_match_spec(p, t),
    ensures
        exists|l: Seq<int>| is_alignment(p, t, l),
{
    let l = lemma_greedy_alignment(p, t);
    assert(is_alignment(p, t, l));
}

/// No alignment of a prefix of `p` is longer than what the greedy scan
/// consumes: taking the earliest match never loses.
proof fn lemma_greedy_count_is_maximal(p: Seq<char>, t: Seq<char>, l: Seq<int>)
    requires
        aligns_prefix(p, t, l),
    ensures
        greedy_count(p, t) >= l.len(),
    decreases t.len(),
{
    let m = l.len() as int;
    if m > 0 {
        if t.len() == 0 {
            assert(0 <= l[0] < t.len());
        } else {
            let u = t.drop_last();
            if l[m - 1] < t.len() - 1 {
                assert forall|k: int| 0 <= k < l.len() implies 0 <= #[trigger] l[k] < u.len() by {
                    if k < m - 1 {
                        assert(l[k] < l[m - 1]);
                    }
                }
                assert forall|k: int| 0 <= k < l.len() implies same_folded(p[k], u[#[trigger] l[k]]) by {
                    assert(u[l[k]] == t[l[k]]);
                }
                lemma_greedy_count_is_maximal(p, u, l);
            } else {
                let l0 = l.drop_last();
                assert forall|k: int| 0 <= k < l0.len() implies 0 <= #[trigger] l0[k] < u.len() by {
                    assert(l[k] < l[m - 1]);
                }
                assert forall|k: int| 0 <= k < l0.len() implies same_folded(p[k], u[#[trigger] l0[k]]) by {
                    assert(u[l[k]] == t[l[k]]);
                    assert(l0[k] == l[k]);
                }
                assert forall|a: int, b: int| 0 <= a < b < l0.len() implies #[trigger] l0[a] < #[trigger] l0[b] by {
                    assert(l0[a] == l[a] && l0[b] == l[b]);
                }
                lemma_greedy_count_is_maximal(p, u, l0);
                assert(same_folded(p[m - 1], t[l[m - 1]]));
            }
        }
    }
}

/// The simple matcher reports a match exactly when the pattern is not empty
/// and its characters occur, in order and ignoring ASCII case, at increasing
/// positions of the target.
pub proof fn lemma_subsequence_is_simple_match(p: Seq<char>, t: Seq<char>, l: Seq<int>)
    requires
        p.len() > 0,
        is_alignment(p, t, l),
    ensures
        simple_match_spec(p, t),
{
    lemma_greedy_count_is_maximal(p, t, l);
    lemma_greedy_count_bound(p, t);
}

/// The simple matcher never matches against an empty target, nor with an
/// empty pattern.
pub proof fn lemma_simple_match_empty(p: Seq<char>, t: Seq<char>)
    ensures
        p.len() > 0 ==> !simple_match_spec(p, Seq::<char>::empty()),
        !simple_match_spec(Seq::<char>::empty(), t),
{
    assert(greedy_count(p, Seq::<char>::empty()) == 0);
}

/// Tells whether the characters of `pattern` occur in `matches` in the same
/// order, ignoring ASCII case, by one greedy scan of `matches`. An empty
/// pattern matches nothing.
pub fn simple_fuzzy_match(pattern: &str, matches: &str) -> (r: bool)
    ensures
        r == simple_match_spec(pattern@, matches@),
{
    let p = chars_of(pattern);
    let t = chars_of(matches);
    let mut cur: usize = 0;
    let mut i: usize = 0;
    while i < t.len()
        invariant
            p@ == pattern@,
            t@ == matches@,
            i <= t.len(),
            cur == greedy_count(p@, t@.take(i as int)),
            cur <= p.len(),
        decreases t.len() - i,
    {
        proof {
            assert(t@.take(i + 1).drop_last() == t@.take(i as int));
        }
        if cur < p.len() && eq_ignore_case(p[cur], t[i]) {
            cur = cur + 1;
        }
        i = i + 1;
    }
    proof {
        assert(t@.take(i as int) == t@);
    }
    p.len() > 0 && cur == p.len()
}

} // verus!
