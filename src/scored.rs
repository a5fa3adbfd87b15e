//! The scored matcher: a bounded backtracking search over the ways a pattern
//! can be aligned with a target, keeping the best-scoring alignment.
//!
//! A match list is a sequence of strictly increasing positions of the target,
//! one per pattern character matched so far. The score of a complete match
//! list is always computed from the whole list.
use vstd::prelude::*;

use crate::simple::{greedy_count, simple_match_spec};
use crate::text::{chars_of, eq_ignore_case, is_lower, is_upper, same_folded};

verus! {

/// Bonus for a matched character right after the previous matched one.
pub const BONUS_ADJACENT: i32 = 15;

/// Bonus for a matched character that starts a word: after a separator, or a
/// capital letter after a small one.
pub const BONUS_WORD: i32 = 30;

/// Bonus for matching the very first character of the target.
pub const BONUS_FIRST: i32 = 15;

/// Penalty for each character of the target left unmatched.
pub const PENALTY_INCORRECT_CHAR: i32 = -1;

/// Penalty for each target character before the first matched one.
pub const PENALTY_LEADING: i32 = -5;

/// The largest penalty given for characters before the first match.
pub const MAX_PENALTY_LEADING: i32 = -15;

/// Score of a complete alignment before penalties and bonuses.
pub const BASE_SCORE: i32 = 100;

/// How deep the backtracking search may go.
pub const MAX_RECURSION: u32 = 15;

/// How many positions a match list may hold.
pub const MAX_MATCHES: usize = 256;

/// Whether `c` separates words.
pub open spec fn is_separator(c: char) -> bool {
    c == '-' || c == '_' || c == ' '
}

/// Whether `l` is strictly increasing with all its positions before `bound`.
pub open spec fn positions_ok(l: Seq<usize>, bound: int) -> bool {
    &&& forall|k: int| 0 <= k < l.len() ==> #[trigger] l[k] < bound
    &&& forall|k: int| 0 < k < l.len() ==> l[k - 1] < #[trigger] l[k]
}

/// Penalty for starting the alignment at position `first`.
pub open spec fn leading_penalty(first: int) -> int {
    let p = first * PENALTY_LEADING;
    if p < MAX_PENALTY_LEADING {
        MAX_PENALTY_LEADING as int
    } else {
        p
    }
}

/// Bonus for the `i`-th position of `l` following the one before it.
pub open spec fn adjacency_bonus(l: Seq<usize>, i: int) -> int {
    if i > 0 && l[i] == l[i - 1] + 1 {
        BONUS_ADJACENT as int
    } else {
        0
    }
}

/// Word-boundary bonuses for the `i`-th position of `l`: one for a capital
/// after a small letter, one for any character after a separator.
pub open spec fn word_bonus(t: Seq<char>, l: Seq<usize>, i: int) -> int {
    let cur = l[i] as int;
    if cur > 0 {
        (if is_lower(t[cur - 1]) && is_upper(t[cur]) {
            BONUS_WORD as int
        } else {
            0
        }) + (if is_separator(t[cur - 1]) {
            BONUS_WORD as int
        } else {
            0
        })
    } else {
        0
    }
}

/// Bonus for the `i`-th position of `l` being the first character of `t`.
pub open spec fn first_bonus(l: Seq<usize>, i: int) -> int {
    if l[i] == 0 {
        BONUS_FIRST as int
    } else {
        0
    }
}

/// All bonuses earned by the `i`-th position of `l`.
pub open spec fn position_bonus(t: Seq<char>, l: Seq<usize>, i: int) -> int {
    adjacency_bonus(l, i) + word_bonus(t, l, i) + first_bonus(l, i)
}

/// Sum of the bonuses of the first `n` positions of `l`.
pub open spec fn bonus_sum(t: Seq<char>, l: Seq<usize>, n: int) -> int
    decreases n,
{
    if n <= 0 {
        0
    } else {
        bonus_sum(t, l, n - 1) + position_bonus(t, l, n - 1)
    }
}

/// Sum of the word-boundary bonuses of the first `n` positions of `l`.
pub open spec fn word_bonus_sum(t: Seq<char>, l: Seq<usize>, n: int) -> int
    decreases n,
{
    if n <= 0 {
        0
    } else {
        word_bonus_sum(t, l, n - 1) + word_bonus(t, l, n - 1)
    }
}

/// The score of the complete match list `l` in the target `t`.
pub open spec fn alignment_score(t: Seq<char>, l: Seq<usize>) -> int {
    BASE_SCORE + leading_penalty(l[0] as int) + PENALTY_INCORRECT_CHAR * (t.len() - l.len())
        + bonus_sum(t, l, l.len() as int)
}

/// Bonus earned by the `i`-th position of a match list.
fn position_bonus_exec(t: &Vec<char>, l: &Vec<usize>, i: usize) -> (r: i32)
    requires
        i < l.len(),
        positions_ok(l@, t.len() as int),
    ensures
        r == position_bonus(t@, l@, i as int),
        0 <= r <= 75,
{
    let cur = l[i];
    let mut r: i32 = 0;
    if i > 0 && cur == l[i - 1] + 1 {
        r = r + BONUS_ADJACENT;
    }
    if cur > 0 {
        let prev = t[cur - 1];
        let c = t[cur];
        if 'a' <= prev && prev <= 'z' && 'A' <= c && c <= 'Z' {
            r = r + BONUS_WORD;
        }
        if prev == '-' || prev == '_' || prev == ' ' {
            r = r + BONUS_WORD;
        }
    } else {
        r = r + BONUS_FIRST;
    }
    r
}

/// Scores a complete match list.
pub fn score_alignment(t: &Vec<char>, l: &Vec<usize>) -> (r: i32)
    requires
        0 < l.len() <= MAX_MATCHES,
        t.len() <= i32::MAX,
        positions_ok(l@, t.len() as int),
    ensures
        r == alignment_score(t@, l@),
{
    let first = l[0];
    let lead: i32 = if first >= 3 { MAX_PENALTY_LEADING } else { first as i32 * PENALTY_LEADING };
    let mut r: i32 = BASE_SCORE + lead;
    r = r + PENALTY_INCORRECT_CHAR * (t.len() as i32 - l.len() as i32);
    let ghost base = r as int;
    let mut i: usize = 0;
    while i < l.len()
        invariant
            i <= l.len(),
            0 < l.len() <= MAX_MATCHES,
            positions_ok(l@, t.len() as int),
            base == BASE_SCORE + leading_penalty(l@[0] as int) + PENALTY_INCORRECT_CHAR * (
            t@.len() - l@.len()),
            -i32::MAX <= base <= BASE_SCORE + MAX_MATCHES,
            0 <= bonus_sum(t@, l@, i as int) <= 75 * i,
            r == base + bonus_sum(t@, l@, i as int),
        decreases l.len() - i,
    {
        let b = position_bonus_exec(t, l, i);
        r = r + b;
        i = i + 1;
    }
    r
}

/// The outcome of searching for the rest of an alignment: pattern characters
/// from `j` on are still to be matched, from target position `i` on, after the
/// match list `l`, with `depth` levels of backtracking left.
///
/// With no depth left the search gives up: no match. With nothing left of the
/// pattern or of the target it succeeds with score 0. Otherwise the scan of
/// [`scan`] decides.
pub open spec fn search(p: Seq<char>, t: Seq<char>, j: int, i: int, l: Seq<usize>, depth: nat) -> (
    bool,
    int,
)
    decreases depth, t.len() + 1 - i,
{
    if depth == 0 {
        (false, 0)
    } else if j >= p.len() || i >= t.len() {
        (true, 0)
    } else {
        scan(p, t, j, i, l, (depth - 1) as nat, false, 0)
    }
}

/// One left-to-right scan of the target from position `idx`, matching pattern
/// characters from `j` on; `d` is the depth left for alternatives, `found`
/// tells whether an alternative has matched, and `best` is its best score.
///
/// At each position holding the next pattern character the scan first asks
/// [`search`] for the best alignment that skips this position, then takes the
/// position. If the match list is already full the scan fails. When the
/// pattern is used up the complete match list is scored, and an alternative
/// wins only with a strictly higher score. When the target is used up first
/// there is no match.
pub open spec fn scan(
    p: Seq<char>,
    t: Seq<char>,
    j: int,
    idx: int,
    l: Seq<usize>,
    d: nat,
    found: bool,
    best: int,
) -> (bool, int)
    decreases d + 1, t.len() - idx,
{
    if j >= p.len() {
        let s = alignment_score(t, l);
        if found && best > s {
            (true, best)
        } else {
            (true, s)
        }
    } else if idx >= t.len() {
        (false, 0)
    } else if same_folded(p[j], t[idx]) {
        if l.len() >= MAX_MATCHES {
            (false, 0)
        } else {
            let alt = search(p, t, j, idx + 1, l, d);
            let better = alt.0 && (!found || alt.1 > best);
            scan(
                p,
                t,
                j + 1,
                idx + 1,
                l.push(idx as usize),
                d,
                found || alt.0,
                if better {
                    alt.1
                } else {
                    best
                },
            )
        }
    } else {
        scan(p, t, j, idx + 1, l, d, found, best)
    }
}

/// The scored matcher's answer for pattern `p` and target `t`.
pub open spec fn fuzzy_match_spec(p: Seq<char>, t: Seq<char>) -> (bool, int) {
    search(p, t, 0, 0, Seq::empty(), MAX_RECURSION as nat)
}

/// Copies a match list, so that each branch of the search owns its own.
fn copy_positions(v: &Vec<usize>) -> (r: Vec<usize>)
    ensures
        r@ == v@,
{
    let mut r: Vec<usize> = Vec::new();
    let mut k: usize = 0;
    while k < v.len()
        invariant
            k <= v.len(),
            r@ == v@.take(k as int),
        decreases v.len() - k,
    {
        r.push(v[k]);
        k = k + 1;
    }
    proof {
        assert(v@.take(k as int) == v@);
    }
    r
}

/// Runs [`search`]: the best alignment of `p` from `j` on with `t` from `i`
/// on, after the match list `prefix`, within `depth` levels of backtracking.
fn fuzzy_match_recursive(
    p: &Vec<char>,
    t: &Vec<char>,
    j: usize,
    i: usize,
    prefix: &Vec<usize>,
    depth: u32,
) -> (r: (bool, i32))
    requires
        j == prefix.len(),
        j <= p.len(),
        i <= t.len() <= i32::MAX,
        prefix.len() <= MAX_MATCHES,
        positions_ok(prefix@, i as int),
    ensures
        r.0 == search(p@, t@, j as int, i as int, prefix@, depth as nat).0,
        r.1 == search(p@, t@, j as int, i as int, prefix@, depth as nat).1,
    decreases depth,
{
    if depth == 0 {
        return (false, 0);
    }
    if j >= p.len() || i >= t.len() {
        return (true, 0);
    }
    let ghost d = (depth - 1) as nat;
    let ghost goal = search(p@, t@, j as int, i as int, prefix@, depth as nat);
    let mut l = copy_positions(prefix);
    let mut k = j;
    let mut idx = i;
    let mut found = false;
    let mut best: i32 = 0;
    while k < p.len() && idx < t.len()
        invariant
            k == l.len(),
            k <= p.len(),
            i <= idx <= t.len() <= i32::MAX,
            l.len() <= MAX_MATCHES,
            positions_ok(l@, idx as int),
            depth >= 1,
            d == depth - 1,
            goal == search(p@, t@, j as int, i as int, prefix@, depth as nat),
            goal == scan(
                p@,
                t@,
                k as int,
                idx as int,
                l@,
                d,
                found,
                best as int,
            ),
        decreases t.len() - idx,
    {
        if eq_ignore_case(p[k], t[idx]) {
            if l.len() >= MAX_MATCHES {
                return (false, 0);
            }
            let (m, s) = fuzzy_match_recursive(p, t, k, idx + 1, &l, depth - 1);
            if m && (!found || s > best) {
                best = s;
            }
            found = found || m;
            l.push(idx);
            k = k + 1;
        }
        idx = idx + 1;
    }
    if k < p.len() {
        return (false, 0);
    }
    let out = score_alignment(t, &l);
    if found && best > out {
        (true, best)
    } else {
        (true, out)
    }
}

/// Scores how well `pattern` matches `matches`: searches, within a bounded
/// depth of backtracking, the ways to align the pattern's characters (ignoring
/// ASCII case) with increasing positions of `matches`, and returns whether an
/// alignment was found and the best score met. The score means something only
/// when a match is reported.
///
/// The search is bounded by [`MAX_RECURSION`] levels and by [`MAX_MATCHES`]
/// positions per match list. These bounds are a deliberate approximation: on
/// highly repetitive targets the best alignment may be missed, and a pattern
/// longer than [`MAX_MATCHES`] never matches. Between alignments of equal
/// score, the one the scan takes itself is kept over an alternative that
/// skips one of its positions, and among alternatives the first explored.
pub fn fuzzy_match(pattern: &str, matches: &str) -> (r: (bool, i32))
    requires
        matches@.len() <= i32::MAX,
    ensures
        r.0 == fuzzy_match_spec(pattern@, matches@).0,
        r.1 == fuzzy_match_spec(pattern@, matches@).1,
{
    let p = chars_of(pattern);
    let t = chars_of(matches);
    let empty: Vec<usize> = Vec::new();
    fuzzy_match_recursive(&p, &t, 0, 0, &empty, MAX_RECURSION)
}

/// Once a scan has consumed the whole pattern, scanning further leaves it so.
proof fn lemma_greedy_full_stays(p: Seq<char>, t: Seq<char>, idx: int)
    requires
        0 <= idx <= t.len(),
        greedy_count(p, t.take(idx)) == p.len(),
    ensures
        greedy_count(p, t) == p.len(),
    decreases t.len() - idx,
{
    if idx == t.len() {
        assert(t.take(idx) == t);
    } else {
        assert(t.take(idx + 1).drop_last() == t.take(idx));
        lemma_greedy_full_stays(p, t, idx + 1);
    }
}

/// Whether the scan of the scored matcher succeeds is decided by the greedy
/// scan alone: the alternatives it explores only change the score.
proof fn lemma_scan_outcome(
    p: Seq<char>,
    t: Seq<char>,
    j: int,
    idx: int,
    l: Seq<usize>,
    d: nat,
    found: bool,
    best: int,
)
    requires
        0 <= j <= p.len(),
        0 <= idx <= t.len(),
        l.len() == j,
        greedy_count(p, t.take(idx)) == j,
    ensures
        scan(p, t, j, idx, l, d, found, best).0 ==> greedy_count(p, t) == p.len(),
        p.len() <= MAX_MATCHES && greedy_count(p, t) == p.len() ==> scan(
            p,
            t,
            j,
            idx,
            l,
            d,
            found,
            best,
        ).0,
    decreases t.len() - idx,
{
    if j >= p.len() {
        lemma_greedy_full_stays(p, t, idx);
    } else if idx >= t.len() {
        assert(t.take(idx) == t);
    } else {
        assert(t.take(idx + 1).drop_last() == t.take(idx));
        if same_folded(p[j], t[idx]) {
            if l.len() < MAX_MATCHES {
                let alt = search(p, t, j, idx + 1, l, d);
                let better = alt.0 && (!found || alt.1 > best);
                lemma_scan_outcome(
                    p,
                    t,
                    j + 1,
                    idx + 1,
                    l.push(idx as usize),
                    d,
                    found || alt.0,
                    if better {
                        alt.1
                    } else {
                        best
                    },
                );
            }
        } else {
            lemma_scan_outcome(p, t, j, idx + 1, l, d, found, best);
        }
    }
}

/// On a non-empty pattern and target, the scored matcher finds a match
/// exactly when the simple matcher does, unless the match list would
/// overflow: a pattern longer than the match capacity that the simple
/// matcher accepts is reported as no match by the scored matcher.
pub proof fn lemma_scored_agrees_with_simple(p: Seq<char>, t: Seq<char>)
    requires
        p.len() > 0,
        t.len() > 0,
        p.len() <= MAX_MATCHES || !simple_match_spec(p, t),
    ensures
        fuzzy_match_spec(p, t).0 == simple_match_spec(p, t),
{
    assert(t.take(0).len() == 0);
    lemma_scan_outcome(p, t, 0, 0, Seq::empty(), (MAX_RECURSION - 1) as nat, false, 0);
}

/// Both matchers are functions of their inputs alone: the same pattern and
/// target always give the same answer and score.
pub proof fn lemma_matchers_are_deterministic(
    p1: Seq<char>,
    t1: Seq<char>,
    p2: Seq<char>,
    t2: Seq<char>,
)
    requires
        p1 == p2,
        t1 == t2,
    ensures
        fuzzy_match_spec(p1, t1) == fuzzy_match_spec(p2, t2),
        simple_match_spec(p1, t1) == simple_match_spec(p2, t2),
{
}

/// The bonuses of a match list starting at position 0 with no gap: the first
/// and adjacency bonuses of every position, and its word bonuses.
proof fn lemma_bonus_sum_contiguous(t: Seq<char>, l: Seq<usize>, n: int)
    requires
        0 <= n <= l.len(),
        forall|k: int| 0 <= k < l.len() ==> #[trigger] l[k] == k,
    ensures
        bonus_sum(t, l, n) == BONUS_ADJACENT * n + word_bonus_sum(t, l, n),
    decreases n,
{
    if n > 0 {
        lemma_bonus_sum_contiguous(t, l, n - 1);
        if n - 1 > 0 {
            assert(l[n - 1] == l[n - 2] + 1);
        }
    }
}

/// The bonuses of a match list that does not start at position 0: no first
/// bonus, and no adjacency bonus for its first position.
proof fn lemma_bonus_sum_late(t: Seq<char>, l: Seq<usize>, n: int)
    requires
        1 <= n <= l.len(),
        l[0] > 0,
        positions_ok(l, t.len() as int),
    ensures
        bonus_sum(t, l, n) <= BONUS_ADJACENT * (n - 1) + word_bonus_sum(t, l, n),
    decreases n,
{
    if n > 1 {
        lemma_bonus_sum_late(t, l, n - 1);
        assert(l[0] <= l[n - 1]) by {
            lemma_positions_increase(l, t.len() as int, n - 1);
        }
    } else {
        assert(bonus_sum(t, l, 0) == 0);
        assert(word_bonus_sum(t, l, 0) == 0);
    }
}

/// Positions of a match list never fall below its first one.
proof fn lemma_positions_increase(l: Seq<usize>, bound: int, n: int)
    requires
        0 <= n < l.len(),
        positions_ok(l, bound),
    ensures
        l[0] <= l[n],
    decreases n,
{
    if n > 0 {
        lemma_positions_increase(l, bound, n - 1);
    }
}

/// A match list that starts at the first character of the target and has no
/// gap scores higher than a match list of the same length, in a target of the
/// same length, that starts later and has a gap, provided the latter earns no
/// more word-boundary bonuses than the former.
pub proof fn lemma_contiguous_start_scores_higher(
    t1: Seq<char>,
    a: Seq<usize>,
    t2: Seq<char>,
    b: Seq<usize>,
)
    requires
        t1.len() == t2.len(),
        a.len() == b.len(),
        a.len() <= t1.len(),
        forall|k: int| 0 <= k < a.len() ==> #[trigger] a[k] == k,
        positions_ok(b, t2.len() as int),
        b.len() > 0,
        b[0] > 0,
        exists|k: int| 0 < k < b.len() && #[trigger] b[k] > b[k - 1] + 1,
        word_bonus_sum(t2, b, b.len() as int) <= word_bonus_sum(t1, a, a.len() as int),
    ensures
        alignment_score(t1, a) > alignment_score(t2, b),
{
    lemma_bonus_sum_contiguous(t1, a, a.len() as int);
    lemma_bonus_sum_late(t2, b, b.len() as int);
}

} // verus!
