//! Ranking of keys by priority.
//!
//! Keys are ranked by descending priority; among keys of equal priority the
//! one that comes first in the input ranks first (a stable ranking).
use vstd::prelude::*;
use vstd::set_lib::{lemma_int_range, lemma_len_subset, set_int_range};

verus! {

/// A key together with its priority. Only the order of priorities matters:
/// a larger priority ranks first.
#[derive(Debug)]
pub struct ScoredKey {
    pub key: String,
    pub priority: u64,
}

impl Clone for ScoredKey {
    fn clone(&self) -> (c: Self)
        ensures
            c == *self,
    {
        ScoredKey { key: self.key.clone(), priority: self.priority }
    }
}

/// Position `i` of `s` ranks before position `j`: its priority is higher, or
/// equal and it comes first.
pub open spec fn ranks_before(s: Seq<ScoredKey>, i: int, j: int) -> bool {
    s[i].priority > s[j].priority || (s[i].priority == s[j].priority && i < j)
}

/// Position `j` of `s` is not in `taken` and ranks before every other
/// position that is not in `taken`.
pub open spec fn is_best_remaining(s: Seq<ScoredKey>, taken: Seq<int>, j: int) -> bool {
    &&& 0 <= j < s.len()
    &&& !taken.contains(j)
    &&& forall|k: int|
        0 <= k < s.len() && !taken.contains(k) && k != j ==> #[trigger] ranks_before(s, j, k)
}

/// The best-ranked position of `s` that is not in `taken`.
pub open spec fn best_remaining(s: Seq<ScoredKey>, taken: Seq<int>) -> int {
    choose|j: int| is_best_remaining(s, taken, j)
}

/// The `m` best-ranked positions of `s`, best first.
pub open spec fn top_positions(s: Seq<ScoredKey>, m: nat) -> Seq<int>
    decreases m,
{
    if m == 0 {
        Seq::empty()
    } else {
        let p = top_positions(s, (m - 1) as nat);
        p.push(best_remaining(s, p))
    }
}

/// The number of keys that a ranking of `n` keys limited to `limit` keeps.
pub open spec fn ranked_len(n: nat, limit: nat) -> nat {
    if limit < n {
        limit
    } else {
        n
    }
}

/// The positions of the at most `limit` best-ranked entries of `s`, best first.
pub open spec fn ranked_positions(s: Seq<ScoredKey>, limit: nat) -> Seq<int> {
    top_positions(s, ranked_len(s.len(), limit))
}

/// The keys of the at most `limit` best-ranked entries of `s`, best first.
pub open spec fn ranked_keys(s: Seq<ScoredKey>, limit: nat) -> Seq<String> {
    ranked_positions(s, limit).map_values(|i: int| s[i].key)
}

/// A position that is best among the remaining ones is the one `best_remaining` names.
proof fn lemma_best_is_unique(s: Seq<ScoredKey>, taken: Seq<int>, j: int)
    requires
        is_best_remaining(s, taken, j),
    ensures
        best_remaining(s, taken) == j,
{
    let b = best_remaining(s, taken);
    assert(is_best_remaining(s, taken, b));
    if b != j {
        assert(ranks_before(s, j, b));
        assert(ranks_before(s, b, j));
    }
}


/// Among the positions below `upto` that are not in `taken`, the one that
/// ranks first, if there is any.
proof fn lemma_best_in_prefix(s: Seq<ScoredKey>, taken: Seq<int>, upto: nat) -> (b: Option<int>)
    requires
        upto <= s.len(),
    ensures
        b is None ==> forall|k: int| 0 <= k < upto ==> taken.contains(k),
        b matches Some(j) ==> {
            &&& 0 <= j < upto
            &&& !taken.contains(j)
            &&& forall|k: int|
                0 <= k < upto && !taken.contains(k) && k != j ==> #[trigger] ranks_before(s, j, k)
        },
    decreases upto,
{
    if upto == 0 {
        None
    } else {
        let k = upto - 1;
        let prev = lemma_best_in_prefix(s, taken, (upto - 1) as nat);
        if taken.contains(k) {
            prev
        } else {
            match prev {
                None => Some(k),
                Some(j) => {
                    if s[k].priority > s[j].priority {
                        assert forall|kk: int|
                            0 <= kk < upto && !taken.contains(kk) && kk != k implies #[trigger] ranks_before(
                            s,
                            k,
                            kk,
                        ) by {
                            if kk != j {
                                assert(ranks_before(s, j, kk));
                            }
                        }
                        Some(k)
                    } else {
                        Some(j)
                    }
                },
            }
        }
    }
}

/// When fewer positions are taken than `s` has, a best remaining position exists.
proof fn lemma_best_exists(s: Seq<ScoredKey>, taken: Seq<int>)
    requires
        taken.len() < s.len(),
    ensures
        is_best_remaining(s, taken, best_remaining(s, taken)),
{
    let n = s.len() as int;
    let b = lemma_best_in_prefix(s, taken, s.len());
    if b is None {
        lemma_int_range(0, n);
        assert(set_int_range(0, n).subset_of(taken.to_set()));
        taken.lemma_cardinality_of_set();
        lemma_len_subset(set_int_range(0, n), taken.to_set());
        assert(false);
    }
    let j = b->Some_0;
    assert(is_best_remaining(s, taken, j));
}

/// The `m` best-ranked positions are valid positions in ranking order, and
/// every position left out ranks after all of them.
pub proof fn lemma_top_positions_ranked(s: Seq<ScoredKey>, m: nat)
    requires
        m <= s.len(),
    ensures
        top_positions(s, m).len() == m,
        forall|a: int| 0 <= a < m ==> 0 <= #[trigger] top_positions(s, m)[a] < s.len(),
        forall|a: int, b: int|
            0 <= a < b < m ==> ranks_before(s, top_positions(s, m)[a], top_positions(s, m)[b]),
        forall|a: int, j: int|
            0 <= a < m && 0 <= j < s.len() && !top_positions(s, m).contains(j) ==> ranks_before(
                s,
                top_positions(s, m)[a],
                j,
            ),
    decreases m,
{
    if m > 0 {
        let p = top_positions(s, (m - 1) as nat);
        lemma_top_positions_ranked(s, (m - 1) as nat);
        lemma_best_exists(s, p);
        let b = best_remaining(s, p);
        let t = top_positions(s, m);
        assert(t == p.push(b));
        assert forall|a: int, j: int|
            0 <= a < m && 0 <= j < s.len() && !t.contains(j) implies ranks_before(s, t[a], j) by {
            assert(t[m - 1] == b);
            if p.contains(j) {
                let c = choose|c: int| 0 <= c < p.len() && p[c] == j;
                assert(t[c] == j);
            }
            if a < m - 1 {
                assert(t[a] == p[a]);
            }
        }
    }
}

/// Raising the limit of a ranking only appends to it.
pub proof fn lemma_ranking_prefix(s: Seq<ScoredKey>, m1: nat, m2: nat)
    requires
        m1 <= m2,
    ensures
        top_positions(s, m1) == top_positions(s, m2).take(m1 as int),
    decreases m2,
{
    if m1 < m2 {
        lemma_ranking_prefix(s, m1, (m2 - 1) as nat);
        lemma_top_positions_len(s, (m2 - 1) as nat);
        assert(top_positions(s, (m2 - 1) as nat).take(m1 as int) =~= top_positions(s, m2).take(
            m1 as int,
        ));
    } else {
        lemma_top_positions_len(s, m2);
        assert(top_positions(s, m2).take(m1 as int) =~= top_positions(s, m2));
    }
}

/// A ranking of `m` positions has `m` entries.
proof fn lemma_top_positions_len(s: Seq<ScoredKey>, m: nat)
    ensures
        top_positions(s, m).len() == m,
    decreases m,
{
    if m > 0 {
        lemma_top_positions_len(s, (m - 1) as nat);
    }
}

/// What a ranking of `s` limited to `limit` keeps:
/// - `min(limit, s.len())` keys, each the key of a distinct entry of `s`;
/// - in order of non-increasing priority, equal priorities in input order;
/// - no entry left out has a higher priority than an entry kept, and an entry
///   left out with an equal priority comes later in the input;
/// - when `limit` is at least `s.len()`, every entry is kept.
pub proof fn lemma_ranking_laws(s: Seq<ScoredKey>, limit: nat)
    ensures
        ranked_keys(s, limit).len() == ranked_len(s.len(), limit),
        ranked_positions(s, limit).len() == ranked_len(s.len(), limit),
        forall|a: int|
            #![trigger ranked_positions(s, limit)[a]]
            0 <= a < ranked_positions(s, limit).len() ==> {
                &&& 0 <= ranked_positions(s, limit)[a] < s.len()
                &&& ranked_keys(s, limit)[a] == s[ranked_positions(s, limit)[a]].key
            },
        ranked_positions(s, limit).no_duplicates(),
        forall|a: int, b: int|
            0 <= a < b < ranked_positions(s, limit).len() ==> ranks_before(
                s,
                ranked_positions(s, limit)[a],
                ranked_positions(s, limit)[b],
            ),
        forall|a: int, j: int|
            0 <= a < ranked_positions(s, limit).len() && 0 <= j < s.len() && !ranked_positions(
                s,
                limit,
            ).contains(j) ==> ranks_before(s, ranked_positions(s, limit)[a], j),
        limit >= s.len() ==> forall|j: int| 0 <= j < s.len() ==> ranked_positions(s, limit).contains(j),
{
    let m = ranked_len(s.len(), limit);
    lemma_top_positions_ranked(s, m);
    let t = ranked_positions(s, limit);
    assert forall|a: int, b: int| 0 <= a < t.len() && 0 <= b < t.len() && a != b implies t[a] != t[b] by {
        if a < b {
            assert(ranks_before(s, t[a], t[b]));
        } else {
            assert(ranks_before(s, t[b], t[a]));
        }
    }
    if limit >= s.len() {
        assert forall|j: int| 0 <= j < s.len() implies t.contains(j) by {
            if !t.contains(j) {
                lemma_int_range(0, s.len() as int);
                assert forall|x: int| t.to_set().contains(x) implies set_int_range(0, s.len() as int).contains(x) by {
                    let c = choose|c: int| 0 <= c < t.len() && t[c] == x;
                }
                assert(t.to_set().subset_of(set_int_range(0, s.len() as int).remove(j)));
                t.unique_seq_to_set();
                lemma_len_subset(t.to_set(), set_int_range(0, s.len() as int).remove(j));
            }
        }
    }
}


/// `keys` are the keys of the best-ranked entries of the whole of `s`, best
/// first: key `a` is the key of entry `pos[a]`, the positions are in ranking
/// order (so no entry is taken twice), and every entry that is left out
/// ranks after every entry that is taken.
pub open spec fn is_top_ranking(s: Seq<ScoredKey>, pos: Seq<int>, keys: Seq<String>) -> bool {
    &&& pos.len() == keys.len()
    &&& forall|a: int|
        #![trigger pos[a]]
        0 <= a < pos.len() ==> 0 <= pos[a] < s.len() && keys[a] == s[pos[a]].key
    &&& forall|a: int, b: int| 0 <= a < b < pos.len() ==> ranks_before(s, pos[a], pos[b])
    &&& forall|a: int, j: int|
        0 <= a < pos.len() && 0 <= j < s.len() && !pos.contains(j) ==> ranks_before(s, pos[a], j)
}

/// `keys` are the keys of the best-ranked entries of the whole of `s`, best
/// first, taken from some positions of `s` as `is_top_ranking` describes.
pub open spec fn is_top_keys(s: Seq<ScoredKey>, keys: Seq<String>) -> bool {
    exists|pos: Seq<int>| is_top_ranking(s, pos, keys)
}

/// A ranking limited to `limit` keeps `min(limit, s.len())` keys, and they
/// are the keys of the best-ranked entries of the whole of `s`: no entry
/// that is left out ranks before one that is kept.
pub proof fn lemma_ranked_keys_are_top(s: Seq<ScoredKey>, limit: nat)
    ensures
        ranked_keys(s, limit).len() == ranked_len(s.len(), limit),
        is_top_keys(s, ranked_keys(s, limit)),
{
    lemma_ranking_laws(s, limit);
    assert(is_top_ranking(s, ranked_positions(s, limit), ranked_keys(s, limit)));
}

/// When the entries of `s` have distinct keys, a ranking of `s` names no key twice.
pub proof fn lemma_ranked_keys_distinct(s: Seq<ScoredKey>, limit: nat)
    requires
        forall|i: int, j: int| 0 <= i < j < s.len() ==> s[i].key@ != s[j].key@,
    ensures
        forall|a: int, b: int|
            0 <= a < b < ranked_keys(s, limit).len() ==> ranked_keys(s, limit)[a]@ != ranked_keys(
                s,
                limit,
            )[b]@,
{
    lemma_ranking_laws(s, limit);
    let t = ranked_positions(s, limit);
    assert forall|a: int, b: int| 0 <= a < b < ranked_keys(s, limit).len() implies ranked_keys(
        s,
        limit,
    )[a]@ != ranked_keys(s, limit)[b]@ by {
        assert(t[a] != t[b]);
        assert(ranked_keys(s, limit)[a] == s[t[a]].key);
        assert(ranked_keys(s, limit)[b] == s[t[b]].key);
        if t[a] < t[b] {
            assert(s[t[a]].key@ != s[t[b]].key@);
        } else {
            assert(s[t[b]].key@ != s[t[a]].key@);
        }
    }
}


/// Ranking before is transitive.
proof fn lemma_ranks_before_transitive(s: Seq<ScoredKey>, i: int, j: int, k: int)
    requires
        ranks_before(s, i, j),
        ranks_before(s, j, k),
    ensures
        ranks_before(s, i, k),
{
}

/// `t` lists positions of `s` in strict ranking order.
pub open spec fn in_ranking_order(s: Seq<ScoredKey>, t: Seq<usize>) -> bool {
    forall|a: int, b: int| 0 <= a < b < t.len() ==> ranks_before(s, t[a] as int, t[b] as int)
}

/// A list of all positions of `s` in strict ranking order is the ranking of `s`.
proof fn lemma_ordered_positions_are_top(s: Seq<ScoredKey>, t: Seq<usize>)
    requires
        t.len() == s.len(),
        s.len() <= usize::MAX,
        in_ranking_order(s, t),
        forall|a: int| 0 <= a < t.len() ==> t[a] < s.len(),
        forall|x: usize| x < s.len() ==> #[trigger] t.contains(x),
    ensures
        forall|k: nat|
            k <= s.len() ==> #[trigger] top_positions(s, k) == t.take(k as int).map_values(
                |x: usize| x as int,
            ),
{
    assert forall|k: nat| k <= s.len() implies #[trigger] top_positions(s, k) == t.take(
        k as int,
    ).map_values(|x: usize| x as int) by {
        lemma_ordered_prefix_is_top(s, t, k);
    }
}

proof fn lemma_ordered_prefix_is_top(s: Seq<ScoredKey>, t: Seq<usize>, k: nat)
    requires
        t.len() == s.len(),
        s.len() <= usize::MAX,
        in_ranking_order(s, t),
        forall|a: int| 0 <= a < t.len() ==> t[a] < s.len(),
        forall|x: usize| x < s.len() ==> #[trigger] t.contains(x),
        k <= s.len(),
    ensures
        top_positions(s, k) == t.take(k as int).map_values(|x: usize| x as int),
    decreases k,
{
    if k > 0 {
        let k1 = (k - 1) as nat;
        lemma_ordered_prefix_is_top(s, t, k1);
        let p = top_positions(s, k1);
        let j = t[k1 as int] as int;
        assert forall|kk: int| 0 <= kk < s.len() && !p.contains(kk) && kk != j implies #[trigger] ranks_before(
            s,
            j,
            kk,
        ) by {
            assert(t.contains(kk as usize));
            let c = choose|c: int| 0 <= c < t.len() && t[c] == kk as usize;
            if c < k1 {
                assert(p[c] == kk);
            } else if c == k1 {
            } else {
                assert(ranks_before(s, t[k1 as int] as int, t[c] as int));
            }
        }
        if p.contains(j) {
            let c = choose|c: int| 0 <= c < p.len() && p[c] == j;
            assert(p[c] == t[c] as int);
            assert(ranks_before(s, t[c] as int, t[k1 as int] as int));
        }
        assert(is_best_remaining(s, p, j));
        lemma_best_is_unique(s, p, j);
        assert(t.take(k as int).map_values(|x: usize| x as int) =~= p.push(j));
    } else {
        assert(t.take(0).map_values(|x: usize| x as int) =~= Seq::<int>::empty());
    }
}

/// Merges two lists of positions, each in ranking order, where every position
/// of `a` is smaller than every position of `b`.
fn merge_positions(scored: &[ScoredKey], a: Vec<usize>, b: Vec<usize>) -> (r: Vec<usize>)
    requires
        in_ranking_order(scored@, a@),
        in_ranking_order(scored@, b@),
        forall|i: int| 0 <= i < a@.len() ==> a@[i] < scored@.len(),
        forall|i: int| 0 <= i < b@.len() ==> b@[i] < scored@.len(),
        forall|x: int, y: int| 0 <= x < a@.len() && 0 <= y < b@.len() ==> a@[x] != b@[y],
    ensures
        r@.len() == a@.len() + b@.len(),
        in_ranking_order(scored@, r@),
        forall|i: int| 0 <= i < r@.len() ==> r@[i] < scored@.len(),
        forall|x: usize| r@.contains(x) <==> (a@.contains(x) || b@.contains(x)),
{
    let ghost s = scored@;
    let mut r: Vec<usize> = Vec::new();
    let mut i: usize = 0;
    let mut j: usize = 0;
    while i < a.len() || j < b.len()
        invariant
            s == scored@,
            in_ranking_order(s, a@),
            in_ranking_order(s, b@),
            forall|x: int| 0 <= x < a@.len() ==> a@[x] < s.len(),
            forall|x: int| 0 <= x < b@.len() ==> b@[x] < s.len(),
            forall|x: int, y: int| 0 <= x < a@.len() && 0 <= y < b@.len() ==> a@[x] != b@[y],
            i <= a@.len(),
            j <= b@.len(),
            r@.len() == i + j,
            in_ranking_order(s, r@),
            forall|x: int| 0 <= x < r@.len() ==> r@[x] < s.len(),
            forall|x: usize| r@.contains(x) <==> (a@.take(i as int).contains(x) || b@.take(j as int).contains(x)),
            r@.len() > 0 && i < a@.len() ==> ranks_before(s, r@.last() as int, a@[i as int] as int),
            r@.len() > 0 && j < b@.len() ==> ranks_before(s, r@.last() as int, b@[j as int] as int),
        decreases a@.len() + b@.len() - i - j,
    {
        let take_a = if i < a.len() && j < b.len() {
            let pa = scored[a[i]].priority;
            let pb = scored[b[j]].priority;
            pa > pb || (pa == pb && a[i] < b[j])
        } else {
            i < a.len()
        };
        let ghost old_r = r@;
        let x = if take_a { a[i] } else { b[j] };
        r.push(x);
        proof {
            assert forall|u: int, v: int| 0 <= u < v < r@.len() implies ranks_before(s, r@[u] as int, r@[v] as int) by {
                if v == r@.len() - 1 && u < v {
                    if u < old_r.len() - 1 {
                        lemma_ranks_before_transitive(s, r@[u] as int, old_r.last() as int, x as int);
                    }
                }
            }
        }
        if take_a {
            proof {
                if i + 1 < a@.len() {
                    assert(ranks_before(s, a@[i as int] as int, a@[i + 1] as int));
                }
                assert(a@.take(i + 1) =~= a@.take(i as int).push(a@[i as int]));
            }
            i = i + 1;
        } else {
            proof {
                if j + 1 < b@.len() {
                    assert(ranks_before(s, b@[j as int] as int, b@[j + 1] as int));
                }
                if i < a@.len() {
                    assert(ranks_before(s, b@[j as int] as int, a@[i as int] as int));
                }
                assert(b@.take(j + 1) =~= b@.take(j as int).push(b@[j as int]));
            }
            j = j + 1;
        }
        proof {
            assert forall|y: usize| r@.contains(y) <==> (a@.take(i as int).contains(y) || b@.take(
                j as int,
            ).contains(y)) by {
                assert(r@ == old_r.push(x));
                vstd::seq_lib::lemma_seq_contains_after_push(old_r, x, y);
                if take_a {
                    assert(a@.take(i as int) == a@.take(i - 1).push(x));
                    vstd::seq_lib::lemma_seq_contains_after_push(a@.take(i - 1), x, y);
                } else {
                    assert(b@.take(j as int) == b@.take(j - 1).push(x));
                    vstd::seq_lib::lemma_seq_contains_after_push(b@.take(j - 1), x, y);
                }
            }
        }
    }
    assert(a@.take(a@.len() as int) =~= a@);
    assert(b@.take(b@.len() as int) =~= b@);
    r
}

/// The positions `lo..hi` of `scored` in ranking order.
fn sorted_positions(scored: &[ScoredKey], lo: usize, hi: usize) -> (r: Vec<usize>)
    requires
        lo <= hi <= scored@.len(),
    ensures
        r@.len() == hi - lo,
        in_ranking_order(scored@, r@),
        forall|i: int| 0 <= i < r@.len() ==> lo <= #[trigger] r@[i] < hi,
        forall|x: usize| lo <= x < hi ==> r@.contains(x),
    decreases hi - lo,
{
    if hi - lo <= 1 {
        let mut r: Vec<usize> = Vec::new();
        if hi > lo {
            r.push(lo);
            assert(r@[0] == lo);
        }
        return r;
    }
    let mid = lo + (hi - lo) / 2;
    let a = sorted_positions(scored, lo, mid);
    let b = sorted_positions(scored, mid, hi);
    assert forall|x: int, y: int| 0 <= x < a@.len() && 0 <= y < b@.len() implies a@[x] != b@[y] by {
        assert(lo <= a@[x] < mid);
        assert(mid <= b@[y] < hi);
    }
    let r = merge_positions(scored, a, b);
    proof {
        assert forall|i: int| 0 <= i < r@.len() implies lo <= #[trigger] r@[i] < hi by {
            assert(r@.contains(r@[i]));
            if a@.contains(r@[i]) {
                let c = choose|c: int| 0 <= c < a@.len() && a@[c] == r@[i];
            } else {
                let c = choose|c: int| 0 <= c < b@.len() && b@[c] == r@[i];
            }
        }
        assert forall|x: usize| lo <= x < hi implies r@.contains(x) by {
            if x < mid {
                assert(a@.contains(x));
            } else {
                assert(b@.contains(x));
            }
        }
    }
    r
}

/// The keys of the at most `limit` entries of `scored` with the highest
/// priorities, highest first; among equal priorities, in input order.
pub fn rank_keys(scored: &[ScoredKey], limit: usize) -> (r: Vec<String>)
    ensures
        r@ == ranked_keys(scored@, limit as nat),
{
    let n = scored.len();
    let m = if limit < n { limit } else { n };
    let order = sorted_positions(scored, 0, n);
    proof {
        lemma_ordered_positions_are_top(scored@, order@);
        lemma_ranking_prefix(scored@, m as nat, n as nat);
        lemma_top_positions_len(scored@, n as nat);
    }
    let mut out: Vec<String> = Vec::new();
    for i in 0..m
        invariant
            m <= n,
            n == scored@.len(),
            m == ranked_len(n as nat, limit as nat),
            order@.len() == n,
            forall|a: int| 0 <= a < order@.len() ==> order@[a] < n,
            top_positions(scored@, m as nat) == top_positions(scored@, n as nat).take(m as int),
            top_positions(scored@, n as nat) == order@.take(n as int).map_values(|x: usize| x as int),
            out@ =~= top_positions(scored@, n as nat).take(i as int).map_values(|p: int| scored@[p].key),
    {
        let p = order[i];
        out.push(scored[p].key.clone());
        proof {
            assert(top_positions(scored@, n as nat)[i as int] == p as int);
            assert(top_positions(scored@, n as nat).take(i + 1) =~= top_positions(scored@, n as nat).take(i as int).push(p as int));
        }
    }
    assert(top_positions(scored@, n as nat).take(m as int) =~= top_positions(scored@, m as nat));
    out
}

} // verus!
