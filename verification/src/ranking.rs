//! Ranking of retrieved chunks across namespaces: every candidate is ordered
//! together by distance, passages far worse than the best one are dropped, and
//! the best `top_k` are kept.

use vstd::prelude::*;
use crate::text::{owned, reversed};

verus! {

/// Relevance floor, relative to the best hit of the same query: a passage more
/// than this many times farther than the best one is dropped.
pub const RELATIVE_DISTANCE_FLOOR: u64 = 3;

/// Keeps an exact match (distance 0) from making every other passage look
/// irrelevant: the cutoff never goes below this. In millionths, so 0.1.
pub const MIN_DISTANCE_CUTOFF: u64 = 100_000;

/// A hit plus the namespace it came from.
///
/// `distance` is the squared-L2 distance the vector store reported, as a whole
/// number of millionths; `None` where the store gave no score.
#[derive(Debug)]
pub struct Candidate {
    pub namespace: String,
    pub doc_id: String,
    pub chunk_index: i32,
    pub text: String,
    pub distance: Option<u32>,
}

impl Candidate {
    /// Namespace, document and chunk: what identifies a chunk in the store.
    pub fn key(&self) -> (k: (String, String, i32))
        ensures
            k.0@ == self.namespace@,
            k.1@ == self.doc_id@,
            k.2 == self.chunk_index,
    {
        (owned(self.namespace.as_str()), owned(self.doc_id.as_str()), self.chunk_index)
    }
}

/// Distance order: scored chunks by distance, unscored ones after all of them.
pub open spec fn distance_le(a: Option<u32>, b: Option<u32>) -> bool {
    match (a, b) {
        (_, None) => true,
        (None, Some(_)) => false,
        (Some(x), Some(y)) => x <= y,
    }
}

/// Whether `s` is ordered by distance.
pub open spec fn sorted_by_distance(s: Seq<Candidate>) -> bool {
    forall|i: int, j: int| 0 <= i < j < s.len() ==> distance_le(#[trigger] s[i].distance, #[trigger] s[j].distance)
}

/// How many leading elements of `sorted` are not farther than `d`.
pub open spec fn leading_not_farther(sorted: Seq<Candidate>, d: Option<u32>) -> nat
    decreases sorted.len(),
{
    if sorted.len() == 0 {
        0
    } else if distance_le(sorted[0].distance, d) {
        1 + leading_not_farther(sorted.drop_first(), d)
    } else {
        0
    }
}

/// `s` ordered by distance, stably: equal distances keep their input order.
/// Each element is placed after every earlier element that is not farther.
pub open spec fn sorted_stably(s: Seq<Candidate>) -> Seq<Candidate>
    decreases s.len(),
{
    if s.len() == 0 {
        Seq::empty()
    } else {
        let rest = sorted_stably(s.drop_last());
        rest.insert(leading_not_farther(rest, s.last().distance) as int, s.last())
    }
}

/// The smallest scored distance in `s`, if any chunk was scored.
pub open spec fn best_distance(s: Seq<Candidate>) -> Option<u32>
    decreases s.len(),
{
    if s.len() == 0 {
        None
    } else {
        let rest = best_distance(s.drop_last());
        match (rest, s.last().distance) {
            (None, d) => d,
            (Some(b), None) => Some(b),
            (Some(b), Some(d)) => if d < b { Some(d) } else { Some(b) },
        }
    }
}

/// The farthest distance still kept when the best hit is at `best`.
pub open spec fn cutoff_for(best: u32) -> int {
    let scaled = best as int * RELATIVE_DISTANCE_FLOOR as int;
    if scaled > MIN_DISTANCE_CUTOFF as int {
        scaled
    } else {
        MIN_DISTANCE_CUTOFF as int
    }
}

/// Whether a chunk at distance `d` survives when the best hit is `best`:
/// unscored chunks always do, and nothing is dropped when nothing was scored.
pub open spec fn within_cutoff(d: Option<u32>, best: Option<u32>) -> bool {
    match (best, d) {
        (None, _) => true,
        (_, None) => true,
        (Some(b), Some(x)) => x as int <= cutoff_for(b),
    }
}

/// The elements of `s` that survive the cutoff, in order.
pub open spec fn kept_within(s: Seq<Candidate>, best: Option<u32>) -> Seq<Candidate>
    decreases s.len(),
{
    if s.len() == 0 {
        Seq::empty()
    } else {
        let rest = kept_within(s.drop_last(), best);
        if within_cutoff(s.last().distance, best) {
            rest.push(s.last())
        } else {
            rest
        }
    }
}

/// The ranking: every candidate ordered together by distance, the ones beyond
/// the cutoff dropped, and at most `top_k` kept.
pub open spec fn ranked(candidates: Seq<Candidate>, top_k: nat) -> Seq<Candidate> {
    let kept = kept_within(sorted_stably(candidates), best_distance(candidates));
    if kept.len() > top_k {
        kept.take(top_k as int)
    } else {
        kept
    }
}

proof fn lemma_leading_not_farther(sorted: Seq<Candidate>, d: Option<u32>)
    requires
        sorted_by_distance(sorted),
    ensures
        leading_not_farther(sorted, d) <= sorted.len(),
        forall|i: int| 0 <= i < leading_not_farther(sorted, d) ==> distance_le(#[trigger] sorted[i].distance, d),
        forall|i: int| leading_not_farther(sorted, d) <= i < sorted.len() ==> !distance_le(#[trigger] sorted[i].distance, d),
    decreases sorted.len(),
{
    if sorted.len() > 0 {
        let tail = sorted.drop_first();
        assert forall|i: int, j: int| 0 <= i < j < tail.len() implies distance_le(#[trigger] tail[i].distance, #[trigger] tail[j].distance) by {
            assert(sorted[i + 1] == tail[i] && sorted[j + 1] == tail[j]);
        }
        lemma_leading_not_farther(tail, d);
        let n = leading_not_farther(sorted, d);
        if distance_le(sorted[0].distance, d) {
            assert forall|i: int| 0 <= i < n implies distance_le(#[trigger] sorted[i].distance, d) by {
                if i > 0 {
                    assert(sorted[i] == tail[i - 1]);
                }
            }
            assert forall|i: int| n <= i < sorted.len() implies !distance_le(#[trigger] sorted[i].distance, d) by {
                assert(sorted[i] == tail[i - 1]);
            }
        } else {
            assert forall|i: int| 0 <= i < sorted.len() implies !distance_le(#[trigger] sorted[i].distance, d) by {
                if i > 0 {
                    assert(distance_le(sorted[0].distance, sorted[i].distance));
                }
            }
        }
    }
}

/// Sorting orders by distance and keeps every candidate exactly once.
pub proof fn lemma_sorted_stably(s: Seq<Candidate>)
    ensures
        sorted_by_distance(sorted_stably(s)),
        sorted_stably(s).to_multiset() == s.to_multiset(),
        sorted_stably(s).len() == s.len(),
    decreases s.len(),
{
    broadcast use vstd::multiset::group_multiset_axioms;
    broadcast use vstd::seq_lib::group_to_multiset_ensures;

    if s.len() > 0 {
        let rest = sorted_stably(s.drop_last());
        lemma_sorted_stably(s.drop_last());
        let x = s.last();
        let p = leading_not_farther(rest, x.distance) as int;
        lemma_leading_not_farther(rest, x.distance);
        let r = rest.insert(p, x);
        assert forall|i: int, j: int| 0 <= i < j < r.len() implies distance_le(#[trigger] r[i].distance, #[trigger] r[j].distance) by {
            if j < p {
                assert(r[i] == rest[i] && r[j] == rest[j]);
            } else if j == p {
                assert(r[i] == rest[i]);
            } else if i < p {
                assert(r[i] == rest[i] && r[j] == rest[j - 1]);
                assert(distance_le(rest[i].distance, x.distance));
                assert(!distance_le(rest[j - 1].distance, x.distance));
            } else if i == p {
                assert(r[j] == rest[j - 1]);
                assert(!distance_le(rest[j - 1].distance, x.distance));
            } else {
                assert(r[i] == rest[i - 1] && r[j] == rest[j - 1]);
            }
        }
        vstd::seq_lib::to_multiset_insert(rest, p, x);
        assert(s =~= s.drop_last().push(x));
        vstd::seq_lib::to_multiset_build(s.drop_last(), x);
    }
}

/// Sorts `candidates` by distance, stably.
pub fn sort_by_distance(candidates: Vec<Candidate>) -> (sorted: Vec<Candidate>)
    ensures
        sorted@ == sorted_stably(candidates@),
{
    let ghost input = candidates@;
    let n = candidates.len();
    let mut pending = reversed(candidates);
    let mut sorted: Vec<Candidate> = Vec::new();
    let mut i: usize = 0;
    while pending.len() > 0
        invariant
            input.len() == n,
            i <= n,
            pending@.len() == n - i,
            pending@.reverse() == input.skip(i as int),
            sorted@ == sorted_stably(input.take(i as int)),
        decreases pending@.len(),
    {
        let ghost pv = pending@;
        let c = pending.pop().unwrap();
        proof {
            assert(pv.reverse()[0] == pv.last());
            assert(input.skip(i as int)[0] == input[i as int]);
            assert(pv.drop_last().reverse() =~= pv.reverse().drop_first());
            assert(input.skip(i as int).drop_first() =~= input.skip(i + 1));
            assert(input.take(i + 1).drop_last() =~= input.take(i as int));
            assert(input.take(i + 1).last() == c);
            lemma_sorted_stably(input.take(i as int));
            lemma_leading_not_farther(sorted@, c.distance);
        }
        let mut j: usize = 0;
        let mut found = false;
        while !found && j < sorted.len()
            invariant
                j <= sorted@.len(),
                sorted_by_distance(sorted@),
                j <= leading_not_farther(sorted@, c.distance),
                found ==> j == leading_not_farther(sorted@, c.distance),
                leading_not_farther(sorted@, c.distance) <= sorted@.len(),
                forall|k: int| 0 <= k < leading_not_farther(sorted@, c.distance) ==> distance_le(#[trigger] sorted@[k].distance, c.distance),
                forall|k: int| leading_not_farther(sorted@, c.distance) <= k < sorted@.len() ==> !distance_le(#[trigger] sorted@[k].distance, c.distance),
            decreases sorted@.len() - j, (if found { 0int } else { 1int }),
        {
            let not_farther = match (sorted[j].distance, c.distance) {
                (_, None) => true,
                (None, Some(_)) => false,
                (Some(x), Some(y)) => x <= y,
            };
            if not_farther {
                j = j + 1;
            } else {
                found = true;
            }
        }
        sorted.insert(j, c);
        i = i + 1;
    }
    assert(input.take(n as int) =~= input);
    sorted
}

fn best_of(candidates: &Vec<Candidate>) -> (best: Option<u32>)
    ensures
        best == best_distance(candidates@),
{
    let mut best: Option<u32> = None;
    let mut i: usize = 0;
    while i < candidates.len()
        invariant
            i <= candidates@.len(),
            best == best_distance(candidates@.take(i as int)),
        decreases candidates@.len() - i,
    {
        proof {
            assert(candidates@.take(i + 1).drop_last() =~= candidates@.take(i as int));
            assert(candidates@.take(i + 1).last() == candidates@[i as int]);
        }
        best = match (best, candidates[i].distance) {
            (None, d) => d,
            (Some(b), None) => Some(b),
            (Some(b), Some(d)) => if d < b { Some(d) } else { Some(b) },
        };
        i = i + 1;
    }
    assert(candidates@.take(candidates@.len() as int) =~= candidates@);
    best
}

fn is_within_cutoff(d: Option<u32>, best: Option<u32>) -> (keep: bool)
    ensures
        keep == within_cutoff(d, best),
{
    match (best, d) {
        (None, _) => true,
        (_, None) => true,
        (Some(b), Some(x)) => {
            let scaled = (b as u64) * RELATIVE_DISTANCE_FLOOR;
            let cutoff = if scaled > MIN_DISTANCE_CUTOFF { scaled } else { MIN_DISTANCE_CUTOFF };
            (x as u64) <= cutoff
        },
    }
}

/// Ranks every candidate together and keeps the best `top_k`: ordered by
/// distance whatever namespace it came from, dropping what is more than
/// `RELATIVE_DISTANCE_FLOOR` times farther than the best hit (never cutting
/// below `MIN_DISTANCE_CUTOFF`). Unscored chunks sort last and are never used
/// for the cutoff, so a missing score keeps a chunk instead of dropping all.
pub fn rank_candidates(candidates: Vec<Candidate>, top_k: usize) -> (r: Vec<Candidate>)
    ensures
        r@ == ranked(candidates@, top_k as nat),
{
    let best = best_of(&candidates);
    let sorted = sort_by_distance(candidates);
    let ghost sv = sorted@;
    let n = sorted.len();
    let mut pending = reversed(sorted);
    let mut kept: Vec<Candidate> = Vec::new();
    let mut i: usize = 0;
    while pending.len() > 0
        invariant
            sv.len() == n,
            i <= n,
            pending@.len() == n - i,
            pending@.reverse() == sv.skip(i as int),
            kept@ == kept_within(sv.take(i as int), best),
        decreases pending@.len(),
    {
        let ghost pv = pending@;
        let c = pending.pop().unwrap();
        proof {
            assert(pv.reverse()[0] == pv.last());
            assert(sv.skip(i as int)[0] == sv[i as int]);
            assert(pv.drop_last().reverse() =~= pv.reverse().drop_first());
            assert(sv.skip(i as int).drop_first() =~= sv.skip(i + 1));
            assert(sv.take(i + 1).drop_last() =~= sv.take(i as int));
            assert(sv.take(i + 1).last() == c);
        }
        if is_within_cutoff(c.distance, best) {
            kept.push(c);
        }
        i = i + 1;
    }
    assert(sv.take(n as int) =~= sv);
    if kept.len() > top_k {
        kept.truncate(top_k);
    }
    kept
}

proof fn lemma_best_distance(s: Seq<Candidate>)
    ensures
        best_distance(s) matches Some(b) ==> exists|i: int| 0 <= i < s.len() && s[i].distance == Some(b),
        best_distance(s) matches Some(b) ==> forall|i: int| 0 <= i < s.len() && s[i].distance is Some
            ==> b <= (#[trigger] s[i].distance)->0,
        best_distance(s) is None ==> forall|i: int| 0 <= i < s.len() ==> (#[trigger] s[i].distance) is None,
    decreases s.len(),
{
    if s.len() > 0 {
        let p = s.drop_last();
        lemma_best_distance(p);
        assert forall|i: int| 0 <= i < p.len() implies #[trigger] p[i] == s[i] by {}
        if let Some(b) = best_distance(s) {
            assert forall|i: int| 0 <= i < s.len() && s[i].distance is Some implies b <= (#[trigger] s[i].distance)->0 by {
                if i < p.len() {
                    assert(p[i].distance == s[i].distance);
                }
            }
        } else {
            assert forall|i: int| 0 <= i < s.len() implies (#[trigger] s[i].distance) is None by {
                if i < p.len() {
                    assert(p[i].distance == s[i].distance);
                }
            }
        }
        if let Some(b) = best_distance(s) {
            if best_distance(p) == Some(b) {
                let i = choose|i: int| 0 <= i < p.len() && p[i].distance == Some(b);
                assert(s[i].distance == Some(b));
            } else {
                assert(s[s.len() - 1].distance == Some(b));
            }
        }
    }
}

proof fn lemma_kept_within(s: Seq<Candidate>, best: Option<u32>)
    ensures
        kept_within(s, best).len() <= s.len(),
        sorted_by_distance(s) ==> sorted_by_distance(kept_within(s, best)),
        forall|i: int| 0 <= i < kept_within(s, best).len() ==> within_cutoff((#[trigger] kept_within(s, best)[i]).distance, best),
        kept_within(s, best).to_multiset().subset_of(s.to_multiset()),
        s.len() > 0 && within_cutoff(s[0].distance, best) ==> kept_within(s, best).len() > 0 && kept_within(s, best)[0] == s[0],
    decreases s.len(),
{
    broadcast use vstd::multiset::group_multiset_axioms;
    broadcast use vstd::seq_lib::group_to_multiset_ensures;

    if s.len() > 0 {
        let p = s.drop_last();
        lemma_kept_within(p, best);
        let kp = kept_within(p, best);
        let k = kept_within(s, best);
        assert(s =~= p.push(s.last()));
        if sorted_by_distance(s) {
            assert forall|i: int, j: int| 0 <= i < j < p.len() implies distance_le(#[trigger] p[i].distance, #[trigger] p[j].distance) by {
                assert(p[i] == s[i] && p[j] == s[j]);
            }
            if within_cutoff(s.last().distance, best) {
                // every kept element of the prefix sits before the last one
                assert forall|i: int| 0 <= i < kp.len() implies distance_le(#[trigger] kp[i].distance, s.last().distance) by {
                    assert(kp.to_multiset().count(kp[i]) > 0);
                    assert(p.to_multiset().count(kp[i]) > 0);
                    assert(p.contains(kp[i]));
                    let j = choose|j: int| 0 <= j < p.len() && p[j] == kp[i];
                    assert(s[j] == p[j]);
                    assert(distance_le(s[j].distance, s[s.len() - 1].distance));
                }
                assert forall|i: int, j: int| 0 <= i < j < k.len() implies distance_le(#[trigger] k[i].distance, #[trigger] k[j].distance) by {
                    if j < kp.len() {
                        assert(k[i] == kp[i] && k[j] == kp[j]);
                    } else {
                        assert(k[i] == kp[i]);
                    }
                }
            }
        }
        if within_cutoff(s.last().distance, best) {
            assert forall|i: int| 0 <= i < k.len() implies within_cutoff((#[trigger] k[i]).distance, best) by {
                if i < kp.len() {
                    assert(k[i] == kp[i]);
                }
            }
            assert(k.to_multiset() =~= kp.to_multiset().insert(s.last()));
            assert(s.to_multiset() =~= p.to_multiset().insert(s.last()));
        } else {
            assert(p.to_multiset().subset_of(s.to_multiset()));
        }
        if within_cutoff(s[0].distance, best) {
            if p.len() > 0 {
                assert(p[0] == s[0]);
                if within_cutoff(s.last().distance, best) {
                    assert(k[0] == kp[0]);
                }
            } else {
                assert(s.last() == s[0]);
            }
        }
    }
}

/// The ranking is ordered by distance, never longer than `top_k`, only holds
/// candidates it was given, keeps only what passes the cutoff, and its first
/// entry is the best-scored candidate whatever namespace that came from.
pub proof fn lemma_ranking(candidates: Seq<Candidate>, top_k: nat)
    ensures
        ({
            let r = ranked(candidates, top_k);
            &&& sorted_by_distance(r)
            &&& r.len() <= top_k
            &&& r.to_multiset().subset_of(candidates.to_multiset())
            &&& forall|i: int| 0 <= i < r.len() ==> within_cutoff((#[trigger] r[i]).distance, best_distance(candidates))
            &&& (best_distance(candidates) is Some && top_k > 0) ==> r.len() > 0 && r[0].distance == best_distance(candidates)
        }),
{
    broadcast use vstd::multiset::group_multiset_axioms;
    broadcast use vstd::seq_lib::group_to_multiset_ensures;

    let best = best_distance(candidates);
    let sorted = sorted_stably(candidates);
    lemma_sorted_stably(candidates);
    lemma_kept_within(sorted, best);
    let kept = kept_within(sorted, best);
    let r = ranked(candidates, top_k);
    if kept.len() > top_k {
        assert forall|i: int, j: int| 0 <= i < j < r.len() implies distance_le(#[trigger] r[i].distance, #[trigger] r[j].distance) by {
            assert(r[i] == kept[i] && r[j] == kept[j]);
        }
        assert forall|i: int| 0 <= i < r.len() implies within_cutoff((#[trigger] r[i]).distance, best) by {
            assert(r[i] == kept[i]);
        }
        assert(kept =~= r + kept.skip(top_k as int));
        vstd::seq_lib::lemma_multiset_commutative(r, kept.skip(top_k as int));
        assert(r.to_multiset().subset_of(kept.to_multiset()));
    }
    if let Some(b) = best {
        if top_k > 0 {
            lemma_best_distance(candidates);
            let w = choose|i: int| 0 <= i < candidates.len() && candidates[i].distance == Some(b);
            assert(candidates.to_multiset().count(candidates[w]) > 0);
            assert(sorted.to_multiset().count(candidates[w]) > 0);
            assert(sorted.contains(candidates[w]));
            let ws = choose|i: int| 0 <= i < sorted.len() && sorted[i] == candidates[w];
            assert(sorted.len() > 0);
            assert(distance_le(sorted[0].distance, sorted[ws].distance)) by {
                if ws > 0 {
                }
            };
            assert(candidates.contains(sorted[0])) by {
                assert(sorted.to_multiset().count(sorted[0]) > 0);
            };
            let f = choose|i: int| 0 <= i < candidates.len() && candidates[i] == sorted[0];
            assert(sorted[0].distance is Some);
            assert(b <= candidates[f].distance->0);
            assert(sorted[0].distance == Some(b));
            assert(within_cutoff(Some(b), Some(b)));
        }
    }
}

} // verus!
