//! Transcoding selector: rank the available media variants of a track by a
//! fixed priority list of preset prefixes and pick the best one.
//!
//! The ranking is a stable sort: candidates are grouped by priority, and
//! within one priority group the feed order is kept. A candidate whose
//! preset matches no known prefix ranks last.

use vstd::prelude::*;

use crate::model::{Transcoding, TransInfo, infos_of};
use crate::strtool::{
    spec_has_prefix, str_has_prefix, lemma_filter_snoc, lemma_filter_none, lemma_filter_all,
    lemma_filter_app,
};

verus! {

/// Rank of a preset label: position of the first matching prefix in the
/// fixed priority list, or the number of known prefixes when none matches.
pub open spec fn spec_priority(preset: Seq<char>) -> int {
    if spec_has_prefix(preset, "aac_256k"@) {
        0
    } else if spec_has_prefix(preset, "aac_160k"@) {
        1
    } else if spec_has_prefix(preset, "aac_"@) {
        2
    } else if spec_has_prefix(preset, "mp3_"@) {
        3
    } else {
        4
    }
}

/// The predicate picking the candidates of rank `p`.
pub open spec fn has_rank(p: int) -> spec_fn(TransInfo) -> bool {
    |t: TransInfo| spec_priority(t.preset) == p
}

/// The candidates of rank `p`, in their original order.
pub open spec fn rank_bucket(s: Seq<TransInfo>, p: int) -> Seq<TransInfo> {
    s.filter(has_rank(p))
}

/// The rank buckets `0 .. k`, concatenated in order of rank.
pub open spec fn ranked_upto(s: Seq<TransInfo>, k: int) -> Seq<TransInfo>
    decreases k,
{
    if k <= 0 {
        Seq::<TransInfo>::empty()
    } else {
        ranked_upto(s, k - 1) + rank_bucket(s, k - 1)
    }
}

/// The candidates in priority order: best rank first, feed order kept
/// within one rank.
pub open spec fn spec_ranked(s: Seq<TransInfo>) -> Seq<TransInfo> {
    ranked_upto(s, 5)
}

/// Rank of one preset label.
pub fn priority_of(preset: &str) -> (p: usize)
    ensures
        p == spec_priority(preset@),
{
    if str_has_prefix(preset, "aac_256k") {
        0
    } else if str_has_prefix(preset, "aac_160k") {
        1
    } else if str_has_prefix(preset, "aac_") {
        2
    } else if str_has_prefix(preset, "mp3_") {
        3
    } else {
        4
    }
}

/// A fresh list holding the same candidates in priority order.
pub fn ranked_copy(items: &Vec<Transcoding>) -> (r: Vec<Transcoding>)
    ensures
        infos_of(r@) == spec_ranked(infos_of(items@)),
{
    let ghost s = infos_of(items@);
    let mut out: Vec<Transcoding> = Vec::new();
    let mut p: usize = 0;
    while p < 5
        invariant
            0 <= p <= 5,
            s == infos_of(items@),
            infos_of(out@) == ranked_upto(s, p as int),
        decreases 5 - p,
    {
        let n = items.len();
        let mut i: usize = 0;
        while i < n
            invariant
                0 <= i <= n,
                p < 5,
                n == items@.len(),
                s == infos_of(items@),
                infos_of(out@) == ranked_upto(s, p as int) + rank_bucket(
                    s.take(i as int),
                    p as int,
                ),
            decreases n - i,
        {
            let pr = priority_of(items[i].preset.as_str());
            proof {
                lemma_filter_snoc(s.take(i as int), has_rank(p as int), s[i as int]);
                assert(s.take(i as int).push(s[i as int]) =~= s.take(i + 1 as int));
                assert(s[i as int] == items@[i as int]@);
            }
            if pr == p {
                let d = items[i].duplicate();
                proof {
                    let a = ranked_upto(s, p as int);
                    let bi = rank_bucket(s.take(i as int), p as int);
                    assert(rank_bucket(s.take(i + 1 as int), p as int) == bi.push(s[i as int]));
                    assert(a + bi.push(s[i as int]) =~= (a + bi).push(s[i as int]));
                }
                out.push(d);
                proof {
                    assert(infos_of(out@) =~= (ranked_upto(s, p as int) + rank_bucket(
                        s.take(i as int),
                        p as int,
                    )).push(s[i as int]));
                }
            } else {
                proof {
                    assert(infos_of(out@) =~= ranked_upto(s, p as int) + rank_bucket(
                        s.take(i + 1 as int),
                        p as int,
                    ));
                }
            }
            i += 1;
        }
        proof {
            assert(s.take(n as int) =~= s);
        }
        p += 1;
    }
    out
}

/// Reorder the candidates in place into priority order. The contract
/// pins the result completely: each rank keeps its feed order, ranks
/// come lowest-number (best) first.
pub fn sort_by_priority(items: &mut Vec<Transcoding>)
    ensures
        infos_of(final(items)@) == spec_ranked(infos_of(old(items)@)),
{
    let r = ranked_copy(items);
    *items = r;
}

/// The best available candidate: the first one of the ranked order, or
/// nothing when the track offers no candidates at all.
pub fn best_transcoding(items: &Vec<Transcoding>) -> (r: Option<Transcoding>)
    ensures
        (r is Some) <==> items@.len() > 0,
        r is Some ==> r->0@ == spec_ranked(infos_of(items@))[0],
{
    proof {
        lemma_ranked_len(infos_of(items@));
    }
    let ranked = ranked_copy(items);
    if ranked.len() == 0 {
        None
    } else {
        let d = ranked[0].duplicate();
        proof {
            assert(d@ == infos_of(ranked@)[0]);
        }
        Some(d)
    }
}

/// The ranked order written out bucket by bucket.
pub proof fn lemma_ranked_unfold(s: Seq<TransInfo>)
    ensures
        spec_ranked(s) == Seq::<TransInfo>::empty() + rank_bucket(s, 0) + rank_bucket(s, 1)
            + rank_bucket(s, 2) + rank_bucket(s, 3) + rank_bucket(s, 4),
{
    reveal_with_fuel(ranked_upto, 6);
}

/// The ranked order is a permutation: it has exactly one slot per
/// candidate.
pub proof fn lemma_ranked_len(s: Seq<TransInfo>)
    ensures
        spec_ranked(s).len() == s.len(),
    decreases s.len(),
{
    reveal(Seq::filter);
    lemma_ranked_unfold(s);
    if s.len() == 0 {
        assert(spec_ranked(s).len() == 0);
    } else {
        lemma_ranked_unfold(s.drop_last());
        let t = s.drop_last();
        let x = s.last();
        lemma_ranked_len(t);
        assert(t.push(x) =~= s);
        lemma_filter_snoc(t, has_rank(0), x);
        lemma_filter_snoc(t, has_rank(1), x);
        lemma_filter_snoc(t, has_rank(2), x);
        lemma_filter_snoc(t, has_rank(3), x);
        lemma_filter_snoc(t, has_rank(4), x);
        assert(0 <= spec_priority(x.preset) <= 4);
    }
}

/// Every rank is between 0 and 4.
pub proof fn lemma_priority_range(preset: Seq<char>)
    ensures
        0 <= spec_priority(preset) <= 4,
{
}

/// No candidate of rank `p` exists when bucket `p` is empty.
proof fn lemma_empty_bucket(s: Seq<TransInfo>, p: int)
    requires
        rank_bucket(s, p).len() == 0,
    ensures
        forall|j: int| 0 <= j < s.len() ==> spec_priority(s[j].preset) != p,
{
    assert forall|j: int| 0 <= j < s.len() implies spec_priority(s[j].preset) != p by {
        if spec_priority(s[j].preset) == p {
            s.lemma_filter_contains(has_rank(p), j);
        }
    }
}

/// The winner of the ranking has the best (smallest) rank of all
/// candidates.
pub proof fn lemma_best_has_top_priority(s: Seq<TransInfo>)
    requires
        s.len() > 0,
    ensures
        spec_ranked(s).len() == s.len(),
        forall|j: int|
            0 <= j < s.len() ==> spec_priority(spec_ranked(s)[0].preset) <= spec_priority(
                s[j].preset,
            ),
{
    lemma_ranked_len(s);
    lemma_ranked_unfold(s);
    let b0 = rank_bucket(s, 0);
    let b1 = rank_bucket(s, 1);
    let b2 = rank_bucket(s, 2);
    let b3 = rank_bucket(s, 3);
    let b4 = rank_bucket(s, 4);
    assert(spec_ranked(s) == Seq::<TransInfo>::empty() + b0 + b1 + b2 + b3 + b4);
    if b0.len() > 0 {
        assert(spec_ranked(s)[0] == b0[0]);
        s.lemma_filter_pred(has_rank(0), 0);
        assert forall|j: int| 0 <= j < s.len() implies spec_priority(spec_ranked(s)[0].preset)
            <= spec_priority(s[j].preset) by {
            lemma_priority_range(s[j].preset);
        }
    } else if b1.len() > 0 {
        assert(spec_ranked(s)[0] == b1[0]);
        s.lemma_filter_pred(has_rank(1), 0);
        lemma_empty_bucket(s, 0);
    } else if b2.len() > 0 {
        assert(spec_ranked(s)[0] == b2[0]);
        s.lemma_filter_pred(has_rank(2), 0);
        lemma_empty_bucket(s, 0);
        lemma_empty_bucket(s, 1);
    } else if b3.len() > 0 {
        assert(spec_ranked(s)[0] == b3[0]);
        s.lemma_filter_pred(has_rank(3), 0);
        lemma_empty_bucket(s, 0);
        lemma_empty_bucket(s, 1);
        lemma_empty_bucket(s, 2);
    } else {
        assert(b4.len() > 0);
        assert(spec_ranked(s)[0] == b4[0]);
        s.lemma_filter_pred(has_rank(4), 0);
        assert forall|j: int| 0 <= j < s.len() implies spec_priority(spec_ranked(s)[0].preset)
            <= spec_priority(s[j].preset) by {
            lemma_empty_bucket(s, 0);
            lemma_empty_bucket(s, 1);
            lemma_empty_bucket(s, 2);
            lemma_empty_bucket(s, 3);
            lemma_priority_range(s[j].preset);
        }
    }
}

/// Stability: the ranked order keeps, within every rank, exactly the
/// candidates of that rank in their original relative order.
pub proof fn lemma_ranking_is_stable(s: Seq<TransInfo>, p: int)
    requires
        0 <= p <= 4,
    ensures
        rank_bucket(spec_ranked(s), p) == rank_bucket(s, p),
{
    lemma_ranked_unfold(s);
    let b0 = rank_bucket(s, 0);
    let b1 = rank_bucket(s, 1);
    let b2 = rank_bucket(s, 2);
    let b3 = rank_bucket(s, 3);
    let b4 = rank_bucket(s, 4);
    lemma_bucket_of_bucket(s, 0, p);
    lemma_bucket_of_bucket(s, 1, p);
    lemma_bucket_of_bucket(s, 2, p);
    lemma_bucket_of_bucket(s, 3, p);
    lemma_bucket_of_bucket(s, 4, p);
    lemma_filter_app(Seq::<TransInfo>::empty(), b0, has_rank(p));
    lemma_filter_app(Seq::<TransInfo>::empty() + b0, b1, has_rank(p));
    lemma_filter_app(Seq::<TransInfo>::empty() + b0 + b1, b2, has_rank(p));
    lemma_filter_app(Seq::<TransInfo>::empty() + b0 + b1 + b2, b3, has_rank(p));
    lemma_filter_app(Seq::<TransInfo>::empty() + b0 + b1 + b2 + b3, b4, has_rank(p));
    reveal(Seq::filter);
    assert(rank_bucket(spec_ranked(s), p) =~= rank_bucket(s, p));
}

/// Filtering one bucket by another rank keeps it or empties it.
proof fn lemma_bucket_of_bucket(s: Seq<TransInfo>, q: int, p: int)
    ensures
        rank_bucket(rank_bucket(s, q), p) == (if p == q {
            rank_bucket(s, q)
        } else {
            Seq::<TransInfo>::empty()
        }),
{
    let b = rank_bucket(s, q);
    assert forall|i: int| 0 <= i < b.len() implies spec_priority(b[i].preset) == q by {
        s.lemma_filter_pred(has_rank(q), i);
    }
    if p == q {
        lemma_filter_all(b, has_rank(p));
    } else {
        lemma_filter_none(b, has_rank(p));
    }
}

/// When no candidate matches any known prefix, ranking keeps the feed
/// order unchanged.
pub proof fn lemma_unknown_presets_keep_order(s: Seq<TransInfo>)
    requires
        forall|j: int| 0 <= j < s.len() ==> spec_priority(#[trigger] s[j].preset) == 4,
    ensures
        spec_ranked(s) == s,
{
    lemma_filter_none(s, has_rank(0));
    lemma_filter_none(s, has_rank(1));
    lemma_filter_none(s, has_rank(2));
    lemma_filter_none(s, has_rank(3));
    lemma_filter_all(s, has_rank(4));
    lemma_ranked_unfold(s);
    assert(spec_ranked(s) =~= s);
}

} // verus!
