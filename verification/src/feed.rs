//! Feed walker: sequentially consume pages of the remote activity feed,
//! deduplicate tracks across pages, apply the inclusion policy, skip tracks
//! whose target file already exists, and decide when enough tracks have
//! been collected.
//!
//! The remote fetch itself happens outside the library; each fetched page
//! is handed in as plain values, together with the list of already-present
//! target paths, and the walker's state advances deterministically.

use vstd::prelude::*;

use crate::model::{Track, TrackInfo, CollectionInfo, Settings, track_infos_of};
use crate::paths::{spec_track_path, get_track_path};
use crate::strtool::str_eq;

verus! {

/// The cast from a stored id to its mathematical value.
pub open spec fn id_cast() -> spec_fn(i64) -> int {
    |v: i64| v as int
}

/// The set of track ids seen so far in one run.
pub struct DedupSet {
    pub ids: Vec<i64>,
}

impl View for DedupSet {
    type V = Set<int>;

    open spec fn view(&self) -> Set<int> {
        self.ids@.map_values(id_cast()).to_set()
    }
}

impl DedupSet {
    /// An empty set.
    pub fn new() -> (r: DedupSet)
        ensures
            r@ == Set::<int>::empty(),
    {
        let r = DedupSet { ids: Vec::new() };
        proof {
            assert(r.ids@.map_values(id_cast()) =~= Seq::<int>::empty());
            assert(r@ =~= Set::<int>::empty());
        }
        r
    }

    /// Whether `id` was recorded before.
    pub fn contains(&self, id: i64) -> (r: bool)
        ensures
            r == self@.contains(id as int),
    {
        let ghost m = self.ids@.map_values(id_cast());
        let n = self.ids.len();
        let mut i: usize = 0;
        while i < n
            invariant
                0 <= i <= n,
                n == self.ids@.len(),
                m == self.ids@.map_values(id_cast()),
                forall|j: int| 0 <= j < i ==> self.ids@[j] != id,
            decreases n - i,
        {
            if self.ids[i] == id {
                proof {
                    assert(m[i as int] == id as int);
                    assert(m.contains(id as int));
                }
                return true;
            }
            i += 1;
        }
        proof {
            assert forall|j: int| 0 <= j < m.len() implies m[j] != id as int by {
                assert(self.ids@[j] != id);
            }
            assert(!m.contains(id as int));
        }
        false
    }

    /// Record `id`.
    pub fn insert(&mut self, id: i64)
        ensures
            final(self)@ == old(self)@.insert(id as int),
    {
        self.ids.push(id);
        proof {
            let om = old(self).ids@.map_values(id_cast());
            let nm = self.ids@.map_values(id_cast());
            assert(nm =~= om.push(id as int));
            assert forall|x: int| nm.contains(x) implies (om.contains(x) || x == id as int) by {
                let j = choose|j: int| 0 <= j < nm.len() && nm[j] == x;
                if j < om.len() {
                    assert(om[j] == x);
                }
            }
            assert forall|x: int| om.contains(x) implies nm.contains(x) by {
                let j = choose|j: int| 0 <= j < om.len() && om[j] == x;
                assert(nm[j] == x);
            }
            assert(nm[om.len() as int] == id as int);
            assert(nm.contains(id as int));
            assert(nm.to_set() =~= om.to_set().insert(id as int));
        }
    }
}

/// The run's inclusion thresholds and page size.
#[derive(Clone, Copy, PartialEq, Eq, Structural)]
pub struct FeedPolicy {
    pub min_duration_ms: usize,
    pub min_count: usize,
    pub page_size: usize,
}

/// The policy one run works under, read off the configuration record:
/// the duration threshold in minutes becomes milliseconds.
pub fn policy_from_settings(s: &Settings, page_size: usize) -> (r: FeedPolicy)
    requires
        s.duration_minutes * 60000 <= usize::MAX,
    ensures
        r.min_duration_ms == s.duration_minutes * 60000,
        r.min_count == s.min_tracks,
        r.page_size == page_size,
{
    FeedPolicy {
        min_duration_ms: s.duration_minutes * 60000,
        min_count: s.min_tracks,
        page_size,
    }
}

/// The views of the raw entries of one page, in order.
pub open spec fn entry_views(es: Seq<CollectionInfo>) -> Seq<Option<TrackInfo>> {
    es.map_values(|e: CollectionInfo| e@)
}

/// The character sequences of a list of path strings, in order.
pub open spec fn path_views(ps: Seq<String>) -> Seq<Seq<char>> {
    ps.map_values(|s: String| s@)
}

/// Whether the final target path of `t` is among the paths known to
/// exist on disk.
pub open spec fn path_present(t: TrackInfo, present: Seq<Seq<char>>) -> bool {
    exists|j: int| 0 <= j < present.len() && present[j] == spec_track_path(t, false)
}

/// Whether one entry wraps a track that the policy wants: a real track,
/// long enough, not seen before.
pub open spec fn wanted(t: TrackInfo, mind: nat, seen: Set<int>) -> bool {
    t.duration >= mind && !seen.contains(t.id) && t.kind == "track"@
}

/// How one raw entry changes the walker: the seen-set after it, and the
/// tracks (none or one) it contributes.
pub open spec fn step_entry(
    e: Option<TrackInfo>,
    mind: nat,
    seen: Set<int>,
    present: Seq<Seq<char>>,
) -> (Set<int>, Seq<TrackInfo>) {
    match e {
        None => (seen, Seq::<TrackInfo>::empty()),
        Some(t) => {
            if wanted(t, mind, seen) {
                if path_present(t, present) {
                    (seen.insert(t.id), Seq::<TrackInfo>::empty())
                } else {
                    (seen.insert(t.id), seq![t])
                }
            } else {
                (seen, Seq::<TrackInfo>::empty())
            }
        },
    }
}

/// How one whole page changes the walker, entry by entry in feed order.
pub open spec fn walk_entries(
    entries: Seq<Option<TrackInfo>>,
    mind: nat,
    seen: Set<int>,
    present: Seq<Seq<char>>,
) -> (Set<int>, Seq<TrackInfo>)
    decreases entries.len(),
{
    if entries.len() == 0 {
        (seen, Seq::<TrackInfo>::empty())
    } else {
        let prev = walk_entries(entries.drop_last(), mind, seen, present);
        let last = step_entry(entries.last(), mind, prev.0, present);
        (last.0, prev.1 + last.1)
    }
}

/// Every eligible track entry of a page must carry a creation date long
/// enough to read a year and a month from; the remote feed's date
/// format guarantees this.
pub open spec fn page_dates_ok(entries: Seq<Option<TrackInfo>>, mind: nat) -> bool {
    forall|i: int|
        0 <= i < entries.len() ==> ((#[trigger] entries[i]) is Some && entries[i]->0.kind
            == "track"@ && entries[i]->0.duration >= mind ==> entries[i]->0.created_at.len() >= 7)
}

/// State of one run's feed traversal.
pub struct FeedWalker {
    pub policy: FeedPolicy,
    pub offset: usize,
    pub seen: DedupSet,
    pub collected: Vec<Track>,
    pub exhausted: bool,
}

impl FeedWalker {
    /// A fresh traversal at offset zero with nothing seen or collected.
    pub fn new(policy: FeedPolicy) -> (w: FeedWalker)
        ensures
            w.policy == policy,
            w.offset == 0,
            w.seen@ == Set::<int>::empty(),
            w.collected@ == Seq::<Track>::empty(),
            !w.exhausted,
    {
        FeedWalker {
            policy,
            offset: 0,
            seen: DedupSet::new(),
            collected: Vec::new(),
            exhausted: false,
        }
    }

    /// Whether another page should be fetched: the feed is not exhausted
    /// and the quota has not been met.
    pub fn wants_more(&self) -> (r: bool)
        ensures
            r == (!self.exhausted && self.collected@.len() < self.policy.min_count),
    {
        !self.exhausted && self.collected.len() < self.policy.min_count
    }

    /// Consume one fetched page: filter its entries in order, record seen
    /// ids, keep the tracks the policy wants and whose target file is not
    /// already present, and advance the offset by one less than the page
    /// size (pages deliberately overlap by one entry). An empty page marks
    /// the feed as exhausted.
    pub fn ingest_page(self, entries: &Vec<CollectionInfo>, present: &Vec<String>) -> (w:
        FeedWalker)
        requires
            self.policy.page_size >= 1,
            self.offset + self.policy.page_size - 1 <= usize::MAX,
            page_dates_ok(entry_views(entries@), self.policy.min_duration_ms as nat),
        ensures
            w.policy == self.policy,
            w.offset == self.offset + self.policy.page_size - 1,
            w.exhausted == (self.exhausted || entries@.len() == 0),
            w.seen@ == walk_entries(
                entry_views(entries@),
                self.policy.min_duration_ms as nat,
                self.seen@,
                path_views(present@),
            ).0,
            track_infos_of(w.collected@) == track_infos_of(self.collected@) + walk_entries(
                entry_views(entries@),
                self.policy.min_duration_ms as nat,
                self.seen@,
                path_views(present@),
            ).1,
    {
        let FeedWalker { policy, offset, mut seen, mut collected, exhausted } = self;
        let ghost eviews = entry_views(entries@);
        let ghost pviews = path_views(present@);
        let ghost mind = policy.min_duration_ms as nat;
        let ghost seen0 = seen@;
        let ghost coll0 = track_infos_of(collected@);
        let n = entries.len();
        let mut i: usize = 0;
        while i < n
            invariant
                0 <= i <= n,
                n == entries@.len(),
                eviews == entry_views(entries@),
                pviews == path_views(present@),
                mind == policy.min_duration_ms as nat,
                page_dates_ok(eviews, mind),
                seen@ == walk_entries(eviews.take(i as int), mind, seen0, pviews).0,
                track_infos_of(collected@) == coll0 + walk_entries(
                    eviews.take(i as int),
                    mind,
                    seen0,
                    pviews,
                ).1,
            decreases n - i,
        {
            let ghost before = walk_entries(eviews.take(i as int), mind, seen0, pviews);
            let ghost stepped = step_entry(eviews[i as int], mind, before.0, pviews);
            proof {
                assert(eviews.take(i + 1 as int).drop_last() =~= eviews.take(i as int));
                assert(eviews.take(i + 1 as int).last() == eviews[i as int]);
                assert(eviews[i as int] == entries@[i as int]@);
                assert(walk_entries(eviews.take(i + 1 as int), mind, seen0, pviews).0
                    == stepped.0);
                assert(walk_entries(eviews.take(i + 1 as int), mind, seen0, pviews).1 == before.1
                    + stepped.1);
            }
            match &entries[i].track {
                None => {
                    proof {
                        assert(track_infos_of(collected@) =~= coll0 + walk_entries(
                            eviews.take(i + 1 as int),
                            mind,
                            seen0,
                            pviews,
                        ).1);
                    }
                },
                Some(tr) => {
                    let long_enough = tr.duration >= policy.min_duration_ms;
                    let fresh = !seen.contains(tr.id);
                    let is_track = str_eq(tr.kind.as_str(), "track");
                    proof {
                        assert((long_enough && fresh && is_track) == wanted(
                            tr@,
                            mind,
                            before.0,
                        ));
                    }
                    if long_enough && fresh && is_track {
                        let path = get_track_path(tr, false);
                        let found = path_in_list(&path, present);
                        proof {
                            assert(found == path_present(tr@, pviews));
                        }
                        seen.insert(tr.id);
                        if !found {
                            let d = tr.duplicate();
                            let ghost cprev = collected@;
                            collected.push(d);
                            proof {
                                assert(track_infos_of(collected@) =~= track_infos_of(cprev).push(
                                    tr@,
                                ));
                                assert(track_infos_of(cprev).push(tr@) =~= coll0 + (before.1
                                    + seq![tr@]));
                            }
                        } else {
                            proof {
                                assert(track_infos_of(collected@) =~= coll0 + (before.1
                                    + stepped.1));
                            }
                        }
                        proof {
                            assert(track_infos_of(collected@) =~= coll0 + walk_entries(
                                eviews.take(i + 1 as int),
                                mind,
                                seen0,
                                pviews,
                            ).1);
                        }
                    } else {
                        proof {
                            assert(track_infos_of(collected@) =~= coll0 + walk_entries(
                                eviews.take(i + 1 as int),
                                mind,
                                seen0,
                                pviews,
                            ).1);
                        }
                    }
                },
            }
            i += 1;
        }
        proof {
            assert(eviews.take(n as int) =~= eviews);
        }
        FeedWalker {
            policy,
            offset: offset + (policy.page_size - 1),
            seen,
            collected,
            exhausted: exhausted || n == 0,
        }
    }
}

/// Whether `path` occurs in the list of known paths.
fn path_in_list(path: &String, present: &Vec<String>) -> (r: bool)
    ensures
        r == exists|j: int| 0 <= j < present@.len() && path_views(present@)[j] == path@,
{
    let n = present.len();
    let mut i: usize = 0;
    while i < n
        invariant
            0 <= i <= n,
            n == present@.len(),
            forall|j: int| 0 <= j < i ==> path_views(present@)[j] != path@,
        decreases n - i,
    {
        if present[i].eq(path) {
            proof {
                assert(path_views(present@)[i as int] == path@);
            }
            return true;
        }
        i += 1;
    }
    false
}

/// Dedup law: whatever pages arrive, a walk never emits the same track
/// id twice, never emits an id it had already seen, and records every
/// id it emits.
pub proof fn lemma_walk_entries_dedup(
    entries: Seq<Option<TrackInfo>>,
    mind: nat,
    seen: Set<int>,
    present: Seq<Seq<char>>,
)
    ensures
        forall|x: int|
            seen.contains(x) ==> walk_entries(entries, mind, seen, present).0.contains(x),
        forall|i: int|
            0 <= i < walk_entries(entries, mind, seen, present).1.len() ==> walk_entries(
                entries,
                mind,
                seen,
                present,
            ).0.contains(#[trigger] walk_entries(entries, mind, seen, present).1[i].id),
        forall|i: int|
            0 <= i < walk_entries(entries, mind, seen, present).1.len() ==> !seen.contains(
                #[trigger] walk_entries(entries, mind, seen, present).1[i].id,
            ),
        forall|i: int, j: int|
            0 <= i < j < walk_entries(entries, mind, seen, present).1.len() ==> walk_entries(
                entries,
                mind,
                seen,
                present,
            ).1[i].id != walk_entries(entries, mind, seen, present).1[j].id,
    decreases entries.len(),
{
    if entries.len() > 0 {
        lemma_walk_entries_dedup(entries.drop_last(), mind, seen, present);
        let prev = walk_entries(entries.drop_last(), mind, seen, present);
        let whole = walk_entries(entries, mind, seen, present);
        match entries.last() {
            None => {
                assert(whole.1 =~= prev.1);
            },
            Some(t) => {
                if wanted(t, mind, prev.0) {
                    if path_present(t, present) {
                        assert(whole.1 =~= prev.1);
                    } else {
                        assert(whole.1 == prev.1 + seq![t]);
                        assert(whole.1[whole.1.len() - 1] == t);
                        assert(forall|i: int|
                            0 <= i < prev.1.len() ==> whole.1[i] == prev.1[i]);
                    }
                } else {
                    assert(whole.1 =~= prev.1);
                }
            },
        }
    }
}

/// Dedup law at run level: a collection whose ids are recorded and
/// pairwise distinct stays so when a walked page is appended — so however
/// many overlapping pages a run consumes, each track id is kept at most
/// once.
pub proof fn lemma_walk_keeps_collection_unique(
    entries: Seq<Option<TrackInfo>>,
    mind: nat,
    seen: Set<int>,
    present: Seq<Seq<char>>,
    coll: Seq<TrackInfo>,
)
    requires
        forall|i: int| 0 <= i < coll.len() ==> seen.contains(#[trigger] coll[i].id),
        forall|i: int, j: int| 0 <= i < j < coll.len() ==> coll[i].id != coll[j].id,
    ensures
        forall|i: int|
            0 <= i < (coll + walk_entries(entries, mind, seen, present).1).len()
                ==> walk_entries(entries, mind, seen, present).0.contains(
                #[trigger] (coll + walk_entries(entries, mind, seen, present).1)[i].id,
            ),
        forall|i: int, j: int|
            0 <= i < j < (coll + walk_entries(entries, mind, seen, present).1).len() ==> (coll
                + walk_entries(entries, mind, seen, present).1)[i].id != (coll + walk_entries(
                entries,
                mind,
                seen,
                present,
            ).1)[j].id,
{
    lemma_walk_entries_dedup(entries, mind, seen, present);
}

/// Skip-by-presence law: a walk never emits a track whose final target
/// path is already present on disk.
pub proof fn lemma_walk_entries_skips_present(
    entries: Seq<Option<TrackInfo>>,
    mind: nat,
    seen: Set<int>,
    present: Seq<Seq<char>>,
)
    ensures
        forall|i: int|
            0 <= i < walk_entries(entries, mind, seen, present).1.len() ==> !path_present(
                #[trigger] walk_entries(entries, mind, seen, present).1[i],
                present,
            ),
    decreases entries.len(),
{
    if entries.len() > 0 {
        lemma_walk_entries_skips_present(entries.drop_last(), mind, seen, present);
        let prev = walk_entries(entries.drop_last(), mind, seen, present);
        let whole = walk_entries(entries, mind, seen, present);
        assert(forall|i: int| 0 <= i < prev.1.len() ==> whole.1[i] == prev.1[i]);
    }
}

/// Policy law: a walk only emits real tracks that meet the duration
/// threshold.
pub proof fn lemma_walk_entries_eligible(
    entries: Seq<Option<TrackInfo>>,
    mind: nat,
    seen: Set<int>,
    present: Seq<Seq<char>>,
)
    ensures
        forall|i: int|
            0 <= i < walk_entries(entries, mind, seen, present).1.len() ==> {
                let t = #[trigger] walk_entries(entries, mind, seen, present).1[i];
                t.kind == "track"@ && t.duration >= mind
            },
    decreases entries.len(),
{
    if entries.len() > 0 {
        lemma_walk_entries_eligible(entries.drop_last(), mind, seen, present);
        let prev = walk_entries(entries.drop_last(), mind, seen, present);
        let whole = walk_entries(entries, mind, seen, present);
        assert(forall|i: int| 0 <= i < prev.1.len() ==> whole.1[i] == prev.1[i]);
    }
}

} // verus!
