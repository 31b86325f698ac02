//! Download pipeline: everything one worker decides for one track.
//!
//! For each track the library produces a complete download plan (paths,
//! selected media variant, tag values, artwork request), and a small state
//! machine that tells the unverified glue what to do next and in which
//! order: check presence, fetch the media into the temporary path, write
//! tags into the temporary file, and only then publish it by one atomic
//! rename to the final path. A run's outcomes are summarized per track.

use vstd::prelude::*;

use crate::model::{Track, TrackInfo};
use crate::paths::{spec_track_path, get_track_path, spec_best_is_aac};
use crate::select::{spec_ranked, best_transcoding};
use crate::strtool::{
    spec_has_prefix, spec_has_suffix, str_has_prefix, str_has_suffix, append_str_chars,
    string_from_chars,
};

verus! {

/// Why one track failed; each kind is isolated to its track.
#[derive(Clone, Copy, PartialEq, Eq, Structural, Debug)]
pub enum TrackError {
    /// The track offers no transcoding candidate at all.
    NoMediaAvailable,
    /// The media or artwork transfer failed.
    FetchError,
    /// Writing the metadata into the temporary file failed.
    TagError,
    /// Creating directories or renaming into place failed.
    FilesystemError,
}

/// Terminal state of one track in a run.
#[derive(Clone, Copy, PartialEq, Eq, Structural, Debug)]
pub enum DownloadOutcome {
    /// The final path already existed; nothing was fetched or written.
    AlreadyPresent,
    /// The file was fetched, tagged and published.
    Succeeded,
    /// This track failed; others are unaffected.
    Failed(TrackError),
}

/// The artwork locator with every `-large.` marker upgraded to the
/// higher-resolution `-t500x500.` variant.
pub open spec fn spec_upgraded_artwork(s: Seq<char>) -> Seq<char>
    decreases s.len(),
{
    if s.len() == 0 {
        s
    } else if s.len() >= 7 && spec_has_prefix(s, "-large."@) {
        "-t500x500."@ + spec_upgraded_artwork(s.skip(7))
    } else {
        seq![s[0]] + spec_upgraded_artwork(s.skip(1))
    }
}

/// Upgrade an artwork locator to its higher-resolution variant by
/// replacing every occurrence of `-large.` with `-t500x500.`.
pub fn upgrade_artwork_url(url: &str) -> (r: String)
    ensures
        r@ == spec_upgraded_artwork(url@),
{
    let n = url.unicode_len();
    let mut out: Vec<char> = Vec::new();
    let mut i: usize = 0;
    proof {
        assert(url@.skip(0) =~= url@);
    }
    while i < n
        invariant
            0 <= i <= n,
            n == url@.len(),
            out@ + spec_upgraded_artwork(url@.skip(i as int)) == spec_upgraded_artwork(url@),
        decreases n - i,
    {
        let ghost rest = url@.skip(i as int);
        let ghost out0 = out@;
        proof {
            reveal_strlit("-large.");
        }
        let is_match = n - i >= 7 && url.get_char(i) == '-' && url.get_char(i + 1) == 'l'
            && url.get_char(i + 2) == 'a' && url.get_char(i + 3) == 'r' && url.get_char(i + 4)
            == 'g' && url.get_char(i + 5) == 'e' && url.get_char(i + 6) == '.';
        if is_match {
            proof {
                reveal_strlit("-large.");
                assert(rest.len() >= 7);
                assert(rest.take(7) =~= "-large."@);
                assert(spec_upgraded_artwork(rest) == "-t500x500."@ + spec_upgraded_artwork(
                    rest.skip(7),
                ));
                assert(rest.skip(7) =~= url@.skip(i + 7 as int));
            }
            out = append_str_chars(out, "-t500x500.");
            proof {
                assert(out@ + spec_upgraded_artwork(url@.skip(i + 7 as int))
                    =~= out0 + spec_upgraded_artwork(rest));
            }
            i += 7;
        } else {
            proof {
                reveal_strlit("-large.");
                assert(rest.len() > 0);
                if rest.len() >= 7 && spec_has_prefix(rest, "-large."@) {
                    assert(url@[i as int] == '-') by {
                        assert(rest.take(7)[0] == "-large."@[0]);
                    }
                    assert(url@[i + 1 as int] == 'l') by {
                        assert(rest.take(7)[1] == "-large."@[1]);
                    }
                    assert(url@[i + 2 as int] == 'a') by {
                        assert(rest.take(7)[2] == "-large."@[2]);
                    }
                    assert(url@[i + 3 as int] == 'r') by {
                        assert(rest.take(7)[3] == "-large."@[3]);
                    }
                    assert(url@[i + 4 as int] == 'g') by {
                        assert(rest.take(7)[4] == "-large."@[4]);
                    }
                    assert(url@[i + 5 as int] == 'e') by {
                        assert(rest.take(7)[5] == "-large."@[5]);
                    }
                    assert(url@[i + 6 as int] == '.') by {
                        assert(rest.take(7)[6] == "-large."@[6]);
                    }
                    assert(false);
                }
                assert(spec_upgraded_artwork(rest) == seq![rest[0]] + spec_upgraded_artwork(
                    rest.skip(1),
                ));
                assert(rest.skip(1) =~= url@.skip(i + 1 as int));
                assert(rest[0] == url@[i as int]);
            }
            let c = url.get_char(i);
            out.push(c);
            proof {
                assert(out@ + spec_upgraded_artwork(url@.skip(i + 1 as int))
                    =~= out0 + spec_upgraded_artwork(rest));
            }
            i += 1;
        }
    }
    proof {
        assert(url@.skip(n as int) =~= Seq::<char>::empty());
        assert(out@ + spec_upgraded_artwork(url@.skip(n as int)) =~= out@);
    }
    string_from_chars(out)
}

/// The synthesized album value for a track's tags.
pub open spec fn spec_album(t: TrackInfo) -> Seq<char> {
    t.user.username + " - "@ + t.title
}

/// The artwork part of a plan: where to fetch the cover from, and
/// whether its bytes are PNG (by the locator's ending) rather than JPEG.
#[derive(Debug)]
pub struct ArtworkPlan {
    pub url: String,
    pub png: bool,
}

/// Everything the glue needs to download one track, fixed before any
/// side effect happens.
#[derive(Debug)]
pub struct DownloadPlan {
    pub final_path: String,
    pub temp_path: String,
    pub media_url: String,
    pub tag_mp4: bool,
    pub title: String,
    pub artist: String,
    pub album: String,
    pub artwork: Option<ArtworkPlan>,
}

/// What a correct plan for `t` looks like, clause by clause.
pub open spec fn plan_matches(p: DownloadPlan, t: TrackInfo) -> bool {
    &&& p.final_path@ == spec_track_path(t, false)
    &&& p.temp_path@ == spec_track_path(t, true)
    &&& t.transcodings.len() > 0
    &&& p.media_url@ == spec_ranked(t.transcodings)[0].url
    &&& p.tag_mp4 == spec_best_is_aac(t.transcodings)
    &&& p.title@ == t.title
    &&& p.artist@ == t.user.username
    &&& p.album@ == spec_album(t)
    &&& (p.artwork is Some) == (t.artwork_url is Some)
    &&& (t.artwork_url is Some ==> {
        &&& p.artwork->0.url@ == spec_upgraded_artwork(t.artwork_url->0)
        &&& p.artwork->0.png == spec_has_suffix(spec_upgraded_artwork(t.artwork_url->0), "png"@)
    })
}

/// Build the complete plan for one track: derive both paths, pick the
/// best media candidate, fix the tag values and the artwork request.
/// Fails exactly when the track has no media candidate.
pub fn plan_track(track: &Track) -> (r: Result<DownloadPlan, TrackError>)
    requires
        track.created_at@.len() >= 7,
    ensures
        (r is Err) <==> track@.transcodings.len() == 0,
        r is Err ==> r->Err_0 == TrackError::NoMediaAvailable,
        r is Ok ==> plan_matches(r->Ok_0, track@),
{
    let best = match best_transcoding(&track.media.transcodings) {
        None => {
            return Err(TrackError::NoMediaAvailable);
        },
        Some(b) => b,
    };
    let tag_mp4 = str_has_prefix(best.preset.as_str(), "aac");
    let final_path = get_track_path(track, false);
    let temp_path = get_track_path(track, true);
    let mut album = String::new();
    album.append(track.user.username.as_str());
    album.append(" - ");
    album.append(track.title.as_str());
    let artwork = match &track.artwork_url {
        None => None,
        Some(u) => {
            let up = upgrade_artwork_url(u.as_str());
            let png = str_has_suffix(up.as_str(), "png");
            Some(ArtworkPlan { url: up, png })
        },
    };
    Ok(
        DownloadPlan {
            final_path,
            temp_path,
            media_url: best.url,
            tag_mp4,
            title: track.title.clone(),
            artist: track.user.username.clone(),
            album,
            artwork,
        },
    )
}

/// Where one worker stands for its track.
#[derive(Clone, Copy, PartialEq, Eq, Structural, Debug)]
pub enum WorkerPhase {
    /// Ask the filesystem whether the final path already exists.
    CheckingPresence,
    /// Fetch the media into the temporary path.
    Fetching,
    /// Write the tags into the temporary file.
    Tagging,
    /// Rename the temporary file to the final path.
    Publishing,
    /// Nothing left to do; the outcome is fixed.
    Done(DownloadOutcome),
}

/// What the glue reports back after performing one phase's work.
#[derive(Clone, Copy, PartialEq, Eq, Structural, Debug)]
pub enum WorkerEvent {
    /// Whether the final path already existed.
    PresenceChecked(bool),
    /// Whether the media fetch produced the complete temporary file.
    MediaFetched(bool),
    /// Whether the tag write succeeded.
    TagsWritten(bool),
    /// Whether the rename to the final path succeeded.
    Published(bool),
}

/// The transition of one worker on one event. An event that does not
/// belong to the current phase changes nothing.
pub open spec fn spec_worker_step(ph: WorkerPhase, ev: WorkerEvent) -> WorkerPhase {
    match (ph, ev) {
        (WorkerPhase::CheckingPresence, WorkerEvent::PresenceChecked(true)) => WorkerPhase::Done(
            DownloadOutcome::AlreadyPresent,
        ),
        (WorkerPhase::CheckingPresence, WorkerEvent::PresenceChecked(false)) => {
            WorkerPhase::Fetching
        },
        (WorkerPhase::Fetching, WorkerEvent::MediaFetched(true)) => WorkerPhase::Tagging,
        (WorkerPhase::Fetching, WorkerEvent::MediaFetched(false)) => WorkerPhase::Done(
            DownloadOutcome::Failed(TrackError::FetchError),
        ),
        (WorkerPhase::Tagging, WorkerEvent::TagsWritten(true)) => WorkerPhase::Publishing,
        (WorkerPhase::Tagging, WorkerEvent::TagsWritten(false)) => WorkerPhase::Done(
            DownloadOutcome::Failed(TrackError::TagError),
        ),
        (WorkerPhase::Publishing, WorkerEvent::Published(true)) => WorkerPhase::Done(
            DownloadOutcome::Succeeded,
        ),
        (WorkerPhase::Publishing, WorkerEvent::Published(false)) => WorkerPhase::Done(
            DownloadOutcome::Failed(TrackError::FilesystemError),
        ),
        (_, _) => ph,
    }
}

/// Advance one worker by one event.
pub fn worker_step(ph: WorkerPhase, ev: WorkerEvent) -> (r: WorkerPhase)
    ensures
        r == spec_worker_step(ph, ev),
{
    match (ph, ev) {
        (WorkerPhase::CheckingPresence, WorkerEvent::PresenceChecked(true)) => WorkerPhase::Done(
            DownloadOutcome::AlreadyPresent,
        ),
        (WorkerPhase::CheckingPresence, WorkerEvent::PresenceChecked(false)) => {
            WorkerPhase::Fetching
        },
        (WorkerPhase::Fetching, WorkerEvent::MediaFetched(true)) => WorkerPhase::Tagging,
        (WorkerPhase::Fetching, WorkerEvent::MediaFetched(false)) => WorkerPhase::Done(
            DownloadOutcome::Failed(TrackError::FetchError),
        ),
        (WorkerPhase::Tagging, WorkerEvent::TagsWritten(true)) => WorkerPhase::Publishing,
        (WorkerPhase::Tagging, WorkerEvent::TagsWritten(false)) => WorkerPhase::Done(
            DownloadOutcome::Failed(TrackError::TagError),
        ),
        (WorkerPhase::Publishing, WorkerEvent::Published(true)) => WorkerPhase::Done(
            DownloadOutcome::Succeeded,
        ),
        (WorkerPhase::Publishing, WorkerEvent::Published(false)) => WorkerPhase::Done(
            DownloadOutcome::Failed(TrackError::FilesystemError),
        ),
        (p, _) => p,
    }
}

/// The phase a worker reaches after a whole sequence of events, starting
/// from the presence check.
pub open spec fn spec_run_worker(evs: Seq<WorkerEvent>) -> WorkerPhase
    decreases evs.len(),
{
    if evs.len() == 0 {
        WorkerPhase::CheckingPresence
    } else {
        spec_worker_step(spec_run_worker(evs.drop_last()), evs.last())
    }
}

/// Atomic-publish law, fetch half: without a successful media fetch a
/// worker never reaches the tagging, publishing or succeeded state, so
/// nothing ever touches the final path.
pub proof fn lemma_no_publish_without_fetch(evs: Seq<WorkerEvent>)
    requires
        forall|k: int| 0 <= k < evs.len() ==> evs[k] != WorkerEvent::MediaFetched(true),
    ensures
        spec_run_worker(evs) != WorkerPhase::Tagging,
        spec_run_worker(evs) != WorkerPhase::Publishing,
        spec_run_worker(evs) != WorkerPhase::Done(DownloadOutcome::Succeeded),
    decreases evs.len(),
{
    if evs.len() > 0 {
        lemma_no_publish_without_fetch(evs.drop_last());
    }
}

/// Atomic-publish law, tag half: without a successful tag write a worker
/// never reaches the publishing or succeeded state; a tag failure leaves
/// the temporary file unpublished.
pub proof fn lemma_no_publish_without_tag(evs: Seq<WorkerEvent>)
    requires
        forall|k: int| 0 <= k < evs.len() ==> evs[k] != WorkerEvent::TagsWritten(true),
    ensures
        spec_run_worker(evs) != WorkerPhase::Publishing,
        spec_run_worker(evs) != WorkerPhase::Done(DownloadOutcome::Succeeded),
    decreases evs.len(),
{
    if evs.len() > 0 {
        lemma_no_publish_without_tag(evs.drop_last());
    }
}

/// One recorded outcome; it names the track it belongs to.
#[derive(Clone, Copy, PartialEq, Eq, Structural, Debug)]
pub struct TrackOutcome {
    pub id: i64,
    pub outcome: DownloadOutcome,
}

/// The outcomes that count as succeeded.
pub open spec fn is_succeeded() -> spec_fn(TrackOutcome) -> bool {
    |o: TrackOutcome| o.outcome is Succeeded
}

/// The outcomes that count as already present.
pub open spec fn is_already_present() -> spec_fn(TrackOutcome) -> bool {
    |o: TrackOutcome| o.outcome is AlreadyPresent
}

/// The outcomes that count as failed.
pub open spec fn is_failed() -> spec_fn(TrackOutcome) -> bool {
    |o: TrackOutcome| o.outcome is Failed
}

/// Counts of one run's outcomes.
#[derive(Clone, Copy, PartialEq, Eq, Structural, Debug)]
pub struct RunSummary {
    pub succeeded: usize,
    pub already_present: usize,
    pub failed: usize,
}

/// Count a run's outcomes by kind; the three counts always add up to
/// the number of tracks.
pub fn summarize(outcomes: &Vec<TrackOutcome>) -> (s: RunSummary)
    ensures
        s.succeeded == outcomes@.filter(is_succeeded()).len(),
        s.already_present == outcomes@.filter(is_already_present()).len(),
        s.failed == outcomes@.filter(is_failed()).len(),
        s.succeeded + s.already_present + s.failed == outcomes@.len(),
{
    proof {
        lemma_outcomes_partition(outcomes@);
    }
    let ghost all = outcomes@;
    let mut succeeded: usize = 0;
    let mut already_present: usize = 0;
    let mut failed: usize = 0;
    let n = outcomes.len();
    let mut i: usize = 0;
    while i < n
        invariant
            0 <= i <= n,
            n == all.len(),
            all == outcomes@,
            succeeded == all.take(i as int).filter(is_succeeded()).len(),
            already_present == all.take(i as int).filter(is_already_present()).len(),
            failed == all.take(i as int).filter(is_failed()).len(),
            succeeded + already_present + failed <= i,
        decreases n - i,
    {
        proof {
            crate::strtool::lemma_filter_snoc(all.take(i as int), is_succeeded(), all[i as int]);
            crate::strtool::lemma_filter_snoc(
                all.take(i as int),
                is_already_present(),
                all[i as int],
            );
            crate::strtool::lemma_filter_snoc(all.take(i as int), is_failed(), all[i as int]);
            assert(all.take(i as int).push(all[i as int]) =~= all.take(i + 1 as int));
        }
        match outcomes[i].outcome {
            DownloadOutcome::Succeeded => {
                succeeded += 1;
            },
            DownloadOutcome::AlreadyPresent => {
                already_present += 1;
            },
            DownloadOutcome::Failed(_) => {
                failed += 1;
            },
        }
        i += 1;
    }
    proof {
        assert(all.take(n as int) =~= all);
    }
    RunSummary { succeeded, already_present, failed }
}

/// Every outcome is of exactly one kind: the three counts partition a
/// run.
pub proof fn lemma_outcomes_partition(s: Seq<TrackOutcome>)
    ensures
        s.filter(is_succeeded()).len() + s.filter(is_already_present()).len() + s.filter(
            is_failed(),
        ).len() == s.len(),
    decreases s.len(),
{
    reveal(Seq::filter);
    if s.len() > 0 {
        lemma_outcomes_partition(s.drop_last());
    }
}

/// Failure-isolation law: in a run where exactly one track failed, every
/// other track still ended succeeded or already present.
pub proof fn lemma_failure_is_isolated(s: Seq<TrackOutcome>)
    requires
        s.filter(is_failed()).len() == 1,
    ensures
        s.filter(is_succeeded()).len() + s.filter(is_already_present()).len() == s.len() - 1,
{
    lemma_outcomes_partition(s);
}

} // verus!
