use trackvault::feed::{DedupSet, FeedPolicy, FeedWalker};
use trackvault::model::{CollectionInfo, Media, Settings, Track, Transcoding, TranscodingFormat,
    UserDetails};
use trackvault::paths::get_track_path;
use trackvault::pipeline::{
    summarize, worker_step, DownloadOutcome, TrackError, TrackOutcome, WorkerEvent, WorkerPhase,
};
use trackvault::token::{plan_token_use, CachedToken, TokenDecision};

fn feed_track(id: i64, duration: usize, kind: &str) -> Track {
    Track {
        id,
        duration,
        title: format!("Title {id}"),
        permalink_url: format!("https://example/{id}"),
        downloadable: None,
        user: UserDetails { id: id + 1000, username: "Uploader".to_string() },
        artwork_url: None,
        download_url: None,
        stream_url: None,
        created_at: "2024-11-02T08:00:00Z".to_string(),
        kind: kind.to_string(),
        media: Media {
            transcodings: vec![Transcoding {
                url: format!("https://cdn.example/{id}"),
                preset: "aac_256k".to_string(),
                format: TranscodingFormat { protocol: "hls".to_string() },
            }],
        },
    }
}

fn entry(t: Track) -> CollectionInfo {
    CollectionInfo { track: Some(t) }
}

fn policy(min_duration_ms: usize, min_count: usize, page_size: usize) -> FeedPolicy {
    FeedPolicy { min_duration_ms, min_count, page_size }
}

#[test]
fn walker_applies_duration_kind_and_dedup_rules() {
    // One page: a good track, one too short, the good one repeated.
    let page = vec![
        entry(feed_track(1, 400000, "track")),
        entry(feed_track(2, 5000, "track")),
        entry(feed_track(1, 400000, "track")),
    ];
    let walker = FeedWalker::new(policy(60000, 1, 100));
    let walker = walker.ingest_page(&page, &Vec::new());
    let ids: Vec<i64> = walker.collected.iter().map(|t| t.id).collect();
    assert_eq!(ids, [1]);
}

#[test]
fn walker_deduplicates_across_overlapping_pages() {
    let page1 = vec![
        entry(feed_track(10, 400000, "track")),
        entry(feed_track(11, 400000, "track")),
    ];
    // The next page overlaps by one entry, as the offset advance intends.
    let page2 = vec![
        entry(feed_track(11, 400000, "track")),
        entry(feed_track(12, 400000, "track")),
    ];
    let walker = FeedWalker::new(policy(60000, 10, 2));
    let walker = walker.ingest_page(&page1, &Vec::new());
    assert_eq!(walker.offset, 1);
    let walker = walker.ingest_page(&page2, &Vec::new());
    assert_eq!(walker.offset, 2);
    let ids: Vec<i64> = walker.collected.iter().map(|t| t.id).collect();
    assert_eq!(ids, [10, 11, 12]);
}

#[test]
fn walker_skips_non_track_entries_and_empty_wrappers() {
    let page = vec![
        CollectionInfo { track: None },
        entry(feed_track(3, 400000, "playlist")),
        entry(feed_track(4, 400000, "track")),
    ];
    let walker = FeedWalker::new(policy(60000, 5, 100));
    let walker = walker.ingest_page(&page, &Vec::new());
    let ids: Vec<i64> = walker.collected.iter().map(|t| t.id).collect();
    assert_eq!(ids, [4]);
}

#[test]
fn walker_skips_tracks_already_on_disk() {
    let wanted = feed_track(21, 400000, "track");
    let present_path = get_track_path(&wanted, false);
    let page = vec![entry(feed_track(20, 400000, "track")), entry(wanted)];
    let walker = FeedWalker::new(policy(60000, 5, 100));
    let walker = walker.ingest_page(&page, &vec![present_path]);
    let ids: Vec<i64> = walker.collected.iter().map(|t| t.id).collect();
    assert_eq!(ids, [20]);
    // The skipped id still counts as seen.
    assert!(walker.seen.contains(21));
}

#[test]
fn walker_stops_on_quota_and_on_empty_page() {
    let page = vec![entry(feed_track(30, 400000, "track"))];
    let walker = FeedWalker::new(policy(60000, 1, 100));
    assert!(walker.wants_more());
    let walker = walker.ingest_page(&page, &Vec::new());
    assert!(!walker.wants_more());

    let hungry = FeedWalker::new(policy(60000, 50, 100));
    let hungry = hungry.ingest_page(&Vec::new(), &Vec::new());
    assert!(hungry.exhausted);
    assert!(!hungry.wants_more());

    // A zero quota is satisfied from the start.
    assert!(!FeedWalker::new(policy(60000, 0, 100)).wants_more());
}

#[test]
fn dedup_set_records_ids_once_seen() {
    let mut seen = DedupSet::new();
    assert!(!seen.contains(42));
    seen.insert(42);
    assert!(seen.contains(42));
    assert!(!seen.contains(43));
}

#[test]
fn policy_from_settings_scales_minutes_to_milliseconds() {
    let s = Settings {
        client_id: "cid".to_string(),
        oauth_token: "tok".to_string(),
        duration_minutes: 6,
        min_tracks: 3,
    };
    let p = trackvault::feed::policy_from_settings(&s, 100);
    assert_eq!(p.min_duration_ms, 360000);
    assert_eq!(p.min_count, 3);
    assert_eq!(p.page_size, 100);
}

#[test]
fn expired_token_triggers_refresh() {
    let stale = CachedToken { token: "old".to_string(), issued_at: 1000, ttl_seconds: 50 };
    // issued_at + ttl_seconds == now: expired.
    assert!(matches!(plan_token_use(&Some(stale), 1050), TokenDecision::Refresh));
    assert!(matches!(plan_token_use(&None, 0), TokenDecision::Refresh));
}

#[test]
fn fresh_token_is_reused() {
    let fresh = CachedToken { token: "keep".to_string(), issued_at: 1000, ttl_seconds: 51 };
    assert!(fresh.is_fresh(1050));
    assert!(matches!(plan_token_use(&Some(fresh), 1050), TokenDecision::UseCached));
}

fn run_worker(events: &[WorkerEvent]) -> (WorkerPhase, Vec<WorkerPhase>) {
    let mut phase = WorkerPhase::CheckingPresence;
    let mut trace = vec![phase];
    for ev in events {
        phase = worker_step(phase, *ev);
        trace.push(phase);
    }
    (phase, trace)
}

#[test]
fn worker_publishes_only_after_fetch_and_tag() {
    let (phase, _) = run_worker(&[
        WorkerEvent::PresenceChecked(false),
        WorkerEvent::MediaFetched(true),
        WorkerEvent::TagsWritten(true),
        WorkerEvent::Published(true),
    ]);
    assert_eq!(phase, WorkerPhase::Done(DownloadOutcome::Succeeded));
}

#[test]
fn worker_never_publishes_after_tag_failure() {
    let (phase, trace) = run_worker(&[
        WorkerEvent::PresenceChecked(false),
        WorkerEvent::MediaFetched(true),
        WorkerEvent::TagsWritten(false),
    ]);
    assert_eq!(phase, WorkerPhase::Done(DownloadOutcome::Failed(TrackError::TagError)));
    assert!(trace.iter().all(|p| *p != WorkerPhase::Publishing));
}

#[test]
fn worker_never_publishes_after_fetch_failure() {
    let (phase, trace) = run_worker(&[
        WorkerEvent::PresenceChecked(false),
        WorkerEvent::MediaFetched(false),
    ]);
    assert_eq!(phase, WorkerPhase::Done(DownloadOutcome::Failed(TrackError::FetchError)));
    assert!(trace.iter().all(|p| *p != WorkerPhase::Publishing));
    assert!(trace.iter().all(|p| *p != WorkerPhase::Tagging));
}

#[test]
fn worker_leaves_present_track_untouched() {
    let (phase, trace) = run_worker(&[WorkerEvent::PresenceChecked(true)]);
    assert_eq!(phase, WorkerPhase::Done(DownloadOutcome::AlreadyPresent));
    assert!(trace.iter().all(|p| *p != WorkerPhase::Fetching));
}

#[test]
fn worker_reports_rename_failure_as_filesystem_error() {
    let (phase, _) = run_worker(&[
        WorkerEvent::PresenceChecked(false),
        WorkerEvent::MediaFetched(true),
        WorkerEvent::TagsWritten(true),
        WorkerEvent::Published(false),
    ]);
    assert_eq!(phase, WorkerPhase::Done(DownloadOutcome::Failed(TrackError::FilesystemError)));
}

#[test]
fn one_failure_leaves_other_outcomes_intact() {
    let outcomes = vec![
        TrackOutcome { id: 1, outcome: DownloadOutcome::Succeeded },
        TrackOutcome { id: 2, outcome: DownloadOutcome::AlreadyPresent },
        TrackOutcome { id: 3, outcome: DownloadOutcome::Failed(TrackError::TagError) },
        TrackOutcome { id: 4, outcome: DownloadOutcome::Succeeded },
    ];
    let s = summarize(&outcomes);
    assert_eq!(s.failed, 1);
    assert_eq!(s.succeeded + s.already_present, outcomes.len() - 1);
    assert_eq!(s.succeeded, 2);
    assert_eq!(s.already_present, 1);
}
