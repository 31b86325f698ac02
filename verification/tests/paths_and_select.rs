use trackvault::model::{Media, Track, Transcoding, TranscodingFormat, UserDetails};
use trackvault::paths::get_track_path;
use trackvault::pipeline::{plan_track, upgrade_artwork_url, TrackError};
use trackvault::select::{best_transcoding, priority_of, ranked_copy, sort_by_priority};
use trackvault::timefmt::format_time;

fn transcoding(preset: &str) -> Transcoding {
    Transcoding {
        url: format!("https://cdn.example/{preset}"),
        preset: preset.to_string(),
        format: TranscodingFormat { protocol: "hls".to_string() },
    }
}

fn track(id: i64, duration: usize, title: &str, username: &str, presets: &[&str]) -> Track {
    Track {
        id,
        duration,
        title: title.to_string(),
        permalink_url: format!("https://example/{id}"),
        downloadable: None,
        user: UserDetails { id: id + 1000, username: username.to_string() },
        artwork_url: None,
        download_url: None,
        stream_url: None,
        created_at: "2023-05-12T10:00:00Z".to_string(),
        kind: "track".to_string(),
        media: Media { transcodings: presets.iter().map(|p| transcoding(p)).collect() },
    }
}

#[test]
fn path_has_year_month_buckets_and_extension() {
    let t = track(1, 400000, "Song", "Artist", &["mp3_1_0"]);
    assert_eq!(get_track_path(&t, false), "2023/05/Artist - Song.mp3");
    assert_eq!(get_track_path(&t, true), "2023/05/Artist - Song__tmp.mp3");
}

#[test]
fn path_uses_m4a_for_aac_winner() {
    let t = track(1, 400000, "Song", "Artist", &["mp3_1_0", "aac_256k"]);
    assert_eq!(get_track_path(&t, false), "2023/05/Artist - Song.m4a");
}

#[test]
fn path_strips_forbidden_characters() {
    let t = track(1, 400000, "a\\b|c/d<e>f:g\"h?i*j", "x<y>:z?", &["mp3_1_0"]);
    let path = get_track_path(&t, false);
    assert_eq!(path, "2023/05/xyz - abcdefghij.mp3");
    let filename = path.rsplit('/').next().unwrap();
    for c in ['\\', '|', '/', '<', '>', ':', '"', '?', '*'] {
        assert!(!filename.contains(c), "forbidden {c:?} in {filename}");
    }
}

#[test]
fn path_is_deterministic_across_calls() {
    let t1 = track(1, 400000, "Sång *?", "Ärtist|", &["aac_160k"]);
    let t2 = track(99, 5, "Sång *?", "Ärtist|", &["aac_160k"]);
    let first = get_track_path(&t1, false);
    assert_eq!(first, get_track_path(&t1, false));
    assert_eq!(first, get_track_path(&t2, false));
}

#[test]
fn temp_path_differs_from_final_path() {
    let t = track(7, 1, "T", "U", &["aac_256k", "mp3_1_0"]);
    assert_ne!(get_track_path(&t, true), get_track_path(&t, false));
}

#[test]
fn selector_prefers_aac_256k_over_mp3() {
    let cands = vec![transcoding("mp3_1_0"), transcoding("aac_256k")];
    let best = best_transcoding(&cands).unwrap();
    assert_eq!(best.preset, "aac_256k");
}

#[test]
fn selector_keeps_order_of_unknown_presets() {
    let cands = vec![transcoding("opus_1_0"), transcoding("flac_raw")];
    let ranked = ranked_copy(&cands);
    let presets: Vec<&str> = ranked.iter().map(|t| t.preset.as_str()).collect();
    assert_eq!(presets, ["opus_1_0", "flac_raw"]);
    let best = best_transcoding(&cands).unwrap();
    assert_eq!(best.preset, "opus_1_0");
}

#[test]
fn selector_returns_nothing_for_empty_candidates() {
    assert!(best_transcoding(&Vec::new()).is_none());
}

#[test]
fn sort_by_priority_orders_all_ranks_stably() {
    let mut cands = vec![
        transcoding("mp3_1_0"),
        transcoding("aac_256k"),
        transcoding("weird"),
        transcoding("aac_160k"),
        transcoding("aac_1_0"),
        transcoding("mp3_0_1"),
    ];
    sort_by_priority(&mut cands);
    let presets: Vec<&str> = cands.iter().map(|t| t.preset.as_str()).collect();
    assert_eq!(presets, ["aac_256k", "aac_160k", "aac_1_0", "mp3_1_0", "mp3_0_1", "weird"]);
}

#[test]
fn priority_ranks_match_prefix_list() {
    assert_eq!(priority_of("aac_256k"), 0);
    assert_eq!(priority_of("aac_160k"), 1);
    assert_eq!(priority_of("aac_hq"), 2);
    assert_eq!(priority_of("mp3_standard"), 3);
    assert_eq!(priority_of("opus_0_0"), 4);
}

#[test]
fn format_time_pads_fields_to_two_digits() {
    assert_eq!(format_time(0), "00:00:00");
    assert_eq!(format_time(59999), "00:00:59");
    assert_eq!(format_time(3600000), "01:00:00");
    assert_eq!(format_time(3723000), "01:02:03");
}

#[test]
fn format_time_widens_large_hours() {
    assert_eq!(format_time(360000000), "100:00:00");
}

#[test]
fn artwork_url_upgrade_replaces_every_marker() {
    assert_eq!(upgrade_artwork_url("x-large.jpg"), "x-t500x500.jpg");
    assert_eq!(upgrade_artwork_url("a-large.b-large.png"), "a-t500x500.b-t500x500.png");
    assert_eq!(upgrade_artwork_url("no-marker.png"), "no-marker.png");
    assert_eq!(upgrade_artwork_url(""), "");
}

#[test]
fn plan_track_fills_paths_tags_and_artwork() {
    let mut t = track(5, 240000, "Tune", "Maker", &["mp3_1_0", "aac_256k"]);
    t.artwork_url = Some("https://img.example/c-large.png".to_string());
    let plan = plan_track(&t).unwrap();
    assert_eq!(plan.final_path, "2023/05/Maker - Tune.m4a");
    assert_eq!(plan.temp_path, "2023/05/Maker - Tune__tmp.m4a");
    assert_eq!(plan.media_url, "https://cdn.example/aac_256k");
    assert!(plan.tag_mp4);
    assert_eq!(plan.title, "Tune");
    assert_eq!(plan.artist, "Maker");
    assert_eq!(plan.album, "Maker - Tune");
    let art = plan.artwork.unwrap();
    assert_eq!(art.url, "https://img.example/c-t500x500.png");
    assert!(art.png);
}

#[test]
fn plan_track_jpeg_artwork_and_id3_tags() {
    let mut t = track(5, 240000, "Tune", "Maker", &["mp3_1_0"]);
    t.artwork_url = Some("https://img.example/c-large.jpg".to_string());
    let plan = plan_track(&t).unwrap();
    assert!(!plan.tag_mp4);
    let art = plan.artwork.unwrap();
    assert_eq!(art.url, "https://img.example/c-t500x500.jpg");
    assert!(!art.png);
}

#[test]
fn plan_track_fails_without_media() {
    let t = track(5, 240000, "Tune", "Maker", &[]);
    assert_eq!(plan_track(&t).unwrap_err(), TrackError::NoMediaAvailable);
}
