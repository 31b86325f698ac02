//! Path deriver: map a track's identity and metadata to its deterministic
//! relative file path, for the final file or for the temporary one.
//!
//! The path is `<year>/<month>/<artist> - <title>[__tmp].<ext>`, where year
//! and month come from fixed positions of the track's creation date, artist
//! and title are stripped of characters illegal in file names, and the
//! extension follows the winning transcoding candidate. Equal metadata
//! always yields the equal path; the temporary path always differs from the
//! final one.

use vstd::prelude::*;

use crate::model::{Track, TrackInfo, TransInfo, infos_of};
use crate::select::{
    spec_ranked, rank_bucket, has_rank, ranked_copy, lemma_ranked_len, lemma_ranked_unfold,
};
use crate::strtool::{
    spec_has_prefix, spec_sanitized, keep_char, str_has_prefix, append_str_chars,
    append_sanitized_chars, string_from_chars, is_forbidden_char, lemma_filter_snoc,
};

verus! {

/// Whether the winning candidate carries an AAC-family preset, which
/// selects the `m4a` container; everything else lands in `mp3`.
pub open spec fn spec_best_is_aac(trans: Seq<TransInfo>) -> bool {
    trans.len() > 0 && spec_has_prefix(spec_ranked(trans)[0].preset, "aac"@)
}

/// File extension chosen by the winning candidate.
pub open spec fn spec_extension(trans: Seq<TransInfo>) -> Seq<char> {
    if spec_best_is_aac(trans) {
        "m4a"@
    } else {
        "mp3"@
    }
}

/// Marker inserted before the extension while a file is still being
/// produced.
pub open spec fn spec_temp_marker(temp: bool) -> Seq<char> {
    if temp {
        "__tmp"@
    } else {
        Seq::<char>::empty()
    }
}

/// The file-name component of a track's path.
pub open spec fn spec_track_filename(t: TrackInfo, temp: bool) -> Seq<char> {
    spec_sanitized(t.user.username) + " - "@ + spec_sanitized(t.title) + spec_temp_marker(temp)
        + "."@ + spec_extension(t.transcodings)
}

/// The full relative path of a track: `<year>/<month>/` directory
/// buckets from the creation date, then the file name.
pub open spec fn spec_track_path(t: TrackInfo, temp: bool) -> Seq<char> {
    t.created_at.subrange(0, 4) + "/"@ + t.created_at.subrange(5, 7) + "/"@
        + spec_track_filename(t, temp)
}

/// Derive the path under which a track is stored, final or temporary.
/// The same track and the same flag always give the same path.
pub fn get_track_path(track: &Track, temp: bool) -> (r: String)
    requires
        track.created_at@.len() >= 7,
    ensures
        r@ == spec_track_path(track@, temp),
{
    let mut buf: Vec<char> = Vec::new();
    let year = track.created_at.as_str().substring_char(0, 4);
    buf = append_str_chars(buf, year);
    buf = append_str_chars(buf, "/");
    let month = track.created_at.as_str().substring_char(5, 7);
    buf = append_str_chars(buf, month);
    buf = append_str_chars(buf, "/");
    buf = append_sanitized_chars(buf, track.user.username.as_str());
    buf = append_str_chars(buf, " - ");
    buf = append_sanitized_chars(buf, track.title.as_str());
    if temp {
        buf = append_str_chars(buf, "__tmp");
    }
    buf = append_str_chars(buf, ".");
    proof {
        lemma_ranked_len(infos_of(track.media.transcodings@));
    }
    let ranked = ranked_copy(&track.media.transcodings);
    let is_aac: bool = if ranked.len() > 0 {
        str_has_prefix(ranked[0].preset.as_str(), "aac")
    } else {
        false
    };
    proof {
        if ranked@.len() > 0 {
            assert(ranked@[0]@ == infos_of(ranked@)[0]);
        }
        assert(is_aac == spec_best_is_aac(track@.transcodings));
    }
    if is_aac {
        buf = append_str_chars(buf, "m4a");
    } else {
        buf = append_str_chars(buf, "mp3");
    }
    proof {
        assert(buf@ =~= spec_track_path(track@, temp));
    }
    string_from_chars(buf)
}

/// The derived file name never contains a character of the forbidden
/// set, whatever title and username held.
pub proof fn lemma_filename_is_sanitized(t: TrackInfo, temp: bool)
    ensures
        forall|i: int|
            0 <= i < spec_track_filename(t, temp).len() ==> !is_forbidden_char(
                #[trigger] spec_track_filename(t, temp)[i],
            ),
{
    reveal_strlit(" - ");
    reveal_strlit("__tmp");
    reveal_strlit(".");
    reveal_strlit("m4a");
    reveal_strlit("mp3");
    let f = spec_track_filename(t, temp);
    let a = spec_sanitized(t.user.username);
    let b = spec_sanitized(t.title);
    let m = spec_temp_marker(temp);
    let e = spec_extension(t.transcodings);
    assert forall|i: int| 0 <= i < f.len() implies !is_forbidden_char(f[i]) by {
        let keep = keep_char();
        if i < a.len() {
            t.user.username.lemma_filter_pred(keep, i);
            assert(f[i] == a[i]);
        } else if i < a.len() + 3 {
            assert(f[i] == " - "@[i - a.len()]);
        } else if i < a.len() + 3 + b.len() {
            t.title.lemma_filter_pred(keep, i - a.len() - 3);
            assert(f[i] == b[i - a.len() - 3]);
        } else if i < a.len() + 3 + b.len() + m.len() {
            assert(f[i] == m[i - a.len() - 3 - b.len()]);
        } else if i < a.len() + 3 + b.len() + m.len() + 1 {
            assert(f[i] == "."@[0]);
        } else {
            assert(f[i] == e[i - a.len() - 3 - b.len() - m.len() - 1]);
        }
    }
}

/// The temporary path of a track is never its final path.
pub proof fn lemma_temp_path_differs(t: TrackInfo)
    ensures
        spec_track_path(t, true) != spec_track_path(t, false),
{
    reveal_strlit("__tmp");
    assert(spec_track_path(t, true).len() == spec_track_path(t, false).len() + 5);
}

/// The preset label of one candidate.
pub open spec fn preset_label() -> spec_fn(TransInfo) -> Seq<char> {
    |x: TransInfo| x.preset
}

/// The preset labels of a candidate list, in order.
pub open spec fn presets_of(s: Seq<TransInfo>) -> Seq<Seq<char>> {
    s.map_values(preset_label())
}

/// One rank bucket projects to the same preset labels on any two
/// candidate lists with the same labels.
proof fn lemma_bucket_presets(s1: Seq<TransInfo>, s2: Seq<TransInfo>, p: int)
    requires
        presets_of(s1) == presets_of(s2),
    ensures
        presets_of(rank_bucket(s1, p)) == presets_of(rank_bucket(s2, p)),
    decreases s1.len(),
{
    assert(s1.len() == s2.len()) by {
        assert(presets_of(s1).len() == s1.len());
        assert(presets_of(s2).len() == s2.len());
    }
    if s1.len() == 0 {
        reveal(Seq::filter);
        assert(presets_of(rank_bucket(s1, p)) =~= presets_of(rank_bucket(s2, p)));
    } else {
        let t1 = s1.drop_last();
        let t2 = s2.drop_last();
        assert(presets_of(t1) =~= presets_of(t2)) by {
            assert forall|j: int| 0 <= j < t1.len() implies presets_of(t1)[j] == presets_of(t2)[j]
                by {
                assert(presets_of(s1)[j] == presets_of(s2)[j]);
            }
        }
        lemma_bucket_presets(t1, t2, p);
        let x1 = s1.last();
        let x2 = s2.last();
        assert(x1.preset == x2.preset) by {
            assert(presets_of(s1)[s1.len() - 1] == presets_of(s2)[s2.len() - 1]);
        }
        lemma_filter_snoc(t1, has_rank(p), x1);
        lemma_filter_snoc(t2, has_rank(p), x2);
        assert(t1.push(x1) =~= s1);
        assert(t2.push(x2) =~= s2);
        if has_rank(p)(x1) {
            assert(rank_bucket(s1, p) == rank_bucket(t1, p).push(x1));
            assert(rank_bucket(s2, p) == rank_bucket(t2, p).push(x2));
            let u1 = rank_bucket(t1, p);
            let u2 = rank_bucket(t2, p);
            assert(u1.len() == u2.len()) by {
                assert(presets_of(u1).len() == u1.len());
                assert(presets_of(u2).len() == u2.len());
            }
            assert forall|j: int| 0 <= j < u1.push(x1).len() implies presets_of(u1.push(x1))[j]
                == presets_of(u2.push(x2))[j] by {
                if j < u1.len() {
                    assert(presets_of(u1)[j] == presets_of(u2)[j]);
                }
            }
            assert(presets_of(rank_bucket(s1, p)) =~= presets_of(rank_bucket(s2, p)));
        } else {
            assert(rank_bucket(s1, p) == rank_bucket(t1, p));
            assert(rank_bucket(s2, p) == rank_bucket(t2, p));
        }
    }
}

/// Projecting to preset labels distributes over concatenation.
proof fn lemma_presets_app(a: Seq<TransInfo>, b: Seq<TransInfo>)
    ensures
        presets_of(a + b) == presets_of(a) + presets_of(b),
{
    assert(presets_of(a + b) =~= presets_of(a) + presets_of(b));
}

/// The whole ranking projects to the same preset labels on any two
/// candidate lists with the same labels.
pub proof fn lemma_ranked_presets(s1: Seq<TransInfo>, s2: Seq<TransInfo>)
    requires
        presets_of(s1) == presets_of(s2),
    ensures
        presets_of(spec_ranked(s1)) == presets_of(spec_ranked(s2)),
{
    lemma_ranked_unfold(s1);
    lemma_ranked_unfold(s2);
    lemma_bucket_presets(s1, s2, 0);
    lemma_bucket_presets(s1, s2, 1);
    lemma_bucket_presets(s1, s2, 2);
    lemma_bucket_presets(s1, s2, 3);
    lemma_bucket_presets(s1, s2, 4);
    let e = Seq::<TransInfo>::empty();
    lemma_presets_app(e, rank_bucket(s1, 0));
    lemma_presets_app(e + rank_bucket(s1, 0), rank_bucket(s1, 1));
    lemma_presets_app(e + rank_bucket(s1, 0) + rank_bucket(s1, 1), rank_bucket(s1, 2));
    lemma_presets_app(
        e + rank_bucket(s1, 0) + rank_bucket(s1, 1) + rank_bucket(s1, 2),
        rank_bucket(s1, 3),
    );
    lemma_presets_app(
        e + rank_bucket(s1, 0) + rank_bucket(s1, 1) + rank_bucket(s1, 2) + rank_bucket(s1, 3),
        rank_bucket(s1, 4),
    );
    lemma_presets_app(e, rank_bucket(s2, 0));
    lemma_presets_app(e + rank_bucket(s2, 0), rank_bucket(s2, 1));
    lemma_presets_app(e + rank_bucket(s2, 0) + rank_bucket(s2, 1), rank_bucket(s2, 2));
    lemma_presets_app(
        e + rank_bucket(s2, 0) + rank_bucket(s2, 1) + rank_bucket(s2, 2),
        rank_bucket(s2, 3),
    );
    lemma_presets_app(
        e + rank_bucket(s2, 0) + rank_bucket(s2, 1) + rank_bucket(s2, 2) + rank_bucket(s2, 3),
        rank_bucket(s2, 4),
    );
    assert(presets_of(spec_ranked(s1)) =~= presets_of(spec_ranked(s2)));
}

/// Path determinism: the derived path is a function of title, artist
/// username, creation date and the candidates' preset labels alone.
pub proof fn lemma_path_is_deterministic(t1: TrackInfo, t2: TrackInfo, temp: bool)
    requires
        t1.title == t2.title,
        t1.user.username == t2.user.username,
        t1.created_at == t2.created_at,
        presets_of(t1.transcodings) == presets_of(t2.transcodings),
    ensures
        spec_track_path(t1, temp) == spec_track_path(t2, temp),
{
    lemma_ranked_presets(t1.transcodings, t2.transcodings);
    lemma_ranked_len(t1.transcodings);
    lemma_ranked_len(t2.transcodings);
    assert(t1.transcodings.len() == t2.transcodings.len()) by {
        assert(presets_of(t1.transcodings).len() == t1.transcodings.len());
        assert(presets_of(t2.transcodings).len() == t2.transcodings.len());
    }
    if t1.transcodings.len() > 0 {
        assert(spec_ranked(t1.transcodings)[0].preset == presets_of(spec_ranked(t1.transcodings))[0]);
        assert(spec_ranked(t2.transcodings)[0].preset == presets_of(spec_ranked(t2.transcodings))[0]);
    }
    assert(spec_best_is_aac(t1.transcodings) == spec_best_is_aac(t2.transcodings));
}

} // verus!
