//! Data model: one downloadable track as the remote feed describes it,
//! together with the run's configuration record.
//!
//! Each executable type has a mathematical view built from sequences and
//! unbounded integers; every contract in the library speaks of those views.

use vstd::prelude::*;

verus! {

/// The artist owning a track.
pub struct UserDetails {
    pub id: i64,
    pub username: String,
}

/// Mathematical view of [`UserDetails`].
pub struct UserInfo {
    pub id: int,
    pub username: Seq<char>,
}

impl View for UserDetails {
    type V = UserInfo;

    open spec fn view(&self) -> UserInfo {
        UserInfo { id: self.id as int, username: self.username@ }
    }
}

/// Delivery-protocol label of one transcoding candidate.
pub struct TranscodingFormat {
    pub protocol: String,
}

impl View for TranscodingFormat {
    type V = Seq<char>;

    open spec fn view(&self) -> Seq<char> {
        self.protocol@
    }
}

/// One available encoded variant of a track's audio.
pub struct Transcoding {
    pub url: String,
    pub preset: String,
    pub format: TranscodingFormat,
}

/// Mathematical view of [`Transcoding`].
pub struct TransInfo {
    pub url: Seq<char>,
    pub preset: Seq<char>,
    pub protocol: Seq<char>,
}

impl View for Transcoding {
    type V = TransInfo;

    open spec fn view(&self) -> TransInfo {
        TransInfo { url: self.url@, preset: self.preset@, protocol: self.format.protocol@ }
    }
}

/// The views of a sequence of transcoding candidates, in order.
pub open spec fn infos_of(s: Seq<Transcoding>) -> Seq<TransInfo> {
    s.map_values(|t: Transcoding| t@)
}

/// The media variants available for one track.
pub struct Media {
    pub transcodings: Vec<Transcoding>,
}

impl View for Media {
    type V = Seq<TransInfo>;

    open spec fn view(&self) -> Seq<TransInfo> {
        infos_of(self.transcodings@)
    }
}

/// Identity and metadata of one downloadable unit, as one feed entry
/// carries it.
pub struct Track {
    pub id: i64,
    pub duration: usize,
    pub title: String,
    pub permalink_url: String,
    pub downloadable: Option<bool>,
    pub user: UserDetails,
    pub artwork_url: Option<String>,
    pub download_url: Option<String>,
    pub stream_url: Option<String>,
    pub created_at: String,
    pub kind: String,
    pub media: Media,
}

/// Mathematical view of [`Track`].
pub struct TrackInfo {
    pub id: int,
    pub duration: nat,
    pub title: Seq<char>,
    pub permalink_url: Seq<char>,
    pub downloadable: Option<bool>,
    pub user: UserInfo,
    pub artwork_url: Option<Seq<char>>,
    pub download_url: Option<Seq<char>>,
    pub stream_url: Option<Seq<char>>,
    pub created_at: Seq<char>,
    pub kind: Seq<char>,
    pub transcodings: Seq<TransInfo>,
}

/// The view of an optional string.
pub open spec fn view_opt_string(o: Option<String>) -> Option<Seq<char>> {
    match o {
        Some(s) => Some(s@),
        None => None,
    }
}

impl View for Track {
    type V = TrackInfo;

    open spec fn view(&self) -> TrackInfo {
        TrackInfo {
            id: self.id as int,
            duration: self.duration as nat,
            title: self.title@,
            permalink_url: self.permalink_url@,
            downloadable: self.downloadable,
            user: self.user@,
            artwork_url: view_opt_string(self.artwork_url),
            download_url: view_opt_string(self.download_url),
            stream_url: view_opt_string(self.stream_url),
            created_at: self.created_at@,
            kind: self.kind@,
            transcodings: self.media@,
        }
    }
}

/// The views of a sequence of tracks, in order.
pub open spec fn track_infos_of(s: Seq<Track>) -> Seq<TrackInfo> {
    s.map_values(|t: Track| t@)
}

/// One raw feed entry; not every entry wraps a track.
pub struct CollectionInfo {
    pub track: Option<Track>,
}

impl View for CollectionInfo {
    type V = Option<TrackInfo>;

    open spec fn view(&self) -> Option<TrackInfo> {
        match self.track {
            Some(t) => Some(t@),
            None => None,
        }
    }
}

/// One page of the remote activity feed.
pub struct Activities {
    pub collection: Vec<CollectionInfo>,
}

impl View for Activities {
    type V = Seq<Option<TrackInfo>>;

    open spec fn view(&self) -> Seq<Option<TrackInfo>> {
        self.collection@.map_values(|e: CollectionInfo| e@)
    }
}

/// The run's configuration: credentials and inclusion thresholds.
pub struct Settings {
    pub client_id: String,
    pub oauth_token: String,
    pub duration_minutes: usize,
    pub min_tracks: usize,
}

/// Duplicate an optional string, keeping its characters.
pub fn dup_opt_string(o: &Option<String>) -> (r: Option<String>)
    ensures
        view_opt_string(r) == view_opt_string(*o),
{
    match o {
        Some(s) => Some(s.clone()),
        None => None,
    }
}

impl Transcoding {
    /// A fresh value carrying the same strings.
    pub fn duplicate(&self) -> (r: Transcoding)
        ensures
            r@ == self@,
    {
        Transcoding {
            url: self.url.clone(),
            preset: self.preset.clone(),
            format: TranscodingFormat { protocol: self.format.protocol.clone() },
        }
    }
}

impl Media {
    /// A fresh value carrying the same candidates.
    pub fn duplicate(&self) -> (r: Media)
        ensures
            r@ == self@,
    {
        let mut out: Vec<Transcoding> = Vec::new();
        let n = self.transcodings.len();
        let mut i: usize = 0;
        while i < n
            invariant
                0 <= i <= n,
                n == self.transcodings@.len(),
                out@.len() == i,
                forall|j: int| 0 <= j < i ==> out@[j]@ == self.transcodings@[j]@,
            decreases n - i,
        {
            let d = self.transcodings[i].duplicate();
            out.push(d);
            i += 1;
        }
        proof {
            assert(infos_of(out@) =~= infos_of(self.transcodings@));
        }
        Media { transcodings: out }
    }
}

impl Track {
    /// A fresh value with the same view.
    pub fn duplicate(&self) -> (r: Track)
        ensures
            r@ == self@,
    {
        Track {
            id: self.id,
            duration: self.duration,
            title: self.title.clone(),
            permalink_url: self.permalink_url.clone(),
            downloadable: self.downloadable,
            user: UserDetails { id: self.user.id, username: self.user.username.clone() },
            artwork_url: dup_opt_string(&self.artwork_url),
            download_url: dup_opt_string(&self.download_url),
            stream_url: dup_opt_string(&self.stream_url),
            created_at: self.created_at.clone(),
            kind: self.kind.clone(),
            media: self.media.duplicate(),
        }
    }
}

} // verus!
