//! Provider identities and the weight policy that ranks them.

use vstd::prelude::*;

verus! {

/// Which provider and query kind produced a candidate. The identity doubles
/// as the key into the weight policy, so it decides how groups and members
/// are ranked and which candidate the auto-pick prefers.
#[derive(Clone, Copy, Debug, PartialEq, Eq, Structural)]
pub enum Source {
    YoutubeAlbum,
    YoutubeTitle,
    BrainzAlbum,
    BrainzTitle,
    BandcampAlbum,
    BandcampTitle,
    YoutubeMusicAlbum,
    YoutubeMusicTitle,
    LocalFile,
}

/// The fixed priority of a source: art embedded in the local file outranks
/// everything, the curated metadata database outranks the web search
/// providers, and for each provider an album match outranks a title match.
pub open spec fn weight_of(src: Source) -> int {
    match src {
        Source::LocalFile => 99999,
        Source::BrainzAlbum => 20,
        Source::BrainzTitle => 19,
        Source::BandcampAlbum => 15,
        Source::BandcampTitle => 14,
        Source::YoutubeMusicAlbum => 13,
        Source::YoutubeMusicTitle => 12,
        Source::YoutubeAlbum => 11,
        Source::YoutubeTitle => 10,
    }
}

/// Every weight the policy hands out lies in this range; sums of weights are
/// bounded through it.
pub const MAX_SOURCE_WEIGHT: i32 = 99999;

impl Source {
    /// The ranking weight of this source. Total, deterministic, positive.
    pub fn get_weight(self) -> (w: i32)
        ensures
            w == weight_of(self),
            1 <= w <= MAX_SOURCE_WEIGHT,
    {
        match self {
            Source::LocalFile => 99999,
            Source::BrainzAlbum => 20,
            Source::BrainzTitle => 19,
            Source::BandcampAlbum => 15,
            Source::BandcampTitle => 14,
            Source::YoutubeMusicAlbum => 13,
            Source::YoutubeMusicTitle => 12,
            Source::YoutubeAlbum => 11,
            Source::YoutubeTitle => 10,
        }
    }

    /// The user-facing description of the provider and query kind.
    pub open spec fn label_of(self) -> Seq<char> {
        match self {
            Source::YoutubeAlbum => "youtube.com (%artist% %album% album)"@,
            Source::YoutubeTitle => "youtube.com (%artist% %title% audio)"@,
            Source::BrainzAlbum => "musicbrainz.com (%artist% %album%)"@,
            Source::BrainzTitle => "musicbrainz.com (%artist% %title%)"@,
            Source::BandcampAlbum => "bandcamp.com (%artist% %album%)"@,
            Source::BandcampTitle => "bandcamp.com (%artist% %title%)"@,
            Source::YoutubeMusicAlbum => "music.youtube.com (%artist% %album%)"@,
            Source::YoutubeMusicTitle => "music.youtube.com (%artist% %title%)"@,
            Source::LocalFile => "local file"@,
        }
    }

    /// The provenance line shown beside a candidate.
    pub fn label(self) -> (s: String)
        ensures
            s@ == self.label_of(),
    {
        match self {
            Source::YoutubeAlbum => "youtube.com (%artist% %album% album)".to_owned(),
            Source::YoutubeTitle => "youtube.com (%artist% %title% audio)".to_owned(),
            Source::BrainzAlbum => "musicbrainz.com (%artist% %album%)".to_owned(),
            Source::BrainzTitle => "musicbrainz.com (%artist% %title%)".to_owned(),
            Source::BandcampAlbum => "bandcamp.com (%artist% %album%)".to_owned(),
            Source::BandcampTitle => "bandcamp.com (%artist% %title%)".to_owned(),
            Source::YoutubeMusicAlbum => "music.youtube.com (%artist% %album%)".to_owned(),
            Source::YoutubeMusicTitle => "music.youtube.com (%artist% %title%)".to_owned(),
            Source::LocalFile => "local file".to_owned(),
        }
    }
}

/// The weight policy gives a strict, auditable order: two sources share a
/// weight only when they are the same source.
pub proof fn lemma_weight_policy_strict(a: Source, b: Source)
    ensures
        weight_of(a) == weight_of(b) <==> a == b,
{
}

} // verus!
