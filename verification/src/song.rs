//! One song being worked on: its tag data, its candidate artwork, its
//! clustering state and the progress of the fan-out.

use vstd::prelude::*;

use crate::cluster::{cands_ok, cluster_step};
use crate::img::{cviews, ImgHash, RgbaBuf, SongImg};
use crate::img_group::{gviews, ImgGroups};
use crate::parser::TagData;
use crate::queue::{progress_step, Queue, QueueMessage};
use crate::tags::{SelectedTags, Tag, TagType, Tags};

verus! {

/// Hash that recognizes stale async results after a song was reset.
pub type SongHash = u64;

/// Index of a song in the list.
pub type SongId = usize;

/// Where a song stands in the workflow.
#[derive(Clone, Copy, Debug, PartialEq, Eq, Structural)]
pub enum SongState {
    Confirm,
    Main,
    MainLoading,
    MainDownloading,
    Hidden,
}

/// The art already embedded in the file, as far as it has been loaded.
pub enum OrigArt {
    Unloaded,
    Loading,
    Loaded(RgbaBuf),
}

/// One song and everything found for it so far.
///
/// * `sources_finished`: x out of y sources done
/// * `imgs`: the candidates, only ever appended to or cleared
/// * `tags_from_regex`: tags parsed from the file name, merged in when the
///   song is confirmed
pub struct Song {
    pub tag_data: TagData,
    pub state: SongState,
    pub original_art: Option<OrigArt>,
    pub hash: SongHash,
    pub menu_img: ImgHash,
    pub selected_img: ImgHash,
    pub sources_finished: (i32, i32),
    pub img_groups: ImgGroups,
    pub imgs: Vec<SongImg>,
    pub new_tags: Tags,
    pub tags_from_regex: Vec<Tag>,
    pub selected_tags: SelectedTags,
}

impl Song {
    /// A song fresh from the parser: awaiting confirmation, no candidates,
    /// a fresh stale-detection hash, the embedded art noted but unloaded.
    pub fn new(tag_data: TagData) -> (r: Self)
        ensures
            r.tag_data == tag_data,
            r.state is Confirm,
            tag_data.file_has_cover ==> r.original_art == Some(OrigArt::Unloaded),
            !tag_data.file_has_cover ==> r.original_art is None,
            r.menu_img == 0,
            r.selected_img == 0,
            r.sources_finished.0 == 0 && r.sources_finished.1 == Queue::TOTAL_SOURCES,
            r.imgs@.len() == 0,
            r.img_groups.groups@.len() == 0,
            r.img_groups.flat@.len() == 0,
            r.img_groups.wf(cviews(r.imgs@)),
            cands_ok(cviews(r.imgs@)),
            r.new_tags.sorted@.len() == 0,
            r.tags_from_regex@.len() == 0,
            forall|k: TagType| r.selected_tags.sel(k) is None,
    {
        let original_art = if tag_data.file_has_cover {
            Some(OrigArt::Unloaded)
        } else {
            None
        };
        let r = Self {
            state: SongState::Confirm,
            original_art,
            tag_data,
            hash: crate::img::fresh_hash(),
            menu_img: 0,
            sources_finished: (0, Queue::TOTAL_SOURCES),
            selected_img: 0,
            img_groups: ImgGroups::new(),
            imgs: Vec::new(),
            new_tags: Tags::new(),
            tags_from_regex: Vec::new(),
            selected_tags: SelectedTags::new(),
        };
        proof {
            assert(cviews(r.imgs@) =~= Seq::empty());
        }
        r
    }

    /// Throw the candidates, the clustering state, the selection and the
    /// proposed tags away; the tag data, the state and the hash stay.
    pub fn reset(&mut self)
        ensures
            final(self).imgs@.len() == 0,
            final(self).img_groups.groups@.len() == 0,
            final(self).img_groups.flat@.len() == 0,
            final(self).img_groups.wf(cviews(final(self).imgs@)),
            cands_ok(cviews(final(self).imgs@)),
            final(self).selected_img == 0,
            final(self).menu_img == 0,
            forall|k: TagType| final(self).selected_tags.sel(k) is None,
            final(self).new_tags.sorted@.len() == 0,
            final(self).tag_data == old(self).tag_data,
            final(self).state == old(self).state,
            final(self).original_art == old(self).original_art,
            final(self).hash == old(self).hash,
            final(self).sources_finished == old(self).sources_finished,
            final(self).tags_from_regex == old(self).tags_from_regex,
    {
        self.imgs.clear();
        self.img_groups.clear();
        self.selected_img = 0;
        self.menu_close();
        self.selected_tags.reset();
        self.new_tags.sorted.clear();
        proof {
            assert(cviews(self.imgs@) =~= Seq::empty());
        }
    }

    /// Close the hover menu.
    pub fn menu_close(&mut self)
        ensures
            *final(self) == (Song { menu_img: 0, ..*old(self) }),
    {
        self.menu_img = 0;
    }

    /// Apply one message from the fan-out: a found candidate is handed back
    /// for decoding, a progress announcement replaces the counter, and a
    /// completion signal advances it by one. Exactly the accounting of
    /// `progress_step`.
    pub fn handle_queue_message(&mut self, msg: QueueMessage) -> (r: Option<SongImg>)
        requires
            old(self).sources_finished.0 < i32::MAX,
        ensures
            (final(self).sources_finished.0 as int, final(self).sources_finished.1 as int)
                == progress_step(
                (old(self).sources_finished.0 as int, old(self).sources_finished.1 as int),
                msg,
            ),
            *final(self) == (Song { sources_finished: final(self).sources_finished, ..*old(self) }),
            msg is GotArt ==> r == Some(msg->GotArt_0),
            !(msg is GotArt) ==> r is None,
    {
        match msg {
            QueueMessage::GotArt(img) => Some(img),
            QueueMessage::SetSources(a, b) => {
                self.sources_finished = (a, b);
                None
            },
            QueueMessage::SourceFinished => {
                let now = self.sources_finished.0;
                self.sources_finished = (now + 1, Queue::TOTAL_SOURCES);
                None
            },
        }
    }

    /// Hand a decoded-and-sampled candidate to the clusterer: exactly one
    /// `cluster_step`, with every ordering invariant preserved.
    pub fn push_processed(&mut self, img: SongImg)
        requires
            old(self).img_groups.wf(cviews(old(self).imgs@)),
            cands_ok(cviews(old(self).imgs@)),
            img.sample is Some ==> img.sample->0.wf(),
            old(self).imgs@.len() < 20000,
        ensures
            gviews(final(self).img_groups.groups@) == cluster_step(
                gviews(old(self).img_groups.groups@),
                cviews(old(self).imgs@),
                img.cview(),
            ),
            final(self).imgs@ == old(self).imgs@.push(img),
            final(self).img_groups.wf(cviews(final(self).imgs@)),
            cands_ok(cviews(final(self).imgs@)),
            *final(self) == (Song {
                img_groups: final(self).img_groups,
                imgs: final(self).imgs,
                ..*old(self)
            }),
    {
        img.push_and_group(&mut self.img_groups, &mut self.imgs);
    }

    /// The index of the currently selected candidate, if it is still
    /// present: the first candidate carrying the selected identity.
    pub fn selected_img_index(&self) -> (r: Option<usize>)
        ensures
            match r {
                Some(i) => i < self.imgs@.len() && self.imgs@[i as int].hash == self.selected_img
                    && forall|k: int| 0 <= k < i ==> self.imgs@[k].hash != self.selected_img,
                None => forall|k: int|
                    0 <= k < self.imgs@.len() ==> self.imgs@[k].hash != self.selected_img,
            },
    {
        let mut i: usize = 0;
        let n = self.imgs.len();
        while i < n
            invariant
                n == self.imgs@.len(),
                i <= n,
                forall|k: int| 0 <= k < i ==> self.imgs@[k].hash != self.selected_img,
            decreases n - i,
        {
            if self.imgs[i].hash == self.selected_img {
                return Some(i);
            }
            i += 1;
        }
        None
    }
}

/// Whether an async result's song reference has gone stale: the song is
/// gone or was reset to a new generation.
pub fn song_is_invalid(songs: &Vec<Song>, id: SongId, hash: SongHash) -> (r: bool)
    ensures
        r == !(id < songs@.len() && songs@[id as int].hash == hash),
{
    id >= songs.len() || songs[id].hash != hash
}

} // verus!
