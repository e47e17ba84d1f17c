//! Replacement tags proposed for a song, with their scoreboard, and the
//! user's current selection.

use vstd::prelude::*;

use vstd::multiset::Multiset;

use crate::parser::TagData;
use crate::text::{clone_opt_string, opt_string_eq, str_eq, vopt};

verus! {

broadcast use {vstd::seq_lib::group_to_multiset_ensures, vstd::multiset::group_multiset_axioms};

/// Score a tag gets when the user or the filename supplied it.
pub const USER_INPUT_TAG_SCORE: i32 = 100;

/// Which tag field a value belongs to. `Total` is a sentinel carrying no
/// field of its own.
#[derive(Clone, Copy, Debug, PartialEq, Eq, Structural)]
pub enum TagType {
    Artist,
    Album,
    Title,
    Total,
}

impl TagType {
    /// The label a tag button shows.
    pub fn to_label(&self) -> (s: &'static str)
        requires
            !(self is Total),
        ensures
            self is Artist ==> s@ == "Artist"@,
            self is Album ==> s@ == "Album"@,
            self is Title ==> s@ == "Title"@,
    {
        match self {
            TagType::Artist => "Artist",
            TagType::Album => "Album",
            TagType::Title => "Title",
            TagType::Total => vstd::pervasive::unreached(),
        }
    }
}

/// The values the user has selected to write, one per tag field.
pub struct SelectedTags {
    pub artist: Option<String>,
    pub album: Option<String>,
    pub title: Option<String>,
}

/// The values that are to be written into the file, taken out of the
/// selection by `apply_selected`.
pub struct TagWrites {
    pub album: Option<String>,
    pub title: Option<String>,
    pub artist: Option<String>,
}

impl SelectedTags {
    /// The selected value of one field.
    pub open spec fn sel(self, key: TagType) -> Option<Seq<char>> {
        match key {
            TagType::Artist => vopt(self.artist),
            TagType::Album => vopt(self.album),
            TagType::Title => vopt(self.title),
            TagType::Total => None,
        }
    }

    /// Nothing selected.
    pub fn new() -> (r: Self)
        ensures
            forall|k: TagType| r.sel(k) is None,
    {
        Self { artist: None, album: None, title: None }
    }

    /// Drop every selection.
    pub fn reset(&mut self)
        ensures
            forall|k: TagType| final(self).sel(k) is None,
    {
        *self = Self::new();
    }

    /// Whether this exact value is the selected one for the field.
    pub fn is_select(&self, key: TagType, value: &str) -> (r: bool)
        ensures
            r == (self.sel(key) is Some && self.sel(key)->0 == value@),
    {
        let sel = match key {
            TagType::Artist => &self.artist,
            TagType::Album => &self.album,
            TagType::Title => &self.title,
            TagType::Total => &None,
        };
        match sel {
            Some(t) => str_eq(t.as_str(), value),
            None => false,
        }
    }

    /// Select a value for the field (or clear it with `None`).
    pub fn select(&mut self, key: TagType, value: Option<String>)
        requires
            !(key is Total),
        ensures
            final(self).sel(key) == vopt(value),
            forall|k: TagType| k != key ==> final(self).sel(k) == old(self).sel(k),
    {
        match key {
            TagType::Artist => self.artist = value,
            TagType::Album => self.album = value,
            TagType::Title => self.title = value,
            TagType::Total => {},
        }
    }

    /// Select the value, or clear the field when it was already selected.
    pub fn toggle(&mut self, key: TagType, value: Option<String>)
        requires
            !(key is Total),
        ensures
            old(self).sel(key) == vopt(value) ==> final(self).sel(key) is None,
            old(self).sel(key) != vopt(value) ==> final(self).sel(key) == vopt(value),
            forall|k: TagType| k != key ==> final(self).sel(k) == old(self).sel(k),
    {
        let cur = match key {
            TagType::Artist => &self.artist,
            TagType::Album => &self.album,
            TagType::Title => &self.title,
            TagType::Total => &None,
        };
        if opt_string_eq(cur, &value) {
            self.select(key, None);
        } else {
            self.select(key, value);
        }
    }

    /// Take the selections out and apply them to the tag data: each
    /// selected value replaces the song's field (an empty string clears
    /// it), and the values are handed back so the caller can write them
    /// into the file. Afterwards nothing is selected.
    pub fn apply_selected(&mut self, tag_data: &mut TagData) -> (w: TagWrites)
        ensures
            forall|k: TagType| final(self).sel(k) is None,
            vopt(w.album) == old(self).sel(TagType::Album),
            vopt(w.title) == old(self).sel(TagType::Title),
            vopt(w.artist) == old(self).sel(TagType::Artist),
            vopt(final(tag_data).album) == apply_field(old(self).sel(TagType::Album), vopt(old(
                tag_data,
            ).album)),
            vopt(final(tag_data).title) == apply_field(old(self).sel(TagType::Title), vopt(old(
                tag_data,
            ).title)),
            vopt(final(tag_data).artist) == apply_field(old(self).sel(TagType::Artist), vopt(old(
                tag_data,
            ).artist)),
            final(tag_data).path == old(tag_data).path,
            final(tag_data).file_artist == old(tag_data).file_artist,
            final(tag_data).file_title == old(tag_data).file_title,
            final(tag_data).file_album == old(tag_data).file_album,
            final(tag_data).file_has_cover == old(tag_data).file_has_cover,
    {
        let album = self.album.take();
        let title = self.title.take();
        let artist = self.artist.take();

        let album_w = clone_opt_string(&album);
        let title_w = clone_opt_string(&title);
        let artist_w = clone_opt_string(&artist);

        if let Some(v) = album {
            tag_data.album = if v.as_str().is_empty() {
                None
            } else {
                Some(v)
            };
        }
        if let Some(v) = title {
            tag_data.title = if v.as_str().is_empty() {
                None
            } else {
                Some(v)
            };
        }
        if let Some(v) = artist {
            tag_data.artist = if v.as_str().is_empty() {
                None
            } else {
                Some(v)
            };
        }
        TagWrites { album: album_w, title: title_w, artist: artist_w }
    }
}

/// What a field becomes when a selection is applied over it: an empty
/// selected value clears it, a non-empty one replaces it, no selection
/// leaves it alone.
pub open spec fn apply_field(selected: Option<Seq<char>>, prev: Option<Seq<char>>) -> Option<
    Seq<char>,
> {
    match selected {
        Some(v) => if v.len() == 0 {
            None
        } else {
            Some(v)
        },
        None => prev,
    }
}

/// One proposed tag value with its score.
pub struct Tag {
    pub score: i32,
    pub key: TagType,
    pub value: String,
}

/// What the contracts see of a tag.
#[verifier::ext_equal]
pub struct TagView {
    pub score: int,
    pub key: TagType,
    pub value: Seq<char>,
}

impl View for Tag {
    type V = TagView;

    open spec fn view(&self) -> TagView {
        TagView { score: self.score as int, key: self.key, value: self.value@ }
    }
}

/// The tags as the contracts see them.
pub open spec fn tviews(ts: Seq<Tag>) -> Seq<TagView> {
    ts.map_values(|t: Tag| t@)
}

/// Scores never decrease from the front.
pub open spec fn score_sorted(ts: Seq<TagView>) -> bool {
    forall|i: int, j: int| 0 <= i <= j < ts.len() ==> ts[i].score <= ts[j].score
}

/// The first tag carrying this value, if any.
pub open spec fn first_with_value(ts: Seq<TagView>, v: Seq<char>) -> Option<int>
    decreases ts.len(),
{
    if ts.len() == 0 {
        None::<int>
    } else if ts[0].value == v {
        Some(0int)
    } else {
        match first_with_value(ts.drop_first(), v) {
            Some(i) => Some(i + 1),
            None => None,
        }
    }
}

/// A score bumped by another, saturating at the extremes of the range.
pub open spec fn bumped(a: int, b: int) -> int {
    if i32::MIN <= a + b <= i32::MAX {
        a + b
    } else {
        i32::MAX as int
    }
}

proof fn lemma_first_with_value_props(ts: Seq<TagView>, v: Seq<char>)
    ensures
        match first_with_value(ts, v) {
            Some(i) => 0 <= i < ts.len() && ts[i].value == v && forall|k: int|
                0 <= k < i ==> ts[k].value != v,
            None => forall|k: int| 0 <= k < ts.len() ==> ts[k].value != v,
        },
    decreases ts.len(),
{
    if ts.len() > 0 && ts[0].value != v {
        lemma_first_with_value_props(ts.drop_first(), v);
        let d = ts.drop_first();
        match first_with_value(d, v) {
            Some(i) => {
                assert(d[i] == ts[i + 1]);
                assert forall|k: int| 0 <= k < i + 1 implies ts[k].value != v by {
                    if k > 0 {
                        assert(d[k - 1] == ts[k]);
                    }
                }
            },
            None => {
                assert forall|k: int| 0 <= k < ts.len() implies ts[k].value != v by {
                    if k > 0 {
                        assert(d[k - 1] == ts[k]);
                    }
                }
            },
        }
    }
}

/// The proposed tags, kept sorted ascending by score.
pub struct Tags {
    pub sorted: Vec<Tag>,
}

impl Tags {
    /// No tags yet.
    pub fn new() -> (r: Self)
        ensures
            r.sorted@.len() == 0,
    {
        Self { sorted: Vec::new() }
    }

    /// Merge a tag in: a tag with the same value gets its score raised
    /// (saturating), a new value is appended.
    pub fn add_or_push(&mut self, new_tag: Tag)
        ensures
            ({
                let ts = tviews(old(self).sorted@);
                match first_with_value(ts, new_tag@.value) {
                    Some(i) => tviews(final(self).sorted@) == ts.update(
                        i,
                        TagView { score: bumped(ts[i].score, new_tag@.score), ..ts[i] },
                    ),
                    None => tviews(final(self).sorted@) == ts.push(new_tag@),
                }
            }),
    {
        proof {
            lemma_tviews_index(self.sorted@);
            lemma_first_with_value_props(tviews(self.sorted@), new_tag@.value);
        }
        let ghost ts = tviews(self.sorted@);
        let n = self.sorted.len();
        let mut i: usize = 0;
        while i < n
            invariant
                *self == *old(self),
                ts == tviews(self.sorted@),
                n == self.sorted@.len(),
                i <= n,
                forall|k: int| 0 <= k < i ==> ts[k].value != new_tag@.value,
            decreases n - i,
        {
            proof {
                lemma_tviews_index(self.sorted@);
            }
            if str_eq(self.sorted[i].value.as_str(), new_tag.value.as_str()) {
                proof {
                    assert(ts[i as int].value == new_tag@.value);
                    lemma_first_with_value_props(ts, new_tag@.value);
                    let fw = first_with_value(ts, new_tag@.value);
                    if fw is None {
                        assert(false);
                    } else {
                        let j = fw->0;
                        if j < i {
                            assert(ts[j].value != new_tag@.value);
                        }
                        if j > i {
                            assert(ts[i as int].value != new_tag@.value);
                        }
                    }
                    assert(first_with_value(ts, new_tag@.value) == Some(i as int));
                }
                let mut t = self.sorted.remove(i);
                let s = match t.score.checked_add(new_tag.score) {
                    Some(s) => s,
                    None => i32::MAX,
                };
                t.score = s;
                self.sorted.insert(i, t);
                proof {
                    lemma_tviews_index(self.sorted@);
                    assert(tviews(self.sorted@) =~~= ts.update(
                        i as int,
                        TagView { score: bumped(ts[i as int].score, new_tag@.score), ..ts[
                            i as int
                        ] },
                    ));
                }
                return ;
            }
            i += 1;
        }
        proof {
            assert(first_with_value(ts, new_tag@.value) is None);
        }
        self.sorted.push(new_tag);
        proof {
            lemma_tviews_index(self.sorted@);
            assert(tviews(self.sorted@) =~~= ts.push(tviews(self.sorted@).last()));
        }
    }

    /// Sort the tags ascending by score. Tags are reordered, never lost.
    pub fn sort(&mut self)
        ensures
            score_sorted(tviews(final(self).sorted@)),
            tviews(final(self).sorted@).to_multiset() == tviews(old(self).sorted@).to_multiset(),
    {
        proof {
            lemma_tviews_index(self.sorted@);
        }
        let mut out: Vec<Tag> = Vec::new();
        let ghost orig = tviews(old(self).sorted@);
        while self.sorted.len() > 0
            invariant
                score_sorted(tviews(out@)),
                tviews(out@).to_multiset().add(tviews(self.sorted@).to_multiset()) =~= orig.to_multiset(),
            decreases self.sorted@.len(),
        {
            proof {
                lemma_tviews_index(self.sorted@);
                lemma_tviews_index(out@);
            }
            let ghost pre = tviews(self.sorted@);
            let ghost outv = tviews(out@);
            let t = self.sorted.remove(0);
            proof {
                lemma_tviews_index(self.sorted@);
                assert(tviews(self.sorted@) =~~= pre.remove(0));
                assert(pre.remove(0).to_multiset() == pre.to_multiset().remove(pre[0]));
                assert(pre[0] == t@);
                assert(pre.to_multiset().contains(t@)) by {
                    assert(pre.contains(t@));
                }
            }
            let mut p: usize = out.len();
            while p > 0 && out[p - 1].score > t.score
                invariant
                    outv == tviews(out@),
                    p <= out@.len(),
                    forall|k: int| p <= k < outv.len() ==> outv[k].score > t@.score,
                decreases p,
            {
                proof {
                    lemma_tviews_index(out@);
                }
                p -= 1;
            }
            proof {
                lemma_tviews_index(out@);
                if p > 0 {
                    assert(outv[p - 1].score <= t@.score);
                }
            }
            out.insert(p, t);
            proof {
                lemma_tviews_index(out@);
                assert(tviews(out@) =~~= outv.insert(p as int, t@));
                assert(tviews(out@).to_multiset() == outv.to_multiset().insert(t@)) by {
                    assert(outv.insert(p as int, t@).to_multiset() == outv.to_multiset().insert(
                        t@,
                    ));
                }
                assert forall|i: int, j: int|
                    0 <= i <= j < tviews(out@).len() implies tviews(out@)[i].score <= tviews(
                    out@,
                )[j].score by {
                    let newv = outv.insert(p as int, t@);
                    if i < p {
                        assert(newv[i] == outv[i]);
                    }
                    if j < p {
                        assert(newv[j] == outv[j]);
                    }
                    if i > p {
                        assert(newv[i] == outv[i - 1]);
                    }
                    if j > p {
                        assert(newv[j] == outv[j - 1]);
                    }
                    if p > 0 && i < p && j == p {
                        assert(outv[i].score <= outv[p - 1].score);
                    }
                }
                assert(outv.to_multiset().insert(t@).add(pre.to_multiset().remove(pre[0]))
                    =~= outv.to_multiset().add(pre.to_multiset()));
                assert(tviews(out@).to_multiset().add(tviews(self.sorted@).to_multiset())
                    =~= orig.to_multiset());
            }
        }
        proof {
            assert(tviews(self.sorted@) =~~= Seq::<TagView>::empty());
            assert(tviews(self.sorted@).to_multiset() =~= Multiset::<TagView>::empty());
        }
        self.sorted = out;
        proof {
            assert(tviews(self.sorted@).to_multiset() =~= orig.to_multiset());
        }
    }

    /// Merge one tag in and re-sort.
    pub fn add(&mut self, new_tag: Tag)
        ensures
            score_sorted(tviews(final(self).sorted@)),
            tviews(final(self).sorted@).to_multiset() == ({
                let ts = tviews(old(self).sorted@);
                match first_with_value(ts, new_tag@.value) {
                    Some(i) => ts.update(
                        i,
                        TagView { score: bumped(ts[i].score, new_tag@.score), ..ts[i] },
                    ).to_multiset(),
                    None => ts.push(new_tag@).to_multiset(),
                }
            }),
    {
        self.add_or_push(new_tag);
        self.sort();
    }

    /// Merge several tags in, then re-sort once. An empty batch changes
    /// nothing.
    pub fn extend(&mut self, new_tags: Vec<Tag>)
        ensures
            new_tags@.len() == 0 ==> *final(self) == *old(self),
            new_tags@.len() > 0 ==> score_sorted(tviews(final(self).sorted@)) && tviews(
                final(self).sorted@,
            ).to_multiset() == absorb_all(tviews(old(self).sorted@), tviews(new_tags@)).to_multiset(),
    {
        if new_tags.len() == 0 {
            return ;
        }
        let mut new_tags = new_tags;
        let ghost incoming = tviews(new_tags@);
        let ghost mut done: int = 0;
        proof {
            lemma_tviews_index(new_tags@);
        }
        while new_tags.len() > 0
            invariant
                0 <= done <= incoming.len(),
                tviews(new_tags@) =~= incoming.subrange(done, incoming.len() as int),
                tviews(self.sorted@) == absorb_all(
                    tviews(old(self).sorted@),
                    incoming.take(done),
                ),
            decreases new_tags@.len(),
        {
            proof {
                lemma_tviews_index(new_tags@);
            }
            let ghost pre = tviews(new_tags@);
            let t = new_tags.remove(0);
            proof {
                lemma_tviews_index(new_tags@);
                assert(tviews(new_tags@) =~~= pre.remove(0));
                assert(t@ == pre[0]);
                assert(pre[0] == incoming[done]);
            }
            let ghost before = tviews(self.sorted@);
            self.add_or_push(t);
            proof {
                assert(incoming.take(done + 1).drop_last() =~= incoming.take(done));
                assert(incoming.take(done + 1).last() == incoming[done]);
                assert(absorb_all(tviews(old(self).sorted@), incoming.take(done + 1)) == absorb(
                    before,
                    incoming[done],
                ));
                assert(tviews(new_tags@) =~= incoming.subrange(done + 1, incoming.len() as int));
            }
            proof {
                done = done + 1;
            }
        }
        proof {
            assert(incoming.take(done) =~= incoming);
        }
        self.sort();
    }
}

/// What `add_or_push` makes of the tag list.
pub open spec fn absorb(ts: Seq<TagView>, t: TagView) -> Seq<TagView> {
    match first_with_value(ts, t.value) {
        Some(i) => ts.update(i, TagView { score: bumped(ts[i].score, t.score), ..ts[i] }),
        None => ts.push(t),
    }
}

/// A whole batch merged in, in order.
pub open spec fn absorb_all(ts: Seq<TagView>, new: Seq<TagView>) -> Seq<TagView>
    decreases new.len(),
{
    if new.len() == 0 {
        ts
    } else {
        absorb(absorb_all(ts, new.drop_last()), new.last())
    }
}

pub proof fn lemma_tviews_index(ts: Seq<Tag>)
    ensures
        tviews(ts).len() == ts.len(),
        forall|i: int| 0 <= i < ts.len() ==> tviews(ts)[i] == ts[i]@,
{
}

} // verus!
