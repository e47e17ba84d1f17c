//! The tag data read from a music file, as plain values, and the helpers
//! that normalize it and derive replacement tags from a file name.
//!
//! Reading and writing the file itself is the caller's business: it hands
//! the already-read artist, title and album strings in and takes the edits
//! back out.

use vstd::prelude::*;
use vstd::string::StrSliceExecFns;
use vstd::string::StringExecFns;

use crate::tags::{Tag, TagType, TagView, tviews, USER_INPUT_TAG_SCORE};
use crate::text::{str_eq, vopt};

verus! {

/// Which tag field a file-name fragment is taken as; `Skip` drops the
/// fragment.
#[derive(Clone, Copy, Debug, PartialEq, Eq, Structural)]
pub enum RegexType {
    Album,
    Title,
    Artist,
    Skip,
}

impl RegexType {
    /// The label the filter button shows.
    pub fn to_str(&self) -> (s: &'static str)
        ensures
            self is Album ==> s@ == "album"@,
            self is Title ==> s@ == "title"@,
            self is Artist ==> s@ == "artist"@,
            self is Skip ==> s@ == "skip"@,
    {
        match self {
            Self::Album => "album",
            Self::Title => "title",
            Self::Artist => "artist",
            Self::Skip => "skip",
        }
    }

    /// The next choice in the filter button's cycle.
    pub fn next(&self) -> (r: Self)
        ensures
            self is Album ==> r is Title,
            self is Title ==> r is Artist,
            self is Artist ==> r is Skip,
            self is Skip ==> r is Album,
    {
        match self {
            Self::Album => Self::Title,
            Self::Title => Self::Artist,
            Self::Artist => Self::Skip,
            Self::Skip => Self::Album,
        }
    }

    /// Take a file-name fragment as this kind of tag: the matching field of
    /// the tag data is filled if it was empty, and a replacement tag is
    /// proposed — unless the fragment merely repeats the field's present
    /// value, or the kind is `Skip`.
    pub fn reg_to_tags(&self, entry: &String, data: &mut TagData) -> (r: Option<Tag>)
        ensures
            final(data).path == old(data).path,
            final(data).file_artist == old(data).file_artist,
            final(data).file_title == old(data).file_title,
            final(data).file_album == old(data).file_album,
            final(data).file_has_cover == old(data).file_has_cover,
            self is Skip ==> r is None && *final(data) == *old(data),
            self is Album ==> reg_field_post(
                entry@,
                vopt(old(data).artist),
                vopt(final(data).artist),
                true,
            ) && reg_field_post(entry@, vopt(old(data).title), vopt(final(data).title), true)
                && reg_field_post(entry@, vopt(old(data).album), vopt(final(data).album), false),
            self is Title ==> reg_field_post(
                entry@,
                vopt(old(data).artist),
                vopt(final(data).artist),
                true,
            ) && reg_field_post(entry@, vopt(old(data).title), vopt(final(data).title), false)
                && reg_field_post(entry@, vopt(old(data).album), vopt(final(data).album), true),
            self is Artist ==> reg_field_post(
                entry@,
                vopt(old(data).artist),
                vopt(final(data).artist),
                false,
            ) && reg_field_post(entry@, vopt(old(data).title), vopt(final(data).title), true)
                && reg_field_post(entry@, vopt(old(data).album), vopt(final(data).album), true),
            !(self is Skip) ==> ({
                let prev = match self {
                    Self::Album => vopt(old(data).album),
                    Self::Title => vopt(old(data).title),
                    Self::Artist => vopt(old(data).artist),
                    Self::Skip => None,
                };
                let key = match self {
                    Self::Album => TagType::Album,
                    Self::Title => TagType::Title,
                    Self::Artist => TagType::Artist,
                    Self::Skip => TagType::Total,
                };
                if prev == Some(entry@) {
                    r is None
                } else {
                    r is Some && r->0@ == (TagView {
                        score: USER_INPUT_TAG_SCORE as int,
                        key,
                        value: entry@,
                    })
                }
            }),
    {
        match self {
            Self::Album => {
                if let Some(e) = &data.album {
                    if str_eq(entry.as_str(), e.as_str()) {
                        return None;
                    }
                } else {
                    data.album = Some(entry.clone());
                }
                Some(Tag { value: entry.clone(), score: USER_INPUT_TAG_SCORE, key: TagType::Album })
            },
            Self::Title => {
                if let Some(e) = &data.title {
                    if str_eq(entry.as_str(), e.as_str()) {
                        return None;
                    }
                } else {
                    data.title = Some(entry.clone());
                }
                Some(Tag { value: entry.clone(), score: USER_INPUT_TAG_SCORE, key: TagType::Title })
            },
            Self::Artist => {
                if let Some(e) = &data.artist {
                    if str_eq(entry.as_str(), e.as_str()) {
                        return None;
                    }
                } else {
                    data.artist = Some(entry.clone());
                }
                Some(
                    Tag { value: entry.clone(), score: USER_INPUT_TAG_SCORE, key: TagType::Artist },
                )
            },
            Self::Skip => None,
        }
    }
}

/// What one tag-data field becomes when a fragment is taken for some field:
/// a field of another kind (`other`) is never touched; the matching field
/// is filled with the fragment when it was empty, else kept.
pub open spec fn reg_field_post(
    entry: Seq<char>,
    prev: Option<Seq<char>>,
    now: Option<Seq<char>>,
    other: bool,
) -> bool {
    if other {
        now == prev
    } else {
        match prev {
            Some(v) => now == Some(v),
            None => now == Some(entry) || now == prev,
        }
    }
}

/// How file names are parsed into tags.
#[derive(Clone, Debug)]
pub struct ParseSettings {
    pub recursive: bool,
    pub parse_file_name: bool,
    pub reg_keys: Vec<RegexType>,
    pub reg_separators: Vec<String>,
}

impl Default for ParseSettings {
    /// Walk folders recursively; when file-name parsing is switched on,
    /// read "artist - title".
    fn default() -> (r: Self)
        ensures
            r.recursive,
            !r.parse_file_name,
            r.reg_keys@ == seq![RegexType::Artist, RegexType::Title],
            r.reg_separators@.len() == 1 && r.reg_separators@[0]@ == " - "@,
    {
        let mut reg_keys: Vec<RegexType> = Vec::new();
        reg_keys.push(RegexType::Artist);
        reg_keys.push(RegexType::Title);
        let mut reg_separators: Vec<String> = Vec::new();
        reg_separators.push(String::from_str(" - "));
        proof {
            assert(reg_keys@ =~= seq![RegexType::Artist, RegexType::Title]);
        }
        Self { recursive: true, parse_file_name: false, reg_keys, reg_separators }
    }
}

/// The tags of one music file, as plain values: the path it was found
/// under, what the file's own tag frame holds (`file_*`, read once), and
/// the current working values of artist, title and album.
pub struct TagData {
    pub path: String,
    pub file_artist: Option<String>,
    pub file_title: Option<String>,
    pub file_album: Option<String>,
    pub file_has_cover: bool,
    pub artist: Option<String>,
    pub title: Option<String>,
    pub album: Option<String>,
}

impl TagData {
    /// Fresh tag data: the file's values recorded, nothing normalized yet.
    pub fn new(
        path: String,
        file_artist: Option<String>,
        file_title: Option<String>,
        file_album: Option<String>,
        file_has_cover: bool,
    ) -> (r: Self)
        ensures
            r.path == path,
            r.file_artist == file_artist,
            r.file_title == file_title,
            r.file_album == file_album,
            r.file_has_cover == file_has_cover,
            r.artist is None,
            r.title is None,
            r.album is None,
    {
        Self {
            path,
            file_artist,
            file_title,
            file_album,
            file_has_cover,
            artist: None,
            title: None,
            album: None,
        }
    }
}

/// An empty tag string means no tag.
pub open spec fn map_tag_spec(src: Option<Seq<char>>) -> Option<Seq<char>> {
    match src {
        Some(s) => if s.len() == 0 {
            None
        } else {
            Some(s)
        },
        None => None,
    }
}

/// Normalize a raw tag read from a file: absent or empty becomes `None`.
pub fn map_tag(src: Option<&str>) -> (r: Option<String>)
    ensures
        vopt(r) == map_tag_spec(
            match src {
                Some(s) => Some(s@),
                None => None,
            },
        ),
{
    if let Some(s) = src {
        if s.is_empty() {
            None
        } else {
            Some(s.to_owned())
        }
    } else {
        None
    }
}

/// Normalize a song's working tags from what its file's tag frame holds:
/// each of artist, title and album becomes the file's value, with absent or
/// empty values mapped to `None`. Splitting the file name into further tag
/// fragments is the caller's business; it feeds each fragment to
/// `RegexType::reg_to_tags`.
pub fn parse_tags(song: &mut crate::song::Song, _set: &ParseSettings)
    ensures
        vopt(final(song).tag_data.artist) == map_tag_spec(vopt(old(song).tag_data.file_artist)),
        vopt(final(song).tag_data.title) == map_tag_spec(vopt(old(song).tag_data.file_title)),
        vopt(final(song).tag_data.album) == map_tag_spec(vopt(old(song).tag_data.file_album)),
        final(song).tag_data.path == old(song).tag_data.path,
        final(song).tag_data.file_artist == old(song).tag_data.file_artist,
        final(song).tag_data.file_title == old(song).tag_data.file_title,
        final(song).tag_data.file_album == old(song).tag_data.file_album,
        final(song).tag_data.file_has_cover == old(song).tag_data.file_has_cover,
        *final(song) == (crate::song::Song { tag_data: final(song).tag_data, ..*old(song) }),
{
    song.tag_data.artist = normalized(&song.tag_data.file_artist);
    song.tag_data.title = normalized(&song.tag_data.file_title);
    song.tag_data.album = normalized(&song.tag_data.file_album);
}

/// The normalized copy of a raw tag value.
fn normalized(src: &Option<String>) -> (r: Option<String>)
    ensures
        vopt(r) == map_tag_spec(vopt(*src)),
{
    match src {
        Some(s) => {
            if s.as_str().is_empty() {
                None
            } else {
                Some(s.clone())
            }
        },
        None => None,
    }
}

/// Whether the text holds a character of a right-to-left script (the
/// Hebrew-through-Arabic block or the historic right-to-left block).
pub open spec fn is_rtl_char(c: char) -> bool {
    ||| 0x590 <= c as u32 <= 0x8FF
    ||| 0x10800 <= c as u32 <= 0x11000
}

/// Whether any character of the text is right-to-left.
pub fn is_rtl(s: &str) -> (r: bool)
    ensures
        r == exists|i: int| 0 <= i < s@.len() && is_rtl_char(s@[i]),
{
    let n = s.unicode_len();
    let mut i: usize = 0;
    while i < n
        invariant
            n == s@.len(),
            i <= n,
            forall|k: int| 0 <= k < i ==> !is_rtl_char(s@[k]),
        decreases n - i,
    {
        let c = s.get_char(i);
        let u = c as u32;
        if (0x590 <= u && u <= 0x8FF) || (0x10800 <= u && u <= 0x11000) {
            return true;
        }
        i += 1;
    }
    false
}

/// Shorten a long path for display: only the last 70 characters are kept,
/// marked with a leading ellipsis.
pub fn limit_path(path_str: &mut String)
    ensures
        old(path_str)@.len() <= 70 ==> final(path_str)@ == old(path_str)@,
        old(path_str)@.len() > 70 ==> final(path_str)@ == "... "@ + old(path_str)@.subrange(
            old(path_str)@.len() - 70,
            old(path_str)@.len() as int,
        ),
{
    let n = path_str.as_str().unicode_len();
    if n > 70 {
        let shortened = String::from_str("... ").concat(
            path_str.as_str().substring_char(n - 70, n),
        );
        *path_str = shortened;
    }
}

/// The replacement tags that the file's own tag frame disagrees with: for
/// each of title, artist and album whose working value differs from the
/// file's normalized one, a tag carrying the working value (empty when the
/// working value is absent), in that order.
pub fn find_edited_tags(tag_data: &TagData) -> (r: Vec<Tag>)
    ensures
        tviews(r@) == edited_tags_spec(*tag_data),
{
    let mut tags: Vec<Tag> = Vec::new();
    let ghost expected = edited_tags_spec(*tag_data);
    if differs(&tag_data.title, &tag_data.file_title) {
        tags.push(
            Tag {
                key: TagType::Title,
                value: unwrap_or_empty(&tag_data.title),
                score: USER_INPUT_TAG_SCORE,
            },
        );
    }
    if differs(&tag_data.artist, &tag_data.file_artist) {
        tags.push(
            Tag {
                key: TagType::Artist,
                value: unwrap_or_empty(&tag_data.artist),
                score: USER_INPUT_TAG_SCORE,
            },
        );
    }
    if differs(&tag_data.album, &tag_data.file_album) {
        tags.push(
            Tag {
                key: TagType::Album,
                value: unwrap_or_empty(&tag_data.album),
                score: USER_INPUT_TAG_SCORE,
            },
        );
    }
    proof {
        crate::tags::lemma_tviews_index(tags@);
        assert(tviews(tags@) =~~= expected);
    }
    tags
}

/// One proposed edit, as the contracts see it.
pub open spec fn edited_tag_view(key: TagType, working: Option<Seq<char>>) -> TagView {
    TagView {
        score: USER_INPUT_TAG_SCORE as int,
        key,
        value: match working {
            Some(v) => v,
            None => Seq::empty(),
        },
    }
}

/// The edits `find_edited_tags` proposes.
pub open spec fn edited_tags_spec(t: TagData) -> Seq<TagView> {
    let title: Seq<TagView> = if vopt(t.title) != map_tag_spec(vopt(t.file_title)) {
        seq![edited_tag_view(TagType::Title, vopt(t.title))]
    } else {
        Seq::empty()
    };
    let artist: Seq<TagView> = if vopt(t.artist) != map_tag_spec(vopt(t.file_artist)) {
        seq![edited_tag_view(TagType::Artist, vopt(t.artist))]
    } else {
        Seq::empty()
    };
    let album: Seq<TagView> = if vopt(t.album) != map_tag_spec(vopt(t.file_album)) {
        seq![edited_tag_view(TagType::Album, vopt(t.album))]
    } else {
        Seq::empty()
    };
    title + artist + album
}

/// Whether a working value differs from the file's normalized one.
fn differs(working: &Option<String>, file_value: &Option<String>) -> (r: bool)
    ensures
        r == (vopt(*working) != map_tag_spec(vopt(*file_value))),
{
    let normalized = match file_value {
        Some(s) => {
            if s.as_str().is_empty() {
                None
            } else {
                Some(s.clone())
            }
        },
        None => None,
    };
    !crate::text::opt_string_eq(working, &normalized)
}

/// The working value, or an empty string when there is none.
fn unwrap_or_empty(working: &Option<String>) -> (r: String)
    ensures
        r@ == (match vopt(*working) {
            Some(v) => v,
            None => Seq::empty(),
        }),
{
    match working {
        Some(s) => s.clone(),
        None => String::new(),
    }
}

} // verus!
