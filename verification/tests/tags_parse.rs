//! Tests of the tag scoreboard, the selection, and the parsing helpers.

use mass_coverart::parser::{
    find_edited_tags, is_rtl, limit_path, map_tag, parse_tags, ParseSettings, RegexType, TagData,
};
use mass_coverart::song::Song;
use mass_coverart::shared::{filter_for_query, is_no_image_sentinel};
use mass_coverart::tags::{SelectedTags, Tag, TagType, Tags, USER_INPUT_TAG_SCORE};

fn data() -> TagData {
    let mut d = TagData::new(
        "/music/artist - song.mp3".to_string(),
        Some("FileArtist".to_string()),
        Some("FileTitle".to_string()),
        None,
        false,
    );
    d.artist = Some("FileArtist".to_string());
    d.title = Some("FileTitle".to_string());
    d
}

#[test]
fn tag_labels_and_cycle() {
    assert_eq!(TagType::Artist.to_label(), "Artist");
    assert_eq!(TagType::Album.to_label(), "Album");
    assert_eq!(TagType::Title.to_label(), "Title");
    assert_eq!(RegexType::Album.to_str(), "album");
    assert_eq!(RegexType::Skip.to_str(), "skip");
    assert!(matches!(RegexType::Album.next(), RegexType::Title));
    assert!(matches!(RegexType::Skip.next(), RegexType::Album));
}

#[test]
fn selection_toggle_and_apply() {
    let mut sel = SelectedTags::new();
    assert!(!sel.is_select(TagType::Album, "Bar"));
    sel.select(TagType::Album, Some("Bar".to_string()));
    assert!(sel.is_select(TagType::Album, "Bar"));
    assert!(!sel.is_select(TagType::Album, "Baz"));
    // toggling the same value clears it, toggling another selects it
    sel.toggle(TagType::Album, Some("Bar".to_string()));
    assert!(!sel.is_select(TagType::Album, "Bar"));
    sel.toggle(TagType::Album, Some("Baz".to_string()));
    assert!(sel.is_select(TagType::Album, "Baz"));

    sel.select(TagType::Title, Some("".to_string()));
    let mut d = data();
    let writes = sel.apply_selected(&mut d);
    // the selected album replaces the field; the empty title clears it
    assert_eq!(d.album.as_deref(), Some("Baz"));
    assert_eq!(d.title, None);
    assert_eq!(d.artist.as_deref(), Some("FileArtist"));
    assert_eq!(writes.album.as_deref(), Some("Baz"));
    assert_eq!(writes.title.as_deref(), Some(""));
    assert_eq!(writes.artist, None);
    // and nothing stays selected
    assert!(!sel.is_select(TagType::Album, "Baz"));
}

#[test]
fn scoreboard_merges_and_sorts() {
    let mut tags = Tags::new();
    tags.add(Tag {
        score: 30,
        key: TagType::Title,
        value: "one".to_string(),
    });
    tags.add(Tag {
        score: 10,
        key: TagType::Album,
        value: "two".to_string(),
    });
    // same value again: the score is raised, no new entry
    tags.add(Tag {
        score: 25,
        key: TagType::Album,
        value: "two".to_string(),
    });
    assert_eq!(tags.sorted.len(), 2);
    // ascending by score: "one" (30), "two" (35)
    assert_eq!(tags.sorted[0].value, "one");
    assert_eq!(tags.sorted[1].value, "two");
    assert_eq!(tags.sorted[1].score, 35);

    tags.extend(vec![
        Tag {
            score: 1,
            key: TagType::Artist,
            value: "three".to_string(),
        },
        Tag {
            score: 100,
            key: TagType::Title,
            value: "one".to_string(),
        },
    ]);
    assert_eq!(tags.sorted.len(), 3);
    assert_eq!(tags.sorted[0].value, "three");
    assert_eq!(tags.sorted[1].value, "two");
    assert_eq!(tags.sorted[2].value, "one");
    assert_eq!(tags.sorted[2].score, 130);
}

#[test]
fn reg_to_tags_fills_empty_fields() {
    let mut d = data();
    // album is empty: the fragment fills it and proposes a tag
    let t = RegexType::Album
        .reg_to_tags(&"NewAlbum".to_string(), &mut d)
        .unwrap();
    assert_eq!(d.album.as_deref(), Some("NewAlbum"));
    assert_eq!(t.value, "NewAlbum");
    assert_eq!(t.score, USER_INPUT_TAG_SCORE);
    assert!(matches!(t.key, TagType::Album));
    // a fragment repeating the present value proposes nothing
    assert!(RegexType::Artist
        .reg_to_tags(&"FileArtist".to_string(), &mut d)
        .is_none());
    // a different fragment proposes a tag but keeps the field
    let t = RegexType::Artist
        .reg_to_tags(&"OtherArtist".to_string(), &mut d)
        .unwrap();
    assert_eq!(d.artist.as_deref(), Some("FileArtist"));
    assert_eq!(t.value, "OtherArtist");
    // skip never proposes
    assert!(RegexType::Skip
        .reg_to_tags(&"x".to_string(), &mut d)
        .is_none());
}

#[test]
fn edited_tags_found() {
    let mut d = data();
    assert!(find_edited_tags(&d).is_empty());
    d.title = Some("Edited".to_string());
    d.album = Some("NewAlbum".to_string());
    let tags = find_edited_tags(&d);
    assert_eq!(tags.len(), 2);
    assert!(matches!(tags[0].key, TagType::Title));
    assert_eq!(tags[0].value, "Edited");
    assert!(matches!(tags[1].key, TagType::Album));
    assert_eq!(tags[1].value, "NewAlbum");
}

#[test]
fn parse_tags_normalizes_from_file() {
    let mut d = TagData::new(
        "/music/x.mp3".to_string(),
        Some("A".to_string()),
        Some("".to_string()),
        None,
        false,
    );
    d.artist = Some("stale".to_string());
    let mut song = Song::new(d);
    parse_tags(&mut song, &ParseSettings::default());
    assert_eq!(song.tag_data.artist.as_deref(), Some("A"));
    assert_eq!(song.tag_data.title, None);
    assert_eq!(song.tag_data.album, None);
}

#[test]
fn map_tag_drops_empty() {
    assert_eq!(map_tag(None), None);
    assert_eq!(map_tag(Some("")), None);
    assert_eq!(map_tag(Some("x")), Some("x".to_string()));
}

#[test]
fn default_parse_settings() {
    let s = ParseSettings::default();
    assert!(s.recursive);
    assert!(!s.parse_file_name);
    assert_eq!(s.reg_keys.len(), 2);
    assert!(matches!(s.reg_keys[0], RegexType::Artist));
    assert!(matches!(s.reg_keys[1], RegexType::Title));
    assert_eq!(s.reg_separators, vec![" - ".to_string()]);
}

#[test]
fn limit_path_keeps_tail() {
    let mut short = "abc".to_string();
    limit_path(&mut short);
    assert_eq!(short, "abc");
    let mut long = String::new();
    for i in 0..100u32 {
        long.push(char::from_u32('a' as u32 + (i % 26)).unwrap());
    }
    let tail: String = long.chars().skip(30).collect();
    limit_path(&mut long);
    assert_eq!(long.chars().count(), 74);
    assert_eq!(long, format!("... {}", tail));
}

#[test]
fn query_filter_strips_punctuation() {
    assert_eq!(filter_for_query("AC/DC & friends?!"), "AC/DC  friends");
    assert_eq!(filter_for_query("don't \"stop\"; now."), "dont stop now");
    assert_eq!(filter_for_query("plain text"), "plain text");
    assert_eq!(filter_for_query("&.'\\\";:?!"), "");
    assert_eq!(filter_for_query(""), "");
}

#[test]
fn rtl_detection() {
    assert!(!is_rtl("hello"));
    assert!(is_rtl("\u{5d0}\u{5d1}"));
    assert!(is_rtl("mixed \u{627}\u{644} text"));
    assert!(!is_rtl(""));
}

#[test]
fn no_image_sentinel() {
    assert!(is_no_image_sentinel(1097));
    assert!(!is_no_image_sentinel(1096));
    assert!(!is_no_image_sentinel(0));
}
