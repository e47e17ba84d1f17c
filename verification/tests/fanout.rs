//! Tests of the bounded channel, the completion accounting and the whole
//! query flow.

use mass_coverart::channel::ModelChannel;
use mass_coverart::compare::SimSample;
use mass_coverart::img::{ImageProgress, ImgFormat, SongImg};
use mass_coverart::parser::TagData;
use mass_coverart::queue::{QueueMessage, TagsInput};
use mass_coverart::song::{song_is_invalid, Song};
use mass_coverart::source::Source;

fn tag_data(artist: &str, album: &str) -> TagData {
    let mut d = TagData::new(
        "/music/a.mp3".to_string(),
        Some(artist.to_string()),
        None,
        Some(album.to_string()),
        false,
    );
    d.artist = Some(artist.to_string());
    d.album = Some(album.to_string());
    d
}

fn sampled(src: Source, hash: u64, sample: Vec<u8>) -> SongImg {
    let mut img = SongImg::new(
        ImgFormat::Jpeg,
        ImageProgress::Preview(vec![]),
        src,
        "found".to_string(),
    );
    img.hash = hash;
    img.sample = Some(SimSample { data: sample });
    img
}

fn textured(seed: u8) -> Vec<u8> {
    let mut v = Vec::with_capacity(200 * 200);
    let mut x: u32 = seed as u32 + 11;
    for _ in 0..200 * 200 {
        x = x.wrapping_mul(1103515245).wrapping_add(12345);
        v.push((x >> 16) as u8);
    }
    v
}

#[test]
fn channel_capacity_and_order() {
    let mut ch: ModelChannel<u32> = ModelChannel::new(2);
    assert!(ch.try_send(1).is_ok());
    assert!(ch.try_send(2).is_ok());
    // full: the payload comes back unchanged
    match ch.try_send(3) {
        Err(v) => assert_eq!(v, 3),
        Ok(()) => panic!("the channel should be full"),
    }
    assert_eq!(ch.pop_front(), Some(1));
    assert!(ch.try_send(3).is_ok());
    assert_eq!(ch.pop_front(), Some(2));
    assert_eq!(ch.pop_front(), Some(3));
    assert_eq!(ch.pop_front(), None);
}

#[test]
fn channel_stress_no_loss() {
    // more events than the capacity, a producer that retries the same
    // payload on every refusal: everything is observed, in order
    let mut ch: ModelChannel<u32> = ModelChannel::new(3);
    let mut received: Vec<u32> = Vec::new();
    for i in 0..50u32 {
        loop {
            match ch.try_send(i) {
                Ok(()) => break,
                Err(back) => {
                    // the refused payload is handed back unchanged
                    assert_eq!(back, i);
                    received.push(ch.pop_front().unwrap());
                }
            }
        }
    }
    while let Some(v) = ch.pop_front() {
        received.push(v);
    }
    let expected: Vec<u32> = (0..50).collect();
    assert_eq!(received, expected);
}

#[test]
fn completion_accounting_counts_to_n() {
    // four tasks, arbitrary interleaving of candidates and completions:
    // the counter ends at exactly 4 of 4, reached once
    let mut song = Song::new(tag_data("Foo", "Bar"));
    assert_eq!(song.sources_finished, (0, 4));
    let evs = vec![
        QueueMessage::SetSources(0, 4),
        QueueMessage::SourceFinished,
        QueueMessage::GotArt(sampled(Source::YoutubeTitle, 7, textured(1))),
        QueueMessage::SourceFinished,
        QueueMessage::SourceFinished,
        QueueMessage::GotArt(sampled(Source::BrainzTitle, 8, textured(2))),
        QueueMessage::SourceFinished,
        QueueMessage::SetSources(4, 4),
    ];
    let mut done_transitions = 0;
    let mut was_done = false;
    for ev in evs {
        song.handle_queue_message(ev);
        let done = song.sources_finished.0 == song.sources_finished.1;
        if done && !was_done {
            done_transitions += 1;
        }
        was_done = done;
    }
    assert_eq!(song.sources_finished, (4, 4));
    assert_eq!(done_transitions, 1);
}

#[test]
fn stale_results_are_recognized() {
    let song = Song::new(tag_data("Foo", "Bar"));
    let hash = song.hash;
    let songs = vec![song];
    assert!(!song_is_invalid(&songs, 0, hash));
    assert!(song_is_invalid(&songs, 0, hash.wrapping_add(1)));
    assert!(song_is_invalid(&songs, 1, hash));
}

#[test]
fn tags_input_carries_query() {
    let d = tag_data("Foo", "Bar");
    let q = TagsInput::from_data(3, 99, &d);
    assert_eq!(q.id, 3);
    assert_eq!(q.hash, 99);
    assert_eq!(q.artist.as_deref(), Some("Foo"));
    assert_eq!(q.album.as_deref(), Some("Bar"));
    assert_eq!(q.title, None);
}

#[test]
fn end_to_end_query() {
    // artist "Foo", album "Bar"; four providers: two return one image each
    // that are visually identical, one returns a distinct image, one
    // returns nothing. Expected: two groups, the first with two members
    // ordered by source weight, the second with one; progress 4 of 4.
    let data = tag_data("Foo", "Bar");
    let query = TagsInput::from_data(0, 1, &data);
    assert_eq!(query.artist.as_deref(), Some("Foo"));
    let mut song = Song::new(data);

    let same = textured(5);
    let other = vec![0u8; 200 * 200];
    let mut ch: ModelChannel<QueueMessage> = ModelChannel::new(20);
    let events = vec![
        QueueMessage::SetSources(0, 4),
        QueueMessage::GotArt(sampled(Source::BandcampAlbum, 21, same.clone())),
        QueueMessage::SourceFinished,
        QueueMessage::GotArt(sampled(Source::BrainzAlbum, 20, same.clone())),
        QueueMessage::SourceFinished,
        QueueMessage::GotArt(sampled(Source::YoutubeTitle, 22, other.clone())),
        QueueMessage::SourceFinished,
        QueueMessage::SourceFinished,
        QueueMessage::SetSources(4, 4),
    ];
    for ev in events {
        ch.try_send(ev).ok().unwrap();
    }
    while let Some(ev) = ch.pop_front() {
        if let Some(img) = song.handle_queue_message(ev) {
            song.push_processed(img);
        }
    }

    assert_eq!(song.sources_finished, (4, 4));
    assert_eq!(song.img_groups.len(), 2);
    // first group: the two identical images, heaviest member first
    let first = &song.img_groups.groups[0];
    assert_eq!(first.weight, 35);
    let hashes: Vec<u64> = first.imgs.iter().map(|&i| song.imgs[i].hash).collect();
    assert_eq!(hashes, vec![20, 21]);
    // second group: the distinct image alone
    let second = &song.img_groups.groups[1];
    assert_eq!(second.weight, 10);
    assert_eq!(song.imgs[second.imgs[0]].hash, 22);
    // the auto-pick is the canonical member of the best group
    assert_eq!(song.imgs[song.img_groups.first_in_first_group()].hash, 20);
}

#[test]
fn reset_clears_candidates() {
    let mut song = Song::new(tag_data("Foo", "Bar"));
    let img = sampled(Source::YoutubeTitle, 5, textured(8));
    song.push_processed(img);
    assert_eq!(song.imgs.len(), 1);
    let hash = song.hash;
    song.reset();
    assert_eq!(song.imgs.len(), 0);
    assert_eq!(song.img_groups.len(), 0);
    assert_eq!(song.img_groups.flat().len(), 0);
    assert_eq!(song.hash, hash);
}
