//! Tests of the decode pipeline, the format guessing, the similarity
//! threshold and the weight policy.

use mass_coverart::compare::{score_passes_threshold, SimSample};
use mass_coverart::img::{ImageProgress, ImageSettings, ImgFormat, SongImg};
use mass_coverart::source::Source;

fn png_bytes(w: u32, h: u32, shade: u8) -> Vec<u8> {
    let mut img = image::RgbaImage::new(w, h);
    for (x, y, p) in img.enumerate_pixels_mut() {
        let v = shade.wrapping_add((x as u8).wrapping_mul(7)).wrapping_add((y as u8).wrapping_mul(13));
        *p = image::Rgba([v, v.wrapping_add(40), v.wrapping_add(80), 255]);
    }
    let mut out: Vec<u8> = Vec::new();
    image::DynamicImage::ImageRgba8(img)
        .write_to(&mut std::io::Cursor::new(&mut out), image::ImageFormat::Png)
        .unwrap();
    out
}

#[test]
fn decode_and_sample_full_image() {
    let bytes = png_bytes(100, 50, 3);
    let img = SongImg::new(
        ImgFormat::Png,
        ImageProgress::Raw(bytes),
        Source::BrainzAlbum,
        "t".to_string(),
    );
    let out = img.decode_and_sample().unwrap();
    assert_eq!(out.orig_res, Some((100, 50)));
    assert!(matches!(out.image, ImageProgress::Decoded(_)));
    let preview = out.preview.as_ref().unwrap();
    assert!(preview.w <= 200 && preview.h <= 200);
    assert_eq!(preview.data.len(), 4 * preview.w as usize * preview.h as usize);
    // the sample is the fixed comparison square
    assert_eq!(out.sample.as_ref().unwrap().data.len(), 200 * 200);
}

#[test]
fn decode_and_sample_preview_keeps_urls() {
    let bytes = png_bytes(30, 30, 9);
    let urls = vec!["http://example.invalid/full.jpg".to_string()];
    let img = SongImg::new(
        ImgFormat::Jpeg,
        ImageProgress::RawPreview(urls.clone(), bytes),
        Source::YoutubeTitle,
        "t".to_string(),
    );
    let out = img.decode_and_sample().unwrap();
    match &out.image {
        ImageProgress::Preview(u) => assert_eq!(u, &urls),
        _ => panic!("preview state expected"),
    }
    assert_eq!(out.orig_res, None);
}

#[test]
fn local_art_is_exempt_from_sampling() {
    let bytes = png_bytes(40, 40, 1);
    let img = SongImg::new(
        ImgFormat::Png,
        ImageProgress::Raw(bytes),
        Source::LocalFile,
        "t".to_string(),
    );
    let out = img.decode_and_sample().unwrap();
    assert!(out.sample.is_none());
    assert!(out.preview.is_some());
}

#[test]
fn decode_garbage_fails() {
    let img = SongImg::new(
        ImgFormat::Jpeg,
        ImageProgress::Raw(vec![1, 2, 3, 4, 5]),
        Source::YoutubeTitle,
        "t".to_string(),
    );
    assert!(img.decode_and_sample().is_err());
}

#[test]
fn final_img_formats_and_roundtrip() {
    let bytes = png_bytes(80, 60, 5);
    let img = SongImg::new(
        ImgFormat::Png,
        ImageProgress::Raw(bytes),
        Source::BandcampAlbum,
        "t".to_string(),
    );
    let out = img.decode_and_sample().unwrap();
    let set = ImageSettings {
        downscale: 1200,
        square: false,
        jpg: true,
    };
    let (encoded, format, preview) = out.final_img(&set).unwrap();
    assert_eq!(format, ImgFormat::Jpeg);
    assert_eq!(preview.data.len(), 4 * preview.w as usize * preview.h as usize);
    assert!(1 <= preview.w && preview.w <= 400);
    assert!(1 <= preview.h && preview.h <= 200);
    // no crop, no downscale: the settings-applied preview keeps the size
    let applied = out.final_img_preview(set);
    assert_eq!((applied.w, applied.h), (80, 60));
    // the encoder produced a real image: decoding the bytes succeeds again
    let again = SongImg::new(
        ImgFormat::Jpeg,
        ImageProgress::Raw(encoded),
        Source::BandcampAlbum,
        "t".to_string(),
    );
    let again = again.decode_and_sample().unwrap();
    assert_eq!(again.orig_res, Some((80, 60)));

    let set_keep = ImageSettings {
        downscale: 1200,
        square: false,
        jpg: false,
    };
    let (_, format, _) = out.final_img(&set_keep).unwrap();
    assert_eq!(format, ImgFormat::Png);
}

#[test]
fn preview_to_decoded_corrects_format() {
    let bytes = png_bytes(25, 25, 2);
    let mut img = SongImg::new(
        ImgFormat::Jpeg,
        ImageProgress::Preview(vec!["http://example.invalid/a.jpg".to_string()]),
        Source::YoutubeTitle,
        "t".to_string(),
    );
    // the URL said JPEG, the bytes are PNG: the sniffed format wins
    img.preview_to_decoded(bytes, ImgFormat::Jpeg).unwrap();
    assert_eq!(img.orig_format, ImgFormat::Png);
    assert_eq!(img.orig_res, Some((25, 25)));
}

#[test]
fn samples_at_threshold_classified_deterministically() {
    // the classification is a pure function of the score bits: exactly at
    // the threshold it does not pass, one representable step above it does
    let at = (0.3f64).to_bits();
    assert!(!score_passes_threshold(at));
    assert!(score_passes_threshold(at + 1));
    assert!(!score_passes_threshold(at - 1));
    assert!(score_passes_threshold((1.0f64).to_bits()));
    assert!(score_passes_threshold((0.300001f64).to_bits()));
    assert!(!score_passes_threshold((0.299999f64).to_bits()));
    // negative, infinite and not-a-number scores never pass
    assert!(!score_passes_threshold((-0.5f64).to_bits()));
    assert!(!score_passes_threshold(f64::INFINITY.to_bits()));
    assert!(!score_passes_threshold(f64::NAN.to_bits()));
    assert!(!score_passes_threshold((0.0f64).to_bits()));
}

#[test]
fn identical_samples_merge_distinct_do_not() {
    // exercises the similarity metric end to end: identical samples score
    // above the threshold, a flat sample against a textured one below it
    let mut pattern: Vec<u8> = Vec::with_capacity(200 * 200);
    let mut x: u32 = 7;
    for _ in 0..200 * 200 {
        x = x.wrapping_mul(1103515245).wrapping_add(12345);
        pattern.push((x >> 16) as u8);
    }
    let flat = vec![0u8; 200 * 200];
    let mut groups = mass_coverart::img_group::ImgGroups::new();
    let mut all: Vec<SongImg> = Vec::new();
    let mut one = SongImg::new(
        ImgFormat::Jpeg,
        ImageProgress::Preview(vec![]),
        Source::BrainzAlbum,
        "".to_string(),
    );
    one.sample = Some(SimSample { data: pattern.clone() });
    one.push_and_group(&mut groups, &mut all);
    let mut two = SongImg::new(
        ImgFormat::Jpeg,
        ImageProgress::Preview(vec![]),
        Source::YoutubeTitle,
        "".to_string(),
    );
    two.sample = Some(SimSample { data: pattern.clone() });
    two.push_and_group(&mut groups, &mut all);
    assert_eq!(groups.len(), 1);
    let mut three = SongImg::new(
        ImgFormat::Jpeg,
        ImageProgress::Preview(vec![]),
        Source::YoutubeTitle,
        "".to_string(),
    );
    three.sample = Some(SimSample { data: flat });
    three.push_and_group(&mut groups, &mut all);
    assert_eq!(groups.len(), 2);
}

#[test]
fn from_url_by_extension() {
    assert_eq!(ImgFormat::from_url("http://h/a/b.jpg"), ImgFormat::Jpeg);
    assert_eq!(ImgFormat::from_url("http://h/a/b.JPEG"), ImgFormat::Jpeg);
    assert_eq!(ImgFormat::from_url("http://h/a/b.png?x=1#frag"), ImgFormat::Png);
    assert_eq!(ImgFormat::from_url("http://h/a/b.PNG"), ImgFormat::Png);
}

#[test]
fn from_url_fallbacks() {
    // unknown extension, but a known one occurs in the query string
    assert_eq!(
        ImgFormat::from_url("http://h/img.php?file=x.png"),
        ImgFormat::Png
    );
    // nothing known anywhere: JPEG is assumed
    assert_eq!(ImgFormat::from_url("http://h/art"), ImgFormat::Jpeg);
    assert_eq!(ImgFormat::from_url(""), ImgFormat::Jpeg);
}

#[test]
fn format_labels() {
    assert_eq!(ImgFormat::Jpeg.to_str(), "jpg");
    assert_eq!(ImgFormat::Png.to_str(), "png");
}

#[test]
fn weight_policy_values() {
    assert_eq!(Source::LocalFile.get_weight(), 99999);
    assert_eq!(Source::BrainzAlbum.get_weight(), 20);
    assert_eq!(Source::BrainzTitle.get_weight(), 19);
    assert_eq!(Source::BandcampAlbum.get_weight(), 15);
    assert_eq!(Source::BandcampTitle.get_weight(), 14);
    assert_eq!(Source::YoutubeMusicAlbum.get_weight(), 13);
    assert_eq!(Source::YoutubeMusicTitle.get_weight(), 12);
    assert_eq!(Source::YoutubeAlbum.get_weight(), 11);
    assert_eq!(Source::YoutubeTitle.get_weight(), 10);
}

#[test]
fn source_labels() {
    assert_eq!(
        Source::YoutubeAlbum.label(),
        "youtube.com (%artist% %album% album)"
    );
    assert_eq!(Source::LocalFile.label(), "local file");
}

#[test]
fn image_progress_tags() {
    assert_eq!(ImageProgress::Raw(vec![]).dbg(), "Raw");
    assert_eq!(ImageProgress::RawPreview(vec![], vec![]).dbg(), "RawP");
    assert_eq!(ImageProgress::Preview(vec![]).dbg(), "Prev");
}
