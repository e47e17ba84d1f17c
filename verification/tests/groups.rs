//! Tests of the group structure and the clustering step.

use mass_coverart::compare::SimSample;
use mass_coverart::img::{ImageProgress, ImgFormat, SongImg};
use mass_coverart::img_group::{ImgGroup, ImgGroups};
use mass_coverart::source::Source;
use mass_coverart::source::Source::{BandcampAlbum, BrainzAlbum, LocalFile, YoutubeTitle};

fn cand(src: Source, hash: u64, sample: Option<Vec<u8>>) -> SongImg {
    let mut img = SongImg::new(
        ImgFormat::Jpeg,
        ImageProgress::Preview(vec![]),
        src,
        "".to_string(),
    );
    img.hash = hash;
    img.sample = sample.map(|data| SimSample { data });
    img
}

fn flat_sample() -> Vec<u8> {
    vec![0u8; 200 * 200]
}

fn textured_sample(seed: u8) -> Vec<u8> {
    let mut v = Vec::with_capacity(200 * 200);
    let mut x: u32 = seed as u32 + 1;
    for _ in 0..200 * 200 {
        x = x.wrapping_mul(1103515245).wrapping_add(12345);
        v.push((x >> 16) as u8);
    }
    v
}

#[test]
fn sort_g() {
    let mut img_groups = ImgGroups {
        groups: vec![
            ImgGroup {
                weight: 15,
                imgs: vec![12],
            },
            ImgGroup {
                weight: 10,
                imgs: vec![11],
            },
            ImgGroup {
                weight: 1000,
                imgs: vec![13],
            },
        ],
        flat: vec![12, 10],
    };
    img_groups.sort_groups(2);
    assert_eq!(img_groups.groups[0].weight, 1000);
    img_groups.update_flat();
    assert_eq!(img_groups.flat[0], 13);
}

#[test]
fn chain() {
    let mut img_groups = ImgGroups::new();
    let img = SongImg::new(
        ImgFormat::Jpeg,
        ImageProgress::Preview(vec![]),
        YoutubeTitle,
        "".to_string(),
    );
    let img2 = SongImg::new(
        ImgFormat::Jpeg,
        ImageProgress::Preview(vec![]),
        BandcampAlbum,
        "".to_string(),
    );
    let img3 = SongImg::new(
        ImgFormat::Jpeg,
        ImageProgress::Preview(vec![]),
        LocalFile,
        "".to_string(),
    );
    let img4 = SongImg::new(
        ImgFormat::Jpeg,
        ImageProgress::Preview(vec![]),
        YoutubeTitle,
        "".to_string(),
    );
    let mut imgs = vec![];
    img_groups.add_new(0, 10);
    imgs.push(img);

    img_groups.add_new(1, 15);
    imgs.push(img2);

    let flat = img_groups.flat();
    assert_eq!((flat[0], flat[1]), (1, 0));

    img_groups.add_new(2, 99999);
    imgs.push(img3);

    let flat = img_groups.flat();
    assert_eq!((flat[0], flat[1], flat[2]), (2, 1, 0));
    img_groups.add_to_group(1, &img4, imgs.len(), &imgs);
    imgs.push(img4);
}

#[test]
fn weight_ordering_invariant() {
    // after any sequence of insertions the group weights are non-increasing
    // and the member weights inside each group are non-increasing
    let mut groups = ImgGroups::new();
    let mut all: Vec<SongImg> = Vec::new();
    let pattern = textured_sample(1);
    let inserts = vec![
        cand(YoutubeTitle, 1, Some(pattern.clone())),
        cand(BrainzAlbum, 2, Some(pattern.clone())),
        cand(LocalFile, 3, None),
        cand(BandcampAlbum, 4, Some(pattern.clone())),
        cand(YoutubeTitle, 5, Some(textured_sample(9))),
    ];
    for img in inserts {
        img.push_and_group(&mut groups, &mut all);
    }
    for i in 0..groups.groups.len() {
        if i + 1 < groups.groups.len() {
            assert!(groups.groups[i].weight >= groups.groups[i + 1].weight);
        }
        let members = &groups.groups[i].imgs;
        for k in 0..members.len() {
            if k + 1 < members.len() {
                let w1 = all[members[k]].src.get_weight();
                let w2 = all[members[k + 1]].src.get_weight();
                assert!(w1 >= w2);
            }
        }
    }
}

#[test]
fn scan_limit_opens_new_group() {
    // sixteen singleton groups with distinct low-weight sources; a candidate
    // whose sample matches group 16 must land in a fresh 17th group, since
    // only the first fifteen groups are scanned
    let mut groups = ImgGroups::new();
    let mut all: Vec<SongImg> = Vec::new();
    let target = textured_sample(42);
    for i in 0..16u64 {
        let sample = if i == 15 {
            target.clone()
        } else {
            textured_sample(i as u8)
        };
        let img = cand(YoutubeTitle, i, Some(sample));
        img.push_and_group(&mut groups, &mut all);
    }
    assert_eq!(groups.len(), 16);
    let newcomer = cand(YoutubeTitle, 99, Some(target.clone()));
    newcomer.push_and_group(&mut groups, &mut all);
    assert_eq!(groups.len(), 17);
    // the newcomer is alone in its group, not merged into group 16
    let idx = 16usize;
    let holder = (0..groups.len())
        .find(|&g| groups.groups[g].imgs.contains(&idx))
        .unwrap();
    assert_eq!(groups.groups[holder].imgs, vec![idx]);
}

#[test]
fn clustering_order_independent() {
    // the same candidates in any arrival order form the same groups,
    // compared as sets of member-identity sets
    let pattern = textured_sample(3);
    let other = flat_sample();
    let build = |order: Vec<(Source, u64, Vec<u8>)>| -> Vec<Vec<u64>> {
        let mut groups = ImgGroups::new();
        let mut all: Vec<SongImg> = Vec::new();
        for (src, hash, sample) in order {
            cand(src, hash, Some(sample)).push_and_group(&mut groups, &mut all);
        }
        let mut sets: Vec<Vec<u64>> = groups
            .groups
            .iter()
            .map(|g| {
                let mut hs: Vec<u64> = g.imgs.iter().map(|&i| all[i].hash).collect();
                hs.sort();
                hs
            })
            .collect();
        sets.sort();
        sets
    };
    let a = (BrainzAlbum, 1u64, pattern.clone());
    let b = (BandcampAlbum, 2u64, pattern.clone());
    let c = (YoutubeTitle, 3u64, other.clone());
    let r1 = build(vec![a.clone(), b.clone(), c.clone()]);
    let r2 = build(vec![c.clone(), b.clone(), a.clone()]);
    let r3 = build(vec![b.clone(), c.clone(), a.clone()]);
    assert_eq!(r1, vec![vec![1, 2], vec![3]]);
    assert_eq!(r1, r2);
    assert_eq!(r1, r3);
}

#[test]
fn exempt_candidate_is_singleton() {
    // a candidate without a sample is never merged, even when another
    // candidate with an identical image is already there
    let mut groups = ImgGroups::new();
    let mut all: Vec<SongImg> = Vec::new();
    cand(YoutubeTitle, 1, Some(flat_sample())).push_and_group(&mut groups, &mut all);
    cand(LocalFile, 2, None).push_and_group(&mut groups, &mut all);
    assert_eq!(groups.len(), 2);
    // the local file outweighs everything and ranks first
    assert_eq!(groups.first_in_first_group(), 1);
    assert_eq!(groups.flat(), &vec![1, 0]);
}
