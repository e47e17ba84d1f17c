//! The insertion step of the perceptual clusterer.
//!
//! A decoded candidate either joins the first group, among the heaviest
//! `SORT_LIMIT`, whose canonical member it resembles, or starts a group of
//! its own; a candidate without a sample is exempt and always starts its
//! own group. [`cluster_step`] states the whole step as a function of the
//! group views and candidate views, and `push_and_group` implements it
//! exactly, preserving every ordering invariant.

use vstd::prelude::*;

use crate::compare::{samples_similar, similar, SAMPLE_DIM};
use crate::img::{cviews, CandView, ImgId, SongImg};
use crate::img_group::{
    bubble_dest_from, group_ok, gviews, lemma_bubble_from_props, lemma_gviews_index,
    lemma_insert_member_sorted, lemma_insert_sorted, lemma_member_pos_props, member_pos,
    weights_sorted, GroupView, ImgGroups, SORT_LIMIT,
};
use crate::source::MAX_SOURCE_WEIGHT;

verus! {

/// Every candidate's sample, where present, has the fixed comparison size.
pub open spec fn cands_ok(all: Seq<CandView>) -> bool {
    forall|i: int|
        0 <= i < all.len() && (#[trigger] all[i]).sample is Some ==> all[i].sample->0.len()
            == SAMPLE_DIM * SAMPLE_DIM
}

/// How many groups an insertion scans: all of them, up to `SORT_LIMIT`.
pub open spec fn scan_bound(vs: Seq<GroupView>) -> int {
    if vs.len() <= SORT_LIMIT {
        vs.len() as int
    } else {
        SORT_LIMIT as int
    }
}

/// The candidate with sample bytes `s` matches group `i`: the group's
/// canonical member has a sample and the two resemble each other.
pub open spec fn match_at(vs: Seq<GroupView>, all: Seq<CandView>, s: Seq<u8>, i: int) -> bool {
    let c = all[vs[i].imgs[0] as int];
    c.sample is Some && similar(c.sample->0, s)
}

/// The first scanned group the sample matches, if any.
pub open spec fn scan_match_from(vs: Seq<GroupView>, all: Seq<CandView>, s: Seq<u8>, i: int) -> Option<
    int,
>
    decreases scan_bound(vs) - i,
{
    if i < 0 || i >= scan_bound(vs) {
        None::<int>
    } else if match_at(vs, all, s, i) {
        Some(i)
    } else {
        scan_match_from(vs, all, s, i + 1)
    }
}

/// The group an arriving candidate merges into, if any.
pub open spec fn scan_match(vs: Seq<GroupView>, all: Seq<CandView>, s: Seq<u8>) -> Option<int> {
    scan_match_from(vs, all, s, 0)
}

/// A fresh singleton group of weight `w` for candidate `id`, bubbled to its
/// place among the groups.
pub open spec fn cluster_new_group(vs: Seq<GroupView>, w: int, id: ImgId) -> Seq<GroupView> {
    vs.insert(
        bubble_dest_from(vs, w, vs.len() as int),
        GroupView { weight: w, imgs: seq![id] },
    )
}

/// Candidate `id` of weight `w` joins group `g`: it is inserted among the
/// members by weight, the group's weight grows by `w`, and the group
/// bubbles to its place.
pub open spec fn cluster_into_group(
    vs: Seq<GroupView>,
    all: Seq<CandView>,
    g: int,
    w: int,
    id: ImgId,
) -> Seq<GroupView> {
    let g2 = GroupView {
        weight: vs[g].weight + w,
        imgs: vs[g].imgs.insert(member_pos(vs[g].imgs, all, w), id),
    };
    vs.remove(g).insert(bubble_dest_from(vs, vs[g].weight + w, g), g2)
}

/// One whole insertion: what the groups become when candidate `c` arrives
/// behind the candidates `all`.
pub open spec fn cluster_step(vs: Seq<GroupView>, all: Seq<CandView>, c: CandView) -> Seq<
    GroupView,
> {
    let id = all.len() as ImgId;
    match c.sample {
        None => cluster_new_group(vs, c.weight, id),
        Some(s) => match scan_match(vs, all, s) {
            Some(g) => cluster_into_group(vs, all, g, c.weight, id),
            None => cluster_new_group(vs, c.weight, id),
        },
    }
}

proof fn lemma_cands_ok_push(all: Seq<CandView>, c: CandView)
    requires
        cands_ok(all),
        c.sample is Some ==> c.sample->0.len() == SAMPLE_DIM * SAMPLE_DIM,
    ensures
        cands_ok(all.push(c)),
{
    assert forall|i: int|
        0 <= i < all.push(c).len() && (#[trigger] all.push(c)[i]).sample is Some implies all.push(
        c,
    )[i].sample->0.len() == SAMPLE_DIM * SAMPLE_DIM by {
        if i < all.len() {
            assert(all.push(c)[i] == all[i]);
        } else {
            assert(all.push(c)[i] == c);
        }
    }
}

pub proof fn lemma_cviews_index(imgs: Seq<SongImg>)
    ensures
        cviews(imgs).len() == imgs.len(),
        forall|i: int| 0 <= i < imgs.len() ==> cviews(imgs)[i] == imgs[i].cview(),
{
}

/// Groups well-formed over `all` stay well-formed over `all` extended by
/// one candidate.
proof fn lemma_group_ok_extend(gv: GroupView, all: Seq<CandView>, c: CandView)
    requires
        group_ok(gv, all),
    ensures
        group_ok(gv, all.push(c)),
{
    let allx = all.push(c);
    assert(allx.len() * MAX_SOURCE_WEIGHT == all.len() * MAX_SOURCE_WEIGHT + MAX_SOURCE_WEIGHT);
    assert forall|i: int, j: int|
        0 <= i <= j < gv.imgs.len() implies allx[gv.imgs[i] as int].weight >= allx[gv.imgs[j]
        as int].weight by {
        assert(allx[gv.imgs[i] as int] == all[gv.imgs[i] as int]);
        assert(allx[gv.imgs[j] as int] == all[gv.imgs[j] as int]);
    }
}

/// Opening a fresh singleton group keeps the groups well-formed.
proof fn lemma_new_group_wf(vs: Seq<GroupView>, all: Seq<CandView>, c: CandView)
    requires
        weights_sorted(vs),
        forall|g: int| 0 <= g < vs.len() ==> group_ok(#[trigger] vs[g], all),
        0 <= c.weight <= MAX_SOURCE_WEIGHT,
        all.len() < usize::MAX,
    ensures
        weights_sorted(cluster_new_group(vs, c.weight, all.len() as ImgId)),
        forall|g: int|
            0 <= g < cluster_new_group(vs, c.weight, all.len() as ImgId).len() ==> group_ok(
                #[trigger] cluster_new_group(vs, c.weight, all.len() as ImgId)[g],
                all.push(c),
            ),
{
    let id = all.len() as ImgId;
    assert(id as int == all.len());
    let g2 = GroupView { weight: c.weight, imgs: seq![id] };
    let m = bubble_dest_from(vs, c.weight, vs.len() as int);
    let new = cluster_new_group(vs, c.weight, id);
    let allx = all.push(c);
    lemma_bubble_from_props(vs, c.weight, vs.len() as int);
    assert forall|i: int| 0 <= i < m implies vs[i].weight >= g2.weight by {
        assert(vs[m - 1].weight >= c.weight);
    }
    lemma_insert_sorted(vs, g2, m);
    assert(allx.len() * MAX_SOURCE_WEIGHT >= 1 * MAX_SOURCE_WEIGHT);
    assert(group_ok(g2, allx));
    assert forall|g: int| 0 <= g < new.len() implies group_ok(#[trigger] new[g], allx) by {
        if g < m {
            assert(new[g] == vs[g]);
            lemma_group_ok_extend(vs[g], all, c);
        } else if g == m {
        } else {
            assert(new[g] == vs[g - 1]);
            lemma_group_ok_extend(vs[g - 1], all, c);
        }
    }
}

/// Joining an existing group keeps the groups well-formed.
proof fn lemma_into_group_wf(vs: Seq<GroupView>, all: Seq<CandView>, c: CandView, g: int)
    requires
        weights_sorted(vs),
        forall|k: int| 0 <= k < vs.len() ==> group_ok(#[trigger] vs[k], all),
        0 <= c.weight <= MAX_SOURCE_WEIGHT,
        0 <= g < vs.len(),
        all.len() < usize::MAX,
    ensures
        weights_sorted(cluster_into_group(vs, all, g, c.weight, all.len() as ImgId)),
        forall|k: int|
            0 <= k < cluster_into_group(vs, all, g, c.weight, all.len() as ImgId).len()
                ==> group_ok(
                #[trigger] cluster_into_group(vs, all, g, c.weight, all.len() as ImgId)[k],
                all.push(c),
            ),
{
    let id = all.len() as ImgId;
    assert(id as int == all.len());
    let allx = all.push(c);
    assert(allx[id as int] == c);
    let w2 = vs[g].weight + c.weight;
    let p = member_pos(vs[g].imgs, all, c.weight);
    let g2 = GroupView { weight: w2, imgs: vs[g].imgs.insert(p, id) };
    let removed = vs.remove(g);
    let m = bubble_dest_from(vs, w2, g);
    let new = cluster_into_group(vs, all, g, c.weight, id);
    assert(group_ok(vs[g], all));
    lemma_bubble_from_props(vs, w2, g);
    assert forall|i: int| 0 <= i < m implies removed[i].weight >= g2.weight by {
        assert(removed[i] == vs[i]);
        assert(vs[m - 1].weight >= w2);
        assert(vs[i].weight >= vs[m - 1].weight);
    }
    assert forall|i: int| m <= i < removed.len() implies removed[i].weight <= g2.weight by {
        if i < g {
            assert(removed[i] == vs[i]);
        } else {
            assert(removed[i] == vs[i + 1]);
            assert(vs[i + 1].weight <= vs[g].weight);
        }
    }
    assert forall|i: int, j: int|
        0 <= i <= j < removed.len() implies removed[i].weight >= removed[j].weight by {
        if i < g {
            assert(removed[i] == vs[i]);
        } else {
            assert(removed[i] == vs[i + 1]);
        }
        if j < g {
            assert(removed[j] == vs[j]);
        } else {
            assert(removed[j] == vs[j + 1]);
        }
    }
    lemma_insert_sorted(removed, g2, m);

    // the updated group is well-formed over the extended candidate list
    lemma_member_pos_props(vs[g].imgs, all, c.weight, vs[g].imgs.len() as int);
    lemma_insert_member_sorted(vs[g].imgs, all, allx, id, c.weight);
    assert(allx.len() * MAX_SOURCE_WEIGHT == all.len() * MAX_SOURCE_WEIGHT + MAX_SOURCE_WEIGHT);
    assert forall|k: int| 0 <= k < g2.imgs.len() implies g2.imgs[k] < allx.len() by {
        if k < p {
            assert(g2.imgs[k] == vs[g].imgs[k]);
        } else if k > p {
            assert(g2.imgs[k] == vs[g].imgs[k - 1]);
        }
    }
    assert(group_ok(g2, allx));
    assert forall|k: int| 0 <= k < new.len() implies group_ok(#[trigger] new[k], allx) by {
        if k < m {
            assert(new[k] == removed[k]);
        } else if k > m {
            assert(new[k] == removed[k - 1]);
        }
        assert forall|i: int| 0 <= i < removed.len() implies group_ok(
            #[trigger] removed[i],
            allx,
        ) by {
            if i < g {
                assert(removed[i] == vs[i]);
                lemma_group_ok_extend(vs[i], all, c);
            } else {
                assert(removed[i] == vs[i + 1]);
                lemma_group_ok_extend(vs[i + 1], all, c);
            }
        }
    }
}

impl SongImg {
    /// Insert this candidate into the group structure: it joins the first
    /// of the heaviest `SORT_LIMIT` groups whose canonical member it
    /// resembles, or starts a group of its own — always a new group when it
    /// carries no sample. The candidate is appended to the candidate list,
    /// the ordering invariants are preserved, and the flat order rebuilt.
    pub fn push_and_group(self, groups: &mut ImgGroups, all: &mut Vec<SongImg>)
        requires
            old(groups).wf(cviews(old(all)@)),
            cands_ok(cviews(old(all)@)),
            self.sample is Some ==> self.sample->0.wf(),
            old(all)@.len() < 20000,
        ensures
            gviews(final(groups).groups@) == cluster_step(
                gviews(old(groups).groups@),
                cviews(old(all)@),
                self.cview(),
            ),
            final(all)@ == old(all)@.push(self),
            final(groups).wf(cviews(final(all)@)),
            cands_ok(cviews(final(all)@)),
    {
        proof {
            lemma_cviews_index(all@);
            lemma_gviews_index(groups.groups@);
        }
        let ghost vs = gviews(groups.groups@);
        let ghost call = cviews(all@);
        let ghost c = self.cview();
        proof {
            assert(cviews(all@.push(self)) =~= call.push(c));
        }

        if self.sample.is_none() {
            let w = self.src.get_weight();
            groups.add_new(all.len(), w);
            all.push(self);
            proof {
                assert(gviews(final(groups).groups@) == cluster_step(vs, call, c));
                lemma_new_group_wf(vs, call, c);
                lemma_cands_ok_push(call, c);
                assert(cands_ok(cviews(all@)));
            }
            return ;
        }

        let ghost s = c.sample->0;
        let bound = if groups.len() < SORT_LIMIT {
            groups.len()
        } else {
            SORT_LIMIT
        };
        let mut gi: usize = 0;
        while gi < bound
            invariant
                *groups == *old(groups),
                *all == *old(all),
                vs == gviews(groups.groups@),
                call == cviews(all@),
                c == self.cview(),
                c.sample is Some,
                s == c.sample->0,
                self.sample is Some && self.sample->0.wf(),
                bound as int == scan_bound(vs),
                gi <= bound,
                groups.wf(call),
                cands_ok(call),
                all@.len() < 20000,
                scan_match_from(vs, call, s, gi as int) == scan_match(vs, call, s),
            decreases bound - gi,
        {
            proof {
                lemma_cviews_index(all@);
                lemma_gviews_index(groups.groups@);
                assert(group_ok(vs[gi as int], call));
            }
            let cid = groups.first_in_group(gi);
            let mut matched = false;
            match &all[cid].sample {
                Some(a) => {
                    proof {
                        assert(call[cid as int].sample == Some(a.data@));
                        assert(a.data@.len() == SAMPLE_DIM * SAMPLE_DIM);
                    }
                    let b = match &self.sample {
                        Some(b) => b,
                        None => vstd::pervasive::unreached(),
                    };
                    if samples_similar(a, b) {
                        proof {
                            assert(match_at(vs, call, s, gi as int));
                            assert(scan_match(vs, call, s) == Some(gi as int));
                        }
                        matched = true;
                    } else {
                        proof {
                            assert(!match_at(vs, call, s, gi as int));
                        }
                    }
                },
                None => {
                    proof {
                        assert(!match_at(vs, call, s, gi as int));
                    }
                },
            }
            if matched {
                groups.add_to_group(gi, &self, all.len(), all);
                all.push(self);
                proof {
                    assert(gviews(final(groups).groups@) == cluster_into_group(
                        vs,
                        call,
                        gi as int,
                        c.weight,
                        call.len() as ImgId,
                    ));
                    assert(gviews(final(groups).groups@) == cluster_step(vs, call, c));
                    lemma_into_group_wf(vs, call, c, gi as int);
                    lemma_cands_ok_push(call, c);
                    lemma_cviews_index(all@);
                    assert(cviews(all@) =~= call.push(c));
                    assert(cands_ok(cviews(all@)));
                }
                return ;
            }
            gi += 1;
        }
        proof {
            assert(scan_match_from(vs, call, s, gi as int) is None);
            assert(scan_match(vs, call, s) is None);
        }
        let w = self.src.get_weight();
        groups.add_new(all.len(), w);
        all.push(self);
        proof {
            assert(gviews(final(groups).groups@) == cluster_step(vs, call, c));
            lemma_new_group_wf(vs, call, c);
            lemma_cands_ok_push(call, c);
            assert(cands_ok(cviews(all@)));
        }
    }
}

/// The scan honours its limit: whether an arriving candidate merges is
/// decided by the first `SORT_LIMIT` groups alone. A candidate that matches
/// none of them starts a fresh group — also when it would match a group
/// beyond the limit, since the groups there are never consulted.
pub proof fn lemma_scan_limit(vs: Seq<GroupView>, all: Seq<CandView>, c: CandView, s: Seq<u8>)
    requires
        c.sample == Some(s),
        forall|g: int| 0 <= g < scan_bound(vs) ==> !match_at(vs, all, s, g),
    ensures
        scan_match(vs, all, s) is None,
        cluster_step(vs, all, c) == cluster_new_group(vs, c.weight, all.len() as ImgId),
{
    lemma_scan_none(vs, all, s, 0);
}

proof fn lemma_scan_none(vs: Seq<GroupView>, all: Seq<CandView>, s: Seq<u8>, i: int)
    requires
        forall|g: int| 0 <= g < scan_bound(vs) ==> !match_at(vs, all, s, g),
        i >= 0,
    ensures
        scan_match_from(vs, all, s, i) is None,
    decreases scan_bound(vs) - i,
{
    if i < scan_bound(vs) {
        lemma_scan_none(vs, all, s, i + 1);
    }
}

} // verus!
