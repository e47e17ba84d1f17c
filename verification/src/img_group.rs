//! The group structure of the perceptual clusterer: clusters of visually
//! near-duplicate candidates, kept sorted descending by weight, with a flat
//! projection of the display order.
//!
//! Groups are modelled by [`GroupView`]: the list of groups is always
//! described exactly, by where an insertion lands and what everything else
//! becomes. The ordering invariants — group weights non-increasing, member
//! weights non-increasing inside each group — are stated here and preserved
//! by every mutation.

use vstd::prelude::*;

use crate::img::{CandView, cviews, ImgId, SongImg};
use crate::source::{weight_of, MAX_SOURCE_WEIGHT};

verus! {

/// Only this many of the heaviest groups are scanned for a similarity match
/// on each insertion. The bound keeps the per-insertion cost flat as
/// candidates accumulate; it is a tunable, not a correctness guarantee — a
/// genuine duplicate arriving once this many unrelated groups exist lands
/// in a fresh group.
pub const SORT_LIMIT: usize = 15;

/// One cluster of visually near-duplicate candidates.
pub struct ImgGroup {
    /// Sum of the members' source weights.
    pub weight: i32,
    /// Candidate indices, sorted descending by their own source weight; the
    /// first member is the canonical one, compared against new candidates.
    pub imgs: Vec<ImgId>,
}

/// What the contracts see of one group.
#[verifier::ext_equal]
pub struct GroupView {
    pub weight: int,
    pub imgs: Seq<ImgId>,
}

impl View for ImgGroup {
    type V = GroupView;

    open spec fn view(&self) -> GroupView {
        GroupView { weight: self.weight as int, imgs: self.imgs@ }
    }
}

/// The groups as the contracts see them.
pub open spec fn gviews(gs: Seq<ImgGroup>) -> Seq<GroupView> {
    gs.map_values(|g: ImgGroup| g@)
}

/// Group weights never increase from the front: the first group is always
/// a best-weighted one.
pub open spec fn weights_sorted(vs: Seq<GroupView>) -> bool {
    forall|i: int, j: int| 0 <= i <= j < vs.len() ==> vs[i].weight >= vs[j].weight
}

/// Member weights never increase inside a group: the first member is a
/// heaviest one.
pub open spec fn members_sorted(members: Seq<ImgId>, all: Seq<CandView>) -> bool {
    forall|i: int, j: int|
        0 <= i <= j < members.len() ==> all[members[i] as int].weight >= all[members[j]
            as int].weight
}

/// A well-formed group over the candidate list `all`: non-empty, members
/// are valid indices sorted descending by their own weight, and the weight
/// stays within what that many candidates can sum to.
pub open spec fn group_ok(gv: GroupView, all: Seq<CandView>) -> bool {
    &&& gv.imgs.len() > 0
    &&& (forall|k: int| 0 <= k < gv.imgs.len() ==> gv.imgs[k] < all.len())
    &&& members_sorted(gv.imgs, all)
    &&& 0 <= gv.weight <= all.len() * MAX_SOURCE_WEIGHT
}

/// The flat display order: the members of every group, in group order.
pub open spec fn flat_of(vs: Seq<GroupView>) -> Seq<ImgId>
    decreases vs.len(),
{
    if vs.len() == 0 {
        Seq::empty()
    } else {
        vs[0].imgs + flat_of(vs.drop_first())
    }
}

/// Where the bubble pass parks a group of weight `w`, scanning left from
/// `m`: the cursor moves left while the group before it is strictly
/// lighter. Among equal weights the earlier group stays first.
pub open spec fn bubble_dest_from(vs: Seq<GroupView>, w: int, m: int) -> int
    decreases m,
{
    if m > 0 && vs[m - 1].weight < w {
        bubble_dest_from(vs, w, m - 1)
    } else {
        m
    }
}

/// Where a member of weight `w` lands in a member list, scanning left from
/// the end: before every strictly lighter member, after all others.
pub open spec fn member_pos_from(members: Seq<ImgId>, all: Seq<CandView>, w: int, m: int) -> int
    decreases m,
{
    if m > 0 && w > all[members[m - 1] as int].weight {
        member_pos_from(members, all, w, m - 1)
    } else {
        m
    }
}

/// Insertion point of a new member of weight `w`.
pub open spec fn member_pos(members: Seq<ImgId>, all: Seq<CandView>, w: int) -> int {
    member_pos_from(members, all, w, members.len() as int)
}

pub proof fn lemma_gviews_index(gs: Seq<ImgGroup>)
    ensures
        gviews(gs).len() == gs.len(),
        forall|i: int| 0 <= i < gs.len() ==> gviews(gs)[i] == gs[i]@,
{
}

pub proof fn lemma_bubble_from_props(vs: Seq<GroupView>, w: int, m: int)
    requires
        0 <= m <= vs.len(),
    ensures
        0 <= bubble_dest_from(vs, w, m) <= m,
        forall|i: int| bubble_dest_from(vs, w, m) <= i < m ==> vs[i].weight < w,
        bubble_dest_from(vs, w, m) > 0 ==> vs[bubble_dest_from(vs, w, m) - 1].weight >= w,
    decreases m,
{
    if m > 0 && vs[m - 1].weight < w {
        lemma_bubble_from_props(vs, w, m - 1);
    }
}

/// The bubble destination reads only entries before `m`: sequences that
/// agree there bubble alike.
pub proof fn lemma_bubble_from_agree(vs1: Seq<GroupView>, vs2: Seq<GroupView>, w: int, m: int)
    requires
        m <= vs1.len(),
        m <= vs2.len(),
        forall|i: int| 0 <= i < m ==> vs1[i].weight == vs2[i].weight,
    ensures
        bubble_dest_from(vs1, w, m) == bubble_dest_from(vs2, w, m),
    decreases m,
{
    if m > 0 && vs1[m - 1].weight < w {
        lemma_bubble_from_agree(vs1, vs2, w, m - 1);
    }
}

pub proof fn lemma_member_pos_props(members: Seq<ImgId>, all: Seq<CandView>, w: int, m: int)
    requires
        0 <= m <= members.len(),
    ensures
        0 <= member_pos_from(members, all, w, m) <= m,
        forall|i: int|
            member_pos_from(members, all, w, m) <= i < m ==> w > all[members[i] as int].weight,
        member_pos_from(members, all, w, m) > 0 ==> w <= all[members[member_pos_from(
            members,
            all,
            w,
            m,
        ) - 1] as int].weight,
    decreases m,
{
    if m > 0 && w > all[members[m - 1] as int].weight {
        lemma_member_pos_props(members, all, w, m - 1);
    }
}

/// Inserting a group between the heavier prefix and the lighter suffix
/// keeps the group list sorted.
pub proof fn lemma_insert_sorted(vs: Seq<GroupView>, g: GroupView, m: int)
    requires
        weights_sorted(vs),
        0 <= m <= vs.len(),
        forall|i: int| 0 <= i < m ==> vs[i].weight >= g.weight,
        forall|i: int| m <= i < vs.len() ==> vs[i].weight <= g.weight,
    ensures
        weights_sorted(vs.insert(m, g)),
{
    let new = vs.insert(m, g);
    assert forall|i: int, j: int| 0 <= i <= j < new.len() implies new[i].weight
        >= new[j].weight by {
        if i < m {
            assert(new[i] == vs[i]);
        }
        if j < m {
            assert(new[j] == vs[j]);
        }
        if i > m {
            assert(new[i] == vs[i - 1]);
        }
        if j > m {
            assert(new[j] == vs[j - 1]);
        }
    }
}

/// Inserting a member of weight `w` at its position keeps the member list
/// sorted, also when the list is then read against the extended candidate
/// list that actually holds the new member.
pub proof fn lemma_insert_member_sorted(
    members: Seq<ImgId>,
    all: Seq<CandView>,
    allx: Seq<CandView>,
    id: ImgId,
    w: int,
)
    requires
        members_sorted(members, all),
        forall|j: int| 0 <= j < members.len() ==> members[j] < all.len(),
        all.len() <= allx.len(),
        forall|i: int| 0 <= i < all.len() ==> allx[i] == all[i],
        id < allx.len(),
        allx[id as int].weight == w,
    ensures
        members_sorted(members.insert(member_pos(members, all, w), id), allx),
{
    let p = member_pos(members, all, w);
    lemma_member_pos_props(members, all, w, members.len() as int);
    let new = members.insert(p, id);
    assert forall|i: int, j: int|
        0 <= i <= j < new.len() implies allx[new[i] as int].weight >= allx[new[j]
        as int].weight by {
        if i < p {
            assert(new[i] == members[i]);
        }
        if j < p {
            assert(new[j] == members[j]);
        }
        if i > p {
            assert(new[i] == members[i - 1]);
        }
        if j > p {
            assert(new[j] == members[j - 1]);
        }
        if p > 0 {
            assert(w <= all[members[p - 1] as int].weight);
        }
        if i < p && j == p {
            assert(all[members[i] as int].weight >= all[members[p - 1] as int].weight);
        }
    }
}

/// The clusterer's group list and the flat projection of its display order.
pub struct ImgGroups {
    pub groups: Vec<ImgGroup>,
    pub flat: Vec<ImgId>,
}

impl ImgGroups {
    /// The group ordering invariant together with well-formed members: the
    /// group list is sorted by weight, every group is non-empty with valid
    /// member indices sorted by their own weight, and each group's weight
    /// stays within what that many candidates can sum to.
    pub open spec fn wf(self, all: Seq<CandView>) -> bool {
        &&& weights_sorted(gviews(self.groups@))
        &&& self.flat@ == flat_of(gviews(self.groups@))
        &&& forall|g: int|
            0 <= g < self.groups@.len() ==> group_ok(#[trigger] gviews(self.groups@)[g], all)
    }

    /// An empty clusterer.
    pub fn new() -> (r: Self)
        ensures
            r.groups@.len() == 0,
            r.flat@.len() == 0,
            r.wf(Seq::empty()),
    {
        let r = Self { groups: Vec::new(), flat: Vec::new() };
        proof {
            assert(gviews(r.groups@) =~= Seq::<GroupView>::empty());
        }
        r
    }

    /// The flat display order.
    pub fn flat(&self) -> (r: &Vec<ImgId>)
        ensures
            r@ == self.flat@,
    {
        &self.flat
    }

    /// Number of groups.
    pub fn len(&self) -> (r: usize)
        ensures
            r == self.groups@.len(),
    {
        self.groups.len()
    }

    /// The canonical (first, heaviest) member of a group.
    pub fn first_in_group(&self, group_id: usize) -> (r: ImgId)
        requires
            group_id < self.groups@.len(),
            self.groups@[group_id as int]@.imgs.len() > 0,
        ensures
            r == self.groups@[group_id as int]@.imgs[0],
    {
        self.groups[group_id].imgs[0]
    }

    /// The auto-picked candidate: first member of the first group.
    pub fn first_in_first_group(&self) -> (r: ImgId)
        requires
            self.groups@.len() > 0,
            self.groups@[0]@.imgs.len() > 0,
        ensures
            r == self.groups@[0]@.imgs[0],
    {
        self.groups[0].imgs[0]
    }

    /// Drop every group and the flat order.
    pub fn clear(&mut self)
        ensures
            final(self).groups@.len() == 0,
            final(self).flat@.len() == 0,
            final(self).wf(Seq::empty()),
    {
        self.groups.clear();
        self.flat.clear();
        proof {
            assert(gviews(self.groups@) =~= Seq::<GroupView>::empty());
        }
    }

    /// Bubble the group at `group_id` up to its place: it moves left past
    /// every strictly lighter group and no further, everything else keeps
    /// its order. The flat projection is left alone.
    pub fn sort_groups(&mut self, group_id: usize)
        requires
            group_id < old(self).groups@.len(),
        ensures
            final(self).flat == old(self).flat,
            gviews(final(self).groups@) == ({
                let vs = gviews(old(self).groups@);
                let k = group_id as int;
                vs.remove(k).insert(bubble_dest_from(vs, vs[k].weight, k), vs[k])
            }),
    {
        proof {
            lemma_gviews_index(self.groups@);
        }
        let ghost vs = gviews(self.groups@);
        let ghost k = group_id as int;
        let w = self.groups[group_id].weight;
        let mut move_id: usize = group_id;
        while move_id > 0 && self.groups[move_id - 1].weight < w
            invariant
                *self == *old(self),
                group_id < self.groups@.len(),
                vs == gviews(self.groups@),
                w == self.groups@[k]@.weight,
                k == group_id as int,
                move_id <= group_id,
                bubble_dest_from(vs, w as int, move_id as int) == bubble_dest_from(
                    vs,
                    w as int,
                    k,
                ),
            decreases move_id,
        {
            proof {
                assert(vs[move_id - 1].weight == self.groups@[move_id - 1]@.weight);
            }
            move_id -= 1;
        }
        proof {
            assert(bubble_dest_from(vs, w as int, move_id as int) == move_id as int);
        }
        if group_id != move_id {
            let group = self.groups.remove(group_id);
            self.groups.insert(move_id, group);
            proof {
                lemma_gviews_index(old(self).groups@);
                lemma_gviews_index(self.groups@);
                assert(gviews(self.groups@) =~~= vs.remove(k).insert(move_id as int, vs[k]));
            }
        } else {
            proof {
                assert(gviews(self.groups@) =~~= vs.remove(k).insert(move_id as int, vs[k]));
            }
        }
    }

    /// Rebuild the flat projection of the display order from the groups.
    pub fn update_flat(&mut self)
        ensures
            final(self).groups == old(self).groups,
            final(self).flat@ == flat_of(gviews(final(self).groups@)),
    {
        self.flat.clear();
        let ghost vs = gviews(self.groups@);
        proof {
            lemma_gviews_index(self.groups@);
        }
        let mut g: usize = 0;
        while g < self.groups.len()
            invariant
                self.groups == old(self).groups,
                vs == gviews(self.groups@),
                g <= self.groups@.len(),
                self.flat@ == flat_of(vs.take(g as int)),
            decreases self.groups@.len() - g,
        {
            proof {
                lemma_gviews_index(self.groups@);
            }
            let m = self.groups[g].imgs.len();
            let mut k: usize = 0;
            while k < m
                invariant
                    self.groups == old(self).groups,
                    vs == gviews(self.groups@),
                    g < self.groups@.len(),
                    m == vs[g as int].imgs.len(),
                    vs[g as int].imgs == self.groups@[g as int].imgs@,
                    k <= m,
                    self.flat@ == flat_of(vs.take(g as int)) + vs[g as int].imgs.take(k as int),
                decreases m - k,
            {
                let x = self.groups[g].imgs[k];
                self.flat.push(x);
                proof {
                    assert(vs[g as int].imgs.take(k + 1int) =~= vs[g as int].imgs.take(
                        k as int,
                    ).push(x));
                }
                k += 1;
            }
            proof {
                assert(vs[g as int].imgs.take(m as int) =~= vs[g as int].imgs);
                assert(vs.take(g + 1int) =~= vs.take(g as int).push(vs[g as int]));
                lemma_flat_of_push(vs.take(g as int), vs[g as int]);
            }
            g += 1;
        }
        proof {
            assert(vs.take(self.groups@.len() as int) =~= vs);
        }
    }

    /// Start a fresh singleton group for a candidate and let it bubble to
    /// its place: the new group lands before the first strictly lighter
    /// group and after every other, the rest keep their order, and the flat
    /// order is rebuilt.
    pub fn add_new(&mut self, img_id: ImgId, img_weight: i32)
        ensures
            gviews(final(self).groups@) == ({
                let vs = gviews(old(self).groups@);
                vs.insert(
                    bubble_dest_from(vs, img_weight as int, vs.len() as int),
                    GroupView { weight: img_weight as int, imgs: seq![img_id] },
                )
            }),
            final(self).flat@ == flat_of(gviews(final(self).groups@)),
            weights_sorted(gviews(old(self).groups@)) ==> weights_sorted(
                gviews(final(self).groups@),
            ),
    {
        proof {
            lemma_gviews_index(self.groups@);
        }
        let ghost vs = gviews(self.groups@);
        let n = self.groups.len();
        let mut imgs: Vec<ImgId> = Vec::new();
        imgs.push(img_id);
        self.groups.push(ImgGroup { weight: img_weight, imgs });
        proof {
            lemma_gviews_index(self.groups@);
            assert(gviews(self.groups@) =~~= vs.push(
                GroupView { weight: img_weight as int, imgs: seq![img_id] },
            ));
        }
        let ghost g = GroupView { weight: img_weight as int, imgs: seq![img_id] };
        self.sort_groups(n);
        proof {
            let vs1 = vs.push(g);
            assert(vs1.remove(n as int) =~~= vs);
            lemma_bubble_from_agree(vs1, vs, img_weight as int, n as int);
            let m = bubble_dest_from(vs, img_weight as int, n as int);
            assert(gviews(self.groups@) == vs.insert(m, g));
            if weights_sorted(vs) {
                lemma_bubble_from_props(vs, g.weight, n as int);
                lemma_insert_sorted(vs, g, m);
            }
        }
        self.update_flat();
    }

    /// Add a candidate to an existing group: the member is inserted before
    /// the first strictly lighter member and after every other, the group's
    /// weight grows by the member's weight, the group bubbles to its place,
    /// and the flat order is rebuilt.
    ///
    /// * `new_img_id`: index the candidate will occupy in the candidate
    ///   list
    /// * `imgs`: the candidate list, needed to sort inside the group
    pub fn add_to_group(
        &mut self,
        group_id: usize,
        new_img: &SongImg,
        new_img_id: ImgId,
        imgs: &Vec<SongImg>,
    )
        requires
            group_id < old(self).groups@.len(),
            forall|k: int|
                0 <= k < old(self).groups@[group_id as int]@.imgs.len() ==> old(
                    self,
                ).groups@[group_id as int]@.imgs[k] < imgs@.len(),
            i32::MIN <= old(self).groups@[group_id as int]@.weight + weight_of(new_img.src)
                <= i32::MAX,
        ensures
            gviews(final(self).groups@) == ({
                let vs = gviews(old(self).groups@);
                let k = group_id as int;
                let w = weight_of(new_img.src);
                let g2 = GroupView {
                    weight: vs[k].weight + w,
                    imgs: vs[k].imgs.insert(member_pos(vs[k].imgs, cviews(imgs@), w), new_img_id),
                };
                vs.remove(k).insert(bubble_dest_from(vs, vs[k].weight + w, k), g2)
            }),
            final(self).flat@ == flat_of(gviews(final(self).groups@)),
    {
        proof {
            lemma_gviews_index(self.groups@);
        }
        let ghost vs = gviews(self.groups@);
        let ghost k = group_id as int;
        let new_img_weight = new_img.src.get_weight();
        let ghost w = weight_of(new_img.src);
        let mut group = self.groups.remove(group_id);
        let ghost members = vs[k].imgs;
        proof {
            assert(group@.imgs == members);
        }

        let mut p: usize = group.imgs.len();
        while p > 0 && new_img_weight > imgs[group.imgs[p - 1]].src.get_weight()
            invariant
                group@.imgs == members,
                forall|j: int| 0 <= j < members.len() ==> members[j] < imgs@.len(),
                w == new_img_weight as int,
                p <= members.len(),
                member_pos_from(members, cviews(imgs@), w, p as int) == member_pos(
                    members,
                    cviews(imgs@),
                    w,
                ),
            decreases p,
        {
            proof {
                assert(cviews(imgs@)[members[p - 1] as int].weight == weight_of(
                    imgs@[members[p - 1] as int].src,
                ));
            }
            p -= 1;
        }
        proof {
            if p > 0 {
                assert(cviews(imgs@)[members[p - 1] as int].weight == weight_of(
                    imgs@[members[p - 1] as int].src,
                ));
            }
            assert(member_pos_from(members, cviews(imgs@), w, p as int) == p as int);
        }
        group.imgs.insert(p, new_img_id);
        group.weight = group.weight + new_img_weight;
        let ghost g2 = GroupView { weight: vs[k].weight + w, imgs: members.insert(
            member_pos(members, cviews(imgs@), w),
            new_img_id,
        ) };
        proof {
            assert(group@ =~= g2);
        }
        self.groups.insert(group_id, group);
        proof {
            lemma_gviews_index(self.groups@);
            assert(gviews(self.groups@) =~~= vs.update(k, g2));
        }
        self.sort_groups(group_id);
        proof {
            let vs2 = vs.update(k, g2);
            assert(vs2.remove(k) =~~= vs.remove(k));
            lemma_bubble_from_agree(vs2, vs, vs[k].weight + w, k);
            assert(gviews(self.groups@) == vs.remove(k).insert(
                bubble_dest_from(vs, vs[k].weight + w, k),
                g2,
            ));
        }
        self.update_flat();
    }
}

/// Appending one group extends the flat order by that group's members.
pub proof fn lemma_flat_of_push(vs: Seq<GroupView>, g: GroupView)
    ensures
        flat_of(vs.push(g)) == flat_of(vs) + g.imgs,
    decreases vs.len(),
{
    if vs.len() == 0 {
        let e = vs.push(g).drop_first();
        assert(e =~= Seq::<GroupView>::empty());
        assert(flat_of(e) == Seq::<ImgId>::empty());
        assert(flat_of(vs) == Seq::<ImgId>::empty());
        assert(flat_of(vs.push(g)) == g.imgs + flat_of(e));
        assert(g.imgs + Seq::<ImgId>::empty() =~= flat_of(vs) + g.imgs);
    } else {
        assert(vs.push(g).drop_first() =~= vs.drop_first().push(g));
        lemma_flat_of_push(vs.drop_first(), g);
        assert(vs.push(g)[0] == vs[0]);
        assert(flat_of(vs.push(g)) == vs[0].imgs + (flat_of(vs.drop_first()) + g.imgs));
        assert(vs[0].imgs + (flat_of(vs.drop_first()) + g.imgs) =~= (vs[0].imgs + flat_of(
            vs.drop_first(),
        )) + g.imgs);
    }
}

} // verus!
