//! The ordering law of the clusterer: arrival order does not matter.
//!
//! Under the hypotheses below — every candidate carries a sample, pairwise
//! similarity of the samples agrees with some class assignment, and the
//! batch is small enough that the scan window is never exceeded — the
//! groups a batch forms are exactly its similarity classes, whatever the
//! arrival order: each class present ends up as one group holding exactly
//! the identities of that class. Two arrival orders of the same candidates
//! therefore form the same groups, compared by their member identities;
//! only the order inside a group (by weight) and among groups (by weight)
//! can differ, never the grouping itself.
//!
//! Outside the hypotheses the law genuinely fails. When the group list
//! outgrows the scan window, a candidate whose only match sits beyond it
//! starts a fresh group, so whether two duplicates merge depends on how
//! many groups arrived before them. And when similarity is not transitive,
//! the first-match rule makes the grouping depend on which of two
//! overlapping groups formed first.

use vstd::multiset::Multiset;
use vstd::prelude::*;

use crate::cluster::{
    cluster_into_group, cluster_new_group, cluster_step, match_at, scan_bound, scan_match,
    scan_match_from,
};
use crate::compare::similar;
use crate::img::{CandView, ImgId};
use crate::img_group::{
    bubble_dest_from, lemma_bubble_from_props, lemma_member_pos_props, member_pos, GroupView,
    SORT_LIMIT,
};

verus! {

broadcast use {
    vstd::seq_lib::group_to_multiset_ensures,
    vstd::seq_lib::group_filter_ensures,
    vstd::seq_lib::lemma_multiset_commutative,
    vstd::multiset::group_multiset_axioms,
};

/// The whole batch clustered, in order, starting from the given state.
pub open spec fn cluster_all(
    vs: Seq<GroupView>,
    all: Seq<CandView>,
    batch: Seq<CandView>,
) -> (Seq<GroupView>, Seq<CandView>)
    decreases batch.len(),
{
    if batch.len() == 0 {
        (vs, all)
    } else {
        cluster_all(cluster_step(vs, all, batch[0]), all.push(batch[0]), batch.drop_first())
    }
}

/// Every candidate carries a sample.
pub open spec fn all_sampled(s: Seq<CandView>) -> bool {
    forall|i: int| 0 <= i < s.len() ==> (#[trigger] s[i]).sample is Some
}

/// The class assignment agrees with the metric on these candidates: two
/// samples are similar exactly when they fall in the same class.
pub open spec fn sim_is_equivalence(s: Seq<CandView>, cls: spec_fn(Seq<u8>) -> int) -> bool {
    forall|i: int, j: int|
        0 <= i < s.len() && 0 <= j < s.len() ==> (#[trigger] similar(
            s[i].sample->0,
            s[j].sample->0,
        ) <==> cls(s[i].sample->0) == cls(s[j].sample->0))
}

/// The class of a group: the class of its canonical member's sample.
pub open spec fn group_cls(
    vs: Seq<GroupView>,
    all: Seq<CandView>,
    g: int,
    cls: spec_fn(Seq<u8>) -> int,
) -> int {
    cls(all[vs[g].imgs[0] as int].sample->0)
}

/// The identity of a candidate index.
pub open spec fn hash_of(all: Seq<CandView>) -> spec_fn(ImgId) -> u64 {
    |id: ImgId| all[id as int].hash
}

/// The member identities of a group.
pub open spec fn member_hashes(gv: GroupView, all: Seq<CandView>) -> Multiset<u64> {
    gv.imgs.map_values(hash_of(all)).to_multiset()
}

/// Membership of one class.
pub open spec fn class_pred(cl: int, cls: spec_fn(Seq<u8>) -> int) -> spec_fn(CandView) -> bool {
    |x: CandView| cls(x.sample->0) == cl
}

/// The identity of a candidate.
pub open spec fn cand_hash() -> spec_fn(CandView) -> u64 {
    |x: CandView| x.hash
}

/// The identities of the candidates of one class.
pub open spec fn class_hashes(
    all: Seq<CandView>,
    cl: int,
    cls: spec_fn(Seq<u8>) -> int,
) -> Multiset<u64> {
    all.filter(class_pred(cl, cls)).map_values(cand_hash()).to_multiset()
}

/// Some candidate of this class is present.
pub open spec fn class_present(all: Seq<CandView>, cl: int, cls: spec_fn(Seq<u8>) -> int) -> bool {
    exists|id: int| 0 <= id < all.len() && cls((#[trigger] all[id]).sample->0) == cl
}

/// Slot `(g, k)` of the groups holds candidate `id`.
pub open spec fn holds_id(vs: Seq<GroupView>, g: int, k: int, id: int) -> bool {
    0 <= g < vs.len() && 0 <= k < vs[g].imgs.len() && vs[g].imgs[k] == id
}

/// The candidate is a member of some group.
pub open spec fn member_of(vs: Seq<GroupView>, id: int) -> bool {
    exists|g: int, k: int| holds_id(vs, g, k, id)
}

/// The running shape of the clusterer's state under class-consistent
/// similarity: groups are non-empty, their members are distinct valid
/// candidates and every candidate belongs to one; all members of a group
/// share its class, distinct groups carry distinct classes, and each group
/// holds exactly the identities of its class.
pub open spec fn classes_inv(
    vs: Seq<GroupView>,
    all: Seq<CandView>,
    cls: spec_fn(Seq<u8>) -> int,
) -> bool {
    &&& all_sampled(all)
    &&& vs.len() <= all.len()
    &&& (forall|g: int| 0 <= g < vs.len() ==> (#[trigger] vs[g]).imgs.len() > 0)
    &&& (forall|g: int, k: int|
        0 <= g < vs.len() && 0 <= k < vs[g].imgs.len() ==> (#[trigger] vs[g].imgs[k])
            < all.len())
    &&& (forall|g: int, k: int|
        0 <= g < vs.len() && 0 <= k < vs[g].imgs.len() ==> cls(
            all[(#[trigger] vs[g].imgs[k]) as int].sample->0,
        ) == group_cls(vs, all, g, cls))
    &&& (forall|g1: int, g2: int|
        0 <= g1 < g2 < vs.len() ==> #[trigger] group_cls(vs, all, g1, cls)
            != #[trigger] group_cls(vs, all, g2, cls))
    &&& (forall|g1: int, k1: int, g2: int, k2: int|
        0 <= g1 < vs.len() && 0 <= k1 < vs[g1].imgs.len() && 0 <= g2 < vs.len() && 0 <= k2
            < vs[g2].imgs.len() && (#[trigger] vs[g1].imgs[k1]) == (#[trigger] vs[g2].imgs[k2])
            ==> g1 == g2 && k1 == k2)
    &&& (forall|id: int| 0 <= id < all.len() ==> #[trigger] member_of(vs, id))
    &&& (forall|g: int|
        0 <= g < vs.len() ==> member_hashes(#[trigger] vs[g], all) == class_hashes(
            all,
            group_cls(vs, all, g, cls),
            cls,
        ))
    &&& (forall|cl: int|
        #[trigger] class_present(all, cl, cls) ==> exists|g: int|
            0 <= g < vs.len() && group_cls(vs, all, g, cls) == cl)
}

/// A one-element sequence filters to itself or to nothing.
proof fn lemma_filter_singleton<A>(x: A, pred: spec_fn(A) -> bool)
    ensures
        seq![x].filter(pred) == (if pred(x) {
            seq![x]
        } else {
            Seq::<A>::empty()
        }),
{
    reveal(Seq::filter);
    let e = seq![x].drop_last();
    assert(e =~= Seq::<A>::empty());
    assert(e.filter(pred) == e);
    if pred(x) {
        assert(seq![x].filter(pred) =~= seq![x]);
    } else {
        assert(seq![x].filter(pred) =~= Seq::<A>::empty());
    }
}

/// Mapping a sequence and mapping its two halves agree.
proof fn lemma_map_distributes<A, B>(a: Seq<A>, b: Seq<A>, f: spec_fn(A) -> B)
    ensures
        (a + b).map_values(f) == a.map_values(f) + b.map_values(f),
{
    assert((a + b).map_values(f) =~= a.map_values(f) + b.map_values(f));
}

/// One more candidate adds its identity to exactly its own class.
proof fn lemma_class_hashes_push(
    all: Seq<CandView>,
    c: CandView,
    cl: int,
    cls: spec_fn(Seq<u8>) -> int,
)
    ensures
        cls(c.sample->0) == cl ==> class_hashes(all.push(c), cl, cls) == class_hashes(
            all,
            cl,
            cls,
        ).insert(c.hash),
        cls(c.sample->0) != cl ==> class_hashes(all.push(c), cl, cls) == class_hashes(
            all,
            cl,
            cls,
        ),
{
    let pred = class_pred(cl, cls);
    let f = cand_hash();
    assert(all.push(c) =~= all + seq![c]);
    assert((all + seq![c]).filter(pred) == all.filter(pred) + seq![c].filter(pred));
    lemma_filter_singleton(c, pred);
    if pred(c) {
        lemma_map_distributes(all.filter(pred), seq![c], f);
        assert(seq![c].map_values(f) =~= seq![f(c)]);
        assert(all.filter(pred).map_values(f).push(c.hash) =~= all.filter(pred).map_values(f)
            + seq![c.hash]);
        assert(class_hashes(all.push(c), cl, cls) == all.filter(pred).map_values(f).push(
            c.hash,
        ).to_multiset());
    } else {
        assert(all.filter(pred) + Seq::<CandView>::empty() =~= all.filter(pred));
    }
}

/// A class with no candidate has no identities.
proof fn lemma_class_hashes_absent(all: Seq<CandView>, cl: int, cls: spec_fn(Seq<u8>) -> int)
    requires
        !class_present(all, cl, cls),
    ensures
        class_hashes(all, cl, cls) == Multiset::<u64>::empty(),
    decreases all.len(),
{
    reveal(Seq::filter);
    let pred = class_pred(cl, cls);
    if all.len() == 0 {
        assert(all.filter(pred).map_values(|x: CandView| x.hash) =~= Seq::<u64>::empty());
        assert(Seq::<u64>::empty().to_multiset() =~= Multiset::<u64>::empty());
    } else {
        assert(!class_present(all.drop_last(), cl, cls)) by {
            if class_present(all.drop_last(), cl, cls) {
                let id = choose|id: int|
                    0 <= id < all.drop_last().len() && cls(
                        (#[trigger] all.drop_last()[id]).sample->0,
                    ) == cl;
                assert(all[id] == all.drop_last()[id]);
            }
        }
        lemma_class_hashes_absent(all.drop_last(), cl, cls);
        assert(!pred(all.last())) by {
            assert(all[all.len() - 1] == all.last());
        }
        assert(all.filter(pred) == all.drop_last().filter(pred));
    }
}

/// A member list read against an extended candidate list keeps its
/// identities.
proof fn lemma_member_hashes_extend(gv: GroupView, all: Seq<CandView>, c: CandView)
    requires
        forall|k: int| 0 <= k < gv.imgs.len() ==> (#[trigger] gv.imgs[k]) < all.len(),
    ensures
        member_hashes(gv, all.push(c)) == member_hashes(gv, all),
{
    let allx = all.push(c);
    assert forall|k: int| 0 <= k < gv.imgs.len() implies hash_of(allx)(gv.imgs[k]) == hash_of(
        all,
    )(gv.imgs[k]) by {
        assert(allx[gv.imgs[k] as int] == all[gv.imgs[k] as int]);
    }
    assert(gv.imgs.map_values(hash_of(allx)) =~= gv.imgs.map_values(hash_of(all)));
}

/// Inserting a member adds exactly its identity.
proof fn lemma_member_hashes_insert(members: Seq<ImgId>, p: int, id: ImgId, all: Seq<CandView>)
    requires
        0 <= p <= members.len(),
    ensures
        member_hashes(GroupView { weight: 0, imgs: members.insert(p, id) }, all)
            == member_hashes(GroupView { weight: 0, imgs: members }, all).insert(
            all[id as int].hash,
        ),
{
    let f = hash_of(all);
    assert(members.insert(p, id).map_values(f) =~= members.map_values(f).insert(p, f(id)));
}

/// The identities of a group do not depend on its weight.
proof fn lemma_member_hashes_weight(gv: GroupView, w: int, all: Seq<CandView>)
    ensures
        member_hashes(GroupView { weight: w, imgs: gv.imgs }, all) == member_hashes(gv, all),
{
}

/// Under class-consistent similarity the scan finds exactly the group of
/// the arriving candidate's class, when the window covers every group.
proof fn lemma_scan_finds_class(
    vs: Seq<GroupView>,
    all: Seq<CandView>,
    s: Seq<u8>,
    cls: spec_fn(Seq<u8>) -> int,
    i: int,
)
    requires
        classes_inv(vs, all, cls),
        vs.len() <= SORT_LIMIT,
        forall|id: int|
            0 <= id < all.len() ==> (#[trigger] similar(all[id].sample->0, s) <==> cls(
                all[id].sample->0,
            ) == cls(s)),
        0 <= i,
    ensures
        match scan_match_from(vs, all, s, i) {
            Some(g) => i <= g < vs.len() && group_cls(vs, all, g, cls) == cls(s),
            None => forall|g: int| i <= g < vs.len() ==> group_cls(vs, all, g, cls) != cls(s),
        },
    decreases scan_bound(vs) - i,
{
    assert(scan_bound(vs) == vs.len());
    if i < vs.len() {
        let canonical = vs[i].imgs[0];
        assert(holds_id(vs, i, 0, canonical as int));
        assert(canonical < all.len());
        assert(all[canonical as int].sample is Some);
        assert(match_at(vs, all, s, i) <==> group_cls(vs, all, i, cls) == cls(s));
        if !match_at(vs, all, s, i) {
            lemma_scan_finds_class(vs, all, s, cls, i + 1);
        }
    }
}

/// One clustering step preserves the class shape: the candidate joins the
/// group of its class when one exists, else opens a fresh one.
proof fn lemma_step_classes(
    vs: Seq<GroupView>,
    all: Seq<CandView>,
    c: CandView,
    cls: spec_fn(Seq<u8>) -> int,
)
    requires
        classes_inv(vs, all, cls),
        all.len() < SORT_LIMIT,
        c.sample is Some,
        forall|id: int|
            0 <= id < all.len() ==> (#[trigger] similar(all[id].sample->0, c.sample->0) <==> cls(
                all[id].sample->0,
            ) == cls(c.sample->0)),
    ensures
        classes_inv(cluster_step(vs, all, c), all.push(c), cls),
{
    let s = c.sample->0;
    lemma_scan_finds_class(vs, all, s, cls, 0);
    match scan_match(vs, all, s) {
        Some(g) => {
            lemma_into_group_classes(vs, all, c, cls, g);
        },
        None => {
            assert(forall|g: int|
                0 <= g < vs.len() ==> group_cls(vs, all, g, cls) != cls(c.sample->0));
            lemma_new_group_classes(vs, all, c, cls);
        },
    }
}

/// Extending the candidate list does not change any existing group's class.
proof fn lemma_group_cls_extend(
    vs: Seq<GroupView>,
    all: Seq<CandView>,
    c: CandView,
    cls: spec_fn(Seq<u8>) -> int,
)
    requires
        classes_inv(vs, all, cls),
    ensures
        forall|g: int|
            0 <= g < vs.len() ==> #[trigger] group_cls(vs, all.push(c), g, cls) == group_cls(
                vs,
                all,
                g,
                cls,
            ),
{
    let allx = all.push(c);
    assert forall|g: int| 0 <= g < vs.len() implies #[trigger] group_cls(vs, allx, g, cls)
        == group_cls(vs, all, g, cls) by {
        assert(vs[g].imgs[0] < all.len());
        assert(allx[vs[g].imgs[0] as int] == all[vs[g].imgs[0] as int]);
    }
}

/// The fresh-singleton case of the step.
proof fn lemma_new_group_classes(
    vs: Seq<GroupView>,
    all: Seq<CandView>,
    c: CandView,
    cls: spec_fn(Seq<u8>) -> int,
)
    requires
        classes_inv(vs, all, cls),
        all.len() < usize::MAX,
        c.sample is Some,
        forall|g: int| 0 <= g < vs.len() ==> group_cls(vs, all, g, cls) != cls(c.sample->0),
        cluster_step(vs, all, c) == cluster_new_group(vs, c.weight, all.len() as ImgId),
    ensures
        classes_inv(cluster_step(vs, all, c), all.push(c), cls),
{
    let id = all.len() as ImgId;
    assert(id as int == all.len());
    let allx = all.push(c);
    assert(allx[id as int] == c);
    let ccl = cls(c.sample->0);
    let g2 = GroupView { weight: c.weight, imgs: seq![id] };
    let m = bubble_dest_from(vs, c.weight, vs.len() as int);
    lemma_bubble_from_props(vs, c.weight, vs.len() as int);
    let new = vs.insert(m, g2);
    assert(cluster_step(vs, all, c) == new);
    lemma_group_cls_extend(vs, all, c, cls);

    // where each position of `new` comes from
    let back = |h: int|
        if h < m {
            h
        } else {
            h - 1
        };
    assert(forall|h: int| 0 <= h < new.len() && h != m ==> new[h] == vs[back(h)]);
    assert(new[m] == g2);

    // classes at the new positions
    assert forall|h: int| 0 <= h < new.len() implies #[trigger] group_cls(new, allx, h, cls) == (
        if h == m {
            ccl
        } else {
            group_cls(vs, all, back(h), cls)
        }) by {
        if h != m {
            assert(new[h] == vs[back(h)]);
            assert(group_cls(new, allx, h, cls) == group_cls(vs, allx, back(h), cls));
        }
    }

    // member coherence, validity, non-emptiness
    assert forall|h: int, k: int| 0 <= h < new.len() && 0 <= k < new[h].imgs.len() implies (
    #[trigger] new[h].imgs[k]) < allx.len() && cls(allx[new[h].imgs[k] as int].sample->0)
        == group_cls(new, allx, h, cls) by {
        if h == m {
            assert(new[h].imgs[k] == id);
        } else {
            assert(new[h] == vs[back(h)]);
            assert(vs[back(h)].imgs[k] < all.len());
            assert(allx[new[h].imgs[k] as int] == all[new[h].imgs[k] as int]);
        }
    }

    // class distinctness
    assert forall|h1: int, h2: int| 0 <= h1 < h2 < new.len() implies #[trigger] group_cls(
        new,
        allx,
        h1,
        cls,
    ) != #[trigger] group_cls(new, allx, h2, cls) by {
        if h1 != m && h2 != m {
            assert(back(h1) < back(h2));
        }
    }

    // slot injectivity: the newcomer sits alone, the old slots map over
    assert forall|h1: int, k1: int, h2: int, k2: int|
        0 <= h1 < new.len() && 0 <= k1 < new[h1].imgs.len() && 0 <= h2 < new.len() && 0 <= k2
            < new[h2].imgs.len() && (#[trigger] new[h1].imgs[k1]) == (#[trigger] new[h2].imgs[k2])
        implies h1 == h2 && k1 == k2 by {
        if h1 == m && h2 != m {
            assert(new[h2] == vs[back(h2)]);
            assert(vs[back(h2)].imgs[k2] < all.len());
        }
        if h2 == m && h1 != m {
            assert(new[h1] == vs[back(h1)]);
            assert(vs[back(h1)].imgs[k1] < all.len());
        }
        if h1 != m && h2 != m {
            assert(new[h1] == vs[back(h1)]);
            assert(new[h2] == vs[back(h2)]);
        }
    }

    // completeness
    assert forall|idx: int| 0 <= idx < allx.len() implies #[trigger] member_of(new, idx) by {
        if idx < all.len() {
            assert(member_of(vs, idx));
            let (g0, k0) = choose|g0: int, k0: int| holds_id(vs, g0, k0, idx);
            let h0 = if g0 < m {
                g0
            } else {
                g0 + 1
            };
            assert(new[h0] == vs[g0]);
            assert(holds_id(new, h0, k0, idx));
        } else {
            assert(holds_id(new, m, 0, idx));
        }
    }

    // group contents are exactly the class contents
    assert(!class_present(all, ccl, cls)) by {
        if class_present(all, ccl, cls) {
            let g0 = choose|g0: int| 0 <= g0 < vs.len() && group_cls(vs, all, g0, cls) == ccl;
            assert(group_cls(vs, all, g0, cls) != ccl);
        }
    }
    lemma_class_hashes_absent(all, ccl, cls);
    assert forall|h: int| 0 <= h < new.len() implies member_hashes(#[trigger] new[h], allx)
        == class_hashes(allx, group_cls(new, allx, h, cls), cls) by {
        if h == m {
            assert(seq![id].map_values(|i: ImgId| allx[i as int].hash) =~= seq![c.hash]);
            assert(seq![c.hash] =~= Seq::<u64>::empty().push(c.hash));
            assert(member_hashes(g2, allx) =~= Multiset::<u64>::empty().insert(c.hash));
            lemma_class_hashes_push(all, c, ccl, cls);
        } else {
            let o = back(h);
            assert(new[h] == vs[o]);
            let cl = group_cls(vs, all, o, cls);
            lemma_member_hashes_extend(vs[o], all, c);
            lemma_class_hashes_push(all, c, cl, cls);
        }
    }

    // every present class has a group
    assert forall|cl: int| #[trigger] class_present(allx, cl, cls) implies exists|h: int|
        0 <= h < new.len() && group_cls(new, allx, h, cls) == cl by {
        let idx = choose|idx: int|
            0 <= idx < allx.len() && cls((#[trigger] allx[idx]).sample->0) == cl;
        if idx < all.len() {
            assert(allx[idx] == all[idx]);
            assert(class_present(all, cl, cls));
            let g0 = choose|g0: int| 0 <= g0 < vs.len() && group_cls(vs, all, g0, cls) == cl;
            let h0 = if g0 < m {
                g0
            } else {
                g0 + 1
            };
            assert(new[h0] == vs[g0]);
            assert(group_cls(new, allx, h0, cls) == cl);
        } else {
            assert(allx[idx] == c);
            assert(group_cls(new, allx, m, cls) == cl);
        }
    }

    assert(all_sampled(allx)) by {
        assert forall|i: int| 0 <= i < allx.len() implies (#[trigger] allx[i]).sample is Some by {
            if i < all.len() {
                assert(allx[i] == all[i]);
            } else {
                assert(allx[i] == c);
            }
        }
    }
}

/// The join-a-group case of the step.
proof fn lemma_into_group_classes(
    vs: Seq<GroupView>,
    all: Seq<CandView>,
    c: CandView,
    cls: spec_fn(Seq<u8>) -> int,
    g: int,
)
    requires
        classes_inv(vs, all, cls),
        all.len() < usize::MAX,
        c.sample is Some,
        0 <= g < vs.len(),
        group_cls(vs, all, g, cls) == cls(c.sample->0),
        cluster_step(vs, all, c) == cluster_into_group(vs, all, g, c.weight, all.len() as ImgId),
    ensures
        classes_inv(cluster_step(vs, all, c), all.push(c), cls),
{
    let id = all.len() as ImgId;
    assert(id as int == all.len());
    let allx = all.push(c);
    assert(allx[id as int] == c);
    let ccl = cls(c.sample->0);
    let members = vs[g].imgs;
    let p = member_pos(members, all, c.weight);
    lemma_member_pos_props(members, all, c.weight, members.len() as int);
    let g2 = GroupView { weight: vs[g].weight + c.weight, imgs: members.insert(p, id) };
    let m = bubble_dest_from(vs, vs[g].weight + c.weight, g);
    lemma_bubble_from_props(vs, vs[g].weight + c.weight, g);
    assert(0 <= m <= g);
    let removed = vs.remove(g);
    let new = removed.insert(m, g2);
    assert(cluster_step(vs, all, c) == new);
    assert(new.len() == vs.len());
    lemma_group_cls_extend(vs, all, c, cls);

    // where each position of `new` comes from
    let back = |h: int|
        if h < m {
            h
        } else if h <= g {
            h - 1
        } else {
            h
        };
    assert forall|h: int| 0 <= h < new.len() && h != m implies new[h] == vs[back(h)] by {
        if h < m {
            assert(new[h] == removed[h]);
            assert(removed[h] == vs[h]);
        } else if h <= g {
            assert(new[h] == removed[h - 1]);
            assert(removed[h - 1] == vs[h - 1]);
        } else {
            assert(new[h] == removed[h - 1]);
            assert(removed[h - 1] == vs[h]);
        }
    }
    assert(new[m] == g2);

    // where each member of the updated group comes from
    assert(forall|k: int| 0 <= k < p ==> g2.imgs[k] == members[k]);
    assert(g2.imgs[p] == id);
    assert(forall|k: int| p < k < g2.imgs.len() ==> g2.imgs[k] == members[k - 1]);
    assert(g2.imgs.len() == members.len() + 1);

    // the old members of the group are of its class, so the updated
    // group's canonical member still is
    assert(forall|k: int| 0 <= k < members.len() ==> (#[trigger] members[k]) < all.len());
    assert(forall|k: int|
        0 <= k < members.len() ==> cls(all[(#[trigger] members[k]) as int].sample->0) == ccl);
    assert forall|k: int| 0 <= k < g2.imgs.len() implies (#[trigger] g2.imgs[k]) < allx.len()
        && cls(allx[g2.imgs[k] as int].sample->0) == ccl by {
        if k < p {
            assert(g2.imgs[k] == members[k]);
            assert(allx[g2.imgs[k] as int] == all[g2.imgs[k] as int]);
        } else if k == p {
        } else {
            assert(g2.imgs[k] == members[k - 1]);
            assert(allx[g2.imgs[k] as int] == all[g2.imgs[k] as int]);
        }
    }
    assert(group_cls(new, allx, m, cls) == ccl);

    // classes at the new positions
    assert forall|h: int| 0 <= h < new.len() && h != m implies #[trigger] group_cls(
        new,
        allx,
        h,
        cls,
    ) == group_cls(vs, all, back(h), cls) by {
        assert(new[h] == vs[back(h)]);
        assert(group_cls(new, allx, h, cls) == group_cls(vs, allx, back(h), cls));
    }

    // member coherence and validity everywhere
    assert forall|h: int, k: int| 0 <= h < new.len() && 0 <= k < new[h].imgs.len() implies (
    #[trigger] new[h].imgs[k]) < allx.len() && cls(allx[new[h].imgs[k] as int].sample->0)
        == group_cls(new, allx, h, cls) by {
        if h != m {
            assert(new[h] == vs[back(h)]);
            assert(vs[back(h)].imgs[k] < all.len());
            assert(allx[new[h].imgs[k] as int] == all[new[h].imgs[k] as int]);
        }
    }

    // class distinctness: the classes are the same as before, in new places
    assert forall|h1: int, h2: int| 0 <= h1 < h2 < new.len() implies #[trigger] group_cls(
        new,
        allx,
        h1,
        cls,
    ) != #[trigger] group_cls(new, allx, h2, cls) by {
        if h1 == m {
            assert(group_cls(new, allx, h2, cls) == group_cls(vs, all, back(h2), cls));
            assert(back(h2) != g);
        } else if h2 == m {
            assert(group_cls(new, allx, h1, cls) == group_cls(vs, all, back(h1), cls));
            assert(back(h1) != g);
        } else {
            assert(back(h1) != back(h2));
        }
    }

    // slot injectivity: the newcomer has a fresh identity, old slots map
    // injectively
    assert forall|h1: int, k1: int, h2: int, k2: int|
        0 <= h1 < new.len() && 0 <= k1 < new[h1].imgs.len() && 0 <= h2 < new.len() && 0 <= k2
            < new[h2].imgs.len() && (#[trigger] new[h1].imgs[k1]) == (#[trigger] new[h2].imgs[k2])
        implies h1 == h2 && k1 == k2 by {
        let v1 = new[h1].imgs[k1];
        // translate each slot to a slot of `vs`, or to the newcomer
        if h1 == m && h2 == m {
            if k1 != k2 {
                // two slots of the updated group: both map into `members`
                // unless one is the inserted newcomer
                if k1 == p || k2 == p {
                    let ko = if k1 == p {
                        k2
                    } else {
                        k1
                    };
                    let mo = if ko < p {
                        ko
                    } else {
                        ko - 1
                    };
                    assert(g2.imgs[ko] == members[mo]);
                    assert(members[mo] < all.len());
                    assert(g2.imgs[p] == id);
                } else {
                    let m1 = if k1 < p {
                        k1
                    } else {
                        k1 - 1
                    };
                    let m2 = if k2 < p {
                        k2
                    } else {
                        k2 - 1
                    };
                    assert(g2.imgs[k1] == members[m1]);
                    assert(g2.imgs[k2] == members[m2]);
                    assert(holds_id(vs, g, m1, members[m1] as int));
                    assert(holds_id(vs, g, m2, members[m2] as int));
                    assert(vs[g].imgs[m1] == vs[g].imgs[m2]);
                    assert(m1 == m2);
                }
            }
        } else if h1 == m {
            assert(new[h2] == vs[back(h2)]);
            assert(vs[back(h2)].imgs[k2] < all.len());
            if k1 == p {
                assert(v1 == id);
            } else {
                let m1 = if k1 < p {
                    k1
                } else {
                    k1 - 1
                };
                assert(g2.imgs[k1] == members[m1]);
                assert(vs[g].imgs[m1] == vs[back(h2)].imgs[k2]);
                assert(g == back(h2));
                assert(back(h2) != g);
            }
        } else if h2 == m {
            assert(new[h1] == vs[back(h1)]);
            assert(vs[back(h1)].imgs[k1] < all.len());
            if k2 == p {
                assert(new[h2].imgs[k2] == id);
            } else {
                let m2 = if k2 < p {
                    k2
                } else {
                    k2 - 1
                };
                assert(g2.imgs[k2] == members[m2]);
                assert(vs[back(h1)].imgs[k1] == vs[g].imgs[m2]);
                assert(back(h1) == g);
                assert(back(h1) != g);
            }
        } else {
            assert(new[h1] == vs[back(h1)]);
            assert(new[h2] == vs[back(h2)]);
            assert(back(h1) == back(h2) ==> h1 == h2);
        }
    }

    // completeness: every old candidate kept its slot, the newcomer got one
    assert forall|idx: int| 0 <= idx < allx.len() implies #[trigger] member_of(new, idx) by {
        if idx < all.len() {
            assert(member_of(vs, idx));
            let (g0, k0) = choose|g0: int, k0: int| holds_id(vs, g0, k0, idx);
            if g0 == g {
                let k1 = if k0 < p {
                    k0
                } else {
                    k0 + 1
                };
                assert(g2.imgs[k1] == members[k0]);
                assert(holds_id(new, m, k1, idx));
            } else {
                let h0 = if g0 < m {
                    g0
                } else if g0 < g {
                    g0 + 1
                } else {
                    g0
                };
                assert(new[h0] == vs[g0]);
                assert(holds_id(new, h0, k0, idx));
            }
        } else {
            assert(g2.imgs[p] == id);
            assert(holds_id(new, m, p, idx));
        }
    }

    // group contents are exactly the class contents
    assert forall|h: int| 0 <= h < new.len() implies member_hashes(#[trigger] new[h], allx)
        == class_hashes(allx, group_cls(new, allx, h, cls), cls) by {
        if h == m {
            lemma_member_hashes_insert(members, p, id, allx);
            lemma_member_hashes_weight(vs[g], g2.weight, allx);
            assert(member_hashes(g2, allx) == member_hashes(
                GroupView { weight: 0, imgs: members },
                allx,
            ).insert(c.hash));
            lemma_member_hashes_extend(GroupView { weight: 0, imgs: members }, all, c);
            assert(member_hashes(GroupView { weight: 0, imgs: members }, all) == member_hashes(
                vs[g],
                all,
            ));
            lemma_class_hashes_push(all, c, ccl, cls);
            assert(member_hashes(vs[g], all) == class_hashes(all, ccl, cls));
        } else {
            let o = back(h);
            assert(new[h] == vs[o]);
            let cl = group_cls(vs, all, o, cls);
            assert(o != g);
            assert(cl != ccl) by {
                if o < g {
                    assert(group_cls(vs, all, o, cls) != group_cls(vs, all, g, cls));
                } else {
                    assert(group_cls(vs, all, g, cls) != group_cls(vs, all, o, cls));
                }
            }
            lemma_member_hashes_extend(vs[o], all, c);
            lemma_class_hashes_push(all, c, cl, cls);
        }
    }

    // every present class has a group
    assert forall|cl: int| #[trigger] class_present(allx, cl, cls) implies exists|h: int|
        0 <= h < new.len() && group_cls(new, allx, h, cls) == cl by {
        let idx = choose|idx: int|
            0 <= idx < allx.len() && cls((#[trigger] allx[idx]).sample->0) == cl;
        if idx < all.len() {
            assert(allx[idx] == all[idx]);
            assert(class_present(all, cl, cls));
            let g0 = choose|g0: int| 0 <= g0 < vs.len() && group_cls(vs, all, g0, cls) == cl;
            if g0 == g {
                assert(group_cls(new, allx, m, cls) == cl);
            } else {
                let h0 = if g0 < m {
                    g0
                } else if g0 < g {
                    g0 + 1
                } else {
                    g0
                };
                assert(new[h0] == vs[g0]);
                assert(group_cls(new, allx, h0, cls) == cl);
            }
        } else {
            assert(allx[idx] == c);
            assert(group_cls(new, allx, m, cls) == cl);
        }
    }

    assert(all_sampled(allx)) by {
        assert forall|i: int| 0 <= i < allx.len() implies (#[trigger] allx[i]).sample is Some by {
            if i < all.len() {
                assert(allx[i] == all[i]);
            } else {
                assert(allx[i] == c);
            }
        }
    }
}

/// Removing one candidate removes exactly its identity from its class.
proof fn lemma_class_hashes_remove(s: Seq<CandView>, j: int, cl: int, cls: spec_fn(Seq<u8>) -> int)
    requires
        0 <= j < s.len(),
    ensures
        class_pred(cl, cls)(s[j]) ==> class_hashes(s, cl, cls) == class_hashes(
            s.remove(j),
            cl,
            cls,
        ).insert(s[j].hash),
        !class_pred(cl, cls)(s[j]) ==> class_hashes(s, cl, cls) == class_hashes(
            s.remove(j),
            cl,
            cls,
        ),
{
    let pred = class_pred(cl, cls);
    let f = cand_hash();
    let a = s.take(j);
    let b = s.skip(j + 1);
    assert(s =~= a + (seq![s[j]] + b));
    assert(s.remove(j) =~= a + b);
    assert((a + (seq![s[j]] + b)).filter(pred) == a.filter(pred) + (seq![s[j]] + b).filter(pred));
    assert((seq![s[j]] + b).filter(pred) == seq![s[j]].filter(pred) + b.filter(pred));
    assert((a + b).filter(pred) == a.filter(pred) + b.filter(pred));
    lemma_filter_singleton(s[j], pred);
    lemma_map_distributes(a.filter(pred), seq![s[j]].filter(pred) + b.filter(pred), f);
    lemma_map_distributes(seq![s[j]].filter(pred), b.filter(pred), f);
    lemma_map_distributes(a.filter(pred), b.filter(pred), f);
    let ma = a.filter(pred).map_values(f).to_multiset();
    let mb = b.filter(pred).map_values(f).to_multiset();
    if pred(s[j]) {
        assert(seq![s[j]].filter(pred).map_values(f) =~= seq![s[j].hash]);
        assert(seq![s[j].hash] =~= Seq::<u64>::empty().push(s[j].hash));
        assert(seq![s[j].hash].to_multiset() =~= Multiset::<u64>::empty().insert(s[j].hash));
        assert(class_hashes(s, cl, cls) =~= ma.add(
            Multiset::<u64>::empty().insert(s[j].hash).add(mb),
        ));
        assert(class_hashes(s.remove(j), cl, cls) =~= ma.add(mb));
        assert(ma.add(Multiset::<u64>::empty().insert(s[j].hash).add(mb)) =~= ma.add(mb).insert(
            s[j].hash,
        ));
    } else {
        assert(seq![s[j]].filter(pred).map_values(f) =~= Seq::<u64>::empty());
        assert(Seq::<u64>::empty().to_multiset() =~= Multiset::<u64>::empty());
        assert(class_hashes(s, cl, cls) =~= ma.add(Multiset::<u64>::empty().add(mb)));
        assert(class_hashes(s.remove(j), cl, cls) =~= ma.add(mb));
        assert(ma.add(Multiset::<u64>::empty().add(mb)) =~= ma.add(mb));
    }
}

/// A candidate of one sequence is in any other with the same contents.
proof fn lemma_multiset_contains_transfer<A>(s1: Seq<A>, s2: Seq<A>, x: A)
    requires
        s1.to_multiset() == s2.to_multiset(),
        s1.contains(x),
    ensures
        s2.contains(x),
{
    assert(s1.to_multiset().count(x) > 0);
    assert(s2.to_multiset().count(x) > 0);
}

/// The identities of a class depend only on which candidates are there,
/// not on their order.
proof fn lemma_class_hashes_perm(
    s1: Seq<CandView>,
    s2: Seq<CandView>,
    cl: int,
    cls: spec_fn(Seq<u8>) -> int,
)
    requires
        s1.to_multiset() == s2.to_multiset(),
    ensures
        class_hashes(s1, cl, cls) == class_hashes(s2, cl, cls),
    decreases s1.len(),
{
    if s1.len() == 0 {
        assert(s1.to_multiset().len() == s1.len());
        assert(s2.to_multiset().len() == s2.len());
        assert(s1 =~= s2);
    } else {
        let x = s1.last();
        assert(s1.contains(x)) by {
            assert(s1[s1.len() - 1] == x);
        }
        lemma_multiset_contains_transfer(s1, s2, x);
        let j = choose|j: int| 0 <= j < s2.len() && s2[j] == x;
        lemma_class_hashes_remove(s1, s1.len() - 1, cl, cls);
        lemma_class_hashes_remove(s2, j, cl, cls);
        assert(s1.remove(s1.len() - 1).to_multiset() == s2.remove(j).to_multiset()) by {
            assert(s1.remove(s1.len() - 1).to_multiset() == s1.to_multiset().remove(x));
            assert(s2.remove(j).to_multiset() == s2.to_multiset().remove(x));
        }
        lemma_class_hashes_perm(s1.remove(s1.len() - 1), s2.remove(j), cl, cls);
    }
}

/// The invariant carried over a whole batch.
proof fn lemma_cluster_all_inv(
    vs: Seq<GroupView>,
    all: Seq<CandView>,
    rest: Seq<CandView>,
    cls: spec_fn(Seq<u8>) -> int,
)
    requires
        classes_inv(vs, all, cls),
        all_sampled(rest),
        sim_is_equivalence(all + rest, cls),
        all.len() + rest.len() <= SORT_LIMIT,
    ensures
        ({
            let r = cluster_all(vs, all, rest);
            r.1 == all + rest && classes_inv(r.0, r.1, cls)
        }),
    decreases rest.len(),
{
    if rest.len() == 0 {
        assert(all + rest =~= all);
    } else {
        let c = rest[0];
        assert(c.sample is Some);
        assert((all + rest)[all.len() as int] == c);
        assert forall|id: int| 0 <= id < all.len() implies (#[trigger] similar(
            all[id].sample->0,
            c.sample->0,
        ) <==> cls(all[id].sample->0) == cls(c.sample->0)) by {
            assert((all + rest)[id] == all[id]);
            assert(similar(
                (all + rest)[id].sample->0,
                (all + rest)[all.len() as int].sample->0,
            ) <==> cls((all + rest)[id].sample->0) == cls(
                (all + rest)[all.len() as int].sample->0,
            ));
        }
        lemma_step_classes(vs, all, c, cls);
        let vs1 = cluster_step(vs, all, c);
        let all1 = all.push(c);
        assert(all1 + rest.drop_first() =~= all + rest);
        assert(all_sampled(rest.drop_first())) by {
            assert(forall|i: int|
                0 <= i < rest.len() - 1 ==> rest.drop_first()[i] == rest[i + 1]);
        }
        lemma_cluster_all_inv(vs1, all1, rest.drop_first(), cls);
    }
}

/// Two duplicate-free sequences with the same members have the same length.
proof fn lemma_distinct_same_len<A>(c1: Seq<A>, c2: Seq<A>)
    requires
        c1.no_duplicates(),
        c2.no_duplicates(),
        forall|x: A| c1.contains(x) <==> c2.contains(x),
    ensures
        c1.len() == c2.len(),
{
    c1.lemma_multiset_has_no_duplicates();
    c2.lemma_multiset_has_no_duplicates();
    assert forall|x: A| c1.to_multiset().count(x) == c2.to_multiset().count(x) by {
        if c1.contains(x) {
            assert(c1.to_multiset().count(x) == 1);
            assert(c2.to_multiset().count(x) == 1);
        } else {
            assert(!c2.contains(x));
            assert(c1.to_multiset().count(x) == 0);
            assert(c2.to_multiset().count(x) == 0);
        }
    }
    assert(c1.to_multiset() =~= c2.to_multiset());
    assert(c1.to_multiset().len() == c1.len());
    assert(c2.to_multiset().len() == c2.len());
}

/// A group on one side has a counterpart with the same member identities
/// on the other.
proof fn lemma_group_corresponds(
    vsa: Seq<GroupView>,
    alla: Seq<CandView>,
    vsb: Seq<GroupView>,
    allb: Seq<CandView>,
    cls: spec_fn(Seq<u8>) -> int,
    g: int,
)
    requires
        classes_inv(vsa, alla, cls),
        classes_inv(vsb, allb, cls),
        alla.to_multiset() == allb.to_multiset(),
        forall|cl: int| #[trigger] class_present(alla, cl, cls) ==> class_present(allb, cl, cls),
        0 <= g < vsa.len(),
    ensures
        exists|h: int|
            0 <= h < vsb.len() && member_hashes(vsa[g], alla) == member_hashes(
                #[trigger] vsb[h],
                allb,
            ),
{
    let cl = group_cls(vsa, alla, g, cls);
    assert(holds_id(vsa, g, 0, vsa[g].imgs[0] as int));
    assert(cls(alla[vsa[g].imgs[0] as int].sample->0) == cl);
    assert(class_present(alla, cl, cls));
    assert(class_present(allb, cl, cls));
    let h = choose|h: int| 0 <= h < vsb.len() && group_cls(vsb, allb, h, cls) == cl;
    lemma_class_hashes_perm(alla, allb, cl, cls);
    assert(member_hashes(vsa[g], alla) == class_hashes(alla, cl, cls));
    assert(member_hashes(vsb[h], allb) == class_hashes(allb, cl, cls));
}

/// Both sides hold one group per present class, so equally many.
proof fn lemma_same_group_count(
    vsa: Seq<GroupView>,
    alla: Seq<CandView>,
    vsb: Seq<GroupView>,
    allb: Seq<CandView>,
    cls: spec_fn(Seq<u8>) -> int,
)
    requires
        classes_inv(vsa, alla, cls),
        classes_inv(vsb, allb, cls),
        forall|cl: int| #[trigger] class_present(alla, cl, cls) <==> class_present(allb, cl, cls),
    ensures
        vsa.len() == vsb.len(),
{
    let c1 = Seq::new(vsa.len(), |g: int| group_cls(vsa, alla, g, cls));
    let c2 = Seq::new(vsb.len(), |h: int| group_cls(vsb, allb, h, cls));
    assert(c1.no_duplicates()) by {
        assert forall|i: int, j: int| 0 <= i < c1.len() && 0 <= j < c1.len() && i != j implies c1[i]
            != c1[j] by {
            if i < j {
                assert(group_cls(vsa, alla, i, cls) != group_cls(vsa, alla, j, cls));
            } else {
                assert(group_cls(vsa, alla, j, cls) != group_cls(vsa, alla, i, cls));
            }
        }
    }
    assert(c2.no_duplicates()) by {
        assert forall|i: int, j: int| 0 <= i < c2.len() && 0 <= j < c2.len() && i != j implies c2[i]
            != c2[j] by {
            if i < j {
                assert(group_cls(vsb, allb, i, cls) != group_cls(vsb, allb, j, cls));
            } else {
                assert(group_cls(vsb, allb, j, cls) != group_cls(vsb, allb, i, cls));
            }
        }
    }
    assert forall|x: int| c1.contains(x) <==> c2.contains(x) by {
        if c1.contains(x) {
            let g = choose|g: int| 0 <= g < c1.len() && c1[g] == x;
            assert(holds_id(vsa, g, 0, vsa[g].imgs[0] as int));
            assert(class_present(alla, x, cls));
            assert(class_present(allb, x, cls));
            let h = choose|h: int| 0 <= h < vsb.len() && group_cls(vsb, allb, h, cls) == x;
            assert(c2[h] == x);
            assert(c2.contains(x));
        }
        if c2.contains(x) {
            let h = choose|h: int| 0 <= h < c2.len() && c2[h] == x;
            assert(holds_id(vsb, h, 0, vsb[h].imgs[0] as int));
            assert(class_present(allb, x, cls));
            assert(class_present(alla, x, cls));
            let g = choose|g: int| 0 <= g < vsa.len() && group_cls(vsa, alla, g, cls) == x;
            assert(c1[g] == x);
            assert(c1.contains(x));
        }
    }
    lemma_distinct_same_len(c1, c2);
}

/// Clustering is insensitive to arrival order: two batches holding the
/// same candidates form the same groups. The groups are equally many, and
/// the group at any position `g` of one run has a group of the other run
/// with the very same member identities (in both directions). Group order
/// and order inside a group may differ only by weight, never by arrival.
///
/// The hypotheses are the ones under which the grouping is a partition
/// into similarity classes: every candidate carries a sample, pairwise
/// similarity agrees with a class assignment, and the batch never outgrows
/// the scan window.
#[verifier::rlimit(100)]
pub proof fn lemma_clustering_order_independent(
    batch1: Seq<CandView>,
    batch2: Seq<CandView>,
    cls: spec_fn(Seq<u8>) -> int,
    g: int,
)
    requires
        batch1.to_multiset() == batch2.to_multiset(),
        all_sampled(batch1),
        sim_is_equivalence(batch1, cls),
        batch1.len() <= SORT_LIMIT,
    ensures
        cluster_all(Seq::empty(), Seq::empty(), batch1).0.len() == cluster_all(
            Seq::empty(),
            Seq::empty(),
            batch2,
        ).0.len(),
        0 <= g < cluster_all(Seq::empty(), Seq::empty(), batch1).0.len() ==> exists|h: int|
            0 <= h < cluster_all(Seq::empty(), Seq::empty(), batch2).0.len() && member_hashes(
                cluster_all(Seq::empty(), Seq::empty(), batch1).0[g],
                cluster_all(Seq::empty(), Seq::empty(), batch1).1,
            ) == member_hashes(
                #[trigger] cluster_all(Seq::empty(), Seq::empty(), batch2).0[h],
                cluster_all(Seq::empty(), Seq::empty(), batch2).1,
            ),
        0 <= g < cluster_all(Seq::empty(), Seq::empty(), batch2).0.len() ==> exists|h: int|
            0 <= h < cluster_all(Seq::empty(), Seq::empty(), batch1).0.len() && member_hashes(
                cluster_all(Seq::empty(), Seq::empty(), batch2).0[g],
                cluster_all(Seq::empty(), Seq::empty(), batch2).1,
            ) == member_hashes(
                #[trigger] cluster_all(Seq::empty(), Seq::empty(), batch1).0[h],
                cluster_all(Seq::empty(), Seq::empty(), batch1).1,
            ),
{
    // the second batch holds the same candidates
    assert(batch1.to_multiset().len() == batch1.len());
    assert(batch2.to_multiset().len() == batch2.len());
    assert(batch2.len() == batch1.len());
    assert forall|i: int| 0 <= i < batch2.len() implies (#[trigger] batch2[i]).sample
        is Some by {
        assert(batch2.contains(batch2[i]));
        lemma_multiset_contains_transfer(batch2, batch1, batch2[i]);
        let j = choose|j: int| 0 <= j < batch1.len() && batch1[j] == batch2[i];
        assert(batch1[j].sample is Some);
    }
    assert forall|i: int, j: int| 0 <= i < batch2.len() && 0 <= j < batch2.len() implies (
    #[trigger] similar(batch2[i].sample->0, batch2[j].sample->0) <==> cls(batch2[i].sample->0)
        == cls(batch2[j].sample->0)) by {
        assert(batch2.contains(batch2[i]));
        lemma_multiset_contains_transfer(batch2, batch1, batch2[i]);
        assert(batch2.contains(batch2[j]));
        lemma_multiset_contains_transfer(batch2, batch1, batch2[j]);
        let i1 = choose|i1: int| 0 <= i1 < batch1.len() && batch1[i1] == batch2[i];
        let j1 = choose|j1: int| 0 <= j1 < batch1.len() && batch1[j1] == batch2[j];
        assert(similar(batch1[i1].sample->0, batch1[j1].sample->0) <==> cls(
            batch1[i1].sample->0,
        ) == cls(batch1[j1].sample->0));
    }

    // run both folds from the empty state
    assert(classes_inv(Seq::empty(), Seq::empty(), cls)) by {
        assert(forall|cl: int| !class_present(Seq::<CandView>::empty(), cl, cls));
    }
    assert(Seq::<CandView>::empty() + batch1 =~= batch1);
    assert(Seq::<CandView>::empty() + batch2 =~= batch2);
    lemma_cluster_all_inv(Seq::empty(), Seq::empty(), batch1, cls);
    lemma_cluster_all_inv(Seq::empty(), Seq::empty(), batch2, cls);
    let r1 = cluster_all(Seq::empty(), Seq::empty(), batch1);
    let r2 = cluster_all(Seq::empty(), Seq::empty(), batch2);
    assert(r1.1 == batch1);
    assert(r2.1 == batch2);

    // the same classes are present on both sides
    assert forall|cl: int| #[trigger] class_present(batch1, cl, cls) <==> class_present(
        batch2,
        cl,
        cls,
    ) by {
        if class_present(batch1, cl, cls) {
            let id = choose|id: int|
                0 <= id < batch1.len() && cls((#[trigger] batch1[id]).sample->0) == cl;
            assert(batch1.contains(batch1[id]));
            lemma_multiset_contains_transfer(batch1, batch2, batch1[id]);
            let j = choose|j: int| 0 <= j < batch2.len() && batch2[j] == batch1[id];
            assert(cls(batch2[j].sample->0) == cl);
        }
        if class_present(batch2, cl, cls) {
            let id = choose|id: int|
                0 <= id < batch2.len() && cls((#[trigger] batch2[id]).sample->0) == cl;
            assert(batch2.contains(batch2[id]));
            lemma_multiset_contains_transfer(batch2, batch1, batch2[id]);
            let j = choose|j: int| 0 <= j < batch1.len() && batch1[j] == batch2[id];
            assert(cls(batch1[j].sample->0) == cl);
        }
    }

    lemma_same_group_count(r1.0, batch1, r2.0, batch2, cls);

    if 0 <= g < r1.0.len() {
        lemma_group_corresponds(r1.0, batch1, r2.0, batch2, cls, g);
        let h = choose|h: int|
            0 <= h < r2.0.len() && member_hashes(r1.0[g], batch1) == member_hashes(
                #[trigger] r2.0[h],
                batch2,
            );
        assert(0 <= h < r2.0.len() && member_hashes(r1.0[g], r1.1) == member_hashes(
            r2.0[h],
            r2.1,
        ));
    }
    if 0 <= g < r2.0.len() {
        lemma_group_corresponds(r2.0, batch2, r1.0, batch1, cls, g);
        let h = choose|h: int|
            0 <= h < r1.0.len() && member_hashes(r2.0[g], batch2) == member_hashes(
                #[trigger] r1.0[h],
                batch1,
            );
        assert(0 <= h < r1.0.len() && member_hashes(r2.0[g], r2.1) == member_hashes(
            r1.0[h],
            r1.1,
        ));
    }
}

} // verus!
