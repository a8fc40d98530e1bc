//! Every shard of an index sits where its first shard sits.
//!
//! A copy is a copy of the whole index, so the routing has to say the same: a
//! write routed to the third shard has to land on the node that answers for
//! the index, and a copy filled from the primary has to be the primary of
//! every shard, not of one.

use vstd::prelude::*;

use super::state::{
    copy_copies, copy_node, same_node, CopyV, Ids, IdsV, IndexV, ShardRouting, UnassignedInfo,
};
use super::work::{set_copies, with_copies, Changes, ChangesV, Work, WorkV};
use crate::list::push_to;

verus! {

#[verifier::ext_equal]
pub struct FollowV {
    pub copies: Seq<CopyV>,
    pub ids: IdsV,
    pub ch: ChangesV,
}

/// Whether a copy is where another is, in the same state and part.
pub open spec fn alike(c: CopyV, model: CopyV) -> bool {
    c.node == model.node && c.state == model.state && c.primary == model.primary
}

/// A copy put where the first shard's copy is.
pub open spec fn following(c: CopyV, model: CopyV, ids: IdsV) -> CopyV {
    CopyV {
        primary: model.primary,
        state: model.state,
        node: model.node,
        relocating_node: model.relocating_node,
        unassigned: model.unassigned,
        allocation_id: if model.node is None {
            None
        } else if c.allocation_id is None && model.allocation_id is Some {
            Some(ids.id())
        } else {
            c.allocation_id
        },
        ..c
    }
}

/// A copy the first shard has and this one lacks.
pub open spec fn gained(name: Seq<char>, shard: u32, model: CopyV, ids: IdsV) -> CopyV {
    CopyV {
        index: name,
        shard,
        allocation_id: if model.allocation_id is Some {
            Some(ids.id())
        } else {
            None
        },
        ..model
    }
}

/// The first copies of a shard, each where the first shard's copy is.
pub open spec fn followed(
    name: Seq<char>,
    shard: u32,
    copies: Seq<CopyV>,
    first: Seq<CopyV>,
    ids: IdsV,
    ch: ChangesV,
    n: nat,
) -> FollowV
    decreases n,
{
    if n == 0 {
        FollowV { copies: Seq::empty(), ids, ch }
    } else {
        let before = followed(name, shard, copies, first, ids, ch, (n - 1) as nat);
        let model = first[n - 1];
        if n - 1 >= copies.len() {
            FollowV {
                copies: before.copies.push(gained(name, shard, model, before.ids)),
                ids: if model.allocation_id is Some {
                    before.ids.taken()
                } else {
                    before.ids
                },
                ch: before.ch,
            }
        } else {
            let c = copies[n - 1];
            if alike(c, model) {
                FollowV { copies: before.copies.push(c), ..before }
            } else {
                FollowV {
                    copies: before.copies.push(following(c, model, before.ids)),
                    ids: if c.allocation_id is None && model.allocation_id is Some {
                        before.ids.taken()
                    } else {
                        before.ids
                    },
                    ch: if c.node != model.node && model.node is Some {
                        before.ch.assign(name, shard, model.primary, model.node->0)
                    } else {
                        before.ch
                    },
                }
            }
        }
    }
}

/// An index whose first shards sit where the very first one sits.
pub open spec fn followed_shards(w: WorkV, i: int, n: nat) -> WorkV
    decreases n,
{
    if n <= 1 {
        w
    } else {
        let before = followed_shards(w, i, (n - 1) as nat);
        let first = w.t[i].shards[0];
        let f = followed(
            w.t[i].name,
            (n - 1) as u32,
            w.t[i].shards[n - 1],
            first,
            before.ids,
            before.ch,
            first.len(),
        );
        WorkV { t: with_copies(before.t, i, n - 1, f.copies), ids: f.ids, ch: f.ch }
    }
}

/// The first indices with every shard where the first one sits.
pub open spec fn followed_all(w: WorkV, n: nat) -> WorkV
    decreases n,
{
    if n == 0 {
        w
    } else {
        let before = followed_all(w, (n - 1) as nat);
        followed_shards(before, n - 1, before.t[n - 1].shards.len())
    }
}

fn copy_info(u: &Option<UnassignedInfo>) -> (r: Option<UnassignedInfo>)
    ensures
        r.deep_view() == u.deep_view(),
{
    match u {
        Some(x) => Some(x.clone()),
        None => None,
    }
}

fn follow_one(
    name: &str,
    shard: u32,
    c: &ShardRouting,
    model: &ShardRouting,
    ids: &mut Ids,
    changes: &mut Changes,
) -> (r: ShardRouting)
    ensures
        ({
            let cv = c.deep_view();
            let mv = model.deep_view();
            if alike(cv, mv) {
                &&& r.deep_view() == cv
                &&& final(ids).deep_view() == old(ids).deep_view()
                &&& final(changes).deep_view() == old(changes).deep_view()
            } else {
                &&& r.deep_view() == following(cv, mv, old(ids).deep_view())
                &&& final(ids).deep_view() == (if cv.allocation_id is None
                    && mv.allocation_id is Some {
                    old(ids).deep_view().taken()
                } else {
                    old(ids).deep_view()
                })
                &&& final(changes).deep_view() == (if cv.node != mv.node && mv.node is Some {
                    old(changes).deep_view().assign(name@, shard, mv.primary, mv.node->0)
                } else {
                    old(changes).deep_view()
                })
            }
        }),
{
    if same_node(&c.node, &model.node) && c.state == model.state && c.primary == model.primary {
        return c.clone();
    }
    let mut r = c.clone();
    r.primary = model.primary;
    r.state = model.state;
    r.node = copy_node(&model.node);
    r.relocating_node = copy_node(&model.relocating_node);
    r.unassigned = copy_info(&model.unassigned);
    if c.allocation_id.is_none() && model.allocation_id.is_some() {
        r.allocation_id = Some(ids.take());
    }
    if model.node.is_none() {
        r.allocation_id = None;
    }
    if !same_node(&c.node, &model.node) {
        if let Some(n) = &model.node {
            push_to(&mut changes.assigned, (name.to_owned(), shard, model.primary, n.clone()));
        }
    }
    r
}

fn follow_copies(
    name: &str,
    shard: u32,
    copies: &Vec<ShardRouting>,
    first: &Vec<ShardRouting>,
    ids: &mut Ids,
    changes: &mut Changes,
) -> (r: Vec<ShardRouting>)
    ensures
        (FollowV {
            copies: r.deep_view(),
            ids: final(ids).deep_view(),
            ch: final(changes).deep_view(),
        }) == followed(
            name@,
            shard,
            copies.deep_view(),
            first.deep_view(),
            old(ids).deep_view(),
            old(changes).deep_view(),
            first@.len(),
        ),
{
    let mut r: Vec<ShardRouting> = Vec::new();
    assert(r.deep_view() =~= Seq::<CopyV>::empty());
    for j in 0..first.len()
        invariant
            (FollowV {
                copies: r.deep_view(),
                ids: ids.deep_view(),
                ch: changes.deep_view(),
            }) == followed(
                name@,
                shard,
                copies.deep_view(),
                first.deep_view(),
                old(ids).deep_view(),
                old(changes).deep_view(),
                j as nat,
            ),
    {
        let model = &first[j];
        assert(first.deep_view()[j as int] == model.deep_view());
        if j < copies.len() {
            assert(copies.deep_view()[j as int] == copies@[j as int].deep_view());
            let c = follow_one(name, shard, &copies[j], model, ids, changes);
            push_to(&mut r, c);
        } else {
            let id = match &model.allocation_id {
                Some(_) => Some(ids.take()),
                None => None,
            };
            push_to(
                &mut r,
                ShardRouting {
                    index: name.to_owned(),
                    shard,
                    primary: model.primary,
                    state: model.state,
                    node: copy_node(&model.node),
                    relocating_node: copy_node(&model.relocating_node),
                    allocation_id: id,
                    unassigned: copy_info(&model.unassigned),
                },
            );
        }
    }
    r
}

fn follow_shards(w: &mut Work, i: usize)
    requires
        i < old(w).table.indices@.len(),
    ensures
        final(w).deep_view() == followed_shards(
            old(w).deep_view(),
            i as int,
            old(w).deep_view().t[i as int].shards.len(),
        ),
        final(w).table.indices@.len() == old(w).table.indices@.len(),
{
    let ghost start = w.deep_view();
    assert(start.t[i as int] == w.table.indices@[i as int].deep_view());
    let n: usize = w.table.indices[i].shards.len();
    if n == 0 {
        return;
    }
    let name = w.table.indices[i].name.clone();
    assert(start.t[i as int].shards[0] == w.table.indices@[i as int].shards@[0].deep_view());
    let first = copy_copies(&w.table.indices[i].shards[0]);
    for s in 1..n
        invariant
            i < w.table.indices@.len(),
            w.table.indices@.len() == start.t.len(),
            n == start.t[i as int].shards.len(),
            n == w.table.indices@[i as int].shards@.len(),
            name@ == start.t[i as int].name,
            first.deep_view() == start.t[i as int].shards[0],
            w.deep_view() == followed_shards(start, i as int, s as nat),
            forall|j: int|
                s <= j < n ==> w.deep_view().t[i as int].shards[j] == start.t[i as int].shards[j],
    {
        assert(w.deep_view().t[i as int].shards[s as int] == start.t[i as int].shards[s as int]);
        assert(w.table.deep_view()[i as int] == w.table.indices@[i as int].deep_view());
        let copies = copy_copies(&w.table.indices[i].shards[s]);
        assert(copies.deep_view() == start.t[i as int].shards[s as int]);
        let f = follow_copies(
            name.as_str(),
            s as u32,
            &copies,
            &first,
            &mut w.ids,
            &mut w.changes,
        );
        set_copies(&mut w.table, i, s, f);
        assert(w.deep_view() == followed_shards(start, i as int, (s + 1) as nat));
        assert(w.table.deep_view()[i as int].shards.len() == n);
    }
}

/// Puts every shard of an index where its first shard sits.
pub fn follow(w: &mut Work)
    ensures
        final(w).deep_view() == followed_all(old(w).deep_view(), old(w).deep_view().t.len()),
        final(w).table.indices@.len() == old(w).table.indices@.len(),
{
    let ghost start = w.deep_view();
    let n: usize = w.table.indices.len();
    for i in 0..n
        invariant
            n == w.table.indices@.len(),
            n == start.t.len(),
            w.deep_view() == followed_all(start, i as nat),
    {
        follow_shards(w, i);
    }
}

// ---- what it comes to ----------------------------------------------------------

/// Whether every shard of an index has as many copies as its first one, each
/// where that one's is, in the same state and part.
pub open spec fn together(e: IndexV) -> bool {
    forall|s: int|
        #![trigger e.shards[s]]
        0 <= s < e.shards.len() ==> e.shards[s].len() == e.shards[0].len() && forall|j: int|
            #![trigger e.shards[s][j]]
            0 <= j < e.shards[s].len() ==> alike(e.shards[s][j], e.shards[0][j])
}

proof fn lemma_followed(
    name: Seq<char>,
    shard: u32,
    copies: Seq<CopyV>,
    first: Seq<CopyV>,
    ids: IdsV,
    ch: ChangesV,
    n: nat,
)
    requires
        n <= first.len(),
    ensures
        followed(name, shard, copies, first, ids, ch, n).copies.len() == n,
        forall|j: int|
            0 <= j < n ==> alike(
                #[trigger] followed(name, shard, copies, first, ids, ch, n).copies[j],
                first[j],
            ),
    decreases n,
{
    if n > 0 {
        lemma_followed(name, shard, copies, first, ids, ch, (n - 1) as nat);
        let before = followed(name, shard, copies, first, ids, ch, (n - 1) as nat).copies;
        let after = followed(name, shard, copies, first, ids, ch, n).copies;
        assert forall|j: int| 0 <= j < n implies alike(#[trigger] after[j], first[j]) by {
            if j < n - 1 {
                assert(after[j] == before[j]);
            }
        }
    }
}

proof fn lemma_followed_shards(w: WorkV, i: int, n: nat)
    requires
        0 <= i < w.t.len(),
        n <= w.t[i].shards.len(),
    ensures
        ({
            let t = followed_shards(w, i, n).t;
            &&& t.len() == w.t.len()
            &&& forall|j: int| 0 <= j < t.len() && j != i ==> #[trigger] t[j] == w.t[j]
            &&& t[i].name == w.t[i].name
            &&& t[i].shards.len() == w.t[i].shards.len()
            &&& w.t[i].shards.len() > 0 ==> t[i].shards[0] == w.t[i].shards[0]
            &&& forall|s: int|
                #![trigger t[i].shards[s]]
                1 <= s < n ==> t[i].shards[s].len() == w.t[i].shards[0].len() && forall|j: int|
                    #![trigger t[i].shards[s][j]]
                    0 <= j < t[i].shards[s].len() ==> alike(
                        t[i].shards[s][j],
                        w.t[i].shards[0][j],
                    )
        }),
    decreases n,
{
    if n > 1 {
        lemma_followed_shards(w, i, (n - 1) as nat);
        let before = followed_shards(w, i, (n - 1) as nat);
        let first = w.t[i].shards[0];
        lemma_followed(
            w.t[i].name,
            (n - 1) as u32,
            w.t[i].shards[n - 1],
            first,
            before.ids,
            before.ch,
            first.len(),
        );
    }
}

proof fn lemma_followed_all(w: WorkV, n: nat)
    requires
        n <= w.t.len(),
    ensures
        ({
            let t = followed_all(w, n).t;
            &&& t.len() == w.t.len()
            &&& forall|i: int| 0 <= i < t.len() ==> (#[trigger] t[i]).name == w.t[i].name
            &&& forall|i: int|
                0 <= i < t.len() ==> (#[trigger] t[i]).shards.len() == w.t[i].shards.len()
            &&& forall|i: int| 0 <= i < n ==> together(#[trigger] t[i])
            &&& forall|i: int| n <= i < t.len() ==> #[trigger] t[i] == w.t[i]
            &&& forall|i: int|
                0 <= i < t.len() && w.t[i].shards.len() > 0 ==> (#[trigger] t[i]).shards[0]
                    == w.t[i].shards[0]
        }),
    decreases n,
{
    if n > 0 {
        let k = (n - 1) as nat;
        lemma_followed_all(w, k);
        let before = followed_all(w, k);
        lemma_followed_shards(before, k as int, before.t[k as int].shards.len());
        let t = followed_all(w, n).t;
        assert forall|i: int| 0 <= i < n implies together(#[trigger] t[i]) by {
            if i < k {
                assert(t[i] == before.t[i]);
            } else {
                let e = t[i];
                assert forall|s: int|
                    #![trigger e.shards[s]]
                    0 <= s < e.shards.len() implies e.shards[s].len() == e.shards[0].len()
                    && forall|j: int|
                    #![trigger e.shards[s][j]]
                    0 <= j < e.shards[s].len() ==> alike(e.shards[s][j], e.shards[0][j]) by {
                    if s > 0 {
                        assert(t[i].shards[s].len() == before.t[k as int].shards[0].len());
                    }
                }
            }
        }
    }
}

/// Every shard of every index sits where its first shard sits, and that one
/// where it sat.
pub proof fn law_every_shard_sits_where_the_first_one_sits(w: WorkV)
    ensures
        followed_all(w, w.t.len()).t.len() == w.t.len(),
        forall|i: int|
            0 <= i < w.t.len() ==> {
                let e = #[trigger] followed_all(w, w.t.len()).t[i];
                together(e) && e.name == w.t[i].name && e.shards.len() == w.t[i].shards.len() && (
                e.shards.len() > 0 ==> e.shards[0] == w.t[i].shards[0])
            },
{
    lemma_followed_all(w, w.t.len());
}

} // verus!
