//! Which node writes which primary shards of a snapshot.

use vstd::prelude::*;

use crate::cluster::state::{primary_of, same_node, IndexV, NodeId, RoutingTable, ShardState};
use crate::json::{
    field, fields, lemma_list, list, member, no_fields, object, text, whole, Json, JsonV, NumberV,
};
use crate::list::{
    called, find, get, in_order, lemma_found, lemma_take, lemma_with, lemma_with_in_order, lookup,
    not_before, push_to, put, with,
};
use crate::text::{dec, decimal, same};

verus! {

/// The shards of an index one node writes; no node named is this one.
pub struct Share {
    pub node: Option<NodeId>,
    pub index: String,
    pub shards: Vec<u32>,
}

#[verifier::ext_equal]
pub struct ShareV {
    pub node: Option<Seq<char>>,
    pub index: Seq<char>,
    pub shards: Seq<u32>,
}

impl DeepView for Share {
    type V = ShareV;

    open spec fn deep_view(&self) -> ShareV {
        ShareV {
            node: self.node.deep_view(),
            index: self.index@,
            shards: self.shards.deep_view(),
        }
    }
}

/// A primary no node can be asked for, and why.
pub struct Unplaced {
    pub index: String,
    pub shard: u32,
    pub reason: String,
}

#[verifier::ext_equal]
pub struct UnplacedV {
    pub index: Seq<char>,
    pub shard: u32,
    pub reason: Seq<char>,
}

impl DeepView for Unplaced {
    type V = UnplacedV;

    open spec fn deep_view(&self) -> UnplacedV {
        UnplacedV { index: self.index@, shard: self.shard, reason: self.reason@ }
    }
}

/// Which node writes which primary shards of a snapshot.
pub struct ShardPlan {
    /// every index in the snapshot, and how many primary shards it has
    pub shards: Vec<(String, u32)>,
    /// the work of each node, by index
    pub work: Vec<Share>,
    /// the primaries no node can be asked for, and why
    pub unassigned: Vec<Unplaced>,
}

#[verifier::ext_equal]
pub struct PlanV {
    pub shards: Seq<(Seq<char>, u32)>,
    pub work: Seq<ShareV>,
    pub unassigned: Seq<UnplacedV>,
}

impl DeepView for ShardPlan {
    type V = PlanV;

    open spec fn deep_view(&self) -> PlanV {
        PlanV {
            shards: self.shards.deep_view(),
            work: self.work.deep_view(),
            unassigned: self.unassigned.deep_view(),
        }
    }
}

/// The node a shard is read from: where its primary is, once it has started.
/// One being moved still answers from where it is until its target takes over.
pub open spec fn read_from(t: Seq<IndexV>, index: Seq<char>, shard: u32) -> Option<Seq<char>> {
    match primary_of(t, index, shard) {
        Some(p) => if p.state is Started || p.state is Relocating {
            p.node
        } else {
            None
        },
        None => None,
    }
}

/// Shards by node, with one more.
pub open spec fn added(by: Seq<(Seq<char>, Seq<u32>)>, node: Seq<char>, shard: u32) -> Seq<
    (Seq<char>, Seq<u32>),
> {
    let held = match lookup(by, node) {
        Some(s) => s,
        None => Seq::empty(),
    };
    with(by, node, held.push(shard))
}

/// The first shards of an index, by the node each is read from, and those that
/// are read from none.
pub open spec fn grouped(t: Seq<IndexV>, index: Seq<char>, n: nat) -> (
    Seq<(Seq<char>, Seq<u32>)>,
    Seq<u32>,
)
    decreases n,
{
    if n == 0 {
        (Seq::empty(), Seq::empty())
    } else {
        let (by, none) = grouped(t, index, (n - 1) as nat);
        match read_from(t, index, (n - 1) as u32) {
            Some(node) => (added(by, node, (n - 1) as u32), none),
            None => (by, none.push((n - 1) as u32)),
        }
    }
}

/// Whose share it is: nobody's name where it is this node's own.
pub open spec fn whose(node: Seq<char>, me: Option<Seq<char>>) -> Option<Seq<char>> {
    if Some(node) == me {
        None
    } else {
        Some(node)
    }
}

/// The first nodes' shares of an index.
pub open spec fn shares(
    by: Seq<(Seq<char>, Seq<u32>)>,
    index: Seq<char>,
    me: Option<Seq<char>>,
) -> Seq<ShareV> {
    by.map_values(
        |e: (Seq<char>, Seq<u32>)| ShareV { node: whose(e.0, me), index, shards: e.1 },
    )
}

pub open spec fn unallocated(index: Seq<char>, none: Seq<u32>) -> Seq<UnplacedV> {
    none.map_values(
        |shard: u32| UnplacedV { index, shard, reason: "primary shard is not allocated"@ },
    )
}

/// An index has a shard at the least.
pub open spec fn at_least_one(n: u32) -> u32 {
    if n == 0 {
        1
    } else {
        n
    }
}

/// The shards before one.
pub open spec fn up_to(n: u32) -> Seq<u32> {
    Seq::new(n as nat, |i: int| i as u32)
}

/// A plan with one more index in it.
pub open spec fn with_index(
    p: PlanV,
    index: Seq<char>,
    count: u32,
    cluster: Option<(Seq<IndexV>, Option<Seq<char>>)>,
) -> PlanV {
    match cluster {
        None => PlanV {
            shards: with(p.shards, index, count),
            work: p.work.push(ShareV { node: None, index, shards: up_to(count) }),
            unassigned: p.unassigned,
        },
        Some((t, me)) => {
            let (by, none) = grouped(t, index, count as nat);
            PlanV {
                shards: with(p.shards, index, count),
                work: p.work + shares(by, index, me),
                unassigned: p.unassigned + unallocated(index, none),
            }
        },
    }
}

pub open spec fn empty_plan() -> PlanV {
    PlanV { shards: Seq::empty(), work: Seq::empty(), unassigned: Seq::empty() }
}

/// The plan for the first indices; one nothing is known of is left out.
pub open spec fn planned(
    indices: Seq<Seq<char>>,
    counts: Seq<(Seq<char>, u32)>,
    cluster: Option<(Seq<IndexV>, Option<Seq<char>>)>,
    n: nat,
) -> PlanV
    decreases n,
{
    if n == 0 {
        empty_plan()
    } else {
        let before = planned(indices, counts, cluster, (n - 1) as nat);
        match lookup(counts, indices[n - 1]) {
            Some(c) => with_index(before, indices[n - 1], at_least_one(c), cluster),
            None => before,
        }
    }
}

pub(crate) fn copy_numbers(v: &Vec<u32>) -> (r: Vec<u32>)
    ensures
        r.deep_view() == v.deep_view(),
        r@ == v@,
{
    let mut r: Vec<u32> = Vec::new();
    for i in 0..v.len()
        invariant
            r@ == v@.take(i as int),
    {
        r.push(v[i]);
        assert(r@ =~= v@.take(i + 1));
    }
    assert(r@ =~= v@);
    assert(r.deep_view() =~= v.deep_view());
    r
}

fn add_to(by: &mut Vec<(String, Vec<u32>)>, node: &str, shard: u32)
    ensures
        final(by).deep_view() == added(old(by).deep_view(), node@, shard),
{
    let mut held: Vec<u32> = match get(by, node) {
        Some(v) => copy_numbers(v),
        None => {
            let r: Vec<u32> = Vec::new();
            assert(r.deep_view() =~= Seq::<u32>::empty());
            r
        },
    };
    push_to(&mut held, shard);
    put(by, node.to_owned(), held);
}

fn group(table: &RoutingTable, index: &str, count: u32) -> (r: (
    Vec<(String, Vec<u32>)>,
    Vec<u32>,
))
    ensures
        (r.0.deep_view(), r.1.deep_view()) == grouped(table.deep_view(), index@, count as nat),
{
    let mut by: Vec<(String, Vec<u32>)> = Vec::new();
    let mut none: Vec<u32> = Vec::new();
    assert(by.deep_view() =~= Seq::<(Seq<char>, Seq<u32>)>::empty());
    assert(none.deep_view() =~= Seq::<u32>::empty());
    for shard in 0..count
        invariant
            (by.deep_view(), none.deep_view()) == grouped(
                table.deep_view(),
                index@,
                shard as nat,
            ),
    {
        let node = match table.primary(index, shard) {
            Some(p) => match p.state {
                ShardState::Started | ShardState::Relocating => p.node.as_ref(),
                _ => None,
            },
            None => None,
        };
        match node {
            Some(id) => {
                add_to(&mut by, id.as_str(), shard);
            },
            None => {
                push_to(&mut none, shard);
            },
        }
    }
    (by, none)
}

fn add_shares(
    work: &mut Vec<Share>,
    by: &Vec<(String, Vec<u32>)>,
    index: &str,
    me: &Option<NodeId>,
)
    ensures
        final(work).deep_view() == old(work).deep_view() + shares(
            by.deep_view(),
            index@,
            me.deep_view(),
        ),
{
    let ghost start = work.deep_view();
    let ghost bv = by.deep_view();
    let ghost all = shares(bv, index@, me.deep_view());
    assert(start + all.take(0) =~= start);
    for i in 0..by.len()
        invariant
            bv == by.deep_view(),
            all == shares(bv, index@, me.deep_view()),
            work.deep_view() == start + all.take(i as int),
    {
        assert(bv[i as int] == (by@[i as int].0@, by@[i as int].1.deep_view()));
        proof {
            lemma_take(all, i as int);
        }
        let node = Some(NodeId(by[i].0.clone()));
        let mine = same_node(&node, me);
        let share = Share {
            node: if mine {
                None
            } else {
                node
            },
            index: index.to_owned(),
            shards: copy_numbers(&by[i].1),
        };
        assert(share.deep_view() == all[i as int]);
        push_to(work, share);
        assert(work.deep_view() =~= start + all.take(i + 1));
    }
    assert(all.take(by@.len() as int) =~= all);
}

fn add_unallocated(out: &mut Vec<Unplaced>, index: &str, none: &Vec<u32>)
    ensures
        final(out).deep_view() == old(out).deep_view() + unallocated(index@, none.deep_view()),
{
    let ghost start = out.deep_view();
    let ghost all = unallocated(index@, none.deep_view());
    assert(start + all.take(0) =~= start);
    for i in 0..none.len()
        invariant
            all == unallocated(index@, none.deep_view()),
            out.deep_view() == start + all.take(i as int),
    {
        proof {
            lemma_take(all, i as int);
        }
        push_to(
            out,
            Unplaced {
                index: index.to_owned(),
                shard: none[i],
                reason: "primary shard is not allocated".to_owned(),
            },
        );
        assert(out.deep_view() =~= start + all.take(i + 1));
    }
    assert(all.take(none@.len() as int) =~= all);
}

fn numbers_to(n: u32) -> (r: Vec<u32>)
    ensures
        r.deep_view() == up_to(n),
{
    let mut r: Vec<u32> = Vec::new();
    for i in 0..n
        invariant
            r@.len() == i,
            forall|j: int| 0 <= j < i ==> r@[j] == j,
    {
        r.push(i);
    }
    assert(r.deep_view() =~= up_to(n));
    r
}

/// Which node writes which primary shards of a snapshot: on a cluster the node
/// each primary is on, and this node where it is the whole of its cluster.
pub fn plan_shards(
    indices: &Vec<String>,
    counts: &Vec<(String, u32)>,
    cluster: Option<(&RoutingTable, &Option<NodeId>)>,
) -> (plan: ShardPlan)
    ensures
        plan.deep_view() == planned(
            indices.deep_view(),
            counts.deep_view(),
            cluster.deep_view(),
            indices@.len(),
        ),
{
    let ghost iv = indices.deep_view();
    let mut plan = ShardPlan { shards: Vec::new(), work: Vec::new(), unassigned: Vec::new() };
    assert(plan.deep_view() =~= empty_plan());
    for i in 0..indices.len()
        invariant
            iv == indices.deep_view(),
            plan.deep_view() == planned(
                iv,
                counts.deep_view(),
                cluster.deep_view(),
                i as nat,
            ),
    {
        assert(iv[i as int] == indices@[i as int]@);
        let index = indices[i].as_str();
        if let Some(said) = get(counts, index) {
            let count: u32 = if *said == 0 {
                1
            } else {
                *said
            };
            put(&mut plan.shards, index.to_owned(), count);
            match cluster {
                None => {
                    push_to(
                        &mut plan.work,
                        Share { node: None, index: index.to_owned(), shards: numbers_to(count) },
                    );
                },
                Some((table, me)) => {
                    let (by, none) = group(table, index, count);
                    add_shares(&mut plan.work, &by, index, me);
                    add_unallocated(&mut plan.unassigned, index, &none);
                },
            }
        }
    }
    plan
}

// ---- what holds of a plan ------------------------------------------------------

/// Whether a shard is in a plan: in somebody's share, or among those nobody can
/// be asked for.
pub open spec fn is_planned(p: PlanV, index: Seq<char>, shard: u32) -> bool {
    ||| exists|k: int|
        0 <= k < p.work.len() && (#[trigger] p.work[k]).index == index && p.work[k].shards.contains(
            shard,
        )
    ||| exists|k: int|
        0 <= k < p.unassigned.len() && (#[trigger] p.unassigned[k]).index == index
            && p.unassigned[k].shard == shard
}

/// How many shards some shares hold.
pub open spec fn pieces(by: Seq<(Seq<char>, Seq<u32>)>) -> nat
    decreases by.len(),
{
    if by.len() == 0 {
        0
    } else {
        pieces(by.drop_last()) + by.last().1.len()
    }
}

proof fn lemma_pieces_update(by: Seq<(Seq<char>, Seq<u32>)>, i: int, e: (Seq<char>, Seq<u32>))
    requires
        0 <= i < by.len(),
    ensures
        pieces(by.update(i, e)) + by[i].1.len() == pieces(by) + e.1.len(),
    decreases by.len(),
{
    if i == by.len() - 1 {
        assert(by.update(i, e).drop_last() =~= by.drop_last());
    } else {
        lemma_pieces_update(by.drop_last(), i, e);
        assert(by.update(i, e).drop_last() =~= by.drop_last().update(i, e));
    }
}

proof fn lemma_pieces_insert(by: Seq<(Seq<char>, Seq<u32>)>, i: int, e: (Seq<char>, Seq<u32>))
    requires
        0 <= i <= by.len(),
    ensures
        pieces(by.insert(i, e)) == pieces(by) + e.1.len(),
    decreases by.len(),
{
    if i == by.len() {
        assert(by.insert(i, e).drop_last() =~= by);
    } else {
        lemma_pieces_insert(by.drop_last(), i, e);
        assert(by.insert(i, e).drop_last() =~= by.drop_last().insert(i, e));
        assert(by.insert(i, e).last() == by.last());
    }
}

/// Whether a shard is in one of the groups.
spec fn in_groups(by: Seq<(Seq<char>, Seq<u32>)>, shard: u32) -> bool {
    exists|k: int| 0 <= k < by.len() && (#[trigger] by[k]).1.contains(shard)
}

/// Where a node's shards are among those of the others, and what they are once
/// one more is added to them.
proof fn lemma_added_at(by: Seq<(Seq<char>, Seq<u32>)>, node: Seq<char>, shard: u32) -> (at: int)
    requires
        in_order(by),
    ensures
        in_order(added(by, node, shard)),
        0 <= at <= by.len(),
        lookup(by, node) is Some ==> at < by.len() && by[at] == (node, lookup(by, node)->0)
            && added(by, node, shard) == by.update(at, (node, lookup(by, node)->0.push(shard))),
        lookup(by, node) is None ==> added(by, node, shard) == by.insert(
            at,
            (node, Seq::<u32>::empty().push(shard)),
        ),
{
    let held = match lookup(by, node) {
        Some(s) => s,
        None => Seq::empty(),
    };
    lemma_with_in_order(by, node, held.push(shard));
    lemma_found(by, not_before::<Seq<u32>>(node));
    lemma_found(by, called::<Seq<u32>>(node));
    find(by, not_before(node))
}

proof fn lemma_added(by: Seq<(Seq<char>, Seq<u32>)>, node: Seq<char>, shard: u32)
    requires
        in_order(by),
    ensures
        in_order(added(by, node, shard)),
        pieces(added(by, node, shard)) == pieces(by) + 1,
        in_groups(added(by, node, shard), shard),
{
    let at = lemma_added_at(by, node, shard);
    let r = added(by, node, shard);
    if lookup(by, node) is Some {
        let now = lookup(by, node)->0.push(shard);
        lemma_pieces_update(by, at, (node, now));
        assert(now[now.len() - 1] == shard);
        assert(r[at].1.contains(shard));
    } else {
        let now = Seq::<u32>::empty().push(shard);
        lemma_pieces_insert(by, at, (node, now));
        assert(now[0] == shard);
        assert(r[at].1.contains(shard));
    }
}

proof fn lemma_added_keeps(by: Seq<(Seq<char>, Seq<u32>)>, node: Seq<char>, shard: u32, s: u32)
    requires
        in_order(by),
        in_groups(by, s),
    ensures
        in_groups(added(by, node, shard), s),
{
    let at = lemma_added_at(by, node, shard);
    let r = added(by, node, shard);
    let k = choose|k: int| 0 <= k < by.len() && (#[trigger] by[k]).1.contains(s);
    if lookup(by, node) is Some {
        if k == at {
            let held = lookup(by, node)->0;
            let j = held.index_of(s);
            assert(held.push(shard)[j] == s);
            assert(r[at].1.contains(s));
        } else {
            assert(r[k] == by[k]);
        }
    } else if k < at {
        assert(r[k] == by[k]);
    } else {
        assert(r[k + 1] == by[k]);
    }
}

proof fn lemma_grouped(t: Seq<IndexV>, index: Seq<char>, n: nat)
    requires
        n <= u32::MAX,
    ensures
        in_order(grouped(t, index, n).0),
        pieces(grouped(t, index, n).0) + grouped(t, index, n).1.len() == n,
        forall|s: u32|
            s < n ==> #[trigger] in_groups(grouped(t, index, n).0, s) || grouped(
                t,
                index,
                n,
            ).1.contains(s),
    decreases n,
{
    if n > 0 {
        lemma_grouped(t, index, (n - 1) as nat);
        let (by, none) = grouped(t, index, (n - 1) as nat);
        let (by2, none2) = grouped(t, index, n);
        let shard = (n - 1) as u32;
        match read_from(t, index, shard) {
            Some(node) => {
                lemma_added(by, node, shard);
                assert forall|s: u32| s < n implies #[trigger] in_groups(by2, s)
                    || none2.contains(s) by {
                    if s < n - 1 {
                        assert(in_groups(by, s) || none.contains(s));
                        if in_groups(by, s) {
                            lemma_added_keeps(by, node, shard, s);
                        }
                    }
                }
            },
            None => {
                assert forall|s: u32| s < n implies #[trigger] in_groups(by2, s)
                    || none2.contains(s) by {
                    if s < n - 1 {
                        assert(in_groups(by, s) || none.contains(s));
                        if none.contains(s) {
                            let j = none.index_of(s);
                            assert(none2[j] == s);
                        }
                    } else {
                        assert(none2[none2.len() - 1] == s);
                    }
                }
            },
        }
    }
}

/// Every primary shard of every index that is snapshotted is somebody's to
/// write, or is named as one nobody can be asked for.
pub proof fn law_every_shard_is_planned(
    indices: Seq<Seq<char>>,
    counts: Seq<(Seq<char>, u32)>,
    cluster: Option<(Seq<IndexV>, Option<Seq<char>>)>,
    i: int,
    shard: u32,
)
    requires
        0 <= i < indices.len(),
        lookup(counts, indices[i]) is Some,
        shard < at_least_one(lookup(counts, indices[i])->0),
    ensures
        is_planned(planned(indices, counts, cluster, indices.len()), indices[i], shard),
{
    lemma_planned(indices, counts, cluster, indices.len(), i, shard);
}

proof fn lemma_planned(
    indices: Seq<Seq<char>>,
    counts: Seq<(Seq<char>, u32)>,
    cluster: Option<(Seq<IndexV>, Option<Seq<char>>)>,
    n: nat,
    i: int,
    shard: u32,
)
    requires
        0 <= i < n <= indices.len(),
        lookup(counts, indices[i]) is Some,
        shard < at_least_one(lookup(counts, indices[i])->0),
    ensures
        is_planned(planned(indices, counts, cluster, n), indices[i], shard),
    decreases n,
{
    let p = planned(indices, counts, cluster, (n - 1) as nat);
    let q = planned(indices, counts, cluster, n);
    let index = indices[i];
    if i < n - 1 {
        lemma_planned(indices, counts, cluster, (n - 1) as nat, i, shard);
        if exists|k: int|
            0 <= k < p.work.len() && (#[trigger] p.work[k]).index == index
                && p.work[k].shards.contains(shard) {
            let k = choose|k: int|
                0 <= k < p.work.len() && (#[trigger] p.work[k]).index == index
                    && p.work[k].shards.contains(shard);
            assert(q.work[k] == p.work[k]);
        } else {
            let k = choose|k: int|
                0 <= k < p.unassigned.len() && (#[trigger] p.unassigned[k]).index == index
                    && p.unassigned[k].shard == shard;
            assert(q.unassigned[k] == p.unassigned[k]);
        }
    } else {
        let count = at_least_one(lookup(counts, index)->0);
        match cluster {
            None => {
                assert(up_to(count)[shard as int] == shard);
                assert(q.work[p.work.len() as int].shards.contains(shard));
            },
            Some((t, me)) => {
                lemma_grouped(t, index, count as nat);
                let (by, none) = grouped(t, index, count as nat);
                assert(in_groups(by, shard) || none.contains(shard));
                if in_groups(by, shard) {
                    let k = choose|k: int|
                        0 <= k < by.len() && (#[trigger] by[k]).1.contains(shard);
                    assert(q.work[p.work.len() + k] == shares(by, index, me)[k]);
                } else {
                    let k = none.index_of(shard);
                    assert(q.unassigned[p.unassigned.len() + k] == unallocated(index, none)[k]);
                }
            },
        }
    }
}

/// How many shards there are to write.
pub open spec fn total(shards: Seq<(Seq<char>, u32)>) -> nat
    decreases shards.len(),
{
    if shards.len() == 0 {
        0
    } else {
        total(shards.drop_last()) + shards.last().1 as nat
    }
}

/// How many shards are in somebody's share.
pub open spec fn shared(work: Seq<ShareV>) -> nat
    decreases work.len(),
{
    if work.len() == 0 {
        0
    } else {
        shared(work.drop_last()) + work.last().shards.len()
    }
}

proof fn lemma_total_insert(s: Seq<(Seq<char>, u32)>, i: int, e: (Seq<char>, u32))
    requires
        0 <= i <= s.len(),
    ensures
        total(s.insert(i, e)) == total(s) + e.1,
    decreases s.len(),
{
    if i == s.len() {
        assert(s.insert(i, e).drop_last() =~= s);
    } else {
        lemma_total_insert(s.drop_last(), i, e);
        assert(s.insert(i, e).drop_last() =~= s.drop_last().insert(i, e));
        assert(s.insert(i, e).last() == s.last());
    }
}

proof fn lemma_shared_shares(
    work: Seq<ShareV>,
    by: Seq<(Seq<char>, Seq<u32>)>,
    index: Seq<char>,
    me: Option<Seq<char>>,
)
    ensures
        shared(work + shares(by, index, me)) == shared(work) + pieces(by),
    decreases by.len(),
{
    let all = work + shares(by, index, me);
    if by.len() == 0 {
        assert(all =~= work);
    } else {
        lemma_shared_shares(work, by.drop_last(), index, me);
        assert(all.drop_last() =~= work + shares(by.drop_last(), index, me));
        assert(all.last() == shares(by, index, me)[by.len() - 1]);
    }
}

/// The shards of a plan are those of its indices, each counted once.
pub proof fn law_every_shard_is_counted_once(
    indices: Seq<Seq<char>>,
    counts: Seq<(Seq<char>, u32)>,
    cluster: Option<(Seq<IndexV>, Option<Seq<char>>)>,
)
    requires
        indices.no_duplicates(),
    ensures
        ({
            let p = planned(indices, counts, cluster, indices.len());
            shared(p.work) + p.unassigned.len() == total(p.shards)
        }),
{
    lemma_counted(indices, counts, cluster, indices.len());
}

proof fn lemma_counted(
    indices: Seq<Seq<char>>,
    counts: Seq<(Seq<char>, u32)>,
    cluster: Option<(Seq<IndexV>, Option<Seq<char>>)>,
    n: nat,
)
    requires
        indices.no_duplicates(),
        n <= indices.len(),
    ensures
        ({
            let p = planned(indices, counts, cluster, n);
            &&& in_order(p.shards)
            &&& shared(p.work) + p.unassigned.len() == total(p.shards)
            &&& forall|k: int|
                n <= k < indices.len() ==> lookup(p.shards, #[trigger] indices[k]) is None
        }),
    decreases n,
{
    let q = planned(indices, counts, cluster, n);
    if n == 0 {
        assert forall|k: int| n <= k < indices.len() implies lookup(
            q.shards,
            #[trigger] indices[k],
        ) is None by {
            assert(find(q.shards, called(indices[k])) == 0);
        }
    } else {
        lemma_counted(indices, counts, cluster, (n - 1) as nat);
        let p = planned(indices, counts, cluster, (n - 1) as nat);
        let index = indices[n - 1];
        match lookup(counts, index) {
            None => {},
            Some(c) => {
                let count = at_least_one(c);
                lemma_with_in_order(p.shards, index, count);
                lemma_found(p.shards, not_before::<u32>(index));
                lemma_total_insert(
                    p.shards,
                    find(p.shards, not_before(index)),
                    (index, count),
                );
                assert forall|k: int| n <= k < indices.len() implies lookup(
                    q.shards,
                    #[trigger] indices[k],
                ) is None by {
                    assert(indices[k] != index);
                    lemma_with(p.shards, index, count, indices[k]);
                }
                match cluster {
                    None => {
                        assert(q.work.drop_last() =~= p.work);
                        assert(q.work.last().shards.len() == count);
                    },
                    Some((t, me)) => {
                        lemma_grouped(t, index, count as nat);
                        let (by, none) = grouped(t, index, count as nat);
                        lemma_shared_shares(p.work, by, index, me);
                    },
                }
            },
        }
    }
}

// ---- asking and being asked ----------------------------------------------------

/// What a node is asked to write.
pub open spec fn asked_of(
    repo: JsonV,
    snapshot: Seq<char>,
    index: Seq<char>,
    shards: Seq<u32>,
) -> JsonV {
    JsonV::Object(
        no_fields().push(("repository"@, repo)).push(("snapshot"@, JsonV::Text(snapshot))).push(
            ("index"@, JsonV::Text(index)),
        ).push(
            (
                "shards"@,
                JsonV::List(
                    shards.map_values(|s: u32| JsonV::Number(NumberV::Whole(s as u64))),
                ),
            ),
        ),
    )
}

/// What a node is asked to write.
pub fn shards_request(repo: &Json, snapshot: &str, share: &Share) -> (r: Json)
    ensures
        r.deep_view() == asked_of(
            repo.deep_view(),
            snapshot@,
            share.index@,
            share.shards.deep_view(),
        ),
{
    let mut numbers: Vec<Json> = Vec::new();
    for i in 0..share.shards.len()
        invariant
            numbers@.len() == i,
            forall|j: int|
                0 <= j < i ==> (#[trigger] numbers@[j]).deep_view() == JsonV::Number(
                    NumberV::Whole(share.shards@[j] as u64),
                ),
    {
        numbers.push(whole(share.shards[i] as u64));
    }
    assert(numbers.deep_view() =~= share.shards.deep_view().map_values(
        |s: u32| JsonV::Number(NumberV::Whole(s as u64)),
    ));
    let mut o = fields();
    field(&mut o, "repository", repo.clone());
    field(&mut o, "snapshot", text(snapshot));
    field(&mut o, "index", text(share.index.as_str()));
    field(&mut o, "shards", list(numbers));
    object(o)
}

/// What came back from a node: nothing, an error in its own words, something
/// that does not read, or its answer.
pub enum Reply {
    Silence,
    Error(String),
    Nonsense,
    Said(Json),
}

pub enum ReplyV {
    Silence,
    Error(Seq<char>),
    Nonsense,
    Said(JsonV),
}

impl DeepView for Reply {
    type V = ReplyV;

    open spec fn deep_view(&self) -> ReplyV {
        match self {
            Reply::Silence => ReplyV::Silence,
            Reply::Error(s) => ReplyV::Error(s@),
            Reply::Nonsense => ReplyV::Nonsense,
            Reply::Said(j) => ReplyV::Said(j.deep_view()),
        }
    }
}

pub open spec fn taken(node: Seq<char>, reply: ReplyV) -> Result<JsonV, Seq<char>> {
    match reply {
        ReplyV::Silence => Err("node ["@ + node + "] did not answer"@),
        ReplyV::Error(why) => Err(why),
        ReplyV::Nonsense => Err("node ["@ + node + "] answered nonsense"@),
        ReplyV::Said(j) => Ok(j),
    }
}

/// What a node answered, or why it did not.
pub fn take_reply(node: &str, reply: Reply) -> (r: Result<Json, String>)
    ensures
        match r {
            Ok(j) => taken(node@, reply.deep_view()) == Ok::<JsonV, Seq<char>>(j.deep_view()),
            Err(why) => taken(node@, reply.deep_view()) == Err::<JsonV, Seq<char>>(why@),
        },
{
    match reply {
        Reply::Silence => Err("node [".to_owned().concat(node).concat("] did not answer")),
        Reply::Error(why) => Err(why),
        Reply::Nonsense => Err("node [".to_owned().concat(node).concat("] answered nonsense")),
        Reply::Said(j) => Ok(j),
    }
}

/// The whole numbers of a list that are a shard's, whatever else is in it left
/// out.
pub open spec fn numbers(v: Seq<JsonV>) -> Seq<u32>
    decreases v.len(),
{
    if v.len() == 0 {
        Seq::empty()
    } else {
        match v.last() {
            JsonV::Number(NumberV::Whole(n)) => numbers(v.drop_last()).push(
                (n % 0x1_0000_0000) as u32,
            ),
            _ => numbers(v.drop_last()),
        }
    }
}

pub open spec fn numbers_at(j: JsonV, key: Seq<char>) -> Seq<u32> {
    match member(j, key) {
        Some(JsonV::List(v)) => numbers(v),
        _ => Seq::empty(),
    }
}

/// The shards a request asks for.
pub fn shards_asked(request: &Json) -> (r: Vec<u32>)
    ensures
        r.deep_view() == numbers_at(request.deep_view(), "shards"@),
{
    let mut r: Vec<u32> = Vec::new();
    assert(r.deep_view() =~= Seq::<u32>::empty());
    if let Some(Json::List(v)) = request.get("shards") {
        proof {
            lemma_list(*v);
        }
        let ghost vv = v.deep_view();
        assert(vv.take(0).len() == 0);
        for i in 0..v.len()
            invariant
                vv == v.deep_view(),
                r.deep_view() == numbers(vv.take(i as int)),
        {
            proof {
                lemma_take(vv, i as int);
                assert(vv[i as int] == v@[i as int].deep_view());
            }
            if let Json::Number(crate::json::Number::Whole(n)) = &v[i] {
                push_to(&mut r, (*n % 0x1_0000_0000) as u32);
            }
        }
        assert(vv.take(v@.len() as int) =~= vv);
    }
    r
}

/// Whether a node may be asked by another: only by itself and the nodes of its
/// cluster.
pub open spec fn may_ask(
    from: Seq<char>,
    me: Seq<char>,
    nodes: Seq<Seq<char>>,
) -> bool {
    from == me || nodes.contains(from)
}

/// Whether a node may be asked by another.
pub fn may_be_asked(from: &str, me: &str, nodes: &Vec<String>) -> (r: bool)
    ensures
        r == may_ask(from@, me@, nodes.deep_view()),
{
    same(from, me) || crate::cluster::state::has_text(nodes, from)
}

/// The first shards asked for that this node holds the primary of, and those
/// it does not.
pub open spec fn held_here(
    t: Seq<IndexV>,
    me: Seq<char>,
    index: Seq<char>,
    asked: Seq<u32>,
    n: nat,
) -> (Seq<u32>, Seq<(Seq<char>, JsonV)>)
    decreases n,
{
    if n == 0 {
        (Seq::empty(), no_fields())
    } else {
        let (mine, failed) = held_here(t, me, index, asked, (n - 1) as nat);
        if read_from(t, index, asked[n - 1]) == Some(me) {
            (mine.push(asked[n - 1]), failed)
        } else {
            (
                mine,
                with(
                    failed,
                    dec(asked[n - 1] as nat),
                    JsonV::Text("this node no longer holds the primary"@),
                ),
            )
        }
    }
}

/// The shards asked for that are written from here, and those that are not:
/// only a primary this node holds is, as a copy that has just stopped being one
/// may be behind the one that is.
pub fn shards_held(table: &RoutingTable, me: &NodeId, index: &str, asked: &Vec<u32>) -> (r: (
    Vec<u32>,
    Vec<(String, Json)>,
))
    ensures
        (r.0.deep_view(), r.1.deep_view()) == held_here(
            table.deep_view(),
            me.deep_view(),
            index@,
            asked.deep_view(),
            asked@.len(),
        ),
{
    let mut mine: Vec<u32> = Vec::new();
    assert(mine.deep_view() =~= Seq::<u32>::empty());
    let mut failed = fields();
    for i in 0..asked.len()
        invariant
            (mine.deep_view(), failed.deep_view()) == held_here(
                table.deep_view(),
                me.deep_view(),
                index@,
                asked.deep_view(),
                i as nat,
            ),
    {
        let held = match table.primary(index, asked[i]) {
            Some(p) => match p.state {
                ShardState::Started | ShardState::Relocating => match &p.node {
                    Some(id) => id.is(me),
                    None => false,
                },
                _ => false,
            },
            None => false,
        };
        if held {
            push_to(&mut mine, asked[i]);
        } else {
            put(
                &mut failed,
                decimal(asked[i] as u64),
                text("this node no longer holds the primary"),
            );
        }
    }
    (mine, failed)
}

} // verus!
