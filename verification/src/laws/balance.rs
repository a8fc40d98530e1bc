//! What makes a node heavy, and when a copy is moved for it.

use vstd::prelude::*;

use crate::cluster::balance::{
    above, factor, held_as, held_in, held_of, held_of_index, one, ranking, total_in, total_of_index,
    weight_of,
};
use crate::cluster::deciders::{may_allocate, may_rebalance, may_remain, worst, Decision};
use crate::cluster::moves::{
    better, freed, has_id, is_stuck, lightened, may_go, moves, sent, started_of, takes,
};
use crate::cluster::settings::CtxV;
use crate::cluster::state::{on_node, CopyV, IndexV, ShardState};
use crate::cluster::work::{moved, WorkV};
use crate::list::{any, find, flat, keep, lemma_find, lemma_found};

verus! {

/// With weights that are not below nothing, a node that holds as much as another, both of
/// all and of an index, weighs as much for that index; and what it holds more makes it
/// heavier by what the settings say it weighs.
pub proof fn law_a_node_weighs_what_it_holds(
    ctx: CtxV,
    t: Seq<IndexV>,
    index: Seq<char>,
    a: Seq<char>,
    b: Seq<char>,
)
    requires
        0 <= ctx.cluster.balance_shard <= 1_000_000_000,
        0 <= ctx.cluster.balance_index <= 1_000_000_000,
        ctx.cluster.balance_shard + ctx.cluster.balance_index > 0,
        ctx.data_nodes().len() > 0,
    ensures
        weight_of(ctx, t, index, a) - weight_of(ctx, t, index, b) == ctx.data_nodes().len() * (
        ctx.cluster.balance_shard * (held_in(t, a) - held_in(t, b)) + ctx.cluster.balance_index * (
        held_of_index(t, index, a) - held_of_index(t, index, b))),
        held_in(t, a) >= held_in(t, b) && held_of_index(t, index, a) >= held_of_index(t, index, b)
            ==> weight_of(ctx, t, index, a) >= weight_of(ctx, t, index, b),
{
    let n = ctx.data_nodes().len() as int;
    let s = ctx.cluster.balance_shard as int;
    let i = ctx.cluster.balance_index as int;
    assert(factor(ctx.cluster.balance_shard) == s);
    assert(factor(ctx.cluster.balance_index) == i);
    let ta = total_in(t, ctx.data_nodes(), ctx.data_nodes().len());
    let ti = total_of_index(t, index, ctx.data_nodes(), ctx.data_nodes().len());
    let (ha, hb) = (held_in(t, a), held_in(t, b));
    let (ia, ib) = (held_of_index(t, index, a), held_of_index(t, index, b));
    lemma_weighs(s, ha, hb, n, ta);
    lemma_weighs(i, ia, ib, n, ti);
    assert(n * (s * (ha - hb) + i * (ia - ib)) == n * (s * (ha - hb)) + n * (i * (ia - ib)))
        by (nonlinear_arith);
    if ha >= hb && ia >= ib {
        assert(n * (s * (ha - hb) + i * (ia - ib)) >= 0) by (nonlinear_arith)
            requires
                n > 0,
                s >= 0,
                i >= 0,
                ha >= hb,
                ia >= ib,
        ;
    }
}

proof fn lemma_weighs(f: int, a: int, b: int, n: int, total: int)
    ensures
        f * (a * n - total) - f * (b * n - total) == n * (f * (a - b)),
{
    assert(f * (a * n - total) == f * (a * n) - f * total) by (nonlinear_arith);
    assert(f * (b * n - total) == f * (b * n) - f * total) by (nonlinear_arith);
    assert(n * (f * (a - b)) == f * (a * n) - f * (b * n)) by (nonlinear_arith);
}

/// A node is weighed for an index it holds a primary of, and again for one it holds a
/// replica of, and for no more than that.
pub proof fn law_what_a_node_holds_of_an_index(e: IndexV, id: Seq<char>, p: int, r: int)
    ensures
        0 <= held_of(e, id) <= 2,
        0 <= p < flat(e.shards).len() && flat(e.shards)[p].node == Some(id) && flat(
            e.shards,
        )[p].state != ShardState::Unassigned && flat(e.shards)[p].primary ==> held_of(e, id) >= 1,
        0 <= r < flat(e.shards).len() && flat(e.shards)[r].node == Some(id) && flat(
            e.shards,
        )[r].state != ShardState::Unassigned && !flat(e.shards)[r].primary ==> held_of(e, id) >= 1,
        (0 <= p < flat(e.shards).len() && flat(e.shards)[p].node == Some(id) && flat(
            e.shards,
        )[p].state != ShardState::Unassigned && flat(e.shards)[p].primary) && (0 <= r < flat(
            e.shards,
        ).len() && flat(e.shards)[r].node == Some(id) && flat(e.shards)[r].state
            != ShardState::Unassigned && !flat(e.shards)[r].primary) ==> held_of(e, id) == 2,
        (forall|j: int|
            0 <= j < flat(e.shards).len() ==> (#[trigger] flat(e.shards)[j]).node != Some(id)
                || flat(e.shards)[j].state == ShardState::Unassigned) ==> held_of(e, id) == 0,
{
    let f = flat(e.shards);
    if 0 <= p < f.len() && f[p].node == Some(id) && f[p].state != ShardState::Unassigned
        && f[p].primary {
        assert((held_as(id, true))(f[p]));
    }
    if 0 <= r < f.len() && f[r].node == Some(id) && f[r].state != ShardState::Unassigned
        && !f[r].primary {
        assert((held_as(id, false))(f[r]));
    }
    if forall|j: int|
        0 <= j < f.len() ==> (#[trigger] f[j]).node != Some(id) || f[j].state
            == ShardState::Unassigned {
        if any(f, held_as(id, true)) {
            let j = choose|j: int| 0 <= j < f.len() && (held_as(id, true))(#[trigger] f[j]);
            assert(f[j].node == Some(id));
        }
        if any(f, held_as(id, false)) {
            let j = choose|j: int| 0 <= j < f.len() && (held_as(id, false))(#[trigger] f[j]);
            assert(f[j].node == Some(id));
        }
    }
}

/// A difference is worth a move where it is above the threshold, in what one copy weighs.
pub proof fn law_a_difference_is_worth_a_move_above_the_threshold(ctx: CtxV, difference: int)
    requires
        0 <= ctx.cluster.balance_shard <= 1_000_000_000,
        0 <= ctx.cluster.balance_index <= 1_000_000_000,
        0 <= ctx.cluster.balance_threshold <= 1_000_000_000,
        ctx.data_nodes().len() > 0,
    ensures
        above(ctx, difference) <==> difference * 1_000_000 > ctx.cluster.balance_threshold * (
        ctx.data_nodes().len() * (ctx.cluster.balance_shard + ctx.cluster.balance_index)),
{
}

/// A move is made only where it brings two nodes nearer to each other: a copy off the
/// heavy one and onto the light one leaves them less far apart than they were.
pub proof fn law_a_move_brings_two_nodes_nearer(ctx: CtxV, heavy: int, light: int)
    requires
        0 <= ctx.cluster.balance_shard,
        0 <= ctx.cluster.balance_index,
    ensures
        ({
            let w = one(ctx);
            better(ctx, heavy, light) <==> -(heavy - light) < (heavy - w) - (light + w) < heavy
                - light
        }),
{
}

/// A copy that has to leave is one of the first shard that is started on a node of the
/// cluster and may not remain on it, for want of the data role or for a filter; other
/// verdicts move nothing.
pub proof fn law_what_has_to_leave_its_node(ctx: CtxV, t: Seq<IndexV>, c: CopyV)
    ensures
        (is_stuck(ctx, t))(c) <==> c.shard == 0 && c.state == ShardState::Started && c.node is Some
            && (ctx.node(c.node->0) matches Some(node) && exists|i: int|
            0 <= i < may_remain(ctx, t, c, node).len() && (#[trigger] may_remain(
                ctx,
                t,
                c,
                node,
            )[i]).decision == Decision::No && (may_remain(ctx, t, c, node)[i].decider
                == "data_role"@ || may_remain(ctx, t, c, node)[i].decider == "filter"@)),
{
    match c.node {
        Some(id) => match ctx.node(id) {
            Some(node) => {
                let vs = may_remain(ctx, t, c, node);
                if any(vs, moves()) {
                    let i = choose|i: int| 0 <= i < vs.len() && (moves())(#[trigger] vs[i]);
                    assert(vs[i].decision == Decision::No);
                }
                if exists|i: int|
                    0 <= i < vs.len() && (#[trigger] vs[i]).decision == Decision::No && (
                    vs[i].decider == "data_role"@ || vs[i].decider == "filter"@) {
                    let i = choose|i: int|
                        0 <= i < vs.len() && (#[trigger] vs[i]).decision == Decision::No && (
                        vs[i].decider == "data_role"@ || vs[i].decider == "filter"@);
                    assert((moves())(vs[i]));
                }
            },
            None => {},
        },
        None => {},
    }
}

/// A copy that leaves goes on serving where it is, and says where it goes; what arrives
/// is filled there, from where it comes, under an id of its own.
pub proof fn law_a_copy_moves_while_it_serves(
    copies: Seq<CopyV>,
    pos: int,
    index: Seq<char>,
    shard: u32,
    primary: bool,
    from: Seq<char>,
    to: Seq<char>,
    id: Seq<char>,
)
    requires
        0 <= pos < copies.len(),
    ensures
        ({
            let after = moved(copies, pos, index, shard, primary, from, to, id);
            &&& after.len() == copies.len() + 1
            &&& after[pos] == (CopyV {
                state: ShardState::Relocating,
                relocating_node: Some(to),
                ..copies[pos]
            })
            &&& after.last() == (CopyV {
                index,
                shard,
                primary,
                state: ShardState::Initializing,
                node: Some(to),
                relocating_node: Some(from),
                allocation_id: Some(id),
                unassigned: None,
            })
            &&& forall|k: int|
                0 <= k < copies.len() && k != pos ==> #[trigger] after[k] == copies[k]
        }),
{
}

/// A copy that has to leave its node, and that another takes, is moved: it goes on serving
/// until what arrives on that node is filled.
pub proof fn law_a_copy_that_has_to_leave_is_moved(
    ctx: CtxV,
    w: WorkV,
    i: int,
    copy: CopyV,
    from: Seq<char>,
    k: int,
    pos: int,
)
    requires
        0 <= i < w.t.len(),
        copy.node == Some(from),
        copy.shard < w.t[i].shards.len(),
        0 <= pos < w.t[i].shards[copy.shard as int].len(),
        w.t[i].shards[copy.shard as int][pos].allocation_id == copy.allocation_id,
        forall|j: int|
            0 <= j < pos ==> (#[trigger] w.t[i].shards[copy.shard as int][j]).allocation_id
                != copy.allocation_id,
        0 <= k < ranking(ctx, w.t, w.t[i].name).len(),
        ranking(ctx, w.t, w.t[i].name)[k].node.id != from,
        worst(may_allocate(ctx, w.t, copy, ranking(ctx, w.t, w.t[i].name)[k].node))
            == Decision::Yes,
    ensures
        ({
            let before = w.t[i].shards[copy.shard as int];
            let after = freed(ctx, w, i, copy).t[i].shards[copy.shard as int];
            &&& after.len() == before.len() + 1
            &&& after[pos].state == ShardState::Relocating
            &&& after[pos].node == before[pos].node
            &&& after.last().state == ShardState::Initializing
            &&& after.last().relocating_node == Some(from)
            &&& after.last().node == after[pos].relocating_node
            &&& after.last().primary == copy.primary
        }),
{
    let r = ranking(ctx, w.t, w.t[i].name);
    let p = takes(ctx, w.t, copy, from);
    lemma_found(r, p);
    assert(p(r[k]));
    let copies = w.t[i].shards[copy.shard as int];
    lemma_find(copies, has_id(copy.allocation_id), pos);
}

/// The heaviest node gives a copy to the lightest where they are far enough apart for that,
/// the move brings them nearer, and one of its copies may go.
pub proof fn law_the_heaviest_node_is_lightened(ctx: CtxV, w: WorkV, i: int, k: int)
    requires
        0 <= i < w.t.len(),
        ({
            let r = ranking(ctx, w.t, w.t[i].name);
            let heavy = r[r.len() - 1];
            let light = r[0];
            let here = keep(on_node(w.t, heavy.node.id), started_of(w.t[i].name));
            &&& r.len() >= 2
            &&& heavy.node.id != light.node.id
            &&& above(ctx, heavy.weight - light.weight)
            &&& better(ctx, heavy.weight, light.weight)
            &&& 0 <= k < here.len()
            &&& worst(may_rebalance(ctx, w.t, here[k])) == Decision::Yes
            &&& worst(may_allocate(ctx, w.t, here[k], light.node)) == Decision::Yes
        }),
    ensures
        ({
            let r = ranking(ctx, w.t, w.t[i].name);
            let heavy = r[r.len() - 1];
            exists|c: CopyV|
                on_node(w.t, heavy.node.id).contains(c) && c.index == w.t[i].name && c.state
                    == ShardState::Started && lightened(ctx, w, i) == #[trigger] sent(
                    w,
                    i,
                    c,
                    heavy.node.id,
                    r[0].node.id,
                )
        }),
{
    let r = ranking(ctx, w.t, w.t[i].name);
    let heavy = r[r.len() - 1];
    let light = r[0];
    let there = on_node(w.t, heavy.node.id);
    let here = keep(there, started_of(w.t[i].name));
    let p = may_go(ctx, w.t, light.node);
    lemma_found(here, p);
    assert(p(here[k]));
    let j = find(here, p);
    let c = here[j];
    assert(here.contains(c));
    crate::laws::words::law_what_passes_is_kept(there, started_of(w.t[i].name), c);
    assert(lightened(ctx, w, i) == sent(w, i, c, heavy.node.id, light.node.id));
}

} // verus!
