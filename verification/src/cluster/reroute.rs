//! Where every copy of every shard goes: one pure function from a routing
//! table to the next.
//!
//! `reroute` takes what the cluster manager knows -- the nodes, the indices
//! and their settings, the cluster settings, the table as it was and the
//! time -- and gives the table as it should be: copies on nodes that left
//! become unassigned (a replica waits out
//! `index.unassigned.node_left.delayed_timeout` first; a primary is replaced
//! by an in-sync replica), unassigned copies are placed on the node the
//! deciders allow and the balancer weighs lightest, and once every copy is
//! active the balancer moves copies from heavy nodes to light ones, one at a
//! time. Nothing in here does I/O and nothing reads a clock: the time comes in
//! as an argument, and so do the ids of new copies.

use vstd::prelude::*;

use super::departures::{depart, departed, departed_shards};
use super::follow::{follow, followed_all, law_every_shard_sits_where_the_first_one_sits, together};
use super::moves::{freed, freed_all, lightened, rebalance, rebalanced, stuck_of, unstick, unstuck};
use super::placement::{pending, place_kind, placed, placed_all, placed_kind};
use super::settings::{Context, CtxV};
use super::state::{Ids, IdsV, IndexV, RoutingTable};
use super::sync::{law_the_table_follows_the_indices, sync, synced};
use super::work::{Changes, ChangesV, Work, WorkV};

verus! {

/// The table brought up to the indices there are, with nothing done yet.
pub open spec fn begun(ctx: CtxV, t: Seq<IndexV>, ids: IdsV) -> WorkV {
    let (now, next) = synced(ctx, t, ids, ctx.indices.len());
    WorkV { t: now, ids: next, ch: ChangesV::none() }
}

/// What is unassigned, allocated: primaries first, then replicas.
pub open spec fn allocated(ctx: CtxV, w: WorkV) -> WorkV {
    placed_kind(ctx, placed_kind(ctx, w, true), false)
}

/// The routing table as it should be, from the table as it was: the indices
/// that came and went, the nodes that left, what is unassigned, what may not
/// stay, what is too heavy, and every shard with its first.
pub open spec fn rerouted(ctx: CtxV, t: Seq<IndexV>, ids: IdsV) -> WorkV {
    let begun = begun(ctx, t, ids);
    let departed = departed(ctx, begun, begun.t.len());
    let allocated = allocated(ctx, departed);
    let unstuck = unstuck(ctx, allocated, allocated.t.len());
    let rebalanced = rebalanced(ctx, unstuck, unstuck.t.len());
    followed_all(rebalanced, rebalanced.t.len())
}

/// The routing table as it should be, from the table as it was.
pub fn reroute(ctx: &Context, table: &RoutingTable, ids: &mut Ids) -> (r: (RoutingTable, Changes))
    requires
        ctx.deep_view().fits(),
    ensures
        (WorkV { t: r.0.deep_view(), ids: final(ids).deep_view(), ch: r.1.deep_view() })
            == rerouted(ctx.deep_view(), table.deep_view(), old(ids).deep_view()),
{
    let synced = sync(ctx, table, ids);
    let mut w = Work {
        table: synced,
        ids: Ids { run: ids.run.clone(), next: ids.next },
        changes: Changes::default(),
    };
    depart(ctx, &mut w);
    place_kind(ctx, &mut w, true);
    place_kind(ctx, &mut w, false);
    unstick(ctx, &mut w);
    rebalance(ctx, &mut w);
    follow(&mut w);
    let Work { table: after, ids: left, changes } = w;
    *ids = left;
    (after, changes)
}

// ---- what it comes to ----------------------------------------------------------

/// Whether two tables have the same indices with as many shards each.
pub open spec fn same_shape(a: Seq<IndexV>, b: Seq<IndexV>) -> bool {
    a.len() == b.len() && forall|i: int|
        0 <= i < a.len() ==> (#[trigger] a[i]).name == b[i].name && a[i].shards.len()
            == b[i].shards.len()
}

proof fn lemma_departed_shards(ctx: CtxV, w: WorkV, i: int, n: nat)
    requires
        0 <= i < w.t.len(),
        n <= w.t[i].shards.len(),
    ensures
        same_shape(departed_shards(ctx, w, i, n).t, w.t),
    decreases n,
{
    if n > 0 {
        lemma_departed_shards(ctx, w, i, (n - 1) as nat);
    }
}

proof fn lemma_departed(ctx: CtxV, w: WorkV, n: nat)
    requires
        n <= w.t.len(),
    ensures
        same_shape(departed(ctx, w, n).t, w.t),
    decreases n,
{
    if n > 0 {
        lemma_departed(ctx, w, (n - 1) as nat);
        let before = departed(ctx, w, (n - 1) as nat);
        lemma_departed_shards(ctx, before, n - 1, before.t[n - 1].shards.len());
    }
}

proof fn lemma_placed_all(ctx: CtxV, w: WorkV, list: Seq<(usize, usize, usize)>, n: nat)
    ensures
        same_shape(placed_all(ctx, w, list, n).t, w.t),
    decreases n,
{
    if n > 0 {
        lemma_placed_all(ctx, w, list, (n - 1) as nat);
        let before = placed_all(ctx, w, list, (n - 1) as nat);
        assert(same_shape(placed(ctx, before, list[n - 1]).t, before.t));
    }
}

proof fn lemma_freed_all(
    ctx: CtxV,
    w: WorkV,
    i: int,
    stuck: Seq<super::state::CopyV>,
    n: nat,
)
    requires
        0 <= i < w.t.len(),
    ensures
        same_shape(freed_all(ctx, w, i, stuck, n).t, w.t),
    decreases n,
{
    if n > 0 {
        lemma_freed_all(ctx, w, i, stuck, (n - 1) as nat);
        let before = freed_all(ctx, w, i, stuck, (n - 1) as nat);
        assert(same_shape(freed(ctx, before, i, stuck[n - 1]).t, before.t));
    }
}

proof fn lemma_unstuck(ctx: CtxV, w: WorkV, n: nat)
    requires
        n <= w.t.len(),
    ensures
        same_shape(unstuck(ctx, w, n).t, w.t),
    decreases n,
{
    if n > 0 {
        lemma_unstuck(ctx, w, (n - 1) as nat);
        let before = unstuck(ctx, w, (n - 1) as nat);
        let stuck = stuck_of(ctx, before.t, n - 1);
        lemma_freed_all(ctx, before, n - 1, stuck, stuck.len());
    }
}

proof fn lemma_rebalanced(ctx: CtxV, w: WorkV, n: nat)
    requires
        n <= w.t.len(),
    ensures
        same_shape(rebalanced(ctx, w, n).t, w.t),
    decreases n,
{
    if n > 0 {
        lemma_rebalanced(ctx, w, (n - 1) as nat);
        let before = rebalanced(ctx, w, (n - 1) as nat);
        assert(same_shape(lightened(ctx, before, n - 1).t, before.t));
    }
}

/// Whatever the table was, the table `reroute` gives has the indices there
/// are, in order, as many shards of each as its settings say, and every shard
/// where the first one of its index sits.
pub proof fn law_reroute_keeps_indices_whole(ctx: CtxV, t: Seq<IndexV>, ids: IdsV)
    ensures
        rerouted(ctx, t, ids).t.len() == ctx.indices.len(),
        forall|i: int|
            0 <= i < ctx.indices.len() ==> {
                let e = #[trigger] rerouted(ctx, t, ids).t[i];
                e.name == ctx.indices[i].name && e.shards.len() == ctx.indices[i].shards
                    && together(e)
            },
{
    law_the_table_follows_the_indices(ctx, t, ids);
    let begun = begun(ctx, t, ids);
    lemma_departed(ctx, begun, begun.t.len());
    let departed = departed(ctx, begun, begun.t.len());
    let primaries = pending(departed.t, true, departed.t.len());
    lemma_placed_all(ctx, departed, primaries, primaries.len());
    let placed = placed_kind(ctx, departed, true);
    let replicas = pending(placed.t, false, placed.t.len());
    lemma_placed_all(ctx, placed, replicas, replicas.len());
    let allocated = allocated(ctx, departed);
    lemma_unstuck(ctx, allocated, allocated.t.len());
    let unstuck = unstuck(ctx, allocated, allocated.t.len());
    lemma_rebalanced(ctx, unstuck, unstuck.t.len());
    let rebalanced = rebalanced(ctx, unstuck, unstuck.t.len());
    law_every_shard_sits_where_the_first_one_sits(rebalanced);
}

} // verus!
