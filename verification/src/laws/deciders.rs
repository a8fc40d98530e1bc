//! Which node takes which copy, told from what the cluster and the index are set to
//! and from what is where.

use vstd::prelude::*;

use crate::cluster::deciders::{
    after_primary, aware, aware_from, cluster_settled, concurrent, enabled, filled_from, filtered,
    is_inactive, is_inactive_primary, is_initial_primary, is_initializing, is_other,
    is_other_of_index, is_relocating, is_unassigned, law_the_worst_verdict_decides, limited,
    may_allocate, may_rebalance, may_remain, movable, no_data, other_in_zone, retry, same_shard,
    share, shard_settled, siblings, start, throttled, twin_on, worst, zone_of, zones, Decision,
    VerdictV,
};
use crate::cluster::departures::departed;
use crate::cluster::follow::{alike, law_every_shard_sits_where_the_first_one_sits, together};
use crate::cluster::moves::{rebalanced, unstuck};
use crate::cluster::reroute::{allocated, begun, rerouted};
use crate::cluster::settings::{AllowRebalance, CtxV, Enable, RebalanceEnable};
use crate::cluster::state::{
    all, copies_of, on_node, primary_of, shards_of, CopyV, IdsV, IndexV, NodeV, ShardState,
};
use crate::cluster::work::WorkV;
use crate::laws::stays::{
    fills_at, law_what_no_node_takes_is_not_placed, nowhere, was_filling, well_filed,
};
use crate::list::{any, count, lemma_found, lookup};

verus! {

/// Whether some verdicts hold one of a decider, with its reason.
pub open spec fn told(
    vs: Seq<VerdictV>,
    decider: Seq<char>,
    decision: Decision,
    explanation: Seq<char>,
) -> bool {
    exists|i: int|
        0 <= i < vs.len() && (#[trigger] vs[i]).decider == decider && vs[i].decision == decision
            && vs[i].explanation == explanation
}

/// Whether some verdicts hold one of a decider, whatever its reason.
pub open spec fn ruled(vs: Seq<VerdictV>, decider: Seq<char>, decision: Decision) -> bool {
    exists|i: int|
        0 <= i < vs.len() && (#[trigger] vs[i]).decider == decider && vs[i].decision == decision
}

/// Whether some verdicts hold a refusal.
pub open spec fn refused(vs: Seq<VerdictV>) -> bool {
    exists|i: int| 0 <= i < vs.len() && (#[trigger] vs[i]).decision == Decision::No
}

/// What allocation is set to for an index: what the index says, else what the
/// cluster says.
pub open spec fn in_force(ctx: CtxV, name: Seq<char>) -> Enable {
    match ctx.settings_of(name).enable {
        Some(e) => e,
        None => ctx.cluster.enable,
    }
}

proof fn lemma_refused(vs: Seq<VerdictV>)
    ensures
        refused(vs) <==> worst(vs) == Decision::No,
        (forall|i: int| 0 <= i < vs.len() ==> (#[trigger] vs[i]).decision == Decision::Yes)
            <==> worst(vs) == Decision::Yes,
{
    law_the_worst_verdict_decides(vs);
    if refused(vs) {
        let i = choose|i: int| 0 <= i < vs.len() && (#[trigger] vs[i]).decision == Decision::No;
        assert(vs[i].decision.rank() <= worst(vs).rank());
    }
    if forall|i: int| 0 <= i < vs.len() ==> (#[trigger] vs[i]).decision == Decision::Yes {
        if vs.len() > 0 {
            let k = choose|k: int| 0 <= k < vs.len() && (#[trigger] vs[k]).decision == worst(vs);
            assert(vs[k].decision == Decision::Yes);
        }
    }
    if worst(vs) == Decision::Yes {
        assert forall|i: int| 0 <= i < vs.len() implies (#[trigger] vs[i]).decision
            == Decision::Yes by {
            assert(vs[i].decision.rank() <= worst(vs).rank());
        }
    }
}

/// Where allocation is set to `none`, no node takes any copy; where it is set to
/// `primaries`, no node takes a replica; where it is set to `new_primaries`, none
/// takes anything but a primary of an index just created. Each verdict says which
/// setting it comes from.
pub proof fn law_allocation_that_is_off_is_refused(
    ctx: CtxV,
    t: Seq<IndexV>,
    copy: CopyV,
    node: NodeV,
)
    ensures
        ({
            let vs = may_allocate(ctx, t, copy, node);
            let set = in_force(ctx, copy.index);
            let from = if ctx.settings_of(copy.index).enable is Some {
                "index setting [index.routing.allocation.enable"@
            } else {
                "cluster setting [cluster.routing.allocation.enable"@
            };
            let new = copy.unassigned is Some && copy.unassigned->0.reason == "INDEX_CREATED"@;
            &&& set == Enable::Nothing ==> told(
                vs,
                "enable"@,
                Decision::No,
                "all allocations are forbidden"@ + " due to "@ + from + "="@ + "none"@ + "]"@,
            ) && worst(vs) == Decision::No
            &&& set == Enable::Primaries && !copy.primary ==> told(
                vs,
                "enable"@,
                Decision::No,
                "replica allocations are forbidden"@ + " due to "@ + from + "="@ + "primaries"@ + "]"@,
            ) && worst(vs) == Decision::No
            &&& set == Enable::NewPrimaries && !(copy.primary && new) ==> told(
                vs,
                "enable"@,
                Decision::No,
                "non-new primary allocations are forbidden"@ + " due to "@ + from + "="@
                    + "new_primaries"@ + "]"@,
            ) && worst(vs) == Decision::No
        }),
{
    reveal(may_allocate);
    let vs = may_allocate(ctx, t, copy, node);
    let k = start(node).len() as int;
    let is = ctx.settings_of(copy.index);
    let v = enabled(ctx, is, copy);
    assert(vs[k + 3] == v);
    lemma_refused(vs);
}

/// Where allocation is set to `all`, or lets the copy by its kind, it is no reason
/// to refuse a node.
pub proof fn law_allocation_that_is_on_is_let(ctx: CtxV, t: Seq<IndexV>, copy: CopyV, node: NodeV)
    ensures
        ({
            let set = in_force(ctx, copy.index);
            let new = copy.unassigned is Some && copy.unassigned->0.reason == "INDEX_CREATED"@;
            set == Enable::All || (set == Enable::Primaries && copy.primary) || (set
                == Enable::NewPrimaries && copy.primary && new) ==> told(
                may_allocate(ctx, t, copy, node),
                "enable"@,
                Decision::Yes,
                "all allocations are allowed"@,
            )
        }),
{
    reveal(may_allocate);
    let vs = may_allocate(ctx, t, copy, node);
    let k = start(node).len() as int;
    assert(vs[k + 3] == enabled(ctx, ctx.settings_of(copy.index), copy));
}

/// Where allocation is set to `none` for an index, a reroute places no copy of it:
/// whatever is being filled after it was being filled before. Where it is set to
/// `primaries` or `new_primaries`, the same is true of its replicas.
pub proof fn law_a_reroute_places_nothing_where_allocation_is_off(
    ctx: CtxV,
    t: Seq<IndexV>,
    ids: IdsV,
    i: int,
    k: int,
)
    requires
        well_filed(t),
        0 <= i < rerouted(ctx, t, ids).t.len(),
        rerouted(ctx, t, ids).t[i].shards.len() > 0,
        0 <= k < rerouted(ctx, t, ids).t[i].shards[0].len(),
    ensures
        ({
            let name = rerouted(ctx, t, ids).t[i].name;
            let c = rerouted(ctx, t, ids).t[i].shards[0][k];
            let set = in_force(ctx, name);
            c.state == ShardState::Initializing && (set == Enable::Nothing || (!c.primary && (set
                == Enable::Primaries || set == Enable::NewPrimaries))) ==> was_filling(t, name, c)
        }),
{
    let name = rerouted(ctx, t, ids).t[i].name;
    let set = in_force(ctx, name);
    let whole = set == Enable::Nothing;
    if set != Enable::All {
        assert(nowhere(ctx, name, whole)) by {
            assert forall|u: Seq<IndexV>, c: CopyV, node: NodeV|
                c.index == name && (whole || !c.primary) implies worst(
                #[trigger] may_allocate(ctx, u, c, node),
            ) != Decision::Yes by {
                law_allocation_that_is_off_is_refused(ctx, u, c, node);
            }
        }
        law_what_no_node_takes_is_not_placed(ctx, t, ids, name, whole, i, k);
    }
}

/// The same is true of every shard of the index: what is being filled after a reroute is on a
/// node where the index was being filled before it.
pub proof fn law_no_shard_is_placed_where_allocation_is_off(
    ctx: CtxV,
    t: Seq<IndexV>,
    ids: IdsV,
    i: int,
    s: int,
    k: int,
)
    requires
        well_filed(t),
        0 <= i < rerouted(ctx, t, ids).t.len(),
        0 <= s < rerouted(ctx, t, ids).t[i].shards.len(),
        0 <= k < rerouted(ctx, t, ids).t[i].shards[s].len(),
    ensures
        ({
            let name = rerouted(ctx, t, ids).t[i].name;
            let c = rerouted(ctx, t, ids).t[i].shards[s][k];
            let set = in_force(ctx, name);
            c.state == ShardState::Initializing && (set == Enable::Nothing || (!c.primary && (set
                == Enable::Primaries || set == Enable::NewPrimaries))) ==> exists|a: int, b: int|
                #![trigger t[a].shards[0][b]]
                0 <= a < t.len() && t[a].name == name && t[a].shards.len() > 0 && 0 <= b
                    < t[a].shards[0].len() && t[a].shards[0][b].state == ShardState::Initializing
                    && t[a].shards[0][b].node == c.node
        }),
{
    let done = rebalanced_before(ctx, t, ids);
    law_every_shard_sits_where_the_first_one_sits(done);
    let e = rerouted(ctx, t, ids).t[i];
    assert(together(e));
    let c = e.shards[s][k];
    assert(e.shards[s].len() == e.shards[0].len());
    assert(alike(e.shards[s][k], e.shards[0][k]));
    let first = e.shards[0][k];
    law_a_reroute_places_nothing_where_allocation_is_off(ctx, t, ids, i, k);
    let name = e.name;
    if was_filling(t, name, first) {
        let (a, b) = choose|a: int, b: int| fills_at(t, name, first, a, b);
        assert(t[a].shards[0][b].state == ShardState::Initializing);
    }
}

spec fn rebalanced_before(ctx: CtxV, t: Seq<IndexV>, ids: IdsV) -> WorkV {
    let begun = begun(ctx, t, ids);
    let departed = departed(ctx, begun, begun.t.len());
    let allocated = allocated(ctx, departed);
    let unstuck = unstuck(ctx, allocated, allocated.t.len());
    rebalanced(ctx, unstuck, unstuck.t.len())
}

/// Only a node with the data role takes a copy.
pub proof fn law_a_node_without_the_data_role_is_refused(
    ctx: CtxV,
    t: Seq<IndexV>,
    copy: CopyV,
    node: NodeV,
)
    ensures
        !node.roles.contains("data"@) ==> ruled(
            may_allocate(ctx, t, copy, node),
            "data_role"@,
            Decision::No,
        ) && ruled(may_remain(ctx, t, copy, node), "data_role"@, Decision::No),
        node.roles.contains("data"@) ==> may_allocate(ctx, t, copy, node).len() == 17 && may_remain(
            ctx,
            t,
            copy,
            node,
        ).len() == 4,
{
    reveal(may_allocate);
    reveal(may_remain);
    let vs = may_allocate(ctx, t, copy, node);
    let ws = may_remain(ctx, t, copy, node);
    if !node.data() {
        assert(vs[0] == no_data(node));
        assert(ws[0] == no_data(node));
    }
}

/// A copy that has failed as often as it may is refused everywhere until it is
/// retried; one that has failed less often is not refused for that.
pub proof fn law_a_copy_that_failed_too_often_is_refused(
    ctx: CtxV,
    t: Seq<IndexV>,
    copy: CopyV,
    node: NodeV,
)
    ensures
        ({
            let failed = match copy.unassigned {
                Some(u) => u.failed,
                None => 0,
            };
            ruled(
                may_allocate(ctx, t, copy, node),
                "max_retry"@,
                if failed >= ctx.settings_of(copy.index).max_retries {
                    Decision::No
                } else {
                    Decision::Yes
                },
            )
        }),
{
    reveal(may_allocate);
    let vs = may_allocate(ctx, t, copy, node);
    let k = start(node).len() as int;
    assert(vs[k] == retry(ctx.settings_of(copy.index), copy));
}

/// A replica is refused while no primary of its shard is active; a primary is not
/// refused for that.
pub proof fn law_a_replica_waits_for_its_primary(
    ctx: CtxV,
    t: Seq<IndexV>,
    copy: CopyV,
    node: NodeV,
)
    ensures
        ({
            let vs = may_allocate(ctx, t, copy, node);
            let copies = copies_of(t, copy.index, copy.shard);
            let served = exists|j: int|
                0 <= j < copies.len() && (#[trigger] copies[j]).primary && (copies[j].state
                    == ShardState::Started || copies[j].state == ShardState::Relocating);
            let all_served = forall|j: int|
                0 <= j < copies.len() && (#[trigger] copies[j]).primary ==> copies[j].state
                    == ShardState::Started || copies[j].state == ShardState::Relocating;
            &&& !copy.primary && !served ==> ruled(
                vs,
                "replica_after_primary_active"@,
                Decision::No,
            )
            &&& copy.primary || (served && all_served) ==> ruled(
                vs,
                "replica_after_primary_active"@,
                Decision::Yes,
            )
        }),
{
    reveal(may_allocate);
    let vs = may_allocate(ctx, t, copy, node);
    let k = start(node).len() as int;
    assert(vs[k + 1] == after_primary(t, copy));
    let copies = copies_of(t, copy.index, copy.shard);
    lemma_found(copies, |c: CopyV| c.primary);
}

/// A node that the filters of the cluster or of the index turn away is refused, and
/// may not be remained on; one that both let is not refused for that.
pub proof fn law_a_node_the_filters_turn_away_is_refused(
    ctx: CtxV,
    t: Seq<IndexV>,
    copy: CopyV,
    node: NodeV,
)
    ensures
        ({
            let passes = ctx.cluster.filters.failed(node) is None && ctx.settings_of(
                copy.index,
            ).filters.failed(node) is None;
            let decision = if passes {
                Decision::Yes
            } else {
                Decision::No
            };
            ruled(may_allocate(ctx, t, copy, node), "filter"@, decision) && ruled(
                may_remain(ctx, t, copy, node),
                "filter"@,
                decision,
            )
        }),
{
    reveal(may_allocate);
    reveal(may_remain);
    let vs = may_allocate(ctx, t, copy, node);
    let ws = may_remain(ctx, t, copy, node);
    let k = start(node).len() as int;
    assert(vs[k + 7] == filtered(ctx, ctx.settings_of(copy.index), node));
    assert(ws[k] == filtered(ctx, ctx.settings_of(copy.index), node));
}

/// Whether a filter names a node: by one of the values it gives, or by a pattern,
/// for an attribute the node has.
pub open spec fn picks(node: NodeV, attr: Seq<char>, values: Seq<Seq<char>>) -> bool {
    exists|i: int|
        0 <= i < values.len() && {
            let v = #[trigger] values[i];
            if attr == "_name"@ {
                v == node.name || (v.contains('*') && crate::text::fits(v, node.name))
            } else if attr == "_id"@ {
                v == node.id || (v.contains('*') && crate::text::fits(v, node.id))
            } else {
                match lookup(node.attributes, attr) {
                    Some(x) => v == x || (v.contains('*') && crate::text::fits(v, x)),
                    None => false,
                }
            }
        }
}

/// A node that an `exclude` filter names is turned away; one that a `require`
/// filter does not name is turned away; and where there are `include` filters, one
/// that none of them names is turned away. A node that is turned away by none of
/// these passes. Filters on an address are left out of this.
pub proof fn law_filters_let_the_nodes_they_name(
    f: crate::cluster::settings::FiltersV,
    node: NodeV,
)
    requires
        forall|i: int| 0 <= i < f.includes.len() ==> !on_address((#[trigger] f.includes[i]).0),
        forall|i: int| 0 <= i < f.excludes.len() ==> !on_address((#[trigger] f.excludes[i]).0),
        forall|i: int|
            0 <= i < f.requires_all.len() ==> !on_address((#[trigger] f.requires_all[i]).0),
    ensures
        f.failed(node) is None <==> {
            &&& forall|i: int|
                0 <= i < f.requires_all.len() ==> picks(
                    node,
                    (#[trigger] f.requires_all[i]).0,
                    f.requires_all[i].1,
                )
            &&& f.includes.len() > 0 ==> exists|i: int|
                0 <= i < f.includes.len() && picks(
                    node,
                    (#[trigger] f.includes[i]).0,
                    f.includes[i].1,
                )
            &&& forall|i: int|
                0 <= i < f.excludes.len() ==> !picks(
                    node,
                    (#[trigger] f.excludes[i]).0,
                    f.excludes[i].1,
                )
        },
{
    reveal_strlit("_name");
    reveal_strlit("_id");
    assert("_name"@.len() == 5 && "_id"@.len() == 3);
    assert forall|x: (Seq<char>, Seq<Seq<char>>)| !on_address(x.0) implies #[trigger] picks(
        node,
        x.0,
        x.1,
    ) == crate::cluster::settings::accepts(x, node) by {
        lemma_picks(node, x);
    }
}

proof fn lemma_picks(node: NodeV, x: (Seq<char>, Seq<Seq<char>>))
    requires
        !on_address(x.0),
    ensures
        picks(node, x.0, x.1) == crate::cluster::settings::accepts(x, node),
{
    let values = x.1;
    match crate::cluster::settings::node_value(node, x.0) {
        Some(have) => {
            if picks(node, x.0, x.1) {
                let i = choose|i: int|
                    0 <= i < values.len() && {
                        let v = #[trigger] values[i];
                        if x.0 == "_name"@ {
                            v == node.name || (v.contains('*') && crate::text::fits(v, node.name))
                        } else if x.0 == "_id"@ {
                            v == node.id || (v.contains('*') && crate::text::fits(v, node.id))
                        } else {
                            match lookup(node.attributes, x.0) {
                                Some(y) => v == y || (v.contains('*') && crate::text::fits(v, y)),
                                None => false,
                            }
                        }
                    };
                assert(values[i] == have || (values[i].contains('*') && crate::text::fits(
                    values[i],
                    have,
                )));
            }
            if crate::cluster::settings::accepted(values, have) {
                let i = choose|i: int|
                    0 <= i < values.len() && ((#[trigger] values[i]) == have || (
                    values[i].contains('*') && crate::text::fits(values[i], have)));
                assert(values[i] == have || (values[i].contains('*') && crate::text::fits(
                    values[i],
                    have,
                )));
            }
        },
        None => {},
    }
}

/// Whether a filter is on the address a node is reached at.
pub open spec fn on_address(attr: Seq<char>) -> bool {
    attr == "_ip"@ || attr == "_host_ip"@ || attr == "_publish_ip"@ || attr == "_host"@
}

/// A filter on an address looks at what stands before the port.
pub proof fn law_an_address_is_filtered_without_its_port(
    node: NodeV,
    attr: Seq<char>,
    host: Seq<char>,
    port: Seq<char>,
)
    requires
        node.transport_address == host + ":"@ + port,
        !host.contains(':'),
        on_address(attr),
    ensures
        crate::cluster::settings::node_value(node, attr) == Some(host),
{
    reveal_strlit(":");
    reveal_strlit("_name");
    reveal_strlit("_id");
    reveal_strlit("_ip");
    reveal_strlit("_host_ip");
    reveal_strlit("_publish_ip");
    reveal_strlit("_host");
    assert("_name"@[1] == 'n' && "_id"@[2] == 'd' && "_ip"@[2] == 'p' && "_host"@[1] == 'h');
    assert("_name"@.len() == 5 && "_id"@.len() == 3 && "_ip"@.len() == 3 && "_host"@.len() == 5
        && "_host_ip"@.len() == 8 && "_publish_ip"@.len() == 11);
    crate::text::lemma_cut_after(host, ':', port);
    assert(host + ":"@ + port =~= host.push(':') + port);
}

/// A node that holds a copy of a shard takes no other copy of it, nor the same one
/// again; one that holds none is not refused for that.
pub proof fn law_a_node_takes_one_copy_of_a_shard(
    ctx: CtxV,
    t: Seq<IndexV>,
    copy: CopyV,
    node: NodeV,
)
    ensures
        ({
            let mine = shards_of(t, copy.index);
            let itself = copy.state != ShardState::Unassigned && copy.node == Some(node.id);
            let another = exists|j: int|
                0 <= j < mine.len() && (#[trigger] mine[j]).shard == copy.shard && mine[j].state
                    != ShardState::Unassigned && mine[j].node == Some(node.id)
                    && mine[j].allocation_id != copy.allocation_id;
            ruled(
                may_allocate(ctx, t, copy, node),
                "same_shard"@,
                if itself || another {
                    Decision::No
                } else {
                    Decision::Yes
                },
            )
        }),
{
    reveal(may_allocate);
    let vs = may_allocate(ctx, t, copy, node);
    let k = start(node).len() as int;
    assert(vs[k + 9] == same_shard(t, copy, node));
    let mine = shards_of(t, copy.index);
    lemma_found(mine, twin_on(copy, node.id));
}

/// The copies of each kind that a decider counts.
pub proof fn law_what_is_counted(
    ctx: CtxV,
    t: Seq<IndexV>,
    c: CopyV,
    copy: CopyV,
    id: Seq<char>,
    attr: Seq<char>,
    zone: Seq<char>,
)
    ensures
        (is_initial_primary())(c) <==> c.state == ShardState::Initializing && c.primary
            && c.relocating_node is None,
        (is_initializing())(c) <==> c.state == ShardState::Initializing,
        (filled_from(t, id))(c) <==> c.state == ShardState::Initializing && !c.primary && (
        primary_of(t, c.index, c.shard) matches Some(p) && p.node == Some(id)),
        (is_other(copy))(c) <==> c.allocation_id != copy.allocation_id,
        (is_other_of_index(copy))(c) <==> c.allocation_id != copy.allocation_id && c.index
            == copy.index,
        (is_unassigned())(c) <==> c.state == ShardState::Unassigned,
        (is_relocating())(c) <==> c.state == ShardState::Relocating,
        (is_inactive())(c) <==> c.state == ShardState::Unassigned || c.state
            == ShardState::Initializing,
        (is_inactive_primary())(c) <==> c.primary && (c.state == ShardState::Unassigned || c.state
            == ShardState::Initializing),
        (crate::cluster::state::sits_on(id))(c) <==> c.node == Some(id),
        (other_in_zone(ctx, copy, attr, zone))(c) <==> c.allocation_id != copy.allocation_id
            && c.state != ShardState::Unassigned && zone_of(ctx, c, attr) == Some(zone),
{
}

/// A node that is filling as many primaries as it may is put off; one that is not is
/// not put off for that.
pub proof fn law_a_node_fills_only_so_many_primaries(
    ctx: CtxV,
    t: Seq<IndexV>,
    copy: CopyV,
    node: NodeV,
)
    requires
        copy.primary,
    ensures
        ruled(
            may_allocate(ctx, t, copy, node),
            "throttling"@,
            if count(on_node(t, node.id), is_initial_primary())
                >= ctx.cluster.node_initial_primaries {
                Decision::Throttle
            } else {
                Decision::Yes
            },
        ),
{
    reveal(may_allocate);
    let vs = may_allocate(ctx, t, copy, node);
    let k = start(node).len() as int;
    assert(vs[k + 11] == throttled(ctx, t, copy, node));
}

/// A replica is put off where its node is filling as many copies as it may, or the
/// node of its primary feeds as many; a replica of an index just created goes by
/// the limit on first replicas both ways.
pub proof fn law_a_node_feeds_and_fills_only_so_many_replicas(
    ctx: CtxV,
    t: Seq<IndexV>,
    copy: CopyV,
    node: NodeV,
)
    requires
        !copy.primary,
    ensures
        ({
            let new = copy.unassigned is Some && copy.unassigned->0.reason == "INDEX_CREATED"@;
            let most_in = if new {
                ctx.cluster.node_initial_replicas
            } else {
                ctx.cluster.node_concurrent_incoming
            };
            let most_out = if new {
                ctx.cluster.node_initial_replicas
            } else {
                ctx.cluster.node_concurrent_outgoing
            };
            let full = count(on_node(t, node.id), is_initializing()) >= most_in;
            let busy = match primary_of(t, copy.index, copy.shard) {
                Some(p) => match p.node {
                    Some(from) => count(all(t), filled_from(t, from)) >= most_out,
                    None => false,
                },
                None => false,
            };
            ruled(
                may_allocate(ctx, t, copy, node),
                "throttling"@,
                if full || busy {
                    Decision::Throttle
                } else {
                    Decision::Yes
                },
            )
        }),
{
    reveal(may_allocate);
    let vs = may_allocate(ctx, t, copy, node);
    let k = start(node).len() as int;
    assert(vs[k + 11] == throttled(ctx, t, copy, node));
}

/// A node that holds as many copies as the index or the cluster lets it hold is
/// refused, and may not be remained on; a limit below nothing is none.
pub proof fn law_a_node_holds_only_so_many_copies(
    ctx: CtxV,
    t: Seq<IndexV>,
    copy: CopyV,
    node: NodeV,
)
    ensures
        ({
            let of_index = ctx.settings_of(copy.index).total_shards_per_node;
            let of_all = ctx.cluster.total_shards_per_node;
            let full = (of_index >= 0 && count(on_node(t, node.id), is_other_of_index(copy))
                >= of_index) || (of_all >= 0 && count(on_node(t, node.id), is_other(copy))
                >= of_all);
            let decision = if full {
                Decision::No
            } else {
                Decision::Yes
            };
            ruled(may_allocate(ctx, t, copy, node), "shards_limit"@, decision) && ruled(
                may_remain(ctx, t, copy, node),
                "shards_limit"@,
                decision,
            )
        }),
{
    reveal(may_allocate);
    reveal(may_remain);
    let vs = may_allocate(ctx, t, copy, node);
    let ws = may_remain(ctx, t, copy, node);
    let k = start(node).len() as int;
    assert(vs[k + 12] == limited(ctx, ctx.settings_of(copy.index), t, copy, node));
    assert(ws[k + 1] == limited(ctx, ctx.settings_of(copy.index), t, copy, node));
}

/// Whether one attribute lets a copy on a node: the node has it, and the copies of
/// the shard whose nodes have the same value, this one with them, are no more than
/// an even share.
pub open spec fn spreads(
    ctx: CtxV,
    t: Seq<IndexV>,
    copy: CopyV,
    node: NodeV,
    attr: Seq<char>,
) -> bool {
    match lookup(node.attributes, attr) {
        None => false,
        Some(zone) => {
            let copies = siblings(t, copy).len();
            let parts = if zones(ctx, attr).len() == 0 {
                1
            } else {
                zones(ctx, attr).len()
            };
            let there = count(siblings(t, copy), other_in_zone(ctx, copy, attr, zone)) + 1;
            (there - 1) * parts < copies
        },
    }
}

proof fn lemma_share(total: nat, parts: nat, there: nat)
    requires
        parts > 0,
    ensures
        there > share(total, parts) <==> !((there - 1) * parts < total),
{
    let q = total / parts;
    let r = total % parts;
    assert(total == q * parts + r && r < parts) by (nonlinear_arith)
        requires
            parts > 0,
            q == total / parts,
            r == total % parts,
    ;
    let m = share(total, parts);
    if there > m {
        if r == 0 {
            assert((there - 1) * parts >= q * parts) by (nonlinear_arith)
                requires
                    there - 1 >= q,
                    parts > 0,
            ;
        } else {
            assert((there - 1) * parts >= (q + 1) * parts) by (nonlinear_arith)
                requires
                    there - 1 >= q + 1,
                    parts > 0,
            ;
            assert((q + 1) * parts == q * parts + parts) by (nonlinear_arith);
        }
    } else {
        if r == 0 {
            assert((there - 1) * parts <= (q - 1) * parts) by (nonlinear_arith)
                requires
                    there - 1 <= q - 1,
                    parts > 0,
            ;
            assert((q - 1) * parts == q * parts - parts) by (nonlinear_arith);
        } else {
            assert((there - 1) * parts <= q * parts) by (nonlinear_arith)
                requires
                    there - 1 <= q,
                    parts > 0,
            ;
        }
    }
}

proof fn lemma_aware(ctx: CtxV, t: Seq<IndexV>, copy: CopyV, node: NodeV, i: nat)
    requires
        i <= ctx.cluster.awareness_attributes.len(),
    ensures
        aware_from(ctx, t, copy, node, i).decider == "awareness"@,
        aware_from(ctx, t, copy, node, i).decision == if forall|j: int|
            i <= j < ctx.cluster.awareness_attributes.len() ==> spreads(
                ctx,
                t,
                copy,
                node,
                #[trigger] ctx.cluster.awareness_attributes[j],
            ) {
            Decision::Yes
        } else {
            Decision::No
        },
    decreases ctx.cluster.awareness_attributes.len() - i,
{
    let attrs = ctx.cluster.awareness_attributes;
    if i < attrs.len() {
        lemma_aware(ctx, t, copy, node, i + 1);
        let attr = attrs[i as int];
        match lookup(node.attributes, attr) {
            None => {
                assert(!spreads(ctx, t, copy, node, attrs[i as int]));
            },
            Some(zone) => {
                let parts = if zones(ctx, attr).len() == 0 {
                    1
                } else {
                    zones(ctx, attr).len()
                };
                let there = count(siblings(t, copy), other_in_zone(ctx, copy, attr, zone)) + 1;
                lemma_share(siblings(t, copy).len(), parts, there);
                if spreads(ctx, t, copy, node, attrs[i as int]) {
                    if forall|j: int|
                        i + 1 <= j < attrs.len() ==> spreads(
                            ctx,
                            t,
                            copy,
                            node,
                            #[trigger] attrs[j],
                        ) {
                        assert forall|j: int| i <= j < attrs.len() implies spreads(
                            ctx,
                            t,
                            copy,
                            node,
                            #[trigger] attrs[j],
                        ) by {}
                    }
                }
            },
        }
    }
}

/// Where the cluster is aware of attributes, a node is refused that lacks one of
/// them, or whose value of one would be that of more than an even share of the
/// shard's copies; where it is aware of none, no node is refused for that.
pub proof fn law_copies_are_spread_over_what_the_cluster_is_aware_of(
    ctx: CtxV,
    t: Seq<IndexV>,
    copy: CopyV,
    node: NodeV,
)
    ensures
        ({
            let attrs = ctx.cluster.awareness_attributes;
            let decision = if forall|j: int|
                0 <= j < attrs.len() ==> spreads(ctx, t, copy, node, #[trigger] attrs[j]) {
                Decision::Yes
            } else {
                Decision::No
            };
            ruled(may_allocate(ctx, t, copy, node), "awareness"@, decision) && ruled(
                may_remain(ctx, t, copy, node),
                "awareness"@,
                decision,
            )
        }),
{
    reveal(may_allocate);
    reveal(may_remain);
    let vs = may_allocate(ctx, t, copy, node);
    let ws = may_remain(ctx, t, copy, node);
    let k = start(node).len() as int;
    assert(vs[k + 13] == aware(ctx, t, copy, node));
    assert(ws[k + 2] == aware(ctx, t, copy, node));
    lemma_aware(ctx, t, copy, node, 0);
}

/// A copy that is leaving counts where it is going, and any other where it is.
pub proof fn law_a_copy_on_the_move_counts_where_it_goes(ctx: CtxV, c: CopyV, attr: Seq<char>)
    ensures
        ({
            let at = if c.state == ShardState::Relocating && c.relocating_node is Some {
                c.relocating_node
            } else {
                c.node
            };
            zone_of(ctx, c, attr) == match at {
                Some(id) => match ctx.node(id) {
                    Some(n) => lookup(n.attributes, attr),
                    None => None,
                },
                None => None,
            }
        }),
{
}

/// A shard moves only while all its copies are active, while the cluster is as
/// settled as it is set to be, while fewer copies are on the move than may be, and
/// where its kind is let.
pub proof fn law_what_lets_a_copy_be_rebalanced(ctx: CtxV, t: Seq<IndexV>, copy: CopyV)
    ensures
        ({
            let vs = may_rebalance(ctx, t, copy);
            let set = match ctx.settings_of(copy.index).rebalance_enable {
                Some(e) => e,
                None => ctx.cluster.rebalance_enable,
            };
            let quiet = forall|j: int|
                0 <= j < siblings(t, copy).len() ==> (#[trigger] siblings(t, copy)[j]).state
                    == ShardState::Started || siblings(t, copy)[j].state == ShardState::Relocating;
            let settled = match ctx.cluster.allow_rebalance {
                AllowRebalance::Always => true,
                AllowRebalance::IndicesPrimariesActive => forall|j: int|
                    0 <= j < all(t).len() && (#[trigger] all(t)[j]).primary ==> all(t)[j].state
                        == ShardState::Started || all(t)[j].state == ShardState::Relocating,
                AllowRebalance::IndicesAllActive => forall|j: int|
                    0 <= j < all(t).len() ==> (#[trigger] all(t)[j]).state == ShardState::Started
                        || all(t)[j].state == ShardState::Relocating,
            };
            let free = count(all(t), is_relocating()) < ctx.cluster.cluster_concurrent_rebalance;
            let let_go = match set {
                RebalanceEnable::All => true,
                RebalanceEnable::Primaries => copy.primary,
                RebalanceEnable::Replicas => !copy.primary,
                RebalanceEnable::Nothing => false,
            };
            &&& worst(vs) == Decision::Yes <==> quiet && settled && free && let_go
            &&& worst(vs) == Decision::Throttle <==> quiet && settled && !free && let_go
        }),
{
    reveal(may_rebalance);
    let vs = may_rebalance(ctx, t, copy);
    lemma_refused(vs);
    assert(vs[0] == shard_settled(t, copy));
    assert(vs[1] == cluster_settled(ctx, t));
    assert(vs[2] == concurrent(ctx, t));
    assert(vs[3] == movable(ctx, ctx.settings_of(copy.index), copy));
    assert(vs[4].decision == Decision::Yes);
    assert(vs.len() == 5);
    let s = siblings(t, copy);
    if any(s, is_inactive()) {
        let j = choose|j: int| 0 <= j < s.len() && (is_inactive())(#[trigger] s[j]);
        assert(!s[j].state.active());
    } else {
        assert forall|j: int| 0 <= j < s.len() implies (#[trigger] s[j]).state
            == ShardState::Started || s[j].state == ShardState::Relocating by {
            assert(!(is_inactive())(s[j]));
        }
    }
    let a = all(t);
    if any(a, is_inactive()) {
        let j = choose|j: int| 0 <= j < a.len() && (is_inactive())(#[trigger] a[j]);
        assert(!a[j].state.active());
    } else {
        assert forall|j: int| 0 <= j < a.len() implies (#[trigger] a[j]).state
            == ShardState::Started || a[j].state == ShardState::Relocating by {
            assert(!(is_inactive())(a[j]));
        }
    }
    if any(a, is_unassigned()) {
        let j = choose|j: int| 0 <= j < a.len() && (is_unassigned())(#[trigger] a[j]);
        assert((is_inactive())(a[j]));
        assert(any(a, is_inactive()));
    }
    if any(a, is_inactive_primary()) {
        let j = choose|j: int| 0 <= j < a.len() && (is_inactive_primary())(#[trigger] a[j]);
        assert(!a[j].state.active() && a[j].primary);
    } else {
        assert forall|j: int| 0 <= j < a.len() && (#[trigger] a[j]).primary implies a[j].state
            == ShardState::Started || a[j].state == ShardState::Relocating by {
            assert(!(is_inactive_primary())(a[j]));
        }
    }
}

/// The deciders refuse a node for these reasons and for no others, and put one off
/// only for the recoveries that are under way.
pub proof fn law_why_a_node_is_refused_or_put_off(
    ctx: CtxV,
    t: Seq<IndexV>,
    copy: CopyV,
    node: NodeV,
)
    ensures
        forall|i: int|
            0 <= i < may_allocate(ctx, t, copy, node).len() ==> {
                let v = #[trigger] may_allocate(ctx, t, copy, node)[i];
                &&& v.decision == Decision::No ==> v.decider == "data_role"@ || v.decider
                    == "max_retry"@ || v.decider == "replica_after_primary_active"@ || v.decider
                    == "enable"@ || v.decider == "filter"@ || v.decider == "same_shard"@
                    || v.decider == "shards_limit"@ || v.decider == "awareness"@
                &&& v.decision == Decision::Throttle ==> v.decider == "throttling"@
            },
        forall|i: int|
            0 <= i < may_remain(ctx, t, copy, node).len() ==> {
                let v = #[trigger] may_remain(ctx, t, copy, node)[i];
                v.decision != Decision::Yes ==> v.decision == Decision::No && (v.decider
                    == "data_role"@ || v.decider == "filter"@ || v.decider == "shards_limit"@
                    || v.decider == "awareness"@)
            },
{
    lemma_aware(ctx, t, copy, node, 0);
    lemma_reasons(ctx, t, copy, node);
    lemma_reasons_to_leave(ctx, t, copy, node);
}

spec fn fair(v: VerdictV) -> bool {
    &&& v.decision == Decision::No ==> v.decider == "data_role"@ || v.decider == "max_retry"@
        || v.decider == "replica_after_primary_active"@ || v.decider == "enable"@ || v.decider
        == "filter"@ || v.decider == "same_shard"@ || v.decider == "shards_limit"@ || v.decider
        == "awareness"@
    &&& v.decision == Decision::Throttle ==> v.decider == "throttling"@
}

proof fn lemma_reasons(ctx: CtxV, t: Seq<IndexV>, copy: CopyV, node: NodeV)
    requires
        fair(aware_from(ctx, t, copy, node, 0)),
    ensures
        forall|i: int|
            0 <= i < may_allocate(ctx, t, copy, node).len() ==> fair(
                #[trigger] may_allocate(ctx, t, copy, node)[i],
            ),
{
    reveal(may_allocate);
    let vs = may_allocate(ctx, t, copy, node);
    let is = ctx.settings_of(copy.index);
    let k = start(node).len() as int;
    assert(k == 1 ==> vs[0] == no_data(node));
    assert(vs[k] == retry(is, copy));
    assert(vs[k + 1] == after_primary(t, copy));
    assert(vs[k + 2].decision == Decision::Yes);
    assert(vs[k + 3] == enabled(ctx, is, copy));
    assert(vs[k + 4].decision == Decision::Yes);
    assert(vs[k + 5].decision == Decision::Yes);
    assert(vs[k + 6].decision == Decision::Yes);
    assert(vs[k + 7] == filtered(ctx, is, node));
    assert(vs[k + 8].decision == Decision::Yes);
    assert(vs[k + 9] == same_shard(t, copy, node));
    assert(vs[k + 10].decision == Decision::Yes);
    assert(vs[k + 11] == throttled(ctx, t, copy, node));
    assert(vs[k + 12] == limited(ctx, is, t, copy, node));
    assert(vs[k + 13] == aware(ctx, t, copy, node));
    assert(vs[k + 14].decision == Decision::Yes);
    assert(vs[k + 15].decision == Decision::Yes);
    assert(vs[k + 16].decision == Decision::Yes);
    assert(fair(retry(is, copy)));
    assert(fair(after_primary(t, copy)));
    assert(fair(enabled(ctx, is, copy)));
    assert(fair(filtered(ctx, is, node)));
    assert(fair(same_shard(t, copy, node)));
    assert(fair(throttled(ctx, t, copy, node)));
    assert(fair(limited(ctx, is, t, copy, node)));
    assert(fair(aware(ctx, t, copy, node)));
    assert(vs.len() == k + 17);
}

proof fn lemma_reasons_to_leave(ctx: CtxV, t: Seq<IndexV>, copy: CopyV, node: NodeV)
    requires
        aware_from(ctx, t, copy, node, 0).decider == "awareness"@,
        aware_from(ctx, t, copy, node, 0).decision != Decision::Throttle,
    ensures
        forall|i: int|
            0 <= i < may_remain(ctx, t, copy, node).len() ==> {
                let v = #[trigger] may_remain(ctx, t, copy, node)[i];
                v.decision != Decision::Yes ==> v.decision == Decision::No && (v.decider
                    == "data_role"@ || v.decider == "filter"@ || v.decider == "shards_limit"@
                    || v.decider == "awareness"@)
            },
{
    reveal(may_remain);
    let vs = may_remain(ctx, t, copy, node);
    let is = ctx.settings_of(copy.index);
    let k = start(node).len() as int;
    assert(k == 1 ==> vs[0] == no_data(node));
    assert(vs[k] == filtered(ctx, is, node));
    assert(vs[k + 1] == limited(ctx, is, t, copy, node));
    assert(vs[k + 2] == aware(ctx, t, copy, node));
    assert(vs[k + 3].decision == Decision::Yes);
    assert(vs.len() == k + 4);
}

} // verus!
