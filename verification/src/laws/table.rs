//! What becomes of a copy: placed, lost, handed over, started, failed.

use vstd::prelude::*;

use crate::cluster::balance::{ranking};
use crate::cluster::deciders::{may_allocate, worst, Decision};
use crate::cluster::departures::{
    called_off, eligible, in_sync_of, is_lost_primary, lose, lost, orphan, succeeded, taken_over,
    LeftV,
};
use crate::cluster::placement::{
    best_from, has_place, holds_in_sync, in_sync_or_none, keeps, placed, settled, uuid_of,
};
use crate::cluster::reports::{failed, forgiven, primaries_first, stale, started};
use crate::cluster::settings::{CtxV, SettingsV};
use crate::cluster::state::{health, CopyV, IdsV, IndexV, InfoV, MetaV, ShardState};
use crate::cluster::sync::{new_primary, new_replica, with_primary};
use crate::cluster::work::{put_on, staying, WorkV};
use crate::laws::words::law_what_passes_is_kept;
use crate::list::{any, find, keep, lemma_find, lemma_found, lookup};

verus! {

// ---- health --------------------------------------------------------------------

/// A shard is red while a primary of it is not active, green while every copy of it
/// is, and yellow in between.
pub proof fn law_the_health_of_a_shard(copies: Seq<CopyV>)
    ensures
        (exists|j: int|
            0 <= j < copies.len() && (#[trigger] copies[j]).primary && (copies[j].state
                == ShardState::Unassigned || copies[j].state == ShardState::Initializing))
            ==> health(copies) == "red"@,
        (forall|j: int|
            0 <= j < copies.len() ==> (#[trigger] copies[j]).state == ShardState::Started
                || copies[j].state == ShardState::Relocating) ==> health(copies) == "green"@,
        (forall|j: int|
            0 <= j < copies.len() && (#[trigger] copies[j]).primary ==> copies[j].state
                == ShardState::Started || copies[j].state == ShardState::Relocating) && (exists|j: int|
            0 <= j < copies.len() && ((#[trigger] copies[j]).state == ShardState::Unassigned
                || copies[j].state == ShardState::Initializing)) ==> health(copies) == "yellow"@,
{
    if exists|j: int|
        0 <= j < copies.len() && (#[trigger] copies[j]).primary && (copies[j].state
            == ShardState::Unassigned || copies[j].state == ShardState::Initializing) {
        let j = choose|j: int|
            0 <= j < copies.len() && (#[trigger] copies[j]).primary && (copies[j].state
                == ShardState::Unassigned || copies[j].state == ShardState::Initializing);
        assert(copies[j].primary && !copies[j].state.active());
    }
    if exists|j: int|
        0 <= j < copies.len() && ((#[trigger] copies[j]).state == ShardState::Unassigned
            || copies[j].state == ShardState::Initializing) {
        let j = choose|j: int|
            0 <= j < copies.len() && ((#[trigger] copies[j]).state == ShardState::Unassigned
                || copies[j].state == ShardState::Initializing);
        assert(!copies[j].state.active());
    }
}

/// A copy is called by the word for its state, and is active once it is started and
/// for as long as it moves.
pub proof fn law_the_words_for_states()
    ensures
        ShardState::Unassigned.name() == "UNASSIGNED"@ && !ShardState::Unassigned.active(),
        ShardState::Initializing.name() == "INITIALIZING"@ && !ShardState::Initializing.active(),
        ShardState::Started.name() == "STARTED"@ && ShardState::Started.active(),
        ShardState::Relocating.name() == "RELOCATING"@ && ShardState::Relocating.active(),
{
}

/// Where a copy is filled from: a replica, and whatever moves, from the primary; a
/// primary of an index just created from nothing; any other from what is on the disk.
pub proof fn law_where_a_copy_is_filled_from(c: CopyV)
    ensures
        c.state == ShardState::Started || c.state == ShardState::Relocating ==> c.source() is None,
        (c.state == ShardState::Unassigned || c.state == ShardState::Initializing) && (!c.primary
            || c.relocating_node is Some) ==> c.source() == Some("PEER"@),
        (c.state == ShardState::Unassigned || c.state == ShardState::Initializing) && c.primary
            && c.relocating_node is None && (c.unassigned matches Some(u) && u.reason
            == "INDEX_CREATED"@) ==> c.source() == Some("EMPTY_STORE"@),
        (c.state == ShardState::Unassigned || c.state == ShardState::Initializing) && c.primary
            && c.relocating_node is None && (c.unassigned matches Some(u) && u.reason
            != "INDEX_CREATED"@) ==> c.source() == Some("EXISTING_STORE"@),
{
}

// ---- placing -------------------------------------------------------------------

/// A copy that is given a place is filled there, under an id of its own, and waits no
/// longer; why it had none is kept.
pub proof fn law_a_copy_that_is_placed_is_filled(c: CopyV, node: Seq<char>, id: Seq<char>)
    ensures
        ({
            let p = put_on(c, node, id);
            &&& p.state == ShardState::Initializing
            &&& p.node == Some(node)
            &&& p.relocating_node is None
            &&& p.allocation_id == Some(id)
            &&& p.index == c.index && p.shard == c.shard && p.primary == c.primary
            &&& c.unassigned matches Some(u) ==> p.unassigned == Some(InfoV { delayed: false, ..u })
            &&& c.unassigned is None ==> p.unassigned is None
        }),
{
}

/// A copy that waits for a node that left goes on waiting until its time has come, and
/// the time is kept so that the table is looked at again by then.
pub proof fn law_a_delayed_copy_waits_its_time(ctx: CtxV, w: WorkV, at: (usize, usize, usize))
    requires
        has_place(w.t, at),
        ({
            let c = w.t[at.0 as int].shards[at.1 as int][at.2 as int];
            &&& !c.primary
            &&& c.unassigned is Some
            &&& c.unassigned->0.delayed
            &&& ctx.now < c.unassigned->0.at + ctx.settings_of(
                w.t[at.0 as int].name,
            ).delayed_timeout <= u64::MAX
        }),
    ensures
        placed(ctx, w, at).t == w.t,
        placed(ctx, w, at).ids == w.ids,
        ({
            let c = w.t[at.0 as int].shards[at.1 as int][at.2 as int];
            let until = c.unassigned->0.at + ctx.settings_of(
                w.t[at.0 as int].name,
            ).delayed_timeout;
            match w.ch.next_delay_at {
                None => placed(ctx, w, at).ch.next_delay_at == Some(until as u64),
                Some(d) => placed(ctx, w, at).ch.next_delay_at == Some(
                    if d <= until {
                        d
                    } else {
                        until as u64
                    },
                ),
            }
        }),
{
}

proof fn lemma_best_none(
    ctx: CtxV,
    t: Seq<IndexV>,
    c: CopyV,
    r: Seq<crate::cluster::balance::RankedV>,
    i: nat,
)
    ensures
        ({
            let (best, throttled) = best_from(ctx, t, c, r, i);
            best is None ==> {
                &&& forall|k: int|
                    i <= k < r.len() ==> worst(may_allocate(ctx, t, c, (#[trigger] r[k]).node))
                        != Decision::Yes
                &&& throttled <==> exists|k: int|
                    i <= k < r.len() && worst(may_allocate(ctx, t, c, (#[trigger] r[k]).node))
                        == Decision::Throttle
            }
        }),
        best_from(ctx, t, c, r, i).0 matches Some(node) ==> worst(may_allocate(ctx, t, c, node))
            == Decision::Yes,
    decreases r.len() - i,
{
    if i < r.len() {
        lemma_best_none(ctx, t, c, r, i + 1);
        let d = worst(may_allocate(ctx, t, c, r[i as int].node));
        if d == Decision::Throttle {
            assert(worst(may_allocate(ctx, t, c, r[i as int].node)) == Decision::Throttle);
        }
    }
}

/// A copy that waits for nothing is given a place wherever a node takes it. Where none
/// does it stays as it is and says why: a node put it off, or it is a replica or there
/// is no node for data, or it is a primary that every node refuses; a primary of which
/// no copy is left goes on saying that.
pub proof fn law_a_copy_is_placed_or_says_why_not(ctx: CtxV, w: WorkV, at: (usize, usize, usize))
    requires
        has_place(w.t, at),
    ensures
        ({
            let name = w.t[at.0 as int].name;
            let c = w.t[at.0 as int].shards[at.1 as int][at.2 as int];
            let r = ranking(ctx, w.t, name);
            let now = settled(ctx, w, at).t[at.0 as int].shards[at.1 as int][at.2 as int];
            let taken = exists|k: int|
                0 <= k < r.len() && worst(may_allocate(ctx, w.t, c, (#[trigger] r[k]).node))
                    == Decision::Yes;
            let put_off = exists|k: int|
                0 <= k < r.len() && worst(may_allocate(ctx, w.t, c, (#[trigger] r[k]).node))
                    == Decision::Throttle;
            &&& taken ==> now.state == ShardState::Initializing && now.allocation_id == Some(
                w.ids.id(),
            )
            &&& !taken ==> now.state == c.state && now.node == c.node && now.allocation_id
                == c.allocation_id && now.primary == c.primary
            &&& !taken && c.unassigned is Some ==> {
                &&& now.unassigned is Some
                &&& !now.unassigned->0.delayed
                &&& now.unassigned->0.reason == c.unassigned->0.reason
                &&& now.unassigned->0.at == c.unassigned->0.at
                &&& now.unassigned->0.failed == c.unassigned->0.failed
                &&& now.unassigned->0.status == if put_off {
                    "throttled"@
                } else if !c.primary || ctx.data_nodes().len() == 0 {
                    "no_attempt"@
                } else if c.unassigned->0.status == "no_valid_shard_copy"@ {
                    "no_valid_shard_copy"@
                } else {
                    "deciders_no"@
                }
            }
        }),
{
    let name = w.t[at.0 as int].name;
    let c = w.t[at.0 as int].shards[at.1 as int][at.2 as int];
    let r = ranking(ctx, w.t, name);
    lemma_best_none(ctx, w.t, c, r, 0);
    lemma_best_found(ctx, w.t, c, r, 0);
}

proof fn lemma_best_found(
    ctx: CtxV,
    t: Seq<IndexV>,
    c: CopyV,
    r: Seq<crate::cluster::balance::RankedV>,
    i: nat,
)
    ensures
        best_from(ctx, t, c, r, i).0 is Some ==> exists|k: int|
            i <= k < r.len() && worst(may_allocate(ctx, t, c, (#[trigger] r[k]).node))
                == Decision::Yes,
    decreases r.len() - i,
{
    if i < r.len() {
        lemma_best_found(ctx, t, c, r, i + 1);
        if worst(may_allocate(ctx, t, c, r[i as int].node)) == Decision::Yes {
            assert(worst(may_allocate(ctx, t, c, r[i as int].node)) == Decision::Yes);
        }
    }
}

/// A primary whose data was on a node that left is placed back on a node that holds a
/// copy in sync and takes it; while there is none, it waits and says that no valid copy
/// is left.
pub proof fn law_a_lost_primary_is_placed_back(ctx: CtxV, w: WorkV, at: (usize, usize, usize))
    requires
        has_place(w.t, at),
        ({
            let c = w.t[at.0 as int].shards[at.1 as int][at.2 as int];
            &&& c.primary
            &&& c.unassigned is Some
            &&& c.unassigned->0.reason != "INDEX_CREATED"@
            &&& c.unassigned->0.reason != "FORCED_EMPTY_PRIMARY"@
        }),
    ensures
        ({
            let name = w.t[at.0 as int].name;
            let c = w.t[at.0 as int].shards[at.1 as int][at.2 as int];
            let now = placed(ctx, w, at).t[at.0 as int].shards[at.1 as int][at.2 as int];
            let held = exists|k: int|
                0 <= k < ctx.data_nodes().len() && holds_in_sync(
                    ctx,
                    (#[trigger] ctx.data_nodes()[k]).id,
                    name,
                    uuid_of(ctx, name),
                    in_sync_or_none(ctx, name, at.1 as u32),
                ) && worst(may_allocate(ctx, w.t, c, ctx.data_nodes()[k])) == Decision::Yes;
            &&& held ==> now.state == ShardState::Initializing && now.primary
            &&& !held ==> now.state == c.state && now.node == c.node && now.unassigned == Some(
                InfoV { status: "no_valid_shard_copy"@, ..c.unassigned->0 },
            )
        }),
{
    let name = w.t[at.0 as int].name;
    let c = w.t[at.0 as int].shards[at.1 as int][at.2 as int];
    let data = ctx.data_nodes();
    let p = keeps(ctx, w.t, c, name, at.1 as u32);
    lemma_found(data, p);
    let i = find(data, p);
    if i < data.len() {
        assert(p(data[i]));
    } else {
        assert forall|k: int| 0 <= k < data.len() implies !(holds_in_sync(
            ctx,
            (#[trigger] data[k]).id,
            name,
            uuid_of(ctx, name),
            in_sync_or_none(ctx, name, at.1 as u32),
        ) && worst(may_allocate(ctx, w.t, c, data[k])) == Decision::Yes) by {
            assert(!p(data[k]));
        }
    }
}

// ---- leaving -------------------------------------------------------------------

/// A copy on a node that left has no place, no id and no move to make; that is why,
/// and since now, and a replica waits for the node where its index lets it.
pub proof fn law_a_copy_on_a_node_that_left_is_lost(ctx: CtxV, is: SettingsV, c: CopyV)
    ensures
        lost(ctx, c) <==> c.state != ShardState::Unassigned && c.node is Some && ctx.node(c.node->0)
            is None,
        ({
            let l = lose(ctx, is, c);
            &&& l.state == ShardState::Unassigned
            &&& l.node is None && l.relocating_node is None && l.allocation_id is None
            &&& l.index == c.index && l.shard == c.shard && l.primary == c.primary
            &&& l.unassigned matches Some(u) && u.reason == "NODE_LEFT"@ && u.at == ctx.now
                && u.status == "no_attempt"@ && u.failed == 0 && (u.delayed <==> !c.primary
                && is.delayed_timeout > 0)
        }),
{
}

/// A move to a node that left is called off and its copy stays where it is; what was
/// arriving from a node that left, or at one, is dropped; and nothing else is touched
/// by that.
pub proof fn law_a_move_that_cannot_be_finished_is_called_off(ctx: CtxV, c: CopyV)
    ensures
        c.state == ShardState::Relocating && (c.relocating_node matches Some(to) && ctx.node(to)
            is None) ==> called_off(ctx, c) == (CopyV {
            state: ShardState::Started,
            relocating_node: None,
            ..c
        }),
        c.state == ShardState::Relocating && (c.relocating_node matches Some(to) && ctx.node(to)
            is Some) ==> called_off(ctx, c) == c,
        c.state != ShardState::Relocating ==> called_off(ctx, c) == c,
        orphan(ctx, c) <==> c.state == ShardState::Initializing && c.relocating_node is Some && (
        c.node is None || ctx.node(c.node->0) is None || ctx.node(c.relocating_node->0) is None),
{
}

/// Where the primary of a shard is lost and a replica of it is active on a node and
/// missed nothing, that replica becomes the primary: it is started where it is, stands
/// first, and the copy that was lost is a replica from then on.
pub proof fn law_an_active_replica_takes_over(copies: Seq<CopyV>, lost: int, heir: int)
    requires
        0 <= lost < copies.len(),
        0 <= heir < copies.len(),
        lost != heir,
    ensures
        ({
            let after = taken_over(copies, lost, heir);
            &&& after.len() == copies.len()
            &&& after[0] == (CopyV {
                primary: true,
                state: ShardState::Started,
                relocating_node: None,
                ..copies[heir]
            })
            &&& exists|k: int|
                0 < k < after.len() && #[trigger] after[k] == (CopyV {
                    primary: false,
                    ..copies[lost]
                })
        }),
{
    let after = taken_over(copies, lost, heir);
    if lost == 0 {
        assert(after[heir] == (CopyV { primary: false, ..copies[lost] }));
    } else {
        assert(after[lost] == (CopyV { primary: false, ..copies[lost] }));
    }
}

/// A lost primary is handed over to the first copy that may have it; where none may,
/// and its node left, it says that no valid copy is left.
pub proof fn law_a_lost_primary_is_handed_over(
    ctx: CtxV,
    name: Seq<char>,
    shard: u32,
    left: LeftV,
    p: int,
)
    requires
        0 <= p < left.copies.len(),
        left.copies[p].primary,
        left.copies[p].state == ShardState::Unassigned,
        forall|j: int|
            0 <= j < p ==> !((#[trigger] left.copies[j]).primary && left.copies[j].state
                == ShardState::Unassigned),
    ensures
        ({
            let copies = left.copies;
            let after = succeeded(ctx, name, shard, left);
            let may = |c: CopyV|
                !c.primary && (c.state == ShardState::Started || c.state == ShardState::Relocating)
                    && c.node is Some && c.allocation_id is Some && match in_sync_of(
                    ctx,
                    name,
                    shard,
                ) {
                    Some(known) => known.contains(c.allocation_id->0),
                    None => true,
                };
            &&& (exists|j: int| 0 <= j < copies.len() && may(#[trigger] copies[j])) ==> {
                &&& after.copies[0].primary
                &&& after.copies[0].state == ShardState::Started
                &&& exists|j: int|
                    0 <= j < copies.len() && may(#[trigger] copies[j]) && after.copies[0].node
                        == copies[j].node && after.copies[0].allocation_id
                        == copies[j].allocation_id
                &&& after.ch.promoted.len() == left.ch.promoted.len() + 1
            }
            &&& !(exists|j: int| 0 <= j < copies.len() && may(#[trigger] copies[j])) ==> {
                &&& after.ch.promoted == left.ch.promoted
                &&& after.copies.len() == copies.len()
                &&& copies[p].unassigned is Some && copies[p].unassigned->0.reason == "NODE_LEFT"@
                    ==> after.copies[p].unassigned == Some(
                    InfoV { status: "no_valid_shard_copy"@, ..copies[p].unassigned->0 },
                )
            }
        }),
{
    let copies = left.copies;
    let in_sync = in_sync_of(ctx, name, shard);
    lemma_find(copies, is_lost_primary(), p);
    let q = eligible(in_sync);
    lemma_found(copies, q);
    let r = find(copies, q);
    let may = |c: CopyV|
        !c.primary && (c.state == ShardState::Started || c.state == ShardState::Relocating)
            && c.node is Some && c.allocation_id is Some && match in_sync {
            Some(known) => known.contains(c.allocation_id->0),
            None => true,
        };
    assert forall|j: int| 0 <= j < copies.len() implies may(#[trigger] copies[j]) == q(
        copies[j],
    ) by {}
    if r < copies.len() {
        assert(may(copies[r]));
        law_an_active_replica_takes_over(copies, p, r);
    } else {
        assert forall|j: int| 0 <= j < copies.len() implies !may(#[trigger] copies[j]) by {
            assert(!q(copies[j]));
        }
    }
}

// ---- following the indices -----------------------------------------------------

/// A primary of an index just created has no place yet, since the index was created or
/// now, whichever is later, and has not been tried.
pub proof fn law_a_new_primary_waits_for_a_place(m: MetaV, shard: u32, now: u64)
    ensures
        ({
            let c = new_primary(m, shard, now);
            &&& c.index == m.name && c.shard == shard && c.primary
            &&& c.state == ShardState::Unassigned
            &&& c.node is None && c.relocating_node is None && c.allocation_id is None
            &&& c.unassigned matches Some(u) && u.reason == "INDEX_CREATED"@ && u.at
                >= m.creation_date && u.at >= now && (u.at == now || u.at == m.creation_date)
                && u.failed == 0 && !u.delayed && u.status == "no_attempt"@
        }),
{
}

/// A replica that is wanted has no place yet: it is as new as its index where that is
/// new, and added now where it is not.
pub proof fn law_a_new_replica_waits_for_a_place(m: MetaV, shard: u32, now: u64)
    ensures
        ({
            let c = new_replica(m, shard, now, true);
            let d = new_replica(m, shard, now, false);
            &&& c.index == m.name && c.shard == shard && !c.primary
            &&& c.state == ShardState::Unassigned && c.node is None && c.allocation_id is None
            &&& c.unassigned matches Some(u) && u.reason == "INDEX_CREATED"@ && u.at >= now
                && u.failed == 0 && !u.delayed && u.status == "no_attempt"@
            &&& d == (CopyV { unassigned: d.unassigned, ..c })
            &&& d.unassigned matches Some(u) && u.reason == "REPLICA_ADDED"@ && u.at == now
                && u.failed == 0 && !u.delayed && u.status == "no_attempt"@
        }),
{
}

/// The primary of an index whose home is a node of the cluster starts there, where the
/// documents are there already or no decider refuses it; otherwise it waits for a place
/// like any other.
pub proof fn law_a_primary_starts_at_home(
    ctx: CtxV,
    t: Seq<IndexV>,
    ids: IdsV,
    m: MetaV,
    shard: u32,
    copies: Seq<CopyV>,
)
    requires
        forall|j: int| 0 <= j < copies.len() ==> !(#[trigger] copies[j]).primary,
    ensures
        ({
            let (after, next) = with_primary(ctx, t, ids, m, shard, copies);
            let home = match lookup(ctx.primary_home, m.name) {
                Some(id) => ctx.node(id),
                None => None,
            };
            let goes = home matches Some(node) && (ctx.home_holds_documents.contains(m.name)
                || worst(may_allocate(ctx, t, new_primary(m, shard, ctx.now), node))
                != Decision::No);
            &&& after.len() == copies.len() + 1
            &&& after.skip(1) == copies
            &&& goes ==> after[0] == (CopyV {
                index: m.name,
                shard,
                primary: true,
                state: ShardState::Started,
                node: Some(home->0.id),
                relocating_node: None,
                allocation_id: Some(ids.id()),
                unassigned: None,
            })
            &&& !goes ==> after[0] == new_primary(m, shard, ctx.now) && next == ids
        }),
{
    assert(!any(copies, crate::cluster::sync::is_primary()));
    let (after, next) = with_primary(ctx, t, ids, m, shard, copies);
    assert(after.skip(1) =~= copies);
}

/// A shard that has a primary is given no other.
pub proof fn law_a_shard_has_the_primary_it_has(
    ctx: CtxV,
    t: Seq<IndexV>,
    ids: IdsV,
    m: MetaV,
    shard: u32,
    copies: Seq<CopyV>,
    j: int,
)
    requires
        0 <= j < copies.len(),
        copies[j].primary,
    ensures
        with_primary(ctx, t, ids, m, shard, copies) == (copies, ids),
{
    assert((crate::cluster::sync::is_primary())(copies[j]));
}

// ---- reports -------------------------------------------------------------------

/// A copy that was being filled and is reported started is started, where it was, and
/// nothing says any longer why it had no place; one that is not being filled is not
/// started by a report.
pub proof fn law_a_report_starts_a_copy_that_is_filled(
    copies: Seq<CopyV>,
    id: Seq<char>,
    pos: int,
)
    requires
        0 <= pos < copies.len(),
        copies[pos].allocation_id == Some(id),
        forall|j: int| 0 <= j < pos ==> (#[trigger] copies[j]).allocation_id != Some(id),
    ensures
        copies[pos].state != ShardState::Initializing ==> started(copies, id) is None,
        copies[pos].state == ShardState::Initializing && copies[pos].relocating_node is None ==> {
            &&& started(copies, id) matches Some((after, s)) && s.retired is None && after.contains(
                CopyV { state: ShardState::Started, unassigned: None, ..copies[pos] },
            ) && after.len() == copies.len() && (s.forced_primary <==> copies[pos].primary && (
            copies[pos].unassigned matches Some(u) && u.reason == "FORCED_EMPTY_PRIMARY"@))
        },
{
    lemma_find(copies, crate::cluster::moves::has_id(Some(id)), pos);
    if copies[pos].state == ShardState::Initializing && copies[pos].relocating_node is None {
        let c = copies[pos];
        let up = copies.update(pos, CopyV { unassigned: None, ..staying(c) });
        let now = up[pos];
        assert(now == (CopyV { state: ShardState::Started, unassigned: None, ..c }));
        lemma_primaries_first(up);
        lemma_in_primaries_first(up, pos);
    }
}

proof fn lemma_primaries_first(s: Seq<CopyV>)
    ensures
        primaries_first(s).len() == s.len(),
    decreases s.len(),
{
    let p = crate::cluster::sync::is_primary();
    let r = crate::cluster::sync::is_replica();
    if s.len() > 0 {
        lemma_primaries_first(s.drop_last());
    }
}

proof fn lemma_in_primaries_first(s: Seq<CopyV>, k: int)
    requires
        0 <= k < s.len(),
    ensures
        primaries_first(s).contains(s[k]),
{
    let p = crate::cluster::sync::is_primary();
    let r = crate::cluster::sync::is_replica();
    assert(s.contains(s[k]));
    law_what_passes_is_kept(s, p, s[k]);
    law_what_passes_is_kept(s, r, s[k]);
    if s[k].primary {
        let j = keep(s, p).index_of(s[k]);
        assert(primaries_first(s)[j] == s[k]);
    } else {
        let j = keep(s, r).index_of(s[k]);
        assert(primaries_first(s)[keep(s, p).len() + j] == s[k]);
    }
}

/// A copy that is reported failed has no place any more, says so with what the report
/// said, and has failed once more than before; one that was arriving in a move is
/// dropped instead, and what was leaving stays.
pub proof fn law_a_report_fails_a_copy(
    copies: Seq<CopyV>,
    id: Seq<char>,
    now: u64,
    message: Seq<char>,
    pos: int,
)
    requires
        0 <= pos < copies.len(),
        copies[pos].allocation_id == Some(id),
        forall|j: int| 0 <= j < pos ==> (#[trigger] copies[j]).allocation_id != Some(id),
    ensures
        ({
            let c = copies[pos];
            let before = match c.unassigned {
                Some(u) => u.failed,
                None => 0,
            };
            let arriving = c.state == ShardState::Initializing && c.relocating_node is Some;
            &&& !arriving && before < u64::MAX ==> failed(copies, id, now, message) == Some(
                copies.update(
                    pos,
                    CopyV {
                        state: ShardState::Unassigned,
                        node: None,
                        relocating_node: None,
                        allocation_id: None,
                        unassigned: Some(
                            InfoV {
                                reason: "ALLOCATION_FAILED"@,
                                at: now,
                                delayed: false,
                                status: "no_attempt"@,
                                failed: (before + 1) as u64,
                                details: Some("failed shard on node: "@ + message),
                            },
                        ),
                        ..c
                    },
                ),
            )
            &&& arriving ==> (failed(copies, id, now, message) matches Some(after) && after.len()
                == copies.len() - 1)
        }),
{
    lemma_find(copies, crate::cluster::moves::has_id(Some(id)), pos);
    let rest = copies.remove(pos);
    lemma_found(rest, crate::cluster::reports::leaves(copies[pos].relocating_node));
}

/// A replica that missed an acknowledged write has no place any more, and is no nearer
/// to being given up for it; a primary is not touched by such a report.
pub proof fn law_a_replica_that_missed_a_write_is_taken_off(
    copies: Seq<CopyV>,
    id: Seq<char>,
    now: u64,
)
    ensures
        forall|pos: int|
            #![trigger copies[pos]]
            0 <= pos < copies.len() && copies[pos].allocation_id == Some(id) && !copies[pos].primary
                && (forall|j: int|
                0 <= j < pos ==> (#[trigger] copies[j]).allocation_id != Some(id)) ==> stale(
                copies,
                id,
                now,
            ) == Some(
                copies.update(
                    pos,
                    CopyV {
                        state: ShardState::Unassigned,
                        node: None,
                        relocating_node: None,
                        allocation_id: None,
                        unassigned: Some(
                            InfoV {
                                reason: "REALLOCATED_REPLICA"@,
                                at: now,
                                delayed: false,
                                status: "no_attempt"@,
                                failed: 0,
                                details: Some("the copy did not take an acknowledged write"@),
                            },
                        ),
                        ..copies[pos]
                    },
                ),
            ),
        (forall|j: int|
            0 <= j < copies.len() && (#[trigger] copies[j]).allocation_id == Some(id)
                ==> copies[j].primary) ==> stale(copies, id, now) is None,
{
    let q = crate::cluster::reports::replica_with_id(id);
    assert forall|pos: int|
        #![trigger copies[pos]]
        0 <= pos < copies.len() && copies[pos].allocation_id == Some(id) && !copies[pos].primary && (
        forall|j: int|
            0 <= j < pos ==> (#[trigger] copies[j]).allocation_id != Some(id)) implies find(
        copies,
        q,
    ) == pos by {
        lemma_find(copies, q, pos);
    }
    lemma_found(copies, q);
}

/// A copy that is forgiven has failed no more often than a new one, and is otherwise as
/// it was.
pub proof fn law_a_copy_is_forgiven(c: CopyV)
    ensures
        c.unassigned is None ==> forgiven(c) == c,
        c.unassigned matches Some(u) ==> forgiven(c) == (CopyV {
            unassigned: Some(InfoV { failed: 0, ..u }),
            ..c
        }),
{
}

/// A replica that waits for nothing, or whose time has come, is placed like any other; and so
/// is a primary of an index just created.
pub proof fn law_a_copy_whose_time_has_come_is_placed(
    ctx: CtxV,
    w: WorkV,
    at: (usize, usize, usize),
)
    requires
        has_place(w.t, at),
        ({
            let c = w.t[at.0 as int].shards[at.1 as int][at.2 as int];
            let wait = ctx.settings_of(w.t[at.0 as int].name).delayed_timeout;
            &&& !c.primary || (c.unassigned matches Some(u) && u.reason == "INDEX_CREATED"@)
            &&& c.unassigned matches Some(u) ==> !u.delayed || (u.at + wait <= u64::MAX && ctx.now
                >= u.at + wait)
        }),
    ensures
        placed(ctx, w, at) == settled(ctx, w, at),
{
}

/// The copies that are known to have missed nothing are those kept for the shard by its
/// number, and nothing is known where none are.
pub proof fn law_which_copies_missed_nothing(
    ctx: CtxV,
    name: Seq<char>,
    shard: u32,
    m: MetaV,
    i: int,
)
    requires
        ctx.index(name) == Some(m),
    ensures
        0 <= i < m.in_sync.len() && m.in_sync[i].0 == shard && (forall|j: int|
            0 <= j < i ==> (#[trigger] m.in_sync[j]).0 != shard) ==> in_sync_of(ctx, name, shard)
            == Some(m.in_sync[i].1),
        (forall|j: int| 0 <= j < m.in_sync.len() ==> (#[trigger] m.in_sync[j]).0 != shard)
            ==> in_sync_of(ctx, name, shard) is None,
{
    let p = crate::cluster::departures::of_shard(shard);
    lemma_found(m.in_sync, p);
    if 0 <= i < m.in_sync.len() && m.in_sync[i].0 == shard && (forall|j: int|
        0 <= j < i ==> (#[trigger] m.in_sync[j]).0 != shard) {
        lemma_find(m.in_sync, p, i);
    }
}

} // verus!
