//! What the commands that move copies by hand do, and what they refuse.

use vstd::prelude::*;

use crate::cluster::commands::{
    accept, allocate_command, allocate_on, answer, cancel_command, cancel_on, cancelled, commanded,
    decision_json, filled_on, forced_on, move_between, move_command, refuse, resolved, shard_text,
    verdicts_json, waiting_in, CommandsV,
};
use crate::cluster::deciders::{may_allocate, worst, Decision, VerdictV};
use crate::cluster::reports::leaves;
use crate::cluster::settings::CtxV;
use crate::cluster::state::{shards_of, CopyV, InfoV, NodeV, ShardState};
use crate::json::{text_member, whole_member, JsonV};
use crate::list::{any, find, lemma_find, lemma_found};

verus! {

/// A node goes by its id, its name or the address it is reached at, and a name that is
/// none of these is no node's.
pub proof fn law_what_a_node_goes_by(ctx: CtxV, name: Seq<char>, k: int)
    requires
        0 <= k < ctx.nodes.len(),
    ensures
        name == ctx.nodes[k].id || name == ctx.nodes[k].name || name
            == ctx.nodes[k].transport_address ==> resolved(ctx, name) is Some,
        resolved(ctx, name) matches Some(n) ==> n.id == name || n.name == name
            || n.transport_address == name,
{
    let p = crate::cluster::commands::goes_by(name);
    lemma_found(ctx.nodes, p);
    if name == ctx.nodes[k].id || name == ctx.nodes[k].name || name
        == ctx.nodes[k].transport_address {
        assert(p(ctx.nodes[k]));
    }
}

/// A command that is refused fails with its reason; where it was to be explained it is
/// answered with a NO and the reason instead. Either way nothing is changed.
pub proof fn law_a_refusal_changes_nothing(
    st: CommandsV,
    name: Seq<char>,
    params: JsonV,
    message: Seq<char>,
)
    ensures
        refuse(st, name, params, message, false) == Err::<CommandsV, Seq<char>>(message),
        refuse(st, name, params, message, true) matches Ok(after) && after.t == st.t && after.ids
            == st.ids && after.said == st.said.push(
            answer(
                name,
                params,
                seq![decision_json(name + " (allocation command)"@, "NO"@, message)],
            ),
        ),
{
}

/// A command that is done is answered with the verdicts it was done on, or with a bare
/// YES where there were none, and only where it was to be explained.
pub proof fn law_a_command_that_is_done_is_answered(
    st: CommandsV,
    name: Seq<char>,
    params: JsonV,
    vs: Seq<VerdictV>,
)
    ensures
        accept(st, name, params, vs, false) == st,
        accept(st, name, params, vs, true).t == st.t,
        accept(st, name, params, vs, true).ids == st.ids,
        accept(st, name, params, vs, true).said == st.said.push(
            answer(
                name,
                params,
                if vs.len() > 0 {
                    verdicts_json(vs)
                } else {
                    seq![
                        decision_json(
                            name + " (allocation command)"@,
                            "YES"@,
                            "explanation not available"@,
                        ),
                    ]
                },
            ),
        ),
{
}

/// A command that is none of those known, or is no command at all, is refused.
pub proof fn law_an_unknown_command_is_refused(
    ctx: CtxV,
    st: CommandsV,
    name: Seq<char>,
    args: JsonV,
    rest: Seq<(Seq<char>, JsonV)>,
    explain: bool,
)
    requires
        name != "move"@,
        name != "cancel"@,
        name != "allocate_replica"@,
        name != "allocate_empty_primary"@,
        name != "allocate_stale_primary"@,
    ensures
        commanded(ctx, st, JsonV::Object(seq![(name, args)] + rest), explain) == Err::<
            CommandsV,
            Seq<char>,
        >("["@ + name + "] is not a known allocation command"@),
        commanded(ctx, st, JsonV::Object(Seq::empty()), explain) == Err::<CommandsV, Seq<char>>(
            "commands must be objects with one command each"@,
        ),
        commanded(ctx, st, JsonV::Text(name), explain) == Err::<CommandsV, Seq<char>>(
            "commands must be objects with one command each"@,
        ),
{
    let o = seq![(name, args)] + rest;
    assert(o[0] == (name, args));
}

/// A command that names a node the cluster does not have is refused, and says which.
pub proof fn law_a_command_on_an_unknown_node_is_refused(
    ctx: CtxV,
    st: CommandsV,
    args: JsonV,
    name: Seq<char>,
)
    ensures
        ({
            let from = text_member(args, "from_node"@);
            let to = text_member(args, "to_node"@);
            let on = text_member(args, "node"@);
            &&& resolved(ctx, from) is None ==> move_command(ctx, st, "move"@, args, false) == Err::<
                CommandsV,
                Seq<char>,
            >("failed to resolve ["@ + from + "], no matching nodes"@)
            &&& resolved(ctx, from) is Some && resolved(ctx, to) is None ==> move_command(
                ctx,
                st,
                "move"@,
                args,
                false,
            ) == Err::<CommandsV, Seq<char>>("failed to resolve ["@ + to + "], no matching nodes"@)
            &&& resolved(ctx, on) is None ==> allocate_command(ctx, st, name, args, false) == Err::<
                CommandsV,
                Seq<char>,
            >("failed to resolve ["@ + on + "], no matching nodes"@)
            &&& resolved(ctx, on) is None ==> cancel_command(ctx, st, "cancel"@, args, false)
                == Err::<CommandsV, Seq<char>>(
                "failed to resolve ["@ + on + "], no matching nodes"@,
            )
        }),
{
}

/// A copy is moved only where it is started on the node it is moved from and no decider
/// refuses the other: whatever is not, or is refused, is left as it was.
pub proof fn law_only_a_started_copy_is_moved(
    ctx: CtxV,
    st: CommandsV,
    name: Seq<char>,
    index: Seq<char>,
    shard: u32,
    from: NodeV,
    to: NodeV,
    params: JsonV,
)
    requires
        forall|j: int|
            0 <= j < shards_of(st.t, index).len() ==> !((#[trigger] shards_of(st.t, index)[j]).shard
                == shard && shards_of(st.t, index)[j].relocating_node == Some(to.id) && shards_of(
                st.t,
                index,
            )[j].node == Some(from.id)),
    ensures
        ({
            let here = shards_of(st.t, index);
            let r = move_between(ctx, st, name, index, shard, from, to, params, false);
            &&& (forall|j: int|
                0 <= j < here.len() ==> !((#[trigger] here[j]).shard == shard && here[j].node
                    == Some(from.id))) ==> r is Err
            &&& forall|j: int|
                #![trigger here[j]]
                0 <= j < here.len() && here[j].shard == shard && here[j].node == Some(from.id) && (
                forall|i: int|
                    0 <= i < j ==> !((#[trigger] here[i]).shard == shard && here[i].node == Some(
                        from.id,
                    ))) ==> (r is Ok <==> here[j].state == ShardState::Started && worst(
                    may_allocate(ctx, st.t, here[j], to),
                ) != Decision::No)
        }),
{
    let here = shards_of(st.t, index);
    let p = crate::cluster::commands::shard_on(shard, from.id);
    let q = crate::cluster::commands::on_its_way(shard, from.id, to.id);
    lemma_found(here, p);
    assert(!any(here, q)) by {
        if any(here, q) {
            let j = choose|j: int| 0 <= j < here.len() && q(#[trigger] here[j]);
            assert(here[j].relocating_node == Some(to.id));
        }
    }
    assert forall|j: int|
        #![trigger here[j]]
        0 <= j < here.len() && here[j].shard == shard && here[j].node == Some(from.id) && (forall|
            i: int,
        |
            0 <= i < j ==> !((#[trigger] here[i]).shard == shard && here[i].node == Some(
                from.id,
            ))) implies find(here, p) == j by {
        lemma_find(here, p, j);
    }
}

/// A move that is under way already is not made again.
pub proof fn law_a_move_under_way_is_not_made_again(
    ctx: CtxV,
    st: CommandsV,
    name: Seq<char>,
    index: Seq<char>,
    shard: u32,
    from: NodeV,
    to: NodeV,
    params: JsonV,
    j: int,
)
    requires
        0 <= j < shards_of(st.t, index).len(),
        shards_of(st.t, index)[j].shard == shard,
        shards_of(st.t, index)[j].node == Some(from.id),
        shards_of(st.t, index)[j].relocating_node == Some(to.id),
    ensures
        move_between(ctx, st, name, index, shard, from, to, params, false) == Ok::<
            CommandsV,
            Seq<char>,
        >(st),
{
    let q = crate::cluster::commands::on_its_way(shard, from.id, to.id);
    assert(q(shards_of(st.t, index)[j]));
}

/// An empty primary, or a stale one, is forced only where the loss of data is accepted,
/// in so many words; a replica needs no such word.
pub proof fn law_a_forced_primary_needs_the_loss_to_be_accepted(
    ctx: CtxV,
    st: CommandsV,
    args: JsonV,
    name: Seq<char>,
)
    requires
        resolved(ctx, text_member(args, "node"@)) is Some,
    ensures
        ({
            let index = text_member(args, "index"@);
            let shard = whole_member(args, "shard"@) as u32;
            let node = resolved(ctx, text_member(args, "node"@))->0;
            let params = JsonV::Object(
                crate::cluster::commands::node_params(index, shard, text_member(args, "node"@)),
            );
            &&& name != "allocate_replica"@ && crate::json::member(args, "accept_data_loss"@)
                != Some(JsonV::Bool(true)) ==> allocate_command(ctx, st, name, args, false) == Err::<
                CommandsV,
                Seq<char>,
            >(
                "["@ + name + "] allocating an empty primary for "@ + shard_text(index, shard)
                    + " can result in data loss. Please confirm by setting the accept_data_loss parameter to true"@,
            )
            &&& name != "allocate_replica"@ && crate::json::member(args, "accept_data_loss"@)
                == Some(JsonV::Bool(true)) ==> allocate_command(ctx, st, name, args, false)
                == allocate_on(ctx, st, name, index, shard, true, node, params, false)
            &&& name == "allocate_replica"@ ==> allocate_command(ctx, st, name, args, false)
                == allocate_on(ctx, st, name, index, shard, false, node, params, false)
        }),
{
}

/// A copy that is placed by hand is filled on the node it was placed on, under an id of
/// its own; a primary says that it was forced, and a replica goes on saying why it had
/// no place.
pub proof fn law_a_copy_placed_by_hand_is_filled(
    c: CopyV,
    node: Seq<char>,
    id: Seq<char>,
    primary: bool,
)
    ensures
        ({
            let p = forced_on(c, node, id, primary);
            &&& p.state == ShardState::Initializing
            &&& p.node == Some(node)
            &&& p.allocation_id == Some(id)
            &&& p.index == c.index && p.shard == c.shard && p.primary == c.primary
                && p.relocating_node == c.relocating_node
            &&& c.unassigned matches Some(u) ==> p.unassigned == Some(
                InfoV {
                    delayed: false,
                    reason: if primary {
                        "FORCED_EMPTY_PRIMARY"@
                    } else {
                        u.reason
                    },
                    ..u
                },
            )
            &&& c.unassigned is None ==> p.unassigned is None
        }),
{
}

/// A copy is placed by hand only where one of its kind waits for a place and no decider
/// refuses the node.
pub proof fn law_only_a_waiting_copy_is_placed_by_hand(
    ctx: CtxV,
    st: CommandsV,
    name: Seq<char>,
    index: Seq<char>,
    shard: u32,
    primary: bool,
    node: NodeV,
    params: JsonV,
)
    ensures
        ({
            let here = shards_of(st.t, index);
            let r = allocate_on(ctx, st, name, index, shard, primary, node, params, false);
            &&& (forall|j: int|
                0 <= j < here.len() ==> !((#[trigger] here[j]).shard == shard && here[j].primary
                    == primary && here[j].state == ShardState::Unassigned)) ==> r == Err::<
                CommandsV,
                Seq<char>,
            >(
                "["@ + name + "] "@ + (if primary {
                    "primary"@
                } else {
                    "replica"@
                }) + " "@ + shard_text(index, shard) + " is already assigned"@,
            )
            &&& forall|j: int|
                #![trigger here[j]]
                0 <= j < here.len() && here[j].shard == shard && here[j].primary == primary
                    && here[j].state == ShardState::Unassigned && (forall|i: int|
                    0 <= i < j ==> !((#[trigger] here[i]).shard == shard && here[i].primary
                        == primary && here[i].state == ShardState::Unassigned)) ==> (r is Ok
                    <==> worst(may_allocate(ctx, st.t, here[j], node)) != Decision::No)
        }),
{
    let here = shards_of(st.t, index);
    let p = waiting_in(shard, primary);
    lemma_found(here, p);
    assert forall|j: int|
        #![trigger here[j]]
        0 <= j < here.len() && here[j].shard == shard && here[j].primary == primary && here[j].state
            == ShardState::Unassigned && (forall|i: int|
            0 <= i < j ==> !((#[trigger] here[i]).shard == shard && here[i].primary == primary
                && here[i].state == ShardState::Unassigned)) implies find(here, p) == j by {
        lemma_find(here, p, j);
    }
}

/// What is cancelled on a node has to be there, and a primary is cancelled only where
/// that is let in so many words.
pub proof fn law_a_primary_is_cancelled_only_where_that_is_let(
    ctx: CtxV,
    st: CommandsV,
    name: Seq<char>,
    index: Seq<char>,
    shard: u32,
    allow_primary: bool,
    node: NodeV,
    params: JsonV,
)
    ensures
        ({
            let here = shards_of(st.t, index);
            let r = cancel_on(ctx, st, name, index, shard, allow_primary, node, params, false);
            &&& (forall|j: int|
                0 <= j < here.len() ==> !((#[trigger] here[j]).shard == shard && here[j].node
                    == Some(node.id))) ==> r is Err
            &&& forall|j: int|
                #![trigger here[j]]
                0 <= j < here.len() && here[j].shard == shard && here[j].node == Some(node.id) && (
                forall|i: int|
                    0 <= i < j ==> !((#[trigger] here[i]).shard == shard && here[i].node == Some(
                        node.id,
                    ))) ==> (r is Err <==> here[j].primary && !allow_primary)
        }),
{
    let here = shards_of(st.t, index);
    let p = crate::cluster::commands::shard_on(shard, node.id);
    lemma_found(here, p);
    assert forall|j: int|
        #![trigger here[j]]
        0 <= j < here.len() && here[j].shard == shard && here[j].node == Some(node.id) && (forall|
            i: int,
        |
            0 <= i < j ==> !((#[trigger] here[i]).shard == shard && here[i].node == Some(
                node.id,
            ))) implies find(here, p) == j by {
        lemma_find(here, p, j);
    }
}

/// A copy that is cancelled where it neither moves nor arrives has no place any more,
/// and says that it was cancelled; one that was arriving is gone; one that was leaving
/// is started where it is.
pub proof fn law_what_is_cancelled_loses_its_place(copies: Seq<CopyV>, pos: int, now: u64)
    requires
        0 <= pos < copies.len(),
    ensures
        ({
            let c = copies[pos];
            let after = cancelled(copies, pos, c, now);
            &&& c.state == ShardState::Started || (c.state == ShardState::Initializing
                && c.relocating_node is None) ==> after == copies.update(
                pos,
                CopyV {
                    state: ShardState::Unassigned,
                    node: None,
                    relocating_node: None,
                    allocation_id: None,
                    unassigned: Some(
                        InfoV {
                            reason: "REROUTE_CANCELLED"@,
                            at: now,
                            delayed: false,
                            status: "no_attempt"@,
                            failed: 0,
                            details: None,
                        },
                    ),
                    ..c
                },
            )
            &&& c.state == ShardState::Initializing && c.relocating_node is Some ==> after.len()
                == copies.len() - 1
            &&& c.state == ShardState::Relocating ==> after.contains(
                CopyV { state: ShardState::Started, relocating_node: None, ..c },
            )
        }),
{
    let c = copies[pos];
    let rest = copies.remove(pos);
    lemma_found(rest, leaves(c.relocating_node));
    if c.state == ShardState::Relocating {
        let stays = CopyV { state: ShardState::Started, relocating_node: None, ..c };
        let back = copies.update(pos, stays);
        let t = find(back, filled_on(c.relocating_node));
        lemma_found(back, filled_on(c.relocating_node));
        let after = cancelled(copies, pos, c, now);
        if t < back.len() {
            assert(t != pos);
            if pos < t {
                assert(after[pos] == stays);
            } else {
                assert(after[pos - 1] == stays);
            }
        } else {
            assert(after[pos] == stays);
        }
    }
}

} // verus!
