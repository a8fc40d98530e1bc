//! `_cluster/reroute` commands: copies moved, allocated and cancelled by hand.

use vstd::prelude::*;

use super::deciders::{can_allocate, may_allocate, overall, worst, Decision, Verdict, VerdictV};
use super::moves::has_id;
use super::reports::{leaves, replaced};
use super::settings::{Context, CtxV};
use super::state::{
    copies_of, copy_copies, is_node, same_node, same_text, shards_of, CopyV, DiscoveryNode, Ids,
    IdsV, IndexV, InfoV, NodeId, NodeV, RoutingTable, ShardRouting, ShardState,
};
use super::work::{
    info, move_copy, moved, set_copies, stay, staying, take_off, taken_off, unassigned_info,
};
use crate::json::{
    field, fields, flag, flag_member, list, no_fields, object, text, text_member, whole,
    whole_member, Json, JsonV, NumberV,
};
use crate::list::{
    any, any_in, find, find_in, keep, keep_in, lemma_take, push_to, put_at, remove_at,
};
use crate::text::{dec, decimal, same};

verus! {

/// What commands work on: the table, the ids of new copies, and what has been
/// said of the commands so far.
#[verifier::ext_equal]
pub struct CommandsV {
    pub t: Seq<IndexV>,
    pub ids: IdsV,
    pub said: Seq<JsonV>,
}

// ---- what a command says -------------------------------------------------------

/// Whether a node goes by a name: its id, its name or its address.
pub open spec fn goes_by(name: Seq<char>) -> spec_fn(NodeV) -> bool {
    |n: NodeV| n.id == name || n.name == name || n.transport_address == name
}

/// The node a name stands for.
pub open spec fn resolved(ctx: CtxV, name: Seq<char>) -> Option<NodeV> {
    let i = find(ctx.nodes, goes_by(name));
    if i < ctx.nodes.len() {
        Some(ctx.nodes[i])
    } else {
        None
    }
}

pub open spec fn unresolved(name: Seq<char>) -> Seq<char> {
    "failed to resolve ["@ + name + "], no matching nodes"@
}

/// A node as messages show it.
pub open spec fn node_shown(n: NodeV) -> Seq<char> {
    "{"@ + n.name + "}{"@ + n.id + "}{"@ + n.ephemeral_id + "}{"@ + n.transport_address + "}"@
}

/// Verdicts as messages show them.
pub open spec fn decisions_shown(vs: Seq<VerdictV>) -> Seq<char>
    decreases vs.len(),
{
    if vs.len() == 0 {
        ""@
    } else {
        decisions_shown(vs.drop_last()) + "["@ + vs.last().decision.name() + "("@
            + vs.last().explanation + ")]"@
    }
}

/// A verdict in an answer.
pub open spec fn decision_json(
    decider: Seq<char>,
    decision: Seq<char>,
    explanation: Seq<char>,
) -> JsonV {
    JsonV::Object(
        no_fields().push(("decider"@, JsonV::Text(decider))).push(
            ("decision"@, JsonV::Text(decision)),
        ).push(("explanation"@, JsonV::Text(explanation))),
    )
}

pub open spec fn verdict_json(v: VerdictV) -> JsonV {
    decision_json(v.decider, v.decision.name(), v.explanation)
}

pub open spec fn verdicts_json(vs: Seq<VerdictV>) -> Seq<JsonV> {
    vs.map_values(|v: VerdictV| verdict_json(v))
}

/// What is said of a command.
pub open spec fn answer(name: Seq<char>, params: JsonV, decisions: Seq<JsonV>) -> JsonV {
    JsonV::Object(
        no_fields().push(("command"@, JsonV::Text(name))).push(("parameters"@, params)).push(
            ("decisions"@, JsonV::List(decisions)),
        ),
    )
}

/// What a refused command comes to: an error, or an explanation where one was
/// asked for. Nothing else changes.
pub open spec fn refuse(
    st: CommandsV,
    name: Seq<char>,
    params: JsonV,
    message: Seq<char>,
    explain: bool,
) -> Result<CommandsV, Seq<char>> {
    if explain {
        Ok(
            CommandsV {
                said: st.said.push(
                    answer(
                        name,
                        params,
                        seq![decision_json(name + " (allocation command)"@, "NO"@, message)],
                    ),
                ),
                ..st
            },
        )
    } else {
        Err(message)
    }
}

/// What an accepted command comes to.
pub open spec fn accept(
    st: CommandsV,
    name: Seq<char>,
    params: JsonV,
    vs: Seq<VerdictV>,
    explain: bool,
) -> CommandsV {
    if explain {
        CommandsV {
            said: st.said.push(
                answer(
                    name,
                    params,
                    if vs.len() == 0 {
                        seq![
                            decision_json(
                                name + " (allocation command)"@,
                                "YES"@,
                                "explanation not available"@,
                            ),
                        ]
                    } else {
                        verdicts_json(vs)
                    },
                ),
            ),
            ..st
        }
    } else {
        st
    }
}

// ---- move ----------------------------------------------------------------------

/// Whether a copy is one of a shard on a node.
pub open spec fn shard_on(shard: u32, node: Seq<char>) -> spec_fn(CopyV) -> bool {
    |c: CopyV| c.shard == shard && c.node == Some(node)
}

/// Whether a copy is on its way from a node to another.
pub open spec fn on_its_way(shard: u32, from: Seq<char>, to: Seq<char>) -> spec_fn(CopyV) -> bool {
    |c: CopyV| c.shard == shard && c.relocating_node == Some(to) && c.node == Some(from)
}

/// Whether a copy is a started one on a node, a primary or a replica as asked.
pub open spec fn started_on(primary: bool, node: Seq<char>) -> spec_fn(CopyV) -> bool {
    |c: CopyV| c.state == ShardState::Started && c.primary == primary && c.node == Some(node)
}

/// The first shards of a list of copies on their way from a node to another.
pub open spec fn moved_shards(
    st: CommandsV,
    index: Seq<char>,
    primary: bool,
    from: Seq<char>,
    to: Seq<char>,
    list: Seq<CopyV>,
    n: nat,
) -> CommandsV
    decreases n,
{
    if n == 0 {
        st
    } else {
        let before = moved_shards(st, index, primary, from, to, list, (n - 1) as nat);
        let shard = list[n - 1].shard;
        let copies = copies_of(before.t, index, shard);
        let pos = find(copies, started_on(primary, from));
        if pos < copies.len() {
            CommandsV {
                t: replaced(
                    before.t,
                    index,
                    shard,
                    Some(moved(copies, pos, index, shard, primary, from, to, before.ids.id())),
                ),
                ids: before.ids.taken(),
                ..before
            }
        } else {
            before
        }
    }
}

pub open spec fn move_params(
    index: Seq<char>,
    shard: u32,
    from: Seq<char>,
    to: Seq<char>,
) -> JsonV {
    JsonV::Object(
        no_fields().push(("index"@, JsonV::Text(index))).push(
            ("shard"@, JsonV::Number(NumberV::Whole(shard as u64))),
        ).push(("from_node"@, JsonV::Text(from))).push(("to_node"@, JsonV::Text(to))),
    )
}

pub open spec fn shard_text(index: Seq<char>, shard: u32) -> Seq<char> {
    "["@ + index + "]["@ + dec(shard as nat) + "]"@
}

/// A move that is allowed: every shard of the copy goes, not the one named
/// alone, since a copy is a copy of the whole index.
pub open spec fn move_allowed(
    ctx: CtxV,
    st: CommandsV,
    name: Seq<char>,
    index: Seq<char>,
    copy: CopyV,
    from: NodeV,
    to: NodeV,
    params: JsonV,
    explain: bool,
) -> CommandsV {
    let list = keep(shards_of(st.t, index), started_on(copy.primary, from.id));
    accept(
        moved_shards(st, index, copy.primary, from.id, to.id, list, list.len()),
        name,
        params,
        may_allocate(ctx, st.t, copy, to),
        explain,
    )
}

pub open spec fn move_between(
    ctx: CtxV,
    st: CommandsV,
    name: Seq<char>,
    index: Seq<char>,
    shard: u32,
    from: NodeV,
    to: NodeV,
    params: JsonV,
    explain: bool,
) -> Result<CommandsV, Seq<char>> {
    let here = shards_of(st.t, index);
    let i = find(here, shard_on(shard, from.id));
    if any(here, on_its_way(shard, from.id, to.id)) {
        Ok(accept(st, name, params, Seq::empty(), explain))
    } else if i >= here.len() {
        refuse(
            st,
            name,
            params,
            "[move_allocation] can't move "@ + shard_text(index, shard)
                + ", failed to find it on node "@ + node_shown(from),
            explain,
        )
    } else if here[i].state != ShardState::Started {
        refuse(
            st,
            name,
            params,
            "[move_allocation] can't move "@ + shard_text(index, shard)
                + ", shard is not started (state = "@ + here[i].state.name() + "]"@,
            explain,
        )
    } else {
        let vs = may_allocate(ctx, st.t, here[i], to);
        if worst(vs) == Decision::No {
            refuse(
                st,
                name,
                params,
                "[move_allocation] can't move "@ + shard_text(index, shard) + ", from "@
                    + node_shown(from) + ", to "@ + node_shown(to)
                    + ", since its not allowed, reason: "@ + decisions_shown(vs),
                explain,
            )
        } else {
            Ok(move_allowed(ctx, st, name, index, here[i], from, to, params, explain))
        }
    }
}

/// `move`: a copy goes from a node to another. A second command for another
/// shard of the same index asks for a move that is already under way: that is
/// done, not refused.
pub open spec fn move_command(
    ctx: CtxV,
    st: CommandsV,
    name: Seq<char>,
    args: JsonV,
    explain: bool,
) -> Result<CommandsV, Seq<char>> {
    let index = text_member(args, "index"@);
    let shard = whole_member(args, "shard"@) as u32;
    let from = text_member(args, "from_node"@);
    let to = text_member(args, "to_node"@);
    let params = move_params(index, shard, from, to);
    match (resolved(ctx, from), resolved(ctx, to)) {
        (Some(f), Some(t)) => move_between(ctx, st, name, index, shard, f, t, params, explain),
        (None, _) => refuse(st, name, params, unresolved(from), explain),
        (_, None) => refuse(st, name, params, unresolved(to), explain),
    }
}

// ---- allocate ------------------------------------------------------------------

pub open spec fn node_params(index: Seq<char>, shard: u32, node: Seq<char>) -> Seq<
    (Seq<char>, JsonV),
> {
    no_fields().push(("index"@, JsonV::Text(index))).push(
        ("shard"@, JsonV::Number(NumberV::Whole(shard as u64))),
    ).push(("node"@, JsonV::Text(node)))
}

/// Whether a copy is one of a shard on no node, a primary or a replica.
pub open spec fn waiting_in(shard: u32, primary: bool) -> spec_fn(CopyV) -> bool {
    |c: CopyV| c.shard == shard && c.primary == primary && c.state == ShardState::Unassigned
}

pub open spec fn waiting_as(primary: bool) -> spec_fn(CopyV) -> bool {
    |c: CopyV| c.primary == primary && c.state == ShardState::Unassigned
}

/// A copy put on a node by hand. A primary put there is one whose data
/// somebody gave up.
pub open spec fn forced_on(c: CopyV, node: Seq<char>, id: Seq<char>, primary: bool) -> CopyV {
    CopyV {
        state: ShardState::Initializing,
        node: Some(node),
        allocation_id: Some(id),
        unassigned: match c.unassigned {
            Some(u) => Some(
                InfoV {
                    delayed: false,
                    reason: if primary {
                        "FORCED_EMPTY_PRIMARY"@
                    } else {
                        u.reason
                    },
                    ..u
                },
            ),
            None => None,
        },
        ..c
    }
}

pub open spec fn allocate_on(
    ctx: CtxV,
    st: CommandsV,
    name: Seq<char>,
    index: Seq<char>,
    shard: u32,
    primary: bool,
    node: NodeV,
    params: JsonV,
    explain: bool,
) -> Result<CommandsV, Seq<char>> {
    let here = shards_of(st.t, index);
    let i = find(here, waiting_in(shard, primary));
    if i >= here.len() {
        refuse(
            st,
            name,
            params,
            "["@ + name + "] "@ + (if primary {
                "primary"@
            } else {
                "replica"@
            }) + " "@ + shard_text(index, shard) + " is already assigned"@,
            explain,
        )
    } else {
        let vs = may_allocate(ctx, st.t, here[i], node);
        if worst(vs) == Decision::No {
            refuse(
                st,
                name,
                params,
                "["@ + name + "] allocation of "@ + shard_text(index, shard) + " on node "@
                    + node_shown(node) + " is not allowed, reason: "@ + decisions_shown(vs),
                explain,
            )
        } else {
            let copies = copies_of(st.t, index, shard);
            let pos = find(copies, waiting_as(primary));
            if pos < copies.len() {
                Ok(
                    accept(
                        CommandsV {
                            t: replaced(
                                st.t,
                                index,
                                shard,
                                Some(
                                    copies.update(
                                        pos,
                                        forced_on(copies[pos], node.id, st.ids.id(), primary),
                                    ),
                                ),
                            ),
                            ids: st.ids.taken(),
                            ..st
                        },
                        name,
                        params,
                        vs,
                        explain,
                    ),
                )
            } else {
                Ok(accept(st, name, params, vs, explain))
            }
        }
    }
}

/// `allocate_replica`, `allocate_empty_primary` and `allocate_stale_primary`:
/// a copy that is on no node goes to one. For a primary somebody has to accept
/// that its data is lost.
pub open spec fn allocate_command(
    ctx: CtxV,
    st: CommandsV,
    name: Seq<char>,
    args: JsonV,
    explain: bool,
) -> Result<CommandsV, Seq<char>> {
    let index = text_member(args, "index"@);
    let shard = whole_member(args, "shard"@) as u32;
    let to = text_member(args, "node"@);
    let primary = name != "allocate_replica"@;
    let params = JsonV::Object(node_params(index, shard, to));
    match resolved(ctx, to) {
        None => refuse(st, name, params, unresolved(to), explain),
        Some(node) => if primary && !flag_member(args, "accept_data_loss"@) {
            refuse(
                st,
                name,
                params,
                "["@ + name + "] allocating an empty primary for "@ + shard_text(index, shard)
                    + " can result in data loss. Please confirm by setting the accept_data_loss parameter to true"@,
                explain,
            )
        } else {
            allocate_on(ctx, st, name, index, shard, primary, node, params, explain)
        },
    }
}

// ---- cancel --------------------------------------------------------------------

/// Whether a copy is being filled on a node.
pub open spec fn filled_on(node: Option<Seq<char>>) -> spec_fn(CopyV) -> bool {
    |c: CopyV| c.state == ShardState::Initializing && c.node == node
}

/// The copies of a shard once what one of them was doing is cancelled: of a
/// relocation the target goes and the source stays, and any other copy is
/// taken off its node.
pub open spec fn cancelled(copies: Seq<CopyV>, pos: int, copy: CopyV, now: u64) -> Seq<CopyV> {
    if copy.state == ShardState::Initializing && copy.relocating_node is Some {
        let rest = copies.remove(pos);
        let s = find(rest, leaves(copy.relocating_node));
        if s < rest.len() {
            rest.update(s, staying(rest[s]))
        } else {
            rest
        }
    } else if copy.state == ShardState::Relocating {
        let back = copies.update(pos, staying(copies[pos]));
        let t = find(back, filled_on(copy.relocating_node));
        if t < back.len() {
            back.remove(t)
        } else {
            back
        }
    } else {
        copies.update(
            pos,
            taken_off(copies[pos], info("REROUTE_CANCELLED"@, now, "no_attempt"@, 0)),
        )
    }
}

pub open spec fn cancel_on(
    ctx: CtxV,
    st: CommandsV,
    name: Seq<char>,
    index: Seq<char>,
    shard: u32,
    allow_primary: bool,
    node: NodeV,
    params: JsonV,
    explain: bool,
) -> Result<CommandsV, Seq<char>> {
    let here = shards_of(st.t, index);
    let i = find(here, shard_on(shard, node.id));
    if i >= here.len() {
        refuse(
            st,
            name,
            params,
            "[cancel_allocation] can't cancel "@ + shard_text(index, shard)
                + ", failed to find it on node "@ + node_shown(node),
            explain,
        )
    } else if here[i].primary && !allow_primary {
        refuse(
            st,
            name,
            params,
            "[cancel_allocation] can't cancel "@ + shard_text(index, shard) + " on node "@
                + node_shown(node) + ", shard is primary and initializing its state"@,
            explain,
        )
    } else {
        let copies = copies_of(st.t, index, shard);
        let pos = find(copies, has_id(here[i].allocation_id));
        if pos < copies.len() {
            Ok(
                accept(
                    CommandsV {
                        t: replaced(
                            st.t,
                            index,
                            shard,
                            Some(cancelled(copies, pos, here[i], ctx.now)),
                        ),
                        ..st
                    },
                    name,
                    params,
                    Seq::empty(),
                    explain,
                ),
            )
        } else {
            Ok(accept(st, name, params, Seq::empty(), explain))
        }
    }
}

/// `cancel`: what a copy is doing on a node is called off.
pub open spec fn cancel_command(
    ctx: CtxV,
    st: CommandsV,
    name: Seq<char>,
    args: JsonV,
    explain: bool,
) -> Result<CommandsV, Seq<char>> {
    let index = text_member(args, "index"@);
    let shard = whole_member(args, "shard"@) as u32;
    let on = text_member(args, "node"@);
    let allow_primary = flag_member(args, "allow_primary"@);
    let params = JsonV::Object(
        node_params(index, shard, on).push(("allow_primary"@, JsonV::Bool(allow_primary))),
    );
    match resolved(ctx, on) {
        None => refuse(st, name, params, unresolved(on), explain),
        Some(node) => cancel_on(
            ctx,
            st,
            name,
            index,
            shard,
            allow_primary,
            node,
            params,
            explain,
        ),
    }
}

// ---- commands ------------------------------------------------------------------

pub open spec fn is_allocate(name: Seq<char>) -> bool {
    name == "allocate_replica"@ || name == "allocate_empty_primary"@ || name
        == "allocate_stale_primary"@
}

/// What one command comes to.
pub open spec fn commanded(
    ctx: CtxV,
    st: CommandsV,
    command: JsonV,
    explain: bool,
) -> Result<CommandsV, Seq<char>> {
    match command {
        JsonV::Object(o) => if o.len() == 0 {
            Err("commands must be objects with one command each"@)
        } else {
            let (name, args) = o[0];
            if name == "move"@ {
                move_command(ctx, st, name, args, explain)
            } else if is_allocate(name) {
                allocate_command(ctx, st, name, args, explain)
            } else if name == "cancel"@ {
                cancel_command(ctx, st, name, args, explain)
            } else {
                Err("["@ + name + "] is not a known allocation command"@)
            }
        },
        _ => Err("commands must be objects with one command each"@),
    }
}

/// What the first commands come to, one after another, up to the first that
/// fails.
pub open spec fn commanded_all(
    ctx: CtxV,
    st: CommandsV,
    commands: Seq<JsonV>,
    explain: bool,
    n: nat,
) -> Result<CommandsV, Seq<char>>
    decreases n,
{
    if n == 0 {
        Ok(st)
    } else {
        match commanded_all(ctx, st, commands, explain, (n - 1) as nat) {
            Ok(before) => commanded(ctx, before, commands[n - 1], explain),
            Err(message) => Err(message),
        }
    }
}

/// What commands work on.
struct Desk {
    table: RoutingTable,
    ids: Ids,
    said: Vec<Json>,
}

impl DeepView for Desk {
    type V = CommandsV;

    closed spec fn deep_view(&self) -> CommandsV {
        CommandsV {
            t: self.table.deep_view(),
            ids: self.ids.deep_view(),
            said: self.said.deep_view(),
        }
    }
}

/// Whether a command came to what it should: the state it leaves, or the
/// message it fails with.
spec fn came_to(r: Result<(), String>, after: CommandsV, want: Result<CommandsV, Seq<char>>) -> bool {
    match want {
        Ok(st) => r is Ok && after == st,
        Err(message) => r matches Err(m) && m@ == message,
    }
}

fn resolve_node<'a>(ctx: &Context<'a>, name: &str) -> (r: Option<&'a DiscoveryNode>)
    ensures
        r.deep_view() == resolved(ctx.deep_view(), name@),
{
    let ghost p = goes_by(name@);
    let f = |n: &DiscoveryNode| -> (r: bool)
        ensures
            r == p(n.deep_view()),
        {
            same(n.id.as_str(), name) || same(n.name.as_str(), name) || same(
                n.transport_address.as_str(),
                name,
            )
        };
    let i = find_in(ctx.nodes, f, Ghost(p));
    if i < ctx.nodes.len() {
        Some(&ctx.nodes[i])
    } else {
        None
    }
}

fn unresolved_text(name: &str) -> (r: String)
    ensures
        r@ == unresolved(name@),
{
    "failed to resolve [".to_owned().concat(name).concat("], no matching nodes")
}

fn node_text(n: &DiscoveryNode) -> (r: String)
    ensures
        r@ == node_shown(n.deep_view()),
{
    "{".to_owned().concat(n.name.as_str()).concat("}{").concat(n.id.as_str()).concat("}{").concat(
        n.ephemeral_id.as_str(),
    ).concat("}{").concat(n.transport_address.as_str()).concat("}")
}

fn decisions_text(vs: &Vec<Verdict>) -> (r: String)
    ensures
        r@ == decisions_shown(vs.deep_view()),
{
    let mut r = "".to_owned();
    assert(vs.deep_view().take(0).len() == 0);
    for i in 0..vs.len()
        invariant
            r@ == decisions_shown(vs.deep_view().take(i as int)),
    {
        proof {
            lemma_take(vs.deep_view(), i as int);
        }
        r = r.concat("[").concat(vs[i].decision.label()).concat("(").concat(
            vs[i].explanation.as_str(),
        ).concat(")]");
    }
    assert(vs.deep_view().take(vs@.len() as int) =~= vs.deep_view());
    r
}

fn shard_named(index: &str, shard: u32) -> (r: String)
    ensures
        r@ == shard_text(index@, shard),
{
    "[".to_owned().concat(index).concat("][").concat(decimal(shard as u64).as_str()).concat("]")
}

fn decision_in(decider: &str, decision: &str, explanation: &str) -> (r: Json)
    ensures
        r.deep_view() == decision_json(decider@, decision@, explanation@),
{
    let mut o = fields();
    field(&mut o, "decider", text(decider));
    field(&mut o, "decision", text(decision));
    field(&mut o, "explanation", text(explanation));
    object(o)
}

/// Verdicts in an answer.
pub fn verdicts_in(vs: &Vec<Verdict>) -> (r: Vec<Json>)
    ensures
        r.deep_view() == verdicts_json(vs.deep_view()),
{
    let mut r: Vec<Json> = Vec::new();
    for i in 0..vs.len()
        invariant
            r@.len() == i,
            forall|j: int|
                0 <= j < i ==> #[trigger] r@[j].deep_view() == verdict_json(vs@[j].deep_view()),
    {
        r.push(
            decision_in(vs[i].decider, vs[i].decision.label(), vs[i].explanation.as_str()),
        );
    }
    assert(r.deep_view() =~= verdicts_json(vs.deep_view()));
    r
}

fn answer_in(name: &str, params: Json, decisions: Vec<Json>) -> (r: Json)
    ensures
        r.deep_view() == answer(name@, params.deep_view(), decisions.deep_view()),
{
    let mut o = fields();
    field(&mut o, "command", text(name));
    field(&mut o, "parameters", params);
    field(&mut o, "decisions", list(decisions));
    object(o)
}

impl Desk {
    fn refuse(&mut self, name: &str, params: Json, message: String, explain: bool) -> (r: Result<
        (),
        String,
    >)
        ensures
            came_to(
                r,
                final(self).deep_view(),
                refuse(
                    old(self).deep_view(),
                    name@,
                    params.deep_view(),
                    message@,
                    explain,
                ),
            ),
            final(self).ids.deep_view() == old(self).ids.deep_view(),
    {
        if explain {
            let mut ds: Vec<Json> = Vec::new();
            let decider = name.to_owned().concat(" (allocation command)");
            ds.push(decision_in(decider.as_str(), "NO", message.as_str()));
            assert(ds.deep_view() =~= seq![
                decision_json(name@ + " (allocation command)"@, "NO"@, message@),
            ]);
            push_to(&mut self.said, answer_in(name, params, ds));
            Ok(())
        } else {
            Err(message)
        }
    }

    fn accept(&mut self, name: &str, params: Json, vs: &Vec<Verdict>, explain: bool)
        ensures
            final(self).deep_view() == accept(
                old(self).deep_view(),
                name@,
                params.deep_view(),
                vs.deep_view(),
                explain,
            ),
    {
        if explain {
            let mut ds = verdicts_in(vs);
            assert(ds.deep_view().len() == vs.deep_view().len());
            if ds.len() == 0 {
                let decider = name.to_owned().concat(" (allocation command)");
                ds.push(decision_in(decider.as_str(), "YES", "explanation not available"));
                assert(ds.deep_view() =~= seq![
                    decision_json(
                        name@ + " (allocation command)"@,
                        "YES"@,
                        "explanation not available"@,
                    ),
                ]);
            }
            push_to(&mut self.said, answer_in(name, params, ds));
        }
    }

    /// Puts the copies of a shard in the place of those it has.
    fn replace(&mut self, index: &str, shard: u32, copies: Vec<ShardRouting>)
        requires
            copies_of(old(self).deep_view().t, index@, shard).len() > 0,
        ensures
            final(self).deep_view() == (CommandsV {
                t: replaced(
                    old(self).deep_view().t,
                    index@,
                    shard,
                    Some(copies.deep_view()),
                ),
                ..old(self).deep_view()
            }),
    {
        let i = self.table.place_of(index);
        assert(self.table.deep_view()[i as int] == self.table.indices@[i as int].deep_view());
        set_copies(&mut self.table, i, shard as usize, copies);
    }

    /// The copies of a shard, copied.
    fn copies(&self, index: &str, shard: u32) -> (r: Vec<ShardRouting>)
        ensures
            r.deep_view() == copies_of(self.deep_view().t, index@, shard),
    {
        match self.table.copies(index, shard) {
            Some(c) => copy_copies(c),
            None => {
                let r: Vec<ShardRouting> = Vec::new();
                assert(r.deep_view() =~= copies_of(self.deep_view().t, index@, shard));
                r
            },
        }
    }

    /// The first copy of a shard on a node.
    fn copy_on(&self, index: &str, shard: u32, node: &NodeId) -> (r: Option<ShardRouting>)
        ensures
            ({
                let here = shards_of(self.deep_view().t, index@);
                let i = find(here, shard_on(shard, node.deep_view()));
                match r {
                    Some(c) => i < here.len() && c.deep_view() == here[i],
                    None => i >= here.len(),
                }
            }),
    {
        let here = self.table.shards_of(index);
        let ghost p = shard_on(shard, node.deep_view());
        let f = |c: &&ShardRouting| -> (r: bool)
            ensures
                r == p(c.deep_view()),
            { c.shard == shard && is_node(&c.node, node) };
        let i = find_in(&here, f, Ghost(p));
        if i < here.len() {
            assert(here.deep_view()[i as int] == here@[i as int].deep_view());
            Some(here[i].clone())
        } else {
            None
        }
    }

    fn under_way(&self, index: &str, shard: u32, from: &NodeId, to: &NodeId) -> (r: bool)
        ensures
            r == any(
                shards_of(self.deep_view().t, index@),
                on_its_way(shard, from.deep_view(), to.deep_view()),
            ),
    {
        let here = self.table.shards_of(index);
        let ghost p = on_its_way(shard, from.deep_view(), to.deep_view());
        let f = |c: &&ShardRouting| -> (r: bool)
            ensures
                r == p(c.deep_view()),
            { c.shard == shard && is_node(&c.relocating_node, to) && is_node(&c.node, from) };
        any_in(&here, f, Ghost(p))
    }

    fn list_started(&self, index: &str, primary: bool, node: &NodeId) -> (r: Vec<u32>)
        ensures
            ({
                let want = keep(
                    shards_of(self.deep_view().t, index@),
                    started_on(primary, node.deep_view()),
                );
                &&& r@.len() == want.len()
                &&& forall|i: int| 0 <= i < want.len() ==> #[trigger] r@[i] == want[i].shard
            }),
    {
        let here = self.table.shards_of(index);
        let ghost p = started_on(primary, node.deep_view());
        let f = |c: &ShardRouting| -> (r: bool)
            ensures
                r == p(c.deep_view()),
            {
                c.state == ShardState::Started && c.primary == primary && is_node(&c.node, node)
            };
        let kept = keep_in(&here, f, Ghost(p));
        let mut r: Vec<u32> = Vec::new();
        for i in 0..kept.len()
            invariant
                r@.len() == i,
                forall|j: int| 0 <= j < i ==> #[trigger] r@[j] == kept.deep_view()[j].shard,
        {
            assert(kept.deep_view()[i as int] == kept@[i as int].deep_view());
            r.push(kept[i].shard);
        }
        r
    }

    fn move_shard(&mut self, index: &str, shard: u32, primary: bool, from: &NodeId, to: &NodeId)
        ensures
            ({
                let before = old(self).deep_view();
                let copies = copies_of(before.t, index@, shard);
                let pos = find(copies, started_on(primary, from.deep_view()));
                final(self).deep_view() == if pos < copies.len() {
                    CommandsV {
                        t: replaced(
                            before.t,
                            index@,
                            shard,
                            Some(
                                moved(
                                    copies,
                                    pos,
                                    index@,
                                    shard,
                                    primary,
                                    from.deep_view(),
                                    to.deep_view(),
                                    before.ids.id(),
                                ),
                            ),
                        ),
                        ids: before.ids.taken(),
                        ..before
                    }
                } else {
                    before
                }
            }),
    {
        let mut copies = self.copies(index, shard);
        let ghost p = started_on(primary, from.deep_view());
        let f = |c: &ShardRouting| -> (r: bool)
            ensures
                r == p(c.deep_view()),
            {
                c.state == ShardState::Started && c.primary == primary && is_node(&c.node, from)
            };
        let pos = find_in(&copies, f, Ghost(p));
        if pos < copies.len() {
            let id = self.ids.take();
            move_copy(&mut copies, pos, index, shard, primary, from, to, id);
            self.replace(index, shard, copies);
        }
    }

    fn move_between(
        &mut self,
        ctx: &Context,
        name: &str,
        index: &str,
        shard: u32,
        from: &DiscoveryNode,
        to: &DiscoveryNode,
        params: Json,
        explain: bool,
    ) -> (r: Result<(), String>)
        ensures
            came_to(
                r,
                final(self).deep_view(),
                move_between(
                    ctx.deep_view(),
                    old(self).deep_view(),
                    name@,
                    index@,
                    shard,
                    from.deep_view(),
                    to.deep_view(),
                    params.deep_view(),
                    explain,
                ),
            ),
    {
        if self.under_way(index, shard, &from.id, &to.id) {
            let none: Vec<Verdict> = Vec::new();
            assert(none.deep_view() =~= Seq::<VerdictV>::empty());
            self.accept(name, params, &none, explain);
            return Ok(());
        }
        let copy = match self.copy_on(index, shard, &from.id) {
            Some(c) => c,
            None => {
                return self.refuse(
                    name,
                    params,
                    "[move_allocation] can't move ".to_owned().concat(
                        shard_named(index, shard).as_str(),
                    ).concat(", failed to find it on node ").concat(node_text(from).as_str()),
                    explain,
                );
            },
        };
        if copy.state != ShardState::Started {
            return self.refuse(
                name,
                params,
                "[move_allocation] can't move ".to_owned().concat(
                    shard_named(index, shard).as_str(),
                ).concat(", shard is not started (state = ").concat(copy.state.as_str()).concat(
                    "]",
                ),
                explain,
            );
        }
        let vs = can_allocate(ctx, &self.table, &copy, to);
        if overall(&vs) == Decision::No {
            return self.refuse(
                name,
                params,
                "[move_allocation] can't move ".to_owned().concat(
                    shard_named(index, shard).as_str(),
                ).concat(", from ").concat(node_text(from).as_str()).concat(", to ").concat(
                    node_text(to).as_str(),
                ).concat(", since its not allowed, reason: ").concat(
                    decisions_text(&vs).as_str(),
                ),
                explain,
            );
        }
        let ghost start = self.deep_view();
        let ghost want = keep(
            shards_of(start.t, index@),
            started_on(copy.primary, from.deep_view().id),
        );
        let shards = self.list_started(index, copy.primary, &from.id);
        for i in 0..shards.len()
            invariant
                shards@.len() == want.len(),
                forall|j: int| 0 <= j < want.len() ==> #[trigger] shards@[j] == want[j].shard,
                self.deep_view() == moved_shards(
                    start,
                    index@,
                    copy.primary,
                    from.deep_view().id,
                    to.deep_view().id,
                    want,
                    i as nat,
                ),
        {
            self.move_shard(index, shards[i], copy.primary, &from.id, &to.id);
        }
        self.accept(name, params, &vs, explain);
        Ok(())
    }

    fn move_command(&mut self, ctx: &Context, name: &str, args: &Json, explain: bool) -> (r: Result<
        (),
        String,
    >)
        ensures
            came_to(
                r,
                final(self).deep_view(),
                move_command(
                    ctx.deep_view(),
                    old(self).deep_view(),
                    name@,
                    args.deep_view(),
                    explain,
                ),
            ),
    {
        let index = args.text_of("index");
        let shard: u32 = args.whole_of("shard") as u32;
        let from = args.text_of("from_node");
        let to = args.text_of("to_node");
        let mut o = fields();
        field(&mut o, "index", text(index.as_str()));
        field(&mut o, "shard", whole(shard as u64));
        field(&mut o, "from_node", text(from.as_str()));
        field(&mut o, "to_node", text(to.as_str()));
        let params = object(o);
        let f = match resolve_node(ctx, from.as_str()) {
            Some(n) => n,
            None => {
                return self.refuse(name, params, unresolved_text(from.as_str()), explain);
            },
        };
        let t = match resolve_node(ctx, to.as_str()) {
            Some(n) => n,
            None => {
                return self.refuse(name, params, unresolved_text(to.as_str()), explain);
            },
        };
        self.move_between(ctx, name, index.as_str(), shard, f, t, params, explain)
    }

    /// The first copy of a shard on no node.
    fn waiting_copy(&self, index: &str, shard: u32, primary: bool) -> (r: Option<ShardRouting>)
        ensures
            ({
                let here = shards_of(self.deep_view().t, index@);
                let i = find(here, waiting_in(shard, primary));
                match r {
                    Some(c) => i < here.len() && c.deep_view() == here[i],
                    None => i >= here.len(),
                }
            }),
    {
        let here = self.table.shards_of(index);
        let ghost p = waiting_in(shard, primary);
        let f = |c: &&ShardRouting| -> (r: bool)
            ensures
                r == p(c.deep_view()),
            {
                c.shard == shard && c.primary == primary && c.state == ShardState::Unassigned
            };
        let i = find_in(&here, f, Ghost(p));
        if i < here.len() {
            assert(here.deep_view()[i as int] == here@[i as int].deep_view());
            Some(here[i].clone())
        } else {
            None
        }
    }

    fn allocate_on(
        &mut self,
        ctx: &Context,
        name: &str,
        index: &str,
        shard: u32,
        primary: bool,
        node: &DiscoveryNode,
        params: Json,
        explain: bool,
    ) -> (r: Result<(), String>)
        ensures
            came_to(
                r,
                final(self).deep_view(),
                allocate_on(
                    ctx.deep_view(),
                    old(self).deep_view(),
                    name@,
                    index@,
                    shard,
                    primary,
                    node.deep_view(),
                    params.deep_view(),
                    explain,
                ),
            ),
    {
        let what = if primary {
            "primary"
        } else {
            "replica"
        };
        let copy = match self.waiting_copy(index, shard, primary) {
            Some(c) => c,
            None => {
                return self.refuse(
                    name,
                    params,
                    "[".to_owned().concat(name).concat("] ").concat(what).concat(" ").concat(
                        shard_named(index, shard).as_str(),
                    ).concat(" is already assigned"),
                    explain,
                );
            },
        };
        let vs = can_allocate(ctx, &self.table, &copy, node);
        if overall(&vs) == Decision::No {
            return self.refuse(
                name,
                params,
                "[".to_owned().concat(name).concat("] allocation of ").concat(
                    shard_named(index, shard).as_str(),
                ).concat(" on node ").concat(node_text(node).as_str()).concat(
                    " is not allowed, reason: ",
                ).concat(decisions_text(&vs).as_str()),
                explain,
            );
        }
        let mut copies = self.copies(index, shard);
        let ghost p = waiting_as(primary);
        let f = |c: &ShardRouting| -> (r: bool)
            ensures
                r == p(c.deep_view()),
            { c.primary == primary && c.state == ShardState::Unassigned };
        let pos = find_in(&copies, f, Ghost(p));
        if pos < copies.len() {
            assert(copies.deep_view()[pos as int] == copies@[pos as int].deep_view());
            let mut c = copies[pos].clone();
            c.state = ShardState::Initializing;
            c.node = Some(node.id.clone());
            c.allocation_id = Some(self.ids.take());
            c.unassigned = match &copies[pos].unassigned {
                Some(u) => {
                    let mut v = u.clone();
                    v.delayed = false;
                    if primary {
                        v.reason = "FORCED_EMPTY_PRIMARY".to_owned();
                    }
                    Some(v)
                },
                None => None,
            };
            put_at(&mut copies, pos, c);
            self.replace(index, shard, copies);
        }
        self.accept(name, params, &vs, explain);
        Ok(())
    }

    fn allocate_command(
        &mut self,
        ctx: &Context,
        name: &str,
        args: &Json,
        explain: bool,
    ) -> (r: Result<(), String>)
        ensures
            came_to(
                r,
                final(self).deep_view(),
                allocate_command(
                    ctx.deep_view(),
                    old(self).deep_view(),
                    name@,
                    args.deep_view(),
                    explain,
                ),
            ),
    {
        let index = args.text_of("index");
        let shard: u32 = args.whole_of("shard") as u32;
        let to = args.text_of("node");
        let primary = !same(name, "allocate_replica");
        let mut o = fields();
        field(&mut o, "index", text(index.as_str()));
        field(&mut o, "shard", whole(shard as u64));
        field(&mut o, "node", text(to.as_str()));
        let params = object(o);
        let node = match resolve_node(ctx, to.as_str()) {
            Some(n) => n,
            None => {
                return self.refuse(name, params, unresolved_text(to.as_str()), explain);
            },
        };
        if primary && !args.flag_of("accept_data_loss") {
            let message = "[".to_owned().concat(name).concat(
                "] allocating an empty primary for ",
            ).concat(shard_named(index.as_str(), shard).as_str()).concat(
                " can result in data loss. Please confirm by setting the accept_data_loss parameter to true",
            );
            return self.refuse(name, params, message, explain);
        }
        self.allocate_on(ctx, name, index.as_str(), shard, primary, node, params, explain)
    }

    fn cancel_on(
        &mut self,
        ctx: &Context,
        name: &str,
        index: &str,
        shard: u32,
        allow_primary: bool,
        node: &DiscoveryNode,
        params: Json,
        explain: bool,
    ) -> (r: Result<(), String>)
        ensures
            came_to(
                r,
                final(self).deep_view(),
                cancel_on(
                    ctx.deep_view(),
                    old(self).deep_view(),
                    name@,
                    index@,
                    shard,
                    allow_primary,
                    node.deep_view(),
                    params.deep_view(),
                    explain,
                ),
            ),
    {
        let copy = match self.copy_on(index, shard, &node.id) {
            Some(c) => c,
            None => {
                return self.refuse(
                    name,
                    params,
                    "[cancel_allocation] can't cancel ".to_owned().concat(
                        shard_named(index, shard).as_str(),
                    ).concat(", failed to find it on node ").concat(node_text(node).as_str()),
                    explain,
                );
            },
        };
        if copy.primary && !allow_primary {
            return self.refuse(
                name,
                params,
                "[cancel_allocation] can't cancel ".to_owned().concat(
                    shard_named(index, shard).as_str(),
                ).concat(" on node ").concat(node_text(node).as_str()).concat(
                    ", shard is primary and initializing its state",
                ),
                explain,
            );
        }
        let copies = self.copies(index, shard);
        let ghost p = has_id(copy.deep_view().allocation_id);
        let f = |c: &ShardRouting| -> (r: bool)
            ensures
                r == p(c.deep_view()),
            { same_text(&c.allocation_id, &copy.allocation_id) };
        let pos = find_in(&copies, f, Ghost(p));
        if pos < copies.len() {
            let after = cancel_copy(copies, pos, &copy, ctx.now);
            self.replace(index, shard, after);
        }
        let none: Vec<Verdict> = Vec::new();
        assert(none.deep_view() =~= Seq::<VerdictV>::empty());
        self.accept(name, params, &none, explain);
        Ok(())
    }

    fn cancel_command(
        &mut self,
        ctx: &Context,
        name: &str,
        args: &Json,
        explain: bool,
    ) -> (r: Result<(), String>)
        ensures
            came_to(
                r,
                final(self).deep_view(),
                cancel_command(
                    ctx.deep_view(),
                    old(self).deep_view(),
                    name@,
                    args.deep_view(),
                    explain,
                ),
            ),
    {
        let index = args.text_of("index");
        let shard: u32 = args.whole_of("shard") as u32;
        let on = args.text_of("node");
        let allow_primary = args.flag_of("allow_primary");
        let mut o = fields();
        field(&mut o, "index", text(index.as_str()));
        field(&mut o, "shard", whole(shard as u64));
        field(&mut o, "node", text(on.as_str()));
        field(&mut o, "allow_primary", flag(allow_primary));
        let params = object(o);
        let node = match resolve_node(ctx, on.as_str()) {
            Some(n) => n,
            None => {
                return self.refuse(name, params, unresolved_text(on.as_str()), explain);
            },
        };
        self.cancel_on(ctx, name, index.as_str(), shard, allow_primary, node, params, explain)
    }

    fn command(&mut self, ctx: &Context, command: &Json, explain: bool) -> (r: Result<(), String>)
        ensures
            came_to(
                r,
                final(self).deep_view(),
                commanded(
                    ctx.deep_view(),
                    old(self).deep_view(),
                    command.deep_view(),
                    explain,
                ),
            ),
    {
        match command {
            Json::Object(o) => {
                proof {
                    crate::json::lemma_object(*o);
                }
                if o.len() == 0 {
                    return Err("commands must be objects with one command each".to_owned());
                }
                assert(o.deep_view()[0] == (o@[0].0@, o@[0].1.deep_view()));
                let name = o[0].0.as_str();
                let args = &o[0].1;
                if same(name, "move") {
                    self.move_command(ctx, name, args, explain)
                } else if same(name, "allocate_replica") || same(name, "allocate_empty_primary")
                    || same(name, "allocate_stale_primary") {
                    self.allocate_command(ctx, name, args, explain)
                } else if same(name, "cancel") {
                    self.cancel_command(ctx, name, args, explain)
                } else {
                    Err(
                        "[".to_owned().concat(name).concat(
                            "] is not a known allocation command",
                        ),
                    )
                }
            },
            _ => Err("commands must be objects with one command each".to_owned()),
        }
    }
}

fn cancel_copy(copies: Vec<ShardRouting>, pos: usize, copy: &ShardRouting, now: u64) -> (r: Vec<
    ShardRouting,
>)
    requires
        pos < copies@.len(),
    ensures
        r.deep_view() == cancelled(copies.deep_view(), pos as int, copy.deep_view(), now),
{
    let mut copies = copies;
    assert(copies.deep_view()[pos as int] == copies@[pos as int].deep_view());
    if copy.state == ShardState::Initializing && copy.relocating_node.is_some() {
        // a relocation target: the source stays
        let _gone = remove_at(&mut copies, pos);
        let ghost p = leaves(copy.deep_view().relocating_node);
        let f = |c: &ShardRouting| -> (r: bool)
            ensures
                r == p(c.deep_view()),
            { c.state == ShardState::Relocating && same_node(&c.node, &copy.relocating_node) };
        let s = find_in(&copies, f, Ghost(p));
        if s < copies.len() {
            let back = stay(&copies[s]);
            put_at(&mut copies, s, back);
        }
    } else if copy.state == ShardState::Relocating {
        // the source of a relocation: the target goes, the source stays
        let back = stay(&copies[pos]);
        put_at(&mut copies, pos, back);
        let ghost p = filled_on(copy.deep_view().relocating_node);
        let f = |c: &ShardRouting| -> (r: bool)
            ensures
                r == p(c.deep_view()),
            { c.state == ShardState::Initializing && same_node(&c.node, &copy.relocating_node) };
        let t = find_in(&copies, f, Ghost(p));
        if t < copies.len() {
            let _gone = remove_at(&mut copies, t);
        }
    } else {
        let off = take_off(
            &copies[pos],
            unassigned_info("REROUTE_CANCELLED", now, "no_attempt", 0),
        );
        put_at(&mut copies, pos, off);
    }
    copies
}

/// Apply `_cluster/reroute` commands to a table. With `explain`, a command
/// that is refused becomes an explanation instead of an error. The ids of new
/// copies are taken from `ids`, and none is where a command fails.
pub fn apply_commands(
    ctx: &Context,
    table: &RoutingTable,
    commands: &Vec<Json>,
    explain: bool,
    ids: &mut Ids,
) -> (r: Result<(RoutingTable, Vec<Json>), String>)
    ensures
        match commanded_all(
            ctx.deep_view(),
            CommandsV {
                t: table.deep_view(),
                ids: old(ids).deep_view(),
                said: Seq::empty(),
            },
            commands.deep_view(),
            explain,
            commands@.len(),
        ) {
            Ok(st) => r matches Ok((after, said)) && after.deep_view() == st.t && said.deep_view()
                == st.said && final(ids).deep_view() == st.ids,
            Err(message) => r matches Err(m) && m@ == message && *final(ids) == *old(ids),
        },
{
    let mut desk = Desk {
        table: table.clone(),
        ids: Ids { run: ids.run.clone(), next: ids.next },
        said: Vec::new(),
    };
    let ghost start = CommandsV {
        t: table.deep_view(),
        ids: old(ids).deep_view(),
        said: Seq::empty(),
    };
    assert(desk.said.deep_view() =~= Seq::<JsonV>::empty());
    assert(desk.deep_view() == start);
    let ghost cv = ctx.deep_view();
    let ghost jv = commands.deep_view();
    for i in 0..commands.len()
        invariant
            cv == ctx.deep_view(),
            jv == commands.deep_view(),
            *ids == *old(ids),
            start == (CommandsV {
                t: table.deep_view(),
                ids: old(ids).deep_view(),
                said: Seq::empty(),
            }),
            commanded_all(cv, start, jv, explain, i as nat) == Ok::<CommandsV, Seq<char>>(
                desk.deep_view(),
            ),
    {
        assert(jv[i as int] == commands@[i as int].deep_view());
        let ghost before = desk.deep_view();
        if let Err(message) = desk.command(ctx, &commands[i], explain) {
            proof {
                lemma_fails(cv, start, jv, explain, (i + 1) as nat, jv.len());
            }
            return Err(message);
        }
    }
    let Desk { table: after, ids: left, said } = desk;
    *ids = left;
    Ok((after, said))
}

proof fn lemma_fails(
    ctx: CtxV,
    st: CommandsV,
    commands: Seq<JsonV>,
    explain: bool,
    i: nat,
    n: nat,
)
    requires
        i <= n,
        commanded_all(ctx, st, commands, explain, i) is Err,
    ensures
        commanded_all(ctx, st, commands, explain, n) == commanded_all(
            ctx,
            st,
            commands,
            explain,
            i,
        ),
    decreases n,
{
    if i < n {
        lemma_fails(ctx, st, commands, explain, i, (n - 1) as nat);
    }
}

// ---- what it comes to ----------------------------------------------------------

/// A command that is refused, and any command that is only explained as
/// refused, leaves every copy where it was.
pub proof fn law_a_refused_command_changes_nothing(
    st: CommandsV,
    name: Seq<char>,
    params: JsonV,
    message: Seq<char>,
    explain: bool,
)
    ensures
        refuse(st, name, params, message, explain) matches Ok(after) ==> after.t == st.t
            && after.ids == st.ids && after.said.len() == st.said.len() + 1,
        !explain ==> refuse(st, name, params, message, explain) == Err::<CommandsV, Seq<char>>(
            message,
        ),
{
}

/// A primary is put on a node by hand only where somebody accepts that its
/// data is lost.
pub proof fn law_a_primary_is_forced_only_where_the_loss_is_accepted(
    ctx: CtxV,
    st: CommandsV,
    name: Seq<char>,
    args: JsonV,
    explain: bool,
)
    requires
        name == "allocate_empty_primary"@ || name == "allocate_stale_primary"@,
        !flag_member(args, "accept_data_loss"@),
    ensures
        allocate_command(ctx, st, name, args, explain) matches Ok(after) ==> after.t == st.t
            && after.ids == st.ids,
{
    reveal_strlit("allocate_replica");
    reveal_strlit("allocate_empty_primary");
    reveal_strlit("allocate_stale_primary");
    assert("allocate_replica"@.len() != "allocate_empty_primary"@.len());
    assert("allocate_replica"@.len() != "allocate_stale_primary"@.len());
}

} // verus!
