//! `_cluster/allocation/explain`: the deciders asked about one copy, in the
//! shape the plugin answers in.

use vstd::prelude::*;

use super::balance::{above, is_above, lemma_weight_room, ranked, ranking, weight, weight_of, Ranked, RankedV};
use super::commands::{verdict_json, verdicts_in, verdicts_json};
use super::deciders::{
    can_allocate, can_rebalance, can_remain, may_allocate, may_rebalance, may_remain, overall,
    worst, Decision, Verdict, VerdictV,
};
use super::placement::ready_at;
use super::settings::{Context, CtxV, ROOM};
use super::state::{CopyV, DiscoveryNode, IndexV, InfoV, NodeId, NodeV, RoutingTable, ShardRouting, ShardState, UnassignedInfo};
use crate::json::{field, fields, flag, list, no_fields, object, text, whole, Json, JsonV, NumberV};
use crate::list::{find, find_in, keep, keep_in, lemma_find, lemma_take, push_to};
use crate::text::{dec, decimal, lower, lowered};
use crate::time::{iso, iso_millis};

verus! {

/// Members with one more, where there is reason for it.
pub open spec fn push_if(
    o: Seq<(Seq<char>, JsonV)>,
    when: bool,
    key: Seq<char>,
    value: JsonV,
) -> Seq<(Seq<char>, JsonV)> {
    if when {
        o.push((key, value))
    } else {
        o
    }
}

pub open spec fn num(n: int) -> JsonV {
    JsonV::Number(NumberV::Whole(n as u64))
}

/// A node's attributes in an answer.
pub open spec fn attributes_json(attributes: Seq<(Seq<char>, Seq<char>)>) -> JsonV {
    JsonV::Object(
        attributes.map_values(|a: (Seq<char>, Seq<char>)| (a.0, JsonV::Text(a.1))),
    )
}

/// What a node is called in an answer.
pub open spec fn node_names(n: NodeV) -> Seq<(Seq<char>, JsonV)> {
    no_fields().push(("id"@, JsonV::Text(n.id))).push(("name"@, JsonV::Text(n.name))).push(
        ("transport_address"@, JsonV::Text(n.transport_address)),
    )
}

/// A node a copy would go to.
pub open spec fn target_json(n: NodeV) -> JsonV {
    JsonV::Object(node_names(n).push(("attributes"@, attributes_json(n.attributes))))
}

pub open spec fn is_id(id: Seq<char>) -> spec_fn(RankedV) -> bool {
    |r: RankedV| r.node.id == id
}

/// A node's place in a ranking, the lightest being the first.
pub open spec fn rank_in(r: Seq<RankedV>, id: Seq<char>) -> int {
    let i = find(r, is_id(id));
    if i < r.len() {
        i + 1
    } else {
        1
    }
}

/// The verdicts an answer shows: all of them, or those that are not a yes.
pub open spec fn shown(vs: Seq<VerdictV>, include_yes: bool) -> Seq<VerdictV> {
    keep(vs, is_shown(include_yes))
}

pub open spec fn is_shown(include_yes: bool) -> spec_fn(VerdictV) -> bool {
    |v: VerdictV| include_yes || v.decision != Decision::Yes
}

pub open spec fn shown_json(vs: Seq<VerdictV>, include_yes: bool) -> JsonV {
    JsonV::List(verdicts_json(shown(vs, include_yes)))
}

/// What is decided of a copy on a node: what the deciders say, and no for a
/// copy that has a node and would not be better off.
pub open spec fn judged(
    ctx: CtxV,
    t: Seq<IndexV>,
    copy: CopyV,
    here: Option<Seq<char>>,
    r: RankedV,
) -> Decision {
    let d = worst(may_allocate(ctx, t, copy, r.node));
    match here {
        Some(id) => if d == Decision::Yes && !above(
            ctx,
            weight_of(ctx, t, copy.index, id) - r.weight,
        ) {
            Decision::No
        } else {
            d
        },
        None => d,
    }
}

pub open spec fn judged_yes(
    ctx: CtxV,
    t: Seq<IndexV>,
    copy: CopyV,
    here: Option<Seq<char>>,
) -> spec_fn(RankedV) -> bool {
    |r: RankedV| judged(ctx, t, copy, here, r) == Decision::Yes
}

/// The most that is decided of a copy on the first of some nodes.
pub open spec fn best_judged(
    ctx: CtxV,
    t: Seq<IndexV>,
    copy: CopyV,
    here: Option<Seq<char>>,
    rs: Seq<RankedV>,
) -> Decision
    decreases rs.len(),
{
    if rs.len() == 0 {
        Decision::No
    } else {
        let before = best_judged(ctx, t, copy, here, rs.drop_last());
        let d = judged(ctx, t, copy, here, rs.last());
        if before.rank() > d.rank() {
            d
        } else {
            before
        }
    }
}

/// A decision as an answer words it of a node.
pub open spec fn word(d: Decision) -> Seq<char> {
    match d {
        Decision::Yes => "yes"@,
        Decision::Throttle => "throttle"@,
        Decision::No => "no"@,
    }
}

/// A decision as an answer words it of the cluster.
pub open spec fn word_of_cluster(d: Decision) -> Seq<char> {
    match d {
        Decision::Yes => "yes"@,
        Decision::Throttle => "throttled"@,
        Decision::No => "no"@,
    }
}

/// What is said of one node.
pub open spec fn node_json(
    ctx: CtxV,
    t: Seq<IndexV>,
    copy: CopyV,
    here: Option<Seq<char>>,
    include_yes: bool,
    r: RankedV,
) -> JsonV {
    let n = r.node;
    JsonV::Object(
        no_fields().push(("node_id"@, JsonV::Text(n.id))).push(
            ("node_name"@, JsonV::Text(n.name)),
        ).push(("transport_address"@, JsonV::Text(n.transport_address))).push(
            ("node_attributes"@, attributes_json(n.attributes)),
        ).push(("node_decision"@, JsonV::Text(word(judged(ctx, t, copy, here, r))))).push(
            ("weight_ranking"@, num(rank_in(ranking(ctx, t, copy.index), n.id))),
        ).push(("deciders"@, shown_json(may_allocate(ctx, t, copy, n), include_yes))),
    )
}

pub open spec fn is_elsewhere(here: Option<Seq<char>>) -> spec_fn(RankedV) -> bool {
    |r: RankedV| here != Some(r.node.id)
}

/// The nodes a copy could go to, the lightest first.
pub open spec fn candidates(
    ctx: CtxV,
    t: Seq<IndexV>,
    copy: CopyV,
    here: Option<Seq<char>>,
) -> Seq<RankedV> {
    keep(ranking(ctx, t, copy.index), is_elsewhere(here))
}

pub open spec fn nodes_json(
    ctx: CtxV,
    t: Seq<IndexV>,
    copy: CopyV,
    here: Option<Seq<char>>,
    include_yes: bool,
    rs: Seq<RankedV>,
) -> Seq<JsonV> {
    rs.map_values(|r: RankedV| node_json(ctx, t, copy, here, include_yes, r))
}

/// Why a copy is unassigned, in an answer.
pub open spec fn info_json(u: InfoV) -> JsonV {
    let o = no_fields().push(("reason"@, JsonV::Text(u.reason))).push(
        ("at"@, JsonV::Text(iso(u.at as nat))),
    ).push(("last_allocation_status"@, JsonV::Text(u.status)));
    let p = push_if(o, u.failed > 0, "failed_allocation_attempts"@, num(u.failed as int));
    JsonV::Object(
        push_if(p, u.details is Some, "details"@, JsonV::Text(u.details->0)),
    )
}

pub open spec fn begin(copy: CopyV) -> Seq<(Seq<char>, JsonV)> {
    no_fields().push(("index"@, JsonV::Text(copy.index))).push(
        ("shard"@, num(copy.shard as int)),
    ).push(("primary"@, JsonV::Bool(copy.primary)))
}

/// How long a replica still waits for its node.
pub open spec fn still_to_wait(ctx: CtxV, copy: CopyV) -> u64 {
    let ready = ready_at(ctx.settings_of(copy.index), copy.unassigned->0);
    if ready > ctx.now {
        (ready - ctx.now) as u64
    } else {
        0
    }
}

pub open spec fn nowhere() -> Seq<char> {
    "cannot allocate because allocation is not permitted to any of the nodes"@
}

/// The explanation of a copy that is on no node.
pub open spec fn explained_unassigned(
    ctx: CtxV,
    t: Seq<IndexV>,
    copy: CopyV,
    include_yes: bool,
) -> JsonV {
    let rs = candidates(ctx, t, copy, None);
    let delayed = copy.unassigned is Some && copy.unassigned->0.delayed;
    let waits = rs.len() > 0 && delayed;
    let left = still_to_wait(ctx, copy);
    let best = best_judged(ctx, t, copy, None, rs);
    let y = find(rs, judged_yes(ctx, t, copy, None));
    let (can, why) = if rs.len() == 0 {
        ("no"@, nowhere())
    } else if delayed {
        (
            "allocation_delayed"@,
            "cannot allocate because the cluster is still waiting ["@ + dec(left as nat)
                + "ms] for the departed node holding a replica to rejoin, despite being allowed to allocate the shard to at least one other node"@,
        )
    } else {
        match best {
            Decision::Yes => ("yes"@, "can allocate the shard"@),
            Decision::Throttle => ("throttled"@, "allocation temporarily throttled"@),
            Decision::No => ("no"@, nowhere()),
        }
    };
    let a = begin(copy).push(("current_state"@, JsonV::Text("unassigned"@)));
    let b = push_if(
        a,
        copy.unassigned is Some,
        "unassigned_info"@,
        info_json(copy.unassigned->0),
    );
    let c = push_if(
        b,
        waits,
        "configured_delay_in_millis"@,
        num(ctx.settings_of(copy.index).delayed_timeout as int),
    );
    let d = push_if(c, waits, "remaining_delay_in_millis"@, num(left as int));
    let e = d.push(("can_allocate"@, JsonV::Text(can))).push(
        ("allocate_explanation"@, JsonV::Text(why)),
    );
    let f = push_if(e, y < rs.len(), "target_node"@, target_json(rs[y].node));
    JsonV::Object(
        f.push(
            (
                "node_allocation_decisions"@,
                JsonV::List(nodes_json(ctx, t, copy, None, include_yes, rs)),
            ),
        ),
    )
}

/// The node a copy is on, and where it is going.
pub open spec fn current_json(ctx: CtxV, t: Seq<IndexV>, copy: CopyV, id: Seq<char>) -> Option<
    JsonV,
> {
    let to = match copy.relocating_node {
        Some(r) => if copy.state == ShardState::Relocating {
            ctx.node(r)
        } else {
            None
        },
        None => None,
    };
    let o = match ctx.node(id) {
        Some(n) => node_names(n).push(("attributes"@, attributes_json(n.attributes))).push(
            ("weight_ranking"@, num(rank_in(ranking(ctx, t, copy.index), n.id))),
        ),
        None => no_fields(),
    };
    if ctx.node(id) is None && to is None {
        None
    } else {
        Some(
            JsonV::Object(
                push_if(o, to is Some, "relocating_to"@, JsonV::Object(node_names(to->0))),
            ),
        )
    }
}

/// Whether a started copy may go to another node, in an answer.
pub open spec fn rebalance_words(
    reb: Decision,
    remain: Decision,
    has_target: bool,
    best: Decision,
) -> (Seq<char>, Seq<char>) {
    if reb != Decision::Yes {
        ("no"@, "rebalancing is not allowed"@)
    } else if has_target {
        (
            "yes"@,
            if remain == Decision::Yes {
                "can rebalance shard"@
            } else {
                "shard cannot remain on this node, moving to a node that can hold it"@
            },
        )
    } else if best == Decision::Throttle {
        ("throttled"@, "rebalancing is throttled"@)
    } else {
        (
            "no"@,
            if remain == Decision::Yes {
                "cannot rebalance as no target node exists that can both allocate this shard and improve the cluster balance"@
            } else {
                "cannot move shard to another node, even though it is not allowed to remain on its current node"@
            },
        )
    }
}

/// What the deciders say of a copy staying where it is, nothing when its node
/// is not known.
pub open spec fn remains(ctx: CtxV, t: Seq<IndexV>, copy: CopyV, id: Seq<char>) -> Seq<VerdictV> {
    match ctx.node(id) {
        Some(n) => may_remain(ctx, t, copy, n),
        None => Seq::empty(),
    }
}

/// What is added to the explanation of a started copy.
pub open spec fn explained_started(
    ctx: CtxV,
    t: Seq<IndexV>,
    copy: CopyV,
    id: Seq<char>,
    include_yes: bool,
    o: Seq<(Seq<char>, JsonV)>,
) -> Seq<(Seq<char>, JsonV)> {
    let remain = remains(ctx, t, copy, id);
    let reb = may_rebalance(ctx, t, copy);
    let rs = candidates(ctx, t, copy, Some(id));
    let best = best_judged(ctx, t, copy, Some(id), rs);
    let y = find(rs, judged_yes(ctx, t, copy, Some(id)));
    let has_target = y < rs.len();
    let (can, why) = rebalance_words(worst(reb), worst(remain), has_target, best);
    let a = o.push(
        (
            "can_remain_on_current_node"@,
            JsonV::Text(
                if worst(remain) == Decision::Yes {
                    "yes"@
                } else {
                    "no"@
                },
            ),
        ),
    );
    let b = push_if(
        a,
        worst(remain) != Decision::Yes,
        "can_remain_decisions"@,
        shown_json(remain, include_yes),
    );
    let c = b.push(("can_rebalance_cluster"@, JsonV::Text(word_of_cluster(worst(reb)))));
    let d = push_if(
        c,
        worst(reb) != Decision::Yes,
        "can_rebalance_cluster_decisions"@,
        shown_json(reb, include_yes),
    );
    let e = d.push(("can_rebalance_to_other_node"@, JsonV::Text(can))).push(
        ("rebalance_explanation"@, JsonV::Text(why)),
    );
    let f = push_if(
        e,
        worst(reb) == Decision::Yes && has_target,
        "target_node"@,
        target_json(rs[y].node),
    );
    f.push(
        (
            "node_allocation_decisions"@,
            JsonV::List(nodes_json(ctx, t, copy, Some(id), include_yes, rs)),
        ),
    )
}

/// The explanation of a copy that is on a node.
pub open spec fn explained_assigned(
    ctx: CtxV,
    t: Seq<IndexV>,
    copy: CopyV,
    include_yes: bool,
) -> JsonV {
    match copy.node {
        None => JsonV::Object(begin(copy)),
        Some(id) => {
            let a = begin(copy).push(("current_state"@, JsonV::Text(lowered(copy.state.name()))));
            let current = current_json(ctx, t, copy, id);
            let b = push_if(a, current is Some, "current_node"@, current->0);
            JsonV::Object(
                if copy.state == ShardState::Started {
                    explained_started(ctx, t, copy, id, include_yes, b)
                } else {
                    b
                },
            )
        },
    }
}

/// The explanation for one copy.
pub open spec fn explained(
    ctx: CtxV,
    t: Seq<IndexV>,
    copy: CopyV,
    include_yes: bool,
) -> JsonV {
    if copy.state == ShardState::Unassigned {
        explained_unassigned(ctx, t, copy, include_yes)
    } else {
        explained_assigned(ctx, t, copy, include_yes)
    }
}

// ---- the same, done ------------------------------------------------------------

fn attributes_in(attributes: &Vec<(String, String)>) -> (r: Json)
    ensures
        r.deep_view() == attributes_json(attributes.deep_view()),
{
    let ghost av = attributes.deep_view();
    let mut o = fields();
    for i in 0..attributes.len()
        invariant
            av == attributes.deep_view(),
            o.deep_view().len() == i,
            forall|j: int|
                0 <= j < i ==> #[trigger] o.deep_view()[j] == (av[j].0, JsonV::Text(av[j].1)),
    {
        assert(av[i as int] == (attributes@[i as int].0@, attributes@[i as int].1@));
        let ghost before = o.deep_view();
        field(&mut o, attributes[i].0.as_str(), text(attributes[i].1.as_str()));
        assert(forall|j: int| 0 <= j < i ==> o.deep_view()[j] == before[j]);
    }
    assert(o.deep_view() =~= av.map_values(|a: (Seq<char>, Seq<char>)| (a.0, JsonV::Text(a.1))));
    object(o)
}

fn names_in(n: &DiscoveryNode) -> (o: Vec<(String, Json)>)
    ensures
        o.deep_view() == node_names(n.deep_view()),
{
    let mut o = fields();
    field(&mut o, "id", text(n.id.as_str()));
    field(&mut o, "name", text(n.name.as_str()));
    field(&mut o, "transport_address", text(n.transport_address.as_str()));
    o
}

fn target_in(n: &DiscoveryNode) -> (r: Json)
    ensures
        r.deep_view() == target_json(n.deep_view()),
{
    let mut o = names_in(n);
    field(&mut o, "attributes", attributes_in(&n.attributes));
    object(o)
}

fn rank_of(r: &Vec<Ranked>, id: &NodeId) -> (n: u64)
    requires
        r@.len() <= ROOM,
    ensures
        n == rank_in(r.deep_view(), id.deep_view()),
{
    let ghost p = is_id(id.deep_view());
    let f = |x: &Ranked| -> (b: bool)
        ensures
            b == p(x.deep_view()),
        { x.node.id.is(id) };
    let i = find_in(r, f, Ghost(p));
    if i < r.len() {
        i as u64 + 1
    } else {
        1
    }
}

fn shown_in(vs: &Vec<Verdict>, include_yes: bool) -> (r: Json)
    ensures
        r.deep_view() == shown_json(vs.deep_view(), include_yes),
{
    let ghost vv = vs.deep_view();
    let ghost p = is_shown(include_yes);
    let all = verdicts_in(vs);
    assert(all.deep_view().len() == vv.len());
    let mut out: Vec<Json> = Vec::new();
    assert(out.deep_view() =~= verdicts_json(keep(vv.take(0), p)));
    for i in 0..vs.len()
        invariant
            vv == vs.deep_view(),
            p == is_shown(include_yes),
            all.deep_view() == verdicts_json(vv),
            all@.len() == vs@.len(),
            out.deep_view() == verdicts_json(keep(vv.take(i as int), p)),
    {
        proof {
            lemma_take(vv, i as int);
            assert(all.deep_view()[i as int] == verdict_json(vv[i as int]));
        }
        if include_yes || vs[i].decision != Decision::Yes {
            let ghost before = keep(vv.take(i as int), p);
            push_to(&mut out, all[i].clone());
            assert(verdicts_json(before.push(vv[i as int])) =~= verdicts_json(before).push(
                verdict_json(vv[i as int]),
            ));
        }
    }
    assert(vv.take(vs@.len() as int) =~= vv);
    list(out)
}

fn worded(d: Decision) -> (r: &'static str)
    ensures
        r@ == word(d),
{
    match d {
        Decision::Yes => "yes",
        Decision::Throttle => "throttle",
        Decision::No => "no",
    }
}

fn worded_of_cluster(d: Decision) -> (r: &'static str)
    ensures
        r@ == word_of_cluster(d),
{
    match d {
        Decision::Yes => "yes",
        Decision::Throttle => "throttled",
        Decision::No => "no",
    }
}

/// What was found out about the nodes a copy could go to.
struct Survey<'a> {
    decisions: Vec<Json>,
    best: Decision,
    target: Option<&'a DiscoveryNode>,
    nodes: usize,
}

fn judge(
    ctx: &Context,
    table: &RoutingTable,
    copy: &ShardRouting,
    here: &Option<NodeId>,
    r: &Ranked,
    vs: &Vec<Verdict>,
) -> (d: Decision)
    requires
        ctx.deep_view().nodes.len() <= ROOM,
        table.deep_view().len() <= ROOM,
        vs.deep_view() == may_allocate(
            ctx.deep_view(),
            table.deep_view(),
            copy.deep_view(),
            r.node.deep_view(),
        ),
        r.weight == weight_of(
            ctx.deep_view(),
            table.deep_view(),
            copy.index@,
            r.node.deep_view().id,
        ),
    ensures
        d == judged(
            ctx.deep_view(),
            table.deep_view(),
            copy.deep_view(),
            here.deep_view(),
            r.deep_view(),
        ),
{
    let d = overall(vs);
    match here {
        Some(id) => {
            let w: i128 = weight(ctx, table, copy.index.as_str(), id);
            proof {
                lemma_weight_room(
                    ctx.deep_view(),
                    table.deep_view(),
                    copy.index@,
                    id.deep_view(),
                );
                lemma_weight_room(
                    ctx.deep_view(),
                    table.deep_view(),
                    copy.index@,
                    r.node.deep_view().id,
                );
            }
            if d == Decision::Yes && !is_above(ctx, w - r.weight) {
                Decision::No
            } else {
                d
            }
        },
        None => d,
    }
}

fn survey<'a>(
    ctx: &Context<'a>,
    table: &RoutingTable,
    copy: &ShardRouting,
    here: &Option<NodeId>,
    include_yes: bool,
    ranks: &Vec<Ranked<'a>>,
) -> (s: Survey<'a>)
    requires
        ctx.deep_view().nodes.len() <= ROOM,
        table.deep_view().len() <= ROOM,
        ranks.deep_view() == ranking(ctx.deep_view(), table.deep_view(), copy.index@),
    ensures
        ({
            let cv = ctx.deep_view();
            let tv = table.deep_view();
            let pv = copy.deep_view();
            let hv = here.deep_view();
            let rs = candidates(cv, tv, pv, hv);
            let y = find(rs, judged_yes(cv, tv, pv, hv));
            &&& s.decisions.deep_view() == nodes_json(cv, tv, pv, hv, include_yes, rs)
            &&& s.best == best_judged(cv, tv, pv, hv, rs)
            &&& s.nodes == rs.len()
            &&& match s.target {
                Some(n) => y < rs.len() && n.deep_view() == rs[y].node,
                None => y >= rs.len(),
            }
        }),
{
    let ghost cv = ctx.deep_view();
    let ghost tv = table.deep_view();
    let ghost pv = copy.deep_view();
    let ghost hv = here.deep_view();
    proof {
        super::balance::law_the_ranking_is_lightest_first(cv, tv, copy.index@);
        super::balance::lemma_kept(cv.nodes, |n: NodeV| n.data());
    }
    let mut refs: Vec<&Ranked<'a>> = Vec::new();
    for i in 0..ranks.len()
        invariant
            refs@.len() == i,
            forall|j: int| 0 <= j < i ==> *(#[trigger] refs@[j]) == ranks@[j],
    {
        refs.push(&ranks[i]);
    }
    assert(refs.deep_view() =~= ranks.deep_view());
    let ghost p = is_elsewhere(hv);
    let f = |r: &Ranked<'a>| -> (b: bool)
        ensures
            b == p(r.deep_view()),
        {
            match here {
                Some(id) => !r.node.id.is(id),
                None => true,
            }
        };
    let rs = keep_in(&refs, f, Ghost(p));
    let ghost rv = rs.deep_view();
    assert(rv == candidates(cv, tv, pv, hv));
    let ghost q = judged_yes(cv, tv, pv, hv);
    let mut decisions: Vec<Json> = Vec::new();
    let mut best = Decision::No;
    let mut target: Option<&'a DiscoveryNode> = None;
    let ghost mut first: int = 0;
    proof {
        lemma_kept_weights(ranking(cv, tv, copy.index@), p, cv, tv, copy.index@);
    }
    assert(decisions.deep_view() =~= nodes_json(cv, tv, pv, hv, include_yes, rv.take(0)));
    for i in 0..rs.len()
        invariant
            ctx.deep_view().nodes.len() <= ROOM,
            table.deep_view().len() <= ROOM,
            cv == ctx.deep_view(),
            tv == table.deep_view(),
            pv == copy.deep_view(),
            hv == here.deep_view(),
            rv == rs.deep_view(),
            q == judged_yes(cv, tv, pv, hv),
            ranks.deep_view() == ranking(cv, tv, copy.index@),
            ranks@.len() <= ROOM,
            forall|k: int|
                0 <= k < rv.len() ==> (#[trigger] rv[k]).weight == weight_of(
                    cv,
                    tv,
                    copy.index@,
                    rv[k].node.id,
                ),
            decisions.deep_view() == nodes_json(cv, tv, pv, hv, include_yes, rv.take(i as int)),
            best == best_judged(cv, tv, pv, hv, rv.take(i as int)),
            0 <= first <= i,
            first < i ==> q(rv[first]),
            forall|k: int| 0 <= k < first ==> !q(#[trigger] rv[k]),
            match target {
                Some(n) => first < i && n.deep_view() == rv[first].node,
                None => first == i,
            },
    {
        let r = rs[i];
        assert(rv[i as int] == r.deep_view());
        proof {
            lemma_take(rv, i as int);
        }
        let vs = can_allocate(ctx, table, copy, r.node);
        let d = judge(ctx, table, copy, here, r, &vs);
        if best.is_worse(d) {
            best = d;
        }
        if target.is_none() {
            if d == Decision::Yes {
                target = Some(r.node);
            } else {
                proof {
                    first = first + 1;
                }
            }
        }
        let mut o = fields();
        field(&mut o, "node_id", text(r.node.id.as_str()));
        field(&mut o, "node_name", text(r.node.name.as_str()));
        field(&mut o, "transport_address", text(r.node.transport_address.as_str()));
        field(&mut o, "node_attributes", attributes_in(&r.node.attributes));
        field(&mut o, "node_decision", text(worded(d)));
        field(&mut o, "weight_ranking", whole(rank_of(ranks, &r.node.id)));
        field(&mut o, "deciders", shown_in(&vs, include_yes));
        let j = object(o);
        assert(j.deep_view() == node_json(cv, tv, pv, hv, include_yes, rv[i as int]));
        push_to(&mut decisions, j);
        assert(decisions.deep_view() =~= nodes_json(
            cv,
            tv,
            pv,
            hv,
            include_yes,
            rv.take(i + 1),
        ));
    }
    assert(rv.take(rs@.len() as int) =~= rv);
    proof {
        lemma_find(rv, q, first);
    }
    Survey { decisions, best, target, nodes: rs.len() }
}

proof fn lemma_kept_weights(
    s: Seq<RankedV>,
    p: spec_fn(RankedV) -> bool,
    ctx: CtxV,
    t: Seq<IndexV>,
    index: Seq<char>,
)
    requires
        forall|k: int|
            0 <= k < s.len() ==> (#[trigger] s[k]).weight == weight_of(
                ctx,
                t,
                index,
                s[k].node.id,
            ),
    ensures
        forall|k: int|
            0 <= k < keep(s, p).len() ==> (#[trigger] keep(s, p)[k]).weight == weight_of(
                ctx,
                t,
                index,
                keep(s, p)[k].node.id,
            ),
    decreases s.len(),
{
    if s.len() > 0 {
        lemma_kept_weights(s.drop_last(), p, ctx, t, index);
        let before = keep(s.drop_last(), p);
        assert forall|k: int| 0 <= k < keep(s, p).len() implies (#[trigger] keep(s, p)[k]).weight
            == weight_of(ctx, t, index, keep(s, p)[k].node.id) by {
            if k < before.len() {
                assert(keep(s, p)[k] == before[k]);
            } else {
                assert(keep(s, p)[k] == s[s.len() - 1]);
            }
        }
    }
}

fn info_in(u: &UnassignedInfo) -> (r: Json)
    ensures
        r.deep_view() == info_json(u.deep_view()),
{
    let mut o = fields();
    field(&mut o, "reason", text(u.reason.as_str()));
    field(&mut o, "at", text(iso_millis(u.at_millis).as_str()));
    field(&mut o, "last_allocation_status", text(u.allocation_status.as_str()));
    if u.failed_allocations > 0 {
        field(&mut o, "failed_allocation_attempts", whole(u.failed_allocations));
    }
    if let Some(d) = &u.details {
        field(&mut o, "details", text(d.as_str()));
    }
    object(o)
}

fn begin_in(copy: &ShardRouting) -> (o: Vec<(String, Json)>)
    ensures
        o.deep_view() == begin(copy.deep_view()),
{
    let mut o = fields();
    field(&mut o, "index", text(copy.index.as_str()));
    field(&mut o, "shard", whole(copy.shard as u64));
    field(&mut o, "primary", flag(copy.primary));
    o
}

fn explain_unassigned(
    ctx: &Context,
    table: &RoutingTable,
    copy: &ShardRouting,
    include_yes: bool,
) -> (r: Json)
    requires
        ctx.deep_view().nodes.len() <= ROOM,
        table.deep_view().len() <= ROOM,
    ensures
        r.deep_view() == explained_unassigned(
            ctx.deep_view(),
            table.deep_view(),
            copy.deep_view(),
            include_yes,
        ),
{
    let ranks = ranked(ctx, table, copy.index.as_str());
    let here: Option<NodeId> = None;
    let s = survey(ctx, table, copy, &here, include_yes, &ranks);
    let mut o = begin_in(copy);
    field(&mut o, "current_state", text("unassigned"));
    if let Some(u) = &copy.unassigned {
        field(&mut o, "unassigned_info", info_in(u));
    }
    let delayed = match &copy.unassigned {
        Some(u) => u.delayed,
        None => false,
    };
    let mut can = "no";
    let mut why = "cannot allocate because allocation is not permitted to any of the nodes".to_owned();
    if s.nodes == 0 {
    } else if delayed {
        let is = ctx.index_settings(copy.index.as_str());
        let ready: u64 = match &copy.unassigned {
            Some(u) => u.at_millis.saturating_add(is.delayed_timeout),
            None => 0,
        };
        let left: u64 = ready.saturating_sub(ctx.now);
        field(&mut o, "configured_delay_in_millis", whole(is.delayed_timeout));
        field(&mut o, "remaining_delay_in_millis", whole(left));
        can = "allocation_delayed";
        why = "cannot allocate because the cluster is still waiting [".to_owned().concat(
            decimal(left).as_str(),
        ).concat(
            "ms] for the departed node holding a replica to rejoin, despite being allowed to allocate the shard to at least one other node",
        );
    } else {
        match s.best {
            Decision::Yes => {
                can = "yes";
                why = "can allocate the shard".to_owned();
            },
            Decision::Throttle => {
                can = "throttled";
                why = "allocation temporarily throttled".to_owned();
            },
            Decision::No => {},
        }
    }
    field(&mut o, "can_allocate", text(can));
    field(&mut o, "allocate_explanation", text(why.as_str()));
    if let Some(n) = s.target {
        field(&mut o, "target_node", target_in(n));
    }
    field(&mut o, "node_allocation_decisions", list(s.decisions));
    object(o)
}

fn current_in(
    ctx: &Context,
    table: &RoutingTable,
    copy: &ShardRouting,
    id: &NodeId,
    ranks: &Vec<Ranked>,
) -> (r: Option<Json>)
    requires
        ranks@.len() <= ROOM,
        ranks.deep_view() == ranking(ctx.deep_view(), table.deep_view(), copy.index@),
    ensures
        r.deep_view() == current_json(
            ctx.deep_view(),
            table.deep_view(),
            copy.deep_view(),
            id.deep_view(),
        ),
{
    let to = match &copy.relocating_node {
        Some(r) => {
            if copy.state == ShardState::Relocating {
                ctx.node(r)
            } else {
                None
            }
        },
        None => None,
    };
    let node = ctx.node(id);
    if node.is_none() && to.is_none() {
        return None;
    }
    let mut o = match node {
        Some(n) => {
            let mut o = names_in(n);
            field(&mut o, "attributes", attributes_in(&n.attributes));
            field(&mut o, "weight_ranking", whole(rank_of(ranks, &n.id)));
            o
        },
        None => fields(),
    };
    if let Some(t) = to {
        field(&mut o, "relocating_to", object(names_in(t)));
    }
    Some(object(o))
}

fn rebalance_worded(
    reb: Decision,
    remain: Decision,
    has_target: bool,
    best: Decision,
) -> (r: (&'static str, &'static str))
    ensures
        (r.0@, r.1@) == rebalance_words(reb, remain, has_target, best),
{
    if reb != Decision::Yes {
        ("no", "rebalancing is not allowed")
    } else if has_target {
        if remain == Decision::Yes {
            ("yes", "can rebalance shard")
        } else {
            ("yes", "shard cannot remain on this node, moving to a node that can hold it")
        }
    } else if best == Decision::Throttle {
        ("throttled", "rebalancing is throttled")
    } else if remain == Decision::Yes {
        (
            "no",
            "cannot rebalance as no target node exists that can both allocate this shard and improve the cluster balance",
        )
    } else {
        (
            "no",
            "cannot move shard to another node, even though it is not allowed to remain on its current node",
        )
    }
}

fn explain_started(
    ctx: &Context,
    table: &RoutingTable,
    copy: &ShardRouting,
    id: &NodeId,
    include_yes: bool,
    ranks: &Vec<Ranked>,
    o: &mut Vec<(String, Json)>,
)
    requires
        ctx.deep_view().nodes.len() <= ROOM,
        table.deep_view().len() <= ROOM,
        ranks.deep_view() == ranking(ctx.deep_view(), table.deep_view(), copy.index@),
    ensures
        final(o).deep_view() == explained_started(
            ctx.deep_view(),
            table.deep_view(),
            copy.deep_view(),
            id.deep_view(),
            include_yes,
            old(o).deep_view(),
        ),
{
    let remain = match ctx.node(id) {
        Some(n) => can_remain(ctx, table, copy, n),
        None => {
            let none: Vec<Verdict> = Vec::new();
            assert(none.deep_view() =~= Seq::<VerdictV>::empty());
            none
        },
    };
    let remain_d = overall(&remain);
    let stay = if remain_d == Decision::Yes {
        "yes"
    } else {
        "no"
    };
    field(o, "can_remain_on_current_node", text(stay));
    if remain_d != Decision::Yes {
        field(o, "can_remain_decisions", shown_in(&remain, include_yes));
    }
    let reb = can_rebalance(ctx, table, copy);
    let reb_d = overall(&reb);
    field(o, "can_rebalance_cluster", text(worded_of_cluster(reb_d)));
    if reb_d != Decision::Yes {
        field(o, "can_rebalance_cluster_decisions", shown_in(&reb, include_yes));
    }
    let here = Some(id.clone());
    let s = survey(ctx, table, copy, &here, include_yes, ranks);
    let (can, why) = rebalance_worded(reb_d, remain_d, s.target.is_some(), s.best);
    field(o, "can_rebalance_to_other_node", text(can));
    field(o, "rebalance_explanation", text(why));
    if reb_d == Decision::Yes {
        if let Some(t) = s.target {
            field(o, "target_node", target_in(t));
        }
    }
    field(o, "node_allocation_decisions", list(s.decisions));
}

/// The explanation for one copy, in the plugin's shape.
pub fn explain(ctx: &Context, table: &RoutingTable, copy: &ShardRouting, include_yes: bool) -> (r:
    Json)
    requires
        ctx.deep_view().nodes.len() <= ROOM,
        table.deep_view().len() <= ROOM,
    ensures
        r.deep_view() == explained(
            ctx.deep_view(),
            table.deep_view(),
            copy.deep_view(),
            include_yes,
        ),
{
    if copy.state == ShardState::Unassigned {
        return explain_unassigned(ctx, table, copy, include_yes);
    }
    let mut o = begin_in(copy);
    match &copy.node {
        None => object(o),
        Some(id) => {
            proof {
                super::balance::law_the_ranking_is_lightest_first(
                    ctx.deep_view(),
                    table.deep_view(),
                    copy.index@,
                );
                super::balance::lemma_kept(ctx.deep_view().nodes, |n: NodeV| n.data());
            }
            let ranks = ranked(ctx, table, copy.index.as_str());
            assert(ranks.deep_view().len() == ranks@.len());
            field(&mut o, "current_state", text(lower(copy.state.as_str()).as_str()));
            if let Some(c) = current_in(ctx, table, copy, id, &ranks) {
                field(&mut o, "current_node", c);
            }
            if copy.state == ShardState::Started {
                explain_started(ctx, table, copy, id, include_yes, &ranks, &mut o);
            }
            object(o)
        },
    }
}

} // verus!
