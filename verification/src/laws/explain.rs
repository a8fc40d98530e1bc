//! What an explanation says of a copy.

use vstd::prelude::*;

use crate::cluster::balance::{above, ranking, weight_of, RankedV};
use crate::cluster::deciders::{may_allocate, may_rebalance, worst, Decision, VerdictV};
use crate::cluster::explain::{
    begin, best_judged, candidates, explained, explained_started, info_json, judged, judged_yes,
    node_json, rank_in, rebalance_words, remains, shown, shown_json, still_to_wait, word,
    word_of_cluster,
};
use crate::cluster::settings::CtxV;
use crate::cluster::state::{CopyV, IndexV, InfoV, ShardState};
use crate::json::{member, JsonV, NumberV};
use crate::list::{called, find, keep, lemma_find, lemma_found, lookup};

verus! {

/// What is told of a node: the worst of its verdicts; and where the copy is somewhere
/// already, a node that would take it is told no unless the move is worth making.
pub proof fn law_what_is_told_of_a_node(
    ctx: CtxV,
    t: Seq<IndexV>,
    copy: CopyV,
    here: Option<Seq<char>>,
    r: RankedV,
)
    ensures
        ({
            let d = worst(may_allocate(ctx, t, copy, r.node));
            &&& here is None ==> judged(ctx, t, copy, here, r) == d
            &&& d != Decision::Yes ==> judged(ctx, t, copy, here, r) == d
            &&& here is Some && d == Decision::Yes ==> judged(ctx, t, copy, here, r) == if above(
                ctx,
                weight_of(ctx, t, copy.index, here->0) - r.weight,
            ) {
                Decision::Yes
            } else {
                Decision::No
            }
        }),
        word(Decision::Yes) == "yes"@,
        word(Decision::Throttle) == "throttle"@,
        word(Decision::No) == "no"@,
        word_of_cluster(Decision::Yes) == "yes"@,
        word_of_cluster(Decision::Throttle) == "throttled"@,
        word_of_cluster(Decision::No) == "no"@,
        Decision::Yes.name() == "YES"@,
        Decision::Throttle.name() == "THROTTLE"@,
        Decision::No.name() == "NO"@,
{
}

/// The best of what is told of some nodes is yes where one is told yes, throttled where
/// none is but one is put off, and no otherwise.
pub proof fn law_the_best_of_what_is_told(
    ctx: CtxV,
    t: Seq<IndexV>,
    copy: CopyV,
    here: Option<Seq<char>>,
    rs: Seq<RankedV>,
)
    ensures
        best_judged(ctx, t, copy, here, rs) == Decision::Yes <==> exists|i: int|
            0 <= i < rs.len() && judged(ctx, t, copy, here, #[trigger] rs[i]) == Decision::Yes,
        best_judged(ctx, t, copy, here, rs) == Decision::No <==> forall|i: int|
            0 <= i < rs.len() ==> judged(ctx, t, copy, here, #[trigger] rs[i]) == Decision::No,
    decreases rs.len(),
{
    if rs.len() > 0 {
        let before = rs.drop_last();
        law_the_best_of_what_is_told(ctx, t, copy, here, before);
        let last = rs.len() - 1;
        assert(forall|i: int| 0 <= i < before.len() ==> #[trigger] rs[i] == before[i]);
        if exists|i: int|
            0 <= i < before.len() && judged(ctx, t, copy, here, #[trigger] before[i])
                == Decision::Yes {
            let i = choose|i: int|
                0 <= i < before.len() && judged(ctx, t, copy, here, #[trigger] before[i])
                    == Decision::Yes;
            assert(judged(ctx, t, copy, here, rs[i]) == Decision::Yes);
        }
        assert(judged(ctx, t, copy, here, rs[last]) == judged(ctx, t, copy, here, rs.last()));
        if exists|i: int|
            0 <= i < rs.len() && judged(ctx, t, copy, here, #[trigger] rs[i]) == Decision::Yes {
            let i = choose|i: int|
                0 <= i < rs.len() && judged(ctx, t, copy, here, #[trigger] rs[i]) == Decision::Yes;
            if i < last {
                assert(judged(ctx, t, copy, here, before[i]) == Decision::Yes);
            }
        }
        if forall|i: int|
            0 <= i < rs.len() ==> judged(ctx, t, copy, here, #[trigger] rs[i]) == Decision::No {
            assert forall|i: int| 0 <= i < before.len() implies judged(
                ctx,
                t,
                copy,
                here,
                #[trigger] before[i],
            ) == Decision::No by {
                assert(judged(ctx, t, copy, here, rs[i]) == Decision::No);
            }
        }
    }
}

/// The yes verdicts of an explanation are left out unless they are asked for; the others
/// never are.
pub proof fn law_yes_verdicts_are_shown_only_when_asked_for(vs: Seq<VerdictV>, v: VerdictV)
    ensures
        shown(vs, false).contains(v) <==> vs.contains(v) && v.decision != Decision::Yes,
        shown(vs, true).contains(v) <==> vs.contains(v),
{
    crate::laws::words::law_what_passes_is_kept(
        vs,
        crate::cluster::explain::is_shown(false),
        v,
    );
    crate::laws::words::law_what_passes_is_kept(vs, crate::cluster::explain::is_shown(true), v);
}

/// What is said of moving a copy that is started.
pub proof fn law_what_is_said_of_a_move(
    reb: Decision,
    remain: Decision,
    has_target: bool,
    best: Decision,
)
    ensures
        reb != Decision::Yes ==> rebalance_words(reb, remain, has_target, best) == (
            "no"@,
            "rebalancing is not allowed"@,
        ),
        reb == Decision::Yes && has_target && remain == Decision::Yes ==> rebalance_words(
            reb,
            remain,
            has_target,
            best,
        ) == ("yes"@, "can rebalance shard"@),
        reb == Decision::Yes && has_target && remain != Decision::Yes ==> rebalance_words(
            reb,
            remain,
            has_target,
            best,
        ) == ("yes"@, "shard cannot remain on this node, moving to a node that can hold it"@),
        reb == Decision::Yes && !has_target && best == Decision::Throttle ==> rebalance_words(
            reb,
            remain,
            has_target,
            best,
        ) == ("throttled"@, "rebalancing is throttled"@),
        reb == Decision::Yes && !has_target && best == Decision::No && remain == Decision::Yes
            ==> rebalance_words(reb, remain, has_target, best) == (
            "no"@,
            "cannot rebalance as no target node exists that can both allocate this shard and improve the cluster balance"@,
        ),
        reb == Decision::Yes && !has_target && best == Decision::No && remain != Decision::Yes
            ==> rebalance_words(reb, remain, has_target, best) == (
            "no"@,
            "cannot move shard to another node, even though it is not allowed to remain on its current node"@,
        ),
{
}

/// The explanation of a copy names its index, its shard and its kind.
pub proof fn law_an_explanation_names_the_copy(copy: CopyV)
    ensures
        lookup(begin(copy), "index"@) == Some(JsonV::Text(copy.index)),
        lookup(begin(copy), "shard"@) == Some(JsonV::Number(NumberV::Whole(copy.shard as u64))),
        lookup(begin(copy), "primary"@) == Some(JsonV::Bool(copy.primary)),
{
    reveal_strlit("index");
    reveal_strlit("shard");
    reveal_strlit("primary");
    assert("index"@.len() == 5 && "shard"@.len() == 5 && "primary"@.len() == 7);
    assert("index"@[0] == 'i' && "shard"@[0] == 's');
    let o = begin(copy);
    lemma_find(o, called::<JsonV>("index"@), 0);
    lemma_find(o, called::<JsonV>("shard"@), 1);
    lemma_find(o, called::<JsonV>("primary"@), 2);
}

/// The word for whether a copy that has no place can be given one: no where there is no
/// node to ask, delayed while it waits for a node that left, and otherwise the best of
/// what the nodes are told.
pub proof fn law_whether_a_copy_can_be_placed(
    ctx: CtxV,
    t: Seq<IndexV>,
    copy: CopyV,
    include_yes: bool,
)
    requires
        copy.state == ShardState::Unassigned,
    ensures
        ({
            let rs = ranking(ctx, t, copy.index);
            let delayed = copy.unassigned matches Some(u) && u.delayed;
            let taken = exists|i: int|
                0 <= i < rs.len() && worst(may_allocate(ctx, t, copy, (#[trigger] rs[i]).node))
                    == Decision::Yes;
            let refused = forall|i: int|
                0 <= i < rs.len() ==> worst(may_allocate(ctx, t, copy, (#[trigger] rs[i]).node))
                    == Decision::No;
            let can = if rs.len() == 0 {
                "no"@
            } else if delayed {
                "allocation_delayed"@
            } else if taken {
                "yes"@
            } else if refused {
                "no"@
            } else {
                "throttled"@
            };
            explained(ctx, t, copy, include_yes) matches JsonV::Object(o) && exists|i: int|
                0 <= i < o.len() && #[trigger] o[i] == ("can_allocate"@, JsonV::Text(can))
        }),
{
    let all = ranking(ctx, t, copy.index);
    let rs = candidates(ctx, t, copy, None);
    lemma_all_kept(all, crate::cluster::explain::is_elsewhere(None));
    law_the_best_of_what_is_told(ctx, t, copy, None, rs);
    assert forall|i: int| 0 <= i < rs.len() implies judged(ctx, t, copy, None, #[trigger] rs[i])
        == worst(may_allocate(ctx, t, copy, rs[i].node)) by {}
    if exists|i: int|
        0 <= i < rs.len() && worst(may_allocate(ctx, t, copy, (#[trigger] rs[i]).node))
            == Decision::Yes {
        let i = choose|i: int|
            0 <= i < rs.len() && worst(may_allocate(ctx, t, copy, (#[trigger] rs[i]).node))
                == Decision::Yes;
        assert(judged(ctx, t, copy, None, rs[i]) == Decision::Yes);
    }
    let delayed = copy.unassigned is Some && copy.unassigned->0.delayed;
    let waits = rs.len() > 0 && delayed;
    let a = begin(copy).push(("current_state"@, JsonV::Text("unassigned"@)));
    let b = crate::cluster::explain::push_if(
        a,
        copy.unassigned is Some,
        "unassigned_info"@,
        info_json(copy.unassigned->0),
    );
    let c = crate::cluster::explain::push_if(
        b,
        waits,
        "configured_delay_in_millis"@,
        crate::cluster::explain::num(ctx.settings_of(copy.index).delayed_timeout as int),
    );
    let d = crate::cluster::explain::push_if(
        c,
        waits,
        "remaining_delay_in_millis"@,
        crate::cluster::explain::num(still_to_wait(ctx, copy) as int),
    );
    let o = explained(ctx, t, copy, include_yes)->Object_0;
    assert(o[d.len() as int].0 == "can_allocate"@);
}

proof fn lemma_all_kept(s: Seq<RankedV>, p: spec_fn(RankedV) -> bool)
    requires
        forall|i: int| 0 <= i < s.len() ==> p(#[trigger] s[i]),
    ensures
        keep(s, p) == s,
    decreases s.len(),
{
    if s.len() > 0 {
        lemma_all_kept(s.drop_last(), p);
        assert(s =~= s.drop_last().push(s.last()));
    } else {
        assert(keep(s, p) =~= s);
    }
}

/// What is left of a wait is the time until the node's return is no longer waited for.
pub proof fn law_what_is_left_of_a_wait(ctx: CtxV, copy: CopyV)
    requires
        copy.unassigned is Some,
        copy.unassigned->0.at + ctx.settings_of(copy.index).delayed_timeout <= u64::MAX,
    ensures
        ({
            let until = copy.unassigned->0.at + ctx.settings_of(copy.index).delayed_timeout;
            &&& until >= ctx.now ==> ctx.now + still_to_wait(ctx, copy) == until
            &&& until < ctx.now ==> still_to_wait(ctx, copy) == 0
        }),
{
}

/// A node's rank is its place among the nodes, the lightest first.
pub proof fn law_a_rank_counts_from_the_lightest(r: Seq<RankedV>, id: Seq<char>, i: int)
    requires
        0 <= i < r.len(),
        r[i].node.id == id,
        forall|j: int| 0 <= j < i ==> (#[trigger] r[j]).node.id != id,
    ensures
        rank_in(r, id) == i + 1,
{
    lemma_find(r, crate::cluster::explain::is_id(id), i);
}

/// What an explanation says of a copy that is started: whether it may stay, whether it may be
/// moved at all, and whether there is somewhere to move it.
pub proof fn law_what_is_explained_of_a_started_copy(
    ctx: CtxV,
    t: Seq<IndexV>,
    copy: CopyV,
    id: Seq<char>,
    include_yes: bool,
    o: Seq<(Seq<char>, JsonV)>,
)
    ensures
        ({
            let e = explained_started(ctx, t, copy, id, include_yes, o);
            let stays = worst(remains(ctx, t, copy, id)) == Decision::Yes;
            let moves = worst(may_rebalance(ctx, t, copy));
            let rs = candidates(ctx, t, copy, Some(id));
            let target = exists|i: int|
                0 <= i < rs.len() && judged(ctx, t, copy, Some(id), #[trigger] rs[i])
                    == Decision::Yes;
            &&& exists|i: int|
                0 <= i < e.len() && #[trigger] e[i] == (
                    "can_remain_on_current_node"@,
                    JsonV::Text(
                        if stays {
                            "yes"@
                        } else {
                            "no"@
                        },
                    ),
                )
            &&& exists|i: int|
                0 <= i < e.len() && #[trigger] e[i] == (
                    "can_rebalance_cluster"@,
                    JsonV::Text(
                        match moves {
                            Decision::Yes => "yes"@,
                            Decision::Throttle => "throttled"@,
                            Decision::No => "no"@,
                        },
                    ),
                )
            &&& moves == Decision::Yes && target ==> exists|i: int|
                0 <= i < e.len() && #[trigger] e[i] == (
                    "can_rebalance_to_other_node"@,
                    JsonV::Text("yes"@),
                )
            &&& moves != Decision::Yes ==> exists|i: int|
                0 <= i < e.len() && #[trigger] e[i] == (
                    "can_rebalance_to_other_node"@,
                    JsonV::Text("no"@),
                )
        }),
{
    let remain = remains(ctx, t, copy, id);
    let reb = may_rebalance(ctx, t, copy);
    let rs = candidates(ctx, t, copy, Some(id));
    let p = judged_yes(ctx, t, copy, Some(id));
    lemma_found(rs, p);
    let y = find(rs, p);
    if exists|i: int|
        0 <= i < rs.len() && judged(ctx, t, copy, Some(id), #[trigger] rs[i]) == Decision::Yes {
        let i = choose|i: int|
            0 <= i < rs.len() && judged(ctx, t, copy, Some(id), #[trigger] rs[i]) == Decision::Yes;
        assert(p(rs[i]));
        assert(y < rs.len());
    }
    let e = explained_started(ctx, t, copy, id, include_yes, o);
    let n = o.len() as int;
    let k = if worst(remain) != Decision::Yes {
        n + 2
    } else {
        n + 1
    };
    let l = if worst(reb) != Decision::Yes {
        k + 2
    } else {
        k + 1
    };
    assert(e[n].0 == "can_remain_on_current_node"@);
    assert(e[k].0 == "can_rebalance_cluster"@);
    assert(e[l].0 == "can_rebalance_to_other_node"@);
}

/// What an explanation says of a node: what it is told, where it stands among the others and
/// the verdicts for that.
pub proof fn law_what_is_explained_of_a_node(
    ctx: CtxV,
    t: Seq<IndexV>,
    copy: CopyV,
    here: Option<Seq<char>>,
    include_yes: bool,
    r: RankedV,
)
    ensures
        ({
            let e = node_json(ctx, t, copy, here, include_yes, r)->Object_0;
            let d = judged(ctx, t, copy, here, r);
            &&& e[0] == ("node_id"@, JsonV::Text(r.node.id))
            &&& e[1] == ("node_name"@, JsonV::Text(r.node.name))
            &&& e[2] == ("transport_address"@, JsonV::Text(r.node.transport_address))
            &&& e[4] == (
                "node_decision"@,
                JsonV::Text(
                    match d {
                        Decision::Yes => "yes"@,
                        Decision::Throttle => "throttle"@,
                        Decision::No => "no"@,
                    },
                ),
            )
            &&& e[5].0 == "weight_ranking"@
            &&& e[6] == (
                "deciders"@,
                shown_json(may_allocate(ctx, t, copy, r.node), include_yes),
            )
        }),
{
}

/// What is said of a copy that has no place: why and since when, how its last try came out,
/// and how often it has failed and how, where it has.
pub proof fn law_what_is_said_of_a_copy_without_a_place(u: InfoV)
    ensures
        member(info_json(u), "reason"@) == Some(JsonV::Text(u.reason)),
        member(info_json(u), "at"@) == Some(JsonV::Text(crate::time::iso(u.at as nat))),
        member(info_json(u), "last_allocation_status"@) == Some(JsonV::Text(u.status)),
        u.failed > 0 ==> member(info_json(u), "failed_allocation_attempts"@) == Some(
            JsonV::Number(NumberV::Whole(u.failed)),
        ),
        u.failed == 0 ==> member(info_json(u), "failed_allocation_attempts"@) is None,
        u.details is None ==> member(info_json(u), "details"@) is None,
        u.details matches Some(d) ==> member(info_json(u), "details"@) == Some(JsonV::Text(d)),
{
    reveal_strlit("reason");
    reveal_strlit("at");
    reveal_strlit("last_allocation_status");
    reveal_strlit("failed_allocation_attempts");
    reveal_strlit("details");
    assert("reason"@.len() == 6 && "at"@.len() == 2 && "last_allocation_status"@.len() == 22
        && "failed_allocation_attempts"@.len() == 26 && "details"@.len() == 7);
    let o = info_json(u)->Object_0;
    lemma_find(o, called::<JsonV>("reason"@), 0);
    lemma_find(o, called::<JsonV>("at"@), 1);
    lemma_find(o, called::<JsonV>("last_allocation_status"@), 2);
    if u.failed > 0 {
        lemma_find(o, called::<JsonV>("failed_allocation_attempts"@), 3);
        if u.details is Some {
            lemma_find(o, called::<JsonV>("details"@), 4);
        } else {
            lemma_find(o, called::<JsonV>("details"@), o.len() as int);
        }
    } else {
        lemma_find(o, called::<JsonV>("failed_allocation_attempts"@), o.len() as int);
        if u.details is Some {
            lemma_find(o, called::<JsonV>("details"@), 3);
        } else {
            lemma_find(o, called::<JsonV>("details"@), o.len() as int);
        }
    }
}

} // verus!
