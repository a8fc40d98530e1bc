//! How a snapshot is begun, and what comes of each share of it.

use vstd::prelude::*;

use crate::api::answer::{told, AnswerV};
use crate::api::snapshot::begin::{beginning, keeps_global, nowhere, record_of, AskingV, BegunV};
use crate::api::snapshot::create::{
    begun, deduped, described, expression, first_gone, heard, settled, stats_of, streams_asked,
    under, untakeable, why_not, AccountsV, FailureV, OutcomeV,
};
use crate::api::snapshot::plan::{numbers, planned, ShareV, UnplacedV};
use crate::json::{member, JsonV, NumberV};
use crate::laws::answers::{
    law_a_refusal_tells_why, law_an_index_that_is_not_there_is_not_found, tells,
};
use crate::laws::snapshot::{law_a_member_that_is_set, law_what_a_record_begins_with};
use crate::list::{lemma_with, lookup, with};
use crate::text::dec;

verus! {

/// A snapshot is begun where nothing keeps it from being taken: it is told what does, first
/// of its name and its repository, then of an index it names that is not there, then of a
/// repository it cannot be written into, and last of indices without a primary.
pub proof fn law_when_a_snapshot_is_begun(a: AskingV)
    ensures
        ({
            let r = beginning(a);
            let lenient = a.path_lenient || told(a.body, "ignore_unavailable"@) == Some(true);
            let kept_off = untakeable(a.repo, a.name, a.found, a.over_url, a.taken);
            let gone = match expression(a.body) {
                Some(e) => first_gone(e, a.absent, lenient),
                None => None,
            };
            let plan = planned(a.indices, a.counts, a.cluster, a.indices.len());
            let partial = told(a.body, "partial"@) == Some(true);
            &&& kept_off is Some ==> r == Err::<BegunV, AnswerV>(kept_off->0)
            &&& kept_off is None && gone is Some ==> (r matches Err(why) && tells(
                why,
                404,
                "index_not_found_exception"@,
                "no such index ["@ + gone->0 + "]"@,
            ))
            &&& kept_off is None && gone is None && !a.writable ==> (r matches Err(why) && tells(
                why,
                500,
                "repository_exception"@,
                "["@ + a.repo + "] has nowhere to write snapshot ["@ + a.name
                    + "]: the repository has no usable location"@,
            ))
            &&& kept_off is None && gone is None && a.writable && plan.unassigned.len() > 0
                && !partial ==> (r matches Err(why) && why.status == 500)
            &&& kept_off is None && gone is None && a.writable && (plan.unassigned.len() == 0
                || partial) ==> (r matches Ok(b) && b.plan == plan && b.record == record_of(a)
                && b.global == keeps_global(a.body))
        }),
{
    let lenient = a.path_lenient || told(a.body, "ignore_unavailable"@) == Some(true);
    match expression(a.body) {
        Some(e) => match first_gone(e, a.absent, lenient) {
            Some(g) => law_an_index_that_is_not_there_is_not_found(g),
            None => {},
        },
        None => {},
    }
    law_a_refusal_tells_why(
        500,
        "repository_exception"@,
        "["@ + a.repo + "] has nowhere to write snapshot ["@ + a.name
            + "]: the repository has no usable location"@,
        Seq::empty(),
    );
}

/// The record of a snapshot names it, and the indices and the streams that it is asked for;
/// and keeps what it was told about itself.
pub proof fn law_what_the_record_of_a_snapshot_says(a: AskingV, m: JsonV)
    ensures
        ({
            let o = record_of(a);
            let streams = streams_asked(a.streams, expression(a.body));
            &&& lookup(o, "snapshot"@) == Some(JsonV::Text(a.name))
            &&& lookup(o, "uuid"@) == Some(JsonV::Text(a.uuid))
            &&& lookup(o, "indices"@) == Some(
                JsonV::List(a.indices.map_values(|s: Seq<char>| JsonV::Text(s))),
            )
            &&& lookup(o, "data_streams"@) == Some(
                JsonV::List(streams.map_values(|s: Seq<char>| JsonV::Text(s))),
            )
            &&& lookup(o, "include_global_state"@) == Some(JsonV::Bool(keeps_global(a.body)))
            &&& member(a.body, "metadata"@) == Some(m) ==> lookup(o, "metadata"@) == Some(m)
        }),
{
    let streams = streams_asked(a.streams, expression(a.body));
    let global = keeps_global(a.body);
    law_what_a_record_begins_with(a.name, a.uuid, a.now, a.indices, streams, global, a.shards);
    let o = begun(a.name, a.uuid, a.now, a.indices, streams, global, a.shards);
    reveal_strlit("metadata");
    reveal_strlit("snapshot");
    reveal_strlit("uuid");
    reveal_strlit("indices");
    reveal_strlit("data_streams");
    reveal_strlit("include_global_state");
    assert("metadata"@.len() == 8 && "snapshot"@.len() == 8 && "uuid"@.len() == 4 && "indices"@.len()
        == 7 && "data_streams"@.len() == 12 && "include_global_state"@.len() == 20);
    assert("metadata"@[0] == 'm' && "snapshot"@[0] == 's');
    match member(a.body, "metadata"@) {
        Some(x) => {
            law_a_member_that_is_set(o, "metadata"@, x, "snapshot"@);
            law_a_member_that_is_set(o, "metadata"@, x, "uuid"@);
            law_a_member_that_is_set(o, "metadata"@, x, "indices"@);
            law_a_member_that_is_set(o, "metadata"@, x, "data_streams"@);
            law_a_member_that_is_set(o, "metadata"@, x, "include_global_state"@);
        },
        None => {},
    }
}

proof fn lemma_settled_failures(
    a: AccountsV,
    share: ShareV,
    node: Option<Seq<char>>,
    outcome: OutcomeV,
    n: nat,
    k: int,
)
    requires
        0 <= k < n <= share.shards.len(),
    ensures
        outcome matches OutcomeV::Failed(why) ==> settled(
            a,
            share,
            node,
            outcome,
            n,
        ).failures.contains(
            FailureV { index: share.index, shard: share.shards[k], node, reason: why },
        ),
        outcome matches OutcomeV::Done(v) ==> stats_of(v, share.shards[k]) is None ==> settled(
            a,
            share,
            node,
            outcome,
            n,
        ).failures.contains(
            FailureV {
                index: share.index,
                shard: share.shards[k],
                node,
                reason: why_not(v, share.shards[k]),
            },
        ),
    decreases n,
{
    let before = settled(a, share, node, outcome, (n - 1) as nat);
    let now = settled(a, share, node, outcome, n);
    if k < n - 1 {
        lemma_settled_failures(a, share, node, outcome, (n - 1) as nat, k);
        match outcome {
            OutcomeV::Failed(why) => {
                let f = FailureV { index: share.index, shard: share.shards[k], node, reason: why };
                let j = before.failures.index_of(f);
                assert(now.failures[j] == f);
            },
            OutcomeV::Done(v) => {
                if stats_of(v, share.shards[k]) is None {
                    let f = FailureV {
                        index: share.index,
                        shard: share.shards[k],
                        node,
                        reason: why_not(v, share.shards[k]),
                    };
                    let j = before.failures.index_of(f);
                    assert(now.failures[j] == f);
                }
            },
            OutcomeV::Lost => {},
        }
    } else {
        match outcome {
            OutcomeV::Failed(why) => {
                assert(now.failures[now.failures.len() - 1].reason == why);
            },
            OutcomeV::Done(v) => {
                if stats_of(v, share.shards[k]) is None {
                    assert(now.failures[now.failures.len() - 1].reason == why_not(
                        v,
                        share.shards[k],
                    ));
                }
            },
            OutcomeV::Lost => {},
        }
    }
}

/// Every shard of a share whose node failed has failed for the same reason, on that node; of
/// a share that was answered, each shard that was not written has failed for the reason that
/// was given for it.
pub proof fn law_what_comes_of_a_share_that_failed(
    a: AccountsV,
    share: ShareV,
    node: Option<Seq<char>>,
    v: JsonV,
    why: Seq<char>,
    k: int,
)
    requires
        0 <= k < share.shards.len(),
    ensures
        settled(
            a,
            share,
            node,
            OutcomeV::Failed(why),
            share.shards.len(),
        ).failures.contains(
            FailureV { index: share.index, shard: share.shards[k], node, reason: why },
        ),
        stats_of(v, share.shards[k]) is None ==> settled(
            a,
            share,
            node,
            OutcomeV::Done(v),
            share.shards.len(),
        ).failures.contains(
            FailureV {
                index: share.index,
                shard: share.shards[k],
                node,
                reason: why_not(v, share.shards[k]),
            },
        ),
{
    lemma_settled_failures(a, share, node, OutcomeV::Failed(why), share.shards.len(), k);
    lemma_settled_failures(a, share, node, OutcomeV::Done(v), share.shards.len(), k);
}

/// A shard that was written is kept under the number of the shard, of its index, with what
/// was said of it; one that failed with why.
pub proof fn law_what_is_kept_of_a_shard(
    a: AccountsV,
    index: Seq<char>,
    shard: u32,
    node: Option<Seq<char>>,
    reason: Seq<char>,
    stats: JsonV,
)
    ensures
        lookup(under(a.writing(index, shard, stats).written, index), dec(shard as nat)) == Some(
            stats,
        ),
        a.writing(index, shard, stats).failures == a.failures,
        lookup(under(a.failing(index, shard, node, reason).failed, index), dec(shard as nat))
            == Some(JsonV::Text(reason)),
        a.failing(index, shard, node, reason).failures.last() == (FailureV {
            index,
            shard,
            node,
            reason,
        }),
{
    let w = with(under(a.written, index), dec(shard as nat), stats);
    lemma_with(a.written, index, w, index);
    lemma_with(under(a.written, index), dec(shard as nat), stats, index);
    let f = with(under(a.failed, index), dec(shard as nat), JsonV::Text(reason));
    lemma_with(a.failed, index, f, index);
    lemma_with(under(a.failed, index), dec(shard as nat), JsonV::Text(reason), index);
}

/// What this node was asked for itself is accounted to it, and what another was asked to that
/// one.
pub proof fn law_whose_failure_it_is(
    a: AccountsV,
    share: ShareV,
    me: Option<Seq<char>>,
    why: Seq<char>,
    k: int,
)
    requires
        0 <= k < share.shards.len(),
    ensures
        heard(a, share, me, OutcomeV::Failed(why)).failures.contains(
            FailureV {
                index: share.index,
                shard: share.shards[k],
                node: if share.node is Some {
                    share.node
                } else {
                    me
                },
                reason: why,
            },
        ),
{
    let node = if share.node is None {
        me
    } else {
        share.node
    };
    lemma_settled_failures(a, share, node, OutcomeV::Failed(why), share.shards.len(), k);
}

/// An index is described by what the first node to answer for it said, and by its name and
/// its number of shards where none did.
pub proof fn law_how_an_index_is_described(a: AccountsV, index: Seq<char>, shards: u32, m: JsonV)
    ensures
        lookup(a.meta, index) == Some(m) ==> described(a, index, shards) == m,
        lookup(a.meta, index) is None ==> described(a, index, shards) == JsonV::Object(
            seq![
                ("name"@, JsonV::Text(index)),
                ("number_of_shards"@, JsonV::Number(NumberV::Whole(shards as u64))),
            ],
        ),
{
    if lookup(a.meta, index) is None {
        assert(described(a, index, shards)->Object_0 =~= seq![
            ("name"@, JsonV::Text(index)),
            ("number_of_shards"@, JsonV::Number(NumberV::Whole(shards as u64))),
        ]);
    }
}

/// Every index that has a shard without a primary is named when a snapshot is refused for it.
pub proof fn law_every_index_without_a_primary_is_named(v: Seq<UnplacedV>, i: int)
    requires
        0 <= i < v.len(),
    ensures
        deduped(v).contains(v[i].index),
    decreases v.len(),
{
    let before = deduped(v.drop_last());
    let now = deduped(v);
    if i < v.len() - 1 {
        law_every_index_without_a_primary_is_named(v.drop_last(), i);
        let j = before.index_of(v[i].index);
        assert(now[j] == v[i].index);
    } else if before.len() > 0 && before.last() == v.last().index {
        assert(now[now.len() - 1] == v[i].index);
    } else {
        assert(now[now.len() - 1] == v[i].index);
    }
}

/// The shards a node is asked for are the numbers it is sent.
pub proof fn law_the_shards_a_node_is_asked_for(v: Seq<JsonV>, n: u32)
    ensures
        v.contains(JsonV::Number(NumberV::Whole(n as u64))) ==> numbers(v).contains(n),
    decreases v.len(),
{
    let x = JsonV::Number(NumberV::Whole(n as u64));
    if v.len() > 0 && v.contains(x) {
        let i = v.index_of(x);
        let now = numbers(v);
        let before = numbers(v.drop_last());
        if i == v.len() - 1 {
            assert(now[now.len() - 1] == n);
        } else {
            assert(v.drop_last()[i] == x);
            law_the_shards_a_node_is_asked_for(v.drop_last(), n);
            let j = before.index_of(n);
            assert(now[j] == n);
        }
    }
}

} // verus!
