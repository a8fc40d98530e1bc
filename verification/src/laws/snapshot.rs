//! What a snapshot takes, and what its record says afterwards.

use vstd::prelude::*;

use crate::api::answer::set_to;
use crate::api::snapshot::begin::keeps_global;
use crate::api::snapshot::create::{
    begun, expression, finished, first_gone, not_whole, outcome_name, shards_json, stats_of,
    untakeable, waits, why_not, FailureV,
};
use crate::api::snapshot::duplicate::{carried, cloned};
use crate::api::snapshot::member::{marking, unmarked, writing};
use crate::api::snapshot::pick::snapshot_missing;
use crate::api::snapshot::plan::{at_least_one, read_from, taken, up_to, whose, ReplyV, UnplacedV};
use crate::api::snapshot::repository::{is_bad_name, is_readonly, missing, only_read, parts};
use crate::api::snapshot::status::{shard_written, status, statusless, tally, KeptV};
use crate::cluster::settings::strings_of;
use crate::cluster::state::{primary_of, IndexV, ShardState};
use crate::json::{member, JsonV, NumberV};
use crate::laws::answers::{law_a_refusal_tells_why, tells};
use crate::laws::words::{law_what_passes_is_kept, law_the_texts_of_a_list};
use crate::list::{called, find, lemma_find, lemma_found, lookup};
use crate::text::{dec, joined};

verus! {

/// A member that is set is what it was set to, and every other is what it was.
pub proof fn law_a_member_that_is_set(
    o: Seq<(Seq<char>, JsonV)>,
    key: Seq<char>,
    value: JsonV,
    other: Seq<char>,
)
    ensures
        lookup(set_to(o, key, value), key) == Some(value),
        other != key ==> lookup(set_to(o, key, value), other) == lookup(o, other),
{
    let q = called::<JsonV>(key);
    let r = called::<JsonV>(other);
    let p = set_to(o, key, value);
    lemma_found(o, q);
    lemma_found(o, r);
    let i = find(o, q);
    lemma_find(p, q, i);
    if other != key {
        let j = find(o, r);
        if j < o.len() {
            lemma_find(p, r, j);
        } else {
            lemma_find(p, r, p.len() as int);
        }
    }
}

/// What keeps a snapshot from being taken, the first of these that holds: a bad name, a
/// repository that is not there, one that is only read, and a name that is taken.
pub proof fn law_what_keeps_a_snapshot_from_being_taken(
    repo: Seq<char>,
    name: Seq<char>,
    found: Option<JsonV>,
    over_url: bool,
    taken: bool,
)
    ensures
        ({
            let r = untakeable(repo, name, found, over_url, taken);
            &&& is_bad_name(name) ==> r is Some && r->0.status == 400
            &&& !is_bad_name(name) && found is None ==> r is Some && tells(
                r->0,
                404,
                "repository_missing_exception"@,
                "["@ + repo + "] missing"@,
            )
            &&& !is_bad_name(name) && found is Some && is_readonly(found->0, over_url) ==> r is Some
                && r->0.status == 400
            &&& !is_bad_name(name) && found is Some && !is_readonly(found->0, over_url) && taken
                ==> r is Some && tells(
                r->0,
                400,
                "invalid_snapshot_name_exception"@,
                "["@ + repo + ":"@ + name + "] Invalid snapshot name ["@ + name
                    + "], snapshot with the same name already exists"@,
            )
            &&& !is_bad_name(name) && found is Some && !is_readonly(found->0, over_url) && !taken
                ==> r is None
        }),
{
    law_a_refusal_tells_why(
        404,
        "repository_missing_exception"@,
        "["@ + repo + "] missing"@,
        Seq::empty(),
    );
    law_a_refusal_tells_why(
        400,
        "invalid_snapshot_name_exception"@,
        "["@ + repo + ":"@ + name + "] Invalid snapshot name ["@ + name
            + "], snapshot with the same name already exists"@,
        Seq::empty(),
    );
}

/// What a request asks a snapshot to hold: a text as it stands, or the texts of a list
/// between commas; without either it asks for all there is.
pub proof fn law_what_a_snapshot_is_asked_to_hold(body: JsonV, s: Seq<char>, a: Seq<JsonV>)
    ensures
        member(body, "indices"@) == Some(JsonV::Text(s)) ==> expression(body) == Some(s),
        member(body, "indices"@) == Some(JsonV::List(a)) ==> expression(body) == Some(
            joined(strings_of(a), ","@),
        ),
        member(body, "indices"@) is None ==> expression(body) is None,
{
}

/// An index that is named and is not there is an error, unless it may be unavailable; one
/// that no name but a pattern asks for never is.
pub proof fn law_an_index_that_is_named_has_to_be_there(
    expr: Seq<char>,
    absent: Seq<Seq<char>>,
    i: int,
)
    requires
        0 <= i < parts(expr).len(),
    ensures
        first_gone(expr, absent, true) is None,
        !parts(expr)[i].contains('*') && absent.contains(parts(expr)[i]) ==> first_gone(
            expr,
            absent,
            false,
        ) is Some,
        first_gone(expr, absent, false) matches Some(g) ==> absent.contains(g) && !g.contains('*'),
{
    let p = crate::api::snapshot::create::gone(absent);
    lemma_found(parts(expr), p);
    if !parts(expr)[i].contains('*') && absent.contains(parts(expr)[i]) {
        assert(p(parts(expr)[i]));
    }
}

/// The cluster's own state is kept unless that is declined, and a snapshot is waited for
/// only where that is asked for.
pub proof fn law_what_is_kept_unless_declined(body: JsonV, v: Seq<char>)
    ensures
        member(body, "include_global_state"@) == Some(JsonV::Bool(false)) ==> !keeps_global(body),
        member(body, "include_global_state"@) == Some(JsonV::Bool(true)) ==> keeps_global(body),
        member(body, "include_global_state"@) is None ==> keeps_global(body),
        !waits(None),
        !waits(Some("false"@)),
        v != "false"@ ==> waits(Some(v)),
{
}

/// A snapshot is whole, or is let be taken in part; otherwise it is refused, and says which
/// indices have no primary.
pub proof fn law_a_snapshot_is_whole_or_is_let_be_partial(
    repo: Seq<char>,
    name: Seq<char>,
    uuid: Seq<char>,
    unassigned: Seq<UnplacedV>,
)
    ensures
        not_whole(repo, name, uuid, unassigned, true) is None,
        unassigned.len() == 0 ==> not_whole(repo, name, uuid, unassigned, false) is None,
        unassigned.len() > 0 ==> (not_whole(repo, name, uuid, unassigned, false) matches Some(a)
            && a.status == 500),
{
}

/// What a record says of itself when it is begun.
pub proof fn law_what_a_record_begins_with(
    name: Seq<char>,
    uuid: Seq<char>,
    now: Seq<char>,
    indices: Seq<Seq<char>>,
    streams: Seq<Seq<char>>,
    global: bool,
    shards: u64,
)
    ensures
        ({
            let o = begun(name, uuid, now, indices, streams, global, shards);
            &&& lookup(o, "snapshot"@) == Some(JsonV::Text(name))
            &&& lookup(o, "uuid"@) == Some(JsonV::Text(uuid))
            &&& lookup(o, "indices"@) == Some(
                JsonV::List(indices.map_values(|s: Seq<char>| JsonV::Text(s))),
            )
            &&& lookup(o, "data_streams"@) == Some(
                JsonV::List(streams.map_values(|s: Seq<char>| JsonV::Text(s))),
            )
            &&& lookup(o, "include_global_state"@) == Some(JsonV::Bool(global))
            &&& lookup(o, "state"@) == Some(JsonV::Text("SUCCESS"@))
            &&& lookup(o, "start_time"@) == Some(JsonV::Text(now))
            &&& lookup(o, "end_time"@) == Some(JsonV::Text(now))
            &&& lookup(o, "failures"@) == Some(JsonV::List(Seq::empty()))
        }),
{
    let o = begun(name, uuid, now, indices, streams, global, shards);
    lemma_record_words();
    lemma_find(o, called::<JsonV>("snapshot"@), 0);
    lemma_find(o, called::<JsonV>("uuid"@), 1);
    lemma_find(o, called::<JsonV>("indices"@), 5);
    lemma_find(o, called::<JsonV>("data_streams"@), 6);
    lemma_find(o, called::<JsonV>("include_global_state"@), 7);
    lemma_find(o, called::<JsonV>("state"@), 8);
    lemma_find(o, called::<JsonV>("start_time"@), 9);
    lemma_find(o, called::<JsonV>("end_time"@), 11);
    lemma_find(o, called::<JsonV>("failures"@), 14);
}

proof fn lemma_record_words()
    ensures
        "snapshot"@.len() == 8,
        "uuid"@.len() == 4,
        "version_id"@.len() == 10,
        "version"@.len() == 7,
        "remote_store_index_shallow_copy"@.len() == 31,
        "indices"@.len() == 7,
        "data_streams"@.len() == 12,
        "include_global_state"@.len() == 20,
        "state"@.len() == 5,
        "start_time"@.len() == 10,
        "start_time_in_millis"@.len() == 20,
        "end_time"@.len() == 8,
        "end_time_in_millis"@.len() == 18,
        "duration_in_millis"@.len() == 18,
        "failures"@.len() == 8,
        "shards"@.len() == 6,
        "version"@[0] == 'v',
        "indices"@[0] == 'i',
        "version_id"@[0] == 'v',
        "start_time"@[0] == 's',
        "snapshot"@[0] == 's',
        "end_time"@[0] == 'e',
        "failures"@[0] == 'f',
        "include_global_state"@[0] == 'i',
        "start_time_in_millis"@[0] == 's',
        "end_time_in_millis"@[0] == 'e',
        "duration_in_millis"@[0] == 'd',
{
    reveal_strlit("snapshot");
    reveal_strlit("uuid");
    reveal_strlit("version_id");
    reveal_strlit("version");
    reveal_strlit("remote_store_index_shallow_copy");
    reveal_strlit("indices");
    reveal_strlit("data_streams");
    reveal_strlit("include_global_state");
    reveal_strlit("state");
    reveal_strlit("start_time");
    reveal_strlit("start_time_in_millis");
    reveal_strlit("end_time");
    reveal_strlit("end_time_in_millis");
    reveal_strlit("duration_in_millis");
    reveal_strlit("failures");
    reveal_strlit("shards");
}

/// What a record says once it is finished: that all was written, that none was or that
/// some was; how many shards there were, failed and were written; and how long it took.
pub proof fn law_what_a_record_ends_with(
    record: Seq<(Seq<char>, JsonV)>,
    failures: Seq<FailureV>,
    all: u64,
    started: u64,
    ended: u64,
)
    requires
        failures.len() <= all,
    ensures
        ({
            let o = finished(record, failures, all, started, ended);
            let n = failures.len();
            &&& lookup(o, "state"@) == Some(
                JsonV::Text(
                    if n == 0 {
                        "SUCCESS"@
                    } else if n == all {
                        "FAILED"@
                    } else {
                        "PARTIAL"@
                    },
                ),
            )
            &&& lookup(o, "shards"@) == Some(shards_json(all, n as u64))
            &&& lookup(o, "start_time_in_millis"@) == Some(JsonV::Number(NumberV::Whole(started)))
            &&& lookup(o, "end_time_in_millis"@) == Some(JsonV::Number(NumberV::Whole(ended)))
            &&& ended >= started ==> lookup(o, "duration_in_millis"@) == Some(
                JsonV::Number(NumberV::Whole((ended - started) as u64)),
            )
            &&& ended < started ==> lookup(o, "duration_in_millis"@) == Some(
                JsonV::Number(NumberV::Whole(0)),
            )
            &&& lookup(o, "snapshot"@) == lookup(record, "snapshot"@)
            &&& lookup(o, "indices"@) == lookup(record, "indices"@)
        }),
{
    lemma_record_words();
    let n = failures.len();
    let failed = JsonV::List(
        crate::list::sorted(failures, crate::api::snapshot::create::by_shard(), n).map_values(
            |f: FailureV| crate::api::snapshot::create::failure_json(f),
        ),
    );
    let a = set_to(record, "shards"@, shards_json(all, n as u64));
    let b = set_to(a, "state"@, JsonV::Text(outcome_name(n, all as nat)));
    let c = set_to(b, "failures"@, failed);
    let d = set_to(c, "start_time_in_millis"@, JsonV::Number(NumberV::Whole(started)));
    let e = set_to(d, "end_time_in_millis"@, JsonV::Number(NumberV::Whole(ended)));
    let took = JsonV::Number(
        NumberV::Whole(
            if ended >= started {
                (ended - started) as u64
            } else {
                0
            },
        ),
    );
    assert(finished(record, failures, all, started, ended) == set_to(
        e,
        "duration_in_millis"@,
        took,
    ));
    lemma_through(record, a, b, c, d, e, shards_json(all, n as u64), JsonV::Text(
        outcome_name(n, all as nat),
    ), failed, started, ended, took, "state"@);
    lemma_through(record, a, b, c, d, e, shards_json(all, n as u64), JsonV::Text(
        outcome_name(n, all as nat),
    ), failed, started, ended, took, "shards"@);
    lemma_through(record, a, b, c, d, e, shards_json(all, n as u64), JsonV::Text(
        outcome_name(n, all as nat),
    ), failed, started, ended, took, "start_time_in_millis"@);
    lemma_through(record, a, b, c, d, e, shards_json(all, n as u64), JsonV::Text(
        outcome_name(n, all as nat),
    ), failed, started, ended, took, "end_time_in_millis"@);
    lemma_through(record, a, b, c, d, e, shards_json(all, n as u64), JsonV::Text(
        outcome_name(n, all as nat),
    ), failed, started, ended, took, "duration_in_millis"@);
    lemma_through(record, a, b, c, d, e, shards_json(all, n as u64), JsonV::Text(
        outcome_name(n, all as nat),
    ), failed, started, ended, took, "snapshot"@);
    lemma_through(record, a, b, c, d, e, shards_json(all, n as u64), JsonV::Text(
        outcome_name(n, all as nat),
    ), failed, started, ended, took, "indices"@);
}

proof fn lemma_through(
    record: Seq<(Seq<char>, JsonV)>,
    a: Seq<(Seq<char>, JsonV)>,
    b: Seq<(Seq<char>, JsonV)>,
    c: Seq<(Seq<char>, JsonV)>,
    d: Seq<(Seq<char>, JsonV)>,
    e: Seq<(Seq<char>, JsonV)>,
    shards: JsonV,
    state: JsonV,
    failed: JsonV,
    started: u64,
    ended: u64,
    took: JsonV,
    key: Seq<char>,
)
    requires
        a == set_to(record, "shards"@, shards),
        b == set_to(a, "state"@, state),
        c == set_to(b, "failures"@, failed),
        d == set_to(c, "start_time_in_millis"@, JsonV::Number(NumberV::Whole(started))),
        e == set_to(d, "end_time_in_millis"@, JsonV::Number(NumberV::Whole(ended))),
    ensures
        lookup(set_to(e, "duration_in_millis"@, took), key) == if key == "duration_in_millis"@ {
            Some(took)
        } else if key == "end_time_in_millis"@ {
            Some(JsonV::Number(NumberV::Whole(ended)))
        } else if key == "start_time_in_millis"@ {
            Some(JsonV::Number(NumberV::Whole(started)))
        } else if key == "failures"@ {
            Some(failed)
        } else if key == "state"@ {
            Some(state)
        } else if key == "shards"@ {
            Some(shards)
        } else {
            lookup(record, key)
        },
{
    law_a_member_that_is_set(record, "shards"@, shards, key);
    law_a_member_that_is_set(a, "state"@, state, key);
    law_a_member_that_is_set(b, "failures"@, failed, key);
    law_a_member_that_is_set(
        c,
        "start_time_in_millis"@,
        JsonV::Number(NumberV::Whole(started)),
        key,
    );
    law_a_member_that_is_set(d, "end_time_in_millis"@, JsonV::Number(NumberV::Whole(ended)), key);
    law_a_member_that_is_set(e, "duration_in_millis"@, took, key);
}

/// The shards of a record are those there were, those that failed and the rest, which were
/// written.
pub proof fn law_the_shards_of_a_record(all: u64, failed: u64)
    requires
        failed <= all,
    ensures
        member(shards_json(all, failed), "total"@) == Some(JsonV::Number(NumberV::Whole(all))),
        member(shards_json(all, failed), "failed"@) == Some(JsonV::Number(NumberV::Whole(failed))),
        member(shards_json(all, failed), "successful"@) == Some(
            JsonV::Number(NumberV::Whole((all - failed) as u64)),
        ),
{
    reveal_strlit("total");
    reveal_strlit("failed");
    reveal_strlit("successful");
    assert("total"@.len() == 5 && "failed"@.len() == 6 && "successful"@.len() == 10);
    let o = shards_json(all, failed)->Object_0;
    lemma_find(o, called::<JsonV>("total"@), 0);
    lemma_find(o, called::<JsonV>("failed"@), 1);
    lemma_find(o, called::<JsonV>("successful"@), 2);
}

/// A shard is read where its primary is active, and nowhere while it is not.
pub proof fn law_where_a_shard_is_read(t: Seq<IndexV>, index: Seq<char>, shard: u32)
    ensures
        match primary_of(t, index, shard) {
            None => read_from(t, index, shard) is None,
            Some(p) => if p.state == ShardState::Started || p.state == ShardState::Relocating {
                read_from(t, index, shard) == p.node
            } else {
                read_from(t, index, shard) is None
            },
        },
{
}

/// A node's own share is nobody else's, an index has one shard at the least, and all of an
/// index's shards are taken where there is one node.
pub proof fn law_whose_a_share_is(node: Seq<char>, me: Seq<char>, n: u32, shard: u32)
    ensures
        whose(me, Some(me)) is None,
        node != me ==> whose(node, Some(me)) == Some(node),
        whose(node, None) == Some(node),
        n == 0 ==> at_least_one(n) == 1,
        n > 0 ==> at_least_one(n) == n,
        up_to(n).contains(shard) <==> shard < n,
{
    if shard < n {
        assert(up_to(n)[shard as int] == shard);
    }
}

/// Only a node of the cluster may ask another to leave its mark in a repository or to write
/// shards, and only where that can reach the repository.
pub proof fn law_only_a_node_of_the_cluster_may_ask(
    from: Seq<char>,
    me: Seq<char>,
    nodes: Seq<Seq<char>>,
    request: JsonV,
    reached: bool,
    t: Seq<IndexV>,
)
    ensures
        ({
            let known = from == me || nodes.contains(from);
            &&& !known ==> marking(from, me, nodes, request, reached) is Err && writing(
                from,
                me,
                nodes,
                request,
                reached,
                t,
            ) is Err
            &&& !reached ==> marking(from, me, nodes, request, reached) is Err && writing(
                from,
                me,
                nodes,
                request,
                reached,
                t,
            ) is Err
            &&& known && reached ==> marking(from, me, nodes, request, reached) is Ok && writing(
                from,
                me,
                nodes,
                request,
                reached,
                t,
            ) is Ok
        }),
{
}

/// What comes of asking a node: what it said, or why it said nothing of use.
pub proof fn law_what_comes_of_asking_a_node(node: Seq<char>, why: Seq<char>, j: JsonV)
    ensures
        taken(node, ReplyV::Said(j)) == Ok::<JsonV, Seq<char>>(j),
        taken(node, ReplyV::Error(why)) == Err::<JsonV, Seq<char>>(why),
        taken(node, ReplyV::Silence) == Err::<JsonV, Seq<char>>(
            "node ["@ + node + "] did not answer"@,
        ),
        taken(node, ReplyV::Nonsense) == Err::<JsonV, Seq<char>>(
            "node ["@ + node + "] answered nonsense"@,
        ),
        unmarked(ReplyV::Silence) == Some("did not answer"@),
        unmarked(ReplyV::Error(why)) == Some(why),
        unmarked(ReplyV::Said(j)) is None,
{
}

/// Why a shard was not written is what the node said of it, by its number or in its place.
pub proof fn law_why_a_shard_was_not_written(
    v: JsonV,
    o: Seq<(Seq<char>, JsonV)>,
    l: Seq<JsonV>,
    shard: u32,
    why: Seq<char>,
)
    ensures
        member(v, "failed"@) == Some(JsonV::Object(o)) && lookup(o, dec(shard as nat)) == Some(
            JsonV::Text(why),
        ) ==> why_not(v, shard) == why,
        member(v, "failed"@) == Some(JsonV::List(l)) && shard < l.len() && l[shard as int]
            == JsonV::Text(why) ==> why_not(v, shard) == why,
        member(v, "failed"@) is None ==> why_not(v, shard) == "the shard was not written"@,
        member(v, "shards"@) == Some(JsonV::Object(o)) ==> stats_of(v, shard) == lookup(
            o,
            dec(shard as nat),
        ),
{
}

/// A clone is refused for a bad name, its own or that of its source; for a source that is
/// not there; for a name that is taken; and where the repository is only read.
pub proof fn law_what_keeps_a_clone_from_being_made(
    repo: Seq<char>,
    name: Seq<char>,
    target: Seq<char>,
    source: Option<JsonV>,
    taken: bool,
    def: Option<JsonV>,
    over_url: bool,
)
    ensures
        ({
            let r = cloned(repo, name, target, source, taken, def, over_url);
            let read_only = def is Some && is_readonly(def->0, over_url);
            &&& is_bad_name(name) || is_bad_name(target) ==> r is Some && r->0.status == 400
            &&& !is_bad_name(name) && !is_bad_name(target) && source is None ==> r is Some && tells(
                r->0,
                400,
                "snapshot_restore_exception"@,
                "["@ + repo + ":"@ + name + "] snapshot does not exist"@,
            )
            &&& !is_bad_name(name) && !is_bad_name(target) && source is Some && taken ==> r is Some
                && r->0.status == 400
            &&& !is_bad_name(name) && !is_bad_name(target) && source is Some && !taken && read_only
                ==> r == Some(only_read(repo))
            &&& !is_bad_name(name) && !is_bad_name(target) && source is Some && !taken && !read_only
                ==> r is None
        }),
{
    law_a_refusal_tells_why(
        400,
        "snapshot_restore_exception"@,
        "["@ + repo + ":"@ + name + "] snapshot does not exist"@,
        Seq::empty(),
    );
}

/// A clone holds the indices of its source that it is asked for, by name or by pattern, and
/// all of them where it is asked for none.
pub proof fn law_what_a_clone_holds(source: JsonV, body: JsonV, n: Seq<char>, want: Seq<char>)
    ensures
        member(body, "indices"@) is None ==> carried(source, body)
            == crate::api::answer::texts_at(source, "indices"@),
        (member(body, "indices"@) matches Some(JsonV::List(a)) && a.contains(JsonV::Text(want)))
            && (want == n || crate::text::fits(want, n)) && (member(source, "indices"@)
            matches Some(JsonV::List(held)) && held.contains(JsonV::Text(n))) ==> carried(
            source,
            body,
        ).contains(n),
{
    match (member(body, "indices"@), member(source, "indices"@)) {
        (Some(JsonV::List(a)), Some(JsonV::List(held))) => {
            law_the_texts_of_a_list(a, want);
            law_the_texts_of_a_list(held, n);
            let w = strings_of(a);
            if a.contains(JsonV::Text(want)) && (want == n || crate::text::fits(want, n))
                && held.contains(JsonV::Text(n)) {
                let i = w.index_of(want);
                assert((crate::api::snapshot::duplicate::asks_for(n))(w[i]));
                law_what_passes_is_kept(
                    strings_of(held),
                    crate::api::snapshot::duplicate::asked_in(w),
                    n,
                );
            }
        },
        _ => {},
    }
}

/// What a status says of a snapshot: a shard that was written is done, one that was not has
/// failed, and an index that was kept is a file besides its shards.
pub proof fn law_what_a_status_counts(meta: Option<JsonV>, started: u64, n: nat)
    ensures
        tally(meta, started, n).done + tally(meta, started, n).failed == n,
        tally(meta, started, n).shards.len() == n,
        forall|k: int|
            0 <= k < n ==> (#[trigger] tally(meta, started, n).shards[k]).0 == dec(k as nat)
                && member(tally(meta, started, n).shards[k].1, "stage"@) == Some(
                JsonV::Text(
                    if shard_written(meta, k as nat) is Some {
                        "DONE"@
                    } else {
                        "FAILURE"@
                    },
                ),
            ),
    decreases n,
{
    if n > 0 {
        law_what_a_status_counts(meta, started, (n - 1) as nat);
        let before = tally(meta, started, (n - 1) as nat);
        let now = tally(meta, started, n);
        let o = now.shards[n - 1].1->Object_0;
        lemma_find(o, called::<JsonV>("stage"@), 0);
        assert forall|k: int| 0 <= k < n implies (#[trigger] now.shards[k]).0 == dec(k as nat)
            && member(now.shards[k].1, "stage"@) == Some(
            JsonV::Text(
                if shard_written(meta, k as nat) is Some {
                    "DONE"@
                } else {
                    "FAILURE"@
                },
            ),
        ) by {
            if k < n - 1 {
                assert(now.shards[k] == before.shards[k]);
            }
        }
    }
}

/// A status is refused for a snapshot that is missing, unless it may be.
pub proof fn law_a_missing_snapshot_has_no_status(
    repo: Seq<char>,
    found: Seq<JsonV>,
    gone: Seq<char>,
    indices: Option<Seq<char>>,
)
    ensures
        statusless(repo, found, Some(gone), indices, false) == Some(snapshot_missing(repo, gone)),
        statusless(repo, found, Some(gone), indices, true) is None,
        statusless(repo, found, None, None, false) is None,
{
}

/// The state a status tells is that of the record, and success where the record tells none.
pub proof fn law_the_state_a_status_tells(repo: Seq<char>, s: JsonV, kept: Seq<KeptV>)
    ensures
        member(status(repo, s, kept), "state"@) == match member(s, "state"@) {
            Some(st) => Some(st),
            None => Some(JsonV::Text("SUCCESS"@)),
        },
        member(status(repo, s, kept), "repository"@) == Some(JsonV::Text(repo)),
{
    reveal_strlit("snapshot");
    reveal_strlit("repository");
    reveal_strlit("uuid");
    reveal_strlit("state");
    assert("snapshot"@.len() == 8 && "repository"@.len() == 10 && "uuid"@.len() == 4
        && "state"@.len() == 5);
    let o = status(repo, s, kept)->Object_0;
    lemma_find(o, called::<JsonV>("repository"@), 1);
    lemma_find(o, called::<JsonV>("state"@), 3);
}

} // verus!
