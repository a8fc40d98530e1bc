//! What is made known of repositories, snapshots and restores, member by member.

use vstd::prelude::*;

use crate::api::answer::texts_at;
use crate::api::snapshot::create::{by_name, streams_asked};
use crate::api::snapshot::duplicate::{backs, carried, clone_record, is_backed};
use crate::api::snapshot::pick::{asked_for, found, picked, snapshots_answer};
use crate::api::snapshot::repository::{
    allowed, bad_lookup, first_failure, is_named, missing, parts, patterns_of, unverified, verified,
};
use crate::api::snapshot::restore::restored_json;
use crate::api::snapshot::status::{
    counts_json, first_without, index_tally, or, shard_reason, shard_written, shards_said,
    stats_json, status, statusless, summed, KeptV,
};
use crate::cluster::settings::strings_of;
use crate::json::{member, JsonV, NumberV};
use crate::laws::answers::{law_a_failure_tells_what_it_holds, tells};
use crate::laws::snapshot::law_a_member_that_is_set;
use crate::laws::words::{
    law_a_text_is_cut_into_the_words_between_marks, law_what_passes_is_kept, stands,
};
use crate::list::{
    called, find, keep, lemma_before, lemma_before_before, lemma_find, lemma_found, lemma_sorted,
    lookup, sorted,
};
use crate::text::{cut, dec};

verus! {

/// A name that steps through directories is refused wherever it is looked up, among others
/// too, and any other list of names is not.
pub proof fn law_no_route_is_looked_up(repo: Seq<char>, names: Seq<char>, one: Seq<char>)
    requires
        !one.contains(','),
    ensures
        stands(names, ',', one) && (one.contains('/') || one.contains('\\') || one == "."@ || one
            == ".."@) ==> (bad_lookup(repo, names) matches Some(a) && a.status == 400),
        !names.contains('/') && !names.contains('\\') && !names.contains('.') ==> bad_lookup(
            repo,
            names,
        ) is None,
{
    let all = cut(names, ',');
    let p = crate::api::snapshot::repository::route();
    lemma_found(all, p);
    law_a_text_is_cut_into_the_words_between_marks(names, ',', one);
    if stands(names, ',', one) && (one.contains('/') || one.contains('\\') || one == "."@ || one
        == ".."@) {
        let k = all.index_of(one);
        assert(p(all[k]));
    }
    if !names.contains('/') && !names.contains('\\') && !names.contains('.') {
        let i = find(all, p);
        if i < all.len() {
            let x = all[i];
            lemma_no_comma(names, i);
            law_a_text_is_cut_into_the_words_between_marks(names, ',', x);
            assert(all.contains(x));
            let at = choose|at: int| crate::laws::words::stands_at(names, ',', x, at);
            assert forall|c: char| x.contains(c) implies names.contains(c) by {
                let j = x.index_of(c);
                assert(names.subrange(at, at + x.len())[j] == names[at + j]);
            }
            reveal_strlit(".");
            reveal_strlit("..");
            if x == "."@ || x == ".."@ {
                assert(x[0] == '.');
                assert(x.contains('.'));
            }
        }
    }
}

proof fn lemma_no_comma(s: Seq<char>, i: int)
    requires
        0 <= i < cut(s, ',').len(),
    ensures
        !cut(s, ',')[i].contains(','),
    decreases s.len(),
{
    crate::text::lemma_cut_some(s, ',');
    if s.len() > 0 {
        let t = s.drop_last();
        let before = cut(t, ',');
        crate::text::lemma_cut_some(t, ',');
        if s.last() == ',' {
            if i < before.len() {
                lemma_no_comma(t, i);
            }
        } else {
            if i < before.len() - 1 {
                lemma_no_comma(t, i);
            } else {
                lemma_no_comma(t, before.len() - 1);
                let x = before.last().push(s.last());
                assert(cut(s, ',')[i] == x);
                if x.contains(',') {
                    let j = x.index_of(',');
                    assert(before.last()[j] == ',');
                }
            }
        }
    }
}

/// What kept a repository from being proved: what this node said, else the first of the
/// others that said something, with its name.
pub proof fn law_what_kept_a_repository_from_being_proved(
    mine: Option<Seq<char>>,
    others: Seq<(Seq<char>, Option<Seq<char>>)>,
    k: int,
    why: Seq<char>,
)
    ensures
        mine is Some ==> first_failure(mine, others, others.len()) == mine,
        mine is None && 0 <= k < others.len() && others[k].1 == Some(why) && (forall|j: int|
            0 <= j < k ==> (#[trigger] others[j]).1 is None) ==> first_failure(
            mine,
            others,
            others.len(),
        ) == Some("node ["@ + others[k].0 + "] "@ + why),
        mine is None && (forall|j: int| 0 <= j < others.len() ==> (#[trigger] others[j]).1 is None)
            ==> first_failure(mine, others, others.len()) is None,
{
    lemma_failure(mine, others, k, others.len());
}

proof fn lemma_failure(
    mine: Option<Seq<char>>,
    others: Seq<(Seq<char>, Option<Seq<char>>)>,
    k: int,
    n: nat,
)
    requires
        n <= others.len(),
    ensures
        mine is Some ==> first_failure(mine, others, n) == mine,
        mine is None && 0 <= k < n && others[k].1 is Some && (forall|j: int|
            0 <= j < k ==> (#[trigger] others[j]).1 is None) ==> first_failure(mine, others, n)
            == Some("node ["@ + others[k].0 + "] "@ + others[k].1->0),
        mine is None && (forall|j: int| 0 <= j < n ==> (#[trigger] others[j]).1 is None)
            ==> first_failure(mine, others, n) is None,
    decreases n,
{
    if n > 0 {
        lemma_failure(mine, others, k, (n - 1) as nat);
    }
}

/// A repository that could not be proved is told to be so, with why.
pub proof fn law_a_repository_that_could_not_be_proved(name: Seq<char>, why: Seq<char>)
    ensures
        tells(
            unverified(name, why),
            500,
            "repository_verification_exception"@,
            "["@ + name + "] cannot be verified"@,
        ),
{
    reveal_strlit("root_cause");
    reveal_strlit("type");
    reveal_strlit("reason");
    assert("root_cause"@.len() == 10 && "type"@.len() == 4 && "reason"@.len() == 6);
    let c = JsonV::Object(crate::api::answer::cause("repository_verification_exception"@, why));
    let o = crate::json::no_fields().push(("root_cause"@, JsonV::List(seq![c]))).push(
        ("type"@, JsonV::Text("repository_verification_exception"@)),
    ).push(("reason"@, JsonV::Text("["@ + name + "] cannot be verified"@))).push(
        ("caused_by"@, c),
    );
    lemma_find(o, called::<JsonV>("type"@), 1);
    lemma_find(o, called::<JsonV>("reason"@), 2);
    law_a_failure_tells_what_it_holds(
        500,
        o,
        "repository_verification_exception"@,
        "["@ + name + "] cannot be verified"@,
    );
}

/// A repository is proved where every node of it says nothing against it and each of their
/// marks is read back.
pub proof fn law_a_repository_every_node_reaches_is_proved(
    nodes: Seq<(Seq<char>, Seq<char>)>,
    reads: Seq<Option<Seq<char>>>,
    token: Seq<char>,
    why: Seq<char>,
    writable: bool,
)
    ensures
        verified(nodes, Some(why), writable, reads, token) == Err::<
            Seq<(Seq<char>, Seq<char>)>,
            Seq<char>,
        >(why),
        (forall|i: int| 0 <= i < reads.len() ==> #[trigger] reads[i] == Some(token)) ==> verified(
            nodes,
            None,
            true,
            reads,
            token,
        ) == Ok::<Seq<(Seq<char>, Seq<char>)>, Seq<char>>(nodes),
        verified(nodes, None, false, reads, token) == Ok::<
            Seq<(Seq<char>, Seq<char>)>,
            Seq<char>,
        >(nodes),
{
    lemma_found(reads, crate::api::snapshot::repository::unread(reads, token));
}

/// The addresses that are let are those set, else those the node was started with.
pub proof fn law_which_addresses_are_let(
    a: Seq<JsonV>,
    one: Seq<char>,
    started: Option<Seq<char>>,
)
    ensures
        patterns_of(JsonV::Text(one)) == parts(one),
        patterns_of(JsonV::List(a)) == strings_of(a),
        patterns_of(JsonV::Null).len() == 0,
        parts(one).len() > 0 ==> allowed(Some(JsonV::Text(one)), started) == parts(one),
        allowed(None, Some(one)) == parts(one),
        allowed(None, None).len() == 0,
{
}

/// Snapshots are looked for only under names that can be, and only in a repository that is
/// there.
pub proof fn law_where_snapshots_are_looked_for(
    repo: Seq<char>,
    names: Seq<char>,
    known: bool,
    held: Seq<(Seq<char>, JsonV)>,
    records: Option<Seq<(Seq<char>, JsonV)>>,
    lenient: bool,
    brief: bool,
)
    ensures
        ({
            let a = asked_for(repo, names, known, held, records, lenient, brief);
            match bad_lookup(repo, names) {
                Some(bad) => a == bad,
                None => if known {
                    let (f, gone) = found(held, records, names);
                    a == snapshots_answer(repo, f, gone, lenient, brief)
                } else {
                    a == missing(repo)
                },
            }
        }),
        picked(held, names).1 is None ==> found(held, records, names) == picked(held, names),
        records is None ==> found(held, records, names) == picked(held, names),
{
}

/// The streams a snapshot keeps are those it is asked for, and all of them where it is asked
/// for none in particular.
pub proof fn law_which_streams_a_snapshot_keeps(
    streams: Seq<Seq<char>>,
    expr: Seq<char>,
    s: Seq<char>,
)
    ensures
        streams_asked(streams, None).contains(s) <==> streams.contains(s),
        streams_asked(streams, Some(expr)).contains(s) <==> streams.contains(s) && is_named(expr, s),
{
    lemma_streams(streams, None, s);
    lemma_streams(streams, Some(expr), s);
}

proof fn lemma_streams(streams: Seq<Seq<char>>, asked: Option<Seq<char>>, s: Seq<char>)
    ensures
        streams_asked(streams, asked).contains(s) <==> streams.contains(s) && (
        crate::api::snapshot::create::reached(asked))(s),
{
    let p = crate::api::snapshot::create::reached(asked);
    let kept = keep(streams, p);
    law_what_passes_is_kept(streams, p, s);
    let less = by_name();
    assert forall|a: Seq<char>, b: Seq<char>| #[trigger] less(a, b) implies !less(b, a) by {
        lemma_before(a, b);
    }
    assert forall|a: Seq<char>, b: Seq<char>, c: Seq<char>|
        #[trigger] less(a, b) && #[trigger] less(b, c) implies less(a, c) by {
        lemma_before_before(a, b, c);
    }
    lemma_sorted(kept, less, kept.len());
    let out = sorted(kept, less, kept.len());
    assert(kept.take(kept.len() as int) =~= kept);
    kept.to_multiset_ensures();
    out.to_multiset_ensures();
    assert(out.contains(s) <==> out.to_multiset().count(s) > 0);
    assert(kept.contains(s) <==> kept.to_multiset().count(s) > 0);
}

/// The record of a clone names the indices it holds, the streams that one of them backs, and
/// the shards of its source.
pub proof fn law_what_the_record_of_a_clone_says(
    target: Seq<char>,
    uuid: Seq<char>,
    now: Seq<char>,
    source: JsonV,
    body: JsonV,
)
    ensures
        ({
            let o = clone_record(target, uuid, now, source, body);
            let held = carried(source, body);
            &&& lookup(o, "snapshot"@) == Some(JsonV::Text(target))
            &&& lookup(o, "uuid"@) == Some(JsonV::Text(uuid))
            &&& lookup(o, "indices"@) == Some(
                JsonV::List(held.map_values(|s: Seq<char>| JsonV::Text(s))),
            )
            &&& lookup(o, "shards"@) == Some(crate::api::answer::at(source, "shards"@))
            &&& lookup(o, "state"@) == Some(JsonV::Text("SUCCESS"@))
            &&& lookup(o, "include_global_state"@) == Some(
                JsonV::Bool(
                    crate::api::answer::told(source, "include_global_state"@) != Some(false),
                ),
            )
        }),
{
    let indices = carried(source, body);
    let streams = keep(texts_at(source, "data_streams"@), is_backed(indices));
    let global = match crate::api::answer::told(source, "include_global_state"@) {
        Some(b) => b,
        None => true,
    };
    let o = crate::api::snapshot::create::begun(target, uuid, now, indices, streams, global, 0);
    crate::laws::snapshot::law_what_a_record_begins_with(
        target,
        uuid,
        now,
        indices,
        streams,
        global,
        0,
    );
    let v = crate::api::answer::at(source, "shards"@);
    reveal_strlit("snapshot");
    reveal_strlit("uuid");
    reveal_strlit("indices");
    reveal_strlit("shards");
    reveal_strlit("state");
    reveal_strlit("include_global_state");
    assert("snapshot"@.len() == 8 && "uuid"@.len() == 4 && "indices"@.len() == 7 && "shards"@.len()
        == 6 && "state"@.len() == 5 && "include_global_state"@.len() == 20);
    law_a_member_that_is_set(o, "shards"@, v, "snapshot"@);
    law_a_member_that_is_set(o, "shards"@, v, "uuid"@);
    law_a_member_that_is_set(o, "shards"@, v, "indices"@);
    law_a_member_that_is_set(o, "shards"@, v, "state"@);
    law_a_member_that_is_set(o, "shards"@, v, "include_global_state"@);
}

/// A stream is backed by an index whose name begins with `.ds-`, the stream and `-`.
pub proof fn law_what_backs_a_stream(stream: Seq<char>, rest: Seq<char>, n: Seq<char>)
    ensures
        (backs(stream))(".ds-"@ + stream + "-"@ + rest),
        (backs(stream))(n) ==> n.len() >= 4int + stream.len() + 1 && n.take(4) == ".ds-"@ && n.subrange(
            4,
            4int + stream.len(),
        ) == stream && n[4int + stream.len()] == '-',
{
    reveal_strlit(".ds-");
    reveal_strlit("-");
    let head = ".ds-"@ + stream + "-"@;
    assert((head + rest).take(head.len() as int) =~= head);
    if (backs(stream))(n) {
        assert(n.take(head.len() as int) == head);
        assert(n.take(4) =~= head.take(4));
        assert(head.take(4) =~= ".ds-"@);
        assert(n.subrange(4, 4int + stream.len()) =~= head.subrange(4, 4int + stream.len()));
        assert(head.subrange(4, 4int + stream.len()) =~= stream);
        assert(n[4int + stream.len()] == head[4int + stream.len()]);
    }
}

/// What a status counts of an index's shards: none that is still being written, those that
/// are done and those that failed, and both together.
pub proof fn law_what_a_status_counts_of_shards(done: nat, failed: nat)
    requires
        done + failed <= u64::MAX,
    ensures
        member(counts_json(done, failed), "done"@) == Some(
            JsonV::Number(NumberV::Whole(done as u64)),
        ),
        member(counts_json(done, failed), "failed"@) == Some(
            JsonV::Number(NumberV::Whole(failed as u64)),
        ),
        member(counts_json(done, failed), "total"@) == Some(
            JsonV::Number(NumberV::Whole((done + failed) as u64)),
        ),
        member(counts_json(done, failed), "initializing"@) == Some(
            JsonV::Number(NumberV::Whole(0)),
        ),
        member(counts_json(done, failed), "started"@) == Some(JsonV::Number(NumberV::Whole(0))),
        member(counts_json(done, failed), "finalizing"@) == Some(JsonV::Number(NumberV::Whole(0))),
{
    reveal_strlit("initializing");
    reveal_strlit("started");
    reveal_strlit("finalizing");
    reveal_strlit("done");
    reveal_strlit("failed");
    reveal_strlit("total");
    assert("initializing"@.len() == 12 && "started"@.len() == 7 && "finalizing"@.len() == 10
        && "done"@.len() == 4 && "failed"@.len() == 6 && "total"@.len() == 5);
    let o = counts_json(done, failed)->Object_0;
    lemma_find(o, called::<JsonV>("initializing"@), 0);
    lemma_find(o, called::<JsonV>("started"@), 1);
    lemma_find(o, called::<JsonV>("finalizing"@), 2);
    lemma_find(o, called::<JsonV>("done"@), 3);
    lemma_find(o, called::<JsonV>("failed"@), 4);
    lemma_find(o, called::<JsonV>("total"@), 5);
}

/// What a status says of files: how many and how large, when they were begun and how long
/// they took.
pub proof fn law_what_a_status_says_of_files(files: u64, bytes: u64, start: u64, time: u64)
    ensures
        ({
            let s = stats_json(files as nat, bytes as nat, start, time);
            &&& member(s, "start_time_in_millis"@) == Some(JsonV::Number(NumberV::Whole(start)))
            &&& member(s, "time_in_millis"@) == Some(JsonV::Number(NumberV::Whole(time)))
            &&& member(s, "incremental"@) == member(s, "total"@)
            &&& member(s, "total"@) matches Some(t) && member(t, "file_count"@) == Some(
                JsonV::Number(NumberV::Whole(files)),
            ) && member(t, "size_in_bytes"@) == Some(JsonV::Number(NumberV::Whole(bytes)))
        }),
{
    reveal_strlit("file_count");
    reveal_strlit("size_in_bytes");
    reveal_strlit("incremental");
    reveal_strlit("total");
    reveal_strlit("start_time_in_millis");
    reveal_strlit("time_in_millis");
    assert("file_count"@.len() == 10 && "size_in_bytes"@.len() == 13 && "incremental"@.len() == 11
        && "total"@.len() == 5 && "start_time_in_millis"@.len() == 20 && "time_in_millis"@.len()
        == 14);
    let o = stats_json(files as nat, bytes as nat, start, time)->Object_0;
    lemma_find(o, called::<JsonV>("incremental"@), 0);
    lemma_find(o, called::<JsonV>("total"@), 1);
    lemma_find(o, called::<JsonV>("start_time_in_millis"@), 2);
    lemma_find(o, called::<JsonV>("time_in_millis"@), 3);
    let t = o[1].1->Object_0;
    lemma_find(t, called::<JsonV>("file_count"@), 0);
    lemma_find(t, called::<JsonV>("size_in_bytes"@), 1);
}

/// What an index comes to in a status: a file for each shard that was written and one for
/// what describes it, with the bytes of both; an index that is not described is none.
pub proof fn law_what_an_index_comes_to_in_a_status(k: KeptV, started: u64)
    ensures
        ({
            let (t, files, bytes) = index_tally(k, started);
            match k.found {
                Some((meta, size)) => files == t.done + 1 && bytes == t.bytes + size,
                None => files == t.done && bytes == t.bytes,
            }
        }),
        k.found is None ==> shards_said(k) == 1,
        k.found matches Some((meta, size)) ==> (member(meta, "number_of_shards"@) matches Some(
            JsonV::Number(NumberV::Whole(n)),
        ) ==> shards_said(k) == n),
{
}

/// Why a shard failed is what is kept of it, and that it was not written where nothing is.
pub proof fn law_why_a_shard_failed(meta: JsonV, failed: JsonV, shard: nat, why: Seq<char>)
    ensures
        member(meta, "failed_shards"@) == Some(failed) && member(failed, dec(shard)) == Some(
            JsonV::Text(why),
        ) ==> shard_reason(Some(meta), shard) == why,
        member(meta, "failed_shards"@) is None ==> shard_reason(Some(meta), shard)
            == "the shard was not written"@,
        shard_reason(None, shard) == "the shard was not written"@,
        member(meta, "shards"@) == Some(failed) ==> shard_written(Some(meta), shard) == member(
            failed,
            dec(shard),
        ),
        shard_written(None, shard) is None,
{
}

/// What a restore answers with: what was restored, and its shards, all of them there.
pub proof fn law_what_a_restore_answers_with(name: Seq<char>, restored: Seq<Seq<char>>)
    requires
        restored.len() <= u64::MAX,
    ensures
        member(restored_json(name, restored), "snapshot"@) matches Some(s) && {
            let n = if restored.len() == 0 {
                1u64
            } else {
                restored.len() as u64
            };
            &&& member(s, "snapshot"@) == Some(JsonV::Text(name))
            &&& member(s, "indices"@) == Some(
                JsonV::List(restored.map_values(|x: Seq<char>| JsonV::Text(x))),
            )
            &&& member(s, "shards"@) matches Some(c) && member(c, "total"@) == Some(
                JsonV::Number(NumberV::Whole(n)),
            ) && member(c, "failed"@) == Some(JsonV::Number(NumberV::Whole(0))) && member(
                c,
                "successful"@,
            ) == Some(JsonV::Number(NumberV::Whole(n)))
        },
{
    reveal_strlit("snapshot");
    reveal_strlit("indices");
    reveal_strlit("shards");
    reveal_strlit("total");
    reveal_strlit("failed");
    reveal_strlit("successful");
    assert("snapshot"@.len() == 8 && "indices"@.len() == 7 && "shards"@.len() == 6 && "total"@.len()
        == 5 && "failed"@.len() == 6 && "successful"@.len() == 10);
    let o = restored_json(name, restored)->Object_0;
    lemma_find(o, called::<JsonV>("snapshot"@), 0);
    let s = o[0].1->Object_0;
    lemma_find(s, called::<JsonV>("snapshot"@), 0);
    lemma_find(s, called::<JsonV>("indices"@), 1);
    lemma_find(s, called::<JsonV>("shards"@), 2);
    let c = s[2].1->Object_0;
    lemma_find(c, called::<JsonV>("total"@), 0);
    lemma_find(c, called::<JsonV>("failed"@), 1);
    lemma_find(c, called::<JsonV>("successful"@), 2);
}

/// The shards of some indices that are done, all together.
pub open spec fn all_done(kept: Seq<KeptV>, started: u64) -> nat
    decreases kept.len(),
{
    if kept.len() == 0 {
        0
    } else {
        all_done(kept.drop_last(), started) + index_tally(kept.last(), started).0.done
    }
}

/// The shards of some indices that failed, all together.
pub open spec fn all_failed(kept: Seq<KeptV>, started: u64) -> nat
    decreases kept.len(),
{
    if kept.len() == 0 {
        0
    } else {
        all_failed(kept.drop_last(), started) + index_tally(kept.last(), started).0.failed
    }
}

proof fn lemma_summed(kept: Seq<KeptV>, started: u64, took: u64, n: nat)
    requires
        n <= kept.len(),
    ensures
        summed(kept, started, took, n).done == all_done(kept.take(n as int), started),
        summed(kept, started, took, n).failed == all_failed(kept.take(n as int), started),
    decreases n,
{
    if n == 0 {
        assert(kept.take(0) =~= Seq::empty());
    } else {
        lemma_summed(kept, started, took, (n - 1) as nat);
        crate::list::lemma_take(kept, n - 1);
    }
}

/// The shards that a status tells of a snapshot are those of all its indices together.
pub proof fn law_a_status_adds_its_indices_up(repo: Seq<char>, s: JsonV, kept: Seq<KeptV>)
    ensures
        ({
            let started = or(crate::api::answer::counted(s, "start_time_in_millis"@), 0);
            member(status(repo, s, kept), "shards_stats"@) == Some(
                counts_json(all_done(kept, started), all_failed(kept, started)),
            )
        }),
{
    let started = or(crate::api::answer::counted(s, "start_time_in_millis"@), 0);
    let took = or(crate::api::answer::counted(s, "duration_in_millis"@), 0);
    lemma_summed(kept, started, took, kept.len());
    assert(kept.take(kept.len() as int) =~= kept);
    reveal_strlit("snapshot");
    reveal_strlit("repository");
    reveal_strlit("uuid");
    reveal_strlit("state");
    reveal_strlit("include_global_state");
    reveal_strlit("shards_stats");
    assert("snapshot"@.len() == 8 && "repository"@.len() == 10 && "uuid"@.len() == 4
        && "state"@.len() == 5 && "include_global_state"@.len() == 20 && "shards_stats"@.len()
        == 12);
    let o = status(repo, s, kept)->Object_0;
    lemma_find(o, called::<JsonV>("shards_stats"@), 5);
}

proof fn lemma_first_without(repo: Seq<char>, found: Seq<JsonV>, wanted: Seq<Seq<char>>, n: nat)
    requires
        n <= found.len(),
    ensures
        first_without(repo, found, wanted, n) is None <==> forall|k: int, i: int|
            0 <= k < n && 0 <= i < wanted.len() ==> #[trigger] texts_at(
                found[k],
                "indices"@,
            ).contains(#[trigger] wanted[i]),
        first_without(repo, found, wanted, n) matches Some(a) ==> a.status == 404,
    decreases n,
{
    if n > 0 {
        lemma_first_without(repo, found, wanted, (n - 1) as nat);
        let held = texts_at(found[n - 1], "indices"@);
        let p = crate::api::snapshot::status::not_in(held);
        lemma_found(wanted, p);
        let i = find(wanted, p);
        if i < wanted.len() {
            assert(!held.contains(wanted[i]));
        } else {
            assert forall|j: int| 0 <= j < wanted.len() implies held.contains(
                #[trigger] wanted[j],
            ) by {
                assert(!p(wanted[j]));
            }
        }
    }
}

/// A status of an index that one of the snapshots does not hold is refused, as of one that is
/// not there.
pub proof fn law_a_status_is_of_indices_the_snapshot_holds(
    repo: Seq<char>,
    found: Seq<JsonV>,
    e: Seq<char>,
)
    ensures
        statusless(repo, found, None, Some(e), false) is None <==> forall|k: int, i: int|
            0 <= k < found.len() && 0 <= i < parts(e).len() ==> #[trigger] texts_at(
                found[k],
                "indices"@,
            ).contains(#[trigger] parts(e)[i]),
        statusless(repo, found, None, Some(e), false) matches Some(a) ==> a.status == 404,
{
    lemma_first_without(repo, found, parts(e), found.len());
}

} // verus!
