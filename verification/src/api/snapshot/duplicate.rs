//! Cloning a snapshot.

use vstd::prelude::*;

use super::create::{begun, name_taken, refuse_taken, snapshot_record};
use super::repository::{
    bad_name_answer, bad_snapshot_name, is_bad_name, is_readonly, only_read, parts, parts_of,
    refuse_if_readonly,
};
use crate::api::answer::{
    at, at_key, err, flag_at, list_at, refused, set_member, set_to, texts_at, told, Answer, AnswerV,
};
use crate::cluster::settings::{strings_in, strings_of};
use crate::json::{lemma_list, member, Json, JsonV};
use crate::list::{any, any_in, keep, lemma_take, push_to};
use crate::text::{begins, fits, glob_match, same, starts_with};

verus! {

/// The names a body asks for, each outright or as a pattern.
pub open spec fn wanted(body: JsonV) -> Option<Seq<Seq<char>>> {
    match member(body, "indices"@) {
        Some(JsonV::Text(s)) => Some(parts(s)),
        Some(JsonV::List(a)) => Some(strings_of(a)),
        _ => None,
    }
}

/// The names a body asks for, each outright or as a pattern.
pub fn names_wanted(body: &Json) -> (r: Option<Vec<String>>)
    ensures
        r.deep_view() == wanted(body.deep_view()),
{
    match body.get("indices") {
        Some(Json::Text(s)) => Some(parts_of(s.as_str())),
        Some(Json::List(a)) => {
            proof {
                lemma_list(*a);
            }
            Some(strings_in(a))
        },
        _ => None,
    }
}

/// Whether a name is asked for by one of some names or patterns.
pub open spec fn asks_for(n: Seq<char>) -> spec_fn(Seq<char>) -> bool {
    |one: Seq<char>| one == n || fits(one, n)
}

pub open spec fn asked_in(names: Seq<Seq<char>>) -> spec_fn(Seq<char>) -> bool {
    |n: Seq<char>| any(names, asks_for(n))
}

/// The names of a list that are asked for.
pub fn keep_asked(held: &Vec<String>, names: &Vec<String>) -> (r: Vec<String>)
    ensures
        r.deep_view() == keep(held.deep_view(), asked_in(names.deep_view())),
{
    let ghost hv = held.deep_view();
    let ghost p = asked_in(names.deep_view());
    let mut r: Vec<String> = Vec::new();
    assert(r.deep_view() =~= keep(hv.take(0), p));
    for i in 0..held.len()
        invariant
            hv == held.deep_view(),
            p == asked_in(names.deep_view()),
            r.deep_view() == keep(hv.take(i as int), p),
    {
        proof {
            lemma_take(hv, i as int);
            assert(hv[i as int] == held@[i as int]@);
        }
        let n = held[i].as_str();
        let ghost q = asks_for(n@);
        let f = |one: &String| -> (b: bool)
            ensures
                b == q(one.deep_view()),
            { same(one.as_str(), n) || glob_match(one.as_str(), n) };
        if any_in(names, f, Ghost(q)) {
            push_to(&mut r, held[i].clone());
        }
    }
    assert(hv.take(held@.len() as int) =~= hv);
    r
}

/// The start of the names of a stream's backing indices.
pub open spec fn backing(stream: Seq<char>) -> Seq<char> {
    ".ds-"@ + stream + "-"@
}

pub open spec fn backs(stream: Seq<char>) -> spec_fn(Seq<char>) -> bool {
    |n: Seq<char>| begins(n, backing(stream))
}

/// Whether one of some indices is behind a stream.
pub open spec fn is_backed(indices: Seq<Seq<char>>) -> spec_fn(Seq<char>) -> bool {
    |stream: Seq<char>| any(indices, backs(stream))
}

/// Whether one of some indices is behind a stream.
pub fn backed(stream: &str, indices: &Vec<String>) -> (r: bool)
    ensures
        r == any(indices.deep_view(), backs(stream@)),
{
    let head = ".ds-".to_owned().concat(stream).concat("-");
    let ghost p = backs(stream@);
    let f = |n: &String| -> (b: bool)
        ensures
            b == p(n.deep_view()),
        { starts_with(n.as_str(), head.as_str()) };
    any_in(indices, f, Ghost(p))
}

fn keep_backed(streams: &Vec<String>, indices: &Vec<String>) -> (r: Vec<String>)
    ensures
        r.deep_view() == keep(streams.deep_view(), is_backed(indices.deep_view())),
{
    let ghost sv = streams.deep_view();
    let ghost p = is_backed(indices.deep_view());
    let mut r: Vec<String> = Vec::new();
    assert(r.deep_view() =~= keep(sv.take(0), p));
    for i in 0..streams.len()
        invariant
            sv == streams.deep_view(),
            p == is_backed(indices.deep_view()),
            r.deep_view() == keep(sv.take(i as int), p),
    {
        proof {
            lemma_take(sv, i as int);
            assert(sv[i as int] == streams@[i as int]@);
        }
        if backed(streams[i].as_str(), indices) {
            push_to(&mut r, streams[i].clone());
        }
    }
    assert(sv.take(streams@.len() as int) =~= sv);
    r
}

/// The indices a clone carries over, out of those the snapshot holds -- not
/// those the cluster holds now.
pub open spec fn carried(source: JsonV, body: JsonV) -> Seq<Seq<char>> {
    let held = texts_at(source, "indices"@);
    match wanted(body) {
        Some(w) => keep(held, asked_in(w)),
        None => held,
    }
}

/// What is recorded of a clone: of what the snapshot holds, its shards as the
/// snapshot recorded them, and the streams whose backing indices are carried
/// over.
pub open spec fn clone_record(
    target: Seq<char>,
    uuid: Seq<char>,
    now: Seq<char>,
    source: JsonV,
    body: JsonV,
) -> Seq<(Seq<char>, JsonV)> {
    let indices = carried(source, body);
    let streams = keep(texts_at(source, "data_streams"@), is_backed(indices));
    let global = match told(source, "include_global_state"@) {
        Some(b) => b,
        None => true,
    };
    set_to(
        begun(target, uuid, now, indices, streams, global, 0),
        "shards"@,
        at(source, "shards"@),
    )
}

/// What a clone is of and what is recorded of it, or why it may not be made: a
/// name, a snapshot that is not there, one that is already there under the
/// name, or a repository nothing writes to.
pub open spec fn cloned(
    repo: Seq<char>,
    name: Seq<char>,
    target: Seq<char>,
    source: Option<JsonV>,
    taken: bool,
    def: Option<JsonV>,
    over_url: bool,
) -> Option<AnswerV> {
    if is_bad_name(name) {
        Some(bad_name_answer(repo, name))
    } else if is_bad_name(target) {
        Some(bad_name_answer(repo, target))
    } else if source is None {
        Some(
            refused(
                400,
                "snapshot_restore_exception"@,
                "["@ + repo + ":"@ + name + "] snapshot does not exist"@,
            ),
        )
    } else if taken {
        Some(name_taken(repo, target))
    } else if def is Some && is_readonly(def->0, over_url) {
        Some(only_read(repo))
    } else {
        None
    }
}

/// Why a clone may not be made, if it may not.
pub fn may_clone(
    repo: &str,
    name: &str,
    target: &str,
    source: Option<&Json>,
    taken: bool,
    def: Option<&Json>,
    over_url: bool,
) -> (r: Option<Answer>)
    ensures
        r.deep_view() == cloned(
            repo@,
            name@,
            target@,
            source.deep_view(),
            taken,
            def.deep_view(),
            over_url,
        ),
{
    if let Some(bad) = bad_snapshot_name(repo, name) {
        return Some(bad);
    }
    if let Some(bad) = bad_snapshot_name(repo, target) {
        return Some(bad);
    }
    if source.is_none() {
        return Some(
            err(
                400,
                "snapshot_restore_exception",
                "[".to_owned().concat(repo).concat(":").concat(name).concat(
                    "] snapshot does not exist",
                ).as_str(),
            ),
        );
    }
    if taken {
        return Some(refuse_taken(repo, target));
    }
    match def {
        Some(d) => refuse_if_readonly(repo, d, over_url),
        None => None,
    }
}

/// What a clone carries over, and what is recorded of it.
pub fn clone_snapshot(target: &str, uuid: &str, now: &str, source: &Json, body: &Json) -> (r: (
    Vec<String>,
    Vec<(String, Json)>,
))
    ensures
        r.0.deep_view() == carried(source.deep_view(), body.deep_view()),
        r.1.deep_view() == clone_record(
            target@,
            uuid@,
            now@,
            source.deep_view(),
            body.deep_view(),
        ),
{
    let held = list_at(source, "indices");
    let indices = match names_wanted(body) {
        Some(w) => keep_asked(&held, &w),
        None => held,
    };
    let global = match flag_at(source, "include_global_state") {
        Some(b) => b,
        None => true,
    };
    let streams = keep_backed(&list_at(source, "data_streams"), &indices);
    let mut record = snapshot_record(target, uuid, now, &indices, &streams, global, 0);
    set_member(&mut record, "shards", at_key(source, "shards"));
    (indices, record)
}

/// A clone holds nothing the snapshot does not hold.
pub proof fn law_a_clone_holds_only_what_the_snapshot_holds(source: JsonV, body: JsonV, i: int)
    requires
        0 <= i < carried(source, body).len(),
    ensures
        texts_at(source, "indices"@).contains(carried(source, body)[i]),
{
    if wanted(body) is Some {
        crate::list::lemma_keep(texts_at(source, "indices"@), asked_in(wanted(body)->0));
    }
}

} // verus!
