//! The snapshots a name or a pattern reaches.

use vstd::prelude::*;

use super::create::copy_members;
use super::repository::{
    bad_lookup, bad_snapshot_lookup, is_readonly, missing, only_read, parts, parts_of,
    refuse_if_readonly, repository_missing,
};
use crate::api::answer::{at, at_key, done, err, ok, refused, said, text_at, Answer, AnswerV};
use crate::json::{field, fields, list, no_fields, object, Json, JsonV};
use crate::list::{
    before, comes_before, get, keep, lemma_take, lemma_with, lookup, push_to, put, sort_by, sorted,
    with,
};
use crate::text::{fits, glob_match, has_char, same};

verus! {

/// Whether a part of a request is a pattern.
pub open spec fn is_pattern(part: Seq<char>) -> bool {
    part == "_all"@ || part.contains('*')
}

/// The first records whose names fit a pattern.
pub open spec fn fitting(held: Seq<(Seq<char>, JsonV)>, part: Seq<char>, n: nat) -> Seq<JsonV>
    decreases n,
{
    if n == 0 {
        Seq::empty()
    } else {
        let before = fitting(held, part, (n - 1) as nat);
        if part == "_all"@ || fits(part, held[n - 1].0) {
            before.push(held[n - 1].1)
        } else {
            before
        }
    }
}

/// What the first parts of a request reach, and what was named outright that
/// is not there.
pub open spec fn reached(held: Seq<(Seq<char>, JsonV)>, named: Seq<Seq<char>>, n: nat) -> (
    Seq<JsonV>,
    Option<Seq<char>>,
)
    decreases n,
{
    if n == 0 {
        (Seq::empty(), None)
    } else {
        let (found, gone) = reached(held, named, (n - 1) as nat);
        let part = named[n - 1];
        if is_pattern(part) {
            (found + fitting(held, part, held.len()), gone)
        } else {
            match lookup(held, part) {
                Some(v) => (found.push(v), gone),
                None => (found, Some(part)),
            }
        }
    }
}

/// Which of two records comes first: by the snapshot's name, one that has none
/// before one that has.
pub open spec fn by_snapshot() -> spec_fn(JsonV, JsonV) -> bool {
    |a: JsonV, b: JsonV|
        match (said(a, "snapshot"@), said(b, "snapshot"@)) {
            (Some(x), Some(y)) => before(x, y),
            (None, Some(y)) => true,
            _ => false,
        }
}

/// The records a request names, in the order of the snapshots' names, and what
/// was named outright that is not there.
pub open spec fn picked(held: Seq<(Seq<char>, JsonV)>, want: Seq<char>) -> (
    Seq<JsonV>,
    Option<Seq<char>>,
) {
    let (found, gone) = reached(held, parts(want), parts(want).len());
    (sorted(found, by_snapshot(), found.len()), gone)
}

fn add_fitting(out: &mut Vec<Json>, held: &Vec<(String, Json)>, part: &str)
    ensures
        final(out).deep_view() == old(out).deep_view() + fitting(
            held.deep_view(),
            part@,
            held@.len(),
        ),
{
    let ghost start = out.deep_view();
    let ghost hv = held.deep_view();
    assert(start + fitting(hv, part@, 0) =~= start);
    for i in 0..held.len()
        invariant
            hv == held.deep_view(),
            out.deep_view() == start + fitting(hv, part@, i as nat),
    {
        assert(hv[i as int] == (held@[i as int].0@, held@[i as int].1.deep_view()));
        if same(part, "_all") || glob_match(part, held[i].0.as_str()) {
            push_to(out, held[i].1.clone());
        }
        assert(out.deep_view() =~= start + fitting(hv, part@, (i + 1) as nat));
    }
}

fn sort_records(v: Vec<Json>) -> (r: Vec<Json>)
    ensures
        r.deep_view() == sorted(v.deep_view(), by_snapshot(), v@.len()),
{
    let ghost less = by_snapshot();
    let f = |a: &Json, b: &Json| -> (r: bool)
        ensures
            r == less(a.deep_view(), b.deep_view()),
        {
            let x = text_at(a, "snapshot");
            let y = text_at(b, "snapshot");
            match (x, y) {
                (Some(x), Some(y)) => comes_before(x.as_str(), y.as_str()),
                (None, Some(_)) => true,
                _ => false,
            }
        };
    sort_by(v, f, Ghost(less))
}

/// The records this node holds for a repository that the request names.
pub fn pick_from_memory(held: &Vec<(String, Json)>, want: &str) -> (r: (Vec<Json>, Option<String>))
    ensures
        (r.0.deep_view(), r.1.deep_view()) == picked(held.deep_view(), want@),
{
    let named = parts_of(want);
    let ghost nv = named.deep_view();
    let ghost hv = held.deep_view();
    let mut out: Vec<Json> = Vec::new();
    let mut gone: Option<String> = None;
    assert(out.deep_view() =~= Seq::<JsonV>::empty());
    assert(nv.len() == named@.len());
    assert(hv.len() == held@.len());
    for i in 0..named.len()
        invariant
            nv == named.deep_view(),
            hv == held.deep_view(),
            hv.len() == held@.len(),
            (out.deep_view(), gone.deep_view()) == reached(hv, nv, i as nat),
    {
        assert(nv[i as int] == named@[i as int]@);
        let part = named[i].as_str();
        if same(part, "_all") || has_char(part, '*') {
            add_fitting(&mut out, held, part);
        } else {
            match get(held, part) {
                Some(v) => {
                    push_to(&mut out, v.clone());
                },
                None => {
                    gone = Some(part.to_owned());
                },
            }
        }
    }
    assert(out.deep_view().len() == out@.len());
    (sort_records(out), gone)
}

/// What is held once the first records of a repository have been read: those
/// that were not known are.
pub open spec fn learnt(
    held: Seq<(Seq<char>, JsonV)>,
    records: Seq<(Seq<char>, JsonV)>,
    n: nat,
) -> Seq<(Seq<char>, JsonV)>
    decreases n,
{
    if n == 0 {
        held
    } else {
        let now = learnt(held, records, (n - 1) as nat);
        if lookup(now, records[n - 1].0) is None {
            with(now, records[n - 1].0, records[n - 1].1)
        } else {
            now
        }
    }
}

/// The snapshots a name or pattern reaches. A name this node does not know may
/// still be in the repository: what is there is read, and where it is anything
/// new the request is answered again from it.
pub open spec fn found(
    held: Seq<(Seq<char>, JsonV)>,
    records: Option<Seq<(Seq<char>, JsonV)>>,
    want: Seq<char>,
) -> (Seq<JsonV>, Option<Seq<char>>) {
    let first = picked(held, want);
    match (first.1, records) {
        (Some(gone), Some(rs)) => {
            let now = learnt(held, rs, rs.len());
            if now.len() == held.len() {
                first
            } else {
                picked(now, want)
            }
        },
        _ => first,
    }
}

/// Adds what a repository holds and this node did not know of.
pub fn learn(held: &mut Vec<(String, Json)>, records: &Vec<(String, Json)>)
    ensures
        final(held).deep_view() == learnt(
            old(held).deep_view(),
            records.deep_view(),
            records@.len(),
        ),
{
    let ghost start = held.deep_view();
    let ghost rv = records.deep_view();
    for i in 0..records.len()
        invariant
            rv == records.deep_view(),
            held.deep_view() == learnt(start, rv, i as nat),
    {
        assert(rv[i as int] == (records@[i as int].0@, records@[i as int].1.deep_view()));
        if get(held, records[i].0.as_str()).is_none() {
            put(held, records[i].0.clone(), records[i].1.clone());
        }
    }
}

/// The snapshots a name or pattern reaches, and whether anything named outright
/// was missing. `records` is what the repository itself holds, where it can be
/// read.
pub fn pick_snapshots(
    held: &Vec<(String, Json)>,
    records: &Option<Vec<(String, Json)>>,
    want: &str,
) -> (r: (Vec<Json>, Option<String>))
    ensures
        (r.0.deep_view(), r.1.deep_view()) == found(
            held.deep_view(),
            records.deep_view(),
            want@,
        ),
{
    let first = pick_from_memory(held, want);
    if first.1.is_none() {
        return first;
    }
    match records {
        Some(rs) => {
            let mut now = copy_members(held);
            learn(&mut now, rs);
            assert(rs.deep_view().len() == rs@.len());
            assert(now.deep_view().len() == now@.len());
            assert(held.deep_view().len() == held@.len());
            if now.len() == held.len() {
                return first;
            }
            pick_from_memory(&now, want)
        },
        None => first,
    }
}

pub open spec fn snapshot_missing(repo: Seq<char>, name: Seq<char>) -> AnswerV {
    refused(404, "snapshot_missing_exception"@, "["@ + repo + ":"@ + name + "] is missing"@)
}

pub(crate) fn refuse_missing(repo: &str, name: &str) -> (r: Answer)
    ensures
        r.deep_view() == snapshot_missing(repo@, name@),
{
    err(
        404,
        "snapshot_missing_exception",
        "[".to_owned().concat(repo).concat(":").concat(name).concat("] is missing").as_str(),
    )
}

/// What a listing needs of a record.
pub open spec fn short(s: JsonV) -> JsonV {
    JsonV::Object(
        no_fields().push(("snapshot"@, at(s, "snapshot"@))).push(("uuid"@, at(s, "uuid"@))).push(
            ("state"@, at(s, "state"@)),
        ).push(("indices"@, at(s, "indices"@))).push(("data_streams"@, at(s, "data_streams"@))),
    )
}

/// The snapshots asked for, whole or only what a listing needs; what was named
/// outright and is not there is missing unless that may be.
pub open spec fn snapshots_answer(
    repo: Seq<char>,
    found: Seq<JsonV>,
    gone: Option<Seq<char>>,
    lenient: bool,
    brief: bool,
) -> AnswerV {
    if gone is Some && !lenient {
        snapshot_missing(repo, gone->0)
    } else {
        let shown = if brief {
            found.map_values(|s: JsonV| short(s))
        } else {
            found
        };
        done(JsonV::Object(no_fields().push(("snapshots"@, JsonV::List(shown)))))
    }
}

fn shorten(s: &Json) -> (r: Json)
    ensures
        r.deep_view() == short(s.deep_view()),
{
    let mut o = fields();
    field(&mut o, "snapshot", at_key(s, "snapshot"));
    field(&mut o, "uuid", at_key(s, "uuid"));
    field(&mut o, "state", at_key(s, "state"));
    field(&mut o, "indices", at_key(s, "indices"));
    field(&mut o, "data_streams", at_key(s, "data_streams"));
    object(o)
}

/// The snapshots asked for, whole or only what a listing needs.
pub fn show_snapshots(
    repo: &str,
    found: Vec<Json>,
    gone: &Option<String>,
    lenient: bool,
    brief: bool,
) -> (r: Answer)
    ensures
        r.deep_view() == snapshots_answer(
            repo@,
            found.deep_view(),
            gone.deep_view(),
            lenient,
            brief,
        ),
{
    if let Some(g) = gone {
        if !lenient {
            return refuse_missing(repo, g.as_str());
        }
    }
    let ghost fv = found.deep_view();
    let mut o = fields();
    if brief {
        let mut shown: Vec<Json> = Vec::new();
        for i in 0..found.len()
            invariant
                fv == found.deep_view(),
                shown@.len() == i,
                forall|j: int| 0 <= j < i ==> shown@[j].deep_view() == short(#[trigger] fv[j]),
        {
            assert(fv[i as int] == found@[i as int].deep_view());
            shown.push(shorten(&found[i]));
        }
        assert(shown.deep_view() =~= fv.map_values(|s: JsonV| short(s)));
        field(&mut o, "snapshots", list(shown));
    } else {
        field(&mut o, "snapshots", list(found));
    }
    ok(object(o))
}

/// What a request for snapshots is answered: a name that is a path and a
/// repository that is not there come before what the repository holds.
pub open spec fn asked_for(
    repo: Seq<char>,
    names: Seq<char>,
    known: bool,
    held: Seq<(Seq<char>, JsonV)>,
    records: Option<Seq<(Seq<char>, JsonV)>>,
    lenient: bool,
    brief: bool,
) -> AnswerV {
    match bad_lookup(repo, names) {
        Some(bad) => bad,
        None => if !known {
            missing(repo)
        } else {
            let (f, gone) = found(held, records, names);
            snapshots_answer(repo, f, gone, lenient, brief)
        },
    }
}

/// What a request for snapshots is answered. `held` is what this node knows the
/// repository to hold, `records` what the repository itself says.
pub fn get_snapshot(
    repo: &str,
    names: &str,
    known: bool,
    held: &Vec<(String, Json)>,
    records: &Option<Vec<(String, Json)>>,
    lenient: bool,
    brief: bool,
) -> (r: Answer)
    ensures
        r.deep_view() == asked_for(
            repo@,
            names@,
            known,
            held.deep_view(),
            records.deep_view(),
            lenient,
            brief,
        ),
{
    if let Some(bad) = bad_snapshot_lookup(repo, names) {
        return bad;
    }
    if !known {
        return repository_missing(repo);
    }
    let (f, gone) = pick_snapshots(held, records, names);
    show_snapshots(repo, f, &gone, lenient, brief)
}

/// Whether a snapshot is one a name reaches, outright or as a pattern.
pub open spec fn goes(name: Seq<char>) -> spec_fn(Seq<char>) -> bool {
    |n: Seq<char>| n == name || fits(name, n)
}

/// The snapshots a delete lets go, or why it may not: a name that is a path, a
/// repository that is not there, one nothing writes to, or a name that reaches
/// nothing. A snapshot that was never there is missing whoever asked: only one
/// that is held runs into the repository being read-only.
pub open spec fn deleted(
    repo: Seq<char>,
    name: Seq<char>,
    def: Option<JsonV>,
    over_url: bool,
    held: Seq<Seq<char>>,
) -> Result<Seq<Seq<char>>, AnswerV> {
    let going = keep(held, goes(name));
    match bad_lookup(repo, name) {
        Some(bad) => Err(bad),
        None => match def {
            None => Err(missing(repo)),
            Some(d) => if going.len() > 0 && is_readonly(d, over_url) {
                Err(only_read(repo))
            } else if going.len() == 0 && !name.contains('*') {
                Err(snapshot_missing(repo, name))
            } else {
                Ok(going)
            },
        },
    }
}

/// The snapshots a delete lets go, or why it may not.
pub fn delete_snapshot(
    repo: &str,
    name: &str,
    def: Option<&Json>,
    over_url: bool,
    held: &Vec<String>,
) -> (r: Result<Vec<String>, Answer>)
    ensures
        match r {
            Ok(going) => deleted(repo@, name@, def.deep_view(), over_url, held.deep_view())
                == Ok::<Seq<Seq<char>>, AnswerV>(going.deep_view()),
            Err(why) => deleted(repo@, name@, def.deep_view(), over_url, held.deep_view())
                == Err::<Seq<Seq<char>>, AnswerV>(why.deep_view()),
        },
{
    if let Some(bad) = bad_snapshot_lookup(repo, name) {
        return Err(bad);
    }
    let d = match def {
        Some(d) => d,
        None => {
            return Err(repository_missing(repo));
        },
    };
    let ghost hv = held.deep_view();
    let ghost p = goes(name@);
    let mut going: Vec<String> = Vec::new();
    assert(going.deep_view() =~= keep(hv.take(0), p));
    for i in 0..held.len()
        invariant
            hv == held.deep_view(),
            p == goes(name@),
            going.deep_view() == keep(hv.take(i as int), p),
    {
        proof {
            lemma_take(hv, i as int);
            assert(hv[i as int] == held@[i as int]@);
        }
        if same(held[i].as_str(), name) || glob_match(name, held[i].as_str()) {
            push_to(&mut going, held[i].clone());
        }
    }
    assert(hv.take(held@.len() as int) =~= hv);
    assert(going.deep_view().len() == going@.len());
    if going.len() > 0 {
        if let Some(refused) = refuse_if_readonly(repo, d, over_url) {
            return Err(refused);
        }
    }
    if going.len() == 0 && !has_char(name, '*') {
        return Err(refuse_missing(repo, name));
    }
    Ok(going)
}

proof fn lemma_learnt(
    held: Seq<(Seq<char>, JsonV)>,
    records: Seq<(Seq<char>, JsonV)>,
    n: nat,
    name: Seq<char>,
)
    requires
        n <= records.len(),
    ensures
        lookup(held, name) is Some ==> lookup(learnt(held, records, n), name) == lookup(
            held,
            name,
        ),
        forall|i: int|
            0 <= i < n && (#[trigger] records[i]).0 == name ==> lookup(
                learnt(held, records, n),
                name,
            ) is Some,
        learnt(held, records, n).len() >= held.len(),
        lookup(held, name) is None && lookup(learnt(held, records, n), name) is Some
            ==> learnt(held, records, n).len() > held.len(),
    decreases n,
{
    if n > 0 {
        let now = learnt(held, records, (n - 1) as nat);
        lemma_learnt(held, records, (n - 1) as nat, name);
        if lookup(now, records[n - 1].0) is None {
            lemma_with(now, records[n - 1].0, records[n - 1].1, name);
            let key = records[n - 1].0;
            let p = crate::list::not_before::<JsonV>(key);
            crate::list::lemma_found(now, p);
            crate::list::lemma_absent(now, key);
        }
    }
}

/// What this node knows of a snapshot is not forgotten when the repository is
/// read, and a snapshot that is in the repository is not missing, though this
/// node did not know of it.
pub proof fn law_a_snapshot_in_the_repository_is_not_missing(
    held: Seq<(Seq<char>, JsonV)>,
    records: Seq<(Seq<char>, JsonV)>,
    name: Seq<char>,
    i: int,
)
    requires
        0 <= i < records.len(),
        records[i].0 == name,
        parts(name) == seq![name],
        !is_pattern(name),
    ensures
        found(held, Some(records), name).1 is None,
        lookup(held, name) is Some ==> lookup(learnt(held, records, records.len()), name)
            == lookup(held, name),
{
    lemma_learnt(held, records, records.len(), name);
    let now = learnt(held, records, records.len());
    assert(lookup(now, name) is Some);
    assert(reached(held, parts(name), 0) == (Seq::<JsonV>::empty(), None::<Seq<char>>));
    assert(reached(now, parts(name), 0) == (Seq::<JsonV>::empty(), None::<Seq<char>>));
    assert(parts(name).len() == 1);
    assert(reached(held, parts(name), 1).1 == if lookup(held, name) is Some {
        None
    } else {
        Some(name)
    });
    assert(reached(now, parts(name), 1).1 is None);
}

} // verus!
