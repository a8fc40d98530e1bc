//! Taking a snapshot: what is asked for, and what came of it.

use vstd::prelude::*;

use super::plan::{
    planned, shared, total, PlanV, Share, ShareV, ShardPlan, Unplaced, UnplacedV,
};
use super::repository::{
    bad_name_answer, bad_snapshot_name, is_bad_name, is_named, is_readonly, missing, named_in,
    only_read, parts, parts_of, refuse_if_readonly, repository_missing,
};
use crate::api::answer::{
    done, err, flag_at, list_of, listed, ok, refused, set_member, set_to, told, Answer, AnswerV,
};
use crate::cluster::settings::{strings_in, strings_of};
use crate::cluster::state::{copy_text, IndexV};
use crate::json::{
    field, fields, flag, lemma_list, lemma_object, list, member, no_fields, object, quote, quoted,
    text, whole, Json, JsonV, NumberV,
};
use crate::list::{
    before, comes_before, find, find_in, get, keep, lemma_take, lemma_with, lookup, push_to, put,
    sort_by, sorted, with,
};
use crate::text::{dec, decimal, has_char, join, joined, same};

verus! {

// ---- what is asked for ---------------------------------------------------------

pub open spec fn name_taken(repo: Seq<char>, name: Seq<char>) -> AnswerV {
    refused(
        400,
        "invalid_snapshot_name_exception"@,
        "["@ + repo + ":"@ + name + "] Invalid snapshot name ["@ + name
            + "], snapshot with the same name already exists"@,
    )
}

pub(crate) fn refuse_taken(repo: &str, name: &str) -> (r: Answer)
    ensures
        r.deep_view() == name_taken(repo@, name@),
{
    err(
        400,
        "invalid_snapshot_name_exception",
        "[".to_owned().concat(repo).concat(":").concat(name).concat(
            "] Invalid snapshot name [",
        ).concat(name).concat("], snapshot with the same name already exists").as_str(),
    )
}

/// Why a snapshot may not be taken, if it may not: its name, a repository that
/// is not there or that nothing writes to, or an older snapshot under the name,
/// whose files it would write over.
pub open spec fn untakeable(
    repo: Seq<char>,
    name: Seq<char>,
    found: Option<JsonV>,
    over_url: bool,
    taken: bool,
) -> Option<AnswerV> {
    if is_bad_name(name) {
        Some(bad_name_answer(repo, name))
    } else {
        match found {
            None => Some(missing(repo)),
            Some(def) => if is_readonly(def, over_url) {
                Some(only_read(repo))
            } else if taken {
                Some(name_taken(repo, name))
            } else {
                None
            },
        }
    }
}

/// Why a snapshot may not be taken, if it may not.
pub fn may_create(
    repo: &str,
    name: &str,
    found: Option<&Json>,
    over_url: bool,
    taken: bool,
) -> (r: Option<Answer>)
    ensures
        r.deep_view() == untakeable(repo@, name@, found.deep_view(), over_url, taken),
{
    if let Some(refused) = bad_snapshot_name(repo, name) {
        return Some(refused);
    }
    match found {
        None => Some(repository_missing(repo)),
        Some(def) => {
            if let Some(refused) = refuse_if_readonly(repo, def, over_url) {
                return Some(refused);
            }
            if taken {
                Some(refuse_taken(repo, name))
            } else {
                None
            }
        },
    }
}

/// The indices a body asks for, as one expression; nothing said is all of them.
pub open spec fn expression(body: JsonV) -> Option<Seq<char>> {
    match member(body, "indices"@) {
        Some(JsonV::Text(s)) => Some(s),
        Some(JsonV::List(a)) => Some(joined(strings_of(a), ","@)),
        _ => None,
    }
}

/// The indices a body asks for, as one expression; nothing said is all of them.
pub fn indices_asked(body: &Json) -> (r: Option<String>)
    ensures
        r.deep_view() == expression(body.deep_view()),
{
    match body.get("indices") {
        Some(Json::Text(s)) => Some(s.clone()),
        Some(Json::List(a)) => {
            proof {
                lemma_list(*a);
            }
            Some(join(&strings_in(a), ","))
        },
        _ => None,
    }
}

/// Whether a part of an expression names an index outright that is not there.
pub open spec fn gone(absent: Seq<Seq<char>>) -> spec_fn(Seq<char>) -> bool {
    |part: Seq<char>| !part.contains('*') && absent.contains(part)
}

/// The first index an expression names outright that is not there, unless those
/// may be missing.
pub open spec fn first_gone(
    expr: Seq<char>,
    absent: Seq<Seq<char>>,
    lenient: bool,
) -> Option<Seq<char>> {
    let i = find(parts(expr), gone(absent));
    if !lenient && i < parts(expr).len() {
        Some(parts(expr)[i])
    } else {
        None
    }
}

/// The first index an expression names outright that is not there: it has to be
/// there to be kept, unless those that are not may be left out. `absent` are
/// the parts of the expression that resolve to no index.
pub fn missing_index(expr: &str, absent: &Vec<String>, lenient: bool) -> (r: Option<String>)
    ensures
        r.deep_view() == first_gone(expr@, absent.deep_view(), lenient),
{
    let named = parts_of(expr);
    let ghost p = gone(absent.deep_view());
    let f = |part: &String| -> (b: bool)
        ensures
            b == p(part.deep_view()),
        {
            !has_char(part.as_str(), '*') && crate::cluster::state::has_text(
                absent,
                part.as_str(),
            )
        };
    let i = find_in(&named, f, Ghost(p));
    assert(named.deep_view().len() == named@.len());
    if !lenient && i < named.len() {
        assert(named.deep_view()[i as int] == named@[i as int]@);
        Some(named[i].clone())
    } else {
        None
    }
}

/// Whether what is not there may be left out: the path says so or the body.
pub fn lenient(path: bool, body: &Json) -> (r: bool)
    ensures
        r == (path || told(body.deep_view(), "ignore_unavailable"@) == Some(true)),
{
    path || match flag_at(body, "ignore_unavailable") {
        Some(b) => b,
        None => false,
    }
}

/// Which of two names comes first.
pub open spec fn by_name() -> spec_fn(Seq<char>, Seq<char>) -> bool {
    |a: Seq<char>, b: Seq<char>| before(a, b)
}

pub open spec fn reached(asked: Option<Seq<char>>) -> spec_fn(Seq<char>) -> bool {
    |s: Seq<char>|
        match asked {
            Some(expr) => is_named(expr, s),
            None => true,
        }
}

/// The data streams a request reaches, in the order of their names.
pub open spec fn streams_asked(streams: Seq<Seq<char>>, asked: Option<Seq<char>>) -> Seq<
    Seq<char>,
> {
    let kept = keep(streams, reached(asked));
    sorted(kept, by_name(), kept.len())
}

pub(crate) fn sort_names(v: Vec<String>) -> (r: Vec<String>)
    ensures
        r.deep_view() == sorted(v.deep_view(), by_name(), v@.len()),
{
    let ghost less = by_name();
    let f = |a: &String, b: &String| -> (r: bool)
        ensures
            r == less(a.deep_view(), b.deep_view()),
        { comes_before(a.as_str(), b.as_str()) };
    sort_by(v, f, Ghost(less))
}

/// The data streams a request reaches. A snapshot keeps the streams the caller
/// asked for by name, not the streams its indices happen to belong to: naming a
/// backing index outright keeps that index and no stream, while naming the
/// stream, a pattern that fits it, or nothing at all keeps the stream.
pub fn streams_asked_for(streams: &Vec<String>, asked: &Option<String>) -> (r: Vec<String>)
    ensures
        r.deep_view() == streams_asked(streams.deep_view(), asked.deep_view()),
{
    let ghost sv = streams.deep_view();
    let ghost p = reached(asked.deep_view());
    let mut kept: Vec<String> = Vec::new();
    assert(kept.deep_view() =~= keep(sv.take(0), p));
    for i in 0..streams.len()
        invariant
            sv == streams.deep_view(),
            p == reached(asked.deep_view()),
            kept.deep_view() == keep(sv.take(i as int), p),
    {
        proof {
            lemma_take(sv, i as int);
            assert(sv[i as int] == streams@[i as int]@);
        }
        let reaches = match asked {
            Some(expr) => named_in(expr.as_str(), streams[i].as_str()),
            None => true,
        };
        if reaches {
            push_to(&mut kept, streams[i].clone());
        }
    }
    assert(sv.take(streams@.len() as int) =~= sv);
    assert(kept.deep_view().len() == kept@.len());
    sort_names(kept)
}

// ---- the record ----------------------------------------------------------------

pub open spec fn count(n: u64) -> JsonV {
    JsonV::Number(NumberV::Whole(n))
}

/// How many shards there were, and how many of them failed.
pub open spec fn shards_json(all: u64, failed: u64) -> JsonV {
    JsonV::Object(
        no_fields().push(("total"@, count(all))).push(("failed"@, count(failed))).push(
            ("successful"@, count((all - failed) as u64)),
        ),
    )
}

/// What is recorded of a snapshot when it is begun.
pub open spec fn begun(
    name: Seq<char>,
    uuid: Seq<char>,
    now: Seq<char>,
    indices: Seq<Seq<char>>,
    streams: Seq<Seq<char>>,
    global: bool,
    shards: u64,
) -> Seq<(Seq<char>, JsonV)> {
    no_fields().push(("snapshot"@, JsonV::Text(name))).push(("uuid"@, JsonV::Text(uuid))).push(
        ("version_id"@, count(136217827)),
    ).push(("version"@, JsonV::Text("3.0.0"@))).push(
        ("remote_store_index_shallow_copy"@, JsonV::Bool(false)),
    ).push(("indices"@, listed(indices))).push(("data_streams"@, listed(streams))).push(
        ("include_global_state"@, JsonV::Bool(global)),
    ).push(("state"@, JsonV::Text("SUCCESS"@))).push(("start_time"@, JsonV::Text(now))).push(
        ("start_time_in_millis"@, count(0)),
    ).push(("end_time"@, JsonV::Text(now))).push(("end_time_in_millis"@, count(0))).push(
        ("duration_in_millis"@, count(0)),
    ).push(("failures"@, JsonV::List(Seq::empty()))).push(("shards"@, shards_json(shards, 0)))
}

fn shards_of(all: u64, failed: u64) -> (r: Json)
    requires
        failed <= all,
    ensures
        r.deep_view() == shards_json(all, failed),
{
    let mut o = fields();
    field(&mut o, "total", whole(all));
    field(&mut o, "failed", whole(failed));
    field(&mut o, "successful", whole(all - failed));
    object(o)
}

/// What is recorded of a snapshot when it is begun. Nothing here keeps a remote
/// store, so no snapshot is shallow.
pub fn snapshot_record(
    name: &str,
    uuid: &str,
    now: &str,
    indices: &Vec<String>,
    streams: &Vec<String>,
    global: bool,
    shards: u64,
) -> (r: Vec<(String, Json)>)
    ensures
        r.deep_view() == begun(
            name@,
            uuid@,
            now@,
            indices.deep_view(),
            streams.deep_view(),
            global,
            shards,
        ),
{
    let none: Vec<Json> = Vec::new();
    assert(none.deep_view() =~= Seq::<JsonV>::empty());
    let mut o = fields();
    field(&mut o, "snapshot", text(name));
    field(&mut o, "uuid", text(uuid));
    field(&mut o, "version_id", whole(136217827));
    field(&mut o, "version", text("3.0.0"));
    field(&mut o, "remote_store_index_shallow_copy", flag(false));
    field(&mut o, "indices", list_of(indices));
    field(&mut o, "data_streams", list_of(streams));
    field(&mut o, "include_global_state", flag(global));
    field(&mut o, "state", text("SUCCESS"));
    field(&mut o, "start_time", text(now));
    field(&mut o, "start_time_in_millis", whole(0));
    field(&mut o, "end_time", text(now));
    field(&mut o, "end_time_in_millis", whole(0));
    field(&mut o, "duration_in_millis", whole(0));
    field(&mut o, "failures", list(none));
    field(&mut o, "shards", shards_of(shards, 0));
    o
}

/// Names with each that follows itself left out.
pub open spec fn deduped(v: Seq<UnplacedV>) -> Seq<Seq<char>>
    decreases v.len(),
{
    if v.len() == 0 {
        Seq::empty()
    } else {
        let before = deduped(v.drop_last());
        if before.len() > 0 && before.last() == v.last().index {
            before
        } else {
            before.push(v.last().index)
        }
    }
}

/// A primary with nowhere to be read from is a snapshot that cannot be whole,
/// and it is refused before it starts unless what there is was asked for.
pub open spec fn not_whole(
    repo: Seq<char>,
    name: Seq<char>,
    uuid: Seq<char>,
    unassigned: Seq<UnplacedV>,
    partial: bool,
) -> Option<AnswerV> {
    if partial || unassigned.len() == 0 {
        None
    } else {
        Some(
            refused(
                500,
                "snapshot_exception"@,
                "["@ + repo + ":"@ + name + "/"@ + uuid
                    + "] Indices don't have primary shards ["@ + joined(
                    deduped(unassigned),
                    ", "@,
                ) + "]"@,
            ),
        )
    }
}

/// Why a snapshot that cannot be whole is not taken.
pub fn without_primaries(
    repo: &str,
    name: &str,
    uuid: &str,
    unassigned: &Vec<Unplaced>,
    partial: bool,
) -> (r: Option<Answer>)
    ensures
        r.deep_view() == not_whole(repo@, name@, uuid@, unassigned.deep_view(), partial),
{
    let ghost uv = unassigned.deep_view();
    if partial || unassigned.len() == 0 {
        return None;
    }
    let mut names: Vec<String> = Vec::new();
    assert(names.deep_view() =~= deduped(uv.take(0)));
    for i in 0..unassigned.len()
        invariant
            uv == unassigned.deep_view(),
            names.deep_view() == deduped(uv.take(i as int)),
    {
        proof {
            lemma_take(uv, i as int);
            assert(uv[i as int] == unassigned@[i as int].deep_view());
        }
        assert(names.deep_view().len() == names@.len());
        let index = unassigned[i].index.as_str();
        let n: usize = names.len();
        let again = n > 0 && same(names[n - 1].as_str(), index);
        if !again {
            push_to(&mut names, index.to_owned());
        }
    }
    assert(uv.take(unassigned@.len() as int) =~= uv);
    Some(
        err(
            500,
            "snapshot_exception",
            "[".to_owned().concat(repo).concat(":").concat(name).concat("/").concat(uuid).concat(
                "] Indices don't have primary shards [",
            ).concat(join(&names, ", ").as_str()).concat("]").as_str(),
        ),
    )
}

// ---- what came of it -----------------------------------------------------------

/// What came of asking a node for its share: nothing was heard of it, it could
/// not, or what it wrote.
pub enum Outcome {
    Lost,
    Failed(String),
    Done(Json),
}

#[verifier::ext_equal]
pub enum OutcomeV {
    Lost,
    Failed(Seq<char>),
    Done(JsonV),
}

impl DeepView for Outcome {
    type V = OutcomeV;

    open spec fn deep_view(&self) -> OutcomeV {
        match self {
            Outcome::Lost => OutcomeV::Lost,
            Outcome::Failed(s) => OutcomeV::Failed(s@),
            Outcome::Done(j) => OutcomeV::Done(j.deep_view()),
        }
    }
}

/// A shard that could not be written.
pub struct Failure {
    pub index: String,
    pub shard: u32,
    pub node: Option<String>,
    pub reason: String,
}

#[verifier::ext_equal]
pub struct FailureV {
    pub index: Seq<char>,
    pub shard: u32,
    pub node: Option<Seq<char>>,
    pub reason: Seq<char>,
}

impl DeepView for Failure {
    type V = FailureV;

    open spec fn deep_view(&self) -> FailureV {
        FailureV {
            index: self.index@,
            shard: self.shard,
            node: self.node.deep_view(),
            reason: self.reason@,
        }
    }
}

/// What became of every shard: what was written of each index, what was not and
/// why, and how each index describes itself.
pub struct Accounts {
    pub failures: Vec<Failure>,
    pub written: Vec<(String, Vec<(String, Json)>)>,
    pub failed: Vec<(String, Vec<(String, Json)>)>,
    pub meta: Vec<(String, Json)>,
}

#[verifier::ext_equal]
pub struct AccountsV {
    pub failures: Seq<FailureV>,
    pub written: Seq<(Seq<char>, Seq<(Seq<char>, JsonV)>)>,
    pub failed: Seq<(Seq<char>, Seq<(Seq<char>, JsonV)>)>,
    pub meta: Seq<(Seq<char>, JsonV)>,
}

impl DeepView for Accounts {
    type V = AccountsV;

    open spec fn deep_view(&self) -> AccountsV {
        AccountsV {
            failures: self.failures.deep_view(),
            written: self.written.deep_view(),
            failed: self.failed.deep_view(),
            meta: self.meta.deep_view(),
        }
    }
}

/// What is held under a name, nothing where there is none.
pub open spec fn under(m: Seq<(Seq<char>, Seq<(Seq<char>, JsonV)>)>, index: Seq<char>) -> Seq<
    (Seq<char>, JsonV),
> {
    match lookup(m, index) {
        Some(o) => o,
        None => no_fields(),
    }
}

pub open spec fn noted(
    m: Seq<(Seq<char>, Seq<(Seq<char>, JsonV)>)>,
    index: Seq<char>,
    shard: u32,
    v: JsonV,
) -> Seq<(Seq<char>, Seq<(Seq<char>, JsonV)>)> {
    with(m, index, with(under(m, index), dec(shard as nat), v))
}

impl AccountsV {
    /// The accounts with a shard that could not be written.
    pub open spec fn failing(
        self,
        index: Seq<char>,
        shard: u32,
        node: Option<Seq<char>>,
        reason: Seq<char>,
    ) -> AccountsV {
        AccountsV {
            failures: self.failures.push(FailureV { index, shard, node, reason }),
            failed: noted(self.failed, index, shard, JsonV::Text(reason)),
            ..self
        }
    }

    /// The accounts with a shard that was written.
    pub open spec fn writing(self, index: Seq<char>, shard: u32, stats: JsonV) -> AccountsV {
        AccountsV { written: noted(self.written, index, shard, stats), ..self }
    }
}

/// Why a node says a shard was not written.
pub open spec fn why_not(v: JsonV, shard: u32) -> Seq<char> {
    let said = match member(v, "failed"@) {
        Some(JsonV::Object(o)) => lookup(o, dec(shard as nat)),
        Some(JsonV::List(l)) => if shard < l.len() {
            Some(l[shard as int])
        } else {
            None
        },
        _ => None,
    };
    match said {
        Some(JsonV::Text(why)) => why,
        _ => "the shard was not written"@,
    }
}

/// What a node says of a shard it wrote.
pub open spec fn stats_of(v: JsonV, shard: u32) -> Option<JsonV> {
    match member(v, "shards"@) {
        Some(JsonV::Object(o)) => lookup(o, dec(shard as nat)),
        _ => None,
    }
}

/// The accounts once a node's first shards are settled.
pub open spec fn settled(
    a: AccountsV,
    share: ShareV,
    node: Option<Seq<char>>,
    outcome: OutcomeV,
    n: nat,
) -> AccountsV
    decreases n,
{
    if n == 0 {
        a
    } else {
        let b = settled(a, share, node, outcome, (n - 1) as nat);
        let shard = share.shards[n - 1];
        match outcome {
            OutcomeV::Lost => b,
            OutcomeV::Failed(why) => b.failing(share.index, shard, node, why),
            OutcomeV::Done(v) => match stats_of(v, shard) {
                Some(stats) => b.writing(share.index, shard, stats),
                None => b.failing(share.index, shard, node, why_not(v, shard)),
            },
        }
    }
}

/// The accounts once a node has been heard: the first description of an index
/// is the one that is kept.
pub open spec fn heard(a: AccountsV, share: ShareV, me: Option<Seq<char>>, outcome: OutcomeV) ->
    AccountsV {
    let node = if share.node is None {
        me
    } else {
        share.node
    };
    let b = settled(a, share, node, outcome, share.shards.len());
    match outcome {
        OutcomeV::Done(v) => match member(v, "meta"@) {
            Some(m) => if lookup(b.meta, share.index) is None {
                AccountsV { meta: with(b.meta, share.index, m), ..b }
            } else {
                b
            },
            None => b,
        },
        _ => b,
    }
}

pub open spec fn outcome_of(outcomes: Seq<OutcomeV>, i: int) -> OutcomeV {
    if 0 <= i < outcomes.len() {
        outcomes[i]
    } else {
        OutcomeV::Lost
    }
}

/// The accounts once the first shares of this node, or of the others, have been
/// heard.
pub open spec fn all_heard(
    a: AccountsV,
    work: Seq<ShareV>,
    outcomes: Seq<OutcomeV>,
    me: Option<Seq<char>>,
    here: bool,
    n: nat,
) -> AccountsV
    decreases n,
{
    if n == 0 {
        a
    } else {
        let b = all_heard(a, work, outcomes, me, here, (n - 1) as nat);
        if (work[n - 1].node is None) == here {
            heard(b, work[n - 1], me, outcome_of(outcomes, n - 1))
        } else {
            b
        }
    }
}

/// The accounts of the shards nobody could be asked for.
pub open spec fn nobody_asked(unassigned: Seq<UnplacedV>, n: nat) -> AccountsV
    decreases n,
{
    if n == 0 {
        AccountsV {
            failures: Seq::empty(),
            written: Seq::empty(),
            failed: Seq::empty(),
            meta: no_fields(),
        }
    } else {
        nobody_asked(unassigned, (n - 1) as nat).failing(
            unassigned[n - 1].index,
            unassigned[n - 1].shard,
            None,
            unassigned[n - 1].reason,
        )
    }
}

/// What became of every shard of a plan: those nobody could be asked for, then
/// this node's own, then what the others said.
pub open spec fn accounts(p: PlanV, outcomes: Seq<OutcomeV>, me: Option<Seq<char>>) -> AccountsV {
    let a = nobody_asked(p.unassigned, p.unassigned.len());
    let b = all_heard(a, p.work, outcomes, me, true, p.work.len());
    all_heard(b, p.work, outcomes, me, false, p.work.len())
}

pub(crate) fn copy_members(v: &Vec<(String, Json)>) -> (r: Vec<(String, Json)>)
    ensures
        r.deep_view() == v.deep_view(),
{
    let ghost vv = v.deep_view();
    let mut r: Vec<(String, Json)> = Vec::new();
    assert(r.deep_view() =~= vv.take(0));
    for i in 0..v.len()
        invariant
            vv == v.deep_view(),
            r.deep_view() == vv.take(i as int),
    {
        proof {
            lemma_take(vv, i as int);
            assert(vv[i as int] == (v@[i as int].0@, v@[i as int].1.deep_view()));
        }
        push_to(&mut r, (v[i].0.clone(), v[i].1.clone()));
    }
    assert(vv.take(v@.len() as int) =~= vv);
    r
}

fn note(m: &mut Vec<(String, Vec<(String, Json)>)>, index: &str, shard: u32, v: Json)
    ensures
        final(m).deep_view() == noted(old(m).deep_view(), index@, shard, v.deep_view()),
{
    let mut o = match get(m, index) {
        Some(o) => copy_members(o),
        None => fields(),
    };
    put(&mut o, decimal(shard as u64), v);
    put(m, index.to_owned(), o);
}

impl Accounts {
    fn fail(&mut self, index: &str, shard: u32, node: &Option<String>, reason: &str)
        ensures
            final(self).deep_view() == old(self).deep_view().failing(
                index@,
                shard,
                node.deep_view(),
                reason@,
            ),
    {
        note(&mut self.failed, index, shard, text(reason));
        push_to(
            &mut self.failures,
            Failure {
                index: index.to_owned(),
                shard,
                node: copy_text(node),
                reason: reason.to_owned(),
            },
        );
    }

    fn write(&mut self, index: &str, shard: u32, stats: &Json)
        ensures
            final(self).deep_view() == old(self).deep_view().writing(
                index@,
                shard,
                stats.deep_view(),
            ),
    {
        note(&mut self.written, index, shard, stats.clone());
    }

    fn settle(&mut self, share: &Share, node: &Option<String>, outcome: &Outcome)
        ensures
            final(self).deep_view() == settled(
                old(self).deep_view(),
                share.deep_view(),
                node.deep_view(),
                outcome.deep_view(),
                share.shards@.len(),
            ),
    {
        let ghost start = self.deep_view();
        for i in 0..share.shards.len()
            invariant
                self.deep_view() == settled(
                    start,
                    share.deep_view(),
                    node.deep_view(),
                    outcome.deep_view(),
                    i as nat,
                ),
        {
            let shard = share.shards[i];
            let index = share.index.as_str();
            match outcome {
                Outcome::Lost => {},
                Outcome::Failed(why) => {
                    self.fail(index, shard, node, why.as_str());
                },
                Outcome::Done(v) => {
                    match find_stats(v, shard) {
                        Some(stats) => {
                            self.write(index, shard, stats);
                        },
                        None => {
                            self.fail(index, shard, node, find_why(v, shard).as_str());
                        },
                    }
                },
            }
        }
    }

    fn hear(&mut self, share: &Share, me: &Option<String>, outcome: &Outcome)
        ensures
            final(self).deep_view() == heard(
                old(self).deep_view(),
                share.deep_view(),
                me.deep_view(),
                outcome.deep_view(),
            ),
    {
        let node = match &share.node {
            Some(id) => Some(id.as_str().to_owned()),
            None => copy_text(me),
        };
        assert(share.shards.deep_view().len() == share.shards@.len());
        self.settle(share, &node, outcome);
        if let Outcome::Done(v) = outcome {
            if let Some(m) = v.get("meta") {
                if get(&self.meta, share.index.as_str()).is_none() {
                    put(&mut self.meta, share.index.clone(), m.clone());
                }
            }
        }
    }

    fn hear_all(
        &mut self,
        work: &Vec<Share>,
        outcomes: &Vec<Outcome>,
        me: &Option<String>,
        here: bool,
    )
        ensures
            final(self).deep_view() == all_heard(
                old(self).deep_view(),
                work.deep_view(),
                outcomes.deep_view(),
                me.deep_view(),
                here,
                work@.len(),
            ),
    {
        let ghost start = self.deep_view();
        let lost = Outcome::Lost;
        for i in 0..work.len()
            invariant
                lost == Outcome::Lost,
                self.deep_view() == all_heard(
                    start,
                    work.deep_view(),
                    outcomes.deep_view(),
                    me.deep_view(),
                    here,
                    i as nat,
                ),
        {
            assert(work.deep_view()[i as int] == work@[i as int].deep_view());
            if work[i].node.is_none() == here {
                let outcome = if i < outcomes.len() {
                    assert(outcomes.deep_view()[i as int] == outcomes@[i as int].deep_view());
                    &outcomes[i]
                } else {
                    &lost
                };
                self.hear(&work[i], me, outcome);
            }
        }
    }
}

fn find_stats<'a>(v: &'a Json, shard: u32) -> (r: Option<&'a Json>)
    ensures
        r.deep_view() == stats_of(v.deep_view(), shard),
{
    match v.get("shards") {
        Some(Json::Object(o)) => {
            proof {
                lemma_object(*o);
            }
            get(o, decimal(shard as u64).as_str())
        },
        _ => None,
    }
}

fn find_why(v: &Json, shard: u32) -> (r: String)
    ensures
        r@ == why_not(v.deep_view(), shard),
{
    let said = match v.get("failed") {
        Some(Json::Object(o)) => {
            proof {
                lemma_object(*o);
            }
            get(o, decimal(shard as u64).as_str())
        },
        Some(Json::List(l)) => {
            proof {
                lemma_list(*l);
            }
            if (shard as usize) < l.len() {
                Some(&l[shard as usize])
            } else {
                None
            }
        },
        _ => None,
    };
    match said {
        Some(Json::Text(why)) => why.clone(),
        _ => "the shard was not written".to_owned(),
    }
}

/// What became of every shard of a plan. `outcomes` are what came of the shares
/// in the plan's order; `me` is this node's id.
pub fn account(plan: &ShardPlan, outcomes: &Vec<Outcome>, me: &Option<String>) -> (a: Accounts)
    ensures
        a.deep_view() == accounts(plan.deep_view(), outcomes.deep_view(), me.deep_view()),
{
    let mut a = Accounts {
        failures: Vec::new(),
        written: Vec::new(),
        failed: Vec::new(),
        meta: Vec::new(),
    };
    let ghost uv = plan.unassigned.deep_view();
    assert(a.deep_view() =~= nobody_asked(uv, 0));
    let nobody: Option<String> = None;
    for i in 0..plan.unassigned.len()
        invariant
            nobody is None,
            uv == plan.unassigned.deep_view(),
            a.deep_view() == nobody_asked(uv, i as nat),
    {
        assert(uv[i as int] == plan.unassigned@[i as int].deep_view());
        let u = &plan.unassigned[i];
        a.fail(u.index.as_str(), u.shard, &nobody, u.reason.as_str());
    }
    a.hear_all(&plan.work, outcomes, me, true);
    a.hear_all(&plan.work, outcomes, me, false);
    a
}

/// How an index describes itself where it is kept: as the node that wrote it
/// said, and by its name and its shards where no shard of it could be written
/// -- so what it is missing can still be said.
pub open spec fn described(a: AccountsV, index: Seq<char>, shards: u32) -> JsonV {
    match lookup(a.meta, index) {
        Some(m) => m,
        None => JsonV::Object(
            no_fields().push(("name"@, JsonV::Text(index))).push(
                ("number_of_shards"@, count(shards as u64)),
            ),
        ),
    }
}

/// How an index describes itself where it is kept.
pub fn index_meta(a: &Accounts, index: &str, shards: u32) -> (r: Json)
    ensures
        r.deep_view() == described(a.deep_view(), index@, shards),
{
    match get(&a.meta, index) {
        Some(m) => m.clone(),
        None => {
            let mut o = fields();
            field(&mut o, "name", text(index));
            field(&mut o, "number_of_shards", whole(shards as u64));
            object(o)
        },
    }
}

/// Which of two failures comes first: by the index as it is written, then by
/// the shard.
pub open spec fn by_shard() -> spec_fn(FailureV, FailureV) -> bool {
    |a: FailureV, b: FailureV|
        before(quote(a.index), quote(b.index)) || (quote(a.index) == quote(b.index) && a.shard
            < b.shard)
}

pub open spec fn failure_json(f: FailureV) -> JsonV {
    JsonV::Object(
        no_fields().push(("index"@, JsonV::Text(f.index))).push(
            ("index_uuid"@, JsonV::Text(f.index)),
        ).push(("shard_id"@, count(f.shard as u64))).push(
            ("reason"@, JsonV::Text(f.reason)),
        ).push(
            (
                "node_id"@,
                match f.node {
                    Some(n) => JsonV::Text(n),
                    None => JsonV::Null,
                },
            ),
        ).push(("status"@, JsonV::Text("INTERNAL_SERVER_ERROR"@))),
    )
}

/// What a snapshot came to: whole, not at all, or part of it.
pub open spec fn outcome_name(failed: nat, all: nat) -> Seq<char> {
    if failed == 0 {
        "SUCCESS"@
    } else if failed == all {
        "FAILED"@
    } else {
        "PARTIAL"@
    }
}

/// What is recorded of a snapshot when it is finished.
pub open spec fn finished(
    record: Seq<(Seq<char>, JsonV)>,
    failures: Seq<FailureV>,
    all: u64,
    started: u64,
    ended: u64,
) -> Seq<(Seq<char>, JsonV)> {
    let n = failures.len();
    let a = set_to(record, "shards"@, shards_json(all, n as u64));
    let b = set_to(a, "state"@, JsonV::Text(outcome_name(n, all as nat)));
    let c = set_to(
        b,
        "failures"@,
        JsonV::List(
            sorted(failures, by_shard(), n).map_values(|f: FailureV| failure_json(f)),
        ),
    );
    let d = set_to(c, "start_time_in_millis"@, count(started));
    let e = set_to(d, "end_time_in_millis"@, count(ended));
    set_to(
        e,
        "duration_in_millis"@,
        count(
            if ended >= started {
                (ended - started) as u64
            } else {
                0
            },
        ),
    )
}

fn failure_in(f: &Failure) -> (r: Json)
    ensures
        r.deep_view() == failure_json(f.deep_view()),
{
    let mut o = fields();
    field(&mut o, "index", text(f.index.as_str()));
    field(&mut o, "index_uuid", text(f.index.as_str()));
    field(&mut o, "shard_id", whole(f.shard as u64));
    field(&mut o, "reason", text(f.reason.as_str()));
    field(
        &mut o,
        "node_id",
        match &f.node {
            Some(n) => text(n.as_str()),
            None => Json::Null,
        },
    );
    field(&mut o, "status", text("INTERNAL_SERVER_ERROR"));
    object(o)
}

fn failures_in(failures: Vec<Failure>) -> (r: Json)
    ensures
        r.deep_view() == JsonV::List(
            sorted(failures.deep_view(), by_shard(), failures@.len()).map_values(
                |f: FailureV| failure_json(f),
            ),
        ),
{
    let ghost less = by_shard();
    let f = |a: &Failure, b: &Failure| -> (r: bool)
        ensures
            r == less(a.deep_view(), b.deep_view()),
        {
            let x = quoted(a.index.as_str());
            let y = quoted(b.index.as_str());
            comes_before(x.as_str(), y.as_str()) || (same(x.as_str(), y.as_str()) && a.shard
                < b.shard)
        };
    let ordered = sort_by(failures, f, Ghost(less));
    let ghost ov = ordered.deep_view();
    let mut out: Vec<Json> = Vec::new();
    for i in 0..ordered.len()
        invariant
            ov == ordered.deep_view(),
            out@.len() == i,
            forall|j: int| 0 <= j < i ==> out@[j].deep_view() == failure_json(#[trigger] ov[j]),
    {
        assert(ov[i as int] == ordered@[i as int].deep_view());
        out.push(failure_in(&ordered[i]));
    }
    assert(out.deep_view() =~= ov.map_values(|f: FailureV| failure_json(f)));
    list(out)
}

/// How many shards a plan has to write.
pub fn shard_total(shards: &Vec<(String, u32)>) -> (n: u64)
    requires
        total(shards.deep_view()) <= u64::MAX,
    ensures
        n == total(shards.deep_view()),
{
    let ghost sv = shards.deep_view();
    let mut n: u64 = 0;
    assert(sv.take(0).len() == 0);
    for i in 0..shards.len()
        invariant
            sv == shards.deep_view(),
            total(sv) <= u64::MAX,
            n == total(sv.take(i as int)),
    {
        proof {
            lemma_take(sv, i as int);
            assert(sv[i as int].1 == shards@[i as int].1);
            lemma_total_grows(sv, i + 1);
        }
        n += shards[i].1 as u64;
    }
    assert(sv.take(shards@.len() as int) =~= sv);
    n
}

proof fn lemma_total_grows(s: Seq<(Seq<char>, u32)>, i: int)
    requires
        0 <= i <= s.len(),
    ensures
        total(s.take(i)) <= total(s),
    decreases s.len(),
{
    if i == s.len() {
        assert(s.take(i) =~= s);
    } else {
        lemma_total_grows(s.drop_last(), i);
        assert(s.drop_last().take(i) =~= s.take(i));
    }
}

/// What is recorded of a snapshot when it is finished: every shard of it is
/// accounted for, written or failed with the reason.
pub fn finish(
    record: Vec<(String, Json)>,
    failures: Vec<Failure>,
    all: u64,
    started: u64,
    ended: u64,
) -> (r: Vec<(String, Json)>)
    requires
        failures@.len() <= all,
    ensures
        r.deep_view() == finished(
            record.deep_view(),
            failures.deep_view(),
            all,
            started,
            ended,
        ),
{
    let mut r = record;
    assert(failures.deep_view().len() == failures@.len());
    let n: u64 = failures.len() as u64;
    set_member(&mut r, "shards", shards_of(all, n));
    set_member(
        &mut r,
        "state",
        text(
            if n == 0 {
                "SUCCESS"
            } else if n == all {
                "FAILED"
            } else {
                "PARTIAL"
            },
        ),
    );
    set_member(&mut r, "failures", failures_in(failures));
    set_member(&mut r, "start_time_in_millis", whole(started));
    set_member(&mut r, "end_time_in_millis", whole(ended));
    let took: u64 = if ended >= started {
        ended - started
    } else {
        0
    };
    set_member(&mut r, "duration_in_millis", whole(took));
    r
}

/// The answer when a repository has nowhere to write a snapshot: one that kept
/// the record alone would read as whole and restore nothing.
pub fn nowhere_to_write(repo: &str, name: &str) -> (r: Answer)
    ensures
        r.deep_view() == refused(
            500,
            "repository_exception"@,
            "["@ + repo@ + "] has nowhere to write snapshot ["@ + name@
                + "]: the repository has no usable location"@,
        ),
{
    err(
        500,
        "repository_exception",
        "[".to_owned().concat(repo).concat("] has nowhere to write snapshot [").concat(
            name,
        ).concat("]: the repository has no usable location").as_str(),
    )
}

/// The answer when a snapshot could not be written, and why.
pub fn could_not_write(repo: &str, name: &str, why: &str) -> (r: Answer)
    ensures
        r.deep_view() == refused(
            500,
            "repository_exception"@,
            "["@ + repo@ + "] could not write snapshot ["@ + name@ + "]: "@ + why@,
        ),
{
    err(
        500,
        "repository_exception",
        "[".to_owned().concat(repo).concat("] could not write snapshot [").concat(name).concat(
            "]: ",
        ).concat(why).as_str(),
    )
}

/// Whether the caller waits for the snapshot to be finished.
pub open spec fn waits(wait: Option<Seq<char>>) -> bool {
    match wait {
        Some(v) => v != "false"@,
        None => false,
    }
}

/// The answer to a snapshot being taken: the finished snapshot where the caller
/// waits for it, else that it has begun.
pub fn created(record: Vec<(String, Json)>, wait: &Option<String>) -> (r: Answer)
    ensures
        r.deep_view() == if waits(wait.deep_view()) {
            done(
                JsonV::Object(
                    no_fields().push(("snapshot"@, JsonV::Object(record.deep_view()))),
                ),
            )
        } else {
            done(JsonV::Object(no_fields().push(("accepted"@, JsonV::Bool(true)))))
        },
{
    let waiting = match wait {
        Some(v) => !same(v.as_str(), "false"),
        None => false,
    };
    let mut o = fields();
    if waiting {
        field(&mut o, "snapshot", object(record));
    } else {
        field(&mut o, "accepted", flag(true));
    }
    ok(object(o))
}

// ---- what holds of the accounts ------------------------------------------------

/// Whether a shard was written.
pub open spec fn is_written(a: AccountsV, index: Seq<char>, shard: u32) -> bool {
    lookup(under(a.written, index), dec(shard as nat)) is Some
}

/// Whether a shard failed.
pub open spec fn is_failed(a: AccountsV, index: Seq<char>, shard: u32) -> bool {
    exists|k: int|
        0 <= k < a.failures.len() && (#[trigger] a.failures[k]).index == index
            && a.failures[k].shard == shard
}

pub open spec fn is_accounted(a: AccountsV, index: Seq<char>, shard: u32) -> bool {
    is_written(a, index, shard) || is_failed(a, index, shard)
}

proof fn lemma_written_stays(
    a: AccountsV,
    index: Seq<char>,
    shard: u32,
    stats: JsonV,
    other: Seq<char>,
    s: u32,
)
    ensures
        is_written(a.writing(index, shard, stats), index, shard),
        is_written(a, other, s) ==> is_written(a.writing(index, shard, stats), other, s),
{
    let inner = with(under(a.written, index), dec(shard as nat), stats);
    lemma_with(a.written, index, inner, other);
    lemma_with(under(a.written, index), dec(shard as nat), stats, dec(s as nat));
}

proof fn lemma_settled(
    a: AccountsV,
    share: ShareV,
    node: Option<Seq<char>>,
    outcome: OutcomeV,
    n: nat,
    other: Seq<char>,
    s: u32,
)
    requires
        n <= share.shards.len(),
    ensures
        ({
            let b = settled(a, share, node, outcome, n);
            &&& is_accounted(a, other, s) ==> is_accounted(b, other, s)
            &&& outcome is Lost || forall|k: int|
                0 <= k < n ==> is_accounted(b, share.index, #[trigger] share.shards[k])
            &&& b.failures.len() <= a.failures.len() + n
        }),
    decreases n,
{
    if n > 0 {
        let b = settled(a, share, node, outcome, (n - 1) as nat);
        let c = settled(a, share, node, outcome, n);
        let shard = share.shards[n - 1];
        lemma_settled(a, share, node, outcome, (n - 1) as nat, other, s);
        assert forall|o: Seq<char>, t: u32| is_accounted(b, o, t) implies #[trigger] is_accounted(
            c,
            o,
            t,
        ) by {
            lemma_step(b, share, node, outcome, shard, o, t);
        }
        lemma_step(b, share, node, outcome, shard, share.index, shard);
    }
}

proof fn lemma_step(
    b: AccountsV,
    share: ShareV,
    node: Option<Seq<char>>,
    outcome: OutcomeV,
    shard: u32,
    other: Seq<char>,
    s: u32,
)
    ensures
        ({
            let c = match outcome {
                OutcomeV::Lost => b,
                OutcomeV::Failed(why) => b.failing(share.index, shard, node, why),
                OutcomeV::Done(v) => match stats_of(v, shard) {
                    Some(stats) => b.writing(share.index, shard, stats),
                    None => b.failing(share.index, shard, node, why_not(v, shard)),
                },
            };
            &&& is_accounted(b, other, s) ==> is_accounted(c, other, s)
            &&& outcome is Lost || is_accounted(c, share.index, shard)
        }),
{
    match outcome {
        OutcomeV::Lost => {},
        OutcomeV::Failed(why) => {
            lemma_fails(b, share.index, shard, node, why, other, s);
        },
        OutcomeV::Done(v) => {
            match stats_of(v, shard) {
                Some(stats) => {
                    lemma_written_stays(b, share.index, shard, stats, other, s);
                },
                None => {
                    lemma_fails(b, share.index, shard, node, why_not(v, shard), other, s);
                },
            }
        },
    }
}

proof fn lemma_fails(
    b: AccountsV,
    index: Seq<char>,
    shard: u32,
    node: Option<Seq<char>>,
    why: Seq<char>,
    other: Seq<char>,
    s: u32,
)
    ensures
        is_failed(b.failing(index, shard, node, why), index, shard),
        is_accounted(b, other, s) ==> is_accounted(b.failing(index, shard, node, why), other, s),
{
    let c = b.failing(index, shard, node, why);
    assert(c.failures[b.failures.len() as int].index == index);
    if is_failed(b, other, s) {
        let k = choose|k: int|
            0 <= k < b.failures.len() && (#[trigger] b.failures[k]).index == other
                && b.failures[k].shard == s;
        assert(c.failures[k] == b.failures[k]);
    }
}

/// How many shards the first shares of one side hold.
spec fn held(work: Seq<ShareV>, here: bool, n: nat) -> nat
    decreases n,
{
    if n == 0 {
        0
    } else {
        held(work, here, (n - 1) as nat) + if (work[n - 1].node is None) == here {
            work[n - 1].shards.len()
        } else {
            0
        }
    }
}

proof fn lemma_held(work: Seq<ShareV>, n: nat)
    requires
        n <= work.len(),
    ensures
        held(work, true, n) + held(work, false, n) == shared(work.take(n as int)),
    decreases n,
{
    if n > 0 {
        lemma_held(work, (n - 1) as nat);
        lemma_take(work, n - 1);
    }
}

proof fn lemma_heard(
    a: AccountsV,
    work: Seq<ShareV>,
    outcomes: Seq<OutcomeV>,
    me: Option<Seq<char>>,
    here: bool,
    n: nat,
    other: Seq<char>,
    s: u32,
)
    requires
        n <= work.len(),
    ensures
        ({
            let b = all_heard(a, work, outcomes, me, here, n);
            &&& is_accounted(a, other, s) ==> is_accounted(b, other, s)
            &&& b.failures.len() <= a.failures.len() + held(work, here, n)
        }),
    decreases n,
{
    if n > 0 {
        let b = all_heard(a, work, outcomes, me, here, (n - 1) as nat);
        lemma_heard(a, work, outcomes, me, here, (n - 1) as nat, other, s);
        let share = work[n - 1];
        if (share.node is None) == here {
            let node = if share.node is None {
                me
            } else {
                share.node
            };
            let outcome = outcome_of(outcomes, n - 1);
            lemma_settled(b, share, node, outcome, share.shards.len(), other, s);
        }
    }
}

proof fn lemma_heard_one(
    a: AccountsV,
    work: Seq<ShareV>,
    outcomes: Seq<OutcomeV>,
    me: Option<Seq<char>>,
    n: nat,
    k: int,
    j: int,
)
    requires
        0 <= k < n <= work.len(),
        0 <= j < work[k].shards.len(),
        !(outcome_of(outcomes, k) is Lost),
    ensures
        is_accounted(
            all_heard(a, work, outcomes, me, work[k].node is None, n),
            work[k].index,
            work[k].shards[j],
        ),
    decreases n,
{
    let here = work[k].node is None;
    let b = all_heard(a, work, outcomes, me, here, (n - 1) as nat);
    let share = work[n - 1];
    let node = if share.node is None {
        me
    } else {
        share.node
    };
    let index = work[k].index;
    let s = work[k].shards[j];
    if k < n - 1 {
        lemma_heard_one(a, work, outcomes, me, (n - 1) as nat, k, j);
        if (share.node is None) == here {
            lemma_settled(
                b,
                share,
                node,
                outcome_of(outcomes, n - 1),
                share.shards.len(),
                index,
                s,
            );
        }
    } else {
        lemma_settled(b, share, node, outcome_of(outcomes, n - 1), share.shards.len(), index, s);
    }
}

/// A shard of a share that was heard of is accounted for: it was written, or it
/// failed and the failure says why.
pub proof fn law_every_shard_is_accounted_for(
    p: PlanV,
    outcomes: Seq<OutcomeV>,
    me: Option<Seq<char>>,
    k: int,
    j: int,
)
    requires
        0 <= k < p.work.len(),
        0 <= j < p.work[k].shards.len(),
        !(outcome_of(outcomes, k) is Lost),
    ensures
        is_accounted(accounts(p, outcomes, me), p.work[k].index, p.work[k].shards[j]),
{
    let a = nobody_asked(p.unassigned, p.unassigned.len());
    let b = all_heard(a, p.work, outcomes, me, true, p.work.len());
    let index = p.work[k].index;
    let s = p.work[k].shards[j];
    if p.work[k].node is None {
        lemma_heard_one(a, p.work, outcomes, me, p.work.len(), k, j);
        lemma_heard(b, p.work, outcomes, me, false, p.work.len(), index, s);
    } else {
        lemma_heard_one(b, p.work, outcomes, me, p.work.len(), k, j);
    }
}

/// No more shards of a plan fail than it has to write, whatever the nodes say.
pub proof fn law_no_more_fail_than_there_are(
    indices: Seq<Seq<char>>,
    counts: Seq<(Seq<char>, u32)>,
    cluster: Option<(Seq<IndexV>, Option<Seq<char>>)>,
    outcomes: Seq<OutcomeV>,
    me: Option<Seq<char>>,
)
    requires
        indices.no_duplicates(),
    ensures
        ({
            let p = planned(indices, counts, cluster, indices.len());
            accounts(p, outcomes, me).failures.len() <= total(p.shards)
        }),
{
    let p = planned(indices, counts, cluster, indices.len());
    super::plan::law_every_shard_is_counted_once(indices, counts, cluster);
    lemma_no_more_fail(p, outcomes, me);
}

/// No more shards fail than are in somebody's share or nobody's.
pub(crate) proof fn lemma_no_more_fail(
    p: PlanV,
    outcomes: Seq<OutcomeV>,
    me: Option<Seq<char>>,
)
    ensures
        accounts(p, outcomes, me).failures.len() <= shared(p.work) + p.unassigned.len(),
{
    let n = p.work.len();
    let a = nobody_asked(p.unassigned, p.unassigned.len());
    let b = all_heard(a, p.work, outcomes, me, true, n);
    lemma_nobody(p.unassigned, p.unassigned.len());
    lemma_heard(a, p.work, outcomes, me, true, n, ""@, 0);
    lemma_heard(b, p.work, outcomes, me, false, n, ""@, 0);
    lemma_held(p.work, n);
    assert(p.work.take(n as int) =~= p.work);
}

proof fn lemma_nobody(unassigned: Seq<UnplacedV>, n: nat)
    ensures
        nobody_asked(unassigned, n).failures.len() == n,
    decreases n,
{
    if n > 0 {
        lemma_nobody(unassigned, (n - 1) as nat);
    }
}

} // verus!
