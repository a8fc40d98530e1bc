//! The status of a finished snapshot, shard by shard.

use vstd::prelude::*;

use super::create::count;
use super::pick::{found, pick_snapshots, refuse_missing, snapshot_missing};
use super::repository::{parts, parts_of};
use crate::api::answer::{
    absent, at, at_key, causing, counted, done, failed, failing, list_at, ok, only, said, set_member,
    set_to, text_at, texts_at, whole_at, Answer, AnswerV,
};
use crate::cluster::state::has_text;
use crate::json::{field, fields, list, member, no_fields, object, text, whole, Json, JsonV};
use crate::list::{find, find_in, get, keep, lemma_take, push_to};
use crate::text::{dec, decimal};

verus! {

/// Whether an index is not among some.
pub open spec fn not_in(held: Seq<Seq<char>>) -> spec_fn(Seq<char>) -> bool {
    |n: Seq<char>| !held.contains(n)
}

/// What is said of an index a snapshot does not hold: the reason names the
/// first one and says there may be more, which is how a set is named that was
/// not checked to its end.
pub open spec fn not_held(repo: Seq<char>, snapshot: Seq<char>, index: Seq<char>) -> AnswerV {
    let named = index + " and possibly more indices"@;
    let about = absent(named);
    failed(
        404,
        JsonV::Object(
            about.push(("root_cause"@, JsonV::List(seq![JsonV::Object(about)]))).push(
                (
                    "caused_by"@,
                    JsonV::Object(
                        crate::api::answer::cause(
                            "illegal_argument_exception"@,
                            "indices ["@ + named + "] missing in snapshot ["@ + snapshot
                                + "] of repository ["@ + repo + "]"@,
                        ),
                    ),
                ),
            ),
        ),
    )
}

/// The first snapshot that does not hold one of the indices asked for.
pub open spec fn first_without(
    repo: Seq<char>,
    found: Seq<JsonV>,
    wanted: Seq<Seq<char>>,
    n: nat,
) -> Option<AnswerV>
    decreases n,
{
    if n == 0 {
        None
    } else {
        match first_without(repo, found, wanted, (n - 1) as nat) {
            Some(a) => Some(a),
            None => {
                let i = find(wanted, not_in(texts_at(found[n - 1], "indices"@)));
                if i < wanted.len() {
                    Some(
                        not_held(
                            repo,
                            match said(found[n - 1], "snapshot"@) {
                                Some(s) => s,
                                None => ""@,
                            },
                            wanted[i],
                        ),
                    )
                } else {
                    None
                }
            },
        }
    }
}

/// Why a status is not given, if it is not: a snapshot that is missing, or an
/// index one does not hold. The indices are named exactly: a pattern is not
/// expanded against a snapshot.
pub open spec fn statusless(
    repo: Seq<char>,
    found: Seq<JsonV>,
    gone: Option<Seq<char>>,
    indices: Option<Seq<char>>,
    lenient: bool,
) -> Option<AnswerV> {
    if lenient {
        None
    } else {
        match gone {
            Some(g) => Some(snapshot_missing(repo, g)),
            None => match indices {
                Some(e) => first_without(repo, found, parts(e), found.len()),
                None => None,
            },
        }
    }
}

fn refuse_index(repo: &str, snapshot: &str, index: &str) -> (r: Answer)
    ensures
        r.deep_view() == not_held(repo@, snapshot@, index@),
{
    let named = index.to_owned().concat(" and possibly more indices");
    let mut error = crate::api::answer::absent_index(named.as_str());
    field(
        &mut error,
        "root_cause",
        only(object(crate::api::answer::absent_index(named.as_str()))),
    );
    field(
        &mut error,
        "caused_by",
        object(
            causing(
                "illegal_argument_exception",
                "indices [".to_owned().concat(named.as_str()).concat(
                    "] missing in snapshot [",
                ).concat(snapshot).concat("] of repository [").concat(repo).concat("]").as_str(),
            ),
        ),
    );
    failing(404, object(error))
}

/// Why a status is not given, if it is not.
pub fn status_refused(
    repo: &str,
    found: &Vec<Json>,
    gone: &Option<String>,
    indices: &Option<String>,
    lenient: bool,
) -> (r: Option<Answer>)
    ensures
        r.deep_view() == statusless(
            repo@,
            found.deep_view(),
            gone.deep_view(),
            indices.deep_view(),
            lenient,
        ),
{
    if lenient {
        return None;
    }
    if let Some(g) = gone {
        return Some(refuse_missing(repo, g.as_str()));
    }
    let wanted = match indices {
        Some(e) => parts_of(e.as_str()),
        None => {
            return None;
        },
    };
    let ghost wv = wanted.deep_view();
    let ghost fv = found.deep_view();
    for k in 0..found.len()
        invariant
            wv == wanted.deep_view(),
            fv == found.deep_view(),
            first_without(repo@, fv, wv, k as nat) is None,
            !lenient,
            gone is None,
            indices.deep_view() is Some,
            wv == parts(indices.deep_view()->0),
    {
        assert(fv[k as int] == found@[k as int].deep_view());
        let held = list_at(&found[k], "indices");
        let ghost p = not_in(held.deep_view());
        let f = |n: &String| -> (b: bool)
            ensures
                b == p(n.deep_view()),
            { !has_text(&held, n.as_str()) };
        let i = find_in(&wanted, f, Ghost(p));
        assert(wv.len() == wanted@.len());
        if i < wanted.len() {
            assert(wv[i as int] == wanted@[i as int]@);
            let snapshot = match text_at(&found[k], "snapshot") {
                Some(s) => s,
                None => "".to_owned(),
            };
            let answer = refuse_index(repo, snapshot.as_str(), wanted[i].as_str());
            proof {
                lemma_first(repo@, fv, wv, (k + 1) as nat, fv.len());
            }
            return Some(answer);
        }
    }
    None
}

proof fn lemma_first(repo: Seq<char>, found: Seq<JsonV>, wanted: Seq<Seq<char>>, k: nat, n: nat)
    requires
        k <= n,
        first_without(repo, found, wanted, k) is Some,
    ensures
        first_without(repo, found, wanted, n) == first_without(repo, found, wanted, k),
    decreases n,
{
    if k < n {
        lemma_first(repo, found, wanted, k, (n - 1) as nat);
    }
}

pub open spec fn among(wanted: Option<Seq<Seq<char>>>) -> spec_fn(Seq<char>) -> bool {
    |n: Seq<char>|
        match wanted {
            Some(w) => w.contains(n),
            None => true,
        }
}

/// The indices of a snapshot that are reported.
pub open spec fn reported(s: JsonV, indices: Option<Seq<char>>) -> Seq<Seq<char>> {
    keep(
        texts_at(s, "indices"@),
        among(
            match indices {
                Some(e) => Some(parts(e)),
                None => None,
            },
        ),
    )
}

/// The indices of a snapshot that are reported: all it holds, or those named.
pub fn indices_reported(s: &Json, indices: &Option<String>) -> (r: Vec<String>)
    ensures
        r.deep_view() == reported(s.deep_view(), indices.deep_view()),
{
    let names = list_at(s, "indices");
    let ghost nv = names.deep_view();
    let wanted = match indices {
        Some(e) => Some(parts_of(e.as_str())),
        None => None,
    };
    let ghost p = among(wanted.deep_view());
    let mut r: Vec<String> = Vec::new();
    assert(r.deep_view() =~= keep(nv.take(0), p));
    for i in 0..names.len()
        invariant
            nv == names.deep_view(),
            p == among(wanted.deep_view()),
            r.deep_view() == keep(nv.take(i as int), p),
    {
        proof {
            lemma_take(nv, i as int);
            assert(nv[i as int] == names@[i as int]@);
        }
        let kept = match &wanted {
            Some(w) => has_text(w, names[i].as_str()),
            None => true,
        };
        if kept {
            push_to(&mut r, names[i].clone());
        }
    }
    assert(nv.take(names@.len() as int) =~= nv);
    r
}

// ---- counting ------------------------------------------------------------------

/// What a repository holds of an index: how it describes itself, and how many
/// bytes that takes; nothing where it cannot be read.
pub struct Kept {
    pub index: String,
    pub found: Option<(Json, u64)>,
}

#[verifier::ext_equal]
pub struct KeptV {
    pub index: Seq<char>,
    pub found: Option<(JsonV, u64)>,
}

impl DeepView for Kept {
    type V = KeptV;

    open spec fn deep_view(&self) -> KeptV {
        KeptV { index: self.index@, found: self.found.deep_view() }
    }
}

pub open spec fn stats_json(files: nat, bytes: nat, start: u64, time: u64) -> JsonV {
    let size = JsonV::Object(
        no_fields().push(("file_count"@, count(files as u64))).push(
            ("size_in_bytes"@, count(bytes as u64)),
        ),
    );
    JsonV::Object(
        no_fields().push(("incremental"@, size)).push(("total"@, size)).push(
            ("start_time_in_millis"@, count(start)),
        ).push(("time_in_millis"@, count(time))),
    )
}

pub open spec fn counts_json(done: nat, failed: nat) -> JsonV {
    JsonV::Object(
        no_fields().push(("initializing"@, count(0))).push(("started"@, count(0))).push(
            ("finalizing"@, count(0)),
        ).push(("done"@, count(done as u64))).push(("failed"@, count(failed as u64))).push(
            ("total"@, count((done + failed) as u64)),
        ),
    )
}

/// What a count is when nothing is said.
pub open spec fn or(n: Option<u64>, usual: u64) -> u64 {
    match n {
        Some(x) => x,
        None => usual,
    }
}

/// What is written of a shard, in an index's description.
pub open spec fn shard_written(meta: Option<JsonV>, shard: nat) -> Option<JsonV> {
    match meta {
        Some(m) => match member(m, "shards"@) {
            Some(s) => member(s, dec(shard)),
            None => None,
        },
        None => None,
    }
}

/// Why a shard was not written, in an index's description.
pub open spec fn shard_reason(meta: Option<JsonV>, shard: nat) -> Seq<char> {
    match meta {
        Some(m) => match member(m, "failed_shards"@) {
            Some(s) => match said(s, dec(shard)) {
                Some(why) => why,
                None => "the shard was not written"@,
            },
            None => "the shard was not written"@,
        },
        None => "the shard was not written"@,
    }
}

/// What the shards of an index come to.
#[verifier::ext_equal]
pub struct TallyV {
    pub done: nat,
    pub failed: nat,
    pub bytes: nat,
    pub shards: Seq<(Seq<char>, JsonV)>,
}

/// What the first shards of an index come to: each that was written is a file,
/// and one that was not is counted failed with the reason it gave.
pub open spec fn tally(meta: Option<JsonV>, started: u64, n: nat) -> TallyV
    decreases n,
{
    if n == 0 {
        TallyV { done: 0, failed: 0, bytes: 0, shards: no_fields() }
    } else {
        let t = tally(meta, started, (n - 1) as nat);
        let key = dec((n - 1) as nat);
        match shard_written(meta, (n - 1) as nat) {
            Some(w) => {
                let size = or(counted(w, "size_in_bytes"@), 0);
                TallyV {
                    done: t.done + 1,
                    bytes: t.bytes + size as nat,
                    shards: t.shards.push(
                        (
                            key,
                            JsonV::Object(
                                no_fields().push(("stage"@, JsonV::Text("DONE"@))).push(
                                    (
                                        "stats"@,
                                        stats_json(
                                            1,
                                            size as nat,
                                            or(counted(w, "start_time_in_millis"@), started),
                                            or(counted(w, "time_in_millis"@), 0),
                                        ),
                                    ),
                                ),
                            ),
                        ),
                    ),
                    ..t
                }
            },
            None => TallyV {
                failed: t.failed + 1,
                shards: t.shards.push(
                    (
                        key,
                        JsonV::Object(
                            no_fields().push(("stage"@, JsonV::Text("FAILURE"@))).push(
                                (
                                    "reason"@,
                                    JsonV::Text(shard_reason(meta, (n - 1) as nat)),
                                ),
                            ).push(("stats"@, stats_json(0, 0, started, 0))),
                        ),
                    ),
                ),
                ..t
            },
        }
    }
}

/// How an index describes itself.
pub open spec fn meta_of(k: KeptV) -> Option<JsonV> {
    match k.found {
        Some((m, size)) => Some(m),
        None => None,
    }
}

/// How many shards an index says it has: one where it says nothing.
pub open spec fn shards_said(k: KeptV) -> u64 {
    match meta_of(k) {
        Some(m) => or(counted(m, "number_of_shards"@), 1),
        None => 1,
    }
}

/// What an index comes to: its shards, its files and its bytes. Its description
/// is one more file.
pub open spec fn index_tally(k: KeptV, started: u64) -> (TallyV, nat, nat) {
    let t = tally(meta_of(k), started, shards_said(k) as nat);
    match k.found {
        Some((m, size)) => (t, t.done + 1, t.bytes + size as nat),
        None => (t, t.done, t.bytes),
    }
}

/// What a snapshot comes to.
#[verifier::ext_equal]
pub struct SumV {
    pub done: nat,
    pub failed: nat,
    pub files: nat,
    pub bytes: nat,
    pub indices: Seq<(Seq<char>, JsonV)>,
}

/// What the first indices of a snapshot come to. Each is under its name, and of
/// one that is named twice what was said last.
pub open spec fn summed(kept: Seq<KeptV>, started: u64, took: u64, n: nat) -> SumV
    decreases n,
{
    if n == 0 {
        SumV { done: 0, failed: 0, files: 0, bytes: 0, indices: no_fields() }
    } else {
        let s = summed(kept, started, took, (n - 1) as nat);
        let (t, files, bytes) = index_tally(kept[n - 1], started);
        SumV {
            done: s.done + t.done,
            failed: s.failed + t.failed,
            files: s.files + files,
            bytes: s.bytes + bytes,
            indices: set_to(
                s.indices,
                kept[n - 1].index,
                JsonV::Object(
                    no_fields().push(("shards_stats"@, counts_json(t.done, t.failed))).push(
                        ("stats"@, stats_json(files, bytes, started, took)),
                    ).push(("shards"@, JsonV::Object(t.shards))),
                ),
            ),
        }
    }
}

/// The status of a finished snapshot.
pub open spec fn status(repo: Seq<char>, s: JsonV, kept: Seq<KeptV>) -> JsonV {
    let started = or(counted(s, "start_time_in_millis"@), 0);
    let took = or(counted(s, "duration_in_millis"@), 0);
    let sum = summed(kept, started, took, kept.len());
    JsonV::Object(
        no_fields().push(("snapshot"@, at(s, "snapshot"@))).push(
            ("repository"@, JsonV::Text(repo)),
        ).push(("uuid"@, at(s, "uuid"@))).push(
            (
                "state"@,
                match member(s, "state"@) {
                    Some(st) => st,
                    None => JsonV::Text("SUCCESS"@),
                },
            ),
        ).push(("include_global_state"@, at(s, "include_global_state"@))).push(
            ("shards_stats"@, counts_json(sum.done, sum.failed)),
        ).push(("stats"@, stats_json(sum.files, sum.bytes, started, took))).push(
            ("indices"@, JsonV::Object(sum.indices)),
        ),
    )
}

/// Whether what a snapshot comes to can be counted.
pub open spec fn countable(kept: Seq<KeptV>) -> bool {
    let sum = summed(kept, 0, 0, kept.len());
    sum.done + sum.failed <= u64::MAX && sum.files <= u64::MAX && sum.bytes <= u64::MAX
}

fn size_json(files: u64, bytes: u64) -> (r: Json)
    ensures
        r.deep_view() == JsonV::Object(
            no_fields().push(("file_count"@, count(files))).push(
                ("size_in_bytes"@, count(bytes)),
            ),
        ),
{
    let mut o = fields();
    field(&mut o, "file_count", whole(files));
    field(&mut o, "size_in_bytes", whole(bytes));
    object(o)
}

fn stats_in(files: u64, bytes: u64, start: u64, time: u64) -> (r: Json)
    ensures
        r.deep_view() == stats_json(files as nat, bytes as nat, start, time),
{
    let mut o = fields();
    field(&mut o, "incremental", size_json(files, bytes));
    field(&mut o, "total", size_json(files, bytes));
    field(&mut o, "start_time_in_millis", whole(start));
    field(&mut o, "time_in_millis", whole(time));
    object(o)
}

fn counts_in(done: u64, failed: u64) -> (r: Json)
    requires
        done + failed <= u64::MAX,
    ensures
        r.deep_view() == counts_json(done as nat, failed as nat),
{
    let mut o = fields();
    field(&mut o, "initializing", whole(0));
    field(&mut o, "started", whole(0));
    field(&mut o, "finalizing", whole(0));
    field(&mut o, "done", whole(done));
    field(&mut o, "failed", whole(failed));
    field(&mut o, "total", whole(done + failed));
    object(o)
}

fn or_usual(n: Option<u64>, usual: u64) -> (r: u64)
    ensures
        r == or(n, usual),
{
    match n {
        Some(x) => x,
        None => usual,
    }
}

fn written_shard<'a>(meta: &Option<&'a Json>, shard: u64) -> (r: Option<&'a Json>)
    ensures
        r.deep_view() == shard_written(meta.deep_view(), shard as nat),
{
    match meta {
        Some(m) => match m.get("shards") {
            Some(s) => s.get(decimal(shard).as_str()),
            None => None,
        },
        None => None,
    }
}

fn reason_of(meta: &Option<&Json>, shard: u64) -> (r: String)
    ensures
        r@ == shard_reason(meta.deep_view(), shard as nat),
{
    let why = match meta {
        Some(m) => match m.get("failed_shards") {
            Some(s) => text_at(s, decimal(shard).as_str()),
            None => None,
        },
        None => None,
    };
    match why {
        Some(w) => w,
        None => "the shard was not written".to_owned(),
    }
}

struct Tally {
    done: u64,
    failed: u64,
    bytes: u64,
    shards: Vec<(String, Json)>,
}

impl Tally {
    spec fn seen(&self) -> TallyV {
        TallyV {
            done: self.done as nat,
            failed: self.failed as nat,
            bytes: self.bytes as nat,
            shards: self.shards.deep_view(),
        }
    }
}

proof fn lemma_tally(meta: Option<JsonV>, started: u64, n: nat, m: nat)
    requires
        n <= m,
    ensures
        tally(meta, started, n).done + tally(meta, started, n).failed == n,
        tally(meta, started, n).bytes <= tally(meta, started, m).bytes,
        tally(meta, started, n).done <= tally(meta, started, m).done,
        tally(meta, started, n).failed <= tally(meta, started, m).failed,
    decreases m,
{
    if n < m {
        lemma_tally(meta, started, n, (m - 1) as nat);
    } else if n > 0 {
        lemma_tally(meta, started, (n - 1) as nat, (n - 1) as nat);
    }
}

fn done_shard(w: &Json, started: u64) -> (r: (Json, u64))
    ensures
        r.1 == or(counted(w.deep_view(), "size_in_bytes"@), 0),
        r.0.deep_view() == JsonV::Object(
            no_fields().push(("stage"@, JsonV::Text("DONE"@))).push(
                (
                    "stats"@,
                    stats_json(
                        1,
                        r.1 as nat,
                        or(counted(w.deep_view(), "start_time_in_millis"@), started),
                        or(counted(w.deep_view(), "time_in_millis"@), 0),
                    ),
                ),
            ),
        ),
{
    let size: u64 = or_usual(whole_at(w, "size_in_bytes"), 0);
    let mut o = fields();
    field(&mut o, "stage", text("DONE"));
    field(
        &mut o,
        "stats",
        stats_in(
            1,
            size,
            or_usual(whole_at(w, "start_time_in_millis"), started),
            or_usual(whole_at(w, "time_in_millis"), 0),
        ),
    );
    (object(o), size)
}

fn failed_shard(reason: &str, started: u64) -> (r: Json)
    ensures
        r.deep_view() == JsonV::Object(
            no_fields().push(("stage"@, JsonV::Text("FAILURE"@))).push(
                ("reason"@, JsonV::Text(reason@)),
            ).push(("stats"@, stats_json(0, 0, started, 0))),
        ),
{
    let mut o = fields();
    field(&mut o, "stage", text("FAILURE"));
    field(&mut o, "reason", text(reason));
    field(&mut o, "stats", stats_in(0, 0, started, 0));
    object(o)
}

fn tally_of(meta: &Option<&Json>, started: u64, shards: u64) -> (t: Tally)
    requires
        tally(meta.deep_view(), started, shards as nat).bytes <= u64::MAX,
    ensures
        t.seen() == tally(meta.deep_view(), started, shards as nat),
{
    let ghost mv = meta.deep_view();
    let mut t = Tally { done: 0, failed: 0, bytes: 0, shards: fields() };
    let mut shard: u64 = 0;
    while shard < shards
        invariant
            shard <= shards,
            mv == meta.deep_view(),
            tally(mv, started, shards as nat).bytes <= u64::MAX,
            t.seen() == tally(mv, started, shard as nat),
        decreases shards - shard,
    {
        proof {
            lemma_tally(mv, started, shard as nat, shard as nat);
            lemma_tally(mv, started, (shard + 1) as nat, shards as nat);
        }
        match written_shard(meta, shard) {
            Some(w) => {
                let (entry, size) = done_shard(w, started);
                t.done = t.done + 1;
                t.bytes = t.bytes + size;
                push_to(&mut t.shards, (decimal(shard), entry));
            },
            None => {
                t.failed = t.failed + 1;
                let entry = failed_shard(reason_of(meta, shard).as_str(), started);
                push_to(&mut t.shards, (decimal(shard), entry));
            },
        }
        shard += 1;
    }
    t
}

/// The counts do not depend on when the snapshot was started or how long it
/// took.
proof fn lemma_timeless(meta: Option<JsonV>, a: u64, b: u64, n: nat)
    ensures
        tally(meta, a, n).done == tally(meta, b, n).done,
        tally(meta, a, n).failed == tally(meta, b, n).failed,
        tally(meta, a, n).bytes == tally(meta, b, n).bytes,
    decreases n,
{
    if n > 0 {
        lemma_timeless(meta, a, b, (n - 1) as nat);
    }
}

proof fn lemma_summed(kept: Seq<KeptV>, started: u64, took: u64, n: nat)
    ensures
        summed(kept, started, took, n).done == summed(kept, 0, 0, n).done,
        summed(kept, started, took, n).failed == summed(kept, 0, 0, n).failed,
        summed(kept, started, took, n).files == summed(kept, 0, 0, n).files,
        summed(kept, started, took, n).bytes == summed(kept, 0, 0, n).bytes,
    decreases n,
{
    if n > 0 {
        lemma_summed(kept, started, took, (n - 1) as nat);
        let k = kept[n - 1];
        lemma_timeless(meta_of(k), started, 0, shards_said(k) as nat);
    }
}

proof fn lemma_sums_grow(kept: Seq<KeptV>, started: u64, took: u64, n: nat, m: nat)
    requires
        n <= m,
    ensures
        summed(kept, started, took, n).done <= summed(kept, started, took, m).done,
        summed(kept, started, took, n).failed <= summed(kept, started, took, m).failed,
        summed(kept, started, took, n).files <= summed(kept, started, took, m).files,
        summed(kept, started, took, n).bytes <= summed(kept, started, took, m).bytes,
    decreases m,
{
    if n < m {
        lemma_sums_grow(kept, started, took, n, (m - 1) as nat);
    }
}

struct Sum {
    done: u64,
    failed: u64,
    files: u64,
    bytes: u64,
    indices: Vec<(String, Json)>,
}

impl Sum {
    spec fn seen(&self) -> SumV {
        SumV {
            done: self.done as nat,
            failed: self.failed as nat,
            files: self.files as nat,
            bytes: self.bytes as nat,
            indices: self.indices.deep_view(),
        }
    }
}

fn sum_of(kept: &Vec<Kept>, started: u64, took: u64) -> (s: Sum)
    requires
        countable(kept.deep_view()),
    ensures
        s.seen() == summed(kept.deep_view(), started, took, kept@.len()),
{
    let ghost kv = kept.deep_view();
    let mut s = Sum { done: 0, failed: 0, files: 0, bytes: 0, indices: fields() };
    proof {
        lemma_summed(kv, started, took, kv.len());
    }
    let ghost all = summed(kv, started, took, kv.len());
    for i in 0..kept.len()
        invariant
            kv == kept.deep_view(),
            kv.len() == kept@.len(),
            all == summed(kv, started, took, kv.len()),
            all.done + all.failed <= u64::MAX,
            all.files <= u64::MAX,
            all.bytes <= u64::MAX,
            s.seen() == summed(kv, started, took, i as nat),
    {
        let k = &kept[i];
        let ghost one = kv[i as int];
        assert(one == k.deep_view());
        proof {
            lemma_sums_grow(kv, started, took, (i + 1) as nat, kv.len());
        }
        let meta = match &k.found {
            Some((m, _)) => Some(m),
            None => None,
        };
        assert(meta.deep_view() == meta_of(one));
        let shards: u64 = match &meta {
            Some(m) => or_usual(whole_at(m, "number_of_shards"), 1),
            None => 1,
        };
        let t = tally_of(&meta, started, shards);
        let (files, bytes): (u64, u64) = match &k.found {
            Some((_, size)) => (t.done + 1, t.bytes + *size),
            None => (t.done, t.bytes),
        };
        let mut o = fields();
        field(&mut o, "shards_stats", counts_in(t.done, t.failed));
        field(&mut o, "stats", stats_in(files, bytes, started, took));
        field(&mut o, "shards", object(t.shards));
        s.done = s.done + t.done;
        s.failed = s.failed + t.failed;
        s.files = s.files + files;
        s.bytes = s.bytes + bytes;
        set_member(&mut s.indices, k.index.as_str(), object(o));
    }
    s
}

fn tally_fits(meta: &Option<&Json>, shards: u64) -> (r: Option<(u64, u64)>)
    ensures
        match r {
            Some((done, bytes)) => done == tally(meta.deep_view(), 0, shards as nat).done && bytes
                == tally(meta.deep_view(), 0, shards as nat).bytes,
            None => tally(meta.deep_view(), 0, shards as nat).bytes > u64::MAX,
        },
{
    let ghost mv = meta.deep_view();
    let mut done: u64 = 0;
    let mut bytes: u64 = 0;
    let mut shard: u64 = 0;
    while shard < shards
        invariant
            shard <= shards,
            mv == meta.deep_view(),
            done == tally(mv, 0, shard as nat).done,
            bytes == tally(mv, 0, shard as nat).bytes,
        decreases shards - shard,
    {
        proof {
            lemma_tally(mv, 0, shard as nat, shard as nat);
            lemma_tally(mv, 0, (shard + 1) as nat, shards as nat);
        }
        if let Some(w) = written_shard(meta, shard) {
            let size: u64 = or_usual(whole_at(w, "size_in_bytes"), 0);
            if bytes > u64::MAX - size {
                return None;
            }
            done = done + 1;
            bytes = bytes + size;
        }
        shard += 1;
    }
    Some((done, bytes))
}

/// Whether what a snapshot comes to can be counted.
pub fn is_countable(kept: &Vec<Kept>) -> (r: bool)
    ensures
        r == countable(kept.deep_view()),
{
    let ghost kv = kept.deep_view();
    assert(kv.len() == kept@.len());
    let mut shards_all: u64 = 0;
    let mut files_all: u64 = 0;
    let mut bytes_all: u64 = 0;
    for i in 0..kept.len()
        invariant
            kv == kept.deep_view(),
            kv.len() == kept@.len(),
            shards_all == summed(kv, 0, 0, i as nat).done + summed(kv, 0, 0, i as nat).failed,
            files_all == summed(kv, 0, 0, i as nat).files,
            bytes_all == summed(kv, 0, 0, i as nat).bytes,
    {
        let k = &kept[i];
        let ghost one = kv[i as int];
        assert(one == k.deep_view());
        proof {
            lemma_sums_grow(kv, 0, 0, (i + 1) as nat, kv.len());
        }
        let meta = match &k.found {
            Some((m, _)) => Some(m),
            None => None,
        };
        assert(meta.deep_view() == meta_of(one));
        let shards: u64 = match &meta {
            Some(m) => or_usual(whole_at(m, "number_of_shards"), 1),
            None => 1,
        };
        proof {
            lemma_tally(meta_of(one), 0, shards as nat, shards as nat);
        }
        let (done, bytes): (u64, u64) = match tally_fits(&meta, shards) {
            Some(t) => t,
            None => {
                return false;
            },
        };
        let (more, size): (u64, u64) = match &k.found {
            Some((_, size)) => (1, *size),
            None => (0, 0),
        };
        if bytes > u64::MAX - size || shards_all > u64::MAX - shards || done > u64::MAX - more {
            return false;
        }
        if files_all > u64::MAX - (done + more) || bytes_all > u64::MAX - (bytes + size) {
            return false;
        }
        shards_all = shards_all + shards;
        files_all = files_all + (done + more);
        bytes_all = bytes_all + (bytes + size);
    }
    true
}

/// The status of a finished snapshot, shard by shard, from what its repository
/// holds: each shard wrote one file, and a shard that could not be written is
/// counted failed with the reason it gave.
pub fn status_of(repo: &str, s: &Json, kept: &Vec<Kept>) -> (r: Json)
    requires
        countable(kept.deep_view()),
    ensures
        r.deep_view() == status(repo@, s.deep_view(), kept.deep_view()),
{
    let started: u64 = or_usual(whole_at(s, "start_time_in_millis"), 0);
    let took: u64 = or_usual(whole_at(s, "duration_in_millis"), 0);
    proof {
        lemma_summed(kept.deep_view(), started, took, kept.deep_view().len());
    }
    assert(kept.deep_view().len() == kept@.len());
    let sum = sum_of(kept, started, took);
    let mut o = fields();
    field(&mut o, "snapshot", at_key(s, "snapshot"));
    field(&mut o, "repository", text(repo));
    field(&mut o, "uuid", at_key(s, "uuid"));
    field(
        &mut o,
        "state",
        match s.get("state") {
            Some(st) => st.clone(),
            None => text("SUCCESS"),
        },
    );
    field(&mut o, "include_global_state", at_key(s, "include_global_state"));
    field(&mut o, "shards_stats", counts_in(sum.done, sum.failed));
    field(&mut o, "stats", stats_in(sum.files, sum.bytes, started, took));
    field(&mut o, "indices", object(sum.indices));
    object(o)
}

/// The snapshots whose status is given, each with the indices of it that are
/// reported, or why none is.
pub open spec fn status_asked(
    repo: Seq<char>,
    names: Seq<char>,
    indices: Option<Seq<char>>,
    held: Seq<(Seq<char>, JsonV)>,
    records: Option<Seq<(Seq<char>, JsonV)>>,
    lenient: bool,
) -> Result<Seq<(JsonV, Seq<Seq<char>>)>, AnswerV> {
    let (f, gone) = found(held, records, names);
    match statusless(repo, f, gone, indices, lenient) {
        Some(why) => Err(why),
        None => Ok(f.map_values(|s: JsonV| (s, reported(s, indices)))),
    }
}

/// The snapshots whose status is given, each with the indices of it that are
/// reported: what the repository holds of those is read, and `status_of` says
/// what it comes to.
pub fn status_answer(
    repo: &str,
    names: &str,
    indices: &Option<String>,
    held: &Vec<(String, Json)>,
    records: &Option<Vec<(String, Json)>>,
    lenient: bool,
) -> (r: Result<Vec<(Json, Vec<String>)>, Answer>)
    ensures
        match r {
            Ok(v) => status_asked(
                repo@,
                names@,
                indices.deep_view(),
                held.deep_view(),
                records.deep_view(),
                lenient,
            ) == Ok::<Seq<(JsonV, Seq<Seq<char>>)>, AnswerV>(v.deep_view()),
            Err(why) => status_asked(
                repo@,
                names@,
                indices.deep_view(),
                held.deep_view(),
                records.deep_view(),
                lenient,
            ) == Err::<Seq<(JsonV, Seq<Seq<char>>)>, AnswerV>(why.deep_view()),
        },
{
    let (f, gone) = pick_snapshots(held, records, names);
    if let Some(why) = status_refused(repo, &f, &gone, indices, lenient) {
        return Err(why);
    }
    let ghost fv = f.deep_view();
    let ghost iv = indices.deep_view();
    let mut out: Vec<(Json, Vec<String>)> = Vec::new();
    for i in 0..f.len()
        invariant
            fv == f.deep_view(),
            iv == indices.deep_view(),
            out@.len() == i,
            forall|j: int|
                0 <= j < i ==> out.deep_view()[j] == (#[trigger] fv[j], reported(fv[j], iv)),
    {
        assert(fv[i as int] == f@[i as int].deep_view());
        push_to(&mut out, (f[i].clone(), indices_reported(&f[i], indices)));
    }
    assert(out.deep_view() =~= fv.map_values(|s: JsonV| (s, reported(s, iv))));
    Ok(out)
}

/// The answer with some statuses.
pub fn statuses(all: Vec<Json>) -> (r: Answer)
    ensures
        r.deep_view() == done(
            JsonV::Object(no_fields().push(("snapshots"@, JsonV::List(all.deep_view())))),
        ),
{
    let mut o = fields();
    field(&mut o, "snapshots", list(all));
    ok(object(o))
}

/// The snapshots running now, of which there are never any: a snapshot is
/// finished before its request is answered.
pub fn snapshot_status_running() -> (r: Answer)
    ensures
        r.deep_view() == done(
            JsonV::Object(no_fields().push(("snapshots"@, JsonV::List(Seq::empty())))),
        ),
{
    let none: Vec<Json> = Vec::new();
    assert(none.deep_view() =~= Seq::<JsonV>::empty());
    statuses(none)
}

/// Every shard an index says it has is done or failed, and none is both.
pub proof fn law_every_shard_is_done_or_failed(k: KeptV, started: u64)
    ensures
        ({
            let t = index_tally(k, started).0;
            &&& t.done + t.failed == shards_said(k)
            &&& t.shards.len() == shards_said(k)
        }),
{
    lemma_tally(meta_of(k), started, shards_said(k) as nat, shards_said(k) as nat);
    lemma_entries(meta_of(k), started, shards_said(k) as nat);
}

proof fn lemma_entries(meta: Option<JsonV>, started: u64, n: nat)
    ensures
        tally(meta, started, n).shards.len() == n,
    decreases n,
{
    if n > 0 {
        lemma_entries(meta, started, (n - 1) as nat);
    }
}

} // verus!
