//! Query sets, judgments and experiments.
//!
//! Each of these is kept in an index of its own and its lists are searches over
//! that index: where the index is there, what it holds is what comes back, and
//! where it is not the answer is the empty result there is before anything has
//! been written. Nothing here runs an experiment, so the counters of what has
//! been executed are zero.

use vstd::prelude::*;

use super::answer::{done, err, ok, refused, Answer, AnswerV};
use crate::json::{field, fields, flag, list, no_fields, object, text, whole, Json, JsonV, NumberV};
use crate::number::{parse_u64, unsigned};
use crate::text::same;

verus! {

pub const QUERY_SETS: &'static str = "search-relevance-queryset";

pub const SEARCH_CONFIGS: &'static str = "search-relevance-search-config";

pub const JUDGMENTS: &'static str = "search-relevance-judgment";

pub const EXPERIMENTS: &'static str = "search-relevance-experiment";

/// The counters of the judgments.
pub const JUDGMENT_COUNTERS: [&'static str; 3] = [
    "import_judgment_rating_generations",
    "llm_judgment_rating_generations",
    "ubi_judgment_rating_generations",
];

/// The counters of the experiments.
pub const EXPERIMENT_COUNTERS: [&'static str; 4] = [
    "experiment_executions",
    "experiment_pairwise_comparison_executions",
    "experiment_pointwise_evaluation_executions",
    "experiment_hybrid_optimizer_executions",
];

pub open spec fn zero() -> JsonV {
    JsonV::Number(NumberV::Whole(0))
}

pub open spec fn nothing() -> JsonV {
    JsonV::Object(
        no_fields().push(("took"@, zero())).push(("timed_out"@, JsonV::Bool(false))).push(
            (
                "_shards"@,
                JsonV::Object(
                    no_fields().push(("total"@, zero())).push(("successful"@, zero())).push(
                        ("skipped"@, zero()),
                    ).push(("failed"@, zero())),
                ),
            ),
        ).push(
            (
                "hits"@,
                JsonV::Object(
                    no_fields().push(
                        (
                            "total"@,
                            JsonV::Object(
                                no_fields().push(("value"@, zero())).push(
                                    ("relation"@, JsonV::Text("eq"@)),
                                ),
                            ),
                        ),
                    ).push(("max_score"@, JsonV::Null)).push(
                        ("hits"@, JsonV::List(Seq::empty())),
                    ),
                ),
            ),
        ),
    )
}

/// The answer when there is no index to search: no shard was asked and none
/// succeeded, and the hits are the empty hits of a search that found nothing.
pub fn nothing_searched() -> (r: Json)
    ensures
        r.deep_view() == nothing(),
{
    let mut shards = fields();
    field(&mut shards, "total", whole(0));
    field(&mut shards, "successful", whole(0));
    field(&mut shards, "skipped", whole(0));
    field(&mut shards, "failed", whole(0));
    let mut total = fields();
    field(&mut total, "value", whole(0));
    field(&mut total, "relation", text("eq"));
    let none: Vec<Json> = Vec::new();
    assert(none.deep_view() =~= Seq::<JsonV>::empty());
    let mut hits = fields();
    field(&mut hits, "total", object(total));
    field(&mut hits, "max_score", Json::Null);
    field(&mut hits, "hits", list(none));
    let mut o = fields();
    field(&mut o, "took", whole(0));
    field(&mut o, "timed_out", flag(false));
    field(&mut o, "_shards", object(shards));
    field(&mut o, "hits", object(hits));
    object(o)
}

/// How many of a list are asked for: what was said, a thousand when nothing
/// was or it was no number.
pub open spec fn size_asked(size: Option<Seq<char>>) -> u64 {
    match size {
        Some(s) => match unsigned(s) {
            Some(n) => if n <= u64::MAX {
                n as u64
            } else {
                1000
            },
            None => 1000,
        },
        None => 1000,
    }
}

/// The search a list is: everything in its index.
pub open spec fn everything(size: Option<Seq<char>>) -> JsonV {
    JsonV::Object(
        no_fields().push(("size"@, JsonV::Number(NumberV::Whole(size_asked(size))))).push(
            (
                "query"@,
                JsonV::Object(no_fields().push(("match_all"@, JsonV::Object(no_fields())))),
            ),
        ),
    )
}

/// One of the lists: the search that answers it, or the answer when there is
/// no index to search.
pub fn listed(there: bool, size: &Option<String>) -> (r: Result<Json, Json>)
    ensures
        match r {
            Ok(search) => there && search.deep_view() == everything(size.deep_view()),
            Err(answer) => !there && answer.deep_view() == nothing(),
        },
{
    if !there {
        return Err(nothing_searched());
    }
    let n: u64 = match size {
        Some(s) => match parse_u64(s.as_str()) {
            Some(n) => n,
            None => 1000,
        },
        None => 1000,
    };
    let mut query = fields();
    field(&mut query, "match_all", object(fields()));
    let mut o = fields();
    field(&mut o, "size", whole(n));
    field(&mut o, "query", object(query));
    Ok(object(o))
}

/// Whether a counter is one of those asked for.
pub open spec fn wanted(want: Option<Seq<char>>, name: Seq<char>) -> bool {
    want is None || want == Some(name)
}

/// The first counters of a group, those asked for.
pub open spec fn group(names: Seq<&'static str>, want: Option<Seq<char>>, n: nat) -> Seq<
    (Seq<char>, JsonV),
>
    decreases n,
{
    if n == 0 {
        no_fields()
    } else {
        let before = group(names, want, (n - 1) as nat);
        if wanted(want, names[n - 1]@) {
            before.push((names[n - 1]@, zero()))
        } else {
            before
        }
    }
}

pub open spec fn with_group(
    o: Seq<(Seq<char>, JsonV)>,
    name: Seq<char>,
    members: Seq<(Seq<char>, JsonV)>,
) -> Seq<(Seq<char>, JsonV)> {
    if members.len() > 0 {
        o.push((name, JsonV::Object(members)))
    } else {
        o
    }
}

/// The two groups of counters, those asked for; a group none of whose counters
/// was asked for is left out.
pub open spec fn counted(want: Option<Seq<char>>) -> Seq<(Seq<char>, JsonV)> {
    with_group(
        with_group(no_fields(), "judgments"@, group(JUDGMENT_COUNTERS@, want, 3)),
        "experiments"@,
        group(EXPERIMENT_COUNTERS@, want, 4),
    )
}

fn is_wanted(want: &Option<String>, name: &str) -> (r: bool)
    ensures
        r == wanted(want.deep_view(), name@),
{
    match want {
        Some(w) => same(w.as_str(), name),
        None => true,
    }
}

fn add_group(o: &mut Vec<(String, Json)>, name: &str, members: Vec<(String, Json)>)
    ensures
        final(o).deep_view() == with_group(old(o).deep_view(), name@, members.deep_view()),
{
    assert(members.deep_view().len() == members@.len());
    if members.len() > 0 {
        field(o, name, object(members));
    }
}

fn count_members(want: &Option<String>) -> (o: Vec<(String, Json)>)
    ensures
        o.deep_view() == counted(want.deep_view()),
{
    let mut judgments = fields();
    for i in 0..3usize
        invariant
            judgments.deep_view() == group(JUDGMENT_COUNTERS@, want.deep_view(), i as nat),
    {
        if is_wanted(want, JUDGMENT_COUNTERS[i]) {
            field(&mut judgments, JUDGMENT_COUNTERS[i], whole(0));
        }
    }
    let mut experiments = fields();
    for i in 0..4usize
        invariant
            experiments.deep_view() == group(EXPERIMENT_COUNTERS@, want.deep_view(), i as nat),
    {
        if is_wanted(want, EXPERIMENT_COUNTERS[i]) {
            field(&mut experiments, EXPERIMENT_COUNTERS[i], whole(0));
        }
    }
    let mut o = fields();
    add_group(&mut o, "judgments", judgments);
    add_group(&mut o, "experiments", experiments);
    o
}

/// The two groups of counters, those asked for. Every one is zero: no judgment
/// has been generated and no experiment has been run.
pub fn counters(want: &Option<String>) -> (r: Json)
    ensures
        r.deep_view() == JsonV::Object(counted(want.deep_view())),
{
    object(count_members(want))
}

/// The counters of the one node that counts. The cluster's version travels with
/// the whole answer and not with one stat.
pub open spec fn stats_answer(
    want: Option<Seq<char>>,
    path: Seq<char>,
    cluster: Seq<char>,
    node: Seq<char>,
) -> AnswerV {
    let c = counted(want);
    if want is Some && c.len() == 0 {
        refused(
            400,
            "illegal_argument_exception"@,
            "request ["@ + path + "] contains unrecognized stat: ["@ + want->0 + "]"@,
        )
    } else {
        let one = JsonV::Number(NumberV::Whole(1));
        done(
            JsonV::Object(
                no_fields().push(
                    (
                        "_nodes"@,
                        JsonV::Object(
                            no_fields().push(("total"@, one)).push(("successful"@, one)).push(
                                ("failed"@, zero()),
                            ),
                        ),
                    ),
                ).push(("cluster_name"@, JsonV::Text(cluster))).push(
                    (
                        "info"@,
                        JsonV::Object(
                            if want is Some {
                                no_fields()
                            } else {
                                no_fields().push(
                                    (
                                        "cluster_version"@,
                                        JsonV::Text(crate::OPENSEARCH_VERSION@),
                                    ),
                                )
                            },
                        ),
                    ),
                ).push(("all_nodes"@, JsonV::Object(c))).push(
                    ("nodes"@, JsonV::Object(no_fields().push((node, JsonV::Object(c))))),
                ),
            ),
        )
    }
}

/// The counters, with a stat in the path where one was named.
pub fn stats(want: &Option<String>, path: &str, cluster: &str, node: &str) -> (r: Answer)
    ensures
        r.deep_view() == stats_answer(want.deep_view(), path@, cluster@, node@),
{
    let members = count_members(want);
    assert(members.deep_view().len() == members@.len());
    if let Some(stat) = want {
        if members.len() == 0 {
            return err(
                400,
                "illegal_argument_exception",
                "request [".to_owned().concat(path).concat(
                    "] contains unrecognized stat: [",
                ).concat(stat.as_str()).concat("]").as_str(),
            );
        }
    }
    let mut nodes = fields();
    field(&mut nodes, "total", whole(1));
    field(&mut nodes, "successful", whole(1));
    field(&mut nodes, "failed", whole(0));
    let mut info = fields();
    if want.is_none() {
        field(&mut info, "cluster_version", text(crate::OPENSEARCH_VERSION));
    }
    let mut each = fields();
    field(&mut each, node, counters(want));
    let mut o = fields();
    field(&mut o, "_nodes", object(nodes));
    field(&mut o, "cluster_name", text(cluster));
    field(&mut o, "info", object(info));
    field(&mut o, "all_nodes", object(members));
    field(&mut o, "nodes", object(each));
    ok(object(o))
}

} // verus!
