//! Small promises: builds, audits, counters, settings of pools and texts of values.

use vstd::prelude::*;

use crate::api::pools::{busy_body, number_said, upper_char, variable, PoolV};
use crate::api::search_relevance::{
    counted, everything, size_asked, stats_answer, EXPERIMENT_COUNTERS, JUDGMENT_COUNTERS,
};
use crate::api::{audit_settings, audit_step, system_use, AuditEventV, AuditStepV};
use crate::built_from;
use crate::json::{
    member, plain, quote, setting_number, setting_of, setting_text, written, JsonV, NumberV,
};
use crate::laws::answers::{law_a_refusal_tells_why, tells};
use crate::laws::figures::law_a_number_reads_back;
use crate::laws::words::{law_a_text_is_trimmed_of_the_blanks_round_it, printed};
use crate::list::{called, lemma_find};
use crate::text::{begins, dec, joined};
use crate::time::{days_of_month, days_of_year, leap, padded};

verus! {

// ---- builds --------------------------------------------------------------------

/// A build says what it was told, else its commit, with a mark where there are changes that
/// are not in it, else that it is not known.
pub proof fn law_what_a_build_says_it_was_built_from(
    told: Seq<char>,
    commit: Seq<char>,
    dirty: bool,
)
    requires
        commit.len() > 0 ==> printed(commit[0]) && printed(commit.last()),
    ensures
        told.len() > 0 ==> built_from(Some(told), Some(commit), dirty) == told,
        commit.len() > 0 ==> built_from(None, Some(commit), false) == commit,
        commit.len() > 0 ==> built_from(None, Some(commit), true) == commit + "-dirty"@,
        commit.len() > 0 ==> built_from(Some(Seq::empty()), Some(commit), false) == commit,
        commit.len() == 0 ==> built_from(None, Some(commit), dirty) == "unknown"@,
        built_from(None, None, dirty) == "unknown"@,
        crate::OPENSEARCH_VERSION@ == "3.9.0"@,
        crate::VERSION@ == "0.1.0"@,
{
    let none = Seq::<char>::empty();
    law_a_text_is_trimmed_of_the_blanks_round_it(none, commit, none);
    assert(none + commit + none =~= commit);
}

// ---- audits --------------------------------------------------------------------

/// A record of an audit is written into its index, which is made where it is not there, and
/// the index is refreshed; a record that is refused, or an index that cannot be made, fails.
pub proof fn law_how_an_audit_is_kept(doc: JsonV, why: Seq<char>)
    ensures
        audit_step(doc, AuditEventV::Looked(true)) == AuditStepV::Write(doc),
        audit_step(doc, AuditEventV::Looked(false)) == AuditStepV::Make(audit_settings()),
        audit_step(doc, AuditEventV::Made(true)) == AuditStepV::Write(doc),
        audit_step(doc, AuditEventV::Written) == AuditStepV::Refresh,
        audit_step(doc, AuditEventV::Refreshed) == AuditStepV::Done,
        audit_step(doc, AuditEventV::Made(false)) == AuditStepV::Done,
        audit_step(doc, AuditEventV::NotMade(why)) == AuditStepV::Fail(why),
        audit_step(doc, AuditEventV::Refused) == AuditStepV::Fail("audit record refused"@),
{
}

/// The index of audits has one shard and no replica.
pub proof fn law_the_index_of_audits()
    ensures
        member(audit_settings(), "settings"@) matches Some(s) && member(s, "number_of_shards"@)
            == Some(JsonV::Number(NumberV::Whole(1))) && member(s, "number_of_replicas"@) == Some(
            JsonV::Number(NumberV::Whole(0)),
        ),
{
    reveal_strlit("number_of_shards");
    reveal_strlit("number_of_replicas");
    assert("number_of_shards"@.len() == 16 && "number_of_replicas"@.len() == 18);
    let o = audit_settings()->Object_0;
    lemma_find(o, called::<JsonV>("settings"@), 0);
    let s = o[0].1->Object_0;
    lemma_find(s, called::<JsonV>("number_of_shards"@), 0);
    lemma_find(s, called::<JsonV>("number_of_replicas"@), 1);
}

/// An index of tasks is one the system uses, and says for what; any other is not.
pub proof fn law_the_indices_the_system_uses(rest: Seq<char>, name: Seq<char>)
    ensures
        system_use(".tasks"@ + rest) == Some("Task Result Index"@),
        !begins(name, ".tasks"@) ==> system_use(name) is None,
{
    let n = ".tasks"@ + rest;
    assert(n.take(".tasks"@.len() as int) =~= ".tasks"@);
}

// ---- counters ------------------------------------------------------------------

/// A search of everything is for as many as are asked for, and for a thousand where no number
/// is.
pub proof fn law_how_much_of_everything_is_asked_for(n: u64, s: Seq<char>)
    ensures
        size_asked(Some(dec(n as nat))) == n,
        size_asked(None) == 1000,
        crate::number::unsigned(s) is None ==> size_asked(Some(s)) == 1000,
        member(everything(None), "size"@) == Some(JsonV::Number(NumberV::Whole(1000))),
{
    law_a_number_reads_back(n as nat);
    let o = everything(None)->Object_0;
    lemma_find(o, called::<JsonV>("size"@), 0);
}

/// The counters there are, each with nothing in it; one that is asked for and is not there is
/// an error.
pub proof fn law_the_counters_there_are(
    want: Seq<char>,
    path: Seq<char>,
    cluster: Seq<char>,
    node: Seq<char>,
)
    requires
        want != "import_judgment_rating_generations"@,
        want != "llm_judgment_rating_generations"@,
        want != "ubi_judgment_rating_generations"@,
        want != "experiment_executions"@,
        want != "experiment_pairwise_comparison_executions"@,
        want != "experiment_pointwise_evaluation_executions"@,
        want != "experiment_hybrid_optimizer_executions"@,
    ensures
        tells(
            stats_answer(Some(want), path, cluster, node),
            400,
            "illegal_argument_exception"@,
            "request ["@ + path + "] contains unrecognized stat: ["@ + want + "]"@,
        ),
        stats_answer(None, path, cluster, node).status == 200,
        member(stats_answer(None, path, cluster, node).body, "cluster_name"@) == Some(
            JsonV::Text(cluster),
        ),
{
    law_a_refusal_tells_why(
        400,
        "illegal_argument_exception"@,
        "request ["@ + path + "] contains unrecognized stat: ["@ + want + "]"@,
        Seq::empty(),
    );
    let j = JUDGMENT_COUNTERS@;
    let e = EXPERIMENT_COUNTERS@;
    assert(j[0]@ == "import_judgment_rating_generations"@ && j[1]@
        == "llm_judgment_rating_generations"@ && j[2]@ == "ubi_judgment_rating_generations"@);
    assert(e[0]@ == "experiment_executions"@ && e[1]@
        == "experiment_pairwise_comparison_executions"@ && e[2]@
        == "experiment_pointwise_evaluation_executions"@ && e[3]@
        == "experiment_hybrid_optimizer_executions"@);
    reveal_with_fuel(crate::api::search_relevance::group, 5);
    assert(counted(Some(want)).len() == 0);
    reveal_strlit("_nodes");
    reveal_strlit("cluster_name");
    assert("_nodes"@.len() == 6 && "cluster_name"@.len() == 12);
    let o = stats_answer(None, path, cluster, node).body->Object_0;
    lemma_find(o, called::<JsonV>("cluster_name"@), 1);
}

// ---- pools ---------------------------------------------------------------------

/// What is said of a pool is said under its name in capitals, and is a whole number, with or
/// without a sign.
pub proof fn law_what_is_said_of_a_pool(pool: Seq<char>, what: Seq<char>, n: nat)
    ensures
        n <= i64::MAX ==> number_said(Some(dec(n))) == Some(n as i64),
        0 < n <= i64::MAX ==> number_said(Some("-"@ + dec(n))) == Some((-n) as i64),
        number_said(None) is None,
        variable(pool, what).len() == 23 + pool.len() + 1 + what.len(),
        begins(variable(pool, what), "VELOSEARCH_THREAD_POOL_"@),
        forall|i: int|
            0 <= i < pool.len() ==> (#[trigger] variable(pool, what)[23 + i]) as int == if 97
                <= pool[i] as int <= 122 {
                pool[i] as int - 32
            } else {
                pool[i] as int
            },
{
    law_a_number_reads_back(n);
    let d = dec(n);
    assert(crate::number::is_digit(d[0]) && crate::number::is_digit(d.last()));
    let none = Seq::<char>::empty();
    law_a_text_is_trimmed_of_the_blanks_round_it(none, d, none);
    assert(none + d + none =~= d);
    reveal_strlit("-");
    reveal_strlit("_");
    let m = "-"@ + d;
    law_a_text_is_trimmed_of_the_blanks_round_it(none, m, none);
    assert(none + m + none =~= m);
    reveal_strlit("VELOSEARCH_THREAD_POOL_");
    let head = "VELOSEARCH_THREAD_POOL_"@;
    assert(head.len() == 23);
    assert(variable(pool, what).take(23) =~= head);
    assert forall|i: int| 0 <= i < pool.len() implies #[trigger] variable(pool, what)[23 + i]
        == upper_char(pool[i]) by {}
}

/// A request that is refused is told that there are too many, and of which pool.
pub proof fn law_a_refused_request_is_told_there_are_too_many(p: PoolV, room: u64)
    ensures
        member(busy_body(p.busy_text(room)), "status"@) == Some(
            JsonV::Number(NumberV::Whole(429)),
        ),
        member(busy_body(p.busy_text(room)), "error"@) matches Some(e) && member(e, "type"@) == Some(
            JsonV::Text("rejected_execution_exception"@),
        ) && member(e, "reason"@) == Some(JsonV::Text(p.busy_text(room))),
        p.busy_text(room) == "rejected execution of coordinating operation [thread_pool_name = "@
            + p.name + ", queue_capacity = "@ + dec(room as nat) + ", task_count = "@ + dec(
            (p.active + p.waiting) as nat,
        ) + "]"@,
{
    reveal_strlit("status");
    reveal_strlit("error");
    reveal_strlit("type");
    reveal_strlit("reason");
    assert("status"@.len() == 6 && "error"@.len() == 5 && "type"@.len() == 4 && "reason"@.len()
        == 6);
    let o = busy_body(p.busy_text(room))->Object_0;
    lemma_find(o, called::<JsonV>("error"@), 0);
    lemma_find(o, called::<JsonV>("status"@), 1);
    let e = o[0].1->Object_0;
    lemma_find(e, called::<JsonV>("type"@), 0);
    lemma_find(e, called::<JsonV>("reason"@), 1);
}

// ---- values as texts -----------------------------------------------------------

/// How values are written: the bare words, numbers in decimal, texts in quotes, lists and
/// objects in their brackets.
pub proof fn law_how_values_are_written(n: u64, s: Seq<char>, a: JsonV, b: JsonV, k: Seq<char>)
    ensures
        written(JsonV::Null) == "null"@,
        written(JsonV::Bool(true)) == "true"@,
        written(JsonV::Bool(false)) == "false"@,
        written(JsonV::Number(NumberV::Whole(n))) == dec(n as nat),
        written(JsonV::Number(NumberV::Decimal(s))) == s,
        (forall|i: int| 0 <= i < s.len() ==> printed(#[trigger] s[i]) && s[i] != '"' && s[i] != '\\')
            ==> written(JsonV::Text(s)) == seq!['"'] + s + seq!['"'],
        written(JsonV::List(Seq::empty())) == "[]"@,
        written(JsonV::List(seq![a, b])) == "["@ + written(a) + ","@ + written(b) + "]"@,
        written(JsonV::Object(seq![(k, a)])) == "{"@ + quote(k) + ":"@ + written(a) + "}"@,
        plain(JsonV::Text(s)) == s,
        plain(JsonV::Number(NumberV::Whole(n))) == dec(n as nat),
{
    if forall|i: int| 0 <= i < s.len() ==> printed(#[trigger] s[i]) && s[i] != '"' && s[i] != '\\' {
        lemma_plain_text(s);
    }
    reveal_strlit("[]");
    reveal_strlit("[");
    reveal_strlit("]");
    let none = crate::json::written_list(Seq::empty());
    assert(none =~= Seq::empty());
    assert("["@ + joined(none, ","@) + "]"@ =~= "[]"@);
    let two = crate::json::written_list(seq![a, b]);
    assert(two =~= seq![written(a), written(b)]);
    assert(two.drop_last() =~= seq![written(a)]);
    assert(joined(seq![written(a)], ","@) == written(a));
    assert(joined(two, ","@) == written(a) + ","@ + written(b));
    assert("["@ + (written(a) + ","@ + written(b)) + "]"@ =~= "["@ + written(a) + ","@ + written(b)
        + "]"@);
    let one = crate::json::written_members(seq![(k, a)]);
    assert(one =~= seq![quote(k) + ":"@ + written(a)]);
    assert(joined(one, ","@) == quote(k) + ":"@ + written(a));
    assert("{"@ + (quote(k) + ":"@ + written(a)) + "}"@ =~= "{"@ + quote(k) + ":"@ + written(a)
        + "}"@);
}

proof fn lemma_plain_text(s: Seq<char>)
    requires
        forall|i: int| 0 <= i < s.len() ==> printed(#[trigger] s[i]) && s[i] != '"' && s[i] != '\\',
    ensures
        crate::json::escaped_text(s) == s,
    decreases s.len(),
{
    if s.len() > 0 {
        lemma_plain_text(s.drop_last());
        assert(printed(s[s.len() - 1]));
        assert(s =~= s.drop_last() + seq![s.last()]);
    }
}

/// A setting that is a number is that number, and so is a text that says one.
pub proof fn law_a_setting_that_is_a_number(settings: JsonV, key: Seq<char>, n: u64)
    ensures
        setting_of(settings, key) == Some(JsonV::Number(NumberV::Whole(n))) ==> setting_number(
            settings,
            key,
        ) == Some(n) && setting_text(settings, key) == Some(dec(n as nat)),
        setting_of(settings, key) == Some(JsonV::Text(dec(n as nat))) ==> setting_number(
            settings,
            key,
        ) == Some(n),
        setting_of(settings, key) is None ==> setting_number(settings, key) is None
            && setting_text(settings, key) is None,
{
    law_a_number_reads_back(n as nat);
    let d = dec(n as nat);
    assert(crate::number::is_digit(d[0]) && crate::number::is_digit(d.last()));
    let none = Seq::<char>::empty();
    law_a_text_is_trimmed_of_the_blanks_round_it(none, d, none);
    assert(none + d + none =~= d);
}

// ---- dates ---------------------------------------------------------------------

/// The days of the months and of the years.
pub proof fn law_the_days_of_months_and_years(year: int)
    ensures
        year % 400 == 0 ==> leap(year),
        year % 100 == 0 && year % 400 != 0 ==> !leap(year),
        year % 4 == 0 && year % 100 != 0 ==> leap(year),
        year % 4 != 0 ==> !leap(year),
        days_of_year(year) == if leap(year) {
            366int
        } else {
            365
        },
        days_of_month(year, 1) == 31 && days_of_month(year, 3) == 31 && days_of_month(year, 5) == 31
            && days_of_month(year, 7) == 31 && days_of_month(year, 8) == 31 && days_of_month(
            year,
            10,
        ) == 31 && days_of_month(year, 12) == 31,
        days_of_month(year, 4) == 30 && days_of_month(year, 6) == 30 && days_of_month(year, 9) == 30
            && days_of_month(year, 11) == 30,
        days_of_month(year, 2) == if leap(year) {
            29int
        } else {
            28
        },
{
}

/// A number is padded with noughts to its width, and is not cut where it is wider.
pub proof fn law_a_number_is_padded(n: nat, width: nat)
    ensures
        padded(n, width).len() >= width,
        dec(n).len() >= width ==> padded(n, width) == dec(n),
        dec(n).len() < width ==> padded(n, width).len() == width && padded(n, width).skip(
            width - dec(n).len(),
        ) == dec(n) && forall|i: int|
            0 <= i < width - dec(n).len() ==> #[trigger] padded(n, width)[i] == '0',
{
    if dec(n).len() < width {
        assert(padded(n, width).skip(width - dec(n).len()) =~= dec(n));
    }
}

} // verus!
