//! What callers and other nodes are told, word for word.

use vstd::prelude::*;

use crate::api::snapshot::member::mark_asked;
use crate::api::snapshot::plan::asked_of;
use crate::api::snapshot::repository::bad_name_answer;
use crate::api::snapshot::restore::{not_lower, open_exists};
use crate::breaker::{length_said, TripV};
use crate::cluster::commands::{decisions_shown, node_shown, verdict_json};
use crate::cluster::deciders::{summary, VerdictV};
use crate::cluster::state::{CopyV, NodeV, ShardState};
use crate::console::failed::usual_words;
use crate::json::{millionths, JsonV, NumberV, FURTHEST};
use crate::laws::answers::{law_a_refusal_tells_why, tells};
use crate::laws::figures::law_a_number_reads_back;
use crate::laws::texts::law_a_number_is_read_about_its_point;
use crate::number::{digits, units, value};
use crate::text::dec;

verus! {

/// A name that is no lower-case one, and an open index that is in the way, are told so.
pub proof fn law_what_a_refused_restore_is_told(
    repo: Seq<char>,
    name: Seq<char>,
    uuid: Seq<char>,
    target: Seq<char>,
)
    ensures
        tells(
            not_lower(target),
            400,
            "invalid_index_name_exception"@,
            "Invalid index name ["@ + target + "], must be lowercase"@,
        ),
        open_exists(repo, name, uuid, target).status == 500,
        bad_name_answer(repo, name).status == 400,
{
    let more = seq![
        ("index"@, JsonV::Text(target)),
        ("index_uuid"@, JsonV::Text("_na_"@)),
    ];
    let kind = "invalid_index_name_exception"@;
    let reason = "Invalid index name ["@ + target + "], must be lowercase"@;
    law_a_refusal_tells_why(400, kind, reason, more);
    assert(crate::api::answer::cause(kind, reason).push(("index"@, JsonV::Text(target))).push(
        ("index_uuid"@, JsonV::Text("_na_"@)),
    ) =~= crate::api::answer::cause(kind, reason) + more);
}

/// What a node is asked: to leave a mark, or to write shards.
pub proof fn law_what_a_node_is_asked(
    repo: JsonV,
    directory: Seq<char>,
    token: Seq<char>,
    snapshot: Seq<char>,
    index: Seq<char>,
    shards: Seq<u32>,
)
    ensures
        mark_asked(repo, directory, token) == JsonV::Object(
            seq![
                ("repository"@, repo),
                ("dir"@, JsonV::Text(directory)),
                ("token"@, JsonV::Text(token)),
            ],
        ),
        asked_of(repo, snapshot, index, shards) == JsonV::Object(
            seq![
                ("repository"@, repo),
                ("snapshot"@, JsonV::Text(snapshot)),
                ("index"@, JsonV::Text(index)),
                (
                    "shards"@,
                    JsonV::List(
                        shards.map_values(
                            |s: u32| JsonV::Number(NumberV::Whole(s as u64)),
                        ),
                    ),
                ),
            ],
        ),
{
    assert(mark_asked(repo, directory, token)->Object_0 =~= seq![
        ("repository"@, repo),
        ("dir"@, JsonV::Text(directory)),
        ("token"@, JsonV::Text(token)),
    ]);
    let all = JsonV::List(shards.map_values(|s: u32| JsonV::Number(NumberV::Whole(s as u64))));
    assert(asked_of(repo, snapshot, index, shards)->Object_0 =~= seq![
        ("repository"@, repo),
        ("snapshot"@, JsonV::Text(snapshot)),
        ("index"@, JsonV::Text(index)),
        ("shards"@, all),
    ]);
}

/// The length of a body is what its header says, and nothing where it says none.
pub proof fn law_the_length_of_a_body(n: u64, s: Seq<char>)
    ensures
        length_said(Some(dec(n as nat))) == n,
        length_said(None) == 0,
        crate::number::unsigned(s) is None ==> length_said(Some(s)) == 0,
{
    law_a_number_reads_back(n as nat);
}

/// What is refused is told what it would have taken and what is let, in bytes and in words.
pub proof fn law_what_a_tripped_breaker_says(t: TripV)
    ensures
        t.worded() == "["@ + t.breaker + "] Data too large, data for ["@ + t.label
            + "] would be ["@ + dec(t.wanted as nat) + "/"@ + crate::size::size_text(
            t.wanted as nat,
        ) + "], which is larger than the limit of ["@ + dec(t.limit as nat) + "/"@
            + crate::size::size_text(t.limit as nat) + "]"@,
{
}

/// The words that go with the statuses the console gives.
pub proof fn law_the_words_for_statuses()
    ensures
        usual_words(400) == Some("Bad Request"@),
        usual_words(404) == Some("Not Found"@),
        usual_words(409) == Some("Conflict"@),
        usual_words(415) == Some("Unsupported Media Type"@),
        usual_words(500) == Some("Internal Server Error"@),
        usual_words(502) == Some("Bad Gateway"@),
{
}

/// Verdicts are shown one behind the other, each with its reason.
pub proof fn law_how_verdicts_are_shown(vs: Seq<VerdictV>, v: VerdictV, n: NodeV)
    ensures
        decisions_shown(vs.push(v)) == decisions_shown(vs) + "["@ + v.decision.name() + "("@
            + v.explanation + ")]"@,
        decisions_shown(Seq::empty()) == ""@,
        node_shown(n) == "{"@ + n.name + "}{"@ + n.id + "}{"@ + n.ephemeral_id + "}{"@
            + n.transport_address + "}"@,
        verdict_json(v) == JsonV::Object(
            seq![
                ("decider"@, JsonV::Text(v.decider)),
                ("decision"@, JsonV::Text(v.decision.name())),
                ("explanation"@, JsonV::Text(v.explanation)),
            ],
        ),
{
    assert(vs.push(v).drop_last() =~= vs);
    assert(verdict_json(v)->Object_0 =~= seq![
        ("decider"@, JsonV::Text(v.decider)),
        ("decision"@, JsonV::Text(v.decision.name())),
        ("explanation"@, JsonV::Text(v.explanation)),
    ]);
}

/// A copy that is started is shown with its index and shard, its node, its kind, its state
/// and its id.
pub proof fn law_how_a_started_copy_is_shown(c: CopyV, node: Seq<char>, id: Seq<char>)
    requires
        c.state == ShardState::Started,
        c.node == Some(node),
        c.relocating_node is None,
        c.allocation_id == Some(id),
    ensures
        summary(c) == "[["@ + c.index + "]["@ + dec(c.shard as nat) + "], "@ + ("node["@ + node
            + "]"@) + ""@ + ", "@ + (if c.primary {
            "[P]"@
        } else {
            "[R]"@
        }) + ""@ + ", s["@ + "STARTED"@ + "]"@ + (", a[id="@ + id + "]"@) + ""@ + "]"@,
{
}

/// A weight with two digits behind its point is so many hundredths.
pub proof fn law_a_weight_is_read_to_its_hundredths(whole: Seq<char>, rest: Seq<char>)
    requires
        digits(whole),
        digits(rest),
        whole.len() > 0,
        rest.len() == 2,
        value(whole) * 1_000_000 + value(rest) * 10_000 <= FURTHEST,
    ensures
        millionths(whole + "."@ + rest) == Some(
            (value(whole) * 1_000_000 + value(rest) * 10_000) as i64,
        ),
        millionths("-"@ + whole + "."@ + rest) == Some(
            (-(value(whole) * 1_000_000 + value(rest) * 10_000)) as i64,
        ),
{
    law_a_number_is_read_about_its_point(whole, rest);
    reveal(vstd::arithmetic::power::pow);
    assert(vstd::arithmetic::power::pow(10, 0) == 1);
    assert(vstd::arithmetic::power::pow(10, 1) == 10 * vstd::arithmetic::power::pow(10, 0));
    assert(vstd::arithmetic::power::pow(10, 2) == 10 * vstd::arithmetic::power::pow(10, 1));
    assert(units(whole, rest, 1_000_000) == value(whole) * 1_000_000 + value(rest) * 10_000);
}

} // verus!
