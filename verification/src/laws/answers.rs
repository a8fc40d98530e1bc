//! What an answer tells its caller.

use vstd::prelude::*;

use crate::api::answer::{absent, cause, done, failed, refused, rooted, unknown_index, AnswerV};
use crate::json::{member, JsonV, NumberV};
use crate::list::{called, lemma_find, lookup};

verus! {

/// Whether an answer refuses: with a status, in its head and in its body, and with the
/// kind of the error and its reason.
pub open spec fn tells(a: AnswerV, status: u16, kind: Seq<char>, reason: Seq<char>) -> bool {
    &&& a.status == status
    &&& member(a.body, "status"@) == Some(JsonV::Number(NumberV::Whole(status as u64)))
    &&& member(a.body, "error"@) matches Some(e) && member(e, "type"@) == Some(JsonV::Text(kind))
        && member(e, "reason"@) == Some(JsonV::Text(reason))
}

/// A refusal tells its status, its kind and its reason, and names itself as the root of
/// what went wrong.
pub proof fn law_a_refusal_tells_why(
    status: u16,
    kind: Seq<char>,
    reason: Seq<char>,
    more: Seq<(Seq<char>, JsonV)>,
)
    ensures
        tells(refused(status, kind, reason), status, kind, reason),
        tells(rooted(status, cause(kind, reason) + more), status, kind, reason),
{
    lemma_tells(status, kind, reason, more);
    lemma_tells(status, kind, reason, Seq::empty());
    assert(cause(kind, reason) + Seq::<(Seq<char>, JsonV)>::empty() =~= cause(kind, reason));
}

proof fn lemma_tells(
    status: u16,
    kind: Seq<char>,
    reason: Seq<char>,
    more: Seq<(Seq<char>, JsonV)>,
)
    ensures
        tells(rooted(status, cause(kind, reason) + more), status, kind, reason),
{
    reveal_strlit("status");
    reveal_strlit("error");
    reveal_strlit("type");
    reveal_strlit("reason");
    assert("status"@.len() == 6 && "error"@.len() == 5 && "type"@.len() == 4 && "reason"@.len()
        == 6);
    let about = cause(kind, reason) + more;
    let e = about.push(("root_cause"@, JsonV::List(seq![JsonV::Object(about)])));
    assert(e[0] == ("type"@, JsonV::Text(kind)));
    assert(e[1] == ("reason"@, JsonV::Text(reason)));
    lemma_find(e, called::<JsonV>("type"@), 0);
    lemma_find(e, called::<JsonV>("reason"@), 1);
    let a = rooted(status, about);
    let o = a.body->Object_0;
    lemma_find(o, called::<JsonV>("error"@), 0);
    lemma_find(o, called::<JsonV>("status"@), 1);
}

/// An error that is made up by hand tells its kind and its reason where it says them.
pub proof fn law_a_failure_tells_what_it_holds(
    status: u16,
    o: Seq<(Seq<char>, JsonV)>,
    kind: Seq<char>,
    reason: Seq<char>,
)
    requires
        lookup(o, "type"@) == Some(JsonV::Text(kind)),
        lookup(o, "reason"@) == Some(JsonV::Text(reason)),
    ensures
        tells(failed(status, JsonV::Object(o)), status, kind, reason),
{
    reveal_strlit("status");
    reveal_strlit("error");
    assert("status"@.len() == 6 && "error"@.len() == 5);
    let b = failed(status, JsonV::Object(o)).body->Object_0;
    lemma_find(b, called::<JsonV>("error"@), 0);
    lemma_find(b, called::<JsonV>("status"@), 1);
}

/// An index that is not there is told to be not found, by its name.
pub proof fn law_an_index_that_is_not_there_is_not_found(index: Seq<char>)
    ensures
        tells(
            unknown_index(index),
            404,
            "index_not_found_exception"@,
            "no such index ["@ + index + "]"@,
        ),
        tells(
            rooted(404, absent(index)),
            404,
            "index_not_found_exception"@,
            "no such index ["@ + index + "]"@,
        ),
        done(JsonV::Text(index)).status == 200,
{
    let kind = "index_not_found_exception"@;
    let reason = "no such index ["@ + index + "]"@;
    let two = seq![
        ("index"@, JsonV::Text(index)),
        ("index_uuid"@, JsonV::Text("_na_"@)),
    ];
    let four = two.push(("resource.id"@, JsonV::Text(index))).push(
        ("resource.type"@, JsonV::Text("index_or_alias"@)),
    );
    law_a_refusal_tells_why(404, kind, reason, two);
    law_a_refusal_tells_why(404, kind, reason, four);
    assert(absent(index) =~= cause(kind, reason) + two);
    assert(absent(index).push(("resource.id"@, JsonV::Text(index))).push(
        ("resource.type"@, JsonV::Text("index_or_alias"@)),
    ) =~= cause(kind, reason) + four);
}

} // verus!
