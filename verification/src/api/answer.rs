//! What a request is answered, and the documents answers are made of.

use vstd::prelude::*;

use crate::cluster::settings::{strings_in, strings_of};
use crate::json::{
    field, fields, lemma_list, lemma_object, list, member, no_fields, object, text, well_named,
    whole, Json, JsonV,
};
use crate::list::{called, find, find_in, lemma_found, push_to, put_at};
use crate::text::same;

verus! {

/// What a request is answered: the status and the document.
pub struct Answer {
    pub status: u16,
    pub body: Json,
}

#[verifier::ext_equal]
pub struct AnswerV {
    pub status: u16,
    pub body: JsonV,
}

impl DeepView for Answer {
    type V = AnswerV;

    open spec fn deep_view(&self) -> AnswerV {
        AnswerV { status: self.status, body: self.body.deep_view() }
    }
}

/// A request done as it was asked.
pub open spec fn done(body: JsonV) -> AnswerV {
    AnswerV { status: 200, body }
}

/// A request done as it was asked.
pub fn ok(body: Json) -> (r: Answer)
    ensures
        r.deep_view() == done(body.deep_view()),
{
    Answer { status: 200, body }
}

/// What an error says of itself.
pub open spec fn cause(kind: Seq<char>, reason: Seq<char>) -> Seq<(Seq<char>, JsonV)> {
    no_fields().push(("type"@, JsonV::Text(kind))).push(("reason"@, JsonV::Text(reason)))
}

/// The answer an error is given in: the error, with what caused it listed in
/// it, and the status again.
pub open spec fn failed(status: u16, error: JsonV) -> AnswerV {
    AnswerV {
        status,
        body: JsonV::Object(
            no_fields().push(("error"@, error)).push(("status"@, JsonV::Number(
                crate::json::NumberV::Whole(status as u64),
            ))),
        ),
    }
}

/// An error that is its own cause, with what there is to say of it.
pub open spec fn rooted(status: u16, about: Seq<(Seq<char>, JsonV)>) -> AnswerV {
    failed(
        status,
        JsonV::Object(about.push(("root_cause"@, JsonV::List(seq![JsonV::Object(about)])))),
    )
}

/// An error by its type and its reason.
pub open spec fn refused(status: u16, kind: Seq<char>, reason: Seq<char>) -> AnswerV {
    rooted(status, cause(kind, reason))
}

pub(crate) fn causing(kind: &str, reason: &str) -> (r: Vec<(String, Json)>)
    ensures
        r.deep_view() == cause(kind@, reason@),
{
    let mut o = fields();
    field(&mut o, "type", text(kind));
    field(&mut o, "reason", text(reason));
    o
}

pub(crate) fn failing(status: u16, error: Json) -> (r: Answer)
    ensures
        r.deep_view() == failed(status, error.deep_view()),
{
    let mut o = fields();
    field(&mut o, "error", error);
    field(&mut o, "status", whole(status as u64));
    Answer { status, body: object(o) }
}

pub(crate) fn only(j: Json) -> (r: Json)
    ensures
        r.deep_view() == JsonV::List(seq![j.deep_view()]),
{
    let mut v: Vec<Json> = Vec::new();
    v.push(j);
    assert(v.deep_view() =~= seq![j.deep_view()]);
    list(v)
}

pub(crate) fn rooting(status: u16, about: Vec<(String, Json)>) -> (r: Answer)
    ensures
        r.deep_view() == rooted(status, about.deep_view()),
{
    let whole_of = object(about);
    let copy = whole_of.clone();
    match copy {
        Json::Object(members) => {
            proof {
                lemma_object(members);
            }
            let mut error = members;
            field(&mut error, "root_cause", only(whole_of));
            failing(status, object(error))
        },
        other => failing(status, other),
    }
}

/// An error by its type and its reason.
pub fn err(status: u16, kind: &str, reason: &str) -> (r: Answer)
    ensures
        r.deep_view() == refused(status, kind@, reason@),
{
    rooting(status, causing(kind, reason))
}

/// What an index that is not there is said to be.
pub open spec fn absent(index: Seq<char>) -> Seq<(Seq<char>, JsonV)> {
    cause("index_not_found_exception"@, "no such index ["@ + index + "]"@).push(
        ("index"@, JsonV::Text(index)),
    ).push(("index_uuid"@, JsonV::Text("_na_"@)))
}

pub(crate) fn absent_index(index: &str) -> (r: Vec<(String, Json)>)
    ensures
        r.deep_view() == absent(index@),
{
    let mut o = causing(
        "index_not_found_exception",
        "no such index [".to_owned().concat(index).concat("]").as_str(),
    );
    field(&mut o, "index", text(index));
    field(&mut o, "index_uuid", text("_na_"));
    o
}

/// A request for an index that is not there.
pub open spec fn unknown_index(index: Seq<char>) -> AnswerV {
    rooted(
        404,
        absent(index).push(("resource.id"@, JsonV::Text(index))).push(
            ("resource.type"@, JsonV::Text("index_or_alias"@)),
        ),
    )
}

/// A request for an index that is not there.
pub fn no_such_index(index: &str) -> (r: Answer)
    ensures
        r.deep_view() == unknown_index(index@),
{
    let mut o = absent_index(index);
    field(&mut o, "resource.id", text(index));
    field(&mut o, "resource.type", text("index_or_alias"));
    rooting(404, o)
}

// ---- parts of a document -------------------------------------------------------

/// A member, or nothing where there is none.
pub open spec fn at(j: JsonV, key: Seq<char>) -> JsonV {
    match member(j, key) {
        Some(v) => v,
        None => JsonV::Null,
    }
}

/// A member, or nothing where there is none.
pub fn at_key(j: &Json, key: &str) -> (r: Json)
    ensures
        r.deep_view() == at(j.deep_view(), key@),
{
    match j.get(key) {
        Some(v) => v.clone(),
        None => Json::Null,
    }
}

/// The text a member holds, if it holds text.
pub open spec fn said(j: JsonV, key: Seq<char>) -> Option<Seq<char>> {
    match member(j, key) {
        Some(JsonV::Text(s)) => Some(s),
        _ => None,
    }
}

/// The text a member holds, if it holds text.
pub fn text_at(j: &Json, key: &str) -> (r: Option<String>)
    ensures
        r.deep_view() == said(j.deep_view(), key@),
{
    match j.get(key) {
        Some(Json::Text(s)) => Some(s.clone()),
        _ => None,
    }
}

/// The whole number a member holds, if it holds one.
pub open spec fn counted(j: JsonV, key: Seq<char>) -> Option<u64> {
    match member(j, key) {
        Some(JsonV::Number(crate::json::NumberV::Whole(n))) => Some(n),
        _ => None,
    }
}

/// The whole number a member holds, if it holds one.
pub fn whole_at(j: &Json, key: &str) -> (r: Option<u64>)
    ensures
        r == counted(j.deep_view(), key@),
{
    match j.get(key) {
        Some(Json::Number(crate::json::Number::Whole(n))) => Some(*n),
        _ => None,
    }
}

/// The truth a member holds, if it holds one.
pub open spec fn told(j: JsonV, key: Seq<char>) -> Option<bool> {
    match member(j, key) {
        Some(JsonV::Bool(b)) => Some(b),
        _ => None,
    }
}

/// The truth a member holds, if it holds one.
pub fn flag_at(j: &Json, key: &str) -> (r: Option<bool>)
    ensures
        r == told(j.deep_view(), key@),
{
    match j.get(key) {
        Some(Json::Bool(b)) => Some(*b),
        _ => None,
    }
}

/// The texts of a member that is a list; none where it is not.
pub open spec fn texts_at(j: JsonV, key: Seq<char>) -> Seq<Seq<char>> {
    match member(j, key) {
        Some(JsonV::List(v)) => strings_of(v),
        _ => Seq::empty(),
    }
}

/// The texts of a member that is a list; none where it is not.
pub fn list_at(j: &Json, key: &str) -> (r: Vec<String>)
    ensures
        r.deep_view() == texts_at(j.deep_view(), key@),
{
    match j.get(key) {
        Some(Json::List(v)) => {
            proof {
                lemma_list(*v);
            }
            strings_in(v)
        },
        _ => {
            let r: Vec<String> = Vec::new();
            assert(r.deep_view() =~= Seq::<Seq<char>>::empty());
            r
        },
    }
}

/// A list of texts, as a document.
pub open spec fn listed(v: Seq<Seq<char>>) -> JsonV {
    JsonV::List(v.map_values(|s: Seq<char>| JsonV::Text(s)))
}

/// A list of texts, as a document.
pub fn list_of(v: &Vec<String>) -> (r: Json)
    ensures
        r.deep_view() == listed(v.deep_view()),
{
    let ghost vv = v.deep_view();
    let mut out: Vec<Json> = Vec::new();
    for i in 0..v.len()
        invariant
            vv == v.deep_view(),
            out@.len() == i,
            forall|j: int| 0 <= j < i ==> out@[j].deep_view() == JsonV::Text(#[trigger] vv[j]),
    {
        assert(vv[i as int] == v@[i as int]@);
        out.push(text(v[i].as_str()));
    }
    assert(out.deep_view() =~= vv.map_values(|s: Seq<char>| JsonV::Text(s)));
    list(out)
}

/// A document's members with one of them set, in its place if it is there and
/// at the end if it is not.
pub open spec fn set_to(o: Seq<(Seq<char>, JsonV)>, key: Seq<char>, value: JsonV) -> Seq<
    (Seq<char>, JsonV),
> {
    let i = find(o, called(key));
    if i < o.len() {
        o.update(i, (key, value))
    } else {
        o.push((key, value))
    }
}

/// Members stay named once when one of them is set.
pub proof fn law_a_member_set_is_named_once(
    o: Seq<(Seq<char>, JsonV)>,
    key: Seq<char>,
    value: JsonV,
)
    requires
        well_named(JsonV::Object(o)),
        well_named(value),
    ensures
        well_named(JsonV::Object(set_to(o, key, value))),
{
    let q = called::<JsonV>(key);
    let at = find(o, q);
    lemma_found(o, q);
    let t = set_to(o, key, value);
    assert forall|i: int, j: int| 0 <= i < j < t.len() implies #[trigger] t[i].0 != #[trigger] t[
        j
    ].0 by {
        if j < o.len() {
            assert(o[i].0 != o[j].0);
        } else {
            assert(!q(o[i]));
        }
    }
    assert forall|i: int| 0 <= i < t.len() implies well_named((#[trigger] t[i]).1) by {
        if i != at {
            assert(t[i] == o[i]);
            assert(well_named(o[i].1));
        }
    }
}

/// Sets a member, in its place if it is there and at the end if it is not.
pub fn set_member(o: &mut Vec<(String, Json)>, key: &str, value: Json)
    ensures
        final(o).deep_view() == set_to(old(o).deep_view(), key@, value.deep_view()),
{
    let ghost p = called::<JsonV>(key@);
    let f = |e: &(String, Json)| -> (r: bool)
        ensures
            r == p(e.deep_view()),
        { same(e.0.as_str(), key) };
    let i = find_in(o, f, Ghost(p));
    if i < o.len() {
        put_at(o, i, (key.to_owned(), value));
    } else {
        push_to(o, (key.to_owned(), value));
    }
}

} // verus!
