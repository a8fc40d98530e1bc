//! What the pages ask for in a body, and what they are answered.

use vstd::prelude::*;

use super::failed::{
    bad_body, body_failure, canonical_reason, failure, phrase, refusal, refused_saying, Failed,
    FailedV,
};
use crate::api::answer::{at, at_key, flag_at, said, set_member, set_to, text_at, told, Answer};
use crate::cluster::settings::{strings_in, strings_of};
use crate::json::{
    field, fields, flag, lemma_list, lemma_object, list, member, no_fields, object, text, whole,
    written, Json, JsonV, NumberV,
};
use crate::list::{find, find_in, get, lookup, push_to, put, with};
use crate::text::{dec, decimal, join, joined, same, split, cut};

verus! {

/// How many objects may be asked for at a time. Each is a call to the engine of
/// its own, and an update waits for a refresh.
pub const MOST_OBJECTS: usize = 1_000;

/// What is said of a request for more objects than that.
pub open spec fn too_many_said(n: nat) -> FailedV {
    failure(
        400,
        "Too many objects in one request: ["@ + dec(n) + "], the most is [1000]"@,
    )
}

/// Whether a request for several objects is larger than is answered.
pub fn too_many(asked: usize) -> (r: Option<Answer>)
    ensures
        r.deep_view() == if asked > MOST_OBJECTS {
            Some(refusal(too_many_said(asked as nat), Some("Bad Request"@)))
        } else {
            None
        },
{
    if asked > MOST_OBJECTS {
        let said = "Too many objects in one request: [".to_owned().concat(
            decimal(asked as u64).as_str(),
        ).concat("], the most is [1000]");
        Some(refused_saying(&Failed::of(400, said.as_str()), Some("Bad Request")))
    } else {
        None
    }
}

// ---- writing -------------------------------------------------------------------

/// What a request asks to write, however it named it.
pub struct Writing {
    pub kind: String,
    pub id: Option<String>,
    pub attributes: Json,
    pub references: Json,
    pub migration_version: Option<Json>,
    pub overwrite: bool,
}

#[verifier::ext_equal]
pub struct WritingV {
    pub kind: Seq<char>,
    pub id: Option<Seq<char>>,
    pub attributes: JsonV,
    pub references: JsonV,
    pub migration_version: Option<JsonV>,
    pub overwrite: bool,
}

impl DeepView for Writing {
    type V = WritingV;

    open spec fn deep_view(&self) -> WritingV {
        WritingV {
            kind: self.kind@,
            id: self.id.deep_view(),
            attributes: self.attributes.deep_view(),
            references: self.references.deep_view(),
            migration_version: self.migration_version.deep_view(),
            overwrite: self.overwrite,
        }
    }
}

/// A member, or another where there is none.
pub open spec fn or_else(j: JsonV, key: Seq<char>, usual: JsonV) -> JsonV {
    match member(j, key) {
        Some(v) => v,
        None => usual,
    }
}

pub open spec fn writes(kind: Seq<char>, id: Option<Seq<char>>, body: JsonV, overwrite: bool) ->
    WritingV {
    WritingV {
        kind,
        id,
        attributes: or_else(body, "attributes"@, JsonV::Object(no_fields())),
        references: or_else(body, "references"@, JsonV::List(Seq::empty())),
        migration_version: member(body, "migrationVersion"@),
        overwrite,
    }
}

fn get_or(j: &Json, key: &str, usual: Json) -> (r: Json)
    ensures
        r.deep_view() == or_else(j.deep_view(), key@, usual.deep_view()),
{
    match j.get(key) {
        Some(v) => v.clone(),
        None => usual,
    }
}

fn empty_list() -> (r: Json)
    ensures
        r.deep_view() == JsonV::List(Seq::empty()),
{
    let none: Vec<Json> = Vec::new();
    assert(none.deep_view() =~= Seq::<JsonV>::empty());
    list(none)
}

fn copy_member(j: &Json, key: &str) -> (r: Option<Json>)
    ensures
        r.deep_view() == member(j.deep_view(), key@),
{
    match j.get(key) {
        Some(v) => Some(v.clone()),
        None => None,
    }
}

/// What a request asks to write, however it named it.
pub fn writing_of(kind: &str, id: Option<String>, body: &Json, overwrite: bool) -> (w: Writing)
    ensures
        w.deep_view() == writes(kind@, id.deep_view(), body.deep_view(), overwrite),
{
    Writing {
        kind: kind.to_owned(),
        id,
        attributes: get_or(body, "attributes", object(fields())),
        references: get_or(body, "references", empty_list()),
        migration_version: copy_member(body, "migrationVersion"),
        overwrite,
    }
}

pub open spec fn blank_or(s: Option<Seq<char>>) -> Seq<char> {
    match s {
        Some(t) => t,
        None => ""@,
    }
}

fn or_blank(s: Option<String>) -> (r: String)
    ensures
        r@ == blank_or(s.deep_view()),
{
    match s {
        Some(t) => t,
        None => "".to_owned(),
    }
}

/// What several objects are written as: each by the type and the id it names.
pub open spec fn writes_each(asked: Seq<JsonV>, overwrite: bool) -> Seq<WritingV> {
    asked.map_values(
        |one: JsonV|
            writes(blank_or(said(one, "type"@)), said(one, "id"@), one, overwrite),
    )
}

/// What several objects are written as.
pub fn writings_of(asked: &Vec<Json>, overwrite: bool) -> (r: Vec<Writing>)
    ensures
        r.deep_view() == writes_each(asked.deep_view(), overwrite),
{
    let ghost av = asked.deep_view();
    let mut r: Vec<Writing> = Vec::new();
    for i in 0..asked.len()
        invariant
            av == asked.deep_view(),
            r@.len() == i,
            forall|j: int|
                0 <= j < i ==> r@[j].deep_view() == writes(
                    blank_or(said(#[trigger] av[j], "type"@)),
                    said(av[j], "id"@),
                    av[j],
                    overwrite,
                ),
    {
        assert(av[i as int] == asked@[i as int].deep_view());
        let kind = or_blank(text_at(&asked[i], "type"));
        r.push(writing_of(kind.as_str(), text_at(&asked[i], "id"), &asked[i], overwrite));
    }
    assert(r.deep_view() =~= writes_each(av, overwrite));
    r
}

/// What a request asks to change of an object: its attributes, its references
/// where they are given, and the version the caller read it at where it gave
/// one -- what keeps two editors from overwriting each other.
pub fn changes_of(body: &Json) -> (r: (Json, Option<Json>, Option<String>))
    ensures
        r.0.deep_view() == or_else(
            body.deep_view(),
            "attributes"@,
            JsonV::Object(no_fields()),
        ),
        r.1.deep_view() == member(body.deep_view(), "references"@),
        r.2.deep_view() == said(body.deep_view(), "version"@),
{
    (
        get_or(body, "attributes", object(fields())),
        copy_member(body, "references"),
        text_at(body, "version"),
    )
}

/// What came of writing one object.
pub enum Wrote {
    Saved(Json),
    Failed(Failed),
}

#[verifier::ext_equal]
pub enum WroteV {
    Saved(JsonV),
    Failed(FailedV),
}

impl DeepView for Wrote {
    type V = WroteV;

    open spec fn deep_view(&self) -> WroteV {
        match self {
            Wrote::Saved(j) => WroteV::Saved(j.deep_view()),
            Wrote::Failed(f) => WroteV::Failed(f.deep_view()),
        }
    }
}

pub open spec fn with_error(id: Seq<char>, kind: Seq<char>, error: Seq<(Seq<char>, JsonV)>) -> JsonV {
    JsonV::Object(
        no_fields().push(("id"@, JsonV::Text(id))).push(("type"@, JsonV::Text(kind))).push(
            ("error"@, JsonV::Object(error)),
        ),
    )
}

pub open spec fn status_json(status: u16) -> JsonV {
    JsonV::Number(NumberV::Whole(status as u64))
}

/// What is said of one object that was to be made: one that could not be is
/// reported where it stood, and a conflict in a few words.
pub open spec fn made_entry(one: JsonV, w: WroteV) -> JsonV {
    let kind = blank_or(said(one, "type"@));
    let id = blank_or(said(one, "id"@));
    match w {
        WroteV::Saved(found) => found,
        WroteV::Failed(f) => if f.status == 409 {
            with_error(
                id,
                kind,
                no_fields().push(("statusCode"@, status_json(409))).push(
                    ("error"@, JsonV::Text("Conflict"@)),
                ).push(
                    (
                        "message"@,
                        JsonV::Text("Saved object ["@ + kind + "/"@ + id + "] conflict"@),
                    ),
                ),
            )
        } else {
            with_error(
                id,
                kind,
                no_fields().push(("statusCode"@, status_json(f.status))).push(
                    ("message"@, JsonV::Text(f.message)),
                ),
            )
        },
    }
}

/// What is said of one object that was to be changed, the words of a failure's
/// status being some.
pub open spec fn changed_entry(one: JsonV, w: WroteV, words: Option<Seq<char>>) -> JsonV {
    let kind = blank_or(said(one, "type"@));
    let id = blank_or(said(one, "id"@));
    match w {
        WroteV::Saved(found) => found,
        WroteV::Failed(f) => with_error(
            id,
            kind,
            no_fields().push(("statusCode"@, status_json(f.status))).push(
                (
                    "error"@,
                    JsonV::Text(
                        match words {
                            Some(x) => x,
                            None => "Error"@,
                        },
                    ),
                ),
            ).push(("message"@, JsonV::Text(f.message))),
        ),
    }
}

fn error_entry(id: &str, kind: &str, error: Vec<(String, Json)>) -> (r: Json)
    ensures
        r.deep_view() == with_error(id@, kind@, error.deep_view()),
{
    let mut o = fields();
    field(&mut o, "id", text(id));
    field(&mut o, "type", text(kind));
    field(&mut o, "error", object(error));
    object(o)
}

/// What is said of one object that was to be made.
pub fn entry_made(one: &Json, w: &Wrote) -> (r: Json)
    ensures
        r.deep_view() == made_entry(one.deep_view(), w.deep_view()),
{
    let kind = or_blank(text_at(one, "type"));
    let id = or_blank(text_at(one, "id"));
    match w {
        Wrote::Saved(found) => found.clone(),
        Wrote::Failed(f) => {
            let mut error = fields();
            field(&mut error, "statusCode", whole(f.status as u64));
            if f.status == 409 {
                field(&mut error, "error", text("Conflict"));
                let said = "Saved object [".to_owned().concat(kind.as_str()).concat("/").concat(
                    id.as_str(),
                ).concat("] conflict");
                field(&mut error, "message", text(said.as_str()));
            } else {
                field(&mut error, "message", text(f.message.as_str()));
            }
            error_entry(id.as_str(), kind.as_str(), error)
        },
    }
}

/// What is said of one object that was to be changed, the words of a failure's
/// status being some.
pub fn entry_changed(one: &Json, w: &Wrote, words: Option<&str>) -> (r: Json)
    ensures
        r.deep_view() == changed_entry(one.deep_view(), w.deep_view(), words.deep_view()),
{
    let kind = or_blank(text_at(one, "type"));
    let id = or_blank(text_at(one, "id"));
    match w {
        Wrote::Saved(found) => found.clone(),
        Wrote::Failed(f) => {
            let mut error = fields();
            field(&mut error, "statusCode", whole(f.status as u64));
            field(
                &mut error,
                "error",
                text(
                    match words {
                        Some(x) => x,
                        None => "Error",
                    },
                ),
            );
            field(&mut error, "message", text(f.message.as_str()));
            error_entry(id.as_str(), kind.as_str(), error)
        },
    }
}

/// The first objects that were to be made, each answered for on its own.
pub open spec fn all_made(asked: Seq<JsonV>, wrote: Seq<WroteV>, n: nat) -> Seq<JsonV>
    decreases n,
{
    if n == 0 || n > asked.len() || n > wrote.len() {
        Seq::empty()
    } else {
        all_made(asked, wrote, (n - 1) as nat).push(made_entry(asked[n - 1], wrote[n - 1]))
    }
}

/// The words of a failure's status.
pub open spec fn words_of(w: WroteV) -> Option<Seq<char>> {
    match w {
        WroteV::Saved(_) => None,
        WroteV::Failed(f) => phrase(f.status),
    }
}

/// The first objects that were to be changed, each answered for on its own.
pub open spec fn all_changed(asked: Seq<JsonV>, wrote: Seq<WroteV>, n: nat) -> Seq<JsonV>
    decreases n,
{
    if n == 0 || n > asked.len() || n > wrote.len() {
        Seq::empty()
    } else {
        all_changed(asked, wrote, (n - 1) as nat).push(
            changed_entry(asked[n - 1], wrote[n - 1], words_of(wrote[n - 1])),
        )
    }
}

pub open spec fn lesser(a: nat, b: nat) -> nat {
    if a < b {
        a
    } else {
        b
    }
}

pub open spec fn saved_objects(v: Seq<JsonV>) -> JsonV {
    JsonV::Object(no_fields().push(("saved_objects"@, JsonV::List(v))))
}

fn answer_with(v: Vec<Json>) -> (r: Json)
    ensures
        r.deep_view() == saved_objects(v.deep_view()),
{
    let mut o = fields();
    field(&mut o, "saved_objects", list(v));
    object(o)
}

/// Several objects made at once, each answered for on its own.
pub fn bulk_create(asked: &Vec<Json>, wrote: &Vec<Wrote>) -> (r: Json)
    ensures
        r.deep_view() == saved_objects(
            all_made(
                asked.deep_view(),
                wrote.deep_view(),
                lesser(asked@.len(), wrote@.len()),
            ),
        ),
{
    let ghost av = asked.deep_view();
    let ghost wv = wrote.deep_view();
    let n: usize = if asked.len() < wrote.len() {
        asked.len()
    } else {
        wrote.len()
    };
    let mut out: Vec<Json> = Vec::new();
    assert(out.deep_view() =~= Seq::<JsonV>::empty());
    for i in 0..n
        invariant
            n <= asked@.len(),
            n <= wrote@.len(),
            av == asked.deep_view(),
            wv == wrote.deep_view(),
            out.deep_view() == all_made(av, wv, i as nat),
    {
        assert(av[i as int] == asked@[i as int].deep_view());
        assert(wv[i as int] == wrote@[i as int].deep_view());
        push_to(&mut out, entry_made(&asked[i], &wrote[i]));
    }
    answer_with(out)
}

fn find_words(w: &Wrote) -> (r: Option<&'static str>)
    ensures
        r.deep_view() == words_of(w.deep_view()),
{
    match w {
        Wrote::Saved(_) => None,
        Wrote::Failed(f) => canonical_reason(f.status),
    }
}

/// Several objects changed at once, each answered for on its own.
pub fn bulk_update(asked: &Vec<Json>, wrote: &Vec<Wrote>) -> (r: Json)
    ensures
        r.deep_view() == saved_objects(
            all_changed(
                asked.deep_view(),
                wrote.deep_view(),
                lesser(asked@.len(), wrote@.len()),
            ),
        ),
{
    let ghost av = asked.deep_view();
    let ghost wv = wrote.deep_view();
    let n: usize = if asked.len() < wrote.len() {
        asked.len()
    } else {
        wrote.len()
    };
    let mut out: Vec<Json> = Vec::new();
    assert(out.deep_view() =~= Seq::<JsonV>::empty());
    for i in 0..n
        invariant
            n <= asked@.len(),
            n <= wrote@.len(),
            av == asked.deep_view(),
            wv == wrote.deep_view(),
            out.deep_view() == all_changed(av, wv, i as nat),
    {
        assert(av[i as int] == asked@[i as int].deep_view());
        assert(wv[i as int] == wrote@[i as int].deep_view());
        push_to(&mut out, entry_changed(&asked[i], &wrote[i], find_words(&wrote[i])));
    }
    answer_with(out)
}

/// Whatever came of the others, each object is answered for in its own place.
pub proof fn law_each_object_is_answered_for(asked: Seq<JsonV>, wrote: Seq<WroteV>, n: nat, i: int)
    requires
        n <= asked.len(),
        n <= wrote.len(),
        0 <= i < n,
    ensures
        all_made(asked, wrote, n).len() == n,
        all_made(asked, wrote, n)[i] == made_entry(asked[i], wrote[i]),
        all_changed(asked, wrote, n).len() == n,
        all_changed(asked, wrote, n)[i] == changed_entry(asked[i], wrote[i], words_of(wrote[i])),
    decreases n,
{
    lemma_answers(asked, wrote, (n - 1) as nat);
    if i < n - 1 {
        law_each_object_is_answered_for(asked, wrote, (n - 1) as nat, i);
    }
}

proof fn lemma_answers(asked: Seq<JsonV>, wrote: Seq<WroteV>, n: nat)
    requires
        n <= asked.len(),
        n <= wrote.len(),
    ensures
        all_made(asked, wrote, n).len() == n,
        all_changed(asked, wrote, n).len() == n,
    decreases n,
{
    if n > 0 {
        lemma_answers(asked, wrote, (n - 1) as nat);
    }
}

// ---- what bodies ask for -------------------------------------------------------

/// A list of names, or one of them.
pub open spec fn names(value: Option<JsonV>) -> Seq<Seq<char>> {
    match value {
        Some(JsonV::List(v)) => strings_of(v),
        Some(JsonV::Text(s)) => seq![s],
        _ => Seq::empty(),
    }
}

/// A list of names, or one of them.
pub fn listed(value: Option<&Json>) -> (r: Vec<String>)
    ensures
        r.deep_view() == names(value.deep_view()),
{
    match value {
        Some(Json::List(v)) => {
            proof {
                lemma_list(*v);
            }
            strings_in(v)
        },
        Some(Json::Text(s)) => {
            let mut r: Vec<String> = Vec::new();
            r.push(s.clone());
            assert(r.deep_view() =~= seq![s@]);
            r
        },
        _ => {
            let r: Vec<String> = Vec::new();
            assert(r.deep_view() =~= Seq::<Seq<char>>::empty());
            r
        },
    }
}

/// What an export asks for.
pub struct Export {
    pub types: Vec<String>,
    pub objects: Vec<Json>,
    pub references: bool,
    pub plain: bool,
}

#[verifier::ext_equal]
pub struct ExportV {
    pub types: Seq<Seq<char>>,
    pub objects: Seq<JsonV>,
    pub references: bool,
    pub plain: bool,
}

impl DeepView for Export {
    type V = ExportV;

    open spec fn deep_view(&self) -> ExportV {
        ExportV {
            types: self.types.deep_view(),
            objects: self.objects.deep_view(),
            references: self.references,
            plain: self.plain,
        }
    }
}

/// What an export asks for, out of what its body reads as; it is refused where
/// that is no object.
pub open spec fn exported(read: Option<JsonV>) -> Result<ExportV, FailedV> {
    match read {
        Some(JsonV::Object(o)) => {
            let body = JsonV::Object(o);
            Ok(
                ExportV {
                    types: names(member(body, "type"@)),
                    objects: match member(body, "objects"@) {
                        Some(JsonV::List(v)) => v,
                        _ => Seq::empty(),
                    },
                    references: told(body, "includeReferencesDeep"@) == Some(true),
                    plain: told(body, "excludeExportDetails"@) == Some(true),
                },
            )
        },
        _ => Err(
            failure(
                400,
                "[request body]: expected a plain object value, but found [null] instead."@,
            ),
        ),
    }
}

fn is_true(b: Option<bool>) -> (r: bool)
    ensures
        r == (b == Some(true)),
{
    match b {
        Some(x) => x,
        None => false,
    }
}

fn copy_list(v: &Vec<Json>) -> (r: Vec<Json>)
    ensures
        r.deep_view() == v.deep_view(),
{
    let ghost vv = v.deep_view();
    let mut r: Vec<Json> = Vec::new();
    assert(r.deep_view() =~= vv.take(0));
    for i in 0..v.len()
        invariant
            vv == v.deep_view(),
            r.deep_view() == vv.take(i as int),
    {
        proof {
            crate::list::lemma_take(vv, i as int);
            assert(vv[i as int] == v@[i as int].deep_view());
        }
        push_to(&mut r, v[i].clone());
    }
    assert(vv.take(v@.len() as int) =~= vv);
    r
}

/// What an export asks for.
pub fn export(read: &Option<Json>) -> (r: Result<Export, Failed>)
    ensures
        match r {
            Ok(e) => exported(read.deep_view()) == Ok::<ExportV, FailedV>(e.deep_view()),
            Err(f) => exported(read.deep_view()) == Err::<ExportV, FailedV>(f.deep_view()),
        },
{
    match read {
        Some(body) => match body {
            Json::Object(o) => {
                proof {
                    lemma_object(*o);
                }
                let objects = match body.get("objects") {
                    Some(Json::List(v)) => {
                        proof {
                            lemma_list(*v);
                        }
                        copy_list(v)
                    },
                    _ => {
                        let none: Vec<Json> = Vec::new();
                        assert(none.deep_view() =~= Seq::<JsonV>::empty());
                        none
                    },
                };
                Ok(
                    Export {
                        types: listed(body.get("type")),
                        objects,
                        references: is_true(flag_at(body, "includeReferencesDeep")),
                        plain: is_true(flag_at(body, "excludeExportDetails")),
                    },
                )
            },
            _ => Err(
                Failed::of(
                    400,
                    "[request body]: expected a plain object value, but found [null] instead.",
                ),
            ),
        },
        None => Err(
            Failed::of(
                400,
                "[request body]: expected a plain object value, but found [null] instead.",
            ),
        ),
    }
}

/// The lines of an export, as a file: none after the last, which a reader that
/// splits at them would find empty.
pub fn export_text(lines: &Vec<Json>) -> (r: String)
    ensures
        r@ == joined(lines.deep_view().map_values(|l: JsonV| written(l)), "\n"@),
{
    let ghost lv = lines.deep_view();
    let mut texts: Vec<String> = Vec::new();
    for i in 0..lines.len()
        invariant
            lv == lines.deep_view(),
            texts@.len() == i,
            forall|j: int| 0 <= j < i ==> texts@[j]@ == written(#[trigger] lv[j]),
    {
        assert(lv[i as int] == lines@[i as int].deep_view());
        texts.push(lines[i].render());
    }
    assert(texts.deep_view() =~= lv.map_values(|l: JsonV| written(l)));
    join(&texts, "\n")
}

/// A text a body has to hold.
pub fn required(body: &Json, key: &str) -> (r: Result<String, Failed>)
    ensures
        match r {
            Ok(s) => said(body.deep_view(), key@) == Some(s@),
            Err(f) => said(body.deep_view(), key@) is None && f.deep_view() == body_failure(
                key@,
                "string"@,
                "undefined"@,
            ),
        },
{
    match text_at(body, key) {
        Some(s) => Ok(s),
        None => Err(bad_body(key, "string", "undefined")),
    }
}

/// What is suggested for: a field and what was typed of its value.
pub fn suggestions(body: &Json) -> (r: Result<(String, String), Failed>)
    ensures
        match r {
            Ok((f, q)) => said(body.deep_view(), "field"@) == Some(f@) && said(
                body.deep_view(),
                "query"@,
            ) == Some(q@),
            Err(f) => f.deep_view() == body_failure(
                if said(body.deep_view(), "field"@) is None {
                    "field"@
                } else {
                    "query"@
                },
                "string"@,
                "undefined"@,
            ) && (said(body.deep_view(), "field"@) is None || said(body.deep_view(), "query"@) is None),
        },
{
    let f = match required(body, "field") {
        Ok(s) => s,
        Err(e) => {
            return Err(e);
        },
    };
    match required(body, "query") {
        Ok(q) => Ok((f, q)),
        Err(e) => Err(e),
    }
}

/// What something that should have been a truth was.
pub open spec fn kind_got(v: Option<JsonV>) -> Seq<char> {
    match v {
        None | Some(JsonV::Null) => "undefined"@,
        Some(JsonV::Text(_)) => "string"@,
        Some(JsonV::Number(_)) => "number"@,
        Some(JsonV::List(_)) => "array"@,
        Some(JsonV::Object(_)) => "object"@,
        Some(JsonV::Bool(_)) => "boolean"@,
    }
}

/// Whether a reader opted in, or what was said instead.
pub fn dql_opt_in(body: &Json) -> (r: Result<bool, Failed>)
    ensures
        match r {
            Ok(b) => told(body.deep_view(), "opt_in"@) == Some(b),
            Err(f) => told(body.deep_view(), "opt_in"@) is None && f.deep_view() == body_failure(
                "opt_in"@,
                "boolean"@,
                kind_got(member(body.deep_view(), "opt_in"@)),
            ),
        },
{
    let got = match body.get("opt_in") {
        None => "undefined",
        Some(Json::Null) => "undefined",
        Some(Json::Text(_)) => "string",
        Some(Json::Number(_)) => "number",
        Some(Json::List(_)) => "array",
        Some(Json::Object(_)) => "object",
        Some(Json::Bool(b)) => {
            return Ok(*b);
        },
    };
    Err(bad_body("opt_in", "boolean", got))
}

/// The report a body carries.
pub fn report_in(body: &Json) -> (r: Result<Json, Failed>)
    ensures
        match r {
            Ok(j) => member(body.deep_view(), "report"@) == Some(j.deep_view()),
            Err(f) => member(body.deep_view(), "report"@) is None && f.deep_view() == body_failure(
                "report"@,
                "object"@,
                "undefined"@,
            ),
        },
{
    match body.get("report") {
        Some(j) => Ok(j.clone()),
        None => Err(bad_body("report", "object", "undefined")),
    }
}

/// What came of keeping a report.
pub enum Kept {
    Done,
    Failed(Failed),
}

pub enum KeptV {
    Done,
    Failed(FailedV),
}

impl DeepView for Kept {
    type V = KeptV;

    open spec fn deep_view(&self) -> KeptV {
        match self {
            Kept::Done => KeptV::Done,
            Kept::Failed(f) => KeptV::Failed(f.deep_view()),
        }
    }
}

/// What is said of a report: one that could not be kept is not the page's
/// problem, unless it was a bad one.
pub open spec fn reported(k: KeptV) -> Result<JsonV, FailedV> {
    match k {
        KeptV::Done => Ok(JsonV::Object(no_fields().push(("status"@, JsonV::Text("ok"@))))),
        KeptV::Failed(f) => if f.status == 400 {
            Err(f)
        } else {
            Ok(JsonV::Object(no_fields().push(("status"@, JsonV::Text("fail"@)))))
        },
    }
}

/// What is said of a report.
pub fn ui_metric_report(k: Kept) -> (r: Result<Json, Failed>)
    ensures
        match r {
            Ok(j) => reported(k.deep_view()) == Ok::<JsonV, FailedV>(j.deep_view()),
            Err(f) => reported(k.deep_view()) == Err::<JsonV, FailedV>(f.deep_view()),
        },
{
    let mut o = fields();
    match k {
        Kept::Done => {
            field(&mut o, "status", text("ok"));
            Ok(object(o))
        },
        Kept::Failed(f) => {
            if f.status == 400 {
                Err(f)
            } else {
                field(&mut o, "status", text("fail"));
                Ok(object(o))
            }
        },
    }
}

/// Whether a set of sample data has an id.
pub open spec fn has_set_id(id: Seq<char>) -> spec_fn(JsonV) -> bool {
    |s: JsonV| said(s, "id"@) == Some(id)
}

/// A set of sample data by its id.
pub fn sample_set<'a>(sets: &'a Vec<Json>, id: &str) -> (r: Option<&'a Json>)
    ensures
        r.deep_view() == {
            let i = find(sets.deep_view(), has_set_id(id@));
            if i < sets@.len() {
                Some(sets.deep_view()[i])
            } else {
                None
            }
        },
{
    let ghost p = has_set_id(id@);
    let f = |s: &Json| -> (b: bool)
        ensures
            b == p(s.deep_view()),
        {
            match text_at(s, "id") {
                Some(x) => same(x.as_str(), id),
                None => false,
            }
        };
    let i = find_in(sets, f, Ghost(p));
    if i < sets.len() {
        assert(sets.deep_view()[i as int] == sets@[i as int].deep_view());
        Some(&sets[i])
    } else {
        None
    }
}

/// The call a page asks for by name, and what it is called with: from the body,
/// or from the query where the body is no object.
pub open spec fn called_with(
    read: Option<JsonV>,
    pairs: Seq<(Seq<char>, Seq<char>)>,
    data: Option<JsonV>,
) -> (Seq<char>, JsonV) {
    match read {
        Some(JsonV::Object(o)) => (
            blank_or(said(JsonV::Object(o), "endpoint"@)),
            at(JsonV::Object(o), "data"@),
        ),
        _ => (
            blank_or(lookup(pairs, "endpoint"@)),
            match data {
                Some(d) => d,
                None => JsonV::Null,
            },
        ),
    }
}

/// The call a page asks for by name, and what it is called with. `data` is what
/// the query's own data reads as.
pub fn ism_api_caller(
    read: &Option<Json>,
    pairs: &Vec<(String, String)>,
    data: &Option<Json>,
) -> (r: (String, Json))
    ensures
        (r.0@, r.1.deep_view()) == called_with(
            read.deep_view(),
            pairs.deep_view(),
            data.deep_view(),
        ),
{
    if let Some(body) = read {
        if let Json::Object(o) = body {
            proof {
                lemma_object(*o);
            }
            return (or_blank(text_at(body, "endpoint")), at_key(body, "data"));
        }
    }
    let endpoint = match get(pairs, "endpoint") {
        Some(e) => e.clone(),
        None => "".to_owned(),
    };
    let given = match data {
        Some(d) => d.clone(),
        None => Json::Null,
    };
    (endpoint, given)
}

/// What is said of a call that names no endpoint.
pub open spec fn nameless() -> JsonV {
    JsonV::Object(
        no_fields().push(("ok"@, JsonV::Bool(false))).push(
            ("error"@, JsonV::Text("Expected non-empty string on endpoint"@)),
        ),
    )
}

/// What is said of a call that names no endpoint.
pub fn endpoint_refused(endpoint: &str) -> (r: Option<Json>)
    ensures
        r.deep_view() == if endpoint@.len() == 0 {
            Some(nameless())
        } else {
            None
        },
{
    if endpoint.is_empty() {
        let mut o = fields();
        field(&mut o, "ok", flag(false));
        field(&mut o, "error", text("Expected non-empty string on endpoint"));
        Some(object(o))
    } else {
        None
    }
}

/// Whether the operator keeps state in session storage, by the settings as they
/// are read: an address is then not the whole of it, and the application itself
/// knows what to do with the id.
pub open spec fn keeps_in_session(found: JsonV) -> bool {
    match member(found, "settings"@) {
        Some(s) => match member(s, "state:storeInSessionStorage"@) {
            Some(x) => told(x, "userValue"@) == Some(true),
            None => false,
        },
        None => false,
    }
}

/// Whether the operator keeps state in session storage.
pub fn in_session(found: &Json) -> (r: bool)
    ensures
        r == keeps_in_session(found.deep_view()),
{
    match found.get("settings") {
        Some(s) => match s.get("state:storeInSessionStorage") {
            Some(x) => is_true(flag_at(x, "userValue")),
            None => false,
        },
        None => false,
    }
}

// ---- what the engine said ------------------------------------------------------

/// What the engine's answer came to: what it reads as, or why it does not read.
pub enum ReadAs {
    Value(Json),
    Unreadable(String),
}

pub enum ReadAsV {
    Value(JsonV),
    Unreadable(Seq<char>),
}

impl DeepView for ReadAs {
    type V = ReadAsV;

    open spec fn deep_view(&self) -> ReadAsV {
        match self {
            ReadAs::Value(j) => ReadAsV::Value(j.deep_view()),
            ReadAs::Unreadable(s) => ReadAsV::Unreadable(s@),
        }
    }
}

/// The reason an error of the engine's gives, or the whole of it.
pub open spec fn reason_in(found: JsonV) -> Seq<char> {
    match member(found, "error"@) {
        Some(e) => match said(e, "reason"@) {
            Some(s) => s,
            None => written(found),
        },
        None => written(found),
    }
}

/// The engine's answer carried back: the body on success, else the reason and
/// the error.
pub open spec fn carried(status: u16, read: ReadAsV) -> Result<JsonV, FailedV> {
    match read {
        ReadAsV::Unreadable(why) => Err(
            failure(502, "the engine's answer could not be read: "@ + why),
        ),
        ReadAsV::Value(found) => if status >= 300 {
            Err(
                FailedV {
                    error: Some(at(found, "error"@)),
                    ..failure(status, reason_in(found))
                },
            )
        } else {
            Ok(found)
        },
    }
}

/// The engine's answer carried back.
pub fn carry(status: u16, read: ReadAs) -> (r: Result<Json, Failed>)
    ensures
        match r {
            Ok(j) => carried(status, read.deep_view()) == Ok::<JsonV, FailedV>(j.deep_view()),
            Err(f) => carried(status, read.deep_view()) == Err::<JsonV, FailedV>(f.deep_view()),
        },
{
    match read {
        ReadAs::Unreadable(why) => Err(
            Failed::of(
                502,
                "the engine's answer could not be read: ".to_owned().concat(
                    why.as_str(),
                ).as_str(),
            ),
        ),
        ReadAs::Value(found) => {
            if status >= 300 {
                let reason = match found.get("error") {
                    Some(e) => match text_at(e, "reason") {
                        Some(s) => s,
                        None => found.render(),
                    },
                    None => found.render(),
                };
                let error = at_key(&found, "error");
                Err(Failed::of(status, reason.as_str()).with_error(error))
            } else {
                Ok(found)
            }
        },
    }
}

/// Everything there is.
pub open spec fn match_all() -> JsonV {
    JsonV::Object(no_fields().push(("match_all"@, JsonV::Object(no_fields()))))
}

/// The search that shows what a scripted field would hold.
pub open spec fn preview(body: JsonV, name: Seq<char>, script: Seq<char>) -> JsonV {
    let o = no_fields().push(("size"@, JsonV::Number(NumberV::Whole(10)))).push(
        ("timeout"@, JsonV::Text("30s"@)),
    ).push(("query"@, or_else(body, "query"@, match_all()))).push(
        (
            "script_fields"@,
            JsonV::Object(
                no_fields().push(
                    (
                        name,
                        JsonV::Object(
                            no_fields().push(
                                (
                                    "script"@,
                                    JsonV::Object(
                                        no_fields().push(("lang"@, JsonV::Text("painless"@))).push(
                                            ("source"@, JsonV::Text(script)),
                                        ),
                                    ),
                                ),
                            ),
                        ),
                    ),
                ),
            ),
        ),
    );
    match member(body, "additionalFields"@) {
        Some(JsonV::List(v)) => if v.len() > 0 {
            JsonV::Object(o.push(("_source"@, JsonV::List(v))))
        } else {
            JsonV::Object(o)
        },
        _ => JsonV::Object(o),
    }
}

/// The index a scripted field is previewed on and the search that shows it, or
/// that something was left out.
pub fn preview_scripted_field(body: &Json) -> (r: Result<(String, Json), Failed>)
    ensures
        match r {
            Ok((index, search)) => said(body.deep_view(), "index"@) == Some(index@) && said(
                body.deep_view(),
                "name"@,
            ) is Some && said(body.deep_view(), "script"@) is Some && search.deep_view()
                == preview(
                body.deep_view(),
                said(body.deep_view(), "name"@)->0,
                said(body.deep_view(), "script"@)->0,
            ),
            Err(f) => (said(body.deep_view(), "index"@) is None || said(
                body.deep_view(),
                "name"@,
            ) is None || said(body.deep_view(), "script"@) is None) && f.deep_view()
                == body_failure("index"@, "string"@, "undefined"@),
        },
{
    match (text_at(body, "index"), text_at(body, "name"), text_at(body, "script")) {
        (Some(index), Some(name), Some(script)) => {
            let mut all = fields();
            field(&mut all, "match_all", object(fields()));
            let mut source = fields();
            field(&mut source, "lang", text("painless"));
            field(&mut source, "source", text(script.as_str()));
            let mut inner = fields();
            field(&mut inner, "script", object(source));
            let mut scripts = fields();
            field(&mut scripts, name.as_str(), object(inner));
            let mut o = fields();
            field(&mut o, "size", whole(10));
            field(&mut o, "timeout", text("30s"));
            field(&mut o, "query", get_or(body, "query", object(all)));
            field(&mut o, "script_fields", object(scripts));
            if let Some(Json::List(v)) = body.get("additionalFields") {
                proof {
                    lemma_list(*v);
                }
                assert(v.deep_view().len() == v@.len());
                if v.len() > 0 {
                    field(&mut o, "_source", list(copy_list(v)));
                }
            }
            Ok((index, object(o)))
        },
        _ => Err(bad_body("index", "string", "undefined")),
    }
}

/// The index whose hits are counted and the search that counts them: one hit
/// asked for.
pub fn hits_status(body: &Json) -> (r: Result<(String, Json), Failed>)
    ensures
        match r {
            Ok((index, search)) => said(body.deep_view(), "index"@) == Some(index@) && member(
                body.deep_view(),
                "query"@,
            ) is Some && member(body.deep_view(), "query"@)->0 is Object && search.deep_view()
                == JsonV::Object(
                no_fields().push(("size"@, JsonV::Number(NumberV::Whole(1)))).push(
                    ("query"@, member(body.deep_view(), "query"@)->0),
                ),
            ),
            Err(f) => (said(body.deep_view(), "index"@) is None || !(member(
                body.deep_view(),
                "query"@,
            ) is Some && member(body.deep_view(), "query"@)->0 is Object)) && f.deep_view()
                == body_failure("index"@, "string"@, "undefined"@),
        },
{
    let query = match body.get("query") {
        Some(q) => match q {
            Json::Object(_) => Some(q.clone()),
            _ => None,
        },
        None => None,
    };
    match (text_at(body, "index"), query) {
        (Some(index), Some(q)) => {
            let mut o = fields();
            field(&mut o, "size", whole(1));
            field(&mut o, "query", q);
            Ok((index, object(o)))
        },
        _ => Err(bad_body("index", "string", "undefined")),
    }
}

/// How many hits came back.
pub open spec fn hits_in(found: JsonV) -> nat {
    match member(found, "hits"@) {
        Some(h) => match member(h, "hits"@) {
            Some(JsonV::List(v)) => v.len(),
            _ => 0,
        },
        None => 0,
    }
}

/// How many hits came back.
pub fn hits_count(found: &Json) -> (r: Json)
    ensures
        r.deep_view() == JsonV::Object(
            no_fields().push(
                ("count"@, JsonV::Number(NumberV::Whole(hits_in(found.deep_view()) as u64))),
            ),
        ),
{
    let n: u64 = match found.get("hits") {
        Some(h) => match h.get("hits") {
            Some(Json::List(v)) => {
                proof {
                    lemma_list(*v);
                }
                assert(v.deep_view().len() == v@.len());
                v.len() as u64
            },
            _ => 0,
        },
        None => 0,
    };
    let mut o = fields();
    field(&mut o, "count", whole(n));
    object(o)
}

// ---- statistics and status -----------------------------------------------------

/// Some members laid over others.
pub open spec fn spread(o: Seq<(Seq<char>, JsonV)>, more: Seq<(Seq<char>, JsonV)>, n: nat) -> Seq<
    (Seq<char>, JsonV),
>
    decreases n,
{
    if n == 0 {
        o
    } else {
        with(spread(o, more, (n - 1) as nat), more[n - 1].0, more[n - 1].1)
    }
}

/// What a server has been used for, in the old shape: its own use spread at the
/// top.
pub open spec fn flat_usage(usage: Seq<(Seq<char>, JsonV)>, n: nat) -> Seq<(Seq<char>, JsonV)>
    decreases n,
{
    if n == 0 {
        no_fields()
    } else {
        let before = flat_usage(usage, (n - 1) as nat);
        let (key, value) = usage[n - 1];
        if key == "opensearchDashboards"@ {
            match value {
                JsonV::Object(inner) => spread(before, inner, inner.len()),
                _ => before,
            }
        } else {
            with(before, key, value)
        }
    }
}

fn lay(o: &mut Vec<(String, Json)>, more: &Vec<(String, Json)>)
    ensures
        final(o).deep_view() == spread(old(o).deep_view(), more.deep_view(), more@.len()),
{
    let ghost start = o.deep_view();
    let ghost mv = more.deep_view();
    for i in 0..more.len()
        invariant
            mv == more.deep_view(),
            o.deep_view() == spread(start, mv, i as nat),
    {
        assert(mv[i as int] == (more@[i as int].0@, more@[i as int].1.deep_view()));
        put(o, more[i].0.clone(), more[i].1.clone());
    }
}

/// What a server has been used for, in the old shape.
pub fn legacy_usage(usage: &Json) -> (r: Json)
    ensures
        r.deep_view() == JsonV::Object(
            match usage.deep_view() {
                JsonV::Object(o) => flat_usage(o, o.len()),
                _ => no_fields(),
            },
        ),
{
    let mut flat = fields();
    if let Json::Object(o) = usage {
        proof {
            lemma_object(*o);
        }
        let ghost ov = o.deep_view();
        for i in 0..o.len()
            invariant
                ov == o.deep_view(),
                flat.deep_view() == flat_usage(ov, i as nat),
        {
            assert(ov[i as int] == (o@[i as int].0@, o@[i as int].1.deep_view()));
            if same(o[i].0.as_str(), "opensearchDashboards") {
                if let Json::Object(inner) = &o[i].1 {
                    proof {
                        lemma_object(*inner);
                    }
                    assert(inner.deep_view().len() == inner@.len());
                    lay(&mut flat, inner);
                }
            } else {
                put(&mut flat, o[i].0.clone(), o[i].1.clone());
            }
        }
        assert(ov.len() == o@.len());
    }
    object(flat)
}

/// The host and the port of an address: what stands before its last colon and
/// behind it, the whole of it and nothing where it has none.
pub open spec fn address(addr: Seq<char>) -> (Seq<char>, Seq<char>) {
    let parts = cut(addr, ':');
    if parts.len() > 1 {
        (joined(parts.drop_last(), ":"@), parts.last())
    } else {
        (addr, ""@)
    }
}

fn split_address(addr: &str) -> (r: (String, String))
    ensures
        (r.0@, r.1@) == address(addr@),
{
    let mut parts = split(addr, ':');
    let ghost pv = parts.deep_view();
    let n: usize = parts.len();
    assert(pv.len() == n);
    if n > 1 {
        assert(pv.last() == parts@[n - 1]@);
        let port = crate::list::remove_at(&mut parts, n - 1);
        assert(parts.deep_view() =~= pv.drop_last());
        (join(&parts, ":"), port)
    } else {
        (addr.to_owned(), "".to_owned())
    }
}

/// What a server says of itself.
pub open spec fn server_json(
    uuid: Seq<char>,
    index: Seq<char>,
    addr: Seq<char>,
    version: Seq<char>,
    reachable: bool,
) -> JsonV {
    let (host, port) = address(addr);
    JsonV::Object(
        no_fields().push(("uuid"@, JsonV::Text(uuid))).push(
            ("name"@, JsonV::Text("velosearch-console"@)),
        ).push(("index"@, JsonV::Text(index))).push(("host"@, JsonV::Text(host))).push(
            ("locale"@, JsonV::Text("en"@)),
        ).push(("transport_address"@, JsonV::Text(host + ":"@ + port))).push(
            ("version"@, JsonV::Text(version)),
        ).push(("snapshot"@, JsonV::Bool(false))).push(
            (
                "status"@,
                JsonV::Text(
                    if reachable {
                        "green"@
                    } else {
                        "red"@
                    },
                ),
            ),
        ),
    )
}

/// What a server says of itself, for the statistics.
pub fn server_stats(uuid: &str, index: &str, addr: &str, version: &str, reachable: bool) -> (r: Json)
    ensures
        r.deep_view() == server_json(uuid@, index@, addr@, version@, reachable),
{
    let (host, port) = split_address(addr);
    let mut o = fields();
    field(&mut o, "uuid", text(uuid));
    field(&mut o, "name", text("velosearch-console"));
    field(&mut o, "index", text(index));
    field(&mut o, "host", text(host.as_str()));
    field(&mut o, "locale", text("en"));
    field(
        &mut o,
        "transport_address",
        text(host.clone().concat(":").concat(port.as_str()).as_str()),
    );
    field(&mut o, "version", text(version));
    field(&mut o, "snapshot", flag(false));
    field(
        &mut o,
        "status",
        text(
            if reachable {
                "green"
            } else {
                "red"
            },
        ),
    );
    object(o)
}

/// The statistics at length: the cluster's id and what the server has been used
/// for, under the names of the shape that is asked for. `renamed` is what it
/// has been used for under the names of the new shape.
pub open spec fn at_length(
    out: Seq<(Seq<char>, JsonV)>,
    cluster: JsonV,
    usage: JsonV,
    renamed: JsonV,
    legacy: bool,
) -> Seq<(Seq<char>, JsonV)> {
    if legacy {
        set_to(
            set_to(
                out,
                "usage"@,
                JsonV::Object(
                    match usage {
                        JsonV::Object(o) => flat_usage(o, o.len()),
                        _ => no_fields(),
                    },
                ),
            ),
            "clusterUuid"@,
            cluster,
        )
    } else {
        set_to(set_to(out, "usage"@, renamed), "cluster_uuid"@, cluster)
    }
}

/// The statistics at length.
pub fn extended_stats(
    out: Vec<(String, Json)>,
    cluster: Json,
    usage: &Json,
    renamed: Json,
    legacy: bool,
) -> (r: Vec<(String, Json)>)
    ensures
        r.deep_view() == at_length(
            out.deep_view(),
            cluster.deep_view(),
            usage.deep_view(),
            renamed.deep_view(),
            legacy,
        ),
{
    let mut r = out;
    if legacy {
        set_member(&mut r, "usage", legacy_usage(usage));
        set_member(&mut r, "clusterUuid", cluster);
    } else {
        set_member(&mut r, "usage", renamed);
        set_member(&mut r, "cluster_uuid", cluster);
    }
    r
}

/// How the console is: green where the engine behind it can be reached, red
/// where it cannot or could not be asked.
pub open spec fn overall(since: Seq<char>, green: bool) -> JsonV {
    JsonV::Object(
        no_fields().push(("since"@, JsonV::Text(since))).push(
            ("state"@, JsonV::Text(state_word(green))),
        ).push(
            (
                "title"@,
                JsonV::Text(
                    if green {
                        "Green"@
                    } else {
                        "Red"@
                    },
                ),
            ),
        ).push(
            (
                "nickname"@,
                JsonV::Text(
                    if green {
                        "Looking good"@
                    } else {
                        "Danger Will Robinson"@
                    },
                ),
            ),
        ).push(("icon"@, JsonV::Text(icon(green)))).push(("uiColor"@, JsonV::Text(colour(green)))),
    )
}

pub open spec fn state_word(green: bool) -> Seq<char> {
    if green {
        "green"@
    } else {
        "red"@
    }
}

pub open spec fn icon(green: bool) -> Seq<char> {
    if green {
        "success"@
    } else {
        "alert"@
    }
}

pub open spec fn colour(green: bool) -> Seq<char> {
    if green {
        "secondary"@
    } else {
        "danger"@
    }
}

/// How the engine is, to the console.
pub open spec fn engine_status(
    version: Seq<char>,
    message: Seq<char>,
    since: Seq<char>,
    green: bool,
) -> JsonV {
    JsonV::Object(
        no_fields().push(("id"@, JsonV::Text("core:opensearch@"@ + version))).push(
            ("message"@, JsonV::Text(message)),
        ).push(("since"@, JsonV::Text(since))).push(("state"@, JsonV::Text(state_word(green)))).push(
            ("icon"@, JsonV::Text(icon(green))),
        ).push(("uiColor"@, JsonV::Text(colour(green)))),
    )
}

/// What asking the engine came to: it answered, it did not and why, or it could
/// not be asked and why.
pub enum Reached {
    Yes,
    No(String),
    Unasked(String),
}

pub enum ReachedV {
    Yes,
    No(Seq<char>),
    Unasked(Seq<char>),
}

impl DeepView for Reached {
    type V = ReachedV;

    open spec fn deep_view(&self) -> ReachedV {
        match self {
            Reached::Yes => ReachedV::Yes,
            Reached::No(s) => ReachedV::No(s@),
            Reached::Unasked(s) => ReachedV::Unasked(s@),
        }
    }
}

pub open spec fn reach_message(r: ReachedV) -> Seq<char> {
    match r {
        ReachedV::Yes => "OpenSearch is available"@,
        ReachedV::No(why) => "OpenSearch is not available: "@ + why,
        ReachedV::Unasked(why) => "the check could not be run: "@ + why,
    }
}

/// Which build a console is of.
pub struct Build {
    pub version: String,
    pub hash: Option<String>,
    pub number: u64,
}

pub struct BuildV {
    pub version: Seq<char>,
    pub hash: Option<Seq<char>>,
    pub number: u64,
}

impl DeepView for Build {
    type V = BuildV;

    open spec fn deep_view(&self) -> BuildV {
        BuildV {
            version: self.version@,
            hash: self.hash.deep_view(),
            number: self.number,
        }
    }
}

pub open spec fn build_json(b: BuildV) -> JsonV {
    JsonV::Object(
        no_fields().push(("number"@, JsonV::Text(b.version))).push(
            (
                "build_hash"@,
                JsonV::Text(
                    match b.hash {
                        Some(h) => h,
                        None => "unknown"@,
                    },
                ),
            ),
        ).push(("build_number"@, JsonV::Number(NumberV::Whole(b.number)))).push(
            ("build_snapshot"@, JsonV::Bool(false)),
        ),
    )
}

/// Whether the console can do its job, which is a question about the engine:
/// with none behind it, it can serve every page and answer nothing useful on
/// any of them.
pub open spec fn status(
    uuid: Seq<char>,
    b: BuildV,
    reached: ReachedV,
    since: Seq<char>,
    metrics: JsonV,
) -> JsonV {
    let green = reached is Yes;
    JsonV::Object(
        no_fields().push(("name"@, JsonV::Text("velosearch-console"@))).push(
            ("uuid"@, JsonV::Text(uuid)),
        ).push(("version"@, build_json(b))).push(
            (
                "status"@,
                JsonV::Object(
                    no_fields().push(("overall"@, overall(since, green))).push(
                        (
                            "statuses"@,
                            JsonV::List(
                                seq![
                                    engine_status(
                                        b.version,
                                        reach_message(reached),
                                        since,
                                        green,
                                    ),
                                ],
                            ),
                        ),
                    ),
                ),
            ),
        ).push(("metrics"@, metrics)),
    )
}

fn overall_in(since: &str, green: bool) -> (r: Json)
    ensures
        r.deep_view() == overall(since@, green),
{
    let mut o = fields();
    field(&mut o, "since", text(since));
    if green {
        field(&mut o, "state", text("green"));
        field(&mut o, "title", text("Green"));
        field(&mut o, "nickname", text("Looking good"));
        field(&mut o, "icon", text("success"));
        field(&mut o, "uiColor", text("secondary"));
    } else {
        field(&mut o, "state", text("red"));
        field(&mut o, "title", text("Red"));
        field(&mut o, "nickname", text("Danger Will Robinson"));
        field(&mut o, "icon", text("alert"));
        field(&mut o, "uiColor", text("danger"));
    }
    object(o)
}

fn engine_in(version: &str, message: &str, since: &str, green: bool) -> (r: Json)
    ensures
        r.deep_view() == engine_status(version@, message@, since@, green),
{
    let mut o = fields();
    field(&mut o, "id", text("core:opensearch@".to_owned().concat(version).as_str()));
    field(&mut o, "message", text(message));
    field(&mut o, "since", text(since));
    if green {
        field(&mut o, "state", text("green"));
        field(&mut o, "icon", text("success"));
        field(&mut o, "uiColor", text("secondary"));
    } else {
        field(&mut o, "state", text("red"));
        field(&mut o, "icon", text("alert"));
        field(&mut o, "uiColor", text("danger"));
    }
    object(o)
}

fn build_in(b: &Build) -> (r: Json)
    ensures
        r.deep_view() == build_json(b.deep_view()),
{
    let mut o = fields();
    field(&mut o, "number", text(b.version.as_str()));
    field(
        &mut o,
        "build_hash",
        text(
            match &b.hash {
                Some(h) => h.as_str(),
                None => "unknown",
            },
        ),
    );
    field(&mut o, "build_number", whole(b.number));
    field(&mut o, "build_snapshot", flag(false));
    object(o)
}

/// Whether the console can do its job.
pub fn console_status(uuid: &str, b: &Build, reached: &Reached, since: &str, metrics: Json) -> (r: Json)
    ensures
        r.deep_view() == status(
            uuid@,
            b.deep_view(),
            reached.deep_view(),
            since@,
            metrics.deep_view(),
        ),
{
    let (green, message) = match reached {
        Reached::Yes => (true, "OpenSearch is available".to_owned()),
        Reached::No(why) => (
            false,
            "OpenSearch is not available: ".to_owned().concat(why.as_str()),
        ),
        Reached::Unasked(why) => (
            false,
            "the check could not be run: ".to_owned().concat(why.as_str()),
        ),
    };
    let mut inner = fields();
    field(&mut inner, "overall", overall_in(since, green));
    field(
        &mut inner,
        "statuses",
        crate::api::answer::only(engine_in(b.version.as_str(), message.as_str(), since, green)),
    );
    let mut o = fields();
    field(&mut o, "name", text("velosearch-console"));
    field(&mut o, "uuid", text(uuid));
    field(&mut o, "version", build_in(b));
    field(&mut o, "status", object(inner));
    field(&mut o, "metrics", metrics);
    object(o)
}

} // verus!
