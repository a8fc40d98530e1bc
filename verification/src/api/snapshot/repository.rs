//! Registering a repository, and what may be done with one.

use vstd::prelude::*;

use crate::api::answer::{
    causing, done, err, failed, failing, ok, only, refused, said, text_at, Answer, AnswerV,
};
use crate::cluster::settings::{strings_in, strings_of};
use crate::json::{
    field, fields, flag, lemma_list, lemma_object, member, no_fields, object, text, whole, written,
    Json, JsonV, NumberV,
};
use crate::list::{find_in, push_to};
use crate::text::{
    chars_of, cut, fits, glob_match, has_char, is_white, same, split, trim, trimmed, upper, white,
};

verus! {

/// The action a node is asked to write shards of a snapshot by.
pub const SNAPSHOT_SHARDS: &'static str = "internal:cluster/snapshot/shards";

/// The action a node is asked to prove by that it reaches a repository.
pub const REPOSITORY_VERIFY: &'static str = "internal:cluster/repository/verify";

// ---- registering ---------------------------------------------------------------

/// What a node makes of where a repository says it is: whether the location is
/// one under the root repositories live in, the URL it is read over, and
/// whether that is one this node is willing to read from.
pub struct Whereabouts {
    pub located: bool,
    pub url: Option<String>,
    pub allowed: bool,
}

pub struct WhereaboutsV {
    pub located: bool,
    pub url: Option<Seq<char>>,
    pub allowed: bool,
}

impl DeepView for Whereabouts {
    type V = WhereaboutsV;

    open spec fn deep_view(&self) -> WhereaboutsV {
        WhereaboutsV { located: self.located, url: self.url.deep_view(), allowed: self.allowed }
    }
}

/// A repository's type; nothing where it says none.
pub open spec fn kind_of(body: JsonV) -> Seq<char> {
    match said(body, "type"@) {
        Some(k) => k,
        None => ""@,
    }
}

pub open spec fn is_kind(k: Seq<char>) -> bool {
    k == "fs"@ || k == "url"@ || k == "s3"@ || k == "gcs"@ || k == "azure"@
}

/// The location a repository names.
pub open spec fn location_of(body: JsonV) -> Option<Seq<char>> {
    match member(body, "settings"@) {
        Some(s) => said(s, "location"@),
        None => None,
    }
}

/// The answer to a registration that failed, and why is the cause.
pub open spec fn not_created(name: Seq<char>, location: Seq<char>) -> AnswerV {
    let why = JsonV::Object(
        crate::api::answer::cause(
            "repository_exception"@,
            "["@ + name + "] location ["@ + location
                + "] doesn't match any of the locations specified by path.repo"@,
        ),
    );
    failed(
        500,
        JsonV::Object(
            no_fields().push(("root_cause"@, JsonV::List(seq![why]))).push(
                ("type"@, JsonV::Text("repository_exception"@)),
            ).push(
                ("reason"@, JsonV::Text("["@ + name + "] failed to create repository"@)),
            ).push(("caused_by"@, why)),
        ),
    )
}

/// Why a repository may not be registered, if it may not: it names no type,
/// one nothing here can read, a location that is not under the root, or a URL
/// nothing here may be read from.
pub open spec fn unregistrable(name: Seq<char>, body: JsonV, w: WhereaboutsV) -> Option<AnswerV> {
    let kind = kind_of(body);
    if kind.len() == 0 {
        Some(
            refused(400, "repository_exception"@, "["@ + name + "] missing repository type"@),
        )
    } else if !is_kind(kind) {
        Some(
            refused(
                500,
                "repository_exception"@,
                "["@ + name + "] repository type ["@ + kind + "] does not exist"@,
            ),
        )
    } else if kind == "fs"@ && location_of(body) is Some && !w.located {
        Some(not_created(name, location_of(body)->0))
    } else if w.url is Some && !w.allowed {
        Some(
            refused(
                400,
                "repository_exception"@,
                "["@ + name + "] file url ["@ + w.url->0
                    + "] doesn't match any of the locations specified by path.repo or repositories.url.allowed_urls"@,
            ),
        )
    } else {
        None
    }
}

fn location_in(body: &Json) -> (r: Option<String>)
    ensures
        r.deep_view() == location_of(body.deep_view()),
{
    match body.get("settings") {
        Some(s) => text_at(s, "location"),
        None => None,
    }
}

fn refuse_location(name: &str, location: &str) -> (r: Answer)
    ensures
        r.deep_view() == not_created(name@, location@),
{
    let reason = "[".to_owned().concat(name).concat("] location [").concat(location).concat(
        "] doesn't match any of the locations specified by path.repo",
    );
    let mut error = fields();
    field(
        &mut error,
        "root_cause",
        only(object(causing("repository_exception", reason.as_str()))),
    );
    field(&mut error, "type", text("repository_exception"));
    field(
        &mut error,
        "reason",
        text("[".to_owned().concat(name).concat("] failed to create repository").as_str()),
    );
    field(&mut error, "caused_by", object(causing("repository_exception", reason.as_str())));
    failing(500, object(error))
}

/// Why a repository may not be registered, if it may not. A type nothing here
/// can read is refused when it is registered, not at the first snapshot.
pub fn put_repository(name: &str, body: &Json, w: &Whereabouts) -> (r: Option<Answer>)
    ensures
        r.deep_view() == unregistrable(name@, body.deep_view(), w.deep_view()),
{
    let kind = match text_at(body, "type") {
        Some(k) => k,
        None => "".to_owned(),
    };
    let k = kind.as_str();
    if k.is_empty() {
        return Some(
            err(
                400,
                "repository_exception",
                "[".to_owned().concat(name).concat("] missing repository type").as_str(),
            ),
        );
    }
    if !(same(k, "fs") || same(k, "url") || same(k, "s3") || same(k, "gcs") || same(k, "azure")) {
        return Some(
            err(
                500,
                "repository_exception",
                "[".to_owned().concat(name).concat("] repository type [").concat(k).concat(
                    "] does not exist",
                ).as_str(),
            ),
        );
    }
    if let Some(location) = location_in(body) {
        if same(k, "fs") && !w.located {
            return Some(refuse_location(name, location.as_str()));
        }
    }
    if let Some(url) = &w.url {
        if !w.allowed {
            return Some(
                err(
                    400,
                    "repository_exception",
                    "[".to_owned().concat(name).concat("] file url [").concat(
                        url.as_str(),
                    ).concat(
                        "] doesn't match any of the locations specified by path.repo or repositories.url.allowed_urls",
                    ).as_str(),
                ),
            );
        }
    }
    None
}

/// Whether a repository has to be proved shared before it is registered: it
/// has, unless it is told not to.
pub open spec fn proof_asked(verify: Option<Seq<char>>) -> bool {
    match verify {
        Some(v) => trimmed(v) != "false"@ && trimmed(v) != "0"@,
        None => true,
    }
}

/// Whether a repository has to be proved shared before it is registered.
pub fn verify_asked(verify: &Option<String>) -> (r: bool)
    ensures
        r == proof_asked(verify.deep_view()),
{
    match verify {
        Some(v) => {
            let t = trim(v.as_str());
            !same(t.as_str(), "false") && !same(t.as_str(), "0")
        },
        None => true,
    }
}

// ---- listing -------------------------------------------------------------------

/// Whether a name is one of those a comma list asks for, outright or by a
/// pattern.
pub open spec fn is_named(want: Seq<char>, name: Seq<char>) -> bool {
    exists|i: int|
        0 <= i < cut(want, ',').len() && names_it(trimmed(#[trigger] cut(want, ',')[i]), name)
}

pub open spec fn names_it(one: Seq<char>, name: Seq<char>) -> bool {
    one == "_all"@ || one == "*"@ || one == name || fits(one, name)
}

/// Whether a name is one of those a comma list asks for, outright or by a
/// pattern.
pub fn named_in(want: &str, name: &str) -> (r: bool)
    ensures
        r == is_named(want@, name@),
{
    let parts = split(want, ',');
    let ghost pv = parts.deep_view();
    for i in 0..parts.len()
        invariant
            pv == parts.deep_view(),
            pv == cut(want@, ','),
            forall|j: int| 0 <= j < i ==> !names_it(trimmed(#[trigger] pv[j]), name@),
    {
        assert(pv[i as int] == parts@[i as int]@);
        let one = trim(parts[i].as_str());
        if same(one.as_str(), "_all") || same(one.as_str(), "*") || same(one.as_str(), name)
            || glob_match(one.as_str(), name) {
            assert(names_it(trimmed(pv[i as int]), name@));
            return true;
        }
    }
    false
}

/// A setting as a repository's settings are answered: as text.
pub open spec fn as_text(v: JsonV) -> JsonV {
    match v {
        JsonV::Bool(_) | JsonV::Number(_) => JsonV::Text(written(v)),
        other => other,
    }
}

pub open spec fn as_texts(o: Seq<(Seq<char>, JsonV)>) -> Seq<(Seq<char>, JsonV)> {
    o.map_values(|e: (Seq<char>, JsonV)| (e.0, as_text(e.1)))
}

/// A repository as it is answered.
pub open spec fn shown(repo: JsonV) -> JsonV {
    match repo {
        JsonV::Object(o) => JsonV::Object(
            o.map_values(
                |e: (Seq<char>, JsonV)|
                    match e.1 {
                        JsonV::Object(s) => if e.0 == "settings"@ {
                            (e.0, JsonV::Object(as_texts(s)))
                        } else {
                            e
                        },
                        _ => e,
                    },
            ),
        ),
        other => other,
    }
}

/// The first repositories that are asked for.
pub open spec fn picked(all: Seq<(Seq<char>, JsonV)>, want: Seq<char>, n: nat) -> Seq<
    (Seq<char>, JsonV),
>
    decreases n,
{
    if n == 0 {
        no_fields()
    } else {
        let before = picked(all, want, (n - 1) as nat);
        if want.len() == 0 || is_named(want, all[n - 1].0) {
            before.push((all[n - 1].0, shown(all[n - 1].1)))
        } else {
            before
        }
    }
}

/// The answer when a repository is not there.
pub open spec fn missing(name: Seq<char>) -> AnswerV {
    refused(404, "repository_missing_exception"@, "["@ + name + "] missing"@)
}

/// The answer when a repository is not there.
pub fn repository_missing(name: &str) -> (r: Answer)
    ensures
        r.deep_view() == missing(name@),
{
    err(
        404,
        "repository_missing_exception",
        "[".to_owned().concat(name).concat("] missing").as_str(),
    )
}

/// The repositories asked for; one named outright that is not there is missing.
pub open spec fn repositories_answer(all: Seq<(Seq<char>, JsonV)>, want: Seq<char>) -> AnswerV {
    let found = picked(all, want, all.len());
    if found.len() == 0 && want.len() > 0 && !want.contains('*') && want != "_all"@ {
        missing(want)
    } else {
        done(JsonV::Object(found))
    }
}

fn texts_of(o: &Vec<(String, Json)>) -> (r: Vec<(String, Json)>)
    ensures
        r.deep_view() == as_texts(o.deep_view()),
{
    let ghost ov = o.deep_view();
    let mut r: Vec<(String, Json)> = Vec::new();
    for i in 0..o.len()
        invariant
            ov == o.deep_view(),
            r@.len() == i,
            forall|j: int|
                0 <= j < i ==> r.deep_view()[j] == (
                    (#[trigger] ov[j]).0,
                    as_text(ov[j].1),
                ),
    {
        assert(ov[i as int] == (o@[i as int].0@, o@[i as int].1.deep_view()));
        let v = match &o[i].1 {
            Json::Bool(_) | Json::Number(_) => text(o[i].1.render().as_str()),
            other => other.clone(),
        };
        push_to(&mut r, (o[i].0.clone(), v));
    }
    assert(r.deep_view() =~= as_texts(ov));
    r
}

fn show(repo: &Json) -> (r: Json)
    ensures
        r.deep_view() == shown(repo.deep_view()),
{
    match repo {
        Json::Object(o) => {
            proof {
                lemma_object(*o);
            }
            let ghost ov = o.deep_view();
            let mut out: Vec<(String, Json)> = Vec::new();
            for i in 0..o.len()
                invariant
                    ov == o.deep_view(),
                    repo.deep_view() == JsonV::Object(ov),
                    out@.len() == i,
                    forall|j: int|
                        0 <= j < i ==> out.deep_view()[j] == shown(repo.deep_view())->Object_0[j],
            {
                assert(ov[i as int] == (o@[i as int].0@, o@[i as int].1.deep_view()));
                let v = match &o[i].1 {
                    Json::Object(s) => {
                        proof {
                            lemma_object(*s);
                        }
                        if same(o[i].0.as_str(), "settings") {
                            object(texts_of(s))
                        } else {
                            o[i].1.clone()
                        }
                    },
                    _ => o[i].1.clone(),
                };
                push_to(&mut out, (o[i].0.clone(), v));
            }
            assert(out.deep_view() =~= shown(repo.deep_view())->Object_0);
            object(out)
        },
        other => other.clone(),
    }
}

/// The repositories asked for, their settings as text.
pub fn get_repository(all: &Vec<(String, Json)>, want: &str) -> (r: Answer)
    ensures
        r.deep_view() == repositories_answer(all.deep_view(), want@),
{
    let ghost av = all.deep_view();
    let mut found = fields();
    for i in 0..all.len()
        invariant
            av == all.deep_view(),
            found.deep_view() == picked(av, want@, i as nat),
    {
        assert(av[i as int] == (all@[i as int].0@, all@[i as int].1.deep_view()));
        if want.is_empty() || named_in(want, all[i].0.as_str()) {
            push_to(&mut found, (all[i].0.clone(), show(&all[i].1)));
        }
    }
    assert(found.deep_view().len() == found@.len());
    if found.len() == 0 && !want.is_empty() && !has_char(want, '*') && !same(want, "_all") {
        return repository_missing(want);
    }
    ok(object(found))
}

pub open spec fn acknowledged() -> AnswerV {
    done(JsonV::Object(no_fields().push(("acknowledged"@, JsonV::Bool(true)))))
}

/// The answer to something done that has nothing more to say.
pub fn acknowledge() -> (r: Answer)
    ensures
        r.deep_view() == acknowledged(),
{
    let mut o = fields();
    field(&mut o, "acknowledged", flag(true));
    ok(object(o))
}

/// The answer to a repository being let go: how many were, under the name.
pub fn delete_repository(removed: usize, name: &str) -> (r: Answer)
    ensures
        r.deep_view() == if removed == 0 && !name@.contains('*') {
            missing(name@)
        } else {
            acknowledged()
        },
{
    if removed == 0 && !has_char(name, '*') {
        repository_missing(name)
    } else {
        acknowledge()
    }
}

pub open spec fn swept() -> JsonV {
    let none = JsonV::Number(NumberV::Whole(0));
    JsonV::Object(
        no_fields().push(
            (
                "results"@,
                JsonV::Object(
                    no_fields().push(("deleted_bytes"@, none)).push(("deleted_blobs"@, none)),
                ),
            ),
        ),
    )
}

/// Nothing is left behind in a repository, so there is nothing to sweep up.
pub fn cleanup_repository(known: bool, name: &str) -> (r: Answer)
    ensures
        r.deep_view() == if known {
            done(swept())
        } else {
            missing(name@)
        },
{
    if !known {
        return repository_missing(name);
    }
    let mut results = fields();
    field(&mut results, "deleted_bytes", whole(0));
    field(&mut results, "deleted_blobs", whole(0));
    let mut o = fields();
    field(&mut o, "results", object(results));
    ok(object(o))
}

// ---- where a repository may be read from ---------------------------------------

/// A comma list, each part without the white space around it.
pub open spec fn parts(s: Seq<char>) -> Seq<Seq<char>> {
    cut(s, ',').map_values(|p: Seq<char>| trimmed(p))
}

/// A comma list, each part without the white space around it.
pub fn parts_of(s: &str) -> (r: Vec<String>)
    ensures
        r.deep_view() == parts(s@),
        r@.len() > 0,
{
    let cuts = split(s, ',');
    let ghost cv = cuts.deep_view();
    let mut r: Vec<String> = Vec::new();
    for i in 0..cuts.len()
        invariant
            cv == cuts.deep_view(),
            r@.len() == i,
            forall|j: int| 0 <= j < i ==> r@[j]@ == trimmed(#[trigger] cv[j]),
    {
        assert(cv[i as int] == cuts@[i as int]@);
        r.push(trim(cuts[i].as_str()));
    }
    assert(r.deep_view() =~= parts(s@));
    r
}

/// The patterns a setting holds: a list of them, or one text with commas.
pub open spec fn patterns_of(v: JsonV) -> Seq<Seq<char>> {
    match v {
        JsonV::List(a) => strings_of(a),
        JsonV::Text(one) => parts(one),
        _ => Seq::empty(),
    }
}

/// Where this node is willing to read a repository from: what a cluster
/// setting names where it names anything, else what the node was started with.
pub open spec fn allowed(setting: Option<JsonV>, started: Option<Seq<char>>) -> Seq<Seq<char>> {
    if setting is Some && patterns_of(setting->0).len() > 0 {
        patterns_of(setting->0)
    } else {
        match started {
            Some(s) => parts(s),
            None => Seq::empty(),
        }
    }
}

fn patterns_in(v: &Json) -> (r: Vec<String>)
    ensures
        r.deep_view() == patterns_of(v.deep_view()),
{
    match v {
        Json::List(a) => {
            proof {
                lemma_list(*a);
            }
            strings_in(a)
        },
        Json::Text(one) => parts_of(one.as_str()),
        _ => {
            let r: Vec<String> = Vec::new();
            assert(r.deep_view() =~= Seq::<Seq<char>>::empty());
            r
        },
    }
}

/// Where this node is willing to read a repository from. The cluster's setting
/// may only add to what the node was started with: one that names nothing
/// hides nothing.
pub fn allowed_urls(setting: &Option<Json>, started: &Option<String>) -> (r: Vec<String>)
    ensures
        r.deep_view() == allowed(setting.deep_view(), started.deep_view()),
{
    if let Some(v) = setting {
        let named = patterns_in(v);
        assert(named.deep_view().len() == named@.len());
        if named.len() > 0 {
            return named;
        }
    }
    match started {
        Some(s) => parts_of(s.as_str()),
        None => {
            let r: Vec<String> = Vec::new();
            assert(r.deep_view() =~= Seq::<Seq<char>>::empty());
            r
        },
    }
}

/// Whether a repository is one nothing writes to: it is read over a URL, or it
/// says so.
pub open spec fn is_readonly(repo: JsonV, over_url: bool) -> bool {
    over_url || match member(repo, "settings"@) {
        Some(s) => match member(s, "readonly"@) {
            Some(JsonV::Bool(b)) => b,
            Some(JsonV::Text(t)) => t == "true"@,
            _ => false,
        },
        None => false,
    }
}

pub open spec fn only_read(repo: Seq<char>) -> AnswerV {
    refused(
        400,
        "repository_exception"@,
        "["@ + repo + "] cannot delete snapshot from a readonly repository"@,
    )
}

/// What a repository nothing writes to answers when it is written to.
pub fn refuse_if_readonly(name: &str, repo: &Json, over_url: bool) -> (r: Option<Answer>)
    ensures
        r.deep_view() == if is_readonly(repo.deep_view(), over_url) {
            Some(only_read(name@))
        } else {
            None
        },
{
    let says = match repo.get("settings") {
        Some(s) => match s.get("readonly") {
            Some(Json::Bool(b)) => *b,
            Some(Json::Text(t)) => same(t.as_str(), "true"),
            _ => false,
        },
        None => false,
    };
    if over_url || says {
        Some(
            err(
                400,
                "repository_exception",
                "[".to_owned().concat(name).concat(
                    "] cannot delete snapshot from a readonly repository",
                ).as_str(),
            ),
        )
    } else {
        None
    }
}

/// Whether what a repository holds has to be looked at again: somewhere else
/// may have been written to by somebody else, and so is a directory this node
/// has never read.
pub fn refresh_readonly(in_a_directory: bool, held: usize) -> (r: bool)
    ensures
        r == (!in_a_directory || held == 0),
{
    !(in_a_directory && held > 0)
}

// ---- names ---------------------------------------------------------------------

/// The characters no snapshot's name holds.
pub open spec fn forbidden(c: char) -> bool {
    is_white(c) || c == '\\' || c == '/' || c == '*' || c == '?' || c == '"' || c == '<' || c == '>'
        || c == '|' || c == ',' || c == '#'
}

/// Whether a name could name a path, or is not one a snapshot may have.
pub open spec fn is_bad_name(name: Seq<char>) -> bool {
    ||| name.len() == 0
    ||| name[0] == '_'
    ||| name == "."@
    ||| name == ".."@
    ||| exists|i: int| 0 <= i < name.len() && forbidden(#[trigger] name[i])
    ||| exists|i: int| 0 <= i < name.len() && upper(#[trigger] name[i])
}

pub open spec fn bad_name_answer(repo: Seq<char>, name: Seq<char>) -> AnswerV {
    refused(
        400,
        "invalid_snapshot_name_exception"@,
        "["@ + repo + ":"@ + name + "] Invalid snapshot name ["@ + name
            + "], must be lowercase, must not contain whitespace, must not contain '\\', '/', '*', '?', '\"', '<', '>', '|', ',', '#', and must not start with '_'"@,
    )
}

fn is_forbidden(c: char) -> (r: bool)
    ensures
        r == forbidden(c),
{
    white(c) || c == '\\' || c == '/' || c == '*' || c == '?' || c == '"' || c == '<' || c == '>' || c
        == '|' || c == ',' || c == '#'
}

fn bad_name(name: &str) -> (r: bool)
    ensures
        r == is_bad_name(name@),
{
    let v = chars_of(name);
    if v.len() == 0 || v[0] == '_' || same(name, ".") || same(name, "..") {
        return true;
    }
    for i in 0..v.len()
        invariant
            v@ == name@,
            forall|j: int| 0 <= j < i ==> !forbidden(#[trigger] v@[j]) && !upper(v@[j]),
    {
        let c = v[i];
        if is_forbidden(c) || c.is_uppercase() {
            assert(forbidden(name@[i as int]) || upper(name@[i as int]));
            return true;
        }
    }
    assert forall|i: int| 0 <= i < name@.len() implies !upper(#[trigger] name@[i]) by {
        assert(!forbidden(v@[i]) && !upper(v@[i]));
    }
    false
}

/// A snapshot name that could name a path is refused: a name is a segment under
/// the repository, never a route out of it.
pub fn bad_snapshot_name(repo: &str, name: &str) -> (r: Option<Answer>)
    ensures
        r.deep_view() == if is_bad_name(name@) {
            Some(bad_name_answer(repo@, name@))
        } else {
            None
        },
{
    if bad_name(name) {
        Some(
            err(
                400,
                "invalid_snapshot_name_exception",
                "[".to_owned().concat(repo).concat(":").concat(name).concat(
                    "] Invalid snapshot name [",
                ).concat(name).concat(
                    "], must be lowercase, must not contain whitespace, must not contain '\\', '/', '*', '?', '\"', '<', '>', '|', ',', '#', and must not start with '_'",
                ).as_str(),
            ),
        )
    } else {
        None
    }
}

/// Whether a name that is looked up is a path.
pub open spec fn is_route(one: Seq<char>) -> bool {
    one.contains('/') || one.contains('\\') || one == "."@ || one == ".."@
}

pub open spec fn route() -> spec_fn(Seq<char>) -> bool {
    |one: Seq<char>| is_route(one)
}

/// What is said of names that are looked up, if one of them is a path: the
/// first that is.
pub open spec fn bad_lookup(repo: Seq<char>, names: Seq<char>) -> Option<AnswerV> {
    let all = cut(names, ',');
    let i = crate::list::find(all, route());
    if i < all.len() {
        Some(bad_name_answer(repo, all[i]))
    } else {
        None
    }
}

/// A name looked up or deleted may be a pattern or a list of names, so it is
/// not held to what a name that is written must be; it is still not allowed to
/// be a path.
pub fn bad_snapshot_lookup(repo: &str, names: &str) -> (r: Option<Answer>)
    ensures
        r.deep_view() == bad_lookup(repo@, names@),
{
    let all = split(names, ',');
    let ghost p = route();
    let f = |one: &String| -> (b: bool)
        ensures
            b == p(one.deep_view()),
        {
            let s = one.as_str();
            has_char(s, '/') || has_char(s, '\\') || same(s, ".") || same(s, "..")
        };
    let i = find_in(&all, f, Ghost(p));
    if i < all.len() {
        assert(all.deep_view()[i as int] == all@[i as int]@);
        let ghost one = all@[i as int]@;
        proof {
            assert(is_route(one));
            if one.contains('/') {
                let k = choose|k: int| 0 <= k < one.len() && one[k] == '/';
                assert(forbidden(one[k]));
            } else if one.contains('\\') {
                let k = choose|k: int| 0 <= k < one.len() && one[k] == '\\';
                assert(forbidden(one[k]));
            }
            assert(is_bad_name(one));
        }
        bad_snapshot_name(repo, all[i].as_str())
    } else {
        None
    }
}

/// A name that is refused when it is looked up is refused when it is written:
/// no snapshot is kept under a name that nobody could ask for.
pub proof fn law_a_route_is_no_name(name: Seq<char>)
    requires
        is_route(name),
    ensures
        is_bad_name(name),
{
    if name.contains('/') {
        let k = choose|k: int| 0 <= k < name.len() && name[k] == '/';
        assert(forbidden(name[k]));
    } else if name.contains('\\') {
        let k = choose|k: int| 0 <= k < name.len() && name[k] == '\\';
        assert(forbidden(name[k]));
    }
}

// ---- proving a repository is shared --------------------------------------------

/// The nodes that are asked: those of the cluster, or this one where there are
/// none -- a repository it cannot write to is worth hearing about now rather
/// than at the restore.
pub open spec fn asked(nodes: Seq<(Seq<char>, Seq<char>)>, me: (Seq<char>, Seq<char>)) -> Seq<
    (Seq<char>, Seq<char>),
> {
    if nodes.len() == 0 {
        seq![me]
    } else {
        nodes
    }
}

/// The nodes that are asked, by id and name.
pub fn nodes_asked(nodes: Vec<(String, String)>, id: &str, name: &str) -> (r: Vec<(String, String)>)
    ensures
        r.deep_view() == asked(nodes.deep_view(), (id@, name@)),
{
    assert(nodes.deep_view().len() == nodes@.len());
    if nodes.len() > 0 {
        return nodes;
    }
    let mut r: Vec<(String, String)> = Vec::new();
    r.push((id.to_owned(), name.to_owned()));
    assert(r.deep_view() =~= seq![(id@, name@)]);
    r
}

/// The directory the marks of one verification are left in.
pub fn mark_directory(token: &str) -> (r: String)
    ensures
        r@ == "tests-"@ + token@,
{
    "tests-".to_owned().concat(token)
}

/// Where a node leaves its mark.
pub fn mark_of(directory: &str, node: &str) -> (r: String)
    ensures
        r@ == directory@ + "/"@ + node@ + ".dat"@,
{
    directory.to_owned().concat("/").concat(node).concat(".dat")
}

/// The first failure: this node's own, else that of the first node that said
/// it could not.
pub open spec fn first_failure(
    mine: Option<Seq<char>>,
    others: Seq<(Seq<char>, Option<Seq<char>>)>,
    n: nat,
) -> Option<Seq<char>>
    decreases n,
{
    if n == 0 {
        mine
    } else {
        match first_failure(mine, others, (n - 1) as nat) {
            Some(why) => Some(why),
            None => match others[n - 1].1 {
                Some(why) => Some("node ["@ + others[n - 1].0 + "] "@ + why),
                None => None,
            },
        }
    }
}

/// What stopped a node from leaving its mark, if anything did.
pub fn marks_failed(mine: &Option<String>, others: &Vec<(String, Option<String>)>) -> (r: Option<
    String,
>)
    ensures
        r.deep_view() == first_failure(mine.deep_view(), others.deep_view(), others@.len()),
{
    let ghost ov = others.deep_view();
    let mut failure = crate::cluster::state::copy_text(mine);
    for i in 0..others.len()
        invariant
            ov == others.deep_view(),
            failure.deep_view() == first_failure(mine.deep_view(), ov, i as nat),
    {
        assert(ov[i as int] == (others@[i as int].0@, others@[i as int].1.deep_view()));
        if failure.is_none() {
            if let Some(why) = &others[i].1 {
                failure = Some(
                    "node [".to_owned().concat(others[i].0.as_str()).concat("] ").concat(
                        why.as_str(),
                    ),
                );
            }
        }
    }
    failure
}

/// Whether a node's mark reads back as the token it was asked to leave.
pub open spec fn unread(reads: Seq<Option<Seq<char>>>, token: Seq<char>) -> spec_fn(
    Option<Seq<char>>,
) -> bool {
    |r: Option<Seq<char>>| r != Some(token)
}

/// Who reached the repository: every node, or none where one of their marks
/// cannot be read back from here -- a location that resolved somewhere else.
pub open spec fn verified(
    nodes: Seq<(Seq<char>, Seq<char>)>,
    failure: Option<Seq<char>>,
    writable: bool,
    reads: Seq<Option<Seq<char>>>,
    token: Seq<char>,
) -> Result<Seq<(Seq<char>, Seq<char>)>, Seq<char>> {
    let i = crate::list::find(reads, unread(reads, token));
    match failure {
        Some(why) => Err(why),
        None => if writable && i < reads.len() && i < nodes.len() {
            Err(
                "node ["@ + nodes[i].0
                    + "] left its mark in the repository and this node cannot read it back: the repository is not one place every node of the cluster reaches"@,
            )
        } else {
            Ok(nodes)
        },
    }
}

/// Who reached the repository, out of what each node said and what this one
/// reads back where each left its mark. Nothing is read back from a repository
/// nothing writes to.
pub fn verify_round(
    nodes: &Vec<(String, String)>,
    failure: &Option<String>,
    writable: bool,
    reads: &Vec<Option<String>>,
    token: &str,
) -> (r: Result<(), String>)
    ensures
        match r {
            Ok(()) => verified(
                nodes.deep_view(),
                failure.deep_view(),
                writable,
                reads.deep_view(),
                token@,
            ) == Ok::<Seq<(Seq<char>, Seq<char>)>, Seq<char>>(nodes.deep_view()),
            Err(why) => verified(
                nodes.deep_view(),
                failure.deep_view(),
                writable,
                reads.deep_view(),
                token@,
            ) == Err::<Seq<(Seq<char>, Seq<char>)>, Seq<char>>(why@),
        },
{
    if let Some(why) = failure {
        return Err(why.clone());
    }
    let ghost p = unread(reads.deep_view(), token@);
    let f = |one: &Option<String>| -> (b: bool)
        ensures
            b == p(one.deep_view()),
        {
            match one {
                Some(t) => !same(t.as_str(), token),
                None => true,
            }
        };
    let i = find_in(reads, f, Ghost(p));
    if writable && i < reads.len() && i < nodes.len() {
        assert(nodes.deep_view()[i as int] == (nodes@[i as int].0@, nodes@[i as int].1@));
        return Err(
            "node [".to_owned().concat(nodes[i].0.as_str()).concat(
                "] left its mark in the repository and this node cannot read it back: the repository is not one place every node of the cluster reaches",
            ),
        );
    }
    Ok(())
}

/// Why a repository this node cannot reach is not verified.
pub fn unreachable_here(name: &str) -> (r: String)
    ensures
        r@ == "["@ + name@
            + "] is not a repository this node can reach: its location is not under this node's path.repo"@,
{
    "[".to_owned().concat(name).concat(
        "] is not a repository this node can reach: its location is not under this node's path.repo",
    )
}

/// The first nodes of an answer, by id.
pub open spec fn nodes_json(nodes: Seq<(Seq<char>, Seq<char>)>, n: nat) -> Seq<(Seq<char>, JsonV)>
    decreases n,
{
    if n == 0 {
        no_fields()
    } else {
        crate::list::with(
            nodes_json(nodes, (n - 1) as nat),
            nodes[n - 1].0,
            JsonV::Object(no_fields().push(("name"@, JsonV::Text(nodes[n - 1].1)))),
        )
    }
}

/// A verification that did not hold: why is the cause underneath it.
pub open spec fn unverified(name: Seq<char>, why: Seq<char>) -> AnswerV {
    let c = JsonV::Object(
        crate::api::answer::cause("repository_verification_exception"@, why),
    );
    failed(
        500,
        JsonV::Object(
            no_fields().push(("root_cause"@, JsonV::List(seq![c]))).push(
                ("type"@, JsonV::Text("repository_verification_exception"@)),
            ).push(("reason"@, JsonV::Text("["@ + name + "] cannot be verified"@))).push(
                ("caused_by"@, c),
            ),
        ),
    )
}

/// A verification that did not hold.
pub fn repository_verification_failed(name: &str, why: &str) -> (r: Answer)
    ensures
        r.deep_view() == unverified(name@, why@),
{
    let mut error = fields();
    field(
        &mut error,
        "root_cause",
        only(object(causing("repository_verification_exception", why))),
    );
    field(&mut error, "type", text("repository_verification_exception"));
    field(
        &mut error,
        "reason",
        text("[".to_owned().concat(name).concat("] cannot be verified").as_str()),
    );
    field(&mut error, "caused_by", object(causing("repository_verification_exception", why)));
    failing(500, object(error))
}

/// The nodes that proved they reach a repository.
pub fn verify_repository(nodes: &Vec<(String, String)>) -> (r: Answer)
    ensures
        r.deep_view() == done(
            JsonV::Object(
                no_fields().push(
                    ("nodes"@, JsonV::Object(nodes_json(nodes.deep_view(), nodes@.len()))),
                ),
            ),
        ),
{
    let ghost nv = nodes.deep_view();
    let mut each = fields();
    for i in 0..nodes.len()
        invariant
            nv == nodes.deep_view(),
            each.deep_view() == nodes_json(nv, i as nat),
    {
        assert(nv[i as int] == (nodes@[i as int].0@, nodes@[i as int].1@));
        let mut one = fields();
        field(&mut one, "name", text(nodes[i].1.as_str()));
        crate::list::put(&mut each, nodes[i].0.clone(), object(one));
    }
    let mut o = fields();
    field(&mut o, "nodes", object(each));
    ok(object(o))
}

/// A repository that is verified is one every node reached: where it is
/// written to, the mark of each reads back from here as what was left.
pub proof fn law_a_verified_repository_is_one_place(
    nodes: Seq<(Seq<char>, Seq<char>)>,
    failure: Option<Seq<char>>,
    reads: Seq<Option<Seq<char>>>,
    token: Seq<char>,
)
    requires
        reads.len() == nodes.len(),
        verified(nodes, failure, true, reads, token) is Ok,
    ensures
        failure is None,
        forall|i: int| 0 <= i < reads.len() ==> #[trigger] reads[i] == Some(token),
{
    let p = unread(reads, token);
    crate::list::lemma_found(reads, p);
    assert forall|i: int| 0 <= i < reads.len() implies #[trigger] reads[i] == Some(token) by {
        assert(!p(reads[i]));
    }
}

} // verus!
