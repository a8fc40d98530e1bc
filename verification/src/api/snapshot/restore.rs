//! Restoring a snapshot: everything it was asked for, or nothing.

use vstd::prelude::*;

use super::create::count;
use super::duplicate::{
    asked_in, asks_for, backed, backs, keep_asked, names_wanted, wanted,
};
use super::repository::{bad_name_answer, bad_snapshot_name, is_bad_name};
use crate::api::answer::{
    absent, absent_index, causing, done, err, flag_at, list_at, list_of, listed, ok, refused,
    rooted, rooting, said, text_at, texts_at, told, Answer, AnswerV,
};
use crate::json::{
    field, fields, lemma_object, member, no_fields, object, text, whole, Json, JsonV,
};
use crate::list::{any, find, find_in, keep, lemma_take, push_to};
use crate::pattern::{replace, replaced};
use crate::text::{begins, fits, glob_match, has_char, lowercase, same, strip_prefix};

verus! {

// ---- what is restored ----------------------------------------------------------

/// A stream's backing indices, as a pattern.
pub open spec fn generations(stream: Seq<char>) -> Seq<char> {
    ".ds-"@ + stream + "-*"@
}

/// The backing indices of the first streams a name reaches.
pub open spec fn streams_reached(want: Seq<char>, streams: Seq<Seq<char>>, n: nat) -> Seq<
    Seq<char>,
>
    decreases n,
{
    if n == 0 {
        Seq::empty()
    } else {
        let before = streams_reached(want, streams, (n - 1) as nat);
        if want == streams[n - 1] || fits(want, streams[n - 1]) {
            before.push(generations(streams[n - 1]))
        } else {
            before
        }
    }
}

/// The first names asked for, a stream's by its backing indices: those are what
/// the snapshot holds of it.
pub open spec fn spelled_out(asked: Seq<Seq<char>>, streams: Seq<Seq<char>>, n: nat) -> Seq<
    Seq<char>,
>
    decreases n,
{
    if n == 0 {
        Seq::empty()
    } else {
        let before = spelled_out(asked, streams, (n - 1) as nat);
        let named = streams_reached(asked[n - 1], streams, streams.len());
        if named.len() == 0 {
            before.push(asked[n - 1])
        } else {
            before + named
        }
    }
}

/// The names a restore asks for: what the body says, else all the snapshot
/// holds.
pub open spec fn names_asked(source: JsonV, body: JsonV) -> Seq<Seq<char>> {
    let asked = match wanted(body) {
        Some(w) => w,
        None => texts_at(source, "indices"@),
    };
    spelled_out(asked, texts_at(source, "data_streams"@), asked.len())
}

/// Whether a name is one outright that a snapshot does not hold.
pub open spec fn unheld(held: Seq<Seq<char>>) -> spec_fn(Seq<char>) -> bool {
    |w: Seq<char>| !w.contains('*') && !held.contains(w)
}

/// A setting's name without `index.` before it.
pub open spec fn bare(key: Seq<char>) -> Seq<char> {
    if begins(key, "index."@) {
        key.skip("index."@.len() as int)
    } else {
        key
    }
}

/// The first settings a restore asks to change.
pub open spec fn settings_named(o: Seq<(Seq<char>, JsonV)>, n: nat) -> Seq<Seq<char>>
    decreases n,
{
    if n == 0 {
        Seq::empty()
    } else {
        let before = settings_named(o, (n - 1) as nat);
        match o[n - 1].1 {
            JsonV::Object(inner) => if o[n - 1].0 == "index"@ {
                before + inner.map_values(|e: (Seq<char>, JsonV)| e.0)
            } else {
                before.push(bare(o[n - 1].0))
            },
            _ => before.push(bare(o[n - 1].0)),
        }
    }
}

/// Whether a setting is fixed when an index is made.
pub open spec fn is_fixed(key: Seq<char>) -> bool {
    key == "number_of_shards"@ || key == "uuid"@ || key == "version.created"@ || key
        == "creation_date"@
}

pub open spec fn fixed() -> spec_fn(Seq<char>) -> bool {
    |k: Seq<char>| is_fixed(k)
}

/// A setting a restore may not change, if it asks to: how many shards an index
/// has is what its documents were routed by.
pub open spec fn unchangeable(body: JsonV) -> Option<Seq<char>> {
    match member(body, "index_settings"@) {
        Some(JsonV::Object(o)) => {
            let keys = settings_named(o, o.len());
            let i = find(keys, fixed());
            if i < keys.len() {
                Some(keys[i])
            } else {
                None
            }
        },
        _ => None,
    }
}

/// A snapshot's uuid.
pub open spec fn uuid_of(source: JsonV) -> Seq<char> {
    match said(source, "uuid"@) {
        Some(u) => u,
        None => "_na_"@,
    }
}

/// The indices a restore brings back, out of those the snapshot holds, or why
/// it may not: a name, a snapshot that is not there or that lists no index, an
/// index it does not hold, or a setting that may not change.
pub open spec fn chosen(
    repo: Seq<char>,
    name: Seq<char>,
    source: Option<JsonV>,
    body: JsonV,
    path_lenient: bool,
) -> Result<Seq<Seq<char>>, AnswerV> {
    if is_bad_name(name) {
        Err(bad_name_answer(repo, name))
    } else {
        match source {
            None => Err(
                refused(
                    500,
                    "snapshot_restore_exception"@,
                    "["@ + repo + ":"@ + name + "] snapshot does not exist"@,
                ),
            ),
            Some(s) => {
                let held = texts_at(s, "indices"@);
                let global_only = told(s, "include_global_state"@) == Some(true) && told(
                    body,
                    "include_global_state"@,
                ) == Some(true);
                let asked = names_asked(s, body);
                let gone = find(asked, unheld(held));
                let lenient = told(body, "ignore_unavailable"@) == Some(true) || path_lenient;
                if held.len() == 0 && !global_only {
                    Err(
                        refused(
                            500,
                            "repository_exception"@,
                            "["@ + repo + ":"@ + name
                                + "] lists no indices; the repository could not be read, or the snapshot was never finished"@,
                        ),
                    )
                } else if !lenient && gone < asked.len() {
                    Err(rooted(404, absent(asked[gone])))
                } else {
                    match unchangeable(body) {
                        Some(bad) => Err(
                            refused(
                                500,
                                "snapshot_restore_exception"@,
                                "["@ + repo + ":"@ + name + "/"@ + uuid_of(s)
                                    + "] cannot modify UnmodifiableOnRestore setting [index."@
                                    + bad + "] on restore"@,
                            ),
                        ),
                        None => Ok(keep(held, asked_in(asked))),
                    }
                }
            },
        }
    }
}

fn reach_streams(want: &str, streams: &Vec<String>) -> (r: Vec<String>)
    ensures
        r.deep_view() == streams_reached(want@, streams.deep_view(), streams@.len()),
{
    let ghost sv = streams.deep_view();
    let mut r: Vec<String> = Vec::new();
    assert(r.deep_view() =~= Seq::<Seq<char>>::empty());
    for i in 0..streams.len()
        invariant
            sv == streams.deep_view(),
            r.deep_view() == streams_reached(want@, sv, i as nat),
    {
        assert(sv[i as int] == streams@[i as int]@);
        let s = streams[i].as_str();
        if same(want, s) || glob_match(want, s) {
            push_to(&mut r, ".ds-".to_owned().concat(s).concat("-*"));
        }
    }
    r
}

fn append_names(out: &mut Vec<String>, more: &Vec<String>)
    ensures
        final(out).deep_view() == old(out).deep_view() + more.deep_view(),
{
    let ghost start = out.deep_view();
    let ghost mv = more.deep_view();
    assert(start + mv.take(0) =~= start);
    for i in 0..more.len()
        invariant
            mv == more.deep_view(),
            out.deep_view() == start + mv.take(i as int),
    {
        proof {
            lemma_take(mv, i as int);
            assert(mv[i as int] == more@[i as int]@);
        }
        push_to(out, more[i].clone());
        assert(out.deep_view() =~= start + mv.take(i + 1));
    }
    assert(mv.take(more@.len() as int) =~= mv);
}

fn spell_out(asked: &Vec<String>, streams: &Vec<String>) -> (r: Vec<String>)
    ensures
        r.deep_view() == spelled_out(asked.deep_view(), streams.deep_view(), asked@.len()),
{
    let ghost av = asked.deep_view();
    let ghost sv = streams.deep_view();
    let mut r: Vec<String> = Vec::new();
    assert(r.deep_view() =~= Seq::<Seq<char>>::empty());
    for i in 0..asked.len()
        invariant
            av == asked.deep_view(),
            sv == streams.deep_view(),
            r.deep_view() == spelled_out(av, sv, i as nat),
    {
        assert(av[i as int] == asked@[i as int]@);
        assert(sv.len() == streams@.len());
        let named = reach_streams(asked[i].as_str(), streams);
        assert(named.deep_view().len() == named@.len());
        if named.len() == 0 {
            push_to(&mut r, asked[i].clone());
        } else {
            append_names(&mut r, &named);
        }
    }
    r
}

fn keys_of(o: &Vec<(String, Json)>) -> (r: Vec<String>)
    ensures
        r.deep_view() == o.deep_view().map_values(|e: (Seq<char>, JsonV)| e.0),
{
    let ghost ov = o.deep_view();
    let mut r: Vec<String> = Vec::new();
    for i in 0..o.len()
        invariant
            ov == o.deep_view(),
            r@.len() == i,
            forall|j: int| 0 <= j < i ==> r@[j]@ == (#[trigger] ov[j]).0,
    {
        assert(ov[i as int].0 == o@[i as int].0@);
        r.push(o[i].0.clone());
    }
    assert(r.deep_view() =~= ov.map_values(|e: (Seq<char>, JsonV)| e.0));
    r
}

fn name_settings(o: &Vec<(String, Json)>) -> (r: Vec<String>)
    ensures
        r.deep_view() == settings_named(o.deep_view(), o@.len()),
{
    let ghost ov = o.deep_view();
    let mut r: Vec<String> = Vec::new();
    assert(r.deep_view() =~= Seq::<Seq<char>>::empty());
    for i in 0..o.len()
        invariant
            ov == o.deep_view(),
            r.deep_view() == settings_named(ov, i as nat),
    {
        assert(ov[i as int] == (o@[i as int].0@, o@[i as int].1.deep_view()));
        let key = o[i].0.as_str();
        let name = match strip_prefix(key, "index.") {
            Some(rest) => rest,
            None => key.to_owned(),
        };
        match &o[i].1 {
            Json::Object(inner) => {
                proof {
                    lemma_object(*inner);
                }
                if same(key, "index") {
                    append_names(&mut r, &keys_of(inner));
                } else {
                    push_to(&mut r, name);
                }
            },
            _ => {
                push_to(&mut r, name);
            },
        }
    }
    r
}

fn find_unchangeable(body: &Json) -> (r: Option<String>)
    ensures
        r.deep_view() == unchangeable(body.deep_view()),
{
    match body.get("index_settings") {
        Some(Json::Object(o)) => {
            proof {
                lemma_object(*o);
            }
            assert(o.deep_view().len() == o@.len());
            let keys = name_settings(o);
            let ghost p = fixed();
            let f = |k: &String| -> (b: bool)
                ensures
                    b == p(k.deep_view()),
                {
                    let s = k.as_str();
                    same(s, "number_of_shards") || same(s, "uuid") || same(s, "version.created")
                        || same(s, "creation_date")
                };
            let i = find_in(&keys, f, Ghost(p));
            assert(keys.deep_view().len() == keys@.len());
            if i < keys.len() {
                assert(keys.deep_view()[i as int] == keys@[i as int]@);
                Some(keys[i].clone())
            } else {
                None
            }
        },
        _ => None,
    }
}

fn asked_of(source: &Json, held: &Vec<String>, body: &Json) -> (r: Vec<String>)
    requires
        held.deep_view() == texts_at(source.deep_view(), "indices"@),
    ensures
        r.deep_view() == names_asked(source.deep_view(), body.deep_view()),
{
    let streams = list_at(source, "data_streams");
    match names_wanted(body) {
        Some(w) => {
            assert(w.deep_view().len() == w@.len());
            spell_out(&w, &streams)
        },
        None => {
            assert(held.deep_view().len() == held@.len());
            spell_out(held, &streams)
        },
    }
}

/// A snapshot's uuid.
pub fn snapshot_uuid(source: &Json) -> (r: String)
    ensures
        r@ == uuid_of(source.deep_view()),
{
    match text_at(source, "uuid") {
        Some(u) => u,
        None => "_na_".to_owned(),
    }
}

fn is_true(b: Option<bool>) -> (r: bool)
    ensures
        r == (b == Some(true)),
{
    match b {
        Some(x) => x,
        None => false,
    }
}

/// The indices a restore brings back, out of those the snapshot holds, or why
/// it may not.
pub fn choose_indices(
    repo: &str,
    name: &str,
    source: Option<&Json>,
    body: &Json,
    path_lenient: bool,
) -> (r: Result<Vec<String>, Answer>)
    ensures
        match r {
            Ok(v) => chosen(
                repo@,
                name@,
                source.deep_view(),
                body.deep_view(),
                path_lenient,
            ) == Ok::<Seq<Seq<char>>, AnswerV>(v.deep_view()),
            Err(a) => chosen(
                repo@,
                name@,
                source.deep_view(),
                body.deep_view(),
                path_lenient,
            ) == Err::<Seq<Seq<char>>, AnswerV>(a.deep_view()),
        },
{
    if let Some(bad) = bad_snapshot_name(repo, name) {
        return Err(bad);
    }
    let s = match source {
        Some(s) => s,
        None => {
            return Err(
                err(
                    500,
                    "snapshot_restore_exception",
                    "[".to_owned().concat(repo).concat(":").concat(name).concat(
                        "] snapshot does not exist",
                    ).as_str(),
                ),
            );
        },
    };
    let held = list_at(s, "indices");
    assert(held.deep_view().len() == held@.len());
    let global_only = is_true(flag_at(s, "include_global_state")) && is_true(
        flag_at(body, "include_global_state"),
    );
    if held.len() == 0 && !global_only {
        return Err(
            err(
                500,
                "repository_exception",
                "[".to_owned().concat(repo).concat(":").concat(name).concat(
                    "] lists no indices; the repository could not be read, or the snapshot was never finished",
                ).as_str(),
            ),
        );
    }
    let asked = asked_of(s, &held, body);
    let lenient = is_true(flag_at(body, "ignore_unavailable")) || path_lenient;
    let ghost p = unheld(held.deep_view());
    let f = |w: &String| -> (b: bool)
        ensures
            b == p(w.deep_view()),
        {
            !has_char(w.as_str(), '*') && !crate::cluster::state::has_text(&held, w.as_str())
        };
    let i = find_in(&asked, f, Ghost(p));
    assert(asked.deep_view().len() == asked@.len());
    if !lenient && i < asked.len() {
        assert(asked.deep_view()[i as int] == asked@[i as int]@);
        return Err(rooting(404, absent_index(asked[i].as_str())));
    }
    if let Some(bad) = find_unchangeable(body) {
        let uuid = snapshot_uuid(s);
        return Err(
            err(
                500,
                "snapshot_restore_exception",
                "[".to_owned().concat(repo).concat(":").concat(name).concat("/").concat(
                    uuid.as_str(),
                ).concat("] cannot modify UnmodifiableOnRestore setting [index.").concat(
                    bad.as_str(),
                ).concat("] on restore").as_str(),
            ),
        );
    }
    Ok(keep_asked(&held, &asked))
}

/// A restore brings back only what the snapshot holds, and holds under a name
/// that was asked for.
pub proof fn law_a_restore_brings_back_only_what_was_kept(
    repo: Seq<char>,
    name: Seq<char>,
    source: JsonV,
    body: JsonV,
    lenient: bool,
    i: int,
)
    requires
        chosen(repo, name, Some(source), body, lenient) is Ok,
        0 <= i < chosen(repo, name, Some(source), body, lenient)->Ok_0.len(),
    ensures
        ({
            let n = chosen(repo, name, Some(source), body, lenient)->Ok_0[i];
            texts_at(source, "indices"@).contains(n) && any(
                names_asked(source, body),
                asks_for(n),
            )
        }),
{
    crate::list::lemma_keep(
        texts_at(source, "indices"@),
        asked_in(names_asked(source, body)),
    );
}

// ---- the name it is given back under -------------------------------------------

/// How names are changed, where a body says so: a pattern and what replaces it.
pub open spec fn renaming(body: JsonV) -> Option<(Seq<char>, Seq<char>)> {
    match (said(body, "rename_pattern"@), said(body, "rename_replacement"@)) {
        (Some(p), Some(r)) => Some((p, r)),
        _ => None,
    }
}

/// The name an index is given back under.
pub open spec fn target_name(n: Seq<char>, body: JsonV) -> Seq<char> {
    match renaming(body) {
        Some((p, r)) => renamed_to(n, replaced(p, n, r)),
        None => n,
    }
}

/// The name itself where the pattern is none.
pub open spec fn renamed_to(n: Seq<char>, outcome: Option<Seq<char>>) -> Seq<char> {
    match outcome {
        Some(t) => t,
        None => n,
    }
}

/// The name itself where the pattern is none.
pub fn rename_to(n: &str, outcome: Option<String>) -> (r: String)
    ensures
        r@ == renamed_to(n@, outcome.deep_view()),
{
    match outcome {
        Some(t) => t,
        None => n.to_owned(),
    }
}

/// The name an index is given back under: a name may be given back changed,
/// which is how a snapshot is restored beside the index it was taken from.
pub fn rename(n: &str, body: &Json) -> (r: String)
    ensures
        r@ == target_name(n@, body.deep_view()),
{
    match (text_at(body, "rename_pattern"), text_at(body, "rename_replacement")) {
        (Some(p), Some(with)) => rename_to(n, replace(p.as_str(), n, with.as_str())),
        _ => n.to_owned(),
    }
}

/// What an index a restore makes takes the place of.
pub enum Replaces {
    Nothing,
    /// a closed index this node holds
    ClosedHere,
    /// a closed index held only by other nodes, by its uuid
    ClosedElsewhere(String),
}

#[verifier::ext_equal]
pub enum ReplacesV {
    Nothing,
    ClosedHere,
    ClosedElsewhere(Seq<char>),
}

impl DeepView for Replaces {
    type V = ReplacesV;

    open spec fn deep_view(&self) -> ReplacesV {
        match self {
            Replaces::Nothing => ReplacesV::Nothing,
            Replaces::ClosedHere => ReplacesV::ClosedHere,
            Replaces::ClosedElsewhere(u) => ReplacesV::ClosedElsewhere(u@),
        }
    }
}

/// What is known of the name an index is given back under.
pub struct Standing {
    /// what any index made under the name would be refused with
    pub refused: Option<Answer>,
    /// how many indices the name stands for
    pub resolves: usize,
    pub alias: bool,
    /// whether the index this node holds under the name is closed
    pub here: Option<bool>,
    /// the state and the uuid of the index the cluster has under the name
    pub elsewhere: Option<(String, String)>,
}

pub struct StandingV {
    pub refused: Option<AnswerV>,
    pub resolves: nat,
    pub alias: bool,
    pub here: Option<bool>,
    pub elsewhere: Option<(Seq<char>, Seq<char>)>,
}

impl DeepView for Standing {
    type V = StandingV;

    open spec fn deep_view(&self) -> StandingV {
        StandingV {
            refused: self.refused.deep_view(),
            resolves: self.resolves as nat,
            alias: self.alias,
            here: self.here,
            elsewhere: self.elsewhere.deep_view(),
        }
    }
}

/// An index's name in capitals.
pub open spec fn not_lower(target: Seq<char>) -> AnswerV {
    rooted(
        400,
        crate::api::answer::cause(
            "invalid_index_name_exception"@,
            "Invalid index name ["@ + target + "], must be lowercase"@,
        ).push(("index"@, JsonV::Text(target))).push(("index_uuid"@, JsonV::Text("_na_"@))),
    )
}

/// An open index is being written to: restoring over it would mean two sets of
/// documents under one name.
pub open spec fn open_exists(
    repo: Seq<char>,
    name: Seq<char>,
    uuid: Seq<char>,
    target: Seq<char>,
) -> AnswerV {
    refused(
        500,
        "snapshot_restore_exception"@,
        "["@ + repo + ":"@ + name + "/"@ + uuid + "] cannot restore index ["@ + target
            + "] because an open index with same name already exists in the cluster. Either close or delete the existing index or restore the index under a different name by providing a rename pattern and replacement name"@,
    )
}

/// What a restored index takes the place of, or why it may not be made under
/// its name. A name a caller made up goes through the same door as any other,
/// and one that stands for several indices is no name to write to.
pub open spec fn taking_place(
    repo: Seq<char>,
    name: Seq<char>,
    uuid: Seq<char>,
    target: Seq<char>,
    s: StandingV,
) -> Result<ReplacesV, AnswerV> {
    if target.len() == 0 || target == "."@ || target == ".."@ {
        Err(
            refused(
                400,
                "invalid_index_name_exception"@,
                "Invalid index name ["@ + target + "], must not be empty, '.' or '..'"@,
            ),
        )
    } else if s.refused is Some {
        Err(s.refused->0)
    } else if target != lowercase(target) {
        Err(not_lower(target))
    } else if s.resolves > 1 || s.alias {
        Err(
            refused(
                400,
                "invalid_index_name_exception"@,
                "["@ + target
                    + "] is an alias, and a restore writes to an index: restore under a different name by providing a rename pattern and replacement name"@,
            ),
        )
    } else {
        match s.here {
            Some(closed) => if closed {
                Ok(ReplacesV::ClosedHere)
            } else {
                Err(open_exists(repo, name, uuid, target))
            },
            None => match s.elsewhere {
                Some((state, id)) => if state != "close"@ {
                    Err(open_exists(repo, name, uuid, target))
                } else {
                    Ok(ReplacesV::ClosedElsewhere(id))
                },
                None => Ok(ReplacesV::Nothing),
            },
        }
    }
}

/// The answer when an open index is in the way.
pub fn refuse_open(repo: &str, name: &str, uuid: &str, target: &str) -> (r: Answer)
    ensures
        r.deep_view() == open_exists(repo@, name@, uuid@, target@),
{
    err(
        500,
        "snapshot_restore_exception",
        "[".to_owned().concat(repo).concat(":").concat(name).concat("/").concat(uuid).concat(
            "] cannot restore index [",
        ).concat(target).concat(
            "] because an open index with same name already exists in the cluster. Either close or delete the existing index or restore the index under a different name by providing a rename pattern and replacement name",
        ).as_str(),
    )
}

fn refuse_capitals(target: &str) -> (r: Answer)
    ensures
        r.deep_view() == not_lower(target@),
{
    let mut about = causing(
        "invalid_index_name_exception",
        "Invalid index name [".to_owned().concat(target).concat("], must be lowercase").as_str(),
    );
    field(&mut about, "index", text(target));
    field(&mut about, "index_uuid", text("_na_"));
    rooting(400, about)
}

fn copy_answer(a: &Answer) -> (r: Answer)
    ensures
        r.deep_view() == a.deep_view(),
{
    Answer { status: a.status, body: a.body.clone() }
}

/// What a restored index takes the place of, or why it may not be made under
/// its name.
pub fn take_place(repo: &str, name: &str, uuid: &str, target: &str, s: &Standing) -> (r: Result<
    Replaces,
    Answer,
>)
    ensures
        match r {
            Ok(x) => taking_place(repo@, name@, uuid@, target@, s.deep_view()) == Ok::<
                ReplacesV,
                AnswerV,
            >(x.deep_view()),
            Err(a) => taking_place(repo@, name@, uuid@, target@, s.deep_view()) == Err::<
                ReplacesV,
                AnswerV,
            >(a.deep_view()),
        },
{
    if target.is_empty() || same(target, ".") || same(target, "..") {
        return Err(
            err(
                400,
                "invalid_index_name_exception",
                "Invalid index name [".to_owned().concat(target).concat(
                    "], must not be empty, '.' or '..'",
                ).as_str(),
            ),
        );
    }
    if let Some(a) = &s.refused {
        return Err(copy_answer(a));
    }
    if !same(target, target.to_lowercase().as_str()) {
        return Err(refuse_capitals(target));
    }
    if s.resolves > 1 || s.alias {
        return Err(
            err(
                400,
                "invalid_index_name_exception",
                "[".to_owned().concat(target).concat(
                    "] is an alias, and a restore writes to an index: restore under a different name by providing a rename pattern and replacement name",
                ).as_str(),
            ),
        );
    }
    match s.here {
        Some(closed) => {
            if closed {
                Ok(Replaces::ClosedHere)
            } else {
                Err(refuse_open(repo, name, uuid, target))
            }
        },
        None => match &s.elsewhere {
            Some((state, id)) => {
                if !same(state.as_str(), "close") {
                    Err(refuse_open(repo, name, uuid, target))
                } else {
                    Ok(Replaces::ClosedElsewhere(id.clone()))
                }
            },
            None => Ok(Replaces::Nothing),
        },
    }
}

/// A restore writes over no open index, whatever it is renamed to.
pub proof fn law_no_open_index_is_restored_over(
    repo: Seq<char>,
    name: Seq<char>,
    uuid: Seq<char>,
    target: Seq<char>,
    s: StandingV,
)
    requires
        taking_place(repo, name, uuid, target, s) is Ok,
    ensures
        s.here != Some(false),
        s.here is None ==> match s.elsewhere {
            Some((state, id)) => state == "close"@,
            None => true,
        },
        !s.alias,
        s.resolves <= 1,
        target.len() > 0,
        target == lowercase(target),
{
}

/// Whether the cluster's templates, pipelines, scripts and settings come back:
/// they were kept, and they are asked for.
pub fn global_asked(source: &Json, body: &Json) -> (r: bool)
    ensures
        r == (told(body.deep_view(), "include_global_state"@) == Some(true) && told(
            source.deep_view(),
            "include_global_state"@,
        ) == Some(true)),
{
    is_true(flag_at(body, "include_global_state")) && is_true(
        flag_at(source, "include_global_state"),
    )
}

// ---- making the indices, and taking them away again ----------------------------

/// An index a restore made, and whether one was set aside for it.
pub struct Made {
    pub target: String,
    pub aside: bool,
}

#[verifier::ext_equal]
pub struct MadeV {
    pub target: Seq<char>,
    pub aside: bool,
}

impl DeepView for Made {
    type V = MadeV;

    open spec fn deep_view(&self) -> MadeV {
        MadeV { target: self.target@, aside: self.aside }
    }
}

/// What is done with an index once it is known whether all of them were made.
pub enum Action {
    Delete(String),
    EndRestore(String),
    PutBack(String),
    LetGo(String),
    Open(String),
}

#[verifier::ext_equal]
pub enum ActionV {
    Delete(Seq<char>),
    EndRestore(Seq<char>),
    PutBack(Seq<char>),
    LetGo(Seq<char>),
    Open(Seq<char>),
}

impl DeepView for Action {
    type V = ActionV;

    open spec fn deep_view(&self) -> ActionV {
        match self {
            Action::Delete(t) => ActionV::Delete(t@),
            Action::EndRestore(t) => ActionV::EndRestore(t@),
            Action::PutBack(t) => ActionV::PutBack(t@),
            Action::LetGo(t) => ActionV::LetGo(t@),
            Action::Open(t) => ActionV::Open(t@),
        }
    }
}

pub open spec fn undoing(m: MadeV) -> Seq<ActionV> {
    let out = seq![ActionV::Delete(m.target), ActionV::EndRestore(m.target)];
    if m.aside {
        out.push(ActionV::PutBack(m.target))
    } else {
        out
    }
}

/// How the first indices made are taken away again: the last first.
pub open spec fn undone(made: Seq<MadeV>, n: nat) -> Seq<ActionV>
    decreases n,
{
    if n == 0 {
        Seq::empty()
    } else {
        undoing(made[n - 1]) + undone(made, (n - 1) as nat)
    }
}

pub open spec fn keeping(m: MadeV) -> Seq<ActionV> {
    let out = seq![ActionV::EndRestore(m.target)];
    if m.aside {
        out.push(ActionV::LetGo(m.target)).push(ActionV::Open(m.target))
    } else {
        out.push(ActionV::Open(m.target))
    }
}

/// How the first indices made are kept: what was set aside for them goes, and
/// they are open.
pub open spec fn kept(made: Seq<MadeV>, n: nat) -> Seq<ActionV>
    decreases n,
{
    if n == 0 {
        Seq::empty()
    } else {
        kept(made, (n - 1) as nat) + keeping(made[n - 1])
    }
}

/// How everything a restore made is taken away, and everything it set aside put
/// back, when one of its indices cannot be made whole.
pub fn undo(made: &Vec<Made>) -> (r: Vec<Action>)
    ensures
        r.deep_view() == undone(made.deep_view(), made@.len()),
{
    let ghost mv = made.deep_view();
    let mut r: Vec<Action> = Vec::new();
    let mut i: usize = made.len();
    assert(r.deep_view() + undone(mv, i as nat) =~= undone(mv, i as nat));
    while i > 0
        invariant
            i <= made@.len(),
            mv == made.deep_view(),
            r.deep_view() + undone(mv, i as nat) == undone(mv, made@.len()),
        decreases i,
    {
        let m = &made[i - 1];
        assert(mv[i - 1] == m.deep_view());
        let ghost before = r.deep_view();
        push_to(&mut r, Action::Delete(m.target.clone()));
        push_to(&mut r, Action::EndRestore(m.target.clone()));
        if m.aside {
            push_to(&mut r, Action::PutBack(m.target.clone()));
        }
        assert(r.deep_view() =~= before + undoing(mv[i - 1]));
        assert(r.deep_view() + undone(mv, (i - 1) as nat) =~= before + undone(mv, i as nat));
        i -= 1;
    }
    assert(r.deep_view() + undone(mv, 0) =~= r.deep_view());
    r
}

/// How everything a restore made is kept, once all of it is whole.
pub fn keep_all(made: &Vec<Made>) -> (r: Vec<Action>)
    ensures
        r.deep_view() == kept(made.deep_view(), made@.len()),
{
    let ghost mv = made.deep_view();
    let mut r: Vec<Action> = Vec::new();
    assert(r.deep_view() =~= Seq::<ActionV>::empty());
    for i in 0..made.len()
        invariant
            mv == made.deep_view(),
            r.deep_view() == kept(mv, i as nat),
    {
        let m = &made[i];
        assert(mv[i as int] == m.deep_view());
        let ghost before = r.deep_view();
        push_to(&mut r, Action::EndRestore(m.target.clone()));
        if m.aside {
            push_to(&mut r, Action::LetGo(m.target.clone()));
        }
        push_to(&mut r, Action::Open(m.target.clone()));
        assert(r.deep_view() =~= before + keeping(mv[i as int]));
    }
    r
}

// ---- afterwards ----------------------------------------------------------------

/// Whether a stream comes back: one of its backing indices did, and the stream
/// is not there.
pub open spec fn comes_back(restored: Seq<Seq<char>>, there: Seq<Seq<char>>) -> spec_fn(
    Seq<char>,
) -> bool {
    |s: Seq<char>| any(restored, backs(s)) && !there.contains(s)
}

/// The streams that are put back. A stream is the name in front of its backing
/// indices, so bringing the indices back leaves them loose until the name is
/// put back too.
pub fn streams_back(streams: &Vec<String>, restored: &Vec<String>, there: &Vec<String>) -> (r: Vec<
    String,
>)
    ensures
        r.deep_view() == keep(
            streams.deep_view(),
            comes_back(restored.deep_view(), there.deep_view()),
        ),
{
    let ghost sv = streams.deep_view();
    let ghost p = comes_back(restored.deep_view(), there.deep_view());
    let mut r: Vec<String> = Vec::new();
    assert(r.deep_view() =~= keep(sv.take(0), p));
    for i in 0..streams.len()
        invariant
            sv == streams.deep_view(),
            p == comes_back(restored.deep_view(), there.deep_view()),
            r.deep_view() == keep(sv.take(i as int), p),
    {
        proof {
            lemma_take(sv, i as int);
            assert(sv[i as int] == streams@[i as int]@);
        }
        let s = streams[i].as_str();
        if backed(s, restored) && !crate::cluster::state::has_text(there, s) {
            push_to(&mut r, streams[i].clone());
        }
    }
    assert(sv.take(streams@.len() as int) =~= sv);
    r
}

/// What a restore came to.
pub open spec fn restored_json(name: Seq<char>, restored: Seq<Seq<char>>) -> JsonV {
    let shards = if restored.len() == 0 {
        1
    } else {
        restored.len() as u64
    };
    JsonV::Object(
        no_fields().push(
            (
                "snapshot"@,
                JsonV::Object(
                    no_fields().push(("snapshot"@, JsonV::Text(name))).push(
                        ("indices"@, listed(restored)),
                    ).push(
                        (
                            "shards"@,
                            JsonV::Object(
                                no_fields().push(("total"@, count(shards))).push(
                                    ("failed"@, count(0)),
                                ).push(("successful"@, count(shards))),
                            ),
                        ),
                    ),
                ),
            ),
        ),
    )
}

/// What a restore came to.
pub fn restore_answer(name: &str, restored: &Vec<String>) -> (r: Answer)
    ensures
        r.deep_view() == done(restored_json(name@, restored.deep_view())),
{
    assert(restored.deep_view().len() == restored@.len());
    let shards: u64 = if restored.len() == 0 {
        1
    } else {
        restored.len() as u64
    };
    let mut counts = fields();
    field(&mut counts, "total", whole(shards));
    field(&mut counts, "failed", whole(0));
    field(&mut counts, "successful", whole(shards));
    let mut inner = fields();
    field(&mut inner, "snapshot", text(name));
    field(&mut inner, "indices", list_of(restored));
    field(&mut inner, "shards", object(counts));
    let mut o = fields();
    field(&mut o, "snapshot", object(inner));
    ok(object(o))
}

} // verus!
