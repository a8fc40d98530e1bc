//! An index's settings, and the defaults underneath them.

use vstd::prelude::*;

use super::answer::{err, refused, Answer, AnswerV};
use crate::json::{
    field, fields, lemma_object, list, member, no_fields, object, setting, setting_of, text, walk,
    Json, JsonV,
};
use crate::list::{
    find, find_in, get, keep, lemma_take, lookup, push_to, put, put_at, remove_at,
    with, lemma_absent, lemma_with,
};
use crate::text::{
    begins, cut, dec, decimal, fits, glob_match, join, joined, lemma_joined_cut, same, split, starts_with,
    strip_prefix, trim, trimmed,
};

verus! {

// ---- flat and nested -----------------------------------------------------------

/// The name of a member under a path.
pub open spec fn under(prefix: Seq<char>, key: Seq<char>) -> Seq<char> {
    if prefix.len() == 0 {
        key
    } else {
        prefix + "."@ + key
    }
}

/// Every leaf of a document under the dotted path to it, put into a list.
pub open spec fn flattened(v: JsonV, prefix: Seq<char>, out: Seq<(Seq<char>, JsonV)>) -> Seq<
    (Seq<char>, JsonV),
>
    decreases v, 0nat,
{
    match v {
        JsonV::Object(o) => flattened_members(o, prefix, out, o.len()),
        leaf => with(out, prefix, leaf),
    }
}

pub open spec fn flattened_members(
    o: Seq<(Seq<char>, JsonV)>,
    prefix: Seq<char>,
    out: Seq<(Seq<char>, JsonV)>,
    n: nat,
) -> Seq<(Seq<char>, JsonV)>
    decreases o, n,
{
    if n == 0 || n > o.len() {
        out
    } else {
        flattened(
            o[n - 1].1,
            under(prefix, o[n - 1].0),
            flattened_members(o, prefix, out, (n - 1) as nat),
        )
    }
}

fn path_under(prefix: &str, key: &str) -> (r: String)
    ensures
        r@ == under(prefix@, key@),
{
    if prefix.is_empty() {
        key.to_owned()
    } else {
        prefix.to_owned().concat(".").concat(key)
    }
}

/// `flat_settings=true` renders `{"index":{"a":1}}` as `{"index.a":1}`.
pub fn flatten_settings(v: &Json, prefix: &str, out: &mut Vec<(String, Json)>)
    ensures
        final(out).deep_view() == flattened(v.deep_view(), prefix@, old(out).deep_view()),
    decreases *v,
{
    match v {
        Json::Object(o) => {
            proof {
                lemma_object(*o);
            }
            let ghost ov = o.deep_view();
            for i in 0..o.len()
                invariant
                    *v == Json::Object(*o),
                    ov == o.deep_view(),
                    out.deep_view() == flattened_members(
                        ov,
                        prefix@,
                        old(out).deep_view(),
                        i as nat,
                    ),
            {
                assert(decreases_to!(*v => v->Object_0));
                assert(decreases_to!(*v => o[i as int]));
                assert(ov[i as int] == (o@[i as int].0@, o@[i as int].1.deep_view()));
                let path = path_under(prefix, o[i].0.as_str());
                flatten_settings(&o[i].1, path.as_str(), out);
            }
        },
        leaf => {
            put(out, prefix.to_owned(), leaf.clone());
        },
    }
}

/// A document with a leaf put at a path, objects made for the steps that are
/// missing. A step that is no object takes nothing.
pub open spec fn nested(v: JsonV, path: Seq<Seq<char>>, leaf: JsonV) -> JsonV
    decreases path.len(),
{
    match v {
        JsonV::Object(o) => if path.len() == 0 {
            v
        } else if path.len() == 1 {
            JsonV::Object(with(o, path[0], leaf))
        } else {
            let child = match lookup(o, path[0]) {
                Some(c) => c,
                None => JsonV::Object(no_fields()),
            };
            JsonV::Object(with(o, path[0], nested(child, path.skip(1), leaf)))
        },
        _ => v,
    }
}

/// The first leaves of a flat list, nested again.
pub open spec fn nested_all(flat: Seq<(Seq<char>, JsonV)>, n: nat) -> JsonV
    decreases n,
{
    if n == 0 {
        JsonV::Object(no_fields())
    } else {
        nested(nested_all(flat, (n - 1) as nat), cut(flat[n - 1].0, '.'), flat[n - 1].1)
    }
}

fn nest(v: Json, path: &Vec<String>, from: usize, leaf: &Json) -> (r: Json)
    requires
        from <= path@.len(),
    ensures
        r.deep_view() == nested(
            v.deep_view(),
            path.deep_view().skip(from as int),
            leaf.deep_view(),
        ),
    decreases path@.len() - from,
{
    let ghost pv = path.deep_view().skip(from as int);
    match v {
        Json::Object(members) => {
            proof {
                lemma_object(members);
            }
            let mut o = members;
            if from == path.len() {
                return object(o);
            }
            assert(pv[0] == path@[from as int]@);
            if from + 1 == path.len() {
                put(&mut o, path[from].clone(), leaf.clone());
                return object(o);
            }
            let child = match get(&o, path[from].as_str()) {
                Some(c) => c.clone(),
                None => object(fields()),
            };
            assert(pv.skip(1) =~= path.deep_view().skip(from + 1));
            let below = nest(child, path, from + 1, leaf);
            put(&mut o, path[from].clone(), below);
            object(o)
        },
        other => other,
    }
}

fn nest_all(flat: &Vec<(String, Json)>) -> (r: Json)
    ensures
        r.deep_view() == nested_all(flat.deep_view(), flat@.len()),
{
    let ghost fv = flat.deep_view();
    let mut r = object(fields());
    for i in 0..flat.len()
        invariant
            fv == flat.deep_view(),
            r.deep_view() == nested_all(fv, i as nat),
    {
        assert(fv[i as int] == (flat@[i as int].0@, flat@[i as int].1.deep_view()));
        let path = split(flat[i].0.as_str(), '.');
        assert(path.deep_view().skip(0) =~= path.deep_view());
        r = nest(r, &path, 0, &flat[i].1);
    }
    r
}

// ---- taking a setting out ------------------------------------------------------

/// A list without a name.
pub open spec fn without(o: Seq<(Seq<char>, JsonV)>, key: Seq<char>) -> Seq<(Seq<char>, JsonV)> {
    let i = find(o, named(key));
    if i < o.len() {
        o.remove(i)
    } else {
        o
    }
}

pub open spec fn named(key: Seq<char>) -> spec_fn((Seq<char>, JsonV)) -> bool {
    |e: (Seq<char>, JsonV)| e.0 == key
}

/// A document without what a path leads to, the path written flat or step by
/// step.
pub open spec fn without_path(v: JsonV, path: Seq<Seq<char>>) -> JsonV
    decreases path.len(),
{
    match v {
        JsonV::Object(o) => {
            let p = without(o, joined(path, "."@));
            if path.len() > 1 {
                let i = find(p, named(path[0]));
                if i < p.len() {
                    JsonV::Object(p.update(i, (path[0], without_path(p[i].1, path.skip(1)))))
                } else {
                    JsonV::Object(p)
                }
            } else {
                JsonV::Object(p)
            }
        },
        _ => v,
    }
}

/// A document with a member changed, if it has it.
pub open spec fn without_in(v: JsonV, key: Seq<char>, path: Seq<Seq<char>>) -> JsonV {
    match v {
        JsonV::Object(o) => {
            let i = find(o, named(key));
            if i < o.len() {
                JsonV::Object(o.update(i, (key, without_path(o[i].1, path))))
            } else {
                v
            }
        },
        _ => v,
    }
}

/// A document without a setting, in whatever spelling it was written: under
/// `index` or at the top, flat or nested, with its `index.` prefix or without.
pub open spec fn forgotten(v: JsonV, key: Seq<char>) -> JsonV {
    let path = cut(key, '.');
    let prefixed = seq!["index"@] + path;
    without_in(
        without_in(
            without_path(without_path(v, path), prefixed),
            "index"@,
            path,
        ),
        "index"@,
        prefixed,
    )
}

fn place_named(o: &Vec<(String, Json)>, key: &str) -> (i: usize)
    ensures
        i == find(o.deep_view(), named(key@)),
        i <= o@.len(),
        i < o@.len() ==> o.deep_view()[i as int].0 == key@,
{
    let ghost p = named(key@);
    let f = |e: &(String, Json)| -> (r: bool)
        ensures
            r == p(e.deep_view()),
        { same(e.0.as_str(), key) };
    find_in(o, f, Ghost(p))
}

fn tail(path: &Vec<String>) -> (r: Vec<String>)
    requires
        path@.len() > 0,
    ensures
        r.deep_view() == path.deep_view().skip(1),
{
    let mut r: Vec<String> = Vec::new();
    assert(r.deep_view() =~= path.deep_view().subrange(1, 1));
    for i in 1..path.len()
        invariant
            1 <= i <= path@.len(),
            r.deep_view() == path.deep_view().subrange(1, i as int),
    {
        push_to(&mut r, path[i].clone());
        assert(r.deep_view() =~= path.deep_view().subrange(1, i + 1));
    }
    assert(path.deep_view().subrange(1, path@.len() as int) =~= path.deep_view().skip(1));
    r
}

fn remove_path(v: Json, path: &Vec<String>) -> (r: Json)
    ensures
        r.deep_view() == without_path(v.deep_view(), path.deep_view()),
    decreases path@.len(),
{
    match v {
        Json::Object(members) => {
            proof {
                lemma_object(members);
            }
            let mut o = members;
            // the rest of the path written flat under this object
            let flat = join(path, ".");
            let at = place_named(&o, flat.as_str());
            if at < o.len() {
                let _gone = remove_at(&mut o, at);
            }
            if path.len() > 1 {
                assert(path.deep_view()[0] == path@[0]@);
                let i = place_named(&o, path[0].as_str());
                if i < o.len() {
                    assert(o.deep_view()[i as int] == (
                        o@[i as int].0@,
                        o@[i as int].1.deep_view(),
                    ));
                    let rest = tail(path);
                    assert(rest.deep_view().len() == rest@.len());
                    let child = remove_path(o[i].1.clone(), &rest);
                    put_at(&mut o, i, (path[0].clone(), child));
                }
            }
            object(o)
        },
        other => other,
    }
}

fn remove_in(v: Json, key: &str, path: &Vec<String>) -> (r: Json)
    ensures
        r.deep_view() == without_in(v.deep_view(), key@, path.deep_view()),
{
    match v {
        Json::Object(members) => {
            proof {
                lemma_object(members);
            }
            let mut o = members;
            let i = place_named(&o, key);
            if i < o.len() {
                assert(o.deep_view()[i as int] == (o@[i as int].0@, o@[i as int].1.deep_view()));
                let child = remove_path(o[i].1.clone(), path);
                put_at(&mut o, i, (key.to_owned(), child));
            }
            object(o)
        },
        other => other,
    }
}

/// Take a setting out of every spelling it may have been written in: under
/// `index` or at the top, flat or nested, with its `index.` prefix or without.
pub fn forget_setting(settings: Json, key: &str) -> (r: Json)
    ensures
        r.deep_view() == forgotten(settings.deep_view(), key@),
{
    let path = split(key, '.');
    let mut prefixed: Vec<String> = Vec::new();
    prefixed.push("index".to_owned());
    assert(prefixed.deep_view() =~= seq!["index"@] + path.deep_view().take(0));
    for i in 0..path.len()
        invariant
            prefixed.deep_view() == seq!["index"@] + path.deep_view().take(i as int),
    {
        push_to(&mut prefixed, path[i].clone());
        assert(prefixed.deep_view() =~= seq!["index"@] + path.deep_view().take(i + 1));
    }
    assert(path.deep_view().take(path@.len() as int) =~= path.deep_view());
    let a = remove_path(settings, &path);
    let b = remove_path(a, &prefixed);
    let c = remove_in(b, "index", &path);
    remove_in(c, "index", &prefixed)
}

// ---- what is shown -------------------------------------------------------------

/// Settings reported under `defaults` when they are asked for.
pub open spec fn defaults() -> JsonV {
    JsonV::Object(
        no_fields().push(
            (
                "index"@,
                JsonV::Object(
                    no_fields().push(("refresh_interval"@, JsonV::Text("1s"@))).push(
                        ("max_result_window"@, JsonV::Text("10000"@)),
                    ).push(("number_of_routing_shards"@, JsonV::Text("1"@))).push(
                        ("codec"@, JsonV::Text("default"@)),
                    ).push(("auto_expand_replicas"@, JsonV::Text("false"@))).push(
                        ("max_inner_result_window"@, JsonV::Text("100"@)),
                    ).push(("max_rescore_window"@, JsonV::Text("10000"@))).push(
                        (
                            "query"@,
                            JsonV::Object(
                                no_fields().push(
                                    (
                                        "default_field"@,
                                        JsonV::List(seq![JsonV::Text("*"@)]),
                                    ),
                                ),
                            ),
                        ),
                    ),
                ),
            ),
        ),
    )
}

/// Settings reported under `defaults` when they are asked for.
pub fn default_settings() -> (r: Json)
    ensures
        r.deep_view() == defaults(),
{
    let mut every: Vec<Json> = Vec::new();
    every.push(text("*"));
    assert(every.deep_view() =~= seq![JsonV::Text("*"@)]);
    let mut query = fields();
    field(&mut query, "default_field", list(every));
    let mut o = fields();
    field(&mut o, "refresh_interval", text("1s"));
    field(&mut o, "max_result_window", text("10000"));
    field(&mut o, "number_of_routing_shards", text("1"));
    field(&mut o, "codec", text("default"));
    field(&mut o, "auto_expand_replicas", text("false"));
    field(&mut o, "max_inner_result_window", text("100"));
    field(&mut o, "max_rescore_window", text("10000"));
    field(&mut o, "query", object(query));
    let mut all = fields();
    field(&mut all, "index", object(o));
    object(all)
}

/// Whether a setting is one of those asked for: its name fits one of the
/// patterns.
pub open spec fn is_asked(patterns: Seq<Seq<char>>) -> spec_fn((Seq<char>, JsonV)) -> bool {
    |e: (Seq<char>, JsonV)|
        exists|i: int|
            0 <= i < patterns.len() && fits(trimmed(#[trigger] patterns[i]), e.0)
}

/// The settings asked for, all of them when none are named.
pub open spec fn asked(flat: Seq<(Seq<char>, JsonV)>, name: Option<Seq<char>>) -> Seq<
    (Seq<char>, JsonV),
> {
    match name {
        Some(n) => if n == "_all"@ || n == "*"@ {
            flat
        } else {
            keep(flat, is_asked(cut(n, ',')))
        },
        None => flat,
    }
}

/// Settings as an answer shows them. How many routing shards an index was made
/// with is kept for routing, not as a setting anyone set, and is not listed.
pub open spec fn viewed(raw: JsonV, name: Option<Seq<char>>, flat: bool) -> JsonV {
    let all = without(flattened(raw, ""@, no_fields()), "index.velo_routing_shards"@);
    let kept = asked(all, name);
    if flat {
        JsonV::Object(kept)
    } else {
        nested_all(kept, kept.len())
    }
}

fn keep_asked(flat: &Vec<(String, Json)>, patterns: &Vec<String>) -> (r: Vec<(String, Json)>)
    ensures
        r.deep_view() == keep(flat.deep_view(), is_asked(patterns.deep_view())),
{
    let ghost fv = flat.deep_view();
    let ghost pv = patterns.deep_view();
    let ghost p = is_asked(pv);
    let mut r = fields();
    assert(fv.take(0).len() == 0);
    for i in 0..flat.len()
        invariant
            fv == flat.deep_view(),
            pv == patterns.deep_view(),
            p == is_asked(pv),
            r.deep_view() == keep(fv.take(i as int), p),
    {
        proof {
            lemma_take(fv, i as int);
            assert(fv[i as int] == (flat@[i as int].0@, flat@[i as int].1.deep_view()));
        }
        let key = flat[i].0.as_str();
        let mut found = false;
        for j in 0..patterns.len()
            invariant
                pv == patterns.deep_view(),
                found <==> exists|k: int| 0 <= k < j && fits(trimmed(#[trigger] pv[k]), key@),
        {
            assert(pv[j as int] == patterns@[j as int]@);
            if glob_match(trim(patterns[j].as_str()).as_str(), key) {
                assert(fits(trimmed(pv[j as int]), key@));
                found = true;
            }
        }
        if found {
            assert(p(fv[i as int]));
            push_to(&mut r, (flat[i].0.clone(), flat[i].1.clone()));
        } else {
            assert(!p(fv[i as int]));
        }
    }
    assert(fv.take(flat@.len() as int) =~= fv);
    r
}

/// Settings as an answer shows them: flat or nested, and only those named.
pub fn settings_view(raw: &Json, name: &Option<String>, flat: bool) -> (r: Json)
    ensures
        r.deep_view() == viewed(raw.deep_view(), name.deep_view(), flat),
{
    let mut all = fields();
    flatten_settings(raw, "", &mut all);
    let at = place_named(&all, "index.velo_routing_shards");
    if at < all.len() {
        let _gone = remove_at(&mut all, at);
    }
    let kept = match name {
        Some(n) => {
            if same(n.as_str(), "_all") || same(n.as_str(), "*") {
                all
            } else {
                let patterns = split(n.as_str(), ',');
                keep_asked(&all, &patterns)
            }
        },
        None => all,
    };
    if flat {
        object(kept)
    } else {
        nest_all(&kept)
    }
}

/// What a member is, or something else where it is not there.
pub open spec fn or_text(o: Seq<(Seq<char>, JsonV)>, key: Seq<char>, usual: Seq<char>) -> Seq<
    (Seq<char>, JsonV),
> {
    match lookup(o, key) {
        Some(v) => o,
        None => with(o, key, JsonV::Text(usual)),
    }
}

/// The version an index was made under.
pub open spec fn made_under(o: Seq<(Seq<char>, JsonV)>) -> Seq<char> {
    match lookup(o, "version"@) {
        Some(v) => match member(v, "created"@) {
            Some(JsonV::Text(s)) => s,
            _ => "136407827"@,
        },
        None => "136407827"@,
    }
}

/// Settings with a readable form beside each machine one.
pub open spec fn humanly(view: JsonV, millis: u64, written: Seq<char>) -> JsonV {
    match view {
        JsonV::Object(all) => match lookup(all, "index"@) {
            Some(JsonV::Object(o)) => {
                let a = with(o, "creation_date_string"@, JsonV::Text(written));
                let b = or_text(a, "creation_date"@, dec(millis as nat));
                let version = JsonV::Object(
                    no_fields().push(("created"@, JsonV::Text(made_under(b)))).push(
                        ("created_string"@, JsonV::Text(crate::OPENSEARCH_VERSION@)),
                    ),
                );
                JsonV::Object(with(all, "index"@, JsonV::Object(with(b, "version"@, version))))
            },
            _ => {
                let a = with(all, "index.creation_date_string"@, JsonV::Text(written));
                JsonV::Object(or_text(a, "index.creation_date"@, dec(millis as nat)))
            },
        },
        _ => view,
    }
}

fn or_insert(o: &mut Vec<(String, Json)>, key: &str, usual: &str)
    ensures
        final(o).deep_view() == or_text(old(o).deep_view(), key@, usual@),
{
    if get(o, key).is_none() {
        put(o, key.to_owned(), text(usual));
    }
}

fn version_made(o: &Vec<(String, Json)>) -> (r: String)
    ensures
        r@ == made_under(o.deep_view()),
{
    match get(o, "version") {
        Some(v) => match v.get("created") {
            Some(Json::Text(s)) => s.clone(),
            _ => "136407827".to_owned(),
        },
        None => "136407827".to_owned(),
    }
}

/// `human` asks for a readable form beside each machine one.
pub fn add_human_settings(view: Json, millis: u64, written: &str) -> (r: Json)
    ensures
        r.deep_view() == humanly(view.deep_view(), millis, written@),
{
    match view {
        Json::Object(members) => {
            proof {
                lemma_object(members);
            }
            let mut all = members;
            let index = match get(&all, "index") {
                Some(j) => Some(j.clone()),
                None => None,
            };
            match index {
                Some(Json::Object(inner)) => {
                    proof {
                        lemma_object(inner);
                    }
                    let mut o = inner;
                    put(&mut o, "creation_date_string".to_owned(), text(written));
                    or_insert(&mut o, "creation_date", decimal(millis).as_str());
                    let made = version_made(&o);
                    let mut version = fields();
                    field(&mut version, "created", text(made.as_str()));
                    field(&mut version, "created_string", text(crate::OPENSEARCH_VERSION));
                    put(&mut o, "version".to_owned(), object(version));
                    put(&mut all, "index".to_owned(), object(o));
                    object(all)
                },
                _ => {
                    put(&mut all, "index.creation_date_string".to_owned(), text(written));
                    or_insert(&mut all, "index.creation_date", decimal(millis).as_str());
                    object(all)
                },
            }
        },
        other => other,
    }
}

// ---- answering for some indices ------------------------------------------------

/// Whether an expression that fits no index is a name that is not there: no
/// pattern, not everything, and nobody said to ignore it.
pub open spec fn is_missing(found: nat, expr: Seq<char>, ignore: bool) -> bool {
    found == 0 && !expr.contains('*') && expr != "_all"@ && !ignore
}

/// Whether an expression that fits no index is a name that is not there.
pub fn missing(found: usize, expr: &str, ignore: bool) -> (r: bool)
    ensures
        r == is_missing(found as nat, expr@, ignore),
{
    found == 0 && !crate::text::has_char(expr, '*') && !same(expr, "_all") && !ignore
}

/// What is asked of the settings of some indices.
pub struct Asked {
    pub name: Option<String>,
    pub flat: bool,
    pub human: bool,
    pub defaults: bool,
}

pub struct AskedV {
    pub name: Option<Seq<char>>,
    pub flat: bool,
    pub human: bool,
    pub defaults: bool,
}

impl DeepView for Asked {
    type V = AskedV;

    open spec fn deep_view(&self) -> AskedV {
        AskedV {
            name: self.name.deep_view(),
            flat: self.flat,
            human: self.human,
            defaults: self.defaults,
        }
    }
}

/// An index and what its settings come to.
pub struct Holding {
    pub index: String,
    pub settings: Json,
    pub created_millis: u64,
    pub created_text: String,
}

pub struct HoldingV {
    pub index: Seq<char>,
    pub settings: JsonV,
    pub created_millis: u64,
    pub created_text: Seq<char>,
}

impl DeepView for Holding {
    type V = HoldingV;

    open spec fn deep_view(&self) -> HoldingV {
        HoldingV {
            index: self.index@,
            settings: self.settings.deep_view(),
            created_millis: self.created_millis,
            created_text: self.created_text@,
        }
    }
}

/// What is said of one index.
pub open spec fn holding_json(h: HoldingV, q: AskedV) -> JsonV {
    let shown = viewed(h.settings, q.name, q.flat);
    let o = no_fields().push(
        (
            "settings"@,
            if q.human {
                humanly(shown, h.created_millis, h.created_text)
            } else {
                shown
            },
        ),
    );
    JsonV::Object(
        if q.defaults {
            o.push(("defaults"@, viewed(defaults(), q.name, q.flat)))
        } else {
            o
        },
    )
}

pub open spec fn holdings(hs: Seq<HoldingV>, q: AskedV, n: nat) -> Seq<(Seq<char>, JsonV)>
    decreases n,
{
    if n == 0 {
        no_fields()
    } else {
        with(holdings(hs, q, (n - 1) as nat), hs[n - 1].index, holding_json(hs[n - 1], q))
    }
}

fn holding_in(h: &Holding, q: &Asked) -> (r: Json)
    ensures
        r.deep_view() == holding_json(h.deep_view(), q.deep_view()),
{
    let mut o = fields();
    let shown = settings_view(&h.settings, &q.name, q.flat);
    if q.human {
        field(
            &mut o,
            "settings",
            add_human_settings(shown, h.created_millis, h.created_text.as_str()),
        );
    } else {
        field(&mut o, "settings", shown);
    }
    if q.defaults {
        field(&mut o, "defaults", settings_view(&default_settings(), &q.name, q.flat));
    }
    object(o)
}

/// The settings of some indices, as they were asked for.
pub fn settings_response(hs: &Vec<Holding>, q: &Asked) -> (r: Json)
    ensures
        r.deep_view() == JsonV::Object(holdings(hs.deep_view(), q.deep_view(), hs@.len())),
{
    let mut out = fields();
    for i in 0..hs.len()
        invariant
            out.deep_view() == holdings(hs.deep_view(), q.deep_view(), i as nat),
    {
        assert(hs.deep_view()[i as int] == hs@[i as int].deep_view());
        put(&mut out, hs[i].index.clone(), holding_in(&hs[i], q));
    }
    object(out)
}

// ---- changing settings ---------------------------------------------------------

/// Settings an index takes only when it is made, or while it is closed. A
/// match is the setting itself or anything under it: `index.analysis` covers
/// every analyzer.
pub const NOT_DYNAMIC: [&'static str; 18] = [
    "index.number_of_shards",
    "index.number_of_routing_shards",
    "index.routing_partition_size",
    "index.codec",
    "index.soft_deletes.enabled",
    "index.sort",
    "index.analysis",
    "index.similarity",
    "index.store.type",
    "index.store.preload",
    "index.shard.check_on_startup",
    "index.replication.type",
    "index.creation_date",
    "index.queries.cache.enabled",
    "index.load_fixed_bitset_filters_eagerly",
    "index.knn",
    "index.format",
    "index.append_only.enabled",
];

/// The ones of those that stay as they were made, closed or not.
pub const FINAL: [&'static str; 6] = [
    "index.number_of_shards",
    "index.soft_deletes.enabled",
    "index.sort",
    "index.replication.type",
    "index.knn",
    "index.append_only.enabled",
];

/// Settings the node keeps for itself, which no request may write.
pub const PRIVATE: [&'static str; 4] = [
    "index.uuid",
    "index.version.created",
    "index.version.upgraded",
    "index.remote_store",
];

/// Whether a name is a setting or one under it.
pub open spec fn is_under(key: Seq<char>, setting: Seq<char>) -> bool {
    key == setting || begins(key, setting + "."@)
}

/// Whether `key` is `setting` or a setting under it.
pub fn under_setting(key: &str, setting: &str) -> (r: bool)
    ensures
        r == is_under(key@, setting@),
{
    same(key, setting) || starts_with(key, setting.to_owned().concat(".").as_str())
}

pub open spec fn is_private(key: Seq<char>) -> bool {
    exists|i: int| 0 <= i < PRIVATE@.len() && is_under(key, #[trigger] PRIVATE@[i]@)
}

pub open spec fn is_fixed(key: Seq<char>) -> bool {
    exists|i: int| 0 <= i < NOT_DYNAMIC@.len() && is_under(key, #[trigger] NOT_DYNAMIC@[i]@)
}

pub open spec fn is_final(key: Seq<char>) -> bool {
    exists|i: int| 0 <= i < FINAL@.len() && is_under(key, #[trigger] FINAL@[i]@)
}

fn private(key: &str) -> (r: bool)
    ensures
        r == is_private(key@),
{
    for i in 0..PRIVATE.len()
        invariant
            forall|j: int| 0 <= j < i ==> !is_under(key@, #[trigger] PRIVATE@[j]@),
    {
        if under_setting(key, PRIVATE[i]) {
            assert(is_under(key@, PRIVATE@[i as int]@));
            return true;
        }
    }
    false
}

fn fixed(key: &str) -> (r: bool)
    ensures
        r == is_fixed(key@),
{
    for i in 0..NOT_DYNAMIC.len()
        invariant
            forall|j: int| 0 <= j < i ==> !is_under(key@, #[trigger] NOT_DYNAMIC@[j]@),
    {
        if under_setting(key, NOT_DYNAMIC[i]) {
            assert(is_under(key@, NOT_DYNAMIC@[i as int]@));
            return true;
        }
    }
    false
}

fn unchangeable(key: &str) -> (r: bool)
    ensures
        r == is_final(key@),
{
    for i in 0..FINAL.len()
        invariant
            forall|j: int| 0 <= j < i ==> !is_under(key@, #[trigger] FINAL@[j]@),
    {
        if under_setting(key, FINAL[i]) {
            assert(is_under(key@, FINAL@[i as int]@));
            return true;
        }
    }
    false
}

/// An index a request is for: its blocks on metadata, each with the status a
/// request it stops is answered with, and whether it is closed. Nothing is
/// known of one that has gone since.
pub struct Target {
    pub name: String,
    pub state: Option<TargetState>,
}

pub struct TargetState {
    pub uuid: String,
    pub closed: bool,
    pub blocks: Vec<(String, u16)>,
}

pub struct TargetStateV {
    pub uuid: Seq<char>,
    pub closed: bool,
    pub blocks: Seq<(Seq<char>, u16)>,
}

pub struct TargetV {
    pub name: Seq<char>,
    pub state: Option<TargetStateV>,
}

impl DeepView for TargetState {
    type V = TargetStateV;

    open spec fn deep_view(&self) -> TargetStateV {
        TargetStateV {
            uuid: self.uuid@,
            closed: self.closed,
            blocks: self.blocks.deep_view(),
        }
    }
}

impl DeepView for Target {
    type V = TargetV;

    open spec fn deep_view(&self) -> TargetV {
        TargetV { name: self.name@, state: self.state.deep_view() }
    }
}

/// Whether a request names one setting, and that one a block on metadata:
/// the one change such a block does not stop, or nobody could lift it.
pub open spec fn lifts(keys: Seq<Seq<char>>) -> bool {
    keys.len() == 1 && (keys[0] == "index.blocks.read_only"@ || keys[0]
        == "index.blocks.read_only_allow_delete"@ || keys[0] == "index.blocks.metadata"@)
}

/// The worst status of some blocks.
pub open spec fn worst_status(blocks: Seq<(Seq<char>, u16)>) -> u16
    decreases blocks.len(),
{
    if blocks.len() == 0 {
        0
    } else {
        let before = worst_status(blocks.drop_last());
        if blocks.last().1 > before {
            blocks.last().1
        } else {
            before
        }
    }
}

pub open spec fn names_of(blocks: Seq<(Seq<char>, u16)>) -> Seq<Seq<char>> {
    blocks.map_values(|b: (Seq<char>, u16)| b.0)
}

/// What the blocks of the first indices say, and the worst of their statuses.
pub open spec fn blocked(targets: Seq<TargetV>, n: nat) -> (Seq<char>, u16)
    decreases n,
{
    if n == 0 {
        (""@, 0)
    } else {
        let (said, status) = blocked(targets, (n - 1) as nat);
        match targets[n - 1].state {
            Some(st) => if st.blocks.len() == 0 {
                (said, status)
            } else {
                let worst = worst_status(st.blocks);
                (
                    said + "index ["@ + targets[n - 1].name + "] blocked by: ["@ + joined(
                        names_of(st.blocks),
                        ", "@,
                    ) + "];"@,
                    if worst > status {
                        worst
                    } else {
                        status
                    },
                )
            },
            None => (said, status),
        }
    }
}

/// The first indices that are open, as a refusal names them.
pub open spec fn open_among(targets: Seq<TargetV>, n: nat) -> Seq<Seq<char>>
    decreases n,
{
    if n == 0 {
        Seq::empty()
    } else {
        let before = open_among(targets, (n - 1) as nat);
        match targets[n - 1].state {
            Some(st) => if st.closed {
                before
            } else {
                before.push("["@ + targets[n - 1].name + "/"@ + st.uuid + "]"@)
            },
            None => before,
        }
    }
}

pub open spec fn private_key() -> spec_fn(Seq<char>) -> bool {
    |k: Seq<char>| is_private(k)
}

pub open spec fn fixed_key() -> spec_fn(Seq<char>) -> bool {
    |k: Seq<char>| is_fixed(k)
}

pub open spec fn final_key() -> spec_fn(Seq<char>) -> bool {
    |k: Seq<char>| is_final(k)
}

/// A status a block stops a request with, or the usual one when it is none.
pub open spec fn block_status(status: u16) -> u16 {
    if 100 <= status <= 999 {
        status
    } else {
        403
    }
}

/// Why a settings update may not be applied to these indices, if it may not:
/// a private setting, a block, a setting that is not changed on an open index,
/// or one that is not changed at all.
pub open spec fn refusal(targets: Seq<TargetV>, keys: Seq<Seq<char>>) -> Option<AnswerV> {
    let p = find(keys, private_key());
    let (said, status) = blocked(targets, targets.len());
    let fixed = keep(keys, fixed_key());
    let open = open_among(targets, targets.len());
    let f = find(fixed, final_key());
    if p < keys.len() {
        Some(
            refused(400, "settings_exception"@, "can not update private setting ["@ + keys[p]
                    + "]; this setting is managed by OpenSearch"@),
        )
    } else if !lifts(keys) && said.len() > 0 {
        Some(
            refused(block_status(status), "cluster_block_exception"@, said),
        )
    } else if fixed.len() == 0 {
        None
    } else if open.len() > 0 {
        Some(
            refused(400, "illegal_argument_exception"@, "Can't update non dynamic settings [["@ + joined(fixed, ", "@)
                    + "]] for open indices ["@ + joined(open, ", "@) + "]"@),
        )
    } else if f < fixed.len() && targets.len() > 0 {
        Some(
            refused(400, "settings_exception"@, "final "@ + targets[0].name + " setting ["@ + fixed[f]
                    + "], not updateable"@),
        )
    } else {
        None
    }
}

fn block_names(blocks: &Vec<(String, u16)>) -> (r: (String, u16))
    ensures
        r.0@ == joined(names_of(blocks.deep_view()), ", "@),
        r.1 == worst_status(blocks.deep_view()),
{
    let ghost bv = blocks.deep_view();
    let mut names: Vec<String> = Vec::new();
    let mut worst: u16 = 0;
    assert(bv.take(0).len() == 0);
    for i in 0..blocks.len()
        invariant
            bv == blocks.deep_view(),
            names@.len() == i,
            forall|j: int| 0 <= j < i ==> names@[j]@ == (#[trigger] bv[j]).0,
            worst == worst_status(bv.take(i as int)),
    {
        proof {
            lemma_take(bv, i as int);
            assert(bv[i as int] == (blocks@[i as int].0@, blocks@[i as int].1));
        }
        names.push(blocks[i].0.clone());
        if blocks[i].1 > worst {
            worst = blocks[i].1;
        }
    }
    assert(bv.take(blocks@.len() as int) =~= bv);
    assert(names.deep_view() =~= names_of(bv));
    (join(&names, ", "), worst)
}

fn find_blocks(targets: &Vec<Target>) -> (r: (String, u16))
    ensures
        (r.0@, r.1) == blocked(targets.deep_view(), targets@.len()),
{
    let ghost tv = targets.deep_view();
    let mut said = "".to_owned();
    let mut status: u16 = 0;
    for i in 0..targets.len()
        invariant
            tv == targets.deep_view(),
            (said@, status) == blocked(tv, i as nat),
    {
        assert(tv[i as int] == targets@[i as int].deep_view());
        if let Some(st) = &targets[i].state {
            assert(st.blocks.deep_view().len() == st.blocks@.len());
            if st.blocks.len() > 0 {
                let (names, worst) = block_names(&st.blocks);
                said = said.concat("index [").concat(targets[i].name.as_str()).concat(
                    "] blocked by: [",
                ).concat(names.as_str()).concat("];");
                if worst > status {
                    status = worst;
                }
            }
        }
    }
    (said, status)
}

fn find_open(targets: &Vec<Target>) -> (r: Vec<String>)
    ensures
        r.deep_view() == open_among(targets.deep_view(), targets@.len()),
{
    let ghost tv = targets.deep_view();
    let mut r: Vec<String> = Vec::new();
    assert(r.deep_view() =~= Seq::<Seq<char>>::empty());
    for i in 0..targets.len()
        invariant
            tv == targets.deep_view(),
            r.deep_view() == open_among(tv, i as nat),
    {
        assert(tv[i as int] == targets@[i as int].deep_view());
        if let Some(st) = &targets[i].state {
            if !st.closed {
                push_to(
                    &mut r,
                    "[".to_owned().concat(targets[i].name.as_str()).concat("/").concat(
                        st.uuid.as_str(),
                    ).concat("]"),
                );
            }
        }
    }
    r
}

fn keep_fixed(keys: &Vec<String>) -> (r: Vec<String>)
    ensures
        r.deep_view() == keep(keys.deep_view(), fixed_key()),
{
    let ghost kv = keys.deep_view();
    let mut r: Vec<String> = Vec::new();
    assert(r.deep_view() =~= keep(kv.take(0), fixed_key()));
    for i in 0..keys.len()
        invariant
            kv == keys.deep_view(),
            r.deep_view() == keep(kv.take(i as int), fixed_key()),
    {
        proof {
            lemma_take(kv, i as int);
            assert(kv[i as int] == keys@[i as int]@);
        }
        if fixed(keys[i].as_str()) {
            push_to(&mut r, keys[i].clone());
        }
    }
    assert(kv.take(keys@.len() as int) =~= kv);
    r
}

fn is_lifting(keys: &Vec<String>) -> (r: bool)
    ensures
        r == lifts(keys.deep_view()),
{
    if keys.len() != 1 {
        return false;
    }
    assert(keys.deep_view()[0] == keys@[0]@);
    let k = keys[0].as_str();
    same(k, "index.blocks.read_only") || same(k, "index.blocks.read_only_allow_delete") || same(
        k,
        "index.blocks.metadata",
    )
}

/// Why a settings update may not be applied to these indices, if it may not.
///
/// Every refusal is decided before any index is changed: a request that one
/// index refuses changes none of them.
pub fn settings_refusal(targets: &Vec<Target>, keys: &Vec<String>) -> (r: Option<Answer>)
    ensures
        r.deep_view() == refusal(targets.deep_view(), keys.deep_view()),
{
    let ghost p = private_key();
    let f = |k: &String| -> (b: bool)
        ensures
            b == p(k.deep_view()),
        { private(k.as_str()) };
    let i = find_in(keys, f, Ghost(p));
    if i < keys.len() {
        assert(keys.deep_view()[i as int] == keys@[i as int]@);
        return Some(
            err(400, "settings_exception", ("can not update private setting [".to_owned().concat(
                    keys[i].as_str(),
                ).concat("]; this setting is managed by OpenSearch")).as_str()),
        );
    }
    let (said, status) = find_blocks(targets);
    if !is_lifting(keys) && !said.as_str().is_empty() {
        return Some(
            err(if 100 <= status && status <= 999 {
                    status
                } else {
                    403
                }, "cluster_block_exception", (said).as_str()),
        );
    }
    let fixed = keep_fixed(keys);
    assert(fixed.deep_view().len() == fixed@.len());
    if fixed.len() == 0 {
        return None;
    }
    let open = find_open(targets);
    assert(open.deep_view().len() == open@.len());
    if open.len() > 0 {
        return Some(
            err(400, "illegal_argument_exception", ("Can't update non dynamic settings [[".to_owned().concat(
                    join(&fixed, ", ").as_str(),
                ).concat("]] for open indices [").concat(join(&open, ", ").as_str()).concat("]")).as_str()),
        );
    }
    let ghost q = final_key();
    let g = |k: &String| -> (b: bool)
        ensures
            b == q(k.deep_view()),
        { unchangeable(k.as_str()) };
    let j = find_in(&fixed, g, Ghost(q));
    if j < fixed.len() && targets.len() > 0 {
        assert(fixed.deep_view()[j as int] == fixed@[j as int]@);
        assert(targets.deep_view()[0] == targets@[0].deep_view());
        return Some(
            err(400, "settings_exception", ("final ".to_owned().concat(targets[0].name.as_str()).concat(
                    " setting [",
                ).concat(fixed[j].as_str()).concat("], not updateable")).as_str()),
        );
    }
    None
}

// ---- the change itself ---------------------------------------------------------

/// What a settings body changes: it may arrive wrapped in `settings`, wrapped
/// in `index`, or flat.
pub open spec fn patch_of(body: JsonV) -> JsonV {
    let a = match member(body, "settings"@) {
        Some(s) => s,
        None => body,
    };
    match member(a, "index"@) {
        Some(i) => i,
        None => a,
    }
}

/// What a settings body changes.
pub fn patch_in(body: &Json) -> (r: &Json)
    ensures
        r.deep_view() == patch_of(body.deep_view()),
{
    let a = match body.get("settings") {
        Some(s) => s,
        None => body,
    };
    match a.get("index") {
        Some(i) => i,
        None => a,
    }
}

/// A setting's name with its `index.` before it.
pub open spec fn full_name(key: Seq<char>) -> Seq<char> {
    if begins(key, "index."@) {
        key
    } else {
        "index."@ + key
    }
}

/// A setting's name without its `index.` before it.
pub open spec fn short_name(key: Seq<char>) -> Seq<char> {
    if begins(key, "index."@) {
        key.skip("index."@.len() as int)
    } else {
        key
    }
}

/// Every setting a change names, as `index.<dotted name>`.
pub open spec fn keys_of(patch: JsonV) -> Seq<Seq<char>> {
    flattened(patch, ""@, no_fields()).map_values(|e: (Seq<char>, JsonV)| full_name(e.0))
}

/// Every setting a change names, as `index.<dotted name>`.
pub fn keys_in(patch: &Json) -> (r: Vec<String>)
    ensures
        r.deep_view() == keys_of(patch.deep_view()),
{
    let mut leaves = fields();
    flatten_settings(patch, "", &mut leaves);
    let ghost lv = leaves.deep_view();
    let mut r: Vec<String> = Vec::new();
    for i in 0..leaves.len()
        invariant
            lv == leaves.deep_view(),
            r@.len() == i,
            forall|j: int| 0 <= j < i ==> r@[j]@ == full_name((#[trigger] lv[j]).0),
    {
        assert(lv[i as int].0 == leaves@[i as int].0@);
        let key = leaves[i].0.as_str();
        if starts_with(key, "index.") {
            r.push(key.to_owned());
        } else {
            r.push("index.".to_owned().concat(key));
        }
    }
    assert(r.deep_view() =~= keys_of(patch.deep_view()));
    r
}

/// A document with another laid over it, member by member and all the way
/// down.
pub open spec fn laid_over(v: JsonV, patch: JsonV) -> JsonV
    decreases patch, 0nat,
{
    match patch {
        JsonV::Object(p) => JsonV::Object(
            laid_members(
                match v {
                    JsonV::Object(o) => o,
                    _ => no_fields(),
                },
                p,
                p.len(),
            ),
        ),
        leaf => leaf,
    }
}

pub open spec fn laid_members(
    o: Seq<(Seq<char>, JsonV)>,
    p: Seq<(Seq<char>, JsonV)>,
    n: nat,
) -> Seq<(Seq<char>, JsonV)>
    decreases p, n,
{
    if n == 0 || n > p.len() {
        o
    } else {
        let before = laid_members(o, p, (n - 1) as nat);
        let (k, x) = p[n - 1];
        with(
            before,
            k,
            match lookup(before, k) {
                Some(old) => laid_over(old, x),
                None => laid_over(JsonV::Null, x),
            },
        )
    }
}

/// A document with another laid over it, member by member and all the way
/// down.
pub fn deep_merge(v: Json, patch: &Json) -> (r: Json)
    ensures
        r.deep_view() == laid_over(v.deep_view(), patch.deep_view()),
    decreases *patch,
{
    match patch {
        Json::Object(p) => {
            proof {
                lemma_object(*p);
            }
            let mut o: Vec<(String, Json)> = match v {
                Json::Object(members) => {
                    proof {
                        lemma_object(members);
                    }
                    members
                },
                _ => fields(),
            };
            let ghost start = o.deep_view();
            let ghost pv = p.deep_view();
            for i in 0..p.len()
                invariant
                    *patch == Json::Object(*p),
                    pv == p.deep_view(),
                    o.deep_view() == laid_members(start, pv, i as nat),
            {
                assert(decreases_to!(*patch => patch->Object_0));
                assert(decreases_to!(*patch => p[i as int]));
                assert(pv[i as int] == (p@[i as int].0@, p@[i as int].1.deep_view()));
                let old = match get(&o, p[i].0.as_str()) {
                    Some(x) => x.clone(),
                    None => Json::Null,
                };
                let below = deep_merge(old, &p[i].1);
                put(&mut o, p[i].0.clone(), below);
            }
            object(o)
        },
        leaf => leaf.clone(),
    }
}

/// Whether a setting is already set, under `index` or at the top.
pub open spec fn is_set(settings: JsonV, key: Seq<char>) -> bool {
    setting_of(settings, "index."@ + short_name(key)) is Some || setting_of(
        settings,
        short_name(key),
    ) is Some
}

pub open spec fn is_unset(settings: JsonV) -> spec_fn((Seq<char>, JsonV)) -> bool {
    |e: (Seq<char>, JsonV)| !is_set(settings, e.0)
}

/// A change without what is already set.
pub open spec fn filling(settings: JsonV, patch: JsonV) -> JsonV {
    match patch {
        JsonV::Object(o) => JsonV::Object(keep(o, is_unset(settings))),
        _ => patch,
    }
}

/// A document without the first of the settings named, in every shape.
pub open spec fn cleared(
    v: JsonV,
    leaves: Seq<(Seq<char>, JsonV)>,
    nulls_only: bool,
    n: nat,
) -> JsonV
    decreases n,
{
    if n == 0 {
        v
    } else {
        let before = cleared(v, leaves, nulls_only, (n - 1) as nat);
        if nulls_only && !(leaves[n - 1].1 is Null) {
            before
        } else {
            forgotten(before, short_name(leaves[n - 1].0))
        }
    }
}

/// An index's settings once a change has been made: each setting named is
/// taken out in every shape before the new value goes in, so that no older
/// spelling wins, and a null takes it out for good.
pub open spec fn changed(settings: JsonV, patch: JsonV, preserve: bool) -> JsonV {
    let start = match settings {
        JsonV::Object(o) => settings,
        _ => JsonV::Object(no_fields()),
    };
    let p = if preserve {
        filling(start, patch)
    } else {
        patch
    };
    let leaves = flattened(p, ""@, no_fields());
    let bare = cleared(start, leaves, false, leaves.len());
    let o = bare->Object_0;
    let slot = match lookup(o, "index"@) {
        Some(i) => i,
        None => JsonV::Object(no_fields()),
    };
    let merged = JsonV::Object(with(o, "index"@, laid_over(slot, p)));
    cleared(merged, leaves, true, leaves.len())
}

fn clear(v: Json, leaves: &Vec<(String, Json)>, nulls_only: bool) -> (r: Json)
    ensures
        r.deep_view() == cleared(v.deep_view(), leaves.deep_view(), nulls_only, leaves@.len()),
{
    let ghost start = v.deep_view();
    let ghost lv = leaves.deep_view();
    let mut r = v;
    for i in 0..leaves.len()
        invariant
            lv == leaves.deep_view(),
            r.deep_view() == cleared(start, lv, nulls_only, i as nat),
    {
        assert(lv[i as int] == (leaves@[i as int].0@, leaves@[i as int].1.deep_view()));
        let null = match &leaves[i].1 {
            Json::Null => true,
            _ => false,
        };
        if !nulls_only || null {
            let name = match strip_prefix(leaves[i].0.as_str(), "index.") {
                Some(rest) => rest,
                None => leaves[i].0.clone(),
            };
            r = forget_setting(r, name.as_str());
        }
    }
    r
}

fn fill(settings: &Json, patch: &Json) -> (r: Json)
    ensures
        r.deep_view() == filling(settings.deep_view(), patch.deep_view()),
{
    match patch {
        Json::Object(o) => {
            proof {
                lemma_object(*o);
            }
            let ghost ov = o.deep_view();
            let ghost sv = settings.deep_view();
            let mut kept = fields();
            assert(ov.take(0).len() == 0);
            for i in 0..o.len()
                invariant
                    ov == o.deep_view(),
                    sv == settings.deep_view(),
                    kept.deep_view() == keep(ov.take(i as int), is_unset(sv)),
            {
                proof {
                    lemma_take(ov, i as int);
                    assert(ov[i as int] == (o@[i as int].0@, o@[i as int].1.deep_view()));
                }
                let name = match strip_prefix(o[i].0.as_str(), "index.") {
                    Some(rest) => rest,
                    None => o[i].0.clone(),
                };
                let set = setting(
                    settings,
                    "index.".to_owned().concat(name.as_str()).as_str(),
                ).is_some() || setting(settings, name.as_str()).is_some();
                if !set {
                    push_to(&mut kept, (o[i].0.clone(), o[i].1.clone()));
                }
            }
            assert(ov.take(o@.len() as int) =~= ov);
            object(kept)
        },
        other => other.clone(),
    }
}

/// A document that is an object stays one, whatever is taken out of it.
proof fn lemma_stays_object(v: JsonV, leaves: Seq<(Seq<char>, JsonV)>, nulls_only: bool, n: nat)
    requires
        v is Object,
    ensures
        cleared(v, leaves, nulls_only, n) is Object,
    decreases n,
{
    if n > 0 {
        lemma_stays_object(v, leaves, nulls_only, (n - 1) as nat);
    }
}

/// An index's settings once a change has been made.
///
/// A setting may be held in any of the shapes it was written in -- nested,
/// dotted, with or without `index.` -- and a lookup takes the first it finds.
/// Each setting named is taken out in every shape before the new value goes
/// in, and a null takes it out for good -- which is what brings the default
/// back rather than whatever the index was created with. `preserve` says to
/// fill in only what is not already set.
pub fn put_settings(settings: &Json, patch: &Json, preserve: bool) -> (r: Json)
    ensures
        r.deep_view() == changed(settings.deep_view(), patch.deep_view(), preserve),
{
    let start = match settings {
        Json::Object(_) => settings.clone(),
        _ => object(fields()),
    };
    proof {
        match settings {
            Json::Object(o) => {
                lemma_object(*o);
            },
            _ => {},
        }
    }
    let ghost sv = start.deep_view();
    let p = if preserve {
        fill(&start, patch)
    } else {
        patch.clone()
    };
    let mut leaves = fields();
    flatten_settings(&p, "", &mut leaves);
    let bare = clear(start, &leaves, false);
    proof {
        lemma_stays_object(sv, leaves.deep_view(), false, leaves@.len());
    }
    let merged = match bare {
        Json::Object(members) => {
            proof {
                lemma_object(members);
            }
            let mut o = members;
            let slot = match get(&o, "index") {
                Some(i) => i.clone(),
                None => object(fields()),
            };
            let below = deep_merge(slot, &p);
            put(&mut o, "index".to_owned(), below);
            object(o)
        },
        other => other,
    };
    clear(merged, &leaves, true)
}

/// What the settings of some indices come to under one request: it is refused
/// and none of them changes, or every one of them does.
pub open spec fn updated(
    targets: Seq<TargetV>,
    held: Seq<JsonV>,
    body: JsonV,
    preserve: bool,
) -> Result<Seq<JsonV>, AnswerV> {
    let patch = patch_of(body);
    match refusal(targets, keys_of(patch)) {
        Some(why) => Err(why),
        None => Ok(held.map_values(|s: JsonV| changed(s, patch, preserve))),
    }
}

/// What the settings of some indices come to under one request.
pub fn update_settings(
    targets: &Vec<Target>,
    held: &Vec<Json>,
    body: &Json,
    preserve: bool,
) -> (r: Result<Vec<Json>, Answer>)
    ensures
        match r {
            Ok(now) => updated(
                targets.deep_view(),
                held.deep_view(),
                body.deep_view(),
                preserve,
            ) == Ok::<Seq<JsonV>, AnswerV>(now.deep_view()),
            Err(why) => updated(
                targets.deep_view(),
                held.deep_view(),
                body.deep_view(),
                preserve,
            ) == Err::<Seq<JsonV>, AnswerV>(why.deep_view()),
        },
{
    let patch = patch_in(body);
    let keys = keys_in(patch);
    if let Some(why) = settings_refusal(targets, &keys) {
        return Err(why);
    }
    let ghost hv = held.deep_view();
    let ghost pv = patch.deep_view();
    let mut now: Vec<Json> = Vec::new();
    for i in 0..held.len()
        invariant
            hv == held.deep_view(),
            pv == patch.deep_view(),
            now@.len() == i,
            forall|j: int|
                0 <= j < i ==> now@[j].deep_view() == changed(#[trigger] hv[j], pv, preserve),
    {
        assert(hv[i as int] == held@[i as int].deep_view());
        now.push(put_settings(&held[i], patch, preserve));
    }
    assert(now.deep_view() =~= hv.map_values(|s: JsonV| changed(s, pv, preserve)));
    Ok(now)
}

/// Whether no name is in a list twice.
pub open spec fn distinct(o: Seq<(Seq<char>, JsonV)>) -> bool {
    forall|i: int, j: int| 0 <= i < j < o.len() ==> #[trigger] o[i].0 != #[trigger] o[j].0
}

/// Whether every name of a list is one of another's.
spec fn no_more_names(a: Seq<(Seq<char>, JsonV)>, b: Seq<(Seq<char>, JsonV)>) -> bool {
    forall|k: Seq<char>| lookup(b, k) is None ==> #[trigger] lookup(a, k) is None
}

proof fn lemma_without(o: Seq<(Seq<char>, JsonV)>, key: Seq<char>)
    requires
        distinct(o),
    ensures
        distinct(without(o, key)),
        lookup(without(o, key), key) is None,
        no_more_names(without(o, key), o),
{
    let i = find(o, named(key));
    crate::list::lemma_found(o, named(key));
    let w = without(o, key);
    lemma_absent(w, key);
    assert forall|j: int| 0 <= j < w.len() implies (#[trigger] w[j]).0 != key by {
        if i < o.len() {
            assert(o[i].0 == key);
            if j >= i {
                assert(w[j] == o[j + 1]);
            } else {
                assert(w[j] == o[j]);
            }
        } else {
            assert(!named(key)(o[j]));
        }
    }
    assert forall|k: Seq<char>| lookup(o, k) is None implies #[trigger] lookup(w, k) is None by {
        lemma_absent(o, k);
        lemma_absent(w, k);
    }
}

proof fn lemma_update(o: Seq<(Seq<char>, JsonV)>, i: int, v: JsonV)
    requires
        distinct(o),
        0 <= i < o.len(),
    ensures
        distinct(o.update(i, (o[i].0, v))),
        no_more_names(o.update(i, (o[i].0, v)), o),
{
    let w = o.update(i, (o[i].0, v));
    assert forall|a: int, b: int| 0 <= a < b < w.len() implies #[trigger] w[a].0
        != #[trigger] w[b].0 by {
        assert(o[a].0 != o[b].0);
    }
    assert forall|k: Seq<char>| lookup(o, k) is None implies #[trigger] lookup(w, k) is None by {
        lemma_absent(o, k);
        lemma_absent(w, k);
    }
}

proof fn lemma_without_path(o: Seq<(Seq<char>, JsonV)>, path: Seq<Seq<char>>)
    requires
        distinct(o),
    ensures
        without_path(JsonV::Object(o), path) is Object,
        distinct(without_path(JsonV::Object(o), path)->Object_0),
        lookup(without_path(JsonV::Object(o), path)->Object_0, joined(path, "."@)) is None,
        no_more_names(without_path(JsonV::Object(o), path)->Object_0, o),
{
    let p = without(o, joined(path, "."@));
    lemma_without(o, joined(path, "."@));
    if path.len() > 1 {
        let i = find(p, named(path[0]));
        crate::list::lemma_found(p, named(path[0]));
        if i < p.len() {
            lemma_update(p, i, without_path(p[i].1, path.skip(1)));
        }
    }
}

proof fn lemma_without_in(o: Seq<(Seq<char>, JsonV)>, key: Seq<char>, path: Seq<Seq<char>>)
    requires
        distinct(o),
    ensures
        without_in(JsonV::Object(o), key, path) is Object,
        distinct(without_in(JsonV::Object(o), key, path)->Object_0),
        no_more_names(without_in(JsonV::Object(o), key, path)->Object_0, o),
{
    let i = find(o, named(key));
    crate::list::lemma_found(o, named(key));
    if i < o.len() {
        lemma_update(o, i, without_path(o[i].1, path));
    }
}

/// A setting that was forgotten is not at the top, and nothing has come there.
proof fn lemma_forgotten(o: Seq<(Seq<char>, JsonV)>, key: Seq<char>)
    requires
        distinct(o),
    ensures
        forgotten(JsonV::Object(o), key) is Object,
        lookup(
            forgotten(JsonV::Object(o), key)->Object_0,
            joined(seq!["index"@] + cut(key, '.'), "."@),
        ) is None,
        no_more_names(forgotten(JsonV::Object(o), key)->Object_0, o),
{
    let path = cut(key, '.');
    let prefixed = seq!["index"@] + path;
    lemma_without_path(o, path);
    let a = without_path(JsonV::Object(o), path)->Object_0;
    lemma_without_path(a, prefixed);
    let b = without_path(JsonV::Object(a), prefixed)->Object_0;
    lemma_without_in(b, "index"@, path);
    let c = without_in(JsonV::Object(b), "index"@, path)->Object_0;
    lemma_without_in(c, "index"@, prefixed);
}

/// The steps of a setting under `index`.
pub open spec fn steps(key: Seq<char>) -> Seq<Seq<char>> {
    cut("index."@ + key, '.')
}

proof fn lemma_steps(key: Seq<char>)
    ensures
        steps(key) == seq!["index"@] + cut(key, '.'),
        steps(key).len() >= 2,
        "index"@.len() == 5,
        joined(steps(key), "."@) == "index."@ + key,
{
    reveal_strlit("index");
    reveal_strlit("index.");
    assert("index."@ =~= "index"@.push('.'));
    crate::text::lemma_cut_after("index"@, '.', key);
    crate::text::lemma_cut_some(key, '.');
    lemma_joined_cut("index."@ + key);
}

/// What a lookup finds when no name at the top leads there but `index`.
proof fn lemma_reads_under_index(
    o: Seq<(Seq<char>, JsonV)>,
    parts: Seq<Seq<char>>,
    n: nat,
    found: JsonV,
)
    requires
        1 <= n <= parts.len(),
        parts[0] == "index"@,
        lookup(o, "index"@) is Some,
        walk(lookup(o, "index"@)->0, parts.skip(1)) == Some(found),
        forall|k: int|
            2 <= k <= n ==> #[trigger] lookup(o, joined(parts.take(k), "."@)) is None,
    ensures
        crate::json::longest(o, parts, n) == Some(found),
    decreases n,
{
    if n == 1 {
        assert(parts.take(1) =~= seq!["index"@]);
        assert(joined(parts.take(1), "."@) == "index"@);
    } else {
        assert(lookup(o, joined(parts.take(n as int), "."@)) is None);
        lemma_reads_under_index(o, parts, (n - 1) as nat, found);
    }
}

/// A setting that was written is what is read, whichever shape it was held in
/// before. Left out is one held in part of a dotted name at the top, as
/// `index.blocks` with `write` under it is.
pub proof fn law_a_setting_written_is_what_is_read(settings: JsonV, key: Seq<char>, value: JsonV)
    requires
        settings is Object,
        distinct(settings->Object_0),
        !begins(key, "index."@),
        !(value is Object),
        !(value is Null),
        forall|k: int|
            2 <= k < steps(key).len() ==> #[trigger] lookup(
                settings->Object_0,
                joined(steps(key).take(k), "."@),
            ) is None,
    ensures
        setting_of(
            changed(settings, JsonV::Object(seq![(key, value)]), false),
            "index."@ + key,
        ) == Some(value),
{
    let patch = JsonV::Object(seq![(key, value)]);
    let members = seq![(key, value)];
    let leaves = flattened(patch, ""@, no_fields());
    reveal_strlit("");
    assert(flattened_members(members, ""@, no_fields(), 0) == no_fields());
    assert(flattened_members(members, ""@, no_fields(), 1) == flattened(
        value,
        key,
        no_fields(),
    ));
    assert(leaves == with(no_fields(), key, value));
    assert(leaves =~= seq![(key, value)]);
    let o = settings->Object_0;
    lemma_forgotten(o, key);
    lemma_steps(key);
    assert(cleared(settings, leaves, false, 0) == settings);
    let bare = cleared(settings, leaves, false, 1);
    assert(bare == forgotten(settings, key));
    let p = bare->Object_0;
    let slot = match lookup(p, "index"@) {
        Some(i) => i,
        None => JsonV::Object(no_fields()),
    };
    let inner = match slot {
        JsonV::Object(s) => s,
        _ => no_fields(),
    };
    let laid = laid_over(slot, patch);
    assert(laid_members(inner, members, 0) == inner);
    assert(laid == JsonV::Object(laid_members(inner, members, 1)));
    assert(members[0] == (key, value));
    assert(laid_over(JsonV::Null, value) == value);
    assert(forall|v: JsonV| #[trigger] laid_over(v, value) == value);
    reveal_with_fuel(laid_members, 2);
    assert(laid_members(inner, members, 1) == with(inner, key, value));
    assert(laid == JsonV::Object(with(inner, key, value)));
    let all = with(p, "index"@, laid);
    assert(cleared(JsonV::Object(all), leaves, true, 0) == JsonV::Object(all));
    assert(cleared(JsonV::Object(all), leaves, true, 1) == JsonV::Object(all));
    assert(changed(settings, patch, false) == JsonV::Object(all));
    // the name under `index` is the whole of what is left to look up
    let parts = steps(key);
    let rest = parts.skip(1);
    assert(rest =~= cut(key, '.'));
    lemma_joined_cut(key);
    lemma_with(inner, key, value, key);
    assert(rest.take(rest.len() as int) =~= rest);
    assert(rest.skip(rest.len() as int).len() == 0);
    assert(walk(value, rest.skip(rest.len() as int)) == Some(value));
    assert(walk(laid, rest) == Some(value));
    lemma_with(p, "index"@, laid, "index"@);
    assert forall|k: int| 2 <= k <= parts.len() implies #[trigger] lookup(
        all,
        joined(parts.take(k), "."@),
    ) is None by {
        let name = joined(parts.take(k), "."@);
        reveal_strlit(".");
        crate::text::lemma_joined_longer(parts.take(k), "."@);
        assert(parts.take(k)[0] == "index"@);
        assert(name != "index"@);
        lemma_with(p, "index"@, laid, name);
        if k == parts.len() {
            assert(parts.take(k) =~= parts);
        } else {
            assert(lookup(o, name) is None);
        }
        assert(lookup(p, name) is None);
    }
    lemma_reads_under_index(all, parts, parts.len(), value);
}

/// A request that is refused changes nothing, and one is refused for any of
/// these whatever else it holds: a private setting, and on an open index a
/// setting that is not changed there.
pub proof fn law_a_private_or_fixed_setting_is_refused(targets: Seq<TargetV>, keys: Seq<Seq<char>>)
    ensures
        (exists|i: int| 0 <= i < keys.len() && is_private(#[trigger] keys[i])) ==> refusal(
            targets,
            keys,
        ) is Some,
        (exists|i: int| 0 <= i < keys.len() && is_fixed(#[trigger] keys[i])) && open_among(
            targets,
            targets.len(),
        ).len() > 0 ==> refusal(targets, keys) is Some,
{
    crate::list::lemma_found(keys, private_key());
    if exists|i: int| 0 <= i < keys.len() && is_fixed(#[trigger] keys[i]) {
        let i = choose|i: int| 0 <= i < keys.len() && is_fixed(#[trigger] keys[i]);
        lemma_kept_some(keys, fixed_key(), i);
    }
}

proof fn lemma_kept_some(s: Seq<Seq<char>>, p: spec_fn(Seq<char>) -> bool, i: int)
    requires
        0 <= i < s.len(),
        p(s[i]),
    ensures
        keep(s, p).len() > 0,
    decreases s.len(),
{
    if i < s.len() - 1 {
        lemma_kept_some(s.drop_last(), p, i);
    }
}

} // verus!
