//! What a query string asks for.

use vstd::prelude::*;

use super::failed::{bad_query, failure, query_failure, Failed, FailedV};
use crate::json::{field, fields, no_fields, object, text, whole, JsonV, NumberV};
use crate::list::{find_in, get, lookup, push_to};
use crate::number::{parse_scaled, parse_u64, scaled, unsigned};
use crate::text::{
    begins, chars_of, first_in, has_text_in, lower, lowered, part, same, starts_with, string_of,
    substitute, substituted,
};

verus! {

/// A query string as the pairs it stands for.
pub uninterp spec fn form(query: Seq<char>) -> Seq<(Seq<char>, Seq<char>)>;

/// `form_urlencoded::parse`: the pairs of a query string in their order, names
/// and values decoded, the same whenever they are asked for. Nothing stands for
/// no pairs.
#[verifier::external_body]
pub(crate) fn form_pairs(query: &str) -> (r: Vec<(String, String)>)
    ensures
        r.deep_view() == form(query@),
        query@.len() == 0 ==> r@.len() == 0,
{
    form_urlencoded::parse(query.as_bytes()).into_owned().collect()
}

/// A query string as pairs, in order, so that a key given twice is a list.
pub fn query_pairs(query: &Option<String>) -> (r: Vec<(String, String)>)
    ensures
        r.deep_view() == asked_pairs(query.deep_view()),
{
    match query {
        Some(q) => form_pairs(q.as_str()),
        None => form_pairs(""),
    }
}

// ---- looking for saved objects -------------------------------------------------

/// What a query asks to look for. A parameter that may be given more than once
/// is a list. The reference is as it was written.
pub struct Looking {
    pub types: Vec<String>,
    pub fields: Vec<String>,
    pub search_fields: Vec<String>,
    pub namespaces: Vec<String>,
    pub search: Option<String>,
    pub page: u64,
    pub per_page: u64,
    pub sort_field: Option<String>,
    pub sort_order: Option<String>,
    pub default_search_operator: String,
    pub has_reference: Option<String>,
    pub filter: Option<String>,
}

#[verifier::ext_equal]
pub struct LookingV {
    pub types: Seq<Seq<char>>,
    pub fields: Seq<Seq<char>>,
    pub search_fields: Seq<Seq<char>>,
    pub namespaces: Seq<Seq<char>>,
    pub search: Option<Seq<char>>,
    pub page: u64,
    pub per_page: u64,
    pub sort_field: Option<Seq<char>>,
    pub sort_order: Option<Seq<char>>,
    pub default_search_operator: Seq<char>,
    pub has_reference: Option<Seq<char>>,
    pub filter: Option<Seq<char>>,
}

impl DeepView for Looking {
    type V = LookingV;

    open spec fn deep_view(&self) -> LookingV {
        LookingV {
            types: self.types.deep_view(),
            fields: self.fields.deep_view(),
            search_fields: self.search_fields.deep_view(),
            namespaces: self.namespaces.deep_view(),
            search: self.search.deep_view(),
            page: self.page,
            per_page: self.per_page,
            sort_field: self.sort_field.deep_view(),
            sort_order: self.sort_order.deep_view(),
            default_search_operator: self.default_search_operator@,
            has_reference: self.has_reference.deep_view(),
            filter: self.filter.deep_view(),
        }
    }
}

/// What a query that asks for nothing looks for.
pub open spec fn nothing_said() -> LookingV {
    LookingV {
        types: Seq::empty(),
        fields: Seq::empty(),
        search_fields: Seq::empty(),
        namespaces: Seq::empty(),
        search: None,
        page: 1,
        per_page: 20,
        sort_field: None,
        sort_order: None,
        default_search_operator: "OR"@,
        has_reference: None,
        filter: None,
    }
}

/// A number, or another where it does not read as one.
pub open spec fn number_or(s: Seq<char>, usual: u64) -> u64 {
    match unsigned(s) {
        Some(n) => if n <= u64::MAX {
            n as u64
        } else {
            usual
        },
        None => usual,
    }
}

/// What a query asks for once it has said one thing more.
pub open spec fn saying(l: LookingV, key: Seq<char>, value: Seq<char>) -> LookingV {
    if key == "type"@ {
        LookingV { types: l.types.push(value), ..l }
    } else if key == "fields"@ {
        LookingV { fields: l.fields.push(value), ..l }
    } else if key == "search_fields"@ {
        LookingV { search_fields: l.search_fields.push(value), ..l }
    } else if key == "search"@ {
        LookingV { search: Some(value), ..l }
    } else if key == "page"@ {
        LookingV { page: number_or(value, 1), ..l }
    } else if key == "per_page"@ {
        LookingV { per_page: number_or(value, 20), ..l }
    } else if key == "sort_field"@ {
        LookingV { sort_field: Some(value), ..l }
    } else if key == "sort_order"@ {
        LookingV { sort_order: Some(value), ..l }
    } else if key == "default_search_operator"@ {
        LookingV { default_search_operator: value, ..l }
    } else if key == "has_reference"@ {
        LookingV { has_reference: Some(value), ..l }
    } else if key == "namespaces"@ {
        LookingV { namespaces: l.namespaces.push(value), ..l }
    } else if key == "filter"@ {
        LookingV { filter: Some(value), ..l }
    } else {
        l
    }
}

/// What the first pairs of a query ask to look for.
pub open spec fn looked(pairs: Seq<(Seq<char>, Seq<char>)>, n: nat) -> LookingV
    decreases n,
{
    if n == 0 {
        nothing_said()
    } else {
        saying(looked(pairs, (n - 1) as nat), pairs[n - 1].0, pairs[n - 1].1)
    }
}

fn read_number(s: &str, usual: u64) -> (n: u64)
    ensures
        n == number_or(s@, usual),
{
    match parse_u64(s) {
        Some(n) => n,
        None => usual,
    }
}

fn say_nothing() -> (l: Looking)
    ensures
        l.deep_view() == nothing_said(),
{
    let l = Looking {
        types: Vec::new(),
        fields: Vec::new(),
        search_fields: Vec::new(),
        namespaces: Vec::new(),
        search: None,
        page: 1,
        per_page: 20,
        sort_field: None,
        sort_order: None,
        default_search_operator: "OR".to_owned(),
        has_reference: None,
        filter: None,
    };
    assert(l.deep_view() =~= nothing_said());
    l
}

impl Looking {
    fn say(&mut self, key: &str, value: String)
        ensures
            final(self).deep_view() == saying(old(self).deep_view(), key@, value@),
    {
        if same(key, "type") {
            push_to(&mut self.types, value);
        } else if same(key, "fields") {
            push_to(&mut self.fields, value);
        } else if same(key, "search_fields") {
            push_to(&mut self.search_fields, value);
        } else if same(key, "search") {
            self.search = Some(value);
        } else if same(key, "page") {
            self.page = read_number(value.as_str(), 1);
        } else if same(key, "per_page") {
            self.per_page = read_number(value.as_str(), 20);
        } else if same(key, "sort_field") {
            self.sort_field = Some(value);
        } else if same(key, "sort_order") {
            self.sort_order = Some(value);
        } else if same(key, "default_search_operator") {
            self.default_search_operator = value;
        } else if same(key, "has_reference") {
            self.has_reference = Some(value);
        } else if same(key, "namespaces") {
            push_to(&mut self.namespaces, value);
        } else if same(key, "filter") {
            self.filter = Some(value);
        }
    }
}

/// What some pairs ask to look for.
pub fn looking_in(pairs: &Vec<(String, String)>) -> (l: Looking)
    ensures
        l.deep_view() == looked(pairs.deep_view(), pairs@.len()),
{
    let ghost pv = pairs.deep_view();
    let mut l = say_nothing();
    for i in 0..pairs.len()
        invariant
            pv == pairs.deep_view(),
            l.deep_view() == looked(pv, i as nat),
    {
        assert(pv[i as int] == (pairs@[i as int].0@, pairs@[i as int].1@));
        l.say(pairs[i].0.as_str(), pairs[i].1.clone());
    }
    l
}

/// What a query string asks to look for.
pub fn looking_from(query: &str) -> (l: Looking)
    ensures
        l.deep_view() == looked(form(query@), form(query@).len()),
{
    let pairs = form_pairs(query);
    assert(pairs.deep_view().len() == pairs@.len());
    looking_in(&pairs)
}

/// What is said of a query that names no type.
pub open spec fn no_type() -> FailedV {
    query_failure("type"@, "expected at least one defined value but got [undefined]"@)
}

/// What is looked for, or that no type was named.
pub fn find(looking: Looking) -> (r: Result<Looking, Failed>)
    ensures
        match r {
            Ok(l) => looking.deep_view().types.len() > 0 && l == looking,
            Err(f) => looking.deep_view().types.len() == 0 && f.deep_view() == no_type(),
        },
{
    assert(looking.types.deep_view().len() == looking.types@.len());
    if looking.types.len() == 0 {
        Err(bad_query("type", "expected at least one defined value but got [undefined]"))
    } else {
        Ok(looking)
    }
}

/// A query as the management page spells it, spelled as the others do.
pub open spec fn respelled(query: Seq<char>) -> Seq<char> {
    substituted(
        substituted(query, "perPage="@, "per_page="@),
        "sortField="@,
        "sort_field="@,
    )
}

/// The management page spells two of its parameters differently.
pub fn management_query(query: &str) -> (r: String)
    ensures
        r@ == respelled(query@),
{
    let a = substitute(query, "perPage=", "per_page=");
    substitute(a.as_str(), "sortField=", "sort_field=")
}

/// What the management page looks for. It is stricter than the others: it must
/// be told a type, and it does not take `searchFields` at all.
pub open spec fn managed(query: Seq<char>) -> Result<LookingV, FailedV> {
    let pairs = form(respelled(query));
    let l = looked(pairs, pairs.len());
    if first_in(query, "searchFields="@) is Some {
        Err(query_failure("searchFields"@, "definition for this key is missing"@))
    } else if l.types.len() == 0 {
        Err(no_type())
    } else {
        Ok(l)
    }
}

/// What the management page looks for.
pub fn management_find(query: &str) -> (r: Result<Looking, Failed>)
    ensures
        match r {
            Ok(l) => managed(query@) == Ok::<LookingV, FailedV>(l.deep_view()),
            Err(f) => managed(query@) == Err::<LookingV, FailedV>(f.deep_view()),
        },
{
    if has_text_in(query, "searchFields=") {
        return Err(bad_query("searchFields", "definition for this key is missing"));
    }
    self::find(looking_from(management_query(query).as_str()))
}

/// The types a query about an object's relations names, and how many it asks
/// for, out of its first pairs.
pub open spec fn related(pairs: Seq<(Seq<char>, Seq<char>)>, n: nat) -> (Seq<Seq<char>>, u64)
    decreases n,
{
    if n == 0 {
        (Seq::empty(), 10_000)
    } else {
        let (types, size) = related(pairs, (n - 1) as nat);
        let (key, value) = pairs[n - 1];
        if key == "savedObjectTypes"@ {
            (types.push(value), size)
        } else if key == "size"@ {
            (types, number_or(value, 10_000))
        } else {
            (types, size)
        }
    }
}

/// The types a query about an object's relations names, and how many it asks
/// for.
pub fn relationships(pairs: &Vec<(String, String)>) -> (r: (Vec<String>, u64))
    ensures
        (r.0.deep_view(), r.1) == related(pairs.deep_view(), pairs@.len()),
{
    let ghost pv = pairs.deep_view();
    let mut types: Vec<String> = Vec::new();
    let mut size: u64 = 10_000;
    assert(types.deep_view() =~= Seq::<Seq<char>>::empty());
    for i in 0..pairs.len()
        invariant
            pv == pairs.deep_view(),
            (types.deep_view(), size) == related(pv, i as nat),
    {
        assert(pv[i as int] == (pairs@[i as int].0@, pairs@[i as int].1@));
        if same(pairs[i].0.as_str(), "savedObjectTypes") {
            push_to(&mut types, pairs[i].1.clone());
        } else if same(pairs[i].0.as_str(), "size") {
            size = read_number(pairs[i].1.as_str(), 10_000);
        }
    }
    (types, size)
}

// ---- the fields of an index pattern --------------------------------------------

/// What is given under a key, each time it is given, in the first pairs.
pub open spec fn given(pairs: Seq<(Seq<char>, Seq<char>)>, key: Seq<char>, n: nat) -> Seq<Seq<char>>
    decreases n,
{
    if n == 0 {
        Seq::empty()
    } else if pairs[n - 1].0 == key {
        given(pairs, key, (n - 1) as nat).push(pairs[n - 1].1)
    } else {
        given(pairs, key, (n - 1) as nat)
    }
}

/// What is given under a key, each time it is given.
pub fn given_as(pairs: &Vec<(String, String)>, key: &str) -> (r: Vec<String>)
    ensures
        r.deep_view() == given(pairs.deep_view(), key@, pairs@.len()),
{
    let ghost pv = pairs.deep_view();
    let mut r: Vec<String> = Vec::new();
    assert(r.deep_view() =~= Seq::<Seq<char>>::empty());
    for i in 0..pairs.len()
        invariant
            pv == pairs.deep_view(),
            r.deep_view() == given(pv, key@, i as nat),
    {
        assert(pv[i as int] == (pairs@[i as int].0@, pairs@[i as int].1@));
        if same(pairs[i].0.as_str(), key) {
            push_to(&mut r, pairs[i].1.clone());
        }
    }
    r
}

/// The texts a JSON list of texts holds; nothing where a text is no such list.
pub uninterp spec fn texts_read(s: Seq<char>) -> Option<Seq<Seq<char>>>;

/// `serde_json::from_str`, into a list of strings: the strings a JSON list of
/// strings holds, the same whenever they are asked for, and nothing where the
/// text is not such a list and nothing else. No text at all is none.
#[verifier::external_body]
fn read_texts(s: &str) -> (r: Option<Vec<String>>)
    ensures
        r.deep_view() == texts_read(s@),
        s@.len() == 0 ==> r is None,
{
    serde_json::from_str::<Vec<String>>(s).ok()
}

/// The fields asked for besides, as the route takes them: given several times
/// they are a list, given once they are what that reads as.
pub open spec fn meta_fields(
    pairs: Seq<(Seq<char>, Seq<char>)>,
    read: Option<Seq<Seq<char>>>,
) -> Result<Seq<Seq<char>>, FailedV> {
    let all = given(pairs, "meta_fields"@, pairs.len());
    if all.len() != 1 {
        Ok(all)
    } else {
        match read {
            Some(list) => Ok(list),
            None => Err(failure(400, "Bad Request"@)),
        }
    }
}

/// What the fields asked for besides read as, where they are given once.
pub open spec fn meta_fields_read(pairs: Seq<(Seq<char>, Seq<char>)>) -> Option<Seq<Seq<char>>> {
    let all = given(pairs, "meta_fields"@, pairs.len());
    if all.len() == 1 {
        texts_read(all[0])
    } else {
        None
    }
}

/// The fields asked for besides. `read` is what the one value there is reads as
/// where it is a JSON list of texts.
pub fn meta_fields_in(pairs: &Vec<(String, String)>, read: Option<Vec<String>>) -> (r: Result<
    Vec<String>,
    Failed,
>)
    ensures
        match r {
            Ok(v) => meta_fields(pairs.deep_view(), read.deep_view()) == Ok::<
                Seq<Seq<char>>,
                FailedV,
            >(v.deep_view()),
            Err(f) => meta_fields(pairs.deep_view(), read.deep_view()) == Err::<
                Seq<Seq<char>>,
                FailedV,
            >(f.deep_view()),
        },
{
    assert(pairs.deep_view().len() == pairs@.len());
    let all = given_as(pairs, "meta_fields");
    assert(all.deep_view().len() == all@.len());
    if all.len() != 1 {
        return Ok(all);
    }
    match read {
        Some(list) => Ok(list),
        None => Err(Failed::of(400, "Bad Request")),
    }
}

fn read_meta_fields(pairs: &Vec<(String, String)>) -> (r: Option<Vec<String>>)
    ensures
        r.deep_view() == meta_fields_read(pairs.deep_view()),
{
    assert(pairs.deep_view().len() == pairs@.len());
    let all = given_as(pairs, "meta_fields");
    assert(all.deep_view().len() == all@.len());
    if all.len() == 1 {
        assert(all.deep_view()[0] == all@[0]@);
        read_texts(all[0].as_str())
    } else {
        None
    }
}

/// The fields asked for besides: given several times they are a list, given
/// once they are a JSON list, and anything else is refused.
pub fn meta_fields_of(pairs: &Vec<(String, String)>) -> (r: Result<Vec<String>, Failed>)
    ensures
        match r {
            Ok(v) => meta_fields(pairs.deep_view(), meta_fields_read(pairs.deep_view())) == Ok::<
                Seq<Seq<char>>,
                FailedV,
            >(v.deep_view()),
            Err(f) => meta_fields(pairs.deep_view(), meta_fields_read(pairs.deep_view()))
                == Err::<Seq<Seq<char>>, FailedV>(f.deep_view()),
        },
{
    meta_fields_in(pairs, read_meta_fields(pairs))
}

/// Whether a pair has a key that is not one of some.
pub open spec fn unknown_to(known: Seq<Seq<char>>) -> spec_fn((Seq<char>, Seq<char>)) -> bool {
    |p: (Seq<char>, Seq<char>)| !known.contains(p.0)
}

fn unknown_in(pairs: &Vec<(String, String)>, known: &Vec<String>) -> (i: usize)
    ensures
        i == crate::list::find(pairs.deep_view(), unknown_to(known.deep_view())),
        i <= pairs@.len(),
{
    let ghost p = unknown_to(known.deep_view());
    let f = |e: &(String, String)| -> (b: bool)
        ensures
            b == p(e.deep_view()),
        { !crate::cluster::state::has_text(known, e.0.as_str()) };
    find_in(pairs, f, Ghost(p))
}

/// The pattern a query is about and the fields asked for besides, its keys
/// being some; or what is wrong with it.
pub open spec fn pattern_asked(pairs: Seq<(Seq<char>, Seq<char>)>, known: Seq<Seq<char>>) -> Result<
    Seq<char>,
    FailedV,
> {
    let i = crate::list::find(pairs, unknown_to(known));
    if i < pairs.len() {
        Err(query_failure(pairs[i].0, "definition for this key is missing"@))
    } else {
        match lookup(pairs, "pattern"@) {
            Some(p) => Ok(p),
            None => Err(
                query_failure(
                    "pattern"@,
                    "expected value of type [string] but got [undefined]"@,
                ),
            ),
        }
    }
}

fn pattern_in(pairs: &Vec<(String, String)>, known: &Vec<String>) -> (r: Result<String, Failed>)
    ensures
        match r {
            Ok(p) => pattern_asked(pairs.deep_view(), known.deep_view()) == Ok::<
                Seq<char>,
                FailedV,
            >(p@),
            Err(f) => pattern_asked(pairs.deep_view(), known.deep_view()) == Err::<
                Seq<char>,
                FailedV,
            >(f.deep_view()),
        },
{
    let i = unknown_in(pairs, known);
    if i < pairs.len() {
        assert(pairs.deep_view()[i as int].0 == pairs@[i as int].0@);
        return Err(bad_query(pairs[i].0.as_str(), "definition for this key is missing"));
    }
    match get(pairs, "pattern") {
        Some(p) => Ok(p.clone()),
        None => Err(
            bad_query("pattern", "expected value of type [string] but got [undefined]"),
        ),
    }
}

pub open spec fn wildcard_keys() -> Seq<Seq<char>> {
    seq!["pattern"@, "meta_fields"@, "data_source"@]
}

pub open spec fn time_keys() -> Seq<Seq<char>> {
    seq!["pattern"@, "interval"@, "look_back"@, "meta_fields"@, "data_source"@]
}

/// What the fields of a pattern are asked for with.
pub open spec fn wildcard(
    pairs: Seq<(Seq<char>, Seq<char>)>,
    read: Option<Seq<Seq<char>>>,
) -> Result<(Seq<char>, Seq<Seq<char>>), FailedV> {
    match pattern_asked(pairs, wildcard_keys()) {
        Err(f) => Err(f),
        Ok(p) => match meta_fields(pairs, read) {
            Err(f) => Err(f),
            Ok(m) => Ok((p, m)),
        },
    }
}

/// What the fields of a pattern are asked for with: the pattern, and the fields
/// asked for besides. `read` is what the one value given for those reads as.
pub fn fields_for_wildcard_in(pairs: &Vec<(String, String)>, read: Option<Vec<String>>) -> (r: Result<
    (String, Vec<String>),
    Failed,
>)
    ensures
        match r {
            Ok((p, m)) => wildcard(pairs.deep_view(), read.deep_view()) == Ok::<
                (Seq<char>, Seq<Seq<char>>),
                FailedV,
            >((p@, m.deep_view())),
            Err(f) => wildcard(pairs.deep_view(), read.deep_view()) == Err::<
                (Seq<char>, Seq<Seq<char>>),
                FailedV,
            >(f.deep_view()),
        },
{
    let mut known: Vec<String> = Vec::new();
    known.push("pattern".to_owned());
    known.push("meta_fields".to_owned());
    known.push("data_source".to_owned());
    assert(known.deep_view() =~= wildcard_keys());
    let p = match pattern_in(pairs, &known) {
        Ok(p) => p,
        Err(f) => {
            return Err(f);
        },
    };
    match meta_fields_in(pairs, read) {
        Ok(m) => Ok((p, m)),
        Err(f) => Err(f),
    }
}

/// The pairs of a query string, no string standing for no pairs.
pub open spec fn asked_pairs(query: Option<Seq<char>>) -> Seq<(Seq<char>, Seq<char>)> {
    form(
        match query {
            Some(q) => q,
            None => ""@,
        },
    )
}

/// What the fields of a pattern are asked for with, as the query string says
/// it.
pub fn fields_for_wildcard(query: &Option<String>) -> (r: Result<(String, Vec<String>), Failed>)
    ensures
        ({
            let pairs = asked_pairs(query.deep_view());
            match r {
                Ok((p, m)) => wildcard(pairs, meta_fields_read(pairs)) == Ok::<
                    (Seq<char>, Seq<Seq<char>>),
                    FailedV,
                >((p@, m.deep_view())),
                Err(f) => wildcard(pairs, meta_fields_read(pairs)) == Err::<
                    (Seq<char>, Seq<Seq<char>>),
                    FailedV,
                >(f.deep_view()),
            }
        }),
{
    let pairs = query_pairs(query);
    let read = read_meta_fields(&pairs);
    fields_for_wildcard_in(&pairs, read)
}

/// What a number of days reads as: not a number, less than one, or so many.
#[derive(Debug, Clone, Copy, PartialEq, Eq)]
pub enum LookBack {
    Unreadable,
    Below,
    Days(u64),
}

/// A number without its sign.
pub open spec fn unsigned_text(s: Seq<char>) -> Seq<char> {
    if s.len() > 0 && (s[0] == '+' || s[0] == '-') {
        s.skip(1)
    } else {
        s
    }
}

/// What a number of days reads as. What is over a whole number of days is left
/// out; there is no end to `inf`, and `nan` is none.
pub open spec fn days_in(s: Seq<char>) -> LookBack {
    let word = lowered(unsigned_text(s));
    if word == "nan"@ {
        LookBack::Days(0)
    } else if word == "inf"@ || word == "infinity"@ {
        if s[0] == '-' {
            LookBack::Below
        } else {
            LookBack::Days(u64::MAX)
        }
    } else {
        match scaled(s, 1) {
            None => LookBack::Unreadable,
            Some((below, n)) => if below || n < 1 {
                LookBack::Below
            } else {
                LookBack::Days(n)
            },
        }
    }
}

/// What a number of days reads as.
pub fn days_of(s: &str) -> (r: LookBack)
    ensures
        r == days_in(s@),
{
    let v = chars_of(s);
    let from: usize = if v.len() > 0 && (v[0] == '+' || v[0] == '-') {
        1
    } else {
        0
    };
    let bare = part(&v, from, v.len());
    assert(bare@ =~= unsigned_text(s@));
    let word = lower(string_of(&bare).as_str());
    proof {
        reveal_strlit("inf");
        reveal_strlit("infinity");
        if s@.len() == 0 {
            assert(word@.len() == 0);
        }
    }
    if same(word.as_str(), "nan") {
        LookBack::Days(0)
    } else if same(word.as_str(), "inf") || same(word.as_str(), "infinity") {
        if v[0] == '-' {
            LookBack::Below
        } else {
            LookBack::Days(u64::MAX)
        }
    } else {
        match parse_scaled(s, 1) {
            None => LookBack::Unreadable,
            Some((below, n)) => if below || n < 1 {
                LookBack::Below
            } else {
                LookBack::Days(n)
            },
        }
    }
}

/// How far back is looked, or what is wrong with it.
pub open spec fn looked_back(pairs: Seq<(Seq<char>, Seq<char>)>) -> Result<u64, FailedV> {
    match lookup(pairs, "look_back"@) {
        None => Err(
            query_failure(
                "look_back"@,
                "expected value of type [number] but got [undefined]"@,
            ),
        ),
        Some(s) => match days_in(s) {
            LookBack::Unreadable => Err(
                query_failure(
                    "look_back"@,
                    "expected value of type [number] but got [string]"@,
                ),
            ),
            LookBack::Below => Err(
                query_failure("look_back"@, "Value must be equal to or greater than [1]."@),
            ),
            LookBack::Days(n) => Ok(n),
        },
    }
}

fn look_back_in(pairs: &Vec<(String, String)>) -> (r: Result<u64, Failed>)
    ensures
        match r {
            Ok(n) => looked_back(pairs.deep_view()) == Ok::<u64, FailedV>(n),
            Err(f) => looked_back(pairs.deep_view()) == Err::<u64, FailedV>(f.deep_view()),
        },
{
    match get(pairs, "look_back") {
        None => Err(
            bad_query("look_back", "expected value of type [number] but got [undefined]"),
        ),
        Some(s) => match days_of(s.as_str()) {
            LookBack::Unreadable => Err(
                bad_query("look_back", "expected value of type [number] but got [string]"),
            ),
            LookBack::Below => Err(
                bad_query("look_back", "Value must be equal to or greater than [1]."),
            ),
            LookBack::Days(n) => Ok(n),
        },
    }
}

/// What the fields of a time pattern are asked for with.
pub open spec fn time_pattern(
    pairs: Seq<(Seq<char>, Seq<char>)>,
    read: Option<Seq<Seq<char>>>,
) -> Result<(Seq<char>, u64, Seq<Seq<char>>), FailedV> {
    match pattern_asked(pairs, time_keys()) {
        Err(f) => Err(f),
        Ok(p) => match looked_back(pairs) {
            Err(f) => Err(f),
            Ok(n) => match meta_fields(pairs, read) {
                Err(f) => Err(f),
                Ok(m) => Ok((p, n, m)),
            },
        },
    }
}

/// What the fields of a time pattern are asked for with: the pattern, how far
/// back is looked and the fields asked for besides. `read` is what the one value
/// given for those reads as.
pub fn fields_for_time_pattern_in(
    pairs: &Vec<(String, String)>,
    read: Option<Vec<String>>,
) -> (r: Result<(String, u64, Vec<String>), Failed>)
    ensures
        match r {
            Ok((p, n, m)) => time_pattern(pairs.deep_view(), read.deep_view()) == Ok::<
                (Seq<char>, u64, Seq<Seq<char>>),
                FailedV,
            >((p@, n, m.deep_view())),
            Err(f) => time_pattern(pairs.deep_view(), read.deep_view()) == Err::<
                (Seq<char>, u64, Seq<Seq<char>>),
                FailedV,
            >(f.deep_view()),
        },
{
    let mut known: Vec<String> = Vec::new();
    known.push("pattern".to_owned());
    known.push("interval".to_owned());
    known.push("look_back".to_owned());
    known.push("meta_fields".to_owned());
    known.push("data_source".to_owned());
    assert(known.deep_view() =~= time_keys());
    let p = match pattern_in(pairs, &known) {
        Ok(p) => p,
        Err(f) => {
            return Err(f);
        },
    };
    let n: u64 = match look_back_in(pairs) {
        Ok(n) => n,
        Err(f) => {
            return Err(f);
        },
    };
    match meta_fields_in(pairs, read) {
        Ok(m) => Ok((p, n, m)),
        Err(f) => Err(f),
    }
}

/// What the fields of a time pattern are asked for with, as the query string
/// says it.
pub fn fields_for_time_pattern(query: &Option<String>) -> (r: Result<
    (String, u64, Vec<String>),
    Failed,
>)
    ensures
        ({
            let pairs = asked_pairs(query.deep_view());
            match r {
                Ok((p, n, m)) => time_pattern(pairs, meta_fields_read(pairs)) == Ok::<
                    (Seq<char>, u64, Seq<Seq<char>>),
                    FailedV,
                >((p@, n, m.deep_view())),
                Err(f) => time_pattern(pairs, meta_fields_read(pairs)) == Err::<
                    (Seq<char>, u64, Seq<Seq<char>>),
                    FailedV,
                >(f.deep_view()),
            }
        }),
{
    let pairs = query_pairs(query);
    let read = read_meta_fields(&pairs);
    fields_for_time_pattern_in(&pairs, read)
}

/// A pattern nothing matches is said with the code the page looks for; any
/// other trouble is plainly that nothing was found.
pub open spec fn fields_missing(message: Seq<char>) -> FailedV {
    if begins(message, "No indices match pattern"@) {
        FailedV {
            attributes: Some(
                JsonV::Object(
                    no_fields().push(
                        ("statusCode"@, JsonV::Number(NumberV::Whole(404))),
                    ).push(("error"@, JsonV::Text("Not Found"@))).push(
                        ("message"@, JsonV::Text(message)),
                    ).push(("code"@, JsonV::Text("no_matching_indices"@))),
                ),
            ),
            ..failure(404, message)
        }
    } else {
        failure(404, "Not Found"@)
    }
}

/// What is said when the fields of a pattern could not be read, by why.
pub fn not_found_for_fields(message: &str) -> (f: Failed)
    ensures
        f.deep_view() == fields_missing(message@),
{
    if starts_with(message, "No indices match pattern") {
        let mut o = fields();
        field(&mut o, "statusCode", whole(404));
        field(&mut o, "error", text("Not Found"));
        field(&mut o, "message", text(message));
        field(&mut o, "code", text("no_matching_indices"));
        Failed::of(404, message).with_attributes(object(o))
    } else {
        Failed::of(404, "Not Found")
    }
}

// ---- statistics ----------------------------------------------------------------

/// What a flag says, or what is wrong with it.
pub open spec fn flag_said(pairs: Seq<(Seq<char>, Seq<char>)>, key: Seq<char>) -> Result<
    bool,
    FailedV,
> {
    match lookup(pairs, key) {
        None => Ok(false),
        Some(v) => if v == ""@ || v == "true"@ {
            Ok(true)
        } else if v == "false"@ {
            Ok(false)
        } else {
            Err(
                query_failure(
                    key,
                    "types that failed validation:\n- [request query."@ + key
                        + ".0]: expected value to equal [] but got ["@ + v
                        + "]\n- [request query."@ + key
                        + ".1]: expected value of type [boolean] but got [string]"@,
                ),
            )
        },
    }
}

fn flag_in(pairs: &Vec<(String, String)>, key: &str) -> (r: Result<bool, Failed>)
    ensures
        match r {
            Ok(b) => flag_said(pairs.deep_view(), key@) == Ok::<bool, FailedV>(b),
            Err(f) => flag_said(pairs.deep_view(), key@) == Err::<bool, FailedV>(f.deep_view()),
        },
{
    match get(pairs, key) {
        None => Ok(false),
        Some(v) => {
            let s = v.as_str();
            if same(s, "") || same(s, "true") {
                Ok(true)
            } else if same(s, "false") {
                Ok(false)
            } else {
                let what = "types that failed validation:\n- [request query.".to_owned().concat(
                    key,
                ).concat(".0]: expected value to equal [] but got [").concat(s).concat(
                    "]\n- [request query.",
                ).concat(key).concat(".1]: expected value of type [boolean] but got [string]");
                Err(bad_query(key, what.as_str()))
            }
        },
    }
}

pub open spec fn stats_keys() -> Seq<Seq<char>> {
    seq!["extended"@, "legacy"@, "exclude_usage"@]
}

/// How the statistics are asked for: at length, in the old shape, without what
/// the server has been used for; or what is wrong with the query.
pub open spec fn stats_asked(pairs: Seq<(Seq<char>, Seq<char>)>) -> Result<
    (bool, bool, bool),
    FailedV,
> {
    match flag_said(pairs, "extended"@) {
        Err(f) => Err(f),
        Ok(e) => match flag_said(pairs, "legacy"@) {
            Err(f) => Err(f),
            Ok(l) => match flag_said(pairs, "exclude_usage"@) {
                Err(f) => Err(f),
                Ok(x) => {
                    let i = crate::list::find(pairs, unknown_to(stats_keys()));
                    if i < pairs.len() {
                        Err(query_failure(pairs[i].0, "definition for this key is missing"@))
                    } else {
                        Ok((e, l, x))
                    }
                },
            },
        },
    }
}

/// How the statistics are asked for.
pub fn stats_flags(pairs: &Vec<(String, String)>) -> (r: Result<(bool, bool, bool), Failed>)
    ensures
        match r {
            Ok(flags) => stats_asked(pairs.deep_view()) == Ok::<(bool, bool, bool), FailedV>(
                flags,
            ),
            Err(f) => stats_asked(pairs.deep_view()) == Err::<(bool, bool, bool), FailedV>(
                f.deep_view(),
            ),
        },
{
    let e = match flag_in(pairs, "extended") {
        Ok(b) => b,
        Err(f) => {
            return Err(f);
        },
    };
    let l = match flag_in(pairs, "legacy") {
        Ok(b) => b,
        Err(f) => {
            return Err(f);
        },
    };
    let x = match flag_in(pairs, "exclude_usage") {
        Ok(b) => b,
        Err(f) => {
            return Err(f);
        },
    };
    let mut known: Vec<String> = Vec::new();
    known.push("extended".to_owned());
    known.push("legacy".to_owned());
    known.push("exclude_usage".to_owned());
    assert(known.deep_view() =~= stats_keys());
    let i = unknown_in(pairs, &known);
    if i < pairs.len() {
        assert(pairs.deep_view()[i as int].0 == pairs@[i as int].0@);
        return Err(bad_query(pairs[i].0.as_str(), "definition for this key is missing"));
    }
    Ok((e, l, x))
}

// ---- smaller routes ------------------------------------------------------------

/// Whether a search strategy is one there is. The second name is the same
/// strategy with long numbers kept whole on the way to the browser.
pub fn search_strategy(strategy: &str) -> (r: Option<Failed>)
    ensures
        r.deep_view() == if strategy@ == "opensearch"@ || strategy@
            == "opensearch-with-long-numerals"@ {
            None
        } else {
            Some(failure(404, "Search strategy "@ + strategy@ + " not found"@))
        },
{
    if same(strategy, "opensearch") || same(strategy, "opensearch-with-long-numerals") {
        None
    } else {
        Some(
            Failed::of(
                404,
                "Search strategy ".to_owned().concat(strategy).concat(" not found").as_str(),
            ),
        )
    }
}

/// The path an index is resolved by, or what is wrong with how wildcards are
/// expanded. The name is as it stands in a path.
pub open spec fn resolve_path(segment: Seq<char>, expand: Option<Seq<char>>) -> Result<
    Seq<char>,
    FailedV,
> {
    match expand {
        None => Ok("/_resolve/index/"@ + segment),
        Some(e) => if e == "all"@ || e == "open"@ || e == "closed"@ || e == "hidden"@ || e
            == "none"@ {
            Ok("/_resolve/index/"@ + segment + "?expand_wildcards="@ + e)
        } else {
            Err(
                query_failure(
                    "expand_wildcards"@,
                    "expected value to equal [all] but got ["@ + e + "]"@,
                ),
            )
        },
    }
}

/// The path an index is resolved by.
pub fn resolve_index(segment: &str, pairs: &Vec<(String, String)>) -> (r: Result<String, Failed>)
    ensures
        match r {
            Ok(p) => resolve_path(segment@, lookup(pairs.deep_view(), "expand_wildcards"@))
                == Ok::<Seq<char>, FailedV>(p@),
            Err(f) => resolve_path(segment@, lookup(pairs.deep_view(), "expand_wildcards"@))
                == Err::<Seq<char>, FailedV>(f.deep_view()),
        },
{
    match get(pairs, "expand_wildcards") {
        None => Ok("/_resolve/index/".to_owned().concat(segment)),
        Some(e) => {
            let s = e.as_str();
            if same(s, "all") || same(s, "open") || same(s, "closed") || same(s, "hidden") || same(
                s,
                "none",
            ) {
                Ok(
                    "/_resolve/index/".to_owned().concat(segment).concat(
                        "?expand_wildcards=",
                    ).concat(s),
                )
            } else {
                Err(
                    bad_query(
                        "expand_wildcards",
                        "expected value to equal [all] but got [".to_owned().concat(s).concat(
                            "]",
                        ).as_str(),
                    ),
                )
            }
        },
    }
}

/// Where the browser is sent on to: an address of this server's own is under
/// the path everything is served under.
pub fn goto(url: &str, base_path: &str) -> (r: String)
    ensures
        r@ == if begins(url@, "/"@) {
            base_path@ + url@
        } else {
            url@
        },
{
    if starts_with(url, "/") {
        base_path.to_owned().concat(url)
    } else {
        url.to_owned()
    }
}

} // verus!
