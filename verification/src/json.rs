//! JSON documents as the library reads and writes them, and settings looked
//! up in them.

use vstd::prelude::*;

use crate::list::{
    called, find, get, law_a_name_is_put_in_once, lemma_found, lookup, named_once, not_before,
    push_to, with,
};
use crate::number::{least, parse_scaled, parse_u64, scaled, unsigned};
use crate::text::{cut, dec, dec_int, decimal, decimal_signed, joined, split, trim, trimmed};

verus! {

/// A number of a document: one that is not below nothing, one that is, or
/// one with a fraction, as it is written.
pub enum Number {
    Whole(u64),
    Below(i64),
    Decimal(String),
}

/// A JSON document. The members of an object stand in a list, each name once:
/// `well_named` says so.
pub enum Json {
    Null,
    Bool(bool),
    Number(Number),
    Text(String),
    List(Vec<Json>),
    Object(Vec<(String, Json)>),
}

/// What a number is.
pub enum NumberV {
    Whole(u64),
    Below(i64),
    Decimal(Seq<char>),
}

/// What a document is.
pub enum JsonV {
    Null,
    Bool(bool),
    Number(NumberV),
    Text(Seq<char>),
    List(Seq<JsonV>),
    Object(Seq<(Seq<char>, JsonV)>),
}

impl DeepView for Number {
    type V = NumberV;

    open spec fn deep_view(&self) -> NumberV {
        match self {
            Number::Whole(n) => NumberV::Whole(*n),
            Number::Below(n) => NumberV::Below(*n),
            Number::Decimal(s) => NumberV::Decimal(s@),
        }
    }
}

pub open spec fn json_view(j: Json) -> JsonV
    decreases j,
{
    match j {
        Json::Null => JsonV::Null,
        Json::Bool(b) => JsonV::Bool(b),
        Json::Number(n) => JsonV::Number(n.deep_view()),
        Json::Text(s) => JsonV::Text(s@),
        Json::List(v) => JsonV::List(
            Seq::new(
                v@.len(),
                |i: int|
                    if 0 <= i < v@.len() {
                        json_view(v[i])
                    } else {
                        JsonV::Null
                    },
            ),
        ),
        Json::Object(v) => JsonV::Object(
            Seq::new(
                v@.len(),
                |i: int|
                    if 0 <= i < v@.len() {
                        (v[i].0@, json_view(v[i].1))
                    } else {
                        (Seq::empty(), JsonV::Null)
                    },
            ),
        ),
    }
}

impl DeepView for Json {
    type V = JsonV;

    open spec fn deep_view(&self) -> JsonV {
        json_view(*self)
    }
}

pub(crate) proof fn lemma_list(v: Vec<Json>)
    ensures
        json_view(Json::List(v)) == JsonV::List(v.deep_view()),
{
    assert(json_view(Json::List(v))->List_0 =~= v.deep_view());
}

pub(crate) proof fn lemma_object(v: Vec<(String, Json)>)
    ensures
        json_view(Json::Object(v)) == JsonV::Object(v.deep_view()),
{
    assert(json_view(Json::Object(v))->Object_0 =~= v.deep_view());
}

impl Clone for Json {
    fn clone(&self) -> (r: Json)
        ensures
            r.deep_view() == self.deep_view(),
        decreases *self,
    {
        match self {
            Json::Null => Json::Null,
            Json::Bool(b) => Json::Bool(*b),
            Json::Number(n) => Json::Number(
                match n {
                    Number::Whole(n) => Number::Whole(*n),
                    Number::Below(n) => Number::Below(*n),
                    Number::Decimal(s) => Number::Decimal(s.clone()),
                },
            ),
            Json::Text(s) => Json::Text(s.clone()),
            Json::List(v) => {
                let mut r: Vec<Json> = Vec::new();
                for i in 0..v.len()
                    invariant
                        *self == Json::List(*v),
                        r@.len() == i,
                        forall|j: int| 0 <= j < i ==> r@[j].deep_view() == v@[j].deep_view(),
                {
                    assert(decreases_to!(*self => self->List_0));
                    assert(decreases_to!(*self => v[i as int]));
                    r.push(v[i].clone());
                }
                let out = Json::List(r);
                assert(out.deep_view()->List_0 =~= self.deep_view()->List_0);
                out
            },
            Json::Object(v) => {
                let mut r: Vec<(String, Json)> = Vec::new();
                for i in 0..v.len()
                    invariant
                        *self == Json::Object(*v),
                        r@.len() == i,
                        forall|j: int|
                            0 <= j < i ==> r@[j].0@ == v@[j].0@ && r@[j].1.deep_view()
                                == v@[j].1.deep_view(),
                {
                    assert(decreases_to!(*self => self->Object_0));
                    assert(decreases_to!(*self => v[i as int]));
                    r.push((v[i].0.clone(), v[i].1.clone()));
                }
                let out = Json::Object(r);
                assert(out.deep_view()->Object_0 =~= self.deep_view()->Object_0);
                out
            },
        }
    }
}

impl Json {
    /// A member of an object.
    pub fn get(&self, key: &str) -> (r: Option<&Json>)
        ensures
            match r {
                Some(j) => member(self.deep_view(), key@) == Some(j.deep_view()),
                None => member(self.deep_view(), key@) is None,
            },
    {
        match self {
            Json::Object(o) => {
                proof {
                    lemma_object(*o);
                }
                get(o, key)
            },
            _ => None,
        }
    }

    /// The text of a string, the JSON of anything else.
    pub fn plain(&self) -> (s: String)
        ensures
            s@ == plain(self.deep_view()),
    {
        match self {
            Json::Text(s) => s.clone(),
            other => other.render(),
        }
    }

    /// The document written as JSON, with no space in it.
    pub fn render(&self) -> (s: String)
        ensures
            s@ == written(self.deep_view()),
        decreases *self,
    {
        match self {
            Json::Null => "null".to_owned(),
            Json::Bool(b) => {
                if *b {
                    "true".to_owned()
                } else {
                    "false".to_owned()
                }
            },
            Json::Number(n) => match n {
                Number::Whole(n) => decimal(*n),
                Number::Below(n) => decimal_signed(*n),
                Number::Decimal(s) => s.clone(),
            },
            Json::Text(s) => quoted(s.as_str()),
            Json::List(v) => {
                let mut parts: Vec<String> = Vec::new();
                for i in 0..v.len()
                    invariant
                        *self == Json::List(*v),
                        parts@.len() == i,
                        forall|j: int|
                            0 <= j < i ==> parts@[j]@ == written(#[trigger] v@[j].deep_view()),
                {
                    assert(decreases_to!(*self => self->List_0));
                    assert(decreases_to!(*self => v[i as int]));
                    parts.push(v[i].render());
                }
                proof {
                    lemma_list(*v);
                    assert(parts.deep_view() =~= written_list(v.deep_view()));
                }
                "[".to_owned().concat(crate::text::join(&parts, ",").as_str()).concat("]")
            },
            Json::Object(v) => {
                let mut parts: Vec<String> = Vec::new();
                for i in 0..v.len()
                    invariant
                        *self == Json::Object(*v),
                        parts@.len() == i,
                        forall|j: int|
                            0 <= j < i ==> parts@[j]@ == quote((#[trigger] v@[j]).0@) + ":"@
                                + written(v@[j].1.deep_view()),
                {
                    assert(decreases_to!(*self => self->Object_0));
                    assert(decreases_to!(*self => v[i as int]));
                    let value = v[i].1.render();
                    parts.push(quoted(v[i].0.as_str()).concat(":").concat(value.as_str()));
                }
                proof {
                    lemma_object(*v);
                    assert(parts.deep_view() =~= written_members(v.deep_view()));
                }
                "{".to_owned().concat(crate::text::join(&parts, ",").as_str()).concat("}")
            },
        }
    }
}

/// A member of an object.
pub open spec fn member(j: JsonV, key: Seq<char>) -> Option<JsonV> {
    match j {
        JsonV::Object(o) => lookup(o, key),
        _ => None,
    }
}

/// The text of a string, the JSON of anything else.
pub open spec fn plain(j: JsonV) -> Seq<char> {
    match j {
        JsonV::Text(s) => s,
        other => written(other),
    }
}

/// A hexadecimal digit.
pub open spec fn hex_digit(n: int) -> char {
    if n < 10 {
        (48 + n) as char
    } else {
        (87 + n) as char
    }
}

/// A character as it stands in a JSON string.
pub open spec fn escaped_char(c: char) -> Seq<char> {
    let n = c as u32;
    if c == '"' {
        seq!['\\', '"']
    } else if c == '\\' {
        seq!['\\', '\\']
    } else if n == 8 {
        seq!['\\', 'b']
    } else if n == 9 {
        seq!['\\', 't']
    } else if n == 10 {
        seq!['\\', 'n']
    } else if n == 12 {
        seq!['\\', 'f']
    } else if n == 13 {
        seq!['\\', 'r']
    } else if n < 32 {
        seq!['\\', 'u', '0', '0', hex_digit(n as int / 16), hex_digit(n as int % 16)]
    } else {
        seq![c]
    }
}

pub open spec fn escaped_text(s: Seq<char>) -> Seq<char>
    decreases s.len(),
{
    if s.len() == 0 {
        Seq::empty()
    } else {
        escaped_text(s.drop_last()) + escaped_char(s.last())
    }
}

/// A string in its quotes.
pub open spec fn quote(s: Seq<char>) -> Seq<char> {
    seq!['"'] + escaped_text(s) + seq!['"']
}

pub(crate) fn hex_char(n: u32) -> (c: char)
    requires
        n < 16,
    ensures
        c == hex_digit(n as int),
{
    if n < 10 {
        (48u8 + n as u8) as char
    } else {
        (87u8 + n as u8) as char
    }
}

/// `serde_json::Value`'s `to_string`, of a string: the string in its quotes. A
/// quote and a backslash have a backslash before them, of the characters below
/// a space five have a letter of their own and the others are in hexadecimal,
/// and every other character stands as it is.
#[verifier::external_body]
pub(crate) fn quoted(s: &str) -> (r: String)
    ensures
        r@ == quote(s@),
{
    serde_json::Value::from(s).to_string()
}

/// The document written as JSON, with no space in it.
pub open spec fn written(j: JsonV) -> Seq<char>
    decreases j, 0nat,
{
    match j {
        JsonV::Null => "null"@,
        JsonV::Bool(b) => if b {
            "true"@
        } else {
            "false"@
        },
        JsonV::Number(n) => match n {
            NumberV::Whole(n) => dec(n as nat),
            NumberV::Below(n) => dec_int(n as int),
            NumberV::Decimal(s) => s,
        },
        JsonV::Text(s) => quote(s),
        JsonV::List(v) => "["@ + joined(written_list(v), ","@) + "]"@,
        JsonV::Object(v) => "{"@ + joined(written_members(v), ","@) + "}"@,
    }
}

pub open spec fn written_list(v: Seq<JsonV>) -> Seq<Seq<char>>
    decreases v, 1nat,
{
    Seq::new(
        v.len(),
        |i: int|
            if 0 <= i < v.len() {
                written(v[i])
            } else {
                Seq::empty()
            },
    )
}

pub open spec fn written_members(v: Seq<(Seq<char>, JsonV)>) -> Seq<Seq<char>>
    decreases v, 1nat,
{
    Seq::new(
        v.len(),
        |i: int|
            if 0 <= i < v.len() {
                quote(v[i].0) + ":"@ + written(v[i].1)
            } else {
                Seq::empty()
            },
    )
}

// ---- making documents ----------------------------------------------------------

/// An object with no members yet.
pub open spec fn no_fields() -> Seq<(Seq<char>, JsonV)> {
    Seq::empty()
}

pub fn fields() -> (o: Vec<(String, Json)>)
    ensures
        o.deep_view() == no_fields(),
{
    let o: Vec<(String, Json)> = Vec::new();
    assert(o.deep_view() =~= no_fields());
    o
}

/// Whether every object of a document names each of its members once.
pub open spec fn well_named(j: JsonV) -> bool
    decreases j,
{
    match j {
        JsonV::Object(o) => named_once(o) && forall|i: int|
            0 <= i < o.len() ==> well_named((#[trigger] o[i]).1),
        JsonV::List(v) => forall|i: int| 0 <= i < v.len() ==> well_named(#[trigger] v[i]),
        _ => true,
    }
}

/// Members stay named once, and what they hold stays so, when one is made to
/// stand for a document in which it is so.
pub proof fn law_a_member_put_in_is_named_once(
    o: Seq<(Seq<char>, JsonV)>,
    key: Seq<char>,
    value: JsonV,
)
    requires
        well_named(JsonV::Object(o)),
        well_named(value),
    ensures
        well_named(JsonV::Object(with(o, key, value))),
{
    law_a_name_is_put_in_once(o, key, value);
    lemma_found(o, called::<JsonV>(key));
    lemma_found(o, not_before::<JsonV>(key));
    let t = with(o, key, value);
    let known = find(o, called::<JsonV>(key)) < o.len();
    let at = if known {
        find(o, called::<JsonV>(key))
    } else {
        find(o, not_before::<JsonV>(key))
    };
    assert forall|i: int| 0 <= i < t.len() implies well_named((#[trigger] t[i]).1) by {
        if i != at {
            if known || i < at {
                assert(t[i] == o[i]);
                assert(well_named(o[i].1));
            } else {
                assert(t[i] == o[i - 1]);
                assert(well_named(o[i - 1].1));
            }
        }
    }
}

/// Adds a member.
pub fn field(o: &mut Vec<(String, Json)>, key: &str, value: Json)
    ensures
        final(o).deep_view() == old(o).deep_view().push((key@, value.deep_view())),
{
    push_to(o, (key.to_owned(), value));
}

/// The object some members make.
pub fn object(o: Vec<(String, Json)>) -> (j: Json)
    ensures
        j.deep_view() == JsonV::Object(o.deep_view()),
{
    proof {
        lemma_object(o);
    }
    Json::Object(o)
}

/// The list some documents make.
pub fn list(v: Vec<Json>) -> (j: Json)
    ensures
        j.deep_view() == JsonV::List(v.deep_view()),
{
    proof {
        lemma_list(v);
    }
    Json::List(v)
}

pub fn text(s: &str) -> (j: Json)
    ensures
        j.deep_view() == JsonV::Text(s@),
{
    Json::Text(s.to_owned())
}

pub fn whole(n: u64) -> (j: Json)
    ensures
        j.deep_view() == JsonV::Number(NumberV::Whole(n)),
{
    Json::Number(Number::Whole(n))
}

pub fn flag(b: bool) -> (j: Json)
    ensures
        j.deep_view() == JsonV::Bool(b),
{
    Json::Bool(b)
}

/// The string a member is, empty when it is none.
pub open spec fn text_member(j: JsonV, key: Seq<char>) -> Seq<char> {
    match member(j, key) {
        Some(JsonV::Text(s)) => s,
        _ => ""@,
    }
}

/// The number a member is, nothing when it is none.
pub open spec fn whole_member(j: JsonV, key: Seq<char>) -> u64 {
    match member(j, key) {
        Some(JsonV::Number(NumberV::Whole(n))) => n,
        _ => 0,
    }
}

/// Whether a member is `true`.
pub open spec fn flag_member(j: JsonV, key: Seq<char>) -> bool {
    member(j, key) == Some(JsonV::Bool(true))
}

impl Json {
    /// The string a member is, empty when it is none.
    pub fn text_of(&self, key: &str) -> (s: String)
        ensures
            s@ == text_member(self.deep_view(), key@),
    {
        match self.get(key) {
            Some(Json::Text(s)) => s.clone(),
            _ => "".to_owned(),
        }
    }

    /// The number a member is, nothing when it is none.
    pub fn whole_of(&self, key: &str) -> (n: u64)
        ensures
            n == whole_member(self.deep_view(), key@),
    {
        match self.get(key) {
            Some(Json::Number(Number::Whole(n))) => *n,
            _ => 0,
        }
    }

    /// Whether a member is `true`.
    pub fn flag_of(&self, key: &str) -> (b: bool)
        ensures
            b == flag_member(self.deep_view(), key@),
    {
        match self.get(key) {
            Some(Json::Bool(b)) => *b,
            _ => false,
        }
    }
}

// ---- settings ------------------------------------------------------------------

/// What is under a dotted path, each step being one name or several joined by
/// dots: the longest name first, so `a.b.c` beats `a` and then `b.c`.
pub open spec fn walk(v: JsonV, parts: Seq<Seq<char>>) -> Option<JsonV>
    decreases parts.len(), parts.len() + 1,
{
    if parts.len() == 0 {
        if v is Null {
            None
        } else {
            Some(v)
        }
    } else {
        match v {
            JsonV::Object(o) => longest(o, parts, parts.len()),
            _ => None,
        }
    }
}

pub open spec fn longest(o: Seq<(Seq<char>, JsonV)>, parts: Seq<Seq<char>>, n: nat) -> Option<JsonV>
    decreases parts.len(), n,
{
    if n == 0 || n > parts.len() {
        None
    } else {
        let rest = longest(o, parts, (n - 1) as nat);
        match lookup(o, joined(parts.take(n as int), "."@)) {
            Some(next) => match walk(next, parts.skip(n as int)) {
                Some(found) => Some(found),
                None => rest,
            },
            None => rest,
        }
    }
}

/// A dotted setting of a settings document, whichever way it was written:
/// fully nested, flat, or nested part of the way.
pub open spec fn setting_of(settings: JsonV, key: Seq<char>) -> Option<JsonV> {
    walk(settings, cut(key, '.'))
}

fn strings(parts: &Vec<String>, from: usize, to: usize) -> (r: Vec<String>)
    requires
        from <= to <= parts@.len(),
    ensures
        r.deep_view() == parts.deep_view().subrange(from as int, to as int),
{
    let mut r: Vec<String> = Vec::new();
    assert(r.deep_view() =~= parts.deep_view().subrange(from as int, from as int));
    for i in from..to
        invariant
            from <= i <= to <= parts@.len(),
            r.deep_view() == parts.deep_view().subrange(from as int, i as int),
    {
        push_to(&mut r, parts[i].clone());
        assert(r.deep_view() =~= parts.deep_view().subrange(from as int, i + 1));
    }
    r
}

fn walk_from<'a>(v: &'a Json, parts: &Vec<String>, from: usize) -> (r: Option<&'a Json>)
    requires
        from <= parts@.len(),
    ensures
        match r {
            Some(j) => walk(v.deep_view(), parts.deep_view().skip(from as int)) == Some(
                j.deep_view(),
            ),
            None => walk(v.deep_view(), parts.deep_view().skip(from as int)) is None,
        },
    decreases parts@.len() - from,
{
    let ghost ps = parts.deep_view().skip(from as int);
    if from == parts.len() {
        return match v {
            Json::Null => None,
            _ => Some(v),
        };
    }
    match v {
        Json::Object(o) => {
            proof {
                lemma_object(*o);
            }
            let mut n: usize = parts.len() - from;
            while n > 0
                invariant
                    from < parts.len(),
                    n <= parts.len() - from,
                    ps == parts.deep_view().skip(from as int),
                    v.deep_view() == JsonV::Object(o.deep_view()),
                    walk(v.deep_view(), ps) == longest(o.deep_view(), ps, n as nat),
                decreases n,
            {
                let names = strings(parts, from, from + n);
                assert(names.deep_view() =~= ps.take(n as int));
                let head = crate::text::join(&names, ".");
                if let Some(next) = get(o, head.as_str()) {
                    assert(parts.deep_view().skip(from + n) =~= ps.skip(n as int));
                    if let Some(found) = walk_from(next, parts, from + n) {
                        return Some(found);
                    }
                }
                n -= 1;
            }
            None
        },
        _ => None,
    }
}

/// A dotted setting of a settings document, whichever way it was written:
/// fully nested, flat, or nested part of the way
/// (`{"index": {"unassigned.node_left.delayed_timeout": "5s"}}`).
pub fn setting<'a>(settings: &'a Json, key: &str) -> (r: Option<&'a Json>)
    ensures
        match r {
            Some(j) => setting_of(settings.deep_view(), key@) == Some(j.deep_view()),
            None => setting_of(settings.deep_view(), key@) is None,
        },
{
    let parts = split(key, '.');
    assert(parts.deep_view().skip(0) =~= parts.deep_view());
    walk_from(settings, &parts, 0)
}

/// A setting as text.
pub open spec fn setting_text(settings: JsonV, key: Seq<char>) -> Option<Seq<char>> {
    match setting_of(settings, key) {
        Some(j) => Some(plain(j)),
        None => None,
    }
}

/// A setting as a number that is not below nothing.
pub open spec fn setting_number(settings: JsonV, key: Seq<char>) -> Option<u64> {
    match setting_of(settings, key) {
        Some(JsonV::Number(NumberV::Whole(n))) => Some(n),
        Some(JsonV::Text(s)) => match unsigned(trimmed(s)) {
            Some(n) => if n <= u64::MAX {
                Some(n as u64)
            } else {
                None
            },
            None => None,
        },
        _ => None,
    }
}

/// The furthest a factor is from nothing: a million, in millionths.
pub const FURTHEST: u64 = 1_000_000_000_000;

/// A decimal number in millionths, no further from nothing than a million.
pub open spec fn millionths(s: Seq<char>) -> Option<i64> {
    match scaled(s, 1_000_000) {
        Some((below, n)) => {
            let m = least(n as int, FURTHEST as int);
            Some(
                if below {
                    (-m) as i64
                } else {
                    m as i64
                },
            )
        },
        None => None,
    }
}

/// A setting as a factor, in millionths.
pub open spec fn setting_factor(settings: JsonV, key: Seq<char>) -> Option<i64> {
    match setting_of(settings, key) {
        Some(JsonV::Number(n)) => millionths(written(JsonV::Number(n))),
        Some(JsonV::Text(s)) => millionths(trimmed(s)),
        _ => None,
    }
}

/// A setting as text.
pub fn setting_str(settings: &Json, key: &str) -> (r: Option<String>)
    ensures
        r.deep_view() == setting_text(settings.deep_view(), key@),
{
    match setting(settings, key) {
        Some(j) => Some(j.plain()),
        None => None,
    }
}

/// A setting as a number that is not below nothing.
pub fn setting_u64(settings: &Json, key: &str) -> (r: Option<u64>)
    ensures
        r == setting_number(settings.deep_view(), key@),
{
    match setting(settings, key) {
        Some(Json::Number(Number::Whole(n))) => Some(*n),
        Some(Json::Text(s)) => parse_u64(trim(s.as_str()).as_str()),
        _ => None,
    }
}

fn parse_millionths(s: &str) -> (r: Option<i64>)
    ensures
        r == millionths(s@),
{
    match parse_scaled(s, 1_000_000) {
        Some((below, n)) => {
            let m: i64 = if n <= FURTHEST {
                n as i64
            } else {
                FURTHEST as i64
            };
            Some(
                if below {
                    -m
                } else {
                    m
                },
            )
        },
        None => None,
    }
}

/// A setting as a factor, in millionths.
pub fn setting_millionths(settings: &Json, key: &str) -> (r: Option<i64>)
    ensures
        r == setting_factor(settings.deep_view(), key@),
        r is Some ==> -1_000_000_000_000 <= r->0 <= 1_000_000_000_000,
{
    match setting(settings, key) {
        Some(j) => match j {
            Json::Number(_) => parse_millionths(j.render().as_str()),
            Json::Text(s) => parse_millionths(trim(s.as_str()).as_str()),
            _ => None,
        },
        None => None,
    }
}

} // verus!
