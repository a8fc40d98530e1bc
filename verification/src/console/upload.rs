//! A file sent as a form.

use vstd::prelude::*;

use super::failed::{bad_body, body_failure, failure, Failed, FailedV};
use crate::json::{lemma_list, member, Json, JsonV};
use crate::api::answer::{flag_at, said, text_at, told};
use crate::list::{find, find_in, push_to, put_at};
use crate::size::{ends, strip_suffix};
use crate::text::{
    begins, cut, cut_at, halves, same, split, split_at_text, split_once, starts_with, strip_prefix,
    trim, trim_back, trim_end, trim_end_of, trim_start_of, trimmed, without_back, without_front,
};

verus! {

/// Whether a request is a form: an import is a file, sent as one.
pub fn is_form_upload(content_type: &Option<String>) -> (r: bool)
    ensures
        r == match content_type.deep_view() {
            Some(t) => begins(t, "multipart/form-data"@),
            None => false,
        },
{
    match content_type {
        Some(t) => starts_with(t.as_str(), "multipart/form-data"),
        None => false,
    }
}

/// The name in a piece of a part's header.
pub open spec fn name_in(piece: Seq<char>) -> Option<Seq<char>> {
    if begins(piece, "name=\""@) {
        let rest = piece.skip("name=\""@.len() as int);
        if ends(rest, "\""@) {
            Some(rest.take(rest.len() - "\""@.len()))
        } else {
            None
        }
    } else {
        None
    }
}

/// The name of a part: the first that one of the first pieces of its header
/// gives.
pub open spec fn first_name(pieces: Seq<Seq<char>>, n: nat) -> Option<Seq<char>>
    decreases n,
{
    if n == 0 {
        None
    } else {
        match first_name(pieces, (n - 1) as nat) {
            Some(s) => Some(s),
            None => name_in(trimmed(pieces[n - 1])),
        }
    }
}

/// The name of a part; nothing where its header gives none.
pub open spec fn part_name(head: Seq<char>) -> Seq<char> {
    let pieces = cut(head, ';');
    match first_name(pieces, pieces.len()) {
        Some(s) => s,
        None => ""@,
    }
}

/// What stands between two boundaries, without the ends of lines it starts with.
pub open spec fn part_text(raw: Seq<char>) -> Seq<char> {
    without_front(without_front(raw, "\r\n"@), "\n"@)
}

/// The headers of a part and what it holds, a blank line between them.
pub open spec fn part_halves(p: Seq<char>) -> Option<(Seq<char>, Seq<char>)> {
    match halves(p, "\r\n\r\n"@) {
        Some(h) => Some(h),
        None => halves(p, "\n\n"@),
    }
}

/// One part of a form, by the name it was sent under; nothing where what stands
/// between two boundaries is no part.
pub open spec fn one_part(raw: Seq<char>) -> Option<(Seq<char>, Seq<char>)> {
    let p = part_text(raw);
    if p.len() == 0 || begins(p, "--"@) {
        None
    } else {
        match part_halves(p) {
            Some((head, content)) => Some(
                (
                    part_name(head),
                    without_back(without_back(content, "\r\n"@), "\n"@),
                ),
            ),
            None => None,
        }
    }
}

pub open spec fn parts_among(raws: Seq<Seq<char>>, n: nat) -> Seq<(Seq<char>, Seq<char>)>
    decreases n,
{
    if n == 0 {
        Seq::empty()
    } else {
        match one_part(raws[n - 1]) {
            Some(p) => parts_among(raws, (n - 1) as nat).push(p),
            None => parts_among(raws, (n - 1) as nat),
        }
    }
}

/// The boundary of a form: its first line, where that is one.
pub open spec fn boundary_of(body: Seq<char>) -> Option<Seq<char>> {
    let first = cut(body, '\n')[0];
    if begins(first, "--"@) {
        Some(trim_back(first))
    } else {
        None
    }
}

/// The parts of a form, by the name each was sent under.
pub open spec fn parts_in(body: Seq<char>) -> Seq<(Seq<char>, Seq<char>)> {
    match boundary_of(body) {
        Some(b) => parts_among(cut_at(body, b), cut_at(body, b).len()),
        None => Seq::empty(),
    }
}

fn find_name(head: &str) -> (r: String)
    ensures
        r@ == part_name(head@),
{
    let pieces = split(head, ';');
    let ghost pv = pieces.deep_view();
    let mut found: Option<String> = None;
    for i in 0..pieces.len()
        invariant
            pv == pieces.deep_view(),
            found.deep_view() == first_name(pv, i as nat),
    {
        assert(pv[i as int] == pieces@[i as int]@);
        if found.is_none() {
            let piece = trim(pieces[i].as_str());
            if let Some(rest) = strip_prefix(piece.as_str(), "name=\"") {
                found = strip_suffix(rest.as_str(), "\"");
            }
        }
    }
    assert(pv.len() == pieces@.len());
    match found {
        Some(s) => s,
        None => "".to_owned(),
    }
}

fn read_part(raw: &str) -> (r: Option<(String, String)>)
    ensures
        r.deep_view() == one_part(raw@),
{
    let a = trim_start_of(raw, "\r\n");
    let p = trim_start_of(a.as_str(), "\n");
    if p.as_str().is_empty() || starts_with(p.as_str(), "--") {
        return None;
    }
    let found = match split_once(p.as_str(), "\r\n\r\n") {
        Some(h) => Some(h),
        None => split_once(p.as_str(), "\n\n"),
    };
    match found {
        Some((head, content)) => {
            let c = trim_end_of(content.as_str(), "\r\n");
            Some((find_name(head.as_str()), trim_end_of(c.as_str(), "\n")))
        },
        None => None,
    }
}

/// The parts of a form upload, by the name each was sent under. A form is
/// boundaries around parts, each with its own headers and a blank line before
/// its content.
pub fn form_parts(body: &str) -> (r: Vec<(String, String)>)
    ensures
        r.deep_view() == parts_in(body@),
{
    let lines = split(body, '\n');
    assert(lines.deep_view()[0] == lines@[0]@);
    let mut out: Vec<(String, String)> = Vec::new();
    assert(out.deep_view() =~= Seq::<(Seq<char>, Seq<char>)>::empty());
    if !starts_with(lines[0].as_str(), "--") {
        return out;
    }
    let boundary = trim_end(lines[0].as_str());
    let raws = split_at_text(body, boundary.as_str());
    let ghost rv = raws.deep_view();
    for i in 0..raws.len()
        invariant
            rv == raws.deep_view(),
            out.deep_view() == parts_among(rv, i as nat),
    {
        assert(rv[i as int] == raws@[i as int]@);
        if let Some(p) = read_part(raws[i].as_str()) {
            push_to(&mut out, p);
        }
    }
    assert(rv.len() == raws@.len());
    out
}

/// Whether a part was sent under a name.
pub open spec fn sent_as(name: Seq<char>) -> spec_fn((Seq<char>, Seq<char>)) -> bool {
    |p: (Seq<char>, Seq<char>)| p.0 == name
}

/// What the first part under a name holds.
pub open spec fn part_under(body: Seq<char>, name: Seq<char>) -> Option<Seq<char>> {
    let all = parts_in(body);
    let i = find(all, sent_as(name));
    if i < all.len() {
        Some(all[i].1)
    } else {
        None
    }
}

fn find_part(body: &str, name: &str) -> (r: Option<String>)
    ensures
        r.deep_view() == part_under(body@, name@),
{
    let all = form_parts(body);
    let ghost p = sent_as(name@);
    let f = |e: &(String, String)| -> (b: bool)
        ensures
            b == p(e.deep_view()),
        { same(e.0.as_str(), name) };
    let i = find_in(&all, f, Ghost(p));
    assert(all.deep_view().len() == all@.len());
    if i < all.len() {
        assert(all.deep_view()[i as int] == (all@[i as int].0@, all@[i as int].1@));
        Some(all[i].1.clone())
    } else {
        None
    }
}

/// The file that was sent: the part under its name, or the whole of a body that
/// is no form and not blank.
pub open spec fn file_in(body: Seq<char>) -> Option<Seq<char>> {
    if !begins(body, "--"@) {
        if trimmed(body).len() == 0 {
            None
        } else {
            Some(body)
        }
    } else {
        part_under(body, "file"@)
    }
}

/// The uploaded file, if the form carried one.
pub fn file_part(body: &str) -> (r: Option<String>)
    ensures
        r.deep_view() == file_in(body@),
{
    if !starts_with(body, "--") {
        if trim(body).as_str().is_empty() {
            None
        } else {
            Some(body.to_owned())
        }
    } else {
        find_part(body, "file")
    }
}

/// The file an import carries, or what is wrong with the request: it is no
/// form, or carries no file.
pub open spec fn imported(content_type: Option<Seq<char>>, body: Seq<char>) -> Result<
    Seq<char>,
    FailedV,
> {
    if content_type is None || !begins(content_type->0, "multipart/form-data"@) {
        Err(failure(415, "Unsupported Media Type"@))
    } else {
        match file_in(body) {
            Some(lines) => Ok(lines),
            None => Err(body_failure("file"@, "Stream"@, "undefined"@)),
        }
    }
}

/// The file an import carries. An import is a file, sent as one: anything else
/// is not the request this answers.
pub fn import(content_type: &Option<String>, body: &str) -> (r: Result<String, Failed>)
    ensures
        match r {
            Ok(lines) => imported(content_type.deep_view(), body@) == Ok::<Seq<char>, FailedV>(
                lines@,
            ),
            Err(f) => imported(content_type.deep_view(), body@) == Err::<Seq<char>, FailedV>(
                f.deep_view(),
            ),
        },
{
    if !is_form_upload(content_type) {
        return Err(Failed::of(415, "Unsupported Media Type"));
    }
    match file_part(body) {
        Some(lines) => Ok(lines),
        None => Err(bad_body("file", "Stream", "undefined")),
    }
}

/// What a reader said to do about the conflicts, as it was sent.
pub fn retries_text(body: &str) -> (r: String)
    ensures
        r@ == match part_under(body@, "retries"@) {
            Some(s) => s,
            None => "[]"@,
        },
{
    match find_part(body, "retries") {
        Some(s) => s,
        None => "[]".to_owned(),
    }
}

// ---- what to do about conflicts ------------------------------------------------

/// What a reader said to do about one conflict.
pub struct Retry {
    pub kind: String,
    pub id: String,
    pub overwrite: bool,
    pub destination: Option<String>,
    /// the type of a reference, what it pointed to and what it points to now
    pub replace: Vec<(String, String, String)>,
}

#[verifier::ext_equal]
pub struct RetryV {
    pub kind: Seq<char>,
    pub id: Seq<char>,
    pub overwrite: bool,
    pub destination: Option<Seq<char>>,
    pub replace: Seq<(Seq<char>, Seq<char>, Seq<char>)>,
}

impl DeepView for Retry {
    type V = RetryV;

    open spec fn deep_view(&self) -> RetryV {
        RetryV {
            kind: self.kind@,
            id: self.id@,
            overwrite: self.overwrite,
            destination: self.destination.deep_view(),
            replace: self.replace.deep_view(),
        }
    }
}

/// A reference to change, where all three of its parts are given.
pub open spec fn replacement(r: JsonV) -> Option<(Seq<char>, Seq<char>, Seq<char>)> {
    match (said(r, "type"@), said(r, "from"@), said(r, "to"@)) {
        (Some(t), Some(a), Some(b)) => Some((t, a, b)),
        _ => None,
    }
}

pub open spec fn replacements(v: Seq<JsonV>, n: nat) -> Seq<(Seq<char>, Seq<char>, Seq<char>)>
    decreases n,
{
    if n == 0 {
        Seq::empty()
    } else {
        match replacement(v[n - 1]) {
            Some(r) => replacements(v, (n - 1) as nat).push(r),
            None => replacements(v, (n - 1) as nat),
        }
    }
}

pub open spec fn or_blank(s: Option<Seq<char>>) -> Seq<char> {
    match s {
        Some(t) => t,
        None => ""@,
    }
}

pub open spec fn retry(one: JsonV) -> RetryV {
    RetryV {
        kind: or_blank(said(one, "type"@)),
        id: or_blank(said(one, "id"@)),
        overwrite: told(one, "overwrite"@) == Some(true),
        destination: said(one, "destinationId"@),
        replace: match member(one, "replaceReferences"@) {
            Some(JsonV::List(v)) => replacements(v, v.len()),
            _ => Seq::empty(),
        },
    }
}

/// Whether a retry is about the same object as another.
pub open spec fn about(r: RetryV) -> spec_fn(RetryV) -> bool {
    |x: RetryV| x.kind == r.kind && x.id == r.id
}

/// Some retries with one more: what was said last of an object is what is done.
pub open spec fn with_retry(all: Seq<RetryV>, r: RetryV) -> Seq<RetryV> {
    let i = find(all, about(r));
    if i < all.len() {
        all.update(i, r)
    } else {
        all.push(r)
    }
}

/// What the first of a list say to do.
pub open spec fn retries(listed: Seq<JsonV>, n: nat) -> Seq<RetryV>
    decreases n,
{
    if n == 0 {
        Seq::empty()
    } else {
        with_retry(retries(listed, (n - 1) as nat), retry(listed[n - 1]))
    }
}

fn blank_or(s: Option<String>) -> (r: String)
    ensures
        r@ == or_blank(s.deep_view()),
{
    match s {
        Some(t) => t,
        None => "".to_owned(),
    }
}

fn read_replacements(v: &Vec<Json>) -> (r: Vec<(String, String, String)>)
    ensures
        r.deep_view() == replacements(v.deep_view(), v@.len()),
{
    let ghost vv = v.deep_view();
    let mut r: Vec<(String, String, String)> = Vec::new();
    assert(r.deep_view() =~= Seq::<(Seq<char>, Seq<char>, Seq<char>)>::empty());
    for i in 0..v.len()
        invariant
            vv == v.deep_view(),
            r.deep_view() == replacements(vv, i as nat),
    {
        assert(vv[i as int] == v@[i as int].deep_view());
        match (text_at(&v[i], "type"), text_at(&v[i], "from"), text_at(&v[i], "to")) {
            (Some(t), Some(a), Some(b)) => {
                push_to(&mut r, (t, a, b));
            },
            _ => {},
        }
    }
    r
}

fn read_retry(one: &Json) -> (r: Retry)
    ensures
        r.deep_view() == retry(one.deep_view()),
{
    let replace = match one.get("replaceReferences") {
        Some(Json::List(v)) => {
            proof {
                lemma_list(*v);
            }
            assert(v.deep_view().len() == v@.len());
            read_replacements(v)
        },
        _ => {
            let none: Vec<(String, String, String)> = Vec::new();
            assert(none.deep_view() =~= Seq::<(Seq<char>, Seq<char>, Seq<char>)>::empty());
            none
        },
    };
    let overwrite = match flag_at(one, "overwrite") {
        Some(b) => b,
        None => false,
    };
    Retry {
        kind: blank_or(text_at(one, "type")),
        id: blank_or(text_at(one, "id")),
        overwrite,
        destination: text_at(one, "destinationId"),
        replace,
    }
}

/// What the reader said to do about each conflict, by type and id.
pub fn retries_of(listed: &Vec<Json>) -> (r: Vec<Retry>)
    ensures
        r.deep_view() == retries(listed.deep_view(), listed@.len()),
{
    let ghost lv = listed.deep_view();
    let mut all: Vec<Retry> = Vec::new();
    assert(all.deep_view() =~= Seq::<RetryV>::empty());
    for i in 0..listed.len()
        invariant
            lv == listed.deep_view(),
            all.deep_view() == retries(lv, i as nat),
    {
        assert(lv[i as int] == listed@[i as int].deep_view());
        let r = read_retry(&listed[i]);
        let ghost p = about(r.deep_view());
        let f = |x: &Retry| -> (b: bool)
            ensures
                b == p(x.deep_view()),
            { same(x.kind.as_str(), r.kind.as_str()) && same(x.id.as_str(), r.id.as_str()) };
        let k = find_in(&all, f, Ghost(p));
        if k < all.len() {
            put_at(&mut all, k, r);
        } else {
            push_to(&mut all, r);
        }
    }
    all
}

} // verus!
