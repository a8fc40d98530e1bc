//! What a request passes on its way through the console.

use vstd::prelude::*;

use super::failed::{bad_query, failure, query_failure, Failed, FailedV};
use crate::list::{any, get, lookup};
use crate::pattern::{is_match, matching};
use crate::text::{
    begins, chars_of, cut, cut_at, dec, decimal, first_in, halves, has_char, has_text_in, raise,
    raised, same, split, split_at_text, split_once, starts_with, trim, trim_start_of, trimmed,
    without_front,
};

verus! {

// ---- where a request came from -------------------------------------------------

/// Whether a request may pass: one that changes something has to carry a header
/// that a page from another origin cannot add.
pub open spec fn passes(guarded: bool, method: Seq<char>, carried: bool) -> bool {
    !guarded || carried || method == "GET"@ || method == "HEAD"@ || method == "OPTIONS"@
}

/// What is said of a request that changes something and does not say that it
/// came from the page.
pub fn xsrf_checked(guarded: bool, method: &str, carried: bool) -> (r: Option<Failed>)
    ensures
        r.deep_view() == if passes(guarded, method@, carried) {
            None
        } else {
            Some(failure(400, "Request must contain the osd-xsrf header."@))
        },
{
    let safe = same(method, "GET") || same(method, "HEAD") || same(method, "OPTIONS");
    if guarded && !safe && !carried {
        Some(Failed::of(400, "Request must contain the osd-xsrf header."))
    } else {
        None
    }
}

/// Whether a cookie is one: a name and a value.
pub open spec fn is_cookie(p: Seq<char>) -> bool {
    match halves(p, "="@) {
        Some((name, value)) => trimmed(name).len() > 0,
        None => false,
    }
}

/// Whether a header of cookies can be read: each of its parts that is not blank
/// is a cookie.
pub open spec fn readable(text: Seq<char>) -> bool {
    forall|i: int|
        0 <= i < cut(text, ';').len() ==> trimmed(#[trigger] cut(text, ';')[i]).len() == 0
            || is_cookie(trimmed(cut(text, ';')[i]))
}

fn is_readable(text: &str) -> (r: bool)
    ensures
        r == readable(text@),
{
    let all = split(text, ';');
    let ghost av = all.deep_view();
    for i in 0..all.len()
        invariant
            av == all.deep_view(),
            av == cut(text@, ';'),
            forall|j: int|
                0 <= j < i ==> trimmed(#[trigger] av[j]).len() == 0 || is_cookie(trimmed(av[j])),
    {
        assert(av[i as int] == all@[i as int]@);
        let p = trim(all[i].as_str());
        let fine = p.as_str().is_empty() || match split_once(p.as_str(), "=") {
            Some((name, _)) => !trim(name.as_str()).as_str().is_empty(),
            None => false,
        };
        if !fine {
            assert(!(trimmed(cut(text@, ';')[i as int]).len() == 0 || is_cookie(
                trimmed(cut(text@, ';')[i as int]),
            )));
            return false;
        }
    }
    true
}

/// What is said of cookies that cannot be read: they are refused before
/// anything looks at them. A header that is no text is `None` within.
pub fn cookies_checked(cookies: &Option<Option<String>>) -> (r: Option<Failed>)
    ensures
        r.deep_view() == match cookies.deep_view() {
            Some(Some(text)) => if readable(text) {
                None
            } else {
                Some(failure(400, "Invalid cookie header"@))
            },
            Some(None) => Some(failure(400, "Invalid cookie header"@)),
            None => None,
        },
{
    match cookies {
        Some(Some(text)) => {
            if is_readable(text.as_str()) {
                None
            } else {
                Some(Failed::of(400, "Invalid cookie header"))
            }
        },
        Some(None) => Some(Failed::of(400, "Invalid cookie header")),
        None => None,
    }
}

// ---- the way to the engine -----------------------------------------------------

pub open spec fn is_method(m: Seq<char>) -> bool {
    m == "HEAD"@ || m == "GET"@ || m == "POST"@ || m == "PUT"@ || m == "DELETE"@
}

/// The method and the path a request asks to be carried with, or what is wrong
/// with it.
pub open spec fn carried_with(pairs: Seq<(Seq<char>, Seq<char>)>) -> Result<
    (Seq<char>, Seq<char>),
    FailedV,
> {
    match lookup(pairs, "method"@) {
        None => Err(
            query_failure("method"@, "expected value of type [string] but got [undefined]"@),
        ),
        Some(given) => {
            let m = raised(given);
            if !is_method(m) {
                Err(
                    query_failure(
                        "method"@,
                        "Method must be one of, case insensitive ['HEAD', 'GET', 'POST', 'PUT', 'DELETE']. Received '"@
                            + m + "'."@,
                    ),
                )
            } else {
                match lookup(pairs, "path"@) {
                    None => Err(
                        query_failure(
                            "path"@,
                            "expected value of type [string] but got [undefined]"@,
                        ),
                    ),
                    Some(p) => if p.len() == 0 {
                        Err(query_failure("path"@, "Expected non-empty string"@))
                    } else {
                        Ok((m, p))
                    },
                }
            }
        },
    }
}

/// The method and the path a request asks to be carried with.
pub fn carry_with(pairs: &Vec<(String, String)>) -> (r: Result<(String, String), Failed>)
    ensures
        match r {
            Ok((m, p)) => carried_with(pairs.deep_view()) == Ok::<
                (Seq<char>, Seq<char>),
                FailedV,
            >((m@, p@)),
            Err(f) => carried_with(pairs.deep_view()) == Err::<(Seq<char>, Seq<char>), FailedV>(
                f.deep_view(),
            ),
        },
{
    let m = match get(pairs, "method") {
        Some(given) => raise(given.as_str()),
        None => {
            return Err(
                bad_query("method", "expected value of type [string] but got [undefined]"),
            );
        },
    };
    let s = m.as_str();
    if !(same(s, "HEAD") || same(s, "GET") || same(s, "POST") || same(s, "PUT") || same(
        s,
        "DELETE",
    )) {
        let what =
            "Method must be one of, case insensitive ['HEAD', 'GET', 'POST', 'PUT', 'DELETE']. Received '".to_owned().concat(
        s).concat("'.");
        return Err(bad_query("method", what.as_str()));
    }
    match get(pairs, "path") {
        None => Err(bad_query("path", "expected value of type [string] but got [undefined]")),
        Some(p) => {
            if p.as_str().is_empty() {
                Err(bad_query("path", "Expected non-empty string"))
            } else {
                Ok((m, p.clone()))
            }
        },
    }
}

/// Whether a path fits a filter. One that is no regular expression fits nothing.
pub open spec fn lets(path: Seq<char>) -> spec_fn(Seq<char>) -> bool {
    |filter: Seq<char>| matching(filter, path) == Some(true)
}

/// Whether a path is one the operator lets the page reach.
pub fn is_let(filters: &Vec<String>, path: &str) -> (r: bool)
    ensures
        r == any(filters.deep_view(), lets(path@)),
{
    let ghost p = lets(path@);
    let f = |filter: &String| -> (b: bool)
        ensures
            b == p(filter.deep_view()),
        { matched(is_match(filter.as_str(), path)) };
    crate::list::any_in(filters, f, Ghost(p))
}

/// Whether what matching came to is a match: nothing where there was no regular
/// expression to match.
pub fn matched(outcome: Option<bool>) -> (r: bool)
    ensures
        r == (outcome == Some(true)),
{
    match outcome {
        Some(b) => b,
        None => false,
    }
}

/// The path a request is carried to: from the root, and the answer written to be
/// read unless the caller said otherwise.
pub open spec fn path_to(path: Seq<char>) -> Seq<char> {
    let p = "/"@ + without_front(path, "/"@);
    if first_in(p, "pretty="@) is Some {
        p
    } else if p.contains('?') {
        p + "&"@ + "pretty=true"@
    } else {
        p + "?"@ + "pretty=true"@
    }
}

/// The path a request is carried to.
pub fn path_for(path: &str) -> (r: String)
    ensures
        r@ == path_to(path@),
{
    let p = "/".to_owned().concat(trim_start_of(path, "/").as_str());
    if has_text_in(p.as_str(), "pretty=") {
        p
    } else if has_char(p.as_str(), '?') {
        p.concat("&").concat("pretty=true")
    } else {
        p.concat("?").concat("pretty=true")
    }
}

/// Why a request is not carried: what is wrong with it, or a path that is not
/// let, and what is said of it.
pub enum Uncarried {
    Bad(Failed),
    Forbidden(String),
}

/// How a request is carried to the engine, whether its path is let being known.
pub open spec fn carried_as(pairs: Seq<(Seq<char>, Seq<char>)>, filters: Seq<Seq<char>>) -> Result<
    (Seq<char>, Seq<char>),
    Result<FailedV, Seq<char>>,
> {
    match carried_with(pairs) {
        Err(f) => Err(Ok(f)),
        Ok((m, p)) => if any(filters, lets(p)) {
            Ok((m, path_to(p)))
        } else {
            Err(Err(not_let(p)))
        },
    }
}

pub open spec fn not_let(path: Seq<char>) -> Seq<char> {
    "Error connecting to '"@ + path + "':\n\nUnable to send requests to that path."@
}

/// The page's way to the engine: the request as typed, carried through where
/// its path is let.
pub fn console_proxy(pairs: &Vec<(String, String)>, filters: &Vec<String>) -> (r: Result<
    (String, String),
    Uncarried,
>)
    ensures
        match r {
            Ok((m, p)) => carried_as(pairs.deep_view(), filters.deep_view()) == Ok::<
                (Seq<char>, Seq<char>),
                Result<FailedV, Seq<char>>,
            >((m@, p@)),
            Err(Uncarried::Bad(f)) => carried_as(pairs.deep_view(), filters.deep_view()) == Err::<
                (Seq<char>, Seq<char>),
                Result<FailedV, Seq<char>>,
            >(Ok(f.deep_view())),
            Err(Uncarried::Forbidden(said)) => carried_as(pairs.deep_view(), filters.deep_view())
                == Err::<(Seq<char>, Seq<char>), Result<FailedV, Seq<char>>>(Err(said@)),
        },
{
    let (m, p) = match carry_with(pairs) {
        Ok(x) => x,
        Err(f) => {
            return Err(Uncarried::Bad(f));
        },
    };
    if !is_let(filters, p.as_str()) {
        return Err(
            Uncarried::Forbidden(
                "Error connecting to '".to_owned().concat(p.as_str()).concat(
                    "':\n\nUnable to send requests to that path.",
                ),
            ),
        );
    }
    Ok((m, path_for(p.as_str())))
}

/// The filters a comma list names.
pub open spec fn filters_in(parts: Seq<Seq<char>>, n: nat) -> Seq<Seq<char>>
    decreases n,
{
    if n == 0 {
        Seq::empty()
    } else {
        let p = trimmed(parts[n - 1]);
        if p.len() == 0 {
            filters_in(parts, (n - 1) as nat)
        } else {
            filters_in(parts, (n - 1) as nat).push(p)
        }
    }
}

/// The parts of a comma list that are not blank, without the white space around
/// them.
pub fn listed(said: &str) -> (r: Vec<String>)
    ensures
        r.deep_view() == filters_in(cut(said@, ','), cut(said@, ',').len()),
{
    let parts = split(said, ',');
    let ghost pv = parts.deep_view();
    let mut r: Vec<String> = Vec::new();
    assert(r.deep_view() =~= Seq::<Seq<char>>::empty());
    for i in 0..parts.len()
        invariant
            pv == parts.deep_view(),
            r.deep_view() == filters_in(pv, i as nat),
    {
        assert(pv[i as int] == parts@[i as int]@);
        let p = trim(parts[i].as_str());
        if !p.as_str().is_empty() {
            crate::list::push_to(&mut r, p);
        }
    }
    assert(pv.len() == parts@.len());
    r
}

/// What a request for the head of an answer is told.
pub fn head_text(status: u16, body: &str) -> (r: String)
    ensures
        r@ == dec(status as nat) + " - "@ + body@,
{
    decimal(status as u64).concat(" - ").concat(body)
}

/// What kind of answer is passed on: JSON in this server's own words, anything
/// else as the engine said.
pub fn kind_passed_on(content_type: &str) -> (r: String)
    ensures
        r@ == if first_in(content_type@, "application/json"@) is Some {
            "application/json; charset=utf-8"@
        } else {
            content_type@
        },
{
    if has_text_in(content_type, "application/json") {
        "application/json; charset=utf-8".to_owned()
    } else {
        content_type.to_owned()
    }
}

/// A request that is carried is carried to a path from the root, by a method
/// there is, and only where one of the filters lets its path pass.
pub proof fn law_only_what_is_let_is_carried(
    pairs: Seq<(Seq<char>, Seq<char>)>,
    filters: Seq<Seq<char>>,
)
    ensures
        match carried_as(pairs, filters) {
            Ok((m, p)) => is_method(m) && begins(p, "/"@) && lookup(pairs, "path"@) is Some && any(
                filters,
                lets(lookup(pairs, "path"@)->0),
            ),
            Err(_) => true,
        },
{
    match carried_with(pairs) {
        Ok((m, p)) => {
            let q = path_to(p);
            assert(q.take("/"@.len() as int) =~= "/"@);
        },
        Err(_) => {},
    }
}

// ---- answers, compressed -------------------------------------------------------

/// The smallest answer that is compressed.
pub const LEAST_TO_COMPRESS: u64 = 1024;

/// The largest answer that is held in memory to be compressed. Anything larger
/// costs the caller bandwidth, not the node its memory.
pub const MOST_TO_COMPRESS: u64 = 8_388_608;

pub open spec fn takes_gzip() -> spec_fn(Seq<char>) -> bool {
    |e: Seq<char>| begins(trimmed(e), "gzip"@)
}

/// Whether a caller takes compressed answers.
pub fn wants_gzip(accepts: &Option<String>) -> (r: bool)
    ensures
        r == match accepts.deep_view() {
            Some(v) => any(cut(v, ','), takes_gzip()),
            None => false,
        },
{
    match accepts {
        Some(v) => {
            let parts = split(v.as_str(), ',');
            let ghost p = takes_gzip();
            let f = |e: &String| -> (b: bool)
                ensures
                    b == p(e.deep_view()),
                { starts_with(trim(e.as_str()).as_str(), "gzip") };
            crate::list::any_in(&parts, f, Ghost(p))
        },
        None => false,
    }
}

pub open spec fn ends_host(c: char) -> bool {
    c == '/' || c == ':' || c == '?' || c == '#'
}

/// What stands before the first character that ends a host's name.
pub open spec fn up_to_end(s: Seq<char>) -> Seq<char>
    decreases s.len(),
{
    if s.len() == 0 || ends_host(s[0]) {
        Seq::empty()
    } else {
        seq![s[0]] + up_to_end(s.skip(1))
    }
}

/// The host of an address: behind its scheme, where it has one.
pub open spec fn host_of(referrer: Seq<char>) -> Seq<char> {
    let halves = cut_at(referrer, "://"@);
    up_to_end(
        if halves.len() > 1 {
            halves[1]
        } else {
            referrer
        },
    )
}

fn take_host(s: &str) -> (r: String)
    ensures
        r@ == up_to_end(s@),
{
    let v = chars_of(s);
    let mut out = String::new();
    let mut i: usize = 0;
    assert(v@.skip(0) =~= v@);
    assert(out@ + up_to_end(v@.skip(0)) =~= up_to_end(v@));
    while i < v.len() && !(v[i] == '/' || v[i] == ':' || v[i] == '?' || v[i] == '#')
        invariant
            i <= v@.len(),
            out@ + up_to_end(v@.skip(i as int)) == up_to_end(v@),
        decreases v@.len() - i,
    {
        let ghost was = out@;
        out.push(v[i]);
        assert(v@.skip(i as int).skip(1) =~= v@.skip(i + 1));
        assert(out@ + up_to_end(v@.skip(i + 1)) =~= was + up_to_end(v@.skip(i as int)));
        i += 1;
    }
    assert(out@ + up_to_end(v@.skip(i as int)) =~= out@);
    out
}

/// Whether the page that asks is one compressed answers may go to: it says
/// nothing of where it is, nowhere in particular was listed, or its host was.
pub open spec fn may_go_to(referrer: Option<Seq<char>>, listed: Seq<Seq<char>>) -> bool {
    match referrer {
        None => true,
        Some(r) => listed.len() == 0 || listed.contains(host_of(r)),
    }
}

/// Whether the page that asks is one compressed answers may go to.
pub fn referrer_allowed(referrer: &Option<String>, listed: &Vec<String>) -> (r: bool)
    ensures
        r == may_go_to(referrer.deep_view(), listed.deep_view()),
{
    match referrer {
        None => true,
        Some(s) => {
            assert(listed.deep_view().len() == listed@.len());
            if listed.len() == 0 {
                return true;
            }
            let parts = split_at_text(s.as_str(), "://");
            assert(parts.deep_view().len() == parts@.len());
            let host = if parts.len() > 1 {
                assert(parts.deep_view()[1] == parts@[1]@);
                take_host(parts[1].as_str())
            } else {
                take_host(s.as_str())
            };
            crate::cluster::state::has_text(listed, host.as_str())
        },
    }
}

/// Whether an answer is compressed: its caller takes it so and may have it, it
/// is in no encoding yet, and its length is known to be worth it. One of unknown
/// length is not read into memory to find out.
pub fn is_compressed(wants: bool, allowed: bool, encoded: bool, length: Option<u64>) -> (r: bool)
    ensures
        r == (wants && allowed && !encoded && match length {
            Some(n) => LEAST_TO_COMPRESS <= n <= MOST_TO_COMPRESS,
            None => false,
        }),
{
    wants && allowed && !encoded && match length {
        Some(n) => LEAST_TO_COMPRESS <= n && n <= MOST_TO_COMPRESS,
        None => false,
    }
}

/// Some bytes in the gzip format, as the usual level of compression makes it.
pub uninterp spec fn gzipped(bytes: Seq<u8>) -> Option<Seq<u8>>;

/// `flate2::write::GzEncoder`, written to and finished at
/// `flate2::Compression::default`: the bytes in the gzip format, with no time
/// and no system in its header, so that the same bytes come out the same.
#[verifier::external_body]
pub(crate) fn gzip(bytes: &Vec<u8>) -> (r: Option<Vec<u8>>)
    ensures
        r.deep_view() == gzipped(bytes.deep_view()),
{
    let mut encoder = flate2::write::GzEncoder::new(Vec::new(), flate2::Compression::default());
    match std::io::Write::write_all(&mut encoder, bytes) {
        Ok(()) => encoder.finish().ok(),
        Err(_) => None,
    }
}

/// What became of an answer: it could not be compressed, it is sent as it was,
/// or it is sent compressed.
pub enum Packed {
    Failed(Failed),
    Plain(Vec<u8>),
    Gzip(Vec<u8>),
}

#[verifier::ext_equal]
pub enum PackedV {
    Failed(FailedV),
    Plain(Seq<u8>),
    Gzip(Seq<u8>),
}

impl DeepView for Packed {
    type V = PackedV;

    open spec fn deep_view(&self) -> PackedV {
        match self {
            Packed::Failed(f) => PackedV::Failed(f.deep_view()),
            Packed::Plain(b) => PackedV::Plain(b.deep_view()),
            Packed::Gzip(b) => PackedV::Gzip(b.deep_view()),
        }
    }
}

/// What becomes of an answer, by what compressing it came to: one that is no
/// smaller is sent as it was.
pub open spec fn packed(bytes: Seq<u8>, zipped: Option<Seq<u8>>) -> PackedV {
    match zipped {
        None => PackedV::Failed(failure(500, "the answer could not be compressed"@)),
        Some(z) => if z.len() >= bytes.len() {
            PackedV::Plain(bytes)
        } else {
            PackedV::Gzip(z)
        },
    }
}

/// What becomes of an answer, by what compressing it came to.
pub fn pack(bytes: Vec<u8>, zipped: Option<Vec<u8>>) -> (r: Packed)
    ensures
        r.deep_view() == packed(bytes.deep_view(), zipped.deep_view()),
{
    match zipped {
        None => Packed::Failed(Failed::of(500, "the answer could not be compressed")),
        Some(z) => {
            assert(z.deep_view().len() == z@.len());
            assert(bytes.deep_view().len() == bytes@.len());
            if z.len() >= bytes.len() {
                Packed::Plain(bytes)
            } else {
                Packed::Gzip(z)
            }
        },
    }
}

/// An answer, compressed where that makes it smaller.
pub fn compressed(bytes: Vec<u8>) -> (r: Packed)
    ensures
        r.deep_view() == packed(bytes.deep_view(), gzipped(bytes.deep_view())),
{
    let zipped = gzip(&bytes);
    pack(bytes, zipped)
}

/// Compressing an answer never makes it longer.
pub proof fn law_compressing_makes_nothing_longer(bytes: Seq<u8>, zipped: Option<Seq<u8>>)
    ensures
        match packed(bytes, zipped) {
            PackedV::Gzip(z) => z.len() < bytes.len(),
            PackedV::Plain(b) => b == bytes,
            PackedV::Failed(_) => zipped is None,
        },
{
}

} // verus!
