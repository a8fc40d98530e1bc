//! What the console reads out of what it is sent.

use vstd::prelude::*;

use crate::console::failed::FailedV;
use crate::console::passage::{filters_in, host_of, is_cookie, readable, takes_gzip, up_to_end};
use crate::console::query::{
    flag_said, given, meta_fields, stats_asked, time_keys, time_pattern, unknown_to, wildcard,
    wildcard_keys,
};
use crate::console::upload::{boundary_of, replacement};
use crate::console::{overrides, pairs, read_as};
use crate::json::{member, JsonV};
use crate::laws::texts::law_a_text_is_parted_where_another_first_occurs;
use crate::laws::words::{
    law_a_text_is_found_where_it_first_occurs, occurs, occurs_at, printed,
};
use crate::list::{lemma_found, lemma_with, lookup};
use crate::text::{begins, cut, halves, trimmed};

verus! {

/// A cookie is a name and a value about an equals sign; a header is readable where each of
/// its pieces is one, or blank.
pub proof fn law_which_cookies_can_be_read(
    name: Seq<char>,
    value: Seq<char>,
    text: Seq<char>,
    i: int,
)
    requires
        !name.contains('='),
        name.len() > 0 ==> printed(name[0]) && printed(name.last()),
    ensures
        is_cookie(name + "="@ + value) == (name.len() > 0),
        !is_cookie(name),
        0 <= i < cut(text, ';').len() && trimmed(cut(text, ';')[i]).len() > 0 && !is_cookie(
            trimmed(cut(text, ';')[i]),
        ) ==> !readable(text),
{
    reveal_strlit("=");
    let s = name + "="@ + value;
    law_a_text_is_parted_where_another_first_occurs(s, "="@);
    law_a_text_is_parted_where_another_first_occurs(name, "="@);
    let at = name.len() as int;
    assert(s.subrange(at, at + 1) =~= "="@);
    assert(occurs_at(s, "="@, at));
    match halves(s, "="@) {
        Some((a, b)) => {
            if a.len() > at {
                assert(!occurs_at(s, "="@, at));
            }
            if a.len() < at {
                assert(s[a.len() as int] == '=') by {
                    assert((a + "="@ + b)[a.len() as int] == '=');
                }
                assert(name[a.len() as int] == '=');
            }
            assert(a =~= s.take(at));
            assert(s.take(at) =~= name);
            let none = Seq::<char>::empty();
            crate::laws::words::law_a_text_is_trimmed_of_the_blanks_round_it(none, name, none);
            assert(none + name + none =~= name);
        },
        None => {},
    }
    match halves(name, "="@) {
        Some((a, b)) => {
            assert((a + "="@ + b)[a.len() as int] == '=');
            assert(name[a.len() as int] == '=');
        },
        None => {},
    }
}

/// The filters of a list are the pieces between its commas, with the blanks round them left
/// off and the empty ones left out.
pub proof fn law_the_filters_of_a_list(parts: Seq<Seq<char>>, n: nat, f: Seq<char>)
    requires
        n <= parts.len(),
    ensures
        filters_in(parts, n).contains(f) <==> f.len() > 0 && exists|i: int|
            0 <= i < n && trimmed(#[trigger] parts[i]) == f,
    decreases n,
{
    if n > 0 {
        law_the_filters_of_a_list(parts, (n - 1) as nat, f);
        let before = filters_in(parts, (n - 1) as nat);
        let now = filters_in(parts, n);
        if now.contains(f) {
            let j = now.index_of(f);
            if j < before.len() {
                assert(before[j] == f);
            } else {
                assert(trimmed(parts[n - 1]) == f);
            }
        }
        if f.len() > 0 && exists|i: int| 0 <= i < n && trimmed(#[trigger] parts[i]) == f {
            let i = choose|i: int| 0 <= i < n && trimmed(#[trigger] parts[i]) == f;
            if i == n - 1 {
                assert(now[now.len() - 1] == f);
            } else {
                assert(before.contains(f));
                let j = before.index_of(f);
                assert(now[j] == f);
            }
        }
    }
}

/// A caller takes a compressed answer that says so by its word, with or without more behind
/// it.
pub proof fn law_who_takes_a_compressed_answer(rest: Seq<char>, e: Seq<char>)
    requires
        rest.len() > 0 ==> printed(rest.last()),
    ensures
        (takes_gzip())("gzip"@ + rest),
        !begins(trimmed(e), "gzip"@) ==> !(takes_gzip())(e),
{
    reveal_strlit("gzip");
    let s = "gzip"@ + rest;
    let none = Seq::<char>::empty();
    crate::laws::words::law_a_text_is_trimmed_of_the_blanks_round_it(none, s, none);
    assert(none + s + none =~= s);
    assert(s.take(4) =~= "gzip"@);
}

proof fn lemma_up_to_end(host: Seq<char>, rest: Seq<char>)
    requires
        forall|i: int|
            0 <= i < host.len() ==> (#[trigger] host[i]) != '/' && host[i] != ':' && host[i] != '?'
                && host[i] != '#',
        rest.len() > 0 ==> rest[0] == '/' || rest[0] == ':' || rest[0] == '?' || rest[0] == '#',
    ensures
        up_to_end(host + rest) == host,
    decreases host.len(),
{
    let s = host + rest;
    if host.len() == 0 {
        assert(s =~= rest);
        assert(up_to_end(s) =~= host);
    } else {
        assert(s.skip(1) =~= host.skip(1) + rest);
        lemma_up_to_end(host.skip(1), rest);
        assert(s[0] == host[0]);
        assert(up_to_end(s) =~= host);
    }
}

/// The host of an address without a scheme is what stands before its port, its path, its
/// query and its fragment.
pub proof fn law_the_host_of_an_address(host: Seq<char>, rest: Seq<char>)
    requires
        forall|i: int|
            0 <= i < host.len() ==> (#[trigger] host[i]) != '/' && host[i] != ':' && host[i] != '?'
                && host[i] != '#',
        rest.len() > 0 ==> rest[0] == '/' || rest[0] == ':' || rest[0] == '?' || rest[0] == '#',
        !occurs(host + rest, "://"@),
    ensures
        host_of(host + rest) == host,
{
    let s = host + rest;
    law_a_text_is_found_where_it_first_occurs(s, "://"@);
    assert(crate::text::cut_at(s, "://"@) == seq![s]);
    lemma_up_to_end(host, rest);
}

/// Fields that say what a document is are a list that is read where there is one value, and
/// the values themselves where there are none or more.
pub proof fn law_how_meta_fields_are_read(
    pairs: Seq<(Seq<char>, Seq<char>)>,
    list: Seq<Seq<char>>,
)
    ensures
        ({
            let all = given(pairs, "meta_fields"@, pairs.len());
            &&& all.len() != 1 ==> meta_fields(pairs, None) == Ok::<Seq<Seq<char>>, FailedV>(all)
            &&& all.len() == 1 ==> meta_fields(pairs, Some(list)) == Ok::<Seq<Seq<char>>, FailedV>(
                list,
            )
            &&& all.len() == 1 ==> (meta_fields(pairs, None) matches Err(f) && f.status == 400)
        }),
{
}

proof fn lemma_given(pairs: Seq<(Seq<char>, Seq<char>)>, key: Seq<char>, n: nat, v: Seq<char>)
    requires
        n <= pairs.len(),
    ensures
        given(pairs, key, n).contains(v) <==> exists|i: int|
            0 <= i < n && #[trigger] pairs[i] == (key, v),
    decreases n,
{
    if n > 0 {
        lemma_given(pairs, key, (n - 1) as nat, v);
        let before = given(pairs, key, (n - 1) as nat);
        let now = given(pairs, key, n);
        if now.contains(v) {
            let j = now.index_of(v);
            if j < before.len() {
                assert(before[j] == v);
            } else {
                assert(pairs[n - 1] == (key, v));
            }
        }
        if exists|i: int| 0 <= i < n && #[trigger] pairs[i] == (key, v) {
            let i = choose|i: int| 0 <= i < n && #[trigger] pairs[i] == (key, v);
            if i == n - 1 {
                assert(now[now.len() - 1] == v);
            } else {
                assert(before.contains(v));
                let j = before.index_of(v);
                assert(now[j] == v);
            }
        }
    }
}

/// What is given under a name is each value that stands beside it.
pub proof fn law_what_is_given_under_a_name(
    pairs: Seq<(Seq<char>, Seq<char>)>,
    key: Seq<char>,
    v: Seq<char>,
)
    ensures
        given(pairs, key, pairs.len()).contains(v) <==> pairs.contains((key, v)),
{
    lemma_given(pairs, key, pairs.len(), v);
    if pairs.contains((key, v)) {
        let i = pairs.index_of((key, v));
        assert(pairs[i] == (key, v));
    }
}

/// The names that a search for fields knows: of a pattern, and of a pattern in time.
pub proof fn law_the_names_a_search_for_fields_knows(key: Seq<char>)
    ensures
        wildcard_keys().contains(key) <==> key == "pattern"@ || key == "meta_fields"@ || key
            == "data_source"@,
        time_keys().contains(key) <==> key == "pattern"@ || key == "interval"@ || key
            == "look_back"@ || key == "meta_fields"@ || key == "data_source"@,
{
    let w = wildcard_keys();
    assert(w[0] == "pattern"@ && w[1] == "meta_fields"@ && w[2] == "data_source"@);
    let t = time_keys();
    assert(t[0] == "pattern"@ && t[1] == "interval"@ && t[2] == "look_back"@ && t[3]
        == "meta_fields"@ && t[4] == "data_source"@);
}

/// A search for the fields of a pattern gives the pattern and what else counts as fields; one
/// in time how far back it looks as well; either fails as soon as what it needs does.
pub proof fn law_what_a_search_for_fields_gives(
    pairs: Seq<(Seq<char>, Seq<char>)>,
    read: Option<Seq<Seq<char>>>,
)
    ensures
        match wildcard(pairs, read) {
            Ok((p, m)) => lookup(pairs, "pattern"@) == Some(p) && meta_fields(pairs, read) == Ok::<
                Seq<Seq<char>>,
                FailedV,
            >(m),
            Err(f) => f.status == 400,
        },
        match time_pattern(pairs, read) {
            Ok((p, n, m)) => lookup(pairs, "pattern"@) == Some(p)
                && crate::console::query::looked_back(pairs) == Ok::<u64, FailedV>(n)
                && meta_fields(pairs, read) == Ok::<Seq<Seq<char>>, FailedV>(m),
            Err(f) => f.status == 400,
        },
{
}

/// The flags of the statistics are each what is said of it, and nothing else may be said.
pub proof fn law_what_the_statistics_are_asked(
    pairs: Seq<(Seq<char>, Seq<char>)>,
    e: bool,
    l: bool,
    x: bool,
)
    ensures
        stats_asked(pairs) == Ok::<(bool, bool, bool), FailedV>((e, l, x)) ==> flag_said(
            pairs,
            "extended"@,
        ) == Ok::<bool, FailedV>(e) && flag_said(pairs, "legacy"@) == Ok::<bool, FailedV>(l)
            && flag_said(pairs, "exclude_usage"@) == Ok::<bool, FailedV>(x),
        (exists|i: int|
            0 <= i < pairs.len() && (#[trigger] pairs[i]).0 != "extended"@ && pairs[i].0
                != "legacy"@ && pairs[i].0 != "exclude_usage"@) ==> stats_asked(pairs) is Err,
        stats_asked(pairs) matches Err(f) ==> f.status == 400,
{
    let known = crate::console::query::stats_keys();
    let q = unknown_to(known);
    lemma_found(pairs, q);
    if exists|i: int|
        0 <= i < pairs.len() && (#[trigger] pairs[i]).0 != "extended"@ && pairs[i].0 != "legacy"@
            && pairs[i].0 != "exclude_usage"@ {
        let i = choose|i: int|
            0 <= i < pairs.len() && (#[trigger] pairs[i]).0 != "extended"@ && pairs[i].0
                != "legacy"@ && pairs[i].0 != "exclude_usage"@;
        if known.contains(pairs[i].0) {
            let j = known.index_of(pairs[i].0);
            assert(known[0] == "extended"@ && known[1] == "legacy"@ && known[2]
                == "exclude_usage"@);
        }
        assert(q(pairs[i]));
    }
}

/// What replaces a reference is said whole: of which type, from where and to where.
pub proof fn law_a_replacement_is_said_whole(
    r: JsonV,
    t: Seq<char>,
    a: Seq<char>,
    b: Seq<char>,
)
    ensures
        member(r, "type"@) == Some(JsonV::Text(t)) && member(r, "from"@) == Some(JsonV::Text(a))
            && member(r, "to"@) == Some(JsonV::Text(b)) ==> replacement(r) == Some((t, a, b)),
        member(r, "type"@) is None || member(r, "from"@) is None || member(r, "to"@) is None
            ==> replacement(r) is None,
{
}

/// What is sent in parts is parted by its first line.
pub proof fn law_the_boundary_of_what_is_sent_in_parts(b: Seq<char>, rest: Seq<char>)
    requires
        !b.contains('\n'),
        b.len() > 2,
        printed(b.last()),
    ensures
        begins(b, "--"@) ==> boundary_of(b + "\n"@ + rest) == Some(b),
        begins(b, "--"@) ==> boundary_of(b + "\r\n"@ + rest) == Some(b),
        !begins(b, "--"@) ==> boundary_of(b + "\n"@ + rest) is None,
{
    reveal_strlit("\n");
    reveal_strlit("\r\n");
    reveal_strlit("--");
    let s = b + "\n"@ + rest;
    crate::text::lemma_cut_after(b, '\n', rest);
    assert(s =~= b.push('\n') + rest);
    let c = b.push('\r');
    let t = b + "\r\n"@ + rest;
    assert forall|i: int| 0 <= i < c.len() implies c[i] != '\n' by {
        if i < b.len() {
            assert(b[i] != '\n');
        }
    }
    crate::text::lemma_cut_after(c, '\n', rest);
    assert(t =~= c.push('\n') + rest);
    assert(crate::text::trim_back(b) == b);
    assert(c.drop_last() =~= b);
    assert(crate::text::is_white('\r'));
    assert(crate::text::trim_back(c) == b);
    assert(c.take(2) =~= b.take(2));
}

proof fn lemma_overrides(
    given: Seq<(Seq<char>, Seq<char>)>,
    read: Seq<Option<JsonV>>,
    n: nat,
    i: int,
)
    requires
        0 <= i < n <= given.len(),
        forall|j: int| i < j < n ==> (#[trigger] given[j]).0 != given[i].0,
    ensures
        lookup(overrides(given, read, n), given[i].0) == Some(
            read_as(
                given[i].1,
                if i < read.len() {
                    read[i]
                } else {
                    None
                },
            ),
        ),
    decreases n,
{
    let v = read_as(
        given[n - 1].1,
        if n <= read.len() {
            read[n - 1]
        } else {
            None
        },
    );
    lemma_with(overrides(given, read, (n - 1) as nat), given[n - 1].0, v, given[i].0);
    if i < n - 1 {
        lemma_overrides(given, read, (n - 1) as nat, i);
    }
}

/// A setting that is given twice is what it was given last.
pub proof fn law_the_last_of_what_is_given_counts(
    given: Seq<(Seq<char>, Seq<char>)>,
    read: Seq<Option<JsonV>>,
    i: int,
)
    requires
        0 <= i < given.len(),
        read.len() == given.len(),
        forall|j: int| i < j < given.len() ==> (#[trigger] given[j]).0 != given[i].0,
    ensures
        lookup(overrides(given, read, given.len()), given[i].0) == Some(
            match read[i] {
                Some(j) => j,
                None => JsonV::Text(given[i].1),
            },
        ),
{
    lemma_overrides(given, read, given.len(), i);
}

} // verus!
