//! What the console makes of what it is asked and sent.

use vstd::prelude::*;

use crate::console::assets::{beside, copies, extension, found, is_name, kind_by, kind_of_file, tag};
use crate::console::failed::{failed_answer, FailedV};
use crate::console::passage::{host_of, may_go_to, packed, PackedV};
use crate::console::query::{
    days_in, fields_missing, flag_said, looked, looked_back, managed, nothing_said, number_or,
    pattern_asked, related, resolve_path, respelled, saying, LookBack, LookingV,
};
use crate::console::upload::{file_in, imported, name_in, retry, with_retry, RetryV};
use crate::console::{capable, links, pair, pairs, read_as};
use crate::json::{member, JsonV, NumberV};
use crate::laws::figures::law_a_number_reads_back;
use crate::laws::texts::law_a_text_is_put_in_place_of_another;
use crate::laws::words::{
    law_a_text_is_cut_into_the_words_between_marks, law_a_text_is_found_where_it_first_occurs,
    law_a_text_is_trimmed_of_the_blanks_round_it, occurs, occurs_at, printed, stands,
};
use crate::list::{called, find, lemma_find, lemma_found, lookup};
use crate::text::{begins, cut, dec, halves, trimmed};

verus! {

// ---- looking for objects -------------------------------------------------------

/// What a search for objects asks for where it says nothing: the first page, of twenty, of
/// what has any of the words.
pub proof fn law_what_is_looked_for_where_nothing_is_said()
    ensures
        nothing_said().page == 1,
        nothing_said().per_page == 20,
        nothing_said().default_search_operator == "OR"@,
        nothing_said().types.len() == 0,
        nothing_said().fields.len() == 0,
        nothing_said().search_fields.len() == 0,
        nothing_said().namespaces.len() == 0,
        nothing_said().search is None,
        nothing_said().sort_field is None,
        nothing_said().sort_order is None,
        nothing_said().has_reference is None,
        nothing_said().filter is None,
{
}

proof fn lemma_looking_words()
    ensures
        "type"@.len() == 4,
        "fields"@.len() == 6,
        "search_fields"@.len() == 13,
        "search"@.len() == 6,
        "page"@.len() == 4,
        "per_page"@.len() == 8,
        "sort_field"@.len() == 10,
        "sort_order"@.len() == 10,
        "default_search_operator"@.len() == 23,
        "has_reference"@.len() == 13,
        "namespaces"@.len() == 10,
        "filter"@.len() == 6,
        "type"@[0] == 't',
        "page"@[0] == 'p',
        "fields"@[0] == 'f',
        "search"@[0] == 's',
        "fields"@[2] == 'e',
        "filter"@[2] == 'l',
        "filter"@[0] == 'f',
        "search_fields"@[0] == 's',
        "has_reference"@[0] == 'h',
        "sort_field"@[5] == 'f',
        "sort_order"@[5] == 'o',
        "namespaces"@[5] == 'p',
{
    reveal_strlit("type");
    reveal_strlit("fields");
    reveal_strlit("search_fields");
    reveal_strlit("search");
    reveal_strlit("page");
    reveal_strlit("per_page");
    reveal_strlit("sort_field");
    reveal_strlit("sort_order");
    reveal_strlit("default_search_operator");
    reveal_strlit("has_reference");
    reveal_strlit("namespaces");
    reveal_strlit("filter");
}

/// What each word of a search for objects says: the lists are added to, the others replace
/// what was said before, and a word that is not known says nothing.
pub proof fn law_what_each_word_of_a_search_says(l: LookingV, value: Seq<char>, key: Seq<char>)
    ensures
        saying(l, "type"@, value) == (LookingV { types: l.types.push(value), ..l }),
        saying(l, "fields"@, value) == (LookingV { fields: l.fields.push(value), ..l }),
        saying(l, "search_fields"@, value) == (LookingV {
            search_fields: l.search_fields.push(value),
            ..l
        }),
        saying(l, "namespaces"@, value) == (LookingV { namespaces: l.namespaces.push(value), ..l }),
        saying(l, "search"@, value) == (LookingV { search: Some(value), ..l }),
        saying(l, "sort_field"@, value) == (LookingV { sort_field: Some(value), ..l }),
        saying(l, "sort_order"@, value) == (LookingV { sort_order: Some(value), ..l }),
        saying(l, "default_search_operator"@, value) == (LookingV {
            default_search_operator: value,
            ..l
        }),
        saying(l, "has_reference"@, value) == (LookingV { has_reference: Some(value), ..l }),
        saying(l, "filter"@, value) == (LookingV { filter: Some(value), ..l }),
        saying(l, "page"@, value) == (LookingV { page: number_or(value, 1), ..l }),
        saying(l, "per_page"@, value) == (LookingV { per_page: number_or(value, 20), ..l }),
        key != "type"@ && key != "fields"@ && key != "search_fields"@ && key != "namespaces"@ && key
            != "search"@ && key != "sort_field"@ && key != "sort_order"@ && key
            != "default_search_operator"@ && key != "has_reference"@ && key != "filter"@ && key
            != "page"@ && key != "per_page"@ ==> saying(l, key, value) == l,
{
    lemma_looking_words();
}

/// A number that is said is that number, and what is no number is the usual one.
pub proof fn law_a_number_that_is_said(n: u64, s: Seq<char>, usual: u64)
    ensures
        number_or(dec(n as nat), usual) == n,
        crate::number::unsigned(s) is None ==> number_or(s, usual) == usual,
{
    law_a_number_reads_back(n as nat);
}

/// A search of the page that manages objects has to say which types it is for, and may not
/// say which fields.
pub proof fn law_a_managed_search_has_to_name_a_type(query: Seq<char>)
    ensures
        occurs(query, "searchFields="@) ==> (managed(query) matches Err(f) && f.status == 400),
        !occurs(query, "searchFields="@) ==> {
            let pairs = crate::console::query::form(respelled(query));
            let l = looked(pairs, pairs.len());
            match managed(query) {
                Ok(r) => r == l && l.types.len() > 0,
                Err(f) => l.types.len() == 0 && f.status == 400,
            }
        },
{
    law_a_text_is_found_where_it_first_occurs(query, "searchFields="@);
}

proof fn lemma_types(pairs: Seq<(Seq<char>, Seq<char>)>, n: nat, i: int)
    requires
        0 <= i < n <= pairs.len(),
        pairs[i].0 == "type"@,
    ensures
        looked(pairs, n).types.contains(pairs[i].1),
    decreases n,
{
    lemma_looking_words();
    let now = looked(pairs, n).types;
    if i == n - 1 {
        assert(now[now.len() - 1] == pairs[i].1);
    } else {
        lemma_types(pairs, (n - 1) as nat, i);
        let before = looked(pairs, (n - 1) as nat).types;
        let j = before.index_of(pairs[i].1);
        assert(now[j] == before[j]);
    }
}

/// Every type that a search names is looked for.
pub proof fn law_every_type_named_is_looked_for(pairs: Seq<(Seq<char>, Seq<char>)>, i: int)
    requires
        0 <= i < pairs.len(),
        pairs[i].0 == "type"@,
    ensures
        looked(pairs, pairs.len()).types.contains(pairs[i].1),
{
    lemma_types(pairs, pairs.len(), i);
}

/// What is related to an object is looked for in the types that are named, and in ten
/// thousand of them where no number is said.
pub proof fn law_what_is_related_is_looked_for(
    pairs: Seq<(Seq<char>, Seq<char>)>,
    n: nat,
    i: int,
)
    requires
        n <= pairs.len(),
    ensures
        0 <= i < n && pairs[i].0 == "savedObjectTypes"@ ==> related(pairs, n).0.contains(pairs[i].1),
        (forall|j: int| 0 <= j < n ==> (#[trigger] pairs[j]).0 != "size"@) ==> related(pairs, n).1
            == 10_000,
        n > 0 && pairs[n - 1].0 == "size"@ ==> related(pairs, n).1 == number_or(
            pairs[n - 1].1,
            10_000,
        ),
    decreases n,
{
    reveal_strlit("savedObjectTypes");
    reveal_strlit("size");
    assert("savedObjectTypes"@.len() == 16 && "size"@.len() == 4);
    if n > 0 {
        law_what_is_related_is_looked_for(pairs, (n - 1) as nat, i);
        let now = related(pairs, n).0;
        let before = related(pairs, (n - 1) as nat).0;
        if 0 <= i < n && pairs[i].0 == "savedObjectTypes"@ {
            if i == n - 1 {
                assert(now[now.len() - 1] == pairs[i].1);
            } else {
                let j = before.index_of(pairs[i].1);
                assert(now[j] == before[j]);
            }
        }
    }
}

/// A pattern has to be named, and nothing that is not known may be said beside it.
pub proof fn law_a_pattern_has_to_be_named(
    pairs: Seq<(Seq<char>, Seq<char>)>,
    known: Seq<Seq<char>>,
    p: Seq<char>,
)
    ensures
        (exists|i: int| 0 <= i < pairs.len() && !known.contains((#[trigger] pairs[i]).0)) ==> (
        pattern_asked(pairs, known) matches Err(f) && f.status == 400),
        (forall|i: int| 0 <= i < pairs.len() ==> known.contains((#[trigger] pairs[i]).0)) && lookup(
            pairs,
            "pattern"@,
        ) == Some(p) ==> pattern_asked(pairs, known) == Ok::<Seq<char>, FailedV>(p),
        lookup(pairs, "pattern"@) is None ==> (pattern_asked(pairs, known) matches Err(f)
            && f.status == 400),
{
    let q = crate::console::query::unknown_to(known);
    lemma_found(pairs, q);
    if exists|i: int| 0 <= i < pairs.len() && !known.contains((#[trigger] pairs[i]).0) {
        let i = choose|i: int| 0 <= i < pairs.len() && !known.contains((#[trigger] pairs[i]).0);
        assert(q(pairs[i]));
    }
}

/// How far back is looked is a whole number of days, one at the least.
pub proof fn law_how_far_back_is_looked(pairs: Seq<(Seq<char>, Seq<char>)>, n: u64)
    ensures
        lookup(pairs, "look_back"@) is None ==> (looked_back(pairs) matches Err(f) && f.status
            == 400),
        n >= 1 && lookup(pairs, "look_back"@) == Some(dec(n as nat)) ==> looked_back(pairs) == Ok::<
            u64,
            FailedV,
        >(n),
        lookup(pairs, "look_back"@) == Some(dec(0)) ==> (looked_back(pairs) matches Err(f)
            && f.status == 400),
{
    lemma_days(n);
    lemma_days(0);
}

proof fn lemma_days(n: u64)
    ensures
        days_in(dec(n as nat)) == if n >= 1 {
            LookBack::Days(n)
        } else {
            LookBack::Below
        },
{
    law_a_number_reads_back(n as nat);
    let s = dec(n as nat);
    reveal_strlit("nan");
    reveal_strlit("inf");
    reveal_strlit("infinity");
    assert(crate::number::is_digit(s[0]));
    let word = crate::text::lowered(s);
    assert(word[0] == s[0]);
    assert("nan"@[0] == 'n' && "inf"@[0] == 'i' && "infinity"@[0] == 'i');
    crate::laws::figures::lemma_scaled(n as nat, 1);
    assert(n as nat * 1 == n as nat);
}

/// A flag of a query is on where it is bare or true, off where it is false or not there, and
/// anything else is a bad query.
pub proof fn law_what_a_flag_says(
    pairs: Seq<(Seq<char>, Seq<char>)>,
    key: Seq<char>,
    v: Seq<char>,
)
    ensures
        lookup(pairs, key) is None ==> flag_said(pairs, key) == Ok::<bool, FailedV>(false),
        lookup(pairs, key) == Some("false"@) ==> flag_said(pairs, key) == Ok::<bool, FailedV>(
            false,
        ),
        lookup(pairs, key) == Some("true"@) ==> flag_said(pairs, key) == Ok::<bool, FailedV>(true),
        lookup(pairs, key) == Some(""@) ==> flag_said(pairs, key) == Ok::<bool, FailedV>(true),
        lookup(pairs, key) == Some(v) && v != ""@ && v != "true"@ && v != "false"@ ==> (flag_said(
            pairs,
            key,
        ) matches Err(f) && f.status == 400),
{
    reveal_strlit("");
    reveal_strlit("true");
    reveal_strlit("false");
    assert(""@.len() == 0 && "true"@.len() == 4 && "false"@.len() == 5);
}

/// The indices that a pattern reaches are asked for in the states that are known, and a
/// state that is not is a bad query.
pub proof fn law_how_indices_are_resolved(segment: Seq<char>, e: Seq<char>)
    ensures
        resolve_path(segment, None) == Ok::<Seq<char>, FailedV>("/_resolve/index/"@ + segment),
        e == "all"@ || e == "open"@ || e == "closed"@ || e == "hidden"@ || e == "none"@
            ==> resolve_path(segment, Some(e)) == Ok::<Seq<char>, FailedV>(
            "/_resolve/index/"@ + segment + "?expand_wildcards="@ + e,
        ),
        e != "all"@ && e != "open"@ && e != "closed"@ && e != "hidden"@ && e != "none"@ ==> (
        resolve_path(segment, Some(e)) matches Err(f) && f.status == 400),
{
}

/// A pattern that no index fits is not found, and says so in a way that can be told apart.
pub proof fn law_a_pattern_no_index_fits(rest: Seq<char>, other: Seq<char>)
    ensures
        ({
            let message = "No indices match pattern"@ + rest;
            let f = fields_missing(message);
            &&& f.status == 404
            &&& f.message == message
            &&& f.attributes matches Some(a) && member(a, "code"@) == Some(
                JsonV::Text("no_matching_indices"@),
            ) && member(a, "statusCode"@) == Some(JsonV::Number(NumberV::Whole(404)))
        }),
        !begins(other, "No indices match pattern"@) ==> fields_missing(other).status == 404
            && fields_missing(other).message == "Not Found"@ && fields_missing(other).attributes
            is None,
{
    let head = "No indices match pattern"@;
    let message = head + rest;
    assert(message.take(head.len() as int) =~= head);
    reveal_strlit("statusCode");
    reveal_strlit("error");
    reveal_strlit("message");
    reveal_strlit("code");
    assert("statusCode"@.len() == 10 && "error"@.len() == 5 && "message"@.len() == 7 && "code"@.len()
        == 4);
    let o = fields_missing(message).attributes->0->Object_0;
    lemma_find(o, called::<JsonV>("statusCode"@), 0);
    lemma_find(o, called::<JsonV>("code"@), 3);
}

// ---- failures ------------------------------------------------------------------

/// A failure is answered with its status, where that is one, and with its message.
pub proof fn law_what_a_failure_is_answered(e: FailedV)
    ensures
        100 <= e.status <= 999 ==> failed_answer(e).status == e.status,
        !(100 <= e.status <= 999) ==> failed_answer(e).status == 500,
        member(failed_answer(e).body, "statusCode"@) == Some(
            JsonV::Number(NumberV::Whole(e.status as u64)),
        ),
        member(failed_answer(e).body, "message"@) == Some(JsonV::Text(e.message)),
{
    reveal_strlit("statusCode");
    reveal_strlit("error");
    reveal_strlit("message");
    assert("statusCode"@.len() == 10 && "error"@.len() == 5 && "message"@.len() == 7);
    let o = failed_answer(e).body->Object_0;
    lemma_find(o, called::<JsonV>("statusCode"@), 0);
    lemma_find(o, called::<JsonV>("message"@), 2);
}

// ---- what is sent --------------------------------------------------------------

/// A file is sent as a form: anything else is a medium that is not taken, and a form without
/// the file is a bad request.
pub proof fn law_a_file_is_sent_as_a_form(content_type: Option<Seq<char>>, body: Seq<char>)
    ensures
        content_type is None ==> (imported(content_type, body) matches Err(f) && f.status == 415),
        content_type matches Some(t) ==> !begins(t, "multipart/form-data"@) ==> (imported(
            content_type,
            body,
        ) matches Err(f) && f.status == 415),
        content_type matches Some(t) ==> begins(t, "multipart/form-data"@) ==> match file_in(body) {
            Some(lines) => imported(content_type, body) == Ok::<Seq<char>, FailedV>(lines),
            None => imported(content_type, body) matches Err(f) && f.status == 400,
        },
{
}

/// What is sent without a boundary is the file itself, unless it is blank.
pub proof fn law_what_is_sent_bare_is_the_file(body: Seq<char>)
    ensures
        !begins(body, "--"@) && trimmed(body).len() > 0 ==> file_in(body) == Some(body),
        !begins(body, "--"@) && trimmed(body).len() == 0 ==> file_in(body) is None,
{
}

/// A part is named by what stands in quotes after `name=`.
pub proof fn law_a_part_is_named_in_quotes(name: Seq<char>)
    ensures
        name_in("name=\""@ + name + "\""@) == Some(name),
{
    reveal_strlit("name=\"");
    reveal_strlit("\"");
    let p = "name=\""@ + name + "\""@;
    let head = "name=\""@;
    assert(p.take(head.len() as int) =~= head);
    let rest = p.skip(head.len() as int);
    assert(rest =~= name + "\""@);
    assert(rest.skip(rest.len() - 1) =~= "\""@);
    assert(rest.take(rest.len() - 1) =~= name);
}

/// What is to be tried again is said of each object: its type and id, whether it is written
/// over, and where it goes; what is said last of an object counts.
pub proof fn law_what_is_tried_again(one: JsonV, all: Seq<RetryV>, r: RetryV)
    ensures
        member(one, "type"@) matches Some(JsonV::Text(t)) ==> retry(one).kind == t,
        member(one, "id"@) matches Some(JsonV::Text(t)) ==> retry(one).id == t,
        retry(one).overwrite <==> member(one, "overwrite"@) == Some(JsonV::Bool(true)),
        member(one, "destinationId"@) matches Some(JsonV::Text(t)) ==> retry(one).destination
            == Some(t),
        member(one, "destinationId"@) is None ==> retry(one).destination is None,
        with_retry(all, r).contains(r),
{
    let p = crate::console::upload::about(r);
    lemma_found(all, p);
    let i = find(all, p);
    let now = with_retry(all, r);
    if i < all.len() {
        assert(now[i] == r);
    } else {
        assert(now[now.len() - 1] == r);
    }
}

// ---- files ---------------------------------------------------------------------

/// What a file is, by what its name ends in.
pub proof fn law_what_a_file_is_by_its_name(ext: Seq<char>)
    ensures
        kind_by("js"@) == "application/javascript; charset=utf-8"@,
        ext == "css"@ ==> kind_by(ext) == "text/css; charset=utf-8"@,
        ext == "json"@ || ext == "map"@ ==> kind_by(ext) == "application/json; charset=utf-8"@,
        ext == "svg"@ ==> kind_by(ext) == "image/svg+xml"@,
        ext == "png"@ ==> kind_by(ext) == "image/png"@,
        ext == "ico"@ ==> kind_by(ext) == "image/x-icon"@,
        ext == "woff2"@ ==> kind_by(ext) == "font/woff2"@,
        ext == "woff"@ ==> kind_by(ext) == "font/woff"@,
        ext == "ttf"@ ==> kind_by(ext) == "font/ttf"@,
        ext == "xml"@ ==> kind_by(ext) == "application/xml"@,
        ext == "txt"@ ==> kind_by(ext) == "text/plain; charset=utf-8"@,
        ext != "js"@ && ext != "css"@ && ext != "json"@ && ext != "map"@ && ext != "svg"@ && ext
            != "png"@ && ext != "ico"@ && ext != "woff2"@ && ext != "woff"@ && ext != "ttf"@ && ext
            != "xml"@ && ext != "txt"@ ==> kind_by(ext) == "application/octet-stream"@,
{
    reveal_strlit("js");
    reveal_strlit("css");
    reveal_strlit("json");
    reveal_strlit("map");
    reveal_strlit("svg");
    reveal_strlit("png");
    reveal_strlit("ico");
    reveal_strlit("woff2");
    reveal_strlit("woff");
    reveal_strlit("ttf");
    reveal_strlit("xml");
    reveal_strlit("txt");
    assert("js"@.len() == 2 && "css"@.len() == 3 && "json"@.len() == 4 && "map"@.len() == 3
        && "svg"@.len() == 3 && "png"@.len() == 3 && "ico"@.len() == 3 && "woff2"@.len() == 5
        && "woff"@.len() == 4 && "ttf"@.len() == 3 && "xml"@.len() == 3 && "txt"@.len() == 3);
    assert("css"@[0] == 'c' && "map"@[0] == 'm' && "svg"@[0] == 's' && "png"@[0] == 'p'
        && "ico"@[0] == 'i' && "ttf"@[0] == 't' && "xml"@[0] == 'x' && "txt"@[0] == 't'
        && "ttf"@[1] == 't' && "txt"@[1] == 'x' && "json"@[0] == 'j' && "woff"@[0] == 'w');
}

/// A name ends in what stands after its last dot; a name with no dot, or with one only at
/// its front, ends in nothing.
pub proof fn law_what_a_name_ends_in(stem: Seq<char>, ext: Seq<char>)
    requires
        !stem.contains('.'),
        !ext.contains('.'),
    ensures
        stem.len() > 0 ==> extension(stem + "."@ + ext) == Some(ext),
        extension(stem) is None,
        extension("."@ + ext) is None,
{
    reveal_strlit(".");
    crate::text::lemma_cut_whole(stem, '.');
    crate::text::lemma_cut_whole(ext, '.');
    crate::text::lemma_cut_after(stem, '.', ext);
    assert(stem + "."@ + ext =~= stem.push('.') + ext);
    let none = Seq::<char>::empty();
    crate::text::lemma_cut_after(none, '.', ext);
    assert("."@ + ext =~= none.push('.') + ext);
}

/// A file is found only where its path steps neither up nor nowhere, under its directory;
/// a sheet of styles that is to be branded is never sent compressed.
pub proof fn law_which_files_are_found(
    base: Seq<char>,
    relative: Seq<char>,
    accepts: Seq<char>,
    branded: bool,
)
    ensures
        match found(base, relative, accepts, branded) {
            None => exists|part: Seq<char>|
                #[trigger] stands(relative, '/', part) && !part.contains('/') && (part.len() == 0
                    || part == "."@ || part == ".."@),
            Some(f) => {
                &&& f.path == base + "/"@ + relative
                &&& f.kind == kind_of_file(relative)
                &&& f.themed ==> branded && f.compressed.len() == 0
                &&& !branded ==> !f.themed
                &&& !stands(relative, '/', "."@)
                &&& !stands(relative, '/', ".."@)
            },
        },
{
    reveal_strlit(".");
    reveal_strlit("..");
    law_a_text_is_cut_into_the_words_between_marks(relative, '/', "."@);
    law_a_text_is_cut_into_the_words_between_marks(relative, '/', ".."@);
    let parts = cut(relative, '/');
    if found(base, relative, accepts, branded) is Some {
        if parts.contains("."@) {
            let i = parts.index_of("."@);
            assert(!is_name(parts[i]));
        }
        if parts.contains(".."@) {
            let i = parts.index_of(".."@);
            assert(!is_name(parts[i]));
        }
    } else {
        let i = choose|i: int| 0 <= i < parts.len() && !is_name(#[trigger] parts[i]);
        let part = parts[i];
        if part.len() == 0 {
            assert(part =~= Seq::empty());
        }
        assert(!part.contains('/'));
        law_a_text_is_cut_into_the_words_between_marks(relative, '/', part);
        assert(parts.contains(part));
        assert(stands(relative, '/', part));
    }
}

/// A compressed copy is offered only of a kind that is accepted, the smaller kind first.
pub proof fn law_compressed_copies_are_offered(
    path: Seq<char>,
    relative: Seq<char>,
    accepts: Seq<char>,
)
    ensures
        occurs(accepts, "br"@) ==> copies(path, relative, accepts).len() > 0 && copies(
            path,
            relative,
            accepts,
        )[0] == (beside(path, relative, ".br"@), "br"@),
        occurs(accepts, "gz"@) ==> copies(path, relative, accepts).len() > 0 && copies(
            path,
            relative,
            accepts,
        ).last() == (beside(path, relative, ".gz"@), "gzip"@),
        !occurs(accepts, "br"@) && !occurs(accepts, "gz"@) ==> copies(path, relative, accepts).len()
            == 0,
        !(occurs(accepts, "br"@) && occurs(accepts, "gz"@)) ==> copies(
            path,
            relative,
            accepts,
        ).len() <= 1,
{
    law_a_text_is_found_where_it_first_occurs(accepts, "br"@);
    law_a_text_is_found_where_it_first_occurs(accepts, "gz"@);
}

/// A language is a tag of letters, digits, dashes and underscores, and is English where it is
/// none.
pub proof fn law_what_a_language_is(locale: Seq<char>, i: int)
    ensures
        0 <= i < locale.len() && (locale[i] == '/' || locale[i] == '.' || locale[i] == '\\'
            || locale[i] == ' ') ==> tag(locale) == "en"@,
        (forall|k: int|
            0 <= k < locale.len() ==> ('a' <= (#[trigger] locale[k]) && locale[k] <= 'z') || ('A'
                <= locale[k] && locale[k] <= 'Z') || locale[k] == '-') ==> tag(locale) == locale,
{
    if 0 <= i < locale.len() && (locale[i] == '/' || locale[i] == '.' || locale[i] == '\\'
        || locale[i] == ' ') {
        assert(!crate::console::assets::tag_char(locale[i]));
    }
}

// ---- passing on ----------------------------------------------------------------

/// An answer is sent compressed where that is smaller, and as it is where it is not.
pub proof fn law_an_answer_is_compressed_where_that_is_smaller(bytes: Seq<u8>, z: Seq<u8>)
    ensures
        z.len() < bytes.len() ==> packed(bytes, Some(z)) == PackedV::Gzip(z),
        z.len() >= bytes.len() ==> packed(bytes, Some(z)) == PackedV::Plain(bytes),
        packed(bytes, None) matches PackedV::Failed(f) && f.status == 500,
{
}

/// A page may be gone to from anywhere where no host is listed, and only from those listed
/// where some are; where it is not said where from, it may.
pub proof fn law_where_a_page_may_be_gone_to_from(r: Seq<char>, listed: Seq<Seq<char>>)
    ensures
        may_go_to(None, listed),
        listed.len() == 0 ==> may_go_to(Some(r), listed),
        listed.len() > 0 ==> (may_go_to(Some(r), listed) <==> listed.contains(host_of(r))),
{
}

// ---- what it is started with ---------------------------------------------------

/// A setting that is given is a name and a value about the first equals sign, with the blanks
/// round each left off; without a name it is none.
pub proof fn law_a_setting_is_a_name_and_a_value(key: Seq<char>, value: Seq<char>)
    requires
        key.len() > 0 ==> printed(key[0]) && printed(key.last()),
        value.len() > 0 ==> printed(value[0]) && printed(value.last()),
        !key.contains('='),
    ensures
        key.len() > 0 ==> pair(key + "="@ + value) == Some((key, value)),
        key.len() == 0 ==> pair(key + "="@ + value) is None,
        pair(key) is None,
{
    reveal_strlit("=");
    let s = key + "="@ + value;
    law_a_text_is_found_where_it_first_occurs(s, "="@);
    law_a_text_is_found_where_it_first_occurs(key, "="@);
    assert(s.subrange(key.len() as int, key.len() as int + 1) =~= "="@);
    assert(occurs_at(s, "="@, key.len() as int));
    match crate::text::first_in(s, "="@) {
        Some(i) => {
            if i < key.len() {
                assert(s.subrange(i as int, i as int + 1)[0] == key[i as int]);
                assert(key[i as int] == '=');
            }
            assert(i == key.len());
            assert(s.take(i as int) =~= key);
            assert(s.skip(i as int + 1) =~= value);
        },
        None => {},
    }
    match crate::text::first_in(key, "="@) {
        Some(i) => {
            assert(key.subrange(i as int, i as int + 1)[0] == key[i as int]);
            assert(key[i as int] == '=');
        },
        None => {},
    }
    let none = Seq::<char>::empty();
    law_a_text_is_trimmed_of_the_blanks_round_it(none, key, none);
    assert(none + key + none =~= key);
    law_a_text_is_trimmed_of_the_blanks_round_it(none, value, none);
    assert(none + value + none =~= value);
}

/// A value is read as what it stands for, and is a text where it stands for nothing else.
pub proof fn law_a_value_is_read_or_is_a_text(value: Seq<char>, j: JsonV)
    ensures
        read_as(value, Some(j)) == j,
        read_as(value, None) == JsonV::Text(value),
{
}

proof fn lemma_links(applications: Seq<Seq<char>>, n: nat, i: int)
    requires
        0 <= i < n <= applications.len(),
    ensures
        lookup(links(applications, n), applications[i]) == Some(JsonV::Bool(true)),
    decreases n,
{
    crate::list::lemma_with(
        links(applications, (n - 1) as nat),
        applications[n - 1],
        JsonV::Bool(true),
        applications[i],
    );
    if i < n - 1 {
        lemma_links(applications, (n - 1) as nat, i);
    }
}

/// Every application may be gone to.
pub proof fn law_every_application_may_be_gone_to(
    pinned: Seq<(Seq<char>, JsonV)>,
    applications: Seq<Seq<char>>,
    i: int,
)
    requires
        0 <= i < applications.len(),
    ensures
        member(capable(pinned, applications), "navLinks"@) matches Some(l) && member(
            l,
            applications[i],
        ) == Some(JsonV::Bool(true)),
{
    lemma_links(applications, applications.len(), i);
    crate::laws::snapshot::law_a_member_that_is_set(
        pinned,
        "navLinks"@,
        JsonV::Object(links(applications, applications.len())),
        "navLinks"@,
    );
}

/// A search of the page that manages objects may say how many to a page and by what they are
/// sorted in its own spelling.
pub proof fn law_how_a_managed_search_is_spelled(v: Seq<char>)
    requires
        !occurs(v, "perPage="@),
        !occurs("per_page="@ + v, "sortField="@),
        !occurs("perPage="@ + v, "sortField="@),
    ensures
        respelled("perPage="@ + v) == "per_page="@ + v,
{
    let from = "perPage="@;
    let to = "per_page="@;
    let q = from + v;
    reveal_strlit("perPage=");
    reveal_strlit("sortField=");
    assert(from.len() > 0 && "sortField="@.len() > 0);
    assert(q.take(from.len() as int) =~= from);
    let none = Seq::<char>::empty();
    assert(q.take(0) =~= none);
    assert(q.skip(from.len() as int) =~= v);
    assert(halves(q, from) == Some((none, v)));
    law_a_text_is_put_in_place_of_another(q, from, to, none, v);
    law_a_text_is_put_in_place_of_another(v, from, to, none, v);
    assert(none + to + v =~= to + v);
    law_a_text_is_put_in_place_of_another(to + v, "sortField="@, "sort_field="@, none, v);
}

/// A file at the top is what it is by what its name ends in.
pub proof fn law_what_a_file_at_the_top_is(stem: Seq<char>, ext: Seq<char>)
    requires
        stem.len() > 0,
        !stem.contains('.'),
        !ext.contains('.'),
        !stem.contains('/'),
        !ext.contains('/'),
    ensures
        kind_of_file(stem + "."@ + ext) == kind_by(ext),
        kind_of_file(stem) == "application/octet-stream"@,
{
    law_what_a_name_ends_in(stem, ext);
    reveal_strlit(".");
    let name = stem + "."@ + ext;
    assert forall|i: int| 0 <= i < name.len() implies name[i] != '/' by {
        if i < stem.len() {
            assert(stem[i] != '/');
        } else if i > stem.len() {
            assert(ext[i - stem.len() - 1] != '/');
        }
    }
    crate::text::lemma_cut_whole(name, '/');
    crate::text::lemma_cut_whole(stem, '/');
}

} // verus!
