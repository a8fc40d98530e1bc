//! What the console carries to the engine, and what it does not.

use vstd::prelude::*;

use crate::console::failed::FailedV;
use crate::console::passage::{carried_as, passes, path_to};
use crate::laws::words::{
    law_a_mark_is_taken_off_the_front, law_a_text_is_found_where_it_first_occurs, occurs,
};
use crate::list::lookup;
use crate::pattern::matching;
use crate::text::raised;

verus! {

/// Whether a path fits one of the filters.
pub open spec fn fits_a_filter(filters: Seq<Seq<char>>, path: Seq<char>) -> bool {
    exists|i: int| 0 <= i < filters.len() && matching(#[trigger] filters[i], path) == Some(true)
}

/// A letter is raised to its capital, and nothing else is changed.
pub proof fn law_letters_are_raised(s: Seq<char>)
    ensures
        raised(s).len() == s.len(),
        forall|i: int|
            0 <= i < s.len() ==> #[trigger] raised(s)[i] as int == if 97 <= s[i] as int <= 122 {
                s[i] as int - 32
            } else {
                s[i] as int
            },
{
}

/// A request whose method is HEAD, GET, POST, PUT or DELETE, in letters of either
/// case, and whose path is not empty and fits a filter is carried, with that
/// method in capitals.
pub proof fn law_what_fits_a_filter_is_carried(
    pairs: Seq<(Seq<char>, Seq<char>)>,
    filters: Seq<Seq<char>>,
    given: Seq<char>,
    path: Seq<char>,
)
    requires
        lookup(pairs, "method"@) == Some(given),
        lookup(pairs, "path"@) == Some(path),
        raised(given) == "HEAD"@ || raised(given) == "GET"@ || raised(given) == "POST"@ || raised(
            given,
        ) == "PUT"@ || raised(given) == "DELETE"@,
        path.len() > 0,
        fits_a_filter(filters, path),
    ensures
        carried_as(pairs, filters) == Ok::<(Seq<char>, Seq<char>), Result<FailedV, Seq<char>>>(
            (raised(given), path_to(path)),
        ),
{
    let i = choose|i: int|
        0 <= i < filters.len() && matching(#[trigger] filters[i], path) == Some(true);
    assert((crate::console::passage::lets(path))(filters[i]));
}

/// A request with no method, with another method, with no path or with an empty one
/// is a bad one: it is answered 400, whatever the filters let.
pub proof fn law_a_request_that_says_too_little_is_a_bad_one(
    pairs: Seq<(Seq<char>, Seq<char>)>,
    filters: Seq<Seq<char>>,
)
    ensures
        ({
            let r = carried_as(pairs, filters);
            let bad = match lookup(pairs, "method"@) {
                None => true,
                Some(given) => {
                    let m = raised(given);
                    !(m == "HEAD"@ || m == "GET"@ || m == "POST"@ || m == "PUT"@ || m == "DELETE"@)
                },
            } || match lookup(pairs, "path"@) {
                None => true,
                Some(p) => p.len() == 0,
            };
            match r {
                Err(Ok(f)) => bad && f.status == 400,
                _ => !bad,
            }
        }),
{
}

/// A request that is no bad one and whose path fits no filter is forbidden, and is
/// told which path that was.
pub proof fn law_what_fits_no_filter_is_forbidden(
    pairs: Seq<(Seq<char>, Seq<char>)>,
    filters: Seq<Seq<char>>,
    given: Seq<char>,
    path: Seq<char>,
)
    requires
        lookup(pairs, "method"@) == Some(given),
        lookup(pairs, "path"@) == Some(path),
        raised(given) == "HEAD"@ || raised(given) == "GET"@ || raised(given) == "POST"@ || raised(
            given,
        ) == "PUT"@ || raised(given) == "DELETE"@,
        path.len() > 0,
        !fits_a_filter(filters, path),
    ensures
        carried_as(pairs, filters) == Err::<(Seq<char>, Seq<char>), Result<FailedV, Seq<char>>>(
            Err(
                "Error connecting to '"@ + path + "':\n\nUnable to send requests to that path."@,
            ),
        ),
{
    let p = crate::console::passage::lets(path);
    if crate::list::any(filters, p) {
        let i = choose|i: int| 0 <= i < filters.len() && p(#[trigger] filters[i]);
        assert(matching(filters[i], path) == Some(true));
    }
}

/// A path is carried with one slash at its front, however many it came with, and
/// with a request for an answer laid out to be read, unless it says for itself
/// how the answer is laid out.
pub proof fn law_a_path_is_carried_with_one_slash_and_a_layout(n: nat, rest: Seq<char>)
    requires
        rest.len() > 0 ==> rest[0] != '/',
    ensures
        ({
            let carried = path_to(Seq::new(n, |i: int| '/') + rest);
            let path = "/"@ + rest;
            &&& occurs(path, "pretty="@) ==> carried == path
            &&& !occurs(path, "pretty="@) && rest.contains('?') ==> carried == path
                + "&pretty=true"@
            &&& !occurs(path, "pretty="@) && !rest.contains('?') ==> carried == path
                + "?pretty=true"@
        }),
{
    reveal_strlit("/");
    reveal_strlit("&");
    reveal_strlit("?");
    reveal_strlit("pretty=true");
    reveal_strlit("&pretty=true");
    reveal_strlit("?pretty=true");
    assert("/"@ =~= seq!['/']);
    law_a_mark_is_taken_off_the_front('/', n, rest);
    let path = "/"@ + rest;
    law_a_text_is_found_where_it_first_occurs(path, "pretty="@);
    if rest.contains('?') {
        let k = rest.index_of('?');
        assert(path[k + 1] == '?');
    } else if path.contains('?') {
        let k = path.index_of('?');
        assert(rest[k - 1] == '?');
    }
    assert(path + "&"@ + "pretty=true"@ =~= path + "&pretty=true"@);
    assert(path + "?"@ + "pretty=true"@ =~= path + "?pretty=true"@);
}

/// A request that changes something passes a guarded console only with the mark
/// that the console's own pages carry; one that reads passes without it.
pub proof fn law_only_a_marked_request_changes_anything(method: Seq<char>)
    ensures
        method == "POST"@ || method == "PUT"@ || method == "DELETE"@ || method == "PATCH"@
            ==> !passes(true, method, false),
        method == "GET"@ || method == "HEAD"@ || method == "OPTIONS"@ ==> passes(
            true,
            method,
            false,
        ),
        passes(true, method, true),
        passes(false, method, false),
{
    reveal_strlit("POST");
    reveal_strlit("PUT");
    reveal_strlit("DELETE");
    reveal_strlit("PATCH");
    reveal_strlit("GET");
    reveal_strlit("HEAD");
    reveal_strlit("OPTIONS");
    assert("POST"@.len() == 4 && "HEAD"@.len() == 4 && "GET"@.len() == 3 && "PUT"@.len() == 3);
    assert("DELETE"@.len() == 6 && "PATCH"@.len() == 5 && "OPTIONS"@.len() == 7);
    assert("POST"@[0] == 'P' && "HEAD"@[0] == 'H' && "GET"@[0] == 'G' && "PUT"@[0] == 'P');
}

} // verus!
