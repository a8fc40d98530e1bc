//! Which repositories and snapshots there can be, and which are found.

use vstd::prelude::*;

use crate::api::snapshot::pick::{
    deleted, fitting, found, is_pattern, picked, reached, snapshot_missing, snapshots_answer,
};
use crate::api::snapshot::repository::{
    bad_lookup, forbidden, is_bad_name, is_named, is_readonly, missing, only_read, parts,
    proof_asked, repositories_answer, shown, unregistrable, WhereaboutsV,
};
use crate::api::answer::{done, AnswerV};
use crate::json::{member, JsonV, NumberV};
use crate::laws::answers::{law_a_failure_tells_what_it_holds, law_a_refusal_tells_why, tells};
use crate::laws::words::{
    law_a_text_is_cut_into_the_words_between_marks, law_a_text_is_trimmed_of_the_blanks_round_it,
    law_what_passes_is_kept, printed, stands,
};
use crate::list::{called, keep, lemma_find, lookup};
use crate::text::{cut, fits, trimmed};

verus! {

/// A repository is of one of the kinds there are: a request that says no kind is a bad
/// one, and one that says another kind fails.
pub proof fn law_a_repository_is_of_a_known_kind(name: Seq<char>, body: JsonV, w: WhereaboutsV)
    ensures
        ({
            let r = unregistrable(name, body, w);
            let kind = match member(body, "type"@) {
                Some(JsonV::Text(k)) => k,
                _ => ""@,
            };
            let known = kind == "fs"@ || kind == "url"@ || kind == "s3"@ || kind == "gcs"@ || kind
                == "azure"@;
            &&& kind.len() == 0 ==> r is Some && tells(
                r->0,
                400,
                "repository_exception"@,
                "["@ + name + "] missing repository type"@,
            )
            &&& kind.len() > 0 && !known ==> r is Some && tells(
                r->0,
                500,
                "repository_exception"@,
                "["@ + name + "] repository type ["@ + kind + "] does not exist"@,
            )
            &&& (kind == "s3"@ || kind == "gcs"@ || kind == "azure"@) && w.url is None ==> r is None
        }),
{
    let kind = match member(body, "type"@) {
        Some(JsonV::Text(k)) => k,
        _ => ""@,
    };
    law_a_refusal_tells_why(
        400,
        "repository_exception"@,
        "["@ + name + "] missing repository type"@,
        Seq::empty(),
    );
    law_a_refusal_tells_why(
        500,
        "repository_exception"@,
        "["@ + name + "] repository type ["@ + kind + "] does not exist"@,
        Seq::empty(),
    );
    reveal_strlit("fs");
    reveal_strlit("s3");
    reveal_strlit("gcs");
    reveal_strlit("azure");
    assert("fs"@.len() == 2 && "s3"@.len() == 2 && "gcs"@.len() == 3 && "azure"@.len() == 5);
    assert("fs"@[0] == 'f' && "s3"@[0] == 's');
}

/// A repository in a directory is let only under the directories the node lets, and one
/// at a file's address only where that is let.
pub proof fn law_a_repository_stands_where_it_is_let(
    name: Seq<char>,
    body: JsonV,
    w: WhereaboutsV,
    location: Seq<char>,
)
    requires
        member(body, "type"@) == Some(JsonV::Text("fs"@)),
        member(body, "settings"@) matches Some(s) && member(s, "location"@) == Some(
            JsonV::Text(location),
        ),
        w.url is None,
    ensures
        w.located ==> unregistrable(name, body, w) is None,
        !w.located ==> unregistrable(name, body, w) is Some && tells(
            unregistrable(name, body, w)->0,
            500,
            "repository_exception"@,
            "["@ + name + "] failed to create repository"@,
        ),
{
    reveal_strlit("fs");
    reveal_strlit("type");
    reveal_strlit("reason");
    reveal_strlit("root_cause");
    assert("type"@.len() == 4 && "reason"@.len() == 6 && "root_cause"@.len() == 10);
    let a = crate::api::snapshot::repository::not_created(name, location);
    let e = member(a.body, "error"@);
    let why = JsonV::Object(
        crate::api::answer::cause(
            "repository_exception"@,
            "["@ + name + "] location ["@ + location
                + "] doesn't match any of the locations specified by path.repo"@,
        ),
    );
    let o = crate::json::no_fields().push(("root_cause"@, JsonV::List(seq![why]))).push(
        ("type"@, JsonV::Text("repository_exception"@)),
    ).push(("reason"@, JsonV::Text("["@ + name + "] failed to create repository"@))).push(
        ("caused_by"@, why),
    );
    lemma_find(o, called::<JsonV>("type"@), 1);
    lemma_find(o, called::<JsonV>("reason"@), 2);
    law_a_failure_tells_what_it_holds(
        500,
        o,
        "repository_exception"@,
        "["@ + name + "] failed to create repository"@,
    );
}

/// A repository is proved to be there unless that is declined.
pub proof fn law_a_repository_is_proved_unless_declined(v: Seq<char>)
    ensures
        proof_asked(None),
        trimmed(v) == "false"@ || trimmed(v) == "0"@ ==> !proof_asked(Some(v)),
        trimmed(v) != "false"@ && trimmed(v) != "0"@ ==> proof_asked(Some(v)),
{
}

/// A repository is asked for by its name, by a pattern, or with all the others.
pub proof fn law_what_asks_for_a_repository(want: Seq<char>, name: Seq<char>, one: Seq<char>)
    requires
        stands(want, ',', one),
        !one.contains(','),
        one.len() > 0 ==> printed(one[0]) && printed(one.last()),
    ensures
        one == name || one == "_all"@ || one == "*"@ || fits(one, name) ==> is_named(want, name),
{
    law_a_text_is_cut_into_the_words_between_marks(want, ',', one);
    let i = cut(want, ',').index_of(one);
    let none = Seq::<char>::empty();
    law_a_text_is_trimmed_of_the_blanks_round_it(none, one, none);
    assert(none + one + none =~= one);
    assert(trimmed(cut(want, ',')[i]) == one);
}

/// A repository that is only read is one reached at an address, or one that is set to be,
/// by a truth or by the word for it.
pub proof fn law_which_repositories_are_only_read(repo: JsonV, settings: JsonV)
    ensures
        is_readonly(repo, true),
        member(repo, "settings"@) is None ==> !is_readonly(repo, false),
        member(repo, "settings"@) == Some(settings) ==> is_readonly(repo, false) == (member(
            settings,
            "readonly"@,
        ) == Some(JsonV::Bool(true)) || member(settings, "readonly"@) == Some(
            JsonV::Text("true"@),
        )),
{
}

/// A name is bad where it is empty, begins with `_`, is a step in a path, or holds a blank
/// or one of the characters that are not let.
pub proof fn law_which_names_are_bad(name: Seq<char>, i: int)
    ensures
        name.len() == 0 ==> is_bad_name(name),
        name.len() > 0 && name[0] == '_' ==> is_bad_name(name),
        name == "."@ || name == ".."@ ==> is_bad_name(name),
        0 <= i < name.len() && (name[i] == ' ' || name[i] == '\t' || name[i] == '\n' || name[i]
            == '\\' || name[i] == '/' || name[i] == '*' || name[i] == '?' || name[i] == '"'
            || name[i] == '<' || name[i] == '>' || name[i] == '|' || name[i] == ',' || name[i]
            == '#') ==> is_bad_name(name),
        0 <= i < name.len() && crate::text::upper(name[i]) ==> is_bad_name(name),
        name.len() > 0 && name[0] != '_' && name != "."@ && name != ".."@ && (forall|k: int|
            0 <= k < name.len() ==> (('a' <= (#[trigger] name[k]) && name[k] <= 'z') || ('0'
                <= name[k] && name[k] <= '9') || name[k] == '-' || name[k] == '_' || name[k] == '.')
                && !crate::text::upper(name[k])) ==> !is_bad_name(name),
{
    if 0 <= i < name.len() && (name[i] == ' ' || name[i] == '\t' || name[i] == '\n' || name[i]
        == '\\' || name[i] == '/' || name[i] == '*' || name[i] == '?' || name[i] == '"' || name[i]
        == '<' || name[i] == '>' || name[i] == '|' || name[i] == ',' || name[i] == '#') {
        assert(forbidden(name[i]));
    }
}

/// A repository that is not there is told to be missing, and a snapshot too.
pub proof fn law_what_is_not_there_is_missing(repo: Seq<char>, name: Seq<char>)
    ensures
        tells(missing(repo), 404, "repository_missing_exception"@, "["@ + repo + "] missing"@),
        tells(
            snapshot_missing(repo, name),
            404,
            "snapshot_missing_exception"@,
            "["@ + repo + ":"@ + name + "] is missing"@,
        ),
        tells(
            only_read(repo),
            400,
            "repository_exception"@,
            "["@ + repo + "] cannot delete snapshot from a readonly repository"@,
        ),
{
    law_a_refusal_tells_why(
        404,
        "repository_missing_exception"@,
        "["@ + repo + "] missing"@,
        Seq::empty(),
    );
    law_a_refusal_tells_why(
        404,
        "snapshot_missing_exception"@,
        "["@ + repo + ":"@ + name + "] is missing"@,
        Seq::empty(),
    );
    law_a_refusal_tells_why(
        400,
        "repository_exception"@,
        "["@ + repo + "] cannot delete snapshot from a readonly repository"@,
        Seq::empty(),
    );
}

proof fn lemma_picked_repositories(
    all: Seq<(Seq<char>, JsonV)>,
    want: Seq<char>,
    n: nat,
    k: int,
)
    requires
        0 <= k < n <= all.len(),
        want.len() == 0 || is_named(want, all[k].0),
    ensures
        crate::api::snapshot::repository::picked(all, want, n).contains(
            (all[k].0, shown(all[k].1)),
        ),
    decreases n,
{
    let now = crate::api::snapshot::repository::picked(all, want, n);
    let x = (all[k].0, shown(all[k].1));
    if k == n - 1 {
        assert(now[now.len() - 1] == x);
    } else {
        lemma_picked_repositories(all, want, (n - 1) as nat, k);
        let before = crate::api::snapshot::repository::picked(all, want, (n - 1) as nat);
        let j = before.index_of(x);
        assert(now[j] == x);
    }
}

/// A repository that is asked for is shown, and every one is where none is named; where
/// none is found, that is an error only if one was asked for by its own name.
pub proof fn law_a_repository_asked_for_is_shown(
    all: Seq<(Seq<char>, JsonV)>,
    want: Seq<char>,
    k: int,
)
    ensures
        0 <= k < all.len() && (want.len() == 0 || is_named(want, all[k].0)) ==> {
            let a = repositories_answer(all, want);
            a.status == 200 && (a.body matches JsonV::Object(o) && o.contains(
                (all[k].0, shown(all[k].1)),
            ))
        },
        all.len() == 0 && want.len() > 0 && !want.contains('*') && want != "_all"@
            ==> repositories_answer(all, want) == missing(want),
        all.len() == 0 && (want.len() == 0 || want.contains('*') || want == "_all"@)
            ==> repositories_answer(all, want) == done(JsonV::Object(Seq::empty())),
{
    if 0 <= k < all.len() && (want.len() == 0 || is_named(want, all[k].0)) {
        lemma_picked_repositories(all, want, all.len(), k);
    }
    if all.len() == 0 {
        assert(crate::api::snapshot::repository::picked(all, want, 0) =~= Seq::empty());
    }
}

/// The settings of a repository are shown as texts: a number or a truth in so many words.
pub proof fn law_settings_of_a_repository_are_shown_as_texts(
    o: Seq<(Seq<char>, JsonV)>,
    s: Seq<(Seq<char>, JsonV)>,
    i: int,
    j: int,
)
    requires
        0 <= i < o.len(),
        0 <= j < s.len(),
        o[i] == ("settings"@, JsonV::Object(s)),
    ensures
        shown(JsonV::Object(o)) matches JsonV::Object(p) && p.len() == o.len() && p[i].0
            == "settings"@ && (p[i].1 matches JsonV::Object(q) && q.len() == s.len() && q[j].0
            == s[j].0 && match s[j].1 {
            JsonV::Bool(b) => q[j].1 == JsonV::Text(
                if b {
                    "true"@
                } else {
                    "false"@
                },
            ),
            JsonV::Number(NumberV::Whole(n)) => q[j].1 == JsonV::Text(crate::text::dec(n as nat)),
            JsonV::Text(_) => q[j].1 == s[j].1,
            _ => true,
        }),
{
}

// ---- snapshots -----------------------------------------------------------------

proof fn lemma_fitting(held: Seq<(Seq<char>, JsonV)>, part: Seq<char>, n: nat, k: int)
    requires
        0 <= k < n <= held.len(),
        part == "_all"@ || fits(part, held[k].0),
    ensures
        fitting(held, part, n).contains(held[k].1),
    decreases n,
{
    let now = fitting(held, part, n);
    if k == n - 1 {
        assert(now[now.len() - 1] == held[k].1);
    } else {
        lemma_fitting(held, part, (n - 1) as nat, k);
        let j = fitting(held, part, (n - 1) as nat).index_of(held[k].1);
        assert(now[j] == held[k].1);
    }
}

proof fn lemma_reached(
    held: Seq<(Seq<char>, JsonV)>,
    named: Seq<Seq<char>>,
    n: nat,
    i: int,
    x: JsonV,
)
    requires
        0 <= i < n <= named.len(),
        ({
            let part = named[i];
            if is_pattern(part) {
                fitting(held, part, held.len()).contains(x)
            } else {
                lookup(held, part) == Some(x)
            }
        }),
    ensures
        reached(held, named, n).0.contains(x),
    decreases n,
{
    let (before, gone) = reached(held, named, (n - 1) as nat);
    let now = reached(held, named, n).0;
    if i == n - 1 {
        if is_pattern(named[i]) {
            let f = fitting(held, named[i], held.len());
            let j = f.index_of(x);
            assert(now[before.len() + j] == x);
        } else {
            assert(now[now.len() - 1] == x);
        }
    } else {
        lemma_reached(held, named, (n - 1) as nat, i, x);
        let j = before.index_of(x);
        assert(now[j] == x);
    }
}

proof fn lemma_gone(held: Seq<(Seq<char>, JsonV)>, named: Seq<Seq<char>>, n: nat)
    requires
        n <= named.len(),
    ensures
        match reached(held, named, n).1 {
            Some(g) => exists|i: int|
                0 <= i < n && #[trigger] named[i] == g && !is_pattern(g) && lookup(held, g) is None,
            None => forall|i: int|
                0 <= i < n && !is_pattern(#[trigger] named[i]) ==> lookup(held, named[i]) is Some,
        },
    decreases n,
{
    if n > 0 {
        lemma_gone(held, named, (n - 1) as nat);
        let part = named[n - 1];
        match reached(held, named, n).1 {
            Some(g) => {
                if !is_pattern(part) && lookup(held, part) is None {
                    assert(named[n - 1] == g);
                }
            },
            None => {},
        }
    }
}

/// A snapshot that is asked for is among those picked: by its name, with all of them, or
/// by a pattern its name fits. Only a name can be missing, and is where no snapshot has it.
pub proof fn law_a_snapshot_asked_for_is_picked(
    held: Seq<(Seq<char>, JsonV)>,
    want: Seq<char>,
    part: Seq<char>,
    k: int,
)
    requires
        stands(want, ',', part),
        !part.contains(','),
        part.len() > 0 ==> printed(part[0]) && printed(part.last()),
    ensures
        0 <= k < held.len() && (part == "_all"@ || (part.contains('*') && fits(part, held[k].0)))
            ==> picked(held, want).0.contains(held[k].1),
        0 <= k < held.len() && part != "_all"@ && !part.contains('*') && lookup(held, part) == Some(
            held[k].1,
        ) ==> picked(held, want).0.contains(held[k].1),
        part != "_all"@ && !part.contains('*') && lookup(held, part) is None ==> picked(
            held,
            want,
        ).1 is Some,
{
    let named = parts(want);
    law_a_text_is_cut_into_the_words_between_marks(want, ',', part);
    let i = cut(want, ',').index_of(part);
    let none = Seq::<char>::empty();
    law_a_text_is_trimmed_of_the_blanks_round_it(none, part, none);
    assert(none + part + none =~= part);
    assert(named[i] == part);
    let (f, gone) = reached(held, named, named.len());
    let less = crate::api::snapshot::pick::by_snapshot();
    lemma_by_snapshot();
    crate::list::lemma_sorted(f, less, f.len());
    assert(f.take(f.len() as int) =~= f);
    if 0 <= k < held.len() {
        if is_pattern(part) {
            if part == "_all"@ || fits(part, held[k].0) {
                lemma_fitting(held, part, held.len(), k);
                lemma_reached(held, named, named.len(), i, held[k].1);
            }
        } else if lookup(held, part) == Some(held[k].1) {
            lemma_reached(held, named, named.len(), i, held[k].1);
        }
        let s = crate::list::sorted(f, less, f.len());
        if f.contains(held[k].1) {
            f.to_multiset_ensures();
            s.to_multiset_ensures();
            assert(s.to_multiset().count(held[k].1) > 0);
            assert(s.contains(held[k].1));
        }
    }
    lemma_gone(held, named, named.len());
}

proof fn lemma_by_snapshot()
    ensures
        ({
            let less = crate::api::snapshot::pick::by_snapshot();
            &&& forall|a: JsonV, b: JsonV| #[trigger] less(a, b) ==> !less(b, a)
            &&& forall|a: JsonV, b: JsonV, c: JsonV|
                #[trigger] less(a, b) && #[trigger] less(b, c) ==> less(a, c)
        }),
{
    let less = crate::api::snapshot::pick::by_snapshot();
    assert forall|a: JsonV, b: JsonV| #[trigger] less(a, b) implies !less(b, a) by {
        match (
            crate::api::answer::said(a, "snapshot"@),
            crate::api::answer::said(b, "snapshot"@),
        ) {
            (Some(x), Some(y)) => crate::list::lemma_before(x, y),
            _ => {},
        }
    }
    assert forall|a: JsonV, b: JsonV, c: JsonV|
        #[trigger] less(a, b) && #[trigger] less(b, c) implies less(a, c) by {
        match (
            crate::api::answer::said(a, "snapshot"@),
            crate::api::answer::said(b, "snapshot"@),
            crate::api::answer::said(c, "snapshot"@),
        ) {
            (Some(x), Some(y), Some(z)) => crate::list::lemma_before_before(x, y, z),
            _ => {},
        }
    }
}

/// The snapshots that are found are answered with; one that is missing is an error unless
/// it may be, and a brief answer says only what each is called, its id, its state and what
/// it holds.
pub proof fn law_what_is_answered_of_snapshots(
    repo: Seq<char>,
    found: Seq<JsonV>,
    gone: Option<Seq<char>>,
    lenient: bool,
    brief: bool,
)
    ensures
        gone is Some && !lenient ==> snapshots_answer(repo, found, gone, lenient, brief)
            == snapshot_missing(repo, gone->0),
        (gone is None || lenient) && !brief ==> snapshots_answer(repo, found, gone, lenient, brief)
            == done(JsonV::Object(seq![("snapshots"@, JsonV::List(found))])),
        gone is None || lenient ==> snapshots_answer(repo, found, gone, lenient, brief).status
            == 200,
{
    assert(crate::json::no_fields().push(("snapshots"@, JsonV::List(found))) =~= seq![
        ("snapshots"@, JsonV::List(found)),
    ]);
}

/// A snapshot is deleted that has the name, or fits it as a pattern; nothing is deleted
/// from a repository that is only read; and a name that no snapshot has is missing, unless
/// it is a pattern.
pub proof fn law_what_is_deleted(
    repo: Seq<char>,
    name: Seq<char>,
    d: JsonV,
    over_url: bool,
    held: Seq<Seq<char>>,
    n: Seq<char>,
)
    requires
        bad_lookup(repo, name) is None,
    ensures
        deleted(repo, name, None, over_url, held) == Err::<Seq<Seq<char>>, AnswerV>(missing(repo)),
        deleted(repo, name, Some(d), over_url, held) matches Ok(going) ==> (going.contains(n)
            <==> held.contains(n) && (n == name || fits(name, n))),
        held.contains(n) && (n == name || fits(name, n)) && is_readonly(d, over_url) ==> deleted(
            repo,
            name,
            Some(d),
            over_url,
            held,
        ) == Err::<Seq<Seq<char>>, AnswerV>(only_read(repo)),
        held.contains(n) && (n == name || fits(name, n)) && !is_readonly(d, over_url) ==> deleted(
            repo,
            name,
            Some(d),
            over_url,
            held,
        ) is Ok,
        (forall|x: Seq<char>| #[trigger] held.contains(x) ==> x != name && !fits(name, x))
            && !name.contains('*') ==> deleted(repo, name, Some(d), over_url, held) == Err::<
            Seq<Seq<char>>,
            AnswerV,
        >(snapshot_missing(repo, name)),
{
    let p = crate::api::snapshot::pick::goes(name);
    let going = keep(held, p);
    law_what_passes_is_kept(held, p, n);
    if going.len() > 0 {
        assert(going.contains(going[0]));
        law_what_passes_is_kept(held, p, going[0]);
    }
}

} // verus!
