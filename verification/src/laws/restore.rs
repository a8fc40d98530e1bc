//! What a restore brings back of what it is asked for.

use vstd::prelude::*;

use crate::api::answer::{told, AnswerV};
use crate::api::snapshot::duplicate::{asked_in, asks_for};
use crate::api::snapshot::repository::parts;
use crate::api::snapshot::restore::{
    bare, chosen, comes_back, generations, is_fixed, keeping, names_asked, open_exists,
    settings_named, spelled_out, streams_reached, taking_place, target_name, unchangeable, undoing,
    ActionV, MadeV, ReplacesV, StandingV,
};
use crate::cluster::settings::strings_of;
use crate::json::{member, JsonV};
use crate::laws::words::{
    law_a_star_at_the_end_takes_whatever_follows, law_a_text_is_cut_into_the_words_between_marks,
    law_the_texts_of_a_list, law_what_passes_is_kept, stands,
};
use crate::laws::answers::{law_a_refusal_tells_why, tells};
use crate::list::lemma_found;
use crate::pattern::replaced;
use crate::text::{cut, fits, lowercase, trimmed};

verus! {

/// Whether a list that a document keeps under a name holds a text.
pub open spec fn holds_text(doc: JsonV, key: Seq<char>, x: Seq<char>) -> bool {
    match member(doc, key) {
        Some(JsonV::List(a)) => a.contains(JsonV::Text(x)),
        _ => false,
    }
}

/// Whether a request asks for a name: in a list, or between the commas of a text.
pub open spec fn asks(body: JsonV, want: Seq<char>) -> bool {
    match member(body, "indices"@) {
        Some(JsonV::List(a)) => a.contains(JsonV::Text(want)),
        Some(JsonV::Text(s)) => exists|x: Seq<char>|
            !x.contains(',') && #[trigger] stands(s, ',', x) && trimmed(x) == want,
        _ => false,
    }
}

/// Whether a request says which indices it asks for.
pub open spec fn is_choosy(body: JsonV) -> bool {
    match member(body, "indices"@) {
        Some(JsonV::List(_)) | Some(JsonV::Text(_)) => true,
        _ => false,
    }
}

proof fn lemma_reached(want: Seq<char>, streams: Seq<Seq<char>>, n: nat, k: int)
    requires
        0 <= k < n <= streams.len(),
        want == streams[k] || fits(want, streams[k]),
    ensures
        streams_reached(want, streams, n).contains(generations(streams[k])),
    decreases n,
{
    let before = streams_reached(want, streams, (n - 1) as nat);
    let now = streams_reached(want, streams, n);
    if k == n - 1 {
        assert(now[now.len() - 1] == generations(streams[k]));
    } else {
        lemma_reached(want, streams, (n - 1) as nat, k);
        let j = before.index_of(generations(streams[k]));
        assert(now[j] == generations(streams[k]));
    }
}

proof fn lemma_spelled(asked: Seq<Seq<char>>, streams: Seq<Seq<char>>, n: nat, i: int, x: Seq<char>)
    requires
        0 <= i < n <= asked.len(),
        ({
            let named = streams_reached(asked[i], streams, streams.len());
            named.contains(x) || (named.len() == 0 && asked[i] == x)
        }),
    ensures
        spelled_out(asked, streams, n).contains(x),
    decreases n,
{
    let before = spelled_out(asked, streams, (n - 1) as nat);
    let now = spelled_out(asked, streams, n);
    if i == n - 1 {
        let named = streams_reached(asked[i], streams, streams.len());
        if named.len() == 0 {
            assert(now[now.len() - 1] == x);
        } else {
            let j = named.index_of(x);
            assert(now[before.len() + j] == x);
        }
    } else {
        lemma_spelled(asked, streams, (n - 1) as nat, i, x);
        let j = before.index_of(x);
        assert(now[j] == x);
    }
}

proof fn lemma_asked(body: JsonV, want: Seq<char>) -> (i: int)
    requires
        asks(body, want),
    ensures
        crate::api::snapshot::duplicate::wanted(body) matches Some(w) && 0 <= i < w.len() && w[i]
            == want,
{
    match member(body, "indices"@) {
        Some(JsonV::List(a)) => {
            law_the_texts_of_a_list(a, want);
            strings_of(a).index_of(want)
        },
        Some(JsonV::Text(s)) => {
            let x = choose|x: Seq<char>|
                !x.contains(',') && #[trigger] stands(s, ',', x) && trimmed(x) == want;
            law_a_text_is_cut_into_the_words_between_marks(s, ',', x);
            let i = cut(s, ',').index_of(x);
            assert(parts(s)[i] == want);
            i
        },
        _ => 0,
    }
}

/// A data stream is brought back by its own name, or by a pattern its name fits:
/// every index the snapshot holds whose name begins with `.ds-`, the stream and
/// `-` is among those that are restored.
pub proof fn law_a_stream_is_brought_back_by_its_name(
    repo: Seq<char>,
    name: Seq<char>,
    source: JsonV,
    body: JsonV,
    path_lenient: bool,
    stream: Seq<char>,
    want: Seq<char>,
    rest: Seq<char>,
)
    requires
        chosen(repo, name, Some(source), body, path_lenient) is Ok,
        holds_text(source, "data_streams"@, stream),
        asks(body, want),
        want == stream || fits(want, stream),
        holds_text(source, "indices"@, ".ds-"@ + stream + "-"@ + rest),
    ensures
        chosen(repo, name, Some(source), body, path_lenient)->Ok_0.contains(
            ".ds-"@ + stream + "-"@ + rest,
        ),
{
    let held = crate::api::answer::texts_at(source, "indices"@);
    let streams = crate::api::answer::texts_at(source, "data_streams"@);
    let n = ".ds-"@ + stream + "-"@ + rest;
    match member(source, "indices"@) {
        Some(JsonV::List(a)) => law_the_texts_of_a_list(a, n),
        _ => {},
    }
    match member(source, "data_streams"@) {
        Some(JsonV::List(a)) => law_the_texts_of_a_list(a, stream),
        _ => {},
    }
    let k = streams.index_of(stream);
    lemma_reached(want, streams, streams.len(), k);
    let i = lemma_asked(body, want);
    let w = crate::api::snapshot::duplicate::wanted(body)->0;
    let p = generations(stream);
    lemma_spelled(w, streams, w.len(), i, p);
    let asked = names_asked(source, body);
    let j = asked.index_of(p);
    let head = ".ds-"@ + stream + "-"@;
    reveal_strlit("-*");
    reveal_strlit("-");
    assert(p =~= head + seq!['*']);
    law_a_star_at_the_end_takes_whatever_follows(head, rest);
    assert((asks_for(n))(asked[j]));
    law_what_passes_is_kept(held, asked_in(asked), n);
}

/// A name that no data stream of the snapshot answers to stands for itself: an index
/// the snapshot holds that is called so, or fits it as a pattern, is among those
/// that are restored.
pub proof fn law_an_index_is_brought_back_by_its_name(
    repo: Seq<char>,
    name: Seq<char>,
    source: JsonV,
    body: JsonV,
    path_lenient: bool,
    want: Seq<char>,
    n: Seq<char>,
)
    requires
        chosen(repo, name, Some(source), body, path_lenient) is Ok,
        asks(body, want),
        forall|s: Seq<char>|
            #[trigger] holds_text(source, "data_streams"@, s) ==> want != s && !fits(want, s),
        holds_text(source, "indices"@, n),
        want == n || fits(want, n),
    ensures
        chosen(repo, name, Some(source), body, path_lenient)->Ok_0.contains(n),
{
    let held = crate::api::answer::texts_at(source, "indices"@);
    let streams = crate::api::answer::texts_at(source, "data_streams"@);
    match member(source, "indices"@) {
        Some(JsonV::List(a)) => law_the_texts_of_a_list(a, n),
        _ => {},
    }
    assert forall|k: int| 0 <= k < streams.len() implies want != #[trigger] streams[k] && !fits(
        want,
        streams[k],
    ) by {
        match member(source, "data_streams"@) {
            Some(JsonV::List(a)) => {
                law_the_texts_of_a_list(a, streams[k]);
                assert(streams.contains(streams[k]));
                assert(holds_text(source, "data_streams"@, streams[k]));
            },
            _ => {},
        }
    }
    lemma_none_reached(want, streams, streams.len());
    let i = lemma_asked(body, want);
    let w = crate::api::snapshot::duplicate::wanted(body)->0;
    lemma_spelled(w, streams, w.len(), i, want);
    let asked = names_asked(source, body);
    let j = asked.index_of(want);
    assert((asks_for(n))(asked[j]));
    law_what_passes_is_kept(held, asked_in(asked), n);
}

proof fn lemma_none_reached(want: Seq<char>, streams: Seq<Seq<char>>, n: nat)
    requires
        n <= streams.len(),
        forall|k: int|
            0 <= k < streams.len() ==> want != #[trigger] streams[k] && !fits(want, streams[k]),
    ensures
        streams_reached(want, streams, n).len() == 0,
    decreases n,
{
    if n > 0 {
        lemma_none_reached(want, streams, (n - 1) as nat);
        assert(want != streams[n - 1]);
    }
}

/// A restore of a snapshot that is not there fails, and so does one of a bad name.
pub proof fn law_a_snapshot_that_is_not_there_is_not_restored(
    repo: Seq<char>,
    name: Seq<char>,
    body: JsonV,
    path_lenient: bool,
)
    ensures
        crate::api::snapshot::repository::is_bad_name(name) ==> (chosen(
            repo,
            name,
            None,
            body,
            path_lenient,
        ) matches Err(a) && a.status == 400),
        !crate::api::snapshot::repository::is_bad_name(name) ==> (chosen(
            repo,
            name,
            None,
            body,
            path_lenient,
        ) matches Err(a) && tells(
            a,
            500,
            "snapshot_restore_exception"@,
            "["@ + repo + ":"@ + name + "] snapshot does not exist"@,
        )),
{
    law_a_refusal_tells_why(
        500,
        "snapshot_restore_exception"@,
        "["@ + repo + ":"@ + name + "] snapshot does not exist"@,
        Seq::empty(),
    );
}

/// A snapshot that lists no index is one that could not be read, unless it kept the
/// cluster's own state and that is what is asked for.
pub proof fn law_a_snapshot_of_nothing_is_not_restored(
    repo: Seq<char>,
    name: Seq<char>,
    source: JsonV,
    body: JsonV,
    path_lenient: bool,
)
    requires
        !crate::api::snapshot::repository::is_bad_name(name),
        forall|n: Seq<char>| !#[trigger] holds_text(source, "indices"@, n),
        !(told(source, "include_global_state"@) == Some(true) && told(
            body,
            "include_global_state"@,
        ) == Some(true)),
    ensures
        chosen(repo, name, Some(source), body, path_lenient) matches Err(a) && tells(
            a,
            500,
            "repository_exception"@,
            "["@ + repo + ":"@ + name
                + "] lists no indices; the repository could not be read, or the snapshot was never finished"@,
        ),
{
    law_a_refusal_tells_why(
        500,
        "repository_exception"@,
        "["@ + repo + ":"@ + name
            + "] lists no indices; the repository could not be read, or the snapshot was never finished"@,
        Seq::empty(),
    );
    let held = crate::api::answer::texts_at(source, "indices"@);
    if held.len() > 0 {
        match member(source, "indices"@) {
            Some(JsonV::List(a)) => {
                law_the_texts_of_a_list(a, held[0]);
                assert(held.contains(held[0]));
                assert(holds_text(source, "indices"@, held[0]));
            },
            _ => {},
        }
    }
}

/// An index that is asked for by its name and that the snapshot does not hold is missing,
/// unless it may be unavailable; a pattern may reach nothing.
pub proof fn law_an_index_named_and_not_held_is_missing(
    repo: Seq<char>,
    name: Seq<char>,
    source: JsonV,
    body: JsonV,
    want: Seq<char>,
    n: Seq<char>,
)
    requires
        !crate::api::snapshot::repository::is_bad_name(name),
        holds_text(source, "indices"@, n),
        asks(body, want),
        forall|s: Seq<char>|
            #[trigger] holds_text(source, "data_streams"@, s) ==> want != s && !fits(want, s),
        !want.contains('*'),
        !holds_text(source, "indices"@, want),
    ensures
        told(body, "ignore_unavailable"@) != Some(true) ==> (chosen(
            repo,
            name,
            Some(source),
            body,
            false,
        ) matches Err(a) && a.status == 404),
        told(body, "ignore_unavailable"@) == Some(true) && unchangeable(body) is None ==> chosen(
            repo,
            name,
            Some(source),
            body,
            false,
        ) is Ok,
        unchangeable(body) is None ==> chosen(repo, name, Some(source), body, true) is Ok,
{
    let held = crate::api::answer::texts_at(source, "indices"@);
    let streams = crate::api::answer::texts_at(source, "data_streams"@);
    match member(source, "indices"@) {
        Some(JsonV::List(a)) => {
            law_the_texts_of_a_list(a, n);
            law_the_texts_of_a_list(a, want);
        },
        _ => {},
    }
    assert forall|k: int| 0 <= k < streams.len() implies want != #[trigger] streams[k] && !fits(
        want,
        streams[k],
    ) by {
        match member(source, "data_streams"@) {
            Some(JsonV::List(a)) => {
                law_the_texts_of_a_list(a, streams[k]);
                assert(streams.contains(streams[k]));
                assert(holds_text(source, "data_streams"@, streams[k]));
            },
            _ => {},
        }
    }
    lemma_none_reached(want, streams, streams.len());
    let i = lemma_asked(body, want);
    let w = crate::api::snapshot::duplicate::wanted(body)->0;
    lemma_spelled(w, streams, w.len(), i, want);
    let asked = names_asked(source, body);
    let j = asked.index_of(want);
    let p = crate::api::snapshot::restore::unheld(held);
    assert(p(asked[j]));
    lemma_found(asked, p);
}

/// A restore that would set what stays as an index was made is refused: its number of
/// shards, its id, the version it was made under and the date.
pub proof fn law_some_settings_stay_as_they_were_made(
    body: JsonV,
    o: Seq<(Seq<char>, JsonV)>,
    i: int,
)
    requires
        member(body, "index_settings"@) == Some(JsonV::Object(o)),
        0 <= i < o.len(),
        !(o[i].1 is Object),
        o[i].0 == "number_of_shards"@ || o[i].0 == "uuid"@ || o[i].0 == "version.created"@
            || o[i].0 == "creation_date"@ || o[i].0 == "index.number_of_shards"@ || o[i].0
            == "index.uuid"@ || o[i].0 == "index.version.created"@ || o[i].0
            == "index.creation_date"@,
    ensures
        unchangeable(body) is Some,
{
    lemma_fixed_words();
    lemma_named(o, o.len(), i);
    let keys = settings_named(o, o.len());
    let k = keys.index_of(bare(o[i].0));
    let p = crate::api::snapshot::restore::fixed();
    assert(p(keys[k]));
    lemma_found(keys, p);
}

proof fn lemma_named(o: Seq<(Seq<char>, JsonV)>, n: nat, i: int)
    requires
        0 <= i < n <= o.len(),
        !(o[i].1 is Object),
    ensures
        settings_named(o, n).contains(bare(o[i].0)),
    decreases n,
{
    let now = settings_named(o, n);
    let before = settings_named(o, (n - 1) as nat);
    if i == n - 1 {
        assert(now[now.len() - 1] == bare(o[i].0));
    } else {
        lemma_named(o, (n - 1) as nat, i);
        let j = before.index_of(bare(o[i].0));
        assert(now[j] == before[j]);
    }
}

proof fn lemma_fixed_words()
    ensures
        is_fixed(bare("number_of_shards"@)),
        is_fixed(bare("uuid"@)),
        is_fixed(bare("version.created"@)),
        is_fixed(bare("creation_date"@)),
        is_fixed(bare("index.number_of_shards"@)),
        is_fixed(bare("index.uuid"@)),
        is_fixed(bare("index.version.created"@)),
        is_fixed(bare("index.creation_date"@)),
{
    lemma_bare("number_of_shards"@);
    lemma_bare("uuid"@);
    lemma_bare("version.created"@);
    lemma_bare("creation_date"@);
    reveal_strlit("number_of_shards");
    reveal_strlit("uuid");
    reveal_strlit("version.created");
    reveal_strlit("creation_date");
    reveal_strlit("index.");
    reveal_strlit("index.number_of_shards");
    reveal_strlit("index.uuid");
    reveal_strlit("index.version.created");
    reveal_strlit("index.creation_date");
    assert("index.number_of_shards"@ =~= "index."@ + "number_of_shards"@);
    assert("index.uuid"@ =~= "index."@ + "uuid"@);
    assert("index.version.created"@ =~= "index."@ + "version.created"@);
    assert("index.creation_date"@ =~= "index."@ + "creation_date"@);
    assert("number_of_shards"@[0] == 'n' && "uuid"@[0] == 'u' && "version.created"@[0] == 'v'
        && "creation_date"@[0] == 'c');
}

proof fn lemma_bare(k: Seq<char>)
    ensures
        bare("index."@ + k) == k,
        k.len() > 0 && k[0] != 'i' ==> bare(k) == k,
{
    reveal_strlit("index.");
    assert(("index."@ + k).take(6) =~= "index."@);
    assert(("index."@ + k).skip(6) =~= k);
    if k.len() >= 6 && k[0] != 'i' {
        assert(k.take(6)[0] == k[0]);
    }
}

/// What may be restored over: nothing, or an index that is closed, here or elsewhere. A
/// name that is no index's, one in capitals, an alias and an open index are refused, with
/// what was refused before all else in between.
pub proof fn law_only_a_closed_index_is_restored_over(
    repo: Seq<char>,
    name: Seq<char>,
    uuid: Seq<char>,
    target: Seq<char>,
    s: StandingV,
)
    ensures
        ({
            let r = taking_place(repo, name, uuid, target, s);
            let named = target.len() > 0 && target != "."@ && target != ".."@;
            let clear = named && s.refused is None && target == lowercase(target) && s.resolves <= 1
                && !s.alias;
            &&& !named ==> (r matches Err(a) && a.status == 400)
            &&& named && s.refused is Some ==> r == Err::<ReplacesV, AnswerV>(s.refused->0)
            &&& named && s.refused is None && target != lowercase(target) ==> (r matches Err(a)
                && a.status == 400)
            &&& named && s.refused is None && target == lowercase(target) && (s.resolves > 1
                || s.alias) ==> (r matches Err(a) && a.status == 400)
            &&& clear && s.here == Some(true) ==> r == Ok::<ReplacesV, AnswerV>(
                ReplacesV::ClosedHere,
            )
            &&& clear && s.here == Some(false) ==> r == Err::<ReplacesV, AnswerV>(
                open_exists(repo, name, uuid, target),
            )
            &&& clear && s.here is None && s.elsewhere is None ==> r == Ok::<ReplacesV, AnswerV>(
                ReplacesV::Nothing,
            )
            &&& clear && s.here is None && (s.elsewhere matches Some((state, id)) && state
                == "close"@) ==> (r matches Ok(ReplacesV::ClosedElsewhere(known)) && s.elsewhere
                == Some(("close"@, known)))
            &&& clear && s.here is None && (s.elsewhere matches Some((state, id)) && state
                != "close"@) ==> r == Err::<ReplacesV, AnswerV>(
                open_exists(repo, name, uuid, target),
            )
        }),
{
}

/// An index is restored under its own name, or under what a pattern and its replacement
/// make of it; half of a renaming is none.
pub proof fn law_the_name_an_index_is_restored_under(
    n: Seq<char>,
    body: JsonV,
    p: Seq<char>,
    r: Seq<char>,
)
    ensures
        member(body, "rename_pattern"@) is None || member(body, "rename_replacement"@) is None
            ==> target_name(n, body) == n,
        member(body, "rename_pattern"@) == Some(JsonV::Text(p)) && member(
            body,
            "rename_replacement"@,
        ) == Some(JsonV::Text(r)) ==> target_name(n, body) == match replaced(p, n, r) {
            Some(t) => t,
            None => n,
        },
{
}

/// What was made is taken back by deleting it and ending its restore, and by putting back
/// what was set aside for it; what is kept is opened, and what was set aside is let go.
pub proof fn law_what_is_taken_back_and_what_is_kept(m: MadeV)
    ensures
        m.aside ==> undoing(m) == seq![
            ActionV::Delete(m.target),
            ActionV::EndRestore(m.target),
            ActionV::PutBack(m.target),
        ],
        !m.aside ==> undoing(m) == seq![ActionV::Delete(m.target), ActionV::EndRestore(m.target)],
        m.aside ==> keeping(m) == seq![
            ActionV::EndRestore(m.target),
            ActionV::LetGo(m.target),
            ActionV::Open(m.target),
        ],
        !m.aside ==> keeping(m) == seq![ActionV::EndRestore(m.target), ActionV::Open(m.target)],
{
    assert(m.aside ==> undoing(m) =~= seq![
        ActionV::Delete(m.target),
        ActionV::EndRestore(m.target),
        ActionV::PutBack(m.target),
    ]);
    assert(m.aside ==> keeping(m) =~= seq![
        ActionV::EndRestore(m.target),
        ActionV::LetGo(m.target),
        ActionV::Open(m.target),
    ]);
    assert(!m.aside ==> keeping(m) =~= seq![
        ActionV::EndRestore(m.target),
        ActionV::Open(m.target),
    ]);
}

/// A stream comes back where an index that backs it was restored, and it is not there
/// already.
pub proof fn law_a_stream_comes_back_with_what_backs_it(
    restored: Seq<Seq<char>>,
    there: Seq<Seq<char>>,
    stream: Seq<char>,
    rest: Seq<char>,
)
    ensures
        restored.contains(".ds-"@ + stream + "-"@ + rest) && !there.contains(stream) ==> (comes_back(
            restored,
            there,
        ))(stream),
        there.contains(stream) ==> !(comes_back(restored, there))(stream),
{
    let n = ".ds-"@ + stream + "-"@ + rest;
    if restored.contains(n) {
        let i = restored.index_of(n);
        let head = ".ds-"@ + stream + "-"@;
        assert(n.take(head.len() as int) =~= head);
        assert((crate::api::snapshot::duplicate::backs(stream))(restored[i]));
    }
}

} // verus!
