//! Which settings of an index a request may change, and which it is shown.

use vstd::prelude::*;

use crate::api::answer::AnswerV;
use crate::api::settings::{
    asked, blocked, changed, defaults, filling, is_asked, is_final, is_fixed, is_missing,
    is_private, is_set, is_under, keys_of, open_among, patch_of, refusal, updated, FINAL,
    NOT_DYNAMIC, PRIVATE, TargetV,
};
use crate::json::{member, JsonV};
use crate::laws::words::{
    law_a_text_is_cut_into_the_words_between_marks, law_what_passes_is_kept, stands,
};
use crate::list::{called, find, keep, lemma_find, lemma_found};
use crate::text::{begins, cut, fits, trimmed};

verus! {

/// Settings that the node keeps for itself, with all that is under them.
pub proof fn law_the_private_settings(key: Seq<char>)
    ensures
        is_private(key) <==> is_under(key, "index.uuid"@) || is_under(key, "index.version.created"@)
            || is_under(key, "index.version.upgraded"@) || is_under(key, "index.remote_store"@),
{
    let p = PRIVATE@;
    assert(p.len() == 4);
    assert(p[0] == "index.uuid" && p[1] == "index.version.created" && p[2]
        == "index.version.upgraded" && p[3] == "index.remote_store");
    assert(is_under(key, p[0]@) ==> is_private(key));
    assert(is_under(key, p[1]@) ==> is_private(key));
    assert(is_under(key, p[2]@) ==> is_private(key));
    assert(is_under(key, p[3]@) ==> is_private(key));
}

/// A setting is under another that it is, or whose name and a dot it begins with.
pub proof fn law_what_is_under_a_setting(setting: Seq<char>, rest: Seq<char>, c: char)
    ensures
        is_under(setting, setting),
        is_under(setting + "."@ + rest, setting),
        c != '.' ==> !is_under(setting.push(c) + rest, setting),
{
    reveal_strlit(".");
    let a = setting + "."@;
    let k = setting + "."@ + rest;
    assert(k.take(a.len() as int) =~= a);
    let d = setting.push(c) + rest;
    if begins(d, a) {
        assert(d.take(a.len() as int)[setting.len() as int] == a[setting.len() as int]);
    }
    if d == setting {
        assert(d.len() > setting.len());
    }
}

/// Settings that an open index keeps as they are.
pub proof fn law_the_settings_an_open_index_keeps(key: Seq<char>)
    ensures
        is_under(key, "index.number_of_shards"@) || is_under(key, "index.number_of_routing_shards"@)
            || is_under(key, "index.routing_partition_size"@) || is_under(key, "index.codec"@)
            || is_under(key, "index.soft_deletes.enabled"@) || is_under(key, "index.sort"@)
            || is_under(key, "index.analysis"@) || is_under(key, "index.similarity"@) || is_under(
            key,
            "index.store.type"@,
        ) || is_under(key, "index.store.preload"@) || is_under(key, "index.shard.check_on_startup"@)
            || is_under(key, "index.replication.type"@) || is_under(key, "index.creation_date"@)
            || is_under(key, "index.queries.cache.enabled"@) || is_under(
            key,
            "index.load_fixed_bitset_filters_eagerly"@,
        ) || is_under(key, "index.knn"@) || is_under(key, "index.format"@) || is_under(
            key,
            "index.append_only.enabled"@,
        ) ==> is_fixed(key),
{
    let p = NOT_DYNAMIC@;
    assert(p.len() == 18);
    assert(is_under(key, p[0]@) ==> is_fixed(key));
    assert(is_under(key, p[1]@) ==> is_fixed(key));
    assert(is_under(key, p[2]@) ==> is_fixed(key));
    assert(is_under(key, p[3]@) ==> is_fixed(key));
    assert(is_under(key, p[4]@) ==> is_fixed(key));
    assert(is_under(key, p[5]@) ==> is_fixed(key));
    assert(is_under(key, p[6]@) ==> is_fixed(key));
    assert(is_under(key, p[7]@) ==> is_fixed(key));
    assert(is_under(key, p[8]@) ==> is_fixed(key));
    assert(is_under(key, p[9]@) ==> is_fixed(key));
    assert(is_under(key, p[10]@) ==> is_fixed(key));
    assert(is_under(key, p[11]@) ==> is_fixed(key));
    assert(is_under(key, p[12]@) ==> is_fixed(key));
    assert(is_under(key, p[13]@) ==> is_fixed(key));
    assert(is_under(key, p[14]@) ==> is_fixed(key));
    assert(is_under(key, p[15]@) ==> is_fixed(key));
    assert(is_under(key, p[16]@) ==> is_fixed(key));
    assert(is_under(key, p[17]@) ==> is_fixed(key));
}

/// Settings that stay as an index was made with them, open or closed.
pub proof fn law_the_final_settings(key: Seq<char>)
    ensures
        is_final(key) <==> is_under(key, "index.number_of_shards"@) || is_under(
            key,
            "index.soft_deletes.enabled"@,
        ) || is_under(key, "index.sort"@) || is_under(key, "index.replication.type"@) || is_under(
            key,
            "index.knn"@,
        ) || is_under(key, "index.append_only.enabled"@),
{
    let p = FINAL@;
    assert(p.len() == 6);
    assert(is_under(key, p[0]@) ==> is_final(key));
    assert(is_under(key, p[1]@) ==> is_final(key));
    assert(is_under(key, p[2]@) ==> is_final(key));
    assert(is_under(key, p[3]@) ==> is_final(key));
    assert(is_under(key, p[4]@) ==> is_final(key));
    assert(is_under(key, p[5]@) ==> is_final(key));
}

/// Whether every index of a change is closed.
pub open spec fn all_closed(targets: Seq<TargetV>) -> bool {
    forall|i: int|
        0 <= i < targets.len() ==> ((#[trigger] targets[i]).state matches Some(st) ==> st.closed)
}

/// Whether nothing blocks any index of a change.
pub open spec fn none_blocked(targets: Seq<TargetV>) -> bool {
    forall|i: int|
        0 <= i < targets.len() ==> ((#[trigger] targets[i]).state matches Some(st)
            ==> st.blocks.len() == 0)
}

proof fn lemma_open(targets: Seq<TargetV>, n: nat)
    requires
        n <= targets.len(),
    ensures
        open_among(targets, n).len() == 0 <==> forall|i: int|
            0 <= i < n ==> ((#[trigger] targets[i]).state matches Some(st) ==> st.closed),
    decreases n,
{
    if n > 0 {
        lemma_open(targets, (n - 1) as nat);
        if open_among(targets, n).len() > 0 && open_among(targets, (n - 1) as nat).len() == 0 {
            assert(!(targets[n - 1].state matches Some(st) ==> st.closed));
        }
    }
}

proof fn lemma_blocked(targets: Seq<TargetV>, n: nat)
    requires
        n <= targets.len(),
    ensures
        blocked(targets, n).0.len() == 0 <==> forall|i: int|
            0 <= i < n ==> ((#[trigger] targets[i]).state matches Some(st) ==> st.blocks.len()
                == 0),
    decreases n,
{
    reveal_strlit("");
    reveal_strlit("index [");
    if n > 0 {
        lemma_blocked(targets, (n - 1) as nat);
        match targets[n - 1].state {
            Some(st) => {
                if st.blocks.len() > 0 {
                    assert("index ["@.len() == 7);
                    assert(blocked(targets, n).0.len() > 0);
                }
            },
            None => {},
        }
    }
}

/// A change is refused where it sets what the node keeps for itself, whatever state the
/// indices are in; otherwise where an index is blocked, unless all it does is to lift a
/// block; otherwise where it sets what an open index keeps and an index is open, or what
/// stays as it was made. Any other change is let.
pub proof fn law_which_changes_are_refused(targets: Seq<TargetV>, keys: Seq<Seq<char>>)
    ensures
        ({
            let r = refusal(targets, keys);
            let private = exists|i: int| 0 <= i < keys.len() && is_private(#[trigger] keys[i]);
            let fixed = exists|i: int| 0 <= i < keys.len() && is_fixed(#[trigger] keys[i]);
            let last = exists|i: int|
                0 <= i < keys.len() && is_fixed(#[trigger] keys[i]) && is_final(keys[i]);
            let lifting = keys.len() == 1 && (keys[0] == "index.blocks.read_only"@ || keys[0]
                == "index.blocks.read_only_allow_delete"@ || keys[0] == "index.blocks.metadata"@);
            let free = none_blocked(targets) || lifting;
            &&& private ==> (r matches Some(a) && a.status == 400)
            &&& !private && !free ==> r is Some
            &&& !private && free && !fixed ==> r is None
            &&& !private && free && fixed && !all_closed(targets) ==> (r matches Some(a)
                && a.status == 400)
            &&& !private && free && fixed && all_closed(targets) && last && targets.len() > 0
                ==> (r matches Some(a) && a.status == 400)
            &&& !private && free && fixed && all_closed(targets) && !last ==> r is None
        }),
{
    lemma_found(keys, crate::api::settings::private_key());
    let p = find(keys, crate::api::settings::private_key());
    if p < keys.len() {
        assert(is_private(keys[p]));
    }
    if exists|i: int| 0 <= i < keys.len() && is_private(#[trigger] keys[i]) {
        let i = choose|i: int| 0 <= i < keys.len() && is_private(#[trigger] keys[i]);
        assert((crate::api::settings::private_key())(keys[i]));
    }
    lemma_open(targets, targets.len());
    lemma_blocked(targets, targets.len());
    let fixed = keep(keys, crate::api::settings::fixed_key());
    lemma_found(fixed, crate::api::settings::final_key());
    if fixed.len() > 0 {
        assert(fixed.contains(fixed[0]));
        law_what_passes_is_kept(keys, crate::api::settings::fixed_key(), fixed[0]);
        let i = keys.index_of(fixed[0]);
        assert(is_fixed(keys[i]));
    }
    if exists|i: int| 0 <= i < keys.len() && is_fixed(#[trigger] keys[i]) {
        let i = choose|i: int| 0 <= i < keys.len() && is_fixed(#[trigger] keys[i]);
        law_what_passes_is_kept(keys, crate::api::settings::fixed_key(), keys[i]);
        assert(keys.contains(keys[i]));
    }
    let f = find(fixed, crate::api::settings::final_key());
    if f < fixed.len() {
        assert(fixed.contains(fixed[f]));
        law_what_passes_is_kept(keys, crate::api::settings::fixed_key(), fixed[f]);
        let i = keys.index_of(fixed[f]);
        assert(is_fixed(keys[i]) && is_final(keys[i]));
    }
    if exists|i: int| 0 <= i < keys.len() && is_fixed(#[trigger] keys[i]) && is_final(keys[i]) {
        let i = choose|i: int|
            0 <= i < keys.len() && is_fixed(#[trigger] keys[i]) && is_final(keys[i]);
        assert(keys.contains(keys[i]));
        law_what_passes_is_kept(keys, crate::api::settings::fixed_key(), keys[i]);
        let j = fixed.index_of(keys[i]);
        assert((crate::api::settings::final_key())(fixed[j]));
    }
}

/// The settings a request sets are those under `settings` and under `index`, where it has
/// these, and otherwise its own.
pub proof fn law_where_a_request_sets_its_settings(body: JsonV, a: JsonV, b: JsonV)
    ensures
        member(body, "settings"@) is None && member(body, "index"@) is None ==> patch_of(body)
            == body,
        member(body, "settings"@) is None && member(body, "index"@) == Some(b) ==> patch_of(body)
            == b,
        member(body, "settings"@) == Some(a) && member(a, "index"@) is None ==> patch_of(body) == a,
        member(body, "settings"@) == Some(a) && member(a, "index"@) == Some(b) ==> patch_of(body)
            == b,
{
}

/// A request for an index that is not there is an error where it names the index, and none
/// where it asks by a pattern, for all of them, or does not mind.
pub proof fn law_when_an_index_is_missing(expr: Seq<char>)
    ensures
        is_missing(0, expr, false) <==> !expr.contains('*') && expr != "_all"@,
        !is_missing(0, expr, true),
        forall|found: nat, ignore: bool| found > 0 ==> !#[trigger] is_missing(found, expr, ignore),
{
}

/// The settings that are shown are those asked for by name or by pattern; asked for all of
/// them, or for none in particular, all are.
pub proof fn law_which_settings_are_shown(
    flat: Seq<(Seq<char>, JsonV)>,
    name: Seq<char>,
    one: Seq<char>,
    e: (Seq<char>, JsonV),
)
    ensures
        asked(flat, None) == flat,
        asked(flat, Some("_all"@)) == flat,
        asked(flat, Some("*"@)) == flat,
        flat.contains(e) && stands(name, ',', one) && !one.contains(',') && fits(trimmed(one), e.0)
            ==> asked(flat, Some(name)).contains(e),
        asked(flat, Some(name)).contains(e) ==> flat.contains(e),
{
    if !one.contains(',') {
        law_a_text_is_cut_into_the_words_between_marks(name, ',', one);
    }
    let p = is_asked(cut(name, ','));
    law_what_passes_is_kept(flat, p, e);
    if flat.contains(e) && stands(name, ',', one) && !one.contains(',') && fits(trimmed(one), e.0) {
        let i = cut(name, ',').index_of(one);
        assert(fits(trimmed(cut(name, ',')[i]), e.0));
    }
}

/// Where what is set is to be kept, only what is not set yet is changed.
pub proof fn law_what_is_set_is_kept_where_that_is_asked(
    settings: JsonV,
    o: Seq<(Seq<char>, JsonV)>,
    e: (Seq<char>, JsonV),
)
    ensures
        filling(settings, JsonV::Object(o)) matches JsonV::Object(p) && (p.contains(e)
            <==> o.contains(e) && !is_set(settings, e.0)),
{
    law_what_passes_is_kept(o, crate::api::settings::is_unset(settings), e);
}

/// A change that is refused changes nothing, and one that is let changes each index.
pub proof fn law_a_refused_change_changes_nothing(
    targets: Seq<TargetV>,
    held: Seq<JsonV>,
    body: JsonV,
    preserve: bool,
)
    ensures
        match refusal(targets, keys_of(patch_of(body))) {
            Some(why) => updated(targets, held, body, preserve) == Err::<Seq<JsonV>, AnswerV>(why),
            None => updated(targets, held, body, preserve) matches Ok(after) && after.len()
                == held.len() && forall|i: int|
                0 <= i < held.len() ==> #[trigger] after[i] == changed(
                    held[i],
                    patch_of(body),
                    preserve,
                ),
        },
{
}

/// What an index is set to where nothing is said.
pub proof fn law_the_usual_settings()
    ensures
        member(defaults(), "index"@) matches Some(i) && {
            &&& member(i, "refresh_interval"@) == Some(JsonV::Text("1s"@))
            &&& member(i, "max_result_window"@) == Some(JsonV::Text("10000"@))
            &&& member(i, "number_of_routing_shards"@) == Some(JsonV::Text("1"@))
            &&& member(i, "codec"@) == Some(JsonV::Text("default"@))
            &&& member(i, "auto_expand_replicas"@) == Some(JsonV::Text("false"@))
            &&& member(i, "max_inner_result_window"@) == Some(JsonV::Text("100"@))
            &&& member(i, "max_rescore_window"@) == Some(JsonV::Text("10000"@))
        },
{
    reveal_strlit("refresh_interval");
    reveal_strlit("max_result_window");
    reveal_strlit("number_of_routing_shards");
    reveal_strlit("codec");
    reveal_strlit("auto_expand_replicas");
    reveal_strlit("max_inner_result_window");
    reveal_strlit("max_rescore_window");
    assert("refresh_interval"@.len() == 16 && "max_result_window"@.len() == 17
        && "number_of_routing_shards"@.len() == 24 && "codec"@.len() == 5
        && "auto_expand_replicas"@.len() == 20 && "max_inner_result_window"@.len() == 23
        && "max_rescore_window"@.len() == 18);
    let o = defaults()->Object_0;
    lemma_find(o, called::<JsonV>("index"@), 0);
    let i = o[0].1->Object_0;
    lemma_find(i, called::<JsonV>("refresh_interval"@), 0);
    lemma_find(i, called::<JsonV>("max_result_window"@), 1);
    lemma_find(i, called::<JsonV>("number_of_routing_shards"@), 2);
    lemma_find(i, called::<JsonV>("codec"@), 3);
    lemma_find(i, called::<JsonV>("auto_expand_replicas"@), 4);
    lemma_find(i, called::<JsonV>("max_inner_result_window"@), 5);
    lemma_find(i, called::<JsonV>("max_rescore_window"@), 6);
}

} // verus!
