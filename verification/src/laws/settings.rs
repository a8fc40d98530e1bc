//! What the settings of the cluster and of an index come to.

use vstd::prelude::*;

use crate::cluster::settings::{
    cluster_settings, filters_of, forced, gathered, index_settings, listed, merged, overlaid,
    with_section, AllowRebalance, Enable, RebalanceEnable,
};
use crate::json::{longest, member, setting_of, setting_text, walk, JsonV, NumberV};
use crate::laws::figures::law_a_number_reads_back;
use crate::laws::words::{
    law_a_text_is_cut_into_the_words_between_marks, law_what_passes_is_kept, printed, stands,
};
use crate::list::{called, find, lemma_found, lemma_with, lookup, named_once};
use crate::number::{duration, signed};
use crate::text::{begins, cut, joined, lemma_joined_cut, lowered, trimmed};

verus! {

proof fn lemma_overlaid(
    m: Seq<(Seq<char>, JsonV)>,
    o: Seq<(Seq<char>, JsonV)>,
    n: nat,
    key: Seq<char>,
)
    requires
        n <= o.len(),
        named_once(o),
    ensures
        forall|i: int|
            0 <= i < n && (#[trigger] o[i]).0 == key ==> lookup(overlaid(m, o, n), key) == Some(
                o[i].1,
            ),
        (forall|i: int| 0 <= i < n ==> (#[trigger] o[i]).0 != key) ==> lookup(
            overlaid(m, o, n),
            key,
        ) == lookup(m, key),
    decreases n,
{
    if n > 0 {
        lemma_overlaid(m, o, (n - 1) as nat, key);
        lemma_with(overlaid(m, o, (n - 1) as nat), o[n - 1].0, o[n - 1].1, key);
        assert forall|i: int| 0 <= i < n && (#[trigger] o[i]).0 == key implies lookup(
            overlaid(m, o, n),
            key,
        ) == Some(o[i].1) by {
            if i < n - 1 {
                assert(o[i].0 != o[n - 1].0);
            }
        }
    }
}

/// What a section of the settings says under a name.
pub open spec fn in_section(v: JsonV, section: Seq<char>, key: Seq<char>) -> Option<JsonV> {
    match member(v, section) {
        Some(JsonV::Object(o)) => lookup(o, key),
        _ => None,
    }
}

proof fn lemma_section(m: Seq<(Seq<char>, JsonV)>, v: JsonV, section: Seq<char>, key: Seq<char>)
    requires
        member(v, section) matches Some(JsonV::Object(o)) ==> named_once(o),
    ensures
        lookup(with_section(m, v, section), key) == match in_section(v, section, key) {
            Some(x) => Some(x),
            None => lookup(m, key),
        },
{
    match member(v, section) {
        Some(JsonV::Object(o)) => {
            lemma_overlaid(m, o, o.len(), key);
            lemma_found(o, called::<JsonV>(key));
            let i = find(o, called::<JsonV>(key));
            if i < o.len() {
                assert(o[i].0 == key);
            }
        },
        _ => {},
    }
}

/// A transient setting of the cluster goes before a persistent one, and either
/// counts where the other is not there.
pub proof fn law_a_transient_setting_goes_before_a_persistent_one(v: JsonV, key: Seq<char>)
    requires
        member(v, "transient"@) matches Some(JsonV::Object(o)) ==> named_once(o),
        member(v, "persistent"@) matches Some(JsonV::Object(o)) ==> named_once(o),
    ensures
        member(merged(v), key) == match in_section(v, "transient"@, key) {
            Some(x) => Some(x),
            None => in_section(v, "persistent"@, key),
        },
{
    let none = Seq::<(Seq<char>, JsonV)>::empty();
    lemma_section(none, v, "persistent"@, key);
    lemma_section(with_section(none, v, "persistent"@), v, "transient"@, key);
    lemma_found(none, called::<JsonV>(key));
}

/// A setting that stands under its whole name is what is read, whatever else stands
/// under parts of that name.
pub proof fn law_a_setting_is_read_under_its_whole_name(
    o: Seq<(Seq<char>, JsonV)>,
    key: Seq<char>,
    x: JsonV,
)
    requires
        lookup(o, key) == Some(x),
        !(x is Null),
    ensures
        setting_of(JsonV::Object(o), key) == Some(x),
{
    let parts = cut(key, '.');
    lemma_joined_cut(key);
    crate::text::lemma_cut_some(key, '.');
    assert(parts.take(parts.len() as int) =~= parts);
    assert(parts.skip(parts.len() as int) =~= Seq::empty());
    assert(walk(x, parts.skip(parts.len() as int)) == Some(x));
}

/// A setting that stands under the parts of its name, one inside the other, is what
/// is read where nothing stands under the whole name.
pub proof fn law_a_setting_is_read_part_by_part(
    o: Seq<(Seq<char>, JsonV)>,
    inner: Seq<(Seq<char>, JsonV)>,
    a: Seq<char>,
    b: Seq<char>,
    x: JsonV,
)
    requires
        !a.contains('.'),
        !b.contains('.'),
        lookup(o, a + "."@ + b) is None,
        lookup(o, a) == Some(JsonV::Object(inner)),
        lookup(inner, b) == Some(x),
        !(x is Null),
    ensures
        setting_of(JsonV::Object(o), a + "."@ + b) == Some(x),
{
    let key = a + "."@ + b;
    reveal_strlit(".");
    crate::text::lemma_cut_after(a, '.', b);
    crate::text::lemma_cut_whole(b, '.');
    assert(key =~= a.push('.') + b);
    let parts = cut(key, '.');
    assert(parts =~= seq![a, b]);
    lemma_joined_cut(key);
    assert(parts.take(2) =~= parts);
    assert(parts.take(1) =~= seq![a]);
    assert(joined(parts.take(1), "."@) == a);
    assert(parts.skip(1) =~= seq![b]);
    let rest = seq![b];
    assert(rest.take(1) =~= rest);
    assert(joined(rest, "."@) == b);
    assert(rest.skip(1) =~= Seq::empty());
    assert(walk(x, rest.skip(1)) == Some(x));
    assert(longest(inner, rest, 1) == Some(x));
    assert(walk(JsonV::Object(inner), parts.skip(1)) == Some(x));
    assert(longest(o, parts, 1) == Some(x));
    assert(longest(o, parts, 2) == Some(x));
}

/// What allocation, rebalancing and the wait for it are set to, in letters of either
/// case; a word that is none of those known is the usual one.
pub proof fn law_words_that_settings_know(s: Seq<char>)
    ensures
        lowered(s) == "none"@ ==> Enable::named(s) == Enable::Nothing && RebalanceEnable::named(s)
            == RebalanceEnable::Nothing,
        lowered(s) == "primaries"@ ==> Enable::named(s) == Enable::Primaries
            && RebalanceEnable::named(s) == RebalanceEnable::Primaries,
        lowered(s) == "new_primaries"@ ==> Enable::named(s) == Enable::NewPrimaries
            && RebalanceEnable::named(s) == RebalanceEnable::All,
        lowered(s) == "replicas"@ ==> RebalanceEnable::named(s) == RebalanceEnable::Replicas
            && Enable::named(s) == Enable::All,
        lowered(s) == "all"@ ==> Enable::named(s) == Enable::All && RebalanceEnable::named(s)
            == RebalanceEnable::All,
        lowered(s) == "always"@ ==> AllowRebalance::named(s) == AllowRebalance::Always,
        lowered(s) == "indices_primaries_active"@ ==> AllowRebalance::named(s)
            == AllowRebalance::IndicesPrimariesActive,
        lowered(s) == "indices_all_active"@ ==> AllowRebalance::named(s)
            == AllowRebalance::IndicesAllActive,
        lowered(s) != "none"@ && lowered(s) != "primaries"@ && lowered(s) != "new_primaries"@
            ==> Enable::named(s) == Enable::All,
        lowered(s) != "none"@ && lowered(s) != "primaries"@ && lowered(s) != "replicas"@
            ==> RebalanceEnable::named(s) == RebalanceEnable::All,
        lowered(s) != "always"@ && lowered(s) != "indices_primaries_active"@
            ==> AllowRebalance::named(s) == AllowRebalance::IndicesAllActive,
{
    reveal_strlit("all");
    reveal_strlit("none");
    reveal_strlit("primaries");
    reveal_strlit("new_primaries");
    reveal_strlit("replicas");
    reveal_strlit("always");
    reveal_strlit("indices_primaries_active");
    reveal_strlit("indices_all_active");
    assert("all"@.len() == 3 && "none"@.len() == 4 && "primaries"@.len() == 9
        && "new_primaries"@.len() == 13 && "replicas"@.len() == 8 && "always"@.len() == 6
        && "indices_primaries_active"@.len() == 24 && "indices_all_active"@.len() == 18);
}

/// A letter is lowered to its small one, and nothing else is changed.
pub proof fn law_letters_are_lowered(s: Seq<char>)
    ensures
        lowered(s).len() == s.len(),
        forall|i: int|
            0 <= i < s.len() ==> #[trigger] lowered(s)[i] as int == if 65 <= s[i] as int <= 90 {
                s[i] as int + 32
            } else {
                s[i] as int
            },
{
}

/// What the cluster says under a name, by whichever shape it says it in.
pub open spec fn set(v: JsonV, key: Seq<char>) -> Option<JsonV> {
    setting_of(merged(v), key)
}

/// Which settings of the cluster say whether copies are placed and moved, and what
/// holds where they are not set.
pub proof fn law_the_settings_that_let_copies_be_placed(v: JsonV)
    ensures
        set(v, "cluster.routing.allocation.enable"@) is None ==> cluster_settings(v).enable
            == Enable::All,
        set(v, "cluster.routing.allocation.enable"@) matches Some(JsonV::Text(s))
            ==> cluster_settings(v).enable == Enable::named(s),
        set(v, "cluster.routing.rebalance.enable"@) is None ==> cluster_settings(v).rebalance_enable
            == RebalanceEnable::All,
        set(v, "cluster.routing.rebalance.enable"@) matches Some(JsonV::Text(s))
            ==> cluster_settings(v).rebalance_enable == RebalanceEnable::named(s),
        set(v, "cluster.routing.allocation.allow_rebalance"@) is None ==> cluster_settings(
            v,
        ).allow_rebalance == AllowRebalance::IndicesAllActive,
        set(v, "cluster.routing.allocation.allow_rebalance"@) matches Some(JsonV::Text(s))
            ==> cluster_settings(v).allow_rebalance == AllowRebalance::named(s),
{
}

/// Which settings of the cluster say how many copies are on the move and being filled
/// at once, and how many are where they are not set. What is said of recoveries both
/// ways counts where nothing is said of the one way.
pub proof fn law_the_settings_that_hold_recoveries_back(v: JsonV, n: u64)
    ensures
        ({
            let c = cluster_settings(v);
            let whole = Some(JsonV::Number(NumberV::Whole(n)));
            let both = set(v, "cluster.routing.allocation.node_concurrent_recoveries"@);
            let coming = set(v, "cluster.routing.allocation.node_concurrent_incoming_recoveries"@);
            let going = set(v, "cluster.routing.allocation.node_concurrent_outgoing_recoveries"@);
            let moving = set(v, "cluster.routing.allocation.cluster_concurrent_rebalance"@);
            let firsts = set(v, "cluster.routing.allocation.node_initial_primaries_recoveries"@);
            let seconds = set(v, "cluster.routing.allocation.node_initial_replicas_recoveries"@);
            &&& moving is None ==> c.cluster_concurrent_rebalance == 2
            &&& moving == whole ==> c.cluster_concurrent_rebalance == n
            &&& coming == whole ==> c.node_concurrent_incoming == n
            &&& going == whole ==> c.node_concurrent_outgoing == n
            &&& coming is None && both == whole ==> c.node_concurrent_incoming == n
            &&& going is None && both == whole ==> c.node_concurrent_outgoing == n
            &&& coming is None && both is None ==> c.node_concurrent_incoming == 2
            &&& going is None && both is None ==> c.node_concurrent_outgoing == 2
            &&& firsts is None ==> c.node_initial_primaries == 4
            &&& firsts == whole ==> c.node_initial_primaries == n
            &&& seconds is None ==> c.node_initial_replicas == 4
            &&& seconds == whole ==> c.node_initial_replicas == n
        }),
{
}

/// Which settings of the cluster say how copies are spread, and how they are where
/// they are not set: any number on a node, over no attribute, with a little more than
/// half of a node's weight in its shards of the same index.
pub proof fn law_the_settings_that_spread_copies(v: JsonV, n: i64)
    ensures
        ({
            let c = cluster_settings(v);
            let limit = set(v, "cluster.routing.allocation.total_shards_per_node"@);
            let attributes = set(v, "cluster.routing.allocation.awareness.attributes"@);
            &&& limit is None ==> c.total_shards_per_node == -1
            &&& limit == Some(JsonV::Text(crate::text::dec_int(n as int)))
                ==> c.total_shards_per_node == n
            &&& attributes is None ==> c.awareness_attributes.len() == 0
            &&& attributes matches Some(JsonV::Text(s)) ==> c.awareness_attributes == listed(s)
            &&& set(v, "cluster.routing.allocation.awareness.force"@) is None
                ==> c.awareness_forced.len() == 0
            &&& set(v, "cluster.routing.allocation.balance.shard"@) is None ==> c.balance_shard
                == 450_000
            &&& set(v, "cluster.routing.allocation.balance.index"@) is None ==> c.balance_index
                == 550_000
            &&& set(v, "cluster.routing.allocation.balance.threshold"@) is None
                ==> c.balance_threshold == 1_000_000
        }),
{
    lemma_signed(n as int);
}

proof fn lemma_signed(n: int)
    ensures
        signed(crate::text::dec_int(n)) == Some(n),
{
    if n < 0 {
        law_a_number_reads_back((-n) as nat);
    } else {
        law_a_number_reads_back(n as nat);
    }
}

/// Which settings of an index say what it is held to, and what it is where they are
/// not set: five tries for a copy, and a minute's wait for a node that left.
pub proof fn law_the_settings_of_an_index(s: JsonV, n: i64, m: u64)
    ensures
        ({
            let i = index_settings(s);
            let enable = setting_of(s, "index.routing.allocation.enable"@);
            let moved = setting_of(s, "index.routing.rebalance.enable"@);
            let limit = setting_of(s, "index.routing.allocation.total_shards_per_node"@);
            let tries = setting_of(s, "index.allocation.max_retries"@);
            let wait = setting_of(s, "index.unassigned.node_left.delayed_timeout"@);
            &&& enable is None ==> i.enable is None
            &&& enable matches Some(JsonV::Text(e)) ==> i.enable == Some(Enable::named(e))
            &&& moved is None ==> i.rebalance_enable is None
            &&& moved matches Some(JsonV::Text(e)) ==> i.rebalance_enable == Some(
                RebalanceEnable::named(e),
            )
            &&& limit is None ==> i.total_shards_per_node == -1
            &&& limit == Some(JsonV::Text(crate::text::dec_int(n as int)))
                ==> i.total_shards_per_node == n
            &&& tries is None ==> i.max_retries == 5
            &&& tries == Some(JsonV::Number(NumberV::Whole(m))) ==> i.max_retries == m
            &&& wait is None ==> i.delayed_timeout == 60 * 1000
            &&& wait matches Some(JsonV::Text(t)) ==> match duration(t) {
                Some(ms) => i.delayed_timeout == ms,
                None => i.delayed_timeout == 60 * 1000,
            }
        }),
{
    lemma_signed(n as int);
}

/// A list of names is cut at its commas, with the blanks round each name left off and
/// the empty ones left out.
pub proof fn law_a_list_of_names(s: Seq<char>, name: Seq<char>)
    requires
        name.len() > 0,
        !name.contains(','),
        printed(name[0]),
        printed(name.last()),
    ensures
        stands(s, ',', name) ==> listed(s).contains(name),
        !listed(s).contains(Seq::empty()),
{
    let p = |x: Seq<char>| x.len() > 0;
    let all = cut(s, ',').map_values(|x: Seq<char>| trimmed(x));
    law_what_passes_is_kept(all, p, name);
    law_what_passes_is_kept(all, p, Seq::empty());
    law_a_text_is_cut_into_the_words_between_marks(s, ',', name);
    if stands(s, ',', name) {
        let k = cut(s, ',').index_of(name);
        let none = Seq::<char>::empty();
        crate::laws::words::law_a_text_is_trimmed_of_the_blanks_round_it(none, name, none);
        assert(none + name + none =~= name);
        assert(all[k] == name);
    }
}

proof fn lemma_gathered(
    f: crate::cluster::settings::ValuesV,
    o: Seq<(Seq<char>, JsonV)>,
    head: Seq<char>,
    n: nat,
    attr: Seq<char>,
)
    requires
        n <= o.len(),
        named_once(o),
    ensures
        forall|i: int|
            0 <= i < n && (#[trigger] o[i]).0 == head + attr
                && crate::cluster::settings::filter_values(o[i].1).len() > 0 ==> lookup(
                gathered(f, o, head, n),
                attr,
            ) == Some(crate::cluster::settings::filter_values(o[i].1)),
        (forall|i: int| 0 <= i < n ==> (#[trigger] o[i]).0 != head + attr) ==> lookup(
            gathered(f, o, head, n),
            attr,
        ) == lookup(f, attr),
    decreases n,
{
    if n > 0 {
        lemma_gathered(f, o, head, (n - 1) as nat, attr);
        let g = gathered(f, o, head, (n - 1) as nat);
        let (k, v) = o[n - 1];
        let values = crate::cluster::settings::filter_values(v);
        let rest = k.skip(head.len() as int);
        if begins(k, head) {
            assert(k =~= head + rest);
            lemma_with(g, rest, values, attr);
        }
        assert((head + attr).take(head.len() as int) =~= head);
        assert((head + attr).skip(head.len() as int) =~= attr);
        assert forall|i: int|
            0 <= i < n && (#[trigger] o[i]).0 == head + attr
                && crate::cluster::settings::filter_values(o[i].1).len() > 0 implies lookup(
            gathered(f, o, head, n),
            attr,
        ) == Some(crate::cluster::settings::filter_values(o[i].1)) by {
            if i < n - 1 {
                assert(o[i].0 != o[n - 1].0);
            }
        }
    }
}

/// A filter that is set under its whole name is one of the filters, of its kind and on
/// its attribute, with the values it gives.
pub proof fn law_a_filter_is_set_under_its_name(
    o: Seq<(Seq<char>, JsonV)>,
    prefix: Seq<char>,
    attr: Seq<char>,
    values: Seq<char>,
    i: int,
)
    requires
        named_once(o),
        0 <= i < o.len(),
        o[i].1 == JsonV::Text(values),
        listed(values).len() > 0,
    ensures
        o[i].0 == prefix + ".include."@ + attr ==> lookup(
            filters_of(JsonV::Object(o), prefix).includes,
            attr,
        ) == Some(listed(values)),
        o[i].0 == prefix + ".exclude."@ + attr ==> lookup(
            filters_of(JsonV::Object(o), prefix).excludes,
            attr,
        ) == Some(listed(values)),
        o[i].0 == prefix + ".require."@ + attr ==> lookup(
            filters_of(JsonV::Object(o), prefix).requires_all,
            attr,
        ) == Some(listed(values)),
{
    lemma_kind(o, prefix, "include"@, attr, i);
    lemma_kind(o, prefix, "exclude"@, attr, i);
    lemma_kind(o, prefix, "require"@, attr, i);
    reveal_strlit(".");
    reveal_strlit("include");
    reveal_strlit("exclude");
    reveal_strlit("require");
    reveal_strlit(".include.");
    reveal_strlit(".exclude.");
    reveal_strlit(".require.");
    assert(prefix + "."@ + "include"@ + "."@ + attr =~= prefix + ".include."@ + attr);
    assert(prefix + "."@ + "exclude"@ + "."@ + attr =~= prefix + ".exclude."@ + attr);
    assert(prefix + "."@ + "require"@ + "."@ + attr =~= prefix + ".require."@ + attr);
}

proof fn lemma_kind(
    o: Seq<(Seq<char>, JsonV)>,
    prefix: Seq<char>,
    kind: Seq<char>,
    attr: Seq<char>,
    i: int,
)
    requires
        named_once(o),
        0 <= i < o.len(),
        crate::cluster::settings::filter_values(o[i].1).len() > 0,
    ensures
        o[i].0 == prefix + "."@ + kind + "."@ + attr ==> lookup(
            crate::cluster::settings::filters_of_kind(JsonV::Object(o), prefix, kind),
            attr,
        ) == Some(crate::cluster::settings::filter_values(o[i].1)),
{
    let under = match setting_of(JsonV::Object(o), prefix + "."@ + kind) {
        Some(JsonV::Object(x)) => gathered(Seq::empty(), x, Seq::empty(), x.len()),
        _ => Seq::empty(),
    };
    lemma_gathered(under, o, prefix + "."@ + kind + "."@, o.len(), attr);
}

proof fn lemma_forced(o: Seq<(Seq<char>, JsonV)>, n: nat, i: int, vals: Seq<char>)
    requires
        0 <= i < n <= o.len(),
        named_once(o),
        setting_text(o[i].1, "values"@) == Some(vals),
    ensures
        lookup(forced(o, n), o[i].0) == Some(listed(vals)),
    decreases n,
{
    let g = forced(o, (n - 1) as nat);
    if i < n - 1 {
        lemma_forced(o, (n - 1) as nat, i, vals);
        assert(o[i].0 != o[n - 1].0);
        match setting_text(o[n - 1].1, "values"@) {
            Some(x) => lemma_with(g, o[n - 1].0, listed(x), o[i].0),
            None => {},
        }
    } else {
        lemma_with(g, o[i].0, listed(vals), o[i].0);
    }
}

/// The values an attribute is said to have, whether or not a node has them, are those listed
/// under its name.
pub proof fn law_the_values_an_attribute_is_said_to_have(
    v: JsonV,
    o: Seq<(Seq<char>, JsonV)>,
    i: int,
    vals: Seq<char>,
)
    requires
        set(v, "cluster.routing.allocation.awareness.force"@) == Some(JsonV::Object(o)),
        named_once(o),
        0 <= i < o.len(),
        setting_text(o[i].1, "values"@) == Some(vals),
    ensures
        lookup(cluster_settings(v).awareness_forced, o[i].0) == Some(listed(vals)),
{
    lemma_forced(o, o.len(), i, vals);
}

/// The filters of the cluster and of an index are those under their own names.
pub proof fn law_whose_filters_are_whose(v: JsonV, s: JsonV)
    ensures
        cluster_settings(v).filters == filters_of(merged(v), "cluster.routing.allocation"@),
        index_settings(s).filters == filters_of(s, "index.routing.allocation"@),
{
}

} // verus!
