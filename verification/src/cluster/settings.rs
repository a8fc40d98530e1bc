//! The settings allocation reads, of the cluster and of an index, and what it
//! looks at.

use vstd::prelude::*;

use super::state::{DiscoveryNode, IndexMetadata, MetaV, NodeId, NodeV};
use crate::json::{
    lemma_object, member, setting, setting_factor, setting_millionths, setting_number, setting_of,
    setting_str, setting_text, setting_u64, written, Json, JsonV,
};
use crate::list::{find, find_in, get, keep, lemma_take, lookup, push_to, put, with};
use crate::number::{duration, parse_i64, signed, time_ms, Millis};
use crate::text::{
    begins, cut, fits, glob_match, has_char, join, joined, lower, lowered, same, split,
    strip_prefix, trim, trimmed,
};

verus! {

/// `cluster.routing.allocation.enable` and the index setting of the same name.
#[derive(Clone, Copy, Debug, PartialEq, Eq, Structural)]
pub enum Enable {
    All,
    Primaries,
    NewPrimaries,
    Nothing,
}

impl Enable {
    /// What a word means, in capitals or not: everything, unless it is one
    /// of the others.
    pub open spec fn named(s: Seq<char>) -> Enable {
        let l = lowered(s);
        if l == "primaries"@ {
            Enable::Primaries
        } else if l == "new_primaries"@ {
            Enable::NewPrimaries
        } else if l == "none"@ {
            Enable::Nothing
        } else {
            Enable::All
        }
    }

    pub open spec fn name(self) -> Seq<char> {
        match self {
            Enable::All => "all"@,
            Enable::Primaries => "primaries"@,
            Enable::NewPrimaries => "new_primaries"@,
            Enable::Nothing => "none"@,
        }
    }

    pub fn parse(s: &str) -> (r: Enable)
        ensures
            r == Enable::named(s@),
    {
        let l = lower(s);
        if same(l.as_str(), "primaries") {
            Enable::Primaries
        } else if same(l.as_str(), "new_primaries") {
            Enable::NewPrimaries
        } else if same(l.as_str(), "none") {
            Enable::Nothing
        } else {
            Enable::All
        }
    }

    pub fn as_str(self) -> (r: &'static str)
        ensures
            r@ == self.name(),
    {
        match self {
            Enable::All => "all",
            Enable::Primaries => "primaries",
            Enable::NewPrimaries => "new_primaries",
            Enable::Nothing => "none",
        }
    }
}

/// `cluster.routing.rebalance.enable` and the index setting.
#[derive(Clone, Copy, Debug, PartialEq, Eq, Structural)]
pub enum RebalanceEnable {
    All,
    Primaries,
    Replicas,
    Nothing,
}

impl RebalanceEnable {
    /// What a word means, in capitals or not: everything, unless it is one
    /// of the others.
    pub open spec fn named(s: Seq<char>) -> RebalanceEnable {
        let l = lowered(s);
        if l == "primaries"@ {
            RebalanceEnable::Primaries
        } else if l == "replicas"@ {
            RebalanceEnable::Replicas
        } else if l == "none"@ {
            RebalanceEnable::Nothing
        } else {
            RebalanceEnable::All
        }
    }

    pub open spec fn name(self) -> Seq<char> {
        match self {
            RebalanceEnable::All => "all"@,
            RebalanceEnable::Primaries => "primaries"@,
            RebalanceEnable::Replicas => "replicas"@,
            RebalanceEnable::Nothing => "none"@,
        }
    }

    pub fn parse(s: &str) -> (r: RebalanceEnable)
        ensures
            r == RebalanceEnable::named(s@),
    {
        let l = lower(s);
        if same(l.as_str(), "primaries") {
            RebalanceEnable::Primaries
        } else if same(l.as_str(), "replicas") {
            RebalanceEnable::Replicas
        } else if same(l.as_str(), "none") {
            RebalanceEnable::Nothing
        } else {
            RebalanceEnable::All
        }
    }

    pub fn as_str(self) -> (r: &'static str)
        ensures
            r@ == self.name(),
    {
        match self {
            RebalanceEnable::All => "all",
            RebalanceEnable::Primaries => "primaries",
            RebalanceEnable::Replicas => "replicas",
            RebalanceEnable::Nothing => "none",
        }
    }
}

/// `cluster.routing.allocation.allow_rebalance`.
#[derive(Clone, Copy, Debug, PartialEq, Eq, Structural)]
pub enum AllowRebalance {
    Always,
    IndicesPrimariesActive,
    IndicesAllActive,
}

impl AllowRebalance {
    /// What a word means, in capitals or not: when every copy is active,
    /// unless it is one of the others.
    pub open spec fn named(s: Seq<char>) -> AllowRebalance {
        let l = lowered(s);
        if l == "always"@ {
            AllowRebalance::Always
        } else if l == "indices_primaries_active"@ {
            AllowRebalance::IndicesPrimariesActive
        } else {
            AllowRebalance::IndicesAllActive
        }
    }

    pub open spec fn name(self) -> Seq<char> {
        match self {
            AllowRebalance::Always => "always"@,
            AllowRebalance::IndicesPrimariesActive => "indices_primaries_active"@,
            AllowRebalance::IndicesAllActive => "indices_all_active"@,
        }
    }

    pub fn parse(s: &str) -> (r: AllowRebalance)
        ensures
            r == AllowRebalance::named(s@),
    {
        let l = lower(s);
        if same(l.as_str(), "always") {
            AllowRebalance::Always
        } else if same(l.as_str(), "indices_primaries_active") {
            AllowRebalance::IndicesPrimariesActive
        } else {
            AllowRebalance::IndicesAllActive
        }
    }

    pub fn as_str(self) -> (r: &'static str)
        ensures
            r@ == self.name(),
    {
        match self {
            AllowRebalance::Always => "always",
            AllowRebalance::IndicesPrimariesActive => "indices_primaries_active",
            AllowRebalance::IndicesAllActive => "indices_all_active",
        }
    }
}

/// What a setting's word says is what it was written as.
pub proof fn law_a_setting_reads_back(e: Enable, r: RebalanceEnable, a: AllowRebalance)
    ensures
        Enable::named(e.name()) == e,
        RebalanceEnable::named(r.name()) == r,
        AllowRebalance::named(a.name()) == a,
{
    lemma_words();
}

proof fn lemma_words()
    ensures
        lowered("all"@) == "all"@,
        lowered("none"@) == "none"@,
        lowered("primaries"@) == "primaries"@,
        lowered("new_primaries"@) == "new_primaries"@,
        lowered("replicas"@) == "replicas"@,
        lowered("always"@) == "always"@,
        lowered("indices_primaries_active"@) == "indices_primaries_active"@,
        lowered("indices_all_active"@) == "indices_all_active"@,
        "all"@.len() == 3,
        "none"@.len() == 4,
        "primaries"@.len() == 9,
        "new_primaries"@.len() == 13,
        "replicas"@.len() == 8,
        "always"@.len() == 6,
        "indices_primaries_active"@.len() == 24,
        "indices_all_active"@.len() == 18,
{
    reveal_strlit("all");
    reveal_strlit("none");
    reveal_strlit("primaries");
    reveal_strlit("new_primaries");
    reveal_strlit("replicas");
    reveal_strlit("always");
    reveal_strlit("indices_primaries_active");
    reveal_strlit("indices_all_active");
    assert(lowered("all"@) =~= "all"@);
    assert(lowered("none"@) =~= "none"@);
    assert(lowered("primaries"@) =~= "primaries"@);
    assert(lowered("new_primaries"@) =~= "new_primaries"@);
    assert(lowered("replicas"@) =~= "replicas"@);
    assert(lowered("always"@) =~= "always"@);
    assert(lowered("indices_primaries_active"@) =~= "indices_primaries_active"@);
    assert(lowered("indices_all_active"@) =~= "indices_all_active"@);
}

// ---- filters -------------------------------------------------------------------

/// Attributes and the values accepted for each, in the order of their names.
pub type Values = Vec<(String, Vec<String>)>;

/// What a list of attributes and values is.
pub type ValuesV = Seq<(Seq<char>, Seq<Seq<char>>)>;

/// `include`, `exclude` and `require` filters: attribute -> accepted values.
#[derive(Debug, PartialEq, Eq)]
pub struct Filters {
    pub includes: Values,
    pub excludes: Values,
    pub requires_all: Values,
}

#[verifier::ext_equal]
pub struct FiltersV {
    pub includes: ValuesV,
    pub excludes: ValuesV,
    pub requires_all: ValuesV,
}

impl DeepView for Filters {
    type V = FiltersV;

    open spec fn deep_view(&self) -> FiltersV {
        FiltersV {
            includes: self.includes.deep_view(),
            excludes: self.excludes.deep_view(),
            requires_all: self.requires_all.deep_view(),
        }
    }
}

impl FiltersV {
    pub open spec fn none() -> FiltersV {
        FiltersV { includes: Seq::empty(), excludes: Seq::empty(), requires_all: Seq::empty() }
    }

    /// The filter a node fails, if it fails one: every attribute required
    /// must match, one of those to be included, and none of those excluded.
    pub open spec fn failed(self, node: NodeV) -> Option<(Seq<char>, ValuesV)> {
        if !(forall|i: int|
            0 <= i < self.requires_all.len() ==> accepts(#[trigger] self.requires_all[i], node)) {
            Some(("require"@, self.requires_all))
        } else if self.includes.len() > 0 && !(exists|i: int|
            0 <= i < self.includes.len() && accepts(#[trigger] self.includes[i], node)) {
            Some(("include"@, self.includes))
        } else if exists|i: int|
            0 <= i < self.excludes.len() && accepts(#[trigger] self.excludes[i], node) {
            Some(("exclude"@, self.excludes))
        } else {
            None
        }
    }
}

impl Default for Filters {
    fn default() -> (r: Filters)
        ensures
            r.deep_view() == FiltersV::none(),
    {
        let r = Filters { includes: Vec::new(), excludes: Vec::new(), requires_all: Vec::new() };
        assert(r.deep_view() =~= FiltersV::none());
        r
    }
}

/// A node's value for an attribute: a built-in one, or one the node was given.
pub open spec fn node_value(node: NodeV, attr: Seq<char>) -> Option<Seq<char>> {
    if attr == "_name"@ {
        Some(node.name)
    } else if attr == "_id"@ {
        Some(node.id)
    } else if attr == "_ip"@ || attr == "_host_ip"@ || attr == "_publish_ip"@ || attr == "_host"@ {
        Some(cut(node.transport_address, ':')[0])
    } else {
        lookup(node.attributes, attr)
    }
}

/// Whether a value is one of those accepted, by name or by pattern.
pub open spec fn accepted(values: Seq<Seq<char>>, have: Seq<char>) -> bool {
    exists|i: int|
        0 <= i < values.len() && ((#[trigger] values[i]) == have || (values[i].contains('*')
            && fits(values[i], have)))
}

/// Whether a node has an accepted value for an attribute.
pub open spec fn accepts(filter: (Seq<char>, Seq<Seq<char>>), node: NodeV) -> bool {
    match node_value(node, filter.0) {
        Some(have) => accepted(filter.1, have),
        None => false,
    }
}

impl Filters {
    /// The node's value for an attribute: the built-in `_name`, `_id`,
    /// `_ip`, `_host` and `_publish_ip`, or `node.attr.*`.
    pub fn node_value(node: &DiscoveryNode, attr: &str) -> (r: Option<String>)
        ensures
            r.deep_view() == node_value(node.deep_view(), attr@),
    {
        if same(attr, "_name") {
            Some(node.name.clone())
        } else if same(attr, "_id") {
            Some(node.id.0.clone())
        } else if same(attr, "_ip") || same(attr, "_host_ip") || same(attr, "_publish_ip") || same(
            attr,
            "_host",
        ) {
            let parts = split(node.transport_address.as_str(), ':');
            assert(parts.deep_view()[0] == parts@[0]@);
            Some(parts[0].clone())
        } else {
            match get(&node.attributes, attr) {
                Some(v) => Some(v.clone()),
                None => None,
            }
        }
    }

    /// Whether a value is one of those accepted, by name or by pattern.
    pub fn matches_any(values: &Vec<String>, have: &Option<String>) -> (r: bool)
        ensures
            r == (have is Some && accepted(values.deep_view(), have->0@)),
    {
        match have {
            Some(h) => {
                for i in 0..values.len()
                    invariant
                        *have == Some(*h),
                        forall|j: int|
                            0 <= j < i ==> !((#[trigger] values.deep_view()[j]) == h@ || (
                            values.deep_view()[j].contains('*') && fits(
                                values.deep_view()[j],
                                h@,
                            ))),
                {
                    let v = &values[i];
                    assert(values.deep_view()[i as int] == v@);
                    if *v == *h || (has_char(v.as_str(), '*') && glob_match(
                        v.as_str(),
                        h.as_str(),
                    )) {
                        return true;
                    }
                }
                false
            },
            None => false,
        }
    }

    fn accepts(filter: &(String, Vec<String>), node: &DiscoveryNode) -> (r: bool)
        ensures
            r == accepts(filter.deep_view(), node.deep_view()),
    {
        let have = Filters::node_value(node, filter.0.as_str());
        Filters::matches_any(&filter.1, &have)
    }

    fn any_accepts(list: &Values, node: &DiscoveryNode) -> (r: bool)
        ensures
            r == exists|i: int|
                0 <= i < list.deep_view().len() && accepts(
                    #[trigger] list.deep_view()[i],
                    node.deep_view(),
                ),
    {
        for i in 0..list.len()
            invariant
                forall|j: int|
                    0 <= j < i ==> !accepts(#[trigger] list.deep_view()[j], node.deep_view()),
        {
            if Filters::accepts(&list[i], node) {
                assert(accepts(list.deep_view()[i as int], node.deep_view()));
                return true;
            }
        }
        false
    }

    fn all_accept(list: &Values, node: &DiscoveryNode) -> (r: bool)
        ensures
            r == forall|i: int|
                0 <= i < list.deep_view().len() ==> accepts(
                    #[trigger] list.deep_view()[i],
                    node.deep_view(),
                ),
    {
        for i in 0..list.len()
            invariant
                forall|j: int|
                    0 <= j < i ==> accepts(#[trigger] list.deep_view()[j], node.deep_view()),
        {
            if !Filters::accepts(&list[i], node) {
                assert(!accepts(list.deep_view()[i as int], node.deep_view()));
                return false;
            }
        }
        true
    }

    /// Whether the node passes, and if not which filter it failed.
    pub fn check(&self, node: &DiscoveryNode) -> (r: Option<(&'static str, &Values)>)
        ensures
            r.deep_view() == self.deep_view().failed(node.deep_view()),
    {
        if !Filters::all_accept(&self.requires_all, node) {
            return Some(("require", &self.requires_all));
        }
        if self.includes.len() > 0 && !Filters::any_accepts(&self.includes, node) {
            return Some(("include", &self.includes));
        }
        if Filters::any_accepts(&self.excludes, node) {
            return Some(("exclude", &self.excludes));
        }
        None
    }
}

pub open spec fn filter_text(f: (Seq<char>, Seq<Seq<char>>)) -> Seq<char> {
    f.0 + ":\""@ + joined(f.1, ","@) + "\""@
}

/// Filters as they are shown: `attribute:"value,value"`, one after another.
pub open spec fn filters_shown(f: ValuesV) -> Seq<char> {
    joined(f.map_values(|x: (Seq<char>, Seq<Seq<char>>)| filter_text(x)), ","@)
}

/// Filters as they are shown: `attribute:"value,value"`, one after another.
pub fn filters_text(f: &Values) -> (r: String)
    ensures
        r@ == filters_shown(f.deep_view()),
{
    let mut parts: Vec<String> = Vec::new();
    for i in 0..f.len()
        invariant
            parts@.len() == i,
            forall|j: int| 0 <= j < i ==> parts@[j]@ == filter_text(#[trigger] f.deep_view()[j]),
    {
        let part = f[i].0.clone().concat(":\"").concat(join(&f[i].1, ",").as_str()).concat("\"");
        assert(part@ == filter_text(f.deep_view()[i as int]));
        parts.push(part);
    }
    assert(parts.deep_view() =~= f.deep_view().map_values(
        |x: (Seq<char>, Seq<Seq<char>>)| filter_text(x),
    ));
    join(&parts, ",")
}

/// The names of a list with commas between them, white space around a name
/// left out and empty names too.
pub open spec fn listed(s: Seq<char>) -> Seq<Seq<char>> {
    keep(cut(s, ',').map_values(|x: Seq<char>| trimmed(x)), |x: Seq<char>| x.len() > 0)
}

/// The names of a list with commas between them.
pub fn names(s: &str) -> (r: Vec<String>)
    ensures
        r.deep_view() == listed(s@),
{
    let parts = split(s, ',');
    let ghost all = cut(s@, ',').map_values(|x: Seq<char>| trimmed(x));
    let ghost p = |x: Seq<char>| x.len() > 0;
    let mut r: Vec<String> = Vec::new();
    assert(r.deep_view() =~= keep(all.take(0), p));
    for i in 0..parts.len()
        invariant
            parts.deep_view() == cut(s@, ','),
            all == cut(s@, ',').map_values(|x: Seq<char>| trimmed(x)),
            p == (|x: Seq<char>| x.len() > 0),
            r.deep_view() == keep(all.take(i as int), p),
    {
        proof {
            lemma_take(all, i as int);
            assert(parts.deep_view()[i as int] == parts@[i as int]@);
        }
        let t = trim(parts[i].as_str());
        if !t.as_str().is_empty() {
            push_to(&mut r, t);
        }
    }
    assert(all.take(parts@.len() as int) =~= all);
    r
}

/// The values of a filter.
pub open spec fn filter_values(v: JsonV) -> Seq<Seq<char>> {
    match v {
        JsonV::Text(s) => listed(s),
        JsonV::List(a) => strings_of(a),
        JsonV::Null => Seq::empty(),
        other => seq![written(other)],
    }
}

/// The strings of a list, anything else left out.
pub open spec fn strings_of(a: Seq<JsonV>) -> Seq<Seq<char>>
    decreases a.len(),
{
    if a.len() == 0 {
        Seq::empty()
    } else {
        match a.last() {
            JsonV::Text(s) => strings_of(a.drop_last()).push(s),
            _ => strings_of(a.drop_last()),
        }
    }
}

/// The strings of a list, anything else left out.
pub fn strings_in(a: &Vec<Json>) -> (r: Vec<String>)
    ensures
        r.deep_view() == strings_of(a.deep_view()),
{
    let mut r: Vec<String> = Vec::new();
    assert(r.deep_view() =~= strings_of(a.deep_view().take(0)));
    for i in 0..a.len()
        invariant
            r.deep_view() == strings_of(a.deep_view().take(i as int)),
    {
        proof {
            lemma_take(a.deep_view(), i as int);
        }
        match &a[i] {
            Json::Text(s) => {
                push_to(&mut r, s.clone());
            },
            _ => {},
        }
    }
    assert(a.deep_view().take(a@.len() as int) =~= a.deep_view());
    r
}

fn values_of(v: &Json) -> (r: Vec<String>)
    ensures
        r.deep_view() == filter_values(v.deep_view()),
{
    match v {
        Json::Text(s) => names(s.as_str()),
        Json::List(a) => {
            proof {
                crate::json::lemma_list(*a);
            }
            strings_in(a)
        },
        Json::Null => {
            let r: Vec<String> = Vec::new();
            assert(r.deep_view() =~= Seq::<Seq<char>>::empty());
            r
        },
        other => {
            let mut r: Vec<String> = Vec::new();
            push_to(&mut r, other.render());
            assert(r.deep_view() =~= seq![written(v.deep_view())]);
            r
        },
    }
}

/// Filters with those added that the first members of an object write: each
/// whose name starts with `head`, under what follows.
pub open spec fn gathered(
    f: ValuesV,
    o: Seq<(Seq<char>, JsonV)>,
    head: Seq<char>,
    n: nat,
) -> ValuesV
    decreases n,
{
    if n == 0 {
        f
    } else {
        let g = gathered(f, o, head, (n - 1) as nat);
        let (k, v) = o[n - 1];
        if begins(k, head) && filter_values(v).len() > 0 {
            with(g, k.skip(head.len() as int), filter_values(v))
        } else {
            g
        }
    }
}

fn gather(f: &mut Values, o: &Vec<(String, Json)>, head: &str)
    ensures
        final(f).deep_view() == gathered(old(f).deep_view(), o.deep_view(), head@, o@.len()),
{
    for i in 0..o.len()
        invariant
            f.deep_view() == gathered(old(f).deep_view(), o.deep_view(), head@, i as nat),
    {
        assert(o.deep_view()[i as int] == (o@[i as int].0@, o@[i as int].1.deep_view()));
        if let Some(attr) = strip_prefix(o[i].0.as_str(), head) {
            let values = values_of(&o[i].1);
            if values.len() > 0 {
                put(f, attr, values);
            }
        }
    }
}

/// The filters of one kind in a settings document: those under
/// `prefix.kind`, and those written flat as `prefix.kind.attribute`.
pub open spec fn filters_of_kind(settings: JsonV, prefix: Seq<char>, kind: Seq<char>) -> ValuesV {
    let under = match setting_of(settings, prefix + "."@ + kind) {
        Some(JsonV::Object(o)) => gathered(Seq::empty(), o, Seq::empty(), o.len()),
        _ => Seq::empty(),
    };
    match settings {
        JsonV::Object(o) => gathered(under, o, prefix + "."@ + kind + "."@, o.len()),
        _ => under,
    }
}

fn kind_from(settings: &Json, prefix: &str, kind: &str) -> (f: Values)
    ensures
        f.deep_view() == filters_of_kind(settings.deep_view(), prefix@, kind@),
{
    let mut f: Values = Vec::new();
    assert(f.deep_view() =~= Seq::<(Seq<char>, Seq<Seq<char>>)>::empty());
    let path = prefix.to_owned().concat(".").concat(kind);
    if let Some(Json::Object(o)) = setting(settings, path.as_str()) {
        proof {
            lemma_object(*o);
        }
        let none = String::new();
        gather(&mut f, o, none.as_str());
    }
    if let Json::Object(o) = settings {
        proof {
            lemma_object(*o);
        }
        let head = path.concat(".");
        gather(&mut f, o, head.as_str());
    }
    f
}

/// The filters in a settings document.
pub open spec fn filters_of(settings: JsonV, prefix: Seq<char>) -> FiltersV {
    FiltersV {
        includes: filters_of_kind(settings, prefix, "include"@),
        excludes: filters_of_kind(settings, prefix, "exclude"@),
        requires_all: filters_of_kind(settings, prefix, "require"@),
    }
}

/// The filters in a settings document.
pub fn filters_from(settings: &Json, prefix: &str) -> (f: Filters)
    ensures
        f.deep_view() == filters_of(settings.deep_view(), prefix@),
{
    Filters {
        includes: kind_from(settings, prefix, "include"),
        excludes: kind_from(settings, prefix, "exclude"),
        requires_all: kind_from(settings, prefix, "require"),
    }
}

/// No limit on the number of shards on a node.
pub const UNLIMITED: i64 = -1;

// ---- the cluster's settings ----------------------------------------------------

/// The cluster-level settings allocation reads, `persistent` under
/// `transient`. The balancer's factors are in millionths.
#[derive(Debug, PartialEq, Eq)]
pub struct ClusterSettings {
    pub enable: Enable,
    pub rebalance_enable: RebalanceEnable,
    pub allow_rebalance: AllowRebalance,
    pub cluster_concurrent_rebalance: u64,
    pub node_concurrent_incoming: u64,
    pub node_concurrent_outgoing: u64,
    pub node_initial_primaries: u64,
    pub node_initial_replicas: u64,
    pub total_shards_per_node: i64,
    pub awareness_attributes: Vec<String>,
    pub awareness_forced: Values,
    pub filters: Filters,
    pub balance_shard: i64,
    pub balance_index: i64,
    pub balance_threshold: i64,
}

#[verifier::ext_equal]
pub struct ClusterV {
    pub enable: Enable,
    pub rebalance_enable: RebalanceEnable,
    pub allow_rebalance: AllowRebalance,
    pub cluster_concurrent_rebalance: u64,
    pub node_concurrent_incoming: u64,
    pub node_concurrent_outgoing: u64,
    pub node_initial_primaries: u64,
    pub node_initial_replicas: u64,
    pub total_shards_per_node: i64,
    pub awareness_attributes: Seq<Seq<char>>,
    pub awareness_forced: ValuesV,
    pub filters: FiltersV,
    pub balance_shard: i64,
    pub balance_index: i64,
    pub balance_threshold: i64,
}

impl DeepView for ClusterSettings {
    type V = ClusterV;

    open spec fn deep_view(&self) -> ClusterV {
        ClusterV {
            enable: self.enable,
            rebalance_enable: self.rebalance_enable,
            allow_rebalance: self.allow_rebalance,
            cluster_concurrent_rebalance: self.cluster_concurrent_rebalance,
            node_concurrent_incoming: self.node_concurrent_incoming,
            node_concurrent_outgoing: self.node_concurrent_outgoing,
            node_initial_primaries: self.node_initial_primaries,
            node_initial_replicas: self.node_initial_replicas,
            total_shards_per_node: self.total_shards_per_node,
            awareness_attributes: self.awareness_attributes.deep_view(),
            awareness_forced: self.awareness_forced.deep_view(),
            filters: self.filters.deep_view(),
            balance_shard: self.balance_shard,
            balance_index: self.balance_index,
            balance_threshold: self.balance_threshold,
        }
    }
}

impl ClusterV {
    /// The settings when nothing is set.
    pub open spec fn usual() -> ClusterV {
        ClusterV {
            enable: Enable::All,
            rebalance_enable: RebalanceEnable::All,
            allow_rebalance: AllowRebalance::IndicesAllActive,
            cluster_concurrent_rebalance: 2,
            node_concurrent_incoming: 2,
            node_concurrent_outgoing: 2,
            node_initial_primaries: 4,
            node_initial_replicas: 4,
            total_shards_per_node: UNLIMITED,
            awareness_attributes: Seq::empty(),
            awareness_forced: Seq::empty(),
            filters: FiltersV::none(),
            balance_shard: 450_000,
            balance_index: 550_000,
            balance_threshold: 1_000_000,
        }
    }
}

impl Default for ClusterSettings {
    fn default() -> (r: ClusterSettings)
        ensures
            r.deep_view() == ClusterV::usual(),
    {
        let r = ClusterSettings {
            enable: Enable::All,
            rebalance_enable: RebalanceEnable::All,
            allow_rebalance: AllowRebalance::IndicesAllActive,
            cluster_concurrent_rebalance: 2,
            node_concurrent_incoming: 2,
            node_concurrent_outgoing: 2,
            node_initial_primaries: 4,
            node_initial_replicas: 4,
            total_shards_per_node: UNLIMITED,
            awareness_attributes: Vec::new(),
            awareness_forced: Vec::new(),
            filters: Filters::default(),
            balance_shard: 450_000,
            balance_index: 550_000,
            balance_threshold: 1_000_000,
        };
        assert(r.deep_view() =~= ClusterV::usual());
        r
    }
}

/// A document with the first members of another laid over it.
pub open spec fn overlaid(
    m: Seq<(Seq<char>, JsonV)>,
    o: Seq<(Seq<char>, JsonV)>,
    n: nat,
) -> Seq<(Seq<char>, JsonV)>
    decreases n,
{
    if n == 0 {
        m
    } else {
        with(overlaid(m, o, (n - 1) as nat), o[n - 1].0, o[n - 1].1)
    }
}

/// A document with a section of the settings laid over it.
pub open spec fn with_section(
    m: Seq<(Seq<char>, JsonV)>,
    v: JsonV,
    section: Seq<char>,
) -> Seq<(Seq<char>, JsonV)> {
    match member(v, section) {
        Some(JsonV::Object(o)) => overlaid(m, o, o.len()),
        _ => m,
    }
}

/// The settings of a cluster as one document: the transient ones over the
/// persistent ones.
pub open spec fn merged(v: JsonV) -> JsonV {
    JsonV::Object(
        with_section(with_section(Seq::empty(), v, "persistent"@), v, "transient"@),
    )
}

fn lay_section(m: &mut Vec<(String, Json)>, v: &Json, section: &str)
    ensures
        final(m).deep_view() == with_section(old(m).deep_view(), v.deep_view(), section@),
{
    if let Some(Json::Object(o)) = v.get(section) {
        proof {
            lemma_object(*o);
        }
        for i in 0..o.len()
            invariant
                m.deep_view() == overlaid(old(m).deep_view(), o.deep_view(), i as nat),
        {
            assert(o.deep_view()[i as int] == (o@[i as int].0@, o@[i as int].1.deep_view()));
            put(m, o[i].0.clone(), o[i].1.clone());
        }
    }
}

/// The values an awareness attribute must have, where they are forced.
pub open spec fn forced(o: Seq<(Seq<char>, JsonV)>, n: nat) -> ValuesV
    decreases n,
{
    if n == 0 {
        Seq::empty()
    } else {
        let g = forced(o, (n - 1) as nat);
        match setting_text(o[n - 1].1, "values"@) {
            Some(vals) => with(g, o[n - 1].0, listed(vals)),
            None => g,
        }
    }
}

fn forced_values(o: &Vec<(String, Json)>) -> (f: Values)
    ensures
        f.deep_view() == forced(o.deep_view(), o@.len()),
{
    let mut f: Values = Vec::new();
    assert(f.deep_view() =~= Seq::<(Seq<char>, Seq<Seq<char>>)>::empty());
    for i in 0..o.len()
        invariant
            f.deep_view() == forced(o.deep_view(), i as nat),
    {
        assert(o.deep_view()[i as int] == (o@[i as int].0@, o@[i as int].1.deep_view()));
        if let Some(vals) = setting_str(&o[i].1, "values") {
            put(&mut f, o[i].0.clone(), names(vals.as_str()));
        }
    }
    f
}

pub open spec fn or_number(m: JsonV, key: Seq<char>, usual: u64) -> u64 {
    match setting_number(m, key) {
        Some(n) => n,
        None => usual,
    }
}

pub open spec fn or_factor(m: JsonV, key: Seq<char>, usual: i64) -> i64 {
    match setting_factor(m, key) {
        Some(n) => n,
        None => usual,
    }
}

/// A number of shards that may be unlimited, written as text.
pub open spec fn limit_text(s: Option<Seq<char>>) -> i64 {
    match s {
        Some(t) => match signed(t) {
            Some(n) => if i64::MIN <= n <= i64::MAX {
                n as i64
            } else {
                UNLIMITED
            },
            None => UNLIMITED,
        },
        None => UNLIMITED,
    }
}

fn limit_of_text(s: &Option<String>) -> (r: i64)
    ensures
        r == limit_text(s.deep_view()),
{
    match s {
        Some(t) => match parse_i64(t.as_str()) {
            Some(n) => n,
            None => UNLIMITED,
        },
        None => UNLIMITED,
    }
}

/// The settings a document of the cluster's settings makes.
pub open spec fn cluster_settings(v: JsonV) -> ClusterV {
    let m = merged(v);
    let usual = ClusterV::usual();
    let both = setting_number(m, "cluster.routing.allocation.node_concurrent_recoveries"@);
    let each = match both {
        Some(n) => n,
        None => 2,
    };
    ClusterV {
        enable: match setting_text(m, "cluster.routing.allocation.enable"@) {
            Some(e) => Enable::named(e),
            None => usual.enable,
        },
        rebalance_enable: match setting_text(m, "cluster.routing.rebalance.enable"@) {
            Some(e) => RebalanceEnable::named(e),
            None => usual.rebalance_enable,
        },
        allow_rebalance: match setting_text(m, "cluster.routing.allocation.allow_rebalance"@) {
            Some(e) => AllowRebalance::named(e),
            None => usual.allow_rebalance,
        },
        cluster_concurrent_rebalance: or_number(
            m,
            "cluster.routing.allocation.cluster_concurrent_rebalance"@,
            2,
        ),
        node_concurrent_incoming: or_number(
            m,
            "cluster.routing.allocation.node_concurrent_incoming_recoveries"@,
            each,
        ),
        node_concurrent_outgoing: or_number(
            m,
            "cluster.routing.allocation.node_concurrent_outgoing_recoveries"@,
            each,
        ),
        node_initial_primaries: or_number(
            m,
            "cluster.routing.allocation.node_initial_primaries_recoveries"@,
            4,
        ),
        node_initial_replicas: or_number(
            m,
            "cluster.routing.allocation.node_initial_replicas_recoveries"@,
            4,
        ),
        total_shards_per_node: limit_text(
            setting_text(m, "cluster.routing.allocation.total_shards_per_node"@),
        ),
        awareness_attributes: match setting_text(
            m,
            "cluster.routing.allocation.awareness.attributes"@,
        ) {
            Some(a) => listed(a),
            None => Seq::empty(),
        },
        awareness_forced: match setting_of(m, "cluster.routing.allocation.awareness.force"@) {
            Some(JsonV::Object(o)) => forced(o, o.len()),
            _ => Seq::empty(),
        },
        filters: filters_of(m, "cluster.routing.allocation"@),
        balance_shard: or_factor(m, "cluster.routing.allocation.balance.shard"@, 450_000),
        balance_index: or_factor(m, "cluster.routing.allocation.balance.index"@, 550_000),
        balance_threshold: or_factor(
            m,
            "cluster.routing.allocation.balance.threshold"@,
            1_000_000,
        ),
    }
}

impl ClusterSettings {
    /// From `_cluster/settings` as the store keeps it: `{"persistent": {...},
    /// "transient": {...}}`, flat or nested keys.
    pub fn from_value(v: &Json) -> (r: ClusterSettings)
        ensures
            r.deep_view() == cluster_settings(v.deep_view()),
    {
        let mut o: Vec<(String, Json)> = Vec::new();
        assert(o.deep_view() =~= Seq::<(Seq<char>, JsonV)>::empty());
        lay_section(&mut o, v, "persistent");
        lay_section(&mut o, v, "transient");
        proof {
            lemma_object(o);
        }
        let m = Json::Object(o);
        assert(m.deep_view() == merged(v.deep_view()));
        let each: u64 = number_or(
            &m,
            "cluster.routing.allocation.node_concurrent_recoveries",
            2,
        );
        let limit = setting_str(&m, "cluster.routing.allocation.total_shards_per_node");
        ClusterSettings {
            enable: match setting_str(&m, "cluster.routing.allocation.enable") {
                Some(e) => Enable::parse(e.as_str()),
                None => Enable::All,
            },
            rebalance_enable: match setting_str(&m, "cluster.routing.rebalance.enable") {
                Some(e) => RebalanceEnable::parse(e.as_str()),
                None => RebalanceEnable::All,
            },
            allow_rebalance: match setting_str(
                &m,
                "cluster.routing.allocation.allow_rebalance",
            ) {
                Some(e) => AllowRebalance::parse(e.as_str()),
                None => AllowRebalance::IndicesAllActive,
            },
            cluster_concurrent_rebalance: number_or(
                &m,
                "cluster.routing.allocation.cluster_concurrent_rebalance",
                2,
            ),
            node_concurrent_incoming: number_or(
                &m,
                "cluster.routing.allocation.node_concurrent_incoming_recoveries",
                each,
            ),
            node_concurrent_outgoing: number_or(
                &m,
                "cluster.routing.allocation.node_concurrent_outgoing_recoveries",
                each,
            ),
            node_initial_primaries: number_or(
                &m,
                "cluster.routing.allocation.node_initial_primaries_recoveries",
                4,
            ),
            node_initial_replicas: number_or(
                &m,
                "cluster.routing.allocation.node_initial_replicas_recoveries",
                4,
            ),
            total_shards_per_node: limit_of_text(&limit),
            awareness_attributes: names_or_none(
                &m,
                "cluster.routing.allocation.awareness.attributes",
            ),
            awareness_forced: forced_in(&m),
            filters: filters_from(&m, "cluster.routing.allocation"),
            balance_shard: factor_or(&m, "cluster.routing.allocation.balance.shard", 450_000),
            balance_index: factor_or(&m, "cluster.routing.allocation.balance.index", 550_000),
            balance_threshold: factor_or(
                &m,
                "cluster.routing.allocation.balance.threshold",
                1_000_000,
            ),
        }
    }
}

fn number_or(m: &Json, key: &str, usual: u64) -> (r: u64)
    ensures
        r == or_number(m.deep_view(), key@, usual),
{
    match setting_u64(m, key) {
        Some(n) => n,
        None => usual,
    }
}

fn factor_or(m: &Json, key: &str, usual: i64) -> (r: i64)
    ensures
        r == or_factor(m.deep_view(), key@, usual),
{
    match setting_millionths(m, key) {
        Some(n) => n,
        None => usual,
    }
}

fn names_or_none(m: &Json, key: &str) -> (r: Vec<String>)
    ensures
        r.deep_view() == (match setting_text(m.deep_view(), key@) {
            Some(a) => listed(a),
            None => Seq::empty(),
        }),
{
    match setting_str(m, key) {
        Some(a) => names(a.as_str()),
        None => {
            let r: Vec<String> = Vec::new();
            assert(r.deep_view() =~= Seq::<Seq<char>>::empty());
            r
        },
    }
}

fn forced_in(m: &Json) -> (r: Values)
    ensures
        r.deep_view() == (match setting_of(
            m.deep_view(),
            "cluster.routing.allocation.awareness.force"@,
        ) {
            Some(JsonV::Object(o)) => forced(o, o.len()),
            _ => Seq::empty(),
        }),
{
    if let Some(Json::Object(force)) = setting(m, "cluster.routing.allocation.awareness.force") {
        proof {
            lemma_object(*force);
        }
        return forced_values(force);
    }
    let r: Values = Vec::new();
    assert(r.deep_view() =~= Seq::<(Seq<char>, Seq<Seq<char>>)>::empty());
    r
}

// ---- an index's settings -------------------------------------------------------

/// The index-level settings allocation reads.
#[derive(Debug, PartialEq, Eq)]
pub struct IndexSettings {
    pub enable: Option<Enable>,
    pub rebalance_enable: Option<RebalanceEnable>,
    pub total_shards_per_node: i64,
    pub filters: Filters,
    pub max_retries: u64,
    pub delayed_timeout: Millis,
}

#[verifier::ext_equal]
pub struct SettingsV {
    pub enable: Option<Enable>,
    pub rebalance_enable: Option<RebalanceEnable>,
    pub total_shards_per_node: i64,
    pub filters: FiltersV,
    pub max_retries: u64,
    pub delayed_timeout: u64,
}

impl DeepView for IndexSettings {
    type V = SettingsV;

    open spec fn deep_view(&self) -> SettingsV {
        SettingsV {
            enable: self.enable,
            rebalance_enable: self.rebalance_enable,
            total_shards_per_node: self.total_shards_per_node,
            filters: self.filters.deep_view(),
            max_retries: self.max_retries,
            delayed_timeout: self.delayed_timeout,
        }
    }
}

/// The settings of an index, as its document writes them.
pub open spec fn index_settings(s: JsonV) -> SettingsV {
    SettingsV {
        enable: match setting_text(s, "index.routing.allocation.enable"@) {
            Some(e) => Some(Enable::named(e)),
            None => None,
        },
        rebalance_enable: match setting_text(s, "index.routing.rebalance.enable"@) {
            Some(e) => Some(RebalanceEnable::named(e)),
            None => None,
        },
        total_shards_per_node: limit_text(
            setting_text(s, "index.routing.allocation.total_shards_per_node"@),
        ),
        filters: filters_of(s, "index.routing.allocation"@),
        max_retries: or_number(s, "index.allocation.max_retries"@, 5),
        delayed_timeout: match setting_text(s, "index.unassigned.node_left.delayed_timeout"@) {
            Some(t) => match duration(t) {
                Some(ms) => ms,
                None => 60_000,
            },
            None => 60_000,
        },
    }
}

impl IndexSettings {
    pub fn from_metadata(m: &IndexMetadata) -> (r: IndexSettings)
        ensures
            r.deep_view() == index_settings(m.deep_view().settings),
    {
        let s = &m.settings;
        let limit = setting_str(s, "index.routing.allocation.total_shards_per_node");
        let enable = match setting_str(s, "index.routing.allocation.enable") {
            Some(e) => Some(Enable::parse(e.as_str())),
            None => None,
        };
        let rebalance_enable = match setting_str(s, "index.routing.rebalance.enable") {
            Some(e) => Some(RebalanceEnable::parse(e.as_str())),
            None => None,
        };
        let max_retries: u64 = match setting_u64(s, "index.allocation.max_retries") {
            Some(n) => n,
            None => 5,
        };
        let delayed_timeout: u64 = match setting_str(
            s,
            "index.unassigned.node_left.delayed_timeout",
        ) {
            Some(t) => match time_ms(t.as_str()) {
                Some(ms) => ms,
                None => 60_000,
            },
            None => 60_000,
        };
        IndexSettings {
            enable,
            rebalance_enable,
            total_shards_per_node: limit_of_text(&limit),
            filters: filters_from(s, "index.routing.allocation"),
            max_retries,
            delayed_timeout,
        }
    }
}

// ---- what allocation looks at --------------------------------------------------

/// Everything `reroute` and `explain` look at. The lists are in their order, no
/// entry twice: `order::all_in_order` says so, and `order::is_in_order` sees to
/// it.
pub struct Context<'a> {
    /// in the order of their ids
    pub nodes: &'a Vec<DiscoveryNode>,
    /// in the order of their names
    pub indices: &'a Vec<IndexMetadata>,
    pub cluster: &'a ClusterSettings,
    /// where an index's primary data lives, for indices the manager holds
    pub primary_home: &'a Vec<(String, NodeId)>,
    /// the indices among those whose home already holds documents: a primary
    /// that may not stay at home is moved from there rather than made again
    /// empty somewhere else, which would lose them
    pub home_holds_documents: &'a Vec<String>,
    /// the index copies each node holds on disk: name, uuid and the
    /// allocation id the copy was given
    pub held: &'a Vec<(NodeId, Vec<(String, String, String)>)>,
    pub now: Millis,
}

pub struct CtxV {
    pub nodes: Seq<NodeV>,
    pub indices: Seq<MetaV>,
    pub cluster: ClusterV,
    pub primary_home: Seq<(Seq<char>, Seq<char>)>,
    pub home_holds_documents: Seq<Seq<char>>,
    pub held: Seq<(Seq<char>, Seq<(Seq<char>, Seq<char>, Seq<char>)>)>,
    pub now: u64,
}

impl DeepView for Context<'_> {
    type V = CtxV;

    open spec fn deep_view(&self) -> CtxV {
        CtxV {
            nodes: self.nodes.deep_view(),
            indices: self.indices.deep_view(),
            cluster: self.cluster.deep_view(),
            primary_home: self.primary_home.deep_view(),
            home_holds_documents: self.home_holds_documents.deep_view(),
            held: self.held.deep_view(),
            now: self.now,
        }
    }
}

/// The most nodes and the most indices the balancer's arithmetic has room for.
pub const ROOM: usize = 0x4000_0000;

pub open spec fn with_node_id(id: Seq<char>) -> spec_fn(NodeV) -> bool {
    |n: NodeV| n.id == id
}

impl CtxV {
    /// Whether the balancer's arithmetic has room for the cluster.
    pub open spec fn fits(self) -> bool {
        self.nodes.len() <= ROOM && self.indices.len() <= ROOM
    }

    /// The nodes that may hold copies.
    pub open spec fn data_nodes(self) -> Seq<NodeV> {
        keep(self.nodes, |n: NodeV| n.data())
    }

    /// The node of an id.
    pub open spec fn node(self, id: Seq<char>) -> Option<NodeV> {
        let i = find(self.nodes, with_node_id(id));
        if i < self.nodes.len() {
            Some(self.nodes[i])
        } else {
            None
        }
    }

    /// What is known of an index.
    pub open spec fn index(self, name: Seq<char>) -> Option<MetaV> {
        let i = find(self.indices, |m: MetaV| m.name == name);
        if i < self.indices.len() {
            Some(self.indices[i])
        } else {
            None
        }
    }

    /// An index's settings, the usual ones when it is not known.
    pub open spec fn settings_of(self, name: Seq<char>) -> SettingsV {
        match self.index(name) {
            Some(m) => index_settings(m.settings),
            None => SettingsV {
                enable: None,
                rebalance_enable: None,
                total_shards_per_node: UNLIMITED,
                filters: FiltersV::none(),
                max_retries: 5,
                delayed_timeout: 60_000,
            },
        }
    }
}

impl<'a> Context<'a> {
    /// The nodes that may hold copies.
    pub fn data_nodes(&self) -> (r: Vec<&'a DiscoveryNode>)
        ensures
            r.deep_view() == self.deep_view().data_nodes(),
            r@.len() <= self.nodes@.len(),
    {
        let ghost p = |n: NodeV| n.data();
        let mut r: Vec<&'a DiscoveryNode> = Vec::new();
        assert(r.deep_view() =~= keep(self.nodes.deep_view().take(0), p));
        for i in 0..self.nodes.len()
            invariant
                p == (|n: NodeV| n.data()),
                r@.len() <= i,
                r.deep_view() == keep(self.nodes.deep_view().take(i as int), p),
        {
            proof {
                lemma_take(self.nodes.deep_view(), i as int);
            }
            if self.nodes[i].is_data() {
                push_to(&mut r, &self.nodes[i]);
            }
        }
        assert(self.nodes.deep_view().take(self.nodes@.len() as int) =~= self.nodes.deep_view());
        r
    }

    /// The node of an id.
    pub fn node(&self, id: &NodeId) -> (r: Option<&'a DiscoveryNode>)
        ensures
            r.deep_view() == self.deep_view().node(id.deep_view()),
    {
        let ghost p = |n: NodeV| n.id == id.deep_view();
        let f = |n: &DiscoveryNode| -> (r: bool)
            ensures
                r == p(n.deep_view()),
            { n.id.is(id) };
        let i = find_in(self.nodes, f, Ghost(p));
        if i < self.nodes.len() {
            Some(&self.nodes[i])
        } else {
            None
        }
    }

    /// What is known of an index.
    pub fn index(&self, name: &str) -> (r: Option<&'a IndexMetadata>)
        ensures
            r.deep_view() == self.deep_view().index(name@),
    {
        let ghost p = |m: MetaV| m.name == name@;
        let f = |m: &IndexMetadata| -> (r: bool)
            ensures
                r == p(m.deep_view()),
            { same(m.name.as_str(), name) };
        let i = find_in(self.indices, f, Ghost(p));
        if i < self.indices.len() {
            Some(&self.indices[i])
        } else {
            None
        }
    }

    /// An index's settings, the usual ones when it is not known.
    pub fn index_settings(&self, name: &str) -> (r: IndexSettings)
        ensures
            r.deep_view() == self.deep_view().settings_of(name@),
    {
        match self.index(name) {
            Some(m) => IndexSettings::from_metadata(m),
            None => IndexSettings {
                enable: None,
                rebalance_enable: None,
                total_shards_per_node: UNLIMITED,
                filters: Filters::default(),
                max_retries: 5,
                delayed_timeout: 60_000,
            },
        }
    }
}

} // verus!
