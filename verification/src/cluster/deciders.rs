//! The deciders: whether a copy may be put on a node, may be moved and may
//! stay, each in the words `_cluster/allocation/explain` shows.

use vstd::prelude::*;

use super::settings::{
    filters_shown, filters_text, AllowRebalance, Context, CtxV, Enable, IndexSettings,
    RebalanceEnable, SettingsV,
};
use super::state::{
    all, is_node, on_node, primary_of, same_text, shards_of, CopyV, DiscoveryNode, InfoV, NodeV,
    IndexV, RoutingTable, ShardRouting, ShardState, UnassignedInfo,
};
use crate::list::{any, any_in, count, count_in, find, find_in, get, keep, keep_in, lookup, push_to, put, with};
use crate::text::{dec, dec_int, decimal, decimal_signed, decimal_wide, join, joined, same};
use crate::time::{iso, iso_millis};

verus! {

/// What a decider says.
#[derive(Clone, Copy, Debug, PartialEq, Eq, PartialOrd, Ord, Structural)]
pub enum Decision {
    Yes,
    Throttle,
    No,
}

impl Decision {
    pub open spec fn name(self) -> Seq<char> {
        match self {
            Decision::Yes => "YES"@,
            Decision::Throttle => "THROTTLE"@,
            Decision::No => "NO"@,
        }
    }

    /// How bad a decision is.
    pub open spec fn rank(self) -> int {
        match self {
            Decision::Yes => 0,
            Decision::Throttle => 1,
            Decision::No => 2,
        }
    }

    pub fn label(self) -> (r: &'static str)
        ensures
            r@ == self.name(),
    {
        match self {
            Decision::Yes => "YES",
            Decision::Throttle => "THROTTLE",
            Decision::No => "NO",
        }
    }

    /// Whether a decision is worse than another.
    pub fn is_worse(self, than: Decision) -> (r: bool)
        ensures
            r == (self.rank() > than.rank()),
    {
        match (self, than) {
            (Decision::No, Decision::Yes) => true,
            (Decision::No, Decision::Throttle) => true,
            (Decision::Throttle, Decision::Yes) => true,
            _ => false,
        }
    }
}

/// One decider's verdict, with the sentence `_cluster/allocation/explain` shows.
#[derive(Debug, PartialEq, Eq)]
pub struct Verdict {
    pub decider: &'static str,
    pub decision: Decision,
    pub explanation: String,
}

#[verifier::ext_equal]
pub struct VerdictV {
    pub decider: Seq<char>,
    pub decision: Decision,
    pub explanation: Seq<char>,
}

impl DeepView for Verdict {
    type V = VerdictV;

    open spec fn deep_view(&self) -> VerdictV {
        VerdictV {
            decider: self.decider@,
            decision: self.decision,
            explanation: self.explanation@,
        }
    }
}

/// A verdict.
pub open spec fn says(decider: Seq<char>, decision: Decision, explanation: Seq<char>) -> VerdictV {
    VerdictV { decider, decision, explanation }
}

fn verdict(decider: &'static str, decision: Decision, explanation: String) -> (r: Verdict)
    ensures
        r.deep_view() == says(decider@, decision, explanation@),
{
    Verdict { decider, decision, explanation }
}

/// The worst of some verdicts, yes when there is none.
pub open spec fn worst(vs: Seq<VerdictV>) -> Decision
    decreases vs.len(),
{
    if vs.len() == 0 {
        Decision::Yes
    } else {
        let before = worst(vs.drop_last());
        if vs.last().decision.rank() > before.rank() {
            vs.last().decision
        } else {
            before
        }
    }
}

/// The worst of a set of verdicts.
pub fn overall(vs: &Vec<Verdict>) -> (r: Decision)
    ensures
        r == worst(vs.deep_view()),
{
    let mut d = Decision::Yes;
    for i in 0..vs.len()
        invariant
            d == worst(vs.deep_view().take(i as int)),
    {
        proof {
            crate::list::lemma_take(vs.deep_view(), i as int);
        }
        if vs[i].decision.is_worse(d) {
            d = vs[i].decision;
        }
    }
    assert(vs.deep_view().take(vs@.len() as int) =~= vs.deep_view());
    d
}

/// The worst of some verdicts is one of them, yes when there is none, and no
/// verdict among them is worse.
pub proof fn law_the_worst_verdict_decides(vs: Seq<VerdictV>)
    ensures
        vs.len() == 0 ==> worst(vs) == Decision::Yes,
        vs.len() > 0 ==> exists|i: int|
            0 <= i < vs.len() && (#[trigger] vs[i]).decision == worst(vs),
        forall|i: int|
            0 <= i < vs.len() ==> (#[trigger] vs[i]).decision.rank() <= worst(vs).rank(),
    decreases vs.len(),
{
    if vs.len() > 0 {
        let before = vs.drop_last();
        law_the_worst_verdict_decides(before);
        if vs.last().decision.rank() > worst(before).rank() || before.len() == 0 {
            assert(vs[vs.len() - 1].decision == worst(vs));
        } else {
            let k = choose|k: int|
                0 <= k < before.len() && (#[trigger] before[k]).decision == worst(before);
            assert(vs[k] == before[k]);
        }
        assert forall|i: int| 0 <= i < vs.len() implies (#[trigger] vs[i]).decision.rank() <= worst(
            vs,
        ).rank() by {
            if i < before.len() {
                assert(vs[i] == before[i]);
            }
        }
    }
}

// ---- what a copy is called -----------------------------------------------------

pub open spec fn info_text(u: InfoV) -> Seq<char> {
    ", unassigned_info[[reason="@ + u.reason + "], at["@ + iso(u.at as nat) + "], delayed="@
        + truth(u.delayed) + ", allocation_status["@ + u.status + "]]"@
}

pub open spec fn truth(b: bool) -> Seq<char> {
    if b {
        "true"@
    } else {
        "false"@
    }
}

pub fn truth_text(b: bool) -> (r: &'static str)
    ensures
        r@ == truth(b),
{
    if b {
        "true"
    } else {
        "false"
    }
}

/// How a copy of a shard describes itself.
pub open spec fn summary(c: CopyV) -> Seq<char> {
    let node = match c.node {
        Some(n) => "node["@ + n + "]"@,
        None => "node[null]"@,
    };
    let reloc = match c.relocating_node {
        Some(r) => ", relocating ["@ + r + "]"@,
        None => ""@,
    };
    let kind = if c.primary {
        "[P]"@
    } else {
        "[R]"@
    };
    let source = match c.source() {
        Some(s) => ", recovery_source["@ + (if s == "PEER"@ {
            "peer recovery"@
        } else if s == "EMPTY_STORE"@ {
            "new shard recovery"@
        } else {
            "existing store recovery"@
        }) + "]"@,
        None => ""@,
    };
    let alloc = match c.allocation_id {
        Some(a) => ", a[id="@ + a + "]"@,
        None => ""@,
    };
    let unassigned = if c.state == ShardState::Unassigned && c.unassigned is Some {
        info_text(c.unassigned->0)
    } else {
        ""@
    };
    "[["@ + c.index + "]["@ + dec(c.shard as nat) + "], "@ + node + reloc + ", "@ + kind + source
        + ", s["@ + c.state.name() + "]"@ + alloc + unassigned + "]"@
}

fn info_shown(u: &UnassignedInfo) -> (r: String)
    ensures
        r@ == info_text(u.deep_view()),
{
    ", unassigned_info[[reason=".to_owned().concat(u.reason.as_str()).concat("], at[").concat(
        iso_millis(u.at_millis).as_str(),
    ).concat("], delayed=").concat(truth_text(u.delayed)).concat(", allocation_status[").concat(
        u.allocation_status.as_str(),
    ).concat("]]")
}

/// How a copy of a shard describes itself in the plugin's messages:
/// `[[index][0], node[x], [P], s[STARTED], a[id=...]]`.
pub fn short_summary(c: &ShardRouting) -> (r: String)
    ensures
        r@ == summary(c.deep_view()),
{
    let node = match &c.node {
        Some(n) => "node[".to_owned().concat(n.as_str()).concat("]"),
        None => "node[null]".to_owned(),
    };
    let reloc = match &c.relocating_node {
        Some(r) => ", relocating [".to_owned().concat(r.as_str()).concat("]"),
        None => "".to_owned(),
    };
    let kind = if c.primary {
        "[P]"
    } else {
        "[R]"
    };
    let source = match c.recovery_source() {
        Some(s) => ", recovery_source[".to_owned().concat(
            if same(s, "PEER") {
                "peer recovery"
            } else if same(s, "EMPTY_STORE") {
                "new shard recovery"
            } else {
                "existing store recovery"
            },
        ).concat("]"),
        None => "".to_owned(),
    };
    let alloc = match &c.allocation_id {
        Some(a) => ", a[id=".to_owned().concat(a.as_str()).concat("]"),
        None => "".to_owned(),
    };
    let unassigned = match &c.unassigned {
        Some(u) => {
            if c.state == ShardState::Unassigned {
                info_shown(u)
            } else {
                "".to_owned()
            }
        },
        None => "".to_owned(),
    };
    "[[".to_owned().concat(c.index.as_str()).concat("][").concat(
        decimal(c.shard as u64).as_str(),
    ).concat("], ").concat(node.as_str()).concat(reloc.as_str()).concat(", ").concat(kind).concat(
        source.as_str(),
    ).concat(", s[").concat(c.state.as_str()).concat("]").concat(alloc.as_str()).concat(
        unassigned.as_str(),
    ).concat("]")
}

// ---- one decider at a time -----------------------------------------------------

/// What a node without the data role is told, which holds no copy of anything.
pub open spec fn no_data(node: NodeV) -> VerdictV {
    says(
        "data_role"@,
        Decision::No,
        "node ["@ + node.name + "] does not have the data role and cannot hold shard data"@,
    )
}

/// A node without the data role holds no copy of anything, and the refusal
/// has to be said.
fn data_role_verdict(node: &DiscoveryNode) -> (r: Option<Verdict>)
    ensures
        r.deep_view() == (if node.deep_view().data() {
            None
        } else {
            Some(no_data(node.deep_view()))
        }),
{
    if node.is_data() {
        None
    } else {
        Some(
            verdict(
                "data_role",
                Decision::No,
                "node [".to_owned().concat(node.name.as_str()).concat(
                    "] does not have the data role and cannot hold shard data",
                ),
            ),
        )
    }
}

pub open spec fn failures(copy: CopyV) -> u64 {
    match copy.unassigned {
        Some(u) => u.failed,
        None => 0,
    }
}

/// Whether the copy has been tried too often.
pub open spec fn retry(is: SettingsV, copy: CopyV) -> VerdictV {
    let failed = failures(copy);
    if failed >= is.max_retries {
        let info = match copy.unassigned {
            Some(u) => "unassigned_info[[reason="@ + u.reason + "], at["@ + iso(u.at as nat)
                + "], failed_attempts["@ + dec(u.failed as nat) + "], delayed="@ + truth(u.delayed)
                + ", allocation_status["@ + u.status + "]]"@,
            None => ""@,
        };
        says(
            "max_retry"@,
            Decision::No,
            "shard has exceeded the maximum number of retries ["@ + dec(is.max_retries as nat)
                + "] on failed allocation attempts - manually call [/_cluster/reroute?retry_failed=true] to retry, ["@
                + info + "]"@,
        )
    } else if failed == 0 {
        says("max_retry"@, Decision::Yes, "shard has no previous failures"@)
    } else {
        says(
            "max_retry"@,
            Decision::Yes,
            "shard has failed allocating ["@ + dec(failed as nat) + "] times but ["@ + dec(
                is.max_retries as nat,
            ) + "] retries are allowed"@,
        )
    }
}

fn max_retry_verdict(is: &IndexSettings, copy: &ShardRouting) -> (r: Verdict)
    ensures
        r.deep_view() == retry(is.deep_view(), copy.deep_view()),
{
    let failed: u64 = match &copy.unassigned {
        Some(u) => u.failed_allocations,
        None => 0,
    };
    if failed >= is.max_retries {
        let info = match &copy.unassigned {
            Some(u) => "unassigned_info[[reason=".to_owned().concat(u.reason.as_str()).concat(
                "], at[",
            ).concat(iso_millis(u.at_millis).as_str()).concat("], failed_attempts[").concat(
                decimal(u.failed_allocations).as_str(),
            ).concat("], delayed=").concat(truth_text(u.delayed)).concat(
                ", allocation_status[",
            ).concat(u.allocation_status.as_str()).concat("]]"),
            None => "".to_owned(),
        };
        return verdict(
            "max_retry",
            Decision::No,
            "shard has exceeded the maximum number of retries [".to_owned().concat(
                decimal(is.max_retries).as_str(),
            ).concat(
                "] on failed allocation attempts - manually call [/_cluster/reroute?retry_failed=true] to retry, [",
            ).concat(info.as_str()).concat("]"),
        );
    }
    if failed == 0 {
        verdict("max_retry", Decision::Yes, "shard has no previous failures".to_owned())
    } else {
        verdict(
            "max_retry",
            Decision::Yes,
            "shard has failed allocating [".to_owned().concat(decimal(failed).as_str()).concat(
                "] times but [",
            ).concat(decimal(is.max_retries).as_str()).concat("] retries are allowed"),
        )
    }
}

/// Whether a replica has an active primary to be filled from.
pub open spec fn after_primary(t: Seq<IndexV>, copy: CopyV) -> VerdictV {
    let primary = primary_of(t, copy.index, copy.shard);
    if copy.primary {
        says(
            "replica_after_primary_active"@,
            Decision::Yes,
            "shard is primary and can be allocated"@,
        )
    } else if primary is Some && primary->0.state.active() {
        says(
            "replica_after_primary_active"@,
            Decision::Yes,
            "primary shard for this replica is already active"@,
        )
    } else {
        says(
            "replica_after_primary_active"@,
            Decision::No,
            "primary shard for this replica is not yet active"@,
        )
    }
}

fn replica_after_primary_verdict(table: &RoutingTable, copy: &ShardRouting) -> (r: Verdict)
    ensures
        r.deep_view() == after_primary(table.deep_view(), copy.deep_view()),
{
    if copy.primary {
        return verdict(
            "replica_after_primary_active",
            Decision::Yes,
            "shard is primary and can be allocated".to_owned(),
        );
    }
    let active = match table.primary(copy.index.as_str(), copy.shard) {
        Some(p) => p.state.is_active(),
        None => false,
    };
    if active {
        verdict(
            "replica_after_primary_active",
            Decision::Yes,
            "primary shard for this replica is already active".to_owned(),
        )
    } else {
        verdict(
            "replica_after_primary_active",
            Decision::No,
            "primary shard for this replica is not yet active".to_owned(),
        )
    }
}

/// Whether allocation is switched on for the copy: the index's setting
/// before the cluster's.
pub open spec fn enabled(ctx: CtxV, is: SettingsV, copy: CopyV) -> VerdictV {
    let (enable, from) = match is.enable {
        Some(e) => (e, "index setting [index.routing.allocation.enable"@),
        None => (ctx.cluster.enable, "cluster setting [cluster.routing.allocation.enable"@),
    };
    let ok = match enable {
        Enable::All => true,
        Enable::Nothing => false,
        Enable::Primaries => copy.primary,
        Enable::NewPrimaries => copy.primary && copy.because("INDEX_CREATED"@),
    };
    if ok {
        says("enable"@, Decision::Yes, "all allocations are allowed"@)
    } else {
        let what = match enable {
            Enable::Primaries => "replica allocations are forbidden"@,
            Enable::NewPrimaries => "non-new primary allocations are forbidden"@,
            _ => "all allocations are forbidden"@,
        };
        says(
            "enable"@,
            Decision::No,
            what + " due to "@ + from + "="@ + enable.name() + "]"@,
        )
    }
}

fn enable_verdict(ctx: &Context, is: &IndexSettings, copy: &ShardRouting) -> (r: Verdict)
    ensures
        r.deep_view() == enabled(ctx.deep_view(), is.deep_view(), copy.deep_view()),
{
    let (enable, from) = match is.enable {
        Some(e) => (e, "index setting [index.routing.allocation.enable"),
        None => (ctx.cluster.enable, "cluster setting [cluster.routing.allocation.enable"),
    };
    let ok = match enable {
        Enable::All => true,
        Enable::Nothing => false,
        Enable::Primaries => copy.primary,
        Enable::NewPrimaries => copy.primary && copy.is_because("INDEX_CREATED"),
    };
    if ok {
        verdict("enable", Decision::Yes, "all allocations are allowed".to_owned())
    } else {
        let what = match enable {
            Enable::Primaries => "replica allocations are forbidden",
            Enable::NewPrimaries => "non-new primary allocations are forbidden",
            _ => "all allocations are forbidden",
        };
        verdict(
            "enable",
            Decision::No,
            what.to_owned().concat(" due to ").concat(from).concat("=").concat(
                enable.as_str(),
            ).concat("]"),
        )
    }
}

/// The version every node of the cluster runs.
pub open spec fn version_text() -> Seq<char> {
    "can allocate replica shard to a node with version ["@ + crate::OPENSEARCH_VERSION@
        + "] since this is equal-or-newer than the primary version ["@ + crate::OPENSEARCH_VERSION@
        + "]"@
}

pub open spec fn version(copy: CopyV) -> VerdictV {
    if copy.primary {
        says(
            "node_version"@,
            Decision::Yes,
            "the primary shard is new or already existed on the node"@,
        )
    } else {
        says("node_version"@, Decision::Yes, version_text())
    }
}

fn version_verdict(copy: &ShardRouting) -> (r: Verdict)
    ensures
        r.deep_view() == version(copy.deep_view()),
{
    if copy.primary {
        verdict(
            "node_version",
            Decision::Yes,
            "the primary shard is new or already existed on the node".to_owned(),
        )
    } else {
        verdict(
            "node_version",
            Decision::Yes,
            "can allocate replica shard to a node with version [".to_owned().concat(
                crate::OPENSEARCH_VERSION,
            ).concat("] since this is equal-or-newer than the primary version [").concat(
                crate::OPENSEARCH_VERSION,
            ).concat("]"),
        )
    }
}

/// Whether the node passes the filters, the cluster's before the index's.
pub open spec fn filtered(ctx: CtxV, is: SettingsV, node: NodeV) -> VerdictV {
    match ctx.cluster.filters.failed(node) {
        Some((kind, f)) => says(
            "filter"@,
            Decision::No,
            "node does not match cluster setting [cluster.routing.allocation."@ + kind
                + "] filters ["@ + filters_shown(f) + "]"@,
        ),
        None => match is.filters.failed(node) {
            Some((kind, f)) => says(
                "filter"@,
                Decision::No,
                "node does not match index setting [index.routing.allocation."@ + kind
                    + "] filters ["@ + filters_shown(f) + "]"@,
            ),
            None => says(
                "filter"@,
                Decision::Yes,
                "node passes include/exclude/require filters"@,
            ),
        },
    }
}

fn filter_verdict(ctx: &Context, is: &IndexSettings, node: &DiscoveryNode) -> (r: Verdict)
    ensures
        r.deep_view() == filtered(ctx.deep_view(), is.deep_view(), node.deep_view()),
{
    if let Some((kind, f)) = ctx.cluster.filters.check(node) {
        return verdict(
            "filter",
            Decision::No,
            "node does not match cluster setting [cluster.routing.allocation.".to_owned().concat(
                kind,
            ).concat("] filters [").concat(filters_text(f).as_str()).concat("]"),
        );
    }
    if let Some((kind, f)) = is.filters.check(node) {
        return verdict(
            "filter",
            Decision::No,
            "node does not match index setting [index.routing.allocation.".to_owned().concat(
                kind,
            ).concat("] filters [").concat(filters_text(f).as_str()).concat("]"),
        );
    }
    verdict("filter", Decision::Yes, "node passes include/exclude/require filters".to_owned())
}

/// Whether a copy is another copy of a shard that is on a node.
pub open spec fn twin_on(copy: CopyV, node: Seq<char>) -> spec_fn(CopyV) -> bool {
    |c: CopyV|
        c.shard == copy.shard && c.state != ShardState::Unassigned && c.node == Some(node)
            && c.allocation_id != copy.allocation_id
}

/// No two copies of a shard are on one node, and a copy does not go to the
/// node it is already on.
pub open spec fn same_shard(t: Seq<IndexV>, copy: CopyV, node: NodeV) -> VerdictV {
    let mine = shards_of(t, copy.index);
    let i = find(mine, twin_on(copy, node.id));
    if copy.state != ShardState::Unassigned && copy.node == Some(node.id) {
        says(
            "same_shard"@,
            Decision::No,
            "the shard cannot be allocated to the same node on which it already exists "@ + summary(
                copy,
            ),
        )
    } else if i < mine.len() {
        says(
            "same_shard"@,
            Decision::No,
            "a copy of this shard is already allocated to this node "@ + summary(mine[i]),
        )
    } else {
        says("same_shard"@, Decision::Yes, "this node does not hold a copy of this shard"@)
    }
}

fn same_shard_verdict(table: &RoutingTable, copy: &ShardRouting, node: &DiscoveryNode) -> (r:
    Verdict)
    ensures
        r.deep_view() == same_shard(table.deep_view(), copy.deep_view(), node.deep_view()),
{
    if copy.state != ShardState::Unassigned && is_node(&copy.node, &node.id) {
        return verdict(
            "same_shard",
            Decision::No,
            "the shard cannot be allocated to the same node on which it already exists ".to_owned().concat(
                short_summary(copy).as_str(),
            ),
        );
    }
    let mine = table.shards_of(copy.index.as_str());
    let ghost p = twin_on(copy.deep_view(), node.deep_view().id);
    let f = |c: &&ShardRouting| -> (r: bool)
        ensures
            r == p(c.deep_view()),
        {
            c.shard == copy.shard && c.state != ShardState::Unassigned && is_node(
                &c.node,
                &node.id,
            ) && !same_text(&c.allocation_id, &copy.allocation_id)
        };
    let i = find_in(&mine, f, Ghost(p));
    if i < mine.len() {
        verdict(
            "same_shard",
            Decision::No,
            "a copy of this shard is already allocated to this node ".to_owned().concat(
                short_summary(mine[i]).as_str(),
            ),
        )
    } else {
        verdict(
            "same_shard",
            Decision::Yes,
            "this node does not hold a copy of this shard".to_owned(),
        )
    }
}

pub open spec fn is_initial_primary() -> spec_fn(CopyV) -> bool {
    |c: CopyV| c.state == ShardState::Initializing && c.primary && c.relocating_node is None
}

pub open spec fn is_initializing() -> spec_fn(CopyV) -> bool {
    |c: CopyV| c.state == ShardState::Initializing
}

/// Where a shard's primary is.
pub open spec fn primary_node(t: Seq<IndexV>, name: Seq<char>, shard: u32) -> Option<Seq<char>> {
    match primary_of(t, name, shard) {
        Some(p) => p.node,
        None => None,
    }
}

/// Whether a copy is a replica being filled from a node.
pub open spec fn filled_from(t: Seq<IndexV>, source: Seq<char>) -> spec_fn(CopyV) -> bool {
    |c: CopyV|
        c.state == ShardState::Initializing && !c.primary && primary_node(t, c.index, c.shard)
            == Some(source)
}

/// Recoveries in flight on the node and on the primary's node, against the
/// limits.
pub open spec fn throttled(ctx: CtxV, t: Seq<IndexV>, copy: CopyV, node: NodeV) -> VerdictV {
    let cluster = ctx.cluster;
    if copy.primary {
        let ongoing = count(on_node(t, node.id), is_initial_primary());
        if ongoing >= cluster.node_initial_primaries {
            says(
                "throttling"@,
                Decision::Throttle,
                "reached the limit of ongoing initial primary recoveries ["@ + dec(ongoing)
                    + "], cluster setting [cluster.routing.allocation.node_initial_primaries_recoveries="@
                    + dec(cluster.node_initial_primaries as nat) + "]"@,
            )
        } else {
            says(
                "throttling"@,
                Decision::Yes,
                "below primary recovery limit of ["@ + dec(cluster.node_initial_primaries as nat)
                    + "]"@,
            )
        }
    } else {
        let initial = copy.because("INDEX_CREATED"@);
        let in_limit = if initial {
            cluster.node_initial_replicas
        } else {
            cluster.node_concurrent_incoming
        };
        let out_limit = if initial {
            cluster.node_initial_replicas
        } else {
            cluster.node_concurrent_outgoing
        };
        let incoming = count(on_node(t, node.id), is_initializing());
        let source = primary_node(t, copy.index, copy.shard);
        let outgoing = match source {
            Some(src) => count(all(t), filled_from(t, src)),
            None => 0,
        };
        if incoming >= in_limit {
            says(
                "throttling"@,
                Decision::Throttle,
                "reached the limit of incoming shard recoveries ["@ + dec(incoming)
                    + "], cluster setting [cluster.routing.allocation.node_concurrent_incoming_recoveries="@
                    + dec(in_limit as nat)
                    + "] (can also be set via [cluster.routing.allocation.node_concurrent_recoveries])"@,
            )
        } else if source is Some && outgoing >= out_limit {
            says(
                "throttling"@,
                Decision::Throttle,
                "reached the limit of outgoing shard recoveries ["@ + dec(outgoing)
                    + "] on the node ["@ + source->0
                    + "] which holds the primary, cluster setting [cluster.routing.allocation.node_concurrent_outgoing_recoveries="@
                    + dec(out_limit as nat)
                    + "] (can also be set via [cluster.routing.allocation.node_concurrent_recoveries])"@,
            )
        } else {
            says(
                "throttling"@,
                Decision::Yes,
                "below shard recovery limit of outgoing: ["@ + dec(outgoing) + " < "@ + dec(
                    out_limit as nat,
                ) + "] incoming: ["@ + dec(incoming) + " < "@ + dec(in_limit as nat) + "]"@,
            )
        }
    }
}

fn count_outgoing(table: &RoutingTable, src: &super::state::NodeId) -> (n: usize)
    ensures
        n == count(all(table.deep_view()), filled_from(table.deep_view(), src.deep_view())),
{
    let every = table.all();
    let ghost p = filled_from(table.deep_view(), src.deep_view());
    let f = |c: &&ShardRouting| -> (r: bool)
        ensures
            r == p(c.deep_view()),
        {
            c.state == ShardState::Initializing && !c.primary && match table.primary(
                c.index.as_str(),
                c.shard,
            ) {
                Some(p) => is_node(&p.node, src),
                None => false,
            }
        };
    count_in(&every, f, Ghost(p))
}

/// Recoveries in flight on the node and on the primary's node, against the
/// limits: a new index's copies get `node_initial_*_recoveries`, the rest
/// `node_concurrent_*_recoveries`.
fn throttling_verdict(
    ctx: &Context,
    table: &RoutingTable,
    copy: &ShardRouting,
    node: &DiscoveryNode,
) -> (r: Verdict)
    ensures
        r.deep_view() == throttled(
            ctx.deep_view(),
            table.deep_view(),
            copy.deep_view(),
            node.deep_view(),
        ),
{
    let here = table.on_node(&node.id);
    if copy.primary {
        let ghost p = is_initial_primary();
        let f = |c: &&ShardRouting| -> (r: bool)
            ensures
                r == p(c.deep_view()),
            { c.state == ShardState::Initializing && c.primary && c.relocating_node.is_none() };
        let ongoing: u64 = count_in(&here, f, Ghost(p)) as u64;
        if ongoing >= ctx.cluster.node_initial_primaries {
            return verdict(
                "throttling",
                Decision::Throttle,
                "reached the limit of ongoing initial primary recoveries [".to_owned().concat(
                    decimal(ongoing).as_str(),
                ).concat(
                    "], cluster setting [cluster.routing.allocation.node_initial_primaries_recoveries=",
                ).concat(decimal(ctx.cluster.node_initial_primaries).as_str()).concat("]"),
            );
        }
        return verdict(
            "throttling",
            Decision::Yes,
            "below primary recovery limit of [".to_owned().concat(
                decimal(ctx.cluster.node_initial_primaries).as_str(),
            ).concat("]"),
        );
    }
    let initial = copy.is_because("INDEX_CREATED");
    let in_limit: u64 = if initial {
        ctx.cluster.node_initial_replicas
    } else {
        ctx.cluster.node_concurrent_incoming
    };
    let out_limit: u64 = if initial {
        ctx.cluster.node_initial_replicas
    } else {
        ctx.cluster.node_concurrent_outgoing
    };
    let ghost p = is_initializing();
    let f = |c: &&ShardRouting| -> (r: bool)
        ensures
            r == p(c.deep_view()),
        { c.state == ShardState::Initializing };
    let incoming: u64 = count_in(&here, f, Ghost(p)) as u64;
    if incoming >= in_limit {
        return verdict(
            "throttling",
            Decision::Throttle,
            "reached the limit of incoming shard recoveries [".to_owned().concat(
                decimal(incoming).as_str(),
            ).concat(
                "], cluster setting [cluster.routing.allocation.node_concurrent_incoming_recoveries=",
            ).concat(decimal(in_limit).as_str()).concat(
                "] (can also be set via [cluster.routing.allocation.node_concurrent_recoveries])",
            ),
        );
    }
    let source = match table.primary(copy.index.as_str(), copy.shard) {
        Some(p) => super::state::copy_node(&p.node),
        None => None,
    };
    assert(source.deep_view() == primary_node(table.deep_view(), copy.index@, copy.shard));
    let outgoing: u64 = match &source {
        Some(src) => count_outgoing(table, src) as u64,
        None => 0,
    };
    if let Some(src) = &source {
        if outgoing >= out_limit {
            return verdict(
                "throttling",
                Decision::Throttle,
                "reached the limit of outgoing shard recoveries [".to_owned().concat(
                    decimal(outgoing).as_str(),
                ).concat("] on the node [").concat(src.as_str()).concat(
                    "] which holds the primary, cluster setting [cluster.routing.allocation.node_concurrent_outgoing_recoveries=",
                ).concat(decimal(out_limit).as_str()).concat(
                    "] (can also be set via [cluster.routing.allocation.node_concurrent_recoveries])",
                ),
            );
        }
    }
    verdict(
        "throttling",
        Decision::Yes,
        "below shard recovery limit of outgoing: [".to_owned().concat(
            decimal(outgoing).as_str(),
        ).concat(" < ").concat(decimal(out_limit).as_str()).concat("] incoming: [").concat(
            decimal(incoming).as_str(),
        ).concat(" < ").concat(decimal(in_limit).as_str()).concat("]"),
    )
}

/// Whether a copy is another than this one.
pub open spec fn is_other(copy: CopyV) -> spec_fn(CopyV) -> bool {
    |c: CopyV| c.allocation_id != copy.allocation_id
}

/// Whether a copy is another one of the same index.
pub open spec fn is_other_of_index(copy: CopyV) -> spec_fn(CopyV) -> bool {
    |c: CopyV| c.allocation_id != copy.allocation_id && c.index == copy.index
}

/// How many other copies are on the node, against the limits.
pub open spec fn limited(
    ctx: CtxV,
    is: SettingsV,
    t: Seq<IndexV>,
    copy: CopyV,
    node: NodeV,
) -> VerdictV {
    let of_index = count(on_node(t, node.id), is_other_of_index(copy));
    let total = count(on_node(t, node.id), is_other(copy));
    let cluster = ctx.cluster.total_shards_per_node;
    let index = is.total_shards_per_node;
    if index >= 0 && of_index >= index {
        says(
            "shards_limit"@,
            Decision::No,
            "too many shards ["@ + dec(of_index) + "] allocated to this node for index ["@
                + copy.index
                + "], index setting [index.routing.allocation.total_shards_per_node="@ + dec_int(
                index as int,
            ) + "]"@,
        )
    } else if cluster >= 0 && total >= cluster {
        says(
            "shards_limit"@,
            Decision::No,
            "too many shards ["@ + dec(total)
                + "] allocated to this node, cluster setting [cluster.routing.allocation.total_shards_per_node="@
                + dec_int(cluster as int) + "]"@,
        )
    } else if index < 0 && cluster < 0 {
        says(
            "shards_limit"@,
            Decision::Yes,
            "total shard limits are disabled: [index: -1, index primary: -1, cluster: -1, cluster primary: -1] <= 0"@,
        )
    } else {
        says(
            "shards_limit"@,
            Decision::Yes,
            "the shard count ["@ + dec(of_index) + "] for this node is under the index limit ["@
                + dec_int(index as int) + "] and cluster level node limit ["@ + dec_int(
                cluster as int,
            ) + "]"@,
        )
    }
}

fn shards_limit_verdict(
    ctx: &Context,
    is: &IndexSettings,
    table: &RoutingTable,
    copy: &ShardRouting,
    node: &DiscoveryNode,
) -> (r: Verdict)
    ensures
        r.deep_view() == limited(
            ctx.deep_view(),
            is.deep_view(),
            table.deep_view(),
            copy.deep_view(),
            node.deep_view(),
        ),
{
    let here = table.on_node(&node.id);
    let ghost p = is_other_of_index(copy.deep_view());
    let f = |c: &&ShardRouting| -> (r: bool)
        ensures
            r == p(c.deep_view()),
        { !same_text(&c.allocation_id, &copy.allocation_id) && c.index == copy.index };
    let of_index: u64 = count_in(&here, f, Ghost(p)) as u64;
    let ghost q = is_other(copy.deep_view());
    let g = |c: &&ShardRouting| -> (r: bool)
        ensures
            r == q(c.deep_view()),
        { !same_text(&c.allocation_id, &copy.allocation_id) };
    let total: u64 = count_in(&here, g, Ghost(q)) as u64;
    let cluster: i64 = ctx.cluster.total_shards_per_node;
    let index: i64 = is.total_shards_per_node;
    if index >= 0 && of_index >= index as u64 {
        return verdict(
            "shards_limit",
            Decision::No,
            "too many shards [".to_owned().concat(decimal(of_index).as_str()).concat(
                "] allocated to this node for index [",
            ).concat(copy.index.as_str()).concat(
                "], index setting [index.routing.allocation.total_shards_per_node=",
            ).concat(decimal_signed(index).as_str()).concat("]"),
        );
    }
    if cluster >= 0 && total >= cluster as u64 {
        return verdict(
            "shards_limit",
            Decision::No,
            "too many shards [".to_owned().concat(decimal(total).as_str()).concat(
                "] allocated to this node, cluster setting [cluster.routing.allocation.total_shards_per_node=",
            ).concat(decimal_signed(cluster).as_str()).concat("]"),
        );
    }
    if index < 0 && cluster < 0 {
        return verdict(
            "shards_limit",
            Decision::Yes,
            "total shard limits are disabled: [index: -1, index primary: -1, cluster: -1, cluster primary: -1] <= 0".to_owned(),
        );
    }
    verdict(
        "shards_limit",
        Decision::Yes,
        "the shard count [".to_owned().concat(decimal(of_index).as_str()).concat(
            "] for this node is under the index limit [",
        ).concat(decimal_signed(index).as_str()).concat(
            "] and cluster level node limit [",
        ).concat(decimal_signed(cluster).as_str()).concat("]"),
    )
}

// ---- awareness -----------------------------------------------------------------

/// The values the first nodes have for an attribute, each once and in order.
pub open spec fn values_on(nodes: Seq<NodeV>, attr: Seq<char>, n: nat) -> Seq<(Seq<char>, ())>
    decreases n,
{
    if n == 0 {
        Seq::empty()
    } else {
        let g = values_on(nodes, attr, (n - 1) as nat);
        match lookup(nodes[n - 1].attributes, attr) {
            Some(v) => with(g, v, ()),
            None => g,
        }
    }
}

/// Values with the first ones of a list added, each once and in order.
pub open spec fn values_and(
    values: Seq<(Seq<char>, ())>,
    more: Seq<Seq<char>>,
    n: nat,
) -> Seq<(Seq<char>, ())>
    decreases n,
{
    if n == 0 {
        values
    } else {
        with(values_and(values, more, (n - 1) as nat), more[n - 1], ())
    }
}

/// The values copies are spread over: those of the data nodes, and those
/// that are forced.
pub open spec fn zones(ctx: CtxV, attr: Seq<char>) -> Seq<(Seq<char>, ())> {
    let own = values_on(ctx.data_nodes(), attr, ctx.data_nodes().len());
    match lookup(ctx.cluster.awareness_forced, attr) {
        Some(f) => values_and(own, f, f.len()),
        None => own,
    }
}

/// The value of an attribute where a copy is, or will be.
pub open spec fn zone_of(ctx: CtxV, c: CopyV, attr: Seq<char>) -> Option<Seq<char>> {
    let target = if c.relocating_node is Some && c.state == ShardState::Relocating {
        c.relocating_node
    } else {
        c.node
    };
    match target {
        Some(id) => match ctx.node(id) {
            Some(n) => lookup(n.attributes, attr),
            None => None,
        },
        None => None,
    }
}

/// Whether a copy is another one that is in a zone.
pub open spec fn other_in_zone(
    ctx: CtxV,
    copy: CopyV,
    attr: Seq<char>,
    zone: Seq<char>,
) -> spec_fn(CopyV) -> bool {
    |c: CopyV|
        c.allocation_id != copy.allocation_id && c.state != ShardState::Unassigned && zone_of(
            ctx,
            c,
            attr,
        ) == Some(zone)
}

/// The copies of the shard a copy is of.
pub open spec fn siblings(t: Seq<IndexV>, copy: CopyV) -> Seq<CopyV> {
    keep(shards_of(t, copy.index), |c: CopyV| c.shard == copy.shard)
}

pub open spec fn names_of(values: Seq<(Seq<char>, ())>) -> Seq<Seq<char>> {
    values.map_values(|x: (Seq<char>, ())| x.0)
}

pub open spec fn share(total: nat, parts: nat) -> nat {
    total / parts + if total % parts == 0 {
        0nat
    } else {
        1nat
    }
}

/// The first of the attributes, from one of them on, that says no.
pub open spec fn aware_from(
    ctx: CtxV,
    t: Seq<IndexV>,
    copy: CopyV,
    node: NodeV,
    i: nat,
) -> VerdictV
    decreases ctx.cluster.awareness_attributes.len() - i,
{
    let attrs = ctx.cluster.awareness_attributes;
    if i >= attrs.len() {
        says(
            "awareness"@,
            Decision::Yes,
            "node meets all awareness attribute requirements"@,
        )
    } else {
        let attr = attrs[i as int];
        match lookup(node.attributes, attr) {
            None => says(
                "awareness"@,
                Decision::No,
                "node does not contain the awareness attribute ["@ + attr
                    + "]; required attributes cluster setting [cluster.routing.allocation.awareness.attributes="@
                    + joined(attrs, ","@) + "]"@,
            ),
            Some(mine) => {
                let total = siblings(t, copy).len();
                let values = zones(ctx, attr);
                let parts = if values.len() == 0 {
                    1
                } else {
                    values.len()
                };
                let most = share(total, parts);
                let others = count(siblings(t, copy), other_in_zone(ctx, copy, attr, mine));
                if others + 1 > most {
                    let forced_text = match lookup(ctx.cluster.awareness_forced, attr) {
                        Some(f) => "forced awareness values ["@ + joined(f, ", "@) + "]"@,
                        None => "no forced awareness"@,
                    };
                    says(
                        "awareness"@,
                        Decision::No,
                        "there are ["@ + dec(total) + "] copies of this shard and ["@ + dec(parts)
                            + "] values for attribute ["@ + attr + "] (["@ + joined(
                            names_of(values),
                            ", "@,
                        ) + "] from nodes in the cluster and "@ + forced_text
                            + ") so there may be at most ["@ + dec(most)
                            + "] copies of this shard allocated to nodes with each value, but (including this copy) there would be ["@
                            + dec(others + 1) + "] copies allocated to nodes with [node.attr."@
                            + attr + ": "@ + mine + "]"@,
                    )
                } else {
                    aware_from(ctx, t, copy, node, i + 1)
                }
            },
        }
    }
}

/// Whether the copies stay spread over the values of every awareness
/// attribute.
pub open spec fn aware(ctx: CtxV, t: Seq<IndexV>, copy: CopyV, node: NodeV) -> VerdictV {
    if ctx.cluster.awareness_attributes.len() == 0 {
        says(
            "awareness"@,
            Decision::Yes,
            "allocation awareness is not enabled, set cluster setting [cluster.routing.allocation.awareness.attributes] to enable it"@,
        )
    } else {
        aware_from(ctx, t, copy, node, 0)
    }
}

fn zone_values(ctx: &Context, attr: &str) -> (r: Vec<(String, ())>)
    ensures
        r.deep_view() == zones(ctx.deep_view(), attr@),
{
    let nodes = ctx.data_nodes();
    let mut r: Vec<(String, ())> = Vec::new();
    assert(r.deep_view() =~= Seq::<(Seq<char>, ())>::empty());
    for i in 0..nodes.len()
        invariant
            nodes.deep_view() == ctx.deep_view().data_nodes(),
            r.deep_view() == values_on(ctx.deep_view().data_nodes(), attr@, i as nat),
    {
        assert(nodes.deep_view()[i as int] == nodes@[i as int].deep_view());
        if let Some(v) = get(&nodes[i].attributes, attr) {
            put(&mut r, v.clone(), ());
        }
    }
    if let Some(f) = get(&ctx.cluster.awareness_forced, attr) {
        let ghost own = r.deep_view();
        for i in 0..f.len()
            invariant
                r.deep_view() == values_and(own, f.deep_view(), i as nat),
        {
            assert(f.deep_view()[i as int] == f@[i as int]@);
            put(&mut r, f[i].clone(), ());
        }
    }
    r
}

fn zone_is(ctx: &Context, c: &ShardRouting, attr: &str, zone: &str) -> (r: bool)
    ensures
        r == (zone_of(ctx.deep_view(), c.deep_view(), attr@) == Some(zone@)),
{
    let target = if c.relocating_node.is_some() && c.state == ShardState::Relocating {
        &c.relocating_node
    } else {
        &c.node
    };
    match target {
        Some(id) => match ctx.node(id) {
            Some(n) => match get(&n.attributes, attr) {
                Some(v) => same(v.as_str(), zone),
                None => false,
            },
            None => false,
        },
        None => false,
    }
}

fn listed_zones(values: &Vec<(String, ())>) -> (r: String)
    ensures
        r@ == joined(names_of(values.deep_view()), ", "@),
{
    let mut v: Vec<String> = Vec::new();
    for i in 0..values.len()
        invariant
            v@.len() == i,
            forall|j: int| 0 <= j < i ==> v@[j]@ == (#[trigger] values.deep_view()[j]).0,
    {
        v.push(values[i].0.clone());
    }
    assert(v.deep_view() =~= names_of(values.deep_view()));
    join(&v, ", ")
}

fn awareness_verdict(
    ctx: &Context,
    table: &RoutingTable,
    copy: &ShardRouting,
    node: &DiscoveryNode,
) -> (r: Verdict)
    ensures
        r.deep_view() == aware(
            ctx.deep_view(),
            table.deep_view(),
            copy.deep_view(),
            node.deep_view(),
        ),
{
    let attrs = &ctx.cluster.awareness_attributes;
    if attrs.len() == 0 {
        return verdict(
            "awareness",
            Decision::Yes,
            "allocation awareness is not enabled, set cluster setting [cluster.routing.allocation.awareness.attributes] to enable it".to_owned(),
        );
    }
    let of_index = table.shards_of(copy.index.as_str());
    let ghost p = |c: CopyV| c.shard == copy.shard;
    let f = |c: &ShardRouting| -> (r: bool)
        ensures
            r == p(c.deep_view()),
        { c.shard == copy.shard };
    let copies = keep_in(&of_index, f, Ghost(p));
    assert(copies.deep_view() == siblings(table.deep_view(), copy.deep_view()));
    let total: usize = copies.len();
    let ghost cv = ctx.deep_view();
    let ghost tv = table.deep_view();
    let mut i: usize = 0;
    while i < attrs.len()
        invariant
            i <= attrs@.len(),
            attrs.deep_view() == ctx.deep_view().cluster.awareness_attributes,
            attrs.deep_view().len() > 0,
            copies.deep_view() == siblings(table.deep_view(), copy.deep_view()),
            total == copies@.len(),
            cv == ctx.deep_view(),
            tv == table.deep_view(),
            aware(cv, tv, copy.deep_view(), node.deep_view()) == aware_from(
                cv,
                tv,
                copy.deep_view(),
                node.deep_view(),
                i as nat,
            ),
        decreases attrs@.len() - i,
    {
        let attr = attrs[i].as_str();
        assert(attrs.deep_view()[i as int] == attr@);
        let mine = match get(&node.attributes, attr) {
            Some(m) => m,
            None => {
                return verdict(
                    "awareness",
                    Decision::No,
                    "node does not contain the awareness attribute [".to_owned().concat(
                        attr,
                    ).concat(
                        "]; required attributes cluster setting [cluster.routing.allocation.awareness.attributes=",
                    ).concat(join(attrs, ",").as_str()).concat("]"),
                );
            },
        };
        let values = zone_values(ctx, attr);
        let parts: usize = if values.len() == 0 {
            1
        } else {
            values.len()
        };
        let most: u128 = (total / parts) as u128 + if total % parts == 0 {
            0
        } else {
            1
        };
        let ghost q = other_in_zone(cv, copy.deep_view(), attr@, mine@);
        let g = |c: &&ShardRouting| -> (r: bool)
            ensures
                r == q(c.deep_view()),
            {
                !same_text(&c.allocation_id, &copy.allocation_id) && c.state
                    != ShardState::Unassigned && zone_is(ctx, c, attr, mine.as_str())
            };
        let others: u128 = count_in(&copies, g, Ghost(q)) as u128;
        if others + 1 > most {
            let forced_text = match get(&ctx.cluster.awareness_forced, attr) {
                Some(f) => "forced awareness values [".to_owned().concat(
                    join(f, ", ").as_str(),
                ).concat("]"),
                None => "no forced awareness".to_owned(),
            };
            return verdict(
                "awareness",
                Decision::No,
                "there are [".to_owned().concat(decimal(total as u64).as_str()).concat(
                    "] copies of this shard and [",
                ).concat(decimal(parts as u64).as_str()).concat("] values for attribute [").concat(
                    attr,
                ).concat("] ([").concat(listed_zones(&values).as_str()).concat(
                    "] from nodes in the cluster and ",
                ).concat(forced_text.as_str()).concat(") so there may be at most [").concat(
                    decimal_wide(most).as_str(),
                ).concat(
                    "] copies of this shard allocated to nodes with each value, but (including this copy) there would be [",
                ).concat(decimal_wide(others + 1).as_str()).concat(
                    "] copies allocated to nodes with [node.attr.",
                ).concat(attr).concat(": ").concat(mine.as_str()).concat("]"),
            );
        }
        i += 1;
    }
    verdict(
        "awareness",
        Decision::Yes,
        "node meets all awareness attribute requirements".to_owned(),
    )
}

// ---- all of them ---------------------------------------------------------------

pub open spec fn start(node: NodeV) -> Seq<VerdictV> {
    if node.data() {
        Seq::empty()
    } else {
        seq![no_data(node)]
    }
}

/// What the deciders say of putting a copy on a node, in their order.
#[verifier::opaque]
pub open spec fn may_allocate(
    ctx: CtxV,
    t: Seq<IndexV>,
    copy: CopyV,
    node: NodeV,
) -> Seq<VerdictV> {
    let is = ctx.settings_of(copy.index);
    start(node).push(retry(is, copy)).push(after_primary(t, copy)).push(
        says(
            "cluster_concurrent_recoveries"@,
            Decision::Yes,
            "undefined cluster concurrent recoveries"@,
        ),
    ).push(enabled(ctx, is, copy)).push(version(copy)).push(
        says("snapshot_in_progress"@, Decision::Yes, "the shard is not being snapshotted"@),
    ).push(
        says(
            "restore_in_progress"@,
            Decision::Yes,
            "ignored as shard is not being recovered from a snapshot"@,
        ),
    ).push(filtered(ctx, is, node)).push(
        says(
            "search_replica_allocation"@,
            Decision::Yes,
            "node and shard are compatible. node: ["@ + node.id
                + "], is search node: [false], shard: "@ + summary(copy),
        ),
    ).push(same_shard(t, copy, node)).push(
        says(
            "disk_threshold"@,
            Decision::Yes,
            if ctx.data_nodes().len() <= 1 {
                "there is only a single data node present"@
            } else {
                "enough disk for shard on node, free: [1gb], shard size: [0b], free after allocating shard: [1gb]"@
            },
        ),
    ).push(throttled(ctx, t, copy, node)).push(limited(ctx, is, t, copy, node)).push(
        aware(ctx, t, copy, node),
    ).push(
        says(
            "load_awareness"@,
            Decision::Yes,
            "overload awareness allocation is not enabled, set cluster setting [cluster.routing.allocation.load_awareness.skew_factor] and cluster setting [cluster.routing.allocation.load_awareness.provisioned_capacity] to enable it"@,
        ),
    ).push(
        says(
            "target_pool"@,
            Decision::Yes,
            "Routing pools are compatible. Shard pool: [LOCAL_ONLY], node pool: [LOCAL_ONLY]"@,
        ),
    ).push(
        says(
            "remote_store_migration"@,
            Decision::Yes,
            "[none migration_direction]: "@ + (if copy.primary {
                "primary"@
            } else {
                "replica"@
            })
                + " shard copy can be allocated to a non-remote node for strict compatibility mode"@,
        ),
    )
}

/// Can this copy be allocated to this node? The deciders in the order
/// OpenSearch lists them, in its words.
pub fn can_allocate(
    ctx: &Context,
    table: &RoutingTable,
    copy: &ShardRouting,
    node: &DiscoveryNode,
) -> (out: Vec<Verdict>)
    ensures
        out.deep_view() == may_allocate(
            ctx.deep_view(),
            table.deep_view(),
            copy.deep_view(),
            node.deep_view(),
        ),
{
    reveal(may_allocate);
    let mut out: Vec<Verdict> = Vec::new();
    let is = ctx.index_settings(copy.index.as_str());
    if let Some(v) = data_role_verdict(node) {
        out.push(v);
    }
    assert(out.deep_view() =~= start(node.deep_view()));
    push_to(&mut out, max_retry_verdict(&is, copy));
    push_to(&mut out, replica_after_primary_verdict(table, copy));
    push_to(
        &mut out,
        verdict(
            "cluster_concurrent_recoveries",
            Decision::Yes,
            "undefined cluster concurrent recoveries".to_owned(),
        ),
    );
    push_to(&mut out, enable_verdict(ctx, &is, copy));
    push_to(&mut out, version_verdict(copy));
    push_to(
        &mut out,
        verdict(
            "snapshot_in_progress",
            Decision::Yes,
            "the shard is not being snapshotted".to_owned(),
        ),
    );
    push_to(
        &mut out,
        verdict(
            "restore_in_progress",
            Decision::Yes,
            "ignored as shard is not being recovered from a snapshot".to_owned(),
        ),
    );
    push_to(&mut out, filter_verdict(ctx, &is, node));
    push_to(
        &mut out,
        verdict(
            "search_replica_allocation",
            Decision::Yes,
            "node and shard are compatible. node: [".to_owned().concat(node.id.as_str()).concat(
                "], is search node: [false], shard: ",
            ).concat(short_summary(copy).as_str()),
        ),
    );
    push_to(&mut out, same_shard_verdict(table, copy, node));
    let disk = if ctx.data_nodes().len() <= 1 {
        "there is only a single data node present"
    } else {
        "enough disk for shard on node, free: [1gb], shard size: [0b], free after allocating shard: [1gb]"
    };
    push_to(&mut out, verdict("disk_threshold", Decision::Yes, disk.to_owned()));
    push_to(&mut out, throttling_verdict(ctx, table, copy, node));
    push_to(&mut out, shards_limit_verdict(ctx, &is, table, copy, node));
    push_to(&mut out, awareness_verdict(ctx, table, copy, node));
    push_to(
        &mut out,
        verdict(
            "load_awareness",
            Decision::Yes,
            "overload awareness allocation is not enabled, set cluster setting [cluster.routing.allocation.load_awareness.skew_factor] and cluster setting [cluster.routing.allocation.load_awareness.provisioned_capacity] to enable it".to_owned(),
        ),
    );
    push_to(
        &mut out,
        verdict(
            "target_pool",
            Decision::Yes,
            "Routing pools are compatible. Shard pool: [LOCAL_ONLY], node pool: [LOCAL_ONLY]".to_owned(),
        ),
    );
    let kind = if copy.primary {
        "primary"
    } else {
        "replica"
    };
    push_to(
        &mut out,
        verdict(
            "remote_store_migration",
            Decision::Yes,
            "[none migration_direction]: ".to_owned().concat(kind).concat(
                " shard copy can be allocated to a non-remote node for strict compatibility mode",
            ),
        ),
    );
    out
}

/// A node the deciders do not refuse for a copy has the data role, passes the
/// filters and holds neither the copy nor another copy of the same shard; a
/// replica goes to it only while its primary is active.
pub proof fn law_a_node_that_is_not_refused(ctx: CtxV, t: Seq<IndexV>, copy: CopyV, node: NodeV)
    requires
        worst(may_allocate(ctx, t, copy, node)) != Decision::No,
    ensures
        node.data(),
        ctx.cluster.filters.failed(node) is None,
        ctx.settings_of(copy.index).filters.failed(node) is None,
        copy.state != ShardState::Unassigned ==> copy.node != Some(node.id),
        forall|i: int|
            0 <= i < shards_of(t, copy.index).len() ==> !(twin_on(copy, node.id))(
                #[trigger] shards_of(t, copy.index)[i],
            ),
        !copy.primary ==> primary_of(t, copy.index, copy.shard) is Some && primary_of(
            t,
            copy.index,
            copy.shard,
        )->0.state.active(),
{
    reveal(may_allocate);
    let vs = may_allocate(ctx, t, copy, node);
    law_the_worst_verdict_decides(vs);
    let k = start(node).len() as int;
    assert(vs[0].decision.rank() < 2);
    assert(k == 0);
    assert(vs[k + 1] == after_primary(t, copy));
    assert(vs[k + 7] == filtered(ctx, ctx.settings_of(copy.index), node));
    assert(vs[k + 9] == same_shard(t, copy, node));
    crate::list::lemma_found(shards_of(t, copy.index), twin_on(copy, node.id));
}

// ---- moving and staying --------------------------------------------------------

pub open spec fn is_inactive() -> spec_fn(CopyV) -> bool {
    |c: CopyV| !c.state.active()
}

pub open spec fn is_inactive_primary() -> spec_fn(CopyV) -> bool {
    |c: CopyV| c.primary && !c.state.active()
}

pub open spec fn is_unassigned() -> spec_fn(CopyV) -> bool {
    |c: CopyV| c.state == ShardState::Unassigned
}

pub open spec fn is_relocating() -> spec_fn(CopyV) -> bool {
    |c: CopyV| c.state == ShardState::Relocating
}

/// Whether enough of the cluster is active for copies to be moved at all.
pub open spec fn cluster_settled(ctx: CtxV, t: Seq<IndexV>) -> VerdictV {
    let tail = "and cluster setting [cluster.routing.allocation.allow_rebalance] is set to ["@
        + ctx.cluster.allow_rebalance.name() + "]"@;
    match ctx.cluster.allow_rebalance {
        AllowRebalance::Always => says(
            "cluster_rebalance"@,
            Decision::Yes,
            "all shards are active"@,
        ),
        AllowRebalance::IndicesPrimariesActive => if any(all(t), is_inactive_primary()) {
            says(
                "cluster_rebalance"@,
                Decision::No,
                "the cluster has inactive primary shards "@ + tail,
            )
        } else {
            says("cluster_rebalance"@, Decision::Yes, "all primary shards are active"@)
        },
        AllowRebalance::IndicesAllActive => if any(all(t), is_unassigned()) {
            says("cluster_rebalance"@, Decision::No, "the cluster has unassigned shards "@ + tail)
        } else if any(all(t), is_inactive()) {
            says("cluster_rebalance"@, Decision::No, "the cluster has inactive shards "@ + tail)
        } else {
            says("cluster_rebalance"@, Decision::Yes, "all shards are active"@)
        },
    }
}

fn cluster_rebalance_verdict(ctx: &Context, table: &RoutingTable) -> (r: Verdict)
    ensures
        r.deep_view() == cluster_settled(ctx.deep_view(), table.deep_view()),
{
    let every = table.all();
    let tail = "and cluster setting [cluster.routing.allocation.allow_rebalance] is set to [".to_owned().concat(
        ctx.cluster.allow_rebalance.as_str(),
    ).concat("]");
    match ctx.cluster.allow_rebalance {
        AllowRebalance::Always => verdict(
            "cluster_rebalance",
            Decision::Yes,
            "all shards are active".to_owned(),
        ),
        AllowRebalance::IndicesPrimariesActive => {
            let ghost p = is_inactive_primary();
            let f = |c: &&ShardRouting| -> (r: bool)
                ensures
                    r == p(c.deep_view()),
                { c.primary && !c.state.is_active() };
            if any_in(&every, f, Ghost(p)) {
                verdict(
                    "cluster_rebalance",
                    Decision::No,
                    "the cluster has inactive primary shards ".to_owned().concat(tail.as_str()),
                )
            } else {
                verdict(
                    "cluster_rebalance",
                    Decision::Yes,
                    "all primary shards are active".to_owned(),
                )
            }
        },
        AllowRebalance::IndicesAllActive => {
            let ghost p = is_unassigned();
            let f = |c: &&ShardRouting| -> (r: bool)
                ensures
                    r == p(c.deep_view()),
                { c.state == ShardState::Unassigned };
            let ghost q = is_inactive();
            let g = |c: &&ShardRouting| -> (r: bool)
                ensures
                    r == q(c.deep_view()),
                { !c.state.is_active() };
            if any_in(&every, f, Ghost(p)) {
                verdict(
                    "cluster_rebalance",
                    Decision::No,
                    "the cluster has unassigned shards ".to_owned().concat(tail.as_str()),
                )
            } else if any_in(&every, g, Ghost(q)) {
                verdict(
                    "cluster_rebalance",
                    Decision::No,
                    "the cluster has inactive shards ".to_owned().concat(tail.as_str()),
                )
            } else {
                verdict(
                    "cluster_rebalance",
                    Decision::Yes,
                    "all shards are active".to_owned(),
                )
            }
        },
    }
}

/// Whether moving is switched on for the copy: the index's setting before
/// the cluster's.
pub open spec fn movable(ctx: CtxV, is: SettingsV, copy: CopyV) -> VerdictV {
    let (enable, from) = match is.rebalance_enable {
        Some(e) => (e, "index setting [index.routing.rebalance.enable"@),
        None => (
            ctx.cluster.rebalance_enable,
            "cluster setting [cluster.routing.rebalance.enable"@,
        ),
    };
    let ok = match enable {
        RebalanceEnable::All => true,
        RebalanceEnable::Nothing => false,
        RebalanceEnable::Primaries => copy.primary,
        RebalanceEnable::Replicas => !copy.primary,
    };
    if ok {
        says("enable"@, Decision::Yes, "all rebalancing is allowed"@)
    } else {
        let what = match enable {
            RebalanceEnable::Primaries => "replica rebalancing is forbidden"@,
            RebalanceEnable::Replicas => "primary rebalancing is forbidden"@,
            _ => "all rebalancing is forbidden"@,
        };
        says(
            "enable"@,
            Decision::No,
            what + " due to "@ + from + "="@ + enable.name() + "]"@,
        )
    }
}

fn rebalance_enable_verdict(ctx: &Context, is: &IndexSettings, copy: &ShardRouting) -> (r: Verdict)
    ensures
        r.deep_view() == movable(ctx.deep_view(), is.deep_view(), copy.deep_view()),
{
    let (enable, from) = match is.rebalance_enable {
        Some(e) => (e, "index setting [index.routing.rebalance.enable"),
        None => (
            ctx.cluster.rebalance_enable,
            "cluster setting [cluster.routing.rebalance.enable",
        ),
    };
    let ok = match enable {
        RebalanceEnable::All => true,
        RebalanceEnable::Nothing => false,
        RebalanceEnable::Primaries => copy.primary,
        RebalanceEnable::Replicas => !copy.primary,
    };
    if ok {
        verdict("enable", Decision::Yes, "all rebalancing is allowed".to_owned())
    } else {
        let what = match enable {
            RebalanceEnable::Primaries => "replica rebalancing is forbidden",
            RebalanceEnable::Replicas => "primary rebalancing is forbidden",
            _ => "all rebalancing is forbidden",
        };
        verdict(
            "enable",
            Decision::No,
            what.to_owned().concat(" due to ").concat(from).concat("=").concat(
                enable.as_str(),
            ).concat("]"),
        )
    }
}

/// Whether more copies may be on their way at once.
pub open spec fn concurrent(ctx: CtxV, t: Seq<IndexV>) -> VerdictV {
    let n = count(all(t), is_relocating());
    let limit = ctx.cluster.cluster_concurrent_rebalance;
    if n >= limit {
        says(
            "concurrent_rebalance"@,
            Decision::Throttle,
            "reached the limit of concurrently rebalancing shards ["@ + dec(n)
                + "], cluster setting [cluster.routing.allocation.cluster_concurrent_rebalance="@
                + dec(limit as nat) + "]"@,
        )
    } else {
        says(
            "concurrent_rebalance"@,
            Decision::Yes,
            "below threshold ["@ + dec(limit as nat)
                + "] for concurrent rebalances, current rebalance shard count ["@ + dec(n) + "]"@,
        )
    }
}

fn concurrent_verdict(ctx: &Context, table: &RoutingTable) -> (r: Verdict)
    ensures
        r.deep_view() == concurrent(ctx.deep_view(), table.deep_view()),
{
    let every = table.all();
    let ghost p = is_relocating();
    let f = |c: &&ShardRouting| -> (r: bool)
        ensures
            r == p(c.deep_view()),
        { c.state == ShardState::Relocating };
    let n: u64 = count_in(&every, f, Ghost(p)) as u64;
    let limit: u64 = ctx.cluster.cluster_concurrent_rebalance;
    if n >= limit {
        verdict(
            "concurrent_rebalance",
            Decision::Throttle,
            "reached the limit of concurrently rebalancing shards [".to_owned().concat(
                decimal(n).as_str(),
            ).concat(
                "], cluster setting [cluster.routing.allocation.cluster_concurrent_rebalance=",
            ).concat(decimal(limit).as_str()).concat("]"),
        )
    } else {
        verdict(
            "concurrent_rebalance",
            Decision::Yes,
            "below threshold [".to_owned().concat(decimal(limit).as_str()).concat(
                "] for concurrent rebalances, current rebalance shard count [",
            ).concat(decimal(n).as_str()).concat("]"),
        )
    }
}

/// Whether every copy of the shard is active.
pub open spec fn shard_settled(t: Seq<IndexV>, copy: CopyV) -> VerdictV {
    if any(siblings(t, copy), is_inactive()) {
        says(
            "rebalance_only_when_active"@,
            Decision::No,
            "rebalancing is not allowed until all replicas in the cluster are active"@,
        )
    } else {
        says(
            "rebalance_only_when_active"@,
            Decision::Yes,
            "rebalancing is allowed as all replicas are active in the cluster"@,
        )
    }
}

/// What the deciders say of moving a started copy at all, in their order.
#[verifier::opaque]
pub open spec fn may_rebalance(ctx: CtxV, t: Seq<IndexV>, copy: CopyV) -> Seq<VerdictV> {
    let is = ctx.settings_of(copy.index);
    Seq::<VerdictV>::empty().push(shard_settled(t, copy)).push(cluster_settled(ctx, t)).push(
        concurrent(ctx, t),
    ).push(movable(ctx, is, copy)).push(
        says("snapshot_in_progress"@, Decision::Yes, "no snapshots are currently running"@),
    )
}

/// May a started copy be moved at all? The deciders in OpenSearch's order.
pub fn can_rebalance(ctx: &Context, table: &RoutingTable, copy: &ShardRouting) -> (out: Vec<
    Verdict,
>)
    ensures
        out.deep_view() == may_rebalance(ctx.deep_view(), table.deep_view(), copy.deep_view()),
{
    reveal(may_rebalance);
    let mut out: Vec<Verdict> = Vec::new();
    assert(out.deep_view() =~= Seq::<VerdictV>::empty());
    let is = ctx.index_settings(copy.index.as_str());
    let of_index = table.shards_of(copy.index.as_str());
    let ghost p = |c: CopyV| c.shard == copy.shard;
    let f = |c: &ShardRouting| -> (r: bool)
        ensures
            r == p(c.deep_view()),
        { c.shard == copy.shard };
    let copies = keep_in(&of_index, f, Ghost(p));
    assert(copies.deep_view() == siblings(table.deep_view(), copy.deep_view()));
    let ghost q = is_inactive();
    let g = |c: &&ShardRouting| -> (r: bool)
        ensures
            r == q(c.deep_view()),
        { !c.state.is_active() };
    if any_in(&copies, g, Ghost(q)) {
        push_to(
            &mut out,
            verdict(
                "rebalance_only_when_active",
                Decision::No,
                "rebalancing is not allowed until all replicas in the cluster are active".to_owned(),
            ),
        );
    } else {
        push_to(
            &mut out,
            verdict(
                "rebalance_only_when_active",
                Decision::Yes,
                "rebalancing is allowed as all replicas are active in the cluster".to_owned(),
            ),
        );
    }
    push_to(&mut out, cluster_rebalance_verdict(ctx, table));
    push_to(&mut out, concurrent_verdict(ctx, table));
    push_to(&mut out, rebalance_enable_verdict(ctx, &is, copy));
    push_to(
        &mut out,
        verdict(
            "snapshot_in_progress",
            Decision::Yes,
            "no snapshots are currently running".to_owned(),
        ),
    );
    out
}

/// What the deciders say of leaving a started copy where it is, in their order.
#[verifier::opaque]
pub open spec fn may_remain(ctx: CtxV, t: Seq<IndexV>, copy: CopyV, node: NodeV) -> Seq<VerdictV> {
    let is = ctx.settings_of(copy.index);
    start(node).push(filtered(ctx, is, node)).push(limited(ctx, is, t, copy, node)).push(
        aware(ctx, t, copy, node),
    ).push(
        says(
            "disk_threshold"@,
            Decision::Yes,
            "enough disk for shard on node, free: [1gb], shard size: [0b], free after allocating shard: [1gb]"@,
        ),
    )
}

/// May a started copy stay where it is?
pub fn can_remain(
    ctx: &Context,
    table: &RoutingTable,
    copy: &ShardRouting,
    node: &DiscoveryNode,
) -> (out: Vec<Verdict>)
    ensures
        out.deep_view() == may_remain(
            ctx.deep_view(),
            table.deep_view(),
            copy.deep_view(),
            node.deep_view(),
        ),
{
    reveal(may_remain);
    let mut out: Vec<Verdict> = Vec::new();
    let is = ctx.index_settings(copy.index.as_str());
    if let Some(v) = data_role_verdict(node) {
        out.push(v);
    }
    assert(out.deep_view() =~= start(node.deep_view()));
    push_to(&mut out, filter_verdict(ctx, &is, node));
    push_to(&mut out, shards_limit_verdict(ctx, &is, table, copy, node));
    push_to(&mut out, awareness_verdict(ctx, table, copy, node));
    push_to(
        &mut out,
        verdict(
            "disk_threshold",
            Decision::Yes,
            "enough disk for shard on node, free: [1gb], shard size: [0b], free after allocating shard: [1gb]".to_owned(),
        ),
    );
    out
}

} // verus!
