use std::collections::BTreeSet;

use velosearch::cluster::commands::apply_commands;
use velosearch::cluster::deciders::{can_allocate, can_rebalance, Decision};
use velosearch::cluster::explain::explain;
use velosearch::cluster::order::is_in_order;
use velosearch::cluster::reports::{retry_failed, shard_failed, shard_stale, shard_started};
use velosearch::cluster::reroute::reroute;
use velosearch::cluster::settings::{filters_from, ClusterSettings, Context, Enable, Filters};
use velosearch::cluster::state::{
    DiscoveryNode, Ids, IndexMetadata, NodeId, RoutingTable, ShardRouting, ShardState,
};
use velosearch::cluster::work::{unassigned_info, Changes};
use velosearch::json::{Json, Number};
use velosearch::number::{time_ms, Millis};

fn to_json(v: &serde_json::Value) -> Json {
    match v {
        serde_json::Value::Null => Json::Null,
        serde_json::Value::Bool(b) => Json::Bool(*b),
        serde_json::Value::Number(n) => Json::Number(match (n.as_u64(), n.as_i64()) {
            (Some(u), _) => Number::Whole(u),
            (None, Some(i)) => Number::Below(i),
            _ => Number::Decimal(n.to_string()),
        }),
        serde_json::Value::String(s) => Json::Text(s.clone()),
        serde_json::Value::Array(a) => Json::List(a.iter().map(to_json).collect()),
        serde_json::Value::Object(o) => {
            Json::Object(o.iter().map(|(k, v)| (k.clone(), to_json(v))).collect())
        }
    }
}

fn json(text: &str) -> Json {
    to_json(&serde_json::from_str(text).unwrap())
}

fn text(j: &Json, key: &str) -> String {
    match j.get(key) {
        Some(Json::Text(s)) => s.clone(),
        _ => String::new(),
    }
}

fn items(j: Option<&Json>) -> &Vec<Json> {
    match j {
        Some(Json::List(v)) => v,
        _ => panic!("not a list"),
    }
}

fn node(name: &str, attrs: &[(&str, &str)]) -> DiscoveryNode {
    DiscoveryNode {
        id: NodeId(name.into()),
        name: name.into(),
        ephemeral_id: NodeId(format!("{name}-ephemeral")),
        transport_address: format!("10.0.0.{}:9300", name.len()),
        http_address: String::new(),
        roles: vec!["cluster_manager".into(), "data".into()],
        attributes: attrs.iter().map(|(k, v)| (k.to_string(), v.to_string())).collect(),
    }
}

fn with_roles(mut n: DiscoveryNode, roles: &[&str]) -> DiscoveryNode {
    n.roles = roles.iter().map(|r| r.to_string()).collect();
    n
}

fn index(name: &str, shards: u32, replicas: u32, settings: Json) -> IndexMetadata {
    IndexMetadata {
        name: name.into(),
        uuid: format!("{name}-uuid"),
        settings,
        number_of_shards: shards,
        number_of_replicas: replicas,
        in_sync_allocations: Vec::new(),
        creation_date: 1_000,
    }
}

struct World {
    nodes: Vec<DiscoveryNode>,
    indices: Vec<IndexMetadata>,
    cluster: ClusterSettings,
    home: Vec<(String, NodeId)>,
    home_documents: Vec<String>,
    held: Vec<(NodeId, Vec<(String, String, String)>)>,
    table: RoutingTable,
    now: Millis,
    ids: Ids,
}

impl World {
    fn new(nodes: Vec<DiscoveryNode>, indices: Vec<IndexMetadata>, home: &str) -> World {
        let home_map = indices.iter().map(|i| (i.name.clone(), NodeId(home.into()))).collect();
        let mut w = World {
            nodes: Vec::new(),
            indices,
            cluster: ClusterSettings::default(),
            home: home_map,
            home_documents: Vec::new(),
            held: Vec::new(),
            table: RoutingTable::default(),
            now: 10_000,
            ids: Ids { run: "run".into(), next: 0 },
        };
        for n in nodes {
            w.join(n);
        }
        w.indices.sort_by(|a, b| a.name.cmp(&b.name));
        w.home.sort();
        w
    }

    fn join(&mut self, n: DiscoveryNode) {
        self.leave(&n.id.0.clone());
        self.nodes.push(n);
        self.nodes.sort_by(|a, b| a.id.cmp(&b.id));
    }

    fn leave(&mut self, id: &str) {
        self.nodes.retain(|n| n.id.0 != id);
    }

    fn hold(&mut self, id: &str, what: Vec<(String, String, String)>) {
        self.held.retain(|(n, _)| n.0 != id);
        self.held.push((NodeId(id.into()), what));
        self.held.sort();
    }

    fn ctx(&self) -> Context<'_> {
        Context {
            nodes: &self.nodes,
            indices: &self.indices,
            cluster: &self.cluster,
            primary_home: &self.home,
            home_holds_documents: &self.home_documents,
            held: &self.held,
            now: self.now,
        }
    }

    fn node(&self, id: &str) -> &DiscoveryNode {
        self.nodes.iter().find(|n| n.id.0 == id).unwrap()
    }

    fn index_mut(&mut self, name: &str) -> &mut IndexMetadata {
        self.indices.iter_mut().find(|m| m.name == name).unwrap()
    }

    fn reroute(&mut self) -> Changes {
        let mut ids = Ids { run: self.ids.run.clone(), next: self.ids.next };
        let (t, c) = reroute(&self.ctx(), &self.table, &mut ids);
        self.ids = ids;
        self.table = t;
        c
    }

    fn apply(&mut self, table: &RoutingTable, commands: &str) -> Result<RoutingTable, String> {
        let mut ids = Ids { run: self.ids.run.clone(), next: self.ids.next };
        let commands = match json(commands) {
            Json::List(v) => v,
            _ => panic!("commands come in a list"),
        };
        let r = apply_commands(&self.ctx(), table, &commands, false, &mut ids).map(|(t, _)| t);
        self.ids = ids;
        r
    }

    /// Every initializing copy reports started, as data nodes would.
    fn start_all(&mut self) {
        let starts: Vec<(String, u32, String)> = self
            .table
            .all()
            .iter()
            .filter(|c| c.state == ShardState::Initializing)
            .map(|c| (c.index.clone(), c.shard, c.allocation_id.clone().unwrap()))
            .collect();
        for (i, s, a) in starts {
            assert!(shard_started(&mut self.table, &i, s, &a).is_some());
        }
    }

    /// Reroute and start until nothing moves.
    fn settle(&mut self) {
        for _ in 0..20 {
            let c = self.reroute();
            self.start_all();
            if c.is_empty() && self.table.all().iter().all(|c| c.state == ShardState::Started) {
                return;
            }
        }
    }

    fn count(&self, node: &str, index: &str) -> usize {
        self.table
            .on_node(&NodeId(node.into()))
            .iter()
            .filter(|c| c.index == index && c.state != ShardState::Unassigned)
            .count()
    }

    fn replica(&self, index: &str) -> ShardRouting {
        (*self.table.shards_of(index).iter().find(|c| !c.primary).unwrap()).clone()
    }
}

fn nothing() -> Json {
    json("{}")
}

#[test]
fn replicas_go_to_other_nodes_and_spread_evenly() {
    let mut w = World::new(
        vec![node("a", &[]), node("b", &[]), node("c", &[])],
        vec![index("logs", 4, 1, nothing())],
        "a",
    );
    w.settle();
    let copies: Vec<&ShardRouting> = w.table.shards_of("logs");
    assert_eq!(copies.len(), 8);
    assert!(copies.iter().all(|c| c.state == ShardState::Started), "{copies:?}");
    // no shard has two copies on one node
    for s in 0..4 {
        let nodes: BTreeSet<_> =
            copies.iter().filter(|c| c.shard == s).map(|c| c.node.clone()).collect();
        assert_eq!(nodes.len(), 2);
    }
    // the shards of an index live together: a copy here is a copy of the
    // whole index, so the eight copies sit on two nodes, four each, and
    // the third node holds none of this index
    let counts = [w.count("a", "logs"), w.count("b", "logs"), w.count("c", "logs")];
    let mut sorted = counts;
    sorted.sort();
    assert_eq!(sorted, [0, 4, 4], "a={} b={} c={}", counts[0], counts[1], counts[2]);
}

#[test]
fn one_node_keeps_the_replica_unassigned_with_the_plugins_reason() {
    let mut w = World::new(vec![node("a", &[])], vec![index("x", 1, 1, nothing())], "a");
    w.settle();
    let replica = w.replica("x");
    assert_eq!(replica.state, ShardState::Unassigned);
    let vs = can_allocate(&w.ctx(), &w.table, &replica, w.node("a"));
    let same = vs.iter().find(|v| v.decider == "same_shard").unwrap();
    assert_eq!(same.decision, Decision::No);
    assert!(same.explanation.starts_with("a copy of this shard is already allocated to this node [[x][0], node[a], [P], s[STARTED], a[id="), "{}", same.explanation);
    let e = explain(&w.ctx(), &w.table, &replica, false);
    assert_eq!(text(&e, "can_allocate"), "no");
    assert_eq!(
        text(&e, "allocate_explanation"),
        "cannot allocate because allocation is not permitted to any of the nodes"
    );
    assert_eq!(items(items(e.get("node_allocation_decisions"))[0].get("deciders")).len(), 1);
}

#[test]
fn filters_and_enable_and_limits_say_no() {
    let mut w = World::new(
        vec![
            node("a", &[("zone", "z1")]),
            node("b", &[("zone", "z2")]),
            node("c", &[("zone", "z2")]),
        ],
        vec![index(
            "f",
            2,
            1,
            json(r#"{"index": {"routing": {"allocation": {"exclude": {"_name": "b"}}}}}"#),
        )],
        "a",
    );
    w.settle();
    // b is excluded: every replica on c
    assert_eq!(w.count("c", "f"), 2);
    assert_eq!(w.count("b", "f"), 0);
    // now the cluster forbids replica allocation and asks for one more replica
    w.cluster.enable = Enable::Primaries;
    w.index_mut("f").number_of_replicas = 2;
    w.settle();
    let waiting: Vec<ShardRouting> = w
        .table
        .all()
        .iter()
        .filter(|c| c.state == ShardState::Unassigned)
        .map(|c| (*c).clone())
        .collect();
    assert_eq!(waiting.len(), 2);
    let vs = can_allocate(&w.ctx(), &w.table, &waiting[0], w.node("b"));
    assert!(vs.iter().any(|v| v.decider == "enable" && v.decision == Decision::No && v.explanation == "replica allocations are forbidden due to cluster setting [cluster.routing.allocation.enable=primaries]"), "{vs:?}");
    // a per-index limit of one shard per node
    w.cluster.enable = Enable::All;
    w.index_mut("f").settings =
        json(r#"{"index": {"routing": {"allocation": {"total_shards_per_node": "1"}}}}"#);
    let vs = can_allocate(&w.ctx(), &w.table, &waiting[0], w.node("c"));
    let sl = vs.iter().find(|v| v.decider == "shards_limit").unwrap();
    assert_eq!(sl.decision, Decision::No);
    assert!(sl.explanation.starts_with("too many shards [2] allocated to this node for index [f], index setting [index.routing.allocation.total_shards_per_node=1]"), "{}", sl.explanation);
}

#[test]
fn a_new_index_made_on_a_manager_without_the_data_role_is_placed_on_a_data_node() {
    let mut w = World::new(
        vec![
            with_roles(node("m", &[]), &["cluster_manager"]),
            with_roles(node("d1", &[]), &["data"]),
            with_roles(node("d2", &[]), &["data"]),
            with_roles(node("c", &[]), &[]),
        ],
        vec![index("fresh", 2, 1, nothing())],
        "m",
    );
    w.reroute();
    // never started where it was made: placed like any unassigned copy
    assert_eq!(w.count("m", "fresh"), 0);
    let primary = w.table.primary("fresh", 0).unwrap();
    assert_eq!(primary.state, ShardState::Initializing);
    assert!(matches!(primary.node.as_ref().map(|n| n.as_str()), Some("d1" | "d2")));
    w.settle();
    assert_eq!(w.count("m", "fresh") + w.count("c", "fresh"), 0);
    assert_eq!(w.count("d1", "fresh") + w.count("d2", "fresh"), 4);
    // and nothing may be put on either of them by hand
    let copy = w.table.primary("fresh", 0).unwrap().clone();
    for name in ["m", "c"] {
        let vs = can_allocate(&w.ctx(), &w.table, &copy, w.node(name));
        assert!(vs.iter().any(|v| v.decider == "data_role" && v.decision == Decision::No));
    }
}

#[test]
fn a_primary_whose_documents_are_on_a_node_without_the_data_role_is_moved_with_them() {
    let mut w = World::new(
        vec![
            with_roles(node("m", &[]), &["cluster_manager"]),
            with_roles(node("d1", &[]), &["data"]),
        ],
        vec![index("written", 1, 0, nothing())],
        "m",
    );
    w.home_documents.push("written".into());
    w.reroute();
    // started where the documents are, and already on its way to a data
    // node: made again empty there, the documents would be lost
    let copies: Vec<&ShardRouting> = w.table.shards_of("written");
    assert!(copies.iter().any(|c| c.node == Some(NodeId("m".into()))
        && c.state == ShardState::Relocating
        && c.relocating_node == Some(NodeId("d1".into()))));
    assert!(copies.iter().any(|c| c.node == Some(NodeId("d1".into()))
        && c.state == ShardState::Initializing
        && c.relocating_node == Some(NodeId("m".into()))));
    w.settle();
    assert_eq!(w.count("m", "written"), 0);
    assert_eq!(w.count("d1", "written"), 1);
}

#[test]
fn a_home_a_filter_excludes_is_not_where_a_new_primary_starts() {
    let mut w = World::new(
        vec![node("a", &[]), node("b", &[])],
        vec![index(
            "kept-off",
            1,
            0,
            json(r#"{"index.routing.allocation.exclude._name": "a"}"#),
        )],
        "a",
    );
    w.settle();
    assert_eq!(w.count("a", "kept-off"), 0);
    assert_eq!(w.count("b", "kept-off"), 1);
}

#[test]
fn a_cluster_exclude_moves_what_the_node_holds() {
    let mut w = World::new(
        vec![node("a", &[]), node("b", &[])],
        vec![index("drained", 3, 0, nothing())],
        "a",
    );
    w.settle();
    assert_eq!(w.count("a", "drained"), 3);
    w.cluster.filters = filters_from(
        &json(r#"{"cluster.routing.allocation.exclude._name": "a"}"#),
        "cluster.routing.allocation",
    );
    w.settle();
    assert_eq!(w.count("a", "drained"), 0);
    assert_eq!(w.count("b", "drained"), 3);
}

#[test]
fn a_copy_is_not_moved_to_the_node_it_is_on() {
    let mut w = World::new(
        vec![node("a", &[]), node("b", &[])],
        vec![index("here", 1, 0, nothing())],
        "a",
    );
    w.settle();
    let copy = w.table.primary("here", 0).unwrap().clone();
    let vs = can_allocate(&w.ctx(), &w.table, &copy, w.node("a"));
    assert!(
        vs.iter().any(|v| v.decider == "same_shard" && v.decision == Decision::No),
        "{vs:?}"
    );
    let commands =
        r#"[{"move": {"index": "here", "shard": 0, "from_node": "a", "to_node": "a"}}]"#;
    let table = w.table.clone();
    assert!(w.apply(&table, commands).is_err());
}

/// A move of any shard of an index moves the copy, and a second command
/// for another shard of it is the same move: the shards of an index are
/// held together, so a move of one alone was answered and then undone by
/// the placement that keeps them together.
#[test]
fn a_move_of_any_shard_moves_the_whole_copy() {
    let mut w = World::new(
        vec![node("a", &[]), node("b", &[])],
        vec![index("pair", 2, 0, nothing())],
        "a",
    );
    w.settle();
    assert_eq!(w.count("a", "pair"), 2);
    let commands =
        r#"[{"move": {"index": "pair", "shard": 1, "from_node": "a", "to_node": "b"}}]"#;
    let table = w.table.clone();
    w.table = w.apply(&table, commands).unwrap();
    w.settle();
    assert_eq!(w.count("a", "pair"), 0);
    assert_eq!(w.count("b", "pair"), 2);
    // and one command per shard, which is how a copy is taken off a node
    let commands = r#"[
        {"move": {"index": "pair", "shard": 0, "from_node": "b", "to_node": "a"}},
        {"move": {"index": "pair", "shard": 1, "from_node": "b", "to_node": "a"}}
    ]"#;
    let table = w.table.clone();
    w.table = w.apply(&table, commands).unwrap();
    w.settle();
    assert_eq!(w.count("a", "pair"), 2);
    assert_eq!(w.count("b", "pair"), 0);
}

#[test]
fn awareness_keeps_copies_in_different_zones() {
    let mut w = World::new(
        vec![
            node("a", &[("zone", "z1")]),
            node("b", &[("zone", "z1")]),
            node("c", &[("zone", "z2")]),
        ],
        vec![index("z", 2, 1, nothing())],
        "a",
    );
    w.cluster.awareness_attributes = vec!["zone".into()];
    w.settle();
    // no shard has both copies in one zone: every copy in z1 has its
    // twin on c, in z2
    for shard in 0..2 {
        let zones: BTreeSet<&str> = w
            .table
            .shards_of("z")
            .iter()
            .filter(|c| c.shard == shard && c.state != ShardState::Unassigned)
            .map(|c| w.node(&c.node.as_ref().unwrap().0).attributes[0].1.as_str())
            .collect();
        assert_eq!(zones.len(), 2, "shard {shard} copies share a zone");
    }
    assert_eq!(w.count("c", "z"), 2);
    let replica = w.replica("z");
    let vs = can_allocate(&w.ctx(), &w.table, &replica, w.node("b"));
    let aw = vs.iter().find(|v| v.decider == "awareness").unwrap();
    assert_eq!(aw.decision, Decision::No);
    assert!(aw.explanation.starts_with("there are [2] copies of this shard and [2] values for attribute [zone] ([z1, z2] from nodes in the cluster and no forced awareness) so there may be at most [1] copies of this shard allocated to nodes with each value, but (including this copy) there would be [2] copies allocated to nodes with [node.attr.zone: z1]"), "{}", aw.explanation);
}

#[test]
fn a_node_that_leaves_loses_its_replicas_after_the_delay_and_a_primary_is_promoted() {
    let mut w = World::new(
        vec![node("a", &[]), node("b", &[]), node("c", &[])],
        vec![index(
            "d",
            2,
            1,
            json(r#"{"index": {"unassigned": {"node_left": {"delayed_timeout": "5s"}}}}"#),
        )],
        "a",
    );
    w.settle();
    // whichever node holds the replica copies: an index sits on two of the
    // three, so the third holds none of it
    let holder = w.replica("d").node.expect("a replica somewhere");
    let on_b: Vec<(String, u32)> =
        w.table.on_node(&holder).iter().map(|c| (c.index.clone(), c.shard)).collect();
    assert!(!on_b.is_empty());
    w.leave(&holder.0);
    w.now += 1_000;
    let ch = w.reroute();
    assert_eq!(ch.unassigned.len(), on_b.len());
    let waiting: Vec<&ShardRouting> =
        w.table.all().into_iter().filter(|c| c.state == ShardState::Unassigned).collect();
    assert!(waiting.iter().all(|c| c.unassigned.as_ref().unwrap().delayed
        && c.unassigned.as_ref().unwrap().reason == "NODE_LEFT"));
    // the node left at 11s; the replicas may move at 16s
    assert_eq!(ch.next_delay_at, Some(16_000));
    // still waiting before the delay is up
    w.now += 2_000;
    let ch = w.reroute();
    assert!(ch.assigned.is_empty());
    // after it, allocated to c
    w.now += 3_000;
    w.settle();
    assert!(w.table.all().iter().all(|c| c.state == ShardState::Started));
    // the copies went to whichever node was free: two shards' worth of one
    // copy of the index, wherever the allocator put them
    let elsewhere: usize = w
        .nodes
        .iter()
        .map(|n| w.table.on_node(&n.id).iter().filter(|c| c.index == "d" && !c.primary).count())
        .max()
        .unwrap_or(0);
    assert_eq!(elsewhere, 2);
    // the primaries' node leaves: the copies elsewhere take over, and
    // both shards' primaries land on the one node that holds the index
    let primary_node = w
        .table
        .shards_of("d")
        .iter()
        .find(|c| c.primary)
        .and_then(|c| c.node.clone())
        .expect("a primary");
    w.leave(&primary_node.0);
    w.home.clear();
    let ch = w.reroute();
    assert_eq!(ch.promoted.len(), 2, "{ch:?}");
    let promoted_to: BTreeSet<Option<NodeId>> =
        w.table.shards_of("d").iter().filter(|c| c.primary).map(|c| c.node.clone()).collect();
    assert_eq!(promoted_to.len(), 1, "{promoted_to:?}");
    assert!(w
        .table
        .shards_of("d")
        .iter()
        .filter(|c| c.primary)
        .all(|c| c.state == ShardState::Started));
}

#[test]
fn a_failed_copy_is_retried_until_the_limit_and_then_only_by_hand() {
    let mut w = World::new(
        vec![node("a", &[]), node("b", &[])],
        vec![index("r", 1, 1, nothing())],
        "a",
    );
    w.reroute();
    for attempt in 1..=5 {
        let rep = w.replica("r");
        assert_eq!(rep.state, ShardState::Initializing, "attempt {attempt}");
        assert!(shard_failed(
            &mut w.table,
            "r",
            0,
            rep.allocation_id.as_ref().unwrap(),
            w.now,
            "boom"
        ));
        w.reroute();
    }
    let rep = w.replica("r");
    assert_eq!(rep.state, ShardState::Unassigned);
    assert_eq!(rep.unassigned.as_ref().unwrap().failed_allocations, 5);
    // a refused replica reads `no_attempt`, as the plugin leaves it
    assert_eq!(rep.unassigned.as_ref().unwrap().allocation_status, "no_attempt");
    let vs = can_allocate(&w.ctx(), &w.table, &rep, w.node("b"));
    let mr = vs.iter().find(|v| v.decider == "max_retry").unwrap();
    assert_eq!(mr.decision, Decision::No);
    assert!(mr.explanation.starts_with("shard has exceeded the maximum number of retries [5] on failed allocation attempts - manually call [/_cluster/reroute?retry_failed=true] to retry, [unassigned_info[[reason=ALLOCATION_FAILED]"), "{}", mr.explanation);
    assert_eq!(retry_failed(&mut w.table), 1);
    w.reroute();
    assert_eq!(w.replica("r").state, ShardState::Initializing);
}

/// A primary whose only copy is gone stays unassigned, and the index is
/// red, until someone accepts the data loss.
#[test]
fn a_lost_primary_is_not_made_again_out_of_nothing() {
    let mut w = World::new(
        vec![node("a", &[]), node("b", &[])],
        vec![index("solo", 1, 0, nothing())],
        "a",
    );
    w.settle();
    assert_eq!(w.table.primary("solo", 0).unwrap().node, Some(NodeId("a".into())));
    w.leave("a");
    w.home.clear();
    w.now += 1_000;
    w.settle();
    let p = w.table.primary("solo", 0).unwrap().clone();
    assert_eq!(p.state, ShardState::Unassigned, "{p:?}");
    assert_eq!(p.unassigned.as_ref().unwrap().allocation_status, "no_valid_shard_copy");
    assert_eq!(w.table.health_status(), "red");
    // the command that accepts the loss places an empty one
    let cmd = r#"[{"allocate_empty_primary": {"index": "solo", "shard": 0, "node": "b", "accept_data_loss": true}}]"#;
    let table = w.table.clone();
    w.table = w.apply(&table, cmd).unwrap();
    assert_eq!(w.table.primary("solo", 0).unwrap().state, ShardState::Initializing);
    w.settle();
    assert_eq!(w.table.primary("solo", 0).unwrap().node, Some(NodeId("b".into())));
    // without accepting the loss the command is refused
    let cmd = r#"[{"allocate_empty_primary": {"index": "solo", "shard": 0, "node": "b"}}]"#;
    let mut fresh = w.table.clone();
    let c = &mut fresh.indices[0].shards[0][0];
    c.state = ShardState::Unassigned;
    c.node = None;
    c.unassigned = Some(unassigned_info("NODE_LEFT", 0, "no_valid_shard_copy", 0));
    assert!(w.apply(&fresh, cmd).is_err());
}

/// The node that held a lost primary's data comes back: the primary goes
/// back to it, an existing-store recovery, not an empty one.
#[test]
fn a_lost_primary_goes_back_to_the_node_that_still_holds_its_data() {
    let mut w = World::new(
        vec![node("a", &[]), node("b", &[])],
        vec![index("solo", 1, 0, nothing())],
        "a",
    );
    w.settle();
    let uuid = w.index_mut("solo").uuid.clone();
    w.leave("a");
    w.home.clear();
    w.now += 1_000;
    w.settle();
    assert_eq!(w.table.primary("solo", 0).unwrap().state, ShardState::Unassigned);
    // a returns, and says it still holds the index, with the copy that was in sync
    let aid = "aid-a".to_string();
    w.index_mut("solo").in_sync_allocations = vec![(0, vec![aid.clone()])];
    w.join(node("a", &[]));
    w.hold("a", vec![("solo".into(), uuid.clone(), aid)]);
    let ch = w.reroute();
    assert_eq!(ch.assigned.len(), 1, "{ch:?}");
    let p = w.table.primary("solo", 0).unwrap().clone();
    assert_eq!(p.node, Some(NodeId("a".into())));
    assert_eq!(p.state, ShardState::Initializing);
    assert_eq!(p.recovery_source(), Some("EXISTING_STORE"));
    // a node holding a different creation of the index (another uuid) does not count
    let mut w2 = World::new(
        vec![node("a", &[]), node("b", &[])],
        vec![index("solo", 1, 0, nothing())],
        "a",
    );
    w2.settle();
    w2.leave("a");
    w2.home.clear();
    w2.now += 1_000;
    w2.settle();
    w2.hold("b", vec![("solo".into(), "another-uuid".into(), "x".into())]);
    w2.reroute();
    assert_eq!(w2.table.primary("solo", 0).unwrap().state, ShardState::Unassigned);
    // and a copy of the right index that was not in sync does not count either
    let uuid = w2.index_mut("solo").uuid.clone();
    w2.hold("b", vec![("solo".into(), uuid, "stale".into())]);
    w2.index_mut("solo").in_sync_allocations = vec![(0, vec!["fresh".into()])];
    w2.reroute();
    assert_eq!(w2.table.primary("solo", 0).unwrap().state, ShardState::Unassigned);
}

#[test]
fn a_new_node_gets_copies_moved_to_it_one_at_a_time() {
    // two indices, so the third node has something to take: one index with
    // one replica fills exactly two nodes and has no reason to move
    let mut w = World::new(
        vec![node("a", &[]), node("b", &[])],
        vec![index("m", 6, 1, nothing()), index("n", 6, 1, nothing())],
        "a",
    );
    w.settle();
    assert_eq!(w.count("b", "m"), 6);
    w.join(node("c", &[]));
    let ch = w.reroute();
    // one copy is chosen to move, and the index moves with it: a copy is
    // a copy of the whole index, so every shard of that copy relocates
    assert!(!ch.relocating.is_empty(), "{ch:?}");
    let (_, _, _, from, to) = &ch.relocating[0];
    assert!(from.as_str() == "a" || from.as_str() == "b", "{from:?}");
    assert_eq!(to.as_str(), "c");
    assert_eq!(w.table.all().iter().filter(|c| c.state == ShardState::Relocating).count(), 6);
    assert_eq!(
        w.table
            .all()
            .iter()
            .filter(|c| c.state == ShardState::Initializing && c.relocating_node.is_some())
            .count(),
        6
    );
    // the explain of a relocating copy names where it goes
    let moving =
        (*w.table.all().iter().find(|c| c.state == ShardState::Relocating).unwrap()).clone();
    let e = explain(&w.ctx(), &w.table, &moving, false);
    assert_eq!(text(&e, "current_state"), "relocating");
    assert_eq!(
        text(e.get("current_node").unwrap().get("relocating_to").unwrap(), "id"),
        "c"
    );
    // once it has started, the source copy is gone and the next move begins
    w.start_all();
    assert_eq!(w.table.all().iter().filter(|c| c.index == "m").count(), 12);
    w.settle();
    // the copies end up shared out: twelve over three nodes, none with
    // more than five, no shard with both copies on one node
    let total = w.count("a", "m") + w.count("b", "m") + w.count("c", "m");
    assert_eq!(
        total,
        12,
        "a={} b={} c={}",
        w.count("a", "m"),
        w.count("b", "m"),
        w.count("c", "m")
    );
    // the index sits on two nodes, six shards' worth of a copy on each
    let mut counts = [w.count("a", "m"), w.count("b", "m"), w.count("c", "m")];
    counts.sort();
    assert_eq!(counts, [0, 6, 6], "{counts:?}");
    for shard in 0..6 {
        let nodes: BTreeSet<_> = w
            .table
            .shards_of("m")
            .iter()
            .filter(|c| c.shard == shard)
            .map(|c| c.node.clone())
            .collect();
        assert_eq!(nodes.len(), 2, "shard {shard}");
    }
    assert!(w.table.all().iter().all(|c| c.state == ShardState::Started));
}

#[test]
fn rebalancing_waits_for_every_copy_and_the_explain_says_so() {
    let mut w = World::new(
        vec![node("a", &[]), node("b", &[])],
        vec![index("w", 2, 1, nothing())],
        "a",
    );
    w.reroute();
    // replicas are initializing: nothing may move yet
    let primary = w.table.primary("w", 0).unwrap().clone();
    let vs = can_rebalance(&w.ctx(), &w.table, &primary);
    assert!(vs.iter().any(|v| v.decider == "rebalance_only_when_active"
        && v.decision == Decision::No
        && v.explanation
            == "rebalancing is not allowed until all replicas in the cluster are active"));
    assert!(vs.iter().any(|v| v.decider == "cluster_rebalance" && v.decision == Decision::No && v.explanation == "the cluster has inactive shards and cluster setting [cluster.routing.allocation.allow_rebalance] is set to [indices_all_active]"));
    let e = explain(&w.ctx(), &w.table, &primary, false);
    assert_eq!(text(&e, "can_remain_on_current_node"), "yes");
    assert_eq!(text(&e, "can_rebalance_cluster"), "no");
    assert_eq!(text(&e, "can_rebalance_to_other_node"), "no");
    assert_eq!(text(&e, "rebalance_explanation"), "rebalancing is not allowed");
}

#[test]
fn the_settings_are_read_from_the_cluster_document() {
    let v = json(
        r#"{
        "persistent": {"cluster.routing.allocation.enable": "none", "cluster": {"routing": {"allocation": {"awareness": {"attributes": "zone,rack"}}}}},
        "transient": {"cluster.routing.allocation.exclude._name": "old*", "cluster.routing.allocation.node_concurrent_recoveries": "5"}
    }"#,
    );
    let s = ClusterSettings::from_value(&v);
    assert_eq!(s.enable, Enable::Nothing);
    assert_eq!(s.awareness_attributes, vec!["zone", "rack"]);
    assert_eq!(s.filters.excludes, vec![("_name".to_string(), vec!["old*".to_string()])]);
    assert_eq!(s.node_concurrent_incoming, 5);
    let excluded = Filters {
        includes: Vec::new(),
        excludes: s.filters.excludes,
        requires_all: Vec::new(),
    };
    assert!(excluded.check(&node("oldnode", &[])).is_some());
    assert!(excluded.check(&node("new", &[])).is_none());
    assert_eq!(time_ms("1m"), Some(60_000));
    assert_eq!(time_ms("0"), Some(0));
}

fn apart(w: &World) {
    for i in &w.table.indices {
        for copies in &i.shards {
            let mut nodes: Vec<&str> = copies
                .iter()
                .filter(|c| c.state != ShardState::Unassigned)
                .filter_map(|c| c.node.as_ref().map(|n| n.0.as_str()))
                .collect();
            let all = nodes.len();
            nodes.sort();
            nodes.dedup();
            assert_eq!(all, nodes.len(), "two copies of {} on one node", i.name);
        }
    }
}

#[test]
fn no_two_copies_of_a_shard_are_ever_on_one_node() {
    let mut w = World::new(
        vec![node("a", &[]), node("b", &[]), node("c", &[])],
        vec![index("logs", 3, 2, nothing()), index("small", 1, 1, nothing())],
        "a",
    );
    for step in ["", "-b", "+d", "-a", "+b", "+a", "-c"] {
        match step.split_at(step.len().min(1)) {
            ("-", n) => w.leave(n),
            ("+", n) => w.join(node(n, &[])),
            _ => {}
        }
        for _ in 0..6 {
            w.now += 120_000;
            w.reroute();
            apart(&w);
            w.start_all();
            apart(&w);
        }
    }
    let table = w.table.clone();
    let on = table.shards_of("small")[0].node.as_ref().unwrap().0.clone();
    for to in ["a", "b", "d"] {
        let command = format!(
            "[{{\"move\": {{\"index\": \"small\", \"shard\": 0, \"from_node\": \"{on}\", \"to_node\": \"{to}\"}}}}]"
        );
        if let Ok(t) = w.apply(&table, &command) {
            w.table = t;
            apart(&w);
        }
    }
}

#[test]
fn a_copy_that_missed_a_write_is_filled_again_and_has_not_failed() {
    let mut w = World::new(
        vec![node("a", &[]), node("b", &[])],
        vec![index("logs", 1, 1, nothing())],
        "a",
    );
    w.settle();
    let r = w.replica("logs");
    let id = r.allocation_id.clone().unwrap();
    assert!(!shard_stale(&mut w.table, "logs", 0, "nobody", 7));
    assert!(shard_stale(&mut w.table, "logs", 0, &id, 7));
    let gone = w.replica("logs");
    assert_eq!(gone.state, ShardState::Unassigned);
    let why = gone.unassigned.unwrap();
    assert_eq!((why.reason.as_str(), why.failed_allocations), ("REALLOCATED_REPLICA", 0));
    // a primary is not one that is filled again
    let p = w.table.primary("logs", 0).unwrap().allocation_id.clone().unwrap();
    assert!(!shard_stale(&mut w.table, "logs", 0, &p, 7));
    w.settle();
    assert_eq!(w.replica("logs").state, ShardState::Started);
}

/// Where explanations are asked for, a primary forced without accepting the
/// loss is explained as refused like any other command, and nothing changes.
#[test]
fn a_forced_primary_nobody_accepted_the_loss_of_is_explained() {
    let w = World::new(vec![node("b", &[])], vec![index("solo", 1, 0, nothing())], "b");
    let mut t = RoutingTable { indices: Vec::new() };
    t.indices.push(velosearch::cluster::state::IndexRouting {
        name: "solo".into(),
        shards: vec![vec![ShardRouting {
            index: "solo".into(),
            shard: 0,
            primary: true,
            state: ShardState::Unassigned,
            node: None,
            relocating_node: None,
            allocation_id: None,
            unassigned: Some(unassigned_info("NODE_LEFT", 0, "no_valid_shard_copy", 0)),
        }]],
    });
    let force = |more: &str, explain: bool, ids: &mut Ids| {
        let cmd = format!(
            r#"[{{"allocate_empty_primary": {{"index": "solo", "shard": 0, "node": "b"{more}}}}}]"#
        );
        let commands = match json(&cmd) {
            Json::List(v) => v,
            _ => panic!("commands come in a list"),
        };
        apply_commands(&w.ctx(), &t, &commands, explain, ids)
    };
    let mut ids = Ids { run: "r".into(), next: 5 };
    let (after, said) = force("", true, &mut ids).unwrap();
    assert_eq!(format!("{after:?}"), format!("{t:?}"));
    assert_eq!(said.len(), 1);
    let text = said[0].render();
    assert!(text.contains(r#""decision":"NO""#), "{text}");
    assert!(text.contains("can result in data loss"), "{text}");
    assert!(force("", false, &mut ids).is_err());
    assert_eq!(ids.next, 5);
    let (after, _) = force(r#", "accept_data_loss": true"#, true, &mut ids).unwrap();
    assert_eq!(after.primary("solo", 0).unwrap().state, ShardState::Initializing);
    assert_eq!(ids.next, 6);
}

/// A copy moved by hand whose target fails is where it was, and has had no
/// failure for it.
#[test]
fn a_move_whose_target_fails_comes_to_nothing() {
    let mut w = World::new(
        vec![node("a", &[]), node("b", &[])],
        vec![index("solo", 1, 0, nothing())],
        "a",
    );
    w.settle();
    let before = w.table.clone();
    let id = format!("{}-{}", w.ids.run, w.ids.next);
    let cmd = r#"[{"move": {"index": "solo", "shard": 0, "from_node": "a", "to_node": "b"}}]"#;
    let mut t = w.apply(&before, cmd).unwrap();
    assert_ne!(t, before);
    assert!(shard_failed(&mut t, "solo", 0, &id, 99, "disk full"));
    assert_eq!(t, before);
}

/// What a node that left held is on the nodes there are, and who takes over was
/// in sync.
#[test]
fn every_copy_is_on_a_node_there_is() {
    let mut w = World::new(
        vec![node("a", &[]), node("b", &[]), node("c", &[])],
        vec![index("i", 2, 1, json(r#"{"index": {"unassigned": {"node_left": {"delayed_timeout": "0"}}}}"#))],
        "a",
    );
    assert!(is_in_order(&w.ctx()));
    w.settle();
    let lost = w.table.primary("i", 0).unwrap().allocation_id.clone().unwrap();
    w.leave("a");
    let ch = w.reroute();
    assert_eq!(ch.promoted.len(), 2, "{ch:?}");
    assert!(ch.retired.contains(&("i".to_string(), 0, lost)), "{ch:?}");
    for c in w.table.all() {
        assert!(c.node.as_ref().map(|n| n.0 != "a").unwrap_or(true), "{c:?}");
    }
    w.settle();
    assert!(w.table.all().iter().all(|c| c.state == ShardState::Started));
}

/// Nodes and indices out of their order are told from those in it.
#[test]
fn what_is_out_of_order_is_seen() {
    let mut w = World::new(
        vec![node("a", &[]), node("b", &[("rack", "1"), ("zone", "2")])],
        vec![index("i", 1, 0, nothing()), index("j", 1, 0, nothing())],
        "a",
    );
    assert!(is_in_order(&w.ctx()));
    w.nodes.reverse();
    assert!(!is_in_order(&w.ctx()));
    w.nodes.reverse();
    w.indices[0].in_sync_allocations = vec![(1, vec![]), (0, vec![])];
    assert!(!is_in_order(&w.ctx()));
    w.indices[0].in_sync_allocations = vec![(0, vec![]), (1, vec![])];
    assert!(is_in_order(&w.ctx()));
    w.indices[1].name = "i".into();
    assert!(!is_in_order(&w.ctx()));
    w.indices[1].name = "j".into();
    w.nodes[1].attributes.reverse();
    assert!(!is_in_order(&w.ctx()));
    w.nodes[1].attributes.reverse();
    w.home.reverse();
    assert!(!is_in_order(&w.ctx()));
}

/// What a note shows of a list is shown as a programmer reads it.
#[test]
fn a_note_shows_what_is_held_as_it_is() {
    let mut w = World::new(
        vec![node("a", &[]), node("b", &[])],
        vec![index("solo", 1, 0, nothing())],
        "a",
    );
    w.settle();
    w.leave("a");
    w.home.clear();
    let odd = "x\u{1}\"\n".to_string();
    w.index_mut("solo").in_sync_allocations = vec![(0, vec![odd.clone()])];
    w.hold("b", vec![("other".into(), "u".into(), odd.clone())]);
    let ch = w.reroute();
    let held: std::collections::BTreeMap<NodeId, Vec<(String, String, String)>> =
        [(NodeId("b".into()), vec![("other".to_string(), "u".to_string(), odd.clone())])].into();
    let note = format!(
        "no in-sync copy of [solo] to place the primary on: in_sync={:?} held={held:?}",
        vec![odd]
    );
    assert!(ch.notes.contains(&note), "{:?}", ch.notes);
}
