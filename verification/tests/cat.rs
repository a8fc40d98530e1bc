use velosearch::api::cat::listings::{
    empty, fielddata, nodeattrs, pit_segments, recovery, repositories, repositories_asked, segments,
    snapshots, templates, Recovered, PENDING_TASKS,
};
use velosearch::api::cat::nodes::{cat_manager, cat_nodes, Resources};
use velosearch::api::cat::shards::{cat_shards, Asked, Held};
use velosearch::api::cat::table::{cat, Facts};
use velosearch::api::cat::{cat_by_name, Endpoint, Row, Table};
use velosearch::cluster::state::{
    DiscoveryNode, IndexRouting, NodeId, RoutingTable, ShardRouting, ShardState, UnassignedInfo,
};
use velosearch::json::{Json, Number};
use velosearch::size::sized_in;

fn to_json(v: &serde_json::Value) -> Json {
    match v {
        serde_json::Value::Null => Json::Null,
        serde_json::Value::Bool(b) => Json::Bool(*b),
        serde_json::Value::Number(n) => Json::Number(match (n.as_u64(), n.as_i64()) {
            (Some(u), _) => Number::Whole(u),
            (None, Some(i)) => Number::Below(i),
            _ => Number::Decimal(n.to_string()),
        }),
        serde_json::Value::String(s) => Json::Text(s.clone()),
        serde_json::Value::Array(a) => Json::List(a.iter().map(to_json).collect()),
        serde_json::Value::Object(o) => {
            Json::Object(o.iter().map(|(k, v)| (k.clone(), to_json(v))).collect())
        }
    }
}

fn json(text: &str) -> Json {
    to_json(&serde_json::from_str(text).unwrap())
}

fn cell<'a>(row: &'a Row, column: &str) -> &'a str {
    row.iter().find(|(c, _)| *c == column).map(|(_, v)| v.as_str()).unwrap()
}

fn column(t: &Table, name: &str) -> Vec<String> {
    t.rows.iter().map(|r| cell(r, name).to_string()).collect()
}

fn node(id: &str, roles: &[&str]) -> DiscoveryNode {
    DiscoveryNode {
        id: NodeId(id.into()),
        name: format!("{id}-name"),
        ephemeral_id: NodeId(format!("{id}-e")),
        transport_address: "10.0.0.1:9300".into(),
        http_address: String::new(),
        roles: roles.iter().map(|r| r.to_string()).collect(),
        attributes: Vec::new(),
    }
}

fn copy(index: &str, shard: u32, primary: bool, state: ShardState, node: Option<&str>) -> ShardRouting {
    ShardRouting {
        index: index.into(),
        shard,
        primary,
        state,
        node: node.map(|n| NodeId(n.into())),
        relocating_node: None,
        allocation_id: None,
        unassigned: None,
    }
}

fn table(index: &str, shards: Vec<Vec<ShardRouting>>) -> RoutingTable {
    RoutingTable { indices: vec![IndexRouting { name: index.into(), shards }] }
}

fn resources() -> Resources {
    Resources {
        pid: 7,
        uptime: "2m".into(),
        fds: 10,
        max_fds: 40,
        heap_used: 512,
        heap_max: 1024,
        ram_used: 3 * 1024,
        ram_total: 4 * 1024,
        cpu_percent: 9,
        load: Some(("0.10".into(), "0.20".into(), "0.30".into())),
        disk: Some((3000, 1000)),
    }
}

#[test]
fn a_table_is_asked_for_by_the_first_part_of_its_path() {
    assert!(matches!(cat_by_name("shards/a"), Ok(Endpoint::Shards)));
    assert!(matches!(cat_by_name("master"), Ok(Endpoint::Manager)));
    assert!(matches!(cat_by_name("cluster_manager"), Ok(Endpoint::Manager)));
    match cat_by_name("nothing") {
        Err(a) => {
            assert_eq!(a.status, 400);
            assert!(a.body.render().contains("unknown cat endpoint [nothing]"));
        }
        Ok(_) => panic!("found"),
    }
}

#[test]
fn the_manager_is_the_node_that_was_elected() {
    let nodes = vec![node("a", &["data"]), node("b", &["data"])];
    let t = cat_manager(&nodes, &Some(NodeId("b".into())), "a", "a-name");
    assert_eq!(column(&t, "id"), ["b"]);
    assert_eq!(column(&t, "node"), ["b-name"]);
    let t = cat_manager(&nodes, &None, "me", "my-name");
    assert_eq!(column(&t, "id"), ["me"]);
}

#[test]
fn a_node_reports_its_own_figures_and_no_other_ones() {
    let mut other = node("other1", &["master", "data", "ml"]);
    other.http_address = "h:1".into();
    let nodes = vec![node("mine01", &["ingest", "data", "cluster_manager"]), other];
    let t = cat_nodes(
        &nodes,
        &resources(),
        &Some(NodeId("other1".into())),
        &NodeId("mine01".into()),
        &Some("false".into()),
        &None,
    );
    assert_eq!(column(&t, "id"), ["mine", "othe"]);
    assert_eq!(column(&t, "master"), ["-", "*"]);
    assert_eq!(column(&t, "node.role"), ["dim", "dm"]);
    assert_eq!(column(&t, "node.roles"), ["ingest,data,cluster_manager", "master,data,ml"]);
    assert_eq!(column(&t, "http"), ["10.0.0.1:9200", "h:1"]);
    assert_eq!(column(&t, "heap.percent"), ["50", ""]);
    assert_eq!(column(&t, "ram.current"), ["3kb", ""]);
    assert_eq!(column(&t, "load_15m"), ["0.30", ""]);
    assert_eq!(column(&t, "diskUsed"), ["1.9kb", ""]);
    assert_eq!(column(&t, "diskUsedPercent"), ["66.67", ""]);
    assert_eq!(t.columns.len(), 24);
    assert!(t.usual.contains(&"cpu"));
    let full = cat_nodes(&nodes, &resources(), &None, &NodeId("x".into()), &Some("true".into()), &None);
    assert_eq!(column(&full, "id"), ["mine01", "other1"]);
    assert_eq!(column(&full, "pid"), ["7", "7"]);
}

#[test]
fn a_size_may_be_asked_for_in_a_unit() {
    assert_eq!(sized_in(&None, 2048), "2kb");
    assert_eq!(sized_in(&Some("b".into()), 2048), "2048");
    assert_eq!(sized_in(&Some("kb".into()), 3000), "2");
    assert_eq!(sized_in(&Some("nonsense".into()), 3000), "2.9kb");
}

#[test]
fn a_copy_is_described_by_the_node_it_is_on() {
    let nodes = vec![node("a", &["data"]), node("b", &["data"])];
    let mut moving = copy("i", 0, false, ShardState::Relocating, Some("b"));
    moving.relocating_node = Some(NodeId("a".into()));
    let mut waiting = copy("i", 1, false, ShardState::Unassigned, None);
    waiting.unassigned = Some(UnassignedInfo {
        reason: "NODE_LEFT".into(),
        at_millis: 0,
        delayed: false,
        allocation_status: "no_attempt".into(),
        failed_allocations: 0,
        details: Some("gone".into()),
    });
    let t = table(
        "i",
        vec![
            vec![moving, copy("i", 0, true, ShardState::Started, Some("a"))],
            vec![waiting, copy("i", 1, true, ShardState::Started, Some("a"))],
        ],
    );
    let holdings = vec![(
        "i".to_string(),
        Held { docs: vec![3, 1], size: 4096, shards: Some(2), replicas: Some(1) },
    )];
    let asked = |me: &str, forwarded: bool| Asked {
        nodes: &nodes,
        me: NodeId(me.into()),
        name: format!("{me}-name"),
        forwarded,
        unit: None,
    };
    let at_a = cat_shards(&asked("a", false), &t, &holdings, vec!["i".into()], &None);
    assert_eq!(column(&at_a, "shard"), ["0", "1", "1"]);
    assert_eq!(column(&at_a, "prirep"), ["p", "p", "r"]);
    assert_eq!(column(&at_a, "docs"), ["3", "1", ""]);
    assert_eq!(column(&at_a, "store"), ["3kb", "1kb", ""]);
    assert_eq!(column(&at_a, "unassigned.reason"), ["", "", "NODE_LEFT"]);
    assert_eq!(column(&at_a, "unassigned.at"), ["", "", "1970-01-01T00:00:00.000Z"]);
    assert_eq!(column(&at_a, "unassigned.details"), ["", "", "gone"]);
    let at_b = cat_shards(&asked("b", true), &t, &Vec::new(), Vec::new(), &None);
    assert_eq!(column(&at_b, "node"), ["b-name -> 10.0.0.1 a a-name"]);
    assert_eq!(column(&at_b, "docs"), ["0"]);
    let none = cat_shards(&asked("a", false), &t, &holdings, Vec::new(), &Some("j*".into()));
    assert!(none.rows.is_empty());
}

#[test]
fn an_index_that_is_not_published_is_this_nodes_alone() {
    let nodes = vec![node("a", &["data"])];
    let asked = Asked {
        nodes: &nodes,
        me: NodeId("a".into()),
        name: "a-name".into(),
        forwarded: false,
        unit: Some("b".into()),
    };
    let holdings =
        vec![("i".to_string(), Held { docs: vec![], size: 10, shards: Some(0), replicas: Some(2) })];
    let t = cat_shards(
        &asked,
        &RoutingTable { indices: Vec::new() },
        &holdings,
        vec!["i".into()],
        &None,
    );
    assert_eq!(column(&t, "prirep"), ["p", "r", "r"]);
    assert_eq!(column(&t, "state"), ["STARTED", "UNASSIGNED", "UNASSIGNED"]);
    assert_eq!(column(&t, "store"), ["10", "", ""]);
    assert_eq!(column(&t, "unassigned.reason"), ["", "INDEX_CREATED", "INDEX_CREATED"]);
    assert_eq!(column(&t, "node"), ["a-name", "", ""]);
}

#[test]
fn a_template_is_listed_with_what_it_is_made_of() {
    let all = vec![
        (
            "z".to_string(),
            json(r#"{"index_patterns": ["a*", "b*"], "order": 3, "version": 7}"#),
        ),
        (
            "m".to_string(),
            json(
                r#"{"index_patterns": ["c*"], "__composable":
                    {"priority": 5, "composed_of": ["x", "y"]}}"#,
            ),
        ),
    ];
    let t = templates(&all, &None);
    assert_eq!(column(&t, "name"), ["m", "z"]);
    assert_eq!(column(&t, "index_patterns"), ["[c*]", "[a*, b*]"]);
    assert_eq!(column(&t, "order"), ["5", "3"]);
    assert_eq!(column(&t, "version"), ["", "7"]);
    assert_eq!(column(&t, "composed_of"), ["[x,y]", ""]);
    assert_eq!(column(&templates(&all, &Some("q, z*".into())), "name"), ["z"]);
    assert_eq!(column(&templates(&all, &Some("*".into())), "name").len(), 2);
}

#[test]
fn the_shorter_tables_say_what_they_hold() {
    let t = segments(&vec![("i".to_string(), vec![(3, 1), (2, 0)])], "n");
    assert_eq!(column(&t, "segment"), ["_0", "_1"]);
    assert_eq!(column(&t, "docs.deleted"), ["1", "0"]);
    let t = fielddata(
        &vec![(
            vec![("z".to_string(), 2048), ("b".to_string(), 1), ("a".to_string(), 10)],
            vec!["a".to_string(), "z".to_string()],
        )],
        &None,
        "id",
        "n",
    );
    assert_eq!(column(&t, "field"), ["a", "z"]);
    assert_eq!(column(&t, "size"), ["10b", "2kb"]);
    let t = fielddata(&vec![(vec![("z".to_string(), 1)], vec!["z".to_string()])], &Some("a, z".into()), "id", "n");
    assert_eq!(column(&t, "field"), ["z"]);
    let t = repositories(&vec![("b".to_string(), json(r#"{"type": "s3"}"#)), ("a".to_string(), json("{}"))]);
    assert_eq!(column(&t, "id"), ["a", "b"]);
    assert_eq!(column(&t, "type"), ["fs", "s3"]);
    let t = nodeattrs(&vec![("rack".to_string(), "r1".to_string())], "n");
    assert_eq!(column(&t, "attr"), ["rack"]);
    assert_eq!(column(&t, "value"), ["r1"]);
    assert!(pit_segments().rows.is_empty());
    assert_eq!(empty(&PENDING_TASKS).columns, ["insertOrder", "timeInQueue", "priority", "source"]);
    assert_eq!(repositories_asked(&Some("a, b".into()), Vec::new()), ["a", "b"]);
    assert_eq!(repositories_asked(&Some("".into()), vec!["c".into()]), ["c"]);
}

#[test]
fn a_recovery_says_how_a_shard_came_to_be_there() {
    let t = recovery(
        &vec![
            Recovered { index: "b".into(), restored: true, docs: 1, closed: false, shards: 1 },
            Recovered { index: "a".into(), restored: false, docs: 0, closed: false, shards: 2 },
            Recovered { index: "c".into(), restored: false, docs: 0, closed: true, shards: 1 },
        ],
        "n",
    );
    assert_eq!(column(&t, "index"), ["a", "a", "b", "c"]);
    assert_eq!(column(&t, "shard"), ["0", "1", "0", "0"]);
    assert_eq!(column(&t, "type"), ["empty_store", "empty_store", "snapshot", "existing_store"]);
    assert_eq!(t.columns.len(), 26);
    assert_eq!(t.rows[0].len(), 26);
}

#[test]
fn a_snapshot_that_is_not_whole_says_so() {
    let t = snapshots(&vec![(
        "s".to_string(),
        json(
            r#"{"state": "PARTIAL", "indices": ["a", "b"],
                "shards": {"total": 3, "failed": 1, "successful": 2}}"#,
        ),
    )]);
    assert_eq!(column(&t, "status"), ["PARTIAL"]);
    assert_eq!(column(&t, "indices"), ["2"]);
    assert_eq!(column(&t, "successful_shards"), ["2"]);
    assert_eq!(column(&t, "failed_shards"), ["1"]);
    assert_eq!(column(&snapshots(&vec![("s".to_string(), json("{}"))]), "status"), ["SUCCESS"]);
}

#[test]
fn a_path_leads_to_its_table() {
    let nodes = vec![node("a", &["data"]), node("b", &["data"])];
    let routing = table("i", vec![vec![copy("i", 0, true, ShardState::Started, Some("a"))]]);
    let facts = Facts {
        nodes: &nodes,
        manager: Some(NodeId("b".into())),
        me: NodeId("a".into()),
        name: "a-name".into(),
        resources: resources(),
        forwarded: false,
        full_id: None,
        unit: None,
        table: &routing,
        local: vec!["i".into()],
        holdings: vec![("i".into(), Held { docs: vec![3], size: 30, shards: Some(1), replicas: Some(0) })],
        recovered: vec![Recovered { index: "i".into(), restored: false, docs: 3, closed: false, shards: 1 }],
        templates: vec![("t".into(), json("{}"))],
        segments: vec![("i".into(), vec![(3, 1)])],
        fields: vec![(vec![("f".into(), 1)], vec!["f".into()])],
        repositories: vec![("r".into(), json("{}")), ("q".into(), json("{}"))],
        snapshots: vec![
            ("r".into(), vec![("s2".into(), json("{}")), ("s1".into(), json("{}"))]),
            ("q".into(), vec![("s0".into(), json("{}"))]),
        ],
        attributes: vec![("zone".into(), "z".into())],
    };
    let of = |what: &str, target: Option<&str>| {
        cat(what, &target.map(String::from), &facts).ok().unwrap().unwrap()
    };
    assert_eq!(column(&of("master", None), "id"), ["b"]);
    assert_eq!(column(&of("nodes", None), "name"), ["a-name", "b-name"]);
    assert_eq!(column(&of("templates", None), "name"), ["t"]);
    assert_eq!(column(&of("shards", None), "docs"), ["3"]);
    assert_eq!(column(&of("segments", None), "docs.deleted"), ["1"]);
    assert_eq!(column(&of("fielddata", None), "field"), ["f"]);
    assert_eq!(column(&of("recovery", None), "type"), ["existing_store"]);
    assert_eq!(column(&of("repositories", None), "id"), ["q", "r"]);
    assert_eq!(column(&of("snapshots", None), "id"), ["s0", "s1", "s2"]);
    assert_eq!(column(&of("snapshots/x", Some("r, none")), "id"), ["s1", "s2"]);
    assert_eq!(column(&of("nodeattrs", None), "value"), ["z"]);
    assert_eq!(of("pit_segments", None).columns.len(), 15);
    assert_eq!(of("plugins", None).columns, ["name", "component", "version"]);
    assert_eq!(of("tasks", None).rows.len() + of("pending_tasks", None).rows.len(), 0);
    assert!(matches!(cat("health", &None, &facts), Ok(None)));
    assert_eq!(cat("nothing", &None, &facts).err().unwrap().status, 400);
}

#[test]
fn a_share_of_a_disk_is_rounded_as_it_is_shown() {
    for (used, all) in [(1u64, 800u64), (3, 800), (5, 800), (7, 800), (2, 3), (1, 7), (0, 9), (9, 9)] {
        let here = Resources { disk: Some((all, all - used)), ..resources() };
        let nodes = vec![node("a", &["data"])];
        let t = cat_nodes(&nodes, &here, &None, &NodeId("a".into()), &None, &None);
        let shown = format!("{:.2}", used as f64 * 100.0 / all as f64);
        assert_eq!(column(&t, "diskUsedPercent"), [shown], "{used} of {all}");
    }
}
