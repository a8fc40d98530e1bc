use velosearch::api::answer::Answer;
use velosearch::api::snapshot::begin::{create_snapshot, Asking};
use velosearch::api::snapshot::create::{
    account, could_not_write, created, finish, index_meta, indices_asked, lenient, may_create,
    missing_index, nowhere_to_write, shard_total, snapshot_record, streams_asked_for,
    without_primaries, Outcome,
};
use velosearch::api::snapshot::duplicate::{clone_snapshot, may_clone};
use velosearch::api::snapshot::pick::{
    delete_snapshot, get_snapshot, learn, pick_from_memory, pick_snapshots, show_snapshots,
};
use velosearch::api::snapshot::plan::{
    may_be_asked, plan_shards, shards_asked, shards_held, shards_request, take_reply, Reply,
};
use velosearch::api::snapshot::end::{does_add_up, end_snapshot};
use velosearch::api::snapshot::member::{
    could_not_mark, mark_for, mark_refused, mark_request, shards_answer, snapshot_install,
    write_verify_blob,
};
use velosearch::api::snapshot::repository::{
    allowed_urls, bad_snapshot_lookup, bad_snapshot_name, cleanup_repository, delete_repository,
    get_repository, mark_directory, mark_of, marks_failed, nodes_asked, put_repository,
    refresh_readonly, refuse_if_readonly, repository_verification_failed, unreachable_here,
    verify_asked, verify_repository, verify_round, Whereabouts,
};
use velosearch::api::snapshot::restore::{
    choose_indices, global_asked, keep_all, rename, rename_to, restore_answer,
    streams_back, take_place, undo, Action, Made, Replaces, Standing,
};
use velosearch::api::snapshot::restoring::{restore_snapshot, Event, Restoring, Todo};
use velosearch::api::snapshot::status::{
    indices_reported, is_countable, snapshot_status_running, status_answer, status_of, status_refused, Kept,
};
use velosearch::cluster::state::{IndexRouting, NodeId, RoutingTable, ShardRouting, ShardState};
use velosearch::json::{Json, Number};

fn to_json(v: &serde_json::Value) -> Json {
    match v {
        serde_json::Value::Null => Json::Null,
        serde_json::Value::Bool(b) => Json::Bool(*b),
        serde_json::Value::Number(n) => Json::Number(match (n.as_u64(), n.as_i64()) {
            (Some(u), _) => Number::Whole(u),
            (None, Some(i)) => Number::Below(i),
            _ => Number::Decimal(n.to_string()),
        }),
        serde_json::Value::String(s) => Json::Text(s.clone()),
        serde_json::Value::Array(a) => Json::List(a.iter().map(to_json).collect()),
        serde_json::Value::Object(o) => {
            Json::Object(o.iter().map(|(k, v)| (k.clone(), to_json(v))).collect())
        }
    }
}

fn json(text: &str) -> Json {
    to_json(&serde_json::from_str(text).unwrap())
}

fn reads_as(j: &Json, text: &str) {
    let found: serde_json::Value = serde_json::from_str(&j.render()).unwrap();
    let wanted: serde_json::Value = serde_json::from_str(text).unwrap();
    assert_eq!(found, wanted);
}

fn strings(v: &[&str]) -> Vec<String> {
    v.iter().map(|s| s.to_string()).collect()
}

fn value(j: &Json) -> serde_json::Value {
    serde_json::from_str(&j.render()).unwrap()
}

fn said(a: &Answer) -> (u16, String, String) {
    let v = value(&a.body);
    (
        a.status,
        v["error"]["type"].as_str().unwrap().to_string(),
        v["error"]["reason"].as_str().unwrap().to_string(),
    )
}

fn somewhere() -> Whereabouts {
    Whereabouts { located: true, url: None, allowed: false }
}

fn primary(index: &str, shard: u32, state: ShardState, node: Option<&str>) -> ShardRouting {
    ShardRouting {
        index: index.into(),
        shard,
        primary: true,
        state,
        node: node.map(|n| NodeId(n.into())),
        relocating_node: None,
        allocation_id: None,
        unassigned: None,
    }
}

fn table() -> RoutingTable {
    RoutingTable {
        indices: vec![IndexRouting {
            name: "i".into(),
            shards: vec![
                vec![primary("i", 0, ShardState::Started, Some("b"))],
                vec![primary("i", 1, ShardState::Relocating, Some("me"))],
                vec![primary("i", 2, ShardState::Initializing, Some("b"))],
                vec![primary("i", 3, ShardState::Started, Some("b"))],
            ],
        }],
    }
}

#[test]
fn a_repository_has_to_be_one_that_can_be_read() {
    let r = |body: &str, w: Whereabouts| put_repository("r", &json(body), &w);
    assert!(r(r#"{"type": "fs", "settings": {"location": "x"}}"#, somewhere()).is_none());
    assert_eq!(
        said(&r("{}", somewhere()).unwrap()),
        (400, "repository_exception".into(), "[r] missing repository type".into())
    );
    assert_eq!(
        said(&r(r#"{"type": "tape"}"#, somewhere()).unwrap()),
        (500, "repository_exception".into(), "[r] repository type [tape] does not exist".into())
    );
    let outside = r(
        r#"{"type": "fs", "settings": {"location": "../x"}}"#,
        Whereabouts { located: false, url: None, allowed: false },
    )
    .unwrap();
    let v = value(&outside.body);
    assert_eq!(outside.status, 500);
    assert_eq!(v["error"]["reason"], "[r] failed to create repository");
    assert_eq!(
        v["error"]["caused_by"]["reason"],
        "[r] location [../x] doesn't match any of the locations specified by path.repo"
    );
    assert_eq!(v["error"]["caused_by"], v["error"]["root_cause"][0]);
    let url = Whereabouts { located: false, url: Some("http://x".into()), allowed: false };
    assert_eq!(
        said(&r(r#"{"type": "url"}"#, url).unwrap()),
        (
            400,
            "repository_exception".into(),
            "[r] file url [http://x] doesn't match any of the locations specified by path.repo or \
             repositories.url.allowed_urls"
                .into()
        )
    );
}

#[test]
fn a_repository_is_listed_with_its_settings_as_text() {
    let all = vec![
        ("a".to_string(), json(r#"{"type": "fs", "settings": {"compress": true, "n": 3, "s": "x"}}"#)),
        ("b".to_string(), json(r#"{"type": "s3"}"#)),
    ];
    let a = get_repository(&all, "a*");
    assert_eq!(a.status, 200);
    reads_as(
        &a.body,
        r#"{"a": {"type": "fs", "settings": {"compress": "true", "n": "3", "s": "x"}}}"#,
    );
    assert_eq!(value(&get_repository(&all, "").body).as_object().unwrap().len(), 2);
    assert_eq!(
        said(&get_repository(&all, "c")),
        (404, "repository_missing_exception".into(), "[c] missing".into())
    );
    assert_eq!(get_repository(&all, "c*").status, 200);
    assert_eq!(delete_repository(0, "c").status, 404);
    reads_as(&delete_repository(0, "c*").body, r#"{"acknowledged": true}"#);
    reads_as(&delete_repository(1, "c").body, r#"{"acknowledged": true}"#);
    reads_as(
        &cleanup_repository(true, "c").body,
        r#"{"results": {"deleted_bytes": 0, "deleted_blobs": 0}}"#,
    );
    assert_eq!(cleanup_repository(false, "c").status, 404);
}

#[test]
fn a_setting_that_names_nothing_hides_nothing() {
    let node = Some("http://a/*, http://b".to_string());
    assert_eq!(allowed_urls(&Some(Json::Null), &node), ["http://a/*", "http://b"]);
    assert_eq!(allowed_urls(&Some(json(r#"["http://c", 1]"#)), &node), ["http://c"]);
    assert_eq!(allowed_urls(&Some(json(r#""x, y""#)), &node), ["x", "y"]);
    assert!(allowed_urls(&None, &None).is_empty());
}

#[test]
fn a_repository_nothing_writes_to_says_so() {
    assert!(refuse_if_readonly("r", &json("{}"), false).is_none());
    assert!(refuse_if_readonly("r", &json(r#"{"settings": {"readonly": "no"}}"#), false).is_none());
    for (def, url) in [
        ("{}", true),
        (r#"{"settings": {"readonly": true}}"#, false),
        (r#"{"settings": {"readonly": "true"}}"#, false),
    ] {
        assert_eq!(
            said(&refuse_if_readonly("r", &json(def), url).unwrap()),
            (
                400,
                "repository_exception".into(),
                "[r] cannot delete snapshot from a readonly repository".into()
            )
        );
    }
    assert!(refresh_readonly(false, 3));
    assert!(refresh_readonly(true, 0));
    assert!(!refresh_readonly(true, 3));
}

#[test]
fn a_name_is_a_segment_and_never_a_route() {
    for bad in ["", "_a", "a b", "a/b", "a\\b", "a*", "a?", "a\"", "<", ">", "|", "a,b", "#", ".", "..", "A", "\u{394}"] {
        let a = bad_snapshot_name("r", bad);
        assert!(a.is_some(), "{bad}");
        assert_eq!(said(&a.unwrap()).1, "invalid_snapshot_name_exception");
    }
    for good in ["a", "a.b", "a-1", "\u{3b4}"] {
        assert!(bad_snapshot_name("r", good).is_none(), "{good}");
    }
    assert!(bad_snapshot_lookup("r", "a*,B").is_none());
    assert!(said(&bad_snapshot_lookup("r", "a*,..,x").unwrap()).2.contains("[r:..]"));
    assert!(said(&bad_snapshot_lookup("r", "a/b").unwrap()).2.starts_with("[r:a/b] Invalid snapshot name [a/b]"));
}

#[test]
fn a_repository_is_verified_unless_it_is_told_not_to_be() {
    assert!(verify_asked(&None));
    assert!(verify_asked(&Some("true".into())));
    assert!(!verify_asked(&Some(" false ".into())));
    assert!(!verify_asked(&Some("0".into())));
}

#[test]
fn a_repository_every_node_cannot_reach_is_not_one() {
    let nodes = vec![("a".to_string(), "A".to_string()), ("b".to_string(), "B".to_string())];
    let mine: Option<String> = None;
    let failed = marks_failed(
        &mine,
        &vec![("b".to_string(), Some("did not answer".to_string())), ("c".to_string(), Some("x".to_string()))],
    );
    assert_eq!(failed.as_deref(), Some("node [b] did not answer"));
    assert_eq!(marks_failed(&Some("no".into()), &vec![]).as_deref(), Some("no"));
    assert!(verify_round(&nodes, &failed, true, &vec![], "t").is_err());
    let good = vec![Some("t".to_string()), Some("t".to_string())];
    assert!(verify_round(&nodes, &None, true, &good, "t").is_ok());
    let why = verify_round(&nodes, &None, true, &vec![Some("t".into()), None], "t").unwrap_err();
    assert!(why.starts_with("node [b] left its mark"));
    assert!(verify_round(&nodes, &None, false, &vec![None, None], "t").is_ok());
    assert_eq!(mark_of(&mark_directory("tok"), "n"), "tests-tok/n.dat");
    assert_eq!(nodes_asked(Vec::new(), "x", "X"), [("x".to_string(), "X".to_string())]);
    assert_eq!(nodes_asked(nodes.clone(), "x", "X").len(), 2);
    reads_as(
        &verify_repository(&nodes).body,
        r#"{"nodes": {"a": {"name": "A"}, "b": {"name": "B"}}}"#,
    );
    let a = repository_verification_failed("r", "why");
    assert_eq!(said(&a), (500, "repository_verification_exception".into(), "[r] cannot be verified".into()));
    assert_eq!(value(&a.body)["error"]["caused_by"]["reason"], "why");
    assert!(unreachable_here("r").starts_with("[r] is not a repository this node can reach"));
}

#[test]
fn a_plan_gives_every_shard_to_somebody() {
    let t = table();
    let me = Some(NodeId("me".into()));
    let plan = plan_shards(
        &strings(&["i", "unknown"]),
        &vec![("i".to_string(), 5)],
        Some((&t, &me)),
    );
    assert_eq!(plan.shards, [("i".to_string(), 5)]);
    assert_eq!(plan.work.len(), 2);
    assert_eq!(plan.work[0].node.as_ref().unwrap().as_str(), "b");
    assert_eq!(plan.work[0].shards, [0, 3]);
    assert!(plan.work[1].node.is_none());
    assert_eq!(plan.work[1].shards, [1]);
    let left: Vec<u32> = plan.unassigned.iter().map(|u| u.shard).collect();
    assert_eq!(left, [2, 4]);
    assert_eq!(plan.unassigned[0].reason, "primary shard is not allocated");
    let alone = plan_shards(&strings(&["i"]), &vec![("i".to_string(), 0)], None);
    assert_eq!(alone.work[0].shards, [0]);
    reads_as(
        &shards_request(&json("{}"), "s", &plan.work[0]),
        r#"{"repository": {}, "snapshot": "s", "index": "i", "shards": [0, 3]}"#,
    );
}

#[test]
fn only_a_primary_this_node_holds_is_written_from_it() {
    let (mine, failed) = shards_held(&table(), &NodeId("me".into()), "i", &vec![0, 1, 2]);
    assert_eq!(mine, [1]);
    let names: Vec<&str> = failed.iter().map(|(k, _)| k.as_str()).collect();
    assert_eq!(names, ["0", "2"]);
    reads_as(&failed[0].1, "\"this node no longer holds the primary\"");
    assert_eq!(shards_asked(&json(r#"{"shards": [1, "x", 2, -1]}"#)), [1, 2]);
    assert!(shards_asked(&json("{}")).is_empty());
    assert!(may_be_asked("a", "a", &vec![]));
    assert!(may_be_asked("b", "a", &strings(&["b"])));
    assert!(!may_be_asked("c", "a", &strings(&["b"])));
    assert_eq!(take_reply("n", Reply::Silence).err().unwrap(), "node [n] did not answer");
    assert_eq!(take_reply("n", Reply::Nonsense).err().unwrap(), "node [n] answered nonsense");
    assert_eq!(take_reply("n", Reply::Error("e".into())).err().unwrap(), "e");
    assert!(take_reply("n", Reply::Said(Json::Null)).is_ok());
}

#[test]
fn a_snapshot_is_refused_before_it_starts() {
    let def = json("{}");
    assert!(may_create("r", "s", Some(&def), false, false).is_none());
    assert_eq!(said(&may_create("r", "S", Some(&def), false, false).unwrap()).1, "invalid_snapshot_name_exception");
    assert_eq!(said(&may_create("r", "s", None, false, false).unwrap()).0, 404);
    assert_eq!(said(&may_create("r", "s", Some(&def), true, true).unwrap()).1, "repository_exception");
    assert_eq!(
        said(&may_create("r", "s", Some(&def), false, true).unwrap()).2,
        "[r:s] Invalid snapshot name [s], snapshot with the same name already exists"
    );
    assert_eq!(
        said(&nowhere_to_write("r", "s")).2,
        "[r] has nowhere to write snapshot [s]: the repository has no usable location"
    );
    assert_eq!(said(&could_not_write("r", "s", "full")).2, "[r] could not write snapshot [s]: full");
}

#[test]
fn the_indices_asked_for_are_an_expression() {
    assert_eq!(indices_asked(&json(r#"{"indices": "a,b"}"#)).as_deref(), Some("a,b"));
    assert_eq!(indices_asked(&json(r#"{"indices": ["a", 1, "b"]}"#)).as_deref(), Some("a,b"));
    assert_eq!(indices_asked(&json("{}")), None);
    assert_eq!(missing_index("a, b ,c*", &strings(&["b", "c*"]), false).as_deref(), Some("b"));
    assert_eq!(missing_index("a,b", &strings(&["b"]), true), None);
    assert!(lenient(true, &json("{}")));
    assert!(lenient(false, &json(r#"{"ignore_unavailable": true}"#)));
    assert!(!lenient(false, &json(r#"{"ignore_unavailable": "true"}"#)));
}

#[test]
fn a_stream_is_kept_when_it_is_asked_for_by_name() {
    let held = strings(&["logs-b", "logs-a", "metrics"]);
    assert_eq!(streams_asked_for(&held, &None), ["logs-a", "logs-b", "metrics"]);
    assert_eq!(streams_asked_for(&held, &Some("logs-*".into())), ["logs-a", "logs-b"]);
    assert_eq!(streams_asked_for(&held, &Some("x, metrics".into())), ["metrics"]);
    assert!(streams_asked_for(&held, &Some(".ds-logs-a-000001".into())).is_empty());
}

#[test]
fn every_shard_is_written_or_failed_with_the_reason() {
    let t = table();
    let me = Some(NodeId("me".into()));
    let plan = plan_shards(&strings(&["i"]), &vec![("i".to_string(), 4)], Some((&t, &me)));
    let outcomes = vec![
        Outcome::Done(json(
            r#"{"shards": {"0": {"size_in_bytes": 5}}, "failed": {"3": "no room"}, "meta": {"from": "b"}}"#,
        )),
        Outcome::Done(json(r#"{"shards": {"1": {}}, "meta": {"from": "me"}}"#)),
    ];
    let a = account(&plan, &outcomes, &Some("me".into()));
    assert_eq!(a.failures.len(), 2);
    assert_eq!((a.failures[0].shard, a.failures[0].node.as_deref()), (2, None));
    assert_eq!((a.failures[1].shard, a.failures[1].node.as_deref()), (3, Some("b")));
    assert_eq!(a.failures[1].reason, "no room");
    let written: Vec<&str> = a.written[0].1.iter().map(|(k, _)| k.as_str()).collect();
    assert_eq!(written, ["0", "1"]);
    reads_as(&index_meta(&a, "i", 4), r#"{"from": "me"}"#);
    reads_as(&index_meta(&a, "j", 2), r#"{"name": "j", "number_of_shards": 2}"#);
    let total = shard_total(&plan.shards);
    assert_eq!(total, 4);
    let record = snapshot_record("s", "u", "now", &strings(&["i"]), &vec![], true, 4);
    let done = finish(record, a.failures, total, 100, 130);
    let v = value(&Json::Object(done));
    assert_eq!(v["state"], "PARTIAL");
    assert_eq!(v["shards"]["failed"], 2);
    assert_eq!(v["shards"]["successful"], 2);
    assert_eq!(v["duration_in_millis"], 30);
    assert_eq!(v["failures"][0]["shard_id"], 2);
    assert!(v["failures"][0]["node_id"].is_null());
    assert_eq!(v["failures"][1]["status"], "INTERNAL_SERVER_ERROR");
    assert_eq!(v["version_id"], 136_217_827);
}

#[test]
fn a_snapshot_is_whole_or_not_at_all_or_in_part() {
    let record = || snapshot_record("s", "u", "now", &vec![], &vec![], false, 1);
    let plan = plan_shards(&strings(&["i"]), &vec![("i".to_string(), 1)], None);
    let state = |o: Outcome| {
        let a = account(&plan, &vec![o], &None);
        value(&Json::Object(finish(record(), a.failures, 1, 9, 3)))
    };
    let whole = state(Outcome::Done(json(r#"{"shards": {"0": {}}}"#)));
    assert_eq!(whole["state"], "SUCCESS");
    assert_eq!(whole["duration_in_millis"], 0);
    assert_eq!(state(Outcome::Failed("why".into()))["state"], "FAILED");
    assert_eq!(state(Outcome::Failed("why".into()))["failures"][0]["reason"], "why");
    assert_eq!(state(Outcome::Done(json("{}")))["failures"][0]["reason"], "the shard was not written");
    assert_eq!(state(Outcome::Lost)["state"], "SUCCESS");
    reads_as(&created(record(), &None).body, r#"{"accepted": true}"#);
    reads_as(&created(record(), &Some("false".into())).body, r#"{"accepted": true}"#);
    assert_eq!(value(&created(record(), &Some("".into())).body)["snapshot"]["snapshot"], "s");
}

#[test]
fn failures_are_listed_by_index_and_shard() {
    let t = RoutingTable { indices: Vec::new() };
    let me = None;
    let plan = plan_shards(
        &strings(&["b", "a"]),
        &vec![("a".to_string(), 2), ("b".to_string(), 1)],
        Some((&t, &me)),
    );
    let a = account(&plan, &vec![], &None);
    let v = value(&Json::Object(finish(Vec::new(), a.failures, 3, 0, 0)));
    let order: Vec<String> = v["failures"]
        .as_array()
        .unwrap()
        .iter()
        .map(|f| format!("{}{}", f["index"].as_str().unwrap(), f["shard_id"]))
        .collect();
    assert_eq!(order, ["a0", "a1", "b0"]);
    let refused = without_primaries("r", "s", "u", &plan.unassigned, false).unwrap();
    assert_eq!(
        said(&refused),
        (500, "snapshot_exception".into(), "[r:s/u] Indices don't have primary shards [b, a]".into())
    );
    assert!(without_primaries("r", "s", "u", &plan.unassigned, true).is_none());
    assert!(without_primaries("r", "s", "u", &vec![], false).is_none());
}

#[test]
fn snapshots_are_picked_by_name_and_by_pattern() {
    let held = vec![
        ("a1".to_string(), json(r#"{"snapshot": "a1"}"#)),
        ("a2".to_string(), json(r#"{"snapshot": "a2"}"#)),
        ("b".to_string(), json(r#"{"snapshot": "b"}"#)),
    ];
    let names = |v: &Vec<Json>| -> Vec<String> {
        v.iter().map(|j| value(j)["snapshot"].as_str().unwrap().to_string()).collect()
    };
    let (found, gone) = pick_from_memory(&held, "b, a*");
    assert_eq!(names(&found), ["a1", "a2", "b"]);
    assert_eq!(gone, None);
    assert_eq!(names(&pick_from_memory(&held, "_all").0).len(), 3);
    let (found, gone) = pick_from_memory(&held, "c,b,d");
    assert_eq!(names(&found), ["b"]);
    assert_eq!(gone.as_deref(), Some("d"));
    let records = Some(vec![
        ("d".to_string(), json(r#"{"snapshot": "d"}"#)),
        ("b".to_string(), json(r#"{"snapshot": "other"}"#)),
    ]);
    let (found, gone) = pick_snapshots(&held, &records, "d,b");
    assert_eq!(names(&found), ["b", "d"]);
    assert_eq!(gone, None);
    assert_eq!(pick_snapshots(&held, &None, "d").1.as_deref(), Some("d"));
    assert_eq!(pick_snapshots(&held, &records, "e").1.as_deref(), Some("e"));
    let mut more = held;
    learn(&mut more, &records.unwrap());
    assert_eq!(more.len(), 4);
}

#[test]
fn a_listing_is_shorter_than_a_record() {
    let one = json(r#"{"snapshot": "s", "uuid": "u", "state": "SUCCESS", "indices": [], "extra": 1}"#);
    let a = show_snapshots("r", vec![one.clone()], &None, false, true);
    reads_as(
        &a.body,
        r#"{"snapshots": [{"snapshot": "s", "uuid": "u", "state": "SUCCESS", "indices": [],
            "data_streams": null}]}"#,
    );
    assert!(show_snapshots("r", vec![one], &None, false, false).body.render().contains("extra"));
    let gone = show_snapshots("r", vec![], &Some("x".into()), false, false);
    assert_eq!(said(&gone), (404, "snapshot_missing_exception".into(), "[r:x] is missing".into()));
    assert_eq!(show_snapshots("r", vec![], &Some("x".into()), true, false).status, 200);
}

#[test]
fn a_delete_lets_go_of_what_its_name_reaches() {
    let held = strings(&["a1", "a2", "b"]);
    let def = json("{}");
    assert_eq!(delete_snapshot("r", "a*", Some(&def), false, &held).ok().unwrap(), ["a1", "a2"]);
    assert!(delete_snapshot("r", "z*", Some(&def), false, &held).ok().unwrap().is_empty());
    let why = |n: &str, d: Option<&Json>, url: bool| said(&delete_snapshot("r", n, d, url, &held).err().unwrap());
    assert_eq!(why("z", Some(&def), false).1, "snapshot_missing_exception");
    assert_eq!(why("z", Some(&def), true).1, "snapshot_missing_exception");
    assert_eq!(why("b", Some(&def), true).1, "repository_exception");
    assert_eq!(why("b", None, false).1, "repository_missing_exception");
    assert_eq!(why("..", None, false).1, "invalid_snapshot_name_exception");
}

#[test]
fn a_status_counts_what_was_written() {
    let s = json(
        r#"{"snapshot": "s", "uuid": "u", "state": "PARTIAL", "indices": ["i", "j"],
            "include_global_state": true, "start_time_in_millis": 5, "duration_in_millis": 7}"#,
    );
    let kept = vec![
        Kept {
            index: "i".into(),
            found: Some((
                json(
                    r#"{"number_of_shards": 2, "shards": {"0": {"size_in_bytes": 10,
                        "start_time_in_millis": 6, "time_in_millis": 1}},
                        "failed_shards": {"1": "no room"}}"#,
                ),
                4,
            )),
        },
        Kept { index: "j".into(), found: None },
    ];
    assert!(is_countable(&kept));
    let v = value(&status_of("r", &s, &kept));
    assert_eq!(v["shards_stats"]["done"], 1);
    assert_eq!(v["shards_stats"]["failed"], 2);
    assert_eq!(v["shards_stats"]["total"], 3);
    assert_eq!(v["stats"]["total"]["file_count"], 2);
    assert_eq!(v["stats"]["total"]["size_in_bytes"], 14);
    assert_eq!(v["indices"]["i"]["shards"]["0"]["stage"], "DONE");
    assert_eq!(v["indices"]["i"]["shards"]["0"]["stats"]["start_time_in_millis"], 6);
    assert_eq!(v["indices"]["i"]["shards"]["1"]["reason"], "no room");
    assert_eq!(v["indices"]["j"]["shards"]["0"]["reason"], "the shard was not written");
    assert_eq!(v["repository"], "r");
    assert_eq!(v["state"], "PARTIAL");
    assert_eq!(indices_reported(&s, &Some("j, k".into())), ["j"]);
    assert_eq!(indices_reported(&s, &None), ["i", "j"]);
    let huge = |n: u64| Kept {
        index: "i".into(),
        found: Some((json(&format!("{{\"shards\": {{\"0\": {{\"size_in_bytes\": {n}}}}}}}")), 1)),
    };
    assert!(!is_countable(&vec![huge(u64::MAX)]));
    assert!(is_countable(&vec![huge(u64::MAX - 1)]));
    assert!(!is_countable(&vec![huge(u64::MAX - 1), huge(0)]));
    reads_as(&snapshot_status_running().body, r#"{"snapshots": []}"#);
}

#[test]
fn an_index_a_snapshot_does_not_hold_has_no_status() {
    let found = vec![json(r#"{"snapshot": "s", "indices": ["a"]}"#)];
    let a = status_refused("r", &found, &None, &Some("a, b*".into()), false).unwrap();
    assert_eq!(a.status, 404);
    let v = value(&a.body);
    assert_eq!(v["error"]["reason"], "no such index [b* and possibly more indices]");
    assert_eq!(
        v["error"]["caused_by"]["reason"],
        "indices [b* and possibly more indices] missing in snapshot [s] of repository [r]"
    );
    assert!(status_refused("r", &found, &None, &Some("b".into()), true).is_none());
    assert!(status_refused("r", &found, &None, &Some("a".into()), false).is_none());
    assert_eq!(said(&status_refused("r", &found, &Some("x".into()), &None, false).unwrap()).2, "[r:x] is missing");
}

#[test]
fn a_clone_is_of_what_the_snapshot_holds() {
    let source = json(
        r#"{"snapshot": "s", "indices": ["a", ".ds-logs-1", "b"], "data_streams": ["logs", "m"],
            "shards": {"total": 9}, "include_global_state": false}"#,
    );
    let (indices, record) =
        clone_snapshot("t", "u", "now", &source, &json(r#"{"indices": ".ds-*,a,zzz"}"#));
    assert_eq!(indices, ["a", ".ds-logs-1"]);
    let v = value(&Json::Object(record));
    assert_eq!(v["snapshot"], "t");
    assert_eq!(v["data_streams"], serde_json::Value::from(vec!["logs"]));
    assert_eq!(v["shards"]["total"], 9);
    assert_eq!(v["include_global_state"], false);
    assert_eq!(clone_snapshot("t", "u", "now", &source, &json("{}")).0.len(), 3);
    let def = json("{}");
    assert!(may_clone("r", "s", "t", Some(&source), false, Some(&def), false).is_none());
    let why = |n: &str, t: &str, s: Option<&Json>, taken: bool, url: bool| {
        said(&may_clone("r", n, t, s, taken, Some(&def), url).unwrap())
    };
    assert_eq!(why("S", "t", Some(&source), false, false).1, "invalid_snapshot_name_exception");
    assert_eq!(why("s", "T", Some(&source), false, false).1, "invalid_snapshot_name_exception");
    assert_eq!(why("s", "t", None, false, false).2, "[r:s] snapshot does not exist");
    assert_eq!(why("s", "t", Some(&source), true, false).1, "invalid_snapshot_name_exception");
    assert_eq!(why("s", "t", Some(&source), false, true).1, "repository_exception");
}

#[test]
fn a_restore_brings_back_what_was_asked_for_and_kept() {
    let source = json(
        r#"{"uuid": "u", "indices": ["a", "b", ".ds-logs-000001", ".ds-logs-000002"],
            "data_streams": ["logs"], "include_global_state": true}"#,
    );
    let pick = |body: &str| choose_indices("r", "s", Some(&source), &json(body), false);
    assert_eq!(pick("{}").ok().unwrap().len(), 4);
    assert_eq!(pick(r#"{"indices": "logs"}"#).ok().unwrap(), [".ds-logs-000001", ".ds-logs-000002"]);
    assert_eq!(pick(r#"{"indices": ["b", "z*"]}"#).ok().unwrap(), ["b"]);
    let why = |body: &str| pick(body).err().unwrap();
    let missing = why(r#"{"indices": "a,zz"}"#);
    assert_eq!(missing.status, 404);
    assert_eq!(value(&missing.body)["error"]["reason"], "no such index [zz]");
    assert!(value(&missing.body)["error"].get("resource.id").is_none());
    assert!(pick(r#"{"indices": "a,zz", "ignore_unavailable": true}"#).is_ok());
    assert_eq!(
        said(&why(r#"{"index_settings": {"index.number_of_shards": 3}}"#)).2,
        "[r:s/u] cannot modify UnmodifiableOnRestore setting [index.number_of_shards] on restore"
    );
    assert!(pick(r#"{"index_settings": {"index": {"uuid": "x"}}}"#).is_err());
    assert!(pick(r#"{"index_settings": {"number_of_replicas": 0}}"#).is_ok());
    let none = json(r#"{"indices": [], "include_global_state": true}"#);
    assert!(said(&choose_indices("r", "s", Some(&none), &json("{}"), false).err().unwrap())
        .2
        .starts_with("[r:s] lists no indices"));
    let global = json(r#"{"include_global_state": true}"#);
    assert!(choose_indices("r", "s", Some(&none), &global, false).is_ok());
    assert!(global_asked(&none, &global));
    assert!(!global_asked(&none, &json("{}")));
    assert_eq!(said(&choose_indices("r", "s", None, &json("{}"), false).err().unwrap()).0, 500);
    assert_eq!(said(&choose_indices("r", "..", None, &json("{}"), false).err().unwrap()).0, 400);
}

#[test]
fn a_name_may_be_given_back_changed() {
    let body = json(r#"{"rename_pattern": "logs-(.+)", "rename_replacement": "old-$1"}"#);
    assert_eq!(rename("logs-a", &body), "old-a");
    assert_eq!(rename("other", &body), "other");
    assert_eq!(rename("logs-a", &json(r#"{"rename_pattern": "("}"#)), "logs-a");
    let broken = json(r#"{"rename_pattern": "(", "rename_replacement": "x"}"#);
    assert_eq!(rename("logs-a", &broken), "logs-a");
    assert_eq!(rename_to("a", Some("b".into())), "b");
    assert_eq!(rename_to("a", None), "a");
}

#[test]
fn a_restore_takes_the_place_of_nothing_that_is_open() {
    let standing = || Standing { refused: None, resolves: 0, alias: false, here: None, elsewhere: None };
    let place = |t: &str, s: Standing| take_place("r", "s", "u", t, &s);
    assert!(matches!(place("a", standing()), Ok(Replaces::Nothing)));
    assert!(matches!(place("a", Standing { here: Some(true), ..standing() }), Ok(Replaces::ClosedHere)));
    let elsewhere = |state: &str| Standing { elsewhere: Some((state.into(), "id".into())), ..standing() };
    assert!(matches!(place("a", elsewhere("close")), Ok(Replaces::ClosedElsewhere(_))));
    let why = |t: &str, s: Standing| said(&place(t, s).err().unwrap());
    assert!(why("a", Standing { here: Some(false), ..standing() })
        .2
        .starts_with("[r:s/u] cannot restore index [a] because an open index"));
    assert_eq!(why("a", elsewhere("open")).1, "snapshot_restore_exception");
    assert_eq!(why("", standing()).2, "Invalid index name [], must not be empty, '.' or '..'");
    assert_eq!(why("..", standing()).0, 400);
    assert_eq!(why("Aa", standing()).2, "Invalid index name [Aa], must be lowercase");
    assert_eq!(why("\u{394}", standing()).1, "invalid_index_name_exception");
    assert!(why("a", Standing { alias: true, ..standing() }).2.starts_with("[a] is an alias"));
    assert_eq!(why("a", Standing { resolves: 2, ..standing() }).0, 400);
    let refused = velosearch::api::answer::err(418, "t", "no");
    assert_eq!(why("a", Standing { refused: Some(refused), ..standing() }).0, 418);
}

fn spelled(actions: &Vec<Action>) -> Vec<String> {
    actions
        .iter()
        .map(|a| match a {
            Action::Delete(t) => format!("delete {t}"),
            Action::EndRestore(t) => format!("end {t}"),
            Action::PutBack(t) => format!("put back {t}"),
            Action::LetGo(t) => format!("let go {t}"),
            Action::Open(t) => format!("open {t}"),
        })
        .collect()
}

#[test]
fn a_restore_that_fails_leaves_what_it_found() {
    let made = vec![
        Made { target: "a".into(), aside: true },
        Made { target: "b".into(), aside: false },
    ];
    assert_eq!(
        spelled(&undo(&made)),
        ["delete b", "end b", "delete a", "end a", "put back a"]
    );
    assert_eq!(
        spelled(&keep_all(&made)),
        ["end a", "let go a", "open a", "end b", "open b"]
    );
    assert_eq!(
        streams_back(
            &strings(&["logs", "m", "x"]),
            &strings(&[".ds-logs-1", ".ds-x-1"]),
            &strings(&["x"])
        ),
        ["logs"]
    );
    reads_as(
        &restore_answer("s", &strings(&["a", "b"])).body,
        r#"{"snapshot": {"snapshot": "s", "indices": ["a", "b"],
            "shards": {"total": 2, "failed": 0, "successful": 2}}}"#,
    );
    assert!(restore_answer("s", &vec![]).body.render().contains("\"total\":1"));
}

fn asking<'a>(body: &str, cluster: Option<(&'a RoutingTable, &'a Option<NodeId>)>) -> Asking<'a> {
    Asking {
        repo: "r".into(),
        name: "s".into(),
        body: json(body),
        found: Some(json("{}")),
        over_url: false,
        taken: false,
        path_lenient: false,
        absent: strings(&["zz"]),
        indices: strings(&["i"]),
        streams: strings(&["logs"]),
        counts: vec![("i".to_string(), 3)],
        shards: 3,
        cluster,
        writable: true,
        uuid: "u".into(),
        now: "now".into(),
    }
}

#[test]
fn a_snapshot_is_decided_before_anything_is_written() {
    let begun = create_snapshot(&asking(
        r#"{"metadata": {"by": "me"}, "include_global_state": false}"#,
        None,
    ))
    .ok()
    .unwrap();
    assert!(!begun.global);
    assert_eq!(begun.plan.work[0].shards, [0, 1, 2]);
    let v = value(&Json::Object(begun.record));
    assert_eq!(v["metadata"]["by"], "me");
    assert_eq!(v["data_streams"][0], "logs");
    assert_eq!(v["include_global_state"], false);
    assert_eq!(v["shards"]["total"], 3);
    assert!(create_snapshot(&asking("{}", None)).ok().unwrap().global);
    let why = |a: Asking| said(&create_snapshot(&a).err().unwrap());
    assert_eq!(why(asking(r#"{"indices": "a,zz"}"#, None)).2, "no such index [zz]");
    assert!(create_snapshot(&asking(r#"{"indices": "zz", "ignore_unavailable": true}"#, None)).is_ok());
    assert_eq!(why(Asking { taken: true, ..asking("{}", None) }).1, "invalid_snapshot_name_exception");
    assert!(why(Asking { writable: false, ..asking("{}", None) }).2.contains("nowhere to write"));
    let t = table();
    let me = None;
    assert_eq!(
        why(asking("{}", Some((&t, &me)))).2,
        "[r:s/u] Indices don't have primary shards [i]"
    );
    let part = create_snapshot(&asking(r#"{"partial": true}"#, Some((&t, &me)))).ok().unwrap();
    assert_eq!(part.plan.unassigned.len(), 1);
}

fn free() -> Event {
    Event::Known(Standing { refused: None, resolves: 0, alias: false, here: None, elsewhere: None })
}

fn closed() -> Event {
    Event::Known(Standing { refused: None, resolves: 1, alias: false, here: Some(true), elsewhere: None })
}

fn asked(todo: &Vec<Todo>) -> Vec<String> {
    todo.iter()
        .map(|t| match t {
            Todo::Look(n) => format!("look {n}"),
            Todo::Prepare(n) => format!("prepare {n}"),
            Todo::ReadGlobal => "read global".to_string(),
            Todo::Reopen(n) => format!("reopen {n}"),
            Todo::SetAside(n) => format!("set aside {n}"),
            Todo::Bury(n, u) => format!("bury {n} {u}"),
            Todo::Apply(n, t) => format!("apply {n} to {t}"),
            Todo::Do(a) => spelled(a).join(", "),
            Todo::ApplyGlobal => "apply global".to_string(),
            Todo::Refuse(a) => format!("refuse {}", a.status),
            Todo::Finish => "finish".to_string(),
        })
        .collect()
}

fn restoring(from: bool, global: bool, chosen: &[&str]) -> (Restoring, Vec<Todo>) {
    let body = json(
        r#"{"rename_pattern": "^", "rename_replacement": "old-", "include_global_state": true}"#,
    );
    let source = json(&format!(
        r#"{{"uuid": "u", "indices": {chosen:?}, "include_global_state": {global}}}"#
    ));
    restore_snapshot("r", "s", Some(&source), body, false, from).ok().unwrap()
}

#[test]
fn a_restore_reads_everything_before_it_touches_anything() {
    let (mut r, first) = restoring(true, true, &["a", "b"]);
    assert_eq!(asked(&first), ["look old-a"]);
    assert_eq!(asked(&r.tell(free())), ["prepare a"]);
    assert_eq!(asked(&r.tell(Event::Ready)), ["look old-b"]);
    assert_eq!(asked(&r.tell(closed())), ["prepare b"]);
    assert_eq!(asked(&r.tell(Event::Ready)), ["read global"]);
    assert_eq!(asked(&r.tell(Event::Ready)), ["prepare a"]);
    assert_eq!(asked(&r.tell(Event::Ready)), ["apply a to old-a"]);
    assert_eq!(asked(&r.tell(Event::Ready)), ["prepare b"]);
    assert_eq!(asked(&r.tell(Event::Ready)), ["set aside old-b"]);
    assert_eq!(asked(&r.tell(Event::SetAside(true))), ["apply b to old-b"]);
    assert_eq!(
        asked(&r.tell(Event::Ready)),
        ["end old-a, open old-a, end old-b, let go old-b, open old-b", "apply global", "finish"]
    );
    assert_eq!(r.restored, ["old-a", "old-b"]);
    assert!(r.tell(Event::Ready).is_empty());
}

#[test]
fn a_restore_that_cannot_be_whole_is_taken_back() {
    let (mut r, _) = restoring(true, false, &["a", "b"]);
    r.tell(closed());
    r.tell(Event::Ready);
    r.tell(free());
    assert_eq!(asked(&r.tell(Event::Ready)), ["prepare a"]);
    r.tell(Event::Ready);
    r.tell(Event::SetAside(true));
    assert_eq!(asked(&r.tell(Event::Ready)), ["prepare b"]);
    r.tell(Event::Ready);
    assert_eq!(
        asked(&r.tell(Event::Failed("a spoiled line".into()))),
        ["delete old-b, end old-b, delete old-a, end old-a, put back old-a", "refuse 500"]
    );
    let (mut r, _) = restoring(true, false, &["a"]);
    r.tell(closed());
    r.tell(Event::Ready);
    r.tell(Event::Ready);
    assert_eq!(asked(&r.tell(Event::SetAside(false))), ["", "refuse 500"]);
}

#[test]
fn a_restore_is_refused_with_nothing_touched() {
    let (mut r, _) = restoring(true, true, &["a"]);
    let open = Standing { refused: None, resolves: 1, alias: false, here: Some(false), elsewhere: None };
    assert_eq!(asked(&r.tell(Event::Known(open))), ["refuse 500"]);
    let (mut r, _) = restoring(true, true, &["a"]);
    r.tell(free());
    assert_eq!(asked(&r.tell(Event::Failed("gone".into()))), ["refuse 500"]);
    let (mut r, first) = restoring(true, true, &[]);
    assert_eq!(asked(&first), ["read global"]);
    assert_eq!(asked(&r.tell(Event::Failed("gone".into()))), ["refuse 500"]);
}

#[test]
fn an_index_with_nothing_to_read_it_from_is_opened_again() {
    let (mut r, first) = restoring(false, true, &["a", "b"]);
    assert_eq!(asked(&first), ["look old-a"]);
    assert_eq!(asked(&r.tell(free())), ["look old-b"]);
    assert_eq!(asked(&r.tell(closed())), ["reopen old-b"]);
    assert_eq!(asked(&r.tell(Event::Ready)), ["", "finish"]);
    assert_eq!(r.restored, ["old-b"]);
    let (mut r, _) = restoring(true, false, &["a"]);
    let far = Standing {
        refused: None,
        resolves: 1,
        alias: false,
        here: None,
        elsewhere: Some(("close".into(), "id".into())),
    };
    r.tell(Event::Known(far));
    r.tell(Event::Ready);
    assert_eq!(asked(&r.tell(Event::Ready)), ["bury old-a id"]);
    assert_eq!(asked(&r.tell(Event::Gone)), ["apply a to old-a"]);
}

#[test]
fn a_request_for_snapshots_is_answered_from_what_is_held() {
    let held = vec![("a".to_string(), json(r#"{"snapshot": "a", "indices": ["i", "j"]}"#))];
    let get = |names: &str, known: bool| get_snapshot("r", names, known, &held, &None, false, false);
    assert_eq!(get("a", true).status, 200);
    assert_eq!(said(&get("..", false)).1, "invalid_snapshot_name_exception");
    assert_eq!(said(&get("a", false)).1, "repository_missing_exception");
    assert_eq!(said(&get("b", true)).1, "snapshot_missing_exception");
    let status = |i: Option<&str>| status_answer("r", "a", &i.map(String::from), &held, &None, false);
    assert_eq!(status(None).ok().unwrap()[0].1, ["i", "j"]);
    assert_eq!(status(Some("j")).ok().unwrap()[0].1, ["j"]);
    assert_eq!(status(Some("k")).err().unwrap().status, 404);
}

#[test]
fn a_restore_puts_back_the_streams_of_what_it_made() {
    let source = json(
        r#"{"indices": [".ds-logs-000001", ".ds-more-000001", "i"],
            "data_streams": ["logs", "more"], "uuid": "u"}"#,
    );
    let body = json(r#"{"indices": "logs,i"}"#);
    let (mut r, first) = restore_snapshot("r", "s", Some(&source), body, false, true).ok().unwrap();
    assert_eq!(asked(&first), ["look .ds-logs-000001"]);
    r.tell(free());
    r.tell(Event::Ready);
    r.tell(free());
    r.tell(Event::Ready);
    r.tell(Event::Ready);
    r.tell(Event::Ready);
    r.tell(Event::Ready);
    assert_eq!(
        asked(&r.tell(Event::Ready)),
        ["end .ds-logs-000001, open .ds-logs-000001, end i, open i", "finish"]
    );
    let (streams, answer) = r.finish(&vec![]);
    assert_eq!(streams, ["logs"]);
    reads_as(
        &answer.body,
        r#"{"snapshot": {"snapshot": "s", "indices": [".ds-logs-000001", "i"],
            "shards": {"total": 2, "failed": 0, "successful": 2}}}"#,
    );
    assert!(r.finish(&vec!["logs".into()]).0.is_empty());
    let refused = restore_snapshot("r", "s", None, json("{}"), false, true).err().unwrap();
    assert_eq!(said(&refused).1, "snapshot_restore_exception");
}

#[test]
fn a_node_writes_only_for_its_own_cluster() {
    let me = NodeId("me".into());
    let nodes = strings(&["b"]);
    let request = json(r#"{"snapshot": "s", "index": "i", "shards": [0, 1, 2]}"#);
    let asked = |from: &str, reached: bool| {
        snapshot_install(from, &me, &nodes, &request, reached, &table())
    };
    assert_eq!(asked("c", true).err().unwrap(), "not a node of this cluster");
    assert!(asked("b", false).err().unwrap().starts_with("the repository cannot be reached"));
    let w = asked("b", true).ok().unwrap();
    assert_eq!((w.snapshot.as_str(), w.index.as_str()), ("s", "i"));
    assert_eq!(w.shards, [1]);
    assert_eq!(w.failed.len(), 2);
    let answer = shards_answer(Ok(vec![("shards".into(), json("{}"))]), w.failed).ok().unwrap();
    assert_eq!(value(&answer)["failed"]["0"], "this node no longer holds the primary");
    assert_eq!(shards_answer(Err("full".into()), vec![]).err().unwrap(), "full");
}

#[test]
fn a_node_leaves_its_mark_where_it_is_asked_to() {
    let request = mark_request(&json("{}"), "tests-t", "t");
    reads_as(&request, r#"{"repository": {}, "dir": "tests-t", "token": "t"}"#);
    let asked = |from: &str, reached: bool| {
        mark_for(from, "me", &strings(&["b"]), &request, reached)
    };
    assert_eq!(asked("me", true), Ok(("tests-t".to_string(), "t".to_string())));
    assert_eq!(asked("c", true).unwrap_err(), "not a node of this cluster");
    assert!(asked("b", false).unwrap_err().starts_with("cannot reach the repository"));
    assert_eq!(
        write_verify_blob(true, "tests-t", "t", "me"),
        Some(("tests-t/me.dat".to_string(), "t".to_string()))
    );
    assert_eq!(write_verify_blob(false, "tests-t", "t", "me"), None);
    assert_eq!(could_not_mark("full"), "could not write into the repository: full");
    assert_eq!(mark_refused(Reply::Silence).as_deref(), Some("did not answer"));
    assert_eq!(mark_refused(Reply::Error("no".into())).as_deref(), Some("no"));
    assert_eq!(mark_refused(Reply::Nonsense), None);
}

#[test]
fn an_index_named_twice_is_reported_once() {
    let kept = |bytes: u64| Kept {
        index: "i".into(),
        found: Some((json(&format!("{{\"shards\": {{\"0\": {{\"size_in_bytes\": {bytes}}}}}}}")), 1)),
    };
    let status = status_of("r", &json("{}"), &vec![kept(2), kept(7)]);
    match status.get("indices") {
        Some(Json::Object(o)) => assert_eq!(o.len(), 1),
        _ => panic!("the indices are an object"),
    }
    let v = value(&status);
    assert_eq!(v["indices"]["i"]["stats"]["total"]["size_in_bytes"], 8);
    assert_eq!(v["stats"]["total"]["size_in_bytes"], 11);
}

#[test]
fn a_snapshot_ends_with_as_many_shards_as_were_planned() {
    let t = table();
    let me = Some(NodeId("me".into()));
    let mut plan =
        plan_shards(&strings(&["i"]), &vec![("i".to_string(), 4)], Some((&t, &me)));
    assert!(does_add_up(&plan));
    let outcomes = vec![
        Outcome::Done(json(r#"{"shards": {"0": {}}, "failed": {"3": "no room"}}"#)),
        Outcome::Done(json(r#"{"shards": {"1": {}}, "meta": {"from": "me"}}"#)),
    ];
    let record = snapshot_record("s", "u", "now", &strings(&["i"]), &vec![], true, 9);
    let ended = end_snapshot(record, &plan, &outcomes, &Some("me".into()), 100, 130);
    let v = value(&Json::Object(ended.record));
    assert_eq!(v["shards"]["total"], 4);
    assert_eq!(v["shards"]["failed"], 2);
    assert_eq!(v["shards"]["successful"], 2);
    assert_eq!(v["state"], "PARTIAL");
    assert_eq!(ended.indices.len(), 1);
    let one = &ended.indices[0];
    reads_as(&one.meta, r#"{"from": "me"}"#);
    let names = |o: &Vec<(String, Json)>| o.iter().map(|(k, _)| k.clone()).collect::<Vec<_>>();
    assert_eq!((names(&one.written), names(&one.failed)), (strings(&["0", "1"]), strings(&["2", "3"])));
    plan.shards[0].1 = 3;
    assert!(!does_add_up(&plan));
}
