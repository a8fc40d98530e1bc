use velosearch::api::settings::{
    add_human_settings, deep_merge, default_settings, flatten_settings, forget_setting, keys_in,
    missing, patch_in, put_settings, settings_refusal, settings_response, settings_view,
    under_setting, update_settings, Asked, Holding, Target, TargetState, FINAL, NOT_DYNAMIC, PRIVATE,
};
use velosearch::api::{
    index_audit_document, system_index_description, AuditEvent, AuditStep, ALIAS_OPTIONS,
    CAT_INDEX_COLS, STATS_METRICS,
};
use velosearch::json::{setting, Json, Number};

fn to_json(v: &serde_json::Value) -> Json {
    match v {
        serde_json::Value::Null => Json::Null,
        serde_json::Value::Bool(b) => Json::Bool(*b),
        serde_json::Value::Number(n) => Json::Number(match (n.as_u64(), n.as_i64()) {
            (Some(u), _) => Number::Whole(u),
            (None, Some(i)) => Number::Below(i),
            _ => Number::Decimal(n.to_string()),
        }),
        serde_json::Value::String(s) => Json::Text(s.clone()),
        serde_json::Value::Array(a) => Json::List(a.iter().map(to_json).collect()),
        serde_json::Value::Object(o) => {
            Json::Object(o.iter().map(|(k, v)| (k.clone(), to_json(v))).collect())
        }
    }
}

fn json(text: &str) -> Json {
    to_json(&serde_json::from_str(text).unwrap())
}

fn reads_as(j: &Json, text: &str) {
    let found: serde_json::Value = serde_json::from_str(&j.render()).unwrap();
    let wanted: serde_json::Value = serde_json::from_str(text).unwrap();
    assert_eq!(found, wanted);
}

fn strings(v: &[&str]) -> Vec<String> {
    v.iter().map(|s| s.to_string()).collect()
}

fn target(name: &str, closed: bool, blocks: &[(&str, u16)]) -> Target {
    Target {
        name: name.into(),
        state: Some(TargetState {
            uuid: format!("{name}-uuid"),
            closed,
            blocks: blocks.iter().map(|(b, s)| (b.to_string(), *s)).collect(),
        }),
    }
}

fn reason(a: &velosearch::api::answer::Answer) -> (u16, String, String) {
    let v: serde_json::Value = serde_json::from_str(&a.body.render()).unwrap();
    assert_eq!(v["status"], serde_json::Value::from(a.status));
    assert_eq!(v["error"]["root_cause"][0]["reason"], v["error"]["reason"]);
    (
        a.status,
        v["error"]["type"].as_str().unwrap().to_string(),
        v["error"]["reason"].as_str().unwrap().to_string(),
    )
}

#[test]
fn a_document_is_flattened_to_its_leaves() {
    let mut out = Vec::new();
    flatten_settings(&json(r#"{"index": {"b": {"c": 1}, "a": [1]}, "x.y": null}"#), "", &mut out);
    let names: Vec<&str> = out.iter().map(|(k, _)| k.as_str()).collect();
    assert_eq!(names, ["index.a", "index.b.c", "x.y"]);
    reads_as(&out[0].1, "[1]");
}

#[test]
fn settings_are_shown_flat_or_nested_and_only_those_named() {
    let raw = json(
        r#"{"index": {"number_of_shards": "3", "velo_routing_shards": "9",
            "blocks": {"write": true}}}"#,
    );
    reads_as(
        &settings_view(&raw, &None, true),
        r#"{"index.number_of_shards": "3", "index.blocks.write": true}"#,
    );
    reads_as(
        &settings_view(&raw, &None, false),
        r#"{"index": {"number_of_shards": "3", "blocks": {"write": true}}}"#,
    );
    reads_as(
        &settings_view(&raw, &Some("index.b*, nothing".into()), false),
        r#"{"index": {"blocks": {"write": true}}}"#,
    );
    reads_as(&settings_view(&raw, &Some("_all".into()), true), &settings_view(&raw, &None, true).render());
    reads_as(&settings_view(&raw, &Some("index.q*".into()), false), "{}");
}

#[test]
fn a_readable_form_is_put_beside_the_machine_one() {
    reads_as(
        &add_human_settings(json(r#"{"index": {"version": {"created": "7"}}}"#), 12, "then"),
        r#"{"index": {"creation_date_string": "then", "creation_date": "12",
            "version": {"created": "7", "created_string": "3.9.0"}}}"#,
    );
    reads_as(
        &add_human_settings(json(r#"{"index": {"creation_date": "3"}}"#), 12, "then"),
        r#"{"index": {"creation_date_string": "then", "creation_date": "3",
            "version": {"created": "136407827", "created_string": "3.9.0"}}}"#,
    );
    reads_as(
        &add_human_settings(json(r#"{"index.codec": "x"}"#), 12, "then"),
        r#"{"index.codec": "x", "index.creation_date_string": "then", "index.creation_date": "12"}"#,
    );
}

#[test]
fn the_defaults_are_shown_when_they_are_asked_for() {
    let q = Asked { name: None, flat: true, human: false, defaults: true };
    let h = Holding {
        index: "a".into(),
        settings: json(r#"{"index": {"codec": "best"}}"#),
        created_millis: 0,
        created_text: String::new(),
    };
    let all = settings_response(&vec![h], &q);
    let v: serde_json::Value = serde_json::from_str(&all.render()).unwrap();
    assert_eq!(v["a"]["settings"]["index.codec"], "best");
    assert_eq!(v["a"]["defaults"]["index.max_result_window"], "10000");
    assert_eq!(v["a"]["defaults"]["index.query.default_field"][0], "*");
    reads_as(default_settings().get("index").unwrap().get("refresh_interval").unwrap(), "\"1s\"");
}

#[test]
fn a_setting_is_forgotten_in_every_spelling() {
    for held in [
        r#"{"blocks.write": true, "k": 1}"#,
        r#"{"blocks": {"write": true}, "k": 1}"#,
        r#"{"index.blocks.write": true, "k": 1}"#,
        r#"{"index": {"blocks.write": true}, "k": 1}"#,
        r#"{"index": {"blocks": {"write": true}}, "k": 1}"#,
        r#"{"index": {"index.blocks.write": true}, "k": 1}"#,
    ] {
        let left = forget_setting(json(held), "blocks.write");
        let mut flat = Vec::new();
        flatten_settings(&left, "", &mut flat);
        assert_eq!(flat.len(), 1, "{held}");
        assert_eq!(flat[0].0, "k");
    }
}

#[test]
fn a_setting_that_was_written_is_what_is_read() {
    for held in [
        r#"{}"#,
        r#"{"index": {"blocks.write": true}}"#,
        r#"{"index": {"blocks": {"write": true}}}"#,
        r#"{"index.blocks.write": true}"#,
        r#"{"blocks": {"write": true}}"#,
    ] {
        let now = put_settings(&json(held), &json(r#"{"blocks.write": false}"#), false);
        match setting(&now, "index.blocks.write") {
            Some(Json::Bool(b)) => assert!(!b, "{held}"),
            _ => panic!("{held}"),
        }
    }
}

#[test]
fn a_null_brings_the_default_back() {
    let now = put_settings(
        &json(r#"{"index": {"refresh_interval": "5s", "codec": "x"}}"#),
        &json(r#"{"refresh_interval": null}"#),
        false,
    );
    reads_as(&now, r#"{"index": {"codec": "x"}}"#);
}

#[test]
fn what_is_set_is_kept_where_only_the_rest_is_filled_in() {
    let held = json(r#"{"index": {"a": "1"}}"#);
    let now = put_settings(&held, &json(r#"{"index.a": "2", "b": "3"}"#), true);
    reads_as(&now, r#"{"index": {"a": "1", "b": "3"}}"#);
}

#[test]
fn documents_are_merged_all_the_way_down() {
    let now = deep_merge(
        json(r#"{"a": {"x": 1, "y": 2}, "b": 1}"#),
        &json(r#"{"a": {"y": {"z": 3}}, "c": []}"#),
    );
    reads_as(&now, r#"{"a": {"x": 1, "y": {"z": 3}}, "b": 1, "c": []}"#);
}

#[test]
fn a_body_may_be_wrapped() {
    for body in [
        r#"{"settings": {"index": {"a": 1}}}"#,
        r#"{"index": {"a": 1}}"#,
        r#"{"settings": {"a": 1}}"#,
        r#"{"a": 1}"#,
    ] {
        reads_as(patch_in(&json(body)), r#"{"a": 1}"#);
    }
    assert_eq!(keys_in(&json(r#"{"b": {"c": 1}, "index.a": 2}"#)), ["index.b.c", "index.a"]);
}

#[test]
fn a_private_setting_is_refused() {
    let said = settings_refusal(&vec![target("a", true, &[])], &strings(&["index.uuid"])).unwrap();
    assert_eq!(
        reason(&said),
        (
            400,
            "settings_exception".into(),
            "can not update private setting [index.uuid]; this setting is managed by OpenSearch".into()
        )
    );
    assert!(PRIVATE.contains(&"index.uuid"));
}

#[test]
fn a_block_is_named_and_one_that_lifts_it_passes() {
    let blocked = vec![
        target("a", false, &[("read-only", 403), ("metadata", 429)]),
        target("b", false, &[]),
        Target { name: "gone".into(), state: None },
    ];
    let said = settings_refusal(&blocked, &strings(&["index.codec.x"])).unwrap();
    assert_eq!(
        reason(&said),
        (429, "cluster_block_exception".into(), "index [a] blocked by: [read-only, metadata];".into())
    );
    assert!(settings_refusal(&blocked, &strings(&["index.blocks.metadata"])).is_none());
    assert!(settings_refusal(&blocked, &strings(&["index.blocks.metadata", "index.x"])).is_some());
}

#[test]
fn what_is_fixed_is_not_changed_on_an_open_index() {
    let said = settings_refusal(
        &vec![target("a", false, &[]), target("b", true, &[]), target("c", false, &[])],
        &strings(&["index.analysis.filter", "index.x", "index.codec"]),
    )
    .unwrap();
    assert_eq!(
        reason(&said),
        (
            400,
            "illegal_argument_exception".into(),
            "Can't update non dynamic settings [[index.analysis.filter, index.codec]] for open \
             indices [[a/a-uuid], [c/c-uuid]]"
                .into()
        )
    );
    assert!(NOT_DYNAMIC.contains(&"index.codec"));
}

#[test]
fn what_is_final_is_not_changed_on_a_closed_one_either() {
    let closed = vec![target("a", true, &[])];
    let said = settings_refusal(&closed, &strings(&["index.codec", "index.knn"])).unwrap();
    assert_eq!(
        reason(&said),
        (400, "settings_exception".into(), "final a setting [index.knn], not updateable".into())
    );
    assert!(settings_refusal(&closed, &strings(&["index.codec"])).is_none());
    assert!(FINAL.contains(&"index.knn"));
}

#[test]
fn a_refused_update_changes_no_index() {
    let held = vec![json("{}"), json("{}")];
    let two = vec![target("a", true, &[]), target("b", false, &[])];
    assert!(update_settings(&two, &held, &json(r#"{"codec": "x"}"#), false).is_err());
    let now = update_settings(&two, &held, &json(r#"{"refresh_interval": "2s"}"#), false);
    let now = match now {
        Ok(n) => n,
        Err(_) => panic!("refused"),
    };
    assert_eq!(now.len(), 2);
    for one in &now {
        reads_as(one, r#"{"index": {"refresh_interval": "2s"}}"#);
    }
}

#[test]
fn a_setting_covers_those_under_it() {
    assert!(under_setting("index.sort.field", "index.sort"));
    assert!(under_setting("index.sort", "index.sort"));
    assert!(!under_setting("index.sorted", "index.sort"));
}

#[test]
fn a_name_that_fits_nothing_is_missing() {
    assert!(missing(0, "a", false));
    assert!(!missing(0, "a", true));
    assert!(!missing(0, "a*", false));
    assert!(!missing(0, "_all", false));
    assert!(!missing(1, "a", false));
}

#[test]
fn a_system_index_says_what_it_is_for() {
    assert_eq!(system_index_description(".tasks-1"), Some("Task Result Index"));
    assert_eq!(system_index_description(".other"), None);
    assert_eq!(CAT_INDEX_COLS.len(), 14);
    assert!(STATS_METRICS.contains(&"merge") && STATS_METRICS.contains(&"merges"));
    assert!(ALIAS_OPTIONS.contains(&"is_write_index"));
}

#[test]
fn an_index_that_is_not_there_is_named_with_what_it_might_have_been() {
    let a = velosearch::api::answer::no_such_index("logs");
    assert_eq!(a.status, 404);
    let v: serde_json::Value = serde_json::from_str(&a.body.render()).unwrap();
    assert_eq!(v["error"]["reason"], "no such index [logs]");
    assert_eq!(v["error"]["resource.type"], "index_or_alias");
    assert_eq!(v["error"]["root_cause"][0]["index_uuid"], "_na_");
}

#[test]
fn the_audit_index_is_made_where_it_is_not_there() {
    let doc = json(r#"{"who": "admin"}"#);
    let next = |event| index_audit_document(&doc, event);
    match next(AuditEvent::Looked(false)) {
        AuditStep::Make(body) => reads_as(
            &body,
            r#"{"settings": {"number_of_shards": 1, "number_of_replicas": 0}}"#,
        ),
        _ => panic!("the index is to be made"),
    }
    for event in [AuditEvent::Looked(true), AuditEvent::Made(true)] {
        match next(event) {
            AuditStep::Write(d) => reads_as(&d, r#"{"who": "admin"}"#),
            _ => panic!("the record is to be written"),
        }
    }
    assert!(matches!(next(AuditEvent::Made(false)), AuditStep::Done));
    assert!(matches!(next(AuditEvent::Written), AuditStep::Refresh));
    assert!(matches!(next(AuditEvent::Refreshed), AuditStep::Done));
    assert!(matches!(next(AuditEvent::NotMade("full".into())), AuditStep::Fail(w) if w == "full"));
    assert!(
        matches!(next(AuditEvent::Refused), AuditStep::Fail(w) if w == "audit record refused")
    );
}
