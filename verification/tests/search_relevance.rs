use velosearch::api::search_relevance::{
    counters, listed, nothing_searched, stats, EXPERIMENTS, JUDGMENTS, QUERY_SETS, SEARCH_CONFIGS,
};
use velosearch::json::Json;

fn reads_as(j: &Json, text: &str) {
    let found: serde_json::Value = serde_json::from_str(&j.render()).unwrap();
    let wanted: serde_json::Value = serde_json::from_str(text).unwrap();
    assert_eq!(found, wanted);
}

#[test]
fn a_list_with_no_index_behind_it_is_empty() {
    let empty = r#"{"took": 0, "timed_out": false,
        "_shards": {"total": 0, "successful": 0, "skipped": 0, "failed": 0},
        "hits": {"total": {"value": 0, "relation": "eq"}, "max_score": null, "hits": []}}"#;
    reads_as(&nothing_searched(), empty);
    match listed(false, &None) {
        Err(j) => reads_as(&j, empty),
        Ok(_) => panic!("searched"),
    }
}

#[test]
fn a_list_is_a_search_of_so_many() {
    for (said, size) in [(None, 1000), (Some("7"), 7), (Some("many"), 1000), (Some("-1"), 1000)] {
        match listed(true, &said.map(String::from)) {
            Ok(j) => {
                reads_as(&j, &format!("{{\"size\": {size}, \"query\": {{\"match_all\": {{}}}}}}"))
            }
            Err(_) => panic!("not searched"),
        }
    }
    assert_eq!(
        [QUERY_SETS, SEARCH_CONFIGS, JUDGMENTS, EXPERIMENTS],
        [
            "search-relevance-queryset",
            "search-relevance-search-config",
            "search-relevance-judgment",
            "search-relevance-experiment"
        ]
    );
}

#[test]
fn every_counter_is_zero_and_one_may_be_asked_for() {
    reads_as(
        &counters(&None),
        r#"{"judgments": {"import_judgment_rating_generations": 0,
            "llm_judgment_rating_generations": 0, "ubi_judgment_rating_generations": 0},
            "experiments": {"experiment_executions": 0,
            "experiment_pairwise_comparison_executions": 0,
            "experiment_pointwise_evaluation_executions": 0,
            "experiment_hybrid_optimizer_executions": 0}}"#,
    );
    reads_as(
        &counters(&Some("experiment_executions".into())),
        r#"{"experiments": {"experiment_executions": 0}}"#,
    );
    reads_as(&counters(&Some("other".into())), "{}");
}

#[test]
fn a_stat_nobody_counts_is_refused() {
    let a = stats(&Some("other".into()), "/_plugins/x/other", "c", "n");
    assert_eq!(a.status, 400);
    let v: serde_json::Value = serde_json::from_str(&a.body.render()).unwrap();
    assert_eq!(v["error"]["type"], "illegal_argument_exception");
    assert_eq!(
        v["error"]["reason"],
        "request [/_plugins/x/other] contains unrecognized stat: [other]"
    );
}

#[test]
fn the_version_travels_with_the_whole_answer() {
    let v: serde_json::Value =
        serde_json::from_str(&stats(&None, "/", "velo", "n1").body.render()).unwrap();
    assert_eq!(v["info"]["cluster_version"], "3.9.0");
    assert_eq!(v["cluster_name"], "velo");
    assert_eq!(v["nodes"]["n1"], v["all_nodes"]);
    assert_eq!(v["_nodes"]["successful"], 1);
    let one = stats(&Some("experiment_executions".into()), "/", "velo", "n1");
    assert_eq!(one.status, 200);
    let v: serde_json::Value = serde_json::from_str(&one.body.render()).unwrap();
    assert!(v["info"].as_object().unwrap().is_empty());
}
