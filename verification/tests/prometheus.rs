use velosearch::api::prometheus::{
    escaped, metrics, num, read_breaker, wants_indices, BreakerReading, Figure, Metrics,
    PoolReading, Scrape,
};
use velosearch::breaker::Breakers;
use velosearch::json::{Json, Number};

fn to_json(v: &serde_json::Value) -> Json {
    match v {
        serde_json::Value::Null => Json::Null,
        serde_json::Value::Bool(b) => Json::Bool(*b),
        serde_json::Value::Number(n) => Json::Number(match (n.as_u64(), n.as_i64()) {
            (Some(u), _) => Number::Whole(u),
            (None, Some(i)) => Number::Below(i),
            _ => Number::Decimal(n.to_string()),
        }),
        serde_json::Value::String(s) => Json::Text(s.clone()),
        serde_json::Value::Array(a) => Json::List(a.iter().map(to_json).collect()),
        serde_json::Value::Object(o) => {
            Json::Object(o.iter().map(|(k, v)| (k.clone(), to_json(v))).collect())
        }
    }
}

fn json(text: &str) -> Json {
    to_json(&serde_json::from_str(text).unwrap())
}

#[test]
fn a_label_value_cannot_break_out_of_its_quotes() {
    assert_eq!(escaped(r#"a"b"#), r#"a\"b"#);
    assert_eq!(escaped("a\nb"), "a\\nb");
    assert_eq!(escaped(r"a\b"), r"a\\b");
}

#[test]
fn a_series_carries_what_says_which_node_it_is() {
    let mut m = Metrics::new("velo", "n1", "abc");
    m.one("a_metric", "gauge", "Help.", &Figure::read("3.0"));
    assert!(m.out.contains("# TYPE a_metric gauge"));
    assert!(m.out.contains("a_metric{cluster=\"velo\",node=\"n1\",nodeid=\"abc\"} 3\n"));
}

#[test]
fn a_whole_number_is_written_as_one() {
    let mut m = Metrics::new("c", "n", "i");
    m.one("whole", "gauge", "Help.", &Figure::read("12.0"));
    m.one("fraction", "gauge", "Help.", &Figure::read("0.5"));
    assert!(m.out.contains("} 12\n"));
    assert!(m.out.contains("} 0.5\n"));
}

#[test]
fn a_number_that_is_not_there_is_zero_rather_than_missing() {
    let v = json(r#"{"a": {"b": 2}}"#);
    assert_eq!(num(&v, "/a/b"), Figure::read("2.0"));
    assert_eq!(num(&v, "/a/c"), Figure::read("0.0"));
}

#[test]
fn a_number_is_read_whichever_way_it_is_written() {
    let v = json(r#"{"a": "17.50", "b": -3, "c": true, "d": "many", "e": 1.25}"#);
    assert_eq!(num(&v, "/a").show(), "17.5");
    assert_eq!(num(&v, "/b").show(), "-3");
    assert_eq!(num(&v, "/c").show(), "0");
    assert_eq!(num(&v, "/d").show(), "0");
    assert_eq!(num(&v, "/e").show(), "1.25");
    assert_eq!(Figure::read("-0.0").show(), "0");
    assert_eq!(Figure::whole(1234).thousandth().show(), "1.234");
    assert_eq!(Figure::whole(5).thousandth().show(), "0.005");
    assert_eq!(Figure::whole(12_000).thousandth().show(), "12");
}

fn scrape(per_index: bool) -> Scrape {
    Scrape {
        cluster: "velo".into(),
        node: "n\"1".into(),
        node_id: "abc".into(),
        version: "0.1.0".into(),
        build_hash: "unknown".into(),
        health: json(r#"{"status": "yellow", "number_of_nodes": 3}"#),
        stats: json(
            r#"{"os": {"cpu": {"percent": 7}}, "jvm": {"uptime_in_millis": 1500},
                "indices": {"docs": {"count": 9}, "search": {"query_time_in_millis": 20},
                            "indices": {"logs": {"docs": {"count": 4}}}}}"#,
        ),
        pools: vec![PoolReading {
            name: "search".into(),
            threads: 13,
            active: 2,
            queue: 1,
            completed: 40,
            rejected: 3,
        }],
        breakers: vec![BreakerReading { name: "parent".into(), used: 10, limit: 20, tripped: 1 }],
        per_index,
    }
}

#[test]
fn a_scrape_says_what_the_node_is_doing() {
    let out = metrics(&scrape(true));
    let who = r#"cluster="velo",node="n\"1",nodeid="abc""#;
    for line in [
        format!("velosearch_build_info{{{who},version=\"0.1.0\",opensearch_version=\"3.9.0\",build_hash=\"unknown\"}} 1\n"),
        format!("opensearch_cluster_status{{{who}}} 1\n"),
        format!("opensearch_cluster_nodes_number{{{who}}} 3\n"),
        format!("opensearch_cluster_datanodes_number{{{who}}} 0\n"),
        format!("opensearch_os_cpu_percent{{{who}}} 7\n"),
        format!("opensearch_jvm_uptime_seconds{{{who}}} 1.5\n"),
        format!("opensearch_threadpool_threads_number{{{who},name=\"search\"}} 13\n"),
        format!("opensearch_threadpool_tasks_number{{{who},name=\"search\",type=\"queue\"}} 1\n"),
        format!("opensearch_threadpool_tasks_count{{{who},name=\"search\",type=\"rejected\"}} 3\n"),
        format!("opensearch_circuitbreaker_limit_bytes{{{who},name=\"parent\"}} 20\n"),
        format!("opensearch_indices_doc_number{{{who}}} 9\n"),
        format!("opensearch_indices_search_query_time_seconds{{{who}}} 0.02\n"),
        format!("opensearch_index_doc_number{{{who},index=\"logs\"}} 4\n"),
    ] {
        assert!(out.contains(&line), "{line} is not in\n{out}");
    }
    assert_eq!(out.matches("# TYPE ").count(), 58);
    assert!(!metrics(&scrape(false)).contains("opensearch_index_doc_number"));
    assert!(!wants_indices(&Some("false".into())));
    assert!(wants_indices(&None) && wants_indices(&Some("true".into())));
}

#[test]
fn the_parent_breaker_reports_the_whole_node() {
    let mut all = Breakers::new();
    all.request.used = 5;
    assert_eq!(read_breaker(&all.request, 99, 7).used, 5);
    assert_eq!(read_breaker(&all.parent, 99, 7).used, 99);
}

#[test]
fn a_number_with_an_exponent_is_shown_without_one() {
    assert_eq!(Figure::read("1e3").show(), "1000");
    assert_eq!(Figure::read("-1.25E-2").show(), "-0.0125");
    assert_eq!(Figure::read("12.5e+0").show(), "12.5");
    assert_eq!(Figure::read("1e+21").show(), "1000000000000000000000");
    assert_eq!(Figure::read("e3").show(), "0");
}

#[test]
fn a_label_is_read_back_as_it_was() {
    let read = |s: &str| {
        let mut out = String::new();
        let mut cs = s.chars();
        while let Some(c) = cs.next() {
            out.push(match c {
                '\\' => match cs.next() {
                    Some('n') => '\n',
                    Some(d) => d,
                    None => '\\',
                },
                c => c,
            });
        }
        out
    };
    for s in ["", "a\\n\n\"", "\\\\\"n"] {
        assert_eq!(read(&escaped(s)), s);
    }
}
