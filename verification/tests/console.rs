use velosearch::build_hash;
use velosearch::console::assets::{translations, Served};
use velosearch::console::failed::{bad_query, not_found, refused, refused_saying, Failed};
use velosearch::console::objects::{
    bulk_create, bulk_update, carry, changes_of, console_status, endpoint_refused, in_session, report_in, dql_opt_in, entry_changed, export, export_text,
    extended_stats, hits_count, hits_status, ism_api_caller, listed as names_listed,
    preview_scripted_field, required, sample_set, server_stats, suggestions, too_many,
    ui_metric_report, writing_of, writings_of, Build, Kept, ReadAs, Reached, Wrote,
};
use velosearch::console::passage::{
    compressed, console_proxy, cookies_checked, head_text, is_compressed, is_let, kind_passed_on,
    listed, matched, pack, path_for, referrer_allowed, wants_gzip, xsrf_checked, Packed, Uncarried,
};
use velosearch::console::query::{
    fields_for_time_pattern, fields_for_time_pattern_in, fields_for_wildcard,
    fields_for_wildcard_in, find, given_as, goto, looking_from, looking_in,
    management_find, management_query, meta_fields_in, meta_fields_of, not_found_for_fields, query_pairs,
    days_of, relationships, resolve_index, search_strategy, stats_flags, LookBack,
};
use velosearch::console::upload::{
    file_part, form_parts, import, is_form_upload, retries_of, retries_text,
};
use velosearch::console::{
    now, override_pairs, overrides_from, uuid_of, Console, Distribution, Start,
};
use velosearch::json::{Json, Number};

fn to_json(v: &serde_json::Value) -> Json {
    match v {
        serde_json::Value::Null => Json::Null,
        serde_json::Value::Bool(b) => Json::Bool(*b),
        serde_json::Value::Number(n) => Json::Number(match (n.as_u64(), n.as_i64()) {
            (Some(u), _) => Number::Whole(u),
            (None, Some(i)) => Number::Below(i),
            _ => Number::Decimal(n.to_string()),
        }),
        serde_json::Value::String(s) => Json::Text(s.clone()),
        serde_json::Value::Array(a) => Json::List(a.iter().map(to_json).collect()),
        serde_json::Value::Object(o) => {
            Json::Object(o.iter().map(|(k, v)| (k.clone(), to_json(v))).collect())
        }
    }
}

fn json(text: &str) -> Json {
    to_json(&serde_json::from_str(text).unwrap())
}

fn reads_as(j: &Json, text: &str) {
    let found: serde_json::Value = serde_json::from_str(&j.render()).unwrap();
    let wanted: serde_json::Value = serde_json::from_str(text).unwrap();
    assert_eq!(found, wanted);
}

fn value(j: &Json) -> serde_json::Value {
    serde_json::from_str(&j.render()).unwrap()
}

fn pairs(v: &[(&str, &str)]) -> Vec<(String, String)> {
    v.iter().map(|(a, b)| (a.to_string(), b.to_string())).collect()
}

fn strings(v: &[&str]) -> Vec<String> {
    v.iter().map(|s| s.to_string()).collect()
}

fn overridden(listed: &str) -> Vec<(String, Json)> {
    let given = override_pairs(listed);
    let read = given
        .iter()
        .map(|(_, v)| serde_json::from_str::<serde_json::Value>(v).ok().map(|v| to_json(&v)))
        .collect();
    overrides_from(&given, &read)
}

fn held<'a>(all: &'a Vec<(String, Json)>, key: &str) -> &'a Json {
    &all.iter().find(|(k, _)| k == key).unwrap().1
}

#[test]
fn an_override_reads_its_value_as_what_it_looks_like() {
    let found = overridden("query:enhancements:enabled=false,dateFormat:tz=Asia/Bangkok,n=3");
    reads_as(held(&found, "query:enhancements:enabled"), "false");
    reads_as(held(&found, "dateFormat:tz"), "\"Asia/Bangkok\"");
    reads_as(held(&found, "n"), "3");
}

#[test]
fn nothing_is_overridden_by_nothing() {
    assert!(overridden("").is_empty());
    assert!(overridden("nonsense-with-no-equals").is_empty());
    assert!(overridden(" =1").is_empty());
}

#[test]
fn a_name_for_this_server_is_shaped_like_one() {
    let name = uuid_of(1_700_000_000_000_000_000, 42, 0);
    assert_eq!(name.len(), 36, "{name}");
    assert_eq!(name.match_indices('-').count(), 4, "{name}");
    assert_ne!(name, uuid_of(1_700_000_000_000_000_000, 42, 1), "two starts are two servers");
    assert_ne!(name, uuid_of(1_700_000_000_000_000_000, 43, 0));
}

#[test]
fn a_build_says_what_it_was_built_from() {
    assert_eq!(build_hash(&Some("told".into()), &Some("sha".into()), true), "told");
    assert_eq!(build_hash(&Some("".into()), &Some("sha\n".into()), true), "sha-dirty");
    assert_eq!(build_hash(&None, &Some("sha".into()), false), "sha");
    assert_eq!(build_hash(&None, &Some(" ".into()), false), "unknown");
    assert_eq!(build_hash(&None, &None, true), "unknown");
    assert_eq!(now(0), "1970-01-01T00:00:00.000Z");
}

fn console(branding: Option<&str>) -> Console {
    let opened = Console::open(
        Start {
            home: "/osd".into(),
            base_path: "/base".into(),
            overrides: Vec::new(),
            anonymous_status: Some("false".into()),
            branding: branding.map(String::from),
            uuid: "u".into(),
        },
        Distribution {
            package: json(r#"{"version": "3.1.0"}"#),
            pinned: vec![("navLinks".into(), Json::Null), ("catalogue".into(), Json::Null)],
            index: json(r#"{"mappings": {"dynamic": "strict"}}"#),
            sample_data: Vec::new(),
            plugin_dirs: vec![("data".into(), "/osd/src/plugins/data".into())],
        },
    );
    match opened {
        Ok(c) => c,
        Err(e) => panic!("{e}"),
    }
}

#[test]
fn a_console_is_in_front_of_a_distribution() {
    let c = console(None);
    assert_eq!((c.version.as_str(), c.uuid(), c.anonymous_status, c.branded), ("3.1.0", "u", false, true));
    reads_as(&c.mapping, r#"{"dynamic": "strict"}"#);
    reads_as(
        &c.capabilities(&strings(&["home", "discover"])),
        r#"{"navLinks": {"discover": true, "home": true}, "catalogue": null}"#,
    );
    let nameless = Console::open(
        Start {
            home: "/osd".into(),
            base_path: String::new(),
            overrides: Vec::new(),
            anonymous_status: None,
            branding: None,
            uuid: String::new(),
        },
        Distribution {
            package: json("{}"),
            pinned: Vec::new(),
            index: Json::Null,
            sample_data: Vec::new(),
            plugin_dirs: Vec::new(),
        },
    );
    assert_eq!(nameless.err().unwrap(), "/osd/package.json says no version");
}

fn where_is(s: Option<Served>) -> (String, String, Vec<(String, String)>, bool) {
    let s = s.unwrap();
    (
        s.path,
        s.kind.to_string(),
        s.compressed.iter().map(|(p, e)| (p.clone(), e.to_string())).collect(),
        s.themed,
    )
}

#[test]
fn a_bundle_is_where_its_kind_lives() {
    let c = console(Some("opensearch"));
    let (path, kind, copies, themed) = where_is(c.bundle("core/core.entry.js", "gzip, br"));
    assert_eq!(path, "/osd/src/core/target/public/core.entry.js");
    assert_eq!(kind, "application/javascript; charset=utf-8");
    assert_eq!(
        copies,
        [
            ("/osd/src/core/target/public/core.entry.js.br".to_string(), "br".to_string()),
            ("/osd/src/core/target/public/core.entry.js.gz".to_string(), "gzip".to_string())
        ]
    );
    assert!(!themed);
    assert_eq!(
        where_is(c.bundle("osd-ui-shared-deps/x.css", "")).0,
        "/osd/node_modules/@osd/ui-shared-deps/target/x.css"
    );
    assert_eq!(
        where_is(c.bundle("plugin/data/data.js", "")).0,
        "/osd/src/plugins/data/target/public/data.js"
    );
    for none in ["core", "other/x.js", "plugin/data", "plugin/none/x.js", "core/../x", "core//x", "core/."] {
        assert!(c.bundle(none, "").is_none(), "{none}");
    }
    assert_eq!(
        where_is(c.plugin_asset("data", "a/b.png", "")).0,
        "/osd/src/plugins/data/public/assets/a/b.png"
    );
    assert!(c.plugin_asset("none", "x", "").is_none());
    assert_eq!(where_is(c.ui_asset("fonts/a.woff2", "")).1, "font/woff2");
    assert_eq!(
        where_is(c.ui_framework("x.css", "")).0,
        "/osd/node_modules/@osd/ui-framework/dist/x.css"
    );
}

#[test]
fn a_stylesheet_is_read_uncompressed_to_be_recoloured() {
    let c = console(None);
    let (_, kind, copies, themed) = where_is(c.ui_framework("x.css", "gzip, br"));
    assert_eq!(kind, "text/css; charset=utf-8");
    assert!(copies.is_empty());
    assert!(themed);
    assert!(!where_is(c.ui_framework("x.js", "gzip")).3);
    assert!(!where_is(c.ui_asset("x.css", "gzip")).3);
}

#[test]
fn a_file_is_what_its_name_says() {
    for (name, kind) in [
        ("a.json", "application/json; charset=utf-8"),
        ("a.js.map", "application/json; charset=utf-8"),
        ("a.svg", "image/svg+xml"),
        ("a.ico", "image/x-icon"),
        ("a.woff", "font/woff"),
        ("a.ttf", "font/ttf"),
        ("a.xml", "application/xml"),
        ("a.txt", "text/plain; charset=utf-8"),
        ("a.png", "image/png"),
        (".js", "application/octet-stream"),
        ("none", "application/octet-stream"),
        ("x.js/none", "application/octet-stream"),
    ] {
        assert_eq!(where_is(velosearch::console::assets::file("/b", name, "", false)).1, kind, "{name}");
    }
    assert_eq!(where_is(velosearch::console::assets::file("/b", "none", "gz", false)).2[0].0, "/b/none..gz");
}

#[test]
fn a_language_is_a_tag_and_no_path() {
    let c = console(None);
    assert_eq!(c.translation_file("zh-CN"), "/osd/src/core/server/i18n/zh-CN.json");
    assert_eq!(c.translation_file("../x"), "/osd/src/core/server/i18n/en.json");
    reads_as(
        &translations("de", Some(&json(r#"{"messages": {"a": "b"}}"#))),
        r#"{"translations": {"locale": "de", "messages": {"a": "b"}}, "warning": null}"#,
    );
    reads_as(
        &translations("xx", None),
        r#"{"translations": {"locale": "xx", "messages": {}}, "warning": null}"#,
    );
}

#[test]
fn a_failure_is_answered_in_the_words_of_its_status() {
    let a = refused(&Failed::of(404, "nope"));
    assert_eq!(a.status, 404);
    reads_as(&a.body, r#"{"statusCode": 404, "error": "Not Found", "message": "nope"}"#);
    let odd = refused(&Failed::of(7, "x"));
    assert_eq!(odd.status, 500);
    reads_as(
        &odd.body,
        r#"{"statusCode": 7, "error": "Internal Server Error", "message": "x"}"#,
    );
    reads_as(&refused(&Failed::of(599, "x")).body, r#"{"statusCode": 599, "error": "Error", "message": "x"}"#);
    assert!(refused_saying(&Failed::of(400, "x"), Some("W")).body.render().contains("\"W\""));
    let with = refused(&Failed::of(400, "x").with_error(json("1")).with_attributes(json("2")));
    reads_as(with.body.get("attributes").unwrap(), "2");
    let with = refused(&Failed::of(400, "x").with_error(json("1")));
    reads_as(with.body.get("attributes").unwrap(), r#"{"error": 1}"#);
    let mut f = Failed::of(400, "x");
    f.objects = Some(json("[]"));
    reads_as(refused(&f).body.get("attributes").unwrap(), r#"{"objects": []}"#);
    assert_eq!(not_found().status, 404);
    assert_eq!(bad_query("k", "w").message, "[request query.k]: w");
}

#[test]
fn a_key_given_twice_is_a_list() {
    let p = query_pairs(&Some("type=a&type=b%20c&x=1+2&&y".into()));
    assert_eq!(p, pairs(&[("type", "a"), ("type", "b c"), ("x", "1 2"), ("y", "")]));
    assert!(query_pairs(&None).is_empty());
    assert_eq!(given_as(&p, "type"), ["a", "b c"]);
    let l = looking_from(
        "type=a&type=b&fields=f&search_fields=s&search=q%2A&page=3&per_page=x&sort_field=t\
         &sort_order=desc&default_search_operator=AND&has_reference=%7B%7D&namespaces=n&filter=z&o=1",
    );
    assert_eq!(l.types, ["a", "b"]);
    assert_eq!((l.fields.len(), l.search_fields.len(), l.namespaces.len()), (1, 1, 1));
    assert_eq!(l.search.as_deref(), Some("q*"));
    assert_eq!((l.page, l.per_page), (3, 20));
    assert_eq!(l.sort_field.as_deref(), Some("t"));
    assert_eq!(l.sort_order.as_deref(), Some("desc"));
    assert_eq!(l.default_search_operator, "AND");
    assert_eq!(l.has_reference.as_deref(), Some("{}"));
    assert_eq!(l.filter.as_deref(), Some("z"));
    let none = looking_in(&Vec::new());
    assert_eq!((none.page, none.per_page, none.default_search_operator.as_str()), (1, 20, "OR"));
    assert_eq!(
        find(none).err().unwrap().message,
        "[request query.type]: expected at least one defined value but got [undefined]"
    );
    assert!(find(l).is_ok());
}

#[test]
fn the_management_page_spells_two_parameters_differently() {
    assert_eq!(
        management_query("perPage=5&sortField=a&perPage=6"),
        "per_page=5&sort_field=a&per_page=6"
    );
    let l = management_find("type=a&perPage=5&sortField=t").ok().unwrap();
    assert_eq!((l.per_page, l.sort_field.as_deref()), (5, Some("t")));
    assert_eq!(
        management_find("type=a&searchFields=x").err().unwrap().message,
        "[request query.searchFields]: definition for this key is missing"
    );
    assert!(management_find("perPage=5").is_err());
    let p = pairs(&[("savedObjectTypes", "a"), ("size", "x"), ("savedObjectTypes", "b")]);
    assert_eq!(relationships(&p), (strings(&["a", "b"]), 10_000));
    assert_eq!(relationships(&pairs(&[("size", "7")])).1, 7);
}

#[test]
fn the_fields_of_a_pattern_are_asked_for_with_a_pattern() {
    let p = pairs(&[("pattern", "logs*"), ("meta_fields", "[\"_id\"]")]);
    let (pattern, meta) =
        fields_for_wildcard_in(&p, Some(strings(&["_id"]))).ok().unwrap();
    assert_eq!((pattern.as_str(), meta), ("logs*", strings(&["_id"])));
    assert_eq!(fields_for_wildcard_in(&p, None).err().unwrap().message, "Bad Request");
    let several = pairs(&[("meta_fields", "a"), ("meta_fields", "b")]);
    assert_eq!(meta_fields_of(&several).ok().unwrap(), ["a", "b"]);
    assert!(meta_fields_in(&Vec::new(), None).ok().unwrap().is_empty());
    assert_eq!(
        fields_for_wildcard_in(&pairs(&[("x", "")]), None).err().unwrap().message,
        "[request query.x]: definition for this key is missing"
    );
    assert_eq!(
        fields_for_wildcard_in(&Vec::new(), None).err().unwrap().message,
        "[request query.pattern]: expected value of type [string] but got [undefined]"
    );
    let timed = |days: &str| {
        let p = pairs(&[("pattern", "p"), ("look_back", days)]);
        fields_for_time_pattern_in(&p, None).map(|r| r.1).map_err(|f| f.message)
    };
    assert_eq!(timed("3"), Ok(3));
    assert_eq!(timed("3.9"), Ok(3));
    assert_eq!(timed("+1.5E1"), Ok(15));
    assert_eq!(timed("1e-1"), Err("[request query.look_back]: Value must be equal to or greater than [1].".into()));
    assert_eq!(timed("Infinity"), Ok(u64::MAX));
    assert_eq!(timed("nan"), Ok(0));
    for (days, said) in [
        ("x", "expected value of type [number] but got [string]"),
        ("", "expected value of type [number] but got [string]"),
        ("1e", "expected value of type [number] but got [string]"),
        ("0.5", "Value must be equal to or greater than [1]."),
        ("-3", "Value must be equal to or greater than [1]."),
        ("-inf", "Value must be equal to or greater than [1]."),
    ] {
        assert_eq!(timed(days), Err(format!("[request query.look_back]: {said}")));
    }
    assert_eq!(days_of("2"), LookBack::Days(2));
    assert_eq!(
        fields_for_time_pattern_in(&pairs(&[("pattern", "p")]), None).err().unwrap().message,
        "[request query.look_back]: expected value of type [number] but got [undefined]"
    );
    let f = not_found_for_fields("No indices match pattern \"x\"");
    assert_eq!(f.status, 404);
    reads_as(f.attributes.as_ref().unwrap().get("code").unwrap(), "\"no_matching_indices\"");
    let f = not_found_for_fields("something else");
    assert_eq!((f.message.as_str(), f.attributes.is_none()), ("Not Found", true));
}

#[test]
fn statistics_take_three_flags_and_no_other() {
    assert_eq!(stats_flags(&Vec::new()).ok().unwrap(), (false, false, false));
    let p = pairs(&[("extended", ""), ("legacy", "true"), ("exclude_usage", "false")]);
    assert_eq!(stats_flags(&p).ok().unwrap(), (true, true, false));
    assert!(stats_flags(&pairs(&[("legacy", "maybe")]))
        .err()
        .unwrap()
        .message
        .starts_with("[request query.legacy]: types that failed validation:\n- [request query.legacy.0]"));
    assert_eq!(
        stats_flags(&pairs(&[("x", "")])).err().unwrap().message,
        "[request query.x]: definition for this key is missing"
    );
    let usage = json(r#"{"opensearchDashboards": {"index": 1}, "other": 2}"#);
    let old = Json::Object(extended_stats(Vec::new(), json("\"c\""), &usage, json("{}"), true));
    reads_as(&old, r#"{"usage": {"index": 1, "other": 2}, "clusterUuid": "c"}"#);
    let new = Json::Object(extended_stats(Vec::new(), json("\"c\""), &usage, json("7"), false));
    reads_as(&new, r#"{"usage": 7, "cluster_uuid": "c"}"#);
    reads_as(
        &server_stats("u", ".kibana", "127.0.0.1:5601", "3.1.0", true),
        r#"{"uuid": "u", "name": "velosearch-console", "index": ".kibana", "host": "127.0.0.1",
            "locale": "en", "transport_address": "127.0.0.1:5601", "version": "3.1.0",
            "snapshot": false, "status": "green"}"#,
    );
}

#[test]
fn smaller_routes_refuse_what_they_do_not_know() {
    assert!(search_strategy("opensearch").is_none());
    assert!(search_strategy("opensearch-with-long-numerals").is_none());
    assert_eq!(search_strategy("x").unwrap().message, "Search strategy x not found");
    assert_eq!(resolve_index("a%20b", &Vec::new()).ok().unwrap(), "/_resolve/index/a%20b");
    assert_eq!(
        resolve_index("a", &pairs(&[("expand_wildcards", "open")])).ok().unwrap(),
        "/_resolve/index/a?expand_wildcards=open"
    );
    assert_eq!(
        resolve_index("a", &pairs(&[("expand_wildcards", "x")])).err().unwrap().message,
        "[request query.expand_wildcards]: expected value to equal [all] but got [x]"
    );
    assert_eq!(goto("/app/x", "/base"), "/base/app/x");
    assert_eq!(goto("http://x", "/base"), "http://x");
}

const FORM: &str = "--b1\r\nContent-Disposition: form-data; name=\"file\"; filename=\"x\"\r\n\r\nline 1\nline 2\r\n--b1\r\nContent-Disposition: form-data; name=\"retries\"\r\n\r\n[1]\r\n--b1--\r\n";

#[test]
fn a_form_is_boundaries_around_parts() {
    assert_eq!(
        form_parts(FORM),
        pairs(&[("file", "line 1\nline 2"), ("retries", "[1]")])
    );
    assert!(form_parts("no form").is_empty());
    assert_eq!(file_part(FORM).as_deref(), Some("line 1\nline 2"));
    assert_eq!(file_part("{}\n").as_deref(), Some("{}\n"));
    assert_eq!(file_part(" \n"), None);
    assert_eq!(file_part("--b\nname=\"x\"\n\ny\n--b--"), None);
    assert_eq!(retries_text(FORM), "[1]");
    assert_eq!(retries_text("--b\n"), "[]");
    assert!(is_form_upload(&Some("multipart/form-data; boundary=b1".into())));
    assert!(!is_form_upload(&Some("application/json".into())));
    assert!(!is_form_upload(&None));
}

#[test]
fn what_was_said_last_of_an_object_is_what_is_done() {
    let all = retries_of(&vec![
        json(r#"{"type": "a", "id": "1", "overwrite": false}"#),
        json(
            r#"{"type": "a", "id": "1", "overwrite": true, "destinationId": "2",
                "replaceReferences": [{"type": "t", "from": "x", "to": "y"}, {"type": "t"}]}"#,
        ),
        json(r#"{"type": "b"}"#),
    ]);
    assert_eq!(all.len(), 2);
    assert!(all[0].overwrite);
    assert_eq!(all[0].destination.as_deref(), Some("2"));
    assert_eq!(all[0].replace, [("t".to_string(), "x".to_string(), "y".to_string())]);
    assert_eq!((all[1].kind.as_str(), all[1].id.as_str()), ("b", ""));
}

#[test]
fn a_request_that_changes_something_says_where_it_came_from() {
    assert!(xsrf_checked(true, "GET", false).is_none());
    assert!(xsrf_checked(true, "POST", true).is_none());
    assert!(xsrf_checked(false, "POST", false).is_none());
    assert_eq!(
        xsrf_checked(true, "POST", false).unwrap().message,
        "Request must contain the osd-xsrf header."
    );
}

#[test]
fn cookies_that_cannot_be_read_are_refused() {
    let check = |c: &str| cookies_checked(&Some(Some(c.into()))).is_none();
    assert!(check("a=b; c=d"));
    assert!(check("a=b;; "));
    assert!(check(""));
    assert!(!check("a"));
    assert!(!check("=b"));
    assert!(!check("a=b; c"));
    assert!(cookies_checked(&Some(None)).is_some());
    assert!(cookies_checked(&None).is_none());
}

#[test]
fn the_proxy_carries_what_the_operator_lets_pass() {
    let filters = listed("^/_cat/.*, ,^idx,(");
    assert_eq!(filters, ["^/_cat/.*", "^idx", "("]);
    let ask = |m: &str, p: &str| console_proxy(&pairs(&[("method", m), ("path", p)]), &filters);
    match ask("get", "/_cat/nodes?v") {
        Ok(x) => assert_eq!(x, ("GET".to_string(), "/_cat/nodes?v&pretty=true".to_string())),
        Err(_) => panic!("not carried"),
    }
    match ask("Put", "idx/_doc/1") {
        Ok(x) => assert_eq!(x, ("PUT".to_string(), "/idx/_doc/1?pretty=true".to_string())),
        Err(_) => panic!("not carried"),
    }
    match ask("GET", "/secret") {
        Err(Uncarried::Forbidden(s)) => assert_eq!(
            s,
            "Error connecting to '/secret':\n\nUnable to send requests to that path."
        ),
        _ => panic!("carried"),
    }
    let bad = |p: &[(&str, &str)]| match console_proxy(&pairs(p), &filters) {
        Err(Uncarried::Bad(f)) => f.message,
        _ => panic!("carried"),
    };
    assert!(bad(&[]).starts_with("[request query.method]: expected value"));
    assert!(bad(&[("method", "patch")]).ends_with("Received 'PATCH'."));
    assert!(bad(&[("method", "GET")]).starts_with("[request query.path]: expected value"));
    assert_eq!(bad(&[("method", "GET"), ("path", "")]), "[request query.path]: Expected non-empty string");
    assert_eq!(path_for("//a?pretty=false"), "/a?pretty=false");
    assert!(is_let(&strings(&[".*"]), "anything"));
    assert!(!is_let(&strings(&["("]), "("));
    assert!(matched(Some(true)) && !matched(Some(false)) && !matched(None));
    assert_eq!(head_text(200, "x"), "200 - x");
    assert_eq!(kind_passed_on("application/json"), "application/json; charset=utf-8");
    assert_eq!(kind_passed_on("text/plain"), "text/plain");
}

#[test]
fn an_answer_is_compressed_where_that_is_worth_it() {
    assert!(wants_gzip(&Some("br, gzip;q=1".into())));
    assert!(!wants_gzip(&Some("br".into())));
    assert!(!wants_gzip(&None));
    let hosts = strings(&["a.example"]);
    assert!(referrer_allowed(&None, &hosts));
    assert!(referrer_allowed(&Some("http://b.example/".into()), &Vec::new()));
    assert!(referrer_allowed(&Some("https://a.example:5601/app?x".into()), &hosts));
    assert!(referrer_allowed(&Some("a.example#x".into()), &hosts));
    assert!(!referrer_allowed(&Some("https://b.example/".into()), &hosts));
    assert!(is_compressed(true, true, false, Some(1024)));
    assert!(!is_compressed(true, true, false, Some(1023)));
    assert!(is_compressed(true, true, false, Some(8 * 1024 * 1024)));
    assert!(!is_compressed(true, true, false, Some(8 * 1024 * 1024 + 1)));
    assert!(!is_compressed(true, true, true, Some(2000)));
    assert!(!is_compressed(true, true, false, None));
    match compressed(vec![7u8; 5000]) {
        Packed::Gzip(z) => {
            assert!(z.len() < 5000);
            assert_eq!(&z[..2], [0x1f, 0x8b]);
            let mut back = Vec::new();
            std::io::Read::read_to_end(&mut flate2::read::GzDecoder::new(&z[..]), &mut back).unwrap();
            assert_eq!(back, vec![7u8; 5000]);
        }
        _ => panic!("not compressed"),
    }
    assert!(matches!(compressed(vec![1, 2, 3]), Packed::Plain(b) if b == [1, 2, 3]));
    assert!(matches!(pack(vec![1], None), Packed::Failed(f) if f.status == 500));
}

#[test]
fn so_many_objects_and_no_more() {
    assert!(too_many(1000).is_none());
    let a = too_many(1001).unwrap();
    assert_eq!(a.status, 400);
    reads_as(
        &a.body,
        r#"{"statusCode": 400, "error": "Bad Request",
            "message": "Too many objects in one request: [1001], the most is [1000]"}"#,
    );
}

#[test]
fn each_object_is_answered_for_on_its_own() {
    let asked = vec![
        json(r#"{"type": "a", "id": "1"}"#),
        json(r#"{"type": "a", "id": "2"}"#),
        json(r#"{"type": "b"}"#),
    ];
    let wrote = || {
        vec![
            Wrote::Saved(json("1")),
            Wrote::Failed(Failed::of(409, "long words")),
            Wrote::Failed(Failed::of(404, "gone")),
        ]
    };
    reads_as(
        &bulk_create(&asked, &wrote()),
        r#"{"saved_objects": [1,
            {"id": "2", "type": "a", "error": {"statusCode": 409, "error": "Conflict",
             "message": "Saved object [a/2] conflict"}},
            {"id": "", "type": "b", "error": {"statusCode": 404, "message": "gone"}}]}"#,
    );
    let v = value(&bulk_update(&asked, &wrote()));
    assert_eq!(v["saved_objects"][1]["error"]["error"], "Conflict");
    assert_eq!(v["saved_objects"][2]["error"]["error"], "Not Found");
    reads_as(
        &entry_changed(&asked[0], &Wrote::Failed(Failed::of(1, "m")), None),
        r#"{"id": "1", "type": "a", "error": {"statusCode": 1, "error": "Error", "message": "m"}}"#,
    );
    let w = writing_of("k", None, &json(r#"{"migrationVersion": 3}"#), true);
    reads_as(&w.attributes, "{}");
    reads_as(&w.references, "[]");
    assert!(w.overwrite && w.migration_version.is_some());
    let all = writings_of(&asked, false);
    assert_eq!((all[2].kind.as_str(), all[2].id.is_none()), ("b", true));
    assert_eq!(all[0].id.as_deref(), Some("1"));
}

#[test]
fn a_body_has_to_hold_what_it_is_asked_for() {
    assert_eq!(names_listed(Some(&json(r#"["a", 1]"#))), ["a"]);
    assert_eq!(names_listed(Some(&json("\"x\""))), ["x"]);
    assert!(names_listed(None).is_empty());
    let e = export(&Some(json(r#"{"type": "a", "objects": [1], "includeReferencesDeep": true}"#)));
    let e = e.ok().unwrap();
    assert_eq!((e.types.len(), e.objects.len(), e.references, e.plain), (1, 1, true, false));
    for none in [None, Some(json("[]"))] {
        assert_eq!(
            export(&none).err().unwrap().message,
            "[request body]: expected a plain object value, but found [null] instead."
        );
    }
    assert_eq!(export_text(&vec![json("1"), json("{}")]), "1\n{}");
    assert_eq!(required(&json(r#"{"url": "u"}"#), "url").ok().unwrap(), "u");
    assert_eq!(
        required(&json("{}"), "url").err().unwrap().message,
        "[request body.url]: expected value of type [string] but got [undefined]"
    );
    assert!(suggestions(&json(r#"{"field": "f", "query": ""}"#)).is_ok());
    assert!(suggestions(&json(r#"{"field": "f"}"#)).err().unwrap().message.contains("body.query"));
    assert!(suggestions(&json("{}")).err().unwrap().message.contains("body.field"));
    assert_eq!(dql_opt_in(&json(r#"{"opt_in": true}"#)).ok(), Some(true));
    for (body, got) in [
        ("{}", "undefined"),
        (r#"{"opt_in": "x"}"#, "string"),
        (r#"{"opt_in": 1}"#, "number"),
        (r#"{"opt_in": []}"#, "array"),
        (r#"{"opt_in": {}}"#, "object"),
    ] {
        assert_eq!(
            dql_opt_in(&json(body)).err().unwrap().message,
            format!("[request body.opt_in]: expected value of type [boolean] but got [{got}]")
        );
    }
    reads_as(&ui_metric_report(Kept::Done).ok().unwrap(), r#"{"status": "ok"}"#);
    reads_as(
        &ui_metric_report(Kept::Failed(Failed::of(500, "x"))).ok().unwrap(),
        r#"{"status": "fail"}"#,
    );
    assert!(ui_metric_report(Kept::Failed(Failed::of(400, "x"))).is_err());
    let sets = vec![json(r#"{"id": "a"}"#), json(r#"{"id": "b", "n": 2}"#)];
    reads_as(sample_set(&sets, "b").unwrap(), r#"{"id": "b", "n": 2}"#);
    assert!(sample_set(&sets, "c").is_none());
}

#[test]
fn a_call_is_named_in_the_body_or_in_the_query() {
    let (e, d) = ism_api_caller(&Some(json(r#"{"endpoint": "x", "data": [1]}"#)), &Vec::new(), &None);
    assert_eq!(e, "x");
    reads_as(&d, "[1]");
    let (e, d) = ism_api_caller(&Some(json("[]")), &pairs(&[("endpoint", "y")]), &Some(json("2")));
    assert_eq!(e, "y");
    reads_as(&d, "2");
    let (e, d) = ism_api_caller(&None, &Vec::new(), &None);
    assert_eq!(e, "");
    reads_as(&d, "null");
}

#[test]
fn what_the_engine_said_is_carried_back() {
    reads_as(&carry(200, ReadAs::Value(json("1"))).ok().unwrap(), "1");
    let f = carry(400, ReadAs::Value(json(r#"{"error": {"reason": "bad"}}"#))).err().unwrap();
    assert_eq!((f.status, f.message.as_str()), (400, "bad"));
    reads_as(&f.error.unwrap(), r#"{"reason": "bad"}"#);
    let f = carry(500, ReadAs::Value(json("[]"))).err().unwrap();
    assert_eq!(f.message, "[]");
    let f = carry(200, ReadAs::Unreadable("eof".into())).err().unwrap();
    assert_eq!((f.status, f.message.as_str()), (502, "the engine's answer could not be read: eof"));
    let (index, search) = preview_scripted_field(&json(
        r#"{"index": "i", "name": "n", "script": "s", "additionalFields": ["a"]}"#,
    ))
    .ok()
    .unwrap();
    assert_eq!(index, "i");
    reads_as(
        &search,
        r#"{"size": 10, "timeout": "30s", "query": {"match_all": {}}, "_source": ["a"],
            "script_fields": {"n": {"script": {"lang": "painless", "source": "s"}}}}"#,
    );
    assert!(preview_scripted_field(&json(r#"{"index": "i"}"#)).is_err());
    let (_, search) = hits_status(&json(r#"{"index": "i", "query": {"a": 1}}"#)).ok().unwrap();
    reads_as(&search, r#"{"size": 1, "query": {"a": 1}}"#);
    assert!(hits_status(&json(r#"{"index": "i", "query": 3}"#)).is_err());
    reads_as(&hits_count(&json(r#"{"hits": {"hits": [1]}}"#)), r#"{"count": 1}"#);
    reads_as(&hits_count(&json("{}")), r#"{"count": 0}"#);
}

#[test]
fn a_console_with_no_engine_is_red() {
    let b = Build { version: "3.1.0".into(), hash: None, number: 9 };
    let v = value(&console_status("u", &b, &Reached::No("down".into()), "t", json("{}")));
    assert_eq!(v["status"]["overall"]["state"], "red");
    assert_eq!(v["status"]["overall"]["nickname"], "Danger Will Robinson");
    assert_eq!(v["status"]["statuses"][0]["message"], "OpenSearch is not available: down");
    assert_eq!(v["status"]["statuses"][0]["id"], "core:opensearch@3.1.0");
    assert_eq!(v["version"]["build_hash"], "unknown");
    let v = value(&console_status("u", &b, &Reached::Yes, "t", json("{}")));
    assert_eq!(v["status"]["overall"]["uiColor"], "secondary");
    assert_eq!(v["status"]["statuses"][0]["message"], "OpenSearch is available");
    let v = value(&console_status("u", &b, &Reached::Unasked("x".into()), "t", json("{}")));
    assert_eq!(v["status"]["statuses"][0]["message"], "the check could not be run: x");
}

#[test]
fn an_import_is_a_file_sent_as_one() {
    let form = Some("multipart/form-data; boundary=b1".to_string());
    assert_eq!(import(&form, FORM).ok().unwrap(), "line 1\nline 2");
    let f = import(&Some("application/json".into()), FORM).err().unwrap();
    assert_eq!((f.status, f.message.as_str()), (415, "Unsupported Media Type"));
    assert_eq!(import(&None, FORM).err().unwrap().status, 415);
    assert_eq!(
        import(&form, "").err().unwrap().message,
        "[request body.file]: expected value of type [Stream] but got [undefined]"
    );
}

#[test]
fn a_change_names_the_version_it_was_made_from() {
    let (attributes, references, version) =
        changes_of(&json(r#"{"attributes": {"a": 1}, "version": "v"}"#));
    reads_as(&attributes, r#"{"a": 1}"#);
    assert!(references.is_none());
    assert_eq!(version.as_deref(), Some("v"));
    reads_as(&changes_of(&json("{}")).0, "{}");
    reads_as(
        &endpoint_refused("").unwrap(),
        r#"{"ok": false, "error": "Expected non-empty string on endpoint"}"#,
    );
    assert!(endpoint_refused("x").is_none());
    assert!(in_session(&json(
        r#"{"settings": {"state:storeInSessionStorage": {"userValue": true}}}"#
    )));
    assert!(!in_session(&json("{}")));
    reads_as(&report_in(&json(r#"{"report": 1}"#)).ok().unwrap(), "1");
    assert!(report_in(&json("{}")).err().unwrap().message.contains("[object] but got [undefined]"));
}

#[test]
fn fields_asked_for_once_are_a_json_list() {
    let once = |v: &str| {
        meta_fields_of(&pairs(&[("meta_fields", v)])).map_err(|f| (f.status, f.message))
    };
    assert_eq!(once(r#"["_id", "a\u0062\n"]"#), Ok(strings(&["_id", "ab\n"])));
    assert_eq!(once(" [ ] "), Ok(Vec::new()));
    for bad in ["_id", "", "[1]", "[\"a\"] x", "[\"a\",]", "null", "\"a\"", "{}"] {
        assert_eq!(once(bad), Err((400, "Bad Request".to_string())), "{bad}");
    }
    let query = |q: &str| fields_for_wildcard(&Some(q.into())).map_err(|f| f.message);
    assert_eq!(
        query("pattern=logs%2A&meta_fields=%5B%22_id%22%2C%22_source%22%5D"),
        Ok(("logs*".to_string(), strings(&["_id", "_source"])))
    );
    assert_eq!(
        query("pattern=p&meta_fields=_id&meta_fields=_x"),
        Ok(("p".to_string(), strings(&["_id", "_x"])))
    );
    assert_eq!(query("pattern=p&meta_fields=_id"), Err("Bad Request".to_string()));
    assert!(fields_for_wildcard(&None).err().unwrap().message.contains("[undefined]"));
    let timed = fields_for_time_pattern(&Some(
        "pattern=%5Blogs-%5DYYYY&look_back=2&meta_fields=%5B%22_id%22%5D".into(),
    ));
    assert_eq!(
        timed.ok().unwrap(),
        ("[logs-]YYYY".to_string(), 2, strings(&["_id"]))
    );
}

#[test]
fn two_names_are_one_only_where_their_seeds_agree() {
    let name = |now: u64, asked: u64| uuid_of(now, 7, asked);
    assert_ne!(name(5, 0), name(5, 1));
    assert_ne!(name(5, 0), name(6, 0));
    assert_ne!(name(5, 0), name(5 + (1 << 36), 0));
    assert_eq!(name(5, 0), name(5 + (1 << 37), 0));
    let spread = 0x9E37_79B9_7F4A_7C15u64 % (1 << 37);
    assert_eq!(name(0, 0), name(spread, 1));
}

#[test]
fn a_text_is_quoted_as_json_has_it() {
    for s in ["", "a\"b\\c", "\u{0}\u{8}\t\n\u{b}\u{c}\r\u{1f} /\u{7f}\u{e9}\u{1f600}"] {
        assert_eq!(Json::Text(s.into()).render(), serde_json::to_string(s).unwrap());
    }
}
