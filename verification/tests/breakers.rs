use velosearch::breaker::{
    check_parent, content_length, limit_of, parent_used, size_of, Breaker, Breakers, Limits,
    Reading, Trip,
};
use velosearch::json::{Json, Number};
use velosearch::size::{parse_size, sized};

fn testing() -> Breaker {
    Breaker::new("testing", "indices.breaker.testing.limit", 1, 100)
}

const MACHINE: u64 = 16 * 1024 * 1024 * 1024;

#[test]
fn a_limit_is_a_share_or_a_size() {
    assert_eq!(limit_of("50%", 1000), Some(500));
    assert_eq!(limit_of("1kb", 1000), Some(1024));
    assert_eq!(limit_of("4096", 1000), Some(4096));
    assert_eq!(limit_of("200%", 1000), None);
    assert_eq!(limit_of("a lot", 1000), None);
}

#[test]
fn a_reservation_is_given_back_when_it_is_dropped() {
    let mut b = testing();
    let before = b.used();
    let held = b.reserve(1024, "a test", None, MACHINE).expect("under the limit");
    assert_eq!(held.bytes(), 1024);
    assert_eq!(b.used(), before + 1024);
    b.give_back(held);
    assert_eq!(b.used(), before);
}

#[test]
fn more_than_the_limit_is_refused_and_counted() {
    let mut b = testing();
    let tripped = b.tripped();
    let limit = b.limit(None, MACHINE);
    let Err(trip) = b.reserve(limit + 1, "a test", None, MACHINE) else {
        panic!("over the limit")
    };
    assert_eq!(trip.breaker, "testing");
    assert_eq!(trip.limit, limit);
    // a refusal leaves nothing held behind it
    assert_eq!(b.used(), 0);
    assert_eq!(b.tripped(), tripped + 1);
}

#[test]
fn a_refusal_is_the_reference_s_own_shape() {
    let trip = Trip {
        breaker: "request",
        label: "a search".to_string(),
        wanted: 9,
        limit: 4,
        durability: "T",
    };
    let r = trip.response();
    assert_eq!(r.status, 429);
    assert_eq!(r.kind, "circuit_breaking_exception");
    assert_eq!(
        r.reason,
        "[request] Data too large, data for [a search] would be [9/9b], which is larger than the limit of [4/4b]"
    );
    assert_eq!(
        r.body.get("error").unwrap().render(),
        r#"{"type":"circuit_breaking_exception","reason":"[request] Data too large, data for [a search] would be [9/9b], which is larger than the limit of [4/4b]","bytes_wanted":9,"bytes_limit":4,"durability":"T","root_cause":[{"type":"circuit_breaking_exception","reason":"[request] Data too large, data for [a search] would be [9/9b], which is larger than the limit of [4/4b]","bytes_wanted":9,"bytes_limit":4,"durability":"T"}]}"#
    );
}

#[test]
fn a_setting_says_how_much_a_breaker_may_hold() {
    let b = testing();
    assert_eq!(b.limit(None, 1000), 10);
    assert_eq!(b.limit(Some(&Json::Text("25%".into())), 1000), 250);
    assert_eq!(b.limit(Some(&Json::Number(Number::Whole(77))), 1000), 77);
    assert_eq!(b.limit(Some(&Json::Text("a lot".into())), 1000), 10);
    assert_eq!(size_of("12.5%", 1000), Some(125));
    assert_eq!(size_of("-1%", 1000), None);
    assert_eq!(size_of(" 2 mb ", 1000), Some(2 * 1024 * 1024));
}

#[test]
fn sizes_are_read_and_shown_in_their_units() {
    assert_eq!(parse_size("1.5kb"), Some(1536));
    assert_eq!(parse_size("2GB"), Some(2 * 1024 * 1024 * 1024));
    assert_eq!(parse_size("512b"), Some(512));
    assert_eq!(parse_size("512"), None);
    assert_eq!(parse_size("-1kb"), None);
    assert_eq!(parse_size("kb"), None);
    assert_eq!(sized(0), "0b");
    assert_eq!(sized(1023), "1023b");
    assert_eq!(sized(1024), "1kb");
    assert_eq!(sized(1536), "1.5kb");
    assert_eq!(sized(1024 * 1024 * 3 / 2), "1.5mb");
    assert_eq!(sized(u64::MAX), "16383.9pb");
}

#[test]
fn the_parent_counts_the_memory_the_node_has_or_what_is_reserved() {
    let mut all = Breakers::new();
    let held = all.in_flight.reserve(100, "a body", None, MACHINE).unwrap();
    assert_eq!(held.bytes(), 200);
    assert_eq!(parent_used(&all, true, 5_000), 5_000);
    assert_eq!(parent_used(&all, true, 50), 200);
    assert_eq!(parent_used(&all, false, 5_000), 200);
    let names: Vec<&str> = all.all().iter().map(|b| b.name).collect();
    assert_eq!(names, ["request", "fielddata", "in_flight_requests", "parent"]);
}

#[test]
fn a_node_past_its_parent_limit_refuses() {
    let mut all = Breakers::new();
    let limits = Limits { in_flight: None, parent: None, use_real_memory: None, machine: 1000 };
    assert!(check_parent(&mut all, "<transport_request>", &limits, 950).is_ok());
    let trip = check_parent(&mut all, "<transport_request>", &limits, 951).unwrap_err();
    assert_eq!((trip.wanted, trip.limit, trip.durability), (951, 950, "PERMANENT"));
    assert_eq!(all.parent.tripped(), 1);
    // only what the breakers reserved counts where the real memory does not
    let told = Json::Text("false".into());
    let limits =
        Limits { in_flight: None, parent: None, use_real_memory: Some(&told), machine: 1000 };
    assert!(check_parent(&mut all, "<transport_request>", &limits, 951).is_ok());
}

#[test]
fn a_refused_request_holds_nothing() {
    let mut all = Breakers::new();
    let limits = Limits { in_flight: None, parent: None, use_real_memory: None, machine: 1000 };
    // a body that is too large
    let trip = all.take_in("write", 501, &limits, 0).err().unwrap();
    assert_eq!((trip.breaker, trip.wanted, trip.limit), ("in_flight_requests", 1002, 1000));
    assert_eq!((all.in_flight.used(), all.in_flight.tripped()), (0, 1));
    // a node that is past its limit
    let trip = all.take_in("search", 100, &limits, 999).err().unwrap();
    assert_eq!(trip.breaker, "parent");
    assert_eq!(all.in_flight.used(), 0);
    // which a request that builds nothing is not asked about
    let held = all.take_in("management", 100, &limits, 999).ok().unwrap().unwrap();
    assert_eq!(all.in_flight.used(), 200);
    all.in_flight.give_back(held);
    assert_eq!(all.in_flight.used(), 0);
    assert!(all.take_in("get", 0, &limits, 10).ok().unwrap().is_none());
}

#[test]
fn a_reading_is_fresh_for_a_tenth_of_a_second() {
    let r = Reading { at: 1_000, value: 7 };
    assert_eq!(r.fresh(1_099), Some(7));
    assert_eq!(r.fresh(1_100), None);
    assert_eq!(Reading { at: 0, value: 7 }.fresh(50), None);
    assert_eq!(content_length(&Some("12".into())), 12);
    assert_eq!(content_length(&Some("twelve".into())), 0);
    assert_eq!(content_length(&None), 0);
}

#[test]
fn a_share_may_be_written_with_an_exponent() {
    assert_eq!(limit_of("1e1%", 1000), Some(100));
    assert_eq!(limit_of("2.5E+1 %", 1000), Some(250));
    assert_eq!(limit_of("500e-1%", 1000), Some(500));
    assert_eq!(limit_of("1e3%", 1000), None);
    assert_eq!(limit_of("1e99999999999999999999%", 1000), None);
    assert_eq!(limit_of("1e-99999999999999999999%", 1000), Some(0));
    assert_eq!(limit_of("1e%", 1000), None);
    assert_eq!(limit_of("inf%", 1000), None);
}

#[test]
fn a_share_counts_to_the_last_figure() {
    assert_eq!(limit_of("33.33333333333333%", 3_000_000_000_000_000), Some(999_999_999_999_999));
    assert_eq!(limit_of("0.0000001%", 1_000_000_000), Some(1));
    assert_eq!(limit_of("100%", u64::MAX), Some(u64::MAX));
    assert_eq!(limit_of("100.000%", 7), Some(7));
    assert_eq!(limit_of("100.0000000001%", 7), None);
    assert_eq!(limit_of("-0%", 7), Some(0));
    assert_eq!(limit_of("-0.0000000001%", 7), None);
}

#[test]
fn a_limit_said_for_now_comes_before_one_said_for_good() {
    let text = |s: &str| Json::Text(s.into());
    let settings = Json::Object(vec![
        (
            "persistent".into(),
            Json::Object(vec![
                ("indices.breaker.total.limit".into(), text("1kb")),
                ("indices.breaker.total.use_real_memory".into(), Json::Bool(false)),
            ]),
        ),
        (
            "transient".into(),
            Json::Object(vec![("indices.breaker.total.limit".into(), text("2kb"))]),
        ),
    ]);
    let breakers = Breakers::new();
    assert_eq!(breakers.parent.setting, "indices.breaker.total.limit");
    let limits = Limits::said(&breakers, &settings, 1000);
    assert_eq!(breakers.parent.limit(limits.parent, 1000), 2048);
    assert!(matches!(limits.use_real_memory, Some(Json::Bool(false))));
    assert!(limits.in_flight.is_none());
    assert!(Limits::said(&breakers, &Json::Null, 1000).parent.is_none());
}
