use velosearch::api::pools::{
    admission_on, pool, pool_for, pools, said_number, variable_name, Arrival, Pool, Said,
};

#[test]
fn a_request_is_counted_under_the_pool_the_reference_runs_it_in() {
    assert_eq!(pool_for("POST", "/orders/_search"), "search");
    assert_eq!(pool_for("PUT", "/orders/_doc/1"), "write");
    assert_eq!(pool_for("GET", "/orders/_doc/1"), "get");
    assert_eq!(pool_for("POST", "/_bulk"), "write");
    assert_eq!(pool_for("GET", "/_cat/indices"), "management");
    assert_eq!(pool_for("PUT", "/orders"), "generic");
}

#[test]
fn every_other_path_has_its_pool() {
    assert_eq!(pool_for("GET", "/"), "management");
    assert_eq!(pool_for("POST", "/a/_refresh"), "refresh");
    assert_eq!(pool_for("POST", "/a/_flush"), "flush");
    assert_eq!(pool_for("POST", "/a/_forcemerge"), "force_merge");
    assert_eq!(pool_for("GET", "/_analyze"), "analyze");
    assert_eq!(pool_for("PUT", "/_snapshot/r/s"), "snapshot");
    assert_eq!(pool_for("GET", "/_mget"), "get");
    assert_eq!(pool_for("HEAD", "/a/_source/1"), "get");
}

fn said(size: Option<i64>, queue_size: Option<i64>) -> Said {
    Said { cpus: 8, admission: true, size, queue_size }
}

#[test]
fn a_pool_is_sized_by_the_machine_unless_it_is_told() {
    let all = pools();
    assert_eq!(all.len(), 16);
    let search = &all[pool(&all, "search")];
    assert_eq!(search.size(8), 13);
    assert_eq!(search.at_once(&said(None, None)), Some(26));
    assert_eq!(search.at_once(&said(Some(3), None)), Some(3));
    assert_eq!(search.at_once(&said(Some(0), None)), None);
    assert_eq!(search.queue_size(&said(None, None)), Some(1000));
    assert_eq!(search.queue_size(&said(None, Some(-1))), None);
    assert_eq!(search.queue_size(&said(None, Some(0))), Some(0));
    assert_eq!(search.threads(&said(Some(3), None), 0), 3);
    assert_eq!(all[pool(&all, "analyze")].at_once(&said(None, None)), Some(4));
    assert_eq!(all[pool(&all, "listener")].size(64), 10);
    // a scaling pool has no ceiling, and an unknown name is the generic one
    assert_eq!(all[pool(&all, "flush")].at_once(&said(None, None)), None);
    assert_eq!(all[pool(&all, "no such pool")].name, "generic");
    assert_eq!(all[5].threads(&said(None, None), 12), 12);
    assert_eq!(all[5].queue(7), 7);
    // and no pool has one where admission is off
    let off = Said { cpus: 8, admission: false, size: None, queue_size: None };
    assert_eq!(search.at_once(&off), None);
}

#[test]
fn what_the_environment_says_is_read() {
    assert!(admission_on(&None));
    assert!(admission_on(&Some("on".into())));
    for no in ["off", "false", "0"] {
        assert!(!admission_on(&Some(no.into())));
    }
    assert_eq!(said_number(&Some(" -1 ".into())), Some(-1));
    assert_eq!(said_number(&Some("many".into())), None);
    assert_eq!(
        variable_name("search_throttled", "QUEUE_SIZE"),
        "VELOSEARCH_THREAD_POOL_SEARCH_THROTTLED_QUEUE_SIZE"
    );
}

#[test]
fn a_full_pool_queues_and_a_full_queue_refuses() {
    let mut p = Pool::new("search", "fixed", 1000);
    let s = said(Some(1), Some(1));
    assert_eq!(p.arrive(&s), Arrival::Run { placed: true });
    p.begin();
    assert_eq!(p.arrive(&s), Arrival::Wait);
    assert_eq!(p.arrive(&s), Arrival::Refuse { room: 1 });
    assert_eq!((p.active, p.waiting, p.rejected), (1, 1, 1));
    let refusal = p.too_busy(1);
    assert_eq!(refusal.status, 429);
    assert_eq!(
        refusal.reason,
        "rejected execution of coordinating operation [thread_pool_name = search, queue_capacity = 1, task_count = 2]"
    );
    // the first is done, the one that waited takes its place
    p.finish(true, false);
    p.leave_queue(true);
    p.begin();
    assert_eq!((p.active, p.waiting, p.placed), (1, 0, 1));
    p.finish(true, true);
    assert_eq!((p.active, p.placed, p.completed, p.rejected, p.largest), (0, 0, 2, 2, 1));
}

#[test]
fn a_request_that_waits_takes_its_turn_when_there_is_one() {
    let said = Said { cpus: 1, admission: true, size: Some(1), queue_size: Some(5) };
    let mut all = pools();
    let at = pool(&all, "search");
    let p = &mut all[at];
    assert!(matches!(p.arrive(&said), Arrival::Run { placed: true }));
    assert!(matches!(p.arrive(&said), Arrival::Wait));
    assert!(matches!(p.arrive(&said), Arrival::Wait));
    assert!(!p.take_turn(&said));
    assert_eq!((p.placed, p.waiting), (1, 2));
    p.begin();
    p.finish(true, false);
    assert!(p.take_turn(&said));
    assert!(!p.take_turn(&said));
    assert_eq!((p.placed, p.waiting), (1, 1));
}
