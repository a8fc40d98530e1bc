//! What a scrape says, line by line.

use vstd::prelude::*;

use crate::api::prometheus::{
    breakers_of, cluster_series, count, disk_series, ended_of, index_series, label, labels_text,
    machine_series, memory_series, ones, per_index_series, pointed, reading, scraped, shown,
    tasks_of, thousandth, threads_of, totals_of, BreakerReadingV, FigureV, MetricsV, PoolReadingV,
    ScrapeV, SeriesV,
};
use crate::json::{member, JsonV};
use crate::laws::words::{occurs, occurs_at};
use crate::text::{cut, dec, lemma_cut_after, lemma_cut_whole};

verus! {

/// The labels that every sample of a scrape bears.
pub open spec fn bearing(s: ScrapeV) -> Seq<char> {
    "cluster=\""@ + label(s.cluster) + "\",node=\""@ + label(s.node) + "\",nodeid=\""@ + label(
        s.node_id,
    ) + "\""@
}

/// A line of a scrape: the name of a sample, its labels and what it comes to.
pub open spec fn sample(s: ScrapeV, name: Seq<char>, more: Seq<char>, value: Seq<char>) -> Seq<
    char,
> {
    name + "{"@ + bearing(s) + more + "} "@ + value + "\n"@
}

/// What a scrape says of a metric before its samples.
pub open spec fn heading(name: Seq<char>, kind: Seq<char>, help: Seq<char>) -> Seq<char> {
    "# HELP "@ + name + " "@ + help + "\n# TYPE "@ + name + " "@ + kind + "\n"@
}

/// The text of a scrape.
pub open spec fn text(s: ScrapeV) -> Seq<char> {
    scraped(s).out
}

/// Whether a text that is being put together goes on from another.
spec fn grown(a: MetricsV, b: MetricsV) -> bool {
    a.common == b.common && a.out.len() <= b.out.len() && b.out.take(a.out.len() as int) == a.out
}

proof fn lemma_grown(a: MetricsV, b: MetricsV, more: Seq<char>)
    requires
        a.common == b.common,
        b.out == a.out + more,
    ensures
        grown(a, b),
        forall|x: Seq<char>| occurs(a.out, x) ==> #[trigger] occurs(b.out, x),
{
    assert(b.out.take(a.out.len() as int) =~= a.out);
    lemma_still_occurs(a, b);
}

proof fn lemma_still_occurs(a: MetricsV, b: MetricsV)
    requires
        grown(a, b),
    ensures
        forall|x: Seq<char>| occurs(a.out, x) ==> #[trigger] occurs(b.out, x),
{
    assert forall|x: Seq<char>| occurs(a.out, x) implies #[trigger] occurs(b.out, x) by {
        let i = choose|i: int| occurs_at(a.out, x, i);
        assert(b.out.subrange(i, i + x.len()) =~= b.out.take(a.out.len() as int).subrange(
            i,
            i + x.len(),
        ));
        assert(occurs_at(b.out, x, i));
    }
}

proof fn lemma_then(a: MetricsV, b: MetricsV, c: MetricsV)
    requires
        grown(a, b),
        grown(b, c),
    ensures
        grown(a, c),
{
    assert(c.out.take(a.out.len() as int) =~= c.out.take(b.out.len() as int).take(
        a.out.len() as int,
    ));
}

proof fn lemma_family(m: MetricsV, name: Seq<char>, kind: Seq<char>, help: Seq<char>)
    ensures
        grown(m, m.family(name, kind, help)),
        occurs(m.family(name, kind, help).out, heading(name, kind, help)),
{
    let b = m.family(name, kind, help);
    let h = heading(name, kind, help);
    assert(b.out =~= m.out + h);
    lemma_grown(m, b, h);
    assert(b.out.subrange(m.out.len() as int, m.out.len() as int + h.len()) =~= h);
    assert(occurs_at(b.out, h, m.out.len() as int));
}

proof fn lemma_value(
    m: MetricsV,
    name: Seq<char>,
    labels: Seq<(Seq<char>, Seq<char>)>,
    f: FigureV,
)
    ensures
        grown(m, m.value(name, labels, f)),
        occurs(
            m.value(name, labels, f).out,
            name + "{"@ + m.common + labels_text(labels) + "} "@ + shown(f) + "\n"@,
        ),
{
    let b = m.value(name, labels, f);
    let h = name + "{"@ + m.common + labels_text(labels) + "} "@ + shown(f) + "\n"@;
    assert(b.out =~= m.out + h);
    lemma_grown(m, b, h);
    assert(b.out.subrange(m.out.len() as int, m.out.len() as int + h.len()) =~= h);
    assert(occurs_at(b.out, h, m.out.len() as int));
}

proof fn lemma_one(m: MetricsV, name: Seq<char>, kind: Seq<char>, help: Seq<char>, f: FigureV)
    ensures
        grown(m, m.one(name, kind, help, f)),
        occurs(m.one(name, kind, help, f).out, heading(name, kind, help)),
        occurs(
            m.one(name, kind, help, f).out,
            name + "{"@ + m.common + ""@ + "} "@ + shown(f) + "\n"@,
        ),
{
    let a = m.family(name, kind, help);
    lemma_family(m, name, kind, help);
    lemma_value(a, name, Seq::empty(), f);
    let b = a.value(name, Seq::empty(), f);
    lemma_then(m, a, b);
    lemma_still_occurs(a, b);
}

proof fn lemma_ones(m: MetricsV, t: Seq<SeriesV>, v: JsonV, n: nat)
    requires
        n <= t.len(),
    ensures
        grown(m, ones(m, t, v, n)),
        forall|k: int|
            0 <= k < n ==> occurs(
                ones(m, t, v, n).out,
                heading((#[trigger] t[k]).name, t[k].kind, t[k].help),
            ) && occurs(
                ones(m, t, v, n).out,
                t[k].name + "{"@ + m.common + ""@ + "} "@ + shown(reading(pointed(v, t[k].path)))
                    + "\n"@,
            ),
    decreases n,
{
    if n == 0 {
        assert(m.out.take(m.out.len() as int) =~= m.out);
    } else {
        lemma_ones(m, t, v, (n - 1) as nat);
        let a = ones(m, t, v, (n - 1) as nat);
        let s = t[n - 1];
        lemma_one(a, s.name, s.kind, s.help, reading(pointed(v, s.path)));
        let b = ones(m, t, v, n);
        lemma_then(m, a, b);
        lemma_still_occurs(a, b);
    }
}

proof fn lemma_threads(m: MetricsV, p: Seq<PoolReadingV>, n: nat)
    requires
        n <= p.len(),
    ensures
        grown(m, threads_of(m, p, n)),
        forall|k: int|
            0 <= k < n ==> occurs(
                threads_of(m, p, n).out,
                "opensearch_threadpool_threads_number"@ + "{"@ + m.common + labels_text(
                    seq![("name"@, (#[trigger] p[k]).name)],
                ) + "} "@ + shown(count(p[k].threads)) + "\n"@,
            ),
    decreases n,
{
    if n == 0 {
        assert(m.out.take(m.out.len() as int) =~= m.out);
    } else {
        lemma_threads(m, p, (n - 1) as nat);
        let a = threads_of(m, p, (n - 1) as nat);
        lemma_value(
            a,
            "opensearch_threadpool_threads_number"@,
            seq![("name"@, p[n - 1].name)],
            count(p[n - 1].threads),
        );
        let b = a.value(
            "opensearch_threadpool_threads_number"@,
            seq![("name"@, p[n - 1].name)],
            count(p[n - 1].threads),
        );
        lemma_then(m, a, b);
        lemma_still_occurs(a, b);
        assert(b == threads_of(m, p, n));
    }
}

proof fn lemma_tasks(m: MetricsV, p: Seq<PoolReadingV>, n: nat)
    requires
        n <= p.len(),
    ensures
        grown(m, tasks_of(m, p, n)),
        forall|k: int|
            0 <= k < n ==> occurs(
                tasks_of(m, p, n).out,
                "opensearch_threadpool_tasks_number"@ + "{"@ + m.common + labels_text(
                    seq![("name"@, (#[trigger] p[k]).name), ("type"@, "active"@)],
                ) + "} "@ + shown(count(p[k].active)) + "\n"@,
            ) && occurs(
                tasks_of(m, p, n).out,
                "opensearch_threadpool_tasks_number"@ + "{"@ + m.common + labels_text(
                    seq![("name"@, p[k].name), ("type"@, "queue"@)],
                ) + "} "@ + shown(count(p[k].queue)) + "\n"@,
            ),
    decreases n,
{
    if n == 0 {
        assert(m.out.take(m.out.len() as int) =~= m.out);
    } else {
        lemma_tasks(m, p, (n - 1) as nat);
        let a = tasks_of(m, p, (n - 1) as nat);
        lemma_value(
            a,
            "opensearch_threadpool_tasks_number"@,
            seq![("name"@, p[n - 1].name), ("type"@, "active"@)],
            count(p[n - 1].active),
        );
        let b = a.value(
            "opensearch_threadpool_tasks_number"@,
            seq![("name"@, p[n - 1].name), ("type"@, "active"@)],
            count(p[n - 1].active),
        );
        lemma_then(m, a, b);
        lemma_still_occurs(a, b);
        lemma_value(
            b,
            "opensearch_threadpool_tasks_number"@,
            seq![("name"@, p[n - 1].name), ("type"@, "queue"@)],
            count(p[n - 1].queue),
        );
        let c = b.value(
            "opensearch_threadpool_tasks_number"@,
            seq![("name"@, p[n - 1].name), ("type"@, "queue"@)],
            count(p[n - 1].queue),
        );
        lemma_then(m, b, c);
        lemma_still_occurs(b, c);
        assert(c == tasks_of(m, p, n));
    }
}

proof fn lemma_ended(m: MetricsV, p: Seq<PoolReadingV>, n: nat)
    requires
        n <= p.len(),
    ensures
        grown(m, ended_of(m, p, n)),
        forall|k: int|
            0 <= k < n ==> occurs(
                ended_of(m, p, n).out,
                "opensearch_threadpool_tasks_count"@ + "{"@ + m.common + labels_text(
                    seq![("name"@, (#[trigger] p[k]).name), ("type"@, "completed"@)],
                ) + "} "@ + shown(count(p[k].completed)) + "\n"@,
            ) && occurs(
                ended_of(m, p, n).out,
                "opensearch_threadpool_tasks_count"@ + "{"@ + m.common + labels_text(
                    seq![("name"@, p[k].name), ("type"@, "rejected"@)],
                ) + "} "@ + shown(count(p[k].rejected)) + "\n"@,
            ),
    decreases n,
{
    if n == 0 {
        assert(m.out.take(m.out.len() as int) =~= m.out);
    } else {
        lemma_ended(m, p, (n - 1) as nat);
        let a = ended_of(m, p, (n - 1) as nat);
        lemma_value(
            a,
            "opensearch_threadpool_tasks_count"@,
            seq![("name"@, p[n - 1].name), ("type"@, "completed"@)],
            count(p[n - 1].completed),
        );
        let b = a.value(
            "opensearch_threadpool_tasks_count"@,
            seq![("name"@, p[n - 1].name), ("type"@, "completed"@)],
            count(p[n - 1].completed),
        );
        lemma_then(m, a, b);
        lemma_still_occurs(a, b);
        lemma_value(
            b,
            "opensearch_threadpool_tasks_count"@,
            seq![("name"@, p[n - 1].name), ("type"@, "rejected"@)],
            count(p[n - 1].rejected),
        );
        let c = b.value(
            "opensearch_threadpool_tasks_count"@,
            seq![("name"@, p[n - 1].name), ("type"@, "rejected"@)],
            count(p[n - 1].rejected),
        );
        lemma_then(m, b, c);
        lemma_still_occurs(b, c);
        assert(c == ended_of(m, p, n));
    }
}

proof fn lemma_breakers(m: MetricsV, p: Seq<BreakerReadingV>, n: nat)
    requires
        n <= p.len(),
    ensures
        grown(m, breakers_of(m, p, n)),
        forall|k: int|
            0 <= k < n ==> occurs(
                breakers_of(m, p, n).out,
                "opensearch_circuitbreaker_estimated_bytes"@ + "{"@ + m.common + labels_text(
                    seq![("name"@, (#[trigger] p[k]).name)],
                ) + "} "@ + shown(count(p[k].used)) + "\n"@,
            ) && occurs(
                breakers_of(m, p, n).out,
                "opensearch_circuitbreaker_limit_bytes"@ + "{"@ + m.common + labels_text(
                    seq![("name"@, p[k].name)],
                ) + "} "@ + shown(count(p[k].limit)) + "\n"@,
            ) && occurs(
                breakers_of(m, p, n).out,
                "opensearch_circuitbreaker_tripped_count"@ + "{"@ + m.common + labels_text(
                    seq![("name"@, p[k].name)],
                ) + "} "@ + shown(count(p[k].tripped)) + "\n"@,
            ),
    decreases n,
{
    if n == 0 {
        assert(m.out.take(m.out.len() as int) =~= m.out);
    } else {
        lemma_breakers(m, p, (n - 1) as nat);
        let a = breakers_of(m, p, (n - 1) as nat);
        lemma_value(
            a,
            "opensearch_circuitbreaker_estimated_bytes"@,
            seq![("name"@, p[n - 1].name)],
            count(p[n - 1].used),
        );
        let b = a.value(
            "opensearch_circuitbreaker_estimated_bytes"@,
            seq![("name"@, p[n - 1].name)],
            count(p[n - 1].used),
        );
        lemma_then(m, a, b);
        lemma_still_occurs(a, b);
        lemma_value(
            b,
            "opensearch_circuitbreaker_limit_bytes"@,
            seq![("name"@, p[n - 1].name)],
            count(p[n - 1].limit),
        );
        let c = b.value(
            "opensearch_circuitbreaker_limit_bytes"@,
            seq![("name"@, p[n - 1].name)],
            count(p[n - 1].limit),
        );
        lemma_then(m, b, c);
        lemma_still_occurs(b, c);
        lemma_value(
            c,
            "opensearch_circuitbreaker_tripped_count"@,
            seq![("name"@, p[n - 1].name)],
            count(p[n - 1].tripped),
        );
        let d = c.value(
            "opensearch_circuitbreaker_tripped_count"@,
            seq![("name"@, p[n - 1].name)],
            count(p[n - 1].tripped),
        );
        lemma_then(m, c, d);
        lemma_still_occurs(c, d);
        assert(d == breakers_of(m, p, n));
    }
}

proof fn lemma_per_index(
    m: MetricsV,
    name: Seq<char>,
    path: Seq<char>,
    each: Seq<(Seq<char>, JsonV)>,
    n: nat,
)
    requires
        n <= each.len(),
    ensures
        grown(m, per_index_series(m, name, path, each, n)),
        forall|k: int|
            0 <= k < n ==> occurs(
                per_index_series(m, name, path, each, n).out,
                name + "{"@ + m.common + labels_text(seq![("index"@, (#[trigger] each[k]).0)])
                    + "} "@ + shown(reading(pointed(each[k].1, path))) + "\n"@,
            ),
    decreases n,
{
    if n == 0 {
        assert(m.out.take(m.out.len() as int) =~= m.out);
    } else {
        lemma_per_index(m, name, path, each, (n - 1) as nat);
        let a = per_index_series(m, name, path, each, (n - 1) as nat);
        let labels = seq![("index"@, each[n - 1].0)];
        let f = reading(pointed(each[n - 1].1, path));
        lemma_value(a, name, labels, f);
        let b = a.value(name, labels, f);
        lemma_then(m, a, b);
        lemma_still_occurs(a, b);
    }
}

proof fn lemma_of_indices(
    m: MetricsV,
    name: Seq<char>,
    kind: Seq<char>,
    path: Seq<char>,
    help: Seq<char>,
    each: Seq<(Seq<char>, JsonV)>,
)
    ensures
        grown(m, m.of_indices(name, kind, path, help, each)),
        forall|k: int|
            0 <= k < each.len() ==> occurs(
                m.of_indices(name, kind, path, help, each).out,
                name + "{"@ + m.common + labels_text(seq![("index"@, (#[trigger] each[k]).0)])
                    + "} "@ + shown(reading(pointed(each[k].1, path))) + "\n"@,
            ),
{
    let a = m.family(name, kind, help);
    lemma_family(m, name, kind, help);
    lemma_per_index(a, name, path, each, each.len());
    lemma_then(m, a, m.of_indices(name, kind, path, help, each));
}

// ---- the parts of a scrape, in turn --------------------------------------------

spec fn with_build(s: ScrapeV) -> MetricsV {
    MetricsV::start(s.cluster, s.node, s.node_id).family(
        "velosearch_build_info"@,
        "gauge"@,
        "The build this node is running, as labels."@,
    ).value(
        "velosearch_build_info"@,
        seq![
            ("version"@, s.version),
            ("opensearch_version"@, crate::OPENSEARCH_VERSION@),
            ("build_hash"@, s.build_hash),
        ],
        count(1),
    )
}

spec fn with_status(s: ScrapeV) -> MetricsV {
    with_build(s).one(
        "opensearch_cluster_status"@,
        "gauge"@,
        "Cluster status: 0 green, 1 yellow, 2 red."@,
        count(crate::api::prometheus::status_number(s.health)),
    )
}

spec fn with_cluster(s: ScrapeV) -> MetricsV {
    with_status(s).each(cluster_series(), s.health)
}

spec fn with_machine(s: ScrapeV) -> MetricsV {
    with_cluster(s).each(machine_series(), s.stats)
}

spec fn with_memory(s: ScrapeV) -> MetricsV {
    with_machine(s).each(memory_series(), s.stats)
}

spec fn with_uptime(s: ScrapeV) -> MetricsV {
    with_memory(s).one(
        "opensearch_jvm_uptime_seconds"@,
        "gauge"@,
        "How long this node has been up."@,
        thousandth(reading(pointed(s.stats, "/jvm/uptime_in_millis"@))),
    )
}

spec fn with_disk(s: ScrapeV) -> MetricsV {
    with_uptime(s).each(disk_series(), s.stats)
}

spec fn with_pools(s: ScrapeV) -> MetricsV {
    with_disk(s).pools(s.pools)
}

spec fn with_breakers(s: ScrapeV) -> MetricsV {
    with_pools(s).breakers(s.breakers)
}

spec fn with_totals(s: ScrapeV) -> MetricsV {
    with_breakers(s).totals(totals_of(s.stats))
}

proof fn lemma_pools(m: MetricsV, p: Seq<PoolReadingV>)
    ensures
        grown(m, m.pools(p)),
        forall|k: int|
            0 <= k < p.len() ==> occurs(
                m.pools(p).out,
                "opensearch_threadpool_threads_number"@ + "{"@ + m.common + labels_text(
                    seq![("name"@, (#[trigger] p[k]).name)],
                ) + "} "@ + shown(count(p[k].threads)) + "\n"@,
            ) && occurs(
                m.pools(p).out,
                "opensearch_threadpool_tasks_number"@ + "{"@ + m.common + labels_text(
                    seq![("name"@, p[k].name), ("type"@, "active"@)],
                ) + "} "@ + shown(count(p[k].active)) + "\n"@,
            ) && occurs(
                m.pools(p).out,
                "opensearch_threadpool_tasks_number"@ + "{"@ + m.common + labels_text(
                    seq![("name"@, p[k].name), ("type"@, "queue"@)],
                ) + "} "@ + shown(count(p[k].queue)) + "\n"@,
            ) && occurs(
                m.pools(p).out,
                "opensearch_threadpool_tasks_count"@ + "{"@ + m.common + labels_text(
                    seq![("name"@, p[k].name), ("type"@, "completed"@)],
                ) + "} "@ + shown(count(p[k].completed)) + "\n"@,
            ) && occurs(
                m.pools(p).out,
                "opensearch_threadpool_tasks_count"@ + "{"@ + m.common + labels_text(
                    seq![("name"@, p[k].name), ("type"@, "rejected"@)],
                ) + "} "@ + shown(count(p[k].rejected)) + "\n"@,
            ),
{
    let n = p.len();
    let k1 = "opensearch_threadpool_threads_number"@;
    let h1 = "Requests of this kind run at once."@;
    let k2 = "opensearch_threadpool_tasks_number"@;
    let h2 = "Requests of this kind running or waiting."@;
    let k3 = "opensearch_threadpool_tasks_count"@;
    let h3 =
        "Requests of this kind finished, and refused because the pool and its queue were full."@;
    let a = m.family(k1, "gauge"@, h1);
    lemma_family(m, k1, "gauge"@, h1);
    let b = threads_of(a, p, n);
    lemma_threads(a, p, n);
    let c = b.family(k2, "gauge"@, h2);
    lemma_family(b, k2, "gauge"@, h2);
    let d = tasks_of(c, p, n);
    lemma_tasks(c, p, n);
    let e = d.family(k3, "counter"@, h3);
    lemma_family(d, k3, "counter"@, h3);
    let f = ended_of(e, p, n);
    lemma_ended(e, p, n);
    reveal(MetricsV::pools);
    assert(f == m.pools(p));
    lemma_then(m, a, b);
    lemma_then(m, b, c);
    lemma_then(m, c, d);
    lemma_then(m, d, e);
    lemma_then(m, e, f);
    lemma_then(b, c, d);
    lemma_then(b, d, e);
    lemma_then(b, e, f);
    lemma_then(d, e, f);
    lemma_still_occurs(b, f);
    lemma_still_occurs(d, f);
}

proof fn lemma_all_breakers(m: MetricsV, p: Seq<BreakerReadingV>)
    ensures
        grown(m, m.breakers(p)),
        forall|k: int|
            0 <= k < p.len() ==> occurs(
                m.breakers(p).out,
                "opensearch_circuitbreaker_estimated_bytes"@ + "{"@ + m.common + labels_text(
                    seq![("name"@, (#[trigger] p[k]).name)],
                ) + "} "@ + shown(count(p[k].used)) + "\n"@,
            ) && occurs(
                m.breakers(p).out,
                "opensearch_circuitbreaker_limit_bytes"@ + "{"@ + m.common + labels_text(
                    seq![("name"@, p[k].name)],
                ) + "} "@ + shown(count(p[k].limit)) + "\n"@,
            ) && occurs(
                m.breakers(p).out,
                "opensearch_circuitbreaker_tripped_count"@ + "{"@ + m.common + labels_text(
                    seq![("name"@, p[k].name)],
                ) + "} "@ + shown(count(p[k].tripped)) + "\n"@,
            ),
{
    let k1 = "opensearch_circuitbreaker_estimated_bytes"@;
    let h1 = "What this breaker is holding."@;
    let k2 = "opensearch_circuitbreaker_limit_bytes"@;
    let h2 = "What it may hold."@;
    let k3 = "opensearch_circuitbreaker_tripped_count"@;
    let h3 = "Requests this breaker has refused since the node started."@;
    let a = m.family(k1, "gauge"@, h1);
    lemma_family(m, k1, "gauge"@, h1);
    let b = a.family(k2, "gauge"@, h2);
    lemma_family(a, k2, "gauge"@, h2);
    let c = b.family(k3, "counter"@, h3);
    lemma_family(b, k3, "counter"@, h3);
    lemma_breakers(c, p, p.len());
    let d = breakers_of(c, p, p.len());
    reveal(MetricsV::breakers);
    assert(d == m.breakers(p));
    lemma_then(m, a, b);
    lemma_then(m, b, c);
    lemma_then(m, c, d);
}

proof fn lemma_totals(m: MetricsV, t: JsonV)
    ensures
        grown(m, m.totals(t)),
        forall|k: int|
            0 <= k < index_series().len() ==> occurs(
                m.totals(t).out,
                (#[trigger] index_series()[k]).name + "{"@ + m.common + ""@ + "} "@ + shown(
                    reading(pointed(t, index_series()[k].path)),
                ) + "\n"@,
            ),
        occurs(
            m.totals(t).out,
            "opensearch_indices_indexing_index_time_seconds"@ + "{"@ + m.common + ""@ + "} "@
                + shown(thousandth(reading(pointed(t, "/indexing/index_time_in_millis"@))))
                + "\n"@,
        ),
        occurs(
            m.totals(t).out,
            "opensearch_indices_search_query_time_seconds"@ + "{"@ + m.common + ""@ + "} "@ + shown(
                thousandth(reading(pointed(t, "/search/query_time_in_millis"@))),
            ) + "\n"@,
        ),
        occurs(
            m.totals(t).out,
            "opensearch_indices_search_fetch_time_seconds"@ + "{"@ + m.common + ""@ + "} "@ + shown(
                thousandth(reading(pointed(t, "/search/fetch_time_in_millis"@))),
            ) + "\n"@,
        ),
{
    let f1 = thousandth(reading(pointed(t, "/indexing/index_time_in_millis"@)));
    let f2 = thousandth(reading(pointed(t, "/search/query_time_in_millis"@)));
    let f3 = thousandth(reading(pointed(t, "/search/fetch_time_in_millis"@)));
    let k1 = "opensearch_indices_indexing_index_time_seconds"@;
    let k2 = "opensearch_indices_search_query_time_seconds"@;
    let k3 = "opensearch_indices_search_fetch_time_seconds"@;
    let a = m.each(index_series(), t);
    lemma_ones(m, index_series(), t, index_series().len());
    let b = a.one(k1, "counter"@, "Time spent indexing."@, f1);
    lemma_one(a, k1, "counter"@, "Time spent indexing."@, f1);
    let c = b.one(k2, "counter"@, "Time spent on the query phase."@, f2);
    lemma_one(b, k2, "counter"@, "Time spent on the query phase."@, f2);
    let d = c.one(k3, "counter"@, "Time spent on the fetch phase."@, f3);
    lemma_one(c, k3, "counter"@, "Time spent on the fetch phase."@, f3);
    reveal(MetricsV::totals);
    assert(d == m.totals(t));
    lemma_then(m, a, b);
    lemma_then(m, b, c);
    lemma_then(m, c, d);
    lemma_then(a, b, c);
    lemma_then(a, c, d);
    lemma_then(b, c, d);
    lemma_still_occurs(a, d);
    lemma_still_occurs(b, d);
    lemma_still_occurs(c, d);
}

proof fn lemma_indices(m: MetricsV, each: Seq<(Seq<char>, JsonV)>)
    ensures
        grown(m, m.indices(each)),
        forall|k: int|
            0 <= k < each.len() ==> occurs(
                m.indices(each).out,
                "opensearch_index_doc_number"@ + "{"@ + m.common + labels_text(
                    seq![("index"@, (#[trigger] each[k]).0)],
                ) + "} "@ + shown(reading(pointed(each[k].1, "/docs/count"@))) + "\n"@,
            ) && occurs(
                m.indices(each).out,
                "opensearch_index_store_size_bytes"@ + "{"@ + m.common + labels_text(
                    seq![("index"@, each[k].0)],
                ) + "} "@ + shown(reading(pointed(each[k].1, "/store/size_in_bytes"@))) + "\n"@,
            ) && occurs(
                m.indices(each).out,
                "opensearch_index_search_query_count"@ + "{"@ + m.common + labels_text(
                    seq![("index"@, each[k].0)],
                ) + "} "@ + shown(reading(pointed(each[k].1, "/search/query_total"@))) + "\n"@,
            ) && occurs(
                m.indices(each).out,
                "opensearch_index_indexing_index_count"@ + "{"@ + m.common + labels_text(
                    seq![("index"@, each[k].0)],
                ) + "} "@ + shown(reading(pointed(each[k].1, "/indexing/index_total"@))) + "\n"@,
            ),
{
    let k1 = "opensearch_index_doc_number"@;
    let h1 = "Documents in this index."@;
    let k2 = "opensearch_index_store_size_bytes"@;
    let h2 = "What this index takes on disk."@;
    let k3 = "opensearch_index_search_query_count"@;
    let h3 = "Queries answered out of this index."@;
    let k4 = "opensearch_index_indexing_index_count"@;
    let h4 = "Documents written into this index."@;
    let a = m.of_indices(k1, "gauge"@, "/docs/count"@, h1, each);
    lemma_of_indices(m, k1, "gauge"@, "/docs/count"@, h1, each);
    let b = a.of_indices(k2, "gauge"@, "/store/size_in_bytes"@, h2, each);
    lemma_of_indices(a, k2, "gauge"@, "/store/size_in_bytes"@, h2, each);
    let c = b.of_indices(k3, "counter"@, "/search/query_total"@, h3, each);
    lemma_of_indices(b, k3, "counter"@, "/search/query_total"@, h3, each);
    let d = c.of_indices(k4, "counter"@, "/indexing/index_total"@, h4, each);
    lemma_of_indices(c, k4, "counter"@, "/indexing/index_total"@, h4, each);
    reveal(MetricsV::indices);
    assert(d == m.indices(each));
    lemma_then(m, a, b);
    lemma_then(m, b, c);
    lemma_then(m, c, d);
    lemma_then(a, b, c);
    lemma_then(a, c, d);
    lemma_then(b, c, d);
    lemma_still_occurs(a, d);
    lemma_still_occurs(b, d);
    lemma_still_occurs(c, d);
}

proof fn lemma_stages(s: ScrapeV)
    ensures
        with_build(s).common == bearing(s),
        grown(with_build(s), scraped(s)),
        grown(with_status(s), scraped(s)),
        grown(with_cluster(s), scraped(s)),
        grown(with_machine(s), scraped(s)),
        grown(with_memory(s), scraped(s)),
        grown(with_uptime(s), scraped(s)),
        grown(with_disk(s), scraped(s)),
        grown(with_pools(s), scraped(s)),
        grown(with_breakers(s), scraped(s)),
        grown(with_totals(s), scraped(s)),
{
    let m = scraped(s);
    match pointed(s.stats, "/indices/indices"@) {
        Some(JsonV::Object(each)) => {
            if s.per_index {
                lemma_indices(with_totals(s), each);
            }
        },
        _ => {},
    }
    assert(with_totals(s).out.take(with_totals(s).out.len() as int) =~= with_totals(s).out);
    lemma_totals(with_breakers(s), totals_of(s.stats));
    lemma_then(with_breakers(s), with_totals(s), m);
    lemma_all_breakers(with_pools(s), s.breakers);
    lemma_then(with_pools(s), with_breakers(s), m);
    lemma_pools(with_disk(s), s.pools);
    lemma_then(with_disk(s), with_pools(s), m);
    lemma_ones(with_uptime(s), disk_series(), s.stats, disk_series().len());
    lemma_then(with_uptime(s), with_disk(s), m);
    lemma_one(
        with_memory(s),
        "opensearch_jvm_uptime_seconds"@,
        "gauge"@,
        "How long this node has been up."@,
        thousandth(reading(pointed(s.stats, "/jvm/uptime_in_millis"@))),
    );
    lemma_then(with_memory(s), with_uptime(s), m);
    lemma_ones(with_machine(s), memory_series(), s.stats, memory_series().len());
    lemma_then(with_machine(s), with_memory(s), m);
    lemma_ones(with_cluster(s), machine_series(), s.stats, machine_series().len());
    lemma_then(with_cluster(s), with_machine(s), m);
    lemma_ones(with_status(s), cluster_series(), s.health, cluster_series().len());
    lemma_then(with_status(s), with_cluster(s), m);
    lemma_one(
        with_build(s),
        "opensearch_cluster_status"@,
        "gauge"@,
        "Cluster status: 0 green, 1 yellow, 2 red."@,
        count(crate::api::prometheus::status_number(s.health)),
    );
    lemma_then(with_build(s), with_status(s), m);
}

// ---- figures -------------------------------------------------------------------

proof fn lemma_leads(n: nat)
    ensures
        dec(n).len() > 0,
        n > 0 ==> dec(n)[0] != '0',
    decreases n,
{
    if n >= 10 {
        lemma_leads(n / 10);
        assert(dec(n)[0] == dec(n / 10)[0]);
    } else {
        assert(crate::text::digit(n) as nat == 48 + n);
    }
}

/// A count is shown in decimal, as it is.
pub proof fn law_a_count_is_shown_in_decimal(n: u64)
    ensures
        shown(count(n)) == dec(n as nat),
        shown(reading(Some(JsonV::Number(crate::json::NumberV::Whole(n))))) == dec(n as nat),
{
    lemma_leads(n as nat);
    reveal_strlit("");
    assert(crate::api::prometheus::without_trailing(""@) =~= ""@);
    assert(""@ + dec(n as nat) =~= dec(n as nat));
}

/// The sample of the cluster's status is 0 where the health document says that it
/// is green, 1 where it says yellow, and 2 otherwise.
pub proof fn law_the_status_is_scraped(s: ScrapeV)
    ensures
        occurs(
            text(s),
            sample(
                s,
                "opensearch_cluster_status"@,
                ""@,
                if member(s.health, "status"@) == Some(JsonV::Text("green"@)) {
                    "0"@
                } else if member(s.health, "status"@) == Some(JsonV::Text("yellow"@)) {
                    "1"@
                } else {
                    "2"@
                },
            ),
        ),
{
    lemma_stages(s);
    let n = crate::api::prometheus::status_number(s.health);
    lemma_one(
        with_build(s),
        "opensearch_cluster_status"@,
        "gauge"@,
        "Cluster status: 0 green, 1 yellow, 2 red."@,
        count(n),
    );
    lemma_still_occurs(with_status(s), scraped(s));
    law_a_count_is_shown_in_decimal(n);
    reveal_strlit("0");
    reveal_strlit("1");
    reveal_strlit("2");
    reveal_strlit("green");
    reveal_strlit("yellow");
    assert("green"@.len() == 5 && "yellow"@.len() == 6);
    assert(dec(0) =~= "0"@);
    assert(dec(1) =~= "1"@);
    assert(dec(2) =~= "2"@);
}

/// Whether a scrape says, under a name, what a document says at a path.
pub open spec fn says(s: ScrapeV, name: Seq<char>, doc: JsonV, path: Seq<char>) -> bool {
    occurs(text(s), sample(s, name, ""@, shown(reading(pointed(doc, path)))))
}

/// What the health document says of the cluster's nodes, shards and waiting tasks is in
/// the scrape, each count under its own name.
pub proof fn law_what_the_health_document_counts_is_scraped(s: ScrapeV)
    ensures
        says(s, "opensearch_cluster_nodes_number"@, s.health, "/number_of_nodes"@),
        says(s, "opensearch_cluster_datanodes_number"@, s.health, "/number_of_data_nodes"@),
        says(s, "opensearch_cluster_shards_active_number"@, s.health, "/active_shards"@),
        says(
            s,
            "opensearch_cluster_shards_active_primary_number"@,
            s.health,
            "/active_primary_shards"@,
        ),
        says(s, "opensearch_cluster_shards_relocating_number"@, s.health, "/relocating_shards"@),
        says(
            s,
            "opensearch_cluster_shards_initializing_number"@,
            s.health,
            "/initializing_shards"@,
        ),
        says(s, "opensearch_cluster_shards_unassigned_number"@, s.health, "/unassigned_shards"@),
        says(s, "opensearch_cluster_pending_tasks_number"@, s.health, "/number_of_pending_tasks"@),
{
    lemma_stages(s);
    let t = cluster_series();
    lemma_ones(with_status(s), t, s.health, t.len());
    lemma_still_occurs(with_cluster(s), scraped(s));
    reveal(cluster_series);
    assert(t[0].name == "opensearch_cluster_nodes_number"@ && t[0].path == "/number_of_nodes"@);
    assert(t[1].name == "opensearch_cluster_datanodes_number"@);
    assert(t[1].path == "/number_of_data_nodes"@);
    assert(t[2].name == "opensearch_cluster_shards_active_number"@);
    assert(t[2].path == "/active_shards"@);
    assert(t[3].name == "opensearch_cluster_shards_active_primary_number"@);
    assert(t[3].path == "/active_primary_shards"@);
    assert(t[4].name == "opensearch_cluster_shards_relocating_number"@);
    assert(t[4].path == "/relocating_shards"@);
    assert(t[5].name == "opensearch_cluster_shards_initializing_number"@);
    assert(t[5].path == "/initializing_shards"@);
    assert(t[6].name == "opensearch_cluster_shards_unassigned_number"@);
    assert(t[6].path == "/unassigned_shards"@);
    assert(t[7].name == "opensearch_cluster_pending_tasks_number"@);
    assert(t[7].path == "/number_of_pending_tasks"@);
}

/// What the node's statistics say of the machine and of the process is in the scrape,
/// each figure under its own name.
pub proof fn law_what_the_machine_reports_is_scraped(s: ScrapeV)
    ensures
        says(s, "opensearch_os_cpu_percent"@, s.stats, "/os/cpu/percent"@),
        says(s, "opensearch_os_load_average_one_minute"@, s.stats, "/os/cpu/load_average/1m"@),
        says(s, "opensearch_os_load_average_five_minutes"@, s.stats, "/os/cpu/load_average/5m"@),
        says(
            s,
            "opensearch_os_load_average_fifteen_minutes"@,
            s.stats,
            "/os/cpu/load_average/15m"@,
        ),
        says(s, "opensearch_os_mem_total_bytes"@, s.stats, "/os/mem/total_in_bytes"@),
        says(s, "opensearch_os_mem_free_bytes"@, s.stats, "/os/mem/free_in_bytes"@),
        says(s, "opensearch_os_mem_used_bytes"@, s.stats, "/os/mem/used_in_bytes"@),
        says(s, "opensearch_os_swap_used_bytes"@, s.stats, "/os/swap/used_in_bytes"@),
        says(s, "opensearch_process_cpu_percent"@, s.stats, "/process/cpu/percent"@),
        says(
            s,
            "opensearch_process_file_descriptors_open_number"@,
            s.stats,
            "/process/open_file_descriptors"@,
        ),
        says(
            s,
            "opensearch_process_file_descriptors_max_number"@,
            s.stats,
            "/process/max_file_descriptors"@,
        ),
        says(
            s,
            "opensearch_process_mem_total_virtual_bytes"@,
            s.stats,
            "/process/mem/total_virtual_in_bytes"@,
        ),
{
    lemma_stages(s);
    let t = machine_series();
    lemma_ones(with_cluster(s), t, s.stats, t.len());
    lemma_still_occurs(with_machine(s), scraped(s));
    reveal(machine_series);
    assert(t[0].name == "opensearch_os_cpu_percent"@ && t[0].path == "/os/cpu/percent"@);
    assert(t[1].name == "opensearch_os_load_average_one_minute"@);
    assert(t[1].path == "/os/cpu/load_average/1m"@);
    assert(t[2].name == "opensearch_os_load_average_five_minutes"@);
    assert(t[2].path == "/os/cpu/load_average/5m"@);
    assert(t[3].name == "opensearch_os_load_average_fifteen_minutes"@);
    assert(t[3].path == "/os/cpu/load_average/15m"@);
    assert(t[4].name == "opensearch_os_mem_total_bytes"@ && t[4].path == "/os/mem/total_in_bytes"@);
    assert(t[5].name == "opensearch_os_mem_free_bytes"@ && t[5].path == "/os/mem/free_in_bytes"@);
    assert(t[6].name == "opensearch_os_mem_used_bytes"@ && t[6].path == "/os/mem/used_in_bytes"@);
    assert(t[7].name == "opensearch_os_swap_used_bytes"@ && t[7].path == "/os/swap/used_in_bytes"@);
    assert(t[8].name == "opensearch_process_cpu_percent"@ && t[8].path == "/process/cpu/percent"@);
    assert(t[9].name == "opensearch_process_file_descriptors_open_number"@);
    assert(t[9].path == "/process/open_file_descriptors"@);
    assert(t[10].name == "opensearch_process_file_descriptors_max_number"@);
    assert(t[10].path == "/process/max_file_descriptors"@);
    assert(t[11].name == "opensearch_process_mem_total_virtual_bytes"@);
    assert(t[11].path == "/process/mem/total_virtual_in_bytes"@);
}

/// What the node's statistics say of its memory and threads is in the scrape, each figure
/// under its own name.
pub proof fn law_what_memory_is_held_is_scraped(s: ScrapeV)
    ensures
        says(s, "opensearch_jvm_mem_heap_used_bytes"@, s.stats, "/jvm/mem/heap_used_in_bytes"@),
        says(s, "opensearch_jvm_mem_heap_max_bytes"@, s.stats, "/jvm/mem/heap_max_in_bytes"@),
        says(
            s,
            "opensearch_jvm_mem_nonheap_used_bytes"@,
            s.stats,
            "/jvm/mem/non_heap_used_in_bytes"@,
        ),
        says(s, "opensearch_jvm_threads_number"@, s.stats, "/jvm/threads/count"@),
{
    lemma_stages(s);
    let t = memory_series();
    lemma_ones(with_machine(s), t, s.stats, t.len());
    lemma_still_occurs(with_memory(s), scraped(s));
    reveal(memory_series);
    assert(t[0].name == "opensearch_jvm_mem_heap_used_bytes"@);
    assert(t[0].path == "/jvm/mem/heap_used_in_bytes"@);
    assert(t[1].name == "opensearch_jvm_mem_heap_max_bytes"@);
    assert(t[1].path == "/jvm/mem/heap_max_in_bytes"@);
    assert(t[2].name == "opensearch_jvm_mem_nonheap_used_bytes"@);
    assert(t[2].path == "/jvm/mem/non_heap_used_in_bytes"@);
    assert(t[3].name == "opensearch_jvm_threads_number"@ && t[3].path == "/jvm/threads/count"@);
}

/// What the node's statistics say of its disk is in the scrape, each figure under its own
/// name.
pub proof fn law_what_the_disk_holds_is_scraped(s: ScrapeV)
    ensures
        says(s, "opensearch_fs_total_total_bytes"@, s.stats, "/fs/total/total_in_bytes"@),
        says(s, "opensearch_fs_total_free_bytes"@, s.stats, "/fs/total/free_in_bytes"@),
        says(s, "opensearch_fs_total_available_bytes"@, s.stats, "/fs/total/available_in_bytes"@),
{
    lemma_stages(s);
    let t = disk_series();
    lemma_ones(with_uptime(s), t, s.stats, t.len());
    lemma_still_occurs(with_disk(s), scraped(s));
    reveal(disk_series);
    assert(t[0].name == "opensearch_fs_total_total_bytes"@);
    assert(t[0].path == "/fs/total/total_in_bytes"@);
    assert(t[1].name == "opensearch_fs_total_free_bytes"@);
    assert(t[1].path == "/fs/total/free_in_bytes"@);
    assert(t[2].name == "opensearch_fs_total_available_bytes"@);
    assert(t[2].path == "/fs/total/available_in_bytes"@);
}

/// What the node's statistics say of all its indices is in the scrape, each figure under
/// its own name.
pub proof fn law_what_the_indices_come_to_is_scraped(s: ScrapeV)
    ensures
        says(s, "opensearch_indices_doc_number"@, totals_of(s.stats), "/docs/count"@),
        says(s, "opensearch_indices_doc_deleted_number"@, totals_of(s.stats), "/docs/deleted"@),
        says(
            s,
            "opensearch_indices_store_size_bytes"@,
            totals_of(s.stats),
            "/store/size_in_bytes"@,
        ),
        says(
            s,
            "opensearch_indices_indexing_index_count"@,
            totals_of(s.stats),
            "/indexing/index_total"@,
        ),
        says(
            s,
            "opensearch_indices_indexing_index_current_number"@,
            totals_of(s.stats),
            "/indexing/index_current"@,
        ),
        says(
            s,
            "opensearch_indices_indexing_delete_count"@,
            totals_of(s.stats),
            "/indexing/delete_total"@,
        ),
        says(
            s,
            "opensearch_indices_search_query_count"@,
            totals_of(s.stats),
            "/search/query_total"@,
        ),
        says(
            s,
            "opensearch_indices_search_query_current_number"@,
            totals_of(s.stats),
            "/search/query_current"@,
        ),
        says(
            s,
            "opensearch_indices_search_fetch_count"@,
            totals_of(s.stats),
            "/search/fetch_total"@,
        ),
        says(
            s,
            "opensearch_indices_search_scroll_current_number"@,
            totals_of(s.stats),
            "/search/scroll_current"@,
        ),
        says(s, "opensearch_indices_refresh_count"@, totals_of(s.stats), "/refresh/total"@),
        says(s, "opensearch_indices_flush_count"@, totals_of(s.stats), "/flush/total"@),
        says(s, "opensearch_indices_merges_count"@, totals_of(s.stats), "/merges/total"@),
        says(s, "opensearch_indices_segments_number"@, totals_of(s.stats), "/segments/count"@),
        says(
            s,
            "opensearch_indices_translog_operations_number"@,
            totals_of(s.stats),
            "/translog/operations"@,
        ),
{
    lemma_stages(s);
    let t = index_series();
    lemma_totals(with_breakers(s), totals_of(s.stats));
    lemma_still_occurs(with_totals(s), scraped(s));
    reveal(index_series);
    assert(t[0].name == "opensearch_indices_doc_number"@ && t[0].path == "/docs/count"@);
    assert(t[1].name == "opensearch_indices_doc_deleted_number"@ && t[1].path == "/docs/deleted"@);
    assert(t[2].name == "opensearch_indices_store_size_bytes"@);
    assert(t[2].path == "/store/size_in_bytes"@);
    assert(t[3].name == "opensearch_indices_indexing_index_count"@);
    assert(t[3].path == "/indexing/index_total"@);
    assert(t[4].name == "opensearch_indices_indexing_index_current_number"@);
    assert(t[4].path == "/indexing/index_current"@);
    assert(t[5].name == "opensearch_indices_indexing_delete_count"@);
    assert(t[5].path == "/indexing/delete_total"@);
    assert(t[6].name == "opensearch_indices_search_query_count"@);
    assert(t[6].path == "/search/query_total"@);
    assert(t[7].name == "opensearch_indices_search_query_current_number"@);
    assert(t[7].path == "/search/query_current"@);
    assert(t[8].name == "opensearch_indices_search_fetch_count"@);
    assert(t[8].path == "/search/fetch_total"@);
    assert(t[9].name == "opensearch_indices_search_scroll_current_number"@);
    assert(t[9].path == "/search/scroll_current"@);
    assert(t[10].name == "opensearch_indices_refresh_count"@ && t[10].path == "/refresh/total"@);
    assert(t[11].name == "opensearch_indices_flush_count"@ && t[11].path == "/flush/total"@);
    assert(t[12].name == "opensearch_indices_merges_count"@ && t[12].path == "/merges/total"@);
    assert(t[13].name == "opensearch_indices_segments_number"@ && t[13].path == "/segments/count"@);
    assert(t[14].name == "opensearch_indices_translog_operations_number"@);
    assert(t[14].path == "/translog/operations"@);
}

/// Times are scraped in seconds, a thousandth of what the statistics give.
pub proof fn law_times_are_scraped_in_seconds(s: ScrapeV)
    ensures
        occurs(
            text(s),
            sample(
                s,
                "opensearch_jvm_uptime_seconds"@,
                ""@,
                shown(thousandth(reading(pointed(s.stats, "/jvm/uptime_in_millis"@)))),
            ),
        ),
        occurs(
            text(s),
            sample(
                s,
                "opensearch_indices_indexing_index_time_seconds"@,
                ""@,
                shown(
                    thousandth(
                        reading(pointed(totals_of(s.stats), "/indexing/index_time_in_millis"@)),
                    ),
                ),
            ),
        ),
        occurs(
            text(s),
            sample(
                s,
                "opensearch_indices_search_query_time_seconds"@,
                ""@,
                shown(
                    thousandth(
                        reading(pointed(totals_of(s.stats), "/search/query_time_in_millis"@)),
                    ),
                ),
            ),
        ),
        occurs(
            text(s),
            sample(
                s,
                "opensearch_indices_search_fetch_time_seconds"@,
                ""@,
                shown(
                    thousandth(
                        reading(pointed(totals_of(s.stats), "/search/fetch_time_in_millis"@)),
                    ),
                ),
            ),
        ),
{
    lemma_stages(s);
    lemma_one(
        with_memory(s),
        "opensearch_jvm_uptime_seconds"@,
        "gauge"@,
        "How long this node has been up."@,
        thousandth(reading(pointed(s.stats, "/jvm/uptime_in_millis"@))),
    );
    lemma_still_occurs(with_uptime(s), scraped(s));
    lemma_totals(with_breakers(s), totals_of(s.stats));
    lemma_still_occurs(with_totals(s), scraped(s));
}

proof fn lemma_one_label(name: Seq<char>, value: Seq<char>)
    ensures
        labels_text(seq![(name, value)]) == ","@ + name + "=\""@ + label(value) + "\""@,
{
    let l = seq![(name, value)];
    assert(l.drop_last() =~= Seq::empty());
    reveal_strlit("");
    assert(labels_text(Seq::empty()) == ""@);
    assert(labels_text(l) =~= ","@ + name + "=\""@ + label(value) + "\""@);
}

proof fn lemma_two_labels(a: Seq<char>, x: Seq<char>, b: Seq<char>, y: Seq<char>)
    ensures
        labels_text(seq![(a, x), (b, y)]) == ","@ + a + "=\""@ + label(x) + "\""@ + ","@ + b
            + "=\""@ + label(y) + "\""@,
{
    let l = seq![(a, x), (b, y)];
    assert(l.drop_last() =~= seq![(a, x)]);
    lemma_one_label(a, x);
}

proof fn lemma_three_labels(
    a: Seq<char>,
    x: Seq<char>,
    b: Seq<char>,
    y: Seq<char>,
    c: Seq<char>,
    z: Seq<char>,
)
    ensures
        labels_text(seq![(a, x), (b, y), (c, z)]) == labelled(a, x) + labelled(b, y) + labelled(
            c,
            z,
        ),
{
    let l = seq![(a, x), (b, y), (c, z)];
    assert(l.drop_last() =~= seq![(a, x), (b, y)]);
    lemma_two_labels(a, x, b, y);
    let two = labels_text(seq![(a, x), (b, y)]);
    assert(two =~= labelled(a, x) + labelled(b, y));
    assert(labels_text(l) =~= two + labelled(c, z));
}

/// A label of a sample, after those that every sample bears.
pub open spec fn labelled(name: Seq<char>, value: Seq<char>) -> Seq<char> {
    ","@ + name + "=\""@ + label(value) + "\""@
}

/// Each pool is scraped under its name: what it runs at once, what it is running,
/// what waits, what it has finished and what it has refused.
pub proof fn law_each_pool_is_scraped(s: ScrapeV, k: int)
    requires
        0 <= k < s.pools.len(),
    ensures
        ({
            let p = s.pools[k];
            let name = labelled("name"@, p.name);
            &&& occurs(
                text(s),
                sample(s, "opensearch_threadpool_threads_number"@, name, dec(p.threads as nat)),
            )
            &&& occurs(
                text(s),
                sample(
                    s,
                    "opensearch_threadpool_tasks_number"@,
                    name + labelled("type"@, "active"@),
                    dec(p.active as nat),
                ),
            )
            &&& occurs(
                text(s),
                sample(
                    s,
                    "opensearch_threadpool_tasks_number"@,
                    name + labelled("type"@, "queue"@),
                    dec(p.queue as nat),
                ),
            )
            &&& occurs(
                text(s),
                sample(
                    s,
                    "opensearch_threadpool_tasks_count"@,
                    name + labelled("type"@, "completed"@),
                    dec(p.completed as nat),
                ),
            )
            &&& occurs(
                text(s),
                sample(
                    s,
                    "opensearch_threadpool_tasks_count"@,
                    name + labelled("type"@, "rejected"@),
                    dec(p.rejected as nat),
                ),
            )
        }),
{
    let p = s.pools[k];
    lemma_stages(s);
    lemma_pools(with_disk(s), s.pools);
    lemma_still_occurs(with_pools(s), scraped(s));
    law_a_count_is_shown_in_decimal(p.threads);
    law_a_count_is_shown_in_decimal(p.active);
    law_a_count_is_shown_in_decimal(p.queue);
    law_a_count_is_shown_in_decimal(p.completed);
    law_a_count_is_shown_in_decimal(p.rejected);
    lemma_one_label("name"@, p.name);
    lemma_name_and_type(p.name, "active"@);
    lemma_name_and_type(p.name, "queue"@);
    lemma_name_and_type(p.name, "completed"@);
    lemma_name_and_type(p.name, "rejected"@);
    assert(s.pools[k] == p);
}

proof fn lemma_name_and_type(name: Seq<char>, kind: Seq<char>)
    ensures
        labels_text(seq![("name"@, name), ("type"@, kind)]) == labelled("name"@, name) + labelled(
            "type"@,
            kind,
        ),
{
    lemma_two_labels("name"@, name, "type"@, kind);
    assert(labels_text(seq![("name"@, name), ("type"@, kind)]) =~= labelled("name"@, name)
        + labelled("type"@, kind));
}

/// Each breaker is scraped under its name: what it holds, what it may hold and how
/// often it has refused.
pub proof fn law_each_breaker_is_scraped(s: ScrapeV, k: int)
    requires
        0 <= k < s.breakers.len(),
    ensures
        ({
            let b = s.breakers[k];
            let name = labelled("name"@, b.name);
            &&& occurs(
                text(s),
                sample(s, "opensearch_circuitbreaker_estimated_bytes"@, name, dec(b.used as nat)),
            )
            &&& occurs(
                text(s),
                sample(s, "opensearch_circuitbreaker_limit_bytes"@, name, dec(b.limit as nat)),
            )
            &&& occurs(
                text(s),
                sample(s, "opensearch_circuitbreaker_tripped_count"@, name, dec(b.tripped as nat)),
            )
        }),
{
    let b = s.breakers[k];
    lemma_stages(s);
    lemma_all_breakers(with_pools(s), s.breakers);
    lemma_still_occurs(with_breakers(s), scraped(s));
    law_a_count_is_shown_in_decimal(b.used);
    law_a_count_is_shown_in_decimal(b.limit);
    law_a_count_is_shown_in_decimal(b.tripped);
    lemma_one_label("name"@, b.name);
    assert(s.breakers[k] == b);
}

/// Where the series of every index are wanted, each index is scraped under its
/// name: its documents, what it takes on disk, and the queries answered out of it
/// and the documents written into it.
pub proof fn law_each_index_is_scraped(s: ScrapeV, each: Seq<(Seq<char>, JsonV)>, k: int)
    requires
        s.per_index,
        pointed(s.stats, "/indices/indices"@) == Some(JsonV::Object(each)),
        0 <= k < each.len(),
    ensures
        ({
            let (name, doc) = each[k];
            let of = labelled("index"@, name);
            &&& occurs(
                text(s),
                sample(
                    s,
                    "opensearch_index_doc_number"@,
                    of,
                    shown(reading(pointed(doc, "/docs/count"@))),
                ),
            )
            &&& occurs(
                text(s),
                sample(
                    s,
                    "opensearch_index_store_size_bytes"@,
                    of,
                    shown(reading(pointed(doc, "/store/size_in_bytes"@))),
                ),
            )
            &&& occurs(
                text(s),
                sample(
                    s,
                    "opensearch_index_search_query_count"@,
                    of,
                    shown(reading(pointed(doc, "/search/query_total"@))),
                ),
            )
            &&& occurs(
                text(s),
                sample(
                    s,
                    "opensearch_index_indexing_index_count"@,
                    of,
                    shown(reading(pointed(doc, "/indexing/index_total"@))),
                ),
            )
        }),
{
    lemma_stages(s);
    lemma_indices(with_totals(s), each);
    lemma_one_label("index"@, each[k].0);
    assert(scraped(s) == with_totals(s).indices(each));
}

/// Where the series of every index are declined, a scrape ends with what the
/// indices come to together, whatever the statistics say of each.
pub proof fn law_declined_indices_are_not_scraped(s: ScrapeV, other: ScrapeV)
    requires
        !s.per_index,
        other == (ScrapeV { per_index: true, ..s }),
    ensures
        text(s).len() <= text(other).len(),
        text(other).take(text(s).len() as int) == text(s),
{
    match pointed(s.stats, "/indices/indices"@) {
        Some(JsonV::Object(each)) => {
            lemma_indices(with_totals(s), each);
            assert(with_totals(other) == with_totals(s));
        },
        _ => {
            assert(text(other).take(text(s).len() as int) =~= text(s));
        },
    }
}

/// The build is scraped with the versions it speaks and is, and what it was built
/// from.
pub proof fn law_the_build_is_scraped(s: ScrapeV)
    ensures
        occurs(
            text(s),
            sample(
                s,
                "velosearch_build_info"@,
                labelled("version"@, s.version) + labelled("opensearch_version"@, "3.9.0"@)
                    + labelled("build_hash"@, s.build_hash),
                "1"@,
            ),
        ),
{
    lemma_stages(s);
    let start = MetricsV::start(s.cluster, s.node, s.node_id).family(
        "velosearch_build_info"@,
        "gauge"@,
        "The build this node is running, as labels."@,
    );
    let labels = seq![
        ("version"@, s.version),
        ("opensearch_version"@, crate::OPENSEARCH_VERSION@),
        ("build_hash"@, s.build_hash),
    ];
    lemma_value(start, "velosearch_build_info"@, labels, count(1));
    lemma_still_occurs(with_build(s), scraped(s));
    law_a_count_is_shown_in_decimal(1);
    reveal_strlit("1");
    assert(dec(1) =~= "1"@);
    lemma_three_labels(
        "version"@,
        s.version,
        "opensearch_version"@,
        crate::OPENSEARCH_VERSION@,
        "build_hash"@,
        s.build_hash,
    );
}

/// What a path points at is reached one member at a time.
pub proof fn law_a_path_points_member_by_member(
    v: JsonV,
    a: Seq<char>,
    b: Seq<char>,
    c: Seq<char>,
)
    requires
        !a.contains('/'),
        !b.contains('/'),
        !c.contains('/'),
    ensures
        pointed(v, "/"@ + a) == member(v, a),
        pointed(v, "/"@ + a + "/"@ + b) == match member(v, a) {
            Some(x) => member(x, b),
            None => None,
        },
        pointed(v, "/"@ + a + "/"@ + b + "/"@ + c) == match member(v, a) {
            Some(x) => match member(x, b) {
                Some(y) => member(y, c),
                None => None,
            },
            None => None,
        },
{
    reveal_strlit("/");
    let e = Seq::<char>::empty();
    lemma_cut_whole(a, '/');
    lemma_cut_whole(b, '/');
    lemma_cut_whole(c, '/');
    lemma_cut_after(e, '/', a);
    assert("/"@ + a =~= e.push('/') + a);
    let ab = a.push('/') + b;
    lemma_cut_after(a, '/', b);
    lemma_cut_after(e, '/', ab);
    assert("/"@ + a + "/"@ + b =~= e.push('/') + ab);
    let bc = b.push('/') + c;
    let abc = a.push('/') + bc;
    lemma_cut_after(b, '/', c);
    lemma_cut_after(a, '/', bc);
    lemma_cut_after(e, '/', abc);
    assert("/"@ + a + "/"@ + b + "/"@ + c =~= e.push('/') + abc);
    let p1 = cut(e.push('/') + a, '/').skip(1);
    assert(p1 =~= seq![a]);
    assert(p1.skip(1) =~= Seq::empty());
    let p2 = cut(e.push('/') + ab, '/').skip(1);
    assert(p2 =~= seq![a, b]);
    assert(p2.skip(1) =~= seq![b]);
    assert(seq![b].skip(1) =~= Seq::<Seq<char>>::empty());
    let p3 = cut(e.push('/') + abc, '/').skip(1);
    assert(p3 =~= seq![a, b, c]);
    assert(p3.skip(1) =~= seq![b, c]);
    assert(seq![b, c].skip(1) =~= seq![c]);
    assert(seq![c].skip(1) =~= Seq::<Seq<char>>::empty());
    reveal_with_fuel(crate::api::prometheus::at_path, 5);
}

} // verus!
