//! What the tables for people say.

use vstd::prelude::*;

use crate::api::cat::listings::{
    attribute_row, field_row, recovery_kind, recovery_row, repository_row, segment_row,
    snapshot_row, template_named, template_row, template_says, RecoveredV,
};
use crate::api::cat::nodes::{
    disk_free, disk_total, disk_used, elected, host_of, http_of, id_shown, is_full, letter,
    manager_row, node_row, percent, roles_text, star, to_nearest, ResourcesV,
};
use crate::api::cat::shards::{
    alone_row, by_copy, bytes_on, copy_row, docs_on, is_mine, is_wanted, part_names, replica_row,
    replicas_in, shards_in, total, AskedV, HeldV,
};
use crate::api::cat::{endpoint, unknown, Endpoint};
use crate::cluster::state::{CopyV, NodeV, ShardState};
use crate::json::{member, JsonV, NumberV};
use crate::laws::answers::{law_a_refusal_tells_why, tells};
use crate::list::{lemma_find, lemma_found};
use crate::size::size_asked;
use crate::text::{cut, dec, fits, joined};

verus! {

/// Whether a row says something under a column.
pub open spec fn has(row: Seq<(Seq<char>, Seq<char>)>, column: Seq<char>, cell: Seq<char>) -> bool {
    exists|i: int| 0 <= i < row.len() && #[trigger] row[i] == (column, cell)
}

/// Each table goes by its name, the elected node by either of two, and any other name is
/// none.
pub proof fn law_the_tables_there_are(what: Seq<char>)
    ensures
        endpoint("indices"@) == Some(Endpoint::Indices),
        what == "aliases"@ ==> endpoint(what) == Some(Endpoint::Aliases),
        what == "count"@ ==> endpoint(what) == Some(Endpoint::Counts),
        what == "health"@ ==> endpoint(what) == Some(Endpoint::Health),
        what == "master"@ || what == "cluster_manager"@ ==> endpoint(what) == Some(
            Endpoint::Manager,
        ),
        what == "nodes"@ ==> endpoint(what) == Some(Endpoint::Nodes),
        what == "templates"@ ==> endpoint(what) == Some(Endpoint::Templates),
        what == "shards"@ ==> endpoint(what) == Some(Endpoint::Shards),
        what == "pit_segments"@ ==> endpoint(what) == Some(Endpoint::PitSegments),
        what == "segments"@ ==> endpoint(what) == Some(Endpoint::Segments),
        what == "fielddata"@ ==> endpoint(what) == Some(Endpoint::Fielddata),
        what == "allocation"@ ==> endpoint(what) == Some(Endpoint::Allocation),
        what == "pending_tasks"@ ==> endpoint(what) == Some(Endpoint::PendingTasks),
        what == "plugins"@ ==> endpoint(what) == Some(Endpoint::Plugins),
        what == "thread_pool"@ ==> endpoint(what) == Some(Endpoint::ThreadPool),
        what == "recovery"@ ==> endpoint(what) == Some(Endpoint::Recovery),
        what == "repositories"@ ==> endpoint(what) == Some(Endpoint::Repositories),
        what == "snapshots"@ ==> endpoint(what) == Some(Endpoint::Snapshots),
        what == "tasks"@ ==> endpoint(what) == Some(Endpoint::Tasks),
        what == "nodeattrs"@ ==> endpoint(what) == Some(Endpoint::NodeAttrs),
        tells(
            unknown(what),
            400,
            "illegal_argument_exception"@,
            "unknown cat endpoint ["@ + what + "]"@,
        ),
{
    law_a_refusal_tells_why(
        400,
        "illegal_argument_exception"@,
        "unknown cat endpoint ["@ + what + "]"@,
        Seq::empty(),
    );
    reveal_strlit("indices");
    reveal_strlit("aliases");
    reveal_strlit("count");
    reveal_strlit("health");
    reveal_strlit("master");
    reveal_strlit("cluster_manager");
    reveal_strlit("nodes");
    reveal_strlit("templates");
    reveal_strlit("shards");
    reveal_strlit("pit_segments");
    reveal_strlit("segments");
    reveal_strlit("fielddata");
    reveal_strlit("allocation");
    reveal_strlit("pending_tasks");
    reveal_strlit("plugins");
    reveal_strlit("thread_pool");
    reveal_strlit("recovery");
    reveal_strlit("repositories");
    reveal_strlit("snapshots");
    reveal_strlit("tasks");
    reveal_strlit("nodeattrs");
    assert("indices"@.len() == 7 && "aliases"@.len() == 7 && "count"@.len() == 5 && "health"@.len()
        == 6 && "master"@.len() == 6 && "cluster_manager"@.len() == 15 && "nodes"@.len() == 5
        && "templates"@.len() == 9 && "shards"@.len() == 6 && "pit_segments"@.len() == 12
        && "segments"@.len() == 8 && "fielddata"@.len() == 9 && "allocation"@.len() == 10
        && "pending_tasks"@.len() == 13 && "plugins"@.len() == 7 && "thread_pool"@.len() == 11
        && "recovery"@.len() == 8 && "repositories"@.len() == 12 && "snapshots"@.len() == 9
        && "tasks"@.len() == 5 && "nodeattrs"@.len() == 9);
    assert("indices"@[0] == 'i' && "aliases"@[0] == 'a' && "plugins"@[0] == 'p' && "count"@[0] == 'c'
        && "nodes"@[0] == 'n' && "tasks"@[0] == 't' && "health"@[0] == 'h' && "master"@[0] == 'm'
        && "shards"@[0] == 's' && "templates"@[0] == 't' && "fielddata"@[0] == 'f'
        && "snapshots"@[0] == 's' && "nodeattrs"@[0] == 'n' && "segments"@[0] == 's'
        && "recovery"@[0] == 'r' && "pit_segments"@[0] == 'p' && "repositories"@[0] == 'r');
}

/// The node that is elected is the one that is known by the id, and this node where none
/// is known or elected.
pub proof fn law_who_is_elected(
    nodes: Seq<NodeV>,
    manager: Option<Seq<char>>,
    me: (Seq<char>, Seq<char>),
    i: int,
)
    ensures
        manager is None ==> elected(nodes, manager, me) == me,
        0 <= i < nodes.len() && manager == Some(nodes[i].id) && (forall|j: int|
            0 <= j < i ==> (#[trigger] nodes[j]).id != nodes[i].id) ==> elected(nodes, manager, me)
            == (nodes[i].id, nodes[i].name),
        (forall|j: int| 0 <= j < nodes.len() ==> Some((#[trigger] nodes[j]).id) != manager)
            ==> elected(nodes, manager, me) == me,
        has(manager_row(me), "id"@, me.0),
        has(manager_row(me), "node"@, me.1),
{
    assert(manager_row(me)[0] == ("id"@, me.0));
    assert(manager_row(me)[3] == ("node"@, me.1));
    match manager {
        Some(id) => {
            let p = crate::api::cat::nodes::has_id(id);
            lemma_found(nodes, p);
            if 0 <= i < nodes.len() && id == nodes[i].id && (forall|j: int|
                0 <= j < i ==> (#[trigger] nodes[j]).id != nodes[i].id) {
                lemma_find(nodes, p, i);
            }
        },
        None => {},
    }
}

/// A share is shown in whole hundredths, none of nothing.
pub proof fn law_a_share_in_hundredths(used: u64, all: u64)
    ensures
        all == 0 ==> percent(used, all) == 0,
        all > 0 ==> percent(used, all) * all <= used * 100 < (percent(used, all) + 1) * all,
{
    if all > 0 {
        let n = used as nat * 100;
        let d = all as nat;
        let q = n / d;
        assert(q * d <= n < (q + 1) * d) by (nonlinear_arith)
            requires
                d > 0,
                q == n / d,
        ;
    }
}

/// What is to be shown to the nearest is within a half of what it was, and goes to the even
/// one where it is half way.
pub proof fn law_the_nearest(n: nat, d: nat)
    requires
        d > 0,
    ensures
        ({
            let r = to_nearest(n, d);
            &&& 2 * (r * d) <= 2 * n + d
            &&& 2 * n <= 2 * (r * d) + d
            &&& 2 * n == 2 * (r * d) + d || 2 * n + d == 2 * (r * d) ==> r % 2 == 0
        }),
{
    let low = n / d;
    let over = n % d;
    assert(n == low * d + over && over < d) by (nonlinear_arith)
        requires
            d > 0,
            low == n / d,
            over == n % d,
    ;
    assert((low + 1) * d == low * d + d) by (nonlinear_arith);
}

/// Each role has its letter, the two words for the elected one the same.
pub proof fn law_the_letters_of_roles(role: Seq<char>)
    ensures
        role == "cluster_manager"@ || role == "master"@ ==> letter(role) == Some('m'),
        role == "data"@ ==> letter(role) == Some('d'),
        role == "ingest"@ ==> letter(role) == Some('i'),
        role == "remote_cluster_client"@ ==> letter(role) == Some('r'),
        role == "search"@ ==> letter(role) == Some('s'),
        role == "warm"@ ==> letter(role) == Some('w'),
{
    reveal_strlit("cluster_manager");
    reveal_strlit("master");
    reveal_strlit("data");
    reveal_strlit("ingest");
    reveal_strlit("remote_cluster_client");
    reveal_strlit("search");
    reveal_strlit("warm");
    assert("cluster_manager"@.len() == 15 && "master"@.len() == 6 && "data"@.len() == 4
        && "ingest"@.len() == 6 && "remote_cluster_client"@.len() == 21 && "search"@.len() == 6
        && "warm"@.len() == 4);
    assert("master"@[0] == 'm' && "ingest"@[0] == 'i' && "search"@[0] == 's' && "data"@[0] == 'd'
        && "warm"@[0] == 'w');
}

/// A node's id is shown by its first four characters, or in full where that is asked for;
/// its address without the port; and what it listens on where it does not say is its
/// address with the usual port.
pub proof fn law_how_a_node_is_shown(id: Seq<char>, host: Seq<char>, port: Seq<char>, n: NodeV)
    requires
        !host.contains(':'),
        !port.contains(':'),
    ensures
        id_shown(id, true) == id,
        id.len() <= 4 ==> id_shown(id, false) == id,
        id.len() > 4 ==> id_shown(id, false).len() == 4 && id_shown(id, false) == id.take(4),
        host_of(host + ":"@ + port) == host,
        n.http_address.len() > 0 ==> http_of(n) == n.http_address,
        n.http_address.len() == 0 && n.transport_address == host + ":"@ + port ==> http_of(n)
            == host + ":9200"@,
        star(true) == "*"@,
        star(false) == "-"@,
        !is_full(None),
        !is_full(Some("false"@)),
        id != "false"@ ==> is_full(Some(id)),
{
    reveal_strlit(":");
    let a = host + ":"@ + port;
    assert(a =~= host.push(':') + port);
    crate::text::lemma_cut_after(host, ':', port);
    crate::text::lemma_cut_whole(port, ':');
    assert(cut(a, ':') =~= seq![host, port]);
    assert(cut(a, ':').drop_last() =~= seq![host]);
}

/// What is used of a disk is what there is of it without what is free.
pub proof fn law_what_is_used_of_a_disk(r: ResourcesV, all: u64, free: u64)
    ensures
        r.disk == Some((all, free)) && free <= all ==> disk_used(r) + disk_free(r) == disk_total(r)
            && disk_total(r) == all && disk_free(r) == free,
        r.disk is None ==> disk_used(r) == 0 && disk_total(r) == 0 && disk_free(r) == 0,
{
}

/// What a row says of a node: its own figures only where the node is this one, and a star
/// only where it is elected.
pub proof fn law_what_a_row_says_of_a_node(
    n: NodeV,
    r: ResourcesV,
    manager: Option<Seq<char>>,
    me: Seq<char>,
    full: bool,
    unit: Option<Seq<char>>,
)
    ensures
        ({
            let row = node_row(n, r, manager, me, full, unit);
            let here = n.id == me;
            let leads = if manager == Some(n.id) {
                "*"@
            } else {
                "-"@
            };
            &&& has(row, "id"@, id_shown(n.id, full))
            &&& has(row, "ip"@, host_of(n.transport_address))
            &&& has(row, "name"@, n.name)
            &&& has(row, "version"@, "3.9.0"@)
            &&& has(row, "master"@, leads)
            &&& has(row, "cluster_manager"@, leads)
            &&& has(row, "node.role"@, roles_text(n.roles))
            &&& has(row, "node.roles"@, joined(n.roles, ","@))
            &&& has(row, "http"@, http_of(n))
            &&& has(
                row,
                "cpu"@,
                if here {
                    dec(r.cpu_percent as nat)
                } else {
                    ""@
                },
            )
            &&& has(
                row,
                "heap.percent"@,
                if here {
                    dec(percent(r.heap_used, r.heap_max))
                } else {
                    ""@
                },
            )
            &&& has(
                row,
                "ram.percent"@,
                if here {
                    dec(percent(r.ram_used, r.ram_total))
                } else {
                    ""@
                },
            )
            &&& has(
                row,
                "heap.current"@,
                if here {
                    size_asked(unit, r.heap_used as nat)
                } else {
                    ""@
                },
            )
            &&& has(
                row,
                "heap.max"@,
                if here {
                    size_asked(unit, r.heap_max as nat)
                } else {
                    ""@
                },
            )
            &&& has(
                row,
                "ram.current"@,
                if here {
                    size_asked(unit, r.ram_used as nat)
                } else {
                    ""@
                },
            )
            &&& has(
                row,
                "ram.max"@,
                if here {
                    size_asked(unit, r.ram_total as nat)
                } else {
                    ""@
                },
            )
            &&& has(
                row,
                "file_desc.percent"@,
                if here {
                    dec(percent(r.fds, r.max_fds))
                } else {
                    ""@
                },
            )
            &&& has(
                row,
                "diskAvail"@,
                if here {
                    size_asked(unit, disk_free(r) as nat)
                } else {
                    ""@
                },
            )
            &&& has(
                row,
                "diskTotal"@,
                if here {
                    size_asked(unit, disk_total(r) as nat)
                } else {
                    ""@
                },
            )
            &&& has(
                row,
                "diskUsed"@,
                if here {
                    size_asked(unit, disk_used(r) as nat)
                } else {
                    ""@
                },
            )
        }),
{
    let row = node_row(n, r, manager, me, full, unit);
    assert(row[0].0 == "id"@);
    assert(row[1].0 == "ip"@);
    assert(row[3].0 == "version"@);
    assert(row[8].0 == "master"@);
    assert(row[10].0 == "file_desc.percent"@);
    assert(row[12].0 == "heap.current"@);
    assert(row[13].0 == "heap.percent"@);
    assert(row[14].0 == "heap.max"@);
    assert(row[15].0 == "ram.current"@);
    assert(row[16].0 == "ram.percent"@);
    assert(row[17].0 == "ram.max"@);
    assert(row[18].0 == "http"@);
    assert(row[19].0 == "cpu"@);
    assert(row[23].0 == "node.role"@);
    assert(row[24].0 == "node.roles"@);
    assert(row[25].0 == "cluster_manager"@);
    assert(row[26].0 == "name"@);
    assert(row[27].0 == "diskAvail"@);
    assert(row[28].0 == "diskTotal"@);
    assert(row[29].0 == "diskUsed"@);
}

/// A load is shown over one minute, five and fifteen, in that order.
pub proof fn law_the_loads_of_a_node(
    n: NodeV,
    r: ResourcesV,
    manager: Option<Seq<char>>,
    full: bool,
    unit: Option<Seq<char>>,
    one: Seq<char>,
    five: Seq<char>,
    fifteen: Seq<char>,
)
    requires
        r.load == Some((one, five, fifteen)),
    ensures
        ({
            let row = node_row(n, r, manager, n.id, full, unit);
            has(row, "load_1m"@, one) && has(row, "load_5m"@, five) && has(
                row,
                "load_15m"@,
                fifteen,
            )
        }),
{
    let row = node_row(n, r, manager, n.id, full, unit);
    assert(row[20].0 == "load_1m"@);
    assert(row[21].0 == "load_5m"@);
    assert(row[22].0 == "load_15m"@);
}

// ---- shards --------------------------------------------------------------------

/// What a row says of a copy: its index, its shard, whether it is a primary, and its state;
/// where it is; why it is nowhere, where it is; and its documents and bytes, where it is
/// active and on this node.
pub proof fn law_what_a_row_says_of_a_copy(
    a: AskedV,
    n: Seq<char>,
    h: Option<HeldV>,
    c: CopyV,
)
    ensures
        ({
            let row = copy_row(a, n, h, c);
            let active = c.state == ShardState::Started || c.state == ShardState::Relocating;
            &&& has(row, "index"@, n)
            &&& has(row, "shard"@, dec(c.shard as nat))
            &&& has(
                row,
                "prirep"@,
                if c.primary {
                    "p"@
                } else {
                    "r"@
                },
            )
            &&& c.state == ShardState::Unassigned ==> has(row, "state"@, "UNASSIGNED"@)
            &&& c.state == ShardState::Initializing ==> has(row, "state"@, "INITIALIZING"@)
            &&& c.state == ShardState::Started ==> has(row, "state"@, "STARTED"@)
            &&& c.state == ShardState::Relocating ==> has(row, "state"@, "RELOCATING"@)
            &&& active && c.node == Some(a.me) ==> has(
                row,
                "docs"@,
                dec(docs_on(h, c.shard) as nat),
            ) && has(row, "store"@, size_asked(a.unit, bytes_on(h, c.shard)))
            &&& active && c.node != Some(a.me) ==> has(row, "docs"@, "0"@) && has(
                row,
                "store"@,
                "0b"@,
            )
            &&& !active ==> has(row, "docs"@, ""@) && has(row, "store"@, ""@)
            &&& c.node matches Some(id) ==> has(row, "id"@, id) && has(row, "ip"@, a.ip_of(id))
            &&& c.node is None ==> has(row, "id"@, ""@) && has(row, "ip"@, ""@) && has(
                row,
                "node"@,
                ""@,
            )
            &&& c.node matches Some(id) ==> (c.state != ShardState::Relocating
                || c.relocating_node is None) ==> has(row, "node"@, a.name_of(id))
            &&& c.state == ShardState::Unassigned ==> (c.unassigned matches Some(u) ==> has(
                row,
                "unassigned.reason"@,
                u.reason,
            ) && has(row, "unassigned.at"@, crate::time::iso(u.at as nat)))
            &&& c.state != ShardState::Unassigned ==> has(row, "unassigned.reason"@, ""@)
        }),
{
    let row = copy_row(a, n, h, c);
    assert(row[0].0 == "index"@);
    assert(row[1].0 == "shard"@);
    assert(row[2].0 == "prirep"@);
    assert(row[3].0 == "state"@);
    assert(row[4].0 == "docs"@);
    assert(row[5].0 == "store"@);
    assert(row[6].0 == "ip"@);
    assert(row[7].0 == "id"@);
    assert(row[8].0 == "node"@);
    assert(row[9].0 == "unassigned.reason"@);
    assert(row[10].0 == "unassigned.at"@);
}

/// Which copies a node tells of: all of them where it is alone; where it is not, those it
/// holds, and those nobody holds unless it was asked by another node.
pub proof fn law_which_copies_a_node_tells_of(a: AskedV, c: CopyV)
    ensures
        a.nodes.len() <= 1 ==> is_mine(a, c),
        a.nodes.len() > 1 && c.node == Some(a.me) ==> is_mine(a, c),
        a.nodes.len() > 1 && c.node is Some && c.node != Some(a.me) ==> !is_mine(a, c),
        a.nodes.len() > 1 && c.node is None && (c.state == ShardState::Unassigned || c.state
            == ShardState::Initializing) ==> is_mine(a, c) == !a.forwarded,
{
}

/// Copies are told of shard by shard, the primary of each first.
pub proof fn law_the_order_of_copies(a: CopyV, b: CopyV)
    ensures
        a.shard < b.shard ==> (by_copy())(a, b),
        a.shard == b.shard && a.primary && !b.primary ==> (by_copy())(a, b),
        a.shard > b.shard ==> !(by_copy())(a, b),
        a.shard == b.shard && (!a.primary || b.primary) ==> !(by_copy())(a, b),
{
}

/// The bytes of a shard are its share of the index's, by its documents; of an index without
/// documents, the first shard has them all.
pub proof fn law_the_bytes_of_a_shard(h: HeldV, shard: u32)
    ensures
        bytes_on(None, shard) == 0,
        docs_on(None, shard) == 0,
        shard < h.docs.len() ==> docs_on(Some(h), shard) == h.docs[shard as int],
        shard >= h.docs.len() ==> docs_on(Some(h), shard) == 0,
        total(h.docs) == 0 && shard == 0 ==> bytes_on(Some(h), shard) == h.size,
        total(h.docs) == 0 && shard > 0 ==> bytes_on(Some(h), shard) == 0,
        total(h.docs) > 0 ==> bytes_on(Some(h), shard) * total(h.docs) <= h.size * docs_on(
            Some(h),
            shard,
        ),
{
    if total(h.docs) > 0 {
        let n = h.size as nat * docs_on(Some(h), shard) as nat;
        let d = total(h.docs);
        let q = n / d;
        assert(q * d <= n) by (nonlinear_arith)
            requires
                d > 0,
                q == n / d,
        ;
    }
}

/// An index that no table tells of is told of from what this node holds: a started primary
/// for each shard and its replicas without a place; one shard and one replica where it says
/// neither.
pub proof fn law_an_index_no_table_tells_of(a: AskedV, n: Seq<char>, h: HeldV, shard: u32)
    ensures
        h.shards is None ==> shards_in(h) == 1,
        h.shards == Some(0u32) ==> shards_in(h) == 1,
        h.shards matches Some(k) ==> k > 0 ==> shards_in(h) == k,
        h.replicas is None ==> replicas_in(h) == 1,
        h.replicas matches Some(k) ==> replicas_in(h) == k,
        ({
            let row = alone_row(a, n, h, shard);
            &&& has(row, "index"@, n)
            &&& has(row, "shard"@, dec(shard as nat))
            &&& has(row, "prirep"@, "p"@)
            &&& has(row, "state"@, "STARTED"@)
            &&& has(row, "docs"@, dec(docs_on(Some(h), shard) as nat))
            &&& has(row, "store"@, size_asked(a.unit, bytes_on(Some(h), shard)))
            &&& has(row, "id"@, a.me)
            &&& has(row, "node"@, a.name)
        }),
        ({
            let row = replica_row(n, shard);
            &&& has(row, "index"@, n)
            &&& has(row, "shard"@, dec(shard as nat))
            &&& has(row, "prirep"@, "r"@)
            &&& has(row, "state"@, "UNASSIGNED"@)
            &&& has(row, "unassigned.reason"@, "INDEX_CREATED"@)
            &&& has(row, "node"@, ""@)
        }),
{
    let row = alone_row(a, n, h, shard);
    assert(row[0].0 == "index"@);
    assert(row[1].0 == "shard"@);
    assert(row[2].0 == "prirep"@);
    assert(row[3].0 == "state"@);
    assert(row[4].0 == "docs"@);
    assert(row[5].0 == "store"@);
    assert(row[7].0 == "id"@);
    assert(row[8].0 == "node"@);
    let r = replica_row(n, shard);
    assert(r[0].0 == "index"@);
    assert(r[1].0 == "shard"@);
    assert(r[2].0 == "prirep"@);
    assert(r[3].0 == "state"@);
    assert(r[8].0 == "node"@);
    assert(r[9].0 == "unassigned.reason"@);
}

/// What asks for an index in a table: its name, a pattern it fits, or all of them.
pub proof fn law_what_asks_for_an_index(part: Seq<char>, n: Seq<char>)
    ensures
        part_names(n, n),
        part_names("_all"@, n),
        part.contains('*') && fits(part, n) ==> part_names(part, n),
        part != n && part != "_all"@ && !part.contains('*') ==> !part_names(part, n),
        is_wanted(None, n),
        is_wanted(Some(Seq::empty()), n),
{
}

// ---- the others ----------------------------------------------------------------

/// A template is told of with its patterns, its order or priority, its version and what it
/// is made up of.
pub proof fn law_what_a_row_says_of_a_template(name: Seq<char>, t: JsonV)
    ensures
        has(template_row(name, t), "name"@, name),
        has(
            template_row(name, t),
            "index_patterns"@,
            "["@ + joined(crate::api::answer::texts_at(t, "index_patterns"@), ", "@) + "]"@,
        ),
        has(template_row(name, t), "version"@, template_says(t, "version"@)),
        has(
            template_row(name, t),
            "order"@,
            if template_says(t, "order"@).len() > 0 {
                template_says(t, "order"@)
            } else {
                template_says(t, "priority"@)
            },
        ),
        template_named(None, name),
        template_named(Some("*"@), name),
        template_named(Some(Seq::empty()), name),
{
    let row = template_row(name, t);
    assert(row[0].0 == "name"@);
    assert(row[1].0 == "index_patterns"@);
    assert(row[2].0 == "order"@);
    assert(row[3].0 == "version"@);
}

/// How an index came back: out of a snapshot; from its own store where it has documents or
/// is closed; and from nothing otherwise.
pub proof fn law_how_an_index_came_back(r: RecoveredV)
    ensures
        r.restored ==> recovery_kind(r) == "snapshot"@,
        !r.restored && (r.docs > 0 || r.closed) ==> recovery_kind(r) == "existing_store"@,
        !r.restored && r.docs == 0 && !r.closed ==> recovery_kind(r) == "empty_store"@,
{
}

/// What a row says of a recovery: which shard of which index, how it came back, to which
/// node, and that it is done.
pub proof fn law_what_a_row_says_of_a_recovery(r: RecoveredV, shard: u32, node: Seq<char>)
    ensures
        ({
            let row = recovery_row(r, shard, node);
            &&& has(row, "index"@, r.index)
            &&& has(row, "shard"@, dec(shard as nat))
            &&& has(row, "type"@, recovery_kind(r))
            &&& has(row, "stage"@, "done"@)
            &&& has(row, "target_node"@, node)
            &&& has(row, "files_percent"@, "100.0%"@)
            &&& has(row, "bytes_percent"@, "100.0%"@)
        }),
{
    let row = recovery_row(r, shard, node);
    assert(row[0].0 == "index"@);
    assert(row[1].0 == "shard"@);
    assert(row[7].0 == "type"@);
    assert(row[8].0 == "stage"@);
    assert(row[12].0 == "target_node"@);
    assert(row[17].0 == "files_percent"@);
    assert(row[21].0 == "bytes_percent"@);
}

/// What a row says of a segment: whose it is, and how many documents it has and has lost.
pub proof fn law_what_a_row_says_of_a_segment(
    index: Seq<char>,
    node: Seq<char>,
    i: nat,
    docs: u64,
    deleted: u64,
)
    ensures
        ({
            let row = segment_row(index, node, i, docs, deleted);
            &&& has(row, "index"@, index)
            &&& has(row, "shard"@, "0"@)
            &&& has(row, "prirep"@, "p"@)
            &&& has(row, "id"@, node)
            &&& has(row, "segment"@, "_"@ + dec(i))
            &&& has(row, "docs.count"@, dec(docs as nat))
            &&& has(row, "docs.deleted"@, dec(deleted as nat))
        }),
{
    let row = segment_row(index, node, i, docs, deleted);
    assert(row[0].0 == "index"@);
    assert(row[1].0 == "shard"@);
    assert(row[2].0 == "prirep"@);
    assert(row[3].0 == "id"@);
    assert(row[4].0 == "segment"@);
    assert(row[5].0 == "docs.count"@);
    assert(row[6].0 == "docs.deleted"@);
}

/// What a row says of a snapshot: its state, success where none is told; how many indices
/// it holds; and its shards, written, failed and in all.
pub proof fn law_what_a_row_says_of_a_snapshot(name: Seq<char>, snap: JsonV)
    ensures
        ({
            let row = snapshot_row(name, snap);
            &&& has(row, "id"@, name)
            &&& member(snap, "state"@) matches Some(JsonV::Text(s)) ==> has(row, "status"@, s)
            &&& member(snap, "state"@) is None ==> has(row, "status"@, "SUCCESS"@)
            &&& member(snap, "indices"@) matches Some(JsonV::List(v)) ==> has(
                row,
                "indices"@,
                dec(v.len()),
            )
            &&& member(snap, "shards"@) matches Some(x) ==> {
                &&& member(x, "successful"@) matches Some(JsonV::Number(NumberV::Whole(k))) ==> has(
                    row,
                    "successful_shards"@,
                    dec(k as nat),
                )
                &&& member(x, "failed"@) matches Some(JsonV::Number(NumberV::Whole(k))) ==> has(
                    row,
                    "failed_shards"@,
                    dec(k as nat),
                )
                &&& member(x, "total"@) matches Some(JsonV::Number(NumberV::Whole(k))) ==> has(
                    row,
                    "total_shards"@,
                    dec(k as nat),
                )
            }
        }),
{
    let row = snapshot_row(name, snap);
    assert(row[0].0 == "id"@);
    assert(row[1].0 == "status"@);
    assert(row[7].0 == "indices"@);
    assert(row[8].0 == "successful_shards"@);
    assert(row[9].0 == "failed_shards"@);
    assert(row[10].0 == "total_shards"@);
}

/// What rows say of a repository, an attribute of a node and a field that is loaded.
pub proof fn law_what_rows_say_of_the_rest(
    name: Seq<char>,
    def: JsonV,
    kind: Seq<char>,
    id: Seq<char>,
    f: (Seq<char>, u64),
    e: (Seq<char>, Seq<char>),
)
    ensures
        has(repository_row(name, def), "id"@, name),
        member(def, "type"@) == Some(JsonV::Text(kind)) ==> has(
            repository_row(name, def),
            "type"@,
            kind,
        ),
        member(def, "type"@) is None ==> has(repository_row(name, def), "type"@, "fs"@),
        has(attribute_row(name, e), "node"@, name),
        has(attribute_row(name, e), "attr"@, e.0),
        has(attribute_row(name, e), "value"@, e.1),
        has(field_row(id, name, f), "id"@, id),
        has(field_row(id, name, f), "node"@, name),
        has(field_row(id, name, f), "field"@, f.0),
        has(field_row(id, name, f), "size"@, crate::size::size_text(f.1 as nat)),
{
    let a = repository_row(name, def);
    assert(a[0].0 == "id"@);
    assert(a[1].0 == "type"@);
    let b = attribute_row(name, e);
    assert(b[0].0 == "node"@);
    assert(b[3].0 == "attr"@);
    assert(b[4].0 == "value"@);
    let c = field_row(id, name, f);
    assert(c[0].0 == "id"@);
    assert(c[3].0 == "node"@);
    assert(c[4].0 == "field"@);
    assert(c[5].0 == "size"@);
}

/// A copy that moves is shown on its node and on its way: to where, under which id and to
/// which node by its name.
pub proof fn law_a_copy_on_its_way_is_shown_so(
    a: AskedV,
    n: Seq<char>,
    h: Option<HeldV>,
    c: CopyV,
    from: Seq<char>,
    to: Seq<char>,
)
    requires
        c.state == ShardState::Relocating,
        c.node == Some(from),
        c.relocating_node == Some(to),
    ensures
        has(
            copy_row(a, n, h, c),
            "node"@,
            a.name_of(from) + " -> "@ + a.ip_of(to) + " "@ + to + " "@ + a.name_of(to),
        ),
{
    let row = copy_row(a, n, h, c);
    assert(row[8].0 == "node"@);
}

} // verus!
