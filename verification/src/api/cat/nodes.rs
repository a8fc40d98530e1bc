//! The nodes, one row each.

use vstd::prelude::*;

use super::{cell, cells, no_cells, Row, Table};
use crate::cluster::state::{is_node, DiscoveryNode, NodeId, NodeV};
use crate::list::{find, find_in, push_to, sort_by, sorted};
use crate::size::{size_asked, sized_in};
use crate::text::{
    chars_of, cut, dec, decimal, decimal_wide, join, joined, part, same, split, string_of,
};
use crate::time::{pad, padded};

verus! {

/// The columns of the list of nodes.
pub const COLUMNS: [&'static str; 24] = [
    "id",
    "ip",
    "file_desc.current",
    "file_desc.percent",
    "file_desc.max",
    "heap.current",
    "heap.percent",
    "heap.max",
    "ram.current",
    "ram.percent",
    "ram.max",
    "http",
    "cpu",
    "load_1m",
    "load_5m",
    "load_15m",
    "node.role",
    "node.roles",
    "cluster_manager",
    "name",
    "diskAvail",
    "diskTotal",
    "diskUsed",
    "diskUsedPercent",
];

/// Those of them that are shown when none are asked for.
pub const USUAL: [&'static str; 11] = [
    "ip",
    "heap.percent",
    "ram.percent",
    "cpu",
    "load_1m",
    "load_5m",
    "load_15m",
    "node.role",
    "node.roles",
    "cluster_manager",
    "name",
];

// ---- the elected manager -------------------------------------------------------

pub open spec fn has_id(id: Seq<char>) -> spec_fn(NodeV) -> bool {
    |n: NodeV| n.id == id
}

/// The node the cluster has elected, by id and name; this node where none is
/// known.
pub open spec fn elected(
    nodes: Seq<NodeV>,
    manager: Option<Seq<char>>,
    me: (Seq<char>, Seq<char>),
) -> (Seq<char>, Seq<char>) {
    match manager {
        Some(id) => {
            let i = find(nodes, has_id(id));
            if i < nodes.len() {
                (nodes[i].id, nodes[i].name)
            } else {
                me
            }
        },
        None => me,
    }
}

pub open spec fn manager_row(e: (Seq<char>, Seq<char>)) -> Seq<(Seq<char>, Seq<char>)> {
    no_cells().push(("id"@, e.0)).push(("host"@, "127.0.0.1"@)).push(("ip"@, "127.0.0.1"@)).push(
        ("node"@, e.1),
    )
}

/// The place of a node, or the length when it is not there.
pub(crate) fn place_of(nodes: &Vec<DiscoveryNode>, id: &NodeId) -> (i: usize)
    ensures
        i == find(nodes.deep_view(), has_id(id.deep_view())),
        i <= nodes@.len(),
{
    let ghost p = has_id(id.deep_view());
    let f = |n: &DiscoveryNode| -> (r: bool)
        ensures
            r == p(n.deep_view()),
        { n.id.is(id) };
    find_in(nodes, f, Ghost(p))
}

/// The node the cluster has elected, which is not this node unless it happens
/// to be.
pub fn cat_manager(
    nodes: &Vec<DiscoveryNode>,
    manager: &Option<NodeId>,
    id: &str,
    name: &str,
) -> (t: Table)
    ensures
        t.columns@.len() == 0,
        t.usual@.len() == 0,
        t.rows.deep_view() == seq![
            manager_row(elected(nodes.deep_view(), manager.deep_view(), (id@, name@))),
        ],
{
    let mut found = (id.to_owned(), name.to_owned());
    if let Some(m) = manager {
        let i = place_of(nodes, m);
        if i < nodes.len() {
            assert(nodes.deep_view()[i as int] == nodes@[i as int].deep_view());
            found = (nodes[i].id.as_str().to_owned(), nodes[i].name.clone());
        }
    }
    let mut row = cells();
    cell(&mut row, "id", found.0);
    cell(&mut row, "host", "127.0.0.1".to_owned());
    cell(&mut row, "ip", "127.0.0.1".to_owned());
    cell(&mut row, "node", found.1);
    let mut rows: Vec<Row> = Vec::new();
    rows.push(row);
    assert(rows.deep_view() =~= seq![row.deep_view()]);
    Table { columns: Vec::new(), usual: Vec::new(), rows }
}

// ---- every node ----------------------------------------------------------------

/// What this node uses and has. Another node's figures are its own to report.
pub struct Resources {
    pub pid: u32,
    pub uptime: String,
    pub fds: u64,
    pub max_fds: u64,
    pub heap_used: u64,
    pub heap_max: u64,
    pub ram_used: u64,
    pub ram_total: u64,
    pub cpu_percent: u64,
    /// the load over one, five and fifteen minutes, as it is shown
    pub load: Option<(String, String, String)>,
    /// how large the disk is, and how much of it is free
    pub disk: Option<(u64, u64)>,
}

pub struct ResourcesV {
    pub pid: u32,
    pub uptime: Seq<char>,
    pub fds: u64,
    pub max_fds: u64,
    pub heap_used: u64,
    pub heap_max: u64,
    pub ram_used: u64,
    pub ram_total: u64,
    pub cpu_percent: u64,
    pub load: Option<(Seq<char>, Seq<char>, Seq<char>)>,
    pub disk: Option<(u64, u64)>,
}

impl DeepView for Resources {
    type V = ResourcesV;

    open spec fn deep_view(&self) -> ResourcesV {
        ResourcesV {
            pid: self.pid,
            uptime: self.uptime@,
            fds: self.fds,
            max_fds: self.max_fds,
            heap_used: self.heap_used,
            heap_max: self.heap_max,
            ram_used: self.ram_used,
            ram_total: self.ram_total,
            cpu_percent: self.cpu_percent,
            load: self.load.deep_view(),
            disk: self.disk,
        }
    }
}

/// How many hundredths of a whole a part is.
pub open spec fn percent(used: u64, all: u64) -> nat {
    if all == 0 {
        0
    } else {
        (used as nat * 100) / (all as nat)
    }
}

/// A number of parts rounded to whole ones, a half to the even one of the two it
/// lies between.
pub open spec fn to_nearest(n: nat, d: nat) -> nat {
    let low = n / d;
    let over = 2 * (n % d);
    if over > d || (over == d && low % 2 == 1) {
        low + 1
    } else {
        low
    }
}

/// How many hundredths of a whole a part is, to two places.
pub open spec fn percent_text(used: u64, all: u64) -> Seq<char> {
    let hundredths = to_nearest(used as nat * 10_000, all as nat);
    dec(hundredths / 100) + "."@ + padded(hundredths % 100, 2)
}

/// The letter of a role; some have none.
pub open spec fn letter(role: Seq<char>) -> Option<char> {
    if role == "cluster_manager"@ || role == "master"@ {
        Some('m')
    } else if role == "data"@ {
        Some('d')
    } else if role == "ingest"@ {
        Some('i')
    } else if role == "remote_cluster_client"@ {
        Some('r')
    } else if role == "search"@ {
        Some('s')
    } else if role == "warm"@ {
        Some('w')
    } else {
        None
    }
}

/// The letters of the first roles.
pub open spec fn letters(roles: Seq<Seq<char>>, n: nat) -> Seq<char>
    decreases n,
{
    if n == 0 {
        Seq::empty()
    } else {
        match letter(roles[n - 1]) {
            Some(c) => letters(roles, (n - 1) as nat).push(c),
            None => letters(roles, (n - 1) as nat),
        }
    }
}

pub open spec fn by_char() -> spec_fn(char, char) -> bool {
    |a: char, b: char| a < b
}

/// A node's roles as letters, in their order.
pub open spec fn roles_text(roles: Seq<Seq<char>>) -> Seq<char> {
    let all = letters(roles, roles.len());
    sorted(all, by_char(), all.len())
}

/// What comes before the last colon of an address; nothing where it has none.
pub open spec fn host_of(address: Seq<char>) -> Seq<char> {
    joined(cut(address, ':').drop_last(), ":"@)
}

/// A figure of this node, blank for another's.
pub open spec fn measured(here: bool, v: Seq<char>) -> Seq<char> {
    if here {
        v
    } else {
        ""@
    }
}

pub open spec fn star(manager: bool) -> Seq<char> {
    if manager {
        "*"@
    } else {
        "-"@
    }
}

/// An id whole, or the start of it.
pub open spec fn id_shown(id: Seq<char>, full: bool) -> Seq<char> {
    if full || id.len() <= 4 {
        id
    } else {
        id.take(4)
    }
}

/// Where a node answers HTTP: as it says, and where it says nothing the usual
/// port of its host.
pub open spec fn http_of(n: NodeV) -> Seq<char> {
    if n.http_address.len() == 0 {
        host_of(n.transport_address) + ":9200"@
    } else {
        n.http_address
    }
}

pub open spec fn load_of(r: ResourcesV, which: int) -> Seq<char> {
    match r.load {
        Some((one, five, fifteen)) => if which == 0 {
            one
        } else if which == 1 {
            five
        } else {
            fifteen
        },
        None => ""@,
    }
}

pub open spec fn disk_total(r: ResourcesV) -> u64 {
    match r.disk {
        Some((all, free)) => all,
        None => 0,
    }
}

pub open spec fn disk_free(r: ResourcesV) -> u64 {
    match r.disk {
        Some((all, free)) => free,
        None => 0,
    }
}

pub open spec fn disk_used(r: ResourcesV) -> u64 {
    if disk_total(r) >= disk_free(r) {
        (disk_total(r) - disk_free(r)) as u64
    } else {
        0
    }
}

pub open spec fn disk_percent(r: ResourcesV) -> Seq<char> {
    if disk_total(r) == 0 {
        ""@
    } else {
        percent_text(disk_used(r), disk_total(r))
    }
}

/// What identifies a node and what runs it.
pub open spec fn head_cells(
    n: NodeV,
    r: ResourcesV,
    here: bool,
    leads: bool,
    full: bool,
) -> Seq<(Seq<char>, Seq<char>)> {
    no_cells().push(("id"@, id_shown(n.id, full))).push(
        ("ip"@, host_of(n.transport_address)),
    ).push(("pid"@, dec(r.pid as nat))).push(("version"@, crate::OPENSEARCH_VERSION@)).push(
        ("type"@, "tar"@),
    ).push(("build"@, "velosearch"@)).push(("jdk"@, "21"@)).push(
        ("uptime"@, measured(here, r.uptime)),
    ).push(("master"@, star(leads)))
}

/// What a node uses.
pub open spec fn usage_cells(
    row: Seq<(Seq<char>, Seq<char>)>,
    r: ResourcesV,
    here: bool,
    unit: Option<Seq<char>>,
) -> Seq<(Seq<char>, Seq<char>)> {
    row.push(("file_desc.current"@, measured(here, dec(r.fds as nat)))).push(
        ("file_desc.percent"@, measured(here, dec(percent(r.fds, r.max_fds)))),
    ).push(("file_desc.max"@, measured(here, dec(r.max_fds as nat)))).push(
        ("heap.current"@, measured(here, size_asked(unit, r.heap_used as nat))),
    ).push(("heap.percent"@, measured(here, dec(percent(r.heap_used, r.heap_max))))).push(
        ("heap.max"@, measured(here, size_asked(unit, r.heap_max as nat))),
    ).push(("ram.current"@, measured(here, size_asked(unit, r.ram_used as nat)))).push(
        ("ram.percent"@, measured(here, dec(percent(r.ram_used, r.ram_total)))),
    ).push(("ram.max"@, measured(here, size_asked(unit, r.ram_total as nat))))
}

/// Where a node is and what it is for.
pub open spec fn place_cells(
    row: Seq<(Seq<char>, Seq<char>)>,
    n: NodeV,
    r: ResourcesV,
    here: bool,
    leads: bool,
) -> Seq<(Seq<char>, Seq<char>)> {
    row.push(("http"@, http_of(n))).push(
        ("cpu"@, measured(here, dec(r.cpu_percent as nat))),
    ).push(("load_1m"@, measured(here, load_of(r, 0)))).push(
        ("load_5m"@, measured(here, load_of(r, 1))),
    ).push(("load_15m"@, measured(here, load_of(r, 2)))).push(
        ("node.role"@, roles_text(n.roles)),
    ).push(("node.roles"@, joined(n.roles, ","@))).push(("cluster_manager"@, star(leads))).push(
        ("name"@, n.name),
    )
}

/// What a node's disk holds.
pub open spec fn disk_cells(
    row: Seq<(Seq<char>, Seq<char>)>,
    r: ResourcesV,
    here: bool,
    unit: Option<Seq<char>>,
) -> Seq<(Seq<char>, Seq<char>)> {
    row.push(("diskAvail"@, measured(here, size_asked(unit, disk_free(r) as nat)))).push(
        ("diskTotal"@, measured(here, size_asked(unit, disk_total(r) as nat))),
    ).push(("diskUsed"@, measured(here, size_asked(unit, disk_used(r) as nat)))).push(
        ("diskUsedPercent"@, measured(here, disk_percent(r))),
    )
}

/// One node's row.
pub open spec fn node_row(
    n: NodeV,
    r: ResourcesV,
    manager: Option<Seq<char>>,
    me: Seq<char>,
    full: bool,
    unit: Option<Seq<char>>,
) -> Seq<(Seq<char>, Seq<char>)> {
    let here = n.id == me;
    let leads = manager == Some(n.id);
    disk_cells(
        place_cells(
            usage_cells(head_cells(n, r, here, leads, full), r, here, unit),
            n,
            r,
            here,
            leads,
        ),
        r,
        here,
        unit,
    )
}

fn percent_of(used: u64, all: u64) -> (r: String)
    ensures
        r@ == dec(percent(used, all)),
{
    if all == 0 {
        decimal(0)
    } else {
        decimal_wide((used as u128 * 100) / (all as u128))
    }
}

fn percent_in(used: u64, all: u64) -> (r: String)
    requires
        all > 0,
    ensures
        r@ == percent_text(used, all),
{
    let n: u128 = used as u128 * 10_000;
    let d: u128 = all as u128;
    let low: u128 = n / d;
    let over: u128 = 2 * (n % d);
    let hundredths: u128 = if over > d || (over == d && low % 2 == 1) {
        low + 1
    } else {
        low
    };
    let below: u128 = hundredths % 100;
    decimal_wide(hundredths / 100).concat(".").concat(pad(below as u64, 2).as_str())
}

fn letter_of(role: &str) -> (r: Option<char>)
    ensures
        r == letter(role@),
{
    if same(role, "cluster_manager") || same(role, "master") {
        Some('m')
    } else if same(role, "data") {
        Some('d')
    } else if same(role, "ingest") {
        Some('i')
    } else if same(role, "remote_cluster_client") {
        Some('r')
    } else if same(role, "search") {
        Some('s')
    } else if same(role, "warm") {
        Some('w')
    } else {
        None
    }
}

fn role_letters(roles: &Vec<String>) -> (r: String)
    ensures
        r@ == roles_text(roles.deep_view()),
{
    let ghost rv = roles.deep_view();
    let mut all: Vec<char> = Vec::new();
    assert(all.deep_view() =~= Seq::<char>::empty());
    for i in 0..roles.len()
        invariant
            rv == roles.deep_view(),
            all.deep_view() == letters(rv, i as nat),
    {
        assert(rv[i as int] == roles@[i as int]@);
        if let Some(c) = letter_of(roles[i].as_str()) {
            push_to(&mut all, c);
        }
    }
    assert(rv.len() == roles@.len());
    assert(all.deep_view().len() == all@.len());
    let ghost less = by_char();
    let f = |a: &char, b: &char| -> (r: bool)
        ensures
            r == less(a.deep_view(), b.deep_view()),
        { *a < *b };
    let ordered = sort_by(all, f, Ghost(less));
    assert(ordered.deep_view() =~= ordered@);
    string_of(&ordered)
}

fn host(address: &str) -> (r: String)
    ensures
        r@ == host_of(address@),
{
    let mut parts = split(address, ':');
    let ghost pv = parts.deep_view();
    let n: usize = parts.len();
    let _port = crate::list::remove_at(&mut parts, n - 1);
    assert(parts.deep_view() =~= pv.drop_last());
    join(&parts, ":")
}

fn measure(here: bool, v: String) -> (r: String)
    ensures
        r@ == measured(here, v@),
{
    if here {
        v
    } else {
        "".to_owned()
    }
}

fn starred(manager: bool) -> (r: String)
    ensures
        r@ == star(manager),
{
    if manager {
        "*".to_owned()
    } else {
        "-".to_owned()
    }
}

fn show_id(id: &str, full: bool) -> (r: String)
    ensures
        r@ == id_shown(id@, full),
{
    let v = chars_of(id);
    if full || v.len() <= 4 {
        id.to_owned()
    } else {
        let p = part(&v, 0, 4);
        assert(p@ =~= id@.take(4));
        string_of(&p)
    }
}

fn head(n: &DiscoveryNode, r: &Resources, here: bool, leads: bool, full: bool) -> (row: Row)
    ensures
        row.deep_view() == head_cells(n.deep_view(), r.deep_view(), here, leads, full),
{
    let mut row = cells();
    cell(&mut row, "id", show_id(n.id.as_str(), full));
    cell(&mut row, "ip", host(n.transport_address.as_str()));
    cell(&mut row, "pid", decimal(r.pid as u64));
    cell(&mut row, "version", crate::OPENSEARCH_VERSION.to_owned());
    cell(&mut row, "type", "tar".to_owned());
    cell(&mut row, "build", "velosearch".to_owned());
    cell(&mut row, "jdk", "21".to_owned());
    cell(&mut row, "uptime", measure(here, r.uptime.clone()));
    cell(&mut row, "master", starred(leads));
    row
}

fn add_usage(row: &mut Row, r: &Resources, here: bool, unit: &Option<String>)
    ensures
        final(row).deep_view() == usage_cells(
            old(row).deep_view(),
            r.deep_view(),
            here,
            unit.deep_view(),
        ),
{
    cell(row, "file_desc.current", measure(here, decimal(r.fds)));
    cell(row, "file_desc.percent", measure(here, percent_of(r.fds, r.max_fds)));
    cell(row, "file_desc.max", measure(here, decimal(r.max_fds)));
    cell(row, "heap.current", measure(here, sized_in(unit, r.heap_used)));
    cell(row, "heap.percent", measure(here, percent_of(r.heap_used, r.heap_max)));
    cell(row, "heap.max", measure(here, sized_in(unit, r.heap_max)));
    cell(row, "ram.current", measure(here, sized_in(unit, r.ram_used)));
    cell(row, "ram.percent", measure(here, percent_of(r.ram_used, r.ram_total)));
    cell(row, "ram.max", measure(here, sized_in(unit, r.ram_total)));
}

fn loads(r: &Resources) -> (l: (String, String, String))
    ensures
        l.0@ == load_of(r.deep_view(), 0),
        l.1@ == load_of(r.deep_view(), 1),
        l.2@ == load_of(r.deep_view(), 2),
{
    match &r.load {
        Some((one, five, fifteen)) => (one.clone(), five.clone(), fifteen.clone()),
        None => ("".to_owned(), "".to_owned(), "".to_owned()),
    }
}

fn http(n: &DiscoveryNode) -> (r: String)
    ensures
        r@ == http_of(n.deep_view()),
{
    if n.http_address.as_str().is_empty() {
        host(n.transport_address.as_str()).concat(":9200")
    } else {
        n.http_address.clone()
    }
}

fn add_place(row: &mut Row, n: &DiscoveryNode, r: &Resources, here: bool, leads: bool)
    ensures
        final(row).deep_view() == place_cells(
            old(row).deep_view(),
            n.deep_view(),
            r.deep_view(),
            here,
            leads,
        ),
{
    let (one, five, fifteen) = loads(r);
    cell(row, "http", http(n));
    cell(row, "cpu", measure(here, decimal(r.cpu_percent)));
    cell(row, "load_1m", measure(here, one));
    cell(row, "load_5m", measure(here, five));
    cell(row, "load_15m", measure(here, fifteen));
    cell(row, "node.role", role_letters(&n.roles));
    cell(row, "node.roles", join(&n.roles, ","));
    cell(row, "cluster_manager", starred(leads));
    cell(row, "name", n.name.clone());
}

fn add_disk(row: &mut Row, r: &Resources, here: bool, unit: &Option<String>)
    ensures
        final(row).deep_view() == disk_cells(
            old(row).deep_view(),
            r.deep_view(),
            here,
            unit.deep_view(),
        ),
{
    let (all, free): (u64, u64) = match r.disk {
        Some((all, free)) => (all, free),
        None => (0, 0),
    };
    let used: u64 = if all >= free {
        all - free
    } else {
        0
    };
    cell(row, "diskAvail", measure(here, sized_in(unit, free)));
    cell(row, "diskTotal", measure(here, sized_in(unit, all)));
    cell(row, "diskUsed", measure(here, sized_in(unit, used)));
    let shown = if all == 0 {
        "".to_owned()
    } else {
        percent_in(used, all)
    };
    cell(row, "diskUsedPercent", measure(here, shown));
}

/// The rows of the first nodes.
pub open spec fn node_rows(
    nodes: Seq<NodeV>,
    r: ResourcesV,
    manager: Option<Seq<char>>,
    me: Seq<char>,
    full: bool,
    unit: Option<Seq<char>>,
) -> Seq<Seq<(Seq<char>, Seq<char>)>> {
    nodes.map_values(|n: NodeV| node_row(n, r, manager, me, full, unit))
}

pub(crate) fn columns_of<const N: usize>(names: &[&'static str; N]) -> (r: Vec<&'static str>)
    ensures
        r@ == names@,
{
    let mut r: Vec<&'static str> = Vec::new();
    for i in 0..N
        invariant
            r@ == names@.take(i as int),
            names@.len() == N,
    {
        r.push(names[i]);
        assert(r@ =~= names@.take(i + 1));
    }
    assert(r@ =~= names@);
    r
}

/// Whether ids are shown whole: where it is asked for, unless by `false`.
pub open spec fn is_full(full_id: Option<Seq<char>>) -> bool {
    full_id is Some && full_id->0 != "false"@
}

/// One row for each node the cluster holds, the manager starred. This node's
/// figures are measured; another node's are its own to report, and are left
/// blank rather than written as zeros.
pub fn cat_nodes(
    nodes: &Vec<DiscoveryNode>,
    r: &Resources,
    manager: &Option<NodeId>,
    me: &NodeId,
    full_id: &Option<String>,
    unit: &Option<String>,
) -> (t: Table)
    ensures
        t.columns@ == COLUMNS@,
        t.usual@ == USUAL@,
        t.rows.deep_view() == node_rows(
            nodes.deep_view(),
            r.deep_view(),
            manager.deep_view(),
            me.deep_view(),
            is_full(full_id.deep_view()),
            unit.deep_view(),
        ),
{
    let full = match full_id {
        Some(v) => !same(v.as_str(), "false"),
        None => false,
    };
    let ghost nv = nodes.deep_view();
    let mut rows: Vec<Row> = Vec::new();
    for i in 0..nodes.len()
        invariant
            nv == nodes.deep_view(),
            rows@.len() == i,
            forall|j: int|
                0 <= j < i ==> rows@[j].deep_view() == node_row(
                    #[trigger] nv[j],
                    r.deep_view(),
                    manager.deep_view(),
                    me.deep_view(),
                    full,
                    unit.deep_view(),
                ),
    {
        let n = &nodes[i];
        assert(nv[i as int] == n.deep_view());
        let here = n.id.is(me);
        let leads = is_node(manager, &n.id);
        let mut row = head(n, r, here, leads, full);
        add_usage(&mut row, r, here, unit);
        add_place(&mut row, n, r, here, leads);
        add_disk(&mut row, r, here, unit);
        rows.push(row);
    }
    assert(rows.deep_view() =~= node_rows(
        nv,
        r.deep_view(),
        manager.deep_view(),
        me.deep_view(),
        full,
        unit.deep_view(),
    ));
    Table { columns: columns_of(&COLUMNS), usual: columns_of(&USUAL), rows }
}

/// A node is starred, in both columns that say so, exactly when it is the one
/// that was elected.
pub proof fn law_only_the_elected_node_is_starred(
    n: NodeV,
    r: ResourcesV,
    manager: Option<Seq<char>>,
    me: Seq<char>,
    full: bool,
    unit: Option<Seq<char>>,
)
    ensures
        node_row(n, r, manager, me, full, unit)[8] == ("master"@, star(manager == Some(n.id))),
        node_row(n, r, manager, me, full, unit)[25] == (
            "cluster_manager"@,
            star(manager == Some(n.id)),
        ),
        star(true) != star(false),
{
    reveal_strlit("*");
    reveal_strlit("-");
    assert("*"@[0] != "-"@[0]);
}

} // verus!
