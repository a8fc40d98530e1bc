//! The shards, one row for each copy.

use vstd::prelude::*;

use super::nodes::{has_id, place_of};
use super::{by_first, cell, cells, no_cells, sort_rows, Row, Table};
use crate::cluster::state::{
    is_node, shards_of, CopyV, DiscoveryNode, IndexV, NodeId, NodeV, RoutingTable,
    ShardRouting, ShardState,
};
use crate::list::{find, get, lemma_take, lookup, push_to, sort_by, sorted};
use crate::size::{size_asked, sized_in};
use crate::text::{cut, dec, decimal, fits, glob_match, has_char, same, split, trim, trimmed};
use crate::time::{iso, iso_millis};

verus! {

/// The columns shown when none are asked for.
pub const USUAL: [&'static str; 8] = [
    "index",
    "shard",
    "prirep",
    "state",
    "docs",
    "store",
    "ip",
    "node",
];

/// What this node holds of an index: the documents of each shard, the bytes of
/// all of them, and how many shards and replicas it was made with, where that
/// is said: one of each where it is not.
pub struct Held {
    pub docs: Vec<u64>,
    pub size: u64,
    pub shards: Option<u32>,
    pub replicas: Option<u64>,
}

pub struct HeldV {
    pub docs: Seq<u64>,
    pub size: u64,
    pub shards: Option<u32>,
    pub replicas: Option<u64>,
}

impl DeepView for Held {
    type V = HeldV;

    open spec fn deep_view(&self) -> HeldV {
        HeldV {
            docs: self.docs.deep_view(),
            size: self.size,
            shards: self.shards,
            replicas: self.replicas,
        }
    }
}

/// Who is asked, and how: the nodes there are, which of them this is, whether
/// another node asked it, and the unit sizes are shown in.
pub struct Asked<'a> {
    pub nodes: &'a Vec<DiscoveryNode>,
    pub me: NodeId,
    pub name: String,
    pub forwarded: bool,
    pub unit: Option<String>,
}

pub struct AskedV {
    pub nodes: Seq<NodeV>,
    pub me: Seq<char>,
    pub name: Seq<char>,
    pub forwarded: bool,
    pub unit: Option<Seq<char>>,
}

impl<'a> DeepView for Asked<'a> {
    type V = AskedV;

    open spec fn deep_view(&self) -> AskedV {
        AskedV {
            nodes: self.nodes.deep_view(),
            me: self.me.deep_view(),
            name: self.name@,
            forwarded: self.forwarded,
            unit: self.unit.deep_view(),
        }
    }
}

impl AskedV {
    /// Whether there are other nodes to answer for their own copies.
    pub open spec fn clustered(self) -> bool {
        self.nodes.len() > 1
    }

    pub open spec fn ip_of(self, id: Seq<char>) -> Seq<char> {
        let i = find(self.nodes, has_id(id));
        if i < self.nodes.len() {
            cut(self.nodes[i].transport_address, ':')[0]
        } else {
            ""@
        }
    }

    pub open spec fn name_of(self, id: Seq<char>) -> Seq<char> {
        let i = find(self.nodes, has_id(id));
        if i < self.nodes.len() {
            self.nodes[i].name
        } else {
            ""@
        }
    }
}

// ---- which indices -------------------------------------------------------------

/// Whether a part of a path names an index.
pub open spec fn part_names(part: Seq<char>, n: Seq<char>) -> bool {
    part == n || part == "_all"@ || (part.contains('*') && fits(part, n))
}

/// Whether a path names an index; no path names all of them.
pub open spec fn is_wanted(target: Option<Seq<char>>, n: Seq<char>) -> bool {
    match target {
        Some(t) => t.len() == 0 || exists|i: int|
            0 <= i < cut(t, ',').len() && part_names(trimmed(#[trigger] cut(t, ',')[i]), n),
        None => true,
    }
}

/// The indices described: those this node knows of, then those of the first
/// indices of the routing table it does not.
pub open spec fn described(
    local: Seq<Seq<char>>,
    t: Seq<IndexV>,
    target: Option<Seq<char>>,
    n: nat,
) -> Seq<Seq<char>>
    decreases n,
{
    if n == 0 {
        local
    } else {
        let before = described(local, t, target, (n - 1) as nat);
        if is_wanted(target, t[n - 1].name) && !before.contains(t[n - 1].name) {
            before.push(t[n - 1].name)
        } else {
            before
        }
    }
}

fn wanted(target: &Option<String>, n: &str) -> (r: bool)
    ensures
        r == is_wanted(target.deep_view(), n@),
{
    let t = match target {
        Some(t) => t.as_str(),
        None => {
            return true;
        },
    };
    if t.is_empty() {
        return true;
    }
    let parts = split(t, ',');
    let ghost pv = parts.deep_view();
    for i in 0..parts.len()
        invariant
            pv == parts.deep_view(),
            pv == cut(t@, ','),
            target.deep_view() == Some(t@),
            forall|j: int| 0 <= j < i ==> !part_names(trimmed(#[trigger] pv[j]), n@),
    {
        assert(pv[i as int] == parts@[i as int]@);
        let part = trim(parts[i].as_str());
        let p = part.as_str();
        if same(p, n) || same(p, "_all") || (has_char(p, '*') && glob_match(p, n)) {
            assert(part_names(trimmed(pv[i as int]), n@));
            return true;
        }
    }
    false
}

fn describe(local: Vec<String>, table: &RoutingTable, target: &Option<String>) -> (r: Vec<String>)
    ensures
        r.deep_view() == described(
            local.deep_view(),
            table.deep_view(),
            target.deep_view(),
            table.deep_view().len(),
        ),
{
    let ghost start = local.deep_view();
    let ghost tv = table.deep_view();
    let mut names = local;
    for i in 0..table.indices.len()
        invariant
            tv == table.deep_view(),
            names.deep_view() == described(start, tv, target.deep_view(), i as nat),
    {
        assert(tv[i as int] == table.indices@[i as int].deep_view());
        let n = table.indices[i].name.as_str();
        if wanted(target, n) && !crate::cluster::state::has_text(&names, n) {
            push_to(&mut names, n.to_owned());
        }
    }
    names
}

// ---- what is in them -----------------------------------------------------------

/// The documents of some shards.
pub open spec fn total(docs: Seq<u64>) -> nat
    decreases docs.len(),
{
    if docs.len() == 0 {
        0
    } else {
        total(docs.drop_last()) + docs.last() as nat
    }
}

/// The documents of a shard.
pub open spec fn docs_on(h: Option<HeldV>, shard: u32) -> u64 {
    match h {
        Some(x) => if shard < x.docs.len() {
            x.docs[shard as int]
        } else {
            0
        },
        None => 0,
    }
}

/// The bytes of a shard: its share of the index's bytes is its share of the
/// documents, and the first has them all where there is no document.
pub open spec fn bytes_on(h: Option<HeldV>, shard: u32) -> nat {
    match h {
        Some(x) => if total(x.docs) == 0 {
            if shard == 0 {
                x.size as nat
            } else {
                0
            }
        } else {
            (x.size as nat * docs_on(h, shard) as nat) / total(x.docs)
        },
        None => 0,
    }
}

proof fn lemma_total(docs: Seq<u64>, i: int)
    requires
        0 <= i < docs.len(),
    ensures
        docs[i] <= total(docs),
    decreases docs.len(),
{
    if i < docs.len() - 1 {
        lemma_total(docs.drop_last(), i);
    }
}

proof fn lemma_total_room(docs: Seq<u64>)
    ensures
        total(docs) <= docs.len() * u64::MAX,
    decreases docs.len(),
{
    if docs.len() > 0 {
        lemma_total_room(docs.drop_last());
        assert((docs.len() - 1) * u64::MAX + u64::MAX == docs.len() * u64::MAX)
            by (nonlinear_arith);
    }
}

fn find_docs(h: &Option<&Held>, shard: u32) -> (n: u64)
    ensures
        n == docs_on(h.deep_view(), shard),
{
    match h {
        Some(x) => {
            if (shard as usize) < x.docs.len() {
                x.docs[shard as usize]
            } else {
                0
            }
        },
        None => 0,
    }
}

fn total_of(docs: &Vec<u64>) -> (n: u128)
    ensures
        n == total(docs.deep_view()),
{
    let ghost dv = docs.deep_view();
    let count: usize = docs.len();
    let mut n: u128 = 0;
    assert(dv.take(0).len() == 0);
    for i in 0..count
        invariant
            count == docs@.len(),
            dv == docs.deep_view(),
            n == total(dv.take(i as int)),
    {
        proof {
            lemma_take(dv, i as int);
            lemma_total_room(dv.take(i as int));
            assert(dv.take(i as int).len() == i);
            assert(i * u64::MAX <= 0xffff_ffff_ffff_ffff * 0xffff_ffff_ffff_ffff) by (nonlinear_arith)
                requires
                    0 <= i <= 0xffff_ffff_ffff_ffff,
                    u64::MAX == 0xffff_ffff_ffff_ffff,
            ;
        }
        n = n + docs[i] as u128;
    }
    assert(dv.take(docs@.len() as int) =~= dv);
    n
}

fn find_bytes(h: &Option<&Held>, shard: u32) -> (n: u64)
    ensures
        n == bytes_on(h.deep_view(), shard),
{
    match h {
        Some(x) => {
            let all: u128 = total_of(&x.docs);
            if all == 0 {
                if shard == 0 {
                    x.size
                } else {
                    0
                }
            } else {
                let docs: u64 = find_docs(h, shard);
                proof {
                    let dv = x.docs.deep_view();
                    if shard < dv.len() {
                        lemma_total(dv, shard as int);
                    }
                    let a = x.size as int;
                    let b = docs as int;
                    let c = all as int;
                    assert(a * b <= 0xffff_ffff_ffff_ffff * 0xffff_ffff_ffff_ffff)
                        by (nonlinear_arith)
                        requires
                            0 <= a <= 0xffff_ffff_ffff_ffff,
                            0 <= b <= 0xffff_ffff_ffff_ffff,
                    ;
                    assert((a * b) / c <= a) by (nonlinear_arith)
                        requires
                            0 <= a,
                            0 <= b <= c,
                            0 < c,
                    ;
                }
                ((x.size as u128 * docs as u128) / all) as u64
            }
        },
        None => 0,
    }
}

// ---- the rows ------------------------------------------------------------------

/// What a row says of a copy besides its index, its shard and its state.
#[verifier::ext_equal]
pub struct CopyCells {
    pub docs: Seq<char>,
    pub store: Seq<char>,
    pub ip: Seq<char>,
    pub id: Seq<char>,
    pub node: Seq<char>,
    pub reason: Seq<char>,
    pub at: Seq<char>,
    pub details: Seq<char>,
}

pub open spec fn blank() -> CopyCells {
    CopyCells {
        docs: ""@,
        store: ""@,
        ip: ""@,
        id: ""@,
        node: ""@,
        reason: ""@,
        at: ""@,
        details: ""@,
    }
}

pub open spec fn shard_row(
    n: Seq<char>,
    shard: u32,
    prirep: Seq<char>,
    state: Seq<char>,
    c: CopyCells,
) -> Seq<(Seq<char>, Seq<char>)> {
    no_cells().push(("index"@, n)).push(("shard"@, dec(shard as nat))).push(
        ("prirep"@, prirep),
    ).push(("state"@, state)).push(("docs"@, c.docs)).push(("store"@, c.store)).push(
        ("ip"@, c.ip),
    ).push(("id"@, c.id)).push(("node"@, c.node)).push(("unassigned.reason"@, c.reason)).push(
        ("unassigned.at"@, c.at),
    ).push(("unassigned.for"@, ""@)).push(("unassigned.details"@, c.details))
}

struct Cells {
    docs: String,
    store: String,
    ip: String,
    id: String,
    node: String,
    reason: String,
    at: String,
    details: String,
}

impl Cells {
    spec fn seen(&self) -> CopyCells {
        CopyCells {
            docs: self.docs@,
            store: self.store@,
            ip: self.ip@,
            id: self.id@,
            node: self.node@,
            reason: self.reason@,
            at: self.at@,
            details: self.details@,
        }
    }
}

fn blank_cells() -> (c: Cells)
    ensures
        c.seen() == blank(),
{
    Cells {
        docs: "".to_owned(),
        store: "".to_owned(),
        ip: "".to_owned(),
        id: "".to_owned(),
        node: "".to_owned(),
        reason: "".to_owned(),
        at: "".to_owned(),
        details: "".to_owned(),
    }
}

fn row_of(n: &str, shard: u32, prirep: &str, state: &str, c: Cells) -> (row: Row)
    ensures
        row.deep_view() == shard_row(n@, shard, prirep@, state@, c.seen()),
{
    let mut row = cells();
    cell(&mut row, "index", n.to_owned());
    cell(&mut row, "shard", decimal(shard as u64));
    cell(&mut row, "prirep", prirep.to_owned());
    cell(&mut row, "state", state.to_owned());
    cell(&mut row, "docs", c.docs);
    cell(&mut row, "store", c.store);
    cell(&mut row, "ip", c.ip);
    cell(&mut row, "id", c.id);
    cell(&mut row, "node", c.node);
    cell(&mut row, "unassigned.reason", c.reason);
    cell(&mut row, "unassigned.at", c.at);
    cell(&mut row, "unassigned.for", "".to_owned());
    cell(&mut row, "unassigned.details", c.details);
    row
}

/// Where a copy is: its node, and where it is going when it is being moved.
pub open spec fn with_place(a: AskedV, c: CopyV) -> CopyCells {
    match c.node {
        Some(nd) => CopyCells {
            ip: a.ip_of(nd),
            id: nd,
            node: if c.state is Relocating && c.relocating_node is Some {
                let to = c.relocating_node->0;
                a.name_of(nd) + " -> "@ + a.ip_of(to) + " "@ + to + " "@ + a.name_of(to)
            } else {
                a.name_of(nd)
            },
            ..blank()
        },
        None => blank(),
    }
}

/// What a copy holds, where it is this node's to say.
pub open spec fn with_figures(a: AskedV, h: Option<HeldV>, c: CopyV, cells: CopyCells) -> CopyCells {
    if !(c.state is Started || c.state is Relocating) {
        cells
    } else if c.node == Some(a.me) {
        CopyCells {
            docs: dec(docs_on(h, c.shard) as nat),
            store: size_asked(a.unit, bytes_on(h, c.shard)),
            ..cells
        }
    } else {
        CopyCells { docs: "0"@, store: "0b"@, ..cells }
    }
}

/// Why a copy has no node.
pub open spec fn with_reason(c: CopyV, cells: CopyCells) -> CopyCells {
    match c.unassigned {
        Some(u) => if c.state is Unassigned {
            CopyCells {
                reason: u.reason,
                at: iso(u.at as nat),
                details: match u.details {
                    Some(d) => d,
                    None => ""@,
                },
                ..cells
            }
        } else {
            cells
        },
        None => cells,
    }
}

/// Whether a copy is this node's row to write: in a cluster a copy elsewhere is
/// that node's, and one with no node is written once, by the node the request
/// reached.
pub open spec fn is_mine(a: AskedV, c: CopyV) -> bool {
    if !a.clustered() {
        true
    } else if c.state is Started || c.state is Relocating {
        c.node == Some(a.me)
    } else {
        match c.node {
            Some(nd) => nd == a.me,
            None => !a.forwarded,
        }
    }
}

pub open spec fn copy_row(a: AskedV, n: Seq<char>, h: Option<HeldV>, c: CopyV) -> Seq<
    (Seq<char>, Seq<char>),
> {
    shard_row(
        n,
        c.shard,
        if c.primary {
            "p"@
        } else {
            "r"@
        },
        c.state.name(),
        with_reason(c, with_figures(a, h, c, with_place(a, c))),
    )
}

/// The rows of the first copies of an index.
pub open spec fn copy_rows(
    a: AskedV,
    n: Seq<char>,
    h: Option<HeldV>,
    copies: Seq<CopyV>,
    k: nat,
) -> Seq<Seq<(Seq<char>, Seq<char>)>>
    decreases k,
{
    if k == 0 {
        Seq::empty()
    } else {
        let before = copy_rows(a, n, h, copies, (k - 1) as nat);
        if is_mine(a, copies[k - 1]) {
            before.push(copy_row(a, n, h, copies[k - 1]))
        } else {
            before
        }
    }
}

/// Which of two copies comes first: by shard, the primary before the others.
pub open spec fn by_copy() -> spec_fn(CopyV, CopyV) -> bool {
    |a: CopyV, b: CopyV| a.shard < b.shard || (a.shard == b.shard && a.primary && !b.primary)
}

/// A replica nobody has placed.
pub open spec fn replica_row(n: Seq<char>, shard: u32) -> Seq<(Seq<char>, Seq<char>)> {
    shard_row(
        n,
        shard,
        "r"@,
        "UNASSIGNED"@,
        CopyCells { reason: "INDEX_CREATED"@, ..blank() },
    )
}

/// A primary this node holds, alone.
pub open spec fn alone_row(a: AskedV, n: Seq<char>, h: HeldV, shard: u32) -> Seq<
    (Seq<char>, Seq<char>),
> {
    shard_row(
        n,
        shard,
        "p"@,
        "STARTED"@,
        CopyCells {
            docs: dec(docs_on(Some(h), shard) as nat),
            store: size_asked(a.unit, bytes_on(Some(h), shard)),
            ip: "127.0.0.1"@,
            id: a.me,
            node: a.name,
            ..blank()
        },
    )
}

/// How many shards an index has.
pub open spec fn shards_in(h: HeldV) -> nat {
    match h.shards {
        Some(n) => if n == 0 {
            1
        } else {
            n as nat
        },
        None => 1,
    }
}

/// How many replicas each of them has.
pub open spec fn replicas_in(h: HeldV) -> nat {
    match h.replicas {
        Some(n) => n as nat,
        None => 1,
    }
}

/// The rows of the first shards of an index that is not published: this node
/// holds it, alone, and none of its replicas has a place.
pub open spec fn alone_rows(a: AskedV, n: Seq<char>, h: HeldV, k: nat) -> Seq<
    Seq<(Seq<char>, Seq<char>)>,
>
    decreases k,
{
    if k == 0 {
        Seq::empty()
    } else {
        alone_rows(a, n, h, (k - 1) as nat).push(alone_row(a, n, h, (k - 1) as u32)) + Seq::new(
            replicas_in(h),
            |i: int| replica_row(n, (k - 1) as u32),
        )
    }
}

/// The rows of an index.
pub open spec fn index_rows(
    a: AskedV,
    t: Seq<IndexV>,
    holdings: Seq<(Seq<char>, HeldV)>,
    n: Seq<char>,
) -> Seq<Seq<(Seq<char>, Seq<char>)>> {
    let copies = shards_of(t, n);
    let h = lookup(holdings, n);
    if copies.len() == 0 {
        match h {
            Some(x) => if a.clustered() && a.forwarded {
                Seq::empty()
            } else {
                alone_rows(a, n, x, shards_in(x))
            },
            None => Seq::empty(),
        }
    } else {
        copy_rows(a, n, h, sorted(copies, by_copy(), copies.len()), copies.len())
    }
}

/// The rows of the first indices.
pub open spec fn rows_of(
    a: AskedV,
    t: Seq<IndexV>,
    holdings: Seq<(Seq<char>, HeldV)>,
    names: Seq<Seq<char>>,
    k: nat,
) -> Seq<Seq<(Seq<char>, Seq<char>)>>
    decreases k,
{
    if k == 0 {
        Seq::empty()
    } else {
        rows_of(a, t, holdings, names, (k - 1) as nat) + index_rows(a, t, holdings, names[k - 1])
    }
}

impl<'a> Asked<'a> {
    fn is_clustered(&self) -> (r: bool)
        ensures
            r == self.deep_view().clustered(),
    {
        self.nodes.len() > 1
    }

    fn find_ip(&self, id: &NodeId) -> (r: String)
        ensures
            r@ == self.deep_view().ip_of(id.deep_view()),
    {
        let i = place_of(self.nodes, id);
        if i < self.nodes.len() {
            assert(self.nodes.deep_view()[i as int] == self.nodes@[i as int].deep_view());
            let parts = split(self.nodes[i].transport_address.as_str(), ':');
            assert(parts.deep_view()[0] == parts@[0]@);
            parts[0].clone()
        } else {
            "".to_owned()
        }
    }

    fn find_name(&self, id: &NodeId) -> (r: String)
        ensures
            r@ == self.deep_view().name_of(id.deep_view()),
    {
        let i = place_of(self.nodes, id);
        if i < self.nodes.len() {
            assert(self.nodes.deep_view()[i as int] == self.nodes@[i as int].deep_view());
            self.nodes[i].name.clone()
        } else {
            "".to_owned()
        }
    }

    fn place(&self, c: &ShardRouting) -> (r: Cells)
        ensures
            r.seen() == with_place(self.deep_view(), c.deep_view()),
    {
        let mut cells = blank_cells();
        if let Some(nd) = &c.node {
            cells.ip = self.find_ip(nd);
            cells.id = nd.as_str().to_owned();
            let moving = match c.state {
                ShardState::Relocating => true,
                _ => false,
            };
            cells.node = match &c.relocating_node {
                Some(to) => {
                    if moving {
                        self.find_name(nd).concat(" -> ").concat(self.find_ip(to).as_str()).concat(
                            " ",
                        ).concat(to.as_str()).concat(" ").concat(self.find_name(to).as_str())
                    } else {
                        self.find_name(nd)
                    }
                },
                None => self.find_name(nd),
            };
        }
        cells
    }

    fn mine(&self, c: &ShardRouting) -> (r: bool)
        ensures
            r == is_mine(self.deep_view(), c.deep_view()),
    {
        if !self.is_clustered() {
            return true;
        }
        match c.state {
            ShardState::Started | ShardState::Relocating => is_node(&c.node, &self.me),
            _ => match &c.node {
                Some(nd) => nd.is(&self.me),
                None => !self.forwarded,
            },
        }
    }

    fn row(&self, n: &str, h: &Option<&Held>, c: &ShardRouting) -> (row: Row)
        ensures
            row.deep_view() == copy_row(self.deep_view(), n@, h.deep_view(), c.deep_view()),
    {
        let mut cells = self.place(c);
        let active = match c.state {
            ShardState::Started | ShardState::Relocating => true,
            _ => false,
        };
        if active {
            if is_node(&c.node, &self.me) {
                cells.docs = decimal(find_docs(h, c.shard));
                cells.store = sized_in(&self.unit, find_bytes(h, c.shard));
            } else {
                cells.docs = "0".to_owned();
                cells.store = "0b".to_owned();
            }
        }
        assert(cells.seen() == with_figures(
            self.deep_view(),
            h.deep_view(),
            c.deep_view(),
            with_place(self.deep_view(), c.deep_view()),
        ));
        if let Some(u) = &c.unassigned {
            let unassigned = match c.state {
                ShardState::Unassigned => true,
                _ => false,
            };
            if unassigned {
                cells.reason = u.reason.clone();
                cells.at = iso_millis(u.at_millis);
                cells.details = match &u.details {
                    Some(d) => d.clone(),
                    None => "".to_owned(),
                };
            }
        }
        row_of(
            n,
            c.shard,
            if c.primary {
                "p"
            } else {
                "r"
            },
            c.state.as_str(),
            cells,
        )
    }

    fn add_copies(
        &self,
        rows: &mut Vec<Row>,
        n: &str,
        h: &Option<&Held>,
        copies: &Vec<&ShardRouting>,
    )
        ensures
            final(rows).deep_view() == old(rows).deep_view() + copy_rows(
                self.deep_view(),
                n@,
                h.deep_view(),
                copies.deep_view(),
                copies@.len(),
            ),
    {
        let ghost start = rows.deep_view();
        let ghost cv = copies.deep_view();
        assert(start + copy_rows(self.deep_view(), n@, h.deep_view(), cv, 0) =~= start);
        for i in 0..copies.len()
            invariant
                cv == copies.deep_view(),
                rows.deep_view() == start + copy_rows(
                    self.deep_view(),
                    n@,
                    h.deep_view(),
                    cv,
                    i as nat,
                ),
        {
            assert(cv[i as int] == copies@[i as int].deep_view());
            if self.mine(copies[i]) {
                push_to(rows, self.row(n, h, copies[i]));
            }
            assert(rows.deep_view() =~= start + copy_rows(
                self.deep_view(),
                n@,
                h.deep_view(),
                cv,
                (i + 1) as nat,
            ));
        }
    }

    fn add_alone(&self, rows: &mut Vec<Row>, n: &str, h: &Held, shards: u32)
        ensures
            final(rows).deep_view() == old(rows).deep_view() + alone_rows(
                self.deep_view(),
                n@,
                h.deep_view(),
                shards as nat,
            ),
    {
        let ghost start = rows.deep_view();
        let ghost av = self.deep_view();
        let ghost hv = h.deep_view();
        let some = Some(h);
        let replicas: u64 = match h.replicas {
            Some(n) => n,
            None => 1,
        };
        assert(start + alone_rows(av, n@, hv, 0) =~= start);
        for shard in 0..shards
            invariant
                av == self.deep_view(),
                hv == h.deep_view(),
                some == Some(h),
                replicas == replicas_in(hv),
                rows.deep_view() == start + alone_rows(av, n@, hv, shard as nat),
        {
            let mut cells = blank_cells();
            cells.docs = decimal(find_docs(&some, shard));
            cells.store = sized_in(&self.unit, find_bytes(&some, shard));
            cells.ip = "127.0.0.1".to_owned();
            cells.id = self.me.as_str().to_owned();
            cells.node = self.name.clone();
            push_to(rows, row_of(n, shard, "p", "STARTED", cells));
            let ghost before = rows.deep_view();
            let ghost one = replica_row(n@, shard);
            assert(before + Seq::new(0nat, |i: int| one) =~= before);
            let mut k: u64 = 0;
            while k < replicas
                invariant
                    k <= replicas,
                    one == replica_row(n@, shard),
                    rows.deep_view() == before + Seq::new(k as nat, |i: int| one),
                decreases replicas - k,
            {
                let mut blanks = blank_cells();
                blanks.reason = "INDEX_CREATED".to_owned();
                push_to(rows, row_of(n, shard, "r", "UNASSIGNED", blanks));
                k += 1;
                assert(rows.deep_view() =~= before + Seq::new(k as nat, |i: int| one));
            }
            assert(rows.deep_view() =~= start + alone_rows(av, n@, hv, (shard + 1) as nat)) by {
                assert(Seq::new(replicas_in(hv), |i: int| one) =~= Seq::new(
                    replicas_in(hv),
                    |i: int| replica_row(n@, ((shard + 1) as nat - 1) as u32),
                ));
            }
        }
    }

    fn add_index(
        &self,
        rows: &mut Vec<Row>,
        table: &RoutingTable,
        holdings: &Vec<(String, Held)>,
        n: &str,
    )
        ensures
            final(rows).deep_view() == old(rows).deep_view() + index_rows(
                self.deep_view(),
                table.deep_view(),
                holdings.deep_view(),
                n@,
            ),
    {
        let ghost start = rows.deep_view();
        let copies = table.shards_of(n);
        assert(copies.deep_view().len() == copies@.len());
        let h = get(holdings, n);
        assert(start + Seq::<Seq<(Seq<char>, Seq<char>)>>::empty() =~= start);
        if copies.len() == 0 {
            if let Some(x) = h {
                if !(self.is_clustered() && self.forwarded) {
                    let shards: u32 = match x.shards {
                        Some(k) => if k == 0 {
                            1
                        } else {
                            k
                        },
                        None => 1,
                    };
                    self.add_alone(rows, n, x, shards);
                }
            }
            return;
        }
        let ghost less = by_copy();
        let f = |a: &&ShardRouting, b: &&ShardRouting| -> (r: bool)
            ensures
                r == less(a.deep_view(), b.deep_view()),
            { a.shard < b.shard || (a.shard == b.shard && a.primary && !b.primary) };
        let ordered = sort_by(copies, f, Ghost(less));
        proof {
            lemma_sorted_len(copies.deep_view(), less, copies@.len());
        }
        assert(ordered.deep_view().len() == ordered@.len());
        self.add_copies(rows, n, &h, &ordered);
    }
}

proof fn lemma_sorted_len(s: Seq<CopyV>, less: spec_fn(CopyV, CopyV) -> bool, n: nat)
    ensures
        sorted(s, less, n).len() == n,
    decreases n,
{
    if n > 0 {
        lemma_sorted_len(s, less, (n - 1) as nat);
        let b = sorted(s, less, (n - 1) as nat);
        crate::list::lemma_found(b, crate::list::beyond(s[n - 1], less));
    }
}

/// The shards of the indices a path names, one row for each copy that is this
/// node's to describe, in the order of the indices' names. `local` are the
/// indices this node resolves the path to.
pub fn cat_shards(
    a: &Asked,
    table: &RoutingTable,
    holdings: &Vec<(String, Held)>,
    local: Vec<String>,
    target: &Option<String>,
) -> (t: Table)
    ensures
        t.columns@.len() == 0,
        t.usual@ == USUAL@,
        ({
            let names = described(
                local.deep_view(),
                table.deep_view(),
                target.deep_view(),
                table.deep_view().len(),
            );
            let rows = rows_of(
                a.deep_view(),
                table.deep_view(),
                holdings.deep_view(),
                names,
                names.len(),
            );
            t.rows.deep_view() == sorted(rows, by_first(), rows.len())
        }),
{
    let names = describe(local, table, target);
    let ghost nv = names.deep_view();
    assert(nv.len() == names@.len());
    let mut rows: Vec<Row> = Vec::new();
    assert(rows.deep_view() =~= Seq::<Seq<(Seq<char>, Seq<char>)>>::empty());
    for i in 0..names.len()
        invariant
            nv == names.deep_view(),
            rows.deep_view() == rows_of(
                a.deep_view(),
                table.deep_view(),
                holdings.deep_view(),
                nv,
                i as nat,
            ),
    {
        assert(nv[i as int] == names@[i as int]@);
        a.add_index(&mut rows, table, holdings, names[i].as_str());
    }
    assert(rows.deep_view().len() == rows@.len());
    Table {
        columns: Vec::new(),
        usual: super::nodes::columns_of(&USUAL),
        rows: sort_rows(rows),
    }
}

/// A copy that is on a node is described by that node and no other, and a copy
/// that is on none by the node the request reached.
pub proof fn law_a_copy_is_described_once(a: AskedV, c: CopyV)
    requires
        a.clustered(),
    ensures
        c.node is Some ==> (is_mine(a, c) <==> c.node == Some(a.me)),
        c.node is None && !(c.state is Started || c.state is Relocating) ==> (is_mine(a, c)
            <==> !a.forwarded),
{
}

/// The shards of an index take up no more than the index does.
pub proof fn law_shards_take_no_more_than_the_index(h: HeldV, shard: u32)
    ensures
        bytes_on(Some(h), shard) <= h.size,
{
    if total(h.docs) > 0 {
        if shard < h.docs.len() {
            lemma_total(h.docs, shard as int);
        }
        let a = h.size as int;
        let b = docs_on(Some(h), shard) as int;
        let c = total(h.docs) as int;
        assert((a * b) / c <= a) by (nonlinear_arith)
            requires
                0 <= a,
                0 <= b <= c,
                0 < c,
        ;
    }
}

} // verus!
