//! The state of a cluster: its nodes, its indices and where the copies of
//! their shards are.

use vstd::prelude::*;

use crate::json::{Json, JsonV};
use crate::list::{find, find_in, flat, keep, keep_in, lemma_take, push_to};
use crate::number::Millis;
use crate::text::{dec, decimal, same};

verus! {

// ---- names ---------------------------------------------------------------------

/// What a node is known by.
#[derive(Debug, PartialEq, Eq, PartialOrd, Ord, Hash)]
pub struct NodeId(pub String);

impl DeepView for NodeId {
    type V = Seq<char>;

    open spec fn deep_view(&self) -> Seq<char> {
        self.0@
    }
}

impl Clone for NodeId {
    fn clone(&self) -> (r: NodeId)
        ensures
            r.deep_view() == self.deep_view(),
    {
        NodeId(self.0.clone())
    }
}

impl NodeId {
    pub fn as_str(&self) -> (r: &str)
        ensures
            r@ == self.deep_view(),
    {
        self.0.as_str()
    }

    /// Whether two ids are the same.
    pub fn is(&self, other: &NodeId) -> (r: bool)
        ensures
            r == (self.deep_view() == other.deep_view()),
    {
        self.0 == other.0
    }
}

/// Whether two ids that may be missing are the same.
pub fn same_node(a: &Option<NodeId>, b: &Option<NodeId>) -> (r: bool)
    ensures
        r == (a.deep_view() == b.deep_view()),
{
    match (a, b) {
        (Some(x), Some(y)) => x.is(y),
        (None, None) => true,
        _ => false,
    }
}

/// Whether an id that may be missing is this one.
pub fn is_node(a: &Option<NodeId>, id: &NodeId) -> (r: bool)
    ensures
        r == (a.deep_view() == Some(id.deep_view())),
{
    match a {
        Some(x) => x.is(id),
        None => false,
    }
}

/// Whether two strings that may be missing are the same.
pub fn same_text(a: &Option<String>, b: &Option<String>) -> (r: bool)
    ensures
        r == (a.deep_view() == b.deep_view()),
{
    match (a, b) {
        (Some(x), Some(y)) => *x == *y,
        (None, None) => true,
        _ => false,
    }
}

/// A copy of a string that may be missing.
pub fn copy_text(a: &Option<String>) -> (r: Option<String>)
    ensures
        r.deep_view() == a.deep_view(),
{
    match a {
        Some(x) => Some(x.clone()),
        None => None,
    }
}

/// A copy of an id that may be missing.
pub fn copy_node(a: &Option<NodeId>) -> (r: Option<NodeId>)
    ensures
        r.deep_view() == a.deep_view(),
{
    match a {
        Some(x) => Some(x.clone()),
        None => None,
    }
}

/// Where the ids of new copies come from: a name of its own for every run,
/// and a number that grows.
pub struct Ids {
    pub run: String,
    pub next: u64,
}

/// What a source of ids is.
pub struct IdsV {
    pub run: Seq<char>,
    pub next: u64,
}

impl DeepView for Ids {
    type V = IdsV;

    open spec fn deep_view(&self) -> IdsV {
        IdsV { run: self.run@, next: self.next }
    }
}

impl IdsV {
    /// The id that comes next.
    pub open spec fn id(self) -> Seq<char> {
        self.run + "-"@ + dec(self.next as nat)
    }

    /// The source once an id has been taken. The last one it has is given for
    /// good.
    pub open spec fn taken(self) -> IdsV {
        IdsV {
            run: self.run,
            next: if self.next < u64::MAX {
                (self.next + 1) as u64
            } else {
                self.next
            },
        }
    }
}

impl Ids {
    /// Takes an id.
    pub fn take(&mut self) -> (id: String)
        ensures
            id@ == old(self).deep_view().id(),
            final(self).deep_view() == old(self).deep_view().taken(),
    {
        let id = self.run.clone().concat("-").concat(decimal(self.next).as_str());
        if self.next < u64::MAX {
            self.next = self.next + 1;
        }
        id
    }
}

// ---- copies --------------------------------------------------------------------

/// What a copy of a shard is doing.
#[derive(Clone, Copy, Debug, PartialEq, Eq, Structural)]
pub enum ShardState {
    Unassigned,
    Initializing,
    Started,
    Relocating,
}

impl DeepView for ShardState {
    type V = ShardState;

    open spec fn deep_view(&self) -> ShardState {
        *self
    }
}

impl ShardState {
    /// The state's name.
    pub open spec fn name(self) -> Seq<char> {
        match self {
            ShardState::Unassigned => "UNASSIGNED"@,
            ShardState::Initializing => "INITIALIZING"@,
            ShardState::Started => "STARTED"@,
            ShardState::Relocating => "RELOCATING"@,
        }
    }

    /// Whether a copy in this state takes part in searches and writes.
    pub open spec fn active(self) -> bool {
        self == ShardState::Started || self == ShardState::Relocating
    }

    pub fn as_str(self) -> (r: &'static str)
        ensures
            r@ == self.name(),
    {
        match self {
            ShardState::Unassigned => "UNASSIGNED",
            ShardState::Initializing => "INITIALIZING",
            ShardState::Started => "STARTED",
            ShardState::Relocating => "RELOCATING",
        }
    }

    pub fn is_active(self) -> (r: bool)
        ensures
            r == self.active(),
    {
        self == ShardState::Started || self == ShardState::Relocating
    }
}

/// Why a copy is on no node, since when, and what came of the last attempt
/// to put it on one.
#[derive(Debug, PartialEq, Eq)]
pub struct UnassignedInfo {
    pub reason: String,
    pub at_millis: Millis,
    pub delayed: bool,
    pub allocation_status: String,
    pub failed_allocations: u64,
    pub details: Option<String>,
}

#[verifier::ext_equal]
pub struct InfoV {
    pub reason: Seq<char>,
    pub at: u64,
    pub delayed: bool,
    pub status: Seq<char>,
    pub failed: u64,
    pub details: Option<Seq<char>>,
}

impl DeepView for UnassignedInfo {
    type V = InfoV;

    open spec fn deep_view(&self) -> InfoV {
        InfoV {
            reason: self.reason@,
            at: self.at_millis,
            delayed: self.delayed,
            status: self.allocation_status@,
            failed: self.failed_allocations,
            details: self.details.deep_view(),
        }
    }
}

impl Clone for UnassignedInfo {
    fn clone(&self) -> (r: UnassignedInfo)
        ensures
            r.deep_view() == self.deep_view(),
    {
        UnassignedInfo {
            reason: self.reason.clone(),
            at_millis: self.at_millis,
            delayed: self.delayed,
            allocation_status: self.allocation_status.clone(),
            failed_allocations: self.failed_allocations,
            details: copy_text(&self.details),
        }
    }
}

/// One copy of one shard.
#[derive(Debug, PartialEq, Eq)]
pub struct ShardRouting {
    pub index: String,
    pub shard: u32,
    pub primary: bool,
    pub state: ShardState,
    pub node: Option<NodeId>,
    pub relocating_node: Option<NodeId>,
    pub allocation_id: Option<String>,
    pub unassigned: Option<UnassignedInfo>,
}

#[verifier::ext_equal]
pub struct CopyV {
    pub index: Seq<char>,
    pub shard: u32,
    pub primary: bool,
    pub state: ShardState,
    pub node: Option<Seq<char>>,
    pub relocating_node: Option<Seq<char>>,
    pub allocation_id: Option<Seq<char>>,
    pub unassigned: Option<InfoV>,
}

impl DeepView for ShardRouting {
    type V = CopyV;

    open spec fn deep_view(&self) -> CopyV {
        CopyV {
            index: self.index@,
            shard: self.shard,
            primary: self.primary,
            state: self.state,
            node: self.node.deep_view(),
            relocating_node: self.relocating_node.deep_view(),
            allocation_id: self.allocation_id.deep_view(),
            unassigned: self.unassigned.deep_view(),
        }
    }
}

impl Clone for ShardRouting {
    fn clone(&self) -> (r: ShardRouting)
        ensures
            r.deep_view() == self.deep_view(),
    {
        ShardRouting {
            index: self.index.clone(),
            shard: self.shard,
            primary: self.primary,
            state: self.state,
            node: copy_node(&self.node),
            relocating_node: copy_node(&self.relocating_node),
            allocation_id: copy_text(&self.allocation_id),
            unassigned: match &self.unassigned {
                Some(u) => Some(u.clone()),
                None => None,
            },
        }
    }
}

impl CopyV {
    /// Whether the copy is unassigned for a given reason.
    pub open spec fn because(self, reason: Seq<char>) -> bool {
        self.unassigned is Some && self.unassigned->0.reason == reason
    }

    /// Where the copy is filled from, while it is not there yet.
    pub open spec fn source(self) -> Option<Seq<char>> {
        if self.state == ShardState::Unassigned || self.state == ShardState::Initializing {
            Some(
                if self.relocating_node is Some || !self.primary {
                    "PEER"@
                } else if self.unassigned is None || self.because("INDEX_CREATED"@) {
                    "EMPTY_STORE"@
                } else {
                    "EXISTING_STORE"@
                },
            )
        } else {
            None
        }
    }
}

impl ShardRouting {
    /// Whether the copy is unassigned for a given reason.
    pub fn is_because(&self, reason: &str) -> (r: bool)
        ensures
            r == self.deep_view().because(reason@),
    {
        match &self.unassigned {
            Some(u) => same(u.reason.as_str(), reason),
            None => false,
        }
    }

    /// Where the copy is filled from, while it is not there yet: another
    /// copy, nothing, or what the node still holds.
    pub fn recovery_source(&self) -> (r: Option<&'static str>)
        ensures
            r.deep_view() == self.deep_view().source(),
    {
        if self.state == ShardState::Unassigned || self.state == ShardState::Initializing {
            if self.relocating_node.is_some() || !self.primary {
                Some("PEER")
            } else if self.unassigned.is_none() || self.is_because("INDEX_CREATED") {
                Some("EMPTY_STORE")
            } else {
                Some("EXISTING_STORE")
            }
        } else {
            None
        }
    }
}

/// A list of copies, copied.
pub fn copy_copies(v: &Vec<ShardRouting>) -> (r: Vec<ShardRouting>)
    ensures
        r.deep_view() == v.deep_view(),
{
    let mut r: Vec<ShardRouting> = Vec::new();
    for i in 0..v.len()
        invariant
            r@.len() == i,
            forall|j: int| 0 <= j < i ==> r@[j].deep_view() == v@[j].deep_view(),
    {
        r.push(v[i].clone());
    }
    assert(r.deep_view() =~= v.deep_view());
    r
}

// ---- the routing table ---------------------------------------------------------

/// Where the copies of an index are: one list of copies for every shard, in
/// the order of the shards.
#[derive(Debug, PartialEq, Eq)]
pub struct IndexRouting {
    pub name: String,
    pub shards: Vec<Vec<ShardRouting>>,
}

#[verifier::ext_equal]
pub struct IndexV {
    pub name: Seq<char>,
    pub shards: Seq<Seq<CopyV>>,
}

impl DeepView for IndexRouting {
    type V = IndexV;

    open spec fn deep_view(&self) -> IndexV {
        IndexV { name: self.name@, shards: self.shards.deep_view() }
    }
}

impl Clone for IndexRouting {
    fn clone(&self) -> (r: IndexRouting)
        ensures
            r.deep_view() == self.deep_view(),
    {
        let mut shards: Vec<Vec<ShardRouting>> = Vec::new();
        for i in 0..self.shards.len()
            invariant
                shards@.len() == i,
                forall|j: int|
                    0 <= j < i ==> shards@[j].deep_view() == self.shards@[j].deep_view(),
        {
            shards.push(copy_copies(&self.shards[i]));
        }
        assert(shards.deep_view() =~= self.shards.deep_view());
        IndexRouting { name: self.name.clone(), shards }
    }
}

/// Where every copy of every shard is, in the order of the indices' names, none
/// twice: `order::table_in_order` says so.
#[derive(Debug, PartialEq, Eq)]
pub struct RoutingTable {
    pub indices: Vec<IndexRouting>,
}

impl DeepView for RoutingTable {
    type V = Seq<IndexV>;

    open spec fn deep_view(&self) -> Seq<IndexV> {
        self.indices.deep_view()
    }
}

impl Clone for RoutingTable {
    fn clone(&self) -> (r: RoutingTable)
        ensures
            r.deep_view() == self.deep_view(),
    {
        let mut indices: Vec<IndexRouting> = Vec::new();
        for i in 0..self.indices.len()
            invariant
                indices@.len() == i,
                forall|j: int|
                    0 <= j < i ==> indices@[j].deep_view() == self.indices@[j].deep_view(),
        {
            indices.push(self.indices[i].clone());
        }
        assert(indices.deep_view() =~= self.indices.deep_view());
        RoutingTable { indices }
    }
}

impl Default for RoutingTable {
    fn default() -> (r: RoutingTable)
        ensures
            r.deep_view() == Seq::<IndexV>::empty(),
    {
        let r = RoutingTable { indices: Vec::new() };
        assert(r.deep_view() =~= Seq::<IndexV>::empty());
        r
    }
}

pub open spec fn named(name: Seq<char>) -> spec_fn(IndexV) -> bool {
    |e: IndexV| e.name == name
}

/// The place of an index in a table, or the length when it is not there.
pub open spec fn place(t: Seq<IndexV>, name: Seq<char>) -> int {
    find(t, named(name))
}

/// The copies of one shard.
pub open spec fn copies_of(t: Seq<IndexV>, name: Seq<char>, shard: u32) -> Seq<CopyV> {
    let i = place(t, name);
    if i < t.len() && shard < t[i].shards.len() {
        t[i].shards[shard as int]
    } else {
        Seq::empty()
    }
}

/// The copies of an index, shard by shard.
pub open spec fn shards_of(t: Seq<IndexV>, name: Seq<char>) -> Seq<CopyV> {
    let i = place(t, name);
    if i < t.len() {
        flat(t[i].shards)
    } else {
        Seq::empty()
    }
}

/// Every copy, index by index and shard by shard.
pub open spec fn all(t: Seq<IndexV>) -> Seq<CopyV>
    decreases t.len(),
{
    if t.len() == 0 {
        Seq::empty()
    } else {
        all(t.drop_last()) + flat(t.last().shards)
    }
}

pub open spec fn sits_on(id: Seq<char>) -> spec_fn(CopyV) -> bool {
    |c: CopyV| c.node == Some(id)
}

/// The copies on a node.
pub open spec fn on_node(t: Seq<IndexV>, id: Seq<char>) -> Seq<CopyV> {
    keep(all(t), sits_on(id))
}

/// The first of some copies that is a primary.
pub open spec fn first_primary(copies: Seq<CopyV>) -> Option<CopyV> {
    let i = find(copies, |c: CopyV| c.primary);
    if i < copies.len() {
        Some(copies[i])
    } else {
        None
    }
}

/// A shard's primary.
pub open spec fn primary_of(t: Seq<IndexV>, name: Seq<char>, shard: u32) -> Option<CopyV> {
    first_primary(copies_of(t, name, shard))
}

fn add_copies<'a>(out: &mut Vec<&'a ShardRouting>, shards: &'a Vec<Vec<ShardRouting>>)
    ensures
        final(out).deep_view() == old(out).deep_view() + flat(shards.deep_view()),
{
    let ghost start = out.deep_view();
    assert(start + flat(shards.deep_view().take(0)) =~= start);
    for i in 0..shards.len()
        invariant
            start == old(out).deep_view(),
            out.deep_view() == start + flat(shards.deep_view().take(i as int)),
    {
        proof {
            lemma_take(shards.deep_view(), i as int);
        }
        let copies = &shards[i];
        let ghost before = out.deep_view();
        assert(before + copies.deep_view().take(0) =~= before);
        for j in 0..copies.len()
            invariant
                out.deep_view() == before + copies.deep_view().take(j as int),
        {
            push_to(out, &copies[j]);
            assert(out.deep_view() =~= before + copies.deep_view().take(j + 1));
        }
        assert(copies.deep_view().take(copies@.len() as int) =~= copies.deep_view());
        assert(out.deep_view() =~= start + flat(shards.deep_view().take(i + 1)));
    }
    assert(shards.deep_view().take(shards@.len() as int) =~= shards.deep_view());
}

impl RoutingTable {
    /// The place of an index, or the length when it is not there.
    pub fn place_of(&self, name: &str) -> (i: usize)
        ensures
            i == place(self.deep_view(), name@),
            i <= self.indices@.len(),
            i < self.indices@.len() ==> self.deep_view()[i as int].name == name@,
    {
        let ghost p = named(name@);
        let f = |e: &IndexRouting| -> (r: bool)
            ensures
                r == p(e.deep_view()),
            { same(e.name.as_str(), name) };
        find_in(&self.indices, f, Ghost(p))
    }

    /// Every copy, index by index and shard by shard.
    pub fn all(&self) -> (r: Vec<&ShardRouting>)
        ensures
            r.deep_view() == all(self.deep_view()),
    {
        let mut out: Vec<&ShardRouting> = Vec::new();
        assert(out.deep_view() =~= all(self.deep_view().take(0)));
        for i in 0..self.indices.len()
            invariant
                out.deep_view() == all(self.deep_view().take(i as int)),
        {
            proof {
                lemma_take(self.deep_view(), i as int);
            }
            add_copies(&mut out, &self.indices[i].shards);
        }
        assert(self.deep_view().take(self.indices@.len() as int) =~= self.deep_view());
        out
    }

    /// The copies of an index, shard by shard.
    pub fn shards_of(&self, name: &str) -> (r: Vec<&ShardRouting>)
        ensures
            r.deep_view() == shards_of(self.deep_view(), name@),
    {
        let mut out: Vec<&ShardRouting> = Vec::new();
        assert(out.deep_view() =~= Seq::<CopyV>::empty());
        let i = self.place_of(name);
        if i < self.indices.len() {
            add_copies(&mut out, &self.indices[i].shards);
            assert(out.deep_view() =~= flat(self.indices@[i as int].shards.deep_view()));
        }
        out
    }

    /// The copies on a node.
    pub fn on_node(&self, id: &NodeId) -> (r: Vec<&ShardRouting>)
        ensures
            r.deep_view() == on_node(self.deep_view(), id.deep_view()),
    {
        let every = self.all();
        let ghost p = |c: CopyV| c.node == Some(id.deep_view());
        let f = |c: &ShardRouting| -> (r: bool)
            ensures
                r == p(c.deep_view()),
            { is_node(&c.node, id) };
        keep_in(&every, f, Ghost(p))
    }

    /// The copies of one shard, when the table has it.
    pub fn copies(&self, name: &str, shard: u32) -> (r: Option<&Vec<ShardRouting>>)
        ensures
            match r {
                Some(v) => v.deep_view() == copies_of(self.deep_view(), name@, shard),
                None => copies_of(self.deep_view(), name@, shard).len() == 0,
            },
    {
        let i = self.place_of(name);
        if i < self.indices.len() && (shard as usize) < self.indices[i].shards.len() {
            Some(&self.indices[i].shards[shard as usize])
        } else {
            None
        }
    }

    /// A shard's primary.
    pub fn primary(&self, name: &str, shard: u32) -> (r: Option<&ShardRouting>)
        ensures
            r.deep_view() == primary_of(self.deep_view(), name@, shard),
    {
        let ghost p = |c: CopyV| c.primary;
        match self.copies(name, shard) {
            Some(copies) => {
                let f = |c: &ShardRouting| -> (r: bool)
                    ensures
                        r == p(c.deep_view()),
                    { c.primary };
                let i = find_in(copies, f, Ghost(p));
                if i < copies.len() {
                    Some(&copies[i])
                } else {
                    None
                }
            },
            None => None,
        }
    }

    /// `green` when every copy is active, `yellow` when every primary is and
    /// `red` when one is not.
    pub fn health_status(&self) -> (r: &'static str)
        ensures
            r@ == health(all(self.deep_view())),
    {
        let every = self.all();
        let mut yellow = false;
        for i in 0..every.len()
            invariant
                every.deep_view() == all(self.deep_view()),
                forall|j: int|
                    #![trigger every@[j]]
                    0 <= j < i ==> !(every.deep_view()[j].primary
                        && !every.deep_view()[j].state.active()),
                yellow <==> exists|j: int|
                    0 <= j < i && !(#[trigger] every.deep_view()[j]).state.active(),
        {
            let c = every[i];
            if !c.state.is_active() {
                assert(!every.deep_view()[i as int].state.active());
                if c.primary {
                    return "red";
                }
                yellow = true;
            }
        }
        assert forall|j: int| 0 <= j < every.deep_view().len() implies !((
        #[trigger] every.deep_view()[j]).primary && !every.deep_view()[j].state.active()) by {
            let x = every@[j];
        }
        if yellow {
            "yellow"
        } else {
            "green"
        }
    }
}

/// The health some copies make.
pub open spec fn health(copies: Seq<CopyV>) -> Seq<char> {
    if exists|j: int|
        0 <= j < copies.len() && (#[trigger] copies[j]).primary && !copies[j].state.active() {
        "red"@
    } else if exists|j: int| 0 <= j < copies.len() && !(#[trigger] copies[j]).state.active() {
        "yellow"@
    } else {
        "green"@
    }
}

// ---- nodes ---------------------------------------------------------------------

/// A node of the cluster.
#[derive(Debug, PartialEq, Eq)]
pub struct DiscoveryNode {
    pub id: NodeId,
    pub name: String,
    pub ephemeral_id: NodeId,
    pub transport_address: String,
    /// where the node answers HTTP, as it said when it joined
    pub http_address: String,
    pub roles: Vec<String>,
    /// in the order of their names
    pub attributes: Vec<(String, String)>,
}

#[verifier::ext_equal]
pub struct NodeV {
    pub id: Seq<char>,
    pub name: Seq<char>,
    pub ephemeral_id: Seq<char>,
    pub transport_address: Seq<char>,
    pub http_address: Seq<char>,
    pub roles: Seq<Seq<char>>,
    pub attributes: Seq<(Seq<char>, Seq<char>)>,
}

impl DeepView for DiscoveryNode {
    type V = NodeV;

    open spec fn deep_view(&self) -> NodeV {
        NodeV {
            id: self.id.deep_view(),
            name: self.name@,
            ephemeral_id: self.ephemeral_id.deep_view(),
            transport_address: self.transport_address@,
            http_address: self.http_address@,
            roles: self.roles.deep_view(),
            attributes: self.attributes.deep_view(),
        }
    }
}

impl NodeV {
    /// Whether the node may hold copies.
    pub open spec fn data(self) -> bool {
        self.roles.contains("data"@)
    }
}

impl DiscoveryNode {
    /// Whether the node may hold copies.
    pub fn is_data(&self) -> (r: bool)
        ensures
            r == self.deep_view().data(),
    {
        has_text(&self.roles, "data")
    }
}

/// Whether a string is in a list.
pub fn has_text(v: &Vec<String>, s: &str) -> (r: bool)
    ensures
        r == v.deep_view().contains(s@),
{
    for i in 0..v.len()
        invariant
            forall|j: int| 0 <= j < i ==> v.deep_view()[j] != s@,
    {
        if same(v[i].as_str(), s) {
            assert(v.deep_view()[i as int] == s@);
            return true;
        }
    }
    false
}

// ---- indices -------------------------------------------------------------------

/// What the cluster knows of an index.
pub struct IndexMetadata {
    pub name: String,
    pub uuid: String,
    pub settings: Json,
    pub number_of_shards: u32,
    pub number_of_replicas: u32,
    /// by shard, the copies that have every acknowledged write
    pub in_sync_allocations: Vec<(u32, Vec<String>)>,
    pub creation_date: Millis,
}

pub struct MetaV {
    pub name: Seq<char>,
    pub uuid: Seq<char>,
    pub settings: JsonV,
    pub shards: u32,
    pub replicas: u32,
    pub in_sync: Seq<(u32, Seq<Seq<char>>)>,
    pub creation_date: u64,
}

impl DeepView for IndexMetadata {
    type V = MetaV;

    open spec fn deep_view(&self) -> MetaV {
        MetaV {
            name: self.name@,
            uuid: self.uuid@,
            settings: self.settings.deep_view(),
            shards: self.number_of_shards,
            replicas: self.number_of_replicas,
            in_sync: self.in_sync_allocations.deep_view(),
            creation_date: self.creation_date,
        }
    }
}

} // verus!
