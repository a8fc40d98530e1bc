//! What a pass over the routing table works on: the table, the ids of new
//! copies, and what it did.

use vstd::prelude::*;

use super::state::{CopyV, Ids, IdsV, IndexV, InfoV, NodeId, RoutingTable, ShardRouting, ShardState, UnassignedInfo};
use crate::list::{push_to, put_at};
use crate::number::Millis;
use crate::text::{debug_form, debug_text, join, joined};

verus! {

/// What one pass of `reroute` did, for the notes.
#[derive(Debug, PartialEq, Eq)]
pub struct Changes {
    /// copies that are no longer in sync: their node left, so the writes
    /// taken since never reached them
    pub retired: Vec<(String, u32, String)>,
    pub notes: Vec<String>,
    pub assigned: Vec<(String, u32, bool, NodeId)>,
    pub unassigned: Vec<(String, u32, bool, String)>,
    pub promoted: Vec<(String, u32, NodeId)>,
    pub relocating: Vec<(String, u32, bool, NodeId, NodeId)>,
    /// the soonest a delayed replica may be allocated, if any waits
    pub next_delay_at: Option<Millis>,
}

#[verifier::ext_equal]
pub struct ChangesV {
    pub retired: Seq<(Seq<char>, u32, Seq<char>)>,
    pub notes: Seq<Seq<char>>,
    pub assigned: Seq<(Seq<char>, u32, bool, Seq<char>)>,
    pub unassigned: Seq<(Seq<char>, u32, bool, Seq<char>)>,
    pub promoted: Seq<(Seq<char>, u32, Seq<char>)>,
    pub relocating: Seq<(Seq<char>, u32, bool, Seq<char>, Seq<char>)>,
    pub next_delay_at: Option<u64>,
}

impl DeepView for Changes {
    type V = ChangesV;

    open spec fn deep_view(&self) -> ChangesV {
        ChangesV {
            retired: self.retired.deep_view(),
            notes: self.notes.deep_view(),
            assigned: self.assigned.deep_view(),
            unassigned: self.unassigned.deep_view(),
            promoted: self.promoted.deep_view(),
            relocating: self.relocating.deep_view(),
            next_delay_at: self.next_delay_at,
        }
    }
}

impl ChangesV {
    pub open spec fn none() -> ChangesV {
        ChangesV {
            retired: Seq::empty(),
            notes: Seq::empty(),
            assigned: Seq::empty(),
            unassigned: Seq::empty(),
            promoted: Seq::empty(),
            relocating: Seq::empty(),
            next_delay_at: None,
        }
    }

    /// Whether no copy went anywhere.
    pub open spec fn still(self) -> bool {
        self.assigned.len() == 0 && self.unassigned.len() == 0 && self.promoted.len() == 0
            && self.relocating.len() == 0
    }

    pub open spec fn retire(self, name: Seq<char>, shard: u32, id: Seq<char>) -> ChangesV {
        ChangesV { retired: self.retired.push((name, shard, id)), ..self }
    }

    pub open spec fn note(self, text: Seq<char>) -> ChangesV {
        ChangesV { notes: self.notes.push(text), ..self }
    }

    pub open spec fn assign(
        self,
        name: Seq<char>,
        shard: u32,
        primary: bool,
        node: Seq<char>,
    ) -> ChangesV {
        ChangesV { assigned: self.assigned.push((name, shard, primary, node)), ..self }
    }

    pub open spec fn unassign(
        self,
        name: Seq<char>,
        shard: u32,
        primary: bool,
        reason: Seq<char>,
    ) -> ChangesV {
        ChangesV { unassigned: self.unassigned.push((name, shard, primary, reason)), ..self }
    }

    pub open spec fn promote(self, name: Seq<char>, shard: u32, node: Seq<char>) -> ChangesV {
        ChangesV { promoted: self.promoted.push((name, shard, node)), ..self }
    }

    pub open spec fn relocate(
        self,
        name: Seq<char>,
        shard: u32,
        primary: bool,
        from: Seq<char>,
        to: Seq<char>,
    ) -> ChangesV {
        ChangesV { relocating: self.relocating.push((name, shard, primary, from, to)), ..self }
    }

    /// The changes with a replica waiting until a time.
    pub open spec fn wait(self, until: u64) -> ChangesV {
        ChangesV {
            next_delay_at: match self.next_delay_at {
                Some(d) => Some(
                    if d <= until {
                        d
                    } else {
                        until
                    },
                ),
                None => Some(until),
            },
            ..self
        }
    }
}

impl Default for Changes {
    fn default() -> (r: Changes)
        ensures
            r.deep_view() == ChangesV::none(),
    {
        let r = Changes {
            retired: Vec::new(),
            notes: Vec::new(),
            assigned: Vec::new(),
            unassigned: Vec::new(),
            promoted: Vec::new(),
            relocating: Vec::new(),
            next_delay_at: None,
        };
        assert(r.deep_view() =~= ChangesV::none());
        r
    }
}

impl Changes {
    pub fn is_empty(&self) -> (r: bool)
        ensures
            r == self.deep_view().still(),
    {
        self.assigned.len() == 0 && self.unassigned.len() == 0 && self.promoted.len() == 0
            && self.relocating.len() == 0
    }
}

/// A table, the ids of new copies, and what was done.
pub struct Work {
    pub table: RoutingTable,
    pub ids: Ids,
    pub changes: Changes,
}

#[verifier::ext_equal]
pub struct WorkV {
    pub t: Seq<IndexV>,
    pub ids: IdsV,
    pub ch: ChangesV,
}

impl DeepView for Work {
    type V = WorkV;

    open spec fn deep_view(&self) -> WorkV {
        WorkV {
            t: self.table.deep_view(),
            ids: self.ids.deep_view(),
            ch: self.changes.deep_view(),
        }
    }
}

/// A table with the copies of one shard put in the place of others.
pub open spec fn with_copies(t: Seq<IndexV>, i: int, s: int, copies: Seq<CopyV>) -> Seq<IndexV> {
    t.update(i, IndexV { name: t[i].name, shards: t[i].shards.update(s, copies) })
}

/// Puts the copies of one shard in the place of others.
pub fn set_copies(table: &mut RoutingTable, i: usize, s: usize, copies: Vec<ShardRouting>)
    requires
        i < old(table).indices@.len(),
        s < old(table).indices@[i as int].shards@.len(),
    ensures
        final(table).deep_view() == with_copies(
            old(table).deep_view(),
            i as int,
            s as int,
            copies.deep_view(),
        ),
        final(table).indices@.len() == old(table).indices@.len(),
{
    let e = &mut table.indices[i];
    put_at(&mut e.shards, s, copies);
    assert(table.deep_view() =~= with_copies(
        old(table).deep_view(),
        i as int,
        s as int,
        copies.deep_view(),
    ));
}

// ---- what happens to a copy ----------------------------------------------------

/// Why a copy is unassigned, not delayed.
pub open spec fn info(reason: Seq<char>, at: u64, status: Seq<char>, failed: u64) -> InfoV {
    InfoV { reason, at, delayed: false, status, failed, details: None }
}

/// Why a copy is unassigned, not delayed.
pub fn unassigned_info(reason: &str, at: Millis, status: &str, failed: u64) -> (r: UnassignedInfo)
    ensures
        r.deep_view() == info(reason@, at, status@, failed),
{
    UnassignedInfo {
        reason: reason.to_owned(),
        at_millis: at,
        delayed: false,
        allocation_status: status.to_owned(),
        failed_allocations: failed,
        details: None,
    }
}

/// A copy taken off its node.
pub open spec fn taken_off(c: CopyV, why: InfoV) -> CopyV {
    CopyV {
        state: ShardState::Unassigned,
        node: None,
        relocating_node: None,
        allocation_id: None,
        unassigned: Some(why),
        ..c
    }
}

/// A copy taken off its node.
pub fn take_off(c: &ShardRouting, why: UnassignedInfo) -> (r: ShardRouting)
    ensures
        r.deep_view() == taken_off(c.deep_view(), why.deep_view()),
{
    ShardRouting {
        index: c.index.clone(),
        shard: c.shard,
        primary: c.primary,
        state: ShardState::Unassigned,
        node: None,
        relocating_node: None,
        allocation_id: None,
        unassigned: Some(why),
    }
}

/// A copy put on a node, to be filled there.
pub open spec fn put_on(c: CopyV, node: Seq<char>, id: Seq<char>) -> CopyV {
    CopyV {
        state: ShardState::Initializing,
        node: Some(node),
        relocating_node: None,
        allocation_id: Some(id),
        unassigned: match c.unassigned {
            Some(u) => Some(InfoV { delayed: false, ..u }),
            None => None,
        },
        ..c
    }
}

/// A copy put on a node, to be filled there.
pub fn put_copy_on(c: &ShardRouting, node: &NodeId, id: String) -> (r: ShardRouting)
    ensures
        r.deep_view() == put_on(c.deep_view(), node.deep_view(), id@),
{
    let mut r = c.clone();
    r.state = ShardState::Initializing;
    r.node = Some(node.clone());
    r.relocating_node = None;
    r.allocation_id = Some(id);
    r.unassigned = match &c.unassigned {
        Some(u) => {
            let mut v = u.clone();
            v.delayed = false;
            Some(v)
        },
        None => None,
    };
    r
}

/// A copy on its way to another node.
pub open spec fn leaving(c: CopyV, to: Seq<char>) -> CopyV {
    CopyV { state: ShardState::Relocating, relocating_node: Some(to), ..c }
}

/// A copy that is where it is again.
pub open spec fn staying(c: CopyV) -> CopyV {
    CopyV { state: ShardState::Started, relocating_node: None, ..c }
}

/// A copy that is where it is again.
pub fn stay(c: &ShardRouting) -> (r: ShardRouting)
    ensures
        r.deep_view() == staying(c.deep_view()),
{
    let mut r = c.clone();
    r.state = ShardState::Started;
    r.relocating_node = None;
    r
}

/// The copy that is filled on a node from the one that leaves another.
pub open spec fn arriving(
    index: Seq<char>,
    shard: u32,
    primary: bool,
    from: Seq<char>,
    to: Seq<char>,
    id: Seq<char>,
) -> CopyV {
    CopyV {
        index,
        shard,
        primary,
        state: ShardState::Initializing,
        node: Some(to),
        relocating_node: Some(from),
        allocation_id: Some(id),
        unassigned: None,
    }
}

/// The copies of a shard with one of them on its way from a node to another.
pub open spec fn moved(
    copies: Seq<CopyV>,
    pos: int,
    index: Seq<char>,
    shard: u32,
    primary: bool,
    from: Seq<char>,
    to: Seq<char>,
    id: Seq<char>,
) -> Seq<CopyV> {
    copies.update(pos, leaving(copies[pos], to)).push(
        arriving(index, shard, primary, from, to, id),
    )
}

/// Sends one of the copies of a shard on its way from a node to another.
pub fn move_copy(
    copies: &mut Vec<ShardRouting>,
    pos: usize,
    index: &str,
    shard: u32,
    primary: bool,
    from: &NodeId,
    to: &NodeId,
    id: String,
)
    requires
        pos < old(copies)@.len(),
    ensures
        final(copies).deep_view() == moved(
            old(copies).deep_view(),
            pos as int,
            index@,
            shard,
            primary,
            from.deep_view(),
            to.deep_view(),
            id@,
        ),
{
    let mut c = copies[pos].clone();
    c.state = ShardState::Relocating;
    c.relocating_node = Some(to.clone());
    put_at(copies, pos, c);
    push_to(
        copies,
        ShardRouting {
            index: index.to_owned(),
            shard,
            primary,
            state: ShardState::Initializing,
            node: Some(to.clone()),
            relocating_node: Some(from.clone()),
            allocation_id: Some(id),
            unassigned: None,
        },
    );
}

/// A list of strings as the notes show it.
pub open spec fn list_shown(v: Seq<Seq<char>>) -> Seq<char> {
    "["@ + joined(v.map_values(|s: Seq<char>| debug_form(s)), ", "@) + "]"@
}

/// A list of strings as the notes show it.
pub fn show_list(v: &Vec<String>) -> (r: String)
    ensures
        r@ == list_shown(v.deep_view()),
{
    let mut parts: Vec<String> = Vec::new();
    for i in 0..v.len()
        invariant
            parts@.len() == i,
            forall|j: int| 0 <= j < i ==> parts@[j]@ == debug_form(#[trigger] v.deep_view()[j]),
    {
        parts.push(debug_text(v[i].as_str()));
    }
    assert(parts.deep_view() =~= v.deep_view().map_values(|s: Seq<char>| debug_form(s)));
    "[".to_owned().concat(join(&parts, ", ").as_str()).concat("]")
}

} // verus!
