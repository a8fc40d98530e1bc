//! Copies that are on no node are put on one: primaries first, then replicas,
//! each on the lightest node the deciders allow.

use vstd::prelude::*;

use super::balance::{ranked, ranking, RankedV};
use super::deciders::{can_allocate, may_allocate, overall, worst, Decision};
use super::departures::{in_sync, in_sync_of};
use super::settings::{Context, CtxV, SettingsV, ROOM};
use super::state::{
    copy_copies, has_text, CopyV, DiscoveryNode, IndexV, InfoV, NodeId, NodeV, RoutingTable,
    ShardRouting, ShardState,
};
use super::work::{list_shown, put_copy_on, put_on, set_copies, show_list, with_copies, Work, WorkV};
use crate::list::{find, find_in, lemma_find, push_to, put_at};
use crate::text::{debug_form, debug_text, join, joined, same};

verus! {

/// Whether a copy is on no node, and a primary or a replica as asked.
pub open spec fn waiting(primary: bool) -> spec_fn(CopyV) -> bool {
    |c: CopyV| c.primary == primary && c.state == ShardState::Unassigned
}

pub open spec fn pending_copies(
    copies: Seq<CopyV>,
    i: usize,
    s: usize,
    primary: bool,
    n: nat,
) -> Seq<(usize, usize, usize)>
    decreases n,
{
    if n == 0 {
        Seq::empty()
    } else {
        let before = pending_copies(copies, i, s, primary, (n - 1) as nat);
        if (waiting(primary))(copies[n - 1]) {
            before.push((i, s, (n - 1) as usize))
        } else {
            before
        }
    }
}

pub open spec fn pending_shards(
    shards: Seq<Seq<CopyV>>,
    i: usize,
    primary: bool,
    n: nat,
) -> Seq<(usize, usize, usize)>
    decreases n,
{
    if n == 0 {
        Seq::empty()
    } else {
        pending_shards(shards, i, primary, (n - 1) as nat) + pending_copies(
            shards[n - 1],
            i,
            (n - 1) as usize,
            primary,
            shards[n - 1].len(),
        )
    }
}

/// Where the copies are that wait in the first indices: index, shard and
/// place among the copies, in order.
pub open spec fn pending(t: Seq<IndexV>, primary: bool, n: nat) -> Seq<(usize, usize, usize)>
    decreases n,
{
    if n == 0 {
        Seq::empty()
    } else {
        pending(t, primary, (n - 1) as nat) + pending_shards(
            t[n - 1].shards,
            (n - 1) as usize,
            primary,
            t[n - 1].shards.len(),
        )
    }
}

/// Whether a table has a copy at a place.
pub open spec fn has_place(t: Seq<IndexV>, at: (usize, usize, usize)) -> bool {
    at.0 < t.len() && at.1 < t[at.0 as int].shards.len() && at.2 < t[at.0 as int].shards[at.1 as int].len()
}

/// A table with a copy in the place of another.
pub open spec fn with_copy(t: Seq<IndexV>, at: (usize, usize, usize), c: CopyV) -> Seq<IndexV> {
    with_copies(
        t,
        at.0 as int,
        at.1 as int,
        t[at.0 as int].shards[at.1 as int].update(at.2 as int, c),
    )
}

/// Puts a copy in the place of another.
fn set_copy(table: &mut RoutingTable, at: (usize, usize, usize), c: ShardRouting)
    requires
        has_place(old(table).deep_view(), at),
    ensures
        final(table).deep_view() == with_copy(old(table).deep_view(), at, c.deep_view()),
        final(table).indices@.len() == old(table).indices@.len(),
{
    assert(old(table).deep_view()[at.0 as int] == old(table).indices@[at.0 as int].deep_view());
    assert(old(table).indices@[at.0 as int].shards.deep_view()[at.1 as int] == old(
        table,
    ).indices@[at.0 as int].shards@[at.1 as int].deep_view());
    let mut copies = copy_copies(&table.indices[at.0].shards[at.1]);
    put_at(&mut copies, at.2, c);
    set_copies(table, at.0, at.1, copies);
}

// ---- a primary whose data is lost ----------------------------------------------

/// A copy a node holds on disk.
pub open spec fn is_held(
    name: Seq<char>,
    uuid: Seq<char>,
    in_sync: Seq<Seq<char>>,
) -> spec_fn((Seq<char>, Seq<char>, Seq<char>)) -> bool {
    |h: (Seq<char>, Seq<char>, Seq<char>)| h.0 == name && h.1 == uuid && in_sync.contains(h.2)
}

pub open spec fn of_node(
    id: Seq<char>,
) -> spec_fn((Seq<char>, Seq<(Seq<char>, Seq<char>, Seq<char>)>)) -> bool {
    |e: (Seq<char>, Seq<(Seq<char>, Seq<char>, Seq<char>)>)| e.0 == id
}

/// Whether a node still holds an in-sync copy of an index, of the same
/// creation of it.
pub open spec fn holds_in_sync(
    ctx: CtxV,
    id: Seq<char>,
    name: Seq<char>,
    uuid: Seq<char>,
    in_sync: Seq<Seq<char>>,
) -> bool {
    let i = find(ctx.held, of_node(id));
    i < ctx.held.len() && crate::list::any(ctx.held[i].1, is_held(name, uuid, in_sync))
}

pub open spec fn uuid_of(ctx: CtxV, name: Seq<char>) -> Seq<char> {
    match ctx.index(name) {
        Some(m) => m.uuid,
        None => ""@,
    }
}

pub open spec fn in_sync_or_none(ctx: CtxV, name: Seq<char>, shard: u32) -> Seq<Seq<char>> {
    match in_sync_of(ctx, name, shard) {
        Some(l) => l,
        None => Seq::empty(),
    }
}

/// Whether a node may get a lost primary back.
pub open spec fn keeps(
    ctx: CtxV,
    t: Seq<IndexV>,
    c: CopyV,
    name: Seq<char>,
    shard: u32,
) -> spec_fn(NodeV) -> bool {
    |n: NodeV|
        holds_in_sync(ctx, n.id, name, uuid_of(ctx, name), in_sync_or_none(ctx, name, shard))
            && worst(may_allocate(ctx, t, c, n)) == Decision::Yes
}

pub open spec fn held_entry(h: (Seq<char>, Seq<char>, Seq<char>)) -> Seq<char> {
    "("@ + debug_form(h.0) + ", "@ + debug_form(h.1) + ", "@ + debug_form(h.2) + ")"@
}

pub open spec fn held_by(e: (Seq<char>, Seq<(Seq<char>, Seq<char>, Seq<char>)>)) -> Seq<char> {
    "NodeId("@ + debug_form(e.0) + "): ["@ + joined(
        e.1.map_values(|h: (Seq<char>, Seq<char>, Seq<char>)| held_entry(h)),
        ", "@,
    ) + "]"@
}

/// What the nodes hold, as the notes show it.
pub open spec fn held_shown(
    held: Seq<(Seq<char>, Seq<(Seq<char>, Seq<char>, Seq<char>)>)>,
) -> Seq<char> {
    "{"@ + joined(
        held.map_values(
            |e: (Seq<char>, Seq<(Seq<char>, Seq<char>, Seq<char>)>)| held_by(e),
        ),
        ", "@,
    ) + "}"@
}

/// A copy with another allocation status, if it has one.
pub open spec fn with_status(c: CopyV, status: Seq<char>) -> CopyV {
    CopyV {
        unassigned: match c.unassigned {
            Some(u) => Some(InfoV { status, ..u }),
            None => None,
        },
        ..c
    }
}

/// A primary whose data was lost is not made again out of nothing: it goes
/// back to a node that still holds an in-sync copy, or waits.
pub open spec fn restored(ctx: CtxV, w: WorkV, at: (usize, usize, usize)) -> WorkV {
    let name = w.t[at.0 as int].name;
    let shard = at.1 as u32;
    let c = w.t[at.0 as int].shards[at.1 as int][at.2 as int];
    let data = ctx.data_nodes();
    let i = find(data, keeps(ctx, w.t, c, name, shard));
    if i < data.len() {
        WorkV {
            t: with_copy(w.t, at, put_on(c, data[i].id, w.ids.id())),
            ids: w.ids.taken(),
            ch: w.ch.note(
                "primary of ["@ + name + "] placed back on "@ + data[i].id
                    + ", which holds its in-sync copy"@,
            ).assign(name, shard, true, data[i].id),
        }
    } else {
        WorkV {
            t: with_copy(w.t, at, with_status(c, "no_valid_shard_copy"@)),
            ids: w.ids,
            ch: w.ch.note(
                "no in-sync copy of ["@ + name + "] to place the primary on: in_sync="@ + list_shown(
                    in_sync_or_none(ctx, name, shard),
                ) + " held="@ + held_shown(ctx.held),
            ),
        }
    }
}

// ---- any other copy ------------------------------------------------------------

/// When a replica that waits for its node may go elsewhere.
pub open spec fn ready_at(is: SettingsV, u: InfoV) -> u64 {
    if u.at + is.delayed_timeout > u64::MAX {
        u64::MAX
    } else {
        (u.at + is.delayed_timeout) as u64
    }
}

/// Whether a replica still waits for its node to come back.
pub open spec fn still_waits(ctx: CtxV, is: SettingsV, c: CopyV) -> bool {
    c.unassigned is Some && c.unassigned->0.delayed && ctx.now < ready_at(is, c.unassigned->0)
}

/// The first node, from one place in a ranking on, that the deciders allow,
/// and whether one before it was only throttled.
pub open spec fn best_from(
    ctx: CtxV,
    t: Seq<IndexV>,
    c: CopyV,
    r: Seq<RankedV>,
    i: nat,
) -> (Option<NodeV>, bool)
    decreases r.len() - i,
{
    if i >= r.len() {
        (None, false)
    } else {
        let d = worst(may_allocate(ctx, t, c, r[i as int].node));
        if d == Decision::Yes {
            (Some(r[i as int].node), false)
        } else {
            let (best, throttled) = best_from(ctx, t, c, r, i + 1);
            (best, throttled || d == Decision::Throttle)
        }
    }
}

/// What an attempt that placed nothing leaves: a replica every node refused
/// reads `no_attempt`, a primary reads why.
pub open spec fn refused(ctx: CtxV, c: CopyV, throttled: bool) -> CopyV {
    CopyV {
        unassigned: match c.unassigned {
            Some(u) => Some(
                InfoV {
                    delayed: false,
                    status: if throttled {
                        "throttled"@
                    } else if ctx.data_nodes().len() == 0 || !c.primary {
                        "no_attempt"@
                    } else if u.status == "no_valid_shard_copy"@ {
                        "no_valid_shard_copy"@
                    } else {
                        "deciders_no"@
                    },
                    ..u
                },
            ),
            None => None,
        },
        ..c
    }
}

/// A copy goes to the lightest node the deciders allow.
pub open spec fn settled(ctx: CtxV, w: WorkV, at: (usize, usize, usize)) -> WorkV {
    let name = w.t[at.0 as int].name;
    let c = w.t[at.0 as int].shards[at.1 as int][at.2 as int];
    let (best, throttled) = best_from(ctx, w.t, c, ranking(ctx, w.t, name), 0);
    match best {
        Some(node) => WorkV {
            t: with_copy(w.t, at, put_on(c, node.id, w.ids.id())),
            ids: w.ids.taken(),
            ch: w.ch.assign(name, at.1 as u32, c.primary, node.id),
        },
        None => WorkV { t: with_copy(w.t, at, refused(ctx, c, throttled)), ..w },
    }
}

/// Whether a copy is a primary whose data is lost, unless somebody accepted
/// the loss.
pub open spec fn data_lost(c: CopyV) -> bool {
    c.primary && !c.because("INDEX_CREATED"@) && !c.because("FORCED_EMPTY_PRIMARY"@)
}

/// What becomes of one copy that waits.
pub open spec fn placed(ctx: CtxV, w: WorkV, at: (usize, usize, usize)) -> WorkV {
    if !has_place(w.t, at) {
        w
    } else {
        let c = w.t[at.0 as int].shards[at.1 as int][at.2 as int];
        let is = ctx.settings_of(w.t[at.0 as int].name);
        if data_lost(c) {
            restored(ctx, w, at)
        } else if still_waits(ctx, is, c) {
            WorkV { ch: w.ch.wait(ready_at(is, c.unassigned->0)), ..w }
        } else {
            settled(ctx, w, at)
        }
    }
}

/// What becomes of the first copies of a list.
pub open spec fn placed_all(
    ctx: CtxV,
    w: WorkV,
    list: Seq<(usize, usize, usize)>,
    n: nat,
) -> WorkV
    decreases n,
{
    if n == 0 {
        w
    } else {
        placed(ctx, placed_all(ctx, w, list, (n - 1) as nat), list[n - 1])
    }
}

/// What becomes of the primaries that wait, or of the replicas.
pub open spec fn placed_kind(ctx: CtxV, w: WorkV, primary: bool) -> WorkV {
    let list = pending(w.t, primary, w.t.len());
    placed_all(ctx, w, list, list.len())
}

// ---- what it comes to ----------------------------------------------------------

/// A primary whose data is lost is not made again out of nothing: it stays
/// on no node, unless one still holds an in-sync copy of the same creation of
/// the index and the deciders allow it there.
pub proof fn law_a_lost_primary_is_not_made_again_out_of_nothing(
    ctx: CtxV,
    w: WorkV,
    at: (usize, usize, usize),
)
    requires
        has_place(w.t, at),
        data_lost(w.t[at.0 as int].shards[at.1 as int][at.2 as int]),
        w.t[at.0 as int].shards[at.1 as int][at.2 as int].state == ShardState::Unassigned,
    ensures
        ({
            let name = w.t[at.0 as int].name;
            let before = w.t[at.0 as int].shards[at.1 as int][at.2 as int];
            let after = placed(ctx, w, at).t[at.0 as int].shards[at.1 as int][at.2 as int];
            ||| after.state == ShardState::Unassigned && after.node == before.node
            ||| after.node is Some && holds_in_sync(
                ctx,
                after.node->0,
                name,
                uuid_of(ctx, name),
                in_sync_or_none(ctx, name, at.1 as u32),
            )
        }),
{
    let name = w.t[at.0 as int].name;
    let c = w.t[at.0 as int].shards[at.1 as int][at.2 as int];
    crate::list::lemma_found(ctx.data_nodes(), keeps(ctx, w.t, c, name, at.1 as u32));
}

/// Whether every decider allows a copy on a node.
pub open spec fn allowed(ctx: CtxV, t: Seq<IndexV>, c: CopyV) -> spec_fn(RankedV) -> bool {
    |r: RankedV| worst(may_allocate(ctx, t, c, r.node)) == Decision::Yes
}

proof fn lemma_best(ctx: CtxV, t: Seq<IndexV>, c: CopyV, r: Seq<RankedV>, i: nat)
    requires
        i <= r.len(),
        forall|j: int| 0 <= j < i ==> !(allowed(ctx, t, c))(#[trigger] r[j]),
    ensures
        best_from(ctx, t, c, r, i).0 == ({
            let k = find(r, allowed(ctx, t, c));
            if k < r.len() {
                Some(r[k].node)
            } else {
                None
            }
        }),
    decreases r.len() - i,
{
    if i >= r.len() || (allowed(ctx, t, c))(r[i as int]) {
        lemma_find(r, allowed(ctx, t, c), i as int);
    } else {
        lemma_best(ctx, t, c, r, i + 1);
    }
}

/// A copy goes to the first node of the ranking that every decider allows,
/// every lighter one being refused, and it waits only when no node is allowed.
pub proof fn law_a_copy_goes_to_the_lightest_node_allowed(
    ctx: CtxV,
    t: Seq<IndexV>,
    c: CopyV,
    name: Seq<char>,
)
    ensures
        ({
            let r = ranking(ctx, t, name);
            let k = find(r, allowed(ctx, t, c));
            &&& best_from(ctx, t, c, r, 0).0 == if k < r.len() {
                Some(r[k].node)
            } else {
                None
            }
            &&& k < r.len() ==> worst(may_allocate(ctx, t, c, r[k].node)) == Decision::Yes
            &&& forall|j: int| 0 <= j < k ==> !(allowed(ctx, t, c))(#[trigger] r[j])
        }),
{
    let r = ranking(ctx, t, name);
    lemma_best(ctx, t, c, r, 0);
    crate::list::lemma_found(r, allowed(ctx, t, c));
}

// ---- the same, done ------------------------------------------------------------

fn add_pending(
    out: &mut Vec<(usize, usize, usize)>,
    shards: &Vec<Vec<ShardRouting>>,
    i: usize,
    primary: bool,
)
    ensures
        final(out)@ == old(out)@ + pending_shards(
            shards.deep_view(),
            i,
            primary,
            shards@.len(),
        ),
{
    let ghost start = out@;
    let ghost sv = shards.deep_view();
    assert(start + pending_shards(sv, i, primary, 0) =~= start);
    for s in 0..shards.len()
        invariant
            sv == shards.deep_view(),
            out@ == start + pending_shards(sv, i, primary, s as nat),
    {
        let copies = &shards[s];
        let ghost before = out@;
        let ghost cv = copies.deep_view();
        assert(sv[s as int] == cv);
        assert(before + pending_copies(cv, i, s, primary, 0) =~= before);
        for k in 0..copies.len()
            invariant
                cv == copies.deep_view(),
                out@ == before + pending_copies(cv, i, s, primary, k as nat),
        {
            assert(cv[k as int] == copies@[k as int].deep_view());
            if copies[k].primary == primary && copies[k].state == ShardState::Unassigned {
                out.push((i, s, k));
            }
            assert(out@ =~= before + pending_copies(cv, i, s, primary, (k + 1) as nat));
        }
        assert(out@ =~= start + pending_shards(sv, i, primary, (s + 1) as nat));
    }
}

fn list_pending(table: &RoutingTable, primary: bool) -> (out: Vec<(usize, usize, usize)>)
    ensures
        out@ == pending(table.deep_view(), primary, table.deep_view().len()),
{
    let mut out: Vec<(usize, usize, usize)> = Vec::new();
    for i in 0..table.indices.len()
        invariant
            out@ == pending(table.deep_view(), primary, i as nat),
    {
        assert(table.deep_view()[i as int] == table.indices@[i as int].deep_view());
        add_pending(&mut out, &table.indices[i].shards, i, primary);
    }
    out
}

fn holds(
    ctx: &Context,
    id: &NodeId,
    name: &str,
    uuid: &str,
    in_sync: &Vec<String>,
) -> (r: bool)
    ensures
        r == holds_in_sync(ctx.deep_view(), id.deep_view(), name@, uuid@, in_sync.deep_view()),
{
    let ghost p = of_node(id.deep_view());
    let f = |e: &(NodeId, Vec<(String, String, String)>)| -> (r: bool)
        ensures
            r == p(e.deep_view()),
        { e.0.is(id) };
    let i = find_in(ctx.held, f, Ghost(p));
    if i >= ctx.held.len() {
        return false;
    }
    assert(ctx.held.deep_view()[i as int] == ctx.held@[i as int].deep_view());
    let ghost q = is_held(name@, uuid@, in_sync.deep_view());
    let g = |h: &(String, String, String)| -> (r: bool)
        ensures
            r == q(h.deep_view()),
        {
            same(h.0.as_str(), name) && same(h.1.as_str(), uuid) && has_text(
                in_sync,
                h.2.as_str(),
            )
        };
    crate::list::any_in(&ctx.held[i].1, g, Ghost(q))
}

fn show_held(held: &Vec<(NodeId, Vec<(String, String, String)>)>) -> (r: String)
    ensures
        r@ == held_shown(held.deep_view()),
{
    let ghost hv = held.deep_view();
    let mut parts: Vec<String> = Vec::new();
    for i in 0..held.len()
        invariant
            hv == held.deep_view(),
            parts@.len() == i,
            forall|j: int| 0 <= j < i ==> parts@[j]@ == held_by(#[trigger] hv[j]),
    {
        let list = &held[i].1;
        let ghost lv = list.deep_view();
        assert(hv[i as int] == (held@[i as int].0.deep_view(), lv));
        let mut inner: Vec<String> = Vec::new();
        for k in 0..list.len()
            invariant
                lv == list.deep_view(),
                inner@.len() == k,
                forall|j: int| 0 <= j < k ==> inner@[j]@ == held_entry(#[trigger] lv[j]),
        {
            let h = &list[k];
            assert(lv[k as int] == (h.0@, h.1@, h.2@));
            inner.push(
                "(".to_owned().concat(debug_text(h.0.as_str()).as_str()).concat(", ").concat(
                    debug_text(h.1.as_str()).as_str(),
                ).concat(", ").concat(debug_text(h.2.as_str()).as_str()).concat(")"),
            );
        }
        assert(inner.deep_view() =~= lv.map_values(
            |h: (Seq<char>, Seq<char>, Seq<char>)| held_entry(h),
        ));
        parts.push(
            "NodeId(".to_owned().concat(debug_text(held[i].0.as_str()).as_str()).concat("): [").concat(
                join(&inner, ", ").as_str(),
            ).concat("]"),
        );
    }
    assert(parts.deep_view() =~= hv.map_values(
        |e: (Seq<char>, Seq<(Seq<char>, Seq<char>, Seq<char>)>)| held_by(e),
    ));
    "{".to_owned().concat(join(&parts, ", ").as_str()).concat("}")
}

fn keeper<'a>(
    ctx: &Context<'a>,
    table: &RoutingTable,
    copy: &ShardRouting,
    name: &str,
    shard: u32,
    set: &Vec<String>,
) -> (r: Option<&'a DiscoveryNode>)
    requires
        set.deep_view() == in_sync_or_none(ctx.deep_view(), name@, shard),
    ensures
        ({
            let data = ctx.deep_view().data_nodes();
            let i = find(
                data,
                keeps(ctx.deep_view(), table.deep_view(), copy.deep_view(), name@, shard),
            );
            match r {
                Some(n) => i < data.len() && n.deep_view() == data[i],
                None => i >= data.len(),
            }
        }),
{
    let uuid = match ctx.index(name) {
        Some(m) => m.uuid.clone(),
        None => "".to_owned(),
    };
    let data = ctx.data_nodes();
    let ghost p = keeps(ctx.deep_view(), table.deep_view(), copy.deep_view(), name@, shard);
    let f = |n: &&'a DiscoveryNode| -> (r: bool)
        ensures
            r == p(n.deep_view()),
        {
            holds(ctx, &n.id, name, uuid.as_str(), set) && overall(
                &can_allocate(ctx, table, copy, n),
            ) == Decision::Yes
        };
    let i = find_in(&data, f, Ghost(p));
    if i < data.len() {
        Some(data[i])
    } else {
        None
    }
}

fn restore(ctx: &Context, w: &mut Work, at: (usize, usize, usize))
    requires
        has_place(old(w).deep_view().t, at),
    ensures
        final(w).deep_view() == restored(ctx.deep_view(), old(w).deep_view(), at),
        final(w).table.indices@.len() == old(w).table.indices@.len(),
{
    assert(w.table.deep_view()[at.0 as int] == w.table.indices@[at.0 as int].deep_view());
    assert(w.table.deep_view()[at.0 as int].shards[at.1 as int]
        == w.table.indices@[at.0 as int].shards@[at.1 as int].deep_view());
    let name = w.table.indices[at.0].name.clone();
    let shard: u32 = at.1 as u32;
    let copy = w.table.indices[at.0].shards[at.1][at.2].clone();
    let none: Vec<String> = Vec::new();
    assert(none.deep_view() =~= Seq::<Seq<char>>::empty());
    let set = match in_sync(ctx, name.as_str(), shard) {
        Some(s) => s,
        None => &none,
    };
    match keeper(ctx, &w.table, &copy, name.as_str(), shard, set) {
        Some(node) => {
            let id = w.ids.take();
            set_copy(&mut w.table, at, put_copy_on(&copy, &node.id, id));
            let note = "primary of [".to_owned().concat(name.as_str()).concat(
                "] placed back on ",
            ).concat(node.id.as_str()).concat(", which holds its in-sync copy");
            push_to(&mut w.changes.notes, note);
            push_to(&mut w.changes.assigned, (name, shard, true, node.id.clone()));
        },
        None => {
            let mut marked = copy.clone();
            marked.unassigned = match &copy.unassigned {
                Some(u) => {
                    let mut v = u.clone();
                    v.allocation_status = "no_valid_shard_copy".to_owned();
                    Some(v)
                },
                None => None,
            };
            set_copy(&mut w.table, at, marked);
            let note = "no in-sync copy of [".to_owned().concat(name.as_str()).concat(
                "] to place the primary on: in_sync=",
            ).concat(show_list(set).as_str()).concat(" held=").concat(
                show_held(ctx.held).as_str(),
            );
            push_to(&mut w.changes.notes, note);
        },
    }
}

/// The first node of a ranking that the deciders allow, and whether one was
/// only throttled when there is none.
fn best<'a>(ctx: &Context<'a>, table: &RoutingTable, copy: &ShardRouting, name: &str) -> (r: (
    Option<&'a DiscoveryNode>,
    bool,
))
    requires
        ctx.deep_view().nodes.len() <= ROOM,
        table.deep_view().len() <= ROOM,
    ensures
        (r.0.deep_view(), r.1) == best_from(
            ctx.deep_view(),
            table.deep_view(),
            copy.deep_view(),
            ranking(ctx.deep_view(), table.deep_view(), name@),
            0,
        ),
{
    let r = ranked(ctx, table, name);
    let ghost rv = r.deep_view();
    let mut throttled = false;
    let ghost whole = best_from(ctx.deep_view(), table.deep_view(), copy.deep_view(), rv, 0);
    let mut i: usize = 0;
    while i < r.len()
        invariant
            i <= r@.len(),
            rv == r.deep_view(),
            rv == ranking(ctx.deep_view(), table.deep_view(), name@),
            whole == best_from(ctx.deep_view(), table.deep_view(), copy.deep_view(), rv, 0),
            whole.0 == best_from(
                ctx.deep_view(),
                table.deep_view(),
                copy.deep_view(),
                rv,
                i as nat,
            ).0,
            whole.1 == (throttled || best_from(
                ctx.deep_view(),
                table.deep_view(),
                copy.deep_view(),
                rv,
                i as nat,
            ).1),
        decreases r@.len() - i,
    {
        let node = r[i].node;
        assert(rv[i as int].node == node.deep_view());
        match overall(&can_allocate(ctx, table, copy, node)) {
            Decision::Yes => {
                return (Some(node), throttled);
            },
            Decision::Throttle => {
                throttled = true;
            },
            Decision::No => {},
        }
        i += 1;
    }
    (None, throttled)
}

fn settle(ctx: &Context, w: &mut Work, at: (usize, usize, usize))
    requires
        ctx.deep_view().nodes.len() <= ROOM,
        old(w).deep_view().t.len() <= ROOM,
        has_place(old(w).deep_view().t, at),
    ensures
        final(w).deep_view() == settled(ctx.deep_view(), old(w).deep_view(), at),
        final(w).table.indices@.len() == old(w).table.indices@.len(),
{
    assert(w.table.deep_view()[at.0 as int] == w.table.indices@[at.0 as int].deep_view());
    assert(w.table.deep_view()[at.0 as int].shards[at.1 as int]
        == w.table.indices@[at.0 as int].shards@[at.1 as int].deep_view());
    let name = w.table.indices[at.0].name.clone();
    let shard: u32 = at.1 as u32;
    let copy = w.table.indices[at.0].shards[at.1][at.2].clone();
    let (found, throttled) = best(ctx, &w.table, &copy, name.as_str());
    match found {
        Some(node) => {
            let id = w.ids.take();
            set_copy(&mut w.table, at, put_copy_on(&copy, &node.id, id));
            push_to(&mut w.changes.assigned, (name, shard, copy.primary, node.id.clone()));
        },
        None => {
            let mut left = copy.clone();
            left.unassigned = match &copy.unassigned {
                Some(u) => {
                    let mut v = u.clone();
                    v.delayed = false;
                    v.allocation_status = if throttled {
                        "throttled".to_owned()
                    } else if ctx.data_nodes().len() == 0 || !copy.primary {
                        "no_attempt".to_owned()
                    } else if same(u.allocation_status.as_str(), "no_valid_shard_copy") {
                        "no_valid_shard_copy".to_owned()
                    } else {
                        "deciders_no".to_owned()
                    };
                    Some(v)
                },
                None => None,
            };
            set_copy(&mut w.table, at, left);
        },
    }
}

fn place(ctx: &Context, w: &mut Work, at: (usize, usize, usize))
    requires
        ctx.deep_view().nodes.len() <= ROOM,
        old(w).deep_view().t.len() <= ROOM,
    ensures
        final(w).deep_view() == placed(ctx.deep_view(), old(w).deep_view(), at),
        final(w).table.indices@.len() == old(w).table.indices@.len(),
{
    if at.0 >= w.table.indices.len() {
        return;
    }
    assert(w.table.deep_view()[at.0 as int] == w.table.indices@[at.0 as int].deep_view());
    if at.1 >= w.table.indices[at.0].shards.len() {
        return;
    }
    assert(w.table.deep_view()[at.0 as int].shards[at.1 as int]
        == w.table.indices@[at.0 as int].shards@[at.1 as int].deep_view());
    if at.2 >= w.table.indices[at.0].shards[at.1].len() {
        return;
    }
    let c = &w.table.indices[at.0].shards[at.1][at.2];
    if c.primary && !c.is_because("INDEX_CREATED") && !c.is_because("FORCED_EMPTY_PRIMARY") {
        restore(ctx, w, at);
        return;
    }
    let is = ctx.index_settings(w.table.indices[at.0].name.as_str());
    if let Some(u) = &c.unassigned {
        if u.delayed {
            let ready: u64 = u.at_millis.saturating_add(is.delayed_timeout);
            if ctx.now < ready {
                w.changes.next_delay_at = match w.changes.next_delay_at {
                    Some(d) => Some(
                        if d <= ready {
                            d
                        } else {
                            ready
                        },
                    ),
                    None => Some(ready),
                };
                return;
            }
        }
    }
    settle(ctx, w, at);
}

/// Puts the primaries that wait on nodes, or the replicas.
pub fn place_kind(ctx: &Context, w: &mut Work, primary: bool)
    requires
        ctx.deep_view().nodes.len() <= ROOM,
        old(w).deep_view().t.len() <= ROOM,
    ensures
        final(w).deep_view() == placed_kind(ctx.deep_view(), old(w).deep_view(), primary),
        final(w).table.indices@.len() == old(w).table.indices@.len(),
{
    let ghost start = w.deep_view();
    let list = list_pending(&w.table, primary);
    let n: usize = w.table.indices.len();
    for i in 0..list.len()
        invariant
            ctx.deep_view().nodes.len() <= ROOM,
            n <= ROOM,
            w.table.indices@.len() == n,
            w.deep_view() == placed_all(ctx.deep_view(), start, list@, i as nat),
    {
        place(ctx, w, list[i]);
    }
}

} // verus!
