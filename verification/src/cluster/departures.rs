//! Nodes that left: their copies become unassigned, a relocation they were
//! part of is called off, and an in-sync replica takes over from a primary
//! that was lost.

use vstd::prelude::*;

use super::settings::{Context, CtxV, IndexSettings, SettingsV};
use super::state::{copy_text, CopyV, InfoV, NodeId, ShardRouting, ShardState};
use super::work::{
    info, list_shown, set_copies, show_list, stay, staying, take_off, taken_off, unassigned_info,
    with_copies, Changes, ChangesV, Work, WorkV,
};
use crate::list::{any, any_in, find, find_in, keep, lemma_take, push_to, put_at};
use crate::text::{dec, decimal};

verus! {

/// Whether a node that is named is not in the cluster.
pub open spec fn gone(ctx: CtxV, id: Option<Seq<char>>) -> bool {
    id is Some && ctx.node(id->0) is None
}

fn is_gone(ctx: &Context, id: &Option<NodeId>) -> (r: bool)
    ensures
        r == gone(ctx.deep_view(), id.deep_view()),
{
    match id {
        Some(n) => ctx.node(n).is_none(),
        None => false,
    }
}

/// A relocation whose target left goes back to just the source.
pub open spec fn called_off(ctx: CtxV, c: CopyV) -> CopyV {
    if c.state == ShardState::Relocating && gone(ctx, c.relocating_node) {
        staying(c)
    } else {
        c
    }
}

/// Whether a copy is the target of a relocation one side of which left.
pub open spec fn orphan(ctx: CtxV, c: CopyV) -> bool {
    c.state == ShardState::Initializing && c.relocating_node is Some && (c.node is None || gone(
        ctx,
        c.node,
    ) || gone(ctx, c.relocating_node))
}

pub open spec fn not_orphan(ctx: CtxV) -> spec_fn(CopyV) -> bool {
    |c: CopyV| !orphan(ctx, c)
}

/// The copies of a shard without the relocations that cannot be finished.
pub open spec fn without_orphans(ctx: CtxV, copies: Seq<CopyV>) -> Seq<CopyV> {
    keep(
        copies.map_values(|c: CopyV| called_off(ctx, c)),
        not_orphan(ctx),
    )
}

/// Whether a copy was on a node that left.
pub open spec fn lost(ctx: CtxV, c: CopyV) -> bool {
    c.state != ShardState::Unassigned && gone(ctx, c.node)
}

/// A copy whose node left: a replica waits for it to come back, if the index
/// has a delay.
pub open spec fn lose(ctx: CtxV, is: SettingsV, c: CopyV) -> CopyV {
    taken_off(
        c,
        InfoV {
            delayed: !c.primary && is.delayed_timeout > 0,
            ..info("NODE_LEFT"@, ctx.now, "no_attempt"@, 0)
        },
    )
}

/// The copies of a shard, what was done, and the primary that was lost.
#[verifier::ext_equal]
pub struct LeftV {
    pub copies: Seq<CopyV>,
    pub ch: ChangesV,
    pub deposed: Option<Seq<char>>,
}

/// What is left of the first copies of a shard. A replica that was lost is
/// no longer in sync, since the writes the primary takes never reach it.
pub open spec fn losses(
    ctx: CtxV,
    is: SettingsV,
    name: Seq<char>,
    shard: u32,
    copies: Seq<CopyV>,
    ch: ChangesV,
    n: nat,
) -> LeftV
    decreases n,
{
    if n == 0 {
        LeftV { copies, ch, deposed: None }
    } else {
        let before = losses(ctx, is, name, shard, copies, ch, (n - 1) as nat);
        let c = copies[n - 1];
        if lost(ctx, c) {
            let retired = if !c.primary && c.allocation_id is Some {
                before.ch.retire(name, shard, c.allocation_id->0)
            } else {
                before.ch
            };
            LeftV {
                copies: before.copies.update(n - 1, lose(ctx, is, c)),
                ch: retired.unassign(name, shard, c.primary, "NODE_LEFT"@),
                deposed: if c.primary {
                    c.allocation_id
                } else {
                    before.deposed
                },
            }
        } else {
            before
        }
    }
}

pub open spec fn of_shard(shard: u32) -> spec_fn((u32, Seq<Seq<char>>)) -> bool {
    |e: (u32, Seq<Seq<char>>)| e.0 == shard
}

/// The copies of a shard that have every acknowledged write, if that is known.
pub open spec fn in_sync_of(ctx: CtxV, name: Seq<char>, shard: u32) -> Option<Seq<Seq<char>>> {
    match ctx.index(name) {
        Some(m) => {
            let i = find(m.in_sync, of_shard(shard));
            if i < m.in_sync.len() {
                Some(m.in_sync[i].1)
            } else {
                None
            }
        },
        None => None,
    }
}

/// Whether a copy may take over as the primary: an active replica that is in
/// sync. An empty set is every copy having missed something; no set at all is
/// no information, and there the shard is better up than down.
pub open spec fn eligible(in_sync: Option<Seq<Seq<char>>>) -> spec_fn(CopyV) -> bool {
    |c: CopyV|
        !c.primary && c.state.active() && c.node is Some && c.allocation_id is Some && (
        in_sync is None || in_sync->0.contains(c.allocation_id->0))
}

pub open spec fn is_lost_primary() -> spec_fn(CopyV) -> bool {
    |c: CopyV| c.primary && c.state == ShardState::Unassigned
}

pub open spec fn is_active_replica() -> spec_fn(CopyV) -> bool {
    |c: CopyV| !c.primary && c.state.active()
}

pub open spec fn maybe_list(v: Option<Seq<Seq<char>>>) -> Seq<char> {
    match v {
        Some(l) => "Some("@ + list_shown(l) + ")"@,
        None => "None"@,
    }
}

/// Two elements changed over.
pub open spec fn swapped(s: Seq<CopyV>, i: int, j: int) -> Seq<CopyV> {
    s.update(i, s[j]).update(j, s[i])
}

/// The copies of a shard once a replica has taken over from its primary.
pub open spec fn taken_over(copies: Seq<CopyV>, lost: int, heir: int) -> Seq<CopyV> {
    let c = copies[heir];
    let risen = copies.update(heir, CopyV { primary: true, ..staying(c) });
    swapped(risen.update(lost, CopyV { primary: false, ..risen[lost] }), 0, heir)
}

/// What becomes of a shard whose primary is on no node: an in-sync replica
/// takes over, and the copy that was the primary is no longer in sync, being
/// behind the one that has. Where none may, the shard stays without one.
pub open spec fn succeeded(ctx: CtxV, name: Seq<char>, shard: u32, left: LeftV) -> LeftV {
    let copies = left.copies;
    let in_sync = in_sync_of(ctx, name, shard);
    let p = find(copies, is_lost_primary());
    let r = find(copies, eligible(in_sync));
    if p >= copies.len() {
        left
    } else if r < copies.len() {
        let retired = match left.deposed {
            Some(a) => left.ch.retire(name, shard, a),
            None => left.ch,
        };
        LeftV {
            copies: taken_over(copies, p, r),
            ch: retired.promote(name, shard, copies[r].node->0),
            deposed: None,
        }
    } else if copies[p].because("NODE_LEFT"@) {
        let c = copies[p];
        let marked = copies.update(
            p,
            CopyV {
                unassigned: Some(
                    InfoV { status: "no_valid_shard_copy"@, ..c.unassigned->0 },
                ),
                ..c
            },
        );
        LeftV {
            copies: marked,
            ch: if any(marked, is_active_replica()) {
                left.ch.note(
                    "no copy of ["@ + name + "]["@ + dec(shard as nat)
                        + "] may take the primary: the copies here are not in sync (in_sync="@
                        + maybe_list(in_sync) + ")"@,
                )
            } else {
                left.ch
            },
            deposed: left.deposed,
        }
    } else {
        left
    }
}

/// One shard once the nodes that left are accounted for.
pub open spec fn departed_shard(
    ctx: CtxV,
    is: SettingsV,
    name: Seq<char>,
    shard: u32,
    copies: Seq<CopyV>,
    ch: ChangesV,
) -> LeftV {
    let here = without_orphans(ctx, copies);
    succeeded(ctx, name, shard, losses(ctx, is, name, shard, here, ch, here.len()))
}

/// The first shards of an index once the nodes that left are accounted for.
pub open spec fn departed_shards(ctx: CtxV, w: WorkV, i: int, n: nat) -> WorkV
    decreases n,
{
    if n == 0 {
        w
    } else {
        let before = departed_shards(ctx, w, i, (n - 1) as nat);
        let name = w.t[i].name;
        let left = departed_shard(
            ctx,
            ctx.settings_of(name),
            name,
            (n - 1) as u32,
            w.t[i].shards[n - 1],
            before.ch,
        );
        WorkV { t: with_copies(before.t, i, n - 1, left.copies), ch: left.ch, ..before }
    }
}

/// The first indices once the nodes that left are accounted for.
pub open spec fn departed(ctx: CtxV, w: WorkV, n: nat) -> WorkV
    decreases n,
{
    if n == 0 {
        w
    } else {
        let before = departed(ctx, w, (n - 1) as nat);
        departed_shards(ctx, before, n - 1, before.t[n - 1].shards.len())
    }
}

// ---- the same, done ------------------------------------------------------------

fn drop_orphans(ctx: &Context, copies: &Vec<ShardRouting>) -> (r: Vec<ShardRouting>)
    ensures
        r.deep_view() == without_orphans(ctx.deep_view(), copies.deep_view()),
{
    let ghost cv = ctx.deep_view();
    let ghost all = copies.deep_view().map_values(|c: CopyV| called_off(cv, c));
    let ghost p = |c: CopyV| !orphan(cv, c);
    let mut r: Vec<ShardRouting> = Vec::new();
    assert(r.deep_view() =~= keep(all.take(0), p));
    for i in 0..copies.len()
        invariant
            cv == ctx.deep_view(),
            all == copies.deep_view().map_values(|c: CopyV| called_off(cv, c)),
            p == (|c: CopyV| !orphan(cv, c)),
            r.deep_view() == keep(all.take(i as int), p),
    {
        proof {
            lemma_take(all, i as int);
        }
        let c = &copies[i];
        assert(all[i as int] == called_off(cv, c.deep_view()));
        let d = if c.state == ShardState::Relocating && is_gone(ctx, &c.relocating_node) {
            stay(c)
        } else {
            c.clone()
        };
        let orphaned = d.state == ShardState::Initializing && d.relocating_node.is_some() && (
        d.node.is_none() || is_gone(ctx, &d.node) || is_gone(ctx, &d.relocating_node));
        if !orphaned {
            push_to(&mut r, d);
        }
    }
    assert(all.take(copies@.len() as int) =~= all);
    r
}

fn lose_copies(
    ctx: &Context,
    is: &IndexSettings,
    name: &str,
    shard: u32,
    copies: &mut Vec<ShardRouting>,
    changes: &mut Changes,
) -> (deposed: Option<String>)
    ensures
        (LeftV {
            copies: final(copies).deep_view(),
            ch: final(changes).deep_view(),
            deposed: deposed.deep_view(),
        }) == losses(
            ctx.deep_view(),
            is.deep_view(),
            name@,
            shard,
            old(copies).deep_view(),
            old(changes).deep_view(),
            old(copies)@.len(),
        ),
        final(copies)@.len() == old(copies)@.len(),
{
    let ghost start = copies.deep_view();
    let ghost first = changes.deep_view();
    let mut deposed: Option<String> = None;
    let n: usize = copies.len();
    for i in 0..n
        invariant
            n == start.len(),
            copies@.len() == start.len(),
            forall|j: int| i <= j < copies@.len() ==> copies.deep_view()[j] == start[j],
            (LeftV {
                copies: copies.deep_view(),
                ch: changes.deep_view(),
                deposed: deposed.deep_view(),
            }) == losses(
                ctx.deep_view(),
                is.deep_view(),
                name@,
                shard,
                start,
                first,
                i as nat,
            ),
    {
        assert(copies.deep_view()[i as int] == start[i as int]);
        let was = copies[i].clone();
        assert(was.deep_view() == start[i as int]);
        if was.state != ShardState::Unassigned && is_gone(ctx, &was.node) {
            if !was.primary {
                if let Some(a) = &was.allocation_id {
                    push_to(&mut changes.retired, (name.to_owned(), shard, a.clone()));
                }
            } else {
                deposed = copy_text(&was.allocation_id);
            }
            let mut why = unassigned_info("NODE_LEFT", ctx.now, "no_attempt", 0);
            why.delayed = !was.primary && is.delayed_timeout > 0;
            put_at(copies, i, take_off(&was, why));
            push_to(
                &mut changes.unassigned,
                (name.to_owned(), shard, was.primary, "NODE_LEFT".to_owned()),
            );
        }
    }
    deposed
}

pub(crate) fn in_sync<'a>(ctx: &Context<'a>, name: &str, shard: u32) -> (r: Option<&'a Vec<String>>)
    ensures
        r.deep_view() == in_sync_of(ctx.deep_view(), name@, shard),
{
    match ctx.index(name) {
        Some(m) => {
            let ghost p = of_shard(shard);
            let f = |e: &(u32, Vec<String>)| -> (r: bool)
                ensures
                    r == p(e.deep_view()),
                { e.0 == shard };
            let i = find_in(&m.in_sync_allocations, f, Ghost(p));
            if i < m.in_sync_allocations.len() {
                assert(m.deep_view().in_sync[i as int]
                    == m.in_sync_allocations@[i as int].deep_view());
                Some(&m.in_sync_allocations[i].1)
            } else {
                None
            }
        },
        None => None,
    }
}

fn find_heir(copies: &Vec<ShardRouting>, set: Option<&Vec<String>>) -> (r: usize)
    ensures
        r == find(copies.deep_view(), eligible(set.deep_view())),
        r <= copies@.len(),
        r < copies@.len() ==> (eligible(set.deep_view()))(copies.deep_view()[r as int]),
{
    let ghost p = eligible(set.deep_view());
    let f = |c: &ShardRouting| -> (r: bool)
        ensures
            r == p(c.deep_view()),
        {
            !c.primary && c.state.is_active() && c.node.is_some() && match &c.allocation_id {
                Some(a) => match set {
                    Some(s) => super::state::has_text(s, a.as_str()),
                    None => true,
                },
                None => false,
            }
        };
    find_in(copies, f, Ghost(p))
}

fn has_active_replica(copies: &Vec<ShardRouting>) -> (r: bool)
    ensures
        r == any(copies.deep_view(), is_active_replica()),
{
    let ghost p = is_active_replica();
    let f = |c: &ShardRouting| -> (r: bool)
        ensures
            r == p(c.deep_view()),
        { !c.primary && c.state.is_active() };
    any_in(copies, f, Ghost(p))
}

fn show_maybe(v: Option<&Vec<String>>) -> (r: String)
    ensures
        r@ == maybe_list(v.deep_view()),
{
    match v {
        Some(l) => "Some(".to_owned().concat(show_list(l).as_str()).concat(")"),
        None => "None".to_owned(),
    }
}

fn succeed(
    ctx: &Context,
    name: &str,
    shard: u32,
    copies: &mut Vec<ShardRouting>,
    changes: &mut Changes,
    deposed: Option<String>,
)
    ensures
        ({
            let after = succeeded(
                ctx.deep_view(),
                name@,
                shard,
                LeftV {
                    copies: old(copies).deep_view(),
                    ch: old(changes).deep_view(),
                    deposed: deposed.deep_view(),
                },
            );
            after.copies == final(copies).deep_view() && after.ch == final(changes).deep_view()
        }),
{
    let set = in_sync(ctx, name, shard);
    let ghost p = is_lost_primary();
    let f = |c: &ShardRouting| -> (r: bool)
        ensures
            r == p(c.deep_view()),
        { c.primary && c.state == ShardState::Unassigned };
    let lost = find_in(copies, f, Ghost(p));
    if lost >= copies.len() {
        return;
    }
    let heir = find_heir(copies, set);
    if heir < copies.len() {
        let ghost before = copies.deep_view();
        assert(before[heir as int] == copies@[heir as int].deep_view());
        let mut risen = stay(&copies[heir]);
        risen.primary = true;
        put_at(copies, heir, risen);
        let mut fallen = copies[lost].clone();
        fallen.primary = false;
        put_at(copies, lost, fallen);
        let a = copies[0].clone();
        let b = copies[heir].clone();
        put_at(copies, 0, b);
        put_at(copies, heir, a);
        assert(copies.deep_view() == taken_over(before, lost as int, heir as int));
        if let Some(a) = deposed {
            push_to(&mut changes.retired, (name.to_owned(), shard, a));
        }
        // the heir is at the front now
        let node = match &copies[0].node {
            Some(n) => n.clone(),
            None => NodeId(String::new()),
        };
        assert(node.deep_view() == before[heir as int].node->0);
        push_to(&mut changes.promoted, (name.to_owned(), shard, node));
    } else if copies[lost].is_because("NODE_LEFT") {
        let ghost before = copies.deep_view();
        assert(before[lost as int] == copies@[lost as int].deep_view());
        let mut marked = copies[lost].clone();
        marked.unassigned = match &copies[lost].unassigned {
            Some(u) => {
                let mut v = u.clone();
                v.allocation_status = "no_valid_shard_copy".to_owned();
                Some(v)
            },
            None => None,
        };
        put_at(copies, lost, marked);
        if has_active_replica(copies) {
            let note = "no copy of [".to_owned().concat(name).concat("][").concat(
                decimal(shard as u64).as_str(),
            ).concat(
                "] may take the primary: the copies here are not in sync (in_sync=",
            ).concat(show_maybe(set).as_str()).concat(")");
            push_to(&mut changes.notes, note);
        }
    }
}

fn depart_shard(
    ctx: &Context,
    is: &IndexSettings,
    name: &str,
    shard: u32,
    copies: &Vec<ShardRouting>,
    changes: &mut Changes,
) -> (r: Vec<ShardRouting>)
    ensures
        ({
            let after = departed_shard(
                ctx.deep_view(),
                is.deep_view(),
                name@,
                shard,
                copies.deep_view(),
                old(changes).deep_view(),
            );
            after.copies == r.deep_view() && after.ch == final(changes).deep_view()
        }),
{
    let mut here = drop_orphans(ctx, copies);
    let deposed = lose_copies(ctx, is, name, shard, &mut here, changes);
    succeed(ctx, name, shard, &mut here, changes, deposed);
    here
}

fn depart_shards(ctx: &Context, w: &mut Work, i: usize)
    requires
        i < old(w).table.indices@.len(),
    ensures
        final(w).deep_view() == departed_shards(
            ctx.deep_view(),
            old(w).deep_view(),
            i as int,
            old(w).deep_view().t[i as int].shards.len(),
        ),
        final(w).table.indices@.len() == old(w).table.indices@.len(),
{
    let ghost start = w.deep_view();
    let name = w.table.indices[i].name.clone();
    let is = ctx.index_settings(name.as_str());
    let n: usize = w.table.indices[i].shards.len();
    for s in 0..n
        invariant
            i < w.table.indices@.len(),
            w.table.indices@.len() == start.t.len(),
            n == start.t[i as int].shards.len(),
            n == w.table.indices@[i as int].shards@.len(),
            name@ == start.t[i as int].name,
            is.deep_view() == ctx.deep_view().settings_of(name@),
            w.deep_view() == departed_shards(ctx.deep_view(), start, i as int, s as nat),
            forall|j: int|
                s <= j < n ==> w.deep_view().t[i as int].shards[j] == start.t[i as int].shards[j],
    {
        assert(w.deep_view().t[i as int].shards[s as int] == start.t[i as int].shards[s as int]);
        let left = depart_shard(
            ctx,
            &is,
            name.as_str(),
            s as u32,
            &w.table.indices[i].shards[s],
            &mut w.changes,
        );
        set_copies(&mut w.table, i, s, left);
        assert(w.deep_view() == departed_shards(ctx.deep_view(), start, i as int, (s + 1) as nat));
        assert(w.table.deep_view()[i as int].shards.len() == n);
    }
}

/// Accounts for the nodes that left.
pub fn depart(ctx: &Context, w: &mut Work)
    ensures
        final(w).deep_view() == departed(
            ctx.deep_view(),
            old(w).deep_view(),
            old(w).deep_view().t.len(),
        ),
        final(w).table.indices@.len() == old(w).table.indices@.len(),
{
    let ghost start = w.deep_view();
    let n: usize = w.table.indices.len();
    for i in 0..n
        invariant
            n == w.table.indices@.len(),
            n == start.t.len(),
            w.deep_view() == departed(ctx.deep_view(), start, i as nat),
    {
        depart_shards(ctx, w, i);
    }
}

// ---- what it comes to ----------------------------------------------------------

/// A copy takes over as the primary only if it was an active replica of the
/// shard and, where the in-sync set is known, in it: one that missed an
/// acknowledged write is never promoted.
pub proof fn law_only_an_in_sync_copy_takes_over(
    ctx: CtxV,
    name: Seq<char>,
    shard: u32,
    left: LeftV,
)
    ensures
        succeeded(ctx, name, shard, left).ch.promoted.len() <= left.ch.promoted.len() + 1,
        succeeded(ctx, name, shard, left).ch.promoted.len() > left.ch.promoted.len() ==> {
            let r = find(left.copies, eligible(in_sync_of(ctx, name, shard)));
            let heir = left.copies[r];
            &&& 0 <= r < left.copies.len()
            &&& !heir.primary && heir.state.active()
            &&& in_sync_of(ctx, name, shard) matches Some(set) ==> set.contains(
                heir.allocation_id->0,
            )
            &&& succeeded(ctx, name, shard, left).copies[0] == (CopyV {
                primary: true,
                ..staying(heir)
            })
        },
{
    crate::list::lemma_found(left.copies, eligible(in_sync_of(ctx, name, shard)));
    crate::list::lemma_found(left.copies, is_lost_primary());
}

/// A primary that is deposed by an in-sync replica is taken out of the
/// in-sync set, so that it cannot be handed the primary back when it returns
/// without the writes taken in between.
pub proof fn law_a_deposed_primary_is_retired(
    ctx: CtxV,
    name: Seq<char>,
    shard: u32,
    left: LeftV,
)
    requires
        left.deposed is Some,
        succeeded(ctx, name, shard, left).ch.promoted.len() > left.ch.promoted.len(),
    ensures
        succeeded(ctx, name, shard, left).ch.retired == left.ch.retired.push(
            (name, shard, left.deposed->0),
        ),
{
}

} // verus!
