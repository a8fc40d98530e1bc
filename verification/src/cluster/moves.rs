//! Copies that are moved: those that may not stay where they are, and those
//! a lighter node takes from a heavy one.

use vstd::prelude::*;

use super::balance::{above, is_above, lemma_weight_room, one, ranked, ranking, unit, weight_of, Ranked, RankedV};
use super::deciders::{
    can_allocate, can_rebalance, can_remain, may_allocate, may_rebalance, may_remain, overall,
    worst, Decision, Verdict, VerdictV,
};
use super::settings::{Context, CtxV, ROOM};
use super::state::{
    copy_copies, on_node, same_text, shards_of, CopyV, IndexV, NodeId, NodeV, RoutingTable,
    ShardRouting, ShardState,
};
use super::work::{move_copy, moved, set_copies, with_copies, Work, WorkV};
use crate::list::{any, any_in, find, find_in, keep, keep_in, lemma_found, push_to};
use crate::text::{dec, decimal, same};

verus! {

/// Whether a copy has an allocation id.
pub open spec fn has_id(id: Option<Seq<char>>) -> spec_fn(CopyV) -> bool {
    |c: CopyV| c.allocation_id == id
}

/// A copy sent from a node to another: the first of its shard with its id
/// leaves, and a new one arrives. Nothing when the shard has no such copy.
pub open spec fn sent(
    w: WorkV,
    i: int,
    copy: CopyV,
    from: Seq<char>,
    to: Seq<char>,
) -> WorkV {
    let name = w.t[i].name;
    if copy.shard >= w.t[i].shards.len() {
        w
    } else {
        let copies = w.t[i].shards[copy.shard as int];
        let pos = find(copies, has_id(copy.allocation_id));
        if pos >= copies.len() {
            w
        } else {
            WorkV {
                t: with_copies(
                    w.t,
                    i,
                    copy.shard as int,
                    moved(
                        copies,
                        pos,
                        name,
                        copy.shard,
                        copy.primary,
                        from,
                        to,
                        w.ids.id(),
                    ),
                ),
                ids: w.ids.taken(),
                ch: w.ch.relocate(name, copy.shard, copy.primary, from, to),
            }
        }
    }
}

fn send(w: &mut Work, i: usize, copy: &ShardRouting, from: &NodeId, to: &NodeId)
    requires
        i < old(w).table.indices@.len(),
    ensures
        final(w).deep_view() == sent(
            old(w).deep_view(),
            i as int,
            copy.deep_view(),
            from.deep_view(),
            to.deep_view(),
        ),
        final(w).table.indices@.len() == old(w).table.indices@.len(),
{
    assert(w.table.deep_view()[i as int] == w.table.indices@[i as int].deep_view());
    let s: usize = copy.shard as usize;
    if s >= w.table.indices[i].shards.len() {
        return;
    }
    assert(w.table.deep_view()[i as int].shards[s as int]
        == w.table.indices@[i as int].shards@[s as int].deep_view());
    let mut copies = copy_copies(&w.table.indices[i].shards[s]);
    let ghost p = has_id(copy.deep_view().allocation_id);
    let f = |c: &ShardRouting| -> (r: bool)
        ensures
            r == p(c.deep_view()),
        { same_text(&c.allocation_id, &copy.allocation_id) };
    let pos = find_in(&copies, f, Ghost(p));
    if pos >= copies.len() {
        return;
    }
    let name = w.table.indices[i].name.clone();
    let id = w.ids.take();
    move_copy(&mut copies, pos, name.as_str(), copy.shard, copy.primary, from, to, id);
    set_copies(&mut w.table, i, s, copies);
    push_to(
        &mut w.changes.relocating,
        (name, copy.shard, copy.primary, from.clone(), to.clone()),
    );
}

// ---- what may not stay ---------------------------------------------------------

/// Whether a verdict is one that moves a copy: a node without the data role,
/// or one a filter excludes. The others never moved one.
pub open spec fn moves() -> spec_fn(VerdictV) -> bool {
    |v: VerdictV|
        v.decision == Decision::No && (v.decider == "data_role"@ || v.decider == "filter"@)
}

/// Whether a copy is one of the first shard that may not stay where it is.
pub open spec fn is_stuck(ctx: CtxV, t: Seq<IndexV>) -> spec_fn(CopyV) -> bool {
    |c: CopyV|
        c.shard == 0 && c.state == ShardState::Started && c.node is Some && match ctx.node(
            c.node->0,
        ) {
            Some(node) => any(may_remain(ctx, t, c, node), moves()),
            None => false,
        }
}

/// Whether a node takes a copy that leaves another.
pub open spec fn takes(
    ctx: CtxV,
    t: Seq<IndexV>,
    c: CopyV,
    from: Seq<char>,
) -> spec_fn(RankedV) -> bool {
    |r: RankedV| r.node.id != from && worst(may_allocate(ctx, t, c, r.node)) == Decision::Yes
}

/// A copy that may not stay goes to the lightest node that takes it.
pub open spec fn freed(ctx: CtxV, w: WorkV, i: int, copy: CopyV) -> WorkV {
    let name = w.t[i].name;
    match copy.node {
        None => w,
        Some(from) => {
            let r = ranking(ctx, w.t, name);
            let k = find(r, takes(ctx, w.t, copy, from));
            if k < r.len() {
                sent(w, i, copy, from, r[k].node.id)
            } else {
                WorkV {
                    ch: w.ch.note(
                        "["@ + name + "]["@ + dec(copy.shard as nat) + "] may not remain on "@
                            + from + " and no node will take it"@,
                    ),
                    ..w
                }
            }
        },
    }
}

pub open spec fn freed_all(ctx: CtxV, w: WorkV, i: int, stuck: Seq<CopyV>, n: nat) -> WorkV
    decreases n,
{
    if n == 0 {
        w
    } else {
        freed(ctx, freed_all(ctx, w, i, stuck, (n - 1) as nat), i, stuck[n - 1])
    }
}

/// The copies of an index that may not stay where they are.
pub open spec fn stuck_of(ctx: CtxV, t: Seq<IndexV>, i: int) -> Seq<CopyV> {
    keep(shards_of(t, t[i].name), is_stuck(ctx, t))
}

/// The first indices with what may not stay on its way.
pub open spec fn unstuck(ctx: CtxV, w: WorkV, n: nat) -> WorkV
    decreases n,
{
    if n == 0 {
        w
    } else {
        let before = unstuck(ctx, w, (n - 1) as nat);
        let stuck = stuck_of(ctx, before.t, n - 1);
        freed_all(ctx, before, n - 1, stuck, stuck.len())
    }
}

fn must_move(ctx: &Context, table: &RoutingTable, c: &ShardRouting) -> (r: bool)
    ensures
        r == (is_stuck(ctx.deep_view(), table.deep_view()))(c.deep_view()),
{
    if c.shard != 0 || c.state != ShardState::Started {
        return false;
    }
    match &c.node {
        Some(id) => match ctx.node(id) {
            Some(node) => {
                let vs = can_remain(ctx, table, c, node);
                let ghost p = moves();
                let f = |v: &Verdict| -> (r: bool)
                    ensures
                        r == p(v.deep_view()),
                    {
                        v.decision == Decision::No && (same(v.decider, "data_role") || same(
                            v.decider,
                            "filter",
                        ))
                    };
                any_in(&vs, f, Ghost(p))
            },
            None => false,
        },
        None => false,
    }
}

fn list_stuck(ctx: &Context, table: &RoutingTable, i: usize) -> (r: Vec<ShardRouting>)
    requires
        i < table.indices@.len(),
    ensures
        r.deep_view() == stuck_of(ctx.deep_view(), table.deep_view(), i as int),
{
    assert(table.deep_view()[i as int] == table.indices@[i as int].deep_view());
    let here = table.shards_of(table.indices[i].name.as_str());
    let ghost p = is_stuck(ctx.deep_view(), table.deep_view());
    let f = |c: &ShardRouting| -> (r: bool)
        ensures
            r == p(c.deep_view()),
        { must_move(ctx, table, c) };
    let stuck = keep_in(&here, f, Ghost(p));
    copy_refs(&stuck)
}

fn copy_refs(v: &Vec<&ShardRouting>) -> (r: Vec<ShardRouting>)
    ensures
        r.deep_view() == v.deep_view(),
{
    let mut r: Vec<ShardRouting> = Vec::new();
    for i in 0..v.len()
        invariant
            r@.len() == i,
            forall|j: int| 0 <= j < i ==> r@[j].deep_view() == v@[j].deep_view(),
    {
        r.push(v[i].clone());
    }
    assert(r.deep_view() =~= v.deep_view());
    r
}

fn free(ctx: &Context, w: &mut Work, i: usize, copy: &ShardRouting)
    requires
        ctx.deep_view().nodes.len() <= ROOM,
        old(w).deep_view().t.len() <= ROOM,
        i < old(w).table.indices@.len(),
    ensures
        final(w).deep_view() == freed(
            ctx.deep_view(),
            old(w).deep_view(),
            i as int,
            copy.deep_view(),
        ),
        final(w).table.indices@.len() == old(w).table.indices@.len(),
{
    assert(w.table.deep_view()[i as int] == w.table.indices@[i as int].deep_view());
    let from = match &copy.node {
        Some(n) => n.clone(),
        None => {
            return;
        },
    };
    let name = w.table.indices[i].name.clone();
    let target = {
        let r = ranked(ctx, &w.table, name.as_str());
        let ghost p = takes(
            ctx.deep_view(),
            w.table.deep_view(),
            copy.deep_view(),
            from.deep_view(),
        );
        let t = &w.table;
        let f = |x: &Ranked| -> (b: bool)
            ensures
                b == p(x.deep_view()),
            {
                !x.node.id.is(&from) && overall(&can_allocate(ctx, t, copy, x.node))
                    == Decision::Yes
            };
        let k = find_in(&r, f, Ghost(p));
        if k < r.len() {
            assert(r.deep_view()[k as int] == r@[k as int].deep_view());
            Some(r[k].node.id.clone())
        } else {
            None
        }
    };
    match target {
        Some(to) => {
            send(w, i, copy, &from, &to);
        },
        None => {
            let note = "[".to_owned().concat(name.as_str()).concat("][").concat(
                decimal(copy.shard as u64).as_str(),
            ).concat("] may not remain on ").concat(from.as_str()).concat(
                " and no node will take it",
            );
            push_to(&mut w.changes.notes, note);
        },
    }
}

/// Sends what may not stay where it is to the lightest node the deciders
/// allow. A copy is a copy of the whole index, so the first shard is what
/// moves and the rest follow it.
pub fn unstick(ctx: &Context, w: &mut Work)
    requires
        ctx.deep_view().nodes.len() <= ROOM,
        old(w).deep_view().t.len() <= ROOM,
    ensures
        final(w).deep_view() == unstuck(
            ctx.deep_view(),
            old(w).deep_view(),
            old(w).deep_view().t.len(),
        ),
        final(w).table.indices@.len() == old(w).table.indices@.len(),
{
    let ghost start = w.deep_view();
    let n: usize = w.table.indices.len();
    for i in 0..n
        invariant
            ctx.deep_view().nodes.len() <= ROOM,
            n <= ROOM,
            w.table.indices@.len() == n,
            n == start.t.len(),
            w.deep_view() == unstuck(ctx.deep_view(), start, i as nat),
    {
        let stuck = list_stuck(ctx, &w.table, i);
        let ghost before = w.deep_view();
        for k in 0..stuck.len()
            invariant
                ctx.deep_view().nodes.len() <= ROOM,
                n <= ROOM,
                i < n,
                w.table.indices@.len() == n,
                w.deep_view() == freed_all(
                    ctx.deep_view(),
                    before,
                    i as int,
                    stuck.deep_view(),
                    k as nat,
                ),
        {
            assert(stuck.deep_view()[k as int] == stuck@[k as int].deep_view());
            free(ctx, w, i, &stuck[k]);
        }
    }
}

// ---- what a lighter node takes -------------------------------------------------

/// Whether a copy is a started one of an index.
pub open spec fn started_of(name: Seq<char>) -> spec_fn(CopyV) -> bool {
    |c: CopyV| c.index == name && c.state == ShardState::Started
}

/// Whether a copy may go to a light node.
pub open spec fn may_go(ctx: CtxV, t: Seq<IndexV>, light: NodeV) -> spec_fn(CopyV) -> bool {
    |c: CopyV|
        worst(may_rebalance(ctx, t, c)) == Decision::Yes && worst(may_allocate(ctx, t, c, light))
            == Decision::Yes
}

/// Whether a move from a node to another makes things better and not merely
/// different: one less on the heavy one and one more on the light one leaves
/// them closer together.
pub open spec fn better(ctx: CtxV, heavy: int, light: int) -> bool {
    let after = (heavy - one(ctx)) - (light + one(ctx));
    (if after < 0 {
        -after
    } else {
        after
    }) < heavy - light
}

/// The copy to move and the node it is on, looking from one place in the
/// ranking down: the heaviest nodes first, as long as they are above the
/// lightest by more than the threshold.
pub open spec fn pick(
    ctx: CtxV,
    t: Seq<IndexV>,
    name: Seq<char>,
    r: Seq<RankedV>,
    h: nat,
) -> Option<(CopyV, NodeV)>
    decreases h,
{
    if h == 0 || h > r.len() {
        None
    } else {
        let heavy = r[h - 1];
        let light = r[0];
        if heavy.node.id == light.node.id || !above(ctx, heavy.weight - light.weight) {
            None
        } else {
            let here = keep(on_node(t, heavy.node.id), started_of(name));
            let k = find(here, may_go(ctx, t, light.node));
            if better(ctx, heavy.weight, light.weight) && k < here.len() {
                Some((here[k], heavy.node))
            } else {
                pick(ctx, t, name, r, (h - 1) as nat)
            }
        }
    }
}

/// An index with a copy on its way to the lightest node, if one should be.
pub open spec fn lightened(ctx: CtxV, w: WorkV, i: int) -> WorkV {
    let name = w.t[i].name;
    let r = ranking(ctx, w.t, name);
    if r.len() < 2 {
        w
    } else {
        match pick(ctx, w.t, name, r, r.len()) {
            Some((copy, heavy)) => sent(w, i, copy, heavy.id, r[0].node.id),
            None => w,
        }
    }
}

/// The first indices, each with a copy on its way to the lightest node, if
/// one should be.
pub open spec fn rebalanced(ctx: CtxV, w: WorkV, n: nat) -> WorkV
    decreases n,
{
    if n == 0 {
        w
    } else {
        lightened(ctx, rebalanced(ctx, w, (n - 1) as nat), n - 1)
    }
}

fn is_better(ctx: &Context, heavy: i128, light: i128) -> (r: bool)
    requires
        ctx.deep_view().nodes.len() <= ROOM,
        -0x40_0000_0000_0000_0000_0000_0000 <= heavy <= 0x40_0000_0000_0000_0000_0000_0000,
        -0x40_0000_0000_0000_0000_0000_0000 <= light <= 0x40_0000_0000_0000_0000_0000_0000,
    ensures
        r == better(ctx.deep_view(), heavy as int, light as int),
{
    proof {
        lemma_weight_room(ctx.deep_view(), Seq::empty(), Seq::empty(), Seq::empty());
    }
    let whole: i128 = unit(ctx);
    let after: i128 = (heavy - whole) - (light + whole);
    let apart: i128 = if after < 0 {
        -after
    } else {
        after
    };
    apart < heavy - light
}

fn pick_copy(ctx: &Context, table: &RoutingTable, name: &str, r: &Vec<Ranked>) -> (out: Option<
    (ShardRouting, NodeId)>)
    requires
        ctx.deep_view().nodes.len() <= ROOM,
        table.deep_view().len() <= ROOM,
        r.deep_view() == ranking(ctx.deep_view(), table.deep_view(), name@),
        r@.len() >= 2,
    ensures
        match pick(
            ctx.deep_view(),
            table.deep_view(),
            name@,
            r.deep_view(),
            r@.len(),
        ) {
            Some((c, n)) => out matches Some((copy, node)) && copy.deep_view() == c
                && node.deep_view() == n.id,
            None => out is None,
        },
{
    let ghost cv = ctx.deep_view();
    let ghost tv = table.deep_view();
    let ghost rv = r.deep_view();
    let ghost whole = pick(cv, tv, name@, rv, r@.len());
    proof {
        super::balance::law_the_ranking_is_lightest_first(cv, tv, name@);
        assert(rv[0] == r@[0].deep_view());
    }
    let light = &r[0];
    let mut h: usize = r.len();
    while h > 0
        invariant
            ctx.deep_view().nodes.len() <= ROOM,
            table.deep_view().len() <= ROOM,
            h <= r@.len(),
            r@.len() >= 2,
            cv == ctx.deep_view(),
            tv == table.deep_view(),
            rv == r.deep_view(),
            *light == r@[0],
            rv[0] == light.deep_view(),
            forall|i: int|
                0 <= i < rv.len() ==> (#[trigger] rv[i]).weight == weight_of(
                    cv,
                    tv,
                    name@,
                    rv[i].node.id,
                ),
            whole == pick(cv, tv, name@, rv, r@.len()),
            whole == pick(cv, tv, name@, rv, h as nat),
        decreases h,
    {
        let heavy = &r[h - 1];
        assert(rv[h - 1] == heavy.deep_view());
        proof {
            lemma_weight_room(cv, tv, name@, rv[h - 1].node.id);
            lemma_weight_room(cv, tv, name@, rv[0].node.id);
        }
        if heavy.node.id.is(&light.node.id) || !is_above(ctx, heavy.weight - light.weight) {
            return None;
        }
        if is_better(ctx, heavy.weight, light.weight) {
            let on_heavy = table.on_node(&heavy.node.id);
            let ghost p = started_of(name@);
            let f = |c: &ShardRouting| -> (b: bool)
                ensures
                    b == p(c.deep_view()),
                { same(c.index.as_str(), name) && c.state == ShardState::Started };
            let here = keep_in(&on_heavy, f, Ghost(p));
            let ghost q = may_go(cv, tv, light.node.deep_view());
            let g = |c: &&ShardRouting| -> (b: bool)
                ensures
                    b == q(c.deep_view()),
                {
                    overall(&can_rebalance(ctx, table, c)) == Decision::Yes && overall(
                        &can_allocate(ctx, table, c, light.node),
                    ) == Decision::Yes
                };
            let k = find_in(&here, g, Ghost(q));
            if k < here.len() {
                assert(here.deep_view()[k as int] == here@[k as int].deep_view());
                return Some((here[k].clone(), heavy.node.id.clone()));
            }
        }
        h -= 1;
    }
    None
}

fn lighten(ctx: &Context, w: &mut Work, i: usize)
    requires
        ctx.deep_view().nodes.len() <= ROOM,
        old(w).deep_view().t.len() <= ROOM,
        i < old(w).table.indices@.len(),
    ensures
        final(w).deep_view() == lightened(ctx.deep_view(), old(w).deep_view(), i as int),
        final(w).table.indices@.len() == old(w).table.indices@.len(),
{
    assert(w.table.deep_view()[i as int] == w.table.indices@[i as int].deep_view());
    let name = w.table.indices[i].name.clone();
    let r = ranked(ctx, &w.table, name.as_str());
    if r.len() < 2 {
        return;
    }
    let picked = pick_copy(ctx, &w.table, name.as_str(), &r);
    assert(r.deep_view()[0] == r@[0].deep_view());
    if let Some((copy, heavy)) = picked {
        let light = r[0].node.id.clone();
        send(w, i, &copy, &heavy, &light);
    }
}

/// Sends a copy of every index from a heavy node to the lightest, heaviest
/// source first, where the difference is above the threshold; one at a time.
pub fn rebalance(ctx: &Context, w: &mut Work)
    requires
        ctx.deep_view().nodes.len() <= ROOM,
        old(w).deep_view().t.len() <= ROOM,
    ensures
        final(w).deep_view() == rebalanced(
            ctx.deep_view(),
            old(w).deep_view(),
            old(w).deep_view().t.len(),
        ),
        final(w).table.indices@.len() == old(w).table.indices@.len(),
{
    let ghost start = w.deep_view();
    let n: usize = w.table.indices.len();
    for i in 0..n
        invariant
            ctx.deep_view().nodes.len() <= ROOM,
            n <= ROOM,
            w.table.indices@.len() == n,
            n == start.t.len(),
            w.deep_view() == rebalanced(ctx.deep_view(), start, i as nat),
    {
        lighten(ctx, w, i);
    }
}

// ---- what it comes to ----------------------------------------------------------

proof fn lemma_pick(ctx: CtxV, t: Seq<IndexV>, name: Seq<char>, r: Seq<RankedV>, h: nat)
    ensures
        pick(ctx, t, name, r, h) matches Some((c, heavy)) ==> {
            &&& c.state == ShardState::Started
            &&& c.index == name
            &&& heavy.id != r[0].node.id
            &&& worst(may_rebalance(ctx, t, c)) == Decision::Yes
            &&& worst(may_allocate(ctx, t, c, r[0].node)) == Decision::Yes
            &&& exists|k: int|
                #![trigger r[k]]
                0 <= k < r.len() && r[k].node == heavy && above(ctx, r[k].weight - r[0].weight)
                    && better(ctx, r[k].weight, r[0].weight)
        },
    decreases h,
{
    if 0 < h <= r.len() {
        let heavy = r[h - 1];
        let light = r[0];
        if heavy.node.id != light.node.id && above(ctx, heavy.weight - light.weight) {
            let here = keep(on_node(t, heavy.node.id), started_of(name));
            lemma_found(here, may_go(ctx, t, light.node));
            lemma_all_kept(on_node(t, heavy.node.id), started_of(name));
            let k = find(here, may_go(ctx, t, light.node));
            if better(ctx, heavy.weight, light.weight) && k < here.len() {
                assert((started_of(name))(here[k]));
                assert(r[h - 1].node == heavy.node);
            } else {
                lemma_pick(ctx, t, name, r, (h - 1) as nat);
            }
        }
    }
}

proof fn lemma_all_kept(s: Seq<CopyV>, p: spec_fn(CopyV) -> bool)
    ensures
        forall|i: int| 0 <= i < keep(s, p).len() ==> p(#[trigger] keep(s, p)[i]),
    decreases s.len(),
{
    if s.len() > 0 {
        let before = keep(s.drop_last(), p);
        lemma_all_kept(s.drop_last(), p);
        assert forall|i: int| 0 <= i < keep(s, p).len() implies p(#[trigger] keep(s, p)[i]) by {
            if i < before.len() {
                assert(keep(s, p)[i] == before[i]);
            }
        }
    }
}

/// The balancer moves a copy only if every decider allows the move, the node
/// it leaves is above the one it goes to by more than the threshold, and the
/// two are closer together afterwards.
pub proof fn law_a_copy_is_moved_only_for_the_better(
    ctx: CtxV,
    t: Seq<IndexV>,
    name: Seq<char>,
)
    ensures
        ({
            let r = ranking(ctx, t, name);
            pick(ctx, t, name, r, r.len()) matches Some((c, heavy)) ==> {
                &&& c.state == ShardState::Started
                &&& c.index == name
                &&& heavy.id != r[0].node.id
                &&& worst(may_rebalance(ctx, t, c)) == Decision::Yes
                &&& worst(may_allocate(ctx, t, c, r[0].node)) == Decision::Yes
                &&& exists|k: int|
                    #![trigger r[k]]
                    0 <= k < r.len() && r[k].node == heavy && above(
                        ctx,
                        r[k].weight - r[0].weight,
                    ) && better(ctx, r[k].weight, r[0].weight)
            }
        }),
{
    let r = ranking(ctx, t, name);
    lemma_pick(ctx, t, name, r, r.len());
}

} // verus!
