//! Every copy is on a node of the cluster, and only a copy that missed nothing
//! takes over.

use vstd::prelude::*;

use super::apart::{
    before_following, homes_free, is_sound, law_a_sound_table_stays_sound, lemma_before_following,
    lemma_followed_all_grows, lemma_freed_all_grows, lemma_freed_all_sound, lemma_freed_grows,
    lemma_picked, lemma_rebalanced_sound, lemma_stuck_stand, lemma_unstuck_sound, names_differ,
    shard_sound, stands, table_sound,
};
use super::balance::{heavier, ranking, ranking_of};
use super::departures::{
    called_off, departed, departed_shard, departed_shards, eligible, gone, in_sync_of,
    is_lost_primary, losses, lost, not_orphan, succeeded, without_orphans,
};
use super::follow::{
    alike, followed, followed_all, followed_shards, law_every_shard_sits_where_the_first_one_sits,
    together,
};
use super::moves::{freed, freed_all, has_id, lightened, pick, rebalanced, sent, stuck_of, takes, unstuck};
use super::placement::{best_from, has_place, keeps, pending, placed, placed_all, placed_kind};
use super::reroute::{allocated, begun, rerouted};
use super::settings::{with_node_id, CtxV, SettingsV};
use super::state::{CopyV, IdsV, IndexV, NodeV, ShardState};
use super::work::{moved, with_copies, ChangesV, WorkV};
use crate::list::{find, lemma_found, lemma_keep};

verus! {

// ---- nodes of the cluster ------------------------------------------------------

/// Whether no copy of a shard is on a node that left.
spec fn all_here(ctx: CtxV, copies: Seq<CopyV>) -> bool {
    forall|k: int| 0 <= k < copies.len() ==> !lost(ctx, #[trigger] copies[k])
}

/// Whether no copy of the first shards of an index is on a node that left.
spec fn shards_here(ctx: CtxV, e: IndexV, n: int) -> bool {
    forall|s: int| 0 <= s < n && s < e.shards.len() ==> all_here(ctx, #[trigger] e.shards[s])
}

/// Whether no copy of the first indices is on a node that left.
spec fn table_here(ctx: CtxV, t: Seq<IndexV>, n: int) -> bool {
    forall|i: int|
        0 <= i < n && i < t.len() ==> shards_here(ctx, #[trigger] t[i], t[i].shards.len() as int)
}

/// Whether nobody was promoted or retired between two states of the work.
spec fn none_promoted(a: WorkV, b: WorkV) -> bool {
    b.ch.promoted == a.ch.promoted && b.ch.retired == a.ch.retired
}

proof fn lemma_node(ctx: CtxV, n: NodeV)
    requires
        ctx.nodes.contains(n),
    ensures
        ctx.node(n.id) is Some,
{
    let p = with_node_id(n.id);
    lemma_found(ctx.nodes, p);
    let i = ctx.nodes.index_of(n);
    assert(p(ctx.nodes[i]));
}

proof fn lemma_data_node(ctx: CtxV, i: int)
    requires
        0 <= i < ctx.data_nodes().len(),
    ensures
        ctx.node(ctx.data_nodes()[i].id) is Some,
{
    lemma_keep(ctx.nodes, |n: NodeV| n.data());
    assert(ctx.nodes.contains(ctx.data_nodes()[i]));
    lemma_node(ctx, ctx.data_nodes()[i]);
}

proof fn lemma_ranking_of(ctx: CtxV, t: Seq<IndexV>, index: Seq<char>, n: nat, i: int)
    requires
        n <= ctx.data_nodes().len(),
        0 <= i < ranking_of(ctx, t, index, ctx.data_nodes(), n).len(),
    ensures
        ctx.node(ranking_of(ctx, t, index, ctx.data_nodes(), n)[i].node.id) is Some,
    decreases n,
{
    let nodes = ctx.data_nodes();
    if n > 0 {
        let before = ranking_of(ctx, t, index, nodes, (n - 1) as nat);
        let w = super::balance::weight_of(ctx, t, index, nodes[n - 1].id);
        let at = find(before, heavier(w));
        lemma_found(before, heavier(w));
        let r = ranking_of(ctx, t, index, nodes, n);
        lemma_data_node(ctx, n - 1);
        if i < at {
            assert(r[i] == before[i]);
            lemma_ranking_of(ctx, t, index, (n - 1) as nat, i);
        } else if i > at {
            assert(r[i] == before[i - 1]);
            lemma_ranking_of(ctx, t, index, (n - 1) as nat, i - 1);
        }
    }
}

proof fn lemma_best_is_here(
    ctx: CtxV,
    t: Seq<IndexV>,
    c: CopyV,
    index: Seq<char>,
    i: nat,
)
    ensures
        best_from(ctx, t, c, ranking(ctx, t, index), i).0 matches Some(node) ==> ctx.node(node.id)
            is Some,
    decreases ranking(ctx, t, index).len() - i,
{
    let r = ranking(ctx, t, index);
    if i < r.len() {
        lemma_ranking_of(ctx, t, index, ctx.data_nodes().len(), i as int);
        lemma_best_is_here(ctx, t, c, index, i + 1);
    }
}

proof fn lemma_put_here(ctx: CtxV, t: Seq<IndexV>, i: int, s: int, copies: Seq<CopyV>)
    requires
        0 <= i < t.len(),
        0 <= s < t[i].shards.len(),
        table_here(ctx, t, t.len() as int),
        all_here(ctx, copies),
    ensures
        table_here(ctx, with_copies(t, i, s, copies), t.len() as int),
        with_copies(t, i, s, copies).len() == t.len(),
{
    let u = with_copies(t, i, s, copies);
    assert forall|a: int| 0 <= a < u.len() implies shards_here(
        ctx,
        #[trigger] u[a],
        u[a].shards.len() as int,
    ) by {
        assert(shards_here(ctx, t[a], t[a].shards.len() as int));
        assert forall|b: int| 0 <= b < u[a].shards.len() implies all_here(
            ctx,
            #[trigger] u[a].shards[b],
        ) by {
            if a == i && b == s {
            } else {
                assert(u[a].shards[b] == t[a].shards[b]);
            }
        }
    }
}

// ---- nodes that left -----------------------------------------------------------

/// Whether a copy is the primary of its shard that was on a node that left: the
/// last of those, where there are several.
pub open spec fn lost_primary_at(ctx: CtxV, copies: Seq<CopyV>, d: int) -> bool {
    &&& 0 <= d < copies.len()
    &&& copies[d].primary && lost(ctx, copies[d])
    &&& forall|e: int|
        d < e < copies.len() ==> !((#[trigger] copies[e]).primary && lost(ctx, copies[e]))
}

proof fn lemma_losses(
    ctx: CtxV,
    is: SettingsV,
    name: Seq<char>,
    shard: u32,
    copies: Seq<CopyV>,
    ch: ChangesV,
    n: nat,
)
    requires
        n <= copies.len(),
    ensures
        ({
            let left = losses(ctx, is, name, shard, copies, ch, n);
            &&& left.copies.len() == copies.len()
            &&& forall|k: int|
                0 <= k < copies.len() ==> if k < n && lost(ctx, copies[k]) {
                    (#[trigger] left.copies[k]).state == ShardState::Unassigned
                } else {
                    left.copies[k] == copies[k]
                }
            &&& left.ch.promoted == ch.promoted
            &&& forall|x: (Seq<char>, u32, Seq<char>)|
                ch.retired.contains(x) ==> #[trigger] left.ch.retired.contains(x)
        }),
    decreases n,
{
    if n > 0 {
        lemma_losses(ctx, is, name, shard, copies, ch, (n - 1) as nat);
        let before = losses(ctx, is, name, shard, copies, ch, (n - 1) as nat);
        let left = losses(ctx, is, name, shard, copies, ch, n);
        let c = copies[n - 1];
        if lost(ctx, c) && !c.primary && c.allocation_id is Some {
            lemma_push(before.ch.retired, (name, shard, c.allocation_id->0));
        }
        assert forall|x: (Seq<char>, u32, Seq<char>)| ch.retired.contains(x) implies
            #[trigger] left.ch.retired.contains(x) by {
            assert(before.ch.retired.contains(x));
        }
    }
}

proof fn lemma_push<T>(s: Seq<T>, x: T)
    ensures
        s.push(x).contains(x),
        forall|y: T| s.contains(y) ==> #[trigger] s.push(x).contains(y),
{
    assert(s.push(x)[s.len() as int] == x);
    assert forall|y: T| s.contains(y) implies #[trigger] s.push(x).contains(y) by {
        let i = s.index_of(y);
        assert(s.push(x)[i] == y);
    }
}

proof fn lemma_deposed(
    ctx: CtxV,
    is: SettingsV,
    name: Seq<char>,
    shard: u32,
    copies: Seq<CopyV>,
    ch: ChangesV,
    n: nat,
    d: int,
)
    requires
        d < n <= copies.len(),
        lost_primary_at(ctx, copies, d),
    ensures
        losses(ctx, is, name, shard, copies, ch, n).deposed == copies[d].allocation_id,
    decreases n,
{
    if d < n - 1 {
        lemma_deposed(ctx, is, name, shard, copies, ch, (n - 1) as nat, d);
        assert(!(copies[n - 1].primary && lost(ctx, copies[n - 1])));
    }
}

/// Whether a promotion is of a copy that is on a node of the cluster, was an
/// active replica of the shard and, where it is known which copies missed
/// nothing, is one of those, and whether the primary it took over from is
/// counted among those no more.
pub open spec fn rightful_at(
    ctx: CtxV,
    t: Seq<IndexV>,
    retired: Seq<(Seq<char>, u32, Seq<char>)>,
    p: (Seq<char>, u32, Seq<char>),
    i: int,
    s: int,
    k: int,
) -> bool {
    &&& 0 <= i < t.len()
    &&& 0 <= s < t[i].shards.len()
    &&& 0 <= k < t[i].shards[s].len()
    &&& t[i].name == p.0
    &&& s as u32 == p.1
    &&& ({
        let heir = t[i].shards[s][k];
        &&& !heir.primary
        &&& heir.state.active()
        &&& heir.node == Some(p.2)
        &&& ctx.node(p.2) is Some
        &&& heir.allocation_id is Some
        &&& in_sync_of(ctx, p.0, p.1) matches Some(set) ==> set.contains(heir.allocation_id->0)
    })
    &&& forall|d: int|
        #[trigger] lost_primary_at(ctx, without_orphans(ctx, t[i].shards[s]), d) ==> {
            let id = without_orphans(ctx, t[i].shards[s])[d].allocation_id;
            id is Some ==> retired.contains((p.0, p.1, id->0))
        }
}

/// Whether a promotion is of a copy of a table that may take over.
pub open spec fn rightful(
    ctx: CtxV,
    t: Seq<IndexV>,
    retired: Seq<(Seq<char>, u32, Seq<char>)>,
    p: (Seq<char>, u32, Seq<char>),
) -> bool {
    exists|i: int, s: int, k: int| #[trigger] rightful_at(ctx, t, retired, p, i, s, k)
}

/// Whether every promotion is of a copy of a table that may take over.
spec fn all_rightful(ctx: CtxV, t: Seq<IndexV>, ch: ChangesV) -> bool {
    forall|j: int|
        0 <= j < ch.promoted.len() ==> rightful(ctx, t, ch.retired, #[trigger] ch.promoted[j])
}

proof fn lemma_still_rightful(ctx: CtxV, t: Seq<IndexV>, a: ChangesV, b: ChangesV)
    requires
        all_rightful(ctx, t, a),
        b.promoted == a.promoted,
        forall|x: (Seq<char>, u32, Seq<char>)|
            a.retired.contains(x) ==> #[trigger] b.retired.contains(x),
    ensures
        all_rightful(ctx, t, b),
{
    assert forall|j: int| 0 <= j < b.promoted.len() implies rightful(
        ctx,
        t,
        b.retired,
        #[trigger] b.promoted[j],
    ) by {
        let p = a.promoted[j];
        assert(rightful(ctx, t, a.retired, p));
        let (i, s, k) = choose|i: int, s: int, k: int| #[trigger]
            rightful_at(ctx, t, a.retired, p, i, s, k);
        assert(rightful_at(ctx, t, b.retired, p, i, s, k));
    }
}

/// What is left of a shard when nodes left is all on nodes of the cluster, and
/// whoever took over might.
proof fn lemma_departed_shard(
    ctx: CtxV,
    is: SettingsV,
    t: Seq<IndexV>,
    i: int,
    s: int,
    ch: ChangesV,
)
    requires
        0 <= i < t.len(),
        0 <= s < t[i].shards.len(),
        all_rightful(ctx, t, ch),
    ensures
        ({
            let left = departed_shard(ctx, is, t[i].name, s as u32, t[i].shards[s], ch);
            &&& all_here(ctx, left.copies)
            &&& all_rightful(ctx, t, left.ch)
        }),
{
    let name = t[i].name;
    let shard = s as u32;
    let copies = t[i].shards[s];
    let here = without_orphans(ctx, copies);
    let lost_some = losses(ctx, is, name, shard, here, ch, here.len());
    lemma_losses(ctx, is, name, shard, here, ch, here.len());
    lemma_still_rightful(ctx, t, ch, lost_some.ch);
    let left = succeeded(ctx, name, shard, lost_some);
    let in_sync = in_sync_of(ctx, name, shard);
    let p = find(lost_some.copies, is_lost_primary());
    let r = find(lost_some.copies, eligible(in_sync));
    lemma_found(lost_some.copies, is_lost_primary());
    lemma_found(lost_some.copies, eligible(in_sync));
    assert(all_here(ctx, lost_some.copies)) by {
        assert forall|k: int| 0 <= k < lost_some.copies.len() implies !lost(
            ctx,
            #[trigger] lost_some.copies[k],
        ) by {}
    }
    if p < lost_some.copies.len() && r < lost_some.copies.len() {
        let heir = lost_some.copies[r];
        assert(heir == here[r]);
        let k = lemma_kept_from(ctx, copies, r);
        assert(!lost(ctx, lost_some.copies[r]));
        assert forall|k: int| 0 <= k < left.copies.len() implies !lost(
            ctx,
            #[trigger] left.copies[k],
        ) by {
            assert(!lost(ctx, lost_some.copies[0]));
            assert(!lost(ctx, lost_some.copies[k]));
        }
        let entry = (name, shard, heir.node->0);
        let retired = left.ch.retired;
        if lost_some.deposed is Some {
            lemma_push(lost_some.ch.retired, (name, shard, lost_some.deposed->0));
        }
        let between = ChangesV { promoted: lost_some.ch.promoted, ..left.ch };
        lemma_still_rightful(ctx, t, lost_some.ch, between);
        assert(rightful_at(ctx, t, retired, entry, i, s, k)) by {
            assert forall|d: int| #[trigger]
                lost_primary_at(ctx, here, d) && here[d].allocation_id is Some implies
                retired.contains((name, shard, here[d].allocation_id->0)) by {
                lemma_deposed(ctx, is, name, shard, here, ch, here.len(), d);
            }
        }
        assert(left.ch.promoted == lost_some.ch.promoted.push(entry));
        assert forall|j: int| 0 <= j < left.ch.promoted.len() implies rightful(
            ctx,
            t,
            left.ch.retired,
            #[trigger] left.ch.promoted[j],
        ) by {
            if j < between.promoted.len() {
                assert(left.ch.promoted[j] == between.promoted[j]);
            }
        }
    } else {
        lemma_still_rightful(ctx, t, lost_some.ch, left.ch);
        assert forall|k: int| 0 <= k < left.copies.len() implies !lost(
            ctx,
            #[trigger] left.copies[k],
        ) by {
            assert(!lost(ctx, lost_some.copies[k]));
        }
    }
}

/// Where a copy that is left was before the relocations that cannot be finished
/// were called off.
proof fn lemma_kept_from(ctx: CtxV, copies: Seq<CopyV>, r: int) -> (k: int)
    requires
        0 <= r < without_orphans(ctx, copies).len(),
    ensures
        0 <= k < copies.len(),
        without_orphans(ctx, copies)[r] == called_off(ctx, copies[k]),
{
    let all = copies.map_values(|c: CopyV| called_off(ctx, c));
    lemma_keep(all, not_orphan(ctx));
    let c = without_orphans(ctx, copies)[r];
    assert(all.contains(c));
    all.index_of(c)
}

proof fn lemma_departed_shards(ctx: CtxV, start: Seq<IndexV>, w: WorkV, i: int, n: nat)
    requires
        0 <= i < w.t.len(),
        start.len() == w.t.len(),
        start[i] == w.t[i],
        n <= w.t[i].shards.len(),
        all_rightful(ctx, start, w.ch),
    ensures
        ({
            let after = departed_shards(ctx, w, i, n);
            &&& after.t.len() == w.t.len()
            &&& after.t[i].shards.len() == w.t[i].shards.len()
            &&& shards_here(ctx, after.t[i], n as int)
            &&& forall|j: int| 0 <= j < w.t.len() && j != i ==> #[trigger] after.t[j] == w.t[j]
            &&& all_rightful(ctx, start, after.ch)
        }),
    decreases n,
{
    if n > 0 {
        lemma_departed_shards(ctx, start, w, i, (n - 1) as nat);
        let before = departed_shards(ctx, w, i, (n - 1) as nat);
        let after = departed_shards(ctx, w, i, n);
        let is = ctx.settings_of(w.t[i].name);
        lemma_departed_shard(ctx, is, start, i, n - 1, before.ch);
        assert forall|s: int| 0 <= s < n implies all_here(ctx, #[trigger] after.t[i].shards[s]) by {
            if s < n - 1 {
                assert(after.t[i].shards[s] == before.t[i].shards[s]);
            }
        }
    }
}

proof fn lemma_departed(ctx: CtxV, w: WorkV, n: nat)
    requires
        n <= w.t.len(),
        all_rightful(ctx, w.t, w.ch),
    ensures
        ({
            let after = departed(ctx, w, n);
            &&& after.t.len() == w.t.len()
            &&& table_here(ctx, after.t, n as int)
            &&& forall|j: int| n <= j < w.t.len() ==> #[trigger] after.t[j] == w.t[j]
            &&& all_rightful(ctx, w.t, after.ch)
        }),
    decreases n,
{
    if n > 0 {
        lemma_departed(ctx, w, (n - 1) as nat);
        let before = departed(ctx, w, (n - 1) as nat);
        let after = departed(ctx, w, n);
        lemma_departed_shards(ctx, w.t, before, n - 1, before.t[n - 1].shards.len());
        assert forall|i: int| 0 <= i < n implies shards_here(
            ctx,
            #[trigger] after.t[i],
            after.t[i].shards.len() as int,
        ) by {
            if i < n - 1 {
                assert(after.t[i] == before.t[i]);
            }
        }
    }
}

// ---- what is placed and moved --------------------------------------------------

proof fn lemma_placed(ctx: CtxV, w: WorkV, at: (usize, usize, usize))
    requires
        table_here(ctx, w.t, w.t.len() as int),
    ensures
        table_here(ctx, placed(ctx, w, at).t, w.t.len() as int),
        placed(ctx, w, at).t.len() == w.t.len(),
        none_promoted(w, placed(ctx, w, at)),
{
    if has_place(w.t, at) {
        let name = w.t[at.0 as int].name;
        let copies = w.t[at.0 as int].shards[at.1 as int];
        let c = copies[at.2 as int];
        assert(shards_here(
            ctx,
            w.t[at.0 as int],
            w.t[at.0 as int].shards.len() as int,
        ));
        assert(all_here(ctx, copies));
        assert(!lost(ctx, copies[at.2 as int]));
        let data = ctx.data_nodes();
        let i = find(data, keeps(ctx, w.t, c, name, at.1 as u32));
        lemma_found(data, keeps(ctx, w.t, c, name, at.1 as u32));
        if i < data.len() {
            lemma_data_node(ctx, i);
        }
        lemma_best_is_here(ctx, w.t, c, name, 0);
        let after = placed(ctx, w, at);
        if after.t != w.t {
            let now = after.t[at.0 as int].shards[at.1 as int];
            assert(now =~= copies.update(at.2 as int, now[at.2 as int]));
            assert(!lost(ctx, now[at.2 as int]));
            assert forall|k: int| 0 <= k < now.len() implies !lost(ctx, #[trigger] now[k]) by {
                if k != at.2 {
                    assert(now[k] == copies[k]);
                }
            }
            lemma_put_here(ctx, w.t, at.0 as int, at.1 as int, now);
        }
    }
}

proof fn lemma_placed_all(ctx: CtxV, w: WorkV, list: Seq<(usize, usize, usize)>, n: nat)
    requires
        table_here(ctx, w.t, w.t.len() as int),
    ensures
        table_here(ctx, placed_all(ctx, w, list, n).t, w.t.len() as int),
        placed_all(ctx, w, list, n).t.len() == w.t.len(),
        none_promoted(w, placed_all(ctx, w, list, n)),
    decreases n,
{
    if n > 0 {
        lemma_placed_all(ctx, w, list, (n - 1) as nat);
        lemma_placed(ctx, placed_all(ctx, w, list, (n - 1) as nat), list[n - 1]);
    }
}

proof fn lemma_sent(ctx: CtxV, w: WorkV, i: int, copy: CopyV, from: Seq<char>, to: Seq<char>)
    requires
        0 <= i < w.t.len(),
        table_here(ctx, w.t, w.t.len() as int),
        stands(w.t, i, copy, w.ids),
        ctx.node(to) is Some,
    ensures
        table_here(ctx, sent(w, i, copy, from, to).t, w.t.len() as int),
{
    if copy.shard < w.t[i].shards.len() {
        let copies = w.t[i].shards[copy.shard as int];
        let pos = find(copies, has_id(copy.allocation_id));
        lemma_found(copies, has_id(copy.allocation_id));
        if pos < copies.len() {
            let now = moved(
                copies,
                pos,
                w.t[i].name,
                copy.shard,
                copy.primary,
                from,
                to,
                w.ids.id(),
            );
            assert(shards_here(ctx, w.t[i], w.t[i].shards.len() as int));
            assert(all_here(ctx, w.t[i].shards[copy.shard as int]));
            assert(w.t[i].shards[copy.shard as int][pos].state != ShardState::Unassigned);
            assert forall|k: int| 0 <= k < now.len() implies !lost(ctx, #[trigger] now[k]) by {
                if k < copies.len() {
                    assert(!lost(ctx, copies[k]));
                }
            }
            lemma_put_here(ctx, w.t, i, copy.shard as int, now);
        }
    }
}

proof fn lemma_freed_all(ctx: CtxV, w: WorkV, i: int, stuck: Seq<CopyV>, n: nat)
    requires
        0 <= i < w.t.len(),
        n <= stuck.len(),
        table_sound(w.t, w.ids),
        forall|k: int| 0 <= k < stuck.len() ==> stands(w.t, i, #[trigger] stuck[k], w.ids),
        freed_all(ctx, w, i, stuck, n).ids.next < u64::MAX,
        table_here(ctx, w.t, w.t.len() as int),
    ensures
        table_here(ctx, freed_all(ctx, w, i, stuck, n).t, w.t.len() as int),
    decreases n,
{
    if n > 0 {
        let before = freed_all(ctx, w, i, stuck, (n - 1) as nat);
        let copy = stuck[n - 1];
        lemma_freed_grows(ctx, before, i, copy);
        lemma_freed_all(ctx, w, i, stuck, (n - 1) as nat);
        lemma_freed_all_sound(ctx, w, i, stuck, (n - 1) as nat);
        assert(stands(before.t, i, stuck[n - 1], before.ids));
        let from = copy.node->0;
        let name = before.t[i].name;
        let r = ranking(ctx, before.t, name);
        let k = find(r, takes(ctx, before.t, copy, from));
        lemma_found(r, takes(ctx, before.t, copy, from));
        if k < r.len() {
            lemma_ranking_of(ctx, before.t, name, ctx.data_nodes().len(), k);
            lemma_sent(ctx, before, i, copy, from, r[k].node.id);
        }
    }
}

proof fn lemma_unstuck(ctx: CtxV, w: WorkV, n: nat)
    requires
        n <= w.t.len(),
        table_sound(w.t, w.ids),
        unstuck(ctx, w, n).ids.next < u64::MAX,
        table_here(ctx, w.t, w.t.len() as int),
    ensures
        table_here(ctx, unstuck(ctx, w, n).t, w.t.len() as int),
    decreases n,
{
    if n > 0 {
        let before = unstuck(ctx, w, (n - 1) as nat);
        let stuck = stuck_of(ctx, before.t, n - 1);
        lemma_freed_all_grows(ctx, before, n - 1, stuck, stuck.len());
        lemma_unstuck(ctx, w, (n - 1) as nat);
        lemma_unstuck_sound(ctx, w, (n - 1) as nat);
        lemma_stuck_stand(ctx, before.t, before.ids, n - 1);
        lemma_freed_all(ctx, before, n - 1, stuck, stuck.len());
    }
}

proof fn lemma_rebalanced(ctx: CtxV, w: WorkV, n: nat)
    requires
        n <= w.t.len(),
        table_sound(w.t, w.ids),
        rebalanced(ctx, w, n).ids.next < u64::MAX,
        table_here(ctx, w.t, w.t.len() as int),
    ensures
        table_here(ctx, rebalanced(ctx, w, n).t, w.t.len() as int),
    decreases n,
{
    if n > 0 {
        let before = rebalanced(ctx, w, (n - 1) as nat);
        assert(before.ids.next <= lightened(ctx, before, n - 1).ids.next);
        lemma_rebalanced(ctx, w, (n - 1) as nat);
        lemma_rebalanced_sound(ctx, w, (n - 1) as nat);
        let name = before.t[n - 1].name;
        let r = ranking(ctx, before.t, name);
        if r.len() >= 2 {
            lemma_picked(ctx, before.t, before.ids, n - 1, r, r.len());
            lemma_ranking_of(ctx, before.t, name, ctx.data_nodes().len(), 0);
            match pick(ctx, before.t, name, r, r.len()) {
                Some((copy, heavy)) => {
                    lemma_sent(ctx, before, n - 1, copy, heavy.id, r[0].node.id);
                },
                None => {},
            }
        }
    }
}

// ---- nobody else is promoted ---------------------------------------------------

proof fn lemma_unstuck_promotes_none(ctx: CtxV, w: WorkV, n: nat)
    ensures
        none_promoted(w, unstuck(ctx, w, n)),
    decreases n,
{
    if n > 0 {
        lemma_unstuck_promotes_none(ctx, w, (n - 1) as nat);
        let before = unstuck(ctx, w, (n - 1) as nat);
        let stuck = stuck_of(ctx, before.t, n - 1);
        lemma_freed_promotes_none(ctx, before, n - 1, stuck, stuck.len());
    }
}

proof fn lemma_freed_promotes_none(ctx: CtxV, w: WorkV, i: int, stuck: Seq<CopyV>, n: nat)
    ensures
        none_promoted(w, freed_all(ctx, w, i, stuck, n)),
    decreases n,
{
    if n > 0 {
        lemma_freed_promotes_none(ctx, w, i, stuck, (n - 1) as nat);
        let before = freed_all(ctx, w, i, stuck, (n - 1) as nat);
        assert(none_promoted(before, freed(ctx, before, i, stuck[n - 1])));
    }
}

proof fn lemma_rebalanced_promotes_none(ctx: CtxV, w: WorkV, n: nat)
    ensures
        none_promoted(w, rebalanced(ctx, w, n)),
    decreases n,
{
    if n > 0 {
        lemma_rebalanced_promotes_none(ctx, w, (n - 1) as nat);
        let before = rebalanced(ctx, w, (n - 1) as nat);
        assert(none_promoted(before, lightened(ctx, before, n - 1)));
    }
}

proof fn lemma_followed_promotes_none(
    name: Seq<char>,
    shard: u32,
    copies: Seq<CopyV>,
    first: Seq<CopyV>,
    ids: IdsV,
    ch: ChangesV,
    n: nat,
)
    ensures
        followed(name, shard, copies, first, ids, ch, n).ch.promoted == ch.promoted,
        followed(name, shard, copies, first, ids, ch, n).ch.retired == ch.retired,
    decreases n,
{
    if n > 0 {
        lemma_followed_promotes_none(name, shard, copies, first, ids, ch, (n - 1) as nat);
    }
}

proof fn lemma_followed_shards_promote_none(w: WorkV, i: int, n: nat)
    ensures
        none_promoted(w, followed_shards(w, i, n)),
    decreases n,
{
    if n > 1 {
        lemma_followed_shards_promote_none(w, i, (n - 1) as nat);
        let before = followed_shards(w, i, (n - 1) as nat);
        let first = w.t[i].shards[0];
        lemma_followed_promotes_none(
            w.t[i].name,
            (n - 1) as u32,
            w.t[i].shards[n - 1],
            first,
            before.ids,
            before.ch,
            first.len(),
        );
    }
}

proof fn lemma_followed_all_promotes_none(w: WorkV, n: nat)
    ensures
        none_promoted(w, followed_all(w, n)),
    decreases n,
{
    if n > 0 {
        lemma_followed_all_promotes_none(w, (n - 1) as nat);
        let before = followed_all(w, (n - 1) as nat);
        lemma_followed_shards_promote_none(before, n - 1, before.t[n - 1].shards.len());
    }
}

// ---- what it comes to ----------------------------------------------------------

/// What is left once the nodes that left are accounted for and what waits has a
/// place.
proof fn lemma_allocated(ctx: CtxV, t: Seq<IndexV>, ids: IdsV)
    ensures
        ({
            let start = begun(ctx, t, ids);
            let gone = departed(ctx, start, start.t.len());
            let settled = allocated(ctx, gone);
            &&& table_here(ctx, settled.t, settled.t.len() as int)
            &&& all_rightful(ctx, start.t, gone.ch)
            &&& none_promoted(gone, settled)
        }),
{
    let start = begun(ctx, t, ids);
    let gone = departed(ctx, start, start.t.len());
    lemma_departed(ctx, start, start.t.len());
    let primaries = pending(gone.t, true, gone.t.len());
    lemma_placed_all(ctx, gone, primaries, primaries.len());
    let placed = placed_kind(ctx, gone, true);
    let replicas = pending(placed.t, false, placed.t.len());
    lemma_placed_all(ctx, placed, replicas, replicas.len());
}

/// Every copy that has a place is on a node of the cluster once the table has
/// been rerouted, wherever it was before. Left out is what is left out of the
/// law that no two copies of a shard are on one node.
pub proof fn law_every_copy_is_on_a_node_of_the_cluster(
    ctx: CtxV,
    t: Seq<IndexV>,
    ids: IdsV,
    i: int,
    s: int,
    k: int,
)
    requires
        table_sound(t, ids),
        homes_free(ctx, t),
        names_differ(ctx.indices),
        rerouted(ctx, t, ids).ids.next < u64::MAX,
        0 <= i < rerouted(ctx, t, ids).t.len(),
        0 <= s < rerouted(ctx, t, ids).t[i].shards.len(),
        0 <= k < rerouted(ctx, t, ids).t[i].shards[s].len(),
        rerouted(ctx, t, ids).t[i].shards[s][k].state != ShardState::Unassigned,
    ensures
        ({
            let c = rerouted(ctx, t, ids).t[i].shards[s][k];
            c.node is Some && exists|j: int|
                0 <= j < ctx.nodes.len() && (#[trigger] ctx.nodes[j]).id == c.node->0
        }),
{
    let start = begun(ctx, t, ids);
    let gone = departed(ctx, start, start.t.len());
    let settled = allocated(ctx, gone);
    let free = unstuck(ctx, settled, settled.t.len());
    let done = before_following(ctx, t, ids);
    let after = rerouted(ctx, t, ids);
    lemma_followed_all_grows(done, done.t.len());
    lemma_before_following(ctx, t, ids);
    lemma_allocated(ctx, t, ids);
    lemma_unstuck(ctx, settled, settled.t.len());
    lemma_unstuck_sound(ctx, settled, settled.t.len());
    lemma_rebalanced(ctx, free, free.t.len());
    lemma_rebalanced_sound(ctx, free, free.t.len());
    law_every_shard_sits_where_the_first_one_sits(done);
    law_a_sound_table_stays_sound(ctx, t, ids);
    let e = after.t[i];
    assert(e == followed_all(done, done.t.len()).t[i]);
    assert(together(e));
    assert(alike(e.shards[s][k], e.shards[0][k]));
    assert(e.shards[0] == done.t[i].shards[0]);
    assert(shards_here(ctx, done.t[i], done.t[i].shards.len() as int));
    assert(all_here(ctx, done.t[i].shards[0]));
    assert(!lost(ctx, done.t[i].shards[0][k]));
    assert(shard_sound(after.t[i].shards[s], after.t[i].name, s, after.ids));
    assert(is_sound(after.t[i].shards[s][k], after.t[i].name, s, after.ids));
    let id = e.shards[s][k].node->0;
    lemma_found(ctx.nodes, with_node_id(id));
    let j = find(ctx.nodes, with_node_id(id));
    assert(ctx.nodes[j].id == id);
}

/// Whoever `reroute` says took over as the primary of a shard was an active
/// replica of it on a node of the cluster and, where it is known which copies
/// missed nothing, one of those; and the primary it took over from is said to
/// be one of those no more, so that it is not handed the primary back when it
/// returns without the writes taken in between.
pub proof fn law_reroute_promotes_only_what_missed_nothing(
    ctx: CtxV,
    t: Seq<IndexV>,
    ids: IdsV,
    j: int,
)
    requires
        0 <= j < rerouted(ctx, t, ids).ch.promoted.len(),
    ensures
        rightful(
            ctx,
            begun(ctx, t, ids).t,
            rerouted(ctx, t, ids).ch.retired,
            rerouted(ctx, t, ids).ch.promoted[j],
        ),
{
    let start = begun(ctx, t, ids);
    let gone = departed(ctx, start, start.t.len());
    let settled = allocated(ctx, gone);
    let free = unstuck(ctx, settled, settled.t.len());
    let done = rebalanced(ctx, free, free.t.len());
    lemma_allocated(ctx, t, ids);
    lemma_unstuck_promotes_none(ctx, settled, settled.t.len());
    lemma_rebalanced_promotes_none(ctx, free, free.t.len());
    lemma_followed_all_promotes_none(done, done.t.len());
    let after = rerouted(ctx, t, ids);
    assert(after.ch.promoted[j] == gone.ch.promoted[j]);
}

} // verus!
