//! What no node takes stays where it is when the table is rerouted.

use vstd::prelude::*;

use crate::cluster::balance::{ranking, RankedV};
use crate::cluster::deciders::{may_allocate, worst, Decision};
use crate::cluster::departures::{
    called_off, departed, departed_shard, departed_shards, eligible, in_sync_of, is_lost_primary,
    losses, not_orphan, succeeded, without_orphans,
};
use crate::cluster::follow::law_every_shard_sits_where_the_first_one_sits;
use crate::cluster::moves::{
    freed, freed_all, has_id, is_stuck, may_go, pick, rebalanced, sent, started_of, stuck_of, takes,
    unstuck,
};
use crate::cluster::placement::{
    best_from, has_place, keeps, pending, placed, placed_all, placed_kind,
};
use crate::cluster::reroute::{allocated, begun, rerouted};
use crate::cluster::settings::{CtxV, SettingsV};
use crate::cluster::state::{
    all, named, on_node, place, shards_of, CopyV, IdsV, IndexV, MetaV, NodeV, ShardState,
};
use crate::cluster::sync::{
    drop_replicas, drop_waiting, is_replica, known_shards, last_of, synced, synced_shard,
    synced_shards, with_primary,
};
use crate::cluster::work::{moved, with_copies, ChangesV, WorkV};
use crate::list::{find, flat, keep, lemma_found, lemma_keep};

verus! {

/// Whether a copy at a place of the table was being filled, on the same node and
/// under the same id as another.
pub open spec fn fills_at(t: Seq<IndexV>, name: Seq<char>, c: CopyV, i: int, k: int) -> bool {
    &&& 0 <= i < t.len()
    &&& t[i].name == name
    &&& t[i].shards.len() > 0
    &&& 0 <= k < t[i].shards[0].len()
    &&& t[i].shards[0][k].state == ShardState::Initializing
    &&& t[i].shards[0][k].allocation_id == c.allocation_id
    &&& t[i].shards[0][k].node == c.node
}

/// Whether a copy of an index's first shard was being filled in a table.
pub open spec fn was_filling(t: Seq<IndexV>, name: Seq<char>, c: CopyV) -> bool {
    exists|i: int, k: int| fills_at(t, name, c, i, k)
}

/// Whether every copy is filed under its own index.
pub open spec fn well_filed(t: Seq<IndexV>) -> bool {
    forall|i: int, s: int, k: int|
        #![trigger t[i].shards[s][k]]
        0 <= i < t.len() && 0 <= s < t[i].shards.len() && 0 <= k < t[i].shards[s].len()
            ==> t[i].shards[s][k].index == t[i].name
}

/// Whether no node takes a copy of an index, or none of its replicas.
pub open spec fn nowhere(ctx: CtxV, name: Seq<char>, whole: bool) -> bool {
    forall|t: Seq<IndexV>, c: CopyV, node: NodeV|
        c.index == name && (whole || !c.primary) ==> worst(#[trigger] may_allocate(ctx, t, c, node))
            != Decision::Yes
}

spec fn calm(t0: Seq<IndexV>, name: Seq<char>, whole: bool, s: int, c: CopyV) -> bool {
    &&& c.index == name
    &&& s == 0 && c.state == ShardState::Initializing && (whole || !c.primary) ==> was_filling(
        t0,
        name,
        c,
    )
}

spec fn all_calm(t0: Seq<IndexV>, name: Seq<char>, whole: bool, s: int, copies: Seq<CopyV>) -> bool {
    forall|k: int| 0 <= k < copies.len() ==> calm(t0, name, whole, s, #[trigger] copies[k])
}

spec fn entry_calm(t0: Seq<IndexV>, whole: bool, e: IndexV) -> bool {
    forall|s: int|
        0 <= s < e.shards.len() ==> all_calm(t0, e.name, whole, s, #[trigger] e.shards[s])
}

spec fn table_calm(t0: Seq<IndexV>, name: Seq<char>, whole: bool, t: Seq<IndexV>) -> bool {
    forall|i: int|
        0 <= i < t.len() && (#[trigger] t[i]).name == name ==> entry_calm(t0, whole, t[i])
}

proof fn lemma_same_filling(t: Seq<IndexV>, name: Seq<char>, c: CopyV, d: CopyV)
    requires
        c.allocation_id == d.allocation_id,
        c.node == d.node,
    ensures
        was_filling(t, name, c) ==> was_filling(t, name, d),
{
    if was_filling(t, name, c) {
        let (i, k) = choose|i: int, k: int| fills_at(t, name, c, i, k);
        assert(fills_at(t, name, d, i, k));
    }
}

proof fn lemma_put(
    t0: Seq<IndexV>,
    name: Seq<char>,
    whole: bool,
    t: Seq<IndexV>,
    i: int,
    s: int,
    copies: Seq<CopyV>,
)
    requires
        table_calm(t0, name, whole, t),
        0 <= i < t.len(),
        0 <= s < t[i].shards.len(),
        t[i].name == name ==> all_calm(t0, name, whole, s, copies),
    ensures
        table_calm(t0, name, whole, with_copies(t, i, s, copies)),
{
    let u = with_copies(t, i, s, copies);
    assert forall|j: int| 0 <= j < u.len() && (#[trigger] u[j]).name == name implies entry_calm(
        t0,
        whole,
        u[j],
    ) by {
        if j == i {
            assert(entry_calm(t0, whole, t[i]));
            assert forall|r: int| 0 <= r < u[j].shards.len() implies all_calm(
                t0,
                name,
                whole,
                r,
                #[trigger] u[j].shards[r],
            ) by {
                if r != s {
                    assert(u[j].shards[r] == t[i].shards[r]);
                }
            }
        } else {
            assert(u[j] == t[j]);
        }
    }
}

// ---- what follows the indices --------------------------------------------------

proof fn lemma_dropped_waiting(
    t0: Seq<IndexV>,
    name: Seq<char>,
    whole: bool,
    s: int,
    copies: Seq<CopyV>,
    i: nat,
    extra: nat,
)
    requires
        i <= copies.len(),
        all_calm(t0, name, whole, s, copies),
    ensures
        all_calm(t0, name, whole, s, drop_waiting(copies, i, extra).0),
    decreases i,
{
    if extra > 0 && i > 0 {
        let k = i - 1;
        if !copies[k].primary && copies[k].state == ShardState::Unassigned {
            lemma_dropped_waiting(
                t0,
                name,
                whole,
                s,
                copies.remove(k),
                k as nat,
                (extra - 1) as nat,
            );
        } else {
            lemma_dropped_waiting(t0, name, whole, s, copies, k as nat, extra);
        }
    }
}

proof fn lemma_last(s: Seq<CopyV>, p: spec_fn(CopyV) -> bool)
    ensures
        -1 <= last_of(s, p) < s.len(),
    decreases s.len(),
{
    if s.len() > 0 {
        lemma_last(s.drop_last(), p);
    }
}

proof fn lemma_dropped_replicas(
    t0: Seq<IndexV>,
    name: Seq<char>,
    whole: bool,
    s: int,
    copies: Seq<CopyV>,
    extra: nat,
)
    requires
        all_calm(t0, name, whole, s, copies),
    ensures
        all_calm(t0, name, whole, s, drop_replicas(copies, extra)),
    decreases extra,
{
    if extra > 0 {
        let k = last_of(copies, is_replica());
        lemma_last(copies, is_replica());
        let next = if k >= 0 {
            copies.remove(k)
        } else {
            copies
        };
        assert(all_calm(t0, name, whole, s, next));
        lemma_dropped_replicas(t0, name, whole, s, next, (extra - 1) as nat);
    }
}

proof fn lemma_synced_shard(
    t0: Seq<IndexV>,
    whole: bool,
    ctx: CtxV,
    ids: IdsV,
    m: MetaV,
    shard: u32,
    old: Seq<Seq<CopyV>>,
)
    requires
        shard < old.len() ==> all_calm(t0, m.name, whole, shard as int, old[shard as int]),
    ensures
        all_calm(
            t0,
            m.name,
            whole,
            shard as int,
            synced_shard(ctx, t0, ids, m, shard, old).0,
        ),
{
    let fresh = shard >= old.len();
    let copies = if fresh {
        Seq::empty()
    } else {
        old[shard as int]
    };
    let with = with_primary(ctx, t0, ids, m, shard, copies).0;
    assert(all_calm(t0, m.name, whole, shard as int, with));
    let have = crate::list::count(with, is_replica());
    if have > m.replicas {
        let extra = (have - m.replicas) as nat;
        lemma_dropped_waiting(t0, m.name, whole, shard as int, with, with.len(), extra);
        let (left, more) = drop_waiting(with, with.len(), extra);
        lemma_dropped_replicas(t0, m.name, whole, shard as int, left, more);
    }
}

proof fn lemma_synced_shards(
    t0: Seq<IndexV>,
    whole: bool,
    ctx: CtxV,
    ids: IdsV,
    m: MetaV,
    old: Seq<Seq<CopyV>>,
    n: nat,
)
    requires
        n <= u32::MAX,
        forall|s: int|
            0 <= s < old.len() ==> all_calm(t0, m.name, whole, s, #[trigger] old[s]),
    ensures
        forall|s: int|
            0 <= s < n ==> all_calm(
                t0,
                m.name,
                whole,
                s,
                #[trigger] synced_shards(ctx, t0, ids, m, old, n).0[s],
            ),
        synced_shards(ctx, t0, ids, m, old, n).0.len() == n,
    decreases n,
{
    if n > 0 {
        lemma_synced_shards(t0, whole, ctx, ids, m, old, (n - 1) as nat);
        let (shards, next) = synced_shards(ctx, t0, ids, m, old, (n - 1) as nat);
        let shard = (n - 1) as u32;
        if shard < old.len() {
            assert(all_calm(t0, m.name, whole, shard as int, old[shard as int]));
        }
        lemma_synced_shard(t0, whole, ctx, next, m, shard, old);
    }
}

proof fn lemma_synced(
    t0: Seq<IndexV>,
    name: Seq<char>,
    whole: bool,
    ctx: CtxV,
    ids: IdsV,
    n: nat,
)
    requires
        n <= ctx.indices.len(),
        table_calm(t0, name, whole, t0),
    ensures
        table_calm(t0, name, whole, synced(ctx, t0, ids, n).0),
    decreases n,
{
    if n > 0 {
        lemma_synced(t0, name, whole, ctx, ids, (n - 1) as nat);
        let (done, next) = synced(ctx, t0, ids, (n - 1) as nat);
        let m = ctx.indices[n - 1];
        let u = synced(ctx, t0, ids, n).0;
        if m.name == name {
            let old = known_shards(t0, m.name);
            let p = place(t0, m.name);
            lemma_found(t0, named(m.name));
            if p < t0.len() {
                assert(t0[p].name == name);
                assert(entry_calm(t0, whole, t0[p]));
            }
            assert forall|s: int| 0 <= s < old.len() implies all_calm(
                t0,
                m.name,
                whole,
                s,
                #[trigger] old[s],
            ) by {
                assert(old[s] == t0[p].shards[s]);
            }
            lemma_synced_shards(t0, whole, ctx, next, m, old, m.shards as nat);
        }
        assert forall|j: int| 0 <= j < u.len() && (#[trigger] u[j]).name == name implies entry_calm(
            t0,
            whole,
            u[j],
        ) by {
            if j < done.len() {
                assert(u[j] == done[j]);
            }
        }
    }
}

// ---- what leaves ---------------------------------------------------------------

proof fn lemma_losses(
    t0: Seq<IndexV>,
    whole: bool,
    ctx: CtxV,
    is: SettingsV,
    name: Seq<char>,
    s: int,
    shard: u32,
    copies: Seq<CopyV>,
    ch: ChangesV,
    n: nat,
)
    requires
        n <= copies.len(),
        all_calm(t0, name, whole, s, copies),
    ensures
        all_calm(t0, name, whole, s, losses(ctx, is, name, shard, copies, ch, n).copies),
        losses(ctx, is, name, shard, copies, ch, n).copies.len() == copies.len(),
    decreases n,
{
    if n > 0 {
        lemma_losses(t0, whole, ctx, is, name, s, shard, copies, ch, (n - 1) as nat);
        assert(calm(t0, name, whole, s, copies[n - 1]));
    }
}

proof fn lemma_departed_shard(
    t0: Seq<IndexV>,
    whole: bool,
    ctx: CtxV,
    is: SettingsV,
    name: Seq<char>,
    s: int,
    shard: u32,
    copies: Seq<CopyV>,
    ch: ChangesV,
)
    requires
        all_calm(t0, name, whole, s, copies),
    ensures
        all_calm(t0, name, whole, s, departed_shard(ctx, is, name, shard, copies, ch).copies),
{
    let all = copies.map_values(|c: CopyV| called_off(ctx, c));
    let here = without_orphans(ctx, copies);
    lemma_keep(all, not_orphan(ctx));
    assert forall|k: int| 0 <= k < here.len() implies calm(
        t0,
        name,
        whole,
        s,
        #[trigger] here[k],
    ) by {
        let j = all.index_of(here[k]);
        assert(calm(t0, name, whole, s, copies[j]));
    }
    lemma_losses(t0, whole, ctx, is, name, s, shard, here, ch, here.len());
    let left = losses(ctx, is, name, shard, here, ch, here.len());
    let in_sync = in_sync_of(ctx, name, shard);
    let p = find(left.copies, is_lost_primary());
    let r = find(left.copies, eligible(in_sync));
    lemma_found(left.copies, is_lost_primary());
    lemma_found(left.copies, eligible(in_sync));
    let after = succeeded(ctx, name, shard, left).copies;
    assert forall|k: int| 0 <= k < after.len() implies calm(
        t0,
        name,
        whole,
        s,
        #[trigger] after[k],
    ) by {
        if p < left.copies.len() {
            assert(calm(t0, name, whole, s, left.copies[p]));
            assert(calm(t0, name, whole, s, left.copies[0]));
            assert(calm(t0, name, whole, s, left.copies[k]));
        } else {
            assert(calm(t0, name, whole, s, left.copies[k]));
        }
        if r < left.copies.len() {
            assert(calm(t0, name, whole, s, left.copies[r]));
        }
    }
}

proof fn lemma_departed_shards(
    t0: Seq<IndexV>,
    name: Seq<char>,
    whole: bool,
    ctx: CtxV,
    w: WorkV,
    i: int,
    n: nat,
)
    requires
        0 <= i < w.t.len(),
        n <= w.t[i].shards.len(),
        table_calm(t0, name, whole, w.t),
    ensures
        table_calm(t0, name, whole, departed_shards(ctx, w, i, n).t),
        departed_shards(ctx, w, i, n).t.len() == w.t.len(),
        departed_shards(ctx, w, i, n).t[i].shards.len() == w.t[i].shards.len(),
        departed_shards(ctx, w, i, n).t[i].name == w.t[i].name,
    decreases n,
{
    if n > 0 {
        lemma_departed_shards(t0, name, whole, ctx, w, i, (n - 1) as nat);
        let before = departed_shards(ctx, w, i, (n - 1) as nat);
        let here = w.t[i].name;
        let is = ctx.settings_of(here);
        let copies = w.t[i].shards[n - 1];
        if here == name {
            assert(entry_calm(t0, whole, w.t[i]));
            assert(all_calm(t0, name, whole, n - 1, w.t[i].shards[n - 1]));
            lemma_departed_shard(
                t0,
                whole,
                ctx,
                is,
                name,
                n - 1,
                (n - 1) as u32,
                copies,
                before.ch,
            );
        }
        let left = departed_shard(ctx, is, here, (n - 1) as u32, copies, before.ch);
        lemma_put(t0, name, whole, before.t, i, n - 1, left.copies);
    }
}

proof fn lemma_departed(t0: Seq<IndexV>, name: Seq<char>, whole: bool, ctx: CtxV, w: WorkV, n: nat)
    requires
        n <= w.t.len(),
        table_calm(t0, name, whole, w.t),
    ensures
        table_calm(t0, name, whole, departed(ctx, w, n).t),
        departed(ctx, w, n).t.len() == w.t.len(),
    decreases n,
{
    if n > 0 {
        lemma_departed(t0, name, whole, ctx, w, (n - 1) as nat);
        let before = departed(ctx, w, (n - 1) as nat);
        lemma_departed_shards(
            t0,
            name,
            whole,
            ctx,
            before,
            n - 1,
            before.t[n - 1].shards.len(),
        );
    }
}

// ---- what waits ----------------------------------------------------------------

proof fn lemma_best(ctx: CtxV, t: Seq<IndexV>, c: CopyV, r: Seq<RankedV>, i: nat)
    ensures
        best_from(ctx, t, c, r, i).0 matches Some(node) ==> worst(may_allocate(ctx, t, c, node))
            == Decision::Yes,
    decreases r.len() - i,
{
    if i < r.len() {
        lemma_best(ctx, t, c, r, i + 1);
    }
}

proof fn lemma_placed(
    t0: Seq<IndexV>,
    name: Seq<char>,
    whole: bool,
    ctx: CtxV,
    w: WorkV,
    at: (usize, usize, usize),
)
    requires
        nowhere(ctx, name, whole),
        table_calm(t0, name, whole, w.t),
    ensures
        table_calm(t0, name, whole, placed(ctx, w, at).t),
        placed(ctx, w, at).t.len() == w.t.len(),
{
    if has_place(w.t, at) {
        let here = w.t[at.0 as int].name;
        let copies = w.t[at.0 as int].shards[at.1 as int];
        let c = copies[at.2 as int];
        let after = placed(ctx, w, at);
        let data = ctx.data_nodes();
        let i = find(data, keeps(ctx, w.t, c, here, at.1 as u32));
        lemma_found(data, keeps(ctx, w.t, c, here, at.1 as u32));
        lemma_best(ctx, w.t, c, ranking(ctx, w.t, here), 0);
        if after.t != w.t {
            let now = after.t[at.0 as int].shards[at.1 as int];
            assert(now =~= copies.update(at.2 as int, now[at.2 as int]));
            if here == name {
                assert(entry_calm(t0, whole, w.t[at.0 as int]));
                assert(all_calm(t0, name, whole, at.1 as int, copies));
                assert(calm(t0, name, whole, at.1 as int, copies[at.2 as int]));
                if whole || !c.primary {
                    assert(forall|node: NodeV|
                        worst(#[trigger] may_allocate(ctx, w.t, c, node)) != Decision::Yes);
                }
                let d = now[at.2 as int];
                if d.allocation_id == c.allocation_id && d.node == c.node {
                    lemma_same_filling(t0, name, c, d);
                }
                assert(calm(t0, name, whole, at.1 as int, d));
                assert forall|k: int| 0 <= k < now.len() implies calm(
                    t0,
                    name,
                    whole,
                    at.1 as int,
                    #[trigger] now[k],
                ) by {
                    if k != at.2 {
                        assert(now[k] == copies[k]);
                    }
                }
            }
            lemma_put(t0, name, whole, w.t, at.0 as int, at.1 as int, now);
        }
    }
}

proof fn lemma_placed_all(
    t0: Seq<IndexV>,
    name: Seq<char>,
    whole: bool,
    ctx: CtxV,
    w: WorkV,
    list: Seq<(usize, usize, usize)>,
    n: nat,
)
    requires
        nowhere(ctx, name, whole),
        table_calm(t0, name, whole, w.t),
    ensures
        table_calm(t0, name, whole, placed_all(ctx, w, list, n).t),
        placed_all(ctx, w, list, n).t.len() == w.t.len(),
    decreases n,
{
    if n > 0 {
        lemma_placed_all(t0, name, whole, ctx, w, list, (n - 1) as nat);
        lemma_placed(
            t0,
            name,
            whole,
            ctx,
            placed_all(ctx, w, list, (n - 1) as nat),
            list[n - 1],
        );
    }
}

// ---- what is moved -------------------------------------------------------------

proof fn lemma_sent(
    t0: Seq<IndexV>,
    name: Seq<char>,
    whole: bool,
    w: WorkV,
    i: int,
    copy: CopyV,
    from: Seq<char>,
    to: Seq<char>,
)
    requires
        0 <= i < w.t.len(),
        table_calm(t0, name, whole, w.t),
        w.t[i].name == name ==> !whole && copy.primary,
    ensures
        table_calm(t0, name, whole, sent(w, i, copy, from, to).t),
        sent(w, i, copy, from, to).t.len() == w.t.len(),
        sent(w, i, copy, from, to).t[i].name == w.t[i].name,
{
    if copy.shard < w.t[i].shards.len() {
        let copies = w.t[i].shards[copy.shard as int];
        let pos = find(copies, has_id(copy.allocation_id));
        lemma_found(copies, has_id(copy.allocation_id));
        if pos < copies.len() {
            let now = moved(
                copies,
                pos,
                w.t[i].name,
                copy.shard,
                copy.primary,
                from,
                to,
                w.ids.id(),
            );
            if w.t[i].name == name {
                assert(entry_calm(t0, whole, w.t[i]));
                assert(all_calm(t0, name, whole, copy.shard as int, copies));
                assert forall|k: int| 0 <= k < now.len() implies calm(
                    t0,
                    name,
                    whole,
                    copy.shard as int,
                    #[trigger] now[k],
                ) by {
                    if k < copies.len() {
                        assert(calm(t0, name, whole, copy.shard as int, copies[k]));
                    }
                }
            }
            lemma_put(t0, name, whole, w.t, i, copy.shard as int, now);
        }
    }
}

proof fn lemma_in_flat(s: Seq<Seq<CopyV>>, x: CopyV) -> (r: (int, int))
    requires
        flat(s).contains(x),
    ensures
        0 <= r.0 < s.len(),
        0 <= r.1 < s[r.0].len(),
        s[r.0][r.1] == x,
    decreases s.len(),
{
    let before = flat(s.drop_last());
    let at = flat(s).index_of(x);
    if at < before.len() {
        assert(before[at] == x);
        lemma_in_flat(s.drop_last(), x)
    } else {
        (s.len() - 1, at - before.len())
    }
}

proof fn lemma_freed(
    t0: Seq<IndexV>,
    name: Seq<char>,
    whole: bool,
    ctx: CtxV,
    w: WorkV,
    i: int,
    copy: CopyV,
)
    requires
        nowhere(ctx, name, whole),
        0 <= i < w.t.len(),
        table_calm(t0, name, whole, w.t),
        copy.index == w.t[i].name,
    ensures
        table_calm(t0, name, whole, freed(ctx, w, i, copy).t),
        freed(ctx, w, i, copy).t.len() == w.t.len(),
        freed(ctx, w, i, copy).t[i].name == w.t[i].name,
{
    match copy.node {
        None => {},
        Some(from) => {
            let r = ranking(ctx, w.t, w.t[i].name);
            let k = find(r, takes(ctx, w.t, copy, from));
            lemma_found(r, takes(ctx, w.t, copy, from));
            if k < r.len() {
                assert(worst(may_allocate(ctx, w.t, copy, r[k].node)) == Decision::Yes);
                lemma_sent(t0, name, whole, w, i, copy, from, r[k].node.id);
            }
        },
    }
}

proof fn lemma_freed_all(
    t0: Seq<IndexV>,
    name: Seq<char>,
    whole: bool,
    ctx: CtxV,
    w: WorkV,
    i: int,
    stuck: Seq<CopyV>,
    n: nat,
)
    requires
        nowhere(ctx, name, whole),
        n <= stuck.len(),
        0 <= i < w.t.len(),
        table_calm(t0, name, whole, w.t),
        w.t[i].name == name ==> forall|k: int|
            0 <= k < stuck.len() ==> (#[trigger] stuck[k]).index == name,
    ensures
        table_calm(t0, name, whole, freed_all(ctx, w, i, stuck, n).t),
        freed_all(ctx, w, i, stuck, n).t.len() == w.t.len(),
        freed_all(ctx, w, i, stuck, n).t[i].name == w.t[i].name,
    decreases n,
{
    if n > 0 {
        lemma_freed_all(t0, name, whole, ctx, w, i, stuck, (n - 1) as nat);
        let before = freed_all(ctx, w, i, stuck, (n - 1) as nat);
        let copy = stuck[n - 1];
        if before.t[i].name == name {
            lemma_freed(t0, name, whole, ctx, before, i, copy);
        } else {
            lemma_freed_elsewhere(t0, name, whole, ctx, before, i, copy);
        }
    }
}

proof fn lemma_freed_elsewhere(
    t0: Seq<IndexV>,
    name: Seq<char>,
    whole: bool,
    ctx: CtxV,
    w: WorkV,
    i: int,
    copy: CopyV,
)
    requires
        0 <= i < w.t.len(),
        table_calm(t0, name, whole, w.t),
        w.t[i].name != name,
    ensures
        table_calm(t0, name, whole, freed(ctx, w, i, copy).t),
        freed(ctx, w, i, copy).t.len() == w.t.len(),
        freed(ctx, w, i, copy).t[i].name == w.t[i].name,
{
    match copy.node {
        None => {},
        Some(from) => {
            let r = ranking(ctx, w.t, w.t[i].name);
            let k = find(r, takes(ctx, w.t, copy, from));
            if k < r.len() {
                lemma_sent(t0, name, whole, w, i, copy, from, r[k].node.id);
            }
        },
    }
}

proof fn lemma_unstuck(t0: Seq<IndexV>, name: Seq<char>, whole: bool, ctx: CtxV, w: WorkV, n: nat)
    requires
        nowhere(ctx, name, whole),
        n <= w.t.len(),
        table_calm(t0, name, whole, w.t),
    ensures
        table_calm(t0, name, whole, unstuck(ctx, w, n).t),
        unstuck(ctx, w, n).t.len() == w.t.len(),
    decreases n,
{
    if n > 0 {
        lemma_unstuck(t0, name, whole, ctx, w, (n - 1) as nat);
        let before = unstuck(ctx, w, (n - 1) as nat);
        let i = n - 1;
        let stuck = stuck_of(ctx, before.t, i);
        if before.t[i].name == name {
            let mine = shards_of(before.t, name);
            let p = place(before.t, name);
            lemma_keep(mine, is_stuck(ctx, before.t));
            lemma_found(before.t, named(name));
            assert forall|k: int| 0 <= k < stuck.len() implies (#[trigger] stuck[k]).index
                == name by {
                assert(mine.contains(stuck[k]));
                let (s, j) = lemma_in_flat(before.t[p].shards, stuck[k]);
                assert(entry_calm(t0, whole, before.t[p]));
                assert(all_calm(t0, name, whole, s, before.t[p].shards[s]));
                assert(calm(t0, name, whole, s, before.t[p].shards[s][j]));
            }
        }
        lemma_freed_all(t0, name, whole, ctx, before, i, stuck, stuck.len());
    }
}

proof fn lemma_pick(ctx: CtxV, t: Seq<IndexV>, name: Seq<char>, r: Seq<RankedV>, h: nat)
    ensures
        pick(ctx, t, name, r, h) matches Some((copy, heavy)) ==> copy.index == name && worst(
            may_allocate(ctx, t, copy, r[0].node),
        ) == Decision::Yes,
    decreases h,
{
    if 0 < h <= r.len() {
        lemma_pick(ctx, t, name, r, (h - 1) as nat);
        let here = keep(on_node(t, r[h - 1].node.id), started_of(name));
        lemma_found(here, may_go(ctx, t, r[0].node));
        lemma_keep(on_node(t, r[h - 1].node.id), started_of(name));
    }
}

proof fn lemma_rebalanced(
    t0: Seq<IndexV>,
    name: Seq<char>,
    whole: bool,
    ctx: CtxV,
    w: WorkV,
    n: nat,
)
    requires
        nowhere(ctx, name, whole),
        n <= w.t.len(),
        table_calm(t0, name, whole, w.t),
    ensures
        table_calm(t0, name, whole, rebalanced(ctx, w, n).t),
        rebalanced(ctx, w, n).t.len() == w.t.len(),
    decreases n,
{
    if n > 0 {
        lemma_rebalanced(t0, name, whole, ctx, w, (n - 1) as nat);
        let before = rebalanced(ctx, w, (n - 1) as nat);
        let i = n - 1;
        let here = before.t[i].name;
        let r = ranking(ctx, before.t, here);
        if r.len() >= 2 {
            lemma_pick(ctx, before.t, here, r, r.len());
            match pick(ctx, before.t, here, r, r.len()) {
                Some((copy, heavy)) => {
                    assert(worst(may_allocate(ctx, before.t, copy, r[0].node)) == Decision::Yes);
                    lemma_sent(t0, name, whole, before, i, copy, heavy.id, r[0].node.id);
                },
                None => {},
            }
        }
    }
}

// ---- what it comes to ----------------------------------------------------------

/// Where no node takes a copy of an index, or none of its replicas, no such copy
/// of its first shard is being filled after a reroute that was not being filled
/// before it, on the same node: what waits for a place goes on waiting, and
/// nothing is moved.
pub proof fn law_what_no_node_takes_is_not_placed(
    ctx: CtxV,
    t: Seq<IndexV>,
    ids: IdsV,
    name: Seq<char>,
    whole: bool,
    i: int,
    k: int,
)
    requires
        well_filed(t),
        nowhere(ctx, name, whole),
        0 <= i < rerouted(ctx, t, ids).t.len(),
        rerouted(ctx, t, ids).t[i].name == name,
        rerouted(ctx, t, ids).t[i].shards.len() > 0,
        0 <= k < rerouted(ctx, t, ids).t[i].shards[0].len(),
    ensures
        ({
            let c = rerouted(ctx, t, ids).t[i].shards[0][k];
            c.state == ShardState::Initializing && (whole || !c.primary) ==> was_filling(t, name, c)
        }),
{
    assert(table_calm(t, name, whole, t)) by {
        assert forall|a: int| 0 <= a < t.len() && (#[trigger] t[a]).name == name implies entry_calm(
            t,
            whole,
            t[a],
        ) by {
            assert forall|s: int| 0 <= s < t[a].shards.len() implies all_calm(
                t,
                name,
                whole,
                s,
                #[trigger] t[a].shards[s],
            ) by {
                assert forall|b: int| 0 <= b < t[a].shards[s].len() implies calm(
                    t,
                    name,
                    whole,
                    s,
                    #[trigger] t[a].shards[s][b],
                ) by {
                    if s == 0 && t[a].shards[s][b].state == ShardState::Initializing {
                        assert(fills_at(t, name, t[a].shards[s][b], a, b));
                    }
                }
            }
        }
    }
    let start = begun(ctx, t, ids);
    lemma_synced(t, name, whole, ctx, ids, ctx.indices.len());
    lemma_departed(t, name, whole, ctx, start, start.t.len());
    let gone = departed(ctx, start, start.t.len());
    let primaries = pending(gone.t, true, gone.t.len());
    lemma_placed_all(t, name, whole, ctx, gone, primaries, primaries.len());
    let half = placed_kind(ctx, gone, true);
    let replicas = pending(half.t, false, half.t.len());
    lemma_placed_all(t, name, whole, ctx, half, replicas, replicas.len());
    let settled = allocated(ctx, gone);
    lemma_unstuck(t, name, whole, ctx, settled, settled.t.len());
    let free = unstuck(ctx, settled, settled.t.len());
    lemma_rebalanced(t, name, whole, ctx, free, free.t.len());
    let done = rebalanced(ctx, free, free.t.len());
    law_every_shard_sits_where_the_first_one_sits(done);
    assert(done.t[i].name == name);
    assert(entry_calm(t, whole, done.t[i]));
    assert(all_calm(t, name, whole, 0, done.t[i].shards[0]));
    assert(calm(t, name, whole, 0, done.t[i].shards[0][k]));
}

} // verus!
