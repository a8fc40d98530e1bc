//! No two copies of a shard are ever on one node.

use vstd::prelude::*;

use super::deciders::{law_a_node_that_is_not_refused, may_allocate, twin_on, worst, Decision};
use super::departures::{
    called_off, departed, departed_shard, departed_shards, eligible, in_sync_of, is_lost_primary,
    lose, losses, lost, not_orphan, succeeded, without_orphans, LeftV,
};
use super::follow::{alike, followed, followed_all, followed_shards, law_every_shard_sits_where_the_first_one_sits, together};
use super::moves::{
    freed, freed_all, has_id, is_stuck, lightened, pick, rebalanced, sent, started_of, stuck_of,
    takes, unstuck,
};
use super::placement::{
    best_from, has_place, keeps, pending, placed, placed_all, placed_kind, refused, settled,
    with_copy, with_status,
};
use super::commands::{
    allocate_on, cancel_on, cancelled, commanded, filled_on, forced_on, is_allocate, move_between,
    moved_shards, shard_on, started_on, waiting_as, waiting_in, CommandsV,
};
use super::reports::{
    failed, forgiven_copies, leaves, replica_with_id, stale, started,
};
use super::reroute::{allocated, begun, rerouted, same_shape};
use super::settings::{CtxV, SettingsV};
use super::state::{
    all, named, on_node, place, shards_of, sits_on, CopyV, IdsV, IndexV, MetaV, NodeV, ShardState,
};
use super::sync::{
    drop_replicas, drop_waiting, home_of, is_primary, is_replica, known_shards, last_of,
    new_primary, new_replica, primary_at, synced, synced_shard, synced_shards, with_primary,
    with_replicas,
};
use super::balance::{ranking, RankedV};
use super::work::{arriving, leaving, moved, put_on, with_copies, ChangesV, WorkV};
use crate::list::{any, count, find, flat, keep, lemma_find, lemma_found, lemma_keep, lookup};
use crate::text::{dec, lemma_dec};

verus! {

// ---- ids -----------------------------------------------------------------------

/// One of the ids a source gives.
pub open spec fn id_at(run: Seq<char>, k: nat) -> Seq<char> {
    run + "-"@ + dec(k)
}

proof fn lemma_ids_differ(run: Seq<char>, a: nat, b: nat)
    requires
        a != b,
    ensures
        id_at(run, a) != id_at(run, b),
{
    if id_at(run, a) == id_at(run, b) {
        let h = run + "-"@;
        assert(id_at(run, a).skip(h.len() as int) =~= dec(a));
        assert(id_at(run, b).skip(h.len() as int) =~= dec(b));
        lemma_dec(a, b);
    }
}

/// Whether a copy's id is none that is still to come.
pub open spec fn is_past(c: CopyV, ids: IdsV) -> bool {
    c.allocation_id is Some ==> forall|k: nat|
        k >= ids.next ==> c.allocation_id->0 != #[trigger] id_at(ids.run, k)
}

/// Whether a source of ids comes after another.
pub open spec fn later_ids(a: IdsV, b: IdsV) -> bool {
    a.run == b.run && a.next <= b.next
}

// ---- copies that are apart -----------------------------------------------------

/// Whether two copies have ids of their own, and are on nodes of their own.
pub open spec fn differ(a: CopyV, b: CopyV) -> bool {
    &&& a.allocation_id is Some ==> a.allocation_id != b.allocation_id
    &&& a.state != ShardState::Unassigned && b.state != ShardState::Unassigned && a.node is Some
        ==> a.node != b.node
}

/// Whether a copy is one of a shard, with a node and an id where it has a place.
pub open spec fn is_sound(c: CopyV, name: Seq<char>, s: int, ids: IdsV) -> bool {
    &&& c.index == name
    &&& c.shard == s
    &&& c.state != ShardState::Unassigned ==> c.allocation_id is Some && c.node is Some
    &&& is_past(c, ids)
}

/// Whether the copies of a shard are its own, and apart.
pub open spec fn shard_sound(copies: Seq<CopyV>, name: Seq<char>, s: int, ids: IdsV) -> bool {
    &&& forall|k: int| 0 <= k < copies.len() ==> is_sound(#[trigger] copies[k], name, s, ids)
    &&& forall|j: int, k: int|
        0 <= j < copies.len() && 0 <= k < copies.len() && j != k ==> differ(
            #[trigger] copies[j],
            #[trigger] copies[k],
        )
}

/// Whether every shard of a table is sound, and no index is in it twice.
pub open spec fn table_sound(t: Seq<IndexV>, ids: IdsV) -> bool {
    &&& forall|i: int, j: int|
        0 <= i < t.len() && 0 <= j < t.len() && i != j ==> (#[trigger] t[i]).name != (
        #[trigger] t[j]).name
    &&& forall|i: int, s: int|
        #![trigger t[i].shards[s]]
        0 <= i < t.len() && 0 <= s < t[i].shards.len() ==> shard_sound(
            t[i].shards[s],
            t[i].name,
            s,
            ids,
        )
}

proof fn lemma_past_later(c: CopyV, a: IdsV, b: IdsV)
    requires
        is_past(c, a),
        later_ids(a, b),
    ensures
        is_past(c, b),
{
    if c.allocation_id is Some {
        assert forall|k: nat| k >= b.next implies c.allocation_id->0 != #[trigger] id_at(
            b.run,
            k,
        ) by {
            assert(c.allocation_id->0 != id_at(a.run, k));
        }
    }
}

proof fn lemma_shard_later(copies: Seq<CopyV>, name: Seq<char>, s: int, a: IdsV, b: IdsV)
    requires
        shard_sound(copies, name, s, a),
        later_ids(a, b),
    ensures
        shard_sound(copies, name, s, b),
{
    assert forall|k: int| 0 <= k < copies.len() implies is_sound(
        #[trigger] copies[k],
        name,
        s,
        b,
    ) by {
        lemma_past_later(copies[k], a, b);
    }
}

proof fn lemma_table_later(t: Seq<IndexV>, a: IdsV, b: IdsV)
    requires
        table_sound(t, a),
        later_ids(a, b),
    ensures
        table_sound(t, b),
{
    assert forall|i: int, s: int|
        #![trigger t[i].shards[s]]
        0 <= i < t.len() && 0 <= s < t[i].shards.len() implies shard_sound(
        t[i].shards[s],
        t[i].name,
        s,
        b,
    ) by {
        lemma_shard_later(t[i].shards[s], t[i].name, s, a, b);
    }
}

/// The id that is taken is no copy's, and is past once it has been taken.
proof fn lemma_taken(c: CopyV, ids: IdsV)
    requires
        is_past(c, ids),
        ids.next < u64::MAX,
    ensures
        c.allocation_id != Some(ids.id()),
        is_past(c, ids.taken()),
{
    assert(ids.id() == id_at(ids.run, ids.next as nat));
    lemma_past_later(c, ids, ids.taken());
}

proof fn lemma_new_is_past(c: CopyV, ids: IdsV)
    requires
        ids.next < u64::MAX,
        c.allocation_id == Some(ids.id()),
    ensures
        is_past(c, ids.taken()),
{
    assert forall|k: nat| k >= ids.taken().next implies c.allocation_id->0 != #[trigger] id_at(
        ids.run,
        k,
    ) by {
        lemma_ids_differ(ids.run, ids.next as nat, k);
        assert(ids.id() == id_at(ids.run, ids.next as nat));
    }
}

// ---- what keeps copies apart ---------------------------------------------------

/// Whether a copy has no id and no place but another's.
pub open spec fn no_more_than(a: CopyV, b: CopyV) -> bool {
    &&& a.index == b.index
    &&& a.shard == b.shard
    &&& a.allocation_id is None || a.allocation_id == b.allocation_id
    &&& a.state == ShardState::Unassigned || (b.state != ShardState::Unassigned && a.node == b.node
        && a.allocation_id == b.allocation_id)
}

proof fn lemma_no_more(a: Seq<CopyV>, b: Seq<CopyV>, name: Seq<char>, s: int, ids: IdsV)
    requires
        a.len() == b.len(),
        shard_sound(b, name, s, ids),
        forall|k: int| 0 <= k < a.len() ==> no_more_than(#[trigger] a[k], b[k]),
    ensures
        shard_sound(a, name, s, ids),
{
    assert forall|k: int| 0 <= k < a.len() implies is_sound(#[trigger] a[k], name, s, ids) by {
        assert(no_more_than(a[k], b[k]));
        assert(is_sound(b[k], name, s, ids));
    }
    assert forall|j: int, k: int| 0 <= j < a.len() && 0 <= k < a.len() && j != k implies differ(
        #[trigger] a[j],
        #[trigger] a[k],
    ) by {
        assert(no_more_than(a[j], b[j]) && no_more_than(a[k], b[k]));
        assert(differ(b[j], b[k]));
    }
}

proof fn lemma_one_no_more(
    copies: Seq<CopyV>,
    k: int,
    c: CopyV,
    name: Seq<char>,
    s: int,
    ids: IdsV,
)
    requires
        0 <= k < copies.len(),
        no_more_than(c, copies[k]),
        shard_sound(copies, name, s, ids),
    ensures
        shard_sound(copies.update(k, c), name, s, ids),
{
    let a = copies.update(k, c);
    assert forall|j: int| 0 <= j < a.len() implies no_more_than(#[trigger] a[j], copies[j]) by {}
    lemma_no_more(a, copies, name, s, ids);
}

proof fn lemma_keep_sound(
    copies: Seq<CopyV>,
    p: spec_fn(CopyV) -> bool,
    name: Seq<char>,
    s: int,
    ids: IdsV,
)
    requires
        shard_sound(copies, name, s, ids),
    ensures
        shard_sound(keep(copies, p), name, s, ids),
    decreases copies.len(),
{
    if copies.len() > 0 {
        let d = copies.drop_last();
        lemma_remove_last(copies, name, s, ids);
        lemma_keep_sound(d, p, name, s, ids);
        if p(copies.last()) {
            let kept = keep(d, p);
            lemma_keep(d, p);
            assert forall|j: int| 0 <= j < kept.len() implies differ(
                #[trigger] kept[j],
                copies.last(),
            ) && differ(copies.last(), kept[j]) by {
                let k = d.index_of(kept[j]);
                assert(d.contains(kept[j]));
                assert(copies[k] == kept[j]);
                assert(differ(copies[k], copies[copies.len() - 1]));
                assert(differ(copies[copies.len() - 1], copies[k]));
            }
            assert(is_sound(copies[copies.len() - 1], name, s, ids));
            lemma_push_sound(kept, copies.last(), name, s, ids);
        }
    }
}

proof fn lemma_remove_last(copies: Seq<CopyV>, name: Seq<char>, s: int, ids: IdsV)
    requires
        copies.len() > 0,
        shard_sound(copies, name, s, ids),
    ensures
        shard_sound(copies.drop_last(), name, s, ids),
{
    let d = copies.drop_last();
    assert forall|k: int| 0 <= k < d.len() implies is_sound(#[trigger] d[k], name, s, ids) by {
        assert(d[k] == copies[k]);
    }
    assert forall|j: int, k: int| 0 <= j < d.len() && 0 <= k < d.len() && j != k implies differ(
        #[trigger] d[j],
        #[trigger] d[k],
    ) by {
        assert(differ(copies[j], copies[k]));
    }
}

proof fn lemma_push_sound(copies: Seq<CopyV>, c: CopyV, name: Seq<char>, s: int, ids: IdsV)
    requires
        shard_sound(copies, name, s, ids),
        is_sound(c, name, s, ids),
        forall|j: int| 0 <= j < copies.len() ==> differ(#[trigger] copies[j], c) && differ(c, copies[j]),
    ensures
        shard_sound(copies.push(c), name, s, ids),
{
    let a = copies.push(c);
    assert forall|k: int| 0 <= k < a.len() implies is_sound(#[trigger] a[k], name, s, ids) by {
        if k < copies.len() {
            assert(a[k] == copies[k]);
        }
    }
    assert forall|j: int, k: int| 0 <= j < a.len() && 0 <= k < a.len() && j != k implies differ(
        #[trigger] a[j],
        #[trigger] a[k],
    ) by {
        if j < copies.len() {
            assert(a[j] == copies[j]);
        }
        if k < copies.len() {
            assert(a[k] == copies[k]);
        }
    }
}

proof fn lemma_remove_sound(copies: Seq<CopyV>, at: int, name: Seq<char>, s: int, ids: IdsV)
    requires
        0 <= at < copies.len(),
        shard_sound(copies, name, s, ids),
    ensures
        shard_sound(copies.remove(at), name, s, ids),
{
    let a = copies.remove(at);
    assert forall|k: int| 0 <= k < a.len() implies is_sound(#[trigger] a[k], name, s, ids) by {
        let x = if k < at {
            k
        } else {
            k + 1
        };
        assert(a[k] == copies[x]);
    }
    assert forall|j: int, k: int| 0 <= j < a.len() && 0 <= k < a.len() && j != k implies differ(
        #[trigger] a[j],
        #[trigger] a[k],
    ) by {
        let x = if j < at {
            j
        } else {
            j + 1
        };
        let y = if k < at {
            k
        } else {
            k + 1
        };
        assert(a[j] == copies[x] && a[k] == copies[y]);
        assert(differ(copies[x], copies[y]));
    }
}

proof fn lemma_insert_first(copies: Seq<CopyV>, c: CopyV, name: Seq<char>, s: int, ids: IdsV)
    requires
        shard_sound(copies, name, s, ids),
        is_sound(c, name, s, ids),
        forall|j: int| 0 <= j < copies.len() ==> differ(#[trigger] copies[j], c) && differ(c, copies[j]),
    ensures
        shard_sound(copies.insert(0, c), name, s, ids),
{
    let a = copies.insert(0, c);
    assert forall|k: int| 0 <= k < a.len() implies is_sound(#[trigger] a[k], name, s, ids) by {
        if k > 0 {
            assert(a[k] == copies[k - 1]);
        }
    }
    assert forall|j: int, k: int| 0 <= j < a.len() && 0 <= k < a.len() && j != k implies differ(
        #[trigger] a[j],
        #[trigger] a[k],
    ) by {
        if j > 0 {
            assert(a[j] == copies[j - 1]);
        }
        if k > 0 {
            assert(a[k] == copies[k - 1]);
        }
    }
}

proof fn lemma_swap_sound(copies: Seq<CopyV>, i: int, j: int, name: Seq<char>, s: int, ids: IdsV)
    requires
        0 <= i < copies.len(),
        0 <= j < copies.len(),
        shard_sound(copies, name, s, ids),
    ensures
        shard_sound(super::departures::swapped(copies, i, j), name, s, ids),
{
    let a = super::departures::swapped(copies, i, j);
    assert forall|k: int| 0 <= k < a.len() implies is_sound(#[trigger] a[k], name, s, ids) by {
        let x = if k == j {
            i
        } else if k == i {
            j
        } else {
            k
        };
        assert(a[k] == copies[x]);
    }
    assert forall|h: int, k: int| 0 <= h < a.len() && 0 <= k < a.len() && h != k implies differ(
        #[trigger] a[h],
        #[trigger] a[k],
    ) by {
        let x = if h == j {
            i
        } else if h == i {
            j
        } else {
            h
        };
        let y = if k == j {
            i
        } else if k == i {
            j
        } else {
            k
        };
        assert(a[h] == copies[x] && a[k] == copies[y]);
        assert(differ(copies[x], copies[y]));
    }
}

/// A table stays sound when the copies of one of its shards are put in the
/// place of others that are.
proof fn lemma_with_copies_sound(t: Seq<IndexV>, i: int, s: int, copies: Seq<CopyV>, ids: IdsV)
    requires
        0 <= i < t.len(),
        0 <= s < t[i].shards.len(),
        table_sound(t, ids),
        shard_sound(copies, t[i].name, s, ids),
    ensures
        table_sound(with_copies(t, i, s, copies), ids),
{
    let u = with_copies(t, i, s, copies);
    assert forall|a: int, b: int|
        0 <= a < u.len() && 0 <= b < u.len() && a != b implies (#[trigger] u[a]).name != (
    #[trigger] u[b]).name by {
        assert(u[a].name == t[a].name && u[b].name == t[b].name);
        assert(t[a].name != t[b].name);
    }
    assert forall|a: int, b: int|
        #![trigger u[a].shards[b]]
        0 <= a < u.len() && 0 <= b < u[a].shards.len() implies shard_sound(
        u[a].shards[b],
        u[a].name,
        b,
        ids,
    ) by {
        if a == i {
            if b != s {
                assert(u[a].shards[b] == t[i].shards[b]);
            }
        } else {
            assert(u[a] == t[a]);
            assert(shard_sound(t[a].shards[b], t[a].name, b, ids));
        }
    }
}

// ---- where a copy is in a table ------------------------------------------------

proof fn lemma_in_flat(s: Seq<Seq<CopyV>>, i: int, k: int)
    requires
        0 <= i < s.len(),
        0 <= k < s[i].len(),
    ensures
        flat(s).contains(s[i][k]),
    decreases s.len(),
{
    let before = flat(s.drop_last());
    if i == s.len() - 1 {
        assert(flat(s)[before.len() + k] == s[i][k]);
    } else {
        lemma_in_flat(s.drop_last(), i, k);
        let j = before.index_of(s[i][k]);
        assert(flat(s)[j] == s[i][k]);
    }
}

proof fn lemma_from_flat(s: Seq<Seq<CopyV>>, x: CopyV) -> (r: (int, int))
    requires
        flat(s).contains(x),
    ensures
        0 <= r.0 < s.len(),
        0 <= r.1 < s[r.0].len(),
        s[r.0][r.1] == x,
    decreases s.len(),
{
    let before = flat(s.drop_last());
    let j = flat(s).index_of(x);
    if j < before.len() {
        assert(before[j] == x);
        lemma_from_flat(s.drop_last(), x)
    } else {
        assert(s.last()[j - before.len()] == x);
        (s.len() - 1, j - before.len())
    }
}

proof fn lemma_from_all(t: Seq<IndexV>, x: CopyV) -> (r: (int, int, int))
    requires
        all(t).contains(x),
    ensures
        0 <= r.0 < t.len(),
        0 <= r.1 < t[r.0].shards.len(),
        0 <= r.2 < t[r.0].shards[r.1].len(),
        t[r.0].shards[r.1][r.2] == x,
    decreases t.len(),
{
    let before = all(t.drop_last());
    let j = all(t).index_of(x);
    if j < before.len() {
        assert(before[j] == x);
        lemma_from_all(t.drop_last(), x)
    } else {
        let f = flat(t.last().shards);
        assert(f[j - before.len()] == x);
        let (a, b) = lemma_from_flat(t.last().shards, x);
        (t.len() - 1, a, b)
    }
}

/// An index of a sound table is found where it is.
proof fn lemma_place(t: Seq<IndexV>, i: int, ids: IdsV)
    requires
        table_sound(t, ids),
        0 <= i < t.len(),
    ensures
        place(t, t[i].name) == i,
{
    let p = named(t[i].name);
    assert forall|j: int| 0 <= j < i implies !p(#[trigger] t[j]) by {
        assert(t[j].name != t[i].name);
    }
    lemma_find(t, p, i);
}

/// A node that takes a copy of a shard holds no other copy of it that is on a
/// node, where no other copy has its id.
proof fn lemma_free(
    ctx: CtxV,
    t: Seq<IndexV>,
    ids: IdsV,
    i: int,
    s: int,
    c: CopyV,
    node: NodeV,
    k: int,
)
    requires
        table_sound(t, ids),
        0 <= i < t.len(),
        0 <= s < t[i].shards.len(),
        0 <= k < t[i].shards[s].len(),
        c.index == t[i].name,
        c.shard == s,
        worst(may_allocate(ctx, t, c, node)) != Decision::No,
        t[i].shards[s][k].allocation_id != c.allocation_id,
        t[i].shards[s][k].state != ShardState::Unassigned,
    ensures
        t[i].shards[s][k].node != Some(node.id),
{
    law_a_node_that_is_not_refused(ctx, t, c, node);
    lemma_place(t, i, ids);
    let x = t[i].shards[s][k];
    lemma_in_flat(t[i].shards, s, k);
    let j = flat(t[i].shards).index_of(x);
    assert(shards_of(t, c.index)[j] == x);
    assert(!(twin_on(c, node.id))(shards_of(t, c.index)[j]));
    assert(is_sound(x, t[i].name, s, ids));
}

// ---- bringing the table up to the indices --------------------------------------

/// Whether no index's home holds a copy of a shard whose primary would start
/// there because documents are there.
pub open spec fn homes_free(ctx: CtxV, t: Seq<IndexV>) -> bool {
    forall|i: int, s: int, k: int|
        #![trigger t[i].shards[s][k]]
        0 <= i < t.len() && 0 <= s < t[i].shards.len() && 0 <= k < t[i].shards[s].len()
            && ctx.home_holds_documents.contains(t[i].name) && !any(
            t[i].shards[s],
            is_primary(),
        ) && t[i].shards[s][k].state != ShardState::Unassigned ==> t[i].shards[s][k].node != lookup(
            ctx.primary_home,
            t[i].name,
        )
}

proof fn lemma_with_primary(
    ctx: CtxV,
    t: Seq<IndexV>,
    from: IdsV,
    ids: IdsV,
    m: MetaV,
    shard: u32,
    copies: Seq<CopyV>,
)
    requires
        table_sound(t, from),
        homes_free(ctx, t),
        later_ids(from, ids),
        copies.len() == 0 || (place(t, m.name) < t.len() && shard < t[place(
            t,
            m.name,
        )].shards.len() && copies == t[place(t, m.name)].shards[shard as int]),
        with_primary(ctx, t, ids, m, shard, copies).1.next < u64::MAX,
    ensures
        later_ids(ids, with_primary(ctx, t, ids, m, shard, copies).1),
        shard_sound(
            with_primary(ctx, t, ids, m, shard, copies).0,
            m.name,
            shard as int,
            with_primary(ctx, t, ids, m, shard, copies).1,
        ),
{
    let i = place(t, m.name);
    lemma_found(t, named(m.name));
    if copies.len() > 0 {
        assert(t[i].name == m.name);
        assert(shard_sound(t[i].shards[shard as int], t[i].name, shard as int, from));
        lemma_shard_later(copies, m.name, shard as int, from, ids);
    }
    assert(shard_sound(copies, m.name, shard as int, ids));
    if !any(copies, is_primary()) {
        match home_of(ctx, t, m, shard) {
            None => {
                let c = new_primary(m, shard, ctx.now);
                assert forall|j: int| 0 <= j < copies.len() implies differ(
                    #[trigger] copies[j],
                    c,
                ) && differ(c, copies[j]) by {}
                lemma_insert_first(copies, c, m.name, shard as int, ids);
            },
            Some(home) => {
                let c = primary_at(m, shard, home, ids.id());
                let next = ids.taken();
                assert(ids.next < u64::MAX);
                lemma_new_is_past(c, ids);
                lemma_shard_later(copies, m.name, shard as int, ids, next);
                assert forall|j: int| 0 <= j < copies.len() implies differ(
                    #[trigger] copies[j],
                    c,
                ) && differ(c, copies[j]) by {
                    assert(is_sound(copies[j], m.name, shard as int, ids));
                    lemma_taken(copies[j], ids);
                    if copies[j].state != ShardState::Unassigned {
                        lemma_home_free(ctx, t, from, m, shard, j);
                    }
                }
                lemma_insert_first(copies, c, m.name, shard as int, next);
            },
        }
    }
}

proof fn lemma_home_free(
    ctx: CtxV,
    t: Seq<IndexV>,
    ids: IdsV,
    m: MetaV,
    shard: u32,
    j: int,
)
    requires
        table_sound(t, ids),
        homes_free(ctx, t),
        0 <= place(t, m.name) < t.len(),
        t[place(t, m.name)].name == m.name,
        shard < t[place(t, m.name)].shards.len(),
        0 <= j < t[place(t, m.name)].shards[shard as int].len(),
        !any(t[place(t, m.name)].shards[shard as int], is_primary()),
        t[place(t, m.name)].shards[shard as int][j].state != ShardState::Unassigned,
        home_of(ctx, t, m, shard) is Some,
    ensures
        t[place(t, m.name)].shards[shard as int][j].node != home_of(ctx, t, m, shard),
{
    let i = place(t, m.name);
    let x = t[i].shards[shard as int][j];
    let home = lookup(ctx.primary_home, m.name)->0;
    let node = ctx.node(home)->0;
    lemma_found(ctx.nodes, super::settings::with_node_id(home));
    assert(node.id == home);
    assert(shard_sound(t[i].shards[shard as int], t[i].name, shard as int, ids));
    assert(is_sound(x, m.name, shard as int, ids));
    if ctx.home_holds_documents.contains(m.name) {
        assert(t[i].shards[shard as int][j].node != lookup(ctx.primary_home, t[i].name));
    } else {
        let c = new_primary(m, shard, ctx.now);
        lemma_free(ctx, t, ids, i, shard as int, c, node, j);
    }
}

proof fn lemma_new_replicas(
    copies: Seq<CopyV>,
    m: MetaV,
    shard: u32,
    now: u64,
    fresh: bool,
    n: nat,
    ids: IdsV,
)
    requires
        shard_sound(copies, m.name, shard as int, ids),
    ensures
        shard_sound(
            copies + Seq::new(n, |i: int| new_replica(m, shard, now, fresh)),
            m.name,
            shard as int,
            ids,
        ),
    decreases n,
{
    let c = new_replica(m, shard, now, fresh);
    let all = copies + Seq::new(n, |i: int| new_replica(m, shard, now, fresh));
    if n == 0 {
        assert(all =~= copies);
    } else {
        lemma_new_replicas(copies, m, shard, now, fresh, (n - 1) as nat, ids);
        let before = copies + Seq::new(
            (n - 1) as nat,
            |i: int| new_replica(m, shard, now, fresh),
        );
        assert(all =~= before.push(c));
        lemma_push_sound(before, c, m.name, shard as int, ids);
    }
}

proof fn lemma_drop_waiting_sound(
    copies: Seq<CopyV>,
    i: nat,
    extra: nat,
    name: Seq<char>,
    s: int,
    ids: IdsV,
)
    requires
        i <= copies.len(),
        shard_sound(copies, name, s, ids),
    ensures
        shard_sound(drop_waiting(copies, i, extra).0, name, s, ids),
    decreases i,
{
    if extra > 0 && i > 0 {
        let k = i - 1;
        if !copies[k].primary && copies[k].state == ShardState::Unassigned {
            lemma_remove_sound(copies, k, name, s, ids);
            lemma_drop_waiting_sound(
                copies.remove(k),
                k as nat,
                (extra - 1) as nat,
                name,
                s,
                ids,
            );
        } else {
            lemma_drop_waiting_sound(copies, k as nat, extra, name, s, ids);
        }
    }
}

proof fn lemma_last_of(s: Seq<CopyV>, p: spec_fn(CopyV) -> bool)
    ensures
        -1 <= last_of(s, p) < s.len(),
    decreases s.len(),
{
    if s.len() > 0 && !p(s.last()) {
        lemma_last_of(s.drop_last(), p);
    }
}

proof fn lemma_drop_replicas_sound(
    copies: Seq<CopyV>,
    extra: nat,
    name: Seq<char>,
    s: int,
    ids: IdsV,
)
    requires
        shard_sound(copies, name, s, ids),
    ensures
        shard_sound(drop_replicas(copies, extra), name, s, ids),
    decreases extra,
{
    if extra > 0 {
        let k = last_of(copies, is_replica());
        lemma_last_of(copies, is_replica());
        if k >= 0 {
            lemma_remove_sound(copies, k, name, s, ids);
            lemma_drop_replicas_sound(copies.remove(k), (extra - 1) as nat, name, s, ids);
        } else {
            lemma_drop_replicas_sound(copies, (extra - 1) as nat, name, s, ids);
        }
    }
}

proof fn lemma_with_replicas_sound(
    m: MetaV,
    shard: u32,
    now: u64,
    copies: Seq<CopyV>,
    fresh: bool,
    ids: IdsV,
)
    requires
        shard_sound(copies, m.name, shard as int, ids),
    ensures
        shard_sound(with_replicas(m, shard, now, copies, fresh), m.name, shard as int, ids),
{
    let have = count(copies, is_replica());
    if have <= m.replicas {
        lemma_new_replicas(
            copies,
            m,
            shard,
            now,
            fresh,
            (m.replicas - have) as nat,
            ids,
        );
    } else {
        let (left, extra) = drop_waiting(copies, copies.len(), (have - m.replicas) as nat);
        lemma_drop_waiting_sound(
            copies,
            copies.len(),
            (have - m.replicas) as nat,
            m.name,
            shard as int,
            ids,
        );
        lemma_drop_replicas_sound(left, extra, m.name, shard as int, ids);
    }
}

proof fn lemma_synced_shards_sound(
    ctx: CtxV,
    t: Seq<IndexV>,
    from: IdsV,
    ids: IdsV,
    m: MetaV,
    n: nat,
)
    requires
        table_sound(t, from),
        homes_free(ctx, t),
        later_ids(from, ids),
        n <= u32::MAX,
        synced_shards(ctx, t, ids, m, known_shards(t, m.name), n).1.next < u64::MAX,
    ensures
        ({
            let (shards, next) = synced_shards(ctx, t, ids, m, known_shards(t, m.name), n);
            &&& later_ids(ids, next)
            &&& shards.len() == n
            &&& forall|s: int|
                0 <= s < n ==> shard_sound(#[trigger] shards[s], m.name, s, next)
        }),
    decreases n,
{
    let old = known_shards(t, m.name);
    if n > 0 {
        let (before, mid) = synced_shards(ctx, t, ids, m, old, (n - 1) as nat);
        let (copies, next) = synced_shard(ctx, t, mid, m, (n - 1) as u32, old);
        let shard = (n - 1) as u32;
        let fresh = shard >= old.len();
        let held = if fresh {
            Seq::empty()
        } else {
            old[shard as int]
        };
        assert(mid.next <= next.next) by {
            let (w, nx) = with_primary(ctx, t, mid, m, shard, held);
            assert(nx.next >= mid.next);
        }
        lemma_synced_shards_sound(ctx, t, from, ids, m, (n - 1) as nat);
        let (with, nx) = with_primary(ctx, t, mid, m, shard, held);
        lemma_found(t, named(m.name));
        lemma_with_primary(ctx, t, from, mid, m, shard, held);
        lemma_with_replicas_sound(m, shard, ctx.now, with, fresh, nx);
        let shards = before.push(copies);
        assert forall|s: int| 0 <= s < n implies shard_sound(
            #[trigger] shards[s],
            m.name,
            s,
            next,
        ) by {
            if s < n - 1 {
                assert(shards[s] == before[s]);
                lemma_shard_later(before[s], m.name, s, mid, next);
            }
        }
    }
}

/// Whether no index is there twice.
pub open spec fn names_differ(indices: Seq<MetaV>) -> bool {
    forall|i: int, j: int|
        0 <= i < indices.len() && 0 <= j < indices.len() && i != j ==> (#[trigger] indices[i]).name
            != (#[trigger] indices[j]).name
}

proof fn lemma_synced_sound(ctx: CtxV, t: Seq<IndexV>, ids: IdsV, n: nat)
    requires
        table_sound(t, ids),
        homes_free(ctx, t),
        names_differ(ctx.indices),
        n <= ctx.indices.len(),
        synced(ctx, t, ids, n).1.next < u64::MAX,
    ensures
        later_ids(ids, synced(ctx, t, ids, n).1),
        table_sound(synced(ctx, t, ids, n).0, synced(ctx, t, ids, n).1),
        synced(ctx, t, ids, n).0.len() == n,
        forall|i: int|
            0 <= i < n ==> (#[trigger] synced(ctx, t, ids, n).0[i]).name == ctx.indices[i].name,
    decreases n,
{
    if n > 0 {
        let (done, mid) = synced(ctx, t, ids, (n - 1) as nat);
        let m = ctx.indices[n - 1];
        let (shards, next) = synced_shards(
            ctx,
            t,
            mid,
            m,
            known_shards(t, m.name),
            m.shards as nat,
        );
        lemma_synced_shards_grow(ctx, t, mid, m, m.shards as nat);
        lemma_synced_sound(ctx, t, ids, (n - 1) as nat);
        lemma_synced_shards_sound(ctx, t, ids, mid, m, m.shards as nat);
        lemma_table_later(done, mid, next);
        let now = done.push(IndexV { name: m.name, shards });
        assert forall|i: int, j: int|
            0 <= i < now.len() && 0 <= j < now.len() && i != j implies (#[trigger] now[i]).name != (
        #[trigger] now[j]).name by {
            assert(now[i].name == ctx.indices[i].name);
            assert(now[j].name == ctx.indices[j].name);
            assert(ctx.indices[i].name != ctx.indices[j].name);
        }
        assert forall|i: int, s: int|
            #![trigger now[i].shards[s]]
            0 <= i < now.len() && 0 <= s < now[i].shards.len() implies shard_sound(
            now[i].shards[s],
            now[i].name,
            s,
            next,
        ) by {
            if i < n - 1 {
                assert(now[i] == done[i]);
                assert(shard_sound(done[i].shards[s], done[i].name, s, next));
            } else {
                assert(shard_sound(shards[s], m.name, s, next));
            }
        }
    }
}

proof fn lemma_synced_shards_grow(ctx: CtxV, t: Seq<IndexV>, ids: IdsV, m: MetaV, n: nat)
    ensures
        ids.next <= synced_shards(ctx, t, ids, m, known_shards(t, m.name), n).1.next,
    decreases n,
{
    if n > 0 {
        lemma_synced_shards_grow(ctx, t, ids, m, (n - 1) as nat);
    }
}

// ---- nodes that left -----------------------------------------------------------

proof fn lemma_losses_sound(
    ctx: CtxV,
    is: SettingsV,
    name: Seq<char>,
    shard: u32,
    copies: Seq<CopyV>,
    ch: ChangesV,
    n: nat,
    ids: IdsV,
)
    requires
        n <= copies.len(),
        shard_sound(copies, name, shard as int, ids),
    ensures
        ({
            let left = losses(ctx, is, name, shard, copies, ch, n).copies;
            &&& left.len() == copies.len()
            &&& shard_sound(left, name, shard as int, ids)
            &&& forall|k: int| n <= k < copies.len() ==> #[trigger] left[k] == copies[k]
        }),
    decreases n,
{
    if n > 0 {
        lemma_losses_sound(ctx, is, name, shard, copies, ch, (n - 1) as nat, ids);
        let before = losses(ctx, is, name, shard, copies, ch, (n - 1) as nat).copies;
        let c = copies[n - 1];
        assert(before[n - 1] == c);
        if lost(ctx, c) {
            lemma_one_no_more(before, n - 1, lose(ctx, is, c), name, shard as int, ids);
        }
    }
}

proof fn lemma_succeeded_sound(
    ctx: CtxV,
    name: Seq<char>,
    shard: u32,
    left: LeftV,
    ids: IdsV,
)
    requires
        shard_sound(left.copies, name, shard as int, ids),
    ensures
        shard_sound(succeeded(ctx, name, shard, left).copies, name, shard as int, ids),
{
    let copies = left.copies;
    let in_sync = in_sync_of(ctx, name, shard);
    let p = find(copies, is_lost_primary());
    let r = find(copies, eligible(in_sync));
    lemma_found(copies, is_lost_primary());
    lemma_found(copies, eligible(in_sync));
    if p < copies.len() {
        let s = shard as int;
        if r < copies.len() {
            let c = copies[r];
            let risen_one = CopyV { primary: true, ..super::work::staying(c) };
            lemma_one_no_more(copies, r, risen_one, name, s, ids);
            let risen = copies.update(r, risen_one);
            let fallen = CopyV { primary: false, ..risen[p] };
            lemma_one_no_more(risen, p, fallen, name, s, ids);
            lemma_swap_sound(risen.update(p, fallen), 0, r, name, s, ids);
        } else if copies[p].because("NODE_LEFT"@) {
            let c = copies[p];
            let marked = CopyV {
                unassigned: Some(
                    super::state::InfoV {
                        status: "no_valid_shard_copy"@,
                        ..c.unassigned->0
                    },
                ),
                ..c
            };
            lemma_one_no_more(copies, p, marked, name, s, ids);
        }
    }
}

proof fn lemma_departed_shard_sound(
    ctx: CtxV,
    is: SettingsV,
    name: Seq<char>,
    shard: u32,
    copies: Seq<CopyV>,
    ch: ChangesV,
    ids: IdsV,
)
    requires
        shard_sound(copies, name, shard as int, ids),
    ensures
        shard_sound(
            departed_shard(ctx, is, name, shard, copies, ch).copies,
            name,
            shard as int,
            ids,
        ),
{
    let s = shard as int;
    let called = copies.map_values(|c: CopyV| called_off(ctx, c));
    assert forall|k: int| 0 <= k < called.len() implies no_more_than(
        #[trigger] called[k],
        copies[k],
    ) by {
        assert(is_sound(copies[k], name, s, ids));
    }
    lemma_no_more(called, copies, name, s, ids);
    lemma_keep_sound(called, not_orphan(ctx), name, s, ids);
    let here = without_orphans(ctx, copies);
    assert(here == keep(called, not_orphan(ctx)));
    lemma_losses_sound(ctx, is, name, shard, here, ch, here.len(), ids);
    lemma_succeeded_sound(
        ctx,
        name,
        shard,
        losses(ctx, is, name, shard, here, ch, here.len()),
        ids,
    );
}

proof fn lemma_departed_shards_sound(ctx: CtxV, w: WorkV, i: int, n: nat)
    requires
        0 <= i < w.t.len(),
        n <= w.t[i].shards.len(),
        w.t[i].shards.len() <= u32::MAX,
        table_sound(w.t, w.ids),
    ensures
        same_shape(departed_shards(ctx, w, i, n).t, w.t),
        departed_shards(ctx, w, i, n).ids == w.ids,
        table_sound(departed_shards(ctx, w, i, n).t, w.ids),
    decreases n,
{
    if n > 0 {
        lemma_departed_shards_sound(ctx, w, i, (n - 1) as nat);
        let before = departed_shards(ctx, w, i, (n - 1) as nat);
        let name = w.t[i].name;
        let copies = w.t[i].shards[n - 1];
        assert(shard_sound(w.t[i].shards[n - 1], w.t[i].name, n - 1, w.ids));
        lemma_departed_shard_sound(
            ctx,
            ctx.settings_of(name),
            name,
            (n - 1) as u32,
            copies,
            before.ch,
            w.ids,
        );
        let left = departed_shard(
            ctx,
            ctx.settings_of(name),
            name,
            (n - 1) as u32,
            copies,
            before.ch,
        );
        lemma_with_copies_sound(before.t, i, n - 1, left.copies, w.ids);
    }
}

/// Whether no index has more shards than can be counted.
pub open spec fn shards_fit(t: Seq<IndexV>) -> bool {
    forall|i: int| 0 <= i < t.len() ==> (#[trigger] t[i]).shards.len() <= u32::MAX
}

proof fn lemma_departed_sound(ctx: CtxV, w: WorkV, n: nat)
    requires
        n <= w.t.len(),
        shards_fit(w.t),
        table_sound(w.t, w.ids),
    ensures
        same_shape(departed(ctx, w, n).t, w.t),
        departed(ctx, w, n).ids == w.ids,
        table_sound(departed(ctx, w, n).t, w.ids),
    decreases n,
{
    if n > 0 {
        lemma_departed_sound(ctx, w, (n - 1) as nat);
        let before = departed(ctx, w, (n - 1) as nat);
        lemma_departed_shards_sound(ctx, before, n - 1, before.t[n - 1].shards.len());
    }
}

// ---- what waits ----------------------------------------------------------------

proof fn lemma_best_is_allowed(ctx: CtxV, t: Seq<IndexV>, c: CopyV, r: Seq<RankedV>, i: nat)
    ensures
        match best_from(ctx, t, c, r, i).0 {
            Some(node) => worst(may_allocate(ctx, t, c, node)) == Decision::Yes,
            None => true,
        },
    decreases r.len() - i,
{
    if i < r.len() {
        lemma_best_is_allowed(ctx, t, c, r, i + 1);
    }
}

/// A copy that is put on a node that takes it is apart from the others.
proof fn lemma_put_on(
    ctx: CtxV,
    w: WorkV,
    at: (usize, usize, usize),
    node: NodeV,
)
    requires
        has_place(w.t, at),
        table_sound(w.t, w.ids),
        w.ids.next < u64::MAX,
        worst(
            may_allocate(ctx, w.t, w.t[at.0 as int].shards[at.1 as int][at.2 as int], node),
        ) == Decision::Yes,
    ensures
        table_sound(
            with_copy(
                w.t,
                at,
                put_on(
                    w.t[at.0 as int].shards[at.1 as int][at.2 as int],
                    node.id,
                    w.ids.id(),
                ),
            ),
            w.ids.taken(),
        ),
{
    let i = at.0 as int;
    let s = at.1 as int;
    let k = at.2 as int;
    let copies = w.t[i].shards[s];
    let name = w.t[i].name;
    let c = copies[k];
    let now = put_on(c, node.id, w.ids.id());
    let next = w.ids.taken();
    assert(shard_sound(w.t[i].shards[s], w.t[i].name, s, w.ids));
    assert(is_sound(c, name, s, w.ids));
    lemma_shard_later(copies, name, s, w.ids, next);
    lemma_new_is_past(now, w.ids);
    let after = copies.update(k, now);
    assert forall|j: int| 0 <= j < copies.len() && j != k implies differ(
        #[trigger] copies[j],
        now,
    ) && differ(now, copies[j]) by {
        let x = copies[j];
        assert(is_sound(x, name, s, w.ids));
        assert(differ(copies[j], copies[k]));
        assert(differ(copies[k], copies[j]));
        lemma_taken(x, w.ids);
        if x.state != ShardState::Unassigned {
            lemma_free(ctx, w.t, w.ids, i, s, c, node, j);
        }
    }
    assert forall|j: int| 0 <= j < after.len() implies is_sound(
        #[trigger] after[j],
        name,
        s,
        next,
    ) by {
        if j != k {
            assert(after[j] == copies[j]);
            assert(is_sound(copies[j], name, s, next));
        }
    }
    assert forall|a: int, b: int|
        0 <= a < after.len() && 0 <= b < after.len() && a != b implies differ(
        #[trigger] after[a],
        #[trigger] after[b],
    ) by {
        if a != k {
            assert(after[a] == copies[a]);
        }
        if b != k {
            assert(after[b] == copies[b]);
        }
        if a != k && b != k {
            assert(differ(copies[a], copies[b]));
        }
    }
    lemma_table_later(w.t, w.ids, next);
    lemma_with_copies_sound(w.t, i, s, after, next);
}

/// A copy that changes in what is said of it alone leaves a table as sound.
proof fn lemma_said_of(w: WorkV, at: (usize, usize, usize), c: CopyV)
    requires
        has_place(w.t, at),
        table_sound(w.t, w.ids),
        no_more_than(c, w.t[at.0 as int].shards[at.1 as int][at.2 as int]),
    ensures
        table_sound(with_copy(w.t, at, c), w.ids),
{
    let i = at.0 as int;
    let s = at.1 as int;
    assert(shard_sound(w.t[i].shards[s], w.t[i].name, s, w.ids));
    lemma_one_no_more(w.t[i].shards[s], at.2 as int, c, w.t[i].name, s, w.ids);
    lemma_with_copies_sound(w.t, i, s, w.t[i].shards[s].update(at.2 as int, c), w.ids);
}

proof fn lemma_placed_sound(ctx: CtxV, w: WorkV, at: (usize, usize, usize))
    requires
        table_sound(w.t, w.ids),
        placed(ctx, w, at).ids.next < u64::MAX,
    ensures
        later_ids(w.ids, placed(ctx, w, at).ids),
        table_sound(placed(ctx, w, at).t, placed(ctx, w, at).ids),
        same_shape(placed(ctx, w, at).t, w.t),
{
    if has_place(w.t, at) {
        let name = w.t[at.0 as int].name;
        let shard = at.1 as u32;
        let c = w.t[at.0 as int].shards[at.1 as int][at.2 as int];
        let is = ctx.settings_of(name);
        if super::placement::data_lost(c) {
            let data = ctx.data_nodes();
            let p = keeps(ctx, w.t, c, name, shard);
            lemma_found(data, p);
            let i = find(data, p);
            if i < data.len() {
                lemma_put_on(ctx, w, at, data[i]);
            } else {
                lemma_said_of(w, at, with_status(c, "no_valid_shard_copy"@));
            }
        } else if !super::placement::still_waits(ctx, is, c) {
            let r = ranking(ctx, w.t, name);
            lemma_best_is_allowed(ctx, w.t, c, r, 0);
            let (best, throttled) = best_from(ctx, w.t, c, r, 0);
            match best {
                Some(node) => {
                    lemma_put_on(ctx, w, at, node);
                },
                None => {
                    lemma_said_of(w, at, refused(ctx, c, throttled));
                },
            }
        }
    }
}

proof fn lemma_placed_grows(ctx: CtxV, w: WorkV, at: (usize, usize, usize))
    ensures
        w.ids.next <= placed(ctx, w, at).ids.next,
{
}

proof fn lemma_placed_all_sound(ctx: CtxV, w: WorkV, list: Seq<(usize, usize, usize)>, n: nat)
    requires
        table_sound(w.t, w.ids),
        placed_all(ctx, w, list, n).ids.next < u64::MAX,
    ensures
        later_ids(w.ids, placed_all(ctx, w, list, n).ids),
        table_sound(placed_all(ctx, w, list, n).t, placed_all(ctx, w, list, n).ids),
        same_shape(placed_all(ctx, w, list, n).t, w.t),
    decreases n,
{
    if n > 0 {
        let before = placed_all(ctx, w, list, (n - 1) as nat);
        lemma_placed_grows(ctx, before, list[n - 1]);
        lemma_placed_all_sound(ctx, w, list, (n - 1) as nat);
        lemma_placed_sound(ctx, before, list[n - 1]);
    }
}

proof fn lemma_placed_all_grows(ctx: CtxV, w: WorkV, list: Seq<(usize, usize, usize)>, n: nat)
    ensures
        w.ids.next <= placed_all(ctx, w, list, n).ids.next,
    decreases n,
{
    if n > 0 {
        lemma_placed_all_grows(ctx, w, list, (n - 1) as nat);
        lemma_placed_grows(ctx, placed_all(ctx, w, list, (n - 1) as nat), list[n - 1]);
    }
}

// ---- what moves ----------------------------------------------------------------

/// Whether a copy's id is only at its own node, among the copies of its shard.
pub(crate) open spec fn stands(t: Seq<IndexV>, i: int, c: CopyV, ids: IdsV) -> bool {
    &&& c.index == t[i].name
    &&& c.state == ShardState::Started
    &&& c.node is Some
    &&& is_past(c, ids)
    &&& c.shard < t[i].shards.len() ==> forall|k: int|
        0 <= k < t[i].shards[c.shard as int].len() && (
        #[trigger] t[i].shards[c.shard as int][k]).allocation_id == c.allocation_id
            ==> t[i].shards[c.shard as int][k].node == c.node
            && t[i].shards[c.shard as int][k].state != ShardState::Unassigned
}

proof fn lemma_sent_sound(
    ctx: CtxV,
    w: WorkV,
    i: int,
    copy: CopyV,
    from: Seq<char>,
    node: NodeV,
)
    requires
        0 <= i < w.t.len(),
        table_sound(w.t, w.ids),
        stands(w.t, i, copy, w.ids),
        copy.node == Some(from),
        worst(may_allocate(ctx, w.t, copy, node)) == Decision::Yes,
        sent(w, i, copy, from, node.id).ids.next < u64::MAX,
    ensures
        later_ids(w.ids, sent(w, i, copy, from, node.id).ids),
        table_sound(
            sent(w, i, copy, from, node.id).t,
            sent(w, i, copy, from, node.id).ids,
        ),
        same_shape(sent(w, i, copy, from, node.id).t, w.t),
        forall|c: CopyV|
            #[trigger] stands(w.t, i, c, w.ids) ==> stands(
                sent(w, i, copy, from, node.id).t,
                i,
                c,
                sent(w, i, copy, from, node.id).ids,
            ),
{
    let name = w.t[i].name;
    let after = sent(w, i, copy, from, node.id);
    if copy.shard < w.t[i].shards.len() {
        let s = copy.shard as int;
        let copies = w.t[i].shards[s];
        let pos = find(copies, has_id(copy.allocation_id));
        lemma_found(copies, has_id(copy.allocation_id));
        if pos < copies.len() {
            let next = w.ids.taken();
            assert(w.ids.next < u64::MAX);
            assert(shard_sound(w.t[i].shards[s], w.t[i].name, s, w.ids));
            let gone = leaving(copies[pos], node.id);
            let come = arriving(name, copy.shard, copy.primary, from, node.id, w.ids.id());
            let rest = copies.update(pos, gone);
            // the one that leaves is still where it is
            assert(copies[pos].allocation_id == copy.allocation_id);
            law_a_node_that_is_not_refused(ctx, w.t, copy, node);
            lemma_leaving(copies, pos, node.id, name, s, w.ids);
            lemma_shard_later(rest, name, s, w.ids, next);
            lemma_new_is_past(come, w.ids);
            assert forall|j: int| 0 <= j < rest.len() implies differ(#[trigger] rest[j], come)
                && differ(come, rest[j]) by {
                let x = copies[j];
                assert(is_sound(x, name, s, w.ids));
                assert(rest[j].allocation_id == x.allocation_id);
                assert(rest[j].node == x.node);
                lemma_taken(x, w.ids);
                if x.allocation_id == copy.allocation_id {
                    assert(x.node == copy.node);
                } else if x.state != ShardState::Unassigned {
                    lemma_free(ctx, w.t, w.ids, i, s, copy, node, j);
                }
            }
            lemma_push_sound(rest, come, name, s, next);
            lemma_table_later(w.t, w.ids, next);
            let all = moved(
                copies,
                pos,
                name,
                copy.shard,
                copy.primary,
                from,
                node.id,
                w.ids.id(),
            );
            assert(all == rest.push(come));
            lemma_with_copies_sound(w.t, i, s, all, next);
            assert forall|c: CopyV| #[trigger] stands(w.t, i, c, w.ids) implies stands(
                after.t,
                i,
                c,
                after.ids,
            ) by {
                lemma_taken(c, w.ids);
                if c.shard == copy.shard {
                    assert forall|k: int|
                        0 <= k < all.len() && (#[trigger] all[k]).allocation_id
                            == c.allocation_id implies all[k].node == c.node && all[k].state
                        != ShardState::Unassigned by {
                        if k < copies.len() {
                            assert(all[k].allocation_id == copies[k].allocation_id);
                            assert(all[k].node == copies[k].node);
                        } else {
                            assert(all[k] == come);
                        }
                    }
                    assert(after.t[i].shards[c.shard as int] == all);
                } else if c.shard < w.t[i].shards.len() {
                    assert(after.t[i].shards[c.shard as int] == w.t[i].shards[c.shard as int]);
                }
            }
        }
    }
}

/// A copy on its way to another node is where it was until it is there.
proof fn lemma_leaving(
    copies: Seq<CopyV>,
    pos: int,
    to: Seq<char>,
    name: Seq<char>,
    s: int,
    ids: IdsV,
)
    requires
        0 <= pos < copies.len(),
        shard_sound(copies, name, s, ids),
        copies[pos].state != ShardState::Unassigned,
    ensures
        shard_sound(copies.update(pos, leaving(copies[pos], to)), name, s, ids),
{
    let a = copies.update(pos, leaving(copies[pos], to));
    assert forall|k: int| 0 <= k < a.len() implies is_sound(#[trigger] a[k], name, s, ids) by {
        assert(is_sound(copies[k], name, s, ids));
    }
    assert forall|j: int, k: int| 0 <= j < a.len() && 0 <= k < a.len() && j != k implies differ(
        #[trigger] a[j],
        #[trigger] a[k],
    ) by {
        assert(differ(copies[j], copies[k]));
        assert(differ(copies[k], copies[j]));
    }
}

/// A copy of a table stands where it is.
proof fn lemma_stands(t: Seq<IndexV>, ids: IdsV, i: int, s: int, k: int)
    requires
        table_sound(t, ids),
        0 <= i < t.len(),
        0 <= s < t[i].shards.len(),
        0 <= k < t[i].shards[s].len(),
        t[i].shards[s][k].state == ShardState::Started,
        t[i].shards[s][k].node is Some,
    ensures
        stands(t, i, t[i].shards[s][k], ids),
{
    let c = t[i].shards[s][k];
    assert(shard_sound(t[i].shards[s], t[i].name, s, ids));
    assert(is_sound(t[i].shards[s][k], t[i].name, s, ids));
    assert forall|j: int|
        0 <= j < t[i].shards[c.shard as int].len() && (
        #[trigger] t[i].shards[c.shard as int][j]).allocation_id
            == c.allocation_id implies t[i].shards[c.shard as int][j].node == c.node
        && t[i].shards[c.shard as int][j].state != ShardState::Unassigned by {
        if j != k {
            assert(differ(t[i].shards[s][k], t[i].shards[s][j]));
        }
    }
}

proof fn lemma_freed_sound(ctx: CtxV, w: WorkV, i: int, copy: CopyV)
    requires
        0 <= i < w.t.len(),
        table_sound(w.t, w.ids),
        stands(w.t, i, copy, w.ids),
        freed(ctx, w, i, copy).ids.next < u64::MAX,
    ensures
        later_ids(w.ids, freed(ctx, w, i, copy).ids),
        table_sound(freed(ctx, w, i, copy).t, freed(ctx, w, i, copy).ids),
        same_shape(freed(ctx, w, i, copy).t, w.t),
        forall|c: CopyV|
            #[trigger] stands(w.t, i, c, w.ids) ==> stands(
                freed(ctx, w, i, copy).t,
                i,
                c,
                freed(ctx, w, i, copy).ids,
            ),
{
    let from = copy.node->0;
    let r = ranking(ctx, w.t, w.t[i].name);
    let p = takes(ctx, w.t, copy, from);
    let k = find(r, p);
    lemma_found(r, p);
    if k < r.len() {
        lemma_sent_sound(ctx, w, i, copy, from, r[k].node);
    }
}

pub(crate) proof fn lemma_freed_grows(ctx: CtxV, w: WorkV, i: int, copy: CopyV)
    ensures
        w.ids.next <= freed(ctx, w, i, copy).ids.next,
{
}

pub(crate) proof fn lemma_freed_all_sound(ctx: CtxV, w: WorkV, i: int, stuck: Seq<CopyV>, n: nat)
    requires
        0 <= i < w.t.len(),
        n <= stuck.len(),
        table_sound(w.t, w.ids),
        forall|k: int| 0 <= k < stuck.len() ==> stands(w.t, i, #[trigger] stuck[k], w.ids),
        freed_all(ctx, w, i, stuck, n).ids.next < u64::MAX,
    ensures
        ({
            let after = freed_all(ctx, w, i, stuck, n);
            &&& later_ids(w.ids, after.ids)
            &&& table_sound(after.t, after.ids)
            &&& same_shape(after.t, w.t)
            &&& forall|k: int|
                0 <= k < stuck.len() ==> stands(after.t, i, #[trigger] stuck[k], after.ids)
        }),
    decreases n,
{
    if n > 0 {
        let before = freed_all(ctx, w, i, stuck, (n - 1) as nat);
        lemma_freed_grows(ctx, before, i, stuck[n - 1]);
        lemma_freed_all_sound(ctx, w, i, stuck, (n - 1) as nat);
        assert(stands(before.t, i, stuck[n - 1], before.ids));
        lemma_freed_sound(ctx, before, i, stuck[n - 1]);
    }
}

pub(crate) proof fn lemma_freed_all_grows(ctx: CtxV, w: WorkV, i: int, stuck: Seq<CopyV>, n: nat)
    ensures
        w.ids.next <= freed_all(ctx, w, i, stuck, n).ids.next,
    decreases n,
{
    if n > 0 {
        lemma_freed_all_grows(ctx, w, i, stuck, (n - 1) as nat);
        lemma_freed_grows(ctx, freed_all(ctx, w, i, stuck, (n - 1) as nat), i, stuck[n - 1]);
    }
}

/// What may not stay stands where it is.
pub(crate) proof fn lemma_stuck_stand(ctx: CtxV, t: Seq<IndexV>, ids: IdsV, i: int)
    requires
        0 <= i < t.len(),
        table_sound(t, ids),
    ensures
        forall|k: int|
            0 <= k < stuck_of(ctx, t, i).len() ==> stands(
                t,
                i,
                #[trigger] stuck_of(ctx, t, i)[k],
                ids,
            ),
{
    let stuck = stuck_of(ctx, t, i);
    let mine = shards_of(t, t[i].name);
    lemma_place(t, i, ids);
    lemma_keep(mine, is_stuck(ctx, t));
    assert forall|k: int| 0 <= k < stuck.len() implies stands(t, i, #[trigger] stuck[k], ids) by {
        assert(mine.contains(stuck[k]));
        assert((is_stuck(ctx, t))(stuck[k]));
        let (s, j) = lemma_from_flat(t[i].shards, stuck[k]);
        lemma_stands(t, ids, i, s, j);
    }
}

pub(crate) proof fn lemma_unstuck_sound(ctx: CtxV, w: WorkV, n: nat)
    requires
        n <= w.t.len(),
        table_sound(w.t, w.ids),
        unstuck(ctx, w, n).ids.next < u64::MAX,
    ensures
        later_ids(w.ids, unstuck(ctx, w, n).ids),
        table_sound(unstuck(ctx, w, n).t, unstuck(ctx, w, n).ids),
        same_shape(unstuck(ctx, w, n).t, w.t),
    decreases n,
{
    if n > 0 {
        let before = unstuck(ctx, w, (n - 1) as nat);
        let i = n - 1;
        let stuck = stuck_of(ctx, before.t, i);
        lemma_freed_all_grows(ctx, before, i, stuck, stuck.len());
        lemma_unstuck_sound(ctx, w, (n - 1) as nat);
        lemma_stuck_stand(ctx, before.t, before.ids, i);
        lemma_freed_all_sound(ctx, before, i, stuck, stuck.len());
    }
}

pub(crate) proof fn lemma_unstuck_grows(ctx: CtxV, w: WorkV, n: nat)
    ensures
        w.ids.next <= unstuck(ctx, w, n).ids.next,
    decreases n,
{
    if n > 0 {
        lemma_unstuck_grows(ctx, w, (n - 1) as nat);
        let before = unstuck(ctx, w, (n - 1) as nat);
        let stuck = stuck_of(ctx, before.t, n - 1);
        lemma_freed_all_grows(ctx, before, n - 1, stuck, stuck.len());
    }
}

/// What is picked is on the heavy node, and the light one takes it.
pub(crate) proof fn lemma_picked(
    ctx: CtxV,
    t: Seq<IndexV>,
    ids: IdsV,
    i: int,
    r: Seq<RankedV>,
    h: nat,
)
    requires
        0 <= i < t.len(),
        table_sound(t, ids),
    ensures
        match pick(ctx, t, t[i].name, r, h) {
            Some((copy, heavy)) => stands(t, i, copy, ids) && copy.node == Some(heavy.id) && worst(
                may_allocate(ctx, t, copy, r[0].node),
            ) == Decision::Yes,
            None => true,
        },
    decreases h,
{
    let name = t[i].name;
    if 0 < h <= r.len() {
        lemma_picked(ctx, t, ids, i, r, (h - 1) as nat);
        let heavy = r[h - 1];
        let light = r[0];
        let there = on_node(t, heavy.node.id);
        let here = keep(there, started_of(name));
        let p = super::moves::may_go(ctx, t, light.node);
        let k = find(here, p);
        lemma_found(here, p);
        if k < here.len() {
            lemma_keep(there, started_of(name));
            lemma_keep(all(t), sits_on(heavy.node.id));
            let c = here[k];
            assert(there.contains(c));
            let m = there.index_of(c);
            assert(there[m] == c);
            assert(all(t).contains(there[m]));
            let (a, s, j) = lemma_from_all(t, c);
            assert(shard_sound(t[a].shards[s], t[a].name, s, ids));
            assert(is_sound(t[a].shards[s][j], t[a].name, s, ids));
            assert(t[a].name == name);
            if a != i {
                assert(t[a].name != t[i].name);
            }
            lemma_stands(t, ids, i, s, j);
        }
    }
}

proof fn lemma_lightened_sound(ctx: CtxV, w: WorkV, i: int)
    requires
        0 <= i < w.t.len(),
        table_sound(w.t, w.ids),
        lightened(ctx, w, i).ids.next < u64::MAX,
    ensures
        later_ids(w.ids, lightened(ctx, w, i).ids),
        table_sound(lightened(ctx, w, i).t, lightened(ctx, w, i).ids),
        same_shape(lightened(ctx, w, i).t, w.t),
{
    let name = w.t[i].name;
    let r = ranking(ctx, w.t, name);
    if r.len() >= 2 {
        lemma_picked(ctx, w.t, w.ids, i, r, r.len());
        match pick(ctx, w.t, name, r, r.len()) {
            Some((copy, heavy)) => {
                lemma_sent_sound(ctx, w, i, copy, heavy.id, r[0].node);
            },
            None => {},
        }
    }
}

pub(crate) proof fn lemma_rebalanced_sound(ctx: CtxV, w: WorkV, n: nat)
    requires
        n <= w.t.len(),
        table_sound(w.t, w.ids),
        rebalanced(ctx, w, n).ids.next < u64::MAX,
    ensures
        later_ids(w.ids, rebalanced(ctx, w, n).ids),
        table_sound(rebalanced(ctx, w, n).t, rebalanced(ctx, w, n).ids),
        same_shape(rebalanced(ctx, w, n).t, w.t),
    decreases n,
{
    if n > 0 {
        let before = rebalanced(ctx, w, (n - 1) as nat);
        assert(before.ids.next <= lightened(ctx, before, n - 1).ids.next);
        lemma_rebalanced_sound(ctx, w, (n - 1) as nat);
        lemma_lightened_sound(ctx, before, n - 1);
    }
}

pub(crate) proof fn lemma_rebalanced_grows(ctx: CtxV, w: WorkV, n: nat)
    ensures
        w.ids.next <= rebalanced(ctx, w, n).ids.next,
    decreases n,
{
    if n > 0 {
        lemma_rebalanced_grows(ctx, w, (n - 1) as nat);
        let before = rebalanced(ctx, w, (n - 1) as nat);
        assert(before.ids.next <= lightened(ctx, before, n - 1).ids.next);
    }
}

// ---- what it comes to ----------------------------------------------------------

/// Whether no two copies of a shard are on one node.
pub open spec fn apart(copies: Seq<CopyV>) -> bool {
    forall|j: int, k: int|
        0 <= j < copies.len() && 0 <= k < copies.len() && j != k && (
        #[trigger] copies[j]).state != ShardState::Unassigned && (
        #[trigger] copies[k]).state != ShardState::Unassigned && copies[j].node is Some
            ==> copies[j].node != copies[k].node
}

/// The table before every shard is put where the first one of its index is.
pub open spec fn before_following(ctx: CtxV, t: Seq<IndexV>, ids: IdsV) -> WorkV {
    let begun = begun(ctx, t, ids);
    let allocated = allocated(ctx, departed(ctx, begun, begun.t.len()));
    let unstuck = unstuck(ctx, allocated, allocated.t.len());
    rebalanced(ctx, unstuck, unstuck.t.len())
}

/// No two copies of a shard are on one node once the table has been rerouted,
/// where none were before: whatever came, left, waited or moved. Left out are
/// a shard without a primary whose index has documents at its home and a copy
/// there already, and a source of ids that runs out.
pub proof fn law_no_two_copies_of_a_shard_are_on_one_node(ctx: CtxV, t: Seq<IndexV>, ids: IdsV)
    requires
        table_sound(t, ids),
        homes_free(ctx, t),
        names_differ(ctx.indices),
        before_following(ctx, t, ids).ids.next < u64::MAX,
    ensures
        forall|i: int, s: int|
            #![trigger rerouted(ctx, t, ids).t[i].shards[s]]
            0 <= i < rerouted(ctx, t, ids).t.len() && 0 <= s < rerouted(
                ctx,
                t,
                ids,
            ).t[i].shards.len() ==> apart(rerouted(ctx, t, ids).t[i].shards[s]),
{
    lemma_before_following(ctx, t, ids);
    let done = before_following(ctx, t, ids);
    law_every_shard_sits_where_the_first_one_sits(done);
    let after = rerouted(ctx, t, ids).t;
    assert(after == followed_all(done, done.t.len()).t);
    assert forall|i: int, s: int|
        #![trigger after[i].shards[s]]
        0 <= i < after.len() && 0 <= s < after[i].shards.len() implies apart(
        after[i].shards[s],
    ) by {
        let e = after[i];
        assert(e == followed_all(done, done.t.len()).t[i]);
        assert(together(e));
        let first = done.t[i].shards[0];
        assert(e.shards[0] == first);
        assert(shard_sound(done.t[i].shards[0], done.t[i].name, 0, done.ids));
        let copies = e.shards[s];
        assert(copies.len() == first.len());
        assert forall|j: int, k: int|
            0 <= j < copies.len() && 0 <= k < copies.len() && j != k && (
            #[trigger] copies[j]).state != ShardState::Unassigned && (
            #[trigger] copies[k]).state != ShardState::Unassigned
                && copies[j].node is Some implies copies[j].node != copies[k].node by {
            assert(alike(e.shards[s][j], e.shards[0][j]));
            assert(alike(e.shards[s][k], e.shards[0][k]));
            assert(differ(first[j], first[k]));
        }
    }
}

pub(crate) proof fn lemma_before_following(ctx: CtxV, t: Seq<IndexV>, ids: IdsV)
    requires
        table_sound(t, ids),
        homes_free(ctx, t),
        names_differ(ctx.indices),
        before_following(ctx, t, ids).ids.next < u64::MAX,
    ensures
        ({
            let begun = begun(ctx, t, ids);
            let settled = allocated(ctx, departed(ctx, begun, begun.t.len()));
            let free = unstuck(ctx, settled, settled.t.len());
            &&& table_sound(settled.t, settled.ids)
            &&& table_sound(free.t, free.ids)
            &&& free.ids.next < u64::MAX
        }),
        table_sound(before_following(ctx, t, ids).t, before_following(ctx, t, ids).ids),
        shards_fit(before_following(ctx, t, ids).t),
{
    let begun = begun(ctx, t, ids);
    let gone = departed(ctx, begun, begun.t.len());
    let primaries = pending(gone.t, true, gone.t.len());
    let placed = placed_kind(ctx, gone, true);
    let replicas = pending(placed.t, false, placed.t.len());
    let settled = allocated(ctx, gone);
    let free = unstuck(ctx, settled, settled.t.len());
    let done = rebalanced(ctx, free, free.t.len());
    // what is left of the ids at the end was left before
    lemma_rebalanced_grows(ctx, free, free.t.len());
    lemma_unstuck_grows(ctx, settled, settled.t.len());
    lemma_placed_all_grows(ctx, placed, replicas, replicas.len());
    lemma_placed_all_grows(ctx, gone, primaries, primaries.len());
    lemma_departed_ids(ctx, begun, begun.t.len());
    lemma_synced_sound(ctx, t, ids, ctx.indices.len());
    super::sync::law_the_table_follows_the_indices(ctx, t, ids);
    assert(shards_fit(begun.t)) by {
        assert forall|i: int| 0 <= i < begun.t.len() implies (#[trigger] begun.t[i]).shards.len()
            <= u32::MAX by {
            assert(begun.t[i] == synced(ctx, t, ids, ctx.indices.len()).0[i]);
        }
    }
    lemma_departed_sound(ctx, begun, begun.t.len());
    lemma_placed_all_sound(ctx, gone, primaries, primaries.len());
    lemma_placed_all_sound(ctx, placed, replicas, replicas.len());
    lemma_unstuck_sound(ctx, settled, settled.t.len());
    lemma_rebalanced_sound(ctx, free, free.t.len());
    assert(done == before_following(ctx, t, ids));
    assert(same_shape(done.t, begun.t));
}

proof fn lemma_departed_ids(ctx: CtxV, w: WorkV, n: nat)
    ensures
        departed(ctx, w, n).ids == w.ids,
    decreases n,
{
    if n > 0 {
        lemma_departed_ids(ctx, w, (n - 1) as nat);
        let before = departed(ctx, w, (n - 1) as nat);
        lemma_departed_shards_ids(ctx, before, n - 1, before.t[n - 1].shards.len());
    }
}

proof fn lemma_departed_shards_ids(ctx: CtxV, w: WorkV, i: int, n: nat)
    ensures
        departed_shards(ctx, w, i, n).ids == w.ids,
    decreases n,
{
    if n > 0 {
        lemma_departed_shards_ids(ctx, w, i, (n - 1) as nat);
    }
}

// ---- every shard where the first one is ----------------------------------------

/// Whether a copy that follows another has no id, its own or one that was given
/// on the way.
spec fn id_of_following(a: CopyV, c: Option<CopyV>, from: IdsV, to: IdsV) -> bool {
    ||| a.allocation_id is None
    ||| c is Some && a.allocation_id == c->0.allocation_id
    ||| exists|k: nat|
        from.next <= k < to.next && a.allocation_id == Some(#[trigger] id_at(from.run, k))
}

spec fn copy_at(copies: Seq<CopyV>, j: int) -> Option<CopyV> {
    if 0 <= j < copies.len() {
        Some(copies[j])
    } else {
        None
    }
}

proof fn lemma_followed_sound(
    name: Seq<char>,
    shard: u32,
    copies: Seq<CopyV>,
    first: Seq<CopyV>,
    ids: IdsV,
    ch: ChangesV,
    n: nat,
    s0: int,
)
    requires
        n <= first.len(),
        shard_sound(copies, name, shard as int, ids),
        shard_sound(first, name, s0, ids),
        followed(name, shard, copies, first, ids, ch, n).ids.next < u64::MAX,
    ensures
        ({
            let f = followed(name, shard, copies, first, ids, ch, n);
            &&& later_ids(ids, f.ids)
            &&& f.copies.len() == n
            &&& shard_sound(f.copies, name, shard as int, f.ids)
            &&& forall|j: int|
                0 <= j < n ==> alike(#[trigger] f.copies[j], first[j]) && id_of_following(
                    f.copies[j],
                    copy_at(copies, j),
                    ids,
                    f.ids,
                )
        }),
    decreases n,
{
    if n > 0 {
        let b = followed(name, shard, copies, first, ids, ch, (n - 1) as nat);
        let f = followed(name, shard, copies, first, ids, ch, n);
        assert(b.ids.next <= f.ids.next);
        lemma_followed_sound(name, shard, copies, first, ids, ch, (n - 1) as nat, s0);
        let model = first[n - 1];
        assert(is_sound(first[n - 1], name, s0, ids));
        let e = f.copies[n - 1];
        assert(f.copies == b.copies.push(e));
        let fresh = b.ids.id();
        assert(fresh == id_at(ids.run, b.ids.next as nat));
        if n - 1 < copies.len() {
            assert(is_sound(copies[n - 1], name, shard as int, ids));
            lemma_past_later(copies[n - 1], ids, f.ids);
        }
        if e.allocation_id == Some(fresh) && f.ids == b.ids.taken() {
            lemma_new_is_past(e, b.ids);
        }
        lemma_shard_later(b.copies, name, shard as int, b.ids, f.ids);
        assert(is_sound(e, name, shard as int, f.ids));
        assert forall|j: int| 0 <= j < b.copies.len() implies differ(#[trigger] b.copies[j], e)
            && differ(e, b.copies[j]) by {
            let x = b.copies[j];
            assert(alike(x, first[j]));
            assert(differ(first[j], first[n - 1]));
            assert(differ(first[n - 1], first[j]));
            assert(is_sound(x, name, shard as int, b.ids));
            if e.allocation_id is Some {
                if n - 1 < copies.len() && e.allocation_id == copies[n - 1].allocation_id {
                    if j < copies.len() {
                        assert(differ(copies[j], copies[n - 1]));
                        assert(differ(copies[n - 1], copies[j]));
                    }
                    assert(is_past(copies[n - 1], ids));
                } else {
                    assert(e.allocation_id == Some(fresh));
                    lemma_taken(x, b.ids);
                }
            }
        }
        lemma_push_sound(b.copies, e, name, shard as int, f.ids);
        assert forall|j: int| 0 <= j < n implies alike(#[trigger] f.copies[j], first[j])
            && id_of_following(f.copies[j], copy_at(copies, j), ids, f.ids) by {
            if j < n - 1 {
                assert(f.copies[j] == b.copies[j]);
                assert(id_of_following(b.copies[j], copy_at(copies, j), ids, b.ids));
                if exists|k: nat|
                    ids.next <= k < b.ids.next && b.copies[j].allocation_id == Some(
                        #[trigger] id_at(ids.run, k),
                    ) {
                    let k = choose|k: nat|
                        ids.next <= k < b.ids.next && b.copies[j].allocation_id == Some(
                            #[trigger] id_at(ids.run, k),
                        );
                    assert(k < f.ids.next);
                }
            } else if e.allocation_id is Some && !(n - 1 < copies.len() && e.allocation_id
                == copies[n - 1].allocation_id) {
                assert(e.allocation_id == Some(id_at(ids.run, b.ids.next as nat)));
                assert(b.ids.next < f.ids.next);
            }
        }
    }
}

proof fn lemma_followed_grows(
    name: Seq<char>,
    shard: u32,
    copies: Seq<CopyV>,
    first: Seq<CopyV>,
    ids: IdsV,
    ch: ChangesV,
    n: nat,
)
    ensures
        ids.next <= followed(name, shard, copies, first, ids, ch, n).ids.next,
    decreases n,
{
    if n > 0 {
        lemma_followed_grows(name, shard, copies, first, ids, ch, (n - 1) as nat);
    }
}

proof fn lemma_followed_shards_sound(w: WorkV, i: int, n: nat)
    requires
        0 <= i < w.t.len(),
        n <= w.t[i].shards.len(),
        w.t[i].shards.len() <= u32::MAX,
        table_sound(w.t, w.ids),
        followed_shards(w, i, n).ids.next < u64::MAX,
    ensures
        later_ids(w.ids, followed_shards(w, i, n).ids),
        table_sound(followed_shards(w, i, n).t, followed_shards(w, i, n).ids),
        same_shape(followed_shards(w, i, n).t, w.t),
    decreases n,
{
    if n > 1 {
        let b = followed_shards(w, i, (n - 1) as nat);
        let first = w.t[i].shards[0];
        let name = w.t[i].name;
        let shard = (n - 1) as u32;
        let copies = w.t[i].shards[n - 1];
        let f = followed(name, shard, copies, first, b.ids, b.ch, first.len());
        lemma_followed_grows(name, shard, copies, first, b.ids, b.ch, first.len());
        lemma_followed_shards_sound(w, i, (n - 1) as nat);
        assert(shard_sound(w.t[i].shards[n - 1], w.t[i].name, n - 1, w.ids));
        assert(shard_sound(w.t[i].shards[0], w.t[i].name, 0, w.ids));
        lemma_shard_later(copies, name, n - 1, w.ids, b.ids);
        lemma_shard_later(first, name, 0, w.ids, b.ids);
        lemma_followed_sound(name, shard, copies, first, b.ids, b.ch, first.len(), 0);
        lemma_table_later(b.t, b.ids, f.ids);
        lemma_with_copies_sound(b.t, i, n - 1, f.copies, f.ids);
    }
}

proof fn lemma_followed_shards_grow(w: WorkV, i: int, n: nat)
    ensures
        w.ids.next <= followed_shards(w, i, n).ids.next,
    decreases n,
{
    if n > 1 {
        let b = followed_shards(w, i, (n - 1) as nat);
        let first = w.t[i].shards[0];
        lemma_followed_shards_grow(w, i, (n - 1) as nat);
        lemma_followed_grows(
            w.t[i].name,
            (n - 1) as u32,
            w.t[i].shards[n - 1],
            first,
            b.ids,
            b.ch,
            first.len(),
        );
    }
}

proof fn lemma_followed_all_sound(w: WorkV, n: nat)
    requires
        n <= w.t.len(),
        shards_fit(w.t),
        table_sound(w.t, w.ids),
        followed_all(w, n).ids.next < u64::MAX,
    ensures
        later_ids(w.ids, followed_all(w, n).ids),
        table_sound(followed_all(w, n).t, followed_all(w, n).ids),
        same_shape(followed_all(w, n).t, w.t),
    decreases n,
{
    if n > 0 {
        let b = followed_all(w, (n - 1) as nat);
        lemma_followed_shards_grow(b, n - 1, b.t[n - 1].shards.len());
        lemma_followed_all_sound(w, (n - 1) as nat);
        lemma_followed_shards_sound(b, n - 1, b.t[n - 1].shards.len());
    }
}

pub(crate) proof fn lemma_followed_all_grows(w: WorkV, n: nat)
    ensures
        w.ids.next <= followed_all(w, n).ids.next,
    decreases n,
{
    if n > 0 {
        let b = followed_all(w, (n - 1) as nat);
        lemma_followed_all_grows(w, (n - 1) as nat);
        lemma_followed_shards_grow(b, n - 1, b.t[n - 1].shards.len());
    }
}

/// A table whose shards are sound is as sound once it has been rerouted: every
/// copy is its shard's own, has a node and an id of its own where it has a
/// place, and no two are on one node. Left out is what is left out of the law
/// above.
pub proof fn law_a_sound_table_stays_sound(ctx: CtxV, t: Seq<IndexV>, ids: IdsV)
    requires
        table_sound(t, ids),
        homes_free(ctx, t),
        names_differ(ctx.indices),
        rerouted(ctx, t, ids).ids.next < u64::MAX,
    ensures
        table_sound(rerouted(ctx, t, ids).t, rerouted(ctx, t, ids).ids),
{
    let done = before_following(ctx, t, ids);
    lemma_followed_all_grows(done, done.t.len());
    lemma_before_following(ctx, t, ids);
    lemma_followed_all_sound(done, done.t.len());
}

// ---- reports -------------------------------------------------------------------

proof fn lemma_both_kept(
    copies: Seq<CopyV>,
    p: spec_fn(CopyV) -> bool,
    q: spec_fn(CopyV) -> bool,
    name: Seq<char>,
    s: int,
    ids: IdsV,
)
    requires
        shard_sound(copies, name, s, ids),
        forall|c: CopyV| !(#[trigger] p(c) && #[trigger] q(c)),
    ensures
        shard_sound(keep(copies, p) + keep(copies, q), name, s, ids),
{
    let a = keep(copies, p);
    let b = keep(copies, q);
    lemma_keep_sound(copies, p, name, s, ids);
    lemma_keep_sound(copies, q, name, s, ids);
    lemma_keep(copies, p);
    lemma_keep(copies, q);
    let r = a + b;
    assert forall|k: int| 0 <= k < r.len() implies is_sound(#[trigger] r[k], name, s, ids) by {
        if k < a.len() {
            assert(r[k] == a[k]);
        } else {
            assert(r[k] == b[k - a.len()]);
        }
    }
    assert forall|j: int, k: int| 0 <= j < r.len() && 0 <= k < r.len() && j != k implies differ(
        #[trigger] r[j],
        #[trigger] r[k],
    ) by {
        if j < a.len() && k < a.len() {
            assert(differ(a[j], a[k]));
        } else if j >= a.len() && k >= a.len() {
            assert(differ(b[j - a.len()], b[k - a.len()]));
        } else {
            let x = r[j];
            let y = r[k];
            assert(p(x) != p(y) || q(x) != q(y));
            let u = copies.index_of(x);
            let v = copies.index_of(y);
            assert(copies.contains(x) && copies.contains(y));
            assert(copies[u] == x && copies[v] == y);
            assert(u != v);
            assert(differ(copies[u], copies[v]));
        }
    }
}

/// What is reported of a copy keeps the copies of its shard apart: that it has
/// started, that it has failed, that it missed a write, and that its failures
/// are forgotten.
pub proof fn law_reports_keep_copies_apart(
    copies: Seq<CopyV>,
    name: Seq<char>,
    s: int,
    ids: IdsV,
    id: Seq<char>,
    now: u64,
    message: Seq<char>,
)
    requires
        shard_sound(copies, name, s, ids),
    ensures
        match started(copies, id) {
            Some((after, what)) => shard_sound(after, name, s, ids),
            None => true,
        },
        match failed(copies, id, now, message) {
            Some(after) => shard_sound(after, name, s, ids),
            None => true,
        },
        match stale(copies, id, now) {
            Some(after) => shard_sound(after, name, s, ids),
            None => true,
        },
        shard_sound(forgiven_copies(copies), name, s, ids),
{
    lemma_started_sound(copies, name, s, ids, id);
    let pos = find(copies, has_id(Some(id)));
    lemma_found(copies, has_id(Some(id)));
    if pos < copies.len() {
        let c = copies[pos];
        assert(is_sound(copies[pos], name, s, ids));
        if c.state == ShardState::Initializing && c.relocating_node is Some {
            let rest = copies.remove(pos);
            lemma_remove_sound(copies, pos, name, s, ids);
            let k = find(rest, leaves(c.relocating_node));
            lemma_found(rest, leaves(c.relocating_node));
            if k < rest.len() {
                lemma_one_no_more(rest, k, super::work::staying(rest[k]), name, s, ids);
            }
        } else {
            let after = failed(copies, id, now, message)->0;
            assert(after == copies.update(pos, after[pos]));
            lemma_one_no_more(copies, pos, after[pos], name, s, ids);
        }
    }
    let at = find(copies, replica_with_id(id));
    lemma_found(copies, replica_with_id(id));
    if at < copies.len() {
        let after = stale(copies, id, now)->0;
        assert(after == copies.update(at, after[at]));
        lemma_one_no_more(copies, at, after[at], name, s, ids);
    }
    let mild = forgiven_copies(copies);
    assert forall|k: int| 0 <= k < mild.len() implies no_more_than(
        #[trigger] mild[k],
        copies[k],
    ) by {
        assert(is_sound(copies[k], name, s, ids));
    }
    lemma_no_more(mild, copies, name, s, ids);
}

proof fn lemma_started_sound(
    copies: Seq<CopyV>,
    name: Seq<char>,
    s: int,
    ids: IdsV,
    id: Seq<char>,
)
    requires
        shard_sound(copies, name, s, ids),
    ensures
        match started(copies, id) {
            Some((after, what)) => shard_sound(after, name, s, ids),
            None => true,
        },
{
    let pos = find(copies, has_id(Some(id)));
    lemma_found(copies, has_id(Some(id)));
    if pos < copies.len() && copies[pos].state == ShardState::Initializing {
        let c = copies[pos];
        let risen = CopyV { unassigned: None, ..super::work::staying(c) };
        let up = copies.update(pos, risen);
        lemma_one_no_more(copies, pos, risen, name, s, ids);
        let k = find(up, leaves(c.relocating_node));
        lemma_found(up, leaves(c.relocating_node));
        if c.relocating_node is Some && k < up.len() {
            lemma_remove_sound(up, k, name, s, ids);
            lemma_both_kept(up.remove(k), is_primary(), is_replica(), name, s, ids);
        } else {
            lemma_both_kept(up, is_primary(), is_replica(), name, s, ids);
        }
    }
}

// ---- commands ------------------------------------------------------------------

/// A copy put on a node that no other copy of its shard is on, with an id that
/// was just taken, is apart from the others.
proof fn lemma_put_sound(
    copies: Seq<CopyV>,
    pos: int,
    now: CopyV,
    name: Seq<char>,
    s: int,
    ids: IdsV,
)
    requires
        0 <= pos < copies.len(),
        shard_sound(copies, name, s, ids),
        ids.next < u64::MAX,
        now.index == name,
        now.shard == s,
        now.node is Some,
        now.allocation_id == Some(ids.id()),
        forall|j: int|
            0 <= j < copies.len() && j != pos && (#[trigger] copies[j]).state
                != ShardState::Unassigned ==> copies[j].node != now.node,
    ensures
        shard_sound(copies.update(pos, now), name, s, ids.taken()),
{
    let next = ids.taken();
    lemma_shard_later(copies, name, s, ids, next);
    lemma_new_is_past(now, ids);
    let after = copies.update(pos, now);
    assert forall|j: int| 0 <= j < after.len() implies is_sound(
        #[trigger] after[j],
        name,
        s,
        next,
    ) by {
        if j != pos {
            assert(after[j] == copies[j]);
            assert(is_sound(copies[j], name, s, next));
        }
    }
    assert forall|a: int, b: int|
        0 <= a < after.len() && 0 <= b < after.len() && a != b implies differ(
        #[trigger] after[a],
        #[trigger] after[b],
    ) by {
        if a != pos {
            assert(after[a] == copies[a]);
            assert(is_sound(copies[a], name, s, ids));
            lemma_taken(copies[a], ids);
        }
        if b != pos {
            assert(after[b] == copies[b]);
            assert(is_sound(copies[b], name, s, ids));
            lemma_taken(copies[b], ids);
        }
        if a != pos && b != pos {
            assert(differ(copies[a], copies[b]));
        }
    }
}

/// Where a copy of an index is in its table.
proof fn lemma_where(t: Seq<IndexV>, ids: IdsV, index: Seq<char>, k: int) -> (r: (int, int))
    requires
        table_sound(t, ids),
        0 <= k < shards_of(t, index).len(),
    ensures
        0 <= place(t, index) < t.len(),
        t[place(t, index)].name == index,
        0 <= r.0 < t[place(t, index)].shards.len(),
        0 <= r.1 < t[place(t, index)].shards[r.0].len(),
        t[place(t, index)].shards[r.0][r.1] == shards_of(t, index)[k],
        shards_of(t, index)[k].shard == r.0,
        shards_of(t, index)[k].index == index,
        shard_sound(t[place(t, index)].shards[r.0], index, r.0, ids),
{
    lemma_found(t, named(index));
    let i = place(t, index);
    let x = shards_of(t, index)[k];
    assert(flat(t[i].shards)[k] == x);
    let (s, j) = lemma_from_flat(t[i].shards, x);
    assert(shard_sound(t[i].shards[s], t[i].name, s, ids));
    assert(is_sound(t[i].shards[s][j], t[i].name, s, ids));
    (s, j)
}

proof fn lemma_allocate_sound(
    ctx: CtxV,
    st: CommandsV,
    name: Seq<char>,
    index: Seq<char>,
    shard: u32,
    primary: bool,
    node: NodeV,
    params: crate::json::JsonV,
    explain: bool,
)
    requires
        table_sound(st.t, st.ids),
    ensures
        match allocate_on(ctx, st, name, index, shard, primary, node, params, explain) {
            Ok(after) => after.ids.next < u64::MAX ==> table_sound(after.t, after.ids),
            Err(_) => true,
        },
{
    let here = shards_of(st.t, index);
    let k = find(here, waiting_in(shard, primary));
    lemma_found(here, waiting_in(shard, primary));
    if k < here.len() {
        let (s, j) = lemma_where(st.t, st.ids, index, k);
        let i = place(st.t, index);
        let copies = st.t[i].shards[s];
        let vs = may_allocate(ctx, st.t, here[k], node);
        let pos = find(copies, waiting_as(primary));
        lemma_found(copies, waiting_as(primary));
        if worst(vs) != Decision::No && pos < copies.len() && st.ids.next < u64::MAX {
            let now = forced_on(copies[pos], node.id, st.ids.id(), primary);
            assert(is_sound(copies[pos], index, s, st.ids));
            assert forall|x: int|
                0 <= x < copies.len() && x != pos && (#[trigger] copies[x]).state
                    != ShardState::Unassigned implies copies[x].node != now.node by {
                if x != j {
                    assert(differ(copies[x], copies[j]));
                    assert(is_sound(copies[x], index, s, st.ids));
                    lemma_free(ctx, st.t, st.ids, i, s, here[k], node, x);
                }
            }
            lemma_put_sound(copies, pos, now, index, s, st.ids);
            let next = st.ids.taken();
            lemma_table_later(st.t, st.ids, next);
            lemma_with_copies_sound(st.t, i, s, copies.update(pos, now), next);
        }
    }
}

proof fn lemma_cancelled_sound(
    copies: Seq<CopyV>,
    pos: int,
    copy: CopyV,
    now: u64,
    name: Seq<char>,
    s: int,
    ids: IdsV,
)
    requires
        0 <= pos < copies.len(),
        shard_sound(copies, name, s, ids),
        copies[pos] == copy,
    ensures
        shard_sound(cancelled(copies, pos, copy, now), name, s, ids),
{
    assert(is_sound(copies[pos], name, s, ids));
    if copy.state == ShardState::Initializing && copy.relocating_node is Some {
        let rest = copies.remove(pos);
        lemma_remove_sound(copies, pos, name, s, ids);
        let k = find(rest, leaves(copy.relocating_node));
        lemma_found(rest, leaves(copy.relocating_node));
        if k < rest.len() {
            lemma_one_no_more(rest, k, super::work::staying(rest[k]), name, s, ids);
        }
    } else if copy.state == ShardState::Relocating {
        let here = super::work::staying(copies[pos]);
        lemma_one_no_more(copies, pos, here, name, s, ids);
        let back = copies.update(pos, here);
        let k = find(back, filled_on(copy.relocating_node));
        lemma_found(back, filled_on(copy.relocating_node));
        if k < back.len() {
            lemma_remove_sound(back, k, name, s, ids);
        }
    } else {
        let after = cancelled(copies, pos, copy, now);
        assert(after == copies.update(pos, after[pos]));
        lemma_one_no_more(copies, pos, after[pos], name, s, ids);
    }
}

proof fn lemma_cancel_sound(
    ctx: CtxV,
    st: CommandsV,
    name: Seq<char>,
    index: Seq<char>,
    shard: u32,
    allow_primary: bool,
    node: NodeV,
    params: crate::json::JsonV,
    explain: bool,
)
    requires
        table_sound(st.t, st.ids),
    ensures
        match cancel_on(ctx, st, name, index, shard, allow_primary, node, params, explain) {
            Ok(after) => table_sound(after.t, after.ids),
            Err(_) => true,
        },
{
    let here = shards_of(st.t, index);
    let k = find(here, shard_on(shard, node.id));
    lemma_found(here, shard_on(shard, node.id));
    if k < here.len() && (!here[k].primary || allow_primary) {
        let (s, j) = lemma_where(st.t, st.ids, index, k);
        let i = place(st.t, index);
        let copies = st.t[i].shards[s];
        let p = has_id(here[k].allocation_id);
        let pos = find(copies, p);
        lemma_found(copies, p);
        assert(p(copies[j]));
        assert(pos <= j);
        if pos < copies.len() {
            if here[k].allocation_id is Some {
                if pos != j {
                    assert(differ(copies[j], copies[pos]));
                }
                lemma_cancelled_sound(copies, pos, here[k], ctx.now, index, s, st.ids);
            } else {
                // a copy with no id is on no node: what is called off is nothing
                assert(is_sound(copies[j], index, s, st.ids));
                assert(is_sound(copies[pos], index, s, st.ids));
                let after = cancelled(copies, pos, here[k], ctx.now);
                assert(after == copies.update(pos, after[pos]));
                lemma_one_no_more(copies, pos, after[pos], index, s, st.ids);
            }
            let after = cancelled(copies, pos, here[k], ctx.now);
            lemma_with_copies_sound(st.t, i, s, after, st.ids);
        }
    }
}

/// Whether a node holds no copy of a shard.
spec fn holds_none(copies: Seq<CopyV>, node: Seq<char>) -> bool {
    forall|k: int|
        0 <= k < copies.len() && (#[trigger] copies[k]).state != ShardState::Unassigned
            ==> copies[k].node != Some(node)
}

/// Whether none of the copies of a shard is one that is to move.
spec fn none_to_move(copies: Seq<CopyV>, primary: bool, from: Seq<char>) -> bool {
    forall|k: int| 0 <= k < copies.len() ==> !(started_on(primary, from))(#[trigger] copies[k])
}

proof fn lemma_moved_sound(
    copies: Seq<CopyV>,
    pos: int,
    name: Seq<char>,
    shard: u32,
    primary: bool,
    from: Seq<char>,
    to: Seq<char>,
    ids: IdsV,
)
    requires
        0 <= pos < copies.len(),
        shard_sound(copies, name, shard as int, ids),
        ids.next < u64::MAX,
        (started_on(primary, from))(copies[pos]),
        holds_none(copies, to),
    ensures
        shard_sound(
            moved(copies, pos, name, shard, primary, from, to, ids.id()),
            name,
            shard as int,
            ids.taken(),
        ),
        none_to_move(
            moved(copies, pos, name, shard, primary, from, to, ids.id()),
            primary,
            from,
        ),
{
    let s = shard as int;
    let next = ids.taken();
    let gone = leaving(copies[pos], to);
    let come = arriving(name, shard, primary, from, to, ids.id());
    let rest = copies.update(pos, gone);
    lemma_leaving(copies, pos, to, name, s, ids);
    lemma_shard_later(rest, name, s, ids, next);
    lemma_new_is_past(come, ids);
    assert forall|j: int| 0 <= j < rest.len() implies differ(#[trigger] rest[j], come) && differ(
        come,
        rest[j],
    ) by {
        let x = copies[j];
        assert(is_sound(x, name, s, ids));
        lemma_taken(x, ids);
        assert(rest[j].node == x.node);
        assert(x.state != ShardState::Unassigned ==> x.node != Some(to));
    }
    lemma_push_sound(rest, come, name, s, next);
    let all = rest.push(come);
    assert forall|k: int| 0 <= k < all.len() implies !(started_on(primary, from))(
        #[trigger] all[k],
    ) by {
        if k < rest.len() && k != pos {
            assert(all[k] == copies[k]);
            assert(differ(copies[pos], copies[k]));
        }
    }
}

/// What the first of a list of moves leaves of an index: each of its shards as
/// it was, or with nothing of it left to move.
proof fn lemma_moved_shards_sound(
    st: CommandsV,
    i: int,
    primary: bool,
    from: Seq<char>,
    to: Seq<char>,
    list: Seq<CopyV>,
    n: nat,
)
    requires
        0 <= i < st.t.len(),
        n <= list.len(),
        table_sound(st.t, st.ids),
        forall|s: int|
            0 <= s < st.t[i].shards.len() ==> holds_none(#[trigger] st.t[i].shards[s], to),
        moved_shards(st, st.t[i].name, primary, from, to, list, n).ids.next < u64::MAX,
    ensures
        ({
            let after = moved_shards(st, st.t[i].name, primary, from, to, list, n);
            &&& table_sound(after.t, after.ids)
            &&& same_shape(after.t, st.t)
            &&& later_ids(st.ids, after.ids)
            &&& forall|s: int|
                0 <= s < st.t[i].shards.len() ==> #[trigger] after.t[i].shards[s]
                    == st.t[i].shards[s] || none_to_move(after.t[i].shards[s], primary, from)
        }),
    decreases n,
{
    let index = st.t[i].name;
    if n > 0 {
        let before = moved_shards(st, index, primary, from, to, list, (n - 1) as nat);
        let after = moved_shards(st, index, primary, from, to, list, n);
        assert(before.ids.next <= after.ids.next);
        lemma_moved_shards_sound(st, i, primary, from, to, list, (n - 1) as nat);
        lemma_place(before.t, i, before.ids);
        assert(before.t[i].name == index);
        let shard = list[n - 1].shard;
        let copies = super::state::copies_of(before.t, index, shard);
        let p = started_on(primary, from);
        let pos = find(copies, p);
        lemma_found(copies, p);
        if pos < copies.len() {
            let s = shard as int;
            assert(copies == before.t[i].shards[s]);
            assert(before.t[i].shards[s] == st.t[i].shards[s]);
            assert(holds_none(st.t[i].shards[s], to));
            assert(shard_sound(before.t[i].shards[s], before.t[i].name, s, before.ids));
            lemma_moved_sound(copies, pos, index, shard, primary, from, to, before.ids);
            let now = moved(copies, pos, index, shard, primary, from, to, before.ids.id());
            let next = before.ids.taken();
            lemma_table_later(before.t, before.ids, next);
            lemma_with_copies_sound(before.t, i, s, now, next);
            assert(after.t == with_copies(before.t, i, s, now));
            assert forall|x: int|
                0 <= x < st.t[i].shards.len() implies #[trigger] after.t[i].shards[x]
                == st.t[i].shards[x] || none_to_move(after.t[i].shards[x], primary, from) by {
                if x != s {
                    assert(after.t[i].shards[x] == before.t[i].shards[x]);
                }
            }
        }
    }
}

proof fn lemma_move_sound(
    ctx: CtxV,
    st: CommandsV,
    name: Seq<char>,
    index: Seq<char>,
    shard: u32,
    from: NodeV,
    to: NodeV,
    params: crate::json::JsonV,
    explain: bool,
)
    requires
        table_sound(st.t, st.ids),
        forall|i: int| 0 <= i < st.t.len() ==> together(#[trigger] st.t[i]),
    ensures
        match move_between(ctx, st, name, index, shard, from, to, params, explain) {
            Ok(after) => after.ids.next < u64::MAX ==> table_sound(after.t, after.ids),
            Err(_) => true,
        },
{
    let here = shards_of(st.t, index);
    let k = find(here, shard_on(shard, from.id));
    lemma_found(here, shard_on(shard, from.id));
    if k < here.len() && here[k].state == ShardState::Started && worst(
        may_allocate(ctx, st.t, here[k], to),
    ) != Decision::No {
        let (s, j) = lemma_where(st.t, st.ids, index, k);
        let i = place(st.t, index);
        let e = st.t[i];
        assert(together(st.t[i]));
        law_a_node_that_is_not_refused(ctx, st.t, here[k], to);
        assert forall|x: int| 0 <= x < e.shards.len() implies holds_none(
            #[trigger] e.shards[x],
            to.id,
        ) by {
            assert forall|q: int|
                0 <= q < e.shards[x].len() && (#[trigger] e.shards[x][q]).state
                    != ShardState::Unassigned implies e.shards[x][q].node != Some(to.id) by {
                assert(e.shards[x].len() == e.shards[0].len());
                assert(e.shards[s].len() == e.shards[0].len());
                assert(alike(e.shards[x][q], e.shards[0][q]));
                assert(alike(e.shards[s][q], e.shards[0][q]));
                if q != j {
                    assert(differ(e.shards[s][j], e.shards[s][q]));
                    assert(is_sound(e.shards[s][j], index, s, st.ids));
                    lemma_free(ctx, st.t, st.ids, i, s, here[k], to, q);
                }
            }
        }
        let list = keep(here, started_on(here[k].primary, from.id));
        let after = moved_shards(
            st,
            index,
            here[k].primary,
            from.id,
            to.id,
            list,
            list.len(),
        );
        if after.ids.next < u64::MAX {
            lemma_moved_shards_sound(
                st,
                i,
                here[k].primary,
                from.id,
                to.id,
                list,
                list.len(),
            );
        }
    }
}

/// A command keeps the copies of every shard apart. A move is for every shard
/// of an index, and keeps them apart where each of them sits where the first
/// one does, as it does once a table has been rerouted.
pub proof fn law_a_command_keeps_copies_apart(
    ctx: CtxV,
    st: CommandsV,
    command: crate::json::JsonV,
    explain: bool,
)
    requires
        table_sound(st.t, st.ids),
        forall|i: int| 0 <= i < st.t.len() ==> together(#[trigger] st.t[i]),
    ensures
        match commanded(ctx, st, command, explain) {
            Ok(after) => after.ids.next < u64::MAX ==> table_sound(after.t, after.ids),
            Err(_) => true,
        },
{
    match command {
        crate::json::JsonV::Object(o) => {
            if o.len() > 0 {
                let (name, args) = o[0];
                let index = crate::json::text_member(args, "index"@);
                let shard = crate::json::whole_member(args, "shard"@) as u32;
                if name == "move"@ {
                    let a = super::commands::resolved(
                        ctx,
                        crate::json::text_member(args, "from_node"@),
                    );
                    let b = super::commands::resolved(
                        ctx,
                        crate::json::text_member(args, "to_node"@),
                    );
                    if a is Some && b is Some {
                        lemma_move_sound(
                            ctx,
                            st,
                            name,
                            index,
                            shard,
                            a->0,
                            b->0,
                            super::commands::move_params(
                                index,
                                shard,
                                crate::json::text_member(args, "from_node"@),
                                crate::json::text_member(args, "to_node"@),
                            ),
                            explain,
                        );
                    }
                } else if is_allocate(name) {
                    let to = crate::json::text_member(args, "node"@);
                    let n = super::commands::resolved(ctx, to);
                    if n is Some {
                        lemma_allocate_sound(
                            ctx,
                            st,
                            name,
                            index,
                            shard,
                            name != "allocate_replica"@,
                            n->0,
                            crate::json::JsonV::Object(
                                super::commands::node_params(index, shard, to),
                            ),
                            explain,
                        );
                    }
                } else if name == "cancel"@ {
                    let on = crate::json::text_member(args, "node"@);
                    let n = super::commands::resolved(ctx, on);
                    let allow = crate::json::flag_member(args, "allow_primary"@);
                    if n is Some {
                        lemma_cancel_sound(
                            ctx,
                            st,
                            name,
                            index,
                            shard,
                            allow,
                            n->0,
                            crate::json::JsonV::Object(
                                super::commands::node_params(index, shard, on).push(
                                    ("allow_primary"@, crate::json::JsonV::Bool(allow)),
                                ),
                            ),
                            explain,
                        );
                    }
                }
            }
        },
        _ => {},
    }
}

} // verus!
