//! The table brought up to the indices there are: a list of copies for every
//! shard, a primary in each, and as many replicas as the setting asks for.

use vstd::prelude::*;

use super::deciders::{can_allocate, may_allocate, overall, worst, Decision};
use super::settings::{Context, CtxV};
use super::state::{
    copy_copies, has_text, place, CopyV, DiscoveryNode, Ids, IdsV, IndexMetadata, IndexRouting,
    IndexV, MetaV, RoutingTable, ShardRouting, ShardState,
};
use super::work::{info, unassigned_info};
use crate::list::{any, any_in, count, count_in, get, insert_at, lookup, push_to, remove_at};

verus! {

/// The later of two times.
pub open spec fn later(a: u64, b: u64) -> u64 {
    if a >= b {
        a
    } else {
        b
    }
}

/// The primary of a shard nobody has written to yet, on no node.
pub open spec fn new_primary(m: MetaV, shard: u32, now: u64) -> CopyV {
    CopyV {
        index: m.name,
        shard,
        primary: true,
        state: ShardState::Unassigned,
        node: None,
        relocating_node: None,
        allocation_id: None,
        unassigned: Some(
            info("INDEX_CREATED"@, later(m.creation_date, now), "no_attempt"@, 0),
        ),
    }
}

/// The primary of a shard, started on a node.
pub open spec fn primary_at(m: MetaV, shard: u32, home: Seq<char>, id: Seq<char>) -> CopyV {
    CopyV {
        index: m.name,
        shard,
        primary: true,
        state: ShardState::Started,
        node: Some(home),
        relocating_node: None,
        allocation_id: Some(id),
        unassigned: None,
    }
}

/// A replica that is on no node yet.
pub open spec fn new_replica(m: MetaV, shard: u32, now: u64, fresh: bool) -> CopyV {
    CopyV {
        index: m.name,
        shard,
        primary: false,
        state: ShardState::Unassigned,
        node: None,
        relocating_node: None,
        allocation_id: None,
        unassigned: Some(
            if fresh {
                info("INDEX_CREATED"@, later(m.creation_date, now), "no_attempt"@, 0)
            } else {
                info("REPLICA_ADDED"@, now, "no_attempt"@, 0)
            },
        ),
    }
}

pub open spec fn is_primary() -> spec_fn(CopyV) -> bool {
    |c: CopyV| c.primary
}

pub open spec fn is_replica() -> spec_fn(CopyV) -> bool {
    |c: CopyV| !c.primary
}

/// Where a new primary starts: at the index's home, if the deciders let it be
/// there or documents are already written there.
pub open spec fn home_of(ctx: CtxV, t: Seq<IndexV>, m: MetaV, shard: u32) -> Option<Seq<char>> {
    match lookup(ctx.primary_home, m.name) {
        Some(home) => match ctx.node(home) {
            Some(node) => if ctx.home_holds_documents.contains(m.name) || worst(
                may_allocate(ctx, t, new_primary(m, shard, ctx.now), node),
            ) != Decision::No {
                Some(node.id)
            } else {
                None
            },
            None => None,
        },
        None => None,
    }
}

/// The copies of a shard with a primary among them, a new one before the
/// others when there was none.
pub open spec fn with_primary(
    ctx: CtxV,
    t: Seq<IndexV>,
    ids: IdsV,
    m: MetaV,
    shard: u32,
    copies: Seq<CopyV>,
) -> (Seq<CopyV>, IdsV) {
    if any(copies, is_primary()) {
        (copies, ids)
    } else {
        match home_of(ctx, t, m, shard) {
            Some(home) => (copies.insert(0, primary_at(m, shard, home, ids.id())), ids.taken()),
            None => (copies.insert(0, new_primary(m, shard, ctx.now)), ids),
        }
    }
}

/// The place of the last element that passes, below nothing when none does.
pub open spec fn last_of(s: Seq<CopyV>, p: spec_fn(CopyV) -> bool) -> int
    decreases s.len(),
{
    if s.len() == 0 {
        -1
    } else if p(s.last()) {
        s.len() - 1
    } else {
        last_of(s.drop_last(), p)
    }
}

/// The copies left when replicas on no node are dropped from the end, up to a
/// number of them, and how many are still to drop.
pub open spec fn drop_waiting(copies: Seq<CopyV>, i: nat, extra: nat) -> (Seq<CopyV>, nat)
    decreases i,
{
    if extra == 0 || i == 0 {
        (copies, extra)
    } else {
        let k = i - 1;
        if !copies[k].primary && copies[k].state == ShardState::Unassigned {
            drop_waiting(copies.remove(k), k as nat, (extra - 1) as nat)
        } else {
            drop_waiting(copies, k as nat, extra)
        }
    }
}

/// The copies left when a number of replicas are dropped from the end.
pub open spec fn drop_replicas(copies: Seq<CopyV>, extra: nat) -> Seq<CopyV>
    decreases extra,
{
    if extra == 0 {
        copies
    } else {
        let k = last_of(copies, is_replica());
        drop_replicas(
            if k >= 0 {
                copies.remove(k)
            } else {
                copies
            },
            (extra - 1) as nat,
        )
    }
}

/// The copies of a shard with as many replicas as the setting asks for: those
/// on no node are dropped first, then the rest from the end.
pub open spec fn with_replicas(
    m: MetaV,
    shard: u32,
    now: u64,
    copies: Seq<CopyV>,
    fresh: bool,
) -> Seq<CopyV> {
    let have = count(copies, is_replica());
    if have <= m.replicas {
        copies + Seq::new(
            (m.replicas - have) as nat,
            |i: int| new_replica(m, shard, now, fresh),
        )
    } else {
        let (left, extra) = drop_waiting(copies, copies.len(), (have - m.replicas) as nat);
        drop_replicas(left, extra)
    }
}

/// One shard brought up to the index.
pub open spec fn synced_shard(
    ctx: CtxV,
    t: Seq<IndexV>,
    ids: IdsV,
    m: MetaV,
    shard: u32,
    old: Seq<Seq<CopyV>>,
) -> (Seq<CopyV>, IdsV) {
    let fresh = shard >= old.len();
    let copies = if fresh {
        Seq::empty()
    } else {
        old[shard as int]
    };
    let (with, next) = with_primary(ctx, t, ids, m, shard, copies);
    (with_replicas(m, shard, ctx.now, with, fresh), next)
}

/// The first shards of an index brought up to it.
pub open spec fn synced_shards(
    ctx: CtxV,
    t: Seq<IndexV>,
    ids: IdsV,
    m: MetaV,
    old: Seq<Seq<CopyV>>,
    n: nat,
) -> (Seq<Seq<CopyV>>, IdsV)
    decreases n,
{
    if n == 0 {
        (Seq::empty(), ids)
    } else {
        let (shards, next) = synced_shards(ctx, t, ids, m, old, (n - 1) as nat);
        let (copies, after) = synced_shard(ctx, t, next, m, (n - 1) as u32, old);
        (shards.push(copies), after)
    }
}

/// The shards a table has of an index.
pub open spec fn known_shards(t: Seq<IndexV>, name: Seq<char>) -> Seq<Seq<CopyV>> {
    let i = place(t, name);
    if i < t.len() {
        t[i].shards
    } else {
        Seq::empty()
    }
}

/// The table brought up to the first indices: those and no others, in order.
pub open spec fn synced(ctx: CtxV, t: Seq<IndexV>, ids: IdsV, n: nat) -> (Seq<IndexV>, IdsV)
    decreases n,
{
    if n == 0 {
        (Seq::empty(), ids)
    } else {
        let (done, next) = synced(ctx, t, ids, (n - 1) as nat);
        let m = ctx.indices[n - 1];
        let (shards, after) = synced_shards(
            ctx,
            t,
            next,
            m,
            known_shards(t, m.name),
            m.shards as nat,
        );
        (done.push(IndexV { name: m.name, shards }), after)
    }
}

fn fresh_primary(m: &IndexMetadata, shard: u32, now: u64) -> (r: ShardRouting)
    ensures
        r.deep_view() == new_primary(m.deep_view(), shard, now),
{
    let at: u64 = if m.creation_date >= now {
        m.creation_date
    } else {
        now
    };
    ShardRouting {
        index: m.name.clone(),
        shard,
        primary: true,
        state: ShardState::Unassigned,
        node: None,
        relocating_node: None,
        allocation_id: None,
        unassigned: Some(unassigned_info("INDEX_CREATED", at, "no_attempt", 0)),
    }
}

fn fresh_replica(m: &IndexMetadata, shard: u32, now: u64, fresh: bool) -> (r: ShardRouting)
    ensures
        r.deep_view() == new_replica(m.deep_view(), shard, now, fresh),
{
    let at: u64 = if m.creation_date >= now {
        m.creation_date
    } else {
        now
    };
    ShardRouting {
        index: m.name.clone(),
        shard,
        primary: false,
        state: ShardState::Unassigned,
        node: None,
        relocating_node: None,
        allocation_id: None,
        unassigned: Some(
            if fresh {
                unassigned_info("INDEX_CREATED", at, "no_attempt", 0)
            } else {
                unassigned_info("REPLICA_ADDED", now, "no_attempt", 0)
            },
        ),
    }
}

fn find_home<'a>(ctx: &Context<'a>, table: &RoutingTable, m: &IndexMetadata, shard: u32) -> (r:
    Option<&'a DiscoveryNode>)
    ensures
        match r {
            Some(n) => home_of(ctx.deep_view(), table.deep_view(), m.deep_view(), shard) == Some(
                n.deep_view().id,
            ),
            None => home_of(ctx.deep_view(), table.deep_view(), m.deep_view(), shard) is None,
        },
{
    match get(ctx.primary_home, m.name.as_str()) {
        Some(home) => match ctx.node(home) {
            Some(node) => {
                let primary = fresh_primary(m, shard, ctx.now);
                if has_text(ctx.home_holds_documents, m.name.as_str()) || overall(
                    &can_allocate(ctx, table, &primary, node),
                ) != Decision::No {
                    Some(node)
                } else {
                    None
                }
            },
            None => None,
        },
        None => None,
    }
}

fn add_primary(
    ctx: &Context,
    table: &RoutingTable,
    ids: &mut Ids,
    m: &IndexMetadata,
    shard: u32,
    copies: &mut Vec<ShardRouting>,
)
    ensures
        (final(copies).deep_view(), final(ids).deep_view()) == with_primary(
            ctx.deep_view(),
            table.deep_view(),
            old(ids).deep_view(),
            m.deep_view(),
            shard,
            old(copies).deep_view(),
        ),
{
    let ghost p = is_primary();
    let f = |c: &ShardRouting| -> (r: bool)
        ensures
            r == p(c.deep_view()),
        { c.primary };
    if !any_in(copies, f, Ghost(p)) {
        match find_home(ctx, table, m, shard) {
            Some(home) => {
                let id = ids.take();
                insert_at(
                    copies,
                    0,
                    ShardRouting {
                        index: m.name.clone(),
                        shard,
                        primary: true,
                        state: ShardState::Started,
                        node: Some(home.id.clone()),
                        relocating_node: None,
                        allocation_id: Some(id),
                        unassigned: None,
                    },
                );
            },
            None => {
                insert_at(copies, 0, fresh_primary(m, shard, ctx.now));
            },
        }
    }
}

fn remove_waiting(copies: &mut Vec<ShardRouting>, extra: usize) -> (left: usize)
    ensures
        (final(copies).deep_view(), left as nat) == drop_waiting(
            old(copies).deep_view(),
            old(copies)@.len(),
            extra as nat,
        ),
{
    let mut left: usize = extra;
    let mut i: usize = copies.len();
    while left > 0 && i > 0
        invariant
            i <= copies@.len(),
            drop_waiting(old(copies).deep_view(), old(copies)@.len(), extra as nat)
                == drop_waiting(copies.deep_view(), i as nat, left as nat),
        decreases i,
    {
        i -= 1;
        if !copies[i].primary && copies[i].state == ShardState::Unassigned {
            let _gone = remove_at(copies, i);
            left -= 1;
        }
    }
    left
}

fn last_replica(copies: &Vec<ShardRouting>) -> (r: Option<usize>)
    ensures
        match r {
            Some(k) => k < copies@.len() && k == last_of(copies.deep_view(), is_replica()),
            None => last_of(copies.deep_view(), is_replica()) == -1,
        },
{
    let mut k: usize = copies.len();
    assert(copies.deep_view().take(k as int) =~= copies.deep_view());
    while k > 0
        invariant
            k <= copies@.len(),
            last_of(copies.deep_view(), is_replica()) == last_of(
                copies.deep_view().take(k as int),
                is_replica(),
            ),
        decreases k,
    {
        proof {
            crate::list::lemma_take(copies.deep_view(), k - 1);
        }
        if !copies[k - 1].primary {
            return Some(k - 1);
        }
        k -= 1;
    }
    None
}

fn remove_replicas(copies: &mut Vec<ShardRouting>, extra: usize)
    ensures
        final(copies).deep_view() == drop_replicas(old(copies).deep_view(), extra as nat),
{
    let mut left: usize = extra;
    while left > 0
        invariant
            drop_replicas(old(copies).deep_view(), extra as nat) == drop_replicas(
                copies.deep_view(),
                left as nat,
            ),
        decreases left,
    {
        if let Some(k) = last_replica(copies) {
            let _gone = remove_at(copies, k);
        }
        left -= 1;
    }
}

fn set_replicas(
    m: &IndexMetadata,
    shard: u32,
    now: u64,
    copies: &mut Vec<ShardRouting>,
    fresh: bool,
)
    ensures
        final(copies).deep_view() == with_replicas(
            m.deep_view(),
            shard,
            now,
            old(copies).deep_view(),
            fresh,
        ),
{
    let ghost before = copies.deep_view();
    let ghost p = is_replica();
    let f = |c: &ShardRouting| -> (r: bool)
        ensures
            r == p(c.deep_view()),
        { !c.primary };
    let have: usize = count_in(copies, f, Ghost(p));
    let want: usize = m.number_of_replicas as usize;
    if have <= want {
        let ghost one = new_replica(m.deep_view(), shard, now, fresh);
        assert(before + Seq::new(0, |i: int| one) =~= before);
        let mut i: usize = have;
        while i < want
            invariant
                have <= i <= want,
                one == new_replica(m.deep_view(), shard, now, fresh),
                copies.deep_view() == before + Seq::new((i - have) as nat, |i: int| one),
            decreases want - i,
        {
            push_to(copies, fresh_replica(m, shard, now, fresh));
            i += 1;
            assert(copies.deep_view() =~= before + Seq::new((i - have) as nat, |i: int| one));
        }
        assert(copies.deep_view() =~= with_replicas(m.deep_view(), shard, now, before, fresh));
    } else {
        let left = remove_waiting(copies, have - want);
        remove_replicas(copies, left);
    }
}

fn sync_shards(
    ctx: &Context,
    table: &RoutingTable,
    ids: &mut Ids,
    m: &IndexMetadata,
) -> (shards: Vec<Vec<ShardRouting>>)
    ensures
        (shards.deep_view(), final(ids).deep_view()) == synced_shards(
            ctx.deep_view(),
            table.deep_view(),
            old(ids).deep_view(),
            m.deep_view(),
            known_shards(table.deep_view(), m.deep_view().name),
            m.number_of_shards as nat,
        ),
{
    let ghost old_shards = known_shards(table.deep_view(), m.deep_view().name);
    let at = table.place_of(m.name.as_str());
    let mut shards: Vec<Vec<ShardRouting>> = Vec::new();
    assert(shards.deep_view() =~= Seq::<Seq<CopyV>>::empty());
    for shard in 0..m.number_of_shards
        invariant
            at == place(table.deep_view(), m.deep_view().name),
            at <= table.indices@.len(),
            old_shards == known_shards(table.deep_view(), m.deep_view().name),
            (shards.deep_view(), ids.deep_view()) == synced_shards(
                ctx.deep_view(),
                table.deep_view(),
                old(ids).deep_view(),
                m.deep_view(),
                old_shards,
                shard as nat,
            ),
    {
        let known = at < table.indices.len() && (shard as usize) < table.indices[at].shards.len();
        let mut copies: Vec<ShardRouting> = if known {
            copy_copies(&table.indices[at].shards[shard as usize])
        } else {
            Vec::new()
        };
        assert(copies.deep_view() =~= if known {
            old_shards[shard as int]
        } else {
            Seq::empty()
        });
        add_primary(ctx, table, ids, m, shard, &mut copies);
        set_replicas(m, shard, ctx.now, &mut copies, !known);
        push_to(&mut shards, copies);
    }
    shards
}

/// The table brought up to the indices there are.
pub fn sync(ctx: &Context, table: &RoutingTable, ids: &mut Ids) -> (r: RoutingTable)
    ensures
        (r.deep_view(), final(ids).deep_view()) == synced(
            ctx.deep_view(),
            table.deep_view(),
            old(ids).deep_view(),
            ctx.deep_view().indices.len(),
        ),
        r.indices@.len() == ctx.deep_view().indices.len(),
{
    let mut indices: Vec<IndexRouting> = Vec::new();
    assert(indices.deep_view() =~= Seq::<IndexV>::empty());
    for i in 0..ctx.indices.len()
        invariant
            indices@.len() == i,
            (indices.deep_view(), ids.deep_view()) == synced(
                ctx.deep_view(),
                table.deep_view(),
                old(ids).deep_view(),
                i as nat,
            ),
    {
        let m = &ctx.indices[i];
        assert(ctx.deep_view().indices[i as int] == m.deep_view());
        let shards = sync_shards(ctx, table, ids, m);
        push_to(&mut indices, IndexRouting { name: m.name.clone(), shards });
    }
    RoutingTable { indices }
}

// ---- what it comes to ----------------------------------------------------------

/// The table has the indices there are, in order, and every one has as many
/// shards as its settings say.
pub proof fn law_the_table_follows_the_indices(ctx: CtxV, t: Seq<IndexV>, ids: IdsV)
    ensures
        synced(ctx, t, ids, ctx.indices.len()).0.len() == ctx.indices.len(),
        forall|i: int|
            0 <= i < ctx.indices.len() ==> {
                let e = #[trigger] synced(ctx, t, ids, ctx.indices.len()).0[i];
                e.name == ctx.indices[i].name && e.shards.len() == ctx.indices[i].shards
            },
{
    lemma_synced(ctx, t, ids, ctx.indices.len());
}

proof fn lemma_synced(ctx: CtxV, t: Seq<IndexV>, ids: IdsV, n: nat)
    requires
        n <= ctx.indices.len(),
    ensures
        synced(ctx, t, ids, n).0.len() == n,
        forall|i: int|
            0 <= i < n ==> {
                let e = #[trigger] synced(ctx, t, ids, n).0[i];
                e.name == ctx.indices[i].name && e.shards.len() == ctx.indices[i].shards
            },
    decreases n,
{
    if n > 0 {
        let k = (n - 1) as nat;
        lemma_synced(ctx, t, ids, k);
        let m = ctx.indices[k as int];
        lemma_shards(
            ctx,
            t,
            synced(ctx, t, ids, k).1,
            m,
            known_shards(t, m.name),
            m.shards as nat,
        );
        assert forall|i: int| 0 <= i < n implies {
            let e = #[trigger] synced(ctx, t, ids, n).0[i];
            e.name == ctx.indices[i].name && e.shards.len() == ctx.indices[i].shards
        } by {
            if i < k {
                assert(synced(ctx, t, ids, n).0[i] == synced(ctx, t, ids, k).0[i]);
            }
        }
    }
}

proof fn lemma_shards(
    ctx: CtxV,
    t: Seq<IndexV>,
    ids: IdsV,
    m: MetaV,
    old: Seq<Seq<CopyV>>,
    n: nat,
)
    ensures
        synced_shards(ctx, t, ids, m, old, n).0.len() == n,
    decreases n,
{
    if n > 0 {
        lemma_shards(ctx, t, ids, m, old, (n - 1) as nat);
    }
}

proof fn lemma_count_remove(s: Seq<CopyV>, p: spec_fn(CopyV) -> bool, k: int)
    requires
        0 <= k < s.len(),
    ensures
        count(s.remove(k), p) == count(s, p) - if p(s[k]) {
            1int
        } else {
            0int
        },
    decreases s.len(),
{
    if k == s.len() - 1 {
        assert(s.remove(k) =~= s.drop_last());
    } else {
        lemma_count_remove(s.drop_last(), p, k);
        assert(s.remove(k).drop_last() =~= s.drop_last().remove(k));
        assert(s.remove(k).last() == s.last());
    }
}

proof fn lemma_last_of(s: Seq<CopyV>, p: spec_fn(CopyV) -> bool)
    ensures
        -1 <= last_of(s, p) < s.len(),
        last_of(s, p) >= 0 ==> p(s[last_of(s, p)]),
        last_of(s, p) < 0 ==> count(s, p) == 0,
    decreases s.len(),
{
    if s.len() > 0 && !p(s.last()) {
        lemma_last_of(s.drop_last(), p);
    }
}

proof fn lemma_drop_replicas(s: Seq<CopyV>, extra: nat)
    requires
        extra <= count(s, is_replica()),
    ensures
        count(drop_replicas(s, extra), is_replica()) == count(s, is_replica()) - extra,
    decreases extra,
{
    if extra > 0 {
        lemma_last_of(s, is_replica());
        let k = last_of(s, is_replica());
        lemma_count_remove(s, is_replica(), k);
        lemma_drop_replicas(s.remove(k), (extra - 1) as nat);
    }
}

proof fn lemma_drop_waiting(s: Seq<CopyV>, i: nat, extra: nat)
    requires
        i <= s.len(),
        extra <= count(s, is_replica()),
    ensures
        drop_waiting(s, i, extra).1 <= count(drop_waiting(s, i, extra).0, is_replica()),
        count(drop_waiting(s, i, extra).0, is_replica()) - drop_waiting(s, i, extra).1 == count(
            s,
            is_replica(),
        ) - extra,
    decreases i,
{
    if extra > 0 && i > 0 {
        let k = i - 1;
        if !s[k].primary && s[k].state == ShardState::Unassigned {
            lemma_count_remove(s, is_replica(), k);
            lemma_drop_waiting(s.remove(k), k as nat, (extra - 1) as nat);
        } else {
            lemma_drop_waiting(s, k as nat, extra);
        }
    }
}

proof fn lemma_count_more(s: Seq<CopyV>, c: CopyV, n: nat)
    requires
        !c.primary,
    ensures
        count(s + Seq::new(n, |i: int| c), is_replica()) == count(s, is_replica()) + n,
    decreases n,
{
    let more = Seq::new(n, |i: int| c);
    if n == 0 {
        assert(s + more =~= s);
    } else {
        let less = Seq::new((n - 1) as nat, |i: int| c);
        lemma_count_more(s, c, (n - 1) as nat);
        assert((s + more).drop_last() =~= s + less);
        assert((s + more).last() == c);
    }
}

/// The number of replicas of a shard follows the setting, whatever it was.
pub proof fn law_the_replicas_follow_the_setting(
    m: MetaV,
    shard: u32,
    now: u64,
    copies: Seq<CopyV>,
    fresh: bool,
)
    ensures
        count(with_replicas(m, shard, now, copies, fresh), is_replica()) == m.replicas,
{
    let have = count(copies, is_replica());
    if have <= m.replicas {
        let c = new_replica(m, shard, now, fresh);
        lemma_count_more(copies, c, (m.replicas - have) as nat);
        assert(with_replicas(m, shard, now, copies, fresh) =~= copies + Seq::new(
            (m.replicas - have) as nat,
            |i: int| c,
        ));
    } else {
        let extra = (have - m.replicas) as nat;
        lemma_drop_waiting(copies, copies.len(), extra);
        let (left, more) = drop_waiting(copies, copies.len(), extra);
        lemma_drop_replicas(left, more);
    }
}

} // verus!
