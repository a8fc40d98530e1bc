//! The balancer: how heavy a node is for an index, in exact arithmetic.

use vstd::prelude::*;

use super::settings::{Context, CtxV, ROOM};
use super::state::{is_node, place, CopyV, DiscoveryNode, IndexRouting, IndexV, NodeId, NodeV, RoutingTable, ShardRouting, ShardState};
use crate::json::FURTHEST;
use crate::list::{any, find, find_in, flat, insert_at, lemma_take};

verus! {

/// Whether a copy is on a node, and a primary or a replica as asked.
pub open spec fn held_as(id: Seq<char>, primary: bool) -> spec_fn(CopyV) -> bool {
    |c: CopyV| c.node == Some(id) && c.state != ShardState::Unassigned && c.primary == primary
}

/// How many copies of an index a node holds: an index is held whole, so its
/// primary counts once and its replica once, however many shards it has.
pub open spec fn held_of(e: IndexV, id: Seq<char>) -> int {
    (if any(flat(e.shards), held_as(id, true)) {
        1int
    } else {
        0int
    }) + (if any(flat(e.shards), held_as(id, false)) {
        1int
    } else {
        0int
    })
}

/// How many copies of indices a node holds.
pub open spec fn held_in(t: Seq<IndexV>, id: Seq<char>) -> int
    decreases t.len(),
{
    if t.len() == 0 {
        0
    } else {
        held_in(t.drop_last(), id) + held_of(t.last(), id)
    }
}

/// How many copies of one index a node holds.
pub open spec fn held_of_index(t: Seq<IndexV>, index: Seq<char>, id: Seq<char>) -> int {
    let i = place(t, index);
    if i < t.len() {
        held_of(t[i], id)
    } else {
        0
    }
}

/// How many copies of indices the first nodes hold.
pub open spec fn total_in(t: Seq<IndexV>, nodes: Seq<NodeV>, n: nat) -> int
    decreases n,
{
    if n == 0 {
        0
    } else {
        total_in(t, nodes, (n - 1) as nat) + held_in(t, nodes[n - 1].id)
    }
}

/// How many copies of one index the first nodes hold.
pub open spec fn total_of_index(t: Seq<IndexV>, index: Seq<char>, nodes: Seq<NodeV>, n: nat) -> int
    decreases n,
{
    if n == 0 {
        0
    } else {
        total_of_index(t, index, nodes, (n - 1) as nat) + held_of_index(
            t,
            index,
            nodes[n - 1].id,
        )
    }
}

/// A factor, no further from nothing than a million.
pub open spec fn factor(millionths: i64) -> int {
    if millionths > FURTHEST {
        FURTHEST as int
    } else if millionths < -FURTHEST {
        -FURTHEST
    } else {
        millionths as int
    }
}

/// How many nodes the copies are spread over.
pub open spec fn spread(ctx: CtxV) -> int {
    if ctx.data_nodes().len() == 0 {
        1
    } else {
        ctx.data_nodes().len() as int
    }
}

/// The two factors together.
pub open spec fn factors(ctx: CtxV) -> int {
    factor(ctx.cluster.balance_shard) + factor(ctx.cluster.balance_index)
}

/// What a weight of one is, in the units `weight_of` counts in.
pub open spec fn one(ctx: CtxV) -> int {
    spread(ctx) * if factors(ctx) < 0 {
        -factors(ctx)
    } else {
        factors(ctx)
    }
}

/// How far above the average a node is in copies, weighed by the factors:
/// `shard / (shard + index) * (all - total / nodes) + index / (shard +
/// index) * (of_index - total_of_index / nodes)`, in units of
/// `1 / (nodes * (shard + index))`. Nothing when the factors add up to nothing.
pub open spec fn weight_of(ctx: CtxV, t: Seq<IndexV>, index: Seq<char>, id: Seq<char>) -> int {
    let data = ctx.data_nodes();
    let n = spread(ctx);
    let above = held_in(t, id) * n - total_in(t, data, data.len());
    let above_index = held_of_index(t, index, id) * n - total_of_index(
        t,
        index,
        data,
        data.len(),
    );
    let w = factor(ctx.cluster.balance_shard) * above + factor(ctx.cluster.balance_index)
        * above_index;
    if factors(ctx) < 0 {
        -w
    } else if factors(ctx) == 0 {
        0
    } else {
        w
    }
}

proof fn lemma_held(t: Seq<IndexV>, id: Seq<char>)
    ensures
        0 <= held_in(t, id) <= 2 * t.len(),
    decreases t.len(),
{
    if t.len() > 0 {
        lemma_held(t.drop_last(), id);
    }
}

fn held_count(e: &IndexRouting, id: &NodeId) -> (n: i128)
    ensures
        n == held_of(e.deep_view(), id.deep_view()),
        0 <= n <= 2,
{
    let mut r: i128 = 0;
    if holds(e, id, true) {
        r += 1;
    }
    if holds(e, id, false) {
        r += 1;
    }
    r
}

proof fn lemma_flat_any(s: Seq<Seq<CopyV>>, p: spec_fn(CopyV) -> bool, k: int)
    requires
        0 <= k <= s.len(),
    ensures
        any(flat(s.take(k)), p) == exists|i: int, j: int|
            0 <= i < k && 0 <= j < s[i].len() && p(#[trigger] s[i][j]),
    decreases k,
{
    if k == 0 {
        assert(s.take(0).len() == 0);
    } else {
        lemma_take(s, k - 1);
        lemma_flat_any(s, p, k - 1);
        let a = flat(s.take(k - 1));
        let b = s[k - 1];
        let f = flat(s.take(k));
        assert(f == a + b);
        if any(f, p) {
            let x = choose|x: int| 0 <= x < f.len() && p(#[trigger] f[x]);
            if x < a.len() {
                assert(p(a[x]));
                assert(any(a, p));
            } else {
                assert(p(s[k - 1][x - a.len()]));
            }
        }
        if exists|i: int, j: int| 0 <= i < k && 0 <= j < s[i].len() && p(#[trigger] s[i][j]) {
            let (i, j) = choose|i: int, j: int|
                0 <= i < k && 0 <= j < s[i].len() && p(#[trigger] s[i][j]);
            if i < k - 1 {
                assert(p(s[i][j]));
                assert(any(a, p));
                let x = choose|x: int| 0 <= x < a.len() && p(#[trigger] a[x]);
                assert(p(f[x]));
            } else {
                assert(p(f[a.len() + j]));
            }
        }
    }
}

fn holds(e: &IndexRouting, id: &NodeId, primary: bool) -> (r: bool)
    ensures
        r == any(flat(e.deep_view().shards), held_as(id.deep_view(), primary)),
{
    let ghost p = held_as(id.deep_view(), primary);
    let ghost s = e.deep_view().shards;
    proof {
        lemma_flat_any(s, p, s.len() as int);
        assert(s.take(s.len() as int) =~= s);
    }
    for i in 0..e.shards.len()
        invariant
            s == e.deep_view().shards,
            p == held_as(id.deep_view(), primary),
            any(flat(s), p) == exists|i: int, j: int|
                0 <= i < s.len() && 0 <= j < s[i].len() && p(#[trigger] s[i][j]),
            forall|a: int, b: int| 0 <= a < i && 0 <= b < s[a].len() ==> !p(#[trigger] s[a][b]),
    {
        let copies = &e.shards[i];
        assert(s[i as int] == copies.deep_view());
        let f = |c: &ShardRouting| -> (r: bool)
            ensures
                r == p(c.deep_view()),
            {
                is_node(&c.node, id) && c.state != ShardState::Unassigned && c.primary == primary
            };
        let k = find_in(copies, f, Ghost(p));
        proof {
            crate::list::lemma_found(copies.deep_view(), p);
        }
        if k < copies.len() {
            assert(p(s[i as int][k as int]));
            return true;
        }
    }
    false
}

fn held_all(table: &RoutingTable, id: &NodeId) -> (n: i128)
    requires
        table.indices@.len() <= ROOM,
    ensures
        n == held_in(table.deep_view(), id.deep_view()),
        0 <= n <= 2 * table.indices@.len(),
{
    let mut n: i128 = 0;
    for i in 0..table.indices.len()
        invariant
            table.indices@.len() <= ROOM,
            n == held_in(table.deep_view().take(i as int), id.deep_view()),
            0 <= n <= 2 * i,
    {
        proof {
            lemma_take(table.deep_view(), i as int);
        }
        n += held_count(&table.indices[i], id);
    }
    assert(table.deep_view().take(table.indices@.len() as int) =~= table.deep_view());
    n
}

fn held_index(table: &RoutingTable, index: &str, id: &NodeId) -> (n: i128)
    ensures
        n == held_of_index(table.deep_view(), index@, id.deep_view()),
        0 <= n <= 2,
{
    let i = table.place_of(index);
    if i < table.indices.len() {
        held_count(&table.indices[i], id)
    } else {
        0
    }
}

fn factor_of(millionths: i64) -> (r: i128)
    ensures
        r == factor(millionths),
        -1_000_000_000_000 <= r <= 1_000_000_000_000,
{
    if millionths > FURTHEST as i64 {
        FURTHEST as i128
    } else if millionths < -(FURTHEST as i64) {
        -(FURTHEST as i128)
    } else {
        millionths as i128
    }
}

/// The bounds of a weight, wide of what it can be.
proof fn lemma_room(held: int, n: int, total: int, f: int, most: int)
    requires
        0 <= held <= 2 * most,
        1 <= n <= 0x4000_0000,
        0 <= total <= n * (2 * most),
        0 <= most <= 0x4000_0000,
        -1_000_000_000_000 <= f <= 1_000_000_000_000,
    ensures
        0 <= held * n <= 0x2000_0000_0000_0000,
        total <= 0x2000_0000_0000_0000,
        -0x20_0000_0000_0000_0000_0000_0000 <= f * (held * n - total)
            <= 0x20_0000_0000_0000_0000_0000_0000,
{
    assert(held * n <= (2 * most) * n) by (nonlinear_arith)
        requires
            0 <= held <= 2 * most,
            1 <= n,
    ;
    assert((2 * most) * n <= 0x2000_0000_0000_0000) by (nonlinear_arith)
        requires
            0 <= most <= 0x4000_0000,
            1 <= n <= 0x4000_0000,
    ;
    assert(n * (2 * most) == (2 * most) * n) by (nonlinear_arith);
    assert(held * n >= 0) by (nonlinear_arith)
        requires
            0 <= held,
            1 <= n,
    ;
    let x = held * n - total;
    assert(-0x2000_0000_0000_0000 <= x <= 0x2000_0000_0000_0000);
    assert(-0x20_0000_0000_0000_0000_0000_0000 <= f * x <= 0x20_0000_0000_0000_0000_0000_0000)
        by (nonlinear_arith)
        requires
            -0x2000_0000_0000_0000 <= x <= 0x2000_0000_0000_0000,
            -1_000_000_000_000 <= f <= 1_000_000_000_000,
    ;
}

proof fn lemma_totals(t: Seq<IndexV>, index: Seq<char>, nodes: Seq<NodeV>, n: nat)
    requires
        n <= nodes.len(),
    ensures
        0 <= total_in(t, nodes, n) <= n * (2 * t.len()),
        0 <= total_of_index(t, index, nodes, n) <= n * 2,
    decreases n,
{
    if n > 0 {
        lemma_totals(t, index, nodes, (n - 1) as nat);
        lemma_held(t, nodes[n - 1].id);
        assert((n - 1) * (2 * t.len()) + 2 * t.len() == n * (2 * t.len())) by (nonlinear_arith);
    } else {
        assert(0 * (2 * t.len()) == 0) by (nonlinear_arith);
    }
}

/// The bounds of a weight and of one, wide of what they can be.
pub(crate) proof fn lemma_weight_room(ctx: CtxV, t: Seq<IndexV>, index: Seq<char>, id: Seq<char>)
    requires
        ctx.nodes.len() <= ROOM,
        t.len() <= ROOM,
    ensures
        -0x40_0000_0000_0000_0000_0000_0000 <= weight_of(ctx, t, index, id)
            <= 0x40_0000_0000_0000_0000_0000_0000,
        0 <= one(ctx) <= 0x80_0000_0000_0000_0000,
{
    let data = ctx.data_nodes();
    let n = spread(ctx);
    lemma_kept(ctx.nodes, |n: NodeV| n.data());
    lemma_totals(t, index, data, data.len());
    lemma_held(t, id);
    if data.len() == 0 {
        assert(0 * (2 * t.len()) == 0) by (nonlinear_arith);
        assert(1 * (2 * t.len()) == 2 * t.len()) by (nonlinear_arith);
    }
    lemma_room(
        held_in(t, id),
        n,
        total_in(t, data, data.len()),
        factor(ctx.cluster.balance_shard),
        t.len() as int,
    );
    lemma_room(
        held_of_index(t, index, id),
        n,
        total_of_index(t, index, data, data.len()),
        factor(ctx.cluster.balance_index),
        1,
    );
    let f = if factors(ctx) < 0 {
        -factors(ctx)
    } else {
        factors(ctx)
    };
    assert(0 <= n * f <= 0x80_0000_0000_0000_0000) by (nonlinear_arith)
        requires
            1 <= n <= 0x4000_0000,
            0 <= f <= 2_000_000_000_000,
    ;
}

pub(crate) proof fn lemma_kept<T>(s: Seq<T>, p: spec_fn(T) -> bool)
    ensures
        crate::list::keep(s, p).len() <= s.len(),
    decreases s.len(),
{
    if s.len() > 0 {
        lemma_kept(s.drop_last(), p);
    }
}

/// The balancer's weight of a node for an index: how far above average
/// it is in copies overall and in copies of that index. A weight of one is
/// `unit` of what this counts.
pub fn weight(ctx: &Context, table: &RoutingTable, index: &str, node: &NodeId) -> (w: i128)
    requires
        ctx.deep_view().nodes.len() <= ROOM,
        table.deep_view().len() <= ROOM,
    ensures
        w == weight_of(ctx.deep_view(), table.deep_view(), index@, node.deep_view()),
{
    let data = ctx.data_nodes();
    let ghost cv = ctx.deep_view();
    let ghost tv = table.deep_view();
    let ghost dv = cv.data_nodes();
    let n: i128 = if data.len() == 0 {
        1
    } else {
        data.len() as i128
    };
    let mut total: i128 = 0;
    let mut total_index: i128 = 0;
    for i in 0..data.len()
        invariant
            table.indices@.len() <= ROOM,
            data@.len() <= ROOM,
            tv == table.deep_view(),
            dv == data.deep_view(),
            total == total_in(tv, dv, i as nat),
            total_index == total_of_index(tv, index@, dv, i as nat),
            0 <= total <= i * 0x8000_0000,
            0 <= total_index <= i * 2,
    {
        assert(dv[i as int] == data@[i as int].deep_view());
        total += held_all(table, &data[i].id);
        total_index += held_index(table, index, &data[i].id);
    }
    let all: i128 = held_all(table, node);
    let of_index: i128 = held_index(table, index, node);
    let bs: i128 = factor_of(ctx.cluster.balance_shard);
    let bi: i128 = factor_of(ctx.cluster.balance_index);
    proof {
        lemma_totals(tv, index@, dv, dv.len());
        if dv.len() == 0 {
            assert(1 * (2 * tv.len()) == 2 * tv.len()) by (nonlinear_arith);
        }
        lemma_room(all as int, n as int, total as int, bs as int, tv.len() as int);
        lemma_room(of_index as int, n as int, total_index as int, bi as int, 1);
    }
    let w: i128 = bs * (all * n - total) + bi * (of_index * n - total_index);
    let both: i128 = bs + bi;
    if both < 0 {
        -w
    } else if both == 0 {
        0
    } else {
        w
    }
}

/// What a weight of one is, in the units `weight` counts in.
pub fn unit(ctx: &Context) -> (r: i128)
    requires
        ctx.deep_view().nodes.len() <= ROOM,
    ensures
        r == one(ctx.deep_view()),
{
    let data = ctx.data_nodes();
    let n: i128 = if data.len() == 0 {
        1
    } else {
        data.len() as i128
    };
    let both: i128 = factor_of(ctx.cluster.balance_shard) + factor_of(ctx.cluster.balance_index);
    let f: i128 = if both < 0 {
        -both
    } else {
        both
    };
    assert(0 <= n * f <= 0x80_0000_0000_0000_0000) by (nonlinear_arith)
        requires
            1 <= n <= 0x4000_0000,
            0 <= f <= 2_000_000_000_000,
    ;
    n * f
}

/// Whether a difference between two weights is above the threshold.
pub open spec fn above(ctx: CtxV, difference: int) -> bool {
    difference * 1_000_000 > factor(ctx.cluster.balance_threshold) * one(ctx)
}

/// Whether a difference between two weights is above the threshold.
pub fn is_above(ctx: &Context, difference: i128) -> (r: bool)
    requires
        ctx.deep_view().nodes.len() <= ROOM,
        -0x80_0000_0000_0000_0000_0000_0000 <= difference <= 0x80_0000_0000_0000_0000_0000_0000,
    ensures
        r == above(ctx.deep_view(), difference as int),
{
    let whole: i128 = unit(ctx);
    let t: i128 = factor_of(ctx.cluster.balance_threshold);
    proof {
        lemma_weight_room(ctx.deep_view(), Seq::empty(), Seq::empty(), Seq::empty());
        assert(-0x100_0000_0000_0000_0000_0000_0000_0000 <= t * whole
            <= 0x100_0000_0000_0000_0000_0000_0000_0000) by (nonlinear_arith)
            requires
                0 <= whole <= 0x80_0000_0000_0000_0000,
                -1_000_000_000_000 <= t <= 1_000_000_000_000,
        ;
    }
    difference * 1_000_000 > t * whole
}

// ---- the ranking ---------------------------------------------------------------

/// A node and its weight for an index.
pub struct Ranked<'a> {
    pub node: &'a DiscoveryNode,
    pub weight: i128,
}

#[verifier::ext_equal]
pub struct RankedV {
    pub node: NodeV,
    pub weight: int,
}

impl DeepView for Ranked<'_> {
    type V = RankedV;

    open spec fn deep_view(&self) -> RankedV {
        RankedV { node: self.node.deep_view(), weight: self.weight as int }
    }
}

/// The first nodes by weight, the lightest first; of two as heavy as each
/// other the one that comes first.
pub open spec fn ranking_of(
    ctx: CtxV,
    t: Seq<IndexV>,
    index: Seq<char>,
    nodes: Seq<NodeV>,
    n: nat,
) -> Seq<RankedV>
    decreases n,
{
    if n == 0 {
        Seq::empty()
    } else {
        let before = ranking_of(ctx, t, index, nodes, (n - 1) as nat);
        let w = weight_of(ctx, t, index, nodes[n - 1].id);
        before.insert(
            find(before, heavier(w)),
            RankedV { node: nodes[n - 1], weight: w },
        )
    }
}

pub open spec fn heavier(w: int) -> spec_fn(RankedV) -> bool {
    |r: RankedV| r.weight > w
}

/// The data nodes by weight for an index, the lightest first.
pub open spec fn ranking(ctx: CtxV, t: Seq<IndexV>, index: Seq<char>) -> Seq<RankedV> {
    ranking_of(ctx, t, index, ctx.data_nodes(), ctx.data_nodes().len())
}

/// Nodes ranked by weight for an index, lightest first, ties by id.
pub fn ranked<'a>(ctx: &Context<'a>, table: &RoutingTable, index: &str) -> (v: Vec<Ranked<'a>>)
    requires
        ctx.deep_view().nodes.len() <= ROOM,
        table.deep_view().len() <= ROOM,
    ensures
        v.deep_view() == ranking(ctx.deep_view(), table.deep_view(), index@),
{
    let data = ctx.data_nodes();
    let ghost dv = data.deep_view();
    let mut v: Vec<Ranked<'a>> = Vec::new();
    assert(v.deep_view() =~= Seq::<RankedV>::empty());
    for i in 0..data.len()
        invariant
            ctx.deep_view().nodes.len() <= ROOM,
            table.deep_view().len() <= ROOM,
            dv == data.deep_view(),
            v.deep_view() == ranking_of(
                ctx.deep_view(),
                table.deep_view(),
                index@,
                dv,
                i as nat,
            ),
    {
        assert(dv[i as int] == data@[i as int].deep_view());
        let w: i128 = weight(ctx, table, index, &data[i].id);
        let ghost p = heavier(w as int);
        let f = |r: &Ranked<'a>| -> (b: bool)
            ensures
                b == p(r.deep_view()),
            { r.weight > w };
        let k = find_in(&v, f, Ghost(p));
        insert_at(&mut v, k, Ranked { node: data[i], weight: w });
    }
    v
}

/// The ranking holds every data node once, each with its weight, and no node
/// stands before a lighter one.
pub proof fn law_the_ranking_is_lightest_first(ctx: CtxV, t: Seq<IndexV>, index: Seq<char>)
    ensures
        ranking(ctx, t, index).len() == ctx.data_nodes().len(),
        forall|i: int, j: int|
            0 <= i < j < ranking(ctx, t, index).len() ==> (#[trigger] ranking(ctx, t, index)[i]).weight
                <= (#[trigger] ranking(ctx, t, index)[j]).weight,
        forall|i: int|
            0 <= i < ranking(ctx, t, index).len() ==> (#[trigger] ranking(ctx, t, index)[i]).weight
                == weight_of(ctx, t, index, ranking(ctx, t, index)[i].node.id),
        ranking(ctx, t, index).to_multiset() == weighed(
            ctx,
            t,
            index,
            ctx.data_nodes(),
        ).to_multiset(),
{
    lemma_ranking(ctx, t, index, ctx.data_nodes(), ctx.data_nodes().len());
    assert(ctx.data_nodes().take(ctx.data_nodes().len() as int) =~= ctx.data_nodes());
}

/// Nodes with their weights.
pub open spec fn weighed(
    ctx: CtxV,
    t: Seq<IndexV>,
    index: Seq<char>,
    nodes: Seq<NodeV>,
) -> Seq<RankedV> {
    nodes.map_values(|n: NodeV| RankedV { node: n, weight: weight_of(ctx, t, index, n.id) })
}

pub(crate) proof fn lemma_ranking(ctx: CtxV, t: Seq<IndexV>, index: Seq<char>, nodes: Seq<NodeV>, n: nat)
    requires
        n <= nodes.len(),
    ensures
        ranking_of(ctx, t, index, nodes, n).len() == n,
        forall|i: int, j: int|
            0 <= i < j < n ==> (#[trigger] ranking_of(ctx, t, index, nodes, n)[i]).weight <= (
            #[trigger] ranking_of(ctx, t, index, nodes, n)[j]).weight,
        forall|i: int|
            0 <= i < n ==> (#[trigger] ranking_of(ctx, t, index, nodes, n)[i]).weight == weight_of(
                ctx,
                t,
                index,
                ranking_of(ctx, t, index, nodes, n)[i].node.id,
            ),
        ranking_of(ctx, t, index, nodes, n).to_multiset() == weighed(
            ctx,
            t,
            index,
            nodes.take(n as int),
        ).to_multiset(),
    decreases n,
{
    if n == 0 {
        assert(weighed(ctx, t, index, nodes.take(0)) =~= Seq::<RankedV>::empty());
    } else {
        let m = (n - 1) as nat;
        lemma_ranking(ctx, t, index, nodes, m);
        let before = ranking_of(ctx, t, index, nodes, m);
        let w = weight_of(ctx, t, index, nodes[m as int].id);
        let x = RankedV { node: nodes[m as int], weight: w };
        let k = find(before, heavier(w));
        crate::list::lemma_found(before, heavier(w));
        let after = ranking_of(ctx, t, index, nodes, n);
        assert(after == before.insert(k, x));
        assert forall|i: int, j: int| 0 <= i < j < n implies (#[trigger] after[i]).weight <= (
        #[trigger] after[j]).weight by {
            if i < k {
                assert(after[i] == before[i]);
                assert(!(heavier(w))(before[i]));
            }
            if j > k {
                assert(after[j] == before[j - 1]);
                if i == k {
                    assert(before[k].weight > w);
                    if j - 1 > k {
                        assert(before[k].weight <= before[j - 1].weight);
                    }
                }
                if i > k {
                    assert(after[i] == before[i - 1]);
                }
            }
            if j < k {
                assert(after[j] == before[j]);
            }
        }
        assert forall|i: int| 0 <= i < n implies (#[trigger] after[i]).weight == weight_of(
            ctx,
            t,
            index,
            after[i].node.id,
        ) by {
            if i < k {
                assert(after[i] == before[i]);
            } else if i > k {
                assert(after[i] == before[i - 1]);
            }
        }
        vstd::seq_lib::to_multiset_insert(before, k, x);
        assert(weighed(ctx, t, index, nodes.take(n as int)) =~= weighed(
            ctx,
            t,
            index,
            nodes.take(m as int),
        ).push(x));
        vstd::seq_lib::to_multiset_build(weighed(ctx, t, index, nodes.take(m as int)), x);
    }
}

} // verus!
