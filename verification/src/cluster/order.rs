//! Nodes and indices in their order, each once: what keeps them so, and what
//! rests on it.

use vstd::prelude::*;

use super::balance::{
    heavier, law_the_ranking_is_lightest_first, lemma_ranking, ranking, ranking_of, weight_of,
    RankedV,
};
use super::commands::{
    allocate_command, cancel_command, commanded, commanded_all, move_command, moved_shards,
    CommandsV,
};
use super::reports::{forgiven_table, replaced};
use super::reroute::{law_reroute_keeps_indices_whole, rerouted, same_shape};
use super::settings::{Context, CtxV};
use super::state::{
    copies_of, named, place, CopyV, DiscoveryNode, IdsV, IndexMetadata, IndexV, MetaV, NodeId, NodeV,
};
use crate::json::JsonV;
use crate::list::{
    before, comes_before, find, in_order, keep, lemma_before_before, lemma_found, lemma_keep,
};

verus! {

/// Whether nodes are in the order of their ids, none twice.
pub open spec fn nodes_in_order(nodes: Seq<NodeV>) -> bool {
    forall|i: int, j: int|
        0 <= i < j < nodes.len() ==> before((#[trigger] nodes[i]).id, (#[trigger] nodes[j]).id)
}

/// Whether indices are in the order of their names, none twice.
pub open spec fn indices_in_order(indices: Seq<MetaV>) -> bool {
    forall|i: int, j: int|
        0 <= i < j < indices.len() ==> before(
            (#[trigger] indices[i]).name,
            (#[trigger] indices[j]).name,
        )
}

/// Whether a table is in the order of its indices' names, none twice.
pub open spec fn table_in_order(t: Seq<IndexV>) -> bool {
    forall|i: int, j: int|
        0 <= i < j < t.len() ==> before((#[trigger] t[i]).name, (#[trigger] t[j]).name)
}

/// Whether the shards an index knows the copies of are in their order, none
/// twice.
pub open spec fn shards_in_order(in_sync: Seq<(u32, Seq<Seq<char>>)>) -> bool {
    forall|i: int, j: int|
        0 <= i < j < in_sync.len() ==> (#[trigger] in_sync[i]).0 < (#[trigger] in_sync[j]).0
}

/// Whether all that allocation looks at is in its order: the nodes and what each
/// holds by id, the indices and their homes by name.
pub open spec fn all_in_order(ctx: CtxV) -> bool {
    &&& nodes_in_order(ctx.nodes)
    &&& indices_in_order(ctx.indices)
    &&& in_order(ctx.primary_home)
    &&& in_order(ctx.held)
    &&& forall|i: int| 0 <= i < ctx.nodes.len() ==> in_order((#[trigger] ctx.nodes[i]).attributes)
    &&& forall|i: int|
        0 <= i < ctx.indices.len() ==> shards_in_order((#[trigger] ctx.indices[i]).in_sync)
}

/// Whether names are in their order, none twice.
pub open spec fn rising(names: Seq<Seq<char>>) -> bool {
    forall|i: int, j: int|
        0 <= i < j < names.len() ==> before(#[trigger] names[i], #[trigger] names[j])
}

fn rises(names: &Vec<&str>) -> (r: bool)
    ensures
        r == rising(names.deep_view()),
{
    let ghost nv = names.deep_view();
    let mut k: usize = 1;
    while k < names.len()
        invariant
            k >= 1,
            nv == names.deep_view(),
            forall|i: int, j: int|
                0 <= i < j < k && j < nv.len() ==> before(#[trigger] nv[i], #[trigger] nv[j]),
        decreases names@.len() - k,
    {
        assert(nv[k - 1] == names@[k - 1]@);
        assert(nv[k as int] == names@[k as int]@);
        if !comes_before(names[k - 1], names[k]) {
            assert(!before(nv[k - 1], nv[k as int]));
            return false;
        }
        assert forall|i: int, j: int| 0 <= i < j < k + 1 && j < nv.len() implies before(
            #[trigger] nv[i],
            #[trigger] nv[j],
        ) by {
            if j == k && i < k - 1 {
                assert(before(nv[i], nv[k - 1]));
                lemma_before_before(nv[i], nv[k - 1], nv[k as int]);
            }
        }
        k += 1;
    }
    true
}

fn node_ids(nodes: &Vec<DiscoveryNode>) -> (r: bool)
    ensures
        r == nodes_in_order(nodes.deep_view()),
{
    let ghost nv = nodes.deep_view();
    let mut names: Vec<&str> = Vec::new();
    for i in 0..nodes.len()
        invariant
            nv == nodes.deep_view(),
            names@.len() == i,
            forall|j: int| 0 <= j < i ==> names@[j]@ == (#[trigger] nv[j]).id,
    {
        assert(nv[i as int] == nodes@[i as int].deep_view());
        names.push(nodes[i].id.as_str());
    }
    let ghost ns = names.deep_view();
    let r = rises(&names);
    proof {
        assert forall|j: int| 0 <= j < nv.len() implies #[trigger] ns[j] == nv[j].id by {}
        if r {
            assert forall|i: int, j: int| 0 <= i < j < nv.len() implies before(
                (#[trigger] nv[i]).id,
                (#[trigger] nv[j]).id,
            ) by {
                assert(before(ns[i], ns[j]));
            }
        } else {
            let (i, j) = choose|i: int, j: int|
                0 <= i < j < ns.len() && !before(#[trigger] ns[i], #[trigger] ns[j]);
            assert(!before(nv[i].id, nv[j].id));
        }
    }
    r
}

fn index_names(indices: &Vec<IndexMetadata>) -> (r: bool)
    ensures
        r == indices_in_order(indices.deep_view()),
{
    let ghost iv = indices.deep_view();
    let mut names: Vec<&str> = Vec::new();
    for i in 0..indices.len()
        invariant
            iv == indices.deep_view(),
            names@.len() == i,
            forall|j: int| 0 <= j < i ==> names@[j]@ == (#[trigger] iv[j]).name,
    {
        assert(iv[i as int] == indices@[i as int].deep_view());
        names.push(indices[i].name.as_str());
    }
    let ghost ns = names.deep_view();
    let r = rises(&names);
    proof {
        assert forall|j: int| 0 <= j < iv.len() implies #[trigger] ns[j] == iv[j].name by {}
        if r {
            assert forall|i: int, j: int| 0 <= i < j < iv.len() implies before(
                (#[trigger] iv[i]).name,
                (#[trigger] iv[j]).name,
            ) by {
                assert(before(ns[i], ns[j]));
            }
        } else {
            let (i, j) = choose|i: int, j: int|
                0 <= i < j < ns.len() && !before(#[trigger] ns[i], #[trigger] ns[j]);
            assert(!before(iv[i].name, iv[j].name));
        }
    }
    r
}

/// Whether pairs are in the order of the names that come first in them.
proof fn lemma_first_names<V>(s: Seq<(Seq<char>, V)>, names: Seq<Seq<char>>)
    requires
        names.len() == s.len(),
        forall|j: int| 0 <= j < s.len() ==> #[trigger] names[j] == s[j].0,
    ensures
        rising(names) == in_order(s),
{
    if rising(names) {
        assert forall|i: int, j: int| 0 <= i < j < s.len() implies before(
            #[trigger] s[i].0,
            #[trigger] s[j].0,
        ) by {
            assert(before(names[i], names[j]));
        }
    }
    if in_order(s) {
        assert forall|i: int, j: int| 0 <= i < j < names.len() implies before(
            #[trigger] names[i],
            #[trigger] names[j],
        ) by {
            assert(before(s[i].0, s[j].0));
        }
    }
}

fn attribute_names(node: &DiscoveryNode) -> (r: bool)
    ensures
        r == in_order(node.deep_view().attributes),
{
    let ghost av = node.deep_view().attributes;
    let mut names: Vec<&str> = Vec::new();
    for i in 0..node.attributes.len()
        invariant
            av == node.attributes.deep_view(),
            names@.len() == i,
            forall|j: int| 0 <= j < i ==> #[trigger] names@[j]@ == av[j].0,
    {
        assert(av[i as int] == (node.attributes@[i as int].0@, node.attributes@[i as int].1@));
        names.push(node.attributes[i].0.as_str());
    }
    proof {
        let ns = names.deep_view();
        assert forall|j: int| 0 <= j < av.len() implies #[trigger] ns[j] == av[j].0 by {
            assert(names@[j]@ == av[j].0);
        }
        lemma_first_names(av, ns);
    }
    rises(&names)
}

fn home_names(homes: &Vec<(String, NodeId)>) -> (r: bool)
    ensures
        r == in_order(homes.deep_view()),
{
    let ghost hv = homes.deep_view();
    let mut names: Vec<&str> = Vec::new();
    for i in 0..homes.len()
        invariant
            hv == homes.deep_view(),
            names@.len() == i,
            forall|j: int| 0 <= j < i ==> #[trigger] names@[j]@ == hv[j].0,
    {
        assert(hv[i as int] == (homes@[i as int].0@, homes@[i as int].1.deep_view()));
        names.push(homes[i].0.as_str());
    }
    proof {
        let ns = names.deep_view();
        assert forall|j: int| 0 <= j < hv.len() implies #[trigger] ns[j] == hv[j].0 by {
            assert(names@[j]@ == hv[j].0);
        }
        lemma_first_names(hv, ns);
    }
    rises(&names)
}

fn holder_ids(held: &Vec<(NodeId, Vec<(String, String, String)>)>) -> (r: bool)
    ensures
        r == in_order(held.deep_view()),
{
    let ghost hv = held.deep_view();
    let mut names: Vec<&str> = Vec::new();
    for i in 0..held.len()
        invariant
            hv == held.deep_view(),
            names@.len() == i,
            forall|j: int| 0 <= j < i ==> #[trigger] names@[j]@ == hv[j].0,
    {
        assert(hv[i as int] == (held@[i as int].0.deep_view(), held@[i as int].1.deep_view()));
        names.push(held[i].0.as_str());
    }
    proof {
        let ns = names.deep_view();
        assert forall|j: int| 0 <= j < hv.len() implies #[trigger] ns[j] == hv[j].0 by {
            assert(names@[j]@ == hv[j].0);
        }
        lemma_first_names(hv, ns);
    }
    rises(&names)
}

fn shard_numbers(in_sync: &Vec<(u32, Vec<String>)>) -> (r: bool)
    ensures
        r == shards_in_order(in_sync.deep_view()),
{
    let ghost sv = in_sync.deep_view();
    let mut k: usize = 1;
    while k < in_sync.len()
        invariant
            k >= 1,
            sv == in_sync.deep_view(),
            forall|i: int, j: int|
                0 <= i < j < k && j < sv.len() ==> (#[trigger] sv[i]).0 < (#[trigger] sv[j]).0,
        decreases in_sync@.len() - k,
    {
        assert(sv[k - 1].0 == in_sync@[k - 1].0);
        assert(sv[k as int].0 == in_sync@[k as int].0);
        if in_sync[k - 1].0 >= in_sync[k].0 {
            assert(!(sv[k - 1].0 < sv[k as int].0));
            return false;
        }
        k += 1;
    }
    true
}

/// Whether all that allocation looks at is in its order: the nodes and what each
/// holds by id, the indices and their homes by name.
pub fn is_in_order(ctx: &Context) -> (r: bool)
    ensures
        r == all_in_order(ctx.deep_view()),
{
    if !node_ids(ctx.nodes) || !index_names(ctx.indices) || !home_names(ctx.primary_home)
        || !holder_ids(ctx.held) {
        return false;
    }
    let ghost nv = ctx.nodes.deep_view();
    let ghost iv = ctx.indices.deep_view();
    for i in 0..ctx.nodes.len()
        invariant
            nv == ctx.nodes.deep_view(),
            nv == ctx.deep_view().nodes,
            forall|j: int| 0 <= j < i ==> in_order((#[trigger] nv[j]).attributes),
    {
        assert(nv[i as int] == ctx.nodes@[i as int].deep_view());
        if !attribute_names(&ctx.nodes[i]) {
            return false;
        }
    }
    for i in 0..ctx.indices.len()
        invariant
            iv == ctx.indices.deep_view(),
            iv == ctx.deep_view().indices,
            forall|j: int| 0 <= j < i ==> shards_in_order((#[trigger] iv[j]).in_sync),
    {
        assert(iv[i as int] == ctx.indices@[i as int].deep_view());
        if !shard_numbers(&ctx.indices[i].in_sync_allocations) {
            return false;
        }
    }
    true
}

// ---- what keeps tables in order ------------------------------------------------

/// The table `reroute` gives is in the order of its indices' names, none twice,
/// where the indices are, whatever the table was before.
pub proof fn law_reroute_gives_a_table_in_order(ctx: CtxV, t: Seq<IndexV>, ids: IdsV)
    requires
        indices_in_order(ctx.indices),
    ensures
        table_in_order(rerouted(ctx, t, ids).t),
{
    law_reroute_keeps_indices_whole(ctx, t, ids);
    let after = rerouted(ctx, t, ids).t;
    assert forall|i: int, j: int| 0 <= i < j < after.len() implies before(
        (#[trigger] after[i]).name,
        (#[trigger] after[j]).name,
    ) by {
        assert(after[i].name == ctx.indices[i].name && after[j].name == ctx.indices[j].name);
    }
}

proof fn lemma_same_names(a: Seq<IndexV>, b: Seq<IndexV>)
    requires
        table_in_order(a),
        same_shape(b, a),
    ensures
        table_in_order(b),
{
    assert forall|i: int, j: int| 0 <= i < j < b.len() implies before(
        (#[trigger] b[i]).name,
        (#[trigger] b[j]).name,
    ) by {
        assert(b[i].name == a[i].name && b[j].name == a[j].name);
    }
}

proof fn lemma_replaced(t: Seq<IndexV>, index: Seq<char>, shard: u32, copies: Option<Seq<CopyV>>)
    requires
        copies is Some ==> copies_of(t, index, shard).len() > 0,
    ensures
        same_shape(replaced(t, index, shard, copies), t),
{
    lemma_found(t, named(index));
    if copies is Some {
        let i = place(t, index);
        assert(0 <= i < t.len());
    }
}

/// A report of a data node leaves a table in its order: that a copy has started
/// or failed, that it missed a write, and that failures are forgotten.
pub proof fn law_reports_keep_a_table_in_order(
    t: Seq<IndexV>,
    index: Seq<char>,
    shard: u32,
    id: Seq<char>,
    now: u64,
    message: Seq<char>,
)
    requires
        table_in_order(t),
    ensures
        ({
            let copies = copies_of(t, index, shard);
            &&& super::reports::started(copies, id) matches Some((after, what))
                ==> table_in_order(replaced(t, index, shard, Some(after)))
            &&& table_in_order(
                replaced(t, index, shard, super::reports::failed(copies, id, now, message)),
            )
            &&& table_in_order(replaced(t, index, shard, super::reports::stale(copies, id, now)))
            &&& table_in_order(forgiven_table(t))
        }),
{
    let copies = copies_of(t, index, shard);
    lemma_found(copies, super::moves::has_id(Some(id)));
    lemma_found(copies, super::reports::replica_with_id(id));
    match super::reports::started(copies, id) {
        Some((after, what)) => {
            lemma_replaced(t, index, shard, Some(after));
            lemma_same_names(t, replaced(t, index, shard, Some(after)));
        },
        None => {},
    }
    let failed = super::reports::failed(copies, id, now, message);
    lemma_replaced(t, index, shard, failed);
    lemma_same_names(t, replaced(t, index, shard, failed));
    let stale = super::reports::stale(copies, id, now);
    lemma_replaced(t, index, shard, stale);
    lemma_same_names(t, replaced(t, index, shard, stale));
    lemma_same_names(t, forgiven_table(t));
}

proof fn lemma_moved_shards(
    st: CommandsV,
    index: Seq<char>,
    primary: bool,
    from: Seq<char>,
    to: Seq<char>,
    list: Seq<CopyV>,
    n: nat,
)
    ensures
        same_shape(moved_shards(st, index, primary, from, to, list, n).t, st.t),
    decreases n,
{
    if n > 0 {
        lemma_moved_shards(st, index, primary, from, to, list, (n - 1) as nat);
        let before = moved_shards(st, index, primary, from, to, list, (n - 1) as nat);
        let copies = copies_of(before.t, index, list[n - 1].shard);
        let p = super::commands::started_on(primary, from);
        lemma_found(copies, p);
        if find(copies, p) < copies.len() {
            lemma_replaced(
                before.t,
                index,
                list[n - 1].shard,
                Some(
                    super::work::moved(
                        copies,
                        find(copies, p),
                        index,
                        list[n - 1].shard,
                        primary,
                        from,
                        to,
                        before.ids.id(),
                    ),
                ),
            );
        }
    }
}

proof fn lemma_commanded(ctx: CtxV, st: CommandsV, command: JsonV, explain: bool)
    ensures
        commanded(ctx, st, command, explain) matches Ok(after) ==> same_shape(after.t, st.t),
{
    if let JsonV::Object(o) = command {
        if o.len() > 0 {
            let (name, args) = o[0];
            let index = crate::json::text_member(args, "index"@);
            let shard = crate::json::whole_member(args, "shard"@) as u32;
            lemma_move(ctx, st, name, args, explain);
            lemma_allocate(ctx, st, name, args, explain);
            lemma_cancel(ctx, st, name, args, explain);
        }
    }
}

proof fn lemma_move(ctx: CtxV, st: CommandsV, name: Seq<char>, args: JsonV, explain: bool)
    ensures
        move_command(ctx, st, name, args, explain) matches Ok(after) ==> same_shape(
            after.t,
            st.t,
        ),
{
    let index = crate::json::text_member(args, "index"@);
    let shard = crate::json::whole_member(args, "shard"@) as u32;
    match super::commands::resolved(ctx, crate::json::text_member(args, "from_node"@)) {
        Some(from) => {
            match super::commands::resolved(ctx, crate::json::text_member(args, "to_node"@)) {
                Some(to) => {
                    let here = super::state::shards_of(st.t, index);
                    let k = find(here, super::commands::shard_on(shard, from.id));
                    let list = keep(
                        here,
                        super::commands::started_on(here[k].primary, from.id),
                    );
                    lemma_moved_shards(
                        st,
                        index,
                        here[k].primary,
                        from.id,
                        to.id,
                        list,
                        list.len(),
                    );
                },
                None => {},
            }
        },
        None => {},
    }
}

proof fn lemma_allocate(ctx: CtxV, st: CommandsV, name: Seq<char>, args: JsonV, explain: bool)
    ensures
        allocate_command(ctx, st, name, args, explain) matches Ok(after) ==> same_shape(
            after.t,
            st.t,
        ),
{
    let index = crate::json::text_member(args, "index"@);
    let shard = crate::json::whole_member(args, "shard"@) as u32;
    let primary = name != "allocate_replica"@;
    let copies = copies_of(st.t, index, shard);
    let p = super::commands::waiting_as(primary);
    let pos = find(copies, p);
    lemma_found(copies, p);
    match super::commands::resolved(ctx, crate::json::text_member(args, "node"@)) {
        Some(node) => {
            if pos < copies.len() {
                lemma_replaced(
                    st.t,
                    index,
                    shard,
                    Some(
                        copies.update(
                            pos,
                            super::commands::forced_on(
                                copies[pos],
                                node.id,
                                st.ids.id(),
                                primary,
                            ),
                        ),
                    ),
                );
            }
        },
        None => {},
    }
}

proof fn lemma_cancel(ctx: CtxV, st: CommandsV, name: Seq<char>, args: JsonV, explain: bool)
    ensures
        cancel_command(ctx, st, name, args, explain) matches Ok(after) ==> same_shape(
            after.t,
            st.t,
        ),
{
    let index = crate::json::text_member(args, "index"@);
    let shard = crate::json::whole_member(args, "shard"@) as u32;
    let copies = copies_of(st.t, index, shard);
    match super::commands::resolved(ctx, crate::json::text_member(args, "node"@)) {
        Some(node) => {
            let here = super::state::shards_of(st.t, index);
            let i = find(here, super::commands::shard_on(shard, node.id));
            let p = super::moves::has_id(here[i].allocation_id);
            let pos = find(copies, p);
            lemma_found(copies, p);
            if pos < copies.len() {
                lemma_replaced(
                    st.t,
                    index,
                    shard,
                    Some(super::commands::cancelled(copies, pos, here[i], ctx.now)),
                );
            }
        },
        None => {},
    }
}

/// Commands leave a table in its order.
pub proof fn law_commands_keep_a_table_in_order(
    ctx: CtxV,
    st: CommandsV,
    commands: Seq<JsonV>,
    explain: bool,
    n: nat,
)
    requires
        table_in_order(st.t),
        n <= commands.len(),
    ensures
        commanded_all(ctx, st, commands, explain, n) matches Ok(after) ==> table_in_order(after.t),
    decreases n,
{
    if n > 0 {
        law_commands_keep_a_table_in_order(ctx, st, commands, explain, (n - 1) as nat);
        match commanded_all(ctx, st, commands, explain, (n - 1) as nat) {
            Ok(before) => {
                lemma_commanded(ctx, before, commands[n - 1], explain);
                match commanded(ctx, before, commands[n - 1], explain) {
                    Ok(after) => {
                        lemma_same_names(before.t, after.t);
                    },
                    Err(_) => {},
                }
            },
            Err(_) => {},
        }
    }
}

// ---- what rests on it ----------------------------------------------------------

proof fn lemma_kept_in_order(nodes: Seq<NodeV>, p: spec_fn(NodeV) -> bool)
    requires
        nodes_in_order(nodes),
    ensures
        nodes_in_order(keep(nodes, p)),
    decreases nodes.len(),
{
    if nodes.len() > 0 {
        let d = nodes.drop_last();
        assert(nodes_in_order(d)) by {
            assert forall|i: int, j: int| 0 <= i < j < d.len() implies before(
                (#[trigger] d[i]).id,
                (#[trigger] d[j]).id,
            ) by {
                assert(d[i] == nodes[i] && d[j] == nodes[j]);
            }
        }
        lemma_kept_in_order(d, p);
        lemma_keep(d, p);
        let kept = keep(nodes, p);
        assert forall|i: int, j: int| 0 <= i < j < kept.len() implies before(
            (#[trigger] kept[i]).id,
            (#[trigger] kept[j]).id,
        ) by {
            let x = keep(d, p)[i];
            assert(kept[i] == x);
            if j < keep(d, p).len() {
                assert(kept[j] == keep(d, p)[j]);
            } else {
                assert(d.contains(x));
                let k = d.index_of(x);
                assert(nodes[k] == x);
                assert(before(nodes[k].id, nodes[nodes.len() - 1].id));
            }
        }
    }
}

proof fn lemma_ties(ctx: CtxV, t: Seq<IndexV>, index: Seq<char>, nodes: Seq<NodeV>, n: nat)
    requires
        n <= nodes.len(),
        nodes_in_order(nodes),
    ensures
        ranking_of(ctx, t, index, nodes, n).len() == n,
        forall|i: int, j: int|
            0 <= i < j < n && (#[trigger] ranking_of(ctx, t, index, nodes, n)[i]).weight == (
            #[trigger] ranking_of(ctx, t, index, nodes, n)[j]).weight ==> before(
                ranking_of(ctx, t, index, nodes, n)[i].node.id,
                ranking_of(ctx, t, index, nodes, n)[j].node.id,
            ),
        forall|i: int|
            0 <= i < n ==> exists|k: int|
                0 <= k < n && #[trigger] nodes[k] == (#[trigger] ranking_of(
                    ctx,
                    t,
                    index,
                    nodes,
                    n,
                )[i]).node,
    decreases n,
{
    if n > 0 {
        let m = (n - 1) as nat;
        lemma_ties(ctx, t, index, nodes, m);
        lemma_ranking(ctx, t, index, nodes, m);
        let r = ranking_of(ctx, t, index, nodes, m);
        let w = weight_of(ctx, t, index, nodes[m as int].id);
        let x = RankedV { node: nodes[m as int], weight: w };
        let at = find(r, heavier(w));
        lemma_found(r, heavier(w));
        let after = ranking_of(ctx, t, index, nodes, n);
        assert(after == r.insert(at, x));
        assert forall|i: int, j: int| 0 <= i < j < n && (#[trigger] after[i]).weight == (
        #[trigger] after[j]).weight implies before(after[i].node.id, after[j].node.id) by {
            if i < at {
                assert(after[i] == r[i]);
            } else if i > at {
                assert(after[i] == r[i - 1]);
            }
            if j < at {
                assert(after[j] == r[j]);
            } else if j > at {
                assert(after[j] == r[j - 1]);
                if i == at {
                    assert(r[at].weight > w);
                    assert(r[at].weight <= r[j - 1].weight || at == j - 1);
                }
            } else {
                let k = choose|k: int| 0 <= k < m && #[trigger] nodes[k] == r[i].node;
                assert(before(nodes[k].id, nodes[m as int].id));
            }
        }
        assert forall|i: int| 0 <= i < n implies exists|k: int|
            0 <= k < n && #[trigger] nodes[k] == (#[trigger] after[i]).node by {
            if i < at {
                assert(after[i] == r[i]);
                let k = choose|k: int| 0 <= k < m && #[trigger] nodes[k] == r[i].node;
                assert(nodes[k] == after[i].node);
            } else if i > at {
                assert(after[i] == r[i - 1]);
                let k = choose|k: int| 0 <= k < m && #[trigger] nodes[k] == r[i - 1].node;
                assert(nodes[k] == after[i].node);
            } else {
                assert(nodes[m as int] == after[i].node);
            }
        }
    }
}

/// Of two nodes as heavy as each other the one whose id comes first is ranked
/// first, where the nodes are in the order of their ids.
pub proof fn law_ties_go_by_id(ctx: CtxV, t: Seq<IndexV>, index: Seq<char>, i: int, j: int)
    requires
        nodes_in_order(ctx.nodes),
        0 <= i < j < ranking(ctx, t, index).len(),
        ranking(ctx, t, index)[i].weight == ranking(ctx, t, index)[j].weight,
    ensures
        before(ranking(ctx, t, index)[i].node.id, ranking(ctx, t, index)[j].node.id),
{
    lemma_kept_in_order(ctx.nodes, |n: NodeV| n.data());
    law_the_ranking_is_lightest_first(ctx, t, index);
    lemma_ties(ctx, t, index, ctx.data_nodes(), ctx.data_nodes().len());
}

} // verus!
