//! What a cluster knows of its zones, its in-sync copies and its ids.

use vstd::prelude::*;

use crate::cluster::deciders::{values_and, values_on, zones};
use crate::cluster::placement::{holds_in_sync, is_held, of_node};
use crate::cluster::settings::CtxV;
use crate::cluster::state::{copies_of, primary_of, CopyV, IdsV, IndexV, NodeV};
use crate::cluster::work::ChangesV;
use crate::list::{any, lemma_find, lemma_found, lemma_with, lookup};
use crate::text::dec;

verus! {

proof fn lemma_values_on(nodes: Seq<NodeV>, attr: Seq<char>, n: nat, v: Seq<char>)
    requires
        n <= nodes.len(),
    ensures
        lookup(values_on(nodes, attr, n), v) is Some <==> exists|i: int|
            0 <= i < n && lookup((#[trigger] nodes[i]).attributes, attr) == Some(v),
    decreases n,
{
    if n == 0 {
        lemma_found(values_on(nodes, attr, n), crate::list::called::<()>(v));
    } else {
        lemma_values_on(nodes, attr, (n - 1) as nat, v);
        let g = values_on(nodes, attr, (n - 1) as nat);
        match lookup(nodes[n - 1].attributes, attr) {
            Some(x) => {
                lemma_with(g, x, (), v);
                if x == v {
                    assert(lookup(nodes[n - 1].attributes, attr) == Some(v));
                }
            },
            None => {},
        }
    }
}

proof fn lemma_values_and(
    values: Seq<(Seq<char>, ())>,
    more: Seq<Seq<char>>,
    n: nat,
    v: Seq<char>,
)
    requires
        n <= more.len(),
    ensures
        lookup(values_and(values, more, n), v) is Some <==> lookup(values, v) is Some || exists|
            i: int,
        |
            0 <= i < n && #[trigger] more[i] == v,
    decreases n,
{
    if n > 0 {
        lemma_values_and(values, more, (n - 1) as nat, v);
        lemma_with(values_and(values, more, (n - 1) as nat), more[n - 1], (), v);
        if more[n - 1] == v {
            assert(more[n - 1] == v);
        }
    }
}

/// The values of an attribute are those that the nodes with data have, and those that are
/// said to be there whether or not a node has them.
pub proof fn law_the_values_of_an_attribute(ctx: CtxV, attr: Seq<char>, v: Seq<char>)
    ensures
        lookup(zones(ctx, attr), v) is Some <==> (exists|i: int|
            0 <= i < ctx.data_nodes().len() && lookup(
                (#[trigger] ctx.data_nodes()[i]).attributes,
                attr,
            ) == Some(v)) || (lookup(ctx.cluster.awareness_forced, attr) matches Some(f)
            && f.contains(v)),
{
    let nodes = ctx.data_nodes();
    lemma_values_on(nodes, attr, nodes.len(), v);
    match lookup(ctx.cluster.awareness_forced, attr) {
        Some(f) => {
            lemma_values_and(values_on(nodes, attr, nodes.len()), f, f.len(), v);
            if f.contains(v) {
                let i = f.index_of(v);
                assert(f[i] == v);
            }
        },
        None => {},
    }
}

/// A node has data that is one with the data role, and no other.
pub proof fn law_which_nodes_have_data(ctx: CtxV, n: NodeV)
    ensures
        ctx.data_nodes().contains(n) <==> ctx.nodes.contains(n) && n.roles.contains("data"@),
{
    crate::laws::words::law_what_passes_is_kept(ctx.nodes, |x: NodeV| x.data(), n);
}

/// A node holds a copy in sync of an index that it says it holds, of the same name, the same
/// making and an id that is known to have missed nothing.
pub proof fn law_which_node_holds_a_copy_in_sync(
    ctx: CtxV,
    k: int,
    j: int,
    name: Seq<char>,
    uuid: Seq<char>,
    in_sync: Seq<Seq<char>>,
)
    requires
        0 <= k < ctx.held.len(),
        forall|i: int| 0 <= i < k ==> (#[trigger] ctx.held[i]).0 != ctx.held[k].0,
    ensures
        ({
            let (id, held) = ctx.held[k];
            &&& 0 <= j < held.len() && held[j].0 == name && held[j].1 == uuid && in_sync.contains(
                held[j].2,
            ) ==> holds_in_sync(ctx, id, name, uuid, in_sync)
            &&& (forall|i: int|
                0 <= i < held.len() ==> (#[trigger] held[i]).0 != name || held[i].1 != uuid
                    || !in_sync.contains(held[i].2)) ==> !holds_in_sync(
                ctx,
                id,
                name,
                uuid,
                in_sync,
            )
        }),
{
    let (id, held) = ctx.held[k];
    lemma_find(ctx.held, of_node(id), k);
    let p = is_held(name, uuid, in_sync);
    if 0 <= j < held.len() && held[j].0 == name && held[j].1 == uuid && in_sync.contains(
        held[j].2,
    ) {
        assert(p(held[j]));
    }
    if any(held, p) {
        let i = choose|i: int| 0 <= i < held.len() && p(#[trigger] held[i]);
        assert(held[i].0 == name && held[i].1 == uuid && in_sync.contains(held[i].2));
    }
}

/// A node of which nothing is known holds nothing in sync.
pub proof fn law_an_unheard_node_holds_nothing(
    ctx: CtxV,
    id: Seq<char>,
    name: Seq<char>,
    uuid: Seq<char>,
    in_sync: Seq<Seq<char>>,
)
    requires
        forall|i: int| 0 <= i < ctx.held.len() ==> (#[trigger] ctx.held[i]).0 != id,
    ensures
        !holds_in_sync(ctx, id, name, uuid, in_sync),
{
    lemma_found(ctx.held, of_node(id));
}

/// An id is made up of the run and a number, and the next id has the next number.
pub proof fn law_ids_are_counted_up(ids: IdsV)
    ensures
        ids.id() == ids.run + "-"@ + dec(ids.next as nat),
        ids.next < u64::MAX ==> ids.taken().next == ids.next + 1,
        ids.taken().run == ids.run,
{
}

/// The primary of a shard is the first of its copies that is one.
pub proof fn law_the_primary_of_a_shard(t: Seq<IndexV>, name: Seq<char>, shard: u32, i: int, k: int)
    requires
        0 <= i < t.len(),
        t[i].name == name,
        forall|j: int| 0 <= j < i ==> (#[trigger] t[j]).name != name,
        shard < t[i].shards.len(),
    ensures
        copies_of(t, name, shard) == t[i].shards[shard as int],
        0 <= k < t[i].shards[shard as int].len() && t[i].shards[shard as int][k].primary && (forall|
            j: int,
        |
            0 <= j < k ==> !(#[trigger] t[i].shards[shard as int][j]).primary) ==> primary_of(
            t,
            name,
            shard,
        ) == Some(t[i].shards[shard as int][k]),
        (forall|j: int|
            0 <= j < t[i].shards[shard as int].len() ==> !(#[trigger] t[i].shards[shard as int][j]).primary)
            ==> primary_of(t, name, shard) is None,
{
    lemma_find(t, crate::cluster::state::named(name), i);
    let copies = t[i].shards[shard as int];
    let p = |c: CopyV| c.primary;
    lemma_found(copies, p);
    if 0 <= k < copies.len() && copies[k].primary && (forall|j: int|
        0 <= j < k ==> !(#[trigger] copies[j]).primary) {
        lemma_find(copies, p, k);
    }
}

/// What a change says is added to what was said before it, under its own kind.
pub proof fn law_what_changes_say(
    ch: ChangesV,
    name: Seq<char>,
    shard: u32,
    primary: bool,
    a: Seq<char>,
    b: Seq<char>,
)
    ensures
        ch.assign(name, shard, primary, a) == (ChangesV {
            assigned: ch.assigned.push((name, shard, primary, a)),
            ..ch
        }),
        ch.unassign(name, shard, primary, a) == (ChangesV {
            unassigned: ch.unassigned.push((name, shard, primary, a)),
            ..ch
        }),
        ch.promote(name, shard, a) == (ChangesV {
            promoted: ch.promoted.push((name, shard, a)),
            ..ch
        }),
        ch.relocate(name, shard, primary, a, b) == (ChangesV {
            relocating: ch.relocating.push((name, shard, primary, a, b)),
            ..ch
        }),
        ch.retire(name, shard, a) == (ChangesV {
            retired: ch.retired.push((name, shard, a)),
            ..ch
        }),
        ch.note(a) == (ChangesV { notes: ch.notes.push(a), ..ch }),
        ch.still() <==> ch.assigned.len() == 0 && ch.unassigned.len() == 0 && ch.promoted.len() == 0
            && ch.relocating.len() == 0,
        ChangesV::none().still(),
{
}

} // verus!
