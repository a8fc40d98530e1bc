//! What a move by hand leaves behind.

use vstd::prelude::*;

use crate::cluster::commands::{
    move_between, moved_shards, on_its_way, shard_on, started_on, CommandsV,
};
use crate::cluster::deciders::{may_allocate, worst, Decision};
use crate::cluster::reports::replaced;
use crate::cluster::settings::CtxV;
use crate::cluster::state::{
    copies_of, named, place, shards_of, CopyV, IndexV, NodeV, ShardState,
};
use crate::cluster::work::moved;
use crate::json::JsonV;
use crate::list::{any, find, keep, lemma_find, lemma_found};

verus! {

/// Whether a shard of an index is on its way from one node to another: a copy of it leaves,
/// and another arrives.
pub open spec fn under_way(
    t: Seq<IndexV>,
    index: Seq<char>,
    shard: u32,
    primary: bool,
    from: Seq<char>,
    to: Seq<char>,
) -> bool {
    let copies = copies_of(t, index, shard);
    &&& exists|a: int|
        0 <= a < copies.len() && (#[trigger] copies[a]).state == ShardState::Relocating
            && copies[a].node == Some(from) && copies[a].relocating_node == Some(to)
            && copies[a].primary == primary
    &&& exists|b: int|
        0 <= b < copies.len() && (#[trigger] copies[b]).state == ShardState::Initializing
            && copies[b].node == Some(to) && copies[b].relocating_node == Some(from)
            && copies[b].primary == primary
}

proof fn lemma_replaced(
    t: Seq<IndexV>,
    index: Seq<char>,
    shard: u32,
    copies: Seq<CopyV>,
    other: u32,
)
    requires
        place(t, index) < t.len(),
        shard < t[place(t, index)].shards.len(),
    ensures
        copies_of(replaced(t, index, shard, Some(copies)), index, shard) == copies,
        other != shard ==> copies_of(replaced(t, index, shard, Some(copies)), index, other)
            == copies_of(t, index, other),
        place(replaced(t, index, shard, Some(copies)), index) == place(t, index),
        replaced(t, index, shard, Some(copies)).len() == t.len(),
{
    let p = named(index);
    lemma_found(t, p);
    let i = place(t, index);
    let u = replaced(t, index, shard, Some(copies));
    assert forall|j: int| 0 <= j < i implies !p(#[trigger] u[j]) by {
        assert(u[j] == t[j]);
        assert(!p(t[j]));
    }
    lemma_find(u, p, i);
}

proof fn lemma_moved(
    copies: Seq<CopyV>,
    index: Seq<char>,
    shard: u32,
    primary: bool,
    from: Seq<char>,
    to: Seq<char>,
    id: Seq<char>,
)
    requires
        find(copies, started_on(primary, from)) < copies.len(),
    ensures
        ({
            let after = moved(
                copies,
                find(copies, started_on(primary, from)),
                index,
                shard,
                primary,
                from,
                to,
                id,
            );
            &&& exists|a: int|
                0 <= a < after.len() && (#[trigger] after[a]).state == ShardState::Relocating
                    && after[a].node == Some(from) && after[a].relocating_node == Some(to)
                    && after[a].primary == primary
            &&& exists|b: int|
                0 <= b < after.len() && (#[trigger] after[b]).state == ShardState::Initializing
                    && after[b].node == Some(to) && after[b].relocating_node == Some(from)
                    && after[b].primary == primary
        }),
{
    let p = started_on(primary, from);
    lemma_found(copies, p);
    let pos = find(copies, p);
    let after = moved(copies, pos, index, shard, primary, from, to, id);
    assert(after[pos].state == ShardState::Relocating);
    assert(after[after.len() - 1].state == ShardState::Initializing);
}

proof fn lemma_step(
    st: CommandsV,
    index: Seq<char>,
    primary: bool,
    from: Seq<char>,
    to: Seq<char>,
    list: Seq<CopyV>,
    n: nat,
    s: u32,
)
    requires
        n <= list.len(),
        any(copies_of(st.t, index, s), started_on(primary, from)),
    ensures
        ({
            let after = moved_shards(st, index, primary, from, to, list, n);
            &&& any(copies_of(after.t, index, s), started_on(primary, from)) || under_way(
                after.t,
                index,
                s,
                primary,
                from,
                to,
            )
            &&& (exists|k: int| 0 <= k < n && (#[trigger] list[k]).shard == s) ==> under_way(
                after.t,
                index,
                s,
                primary,
                from,
                to,
            )
        }),
    decreases n,
{
    if n > 0 {
        lemma_step(st, index, primary, from, to, list, (n - 1) as nat, s);
        let before = moved_shards(st, index, primary, from, to, list, (n - 1) as nat);
        let after = moved_shards(st, index, primary, from, to, list, n);
        let shard = list[n - 1].shard;
        let copies = copies_of(before.t, index, shard);
        let p = started_on(primary, from);
        lemma_found(copies, p);
        let pos = find(copies, p);
        lemma_found(before.t, named(index));
        if pos < copies.len() {
            let now = moved(copies, pos, index, shard, primary, from, to, before.ids.id());
            lemma_replaced(before.t, index, shard, now, s);
            if shard == s {
                lemma_moved(copies, index, shard, primary, from, to, before.ids.id());
                assert(copies_of(after.t, index, s) == now);
                assert(under_way(after.t, index, s, primary, from, to));
            }
        } else {
            if shard == s {
                if any(copies, p) {
                    let j = choose|j: int| 0 <= j < copies.len() && p(#[trigger] copies[j]);
                    assert(false);
                }
            }
        }
    }
}

/// A move by hand that is let puts the shard under way: its copy goes on serving where it is,
/// and another is filled from it on the node it goes to.
pub proof fn law_a_move_by_hand_puts_a_shard_under_way(
    ctx: CtxV,
    st: CommandsV,
    name: Seq<char>,
    index: Seq<char>,
    shard: u32,
    from: NodeV,
    to: NodeV,
    params: JsonV,
    explain: bool,
    i: int,
    k: int,
)
    requires
        0 <= i < shards_of(st.t, index).len(),
        shards_of(st.t, index)[i].shard == shard,
        shards_of(st.t, index)[i].node == Some(from.id),
        shards_of(st.t, index)[i].state == ShardState::Started,
        forall|j: int|
            0 <= j < i ==> !((#[trigger] shards_of(st.t, index)[j]).shard == shard && shards_of(
                st.t,
                index,
            )[j].node == Some(from.id)),
        forall|j: int|
            0 <= j < shards_of(st.t, index).len() ==> !((#[trigger] shards_of(st.t, index)[j]).shard
                == shard && shards_of(st.t, index)[j].relocating_node == Some(to.id) && shards_of(
                st.t,
                index,
            )[j].node == Some(from.id)),
        worst(may_allocate(ctx, st.t, shards_of(st.t, index)[i], to)) != Decision::No,
        0 <= k < copies_of(st.t, index, shard).len(),
        copies_of(st.t, index, shard)[k] == shards_of(st.t, index)[i],
    ensures
        move_between(ctx, st, name, index, shard, from, to, params, explain) matches Ok(after)
            && under_way(
            after.t,
            index,
            shard,
            shards_of(st.t, index)[i].primary,
            from.id,
            to.id,
        ),
{
    let here = shards_of(st.t, index);
    let copy = here[i];
    lemma_find(here, shard_on(shard, from.id), i);
    let q = on_its_way(shard, from.id, to.id);
    if any(here, q) {
        let j = choose|j: int| 0 <= j < here.len() && q(#[trigger] here[j]);
        assert(here[j].relocating_node == Some(to.id));
    }
    let p = started_on(copy.primary, from.id);
    let list = keep(here, p);
    assert(here.contains(copy));
    crate::laws::words::law_what_passes_is_kept(here, p, copy);
    let at = list.index_of(copy);
    assert(list[at].shard == shard);
    assert(p(copies_of(st.t, index, shard)[k]));
    lemma_step(st, index, copy.primary, from.id, to.id, list, list.len(), shard);
}

} // verus!
