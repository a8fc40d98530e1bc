//! Which copies go when fewer are wanted, and which are lost when nodes leave.

use vstd::prelude::*;

use crate::cluster::departures::{
    called_off, lose, losses, lost, not_orphan, orphan, without_orphans,
};
use crate::cluster::settings::{CtxV, SettingsV};
use crate::cluster::state::{CopyV, MetaV, ShardState};
use crate::cluster::sync::{drop_waiting, is_replica, with_replicas};
use crate::cluster::work::ChangesV;
use crate::laws::words::law_what_passes_is_kept;
use crate::list::count;

verus! {

spec fn waits(c: CopyV) -> bool {
    !c.primary && c.state == ShardState::Unassigned
}

/// The replicas that wait for a place.
pub open spec fn is_waiting() -> spec_fn(CopyV) -> bool {
    |c: CopyV| !c.primary && c.state == ShardState::Unassigned
}

proof fn lemma_dropped(copies: Seq<CopyV>, i: nat, extra: nat, c: CopyV)
    requires
        i <= copies.len(),
        copies.contains(c),
        !waits(c),
    ensures
        drop_waiting(copies, i, extra).0.contains(c),
    decreases i,
{
    if extra > 0 && i > 0 {
        let k = i - 1;
        if waits(copies[k]) {
            let rest = copies.remove(k);
            let j = copies.index_of(c);
            if j < k {
                assert(rest[j] == c);
            } else {
                assert(rest[j - 1] == c);
            }
            lemma_dropped(rest, k as nat, (extra - 1) as nat, c);
        } else {
            lemma_dropped(copies, k as nat, extra, c);
        }
    }
}

proof fn lemma_enough(copies: Seq<CopyV>, i: nat, extra: nat)
    requires
        i <= copies.len(),
        count(copies.take(i as int), is_waiting()) >= extra,
    ensures
        drop_waiting(copies, i, extra).1 == 0,
    decreases i,
{
    if i == 0 {
        assert(copies.take(0) =~= Seq::empty());
    } else if extra > 0 {
        let k = i - 1;
        assert(copies.take(i as int).drop_last() =~= copies.take(k));
        assert(copies.take(i as int).last() == copies[k]);
        if waits(copies[k]) {
            let rest = copies.remove(k);
            assert(rest.take(k) =~= copies.take(k));
            lemma_enough(rest, k as nat, (extra - 1) as nat);
        } else {
            lemma_enough(copies, k as nat, extra);
        }
    }
}

/// Where fewer replicas are wanted and as many wait for a place as are too many, only those
/// go: every copy that has a place stays.
pub proof fn law_replicas_that_wait_go_first(
    m: MetaV,
    shard: u32,
    now: u64,
    copies: Seq<CopyV>,
    fresh: bool,
    c: CopyV,
)
    requires
        count(copies, is_replica()) > m.replicas,
        count(copies, is_waiting()) >= count(copies, is_replica()) - m.replicas,
        copies.contains(c),
        c.primary || c.state != ShardState::Unassigned,
    ensures
        with_replicas(m, shard, now, copies, fresh).contains(c),
{
    let extra = (count(copies, is_replica()) - m.replicas) as nat;
    assert(copies.take(copies.len() as int) =~= copies);
    lemma_enough(copies, copies.len(), extra);
    lemma_dropped(copies, copies.len(), extra, c);
}

/// Where more replicas are wanted, every copy stays and the new ones stand behind.
pub proof fn law_new_replicas_stand_behind(
    m: MetaV,
    shard: u32,
    now: u64,
    copies: Seq<CopyV>,
    fresh: bool,
)
    requires
        count(copies, is_replica()) <= m.replicas,
    ensures
        ({
            let after = with_replicas(m, shard, now, copies, fresh);
            &&& after.len() == copies.len() + m.replicas - count(copies, is_replica())
            &&& after.take(copies.len() as int) == copies
            &&& forall|k: int|
                copies.len() <= k < after.len() ==> !(#[trigger] after[k]).primary && after[k].state
                    == ShardState::Unassigned && after[k].index == m.name && after[k].shard == shard
        }),
{
    let after = with_replicas(m, shard, now, copies, fresh);
    assert(after.take(copies.len() as int) =~= copies);
}

proof fn lemma_losses(
    ctx: CtxV,
    is: SettingsV,
    name: Seq<char>,
    shard: u32,
    copies: Seq<CopyV>,
    ch: ChangesV,
    n: nat,
)
    requires
        n <= copies.len(),
    ensures
        ({
            let after = losses(ctx, is, name, shard, copies, ch, n);
            &&& after.copies.len() == copies.len()
            &&& forall|k: int|
                0 <= k < copies.len() ==> #[trigger] after.copies[k] == if k < n && lost(
                    ctx,
                    copies[k],
                ) {
                    lose(ctx, is, copies[k])
                } else {
                    copies[k]
                }
            &&& forall|k: int|
                0 <= k < n && lost(ctx, #[trigger] copies[k]) ==> after.ch.unassigned.contains(
                    (name, shard, copies[k].primary, "NODE_LEFT"@),
                )
            &&& forall|k: int|
                0 <= k < n && lost(ctx, #[trigger] copies[k]) && !copies[k].primary
                    && copies[k].allocation_id is Some ==> after.ch.retired.contains(
                    (name, shard, copies[k].allocation_id->0),
                )
        }),
    decreases n,
{
    if n > 0 {
        lemma_losses(ctx, is, name, shard, copies, ch, (n - 1) as nat);
        let before = losses(ctx, is, name, shard, copies, ch, (n - 1) as nat);
        let after = losses(ctx, is, name, shard, copies, ch, n);
        let c = copies[n - 1];
        if lost(ctx, c) {
            let u = after.ch.unassigned;
            assert(u[u.len() - 1] == (name, shard, c.primary, "NODE_LEFT"@));
            assert forall|k: int| 0 <= k < n && lost(ctx, #[trigger] copies[k]) implies u.contains(
                (name, shard, copies[k].primary, "NODE_LEFT"@),
            ) by {
                if k < n - 1 {
                    let x = (name, shard, copies[k].primary, "NODE_LEFT"@);
                    let j = before.ch.unassigned.index_of(x);
                    assert(u[j] == x);
                }
            }
            let r = after.ch.retired;
            assert forall|k: int|
                0 <= k < n && lost(ctx, #[trigger] copies[k]) && !copies[k].primary
                    && copies[k].allocation_id is Some implies r.contains(
                (name, shard, copies[k].allocation_id->0),
            ) by {
                let x = (name, shard, copies[k].allocation_id->0);
                if k < n - 1 {
                    let j = before.ch.retired.index_of(x);
                    assert(r[j] == x);
                } else {
                    assert(r[r.len() - 1] == x);
                }
            }
        }
    }
}

/// Every copy on a node that left is lost and said to be, a replica that had an id is said to
/// be in sync no more, and every other copy is as it was.
pub proof fn law_each_copy_on_a_node_that_left_is_lost(
    ctx: CtxV,
    is: SettingsV,
    name: Seq<char>,
    shard: u32,
    copies: Seq<CopyV>,
    ch: ChangesV,
    k: int,
)
    requires
        0 <= k < copies.len(),
    ensures
        ({
            let after = losses(ctx, is, name, shard, copies, ch, copies.len());
            let gone = copies[k].state != ShardState::Unassigned && (copies[k].node matches Some(id)
                && ctx.node(id) is None);
            &&& gone ==> after.copies[k].state == ShardState::Unassigned && after.copies[k].node
                is None && after.ch.unassigned.contains(
                (name, shard, copies[k].primary, "NODE_LEFT"@),
            )
            &&& gone && !copies[k].primary ==> (copies[k].allocation_id matches Some(id)
                ==> after.ch.retired.contains((name, shard, id)))
            &&& !gone ==> after.copies[k] == copies[k]
        }),
{
    lemma_losses(ctx, is, name, shard, copies, ch, copies.len());
    let after = losses(ctx, is, name, shard, copies, ch, copies.len());
    assert(after.copies[k] == if lost(ctx, copies[k]) {
        lose(ctx, is, copies[k])
    } else {
        copies[k]
    });
    assert(lost(ctx, copies[k]) ==> after.ch.unassigned.contains(
        (name, shard, copies[k].primary, "NODE_LEFT"@),
    ));
}

/// What was arriving in a move that cannot be finished is dropped, and nothing else is.
pub proof fn law_only_what_cannot_arrive_is_dropped(ctx: CtxV, copies: Seq<CopyV>, k: int)
    requires
        0 <= k < copies.len(),
    ensures
        !orphan(ctx, called_off(ctx, copies[k])) ==> without_orphans(ctx, copies).contains(
            called_off(ctx, copies[k]),
        ),
        forall|c: CopyV| #[trigger] without_orphans(ctx, copies).contains(c) ==> !orphan(ctx, c),
{
    let all = copies.map_values(|c: CopyV| called_off(ctx, c));
    assert(all[k] == called_off(ctx, copies[k]));
    law_what_passes_is_kept(all, not_orphan(ctx), all[k]);
    assert forall|c: CopyV| #[trigger] without_orphans(ctx, copies).contains(c) implies !orphan(
        ctx,
        c,
    ) by {
        law_what_passes_is_kept(all, not_orphan(ctx), c);
    }
}

} // verus!
