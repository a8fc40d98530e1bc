//! A move that comes to nothing leaves the table as it was.

use vstd::prelude::*;

use super::apart::{differ, id_at, is_past, is_sound, shard_sound, table_sound};
use super::commands::{
    commanded_all, move_command, moved_shards, resolved, shard_on,
    started_on, CommandsV,
};
use super::moves::has_id;
use super::reports::{failed, leaves, replaced};
use super::settings::CtxV;
use super::state::{copies_of, named, place, shards_of, CopyV, IdsV, IndexV, ShardState};
use super::work::{leaving, moved, staying, with_copies};
use crate::json::{text_member, whole_member, JsonV};
use crate::list::{find, flat, keep, lemma_find, lemma_found};

verus! {

/// The copies of a shard that were moved, with the new one failed, are those
/// that were there before.
proof fn lemma_back_again(
    copies: Seq<CopyV>,
    pos: int,
    name: Seq<char>,
    from: Seq<char>,
    to: Seq<char>,
    ids: IdsV,
    now: u64,
    message: Seq<char>,
)
    requires
        shard_sound(copies, name, 0, ids),
        0 <= pos < copies.len(),
        copies[pos].state == ShardState::Started,
        copies[pos].node == Some(from),
        copies[pos].relocating_node is None,
    ensures
        failed(
            moved(copies, pos, name, 0, copies[pos].primary, from, to, ids.id()),
            ids.id(),
            now,
            message,
        ) == Some(copies),
{
    let there = moved(copies, pos, name, 0, copies[pos].primary, from, to, ids.id());
    let last = copies.len() as int;
    let p = has_id(Some(ids.id()));
    assert forall|j: int| 0 <= j < last implies !p(#[trigger] there[j]) by {
        assert(is_sound(copies[j], name, 0, ids));
        assert(there[j].allocation_id == copies[j].allocation_id);
        assert(is_past(copies[j], ids));
        assert(ids.id() == id_at(ids.run, ids.next as nat));
    }
    lemma_find(there, p, last);
    let rest = there.remove(last);
    assert(rest =~= copies.update(pos, leaving(copies[pos], to)));
    let q = leaves(Some(from));
    assert forall|j: int| 0 <= j < pos implies !q(#[trigger] rest[j]) by {
        assert(rest[j] == copies[j]);
        assert(differ(copies[pos], copies[j]));
    }
    lemma_find(rest, q, pos);
    assert(staying(leaving(copies[pos], to)) == copies[pos]);
    assert(rest.update(pos, copies[pos]) =~= copies);
}

/// Of copies that are apart one at most is started on a node.
proof fn lemma_only_one(copies: Seq<CopyV>, name: Seq<char>, ids: IdsV, primary: bool, pos: int, n: nat)
    requires
        shard_sound(copies, name, 0, ids),
        0 <= pos < copies.len(),
        n <= copies.len(),
        copies[pos].state == ShardState::Started,
        copies[pos].primary == primary,
        copies[pos].node is Some,
    ensures
        keep(copies.take(n as int), started_on(primary, copies[pos].node->0)) == if n > pos {
            seq![copies[pos]]
        } else {
            Seq::empty()
        },
    decreases n,
{
    let p = started_on(primary, copies[pos].node->0);
    if n > 0 {
        lemma_only_one(copies, name, ids, primary, pos, (n - 1) as nat);
        let t = copies.take(n as int);
        assert(t.drop_last() =~= copies.take(n - 1));
        assert(t.last() == copies[n - 1]);
        if n - 1 != pos {
            assert(differ(copies[pos], copies[n - 1]));
            assert(!p(copies[n - 1]));
        } else {
            assert(Seq::<CopyV>::empty().push(copies[pos]) =~= seq![copies[pos]]);
        }
    }
}

/// What one `move` command comes to.
pub open spec fn moved_by_hand(
    ctx: CtxV,
    t: Seq<IndexV>,
    ids: IdsV,
    args: JsonV,
    explain: bool,
) -> Result<CommandsV, Seq<char>> {
    commanded_all(
        ctx,
        CommandsV { t, ids, said: Seq::empty() },
        seq![JsonV::Object(seq![("move"@, args)])],
        explain,
        1,
    )
}

/// A copy of an index of one shard that is moved by hand, and whose target
/// fails, is where it was: the table is the one there was before the command,
/// and no copy has had a failure for it.
pub proof fn law_a_move_whose_target_fails_leaves_the_table_as_it_was(
    ctx: CtxV,
    t: Seq<IndexV>,
    ids: IdsV,
    args: JsonV,
    explain: bool,
    now: u64,
    message: Seq<char>,
)
    requires
        table_sound(t, ids),
        ({
            let index = text_member(args, "index"@);
            let i = place(t, index);
            &&& i < t.len() ==> t[i].shards.len() == 1
            &&& forall|k: int|
                0 <= k < copies_of(t, index, 0).len() && (
                #[trigger] copies_of(t, index, 0)[k]).state == ShardState::Started
                    ==> copies_of(t, index, 0)[k].relocating_node is None
            &&& moved_by_hand(ctx, t, ids, args, explain) matches Ok(after) && after.t != t
        }),
    ensures
        ({
            let index = text_member(args, "index"@);
            let after = moved_by_hand(ctx, t, ids, args, explain)->Ok_0;
            let back = failed(copies_of(after.t, index, 0), ids.id(), now, message);
            back is Some && replaced(after.t, index, 0, back) == t
        }),
{
    let index = text_member(args, "index"@);
    let shard = whole_member(args, "shard"@) as u32;
    let st = CommandsV { t, ids, said: Seq::empty() };
    reveal_with_fuel(commanded_all, 2);
    assert(moved_by_hand(ctx, t, ids, args, explain) == move_command(
        ctx,
        st,
        "move"@,
        args,
        explain,
    ));
    let after = moved_by_hand(ctx, t, ids, args, explain)->Ok_0;
    let from = resolved(ctx, text_member(args, "from_node"@))->0;
    let to = resolved(ctx, text_member(args, "to_node"@))->0;
    let i = place(t, index);
    let here = shards_of(t, index);
    let at = find(here, shard_on(shard, from.id));
    lemma_found(here, shard_on(shard, from.id));
    lemma_found(t, named(index));
    assert(at < here.len() && here[at].state == ShardState::Started);
    assert(i < t.len());
    let copies = t[i].shards[0];
    assert(flat(t[i].shards) =~= copies) by {
        assert(t[i].shards.drop_last() =~= Seq::<Seq<CopyV>>::empty());
        assert(flat(t[i].shards.drop_last()) =~= Seq::<CopyV>::empty());
        assert(t[i].shards.last() == copies);
    }
    assert(here == copies);
    assert(shard_sound(t[i].shards[0], t[i].name, 0, ids));
    assert(is_sound(copies[at], t[i].name, 0, ids));
    assert(shard == 0);
    let primary = copies[at].primary;
    let p = started_on(primary, from.id);
    assert(copies_of(t, index, 0) == copies);
    assert(copies_of(t, index, 0)[at].relocating_node is None);
    assert(copies.take(copies.len() as int) =~= copies);
    lemma_only_one(copies, index, ids, primary, at, copies.len());
    let list = keep(here, p);
    assert(list == seq![copies[at]]);
    assert forall|j: int| 0 <= j < at implies !p(#[trigger] copies[j]) by {
        assert(differ(copies[at], copies[j]));
    }
    lemma_find(copies, p, at);
    reveal_with_fuel(moved_shards, 2);
    let gone = moved(copies, at, index, 0, primary, from.id, to.id, ids.id());
    let made = moved_shards(st, index, primary, from.id, to.id, list, list.len());
    assert(made.t == with_copies(t, i, 0, gone));
    assert(after.t == made.t);
    assert forall|j: int| 0 <= j < i implies !(named(index))(#[trigger] after.t[j]) by {
        assert(!(named(index))(t[j]));
    }
    lemma_find(after.t, named(index), i);
    assert(copies_of(after.t, index, 0) == gone);
    lemma_back_again(copies, at, index, from.id, to.id, ids, now, message);
    let back = with_copies(after.t, i, 0, copies);
    assert(back[i].shards =~= t[i].shards);
    assert(back =~= t);
}

} // verus!
