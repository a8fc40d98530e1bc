//! What data nodes report of their copies, and how the table takes it.

use vstd::prelude::*;

use super::moves::has_id;
use super::state::{
    all, copies_of, copy_copies, copy_node, copy_text, place, same_node, CopyV, IndexV, InfoV,
    IndexRouting, NodeId, RoutingTable, ShardRouting, ShardState,
};
use super::sync::{is_primary, is_replica};
use super::work::{
    info, set_copies, stay, staying, take_off, taken_off, unassigned_info, with_copies,
};
use crate::list::{count, count_in, find, find_in, keep, lemma_found, lemma_take, push_to, put_at, remove_at};
use crate::number::Millis;
use crate::text::same;

verus! {

/// What starting a copy changed besides its state.
#[derive(Debug, PartialEq, Eq)]
pub struct Started {
    /// the allocation id of a relocation's source, which is no longer in sync
    pub retired: Option<String>,
    /// a primary made empty on request: it alone is in sync now
    pub forced_primary: bool,
}

#[verifier::ext_equal]
pub struct StartedV {
    pub retired: Option<Seq<char>>,
    pub forced_primary: bool,
}

impl DeepView for Started {
    type V = StartedV;

    open spec fn deep_view(&self) -> StartedV {
        StartedV { retired: self.retired.deep_view(), forced_primary: self.forced_primary }
    }
}

/// Whether a copy is on its way from a node.
pub open spec fn leaves(node: Option<Seq<char>>) -> spec_fn(CopyV) -> bool {
    |c: CopyV| c.state == ShardState::Relocating && c.node == node
}

/// Copies with the primaries first, as OpenSearch lists them.
pub open spec fn primaries_first(copies: Seq<CopyV>) -> Seq<CopyV> {
    keep(copies, is_primary()) + keep(copies, is_replica())
}

/// The copies of a shard once one of them has started, and what that changed;
/// nothing when none of that id is being filled. The source of a relocation
/// goes away.
pub open spec fn started(copies: Seq<CopyV>, id: Seq<char>) -> Option<(Seq<CopyV>, StartedV)> {
    let pos = find(copies, has_id(Some(id)));
    if pos >= copies.len() || copies[pos].state != ShardState::Initializing {
        None
    } else {
        let c = copies[pos];
        let up = copies.update(pos, CopyV { unassigned: None, ..staying(c) });
        let s = find(up, leaves(c.relocating_node));
        let forced = c.primary && c.because("FORCED_EMPTY_PRIMARY"@);
        if c.relocating_node is Some && s < up.len() {
            Some(
                (
                    primaries_first(up.remove(s)),
                    StartedV { retired: up[s].allocation_id, forced_primary: forced },
                ),
            )
        } else {
            Some((primaries_first(up), StartedV { retired: None, forced_primary: forced }))
        }
    }
}

/// The copies of a shard once one of them has failed: unassigned again, one
/// more failure on it. Where it was the target of a relocation the source
/// stays where it is.
pub open spec fn failed(
    copies: Seq<CopyV>,
    id: Seq<char>,
    now: u64,
    message: Seq<char>,
) -> Option<Seq<CopyV>> {
    let pos = find(copies, has_id(Some(id)));
    if pos >= copies.len() {
        None
    } else {
        let c = copies[pos];
        if c.state == ShardState::Initializing && c.relocating_node is Some {
            let rest = copies.remove(pos);
            let s = find(rest, leaves(c.relocating_node));
            Some(
                if s < rest.len() {
                    rest.update(s, staying(rest[s]))
                } else {
                    rest
                },
            )
        } else {
            Some(
                copies.update(
                    pos,
                    taken_off(
                        c,
                        InfoV {
                            details: Some("failed shard on node: "@ + message),
                            ..info("ALLOCATION_FAILED"@, now, "no_attempt"@, one_more(c))
                        },
                    ),
                ),
            )
        }
    }
}

/// One failure more than a copy has had.
pub open spec fn one_more(c: CopyV) -> u64 {
    let before = super::deciders::failures(c);
    if before == u64::MAX {
        before
    } else {
        (before + 1) as u64
    }
}

pub open spec fn replica_with_id(id: Seq<char>) -> spec_fn(CopyV) -> bool {
    |c: CopyV| c.allocation_id == Some(id) && !c.primary
}

/// The copies of a shard once a replica has missed an acknowledged write: it
/// is filled again from the primary, and it is no failure.
pub open spec fn stale(copies: Seq<CopyV>, id: Seq<char>, now: u64) -> Option<Seq<CopyV>> {
    let pos = find(copies, replica_with_id(id));
    if pos >= copies.len() {
        None
    } else {
        Some(
            copies.update(
                pos,
                taken_off(
                    copies[pos],
                    InfoV {
                        details: Some("the copy did not take an acknowledged write"@),
                        ..info("REALLOCATED_REPLICA"@, now, "no_attempt"@, 0)
                    },
                ),
            ),
        )
    }
}

/// A table with the copies of a shard put in the place of others, if there
/// are any to put there.
pub open spec fn replaced(
    t: Seq<IndexV>,
    name: Seq<char>,
    shard: u32,
    copies: Option<Seq<CopyV>>,
) -> Seq<IndexV> {
    match copies {
        Some(c) => with_copies(t, place(t, name), shard as int, c),
        None => t,
    }
}

fn find_id(copies: &Vec<ShardRouting>, id: &str) -> (i: usize)
    ensures
        i == find(copies.deep_view(), has_id(Some(id@))),
        i <= copies@.len(),
{
    let ghost p = has_id(Some(id@));
    let f = |c: &ShardRouting| -> (r: bool)
        ensures
            r == p(c.deep_view()),
        {
            match &c.allocation_id {
                Some(a) => same(a.as_str(), id),
                None => false,
            }
        };
    find_in(copies, f, Ghost(p))
}

fn find_leaving(copies: &Vec<ShardRouting>, node: &Option<NodeId>) -> (i: usize)
    ensures
        i == find(copies.deep_view(), leaves(node.deep_view())),
        i <= copies@.len(),
{
    let ghost p = leaves(node.deep_view());
    let f = |c: &ShardRouting| -> (r: bool)
        ensures
            r == p(c.deep_view()),
        { c.state == ShardState::Relocating && same_node(&c.node, node) };
    find_in(copies, f, Ghost(p))
}

fn sort_primaries(copies: &Vec<ShardRouting>) -> (r: Vec<ShardRouting>)
    ensures
        r.deep_view() == primaries_first(copies.deep_view()),
{
    let ghost cv = copies.deep_view();
    let ghost p = |c: CopyV| c.primary;
    let ghost q = |c: CopyV| !c.primary;
    let mut r: Vec<ShardRouting> = Vec::new();
    assert(r.deep_view() =~= keep(cv.take(0), p));
    for i in 0..copies.len()
        invariant
            cv == copies.deep_view(),
            p == (|c: CopyV| c.primary),
            r.deep_view() == keep(cv.take(i as int), p),
    {
        proof {
            lemma_take(cv, i as int);
        }
        if copies[i].primary {
            push_to(&mut r, copies[i].clone());
        }
    }
    assert(cv.take(copies@.len() as int) =~= cv);
    let ghost first = r.deep_view();
    assert(first + keep(cv.take(0), q) =~= first);
    for i in 0..copies.len()
        invariant
            cv == copies.deep_view(),
            q == (|c: CopyV| !c.primary),
            r.deep_view() == first + keep(cv.take(i as int), q),
    {
        proof {
            lemma_take(cv, i as int);
        }
        if !copies[i].primary {
            push_to(&mut r, copies[i].clone());
        }
        assert(r.deep_view() =~= first + keep(cv.take(i + 1), q));
    }
    assert(cv.take(copies@.len() as int) =~= cv);
    r
}

/// A data node reports a copy started: the copy becomes STARTED; the
/// source of a relocation goes away.
pub fn shard_started(
    table: &mut RoutingTable,
    index: &str,
    shard: u32,
    allocation_id: &str,
) -> (r: Option<Started>)
    ensures
        ({
            let t = old(table).deep_view();
            match started(copies_of(t, index@, shard), allocation_id@) {
                Some((copies, what)) => r.deep_view() == Some(what) && final(table).deep_view()
                    == replaced(t, index@, shard, Some(copies)),
                None => r is None && final(table).deep_view() == t,
            }
        }),
{
    let i = table.place_of(index);
    let s: usize = shard as usize;
    if i >= table.indices.len() {
        return None;
    }
    assert(table.deep_view()[i as int] == table.indices@[i as int].deep_view());
    if s >= table.indices[i].shards.len() {
        return None;
    }
    assert(table.deep_view()[i as int].shards[s as int]
        == table.indices@[i as int].shards@[s as int].deep_view());
    let mut copies = copy_copies(&table.indices[i].shards[s]);
    let pos = find_id(&copies, allocation_id);
    if pos >= copies.len() {
        return None;
    }
    assert(copies.deep_view()[pos as int] == copies@[pos as int].deep_view());
    if copies[pos].state != ShardState::Initializing {
        return None;
    }
    let source = copy_node(&copies[pos].relocating_node);
    let forced = copies[pos].primary && copies[pos].is_because("FORCED_EMPTY_PRIMARY");
    let mut up = stay(&copies[pos]);
    up.unassigned = None;
    put_at(&mut copies, pos, up);
    let mut retired: Option<String> = None;
    if source.is_some() {
        // the relocated copy is here now; the one on the source node ends
        let sp = find_leaving(&copies, &source);
        if sp < copies.len() {
            assert(copies.deep_view()[sp as int] == copies@[sp as int].deep_view());
            retired = copy_text(&copies[sp].allocation_id);
            let _gone = remove_at(&mut copies, sp);
        }
    }
    let sorted = sort_primaries(&copies);
    set_copies(table, i, s, sorted);
    Some(Started { retired, forced_primary: forced })
}

/// A data node reports a copy failed: unassigned again, one more failure on it.
pub fn shard_failed(
    table: &mut RoutingTable,
    index: &str,
    shard: u32,
    allocation_id: &str,
    now: Millis,
    message: &str,
) -> (r: bool)
    ensures
        ({
            let t = old(table).deep_view();
            let after = failed(copies_of(t, index@, shard), allocation_id@, now, message@);
            r == (after is Some) && final(table).deep_view() == replaced(t, index@, shard, after)
        }),
{
    let i = table.place_of(index);
    let s: usize = shard as usize;
    if i >= table.indices.len() {
        return false;
    }
    assert(table.deep_view()[i as int] == table.indices@[i as int].deep_view());
    if s >= table.indices[i].shards.len() {
        return false;
    }
    assert(table.deep_view()[i as int].shards[s as int]
        == table.indices@[i as int].shards@[s as int].deep_view());
    let mut copies = copy_copies(&table.indices[i].shards[s]);
    let pos = find_id(&copies, allocation_id);
    if pos >= copies.len() {
        return false;
    }
    assert(copies.deep_view()[pos as int] == copies@[pos as int].deep_view());
    if copies[pos].state == ShardState::Initializing && copies[pos].relocating_node.is_some() {
        // a failed relocation target: the source stays where it is
        let src = copy_node(&copies[pos].relocating_node);
        let _gone = remove_at(&mut copies, pos);
        let sp = find_leaving(&copies, &src);
        if sp < copies.len() {
            let back = stay(&copies[sp]);
            put_at(&mut copies, sp, back);
        }
        set_copies(table, i, s, copies);
        return true;
    }
    let before: u64 = match &copies[pos].unassigned {
        Some(u) => u.failed_allocations,
        None => 0,
    };
    let mut why = unassigned_info("ALLOCATION_FAILED", now, "no_attempt", before.saturating_add(1));
    why.details = Some("failed shard on node: ".to_owned().concat(message));
    let off = take_off(&copies[pos], why);
    put_at(&mut copies, pos, off);
    set_copies(table, i, s, copies);
    true
}

/// A copy that did not take an acknowledged write is no copy of the index
/// any more: it is unassigned, and the allocator fills it again from the
/// primary. Not a failure -- nothing went wrong with the node -- so it does
/// not count against `index.allocation.max_retries`.
pub fn shard_stale(
    table: &mut RoutingTable,
    index: &str,
    shard: u32,
    allocation_id: &str,
    now: Millis,
) -> (r: bool)
    ensures
        ({
            let t = old(table).deep_view();
            let after = stale(copies_of(t, index@, shard), allocation_id@, now);
            r == (after is Some) && final(table).deep_view() == replaced(t, index@, shard, after)
        }),
{
    let i = table.place_of(index);
    let s: usize = shard as usize;
    if i >= table.indices.len() {
        return false;
    }
    assert(table.deep_view()[i as int] == table.indices@[i as int].deep_view());
    if s >= table.indices[i].shards.len() {
        return false;
    }
    assert(table.deep_view()[i as int].shards[s as int]
        == table.indices@[i as int].shards@[s as int].deep_view());
    let mut copies = copy_copies(&table.indices[i].shards[s]);
    let ghost p = replica_with_id(allocation_id@);
    let f = |c: &ShardRouting| -> (r: bool)
        ensures
            r == p(c.deep_view()),
        {
            !c.primary && match &c.allocation_id {
                Some(a) => same(a.as_str(), allocation_id),
                None => false,
            }
        };
    let pos = find_in(&copies, f, Ghost(p));
    if pos >= copies.len() {
        return false;
    }
    let mut why = unassigned_info("REALLOCATED_REPLICA", now, "no_attempt", 0);
    why.details = Some("the copy did not take an acknowledged write".to_owned());
    let off = take_off(&copies[pos], why);
    put_at(&mut copies, pos, off);
    set_copies(table, i, s, copies);
    true
}

// ---- failures forgotten --------------------------------------------------------

pub open spec fn has_failed() -> spec_fn(CopyV) -> bool {
    |c: CopyV| super::deciders::failures(c) > 0
}

/// A copy whose failures are forgotten.
pub open spec fn forgiven(c: CopyV) -> CopyV {
    CopyV {
        unassigned: match c.unassigned {
            Some(u) => Some(InfoV { failed: 0, ..u }),
            None => None,
        },
        ..c
    }
}

pub open spec fn forgiven_copies(copies: Seq<CopyV>) -> Seq<CopyV> {
    copies.map_values(|c: CopyV| forgiven(c))
}

pub open spec fn forgiven_index(e: IndexV) -> IndexV {
    IndexV {
        name: e.name,
        shards: e.shards.map_values(|copies: Seq<CopyV>| forgiven_copies(copies)),
    }
}

/// A table in which every failure is forgotten.
pub open spec fn forgiven_table(t: Seq<IndexV>) -> Seq<IndexV> {
    t.map_values(|e: IndexV| forgiven_index(e))
}

fn forgive_copies(copies: &Vec<ShardRouting>) -> (r: Vec<ShardRouting>)
    ensures
        r.deep_view() == forgiven_copies(copies.deep_view()),
{
    let mut r: Vec<ShardRouting> = Vec::new();
    for i in 0..copies.len()
        invariant
            r@.len() == i,
            forall|j: int|
                0 <= j < i ==> #[trigger] r@[j].deep_view() == forgiven(copies@[j].deep_view()),
    {
        let mut c = copies[i].clone();
        c.unassigned = match &copies[i].unassigned {
            Some(u) => {
                let mut v = u.clone();
                v.failed_allocations = 0;
                Some(v)
            },
            None => None,
        };
        r.push(c);
    }
    assert(r.deep_view() =~= forgiven_copies(copies.deep_view()));
    r
}

fn forgive_index(e: &IndexRouting) -> (r: IndexRouting)
    ensures
        r.deep_view() == forgiven_index(e.deep_view()),
{
    let mut shards: Vec<Vec<ShardRouting>> = Vec::new();
    for s in 0..e.shards.len()
        invariant
            shards@.len() == s,
            forall|j: int|
                0 <= j < s ==> #[trigger] shards@[j].deep_view() == forgiven_copies(
                    e.shards@[j].deep_view(),
                ),
    {
        shards.push(forgive_copies(&e.shards[s]));
    }
    let r = IndexRouting { name: e.name.clone(), shards };
    assert(r.deep_view().shards =~= forgiven_index(e.deep_view()).shards);
    r
}

/// `retry_failed=true`: failures forgotten, so the deciders look again. How
/// many copies had any.
pub fn retry_failed(table: &mut RoutingTable) -> (n: usize)
    ensures
        n == count(all(old(table).deep_view()), has_failed()),
        final(table).deep_view() == forgiven_table(old(table).deep_view()),
{
    let ghost p = has_failed();
    let f = |c: &&ShardRouting| -> (r: bool)
        ensures
            r == p(c.deep_view()),
        {
            match &c.unassigned {
                Some(u) => u.failed_allocations > 0,
                None => false,
            }
        };
    let every = table.all();
    let n: usize = count_in(&every, f, Ghost(p));
    let mut indices: Vec<IndexRouting> = Vec::new();
    for i in 0..table.indices.len()
        invariant
            indices@.len() == i,
            forall|j: int|
                0 <= j < i ==> #[trigger] indices@[j].deep_view() == forgiven_index(
                    table.indices@[j].deep_view(),
                ),
    {
        indices.push(forgive_index(&table.indices[i]));
    }
    assert(indices.deep_view() =~= forgiven_table(table.deep_view()));
    *table = RoutingTable { indices };
    n
}

// ---- what it comes to ----------------------------------------------------------

/// A copy that fails anywhere but on its way to another node is on no node
/// afterwards, with one failure more; one that missed a write is on no node
/// with no failure counted.
pub proof fn law_a_failure_is_counted_and_a_missed_write_is_not(
    copies: Seq<CopyV>,
    id: Seq<char>,
    now: u64,
    message: Seq<char>,
)
    ensures
        ({
            let pos = find(copies, has_id(Some(id)));
            pos < copies.len() && !(copies[pos].state == ShardState::Initializing
                && copies[pos].relocating_node is Some) ==> {
                let after = failed(copies, id, now, message)->0[pos];
                &&& after.state == ShardState::Unassigned
                &&& after.node is None
                &&& after.unassigned->0.failed == one_more(copies[pos])
                &&& after.because("ALLOCATION_FAILED"@)
            }
        }),
        ({
            let pos = find(copies, replica_with_id(id));
            pos < copies.len() ==> {
                let after = stale(copies, id, now)->0[pos];
                &&& after.state == ShardState::Unassigned
                &&& after.node is None
                &&& after.unassigned->0.failed == 0
                &&& !copies[pos].primary
            }
        }),
{
    lemma_found(copies, has_id(Some(id)));
    lemma_found(copies, replica_with_id(id));
}

proof fn lemma_forgiven(t: Seq<IndexV>)
    ensures
        forall|c: CopyV| all(forgiven_table(t)).contains(c) ==> !(#[trigger] (has_failed())(c)),
    decreases t.len(),
{
    if t.len() > 0 {
        lemma_forgiven(t.drop_last());
        let f = forgiven_table(t);
        assert(f.drop_last() =~= forgiven_table(t.drop_last()));
        lemma_forgiven_shards(t.last().shards);
        let shards = forgiven_index(t.last()).shards;
        assert(f.last().shards == shards);
        assert forall|c: CopyV| all(f).contains(c) implies !(#[trigger] (has_failed())(c)) by {
            let k = choose|k: int| 0 <= k < all(f).len() && all(f)[k] == c;
            let n = all(f.drop_last()).len();
            if k < n {
                assert(all(f.drop_last())[k] == c);
                assert(all(f.drop_last()).contains(c));
            } else {
                assert(crate::list::flat(shards)[k - n] == c);
                assert(crate::list::flat(shards).contains(c));
            }
        }
    } else {
        assert(all(forgiven_table(t)).len() == 0);
    }
}

proof fn lemma_forgiven_shards(s: Seq<Seq<CopyV>>)
    ensures
        forall|c: CopyV|
            crate::list::flat(
                s.map_values(|copies: Seq<CopyV>| forgiven_copies(copies)),
            ).contains(c) ==> !(#[trigger] (has_failed())(c)),
    decreases s.len(),
{
    let g = s.map_values(|copies: Seq<CopyV>| forgiven_copies(copies));
    if s.len() > 0 {
        lemma_forgiven_shards(s.drop_last());
        assert(g.drop_last() =~= s.drop_last().map_values(
            |copies: Seq<CopyV>| forgiven_copies(copies),
        ));
        let last = forgiven_copies(s.last());
        assert(g.last() == last);
        assert forall|c: CopyV| crate::list::flat(g).contains(c) implies !(#[trigger] (
        has_failed())(c)) by {
            let f = crate::list::flat(g);
            let k = choose|k: int| 0 <= k < f.len() && f[k] == c;
            let n = crate::list::flat(g.drop_last()).len();
            if k < n {
                assert(crate::list::flat(g.drop_last())[k] == c);
                assert(crate::list::flat(g.drop_last()).contains(c));
            } else {
                assert(last[k - n] == c);
                assert(c == forgiven(s.last()[k - n]));
            }
        }
    }
}

/// Once failures are forgotten no copy has any, so asking again forgets none.
pub proof fn law_failures_are_forgotten(t: Seq<IndexV>)
    ensures
        forall|i: int|
            0 <= i < all(forgiven_table(t)).len() ==> super::deciders::failures(
                #[trigger] all(forgiven_table(t))[i],
            ) == 0,
        count(all(forgiven_table(t)), has_failed()) == 0,
{
    lemma_forgiven(t);
    let s = all(forgiven_table(t));
    assert forall|i: int| 0 <= i < s.len() implies super::deciders::failures(#[trigger] s[i]) == 0
        by {
        assert(s.contains(s[i]));
        assert(!(has_failed())(s[i]));
    }
    lemma_none(s);
}

proof fn lemma_none(s: Seq<CopyV>)
    requires
        forall|i: int| 0 <= i < s.len() ==> super::deciders::failures(#[trigger] s[i]) == 0,
    ensures
        count(s, has_failed()) == 0,
    decreases s.len(),
{
    if s.len() > 0 {
        lemma_none(s.drop_last());
        assert(super::deciders::failures(s[s.len() - 1]) == 0);
    }
}

} // verus!
