//! Ending a snapshot: what is written of it once its shards have been.

use vstd::prelude::*;

use super::begin::{beginning, AskingV};
use super::create::{
    account, accounts, copy_members, described, finish, finished, index_meta, lemma_no_more_fail,
    shard_total, under, Accounts, AccountsV, Outcome, OutcomeV,
};
use super::plan::{
    law_every_shard_is_counted_once, planned, shared, total, PlanV, ShardPlan, ShareV,
};
use crate::json::{fields, Json, JsonV};
use crate::list::{get, lemma_take};

verus! {

/// What is kept of an index besides its shards: how it describes itself, and
/// which of its shards were written and which were not.
pub struct Described {
    pub index: String,
    pub meta: Json,
    pub written: Vec<(String, Json)>,
    pub failed: Vec<(String, Json)>,
}

#[verifier::ext_equal]
pub struct DescribedV {
    pub index: Seq<char>,
    pub meta: JsonV,
    pub written: Seq<(Seq<char>, JsonV)>,
    pub failed: Seq<(Seq<char>, JsonV)>,
}

impl DeepView for Described {
    type V = DescribedV;

    open spec fn deep_view(&self) -> DescribedV {
        DescribedV {
            index: self.index@,
            meta: self.meta.deep_view(),
            written: self.written.deep_view(),
            failed: self.failed.deep_view(),
        }
    }
}

/// A snapshot that has ended: what is recorded of it, and what is kept of each of
/// its indices.
pub struct Ended {
    pub record: Vec<(String, Json)>,
    pub indices: Vec<Described>,
}

#[verifier::ext_equal]
pub struct EndedV {
    pub record: Seq<(Seq<char>, JsonV)>,
    pub indices: Seq<DescribedV>,
}

impl DeepView for Ended {
    type V = EndedV;

    open spec fn deep_view(&self) -> EndedV {
        EndedV { record: self.record.deep_view(), indices: self.indices.deep_view() }
    }
}

/// Whether a plan adds up: every shard there is is in somebody's share or
/// nobody's, and they can be counted.
pub open spec fn adds_up(p: PlanV) -> bool {
    shared(p.work) + p.unassigned.len() == total(p.shards) && total(p.shards) <= u64::MAX
}

pub open spec fn described_in(a: AccountsV, e: (Seq<char>, u32)) -> DescribedV {
    DescribedV {
        index: e.0,
        meta: described(a, e.0, e.1),
        written: under(a.written, e.0),
        failed: under(a.failed, e.0),
    }
}

/// A snapshot once every share of its plan has come to something: as many shards
/// as the plan has, and as many failures as there are accounts of.
pub open spec fn ending(
    record: Seq<(Seq<char>, JsonV)>,
    p: PlanV,
    outcomes: Seq<OutcomeV>,
    me: Option<Seq<char>>,
    started: u64,
    ended: u64,
) -> EndedV {
    let a = accounts(p, outcomes, me);
    EndedV {
        record: finished(record, a.failures, total(p.shards) as u64, started, ended),
        indices: p.shards.map_values(|e: (Seq<char>, u32)| described_in(a, e)),
    }
}

fn members_under(m: &Vec<(String, Vec<(String, Json)>)>, index: &str) -> (r: Vec<(String, Json)>)
    ensures
        r.deep_view() == under(m.deep_view(), index@),
{
    match get(m, index) {
        Some(o) => copy_members(o),
        None => fields(),
    }
}

fn describe(a: &Accounts, shards: &Vec<(String, u32)>) -> (r: Vec<Described>)
    ensures
        r.deep_view() == shards.deep_view().map_values(
            |e: (Seq<char>, u32)| described_in(a.deep_view(), e),
        ),
{
    let ghost sv = shards.deep_view();
    let ghost av = a.deep_view();
    let mut r: Vec<Described> = Vec::new();
    for i in 0..shards.len()
        invariant
            sv == shards.deep_view(),
            av == a.deep_view(),
            r@.len() == i,
            forall|j: int| 0 <= j < i ==> r@[j].deep_view() == described_in(av, #[trigger] sv[j]),
    {
        let (index, n) = (shards[i].0.as_str(), shards[i].1);
        assert(sv[i as int] == (index@, n));
        r.push(
            Described {
                index: index.to_owned(),
                meta: index_meta(a, index, n),
                written: members_under(&a.written, index),
                failed: members_under(&a.failed, index),
            },
        );
    }
    assert(r.deep_view() =~= sv.map_values(|e: (Seq<char>, u32)| described_in(av, e)));
    r
}

proof fn lemma_shared_room(work: Seq<ShareV>, most: nat)
    requires
        forall|i: int| 0 <= i < work.len() ==> (#[trigger] work[i]).shards.len() <= most,
    ensures
        shared(work) <= work.len() * most,
    decreases work.len(),
{
    if work.len() > 0 {
        lemma_shared_room(work.drop_last(), most);
        assert((work.len() - 1) * most + most == work.len() * most) by (nonlinear_arith)
            requires
                work.len() > 0,
        ;
    }
}

proof fn lemma_total_room(shards: Seq<(Seq<char>, u32)>)
    ensures
        total(shards) <= shards.len() * 0xffff_ffff,
    decreases shards.len(),
{
    if shards.len() > 0 {
        lemma_total_room(shards.drop_last());
    }
}

fn count_shared(plan: &ShardPlan) -> (n: u128)
    ensures
        n == shared(plan.deep_view().work),
{
    let ghost wv = plan.work.deep_view();
    let mut n: u128 = 0;
    assert(wv.take(0).len() == 0);
    for i in 0..plan.work.len()
        invariant
            wv == plan.work.deep_view(),
            n == shared(wv.take(i as int)),
    {
        proof {
            lemma_take(wv, i as int);
            let one = plan.work@[i as int];
            assert(wv[i as int] == one.deep_view());
            assert(wv[i as int].shards.len() == one.shards@.len());
            let most = usize::MAX as nat;
            let head = wv.take(i as int);
            assert forall|j: int| 0 <= j < head.len() implies (#[trigger] head[j]).shards.len()
                <= most by {
                let other = plan.work@[j];
                assert(head[j] == other.deep_view());
                assert(head[j].shards.len() == other.shards.len());
            }
            lemma_shared_room(head, most);
            assert(i * most <= 0xffff_ffff_ffff_fffe * 0xffff_ffff_ffff_ffff) by (nonlinear_arith)
                requires
                    0 <= i <= 0xffff_ffff_ffff_fffe,
                    0 <= most <= 0xffff_ffff_ffff_ffff,
            ;
        }
        n = n + plan.work[i].shards.len() as u128;
    }
    assert(wv.take(plan.work@.len() as int) =~= wv);
    n
}

fn count_all(shards: &Vec<(String, u32)>) -> (n: u128)
    ensures
        n == total(shards.deep_view()),
{
    let ghost sv = shards.deep_view();
    let mut n: u128 = 0;
    assert(sv.take(0).len() == 0);
    for i in 0..shards.len()
        invariant
            sv == shards.deep_view(),
            n == total(sv.take(i as int)),
    {
        proof {
            lemma_take(sv, i as int);
            assert(sv[i as int].1 == shards@[i as int].1);
            lemma_total_room(sv.take(i as int));
        }
        n = n + shards[i].1 as u128;
    }
    assert(sv.take(shards@.len() as int) =~= sv);
    n
}

/// Whether a plan adds up: every shard there is is in somebody's share or
/// nobody's, and they can be counted.
pub fn does_add_up(plan: &ShardPlan) -> (r: bool)
    ensures
        r == adds_up(plan.deep_view()),
{
    let all: u128 = count_all(&plan.shards);
    if all > u64::MAX as u128 {
        return false;
    }
    let held: u128 = count_shared(plan);
    assert(plan.unassigned.deep_view().len() == plan.unassigned@.len());
    held <= all && all - held == plan.unassigned.len() as u128
}

/// A snapshot once every share of its plan has come to something: every shard is
/// accounted for, written or failed with the reason. `outcomes` are what came of
/// the shares in the plan's order, and `me` is this node's id.
pub fn end_snapshot(
    record: Vec<(String, Json)>,
    plan: &ShardPlan,
    outcomes: &Vec<Outcome>,
    me: &Option<String>,
    started: u64,
    ended: u64,
) -> (r: Ended)
    requires
        adds_up(plan.deep_view()),
    ensures
        r.deep_view() == ending(
            record.deep_view(),
            plan.deep_view(),
            outcomes.deep_view(),
            me.deep_view(),
            started,
            ended,
        ),
{
    proof {
        lemma_no_more_fail(plan.deep_view(), outcomes.deep_view(), me.deep_view());
    }
    let a = account(plan, outcomes, me);
    let indices = describe(&a, &plan.shards);
    let all: u64 = shard_total(&plan.shards);
    assert(a.failures.deep_view().len() == a.failures@.len());
    Ended { record: finish(record, a.failures, all, started, ended), indices }
}

/// The plan of a snapshot that is begun adds up, where no index is asked for
/// twice and the shards can be counted.
pub proof fn law_a_plan_that_is_begun_adds_up(a: AskingV)
    requires
        beginning(a) is Ok,
        a.indices.no_duplicates(),
        total(planned(a.indices, a.counts, a.cluster, a.indices.len()).shards) <= u64::MAX,
    ensures
        adds_up(beginning(a)->Ok_0.plan),
{
    law_every_shard_is_counted_once(a.indices, a.counts, a.cluster);
}

} // verus!
