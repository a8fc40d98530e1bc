//! Beginning a snapshot: everything that is decided before a shard is written.

use vstd::prelude::*;

use super::create::{
    begun, expression, first_gone, indices_asked, lenient, may_create, missing_index, not_whole,
    nowhere_to_write, snapshot_record, streams_asked, streams_asked_for, untakeable,
    without_primaries,
};
use super::plan::{plan_shards, planned, PlanV, ShardPlan};
use crate::api::answer::{
    flag_at, no_such_index, refused, set_member, set_to, told, unknown_index, Answer, AnswerV,
};
use crate::cluster::state::{IndexV, NodeId, RoutingTable};
use crate::json::{member, Json, JsonV};

verus! {

/// A snapshot that is asked for, and what is known of the repository, of the
/// indices and of the cluster it is asked of.
pub struct Asking<'a> {
    pub repo: String,
    pub name: String,
    pub body: Json,
    /// the repository as it was registered, and whether it is read over a URL
    pub found: Option<Json>,
    pub over_url: bool,
    /// whether the repository holds a snapshot under the name
    pub taken: bool,
    /// whether the path says that what is not there may be left out
    pub path_lenient: bool,
    /// the parts of the expression that is asked for that stand for no index
    pub absent: Vec<String>,
    /// the indices it stands for, all of them where none is asked for
    pub indices: Vec<String>,
    /// every data stream there is
    pub streams: Vec<String>,
    /// how many shards each index has
    pub counts: Vec<(String, u32)>,
    /// how many shards this node counts among those it holds
    pub shards: u64,
    /// where the copies are, and which node this is, in a cluster of several
    pub cluster: Option<(&'a RoutingTable, &'a Option<NodeId>)>,
    /// whether the repository has somewhere to be written to
    pub writable: bool,
    pub uuid: String,
    pub now: String,
}

pub struct AskingV {
    pub repo: Seq<char>,
    pub name: Seq<char>,
    pub body: JsonV,
    pub found: Option<JsonV>,
    pub over_url: bool,
    pub taken: bool,
    pub path_lenient: bool,
    pub absent: Seq<Seq<char>>,
    pub indices: Seq<Seq<char>>,
    pub streams: Seq<Seq<char>>,
    pub counts: Seq<(Seq<char>, u32)>,
    pub shards: u64,
    pub cluster: Option<(Seq<IndexV>, Option<Seq<char>>)>,
    pub writable: bool,
    pub uuid: Seq<char>,
    pub now: Seq<char>,
}

impl<'a> DeepView for Asking<'a> {
    type V = AskingV;

    open spec fn deep_view(&self) -> AskingV {
        AskingV {
            repo: self.repo@,
            name: self.name@,
            body: self.body.deep_view(),
            found: self.found.deep_view(),
            over_url: self.over_url,
            taken: self.taken,
            path_lenient: self.path_lenient,
            absent: self.absent.deep_view(),
            indices: self.indices.deep_view(),
            streams: self.streams.deep_view(),
            counts: self.counts.deep_view(),
            shards: self.shards,
            cluster: self.cluster.deep_view(),
            writable: self.writable,
            uuid: self.uuid@,
            now: self.now@,
        }
    }
}

/// A snapshot that is begun: what is recorded of it, who writes what, and
/// whether the cluster's own state is kept with it.
pub struct Begun {
    pub record: Vec<(String, Json)>,
    pub plan: ShardPlan,
    pub global: bool,
}

#[verifier::ext_equal]
pub struct BegunV {
    pub record: Seq<(Seq<char>, JsonV)>,
    pub plan: PlanV,
    pub global: bool,
}

impl DeepView for Begun {
    type V = BegunV;

    open spec fn deep_view(&self) -> BegunV {
        BegunV {
            record: self.record.deep_view(),
            plan: self.plan.deep_view(),
            global: self.global,
        }
    }
}

/// Whether the cluster's own state is kept: it is, unless the body says not.
pub open spec fn keeps_global(body: JsonV) -> bool {
    told(body, "include_global_state"@) != Some(false)
}

/// What is recorded when a snapshot is begun, with whatever the caller attached
/// to it.
pub open spec fn record_of(a: AskingV) -> Seq<(Seq<char>, JsonV)> {
    let o = begun(
        a.name,
        a.uuid,
        a.now,
        a.indices,
        streams_asked(a.streams, expression(a.body)),
        keeps_global(a.body),
        a.shards,
    );
    match member(a.body, "metadata"@) {
        Some(m) => set_to(o, "metadata"@, m),
        None => o,
    }
}

/// What an index that was asked for outright and is not there is answered.
pub open spec fn named_and_gone(a: AskingV) -> Option<AnswerV> {
    match expression(a.body) {
        Some(e) => match first_gone(
            e,
            a.absent,
            a.path_lenient || told(a.body, "ignore_unavailable"@) == Some(true),
        ) {
            Some(g) => Some(unknown_index(g)),
            None => None,
        },
        None => None,
    }
}

/// A snapshot begun, or why it is not: it may not be taken, an index it names is
/// not there, there is nowhere to write it, or it could not be whole.
pub open spec fn beginning(a: AskingV) -> Result<BegunV, AnswerV> {
    let plan = planned(a.indices, a.counts, a.cluster, a.indices.len());
    let partial = told(a.body, "partial"@) == Some(true);
    match untakeable(a.repo, a.name, a.found, a.over_url, a.taken) {
        Some(why) => Err(why),
        None => match named_and_gone(a) {
            Some(why) => Err(why),
            None => if !a.writable {
                Err(nowhere(a.repo, a.name))
            } else {
                match not_whole(a.repo, a.name, a.uuid, plan.unassigned, partial) {
                    Some(why) => Err(why),
                    None => Ok(
                        BegunV { record: record_of(a), plan, global: keeps_global(a.body) },
                    ),
                }
            },
        },
    }
}

pub open spec fn nowhere(repo: Seq<char>, name: Seq<char>) -> AnswerV {
    refused(
        500,
        "repository_exception"@,
        "["@ + repo + "] has nowhere to write snapshot ["@ + name
            + "]: the repository has no usable location"@,
    )
}

fn find_gone(a: &Asking) -> (r: Option<Answer>)
    ensures
        r.deep_view() == named_and_gone(a.deep_view()),
{
    match indices_asked(&a.body) {
        Some(e) => match missing_index(
            e.as_str(),
            &a.absent,
            lenient(a.path_lenient, &a.body),
        ) {
            Some(g) => Some(no_such_index(g.as_str())),
            None => None,
        },
        None => None,
    }
}

fn make_record(a: &Asking) -> (r: Vec<(String, Json)>)
    ensures
        r.deep_view() == record_of(a.deep_view()),
{
    let global = match flag_at(&a.body, "include_global_state") {
        Some(b) => b,
        None => true,
    };
    let streams = streams_asked_for(&a.streams, &indices_asked(&a.body));
    let mut record = snapshot_record(
        a.name.as_str(),
        a.uuid.as_str(),
        a.now.as_str(),
        &a.indices,
        &streams,
        global,
        a.shards,
    );
    if let Some(m) = a.body.get("metadata") {
        set_member(&mut record, "metadata", m.clone());
    }
    record
}

/// A snapshot begun, or why it is not. Nothing is written before all of this is
/// decided.
pub fn create_snapshot(a: &Asking) -> (r: Result<Begun, Answer>)
    ensures
        match r {
            Ok(b) => beginning(a.deep_view()) == Ok::<BegunV, AnswerV>(b.deep_view()),
            Err(why) => beginning(a.deep_view()) == Err::<BegunV, AnswerV>(why.deep_view()),
        },
{
    if let Some(why) = may_create(
        a.repo.as_str(),
        a.name.as_str(),
        a.found.as_ref(),
        a.over_url,
        a.taken,
    ) {
        return Err(why);
    }
    if let Some(why) = find_gone(a) {
        return Err(why);
    }
    if !a.writable {
        return Err(nowhere_to_write(a.repo.as_str(), a.name.as_str()));
    }
    assert(a.indices.deep_view().len() == a.indices@.len());
    let plan = plan_shards(&a.indices, &a.counts, a.cluster);
    let partial = match flag_at(&a.body, "partial") {
        Some(b) => b,
        None => false,
    };
    if let Some(why) = without_primaries(
        a.repo.as_str(),
        a.name.as_str(),
        a.uuid.as_str(),
        &plan.unassigned,
        partial,
    ) {
        return Err(why);
    }
    let global = match flag_at(&a.body, "include_global_state") {
        Some(b) => b,
        None => true,
    };
    Ok(Begun { record: make_record(a), plan, global })
}

/// A snapshot that is not asked for in part is begun only where every shard of
/// it is somebody's to write.
pub proof fn law_a_whole_snapshot_has_every_shard(a: AskingV)
    requires
        beginning(a) is Ok,
        told(a.body, "partial"@) != Some(true),
    ensures
        beginning(a)->Ok_0.plan.unassigned.len() == 0,
{
}

} // verus!
