//! The REST interface: what its answers say and what its requests may do.

pub mod answer;
pub mod cat;
pub mod naming;
pub mod pools;
pub mod prometheus;
pub mod search_relevance;
pub mod settings;
pub mod snapshot;

use vstd::prelude::*;

use crate::json::{field, fields, no_fields, object, whole, Json, JsonV, NumberV};
use crate::text::{begins, starts_with};

verus! {

/// The columns of the list of segments.
pub const CAT_SEGMENT_COLS: [&'static str; 15] = [
    "index",
    "shard",
    "prirep",
    "ip",
    "id",
    "segment",
    "generation",
    "docs.count",
    "docs.deleted",
    "size",
    "size.memory",
    "committed",
    "searchable",
    "version",
    "compound",
];

/// The sections of the statistics that may be asked for by name. The section is
/// named `merges`, and may be asked for either way.
pub const STATS_METRICS: [&'static str; 18] = [
    "docs",
    "store",
    "indexing",
    "get",
    "search",
    "merges",
    "refresh",
    "flush",
    "warmer",
    "query_cache",
    "fielddata",
    "completion",
    "segments",
    "translog",
    "request_cache",
    "recovery",
    "_all",
    "merge",
];

/// The keys an alias body may carry that are not part of the alias itself.
pub const ALIAS_ADDRESSING: [&'static str; 4] = [
    "index",
    "indices",
    "alias",
    "aliases",
];

/// The keys of an alias itself.
pub const ALIAS_OPTIONS: [&'static str; 7] = [
    "filter",
    "routing",
    "index_routing",
    "search_routing",
    "is_write_index",
    "is_hidden",
    "must_exist",
];

/// The columns of the list of indices.
pub const CAT_INDEX_COLS: [&'static str; 14] = [
    "health",
    "status",
    "index",
    "uuid",
    "pri",
    "rep",
    "docs.count",
    "docs.deleted",
    "store.size",
    "pri.store.size",
    "creation.date",
    "creation.date.string",
    "system",
    "system.description",
];

/// The columns of the list of templates.
pub const CAT_TEMPLATE_COLS: [&'static str; 5] = [
    "name",
    "index_patterns",
    "order",
    "version",
    "composed_of",
];

/// The columns of the list of what each node holds.
pub const CAT_ALLOCATION_COLS: [&'static str; 9] = [
    "shards",
    "disk.indices",
    "disk.used",
    "disk.avail",
    "disk.total",
    "disk.percent",
    "host",
    "ip",
    "node",
];

/// The columns of the list of the nodes' attributes.
pub const CAT_NODEATTRS_COLS: [&'static str; 8] = [
    "node",
    "id",
    "pid",
    "host",
    "ip",
    "port",
    "attr",
    "value",
];

/// The columns of the list of plugins.
pub const CAT_PLUGINS_COLS: [&'static str; 5] = [
    "id",
    "name",
    "component",
    "version",
    "description",
];

/// The columns of the list of thread pools.
pub const CAT_THREAD_POOL_COLS: [&'static str; 24] = [
    "node_name",
    "node_id",
    "id",
    "pid",
    "host",
    "ip",
    "port",
    "ephemeral_node_id",
    "name",
    "type",
    "active",
    "pool_size",
    "size",
    "queue",
    "queue_size",
    "rejected",
    "largest",
    "completed",
    "core",
    "min",
    "max",
    "keep_alive",
    "total_wait_time",
    "twt",
];

/// The columns of the list of tasks.
pub const CAT_TASKS_COLS: [&'static str; 11] = [
    "action",
    "task_id",
    "parent_task_id",
    "type",
    "start_time",
    "timestamp",
    "running_time",
    "ip",
    "node",
    "description",
    "x_opaque_id",
];

/// The columns of the list of aliases.
pub const CAT_ALIAS_COLS: [&'static str; 6] = [
    "alias",
    "index",
    "filter",
    "routing.index",
    "routing.search",
    "is_write_index",
];

/// The columns of the cluster's health.
pub const CAT_HEALTH_COLS: [&'static str; 15] = [
    "epoch",
    "timestamp",
    "cluster",
    "status",
    "node.total",
    "node.data",
    "discovered_cluster_manager",
    "shards",
    "pri",
    "relo",
    "init",
    "unassign",
    "pending_tasks",
    "max_task_wait_time",
    "active_shards_percent",
];

/// What the index that audit records are written to is made with, where it is
/// not there.
pub open spec fn audit_settings() -> JsonV {
    JsonV::Object(
        no_fields().push(
            (
                "settings"@,
                JsonV::Object(
                    no_fields().push(
                        ("number_of_shards"@, JsonV::Number(NumberV::Whole(1))),
                    ).push(("number_of_replicas"@, JsonV::Number(NumberV::Whole(0)))),
                ),
            ),
        ),
    )
}

/// What came of the last step of writing an audit record.
pub enum AuditEvent {
    /// the index was looked for before anything was done, and is there or not
    Looked(bool),
    /// the index was made, and is there now or not
    Made(bool),
    /// the index could not be made
    NotMade(String),
    /// the record was written
    Written,
    /// the record was refused
    Refused,
    /// the index was refreshed, or could not be
    Refreshed,
}

#[verifier::ext_equal]
pub enum AuditEventV {
    Looked(bool),
    Made(bool),
    NotMade(Seq<char>),
    Written,
    Refused,
    Refreshed,
}

impl DeepView for AuditEvent {
    type V = AuditEventV;

    open spec fn deep_view(&self) -> AuditEventV {
        match self {
            AuditEvent::Looked(there) => AuditEventV::Looked(*there),
            AuditEvent::Made(there) => AuditEventV::Made(*there),
            AuditEvent::NotMade(why) => AuditEventV::NotMade(why@),
            AuditEvent::Written => AuditEventV::Written,
            AuditEvent::Refused => AuditEventV::Refused,
            AuditEvent::Refreshed => AuditEventV::Refreshed,
        }
    }
}

/// The next step of writing an audit record.
pub enum AuditStep {
    /// make the index with this body
    Make(Json),
    /// write the record, under an id of the index's own
    Write(Json),
    /// refresh the index: a record is for reading as soon as it is written
    Refresh,
    /// there is nothing more to do
    Done,
    /// it cannot be written, and why
    Fail(String),
}

#[verifier::ext_equal]
pub enum AuditStepV {
    Make(JsonV),
    Write(JsonV),
    Refresh,
    Done,
    Fail(Seq<char>),
}

impl DeepView for AuditStep {
    type V = AuditStepV;

    open spec fn deep_view(&self) -> AuditStepV {
        match self {
            AuditStep::Make(body) => AuditStepV::Make(body.deep_view()),
            AuditStep::Write(doc) => AuditStepV::Write(doc.deep_view()),
            AuditStep::Refresh => AuditStepV::Refresh,
            AuditStep::Done => AuditStepV::Done,
            AuditStep::Fail(why) => AuditStepV::Fail(why@),
        }
    }
}

/// The step that follows an event. An index that is not there is made; one that
/// is gone again right after has nothing written to it, and that is no failure.
pub open spec fn audit_step(doc: JsonV, event: AuditEventV) -> AuditStepV {
    match event {
        AuditEventV::Looked(false) => AuditStepV::Make(audit_settings()),
        AuditEventV::Looked(true) | AuditEventV::Made(true) => AuditStepV::Write(doc),
        AuditEventV::Made(false) | AuditEventV::Refreshed => AuditStepV::Done,
        AuditEventV::NotMade(why) => AuditStepV::Fail(why),
        AuditEventV::Written => AuditStepV::Refresh,
        AuditEventV::Refused => AuditStepV::Fail("audit record refused"@),
    }
}

/// Write one audit record into the audit index, making the index when it is not
/// there: the step that follows an event, the first of which is that the index
/// was looked for.
pub fn index_audit_document(doc: &Json, event: AuditEvent) -> (r: AuditStep)
    ensures
        r.deep_view() == audit_step(doc.deep_view(), event.deep_view()),
{
    match event {
        AuditEvent::Looked(there) => if there {
            AuditStep::Write(doc.clone())
        } else {
            let mut settings = fields();
            field(&mut settings, "number_of_shards", whole(1));
            field(&mut settings, "number_of_replicas", whole(0));
            let mut o = fields();
            field(&mut o, "settings", object(settings));
            AuditStep::Make(object(o))
        },
        AuditEvent::Made(there) => if there {
            AuditStep::Write(doc.clone())
        } else {
            AuditStep::Done
        },
        AuditEvent::NotMade(why) => AuditStep::Fail(why),
        AuditEvent::Written => AuditStep::Refresh,
        AuditEvent::Refused => AuditStep::Fail("audit record refused".to_owned()),
        AuditEvent::Refreshed => AuditStep::Done,
    }
}

/// What a system index is for, by the start of its name. A name no system
/// index starts with belongs to none, with a dot before it or without.
pub open spec fn system_use(name: Seq<char>) -> Option<Seq<char>> {
    if begins(name, ".tasks"@) {
        Some("Task Result Index"@)
    } else {
        None
    }
}

/// What a system index is for.
pub fn system_index_description(name: &str) -> (r: Option<&'static str>)
    ensures
        r.deep_view() == system_use(name@),
{
    if starts_with(name, ".tasks") {
        Some("Task Result Index")
    } else {
        None
    }
}

} // verus!
