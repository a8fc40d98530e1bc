//! The same answers, as columns a person can read.

pub mod listings;
pub mod nodes;
pub mod shards;
pub mod table;

use vstd::prelude::*;

use super::answer::{err, refused, Answer, AnswerV};
use crate::list::{before, comes_before, push_to, sort_by, sorted};
use crate::text::{cut, same, split};

verus! {

/// One row: what stands in each of its columns.
pub type Row = Vec<(&'static str, String)>;

/// A table: the columns it can show, those it shows when none are asked for,
/// and its rows. No columns listed are those of its rows.
pub struct Table {
    pub columns: Vec<&'static str>,
    pub usual: Vec<&'static str>,
    pub rows: Vec<Row>,
}

pub open spec fn no_cells() -> Seq<(Seq<char>, Seq<char>)> {
    Seq::empty()
}

pub(crate) fn cells() -> (r: Row)
    ensures
        r.deep_view() == no_cells(),
{
    let r: Row = Vec::new();
    assert(r.deep_view() =~= no_cells());
    r
}

/// Adds a cell to a row.
pub(crate) fn cell(row: &mut Row, column: &'static str, value: String)
    ensures
        final(row).deep_view() == old(row).deep_view().push((column@, value@)),
{
    push_to(row, (column, value));
}

/// What a row is ordered by: what stands in its first column.
pub open spec fn first_cell(row: Seq<(Seq<char>, Seq<char>)>) -> Seq<char> {
    if row.len() > 0 {
        row[0].1
    } else {
        Seq::empty()
    }
}

/// Which of two rows comes first: by their first columns.
pub open spec fn by_first() -> spec_fn(
    Seq<(Seq<char>, Seq<char>)>,
    Seq<(Seq<char>, Seq<char>)>,
) -> bool {
    |a: Seq<(Seq<char>, Seq<char>)>, b: Seq<(Seq<char>, Seq<char>)>|
        before(first_cell(a), first_cell(b))
}

fn first_before(a: &Row, b: &Row) -> (r: bool)
    ensures
        r == before(first_cell(a.deep_view()), first_cell(b.deep_view())),
{
    assert(a.deep_view().len() == a@.len());
    assert(b.deep_view().len() == b@.len());
    let none = String::new();
    assert(none@ =~= Seq::<char>::empty());
    let x = if a.len() > 0 {
        assert(a.deep_view()[0].1 == a@[0].1@);
        a[0].1.as_str()
    } else {
        none.as_str()
    };
    let y = if b.len() > 0 {
        assert(b.deep_view()[0].1 == b@[0].1@);
        b[0].1.as_str()
    } else {
        none.as_str()
    };
    comes_before(x, y)
}

/// Puts rows in the order of their first columns, those that are equal as they
/// came.
pub(crate) fn sort_rows(rows: Vec<Row>) -> (r: Vec<Row>)
    ensures
        r.deep_view() == sorted(rows.deep_view(), by_first(), rows@.len()),
{
    let ghost less = by_first();
    let f = |a: &Row, b: &Row| -> (r: bool)
        ensures
            r == less(a.deep_view(), b.deep_view()),
        { first_before(a, b) };
    sort_by(rows, f, Ghost(less))
}

// ---- which table ---------------------------------------------------------------

/// A table there is.
#[derive(Debug, Clone, Copy, PartialEq, Eq)]
pub enum Endpoint {
    Indices,
    Aliases,
    Counts,
    Health,
    Manager,
    Nodes,
    Templates,
    Shards,
    PitSegments,
    Segments,
    Fielddata,
    Allocation,
    PendingTasks,
    Plugins,
    ThreadPool,
    Recovery,
    Repositories,
    Snapshots,
    Tasks,
    NodeAttrs,
}

/// The table a name is of.
pub open spec fn endpoint(what: Seq<char>) -> Option<Endpoint> {
    if what == "indices"@ {
        Some(Endpoint::Indices)
    } else if what == "aliases"@ {
        Some(Endpoint::Aliases)
    } else if what == "count"@ {
        Some(Endpoint::Counts)
    } else if what == "health"@ {
        Some(Endpoint::Health)
    } else if what == "master"@ || what == "cluster_manager"@ {
        Some(Endpoint::Manager)
    } else if what == "nodes"@ {
        Some(Endpoint::Nodes)
    } else if what == "templates"@ {
        Some(Endpoint::Templates)
    } else if what == "shards"@ {
        Some(Endpoint::Shards)
    } else if what == "pit_segments"@ {
        Some(Endpoint::PitSegments)
    } else if what == "segments"@ {
        Some(Endpoint::Segments)
    } else if what == "fielddata"@ {
        Some(Endpoint::Fielddata)
    } else if what == "allocation"@ {
        Some(Endpoint::Allocation)
    } else if what == "pending_tasks"@ {
        Some(Endpoint::PendingTasks)
    } else if what == "plugins"@ {
        Some(Endpoint::Plugins)
    } else if what == "thread_pool"@ {
        Some(Endpoint::ThreadPool)
    } else if what == "recovery"@ {
        Some(Endpoint::Recovery)
    } else if what == "repositories"@ {
        Some(Endpoint::Repositories)
    } else if what == "snapshots"@ {
        Some(Endpoint::Snapshots)
    } else if what == "tasks"@ {
        Some(Endpoint::Tasks)
    } else if what == "nodeattrs"@ {
        Some(Endpoint::NodeAttrs)
    } else {
        None
    }
}

/// The answer when there is no such table.
pub open spec fn unknown(what: Seq<char>) -> AnswerV {
    refused(
        400,
        "illegal_argument_exception"@,
        "unknown cat endpoint ["@ + what + "]"@,
    )
}

fn find_endpoint(what: &str) -> (r: Option<Endpoint>)
    ensures
        r == endpoint(what@),
{
    if same(what, "indices") {
        Some(Endpoint::Indices)
    } else if same(what, "aliases") {
        Some(Endpoint::Aliases)
    } else if same(what, "count") {
        Some(Endpoint::Counts)
    } else if same(what, "health") {
        Some(Endpoint::Health)
    } else if same(what, "master") || same(what, "cluster_manager") {
        Some(Endpoint::Manager)
    } else if same(what, "nodes") {
        Some(Endpoint::Nodes)
    } else if same(what, "templates") {
        Some(Endpoint::Templates)
    } else if same(what, "shards") {
        Some(Endpoint::Shards)
    } else if same(what, "pit_segments") {
        Some(Endpoint::PitSegments)
    } else if same(what, "segments") {
        Some(Endpoint::Segments)
    } else if same(what, "fielddata") {
        Some(Endpoint::Fielddata)
    } else if same(what, "allocation") {
        Some(Endpoint::Allocation)
    } else if same(what, "pending_tasks") {
        Some(Endpoint::PendingTasks)
    } else if same(what, "plugins") {
        Some(Endpoint::Plugins)
    } else if same(what, "thread_pool") {
        Some(Endpoint::ThreadPool)
    } else if same(what, "recovery") {
        Some(Endpoint::Recovery)
    } else if same(what, "repositories") {
        Some(Endpoint::Repositories)
    } else if same(what, "snapshots") {
        Some(Endpoint::Snapshots)
    } else if same(what, "tasks") {
        Some(Endpoint::Tasks)
    } else if same(what, "nodeattrs") {
        Some(Endpoint::NodeAttrs)
    } else {
        None
    }
}

/// The table that is asked for: by the first part of its path.
pub fn cat_by_name(what: &str) -> (r: Result<Endpoint, Answer>)
    ensures
        match r {
            Ok(e) => endpoint(cut(what@, '/')[0]) == Some(e),
            Err(a) => endpoint(cut(what@, '/')[0]) is None && a.deep_view() == unknown(
                cut(what@, '/')[0],
            ),
        },
{
    let parts = split(what, '/');
    assert(parts.deep_view()[0] == parts@[0]@);
    let first = parts[0].as_str();
    match find_endpoint(first) {
        Some(e) => Ok(e),
        None => Err(
            err(
                400,
                "illegal_argument_exception",
                "unknown cat endpoint [".to_owned().concat(first).concat("]").as_str(),
            ),
        ),
    }
}

} // verus!
