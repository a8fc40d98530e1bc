//! The shorter tables: templates, segments, fields, recoveries, repositories,
//! snapshots and attributes.

use vstd::prelude::*;

use super::nodes::columns_of;
use super::{by_first, cell, cells, first_cell, no_cells, sort_rows, Row, Table};
use crate::api::answer::{counted, list_at, said, text_at, texts_at, whole_at};
use crate::api::snapshot::repository::{parts, parts_of};
use crate::api::{CAT_SEGMENT_COLS, CAT_TEMPLATE_COLS};
use crate::cluster::state::has_text;
use crate::json::{member, written, Json, JsonV};
use crate::list::{before, comes_before, keep, lemma_take, push_to, sort_by, sorted};
use crate::size::{size_text, sized};
use crate::text::{dec, decimal, fits, glob_match, join, joined, same};

verus! {

/// A table with columns and nothing in it: a point in time's segments are not
/// listed, and there are no tasks waiting, no plugins and no tasks to list.
pub fn empty<const N: usize>(columns: &[&'static str; N]) -> (t: Table)
    ensures
        t.columns@ == columns@,
        t.usual@.len() == 0,
        t.rows@.len() == 0,
{
    Table { columns: columns_of(columns), usual: Vec::new(), rows: Vec::new() }
}

/// The columns of the tasks that wait.
pub const PENDING_TASKS: [&'static str; 4] = ["insertOrder", "timeInQueue", "priority", "source"];

/// The columns of the plugins.
pub const PLUGINS: [&'static str; 3] = ["name", "component", "version"];

/// The columns of the tasks.
pub const TASKS: [&'static str; 5] = ["action", "task_id", "parent_task_id", "type", "start_time"];

/// The segments of a point in time, of which none are listed.
pub fn pit_segments() -> (t: Table)
    ensures
        t.columns@ == CAT_SEGMENT_COLS@,
        t.usual@.len() == 0,
        t.rows@.len() == 0,
{
    empty(&CAT_SEGMENT_COLS)
}

// ---- templates -----------------------------------------------------------------

/// Where a template keeps its version and its components: the composable form
/// keeps the body it was written with.
pub open spec fn template_body(t: JsonV) -> JsonV {
    match member(t, "__composable"@) {
        Some(b) => b,
        None => t,
    }
}

/// What a template says under a name, as it is written; nothing where it says
/// nothing.
pub open spec fn template_says(t: JsonV, key: Seq<char>) -> Seq<char> {
    match member(template_body(t), key) {
        Some(v) => written(v),
        None => match member(t, key) {
            Some(v) => written(v),
            None => ""@,
        },
    }
}

pub open spec fn template_order(t: JsonV) -> Seq<char> {
    let o = template_says(t, "order"@);
    if o.len() == 0 {
        template_says(t, "priority"@)
    } else {
        o
    }
}

/// What a template is composed of; nothing where it is composed of nothing.
pub open spec fn template_parts(t: JsonV) -> Seq<char> {
    let c = joined(texts_at(template_body(t), "composed_of"@), ","@);
    if c.len() == 0 {
        ""@
    } else {
        "["@ + c + "]"@
    }
}

pub open spec fn template_row(name: Seq<char>, t: JsonV) -> Seq<(Seq<char>, Seq<char>)> {
    no_cells().push(("name"@, name)).push(
        (
            "index_patterns"@,
            "["@ + joined(texts_at(t, "index_patterns"@), ", "@) + "]"@,
        ),
    ).push(("order"@, template_order(t))).push(("version"@, template_says(t, "version"@))).push(
        ("composed_of"@, template_parts(t)),
    )
}

/// Whether a path names a template, by name or by pattern; no path names all.
pub open spec fn template_named(target: Option<Seq<char>>, name: Seq<char>) -> bool {
    match target {
        Some(t) => t.len() == 0 || t == "*"@ || exists|i: int|
            0 <= i < parts(t).len() && (#[trigger] parts(t)[i] == name || fits(parts(t)[i], name)),
        None => true,
    }
}

/// The rows of the first templates that are named.
pub open spec fn template_rows(
    all: Seq<(Seq<char>, JsonV)>,
    target: Option<Seq<char>>,
    n: nat,
) -> Seq<Seq<(Seq<char>, Seq<char>)>>
    decreases n,
{
    if n == 0 {
        Seq::empty()
    } else {
        let before = template_rows(all, target, (n - 1) as nat);
        if template_named(target, all[n - 1].0) {
            before.push(template_row(all[n - 1].0, all[n - 1].1))
        } else {
            before
        }
    }
}

fn body_of(t: &Json) -> (r: &Json)
    ensures
        r.deep_view() == template_body(t.deep_view()),
{
    match t.get("__composable") {
        Some(b) => b,
        None => t,
    }
}

fn says(t: &Json, key: &str) -> (r: String)
    ensures
        r@ == template_says(t.deep_view(), key@),
{
    match body_of(t).get(key) {
        Some(v) => v.render(),
        None => match t.get(key) {
            Some(v) => v.render(),
            None => "".to_owned(),
        },
    }
}

fn row_of(name: &str, t: &Json) -> (row: Row)
    ensures
        row.deep_view() == template_row(name@, t.deep_view()),
{
    let order = says(t, "order");
    let order = if order.as_str().is_empty() {
        says(t, "priority")
    } else {
        order
    };
    let c = join(&list_at(body_of(t), "composed_of"), ",");
    let composed = if c.as_str().is_empty() {
        "".to_owned()
    } else {
        "[".to_owned().concat(c.as_str()).concat("]")
    };
    let mut row = cells();
    cell(&mut row, "name", name.to_owned());
    cell(
        &mut row,
        "index_patterns",
        "[".to_owned().concat(join(&list_at(t, "index_patterns"), ", ").as_str()).concat("]"),
    );
    cell(&mut row, "order", order);
    cell(&mut row, "version", says(t, "version"));
    cell(&mut row, "composed_of", composed);
    row
}

fn names_template(target: &Option<String>, name: &str) -> (r: bool)
    ensures
        r == template_named(target.deep_view(), name@),
{
    let t = match target {
        Some(t) => t.as_str(),
        None => {
            return true;
        },
    };
    if t.is_empty() || same(t, "*") {
        return true;
    }
    let all = parts_of(t);
    let ghost pv = all.deep_view();
    for i in 0..all.len()
        invariant
            pv == all.deep_view(),
            pv == parts(t@),
            target.deep_view() == Some(t@),
            forall|j: int| 0 <= j < i ==> #[trigger] pv[j] != name@ && !fits(pv[j], name@),
    {
        assert(pv[i as int] == all@[i as int]@);
        if same(all[i].as_str(), name) || glob_match(all[i].as_str(), name) {
            assert(parts(t@)[i as int] == name@ || fits(parts(t@)[i as int], name@));
            return true;
        }
    }
    false
}

/// The templates a path names, in the order of their names.
pub fn templates(all: &Vec<(String, Json)>, target: &Option<String>) -> (t: Table)
    ensures
        t.columns@ == CAT_TEMPLATE_COLS@,
        t.usual@ == CAT_TEMPLATE_COLS@,
        ({
            let rows = template_rows(all.deep_view(), target.deep_view(), all@.len());
            t.rows.deep_view() == sorted(rows, by_first(), rows.len())
        }),
{
    let ghost av = all.deep_view();
    let mut rows: Vec<Row> = Vec::new();
    assert(rows.deep_view() =~= Seq::<Seq<(Seq<char>, Seq<char>)>>::empty());
    for i in 0..all.len()
        invariant
            av == all.deep_view(),
            rows.deep_view() == template_rows(av, target.deep_view(), i as nat),
    {
        assert(av[i as int] == (all@[i as int].0@, all@[i as int].1.deep_view()));
        if names_template(target, all[i].0.as_str()) {
            push_to(&mut rows, row_of(all[i].0.as_str(), &all[i].1));
        }
    }
    assert(rows.deep_view().len() == rows@.len());
    Table {
        columns: columns_of(&CAT_TEMPLATE_COLS),
        usual: columns_of(&CAT_TEMPLATE_COLS),
        rows: sort_rows(rows),
    }
}

// ---- segments ------------------------------------------------------------------

/// A segment: how many documents it holds, and how many of them are deleted.
pub open spec fn segment_row(index: Seq<char>, node: Seq<char>, i: nat, docs: u64, deleted: u64) -> Seq<
    (Seq<char>, Seq<char>),
> {
    no_cells().push(("index"@, index)).push(("shard"@, "0"@)).push(("prirep"@, "p"@)).push(
        ("id"@, node),
    ).push(("segment"@, "_"@ + dec(i))).push(("docs.count"@, dec(docs as nat))).push(
        ("docs.deleted"@, dec(deleted as nat)),
    )
}

/// The rows of an index's first segments.
pub open spec fn segment_rows(
    index: Seq<char>,
    node: Seq<char>,
    segments: Seq<(u64, u64)>,
    n: nat,
) -> Seq<Seq<(Seq<char>, Seq<char>)>>
    decreases n,
{
    if n == 0 {
        Seq::empty()
    } else {
        segment_rows(index, node, segments, (n - 1) as nat).push(
            segment_row(
                index,
                node,
                (n - 1) as nat,
                segments[n - 1].0,
                segments[n - 1].1,
            ),
        )
    }
}

pub open spec fn all_segments(
    all: Seq<(Seq<char>, Seq<(u64, u64)>)>,
    node: Seq<char>,
    n: nat,
) -> Seq<Seq<(Seq<char>, Seq<char>)>>
    decreases n,
{
    if n == 0 {
        Seq::empty()
    } else {
        all_segments(all, node, (n - 1) as nat) + segment_rows(
            all[n - 1].0,
            node,
            all[n - 1].1,
            all[n - 1].1.len(),
        )
    }
}

fn add_segments(rows: &mut Vec<Row>, index: &str, node: &str, segments: &Vec<(u64, u64)>)
    ensures
        final(rows).deep_view() == old(rows).deep_view() + segment_rows(
            index@,
            node@,
            segments.deep_view(),
            segments@.len(),
        ),
{
    let ghost start = rows.deep_view();
    let ghost sv = segments.deep_view();
    assert(start + segment_rows(index@, node@, sv, 0) =~= start);
    for i in 0..segments.len()
        invariant
            sv == segments.deep_view(),
            rows.deep_view() == start + segment_rows(index@, node@, sv, i as nat),
    {
        let s = segments[i];
        assert(sv[i as int] == (s.0, s.1));
        let mut row = cells();
        cell(&mut row, "index", index.to_owned());
        cell(&mut row, "shard", "0".to_owned());
        cell(&mut row, "prirep", "p".to_owned());
        cell(&mut row, "id", node.to_owned());
        cell(&mut row, "segment", "_".to_owned().concat(decimal(i as u64).as_str()));
        cell(&mut row, "docs.count", decimal(s.0));
        cell(&mut row, "docs.deleted", decimal(s.1));
        push_to(rows, row);
        assert(rows.deep_view() =~= start + segment_rows(index@, node@, sv, (i + 1) as nat));
    }
}

/// The segments of every index, on this node.
pub fn segments(all: &Vec<(String, Vec<(u64, u64)>)>, node: &str) -> (t: Table)
    ensures
        t.columns@.len() == 0,
        t.usual@.len() == 0,
        t.rows.deep_view() == all_segments(all.deep_view(), node@, all@.len()),
{
    let ghost av = all.deep_view();
    let mut rows: Vec<Row> = Vec::new();
    assert(rows.deep_view() =~= Seq::<Seq<(Seq<char>, Seq<char>)>>::empty());
    for i in 0..all.len()
        invariant
            av == all.deep_view(),
            rows.deep_view() == all_segments(av, node@, i as nat),
    {
        assert(av[i as int] == (all@[i as int].0@, all@[i as int].1.deep_view()));
        assert(all@[i as int].1.deep_view().len() == all@[i as int].1@.len());
        add_segments(&mut rows, all[i].0.as_str(), node, &all[i].1);
    }
    Table { columns: Vec::new(), usual: Vec::new(), rows }
}

// ---- fields --------------------------------------------------------------------

/// The columns of what the fields take up.
pub const FIELDDATA: [&'static str; 6] = ["id", "host", "ip", "node", "field", "size"];

/// Whether a path names a field; no path names all of them.
pub open spec fn field_named(target: Option<Seq<char>>) -> spec_fn((Seq<char>, u64)) -> bool {
    |f: (Seq<char>, u64)|
        match target {
            Some(t) => parts(t).contains(f.0),
            None => true,
        }
}

/// Which of two fields comes first: by name, then by size.
pub open spec fn by_field() -> spec_fn((Seq<char>, u64), (Seq<char>, u64)) -> bool {
    |a: (Seq<char>, u64), b: (Seq<char>, u64)| before(a.0, b.0) || (a.0 == b.0 && a.1 < b.1)
}

/// Whether a field has been loaded.
pub open spec fn is_loaded(loaded: Seq<Seq<char>>) -> spec_fn((Seq<char>, u64)) -> bool {
    |f: (Seq<char>, u64)| loaded.contains(f.0)
}

/// The fields reported on, in their order: those that have been loaded and that
/// the path names.
pub open spec fn fields_shown(
    fields: Seq<(Seq<char>, u64)>,
    loaded: Seq<Seq<char>>,
    target: Option<Seq<char>>,
) -> Seq<(Seq<char>, u64)> {
    let kept = keep(fields, is_loaded(loaded));
    keep(sorted(kept, by_field(), kept.len()), field_named(target))
}

pub open spec fn field_row(id: Seq<char>, name: Seq<char>, f: (Seq<char>, u64)) -> Seq<
    (Seq<char>, Seq<char>),
> {
    no_cells().push(("id"@, id)).push(("host"@, "127.0.0.1"@)).push(("ip"@, "127.0.0.1"@)).push(
        ("node"@, name),
    ).push(("field"@, f.0)).push(("size"@, size_text(f.1 as nat)))
}

/// The rows of the first indices' fields.
pub open spec fn field_rows(
    all: Seq<(Seq<(Seq<char>, u64)>, Seq<Seq<char>>)>,
    target: Option<Seq<char>>,
    id: Seq<char>,
    name: Seq<char>,
    n: nat,
) -> Seq<Seq<(Seq<char>, Seq<char>)>>
    decreases n,
{
    if n == 0 {
        Seq::empty()
    } else {
        field_rows(all, target, id, name, (n - 1) as nat) + fields_shown(
            all[n - 1].0,
            all[n - 1].1,
            target,
        ).map_values(|f: (Seq<char>, u64)| field_row(id, name, f))
    }
}

fn keep_loaded(v: &Vec<(String, u64)>, loaded: &Vec<String>) -> (r: Vec<(String, u64)>)
    ensures
        r.deep_view() == keep(v.deep_view(), is_loaded(loaded.deep_view())),
{
    let ghost vv = v.deep_view();
    let ghost p = is_loaded(loaded.deep_view());
    let mut r: Vec<(String, u64)> = Vec::new();
    assert(r.deep_view() =~= keep(vv.take(0), p));
    for i in 0..v.len()
        invariant
            vv == v.deep_view(),
            p == is_loaded(loaded.deep_view()),
            r.deep_view() == keep(vv.take(i as int), p),
    {
        proof {
            lemma_take(vv, i as int);
            assert(vv[i as int] == (v@[i as int].0@, v@[i as int].1));
        }
        if has_text(loaded, v[i].0.as_str()) {
            push_to(&mut r, (v[i].0.clone(), v[i].1));
        }
    }
    assert(vv.take(v@.len() as int) =~= vv);
    r
}

fn is_field_named(wanted: &Option<Vec<String>>, f: &str) -> (r: bool)
    ensures
        r == match wanted.deep_view() {
            Some(w) => w.contains(f@),
            None => true,
        },
{
    match wanted {
        Some(w) => has_text(w, f),
        None => true,
    }
}

fn add_fields(
    rows: &mut Vec<Row>,
    fields: &Vec<(String, u64)>,
    loaded: &Vec<String>,
    target: &Option<String>,
    id: &str,
    name: &str,
)
    ensures
        final(rows).deep_view() == old(rows).deep_view() + fields_shown(
            fields.deep_view(),
            loaded.deep_view(),
            target.deep_view(),
        ).map_values(|f: (Seq<char>, u64)| field_row(id@, name@, f)),
{
    let ghost start = rows.deep_view();
    let copy = keep_loaded(fields, loaded);
    assert(copy.deep_view().len() == copy@.len());
    let ghost less = by_field();
    let f = |a: &(String, u64), b: &(String, u64)| -> (r: bool)
        ensures
            r == less(a.deep_view(), b.deep_view()),
        {
            comes_before(a.0.as_str(), b.0.as_str()) || (same(a.0.as_str(), b.0.as_str()) && a.1
                < b.1)
        };
    let ordered = sort_by(copy, f, Ghost(less));
    let ghost ov = ordered.deep_view();
    let ghost p = field_named(target.deep_view());
    let ghost row_for = |f: (Seq<char>, u64)| field_row(id@, name@, f);
    let wanted = match target {
        Some(t) => Some(parts_of(t.as_str())),
        None => None,
    };
    assert(start + keep(ov.take(0), p).map_values(row_for) =~= start);
    for i in 0..ordered.len()
        invariant
            ov == ordered.deep_view(),
            p == field_named(target.deep_view()),
            row_for == (|f: (Seq<char>, u64)| field_row(id@, name@, f)),
            wanted.deep_view() == match target.deep_view() {
                Some(t) => Some(parts(t)),
                None => None,
            },
            rows.deep_view() == start + keep(ov.take(i as int), p).map_values(row_for),
    {
        proof {
            lemma_take(ov, i as int);
            assert(ov[i as int] == (ordered@[i as int].0@, ordered@[i as int].1));
        }
        let one = &ordered[i];
        if is_field_named(&wanted, one.0.as_str()) {
            let mut row = cells();
            cell(&mut row, "id", id.to_owned());
            cell(&mut row, "host", "127.0.0.1".to_owned());
            cell(&mut row, "ip", "127.0.0.1".to_owned());
            cell(&mut row, "node", name.to_owned());
            cell(&mut row, "field", one.0.clone());
            cell(&mut row, "size", sized(one.1));
            assert(row.deep_view() == row_for(ov[i as int]));
            push_to(rows, row);
            assert(p(ov[i as int]));
            assert(keep(ov.take(i + 1), p).map_values(row_for) =~= keep(
                ov.take(i as int),
                p,
            ).map_values(row_for).push(row_for(ov[i as int])));
        }
        assert(rows.deep_view() =~= start + keep(ov.take(i + 1), p).map_values(row_for));
    }
    assert(ov.take(ordered@.len() as int) =~= ov);
}

/// What the columns of the fields that are loaded take up, index by index: the
/// closest thing there is to a cache of them. Each index comes with what its
/// fields' columns take up, and which fields have been loaded. A path names
/// which fields to report on.
pub fn fielddata(
    all: &Vec<(Vec<(String, u64)>, Vec<String>)>,
    target: &Option<String>,
    id: &str,
    name: &str,
) -> (t: Table)
    ensures
        t.columns@ == FIELDDATA@,
        t.usual@.len() == 0,
        t.rows.deep_view() == field_rows(
            all.deep_view(),
            target.deep_view(),
            id@,
            name@,
            all@.len(),
        ),
{
    let ghost av = all.deep_view();
    let mut rows: Vec<Row> = Vec::new();
    assert(rows.deep_view() =~= Seq::<Seq<(Seq<char>, Seq<char>)>>::empty());
    for i in 0..all.len()
        invariant
            av == all.deep_view(),
            rows.deep_view() == field_rows(av, target.deep_view(), id@, name@, i as nat),
    {
        assert(av[i as int] == all@[i as int].deep_view());
        add_fields(&mut rows, &all[i].0, &all[i].1, target, id, name);
    }
    Table { columns: columns_of(&FIELDDATA), usual: Vec::new(), rows }
}

// ---- recoveries ----------------------------------------------------------------

/// The columns of the recoveries.
pub const RECOVERY: [&'static str; 26] = [
    "index",
    "shard",
    "start_time",
    "start_time_millis",
    "stop_time",
    "stop_time_millis",
    "time",
    "type",
    "stage",
    "source_host",
    "source_node",
    "target_host",
    "target_node",
    "repository",
    "snapshot",
    "files",
    "files_recovered",
    "files_percent",
    "files_total",
    "bytes",
    "bytes_recovered",
    "bytes_percent",
    "bytes_total",
    "translog_ops",
    "translog_ops_recovered",
    "translog_ops_percent",
];

/// How an index came to be where it is.
pub struct Recovered {
    pub index: String,
    /// it was restored from a snapshot
    pub restored: bool,
    pub docs: u64,
    pub closed: bool,
    pub shards: u32,
}

pub struct RecoveredV {
    pub index: Seq<char>,
    pub restored: bool,
    pub docs: u64,
    pub closed: bool,
    pub shards: u32,
}

impl DeepView for Recovered {
    type V = RecoveredV;

    open spec fn deep_view(&self) -> RecoveredV {
        RecoveredV {
            index: self.index@,
            restored: self.restored,
            docs: self.docs,
            closed: self.closed,
            shards: self.shards,
        }
    }
}

pub open spec fn recovery_kind(r: RecoveredV) -> Seq<char> {
    if r.restored {
        "snapshot"@
    } else if r.docs > 0 || r.closed {
        "existing_store"@
    } else {
        "empty_store"@
    }
}

/// What has been recovered of files, bytes and operations: all of it.
pub open spec fn all_recovered(row: Seq<(Seq<char>, Seq<char>)>) -> Seq<(Seq<char>, Seq<char>)> {
    row.push(("files"@, "0"@)).push(("files_recovered"@, "0"@)).push(
        ("files_percent"@, "100.0%"@),
    ).push(("files_total"@, "0"@)).push(("bytes"@, "0b"@)).push(("bytes_recovered"@, "0b"@)).push(
        ("bytes_percent"@, "100.0%"@),
    ).push(("bytes_total"@, "0b"@)).push(("translog_ops"@, "0"@)).push(
        ("translog_ops_recovered"@, "0"@),
    ).push(("translog_ops_percent"@, "100.0%"@))
}

pub open spec fn recovery_row(r: RecoveredV, shard: u32, node: Seq<char>) -> Seq<
    (Seq<char>, Seq<char>),
> {
    all_recovered(
        no_cells().push(("index"@, r.index)).push(("shard"@, dec(shard as nat))).push(
            ("start_time"@, "2020-01-01T00:00:00.000Z"@),
        ).push(("start_time_millis"@, "1577836800000"@)).push(
            ("stop_time"@, "2020-01-01T00:00:00.000Z"@),
        ).push(("stop_time_millis"@, "1577836800000"@)).push(("time"@, "0ms"@)).push(
            ("type"@, recovery_kind(r)),
        ).push(("stage"@, "done"@)).push(("source_host"@, "n/a"@)).push(
            ("source_node"@, "n/a"@),
        ).push(("target_host"@, "127.0.0.1"@)).push(("target_node"@, node)).push(
            ("repository"@, "n/a"@),
        ).push(("snapshot"@, "n/a"@)),
    )
}

/// The rows of an index's first shards.
pub open spec fn recovery_rows(r: RecoveredV, node: Seq<char>, n: nat) -> Seq<
    Seq<(Seq<char>, Seq<char>)>,
>
    decreases n,
{
    if n == 0 {
        Seq::empty()
    } else {
        recovery_rows(r, node, (n - 1) as nat).push(recovery_row(r, (n - 1) as u32, node))
    }
}

pub open spec fn all_recovery_rows(all: Seq<RecoveredV>, node: Seq<char>, n: nat) -> Seq<
    Seq<(Seq<char>, Seq<char>)>,
>
    decreases n,
{
    if n == 0 {
        Seq::empty()
    } else {
        all_recovery_rows(all, node, (n - 1) as nat) + recovery_rows(
            all[n - 1],
            node,
            all[n - 1].shards as nat,
        )
    }
}

pub open spec fn second_cell(row: Seq<(Seq<char>, Seq<char>)>) -> Seq<char> {
    if row.len() > 1 {
        row[1].1
    } else {
        Seq::empty()
    }
}

/// Which of two rows comes first: by their first two columns.
pub open spec fn by_two() -> spec_fn(
    Seq<(Seq<char>, Seq<char>)>,
    Seq<(Seq<char>, Seq<char>)>,
) -> bool {
    |a: Seq<(Seq<char>, Seq<char>)>, b: Seq<(Seq<char>, Seq<char>)>|
        before(first_cell(a), first_cell(b)) || (first_cell(a) == first_cell(b) && before(
            second_cell(a),
            second_cell(b),
        ))
}

fn cell_at(row: &Row, i: usize) -> (r: String)
    ensures
        r@ == if i < row@.len() {
            row.deep_view()[i as int].1
        } else {
            Seq::empty()
        },
{
    if i < row.len() {
        assert(row.deep_view()[i as int].1 == row@[i as int].1@);
        row[i].1.clone()
    } else {
        let r = String::new();
        assert(r@ =~= Seq::<char>::empty());
        r
    }
}

fn two_before(a: &Row, b: &Row) -> (r: bool)
    ensures
        r == by_two()(a.deep_view(), b.deep_view()),
{
    assert(a.deep_view().len() == a@.len());
    assert(b.deep_view().len() == b@.len());
    let a0 = cell_at(a, 0);
    let b0 = cell_at(b, 0);
    let a1 = cell_at(a, 1);
    let b1 = cell_at(b, 1);
    comes_before(a0.as_str(), b0.as_str()) || (same(a0.as_str(), b0.as_str()) && comes_before(
        a1.as_str(),
        b1.as_str(),
    ))
}

fn kind_of(r: &Recovered) -> (k: &'static str)
    ensures
        k@ == recovery_kind(r.deep_view()),
{
    if r.restored {
        "snapshot"
    } else if r.docs > 0 || r.closed {
        "existing_store"
    } else {
        "empty_store"
    }
}

fn add_recovered(row: &mut Row)
    ensures
        final(row).deep_view() == all_recovered(old(row).deep_view()),
{
    cell(row, "files", "0".to_owned());
    cell(row, "files_recovered", "0".to_owned());
    cell(row, "files_percent", "100.0%".to_owned());
    cell(row, "files_total", "0".to_owned());
    cell(row, "bytes", "0b".to_owned());
    cell(row, "bytes_recovered", "0b".to_owned());
    cell(row, "bytes_percent", "100.0%".to_owned());
    cell(row, "bytes_total", "0b".to_owned());
    cell(row, "translog_ops", "0".to_owned());
    cell(row, "translog_ops_recovered", "0".to_owned());
    cell(row, "translog_ops_percent", "100.0%".to_owned());
}

fn recovery_of(r: &Recovered, shard: u32, node: &str) -> (row: Row)
    ensures
        row.deep_view() == recovery_row(r.deep_view(), shard, node@),
{
    let mut row = cells();
    cell(&mut row, "index", r.index.clone());
    cell(&mut row, "shard", decimal(shard as u64));
    cell(&mut row, "start_time", "2020-01-01T00:00:00.000Z".to_owned());
    cell(&mut row, "start_time_millis", "1577836800000".to_owned());
    cell(&mut row, "stop_time", "2020-01-01T00:00:00.000Z".to_owned());
    cell(&mut row, "stop_time_millis", "1577836800000".to_owned());
    cell(&mut row, "time", "0ms".to_owned());
    cell(&mut row, "type", kind_of(r).to_owned());
    cell(&mut row, "stage", "done".to_owned());
    cell(&mut row, "source_host", "n/a".to_owned());
    cell(&mut row, "source_node", "n/a".to_owned());
    cell(&mut row, "target_host", "127.0.0.1".to_owned());
    cell(&mut row, "target_node", node.to_owned());
    cell(&mut row, "repository", "n/a".to_owned());
    cell(&mut row, "snapshot", "n/a".to_owned());
    add_recovered(&mut row);
    row
}

/// How each shard came to be where it is, one row for each, in the order of the
/// indices and of the shards as they are written.
pub fn recovery(all: &Vec<Recovered>, node: &str) -> (t: Table)
    ensures
        t.columns@ == RECOVERY@,
        t.usual@.len() == 0,
        ({
            let rows = all_recovery_rows(all.deep_view(), node@, all@.len());
            t.rows.deep_view() == sorted(rows, by_two(), rows.len())
        }),
{
    let ghost av = all.deep_view();
    let mut rows: Vec<Row> = Vec::new();
    assert(rows.deep_view() =~= Seq::<Seq<(Seq<char>, Seq<char>)>>::empty());
    for i in 0..all.len()
        invariant
            av == all.deep_view(),
            rows.deep_view() == all_recovery_rows(av, node@, i as nat),
    {
        let r = &all[i];
        let ghost rv = av[i as int];
        assert(rv == r.deep_view());
        let ghost start = rows.deep_view();
        assert(start + recovery_rows(rv, node@, 0) =~= start);
        for shard in 0..r.shards
            invariant
                rv == r.deep_view(),
                rows.deep_view() == start + recovery_rows(rv, node@, shard as nat),
        {
            push_to(&mut rows, recovery_of(r, shard, node));
            assert(rows.deep_view() =~= start + recovery_rows(rv, node@, (shard + 1) as nat));
        }
    }
    assert(rows.deep_view().len() == rows@.len());
    let ghost less = by_two();
    let f = |a: &Row, b: &Row| -> (r: bool)
        ensures
            r == less(a.deep_view(), b.deep_view()),
        { two_before(a, b) };
    Table {
        columns: columns_of(&RECOVERY),
        usual: Vec::new(),
        rows: sort_by(rows, f, Ghost(less)),
    }
}

// ---- repositories and snapshots ------------------------------------------------

/// The columns of the repositories.
pub const REPOSITORIES: [&'static str; 2] = ["id", "type"];

pub open spec fn repository_row(name: Seq<char>, def: JsonV) -> Seq<(Seq<char>, Seq<char>)> {
    no_cells().push(("id"@, name)).push(
        (
            "type"@,
            match said(def, "type"@) {
                Some(k) => k,
                None => "fs"@,
            },
        ),
    )
}

pub open spec fn repository_rows(all: Seq<(Seq<char>, JsonV)>) -> Seq<
    Seq<(Seq<char>, Seq<char>)>,
> {
    all.map_values(|e: (Seq<char>, JsonV)| repository_row(e.0, e.1))
}

/// The repositories, in the order of their names.
pub fn repositories(all: &Vec<(String, Json)>) -> (t: Table)
    ensures
        t.columns@ == REPOSITORIES@,
        t.usual@.len() == 0,
        t.rows.deep_view() == sorted(
            repository_rows(all.deep_view()),
            by_first(),
            all@.len(),
        ),
{
    let ghost av = all.deep_view();
    let mut rows: Vec<Row> = Vec::new();
    for i in 0..all.len()
        invariant
            av == all.deep_view(),
            rows@.len() == i,
            forall|j: int|
                0 <= j < i ==> rows@[j].deep_view() == repository_row(
                    (#[trigger] av[j]).0,
                    av[j].1,
                ),
    {
        assert(av[i as int] == (all@[i as int].0@, all@[i as int].1.deep_view()));
        let kind = match text_at(&all[i].1, "type") {
            Some(k) => k,
            None => "fs".to_owned(),
        };
        let mut row = cells();
        cell(&mut row, "id", all[i].0.clone());
        cell(&mut row, "type", kind);
        rows.push(row);
    }
    assert(rows.deep_view() =~= repository_rows(av));
    Table { columns: columns_of(&REPOSITORIES), usual: Vec::new(), rows: sort_rows(rows) }
}

/// The columns of the snapshots.
pub const SNAPSHOTS: [&'static str; 12] = [
    "id",
    "status",
    "start_epoch",
    "start_time",
    "end_epoch",
    "end_time",
    "duration",
    "indices",
    "successful_shards",
    "failed_shards",
    "total_shards",
    "reason",
];

/// The repositories a path names; no path names all of them.
pub fn repositories_asked(target: &Option<String>, all: Vec<String>) -> (r: Vec<String>)
    ensures
        r.deep_view() == match target.deep_view() {
            Some(t) => if t.len() == 0 {
                all.deep_view()
            } else {
                parts(t)
            },
            None => all.deep_view(),
        },
{
    match target {
        Some(t) => {
            if t.as_str().is_empty() {
                all
            } else {
                parts_of(t.as_str())
            }
        },
        None => all,
    }
}

/// How many shards a snapshot records under a name.
pub open spec fn shards_recorded(snap: JsonV, key: Seq<char>) -> nat {
    match member(snap, "shards"@) {
        Some(s) => match counted(s, key) {
            Some(n) => n as nat,
            None => 0,
        },
        None => 0,
    }
}

/// How many indices a snapshot holds.
pub open spec fn indices_recorded(snap: JsonV) -> nat {
    match member(snap, "indices"@) {
        Some(JsonV::List(v)) => v.len(),
        _ => 0,
    }
}

pub open spec fn snapshot_row(name: Seq<char>, snap: JsonV) -> Seq<(Seq<char>, Seq<char>)> {
    no_cells().push(("id"@, name)).push(
        (
            "status"@,
            match said(snap, "state"@) {
                Some(s) => s,
                None => "SUCCESS"@,
            },
        ),
    ).push(("start_epoch"@, "0"@)).push(("start_time"@, "00:00:00"@)).push(
        ("end_epoch"@, "0"@),
    ).push(("end_time"@, "00:00:00"@)).push(("duration"@, "0s"@)).push(
        ("indices"@, dec(indices_recorded(snap))),
    ).push(("successful_shards"@, dec(shards_recorded(snap, "successful"@)))).push(
        ("failed_shards"@, dec(shards_recorded(snap, "failed"@))),
    ).push(("total_shards"@, dec(shards_recorded(snap, "total"@)))).push(("reason"@, ""@))
}

pub open spec fn snapshot_rows(all: Seq<(Seq<char>, JsonV)>) -> Seq<Seq<(Seq<char>, Seq<char>)>> {
    all.map_values(|e: (Seq<char>, JsonV)| snapshot_row(e.0, e.1))
}

fn recorded(snap: &Json, key: &str) -> (r: String)
    ensures
        r@ == dec(shards_recorded(snap.deep_view(), key@)),
{
    let n: u64 = match snap.get("shards") {
        Some(s) => match whole_at(s, key) {
            Some(n) => n,
            None => 0,
        },
        None => 0,
    };
    decimal(n)
}

fn count_indices(snap: &Json) -> (r: String)
    ensures
        r@ == dec(indices_recorded(snap.deep_view())),
{
    match snap.get("indices") {
        Some(Json::List(v)) => {
            proof {
                crate::json::lemma_list(*v);
            }
            assert(v.deep_view().len() == v@.len());
            decimal(v.len() as u64)
        },
        _ => decimal(0),
    }
}

fn snapshot_of(name: &str, snap: &Json) -> (row: Row)
    ensures
        row.deep_view() == snapshot_row(name@, snap.deep_view()),
{
    let state = match text_at(snap, "state") {
        Some(s) => s,
        None => "SUCCESS".to_owned(),
    };
    let mut row = cells();
    cell(&mut row, "id", name.to_owned());
    cell(&mut row, "status", state);
    cell(&mut row, "start_epoch", "0".to_owned());
    cell(&mut row, "start_time", "00:00:00".to_owned());
    cell(&mut row, "end_epoch", "0".to_owned());
    cell(&mut row, "end_time", "00:00:00".to_owned());
    cell(&mut row, "duration", "0s".to_owned());
    cell(&mut row, "indices", count_indices(snap));
    cell(&mut row, "successful_shards", recorded(snap, "successful"));
    cell(&mut row, "failed_shards", recorded(snap, "failed"));
    cell(&mut row, "total_shards", recorded(snap, "total"));
    cell(&mut row, "reason", "".to_owned());
    row
}

/// The snapshots of some repositories, in the order of their names.
pub fn snapshots(all: &Vec<(String, Json)>) -> (t: Table)
    ensures
        t.columns@ == SNAPSHOTS@,
        t.usual@.len() == 0,
        t.rows.deep_view() == sorted(snapshot_rows(all.deep_view()), by_first(), all@.len()),
{
    let ghost av = all.deep_view();
    let mut rows: Vec<Row> = Vec::new();
    for i in 0..all.len()
        invariant
            av == all.deep_view(),
            rows@.len() == i,
            forall|j: int|
                0 <= j < i ==> rows@[j].deep_view() == snapshot_row((#[trigger] av[j]).0, av[j].1),
    {
        assert(av[i as int] == (all@[i as int].0@, all@[i as int].1.deep_view()));
        rows.push(snapshot_of(all[i].0.as_str(), &all[i].1));
    }
    assert(rows.deep_view() =~= snapshot_rows(av));
    Table { columns: columns_of(&SNAPSHOTS), usual: Vec::new(), rows: sort_rows(rows) }
}

// ---- attributes ----------------------------------------------------------------

/// The columns of the attributes.
pub const NODE_ATTRIBUTES: [&'static str; 5] = ["node", "host", "ip", "attr", "value"];

pub open spec fn attribute_row(node: Seq<char>, e: (Seq<char>, Seq<char>)) -> Seq<
    (Seq<char>, Seq<char>),
> {
    no_cells().push(("node"@, node)).push(("host"@, "127.0.0.1"@)).push(
        ("ip"@, "127.0.0.1"@),
    ).push(("attr"@, e.0)).push(("value"@, e.1))
}

/// The attributes of this node.
pub fn nodeattrs(all: &Vec<(String, String)>, node: &str) -> (t: Table)
    ensures
        t.columns@ == NODE_ATTRIBUTES@,
        t.usual@.len() == 0,
        t.rows.deep_view() == all.deep_view().map_values(
            |e: (Seq<char>, Seq<char>)| attribute_row(node@, e),
        ),
{
    let ghost av = all.deep_view();
    let mut rows: Vec<Row> = Vec::new();
    for i in 0..all.len()
        invariant
            av == all.deep_view(),
            rows@.len() == i,
            forall|j: int|
                0 <= j < i ==> rows@[j].deep_view() == attribute_row(node@, #[trigger] av[j]),
    {
        assert(av[i as int] == (all@[i as int].0@, all@[i as int].1@));
        let mut row = cells();
        cell(&mut row, "node", node.to_owned());
        cell(&mut row, "host", "127.0.0.1".to_owned());
        cell(&mut row, "ip", "127.0.0.1".to_owned());
        cell(&mut row, "attr", all[i].0.clone());
        cell(&mut row, "value", all[i].1.clone());
        rows.push(row);
    }
    assert(rows.deep_view() =~= av.map_values(
        |e: (Seq<char>, Seq<char>)| attribute_row(node@, e),
    ));
    Table { columns: columns_of(&NODE_ATTRIBUTES), usual: Vec::new(), rows }
}

} // verus!
