//! From the name of a table to the table.

use vstd::prelude::*;

use super::listings::{
    all_recovery_rows, all_segments, attribute_row, by_two, empty, field_rows, fielddata,
    nodeattrs, pit_segments, recovery, repositories, repositories_asked, repository_rows, segments,
    snapshot_rows, snapshots, template_rows, templates, Recovered, RecoveredV, FIELDDATA,
    NODE_ATTRIBUTES, PENDING_TASKS, PLUGINS, RECOVERY, REPOSITORIES, SNAPSHOTS, TASKS,
};
use super::nodes::{
    cat_manager, cat_nodes, elected, is_full, manager_row, node_rows, Resources, ResourcesV,
};
use super::shards::{cat_shards, described, rows_of, Asked, AskedV, Held, HeldV};
use super::{by_first, cat_by_name, endpoint, unknown, Endpoint, Table};
use crate::api::answer::Answer;
use crate::api::snapshot::repository::parts;
use crate::api::{CAT_SEGMENT_COLS, CAT_TEMPLATE_COLS};
use crate::cluster::state::{DiscoveryNode, IndexV, NodeId, NodeV, RoutingTable};
use crate::json::{Json, JsonV};
use crate::list::{get, lemma_take, lookup, push_to, sorted};
use crate::text::cut;

verus! {

/// What is known of this node and of what it holds, for the tables to be made
/// from.
pub struct Facts<'a> {
    pub nodes: &'a Vec<DiscoveryNode>,
    /// the node the cluster has elected
    pub manager: Option<NodeId>,
    pub me: NodeId,
    pub name: String,
    pub resources: Resources,
    /// whether another node asked this one
    pub forwarded: bool,
    /// what was asked of ids and of sizes
    pub full_id: Option<String>,
    pub unit: Option<String>,
    pub table: &'a RoutingTable,
    /// the indices this node resolves the path to, and what it holds of them
    pub local: Vec<String>,
    pub holdings: Vec<(String, Held)>,
    pub recovered: Vec<Recovered>,
    pub templates: Vec<(String, Json)>,
    /// the segments of each index: how many documents each holds, and how many
    /// of them are deleted
    pub segments: Vec<(String, Vec<(u64, u64)>)>,
    /// what the columns of each index's fields take up, and which are loaded
    pub fields: Vec<(Vec<(String, u64)>, Vec<String>)>,
    pub repositories: Vec<(String, Json)>,
    /// the snapshots of each repository
    pub snapshots: Vec<(String, Vec<(String, Json)>)>,
    pub attributes: Vec<(String, String)>,
}

pub struct FactsV {
    pub nodes: Seq<NodeV>,
    pub manager: Option<Seq<char>>,
    pub me: Seq<char>,
    pub name: Seq<char>,
    pub resources: ResourcesV,
    pub forwarded: bool,
    pub full_id: Option<Seq<char>>,
    pub unit: Option<Seq<char>>,
    pub table: Seq<IndexV>,
    pub local: Seq<Seq<char>>,
    pub holdings: Seq<(Seq<char>, HeldV)>,
    pub recovered: Seq<RecoveredV>,
    pub templates: Seq<(Seq<char>, JsonV)>,
    pub segments: Seq<(Seq<char>, Seq<(u64, u64)>)>,
    pub fields: Seq<(Seq<(Seq<char>, u64)>, Seq<Seq<char>>)>,
    pub repositories: Seq<(Seq<char>, JsonV)>,
    pub snapshots: Seq<(Seq<char>, Seq<(Seq<char>, JsonV)>)>,
    pub attributes: Seq<(Seq<char>, Seq<char>)>,
}

impl<'a> DeepView for Facts<'a> {
    type V = FactsV;

    open spec fn deep_view(&self) -> FactsV {
        FactsV {
            nodes: self.nodes.deep_view(),
            manager: self.manager.deep_view(),
            me: self.me.deep_view(),
            name: self.name@,
            resources: self.resources.deep_view(),
            forwarded: self.forwarded,
            full_id: self.full_id.deep_view(),
            unit: self.unit.deep_view(),
            table: self.table.deep_view(),
            local: self.local.deep_view(),
            holdings: self.holdings.deep_view(),
            recovered: self.recovered.deep_view(),
            templates: self.templates.deep_view(),
            segments: self.segments.deep_view(),
            fields: self.fields.deep_view(),
            repositories: self.repositories.deep_view(),
            snapshots: self.snapshots.deep_view(),
            attributes: self.attributes.deep_view(),
        }
    }
}

/// A table: the columns it can show, those it shows when none are asked for, and
/// its rows.
#[verifier::ext_equal]
pub struct TableV {
    pub columns: Seq<&'static str>,
    pub usual: Seq<&'static str>,
    pub rows: Seq<Seq<(Seq<char>, Seq<char>)>>,
}

impl Table {
    pub open spec fn seen(&self) -> TableV {
        TableV {
            columns: self.columns@,
            usual: self.usual@,
            rows: self.rows.deep_view(),
        }
    }
}

/// A table of the columns its rows have, all of them shown.
pub open spec fn as_it_is(rows: Seq<Seq<(Seq<char>, Seq<char>)>>) -> TableV {
    TableV { columns: Seq::empty(), usual: Seq::empty(), rows }
}

/// A table of some columns, all of them shown.
pub open spec fn of_columns(
    columns: Seq<&'static str>,
    rows: Seq<Seq<(Seq<char>, Seq<char>)>>,
) -> TableV {
    TableV { columns, usual: Seq::empty(), rows }
}

/// The names of the repositories there are.
pub open spec fn names_of(all: Seq<(Seq<char>, JsonV)>) -> Seq<Seq<char>> {
    all.map_values(|e: (Seq<char>, JsonV)| e.0)
}

/// The repositories a path names; no path names all of them.
pub open spec fn asked(target: Option<Seq<char>>, all: Seq<Seq<char>>) -> Seq<Seq<char>> {
    match target {
        Some(t) => if t.len() == 0 {
            all
        } else {
            parts(t)
        },
        None => all,
    }
}

/// The snapshots of the first of some repositories, one repository after the
/// other.
pub open spec fn held_in(
    held: Seq<(Seq<char>, Seq<(Seq<char>, JsonV)>)>,
    repos: Seq<Seq<char>>,
    n: nat,
) -> Seq<(Seq<char>, JsonV)>
    decreases n,
{
    if n == 0 {
        Seq::empty()
    } else {
        let before = held_in(held, repos, (n - 1) as nat);
        match lookup(held, repos[n - 1]) {
            Some(more) => before + more,
            None => before,
        }
    }
}

/// The shards of the indices a path names.
pub open spec fn shards_table(target: Option<Seq<char>>, f: FactsV) -> TableV {
    let a = AskedV {
        nodes: f.nodes,
        me: f.me,
        name: f.name,
        forwarded: f.forwarded,
        unit: f.unit,
    };
    let names = described(f.local, f.table, target, f.table.len());
    let rows = rows_of(a, f.table, f.holdings, names, names.len());
    TableV {
        columns: Seq::empty(),
        usual: super::shards::USUAL@,
        rows: sorted(rows, by_first(), rows.len()),
    }
}

/// A table, from what is known. Those of the indices, their aliases, counts and
/// allocation, of the cluster's health and of the thread pools are made
/// elsewhere.
pub open spec fn table_of(e: Endpoint, target: Option<Seq<char>>, f: FactsV) -> Option<TableV> {
    match e {
        Endpoint::Manager => Some(
            as_it_is(seq![manager_row(elected(f.nodes, f.manager, (f.me, f.name)))]),
        ),
        Endpoint::Nodes => Some(
            TableV {
                columns: super::nodes::COLUMNS@,
                usual: super::nodes::USUAL@,
                rows: node_rows(
                    f.nodes,
                    f.resources,
                    f.manager,
                    f.me,
                    is_full(f.full_id),
                    f.unit,
                ),
            },
        ),
        Endpoint::Templates => {
            let rows = template_rows(f.templates, target, f.templates.len());
            Some(
                TableV {
                    columns: CAT_TEMPLATE_COLS@,
                    usual: CAT_TEMPLATE_COLS@,
                    rows: sorted(rows, by_first(), rows.len()),
                },
            )
        },
        Endpoint::Shards => Some(shards_table(target, f)),
        Endpoint::PitSegments => Some(of_columns(CAT_SEGMENT_COLS@, Seq::empty())),
        Endpoint::Segments => Some(
            as_it_is(all_segments(f.segments, f.me, f.segments.len())),
        ),
        Endpoint::Fielddata => Some(
            of_columns(
                FIELDDATA@,
                field_rows(f.fields, target, f.me, f.name, f.fields.len()),
            ),
        ),
        Endpoint::PendingTasks => Some(of_columns(PENDING_TASKS@, Seq::empty())),
        Endpoint::Plugins => Some(of_columns(PLUGINS@, Seq::empty())),
        Endpoint::Tasks => Some(of_columns(TASKS@, Seq::empty())),
        Endpoint::Recovery => {
            let rows = all_recovery_rows(f.recovered, f.name, f.recovered.len());
            Some(of_columns(RECOVERY@, sorted(rows, by_two(), rows.len())))
        },
        Endpoint::Repositories => Some(
            of_columns(
                REPOSITORIES@,
                sorted(repository_rows(f.repositories), by_first(), f.repositories.len()),
            ),
        ),
        Endpoint::Snapshots => {
            let repos = asked(target, names_of(f.repositories));
            let all = held_in(f.snapshots, repos, repos.len());
            Some(of_columns(SNAPSHOTS@, sorted(snapshot_rows(all), by_first(), all.len())))
        },
        Endpoint::NodeAttrs => Some(
            of_columns(
                NODE_ATTRIBUTES@,
                f.attributes.map_values(
                    |a: (Seq<char>, Seq<char>)| attribute_row(f.name, a),
                ),
            ),
        ),
        _ => None,
    }
}

fn copy_names(all: &Vec<(String, Json)>) -> (r: Vec<String>)
    ensures
        r.deep_view() == names_of(all.deep_view()),
{
    let ghost av = all.deep_view();
    let mut r: Vec<String> = Vec::new();
    for i in 0..all.len()
        invariant
            av == all.deep_view(),
            r@.len() == i,
            forall|j: int| 0 <= j < i ==> r@[j]@ == (#[trigger] av[j]).0,
    {
        assert(av[i as int] == (all@[i as int].0@, all@[i as int].1.deep_view()));
        r.push(all[i].0.clone());
    }
    assert(r.deep_view() =~= names_of(av));
    r
}

fn append(out: &mut Vec<(String, Json)>, more: &Vec<(String, Json)>)
    ensures
        final(out).deep_view() == old(out).deep_view() + more.deep_view(),
{
    let ghost start = out.deep_view();
    let ghost mv = more.deep_view();
    assert(start + mv.take(0) =~= start);
    for i in 0..more.len()
        invariant
            mv == more.deep_view(),
            out.deep_view() == start + mv.take(i as int),
    {
        proof {
            lemma_take(mv, i as int);
            assert(mv[i as int] == (more@[i as int].0@, more@[i as int].1.deep_view()));
        }
        push_to(out, (more[i].0.clone(), more[i].1.clone()));
        assert(out.deep_view() =~= start + mv.take(i + 1));
    }
    assert(mv.take(more@.len() as int) =~= mv);
}

fn hold_in(held: &Vec<(String, Vec<(String, Json)>)>, repos: &Vec<String>) -> (r: Vec<
    (String, Json),
>)
    ensures
        r.deep_view() == held_in(held.deep_view(), repos.deep_view(), repos@.len()),
{
    let ghost rv = repos.deep_view();
    let ghost hv = held.deep_view();
    let mut out: Vec<(String, Json)> = Vec::new();
    assert(out.deep_view() =~= Seq::<(Seq<char>, JsonV)>::empty());
    for i in 0..repos.len()
        invariant
            rv == repos.deep_view(),
            hv == held.deep_view(),
            out.deep_view() == held_in(hv, rv, i as nat),
    {
        assert(rv[i as int] == repos@[i as int]@);
        if let Some(more) = get(held, repos[i].as_str()) {
            append(&mut out, more);
        }
    }
    out
}

fn copy_all(v: &Vec<String>) -> (r: Vec<String>)
    ensures
        r.deep_view() == v.deep_view(),
{
    let mut r: Vec<String> = Vec::new();
    for i in 0..v.len()
        invariant
            r@.len() == i,
            forall|j: int| 0 <= j < i ==> (#[trigger] r@[j])@ == v@[j]@,
    {
        r.push(v[i].clone());
    }
    assert(r.deep_view() =~= v.deep_view());
    r
}

fn copy_unit(u: &Option<String>) -> (r: Option<String>)
    ensures
        r.deep_view() == u.deep_view(),
{
    match u {
        Some(s) => Some(s.clone()),
        None => None,
    }
}

fn make_shards(target: &Option<String>, f: &Facts) -> (t: Table)
    ensures
        t.seen() == shards_table(target.deep_view(), f.deep_view()),
{
    let a = Asked {
        nodes: f.nodes,
        me: f.me.clone(),
        name: f.name.clone(),
        forwarded: f.forwarded,
        unit: copy_unit(&f.unit),
    };
    let t = cat_shards(&a, f.table, &f.holdings, copy_all(&f.local), target);
    assert(t.columns@ =~= Seq::<&'static str>::empty());
    t
}

fn make_snapshots(target: &Option<String>, f: &Facts) -> (t: Table)
    ensures
        Some(t.seen()) == table_of(Endpoint::Snapshots, target.deep_view(), f.deep_view()),
{
    let repos = repositories_asked(target, copy_names(&f.repositories));
    assert(repos.deep_view() == asked(target.deep_view(), names_of(f.repositories.deep_view())));
    assert(repos.deep_view().len() == repos@.len());
    let all = hold_in(&f.snapshots, &repos);
    assert(all.deep_view().len() == all@.len());
    let t = snapshots(&all);
    assert(t.usual@ =~= Seq::<&'static str>::empty());
    t
}

/// A table, from what is known; nothing where it is made elsewhere.
pub fn make_table(e: Endpoint, target: &Option<String>, f: &Facts) -> (r: Option<Table>)
    ensures
        match table_of(e, target.deep_view(), f.deep_view()) {
            Some(t) => r matches Some(x) && x.seen() == t,
            None => r is None,
        },
{
    let ghost tv = table_of(e, target.deep_view(), f.deep_view());
    let t = match e {
        Endpoint::Manager => cat_manager(f.nodes, &f.manager, f.me.as_str(), f.name.as_str()),
        Endpoint::Nodes => cat_nodes(
            f.nodes,
            &f.resources,
            &f.manager,
            &f.me,
            &f.full_id,
            &f.unit,
        ),
        Endpoint::Templates => templates(&f.templates, target),
        Endpoint::Shards => make_shards(target, f),
        Endpoint::PitSegments => pit_segments(),
        Endpoint::Segments => segments(&f.segments, f.me.as_str()),
        Endpoint::Fielddata => fielddata(&f.fields, target, f.me.as_str(), f.name.as_str()),
        Endpoint::PendingTasks => empty(&PENDING_TASKS),
        Endpoint::Plugins => empty(&PLUGINS),
        Endpoint::Tasks => empty(&TASKS),
        Endpoint::Recovery => recovery(&f.recovered, f.name.as_str()),
        Endpoint::Repositories => repositories(&f.repositories),
        Endpoint::Snapshots => make_snapshots(target, f),
        Endpoint::NodeAttrs => nodeattrs(&f.attributes, f.name.as_str()),
        _ => {
            return None;
        },
    };
    assert(f.templates.deep_view().len() == f.templates@.len());
    assert(f.segments.deep_view().len() == f.segments@.len());
    assert(f.fields.deep_view().len() == f.fields@.len());
    assert(f.recovered.deep_view().len() == f.recovered@.len());
    assert(f.repositories.deep_view().len() == f.repositories@.len());
    assert(t.seen() =~= tv->0);
    Some(t)
}

/// The table a path names, from what is known: refused where there is none of
/// that name, and nothing where it is made elsewhere.
pub fn cat(what: &str, target: &Option<String>, f: &Facts) -> (r: Result<Option<Table>, Answer>)
    ensures
        match endpoint(cut(what@, '/')[0]) {
            Some(e) => match table_of(e, target.deep_view(), f.deep_view()) {
                Some(t) => r matches Ok(Some(x)) && x.seen() == t,
                None => r matches Ok(None),
            },
            None => r matches Err(a) && a.deep_view() == unknown(cut(what@, '/')[0]),
        },
{
    match cat_by_name(what) {
        Ok(e) => Ok(make_table(e, target, f)),
        Err(a) => Err(a),
    }
}

} // verus!
