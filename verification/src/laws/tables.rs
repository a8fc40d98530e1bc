//! Which rows each table has.

use vstd::prelude::*;

use crate::api::cat::listings::{
    all_segments, attribute_row, by_two, fields_shown, recovery_row, recovery_rows,
    all_recovery_rows, repository_row, segment_row, segment_rows, snapshot_row, template_named,
    template_row, template_rows, RecoveredV,
};
use crate::api::cat::nodes::{elected, is_full, manager_row, node_row};
use crate::api::cat::table::{held_in, table_of, FactsV};
use crate::api::cat::{by_first, first_cell, Endpoint};
use crate::api::cat::listings::second_cell;
use crate::json::JsonV;
use crate::list::{lemma_before, lemma_before_before, lemma_sorted, lookup, sorted};

verus! {

proof fn lemma_in_sorted(
    rows: Seq<Seq<(Seq<char>, Seq<char>)>>,
    less: spec_fn(Seq<(Seq<char>, Seq<char>)>, Seq<(Seq<char>, Seq<char>)>) -> bool,
    row: Seq<(Seq<char>, Seq<char>)>,
)
    requires
        rows.contains(row),
        forall|a: Seq<(Seq<char>, Seq<char>)>, b: Seq<(Seq<char>, Seq<char>)>|
            #[trigger] less(a, b) ==> !less(b, a),
        forall|
            a: Seq<(Seq<char>, Seq<char>)>,
            b: Seq<(Seq<char>, Seq<char>)>,
            c: Seq<(Seq<char>, Seq<char>)>,
        | #[trigger] less(a, b) && #[trigger] less(b, c) ==> less(a, c),
    ensures
        sorted(rows, less, rows.len()).contains(row),
{
    lemma_sorted(rows, less, rows.len());
    let s = sorted(rows, less, rows.len());
    assert(rows.take(rows.len() as int) =~= rows);
    rows.to_multiset_ensures();
    s.to_multiset_ensures();
    assert(s.to_multiset().count(row) > 0);
}

proof fn lemma_in_sorted_by_first(
    rows: Seq<Seq<(Seq<char>, Seq<char>)>>,
    row: Seq<(Seq<char>, Seq<char>)>,
)
    requires
        rows.contains(row),
    ensures
        sorted(rows, by_first(), rows.len()).contains(row),
{
    let less = by_first();
    assert forall|a: Seq<(Seq<char>, Seq<char>)>, b: Seq<(Seq<char>, Seq<char>)>|
        #[trigger] less(a, b) implies !less(b, a) by {
        lemma_before(first_cell(a), first_cell(b));
    }
    assert forall|
        a: Seq<(Seq<char>, Seq<char>)>,
        b: Seq<(Seq<char>, Seq<char>)>,
        c: Seq<(Seq<char>, Seq<char>)>,
    | #[trigger] less(a, b) && #[trigger] less(b, c) implies less(a, c) by {
        lemma_before_before(first_cell(a), first_cell(b), first_cell(c));
    }
    lemma_in_sorted(rows, less, row);
}

/// The table of the elected node has one row, and that of the nodes one for each, in their
/// order.
pub proof fn law_the_rows_of_nodes(target: Option<Seq<char>>, f: FactsV, i: int)
    ensures
        table_of(Endpoint::Manager, target, f) matches Some(t) && t.rows == seq![
            manager_row(elected(f.nodes, f.manager, (f.me, f.name))),
        ],
        table_of(Endpoint::Nodes, target, f) matches Some(t) && t.rows.len() == f.nodes.len() && (0
            <= i < f.nodes.len() ==> t.rows[i] == node_row(
            f.nodes[i],
            f.resources,
            f.manager,
            f.me,
            is_full(f.full_id),
            f.unit,
        )),
{
}

proof fn lemma_templates(
    all: Seq<(Seq<char>, JsonV)>,
    target: Option<Seq<char>>,
    n: nat,
    i: int,
)
    requires
        0 <= i < n <= all.len(),
        template_named(target, all[i].0),
    ensures
        template_rows(all, target, n).contains(template_row(all[i].0, all[i].1)),
    decreases n,
{
    let now = template_rows(all, target, n);
    let row = template_row(all[i].0, all[i].1);
    if i == n - 1 {
        assert(now[now.len() - 1] == row);
    } else {
        lemma_templates(all, target, (n - 1) as nat, i);
        let before = template_rows(all, target, (n - 1) as nat);
        let j = before.index_of(row);
        assert(now[j] == row);
    }
}

/// The table of templates has a row for each that is asked for.
pub proof fn law_the_rows_of_templates(target: Option<Seq<char>>, f: FactsV, i: int)
    requires
        0 <= i < f.templates.len(),
        template_named(target, f.templates[i].0),
    ensures
        table_of(Endpoint::Templates, target, f) matches Some(t) && t.rows.contains(
            template_row(f.templates[i].0, f.templates[i].1),
        ),
{
    lemma_templates(f.templates, target, f.templates.len(), i);
    let rows = template_rows(f.templates, target, f.templates.len());
    lemma_in_sorted_by_first(rows, template_row(f.templates[i].0, f.templates[i].1));
}

/// The tables of repositories and of attributes have a row for each.
pub proof fn law_the_rows_of_repositories_and_attributes(
    target: Option<Seq<char>>,
    f: FactsV,
    i: int,
)
    ensures
        0 <= i < f.repositories.len() ==> (table_of(Endpoint::Repositories, target, f) matches Some(
            t,
        ) && t.rows.contains(repository_row(f.repositories[i].0, f.repositories[i].1))),
        0 <= i < f.attributes.len() ==> (table_of(Endpoint::NodeAttrs, target, f) matches Some(t)
            && t.rows.contains(attribute_row(f.name, f.attributes[i]))),
{
    if 0 <= i < f.repositories.len() {
        let rows = crate::api::cat::listings::repository_rows(f.repositories);
        let row = repository_row(f.repositories[i].0, f.repositories[i].1);
        assert(rows[i] == row);
        assert(rows.contains(row));
        lemma_in_sorted_by_first(rows, row);
    }
    if 0 <= i < f.attributes.len() {
        let rows = table_of(Endpoint::NodeAttrs, target, f)->0.rows;
        assert(rows[i] == attribute_row(f.name, f.attributes[i]));
    }
}

proof fn lemma_held(
    held: Seq<(Seq<char>, Seq<(Seq<char>, JsonV)>)>,
    repos: Seq<Seq<char>>,
    n: nat,
    i: int,
    more: Seq<(Seq<char>, JsonV)>,
    j: int,
)
    requires
        0 <= i < n <= repos.len(),
        lookup(held, repos[i]) == Some(more),
        0 <= j < more.len(),
    ensures
        held_in(held, repos, n).contains(more[j]),
    decreases n,
{
    let before = held_in(held, repos, (n - 1) as nat);
    let now = held_in(held, repos, n);
    if i == n - 1 {
        assert(now[before.len() + j] == more[j]);
    } else {
        lemma_held(held, repos, (n - 1) as nat, i, more, j);
        let k = before.index_of(more[j]);
        assert(now[k] == more[j]);
    }
}

/// The table of snapshots has a row for each that is held in a repository that is asked for.
pub proof fn law_the_rows_of_snapshots(
    target: Seq<char>,
    f: FactsV,
    repo: Seq<char>,
    more: Seq<(Seq<char>, JsonV)>,
    j: int,
)
    requires
        target.len() > 0,
        crate::api::snapshot::repository::parts(target).contains(repo),
        lookup(f.snapshots, repo) == Some(more),
        0 <= j < more.len(),
    ensures
        table_of(Endpoint::Snapshots, Some(target), f) matches Some(t) && t.rows.contains(
            snapshot_row(more[j].0, more[j].1),
        ),
{
    let repos = crate::api::snapshot::repository::parts(target);
    let i = repos.index_of(repo);
    lemma_held(f.snapshots, repos, repos.len(), i, more, j);
    let all = held_in(f.snapshots, repos, repos.len());
    let rows = crate::api::cat::listings::snapshot_rows(all);
    let k = all.index_of(more[j]);
    let row = snapshot_row(more[j].0, more[j].1);
    assert(rows[k] == row);
    assert(rows.contains(row));
    lemma_in_sorted_by_first(rows, row);
}

proof fn lemma_segments(index: Seq<char>, node: Seq<char>, segments: Seq<(u64, u64)>, n: nat, j: int)
    requires
        0 <= j < n <= segments.len(),
    ensures
        segment_rows(index, node, segments, n).len() == n,
        segment_rows(index, node, segments, n)[j] == segment_row(
            index,
            node,
            j as nat,
            segments[j].0,
            segments[j].1,
        ),
    decreases n,
{
    if j < n - 1 {
        lemma_segments(index, node, segments, (n - 1) as nat, j);
    } else if n > 1 {
        lemma_segments(index, node, segments, (n - 1) as nat, 0);
    } else {
        assert(segment_rows(index, node, segments, 0) =~= Seq::empty());
    }
}

proof fn lemma_all_segments(
    all: Seq<(Seq<char>, Seq<(u64, u64)>)>,
    node: Seq<char>,
    n: nat,
    i: int,
    j: int,
)
    requires
        0 <= i < n <= all.len(),
        0 <= j < all[i].1.len(),
    ensures
        all_segments(all, node, n).contains(
            segment_row(all[i].0, node, j as nat, all[i].1[j].0, all[i].1[j].1),
        ),
    decreases n,
{
    let row = segment_row(all[i].0, node, j as nat, all[i].1[j].0, all[i].1[j].1);
    let before = all_segments(all, node, (n - 1) as nat);
    let now = all_segments(all, node, n);
    if i == n - 1 {
        lemma_segments(all[i].0, node, all[i].1, all[i].1.len(), j);
        assert(now[before.len() + j] == row);
    } else {
        lemma_all_segments(all, node, (n - 1) as nat, i, j);
        let k = before.index_of(row);
        assert(now[k] == row);
    }
}

/// The table of segments has a row for each segment of each index.
pub proof fn law_the_rows_of_segments(target: Option<Seq<char>>, f: FactsV, i: int, j: int)
    requires
        0 <= i < f.segments.len(),
        0 <= j < f.segments[i].1.len(),
    ensures
        ({
            let (index, all) = f.segments[i];
            table_of(Endpoint::Segments, target, f) matches Some(t) && t.rows.contains(
                segment_row(index, f.me, j as nat, all[j].0, all[j].1),
            )
        }),
{
    lemma_all_segments(f.segments, f.me, f.segments.len(), i, j);
}

proof fn lemma_recovery(r: RecoveredV, node: Seq<char>, n: nat, s: int)
    requires
        0 <= s < n <= u32::MAX,
    ensures
        recovery_rows(r, node, n).contains(recovery_row(r, s as u32, node)),
    decreases n,
{
    let now = recovery_rows(r, node, n);
    let row = recovery_row(r, s as u32, node);
    if s == n - 1 {
        assert(now[now.len() - 1] == row);
    } else {
        lemma_recovery(r, node, (n - 1) as nat, s);
        let before = recovery_rows(r, node, (n - 1) as nat);
        let k = before.index_of(row);
        assert(now[k] == row);
    }
}

proof fn lemma_recoveries(all: Seq<RecoveredV>, node: Seq<char>, n: nat, i: int, s: int)
    requires
        0 <= i < n <= all.len(),
        0 <= s < all[i].shards,
    ensures
        all_recovery_rows(all, node, n).contains(recovery_row(all[i], s as u32, node)),
    decreases n,
{
    let row = recovery_row(all[i], s as u32, node);
    let before = all_recovery_rows(all, node, (n - 1) as nat);
    let mine = recovery_rows(all[n - 1], node, all[n - 1].shards as nat);
    let now = all_recovery_rows(all, node, n);
    if i == n - 1 {
        lemma_recovery(all[i], node, all[i].shards as nat, s);
        let k = mine.index_of(row);
        assert(now[before.len() + k] == row);
    } else {
        lemma_recoveries(all, node, (n - 1) as nat, i, s);
        let k = before.index_of(row);
        assert(now[k] == row);
    }
}

/// The table of recoveries has a row for each shard of each index.
pub proof fn law_the_rows_of_recoveries(target: Option<Seq<char>>, f: FactsV, i: int, s: int)
    requires
        0 <= i < f.recovered.len(),
        0 <= s < f.recovered[i].shards,
    ensures
        table_of(Endpoint::Recovery, target, f) matches Some(t) && t.rows.contains(
            recovery_row(f.recovered[i], s as u32, f.name),
        ),
{
    lemma_recoveries(f.recovered, f.name, f.recovered.len(), i, s);
    let rows = all_recovery_rows(f.recovered, f.name, f.recovered.len());
    let less = by_two();
    assert forall|a: Seq<(Seq<char>, Seq<char>)>, b: Seq<(Seq<char>, Seq<char>)>|
        #[trigger] less(a, b) implies !less(b, a) by {
        lemma_before(first_cell(a), first_cell(b));
        lemma_before(second_cell(a), second_cell(b));
        crate::list::lemma_not_before_itself(first_cell(a));
    }
    assert forall|
        a: Seq<(Seq<char>, Seq<char>)>,
        b: Seq<(Seq<char>, Seq<char>)>,
        c: Seq<(Seq<char>, Seq<char>)>,
    | #[trigger] less(a, b) && #[trigger] less(b, c) implies less(a, c) by {
        if before_first(a, b) && before_first(b, c) {
            lemma_before_before(first_cell(a), first_cell(b), first_cell(c));
        }
        if !before_first(a, b) && !before_first(b, c) {
            lemma_before_before(second_cell(a), second_cell(b), second_cell(c));
        }
    }
    lemma_in_sorted(rows, less, recovery_row(f.recovered[i], s as u32, f.name));
}

spec fn before_first(a: Seq<(Seq<char>, Seq<char>)>, b: Seq<(Seq<char>, Seq<char>)>) -> bool {
    crate::list::before(first_cell(a), first_cell(b))
}

/// There are no pending tasks, no plugins, no tasks and no segments of a point in time to
/// tell of.
pub proof fn law_the_tables_with_no_rows(target: Option<Seq<char>>, f: FactsV)
    ensures
        table_of(Endpoint::PendingTasks, target, f) matches Some(t) && t.rows.len() == 0,
        table_of(Endpoint::Plugins, target, f) matches Some(t) && t.rows.len() == 0,
        table_of(Endpoint::Tasks, target, f) matches Some(t) && t.rows.len() == 0,
        table_of(Endpoint::PitSegments, target, f) matches Some(t) && t.rows.len() == 0,
{
}

/// The fields that are listed of an index are those that are loaded and asked for.
pub proof fn law_which_fields_are_listed(
    fields: Seq<(Seq<char>, u64)>,
    loaded: Seq<Seq<char>>,
    target: Seq<char>,
    x: (Seq<char>, u64),
)
    ensures
        fields_shown(fields, loaded, None).contains(x) <==> fields.contains(x) && loaded.contains(
            x.0,
        ),
        fields_shown(fields, loaded, Some(target)).contains(x) <==> fields.contains(x)
            && loaded.contains(x.0) && crate::api::snapshot::repository::parts(target).contains(
            x.0,
        ),
{
    let p = crate::api::cat::listings::is_loaded(loaded);
    let kept = crate::list::keep(fields, p);
    crate::laws::words::law_what_passes_is_kept(fields, p, x);
    let less = crate::api::cat::listings::by_field();
    assert forall|a: (Seq<char>, u64), b: (Seq<char>, u64)| #[trigger] less(a, b) implies !less(
        b,
        a,
    ) by {
        lemma_before(a.0, b.0);
        crate::list::lemma_not_before_itself(a.0);
    }
    assert forall|a: (Seq<char>, u64), b: (Seq<char>, u64), c: (Seq<char>, u64)|
        #[trigger] less(a, b) && #[trigger] less(b, c) implies less(a, c) by {
        if crate::list::before(a.0, b.0) && crate::list::before(b.0, c.0) {
            lemma_before_before(a.0, b.0, c.0);
        }
    }
    lemma_sorted(kept, less, kept.len());
    let s = sorted(kept, less, kept.len());
    assert(kept.take(kept.len() as int) =~= kept);
    kept.to_multiset_ensures();
    s.to_multiset_ensures();
    assert(s.contains(x) <==> s.to_multiset().count(x) > 0);
    assert(kept.contains(x) <==> kept.to_multiset().count(x) > 0);
    crate::laws::words::law_what_passes_is_kept(
        s,
        crate::api::cat::listings::field_named(None),
        x,
    );
    crate::laws::words::law_what_passes_is_kept(
        s,
        crate::api::cat::listings::field_named(Some(target)),
        x,
    );
}

} // verus!
