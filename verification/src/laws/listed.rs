//! What is listed of indices and their copies.

use vstd::prelude::*;

use crate::api::cat::shards::{
    copy_row, copy_rows, described, index_rows, is_mine, is_wanted, rows_of, AskedV, HeldV,
};
use crate::api::cat::table::{shards_table, FactsV};
use crate::cluster::state::{shards_of, CopyV, IndexV};
use crate::list::{lemma_before, lemma_before_before, lemma_sorted, lookup, sorted};

verus! {

proof fn lemma_described(
    local: Seq<Seq<char>>,
    t: Seq<IndexV>,
    target: Option<Seq<char>>,
    n: nat,
    x: Seq<char>,
)
    requires
        n <= t.len(),
    ensures
        described(local, t, target, n).contains(x) <==> local.contains(x) || exists|i: int|
            0 <= i < n && (#[trigger] t[i]).name == x && is_wanted(target, x),
    decreases n,
{
    if n > 0 {
        lemma_described(local, t, target, (n - 1) as nat, x);
        let before = described(local, t, target, (n - 1) as nat);
        let now = described(local, t, target, n);
        if before.contains(x) {
            let j = before.index_of(x);
            assert(now[j] == x);
        }
        if t[n - 1].name == x && is_wanted(target, x) && !before.contains(x) {
            assert(now[now.len() - 1] == x);
        }
        if now.contains(x) && !before.contains(x) {
            let j = now.index_of(x);
            assert(j == before.len());
            assert(t[n - 1].name == x);
        }
    }
}

/// The indices that are listed are those this node has, and those of the table that are
/// asked for.
pub proof fn law_which_indices_are_listed(
    local: Seq<Seq<char>>,
    t: Seq<IndexV>,
    target: Option<Seq<char>>,
    x: Seq<char>,
)
    ensures
        described(local, t, target, t.len()).contains(x) <==> local.contains(x) || exists|i: int|
            0 <= i < t.len() && (#[trigger] t[i]).name == x && is_wanted(target, x),
{
    lemma_described(local, t, target, t.len(), x);
}

proof fn lemma_copy_rows(
    a: AskedV,
    n: Seq<char>,
    h: Option<HeldV>,
    copies: Seq<CopyV>,
    k: nat,
    j: int,
)
    requires
        0 <= j < k <= copies.len(),
        is_mine(a, copies[j]),
    ensures
        copy_rows(a, n, h, copies, k).contains(copy_row(a, n, h, copies[j])),
    decreases k,
{
    let row = copy_row(a, n, h, copies[j]);
    let now = copy_rows(a, n, h, copies, k);
    if j == k - 1 {
        assert(now[now.len() - 1] == row);
    } else {
        lemma_copy_rows(a, n, h, copies, (k - 1) as nat, j);
        let before = copy_rows(a, n, h, copies, (k - 1) as nat);
        let i = before.index_of(row);
        assert(now[i] == row);
    }
}

proof fn lemma_by_copy()
    ensures
        ({
            let less = crate::api::cat::shards::by_copy();
            &&& forall|a: CopyV, b: CopyV| #[trigger] less(a, b) ==> !less(b, a)
            &&& forall|a: CopyV, b: CopyV, c: CopyV|
                #[trigger] less(a, b) && #[trigger] less(b, c) ==> less(a, c)
        }),
{
}

/// Every copy of an index that this node tells of has its row.
pub proof fn law_every_copy_told_of_has_its_row(
    a: AskedV,
    t: Seq<IndexV>,
    holdings: Seq<(Seq<char>, HeldV)>,
    n: Seq<char>,
    j: int,
)
    requires
        0 <= j < shards_of(t, n).len(),
        is_mine(a, shards_of(t, n)[j]),
    ensures
        index_rows(a, t, holdings, n).contains(
            copy_row(a, n, lookup(holdings, n), shards_of(t, n)[j]),
        ),
{
    let copies = shards_of(t, n);
    let less = crate::api::cat::shards::by_copy();
    lemma_by_copy();
    lemma_sorted(copies, less, copies.len());
    let s = sorted(copies, less, copies.len());
    assert(copies.take(copies.len() as int) =~= copies);
    copies.to_multiset_ensures();
    s.to_multiset_ensures();
    assert(copies.contains(copies[j]));
    assert(s.to_multiset().count(copies[j]) > 0);
    assert(s.contains(copies[j]));
    let k = s.index_of(copies[j]);
    lemma_copy_rows(a, n, lookup(holdings, n), s, copies.len(), k);
}

proof fn lemma_rows_of(
    a: AskedV,
    t: Seq<IndexV>,
    holdings: Seq<(Seq<char>, HeldV)>,
    names: Seq<Seq<char>>,
    k: nat,
    i: int,
    row: Seq<(Seq<char>, Seq<char>)>,
)
    requires
        0 <= i < k <= names.len(),
        index_rows(a, t, holdings, names[i]).contains(row),
    ensures
        rows_of(a, t, holdings, names, k).contains(row),
    decreases k,
{
    let before = rows_of(a, t, holdings, names, (k - 1) as nat);
    let mine = index_rows(a, t, holdings, names[k - 1]);
    let now = rows_of(a, t, holdings, names, k);
    if i == k - 1 {
        let j = mine.index_of(row);
        assert(now[before.len() + j] == row);
    } else {
        lemma_rows_of(a, t, holdings, names, (k - 1) as nat, i, row);
        let j = before.index_of(row);
        assert(now[j] == row);
    }
}

proof fn lemma_by_first()
    ensures
        ({
            let less = crate::api::cat::by_first();
            &&& forall|a: Seq<(Seq<char>, Seq<char>)>, b: Seq<(Seq<char>, Seq<char>)>|
                #[trigger] less(a, b) ==> !less(b, a)
            &&& forall|
                a: Seq<(Seq<char>, Seq<char>)>,
                b: Seq<(Seq<char>, Seq<char>)>,
                c: Seq<(Seq<char>, Seq<char>)>,
            | #[trigger] less(a, b) && #[trigger] less(b, c) ==> less(a, c)
        }),
{
    let less = crate::api::cat::by_first();
    assert forall|a: Seq<(Seq<char>, Seq<char>)>, b: Seq<(Seq<char>, Seq<char>)>|
        #[trigger] less(a, b) implies !less(b, a) by {
        lemma_before(crate::api::cat::first_cell(a), crate::api::cat::first_cell(b));
    }
    assert forall|
        a: Seq<(Seq<char>, Seq<char>)>,
        b: Seq<(Seq<char>, Seq<char>)>,
        c: Seq<(Seq<char>, Seq<char>)>,
    | #[trigger] less(a, b) && #[trigger] less(b, c) implies less(a, c) by {
        lemma_before_before(
            crate::api::cat::first_cell(a),
            crate::api::cat::first_cell(b),
            crate::api::cat::first_cell(c),
        );
    }
}

/// The table of shards has a row for every copy that this node tells of, of every index that
/// is asked for.
pub proof fn law_the_table_of_shards_has_every_copy(
    target: Option<Seq<char>>,
    f: FactsV,
    i: int,
    j: int,
)
    requires
        0 <= i < f.table.len(),
        is_wanted(target, f.table[i].name),
        0 <= j < shards_of(f.table, f.table[i].name).len(),
        is_mine(
            AskedV {
                nodes: f.nodes,
                me: f.me,
                name: f.name,
                forwarded: f.forwarded,
                unit: f.unit,
            },
            shards_of(f.table, f.table[i].name)[j],
        ),
    ensures
        ({
            let a = AskedV {
                nodes: f.nodes,
                me: f.me,
                name: f.name,
                forwarded: f.forwarded,
                unit: f.unit,
            };
            let n = f.table[i].name;
            shards_table(target, f).rows.contains(
                copy_row(a, n, lookup(f.holdings, n), shards_of(f.table, n)[j]),
            )
        }),
{
    let a = AskedV {
        nodes: f.nodes,
        me: f.me,
        name: f.name,
        forwarded: f.forwarded,
        unit: f.unit,
    };
    let n = f.table[i].name;
    let row = copy_row(a, n, lookup(f.holdings, n), shards_of(f.table, n)[j]);
    law_every_copy_told_of_has_its_row(a, f.table, f.holdings, n, j);
    law_which_indices_are_listed(f.local, f.table, target, n);
    let names = described(f.local, f.table, target, f.table.len());
    let k = names.index_of(n);
    lemma_rows_of(a, f.table, f.holdings, names, names.len(), k, row);
    let rows = rows_of(a, f.table, f.holdings, names, names.len());
    lemma_by_first();
    let less = crate::api::cat::by_first();
    lemma_sorted(rows, less, rows.len());
    let s = sorted(rows, less, rows.len());
    assert(rows.take(rows.len() as int) =~= rows);
    rows.to_multiset_ensures();
    s.to_multiset_ensures();
    assert(s.to_multiset().count(row) > 0);
}

} // verus!
