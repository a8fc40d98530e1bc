//! Documents that name each member once still do when settings are read out of
//! them and changed in them.

use vstd::prelude::*;

use super::settings::{
    changed, cleared, filling, flattened, flattened_members, forgotten, is_unset, laid_members,
    laid_over, named, nested, nested_all, short_name, under, without, without_in, without_path,
};
use crate::json::{law_a_member_put_in_is_named_once, no_fields, well_named, JsonV};
use crate::list::{called, find, keep, lemma_found, lemma_keep, lookup, with};
use crate::text::{cut, joined};

verus! {

proof fn lemma_update(o: Seq<(Seq<char>, JsonV)>, i: int, value: JsonV)
    requires
        well_named(JsonV::Object(o)),
        well_named(value),
        0 <= i < o.len(),
    ensures
        well_named(JsonV::Object(o.update(i, (o[i].0, value)))),
{
    let t = o.update(i, (o[i].0, value));
    assert forall|a: int, b: int| 0 <= a < b < t.len() implies #[trigger] t[a].0 != #[trigger] t[
        b
    ].0 by {
        assert(o[a].0 != o[b].0);
    }
    assert forall|a: int| 0 <= a < t.len() implies well_named((#[trigger] t[a]).1) by {
        assert(well_named(o[a].1));
    }
}

proof fn lemma_without(o: Seq<(Seq<char>, JsonV)>, key: Seq<char>)
    requires
        well_named(JsonV::Object(o)),
    ensures
        well_named(JsonV::Object(without(o, key))),
{
    lemma_found(o, named(key));
    let at = find(o, named(key));
    let t = without(o, key);
    if at < o.len() {
        assert forall|a: int, b: int|
            0 <= a < b < t.len() implies #[trigger] t[a].0 != #[trigger] t[b].0 by {
            let x = if a < at {
                a
            } else {
                a + 1
            };
            let y = if b < at {
                b
            } else {
                b + 1
            };
            assert(o[x].0 != o[y].0);
        }
        assert forall|a: int| 0 <= a < t.len() implies well_named((#[trigger] t[a]).1) by {
            let x = if a < at {
                a
            } else {
                a + 1
            };
            assert(well_named(o[x].1));
        }
    }
}

proof fn lemma_without_path(v: JsonV, path: Seq<Seq<char>>)
    requires
        well_named(v),
    ensures
        well_named(without_path(v, path)),
    decreases path.len(),
{
    if let JsonV::Object(o) = v {
        let p = without(o, joined(path, "."@));
        lemma_without(o, joined(path, "."@));
        if path.len() > 1 {
            lemma_found(p, named(path[0]));
            let i = find(p, named(path[0]));
            if i < p.len() {
                assert(well_named(p[i].1));
                lemma_without_path(p[i].1, path.skip(1));
                lemma_update(p, i, without_path(p[i].1, path.skip(1)));
            }
        }
    }
}

proof fn lemma_without_in(v: JsonV, key: Seq<char>, path: Seq<Seq<char>>)
    requires
        well_named(v),
    ensures
        well_named(without_in(v, key, path)),
{
    if let JsonV::Object(o) = v {
        lemma_found(o, named(key));
        let i = find(o, named(key));
        if i < o.len() {
            assert(well_named(o[i].1));
            lemma_without_path(o[i].1, path);
            lemma_update(o, i, without_path(o[i].1, path));
        }
    }
}

/// A document out of which a setting is taken names each member once, where it
/// did before.
pub proof fn law_a_forgotten_setting_leaves_a_document_well_named(v: JsonV, key: Seq<char>)
    requires
        well_named(v),
    ensures
        well_named(forgotten(v, key)),
{
    let path = cut(key, '.');
    let prefixed = seq!["index"@] + path;
    lemma_without_path(v, path);
    lemma_without_path(without_path(v, path), prefixed);
    let a = without_path(without_path(v, path), prefixed);
    lemma_without_in(a, "index"@, path);
    lemma_without_in(without_in(a, "index"@, path), "index"@, prefixed);
}

proof fn lemma_lookup(o: Seq<(Seq<char>, JsonV)>, key: Seq<char>)
    requires
        well_named(JsonV::Object(o)),
    ensures
        lookup(o, key) matches Some(v) ==> well_named(v),
{
    lemma_found(o, called::<JsonV>(key));
    let i = find(o, called::<JsonV>(key));
    if i < o.len() {
        assert(well_named(o[i].1));
    }
}

proof fn lemma_laid_over(v: JsonV, patch: JsonV)
    requires
        well_named(v),
        well_named(patch),
    ensures
        well_named(laid_over(v, patch)),
    decreases patch, 0nat,
{
    if let JsonV::Object(p) = patch {
        let o = match v {
            JsonV::Object(o) => o,
            _ => no_fields(),
        };
        assert(well_named(JsonV::Object(no_fields())));
        assert(well_named(JsonV::Object(o)));
        lemma_laid_members(o, p, p.len());
    }
}

proof fn lemma_laid_members(
    o: Seq<(Seq<char>, JsonV)>,
    p: Seq<(Seq<char>, JsonV)>,
    n: nat,
)
    requires
        well_named(JsonV::Object(o)),
        well_named(JsonV::Object(p)),
    ensures
        well_named(JsonV::Object(laid_members(o, p, n))),
    decreases p, n,
{
    if 0 < n <= p.len() {
        lemma_laid_members(o, p, (n - 1) as nat);
        let before = laid_members(o, p, (n - 1) as nat);
        let (k, x) = p[n - 1];
        assert(well_named(p[n - 1].1));
        lemma_lookup(before, k);
        let old = match lookup(before, k) {
            Some(old) => old,
            None => JsonV::Null,
        };
        assert(well_named(old));
        lemma_laid_over(old, x);
        law_a_member_put_in_is_named_once(before, k, laid_over(old, x));
    }
}

proof fn lemma_kept(o: Seq<(Seq<char>, JsonV)>, p: spec_fn((Seq<char>, JsonV)) -> bool)
    requires
        well_named(JsonV::Object(o)),
    ensures
        well_named(JsonV::Object(keep(o, p))),
    decreases o.len(),
{
    if o.len() > 0 {
        let d = o.drop_last();
        assert(well_named(JsonV::Object(d))) by {
            assert forall|a: int, b: int|
                0 <= a < b < d.len() implies #[trigger] d[a].0 != #[trigger] d[b].0 by {
                assert(o[a].0 != o[b].0);
            }
            assert forall|a: int| 0 <= a < d.len() implies well_named((#[trigger] d[a]).1) by {
                assert(well_named(o[a].1));
            }
        }
        lemma_kept(d, p);
        lemma_keep(d, p);
        let t = keep(o, p);
        assert forall|a: int, b: int|
            0 <= a < b < t.len() implies #[trigger] t[a].0 != #[trigger] t[b].0 by {
            if b < keep(d, p).len() {
                assert(keep(d, p)[a].0 != keep(d, p)[b].0);
            } else {
                assert(d.contains(keep(d, p)[a]));
                let k = d.index_of(keep(d, p)[a]);
                assert(o[k].0 != o[o.len() - 1].0);
            }
        }
        assert forall|a: int| 0 <= a < t.len() implies well_named((#[trigger] t[a]).1) by {
            if a < keep(d, p).len() {
                assert(well_named(keep(d, p)[a].1));
            } else {
                assert(well_named(o[o.len() - 1].1));
            }
        }
    }
}

proof fn lemma_cleared(v: JsonV, leaves: Seq<(Seq<char>, JsonV)>, nulls_only: bool, n: nat)
    requires
        well_named(v),
    ensures
        well_named(cleared(v, leaves, nulls_only, n)),
        v is Object ==> cleared(v, leaves, nulls_only, n) is Object,
    decreases n,
{
    if n > 0 {
        lemma_cleared(v, leaves, nulls_only, (n - 1) as nat);
        law_a_forgotten_setting_leaves_a_document_well_named(
            cleared(v, leaves, nulls_only, (n - 1) as nat),
            short_name(leaves[n - 1].0),
        );
    }
}

/// Settings that name each member once still do when a change that does is made
/// to them.
pub proof fn law_a_change_leaves_settings_well_named(
    settings: JsonV,
    patch: JsonV,
    preserve: bool,
)
    requires
        well_named(settings),
        well_named(patch),
    ensures
        well_named(changed(settings, patch, preserve)),
{
    let none = JsonV::Object(no_fields());
    assert(well_named(none));
    let start = match settings {
        JsonV::Object(o) => settings,
        _ => none,
    };
    let p = if preserve {
        filling(start, patch)
    } else {
        patch
    };
    if let JsonV::Object(o) = patch {
        lemma_kept(o, is_unset(start));
    }
    assert(well_named(p));
    let leaves = flattened(p, ""@, no_fields());
    lemma_cleared(start, leaves, false, leaves.len());
    let o = cleared(start, leaves, false, leaves.len())->Object_0;
    lemma_lookup(o, "index"@);
    let slot = match lookup(o, "index"@) {
        Some(i) => i,
        None => none,
    };
    lemma_laid_over(slot, p);
    law_a_member_put_in_is_named_once(o, "index"@, laid_over(slot, p));
    lemma_cleared(
        JsonV::Object(with(o, "index"@, laid_over(slot, p))),
        leaves,
        true,
        leaves.len(),
    );
}

proof fn lemma_flattened(v: JsonV, prefix: Seq<char>, out: Seq<(Seq<char>, JsonV)>)
    requires
        well_named(v),
        well_named(JsonV::Object(out)),
    ensures
        well_named(JsonV::Object(flattened(v, prefix, out))),
    decreases v, 0nat,
{
    match v {
        JsonV::Object(o) => {
            lemma_flattened_members(o, prefix, out, o.len());
        },
        _ => {
            law_a_member_put_in_is_named_once(out, prefix, v);
        },
    }
}

proof fn lemma_flattened_members(
    o: Seq<(Seq<char>, JsonV)>,
    prefix: Seq<char>,
    out: Seq<(Seq<char>, JsonV)>,
    n: nat,
)
    requires
        well_named(JsonV::Object(o)),
        well_named(JsonV::Object(out)),
    ensures
        well_named(JsonV::Object(flattened_members(o, prefix, out, n))),
    decreases o, n,
{
    if 0 < n <= o.len() {
        lemma_flattened_members(o, prefix, out, (n - 1) as nat);
        assert(well_named(o[n - 1].1));
        lemma_flattened(
            o[n - 1].1,
            under(prefix, o[n - 1].0),
            flattened_members(o, prefix, out, (n - 1) as nat),
        );
    }
}

proof fn lemma_nested(v: JsonV, path: Seq<Seq<char>>, leaf: JsonV)
    requires
        well_named(v),
        well_named(leaf),
    ensures
        well_named(nested(v, path, leaf)),
    decreases path.len(),
{
    if let JsonV::Object(o) = v {
        if path.len() == 1 {
            law_a_member_put_in_is_named_once(o, path[0], leaf);
        } else if path.len() > 1 {
            lemma_lookup(o, path[0]);
            let none = JsonV::Object(no_fields());
            assert(well_named(none));
            let child = match lookup(o, path[0]) {
                Some(c) => c,
                None => none,
            };
            lemma_nested(child, path.skip(1), leaf);
            law_a_member_put_in_is_named_once(o, path[0], nested(child, path.skip(1), leaf));
        }
    }
}

proof fn lemma_nested_all(flat: Seq<(Seq<char>, JsonV)>, n: nat)
    requires
        well_named(JsonV::Object(flat)),
        n <= flat.len(),
    ensures
        well_named(nested_all(flat, n)),
    decreases n,
{
    if n > 0 {
        lemma_nested_all(flat, (n - 1) as nat);
        assert(well_named(flat[n - 1].1));
        lemma_nested(nested_all(flat, (n - 1) as nat), cut(flat[n - 1].0, '.'), flat[n - 1].1);
    } else {
        assert(well_named(JsonV::Object(no_fields())));
    }
}

/// Settings laid out flat, and nested again, name each member once, where the
/// document they come from does.
pub proof fn law_settings_are_laid_out_well_named(v: JsonV)
    requires
        well_named(v),
    ensures
        well_named(JsonV::Object(flattened(v, ""@, no_fields()))),
        well_named(
            nested_all(
                flattened(v, ""@, no_fields()),
                flattened(v, ""@, no_fields()).len(),
            ),
        ),
{
    assert(well_named(JsonV::Object(no_fields())));
    lemma_flattened(v, ""@, no_fields());
    let flat = flattened(v, ""@, no_fields());
    lemma_nested_all(flat, flat.len());
}

} // verus!
