//! How settings are shown, how colours are read, and where pools are found.

use vstd::prelude::*;

use crate::api::pools::{is_named, pool_at, PoolV};
use crate::api::settings::{
    block_status, flattened, holding_json, humanly, or_text, viewed, without, worst_status, AskedV,
    HoldingV,
};
use crate::console::brand::{hex_at, hex_end, hex_text, hex_two, hex_value, rgb_text};
use crate::json::{member, no_fields, JsonV};
use crate::list::{called, find, lemma_find, lemma_found, lemma_with, lookup, named_once, with};
use crate::text::dec;

verus! {

/// The settings of an index are shown under `settings`, as they are asked for, and what holds
/// where nothing is set beside them only where that is asked for.
pub proof fn law_what_is_shown_of_an_index(h: HoldingV, q: AskedV)
    ensures
        q.human ==> member(holding_json(h, q), "settings"@) == Some(
            humanly(viewed(h.settings, q.name, q.flat), h.created_millis, h.created_text),
        ),
        !q.human ==> member(holding_json(h, q), "settings"@) == Some(
            viewed(h.settings, q.name, q.flat),
        ),
        !q.defaults ==> member(holding_json(h, q), "defaults"@) is None,
        q.defaults ==> member(holding_json(h, q), "defaults"@) is Some,
{
    reveal_strlit("settings");
    reveal_strlit("defaults");
    assert("settings"@[0] == 's' && "defaults"@[0] == 'd');
    let o = holding_json(h, q)->Object_0;
    lemma_find(o, called::<JsonV>("settings"@), 0);
    lemma_find(o, called::<JsonV>("defaults"@), 1);
}

/// What an index keeps for its own routing is shown to nobody, and every other setting is
/// shown as it is.
pub proof fn law_what_routes_documents_is_not_shown(raw: JsonV, other: Seq<char>)
    requires
        named_once(flattened(raw, ""@, no_fields())),
    ensures
        viewed(raw, None, true) matches JsonV::Object(o) && lookup(
            o,
            "index.velo_routing_shards"@,
        ) is None && (other != "index.velo_routing_shards"@ ==> lookup(o, other) == lookup(
            flattened(raw, ""@, no_fields()),
            other,
        )),
{
    let o = flattened(raw, ""@, no_fields());
    let key = "index.velo_routing_shards"@;
    lemma_without(o, key, other);
}

proof fn lemma_without(o: Seq<(Seq<char>, JsonV)>, key: Seq<char>, other: Seq<char>)
    requires
        named_once(o),
    ensures
        lookup(without(o, key), key) is None,
        other != key ==> lookup(without(o, key), other) == lookup(o, other),
{
    let p = crate::api::settings::named(key);
    lemma_found(o, p);
    let i = find(o, p);
    let rest = without(o, key);
    assert forall|j: int| 0 <= j < rest.len() implies (#[trigger] rest[j]).0 != key by {
        if i < o.len() {
            if j < i {
                assert(rest[j] == o[j]);
                assert(!p(o[j]));
            } else {
                assert(rest[j] == o[j + 1]);
                assert(o[i].0 == key);
                assert(o[i].0 != o[j + 1].0);
            }
        } else {
            assert(!p(o[j]));
        }
    }
    lemma_find(rest, called::<JsonV>(key), rest.len() as int);
    if other != key {
        let q = called::<JsonV>(other);
        lemma_found(o, q);
        let k = find(o, q);
        if k < o.len() {
            if i < o.len() && k > i {
                assert forall|j: int| 0 <= j < k - 1 implies !q(#[trigger] rest[j]) by {
                    if j < i {
                        assert(!q(o[j]));
                    } else {
                        assert(!q(o[j + 1]));
                    }
                }
                lemma_find(rest, q, k - 1);
            } else {
                lemma_find(rest, q, k);
            }
        } else {
            assert forall|j: int| 0 <= j < rest.len() implies !q(#[trigger] rest[j]) by {
                if i < o.len() && j >= i {
                    assert(!q(o[j + 1]));
                } else {
                    assert(!q(o[j]));
                }
            }
            lemma_find(rest, q, rest.len() as int);
        }
    }
}

/// For people, an index also says when it was created, in words; and in milliseconds, where
/// it does not say so itself.
pub proof fn law_what_is_shown_for_people(
    all: Seq<(Seq<char>, JsonV)>,
    o: Seq<(Seq<char>, JsonV)>,
    millis: u64,
    words: Seq<char>,
)
    requires
        lookup(all, "index"@) == Some(JsonV::Object(o)),
    ensures
        ({
            let v = humanly(JsonV::Object(all), millis, words);
            member(v, "index"@) matches Some(i) && {
                &&& member(i, "creation_date_string"@) == Some(JsonV::Text(words))
                &&& lookup(o, "creation_date"@) is None ==> member(i, "creation_date"@) == Some(
                    JsonV::Text(dec(millis as nat)),
                )
                &&& lookup(o, "creation_date"@) is Some ==> member(i, "creation_date"@) == lookup(
                    o,
                    "creation_date"@,
                )
                &&& member(i, "version"@) matches Some(x) && member(x, "created_string"@) == Some(
                    JsonV::Text("3.9.0"@),
                )
            }
        }),
{
    reveal_strlit("creation_date_string");
    reveal_strlit("creation_date");
    reveal_strlit("version");
    reveal_strlit("created");
    reveal_strlit("created_string");
    assert("creation_date_string"@.len() == 20 && "creation_date"@.len() == 13 && "version"@.len()
        == 7 && "created"@.len() == 7 && "created_string"@.len() == 14);
    let k1 = "creation_date_string"@;
    let k2 = "creation_date"@;
    let k3 = "version"@;
    let a = with(o, k1, JsonV::Text(words));
    lemma_with(o, k1, JsonV::Text(words), k2);
    lemma_with(o, k1, JsonV::Text(words), k1);
    let b = or_text(a, k2, dec(millis as nat));
    lemma_with(a, k2, JsonV::Text(dec(millis as nat)), k1);
    lemma_with(a, k2, JsonV::Text(dec(millis as nat)), k2);
    assert(lookup(b, k1) == Some(JsonV::Text(words)));
    let version = JsonV::Object(
        crate::json::no_fields().push(
            ("created"@, JsonV::Text(crate::api::settings::made_under(b))),
        ).push(("created_string"@, JsonV::Text(crate::OPENSEARCH_VERSION@))),
    );
    lemma_with(b, k3, version, k1);
    lemma_with(b, k3, version, k2);
    lemma_with(all, "index"@, JsonV::Object(with(b, k3, version)), "index"@);
    lemma_find(version->Object_0, called::<JsonV>("created_string"@), 1);
}

/// A blocked index is answered with the worst of its blocks, and with a refusal where that
/// is no status.
pub proof fn law_what_a_blocked_index_is_answered(blocks: Seq<(Seq<char>, u16)>, i: int)
    ensures
        0 <= i < blocks.len() ==> worst_status(blocks) >= blocks[i].1,
        blocks.len() > 0 ==> exists|j: int|
            0 <= j < blocks.len() && (#[trigger] blocks[j]).1 == worst_status(blocks),
        forall|s: u16| 100 <= s <= 999 ==> #[trigger] block_status(s) == s,
        forall|s: u16| !(100 <= s <= 999) ==> #[trigger] block_status(s) == 403,
    decreases blocks.len(),
{
    if blocks.len() > 0 {
        let d = blocks.drop_last();
        law_what_a_blocked_index_is_answered(d, i);
        assert(blocks[blocks.len() - 1] == blocks.last());
        if d.len() > 0 {
            let j = choose|j: int| 0 <= j < d.len() && (#[trigger] d[j]).1 == worst_status(d);
            assert(blocks[j] == d[j]);
        } else {
            assert(worst_status(d) == 0);
        }
        if 0 <= i < d.len() {
            assert(blocks[i] == d[i]);
        }
    }
}

/// A pool is found by its name, and a request for one that is not there is in the generic
/// one.
pub proof fn law_where_a_pool_is_found(pools: Seq<PoolV>, name: Seq<char>, i: int)
    ensures
        0 <= i < pools.len() && pools[i].name == name && (forall|j: int|
            0 <= j < i ==> (#[trigger] pools[j]).name != name) ==> pool_at(pools, name) == i,
        (forall|j: int| 0 <= j < pools.len() ==> (#[trigger] pools[j]).name != name) ==> pool_at(
            pools,
            name,
        ) == 5,
        crate::api::pools::every_pool()[5].name == "generic"@,
{
    let p = is_named(name);
    lemma_found(pools, p);
    if 0 <= i < pools.len() && pools[i].name == name && (forall|j: int|
        0 <= j < i ==> (#[trigger] pools[j]).name != name) {
        lemma_find(pools, p, i);
    }
}

proof fn lemma_hex_end(s: Seq<char>, i: int, e: int)
    requires
        0 <= i <= e <= s.len(),
        forall|k: int| i <= k < e ==> hex_value(#[trigger] s[k]) is Some,
        e < s.len() ==> hex_value(s[e]) is None,
    ensures
        hex_end(s, i) == e,
    decreases e - i,
{
    if i < e {
        assert(hex_value(s[i]) is Some);
        lemma_hex_end(s, i + 1, e);
    }
}

/// A colour is read from six digits, two to a channel, or from three, each twice; from any
/// other number of digits none is.
pub proof fn law_a_colour_is_read_from_its_digits(s: Seq<char>, i: int, e: int)
    requires
        0 <= i <= e <= s.len(),
        forall|k: int| i <= k < e ==> hex_value(#[trigger] s[k]) is Some,
        e < s.len() ==> hex_value(s[e]) is None,
    ensures
        e - i == 6 ==> (hex_at(s, i) matches Some((c, end)) && end == e && c.0 == hex_value(
            s[i],
        )->0 * 16 + hex_value(s[i + 1])->0 && c.1 == hex_value(s[i + 2])->0 * 16 + hex_value(
            s[i + 3],
        )->0 && c.2 == hex_value(s[i + 4])->0 * 16 + hex_value(s[i + 5])->0),
        e - i == 3 ==> (hex_at(s, i) matches Some((c, end)) && end == e && c.0 == hex_value(
            s[i],
        )->0 * 17 && c.1 == hex_value(s[i + 1])->0 * 17 && c.2 == hex_value(s[i + 2])->0 * 17),
        e - i != 3 && e - i != 6 ==> hex_at(s, i) is None,
{
    lemma_hex_end(s, i, e);
}

/// A colour is written as a hash and two digits to a channel, or as its channels in decimal.
pub proof fn law_how_a_colour_is_written(r: int, g: int, b: int)
    requires
        0 <= r <= 255,
        0 <= g <= 255,
        0 <= b <= 255,
    ensures
        hex_text((r, g, b)).len() == 7,
        hex_text((r, g, b))[0] == '#',
        hex_value(hex_text((r, g, b))[1])->0 * 16 + hex_value(hex_text((r, g, b))[2])->0 == r,
        hex_value(hex_text((r, g, b))[3])->0 * 16 + hex_value(hex_text((r, g, b))[4])->0 == g,
        hex_value(hex_text((r, g, b))[5])->0 * 16 + hex_value(hex_text((r, g, b))[6])->0 == b,
        rgb_text((r, g, b)) == "rgb("@ + dec(r as nat) + ", "@ + dec(g as nat) + ", "@ + dec(
            b as nat,
        ),
{
    reveal_strlit("#");
    lemma_two(r);
    lemma_two(g);
    lemma_two(b);
    let t = hex_text((r, g, b));
    assert(t[1] == hex_two(r)[0] && t[2] == hex_two(r)[1]);
    assert(t[3] == hex_two(g)[0] && t[4] == hex_two(g)[1]);
    assert(t[5] == hex_two(b)[0] && t[6] == hex_two(b)[1]);
}

proof fn lemma_two(n: int)
    requires
        0 <= n <= 255,
    ensures
        hex_two(n).len() == 2,
        hex_value(hex_two(n)[0]) == Some(n / 16),
        hex_value(hex_two(n)[1]) == Some(n % 16),
{
    lemma_hex_digit(n / 16);
    lemma_hex_digit(n % 16);
}

proof fn lemma_hex_digit(k: int)
    requires
        0 <= k < 16,
    ensures
        hex_value(crate::json::hex_digit(k)) == Some(k),
{
    if k < 10 {
        assert((48 + k) as char as u32 == 48 + k);
    } else {
        assert((87 + k) as char as u32 == 87 + k);
    }
}

} // verus!
