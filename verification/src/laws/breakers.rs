//! What a breaker may hold, and when it refuses.

use vstd::prelude::*;

use crate::breaker::{
    limit_said, real_wanted, said_of, taken_in, BreakerV, BreakersV, LimitsV, TripV,
};
use crate::json::{member, setting_of, JsonV, NumberV};
use crate::laws::figures::{law_a_number_reads_back, law_a_size_is_said_in_its_unit};
use crate::laws::words::{law_a_text_is_trimmed_of_the_blanks_round_it, printed};
use crate::list::lemma_find;
use crate::number::{fraction, is_digit, least, pointed, units, value};
use crate::size::ends;
use crate::text::{dec, trimmed};

verus! {

proof fn lemma_trimmed(s: Seq<char>)
    requires
        s.len() > 0,
        printed(s[0]),
        printed(s.last()),
    ensures
        trimmed(s) == s,
{
    let none = Seq::<char>::empty();
    law_a_text_is_trimmed_of_the_blanks_round_it(none, s, none);
    assert(none + s + none =~= s);
}

/// A limit is said as a share of the whole, as a size or as bytes; a share of more
/// than the whole is none.
pub proof fn law_a_limit_is_a_share_or_a_size(n: nat, total: u64)
    ensures
        n <= 100 ==> limit_said(dec(n) + "%"@, total) == Some((total * n / 100) as u64),
        n > 100 ==> limit_said(dec(n) + "%"@, total) is None,
        n <= u64::MAX ==> limit_said(dec(n), total) == Some(n as u64),
        n > u64::MAX ==> limit_said(dec(n), total) is None,
        n * 1_073_741_824 <= u64::MAX ==> limit_said(dec(n) + "gb"@, total) == Some(
            (n * 1_073_741_824) as u64,
        ),
        n * 1_048_576 <= u64::MAX ==> limit_said(dec(n) + "mb"@, total) == Some(
            (n * 1_048_576) as u64,
        ),
        n * 1_024 <= u64::MAX ==> limit_said(dec(n) + "kb"@, total) == Some((n * 1_024) as u64),
        n <= u64::MAX ==> limit_said(dec(n) + "b"@, total) == Some(n as u64),
{
    law_a_number_reads_back(n);
    law_a_size_is_said_in_its_unit(n);
    let d = dec(n);
    assert(is_digit(d[0]) && is_digit(d.last()));
    lemma_trimmed(d);
    reveal_strlit("%");
    reveal_strlit("gb");
    reveal_strlit("mb");
    reveal_strlit("kb");
    reveal_strlit("b");
    let p = d + "%"@;
    lemma_trimmed(p);
    assert(p.skip(p.len() - 1) =~= "%"@);
    assert(p.take(p.len() - 1) =~= d);
    lemma_fraction(n);
    let none = Seq::<char>::empty();
    assert(value(none) == 0);
    assert(units(d, none, total as nat) == n * total) by {
        reveal(vstd::arithmetic::power::pow);
        assert(vstd::arithmetic::power::pow(10, 0) == 1);
        assert((value(none) * total) as int == 0) by (nonlinear_arith)
            requires
                value(none) == 0,
        ;
    }
    assert(n * total == total * n) by (nonlinear_arith);
    lemma_no_share(d);
    lemma_no_share(d + "gb"@);
    lemma_no_share(d + "mb"@);
    lemma_no_share(d + "kb"@);
    lemma_no_share(d + "b"@);
    lemma_trimmed(d + "gb"@);
    lemma_trimmed(d + "mb"@);
    lemma_trimmed(d + "kb"@);
    lemma_trimmed(d + "b"@);
}

proof fn lemma_no_share(s: Seq<char>)
    requires
        s.len() > 0,
        s.last() != '%',
    ensures
        !ends(s, "%"@),
{
    reveal_strlit("%");
    assert(s.skip(s.len() - 1)[0] == s.last());
}

proof fn lemma_fraction(n: nat)
    ensures
        fraction(dec(n)) == Some((false, dec(n), Seq::<char>::empty())),
{
    law_a_number_reads_back(n);
    let s = dec(n);
    assert(is_digit(s[0]));
    assert forall|i: int| 0 <= i < s.len() implies s[i] != 'e' && s[i] != 'E' && s[i] != '.' by {
        assert(is_digit(s[i]));
    }
    lemma_find(s, |c: char| c == 'e' || c == 'E', s.len() as int);
    assert(s.take(s.len() as int) =~= s);
    lemma_find(s, |c: char| c == '.', s.len() as int);
    assert(pointed(s) == Some((s, Seq::<char>::empty())));
}

/// A breaker may hold what its setting says, and its own share of the machine where
/// nothing is said or what is said is no limit.
pub proof fn law_a_breaker_may_hold_what_is_said(b: BreakerV, said: Option<JsonV>, machine: u64)
    ensures
        said is None ==> b.most(said, machine) == least(
            machine * b.default_percent / 100,
            u64::MAX as int,
        ),
        said matches Some(JsonV::Text(s)) ==> match limit_said(s, machine) {
            Some(n) => b.most(said, machine) == n,
            None => b.most(said, machine) == b.most(None, machine),
        },
        said matches Some(JsonV::Number(NumberV::Whole(n))) ==> b.most(said, machine) == n,
        said matches Some(JsonV::Bool(_)) ==> b.most(said, machine) == b.most(None, machine),
{
    match said {
        Some(JsonV::Number(NumberV::Whole(n))) => {
            law_a_limit_is_a_share_or_a_size(n as nat, machine);
        },
        _ => {},
    }
}

/// What is held is weighed with the breaker's overhead, and is let only as far as
/// it stays within the limit.
pub proof fn law_a_breaker_holds_no_more_than_its_limit(b: BreakerV, bytes: u64, limit: u64)
    ensures
        bytes * b.overhead / 100 <= u64::MAX ==> b.counted(bytes) == bytes * b.overhead / 100,
        b.has_room(bytes, limit) <==> b.used + b.counted(bytes) <= limit,
        b.has_room(bytes, limit) ==> b.holding(bytes).used == b.used + b.counted(bytes)
            && b.holding(bytes).tripped == b.tripped,
        b.refused().used == b.used,
        b.tripped < u64::MAX ==> b.refused().tripped == b.tripped + 1,
        bytes <= b.used ==> b.relieved(bytes).used == b.used - bytes,
        bytes > b.used ==> b.relieved(bytes).used == 0,
{
}

/// What the parent breaker weighs is what the process has in memory, or what is
/// reserved where that is more; where real memory is not wanted, it is the sum of
/// what the other breakers hold.
pub proof fn law_what_the_parent_weighs(b: BreakersV, committed: u64)
    requires
        b.in_flight.used + b.request.used + b.fielddata.used <= u64::MAX,
    ensures
        ({
            let reserved = b.in_flight.used + b.request.used;
            &&& b.parent_used(false, committed) == reserved + b.fielddata.used
            &&& committed >= reserved ==> b.parent_used(true, committed) == committed
            &&& committed < reserved ==> b.parent_used(true, committed) == reserved
        }),
{
}

/// Real memory is what is weighed unless that is declined.
pub proof fn law_real_memory_is_weighed_unless_declined(v: JsonV)
    ensures
        real_wanted(None),
        real_wanted(Some(JsonV::Bool(true))),
        !real_wanted(Some(JsonV::Bool(false))),
        real_wanted(Some(JsonV::Text("true"@))),
        v matches JsonV::Text(s) && s != "true"@ ==> !real_wanted(Some(v)),
        v is Number ==> !real_wanted(Some(v)),
{
}

/// A transient setting goes before a persistent one.
pub proof fn law_a_transient_limit_goes_first(settings: JsonV, key: Seq<char>, t: JsonV, p: JsonV)
    ensures
        member(settings, "transient"@) == Some(t) && setting_of(t, key) is Some ==> said_of(
            settings,
            key,
        ) == setting_of(t, key),
        (member(settings, "transient"@) is None || (member(settings, "transient"@) == Some(t)
            && setting_of(t, key) is None)) && member(settings, "persistent"@) == Some(p)
            ==> said_of(settings, key) == setting_of(p, key),
        member(settings, "transient"@) is None && member(settings, "persistent"@) is None
            ==> said_of(settings, key) is None,
{
}

/// A request with a body that does not fit the breaker of requests in flight is
/// refused, whichever pool it is in: for as long as those are in flight, and with
/// what it would have held.
pub proof fn law_a_body_that_does_not_fit_is_refused(
    b: BreakersV,
    pool: Seq<char>,
    body: u64,
    l: LimitsV,
    committed: u64,
)
    requires
        body > 0,
        b.in_flight.used + b.in_flight.counted(body) > b.in_flight.most(l.in_flight, l.machine),
    ensures
        ({
            let (r, after) = taken_in(b, pool, body, l, committed);
            &&& r == Err::<Option<u64>, TripV>(
                TripV {
                    breaker: b.in_flight.name,
                    label: "<http_request>"@,
                    wanted: b.in_flight.counted(body),
                    limit: b.in_flight.most(l.in_flight, l.machine),
                    durability: "TRANSIENT"@,
                },
            )
            &&& after.in_flight.used == b.in_flight.used
            &&& after.parent == b.parent
            &&& after.request == b.request
            &&& after.fielddata == b.fielddata
        }),
{
}

/// A request that fits is let in with its body held, unless it searches, writes or
/// gets while the parent weighs more than it may; such a one is refused for good
/// and holds nothing, and a request of any other pool is let in all the same.
pub proof fn law_a_heavy_node_refuses_what_weighs(
    b: BreakersV,
    pool: Seq<char>,
    body: u64,
    l: LimitsV,
    committed: u64,
)
    requires
        b.in_flight.used + b.in_flight.counted(body) <= b.in_flight.most(l.in_flight, l.machine),
    ensures
        ({
            let (r, after) = taken_in(b, pool, body, l, committed);
            let held = if body > 0 {
                BreakersV {
                    in_flight: BreakerV {
                        used: (b.in_flight.used + b.in_flight.counted(body)) as u64,
                        ..b.in_flight
                    },
                    ..b
                }
            } else {
                b
            };
            let used = held.parent_used(real_wanted(l.use_real_memory), committed);
            let limit = b.parent.most(l.parent, l.machine);
            let heavy = (pool == "search"@ || pool == "write"@ || pool == "get"@) && used > limit;
            &&& heavy ==> after.in_flight == b.in_flight && r == Err::<Option<u64>, TripV>(
                TripV {
                    breaker: "parent"@,
                    label: "<transport_request>"@,
                    wanted: used,
                    limit,
                    durability: "PERMANENT"@,
                },
            )
            &&& !heavy && body > 0 ==> after == held && r == Ok::<Option<u64>, TripV>(
                Some(b.in_flight.counted(body)),
            )
            &&& !heavy && body == 0 ==> after == b && r == Ok::<Option<u64>, TripV>(None)
        }),
{
}

/// A refusal is answered with the status that says there are too many requests, the
/// bytes that were wanted and those that are let.
pub proof fn law_a_refusal_says_what_was_wanted(t: TripV, reason: Seq<char>)
    ensures
        member(t.body(reason), "status"@) == Some(JsonV::Number(NumberV::Whole(429))),
        member(t.body(reason), "error"@) matches Some(e) && {
            &&& member(e, "type"@) == Some(JsonV::Text("circuit_breaking_exception"@))
            &&& member(e, "reason"@) == Some(JsonV::Text(reason))
            &&& member(e, "bytes_wanted"@) == Some(JsonV::Number(NumberV::Whole(t.wanted)))
            &&& member(e, "bytes_limit"@) == Some(JsonV::Number(NumberV::Whole(t.limit)))
            &&& member(e, "durability"@) == Some(JsonV::Text(t.durability))
        },
{
    reveal_strlit("status");
    reveal_strlit("error");
    reveal_strlit("type");
    reveal_strlit("reason");
    reveal_strlit("bytes_wanted");
    reveal_strlit("bytes_limit");
    reveal_strlit("durability");
    reveal_strlit("root_cause");
    assert("status"@.len() == 6 && "error"@.len() == 5 && "type"@.len() == 4 && "reason"@.len() == 6
        && "bytes_wanted"@.len() == 12 && "bytes_limit"@.len() == 11 && "durability"@.len() == 10
        && "root_cause"@.len() == 10);
    let c = t.cause(reason);
    let e = c.push(("root_cause"@, JsonV::List(seq![JsonV::Object(c)])));
    assert("durability"@[0] == 'd' && "root_cause"@[0] == 'r');
    lemma_find(e, crate::list::called("type"@), 0);
    lemma_find(e, crate::list::called("reason"@), 1);
    lemma_find(e, crate::list::called("bytes_wanted"@), 2);
    lemma_find(e, crate::list::called("bytes_limit"@), 3);
    lemma_find(e, crate::list::called("durability"@), 4);
    let o = t.body(reason)->Object_0;
    lemma_find(o, crate::list::called("error"@), 0);
    lemma_find(o, crate::list::called("status"@), 1);
}

} // verus!
