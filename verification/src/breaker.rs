//! The memory a node will let its requests take, and what it does when they
//! ask for more.
//!
//! - `in_flight_requests` holds the bytes of the request bodies being read at
//!   this moment.
//! - `request` holds what the aggregations of a search may build.
//! - `parent` is the whole of it: the other breakers' reservations, and the
//!   memory the allocator actually has, where that is asked for.
//! - `fielddata` has nothing behind it, and is reported because a node is
//!   asked for it.
//!
//! Every limit is a cluster setting, read at the moment it is needed, so that
//! raising one takes effect on the next request. A refusal carries the bytes
//! wanted and the bytes allowed.

use vstd::arithmetic::power::{lemma_pow_positive, pow};
use vstd::prelude::*;

use crate::json::{
    field, fields, list, member, no_fields, object, setting, setting_of, text, whole, Json, JsonV,
    Number, NumberV,
};
use crate::number::{
    behind, capped, fraction, least, parse_fraction, parse_u64, units, unsigned, value,
};
use crate::size::{ends, parse_size, size, size_text, sized, strip_suffix};
use crate::text::{dec, decimal, same, trim, trimmed};

verus! {

// ---- limits --------------------------------------------------------------------

/// A share of a machine, in percent: from nothing to all of it.
pub open spec fn share_said(s: Seq<char>, total: u64) -> Option<u64> {
    match fraction(s) {
        Some((below, whole, rest)) => if below && (value(whole) > 0 || value(rest) > 0) {
            None
        } else if value(whole) > 100 || (value(whole) == 100 && value(rest) > 0) {
            None
        } else {
            Some((units(whole, rest, total as nat) / 100) as u64)
        },
        None => None,
    }
}

/// A limit as a setting writes one: a share of the machine, from nothing to
/// all of it, or a size, or a number of bytes.
pub open spec fn limit_said(said: Seq<char>, total: u64) -> Option<u64> {
    let s = trimmed(said);
    if ends(s, "%"@) {
        share_said(trimmed(s.take(s.len() - 1)), total)
    } else {
        match size(s) {
            Some(n) => Some(n),
            None => match unsigned(s) {
                Some(n) => if n <= u64::MAX {
                    Some(n as u64)
                } else {
                    None
                },
                None => None,
            },
        }
    }
}

fn share_of(s: &str, total: u64) -> (r: Option<u64>)
    ensures
        r == share_said(s@, total),
{
    match parse_fraction(s) {
        Some((below, whole, rest)) => {
            assert(whole@.subrange(0, whole@.len() as int) =~= whole@);
            assert(rest@.subrange(0, rest@.len() as int) =~= rest@);
            assert(rest@.skip(0) =~= rest@);
            let n: u64 = capped(&whole, 0, whole.len());
            let more: u64 = capped(&rest, 0, rest.len());
            if below && (n > 0 || more > 0) {
                return None;
            }
            if n > 100 || (n == 100 && more > 0) {
                return None;
            }
            let b: u64 = behind(&rest, 0, total);
            proof {
                let k = n as int;
                let t = total as int;
                assert(k * t <= 100 * t) by (nonlinear_arith)
                    requires
                        0 <= k <= 100,
                        0 <= t,
                ;
                if more == 0 {
                    assert(value(rest@) * total == 0) by (nonlinear_arith)
                        requires
                            value(rest@) == 0,
                    ;
                    lemma_pow_positive(10, rest@.len());
                    assert(0int / pow(10, rest@.len()) == 0) by (nonlinear_arith)
                        requires
                            pow(10, rest@.len()) > 0,
                    ;
                    assert(b == 0);
                } else {
                    assert(k * t <= 99 * t) by (nonlinear_arith)
                        requires
                            0 <= k <= 99,
                            0 <= t,
                    ;
                }
            }
            Some(((n as u128 * total as u128 + b as u128) / 100) as u64)
        },
        None => None,
    }
}

/// A limit as a setting writes one: a share of the machine, or a size.
pub fn limit_of(said: &str, total: u64) -> (r: Option<u64>)
    ensures
        r == limit_said(said@, total),
{
    let s = trim(said);
    proof {
        reveal_strlit("%");
    }
    if let Some(pct) = strip_suffix(s.as_str(), "%") {
        return share_of(trim(pct.as_str()).as_str(), total);
    }
    match parse_size(s.as_str()) {
        Some(n) => Some(n),
        None => parse_u64(s.as_str()),
    }
}

/// A size as a setting writes one, where the share is of the machine's
/// memory: what a limit is written in, read from anywhere that needs one.
pub fn size_of(said: &str, machine: u64) -> (r: Option<u64>)
    ensures
        r == limit_said(said@, machine),
{
    limit_of(said, machine)
}

/// A setting as the text a limit is read from: a string, or a number.
pub open spec fn setting_said(v: Option<JsonV>) -> Option<Seq<char>> {
    match v {
        Some(JsonV::Text(s)) => Some(s),
        Some(JsonV::Number(NumberV::Whole(n))) => Some(dec(n as nat)),
        _ => None,
    }
}

fn said_text(v: Option<&Json>) -> (r: Option<String>)
    ensures
        r.deep_view() == setting_said(v.deep_view()),
{
    match v {
        Some(Json::Text(s)) => Some(s.clone()),
        Some(Json::Number(Number::Whole(n))) => Some(decimal(*n)),
        _ => None,
    }
}

// ---- one breaker ---------------------------------------------------------------

/// One breaker: what it holds now, and how often it has refused.
pub struct Breaker {
    pub name: &'static str,
    /// the cluster setting that says how much it may hold
    pub setting: &'static str,
    /// the share of the machine's memory it holds when nothing says otherwise
    pub default_percent: u64,
    /// what an estimate is multiplied by before it is compared, in hundredths
    pub overhead: u64,
    pub used: u64,
    pub tripped: u64,
}

#[verifier::ext_equal]
pub struct BreakerV {
    pub name: Seq<char>,
    pub setting: Seq<char>,
    pub default_percent: u64,
    pub overhead: u64,
    pub used: u64,
    pub tripped: u64,
}

impl DeepView for Breaker {
    type V = BreakerV;

    open spec fn deep_view(&self) -> BreakerV {
        BreakerV {
            name: self.name@,
            setting: self.setting@,
            default_percent: self.default_percent,
            overhead: self.overhead,
            used: self.used,
            tripped: self.tripped,
        }
    }
}

impl BreakerV {
    /// What the breaker may hold: what its setting says, or its share of the
    /// machine.
    pub open spec fn most(self, said: Option<JsonV>, machine: u64) -> u64 {
        let share = least(machine * self.default_percent / 100, u64::MAX as int) as u64;
        match setting_said(said) {
            Some(s) => match limit_said(s, machine) {
                Some(n) => n,
                None => share,
            },
            None => share,
        }
    }

    /// What an estimate counts as.
    pub open spec fn counted(self, bytes: u64) -> u64 {
        least(bytes * self.overhead / 100, u64::MAX as int) as u64
    }

    /// Whether there is room for an estimate under a limit.
    pub open spec fn has_room(self, bytes: u64, limit: u64) -> bool {
        self.used + self.counted(bytes) <= limit
    }

    /// The breaker having refused once more.
    pub open spec fn refused(self) -> BreakerV {
        BreakerV { tripped: self.tripped.wrapping_add(1), ..self }
    }

    /// The breaker holding an estimate.
    pub open spec fn holding(self, bytes: u64) -> BreakerV {
        BreakerV { used: (self.used + self.counted(bytes)) as u64, ..self }
    }

    /// The breaker with bytes given back to it.
    pub open spec fn relieved(self, bytes: u64) -> BreakerV {
        BreakerV {
            used: if bytes <= self.used {
                (self.used - bytes) as u64
            } else {
                0
            },
            ..self
        }
    }
}

/// The bytes a request holds, until it is done with them.
pub struct Reservation {
    pub held: u64,
}

impl Reservation {
    /// How much this reservation took.
    pub fn bytes(&self) -> (r: u64)
        ensures
            r == self.held,
    {
        self.held
    }
}

impl Breaker {
    pub fn new(
        name: &'static str,
        setting: &'static str,
        default_percent: u64,
        overhead: u64,
    ) -> (r: Breaker)
        ensures
            r.deep_view() == (BreakerV {
                name: name@,
                setting: setting@,
                default_percent,
                overhead,
                used: 0,
                tripped: 0,
            }),
    {
        Breaker { name, setting, default_percent, overhead, used: 0, tripped: 0 }
    }

    /// The bytes reserved through this breaker at this moment.
    pub fn used(&self) -> (r: u64)
        ensures
            r == self.deep_view().used,
    {
        self.used
    }

    /// How many requests this breaker has refused since the node started.
    pub fn tripped(&self) -> (r: u64)
        ensures
            r == self.deep_view().tripped,
    {
        self.tripped
    }

    /// What this breaker may hold: the cluster setting if there is one, a
    /// share of the machine's memory if there is not.
    ///
    /// A setting is either a size (`4gb`) or a share (`60%`).
    pub fn limit(&self, said: Option<&Json>, machine: u64) -> (r: u64)
        ensures
            r == self.deep_view().most(said.deep_view(), machine),
    {
        if let Some(s) = said_text(said) {
            if let Some(n) = limit_of(s.as_str(), machine) {
                return n;
            }
        }
        assert(machine * self.default_percent <= u64::MAX * u64::MAX) by (nonlinear_arith)
            requires
                machine <= u64::MAX,
                self.default_percent <= u64::MAX,
        ;
        assert(machine * self.default_percent >= 0) by (nonlinear_arith);
        let share: u128 = machine as u128 * self.default_percent as u128 / 100;
        if share > u64::MAX as u128 {
            u64::MAX
        } else {
            share as u64
        }
    }

    fn count(&self, bytes: u64) -> (r: u64)
        ensures
            r == self.deep_view().counted(bytes),
    {
        assert(bytes * self.overhead <= u64::MAX * u64::MAX) by (nonlinear_arith)
            requires
                bytes <= u64::MAX,
                self.overhead <= u64::MAX,
        ;
        assert(bytes * self.overhead >= 0) by (nonlinear_arith);
        let want: u128 = bytes as u128 * self.overhead as u128 / 100;
        if want > u64::MAX as u128 {
            u64::MAX
        } else {
            want as u64
        }
    }

    /// Take `bytes` out of this breaker until they are given back.
    ///
    /// `label` is what is being held -- it is named in the refusal, because
    /// "data too large" without saying what data tells an operator nothing.
    /// A refusal leaves nothing held behind it.
    pub fn reserve(&mut self, bytes: u64, label: &str, said: Option<&Json>, machine: u64) -> (r:
        Result<Reservation, Trip>)
        ensures
            ({
                let b = old(self).deep_view();
                let limit = b.most(said.deep_view(), machine);
                if b.has_room(bytes, limit) {
                    &&& r matches Ok(held) && held.held == b.counted(bytes)
                    &&& final(self).deep_view() == b.holding(bytes)
                } else {
                    &&& r matches Err(trip) && trip.deep_view() == (TripV {
                        breaker: b.name,
                        label: label@,
                        wanted: b.counted(bytes),
                        limit,
                        durability: "TRANSIENT"@,
                    })
                    &&& final(self).deep_view() == b.refused()
                }
            }),
    {
        let want: u64 = self.count(bytes);
        let limit: u64 = self.limit(said, machine);
        let now: u128 = self.used as u128 + want as u128;
        if now > limit as u128 {
            self.count_trip();
            return Err(
                Trip {
                    breaker: self.name,
                    label: label.to_owned(),
                    wanted: want,
                    limit,
                    durability: "TRANSIENT",
                },
            );
        }
        self.used = now as u64;
        Ok(Reservation { held: want })
    }

    /// Give back what a reservation held.
    pub fn give_back(&mut self, held: Reservation)
        ensures
            final(self).deep_view() == old(self).deep_view().relieved(held.held),
    {
        self.used = self.used.saturating_sub(held.held);
    }

    /// Count a refusal this breaker made somewhere other than `reserve` --
    /// the aggregation budget, which is enforced while it is collected.
    pub fn count_trip(&mut self)
        ensures
            final(self).deep_view() == old(self).deep_view().refused(),
    {
        self.tripped = self.tripped.wrapping_add(1);
    }
}

/// What is reserved and given back leaves a breaker holding what it held.
pub proof fn law_a_reservation_is_given_back(b: BreakerV, bytes: u64, limit: u64)
    requires
        b.has_room(bytes, limit),
    ensures
        b.holding(bytes).used == b.used + b.counted(bytes),
        b.holding(bytes).used <= limit,
        b.holding(bytes).relieved(b.counted(bytes)) == b,
{
}

// ---- refusals ------------------------------------------------------------------

/// A breaker that would not hold what was asked of it.
#[derive(Debug, PartialEq, Eq)]
pub struct Trip {
    pub breaker: &'static str,
    pub label: String,
    pub wanted: u64,
    pub limit: u64,
    pub durability: &'static str,
}

#[verifier::ext_equal]
pub struct TripV {
    pub breaker: Seq<char>,
    pub label: Seq<char>,
    pub wanted: u64,
    pub limit: u64,
    pub durability: Seq<char>,
}

impl DeepView for Trip {
    type V = TripV;

    open spec fn deep_view(&self) -> TripV {
        TripV {
            breaker: self.breaker@,
            label: self.label@,
            wanted: self.wanted,
            limit: self.limit,
            durability: self.durability@,
        }
    }
}

/// A refused request's answer: its status, its body, and the kind and reason
/// of the error it carries.
pub struct Refusal {
    pub status: u16,
    pub body: Json,
    pub kind: &'static str,
    pub reason: String,
}

impl TripV {
    pub open spec fn worded(self) -> Seq<char> {
        "["@ + self.breaker + "] Data too large, data for ["@ + self.label + "] would be ["@ + dec(
            self.wanted as nat,
        ) + "/"@ + size_text(self.wanted as nat) + "], which is larger than the limit of ["@ + dec(
            self.limit as nat,
        ) + "/"@ + size_text(self.limit as nat) + "]"@
    }

    pub open spec fn cause(self, reason: Seq<char>) -> Seq<(Seq<char>, JsonV)> {
        no_fields().push(("type"@, JsonV::Text("circuit_breaking_exception"@))).push(
            ("reason"@, JsonV::Text(reason)),
        ).push(("bytes_wanted"@, JsonV::Number(NumberV::Whole(self.wanted)))).push(
            ("bytes_limit"@, JsonV::Number(NumberV::Whole(self.limit))),
        ).push(("durability"@, JsonV::Text(self.durability)))
    }

    /// The body of the refusal.
    pub open spec fn body(self, reason: Seq<char>) -> JsonV {
        JsonV::Object(
            no_fields().push(
                (
                    "error"@,
                    JsonV::Object(
                        self.cause(reason).push(
                            (
                                "root_cause"@,
                                JsonV::List(seq![JsonV::Object(self.cause(reason))]),
                            ),
                        ),
                    ),
                ),
            ).push(("status"@, JsonV::Number(NumberV::Whole(429)))),
        )
    }
}

impl Trip {
    /// The wording for a breaker that would not hold what it was asked to.
    pub fn reason(&self) -> (r: String)
        ensures
            r@ == self.deep_view().worded(),
    {
        "[".to_owned().concat(self.breaker).concat("] Data too large, data for [").concat(
            self.label.as_str(),
        ).concat("] would be [").concat(decimal(self.wanted).as_str()).concat("/").concat(
            sized(self.wanted).as_str(),
        ).concat("], which is larger than the limit of [").concat(
            decimal(self.limit).as_str(),
        ).concat("/").concat(sized(self.limit).as_str()).concat("]")
    }

    fn cause(&self, reason: &str) -> (o: Vec<(String, Json)>)
        ensures
            o.deep_view() == self.deep_view().cause(reason@),
    {
        let mut o = fields();
        field(&mut o, "type", text("circuit_breaking_exception"));
        field(&mut o, "reason", text(reason));
        field(&mut o, "bytes_wanted", whole(self.wanted));
        field(&mut o, "bytes_limit", whole(self.limit));
        field(&mut o, "durability", text(self.durability));
        o
    }

    /// What this trip says, where the reason is worded somewhere else -- the
    /// engine's own complaint, when it is the engine that reached the limit.
    pub fn response_saying(&self, reason: &str) -> (r: Refusal)
        ensures
            r.status == 429,
            r.body.deep_view() == self.deep_view().body(reason@),
            r.kind@ == "circuit_breaking_exception"@,
            r.reason@ == reason@,
    {
        let mut causes: Vec<Json> = Vec::new();
        causes.push(object(self.cause(reason)));
        assert(causes.deep_view() =~= seq![JsonV::Object(self.deep_view().cause(reason@))]);
        let mut error = self.cause(reason);
        field(&mut error, "root_cause", list(causes));
        let mut o = fields();
        field(&mut o, "error", object(error));
        field(&mut o, "status", whole(429));
        Refusal {
            status: 429,
            body: object(o),
            kind: "circuit_breaking_exception",
            reason: reason.to_owned(),
        }
    }

    /// The refusal: the type a client retries on, the bytes it asked for and
    /// the bytes it was allowed.
    pub fn response(&self) -> (r: Refusal)
        ensures
            r.status == 429,
            r.body.deep_view() == self.deep_view().body(self.deep_view().worded()),
            r.kind@ == "circuit_breaking_exception"@,
            r.reason@ == self.deep_view().worded(),
    {
        let reason = self.reason();
        self.response_saying(reason.as_str())
    }
}

// ---- all of them ---------------------------------------------------------------

/// The four breakers of a node.
pub struct Breakers {
    pub request: Breaker,
    pub fielddata: Breaker,
    pub in_flight: Breaker,
    pub parent: Breaker,
}

#[verifier::ext_equal]
pub struct BreakersV {
    pub request: BreakerV,
    pub fielddata: BreakerV,
    pub in_flight: BreakerV,
    pub parent: BreakerV,
}

impl DeepView for Breakers {
    type V = BreakersV;

    open spec fn deep_view(&self) -> BreakersV {
        BreakersV {
            request: self.request.deep_view(),
            fielddata: self.fielddata.deep_view(),
            in_flight: self.in_flight.deep_view(),
            parent: self.parent.deep_view(),
        }
    }
}

/// The limits the cluster's settings say, and the machine's memory.
pub struct Limits<'a> {
    pub in_flight: Option<&'a Json>,
    pub parent: Option<&'a Json>,
    pub use_real_memory: Option<&'a Json>,
    pub machine: u64,
}

pub struct LimitsV {
    pub in_flight: Option<JsonV>,
    pub parent: Option<JsonV>,
    pub use_real_memory: Option<JsonV>,
    pub machine: u64,
}

impl DeepView for Limits<'_> {
    type V = LimitsV;

    open spec fn deep_view(&self) -> LimitsV {
        LimitsV {
            in_flight: self.in_flight.deep_view(),
            parent: self.parent.deep_view(),
            use_real_memory: self.use_real_memory.deep_view(),
            machine: self.machine,
        }
    }
}

/// What the cluster's settings say under a name: what was said for as long as the
/// cluster runs, else what was said for good.
pub open spec fn said_of(settings: JsonV, key: Seq<char>) -> Option<JsonV> {
    let now = match member(settings, "transient"@) {
        Some(t) => setting_of(t, key),
        None => None,
    };
    if now is Some {
        now
    } else {
        match member(settings, "persistent"@) {
            Some(p) => setting_of(p, key),
            None => None,
        }
    }
}

fn find_said<'a>(settings: &'a Json, key: &str) -> (r: Option<&'a Json>)
    ensures
        r.deep_view() == said_of(settings.deep_view(), key@),
{
    if let Some(t) = settings.get("transient") {
        if let Some(v) = setting(t, key) {
            return Some(v);
        }
    }
    match settings.get("persistent") {
        Some(p) => setting(p, key),
        None => None,
    }
}

impl<'a> Limits<'a> {
    /// The limits the cluster's settings say, as they are asked for: every limit
    /// is read at the moment it is needed.
    pub fn said(breakers: &Breakers, settings: &'a Json, machine: u64) -> (r: Limits<'a>)
        ensures
            r.deep_view() == (LimitsV {
                in_flight: said_of(settings.deep_view(), breakers.in_flight.setting@),
                parent: said_of(settings.deep_view(), breakers.parent.setting@),
                use_real_memory: said_of(
                    settings.deep_view(),
                    "indices.breaker.total.use_real_memory"@,
                ),
                machine,
            }),
    {
        Limits {
            in_flight: find_said(settings, breakers.in_flight.setting),
            parent: find_said(settings, breakers.parent.setting),
            use_real_memory: find_said(settings, "indices.breaker.total.use_real_memory"),
            machine,
        }
    }
}

/// Whether the parent breaker is held to the memory the process actually has:
/// yes, unless the setting says otherwise.
pub open spec fn real_wanted(v: Option<JsonV>) -> bool {
    match v {
        None => true,
        Some(JsonV::Bool(b)) => b,
        Some(JsonV::Text(s)) => s == "true"@,
        Some(_) => false,
    }
}

/// Whether the parent breaker is held to the memory the process actually has.
pub fn real_memory_wanted(v: Option<&Json>) -> (r: bool)
    ensures
        r == real_wanted(v.deep_view()),
{
    match v {
        None => true,
        Some(Json::Bool(b)) => *b,
        Some(Json::Text(s)) => same(s.as_str(), "true"),
        Some(_) => false,
    }
}

/// A sum, no more than a `u64` holds.
pub open spec fn sum(a: int, b: int) -> int {
    least(a + b, u64::MAX as int)
}

impl BreakersV {
    /// What the parent breaker counts: the memory the allocator holds, or the
    /// reservations where they are more, when the real memory is wanted; the
    /// other breakers' reservations when it is not.
    pub open spec fn parent_used(self, real_wanted: bool, committed: u64) -> u64 {
        if real_wanted {
            let reserved = sum(self.in_flight.used as int, self.request.used as int);
            if committed >= reserved {
                committed
            } else {
                reserved as u64
            }
        } else {
            sum(
                sum(self.in_flight.used as int, self.request.used as int),
                self.fielddata.used as int,
            ) as u64
        }
    }
}

/// What the parent breaker counts: the memory the allocator holds when
/// `use_real_memory` is on, and the other breakers' reservations when it is
/// not.
pub fn parent_used(breakers: &Breakers, real_wanted: bool, committed: u64) -> (r: u64)
    ensures
        r == breakers.deep_view().parent_used(real_wanted, committed),
{
    let reserved: u64 = breakers.in_flight.used.saturating_add(breakers.request.used);
    if real_wanted {
        if committed >= reserved {
            committed
        } else {
            reserved
        }
    } else {
        reserved.saturating_add(breakers.fielddata.used)
    }
}

/// The refusal of a request by a parent breaker that is past its limit.
pub open spec fn parent_trip(label: Seq<char>, used: u64, limit: u64) -> TripV {
    TripV { breaker: "parent"@, label, wanted: used, limit, durability: "PERMANENT"@ }
}

/// Refuse the request if the node is already holding more than the parent
/// breaker allows.
///
/// This is the check that stands between a node and the out-of-memory killer:
/// what it reads is the memory the allocator has committed, which counts
/// every index, every buffer and every request, reserved or not.
pub fn check_parent(breakers: &mut Breakers, label: &str, limits: &Limits, committed: u64) -> (r: Result<
    (),
    Trip,
>)
    ensures
        ({
            let b = old(breakers).deep_view();
            let l = limits.deep_view();
            let limit = b.parent.most(l.parent, l.machine);
            let used = b.parent_used(real_wanted(l.use_real_memory), committed);
            if used > limit {
                &&& r matches Err(trip) && trip.deep_view() == parent_trip(label@, used, limit)
                &&& final(breakers).deep_view() == (BreakersV {
                    parent: b.parent.refused(),
                    ..b
                })
            } else {
                r is Ok && final(breakers).deep_view() == b
            }
        }),
{
    let limit: u64 = breakers.parent.limit(limits.parent, limits.machine);
    let used: u64 = parent_used(breakers, real_memory_wanted(limits.use_real_memory), committed);
    if used > limit {
        breakers.parent.count_trip();
        return Err(
            Trip {
                breaker: "parent",
                label: label.to_owned(),
                wanted: used,
                limit,
                durability: "PERMANENT",
            },
        );
    }
    Ok(())
}

/// Whether a request of a pool can take memory, so that it is worth a reading
/// of the allocator.
pub open spec fn weighs(pool: Seq<char>) -> bool {
    pool == "search"@ || pool == "write"@ || pool == "get"@
}

/// The length a request says its body has, nothing when it does not say.
pub open spec fn length_said(header: Option<Seq<char>>) -> u64 {
    match header {
        Some(s) => match unsigned(s) {
            Some(n) => if n <= u64::MAX {
                n as u64
            } else {
                0
            },
            None => 0,
        },
        None => 0,
    }
}

/// The length a request says its body has, nothing when it does not say.
pub fn content_length(header: &Option<String>) -> (r: u64)
    ensures
        r == length_said(header.deep_view()),
{
    match header {
        Some(s) => match parse_u64(s.as_str()) {
            Some(n) => n,
            None => 0,
        },
        None => 0,
    }
}

/// What becomes of a request: what it holds, or why it is refused, and the
/// breakers afterwards.
pub open spec fn taken_in(
    b: BreakersV,
    pool: Seq<char>,
    body: u64,
    l: LimitsV,
    committed: u64,
) -> (Result<Option<u64>, TripV>, BreakersV) {
    let flight = b.in_flight;
    let room = flight.most(l.in_flight, l.machine);
    if body > 0 && !flight.has_room(body, room) {
        (
            Err(
                TripV {
                    breaker: flight.name,
                    label: "<http_request>"@,
                    wanted: flight.counted(body),
                    limit: room,
                    durability: "TRANSIENT"@,
                },
            ),
            BreakersV { in_flight: flight.refused(), ..b },
        )
    } else {
        let held = if body > 0 {
            Some(flight.counted(body))
        } else {
            None
        };
        let after = if body > 0 {
            BreakersV { in_flight: flight.holding(body), ..b }
        } else {
            b
        };
        let limit = after.parent.most(l.parent, l.machine);
        let used = after.parent_used(real_wanted(l.use_real_memory), committed);
        if weighs(pool) && used > limit {
            (
                Err(parent_trip("<transport_request>"@, used, limit)),
                BreakersV { parent: b.parent.refused(), ..b },
            )
        } else {
            (Ok(held), after)
        }
    }
}

impl Breakers {
    pub fn new() -> (r: Breakers)
        ensures
            r.deep_view().request.name == "request"@,
            r.deep_view().request.default_percent == 60,
            r.deep_view().request.overhead == 100,
            r.deep_view().request.setting == "indices.breaker.request.limit"@,
            r.deep_view().fielddata.name == "fielddata"@,
            r.deep_view().fielddata.default_percent == 40,
            r.deep_view().fielddata.overhead == 103,
            r.deep_view().fielddata.setting == "indices.breaker.fielddata.limit"@,
            r.deep_view().in_flight.name == "in_flight_requests"@,
            r.deep_view().in_flight.default_percent == 100,
            r.deep_view().in_flight.overhead == 200,
            r.deep_view().in_flight.setting == "network.breaker.inflight_requests.limit"@,
            r.deep_view().parent.name == "parent"@,
            r.deep_view().parent.default_percent == 95,
            r.deep_view().parent.overhead == 100,
            r.deep_view().parent.setting == "indices.breaker.total.limit"@,
            r.deep_view().request.used == 0 && r.deep_view().request.tripped == 0,
            r.deep_view().fielddata.used == 0 && r.deep_view().fielddata.tripped == 0,
            r.deep_view().in_flight.used == 0 && r.deep_view().in_flight.tripped == 0,
            r.deep_view().parent.used == 0 && r.deep_view().parent.tripped == 0,
    {
        Breakers {
            request: Breaker::new("request", "indices.breaker.request.limit", 60, 100),
            fielddata: Breaker::new("fielddata", "indices.breaker.fielddata.limit", 40, 103),
            in_flight: Breaker::new(
                "in_flight_requests",
                "network.breaker.inflight_requests.limit",
                100,
                200,
            ),
            parent: Breaker::new("parent", "indices.breaker.total.limit", 95, 100),
        }
    }

    /// Every breaker, in the order `_nodes/stats` lists them.
    pub fn all(&self) -> (r: Vec<&Breaker>)
        ensures
            r.deep_view() == seq![
                self.deep_view().request,
                self.deep_view().fielddata,
                self.deep_view().in_flight,
                self.deep_view().parent,
            ],
    {
        let mut r: Vec<&Breaker> = Vec::new();
        r.push(&self.request);
        r.push(&self.fielddata);
        r.push(&self.in_flight);
        r.push(&self.parent);
        assert(r.deep_view() =~= seq![
            self.deep_view().request,
            self.deep_view().fielddata,
            self.deep_view().in_flight,
            self.deep_view().parent,
        ]);
        r
    }

    /// Hold a request to the node's memory.
    ///
    /// Two things are asked of a request that can take memory: that the body
    /// it is about to be read into fits in what the node has left for bodies,
    /// and that the node is not already past its parent limit. A request that
    /// is refused holds nothing.
    pub fn take_in(&mut self, pool: &str, body: u64, limits: &Limits, committed: u64) -> (r: Result<
        Option<Reservation>,
        Trip,
    >)
        ensures
            ({
                let (want, after) = taken_in(
                    old(self).deep_view(),
                    pool@,
                    body,
                    limits.deep_view(),
                    committed,
                );
                &&& final(self).deep_view() == after
                &&& match want {
                    Ok(None) => r matches Ok(None),
                    Ok(Some(n)) => r matches Ok(Some(held)) && held.held == n,
                    Err(t) => r matches Err(trip) && trip.deep_view() == t,
                }
            }),
    {
        let held: Option<Reservation> = if body > 0 {
            match self.in_flight.reserve(body, "<http_request>", limits.in_flight, limits.machine) {
                Ok(h) => Some(h),
                Err(trip) => {
                    return Err(trip);
                },
            }
        } else {
            None
        };
        if same(pool, "search") || same(pool, "write") || same(pool, "get") {
            if let Err(trip) = check_parent(self, "<transport_request>", limits, committed) {
                if let Some(h) = held {
                    self.in_flight.give_back(h);
                }
                return Err(trip);
            }
        }
        Ok(held)
    }
}

/// A request that is refused leaves every breaker holding what it held before.
pub proof fn law_a_refused_request_holds_nothing(
    b: BreakersV,
    pool: Seq<char>,
    body: u64,
    l: LimitsV,
    committed: u64,
)
    requires
        taken_in(b, pool, body, l, committed).0 is Err,
    ensures
        ({
            let after = taken_in(b, pool, body, l, committed).1;
            &&& after.in_flight.used == b.in_flight.used
            &&& after.request.used == b.request.used
            &&& after.fielddata.used == b.fielddata.used
            &&& after.parent.used == b.parent.used
        }),
{
}

// ---- readings ------------------------------------------------------------------

/// How old a reading of the allocator may be, in milliseconds.
pub const FRESH_MILLIS: u64 = 100;

/// A reading of the memory the allocator holds, and when it was taken; never,
/// where that is nothing.
pub struct Reading {
    pub at: u64,
    pub value: u64,
}

impl Reading {
    /// The reading, while it is fresh: a limit measured in gigabytes is
    /// answered as well by one a tenth of a second old.
    pub fn fresh(&self, now: u64) -> (r: Option<u64>)
        ensures
            r == (if self.at != 0 && now - self.at < FRESH_MILLIS {
                Some(self.value)
            } else {
                None
            }),
    {
        if self.at != 0 && now.saturating_sub(self.at) < FRESH_MILLIS {
            Some(self.value)
        } else {
            None
        }
    }
}

} // verus!
