//! The thread pools a request passes through, as `_nodes/stats` and
//! `_cat/thread_pool` report them -- and, for the pools that are bounded, the
//! queue it waits in and the refusal it gets when that queue is full.
//!
//! A request of a bounded kind takes a place before it reaches its handler
//! and gives it back when the answer is written -- when the client goes away
//! mid-request as much as when it does not. How many at once is twice the size
//! OpenSearch gives the pool, since a request here gives its worker up
//! whenever it waits; `VELOSEARCH_THREAD_POOL_<pool>_SIZE` and `_QUEUE_SIZE`
//! say otherwise -- `0` for a queue means refuse rather than wait, and `-1`
//! means a queue with no end.

use vstd::prelude::*;

use crate::breaker::Refusal;
use crate::json::{field, fields, list, no_fields, object, text, whole, Json, JsonV, NumberV};
use crate::list::{find, find_in, keep, lemma_take, push_to};
use crate::number::{parse_i64, signed};
use crate::text::{begins, chars_of, cut, dec, decimal, same, split, starts_with, trim, trimmed};
use crate::cluster::state::has_text;

verus! {

/// One pool: how it is sized, what is waiting for it, and what it has done.
#[derive(Debug, PartialEq, Eq)]
pub struct Pool {
    pub name: &'static str,
    /// `fixed` or `scaling`, as OpenSearch sizes it
    pub kind: &'static str,
    /// how long a queue OpenSearch puts in front of it; `-1` for a pool
    /// that takes everything it is given
    pub reference_queue: i64,
    pub active: u64,
    pub largest: u64,
    pub completed: u64,
    pub rejected: u64,
    pub waiting: u64,
    /// the places taken
    pub placed: u64,
}

#[verifier::ext_equal]
pub struct PoolV {
    pub name: Seq<char>,
    pub kind: Seq<char>,
    pub reference_queue: i64,
    pub active: u64,
    pub largest: u64,
    pub completed: u64,
    pub rejected: u64,
    pub waiting: u64,
    pub placed: u64,
}

impl DeepView for Pool {
    type V = PoolV;

    open spec fn deep_view(&self) -> PoolV {
        PoolV {
            name: self.name@,
            kind: self.kind@,
            reference_queue: self.reference_queue,
            active: self.active,
            largest: self.largest,
            completed: self.completed,
            rejected: self.rejected,
            waiting: self.waiting,
            placed: self.placed,
        }
    }
}

/// What the machine and the environment say of a pool.
pub struct Said {
    pub cpus: u32,
    /// whether requests are held to their pools at all
    pub admission: bool,
    pub size: Option<i64>,
    pub queue_size: Option<i64>,
}

/// Whether this node holds its requests to its pools at all: unless it was
/// told not to.
pub open spec fn admission(said: Option<Seq<char>>) -> bool {
    !(said == Some("off"@) || said == Some("false"@) || said == Some("0"@))
}

/// Whether this node holds its requests to its pools at all, by what
/// `VELOSEARCH_THREAD_POOL_ADMISSION` says.
pub fn admission_on(said: &Option<String>) -> (r: bool)
    ensures
        r == admission(said.deep_view()),
{
    match said {
        Some(s) => !(same(s.as_str(), "off") || same(s.as_str(), "false") || same(
            s.as_str(),
            "0",
        )),
        None => true,
    }
}

/// A number said in the environment, if it is one.
pub open spec fn number_said(said: Option<Seq<char>>) -> Option<i64> {
    match said {
        Some(s) => match signed(trimmed(s)) {
            Some(n) => if i64::MIN <= n <= i64::MAX {
                Some(n as i64)
            } else {
                None
            },
            None => None,
        },
        None => None,
    }
}

/// A number said in the environment, if it is one.
pub fn said_number(said: &Option<String>) -> (r: Option<i64>)
    ensures
        r == number_said(said.deep_view()),
{
    match said {
        Some(s) => parse_i64(trim(s.as_str()).as_str()),
        None => None,
    }
}

pub open spec fn upper_char(c: char) -> char {
    if 'a' <= c && c <= 'z' {
        (c as u32 - 32) as char
    } else {
        c
    }
}

/// What a number about a pool is called in the environment.
pub open spec fn variable(pool: Seq<char>, what: Seq<char>) -> Seq<char> {
    "VELOSEARCH_THREAD_POOL_"@ + pool.map_values(|c: char| upper_char(c)) + "_"@ + what
}

/// What a number about a pool is called in the environment.
pub fn variable_name(pool: &str, what: &str) -> (r: String)
    ensures
        r@ == variable(pool@, what@),
{
    let v = chars_of(pool);
    let mut up = String::new();
    for i in 0..v.len()
        invariant
            up@ == v@.take(i as int).map_values(|c: char| upper_char(c)),
    {
        let c = v[i];
        if 'a' <= c && c <= 'z' {
            up.push((c as u8 - 32) as char);
        } else {
            up.push(c);
        }
        assert(up@ =~= v@.take(i + 1).map_values(|c: char| upper_char(c)));
    }
    assert(v@.take(v@.len() as int) =~= pool@);
    "VELOSEARCH_THREAD_POOL_".to_owned().concat(up.as_str()).concat("_").concat(what)
}

pub open spec fn most(a: int, b: int) -> int {
    if a >= b {
        a
    } else {
        b
    }
}

impl PoolV {
    /// The size OpenSearch gives a fixed pool on a machine of this many
    /// processors; a scaling pool's largest.
    pub open spec fn size_on(self, cpus: u32) -> int {
        if self.name == "search"@ {
            cpus * 3 / 2 + 1
        } else if self.name == "write"@ || self.name == "get"@ || self.name == "system_write"@ {
            cpus as int
        } else if self.name == "analyze"@ || self.name == "force_merge"@ || self.name
            == "search_throttled"@ {
            1
        } else if self.name == "index_searcher"@ {
            cpus * 2
        } else if self.name == "listener"@ {
            if cpus / 2 < 1 {
                1
            } else if cpus / 2 > 10 {
                10
            } else {
                cpus as int / 2
            }
        } else {
            most(self.largest as int, 1)
        }
    }

    /// How many requests of this kind the node runs at once; no ceiling for a
    /// scaling pool, or where none is wanted.
    pub open spec fn ceiling(self, said: Said) -> Option<u64> {
        if self.kind != "fixed"@ || !said.admission {
            None
        } else {
            match said.size {
                Some(n) => if n <= 0 {
                    None
                } else {
                    Some(n as u64)
                },
                None => Some(
                    crate::number::least(
                        most(self.size_on(said.cpus) * 2, 4),
                        u64::MAX as int,
                    ) as u64,
                ),
            }
        }
    }

    /// How many requests of this kind may wait for a turn; no end where there
    /// is none.
    pub open spec fn room(self, said: Said) -> Option<u64> {
        if self.ceiling(said) is None {
            None
        } else {
            match said.queue_size {
                Some(n) => if n < 0 {
                    None
                } else {
                    Some(n as u64)
                },
                None => if self.reference_queue < 0 {
                    None
                } else {
                    Some(self.reference_queue as u64)
                },
            }
        }
    }

    /// How many threads a fixed pool is said to have, and the most a scaling
    /// pool has had running at once.
    pub open spec fn threads_shown(self, said: Said, workers: u64) -> int {
        if self.name == "generic"@ {
            most(workers as int, self.largest as int)
        } else if self.kind == "fixed"@ {
            match said.size {
                Some(n) => if n > 0 {
                    n as int
                } else {
                    self.size_on(said.cpus)
                },
                None => self.size_on(said.cpus),
            }
        } else {
            self.largest as int
        }
    }
}

/// One more, no more than a `u64` holds.
pub open spec fn up(n: u64) -> u64 {
    if n == u64::MAX {
        n
    } else {
        (n + 1) as u64
    }
}

/// One less, no less than nothing.
pub open spec fn down(n: u64) -> u64 {
    if n == 0 {
        0
    } else {
        (n - 1) as u64
    }
}

/// What a pool says to a request that arrives.
#[derive(Debug, Clone, Copy, PartialEq, Eq, Structural)]
pub enum Arrival {
    /// it runs, in a place of a bounded pool or of an unbounded one in none
    Run { placed: bool },
    /// it waits in the queue for a place
    Wait,
    /// it is refused: neither a place nor room to wait for one
    Refuse { room: u64 },
}

impl PoolV {
    /// What a request that arrives is told, and the pool afterwards.
    pub open spec fn arrived(self, said: Said) -> (Arrival, PoolV) {
        match self.ceiling(said) {
            None => (Arrival::Run { placed: false }, self),
            Some(n) => if self.placed < n {
                (Arrival::Run { placed: true }, PoolV { placed: up(self.placed), ..self })
            } else {
                match self.room(said) {
                    Some(room) => if self.waiting >= room {
                        (
                            Arrival::Refuse { room },
                            PoolV { rejected: up(self.rejected), ..self },
                        )
                    } else {
                        (Arrival::Wait, PoolV { waiting: up(self.waiting), ..self })
                    },
                    None => (Arrival::Wait, PoolV { waiting: up(self.waiting), ..self }),
                }
            },
        }
    }

    /// The pool when a request leaves its queue: with a place, or because its
    /// client went away.
    pub open spec fn dequeued(self, placed: bool) -> PoolV {
        PoolV {
            waiting: down(self.waiting),
            placed: if placed {
                up(self.placed)
            } else {
                self.placed
            },
            ..self
        }
    }

    /// Whether a request that waits has a place to go to.
    pub open spec fn has_place(self, said: Said) -> bool {
        match self.ceiling(said) {
            Some(n) => self.placed < n,
            None => true,
        }
    }

    /// What a request that waits for its turn is told, and the pool then: it
    /// leaves the queue with a place where there is one.
    pub open spec fn turned(self, said: Said) -> (bool, PoolV) {
        if self.has_place(said) {
            (true, self.dequeued(true))
        } else {
            (false, self)
        }
    }

    /// The pool when a request begins to run.
    pub open spec fn begun(self) -> PoolV {
        let now = up(self.active);
        PoolV { active: now, largest: most(self.largest as int, now as int) as u64, ..self }
    }

    /// The pool when a request is done, however it ended.
    pub open spec fn done(self, placed: bool, too_many: bool) -> PoolV {
        PoolV {
            active: down(self.active),
            completed: up(self.completed),
            rejected: if too_many {
                up(self.rejected)
            } else {
                self.rejected
            },
            placed: if placed {
                down(self.placed)
            } else {
                self.placed
            },
            ..self
        }
    }

    /// What the pool says when it is too busy.
    pub open spec fn busy_text(self, room: u64) -> Seq<char> {
        "rejected execution of coordinating operation [thread_pool_name = "@ + self.name
            + ", queue_capacity = "@ + dec(room as nat) + ", task_count = "@ + dec(
            (self.active + self.waiting) as nat,
        ) + "]"@
    }
}

impl Pool {
    pub fn new(name: &'static str, kind: &'static str, reference_queue: i64) -> (r: Pool)
        ensures
            r.deep_view() == fresh(name@, kind@, reference_queue),
    {
        Pool {
            name,
            kind,
            reference_queue,
            active: 0,
            largest: 0,
            completed: 0,
            rejected: 0,
            waiting: 0,
            placed: 0,
        }
    }

    /// How many requests it is running.
    pub fn active(&self) -> (n: u64)
        ensures
            n == self.deep_view().active,
    {
        self.active
    }

    /// The most it has run at once.
    pub fn largest(&self) -> (n: u64)
        ensures
            n == self.deep_view().largest,
    {
        self.largest
    }

    /// How many requests it has run.
    pub fn completed(&self) -> (n: u64)
        ensures
            n == self.deep_view().completed,
    {
        self.completed
    }

    /// How many requests it has turned away.
    pub fn rejected(&self) -> (n: u64)
        ensures
            n == self.deep_view().rejected,
    {
        self.rejected
    }

    /// The size OpenSearch gives a fixed pool on a machine of this many
    /// processors; a scaling pool's largest.
    pub fn size(&self, cpus: u32) -> (r: u64)
        ensures
            r == self.deep_view().size_on(cpus),
    {
        let n: u64 = cpus as u64;
        if same(self.name, "search") {
            n * 3 / 2 + 1
        } else if same(self.name, "write") || same(self.name, "get") || same(
            self.name,
            "system_write",
        ) {
            n
        } else if same(self.name, "analyze") || same(self.name, "force_merge") || same(
            self.name,
            "search_throttled",
        ) {
            1
        } else if same(self.name, "index_searcher") {
            n * 2
        } else if same(self.name, "listener") {
            if n / 2 < 1 {
                1
            } else if n / 2 > 10 {
                10
            } else {
                n / 2
            }
        } else if self.largest >= 1 {
            self.largest
        } else {
            1
        }
    }

    /// How many requests of this kind the node runs at once, `None` where it
    /// runs as many as it is given.
    ///
    /// A scaling pool has no ceiling in OpenSearch and gets none here.
    pub fn at_once(&self, said: &Said) -> (r: Option<u64>)
        ensures
            r == self.deep_view().ceiling(*said),
    {
        if !same(self.kind, "fixed") || !said.admission {
            return None;
        }
        match said.size {
            Some(n) => {
                if n <= 0 {
                    None
                } else {
                    Some(n as u64)
                }
            },
            None => {
                let twice: u128 = self.size(said.cpus) as u128 * 2;
                if twice < 4 {
                    Some(4)
                } else if twice > u64::MAX as u128 {
                    Some(u64::MAX)
                } else {
                    Some(twice as u64)
                }
            },
        }
    }

    /// How many requests of this kind may wait for a turn; `None` for a queue
    /// with no end.
    pub fn queue_size(&self, said: &Said) -> (r: Option<u64>)
        ensures
            r == self.deep_view().room(*said),
    {
        if self.at_once(said).is_none() {
            return None;
        }
        match said.queue_size {
            Some(n) => {
                if n < 0 {
                    None
                } else {
                    Some(n as u64)
                }
            },
            None => {
                if self.reference_queue < 0 {
                    None
                } else {
                    Some(self.reference_queue as u64)
                }
            },
        }
    }

    /// How many threads the pool has: what a fixed pool is sized to, the
    /// runtime's workers for `generic`, and for a scaling pool the most it
    /// has had running at once.
    pub fn threads(&self, said: &Said, workers: u64) -> (r: u64)
        ensures
            r == self.deep_view().threads_shown(*said, workers),
    {
        if same(self.name, "generic") {
            return if workers >= self.largest {
                workers
            } else {
                self.largest
            };
        }
        if same(self.kind, "fixed") {
            match said.size {
                Some(n) => {
                    if n > 0 {
                        n as u64
                    } else {
                        self.size(said.cpus)
                    }
                },
                None => self.size(said.cpus),
            }
        } else {
            self.largest
        }
    }

    /// The backlog waiting for this pool: what it is holding back where it
    /// is bounded, the runtime's own for `generic`.
    pub fn queue(&self, backlog: u64) -> (r: u64)
        ensures
            r == (if self.deep_view().name == "generic"@ {
                backlog
            } else {
                self.deep_view().waiting
            }),
    {
        if same(self.name, "generic") {
            backlog
        } else {
            self.waiting
        }
    }

    /// A request arrives: it takes a place, waits for one, or is refused.
    pub fn arrive(&mut self, said: &Said) -> (r: Arrival)
        ensures
            (r, final(self).deep_view()) == old(self).deep_view().arrived(*said),
    {
        match self.at_once(said) {
            None => Arrival::Run { placed: false },
            Some(n) => {
                if self.placed < n {
                    self.placed = self.placed.saturating_add(1);
                    return Arrival::Run { placed: true };
                }
                match self.queue_size(said) {
                    Some(room) => {
                        if self.waiting >= room {
                            self.rejected = self.rejected.saturating_add(1);
                            return Arrival::Refuse { room };
                        }
                    },
                    None => {},
                }
                self.waiting = self.waiting.saturating_add(1);
                Arrival::Wait
            },
        }
    }

    /// A request leaves the queue: with a place, or because its client went
    /// away.
    pub fn leave_queue(&mut self, placed: bool)
        ensures
            final(self).deep_view() == old(self).deep_view().dequeued(placed),
    {
        self.waiting = self.waiting.saturating_sub(1);
        if placed {
            self.placed = self.placed.saturating_add(1);
        }
    }

    /// A request that waits takes its turn, if there is a place for it: it looks
    /// for one and takes it in one go, so that no two take the same one.
    pub fn take_turn(&mut self, said: &Said) -> (r: bool)
        ensures
            (r, final(self).deep_view()) == old(self).deep_view().turned(*said),
    {
        let free = match self.at_once(said) {
            Some(n) => self.placed < n,
            None => true,
        };
        if free {
            self.leave_queue(true);
        }
        free
    }

    /// A request begins to run.
    pub fn begin(&mut self)
        ensures
            final(self).deep_view() == old(self).deep_view().begun(),
    {
        self.active = self.active.saturating_add(1);
        if self.active > self.largest {
            self.largest = self.active;
        }
    }

    /// A request is done, however it ended; one answered 429 counts as
    /// refused too.
    pub fn finish(&mut self, placed: bool, too_many: bool)
        ensures
            final(self).deep_view() == old(self).deep_view().done(placed, too_many),
    {
        self.active = self.active.saturating_sub(1);
        self.completed = self.completed.saturating_add(1);
        if too_many {
            self.rejected = self.rejected.saturating_add(1);
        }
        if placed {
            self.placed = self.placed.saturating_sub(1);
        }
    }

    /// What a pool answers when it has neither a place nor room to wait for
    /// one, down to the type a client's back-off reads.
    pub fn too_busy(&self, room: u64) -> (r: Refusal)
        ensures
            r.status == 429,
            r.kind@ == "rejected_execution_exception"@,
            r.reason@ == self.deep_view().busy_text(room),
            r.body.deep_view() == busy_body(self.deep_view().busy_text(room)),
    {
        let tasks: u128 = self.active as u128 + self.waiting as u128;
        let reason = "rejected execution of coordinating operation [thread_pool_name = ".to_owned().concat(
            self.name,
        ).concat(", queue_capacity = ").concat(decimal(room).as_str()).concat(
            ", task_count = ",
        ).concat(crate::text::decimal_wide(tasks).as_str()).concat("]");
        let mut cause = fields();
        field(&mut cause, "type", text("rejected_execution_exception"));
        field(&mut cause, "reason", text(reason.as_str()));
        let mut causes: Vec<Json> = Vec::new();
        causes.push(object(cause));
        assert(causes.deep_view() =~= seq![JsonV::Object(busy_cause(reason@))]);
        let mut error = fields();
        field(&mut error, "type", text("rejected_execution_exception"));
        field(&mut error, "reason", text(reason.as_str()));
        field(&mut error, "root_cause", list(causes));
        let mut o = fields();
        field(&mut o, "error", object(error));
        field(&mut o, "status", whole(429));
        Refusal { status: 429, body: object(o), kind: "rejected_execution_exception", reason }
    }
}

pub open spec fn busy_cause(reason: Seq<char>) -> Seq<(Seq<char>, JsonV)> {
    no_fields().push(("type"@, JsonV::Text("rejected_execution_exception"@))).push(
        ("reason"@, JsonV::Text(reason)),
    )
}

pub open spec fn busy_body(reason: Seq<char>) -> JsonV {
    JsonV::Object(
        no_fields().push(
            (
                "error"@,
                JsonV::Object(
                    busy_cause(reason).push(
                        ("root_cause"@, JsonV::List(seq![JsonV::Object(busy_cause(reason))])),
                    ),
                ),
            ),
        ).push(("status"@, JsonV::Number(NumberV::Whole(429)))),
    )
}

// ---- the pools -----------------------------------------------------------------

/// A pool that has done nothing yet.
pub open spec fn fresh(name: Seq<char>, kind: Seq<char>, reference_queue: i64) -> PoolV {
    PoolV {
        name,
        kind,
        reference_queue,
        active: 0,
        largest: 0,
        completed: 0,
        rejected: 0,
        waiting: 0,
        placed: 0,
    }
}

pub open spec fn fixed(name: Seq<char>, queue: i64) -> PoolV {
    fresh(name, "fixed"@, queue)
}

pub open spec fn scaling(name: Seq<char>) -> PoolV {
    fresh(name, "scaling"@, NO_END)
}

/// A queue with no end.
pub const NO_END: i64 = -1;

/// Every pool, in name order, with the queue OpenSearch puts in front of
/// each.
pub open spec fn every_pool() -> Seq<PoolV> {
    Seq::<PoolV>::empty().push(fixed("analyze"@, 16)).push(scaling("fetch_shard_started"@)).push(
        scaling("fetch_shard_store"@),
    ).push(scaling("flush"@)).push(fixed("force_merge"@, NO_END)).push(scaling("generic"@)).push(
        fixed("get"@, 1000),
    ).push(fixed("index_searcher"@, 1000)).push(fixed("listener"@, NO_END)).push(
        scaling("management"@),
    ).push(scaling("refresh"@)).push(fixed("search"@, 1000)).push(
        fixed("search_throttled"@, 100),
    ).push(scaling("snapshot"@)).push(scaling("warmer"@)).push(fixed("write"@, 10000))
}

/// Every pool, in name order, as OpenSearch lists them, with the queue it
/// puts in front of each.
pub fn pools() -> (r: Vec<Pool>)
    ensures
        r.deep_view() == every_pool(),
{
    let mut r: Vec<Pool> = Vec::new();
    assert(r.deep_view() =~= Seq::<PoolV>::empty());
    push_to(&mut r, Pool::new("analyze", "fixed", 16));
    push_to(&mut r, Pool::new("fetch_shard_started", "scaling", NO_END));
    push_to(&mut r, Pool::new("fetch_shard_store", "scaling", NO_END));
    push_to(&mut r, Pool::new("flush", "scaling", NO_END));
    push_to(&mut r, Pool::new("force_merge", "fixed", NO_END));
    push_to(&mut r, Pool::new("generic", "scaling", NO_END));
    push_to(&mut r, Pool::new("get", "fixed", 1000));
    push_to(&mut r, Pool::new("index_searcher", "fixed", 1000));
    push_to(&mut r, Pool::new("listener", "fixed", NO_END));
    push_to(&mut r, Pool::new("management", "scaling", NO_END));
    push_to(&mut r, Pool::new("refresh", "scaling", NO_END));
    push_to(&mut r, Pool::new("search", "fixed", 1000));
    push_to(&mut r, Pool::new("search_throttled", "fixed", 100));
    push_to(&mut r, Pool::new("snapshot", "scaling", NO_END));
    push_to(&mut r, Pool::new("warmer", "scaling", NO_END));
    push_to(&mut r, Pool::new("write", "fixed", 10000));
    r
}

pub open spec fn is_named(name: Seq<char>) -> spec_fn(PoolV) -> bool {
    |p: PoolV| p.name == name
}

/// The place of a pool in a list, of the generic one when none has the name.
pub open spec fn pool_at(pools: Seq<PoolV>, name: Seq<char>) -> int {
    let i = find(pools, is_named(name));
    if i < pools.len() {
        i
    } else {
        5
    }
}

/// The place of a pool in a list, of the generic one when none has the name.
pub fn pool(pools: &Vec<Pool>, name: &str) -> (i: usize)
    ensures
        i == pool_at(pools.deep_view(), name@),
{
    let ghost p = is_named(name@);
    let f = |x: &Pool| -> (r: bool)
        ensures
            r == p(x.deep_view()),
        { same(x.name, name) };
    let i = find_in(pools, f, Ghost(p));
    if i < pools.len() {
        i
    } else {
        5
    }
}

// ---- which pool a request goes to ----------------------------------------------

/// The parts of a path, empty ones left out.
pub open spec fn segments(path: Seq<char>) -> Seq<Seq<char>> {
    keep(cut(path, '/'), |s: Seq<char>| s.len() > 0)
}

/// The parts of a path, empty ones left out.
pub fn parts_of(path: &str) -> (r: Vec<String>)
    ensures
        r.deep_view() == segments(path@),
{
    let all = split(path, '/');
    let ghost av = all.deep_view();
    let ghost p = |s: Seq<char>| s.len() > 0;
    let mut r: Vec<String> = Vec::new();
    assert(r.deep_view() =~= keep(av.take(0), p));
    for i in 0..all.len()
        invariant
            av == all.deep_view(),
            p == (|s: Seq<char>| s.len() > 0),
            r.deep_view() == keep(av.take(i as int), p),
    {
        proof {
            lemma_take(av, i as int);
            assert(av[i as int] == all@[i as int]@);
        }
        if !all[i].as_str().is_empty() {
            push_to(&mut r, all[i].clone());
        }
    }
    assert(av.take(all@.len() as int) =~= av);
    r
}

pub open spec fn searches(p: Seq<Seq<char>>) -> bool {
    p.contains("_search"@) || p.contains("_msearch"@) || p.contains("_count"@) || p.contains(
        "_field_caps"@,
    ) || p.contains("_explain"@)
}

pub open spec fn writes(p: Seq<Seq<char>>) -> bool {
    p.contains("_bulk"@) || p.contains("_update"@) || p.contains("_delete_by_query"@)
        || p.contains("_update_by_query"@)
}

pub open spec fn reads_or_writes(p: Seq<Seq<char>>) -> bool {
    p.contains("_doc"@) || p.contains("_create"@) || p.contains("_source"@)
}

pub open spec fn gets(p: Seq<Seq<char>>) -> bool {
    p.contains("_mget"@) || p.contains("_termvectors"@) || p.contains("_mtermvectors"@)
}

/// The pool OpenSearch runs a request of this method and path in.
pub open spec fn pool_of(method: Seq<char>, path: Seq<char>) -> Seq<char> {
    let p = segments(path);
    if searches(p) {
        "search"@
    } else if writes(p) {
        "write"@
    } else if reads_or_writes(p) {
        if method == "GET"@ || method == "HEAD"@ {
            "get"@
        } else {
            "write"@
        }
    } else if gets(p) {
        "get"@
    } else if p.contains("_refresh"@) {
        "refresh"@
    } else if p.contains("_flush"@) {
        "flush"@
    } else if p.contains("_forcemerge"@) {
        "force_merge"@
    } else if p.contains("_analyze"@) {
        "analyze"@
    } else if p.contains("_snapshot"@) {
        "snapshot"@
    } else if p.len() == 0 || begins(p[0], "_"@) {
        "management"@
    } else {
        "generic"@
    }
}

/// The pool OpenSearch runs a request of this method and path in.
pub fn pool_for(method: &str, path: &str) -> (r: &'static str)
    ensures
        r@ == pool_of(method@, path@),
{
    let p = parts_of(path);
    if has_text(&p, "_search") || has_text(&p, "_msearch") || has_text(&p, "_count") || has_text(
        &p,
        "_field_caps",
    ) || has_text(&p, "_explain") {
        return "search";
    }
    if has_text(&p, "_bulk") || has_text(&p, "_update") || has_text(&p, "_delete_by_query")
        || has_text(&p, "_update_by_query") {
        return "write";
    }
    if has_text(&p, "_doc") || has_text(&p, "_create") || has_text(&p, "_source") {
        return if same(method, "GET") || same(method, "HEAD") {
            "get"
        } else {
            "write"
        };
    }
    if has_text(&p, "_mget") || has_text(&p, "_termvectors") || has_text(&p, "_mtermvectors") {
        return "get";
    }
    if has_text(&p, "_refresh") {
        return "refresh";
    }
    if has_text(&p, "_flush") {
        return "flush";
    }
    if has_text(&p, "_forcemerge") {
        return "force_merge";
    }
    if has_text(&p, "_analyze") {
        return "analyze";
    }
    if has_text(&p, "_snapshot") {
        return "snapshot";
    }
    if p.len() == 0 {
        return "management";
    }
    assert(p.deep_view()[0] == p@[0]@);
    if starts_with(p[0].as_str(), "_") {
        return "management";
    }
    "generic"
}

// ---- what it comes to ----------------------------------------------------------

/// A bounded pool never hands out more places than it runs at once, and a
/// request is refused only where every place is taken and the queue is full.
pub proof fn law_a_pool_keeps_to_its_ceiling(p: PoolV, said: Said)
    ensures
        ({
            let (told, after) = p.arrived(said);
            &&& p.ceiling(said) is Some && p.placed <= p.ceiling(said)->0 ==> after.placed
                <= p.ceiling(said)->0
            &&& p.room(said) is Some && p.waiting <= p.room(said)->0 ==> after.waiting
                <= p.room(said)->0
            &&& told is Refuse ==> p.ceiling(said) is Some && p.placed >= p.ceiling(said)->0
                && p.room(said) is Some && p.waiting >= p.room(said)->0 && after.placed == p.placed
                && after.waiting == p.waiting && after.active == p.active
        }),
{
}

/// A request that takes its turn keeps a pool to its ceiling too, and one that
/// finds no place changes nothing.
pub proof fn law_a_turn_keeps_to_the_ceiling(p: PoolV, said: Said)
    ensures
        ({
            let (taken, after) = p.turned(said);
            &&& p.ceiling(said) is Some && p.placed <= p.ceiling(said)->0 ==> after.placed
                <= p.ceiling(said)->0
            &&& taken && p.placed < u64::MAX ==> after.placed == p.placed + 1
            &&& !taken ==> after == p
        }),
{
}

/// A request that has come and gone leaves a pool as it was but for what it
/// counts: whether it took a place at once or waited for one.
pub proof fn law_a_request_leaves_nothing_behind(p: PoolV, said: Said, too_many: bool)
    requires
        p.active < u64::MAX,
        p.placed < u64::MAX,
        p.waiting < u64::MAX,
    ensures
        p.arrived(said).0 matches Arrival::Run { placed } ==> {
            let after = p.arrived(said).1.begun().done(placed, too_many);
            after.active == p.active && after.placed == p.placed && after.waiting == p.waiting
                && after.completed == up(p.completed)
        },
        p.arrived(said).0 is Wait ==> {
            let after = p.arrived(said).1.dequeued(true).begun().done(true, too_many);
            after.active == p.active && after.placed == p.placed && after.waiting == p.waiting
                && after.completed == up(p.completed)
        },
        p.arrived(said).0 is Wait ==> p.arrived(said).1.dequeued(false) == p,
{
}

} // verus!
