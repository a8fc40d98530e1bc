# velosearch

The decisions of a search engine with the OpenSearch interface, verified with
Verus: where the copies of its indices go, what a request may take, what its
answers say, and what the console in front of it serves.

The library does no I/O and reads no clock. What a function needs to know comes
in as an argument, and what it decides comes back as a value; `app/` is the
program around it.

## Layout

- `cluster/`: the routing table and its next one. Deciders, the balancer,
  departures, placement, moves, reports, commands, explanations. `apart.rs`
  proves that no two copies of a shard end up on one node where none were, but for
  what its laws leave out by name; `members.rs` that every copy is on a node of the
  cluster and only a copy that missed nothing takes over; `undone.rs` that a move
  that fails leaves the table as it was; `order.rs` that tables stay in order.
- `breaker.rs`: the memory a request may take.
- `api/pools.rs`: how many requests run at once.
- `api/settings.rs`: an index's settings, shown and changed.
- `api/snapshot/`: repositories, and taking, listing, cloning and restoring
  snapshots; `refused.rs` proves that a restore that is refused leaves every index
  this node holds as it was.
- `api/cat/`: answers as columns a person can read.
- `api/prometheus.rs`: answers as a scrape reads them.
- `api/search_relevance.rs`: query sets, judgments and experiments.
- `console/`: the files the front end names, its brand, what its pages ask and
  what a request passes on the way; `names.rs` proves when two servers go by one
  name.
- `json.rs`, `text.rs`, `list.rs`, `number.rs`, `size.rs`, `time.rs`: documents,
  strings, lists, numbers, sizes and times, each with its model.

Contracts are stated over views: a type `X` stands for a value of `XV`, and a
function's `ensures` says which spec function of its arguments' views the result
is. Functions named `law_...` state what holds of several of them together.

## What is trusted

Each of these says in its own comment what is claimed of the function it calls.

- `text.rs`: `String::push`, `char::is_uppercase`, `str::to_lowercase`,
  `<str as Debug>::fmt`
- `json.rs`: `serde_json::Value`'s `to_string`, of a string
- `pattern.rs`: `regex::Regex::is_match`, `regex::Regex::replace`
- `console/query.rs`: `form_urlencoded::parse`, `serde_json::from_str` into a list
  of strings
- `console/failed.rs`: `http::StatusCode::canonical_reason`
- `console/passage.rs`: `flate2::write::GzEncoder`
