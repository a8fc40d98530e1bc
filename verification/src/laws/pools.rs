//! Which pool a request is in, and how much of it runs at once.

use vstd::prelude::*;

use crate::api::pools::{admission, every_pool, pool_of, segments, Arrival, PoolV, Said};
use crate::laws::words::{
    law_a_text_is_cut_into_the_words_between_marks, law_what_passes_is_kept, stands,
};
use crate::list::keep;
use crate::text::cut;

verus! {

/// Whether a path names a segment.
pub open spec fn names(path: Seq<char>, segment: Seq<char>) -> bool {
    stands(path, '/', segment)
}

proof fn lemma_segment(path: Seq<char>, segment: Seq<char>)
    requires
        segment.len() > 0,
        !segment.contains('/'),
    ensures
        segments(path).contains(segment) <==> names(path, segment),
{
    law_a_text_is_cut_into_the_words_between_marks(path, '/', segment);
    law_what_passes_is_kept(cut(path, '/'), |s: Seq<char>| s.len() > 0, segment);
}

proof fn lemma_search_segments(path: Seq<char>)
    ensures
        segments(path).contains("_search"@) <==> names(path, "_search"@),
        segments(path).contains("_msearch"@) <==> names(path, "_msearch"@),
        segments(path).contains("_count"@) <==> names(path, "_count"@),
        segments(path).contains("_field_caps"@) <==> names(path, "_field_caps"@),
        segments(path).contains("_explain"@) <==> names(path, "_explain"@),
{
    reveal_strlit("_search");
    reveal_strlit("_msearch");
    reveal_strlit("_count");
    reveal_strlit("_field_caps");
    reveal_strlit("_explain");
    lemma_segment(path, "_search"@);
    lemma_segment(path, "_msearch"@);
    lemma_segment(path, "_count"@);
    lemma_segment(path, "_field_caps"@);
    lemma_segment(path, "_explain"@);
}

proof fn lemma_write_segments(path: Seq<char>)
    ensures
        segments(path).contains("_bulk"@) <==> names(path, "_bulk"@),
        segments(path).contains("_update"@) <==> names(path, "_update"@),
        segments(path).contains("_update_by_query"@) <==> names(path, "_update_by_query"@),
        segments(path).contains("_delete_by_query"@) <==> names(path, "_delete_by_query"@),
{
    reveal_strlit("_bulk");
    reveal_strlit("_update");
    reveal_strlit("_update_by_query");
    reveal_strlit("_delete_by_query");
    lemma_segment(path, "_bulk"@);
    lemma_segment(path, "_update"@);
    lemma_segment(path, "_update_by_query"@);
    lemma_segment(path, "_delete_by_query"@);
}

proof fn lemma_document_segments(path: Seq<char>)
    ensures
        segments(path).contains("_doc"@) <==> names(path, "_doc"@),
        segments(path).contains("_create"@) <==> names(path, "_create"@),
        segments(path).contains("_source"@) <==> names(path, "_source"@),
        segments(path).contains("_mget"@) <==> names(path, "_mget"@),
        segments(path).contains("_termvectors"@) <==> names(path, "_termvectors"@),
        segments(path).contains("_mtermvectors"@) <==> names(path, "_mtermvectors"@),
{
    reveal_strlit("_doc");
    reveal_strlit("_create");
    reveal_strlit("_source");
    reveal_strlit("_mget");
    reveal_strlit("_termvectors");
    reveal_strlit("_mtermvectors");
    lemma_segment(path, "_doc"@);
    lemma_segment(path, "_create"@);
    lemma_segment(path, "_source"@);
    lemma_segment(path, "_mget"@);
    lemma_segment(path, "_termvectors"@);
    lemma_segment(path, "_mtermvectors"@);
}

proof fn lemma_upkeep_segments(path: Seq<char>)
    ensures
        segments(path).contains("_refresh"@) <==> names(path, "_refresh"@),
        segments(path).contains("_flush"@) <==> names(path, "_flush"@),
        segments(path).contains("_forcemerge"@) <==> names(path, "_forcemerge"@),
        segments(path).contains("_analyze"@) <==> names(path, "_analyze"@),
        segments(path).contains("_snapshot"@) <==> names(path, "_snapshot"@),
{
    reveal_strlit("_refresh");
    reveal_strlit("_flush");
    reveal_strlit("_forcemerge");
    reveal_strlit("_analyze");
    reveal_strlit("_snapshot");
    lemma_segment(path, "_refresh"@);
    lemma_segment(path, "_flush"@);
    lemma_segment(path, "_forcemerge"@);
    lemma_segment(path, "_analyze"@);
    lemma_segment(path, "_snapshot"@);
}

/// Whether a path asks for a search, or for what is worked out as one.
pub open spec fn names_search(path: Seq<char>) -> bool {
    ||| names(path, "_search"@)
    ||| names(path, "_msearch"@)
    ||| names(path, "_count"@)
    ||| names(path, "_field_caps"@)
    ||| names(path, "_explain"@)
}

/// Whether a path asks for documents to be changed, many at once or in part.
pub open spec fn names_write(path: Seq<char>) -> bool {
    ||| names(path, "_bulk"@)
    ||| names(path, "_update"@)
    ||| names(path, "_update_by_query"@)
    ||| names(path, "_delete_by_query"@)
}

/// Whether a path is that of one document.
pub open spec fn names_document(path: Seq<char>) -> bool {
    names(path, "_doc"@) || names(path, "_create"@) || names(path, "_source"@)
}

/// Whether a path asks for documents, or their terms, by their ids.
pub open spec fn names_fetch(path: Seq<char>) -> bool {
    names(path, "_mget"@) || names(path, "_termvectors"@) || names(path, "_mtermvectors"@)
}

/// A request whose path names a search, a count, the fields' capabilities or an
/// explanation is a search, whatever else the path names and whatever its method.
pub proof fn law_a_search_is_in_the_search_pool(method: Seq<char>, path: Seq<char>)
    ensures
        names_search(path) ==> pool_of(method, path) == "search"@,
{
    lemma_search_segments(path);
}

/// A request that is no search and whose path names `_bulk`, `_update`,
/// `_update_by_query` or `_delete_by_query` is a write, whatever its method.
pub proof fn law_a_change_of_documents_is_in_the_write_pool(method: Seq<char>, path: Seq<char>)
    ensures
        names_write(path) && !names_search(path) ==> pool_of(method, path) == "write"@,
{
    lemma_search_segments(path);
    lemma_write_segments(path);
}

/// A request for one document is a get where it reads, by GET or HEAD, and a
/// write otherwise.
pub proof fn law_the_method_tells_a_read_of_a_document_from_a_write(
    method: Seq<char>,
    path: Seq<char>,
)
    ensures
        names_document(path) && !names_search(path) && !names_write(path) ==> pool_of(method, path)
            == if method == "GET"@ || method == "HEAD"@ {
            "get"@
        } else {
            "write"@
        },
{
    lemma_search_segments(path);
    lemma_write_segments(path);
    lemma_document_segments(path);
}

/// A request for many documents or for terms is a get, whatever its method.
pub proof fn law_a_fetch_of_many_documents_is_in_the_get_pool(method: Seq<char>, path: Seq<char>)
    ensures
        names_fetch(path) && !names_search(path) && !names_write(path) && !names_document(path)
            ==> pool_of(method, path) == "get"@,
{
    lemma_search_segments(path);
    lemma_write_segments(path);
    lemma_document_segments(path);
}

/// A request that reads and writes no document is in the pool of the upkeep its
/// path names: a refresh, a flush, a merge, an analysis or a snapshot, the first
/// of these that it names.
pub proof fn law_upkeep_has_pools_of_its_own(method: Seq<char>, path: Seq<char>)
    requires
        !names_search(path),
        !names_write(path),
        !names_document(path),
        !names_fetch(path),
    ensures
        names(path, "_refresh"@) ==> pool_of(method, path) == "refresh"@,
        names(path, "_flush"@) && !names(path, "_refresh"@) ==> pool_of(method, path) == "flush"@,
        names(path, "_forcemerge"@) && !names(path, "_refresh"@) && !names(path, "_flush"@)
            ==> pool_of(method, path) == "force_merge"@,
        names(path, "_analyze"@) && !names(path, "_refresh"@) && !names(path, "_flush"@) && !names(
            path,
            "_forcemerge"@,
        ) ==> pool_of(method, path) == "analyze"@,
        names(path, "_snapshot"@) && !names(path, "_refresh"@) && !names(path, "_flush"@) && !names(
            path,
            "_forcemerge"@,
        ) && !names(path, "_analyze"@) ==> pool_of(method, path) == "snapshot"@,
{
    lemma_search_segments(path);
    lemma_write_segments(path);
    lemma_document_segments(path);
    lemma_upkeep_segments(path);
}

proof fn lemma_first_segment(path: Seq<char>, i: int)
    requires
        0 <= i <= path.len(),
        forall|j: int| 0 <= j < i ==> path[j] == '/',
        i < path.len() ==> path[i] != '/',
    ensures
        i == path.len() ==> segments(path).len() == 0 && forall|k: int|
            0 <= k < cut(path, '/').len() ==> (#[trigger] cut(path, '/')[k]).len() == 0,
        i < path.len() ==> segments(path).len() > 0 && segments(path)[0].len() > 0 && segments(
            path,
        )[0][0] == path[i],
        cut(path, '/').len() > 0,
    decreases path.len(),
{
    let p = |s: Seq<char>| s.len() > 0;
    let parts = cut(path, '/');
    if path.len() == 0 {
        assert(parts =~= seq![Seq::<char>::empty()]);
        assert(parts.drop_last() =~= Seq::empty());
        assert(keep(parts.drop_last(), p) =~= Seq::empty());
    } else {
        let t = path.drop_last();
        let before = cut(t, '/');
        if i < path.len() - 1 {
            lemma_first_segment(t, i);
        } else {
            lemma_first_segment(t, t.len() as int);
        }
        if path.last() == '/' {
            assert(parts == before.push(Seq::<char>::empty()));
            assert(parts.drop_last() =~= before);
            assert(keep(parts, p) == keep(before, p));
        } else {
            let last = before.last().push(path.last());
            assert(parts == before.drop_last().push(last));
            assert(parts.drop_last() =~= before.drop_last());
            assert(keep(parts, p) == keep(before.drop_last(), p).push(last));
            if i == path.len() - 1 {
                assert(keep(before, p).len() == 0);
                assert(before.last().len() == 0);
                assert(keep(before, p) == keep(before.drop_last(), p));
                assert(last[0] == path.last());
            } else if keep(before.drop_last(), p).len() == 0 {
                assert(before.last().len() > 0);
                assert(last[0] == before.last()[0]);
            }
        }
    }
}

/// A request that none of the other pools is for is management where its path is
/// bare or begins with `_` after its slashes, and generic otherwise.
pub proof fn law_what_is_left_is_management_or_generic(
    method: Seq<char>,
    path: Seq<char>,
    i: int,
)
    requires
        !names_search(path),
        !names_write(path),
        !names_document(path),
        !names_fetch(path),
        !names(path, "_refresh"@),
        !names(path, "_flush"@),
        !names(path, "_forcemerge"@),
        !names(path, "_analyze"@),
        !names(path, "_snapshot"@),
        0 <= i <= path.len(),
        forall|j: int| 0 <= j < i ==> path[j] == '/',
        i < path.len() ==> path[i] != '/',
    ensures
        pool_of(method, path) == if i == path.len() || path[i] == '_' {
            "management"@
        } else {
            "generic"@
        },
{
    lemma_search_segments(path);
    lemma_write_segments(path);
    lemma_document_segments(path);
    lemma_upkeep_segments(path);
    lemma_first_segment(path, i);
    reveal_strlit("_");
    if i < path.len() {
        let first = segments(path)[0];
        assert(first.take(1)[0] == first[0]);
        if first[0] == '_' {
            assert(first.take(1) =~= "_"@);
        }
    }
}

/// A pool of a fixed size that is given a size is filled as far as that and no
/// further; given nothing or less, it is not held to any; given none, it is held to
/// twice what it is for on the machine, and to four at the least.
pub proof fn law_how_much_of_a_pool_runs_at_once(p: PoolV, said: Said)
    ensures
        p.kind != "fixed"@ ==> p.ceiling(said) is None,
        !said.admission ==> p.ceiling(said) is None,
        p.kind == "fixed"@ && said.admission ==> match said.size {
            Some(n) => if n > 0 {
                p.ceiling(said) == Some(n as u64)
            } else {
                p.ceiling(said) is None
            },
            None => p.ceiling(said) matches Some(n) && n >= 4 && (p.size_on(said.cpus) >= 2
                && p.size_on(said.cpus) * 2 <= u64::MAX ==> n == p.size_on(said.cpus) * 2),
        },
{
}

/// What each pool is for on a machine with so many processors.
pub proof fn law_what_a_pool_is_for_on_a_machine(p: PoolV, cpus: u32)
    ensures
        p.name == "search"@ ==> 2 * (p.size_on(cpus) - 1) <= 3 * cpus < 2 * p.size_on(cpus),
        p.name == "write"@ || p.name == "get"@ || p.name == "system_write"@ ==> p.size_on(cpus)
            == cpus,
        p.name == "analyze"@ || p.name == "force_merge"@ || p.name == "search_throttled"@
            ==> p.size_on(cpus) == 1,
        p.name == "index_searcher"@ ==> p.size_on(cpus) == cpus + cpus,
        p.name == "listener"@ ==> 1 <= p.size_on(cpus) <= 10 && (2 <= cpus < 22 ==> 2 * p.size_on(
            cpus,
        ) <= cpus < 2 * p.size_on(cpus) + 2) && (cpus >= 20 ==> p.size_on(cpus) == 10),
        p.name == "generic"@ || p.name == "management"@ || p.name == "flush"@ || p.name
            == "refresh"@ || p.name == "snapshot"@ || p.name == "warmer"@ ==> p.size_on(cpus)
            >= p.largest && p.size_on(cpus) >= 1,
{
    reveal_strlit("search");
    reveal_strlit("write");
    reveal_strlit("get");
    reveal_strlit("system_write");
    reveal_strlit("analyze");
    reveal_strlit("force_merge");
    reveal_strlit("search_throttled");
    reveal_strlit("index_searcher");
    reveal_strlit("listener");
    reveal_strlit("generic");
    reveal_strlit("management");
    reveal_strlit("flush");
    reveal_strlit("refresh");
    reveal_strlit("snapshot");
    reveal_strlit("warmer");
    assert("search"@.len() == 6 && "write"@.len() == 5 && "get"@.len() == 3 && "system_write"@.len()
        == 12 && "analyze"@.len() == 7 && "force_merge"@.len() == 11 && "search_throttled"@.len()
        == 16 && "index_searcher"@.len() == 14 && "listener"@.len() == 8 && "generic"@.len() == 7
        && "management"@.len() == 10 && "flush"@.len() == 5 && "refresh"@.len() == 7
        && "snapshot"@.len() == 8 && "warmer"@.len() == 6);
    assert("analyze"@[0] == 'a' && "generic"@[0] == 'g' && "refresh"@[0] == 'r' && "flush"@[0]
        == 'f' && "write"@[0] == 'w' && "search"@[0] == 's' && "warmer"@[0] == 'w' && "listener"@[0]
        == 'l' && "snapshot"@[0] == 's');
}

/// A pool that is held to a size keeps as many waiting as it is told to, or as many
/// as it is made for; told less than nothing, it keeps any number.
pub proof fn law_how_much_of_a_pool_waits(p: PoolV, said: Said)
    ensures
        p.ceiling(said) is None ==> p.room(said) is None,
        p.ceiling(said) is Some ==> match said.queue_size {
            Some(n) => if n >= 0 {
                p.room(said) == Some(n as u64)
            } else {
                p.room(said) is None
            },
            None => if p.reference_queue >= 0 {
                p.room(said) == Some(p.reference_queue as u64)
            } else {
                p.room(said) is None
            },
        },
{
}

/// A request runs while its pool has a place, waits while its queue has, and is
/// refused and counted as refused when neither has.
pub proof fn law_a_request_runs_waits_or_is_refused(p: PoolV, said: Said)
    requires
        p.placed < u64::MAX,
        p.waiting < u64::MAX,
        p.rejected < u64::MAX,
    ensures
        ({
            let (what, after) = p.arrived(said);
            match (p.ceiling(said), p.room(said)) {
                (None, _) => what == (Arrival::Run { placed: false }) && after == p,
                (Some(n), room) => if p.placed < n {
                    &&& what == (Arrival::Run { placed: true })
                    &&& after == (PoolV { placed: (p.placed + 1) as u64, ..p })
                } else if room is Some && p.waiting >= room->0 {
                    &&& what == (Arrival::Refuse { room: room->0 })
                    &&& after == (PoolV { rejected: (p.rejected + 1) as u64, ..p })
                } else {
                    &&& what == Arrival::Wait
                    &&& after == (PoolV { waiting: (p.waiting + 1) as u64, ..p })
                },
            }
        }),
{
}

/// A request that is served is counted once, takes up no place once it is done, and
/// is counted as refused only where its answer was that there are too many.
pub proof fn law_a_request_that_is_served_is_counted(p: PoolV, placed: bool, too_many: bool)
    requires
        p.active < u64::MAX,
        p.completed < u64::MAX,
        p.rejected < u64::MAX,
        p.placed > 0,
    ensures
        p.begun().active == p.active + 1,
        p.begun().largest == if p.largest > p.active {
            p.largest as int
        } else {
            p.active + 1
        },
        p.begun().done(placed, too_many).active == p.active,
        p.begun().done(placed, too_many).completed == p.completed + 1,
        p.begun().done(placed, too_many).rejected == p.rejected + if too_many {
            1int
        } else {
            0
        },
        p.begun().done(placed, too_many).placed == p.placed - if placed {
            1int
        } else {
            0
        },
        p.begun().done(placed, too_many).waiting == p.waiting,
{
}

/// A pool of a fixed size shows the size it was given, or what it is for on the
/// machine; any other shows the most it has run at once, and the generic one at
/// least the threads the node works with.
pub proof fn law_the_threads_a_pool_shows(p: PoolV, said: Said, workers: u64)
    ensures
        p.name == "generic"@ ==> p.threads_shown(said, workers) == if workers >= p.largest {
            workers
        } else {
            p.largest
        },
        p.name != "generic"@ && p.kind == "fixed"@ ==> p.threads_shown(said, workers) == if said.size
            matches Some(n) && n > 0 {
            said.size->0 as int
        } else {
            p.size_on(said.cpus)
        },
        p.name != "generic"@ && p.kind != "fixed"@ ==> p.threads_shown(said, workers) == p.largest,
{
}

/// Admission is on unless it is said to be off.
pub proof fn law_admission_is_on_unless_it_is_off(s: Seq<char>)
    ensures
        admission(None),
        !admission(Some("off"@)),
        !admission(Some("false"@)),
        !admission(Some("0"@)),
        s != "off"@ && s != "false"@ && s != "0"@ ==> admission(Some(s)),
{
}

/// Every pool a request can be in is one of the node's, with its own kind and queue.
pub proof fn law_every_pool_of_a_request_is_there(method: Seq<char>, path: Seq<char>)
    ensures
        exists|i: int|
            0 <= i < every_pool().len() && (#[trigger] every_pool()[i]).name == pool_of(
                method,
                path,
            ),
{
    let e = every_pool();
    assert(e[0].name == "analyze"@);
    assert(e[3].name == "flush"@);
    assert(e[4].name == "force_merge"@);
    assert(e[5].name == "generic"@);
    assert(e[6].name == "get"@);
    assert(e[9].name == "management"@);
    assert(e[10].name == "refresh"@);
    assert(e[11].name == "search"@);
    assert(e[13].name == "snapshot"@);
    assert(e[15].name == "write"@);
}

/// What the pools that are held to a size keep waiting where nothing is said, and
/// that the pools of upkeep grow as they are needed.
pub proof fn law_the_kinds_of_the_pools(i: int)
    requires
        0 <= i < every_pool().len(),
    ensures
        ({
            let p = every_pool()[i];
            &&& p.name == "search"@ || p.name == "get"@ || p.name == "index_searcher"@ ==> p.kind
                == "fixed"@ && p.reference_queue == 1000
            &&& p.name == "write"@ ==> p.kind == "fixed"@ && p.reference_queue == 10000
            &&& p.name == "analyze"@ ==> p.kind == "fixed"@ && p.reference_queue == 16
            &&& p.name == "search_throttled"@ ==> p.kind == "fixed"@ && p.reference_queue == 100
            &&& p.name == "force_merge"@ || p.name == "listener"@ ==> p.kind == "fixed"@
                && p.reference_queue == -1
            &&& p.name == "generic"@ || p.name == "management"@ || p.name == "flush"@ || p.name
                == "refresh"@ || p.name == "snapshot"@ || p.name == "warmer"@ ==> p.kind
                == "scaling"@ && p.reference_queue == -1
            &&& p.active == 0 && p.largest == 0 && p.completed == 0 && p.rejected == 0 && p.waiting
                == 0 && p.placed == 0
        }),
{
    reveal_strlit("search");
    reveal_strlit("write");
    reveal_strlit("get");
    reveal_strlit("analyze");
    reveal_strlit("force_merge");
    reveal_strlit("search_throttled");
    reveal_strlit("index_searcher");
    reveal_strlit("listener");
    reveal_strlit("generic");
    reveal_strlit("management");
    reveal_strlit("flush");
    reveal_strlit("refresh");
    reveal_strlit("snapshot");
    reveal_strlit("warmer");
    reveal_strlit("fetch_shard_started");
    reveal_strlit("fetch_shard_store");
    assert("search"@.len() == 6 && "write"@.len() == 5 && "get"@.len() == 3 && "analyze"@.len() == 7
        && "force_merge"@.len() == 11 && "search_throttled"@.len() == 16 && "index_searcher"@.len()
        == 14 && "listener"@.len() == 8 && "generic"@.len() == 7 && "management"@.len() == 10
        && "flush"@.len() == 5 && "refresh"@.len() == 7 && "snapshot"@.len() == 8
        && "warmer"@.len() == 6 && "fetch_shard_started"@.len() == 19 && "fetch_shard_store"@.len()
        == 17);
    assert("analyze"@[0] == 'a' && "generic"@[0] == 'g' && "refresh"@[0] == 'r' && "flush"@[0]
        == 'f' && "write"@[0] == 'w' && "search"@[0] == 's' && "warmer"@[0] == 'w' && "listener"@[0]
        == 'l' && "snapshot"@[0] == 's');
}

} // verus!
