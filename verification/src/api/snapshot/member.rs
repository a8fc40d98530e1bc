//! A node's side of a repository and of a snapshot: what it does when another
//! node of its cluster asks it to.

use vstd::prelude::*;

use super::plan::{
    held_here, may_ask, may_be_asked, numbers_at, read_from, shards_asked, shards_held, Reply,
    ReplyV,
};
use super::repository::mark_of;
use crate::api::answer::{said, set_member, set_to, text_at};
use crate::cluster::state::{IndexV, NodeId, RoutingTable};
use crate::json::{field, fields, no_fields, object, text, Json, JsonV};
use crate::list::{lemma_with, lookup};
use crate::text::{dec, lemma_dec};

verus! {

/// A node is asked only by itself and by the nodes of its cluster.
pub open spec fn stranger() -> Seq<char> {
    "not a node of this cluster"@
}

/// What a request says under a name; nothing where it says nothing.
pub open spec fn or_empty(request: JsonV, key: Seq<char>) -> Seq<char> {
    match said(request, key) {
        Some(s) => s,
        None => ""@,
    }
}

fn text_or_empty(request: &Json, key: &str) -> (r: String)
    ensures
        r@ == or_empty(request.deep_view(), key@),
{
    match text_at(request, key) {
        Some(s) => s,
        None => "".to_owned(),
    }
}

// ---- leaving a mark ------------------------------------------------------------

/// What a node is asked to leave its mark with.
pub open spec fn mark_asked(repo: JsonV, directory: Seq<char>, token: Seq<char>) -> JsonV {
    JsonV::Object(
        no_fields().push(("repository"@, repo)).push(("dir"@, JsonV::Text(directory))).push(
            ("token"@, JsonV::Text(token)),
        ),
    )
}

/// What a node is asked to leave its mark with.
pub fn mark_request(repo: &Json, directory: &str, token: &str) -> (r: Json)
    ensures
        r.deep_view() == mark_asked(repo.deep_view(), directory@, token@),
{
    let mut o = fields();
    field(&mut o, "repository", repo.clone());
    field(&mut o, "dir", text(directory));
    field(&mut o, "token", text(token));
    object(o)
}

/// Where a node asked for its mark leaves it and what it holds, or why it does
/// not: it is asked by a stranger, or the repository is out of its reach.
pub open spec fn marking(
    from: Seq<char>,
    me: Seq<char>,
    nodes: Seq<Seq<char>>,
    request: JsonV,
    reached: bool,
) -> Result<(Seq<char>, Seq<char>), Seq<char>> {
    if !may_ask(from, me, nodes) {
        Err(stranger())
    } else if !reached {
        Err(
            "cannot reach the repository: its location is not under this node's path.repo"@,
        )
    } else {
        Ok((or_empty(request, "dir"@), or_empty(request, "token"@)))
    }
}

/// The directory a node leaves its mark in and the token it holds, or why it
/// leaves none. Whether the mark can be read from anywhere else is not this
/// node's question.
pub fn mark_for(
    from: &str,
    me: &str,
    nodes: &Vec<String>,
    request: &Json,
    reached: bool,
) -> (r: Result<(String, String), String>)
    ensures
        match r {
            Ok((dir, token)) => marking(
                from@,
                me@,
                nodes.deep_view(),
                request.deep_view(),
                reached,
            ) == Ok::<(Seq<char>, Seq<char>), Seq<char>>((dir@, token@)),
            Err(why) => marking(
                from@,
                me@,
                nodes.deep_view(),
                request.deep_view(),
                reached,
            ) == Err::<(Seq<char>, Seq<char>), Seq<char>>(why@),
        },
{
    if !may_be_asked(from, me, nodes) {
        return Err("not a node of this cluster".to_owned());
    }
    if !reached {
        return Err(
            "cannot reach the repository: its location is not under this node's path.repo".to_owned(),
        );
    }
    Ok((text_or_empty(request, "dir"), text_or_empty(request, "token")))
}

/// What a node writes to leave its mark: where, and what. Nothing is written
/// into a repository nothing writes to.
pub fn write_verify_blob(writable: bool, directory: &str, token: &str, node: &str) -> (r: Option<
    (String, String),
>)
    ensures
        r.deep_view() == if writable {
            Some((directory@ + "/"@ + node@ + ".dat"@, token@))
        } else {
            None
        },
{
    if writable {
        Some((mark_of(directory, node), token.to_owned()))
    } else {
        None
    }
}

/// Why a mark could not be left.
pub fn could_not_mark(why: &str) -> (r: String)
    ensures
        r@ == "could not write into the repository: "@ + why@,
{
    "could not write into the repository: ".to_owned().concat(why)
}

/// What stopped a node from leaving its mark, by what came back from it.
pub open spec fn unmarked(reply: ReplyV) -> Option<Seq<char>> {
    match reply {
        ReplyV::Silence => Some("did not answer"@),
        ReplyV::Error(why) => Some(why),
        _ => None,
    }
}

/// What stopped a node from leaving its mark, by what came back from it. An
/// answer is enough, whatever it says.
pub fn mark_refused(reply: Reply) -> (r: Option<String>)
    ensures
        r.deep_view() == unmarked(reply.deep_view()),
{
    match reply {
        Reply::Silence => Some("did not answer".to_owned()),
        Reply::Error(why) => Some(why),
        _ => None,
    }
}

// ---- writing shards ------------------------------------------------------------

/// The shards a node writes into the snapshot of an index, and those it was
/// asked for and does not.
pub struct Writing {
    pub snapshot: String,
    pub index: String,
    pub shards: Vec<u32>,
    pub failed: Vec<(String, Json)>,
}

#[verifier::ext_equal]
pub struct WritingV {
    pub snapshot: Seq<char>,
    pub index: Seq<char>,
    pub shards: Seq<u32>,
    pub failed: Seq<(Seq<char>, JsonV)>,
}

impl DeepView for Writing {
    type V = WritingV;

    open spec fn deep_view(&self) -> WritingV {
        WritingV {
            snapshot: self.snapshot@,
            index: self.index@,
            shards: self.shards.deep_view(),
            failed: self.failed.deep_view(),
        }
    }
}

/// What a node asked for shards writes, or why it writes nothing: it is asked by
/// a stranger, or the repository is out of its reach. Only a primary it holds is
/// written.
pub open spec fn writing(
    from: Seq<char>,
    me: Seq<char>,
    nodes: Seq<Seq<char>>,
    request: JsonV,
    reached: bool,
    t: Seq<IndexV>,
) -> Result<WritingV, Seq<char>> {
    if !may_ask(from, me, nodes) {
        Err(stranger())
    } else if !reached {
        Err(
            "the repository cannot be reached from this node: its location is not under this node's path.repo"@,
        )
    } else {
        let index = or_empty(request, "index"@);
        let asked = numbers_at(request, "shards"@);
        let (shards, failed) = held_here(t, me, index, asked, asked.len());
        Ok(WritingV { snapshot: or_empty(request, "snapshot"@), index, shards, failed })
    }
}

/// What a node asked for shards writes into the repository every node shares,
/// from the primaries it holds, or why it writes nothing. `nodes` are the nodes
/// of its cluster, and `reached` says whether the repository the request names
/// is one it can reach.
pub fn snapshot_install(
    from: &str,
    me: &NodeId,
    nodes: &Vec<String>,
    request: &Json,
    reached: bool,
    table: &RoutingTable,
) -> (r: Result<Writing, String>)
    ensures
        match r {
            Ok(w) => writing(
                from@,
                me.deep_view(),
                nodes.deep_view(),
                request.deep_view(),
                reached,
                table.deep_view(),
            ) == Ok::<WritingV, Seq<char>>(w.deep_view()),
            Err(why) => writing(
                from@,
                me.deep_view(),
                nodes.deep_view(),
                request.deep_view(),
                reached,
                table.deep_view(),
            ) == Err::<WritingV, Seq<char>>(why@),
        },
{
    if !may_be_asked(from, me.as_str(), nodes) {
        return Err("not a node of this cluster".to_owned());
    }
    if !reached {
        return Err(
            "the repository cannot be reached from this node: its location is not under this node's path.repo".to_owned(),
        );
    }
    let index = text_or_empty(request, "index");
    let asked = shards_asked(request);
    assert(asked.deep_view().len() == asked@.len());
    let (shards, failed) = shards_held(table, me, index.as_str(), &asked);
    Ok(Writing { snapshot: text_or_empty(request, "snapshot"), index, shards, failed })
}

/// What a node answers once it has written its shards: what it wrote, with the
/// shards it did not.
pub fn shards_answer(
    written: Result<Vec<(String, Json)>, String>,
    failed: Vec<(String, Json)>,
) -> (r: Result<Json, String>)
    ensures
        match r {
            Ok(j) => written is Ok && j.deep_view() == JsonV::Object(
                set_to(
                    written->Ok_0.deep_view(),
                    "failed"@,
                    JsonV::Object(failed.deep_view()),
                ),
            ),
            Err(why) => written is Err && why@ == written->Err_0@,
        },
{
    match written {
        Ok(mut answer) => {
            set_member(&mut answer, "failed", object(failed));
            Ok(object(answer))
        },
        Err(why) => Err(why),
    }
}

/// A node writes only primaries that are its own to write, and writes or refuses
/// every shard it was asked for.
pub proof fn law_only_a_held_primary_is_written(
    from: Seq<char>,
    me: Seq<char>,
    nodes: Seq<Seq<char>>,
    request: JsonV,
    t: Seq<IndexV>,
    i: int,
)
    requires
        may_ask(from, me, nodes),
        0 <= i < numbers_at(request, "shards"@).len(),
    ensures
        ({
            let w = writing(from, me, nodes, request, true, t)->Ok_0;
            let shard = numbers_at(request, "shards"@)[i];
            let held = read_from(t, or_empty(request, "index"@), shard) == Some(me);
            &&& w.shards.contains(shard) <==> held
            &&& lookup(w.failed, dec(shard as nat)) is Some <==> !held
        }),
{
    let asked = numbers_at(request, "shards"@);
    lemma_held(t, me, or_empty(request, "index"@), asked, asked.len(), asked[i]);
}

proof fn lemma_held(
    t: Seq<IndexV>,
    me: Seq<char>,
    index: Seq<char>,
    asked: Seq<u32>,
    n: nat,
    shard: u32,
)
    requires
        n <= asked.len(),
    ensures
        ({
            let (mine, failed) = held_here(t, me, index, asked, n);
            let named = exists|j: int| 0 <= j < n && asked[j] == shard;
            let held = read_from(t, index, shard) == Some(me);
            &&& mine.contains(shard) <==> named && held
            &&& lookup(failed, dec(shard as nat)) is Some <==> named && !held
        }),
    decreases n,
{
    if n > 0 {
        let before = (n - 1) as nat;
        lemma_held(t, me, index, asked, before, shard);
        let (mine, failed) = held_here(t, me, index, asked, before);
        let last = asked[n - 1];
        if read_from(t, index, last) == Some(me) {
            let k = mine.index_of(shard);
            let now = mine.push(last);
            if mine.contains(shard) {
                assert(now[k] == shard);
            }
            if last == shard {
                assert(now[mine.len() as int] == shard);
            }
            if now.contains(shard) && last != shard {
                let j = now.index_of(shard);
                assert(mine[j] == shard);
            }
        } else {
            lemma_with(
                failed,
                dec(last as nat),
                JsonV::Text("this node no longer holds the primary"@),
                dec(shard as nat),
            );
            if dec(last as nat) == dec(shard as nat) {
                lemma_dec(last as nat, shard as nat);
            }
        }
        if exists|j: int| 0 <= j < n && asked[j] == shard {
            let j = choose|j: int| 0 <= j < n && asked[j] == shard;
            assert(j < n - 1 || last == shard);
        }
    }
}

} // verus!
