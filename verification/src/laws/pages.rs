//! What the pages of the console are served and told.

use vstd::prelude::*;

use crate::console::assets::{found, translated};
use crate::console::brand::is_mark;
use crate::console::objects::{
    at_length, build_json, called_with, flat_usage, hits_in, server_json, BuildV,
};
use crate::console::ConsoleV;
use crate::json::{member, JsonV, NumberV};
use crate::laws::snapshot::law_a_member_that_is_set;
use crate::laws::texts::law_a_text_is_parted_where_another_first_occurs;
use crate::laws::words::occurs_at;
use crate::list::{called, lemma_find, lookup};
use crate::text::halves;

verus! {

proof fn lemma_first_step(which: Seq<char>, relative: Seq<char>)
    requires
        !which.contains('/'),
    ensures
        halves(which + "/"@ + relative, "/"@) == Some((which, relative)),
{
    reveal_strlit("/");
    let s = which + "/"@ + relative;
    law_a_text_is_parted_where_another_first_occurs(s, "/"@);
    let at = which.len() as int;
    assert(s.subrange(at, at + 1) =~= "/"@);
    assert(occurs_at(s, "/"@, at));
    match halves(s, "/"@) {
        Some((a, b)) => {
            if a.len() > at {
                assert(!occurs_at(s, "/"@, at));
            }
            if a.len() < at {
                assert((a + "/"@ + b)[a.len() as int] == '/');
                assert(which[a.len() as int] == '/');
            }
            assert(a =~= s.take(at));
            assert(s.take(at) =~= which);
            assert(b =~= s.skip(at + 1));
            assert(s.skip(at + 1) =~= relative);
        },
        None => {},
    }
}

/// The bundles of the console are its own, those it shares and those of its plugins, each
/// under its directory; any other is not there.
pub proof fn law_where_bundles_are(
    c: ConsoleV,
    relative: Seq<char>,
    accepts: Seq<char>,
    id: Seq<char>,
    dir: Seq<char>,
    which: Seq<char>,
)
    requires
        !id.contains('/'),
        !which.contains('/'),
    ensures
        c.bundled("core"@ + "/"@ + relative, accepts) == found(
            c.home + "/src/core/target/public"@,
            relative,
            accepts,
            c.branded,
        ),
        c.bundled("osd-ui-shared-deps"@ + "/"@ + relative, accepts) == found(
            c.home + "/node_modules/@osd/ui-shared-deps/target"@,
            relative,
            accepts,
            c.branded,
        ),
        lookup(c.plugin_dirs, id) == Some(dir) ==> c.bundled(
            "plugin"@ + "/"@ + (id + "/"@ + relative),
            accepts,
        ) == found(dir + "/target/public"@, relative, accepts, c.branded),
        lookup(c.plugin_dirs, id) is None ==> c.bundled(
            "plugin"@ + "/"@ + (id + "/"@ + relative),
            accepts,
        ) is None,
        which != "core"@ && which != "osd-ui-shared-deps"@ && which != "plugin"@ ==> c.bundled(
            which + "/"@ + relative,
            accepts,
        ) is None,
{
    reveal_strlit("core");
    reveal_strlit("osd-ui-shared-deps");
    reveal_strlit("plugin");
    assert("core"@.len() == 4 && "osd-ui-shared-deps"@.len() == 18 && "plugin"@.len() == 6);
    lemma_first_step("core"@, relative);
    lemma_first_step("osd-ui-shared-deps"@, relative);
    lemma_first_step("plugin"@, id + "/"@ + relative);
    lemma_first_step(id, relative);
    lemma_first_step(which, relative);
}

/// The words of a language are those that were read, and none where none were.
pub proof fn law_the_words_of_a_language(locale: Seq<char>, read: JsonV, words: JsonV)
    ensures
        member(read, "messages"@) == Some(words) ==> (member(
            translated(locale, Some(read)),
            "translations"@,
        ) matches Some(t) && member(t, "messages"@) == Some(words) && member(t, "locale"@) == Some(
            JsonV::Text(locale),
        )),
        member(translated(locale, None), "translations"@) matches Some(t) && member(t, "messages"@)
            == Some(JsonV::Object(Seq::empty())),
{
    reveal_strlit("locale");
    reveal_strlit("messages");
    assert("locale"@.len() == 6 && "messages"@.len() == 8);
    let o = translated(locale, Some(read))->Object_0;
    lemma_find(o, called::<JsonV>("translations"@), 0);
    let t = o[0].1->Object_0;
    lemma_find(t, called::<JsonV>("locale"@), 0);
    lemma_find(t, called::<JsonV>("messages"@), 1);
    let p = translated(locale, None)->Object_0;
    lemma_find(p, called::<JsonV>("translations"@), 0);
    let u = p[0].1->Object_0;
    lemma_find(u, called::<JsonV>("messages"@), 1);
}

/// What is called and with what: as the body says where it is an object, and as the query
/// says where it is not.
pub proof fn law_what_is_called_and_with_what(
    o: Seq<(Seq<char>, JsonV)>,
    pairs: Seq<(Seq<char>, Seq<char>)>,
    data: Option<JsonV>,
    e: Seq<char>,
    d: JsonV,
)
    ensures
        lookup(o, "endpoint"@) == Some(JsonV::Text(e)) && lookup(o, "data"@) == Some(d)
            ==> called_with(Some(JsonV::Object(o)), pairs, data) == (e, d),
        lookup(pairs, "endpoint"@) == Some(e) ==> called_with(None, pairs, Some(d)) == (e, d),
        lookup(pairs, "endpoint"@) == Some(e) ==> called_with(None, pairs, None) == (
            e,
            JsonV::Null,
        ),
{
}

/// The hits of an answer are as many as are in its list.
pub proof fn law_the_hits_of_an_answer(found: JsonV, h: JsonV, v: Seq<JsonV>)
    ensures
        member(found, "hits"@) == Some(h) && member(h, "hits"@) == Some(JsonV::List(v)) ==> hits_in(
            found,
        ) == v.len(),
        member(found, "hits"@) is None ==> hits_in(found) == 0,
{
}

/// What the console says of itself: green while the engine is reached and red while it is
/// not, with what it is, where and of which version.
pub proof fn law_what_the_console_says_of_itself(
    uuid: Seq<char>,
    index: Seq<char>,
    host: Seq<char>,
    port: Seq<char>,
    version: Seq<char>,
    reachable: bool,
)
    requires
        !host.contains(':'),
        !port.contains(':'),
    ensures
        ({
            let s = server_json(uuid, index, host + ":"@ + port, version, reachable);
            &&& member(s, "uuid"@) == Some(JsonV::Text(uuid))
            &&& member(s, "index"@) == Some(JsonV::Text(index))
            &&& member(s, "host"@) == Some(JsonV::Text(host))
            &&& member(s, "version"@) == Some(JsonV::Text(version))
            &&& member(s, "status"@) == Some(
                JsonV::Text(
                    if reachable {
                        "green"@
                    } else {
                        "red"@
                    },
                ),
            )
        }),
{
    crate::laws::objects::law_a_host_and_its_port(host, port);
    reveal_strlit("uuid");
    reveal_strlit("name");
    reveal_strlit("index");
    reveal_strlit("host");
    reveal_strlit("locale");
    reveal_strlit("transport_address");
    reveal_strlit("version");
    reveal_strlit("snapshot");
    reveal_strlit("status");
    assert("uuid"@.len() == 4 && "name"@.len() == 4 && "index"@.len() == 5 && "host"@.len() == 4
        && "locale"@.len() == 6 && "transport_address"@.len() == 17 && "version"@.len() == 7
        && "snapshot"@.len() == 8 && "status"@.len() == 6);
    assert("uuid"@[0] == 'u' && "name"@[0] == 'n' && "host"@[0] == 'h' && "locale"@[0] == 'l'
        && "status"@[0] == 's');
    let o = server_json(uuid, index, host + ":"@ + port, version, reachable)->Object_0;
    lemma_find(o, called::<JsonV>("uuid"@), 0);
    lemma_find(o, called::<JsonV>("index"@), 2);
    lemma_find(o, called::<JsonV>("host"@), 3);
    lemma_find(o, called::<JsonV>("version"@), 6);
    lemma_find(o, called::<JsonV>("status"@), 8);
}

/// What a build is told to be, with nothing known of it where nothing is.
pub proof fn law_what_a_build_is_told_to_be(b: BuildV)
    ensures
        member(build_json(b), "number"@) == Some(JsonV::Text(b.version)),
        member(build_json(b), "build_hash"@) == Some(
            JsonV::Text(
                match b.hash {
                    Some(h) => h,
                    None => "unknown"@,
                },
            ),
        ),
        member(build_json(b), "build_number"@) == Some(JsonV::Number(NumberV::Whole(b.number))),
        member(build_json(b), "build_snapshot"@) == Some(JsonV::Bool(false)),
{
    reveal_strlit("number");
    reveal_strlit("build_hash");
    reveal_strlit("build_number");
    reveal_strlit("build_snapshot");
    assert("number"@.len() == 6 && "build_hash"@.len() == 10 && "build_number"@.len() == 12
        && "build_snapshot"@.len() == 14);
    let o = build_json(b)->Object_0;
    lemma_find(o, called::<JsonV>("number"@), 0);
    lemma_find(o, called::<JsonV>("build_hash"@), 1);
    lemma_find(o, called::<JsonV>("build_number"@), 2);
    lemma_find(o, called::<JsonV>("build_snapshot"@), 3);
}

/// The statistics at length name the cluster and its use, under their old names where those
/// are asked for.
pub proof fn law_the_statistics_at_length(
    out: Seq<(Seq<char>, JsonV)>,
    cluster: JsonV,
    usage: JsonV,
    renamed: JsonV,
)
    ensures
        lookup(at_length(out, cluster, usage, renamed, false), "cluster_uuid"@) == Some(cluster),
        lookup(at_length(out, cluster, usage, renamed, false), "usage"@) == Some(renamed),
        lookup(at_length(out, cluster, usage, renamed, true), "clusterUuid"@) == Some(cluster),
{
    reveal_strlit("usage");
    reveal_strlit("cluster_uuid");
    assert("usage"@.len() == 5 && "cluster_uuid"@.len() == 12);
    let a = crate::api::answer::set_to(out, "usage"@, renamed);
    law_a_member_that_is_set(out, "usage"@, renamed, "usage"@);
    law_a_member_that_is_set(a, "cluster_uuid"@, cluster, "usage"@);
    let flat = JsonV::Object(
        match usage {
            JsonV::Object(o) => flat_usage(o, o.len()),
            _ => crate::json::no_fields(),
        },
    );
    let b = crate::api::answer::set_to(out, "usage"@, flat);
    law_a_member_that_is_set(b, "clusterUuid"@, cluster, "usage"@);
}

/// The marks of the brand are its logo, light and dark, its mark and its icon.
pub proof fn law_the_marks_of_the_brand(name: Seq<char>)
    ensures
        is_mark(name) <==> name == "logo.png"@ || name == "logo-dark.png"@ || name == "mark.png"@
            || name == "favicon.png"@,
{
}

} // verus!
