//! What the console answers of objects, of itself and of its brand.

use vstd::prelude::*;

use crate::console::brand::{
    branded, hex_value, is_primary, is_wanted, lights, mark_json, url, Colour, ACCENT, DEEP, FOLDER,
    PRIMARY, PRIMARY_DARK, TINT, TITLE,
};
use crate::console::failed::{body_failure, query_failure, FailedV};
use crate::console::objects::{
    address, carried, changed_entry, exported, keeps_in_session, kind_got, made_entry, overall,
    preview, reach_message, reported, status, too_many_said, writes, BuildV, KeptV, ReachedV,
    ReadAsV, WroteV, MOST_OBJECTS,
};
use crate::console::passage::{LEAST_TO_COMPRESS, MOST_TO_COMPRESS};
use crate::json::{member, JsonV, NumberV};
use crate::list::{called, lemma_find, lemma_with, lookup, with};
use crate::text::{cut, dec};

verus! {

/// A request may be for a thousand objects at the most, and says so where it is for more.
pub proof fn law_the_most_objects_in_one_request(n: nat)
    ensures
        MOST_OBJECTS == 1000,
        too_many_said(n).status == 400,
        too_many_said(n).message == "Too many objects in one request: ["@ + dec(n)
            + "], the most is [1000]"@,
{
}

/// Answers are compressed from a thousand and twenty-four bytes on, and up to eight mebibytes.
pub proof fn law_which_answers_are_compressed()
    ensures
        LEAST_TO_COMPRESS == 1024,
        MOST_TO_COMPRESS == 8 * 1024 * 1024,
{
}

/// What is written of an object is what the request says of it, with no attributes and no
/// references where it says none.
pub proof fn law_what_is_written_of_an_object(
    kind: Seq<char>,
    id: Option<Seq<char>>,
    body: JsonV,
    overwrite: bool,
)
    ensures
        ({
            let w = writes(kind, id, body, overwrite);
            &&& w.kind == kind && w.id == id && w.overwrite == overwrite
            &&& match member(body, "attributes"@) {
                Some(a) => w.attributes == a,
                None => w.attributes == JsonV::Object(Seq::empty()),
            }
            &&& match member(body, "references"@) {
                Some(a) => w.references == a,
                None => w.references == JsonV::List(Seq::empty()),
            }
            &&& w.migration_version == member(body, "migrationVersion"@)
        }),
{
}

/// An object that was written is answered with as it is; one that was not, with its id, its
/// type and why, and a conflict in so many words.
pub proof fn law_what_is_answered_of_an_object_that_is_made(
    one: JsonV,
    kind: Seq<char>,
    id: Seq<char>,
    found: JsonV,
    f: FailedV,
)
    requires
        member(one, "type"@) == Some(JsonV::Text(kind)),
        member(one, "id"@) == Some(JsonV::Text(id)),
    ensures
        made_entry(one, WroteV::Saved(found)) == found,
        ({
            let e = made_entry(one, WroteV::Failed(f));
            &&& member(e, "id"@) == Some(JsonV::Text(id))
            &&& member(e, "type"@) == Some(JsonV::Text(kind))
            &&& member(e, "error"@) matches Some(x) && member(x, "statusCode"@) == Some(
                JsonV::Number(NumberV::Whole(f.status as u64)),
            ) && member(x, "message"@) == Some(
                JsonV::Text(
                    if f.status == 409 {
                        "Saved object ["@ + kind + "/"@ + id + "] conflict"@
                    } else {
                        f.message
                    },
                ),
            )
        }),
{
    lemma_entry_words();
    let e = made_entry(one, WroteV::Failed(f));
    let o = e->Object_0;
    lemma_find(o, called::<JsonV>("id"@), 0);
    lemma_find(o, called::<JsonV>("type"@), 1);
    lemma_find(o, called::<JsonV>("error"@), 2);
    let x = o[2].1->Object_0;
    lemma_find(x, called::<JsonV>("statusCode"@), 0);
    if f.status == 409 {
        lemma_find(x, called::<JsonV>("message"@), 2);
    } else {
        lemma_find(x, called::<JsonV>("message"@), 1);
    }
}

proof fn lemma_entry_words()
    ensures
        "id"@.len() == 2,
        "type"@.len() == 4,
        "error"@.len() == 5,
        "statusCode"@.len() == 10,
        "message"@.len() == 7,
{
    reveal_strlit("id");
    reveal_strlit("type");
    reveal_strlit("error");
    reveal_strlit("statusCode");
    reveal_strlit("message");
}

/// An object that was changed is answered with as it is; one that was not, with its id, its
/// type and why.
pub proof fn law_what_is_answered_of_an_object_that_is_changed(
    one: JsonV,
    kind: Seq<char>,
    id: Seq<char>,
    found: JsonV,
    f: FailedV,
    words: Option<Seq<char>>,
)
    requires
        member(one, "type"@) == Some(JsonV::Text(kind)),
        member(one, "id"@) == Some(JsonV::Text(id)),
    ensures
        changed_entry(one, WroteV::Saved(found), words) == found,
        ({
            let e = changed_entry(one, WroteV::Failed(f), words);
            &&& member(e, "id"@) == Some(JsonV::Text(id))
            &&& member(e, "type"@) == Some(JsonV::Text(kind))
            &&& member(e, "error"@) matches Some(x) && member(x, "statusCode"@) == Some(
                JsonV::Number(NumberV::Whole(f.status as u64)),
            ) && member(x, "message"@) == Some(JsonV::Text(f.message)) && member(x, "error"@)
                == Some(
                JsonV::Text(
                    match words {
                        Some(w) => w,
                        None => "Error"@,
                    },
                ),
            )
        }),
{
    lemma_entry_words();
    let e = changed_entry(one, WroteV::Failed(f), words);
    let o = e->Object_0;
    lemma_find(o, called::<JsonV>("id"@), 0);
    lemma_find(o, called::<JsonV>("type"@), 1);
    lemma_find(o, called::<JsonV>("error"@), 2);
    let x = o[2].1->Object_0;
    lemma_find(x, called::<JsonV>("statusCode"@), 0);
    lemma_find(x, called::<JsonV>("error"@), 1);
    lemma_find(x, called::<JsonV>("message"@), 2);
}

/// What an export is asked for: types, by one name or a list; objects; what they refer to,
/// only where that is asked for; and a summary, unless that is declined.
pub proof fn law_what_an_export_is_asked_for(
    o: Seq<(Seq<char>, JsonV)>,
    t: Seq<char>,
    v: Seq<JsonV>,
)
    ensures
        exported(None) matches Err(f) && f.status == 400,
        exported(Some(JsonV::Null)) matches Err(f) && f.status == 400,
        exported(Some(JsonV::Object(o))) matches Ok(e) && {
            let body = JsonV::Object(o);
            &&& member(body, "type"@) == Some(JsonV::Text(t)) ==> e.types == seq![t]
            &&& member(body, "type"@) is None ==> e.types.len() == 0
            &&& member(body, "objects"@) == Some(JsonV::List(v)) ==> e.objects == v
            &&& member(body, "objects"@) is None ==> e.objects.len() == 0
            &&& e.references <==> member(body, "includeReferencesDeep"@) == Some(JsonV::Bool(true))
            &&& e.plain <==> member(body, "excludeExportDetails"@) == Some(JsonV::Bool(true))
        },
{
}

/// What something is, in a word.
pub proof fn law_what_something_is_in_a_word(v: JsonV)
    ensures
        kind_got(None) == "undefined"@,
        v is Null ==> kind_got(Some(v)) == "undefined"@,
        v is Text ==> kind_got(Some(v)) == "string"@,
        v is Number ==> kind_got(Some(v)) == "number"@,
        v is List ==> kind_got(Some(v)) == "array"@,
        v is Object ==> kind_got(Some(v)) == "object"@,
        v is Bool ==> kind_got(Some(v)) == "boolean"@,
{
}

/// A bad query and a bad body are answered 400, and say what was wrong with which of their
/// members.
pub proof fn law_what_a_bad_request_is_told(key: Seq<char>, what: Seq<char>, got: Seq<char>)
    ensures
        query_failure(key, what).status == 400,
        query_failure(key, what).message == "[request query."@ + key + "]: "@ + what,
        body_failure(key, what, got).status == 400,
        body_failure(key, what, got).message == "[request body."@ + key
            + "]: expected value of type ["@ + what + "] but got ["@ + got + "]"@,
{
}

/// What is said of a report: that it was kept, that it was not, or that it was a bad one.
pub proof fn law_what_is_said_of_a_report(f: FailedV)
    ensures
        reported(KeptV::Done) matches Ok(j) && member(j, "status"@) == Some(JsonV::Text("ok"@)),
        f.status == 400 ==> reported(KeptV::Failed(f)) == Err::<JsonV, FailedV>(f),
        f.status != 400 ==> (reported(KeptV::Failed(f)) matches Ok(j) && member(j, "status"@)
            == Some(JsonV::Text("fail"@))),
{
    let a = reported(KeptV::Done)->Ok_0->Object_0;
    lemma_find(a, called::<JsonV>("status"@), 0);
    if f.status != 400 {
        let b = reported(KeptV::Failed(f))->Ok_0->Object_0;
        lemma_find(b, called::<JsonV>("status"@), 0);
    }
}

/// What the engine answers is passed on where it is no error; an error keeps its status and
/// gives its reason; and what cannot be read is the engine's fault.
pub proof fn law_what_the_engine_answers_is_passed_on(
    code: u16,
    found: JsonV,
    why: Seq<char>,
    e: JsonV,
    reason: Seq<char>,
)
    ensures
        code < 300 ==> carried(code, ReadAsV::Value(found)) == Ok::<JsonV, FailedV>(found),
        code >= 300 ==> (carried(code, ReadAsV::Value(found)) matches Err(f) && f.status == code),
        code >= 300 && member(found, "error"@) == Some(e) && member(e, "reason"@) == Some(
            JsonV::Text(reason),
        ) ==> (carried(code, ReadAsV::Value(found)) matches Err(f) && f.message == reason),
        carried(code, ReadAsV::Unreadable(why)) matches Err(f) && f.status == 502,
{
}

/// What is asked of the engine to try a script: ten hits of the query, or of everything,
/// with the script as a field of the name.
pub proof fn law_how_a_script_is_tried(body: JsonV, name: Seq<char>, script: Seq<char>, q: JsonV)
    ensures
        ({
            let p = preview(body, name, script);
            &&& member(p, "size"@) == Some(JsonV::Number(NumberV::Whole(10)))
            &&& member(p, "timeout"@) == Some(JsonV::Text("30s"@))
            &&& member(body, "query"@) == Some(q) ==> member(p, "query"@) == Some(q)
            &&& member(body, "query"@) is None ==> (member(p, "query"@) matches Some(all) && member(
                all,
                "match_all"@,
            ) == Some(JsonV::Object(Seq::empty())))
        }),
{
    reveal_strlit("size");
    reveal_strlit("timeout");
    reveal_strlit("query");
    assert("size"@.len() == 4 && "timeout"@.len() == 7 && "query"@.len() == 5);
    let p = preview(body, name, script)->Object_0;
    lemma_find(p, called::<JsonV>("size"@), 0);
    lemma_find(p, called::<JsonV>("timeout"@), 1);
    lemma_find(p, called::<JsonV>("query"@), 2);
    let m = crate::console::objects::match_all()->Object_0;
    lemma_find(m, called::<JsonV>("match_all"@), 0);
}

/// What a page is told of the console: green while the engine is reached, and red, with why,
/// while it is not.
pub proof fn law_the_console_is_green_while_the_engine_is_reached(
    uuid: Seq<char>,
    b: BuildV,
    reached: ReachedV,
    since: Seq<char>,
    metrics: JsonV,
    why: Seq<char>,
)
    ensures
        ({
            let green = reached is Yes;
            let s = status(uuid, b, reached, since, metrics);
            &&& member(s, "uuid"@) == Some(JsonV::Text(uuid))
            &&& member(s, "metrics"@) == Some(metrics)
            &&& member(s, "status"@) matches Some(x) && member(x, "overall"@) matches Some(o)
                && member(o, "state"@) == Some(
                JsonV::Text(
                    if green {
                        "green"@
                    } else {
                        "red"@
                    },
                ),
            ) && member(o, "title"@) == Some(
                JsonV::Text(
                    if green {
                        "Green"@
                    } else {
                        "Red"@
                    },
                ),
            ) && member(o, "icon"@) == Some(
                JsonV::Text(
                    if green {
                        "success"@
                    } else {
                        "alert"@
                    },
                ),
            ) && member(o, "uiColor"@) == Some(
                JsonV::Text(
                    if green {
                        "secondary"@
                    } else {
                        "danger"@
                    },
                ),
            )
        }),
        reach_message(ReachedV::Yes) == "OpenSearch is available"@,
        reach_message(ReachedV::No(why)) == "OpenSearch is not available: "@ + why,
        reach_message(ReachedV::Unasked(why)) == "the check could not be run: "@ + why,
{
    reveal_strlit("name");
    reveal_strlit("uuid");
    reveal_strlit("version");
    reveal_strlit("status");
    reveal_strlit("metrics");
    assert("name"@.len() == 4 && "uuid"@.len() == 4 && "version"@.len() == 7 && "status"@.len() == 6
        && "metrics"@.len() == 7);
    assert("name"@[0] == 'n' && "uuid"@[0] == 'u' && "version"@[0] == 'v' && "metrics"@[0] == 'm');
    let s = status(uuid, b, reached, since, metrics)->Object_0;
    lemma_find(s, called::<JsonV>("uuid"@), 1);
    lemma_find(s, called::<JsonV>("status"@), 3);
    lemma_find(s, called::<JsonV>("metrics"@), 4);
    let x = s[3].1->Object_0;
    lemma_find(x, called::<JsonV>("overall"@), 0);
    lemma_overall(since, reached is Yes);
}

proof fn lemma_overall(since: Seq<char>, green: bool)
    ensures
        member(overall(since, green), "state"@) == Some(
            JsonV::Text(crate::console::objects::state_word(green)),
        ),
        member(overall(since, green), "title"@) == Some(
            JsonV::Text(
                if green {
                    "Green"@
                } else {
                    "Red"@
                },
            ),
        ),
        member(overall(since, green), "icon"@) == Some(
            JsonV::Text(crate::console::objects::icon(green)),
        ),
        member(overall(since, green), "uiColor"@) == Some(
            JsonV::Text(crate::console::objects::colour(green)),
        ),
{
    reveal_strlit("since");
    reveal_strlit("state");
    reveal_strlit("title");
    reveal_strlit("nickname");
    reveal_strlit("icon");
    reveal_strlit("uiColor");
    assert("since"@.len() == 5 && "state"@.len() == 5 && "title"@.len() == 5 && "nickname"@.len()
        == 8 && "icon"@.len() == 4 && "uiColor"@.len() == 7);
    assert("since"@[1] == 'i' && "state"@[1] == 't' && "since"@[0] == 's' && "state"@[0] == 's'
        && "title"@[0] == 't');
    let o = overall(since, green)->Object_0;
    lemma_find(o, called::<JsonV>("state"@), 1);
    lemma_find(o, called::<JsonV>("title"@), 2);
    lemma_find(o, called::<JsonV>("icon"@), 4);
    lemma_find(o, called::<JsonV>("uiColor"@), 5);
}

/// What is kept in the session is what the settings say is, in so many words.
pub proof fn law_what_is_kept_in_the_session(found: JsonV, s: JsonV, x: JsonV)
    ensures
        member(found, "settings"@) == Some(s) && member(s, "state:storeInSessionStorage"@) == Some(x)
            ==> keeps_in_session(found) == (member(x, "userValue"@) == Some(JsonV::Bool(true))),
        member(found, "settings"@) is None ==> !keeps_in_session(found),
        member(found, "settings"@) == Some(s) && member(s, "state:storeInSessionStorage"@) is None
            ==> !keeps_in_session(found),
{
}

/// An address is a host and, after its last colon, a port.
pub proof fn law_a_host_and_its_port(host: Seq<char>, port: Seq<char>)
    requires
        !host.contains(':'),
        !port.contains(':'),
    ensures
        address(host + ":"@ + port) == (host, port),
        address(host) == (host, ""@),
{
    reveal_strlit(":");
    let a = host + ":"@ + port;
    assert(a =~= host.push(':') + port);
    crate::text::lemma_cut_after(host, ':', port);
    crate::text::lemma_cut_whole(port, ':');
    crate::text::lemma_cut_whole(host, ':');
    assert(cut(a, ':') =~= seq![host, port]);
    assert(cut(a, ':').drop_last() =~= seq![host]);
}

// ---- the brand -----------------------------------------------------------------

/// The console is branded unless that is declined, in any of three words.
pub proof fn law_the_console_is_branded_unless_declined(s: Seq<char>)
    ensures
        is_wanted(None),
        !is_wanted(Some("opensearch"@)),
        !is_wanted(Some("off"@)),
        !is_wanted(Some("none"@)),
        s != "opensearch"@ && s != "off"@ && s != "none"@ ==> is_wanted(Some(s)),
{
}

/// The colours of the brand, what it is called and where its marks are.
pub proof fn law_the_brand()
    ensures
        ACCENT@ == "#00C566"@,
        PRIMARY@ == "#00753C"@,
        PRIMARY_DARK@ == "#005C2F"@,
        DEEP@ == "#004628"@,
        TINT@ == "#E1F4E9"@,
        TITLE@ == "VeloSearch"@,
        FOLDER@ == "/ui/velosearch"@,
{
}

/// A branded page has the brand's marks, for a light page and a dark one, its icon and its
/// name; whatever else was pinned stays.
pub proof fn law_what_a_branded_page_has(
    base: Seq<char>,
    o: Seq<(Seq<char>, JsonV)>,
    other: Seq<char>,
)
    ensures
        ({
            let b = branded(base, JsonV::Object(o));
            let at = base + "/ui/velosearch"@;
            &&& member(b, "assetFolderUrl"@) == Some(JsonV::Text(at))
            &&& member(b, "logo"@) == Some(
                mark_json(at + "/"@ + "logo.png"@, at + "/"@ + "logo-dark.png"@),
            )
            &&& member(b, "mark"@) == Some(
                mark_json(at + "/"@ + "mark.png"@, at + "/"@ + "mark.png"@),
            )
            &&& member(b, "loadingLogo"@) == Some(
                mark_json(at + "/"@ + "mark.png"@, at + "/"@ + "mark.png"@),
            )
            &&& member(b, "faviconUrl"@) == Some(JsonV::Text(at + "/"@ + "favicon.png"@))
            &&& member(b, "applicationTitle"@) == Some(JsonV::Text("VeloSearch"@))
            &&& other != "assetFolderUrl"@ && other != "logo"@ && other != "mark"@ && other
                != "loadingLogo"@ && other != "faviconUrl"@ && other != "applicationTitle"@
                ==> member(b, other) == lookup(o, other)
        }),
{
    reveal_strlit("assetFolderUrl");
    reveal_strlit("logo");
    reveal_strlit("mark");
    reveal_strlit("loadingLogo");
    reveal_strlit("faviconUrl");
    reveal_strlit("applicationTitle");
    assert("assetFolderUrl"@.len() == 14 && "logo"@.len() == 4 && "mark"@.len() == 4
        && "loadingLogo"@.len() == 11 && "faviconUrl"@.len() == 10 && "applicationTitle"@.len()
        == 16);
    assert("logo"@[0] == 'l' && "mark"@[0] == 'm');
    lemma_branded(base, o, "assetFolderUrl"@);
    lemma_branded(base, o, "logo"@);
    lemma_branded(base, o, "mark"@);
    lemma_branded(base, o, "loadingLogo"@);
    lemma_branded(base, o, "faviconUrl"@);
    lemma_branded(base, o, "applicationTitle"@);
    lemma_branded(base, o, other);
}

proof fn lemma_branded(base: Seq<char>, o: Seq<(Seq<char>, JsonV)>, key: Seq<char>)
    ensures
        member(branded(base, JsonV::Object(o)), key) == if key == "applicationTitle"@ {
            Some(JsonV::Text(TITLE@))
        } else if key == "faviconUrl"@ {
            Some(JsonV::Text(url(base, "favicon.png"@)))
        } else if key == "loadingLogo"@ {
            Some(mark_json(url(base, "mark.png"@), url(base, "mark.png"@)))
        } else if key == "mark"@ {
            Some(mark_json(url(base, "mark.png"@), url(base, "mark.png"@)))
        } else if key == "logo"@ {
            Some(mark_json(url(base, "logo.png"@), url(base, "logo-dark.png"@)))
        } else if key == "assetFolderUrl"@ {
            Some(JsonV::Text(base + FOLDER@))
        } else {
            lookup(o, key)
        },
{
    let v1 = JsonV::Text(base + FOLDER@);
    let v2 = mark_json(url(base, "logo.png"@), url(base, "logo-dark.png"@));
    let v3 = mark_json(url(base, "mark.png"@), url(base, "mark.png"@));
    let v5 = JsonV::Text(url(base, "favicon.png"@));
    let a = with(o, "assetFolderUrl"@, v1);
    let b = with(a, "logo"@, v2);
    let c = with(b, "mark"@, v3);
    let d = with(c, "loadingLogo"@, v3);
    let e = with(d, "faviconUrl"@, v5);
    lemma_with(o, "assetFolderUrl"@, v1, key);
    lemma_with(a, "logo"@, v2, key);
    lemma_with(b, "mark"@, v3, key);
    lemma_with(c, "loadingLogo"@, v3, key);
    lemma_with(d, "faviconUrl"@, v5, key);
    lemma_with(e, "applicationTitle"@, JsonV::Text(TITLE@), key);
}

/// A mark is shown by one picture on a light page and by another on a dark one.
pub proof fn law_a_mark_has_a_dark_side(light: Seq<char>, dark: Seq<char>)
    ensures
        member(mark_json(light, dark), "defaultUrl"@) == Some(JsonV::Text(light)),
        member(mark_json(light, dark), "darkModeUrl"@) == Some(JsonV::Text(dark)),
{
    reveal_strlit("defaultUrl");
    reveal_strlit("darkModeUrl");
    assert("defaultUrl"@.len() == 10 && "darkModeUrl"@.len() == 11);
    let o = mark_json(light, dark)->Object_0;
    lemma_find(o, called::<JsonV>("defaultUrl"@), 0);
    lemma_find(o, called::<JsonV>("darkModeUrl"@), 1);
}

/// A digit of a colour stands for its value, in letters of either case.
pub proof fn law_the_digits_of_a_colour(c: char)
    ensures
        '0' <= c && c <= '9' ==> hex_value(c) == Some(c as int - '0' as int),
        'a' <= c && c <= 'f' ==> hex_value(c) == Some(c as int - 'a' as int + 10),
        'A' <= c && c <= 'F' ==> hex_value(c) == Some(c as int - 'A' as int + 10),
        !('0' <= c && c <= '9') && !('a' <= c && c <= 'f') && !('A' <= c && c <= 'F') ==> hex_value(
            c,
        ) is None,
{
}

/// The primary colour is a blue: one with more blue in it than anything else, of the hue, the
/// strength and the lightness of the theme's own; a grey, a red and a green are none.
pub proof fn law_only_a_blue_is_the_primary(c: Colour)
    ensures
        is_primary(c) ==> c.2 > c.0 && c.2 > c.1 && c.1 > c.0,
        c.0 == c.1 && c.1 == c.2 ==> !is_primary(c),
        c.0 >= c.2 || c.1 >= c.2 ==> !is_primary(c),
        is_primary(c) ==> 31 <= lights(c) / 2 <= 204,
{
}

} // verus!
