//! The files a page names: the bundles, the images, the fonts, the
//! translations.
//!
//! Nothing here is generated. Every one of them is a file of the distribution,
//! and what is decided here is which one a URL names -- and that it names none
//! outside the directory it is under.

use vstd::prelude::*;

use super::{Console, ConsoleV};
use crate::json::{field, fields, no_fields, object, text, Json, JsonV};
use crate::list::{get, lookup, push_to};
use crate::size::{ends, strip_suffix};
use crate::text::{chars_of, cut, first_in, halves, has_text_in, joined, same, split, split_once};

verus! {

/// A file to hand back: where it is, what it is, the compressed copies of it
/// that may be handed back in its place, and whether its colours are moved onto
/// the brand's first.
pub struct Served {
    pub path: String,
    pub kind: &'static str,
    pub compressed: Vec<(String, &'static str)>,
    pub themed: bool,
}

#[verifier::ext_equal]
pub struct ServedV {
    pub path: Seq<char>,
    pub kind: Seq<char>,
    pub compressed: Seq<(Seq<char>, Seq<char>)>,
    pub themed: bool,
}

impl DeepView for Served {
    type V = ServedV;

    open spec fn deep_view(&self) -> ServedV {
        ServedV {
            path: self.path@,
            kind: self.kind@,
            compressed: self.compressed.deep_view(),
            themed: self.themed,
        }
    }
}

// ---- names ---------------------------------------------------------------------

/// Whether a part of a URL is the name of a file or a directory, and no way out
/// of one.
pub open spec fn is_name(part: Seq<char>) -> bool {
    part.len() > 0 && part != "."@ && part != ".."@
}

/// Whether a URL names something under a directory.
pub open spec fn stays(relative: Seq<char>) -> bool {
    forall|i: int| 0 <= i < cut(relative, '/').len() ==> is_name(#[trigger] cut(relative, '/')[i])
}

/// What follows the last dot of a file's name; nothing where it has no dot but
/// at its start.
pub open spec fn extension(name: Seq<char>) -> Option<Seq<char>> {
    let dots = cut(name, '.');
    if dots.len() <= 1 || (dots.len() == 2 && dots[0].len() == 0) {
        None
    } else {
        Some(dots.last())
    }
}

/// What a file is, by what follows the last dot of its name.
pub open spec fn kind_by(ext: Seq<char>) -> Seq<char> {
    if ext == "js"@ {
        "application/javascript; charset=utf-8"@
    } else if ext == "css"@ {
        "text/css; charset=utf-8"@
    } else if ext == "json"@ || ext == "map"@ {
        "application/json; charset=utf-8"@
    } else if ext == "svg"@ {
        "image/svg+xml"@
    } else if ext == "png"@ {
        "image/png"@
    } else if ext == "ico"@ {
        "image/x-icon"@
    } else if ext == "woff2"@ {
        "font/woff2"@
    } else if ext == "woff"@ {
        "font/woff"@
    } else if ext == "ttf"@ {
        "font/ttf"@
    } else if ext == "xml"@ {
        "application/xml"@
    } else if ext == "txt"@ {
        "text/plain; charset=utf-8"@
    } else {
        "application/octet-stream"@
    }
}

/// What a file is, by the name it has.
pub open spec fn kind_of_file(relative: Seq<char>) -> Seq<char> {
    match extension(cut(relative, '/').last()) {
        Some(e) => kind_by(e),
        None => "application/octet-stream"@,
    }
}

/// The compressed copy of a file beside it.
pub open spec fn beside(path: Seq<char>, relative: Seq<char>, suffix: Seq<char>) -> Seq<char> {
    match extension(cut(relative, '/').last()) {
        Some(e) => path + suffix,
        None => path + "."@ + suffix,
    }
}

/// The compressed copies of a file a reader takes: the distribution ships each
/// bundle compressed as well.
pub open spec fn copies(path: Seq<char>, relative: Seq<char>, accepts: Seq<char>) -> Seq<
    (Seq<char>, Seq<char>),
> {
    let br = if first_in(accepts, "br"@) is Some {
        seq![(beside(path, relative, ".br"@), "br"@)]
    } else {
        Seq::empty()
    };
    if first_in(accepts, "gz"@) is Some {
        br.push((beside(path, relative, ".gz"@), "gzip"@))
    } else {
        br
    }
}

/// The file a URL names under a directory, if it names one there. A stylesheet
/// that is moved onto the brand's colours is read uncompressed, because the
/// point is to change what is in it.
pub open spec fn found(
    base: Seq<char>,
    relative: Seq<char>,
    accepts: Seq<char>,
    branded: bool,
) -> Option<ServedV> {
    let path = base + "/"@ + relative;
    let themed = branded && ends(relative, ".css"@);
    if !stays(relative) {
        None
    } else {
        Some(
            ServedV {
                path,
                kind: kind_of_file(relative),
                compressed: if themed {
                    Seq::empty()
                } else {
                    copies(path, relative, accepts)
                },
                themed,
            },
        )
    }
}

fn find_extension(name: &str) -> (r: Option<String>)
    ensures
        r.deep_view() == extension(name@),
{
    let dots = split(name, '.');
    let n: usize = dots.len();
    assert(dots.deep_view().len() == n);
    assert(dots.deep_view()[0] == dots@[0]@);
    if n <= 1 || (n == 2 && dots[0].as_str().is_empty()) {
        None
    } else {
        assert(dots.deep_view().last() == dots@[n - 1]@);
        Some(dots[n - 1].clone())
    }
}

fn kind_for(ext: &str) -> (r: &'static str)
    ensures
        r@ == kind_by(ext@),
{
    if same(ext, "js") {
        "application/javascript; charset=utf-8"
    } else if same(ext, "css") {
        "text/css; charset=utf-8"
    } else if same(ext, "json") || same(ext, "map") {
        "application/json; charset=utf-8"
    } else if same(ext, "svg") {
        "image/svg+xml"
    } else if same(ext, "png") {
        "image/png"
    } else if same(ext, "ico") {
        "image/x-icon"
    } else if same(ext, "woff2") {
        "font/woff2"
    } else if same(ext, "woff") {
        "font/woff"
    } else if same(ext, "ttf") {
        "font/ttf"
    } else if same(ext, "xml") {
        "application/xml"
    } else if same(ext, "txt") {
        "text/plain; charset=utf-8"
    } else {
        "application/octet-stream"
    }
}

/// One file under a directory, refusing anything that climbs out of it. A URL
/// is not a path: `..` in one is a request for a file the server was never
/// asked to publish, and the answer is that there is no such file.
pub fn file(base: &str, relative: &str, accepts: &str, branded: bool) -> (r: Option<Served>)
    ensures
        r.deep_view() == found(base@, relative@, accepts@, branded),
{
    let parts = split(relative, '/');
    let ghost pv = parts.deep_view();
    for i in 0..parts.len()
        invariant
            pv == parts.deep_view(),
            pv == cut(relative@, '/'),
            forall|j: int| 0 <= j < i ==> is_name(#[trigger] pv[j]),
    {
        assert(pv[i as int] == parts@[i as int]@);
        let p = parts[i].as_str();
        if p.is_empty() || same(p, ".") || same(p, "..") {
            assert(!is_name(cut(relative@, '/')[i as int]));
            return None;
        }
    }
    let n: usize = parts.len();
    assert(pv.last() == parts@[n - 1]@);
    let ext = find_extension(parts[n - 1].as_str());
    let path = base.to_owned().concat("/").concat(relative);
    let themed = branded && strip_suffix(relative, ".css").is_some();
    let mut compressed: Vec<(String, &'static str)> = Vec::new();
    assert(compressed.deep_view() =~= Seq::<(Seq<char>, Seq<char>)>::empty());
    let beside_it = match &ext {
        Some(_) => path.clone(),
        None => path.clone().concat("."),
    };
    if !themed {
        if has_text_in(accepts, "br") {
            push_to(&mut compressed, (beside_it.clone().concat(".br"), "br"));
        }
        if has_text_in(accepts, "gz") {
            push_to(&mut compressed, (beside_it.concat(".gz"), "gzip"));
        }
        assert(compressed.deep_view() =~= copies(path@, relative@, accepts@));
    }
    let kind = match &ext {
        Some(e) => kind_for(e.as_str()),
        None => "application/octet-stream",
    };
    Some(Served { path, kind, compressed, themed })
}

// ---- which directory -----------------------------------------------------------

impl ConsoleV {
    /// The file a URL under the bundles names. Three kinds of bundle live in
    /// three places, and the URL says which without saying where.
    pub open spec fn bundled(self, rest: Seq<char>, accepts: Seq<char>) -> Option<ServedV> {
        match halves(rest, "/"@) {
            None => None,
            Some((which, relative)) => if which == "core"@ {
                found(self.home + "/src/core/target/public"@, relative, accepts, self.branded)
            } else if which == "osd-ui-shared-deps"@ {
                found(
                    self.home + "/node_modules/@osd/ui-shared-deps/target"@,
                    relative,
                    accepts,
                    self.branded,
                )
            } else if which == "plugin"@ {
                match halves(relative, "/"@) {
                    Some((id, of_plugin)) => match lookup(self.plugin_dirs, id) {
                        Some(dir) => found(
                            dir + "/target/public"@,
                            of_plugin,
                            accepts,
                            self.branded,
                        ),
                        None => None,
                    },
                    None => None,
                }
            } else {
                None
            },
        }
    }
}

impl Console {
    /// The file a URL under the bundles names.
    pub fn bundle(&self, rest: &str, accepts: &str) -> (r: Option<Served>)
        ensures
            r.deep_view() == self.deep_view().bundled(rest@, accepts@),
    {
        let (which, relative) = match split_once(rest, "/") {
            Some(p) => p,
            None => {
                return None;
            },
        };
        if same(which.as_str(), "core") {
            let base = self.home.clone().concat("/src/core/target/public");
            file(base.as_str(), relative.as_str(), accepts, self.branded)
        } else if same(which.as_str(), "osd-ui-shared-deps") {
            let base = self.home.clone().concat("/node_modules/@osd/ui-shared-deps/target");
            file(base.as_str(), relative.as_str(), accepts, self.branded)
        } else if same(which.as_str(), "plugin") {
            match split_once(relative.as_str(), "/") {
                Some((id, of_plugin)) => match get(&self.plugin_dirs, id.as_str()) {
                    Some(dir) => {
                        let base = dir.clone().concat("/target/public");
                        file(base.as_str(), of_plugin.as_str(), accepts, self.branded)
                    },
                    None => None,
                },
                None => None,
            }
        } else {
            None
        }
    }

    /// The file a URL under a plugin's assets names: what a plugin ships beside
    /// its bundles and shows on its own pages.
    pub fn plugin_asset(&self, id: &str, rest: &str, accepts: &str) -> (r: Option<Served>)
        ensures
            r.deep_view() == match lookup(self.deep_view().plugin_dirs, id@) {
                Some(dir) => found(dir + "/public/assets"@, rest@, accepts@, false),
                None => None,
            },
    {
        match get(&self.plugin_dirs, id) {
            Some(dir) => {
                let base = dir.clone().concat("/public/assets");
                file(base.as_str(), rest, accepts, false)
            },
            None => None,
        }
    }

    /// The file a URL under the theme's own directory names.
    pub fn ui_framework(&self, rest: &str, accepts: &str) -> (r: Option<Served>)
        ensures
            r.deep_view() == found(
                self.deep_view().home + "/node_modules/@osd/ui-framework/dist"@,
                rest@,
                accepts@,
                self.branded,
            ),
    {
        let base = self.home.clone().concat("/node_modules/@osd/ui-framework/dist");
        file(base.as_str(), rest, accepts, self.branded)
    }

    /// The file a URL under the console's own assets names: the favicons, the
    /// logos, the fonts.
    pub fn ui_asset(&self, rest: &str, accepts: &str) -> (r: Option<Served>)
        ensures
            r.deep_view() == found(
                self.deep_view().home + "/src/core/server/core_app/assets"@,
                rest@,
                accepts@,
                false,
            ),
    {
        let base = self.home.clone().concat("/src/core/server/core_app/assets");
        file(base.as_str(), rest, accepts, false)
    }

    /// Where the messages of a language are.
    pub fn translation_file(&self, locale: &str) -> (r: String)
        ensures
            r@ == self.home@ + "/src/core/server/i18n/"@ + tag(locale@) + ".json"@,
    {
        let named = if is_a_tag(locale) {
            locale
        } else {
            "en"
        };
        self.home.clone().concat("/src/core/server/i18n/").concat(named).concat(".json")
    }
}

// ---- translations --------------------------------------------------------------

pub open spec fn tag_char(c: char) -> bool {
    ('a' <= c && c <= 'z') || ('A' <= c && c <= 'Z') || ('0' <= c && c <= '9') || c == '-' || c
        == '_'
}

pub open spec fn is_tag(locale: Seq<char>) -> bool {
    forall|i: int| 0 <= i < locale.len() ==> tag_char(#[trigger] locale[i])
}

/// A locale is a tag, not a path: one that is none is English.
pub open spec fn tag(locale: Seq<char>) -> Seq<char> {
    if is_tag(locale) {
        locale
    } else {
        "en"@
    }
}

fn is_a_tag(locale: &str) -> (r: bool)
    ensures
        r == is_tag(locale@),
{
    let v = chars_of(locale);
    for i in 0..v.len()
        invariant
            v@ == locale@,
            forall|j: int| 0 <= j < i ==> tag_char(#[trigger] v@[j]),
    {
        let c = v[i];
        if !(('a' <= c && c <= 'z') || ('A' <= c && c <= 'Z') || ('0' <= c && c <= '9') || c == '-'
            || c == '_') {
            assert(!tag_char(locale@[i as int]));
            return false;
        }
    }
    true
}

/// The messages of a language, as the front end takes them.
pub open spec fn translated(locale: Seq<char>, read: Option<JsonV>) -> JsonV {
    let messages = match read {
        Some(j) => match crate::json::member(j, "messages"@) {
            Some(m) => m,
            None => JsonV::Object(no_fields()),
        },
        None => JsonV::Object(no_fields()),
    };
    JsonV::Object(
        no_fields().push(
            (
                "translations"@,
                JsonV::Object(
                    no_fields().push(("locale"@, JsonV::Text(locale))).push(
                        ("messages"@, messages),
                    ),
                ),
            ),
        ).push(("warning"@, JsonV::Null)),
    )
}

/// The messages the front end shows, in the language asked for, out of what the
/// language's file reads as. A language nobody translated is answered the way
/// English is, with nothing to substitute.
pub fn translations(locale: &str, read: Option<&Json>) -> (r: Json)
    ensures
        r.deep_view() == translated(locale@, read.deep_view()),
{
    let messages = match read {
        Some(j) => match j.get("messages") {
            Some(m) => m.clone(),
            None => object(fields()),
        },
        None => object(fields()),
    };
    let mut inner = fields();
    field(&mut inner, "locale", text(locale));
    field(&mut inner, "messages", messages);
    let mut o = fields();
    field(&mut o, "translations", object(inner));
    field(&mut o, "warning", Json::Null);
    object(o)
}

/// The file that is handed back is under the directory it was looked for in,
/// and no part of its path leads out of it.
pub proof fn law_a_file_is_under_its_directory(
    base: Seq<char>,
    relative: Seq<char>,
    accepts: Seq<char>,
    branded: bool,
)
    ensures
        match found(base, relative, accepts, branded) {
            Some(f) => f.path == base + "/"@ + joined(cut(relative, '/'), "/"@) && forall|i: int|
                0 <= i < cut(relative, '/').len() ==> #[trigger] cut(relative, '/')[i] != ".."@,
            None => true,
        },
{
    crate::text::lemma_joined_cut_by(relative, '/');
    reveal_strlit("/");
    assert("/"@ =~= seq!['/']);
}

/// A language's file is never one outside the directory the languages are in.
pub proof fn law_a_language_is_no_path(locale: Seq<char>)
    ensures
        !tag(locale).contains('/'),
        !tag(locale).contains('.'),
{
    reveal_strlit("en");
    if is_tag(locale) {
        if locale.contains('/') {
            let i = choose|i: int| 0 <= i < locale.len() && locale[i] == '/';
            assert(tag_char(locale[i]));
        }
        if locale.contains('.') {
            let i = choose|i: int| 0 <= i < locale.len() && locale[i] == '.';
            assert(tag_char(locale[i]));
        }
    }
}

} // verus!
