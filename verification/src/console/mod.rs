//! The console: the front end a node serves and what it is asked.

pub mod assets;
pub mod brand;
pub mod failed;
pub mod names;
pub mod objects;
pub mod passage;
pub mod query;
pub mod recolour;
pub mod upload;

use vstd::prelude::*;

use crate::api::answer::{at, at_key, said, set_member, set_to, text_at};
use crate::api::snapshot::create::copy_members;
use crate::json::{fields, flag, hex_char, hex_digit, no_fields, object, Json, JsonV};
use crate::list::{push_to, put, with};
use crate::number::Millis;
use crate::text::{cut, halves, part, same, split, split_once, string_of, trim, trimmed};
use crate::time::{iso, iso_millis};

verus! {

// ---- settings an operator fixed ------------------------------------------------

/// A pair of a key and a value, each without the white space around it; nothing
/// where there is no key or no value.
pub open spec fn pair(s: Seq<char>) -> Option<(Seq<char>, Seq<char>)> {
    match halves(s, "="@) {
        Some((key, value)) => if trimmed(key).len() > 0 {
            Some((trimmed(key), trimmed(value)))
        } else {
            None
        },
        None => None,
    }
}

/// The pairs of the first parts of a comma list.
pub open spec fn pairs(parts: Seq<Seq<char>>, n: nat) -> Seq<(Seq<char>, Seq<char>)>
    decreases n,
{
    if n == 0 {
        Seq::empty()
    } else {
        match pair(parts[n - 1]) {
            Some(p) => pairs(parts, (n - 1) as nat).push(p),
            None => pairs(parts, (n - 1) as nat),
        }
    }
}

/// The `key=value` pairs of a comma list.
pub open spec fn pairs_in(listed: Seq<char>) -> Seq<(Seq<char>, Seq<char>)> {
    pairs(cut(listed, ','), cut(listed, ',').len())
}

/// The `key=value` pairs of a comma list.
pub fn override_pairs(listed: &str) -> (r: Vec<(String, String)>)
    ensures
        r.deep_view() == pairs_in(listed@),
{
    let parts = split(listed, ',');
    let ghost pv = parts.deep_view();
    let mut r: Vec<(String, String)> = Vec::new();
    assert(r.deep_view() =~= Seq::<(Seq<char>, Seq<char>)>::empty());
    for i in 0..parts.len()
        invariant
            pv == parts.deep_view(),
            r.deep_view() == pairs(pv, i as nat),
    {
        assert(pv[i as int] == parts@[i as int]@);
        if let Some((key, value)) = split_once(parts[i].as_str(), "=") {
            let k = trim(key.as_str());
            if !k.as_str().is_empty() {
                push_to(&mut r, (k, trim(value.as_str())));
            }
        }
    }
    assert(pv.len() == parts@.len());
    r
}

/// A value as JSON where it reads as JSON, and the text it is otherwise.
pub open spec fn read_as(value: Seq<char>, read: Option<JsonV>) -> JsonV {
    match read {
        Some(j) => j,
        None => JsonV::Text(value),
    }
}

/// The settings the first pairs fix, in the order of their names; a name given
/// twice is what it was given last.
pub open spec fn overrides(
    given: Seq<(Seq<char>, Seq<char>)>,
    read: Seq<Option<JsonV>>,
    n: nat,
) -> Seq<(Seq<char>, JsonV)>
    decreases n,
{
    if n == 0 {
        no_fields()
    } else {
        with(
            overrides(given, read, (n - 1) as nat),
            given[n - 1].0,
            read_as(
                given[n - 1].1,
                if n <= read.len() {
                    read[n - 1]
                } else {
                    None
                },
            ),
        )
    }
}

/// Settings an operator fixed when the server was started, which no reader may
/// change: the pairs given, and what each value reads as where it is JSON -- so
/// that `false` is a boolean and `Asia/Bangkok` is a string without anybody
/// having to quote it on a command line that would eat the quotes.
pub fn overrides_from(given: &Vec<(String, String)>, read: &Vec<Option<Json>>) -> (r: Vec<
    (String, Json),
>)
    ensures
        r.deep_view() == overrides(given.deep_view(), read.deep_view(), given@.len()),
{
    let ghost gv = given.deep_view();
    let ghost rv = read.deep_view();
    let mut r = fields();
    for i in 0..given.len()
        invariant
            gv == given.deep_view(),
            rv == read.deep_view(),
            r.deep_view() == overrides(gv, rv, i as nat),
    {
        assert(gv[i as int] == (given@[i as int].0@, given@[i as int].1@));
        let mut value = Json::Text(given[i].1.clone());
        if i < read.len() {
            assert(rv[i as int] == read@[i as int].deep_view());
            if let Some(j) = &read[i] {
                value = j.clone();
            }
        }
        put(&mut r, given[i].0.clone(), value);
    }
    r
}

// ---- what a server calls itself ------------------------------------------------

/// What the first of a server's names starts from: the time, the process and
/// how many names were asked for, each in its own place.
pub open spec fn first_seed(now: u64, pid: u32, asked: u64) -> u64 {
    now ^ ((pid as u64) << 32u64) ^ (((asked as nat * 0x9E37_79B9_7F4A_7C15) % 0x1_0000_0000_0000_0000) as u64)
}

/// What the next digit of a name is made from.
pub open spec fn next_seed(seed: u64) -> u64 {
    ((seed as nat * 6364136223846793005 + 1442695040888963407) % 0x1_0000_0000_0000_0000) as u64
}

pub open spec fn seed_at(seed: u64, n: nat) -> u64
    decreases n,
{
    if n == 0 {
        seed
    } else {
        next_seed(seed_at(seed, (n - 1) as nat))
    }
}

/// The digits of a name.
pub open spec fn digits_of(seed: u64) -> Seq<char> {
    Seq::new(32, |i: int| hex_digit((seed_at(seed, (i + 1) as nat) as int / 0x2_0000_0000) % 16))
}

/// A name of five groups of digits.
pub open spec fn name_of(hex: Seq<char>) -> Seq<char> {
    hex.subrange(0, 8) + "-"@ + hex.subrange(8, 12) + "-"@ + hex.subrange(12, 16) + "-"@
        + hex.subrange(16, 20) + "-"@ + hex.subrange(20, 32)
}

fn group(hex: &Vec<char>, from: usize, to: usize) -> (r: String)
    requires
        from <= to <= hex@.len(),
    ensures
        r@ == hex@.subrange(from as int, to as int),
{
    string_of(&part(hex, from, to))
}

/// A name for a server, made from the time it started, its process and how
/// many names were asked for: the clock may not move between two of them.
pub fn uuid_of(now: u64, pid: u32, asked: u64) -> (r: String)
    ensures
        r@ == name_of(digits_of(first_seed(now, pid, asked))),
{
    let spread: u128 = (asked as u128 * 0x9E37_79B9_7F4A_7C15u128) % 0x1_0000_0000_0000_0000u128;
    let start: u64 = now ^ ((pid as u64) << 32u64) ^ (spread as u64);
    let mut seed: u64 = start;
    let mut hex: Vec<char> = Vec::new();
    for i in 0..32usize
        invariant
            hex@.len() == i,
            seed == seed_at(start, i as nat),
            forall|j: int| 0 <= j < i ==> hex@[j] == digits_of(start)[j],
    {
        let wide: u128 = (seed as u128 * 6364136223846793005u128 + 1442695040888963407u128)
            % 0x1_0000_0000_0000_0000u128;
        seed = wide as u64;
        assert(seed == seed_at(start, (i + 1) as nat));
        hex.push(hex_char(((seed / 0x2_0000_0000) % 16) as u32));
    }
    assert(hex@ =~= digits_of(start));
    group(&hex, 0, 8).concat("-").concat(group(&hex, 8, 12).as_str()).concat("-").concat(
        group(&hex, 12, 16).as_str(),
    ).concat("-").concat(group(&hex, 16, 20).as_str()).concat("-").concat(
        group(&hex, 20, 32).as_str(),
    )
}

/// A name is thirty-two lower-case hexadecimal digits in five groups, a dash
/// between each two and nowhere else.
pub proof fn law_a_name_is_shaped_like_one(now: u64, pid: u32, asked: u64)
    ensures
        ({
            let name = name_of(digits_of(first_seed(now, pid, asked)));
            &&& name.len() == 36
            &&& forall|i: int|
                0 <= i < 36 ==> if i == 8 || i == 13 || i == 18 || i == 23 {
                    #[trigger] name[i] == '-'
                } else {
                    ('0' <= name[i] && name[i] <= '9') || ('a' <= name[i] && name[i] <= 'f')
                }
        }),
{
    reveal_strlit("-");
    let hex = digits_of(first_seed(now, pid, asked));
    let name = name_of(hex);
    assert forall|j: int| 0 <= j < 32 implies ('0' <= #[trigger] hex[j] && hex[j] <= '9') || ('a'
        <= hex[j] && hex[j] <= 'f') by {
        let n = (seed_at(first_seed(now, pid, asked), (j + 1) as nat) as int / 0x2_0000_0000) % 16;
        assert(hex[j] == hex_digit(n));
    }
    assert forall|i: int| 0 <= i < 36 implies if i == 8 || i == 13 || i == 18 || i == 23 {
        #[trigger] name[i] == '-'
    } else {
        ('0' <= name[i] && name[i] <= '9') || ('a' <= name[i] && name[i] <= 'f')
    } by {
        let before: int = if i > 23 {
            4
        } else if i > 18 {
            3
        } else if i > 13 {
            2
        } else if i > 8 {
            1
        } else {
            0
        };
        if !(i == 8 || i == 13 || i == 18 || i == 23) {
            assert(name[i] == hex[i - before]);
        }
    }
}

// ---- what a caller may do ------------------------------------------------------

/// One entry for each of the first applications asked about.
pub open spec fn links(applications: Seq<Seq<char>>, n: nat) -> Seq<(Seq<char>, JsonV)>
    decreases n,
{
    if n == 0 {
        no_fields()
    } else {
        with(links(applications, (n - 1) as nat), applications[n - 1], JsonV::Bool(true))
    }
}

/// What a caller may do: what the plugins decided, and one entry for each
/// application the caller asked about.
pub open spec fn capable(pinned: Seq<(Seq<char>, JsonV)>, applications: Seq<Seq<char>>) -> JsonV {
    JsonV::Object(
        set_to(pinned, "navLinks"@, JsonV::Object(links(applications, applications.len()))),
    )
}

/// Where the console's front end is, and what its server tells it.
pub struct Console {
    /// the distribution: the built bundles, the assets and the plugins
    pub home: String,
    /// which version it is of
    pub version: String,
    /// what the plugins of it let a caller do
    pub pinned: Vec<(String, Json)>,
    /// the path every URL is under, nothing for none
    pub base_path: String,
    /// settings an operator fixed, which no reader may change
    pub overrides: Vec<(String, Json)>,
    /// whether the status page answers without a sign-in
    pub anonymous_status: bool,
    /// the shape the console's index should have
    pub mapping: Json,
    /// the sample data sets the home page offers
    pub sample_data: Vec<Json>,
    /// what this server calls itself, for as long as it runs
    pub uuid: String,
    /// where each plugin's files are, by the id the browser asks for
    pub plugin_dirs: Vec<(String, String)>,
    /// whether stylesheets are moved onto the brand's colours
    pub branded: bool,
}

#[verifier::ext_equal]
pub struct ConsoleV {
    pub home: Seq<char>,
    pub version: Seq<char>,
    pub pinned: Seq<(Seq<char>, JsonV)>,
    pub base_path: Seq<char>,
    pub overrides: Seq<(Seq<char>, JsonV)>,
    pub anonymous_status: bool,
    pub mapping: JsonV,
    pub sample_data: Seq<JsonV>,
    pub uuid: Seq<char>,
    pub plugin_dirs: Seq<(Seq<char>, Seq<char>)>,
    pub branded: bool,
}

impl DeepView for Console {
    type V = ConsoleV;

    open spec fn deep_view(&self) -> ConsoleV {
        ConsoleV {
            home: self.home@,
            version: self.version@,
            pinned: self.pinned.deep_view(),
            base_path: self.base_path@,
            overrides: self.overrides.deep_view(),
            anonymous_status: self.anonymous_status,
            mapping: self.mapping.deep_view(),
            sample_data: self.sample_data.deep_view(),
            uuid: self.uuid@,
            plugin_dirs: self.plugin_dirs.deep_view(),
            branded: self.branded,
        }
    }
}

/// What was read of a distribution: what it says it is, what its plugins let a
/// caller do, the index its objects are kept in, its sample data and where each
/// of its plugins is.
pub struct Distribution {
    pub package: Json,
    pub pinned: Vec<(String, Json)>,
    pub index: Json,
    pub sample_data: Vec<Json>,
    pub plugin_dirs: Vec<(String, String)>,
}

pub struct DistributionV {
    pub package: JsonV,
    pub pinned: Seq<(Seq<char>, JsonV)>,
    pub index: JsonV,
    pub sample_data: Seq<JsonV>,
    pub plugin_dirs: Seq<(Seq<char>, Seq<char>)>,
}

impl DeepView for Distribution {
    type V = DistributionV;

    open spec fn deep_view(&self) -> DistributionV {
        DistributionV {
            package: self.package.deep_view(),
            pinned: self.pinned.deep_view(),
            index: self.index.deep_view(),
            sample_data: self.sample_data.deep_view(),
            plugin_dirs: self.plugin_dirs.deep_view(),
        }
    }
}

/// How a console is started: where its distribution is, the path it is served
/// under, what an operator fixed, and what it calls itself. What is said of the
/// status page and of the brand is as the operator said it.
pub struct Start {
    pub home: String,
    pub base_path: String,
    pub overrides: Vec<(String, Json)>,
    pub anonymous_status: Option<String>,
    pub branding: Option<String>,
    pub uuid: String,
}

/// What a console comes to, or that its distribution says no version.
pub open spec fn opened(s: Start, d: DistributionV) -> Result<ConsoleV, Seq<char>> {
    match said(d.package, "version"@) {
        None => Err(s.home@ + "/package.json says no version"@),
        Some(version) => Ok(
            ConsoleV {
                home: s.home@,
                version,
                pinned: d.pinned,
                base_path: s.base_path@,
                overrides: s.overrides.deep_view(),
                anonymous_status: s.anonymous_status.deep_view() != Some("false"@),
                mapping: at(d.index, "mappings"@),
                sample_data: d.sample_data,
                uuid: s.uuid@,
                plugin_dirs: d.plugin_dirs,
                branded: brand::is_wanted(s.branding.deep_view()),
            },
        ),
    }
}

impl Console {
    /// A console in front of a distribution. It has to say which version it is:
    /// what goes with another one names files which are not there, and the
    /// browser's failure would say nothing about why.
    pub fn open(s: Start, d: Distribution) -> (r: Result<Console, String>)
        ensures
            match r {
                Ok(c) => opened(s, d.deep_view()) == Ok::<ConsoleV, Seq<char>>(c.deep_view()),
                Err(why) => opened(s, d.deep_view()) == Err::<ConsoleV, Seq<char>>(why@),
            },
    {
        let version = match text_at(&d.package, "version") {
            Some(v) => v,
            None => {
                return Err(s.home.concat("/package.json says no version"));
            },
        };
        let anonymous_status = match &s.anonymous_status {
            Some(v) => !same(v.as_str(), "false"),
            None => true,
        };
        Ok(
            Console {
                home: s.home,
                version,
                pinned: d.pinned,
                base_path: s.base_path,
                overrides: s.overrides,
                anonymous_status,
                mapping: at_key(&d.index, "mappings"),
                sample_data: d.sample_data,
                uuid: s.uuid,
                plugin_dirs: d.plugin_dirs,
                branded: brand::wanted(&s.branding),
            },
        )
    }

    /// What this server calls itself.
    pub fn uuid(&self) -> (r: &str)
        ensures
            r@ == self.deep_view().uuid,
    {
        self.uuid.as_str()
    }

    /// What a caller may do. Most of it is what the plugins between them
    /// decided; the links are the request's shape rather than the server's.
    pub fn capabilities(&self, applications: &Vec<String>) -> (r: Json)
        ensures
            r.deep_view() == capable(self.deep_view().pinned, applications.deep_view()),
    {
        let ghost av = applications.deep_view();
        let mut all = fields();
        for i in 0..applications.len()
            invariant
                av == applications.deep_view(),
                all.deep_view() == links(av, i as nat),
        {
            assert(av[i as int] == applications@[i as int]@);
            put(&mut all, applications[i].clone(), flag(true));
        }
        assert(av.len() == applications@.len());
        let mut found = copy_members(&self.pinned);
        set_member(&mut found, "navLinks", object(all));
        object(found)
    }
}

/// Now, as a saved object records the time it was written.
pub fn now(ms: Millis) -> (r: String)
    ensures
        r@ == iso(ms as nat),
{
    iso_millis(ms)
}

} // verus!
