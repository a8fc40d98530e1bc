//! `GET /_prometheus/metrics` -- what this node is doing, in the format a
//! scraper reads.
//!
//! The numbers are not computed again here. The node's own statistics are
//! asked for the way any caller asks for them, and rendered: one source of
//! truth, in two formats. The names are the plugin's, `opensearch_` and all,
//! so a dashboard written for OpenSearch reads this node without being
//! rewritten.

use vstd::prelude::*;

use crate::breaker::{Breaker, BreakerV};
use crate::json::{member, Json, JsonV, Number, NumberV};
use crate::list::{lemma_take, push_to};
use crate::number::{fraction, parse_fraction};
use crate::text::{chars_of, cut, dec, decimal, part, same, split, string_of};

verus! {

// ---- readings ------------------------------------------------------------------

/// A number as it is written out: whether it is below nothing, the figures
/// before the point and those behind it.
#[derive(Debug, PartialEq, Eq)]
pub struct Figure {
    pub below: bool,
    pub whole: String,
    pub rest: String,
}

#[verifier::ext_equal]
pub struct FigureV {
    pub below: bool,
    pub whole: Seq<char>,
    pub rest: Seq<char>,
}

impl DeepView for Figure {
    type V = FigureV;

    open spec fn deep_view(&self) -> FigureV {
        FigureV { below: self.below, whole: self.whole@, rest: self.rest@ }
    }
}

/// Figures without the noughts before them, one nought where there is nothing else.
pub open spec fn without_leading(s: Seq<char>) -> Seq<char>
    decreases s.len(),
{
    if s.len() == 0 {
        seq!['0']
    } else if s.len() > 1 && s[0] == '0' {
        without_leading(s.skip(1))
    } else {
        s
    }
}

/// Figures without the noughts behind them.
pub open spec fn without_trailing(s: Seq<char>) -> Seq<char>
    decreases s.len(),
{
    if s.len() > 0 && s.last() == '0' {
        without_trailing(s.drop_last())
    } else {
        s
    }
}

/// A number in the fewest figures.
pub open spec fn figure(below: bool, whole: Seq<char>, rest: Seq<char>) -> FigureV {
    FigureV { below, whole: without_leading(whole), rest: without_trailing(rest) }
}

pub open spec fn nothing() -> FigureV {
    figure(false, "0"@, ""@)
}

/// A number out of the statistics, whichever way it was written; nothing when
/// it is not there.
pub open spec fn reading(v: Option<JsonV>) -> FigureV {
    match v {
        Some(JsonV::Number(NumberV::Whole(n))) => figure(false, dec(n as nat), ""@),
        Some(JsonV::Number(NumberV::Below(n))) => if n < 0 {
            figure(true, dec((-n) as nat), ""@)
        } else {
            figure(false, dec(n as nat), ""@)
        },
        Some(JsonV::Number(NumberV::Decimal(s))) => read_figure(s),
        Some(JsonV::Text(s)) => read_figure(s),
        _ => nothing(),
    }
}

pub open spec fn read_figure(s: Seq<char>) -> FigureV {
    match fraction(s) {
        Some((below, whole, rest)) => figure(below, whole, rest),
        None => nothing(),
    }
}

/// A number as it is shown: a whole one as one, `1` rather than `1.0`.
pub open spec fn shown(f: FigureV) -> Seq<char> {
    let sign = if f.below && !(f.whole == "0"@ && f.rest.len() == 0) {
        "-"@
    } else {
        ""@
    };
    if f.rest.len() == 0 {
        sign + f.whole
    } else {
        sign + f.whole + "."@ + f.rest
    }
}

/// A thousandth of a number.
pub open spec fn thousandth(f: FigureV) -> FigureV {
    let w = seq!['0', '0', '0'] + f.whole;
    figure(f.below, w.take(w.len() - 3), w.skip(w.len() - 3) + f.rest)
}

/// What is under a path of names with a slash before each.
pub open spec fn at_path(v: JsonV, parts: Seq<Seq<char>>) -> Option<JsonV>
    decreases parts.len(),
{
    if parts.len() == 0 {
        Some(v)
    } else {
        match member(v, parts[0]) {
            Some(next) => at_path(next, parts.skip(1)),
            None => None,
        }
    }
}

/// What is under a path of names with a slash before each.
pub open spec fn pointed(v: JsonV, path: Seq<char>) -> Option<JsonV> {
    at_path(v, cut(path, '/').skip(1))
}

fn strip_leading(v: &Vec<char>) -> (r: String)
    ensures
        r@ == without_leading(v@),
{
    if v.len() == 0 {
        let mut s = String::new();
        s.push('0');
        assert(s@ =~= seq!['0']);
        return s;
    }
    let mut i: usize = 0;
    assert(v@.skip(0) =~= v@);
    while i < v.len() - 1 && v[i] == '0'
        invariant
            i < v@.len(),
            without_leading(v@) == without_leading(v@.skip(i as int)),
        decreases v@.len() - i,
    {
        assert(v@.skip(i as int).skip(1) =~= v@.skip(i + 1));
        i += 1;
    }
    let p = part(v, i, v.len());
    assert(p@ =~= v@.skip(i as int));
    string_of(&p)
}

fn strip_trailing(v: &Vec<char>) -> (r: String)
    ensures
        r@ == without_trailing(v@),
{
    let mut i: usize = v.len();
    assert(v@.take(i as int) =~= v@);
    while i > 0 && v[i - 1] == '0'
        invariant
            i <= v@.len(),
            without_trailing(v@) == without_trailing(v@.take(i as int)),
        decreases i,
    {
        assert(v@.take(i as int).drop_last() =~= v@.take(i - 1));
        i -= 1;
    }
    let p = part(v, 0, i);
    assert(p@ =~= v@.take(i as int));
    string_of(&p)
}

fn make_figure(below: bool, whole: &str, rest: &str) -> (f: Figure)
    ensures
        f.deep_view() == figure(below, whole@, rest@),
{
    Figure {
        below,
        whole: strip_leading(&chars_of(whole)),
        rest: strip_trailing(&chars_of(rest)),
    }
}

impl Figure {
    /// A whole number.
    pub fn whole(n: u64) -> (f: Figure)
        ensures
            f.deep_view() == figure(false, dec(n as nat), ""@),
    {
        make_figure(false, decimal(n).as_str(), "")
    }

    /// A decimal number as it is written, nothing when it is none.
    pub fn read(s: &str) -> (f: Figure)
        ensures
            f.deep_view() == read_figure(s@),
    {
        match parse_fraction(s) {
            Some((below, whole, rest)) => make_figure(
                below,
                string_of(&whole).as_str(),
                string_of(&rest).as_str(),
            ),
            None => make_figure(false, "0", ""),
        }
    }

    /// The number as it is shown.
    pub fn show(&self) -> (s: String)
        ensures
            s@ == shown(self.deep_view()),
    {
        let mut s = if self.below && !(same(self.whole.as_str(), "0")
            && self.rest.as_str().is_empty()) {
            "-".to_owned()
        } else {
            "".to_owned()
        };
        s.append(self.whole.as_str());
        if !self.rest.as_str().is_empty() {
            s.append(".");
            s.append(self.rest.as_str());
        }
        s
    }

    /// A thousandth of the number.
    pub fn thousandth(&self) -> (f: Figure)
        ensures
            f.deep_view() == thousandth(self.deep_view()),
    {
        let mut w: Vec<char> = Vec::new();
        w.push('0');
        w.push('0');
        w.push('0');
        let figures = chars_of(self.whole.as_str());
        let ghost head = w@;
        assert(head =~= seq!['0', '0', '0']);
        for i in 0..figures.len()
            invariant
                w@ == head + figures@.take(i as int),
        {
            w.push(figures[i]);
            assert(w@ =~= head + figures@.take(i + 1));
        }
        assert(figures@.take(figures@.len() as int) =~= figures@);
        let at: usize = w.len() - 3;
        let front = part(&w, 0, at);
        let back = part(&w, at, w.len());
        assert(front@ =~= w@.take(at as int));
        assert(back@ =~= w@.skip(at as int));
        make_figure(
            self.below,
            string_of(&front).as_str(),
            string_of(&back).concat(self.rest.as_str()).as_str(),
        )
    }
}

fn walk_path<'a>(v: &'a Json, parts: &Vec<String>, from: usize) -> (r: Option<&'a Json>)
    requires
        from <= parts@.len(),
    ensures
        match r {
            Some(j) => at_path(v.deep_view(), parts.deep_view().skip(from as int)) == Some(
                j.deep_view(),
            ),
            None => at_path(v.deep_view(), parts.deep_view().skip(from as int)) is None,
        },
    decreases parts@.len() - from,
{
    let ghost ps = parts.deep_view().skip(from as int);
    if from == parts.len() {
        return Some(v);
    }
    assert(ps[0] == parts@[from as int]@);
    assert(ps.skip(1) =~= parts.deep_view().skip(from + 1));
    match v.get(parts[from].as_str()) {
        Some(next) => walk_path(next, parts, from + 1),
        None => None,
    }
}

/// What is under a path of names with a slash before each.
pub fn pointer<'a>(v: &'a Json, path: &str) -> (r: Option<&'a Json>)
    ensures
        match r {
            Some(j) => pointed(v.deep_view(), path@) == Some(j.deep_view()),
            None => pointed(v.deep_view(), path@) is None,
        },
{
    let parts = split(path, '/');
    walk_path(v, &parts, 1)
}

/// A number out of the statistics, whichever way it was written; nothing when
/// it is not there.
pub fn num(v: &Json, path: &str) -> (f: Figure)
    ensures
        f.deep_view() == reading(pointed(v.deep_view(), path@)),
{
    match pointer(v, path) {
        Some(Json::Number(Number::Whole(n))) => Figure::whole(*n),
        Some(Json::Number(Number::Below(n))) => {
            if *n < 0 {
                let m: u64 = (-(*n as i128)) as u64;
                make_figure(true, decimal(m).as_str(), "")
            } else {
                Figure::whole(*n as u64)
            }
        },
        Some(Json::Number(Number::Decimal(s))) => Figure::read(s.as_str()),
        Some(Json::Text(s)) => Figure::read(s.as_str()),
        _ => make_figure(false, "0", ""),
    }
}

// ---- the format ----------------------------------------------------------------

/// A character of a label value: a backslash, a quote and a line break are
/// written with a backslash before them.
pub open spec fn escaped_char(c: char) -> Seq<char> {
    if c == '\\' {
        seq!['\\', '\\']
    } else if c == '"' {
        seq!['\\', '"']
    } else if c == '\n' {
        seq!['\\', 'n']
    } else {
        seq![c]
    }
}

/// A label value.
pub open spec fn label(s: Seq<char>) -> Seq<char>
    decreases s.len(),
{
    if s.len() == 0 {
        Seq::empty()
    } else {
        label(s.drop_last()) + escaped_char(s.last())
    }
}

/// The exposition format's escaping: a label value may hold none of these.
pub fn escaped(v: &str) -> (r: String)
    ensures
        r@ == label(v@),
{
    let cs = chars_of(v);
    let mut r = String::new();
    for i in 0..cs.len()
        invariant
            r@ == label(cs@.take(i as int)),
    {
        proof {
            lemma_take(cs@, i as int);
        }
        let c = cs[i];
        if c == '\\' {
            r.push('\\');
            r.push('\\');
        } else if c == '"' {
            r.push('\\');
            r.push('"');
        } else if c == '\n' {
            r.push('\\');
            r.push('n');
        } else {
            r.push(c);
        }
        assert(r@ =~= label(cs@.take(i + 1)));
    }
    assert(cs@.take(cs@.len() as int) =~= v@);
    r
}

/// Whether a quote ends a string here, read as a scraper reads it: a
/// backslash takes the character behind it with it.
pub open spec fn breaks_out(s: Seq<char>) -> bool
    decreases s.len(),
{
    if s.len() == 0 {
        false
    } else if s[0] == '\\' {
        if s.len() == 1 {
            true
        } else {
            breaks_out(s.skip(2))
        }
    } else {
        s[0] == '"' || s[0] == '\n' || breaks_out(s.skip(1))
    }
}

proof fn lemma_breaks(a: Seq<char>, b: Seq<char>)
    requires
        !breaks_out(a),
        !breaks_out(b),
    ensures
        !breaks_out(a + b),
    decreases a.len(),
{
    if a.len() == 0 {
        assert(a + b =~= b);
    } else if a[0] == '\\' {
        assert((a + b).skip(2) =~= a.skip(2) + b);
        lemma_breaks(a.skip(2), b);
    } else {
        assert((a + b).skip(1) =~= a.skip(1) + b);
        lemma_breaks(a.skip(1), b);
    }
}

/// A label value cannot break out of its quotes, whatever it holds.
pub proof fn law_a_label_cannot_break_out_of_its_quotes(s: Seq<char>)
    ensures
        !breaks_out(label(s)),
    decreases s.len(),
{
    if s.len() > 0 {
        law_a_label_cannot_break_out_of_its_quotes(s.drop_last());
        let c = s.last();
        let e = escaped_char(c);
        assert(!breaks_out(Seq::<char>::empty()));
        if c == '\\' || c == '"' || c == '\n' {
            assert(e.skip(2) =~= Seq::<char>::empty());
        } else {
            assert(e.skip(1) =~= Seq::<char>::empty());
        }
        lemma_breaks(label(s.drop_last()), e);
    }
}

/// What a label value stands for, read as a scraper reads it: a backslash takes
/// the character behind it with it, and an `n` behind one is a line break.
pub open spec fn label_read(s: Seq<char>) -> Seq<char>
    decreases s.len(),
{
    if s.len() == 0 {
        Seq::empty()
    } else if s[0] == '\\' && s.len() > 1 {
        seq![
            if s[1] == 'n' {
                '\n'
            } else {
                s[1]
            },
        ] + label_read(s.skip(2))
    } else {
        seq![s[0]] + label_read(s.skip(1))
    }
}

proof fn lemma_label_front(s: Seq<char>)
    requires
        s.len() > 0,
    ensures
        label(s) == escaped_char(s[0]) + label(s.skip(1)),
    decreases s.len(),
{
    if s.len() == 1 {
        assert(s.drop_last() =~= Seq::<char>::empty());
        assert(s.skip(1) =~= Seq::<char>::empty());
        assert(label(s) =~= escaped_char(s[0]) + label(s.skip(1)));
    } else {
        lemma_label_front(s.drop_last());
        assert(s.drop_last().skip(1) =~= s.skip(1).drop_last());
        assert(s.skip(1).last() == s.last());
        assert(label(s) =~= escaped_char(s[0]) + label(s.skip(1)));
    }
}

/// A label value that is read back is the one that was written, whatever it
/// holds.
pub proof fn law_a_label_reads_back(s: Seq<char>)
    ensures
        label_read(label(s)) == s,
    decreases s.len(),
{
    if s.len() > 0 {
        lemma_label_front(s);
        law_a_label_reads_back(s.skip(1));
        let c = s[0];
        let rest = label(s.skip(1));
        let all = escaped_char(c) + rest;
        if c == '\\' || c == '"' || c == '\n' {
            assert(all.skip(2) =~= rest);
        } else {
            assert(all.skip(1) =~= rest);
        }
        assert(s =~= seq![c] + s.skip(1));
    }
}

/// What is written out, family by family.
pub struct Metrics {
    pub out: String,
    /// `cluster`, `node` and `nodeid`, which every series here carries
    pub common: String,
}

#[verifier::ext_equal]
pub struct MetricsV {
    pub out: Seq<char>,
    pub common: Seq<char>,
}

impl DeepView for Metrics {
    type V = MetricsV;

    open spec fn deep_view(&self) -> MetricsV {
        MetricsV { out: self.out@, common: self.common@ }
    }
}

/// Labels, each with a comma before it.
pub open spec fn labels_text(labels: Seq<(Seq<char>, Seq<char>)>) -> Seq<char>
    decreases labels.len(),
{
    if labels.len() == 0 {
        ""@
    } else {
        labels_text(labels.drop_last()) + ","@ + labels.last().0 + "=\""@ + label(labels.last().1)
            + "\""@
    }
}

impl MetricsV {
    pub open spec fn start(cluster: Seq<char>, node: Seq<char>, id: Seq<char>) -> MetricsV {
        MetricsV {
            out: ""@,
            common: "cluster=\""@ + label(cluster) + "\",node=\""@ + label(node)
                + "\",nodeid=\""@ + label(id) + "\""@,
        }
    }

    /// With a family declared.
    pub open spec fn family(self, name: Seq<char>, kind: Seq<char>, help: Seq<char>) -> MetricsV {
        MetricsV {
            out: self.out + "# HELP "@ + name + " "@ + help + "\n# TYPE "@ + name + " "@ + kind
                + "\n"@,
            ..self
        }
    }

    /// With a series of a family already declared.
    pub open spec fn value(
        self,
        name: Seq<char>,
        labels: Seq<(Seq<char>, Seq<char>)>,
        f: FigureV,
    ) -> MetricsV {
        MetricsV {
            out: self.out + name + "{"@ + self.common + labels_text(labels) + "} "@ + shown(f)
                + "\n"@,
            ..self
        }
    }

    /// With a family of one series.
    pub open spec fn one(
        self,
        name: Seq<char>,
        kind: Seq<char>,
        help: Seq<char>,
        f: FigureV,
    ) -> MetricsV {
        self.family(name, kind, help).value(name, Seq::empty(), f)
    }
}

fn show_labels(labels: &Vec<(&str, &str)>) -> (r: String)
    ensures
        r@ == labels_text(labels.deep_view()),
{
    let ghost lv = labels.deep_view();
    let mut r = "".to_owned();
    assert(lv.take(0).len() == 0);
    for i in 0..labels.len()
        invariant
            lv == labels.deep_view(),
            r@ == labels_text(lv.take(i as int)),
    {
        proof {
            lemma_take(lv, i as int);
            assert(lv[i as int] == (labels@[i as int].0@, labels@[i as int].1@));
        }
        r = r.concat(",").concat(labels[i].0).concat("=\"").concat(
            escaped(labels[i].1).as_str(),
        ).concat("\"");
    }
    assert(lv.take(labels@.len() as int) =~= lv);
    r
}

impl Metrics {
    pub fn new(cluster: &str, node: &str, node_id: &str) -> (r: Metrics)
        ensures
            r.deep_view() == MetricsV::start(cluster@, node@, node_id@),
    {
        Metrics {
            out: "".to_owned(),
            common: "cluster=\"".to_owned().concat(escaped(cluster).as_str()).concat(
                "\",node=\"",
            ).concat(escaped(node).as_str()).concat("\",nodeid=\"").concat(
                escaped(node_id).as_str(),
            ).concat("\""),
        }
    }

    /// Declare a family. A scraper wants the type and the help once, before
    /// the series.
    pub fn family(&mut self, name: &str, kind: &str, help: &str)
        ensures
            final(self).deep_view() == old(self).deep_view().family(name@, kind@, help@),
    {
        self.out.append("# HELP ");
        self.out.append(name);
        self.out.append(" ");
        self.out.append(help);
        self.out.append("\n# TYPE ");
        self.out.append(name);
        self.out.append(" ");
        self.out.append(kind);
        self.out.append("\n");
    }

    /// One series of a family already declared.
    pub fn value(&mut self, name: &str, labels: &Vec<(&str, &str)>, v: &Figure)
        ensures
            final(self).deep_view() == old(self).deep_view().value(
                name@,
                labels.deep_view(),
                v.deep_view(),
            ),
    {
        let shown = v.show();
        let more = show_labels(labels);
        self.out.append(name);
        self.out.append("{");
        self.out.append(self.common.as_str());
        self.out.append(more.as_str());
        self.out.append("} ");
        self.out.append(shown.as_str());
        self.out.append("\n");
    }

    /// A family of one series, which most of these are.
    pub fn one(&mut self, name: &str, kind: &str, help: &str, v: &Figure)
        ensures
            final(self).deep_view() == old(self).deep_view().one(
                name@,
                kind@,
                help@,
                v.deep_view(),
            ),
    {
        self.family(name, kind, help);
        let none: Vec<(&str, &str)> = Vec::new();
        assert(none.deep_view() =~= Seq::<(Seq<char>, Seq<char>)>::empty());
        self.value(name, &none, v);
    }

    /// A series with one label.
    fn labelled(&mut self, name: &str, key: &str, label: &str, v: &Figure)
        ensures
            final(self).deep_view() == old(self).deep_view().value(
                name@,
                seq![(key@, label@)],
                v.deep_view(),
            ),
    {
        let mut labels: Vec<(&str, &str)> = Vec::new();
        labels.push((key, label));
        assert(labels.deep_view() =~= seq![(key@, label@)]);
        self.value(name, &labels, v);
    }

    /// A series of a pool, of one kind of its tasks.
    fn tasks(&mut self, name: &str, pool: &str, kind: &str, n: u64)
        ensures
            final(self).deep_view() == old(self).deep_view().value(
                name@,
                seq![("name"@, pool@), ("type"@, kind@)],
                figure(false, dec(n as nat), ""@),
            ),
    {
        let mut labels: Vec<(&str, &str)> = Vec::new();
        labels.push(("name", pool));
        labels.push(("type", kind));
        assert(labels.deep_view() =~= seq![("name"@, pool@), ("type"@, kind@)]);
        self.value(name, &labels, &Figure::whole(n));
    }
}

// ---- the series ----------------------------------------------------------------

/// A series: its name, what it is, where it is in the statistics, and what it
/// means.
pub struct Series {
    pub name: &'static str,
    pub kind: &'static str,
    pub path: &'static str,
    pub help: &'static str,
}

#[verifier::ext_equal]
pub struct SeriesV {
    pub name: Seq<char>,
    pub kind: Seq<char>,
    pub path: Seq<char>,
    pub help: Seq<char>,
}

impl DeepView for Series {
    type V = SeriesV;

    open spec fn deep_view(&self) -> SeriesV {
        SeriesV { name: self.name@, kind: self.kind@, path: self.path@, help: self.help@ }
    }
}

pub open spec fn series(
    name: Seq<char>,
    kind: Seq<char>,
    path: Seq<char>,
    help: Seq<char>,
) -> SeriesV {
    SeriesV { name, kind, path, help }
}

pub open spec fn no_series() -> Seq<SeriesV> {
    Seq::empty()
}

fn empty_series() -> (t: Vec<Series>)
    ensures
        t.deep_view() == no_series(),
{
    let t: Vec<Series> = Vec::new();
    assert(t.deep_view() =~= no_series());
    t
}

fn add_series(
    t: &mut Vec<Series>,
    name: &'static str,
    kind: &'static str,
    path: &'static str,
    help: &'static str,
)
    ensures
        final(t).deep_view() == old(t).deep_view().push(series(name@, kind@, path@, help@)),
{
    push_to(t, Series { name, kind, path, help });
}

/// What is said of the cluster.
#[verifier::opaque]
pub open spec fn cluster_series() -> Seq<SeriesV> {
    no_series().push(
        series("opensearch_cluster_nodes_number"@, "gauge"@, "/number_of_nodes"@, "Nodes in the cluster."@),
    ).push(
        series("opensearch_cluster_datanodes_number"@, "gauge"@, "/number_of_data_nodes"@, "Nodes of the cluster that hold data."@),
    ).push(
        series("opensearch_cluster_shards_active_number"@, "gauge"@, "/active_shards"@, "Shards that are active."@),
    ).push(
        series("opensearch_cluster_shards_active_primary_number"@, "gauge"@, "/active_primary_shards"@, "Primary shards that are active."@),
    ).push(
        series("opensearch_cluster_shards_relocating_number"@, "gauge"@, "/relocating_shards"@, "Shards being moved between nodes."@),
    ).push(
        series("opensearch_cluster_shards_initializing_number"@, "gauge"@, "/initializing_shards"@, "Shards being brought up."@),
    ).push(
        series("opensearch_cluster_shards_unassigned_number"@, "gauge"@, "/unassigned_shards"@, "Shards no node holds."@),
    ).push(
        series("opensearch_cluster_pending_tasks_number"@, "gauge"@, "/number_of_pending_tasks"@, "Cluster tasks waiting to be applied."@),
    )
}

fn cluster_series_list() -> (t: Vec<Series>)
    ensures
        t.deep_view() == cluster_series(),
{
    reveal(cluster_series);
    let mut t = empty_series();
    add_series(
        &mut t,
        "opensearch_cluster_nodes_number",
        "gauge",
        "/number_of_nodes",
        "Nodes in the cluster.",
    );
    add_series(
        &mut t,
        "opensearch_cluster_datanodes_number",
        "gauge",
        "/number_of_data_nodes",
        "Nodes of the cluster that hold data.",
    );
    add_series(
        &mut t,
        "opensearch_cluster_shards_active_number",
        "gauge",
        "/active_shards",
        "Shards that are active.",
    );
    add_series(
        &mut t,
        "opensearch_cluster_shards_active_primary_number",
        "gauge",
        "/active_primary_shards",
        "Primary shards that are active.",
    );
    add_series(
        &mut t,
        "opensearch_cluster_shards_relocating_number",
        "gauge",
        "/relocating_shards",
        "Shards being moved between nodes.",
    );
    add_series(
        &mut t,
        "opensearch_cluster_shards_initializing_number",
        "gauge",
        "/initializing_shards",
        "Shards being brought up.",
    );
    add_series(
        &mut t,
        "opensearch_cluster_shards_unassigned_number",
        "gauge",
        "/unassigned_shards",
        "Shards no node holds.",
    );
    add_series(
        &mut t,
        "opensearch_cluster_pending_tasks_number",
        "gauge",
        "/number_of_pending_tasks",
        "Cluster tasks waiting to be applied.",
    );
    t
}

/// What is said of the machine and the process.
#[verifier::opaque]
pub open spec fn machine_series() -> Seq<SeriesV> {
    no_series().push(
        series("opensearch_os_cpu_percent"@, "gauge"@, "/os/cpu/percent"@, "Processor use of the machine."@),
    ).push(
        series("opensearch_os_load_average_one_minute"@, "gauge"@, "/os/cpu/load_average/1m"@, "Load average over one minute."@),
    ).push(
        series("opensearch_os_load_average_five_minutes"@, "gauge"@, "/os/cpu/load_average/5m"@, "Load average over five minutes."@),
    ).push(
        series("opensearch_os_load_average_fifteen_minutes"@, "gauge"@, "/os/cpu/load_average/15m"@, "Load average over fifteen minutes."@),
    ).push(
        series("opensearch_os_mem_total_bytes"@, "gauge"@, "/os/mem/total_in_bytes"@, "Memory the machine has."@),
    ).push(
        series("opensearch_os_mem_free_bytes"@, "gauge"@, "/os/mem/free_in_bytes"@, "Memory the machine has free."@),
    ).push(
        series("opensearch_os_mem_used_bytes"@, "gauge"@, "/os/mem/used_in_bytes"@, "Memory the machine is using."@),
    ).push(
        series("opensearch_os_swap_used_bytes"@, "gauge"@, "/os/swap/used_in_bytes"@, "Swap the machine is using."@),
    ).push(
        series("opensearch_process_cpu_percent"@, "gauge"@, "/process/cpu/percent"@, "Processor use of this process."@),
    ).push(
        series("opensearch_process_file_descriptors_open_number"@, "gauge"@, "/process/open_file_descriptors"@, "File descriptors this process holds."@),
    ).push(
        series("opensearch_process_file_descriptors_max_number"@, "gauge"@, "/process/max_file_descriptors"@, "File descriptors this process may hold."@),
    ).push(
        series("opensearch_process_mem_total_virtual_bytes"@, "gauge"@, "/process/mem/total_virtual_in_bytes"@, "Virtual memory this process has mapped."@),
    )
}

fn machine_series_list() -> (t: Vec<Series>)
    ensures
        t.deep_view() == machine_series(),
{
    reveal(machine_series);
    let mut t = empty_series();
    add_series(
        &mut t,
        "opensearch_os_cpu_percent",
        "gauge",
        "/os/cpu/percent",
        "Processor use of the machine.",
    );
    add_series(
        &mut t,
        "opensearch_os_load_average_one_minute",
        "gauge",
        "/os/cpu/load_average/1m",
        "Load average over one minute.",
    );
    add_series(
        &mut t,
        "opensearch_os_load_average_five_minutes",
        "gauge",
        "/os/cpu/load_average/5m",
        "Load average over five minutes.",
    );
    add_series(
        &mut t,
        "opensearch_os_load_average_fifteen_minutes",
        "gauge",
        "/os/cpu/load_average/15m",
        "Load average over fifteen minutes.",
    );
    add_series(
        &mut t,
        "opensearch_os_mem_total_bytes",
        "gauge",
        "/os/mem/total_in_bytes",
        "Memory the machine has.",
    );
    add_series(
        &mut t,
        "opensearch_os_mem_free_bytes",
        "gauge",
        "/os/mem/free_in_bytes",
        "Memory the machine has free.",
    );
    add_series(
        &mut t,
        "opensearch_os_mem_used_bytes",
        "gauge",
        "/os/mem/used_in_bytes",
        "Memory the machine is using.",
    );
    add_series(
        &mut t,
        "opensearch_os_swap_used_bytes",
        "gauge",
        "/os/swap/used_in_bytes",
        "Swap the machine is using.",
    );
    add_series(
        &mut t,
        "opensearch_process_cpu_percent",
        "gauge",
        "/process/cpu/percent",
        "Processor use of this process.",
    );
    add_series(
        &mut t,
        "opensearch_process_file_descriptors_open_number",
        "gauge",
        "/process/open_file_descriptors",
        "File descriptors this process holds.",
    );
    add_series(
        &mut t,
        "opensearch_process_file_descriptors_max_number",
        "gauge",
        "/process/max_file_descriptors",
        "File descriptors this process may hold.",
    );
    add_series(
        &mut t,
        "opensearch_process_mem_total_virtual_bytes",
        "gauge",
        "/process/mem/total_virtual_in_bytes",
        "Virtual memory this process has mapped.",
    );
    t
}

/// What stands for a heap.
#[verifier::opaque]
pub open spec fn memory_series() -> Seq<SeriesV> {
    no_series().push(
        series("opensearch_jvm_mem_heap_used_bytes"@, "gauge"@, "/jvm/mem/heap_used_in_bytes"@, "Memory the allocator holds for this node's data; what stands for a heap here."@),
    ).push(
        series("opensearch_jvm_mem_heap_max_bytes"@, "gauge"@, "/jvm/mem/heap_max_in_bytes"@, "As far as that can grow: the machine's memory."@),
    ).push(
        series("opensearch_jvm_mem_nonheap_used_bytes"@, "gauge"@, "/jvm/mem/non_heap_used_in_bytes"@, "What the process holds besides: mapped index files, thread stacks."@),
    ).push(
        series("opensearch_jvm_threads_number"@, "gauge"@, "/jvm/threads/count"@, "Threads this process is running."@),
    )
}

fn memory_series_list() -> (t: Vec<Series>)
    ensures
        t.deep_view() == memory_series(),
{
    reveal(memory_series);
    let mut t = empty_series();
    add_series(
        &mut t,
        "opensearch_jvm_mem_heap_used_bytes",
        "gauge",
        "/jvm/mem/heap_used_in_bytes",
        "Memory the allocator holds for this node's data; what stands for a heap here.",
    );
    add_series(
        &mut t,
        "opensearch_jvm_mem_heap_max_bytes",
        "gauge",
        "/jvm/mem/heap_max_in_bytes",
        "As far as that can grow: the machine's memory.",
    );
    add_series(
        &mut t,
        "opensearch_jvm_mem_nonheap_used_bytes",
        "gauge",
        "/jvm/mem/non_heap_used_in_bytes",
        "What the process holds besides: mapped index files, thread stacks.",
    );
    add_series(
        &mut t,
        "opensearch_jvm_threads_number",
        "gauge",
        "/jvm/threads/count",
        "Threads this process is running.",
    );
    t
}

/// What is said of the data disk.
#[verifier::opaque]
pub open spec fn disk_series() -> Seq<SeriesV> {
    no_series().push(
        series("opensearch_fs_total_total_bytes"@, "gauge"@, "/fs/total/total_in_bytes"@, "Size of the data disk."@),
    ).push(
        series("opensearch_fs_total_free_bytes"@, "gauge"@, "/fs/total/free_in_bytes"@, "Free space on it."@),
    ).push(
        series("opensearch_fs_total_available_bytes"@, "gauge"@, "/fs/total/available_in_bytes"@, "Space on it this process may use."@),
    )
}

fn disk_series_list() -> (t: Vec<Series>)
    ensures
        t.deep_view() == disk_series(),
{
    reveal(disk_series);
    let mut t = empty_series();
    add_series(
        &mut t,
        "opensearch_fs_total_total_bytes",
        "gauge",
        "/fs/total/total_in_bytes",
        "Size of the data disk.",
    );
    add_series(
        &mut t,
        "opensearch_fs_total_free_bytes",
        "gauge",
        "/fs/total/free_in_bytes",
        "Free space on it.",
    );
    add_series(
        &mut t,
        "opensearch_fs_total_available_bytes",
        "gauge",
        "/fs/total/available_in_bytes",
        "Space on it this process may use.",
    );
    t
}

/// The node-wide index series: the name, what it is, where it is in the statistics, and what it means.
#[verifier::opaque]
pub open spec fn index_series() -> Seq<SeriesV> {
    no_series().push(
        series("opensearch_indices_doc_number"@, "gauge"@, "/docs/count"@, "Documents this node holds."@),
    ).push(
        series("opensearch_indices_doc_deleted_number"@, "gauge"@, "/docs/deleted"@, "Documents deleted but not yet merged away."@),
    ).push(
        series("opensearch_indices_store_size_bytes"@, "gauge"@, "/store/size_in_bytes"@, "What this node's indices take on disk."@),
    ).push(
        series("opensearch_indices_indexing_index_count"@, "counter"@, "/indexing/index_total"@, "Documents written."@),
    ).push(
        series("opensearch_indices_indexing_index_current_number"@, "gauge"@, "/indexing/index_current"@, "Writes in flight."@),
    ).push(
        series("opensearch_indices_indexing_delete_count"@, "counter"@, "/indexing/delete_total"@, "Documents deleted."@),
    ).push(
        series("opensearch_indices_search_query_count"@, "counter"@, "/search/query_total"@, "Queries answered."@),
    ).push(
        series("opensearch_indices_search_query_current_number"@, "gauge"@, "/search/query_current"@, "Queries in flight."@),
    ).push(
        series("opensearch_indices_search_fetch_count"@, "counter"@, "/search/fetch_total"@, "Fetch phases run."@),
    ).push(
        series("opensearch_indices_search_scroll_current_number"@, "gauge"@, "/search/scroll_current"@, "Scrolls open."@),
    ).push(
        series("opensearch_indices_refresh_count"@, "counter"@, "/refresh/total"@, "Refreshes made."@),
    ).push(
        series("opensearch_indices_flush_count"@, "counter"@, "/flush/total"@, "Flushes made."@),
    ).push(
        series("opensearch_indices_merges_count"@, "counter"@, "/merges/total"@, "Merges finished."@),
    ).push(
        series("opensearch_indices_segments_number"@, "gauge"@, "/segments/count"@, "Segments open."@),
    ).push(
        series("opensearch_indices_translog_operations_number"@, "gauge"@, "/translog/operations"@, "Writes recorded but not yet committed."@),
    )
}

fn index_series_list() -> (t: Vec<Series>)
    ensures
        t.deep_view() == index_series(),
{
    reveal(index_series);
    let mut t = empty_series();
    add_series(
        &mut t,
        "opensearch_indices_doc_number",
        "gauge",
        "/docs/count",
        "Documents this node holds.",
    );
    add_series(
        &mut t,
        "opensearch_indices_doc_deleted_number",
        "gauge",
        "/docs/deleted",
        "Documents deleted but not yet merged away.",
    );
    add_series(
        &mut t,
        "opensearch_indices_store_size_bytes",
        "gauge",
        "/store/size_in_bytes",
        "What this node's indices take on disk.",
    );
    add_series(
        &mut t,
        "opensearch_indices_indexing_index_count",
        "counter",
        "/indexing/index_total",
        "Documents written.",
    );
    add_series(
        &mut t,
        "opensearch_indices_indexing_index_current_number",
        "gauge",
        "/indexing/index_current",
        "Writes in flight.",
    );
    add_series(
        &mut t,
        "opensearch_indices_indexing_delete_count",
        "counter",
        "/indexing/delete_total",
        "Documents deleted.",
    );
    add_series(
        &mut t,
        "opensearch_indices_search_query_count",
        "counter",
        "/search/query_total",
        "Queries answered.",
    );
    add_series(
        &mut t,
        "opensearch_indices_search_query_current_number",
        "gauge",
        "/search/query_current",
        "Queries in flight.",
    );
    add_series(
        &mut t,
        "opensearch_indices_search_fetch_count",
        "counter",
        "/search/fetch_total",
        "Fetch phases run.",
    );
    add_series(
        &mut t,
        "opensearch_indices_search_scroll_current_number",
        "gauge",
        "/search/scroll_current",
        "Scrolls open.",
    );
    add_series(
        &mut t,
        "opensearch_indices_refresh_count",
        "counter",
        "/refresh/total",
        "Refreshes made.",
    );
    add_series(
        &mut t,
        "opensearch_indices_flush_count",
        "counter",
        "/flush/total",
        "Flushes made.",
    );
    add_series(
        &mut t,
        "opensearch_indices_merges_count",
        "counter",
        "/merges/total",
        "Merges finished.",
    );
    add_series(
        &mut t,
        "opensearch_indices_segments_number",
        "gauge",
        "/segments/count",
        "Segments open.",
    );
    add_series(
        &mut t,
        "opensearch_indices_translog_operations_number",
        "gauge",
        "/translog/operations",
        "Writes recorded but not yet committed.",
    );
    t
}

/// The first series of a list, each a family of its own.
pub open spec fn ones(m: MetricsV, t: Seq<SeriesV>, v: JsonV, n: nat) -> MetricsV
    decreases n,
{
    if n == 0 {
        m
    } else {
        let s = t[n - 1];
        ones(m, t, v, (n - 1) as nat).one(s.name, s.kind, s.help, reading(pointed(v, s.path)))
    }
}

impl MetricsV {
    pub open spec fn each(self, t: Seq<SeriesV>, v: JsonV) -> MetricsV {
        ones(self, t, v, t.len())
    }
}

impl Metrics {
    fn each(&mut self, t: &Vec<Series>, v: &Json)
        ensures
            final(self).deep_view() == old(self).deep_view().each(t.deep_view(), v.deep_view()),
    {
        for i in 0..t.len()
            invariant
                self.deep_view() == ones(
                    old(self).deep_view(),
                    t.deep_view(),
                    v.deep_view(),
                    i as nat,
                ),
        {
            assert(t.deep_view()[i as int] == t@[i as int].deep_view());
            self.one(t[i].name, t[i].kind, t[i].help, &num(v, t[i].path));
        }
    }
}

// ---- pools and breakers --------------------------------------------------------

/// What a pool is doing.
pub struct PoolReading {
    pub name: String,
    pub threads: u64,
    pub active: u64,
    pub queue: u64,
    pub completed: u64,
    pub rejected: u64,
}

#[verifier::ext_equal]
pub struct PoolReadingV {
    pub name: Seq<char>,
    pub threads: u64,
    pub active: u64,
    pub queue: u64,
    pub completed: u64,
    pub rejected: u64,
}

impl DeepView for PoolReading {
    type V = PoolReadingV;

    open spec fn deep_view(&self) -> PoolReadingV {
        PoolReadingV {
            name: self.name@,
            threads: self.threads,
            active: self.active,
            queue: self.queue,
            completed: self.completed,
            rejected: self.rejected,
        }
    }
}

/// What a breaker is holding.
pub struct BreakerReading {
    pub name: String,
    pub used: u64,
    pub limit: u64,
    pub tripped: u64,
}

#[verifier::ext_equal]
pub struct BreakerReadingV {
    pub name: Seq<char>,
    pub used: u64,
    pub limit: u64,
    pub tripped: u64,
}

impl DeepView for BreakerReading {
    type V = BreakerReadingV;

    open spec fn deep_view(&self) -> BreakerReadingV {
        BreakerReadingV {
            name: self.name@,
            used: self.used,
            limit: self.limit,
            tripped: self.tripped,
        }
    }
}

/// What a breaker is holding: what it reserved, and the parent what the whole
/// node holds.
pub open spec fn breaker_reading(b: BreakerV, parent_used: u64, limit: u64) -> BreakerReadingV {
    BreakerReadingV {
        name: b.name,
        used: if b.name == "parent"@ {
            parent_used
        } else {
            b.used
        },
        limit,
        tripped: b.tripped,
    }
}

/// What a breaker is holding: what it reserved, and the parent what the whole
/// node holds.
pub fn read_breaker(b: &Breaker, parent_used: u64, limit: u64) -> (r: BreakerReading)
    ensures
        r.deep_view() == breaker_reading(b.deep_view(), parent_used, limit),
{
    BreakerReading {
        name: b.name.to_owned(),
        used: if same(b.name, "parent") {
            parent_used
        } else {
            b.used
        },
        limit,
        tripped: b.tripped,
    }
}

pub open spec fn count(n: u64) -> FigureV {
    figure(false, dec(n as nat), ""@)
}

pub open spec fn threads_of(m: MetricsV, p: Seq<PoolReadingV>, n: nat) -> MetricsV
    decreases n,
{
    if n == 0 {
        m
    } else {
        threads_of(m, p, (n - 1) as nat).value(
            "opensearch_threadpool_threads_number"@,
            seq![("name"@, p[n - 1].name)],
            count(p[n - 1].threads),
        )
    }
}

pub open spec fn tasks_of(m: MetricsV, p: Seq<PoolReadingV>, n: nat) -> MetricsV
    decreases n,
{
    if n == 0 {
        m
    } else {
        tasks_of(m, p, (n - 1) as nat).value(
            "opensearch_threadpool_tasks_number"@,
            seq![("name"@, p[n - 1].name), ("type"@, "active"@)],
            count(p[n - 1].active),
        ).value(
            "opensearch_threadpool_tasks_number"@,
            seq![("name"@, p[n - 1].name), ("type"@, "queue"@)],
            count(p[n - 1].queue),
        )
    }
}

pub open spec fn ended_of(m: MetricsV, p: Seq<PoolReadingV>, n: nat) -> MetricsV
    decreases n,
{
    if n == 0 {
        m
    } else {
        ended_of(m, p, (n - 1) as nat).value(
            "opensearch_threadpool_tasks_count"@,
            seq![("name"@, p[n - 1].name), ("type"@, "completed"@)],
            count(p[n - 1].completed),
        ).value(
            "opensearch_threadpool_tasks_count"@,
            seq![("name"@, p[n - 1].name), ("type"@, "rejected"@)],
            count(p[n - 1].rejected),
        )
    }
}

pub open spec fn breakers_of(m: MetricsV, b: Seq<BreakerReadingV>, n: nat) -> MetricsV
    decreases n,
{
    if n == 0 {
        m
    } else {
        let x = b[n - 1];
        let label = seq![("name"@, x.name)];
        breakers_of(m, b, (n - 1) as nat).value(
            "opensearch_circuitbreaker_estimated_bytes"@,
            label,
            count(x.used),
        ).value("opensearch_circuitbreaker_limit_bytes"@, label, count(x.limit)).value(
            "opensearch_circuitbreaker_tripped_count"@,
            label,
            count(x.tripped),
        )
    }
}

impl MetricsV {
    /// What a node is holding back and what it has refused.
    #[verifier::opaque]
    pub open spec fn pools(self, p: Seq<PoolReadingV>) -> MetricsV {
        let a = self.family(
            "opensearch_threadpool_threads_number"@,
            "gauge"@,
            "Requests of this kind run at once."@,
        );
        let b = threads_of(a, p, p.len()).family(
            "opensearch_threadpool_tasks_number"@,
            "gauge"@,
            "Requests of this kind running or waiting."@,
        );
        let c = tasks_of(b, p, p.len()).family(
            "opensearch_threadpool_tasks_count"@,
            "counter"@,
            "Requests of this kind finished, and refused because the pool and its queue were full."@,
        );
        ended_of(c, p, p.len())
    }

    #[verifier::opaque]
    pub open spec fn breakers(self, b: Seq<BreakerReadingV>) -> MetricsV {
        let m = self.family(
            "opensearch_circuitbreaker_estimated_bytes"@,
            "gauge"@,
            "What this breaker is holding."@,
        ).family("opensearch_circuitbreaker_limit_bytes"@, "gauge"@, "What it may hold."@).family(
            "opensearch_circuitbreaker_tripped_count"@,
            "counter"@,
            "Requests this breaker has refused since the node started."@,
        );
        breakers_of(m, b, b.len())
    }
}

impl Metrics {
    fn pools(&mut self, p: &Vec<PoolReading>)
        ensures
            final(self).deep_view() == old(self).deep_view().pools(p.deep_view()),
    {
        reveal(MetricsV::pools);
        let ghost pv = p.deep_view();
        self.family(
            "opensearch_threadpool_threads_number",
            "gauge",
            "Requests of this kind run at once.",
        );
        let ghost a = self.deep_view();
        for i in 0..p.len()
            invariant
                pv == p.deep_view(),
                self.deep_view() == threads_of(a, pv, i as nat),
        {
            assert(pv[i as int] == p@[i as int].deep_view());
            self.labelled(
                "opensearch_threadpool_threads_number",
                "name",
                p[i].name.as_str(),
                &Figure::whole(p[i].threads),
            );
        }
        self.family(
            "opensearch_threadpool_tasks_number",
            "gauge",
            "Requests of this kind running or waiting.",
        );
        let ghost b = self.deep_view();
        for i in 0..p.len()
            invariant
                pv == p.deep_view(),
                self.deep_view() == tasks_of(b, pv, i as nat),
        {
            assert(pv[i as int] == p@[i as int].deep_view());
            let name = p[i].name.as_str();
            self.tasks("opensearch_threadpool_tasks_number", name, "active", p[i].active);
            self.tasks("opensearch_threadpool_tasks_number", name, "queue", p[i].queue);
        }
        self.family(
            "opensearch_threadpool_tasks_count",
            "counter",
            "Requests of this kind finished, and refused because the pool and its queue were full.",
        );
        let ghost c = self.deep_view();
        for i in 0..p.len()
            invariant
                pv == p.deep_view(),
                self.deep_view() == ended_of(c, pv, i as nat),
        {
            assert(pv[i as int] == p@[i as int].deep_view());
            let name = p[i].name.as_str();
            self.tasks("opensearch_threadpool_tasks_count", name, "completed", p[i].completed);
            self.tasks("opensearch_threadpool_tasks_count", name, "rejected", p[i].rejected);
        }
    }

    fn breakers(&mut self, b: &Vec<BreakerReading>)
        ensures
            final(self).deep_view() == old(self).deep_view().breakers(b.deep_view()),
    {
        reveal(MetricsV::breakers);
        let ghost bv = b.deep_view();
        self.family(
            "opensearch_circuitbreaker_estimated_bytes",
            "gauge",
            "What this breaker is holding.",
        );
        self.family("opensearch_circuitbreaker_limit_bytes", "gauge", "What it may hold.");
        self.family(
            "opensearch_circuitbreaker_tripped_count",
            "counter",
            "Requests this breaker has refused since the node started.",
        );
        let ghost a = self.deep_view();
        for i in 0..b.len()
            invariant
                bv == b.deep_view(),
                self.deep_view() == breakers_of(a, bv, i as nat),
        {
            assert(bv[i as int] == b@[i as int].deep_view());
            let name = b[i].name.as_str();
            self.labelled(
                "opensearch_circuitbreaker_estimated_bytes",
                "name",
                name,
                &Figure::whole(b[i].used),
            );
            self.labelled(
                "opensearch_circuitbreaker_limit_bytes",
                "name",
                name,
                &Figure::whole(b[i].limit),
            );
            self.labelled(
                "opensearch_circuitbreaker_tripped_count",
                "name",
                name,
                &Figure::whole(b[i].tripped),
            );
        }
    }
}

// ---- indices -------------------------------------------------------------------

pub open spec fn per_index_series(
    m: MetricsV,
    name: Seq<char>,
    path: Seq<char>,
    each: Seq<(Seq<char>, JsonV)>,
    n: nat,
) -> MetricsV
    decreases n,
{
    if n == 0 {
        m
    } else {
        per_index_series(m, name, path, each, (n - 1) as nat).value(
            name,
            seq![("index"@, each[n - 1].0)],
            reading(pointed(each[n - 1].1, path)),
        )
    }
}

impl MetricsV {
    /// A family with a series for every index.
    pub open spec fn of_indices(
        self,
        name: Seq<char>,
        kind: Seq<char>,
        path: Seq<char>,
        help: Seq<char>,
        each: Seq<(Seq<char>, JsonV)>,
    ) -> MetricsV {
        per_index_series(self.family(name, kind, help), name, path, each, each.len())
    }

    /// The series of every index.
    #[verifier::opaque]
    pub open spec fn indices(self, each: Seq<(Seq<char>, JsonV)>) -> MetricsV {
        self.of_indices(
            "opensearch_index_doc_number"@,
            "gauge"@,
            "/docs/count"@,
            "Documents in this index."@,
            each,
        ).of_indices(
            "opensearch_index_store_size_bytes"@,
            "gauge"@,
            "/store/size_in_bytes"@,
            "What this index takes on disk."@,
            each,
        ).of_indices(
            "opensearch_index_search_query_count"@,
            "counter"@,
            "/search/query_total"@,
            "Queries answered out of this index."@,
            each,
        ).of_indices(
            "opensearch_index_indexing_index_count"@,
            "counter"@,
            "/indexing/index_total"@,
            "Documents written into this index."@,
            each,
        )
    }

    /// What all the indices of the node come to.
    #[verifier::opaque]
    pub open spec fn totals(self, t: JsonV) -> MetricsV {
        self.each(index_series(), t).one(
            "opensearch_indices_indexing_index_time_seconds"@,
            "counter"@,
            "Time spent indexing."@,
            thousandth(reading(pointed(t, "/indexing/index_time_in_millis"@))),
        ).one(
            "opensearch_indices_search_query_time_seconds"@,
            "counter"@,
            "Time spent on the query phase."@,
            thousandth(reading(pointed(t, "/search/query_time_in_millis"@))),
        ).one(
            "opensearch_indices_search_fetch_time_seconds"@,
            "counter"@,
            "Time spent on the fetch phase."@,
            thousandth(reading(pointed(t, "/search/fetch_time_in_millis"@))),
        )
    }
}

impl Metrics {
    fn of_indices(
        &mut self,
        name: &str,
        kind: &str,
        path: &str,
        help: &str,
        each: &Vec<(String, Json)>,
    )
        ensures
            final(self).deep_view() == old(self).deep_view().of_indices(
                name@,
                kind@,
                path@,
                help@,
                each.deep_view(),
            ),
    {
        self.family(name, kind, help);
        let ghost a = self.deep_view();
        let ghost ev = each.deep_view();
        for i in 0..each.len()
            invariant
                ev == each.deep_view(),
                self.deep_view() == per_index_series(a, name@, path@, ev, i as nat),
        {
            assert(ev[i as int] == (each@[i as int].0@, each@[i as int].1.deep_view()));
            self.labelled(name, "index", each[i].0.as_str(), &num(&each[i].1, path));
        }
    }

    fn indices(&mut self, each: &Vec<(String, Json)>)
        ensures
            final(self).deep_view() == old(self).deep_view().indices(each.deep_view()),
    {
        reveal(MetricsV::indices);
        self.of_indices(
            "opensearch_index_doc_number",
            "gauge",
            "/docs/count",
            "Documents in this index.",
            each,
        );
        self.of_indices(
            "opensearch_index_store_size_bytes",
            "gauge",
            "/store/size_in_bytes",
            "What this index takes on disk.",
            each,
        );
        self.of_indices(
            "opensearch_index_search_query_count",
            "counter",
            "/search/query_total",
            "Queries answered out of this index.",
            each,
        );
        self.of_indices(
            "opensearch_index_indexing_index_count",
            "counter",
            "/indexing/index_total",
            "Documents written into this index.",
            each,
        );
    }

    fn totals(&mut self, t: &Json)
        ensures
            final(self).deep_view() == old(self).deep_view().totals(t.deep_view()),
    {
        reveal(MetricsV::totals);
        self.each(&index_series_list(), t);
        self.one(
            "opensearch_indices_indexing_index_time_seconds",
            "counter",
            "Time spent indexing.",
            &num(t, "/indexing/index_time_in_millis").thousandth(),
        );
        self.one(
            "opensearch_indices_search_query_time_seconds",
            "counter",
            "Time spent on the query phase.",
            &num(t, "/search/query_time_in_millis").thousandth(),
        );
        self.one(
            "opensearch_indices_search_fetch_time_seconds",
            "counter",
            "Time spent on the fetch phase.",
            &num(t, "/search/fetch_time_in_millis").thousandth(),
        );
    }
}

// ---- a scrape ------------------------------------------------------------------

/// What a scrape is made of: who the node is, the cluster's health, the node's
/// statistics, and its pools and breakers.
pub struct Scrape {
    pub cluster: String,
    pub node: String,
    pub node_id: String,
    pub version: String,
    pub build_hash: String,
    pub health: Json,
    pub stats: Json,
    pub pools: Vec<PoolReading>,
    pub breakers: Vec<BreakerReading>,
    /// whether the series of every index are wanted
    pub per_index: bool,
}

pub struct ScrapeV {
    pub cluster: Seq<char>,
    pub node: Seq<char>,
    pub node_id: Seq<char>,
    pub version: Seq<char>,
    pub build_hash: Seq<char>,
    pub health: JsonV,
    pub stats: JsonV,
    pub pools: Seq<PoolReadingV>,
    pub breakers: Seq<BreakerReadingV>,
    pub per_index: bool,
}

impl DeepView for Scrape {
    type V = ScrapeV;

    open spec fn deep_view(&self) -> ScrapeV {
        ScrapeV {
            cluster: self.cluster@,
            node: self.node@,
            node_id: self.node_id@,
            version: self.version@,
            build_hash: self.build_hash@,
            health: self.health.deep_view(),
            stats: self.stats.deep_view(),
            pools: self.pools.deep_view(),
            breakers: self.breakers.deep_view(),
            per_index: self.per_index,
        }
    }
}

/// Whether the series of every index are wanted: unless they are declined.
pub fn wants_indices(said: &Option<String>) -> (r: bool)
    ensures
        r == (said.deep_view() != Some("false"@)),
{
    match said {
        Some(s) => !same(s.as_str(), "false"),
        None => true,
    }
}

/// The cluster's status as a number: what is not known is red.
pub open spec fn status_number(health: JsonV) -> u64 {
    match member(health, "status"@) {
        Some(JsonV::Text(s)) => if s == "green"@ {
            0
        } else if s == "yellow"@ {
            1
        } else {
            2
        },
        _ => 2,
    }
}

/// What the node's statistics say of its indices.
pub open spec fn totals_of(stats: JsonV) -> JsonV {
    match pointed(stats, "/indices"@) {
        Some(t) => t,
        None => JsonV::Object(Seq::empty()),
    }
}

/// The text of a scrape.
pub open spec fn scraped(s: ScrapeV) -> MetricsV {
    let a = MetricsV::start(s.cluster, s.node, s.node_id).family(
        "velosearch_build_info"@,
        "gauge"@,
        "The build this node is running, as labels."@,
    ).value(
        "velosearch_build_info"@,
        seq![
            ("version"@, s.version),
            ("opensearch_version"@, crate::OPENSEARCH_VERSION@),
            ("build_hash"@, s.build_hash),
        ],
        count(1),
    );
    let b = a.one(
        "opensearch_cluster_status"@,
        "gauge"@,
        "Cluster status: 0 green, 1 yellow, 2 red."@,
        count(status_number(s.health)),
    ).each(cluster_series(), s.health);
    let c = b.each(machine_series(), s.stats).each(memory_series(), s.stats).one(
        "opensearch_jvm_uptime_seconds"@,
        "gauge"@,
        "How long this node has been up."@,
        thousandth(reading(pointed(s.stats, "/jvm/uptime_in_millis"@))),
    ).each(disk_series(), s.stats);
    let d = c.pools(s.pools).breakers(s.breakers).totals(totals_of(s.stats));
    match pointed(s.stats, "/indices/indices"@) {
        Some(JsonV::Object(each)) => if s.per_index {
            d.indices(each)
        } else {
            d
        },
        _ => d,
    }
}

fn build_info(m: &mut Metrics, s: &Scrape)
    ensures
        final(m).deep_view() == old(m).deep_view().family(
            "velosearch_build_info"@,
            "gauge"@,
            "The build this node is running, as labels."@,
        ).value(
            "velosearch_build_info"@,
            seq![
                ("version"@, s.version@),
                ("opensearch_version"@, crate::OPENSEARCH_VERSION@),
                ("build_hash"@, s.build_hash@),
            ],
            count(1),
        ),
{
    m.family("velosearch_build_info", "gauge", "The build this node is running, as labels.");
    let mut labels: Vec<(&str, &str)> = Vec::new();
    labels.push(("version", s.version.as_str()));
    labels.push(("opensearch_version", crate::OPENSEARCH_VERSION));
    labels.push(("build_hash", s.build_hash.as_str()));
    assert(labels.deep_view() =~= seq![
        ("version"@, s.version@),
        ("opensearch_version"@, crate::OPENSEARCH_VERSION@),
        ("build_hash"@, s.build_hash@),
    ]);
    m.value("velosearch_build_info", &labels, &Figure::whole(1));
}

fn status_of(health: &Json) -> (n: u64)
    ensures
        n == status_number(health.deep_view()),
{
    match health.get("status") {
        Some(Json::Text(s)) => {
            if same(s.as_str(), "green") {
                0
            } else if same(s.as_str(), "yellow") {
                1
            } else {
                2
            }
        },
        _ => 2,
    }
}

/// `GET /_prometheus/metrics`: the text of a scrape.
pub fn metrics(s: &Scrape) -> (out: String)
    ensures
        out@ == scraped(s.deep_view()).out,
{
    let mut m = Metrics::new(s.cluster.as_str(), s.node.as_str(), s.node_id.as_str());
    build_info(&mut m, s);
    m.one(
        "opensearch_cluster_status",
        "gauge",
        "Cluster status: 0 green, 1 yellow, 2 red.",
        &Figure::whole(status_of(&s.health)),
    );
    m.each(&cluster_series_list(), &s.health);
    m.each(&machine_series_list(), &s.stats);
    m.each(&memory_series_list(), &s.stats);
    m.one(
        "opensearch_jvm_uptime_seconds",
        "gauge",
        "How long this node has been up.",
        &num(&s.stats, "/jvm/uptime_in_millis").thousandth(),
    );
    m.each(&disk_series_list(), &s.stats);
    m.pools(&s.pools);
    m.breakers(&s.breakers);
    match pointer(&s.stats, "/indices") {
        Some(t) => m.totals(t),
        None => {
            let none = crate::json::object(crate::json::fields());
            assert(none.deep_view() == JsonV::Object(Seq::empty()));
            m.totals(&none);
        },
    }
    if s.per_index {
        if let Some(Json::Object(each)) = pointer(&s.stats, "/indices/indices") {
            proof {
                crate::json::lemma_object(*each);
            }
            m.indices(each);
        }
    }
    m.out
}

} // verus!
