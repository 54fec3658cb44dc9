//! Chart descriptors, the dashboard's configuration, and the resolution of the
//! chart list.
//!
//! The chart list of a dashboard is made of the configured charts, each
//! completed from the metadata of its first metric, and, where the
//! configuration asks for it, of one line chart for each metric that no
//! configured chart draws or uses as a bound. The list is sorted by the name
//! of each chart's first metric.
use crate::model::{lemma_slot_of, slot_of, MetricMetaView};
use crate::names::{name_equal, name_less};
use crate::recorder::MetricMeta;
use crate::sorting::{keys_of, lemma_upper_bound, sorted_by_key, upper_bound, Keyed};
use vstd::prelude::*;

verus! {

/// How a chart is drawn.
#[derive(Debug, Clone, Copy, PartialEq, Eq, Structural)]
pub enum ChartKind {
    Line,
    Bar,
}

/// A chart of the dashboard: its kind, the metrics it draws, its description
/// and unit, and optionally a companion metric that bounds the first one from
/// above. A description or unit that is empty is missing.
#[derive(Debug)]
pub enum ChartType {
    Line { metrics: Vec<String>, desc: String, unit: String, bound: Option<String> },
    Bar { metrics: Vec<String>, desc: String, unit: String, bound: Option<String> },
}

/// A chart as a mathematical value.
pub struct ChartView {
    pub kind: ChartKind,
    pub metrics: Seq<Seq<char>>,
    pub desc: Seq<char>,
    pub unit: Seq<char>,
    pub bound: Option<Seq<char>>,
}

impl Keyed for ChartView {
    /// A chart is sorted by the name of its first metric; a chart without
    /// metrics by the empty name.
    open spec fn sort_key(&self) -> Seq<char> {
        if self.metrics.len() > 0 {
            self.metrics[0]
        } else {
            Seq::empty()
        }
    }
}

impl View for ChartType {
    type V = ChartView;

    open spec fn view(&self) -> ChartView {
        match self {
            ChartType::Line { metrics, desc, unit, bound } => ChartView {
                kind: ChartKind::Line,
                metrics: metrics.deep_view(),
                desc: desc@,
                unit: unit@,
                bound: bound.deep_view(),
            },
            ChartType::Bar { metrics, desc, unit, bound } => ChartView {
                kind: ChartKind::Bar,
                metrics: metrics.deep_view(),
                desc: desc@,
                unit: unit@,
                bound: bound.deep_view(),
            },
        }
    }
}

impl DeepView for ChartType {
    type V = ChartView;

    open spec fn deep_view(&self) -> ChartView {
        self@
    }
}

/// A copy of a list of names.
fn clone_names(names: &[String]) -> (r: Vec<String>)
    ensures
        r.deep_view() == names.deep_view(),
{
    let mut r: Vec<String> = Vec::new();
    let mut i: usize = 0;
    while i < names.len()
        invariant
            i <= names.len(),
            r.len() == i,
            forall|j: int| 0 <= j < i ==> r[j]@ == names[j]@,
        decreases names.len() - i,
    {
        r.push(names[i].clone());
        i += 1;
    }
    proof {
        assert(r.deep_view() =~= names.deep_view());
    }
    r
}

/// A copy of an optional name.
fn clone_name(name: &Option<String>) -> (r: Option<String>)
    ensures
        r.deep_view() == name.deep_view(),
{
    match name {
        Some(n) => Some(n.clone()),
        None => None,
    }
}

impl ChartType {
    /// A chart of the given kind and contents.
    pub fn with(
        kind: ChartKind,
        metrics: Vec<String>,
        desc: String,
        unit: String,
        bound: Option<String>,
    ) -> (r: Self)
        ensures
            r@ == (ChartView {
                kind,
                metrics: metrics.deep_view(),
                desc: desc@,
                unit: unit@,
                bound: bound.deep_view(),
            }),
    {
        match kind {
            ChartKind::Line => ChartType::Line { metrics, desc, unit, bound },
            ChartKind::Bar => ChartType::Bar { metrics, desc, unit, bound },
        }
    }

    /// How the chart is drawn.
    pub fn kind(&self) -> (r: ChartKind)
        ensures
            r == self@.kind,
    {
        match self {
            ChartType::Line { .. } => ChartKind::Line,
            ChartType::Bar { .. } => ChartKind::Bar,
        }
    }

    /// The metrics that the chart draws.
    pub fn metrics(&self) -> (r: &[String])
        ensures
            r.deep_view() == self@.metrics,
    {
        let r = match self {
            ChartType::Line { metrics, .. } => metrics.as_slice(),
            ChartType::Bar { metrics, .. } => metrics.as_slice(),
        };
        proof {
            assert(r.deep_view() =~= self@.metrics);
        }
        r
    }

    /// The chart's description.
    pub fn desc(&self) -> (r: &str)
        ensures
            r@ == self@.desc,
    {
        match self {
            ChartType::Line { desc, .. } => desc.as_str(),
            ChartType::Bar { desc, .. } => desc.as_str(),
        }
    }

    /// The chart's unit.
    pub fn unit(&self) -> (r: &str)
        ensures
            r@ == self@.unit,
    {
        match self {
            ChartType::Line { unit, .. } => unit.as_str(),
            ChartType::Bar { unit, .. } => unit.as_str(),
        }
    }

    /// The companion metric that bounds the chart's first metric, if any.
    pub fn bound(&self) -> (r: &Option<String>)
        ensures
            r.deep_view() == self@.bound,
    {
        match self {
            ChartType::Line { bound, .. } => bound,
            ChartType::Bar { bound, .. } => bound,
        }
    }
}

impl Clone for ChartType {
    fn clone(&self) -> (r: Self)
        ensures
            r@ == self@,
    {
        ChartType::with(
            self.kind(),
            clone_names(self.metrics()),
            self.desc().to_owned(),
            self.unit().to_owned(),
            clone_name(self.bound()),
        )
    }
}

/// The configuration of a dashboard.
#[derive(Debug)]
pub struct DashboardOptions {
    /// The charts that the dashboard shows in any case.
    pub custom_charts: Vec<ChartType>,
    /// Whether each metric that no chart draws gets a chart of its own.
    pub include_default: bool,
}

/// A configuration as a mathematical value.
pub struct DashboardOptionsView {
    pub custom_charts: Seq<ChartView>,
    pub include_default: bool,
}

impl View for DashboardOptions {
    type V = DashboardOptionsView;

    open spec fn view(&self) -> DashboardOptionsView {
        DashboardOptionsView {
            custom_charts: self.custom_charts.deep_view(),
            include_default: self.include_default,
        }
    }
}

impl Default for DashboardOptions {
    /// No configured charts, and no charts for the other metrics.
    fn default() -> (r: Self)
        ensures
            r@.custom_charts == Seq::<ChartView>::empty(),
            !r@.include_default,
    {
        let r = DashboardOptions { custom_charts: Vec::new(), include_default: false };
        proof {
            assert(r@.custom_charts =~= Seq::<ChartView>::empty());
        }
        r
    }
}

impl Clone for DashboardOptions {
    fn clone(&self) -> (r: Self)
        ensures
            r@ == self@,
    {
        let mut charts: Vec<ChartType> = Vec::new();
        let mut i: usize = 0;
        while i < self.custom_charts.len()
            invariant
                i <= self.custom_charts.len(),
                charts.len() == i,
                forall|j: int| 0 <= j < i ==> charts[j]@ == self.custom_charts[j]@,
            decreases self.custom_charts.len() - i,
        {
            charts.push(self.custom_charts[i].clone());
            i += 1;
        }
        proof {
            assert(charts.deep_view() =~= self.custom_charts.deep_view());
        }
        DashboardOptions { custom_charts: charts, include_default: self.include_default }
    }
}

/// The metadata record named `key` among `metas`, if there is one.
pub open spec fn meta_named(metas: Seq<MetricMetaView>, key: Seq<char>) -> Option<
    MetricMetaView,
> {
    let i = slot_of(keys_of(metas), key);
    if i < metas.len() {
        Some(metas[i])
    } else {
        None
    }
}

/// A text of a chart, taken from the metadata where the chart has none.
pub open spec fn filled(text: Seq<char>, fallback: Option<Seq<char>>) -> Seq<char> {
    if text.len() == 0 && fallback is Some {
        fallback->0
    } else {
        text
    }
}

/// A configured chart as it is shown: its missing description and unit are
/// taken from the metadata of its first metric. A chart without metrics, or
/// whose first metric is unknown, is shown as it is.
pub open spec fn completed(chart: ChartView, metas: Seq<MetricMetaView>) -> ChartView {
    if chart.metrics.len() == 0 {
        chart
    } else {
        match meta_named(metas, chart.metrics[0]) {
            Some(meta) => ChartView {
                desc: filled(chart.desc, meta.desc),
                unit: filled(chart.unit, meta.unit),
                ..chart
            },
            None => chart,
        }
    }
}

/// The configured charts as they are shown, in the configured order.
pub open spec fn completed_charts(
    customs: Seq<ChartView>,
    metas: Seq<MetricMetaView>,
) -> Seq<ChartView> {
    Seq::new(customs.len(), |i: int| completed(customs[i], metas))
}

/// Whether a configured chart draws the metric `name`.
pub open spec fn charted(customs: Seq<ChartView>, name: Seq<char>) -> bool {
    exists|i: int| 0 <= i < customs.len() && (#[trigger] customs[i]).metrics.contains(name)
}

/// Whether a configured chart uses the metric `name` as its bound.
pub open spec fn bounding(customs: Seq<ChartView>, name: Seq<char>) -> bool {
    exists|i: int| 0 <= i < customs.len() && (#[trigger] customs[i]).bound == Some(name)
}

/// Whether the metric `name` occurs in the configured charts as a bound only.
pub open spec fn bound_only(customs: Seq<ChartView>, name: Seq<char>) -> bool {
    bounding(customs, name) && !charted(customs, name)
}

/// Whether the metric `name` gets a chart of its own: no configured chart
/// draws it, and it is no chart's bound only.
pub open spec fn gets_default(customs: Seq<ChartView>, name: Seq<char>) -> bool {
    !charted(customs, name) && !bound_only(customs, name)
}

/// The chart that a metric gets of its own: a line chart of that metric with
/// the metric's description and unit, each empty where the metric has none.
pub open spec fn default_chart(meta: MetricMetaView) -> ChartView {
    ChartView {
        kind: ChartKind::Line,
        metrics: seq![meta.key],
        desc: match meta.desc {
            Some(d) => d,
            None => Seq::empty(),
        },
        unit: match meta.unit {
            Some(u) => u,
            None => Seq::empty(),
        },
        bound: None,
    }
}

/// `default_chart` for the metrics that get a chart of their own.
pub open spec fn default_fn(customs: Seq<ChartView>) -> spec_fn(MetricMetaView) -> Option<
    ChartView,
> {
    |meta: MetricMetaView|
        if gets_default(customs, meta.key) {
            Some(default_chart(meta))
        } else {
            None
        }
}

/// The charts of the metrics that get a chart of their own, in the order of
/// `metas`.
pub open spec fn default_charts(
    customs: Seq<ChartView>,
    metas: Seq<MetricMetaView>,
) -> Seq<ChartView> {
    metas.filter_map(default_fn(customs))
}

/// The charts before sorting: the configured ones, then the others where the
/// configuration asks for them.
pub open spec fn listed_charts(
    options: DashboardOptionsView,
    metas: Seq<MetricMetaView>,
) -> Seq<ChartView> {
    completed_charts(options.custom_charts, metas) + if options.include_default {
        default_charts(options.custom_charts, metas)
    } else {
        Seq::empty()
    }
}

/// The chart list of a dashboard with the configuration `options` over the
/// metrics `metas`.
pub open spec fn resolved_charts(
    options: DashboardOptionsView,
    metas: Seq<MetricMetaView>,
) -> Seq<ChartView> {
    sorted_by_key(listed_charts(options, metas))
}

/// Whether `name` is among `names`.
fn names_contain(names: &[String], name: &str) -> (r: bool)
    ensures
        r == names.deep_view().contains(name@),
{
    let mut i: usize = 0;
    while i < names.len()
        invariant
            i <= names.len(),
            forall|j: int| 0 <= j < i ==> names[j]@ != name@,
        decreases names.len() - i,
    {
        if name_equal(names[i].as_str(), name) {
            proof {
                assert(names.deep_view()[i as int] == name@);
            }
            return true;
        }
        i += 1;
    }
    proof {
        assert forall|j: int| 0 <= j < names.deep_view().len() implies names.deep_view()[j]
            != name@ by {
            assert(names.deep_view()[j] == names[j]@);
        }
    }
    false
}

/// Whether a chart of `customs` draws the metric `name`.
fn is_charted(customs: &Vec<ChartType>, name: &str) -> (r: bool)
    ensures
        r == charted(customs.deep_view(), name@),
{
    let mut i: usize = 0;
    while i < customs.len()
        invariant
            i <= customs.len(),
            forall|j: int| 0 <= j < i ==> !customs[j]@.metrics.contains(name@),
        decreases customs.len() - i,
    {
        if names_contain(customs[i].metrics(), name) {
            proof {
                assert(customs.deep_view()[i as int] == customs[i as int]@);
            }
            return true;
        }
        i += 1;
    }
    proof {
        assert forall|j: int| 0 <= j < customs.deep_view().len() implies !(
        #[trigger] customs.deep_view()[j]).metrics.contains(name@) by {
            assert(customs.deep_view()[j] == customs[j]@);
        }
    }
    false
}

/// Whether a chart of `customs` uses the metric `name` as its bound.
fn is_bounding(customs: &Vec<ChartType>, name: &str) -> (r: bool)
    ensures
        r == bounding(customs.deep_view(), name@),
{
    let mut i: usize = 0;
    while i < customs.len()
        invariant
            i <= customs.len(),
            forall|j: int| 0 <= j < i ==> customs[j]@.bound != Some(name@),
        decreases customs.len() - i,
    {
        let hit = match customs[i].bound() {
            Some(b) => name_equal(b.as_str(), name),
            None => false,
        };
        if hit {
            proof {
                assert(customs.deep_view()[i as int] == customs[i as int]@);
            }
            return true;
        }
        i += 1;
    }
    proof {
        assert forall|j: int| 0 <= j < customs.deep_view().len() implies (
        #[trigger] customs.deep_view()[j]).bound != Some(name@) by {
            assert(customs.deep_view()[j] == customs[j]@);
        }
    }
    false
}

/// The metadata record named `key` among `metas`, if there is one.
fn find_named<'a>(metas: &'a Vec<MetricMeta>, key: &str) -> (r: Option<&'a MetricMeta>)
    ensures
        r.deep_view() == meta_named(metas.deep_view(), key@),
{
    let mut i: usize = 0;
    while i < metas.len() && !name_equal(metas[i].key.as_str(), key)
        invariant
            i <= metas.len(),
            forall|j: int| 0 <= j < i ==> metas[j].key@ != key@,
        decreases metas.len() - i,
    {
        i += 1;
    }
    proof {
        let keys = keys_of(metas.deep_view());
        lemma_slot_of(keys, key@);
        assert forall|j: int| 0 <= j < i implies keys[j] != key@ by {
            assert(keys[j] == metas[j].key@);
        }
        if i < metas.len() {
            assert(keys[i as int] == metas[i as int].key@);
        }
    }
    if i < metas.len() {
        Some(&metas[i])
    } else {
        None
    }
}

/// `text`, or `fallback` where `text` is empty and there is a fallback.
fn fill(text: &str, fallback: &Option<String>) -> (r: String)
    ensures
        r@ == filled(text@, fallback.deep_view()),
{
    match fallback {
        Some(f) => {
            if text.is_empty() {
                f.clone()
            } else {
                text.to_owned()
            }
        },
        None => text.to_owned(),
    }
}

/// The configured chart `chart` as it is shown.
fn complete(chart: &ChartType, metas: &Vec<MetricMeta>) -> (r: ChartType)
    ensures
        r@ == completed(chart@, metas.deep_view()),
{
    let names = chart.metrics();
    if names.len() == 0 {
        return chart.clone();
    }
    proof {
        assert(names.deep_view()[0] == names[0]@);
    }
    match find_named(metas, names[0].as_str()) {
        Some(meta) => ChartType::with(
            chart.kind(),
            clone_names(names),
            fill(chart.desc(), &meta.desc),
            fill(chart.unit(), &meta.unit),
            clone_name(chart.bound()),
        ),
        None => chart.clone(),
    }
}

/// The chart that the metric of `meta` gets of its own.
fn default_for(meta: &MetricMeta) -> (r: ChartType)
    ensures
        r@ == default_chart(meta@),
{
    let mut metrics: Vec<String> = Vec::new();
    metrics.push(meta.key.clone());
    let desc = match &meta.desc {
        Some(d) => d.clone(),
        None => String::new(),
    };
    let unit = match &meta.unit {
        Some(u) => u.clone(),
        None => String::new(),
    };
    proof {
        assert(metrics.deep_view() =~= seq![meta.key@]);
    }
    ChartType::with(ChartKind::Line, metrics, desc, unit, None)
}

/// The name by which `chart` is sorted.
fn chart_key(chart: &ChartType) -> (k: &str)
    ensures
        k@ == chart@.sort_key(),
{
    let names = chart.metrics();
    if names.len() > 0 {
        proof {
            assert(names.deep_view()[0] == names[0]@);
        }
        names[0].as_str()
    } else {
        proof {
            reveal_strlit("");
            assert(""@ =~= Seq::<char>::empty());
        }
        ""
    }
}

/// Puts `chart` into the sorted list `sorted`, behind the charts whose first
/// metric is not greater than its own.
fn insert_sorted(sorted: &mut Vec<ChartType>, chart: ChartType)
    ensures
        final(sorted).deep_view() == old(sorted).deep_view().insert(
            upper_bound(keys_of(old(sorted).deep_view()), chart@.sort_key()),
            chart@,
        ),
{
    let ghost before = sorted.deep_view();
    let ghost keys = keys_of(before);
    let key = chart_key(&chart);
    let mut p: usize = sorted.len();
    proof {
        assert(keys.take(p as int) =~= keys);
        lemma_upper_bound(keys, key@);
    }
    while p > 0 && name_less(key, chart_key(&sorted[p - 1]))
        invariant
            p <= sorted.len(),
            sorted.deep_view() == before,
            keys == keys_of(before),
            upper_bound(keys, key@) == upper_bound(keys.take(p as int), key@),
        decreases p,
    {
        proof {
            assert(keys.take(p as int).last() == sorted[p - 1]@.sort_key());
            assert(keys.take(p as int).drop_last() =~= keys.take(p - 1));
        }
        p -= 1;
    }
    proof {
        if p > 0 {
            assert(keys.take(p as int).last() == sorted[p - 1]@.sort_key());
        }
    }
    sorted.insert(p, chart);
    proof {
        assert(sorted.deep_view() =~= before.insert(p as int, chart@));
    }
}

/// The chart list for the configuration `options` over the metrics `metas`.
pub fn resolve_charts(options: &DashboardOptions, metas: &Vec<MetricMeta>) -> (r: Vec<ChartType>)
    ensures
        r.deep_view() == resolved_charts(options@, metas.deep_view()),
{
    let customs = &options.custom_charts;
    let ghost shown = completed_charts(customs.deep_view(), metas.deep_view());
    let mut res: Vec<ChartType> = Vec::new();
    let mut i: usize = 0;
    proof {
        assert(shown.take(0) =~= Seq::empty());
        assert(res.deep_view() =~= Seq::empty());
    }
    while i < customs.len()
        invariant
            i <= customs.len(),
            shown == completed_charts(customs.deep_view(), metas.deep_view()),
            res.deep_view() == sorted_by_key(shown.take(i as int)),
        decreases customs.len() - i,
    {
        let chart = complete(&customs[i], metas);
        proof {
            assert(customs.deep_view()[i as int] == customs[i as int]@);
            assert(shown.take(i + 1).drop_last() =~= shown.take(i as int));
            assert(shown.take(i + 1).last() == chart@);
        }
        insert_sorted(&mut res, chart);
        i += 1;
    }
    proof {
        assert(shown.take(i as int) =~= shown);
    }
    if options.include_default {
        let ghost all = metas.deep_view();
        let ghost pick = default_fn(customs.deep_view());
        let mut j: usize = 0;
        proof {
            assert(all.take(0) =~= Seq::empty());
            assert(shown + all.take(0).filter_map(pick) =~= shown);
        }
        while j < metas.len()
            invariant
                j <= metas.len(),
                all == metas.deep_view(),
                pick == default_fn(customs.deep_view()),
                res.deep_view() == sorted_by_key(shown + all.take(j as int).filter_map(pick)),
            decreases metas.len() - j,
        {
            let key = metas[j].key.as_str();
            proof {
                all.lemma_filter_map_take_succ(pick, j as int);
                assert(all[j as int] == metas[j as int]@);
            }
            if !is_charted(customs, key) && !is_bounding(customs, key) {
                let chart = default_for(&metas[j]);
                proof {
                    let listed = shown + all.take(j + 1).filter_map(pick);
                    assert(listed.drop_last() =~= shown + all.take(j as int).filter_map(pick));
                    assert(listed.last() == chart@);
                }
                insert_sorted(&mut res, chart);
            }
            j += 1;
        }
        proof {
            assert(all.take(j as int) =~= all);
        }
    } else {
        proof {
            assert(shown + Seq::<ChartView>::empty() =~= shown);
        }
    }
    res
}

} // verus!
