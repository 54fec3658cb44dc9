//! The recorder: the registry of metrics and its query surface.
use crate::charts::DashboardOptions;
use crate::laws::law_handle_names_its_cell;
use crate::model::{
    cell_names, lemma_keys_push, lemma_push_fresh, lemma_slot_of, lemma_slot_of_is, redescribed,
    slot_of, CellView, MetricMetaView, MetricValueView, RegistryView,
};
use crate::names::{name_equal, name_less};
use crate::sorting::{
    keys_of, lemma_sorted_permutes, lemma_sorted_strictly_ordered, lemma_upper_bound,
    sorted_by_key, strictly_ordered, upper_bound,
};
use vstd::prelude::*;

pub mod counter;
pub mod gauge;
pub mod histogram;

pub use counter::SimpleCounter;
pub use gauge::SimpleGauge;
pub use histogram::SimpleHistogram;

verus! {

/// The kind of a metric. It is fixed by the first call that names the metric.
#[derive(Debug, Clone, Copy, PartialEq, Eq, Structural)]
pub enum MetricType {
    Counter,
    Gauge,
    Histogram,
}

/// What is recorded about a metric: its name, its kind, and the description
/// and unit that were declared for it.
#[derive(Debug)]
pub struct MetricMeta {
    pub key: String,
    pub typ: MetricType,
    pub desc: Option<String>,
    pub unit: Option<String>,
}

impl View for MetricMeta {
    type V = MetricMetaView;

    open spec fn view(&self) -> MetricMetaView {
        MetricMetaView {
            key: self.key@,
            typ: self.typ,
            desc: self.desc.deep_view(),
            unit: self.unit.deep_view(),
        }
    }
}

impl DeepView for MetricMeta {
    type V = MetricMetaView;

    open spec fn deep_view(&self) -> MetricMetaView {
        self@
    }
}

impl Clone for MetricMeta {
    fn clone(&self) -> (r: Self)
        ensures
            r == *self,
    {
        MetricMeta {
            key: self.key.clone(),
            typ: self.typ,
            desc: match &self.desc {
                Some(d) => Some(d.clone()),
                None => None,
            },
            unit: match &self.unit {
                Some(u) => Some(u.clone()),
                None => None,
            },
        }
    }
}

/// One entry of a value query. A counter answers with `value_u64`, a gauge
/// with `value_bits`, the bit pattern of its binary64 value.
#[derive(Debug)]
pub struct MetricValue {
    pub key: String,
    pub value_u64: Option<u64>,
    pub value_bits: Option<u64>,
}

impl View for MetricValue {
    type V = MetricValueView;

    open spec fn view(&self) -> MetricValueView {
        MetricValueView { key: self.key@, value_u64: self.value_u64, value_bits: self.value_bits }
    }
}

impl DeepView for MetricValue {
    type V = MetricValueView;

    open spec fn deep_view(&self) -> MetricValueView {
        self@
    }
}

/// The handle of a counter: the slot of its cell.
#[derive(Debug, Clone, Copy, PartialEq, Eq, Structural)]
pub struct CounterHandle {
    pub slot: usize,
}

/// The handle of a gauge: the slot of its cell.
#[derive(Debug, Clone, Copy, PartialEq, Eq, Structural)]
pub struct GaugeHandle {
    pub slot: usize,
}

/// The handle of a histogram: its slot.
#[derive(Debug, Clone, Copy, PartialEq, Eq, Structural)]
pub struct HistogramHandle {
    pub slot: usize,
}

/// A cell under its name.
struct Slot<C> {
    name: String,
    cell: C,
}

/// The names of `slots`, in order.
spec fn slot_names<C>(slots: Seq<Slot<C>>) -> Seq<Seq<char>> {
    Seq::new(slots.len(), |i: int| slots[i].name@)
}

/// The named cells of `slots`, in order.
spec fn slot_cells<C: View<V = u64>>(slots: Seq<Slot<C>>) -> Seq<CellView> {
    Seq::new(slots.len(), |i: int| CellView { name: slots[i].name@, value: slots[i].cell@ })
}

/// The slot of the metadata record of `key`, or the number of records where
/// there is none.
fn find_meta(metrics: &Vec<MetricMeta>, key: &str) -> (i: usize)
    ensures
        i == slot_of(keys_of(metrics.deep_view()), key@),
        i <= metrics.len(),
{
    let mut i: usize = 0;
    while i < metrics.len() && !name_equal(metrics[i].key.as_str(), key)
        invariant
            i <= metrics.len(),
            forall|j: int| 0 <= j < i ==> metrics[j].key@ != key@,
        decreases metrics.len() - i,
    {
        i += 1;
    }
    proof {
        let keys = keys_of(metrics.deep_view());
        assert forall|j: int| 0 <= j < i implies keys[j] != key@ by {
            assert(keys[j] == metrics[j].key@);
        }
        if i < metrics.len() {
            assert(keys[i as int] == metrics[i as int].key@);
        }
        lemma_slot_of_is(keys, key@, i as int);
    }
    i
}

/// The slot of the cell named `key`, or the number of slots where there is
/// none.
fn find_slot<C>(slots: &Vec<Slot<C>>, key: &str) -> (i: usize)
    ensures
        i == slot_of(slot_names(slots@), key@),
        i <= slots.len(),
{
    let mut i: usize = 0;
    while i < slots.len() && !name_equal(slots[i].name.as_str(), key)
        invariant
            i <= slots.len(),
            forall|j: int| 0 <= j < i ==> slots[j].name@ != key@,
        decreases slots.len() - i,
    {
        i += 1;
    }
    proof {
        lemma_slot_of_is(slot_names(slots@), key@, i as int);
    }
    i
}

/// Puts a new cell named `key` behind the others.
fn add_slot<C>(slots: &mut Vec<Slot<C>>, key: &str, cell: C)
    requires
        slot_names(old(slots)@).no_duplicates(),
        !slot_names(old(slots)@).contains(key@),
    ensures
        final(slots)@.len() == old(slots)@.len() + 1,
        forall|j: int| 0 <= j < old(slots)@.len() ==> final(slots)@[j] == old(slots)@[j],
        final(slots)@[old(slots)@.len() as int].name@ == key@,
        final(slots)@[old(slots)@.len() as int].cell == cell,
        slot_names(final(slots)@) == slot_names(old(slots)@).push(key@),
        slot_names(final(slots)@).no_duplicates(),
{
    slots.push(Slot { name: key.to_owned(), cell });
    proof {
        let before = slot_names(old(slots)@);
        assert(slot_names(slots@) =~= before.push(key@));
        lemma_slot_of(before, key@);
        lemma_push_fresh(before, key@);
    }
}

/// Replaces the cell at slot `i`. The name stays.
fn store_cell<C>(slots: &mut Vec<Slot<C>>, i: usize, cell: C)
    requires
        i < old(slots)@.len(),
    ensures
        final(slots)@.len() == old(slots)@.len(),
        forall|j: int| 0 <= j < old(slots)@.len() && j != i ==> final(slots)@[j] == old(slots)@[j],
        final(slots)@[i as int].name == old(slots)@[i as int].name,
        final(slots)@[i as int].cell == cell,
        slot_names(final(slots)@) == slot_names(old(slots)@),
    no_unwind
{
    slots[i].cell = cell;
    proof {
        assert(slot_names(slots@) =~= slot_names(old(slots)@));
    }
}

/// Replaces the description of the record at slot `i`, and its unit where one
/// is given.
fn redescribe(metrics: &mut Vec<MetricMeta>, i: usize, unit: Option<String>, description: String)
    requires
        i < old(metrics)@.len(),
    ensures
        final(metrics).deep_view() == old(metrics).deep_view().update(
            i as int,
            redescribed(old(metrics).deep_view()[i as int], unit.deep_view(), description@),
        ),
        keys_of(final(metrics).deep_view()) == keys_of(old(metrics).deep_view()),
    no_unwind
{
    metrics[i].desc = Some(description);
    match unit {
        Some(u) => {
            metrics[i].unit = Some(u);
        },
        None => {},
    }
    proof {
        assert(metrics.deep_view() =~= old(metrics).deep_view().update(
            i as int,
            redescribed(old(metrics).deep_view()[i as int], unit.deep_view(), description@),
        ));
        assert(keys_of(metrics.deep_view()) =~= keys_of(old(metrics).deep_view()));
    }
}

/// Puts a new metadata record behind the others.
fn add_meta(metrics: &mut Vec<MetricMeta>, meta: MetricMeta)
    requires
        keys_of(old(metrics).deep_view()).no_duplicates(),
        !keys_of(old(metrics).deep_view()).contains(meta.key@),
    ensures
        final(metrics).deep_view() == old(metrics).deep_view().push(meta@),
        keys_of(final(metrics).deep_view()).no_duplicates(),
{
    metrics.push(meta);
    proof {
        let before = keys_of(old(metrics).deep_view());
        assert(metrics.deep_view() =~= old(metrics).deep_view().push(meta@));
        lemma_keys_push(old(metrics).deep_view(), meta@);
        lemma_slot_of(before, meta.key@);
        lemma_push_fresh(before, meta.key@);
    }
}

/// Where a record named `key` goes in `sorted`: behind the last record whose
/// name is not greater.
fn insertion_point(sorted: &Vec<MetricMeta>, key: &str) -> (p: usize)
    ensures
        p == upper_bound(keys_of(sorted.deep_view()), key@),
{
    let ghost keys = keys_of(sorted.deep_view());
    let mut p: usize = sorted.len();
    proof {
        assert(keys.take(p as int) =~= keys);
    }
    while p > 0 && name_less(key, sorted[p - 1].key.as_str())
        invariant
            p <= sorted.len(),
            keys == keys_of(sorted.deep_view()),
            upper_bound(keys, key@) == upper_bound(keys.take(p as int), key@),
        decreases p,
    {
        proof {
            assert(keys.take(p as int).last() == sorted[p - 1].key@);
            assert(keys.take(p as int).drop_last() =~= keys.take(p - 1));
        }
        p -= 1;
    }
    proof {
        if p > 0 {
            assert(keys.take(p as int).last() == sorted[p - 1].key@);
        }
    }
    p
}

/// The registry's state: the metadata records and the cells, each in order of
/// first registration.
///
/// The invariant holds whenever control leaves this type's functions. A list
/// that grows is therefore taken out of the state, extended, and put back.
struct DashboardStorage {
    metrics: Vec<MetricMeta>,
    counters: Vec<Slot<SimpleCounter>>,
    gauges: Vec<Slot<SimpleGauge>>,
    histograms: Vec<Slot<SimpleHistogram>>,
}

impl View for DashboardStorage {
    type V = RegistryView;

    closed spec fn view(&self) -> RegistryView {
        RegistryView {
            metrics: self.metrics.deep_view(),
            counters: slot_cells(self.counters@),
            gauges: slot_cells(self.gauges@),
            histograms: slot_names(self.histograms@),
        }
    }
}

impl DashboardStorage {
    /// No name occurs twice among the records, nor among the cells of one
    /// kind.
    #[verifier::type_invariant]
    spec fn inv(&self) -> bool {
        &&& keys_of(self.metrics.deep_view()).no_duplicates()
        &&& slot_names(self.counters@).no_duplicates()
        &&& slot_names(self.gauges@).no_duplicates()
        &&& slot_names(self.histograms@).no_duplicates()
    }

    /// The invariant of the state is the well-formedness of its model.
    proof fn lemma_inv_wf(&self)
        requires
            self.inv(),
        ensures
            self@.wf(),
            cell_names(self@.counters) == slot_names(self.counters@),
            cell_names(self@.gauges) == slot_names(self.gauges@),
    {
        assert(cell_names(slot_cells(self.counters@)) =~= slot_names(self.counters@));
        assert(cell_names(slot_cells(self.gauges@)) =~= slot_names(self.gauges@));
    }

    /// The state in which nothing is registered.
    fn new() -> (r: Self)
        ensures
            r@ == RegistryView::empty(),
    {
        let r = DashboardStorage {
            metrics: Vec::new(),
            counters: Vec::new(),
            gauges: Vec::new(),
            histograms: Vec::new(),
        };
        proof {
            assert(r@.metrics =~= Seq::empty());
            assert(r@.counters =~= Seq::empty());
            assert(r@.gauges =~= Seq::empty());
            assert(r@.histograms =~= Seq::empty());
        }
        r
    }

    /// Declares `key`: a new record where it is unknown, a new description,
    /// and unit where one is given, where it is known.
    fn describe(&mut self, key: &str, typ: MetricType, unit: Option<&str>, description: &str)
        ensures
            final(self)@ == old(self)@.describe(key@, typ, unit.deep_view(), description@),
    {
        proof {
            use_type_invariant(&*self);
            lemma_slot_of(keys_of(self.metrics.deep_view()), key@);
        }
        let unit_owned = match unit {
            Some(u) => Some(u.to_owned()),
            None => None,
        };
        let i = find_meta(&self.metrics, key);
        if i < self.metrics.len() {
            redescribe(&mut self.metrics, i, unit_owned, description.to_owned());
        } else {
            let mut metrics: Vec<MetricMeta> = Vec::new();
            core::mem::swap(&mut self.metrics, &mut metrics);
            add_meta(
                &mut metrics,
                MetricMeta {
                    key: key.to_owned(),
                    typ,
                    desc: Some(description.to_owned()),
                    unit: unit_owned,
                },
            );
            self.metrics = metrics;
        }
    }

    /// Records that `key` was registered with kind `typ`, unless it is known
    /// already.
    fn register_meta(&mut self, key: &str, typ: MetricType)
        ensures
            final(self)@ == old(self)@.register_meta(key@, typ),
    {
        proof {
            use_type_invariant(&*self);
            lemma_slot_of(keys_of(self.metrics.deep_view()), key@);
        }
        let i = find_meta(&self.metrics, key);
        if i >= self.metrics.len() {
            let mut metrics: Vec<MetricMeta> = Vec::new();
            core::mem::swap(&mut self.metrics, &mut metrics);
            add_meta(&mut metrics, MetricMeta { key: key.to_owned(), typ, desc: None, unit: None });
            self.metrics = metrics;
        }
    }

    /// The handle of the counter cell of `key`, which is made at zero where
    /// there is none.
    fn get_counter(&mut self, key: &str) -> (h: CounterHandle)
        ensures
            final(self)@ == old(self)@.with_counter(key@),
            h.slot == old(self)@.counter_slot(key@),
            h.slot < final(self)@.counters.len(),
    {
        proof {
            use_type_invariant(&*self);
            self.lemma_inv_wf();
            lemma_slot_of(slot_names(self.counters@), key@);
        }
        let i = find_slot(&self.counters, key);
        if i >= self.counters.len() {
            let mut counters: Vec<Slot<SimpleCounter>> = Vec::new();
            core::mem::swap(&mut self.counters, &mut counters);
            add_slot(&mut counters, key, SimpleCounter::default());
            self.counters = counters;
            proof {
                assert(slot_cells(self.counters@) =~= slot_cells(old(self).counters@).push(
                    CellView { name: key@, value: 0 },
                ));
            }
        }
        CounterHandle { slot: i }
    }

    /// The handle of the gauge cell of `key`, which is made at 0.0 where
    /// there is none.
    fn get_gauge(&mut self, key: &str) -> (h: GaugeHandle)
        ensures
            final(self)@ == old(self)@.with_gauge(key@),
            h.slot == old(self)@.gauge_slot(key@),
            h.slot < final(self)@.gauges.len(),
    {
        proof {
            use_type_invariant(&*self);
            self.lemma_inv_wf();
            lemma_slot_of(slot_names(self.gauges@), key@);
        }
        let i = find_slot(&self.gauges, key);
        if i >= self.gauges.len() {
            let mut gauges: Vec<Slot<SimpleGauge>> = Vec::new();
            core::mem::swap(&mut self.gauges, &mut gauges);
            add_slot(&mut gauges, key, SimpleGauge::default());
            self.gauges = gauges;
            proof {
                assert(slot_cells(self.gauges@) =~= slot_cells(old(self).gauges@).push(
                    CellView { name: key@, value: 0 },
                ));
            }
        }
        GaugeHandle { slot: i }
    }

    /// The handle of the histogram of `key`, which is made where there is
    /// none.
    fn get_histogram(&mut self, key: &str) -> (h: HistogramHandle)
        ensures
            final(self)@ == old(self)@.with_histogram(key@),
            h.slot == old(self)@.histogram_slot(key@),
            h.slot < final(self)@.histograms.len(),
    {
        proof {
            use_type_invariant(&*self);
            lemma_slot_of(slot_names(self.histograms@), key@);
        }
        let i = find_slot(&self.histograms, key);
        if i >= self.histograms.len() {
            let mut histograms: Vec<Slot<SimpleHistogram>> = Vec::new();
            core::mem::swap(&mut self.histograms, &mut histograms);
            add_slot(&mut histograms, key, SimpleHistogram::default());
            self.histograms = histograms;
        }
        HistogramHandle { slot: i }
    }

    /// Adds `value` to the counter cell at `slot`, where there is one.
    fn increment_counter(&mut self, slot: usize, value: u64)
        ensures
            final(self)@ == old(self)@.increment_counter(slot as int, value),
    {
        if slot < self.counters.len() {
            let mut cell = self.counters[slot].cell;
            cell.increment(value);
            proof {
                use_type_invariant(&*self);
            }
            store_cell(&mut self.counters, slot, cell);
            proof {
                assert(slot_cells(self.counters@) =~= slot_cells(old(self).counters@).update(
                    slot as int,
                    CellView { name: old(self).counters@[slot as int].name@, value: cell@ },
                ));
            }
        }
    }

    /// Stores `value` in the counter cell at `slot`, where there is one.
    fn set_counter(&mut self, slot: usize, value: u64)
        ensures
            final(self)@ == old(self)@.set_counter(slot as int, value),
    {
        if slot < self.counters.len() {
            let mut cell = self.counters[slot].cell;
            cell.absolute(value);
            proof {
                use_type_invariant(&*self);
            }
            store_cell(&mut self.counters, slot, cell);
            proof {
                assert(slot_cells(self.counters@) =~= slot_cells(old(self).counters@).update(
                    slot as int,
                    CellView { name: old(self).counters@[slot as int].name@, value: cell@ },
                ));
            }
        }
    }

    /// Stores `bits` in the gauge cell at `slot`, where there is one.
    fn set_gauge(&mut self, slot: usize, bits: u64)
        ensures
            final(self)@ == old(self)@.set_gauge(slot as int, bits),
    {
        if slot < self.gauges.len() {
            let mut cell = self.gauges[slot].cell;
            cell.set(bits);
            proof {
                use_type_invariant(&*self);
            }
            store_cell(&mut self.gauges, slot, cell);
            proof {
                assert(slot_cells(self.gauges@) =~= slot_cells(old(self).gauges@).update(
                    slot as int,
                    CellView { name: old(self).gauges@[slot as int].name@, value: cell@ },
                ));
            }
        }
    }

    /// A copy of the counter cell at `slot`, where there is one.
    fn counter(&self, slot: usize) -> (r: Option<SimpleCounter>)
        ensures
            r is Some <==> slot < self@.counters.len(),
            r is Some ==> r->0@ == self@.counters[slot as int].value,
    {
        if slot < self.counters.len() {
            Some(self.counters[slot].cell)
        } else {
            None
        }
    }

    /// A copy of the gauge cell at `slot`, where there is one.
    fn gauge(&self, slot: usize) -> (r: Option<SimpleGauge>)
        ensures
            r is Some <==> slot < self@.gauges.len(),
            r is Some ==> r->0@ == self@.gauges[slot as int].value,
    {
        if slot < self.gauges.len() {
            Some(self.gauges[slot].cell)
        } else {
            None
        }
    }

    /// The answer of a value query for `key`.
    fn value(&self, key: &str) -> (r: Option<MetricValue>)
        ensures
            r.deep_view() == self@.value_of(key@),
    {
        proof {
            use_type_invariant(self);
            self.lemma_inv_wf();
            lemma_slot_of(keys_of(self.metrics.deep_view()), key@);
        }
        let m = find_meta(&self.metrics, key);
        if m >= self.metrics.len() {
            return None;
        }
        match self.metrics[m].typ {
            MetricType::Counter => {
                let c = find_slot(&self.counters, key);
                let count = if c < self.counters.len() {
                    self.counters[c].cell.value()
                } else {
                    0
                };
                Some(MetricValue { key: key.to_owned(), value_u64: Some(count), value_bits: None })
            },
            MetricType::Gauge => {
                let g = find_slot(&self.gauges, key);
                let bits = if g < self.gauges.len() {
                    self.gauges[g].cell.value()
                } else {
                    0
                };
                Some(MetricValue { key: key.to_owned(), value_u64: None, value_bits: Some(bits) })
            },
            MetricType::Histogram => None,
        }
    }

    /// The metadata records, sorted by name.
    fn sorted_metrics(&self) -> (r: Vec<MetricMeta>)
        ensures
            r.deep_view() == sorted_by_key(self@.metrics),
    {
        let mut res: Vec<MetricMeta> = Vec::new();
        let mut i: usize = 0;
        proof {
            assert(self.metrics.deep_view().take(0) =~= Seq::empty());
            assert(res.deep_view() =~= Seq::empty());
        }
        while i < self.metrics.len()
            invariant
                i <= self.metrics.len(),
                res.deep_view() == sorted_by_key(self.metrics.deep_view().take(i as int)),
            decreases self.metrics.len() - i,
        {
            let meta = self.metrics[i].clone();
            let p = insertion_point(&res, meta.key.as_str());
            let ghost before = res.deep_view();
            proof {
                lemma_upper_bound(keys_of(before), meta.key@);
            }
            res.insert(p, meta);
            proof {
                let src = self.metrics.deep_view();
                assert(src.take(i + 1).drop_last() =~= src.take(i as int));
                assert(src.take(i + 1).last() == self.metrics[i as int]@);
                assert(res.deep_view() =~= before.insert(p as int, meta@));
            }
            i += 1;
        }
        proof {
            assert(self.metrics.deep_view().take(i as int) =~= self.metrics.deep_view());
        }
        res
    }
}

/// The recorder of a dashboard: its configuration and its registry.
///
/// Metrics are declared with the `describe_*` functions and registered with
/// the `register_*` functions, which hand out the handle of the metric's
/// cell. The view of a recorder is the state of its registry.
pub struct DashboardRecorder {
    options: DashboardOptions,
    storage: DashboardStorage,
}

impl View for DashboardRecorder {
    type V = RegistryView;

    closed spec fn view(&self) -> RegistryView {
        self.storage@
    }
}

impl DashboardRecorder {
    /// The configuration that the recorder was made with.
    pub closed spec fn spec_options(&self) -> &DashboardOptions {
        &self.options
    }

    /// A recorder with the configuration `opts`, in which nothing is
    /// registered.
    pub fn new(opts: DashboardOptions) -> (r: Self)
        ensures
            *r.options() == opts,
            r@ == RegistryView::empty(),
    {
        DashboardRecorder { options: opts, storage: DashboardStorage::new() }
    }

    /// The configuration that the recorder was made with.
    #[verifier::when_used_as_spec(spec_options)]
    pub fn options(&self) -> (r: &DashboardOptions)
        ensures
            r == self.options(),
    {
        &self.options
    }

    /// The metadata of all metrics, sorted ascending by name.
    pub fn metrics(&self) -> (r: Vec<MetricMeta>)
        ensures
            r.deep_view() == sorted_by_key(self@.metrics),
            strictly_ordered(keys_of(r.deep_view())),
            r.deep_view().to_multiset() == self@.metrics.to_multiset(),
            self@.wf(),
    {
        proof {
            use_type_invariant(&self.storage);
            self.storage.lemma_inv_wf();
            lemma_sorted_strictly_ordered(self@.metrics);
            lemma_sorted_permutes(self@.metrics);
        }
        self.storage.sorted_metrics()
    }

    /// The current values of the metrics named in `keys`, in the order of
    /// `keys`. A name that is unknown, or that names a histogram, has no
    /// entry.
    pub fn metrics_value(&self, keys: Vec<&str>) -> (r: Vec<MetricValue>)
        ensures
            r.deep_view() == self@.values_of(keys.deep_view()),
            self@.wf(),
    {
        let mut data: Vec<MetricValue> = Vec::new();
        let mut i: usize = 0;
        proof {
            use_type_invariant(&self.storage);
            self.storage.lemma_inv_wf();
            assert(keys.deep_view().take(0) =~= Seq::empty());
            assert(data.deep_view() =~= Seq::empty());
        }
        while i < keys.len()
            invariant
                i <= keys.len(),
                data.deep_view() == self@.values_of(keys.deep_view().take(i as int)),
            decreases keys.len() - i,
        {
            let ghost before = data.deep_view();
            let value = self.storage.value(keys[i]);
            proof {
                keys.deep_view().lemma_filter_map_take_succ(self@.value_fn(), i as int);
                assert(keys.deep_view()[i as int] == keys[i as int]@);
            }
            match value {
                Some(v) => {
                    data.push(v);
                    proof {
                        assert(data.deep_view() =~= before + seq![v@]);
                    }
                },
                None => {},
            }
            i += 1;
        }
        proof {
            assert(keys.deep_view().take(i as int) =~= keys.deep_view());
        }
        data
    }

    /// Declares the counter `key` with its unit and description.
    pub fn describe_counter(&mut self, key: &str, unit: Option<&str>, description: &str)
        ensures
            final(self)@ == old(self)@.describe(
                key@,
                MetricType::Counter,
                unit.deep_view(),
                description@,
            ),
            final(self).options() == old(self).options(),
            final(self)@.wf(),
    {
        self.storage.describe(key, MetricType::Counter, unit, description);
        proof {
            use_type_invariant(&self.storage);
            self.storage.lemma_inv_wf();
        }
    }

    /// Declares the gauge `key` with its unit and description.
    pub fn describe_gauge(&mut self, key: &str, unit: Option<&str>, description: &str)
        ensures
            final(self)@ == old(self)@.describe(
                key@,
                MetricType::Gauge,
                unit.deep_view(),
                description@,
            ),
            final(self).options() == old(self).options(),
            final(self)@.wf(),
    {
        self.storage.describe(key, MetricType::Gauge, unit, description);
        proof {
            use_type_invariant(&self.storage);
            self.storage.lemma_inv_wf();
        }
    }

    /// Declares the histogram `key` with its unit and description.
    pub fn describe_histogram(&mut self, key: &str, unit: Option<&str>, description: &str)
        ensures
            final(self)@ == old(self)@.describe(
                key@,
                MetricType::Histogram,
                unit.deep_view(),
                description@,
            ),
            final(self).options() == old(self).options(),
            final(self)@.wf(),
    {
        self.storage.describe(key, MetricType::Histogram, unit, description);
        proof {
            use_type_invariant(&self.storage);
            self.storage.lemma_inv_wf();
        }
    }

    /// Registers the counter `key` and returns the handle of its cell. The
    /// first registration makes the cell, at zero; every later one returns
    /// the same handle.
    pub fn register_counter(&mut self, key: &str) -> (h: CounterHandle)
        ensures
            final(self)@ == old(self)@.register_counter(key@),
            h.slot == old(self)@.counter_slot(key@),
            h.slot == final(self)@.counter_slot(key@),
            h.slot < final(self)@.counters.len(),
            final(self)@.counters[h.slot as int].name == key@,
            final(self).options() == old(self).options(),
            final(self)@.wf(),
    {
        self.storage.register_meta(key, MetricType::Counter);
        let h = self.storage.get_counter(key);
        proof {
            use_type_invariant(&self.storage);
            self.storage.lemma_inv_wf();
            law_handle_names_its_cell(old(self)@, key@);
        }
        h
    }

    /// Registers the gauge `key` and returns the handle of its cell. The
    /// first registration makes the cell, at 0.0; every later one returns the
    /// same handle.
    pub fn register_gauge(&mut self, key: &str) -> (h: GaugeHandle)
        ensures
            final(self)@ == old(self)@.register_gauge(key@),
            h.slot == old(self)@.gauge_slot(key@),
            h.slot == final(self)@.gauge_slot(key@),
            h.slot < final(self)@.gauges.len(),
            final(self)@.gauges[h.slot as int].name == key@,
            final(self).options() == old(self).options(),
            final(self)@.wf(),
    {
        self.storage.register_meta(key, MetricType::Gauge);
        let h = self.storage.get_gauge(key);
        proof {
            use_type_invariant(&self.storage);
            self.storage.lemma_inv_wf();
            law_handle_names_its_cell(old(self)@, key@);
        }
        h
    }

    /// Registers the histogram `key` and returns its handle. Every later
    /// registration returns the same handle.
    pub fn register_histogram(&mut self, key: &str) -> (h: HistogramHandle)
        ensures
            final(self)@ == old(self)@.register_histogram(key@),
            h.slot == old(self)@.histogram_slot(key@),
            h.slot == final(self)@.histogram_slot(key@),
            h.slot < final(self)@.histograms.len(),
            final(self)@.histograms[h.slot as int] == key@,
            final(self).options() == old(self).options(),
            final(self)@.wf(),
    {
        self.storage.register_meta(key, MetricType::Histogram);
        let h = self.storage.get_histogram(key);
        proof {
            use_type_invariant(&self.storage);
            self.storage.lemma_inv_wf();
            law_handle_names_its_cell(old(self)@, key@);
        }
        h
    }

    /// Adds `value` to the counter of `handle`, wrapping at the width of the
    /// cell. A handle that this recorder did not hand out changes nothing.
    pub fn increment_counter(&mut self, handle: CounterHandle, value: u64)
        ensures
            final(self)@ == old(self)@.increment_counter(handle.slot as int, value),
            final(self).options() == old(self).options(),
            final(self)@.wf(),
    {
        self.storage.increment_counter(handle.slot, value);
        proof {
            use_type_invariant(&self.storage);
            self.storage.lemma_inv_wf();
        }
    }

    /// Sets the counter of `handle` to `value`. A handle that this recorder
    /// did not hand out changes nothing.
    pub fn set_counter(&mut self, handle: CounterHandle, value: u64)
        ensures
            final(self)@ == old(self)@.set_counter(handle.slot as int, value),
            final(self).options() == old(self).options(),
            final(self)@.wf(),
    {
        self.storage.set_counter(handle.slot, value);
        proof {
            use_type_invariant(&self.storage);
            self.storage.lemma_inv_wf();
        }
    }

    /// Sets the gauge of `handle` to the value with the bit pattern `bits`. A
    /// handle that this recorder did not hand out changes nothing.
    pub fn set_gauge(&mut self, handle: GaugeHandle, bits: u64)
        ensures
            final(self)@ == old(self)@.set_gauge(handle.slot as int, bits),
            final(self).options() == old(self).options(),
            final(self)@.wf(),
    {
        self.storage.set_gauge(handle.slot, bits);
        proof {
            use_type_invariant(&self.storage);
            self.storage.lemma_inv_wf();
        }
    }

    /// A copy of the counter cell of `handle`; `None` for a handle that this
    /// recorder did not hand out.
    pub fn counter(&self, handle: CounterHandle) -> (r: Option<SimpleCounter>)
        ensures
            r is Some <==> handle.slot < self@.counters.len(),
            r is Some ==> r->0@ == self@.counters[handle.slot as int].value,
    {
        self.storage.counter(handle.slot)
    }

    /// A copy of the gauge cell of `handle`; `None` for a handle that this
    /// recorder did not hand out.
    pub fn gauge(&self, handle: GaugeHandle) -> (r: Option<SimpleGauge>)
        ensures
            r is Some <==> handle.slot < self@.gauges.len(),
            r is Some ==> r->0@ == self@.gauges[handle.slot as int].value,
    {
        self.storage.gauge(handle.slot)
    }
}

} // verus!
