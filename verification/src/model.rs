//! The mathematical model of the registry.
//!
//! A registry is four sequences in order of first registration: the metadata
//! records, the counter cells, the gauge cells and the histogram names. A
//! handle is the position of a cell. Every operation of the recorder is a
//! function on this model, and the contracts of the executable code are
//! stated through these functions.
use crate::recorder::MetricType;
use crate::sorting::{keys_of, Keyed};
use vstd::prelude::*;

verus! {

/// What is recorded about a metric.
pub struct MetricMetaView {
    pub key: Seq<char>,
    pub typ: MetricType,
    pub desc: Option<Seq<char>>,
    pub unit: Option<Seq<char>>,
}

impl Keyed for MetricMetaView {
    open spec fn sort_key(&self) -> Seq<char> {
        self.key
    }
}

/// A named cell. A counter cell holds its count; a gauge cell holds the bit
/// pattern of its binary64 value.
pub struct CellView {
    pub name: Seq<char>,
    pub value: u64,
}

/// One entry of a value query: the count of a counter, or the bit pattern of
/// a gauge.
pub struct MetricValueView {
    pub key: Seq<char>,
    pub value_u64: Option<u64>,
    pub value_bits: Option<u64>,
}

/// The state of a registry.
pub struct RegistryView {
    pub metrics: Seq<MetricMetaView>,
    pub counters: Seq<CellView>,
    pub gauges: Seq<CellView>,
    pub histograms: Seq<Seq<char>>,
}

/// The position of the first occurrence of `key` in `names`, or the length of
/// `names` where it does not occur.
pub open spec fn slot_of(names: Seq<Seq<char>>, key: Seq<char>) -> int
    decreases names.len(),
{
    if names.len() == 0 {
        0
    } else if names[0] == key {
        0
    } else {
        1 + slot_of(names.drop_first(), key)
    }
}

/// The names of the cells of `cells`, in order.
pub open spec fn cell_names(cells: Seq<CellView>) -> Seq<Seq<char>> {
    Seq::new(cells.len(), |i: int| cells[i].name)
}

/// The sum of a count and an increment, wrapping at the width of the cell.
pub open spec fn counter_sum(value: u64, delta: u64) -> u64 {
    ((value + delta) % 0x1_0000_0000_0000_0000) as u64
}

/// The metadata that `describe` leaves for a metric that is already known:
/// the description is replaced, the unit is replaced where one is given, the
/// name and the kind stay.
pub open spec fn redescribed(
    meta: MetricMetaView,
    unit: Option<Seq<char>>,
    desc: Seq<char>,
) -> MetricMetaView {
    MetricMetaView {
        key: meta.key,
        typ: meta.typ,
        desc: Some(desc),
        unit: if unit is Some {
            unit
        } else {
            meta.unit
        },
    }
}

impl RegistryView {
    /// The registry in which nothing is registered.
    pub open spec fn empty() -> RegistryView {
        RegistryView {
            metrics: Seq::empty(),
            counters: Seq::empty(),
            gauges: Seq::empty(),
            histograms: Seq::empty(),
        }
    }

    /// The names of the metadata records, in order.
    pub open spec fn metric_keys(self) -> Seq<Seq<char>> {
        keys_of(self.metrics)
    }

    /// No name has two metadata records, two counter cells, two gauge cells
    /// or two histograms.
    pub open spec fn wf(self) -> bool {
        &&& self.metric_keys().no_duplicates()
        &&& cell_names(self.counters).no_duplicates()
        &&& cell_names(self.gauges).no_duplicates()
        &&& self.histograms.no_duplicates()
    }

    /// Whether a metadata record exists for `key`.
    pub open spec fn knows(self, key: Seq<char>) -> bool {
        slot_of(self.metric_keys(), key) < self.metrics.len()
    }

    /// The metadata record of `key`, if there is one.
    pub open spec fn meta_of(self, key: Seq<char>) -> Option<MetricMetaView> {
        if self.knows(key) {
            Some(self.metrics[slot_of(self.metric_keys(), key)])
        } else {
            None
        }
    }

    /// Declares a metric: a new record with the given kind where the name is
    /// unknown, `redescribed` on the existing record where it is known.
    pub open spec fn describe(
        self,
        key: Seq<char>,
        typ: MetricType,
        unit: Option<Seq<char>>,
        desc: Seq<char>,
    ) -> RegistryView {
        let i = slot_of(self.metric_keys(), key);
        RegistryView {
            metrics: if i < self.metrics.len() {
                self.metrics.update(i, redescribed(self.metrics[i], unit, desc))
            } else {
                self.metrics.push(MetricMetaView { key, typ, desc: Some(desc), unit })
            },
            ..self
        }
    }

    /// Records that `key` was registered with kind `typ`: a new record
    /// without description where the name is unknown, nothing otherwise.
    pub open spec fn register_meta(self, key: Seq<char>, typ: MetricType) -> RegistryView {
        if self.knows(key) {
            self
        } else {
            RegistryView {
                metrics: self.metrics.push(MetricMetaView { key, typ, desc: None, unit: None }),
                ..self
            }
        }
    }

    /// The slot of the counter cell of `key`; the next free slot where there
    /// is none yet.
    pub open spec fn counter_slot(self, key: Seq<char>) -> int {
        slot_of(cell_names(self.counters), key)
    }

    /// The slot of the gauge cell of `key`; the next free slot where there is
    /// none yet.
    pub open spec fn gauge_slot(self, key: Seq<char>) -> int {
        slot_of(cell_names(self.gauges), key)
    }

    /// The slot of the histogram of `key`; the next free slot where there is
    /// none yet.
    pub open spec fn histogram_slot(self, key: Seq<char>) -> int {
        slot_of(self.histograms, key)
    }

    /// Makes sure that `key` has a counter cell: a new cell at zero behind
    /// the others where it has none, nothing otherwise.
    pub open spec fn with_counter(self, key: Seq<char>) -> RegistryView {
        if self.counter_slot(key) < self.counters.len() {
            self
        } else {
            RegistryView { counters: self.counters.push(CellView { name: key, value: 0 }), ..self }
        }
    }

    /// Makes sure that `key` has a gauge cell: a new cell whose bits are all
    /// zero, the value 0.0, where it has none, nothing otherwise.
    pub open spec fn with_gauge(self, key: Seq<char>) -> RegistryView {
        if self.gauge_slot(key) < self.gauges.len() {
            self
        } else {
            RegistryView { gauges: self.gauges.push(CellView { name: key, value: 0 }), ..self }
        }
    }

    /// Makes sure that `key` has a histogram.
    pub open spec fn with_histogram(self, key: Seq<char>) -> RegistryView {
        if self.histogram_slot(key) < self.histograms.len() {
            self
        } else {
            RegistryView { histograms: self.histograms.push(key), ..self }
        }
    }

    /// Registers a counter: the metadata record, then the cell.
    pub open spec fn register_counter(self, key: Seq<char>) -> RegistryView {
        self.register_meta(key, MetricType::Counter).with_counter(key)
    }

    /// Registers a gauge: the metadata record, then the cell.
    pub open spec fn register_gauge(self, key: Seq<char>) -> RegistryView {
        self.register_meta(key, MetricType::Gauge).with_gauge(key)
    }

    /// Registers a histogram: the metadata record, then the histogram.
    pub open spec fn register_histogram(self, key: Seq<char>) -> RegistryView {
        self.register_meta(key, MetricType::Histogram).with_histogram(key)
    }

    /// Stores `value` in the counter cell at `slot`. A slot that holds no
    /// cell is left alone.
    pub open spec fn set_counter(self, slot: int, value: u64) -> RegistryView {
        if 0 <= slot < self.counters.len() {
            RegistryView {
                counters: self.counters.update(
                    slot,
                    CellView { name: self.counters[slot].name, value },
                ),
                ..self
            }
        } else {
            self
        }
    }

    /// Adds `delta` to the counter cell at `slot`, wrapping.
    pub open spec fn increment_counter(self, slot: int, delta: u64) -> RegistryView {
        if 0 <= slot < self.counters.len() {
            self.set_counter(slot, counter_sum(self.counters[slot].value, delta))
        } else {
            self
        }
    }

    /// Stores `bits` in the gauge cell at `slot`. A slot that holds no cell
    /// is left alone.
    pub open spec fn set_gauge(self, slot: int, bits: u64) -> RegistryView {
        if 0 <= slot < self.gauges.len() {
            RegistryView {
                gauges: self.gauges.update(
                    slot,
                    CellView { name: self.gauges[slot].name, value: bits },
                ),
                ..self
            }
        } else {
            self
        }
    }

    /// The count of the counter named `key`; zero where it has no cell yet.
    pub open spec fn counter_value(self, key: Seq<char>) -> u64 {
        if self.counter_slot(key) < self.counters.len() {
            self.counters[self.counter_slot(key)].value
        } else {
            0
        }
    }

    /// The bits of the gauge named `key`; zero where it has no cell yet.
    pub open spec fn gauge_bits(self, key: Seq<char>) -> u64 {
        if self.gauge_slot(key) < self.gauges.len() {
            self.gauges[self.gauge_slot(key)].value
        } else {
            0
        }
    }

    /// What a value query answers for `key`: the count where the metric is
    /// known as a counter, the bits where it is known as a gauge, nothing
    /// where it is a histogram or unknown.
    pub open spec fn value_of(self, key: Seq<char>) -> Option<MetricValueView> {
        match self.meta_of(key) {
            Some(meta) => match meta.typ {
                MetricType::Counter => Some(
                    MetricValueView {
                        key,
                        value_u64: Some(self.counter_value(key)),
                        value_bits: None,
                    },
                ),
                MetricType::Gauge => Some(
                    MetricValueView {
                        key,
                        value_u64: None,
                        value_bits: Some(self.gauge_bits(key)),
                    },
                ),
                MetricType::Histogram => None,
            },
            None => None,
        }
    }

    /// `value_of` as a function of the name.
    pub open spec fn value_fn(self) -> spec_fn(Seq<char>) -> Option<MetricValueView> {
        |key: Seq<char>| self.value_of(key)
    }

    /// What a value query answers for `keys`: the answers for the names that
    /// have one, in the order of `keys`.
    pub open spec fn values_of(self, keys: Seq<Seq<char>>) -> Seq<MetricValueView> {
        keys.filter_map(self.value_fn())
    }
}

/// `slot_of` lies within the sequence or just behind it; the name at it is
/// `key`, and no name before it is.
pub proof fn lemma_slot_of(names: Seq<Seq<char>>, key: Seq<char>)
    ensures
        0 <= slot_of(names, key) <= names.len(),
        slot_of(names, key) < names.len() ==> names[slot_of(names, key)] == key,
        forall|j: int| 0 <= j < slot_of(names, key) ==> names[j] != key,
        slot_of(names, key) < names.len() <==> names.contains(key),
    decreases names.len(),
{
    if names.len() > 0 && names[0] != key {
        let rest = names.drop_first();
        lemma_slot_of(rest, key);
        assert forall|j: int| 0 <= j < slot_of(names, key) implies names[j] != key by {
            if j > 0 {
                assert(names[j] == rest[j - 1]);
            }
        }
        if slot_of(names, key) < names.len() {
            assert(names[slot_of(names, key)] == rest[slot_of(rest, key)]);
        }
        if names.contains(key) {
            let m = choose|m: int| 0 <= m < names.len() && names[m] == key;
            assert(rest[m - 1] == key);
        }
    } else if names.len() > 0 {
        assert(names[0] == key);
    }
}

/// The first position that holds `key` is `slot_of`; where none does, the
/// length is.
pub proof fn lemma_slot_of_is(names: Seq<Seq<char>>, key: Seq<char>, i: int)
    requires
        0 <= i <= names.len(),
        forall|j: int| 0 <= j < i ==> names[j] != key,
        i < names.len() ==> names[i] == key,
    ensures
        slot_of(names, key) == i,
{
    lemma_slot_of(names, key);
}

/// Behind a new name at the end, every name is found where it was, and the
/// new name at the end.
pub proof fn lemma_slot_of_push(names: Seq<Seq<char>>, key: Seq<char>)
    ensures
        forall|k: Seq<char>|
            slot_of(names, k) < names.len() ==> #[trigger] slot_of(names.push(key), k) == slot_of(
                names,
                k,
            ),
        forall|k: Seq<char>|
            slot_of(names, k) == names.len() && k != key ==> #[trigger] slot_of(
                names.push(key),
                k,
            ) == names.len() + 1,
        slot_of(names, key) == names.len() ==> slot_of(names.push(key), key) == names.len(),
{
    let longer = names.push(key);
    assert forall|k: Seq<char>| slot_of(names, k) < names.len() implies #[trigger] slot_of(
        longer,
        k,
    ) == slot_of(names, k) by {
        lemma_slot_of(names, k);
        lemma_slot_of_is(longer, k, slot_of(names, k));
    }
    assert forall|k: Seq<char>|
        slot_of(names, k) == names.len() && k != key implies #[trigger] slot_of(longer, k)
        == names.len() + 1 by {
        lemma_slot_of(names, k);
        lemma_slot_of_is(longer, k, longer.len() as int);
    }
    if slot_of(names, key) == names.len() {
        lemma_slot_of(names, key);
        lemma_slot_of_is(longer, key, names.len() as int);
    }
}

/// Replacing a record by one of the same name keeps the names.
pub proof fn lemma_keys_update(metrics: Seq<MetricMetaView>, i: int, meta: MetricMetaView)
    requires
        0 <= i < metrics.len(),
        meta.key == metrics[i].key,
    ensures
        keys_of(metrics.update(i, meta)) == keys_of(metrics),
{
    assert(keys_of(metrics.update(i, meta)) =~= keys_of(metrics));
}

/// A record behind the others puts its name behind the others.
pub proof fn lemma_keys_push(metrics: Seq<MetricMetaView>, meta: MetricMetaView)
    ensures
        keys_of(metrics.push(meta)) == keys_of(metrics).push(meta.key),
{
    assert(keys_of(metrics.push(meta)) =~= keys_of(metrics).push(meta.key));
}

/// Replacing a cell by one of the same name keeps the names.
pub proof fn lemma_names_update(cells: Seq<CellView>, i: int, cell: CellView)
    requires
        0 <= i < cells.len(),
        cell.name == cells[i].name,
    ensures
        cell_names(cells.update(i, cell)) == cell_names(cells),
{
    assert(cell_names(cells.update(i, cell)) =~= cell_names(cells));
}

/// A cell behind the others puts its name behind the others.
pub proof fn lemma_names_push(cells: Seq<CellView>, cell: CellView)
    ensures
        cell_names(cells.push(cell)) == cell_names(cells).push(cell.name),
{
    assert(cell_names(cells.push(cell)) =~= cell_names(cells).push(cell.name));
}

/// A name that does not occur yet keeps a sequence of names free of
/// duplicates.
pub proof fn lemma_push_fresh(names: Seq<Seq<char>>, key: Seq<char>)
    requires
        names.no_duplicates(),
        slot_of(names, key) >= names.len(),
    ensures
        names.push(key).no_duplicates(),
{
    lemma_slot_of(names, key);
    let longer = names.push(key);
    assert forall|i: int, j: int|
        0 <= i < longer.len() && 0 <= j < longer.len() && i != j implies longer[i]
        != longer[j] by {
        if i < names.len() {
            assert(names.contains(names[i]));
        }
        if j < names.len() {
            assert(names.contains(names[j]));
        }
    }
}

} // verus!
