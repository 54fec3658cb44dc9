//! The laws of the registry.
//!
//! Each law is a theorem about the model of the registry, stated over the
//! functions through which the contracts of the recorder speak. A recorder
//! goes through a sequence of operations in its life; `run` is the state
//! after such a sequence, whatever code issued it and in whatever order the
//! callers took their turns.
use crate::charts::{
    bound_only, charted, completed, completed_charts, default_chart, default_charts, default_fn,
    gets_default, listed_charts, resolved_charts, ChartView, DashboardOptionsView,
};
use crate::middleware::{
    completion_updates, requests_duration, requests_error, requests_total, MetricUpdateView,
    RequestOutcome,
};
use crate::model::{
    cell_names, counter_sum, lemma_keys_push, lemma_keys_update, lemma_names_push,
    lemma_names_update, lemma_push_fresh, lemma_slot_of, lemma_slot_of_push, redescribed, slot_of,
    CellView, MetricMetaView, MetricValueView, RegistryView,
};
use crate::recorder::MetricType;
use crate::sorting::{
    keys_of, lemma_sorted_order_independent, lemma_sorted_ordered, lemma_sorted_permutes,
    lemma_sorted_same_items, lemma_sorted_strictly_ordered, ordered, sorted_by_key,
    strictly_ordered,
};
use vstd::prelude::*;

verus! {

/// One operation on a registry.
pub enum Operation {
    Describe { key: Seq<char>, typ: MetricType, unit: Option<Seq<char>>, desc: Seq<char> },
    RegisterCounter { key: Seq<char> },
    RegisterGauge { key: Seq<char> },
    RegisterHistogram { key: Seq<char> },
    IncrementCounter { slot: int, delta: u64 },
    SetCounter { slot: int, value: u64 },
    SetGauge { slot: int, bits: u64 },
}

/// The state after one operation.
pub open spec fn apply(s: RegistryView, op: Operation) -> RegistryView {
    match op {
        Operation::Describe { key, typ, unit, desc } => s.describe(key, typ, unit, desc),
        Operation::RegisterCounter { key } => s.register_counter(key),
        Operation::RegisterGauge { key } => s.register_gauge(key),
        Operation::RegisterHistogram { key } => s.register_histogram(key),
        Operation::IncrementCounter { slot, delta } => s.increment_counter(slot, delta),
        Operation::SetCounter { slot, value } => s.set_counter(slot, value),
        Operation::SetGauge { slot, bits } => s.set_gauge(slot, bits),
    }
}

/// The state after a sequence of operations, applied from the first to the
/// last.
pub open spec fn run(s: RegistryView, ops: Seq<Operation>) -> RegistryView
    decreases ops.len(),
{
    if ops.len() == 0 {
        s
    } else {
        apply(run(s, ops.drop_last()), ops.last())
    }
}

/// The sum of a sequence of increments.
pub open spec fn total(deltas: Seq<u64>) -> nat
    decreases deltas.len(),
{
    if deltas.len() == 0 {
        0
    } else {
        total(deltas.drop_last()) + deltas.last() as nat
    }
}

/// The operations that add `deltas`, one after another, to the counter at
/// `slot`.
pub open spec fn increments(slot: int, deltas: Seq<u64>) -> Seq<Operation> {
    Seq::new(deltas.len(), |i: int| Operation::IncrementCounter { slot, delta: deltas[i] })
}

/// `steps` increments by one.
pub open spec fn ones(steps: nat) -> Seq<u64> {
    Seq::new(steps, |i: int| 1u64)
}

/// The empty registry is well formed.
pub proof fn law_empty_wf()
    ensures
        RegistryView::empty().wf(),
{
    assert(keys_of(RegistryView::empty().metrics) =~= Seq::empty());
    assert(cell_names(RegistryView::empty().counters) =~= Seq::empty());
    assert(cell_names(RegistryView::empty().gauges) =~= Seq::empty());
}

/// Declaring a metric keeps a registry well formed.
proof fn lemma_describe_wf(
    s: RegistryView,
    key: Seq<char>,
    typ: MetricType,
    unit: Option<Seq<char>>,
    desc: Seq<char>,
)
    requires
        s.wf(),
    ensures
        s.describe(key, typ, unit, desc).wf(),
{
    let i = slot_of(s.metric_keys(), key);
    lemma_slot_of(s.metric_keys(), key);
    if i < s.metrics.len() {
        lemma_keys_update(s.metrics, i, redescribed(s.metrics[i], unit, desc));
    } else {
        lemma_keys_push(s.metrics, MetricMetaView { key, typ, desc: Some(desc), unit });
        lemma_push_fresh(s.metric_keys(), key);
    }
}

/// Recording a registration keeps a registry well formed.
proof fn lemma_register_meta_wf(s: RegistryView, key: Seq<char>, typ: MetricType)
    requires
        s.wf(),
    ensures
        s.register_meta(key, typ).wf(),
{
    if !s.knows(key) {
        lemma_keys_push(s.metrics, MetricMetaView { key, typ, desc: None, unit: None });
        lemma_push_fresh(s.metric_keys(), key);
    }
}

/// No operation makes a name occur twice: a well-formed registry stays well
/// formed.
pub proof fn law_wf_preserved(s: RegistryView, op: Operation)
    requires
        s.wf(),
    ensures
        apply(s, op).wf(),
{
    match op {
        Operation::Describe { key, typ, unit, desc } => {
            lemma_describe_wf(s, key, typ, unit, desc);
        },
        Operation::RegisterCounter { key } => {
            lemma_register_meta_wf(s, key, MetricType::Counter);
            let m = s.register_meta(key, MetricType::Counter);
            if m.counter_slot(key) >= m.counters.len() {
                lemma_names_push(m.counters, CellView { name: key, value: 0 });
                lemma_push_fresh(cell_names(m.counters), key);
            }
        },
        Operation::RegisterGauge { key } => {
            lemma_register_meta_wf(s, key, MetricType::Gauge);
            let m = s.register_meta(key, MetricType::Gauge);
            if m.gauge_slot(key) >= m.gauges.len() {
                lemma_names_push(m.gauges, CellView { name: key, value: 0 });
                lemma_push_fresh(cell_names(m.gauges), key);
            }
        },
        Operation::RegisterHistogram { key } => {
            lemma_register_meta_wf(s, key, MetricType::Histogram);
            let m = s.register_meta(key, MetricType::Histogram);
            if m.histogram_slot(key) >= m.histograms.len() {
                lemma_push_fresh(m.histograms, key);
            }
        },
        Operation::IncrementCounter { slot, delta } => {
            if 0 <= slot < s.counters.len() {
                lemma_names_update(
                    s.counters,
                    slot,
                    CellView {
                        name: s.counters[slot].name,
                        value: counter_sum(s.counters[slot].value, delta),
                    },
                );
            }
        },
        Operation::SetCounter { slot, value } => {
            if 0 <= slot < s.counters.len() {
                lemma_names_update(
                    s.counters,
                    slot,
                    CellView { name: s.counters[slot].name, value },
                );
            }
        },
        Operation::SetGauge { slot, bits } => {
            if 0 <= slot < s.gauges.len() {
                lemma_names_update(
                    s.gauges,
                    slot,
                    CellView { name: s.gauges[slot].name, value: bits },
                );
            }
        },
    }
}

/// Every registry that is reached from the empty one is well formed.
pub proof fn law_reachable_wf(ops: Seq<Operation>)
    ensures
        run(RegistryView::empty(), ops).wf(),
    decreases ops.len(),
{
    if ops.len() == 0 {
        law_empty_wf();
    } else {
        law_reachable_wf(ops.drop_last());
        law_wf_preserved(run(RegistryView::empty(), ops.drop_last()), ops.last());
    }
}

/// Recording a registration leaves every known record as it is.
proof fn lemma_register_meta_keeps(s: RegistryView, key: Seq<char>, typ: MetricType, k: Seq<char>)
    requires
        s.knows(k),
    ensures
        s.register_meta(key, typ).meta_of(k) == s.meta_of(k),
{
    if !s.knows(key) {
        lemma_keys_push(s.metrics, MetricMetaView { key, typ, desc: None, unit: None });
        lemma_slot_of_push(s.metric_keys(), key);
        lemma_slot_of(s.metric_keys(), k);
    }
}

/// The kind of a metric is fixed by the first operation that names it, and
/// its record is never removed: after any operation a known metric is still
/// known, under its name and with its kind.
pub proof fn law_kind_is_fixed(s: RegistryView, op: Operation, k: Seq<char>)
    requires
        s.knows(k),
    ensures
        apply(s, op).knows(k),
        apply(s, op).meta_of(k)->0.typ == s.meta_of(k)->0.typ,
        apply(s, op).meta_of(k)->0.key == s.meta_of(k)->0.key,
{
    match op {
        Operation::Describe { key, typ, unit, desc } => {
            let i = slot_of(s.metric_keys(), key);
            lemma_slot_of(s.metric_keys(), key);
            lemma_slot_of(s.metric_keys(), k);
            if i < s.metrics.len() {
                lemma_keys_update(s.metrics, i, redescribed(s.metrics[i], unit, desc));
            } else {
                lemma_keys_push(s.metrics, MetricMetaView { key, typ, desc: Some(desc), unit });
                lemma_slot_of_push(s.metric_keys(), key);
            }
        },
        Operation::RegisterCounter { key } => {
            lemma_register_meta_keeps(s, key, MetricType::Counter, k);
        },
        Operation::RegisterGauge { key } => {
            lemma_register_meta_keeps(s, key, MetricType::Gauge, k);
        },
        Operation::RegisterHistogram { key } => {
            lemma_register_meta_keeps(s, key, MetricType::Histogram, k);
        },
        Operation::IncrementCounter { slot, delta } => {},
        Operation::SetCounter { slot, value } => {},
        Operation::SetGauge { slot, bits } => {},
    }
}

/// A name keeps one kind for the life of the registry: whatever operations
/// follow, a known metric stays known with the kind that it has.
pub proof fn law_kind_is_fixed_for_life(s: RegistryView, ops: Seq<Operation>, k: Seq<char>)
    requires
        s.knows(k),
    ensures
        run(s, ops).knows(k),
        run(s, ops).meta_of(k)->0.typ == s.meta_of(k)->0.typ,
    decreases ops.len(),
{
    if ops.len() > 0 {
        law_kind_is_fixed_for_life(s, ops.drop_last(), k);
        law_kind_is_fixed(run(s, ops.drop_last()), ops.last(), k);
    }
}

/// No operation removes or renames a cell: every slot that holds a cell holds
/// a cell of the same name afterwards, so a handle stays good for the life of
/// the registry.
pub proof fn law_cells_stay(s: RegistryView, op: Operation)
    ensures
        apply(s, op).counters.len() >= s.counters.len(),
        apply(s, op).gauges.len() >= s.gauges.len(),
        apply(s, op).histograms.len() >= s.histograms.len(),
        forall|i: int|
            0 <= i < s.counters.len() ==> (#[trigger] apply(s, op).counters[i]).name
                == s.counters[i].name,
        forall|i: int|
            0 <= i < s.gauges.len() ==> (#[trigger] apply(s, op).gauges[i]).name
                == s.gauges[i].name,
        forall|i: int|
            0 <= i < s.histograms.len() ==> #[trigger] apply(s, op).histograms[i]
                == s.histograms[i],
{
}

/// An operation on one counter leaves every other cell and every record as
/// they are.
pub proof fn law_increment_is_local(s: RegistryView, slot: int, delta: u64)
    ensures
        s.increment_counter(slot, delta).metrics == s.metrics,
        s.increment_counter(slot, delta).gauges == s.gauges,
        s.increment_counter(slot, delta).histograms == s.histograms,
        s.increment_counter(slot, delta).counters.len() == s.counters.len(),
        forall|i: int|
            0 <= i < s.counters.len() && i != slot ==> #[trigger] s.increment_counter(
                slot,
                delta,
            ).counters[i] == s.counters[i],
{
}

/// Increments add up: after a sequence of increments of one counter, its
/// count is the count before plus the sum of the increments, wrapped at the
/// width of the cell. No increment is lost, and the order in which the
/// increments were applied does not matter.
pub proof fn law_increments_add_up(s: RegistryView, slot: int, deltas: Seq<u64>)
    requires
        0 <= slot < s.counters.len(),
    ensures
        run(s, increments(slot, deltas)).counters.len() == s.counters.len(),
        run(s, increments(slot, deltas)).counters[slot].name == s.counters[slot].name,
        run(s, increments(slot, deltas)).counters[slot].value == (s.counters[slot].value + total(
            deltas,
        )) % 0x1_0000_0000_0000_0000,
    decreases deltas.len(),
{
    if deltas.len() > 0 {
        let ops = increments(slot, deltas);
        assert(ops.drop_last() =~= increments(slot, deltas.drop_last()));
        assert(ops.last() == Operation::IncrementCounter { slot, delta: deltas.last() });
        law_increments_add_up(s, slot, deltas.drop_last());
    }
}

/// The sum of `steps` ones is `steps`.
proof fn lemma_total_ones(steps: nat)
    ensures
        total(ones(steps)) == steps,
    decreases steps,
{
    if steps > 0 {
        assert(ones(steps).drop_last() =~= ones((steps - 1) as nat));
        lemma_total_ones((steps - 1) as nat);
    }
}

/// How often `caller` has the turn in `schedule`, which names the caller of
/// each step.
pub open spec fn turns(schedule: Seq<nat>, caller: nat) -> nat
    decreases schedule.len(),
{
    if schedule.len() == 0 {
        0
    } else {
        turns(schedule.drop_last(), caller) + if schedule.last() == caller {
            1nat
        } else {
            0nat
        }
    }
}

/// `schedule` interleaves `callers` callers with `each` turns each: every
/// step is the turn of one of them, and every one of them has `each` turns.
pub open spec fn interleaves(schedule: Seq<nat>, callers: nat, each: nat) -> bool {
    &&& forall|i: int| 0 <= i < schedule.len() ==> schedule[i] < callers
    &&& forall|c: nat| c < callers ==> turns(schedule, c) == each
}

/// How many steps of `schedule` are turns of the callers below `bound`.
spec fn turns_below(schedule: Seq<nat>, bound: nat) -> nat
    decreases schedule.len(),
{
    if schedule.len() == 0 {
        0
    } else {
        turns_below(schedule.drop_last(), bound) + if schedule.last() < bound {
            1nat
        } else {
            0nat
        }
    }
}

/// The turns of the callers below `bound + 1` are those of the callers below
/// `bound` and those of `bound`.
proof fn lemma_turns_below_step(schedule: Seq<nat>, bound: nat)
    ensures
        turns_below(schedule, bound + 1) == turns_below(schedule, bound) + turns(schedule, bound),
    decreases schedule.len(),
{
    if schedule.len() > 0 {
        lemma_turns_below_step(schedule.drop_last(), bound);
    }
}

/// Where every step is the turn of a caller below `bound`, the turns of
/// those callers are all the steps.
proof fn lemma_turns_below_all(schedule: Seq<nat>, bound: nat)
    requires
        forall|i: int| 0 <= i < schedule.len() ==> schedule[i] < bound,
    ensures
        turns_below(schedule, bound) == schedule.len(),
    decreases schedule.len(),
{
    if schedule.len() > 0 {
        let init = schedule.drop_last();
        assert forall|i: int| 0 <= i < init.len() implies init[i] < bound by {
            assert(init[i] == schedule[i]);
        }
        lemma_turns_below_all(init, bound);
    }
}

/// Where each caller below `bound` has `each` turns, they have `bound * each`
/// turns together.
proof fn lemma_turns_below_sum(schedule: Seq<nat>, bound: nat, each: nat)
    requires
        forall|c: nat| c < bound ==> turns(schedule, c) == each,
    ensures
        turns_below(schedule, bound) == bound * each,
    decreases bound,
{
    if bound == 0 {
        lemma_turns_below_none(schedule);
    } else {
        let fewer = (bound - 1) as nat;
        lemma_turns_below_sum(schedule, fewer, each);
        lemma_turns_below_step(schedule, fewer);
        assert(bound * each == fewer * each + each) by (nonlinear_arith)
            requires
                bound == fewer + 1,
        ;
    }
}

/// No step is the turn of a caller below zero.
proof fn lemma_turns_below_none(schedule: Seq<nat>)
    ensures
        turns_below(schedule, 0) == 0,
    decreases schedule.len(),
{
    if schedule.len() > 0 {
        lemma_turns_below_none(schedule.drop_last());
    }
}

/// A schedule that interleaves `callers` callers with `each` turns each has
/// `callers * each` steps.
pub proof fn lemma_interleaving_len(schedule: Seq<nat>, callers: nat, each: nat)
    requires
        interleaves(schedule, callers, each),
    ensures
        schedule.len() == callers * each,
{
    lemma_turns_below_all(schedule, callers);
    lemma_turns_below_sum(schedule, callers, each);
}

/// The operations of a schedule in which every turn adds one to the counter
/// at `slot`.
pub open spec fn unit_increments(slot: int, schedule: Seq<nat>) -> Seq<Operation> {
    Seq::new(schedule.len(), |i: int| Operation::IncrementCounter { slot, delta: 1 })
}

/// No update is lost: where `callers` callers each add one to the same
/// counter `each` times, in whatever order they take their turns, the counter
/// ends `callers * each` above where it started, as long as that fits the
/// cell. A counter that started at zero then holds exactly `callers * each`.
pub proof fn law_no_lost_updates(
    s: RegistryView,
    slot: int,
    callers: nat,
    each: nat,
    schedule: Seq<nat>,
)
    requires
        0 <= slot < s.counters.len(),
        interleaves(schedule, callers, each),
        s.counters[slot].value + callers * each <= u64::MAX,
    ensures
        run(s, unit_increments(slot, schedule)).counters[slot].value == s.counters[slot].value
            + callers * each,
{
    lemma_interleaving_len(schedule, callers, each);
    law_increments_add_up(s, slot, ones(schedule.len()));
    lemma_total_ones(schedule.len());
    assert(unit_increments(slot, schedule) =~= increments(slot, ones(schedule.len())));
}

/// Registering a counter again returns the handle of the same cell and
/// changes nothing, so an increment through either handle shows through the
/// other, and in a value query.
pub proof fn law_registered_twice_same_cell(s: RegistryView, key: Seq<char>, delta: u64)
    ensures
        ({
            let first = s.register_counter(key);
            let second = first.register_counter(key);
            let h1 = first.counter_slot(key);
            let h2 = second.counter_slot(key);
            &&& second == first
            &&& h1 == h2
            &&& 0 <= h1 < first.counters.len()
            &&& second.increment_counter(h1, delta).counters[h2].value == counter_sum(
                second.counters[h2].value,
                delta,
            )
            &&& second.increment_counter(h1, delta).counter_value(key) == counter_sum(
                second.counter_value(key),
                delta,
            )
            &&& first.meta_of(key) is Some
            &&& first.meta_of(key)->0.typ == MetricType::Counter ==> second.increment_counter(
                h1,
                delta,
            ).value_of(key) == Some(
                MetricValueView {
                    key,
                    value_u64: Some(counter_sum(second.counter_value(key), delta)),
                    value_bits: None,
                },
            )
        }),
{
    let meta = s.register_meta(key, MetricType::Counter);
    let first = s.register_counter(key);
    let h = first.counter_slot(key);
    lemma_slot_of(cell_names(meta.counters), key);
    if meta.counter_slot(key) >= meta.counters.len() {
        lemma_names_push(meta.counters, CellView { name: key, value: 0 });
        lemma_slot_of_push(cell_names(meta.counters), key);
    }
    // The metric is known after the first registration.
    lemma_slot_of(s.metric_keys(), key);
    if !s.knows(key) {
        lemma_keys_push(
            s.metrics,
            MetricMetaView { key, typ: MetricType::Counter, desc: None, unit: None },
        );
        lemma_slot_of_push(s.metric_keys(), key);
    }
    assert(first.knows(key));
    assert(first.register_meta(key, MetricType::Counter) == first);
    assert(first.counter_slot(key) < first.counters.len());
    let after = first.increment_counter(h, delta);
    assert(after.metrics == first.metrics);
    lemma_names_update(
        first.counters,
        h,
        CellView {
            name: first.counters[h].name,
            value: counter_sum(first.counters[h].value, delta),
        },
    );
}

/// A metric is known once it is registered, whatever its kind.
pub proof fn law_registered_is_known(s: RegistryView, key: Seq<char>, typ: MetricType)
    ensures
        s.register_meta(key, typ).knows(key),
        !s.knows(key) ==> s.register_meta(key, typ).meta_of(key) == Some(
            MetricMetaView { key, typ, desc: None, unit: None },
        ),
        s.register_counter(key).knows(key),
        s.register_gauge(key).knows(key),
        s.register_histogram(key).knows(key),
{
    lemma_slot_of(s.metric_keys(), key);
    if !s.knows(key) {
        lemma_keys_push(s.metrics, MetricMetaView { key, typ, desc: None, unit: None });
        lemma_keys_push(
            s.metrics,
            MetricMetaView { key, typ: MetricType::Counter, desc: None, unit: None },
        );
        lemma_keys_push(
            s.metrics,
            MetricMetaView { key, typ: MetricType::Gauge, desc: None, unit: None },
        );
        lemma_keys_push(
            s.metrics,
            MetricMetaView { key, typ: MetricType::Histogram, desc: None, unit: None },
        );
        lemma_slot_of_push(s.metric_keys(), key);
    }
}

/// Declaring a known metric touches its record only, and in it the
/// description, and the unit where one is given: the name and the kind stay,
/// every other record stays, and so does every cell.
pub proof fn law_describe_known(
    s: RegistryView,
    key: Seq<char>,
    typ: MetricType,
    unit: Option<Seq<char>>,
    desc: Seq<char>,
)
    requires
        s.knows(key),
    ensures
        ({
            let d = s.describe(key, typ, unit, desc);
            &&& d.counters == s.counters
            &&& d.gauges == s.gauges
            &&& d.histograms == s.histograms
            &&& d.metrics.len() == s.metrics.len()
            &&& d.metric_keys() == s.metric_keys()
            &&& d.meta_of(key) == Some(redescribed(s.meta_of(key)->0, unit, desc))
            &&& forall|k: Seq<char>| k != key ==> #[trigger] d.meta_of(k) == s.meta_of(k)
        }),
{
    let d = s.describe(key, typ, unit, desc);
    let i = slot_of(s.metric_keys(), key);
    lemma_slot_of(s.metric_keys(), key);
    lemma_keys_update(s.metrics, i, redescribed(s.metrics[i], unit, desc));
    assert forall|k: Seq<char>| k != key implies #[trigger] d.meta_of(k) == s.meta_of(k) by {
        lemma_slot_of(s.metric_keys(), k);
    }
}

/// Declaring a counter after it was registered changes its description, and
/// its unit where one is given, and nothing else: its kind stays, and so does
/// its count, in the cell and in a value query.
pub proof fn law_describe_after_register(
    s: RegistryView,
    key: Seq<char>,
    unit: Option<Seq<char>>,
    desc: Seq<char>,
)
    ensures
        ({
            let r = s.register_counter(key);
            let d = r.describe(key, MetricType::Counter, unit, desc);
            &&& r.meta_of(key) is Some
            &&& d.meta_of(key) == Some(redescribed(r.meta_of(key)->0, unit, desc))
            &&& d.meta_of(key)->0.typ == r.meta_of(key)->0.typ
            &&& d.meta_of(key)->0.key == key
            &&& d.meta_of(key)->0.desc == Some(desc)
            &&& unit is None ==> d.meta_of(key)->0.unit == r.meta_of(key)->0.unit
            &&& d.counters == r.counters
            &&& d.gauges == r.gauges
            &&& d.histograms == r.histograms
            &&& d.counter_value(key) == r.counter_value(key)
            &&& d.value_of(key) == r.value_of(key)
            &&& forall|k: Seq<char>| k != key ==> #[trigger] d.meta_of(k) == r.meta_of(k)
        }),
{
    let r = s.register_counter(key);
    law_registered_is_known(s, key, MetricType::Counter);
    law_describe_known(r, key, MetricType::Counter, unit, desc);
    lemma_slot_of(r.metric_keys(), key);
}

/// Declaring a metric is idempotent: the same declaration a second time
/// changes nothing.
pub proof fn law_describe_idempotent(
    s: RegistryView,
    key: Seq<char>,
    typ: MetricType,
    unit: Option<Seq<char>>,
    desc: Seq<char>,
)
    ensures
        s.describe(key, typ, unit, desc).describe(key, typ, unit, desc) == s.describe(
            key,
            typ,
            unit,
            desc,
        ),
{
    let once = s.describe(key, typ, unit, desc);
    let twice = once.describe(key, typ, unit, desc);
    let i = slot_of(s.metric_keys(), key);
    lemma_slot_of(s.metric_keys(), key);
    if i < s.metrics.len() {
        lemma_keys_update(s.metrics, i, redescribed(s.metrics[i], unit, desc));
    } else {
        lemma_keys_push(s.metrics, MetricMetaView { key, typ, desc: Some(desc), unit });
        lemma_slot_of_push(s.metric_keys(), key);
    }
    assert(twice.metrics =~= once.metrics);
}

/// A value query has no entry for a name that is not known: asked for such a
/// name alone, it answers with the empty list.
pub proof fn law_unknown_name_no_entry(s: RegistryView, key: Seq<char>)
    requires
        !s.knows(key),
    ensures
        s.value_of(key) is None,
        s.values_of(seq![key]) == Seq::<MetricValueView>::empty(),
{
    Seq::lemma_filter_map_singleton(key, s.value_fn());
}

/// A value query has no entry for a histogram.
pub proof fn law_histogram_no_entry(s: RegistryView, key: Seq<char>)
    requires
        s.meta_of(key) is Some,
        s.meta_of(key)->0.typ == MetricType::Histogram,
    ensures
        s.value_of(key) is None,
        s.values_of(seq![key]) == Seq::<MetricValueView>::empty(),
{
    Seq::lemma_filter_map_singleton(key, s.value_fn());
}

/// The entries of a value query come in the order of the names asked for:
/// the answer for a list of names is the answer for its front followed by the
/// answer for its last name.
pub proof fn law_values_in_order(s: RegistryView, keys: Seq<Seq<char>>, key: Seq<char>)
    ensures
        s.values_of(keys.push(key)) == s.values_of(keys) + s.values_of(seq![key]),
{
    Seq::lemma_filter_map_singleton(key, s.value_fn());
    assert(keys.push(key).drop_last() =~= keys);
    assert(s.values_of(keys.push(key)) =~= s.values_of(keys) + s.values_of(seq![key]));
}

/// The listing of a well-formed registry is strictly ascending by name and
/// holds each record once.
pub proof fn law_listing_sorted(s: RegistryView)
    requires
        s.wf(),
    ensures
        strictly_ordered(keys_of(sorted_by_key(s.metrics))),
        sorted_by_key(s.metrics).to_multiset() == s.metrics.to_multiset(),
{
    lemma_sorted_strictly_ordered(s.metrics);
    lemma_sorted_permutes(s.metrics);
}

/// The listing does not depend on the order of registration: two well-formed
/// registries that hold the same records list them alike.
pub proof fn law_listing_order_independent(a: RegistryView, b: RegistryView)
    requires
        a.wf(),
        b.wf(),
        a.metrics.to_multiset() == b.metrics.to_multiset(),
    ensures
        sorted_by_key(a.metrics) == sorted_by_key(b.metrics),
{
    lemma_sorted_order_independent(a.metrics, b.metrics);
}

/// Every chart of the list is a configured chart as it is shown, or the chart
/// of a metric that gets one of its own.
pub proof fn law_chart_origin(
    options: DashboardOptionsView,
    metas: Seq<MetricMetaView>,
    chart: ChartView,
)
    requires
        resolved_charts(options, metas).contains(chart),
    ensures
        (exists|i: int|
            0 <= i < options.custom_charts.len() && chart == completed(
                #[trigger] options.custom_charts[i],
                metas,
            )) || (options.include_default && exists|m: MetricMetaView|
            #[trigger] metas.contains(m) && gets_default(options.custom_charts, m.key) && chart
                == default_chart(m)),
{
    let customs = options.custom_charts;
    let listed = listed_charts(options, metas);
    let shown = completed_charts(customs, metas);
    lemma_sorted_same_items(listed);
    assert(listed.contains(chart));
    let j = choose|j: int| 0 <= j < listed.len() && listed[j] == chart;
    if j < shown.len() {
        assert(chart == completed(customs[j], metas));
    } else {
        let others = default_charts(customs, metas);
        assert(options.include_default);
        assert(others[j - shown.len()] == chart);
        assert(others.contains(chart));
        metas.lemma_filter_map_contains(default_fn(customs), chart);
        let m = choose|m: MetricMetaView|
            #[trigger] metas.contains(m) && default_fn(customs)(m) == Some(chart);
        assert(metas.contains(m) && gets_default(customs, m.key) && chart == default_chart(m));
    }
}

/// A metric that the configured charts use as a bound only is drawn by no
/// chart of the list: it gets no chart of its own, whether or not the
/// configuration asks for charts of the other metrics.
pub proof fn law_bound_only_gets_no_chart(
    options: DashboardOptionsView,
    metas: Seq<MetricMetaView>,
    name: Seq<char>,
)
    requires
        bound_only(options.custom_charts, name),
    ensures
        forall|i: int|
            0 <= i < resolved_charts(options, metas).len() ==> !(#[trigger] resolved_charts(
                options,
                metas,
            )[i]).metrics.contains(name),
{
    let customs = options.custom_charts;
    let out = resolved_charts(options, metas);
    assert forall|i: int| 0 <= i < out.len() implies !(#[trigger] out[i]).metrics.contains(
        name,
    ) by {
        let chart = out[i];
        assert(out.contains(chart));
        law_chart_origin(options, metas, chart);
        if chart.metrics.contains(name) {
            if exists|c: int|
                0 <= c < customs.len() && chart == completed(#[trigger] customs[c], metas) {
                let c = choose|c: int|
                    0 <= c < customs.len() && chart == completed(#[trigger] customs[c], metas);
                assert(customs[c].metrics == chart.metrics);
                assert(charted(customs, name));
            } else {
                let m = choose|m: MetricMetaView|
                    #[trigger] metas.contains(m) && gets_default(customs, m.key) && chart
                        == default_chart(m);
                let at = choose|at: int|
                    0 <= at < chart.metrics.len() && chart.metrics[at] == name;
                assert(m.key == name);
            }
        }
    }
}

/// A metric that a configured chart draws gets no chart of its own: every
/// chart of the list that draws it is a configured chart.
pub proof fn law_charted_not_duplicated(
    options: DashboardOptionsView,
    metas: Seq<MetricMetaView>,
    name: Seq<char>,
    chart: ChartView,
)
    requires
        charted(options.custom_charts, name),
        resolved_charts(options, metas).contains(chart),
        chart.metrics.contains(name),
    ensures
        exists|i: int|
            0 <= i < options.custom_charts.len() && chart == completed(
                #[trigger] options.custom_charts[i],
                metas,
            ),
{
    let customs = options.custom_charts;
    law_chart_origin(options, metas, chart);
    if !(exists|i: int|
        0 <= i < customs.len() && chart == completed(#[trigger] customs[i], metas)) {
        let m = choose|m: MetricMetaView|
            #[trigger] metas.contains(m) && gets_default(customs, m.key) && chart
                == default_chart(m);
        let at = choose|at: int| 0 <= at < chart.metrics.len() && chart.metrics[at] == name;
        assert(m.key == name);
    }
}

/// The chart list is sorted by the name of each chart's first metric, and
/// holds the configured charts and the charts of the other metrics, each as
/// often as it was listed.
pub proof fn law_charts_sorted(options: DashboardOptionsView, metas: Seq<MetricMetaView>)
    ensures
        ordered(keys_of(resolved_charts(options, metas))),
        resolved_charts(options, metas).to_multiset() == listed_charts(
            options,
            metas,
        ).to_multiset(),
        resolved_charts(options, metas).len() == listed_charts(options, metas).len(),
        listed_charts(options, metas).len() == options.custom_charts.len()
            + if options.include_default {
                default_charts(options.custom_charts, metas).len()
            } else {
                0
            },
{
    lemma_sorted_ordered(listed_charts(options, metas));
    lemma_sorted_permutes(listed_charts(options, metas));
    crate::sorting::lemma_sorted_len(listed_charts(options, metas));
}

/// Where the configuration asks for them, every metric that no configured
/// chart draws or uses as a bound has its own chart in the list.
pub proof fn law_unclaimed_metric_charted(
    options: DashboardOptionsView,
    metas: Seq<MetricMetaView>,
    i: int,
)
    requires
        options.include_default,
        0 <= i < metas.len(),
        gets_default(options.custom_charts, metas[i].key),
    ensures
        resolved_charts(options, metas).contains(default_chart(metas[i])),
{
    let customs = options.custom_charts;
    let listed = listed_charts(options, metas);
    let shown = completed_charts(customs, metas);
    let others = default_charts(customs, metas);
    lemma_default_listed(customs, metas, i);
    let at = choose|at: int| 0 <= at < others.len() && others[at] == default_chart(metas[i]);
    assert(listed[shown.len() + at] == default_chart(metas[i]));
    assert(listed.contains(default_chart(metas[i])));
    lemma_sorted_same_items(listed);
}

/// The chart of a metric that gets one of its own is among the default
/// charts.
proof fn lemma_default_listed(customs: Seq<ChartView>, metas: Seq<MetricMetaView>, i: int)
    requires
        0 <= i < metas.len(),
        gets_default(customs, metas[i].key),
    ensures
        default_charts(customs, metas).contains(default_chart(metas[i])),
    decreases metas.len(),
{
    let pick = default_fn(customs);
    let front = metas.drop_last();
    let rest = front.filter_map(pick);
    let all = metas.filter_map(pick);
    if i == metas.len() - 1 {
        assert(all == rest + seq![default_chart(metas[i])]);
        assert(all[rest.len() as int] == default_chart(metas[i]));
    } else {
        lemma_default_listed(customs, front, i);
        let at = choose|at: int| 0 <= at < rest.len() && rest[at] == default_chart(front[i]);
        assert(all[at] == default_chart(metas[i]));
    }
}

/// A handle is the slot of the cell of its name: the cell at the slot that a
/// registration returns carries the registered name. A cell is reached by its
/// name and in no other way.
pub proof fn law_handle_names_its_cell(s: RegistryView, key: Seq<char>)
    ensures
        ({
            let r = s.register_counter(key);
            &&& 0 <= r.counter_slot(key) < r.counters.len()
            &&& r.counters[r.counter_slot(key)].name == key
            &&& r.counter_slot(key) == s.counter_slot(key)
        }),
        ({
            let r = s.register_gauge(key);
            &&& 0 <= r.gauge_slot(key) < r.gauges.len()
            &&& r.gauges[r.gauge_slot(key)].name == key
            &&& r.gauge_slot(key) == s.gauge_slot(key)
        }),
        ({
            let r = s.register_histogram(key);
            &&& 0 <= r.histogram_slot(key) < r.histograms.len()
            &&& r.histograms[r.histogram_slot(key)] == key
            &&& r.histogram_slot(key) == s.histogram_slot(key)
        }),
{
    lemma_slot_of(cell_names(s.counters), key);
    lemma_slot_of_push(cell_names(s.counters), key);
    lemma_names_push(s.counters, CellView { name: key, value: 0 });
    lemma_slot_of(cell_names(s.gauges), key);
    lemma_slot_of_push(cell_names(s.gauges), key);
    lemma_names_push(s.gauges, CellView { name: key, value: 0 });
    lemma_slot_of(s.histograms, key);
    lemma_slot_of_push(s.histograms, key);
    let c = s.register_counter(key);
    let g = s.register_gauge(key);
    assert(cell_names(c.counters)[c.counter_slot(key)] == c.counters[c.counter_slot(key)].name);
    assert(cell_names(g.gauges)[g.gauge_slot(key)] == g.gauges[g.gauge_slot(key)].name);
}

/// The first operation that names a metric fixes its kind: declaring an
/// unknown metric records it with the declared kind, its description and its
/// unit.
pub proof fn law_first_call_fixes_kind(
    s: RegistryView,
    key: Seq<char>,
    typ: MetricType,
    unit: Option<Seq<char>>,
    desc: Seq<char>,
)
    requires
        !s.knows(key),
    ensures
        s.describe(key, typ, unit, desc).meta_of(key) == Some(
            MetricMetaView { key, typ, desc: Some(desc), unit },
        ),
        s.describe(key, typ, unit, desc).metrics.len() == s.metrics.len() + 1,
        forall|k: Seq<char>|
            k != key ==> #[trigger] s.describe(key, typ, unit, desc).meta_of(k) == s.meta_of(k),
{
    let d = s.describe(key, typ, unit, desc);
    lemma_slot_of(s.metric_keys(), key);
    lemma_keys_push(s.metrics, MetricMetaView { key, typ, desc: Some(desc), unit });
    lemma_slot_of_push(s.metric_keys(), key);
    assert forall|k: Seq<char>| k != key implies #[trigger] d.meta_of(k) == s.meta_of(k) by {
        lemma_slot_of(s.metric_keys(), k);
    }
}

/// The state after an update that the middleware asks for was issued: the
/// metric is registered, and a counter is incremented through its handle.
pub open spec fn issue(s: RegistryView, update: MetricUpdateView) -> RegistryView {
    match update {
        MetricUpdateView::Increment { name, value } => {
            let r = s.register_counter(name);
            r.increment_counter(r.counter_slot(name), value)
        },
        MetricUpdateView::Record { name, secs, nanos } => s.register_histogram(name),
    }
}

/// The state after a sequence of updates was issued, from the first to the
/// last.
pub open spec fn issue_all(s: RegistryView, updates: Seq<MetricUpdateView>) -> RegistryView
    decreases updates.len(),
{
    if updates.len() == 0 {
        s
    } else {
        issue(issue_all(s, updates.drop_last()), updates.last())
    }
}

/// Incrementing the counter of one name leaves the count of every other name
/// as it is.
proof fn lemma_issue_increment(s: RegistryView, name: Seq<char>, value: u64, other: Seq<char>)
    ensures
        issue(s, MetricUpdateView::Increment { name, value }).counter_value(name) == counter_sum(
            s.counter_value(name),
            value,
        ),
        other != name ==> issue(s, MetricUpdateView::Increment { name, value }).counter_value(
            other,
        ) == s.counter_value(other),
        issue(s, MetricUpdateView::Increment { name, value }).knows(name),
{
    let m = s.register_meta(name, MetricType::Counter);
    let r = s.register_counter(name);
    let h = r.counter_slot(name);
    let t = r.increment_counter(h, value);
    law_registered_is_known(s, name, MetricType::Counter);
    law_handle_names_its_cell(s, name);
    lemma_slot_of(cell_names(s.counters), name);
    lemma_slot_of(cell_names(s.counters), other);
    lemma_slot_of_push(cell_names(s.counters), name);
    lemma_names_push(s.counters, CellView { name, value: 0 });
    lemma_names_update(
        r.counters,
        h,
        CellView { name: r.counters[h].name, value: counter_sum(r.counters[h].value, value) },
    );
    lemma_slot_of(cell_names(r.counters), other);
}

/// Registering a histogram leaves every count as it is.
proof fn lemma_issue_record(
    s: RegistryView,
    name: Seq<char>,
    secs: u64,
    nanos: u32,
    other: Seq<char>,
)
    ensures
        issue(s, MetricUpdateView::Record { name, secs, nanos }).counter_value(other)
            == s.counter_value(other),
        issue(s, MetricUpdateView::Record { name, secs, nanos }).knows(name),
{
    law_registered_is_known(s, name, MetricType::Histogram);
}

/// A request that was answered is counted once and timed: issuing what the
/// middleware asks for adds one to the count of requests, leaves the count of
/// errors as it is, and makes the histogram of durations known.
pub proof fn law_answered_request_counted(s: RegistryView, secs: u64, nanos: u32)
    ensures
        ({
            let t = issue_all(s, completion_updates(RequestOutcome::Responded, secs, nanos));
            &&& t.counter_value(requests_total()) == counter_sum(
                s.counter_value(requests_total()),
                1,
            )
            &&& t.counter_value(requests_error()) == s.counter_value(requests_error())
            &&& t.knows(requests_total())
            &&& t.knows(requests_duration())
        }),
{
    reveal_strlit("http_requests_total");
    reveal_strlit("http_requests_duration_seconds");
    reveal_strlit("http_requests_error");
    let updates = completion_updates(RequestOutcome::Responded, secs, nanos);
    let first = MetricUpdateView::Increment { name: requests_total(), value: 1 };
    let second = MetricUpdateView::Record { name: requests_duration(), secs, nanos };
    reveal_with_fuel(issue_all, 3);
    assert(updates.drop_last() =~= seq![first]);
    assert(updates.drop_last().drop_last() =~= Seq::<MetricUpdateView>::empty());
    assert(issue_all(s, updates.drop_last()) == issue(s, first));
    assert(issue_all(s, updates) == issue(issue(s, first), second));
    assert(requests_total()[14] != requests_error()[14]);
    lemma_issue_increment(s, requests_total(), 1, requests_error());
    lemma_issue_record(issue(s, first), requests_duration(), secs, nanos, requests_total());
    lemma_issue_record(issue(s, first), requests_duration(), secs, nanos, requests_error());
    law_kind_is_fixed(
        issue(s, first),
        Operation::RegisterHistogram { key: requests_duration() },
        requests_total(),
    );
}

/// A request that failed is counted as one error, and as nothing else:
/// issuing what the middleware asks for adds one to the count of errors and
/// leaves the count of requests as it is.
pub proof fn law_failed_request_counted(s: RegistryView, secs: u64, nanos: u32)
    ensures
        ({
            let t = issue_all(s, completion_updates(RequestOutcome::Failed, secs, nanos));
            &&& t.counter_value(requests_error()) == counter_sum(
                s.counter_value(requests_error()),
                1,
            )
            &&& t.counter_value(requests_total()) == s.counter_value(requests_total())
            &&& t.histograms == s.histograms
        }),
{
    reveal_strlit("http_requests_total");
    reveal_strlit("http_requests_error");
    let updates = completion_updates(RequestOutcome::Failed, secs, nanos);
    let only = MetricUpdateView::Increment { name: requests_error(), value: 1 };
    reveal_with_fuel(issue_all, 2);
    assert(updates.drop_last() =~= Seq::<MetricUpdateView>::empty());
    assert(issue_all(s, updates) == issue(s, only));
    assert(requests_total()[14] != requests_error()[14]);
    lemma_issue_increment(s, requests_error(), 1, requests_total());
}

} // verus!
