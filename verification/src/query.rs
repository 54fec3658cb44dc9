//! The query surface of the dashboard: the list of metrics, the list of
//! charts, and the values of the metrics that a query names.
use crate::charts::{resolve_charts, resolved_charts, ChartType};
use crate::recorder::{DashboardRecorder, MetricMeta, MetricValue};
use crate::sorting::{keys_of, sorted_by_key, strictly_ordered};
use vstd::prelude::*;

verus! {

/// The names of a query, which separates them by semicolons: the parts of
/// `text` between the semicolons, in order. A text without a semicolon is one
/// name, the empty text is the empty name, and two semicolons in a row hold
/// the empty name between them.
pub open spec fn split_keys(text: Seq<char>) -> Seq<Seq<char>>
    decreases text.len(),
{
    if text.len() == 0 {
        seq![Seq::empty()]
    } else {
        let front = split_keys(text.drop_last());
        if text.last() == ';' {
            front.push(Seq::empty())
        } else {
            front.drop_last().push(front.last().push(text.last()))
        }
    }
}

/// The names of the query `query`.
pub fn parse_keys(query: &str) -> (r: Vec<&str>)
    ensures
        r.deep_view() == split_keys(query@),
{
    let n = query.unicode_len();
    let mut out: Vec<&str> = Vec::new();
    let mut start: usize = 0;
    let mut i: usize = 0;
    let chars = query.chars();
    proof {
        assert(query@.take(0) =~= Seq::empty());
        assert(out.deep_view().push(query@.subrange(0, 0)) =~= seq![Seq::<char>::empty()]);
    }
    for c in it: chars
        invariant
            it.seq() == query@,
            n == query@.len(),
            i == it.index(),
            start <= i <= n,
            split_keys(query@.take(i as int)) == out.deep_view().push(
                query@.subrange(start as int, i as int),
            ),
    {
        let ghost before = out.deep_view();
        proof {
            assert(query@.take(i + 1).drop_last() =~= query@.take(i as int));
            assert(query@.take(i + 1).last() == c);
        }
        if c == ';' {
            let part = query.substring_char(start, i);
            out.push(part);
            start = i + 1;
            proof {
                assert(out.deep_view() =~= before.push(part@));
                assert(query@.subrange(start as int, i + 1) =~= Seq::<char>::empty());
            }
        } else {
            proof {
                assert(query@.subrange(start as int, i + 1) =~= query@.subrange(
                    start as int,
                    i as int,
                ).push(c));
                assert(before.push(query@.subrange(start as int, i as int)).drop_last()
                    =~= before);
            }
        }
        i += 1;
    }
    let ghost before = out.deep_view();
    let part = query.substring_char(start, n);
    out.push(part);
    proof {
        assert(query@.take(n as int) =~= query@);
        assert(out.deep_view() =~= before.push(part@));
    }
    out
}

/// The parts of `parts` put together again, with a semicolon between each
/// two.
pub open spec fn joined(parts: Seq<Seq<char>>) -> Seq<char>
    decreases parts.len(),
{
    if parts.len() == 0 {
        Seq::empty()
    } else if parts.len() == 1 {
        parts[0]
    } else {
        joined(parts.drop_last()).push(';') + parts.last()
    }
}

/// Splitting loses nothing and splits at every semicolon: there is at least
/// one name, no name holds a semicolon, and the names put together again are
/// the text.
pub proof fn lemma_split_keys(text: Seq<char>)
    ensures
        split_keys(text).len() >= 1,
        forall|i: int|
            0 <= i < split_keys(text).len() ==> !(#[trigger] split_keys(text)[i]).contains(';'),
        joined(split_keys(text)) == text,
    decreases text.len(),
{
    if text.len() == 0 {
        assert(joined(split_keys(text)) =~= text);
    } else {
        let init = text.drop_last();
        let front = split_keys(init);
        let parts = split_keys(text);
        lemma_split_keys(init);
        if text.last() == ';' {
            assert(parts.drop_last() =~= front);
            assert(joined(parts) =~= joined(front).push(';'));
            assert(text =~= init.push(';'));
            assert forall|i: int| 0 <= i < parts.len() implies !(#[trigger] parts[i]).contains(
                ';',
            ) by {
                if i < front.len() {
                    assert(parts[i] == front[i]);
                }
            }
        } else {
            let c = text.last();
            let grown = front.last().push(c);
            assert forall|i: int| 0 <= i < parts.len() implies !(#[trigger] parts[i]).contains(
                ';',
            ) by {
                if i < front.len() - 1 {
                    assert(parts[i] == front[i]);
                } else {
                    assert(parts[i] == grown);
                    if grown.contains(';') {
                        let at = choose|at: int| 0 <= at < grown.len() && grown[at] == ';';
                        assert(front.last()[at] == ';');
                        assert(front.last().contains(';'));
                    }
                }
            }
            assert(text =~= init.push(c));
            if front.len() == 1 {
                assert(front[0] == init);
                assert(joined(parts) =~= text);
            } else {
                assert(parts.drop_last() =~= front.drop_last());
                assert(joined(parts) =~= joined(front.drop_last()).push(';') + grown);
                assert(joined(front) =~= joined(front.drop_last()).push(';') + front.last());
                assert(joined(parts) =~= text);
            }
        }
    }
}

/// The metadata of all metrics of `recorder`, sorted ascending by name.
pub fn api_metrics(recorder: &DashboardRecorder) -> (r: Vec<MetricMeta>)
    ensures
        r.deep_view() == sorted_by_key(recorder@.metrics),
        strictly_ordered(keys_of(r.deep_view())),
        r.deep_view().to_multiset() == recorder@.metrics.to_multiset(),
{
    recorder.metrics()
}

/// The chart list of the dashboard of `recorder`: its configured charts and,
/// where its configuration asks for them, the charts of its other metrics,
/// sorted by the name of each chart's first metric.
pub fn api_charts(recorder: &DashboardRecorder) -> (r: Vec<ChartType>)
    ensures
        r.deep_view() == resolved_charts(recorder.options()@, sorted_by_key(recorder@.metrics)),
{
    let metas = recorder.metrics();
    resolve_charts(recorder.options(), &metas)
}

/// The current values of the metrics that the query `keys` names, in the
/// order of the query. A name that is unknown, or that names a histogram, has
/// no entry.
pub fn api_metrics_value(recorder: &DashboardRecorder, keys: &str) -> (r: Vec<MetricValue>)
    ensures
        r.deep_view() == recorder@.values_of(split_keys(keys@)),
{
    recorder.metrics_value(parse_keys(keys))
}

} // verus!
