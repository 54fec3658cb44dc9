//! The histogram cell.
use vstd::prelude::*;

verus! {

/// A histogram cell. Histograms are registered and named like the other
/// metrics, but the registry keeps no samples: there is nothing to read back.
#[derive(Debug, Clone, Copy)]
pub struct SimpleHistogram;

impl Default for SimpleHistogram {
    fn default() -> (r: Self) {
        SimpleHistogram
    }
}

} // verus!
