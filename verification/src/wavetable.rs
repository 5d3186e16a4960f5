//! The stock waveforms.

use vstd::prelude::*;
use crate::text::str_eq;

verus! {

/// A waveform that the renderer holds a table of.
#[derive(Clone, Copy, Debug, PartialEq, Eq, Structural)]
pub enum Stock {
    Sin,
    Saw,
}

impl Stock {
    /// The waveform that a name stands for: `sin` and `saw`, in lower case.
    pub open spec fn named(name: Seq<char>) -> Option<Stock> {
        if name == "sin"@ {
            Some(Stock::Sin)
        } else if name == "saw"@ {
            Some(Stock::Saw)
        } else {
            None
        }
    }

    /// The waveform of the given name, if there is one.
    pub fn from_name(name: &str) -> (r: Option<Stock>)
        ensures
            r == Self::named(name@),
    {
        if str_eq(name, "sin") {
            Some(Stock::Sin)
        } else if str_eq(name, "saw") {
            Some(Stock::Saw)
        } else {
            None
        }
    }
}

} // verus!
