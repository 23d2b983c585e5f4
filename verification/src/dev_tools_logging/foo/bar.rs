//! A part of `foo` that reports at three levels.

use super::super::{entry, records, Entry, Level};
use vstd::prelude::*;

verus! {

/// What `run` reports.
pub open spec fn bar_records() -> Seq<(Level, Seq<char>)> {
    seq![(Level::Warn, "[bar] warn"@), (Level::Info, "[bar] info"@), (Level::Debug, "[bar] debug"@)]
}

/// The records of this part: a warning, a note and a debug record.
pub fn run() -> (entries: Vec<Entry>)
    ensures
        records(entries@) == bar_records(),
{
    let mut entries: Vec<Entry> = Vec::new();
    entries.push(entry(Level::Warn, "[bar] warn"));
    entries.push(entry(Level::Info, "[bar] info"));
    entries.push(entry(Level::Debug, "[bar] debug"));
    proof {
        assert(records(entries@) =~= bar_records());
    }
    entries
}

} // verus!
