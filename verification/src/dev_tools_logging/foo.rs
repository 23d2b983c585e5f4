//! A component that reports at three levels and then runs its part `bar`.

use super::{entry, records, Entry, Level};
use vstd::prelude::*;

pub mod bar;

verus! {

/// What `run` reports: three records of its own, then those of `bar::run`.
pub open spec fn foo_records() -> Seq<(Level, Seq<char>)> {
    seq![(Level::Warn, "[foo] warn"@), (Level::Info, "[foo] info"@), (Level::Debug, "[foo] debug"@)]
        + bar::bar_records()
}

/// The records of this component: a warning, a note and a debug record, then
/// all that `bar::run` reports.
pub fn run() -> (entries: Vec<Entry>)
    ensures
        records(entries@) == foo_records(),
{
    let mut entries: Vec<Entry> = Vec::new();
    entries.push(entry(Level::Warn, "[foo] warn"));
    entries.push(entry(Level::Info, "[foo] info"));
    entries.push(entry(Level::Debug, "[foo] debug"));
    let ghost own = entries@;
    let mut below = bar::run();
    entries.append(&mut below);
    proof {
        assert(records(entries@) =~= records(own) + bar::bar_records());
        assert(records(own) =~= seq![
            (Level::Warn, "[foo] warn"@),
            (Level::Info, "[foo] info"@),
            (Level::Debug, "[foo] debug"@),
        ]);
    }
    entries
}

} // verus!
