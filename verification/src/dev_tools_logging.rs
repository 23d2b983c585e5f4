//! Log records as plain values: what a routine reports, at which level, and
//! which of it a console logger lets through.

use vstd::prelude::*;
use vstd::string::*;

pub mod foo;
pub mod versioning;

verus! {

/// The severity of a record, most severe first.
#[derive(Debug, Clone, Copy, PartialEq, Eq, Structural)]
pub enum Level {
    Error,
    Warn,
    Info,
    Debug,
    Trace,
}

impl Level {
    /// The position of the level, 1 for `Error` up to 5 for `Trace`: a
    /// logger that admits a level admits every level of lower rank.
    pub open spec fn rank(self) -> nat {
        match self {
            Level::Error => 1,
            Level::Warn => 2,
            Level::Info => 3,
            Level::Debug => 4,
            Level::Trace => 5,
        }
    }

    /// The name of the level in capitals.
    pub open spec fn name(self) -> Seq<char> {
        match self {
            Level::Error => "ERROR"@,
            Level::Warn => "WARN"@,
            Level::Info => "INFO"@,
            Level::Debug => "DEBUG"@,
            Level::Trace => "TRACE"@,
        }
    }

    /// The position of the level, 1 for `Error` up to 5 for `Trace`.
    pub fn severity(self) -> (n: u8)
        ensures
            n == self.rank(),
    {
        match self {
            Level::Error => 1,
            Level::Warn => 2,
            Level::Info => 3,
            Level::Debug => 4,
            Level::Trace => 5,
        }
    }

    /// The name of the level in capitals.
    pub fn as_str(self) -> (s: &'static str)
        ensures
            s@ == self.name(),
    {
        match self {
            Level::Error => "ERROR",
            Level::Warn => "WARN",
            Level::Info => "INFO",
            Level::Debug => "DEBUG",
            Level::Trace => "TRACE",
        }
    }
}

/// One record: a level and a message.
#[derive(Debug)]
pub struct Entry {
    pub level: Level,
    pub message: String,
}

/// The records of `entries` as pairs of level and message text.
pub open spec fn records(entries: Seq<Entry>) -> Seq<(Level, Seq<char>)> {
    Seq::new(entries.len(), |i: int| (entries[i].level, entries[i].message@))
}

/// A record of `message` at `level`.
pub fn entry(level: Level, message: &str) -> (e: Entry)
    ensures
        e.level == level,
        e.message@ == message@,
{
    Entry { level, message: message.to_owned() }
}

/// The line that the console logger prints for a record.
pub open spec fn console_line(level: Level, message: Seq<char>) -> Seq<char> {
    "Rust says: "@ + level.name() + " - "@ + message
}

/// The lines that the console logger prints for `recs`: one for each record
/// at `Info` or a more severe level, in order.
pub open spec fn console_lines(recs: Seq<(Level, Seq<char>)>) -> Seq<Seq<char>>
    decreases recs.len(),
{
    if recs.len() == 0 {
        seq![]
    } else {
        let last = recs.last();
        console_lines(recs.drop_last()) + if last.0.rank() <= Level::Info.rank() {
            seq![console_line(last.0, last.1)]
        } else {
            seq![]
        }
    }
}

/// The texts of `lines`.
pub open spec fn texts(lines: Seq<String>) -> Seq<Seq<char>> {
    Seq::new(lines.len(), |i: int| lines[i]@)
}

/// A logger that writes to the console what is at least informational.
#[derive(Debug, Clone, Copy)]
pub struct ConsoleLogger;

impl ConsoleLogger {
    /// Whether a record at `level` is let through: `Error`, `Warn` and
    /// `Info` are, `Debug` and `Trace` are not.
    pub fn enabled(&self, level: Level) -> (b: bool)
        ensures
            b == (level.rank() <= Level::Info.rank()),
    {
        level.severity() <= Level::Info.severity()
    }

    /// The line to print for a record, or `None` where the record is not let
    /// through.
    pub fn log(&self, level: Level, message: &str) -> (line: Option<String>)
        ensures
            line is Some <==> level.rank() <= Level::Info.rank(),
            line is Some ==> line->0@ == console_line(level, message@),
    {
        if self.enabled(level) {
            let mut line = "Rust says: ".to_owned();
            line.append(level.as_str());
            line.append(" - ");
            line.append(message);
            Some(line)
        } else {
            None
        }
    }

    /// The lines to print for `entries`, in order.
    pub fn lines(&self, entries: &Vec<Entry>) -> (lines: Vec<String>)
        ensures
            texts(lines@) == console_lines(records(entries@)),
    {
        let mut lines: Vec<String> = Vec::new();
        let mut i: usize = 0;
        proof {
            assert(records(entries@).take(0) =~= Seq::<(Level, Seq<char>)>::empty());
            assert(texts(lines@) =~= Seq::<Seq<char>>::empty());
        }
        while i < entries.len()
            invariant
                i <= entries.len(),
                texts(lines@) == console_lines(records(entries@).take(i as int)),
            decreases entries.len() - i,
        {
            let ghost before = lines@;
            proof {
                let upto = records(entries@).take(i + 1);
                assert(upto.drop_last() =~= records(entries@).take(i as int));
                assert(upto.last() == (entries[i as int].level, entries[i as int].message@));
            }
            match self.log(entries[i].level, entries[i].message.as_str()) {
                Some(line) => {
                    lines.push(line);
                    proof {
                        assert(texts(lines@) =~= texts(before) + seq![line@]);
                    }
                },
                None => {
                    proof {
                        assert(texts(lines@) =~= texts(before) + Seq::<Seq<char>>::empty());
                    }
                },
            }
            i = i + 1;
        }
        proof {
            assert(records(entries@).take(entries.len() as int) =~= records(entries@));
        }
        lines
    }
}

/// The line of a record with the time in front: the time, the level in
/// square brackets, a dash, and the message.
pub open spec fn timestamped_line(time: Seq<char>, level: Level, message: Seq<char>) -> Seq<char> {
    time + " ["@ + level.name() + "] - "@ + message
}

/// The line of a record with the time in front.
pub fn with_timestamp(time: &str, level: Level, message: &str) -> (line: String)
    ensures
        line@ == timestamped_line(time@, level, message@),
{
    let mut line = time.to_owned();
    line.append(" [");
    line.append(level.as_str());
    line.append("] - ");
    line.append(message);
    line
}

/// What `custom_log` reports.
pub open spec fn custom_records() -> Seq<(Level, Seq<char>)> {
    seq![(Level::Info, "hello log"@), (Level::Warn, "warning"@), (Level::Error, "oops"@)]
}

/// The records of the console demonstration: a greeting, a warning and an
/// error, all of which the console logger lets through.
pub fn custom_log() -> (entries: Vec<Entry>)
    ensures
        records(entries@) == custom_records(),
        console_lines(records(entries@)).len() == 3,
{
    let mut entries: Vec<Entry> = Vec::new();
    entries.push(entry(Level::Info, "hello log"));
    entries.push(entry(Level::Warn, "warning"));
    entries.push(entry(Level::Error, "oops"));
    proof {
        assert(records(entries@) =~= custom_records());
        lemma_console_lines_all(custom_records());
    }
    entries
}

/// What `logs_per_module` reports: the root's three records, then those of
/// `foo::run`.
pub open spec fn per_module_records() -> Seq<(Level, Seq<char>)> {
    seq![(Level::Warn, "[root] warn"@), (Level::Info, "[root] info"@), (Level::Debug, "[root] debug"@)]
        + foo::foo_records()
}

/// The records of the per-module demonstration, root first.
pub fn logs_per_module() -> (entries: Vec<Entry>)
    ensures
        records(entries@) == per_module_records(),
{
    let mut entries: Vec<Entry> = Vec::new();
    entries.push(entry(Level::Warn, "[root] warn"));
    entries.push(entry(Level::Info, "[root] info"));
    entries.push(entry(Level::Debug, "[root] debug"));
    let ghost root = entries@;
    let mut below = foo::run();
    entries.append(&mut below);
    proof {
        assert(records(entries@) =~= records(root) + foo::foo_records());
        assert(records(root) =~= seq![
            (Level::Warn, "[root] warn"@),
            (Level::Info, "[root] info"@),
            (Level::Debug, "[root] debug"@),
        ]);
    }
    entries
}

/// Where every record is at `Info` or more severe, the console logger prints
/// a line for each.
pub proof fn lemma_console_lines_all(recs: Seq<(Level, Seq<char>)>)
    requires
        forall|i: int| 0 <= i < recs.len() ==> (#[trigger] recs[i]).0.rank() <= Level::Info.rank(),
    ensures
        console_lines(recs).len() == recs.len(),
    decreases recs.len(),
{
    if recs.len() > 0 {
        lemma_console_lines_all(recs.drop_last());
    }
}

/// The console logger never prints more lines than it is given records.
pub proof fn lemma_console_lines_bound(recs: Seq<(Level, Seq<char>)>)
    ensures
        console_lines(recs).len() <= recs.len(),
    decreases recs.len(),
{
    if recs.len() > 0 {
        lemma_console_lines_bound(recs.drop_last());
    }
}

} // verus!
