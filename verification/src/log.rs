//! Lines for the operator, on standard output or standard error.

use vstd::prelude::*;

verus! {

/// A line to print, and where.
#[derive(Debug, PartialEq, Eq)]
pub enum LogLine {
    Stdout(String),
    Stderr(String),
}

/// The text of a line, and where it goes.
pub enum LogText {
    Stdout(Seq<char>),
    Stderr(Seq<char>),
}

impl View for LogLine {
    type V = LogText;

    open spec fn view(&self) -> LogText {
        match self {
            LogLine::Stdout(s) => LogText::Stdout(s@),
            LogLine::Stderr(s) => LogText::Stderr(s@),
        }
    }
}

/// The texts of a list of lines.
pub open spec fn log_texts(v: Seq<LogLine>) -> Seq<LogText> {
    Seq::new(v.len(), |i: int| v[i]@)
}

/// Adds a line to the end of a list.
pub fn add_line(log: &mut Vec<LogLine>, line: LogLine)
    ensures
        log_texts(final(log)@) == log_texts(old(log)@).push(line@),
{
    let ghost t = line@;
    log.push(line);
    assert(log_texts(log@) =~= log_texts(old(log)@).push(t));
}

} // verus!
