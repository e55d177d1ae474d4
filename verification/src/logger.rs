//! The reference logger: an in-memory line sink.  A deployment that wants
//! the lines on disk wraps its own `Logger` around a file outside the
//! library; nothing in the engine depends on where the lines go.
use crate::Logger;
use vstd::prelude::*;

verus! {

/// An append-only buffer of diagnostic lines.
pub struct LoggerImpl {
    lines: Vec<String>,
}

impl LoggerImpl {
    /// How many lines have been logged.
    pub closed spec fn len_spec(&self) -> nat {
        self.lines@.len()
    }

    pub fn new() -> (r: LoggerImpl)
        ensures
            r.len_spec() == 0,
    {
        LoggerImpl { lines: Vec::new() }
    }

    /// How many lines have been logged.
    pub fn len(&self) -> (r: usize)
        ensures
            r == self.len_spec(),
    {
        self.lines.len()
    }
}

impl Logger for LoggerImpl {
    fn log_line(&mut self, line: &str) {
        self.lines.push(line.to_owned());
    }
}

} // verus!
