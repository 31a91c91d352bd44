//! A console-backed sink: buffers the record's text in memory and writes
//! it to standard output, with a trailing newline, when the record
//! terminates.

use crate::logger::{log, Entry, Level, Outputter};
use std::io::Write;
use vstd::prelude::*;
use vstd::string::StringExecFns;

verus! {

/// A sink that accumulates one record and prints it as one line when the
/// record terminates.
pub struct StdoutOutputter {
    buf: String,
    flushed: Ghost<Seq<char>>,
}

/// Relies on `std::io::stdout`: writes the buffered record and a newline
/// to the process's standard output.  An I/O failure is ignored; delivery
/// is the collaborator's concern, not the encoder's.
#[verifier::external_body]
fn print_line(buf: &String) {
    let _ = writeln!(std::io::stdout(), "{}", buf);
}

impl Outputter for StdoutOutputter {
    closed spec fn text(&self) -> Seq<char> {
        self.flushed@ + self.buf@
    }

    fn write_str(&mut self, val: &str) {
        let ghost t0 = self.text();
        self.buf.append(val);
        proof {
            assert(self.text() =~= t0 + val@);
        }
    }

    fn endline(&mut self) {
        let ghost t0 = self.text();
        print_line(&self.buf);
        self.flushed = Ghost(self.flushed@ + self.buf@ + "\n"@);
        self.buf = String::new();
        proof {
            assert(self.text() =~= t0 + "\n"@);
        }
    }
}

impl StdoutOutputter {
    /// A console sink with an empty buffer.
    pub fn new() -> (r: StdoutOutputter)
        ensures
            r.text() == Seq::<char>::empty(),
    {
        let r = StdoutOutputter { buf: String::new(), flushed: Ghost(Seq::empty()) };
        proof {
            assert(r.text() =~= Seq::<char>::empty());
        }
        r
    }
}

/// Encodes one record to the process's standard output, through a fresh
/// console sink that flushes when the record terminates.
pub fn stdout_log(msg: &str, level: Level, entries: &Vec<Entry>) {
    let mut out = StdoutOutputter::new();
    log(None, &mut out, msg, level, entries);
}

} // verus!
