//! Logging: session naming and log-line text.
//!
//! A session is named by the Unix time of its start, decimal seconds; the
//! name is fixed the first time a session starts and kept afterwards.  Log
//! lines carry the elapsed time, a bracketed name and source, and the
//! message.  The files themselves are written outside.

use vstd::prelude::*;

use crate::strings::{ascii_to_string, bytes_as_chars};
use crate::text::{dec_digits, fix_text, fmt_fix, fmt_u64, lemma_dec_digits_ok};

verus! {

/// Logger state: the session identifier, empty until a session starts.
pub struct Logger {
    /// Decimal session name; empty before the first start.
    pub session: Vec<u8>,
}

impl Logger {
    /// A logger with no session yet.
    pub fn new() -> (r: Logger)
        ensures
            r.session@.len() == 0,
    {
        Logger { session: Vec::new() }
    }

    /// The session identifier for a start at `now_secs` Unix seconds.
    pub fn determinateSessionName(now_secs: u64) -> (r: String)
        ensures
            r@ == bytes_as_chars(dec_digits(now_secs as nat)),
    {
        let digits = fmt_u64(now_secs);
        proof {
            lemma_dec_digits_ok(now_secs as nat);
        }
        ascii_to_string(digits)
    }

    /// Starts a session: the name is set from the clock the first time and
    /// kept on any later call.
    pub fn startSession(&mut self, now_secs: u64)
        ensures
            old(self).session@.len() == 0 ==> final(self).session@ == dec_digits(now_secs as nat),
            old(self).session@.len() > 0 ==> final(self).session@ == old(self).session@,
    {
        if self.session.len() == 0 {
            self.session = fmt_u64(now_secs);
        }
    }

    /// One log line: the elapsed seconds, the bracketed name and source,
    /// and the message.
    pub fn format_line(elapsed: i64, name: &[u8], source: &[u8], msg: &[u8]) -> (r: Vec<u8>)
        requires
            crate::fixed::fix_in_range(elapsed as int),
        ensures
            r@ == fix_text(elapsed as int) + seq![91u8] + name@ + seq![93u8, 91u8] + source@
                + seq![93u8, 32u8] + msg@,
    {
        let mut out = fmt_fix(elapsed);
        out.push(91);
        let mut n = vstd::slice::slice_to_vec(name);
        out.append(&mut n);
        out.push(93);
        out.push(91);
        let mut s = vstd::slice::slice_to_vec(source);
        out.append(&mut s);
        out.push(93);
        out.push(32);
        let mut m = vstd::slice::slice_to_vec(msg);
        out.append(&mut m);
        proof {
            assert(out@ =~= fix_text(elapsed as int) + seq![91u8] + name@ + seq![93u8, 91u8]
                + source@ + seq![93u8, 32u8] + msg@);
        }
        out
    }
}

} // verus!
