//! The transport's pure core: the line-framing rule for the child's byte
//! stream, and the decisions of the failure and termination paths. The
//! blocking reads and writes themselves live outside the library.

use vstd::prelude::*;

verus! {

/// A byte of child output, as the character it stands for.
pub open spec fn byte_char(b: u8) -> char {
    b as char
}

/// Accumulates bytes of child output into lines.
pub struct LineAccumulator {
    pub buf: Vec<char>,
}

impl LineAccumulator {
    pub fn new() -> (r: LineAccumulator)
        ensures
            r.buf@.len() == 0,
    {
        LineAccumulator { buf: Vec::new() }
    }

    /// The buffer with a trailing carriage return removed.
    pub open spec fn stripped(self) -> Seq<char> {
        if self.buf@.len() > 0 && self.buf@.last() == '\r' {
            self.buf@.drop_last()
        } else {
            self.buf@
        }
    }

    /// The framing rule: a newline completes the buffered line with any
    /// trailing carriage return stripped; the prompt glyph completes the
    /// line at once, glyph included, since prompts often come without a
    /// newline; any other byte only accumulates.
    pub fn push_byte(&mut self, b: u8) -> (r: Option<String>)
        ensures
            b == 10 ==> (r matches Some(line) && line@ == old(self).stripped()
                && final(self).buf@.len() == 0),
            b == 63 ==> (r matches Some(line) && line@ == old(self).buf@.push('?')
                && final(self).buf@.len() == 0),
            b != 10 && b != 63 ==> r is None
                && final(self).buf@ == old(self).buf@.push(byte_char(b)),
    {
        if b == 10 {
            if self.buf.len() > 0 && *self.buf.last().unwrap() == '\r' {
                self.buf.pop();
            }
            let line = crate::numbers::string_from_chars(&self.buf);
            self.buf = Vec::new();
            Some(line)
        } else if b == 63 {
            self.buf.push('?');
            let line = crate::numbers::string_from_chars(&self.buf);
            self.buf = Vec::new();
            Some(line)
        } else {
            self.buf.push(b as char);
            None
        }
    }

    /// What remains when the stream closes: the buffered partial line, if
    /// any.
    pub fn take_rest(&mut self) -> (r: Option<String>)
        ensures
            old(self).buf@.len() == 0 ==> r is None,
            old(self).buf@.len() > 0 ==> (r matches Some(line) && line@ == old(self).buf@),
            final(self).buf@.len() == 0,
    {
        if self.buf.len() == 0 {
            self.buf = Vec::new();
            None
        } else {
            let line = crate::numbers::string_from_chars(&self.buf);
            self.buf = Vec::new();
            Some(line)
        }
    }
}

/// How a stream failure is classified.
pub enum StreamFailure {
    TransportIo,
    StreamClosed,
}

/// A stream error while the child is confirmed alive is fatal transport
/// trouble; the same error after the child has exited is only the benign
/// end of the stream.
pub fn stream_failure_kind(process_alive: bool) -> (r: StreamFailure)
    ensures
        (r is TransportIo) == process_alive,
{
    if process_alive {
        StreamFailure::TransportIo
    } else {
        StreamFailure::StreamClosed
    }
}

} // verus!
