//! An in-memory log of messages, kept for display: appending never drops
//! entries, and the last `n` entries can be read back.

use vstd::prelude::*;

verus! {

/// Append-only list of log messages.
pub struct Log {
    entries: Vec<String>,
}

impl View for Log {
    type V = Seq<String>;

    closed spec fn view(&self) -> Seq<String> {
        self.entries@
    }
}

impl Log {
    /// A log with no entries.
    pub fn new() -> (r: Log)
        ensures
            r@ == Seq::<String>::empty(),
    {
        Log { entries: Vec::new() }
    }

    /// Appends one message at the end.
    pub fn log(&mut self, msg: String)
        ensures
            final(self)@ == old(self)@.push(msg),
    {
        self.entries.push(msg);
    }

    /// The last `n` entries, oldest first; all of them if there are fewer
    /// than `n`.
    pub fn last_n(&self, n: usize) -> (r: Vec<String>)
        ensures
            r@ == self@.skip(if n < self@.len() {
                self@.len() - n
            } else {
                0
            }),
    {
        let len = self.entries.len();
        let skip: usize = if len <= n {
            0
        } else {
            len - n
        };
        let mut out: Vec<String> = Vec::new();
        let mut i: usize = skip;
        while i < len
            invariant
                skip <= i <= len,
                len == self@.len(),
                out@ == self@.subrange(skip as int, i as int),
            decreases len - i,
        {
            out.push(self.entries[i].clone());
            assert(out@ =~= self@.subrange(skip as int, i + 1));
            i = i + 1;
        }
        assert(self@.subrange(skip as int, len as int) =~= self@.skip(skip as int));
        out
    }
}

} // verus!
