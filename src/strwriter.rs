//! A sink that collects written text in memory.
use vstd::prelude::*;

verus! {

/// Collects the text written to it.
pub struct StrWriter {
    buf: String,
}

impl View for StrWriter {
    type V = Seq<char>;

    closed spec fn view(&self) -> Seq<char> {
        self.buf@
    }
}

impl StrWriter {
    pub fn new() -> (r: StrWriter)
        ensures
            r@ == Seq::<char>::empty(),
    {
        StrWriter { buf: String::new() }
    }

    /// Appends `s`.
    pub fn write_str(&mut self, s: &str)
        ensures
            final(self)@ == old(self)@ + s@,
    {
        self.buf.append(s);
    }

    /// The text written so far.
    pub fn to_string(self) -> (r: String)
        ensures
            r@ == self@,
    {
        self.buf
    }
}

} // verus!
