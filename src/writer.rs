//! The in-memory byte sink that the emitter writes to.
use vstd::prelude::*;
use crate::diagnostic::{lit, push_bytes, push_str};

verus! {

/// A write-only byte sink; the caller takes the bytes when emission is done.
pub struct CustomBufWriter {
    buf: Vec<u8>,
}

impl View for CustomBufWriter {
    type V = Seq<u8>;

    closed spec fn view(&self) -> Seq<u8> {
        self.buf@
    }
}

impl CustomBufWriter {
    pub fn new() -> (r: CustomBufWriter)
        ensures
            r@ == Seq::<u8>::empty(),
    {
        CustomBufWriter { buf: Vec::new() }
    }

    /// Writes the bytes of a string.
    pub fn w(&mut self, s: &str)
        ensures
            final(self)@ == old(self)@ + lit(s),
    {
        push_str(&mut self.buf, s);
    }

    /// Writes a byte slice.
    pub fn w_bytes(&mut self, b: &[u8])
        ensures
            final(self)@ == old(self)@ + b@,
    {
        push_bytes(&mut self.buf, b);
    }

    /// Writes `n` copies of the two-space indentation unit.
    pub fn w_spacer(&mut self, n: u64)
        ensures
            final(self)@ == old(self)@ + spacer(n as nat),
    {
        let mut i: u64 = 0;
        while i < n
            invariant
                i <= n,
                self@ == old(self)@ + spacer(i as nat),
            decreases n - i,
        {
            self.w("  ");
            i += 1;
        }
    }

    pub fn bytes(&self) -> (r: &Vec<u8>)
        ensures
            r@ == self@,
    {
        &self.buf
    }

    pub fn into_bytes(self) -> (r: Vec<u8>)
        ensures
            r@ == self@,
    {
        self.buf
    }
}

/// `n` copies of two spaces.
pub open spec fn spacer(n: nat) -> Seq<u8>
    decreases n,
{
    if n == 0 { Seq::empty() } else { spacer((n - 1) as nat) + lit("  ") }
}

} // verus!
