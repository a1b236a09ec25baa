//! Frame scanning: bytes arrive one at a time from the receive interrupt
//! and accumulate in a bounded buffer until the line-feed terminator
//! shows up. Bytes beyond the buffer's capacity are dropped silently; the
//! terminator still signals a complete frame either way.

use vstd::prelude::*;

verus! {

use crate::envelope::B_LF;

/// The receive buffer's capacity, sized for the modem's largest
/// notification with headroom.
pub const RX_BUFFER_SIZE: usize = 255;

/// Accumulates one raw frame at a time.
#[derive(Debug)]
pub struct FrameScanner {
    buf: Vec<u8>,
}

impl View for FrameScanner {
    type V = Seq<u8>;

    closed spec fn view(&self) -> Seq<u8> {
        self.buf@
    }
}

impl FrameScanner {
    /// The buffer never outgrows its capacity.
    pub open spec fn well_formed(&self) -> bool {
        self@.len() <= RX_BUFFER_SIZE
    }

    /// An empty scanner.
    pub fn new() -> (s: Self)
        ensures
            s@ == Seq::<u8>::empty(),
            s.well_formed(),
    {
        FrameScanner { buf: Vec::new() }
    }

    /// Takes one byte: appends it while there is room (drops it
    /// otherwise), and reports whether it was the frame terminator — the
    /// signal to process the buffer and reset.
    pub fn push(&mut self, byte: u8) -> (ready: bool)
        requires
            old(self).well_formed(),
        ensures
            final(self).well_formed(),
            final(self)@ == if old(self)@.len() < RX_BUFFER_SIZE {
                old(self)@.push(byte)
            } else {
                old(self)@
            },
            ready == (byte == B_LF),
    {
        if self.buf.len() < RX_BUFFER_SIZE {
            self.buf.push(byte);
        }
        byte == B_LF
    }

    /// The bytes accumulated so far.
    pub fn bytes(&self) -> (r: &[u8])
        ensures
            r@ == self@,
    {
        self.buf.as_slice()
    }

    /// Clears the buffer for the next frame.
    pub fn reset(&mut self)
        ensures
            final(self)@ == Seq::<u8>::empty(),
            final(self).well_formed(),
    {
        self.buf.clear();
    }
}

} // verus!
