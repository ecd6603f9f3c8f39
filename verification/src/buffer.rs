//! The line that a user typed.

use vstd::prelude::*;
use vstd::utf8::encode_utf8;

verus! {

/// Holds one line of input, without the newline that ended it.
pub struct InputBuffer {
    pub buffer: String,
}

impl InputBuffer {
    /// The bytes of the line.
    pub open spec fn bytes(&self) -> Seq<u8> {
        encode_utf8(self.buffer@)
    }

    /// Returns a buffer that holds the empty line.
    pub fn new() -> (input_buffer: InputBuffer)
        ensures
            input_buffer.buffer@ == Seq::<char>::empty(),
    {
        InputBuffer { buffer: String::new() }
    }
}

} // verus!
