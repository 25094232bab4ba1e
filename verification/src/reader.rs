//! The bytes that a program can read.

use vstd::prelude::*;

verus! {

/// A supply of input bytes, handed out one at a time.
pub struct ByteReader {
    bytes: Vec<u8>,
    next: usize,
}

impl View for ByteReader {
    type V = Seq<u8>;

    /// The bytes not yet handed out.
    closed spec fn view(&self) -> Seq<u8> {
        self.bytes@.skip(self.next as int)
    }
}

impl ByteReader {
    #[verifier::type_invariant]
    spec fn inv(self) -> bool {
        self.next <= self.bytes@.len()
    }

    /// A reader that will hand out `bytes`, first to last.
    pub fn new(bytes: Vec<u8>) -> (reader: ByteReader)
        ensures
            reader@ == bytes@,
    {
        assert(bytes@.skip(0) =~= bytes@);
        ByteReader { bytes, next: 0 }
    }

    /// The next byte, or `None` when none is left.
    pub fn read_byte(&mut self) -> (byte: Option<u8>)
        ensures
            old(self)@.len() == 0 ==> byte is None && final(self)@ == old(self)@,
            old(self)@.len() > 0 ==> byte == Some(old(self)@[0]) && final(self)@ == old(self)@.drop_first(),
    {
        proof {
            use_type_invariant(&*self);
        }
        if self.next < self.bytes.len() {
            let byte: u8 = self.bytes[self.next];
            assert(self.bytes@.skip(self.next + 1) =~= self.bytes@.skip(self.next as int).drop_first());
            self.next = self.next + 1;
            Some(byte)
        } else {
            None
        }
    }
}

} // verus!
