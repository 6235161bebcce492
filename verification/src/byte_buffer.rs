//! A read cursor over a borrowed byte slice.

use crate::utility::Pos;
use crate::varint::{
    be_value, extra_len, lemma_first_byte, parse_varint, payload, pow256, StreamError,
};
use vstd::prelude::*;

verus! {

/// A forward-only reader over a byte slice.
#[derive(Debug)]
pub struct ByteBuffer<'a> {
    bytes: &'a [u8],
    index: usize,
}

impl<'a> ByteBuffer<'a> {
    #[verifier::type_invariant]
    spec fn inv(self) -> bool {
        self.index <= self.bytes@.len()
    }

    /// All bytes of the underlying slice, read or not.
    pub closed spec fn bytes(self) -> Seq<u8> {
        self.bytes@
    }

    /// Number of bytes read so far.
    pub closed spec fn position(self) -> nat {
        self.index as nat
    }

    /// The bytes that have not been read yet.
    pub open spec fn remaining(self) -> Seq<u8> {
        self.bytes().skip(self.position() as int)
    }

    /// Starts reading at the first byte of `bytes`.
    pub fn new(bytes: &'a [u8]) -> (buf: Self)
        ensures
            buf.bytes() == bytes@,
            buf.position() == 0,
    {
        Self { index: 0, bytes }
    }

    /// Reads one byte, or returns `None` and leaves the reader unchanged
    /// when every byte has been read.
    pub fn next(&mut self) -> (out: Option<u8>)
        ensures
            final(self).bytes() == old(self).bytes(),
            old(self).position() <= old(self).bytes().len(),
            match out {
                Some(b) => {
                    &&& old(self).position() < old(self).bytes().len()
                    &&& b == old(self).bytes()[old(self).position() as int]
                    &&& final(self).position() == old(self).position() + 1
                },
                None => {
                    &&& old(self).position() == old(self).bytes().len()
                    &&& final(self).position() == old(self).position()
                },
            },
    {
        proof {
            use_type_invariant(&*self);
        }
        if self.index < self.bytes.len() {
            let val = self.bytes[self.index];
            self.index += 1;
            Some(val)
        } else {
            None
        }
    }

    /// Reads one variable-length coordinate.
    ///
    /// When the bytes end before the value does, every byte has been read
    /// afterwards. A value too large for a coordinate is read in full and
    /// then refused.
    pub fn read_compound_int(&mut self) -> (out: Result<Pos, StreamError>)
        ensures
            final(self).bytes() == old(self).bytes(),
            match parse_varint(old(self).remaining()) {
                Ok((value, len)) => {
                    &&& out is Ok
                    &&& out->Ok_0 == value
                    &&& final(self).position() == old(self).position() + len
                },
                Err(StreamError::UnexpectedEndOfStream) => {
                    &&& out == Err::<Pos, StreamError>(StreamError::UnexpectedEndOfStream)
                    &&& final(self).position() == old(self).bytes().len()
                },
                Err(StreamError::Overflow) => {
                    &&& out == Err::<Pos, StreamError>(StreamError::Overflow)
                    &&& final(self).position() == old(self).position() + 1 + extra_len(
                        old(self).remaining()[0],
                    )
                },
            },
    {
        let ghost start = self.position() as int;
        let ghost all = self.bytes();
        let byte = match self.next() {
            Some(b) => b,
            None => {
                return Err(StreamError::UnexpectedEndOfStream);
            },
        };
        let lookahead = byte.leading_ones();
        proof {
            lemma_first_byte(byte);
        }
        let mask: u8 = if lookahead < 8 {
            0xFFu8 >> lookahead
        } else {
            0
        };
        let mut num: u64 = (byte & mask) as u64;
        let mut i: u32 = 0;
        assert(all.subrange(start + 1, start + 1) == Seq::<u8>::empty());
        while i < lookahead
            invariant
                old(self).bytes() == all,
                old(self).position() == start,
                self.bytes() == all,
                0 <= start < all.len(),
                byte == all[start],
                lookahead == extra_len(byte),
                i <= lookahead,
                self.position() == start + 1 + i,
                self.position() <= all.len(),
                num == be_value(payload(byte), all.subrange(start + 1, start + 1 + i)),
                num < 128 * pow256(i as int),
                lookahead == 8 ==> num < pow256(i as int),
            decreases lookahead - i,
        {
            let b = match self.next() {
                Some(b) => b,
                None => {
                    assert(all.skip(start)[0] == byte);
                    return Err(StreamError::UnexpectedEndOfStream);
                },
            };
            assert(all.subrange(start + 1, start + 2 + i).drop_last() == all.subrange(
                start + 1,
                start + 1 + i,
            ));
            num = num * 256 + b as u64;
            i += 1;
        }
        assert(all.skip(start)[0] == byte);
        assert(all.skip(start).subrange(1, 1 + lookahead) == all.subrange(
            start + 1,
            start + 1 + lookahead,
        ));
        if num > i64::MAX as u64 {
            Err(StreamError::Overflow)
        } else {
            Ok(num as i64)
        }
    }

    /// The number of bytes read so far.
    pub fn consumed(&self) -> (n: usize)
        ensures
            n == self.position(),
            n <= self.bytes().len(),
    {
        proof {
            use_type_invariant(self);
        }
        self.index
    }

    /// True when every byte has been read.
    pub fn is_empty(&self) -> (empty: bool)
        ensures
            empty == (self.position() >= self.bytes().len()),
            self.position() <= self.bytes().len(),
    {
        proof {
            use_type_invariant(self);
        }
        self.index >= self.bytes.len()
    }
}

impl<'a> Clone for ByteBuffer<'a> {
    /// A second reader over the same slice, at the same position.
    fn clone(&self) -> (copy: Self)
        ensures
            copy == *self,
    {
        proof {
            use_type_invariant(self);
        }
        ByteBuffer { bytes: self.bytes, index: self.index }
    }
}

} // verus!
