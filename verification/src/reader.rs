//! A cursor over a byte buffer that reads the primitive values of the
//! binary VDF format.
//!
//! Every read either succeeds and moves the cursor past what it read, or
//! fails and leaves the cursor where it was.

use crate::error::VdfError;
use crate::format::{first_zero, parse_blob, parse_i32, parse_text, parse_u32, parse_u64};
use crate::wire::{i32_from_bits, u32_from_le_bytes};
use vstd::prelude::*;
use vstd::slice::{slice_subrange, slice_to_vec};
use vstd::utf8::{decode_utf8, valid_utf8};

verus! {

/// `String::from_utf8` of the standard library: the text that the bytes
/// encode in UTF-8, or nothing where the bytes are not UTF-8.
#[verifier::external_body]
fn text_from_utf8(bytes: Vec<u8>) -> (text: Option<String>)
    ensures
        match text {
            Some(text) => valid_utf8(bytes@) && text@ == decode_utf8(bytes@),
            None => !valid_utf8(bytes@),
        },
{
    String::from_utf8(bytes).ok()
}

/// A byte buffer and a cursor into it.
pub struct Reader<'a> {
    data: &'a [u8],
    position: usize,
}

impl<'a> Reader<'a> {
    #[verifier::type_invariant]
    spec fn cursor_within_buffer(&self) -> bool {
        self.position <= self.data@.len()
    }

    /// The bytes that are read from.
    pub closed spec fn buffer(&self) -> Seq<u8> {
        self.data@
    }

    /// The index of the next byte to read.
    pub closed spec fn cursor(&self) -> int {
        self.position as int
    }

    /// A reader at the start of `data`.
    pub fn new(data: &'a [u8]) -> (reader: Self)
        ensures
            reader.buffer() == data@,
            reader.cursor() == 0,
    {
        Reader { data, position: 0 }
    }

    /// The index of the next byte to read.
    pub fn position(&self) -> (position: usize)
        ensures
            position == self.cursor(),
            position <= self.buffer().len(),
    {
        proof {
            use_type_invariant(self);
        }
        self.position
    }

    /// How many bytes are left to read.
    pub fn remaining(&self) -> (count: usize)
        ensures
            count == self.buffer().len() - self.cursor(),
    {
        proof {
            use_type_invariant(self);
        }
        self.data.len() - self.position
    }

    /// Reads one byte: a tag, where the decoder asks for it.
    pub fn read_byte(&mut self) -> (read: Result<u8, VdfError>)
        ensures
            final(self).buffer() == old(self).buffer(),
            old(self).cursor() <= final(self).cursor() <= final(self).buffer().len(),
            match read {
                Ok(byte) => {
                    &&& old(self).cursor() < old(self).buffer().len()
                    &&& byte == old(self).buffer()[old(self).cursor()]
                    &&& final(self).cursor() == old(self).cursor() + 1
                },
                Err(error) => {
                    &&& error == VdfError::TruncatedInput
                    &&& old(self).cursor() == old(self).buffer().len()
                    &&& final(self).cursor() == old(self).cursor()
                },
            },
    {
        proof {
            use_type_invariant(&*self);
        }
        if self.position < self.data.len() {
            let byte = self.data[self.position];
            self.position = self.position + 1;
            Ok(byte)
        } else {
            Err(VdfError::TruncatedInput)
        }
    }

    /// Moves the cursor `count` bytes on, where that many bytes are left.
    pub fn skip(&mut self, count: usize) -> (skipped: Result<(), VdfError>)
        ensures
            final(self).buffer() == old(self).buffer(),
            old(self).cursor() <= final(self).cursor() <= final(self).buffer().len(),
            match skipped {
                Ok(_) => {
                    &&& old(self).cursor() + count <= old(self).buffer().len()
                    &&& final(self).cursor() == old(self).cursor() + count
                },
                Err(error) => {
                    &&& error == VdfError::TruncatedInput
                    &&& old(self).cursor() + count > old(self).buffer().len()
                    &&& final(self).cursor() == old(self).cursor()
                },
            },
    {
        proof {
            use_type_invariant(&*self);
        }
        if count <= self.data.len() - self.position {
            self.position = self.position + count;
            Ok(())
        } else {
            Err(VdfError::TruncatedInput)
        }
    }

    /// Reads an unsigned 32-bit number, little endian.
    pub fn read_u32(&mut self) -> (read: Result<u32, VdfError>)
        ensures
            final(self).buffer() == old(self).buffer(),
            old(self).cursor() <= final(self).cursor() <= final(self).buffer().len(),
            match read {
                Ok(number) => parse_u32(old(self).buffer(), old(self).cursor()) == Ok::<
                    (u32, int),
                    VdfError,
                >((number, final(self).cursor())),
                Err(error) => {
                    &&& parse_u32(old(self).buffer(), old(self).cursor()) == Err::<
                        (u32, int),
                        VdfError,
                    >(error)
                    &&& final(self).cursor() == old(self).cursor()
                },
            },
    {
        proof {
            use_type_invariant(&*self);
        }
        if self.data.len() - self.position < 4 {
            return Err(VdfError::TruncatedInput);
        }
        let at: usize = self.position;
        let number = u32_from_le_bytes(
            self.data[at],
            self.data[at + 1],
            self.data[at + 2],
            self.data[at + 3],
        );
        assert(self.data@.subrange(at as int, at + 4) =~= seq![
            self.data@[at as int],
            self.data@[at + 1],
            self.data@[at + 2],
            self.data@[at + 3],
        ]);
        self.position = at + 4;
        Ok(number)
    }

    /// Reads a signed 32-bit number, little endian.
    pub fn read_i32(&mut self) -> (read: Result<i32, VdfError>)
        ensures
            final(self).buffer() == old(self).buffer(),
            old(self).cursor() <= final(self).cursor() <= final(self).buffer().len(),
            match read {
                Ok(number) => parse_i32(old(self).buffer(), old(self).cursor()) == Ok::<
                    (i32, int),
                    VdfError,
                >((number, final(self).cursor())),
                Err(error) => {
                    &&& parse_i32(old(self).buffer(), old(self).cursor()) == Err::<
                        (i32, int),
                        VdfError,
                    >(error)
                    &&& final(self).cursor() == old(self).cursor()
                },
            },
    {
        match self.read_u32() {
            Ok(bits) => Ok(i32_from_bits(bits)),
            Err(error) => Err(error),
        }
    }

    /// Reads an unsigned 64-bit number, little endian.
    pub fn read_u64(&mut self) -> (read: Result<u64, VdfError>)
        ensures
            final(self).buffer() == old(self).buffer(),
            old(self).cursor() <= final(self).cursor() <= final(self).buffer().len(),
            match read {
                Ok(number) => parse_u64(old(self).buffer(), old(self).cursor()) == Ok::<
                    (u64, int),
                    VdfError,
                >((number, final(self).cursor())),
                Err(error) => {
                    &&& parse_u64(old(self).buffer(), old(self).cursor()) == Err::<
                        (u64, int),
                        VdfError,
                    >(error)
                    &&& final(self).cursor() == old(self).cursor()
                },
            },
    {
        proof {
            use_type_invariant(&*self);
        }
        if self.data.len() - self.position < 8 {
            return Err(VdfError::TruncatedInput);
        }
        let ghost bytes = self.data@;
        let ghost at = self.position as int;
        let low = match self.read_u32() {
            Ok(low) => low,
            Err(error) => {
                return Err(error);
            },
        };
        let high = match self.read_u32() {
            Ok(high) => high,
            Err(error) => {
                return Err(error);
            },
        };
        assert(bytes.subrange(at, at + 8).subrange(0, 4) =~= bytes.subrange(at, at + 4));
        assert(bytes.subrange(at, at + 8).subrange(4, 8) =~= bytes.subrange(at + 4, at + 8));
        Ok(low as u64 + 4294967296 * (high as u64))
    }

    /// Reads text: the bytes up to the next zero byte, as UTF-8, and moves
    /// past that zero byte.
    pub fn read_string(&mut self) -> (read: Result<String, VdfError>)
        ensures
            final(self).buffer() == old(self).buffer(),
            old(self).cursor() <= final(self).cursor() <= final(self).buffer().len(),
            match read {
                Ok(text) => parse_text(old(self).buffer(), old(self).cursor()) == Ok::<
                    (Seq<char>, int),
                    VdfError,
                >((text@, final(self).cursor())),
                Err(error) => {
                    &&& parse_text(old(self).buffer(), old(self).cursor()) == Err::<
                        (Seq<char>, int),
                        VdfError,
                    >(error)
                    &&& final(self).cursor() == old(self).cursor()
                },
            },
    {
        proof {
            use_type_invariant(&*self);
        }
        let start: usize = self.position;
        let mut end: usize = start;
        while end < self.data.len() && self.data[end] != 0
            invariant
                start <= end <= self.data@.len(),
                first_zero(self.data@, start as int) == first_zero(self.data@, end as int),
            decreases self.data@.len() - end,
        {
            end += 1;
        }
        if end >= self.data.len() {
            return Err(VdfError::TruncatedInput);
        }
        let bytes = slice_to_vec(slice_subrange(self.data, start, end));
        match text_from_utf8(bytes) {
            Some(text) => {
                self.position = end + 1;
                Ok(text)
            },
            None => Err(VdfError::MalformedText),
        }
    }

    /// Reads a blob: its length as an unsigned 32-bit number, then that many
    /// bytes.
    pub fn read_blob(&mut self) -> (read: Result<Vec<u8>, VdfError>)
        ensures
            final(self).buffer() == old(self).buffer(),
            old(self).cursor() <= final(self).cursor() <= final(self).buffer().len(),
            match read {
                Ok(blob) => parse_blob(old(self).buffer(), old(self).cursor()) == Ok::<
                    (Seq<u8>, int),
                    VdfError,
                >((blob@, final(self).cursor())),
                Err(error) => {
                    &&& parse_blob(old(self).buffer(), old(self).cursor()) == Err::<
                        (Seq<u8>, int),
                        VdfError,
                    >(error)
                    &&& final(self).cursor() == old(self).cursor()
                },
            },
    {
        proof {
            use_type_invariant(&*self);
        }
        let start: usize = self.position;
        let length = match self.read_u32() {
            Ok(length) => length,
            Err(error) => {
                return Err(error);
            },
        };
        proof {
            use_type_invariant(&*self);
        }
        if (self.data.len() - self.position) < length as usize {
            self.position = start;
            return Err(VdfError::TruncatedInput);
        }
        let from: usize = self.position;
        let blob = slice_to_vec(slice_subrange(self.data, from, from + length as usize));
        self.position = from + length as usize;
        Ok(blob)
    }
}

} // verus!
