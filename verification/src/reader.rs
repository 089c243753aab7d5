//! A positioned read over an immutable byte buffer.
//!
//! The `Reader` is the single mutation point during decoding: every decoder
//! advances the same cursor, and each primitive states exactly which bytes it
//! consumed and what it returned.  A failing primitive leaves the reader
//! unchanged and reports the offset at which the failing item began.

use vstd::prelude::*;
use vstd::slice::slice_subrange;
use vstd::slice::slice_to_vec;
use vstd::utf8::decode_utf8;
use vstd::utf8::valid_utf8;

use crate::error::err_at;
use crate::error::ErrorKind;
use crate::error::ParseError;

verus! {

/// The value of the byte `b` of a varint: its low seven bits.
pub open spec fn vq_digit(b: u8) -> int {
    (b % 128) as int
}

/// Whether the byte `b` ends a varint: its continuation (high) bit is clear.
pub open spec fn vq_stops(b: u8) -> bool {
    b < 128
}

/// How many bytes the varint at `pos` occupies: one past the index of the
/// first byte with its continuation bit clear; 0 when no such byte lies
/// within both the buffer and the four-byte limit.
pub open spec fn vq_size(buf: Seq<u8>, pos: int) -> int {
    if pos < buf.len() && vq_stops(buf[pos]) {
        1
    } else if pos + 1 < buf.len() && vq_stops(buf[pos + 1]) {
        2
    } else if pos + 2 < buf.len() && vq_stops(buf[pos + 2]) {
        3
    } else if pos + 3 < buf.len() && vq_stops(buf[pos + 3]) {
        4
    } else {
        0
    }
}

/// Whether a well-formed varint stands at `pos`.
pub open spec fn vq_good(buf: Seq<u8>, pos: int) -> bool {
    0 <= pos && vq_size(buf, pos) >= 1
}

/// The value of the varint at `pos`: base-128, least significant byte first.
pub open spec fn vq_value(buf: Seq<u8>, pos: int) -> int {
    let k = vq_size(buf, pos);
    vq_digit(buf[pos]) + (if k >= 2 {
        vq_digit(buf[pos + 1]) * 0x80
    } else {
        0
    }) + (if k >= 3 {
        vq_digit(buf[pos + 2]) * 0x4000
    } else {
        0
    }) + (if k >= 4 {
        vq_digit(buf[pos + 3]) * 0x200000
    } else {
        0
    })
}

/// Four continuation bytes in a row: the varint would need a fifth byte.
pub open spec fn vq_too_long(buf: Seq<u8>, pos: int) -> bool {
    &&& 0 <= pos
    &&& pos + 4 <= buf.len()
    &&& !vq_stops(buf[pos])
    &&& !vq_stops(buf[pos + 1])
    &&& !vq_stops(buf[pos + 2])
    &&& !vq_stops(buf[pos + 3])
}

/// The unsigned little-endian 16-bit value at `pos`.
pub open spec fn le16(buf: Seq<u8>, pos: int) -> int {
    buf[pos] + 256 * buf[pos + 1]
}

/// The two's-complement little-endian 16-bit value at `pos`.
pub open spec fn le16_signed(buf: Seq<u8>, pos: int) -> int {
    if le16(buf, pos) < 32768 {
        le16(buf, pos)
    } else {
        le16(buf, pos) - 65536
    }
}

/// The unsigned little-endian 32-bit value at `pos`.
pub open spec fn le32(buf: Seq<u8>, pos: int) -> int {
    buf[pos] + 256 * buf[pos + 1] + 65536 * buf[pos + 2] + 16777216 * buf[pos + 3]
}

/// An immutable byte buffer with a mutable position index.
pub struct Reader {
    buffer: Vec<u8>,
    position: usize,
}

impl Reader {
    /// The bytes the reader was created over.
    pub closed spec fn bytes(&self) -> Seq<u8> {
        self.buffer@
    }

    /// The current position.
    pub closed spec fn cur(&self) -> int {
        self.position as int
    }

    pub fn new(buffer: Vec<u8>) -> (r: Reader)
        ensures
            r.bytes() == buffer@,
            r.cur() == 0,
    {
        Reader { buffer, position: 0 }
    }

    /// The byte `k` places past the position, when it lies in the buffer.
    fn peek(&self, k: usize) -> (r: Option<u8>)
        ensures
            self.bytes().len() <= usize::MAX,
            r matches Some(b) ==> self.cur() + k < self.bytes().len() && b == self.bytes()[
                self.cur() + k
            ],
            r is None ==> self.cur() + k >= self.bytes().len(),
    {
        let ghost _l: usize = self.buffer.len();
        if k < self.buffer.len() && self.position < self.buffer.len() - k {
            Some(self.buffer[self.position + k])
        } else {
            None
        }
    }

    /// Read the byte at the position and advance past it.
    pub fn read(&mut self) -> (r: Result<u8, ParseError>)
        ensures
            final(self).bytes() == old(self).bytes(),
            old(self).cur() < old(self).bytes().len() ==> {
                &&& r matches Ok(b) && b == old(self).bytes()[old(self).cur()]
                &&& final(self).cur() == old(self).cur() + 1
            },
            old(self).cur() >= old(self).bytes().len() ==> {
                &&& r matches Err(e) && e == err_at(ErrorKind::Truncated, old(self).cur())
                &&& *final(self) == *old(self)
            },
    {
        match self.peek(0) {
            Some(b) => {
                self.position = self.position + 1;
                Ok(b)
            },
            None => Err(ParseError::at(ErrorKind::Truncated, self.position)),
        }
    }

    /// Read the next `n` bytes and advance past them.
    pub fn read_bytes(&mut self, n: usize) -> (r: Result<Vec<u8>, ParseError>)
        ensures
            final(self).bytes() == old(self).bytes(),
            old(self).cur() + n <= old(self).bytes().len() ==> {
                &&& r matches Ok(v) && v@ == old(self).bytes().subrange(
                    old(self).cur(),
                    old(self).cur() + n,
                )
                &&& final(self).cur() == old(self).cur() + n
            },
            old(self).cur() + n > old(self).bytes().len() ==> {
                &&& r matches Err(e) && e == err_at(ErrorKind::Truncated, old(self).cur())
                &&& *final(self) == *old(self)
            },
    {
        if self.position <= self.buffer.len() && n <= self.buffer.len() - self.position {
            let s = slice_subrange(self.buffer.as_slice(), self.position, self.position + n);
            let v = slice_to_vec(s);
            self.position = self.position + n;
            Ok(v)
        } else {
            Err(ParseError::at(ErrorKind::Truncated, self.position))
        }
    }

    /// Read one byte and test it against 1.
    pub fn read_bool(&mut self) -> (r: Result<bool, ParseError>)
        ensures
            final(self).bytes() == old(self).bytes(),
            old(self).cur() < old(self).bytes().len() ==> {
                &&& r matches Ok(b) && b == (old(self).bytes()[old(self).cur()] == 1)
                &&& final(self).cur() == old(self).cur() + 1
            },
            old(self).cur() >= old(self).bytes().len() ==> {
                &&& r matches Err(e) && e == err_at(ErrorKind::Truncated, old(self).cur())
                &&& *final(self) == *old(self)
            },
    {
        match self.read() {
            Ok(b) => Ok(b == 1),
            Err(e) => Err(e),
        }
    }

    /// Read the next `n` bytes as a UTF-8 string and advance past them.
    pub fn read_string(&mut self, n: usize) -> (r: Result<String, ParseError>)
        ensures
            final(self).bytes() == old(self).bytes(),
            ({
                let sub = old(self).bytes().subrange(old(self).cur(), old(self).cur() + n);
                &&& (old(self).cur() + n <= old(self).bytes().len() && valid_utf8(sub)) ==> {
                    &&& r matches Ok(s) && s@ == decode_utf8(sub)
                    &&& final(self).cur() == old(self).cur() + n
                }
                &&& (old(self).cur() + n <= old(self).bytes().len() && !valid_utf8(sub)) ==> {
                    &&& r matches Err(e) && e == err_at(ErrorKind::InvalidUtf8, old(self).cur())
                    &&& *final(self) == *old(self)
                }
                &&& old(self).cur() + n > old(self).bytes().len() ==> {
                    &&& r matches Err(e) && e == err_at(ErrorKind::Truncated, old(self).cur())
                    &&& *final(self) == *old(self)
                }
            }),
    {
        if self.position <= self.buffer.len() && n <= self.buffer.len() - self.position {
            let s = slice_subrange(self.buffer.as_slice(), self.position, self.position + n);
            match utf8_to_string(s) {
                Some(out) => {
                    self.position = self.position + n;
                    Ok(out)
                },
                None => Err(ParseError::at(ErrorKind::InvalidUtf8, self.position)),
            }
        } else {
            Err(ParseError::at(ErrorKind::Truncated, self.position))
        }
    }

    /// Read an unsigned little-endian 16-bit value.
    pub fn read_u16_le(&mut self) -> (r: Result<u16, ParseError>)
        ensures
            final(self).bytes() == old(self).bytes(),
            old(self).cur() + 2 <= old(self).bytes().len() ==> {
                &&& r matches Ok(v) && v == le16(old(self).bytes(), old(self).cur())
                &&& final(self).cur() == old(self).cur() + 2
            },
            old(self).cur() + 2 > old(self).bytes().len() ==> {
                &&& r matches Err(e) && e == err_at(ErrorKind::Truncated, old(self).cur())
                &&& *final(self) == *old(self)
            },
    {
        match (self.peek(0), self.peek(1)) {
            (Some(b0), Some(b1)) => {
                self.position = self.position + 2;
                Ok(b0 as u16 + 256 * (b1 as u16))
            },
            _ => Err(ParseError::at(ErrorKind::Truncated, self.position)),
        }
    }

    /// Read a two's-complement little-endian 16-bit value.
    pub fn read_i16_le(&mut self) -> (r: Result<i16, ParseError>)
        ensures
            final(self).bytes() == old(self).bytes(),
            old(self).cur() + 2 <= old(self).bytes().len() ==> {
                &&& r matches Ok(v) && v == le16_signed(old(self).bytes(), old(self).cur())
                &&& final(self).cur() == old(self).cur() + 2
            },
            old(self).cur() + 2 > old(self).bytes().len() ==> {
                &&& r matches Err(e) && e == err_at(ErrorKind::Truncated, old(self).cur())
                &&& *final(self) == *old(self)
            },
    {
        match self.read_u16_le() {
            Ok(v) => {
                if v < 32768 {
                    Ok(v as i16)
                } else {
                    Ok((v as i32 - 65536) as i16)
                }
            },
            Err(e) => Err(e),
        }
    }

    /// Read an unsigned little-endian 32-bit value.
    pub fn read_u32_le(&mut self) -> (r: Result<u32, ParseError>)
        ensures
            final(self).bytes() == old(self).bytes(),
            old(self).cur() + 4 <= old(self).bytes().len() ==> {
                &&& r matches Ok(v) && v == le32(old(self).bytes(), old(self).cur())
                &&& final(self).cur() == old(self).cur() + 4
            },
            old(self).cur() + 4 > old(self).bytes().len() ==> {
                &&& r matches Err(e) && e == err_at(ErrorKind::Truncated, old(self).cur())
                &&& *final(self) == *old(self)
            },
    {
        match (self.peek(0), self.peek(1), self.peek(2), self.peek(3)) {
            (Some(b0), Some(b1), Some(b2), Some(b3)) => {
                self.position = self.position + 4;
                Ok(
                    b0 as u32 + 256 * (b1 as u32) + 65536 * (b2 as u32) + 16777216 * (b3 as u32),
                )
            },
            _ => Err(ParseError::at(ErrorKind::Truncated, self.position)),
        }
    }

    /// Read a base-128 little-endian varint of at most four bytes.
    pub fn read_variable_quantity(&mut self) -> (r: Result<usize, ParseError>)
        ensures
            final(self).bytes() == old(self).bytes(),
            vq_good(old(self).bytes(), old(self).cur()) ==> {
                &&& r matches Ok(v) && v == vq_value(old(self).bytes(), old(self).cur())
                &&& final(self).cur() == old(self).cur() + vq_size(
                    old(self).bytes(),
                    old(self).cur(),
                )
            },
            vq_too_long(old(self).bytes(), old(self).cur()) ==> {
                &&& r matches Err(e) && e == err_at(ErrorKind::VarintTooLong, old(self).cur())
                &&& *final(self) == *old(self)
            },
            (!vq_good(old(self).bytes(), old(self).cur()) && !vq_too_long(
                old(self).bytes(),
                old(self).cur(),
            )) ==> {
                &&& r matches Err(e) && e == err_at(ErrorKind::Truncated, old(self).cur())
                &&& *final(self) == *old(self)
            },
    {
        let start = self.position;
        let b0 = match self.peek(0) {
            Some(b) => b,
            None => { return Err(ParseError::at(ErrorKind::Truncated, start)) },
        };
        if b0 < 128 {
            self.position = start + 1;
            return Ok(b0 as usize);
        }
        let b1 = match self.peek(1) {
            Some(b) => b,
            None => { return Err(ParseError::at(ErrorKind::Truncated, start)) },
        };
        if b1 < 128 {
            self.position = start + 2;
            return Ok((b0 % 128) as usize + 0x80 * (b1 as usize));
        }
        let b2 = match self.peek(2) {
            Some(b) => b,
            None => { return Err(ParseError::at(ErrorKind::Truncated, start)) },
        };
        if b2 < 128 {
            self.position = start + 3;
            return Ok((b0 % 128) as usize + 0x80 * ((b1 % 128) as usize) + 0x4000 * (b2 as usize));
        }
        let b3 = match self.peek(3) {
            Some(b) => b,
            None => { return Err(ParseError::at(ErrorKind::Truncated, start)) },
        };
        if b3 < 128 {
            self.position = start + 4;
            return Ok(
                (b0 % 128) as usize + 0x80 * ((b1 % 128) as usize) + 0x4000 * ((b2 % 128) as usize)
                    + 0x200000 * (b3 as usize),
            );
        }
        Err(ParseError::at(ErrorKind::VarintTooLong, start))
    }

    /// The current position.
    pub fn pos(&self) -> (r: usize)
        ensures
            r == self.cur(),
    {
        self.position
    }

    /// Move the position to `n`.
    pub fn set_pos(&mut self, n: usize)
        ensures
            final(self).bytes() == old(self).bytes(),
            final(self).cur() == n,
    {
        self.position = n;
    }

    /// Move the position back by one byte.
    pub fn step_back(&mut self)
        requires
            old(self).cur() >= 1,
        ensures
            final(self).bytes() == old(self).bytes(),
            final(self).cur() == old(self).cur() - 1,
    {
        self.position = self.position - 1;
    }

    /// The length of the underlying buffer.
    pub fn buffer_len(&self) -> (r: usize)
        ensures
            r == self.bytes().len(),
    {
        self.buffer.len()
    }

    /// The bytes from the position to the end of the buffer.
    pub fn rest(&self) -> (r: Vec<u8>)
        requires
            self.cur() <= self.bytes().len(),
        ensures
            r@ == self.bytes().subrange(self.cur(), self.bytes().len() as int),
    {
        let s = slice_subrange(self.buffer.as_slice(), self.position, self.buffer.len());
        slice_to_vec(s)
    }
}

/// Relies on str::from_utf8: it succeeds exactly on valid UTF-8 and yields
/// the decoding of the bytes, which depends on the bytes alone.
#[verifier::external_body]
fn utf8_to_string(bytes: &[u8]) -> (r: Option<String>)
    ensures
        r matches Some(s) ==> valid_utf8(bytes@) && s@ == decode_utf8(bytes@),
        r is None ==> !valid_utf8(bytes@),
{
    match std::str::from_utf8(bytes) {
        Ok(s) => Some(s.to_string()),
        Err(_) => None,
    }
}

} // verus!
