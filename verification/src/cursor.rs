use vstd::prelude::*;

use crate::DnsError;
use crate::bytes::{be16, be32};

verus! {

/// A read position over an owned byte buffer.  All message decoding walks the
/// buffer through one of these, so every read is bounds-checked and reports a
/// truncated buffer as a `MalformedMessage` error.
pub struct Cursor {
    pub buffer: Vec<u8>,
    pub position: usize,
}

impl Cursor {
    pub fn new(buffer: Vec<u8>) -> (r: Cursor)
        ensures
            r.buffer == buffer,
            r.position == 0,
    {
        Cursor { buffer, position: 0 }
    }

    /// Read one byte and advance; a read past the end fails and moves nothing.
    pub fn read_u8(&mut self) -> (r: Result<u8, DnsError>)
        ensures
            final(self).buffer == old(self).buffer,
            ({
                let p = old(self).position as int;
                let buf = old(self).buffer@;
                if p + 1 <= buf.len() {
                    &&& r == Ok::<u8, DnsError>(buf[p])
                    &&& final(self).position == p + 1
                } else {
                    &&& r == Err::<u8, DnsError>(DnsError::MalformedMessage)
                    &&& final(self).position == p
                }
            }),
    {
        if self.position < self.buffer.len() {
            let b = self.buffer[self.position];
            self.position = self.position + 1;
            Ok(b)
        } else {
            Err(DnsError::MalformedMessage)
        }
    }

    /// Read a big-endian 16-bit value; a read past the end fails and moves nothing.
    pub fn read_u16(&mut self) -> (r: Result<u16, DnsError>)
        ensures
            final(self).buffer == old(self).buffer,
            ({
                let p = old(self).position as int;
                let buf = old(self).buffer@;
                if p + 2 <= buf.len() {
                    &&& r == Ok::<u16, DnsError>(be16(buf[p], buf[p + 1]))
                    &&& final(self).position == p + 2
                } else {
                    &&& r == Err::<u16, DnsError>(DnsError::MalformedMessage)
                    &&& final(self).position == p
                }
            }),
    {
        if self.position < self.buffer.len() && 2 <= self.buffer.len() - self.position {
            let hi = self.buffer[self.position];
            let lo = self.buffer[self.position + 1];
            self.position = self.position + 2;
            Ok((hi as u16) * 256 + (lo as u16))
        } else {
            Err(DnsError::MalformedMessage)
        }
    }

    /// Read a big-endian 32-bit value; a read past the end fails and moves nothing.
    pub fn read_u32(&mut self) -> (r: Result<u32, DnsError>)
        ensures
            final(self).buffer == old(self).buffer,
            ({
                let p = old(self).position as int;
                let buf = old(self).buffer@;
                if p + 4 <= buf.len() {
                    &&& r == Ok::<u32, DnsError>(be32(buf[p], buf[p + 1], buf[p + 2], buf[p + 3]))
                    &&& final(self).position == p + 4
                } else {
                    &&& r == Err::<u32, DnsError>(DnsError::MalformedMessage)
                    &&& final(self).position == p
                }
            }),
    {
        if self.position < self.buffer.len() && 4 <= self.buffer.len() - self.position {
            let b0 = self.buffer[self.position];
            let b1 = self.buffer[self.position + 1];
            let b2 = self.buffer[self.position + 2];
            let b3 = self.buffer[self.position + 3];
            self.position = self.position + 4;
            Ok((((b0 as u32) * 256 + (b1 as u32)) * 256 + (b2 as u32)) * 256 + (b3 as u32))
        } else {
            Err(DnsError::MalformedMessage)
        }
    }

    /// Read `count` raw bytes; a read past the end fails and moves nothing.
    pub fn read_bytes(&mut self, count: usize) -> (r: Result<Vec<u8>, DnsError>)
        ensures
            final(self).buffer == old(self).buffer,
            ({
                let p = old(self).position as int;
                let buf = old(self).buffer@;
                if p + count <= buf.len() {
                    &&& r matches Ok(v) && v@ == buf.subrange(p, p + count)
                    &&& final(self).position == p + count
                } else {
                    &&& r == Err::<Vec<u8>, DnsError>(DnsError::MalformedMessage)
                    &&& final(self).position == p
                }
            }),
    {
        if self.position <= self.buffer.len() && count <= self.buffer.len() - self.position {
            let mut v: Vec<u8> = Vec::new();
            let mut i: usize = 0;
            while i < count
                invariant
                    i <= count,
                    self.position + count <= self.buffer.len(),
                    v@ == self.buffer@.subrange(
                        self.position as int,
                        self.position + i as int,
                    ),
                decreases count - i,
            {
                v.push(self.buffer[self.position + i]);
                i = i + 1;
                assert(v@ =~= self.buffer@.subrange(
                    self.position as int,
                    self.position + i as int,
                ));
            }
            self.position = self.position + count;
            Ok(v)
        } else {
            Err(DnsError::MalformedMessage)
        }
    }
}

} // verus!
