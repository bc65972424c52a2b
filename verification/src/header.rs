use vstd::prelude::*;

use crate::DnsError;
use crate::bytes::{be16, u16_be};
use crate::cursor::Cursor;

verus! {

/// The fixed 12-byte message header: a transaction id, the flag word, and the
/// four section counts that drive parsing of the rest of the message.
#[derive(Clone, Copy, Debug, PartialEq, Eq, Structural)]
pub struct DNSHeader {
    pub id: u16,
    pub flags: u16,
    pub question_count: u16,
    pub answer_count: u16,
    pub authority_count: u16,
    pub additional_count: u16,
}

/// The twelve bytes of a header on the wire: six big-endian 16-bit fields.
pub open spec fn spec_header_bytes(h: DNSHeader) -> Seq<u8> {
    u16_be(h.id) + u16_be(h.flags) + u16_be(h.question_count) + u16_be(h.answer_count)
        + u16_be(h.authority_count) + u16_be(h.additional_count)
}

/// The header read from twelve bytes at `pos`, or nothing if the buffer is
/// too short.
pub open spec fn spec_decode_header(buf: Seq<u8>, pos: int) -> Option<(DNSHeader, int)> {
    if 0 <= pos && pos + 12 <= buf.len() {
        Some(
            (
                DNSHeader {
                    id: be16(buf[pos], buf[pos + 1]),
                    flags: be16(buf[pos + 2], buf[pos + 3]),
                    question_count: be16(buf[pos + 4], buf[pos + 5]),
                    answer_count: be16(buf[pos + 6], buf[pos + 7]),
                    authority_count: be16(buf[pos + 8], buf[pos + 9]),
                    additional_count: be16(buf[pos + 10], buf[pos + 11]),
                },
                pos + 12,
            ),
        )
    } else {
        None
    }
}

impl DNSHeader {
    /// Serialize the header as its twelve wire bytes.
    pub fn to_bytes(&self) -> (r: Vec<u8>)
        ensures
            r@ == spec_header_bytes(*self),
            r@.len() == 12,
    {
        let mut buffer: Vec<u8> = Vec::new();

        buffer.push((self.id / 256) as u8);
        buffer.push((self.id % 256) as u8);
        buffer.push((self.flags / 256) as u8);
        buffer.push((self.flags % 256) as u8);
        buffer.push((self.question_count / 256) as u8);
        buffer.push((self.question_count % 256) as u8);
        buffer.push((self.answer_count / 256) as u8);
        buffer.push((self.answer_count % 256) as u8);
        buffer.push((self.authority_count / 256) as u8);
        buffer.push((self.authority_count % 256) as u8);
        buffer.push((self.additional_count / 256) as u8);
        buffer.push((self.additional_count % 256) as u8);

        assert(buffer@ =~= spec_header_bytes(*self));
        buffer
    }

    /// Parse a header from the next twelve bytes of the cursor.
    pub fn from_cursor(cursor: &mut Cursor) -> (r: Result<DNSHeader, DnsError>)
        ensures
            final(cursor).buffer == old(cursor).buffer,
            ({
                let buf = old(cursor).buffer@;
                let p = old(cursor).position as int;
                match spec_decode_header(buf, p) {
                    Some((h, end)) => {
                        &&& r == Ok::<DNSHeader, DnsError>(h)
                        &&& final(cursor).position == end
                    },
                    None => r == Err::<DNSHeader, DnsError>(DnsError::MalformedMessage),
                }
            }),
    {
        let id = match cursor.read_u16() {
            Ok(x) => x,
            Err(e) => { return Err(e); },
        };
        let flags = match cursor.read_u16() {
            Ok(x) => x,
            Err(e) => { return Err(e); },
        };
        let question_count = match cursor.read_u16() {
            Ok(x) => x,
            Err(e) => { return Err(e); },
        };
        let answer_count = match cursor.read_u16() {
            Ok(x) => x,
            Err(e) => { return Err(e); },
        };
        let authority_count = match cursor.read_u16() {
            Ok(x) => x,
            Err(e) => { return Err(e); },
        };
        let additional_count = match cursor.read_u16() {
            Ok(x) => x,
            Err(e) => { return Err(e); },
        };
        Ok(DNSHeader { id, flags, question_count, answer_count, authority_count, additional_count })
    }
}

} // verus!
