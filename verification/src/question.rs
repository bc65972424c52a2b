use vstd::prelude::*;

use crate::DnsError;
use crate::bytes::{be16, u16_be};
use crate::cursor::Cursor;
use crate::name::{decode_name_bytes, dot_join, spec_decode_labels};

verus! {

/// One entry of the question section: a name (wire-encoded on the query
/// side, a decoded dotted name on the parsed side), a record type and a
/// class.
#[derive(Debug, PartialEq, Eq)]
pub struct DNSQuestion {
    pub name: Vec<u8>,
    pub type_: u16,
    pub class: u16,
}

/// The question read at `pos`: its decoded name, type and class, with the
/// position just past it; or nothing if the buffer is malformed there.
pub open spec fn spec_decode_question(buf: Seq<u8>, pos: int) -> Option<
    ((Seq<u8>, u16, u16), int),
> {
    match spec_decode_labels(buf, pos, pos) {
        Some((labels, p1)) => if p1 + 4 <= buf.len() {
            Some(
                (
                    (dot_join(labels), be16(buf[p1], buf[p1 + 1]), be16(buf[p1 + 2], buf[p1 + 3])),
                    p1 + 4,
                ),
            )
        } else {
            None
        },
        None => None,
    }
}

/// The parsed question carries exactly the modelled name, type and class.
pub open spec fn question_matches(q: DNSQuestion, m: (Seq<u8>, u16, u16)) -> bool {
    &&& q.name@ == m.0
    &&& q.type_ == m.1
    &&& q.class == m.2
}

impl DNSQuestion {
    /// Serialize the question: the name bytes as stored, then the type and
    /// class, each as two big-endian bytes.
    pub fn to_bytes(&self) -> (r: Vec<u8>)
        ensures
            r@ == self.name@ + u16_be(self.type_) + u16_be(self.class),
    {
        let mut buffer: Vec<u8> = Vec::new();

        let mut i: usize = 0;
        while i < self.name.len()
            invariant
                i <= self.name@.len(),
                buffer@ == self.name@.subrange(0, i as int),
            decreases self.name@.len() - i,
        {
            buffer.push(self.name[i]);
            i = i + 1;
            assert(buffer@ =~= self.name@.subrange(0, i as int));
        }
        assert(buffer@ =~= self.name@);

        buffer.push((self.type_ / 256) as u8);
        buffer.push((self.type_ % 256) as u8);
        buffer.push((self.class / 256) as u8);
        buffer.push((self.class % 256) as u8);

        assert(buffer@ =~= self.name@ + u16_be(self.type_) + u16_be(self.class));
        buffer
    }

    /// Parse a question at the cursor: a possibly compressed name, then the
    /// type and class words.
    pub fn from_cursor(cursor: &mut Cursor) -> (r: Result<DNSQuestion, DnsError>)
        ensures
            final(cursor).buffer == old(cursor).buffer,
            ({
                let buf = old(cursor).buffer@;
                let p = old(cursor).position as int;
                match spec_decode_question(buf, p) {
                    Some((m, end)) => {
                        &&& r matches Ok(q) && question_matches(q, m)
                        &&& final(cursor).position == end
                    },
                    None => r == Err::<DNSQuestion, DnsError>(DnsError::MalformedMessage),
                }
            }),
    {
        let name = match decode_name_bytes(cursor) {
            Ok(v) => v,
            Err(e) => { return Err(e); },
        };
        let type_ = match cursor.read_u16() {
            Ok(x) => x,
            Err(e) => { return Err(e); },
        };
        let class = match cursor.read_u16() {
            Ok(x) => x,
            Err(e) => { return Err(e); },
        };
        Ok(DNSQuestion { name, type_, class })
    }
}

} // verus!
