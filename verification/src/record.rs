use vstd::prelude::*;

use crate::{DnsError, IpAddress, RECORD_TYPE_A, RECORD_TYPE_NS};
use crate::bytes::{be16, be32};
use crate::cursor::Cursor;
use crate::name::{decode_name_bytes, dot_join, spec_decode_labels};

verus! {

/// The interpreted payload of a resource record: an address for an A
/// record, a domain name for an NS record.
#[derive(Debug, PartialEq, Eq)]
pub enum DNSRecordData {
    Address(IpAddress),
    Name(Vec<u8>),
}

/// One resource record: a name, fixed fields, and a payload interpreted by
/// the type field.  A record of any other type keeps no payload.
#[derive(Debug, PartialEq, Eq)]
pub struct DNSRecord {
    pub name: Vec<u8>,
    pub type_: u16,
    pub class: u16,
    pub ttl: u32,
    pub data: Option<DNSRecordData>,
}

/// The mathematical shape of a parsed record's payload.
pub enum RecordDataModel {
    Address(u8, u8, u8, u8),
    Name(Seq<u8>),
    Other,
}

/// The mathematical shape of a parsed record.
pub struct RecordModel {
    pub name: Seq<u8>,
    pub rtype: u16,
    pub class: u16,
    pub ttl: u32,
    pub data: RecordDataModel,
}

/// The record read at `pos`, or the error parsing it raises: a truncated
/// buffer is malformed; an address record whose declared payload is shorter
/// than four bytes, or a nameserver record whose payload is not a name, has
/// an unexpected shape.  An address record's declared payload length is
/// consumed in full (its first four bytes form the address); a nameserver
/// record's payload length is ignored, the name bounding itself; any other
/// type's payload is skipped whole.
pub open spec fn spec_decode_record(buf: Seq<u8>, pos: int) -> Result<(RecordModel, int), DnsError> {
    match spec_decode_labels(buf, pos, pos) {
        None => Err(DnsError::MalformedMessage),
        Some((labels, p1)) => {
            if p1 + 10 > buf.len() {
                Err(DnsError::MalformedMessage)
            } else {
                let rtype = be16(buf[p1], buf[p1 + 1]);
                let class = be16(buf[p1 + 2], buf[p1 + 3]);
                let ttl = be32(buf[p1 + 4], buf[p1 + 5], buf[p1 + 6], buf[p1 + 7]);
                let dlen = be16(buf[p1 + 8], buf[p1 + 9]);
                let p2 = p1 + 10;
                if rtype == RECORD_TYPE_A {
                    if p2 + dlen > buf.len() {
                        Err(DnsError::MalformedMessage)
                    } else if dlen < 4 {
                        Err(DnsError::UnexpectedRecordShape)
                    } else {
                        Ok(
                            (
                                RecordModel {
                                    name: dot_join(labels),
                                    rtype,
                                    class,
                                    ttl,
                                    data: RecordDataModel::Address(
                                        buf[p2],
                                        buf[p2 + 1],
                                        buf[p2 + 2],
                                        buf[p2 + 3],
                                    ),
                                },
                                p2 + dlen,
                            ),
                        )
                    }
                } else if rtype == RECORD_TYPE_NS {
                    match spec_decode_labels(buf, p2, p2) {
                        Some((ns_labels, p3)) => Ok(
                            (
                                RecordModel {
                                    name: dot_join(labels),
                                    rtype,
                                    class,
                                    ttl,
                                    data: RecordDataModel::Name(dot_join(ns_labels)),
                                },
                                p3,
                            ),
                        ),
                        None => Err(DnsError::UnexpectedRecordShape),
                    }
                } else {
                    if p2 + dlen > buf.len() {
                        Err(DnsError::MalformedMessage)
                    } else {
                        Ok(
                            (
                                RecordModel {
                                    name: dot_join(labels),
                                    rtype,
                                    class,
                                    ttl,
                                    data: RecordDataModel::Other,
                                },
                                p2 + dlen,
                            ),
                        )
                    }
                }
            }
        },
    }
}

/// The parsed record carries exactly the modelled fields and payload.
pub open spec fn record_matches(r: DNSRecord, m: RecordModel) -> bool {
    &&& r.name@ == m.name
    &&& r.type_ == m.rtype
    &&& r.class == m.class
    &&& r.ttl == m.ttl
    &&& match (r.data, m.data) {
        (Some(DNSRecordData::Address(ip)), RecordDataModel::Address(a, b, c, d)) => ip
            == (IpAddress { o0: a, o1: b, o2: c, o3: d }),
        (Some(DNSRecordData::Name(n)), RecordDataModel::Name(nm)) => n@ == nm,
        (None, RecordDataModel::Other) => true,
        _ => false,
    }
}

impl DNSRecord {
    /// Parse a resource record at the cursor: a possibly compressed name,
    /// the type, class, time-to-live and payload length words, then the
    /// payload as the type directs.
    pub fn from_cursor(cursor: &mut Cursor) -> (r: Result<DNSRecord, DnsError>)
        ensures
            final(cursor).buffer == old(cursor).buffer,
            ({
                let buf = old(cursor).buffer@;
                let p = old(cursor).position as int;
                match spec_decode_record(buf, p) {
                    Ok((m, end)) => {
                        &&& r matches Ok(rec) && record_matches(rec, m)
                        &&& final(cursor).position == end
                    },
                    Err(e) => r == Err::<DNSRecord, DnsError>(e),
                }
            }),
    {
        let name = match decode_name_bytes(cursor) {
            Ok(v) => v,
            Err(e) => { return Err(e); },
        };
        let type_ = match cursor.read_u16() {
            Ok(x) => x,
            Err(e) => { return Err(e); },
        };
        let class = match cursor.read_u16() {
            Ok(x) => x,
            Err(e) => { return Err(e); },
        };
        let ttl = match cursor.read_u32() {
            Ok(x) => x,
            Err(e) => { return Err(e); },
        };
        let data_length = match cursor.read_u16() {
            Ok(x) => x,
            Err(e) => { return Err(e); },
        };

        if type_ == RECORD_TYPE_A {
            let data_bytes = match cursor.read_bytes(data_length as usize) {
                Ok(v) => v,
                Err(e) => { return Err(e); },
            };
            if data_bytes.len() < 4 {
                return Err(DnsError::UnexpectedRecordShape);
            }
            let ip = IpAddress::new(data_bytes[0], data_bytes[1], data_bytes[2], data_bytes[3]);
            Ok(DNSRecord { name, type_, class, ttl, data: Some(DNSRecordData::Address(ip)) })
        } else if type_ == RECORD_TYPE_NS {
            let ns_name = match decode_name_bytes(cursor) {
                Ok(v) => v,
                Err(_) => { return Err(DnsError::UnexpectedRecordShape); },
            };
            Ok(DNSRecord { name, type_, class, ttl, data: Some(DNSRecordData::Name(ns_name)) })
        } else {
            let _skipped = match cursor.read_bytes(data_length as usize) {
                Ok(v) => v,
                Err(e) => { return Err(e); },
            };
            Ok(DNSRecord { name, type_, class, ttl, data: None })
        }
    }
}

} // verus!
