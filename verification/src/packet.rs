use vstd::prelude::*;

use crate::DnsError;
use crate::cursor::Cursor;
use crate::header::{DNSHeader, spec_decode_header};
use crate::question::{DNSQuestion, question_matches, spec_decode_question};
use crate::record::{DNSRecord, RecordModel, record_matches, spec_decode_record};

verus! {

/// `count` questions read one after another from `pos`.
pub open spec fn spec_decode_questions(buf: Seq<u8>, pos: int, count: int) -> Result<
    (Seq<(Seq<u8>, u16, u16)>, int),
    DnsError,
>
    decreases count,
{
    if count <= 0 {
        Ok((Seq::<(Seq<u8>, u16, u16)>::empty(), pos))
    } else {
        match spec_decode_question(buf, pos) {
            None => Err(DnsError::MalformedMessage),
            Some((m, p1)) => match spec_decode_questions(buf, p1, count - 1) {
                Ok((ms, end)) => Ok((seq![m] + ms, end)),
                Err(e) => Err(e),
            },
        }
    }
}

/// `count` resource records read one after another from `pos`.
pub open spec fn spec_decode_records(buf: Seq<u8>, pos: int, count: int) -> Result<
    (Seq<RecordModel>, int),
    DnsError,
>
    decreases count,
{
    if count <= 0 {
        Ok((Seq::<RecordModel>::empty(), pos))
    } else {
        match spec_decode_record(buf, pos) {
            Err(e) => Err(e),
            Ok((m, p1)) => match spec_decode_records(buf, p1, count - 1) {
                Ok((ms, end)) => Ok((seq![m] + ms, end)),
                Err(e) => Err(e),
            },
        }
    }
}

/// The mathematical shape of a whole parsed message.
pub struct PacketModel {
    pub header: DNSHeader,
    pub questions: Seq<(Seq<u8>, u16, u16)>,
    pub answers: Seq<RecordModel>,
    pub authorities: Seq<RecordModel>,
    pub additionals: Seq<RecordModel>,
}

/// The whole message read from `pos`: the header, then exactly the counted
/// questions, answers, authority and additional records, in that order.
/// Bytes past the last counted record are ignored.
pub open spec fn spec_decode_packet(buf: Seq<u8>, pos: int) -> Result<PacketModel, DnsError> {
    match spec_decode_header(buf, pos) {
        None => Err(DnsError::MalformedMessage),
        Some((h, p1)) => match spec_decode_questions(buf, p1, h.question_count as int) {
            Err(e) => Err(e),
            Ok((qs, p2)) => match spec_decode_records(buf, p2, h.answer_count as int) {
                Err(e) => Err(e),
                Ok((ans, p3)) => match spec_decode_records(buf, p3, h.authority_count as int) {
                    Err(e) => Err(e),
                    Ok((auth, p4)) => match spec_decode_records(
                        buf,
                        p4,
                        h.additional_count as int,
                    ) {
                        Err(e) => Err(e),
                        Ok((add, _p5)) => Ok(
                            PacketModel {
                                header: h,
                                questions: qs,
                                answers: ans,
                                authorities: auth,
                                additionals: add,
                            },
                        ),
                    },
                },
            },
        },
    }
}

/// Parsed questions carry exactly the modelled ones, element by element.
pub open spec fn questions_match(qs: Seq<DNSQuestion>, ms: Seq<(Seq<u8>, u16, u16)>) -> bool {
    &&& qs.len() == ms.len()
    &&& forall|i: int| 0 <= i < qs.len() ==> question_matches(#[trigger] qs[i], ms[i])
}

/// Parsed records carry exactly the modelled ones, element by element.
pub open spec fn records_match(rs: Seq<DNSRecord>, ms: Seq<RecordModel>) -> bool {
    &&& rs.len() == ms.len()
    &&& forall|i: int| 0 <= i < rs.len() ==> record_matches(#[trigger] rs[i], ms[i])
}

/// One parsed message: a header and its four record sections, populated
/// strictly by the header's counts.
#[derive(Debug, PartialEq, Eq)]
pub struct DNSPacket {
    pub header: DNSHeader,
    pub questions: Vec<DNSQuestion>,
    pub answers: Vec<DNSRecord>,
    pub authorities: Vec<DNSRecord>,
    pub additionals: Vec<DNSRecord>,
}

/// Parse `count` questions in sequence.
fn parse_questions(cursor: &mut Cursor, count: u16) -> (r: Result<Vec<DNSQuestion>, DnsError>)
    ensures
        final(cursor).buffer == old(cursor).buffer,
        ({
            let buf = old(cursor).buffer@;
            let p = old(cursor).position as int;
            match spec_decode_questions(buf, p, count as int) {
                Ok((ms, end)) => {
                    &&& r matches Ok(v) && questions_match(v@, ms)
                    &&& final(cursor).position == end
                },
                Err(e) => r == Err::<Vec<DNSQuestion>, DnsError>(e),
            }
        }),
    decreases count,
{
    if count == 0 {
        Ok(Vec::new())
    } else {
        let q = match DNSQuestion::from_cursor(cursor) {
            Ok(q) => q,
            Err(e) => { return Err(e); },
        };
        let rest = match parse_questions(cursor, count - 1) {
            Ok(v) => v,
            Err(e) => { return Err(e); },
        };
        let mut v: Vec<DNSQuestion> = Vec::new();
        let ghost q_snap = q;
        v.push(q);
        let mut rest_mut = rest;
        let ghost rest_snap = rest_mut@;
        v.append(&mut rest_mut);
        proof {
            assert(v@ =~= seq![q_snap] + rest_snap);
        }
        Ok(v)
    }
}

/// Parse `count` resource records in sequence.
fn parse_records(cursor: &mut Cursor, count: u16) -> (r: Result<Vec<DNSRecord>, DnsError>)
    ensures
        final(cursor).buffer == old(cursor).buffer,
        ({
            let buf = old(cursor).buffer@;
            let p = old(cursor).position as int;
            match spec_decode_records(buf, p, count as int) {
                Ok((ms, end)) => {
                    &&& r matches Ok(v) && records_match(v@, ms)
                    &&& final(cursor).position == end
                },
                Err(e) => r == Err::<Vec<DNSRecord>, DnsError>(e),
            }
        }),
    decreases count,
{
    if count == 0 {
        Ok(Vec::new())
    } else {
        let rec = match DNSRecord::from_cursor(cursor) {
            Ok(rec) => rec,
            Err(e) => { return Err(e); },
        };
        let rest = match parse_records(cursor, count - 1) {
            Ok(v) => v,
            Err(e) => { return Err(e); },
        };
        let mut v: Vec<DNSRecord> = Vec::new();
        let ghost rec_snap = rec;
        v.push(rec);
        let mut rest_mut = rest;
        let ghost rest_snap = rest_mut@;
        v.append(&mut rest_mut);
        proof {
            assert(v@ =~= seq![rec_snap] + rest_snap);
        }
        Ok(v)
    }
}

impl DNSPacket {
    /// Parse a whole message at the cursor: the header, then each section
    /// exactly as the header's counts direct.
    pub fn from_cursor(cursor: &mut Cursor) -> (r: Result<DNSPacket, DnsError>)
        ensures
            final(cursor).buffer == old(cursor).buffer,
            ({
                let buf = old(cursor).buffer@;
                let p = old(cursor).position as int;
                match spec_decode_packet(buf, p) {
                    Ok(m) => r matches Ok(packet) && {
                        &&& packet.header == m.header
                        &&& questions_match(packet.questions@, m.questions)
                        &&& records_match(packet.answers@, m.answers)
                        &&& records_match(packet.authorities@, m.authorities)
                        &&& records_match(packet.additionals@, m.additionals)
                    },
                    Err(e) => r == Err::<DNSPacket, DnsError>(e),
                }
            }),
    {
        let header = match DNSHeader::from_cursor(cursor) {
            Ok(h) => h,
            Err(e) => { return Err(e); },
        };
        let questions = match parse_questions(cursor, header.question_count) {
            Ok(v) => v,
            Err(e) => { return Err(e); },
        };
        let answers = match parse_records(cursor, header.answer_count) {
            Ok(v) => v,
            Err(e) => { return Err(e); },
        };
        let authorities = match parse_records(cursor, header.authority_count) {
            Ok(v) => v,
            Err(e) => { return Err(e); },
        };
        let additionals = match parse_records(cursor, header.additional_count) {
            Ok(v) => v,
            Err(e) => { return Err(e); },
        };
        Ok(DNSPacket { header, questions, answers, authorities, additionals })
    }
}

} // verus!
