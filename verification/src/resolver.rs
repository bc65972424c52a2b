use vstd::prelude::*;

use crate::{CLASS_IN, DnsError, IpAddress, RECORD_TYPE_A, RECORD_TYPE_NS};
use crate::bytes::u16_be;
use crate::cache::{Cache, CacheEntry};
use crate::header::{DNSHeader, spec_header_bytes};
use crate::name::{encode_dns_name, split_dots, wire_encode};
use crate::packet::DNSPacket;
use crate::question::DNSQuestion;
use crate::record::{DNSRecord, DNSRecordData};

verus! {

/// How deep nested nameserver resolutions may stack before the resolver
/// gives up rather than follow a delegation chain without end.
pub const MAX_DELEGATION_DEPTH: usize = 32;

/// The well-known root server every resolution starts from.
pub open spec fn spec_root_server() -> IpAddress {
    IpAddress { o0: 198, o1: 41, o2: 0, o3: 4 }
}

/// The well-known root server every resolution starts from.
pub fn root_server() -> (r: IpAddress)
    ensures
        r == spec_root_server(),
{
    IpAddress::new(198, 41, 0, 4)
}

/// Index of the first record of type `t`, or -1 if there is none.
pub open spec fn first_index_of_type(recs: Seq<DNSRecord>, t: u16) -> int
    decreases recs.len(),
{
    if recs.len() == 0 {
        -1
    } else if recs[0].type_ == t {
        0
    } else if first_index_of_type(recs.drop_first(), t) < 0 {
        -1
    } else {
        1 + first_index_of_type(recs.drop_first(), t)
    }
}

/// A scan that stopped at `k` pins `first_index_of_type` down exactly.
pub proof fn lemma_first_index_at(recs: Seq<DNSRecord>, t: u16, k: int)
    requires
        0 <= k <= recs.len(),
        forall|j: int| 0 <= j < k ==> recs[j].type_ != t,
        k == recs.len() || recs[k].type_ == t,
    ensures
        k == recs.len() ==> first_index_of_type(recs, t) == -1,
        k < recs.len() ==> first_index_of_type(recs, t) == k,
    decreases recs.len(),
{
    if recs.len() == 0 {
    } else if recs[0].type_ == t {
        assert(k == 0);
    } else {
        let tail = recs.drop_first();
        assert(forall|j: int| 0 <= j < k - 1 ==> tail[j].type_ != t);
        lemma_first_index_at(tail, t, k - 1);
    }
}

/// The first address-typed record of the answer section, if any.
pub fn get_answer(packet: &DNSPacket) -> (r: Option<&DNSRecord>)
    ensures
        ({
            let i = first_index_of_type(packet.answers@, RECORD_TYPE_A);
            match r {
                Some(rec) => i >= 0 && *rec == packet.answers@[i],
                None => i == -1,
            }
        }),
{
    let mut i: usize = 0;
    while i < packet.answers.len()
        invariant
            i <= packet.answers@.len(),
            forall|j: int| 0 <= j < i ==> packet.answers@[j].type_ != RECORD_TYPE_A,
        decreases packet.answers@.len() - i,
    {
        if packet.answers[i].type_ == RECORD_TYPE_A {
            proof {
                lemma_first_index_at(packet.answers@, RECORD_TYPE_A, i as int);
            }
            return Some(&packet.answers[i]);
        }
        i = i + 1;
    }
    proof {
        lemma_first_index_at(packet.answers@, RECORD_TYPE_A, packet.answers@.len() as int);
    }
    None
}

/// The payload of the first nameserver-typed record of the authority
/// section, if there is such a record and it carries a payload.
pub fn get_nameserver(packet: &DNSPacket) -> (r: Option<&DNSRecordData>)
    ensures
        ({
            let i = first_index_of_type(packet.authorities@, RECORD_TYPE_NS);
            if i >= 0 {
                match packet.authorities@[i].data {
                    Some(d) => r matches Some(rd) && *rd == d,
                    None => r is None,
                }
            } else {
                r is None
            }
        }),
{
    let mut i: usize = 0;
    while i < packet.authorities.len()
        invariant
            i <= packet.authorities@.len(),
            forall|j: int| 0 <= j < i ==> packet.authorities@[j].type_ != RECORD_TYPE_NS,
        decreases packet.authorities@.len() - i,
    {
        if packet.authorities[i].type_ == RECORD_TYPE_NS {
            proof {
                lemma_first_index_at(packet.authorities@, RECORD_TYPE_NS, i as int);
            }
            return match &packet.authorities[i].data {
                Some(d) => Some(d),
                None => None,
            };
        }
        i = i + 1;
    }
    proof {
        lemma_first_index_at(packet.authorities@, RECORD_TYPE_NS, packet.authorities@.len() as int);
    }
    None
}

/// The payload of the first address-typed record of the additional section,
/// if there is such a record and it carries a payload.
pub fn get_nameserver_ip(packet: &DNSPacket) -> (r: Option<&DNSRecordData>)
    ensures
        ({
            let i = first_index_of_type(packet.additionals@, RECORD_TYPE_A);
            if i >= 0 {
                match packet.additionals@[i].data {
                    Some(d) => r matches Some(rd) && *rd == d,
                    None => r is None,
                }
            } else {
                r is None
            }
        }),
{
    let mut i: usize = 0;
    while i < packet.additionals.len()
        invariant
            i <= packet.additionals@.len(),
            forall|j: int| 0 <= j < i ==> packet.additionals@[j].type_ != RECORD_TYPE_A,
        decreases packet.additionals@.len() - i,
    {
        if packet.additionals[i].type_ == RECORD_TYPE_A {
            proof {
                lemma_first_index_at(packet.additionals@, RECORD_TYPE_A, i as int);
            }
            return match &packet.additionals[i].data {
                Some(d) => Some(d),
                None => None,
            };
        }
        i = i + 1;
    }
    proof {
        lemma_first_index_at(packet.additionals@, RECORD_TYPE_A, packet.additionals@.len() as int);
    }
    None
}

/// The bytes of a query for `name`: a header with the given id, the
/// recursion-desired bit as asked, counts 1/0/0/0, then the one question
/// with the encoded name, the record type and the Internet class.
pub open spec fn spec_query_bytes(name: Seq<u8>, record_type: u16, request_recursion: bool, id: u16) -> Seq<u8> {
    spec_header_bytes(
        DNSHeader {
            id,
            flags: if request_recursion {
                256u16
            } else {
                0u16
            },
            question_count: 1,
            answer_count: 0,
            authority_count: 0,
            additional_count: 0,
        },
    ) + wire_encode(split_dots(name)) + u16_be(record_type) + u16_be(CLASS_IN)
}

/// Build the query bytes with a caller-chosen transaction id.
pub fn build_query_with_id(
    domain_name: &Vec<u8>,
    record_type: u16,
    request_recursion: bool,
    id: u16,
) -> (r: Vec<u8>)
    ensures
        r@ == spec_query_bytes(domain_name@, record_type, request_recursion, id),
{
    let flags: u16 = if request_recursion {
        256
    } else {
        0
    };
    let header = DNSHeader {
        id,
        flags,
        question_count: 1,
        answer_count: 0,
        authority_count: 0,
        additional_count: 0,
    };
    let question = DNSQuestion {
        name: encode_dns_name(domain_name),
        type_: record_type,
        class: CLASS_IN,
    };
    let mut query = header.to_bytes();
    let mut question_bytes = question.to_bytes();
    query.append(&mut question_bytes);
    proof {
        assert(query@ =~= spec_query_bytes(domain_name@, record_type, request_recursion, id));
    }
    query
}

/// Relies on rand::random_range: a uniform sample within the given range.
/// The range is non-empty, so the call returns and its result lies in it.
#[verifier::external_body]
fn random_query_id() -> (r: u16)
    ensures
        1 <= r < 65535,
{
    rand::random_range(1u16..65535u16)
}

/// Build the query bytes with a random transaction id, as sent on the wire.
pub fn build_query(domain_name: &Vec<u8>, record_type: u16, request_recursion: bool) -> (r: Vec<
    u8,
>)
    ensures
        exists|id: u16|
            1 <= id < 65535 && r@ == #[trigger] spec_query_bytes(
                domain_name@,
                record_type,
                request_recursion,
                id,
            ),
{
    let id = random_query_id();
    let r = build_query_with_id(domain_name, record_type, request_recursion, id);
    proof {
        assert(1 <= id < 65535 && r@ == spec_query_bytes(
            domain_name@,
            record_type,
            request_recursion,
            id,
        ));
    }
    r
}

/// A fresh vector holding the same bytes.
pub fn clone_bytes(v: &Vec<u8>) -> (r: Vec<u8>)
    ensures
        r@ == v@,
{
    let mut out: Vec<u8> = Vec::new();
    let mut i: usize = 0;
    while i < v.len()
        invariant
            i <= v@.len(),
            out@ == v@.subrange(0, i as int),
        decreases v@.len() - i,
    {
        out.push(v[i]);
        i = i + 1;
        assert(out@ =~= v@.subrange(0, i as int));
    }
    proof {
        assert(out@ =~= v@);
    }
    out
}

/// One pending resolution: the domain and record type being resolved and
/// the nameserver the next query goes to.
#[derive(Debug)]
pub struct Frame {
    pub domain: Vec<u8>,
    pub record_type: u16,
    pub nameserver: IpAddress,
}

/// The resolver's whole state between network round trips: a stack of
/// pending resolutions.  The top frame is the one being worked on; a frame
/// below it waits for the nameserver address the frames above it resolve.
#[derive(Debug)]
pub struct ResolveState {
    pub frames: Vec<Frame>,
}

/// What the caller must do next: send the query and hand back the parsed
/// response, return the resolved address, or report the failure.
#[derive(Debug)]
pub enum ResolveAction {
    SendQuery(IpAddress, Vec<u8>, u16),
    Done(IpAddress),
    Failed(DnsError),
}

/// The frame resolves `domain` with `record_type` at nameserver `ns`.
pub open spec fn frame_matches(f: Frame, domain: Seq<u8>, record_type: u16, ns: IpAddress) -> bool {
    &&& f.domain@ == domain
    &&& f.record_type == record_type
    &&& f.nameserver == ns
}

/// `frames2` is `frames1` with only the top frame's nameserver changed.
pub open spec fn top_redirected(frames1: Seq<Frame>, frames2: Seq<Frame>, ip: IpAddress) -> bool {
    &&& frames1.len() >= 1
    &&& frames2.len() == frames1.len()
    &&& frames2.subrange(0, frames1.len() - 1) == frames1.subrange(0, frames1.len() - 1)
    &&& frames2.last().domain@ == frames1.last().domain@
    &&& frames2.last().record_type == frames1.last().record_type
    &&& frames2.last().nameserver == ip
}

/// The action queries frame `f`'s nameserver for its domain and type.
pub open spec fn is_query_for(r: ResolveAction, f: Frame) -> bool {
    r matches ResolveAction::SendQuery(ns, d, t) && ns == f.nameserver && d@ == f.domain@ && t
        == f.record_type
}

/// Begin resolving `domain` with `record_type`.  A fresh, unexpired cache
/// entry answers at once with no network walk; otherwise the state starts
/// with one frame aimed at the root server and the first query goes there.
pub fn start_resolution(domain: Vec<u8>, record_type: u16, cache: &mut Cache, now: u64) -> (r: (
    ResolveState,
    ResolveAction,
))
    requires
        old(cache).wf(),
    ensures
        final(cache).wf(),
        ({
            let k = (domain@, record_type);
            let m = old(cache)@;
            if m.contains_key(k) && now < m[k].expires_at {
                &&& r.1 == ResolveAction::Done(m[k].ip)
                &&& r.0.frames@.len() == 0
                &&& final(cache)@ == m
            } else {
                &&& final(cache)@ == m.remove(k)
                &&& r.0.frames@.len() == 1
                &&& frame_matches(r.0.frames@[0], domain@, record_type, spec_root_server())
                &&& is_query_for(r.1, r.0.frames@[0])
            }
        }),
{
    match cache.get(&domain, record_type, now) {
        Some(entry) => (ResolveState { frames: Vec::new() }, ResolveAction::Done(entry.ip)),
        None => {
            let root = root_server();
            let domain_copy = clone_bytes(&domain);
            let mut frames: Vec<Frame> = Vec::new();
            frames.push(Frame { domain, record_type, nameserver: root });
            (ResolveState { frames }, ResolveAction::SendQuery(root, domain_copy, record_type))
        },
    }
}

/// Interpret one parsed response for the top frame and advance the state,
/// exactly as the iterative walk directs.  In order of preference: the
/// first address-typed answer ends the top resolution (caching its address
/// under the frame's key and either finishing or redirecting the frame
/// below); else the first address-typed additional record redirects the
/// top frame to that glue address; else the first nameserver-typed
/// authority record delegates: a cached address for the nameserver's own
/// domain redirects at once, and otherwise a new frame for that domain is
/// stacked, aimed at the root.  A response offering none of these fails
/// with `NoUsableAnswer`.  A record whose payload disagrees with its type
/// fails with `UnexpectedRecordShape`; a delegation that would stack past
/// `MAX_DELEGATION_DEPTH` frames fails with `DepthExceeded`.
pub fn step_resolution(
    state: &mut ResolveState,
    cache: &mut Cache,
    packet: &DNSPacket,
    now: u64,
) -> (r: ResolveAction)
    requires
        old(state).frames@.len() >= 1,
        old(cache).wf(),
        now + 0xFFFF_FFFFu64 <= u64::MAX,
    ensures
        final(cache).wf(),
        ({
            let fr0 = old(state).frames@;
            let top = fr0.last();
            let m = old(cache)@;
            let a = first_index_of_type(packet.answers@, RECORD_TYPE_A);
            let g = first_index_of_type(packet.additionals@, RECORD_TYPE_A);
            let n = first_index_of_type(packet.authorities@, RECORD_TYPE_NS);
            if a >= 0 {
                match packet.answers@[a].data {
                    Some(DNSRecordData::Address(ip)) => {
                        &&& final(cache)@ == m.insert(
                            (top.domain@, top.record_type),
                            CacheEntry {
                                ip,
                                expires_at: (now + packet.answers@[a].ttl as u64) as u64,
                            },
                        )
                        &&& final(state).frames@.len() == fr0.len() - 1
                        &&& if fr0.len() == 1 {
                            r == ResolveAction::Done(ip)
                        } else {
                            &&& top_redirected(fr0.drop_last(), final(state).frames@, ip)
                            &&& is_query_for(r, final(state).frames@.last())
                        }
                    },
                    _ => {
                        &&& r == ResolveAction::Failed(DnsError::UnexpectedRecordShape)
                        &&& final(state).frames@ == fr0
                        &&& final(cache)@ == m
                    },
                }
            } else if g >= 0 && packet.additionals@[g].data is Some {
                match packet.additionals@[g].data {
                    Some(DNSRecordData::Address(ip)) => {
                        &&& final(cache)@ == m
                        &&& top_redirected(fr0, final(state).frames@, ip)
                        &&& is_query_for(r, final(state).frames@.last())
                    },
                    _ => {
                        &&& r == ResolveAction::Failed(DnsError::UnexpectedRecordShape)
                        &&& final(state).frames@ == fr0
                        &&& final(cache)@ == m
                    },
                }
            } else if n >= 0 && packet.authorities@[n].data is Some {
                match packet.authorities@[n].data {
                    Some(DNSRecordData::Name(ns_name)) => {
                        let k = (ns_name@, RECORD_TYPE_A);
                        if m.contains_key(k) && now < m[k].expires_at {
                            &&& final(cache)@ == m
                            &&& top_redirected(fr0, final(state).frames@, m[k].ip)
                            &&& is_query_for(r, final(state).frames@.last())
                        } else {
                            &&& final(cache)@ == m.remove(k)
                            &&& if fr0.len() >= MAX_DELEGATION_DEPTH {
                                &&& r == ResolveAction::Failed(DnsError::DepthExceeded)
                                &&& final(state).frames@ == fr0
                            } else {
                                &&& final(state).frames@.len() == fr0.len() + 1
                                &&& final(state).frames@.subrange(0, fr0.len() as int) == fr0
                                &&& frame_matches(
                                    final(state).frames@.last(),
                                    ns_name@,
                                    RECORD_TYPE_A,
                                    spec_root_server(),
                                )
                                &&& is_query_for(r, final(state).frames@.last())
                            }
                        }
                    },
                    _ => {
                        &&& r == ResolveAction::Failed(DnsError::UnexpectedRecordShape)
                        &&& final(state).frames@ == fr0
                        &&& final(cache)@ == m
                    },
                }
            } else {
                &&& r == ResolveAction::Failed(DnsError::NoUsableAnswer)
                &&& final(state).frames@ == fr0
                &&& final(cache)@ == m
            }
        }),
{
    let ghost fr0 = state.frames@;
    if let Some(record) = get_answer(packet) {
        match &record.data {
            Some(data) => match data {
                DNSRecordData::Address(ip_ref) => {
                    let ip = *ip_ref;
                    let ttl = record.ttl;
                    let frame = match state.frames.pop() {
                        Some(f) => f,
                        None => {
                            proof {
                                assert(false);
                            }
                            return ResolveAction::Failed(DnsError::NoUsableAnswer);
                        },
                    };
                    cache.insert(frame.domain, frame.record_type, ip, ttl, now);
                    if state.frames.len() == 0 {
                        ResolveAction::Done(ip)
                    } else {
                        let idx = state.frames.len() - 1;
                        let top_ref = vstd::std_specs::vec::vec_index_mut(&mut state.frames, idx);
                        top_ref.nameserver = ip;
                        let domain_copy = clone_bytes(&state.frames[idx].domain);
                        let next_type = state.frames[idx].record_type;
                        proof {
                            assert(state.frames@.subrange(0, fr0.len() - 2) =~= fr0.drop_last()
                                .subrange(0, fr0.len() - 2));
                            assert(fr0.drop_last().last() == fr0[fr0.len() - 2]);
                        }
                        ResolveAction::SendQuery(ip, domain_copy, next_type)
                    }
                },
                DNSRecordData::Name(_) => ResolveAction::Failed(DnsError::UnexpectedRecordShape),
            },
            None => ResolveAction::Failed(DnsError::UnexpectedRecordShape),
        }
    } else if let Some(glue) = get_nameserver_ip(packet) {
        match glue {
            DNSRecordData::Address(ip_ref) => {
                let ip = *ip_ref;
                let idx = state.frames.len() - 1;
                let top_ref = vstd::std_specs::vec::vec_index_mut(&mut state.frames, idx);
                top_ref.nameserver = ip;
                let domain_copy = clone_bytes(&state.frames[idx].domain);
                let next_type = state.frames[idx].record_type;
                proof {
                    assert(state.frames@.subrange(0, fr0.len() - 1) =~= fr0.subrange(
                        0,
                        fr0.len() - 1,
                    ));
                }
                ResolveAction::SendQuery(ip, domain_copy, next_type)
            },
            DNSRecordData::Name(_) => ResolveAction::Failed(DnsError::UnexpectedRecordShape),
        }
    } else if let Some(delegation) = get_nameserver(packet) {
        match delegation {
            DNSRecordData::Name(ns_name_ref) => {
                let ns_domain = clone_bytes(ns_name_ref);
                match cache.get(&ns_domain, RECORD_TYPE_A, now) {
                    Some(entry) => {
                        let ip = entry.ip;
                        let idx = state.frames.len() - 1;
                        let top_ref = vstd::std_specs::vec::vec_index_mut(
                            &mut state.frames,
                            idx,
                        );
                        top_ref.nameserver = ip;
                        let domain_copy = clone_bytes(&state.frames[idx].domain);
                        let next_type = state.frames[idx].record_type;
                        proof {
                            assert(state.frames@.subrange(0, fr0.len() - 1) =~= fr0.subrange(
                                0,
                                fr0.len() - 1,
                            ));
                        }
                        ResolveAction::SendQuery(ip, domain_copy, next_type)
                    },
                    None => {
                        if state.frames.len() >= MAX_DELEGATION_DEPTH {
                            ResolveAction::Failed(DnsError::DepthExceeded)
                        } else {
                            let root = root_server();
                            let ns_domain_copy = clone_bytes(&ns_domain);
                            state.frames.push(
                                Frame {
                                    domain: ns_domain,
                                    record_type: RECORD_TYPE_A,
                                    nameserver: root,
                                },
                            );
                            proof {
                                assert(state.frames@.subrange(0, fr0.len() as int) =~= fr0);
                            }
                            ResolveAction::SendQuery(root, ns_domain_copy, RECORD_TYPE_A)
                        }
                    },
                }
            },
            DNSRecordData::Address(_) => ResolveAction::Failed(DnsError::UnexpectedRecordShape),
        }
    } else {
        ResolveAction::Failed(DnsError::NoUsableAnswer)
    }
}

} // verus!
