use dns_resolver::cache::Cache;
use dns_resolver::header::DNSHeader;
use dns_resolver::packet::DNSPacket;
use dns_resolver::record::{DNSRecord, DNSRecordData};
use dns_resolver::resolver::{
    start_resolution, step_resolution, ResolveAction, MAX_DELEGATION_DEPTH,
};
use dns_resolver::{DnsError, IpAddress, RECORD_TYPE_A, RECORD_TYPE_NS};

fn empty_header() -> DNSHeader {
    DNSHeader {
        id: 1,
        flags: 0,
        question_count: 0,
        answer_count: 0,
        authority_count: 0,
        additional_count: 0,
    }
}

fn packet(
    answers: Vec<DNSRecord>,
    authorities: Vec<DNSRecord>,
    additionals: Vec<DNSRecord>,
) -> DNSPacket {
    DNSPacket {
        header: empty_header(),
        questions: Vec::new(),
        answers,
        authorities,
        additionals,
    }
}

fn a_record(name: &[u8], ip: IpAddress, ttl: u32) -> DNSRecord {
    DNSRecord {
        name: name.to_vec(),
        type_: RECORD_TYPE_A,
        class: 1,
        ttl,
        data: Some(DNSRecordData::Address(ip)),
    }
}

fn ns_record(name: &[u8], ns_name: &[u8]) -> DNSRecord {
    DNSRecord {
        name: name.to_vec(),
        type_: RECORD_TYPE_NS,
        class: 1,
        ttl: 3600,
        data: Some(DNSRecordData::Name(ns_name.to_vec())),
    }
}

#[test]
fn cache_hit_until_expiry_then_miss() {
    let mut cache = Cache::new();
    let ip = IpAddress::new(10, 1, 2, 3);
    let domain = b"example.com".to_vec();
    cache.insert(domain.clone(), RECORD_TYPE_A, ip, 60, 100);

    // A hit immediately and up to the last second before expiry.
    assert_eq!(cache.get(&domain, RECORD_TYPE_A, 100).map(|e| e.ip), Some(ip));
    assert_eq!(cache.get(&domain, RECORD_TYPE_A, 159).map(|e| e.ip), Some(ip));
    // A miss once current time reaches insertion time plus the ttl.
    assert!(cache.get(&domain, RECORD_TYPE_A, 160).is_none());
    // The expired entry was evicted: still a miss at an earlier time.
    assert!(cache.get(&domain, RECORD_TYPE_A, 100).is_none());
}

#[test]
fn cache_keys_are_exact() {
    let mut cache = Cache::new();
    let ip = IpAddress::new(10, 1, 2, 3);
    cache.insert(b"example.com".to_vec(), RECORD_TYPE_A, ip, 60, 0);
    // A different case or a different record type is a different key.
    assert!(cache.get(&b"Example.com".to_vec(), RECORD_TYPE_A, 0).is_none());
    assert!(cache.get(&b"example.com".to_vec(), RECORD_TYPE_NS, 0).is_none());
    assert_eq!(
        cache.get(&b"example.com".to_vec(), RECORD_TYPE_A, 0).map(|e| e.ip),
        Some(ip)
    );
}

#[test]
fn cache_second_insert_replaces_first() {
    let mut cache = Cache::new();
    let ip1 = IpAddress::new(10, 0, 0, 1);
    let ip2 = IpAddress::new(10, 0, 0, 2);
    let domain = b"example.com".to_vec();
    cache.insert(domain.clone(), RECORD_TYPE_A, ip1, 1000, 0);
    cache.insert(domain.clone(), RECORD_TYPE_A, ip2, 10, 0);
    // The second insert fully replaced the first: its address wins ...
    assert_eq!(cache.get(&domain, RECORD_TYPE_A, 5).map(|e| e.ip), Some(ip2));
    // ... and the first entry's longer ttl has no effect any more.
    assert!(cache.get(&domain, RECORD_TYPE_A, 50).is_none());
}

#[test]
fn resolution_cache_hit_short_circuits() {
    let mut cache = Cache::new();
    let ip = IpAddress::new(4, 4, 4, 4);
    cache.insert(b"example.com".to_vec(), RECORD_TYPE_A, ip, 60, 0);
    let (state, action) = start_resolution(b"example.com".to_vec(), RECORD_TYPE_A, &mut cache, 10);
    assert_eq!(state.frames.len(), 0);
    match action {
        ResolveAction::Done(got) => assert_eq!(got, ip),
        other => panic!("expected an immediate answer, got {:?}", other),
    }
}

#[test]
fn resolution_starts_at_root() {
    let mut cache = Cache::new();
    let (state, action) = start_resolution(b"example.com".to_vec(), RECORD_TYPE_A, &mut cache, 0);
    assert_eq!(state.frames.len(), 1);
    match action {
        ResolveAction::SendQuery(ns, domain, t) => {
            assert_eq!(ns, IpAddress::new(198, 41, 0, 4));
            assert_eq!(domain, b"example.com".to_vec());
            assert_eq!(t, RECORD_TYPE_A);
        },
        other => panic!("expected a query to the root, got {:?}", other),
    }
}

#[test]
fn referral_with_glue_then_answer() {
    // The root returns only a referral (an NS record plus glue) to server S;
    // S returns a genuine answer.  Resolution returns that address and the
    // cache then holds it under the queried key.
    let mut cache = Cache::new();
    let glue_ip = IpAddress::new(192, 0, 2, 53);
    let answer_ip = IpAddress::new(93, 184, 216, 34);

    let (mut state, action) =
        start_resolution(b"example.com".to_vec(), RECORD_TYPE_A, &mut cache, 1000);
    assert!(matches!(action, ResolveAction::SendQuery(..)));

    let referral = packet(
        Vec::new(),
        vec![ns_record(b"com", b"a.gtld-servers.net")],
        vec![a_record(b"a.gtld-servers.net", glue_ip, 172800)],
    );
    let action = step_resolution(&mut state, &mut cache, &referral, 1000);
    match action {
        ResolveAction::SendQuery(ns, domain, t) => {
            assert_eq!(ns, glue_ip);
            assert_eq!(domain, b"example.com".to_vec());
            assert_eq!(t, RECORD_TYPE_A);
        },
        other => panic!("expected a redirected query, got {:?}", other),
    }

    let answer = packet(vec![a_record(b"example.com", answer_ip, 300)], Vec::new(), Vec::new());
    let action = step_resolution(&mut state, &mut cache, &answer, 1000);
    match action {
        ResolveAction::Done(got) => assert_eq!(got, answer_ip),
        other => panic!("expected the final answer, got {:?}", other),
    }
    assert_eq!(state.frames.len(), 0);
    assert_eq!(
        cache.get(&b"example.com".to_vec(), RECORD_TYPE_A, 1000).map(|e| e.ip),
        Some(answer_ip)
    );
    // The entry expires with the answer record's ttl.
    assert!(cache.get(&b"example.com".to_vec(), RECORD_TYPE_A, 1300).is_none());
}

#[test]
fn delegation_without_glue_uses_shared_cache() {
    // A referral names a nameserver but carries no glue address.  A prior
    // cache entry for the nameserver's own domain is reused directly: no
    // nested walk is started.
    let mut cache = Cache::new();
    let ns_ip = IpAddress::new(192, 0, 2, 7);
    cache.insert(b"ns1.example.net".to_vec(), RECORD_TYPE_A, ns_ip, 3600, 500);

    let (mut state, _action) =
        start_resolution(b"host.example.org".to_vec(), RECORD_TYPE_A, &mut cache, 500);
    let referral = packet(
        Vec::new(),
        vec![ns_record(b"example.org", b"ns1.example.net")],
        Vec::new(),
    );
    let action = step_resolution(&mut state, &mut cache, &referral, 500);
    match action {
        ResolveAction::SendQuery(ns, domain, t) => {
            assert_eq!(ns, ns_ip);
            assert_eq!(domain, b"host.example.org".to_vec());
            assert_eq!(t, RECORD_TYPE_A);
        },
        other => panic!("expected the cached nameserver address, got {:?}", other),
    }
    // No nested resolution was stacked.
    assert_eq!(state.frames.len(), 1);
}

#[test]
fn delegation_without_glue_and_without_cache_nests() {
    // With no cached address for the nameserver, its own domain is resolved
    // first, from the root, sharing the same cache; its answer then both
    // fills the cache and redirects the outer walk.
    let mut cache = Cache::new();
    let ns_ip = IpAddress::new(192, 0, 2, 9);
    let answer_ip = IpAddress::new(203, 0, 113, 80);

    let (mut state, _action) =
        start_resolution(b"host.example.org".to_vec(), RECORD_TYPE_A, &mut cache, 0);
    let referral = packet(
        Vec::new(),
        vec![ns_record(b"example.org", b"ns1.example.net")],
        Vec::new(),
    );
    let action = step_resolution(&mut state, &mut cache, &referral, 0);
    match action {
        ResolveAction::SendQuery(ns, domain, t) => {
            assert_eq!(ns, IpAddress::new(198, 41, 0, 4));
            assert_eq!(domain, b"ns1.example.net".to_vec());
            assert_eq!(t, RECORD_TYPE_A);
        },
        other => panic!("expected a nested query to the root, got {:?}", other),
    }
    assert_eq!(state.frames.len(), 2);

    // The nested resolution finds the nameserver's address.
    let ns_answer = packet(vec![a_record(b"ns1.example.net", ns_ip, 3600)], Vec::new(), Vec::new());
    let action = step_resolution(&mut state, &mut cache, &ns_answer, 0);
    match action {
        ResolveAction::SendQuery(ns, domain, t) => {
            assert_eq!(ns, ns_ip);
            assert_eq!(domain, b"host.example.org".to_vec());
            assert_eq!(t, RECORD_TYPE_A);
        },
        other => panic!("expected the outer walk to resume, got {:?}", other),
    }
    assert_eq!(state.frames.len(), 1);
    // The nested answer went into the shared cache.
    assert_eq!(
        cache.get(&b"ns1.example.net".to_vec(), RECORD_TYPE_A, 0).map(|e| e.ip),
        Some(ns_ip)
    );

    let answer = packet(vec![a_record(b"host.example.org", answer_ip, 60)], Vec::new(), Vec::new());
    match step_resolution(&mut state, &mut cache, &answer, 0) {
        ResolveAction::Done(got) => assert_eq!(got, answer_ip),
        other => panic!("expected the final answer, got {:?}", other),
    }
}

#[test]
fn no_usable_answer_is_fatal() {
    // A response with no matching answer, no address glue and no NS record
    // fails with the no-usable-answer error, not a silent empty result.
    let mut cache = Cache::new();
    let (mut state, _action) =
        start_resolution(b"example.com".to_vec(), RECORD_TYPE_A, &mut cache, 0);
    let empty = packet(Vec::new(), Vec::new(), Vec::new());
    match step_resolution(&mut state, &mut cache, &empty, 0) {
        ResolveAction::Failed(e) => assert_eq!(e, DnsError::NoUsableAnswer),
        other => panic!("expected a failure, got {:?}", other),
    }
}

#[test]
fn answer_with_wrong_payload_shape_fails() {
    // An answer record typed A whose payload is a name, not an address.
    let mut cache = Cache::new();
    let (mut state, _action) =
        start_resolution(b"example.com".to_vec(), RECORD_TYPE_A, &mut cache, 0);
    let bad = packet(
        vec![DNSRecord {
            name: b"example.com".to_vec(),
            type_: RECORD_TYPE_A,
            class: 1,
            ttl: 60,
            data: Some(DNSRecordData::Name(b"oops".to_vec())),
        }],
        Vec::new(),
        Vec::new(),
    );
    match step_resolution(&mut state, &mut cache, &bad, 0) {
        ResolveAction::Failed(e) => assert_eq!(e, DnsError::UnexpectedRecordShape),
        other => panic!("expected a shape failure, got {:?}", other),
    }
}

#[test]
fn endless_delegation_exceeds_depth() {
    // Referral after referral, each naming a fresh nameserver with no glue,
    // stacks nested resolutions until the resolver gives up.
    let mut cache = Cache::new();
    let (mut state, _action) =
        start_resolution(b"host.example".to_vec(), RECORD_TYPE_A, &mut cache, 0);
    let mut failed = None;
    for i in 0..2 * MAX_DELEGATION_DEPTH {
        let ns_name = format!("ns{}.example", i).into_bytes();
        let referral = packet(Vec::new(), vec![ns_record(b"example", &ns_name)], Vec::new());
        match step_resolution(&mut state, &mut cache, &referral, 0) {
            ResolveAction::SendQuery(..) => {},
            ResolveAction::Failed(e) => {
                failed = Some(e);
                break;
            },
            other => panic!("unexpected action {:?}", other),
        }
    }
    assert_eq!(failed, Some(DnsError::DepthExceeded));
}
