use vstd::prelude::*;

use crate::IpAddress;

verus! {

/// A cached answer: the address and the absolute second at which it stops
/// being valid.
#[derive(Clone, Copy, Debug, PartialEq, Eq, Structural)]
pub struct CacheEntry {
    pub ip: IpAddress,
    pub expires_at: u64,
}

/// The key a cache row is stored under: the domain name bytes, compared
/// exactly with no normalization, and the record type.
pub open spec fn entry_key(e: (Vec<u8>, u16, CacheEntry)) -> (Seq<u8>, u16) {
    (e.0@, e.1)
}

/// The map a row sequence denotes; an earlier row wins over a later one
/// with the same key, though a well-formed cache never holds two such rows.
pub open spec fn seq_to_map(s: Seq<(Vec<u8>, u16, CacheEntry)>) -> Map<
    (Seq<u8>, u16),
    CacheEntry,
>
    decreases s.len(),
{
    if s.len() == 0 {
        Map::<(Seq<u8>, u16), CacheEntry>::empty()
    } else {
        seq_to_map(s.drop_first()).insert(entry_key(s.first()), s.first().2)
    }
}

/// A key is in the map exactly when some row carries it.
proof fn lemma_seq_to_map_contains(s: Seq<(Vec<u8>, u16, CacheEntry)>, k: (Seq<u8>, u16))
    ensures
        seq_to_map(s).contains_key(k) <==> exists|i: int|
            0 <= i < s.len() && entry_key(#[trigger] s[i]) == k,
    decreases s.len(),
{
    if s.len() == 0 {
    } else {
        lemma_seq_to_map_contains(s.drop_first(), k);
        if entry_key(s.first()) == k {
            assert(entry_key(s[0]) == k);
        } else {
            if seq_to_map(s).contains_key(k) {
                let i = choose|i: int|
                    0 <= i < s.drop_first().len() && entry_key(#[trigger] s.drop_first()[i]) == k;
                assert(entry_key(s[i + 1]) == k);
            }
            if exists|i: int| 0 <= i < s.len() && entry_key(#[trigger] s[i]) == k {
                let i = choose|i: int| 0 <= i < s.len() && entry_key(#[trigger] s[i]) == k;
                assert(i != 0);
                assert(entry_key(s.drop_first()[i - 1]) == k);
            }
        }
    }
}

/// The map's value for a key is the first row that carries it.
proof fn lemma_seq_to_map_first(s: Seq<(Vec<u8>, u16, CacheEntry)>, i: int)
    requires
        0 <= i < s.len(),
        forall|j: int| 0 <= j < i ==> entry_key(#[trigger] s[j]) != entry_key(s[i]),
    ensures
        seq_to_map(s).contains_key(entry_key(s[i])),
        seq_to_map(s)[entry_key(s[i])] == s[i].2,
    decreases s.len(),
{
    if i == 0 {
    } else {
        assert(entry_key(s[0]) != entry_key(s[i]));
        assert(forall|j: int|
            0 <= j < i - 1 ==> entry_key(#[trigger] s.drop_first()[j]) != entry_key(
                s.drop_first()[i - 1],
            ));
        lemma_seq_to_map_first(s.drop_first(), i - 1);
    }
}

/// Removing the only row with a key removes the key from the map.
proof fn lemma_seq_to_map_remove(s: Seq<(Vec<u8>, u16, CacheEntry)>, i: int)
    requires
        0 <= i < s.len(),
        forall|a: int, b: int|
            0 <= a < b < s.len() ==> entry_key(#[trigger] s[a]) != entry_key(#[trigger] s[b]),
    ensures
        seq_to_map(s.remove(i)) == seq_to_map(s).remove(entry_key(s[i])),
    decreases s.len(),
{
    let k = entry_key(s[i]);
    if i == 0 {
        assert(s.remove(0) =~= s.drop_first());
        lemma_seq_to_map_contains(s.drop_first(), k);
        assert(forall|j: int|
            0 <= j < s.drop_first().len() ==> entry_key(#[trigger] s.drop_first()[j]) != k);
        assert(!seq_to_map(s.drop_first()).contains_key(k));
        assert(seq_to_map(s.drop_first()).insert(k, s[0].2).remove(k) =~= seq_to_map(
            s.drop_first(),
        ));
    } else {
        assert(s.remove(i).drop_first() =~= s.drop_first().remove(i - 1));
        assert(s.remove(i).first() == s.first());
        assert(forall|a: int, b: int|
            0 <= a < b < s.drop_first().len() ==> entry_key(#[trigger] s.drop_first()[a])
                != entry_key(#[trigger] s.drop_first()[b]));
        lemma_seq_to_map_remove(s.drop_first(), i - 1);
        assert(entry_key(s.drop_first()[i - 1]) == k);
        assert(entry_key(s[0]) != k);
        assert(seq_to_map(s.drop_first()).remove(k).insert(entry_key(s[0]), s[0].2) =~= seq_to_map(
            s.drop_first(),
        ).insert(entry_key(s[0]), s[0].2).remove(k));
    }
}

/// Overwriting the first row with a key, keeping its key, updates the map's
/// value for that key.
proof fn lemma_seq_to_map_update(
    s: Seq<(Vec<u8>, u16, CacheEntry)>,
    i: int,
    x: (Vec<u8>, u16, CacheEntry),
)
    requires
        0 <= i < s.len(),
        entry_key(x) == entry_key(s[i]),
        forall|j: int| 0 <= j < i ==> entry_key(#[trigger] s[j]) != entry_key(s[i]),
    ensures
        seq_to_map(s.update(i, x)) == seq_to_map(s).insert(entry_key(x), x.2),
    decreases s.len(),
{
    let k = entry_key(x);
    if i == 0 {
        assert(s.update(0, x).drop_first() =~= s.drop_first());
        assert(s.update(0, x).first() == x);
        assert(seq_to_map(s.drop_first()).insert(k, x.2) =~= seq_to_map(s.drop_first()).insert(
            k,
            s[0].2,
        ).insert(k, x.2));
    } else {
        assert(s.update(i, x).drop_first() =~= s.drop_first().update(i - 1, x));
        assert(s.update(i, x).first() == s.first());
        assert(forall|j: int|
            0 <= j < i - 1 ==> entry_key(#[trigger] s.drop_first()[j]) != entry_key(
                s.drop_first()[i - 1],
            ));
        lemma_seq_to_map_update(s.drop_first(), i - 1, x);
        assert(entry_key(s[0]) != k);
        assert(seq_to_map(s.drop_first()).insert(k, x.2).insert(entry_key(s[0]), s[0].2)
            =~= seq_to_map(s.drop_first()).insert(entry_key(s[0]), s[0].2).insert(k, x.2));
    }
}

/// Appending a row with a fresh key inserts it into the map.
proof fn lemma_seq_to_map_push(s: Seq<(Vec<u8>, u16, CacheEntry)>, x: (Vec<u8>, u16, CacheEntry))
    requires
        forall|j: int| 0 <= j < s.len() ==> entry_key(#[trigger] s[j]) != entry_key(x),
    ensures
        seq_to_map(s.push(x)) == seq_to_map(s).insert(entry_key(x), x.2),
    decreases s.len(),
{
    let k = entry_key(x);
    if s.len() == 0 {
        assert(s.push(x).drop_first() =~= s);
        assert(s.push(x).first() == x);
    } else {
        assert(s.push(x).drop_first() =~= s.drop_first().push(x));
        assert(s.push(x).first() == s.first());
        assert(forall|j: int|
            0 <= j < s.drop_first().len() ==> entry_key(#[trigger] s.drop_first()[j]) != k);
        lemma_seq_to_map_push(s.drop_first(), x);
        assert(entry_key(s[0]) != k);
        assert(seq_to_map(s.drop_first()).insert(k, x.2).insert(entry_key(s[0]), s[0].2)
            =~= seq_to_map(s.drop_first()).insert(entry_key(s[0]), s[0].2).insert(k, x.2));
    }
}

/// The answer cache: a map from a (domain name, record type) key to a cached
/// address with an absolute expiry.  Lookups are keyed exactly; an expired
/// row is removed lazily by the read that finds it.
pub struct Cache {
    entries: Vec<(Vec<u8>, u16, CacheEntry)>,
}

/// Two byte vectors hold the same bytes.
fn bytes_eq(a: &Vec<u8>, b: &Vec<u8>) -> (r: bool)
    ensures
        r <==> a@ == b@,
{
    if a.len() != b.len() {
        return false;
    }
    let mut i: usize = 0;
    while i < a.len()
        invariant
            a@.len() == b@.len(),
            i <= a@.len(),
            forall|j: int| 0 <= j < i ==> a@[j] == b@[j],
        decreases a@.len() - i,
    {
        if a[i] != b[i] {
            return false;
        }
        i = i + 1;
    }
    proof {
        assert(a@ =~= b@);
    }
    true
}

impl Cache {
    /// The mapping this cache denotes.
    pub closed spec fn view(&self) -> Map<(Seq<u8>, u16), CacheEntry> {
        seq_to_map(self.entries@)
    }

    /// No two rows share a key.  Constructors establish this and every
    /// method preserves it.
    pub closed spec fn wf(&self) -> bool {
        forall|a: int, b: int|
            0 <= a < b < self.entries@.len() ==> entry_key(#[trigger] self.entries@[a])
                != entry_key(#[trigger] self.entries@[b])
    }

    /// An empty cache.
    pub fn new() -> (r: Cache)
        ensures
            r@ == Map::<(Seq<u8>, u16), CacheEntry>::empty(),
            r.wf(),
    {
        Cache { entries: Vec::new() }
    }

    /// Index of the first (and, well-formed, only) row with the key.
    fn find_index(&self, domain: &Vec<u8>, record_type: u16) -> (r: Option<usize>)
        ensures
            match r {
                Some(i) => {
                    &&& i < self.entries@.len()
                    &&& entry_key(self.entries@[i as int]) == (domain@, record_type)
                    &&& forall|j: int|
                        0 <= j < i ==> entry_key(#[trigger] self.entries@[j]) != (
                        domain@,
                        record_type,
                        )
                },
                None => forall|j: int|
                    0 <= j < self.entries@.len() ==> entry_key(#[trigger] self.entries@[j]) != (
                    domain@,
                    record_type,
                    ),
            },
    {
        let mut i: usize = 0;
        while i < self.entries.len()
            invariant
                i <= self.entries@.len(),
                forall|j: int|
                    0 <= j < i ==> entry_key(#[trigger] self.entries@[j]) != (
                    domain@,
                    record_type,
                    ),
            decreases self.entries@.len() - i,
        {
            let row = &self.entries[i];
            if row.1 == record_type && bytes_eq(&row.0, domain) {
                return Some(i);
            }
            i = i + 1;
        }
        None
    }

    /// Look the key up at time `now`.  A present, unexpired entry is a hit
    /// and leaves the cache unchanged; a present but expired entry is
    /// removed and reported a miss; an absent key is a miss.
    pub fn get(&mut self, domain: &Vec<u8>, record_type: u16, now: u64) -> (r: Option<CacheEntry>)
        requires
            old(self).wf(),
        ensures
            final(self).wf(),
            ({
                let k = (domain@, record_type);
                let m = old(self)@;
                if m.contains_key(k) && now < m[k].expires_at {
                    &&& r == Some::<CacheEntry>(m[k])
                    &&& final(self)@ == m
                } else {
                    &&& r == None::<CacheEntry>
                    &&& final(self)@ == m.remove(k)
                }
            }),
    {
        let ghost k = (domain@, record_type);
        let ghost s = self.entries@;
        match self.find_index(domain, record_type) {
            Some(i) => {
                proof {
                    lemma_seq_to_map_first(s, i as int);
                }
                let entry = self.entries[i].2;
                if now < entry.expires_at {
                    Some(entry)
                } else {
                    proof {
                        lemma_seq_to_map_remove(s, i as int);
                    }
                    self.entries.remove(i);
                    proof {
                        assert(self.entries@ =~= s.remove(i as int));
                        assert(forall|a: int, b: int|
                            0 <= a < b < self.entries@.len() ==> entry_key(
                                #[trigger] self.entries@[a],
                            ) != entry_key(#[trigger] self.entries@[b])) by {
                            assert(forall|a: int|
                                0 <= a < self.entries@.len() ==> exists|o: int|
                                    0 <= o < s.len() && #[trigger] self.entries@[a] == s[o]
                                        && (a < i as int ==> o == a) && (a >= i as int ==> o == a
                                        + 1));
                        }
                    }
                    None
                }
            },
            None => {
                proof {
                    lemma_seq_to_map_contains(s, k);
                    assert(!old(self)@.contains_key(k));
                    assert(old(self)@.remove(k) =~= old(self)@);
                }
                None
            },
        }
    }

    /// Store an answer under the key, unconditionally replacing any earlier
    /// entry, with the absolute expiry `now + ttl`.
    pub fn insert(&mut self, domain: Vec<u8>, record_type: u16, ip: IpAddress, ttl: u32, now: u64)
        requires
            old(self).wf(),
            now + ttl <= u64::MAX,
        ensures
            final(self).wf(),
            final(self)@ == old(self)@.insert(
                (domain@, record_type),
                CacheEntry { ip, expires_at: (now + ttl as u64) as u64 },
            ),
    {
        let entry = CacheEntry { ip, expires_at: now + (ttl as u64) };
        let ghost s = self.entries@;
        let ghost row: (Vec<u8>, u16, CacheEntry) = (domain, record_type, entry);
        match self.find_index(&domain, record_type) {
            Some(i) => {
                proof {
                    lemma_seq_to_map_update(s, i as int, row);
                }
                *vstd::std_specs::vec::vec_index_mut(&mut self.entries, i) = (
                    domain,
                    record_type,
                    entry,
                );
                proof {
                    assert(self.entries@ =~= s.update(i as int, row));
                    assert(forall|a: int, b: int|
                        0 <= a < b < self.entries@.len() ==> entry_key(
                            #[trigger] self.entries@[a],
                        ) != entry_key(#[trigger] self.entries@[b]));
                }
            },
            None => {
                proof {
                    lemma_seq_to_map_push(s, row);
                }
                self.entries.push((domain, record_type, entry));
                proof {
                    assert(self.entries@ =~= s.push(row));
                }
            },
        }
    }
}

/// An entry inserted with some time to live is a hit strictly before its
/// expiry and a miss from the expiry on; looking it up never changes the
/// stored mapping before expiry.
pub proof fn lemma_cache_ttl(
    m: Map<(Seq<u8>, u16), CacheEntry>,
    domain: Seq<u8>,
    record_type: u16,
    ip: IpAddress,
    t0: u64,
    ttl: u32,
    now: u64,
)
    requires
        t0 + ttl <= u64::MAX,
    ensures
        ({
            let k = (domain, record_type);
            let m1 = m.insert(k, CacheEntry { ip, expires_at: (t0 + ttl as u64) as u64 });
            &&& m1.contains_key(k)
            &&& m1[k].ip == ip
            &&& (now < t0 + ttl <==> (m1.contains_key(k) && now < m1[k].expires_at))
        }),
{
}

/// A second insert for the same key fully replaces the first: the earlier
/// entry has no effect on any later lookup.
pub proof fn lemma_cache_insert_replaces(
    m: Map<(Seq<u8>, u16), CacheEntry>,
    k: (Seq<u8>, u16),
    e1: CacheEntry,
    e2: CacheEntry,
)
    ensures
        m.insert(k, e1).insert(k, e2) == m.insert(k, e2),
{
    assert(m.insert(k, e1).insert(k, e2) =~= m.insert(k, e2));
}

} // verus!
