//! The cache of resolved names, with expiry measured in timer ticks.
use vstd::prelude::*;
use crate::net::table::{keys_distinct, assoc, lemma_assoc_contains, lemma_assoc_index, lemma_assoc_remove, lemma_assoc_update, lemma_assoc_push};

verus! {

#[derive(Clone, Copy)]
pub struct DnsCacheEntry {
    pub ip: [u8; 4],
    pub expiration_tick: u32,
}

impl DnsCacheEntry {
    /// Whether the entry has expired at tick `current_ticks`.
    fn is_expired(&self, current_ticks: u32) -> (r: bool)
        ensures
            r == (current_ticks >= self.expiration_tick),
    {
        current_ticks >= self.expiration_tick
    }
}

/// The names in a list of cache pairs, with their entries.
pub open spec fn keyed(s: Seq<(String, DnsCacheEntry)>) -> Seq<(Seq<char>, DnsCacheEntry)> {
    s.map_values(|p: (String, DnsCacheEntry)| (p.0@, p.1))
}

/// Resolved names and their entries.
pub struct DnsCache {
    entries: Vec<(String, DnsCacheEntry)>,
}

impl View for DnsCache {
    type V = Map<Seq<char>, DnsCacheEntry>;

    closed spec fn view(&self) -> Map<Seq<char>, DnsCacheEntry> {
        assoc(keyed(self.entries@))
    }
}

impl DnsCache {
    /// At most one entry per name.
    pub closed spec fn wf(&self) -> bool {
        keys_distinct(keyed(self.entries@))
    }

    /// An empty cache.
    pub fn new() -> (r: Self)
        ensures
            r.wf(),
            r@ == Map::<Seq<char>, DnsCacheEntry>::empty(),
    {
        let r = DnsCache { entries: Vec::new() };
        assert(keyed(r.entries@) =~= Seq::empty());
        assert(r@ =~= Map::<Seq<char>, DnsCacheEntry>::empty());
        r
    }

    /// The index of the entry for `domain`.
    fn find(&self, domain: &str) -> (r: Option<usize>)
        requires
            self.wf(),
        ensures
            match r {
                Some(i) => i < self.entries@.len() && keyed(self.entries@)[i as int].0 == domain@,
                None => !self@.contains_key(domain@),
            },
    {
        let key = domain.to_owned();
        let mut i: usize = 0;
        while i < self.entries.len()
            invariant
                i <= self.entries@.len(),
                key@ == domain@,
                forall|k: int| 0 <= k < i ==> #[trigger] keyed(self.entries@)[k].0 != domain@,
            decreases self.entries@.len() - i,
        {
            if self.entries[i].0 == key {
                return Some(i);
            }
            i = i + 1;
        }
        proof {
            lemma_assoc_contains(keyed(self.entries@), domain@);
        }
        None
    }

    /// Records `entry` for `domain`, replacing an earlier one.
    pub fn insert(&mut self, domain: &str, entry: DnsCacheEntry)
        requires
            old(self).wf(),
        ensures
            final(self).wf(),
            final(self)@ == old(self)@.insert(domain@, entry),
    {
        let ghost k0 = keyed(self.entries@);
        match self.find(domain) {
            Some(i) => {
                proof {
                    lemma_assoc_update(k0, i as int, entry);
                }
                let key = domain.to_owned();
                self.entries.set(i, (key, entry));
                assert(keyed(self.entries@) =~= k0.update(i as int, (k0[i as int].0, entry)));
            },
            None => {
                proof {
                    lemma_assoc_push(k0, domain@, entry);
                }
                let key = domain.to_owned();
                self.entries.push((key, entry));
                assert(keyed(self.entries@) =~= k0.push((domain@, entry)));
            },
        }
    }
}

/// A lookup of `domain` at tick `now`: the cached address and the cache afterwards. An expired
/// entry is removed and gives nothing.
pub open spec fn cache_lookup(m: Map<Seq<char>, DnsCacheEntry>, domain: Seq<char>, now: u32) -> (Option<[u8; 4]>, Map<Seq<char>, DnsCacheEntry>) {
    match m.get(domain) {
        None => (None, m),
        Some(e) => if now >= e.expiration_tick {
            (None, m.remove(domain))
        } else {
            (Some(e.ip), m)
        },
    }
}

/// Read after write: once an entry is recorded for a name, a lookup of that name before the
/// entry's expiration tick gives its address and leaves the cache as it is, and a lookup from
/// that tick on gives nothing and forgets the name. Other names are not affected.
pub proof fn lemma_cache_read_after_write(m: Map<Seq<char>, DnsCacheEntry>, domain: Seq<char>, entry: DnsCacheEntry, other: Seq<char>, now: u32)
    ensures
        now < entry.expiration_tick ==> cache_lookup(m.insert(domain, entry), domain, now) == (Some(entry.ip), m.insert(domain, entry)),
        now >= entry.expiration_tick ==> cache_lookup(m.insert(domain, entry), domain, now).0 is None
            && !cache_lookup(m.insert(domain, entry), domain, now).1.contains_key(domain),
        other != domain ==> cache_lookup(m.insert(domain, entry), other, now).0 == cache_lookup(m, other, now).0,
{
    assert(m.insert(domain, entry).get(domain) == Some(entry));
    if other != domain {
        assert(m.insert(domain, entry).get(other) == m.get(other));
    }
}

/// The cached address of `domain` at tick `current_ticks`: an expired entry is removed and
/// gives nothing.
pub fn get_from_cache(cache: &mut DnsCache, domain: &str, current_ticks: u32) -> (r: Option<[u8; 4]>)
    requires
        old(cache).wf(),
    ensures
        final(cache).wf(),
        (r, final(cache)@) == cache_lookup(old(cache)@, domain@, current_ticks),
{
    let ghost k0 = keyed(cache.entries@);
    match cache.find(domain) {
        None => None,
        Some(i) => {
            proof {
                lemma_assoc_index(k0, i as int);
            }
            let entry = cache.entries[i].1;
            if entry.is_expired(current_ticks) {
                proof {
                    lemma_assoc_remove(k0, i as int);
                }
                let _ = cache.entries.remove(i);
                assert(keyed(cache.entries@) =~= k0.remove(i as int));
                return None;
            }
            Some(entry.ip)
        },
    }
}

} // verus!
