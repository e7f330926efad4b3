//! The site cache: the stratifiers last received from each site, with the
//! time they arrived, read back only while fresh.
use vstd::prelude::*;
use crate::keyed::{key_set, keys_unique, lemma_key_set_prefix, lemma_key_set_full, find_key};
use crate::criteria::{Stratifiers, StratifiersMap};

verus! {

/// Abstract cache entry: the stratifiers and the time they were stored.
pub type EntryView = (StratifiersMap, u64);

/// Abstract cache: site to its entry.
pub type CacheMap = Map<Seq<char>, EntryView>;

/// An entry stored at `created` is fresh at `now` while less than `ttl` has passed.
pub open spec fn is_fresh(created: u64, now: u64, ttl: u64) -> bool {
    now < created + ttl
}

/// What a read of `site` at `now` gives: the stored stratifiers while fresh.
pub open spec fn cache_lookup(m: CacheMap, site: Seq<char>, now: u64, ttl: u64) -> Option<StratifiersMap> {
    if m.contains_key(site) && is_fresh(m[site].1, now, ttl) {
        Some(m[site].0)
    } else {
        None
    }
}

/// What a write of `value` for `site` at `now` leaves.
pub open spec fn cache_put(m: CacheMap, site: Seq<char>, value: StratifiersMap, now: u64) -> CacheMap {
    m.insert(site, (value, now))
}

/// The stratifiers of one site, and when they were stored.
pub struct CacheEntry {
    stratifiers: Stratifiers,
    created: u64,
}

impl View for CacheEntry {
    type V = EntryView;

    closed spec fn view(&self) -> EntryView {
        (self.stratifiers@, self.created)
    }
}

impl CacheEntry {
    /// The stratifiers are well formed.
    pub closed spec fn wf(&self) -> bool {
        self.stratifiers.wf()
    }
}

/// Cache entries keyed by site, as an association list with unique keys.
pub struct SiteEntries {
    entries: Vec<(String, CacheEntry)>,
    model: Ghost<CacheMap>,
}

impl View for SiteEntries {
    type V = CacheMap;

    closed spec fn view(&self) -> CacheMap {
        self.model@
    }
}

impl SiteEntries {
    /// The list holds exactly the abstract map, each key once, each value well formed.
    pub closed spec fn wf(&self) -> bool {
        &&& keys_unique(self.entries@)
        &&& key_set(self.entries@) == self.model@.dom()
        &&& forall|i: int|
            0 <= i < self.entries@.len() ==> (#[trigger] self.entries@[i]).1.wf()
                && self.model@[self.entries@[i].0@] == self.entries@[i].1@
    }

    /// No keys.
    pub fn new() -> (r: SiteEntries)
        ensures
            r.wf(),
            r@ == Map::<Seq<char>, EntryView>::empty(),
    {
        let r = SiteEntries { entries: Vec::new(), model: Ghost(Map::empty()) };
        assert(key_set(r.entries@) =~= Set::<Seq<char>>::empty());
        r
    }

    /// The cache entry under a key, if present.
    pub fn get(&self, k: &String) -> (r: Option<&CacheEntry>)
        requires
            self.wf(),
        ensures
            match r {
                Some(v) => self@.contains_key(k@) && v.wf() && self@[k@] == v@,
                None => !self@.contains_key(k@),
            },
    {
        match find_key(&self.entries, k) {
            Some(i) => {
                assert(self.entries@[i as int].1.wf());
                Some(&self.entries[i].1)
            },
            None => None,
        }
    }

    /// Sets the cache entry under a key, replacing any earlier value.
    pub fn insert(&mut self, k: String, v: CacheEntry)
        requires
            old(self).wf(),
            v.wf(),
        ensures
            final(self).wf(),
            final(self)@ == old(self)@.insert(k@, v@),
    {
        let ghost m = self.model@;
        let ghost kv = k@;
        let ghost vv = v@;
        match find_key(&self.entries, &k) {
            Some(i) => {
                let ghost e0 = self.entries@;
                self.entries.set(i, (k, v));
                self.model = Ghost(m.insert(kv, vv));
                proof {
                    assert(key_set(self.entries@) =~= self.model@.dom()) by {
                        assert forall|x: Seq<char>| #[trigger] self.model@.dom().contains(x)
                            implies key_set(self.entries@).contains(x) by {
                            if x == kv {
                                assert(self.entries@[i as int].0@ == x);
                            } else {
                                assert(key_set(e0).contains(x));
                                let j = choose|j: int| 0 <= j < e0.len() && #[trigger] e0[j].0@ == x;
                                assert(self.entries@[j].0@ == x);
                            }
                        }
                        assert forall|x: Seq<char>| #[trigger] key_set(self.entries@).contains(x)
                            implies self.model@.dom().contains(x) by {
                            let j = choose|j: int|
                                0 <= j < self.entries@.len() && #[trigger] self.entries@[j].0@ == x;
                            if j != i {
                                assert(e0[j].0@ == x);
                            }
                        }
                    }
                    assert forall|j: int| 0 <= j < self.entries@.len() implies (#[trigger] self.entries@[j]).1.wf()
                        && self.model@[self.entries@[j].0@] == self.entries@[j].1@ by {
                        if j != i {
                            assert(e0[j].0@ != e0[i as int].0@);
                            assert(e0[j] == self.entries@[j]);
                        }
                    }
                }
            },
            None => {
                let ghost e0 = self.entries@;
                self.entries.push((k, v));
                self.model = Ghost(m.insert(kv, vv));
                proof {
                    let n = e0.len() as int;
                    assert(self.entries@.subrange(0, n) =~= e0);
                    lemma_key_set_prefix(self.entries@, n);
                    lemma_key_set_full(self.entries@);
                    assert(key_set(self.entries@) =~= self.model@.dom());
                    assert forall|a: int, b: int|
                        0 <= a < self.entries@.len() && 0 <= b < self.entries@.len() && a != b
                            implies #[trigger] self.entries@[a].0@ != #[trigger] self.entries@[b].0@ by {
                        if a == n {
                            assert(key_set(e0).contains(e0[b].0@));
                        } else if b == n {
                            assert(key_set(e0).contains(e0[a].0@));
                        }
                    }
                    assert forall|j: int| 0 <= j < self.entries@.len() implies (#[trigger] self.entries@[j]).1.wf()
                        && self.model@[self.entries@[j].0@] == self.entries@[j].1@ by {
                        if j != n {
                            assert(key_set(e0).contains(e0[j].0@));
                            assert(e0[j] == self.entries@[j]);
                        }
                    }
                }
            },
        }
    }

}


/// The site cache, with its time to live in seconds.
pub struct CriteriaCache {
    entries: SiteEntries,
    ttl: u64,
}

impl View for CriteriaCache {
    type V = CacheMap;

    closed spec fn view(&self) -> CacheMap {
        self.entries@
    }
}

impl CriteriaCache {
    /// The entries are well formed.
    pub closed spec fn wf(&self) -> bool {
        self.entries.wf()
    }

    /// How long an entry stays fresh, in seconds.
    pub closed spec fn ttl_spec(&self) -> u64 {
        self.ttl
    }

    /// An empty cache whose entries stay fresh for `ttl` seconds.
    pub fn new(ttl: u64) -> (r: CriteriaCache)
        ensures
            r.wf(),
            r@ == Map::<Seq<char>, EntryView>::empty(),
            r.ttl_spec() == ttl,
    {
        CriteriaCache { entries: SiteEntries::new(), ttl }
    }

    /// How long an entry stays fresh, in seconds.
    pub fn ttl(&self) -> (r: u64)
        ensures
            r == self.ttl_spec(),
    {
        self.ttl
    }

    /// The stratifiers stored for `site`, if they are fresh at `now`.
    /// An expired entry is reported absent but stays in the cache.
    pub fn get_fresh(&self, site: &String, now: u64) -> (r: Option<Stratifiers>)
        requires
            self.wf(),
        ensures
            match r {
                Some(v) => v.wf() && cache_lookup(self@, site@, now, self.ttl_spec()) == Some(v@),
                None => cache_lookup(self@, site@, now, self.ttl_spec()) is None,
            },
    {
        match self.entries.get(site) {
            Some(entry) => {
                let created = entry.created;
                if now < created || now - created < self.ttl {
                    Some(entry.stratifiers.duplicate())
                } else {
                    None
                }
            },
            None => None,
        }
    }

    /// Stores `value` for `site`, stamped with `now`, replacing any earlier entry.
    pub fn put(&mut self, site: String, value: Stratifiers, now: u64)
        requires
            old(self).wf(),
            value.wf(),
        ensures
            final(self).wf(),
            final(self)@ == cache_put(old(self)@, site@, value@, now),
            final(self).ttl_spec() == old(self).ttl_spec(),
    {
        let entry = CacheEntry { stratifiers: value, created: now };
        self.entries.insert(site, entry);
    }
}

/// A read right after a write of the same site gives the written stratifiers
/// while they are fresh, and nothing once they have expired; a write leaves
/// the reads of every other site as they were.
pub proof fn law_get_fresh_after_put(
    c: CriteriaCache,
    site: Seq<char>,
    value: Stratifiers,
    put_at: u64,
    other: Seq<char>,
    now: u64,
)
    requires
        c.wf(),
        value.wf(),
    ensures
        cache_lookup(cache_put(c@, site, value@, put_at), site, now, c.ttl_spec()) == (if is_fresh(
            put_at,
            now,
            c.ttl_spec(),
        ) {
            Some(value@)
        } else {
            None
        }),
        other != site ==> cache_lookup(cache_put(c@, site, value@, put_at), other, now, c.ttl_spec())
            == cache_lookup(c@, other, now, c.ttl_spec()),
{
}

/// The cache left by a sequence of writes, each a site, stratifiers and a time.
pub open spec fn replay(m: CacheMap, puts: Seq<(Seq<char>, StratifiersMap, u64)>) -> CacheMap
    decreases puts.len(),
{
    if puts.len() == 0 {
        m
    } else {
        cache_put(replay(m, puts.drop_last()), puts.last().0, puts.last().1, puts.last().2)
    }
}

/// After any sequence of writes to an empty cache, a read of a site gives
/// nothing if the site was never written, and otherwise the stratifiers of its
/// last write, exactly while that write is fresh.
pub proof fn law_get_fresh_history(
    ttl: u64,
    puts: Seq<(Seq<char>, StratifiersMap, u64)>,
    site: Seq<char>,
    now: u64,
)
    ensures
        (forall|i: int| 0 <= i < puts.len() ==> (#[trigger] puts[i]).0 != site) ==> cache_lookup(
            replay(Map::empty(), puts),
            site,
            now,
            ttl,
        ) is None,
        forall|j: int|
            0 <= j < puts.len() && (#[trigger] puts[j]).0 == site && (forall|i: int|
                j < i < puts.len() ==> (#[trigger] puts[i]).0 != site) ==> cache_lookup(
                replay(Map::empty(), puts),
                site,
                now,
                ttl,
            ) == (if is_fresh(puts[j].2, now, ttl) {
                Some(puts[j].1)
            } else {
                None
            }),
    decreases puts.len(),
{
    if puts.len() > 0 {
        let d = puts.drop_last();
        law_get_fresh_history(ttl, d, site, now);
        assert forall|i: int| 0 <= i < d.len() implies #[trigger] d[i] == puts[i] by {}
        let n = puts.len() - 1;
        assert forall|j: int|
            0 <= j < puts.len() && (#[trigger] puts[j]).0 == site && (forall|i: int|
                j < i < puts.len() ==> (#[trigger] puts[i]).0 != site) implies cache_lookup(
                replay(Map::empty(), puts),
                site,
                now,
                ttl,
            ) == (if is_fresh(puts[j].2, now, ttl) {
                Some(puts[j].1)
            } else {
                None
            }) by {
            if j < n {
                assert(puts[n].0 != site);
                assert(d[j] == puts[j]);
                assert forall|i: int| j < i < d.len() implies (#[trigger] d[i]).0 != site by {
                    assert(d[i] == puts[i]);
                }
            }
        }
    }
}

} // verus!
