//! The read path: answering a request for the stratifiers of some sites.
use vstd::prelude::*;
use crate::cache::{CriteriaCache, CacheMap, cache_lookup};
use crate::criteria::{CriteriaGroup, Stratifiers, StratifiersMap, combine_stratifiers, stratifiers_fit, combine_criteria_groups};
use crate::pending::PendingSet;

verus! {

/// The sites a request stands for: the requested ones, or the configured
/// initial sites where none were requested.
pub open spec fn effective_sites(requested: Seq<String>, initial: Seq<String>) -> Seq<String> {
    if requested.len() == 0 {
        initial
    } else {
        requested
    }
}

/// The fresh stratifiers of the sites, combined in order. A site without a
/// fresh entry adds nothing; so does one whose counts would no longer fit in
/// a `u64`.
pub open spec fn aggregate(m: CacheMap, ttl: u64, now: u64, sites: Seq<String>) -> StratifiersMap
    decreases sites.len(),
{
    if sites.len() == 0 {
        Map::empty()
    } else {
        let acc = aggregate(m, ttl, now, sites.drop_last());
        match cache_lookup(m, sites.last()@, now, ttl) {
            Some(v) => if stratifiers_fit(acc, v) {
                combine_stratifiers(acc, v)
            } else {
                acc
            },
            None => acc,
        }
    }
}

/// The sites without a fresh entry.
pub open spec fn missed(m: CacheMap, ttl: u64, now: u64, sites: Seq<String>) -> Set<Seq<char>> {
    Set::new(
        |k: Seq<char>|
            exists|j: int| 0 <= j < sites.len() && #[trigger] sites[j]@ == k && cache_lookup(m, k, now, ttl) is None,
    )
}

/// Answers a request: combines the fresh stratifiers of each site, and marks
/// each site without a fresh entry as pending. An empty request stands for
/// the initial sites. The answer never fails; missing sites only become
/// demand for a refresh.
pub fn get_criteria(
    cache: &CriteriaCache,
    pending: &mut PendingSet,
    requested: &Vec<String>,
    initial_sites: &Vec<String>,
    now: u64,
) -> (r: Stratifiers)
    requires
        cache.wf(),
        old(pending).wf(),
    ensures
        r.wf(),
        r@ == aggregate(cache@, cache.ttl_spec(), now, effective_sites(requested@, initial_sites@)),
        final(pending).wf(),
        final(pending)@ == old(pending)@.union(
            missed(cache@, cache.ttl_spec(), now, effective_sites(requested@, initial_sites@)),
        ),
{
    let sites = if requested.len() == 0 {
        initial_sites
    } else {
        requested
    };
    let ghost ss = effective_sites(requested@, initial_sites@);
    let ghost ttl = cache.ttl_spec();
    let mut stratifiers = CriteriaGroup::new();
    let mut i: usize = 0;
    proof {
        assert(ss.subrange(0, 0) =~= Seq::<String>::empty());
        assert(missed(cache@, ttl, now, ss.subrange(0, 0)) =~= Set::<Seq<char>>::empty());
        assert(old(pending)@.union(Set::<Seq<char>>::empty()) =~= old(pending)@);
    }
    while i < sites.len()
        invariant
            cache.wf(),
            ttl == cache.ttl_spec(),
            sites@ == ss,
            i <= ss.len(),
            stratifiers.wf(),
            stratifiers@ == aggregate(cache@, ttl, now, ss.subrange(0, i as int)),
            pending.wf(),
            pending@ == old(pending)@.union(missed(cache@, ttl, now, ss.subrange(0, i as int))),
        decreases ss.len() - i,
    {
        let site = &sites[i];
        let ghost p = ss.subrange(0, i as int);
        let ghost q = ss.subrange(0, i + 1);
        proof {
            assert(q.drop_last() =~= p);
            assert(q.last() == ss[i as int]);
        }
        match cache.get_fresh(site, now) {
            Some(hit) => {
                proof {
                    assert(missed(cache@, ttl, now, q) =~= missed(cache@, ttl, now, p)) by {
                        assert forall|k: Seq<char>| #[trigger] missed(cache@, ttl, now, q).contains(k)
                            implies missed(cache@, ttl, now, p).contains(k) by {
                            let j = choose|j: int|
                                0 <= j < q.len() && #[trigger] q[j]@ == k && cache_lookup(cache@, k, now, ttl) is None;
                            assert(j != i);
                            assert(p[j]@ == k);
                        }
                        assert forall|k: Seq<char>| #[trigger] missed(cache@, ttl, now, p).contains(k)
                            implies missed(cache@, ttl, now, q).contains(k) by {
                            let j = choose|j: int|
                                0 <= j < p.len() && #[trigger] p[j]@ == k && cache_lookup(cache@, k, now, ttl) is None;
                            assert(q[j]@ == k);
                        }
                    }
                }
                if stratifiers.fits_with(&hit) {
                    stratifiers = combine_criteria_groups(stratifiers, hit);
                }
            },
            None => {
                let s = site.clone();
                pending.add(s);
                proof {
                    assert(missed(cache@, ttl, now, q) =~= missed(cache@, ttl, now, p).insert(site@)) by {
                        assert forall|k: Seq<char>| #[trigger] missed(cache@, ttl, now, q).contains(k)
                            implies missed(cache@, ttl, now, p).insert(site@).contains(k) by {
                            let j = choose|j: int|
                                0 <= j < q.len() && #[trigger] q[j]@ == k && cache_lookup(cache@, k, now, ttl) is None;
                            if j < i {
                                assert(p[j]@ == k);
                            }
                        }
                        assert forall|k: Seq<char>| #[trigger] missed(cache@, ttl, now, p).insert(site@).contains(k)
                            implies missed(cache@, ttl, now, q).contains(k) by {
                            if k == site@ {
                                assert(q[i as int]@ == k);
                            } else {
                                let j = choose|j: int|
                                    0 <= j < p.len() && #[trigger] p[j]@ == k && cache_lookup(cache@, k, now, ttl) is None;
                                assert(q[j]@ == k);
                            }
                        }
                    }
                    assert(old(pending)@.union(missed(cache@, ttl, now, p)).insert(site@) =~= old(pending)@.union(
                        missed(cache@, ttl, now, p).insert(site@),
                    ));
                }
            },
        }
        i = i + 1;
    }
    proof {
        assert(ss.subrange(0, ss.len() as int) =~= ss);
    }
    stratifiers
}

} // verus!
