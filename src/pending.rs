//! The sites that were asked for but had no fresh entry, awaiting refresh.
use vstd::prelude::*;

verus! {

/// The sites named in a list, as character sequences.
pub open spec fn site_set(v: Seq<String>) -> Set<Seq<char>> {
    Set::new(|k: Seq<char>| exists|j: int| 0 <= j < v.len() && #[trigger] v[j]@ == k)
}

/// No site occurs twice in the list.
pub open spec fn sites_unique(v: Seq<String>) -> bool {
    forall|i: int, j: int| 0 <= i < v.len() && 0 <= j < v.len() && i != j ==> #[trigger] v[i]@ != #[trigger] v[j]@
}

/// The pending set after a sequence of additions.
pub open spec fn replay_adds(s: Set<Seq<char>>, adds: Seq<Seq<char>>) -> Set<Seq<char>>
    decreases adds.len(),
{
    if adds.len() == 0 {
        s
    } else {
        replay_adds(s, adds.drop_last()).insert(adds.last())
    }
}

/// Sites awaiting refresh, each once.
pub struct PendingSet {
    sites: Vec<String>,
}

impl View for PendingSet {
    type V = Set<Seq<char>>;

    closed spec fn view(&self) -> Set<Seq<char>> {
        site_set(self.sites@)
    }
}

impl PendingSet {
    /// Each site is held once.
    pub closed spec fn wf(&self) -> bool {
        sites_unique(self.sites@)
    }

    /// No sites.
    pub fn new() -> (r: PendingSet)
        ensures
            r.wf(),
            r@ == Set::<Seq<char>>::empty(),
    {
        let r = PendingSet { sites: Vec::new() };
        assert(site_set(r.sites@) =~= Set::<Seq<char>>::empty());
        r
    }

    /// Whether `site` is pending.
    pub fn contains(&self, site: &String) -> (r: bool)
        ensures
            r == self@.contains(site@),
    {
        let mut i: usize = 0;
        while i < self.sites.len()
            invariant
                i <= self.sites@.len(),
                forall|j: int| 0 <= j < i ==> #[trigger] self.sites@[j]@ != site@,
            decreases self.sites@.len() - i,
        {
            if self.sites[i] == *site {
                assert(self.sites@[i as int]@ == site@);
                return true;
            }
            i = i + 1;
        }
        proof {
            if site_set(self.sites@).contains(site@) {
                let j = choose|j: int| 0 <= j < self.sites@.len() && #[trigger] self.sites@[j]@ == site@;
                assert(self.sites@[j]@ != site@);
            }
        }
        false
    }

    /// Marks `site` as pending; a site already pending stays once.
    pub fn add(&mut self, site: String)
        requires
            old(self).wf(),
        ensures
            final(self).wf(),
            final(self)@ == old(self)@.insert(site@),
    {
        if self.contains(&site) {
            assert(old(self)@.insert(site@) =~= old(self)@);
        } else {
            let ghost s0 = self.sites@;
            self.sites.push(site);
            proof {
                let n = s0.len() as int;
                assert forall|k: Seq<char>| #[trigger] site_set(self.sites@).contains(k) == site_set(s0).insert(
                    self.sites@[n]@,
                ).contains(k) by {
                    if site_set(self.sites@).contains(k) {
                        let j = choose|j: int| 0 <= j < self.sites@.len() && #[trigger] self.sites@[j]@ == k;
                        if j < n {
                            assert(s0[j]@ == k);
                        }
                    }
                    if site_set(s0).contains(k) {
                        let j = choose|j: int| 0 <= j < s0.len() && #[trigger] s0[j]@ == k;
                        assert(self.sites@[j]@ == k);
                    }
                    if k == self.sites@[n]@ {
                        assert(self.sites@[n]@ == k);
                    }
                }
                assert(site_set(self.sites@) =~= site_set(s0).insert(self.sites@[n]@));
                assert forall|a: int, b: int|
                    0 <= a < self.sites@.len() && 0 <= b < self.sites@.len() && a != b
                        implies #[trigger] self.sites@[a]@ != #[trigger] self.sites@[b]@ by {
                    if a == n {
                        assert(site_set(s0).contains(s0[b]@));
                    } else if b == n {
                        assert(site_set(s0).contains(s0[a]@));
                    }
                }
            }
        }
    }

    /// Takes every pending site out, leaving the set empty. The sites come
    /// back each once, in no particular order.
    pub fn drain(&mut self) -> (r: Vec<String>)
        requires
            old(self).wf(),
        ensures
            final(self).wf(),
            final(self)@ == Set::<Seq<char>>::empty(),
            site_set(r@) == old(self)@,
            sites_unique(r@),
    {
        let r = self.sites.split_off(0);
        assert(r@ =~= old(self).sites@);
        assert(site_set(self.sites@) =~= Set::<Seq<char>>::empty());
        r
    }
}

/// Draining after a sequence of additions to an empty set hands back exactly
/// the sites added, and leaves nothing pending.
pub proof fn law_drain_after_adds(adds: Seq<Seq<char>>)
    ensures
        replay_adds(Set::empty(), adds) == adds.to_set(),
    decreases adds.len(),
{
    if adds.len() > 0 {
        law_drain_after_adds(adds.drop_last());
        assert forall|k: Seq<char>| #[trigger] adds.to_set().contains(k) == adds.drop_last().to_set().insert(
            adds.last(),
        ).contains(k) by {
            if adds.to_set().contains(k) {
                let j = choose|j: int| 0 <= j < adds.len() && adds[j] == k;
                if j < adds.len() - 1 {
                    assert(adds.drop_last()[j] == k);
                }
            }
            if adds.drop_last().to_set().contains(k) && k != adds.last() {
                let j = choose|j: int| 0 <= j < adds.drop_last().len() && adds.drop_last()[j] == k;
                assert(adds[j] == k);
            }
        }
        assert(adds.to_set() =~= adds.drop_last().to_set().insert(adds.last()));
    } else {
        assert(adds.to_set() =~= Set::<Seq<char>>::empty());
    }
}

} // verus!
