//! Stratified counts: per-stratum counts, stratifiers, and groups of them,
//! with the pointwise combination used to aggregate answers of several sites.
use vstd::prelude::*;
use crate::keyed::{key_set, keys_unique, lemma_key_set_prefix, lemma_key_set_full, lemma_key_set_empty, find_key};

verus! {

/// Abstract counts: stratum value to number of patients.
pub type CountsMap = Map<Seq<char>, nat>;

/// The count of a stratum, zero where the stratum is absent.
pub open spec fn count_of(m: CountsMap, k: Seq<char>) -> nat {
    if m.contains_key(k) {
        m[k]
    } else {
        0
    }
}

/// Counts summed per stratum; a stratum missing on one side counts as zero.
pub open spec fn combine_counts(a: CountsMap, b: CountsMap) -> CountsMap {
    Map::new(
        |k: Seq<char>| a.contains_key(k) || b.contains_key(k),
        |k: Seq<char>| (count_of(a, k) + count_of(b, k)) as nat,
    )
}

/// Every summed count of `a` and `b` fits in a `u64`.
pub open spec fn counts_fit(a: CountsMap, b: CountsMap) -> bool {
    forall|k: Seq<char>| #[trigger] count_of(a, k) + count_of(b, k) <= u64::MAX
}

/// Counts per stratum value, as an association list with unique keys.
pub struct Criteria {
    entries: Vec<(String, u64)>,
    model: Ghost<CountsMap>,
}

impl View for Criteria {
    type V = CountsMap;

    closed spec fn view(&self) -> CountsMap {
        self.model@
    }
}

impl Criteria {
    /// The list holds exactly the abstract counts, each key once.
    pub closed spec fn wf(&self) -> bool {
        &&& keys_unique(self.entries@)
        &&& key_set(self.entries@) == self.model@.dom()
        &&& forall|i: int|
            0 <= i < self.entries@.len() ==> self.model@[#[trigger] self.entries@[i].0@]
                == self.entries@[i].1 as nat
    }

    /// No strata.
    pub fn new() -> (r: Criteria)
        ensures
            r.wf(),
            r@ == Map::<Seq<char>, nat>::empty(),
    {
        let r = Criteria { entries: Vec::new(), model: Ghost(Map::empty()) };
        assert(key_set(r.entries@) =~= Set::<Seq<char>>::empty());
        r
    }

    /// The number of strata.
    pub fn len(&self) -> (r: usize)
        requires
            self.wf(),
        ensures
            r == self@.len(),
    {
        proof {
            crate::keyed::lemma_unique_keys_len(self.entries@);
        }
        self.entries.len()
    }

    /// The count of a stratum, if present.
    pub fn get(&self, k: &String) -> (r: Option<u64>)
        requires
            self.wf(),
        ensures
            match r {
                Some(v) => self@.contains_key(k@) && self@[k@] == v as nat,
                None => !self@.contains_key(k@),
            },
    {
        match find_key(&self.entries, k) {
            Some(i) => Some(self.entries[i].1),
            None => None,
        }
    }

    /// Sets the count of a stratum, replacing any earlier one.
    pub fn insert(&mut self, k: String, v: u64)
        requires
            old(self).wf(),
        ensures
            final(self).wf(),
            final(self)@ == old(self)@.insert(k@, v as nat),
    {
        let ghost m = self.model@;
        let ghost kv = k@;
        match find_key(&self.entries, &k) {
            Some(i) => {
                let ghost e0 = self.entries@;
                self.entries.set(i, (k, v));
                self.model = Ghost(m.insert(kv, v as nat));
                proof {
                    assert(self.entries@ == e0.update(i as int, (self.entries@[i as int].0, v)));
                    assert(key_set(self.entries@) =~= self.model@.dom()) by {
                        assert forall|x: Seq<char>| #[trigger] self.model@.dom().contains(x)
                            implies key_set(self.entries@).contains(x) by {
                            if x == kv {
                                assert(self.entries@[i as int].0@ == x);
                            } else {
                                assert(key_set(e0).contains(x));
                                let j = choose|j: int| 0 <= j < e0.len() && #[trigger] e0[j].0@ == x;
                                assert(self.entries@[j].0@ == x);
                            }
                        }
                        assert forall|x: Seq<char>| #[trigger] key_set(self.entries@).contains(x)
                            implies self.model@.dom().contains(x) by {
                            let j = choose|j: int|
                                0 <= j < self.entries@.len() && #[trigger] self.entries@[j].0@ == x;
                            if j != i {
                                assert(e0[j].0@ == x);
                            }
                        }
                    }
                }
            },
            None => {
                let ghost e0 = self.entries@;
                self.entries.push((k, v));
                self.model = Ghost(m.insert(kv, v as nat));
                proof {
                    let n = e0.len() as int;
                    assert(self.entries@.subrange(0, n) =~= e0);
                    lemma_key_set_prefix(self.entries@, n);
                    lemma_key_set_full(self.entries@);
                    assert(key_set(self.entries@) =~= self.model@.dom());
                    assert forall|a: int, b: int|
                        0 <= a < self.entries@.len() && 0 <= b < self.entries@.len() && a != b
                            implies #[trigger] self.entries@[a].0@ != #[trigger] self.entries@[b].0@ by {
                        if a == n {
                            assert(key_set(e0).contains(e0[b].0@));
                        } else if b == n {
                            assert(key_set(e0).contains(e0[a].0@));
                        }
                    }
                }
            },
        }
    }

    /// Adds `v` to the count of a stratum, an absent stratum counting as zero.
    pub fn add_count(&mut self, k: String, v: u64)
        requires
            old(self).wf(),
            count_of(old(self)@, k@) + v <= u64::MAX,
        ensures
            final(self).wf(),
            final(self)@ == old(self)@.insert(k@, (count_of(old(self)@, k@) + v) as nat),
    {
        let cur = self.get(&k);
        match cur {
            Some(c) => self.insert(k, c + v),
            None => self.insert(k, v),
        }
    }

    /// The entries, each stratum once, in no particular order.
    pub fn entries(&self) -> (r: Vec<(String, u64)>)
        requires
            self.wf(),
        ensures
            keys_unique(r@),
            key_set(r@) == self@.dom(),
            forall|i: int| 0 <= i < r@.len() ==> self@[#[trigger] r@[i].0@] == r@[i].1 as nat,
    {
        let mut r: Vec<(String, u64)> = Vec::new();
        let mut i: usize = 0;
        while i < self.entries.len()
            invariant
                self.wf(),
                i <= self.entries@.len(),
                r@ == self.entries@.subrange(0, i as int),
            decreases self.entries@.len() - i,
        {
            let k = self.entries[i].0.clone();
            r.push((k, self.entries[i].1));
            assert(r@ =~= self.entries@.subrange(0, i + 1));
            i = i + 1;
        }
        assert(r@ =~= self.entries@);
        r
    }

    /// A copy with the same counts.
    pub fn duplicate(&self) -> (r: Criteria)
        requires
            self.wf(),
        ensures
            r.wf(),
            r@ == self@,
    {
        let e = self.entries();
        Criteria { entries: e, model: Ghost(self@) }
    }
}

impl Criteria {
    /// Every count of a well-formed list fits in a `u64`.
    pub proof fn lemma_counts_bounded(&self)
        requires
            self.wf(),
        ensures
            forall|k: Seq<char>| #[trigger] count_of(self@, k) <= u64::MAX,
    {
        assert forall|k: Seq<char>| #[trigger] count_of(self@, k) <= u64::MAX by {
            if self@.contains_key(k) {
                assert(key_set(self.entries@).contains(k));
                let j = choose|j: int| 0 <= j < self.entries@.len() && #[trigger] self.entries@[j].0@ == k;
                assert(self@[self.entries@[j].0@] == self.entries@[j].1 as nat);
            }
        }
    }
}

/// Adding a new stratum to one side adds it to the combination.
proof fn lemma_combine_counts_insert(a: CountsMap, r: CountsMap, k: Seq<char>, v: nat)
    requires
        !r.contains_key(k),
    ensures
        combine_counts(a, r.insert(k, v)) == combine_counts(a, r).insert(k, (count_of(a, k) + v) as nat),
{
    assert(combine_counts(a, r.insert(k, v)) =~= combine_counts(a, r).insert(k, (count_of(a, k) + v) as nat));
}

/// Sums two counts per stratum; a stratum missing on one side counts as zero.
pub fn combine_maps(map1: Criteria, map2: Criteria) -> (r: Criteria)
    requires
        map1.wf(),
        map2.wf(),
        counts_fit(map1@, map2@),
    ensures
        r.wf(),
        r@ == combine_counts(map1@, map2@),
{
    let mut combined_map = map1;
    let ghost e2 = map2.entries@;
    proof {
        lemma_key_set_empty(e2);
        assert(map2@.restrict(Set::<Seq<char>>::empty()) =~= Map::<Seq<char>, nat>::empty());
        assert(combine_counts(map1@, Map::<Seq<char>, nat>::empty()) =~= map1@);
    }
    let mut i: usize = 0;
    while i < map2.entries.len()
        invariant
            map2.wf(),
            e2 == map2.entries@,
            counts_fit(map1@, map2@),
            i <= e2.len(),
            combined_map.wf(),
            combined_map@ == combine_counts(map1@, map2@.restrict(key_set(e2.subrange(0, i as int)))),
        decreases e2.len() - i,
    {
        let key = map2.entries[i].0.clone();
        let value = map2.entries[i].1;
        let ghost done = key_set(e2.subrange(0, i as int));
        let ghost part = map2@.restrict(done);
        proof {
            assert(!done.contains(key@)) by {
                if done.contains(key@) {
                    let t = e2.subrange(0, i as int);
                    let j = choose|j: int| 0 <= j < t.len() && #[trigger] t[j].0@ == key@;
                    assert(e2[j].0@ == e2[i as int].0@);
                }
            }
            assert(map2@[e2[i as int].0@] == e2[i as int].1 as nat);
            assert(count_of(map1@, key@) + count_of(map2@, key@) <= u64::MAX);
            assert(count_of(combined_map@, key@) == count_of(map1@, key@));
        }
        combined_map.add_count(key, value);
        proof {
            lemma_key_set_prefix(e2, i as int);
            assert(map2@.restrict(done.insert(key@)) =~= part.insert(key@, value as nat));
            lemma_combine_counts_insert(map1@, part, key@, value as nat);
        }
        i = i + 1;
    }
    proof {
        lemma_key_set_full(e2);
        assert(map2@.restrict(map2@.dom()) =~= map2@);
    }
    combined_map
}

/// Combining counts does not depend on the order of the two sides.
pub proof fn law_combine_maps_commutative(a: Criteria, b: Criteria)
    requires
        a.wf(),
        b.wf(),
    ensures
        combine_counts(a@, b@) == combine_counts(b@, a@),
{
    assert(combine_counts(a@, b@) =~= combine_counts(b@, a@));
}

/// Combining counts does not depend on how three sides are grouped.
pub proof fn law_combine_maps_associative(a: Criteria, b: Criteria, c: Criteria)
    requires
        a.wf(),
        b.wf(),
        c.wf(),
    ensures
        combine_counts(a@, combine_counts(b@, c@)) == combine_counts(combine_counts(a@, b@), c@),
{
    lemma_combine_counts_associative(a@, b@, c@);
}

/// Associativity of `combine_counts` on abstract counts.
pub proof fn lemma_combine_counts_associative(a: CountsMap, b: CountsMap, c: CountsMap)
    ensures
        combine_counts(a, combine_counts(b, c)) == combine_counts(combine_counts(a, b), c),
{
    assert(combine_counts(a, combine_counts(b, c)) =~= combine_counts(combine_counts(a, b), c));
}

/// Commutativity of `combine_counts` on abstract counts.
pub proof fn lemma_combine_counts_commutative(a: CountsMap, b: CountsMap)
    ensures
        combine_counts(a, b) == combine_counts(b, a),
{
    assert(combine_counts(a, b) =~= combine_counts(b, a));
}

/// Empty counts are a neutral element of `combine_counts`, on either side.
pub proof fn lemma_combine_counts_empty(a: CountsMap)
    ensures
        combine_counts(a, Map::empty()) == a,
        combine_counts(Map::empty(), a) == a,
{
    assert(combine_counts(a, Map::empty()) =~= a);
    assert(combine_counts(Map::empty(), a) =~= a);
}

/// Combining with no strata gives the counts back unchanged.
pub proof fn law_combine_maps_identity(a: Criteria)
    requires
        a.wf(),
    ensures
        combine_counts(a@, Map::empty()) == a@,
        combine_counts(Map::empty(), a@) == a@,
{
    lemma_combine_counts_empty(a@);
}


/// Abstract stratifiers: key to counts.
pub type StratifiersMap = Map<Seq<char>, CountsMap>;

/// The counts under a key, empty where the key is absent.
pub open spec fn counts_at(m: StratifiersMap, k: Seq<char>) -> CountsMap {
    if m.contains_key(k) {
        m[k]
    } else {
        Map::empty()
    }
}

/// Union of keys; the counts under a key present on both sides are combined.
pub open spec fn combine_stratifiers(a: StratifiersMap, b: StratifiersMap) -> StratifiersMap {
    Map::new(
        |k: Seq<char>| a.contains_key(k) || b.contains_key(k),
        |k: Seq<char>| combine_counts(counts_at(a, k), counts_at(b, k)),
    )
}

/// Every count of the combination of `a` and `b` fits in a `u64`.
pub open spec fn stratifiers_fit(a: StratifiersMap, b: StratifiersMap) -> bool {
    forall|k: Seq<char>| #[trigger] counts_fit(counts_at(a, k), counts_at(b, k))
}

/// Stratifiers: criterion key to the counts of its strata, as an association list with unique keys.
pub struct CriteriaGroup {
    entries: Vec<(String, Criteria)>,
    model: Ghost<StratifiersMap>,
}

impl View for CriteriaGroup {
    type V = StratifiersMap;

    closed spec fn view(&self) -> StratifiersMap {
        self.model@
    }
}

impl CriteriaGroup {
    /// The list holds exactly the abstract map, each key once, each value well formed.
    pub closed spec fn wf(&self) -> bool {
        &&& keys_unique(self.entries@)
        &&& key_set(self.entries@) == self.model@.dom()
        &&& forall|i: int|
            0 <= i < self.entries@.len() ==> (#[trigger] self.entries@[i]).1.wf()
                && self.model@[self.entries@[i].0@] == self.entries@[i].1@
    }

    /// No keys.
    pub fn new() -> (r: CriteriaGroup)
        ensures
            r.wf(),
            r@ == Map::<Seq<char>, CountsMap>::empty(),
    {
        let r = CriteriaGroup { entries: Vec::new(), model: Ghost(Map::empty()) };
        assert(key_set(r.entries@) =~= Set::<Seq<char>>::empty());
        r
    }

    /// The number of keys.
    pub fn len(&self) -> (r: usize)
        requires
            self.wf(),
        ensures
            r == self@.len(),
    {
        proof {
            crate::keyed::lemma_unique_keys_len(self.entries@);
        }
        self.entries.len()
    }

    /// The counts under a key, if present.
    pub fn get(&self, k: &String) -> (r: Option<&Criteria>)
        requires
            self.wf(),
        ensures
            match r {
                Some(v) => self@.contains_key(k@) && v.wf() && self@[k@] == v@,
                None => !self@.contains_key(k@),
            },
    {
        match find_key(&self.entries, k) {
            Some(i) => {
                assert(self.entries@[i as int].1.wf());
                Some(&self.entries[i].1)
            },
            None => None,
        }
    }

    /// The keys, each once, in no particular order.
    pub fn keys(&self) -> (r: Vec<String>)
        requires
            self.wf(),
        ensures
            r@.len() == self@.len(),
            forall|i: int| 0 <= i < r@.len() ==> self@.contains_key(#[trigger] r@[i]@),
            forall|i: int, j: int|
                0 <= i < r@.len() && 0 <= j < r@.len() && i != j ==> #[trigger] r@[i]@ != #[trigger] r@[j]@,
    {
        proof {
            crate::keyed::lemma_unique_keys_len(self.entries@);
        }
        let mut r: Vec<String> = Vec::new();
        let mut i: usize = 0;
        while i < self.entries.len()
            invariant
                self.wf(),
                i <= self.entries@.len(),
                r@.len() == i,
                forall|j: int| 0 <= j < i ==> (#[trigger] r@[j])@ == self.entries@[j].0@,
            decreases self.entries@.len() - i,
        {
            let k = self.entries[i].0.clone();
            r.push(k);
            i = i + 1;
        }
        assert forall|j: int| 0 <= j < r@.len() implies self@.contains_key(#[trigger] r@[j]@) by {
            assert(key_set(self.entries@).contains(self.entries@[j].0@));
        }
        assert forall|a: int, b: int|
            0 <= a < r@.len() && 0 <= b < r@.len() && a != b implies #[trigger] r@[a]@ != #[trigger] r@[b]@ by {
            assert(self.entries@[a].0@ != self.entries@[b].0@);
        }
        r
    }

    /// Sets the counts under a key, replacing any earlier value.
    pub fn insert(&mut self, k: String, v: Criteria)
        requires
            old(self).wf(),
            v.wf(),
        ensures
            final(self).wf(),
            final(self)@ == old(self)@.insert(k@, v@),
    {
        let ghost m = self.model@;
        let ghost kv = k@;
        let ghost vv = v@;
        match find_key(&self.entries, &k) {
            Some(i) => {
                let ghost e0 = self.entries@;
                self.entries.set(i, (k, v));
                self.model = Ghost(m.insert(kv, vv));
                proof {
                    assert(key_set(self.entries@) =~= self.model@.dom()) by {
                        assert forall|x: Seq<char>| #[trigger] self.model@.dom().contains(x)
                            implies key_set(self.entries@).contains(x) by {
                            if x == kv {
                                assert(self.entries@[i as int].0@ == x);
                            } else {
                                assert(key_set(e0).contains(x));
                                let j = choose|j: int| 0 <= j < e0.len() && #[trigger] e0[j].0@ == x;
                                assert(self.entries@[j].0@ == x);
                            }
                        }
                        assert forall|x: Seq<char>| #[trigger] key_set(self.entries@).contains(x)
                            implies self.model@.dom().contains(x) by {
                            let j = choose|j: int|
                                0 <= j < self.entries@.len() && #[trigger] self.entries@[j].0@ == x;
                            if j != i {
                                assert(e0[j].0@ == x);
                            }
                        }
                    }
                    assert forall|j: int| 0 <= j < self.entries@.len() implies (#[trigger] self.entries@[j]).1.wf()
                        && self.model@[self.entries@[j].0@] == self.entries@[j].1@ by {
                        if j != i {
                            assert(e0[j].0@ != e0[i as int].0@);
                            assert(e0[j] == self.entries@[j]);
                        }
                    }
                }
            },
            None => {
                let ghost e0 = self.entries@;
                self.entries.push((k, v));
                self.model = Ghost(m.insert(kv, vv));
                proof {
                    let n = e0.len() as int;
                    assert(self.entries@.subrange(0, n) =~= e0);
                    lemma_key_set_prefix(self.entries@, n);
                    lemma_key_set_full(self.entries@);
                    assert(key_set(self.entries@) =~= self.model@.dom());
                    assert forall|a: int, b: int|
                        0 <= a < self.entries@.len() && 0 <= b < self.entries@.len() && a != b
                            implies #[trigger] self.entries@[a].0@ != #[trigger] self.entries@[b].0@ by {
                        if a == n {
                            assert(key_set(e0).contains(e0[b].0@));
                        } else if b == n {
                            assert(key_set(e0).contains(e0[a].0@));
                        }
                    }
                    assert forall|j: int| 0 <= j < self.entries@.len() implies (#[trigger] self.entries@[j]).1.wf()
                        && self.model@[self.entries@[j].0@] == self.entries@[j].1@ by {
                        if j != n {
                            assert(key_set(e0).contains(e0[j].0@));
                            assert(e0[j] == self.entries@[j]);
                        }
                    }
                }
            },
        }
    }

    /// A copy with the same contents.
    pub fn duplicate(&self) -> (r: CriteriaGroup)
        requires
            self.wf(),
        ensures
            r.wf(),
            r@ == self@,
    {
        let mut r: Vec<(String, Criteria)> = Vec::new();
        let mut i: usize = 0;
        while i < self.entries.len()
            invariant
                self.wf(),
                i <= self.entries@.len(),
                r@.len() == i,
                forall|j: int| 0 <= j < i ==> (#[trigger] r@[j]).0@ == self.entries@[j].0@
                    && r@[j].1.wf() && r@[j].1@ == self.entries@[j].1@,
            decreases self.entries@.len() - i,
        {
            let k = self.entries[i].0.clone();
            assert(self.entries@[i as int].1.wf());
            let v = self.entries[i].1.duplicate();
            r.push((k, v));
            i = i + 1;
        }
        let out = CriteriaGroup { entries: r, model: Ghost(self@) };
        proof {
            assert forall|a: int, b: int|
                0 <= a < out.entries@.len() && 0 <= b < out.entries@.len() && a != b
                    implies #[trigger] out.entries@[a].0@ != #[trigger] out.entries@[b].0@ by {
                assert(self.entries@[a].0@ != self.entries@[b].0@);
            }
            assert forall|x: Seq<char>| #[trigger] key_set(out.entries@).contains(x)
                == key_set(self.entries@).contains(x) by {
                if key_set(out.entries@).contains(x) {
                    let j = choose|j: int| 0 <= j < out.entries@.len() && #[trigger] out.entries@[j].0@ == x;
                    assert(self.entries@[j].0@ == x);
                }
                if key_set(self.entries@).contains(x) {
                    let j = choose|j: int| 0 <= j < self.entries@.len() && #[trigger] self.entries@[j].0@ == x;
                    assert(out.entries@[j].0@ == x);
                }
            }
            assert(key_set(out.entries@) =~= key_set(self.entries@));
            assert forall|j: int| 0 <= j < out.entries@.len() implies (#[trigger] out.entries@[j]).1.wf()
                && out.model@[out.entries@[j].0@] == out.entries@[j].1@ by {
                assert(self.entries@[j].1.wf());
            }
        }
        out
    }
}

/// Adding a new key to one side adds it to the combination.
proof fn lemma_combine_stratifiers_insert(a: StratifiersMap, r: StratifiersMap, k: Seq<char>, v: CountsMap)
    requires
        !r.contains_key(k),
    ensures
        combine_stratifiers(a, r.insert(k, v)) == combine_stratifiers(a, r).insert(k, combine_counts(counts_at(a, k), v)),
{
    assert(combine_stratifiers(a, r.insert(k, v)) =~= combine_stratifiers(a, r).insert(k, combine_counts(counts_at(a, k), v)));
}

/// Combines two stratifiers: union of criterion keys, the counts under a shared key summed per stratum.
pub fn combine_criteria_groups(group1: CriteriaGroup, group2: CriteriaGroup) -> (r: CriteriaGroup)
    requires
        group1.wf(),
        group2.wf(),
        stratifiers_fit(group1@, group2@),
    ensures
        r.wf(),
        r@ == combine_stratifiers(group1@, group2@),
{
    let mut combined = group1;
    let ghost e2 = group2.entries@;
    proof {
        lemma_key_set_empty(e2);
        assert(group2@.restrict(Set::<Seq<char>>::empty()) =~= Map::<Seq<char>, CountsMap>::empty());
        assert forall|k: Seq<char>| group1@.contains_key(k) implies #[trigger] combine_counts(group1@[k], Map::empty()) == group1@[k] by {
            lemma_combine_counts_empty(group1@[k]);
        }
        assert(combine_stratifiers(group1@, Map::<Seq<char>, CountsMap>::empty()) =~= group1@);
    }
    let mut i: usize = 0;
    while i < group2.entries.len()
        invariant
            group2.wf(),
            e2 == group2.entries@,
            stratifiers_fit(group1@, group2@),
            i <= e2.len(),
            combined.wf(),
            combined@ == combine_stratifiers(group1@, group2@.restrict(key_set(e2.subrange(0, i as int)))),
        decreases e2.len() - i,
    {
        let key = group2.entries[i].0.clone();
        assert(group2.entries@[i as int].1.wf());
        let value = group2.entries[i].1.duplicate();
        let ghost done = key_set(e2.subrange(0, i as int));
        let ghost part = group2@.restrict(done);
        proof {
            assert(!done.contains(key@)) by {
                if done.contains(key@) {
                    let t = e2.subrange(0, i as int);
                    let j = choose|j: int| 0 <= j < t.len() && #[trigger] t[j].0@ == key@;
                    assert(e2[j].0@ == e2[i as int].0@);
                }
            }
            assert(group2@[key@] == value@);
            assert(counts_fit(counts_at(group1@, key@), counts_at(group2@, key@)));
        }
        let ghost before = combined@;
        match combined.get(&key) {
            Some(existing) => {
                proof {
                    lemma_combine_counts_empty(counts_at(group1@, key@));
                }
                let merged = combine_maps(existing.duplicate(), value);
                combined.insert(key, merged);
            },
            None => {
                proof {
                    lemma_combine_counts_empty(value@);
                }
                combined.insert(key, value);
            },
        }
        proof {
            lemma_key_set_prefix(e2, i as int);
            assert(group2@.restrict(done.insert(key@)) =~= part.insert(key@, group2@[key@]));
            lemma_combine_stratifiers_insert(group1@, part, key@, group2@[key@]);
        }
        i = i + 1;
    }
    proof {
        lemma_key_set_full(e2);
        assert(group2@.restrict(group2@.dom()) =~= group2@);
    }
    combined
}

/// Commutativity of `combine_stratifiers`.
pub proof fn lemma_combine_stratifiers_commutative(a: StratifiersMap, b: StratifiersMap)
    ensures
        combine_stratifiers(a, b) == combine_stratifiers(b, a),
{
    assert forall|k: Seq<char>| #[trigger] combine_counts(counts_at(a, k), counts_at(b, k)) == combine_counts(counts_at(b, k), counts_at(a, k)) by {
        lemma_combine_counts_commutative(counts_at(a, k), counts_at(b, k));
    }
    assert(combine_stratifiers(a, b) =~= combine_stratifiers(b, a));
}

/// Associativity of `combine_stratifiers`.
pub proof fn lemma_combine_stratifiers_associative(a: StratifiersMap, b: StratifiersMap, c: StratifiersMap)
    ensures
        combine_stratifiers(a, combine_stratifiers(b, c)) == combine_stratifiers(combine_stratifiers(a, b), c),
{
    let l = combine_stratifiers(a, combine_stratifiers(b, c));
    let r = combine_stratifiers(combine_stratifiers(a, b), c);
    assert forall|k: Seq<char>| l.contains_key(k) implies #[trigger] l[k] == r[k] by {
        lemma_combine_counts_empty(Map::empty());
        lemma_combine_counts_associative(counts_at(a, k), counts_at(b, k), counts_at(c, k));
    }
    assert(l =~= r);
}

/// The empty map is a neutral element of `combine_stratifiers`, on either side.
pub proof fn lemma_combine_stratifiers_empty(a: StratifiersMap)
    ensures
        combine_stratifiers(a, Map::empty()) == a,
        combine_stratifiers(Map::empty(), a) == a,
{
    assert forall|k: Seq<char>| a.contains_key(k) implies #[trigger] combine_counts(a[k], Map::empty()) == a[k]
        && combine_counts(Map::empty(), a[k]) == a[k] by {
        lemma_combine_counts_empty(a[k]);
    }
    assert(combine_stratifiers(a, Map::empty()) =~= a);
    assert(combine_stratifiers(Map::empty(), a) =~= a);
}

/// Combining stratifiers does not depend on the order of the two sides.
pub proof fn law_combine_criteria_groups_commutative(a: CriteriaGroup, b: CriteriaGroup)
    requires
        a.wf(),
        b.wf(),
    ensures
        combine_stratifiers(a@, b@) == combine_stratifiers(b@, a@),
{
    lemma_combine_stratifiers_commutative(a@, b@);
}

/// Combining stratifiers does not depend on how three sides are grouped.
pub proof fn law_combine_criteria_groups_associative(a: CriteriaGroup, b: CriteriaGroup, c: CriteriaGroup)
    requires
        a.wf(),
        b.wf(),
        c.wf(),
    ensures
        combine_stratifiers(a@, combine_stratifiers(b@, c@)) == combine_stratifiers(combine_stratifiers(a@, b@), c@),
{
    lemma_combine_stratifiers_associative(a@, b@, c@);
}

/// Combining with an empty map gives the stratifiers back unchanged.
pub proof fn law_combine_criteria_groups_identity(a: CriteriaGroup)
    requires
        a.wf(),
    ensures
        combine_stratifiers(a@, Map::empty()) == a@,
        combine_stratifiers(Map::empty(), a@) == a@,
{
    lemma_combine_stratifiers_empty(a@);
}

/// Abstract groups of stratifiers: key to stratifiers.
pub type GroupsMap = Map<Seq<char>, StratifiersMap>;

/// The stratifiers under a key, empty where the key is absent.
pub open spec fn stratifiers_at(m: GroupsMap, k: Seq<char>) -> StratifiersMap {
    if m.contains_key(k) {
        m[k]
    } else {
        Map::empty()
    }
}

/// Union of keys; the stratifiers under a key present on both sides are combined.
pub open spec fn combine_groups(a: GroupsMap, b: GroupsMap) -> GroupsMap {
    Map::new(
        |k: Seq<char>| a.contains_key(k) || b.contains_key(k),
        |k: Seq<char>| combine_stratifiers(stratifiers_at(a, k), stratifiers_at(b, k)),
    )
}

/// Every count of the combination of `a` and `b` fits in a `u64`.
pub open spec fn groups_fit(a: GroupsMap, b: GroupsMap) -> bool {
    forall|k: Seq<char>| #[trigger] stratifiers_fit(stratifiers_at(a, k), stratifiers_at(b, k))
}

/// Named groups of stratifiers, as an association list with unique keys.
pub struct CriteriaGroups {
    entries: Vec<(String, CriteriaGroup)>,
    model: Ghost<GroupsMap>,
}

impl View for CriteriaGroups {
    type V = GroupsMap;

    closed spec fn view(&self) -> GroupsMap {
        self.model@
    }
}

impl CriteriaGroups {
    /// The list holds exactly the abstract map, each key once, each value well formed.
    pub closed spec fn wf(&self) -> bool {
        &&& keys_unique(self.entries@)
        &&& key_set(self.entries@) == self.model@.dom()
        &&& forall|i: int|
            0 <= i < self.entries@.len() ==> (#[trigger] self.entries@[i]).1.wf()
                && self.model@[self.entries@[i].0@] == self.entries@[i].1@
    }

    /// No keys.
    pub fn new() -> (r: CriteriaGroups)
        ensures
            r.wf(),
            r@ == Map::<Seq<char>, StratifiersMap>::empty(),
    {
        let r = CriteriaGroups { entries: Vec::new(), model: Ghost(Map::empty()) };
        assert(key_set(r.entries@) =~= Set::<Seq<char>>::empty());
        r
    }

    /// The number of keys.
    pub fn len(&self) -> (r: usize)
        requires
            self.wf(),
        ensures
            r == self@.len(),
    {
        proof {
            crate::keyed::lemma_unique_keys_len(self.entries@);
        }
        self.entries.len()
    }

    /// The stratifiers under a key, if present.
    pub fn get(&self, k: &String) -> (r: Option<&CriteriaGroup>)
        requires
            self.wf(),
        ensures
            match r {
                Some(v) => self@.contains_key(k@) && v.wf() && self@[k@] == v@,
                None => !self@.contains_key(k@),
            },
    {
        match find_key(&self.entries, k) {
            Some(i) => {
                assert(self.entries@[i as int].1.wf());
                Some(&self.entries[i].1)
            },
            None => None,
        }
    }

    /// The keys, each once, in no particular order.
    pub fn keys(&self) -> (r: Vec<String>)
        requires
            self.wf(),
        ensures
            r@.len() == self@.len(),
            forall|i: int| 0 <= i < r@.len() ==> self@.contains_key(#[trigger] r@[i]@),
            forall|i: int, j: int|
                0 <= i < r@.len() && 0 <= j < r@.len() && i != j ==> #[trigger] r@[i]@ != #[trigger] r@[j]@,
    {
        proof {
            crate::keyed::lemma_unique_keys_len(self.entries@);
        }
        let mut r: Vec<String> = Vec::new();
        let mut i: usize = 0;
        while i < self.entries.len()
            invariant
                self.wf(),
                i <= self.entries@.len(),
                r@.len() == i,
                forall|j: int| 0 <= j < i ==> (#[trigger] r@[j])@ == self.entries@[j].0@,
            decreases self.entries@.len() - i,
        {
            let k = self.entries[i].0.clone();
            r.push(k);
            i = i + 1;
        }
        assert forall|j: int| 0 <= j < r@.len() implies self@.contains_key(#[trigger] r@[j]@) by {
            assert(key_set(self.entries@).contains(self.entries@[j].0@));
        }
        assert forall|a: int, b: int|
            0 <= a < r@.len() && 0 <= b < r@.len() && a != b implies #[trigger] r@[a]@ != #[trigger] r@[b]@ by {
            assert(self.entries@[a].0@ != self.entries@[b].0@);
        }
        r
    }

    /// Sets the stratifiers under a key, replacing any earlier value.
    pub fn insert(&mut self, k: String, v: CriteriaGroup)
        requires
            old(self).wf(),
            v.wf(),
        ensures
            final(self).wf(),
            final(self)@ == old(self)@.insert(k@, v@),
    {
        let ghost m = self.model@;
        let ghost kv = k@;
        let ghost vv = v@;
        match find_key(&self.entries, &k) {
            Some(i) => {
                let ghost e0 = self.entries@;
                self.entries.set(i, (k, v));
                self.model = Ghost(m.insert(kv, vv));
                proof {
                    assert(key_set(self.entries@) =~= self.model@.dom()) by {
                        assert forall|x: Seq<char>| #[trigger] self.model@.dom().contains(x)
                            implies key_set(self.entries@).contains(x) by {
                            if x == kv {
                                assert(self.entries@[i as int].0@ == x);
                            } else {
                                assert(key_set(e0).contains(x));
                                let j = choose|j: int| 0 <= j < e0.len() && #[trigger] e0[j].0@ == x;
                                assert(self.entries@[j].0@ == x);
                            }
                        }
                        assert forall|x: Seq<char>| #[trigger] key_set(self.entries@).contains(x)
                            implies self.model@.dom().contains(x) by {
                            let j = choose|j: int|
                                0 <= j < self.entries@.len() && #[trigger] self.entries@[j].0@ == x;
                            if j != i {
                                assert(e0[j].0@ == x);
                            }
                        }
                    }
                    assert forall|j: int| 0 <= j < self.entries@.len() implies (#[trigger] self.entries@[j]).1.wf()
                        && self.model@[self.entries@[j].0@] == self.entries@[j].1@ by {
                        if j != i {
                            assert(e0[j].0@ != e0[i as int].0@);
                            assert(e0[j] == self.entries@[j]);
                        }
                    }
                }
            },
            None => {
                let ghost e0 = self.entries@;
                self.entries.push((k, v));
                self.model = Ghost(m.insert(kv, vv));
                proof {
                    let n = e0.len() as int;
                    assert(self.entries@.subrange(0, n) =~= e0);
                    lemma_key_set_prefix(self.entries@, n);
                    lemma_key_set_full(self.entries@);
                    assert(key_set(self.entries@) =~= self.model@.dom());
                    assert forall|a: int, b: int|
                        0 <= a < self.entries@.len() && 0 <= b < self.entries@.len() && a != b
                            implies #[trigger] self.entries@[a].0@ != #[trigger] self.entries@[b].0@ by {
                        if a == n {
                            assert(key_set(e0).contains(e0[b].0@));
                        } else if b == n {
                            assert(key_set(e0).contains(e0[a].0@));
                        }
                    }
                    assert forall|j: int| 0 <= j < self.entries@.len() implies (#[trigger] self.entries@[j]).1.wf()
                        && self.model@[self.entries@[j].0@] == self.entries@[j].1@ by {
                        if j != n {
                            assert(key_set(e0).contains(e0[j].0@));
                            assert(e0[j] == self.entries@[j]);
                        }
                    }
                }
            },
        }
    }

    /// A copy with the same contents.
    pub fn duplicate(&self) -> (r: CriteriaGroups)
        requires
            self.wf(),
        ensures
            r.wf(),
            r@ == self@,
    {
        let mut r: Vec<(String, CriteriaGroup)> = Vec::new();
        let mut i: usize = 0;
        while i < self.entries.len()
            invariant
                self.wf(),
                i <= self.entries@.len(),
                r@.len() == i,
                forall|j: int| 0 <= j < i ==> (#[trigger] r@[j]).0@ == self.entries@[j].0@
                    && r@[j].1.wf() && r@[j].1@ == self.entries@[j].1@,
            decreases self.entries@.len() - i,
        {
            let k = self.entries[i].0.clone();
            assert(self.entries@[i as int].1.wf());
            let v = self.entries[i].1.duplicate();
            r.push((k, v));
            i = i + 1;
        }
        let out = CriteriaGroups { entries: r, model: Ghost(self@) };
        proof {
            assert forall|a: int, b: int|
                0 <= a < out.entries@.len() && 0 <= b < out.entries@.len() && a != b
                    implies #[trigger] out.entries@[a].0@ != #[trigger] out.entries@[b].0@ by {
                assert(self.entries@[a].0@ != self.entries@[b].0@);
            }
            assert forall|x: Seq<char>| #[trigger] key_set(out.entries@).contains(x)
                == key_set(self.entries@).contains(x) by {
                if key_set(out.entries@).contains(x) {
                    let j = choose|j: int| 0 <= j < out.entries@.len() && #[trigger] out.entries@[j].0@ == x;
                    assert(self.entries@[j].0@ == x);
                }
                if key_set(self.entries@).contains(x) {
                    let j = choose|j: int| 0 <= j < self.entries@.len() && #[trigger] self.entries@[j].0@ == x;
                    assert(out.entries@[j].0@ == x);
                }
            }
            assert(key_set(out.entries@) =~= key_set(self.entries@));
            assert forall|j: int| 0 <= j < out.entries@.len() implies (#[trigger] out.entries@[j]).1.wf()
                && out.model@[out.entries@[j].0@] == out.entries@[j].1@ by {
                assert(self.entries@[j].1.wf());
            }
        }
        out
    }
}

/// Adding a new key to one side adds it to the combination.
proof fn lemma_combine_groups_insert(a: GroupsMap, r: GroupsMap, k: Seq<char>, v: StratifiersMap)
    requires
        !r.contains_key(k),
    ensures
        combine_groups(a, r.insert(k, v)) == combine_groups(a, r).insert(k, combine_stratifiers(stratifiers_at(a, k), v)),
{
    assert(combine_groups(a, r.insert(k, v)) =~= combine_groups(a, r).insert(k, combine_stratifiers(stratifiers_at(a, k), v)));
}

/// Combines two groups of stratifiers: union of group names, the stratifiers under a shared name combined.
pub fn combine_groups_of_criteria_groups(groups1: CriteriaGroups, groups2: CriteriaGroups) -> (r: CriteriaGroups)
    requires
        groups1.wf(),
        groups2.wf(),
        groups_fit(groups1@, groups2@),
    ensures
        r.wf(),
        r@ == combine_groups(groups1@, groups2@),
{
    let mut combined = groups1;
    let ghost e2 = groups2.entries@;
    proof {
        lemma_key_set_empty(e2);
        assert(groups2@.restrict(Set::<Seq<char>>::empty()) =~= Map::<Seq<char>, StratifiersMap>::empty());
        assert forall|k: Seq<char>| groups1@.contains_key(k) implies #[trigger] combine_stratifiers(groups1@[k], Map::empty()) == groups1@[k] by {
            lemma_combine_stratifiers_empty(groups1@[k]);
        }
        assert(combine_groups(groups1@, Map::<Seq<char>, StratifiersMap>::empty()) =~= groups1@);
    }
    let mut i: usize = 0;
    while i < groups2.entries.len()
        invariant
            groups2.wf(),
            e2 == groups2.entries@,
            groups_fit(groups1@, groups2@),
            i <= e2.len(),
            combined.wf(),
            combined@ == combine_groups(groups1@, groups2@.restrict(key_set(e2.subrange(0, i as int)))),
        decreases e2.len() - i,
    {
        let key = groups2.entries[i].0.clone();
        assert(groups2.entries@[i as int].1.wf());
        let value = groups2.entries[i].1.duplicate();
        let ghost done = key_set(e2.subrange(0, i as int));
        let ghost part = groups2@.restrict(done);
        proof {
            assert(!done.contains(key@)) by {
                if done.contains(key@) {
                    let t = e2.subrange(0, i as int);
                    let j = choose|j: int| 0 <= j < t.len() && #[trigger] t[j].0@ == key@;
                    assert(e2[j].0@ == e2[i as int].0@);
                }
            }
            assert(groups2@[key@] == value@);
            assert(stratifiers_fit(stratifiers_at(groups1@, key@), stratifiers_at(groups2@, key@)));
        }
        let ghost before = combined@;
        match combined.get(&key) {
            Some(existing) => {
                proof {
                    lemma_combine_stratifiers_empty(stratifiers_at(groups1@, key@));
                }
                let merged = combine_criteria_groups(existing.duplicate(), value);
                combined.insert(key, merged);
            },
            None => {
                proof {
                    lemma_combine_stratifiers_empty(value@);
                }
                combined.insert(key, value);
            },
        }
        proof {
            lemma_key_set_prefix(e2, i as int);
            assert(groups2@.restrict(done.insert(key@)) =~= part.insert(key@, groups2@[key@]));
            lemma_combine_groups_insert(groups1@, part, key@, groups2@[key@]);
        }
        i = i + 1;
    }
    proof {
        lemma_key_set_full(e2);
        assert(groups2@.restrict(groups2@.dom()) =~= groups2@);
    }
    combined
}

/// Commutativity of `combine_groups`.
pub proof fn lemma_combine_groups_commutative(a: GroupsMap, b: GroupsMap)
    ensures
        combine_groups(a, b) == combine_groups(b, a),
{
    assert forall|k: Seq<char>| #[trigger] combine_stratifiers(stratifiers_at(a, k), stratifiers_at(b, k)) == combine_stratifiers(stratifiers_at(b, k), stratifiers_at(a, k)) by {
        lemma_combine_stratifiers_commutative(stratifiers_at(a, k), stratifiers_at(b, k));
    }
    assert(combine_groups(a, b) =~= combine_groups(b, a));
}

/// Associativity of `combine_groups`.
pub proof fn lemma_combine_groups_associative(a: GroupsMap, b: GroupsMap, c: GroupsMap)
    ensures
        combine_groups(a, combine_groups(b, c)) == combine_groups(combine_groups(a, b), c),
{
    let l = combine_groups(a, combine_groups(b, c));
    let r = combine_groups(combine_groups(a, b), c);
    assert forall|k: Seq<char>| l.contains_key(k) implies #[trigger] l[k] == r[k] by {
        lemma_combine_stratifiers_empty(Map::empty());
        lemma_combine_stratifiers_associative(stratifiers_at(a, k), stratifiers_at(b, k), stratifiers_at(c, k));
    }
    assert(l =~= r);
}

/// The empty map is a neutral element of `combine_groups`, on either side.
pub proof fn lemma_combine_groups_empty(a: GroupsMap)
    ensures
        combine_groups(a, Map::empty()) == a,
        combine_groups(Map::empty(), a) == a,
{
    assert forall|k: Seq<char>| a.contains_key(k) implies #[trigger] combine_stratifiers(a[k], Map::empty()) == a[k]
        && combine_stratifiers(Map::empty(), a[k]) == a[k] by {
        lemma_combine_stratifiers_empty(a[k]);
    }
    assert(combine_groups(a, Map::empty()) =~= a);
    assert(combine_groups(Map::empty(), a) =~= a);
}

/// Combining groups of stratifiers does not depend on the order of the two sides.
pub proof fn law_combine_groups_commutative(a: CriteriaGroups, b: CriteriaGroups)
    requires
        a.wf(),
        b.wf(),
    ensures
        combine_groups(a@, b@) == combine_groups(b@, a@),
{
    lemma_combine_groups_commutative(a@, b@);
}

/// Combining groups of stratifiers does not depend on how three sides are grouped.
pub proof fn law_combine_groups_associative(a: CriteriaGroups, b: CriteriaGroups, c: CriteriaGroups)
    requires
        a.wf(),
        b.wf(),
        c.wf(),
    ensures
        combine_groups(a@, combine_groups(b@, c@)) == combine_groups(combine_groups(a@, b@), c@),
{
    lemma_combine_groups_associative(a@, b@, c@);
}

/// Combining with an empty map gives the groups of stratifiers back unchanged.
pub proof fn law_combine_groups_identity(a: CriteriaGroups)
    requires
        a.wf(),
    ensures
        combine_groups(a@, Map::empty()) == a@,
        combine_groups(Map::empty(), a@) == a@,
{
    lemma_combine_groups_empty(a@);
}

/// The stratifiers of one site.
pub type Stratifiers = CriteriaGroup;


impl Criteria {
    /// Whether adding `other`'s counts to these would keep every sum in a `u64`.
    pub fn fits_with(&self, other: &Criteria) -> (r: bool)
        requires
            self.wf(),
            other.wf(),
        ensures
            r == counts_fit(self@, other@),
    {
        proof {
            self.lemma_counts_bounded();
            other.lemma_counts_bounded();
        }
        let mut i: usize = 0;
        while i < other.entries.len()
            invariant
                self.wf(),
                other.wf(),
                i <= other.entries@.len(),
                forall|j: int|
                    0 <= j < i ==> #[trigger] count_of(self@, other.entries@[j].0@) + other.entries@[j].1
                        <= u64::MAX,
            decreases other.entries@.len() - i,
        {
            let k = &other.entries[i].0;
            let v = other.entries[i].1;
            match self.get(k) {
                Some(c) => {
                    if c > u64::MAX - v {
                        proof {
                            assert(other@[other.entries@[i as int].0@] == v as nat);
                            assert(count_of(self@, k@) + count_of(other@, k@) > u64::MAX);
                        }
                        return false;
                    }
                },
                None => {},
            }
            i = i + 1;
        }
        proof {
            assert forall|k: Seq<char>| #[trigger] count_of(self@, k) + count_of(other@, k) <= u64::MAX by {
                if other@.contains_key(k) {
                    assert(key_set(other.entries@).contains(k));
                    let j = choose|j: int| 0 <= j < other.entries@.len() && #[trigger] other.entries@[j].0@ == k;
                    assert(other@[other.entries@[j].0@] == other.entries@[j].1 as nat);
                    assert(count_of(self@, other.entries@[j].0@) + other.entries@[j].1 <= u64::MAX);
                }
            }
        }
        true
    }
}

impl CriteriaGroup {
    /// Every count of well-formed stratifiers fits in a `u64`.
    pub proof fn lemma_counts_bounded(&self)
        requires
            self.wf(),
        ensures
            forall|k1: Seq<char>, k2: Seq<char>| #[trigger] count_of(counts_at(self@, k1), k2) <= u64::MAX,
    {
        assert forall|k1: Seq<char>, k2: Seq<char>| #[trigger] count_of(counts_at(self@, k1), k2) <= u64::MAX by {
            if self@.contains_key(k1) {
                assert(key_set(self.entries@).contains(k1));
                let j = choose|j: int| 0 <= j < self.entries@.len() && #[trigger] self.entries@[j].0@ == k1;
                assert(self.entries@[j].1.wf());
                self.entries@[j].1.lemma_counts_bounded();
            }
        }
    }
}


impl CriteriaGroup {
    /// Whether combining `other` into these stratifiers keeps every count in a `u64`.
    pub fn fits_with(&self, other: &CriteriaGroup) -> (r: bool)
        requires
            self.wf(),
            other.wf(),
        ensures
            r == stratifiers_fit(self@, other@),
    {
        proof {
            self.lemma_counts_bounded();
            other.lemma_counts_bounded();
        }
        let mut i: usize = 0;
        while i < other.entries.len()
            invariant
                self.wf(),
                other.wf(),
                i <= other.entries@.len(),
                forall|j: int|
                    0 <= j < i ==> #[trigger] counts_fit(
                        counts_at(self@, other.entries@[j].0@),
                        counts_at(other@, other.entries@[j].0@),
                    ),
            decreases other.entries@.len() - i,
        {
            let k = &other.entries[i].0;
            assert(other.entries@[i as int].1.wf());
            match self.get(k) {
                Some(c) => {
                    if !c.fits_with(&other.entries[i].1) {
                        proof {
                            let kk = other.entries@[i as int].0@;
                            assert(key_set(other.entries@).contains(kk));
                            assert(counts_at(other@, kk) == other.entries@[i as int].1@);
                            assert(!counts_fit(counts_at(self@, kk), counts_at(other@, kk)));
                        }
                        return false;
                    }
                },
                None => {
                    proof {
                        other.entries@[i as int].1.lemma_counts_bounded();
                        assert(counts_fit(Map::empty(), other.entries@[i as int].1@));
                    }
                },
            }
            i = i + 1;
        }
        proof {
            assert forall|k: Seq<char>| #[trigger] counts_fit(counts_at(self@, k), counts_at(other@, k)) by {
                if other@.contains_key(k) {
                    assert(key_set(other.entries@).contains(k));
                    let j = choose|j: int| 0 <= j < other.entries@.len() && #[trigger] other.entries@[j].0@ == k;
                    assert(counts_fit(counts_at(self@, other.entries@[j].0@), counts_at(other@, other.entries@[j].0@)));
                } else {
                    assert(counts_at(other@, k) == Map::<Seq<char>, nat>::empty());
                    assert forall|x: Seq<char>| #[trigger] count_of(counts_at(self@, k), x) + count_of(counts_at(other@, k), x) <= u64::MAX by {
                        assert(count_of(counts_at(self@, k), x) <= u64::MAX);
                    }
                }
            }
        }
        true
    }
}

} // verus!
