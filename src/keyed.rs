//! Association lists keyed by strings, with unique keys.
use vstd::prelude::*;

verus! {

/// The keys of an association list, as character sequences.
pub open spec fn key_set<V>(s: Seq<(String, V)>) -> Set<Seq<char>> {
    Set::new(|k: Seq<char>| exists|j: int| 0 <= j < s.len() && #[trigger] s[j].0@ == k)
}

/// No key occurs twice in the list.
pub open spec fn keys_unique<V>(s: Seq<(String, V)>) -> bool {
    forall|i: int, j: int|
        0 <= i < s.len() && 0 <= j < s.len() && i != j ==> #[trigger] s[i].0@ != #[trigger] s[j].0@
}

/// Extending a prefix by one entry adds that entry's key.
pub proof fn lemma_key_set_prefix<V>(s: Seq<(String, V)>, i: int)
    requires
        0 <= i < s.len(),
    ensures
        key_set(s.subrange(0, i + 1)) == key_set(s.subrange(0, i)).insert(s[i].0@),
{
    let a = s.subrange(0, i + 1);
    let b = s.subrange(0, i);
    assert forall|k: Seq<char>| key_set(a).contains(k) implies #[trigger] key_set(b).insert(
        s[i].0@,
    ).contains(k) by {
        let j = choose|j: int| 0 <= j < a.len() && #[trigger] a[j].0@ == k;
        if j < i {
            assert(b[j].0@ == k);
        }
    }
    assert forall|k: Seq<char>| #[trigger] key_set(b).insert(s[i].0@).contains(k) implies key_set(
        a,
    ).contains(k) by {
        if k == s[i].0@ {
            assert(a[i].0@ == k);
        } else {
            let j = choose|j: int| 0 <= j < b.len() && #[trigger] b[j].0@ == k;
            assert(a[j].0@ == k);
        }
    }
    assert(key_set(a) =~= key_set(b).insert(s[i].0@));
}

/// The whole list is its own longest prefix.
pub proof fn lemma_key_set_full<V>(s: Seq<(String, V)>)
    ensures
        key_set(s.subrange(0, s.len() as int)) == key_set(s),
{
    assert(s.subrange(0, s.len() as int) =~= s);
}

/// The empty prefix has no keys.
pub proof fn lemma_key_set_empty<V>(s: Seq<(String, V)>)
    ensures
        key_set(s.subrange(0, 0)) == Set::<Seq<char>>::empty(),
{
    assert(key_set(s.subrange(0, 0)) =~= Set::<Seq<char>>::empty());
}

/// With unique keys, the list is as long as its key set.
pub proof fn lemma_unique_keys_len<V>(s: Seq<(String, V)>)
    requires
        keys_unique(s),
    ensures
        key_set(s).len() == s.len(),
        key_set(s).finite(),
    decreases s.len(),
{
    if s.len() == 0 {
        lemma_key_set_empty(s);
        assert(s.subrange(0, 0) =~= s);
    } else {
        let n = s.len() - 1;
        let t = s.subrange(0, n);
        assert(keys_unique(t)) by {
            assert forall|i: int, j: int|
                0 <= i < t.len() && 0 <= j < t.len() && i != j implies #[trigger] t[i].0@
                != #[trigger] t[j].0@ by {
                assert(s[i].0@ != s[j].0@);
            }
        }
        lemma_unique_keys_len(t);
        lemma_key_set_prefix(s, n);
        lemma_key_set_full(s);
        assert(!key_set(t).contains(s[n].0@)) by {
            if key_set(t).contains(s[n].0@) {
                let j = choose|j: int| 0 <= j < t.len() && #[trigger] t[j].0@ == s[n].0@;
                assert(s[j].0@ == s[n].0@);
            }
        }
    }
}

/// Finds the position of a key in an association list.
pub fn find_key<V>(entries: &Vec<(String, V)>, k: &String) -> (r: Option<usize>)
    ensures
        match r {
            Some(i) => i < entries@.len() && entries@[i as int].0@ == k@,
            None => !key_set(entries@).contains(k@),
        },
{
    let mut i: usize = 0;
    while i < entries.len()
        invariant
            i <= entries@.len(),
            forall|j: int| 0 <= j < i ==> #[trigger] entries@[j].0@ != k@,
        decreases entries@.len() - i,
    {
        if entries[i].0 == *k {
            return Some(i);
        }
        i = i + 1;
    }
    proof {
        assert(!key_set(entries@).contains(k@)) by {
            if key_set(entries@).contains(k@) {
                let j = choose|j: int| 0 <= j < entries@.len() && #[trigger] entries@[j].0@ == k@;
                assert(entries@[j].0@ != k@);
            }
        }
    }
    None
}

} // verus!
