//! Broker addresses and site lists: plain string work on characters.
use vstd::prelude::*;

verus! {

/// Relies on `str::chars` collected into a `Vec`: the characters of the string, in order.
#[verifier::external_body]
pub(crate) fn chars_of(s: &str) -> (r: Vec<char>)
    ensures
        r@ == s@,
{
    s.chars().collect()
}

/// Relies on `String`'s `FromIterator<char>`: the string made of these characters.
#[verifier::external_body]
pub(crate) fn string_of(cs: &Vec<char>) -> (r: String)
    ensures
        r@ == cs@,
{
    cs.iter().collect()
}

/// `c` does not occur in `s`.
pub open spec fn lacks(s: Seq<char>, c: char) -> bool {
    forall|i: int| 0 <= i < s.len() ==> s[i] != c
}

/// `i` is the first position of `c` in `s`.
pub open spec fn first_at(s: Seq<char>, c: char, i: int) -> bool {
    0 <= i < s.len() && s[i] == c && lacks(s.subrange(0, i), c)
}

/// The pieces joined, with `c` between each two.
pub open spec fn join_with(pieces: Seq<Seq<char>>, c: char) -> Seq<char>
    decreases pieces.len(),
{
    if pieces.len() == 0 {
        Seq::empty()
    } else if pieces.len() == 1 {
        pieces[0]
    } else {
        join_with(pieces.drop_last(), c) + seq![c] + pieces.last()
    }
}

/// The position of the first `c` in `cs` at or after `from`, if any.
fn find_char(cs: &Vec<char>, c: char, from: usize) -> (r: Option<usize>)
    requires
        from <= cs@.len(),
    ensures
        match r {
            Some(i) => from <= i < cs@.len() && cs@[i as int] == c && lacks(cs@.subrange(from as int, i as int), c),
            None => lacks(cs@.subrange(from as int, cs@.len() as int), c),
        },
{
    let mut i: usize = from;
    while i < cs.len()
        invariant
            from <= i <= cs@.len(),
            lacks(cs@.subrange(from as int, i as int), c),
        decreases cs@.len() - i,
    {
        if cs[i] == c {
            return Some(i);
        }
        assert(cs@.subrange(from as int, i + 1) =~= cs@.subrange(from as int, i as int).push(cs@[i as int]));
        i = i + 1;
    }
    None
}

/// The characters of `cs` from `a` up to `b`, as a string.
fn piece(cs: &Vec<char>, a: usize, b: usize) -> (r: String)
    requires
        a <= b <= cs@.len(),
    ensures
        r@ == cs@.subrange(a as int, b as int),
{
    let mut v: Vec<char> = Vec::new();
    let mut i: usize = a;
    while i < b
        invariant
            a <= i <= b,
            b <= cs@.len(),
            v@ == cs@.subrange(a as int, i as int),
        decreases b - i,
    {
        v.push(cs[i]);
        assert(v@ =~= cs@.subrange(a as int, i + 1));
        i = i + 1;
    }
    string_of(&v)
}

/// What follows the first `c` in `s`; `None` where `s` has no `c`.
pub open spec fn after_first(s: Seq<char>, c: char) -> Option<Seq<char>> {
    if lacks(s, c) {
        None
    } else {
        let i = choose|i: int| first_at(s, c, i);
        Some(s.subrange(i + 1, s.len() as int))
    }
}

/// The broker's domain in an application address `<app>.<proxy>.<domain>`:
/// what follows the first `.` of what follows the first `.`.
pub open spec fn domain_of(app_id: Seq<char>) -> Option<Seq<char>> {
    match after_first(app_id, '.') {
        Some(proxy) => after_first(proxy, '.'),
        None => None,
    }
}

/// A character has at most one first position.
proof fn lemma_first_at_unique(s: Seq<char>, c: char, i: int, j: int)
    requires
        first_at(s, c, i),
        first_at(s, c, j),
    ensures
        i == j,
{
    if i < j {
        assert(s.subrange(0, j)[i] == c);
    } else if j < i {
        assert(s.subrange(0, i)[j] == c);
    }
}

/// What follows the first `.` of an address; `None` where it has no `.`.
pub fn after_first_dot(s: &str) -> (r: Option<String>)
    ensures
        match r {
            Some(d) => after_first(s@, '.') == Some(d@),
            None => after_first(s@, '.') is None,
        },
{
    let cs = chars_of(s);
    let n = cs.len();
    match find_char(&cs, '.', 0) {
        Some(i) => {
            let d = piece(&cs, i + 1, n);
            proof {
                assert(cs@.subrange(0, i as int) =~= cs@.subrange(0, i as int));
                assert(first_at(s@, '.', i as int));
                assert(!lacks(s@, '.'));
                let k = choose|k: int| first_at(s@, '.', k);
                lemma_first_at_unique(s@, '.', i as int, k);
            }
            Some(d)
        },
        None => {
            assert(cs@.subrange(0, cs@.len() as int) =~= cs@);
            None
        },
    }
}

/// The broker's domain in this service's application address
/// `<app>.<proxy>.<domain>`; `None` where the address has fewer than two `.`.
pub fn broker_domain(app_id: &str) -> (r: Option<String>)
    ensures
        match r {
            Some(d) => domain_of(app_id@) == Some(d@),
            None => domain_of(app_id@) is None,
        },
{
    match after_first_dot(app_id) {
        Some(proxy) => after_first_dot(proxy.as_str()),
        None => None,
    }
}

/// The site in an application address `<app>.<site>.<domain>`: the part
/// between its first and second `.`, or after the first `.` where there is
/// no second. `None` where the address has no `.`.
pub fn site_of_app_id(app_id: &str) -> (r: Option<String>)
    ensures
        match r {
            Some(site) => is_site_of(app_id@, site@),
            None => lacks(app_id@, '.'),
        },
{
    let cs = chars_of(app_id);
    let n = cs.len();
    match find_char(&cs, '.', 0) {
        Some(i) => {
            assert(first_at(app_id@, '.', i as int));
            match find_char(&cs, '.', i + 1) {
                Some(j) => {
                    let site = piece(&cs, i + 1, j);
                    assert(site@ == app_id@.subrange(i + 1, j as int) && lacks(site@, '.') && app_id@[j as int] == '.');
                    Some(site)
                },
                None => {
                    let site = piece(&cs, i + 1, n);
                    assert(site@ == app_id@.subrange(i + 1, n as int) && lacks(site@, '.'));
                    Some(site)
                },
            }
        },
        None => {
            assert(cs@.subrange(0, cs@.len() as int) =~= cs@);
            None
        },
    }
}

/// `site` is the second `.`-separated part of the address `app_id`.
pub open spec fn is_site_of(app_id: Seq<char>, site: Seq<char>) -> bool {
    exists|i: int, j: int|
        #![trigger first_at(app_id, '.', i), app_id.subrange(i + 1, j)]
        first_at(app_id, '.', i) && i < j <= app_id.len() && site == app_id.subrange(i + 1, j) && lacks(site, '.')
            && (j == app_id.len() || app_id[j] == '.')
}

/// The address of an application at a site: `<app>.<site>.<domain>`.
pub fn site_address(app: &str, site: &str, domain: &str) -> (r: String)
    ensures
        r@ == app@ + seq!['.'] + site@ + seq!['.'] + domain@,
{
    let mut v = chars_of(app);
    v.push('.');
    let mut s = chars_of(site);
    v.append(&mut s);
    v.push('.');
    let mut d = chars_of(domain);
    v.append(&mut d);
    string_of(&v)
}

/// Splits `s` at every `c`: the pieces, joined with `c`, give `s` back, and
/// none holds a `c`. Empty pieces are kept.
pub fn split_on(s: &str, c: char) -> (r: Vec<String>)
    ensures
        r@.len() >= 1,
        join_with(r@.map_values(|p: String| p@), c) == s@,
        forall|k: int| 0 <= k < r@.len() ==> lacks(#[trigger] r@[k]@, c),
{
    let cs = chars_of(s);
    let n = cs.len();
    let mut r: Vec<String> = Vec::new();
    let mut start: usize = 0;
    loop
        invariant
            n == cs@.len(),
            start <= cs@.len(),
            cs@ == s@,
            r@.len() == 0 ==> start == 0,
            r@.len() > 0 ==> join_with(r@.map_values(|p: String| p@), c) + seq![c] == cs@.subrange(0, start as int),
            forall|k: int| 0 <= k < r@.len() ==> lacks(#[trigger] r@[k]@, c),
        decreases cs@.len() - start,
    {
        let ghost old_r = r@;
        match find_char(&cs, c, start) {
            Some(i) => {
                let p = piece(&cs, start, i);
                r.push(p);
                proof {
                    let m = r@.map_values(|p: String| p@);
                    assert(m.drop_last() =~= old_r.map_values(|p: String| p@));
                    if old_r.len() == 0 {
                        assert(join_with(m, c) == m[0]);
                        assert(cs@.subrange(0, i + 1) =~= cs@.subrange(0, i as int) + seq![c]);
                    } else {
                        assert(cs@.subrange(0, i + 1) =~= cs@.subrange(0, start as int) + cs@.subrange(start as int, i as int) + seq![c]);
                    }
                    assert(join_with(m, c) + seq![c] =~= cs@.subrange(0, i + 1));
                }
                start = i + 1;
            },
            None => {
                let p = piece(&cs, start, cs.len());
                r.push(p);
                proof {
                    let m = r@.map_values(|p: String| p@);
                    assert(m.drop_last() =~= old_r.map_values(|p: String| p@));
                    if old_r.len() == 0 {
                        assert(join_with(m, c) == m[0]);
                        assert(cs@.subrange(0, cs@.len() as int) =~= cs@);
                    } else {
                        assert(cs@ =~= cs@.subrange(0, start as int) + cs@.subrange(start as int, cs@.len() as int));
                    }
                    assert(join_with(m, c) =~= cs@);
                }
                return r;
            },
        }
    }
}

} // verus!
