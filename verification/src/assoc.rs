//! Association lists keyed by strings: the ordered maps of the schema
//! description and the keyed tables of the schema cache.

use vstd::prelude::*;
use crate::text::{str_lt, str_less, lemma_str_lt_transitive};

verus! {

/// The value stored under `k`: that of the first entry whose key reads `k`.
pub open spec fn lookup<V>(s: Seq<(String, V)>, k: Seq<char>) -> Option<V>
    decreases s.len(),
{
    if s.len() == 0 {
        None
    } else if s[0].0@ == k {
        Some(s[0].1)
    } else {
        lookup(s.drop_first(), k)
    }
}

/// No key occurs twice.
pub open spec fn keys_unique<V>(s: Seq<(String, V)>) -> bool {
    forall|i: int, j: int| 0 <= i < j < s.len() ==> s[i].0@ != s[j].0@
}

/// The keys, in order.
pub open spec fn keys<V>(s: Seq<(String, V)>) -> Seq<Seq<char>> {
    s.map_values(|e: (String, V)| e.0@)
}

/// `lookup` finds the first entry with the key, and only it.
pub proof fn lemma_lookup_index<V>(s: Seq<(String, V)>, k: Seq<char>, i: int)
    requires
        0 <= i < s.len(),
        s[i].0@ == k,
        forall|j: int| 0 <= j < i ==> s[j].0@ != k,
    ensures
        lookup(s, k) == Some(s[i].1),
    decreases i,
{
    if i > 0 {
        lemma_lookup_index(s.drop_first(), k, i - 1);
    }
}

/// `lookup` finds nothing where no key reads `k`.
pub proof fn lemma_lookup_none<V>(s: Seq<(String, V)>, k: Seq<char>)
    requires
        forall|j: int| 0 <= j < s.len() ==> s[j].0@ != k,
    ensures
        lookup(s, k) is None,
    decreases s.len(),
{
    if s.len() > 0 {
        lemma_lookup_none(s.drop_first(), k);
    }
}

/// Where `lookup` finds something, some entry carries the key and the value.
pub proof fn lemma_lookup_some<V>(s: Seq<(String, V)>, k: Seq<char>)
    requires
        lookup(s, k) is Some,
    ensures
        exists|i: int| 0 <= i < s.len() && s[i].0@ == k && s[i].1 == lookup(s, k)->0,
    decreases s.len(),
{
    if s[0].0@ != k {
        lemma_lookup_some(s.drop_first(), k);
        let i = choose|i: int| 0 <= i < s.drop_first().len() && s.drop_first()[i].0@ == k
            && s.drop_first()[i].1 == lookup(s.drop_first(), k)->0;
        assert(s[i + 1] == s.drop_first()[i]);
    }
}

/// Appending an entry whose key is new makes it found, and changes no other key.
pub proof fn lemma_lookup_push<V>(s: Seq<(String, V)>, e: (String, V), k: Seq<char>)
    requires
        lookup(s, e.0@) is None,
    ensures
        lookup(s.push(e), k) == if k == e.0@ { Some(e.1) } else { lookup(s, k) },
    decreases s.len(),
{
    let t = s.push(e);
    if s.len() == 0 {
        assert(t.drop_first() == Seq::<(String, V)>::empty());
        assert(t[0] == e);
        if k == e.0@ {
            assert(lookup(t, k) == Some(e.1));
        } else {
            assert(lookup(t.drop_first(), k) is None);
            assert(lookup(t, k) is None);
        }
    } else {
        assert(t.drop_first() == s.drop_first().push(e));
        assert(t[0] == s[0]);
        assert(s[0].0@ != e.0@);
        if s[0].0@ != k {
            assert(lookup(s.drop_first(), e.0@) is None);
            lemma_lookup_push(s.drop_first(), e, k);
            assert(lookup(t, k) == lookup(t.drop_first(), k));
        } else {
            assert(lookup(t, k) == Some(s[0].1));
        }
    }
}

/// Replacing the value of the first entry with key `k` changes what `k` finds, and nothing else.
pub proof fn lemma_lookup_update<V>(s: Seq<(String, V)>, i: int, v: V, k: Seq<char>)
    requires
        0 <= i < s.len(),
        forall|j: int| 0 <= j < i ==> s[j].0@ != s[i].0@,
    ensures
        lookup(s.update(i, (s[i].0, v)), k) == if k == s[i].0@ { Some(v) } else { lookup(s, k) },
    decreases i,
{
    let t = s.update(i, (s[i].0, v));
    if i == 0 {
        assert(t.drop_first() == s.drop_first());
    } else {
        assert(t.drop_first() == s.drop_first().update(i - 1, (s[i].0, v)));
        assert(s.drop_first()[i - 1] == s[i]);
        lemma_lookup_update(s.drop_first(), i - 1, v, k);
    }
}

/// The index of the first entry whose key reads `k`, if there is one.
pub fn find_index<V>(v: &Vec<(String, V)>, k: &String) -> (r: Option<usize>)
    ensures
        match r {
            Some(i) => {
                &&& i < v.len()
                &&& v@[i as int].0@ == k@
                &&& forall|j: int| 0 <= j < i ==> v@[j].0@ != k@
                &&& lookup(v@, k@) == Some(v@[i as int].1)
            },
            None => {
                &&& forall|j: int| 0 <= j < v.len() ==> v@[j].0@ != k@
                &&& lookup(v@, k@) is None
            },
        },
{
    let mut i: usize = 0;
    while i < v.len()
        invariant
            i <= v.len(),
            forall|j: int| 0 <= j < i ==> v@[j].0@ != k@,
        decreases v.len() - i,
    {
        if v[i].0 == *k {
            proof {
                lemma_lookup_index(v@, k@, i as int);
            }
            return Some(i);
        }
        i = i + 1;
    }
    proof {
        lemma_lookup_none(v@, k@);
    }
    None
}

/// The map that the entries stand for: each key to what `lookup` finds under it.
pub open spec fn as_map<V>(s: Seq<(String, V)>) -> Map<Seq<char>, V> {
    Map::new(|k: Seq<char>| lookup(s, k) is Some, |k: Seq<char>| lookup(s, k)->0)
}

/// Stores `x` under `k`: replaces the value of the entry with key `k`, or
/// appends a new entry where there is none. Entries keep their places.
pub fn assoc_insert<V>(v: &mut Vec<(String, V)>, k: String, x: V)
    ensures
        forall|q: Seq<char>| #[trigger] lookup(final(v)@, q) == if q == k@ { Some(x) } else { lookup(old(v)@, q) },
        as_map(final(v)@) == as_map(old(v)@).insert(k@, x),
        keys_unique(old(v)@) ==> keys_unique(final(v)@),
        keys(final(v)@) == if lookup(old(v)@, k@) is Some { keys(old(v)@) } else { keys(old(v)@).push(k@) },
{
    let ghost kv = k@;
    match find_index(v, &k) {
        Some(i) => {
            let ghost s = v@;
            let (name, _) = v.remove(i);
            v.insert(i, (name, x));
            proof {
                assert(v@ == s.update(i as int, (s[i as int].0, x)));
                assert forall|q: Seq<char>| #[trigger] lookup(v@, q) == if q == kv { Some(x) } else { lookup(s, q) } by {
                    lemma_lookup_update(s, i as int, x, q);
                }
                assert(keys(v@) =~= keys(s));
            }
        },
        None => {
            let ghost s = v@;
            v.push((k, x));
            proof {
                assert forall|q: Seq<char>| #[trigger] lookup(v@, q) == if q == kv { Some(x) } else { lookup(s, q) } by {
                    lemma_lookup_push(s, (k, x), q);
                }
                assert(keys(v@) =~= keys(s).push(kv));
            }
        },
    }
    proof {
        assert(as_map(v@) =~= as_map(old(v)@).insert(kv, x));
    }
}

/// A reference to the value stored under `k`, if any.
pub fn assoc_get<'a, V>(v: &'a Vec<(String, V)>, k: &String) -> (r: Option<&'a V>)
    ensures
        match r {
            Some(x) => lookup(v@, k@) == Some(*x),
            None => lookup(v@, k@) is None,
        },
{
    match find_index(v, k) {
        Some(i) => Some(&v[i].1),
        None => None,
    }
}

/// The keys are strictly ascending, as those of a `BTreeMap` come out.
pub open spec fn keys_ascending<V>(s: Seq<(String, V)>) -> bool {
    forall|i: int, j: int| 0 <= i < j < s.len() ==> str_lt(#[trigger] s[i].0@, #[trigger] s[j].0@)
}

proof fn lemma_chain<V>(s: Seq<(String, V)>, i: int, j: int)
    requires
        0 <= i < j < s.len(),
        forall|k: int| 0 <= k < s.len() - 1 ==> str_lt(#[trigger] s[k].0@, s[k + 1].0@),
    ensures
        str_lt(s[i].0@, s[j].0@),
    decreases j - i,
{
    if j > i + 1 {
        lemma_chain(s, i, j - 1);
        assert(str_lt(s[j - 1].0@, s[j].0@));
        lemma_str_lt_transitive(s[i].0@, s[j - 1].0@, s[j].0@);
    }
}

/// Strictly ascending keys are distinct.
pub proof fn lemma_ascending_unique<V>(s: Seq<(String, V)>)
    requires
        keys_ascending(s),
    ensures
        keys_unique(s),
{
    assert forall|i: int, j: int| 0 <= i < j < s.len() implies s[i].0@ != s[j].0@ by {
        assert(str_lt(s[i].0@, s[j].0@));
        lemma_str_lt_irreflexive(s[i].0@);
    }
}

proof fn lemma_str_lt_irreflexive(a: Seq<char>)
    ensures
        !str_lt(a, a),
    decreases a.len(),
{
    if a.len() > 0 {
        lemma_str_lt_irreflexive(a.drop_first());
    }
}

/// Whether the keys of `v` are strictly ascending.
pub fn is_ascending<V>(v: &Vec<(String, V)>) -> (r: bool)
    ensures
        r == keys_ascending(v@),
{
    let mut i: usize = 1;
    while i < v.len()
        invariant
            1 <= i,
            forall|k: int| 0 <= k < i - 1 && k < v@.len() - 1 ==> str_lt(#[trigger] v@[k].0@, v@[k + 1].0@),
        decreases v.len() - i,
    {
        if !str_less(&v[i - 1].0, &v[i].0) {
            return false;
        }
        i = i + 1;
    }
    proof {
        assert forall|a: int, b: int| 0 <= a < b < v@.len() implies str_lt(#[trigger] v@[a].0@, #[trigger] v@[b].0@) by {
            lemma_chain(v@, a, b);
        }
    }
    true
}

} // verus!
