//! Text-keyed maps kept as vectors of `(key, value)` pairs with distinct
//! keys, viewed as mathematical maps.

use vstd::prelude::*;

use crate::text::str_eq;

verus! {

/// No key occurs twice.
pub open spec fn keys_unique<V>(s: Seq<(String, V)>) -> bool {
    forall|i: int, j: int| 0 <= i < j < s.len() ==> s[i].0@ != s[j].0@
}

/// The map the pairs stand for.
pub open spec fn to_map<V>(s: Seq<(String, V)>) -> Map<Seq<char>, V>
    decreases s.len(),
{
    if s.len() == 0 {
        Map::empty()
    } else {
        to_map(s.drop_last()).insert(s.last().0@, s.last().1)
    }
}

/// With distinct keys, the map holds exactly the pairs' keys, each with its
/// pair's value.
pub proof fn lemma_to_map_index<V>(s: Seq<(String, V)>, i: int)
    requires
        keys_unique(s),
        0 <= i < s.len(),
    ensures
        to_map(s).contains_key(s[i].0@),
        to_map(s)[s[i].0@] == s[i].1,
    decreases s.len(),
{
    if i < s.len() - 1 {
        lemma_to_map_index(s.drop_last(), i);
    }
}

/// A key no pair has is not in the map.
pub proof fn lemma_to_map_absent<V>(s: Seq<(String, V)>, k: Seq<char>)
    requires
        forall|i: int| 0 <= i < s.len() ==> #[trigger] s[i].0@ != k,
    ensures
        !to_map(s).contains_key(k),
    decreases s.len(),
{
    if s.len() > 0 {
        lemma_to_map_absent(s.drop_last(), k);
    }
}

/// Every key of the map is the key of some pair.
pub proof fn lemma_to_map_keys<V>(s: Seq<(String, V)>, k: Seq<char>)
    requires
        to_map(s).contains_key(k),
    ensures
        exists|i: int| 0 <= i < s.len() && #[trigger] s[i].0@ == k,
    decreases s.len(),
{
    if s.len() > 0 && s.last().0@ != k {
        lemma_to_map_keys(s.drop_last(), k);
        let i = choose|i: int| 0 <= i < s.drop_last().len() && #[trigger] s.drop_last()[i].0@ == k;
        assert(s[i].0@ == k);
    }
}

/// Replacing the value of an existing key.
proof fn lemma_to_map_update<V>(s: Seq<(String, V)>, i: int, p: (String, V))
    requires
        keys_unique(s),
        0 <= i < s.len(),
        p.0@ == s[i].0@,
    ensures
        to_map(s.update(i, p)) =~= to_map(s).insert(p.0@, p.1),
    decreases s.len(),
{
    let t = s.update(i, p);
    if i == s.len() - 1 {
        assert(t.drop_last() =~= s.drop_last());
    } else {
        assert(t.drop_last() =~= s.drop_last().update(i, p));
        lemma_to_map_update(s.drop_last(), i, p);
        assert(s.last().0@ != p.0@);
    }
}

/// Removing the pair of an existing key.
proof fn lemma_to_map_remove<V>(s: Seq<(String, V)>, i: int)
    requires
        keys_unique(s),
        0 <= i < s.len(),
    ensures
        to_map(s.remove(i)) =~= to_map(s).remove(s[i].0@),
    decreases s.len(),
{
    let t = s.remove(i);
    if i == s.len() - 1 {
        assert(t =~= s.drop_last());
        assert forall|j: int| 0 <= j < s.drop_last().len() implies #[trigger] s.drop_last()[j].0@
            != s[i].0@ by {
            assert(s.drop_last()[j] == s[j]);
        }
        lemma_to_map_absent(s.drop_last(), s[i].0@);
    } else {
        assert(t.drop_last() =~= s.drop_last().remove(i));
        assert(t.last() == s.last());
        lemma_to_map_remove(s.drop_last(), i);
        assert(s.last().0@ != s[i].0@);
    }
}

/// The position of key `k`, if some pair has it.
pub fn find_key<V>(m: &Vec<(String, V)>, k: &str) -> (r: Option<usize>)
    ensures
        match r {
            Some(i) => i < m@.len() && m@[i as int].0@ == k@,
            None => forall|i: int| 0 <= i < m@.len() ==> #[trigger] m@[i].0@ != k@,
        },
{
    let mut i: usize = 0;
    while i < m.len()
        invariant
            0 <= i <= m@.len(),
            forall|j: int| 0 <= j < i ==> #[trigger] m@[j].0@ != k@,
        decreases m@.len() - i,
    {
        if str_eq(m[i].0.as_str(), k) {
            return Some(i);
        }
        i = i + 1;
    }
    None
}

/// Sets key `k` to `v`, replacing any value it had.
pub fn map_insert<V>(m: &mut Vec<(String, V)>, k: String, v: V)
    requires
        keys_unique(old(m)@),
    ensures
        keys_unique(final(m)@),
        to_map(final(m)@) == to_map(old(m)@).insert(k@, v),
{
    match find_key(m, k.as_str()) {
        Some(i) => {
            proof {
                lemma_to_map_update(m@, i as int, (k, v));
            }
            m.set(i, (k, v));
        },
        None => {
            m.push((k, v));
            assert(m@.drop_last() =~= old(m)@);
        },
    }
}

/// Sets key `k` to `v` unless it already has a value.
pub fn map_insert_if_absent<V>(m: &mut Vec<(String, V)>, k: String, v: V)
    requires
        keys_unique(old(m)@),
    ensures
        keys_unique(final(m)@),
        to_map(final(m)@) == if to_map(old(m)@).contains_key(k@) {
            to_map(old(m)@)
        } else {
            to_map(old(m)@).insert(k@, v)
        },
{
    match find_key(m, k.as_str()) {
        Some(i) => {
            proof {
                lemma_to_map_index(m@, i as int);
            }
        },
        None => {
            proof {
                lemma_to_map_absent(m@, k@);
            }
            m.push((k, v));
            assert(m@.drop_last() =~= old(m)@);
        },
    }
}

/// Removes key `k`.
pub fn map_remove<V>(m: &mut Vec<(String, V)>, k: &str)
    requires
        keys_unique(old(m)@),
    ensures
        keys_unique(final(m)@),
        to_map(final(m)@) == to_map(old(m)@).remove(k@),
{
    match find_key(m, k) {
        Some(i) => {
            proof {
                lemma_to_map_remove(m@, i as int);
            }
            m.remove(i);
            assert forall|a: int, b: int| 0 <= a < b < m@.len() implies m@[a].0@ != m@[b].0@ by {
                let a0 = if a < i { a } else { a + 1 };
                let b0 = if b < i { b } else { b + 1 };
                assert(m@[a] == old(m)@[a0]);
                assert(m@[b] == old(m)@[b0]);
            }
        },
        None => {
            proof {
                lemma_to_map_absent(m@, k@);
            }
            assert(to_map(m@).remove(k@) =~= to_map(m@));
        },
    }
}

/// Removes key `k` and hands back the value it had, if any.
pub fn map_take<V>(m: &mut Vec<(String, V)>, k: &str) -> (r: Option<V>)
    requires
        keys_unique(old(m)@),
    ensures
        keys_unique(final(m)@),
        to_map(final(m)@) == to_map(old(m)@).remove(k@),
        match r {
            Some(v) => to_map(old(m)@).contains_key(k@) && to_map(old(m)@)[k@] == v,
            None => !to_map(old(m)@).contains_key(k@),
        },
{
    match find_key(m, k) {
        Some(i) => {
            proof {
                lemma_to_map_index(m@, i as int);
                lemma_to_map_remove(m@, i as int);
            }
            let (_, v) = m.remove(i);
            assert forall|a: int, b: int| 0 <= a < b < m@.len() implies m@[a].0@ != m@[b].0@ by {
                let a0 = if a < i { a } else { a + 1 };
                let b0 = if b < i { b } else { b + 1 };
                assert(m@[a] == old(m)@[a0]);
                assert(m@[b] == old(m)@[b0]);
            }
            Some(v)
        },
        None => {
            proof {
                lemma_to_map_absent(m@, k@);
            }
            assert(to_map(m@).remove(k@) =~= to_map(m@));
            None
        },
    }
}

/// The value of key `k`, if any.
pub fn map_get<'a, V>(m: &'a Vec<(String, V)>, k: &str) -> (r: Option<&'a V>)
    requires
        keys_unique(m@),
    ensures
        match r {
            Some(v) => to_map(m@).contains_key(k@) && to_map(m@)[k@] == *v,
            None => !to_map(m@).contains_key(k@),
        },
{
    match find_key(m, k) {
        Some(i) => {
            proof {
                lemma_to_map_index(m@, i as int);
            }
            Some(&m[i].1)
        },
        None => {
            proof {
                lemma_to_map_absent(m@, k@);
            }
            None
        },
    }
}

} // verus!
