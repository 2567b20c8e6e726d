//! Association lists with string keys: the shared model of the
//! connection table, the room table and a room's member table.
//!
//! Each table is a vector of key–value pairs with pairwise-distinct keys;
//! `to_map` is the finite map such a list denotes, and the lemmas here
//! relate the vector operations to map operations.

use vstd::prelude::*;

verus! {

/// Are the keys pairwise distinct?
pub open spec fn distinct_keys<V>(s: Seq<(Seq<char>, V)>) -> bool {
    forall|i: int, j: int| 0 <= i < j < s.len() ==> s[i].0 != s[j].0
}

/// Does some entry carry key `k`?
pub open spec fn has_key<V>(s: Seq<(Seq<char>, V)>, k: Seq<char>) -> bool {
    exists|i: int| 0 <= i < s.len() && s[i].0 == k
}

/// The finite map an association list denotes.
pub open spec fn to_map<V>(s: Seq<(Seq<char>, V)>) -> Map<Seq<char>, V>
    decreases s.len(),
{
    if s.len() == 0 {
        Map::empty()
    } else {
        to_map(s.drop_last()).insert(s.last().0, s.last().1)
    }
}

/// The list with the entry of key `k` removed, order kept.
pub open spec fn remove_key<V>(s: Seq<(Seq<char>, V)>, k: Seq<char>) -> Seq<(Seq<char>, V)>
    decreases s.len(),
{
    if s.len() == 0 {
        s
    } else if s.last().0 == k {
        remove_key(s.drop_last(), k)
    } else {
        remove_key(s.drop_last(), k).push(s.last())
    }
}

/// The denoted map has a key exactly when some entry carries it.
pub proof fn lemma_to_map_contains<V>(s: Seq<(Seq<char>, V)>, k: Seq<char>)
    ensures
        to_map(s).contains_key(k) <==> has_key(s, k),
    decreases s.len(),
{
    if s.len() > 0 {
        let d = s.drop_last();
        lemma_to_map_contains(d, k);
        if to_map(s).contains_key(k) && s.last().0 != k {
            let i = choose|i: int| 0 <= i < d.len() && d[i].0 == k;
            assert(s[i].0 == k);
        }
        if has_key(s, k) {
            let i = choose|i: int| 0 <= i < s.len() && s[i].0 == k;
            if i < s.len() - 1 {
                assert(d[i].0 == k);
            }
        }
    }
}

/// With distinct keys, the denoted map sends each entry's key to its value.
pub proof fn lemma_to_map_at<V>(s: Seq<(Seq<char>, V)>, i: int)
    requires
        distinct_keys(s),
        0 <= i < s.len(),
    ensures
        to_map(s).contains_key(s[i].0),
        to_map(s)[s[i].0] == s[i].1,
    decreases s.len(),
{
    let d = s.drop_last();
    if i < s.len() - 1 {
        assert(distinct_keys(d));
        assert(d[i] == s[i]);
        lemma_to_map_at(d, i);
        assert(s.last().0 != s[i].0);
    }
}

/// Removing an absent key changes nothing.
pub proof fn lemma_remove_key_absent<V>(s: Seq<(Seq<char>, V)>, k: Seq<char>)
    requires
        !has_key(s, k),
    ensures
        remove_key(s, k) == s,
    decreases s.len(),
{
    if s.len() > 0 {
        let d = s.drop_last();
        assert(s[s.len() - 1].0 != k);
        assert forall|i: int| 0 <= i < d.len() implies d[i].0 != k by {
            assert(d[i] == s[i]);
        }
        lemma_remove_key_absent(d, k);
        assert(d.push(s.last()) =~= s);
    }
}

/// Key membership after a removal: the removed key is gone, all others stay.
pub proof fn lemma_remove_key_keys<V>(s: Seq<(Seq<char>, V)>, k: Seq<char>, k2: Seq<char>)
    ensures
        k2 != k ==> (has_key(remove_key(s, k), k2) <==> has_key(s, k2)),
        has_key(remove_key(s, k), k2) ==> has_key(s, k2),
        !has_key(remove_key(s, k), k),
    decreases s.len(),
{
    if s.len() > 0 {
        let d = s.drop_last();
        lemma_remove_key_keys(d, k, k2);
        lemma_remove_key_keys(d, k, k);
        if s.last().0 == k {
            if has_key(d, k2) {
                let i = choose|i: int| 0 <= i < d.len() && d[i].0 == k2;
                assert(s[i].0 == k2);
            }
            if k2 != k && has_key(s, k2) {
                let i = choose|i: int| 0 <= i < s.len() && s[i].0 == k2;
                assert(i < s.len() - 1);
                assert(d[i].0 == k2);
            }
        } else {
            let r = remove_key(d, k).push(s.last());
            if has_key(r, k) {
                let i = choose|i: int| 0 <= i < r.len() && r[i].0 == k;
                if i < r.len() - 1 {
                    assert(remove_key(d, k)[i].0 == k);
                    assert(has_key(remove_key(d, k), k));
                }
            }
            if has_key(r, k2) {
                let i = choose|i: int| 0 <= i < r.len() && r[i].0 == k2;
                if i < r.len() - 1 {
                    assert(remove_key(d, k)[i].0 == k2);
                } else {
                    assert(s[s.len() - 1].0 == k2);
                }
            }
            if k2 != k && has_key(s, k2) {
                let i = choose|i: int| 0 <= i < s.len() && s[i].0 == k2;
                if i < s.len() - 1 {
                    assert(d[i].0 == k2);
                    let j = choose|j: int| 0 <= j < remove_key(d, k).len() && remove_key(d, k)[j].0
                        == k2;
                    assert(r[j].0 == k2);
                } else {
                    assert(r[r.len() - 1].0 == k2);
                }
            }
        }
    }
}

/// Removing a key keeps the remaining keys distinct and acts as removal
/// on the denoted map.
pub proof fn lemma_to_map_remove<V>(s: Seq<(Seq<char>, V)>, k: Seq<char>)
    requires
        distinct_keys(s),
    ensures
        distinct_keys(remove_key(s, k)),
        to_map(remove_key(s, k)) == to_map(s).remove(k),
    decreases s.len(),
{
    if s.len() == 0 {
        assert(to_map(remove_key(s, k)) =~= to_map(s).remove(k));
    } else {
        let d = s.drop_last();
        assert(distinct_keys(d));
        lemma_to_map_remove(d, k);
        if s.last().0 == k {
            assert forall|i: int| 0 <= i < d.len() implies d[i].0 != k by {
                assert(d[i] == s[i]);
            }
            lemma_remove_key_absent(d, k);
            lemma_to_map_contains(d, k);
            assert(to_map(d) =~= to_map(d).remove(k));
            assert(to_map(s).remove(k) =~= to_map(d).remove(k));
        } else {
            let r = remove_key(d, k);
            // distinctness of r.push(s.last())
            assert forall|i: int, j: int|
                0 <= i < j < r.push(s.last()).len() implies r.push(s.last())[i].0 != r.push(
                s.last(),
            )[j].0 by {
                if j < r.len() {
                } else {
                    assert(r.push(s.last())[j] == s.last());
                    assert(r[i].0 == r.push(s.last())[i].0);
                    if r[i].0 == s.last().0 {
                        assert(has_key(r, s.last().0));
                        lemma_remove_key_keys(d, k, s.last().0);
                        let m = choose|m: int| 0 <= m < d.len() && d[m].0 == s.last().0;
                        assert(s[m].0 == s.last().0);
                    }
                }
            }
            assert(r.push(s.last()).drop_last() =~= r);
            assert(to_map(r.push(s.last())) == to_map(r).insert(s.last().0, s.last().1));
            assert(to_map(d).remove(k).insert(s.last().0, s.last().1) =~= to_map(d).insert(
                s.last().0,
                s.last().1,
            ).remove(k));
        }
    }
}

/// Removing the entry at an index removes exactly its key.
pub proof fn lemma_remove_key_at<V>(s: Seq<(Seq<char>, V)>, i: int)
    requires
        distinct_keys(s),
        0 <= i < s.len(),
    ensures
        s.remove(i) == remove_key(s, s[i].0),
    decreases s.len(),
{
    let k = s[i].0;
    let d = s.drop_last();
    if i == s.len() - 1 {
        assert(s.remove(i) =~= d);
        assert forall|j: int| 0 <= j < d.len() implies d[j].0 != k by {
            assert(d[j] == s[j]);
        }
        lemma_remove_key_absent(d, k);
    } else {
        assert(distinct_keys(d));
        assert(d[i] == s[i]);
        lemma_remove_key_at(d, i);
        assert(s.last().0 != k);
        assert(d.remove(i).push(s.last()) =~= s.remove(i));
    }
}

/// Updating the value at one entry keeps the keys distinct and acts as
/// insertion of the same key on the denoted map.
pub proof fn lemma_to_map_update<V>(s: Seq<(Seq<char>, V)>, i: int, v2: V)
    requires
        distinct_keys(s),
        0 <= i < s.len(),
    ensures
        distinct_keys(s.update(i, (s[i].0, v2))),
        to_map(s.update(i, (s[i].0, v2))) == to_map(s).insert(s[i].0, v2),
    decreases s.len(),
{
    let k = s[i].0;
    let u = s.update(i, (k, v2));
    assert(distinct_keys(u));
    let d = s.drop_last();
    if i == s.len() - 1 {
        assert(u.drop_last() =~= d);
        assert(u.last() == (k, v2));
        assert(to_map(s).insert(k, v2) =~= to_map(d).insert(k, v2));
        assert(to_map(u) == to_map(u.drop_last()).insert(k, v2));
    } else {
        assert(distinct_keys(d));
        assert(d[i] == s[i]);
        lemma_to_map_update(d, i, v2);
        assert(u.drop_last() =~= d.update(i, (k, v2)));
        assert(u.last() == s.last());
        assert(to_map(u) == to_map(d.update(i, (k, v2))).insert(s.last().0, s.last().1));
        assert(s.last().0 != k);
        assert(to_map(d).insert(k, v2).insert(s.last().0, s.last().1) =~= to_map(d).insert(
            s.last().0,
            s.last().1,
        ).insert(k, v2));
    }
}

/// Appending a fresh key keeps the keys distinct and acts as insertion on
/// the denoted map.
pub proof fn lemma_to_map_push<V>(s: Seq<(Seq<char>, V)>, k: Seq<char>, v: V)
    requires
        distinct_keys(s),
        !has_key(s, k),
    ensures
        distinct_keys(s.push((k, v))),
        to_map(s.push((k, v))) == to_map(s).insert(k, v),
{
    assert forall|i: int, j: int|
        0 <= i < j < s.push((k, v)).len() implies s.push((k, v))[i].0 != s.push((k, v))[j].0 by {
        if j == s.len() {
            assert(s.push((k, v))[i] == s[i]);
        }
    }
    assert(s.push((k, v)).drop_last() =~= s);
}

/// The views of a list of strings.
pub open spec fn str_views(v: Seq<String>) -> Seq<Seq<char>> {
    v.map_values(|s: String| s@)
}

/// Is `s` one of the strings in `v`?
pub fn contains_str(v: &Vec<String>, s: &String) -> (r: bool)
    ensures
        r == str_views(v@).contains(s@),
{
    let n = v.len();
    let mut i: usize = 0;
    while i < n
        invariant
            i <= n,
            n == v@.len(),
            forall|j: int| 0 <= j < i ==> v@[j]@ != s@,
        decreases n - i,
    {
        if v[i] == *s {
            proof {
                assert(str_views(v@)[i as int] == s@);
            }
            return true;
        }
        i = i + 1;
    }
    proof {
        if str_views(v@).contains(s@) {
            let j = choose|j: int| 0 <= j < str_views(v@).len() && str_views(v@)[j] == s@;
            assert(v@[j]@ == s@);
        }
    }
    false
}

/// Find the entry carrying `key`, scanning from the front.
pub fn find_idx<V>(v: &Vec<(String, V)>, key: &str) -> (r: Option<usize>)
    ensures
        match r {
            Some(i) => {
                &&& i < v@.len()
                &&& v@[i as int].0@ == key@
                &&& forall|j: int| 0 <= j < i ==> v@[j].0@ != key@
            },
            None => forall|j: int| 0 <= j < v@.len() ==> v@[j].0@ != key@,
        },
{
    let k: String = key.to_owned();
    let n = v.len();
    let mut i: usize = 0;
    while i < n
        invariant
            n == v@.len(),
            i <= n,
            k@ == key@,
            forall|j: int| 0 <= j < i ==> v@[j].0@ != key@,
        decreases n - i,
    {
        if v[i].0 == k {
            return Some(i);
        }
        i = i + 1;
    }
    None
}

} // verus!
