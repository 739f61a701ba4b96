//! Lists of values keyed by name, in insertion order, with lookups by the
//! first entry of a name.

use vstd::prelude::*;

use crate::text;

verus! {

/// Position of the first entry named `k`, or -1.
pub open spec fn find_index<V>(s: Seq<(String, V)>, k: Seq<char>) -> int
    decreases s.len(),
{
    if s.len() == 0 {
        -1
    } else if s[0].0@ == k {
        0
    } else {
        let r = find_index(s.drop_first(), k);
        if r < 0 {
            -1
        } else {
            r + 1
        }
    }
}

/// Whether some entry is named `k`.
pub open spec fn has_key<V>(s: Seq<(String, V)>, k: Seq<char>) -> bool {
    find_index(s, k) >= 0
}

/// The value of the first entry named `k`.
pub open spec fn table_get<V>(s: Seq<(String, V)>, k: Seq<char>) -> Option<V> {
    let i = find_index(s, k);
    if i >= 0 {
        Some(s[i].1)
    } else {
        None
    }
}

/// The names of the entries, in order.
pub open spec fn keys<V>(s: Seq<(String, V)>) -> Seq<Seq<char>> {
    s.map_values(|e: (String, V)| e.0@)
}

pub proof fn lemma_find_index<V>(s: Seq<(String, V)>, k: Seq<char>)
    ensures
        -1 <= find_index(s, k) < s.len(),
        find_index(s, k) >= 0 ==> s[find_index(s, k)].0@ == k,
        forall|j: int| 0 <= j < s.len() && (find_index(s, k) < 0 || j < find_index(s, k)) ==> s[j].0@ != k,
    decreases s.len(),
{
    if s.len() > 0 && s[0].0@ != k {
        lemma_find_index(s.drop_first(), k);
        assert forall|j: int|
            0 <= j < s.len() && (find_index(s, k) < 0 || j < find_index(s, k)) implies s[j].0@ != k by {
            if j > 0 {
                assert(s.drop_first()[j - 1] == s[j]);
            }
        }
    }
}

/// The first entry named `k` is at `i`.
pub proof fn lemma_find_index_is<V>(s: Seq<(String, V)>, k: Seq<char>, i: int)
    requires
        0 <= i < s.len(),
        s[i].0@ == k,
        forall|j: int| 0 <= j < i ==> s[j].0@ != k,
    ensures
        find_index(s, k) == i,
{
    lemma_find_index(s, k);
}

/// No entry is named `k`.
pub proof fn lemma_find_index_absent<V>(s: Seq<(String, V)>, k: Seq<char>)
    requires
        forall|j: int| 0 <= j < s.len() ==> s[j].0@ != k,
    ensures
        find_index(s, k) == -1,
{
    lemma_find_index(s, k);
}

/// Lookups after the entry at `i` (the first named `k`) is replaced by one named `k`.
pub proof fn lemma_find_index_update<V>(s: Seq<(String, V)>, k: Seq<char>, i: int, e: (String, V), n: Seq<char>)
    requires
        0 <= i < s.len(),
        find_index(s, k) == i,
        e.0@ == k,
    ensures
        find_index(s.update(i, e), n) == find_index(s, n),
{
    let t = s.update(i, e);
    lemma_find_index(s, n);
    lemma_find_index(s, k);
    let f = find_index(s, n);
    if n == k {
        lemma_find_index_is(t, n, i);
    } else if f >= 0 {
        assert(f != i);
        lemma_find_index_is(t, n, f);
    } else {
        lemma_find_index_absent(t, n);
    }
}

/// Lookups after an entry named `k` (absent before) is appended.
pub proof fn lemma_find_index_push<V>(s: Seq<(String, V)>, k: Seq<char>, e: (String, V), n: Seq<char>)
    requires
        find_index(s, k) == -1,
        e.0@ == k,
    ensures
        find_index(s.push(e), n) == (if n == k {
            s.len() as int
        } else {
            find_index(s, n)
        }),
{
    let t = s.push(e);
    lemma_find_index(s, n);
    lemma_find_index(s, k);
    if n == k {
        lemma_find_index_is(t, n, s.len() as int);
    } else if find_index(s, n) >= 0 {
        lemma_find_index_is(t, n, find_index(s, n));
    } else {
        lemma_find_index_absent(t, n);
    }
}

/// Lists with the same names at the same positions find the same positions.
pub proof fn lemma_find_index_same_keys<V, W>(s: Seq<(String, V)>, t: Seq<(String, W)>, k: Seq<char>)
    requires
        s.len() == t.len(),
        forall|j: int| 0 <= j < s.len() ==> s[j].0@ == #[trigger] t[j].0@,
    ensures
        find_index(s, k) == find_index(t, k),
    decreases s.len(),
{
    if s.len() > 0 && s[0].0@ != k {
        assert forall|j: int| 0 <= j < s.drop_first().len() implies s.drop_first()[j].0@ == #[trigger] t.drop_first()[j].0@ by {
            assert(s[j + 1].0@ == t[j + 1].0@);
        }
        lemma_find_index_same_keys(s.drop_first(), t.drop_first(), k);
    }
}

/// Position of the first entry keyed `k` in a list of keyed views, or -1.
pub open spec fn view_find<W>(s: Seq<(Seq<char>, W)>, k: Seq<char>) -> int
    decreases s.len(),
{
    if s.len() == 0 {
        -1
    } else if s[0].0 == k {
        0
    } else {
        let r = view_find(s.drop_first(), k);
        if r < 0 {
            -1
        } else {
            r + 1
        }
    }
}

/// The list with the value for `k` set: the first entry keyed `k` replaced,
/// or a new entry appended.
pub open spec fn view_put<W>(s: Seq<(Seq<char>, W)>, k: Seq<char>, w: W) -> Seq<(Seq<char>, W)> {
    let i = view_find(s, k);
    if i >= 0 {
        s.update(i, (k, w))
    } else {
        s.push((k, w))
    }
}

/// A list and its view, key for key, find the same positions.
pub proof fn lemma_find_index_view<V, W>(s: Seq<(String, V)>, t: Seq<(Seq<char>, W)>, k: Seq<char>)
    requires
        s.len() == t.len(),
        forall|j: int| 0 <= j < s.len() ==> s[j].0@ == #[trigger] t[j].0,
    ensures
        find_index(s, k) == view_find(t, k),
    decreases s.len(),
{
    if s.len() > 0 && s[0].0@ != k {
        assert forall|j: int| 0 <= j < s.drop_first().len() implies s.drop_first()[j].0@ == #[trigger] t.drop_first()[j].0 by {
            assert(s[j + 1].0@ == t[j + 1].0);
        }
        lemma_find_index_view(s.drop_first(), t.drop_first(), k);
    }
}

/// The position of the first entry named `k`.
pub fn find_key<V>(s: &Vec<(String, V)>, k: &str) -> (r: Option<usize>)
    ensures
        r matches Some(i) ==> i == find_index(s@, k@),
        r is None ==> find_index(s@, k@) == -1,
{
    let mut i: usize = 0;
    while i < s.len()
        invariant
            0 <= i <= s.len(),
            forall|j: int| 0 <= j < i ==> s@[j].0@ != k@,
        decreases s.len() - i,
    {
        if text::str_eq(s[i].0.as_str(), k) {
            proof {
                lemma_find_index_is(s@, k@, i as int);
            }
            return Some(i);
        }
        i += 1;
    }
    proof {
        lemma_find_index_absent(s@, k@);
    }
    None
}

/// Whether an entry is named `k`.
pub fn contains_key<V>(s: &Vec<(String, V)>, k: &str) -> (r: bool)
    ensures
        r == has_key(s@, k@),
{
    find_key(s, k).is_some()
}

/// The value of the first entry named `k`.
pub fn get<'a, V>(s: &'a Vec<(String, V)>, k: &str) -> (r: Option<&'a V>)
    ensures
        has_key(s@, k@) ==> (r matches Some(v) && *v == s@[find_index(s@, k@)].1),
        !has_key(s@, k@) ==> r is None,
{
    proof {
        lemma_find_index(s@, k@);
    }
    match find_key(s, k) {
        Some(i) => Some(&s[i].1),
        None => None,
    }
}

/// Sets the value for `k`: replaces the first entry named `k`, or appends one.
pub fn insert<V>(s: &mut Vec<(String, V)>, k: String, v: V)
    ensures
        has_key(old(s)@, k@) ==> final(s)@ == old(s)@.update(find_index(old(s)@, k@), (k, v)),
        !has_key(old(s)@, k@) ==> final(s)@ == old(s)@.push((k, v)),
        forall|n: Seq<char>|
            #![trigger find_index(final(s)@, n)]
            n != k@ ==> find_index(final(s)@, n) == find_index(old(s)@, n),
        find_index(final(s)@, k@) >= 0,
        final(s)@[find_index(final(s)@, k@)] == (k, v),
        table_get(final(s)@, k@) == Some(v),
        forall|n: Seq<char>|
            #![trigger table_get(final(s)@, n)]
            n != k@ ==> table_get(final(s)@, n) == table_get(old(s)@, n),
{
    let ghost key = k@;
    proof {
        lemma_find_index(s@, k@);
    }
    match find_key(s, k.as_str()) {
        Some(i) => {
            let ghost before = s@;
            s.set(i, (k, v));
            proof {
                assert forall|n: Seq<char>| true implies #[trigger] find_index(s@, n) == find_index(
                    before,
                    n,
                ) by {
                    lemma_find_index_update(before, key, i as int, s@[i as int], n);
                }
                assert forall|n: Seq<char>| n != key implies #[trigger] table_get(s@, n) == table_get(
                    before,
                    n,
                ) by {
                    lemma_find_index_update(before, key, i as int, s@[i as int], n);
                    lemma_find_index(before, n);
                    lemma_find_index(before, key);
                }
            }
        },
        None => {
            let ghost before = s@;
            let ghost len = s.len();
            s.push((k, v));
            proof {
                assert forall|n: Seq<char>| true implies #[trigger] find_index(s@, n) == (if n == key {
                    len as int
                } else {
                    find_index(before, n)
                }) by {
                    lemma_find_index_push(before, key, s@[len as int], n);
                }
                assert forall|n: Seq<char>| n != key implies #[trigger] table_get(s@, n) == table_get(
                    before,
                    n,
                ) by {
                    lemma_find_index_push(before, key, s@[len as int], n);
                    lemma_find_index(before, n);
                }
            }
        },
    }
}

} // verus!
