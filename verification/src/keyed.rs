//! Tables keyed by text: lists of (key, value) entries whose keys are
//! distinct, read as maps.

use vstd::prelude::*;

use crate::text::str_eq;

verus! {

/// The keys of the entries, in order.
pub open spec fn keys_of<V>(entries: Seq<(String, V)>) -> Seq<Seq<char>> {
    entries.map_values(|e: (String, V)| e.0@)
}

/// The map the entries describe: each key to its value.
pub open spec fn keyed<V>(entries: Seq<(String, V)>) -> Map<Seq<char>, V>
    decreases entries.len(),
{
    if entries.len() == 0 {
        Map::empty()
    } else {
        keyed(entries.drop_last()).insert(entries.last().0@, entries.last().1)
    }
}

/// Whether no key occurs twice.
pub open spec fn distinct_keys<V>(entries: Seq<(String, V)>) -> bool {
    forall|i: int, j: int|
        0 <= i < j < entries.len() ==> (#[trigger] entries[i]).0@ != (#[trigger] entries[j]).0@
}

/// A key absent from the entries is absent from their map.
pub proof fn lemma_keyed_absent<V>(entries: Seq<(String, V)>, key: Seq<char>)
    requires
        forall|i: int| 0 <= i < entries.len() ==> (#[trigger] entries[i]).0@ != key,
    ensures
        !keyed(entries).contains_key(key),
    decreases entries.len(),
{
    if entries.len() > 0 {
        lemma_keyed_absent(entries.drop_last(), key);
    }
}

/// With distinct keys, each entry is what its key maps to.
pub proof fn lemma_keyed_at<V>(entries: Seq<(String, V)>, i: int)
    requires
        distinct_keys(entries),
        0 <= i < entries.len(),
    ensures
        keyed(entries).contains_key(entries[i].0@),
        keyed(entries)[entries[i].0@] == entries[i].1,
    decreases entries.len(),
{
    if i < entries.len() - 1 {
        lemma_keyed_at(entries.drop_last(), i);
        assert(entries.last().0@ != entries[i].0@);
    }
}

/// The map of the entries has exactly their keys.
pub proof fn lemma_keyed_domain<V>(entries: Seq<(String, V)>, key: Seq<char>)
    ensures
        keyed(entries).contains_key(key) <==> exists|i: int|
            0 <= i < entries.len() && (#[trigger] entries[i]).0@ == key,
    decreases entries.len(),
{
    if entries.len() > 0 {
        lemma_keyed_domain(entries.drop_last(), key);
        if keyed(entries.drop_last()).contains_key(key) {
            let i = choose|i: int|
                0 <= i < entries.drop_last().len() && (#[trigger] entries.drop_last()[i]).0@ == key;
            assert(entries[i].0@ == key);
        }
        if exists|i: int| 0 <= i < entries.len() && (#[trigger] entries[i]).0@ == key {
            let i = choose|i: int| 0 <= i < entries.len() && (#[trigger] entries[i]).0@ == key;
            if i < entries.len() - 1 {
                assert(entries.drop_last()[i].0@ == key);
            }
        }
    }
}

/// Replacing the value of entry `i` replaces what its key maps to.
pub proof fn lemma_keyed_update<V>(entries: Seq<(String, V)>, i: int, v: V)
    requires
        distinct_keys(entries),
        0 <= i < entries.len(),
    ensures
        keyed(entries.update(i, (entries[i].0, v))) == keyed(entries).insert(entries[i].0@, v),
        keys_of(entries.update(i, (entries[i].0, v))) == keys_of(entries),
    decreases entries.len(),
{
    let u = entries.update(i, (entries[i].0, v));
    if i == entries.len() - 1 {
        assert(u.drop_last() == entries.drop_last());
    } else {
        assert(u.drop_last() == entries.drop_last().update(i, (entries[i].0, v)));
        lemma_keyed_update(entries.drop_last(), i, v);
        assert(entries.last().0@ != entries[i].0@);
        assert(keyed(u) == keyed(entries).insert(entries[i].0@, v));
    }
    assert(keys_of(u) == keys_of(entries));
}

/// The position of `key` among the entries, if present.
pub fn find_key<V>(entries: &Vec<(String, V)>, key: &str) -> (res: Option<usize>)
    ensures
        match res {
            Some(i) => i < entries@.len() && entries@[i as int].0@ == key@,
            None => forall|k: int| 0 <= k < entries@.len() ==> (#[trigger] entries@[k]).0@ != key@,
        },
{
    let n = entries.len();
    let mut i: usize = 0;
    while i < n
        invariant
            n == entries@.len(),
            i <= n,
            forall|k: int| 0 <= k < i ==> (#[trigger] entries@[k]).0@ != key@,
        decreases n - i,
    {
        if str_eq(entries[i].0.as_str(), key) {
            return Some(i);
        }
        i = i + 1;
    }
    None
}

/// Sets what `key` maps to, adding the key when absent.
pub fn upsert<V>(entries: &mut Vec<(String, V)>, key: &str, value: V)
    requires
        distinct_keys(old(entries)@),
    ensures
        distinct_keys(final(entries)@),
        keyed(final(entries)@) == keyed(old(entries)@).insert(key@, value),
{
    match find_key(entries, key) {
        Some(i) => {
            let ghost before = entries@;
            let k = entries[i].0.clone();
            entries.set(i, (k, value));
            proof {
                lemma_keyed_update(before, i as int, value);
                assert forall|a: int, b: int|
                    0 <= a < b < entries@.len() implies (#[trigger] entries@[a]).0@
                    != (#[trigger] entries@[b]).0@ by {
                    assert(entries@[a].0@ == before[a].0@);
                    assert(entries@[b].0@ == before[b].0@);
                }
            }
        },
        None => {
            let ghost before = entries@;
            entries.push((key.to_owned(), value));
            proof {
                assert(entries@.drop_last() == before);
            }
        },
    }
}

/// Removing an entry removes its key from the map and keeps the keys
/// distinct.
pub proof fn lemma_keyed_remove<V>(entries: Seq<(String, V)>, i: int)
    requires
        distinct_keys(entries),
        0 <= i < entries.len(),
    ensures
        distinct_keys(entries.remove(i)),
        keyed(entries.remove(i)) == keyed(entries).remove(entries[i].0@),
    decreases entries.len(),
{
    let k = entries[i].0@;
    let rest = entries.remove(i);
    assert forall|a: int, b: int| 0 <= a < b < rest.len() implies (#[trigger] rest[a]).0@
        != (#[trigger] rest[b]).0@ by {
        let x = if a < i { a } else { a + 1 };
        let y = if b < i { b } else { b + 1 };
        assert(rest[a] == entries[x]);
        assert(rest[b] == entries[y]);
    }
    let last = entries.len() - 1;
    if i == last {
        assert(rest == entries.drop_last());
        assert forall|j: int| 0 <= j < rest.len() implies (#[trigger] rest[j]).0@ != k by {
            assert(entries[j].0@ != entries[last].0@);
        }
        lemma_keyed_absent(rest, k);
        assert(keyed(entries).remove(k) =~= keyed(rest));
    } else {
        let front = entries.drop_last();
        assert(distinct_keys(front)) by {
            assert forall|a: int, b: int| 0 <= a < b < front.len() implies (#[trigger] front[a]).0@
                != (#[trigger] front[b]).0@ by {
                assert(front[a] == entries[a]);
                assert(front[b] == entries[b]);
            }
        }
        lemma_keyed_remove(front, i);
        assert(rest.drop_last() == front.remove(i));
        assert(rest.last() == entries.last());
        assert(entries.last().0@ != k) by {
            assert(entries[i].0@ != entries[last].0@);
        }
        assert(keyed(entries).remove(k) =~= keyed(front).remove(k).insert(
            entries.last().0@,
            entries.last().1,
        ));
    }
}

/// Removes `key` and what it maps to, if present.
pub fn remove_key<V>(entries: &mut Vec<(String, V)>, key: &str)
    requires
        distinct_keys(old(entries)@),
    ensures
        distinct_keys(final(entries)@),
        keyed(final(entries)@) == keyed(old(entries)@).remove(key@),
{
    match find_key(entries, key) {
        Some(i) => {
            let ghost before = entries@;
            entries.remove(i);
            proof {
                lemma_keyed_remove(before, i as int);
            }
        },
        None => {
            proof {
                lemma_keyed_absent(entries@, key@);
                assert(keyed(entries@).remove(key@) =~= keyed(entries@));
            }
        },
    }
}

/// What `key` maps to, if anything.
pub fn lookup<'a, V>(entries: &'a Vec<(String, V)>, key: &str) -> (res: Option<&'a V>)
    requires
        distinct_keys(entries@),
    ensures
        keyed(entries@).contains_key(key@) ==> res == Some(&keyed(entries@)[key@]),
        !keyed(entries@).contains_key(key@) ==> res is None,
{
    match find_key(entries, key) {
        Some(i) => {
            proof {
                lemma_keyed_at(entries@, i as int);
            }
            Some(&entries[i].1)
        },
        None => {
            proof {
                lemma_keyed_absent(entries@, key@);
            }
            None
        },
    }
}

/// The entries that satisfy `p`, in order.
pub open spec fn filtered<V>(s: Seq<(String, V)>, p: spec_fn((String, V)) -> bool) -> Seq<(String, V)>
    decreases s.len(),
{
    if s.len() == 0 {
        Seq::empty()
    } else {
        let r = filtered(s.drop_last(), p);
        if p(s.last()) {
            r.push(s.last())
        } else {
            r
        }
    }
}

/// Every kept entry is an entry that satisfies `p`, and every entry that
/// satisfies `p` is kept.
pub proof fn lemma_filtered_members<V>(s: Seq<(String, V)>, p: spec_fn((String, V)) -> bool)
    ensures
        forall|k: int|
            #![trigger filtered(s, p)[k]]
            0 <= k < filtered(s, p).len() ==> exists|i: int|
                0 <= i < s.len() && filtered(s, p)[k] === #[trigger] s[i] && p(s[i]),
        forall|i: int|
            #![trigger s[i]]
            0 <= i < s.len() && p(s[i]) ==> exists|k: int|
                0 <= k < filtered(s, p).len() && #[trigger] filtered(s, p)[k] === s[i],
    decreases s.len(),
{
    if s.len() > 0 {
        lemma_filtered_members(s.drop_last(), p);
        assert forall|k: int| #![trigger filtered(s, p)[k]] 0 <= k < filtered(s, p).len() implies exists|i: int|
            0 <= i < s.len() && filtered(s, p)[k] === #[trigger] s[i] && p(s[i]) by {
            if k < filtered(s.drop_last(), p).len() {
                assert(filtered(s, p)[k] === filtered(s.drop_last(), p)[k]);
                let i = choose|i: int|
                    0 <= i < s.drop_last().len() && filtered(s.drop_last(), p)[k]
                        === #[trigger] s.drop_last()[i] && p(s.drop_last()[i]);
                assert(s[i] === s.drop_last()[i]);
            } else {
                assert(filtered(s, p)[k] === s[s.len() - 1]);
            }
        }
        assert forall|i: int| #![trigger s[i]] 0 <= i < s.len() && p(s[i]) implies exists|k: int|
            0 <= k < filtered(s, p).len() && #[trigger] filtered(s, p)[k] === s[i] by {
            if i < s.len() - 1 {
                assert(s.drop_last()[i] === s[i]);
                let k = choose|k: int|
                    0 <= k < filtered(s.drop_last(), p).len() && #[trigger] filtered(
                        s.drop_last(),
                        p,
                    )[k] === s.drop_last()[i];
                assert(filtered(s, p)[k] === filtered(s.drop_last(), p)[k]);
            } else {
                assert(filtered(s, p)[filtered(s, p).len() - 1] === s[i]);
            }
        }
    }
}

/// A relation that holds between every earlier and later entry still holds
/// after filtering.
pub proof fn lemma_filtered_pairwise<V>(
    s: Seq<(String, V)>,
    p: spec_fn((String, V)) -> bool,
    rel: spec_fn((String, V), (String, V)) -> bool,
)
    requires
        forall|a: int, b: int| 0 <= a < b < s.len() ==> rel(#[trigger] s[a], #[trigger] s[b]),
    ensures
        forall|a: int, b: int|
            0 <= a < b < filtered(s, p).len() ==> rel(
                #[trigger] filtered(s, p)[a],
                #[trigger] filtered(s, p)[b],
            ),
    decreases s.len(),
{
    if s.len() > 0 {
        let d = s.drop_last();
        assert forall|a: int, b: int| 0 <= a < b < d.len() implies rel(
            #[trigger] d[a],
            #[trigger] d[b],
        ) by {
            assert(d[a] == s[a] && d[b] == s[b]);
        }
        lemma_filtered_pairwise(d, p, rel);
        lemma_filtered_members(d, p);
        let f = filtered(s, p);
        let r = filtered(d, p);
        assert forall|a: int, b: int| 0 <= a < b < f.len() implies rel(
            #[trigger] f[a],
            #[trigger] f[b],
        ) by {
            if b < r.len() {
                assert(f[a] == r[a] && f[b] == r[b]);
            } else {
                assert(f[a] == r[a]);
                let i = choose|i: int| 0 <= i < d.len() && r[a] === #[trigger] d[i] && p(d[i]);
                assert(s[i] == d[i]);
                assert(f[b] == s[s.len() - 1]);
            }
        }
    }
}

/// The entry of `key` among `s`, when there is one.
pub open spec fn entry_of<V>(s: Seq<(String, V)>, key: Seq<char>) -> (String, V) {
    s[choose|i: int| 0 <= i < s.len() && (#[trigger] s[i]).0@ == key]
}

/// The map of the kept entries holds exactly the keys whose entries satisfy
/// `p`, with the same values.
pub proof fn lemma_filtered_keyed<V>(s: Seq<(String, V)>, p: spec_fn((String, V)) -> bool, key: Seq<char>)
    requires
        distinct_keys(s),
    ensures
        distinct_keys(filtered(s, p)),
        keyed(filtered(s, p)).contains_key(key) <==> keyed(s).contains_key(key) && p(
            entry_of(s, key),
        ),
        keyed(filtered(s, p)).contains_key(key) ==> keyed(filtered(s, p))[key] == keyed(s)[key],
        keyed(s).contains_key(key) ==> entry_of(s, key).1 == keyed(s)[key] && entry_of(
            s,
            key,
        ).0@ == key,
{
    assert(distinct_keys(filtered(s, p))) by {
        lemma_filtered_pairwise(s, p, |x: (String, V), y: (String, V)| x.0@ != y.0@);
    }
    lemma_keyed_domain(s, key);
    lemma_keyed_domain(filtered(s, p), key);
    if keyed(s).contains_key(key) {
        let i = choose|i: int| 0 <= i < s.len() && (#[trigger] s[i]).0@ == key;
        assert(entry_of(s, key) == s[i]) by {
            let j = choose|j: int| 0 <= j < s.len() && (#[trigger] s[j]).0@ == key;
            if j != i {
                if j < i {
                    assert(s[j].0@ != s[i].0@);
                } else {
                    assert(s[i].0@ != s[j].0@);
                }
            }
        }
        lemma_keyed_at(s, i);
        if p(s[i]) {
            assert(keyed(filtered(s, p)).contains_key(key)) by {
                lemma_filtered_members(s, p);
                let k = choose|k: int|
                    0 <= k < filtered(s, p).len() && #[trigger] filtered(s, p)[k] === s[i];
                assert(filtered(s, p)[k].0@ == key);
            }
        }
    }
    if keyed(filtered(s, p)).contains_key(key) {
        let k = choose|k: int| 0 <= k < filtered(s, p).len() && (#[trigger] filtered(s, p)[k]).0@ == key;
        let i = choose|i: int|
            0 <= i < s.len() && filtered(s, p)[k] === #[trigger] s[i] && p(s[i]);
        assert(exists|i: int| 0 <= i < s.len() && filtered(s, p)[k] === #[trigger] s[i] && p(s[i]))
            by {
            lemma_filtered_members(s, p);
        }
        assert(s[i].0@ == key);
        lemma_keyed_at(s, i);
        lemma_keyed_at(filtered(s, p), k);
        assert(entry_of(s, key) == s[i]) by {
            let j = choose|j: int| 0 <= j < s.len() && (#[trigger] s[j]).0@ == key;
            if j != i {
                if j < i {
                    assert(s[j].0@ != s[i].0@);
                } else {
                    assert(s[i].0@ != s[j].0@);
                }
            }
        }
    }
}

} // verus!
