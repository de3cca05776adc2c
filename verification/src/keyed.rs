//! String-keyed tables kept in lexical key order (the order a `BTreeMap<String, _>`
//! iterates in), with a later store under a key replacing the earlier value.

use vstd::prelude::*;

use crate::text::{lemma_lex_antisymmetric, lemma_lex_total, lemma_lex_transitive, lex_le, lex_le_exec, lex_lt, chars_of};

verus! {

/// Keys strictly increase along `s`.
pub open spec fn keys_sorted<V>(s: Seq<(String, V)>) -> bool {
    forall|i: int, j: int| 0 <= i < j < s.len() ==> lex_lt(#[trigger] s[i].0@, #[trigger] s[j].0@)
}

/// The value stored under `k`, if any.
pub open spec fn find_key<V>(s: Seq<(String, V)>, k: Seq<char>) -> Option<V>
    decreases s.len(),
{
    if s.len() == 0 {
        None
    } else if s.last().0@ == k {
        Some(s.last().1)
    } else {
        find_key(s.drop_last(), k)
    }
}

/// The key stored under `k`, if any (the key text equals `k`).
pub open spec fn has_key<V>(s: Seq<(String, V)>, k: Seq<char>) -> bool {
    find_key(s, k) is Some
}

pub proof fn lemma_find_key<V>(s: Seq<(String, V)>, k: Seq<char>)
    ensures
        find_key(s, k) matches Some(v) ==> exists|i: int|
            0 <= i < s.len() && s[i].0@ == k && s[i].1 == v,
        find_key(s, k) is None ==> forall|i: int| 0 <= i < s.len() ==> s[i].0@ != k,
    decreases s.len(),
{
    if s.len() > 0 {
        lemma_find_key(s.drop_last(), k);
        if s.last().0@ == k {
            assert(s[s.len() - 1] == s.last());
        } else {
            if let Some(v) = find_key(s.drop_last(), k) {
                let i = choose|i: int|
                    0 <= i < s.drop_last().len() && s.drop_last()[i].0@ == k && s.drop_last()[i].1
                        == v;
                assert(s[i] == s.drop_last()[i]);
            } else {
                assert forall|i: int| 0 <= i < s.len() implies s[i].0@ != k by {
                    if i < s.len() - 1 {
                        assert(s[i] == s.drop_last()[i]);
                    }
                }
            }
        }
    }
}

pub proof fn lemma_find_key_at<V>(s: Seq<(String, V)>, i: int)
    requires
        keys_sorted(s),
        0 <= i < s.len(),
    ensures
        find_key(s, s[i].0@) == Some(s[i].1),
    decreases s.len(),
{
    if i < s.len() - 1 {
        assert(lex_lt(s[i].0@, s[s.len() - 1].0@));
        assert(s.last() == s[s.len() - 1]);
        assert(s.drop_last()[i] == s[i]);
        lemma_find_key_at(s.drop_last(), i);
    }
}

/// The position of key `k`.
pub fn key_index<V>(s: &Vec<(String, V)>, k: &String) -> (r: Option<usize>)
    ensures
        match r {
            Some(i) => i < s@.len() && s@[i as int].0@ == k@ && find_key(s@, k@) == Some(
                s@[i as int].1,
            ),
            None => find_key(s@, k@) is None,
        },
{
    let mut i = s.len();
    assert(s@.take(s@.len() as int) =~= s@);
    while i > 0
        invariant
            i <= s@.len(),
            find_key(s@, k@) == find_key(s@.take(i as int), k@),
        decreases i,
    {
        let ghost t = s@.take(i as int);
        assert(t.drop_last() =~= s@.take(i - 1));
        assert(t.last() == s@[i - 1]);
        if s[i - 1].0 == *k {
            return Some(i - 1);
        }
        i -= 1;
    }
    None
}

/// Stores `v` under `k`, replacing the value already stored under that key.
pub(crate) fn store_key<V>(s: &mut Vec<(String, V)>, k: String, v: V)
    requires
        keys_sorted(old(s)@),
    ensures
        keys_sorted(final(s)@),
        forall|key: Seq<char>|
            #![trigger find_key(final(s)@, key)]
            find_key(final(s)@, key) == if key == k@ {
                Some(v)
            } else {
                find_key(old(s)@, key)
            },
{
    let ghost before = s@;
    let key = chars_of(k.as_str());
    let mut p: usize = 0;
    while p < s.len() && !lex_le_exec(&key, &chars_of(s[p].0.as_str()))
        invariant
            s@ == before,
            key@ == k@,
            p <= s@.len(),
            forall|j: int| 0 <= j < p ==> lex_lt(#[trigger] s@[j].0@, k@),
        decreases s@.len() - p,
    {
        proof {
            lemma_lex_total(k@, s@[p as int].0@);
        }
        p += 1;
    }
    let ghost kv = k@;
    if p < s.len() && s[p].0 == k {
        s.set(p, (k, v));
        let ghost after = s@;
        assert(keys_sorted(after)) by {
            assert forall|i: int, j: int| 0 <= i < j < after.len() implies lex_lt(
                #[trigger] after[i].0@,
                #[trigger] after[j].0@,
            ) by {
                assert(after[i].0@ == before[i].0@ && after[j].0@ == before[j].0@);
            }
        }
        assert forall|key: Seq<char>| #[trigger] find_key(after, key) == if key == kv {
            Some(v)
        } else {
            find_key(before, key)
        } by {
            lemma_find_key(before, key);
            lemma_find_key(after, key);
            if key == kv {
                lemma_find_key_at(after, p as int);
            } else if let Some(w) = find_key(before, key) {
                let j = choose|j: int| 0 <= j < before.len() && before[j].0@ == key && before[j].1 == w;
                assert(j != p);
                assert(after[j] == before[j]);
                lemma_find_key_at(after, j);
            } else {
                if let Some(w) = find_key(after, key) {
                    let j = choose|j: int| 0 <= j < after.len() && after[j].0@ == key && after[j].1 == w;
                    assert(j != p);
                    assert(before[j] == after[j]);
                }
            }
        }
    } else {
        proof {
            if p < before.len() {
                assert(lex_le(kv, before[p as int].0@));
                assert(kv != before[p as int].0@);
            }
        }
        s.insert(p, (k, v));
        let ghost after = s@;
        assert forall|i: int, j: int| 0 <= i < j < after.len() implies lex_lt(
            #[trigger] after[i].0@,
            #[trigger] after[j].0@,
        ) by {
            if j < p {
                assert(after[i] == before[i] && after[j] == before[j]);
            } else if j == p {
                assert(after[i] == before[i]);
            } else if i < p {
                assert(after[i] == before[i] && after[j] == before[j - 1]);
                assert(lex_lt(before[i].0@, kv));
                if j - 1 > p {
                    assert(lex_lt(before[p as int].0@, before[j - 1].0@));
                    lemma_lex_transitive(kv, before[p as int].0@, before[j - 1].0@);
                }
                lemma_lex_transitive(before[i].0@, kv, before[j - 1].0@);
                if before[i].0@ == before[j - 1].0@ {
                    lemma_lex_antisymmetric(before[i].0@, kv);
                }
            } else if i == p {
                assert(after[j] == before[j - 1]);
                if j - 1 > p {
                    assert(lex_lt(before[p as int].0@, before[j - 1].0@));
                    lemma_lex_transitive(kv, before[p as int].0@, before[j - 1].0@);
                    if kv == before[j - 1].0@ {
                        lemma_lex_antisymmetric(kv, before[p as int].0@);
                    }
                }
            } else {
                assert(after[i] == before[i - 1] && after[j] == before[j - 1]);
            }
        }
        assert forall|key: Seq<char>| #[trigger] find_key(after, key) == if key == kv {
            Some(v)
        } else {
            find_key(before, key)
        } by {
            lemma_find_key(before, key);
            lemma_find_key(after, key);
            if key == kv {
                lemma_find_key_at(after, p as int);
            } else if let Some(w) = find_key(before, key) {
                let j = choose|j: int| 0 <= j < before.len() && before[j].0@ == key && before[j].1 == w;
                let jj = if j < p { j } else { j + 1 };
                assert(after[jj] == before[j]);
                lemma_find_key_at(after, jj);
            } else {
                if let Some(w) = find_key(after, key) {
                    let j = choose|j: int| 0 <= j < after.len() && after[j].0@ == key && after[j].1 == w;
                    assert(j != p);
                    if j < p {
                        assert(before[j] == after[j]);
                    } else {
                        assert(before[j - 1] == after[j]);
                    }
                }
            }
        }
    }
}

/// Removes the value stored under `k`, if any.
pub(crate) fn remove_key<V>(s: &mut Vec<(String, V)>, k: &String)
    requires
        keys_sorted(old(s)@),
    ensures
        keys_sorted(final(s)@),
        forall|key: Seq<char>|
            #![trigger find_key(final(s)@, key)]
            find_key(final(s)@, key) == if key == k@ {
                None
            } else {
                find_key(old(s)@, key)
            },
{
    let ghost before = s@;
    match key_index(s, k) {
        None => {
            assert forall|key: Seq<char>| #[trigger] find_key(s@, key) == if key == k@ {
                None
            } else {
                find_key(before, key)
            } by {}
        },
        Some(p) => {
            s.remove(p);
            let ghost after = s@;
            assert forall|i: int, j: int| 0 <= i < j < after.len() implies lex_lt(
                #[trigger] after[i].0@,
                #[trigger] after[j].0@,
            ) by {
                let bi = if i < p { i } else { i + 1 };
                let bj = if j < p { j } else { j + 1 };
                assert(after[i] == before[bi] && after[j] == before[bj]);
            }
            assert forall|key: Seq<char>| #[trigger] find_key(after, key) == if key == k@ {
                None
            } else {
                find_key(before, key)
            } by {
                lemma_find_key(before, key);
                lemma_find_key(after, key);
                lemma_find_key_at(before, p as int);
                if key == k@ {
                    if let Some(w) = find_key(after, key) {
                        let j = choose|j: int|
                            0 <= j < after.len() && after[j].0@ == key && after[j].1 == w;
                        let bj = if j < p { j } else { j + 1 };
                        assert(before[bj] == after[j]);
                        assert(bj != p);
                        if bj < p {
                            assert(lex_lt(before[bj].0@, before[p as int].0@));
                        } else {
                            assert(lex_lt(before[p as int].0@, before[bj].0@));
                        }
                    }
                } else if let Some(w) = find_key(before, key) {
                    let j = choose|j: int| 0 <= j < before.len() && before[j].0@ == key && before[j].1 == w;
                    assert(j != p);
                    let jj = if j < p { j } else { j - 1 };
                    assert(after[jj] == before[j]);
                    lemma_find_key_at(after, jj);
                } else {
                    if let Some(w) = find_key(after, key) {
                        let j = choose|j: int| 0 <= j < after.len() && after[j].0@ == key && after[j].1 == w;
                        let bj = if j < p { j } else { j + 1 };
                        assert(before[bj] == after[j]);
                    }
                }
            }
        },
    }
}

} // verus!
