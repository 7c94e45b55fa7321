use vstd::prelude::*;

use crate::text::string_views;

verus! {

/// The position of `key` in a sequence of keys that holds it once.
pub open spec fn key_position(keys: Seq<Seq<char>>, key: Seq<char>) -> int {
    keys.index_of(key)
}

/// In a sequence without duplicates, each key is found at its own position.
pub proof fn lemma_key_position(keys: Seq<Seq<char>>, i: int)
    requires
        keys.no_duplicates(),
        0 <= i < keys.len(),
    ensures
        key_position(keys, keys[i]) == i,
{
    assert(keys.contains(keys[i]));
    let j = key_position(keys, keys[i]);
    assert(0 <= j < keys.len() && keys[j] == keys[i]);
}

/// Appending a new key keeps the keys free of duplicates and leaves every
/// other key at its position.
pub proof fn lemma_push_new_key(keys: Seq<Seq<char>>, key: Seq<char>)
    requires
        keys.no_duplicates(),
        !keys.contains(key),
    ensures
        keys.push(key).no_duplicates(),
        key_position(keys.push(key), key) == keys.len(),
        forall|k: Seq<char>| #[trigger]
            keys.contains(k) ==> keys.push(key).contains(k) && key_position(keys.push(key), k)
                == key_position(keys, k),
{
    let ks = keys.push(key);
    assert forall|a: int, b: int| 0 <= a < ks.len() && 0 <= b < ks.len() && a != b implies ks[a]
        != ks[b] by {
        if a == keys.len() {
            assert(keys.contains(ks[b]));
        } else if b == keys.len() {
            assert(keys.contains(ks[a]));
        }
    }
    lemma_key_position(ks, keys.len() as int);
    assert forall|k: Seq<char>| #[trigger] keys.contains(k) implies ks.contains(k) && key_position(
        ks,
        k,
    ) == key_position(keys, k) by {
        let i = key_position(keys, k);
        assert(ks[i] == k);
        lemma_key_position(ks, i);
    }
}

/// A key that no string of `v` equals is not among their views.
pub proof fn lemma_absent_from_views(v: Seq<String>, key: Seq<char>)
    requires
        forall|k: int| 0 <= k < v.len() ==> v[k]@ != key,
    ensures
        !string_views(v).contains(key),
{
    assert forall|x: Seq<char>| string_views(v).contains(x) implies x != key by {
        let k = choose|k: int| 0 <= k < string_views(v).len() && string_views(v)[k] == x;
        assert(v[k]@ == x);
    }
}

/// The first `i + 1` elements of `s` are the first `i` and then `s[i]`.
pub proof fn lemma_take_next<A>(s: Seq<A>, i: int)
    requires
        0 <= i < s.len(),
    ensures
        s.take(i + 1) == s.take(i).push(s[i]),
        forall|x: A| #[trigger] s.take(i + 1).contains(x) == (s.take(i).contains(x) || x == s[i]),
{
    let before = s.take(i);
    let after = s.take(i + 1);
    assert(after =~= before.push(s[i]));
    assert forall|x: A| #[trigger] after.contains(x) == (before.contains(x) || x == s[i]) by {
        if after.contains(x) {
            let k = choose|k: int| 0 <= k < after.len() && after[k] == x;
            if k < i {
                assert(before[k] == x);
            }
        }
        if before.contains(x) {
            let k = choose|k: int| 0 <= k < before.len() && before[k] == x;
            assert(after[k] == x);
        }
        assert(after[i] == s[i]);
    }
}

/// The position of `key` among `keys`, if it is there.
pub fn find_key(keys: &Vec<String>, key: &String) -> (r: Option<usize>)
    requires
        string_views(keys@).no_duplicates(),
    ensures
        match r {
            Some(i) => i < keys@.len() && keys@[i as int]@ == key@ && key_position(
                string_views(keys@),
                key@,
            ) == i,
            None => !string_views(keys@).contains(key@),
        },
{
    let n = keys.len();
    for i in 0..n
        invariant
            n == keys@.len(),
            string_views(keys@).no_duplicates(),
            forall|k: int| 0 <= k < i ==> keys@[k]@ != key@,
    {
        if keys[i] == *key {
            proof {
                assert(string_views(keys@)[i as int] == key@);
                lemma_key_position(string_views(keys@), i as int);
            }
            return Some(i);
        }
    }
    proof {
        lemma_absent_from_views(keys@, key@);
    }
    None
}

} // verus!
