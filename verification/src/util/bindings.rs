//! Name-to-value bindings kept as a list of entries in which no name
//! occurs twice.

use crate::util::text::str_eq;
use vstd::prelude::*;

verus! {

/// No two entries carry the same name.
pub open spec fn keys_unique<V>(s: Seq<(String, V)>) -> bool {
    forall|i: int, j: int| 0 <= i < j < s.len() ==> (#[trigger] s[i]).0@ != (#[trigger] s[j]).0@
}

/// Whether some entry carries the name `k`.
pub open spec fn has_key<V>(s: Seq<(String, V)>, k: Seq<char>) -> bool {
    exists|i: int| 0 <= i < s.len() && (#[trigger] s[i]).0@ == k
}

/// The position of an entry that carries the name `k`.
pub open spec fn index_of<V>(s: Seq<(String, V)>, k: Seq<char>) -> int {
    choose|i: int| 0 <= i < s.len() && (#[trigger] s[i]).0@ == k
}

/// The value bound to the name `k`, if any.
pub open spec fn lookup<V>(s: Seq<(String, V)>, k: Seq<char>) -> Option<V> {
    if has_key(s, k) {
        Some(s[index_of(s, k)].1)
    } else {
        None
    }
}

/// With unique names, the entry found for a name is the only one.
pub proof fn lemma_index_of_unique<V>(s: Seq<(String, V)>, i: int)
    requires
        keys_unique(s),
        0 <= i < s.len(),
    ensures
        has_key(s, s[i].0@),
        index_of(s, s[i].0@) == i,
        lookup(s, s[i].0@) == Some(s[i].1),
{
    let k = s[i].0@;
    let c = index_of(s, k);
    assert(0 <= c < s.len() && s[c].0@ == k);
    if c < i {
        assert(s[c].0@ != s[i].0@);
    } else if i < c {
        assert(s[i].0@ != s[c].0@);
    }
}

/// Two lists that carry the same names at the same positions bind the same
/// names, each at the same position.
pub proof fn lemma_same_names<V, W>(a: Seq<(String, V)>, b: Seq<(String, W)>)
    requires
        keys_unique(a),
        a.len() == b.len(),
        forall|i: int| 0 <= i < a.len() ==> (#[trigger] a[i]).0@ == b[i].0@,
    ensures
        keys_unique(b),
        forall|k: Seq<char>| has_key(a, k) == has_key(b, k),
        forall|k: Seq<char>| has_key(a, k) ==> index_of(a, k) == index_of(b, k),
{
    assert forall|i: int, j: int| 0 <= i < j < b.len() implies (#[trigger] b[i]).0@ != (
    #[trigger] b[j]).0@ by {
        assert(a[i].0@ != a[j].0@);
    }
    assert forall|k: Seq<char>| has_key(a, k) == has_key(b, k) by {
        if has_key(a, k) {
            let c = index_of(a, k);
            assert(b[c].0@ == k);
        }
        if has_key(b, k) {
            let c = index_of(b, k);
            assert(a[c].0@ == k);
        }
    }
    assert forall|k: Seq<char>| has_key(a, k) implies index_of(a, k) == index_of(b, k) by {
        let c = index_of(a, k);
        assert(b[c].0@ == k);
        lemma_index_of_unique(b, c);
    }
}

/// Looks a name up in a list of entries.
pub fn find<V>(entries: &Vec<(String, V)>, name: &str) -> (r: Option<usize>)
    ensures
        match r {
            Some(i) => i < entries.len() && entries@[i as int].0@ == name@,
            None => !has_key(entries@, name@),
        },
{
    let mut i: usize = 0;
    while i < entries.len()
        invariant
            i <= entries.len(),
            forall|j: int| 0 <= j < i ==> (#[trigger] entries@[j]).0@ != name@,
        decreases entries.len() - i,
    {
        if str_eq(entries[i].0.as_str(), name) {
            return Some(i);
        }
        i += 1;
    }
    None
}

/// Binds `name` to `value`: in place where the name is already bound, at the
/// end of the list otherwise. Every other binding stays as it was.
pub fn put<V>(entries: &mut Vec<(String, V)>, name: String, value: V)
    requires
        keys_unique(old(entries)@),
    ensures
        keys_unique(final(entries)@),
        forall|k: Seq<char>|
            lookup(final(entries)@, k) == (if k == name@ {
                Some(value)
            } else {
                lookup(old(entries)@, k)
            }),
{
    let ghost before = entries@;
    let ghost key = name@;
    match find(entries, name.as_str()) {
        Some(i) => {
            entries.set(i, (name, value));
            proof {
                let after = entries@;
                assert forall|i: int| 0 <= i < before.len() implies (#[trigger] before[i]).0@
                    == after[i].0@ by {}
                lemma_same_names(before, after);
                assert forall|k: Seq<char>|
                    lookup(after, k) == (if k == key {
                        Some(value)
                    } else {
                        lookup(before, k)
                    }) by {
                    if has_key(after, k) {
                        let c = index_of(after, k);
                        lemma_index_of_unique(after, c);
                        lemma_index_of_unique(before, c);
                        if k == key {
                            lemma_index_of_unique(after, i as int);
                        }
                    }
                }
            }
        },
        None => {
            entries.push((name, value));
            proof {
                let after = entries@;
                let last = after.len() - 1;
                assert forall|a: int, b: int| 0 <= a < b < after.len() implies (
                #[trigger] after[a]).0@ != (#[trigger] after[b]).0@ by {
                    if b < last {
                        assert(before[a].0@ != before[b].0@);
                    } else {
                        assert(before[a].0@ != key);
                    }
                }
                assert forall|k: Seq<char>|
                    lookup(after, k) == (if k == key {
                        Some(value)
                    } else {
                        lookup(before, k)
                    }) by {
                    lemma_index_of_unique(after, last);
                    if has_key(after, k) {
                        let c = index_of(after, k);
                        lemma_index_of_unique(after, c);
                        if c < last {
                            lemma_index_of_unique(before, c);
                        }
                    } else if has_key(before, k) {
                        let c = index_of(before, k);
                        assert(after[c].0@ == k);
                    }
                }
            }
        },
    }
}

} // verus!
