//! Sequences of records keyed by subnet identifier.
//!
//! Both the configuration and the connection pool map identifiers to
//! records.  The mapping is held as a vector whose entries carry pairwise
//! distinct keys; this module gives the shared spec-level lookup function
//! and the lemmas that say how it behaves under `push` and `remove`.

use vstd::prelude::*;

verus! {

/// A record that carries a subnet identifier as its key.
pub trait Keyed {
    /// The key of the record: the segments of its subnet identifier.
    spec fn key(&self) -> Seq<Seq<char>>;
}

/// The first record with key `k`, if any.
pub open spec fn lookup<T: Keyed>(s: Seq<T>, k: Seq<Seq<char>>) -> Option<T>
    decreases s.len(),
{
    if s.len() == 0 {
        None
    } else if s[0].key() == k {
        Some(s[0])
    } else {
        lookup(s.subrange(1, s.len() as int), k)
    }
}

/// No two records share a key.
pub open spec fn keys_unique<T: Keyed>(s: Seq<T>) -> bool {
    forall|i: int, j: int|
        0 <= i < j < s.len() ==> (#[trigger] s[i]).key() != (#[trigger] s[j]).key()
}

/// Lookup succeeds exactly when some record carries the key, and then
/// returns a record of the sequence that carries it.
pub proof fn lemma_lookup_present<T: Keyed>(s: Seq<T>, k: Seq<Seq<char>>)
    ensures
        (lookup(s, k) is Some) <==> exists|i: int| 0 <= i < s.len() && (#[trigger] s[i]).key()
            == k,
        lookup(s, k) matches Some(e) ==> e.key() == k && exists|i: int|
            0 <= i < s.len() && #[trigger] s[i] == e,
    decreases s.len(),
{
    if s.len() == 0 {
    } else if s[0].key() == k {
    } else {
        let rest = s.subrange(1, s.len() as int);
        lemma_lookup_present(rest, k);
        assert forall|i: int| 0 <= i < s.len() && (#[trigger] s[i]).key() == k implies lookup(
            s,
            k,
        ) is Some by {
            assert(i != 0);
            assert(rest[i - 1] == s[i]);
        }
        if lookup(s, k) is Some {
            let i = choose|i: int| 0 <= i < rest.len() && (#[trigger] rest[i]).key() == k;
            assert(s[i + 1] == rest[i]);
            let e = lookup(rest, k).unwrap();
            let j = choose|j: int| 0 <= j < rest.len() && #[trigger] rest[j] == e;
            assert(s[j + 1] == rest[j]);
        }
    }
}

/// Appending a record does not disturb the records already found, and is
/// found itself where no earlier record carries its key.
pub proof fn lemma_lookup_push<T: Keyed>(s: Seq<T>, e: T, k: Seq<Seq<char>>)
    ensures
        lookup(s.push(e), k) == if lookup(s, k) is Some {
            lookup(s, k)
        } else if e.key() == k {
            Some(e)
        } else {
            None
        },
    decreases s.len(),
{
    let t = s.push(e);
    if s.len() == 0 {
        assert(t[0] == e);
        assert(lookup(s, k) is None);
        assert(t.subrange(1, t.len() as int) =~= Seq::<T>::empty());
        if e.key() == k {
            assert(lookup(t, k) == Some(e));
        } else {
            assert(lookup(t, k) == lookup(t.subrange(1, t.len() as int), k));
            assert(lookup(t, k) is None);
        }
    } else {
        assert(t[0] == s[0]);
        if s[0].key() == k {
            assert(lookup(t, k) == Some(s[0]));
            assert(lookup(s, k) == Some(s[0]));
        } else {
            assert(t.subrange(1, t.len() as int) =~= s.subrange(1, s.len() as int).push(e));
            lemma_lookup_push(s.subrange(1, s.len() as int), e, k);
            assert(lookup(t, k) == lookup(s.subrange(1, s.len() as int).push(e), k));
            assert(lookup(s, k) == lookup(s.subrange(1, s.len() as int), k));
        }
    }
}

/// Removing the record at `i` from a uniquely keyed sequence erases exactly
/// that record's key from the lookup.
pub proof fn lemma_lookup_remove<T: Keyed>(s: Seq<T>, i: int, k: Seq<Seq<char>>)
    requires
        0 <= i < s.len(),
        keys_unique(s),
    ensures
        lookup(s.remove(i), k) == if s[i].key() == k {
            None::<T>
        } else {
            lookup(s, k)
        },
    decreases s.len(),
{
    let r = s.remove(i);
    let rest = s.subrange(1, s.len() as int);
    if i == 0 {
        assert(r =~= rest);
        if s[0].key() == k {
            lemma_lookup_present(rest, k);
            if lookup(rest, k) is Some {
                let j = choose|j: int| 0 <= j < rest.len() && (#[trigger] rest[j]).key() == k;
                assert(s[j + 1] == rest[j]);
            }
        }
    } else {
        assert(r[0] == s[0]);
        if s[0].key() == k {
            assert(s[i].key() != k);
        } else {
            assert(r.subrange(1, r.len() as int) =~= rest.remove(i - 1));
            assert(keys_unique(rest)) by {
                assert(forall|a: int|
                    0 <= a < rest.len() ==> #[trigger] rest[a] == s[a + 1]);
            }
            assert(rest[i - 1] == s[i]);
            lemma_lookup_remove(rest, i - 1, k);
        }
    }
}

/// Unique keys survive removing a record.
pub proof fn lemma_unique_remove<T: Keyed>(s: Seq<T>, i: int)
    requires
        0 <= i < s.len(),
        keys_unique(s),
    ensures
        keys_unique(s.remove(i)),
{
    let r = s.remove(i);
    assert forall|a: int, b: int| 0 <= a < b < r.len() implies (#[trigger] r[a]).key() != (
    #[trigger] r[b]).key() by {
        let a0 = if a < i {
            a
        } else {
            a + 1
        };
        let b0 = if b < i {
            b
        } else {
            b + 1
        };
        assert(r[a] == s[a0] && r[b] == s[b0]);
    }
}

/// Unique keys survive appending a record whose key is absent.
pub proof fn lemma_unique_push<T: Keyed>(s: Seq<T>, e: T)
    requires
        keys_unique(s),
        lookup(s, e.key()) is None,
    ensures
        keys_unique(s.push(e)),
{
    lemma_lookup_present(s, e.key());
    let t = s.push(e);
    assert forall|a: int, b: int| 0 <= a < b < t.len() implies (#[trigger] t[a]).key() != (
    #[trigger] t[b]).key() by {
        assert(t[a] == s[a]);
        if b < s.len() {
            assert(t[b] == s[b]);
        } else {
            assert(t[b] == e);
        }
    }
}

} // verus!
