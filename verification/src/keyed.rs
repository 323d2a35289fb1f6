//! Entry lists addressed by a key: the in-memory form every contract's
//! map-like state takes, with first-match lookup and key uniqueness.

use vstd::prelude::*;

verus! {

/// An entry addressed by a key.
pub trait KeyedField: Sized {
    /// The key's mathematical form, compared by `==`.
    type Key;

    /// The key this entry is addressed by.
    spec fn key(self) -> Self::Key;
}

/// The first entry carrying the key `a`, scanning in order.
pub open spec fn find_entry<E: KeyedField>(entries: Seq<E>, a: E::Key) -> Option<E>
    decreases entries.len(),
{
    if entries.len() == 0 {
        None
    } else if entries[0].key() == a {
        Some(entries[0])
    } else {
        find_entry(entries.drop_first(), a)
    }
}

/// No key addresses two entries.
pub open spec fn unique_by_key<E: KeyedField>(entries: Seq<E>) -> bool {
    forall|i: int, j: int|
        #![trigger entries[i], entries[j]]
        0 <= i < j < entries.len() ==> entries[i].key() != entries[j].key()
}

/// A key none of the entries carries is absent.
pub proof fn lemma_no_match_find_none<E: KeyedField>(entries: Seq<E>, a: E::Key)
    requires
        forall|k: int| 0 <= k < entries.len() ==> (#[trigger] entries[k]).key() != a,
    ensures
        find_entry(entries, a) is None,
    decreases entries.len(),
{
    if entries.len() > 0 {
        let d = entries.drop_first();
        assert forall|k: int| 0 <= k < d.len() implies (#[trigger] d[k]).key() != a by {
            assert(d[k] == entries[k + 1]);
        }
        lemma_no_match_find_none(d, a);
    }
}

/// An absent key is carried by no entry.
pub proof fn lemma_find_none_no_match<E: KeyedField>(entries: Seq<E>, a: E::Key)
    requires
        find_entry(entries, a) is None,
    ensures
        forall|k: int| 0 <= k < entries.len() ==> (#[trigger] entries[k]).key() != a,
    decreases entries.len(),
{
    if entries.len() > 0 {
        let d = entries.drop_first();
        lemma_find_none_no_match(d, a);
        assert forall|k: int| 0 <= k < entries.len() implies (#[trigger] entries[k]).key() != a by {
            if k > 0 {
                assert(entries[k] == d[k - 1]);
            }
        }
    }
}

/// The entry at a first-match index is what lookup finds.
pub proof fn lemma_find_at_index<E: KeyedField>(entries: Seq<E>, i: int)
    requires
        0 <= i < entries.len(),
        forall|m: int| 0 <= m < i ==> (#[trigger] entries[m]).key() != entries[i].key(),
    ensures
        find_entry(entries, entries[i].key()) == Some(entries[i]),
    decreases i,
{
    if i > 0 {
        assert(forall|m: int|
            0 <= m < i - 1 ==> (#[trigger] entries.drop_first()[m]) == entries[m + 1]);
        lemma_find_at_index(entries.drop_first(), i - 1);
    }
}

/// Replacing the entry at a first-match index with one carrying the same
/// key changes exactly that key's lookup, and no other.
pub proof fn lemma_find_update<E: KeyedField>(entries: Seq<E>, i: int, e: E)
    requires
        0 <= i < entries.len(),
        e.key() == entries[i].key(),
        forall|m: int| 0 <= m < i ==> (#[trigger] entries[m]).key() != entries[i].key(),
    ensures
        forall|a: E::Key|
            #![trigger find_entry(entries.update(i, e), a)]
            find_entry(entries.update(i, e), a) == if a == entries[i].key() {
                Some(e)
            } else {
                find_entry(entries, a)
            },
    decreases i,
{
    let u = entries.update(i, e);
    if i == 0 {
        assert(u.drop_first() =~= entries.drop_first());
        assert forall|a: E::Key|
            find_entry(u, a) == (if a == entries[0].key() {
                Some(e)
            } else {
                find_entry(entries, a)
            }) by {
            assert(u[0] == e);
            assert(find_entry(u, a) == if u[0].key() == a {
                Some(u[0])
            } else {
                find_entry(u.drop_first(), a)
            });
            assert(find_entry(entries, a) == if entries[0].key() == a {
                Some(entries[0])
            } else {
                find_entry(entries.drop_first(), a)
            });
        }
    } else {
        let d = entries.drop_first();
        assert(d[i - 1] == entries[i]);
        assert(u.drop_first() =~= d.update(i - 1, e));
        assert(forall|m: int| 0 <= m < i - 1 ==> (#[trigger] d[m]) == entries[m + 1]);
        lemma_find_update(d, i - 1, e);
        assert forall|a: E::Key|
            find_entry(u, a) == (if a == entries[i].key() {
                Some(e)
            } else {
                find_entry(entries, a)
            }) by {
            assert(find_entry(d.update(i - 1, e), a) == if a == d[i - 1].key() {
                Some(e)
            } else {
                find_entry(d, a)
            });
            assert(u[0] == entries[0]);
            assert(find_entry(u, a) == if u[0].key() == a {
                Some(u[0])
            } else {
                find_entry(u.drop_first(), a)
            });
            assert(find_entry(entries, a) == if entries[0].key() == a {
                Some(entries[0])
            } else {
                find_entry(d, a)
            });
            if a == entries[i].key() {
                assert(entries[0].key() != a);
            }
        }
    }
}

/// Appending an entry for an absent key adds exactly that key.
pub proof fn lemma_find_push<E: KeyedField>(entries: Seq<E>, e: E)
    ensures
        forall|a: E::Key|
            #![trigger find_entry(entries.push(e), a)]
            find_entry(entries.push(e), a) == (match find_entry(entries, a) {
                Some(x) => Some(x),
                None => if a == e.key() {
                    Some(e)
                } else {
                    None
                },
            }),
    decreases entries.len(),
{
    let u = entries.push(e);
    if entries.len() == 0 {
        assert(u.drop_first() =~= Seq::<E>::empty());
        assert(u[0] == e);
        assert forall|a: E::Key|
            find_entry(u, a) == (match find_entry(entries, a) {
                Some(x) => Some(x),
                None => if a == e.key() {
                    Some(e)
                } else {
                    None
                },
            }) by {
            assert(find_entry(u, a) == if u[0].key() == a {
                Some(u[0])
            } else {
                find_entry(u.drop_first(), a)
            });
        }
    } else {
        assert(u.drop_first() =~= entries.drop_first().push(e));
        lemma_find_push(entries.drop_first(), e);
        assert(u[0] == entries[0]);
        assert forall|a: E::Key|
            find_entry(u, a) == (match find_entry(entries, a) {
                Some(x) => Some(x),
                None => if a == e.key() {
                    Some(e)
                } else {
                    None
                },
            }) by {
            assert(find_entry(u, a) == if u[0].key() == a {
                Some(u[0])
            } else {
                find_entry(u.drop_first(), a)
            });
            assert(find_entry(entries.drop_first().push(e), a) == (match find_entry(
                entries.drop_first(),
                a,
            ) {
                Some(x) => Some(x),
                None => if a == e.key() {
                    Some(e)
                } else {
                    None
                },
            }));
        }
    }
}

/// Removing the entry for a key removes exactly that key's lookup, and
/// no other, provided keys are unique.
pub proof fn lemma_find_remove<E: KeyedField>(entries: Seq<E>, i: int)
    requires
        0 <= i < entries.len(),
        unique_by_key(entries),
    ensures
        forall|a: E::Key|
            #![trigger find_entry(entries.remove(i), a)]
            find_entry(entries.remove(i), a) == if a == entries[i].key() {
                None::<E>
            } else {
                find_entry(entries, a)
            },
    decreases i,
{
    let u = entries.remove(i);
    if i == 0 {
        assert(u =~= entries.drop_first());
        assert forall|a: E::Key|
            find_entry(u, a) == (if a == entries[0].key() {
                None::<E>
            } else {
                find_entry(entries, a)
            }) by {
            if a == entries[0].key() {
                assert forall|k: int| 0 <= k < u.len() implies (#[trigger] u[k]).key() != a by {
                    assert(u[k] == entries[k + 1]);
                }
                lemma_no_match_find_none(u, a);
            } else {
                assert(find_entry(entries, a) == if entries[0].key() == a {
                    Some(entries[0])
                } else {
                    find_entry(entries.drop_first(), a)
                });
            }
        }
    } else {
        let d = entries.drop_first();
        assert(d[i - 1] == entries[i]);
        assert(u.drop_first() =~= d.remove(i - 1));
        assert(u[0] == entries[0]);
        assert forall|p: int, q: int|
            #![trigger d[p], d[q]]
            0 <= p < q < d.len() implies d[p].key() != d[q].key() by {
            assert(d[p] == entries[p + 1]);
            assert(d[q] == entries[q + 1]);
        }
        lemma_find_remove(d, i - 1);
        assert forall|a: E::Key|
            find_entry(u, a) == (if a == entries[i].key() {
                None::<E>
            } else {
                find_entry(entries, a)
            }) by {
            assert(find_entry(d.remove(i - 1), a) == if a == d[i - 1].key() {
                None::<E>
            } else {
                find_entry(d, a)
            });
            assert(find_entry(u, a) == if u[0].key() == a {
                Some(u[0])
            } else {
                find_entry(u.drop_first(), a)
            });
            assert(find_entry(entries, a) == if entries[0].key() == a {
                Some(entries[0])
            } else {
                find_entry(d, a)
            });
            if a == entries[i].key() {
                assert(entries[0].key() != a);
            }
        }
    }
}

} // verus!
