//! The order in which the registry lists its items, and what it means to
//! lead a listing.

use crate::item::ItemView;
use vstd::prelude::*;

verus! {

/// Whether every key of `keys` is below the keys that follow it.
pub open spec fn ascending(keys: Seq<u64>) -> bool {
    forall|i: int, j: int| 0 <= i < j < keys.len() ==> keys[i] < keys[j]
}

/// Whether `keys` lists the keys of `dom`, each once, from the least up.
pub open spec fn lists(keys: Seq<u64>, dom: Set<u64>) -> bool {
    ascending(keys) && forall|key: u64| dom.contains(key) <==> keys.contains(key)
}

/// The keys of `dom` from the least up.
pub open spec fn ascending_keys(dom: Set<u64>) -> Seq<u64> {
    choose|keys: Seq<u64>| lists(keys, dom)
}

/// The items of a registry by ascending key.
pub open spec fn items_in_key_order(registry: Map<u64, ItemView>) -> Seq<ItemView> {
    ascending_keys(registry.dom()).map_values(|key: u64| registry[key])
}

/// Whether `values[at]` is the greatest of `values`, and the last that is.
pub open spec fn is_last_maximum(values: Seq<nat>, at: int) -> bool {
    &&& 0 <= at < values.len()
    &&& forall|i: int| 0 <= i < values.len() ==> values[i] <= values[at]
    &&& forall|i: int| at < i < values.len() ==> values[i] < values[at]
}

/// A set of keys has one listing only.
pub proof fn lemma_one_listing(a: Seq<u64>, b: Seq<u64>, dom: Set<u64>)
    requires
        lists(a, dom),
        lists(b, dom),
    ensures
        a == b,
    decreases a.len(),
{
    if a.len() == 0 {
        if b.len() > 0 {
            assert(b.contains(b[0]));
            assert(dom.contains(b[0]));
            assert(a.contains(b[0]));
        }
        assert(a =~= b);
    } else {
        let top = a.last();
        assert(a.contains(top));
        assert(dom.contains(top));
        assert(b.contains(top));
        let other = b.last();
        assert(b.contains(other));
        assert(dom.contains(other));
        assert(a.contains(other));
        assert(top == other);
        let shorter_a = a.drop_last();
        let shorter_b = b.drop_last();
        let rest = dom.remove(top);
        assert forall|key: u64| rest.contains(key) <==> shorter_a.contains(key) by {
            if rest.contains(key) {
                assert(a.contains(key));
                let i = choose|i: int| 0 <= i < a.len() && a[i] == key;
                assert(shorter_a[i] == key);
            }
            if shorter_a.contains(key) {
                let i = choose|i: int| 0 <= i < shorter_a.len() && shorter_a[i] == key;
                assert(a[i] == key);
                assert(a.contains(key));
            }
        }
        assert forall|key: u64| rest.contains(key) <==> shorter_b.contains(key) by {
            if rest.contains(key) {
                assert(b.contains(key));
                let i = choose|i: int| 0 <= i < b.len() && b[i] == key;
                assert(shorter_b[i] == key);
            }
            if shorter_b.contains(key) {
                let i = choose|i: int| 0 <= i < shorter_b.len() && shorter_b[i] == key;
                assert(b[i] == key);
                assert(b.contains(key));
            }
        }
        lemma_one_listing(shorter_a, shorter_b, rest);
        assert(a =~= shorter_a.push(top));
        assert(b =~= shorter_b.push(other));
    }
}

/// A listing of a set of keys is the listing of that set.
pub proof fn lemma_ascending_keys(keys: Seq<u64>, dom: Set<u64>)
    requires
        lists(keys, dom),
    ensures
        ascending_keys(dom) == keys,
{
    let chosen = choose|listing: Seq<u64>| lists(listing, dom);
    assert(lists(chosen, dom));
    lemma_one_listing(chosen, keys, dom);
}

/// `keys` with `key` put in at its place.
pub open spec fn with_key(keys: Seq<u64>, key: u64) -> Seq<u64>
    decreases keys.len(),
{
    if keys.len() == 0 || keys.last() < key {
        keys.push(key)
    } else {
        with_key(keys.drop_last(), key).push(keys.last())
    }
}

proof fn lemma_with_key(keys: Seq<u64>, key: u64)
    requires
        ascending(keys),
        !keys.contains(key),
    ensures
        ascending(with_key(keys, key)),
        with_key(keys, key).len() == keys.len() + 1,
        with_key(keys, key).last() == if keys.len() == 0 || keys.last() < key {
            key
        } else {
            keys.last()
        },
        forall|other: u64|
            with_key(keys, key).contains(other) <==> other == key || keys.contains(other),
    decreases keys.len(),
{
    let longer = with_key(keys, key);
    if keys.len() == 0 || keys.last() < key {
        assert(longer[keys.len() as int] == key);
        assert forall|other: u64| longer.contains(other) <==> other == key || keys.contains(
            other,
        ) by {
            if longer.contains(other) {
                let i = choose|i: int| 0 <= i < longer.len() && longer[i] == other;
                if i < keys.len() {
                    assert(keys[i] == other);
                }
            }
            if keys.contains(other) {
                let i = choose|i: int| 0 <= i < keys.len() && keys[i] == other;
                assert(longer[i] == other);
            }
        }
    } else {
        let top = keys.last();
        let shorter = keys.drop_last();
        assert(keys.contains(top));
        assert(top > key);
        assert(!shorter.contains(key)) by {
            if shorter.contains(key) {
                let i = choose|i: int| 0 <= i < shorter.len() && shorter[i] == key;
                assert(keys[i] == key);
            }
        }
        lemma_with_key(shorter, key);
        let inner = with_key(shorter, key);
        assert(longer == inner.push(top));
        assert(inner.last() < top) by {
            if !(shorter.len() == 0 || shorter.last() < key) {
                assert(shorter.last() == keys[keys.len() - 2]);
            }
        }
        assert forall|i: int, j: int| 0 <= i < j < longer.len() implies longer[i] < longer[j] by {
            if j == longer.len() - 1 {
                if i < inner.len() - 1 {
                    assert(inner[i] < inner[inner.len() - 1]);
                }
            } else {
                assert(inner[i] < inner[j]);
            }
        }
        assert forall|other: u64| longer.contains(other) <==> other == key || keys.contains(
            other,
        ) by {
            if longer.contains(other) {
                let i = choose|i: int| 0 <= i < longer.len() && longer[i] == other;
                if i < inner.len() {
                    assert(inner.contains(other));
                    if shorter.contains(other) {
                        let j = choose|j: int| 0 <= j < shorter.len() && shorter[j] == other;
                        assert(keys[j] == other);
                    }
                }
            }
            if other == key {
                assert(inner.contains(key));
                let i = choose|i: int| 0 <= i < inner.len() && inner[i] == key;
                assert(longer[i] == key);
            }
            if keys.contains(other) {
                let i = choose|i: int| 0 <= i < keys.len() && keys[i] == other;
                if i < shorter.len() {
                    assert(shorter[i] == other);
                    assert(shorter.contains(other));
                    assert(inner.contains(other));
                    let j = choose|j: int| 0 <= j < inner.len() && inner[j] == other;
                    assert(longer[j] == other);
                } else {
                    assert(longer[longer.len() - 1] == other);
                }
            }
        }
    }
}

/// Every finite set of keys has its listing, which holds as many keys as
/// the set.
pub proof fn lemma_keys_listed(dom: Set<u64>)
    requires
        dom.finite(),
    ensures
        lists(ascending_keys(dom), dom),
        ascending_keys(dom).len() == dom.len(),
    decreases dom.len(),
{
    if dom.len() == 0 {
        let none = Seq::<u64>::empty();
        assert(dom =~= Set::<u64>::empty());
        assert(lists(none, dom));
        lemma_ascending_keys(none, dom);
    } else {
        let key = dom.choose();
        let rest = dom.remove(key);
        lemma_keys_listed(rest);
        let keys = ascending_keys(rest);
        lemma_with_key(keys, key);
        assert(lists(with_key(keys, key), dom));
        lemma_ascending_keys(with_key(keys, key), dom);
    }
}

} // verus!
