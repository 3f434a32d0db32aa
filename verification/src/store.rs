//! The item store: a durable map from a key to an item.
//!
//! The durable map holds one record for every key. The store reads a record
//! as the item it stands for, and writes an item as its record.

use crate::durable::{
    map_entries, map_get, map_init, map_insert, map_len, map_new, stored_records, RecordMap,
    MAX_VALUE_SIZE,
};
use crate::item::{Item, ItemView};
use crate::order::{items_in_key_order, lemma_ascending_keys, lemma_keys_listed, lists};
use crate::record::{fits, lemma_record_canonical, lemma_record_round_trip, parse_record};
use vstd::prelude::*;

verus! {

/// Whether `bytes` can stand in the durable map: a whole record within the
/// bound.
pub open spec fn is_record(bytes: Seq<u8>) -> bool {
    bytes.len() <= MAX_VALUE_SIZE && parse_record(bytes) is Some
}

/// Whether `records` are finitely many, and every one of them stands for an
/// item.
pub open spec fn holds_records(records: Map<u64, Seq<u8>>) -> bool {
    &&& records.dom().finite()
    &&& forall|key: u64| #[trigger] records.contains_key(key) ==> is_record(records[key])
}

/// The items that `records` stand for, under the same keys.
pub open spec fn items_of(records: Map<u64, Seq<u8>>) -> Map<u64, ItemView> {
    records.map_values(|bytes: Seq<u8>| parse_record(bytes)->0)
}

/// The items of `items` as mathematical values, in the same order.
pub open spec fn item_views(items: Seq<Item>) -> Seq<ItemView> {
    items.map_values(|item: Item| item@)
}

/// Whether `bytes` can stand in the durable map.
pub fn check_record(bytes: &[u8]) -> (ok: bool)
    ensures
        ok == is_record(bytes@),
{
    bytes.len() <= MAX_VALUE_SIZE && Item::from_bytes(bytes).is_some()
}

/// Whether every entry of `entries` holds a record.
pub fn check_records(entries: &Vec<(u64, Vec<u8>)>) -> (ok: bool)
    ensures
        ok == forall|i: int| 0 <= i < entries@.len() ==> is_record((#[trigger] entries@[i]).1@),
{
    let mut i: usize = 0;
    while i < entries.len()
        invariant
            i <= entries@.len(),
            forall|j: int| 0 <= j < i ==> is_record((#[trigger] entries@[j]).1@),
        decreases entries@.len() - i,
    {
        if !check_record(entries[i].1.as_slice()) {
            return false;
        }
        i = i + 1;
    }
    true
}

/// The durable store of the registry. Every record in it stands for an item.
pub struct ItemStore {
    map: RecordMap,
}

impl View for ItemStore {
    type V = Map<u64, ItemView>;

    closed spec fn view(&self) -> Map<u64, ItemView> {
        items_of(stored_records(self.map))
    }
}

impl ItemStore {
    /// Whether every record in the durable map stands for an item. It holds
    /// of every store that `new` or `open` has made, and every operation
    /// keeps it.
    pub closed spec fn wf(&self) -> bool {
        holds_records(stored_records(self.map))
    }

    /// A store that holds no item, laid out anew over the durable memory.
    pub fn new() -> (store: ItemStore)
        ensures
            store.wf(),
            store@ == Map::<u64, ItemView>::empty(),
    {
        let map = map_new();
        let store = ItemStore { map };
        assert(store@ =~= Map::<u64, ItemView>::empty());
        store
    }

    /// The store over `map`, with the items that its records stand for;
    /// `None` where some record of `map` stands for no item.
    pub fn over(map: RecordMap) -> (store: Option<ItemStore>)
        ensures
            store is Some <==> holds_records(stored_records(map)),
            store matches Some(opened) ==> opened.wf() && opened@ == items_of(stored_records(map)),
    {
        let entries = map_entries(&map);
        let ghost records = stored_records(map);
        proof {
            let keys = entries@.map_values(|entry: (u64, Vec<u8>)| entry.0);
            assert forall|key: u64| records.contains_key(key) implies keys.to_set().contains(
                key,
            ) by {
                let i = choose|i: int| 0 <= i < entries@.len() && (#[trigger] entries@[i]).0 == key;
                assert(keys[i] == key);
            }
            vstd::seq_lib::seq_to_set_is_finite(keys);
            vstd::set_lib::lemma_len_subset(records.dom(), keys.to_set());
        }
        if check_records(&entries) {
            proof {
                assert forall|key: u64| #[trigger] records.contains_key(key) implies is_record(
                    records[key],
                ) by {
                    let i = choose|i: int| 0 <= i < entries@.len() && (#[trigger] entries@[i]).0 == key;
                    assert(is_record(entries@[i].1@));
                }
            }
            Some(ItemStore { map })
        } else {
            proof {
                let i = choose|i: int| 0 <= i < entries@.len() && !is_record((#[trigger] entries@[i]).1@);
                assert(records.contains_key(entries@[i].0));
            }
            None
        }
    }

    /// The store that the durable memory holds, with the items that earlier
    /// calls left in it; `None` where some record in it stands for no item.
    pub fn open() -> (store: Option<ItemStore>)
        ensures
            store matches Some(opened) ==> opened.wf(),
    {
        ItemStore::over(map_init())
    }

    /// The item under `key`, if the store holds one.
    pub fn get(&self, key: u64) -> (found: Option<Item>)
        requires
            self.wf(),
        ensures
            match found {
                Some(item) => self@.contains_key(key) && item@ == self@[key] && fits(item@),
                None => !self@.contains_key(key),
            },
    {
        match map_get(&self.map, key) {
            Some(bytes) => {
                proof {
                    lemma_record_canonical(bytes@);
                }
                Item::from_bytes(bytes.as_slice())
            },
            None => None,
        }
    }

    /// Puts `item` under `key` and returns the item that was there before, if
    /// any. No other key is touched.
    pub fn insert(&mut self, key: u64, item: &Item) -> (previous: Option<Item>)
        requires
            old(self).wf(),
            fits(item@),
        ensures
            final(self).wf(),
            final(self)@ == old(self)@.insert(key, item@),
            match previous {
                Some(before) => old(self)@.contains_key(key) && before@ == old(self)@[key],
                None => !old(self)@.contains_key(key),
            },
    {
        proof {
            lemma_record_round_trip(item@);
        }
        match item.to_bytes() {
            Some(bytes) => {
                let previous = map_insert(&mut self.map, key, bytes.as_slice());
                assert(self@ =~= old(self)@.insert(key, item@));
                match previous {
                    Some(before) => Item::from_bytes(before.as_slice()),
                    None => None,
                }
            },
            None => None,
        }
    }

    /// The number of keys under which the store holds an item.
    pub fn count(&self) -> (n: u64)
        requires
            self.wf(),
        ensures
            self@.dom().finite(),
            n == self@.dom().len(),
    {
        let n = map_len(&self.map);
        assert(self@.dom() =~= stored_records(self.map).dom());
        n
    }

    /// Every item of the store, by ascending key.
    pub fn list(&self) -> (items: Vec<Item>)
        requires
            self.wf(),
        ensures
            self@.dom().finite(),
            items@.len() == self@.dom().len(),
            item_views(items@) == items_in_key_order(self@),
    {
        let entries = map_entries(&self.map);
        let ghost keys = entries@.map_values(|entry: (u64, Vec<u8>)| entry.0);
        let mut items: Vec<Item> = Vec::new();
        let mut i: usize = 0;
        while i < entries.len()
            invariant
                self.wf(),
                i <= entries@.len(),
                items@.len() == i,
                keys == entries@.map_values(|entry: (u64, Vec<u8>)| entry.0),
                forall|j: int|
                    0 <= j < entries@.len() ==> self@.contains_key((#[trigger] entries@[j]).0)
                        && is_record(entries@[j].1@) && parse_record(entries@[j].1@)->0
                        == self@[entries@[j].0],
                forall|j: int| 0 <= j < i ==> (#[trigger] items@[j])@ == self@[keys[j]],
            decreases entries@.len() - i,
        {
            match Item::from_bytes(entries[i].1.as_slice()) {
                Some(item) => {
                    items.push(item);
                },
                None => {},
            }
            i = i + 1;
        }
        proof {
            assert forall|key: u64| self@.dom().contains(key) <==> keys.contains(key) by {
                if self@.dom().contains(key) {
                    let j = choose|j: int| 0 <= j < entries@.len() && (#[trigger] entries@[j]).0 == key;
                    assert(keys[j] == key);
                }
                if keys.contains(key) {
                    let j = choose|j: int| 0 <= j < keys.len() && keys[j] == key;
                    assert(entries@[j].0 == key);
                }
            }
            assert(lists(keys, self@.dom())) by {
                assert forall|a: int, b: int| 0 <= a < b < keys.len() implies keys[a] < keys[b] by {
                    assert(entries@[a].0 < entries@[b].0);
                }
            }
            assert(self@.dom() =~= stored_records(self.map).dom());
            lemma_ascending_keys(keys, self@.dom());
            lemma_keys_listed(self@.dom());
            assert(item_views(items@) =~= items_in_key_order(self@));
        }
        items
    }
}

} // verus!
