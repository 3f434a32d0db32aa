//! The operations of the registry: listing an item, bidding on it, editing
//! and closing it, and the queries.
//!
//! Every operation that writes reads one record, decides on it, and writes
//! one record back: a call that is turned down leaves the store as it was.

use crate::identity::Identity;
use crate::item::{BidError, CreateItem, Item, ItemView};
use crate::order::{ascending_keys, is_last_maximum, items_in_key_order, lemma_keys_listed};
use crate::record::{fits, lemma_closed_fits};
use crate::store::{item_views, ItemStore};
use vstd::prelude::*;

verus! {

/// What the registry answers a caller who edits or closes the item under
/// `key`.
pub open spec fn owner_outcome(
    registry: Map<u64, ItemView>,
    caller: Seq<u8>,
    key: u64,
) -> Result<(), BidError> {
    if !registry.contains_key(key) {
        Err(BidError::NoSuchItem)
    } else if registry[key].owner != caller {
        Err(BidError::AccessRejected)
    } else {
        Ok(())
    }
}

/// What the registry answers a caller who bids on the item under `key`.
pub open spec fn bid_outcome(registry: Map<u64, ItemView>, key: u64) -> Result<(), BidError> {
    if !registry.contains_key(key) {
        Err(BidError::NoSuchItem)
    } else if !registry[key].is_active {
        Err(BidError::ItemIsNotActive)
    } else {
        Ok(())
    }
}

/// The registry after `caller` has listed an item under `key`.
pub open spec fn after_create(
    registry: Map<u64, ItemView>,
    caller: Seq<u8>,
    key: u64,
    description: Seq<char>,
    is_active: bool,
) -> Map<u64, ItemView> {
    registry.insert(key, ItemView::fresh(description, is_active, caller))
}

/// The registry after `caller` has asked to edit the item under `key`.
pub open spec fn after_edit(
    registry: Map<u64, ItemView>,
    caller: Seq<u8>,
    key: u64,
    description: Seq<char>,
    is_active: bool,
) -> Map<u64, ItemView> {
    if owner_outcome(registry, caller, key) is Ok {
        registry.insert(key, registry[key].edited(description, is_active, caller))
    } else {
        registry
    }
}

/// The registry after `caller` has asked to close the item under `key`.
pub open spec fn after_end(
    registry: Map<u64, ItemView>,
    caller: Seq<u8>,
    key: u64,
) -> Map<u64, ItemView> {
    if owner_outcome(registry, caller, key) is Ok {
        registry.insert(key, registry[key].closed())
    } else {
        registry
    }
}

/// The registry after `caller` has bid `amount` on the item under `key`.
pub open spec fn after_bid(
    registry: Map<u64, ItemView>,
    caller: Seq<u8>,
    key: u64,
    amount: u32,
) -> Map<u64, ItemView> {
    if bid_outcome(registry, key) is Ok {
        registry.insert(key, registry[key].with_bid(amount, caller))
    } else {
        registry
    }
}

/// Whether the item that `caller` would list is within the bound of the
/// durable map.
pub open spec fn create_fits(caller: Seq<u8>, description: Seq<char>, is_active: bool) -> bool {
    fits(ItemView::fresh(description, is_active, caller))
}

/// Whether the edit, where it is granted, leaves an item within the bound of
/// the durable map.
pub open spec fn edit_fits(
    registry: Map<u64, ItemView>,
    caller: Seq<u8>,
    key: u64,
    description: Seq<char>,
    is_active: bool,
) -> bool {
    owner_outcome(registry, caller, key) is Ok ==> fits(
        registry[key].edited(description, is_active, caller),
    )
}

/// Whether the bid, where it is taken, leaves an item within the bound of the
/// durable map.
pub open spec fn bid_fits(
    registry: Map<u64, ItemView>,
    caller: Seq<u8>,
    key: u64,
    amount: u32,
) -> bool {
    bid_outcome(registry, key) is Ok ==> fits(registry[key].with_bid(amount, caller))
}

/// What the registry ranks an item by: its leading bid, or the number of
/// bids that it has taken.
pub open spec fn rank(by_bid: bool, item: ItemView) -> nat {
    if by_bid {
        item.current_highest_bid as nat
    } else {
        item.bidders.len()
    }
}

/// Whether the item under `key` leads the registry: no item ranks above it,
/// and those under greater keys rank below it.
pub open spec fn leads(by_bid: bool, registry: Map<u64, ItemView>, key: u64) -> bool {
    &&& registry.contains_key(key)
    &&& forall|other: u64| #[trigger]
        registry.contains_key(other) ==> rank(by_bid, registry[other]) <= rank(
            by_bid,
            registry[key],
        )
    &&& forall|other: u64| #[trigger]
        registry.contains_key(other) && other > key ==> rank(by_bid, registry[other]) < rank(
            by_bid,
            registry[key],
        )
}

/// Whether no item of the registry has a greater leading bid than the item
/// under `key`, and those under greater keys have a smaller one.
pub open spec fn is_most_expensive(registry: Map<u64, ItemView>, key: u64) -> bool {
    leads(true, registry, key)
}

/// Whether no item of the registry has taken more bids than the item under
/// `key`, and those under greater keys have taken fewer.
pub open spec fn is_most_bidded(registry: Map<u64, ItemView>, key: u64) -> bool {
    leads(false, registry, key)
}

/// The ranks of `items`, in the same order.
pub open spec fn ranks(by_bid: bool, items: Seq<ItemView>) -> Seq<nat> {
    items.map_values(|item: ItemView| rank(by_bid, item))
}

/// The last item that ranks highest in the listing leads the registry.
proof fn lemma_last_maximum_leads(by_bid: bool, registry: Map<u64, ItemView>, at: int)
    requires
        registry.dom().finite(),
        is_last_maximum(ranks(by_bid, items_in_key_order(registry)), at),
    ensures
        leads(by_bid, registry, ascending_keys(registry.dom())[at]),
        items_in_key_order(registry)[at] == registry[ascending_keys(registry.dom())[at]],
{
    let keys = ascending_keys(registry.dom());
    let items = items_in_key_order(registry);
    let values = ranks(by_bid, items);
    let key = keys[at];
    lemma_keys_listed(registry.dom());
    assert(keys.contains(key));
    assert forall|other: u64| #[trigger] registry.contains_key(other) implies rank(
        by_bid,
        registry[other],
    ) <= rank(by_bid, registry[key]) && (other > key ==> rank(by_bid, registry[other]) < rank(
        by_bid,
        registry[key],
    )) by {
        assert(keys.contains(other));
        let j = choose|j: int| 0 <= j < keys.len() && keys[j] == other;
        assert(values[j] == rank(by_bid, registry[other]));
        assert(values[at] == rank(by_bid, registry[key]));
        if other > key && j < at {
            assert(keys[j] < keys[at]);
        }
    }
}

/// Lets the owner of `item` through and nobody else.
pub fn authorize(caller: &Identity, item: &Item) -> (result: Result<(), BidError>)
    ensures
        result == if caller@ == item@.owner {
            Ok::<(), BidError>(())
        } else {
            Err(BidError::AccessRejected)
        },
{
    if *caller == item.owner {
        Ok(())
    } else {
        Err(BidError::AccessRejected)
    }
}

/// The item under `key`, if the registry holds one.
pub fn get_item(store: &ItemStore, key: u64) -> (found: Option<Item>)
    requires
        store.wf(),
    ensures
        match found {
            Some(item) => store@.contains_key(key) && item@ == store@[key],
            None => !store@.contains_key(key),
        },
{
    store.get(key)
}

/// The number of keys under which the registry holds an item.
pub fn get_item_count(store: &ItemStore) -> (n: u64)
    requires
        store.wf(),
    ensures
        store@.dom().finite(),
        n == store@.dom().len(),
{
    store.count()
}

/// Every item of the registry, by ascending key.
pub fn get_list_of_items(store: &ItemStore) -> (items: Vec<Item>)
    requires
        store.wf(),
    ensures
        store@.dom().finite(),
        items@.len() == store@.dom().len(),
        item_views(items@) == items_in_key_order(store@),
{
    store.list()
}

/// The place in `items` of the last item that ranks highest.
fn last_maximum(items: &Vec<Item>, by_bid: bool) -> (at: usize)
    requires
        items@.len() > 0,
    ensures
        is_last_maximum(ranks(by_bid, item_views(items@)), at as int),
{
    let ghost values = ranks(by_bid, item_views(items@));
    let mut at: usize = 0;
    let mut i: usize = 1;
    while i < items.len()
        invariant
            1 <= i <= items@.len(),
            values == ranks(by_bid, item_views(items@)),
            is_last_maximum(values.take(i as int), at as int),
        decreases items@.len() - i,
    {
        let leads = if by_bid {
            items[i].current_highest_bid >= items[at].current_highest_bid
        } else {
            items[i].bidders.len() >= items[at].bidders.len()
        };
        if leads {
            at = i;
        }
        i = i + 1;
    }
    assert(values.take(i as int) =~= values);
    at
}

/// The item with the greatest leading bid; among several, the one with the
/// greatest key. `None` where the registry holds no item.
pub fn most_expensive_item(store: &ItemStore) -> (found: Option<Item>)
    requires
        store.wf(),
    ensures
        match found {
            Some(item) => exists|key: u64| is_most_expensive(store@, key) && item@ == store@[key],
            None => store@.dom() == Set::<u64>::empty(),
        },
{
    let mut items = store.list();
    if items.len() == 0 {
        proof {
            lemma_keys_listed(store@.dom());
            assert(item_views(items@).len() == 0);
            assert(ascending_keys(store@.dom()).len() == 0);
            assert(store@.dom() =~= Set::<u64>::empty());
        }
        return None;
    }
    let ghost listing = item_views(items@);
    let at = last_maximum(&items, true);
    assert(listing[at as int] == items@[at as int]@);
    let item = items.swap_remove(at);
    proof {
        lemma_last_maximum_leads(true, store@, at as int);
        let key = ascending_keys(store@.dom())[at as int];
        assert(is_most_expensive(store@, key) && item@ == store@[key]);
    }
    Some(item)
}

/// The item that has taken the most bids; among several, the one with the
/// greatest key. `None` where the registry holds no item.
pub fn most_bidded_item(store: &ItemStore) -> (found: Option<Item>)
    requires
        store.wf(),
    ensures
        match found {
            Some(item) => exists|key: u64| is_most_bidded(store@, key) && item@ == store@[key],
            None => store@.dom() == Set::<u64>::empty(),
        },
{
    let mut items = store.list();
    if items.len() == 0 {
        proof {
            lemma_keys_listed(store@.dom());
            assert(item_views(items@).len() == 0);
            assert(ascending_keys(store@.dom()).len() == 0);
            assert(store@.dom() =~= Set::<u64>::empty());
        }
        return None;
    }
    let ghost listing = item_views(items@);
    let at = last_maximum(&items, false);
    assert(listing[at as int] == items@[at as int]@);
    let item = items.swap_remove(at);
    proof {
        lemma_last_maximum_leads(false, store@, at as int);
        let key = ascending_keys(store@.dom())[at as int];
        assert(is_most_bidded(store@, key) && item@ == store@[key]);
    }
    Some(item)
}

/// Lists an item under `key` for `caller`, who becomes its owner. The item
/// starts with no bid and no bidder. An item that was under `key` is
/// overwritten without notice, and handed back.
pub fn create_item(
    store: &mut ItemStore,
    caller: &Identity,
    key: u64,
    item: CreateItem,
) -> (previous: Option<Item>)
    requires
        old(store).wf(),
        create_fits(caller@, item.description@, item.is_active),
    ensures
        final(store).wf(),
        final(store)@ == after_create(
            old(store)@,
            caller@,
            key,
            item.description@,
            item.is_active,
        ),
        match previous {
            Some(before) => old(store)@.contains_key(key) && before@ == old(store)@[key],
            None => !old(store)@.contains_key(key),
        },
{
    let value = Item::fresh(item, caller.clone());
    store.insert(key, &value)
}

/// Gives the item under `key` the description and the flag of `item`, for
/// its owner only. The bids stay as they are.
pub fn edit_item(
    store: &mut ItemStore,
    caller: &Identity,
    key: u64,
    item: CreateItem,
) -> (result: Result<(), BidError>)
    requires
        old(store).wf(),
        edit_fits(old(store)@, caller@, key, item.description@, item.is_active),
    ensures
        final(store).wf(),
        result == owner_outcome(old(store)@, caller@, key),
        final(store)@ == after_edit(old(store)@, caller@, key, item.description@, item.is_active),
{
    let old_item = match store.get(key) {
        Some(value) => value,
        None => {
            return Err(BidError::NoSuchItem);
        },
    };
    match authorize(caller, &old_item) {
        Err(rejected) => {
            return Err(rejected);
        },
        Ok(()) => {},
    }
    let value = old_item.edit(item, caller.clone());
    let res = store.insert(key, &value);
    match res {
        Some(_) => Ok(()),
        None => Err(BidError::UpdateError),
    }
}

/// Closes the auction of the item under `key`, for its owner only: the item
/// goes to the leading bidder and takes no more bids, and its bids are
/// wiped.
pub fn end_item(
    store: &mut ItemStore,
    caller: &Identity,
    key: u64,
) -> (result: Result<(), BidError>)
    requires
        old(store).wf(),
    ensures
        final(store).wf(),
        result == owner_outcome(old(store)@, caller@, key),
        final(store)@ == after_end(old(store)@, caller@, key),
{
    let item = match store.get(key) {
        Some(value) => value,
        None => {
            return Err(BidError::NoSuchItem);
        },
    };
    match authorize(caller, &item) {
        Err(rejected) => {
            return Err(rejected);
        },
        Ok(()) => {},
    }
    proof {
        lemma_closed_fits(item@);
    }
    let value = item.close();
    let res = store.insert(key, &value);
    match res {
        Some(_) => Ok(()),
        None => Err(BidError::UpdateError),
    }
}

/// Takes the bid of `bid_amount` by `caller` on the item under `key`, where
/// the item is active. Anybody may bid, the owner too. The caller joins the
/// bidders whatever the amount, and leads only with an amount above the
/// leading bid.
pub fn bid(
    store: &mut ItemStore,
    caller: &Identity,
    key: u64,
    bid_amount: u32,
) -> (result: Result<(), BidError>)
    requires
        old(store).wf(),
        bid_fits(old(store)@, caller@, key, bid_amount),
    ensures
        final(store).wf(),
        result == bid_outcome(old(store)@, key),
        final(store)@ == after_bid(old(store)@, caller@, key, bid_amount),
{
    let item = match store.get(key) {
        Some(value) => value,
        None => {
            return Err(BidError::NoSuchItem);
        },
    };
    if item.is_active == false {
        return Err(BidError::ItemIsNotActive);
    }
    let value = item.take_bid(bid_amount, caller);
    let res = store.insert(key, &value);
    match res {
        Some(_) => Ok(()),
        None => Err(BidError::UpdateError),
    }
}

/// Whether `create_item` can take this call: whether the item that it would
/// list is within the bound of the durable map.
pub fn can_create(caller: &Identity, item: &CreateItem) -> (ok: bool)
    ensures
        ok == create_fits(caller@, item.description@, item.is_active),
{
    let input = CreateItem { description: item.description.clone(), is_active: item.is_active };
    let value = Item::fresh(input, caller.clone());
    value.to_bytes().is_some()
}

/// Whether `edit_item` can take this call: whether the edit, where it is
/// granted, leaves an item within the bound of the durable map.
pub fn can_edit(store: &ItemStore, caller: &Identity, key: u64, item: &CreateItem) -> (ok: bool)
    requires
        store.wf(),
    ensures
        ok == edit_fits(store@, caller@, key, item.description@, item.is_active),
{
    match store.get(key) {
        Some(old_item) => match authorize(caller, &old_item) {
            Ok(()) => {
                let input = CreateItem {
                    description: item.description.clone(),
                    is_active: item.is_active,
                };
                let value = old_item.edit(input, caller.clone());
                value.to_bytes().is_some()
            },
            Err(_) => true,
        },
        None => true,
    }
}

/// Whether `bid` can take this call: whether the bid, where it is taken,
/// leaves an item within the bound of the durable map.
pub fn can_bid(store: &ItemStore, caller: &Identity, key: u64, bid_amount: u32) -> (ok: bool)
    requires
        store.wf(),
    ensures
        ok == bid_fits(store@, caller@, key, bid_amount),
{
    match store.get(key) {
        Some(item) => {
            if item.is_active {
                let value = item.take_bid(bid_amount, caller);
                value.to_bytes().is_some()
            } else {
                true
            }
        },
        None => true,
    }
}

} // verus!
