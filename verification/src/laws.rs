//! What holds of the registry whatever the calls: the laws that the
//! operations keep, stated over the registry as a mathematical map.

use crate::item::{BidError, ItemView};
use crate::registry::{
    after_bid, after_create, after_edit, after_end, bid_outcome, leads, owner_outcome, rank,
};
use crate::record::{blobs_bytes, lemma_take_number, record_bytes};
use vstd::prelude::*;
use vstd::utf8::encode_utf8;

verus! {

/// An item that was just listed is held under its key as its creator
/// described it: owned by the creator, with no bid, no leader and no bidder.
/// Every other key holds what it held.
pub proof fn law_created_item_is_fresh(
    registry: Map<u64, ItemView>,
    creator: Seq<u8>,
    key: u64,
    description: Seq<char>,
    is_active: bool,
)
    ensures
        ({
            let after = after_create(registry, creator, key, description, is_active);
            &&& after.contains_key(key)
            &&& after[key].description == description
            &&& after[key].is_active == is_active
            &&& after[key].current_highest_bid == 0
            &&& after[key].current_highest_bidder == Seq::<u8>::empty()
            &&& after[key].bidders == Seq::<Seq<u8>>::empty()
            &&& after[key].owner == creator
            &&& forall|other: u64|
                other != key ==> after.contains_key(other) == registry.contains_key(other)
                    && after[other] == registry[other]
        }),
{
}

/// A bid on an active item that is not above the leading bid leaves the
/// leading bid and the leader as they were, and adds the caller to the
/// bidders: the history grows by exactly one.
pub proof fn law_low_bid_keeps_leader(
    registry: Map<u64, ItemView>,
    caller: Seq<u8>,
    key: u64,
    amount: u32,
)
    requires
        registry.contains_key(key),
        registry[key].is_active,
        amount <= registry[key].current_highest_bid,
    ensures
        bid_outcome(registry, key) is Ok,
        ({
            let before = registry[key];
            let after = after_bid(registry, caller, key, amount)[key];
            &&& after.current_highest_bid == before.current_highest_bid
            &&& after.current_highest_bidder == before.current_highest_bidder
            &&& after.bidders == before.bidders.push(caller)
            &&& after.bidders.len() == before.bidders.len() + 1
            &&& after.owner == before.owner
            &&& after.is_active
            &&& after.description == before.description
        }),
{
}

/// A bid on an active item that is above the leading bid becomes the leading
/// bid, its caller the leader, and the history grows by exactly one.
pub proof fn law_high_bid_takes_lead(
    registry: Map<u64, ItemView>,
    caller: Seq<u8>,
    key: u64,
    amount: u32,
)
    requires
        registry.contains_key(key),
        registry[key].is_active,
        amount > registry[key].current_highest_bid,
    ensures
        bid_outcome(registry, key) is Ok,
        ({
            let before = registry[key];
            let after = after_bid(registry, caller, key, amount)[key];
            &&& after.current_highest_bid == amount
            &&& after.current_highest_bidder == caller
            &&& after.bidders == before.bidders.push(caller)
            &&& after.bidders.len() == before.bidders.len() + 1
            &&& after.owner == before.owner
            &&& after.is_active
            &&& after.description == before.description
        }),
{
}

/// A bid under a key that holds no item is answered `NoSuchItem`, a bid on a
/// closed item `ItemIsNotActive`; either way the registry stays as it was.
pub proof fn law_refused_bid_changes_nothing(
    registry: Map<u64, ItemView>,
    caller: Seq<u8>,
    key: u64,
    amount: u32,
)
    ensures
        !registry.contains_key(key) ==> bid_outcome(registry, key) == Err::<(), BidError>(
            BidError::NoSuchItem,
        ),
        registry.contains_key(key) && !registry[key].is_active ==> bid_outcome(registry, key)
            == Err::<(), BidError>(BidError::ItemIsNotActive),
        bid_outcome(registry, key) is Err ==> after_bid(registry, caller, key, amount) == registry,
{
}

/// Editing or closing an item that another party owns is answered
/// `AccessRejected`, and the registry stays as it was.
pub proof fn law_stranger_changes_nothing(
    registry: Map<u64, ItemView>,
    caller: Seq<u8>,
    key: u64,
    description: Seq<char>,
    is_active: bool,
)
    requires
        registry.contains_key(key),
        registry[key].owner != caller,
    ensures
        owner_outcome(registry, caller, key) == Err::<(), BidError>(BidError::AccessRejected),
        after_edit(registry, caller, key, description, is_active) == registry,
        after_end(registry, caller, key) == registry,
{
}

/// While an item stays open its leading bid never goes down and its history
/// never gets shorter, whoever bids and whoever edits.
pub proof fn law_open_item_never_loses(
    registry: Map<u64, ItemView>,
    caller: Seq<u8>,
    key: u64,
    amount: u32,
    description: Seq<char>,
    is_active: bool,
)
    requires
        registry.contains_key(key),
    ensures
        after_bid(registry, caller, key, amount)[key].current_highest_bid
            >= registry[key].current_highest_bid,
        after_bid(registry, caller, key, amount)[key].bidders.len()
            >= registry[key].bidders.len(),
        after_edit(registry, caller, key, description, is_active)[key].current_highest_bid
            == registry[key].current_highest_bid,
        after_edit(registry, caller, key, description, is_active)[key].bidders
            == registry[key].bidders,
{
}

/// Closing an item hands it to the leader, stops the bidding and wipes the
/// bids.
pub proof fn law_closed_item_goes_to_leader(registry: Map<u64, ItemView>, caller: Seq<u8>, key: u64)
    requires
        owner_outcome(registry, caller, key) is Ok,
    ensures
        ({
            let before = registry[key];
            let after = after_end(registry, caller, key)[key];
            &&& after.owner == before.current_highest_bidder
            &&& !after.is_active
            &&& after.current_highest_bid == 0
            &&& after.current_highest_bidder == Seq::<u8>::empty()
            &&& after.bidders == Seq::<Seq<u8>>::empty()
            &&& after.description == before.description
        }),
{
}

/// Two answers of `BidError` are never given: every amount is a bid, so none
/// is an `InvalidAmount`; and a write replaces the record that was just read,
/// so none ends in an `UpdateError`.
pub proof fn law_two_answers_never_given(registry: Map<u64, ItemView>, caller: Seq<u8>, key: u64)
    ensures
        owner_outcome(registry, caller, key) != Err::<(), BidError>(BidError::InvalidAmount),
        owner_outcome(registry, caller, key) != Err::<(), BidError>(BidError::UpdateError),
        bid_outcome(registry, key) != Err::<(), BidError>(BidError::InvalidAmount),
        bid_outcome(registry, key) != Err::<(), BidError>(BidError::UpdateError),
{
}

/// One item only leads a registry: among items that rank alike, the one
/// under the greatest key.
pub proof fn law_one_item_leads(by_bid: bool, registry: Map<u64, ItemView>, a: u64, b: u64)
    requires
        leads(by_bid, registry, a),
        leads(by_bid, registry, b),
    ensures
        a == b,
{
    if a < b {
        assert(registry.contains_key(b));
        assert(rank(by_bid, registry[b]) < rank(by_bid, registry[a]));
    } else if b < a {
        assert(registry.contains_key(a));
        assert(rank(by_bid, registry[a]) < rank(by_bid, registry[b]));
    }
}

/// The bytes that bidders take in a record: four for every bidder, and its
/// own.
pub open spec fn bidders_len(bidders: Seq<Seq<u8>>) -> nat
    decreases bidders.len(),
{
    if bidders.len() == 0 {
        0
    } else {
        4 + bidders[0].len() + bidders_len(bidders.drop_first())
    }
}

proof fn lemma_bidders_len(bidders: Seq<Seq<u8>>)
    ensures
        blobs_bytes(bidders).len() == bidders_len(bidders),
    decreases bidders.len(),
{
    if bidders.len() > 0 {
        lemma_take_number(bidders[0].len() as u32, Seq::empty());
        lemma_bidders_len(bidders.drop_first());
    }
}

/// A record takes 21 bytes and those of its owner, of its leader, of its
/// bidders and of its description in UTF-8.
pub proof fn law_record_length(item: ItemView)
    ensures
        record_bytes(item).len() == 21 + item.owner.len() + item.current_highest_bidder.len()
            + bidders_len(item.bidders) + encode_utf8(item.description).len(),
{
    lemma_bidders_len(item.bidders);
    lemma_take_number(item.current_highest_bid, Seq::empty());
    lemma_take_number(item.owner.len() as u32, Seq::empty());
    lemma_take_number(item.current_highest_bidder.len() as u32, Seq::empty());
    lemma_take_number(item.bidders.len() as u32, Seq::empty());
    lemma_take_number(encode_utf8(item.description).len() as u32, Seq::empty());
}

/// One call that writes to the registry.
pub enum Update {
    Create { caller: Seq<u8>, key: u64, description: Seq<char>, is_active: bool },
    Edit { caller: Seq<u8>, key: u64, description: Seq<char>, is_active: bool },
    End { caller: Seq<u8>, key: u64 },
    Bid { caller: Seq<u8>, key: u64, amount: u32 },
}

/// The registry after one call.
pub open spec fn apply(registry: Map<u64, ItemView>, update: Update) -> Map<u64, ItemView> {
    match update {
        Update::Create { caller, key, description, is_active } => after_create(
            registry,
            caller,
            key,
            description,
            is_active,
        ),
        Update::Edit { caller, key, description, is_active } => after_edit(
            registry,
            caller,
            key,
            description,
            is_active,
        ),
        Update::End { caller, key } => after_end(registry, caller, key),
        Update::Bid { caller, key, amount } => after_bid(registry, caller, key, amount),
    }
}

/// The registry after the calls of `updates`, the first one first.
pub open spec fn replay(registry: Map<u64, ItemView>, updates: Seq<Update>) -> Map<u64, ItemView>
    decreases updates.len(),
{
    if updates.len() == 0 {
        registry
    } else {
        apply(replay(registry, updates.drop_last()), updates.last())
    }
}

/// Whether `update` lists an item under `key`.
pub open spec fn lists_under(update: Update, key: u64) -> bool {
    update matches Update::Create { key: listed, .. } && listed == key
}

/// The keys under which some call of `updates` lists an item.
pub open spec fn created_keys(updates: Seq<Update>) -> Set<u64> {
    Set::new(|key: u64| exists|i: int| 0 <= i < updates.len() && lists_under(#[trigger] updates[i], key))
}

proof fn lemma_created_keys_grow(updates: Seq<Update>, key: u64)
    requires
        updates.len() > 0,
    ensures
        created_keys(updates).contains(key) <==> created_keys(updates.drop_last()).contains(key)
            || lists_under(updates.last(), key),
{
    let earlier = updates.drop_last();
    if created_keys(updates).contains(key) {
        let i = choose|i: int| 0 <= i < updates.len() && lists_under(#[trigger] updates[i], key);
        if i < earlier.len() {
            assert(earlier[i] == updates[i]);
        }
    }
    if created_keys(earlier).contains(key) {
        let i = choose|i: int| 0 <= i < earlier.len() && lists_under(#[trigger] earlier[i], key);
        assert(updates[i] == earlier[i]);
    }
    if lists_under(updates.last(), key) {
        assert(updates[updates.len() - 1] == updates.last());
    }
}

/// The keys that a registry holds are those that were ever listed, however
/// often one of them was listed again and whatever else was called: a
/// registry that started empty counts the distinct keys listed.
pub proof fn law_count_is_distinct_keys_listed(updates: Seq<Update>)
    ensures
        replay(Map::empty(), updates).dom() == created_keys(updates),
        replay(Map::empty(), updates).dom().finite(),
        replay(Map::empty(), updates).dom().len() == created_keys(updates).len(),
    decreases updates.len(),
{
    let start = Map::<u64, ItemView>::empty();
    if updates.len() == 0 {
        assert(replay(start, updates).dom() =~= created_keys(updates));
    } else {
        let earlier = updates.drop_last();
        let last = updates.last();
        law_count_is_distinct_keys_listed(earlier);
        let before = replay(start, earlier);
        let after = replay(start, updates);
        assert(after == apply(before, last));
        assert forall|key: u64| after.dom().contains(key) <==> created_keys(updates).contains(
            key,
        ) by {
            lemma_created_keys_grow(updates, key);
        }
        assert(after.dom() =~= created_keys(updates));
    }
}

} // verus!
