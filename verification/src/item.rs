//! The records of the registry and what a caller hands in to make one.

use crate::identity::Identity;
use vstd::prelude::*;

verus! {

/// Why an operation on the registry was turned down.
#[derive(Debug, Clone, Copy, PartialEq, Eq, Structural)]
pub enum BidError {
    /// The item is closed and takes no bid.
    ItemIsNotActive,
    /// Kept for callers that match on it; no operation of the registry
    /// returns it, since every amount is a bid, zero included.
    InvalidAmount,
    /// The registry holds no item under the key.
    NoSuchItem,
    /// The caller is not the owner of the item.
    AccessRejected,
    /// The durable map did not hand back the record that the write replaced.
    UpdateError,
}

/// What a caller hands in to list an item, or to edit one.
#[derive(Debug, Clone, PartialEq, Eq)]
pub struct CreateItem {
    pub description: String,
    pub is_active: bool,
}

/// One auction item.
#[derive(Debug, Clone, PartialEq, Eq)]
pub struct Item {
    pub description: String,
    /// The greatest amount bid since the item was listed or last closed.
    pub current_highest_bid: u32,
    /// Who bid that amount; the empty token while no bid has been above zero.
    pub current_highest_bidder: Identity,
    /// Whether the item takes bids.
    pub is_active: bool,
    /// Who has bid, one entry for every bid taken, oldest first.
    pub bidders: Vec<Identity>,
    /// Who may edit and close the item.
    pub owner: Identity,
}

/// An item as a mathematical value.
pub struct ItemView {
    pub description: Seq<char>,
    pub current_highest_bid: u32,
    pub current_highest_bidder: Seq<u8>,
    pub is_active: bool,
    pub bidders: Seq<Seq<u8>>,
    pub owner: Seq<u8>,
}

/// The tokens of `ids` as byte strings, in the same order.
pub open spec fn identity_views(ids: Seq<Identity>) -> Seq<Seq<u8>> {
    ids.map_values(|id: Identity| id@)
}

impl View for Item {
    type V = ItemView;

    open spec fn view(&self) -> ItemView {
        ItemView {
            description: self.description@,
            current_highest_bid: self.current_highest_bid,
            current_highest_bidder: self.current_highest_bidder@,
            is_active: self.is_active,
            bidders: identity_views(self.bidders@),
            owner: self.owner@,
        }
    }
}

impl ItemView {
    /// The item as it is when `creator` lists it: no bid, no bidder.
    pub open spec fn fresh(description: Seq<char>, is_active: bool, creator: Seq<u8>) -> ItemView {
        ItemView {
            description,
            current_highest_bid: 0,
            current_highest_bidder: Seq::empty(),
            is_active,
            bidders: Seq::empty(),
            owner: creator,
        }
    }

    /// The item after its owner `caller` has edited it: a new description and
    /// flag, the bids untouched.
    pub open spec fn edited(self, description: Seq<char>, is_active: bool, caller: Seq<u8>) -> ItemView {
        ItemView { description, is_active, owner: caller, ..self }
    }

    /// The item after `bidder` has bid `amount` on it: the bidder joins the
    /// history, and leads only with an amount above the leading one.
    pub open spec fn with_bid(self, amount: u32, bidder: Seq<u8>) -> ItemView {
        if amount > self.current_highest_bid {
            ItemView {
                current_highest_bid: amount,
                current_highest_bidder: bidder,
                bidders: self.bidders.push(bidder),
                ..self
            }
        } else {
            ItemView { bidders: self.bidders.push(bidder), ..self }
        }
    }

    /// The item after its auction has been closed: it goes to the leading
    /// bidder and its bids are wiped. Where nobody leads, the empty token
    /// owns it from then on.
    pub open spec fn closed(self) -> ItemView {
        ItemView {
            description: self.description,
            current_highest_bid: 0,
            current_highest_bidder: Seq::empty(),
            is_active: false,
            bidders: Seq::empty(),
            owner: self.current_highest_bidder,
        }
    }
}

impl Item {
    /// The item that `creator` lists from `input`.
    pub fn fresh(input: CreateItem, creator: Identity) -> (item: Item)
        ensures
            item@ == ItemView::fresh(input.description@, input.is_active, creator@),
    {
        let item = Item {
            description: input.description,
            current_highest_bid: 0u32,
            current_highest_bidder: Identity::empty(),
            is_active: input.is_active,
            bidders: Vec::new(),
            owner: creator,
        };
        assert(item@.bidders =~= Seq::<Seq<u8>>::empty());
        item
    }

    /// The item with the description and the flag of `input`, rewritten by
    /// its owner `caller`.
    pub fn edit(self, input: CreateItem, caller: Identity) -> (item: Item)
        ensures
            item@ == self@.edited(input.description@, input.is_active, caller@),
    {
        Item {
            description: input.description,
            current_highest_bid: self.current_highest_bid,
            current_highest_bidder: self.current_highest_bidder,
            is_active: input.is_active,
            bidders: self.bidders,
            owner: caller,
        }
    }

    /// The item with the bid of `amount` by `bidder` taken.
    pub fn take_bid(self, amount: u32, bidder: &Identity) -> (item: Item)
        ensures
            item@ == self@.with_bid(amount, bidder@),
    {
        let mut item = self;
        if amount > item.current_highest_bid {
            item.current_highest_bid = amount;
            item.current_highest_bidder = bidder.clone();
        }
        item.bidders.push(bidder.clone());
        assert(item@.bidders =~= self@.bidders.push(bidder@));
        item
    }

    /// The item with its auction closed.
    pub fn close(self) -> (item: Item)
        ensures
            item@ == self@.closed(),
    {
        let item = Item {
            description: self.description,
            current_highest_bid: 0u32,
            current_highest_bidder: Identity::empty(),
            is_active: false,
            bidders: Vec::new(),
            owner: self.current_highest_bidder,
        };
        assert(item@.bidders =~= Seq::<Seq<u8>>::empty());
        item
    }
}

} // verus!
