use std::collections::BTreeMap;

use auction_registry::identity::Identity;
use auction_registry::item::{BidError, CreateItem, Item};
use auction_registry::registry::{
    bid, create_item, edit_item, end_item, get_item, get_item_count, get_list_of_items,
    most_bidded_item, most_expensive_item,
};
use auction_registry::store::ItemStore;

struct Dice(u64);

impl Dice {
    fn roll(&mut self, sides: u64) -> u64 {
        self.0 = self.0.wrapping_mul(6364136223846793005).wrapping_add(1442695040888963407);
        (self.0 >> 33) % sides
    }
}

fn member(tag: u64) -> Identity {
    Identity::from_slice(&[tag as u8, 7])
}

fn leader_by(model: &BTreeMap<u64, Item>, rank: fn(&Item) -> u64) -> Option<Item> {
    let mut found: Option<&Item> = None;
    for item in model.values() {
        if found.map_or(true, |best| rank(item) >= rank(best)) {
            found = Some(item);
        }
    }
    found.cloned()
}

#[test]
fn registry_follows_a_plain_map() {
    let mut dice = Dice(2024);
    let mut store = ItemStore::new();
    let mut model: BTreeMap<u64, Item> = BTreeMap::new();
    for step in 0..600 {
        let key = dice.roll(40);
        let caller = member(dice.roll(4));
        match dice.roll(5) {
            0 => {
                let input = CreateItem {
                    description: format!("item {}", step),
                    is_active: dice.roll(4) != 0,
                };
                let fresh = Item::fresh(input.clone(), caller.clone());
                assert_eq!(create_item(&mut store, &caller, key, input), model.insert(key, fresh));
            }
            1 => {
                let input = CreateItem {
                    description: format!("edited {}", step),
                    is_active: dice.roll(2) == 0,
                };
                let expected = match model.get(&key) {
                    None => Err(BidError::NoSuchItem),
                    Some(item) if item.owner != caller => Err(BidError::AccessRejected),
                    Some(item) => {
                        let next = item.clone().edit(input.clone(), caller.clone());
                        model.insert(key, next);
                        Ok(())
                    }
                };
                assert_eq!(edit_item(&mut store, &caller, key, input), expected);
            }
            2 => {
                let expected = match model.get(&key) {
                    None => Err(BidError::NoSuchItem),
                    Some(item) if item.owner != caller => Err(BidError::AccessRejected),
                    Some(item) => {
                        let next = item.clone().close();
                        model.insert(key, next);
                        Ok(())
                    }
                };
                assert_eq!(end_item(&mut store, &caller, key), expected);
            }
            _ => {
                let amount = dice.roll(50) as u32;
                let expected = match model.get(&key) {
                    None => Err(BidError::NoSuchItem),
                    Some(item) if !item.is_active => Err(BidError::ItemIsNotActive),
                    Some(item) => {
                        let next = item.clone().take_bid(amount, &caller);
                        model.insert(key, next);
                        Ok(())
                    }
                };
                assert_eq!(bid(&mut store, &caller, key, amount), expected);
            }
        }
        assert_eq!(get_item(&store, key), model.get(&key).cloned());
        assert_eq!(get_item_count(&store), model.len() as u64);
    }
    assert!(model.len() > 30);
    assert_eq!(get_list_of_items(&store), model.values().cloned().collect::<Vec<Item>>());
    assert_eq!(
        most_expensive_item(&store),
        leader_by(&model, |item| item.current_highest_bid as u64)
    );
    assert_eq!(most_bidded_item(&store), leader_by(&model, |item| item.bidders.len() as u64));
    for key in 0..40 {
        assert_eq!(get_item(&store, key), model.get(&key).cloned());
    }
}
