use auction_registry::identity::Identity;
use auction_registry::item::CreateItem;
use auction_registry::registry::{
    bid, create_item, get_list_of_items, most_bidded_item, most_expensive_item,
};
use auction_registry::store::ItemStore;

fn who(tag: u8) -> Identity {
    Identity::from_slice(&[tag])
}

fn named(description: &str) -> CreateItem {
    CreateItem { description: description.to_string(), is_active: true }
}

#[test]
fn list_is_by_ascending_key() {
    let mut store = ItemStore::new();
    let owner = who(0);
    for (key, name) in [(30u64, "c"), (10, "a"), (u64::MAX, "e"), (0, "zero"), (20, "b")] {
        create_item(&mut store, &owner, key, named(name));
    }
    let names: Vec<String> =
        get_list_of_items(&store).into_iter().map(|item| item.description).collect();
    assert_eq!(names, vec!["zero", "a", "b", "c", "e"]);
}

#[test]
fn list_of_many_keys_stays_sorted() {
    let mut store = ItemStore::new();
    let owner = who(0);
    let mut key: u64 = 7;
    for _ in 0..200 {
        key = key.wrapping_mul(6364136223846793005).wrapping_add(1442695040888963407);
        create_item(&mut store, &owner, key % 1000, named(&format!("{:04}", key % 1000)));
    }
    let names: Vec<String> =
        get_list_of_items(&store).into_iter().map(|item| item.description).collect();
    let mut sorted = names.clone();
    sorted.sort();
    sorted.dedup();
    assert_eq!(names, sorted);
}

#[test]
fn empty_registry_has_no_leader() {
    let store = ItemStore::new();
    assert_eq!(most_expensive_item(&store), None);
    assert_eq!(most_bidded_item(&store), None);
    assert!(get_list_of_items(&store).is_empty());
}

#[test]
fn most_expensive_is_the_greatest_leading_bid() {
    let mut store = ItemStore::new();
    let owner = who(0);
    create_item(&mut store, &owner, 1, named("one"));
    create_item(&mut store, &owner, 2, named("two"));
    create_item(&mut store, &owner, 3, named("three"));
    bid(&mut store, &who(1), 1, 10).unwrap();
    bid(&mut store, &who(1), 2, 30).unwrap();
    bid(&mut store, &who(1), 3, 20).unwrap();
    assert_eq!(most_expensive_item(&store).unwrap().description, "two");
}

#[test]
fn most_expensive_tie_goes_to_the_greatest_key() {
    let mut store = ItemStore::new();
    let owner = who(0);
    create_item(&mut store, &owner, 1, named("one"));
    create_item(&mut store, &owner, 2, named("two"));
    create_item(&mut store, &owner, 3, named("three"));
    bid(&mut store, &who(1), 1, 30).unwrap();
    bid(&mut store, &who(1), 2, 30).unwrap();
    bid(&mut store, &who(1), 3, 20).unwrap();
    assert_eq!(most_expensive_item(&store).unwrap().description, "two");
}

#[test]
fn most_expensive_without_bids_is_the_last_item() {
    let mut store = ItemStore::new();
    let owner = who(0);
    create_item(&mut store, &owner, 9, named("nine"));
    create_item(&mut store, &owner, 4, named("four"));
    assert_eq!(most_expensive_item(&store).unwrap().description, "nine");
}

#[test]
fn most_bidded_counts_every_bid() {
    let mut store = ItemStore::new();
    let owner = who(0);
    create_item(&mut store, &owner, 1, named("one"));
    create_item(&mut store, &owner, 2, named("two"));
    bid(&mut store, &who(1), 1, 500).unwrap();
    bid(&mut store, &who(1), 2, 1).unwrap();
    bid(&mut store, &who(2), 2, 1).unwrap();
    bid(&mut store, &who(3), 2, 0).unwrap();
    let found = most_bidded_item(&store).unwrap();
    assert_eq!(found.description, "two");
    assert_eq!(found.bidders.len(), 3);
    assert_eq!(most_expensive_item(&store).unwrap().description, "one");
}

#[test]
fn most_bidded_tie_goes_to_the_greatest_key() {
    let mut store = ItemStore::new();
    let owner = who(0);
    create_item(&mut store, &owner, 1, named("one"));
    create_item(&mut store, &owner, 2, named("two"));
    create_item(&mut store, &owner, 3, named("three"));
    bid(&mut store, &who(1), 1, 5).unwrap();
    bid(&mut store, &who(1), 2, 5).unwrap();
    assert_eq!(most_bidded_item(&store).unwrap().description, "two");
}
