use auction_registry::durable::MAX_VALUE_SIZE;
use auction_registry::identity::Identity;
use auction_registry::item::{CreateItem, Item};
use auction_registry::registry::{
    bid, can_bid, can_create, can_edit, create_item, edit_item, get_item, get_item_count,
};
use auction_registry::store::{check_record, check_records, ItemStore};

fn id(bytes: &[u8]) -> Identity {
    Identity::from_slice(bytes)
}

fn sample() -> Item {
    Item {
        description: "hi".to_string(),
        current_highest_bid: 7,
        current_highest_bidder: id(&[9]),
        is_active: true,
        bidders: vec![id(&[9])],
        owner: id(&[1, 2]),
    }
}

fn plain(description_len: usize) -> Item {
    Item {
        description: "x".repeat(description_len),
        current_highest_bid: 0,
        current_highest_bidder: Identity::empty(),
        is_active: true,
        bidders: vec![],
        owner: id(&[1]),
    }
}

#[test]
fn identity_holds_its_bytes() {
    let a = id(&[1, 2, 3]);
    assert_eq!(a.as_slice(), &[1, 2, 3]);
    assert_eq!(a, id(&[1, 2, 3]));
    assert_ne!(a, id(&[1, 2]));
    assert_ne!(a, id(&[1, 2, 4]));
    assert_eq!(a.clone(), a);
    assert_eq!(id(&[]).as_slice(), &[] as &[u8]);
    assert_ne!(id(&[]), id(&[0]));
}

#[test]
fn record_layout_is_exact() {
    let bytes = sample().to_bytes().unwrap();
    assert_eq!(
        bytes,
        vec![
            1, // is_active
            7, 0, 0, 0, // leading bid
            2, 0, 0, 0, 1, 2, // owner
            1, 0, 0, 0, 9, // leader
            1, 0, 0, 0, // number of bidders
            1, 0, 0, 0, 9, // the bidder
            2, 0, 0, 0, b'h', b'i', // description
        ]
    );
}

#[test]
fn record_without_leader_is_exact() {
    let item = Item {
        description: String::new(),
        current_highest_bid: 0x01020304,
        current_highest_bidder: id(&[]),
        is_active: false,
        bidders: vec![],
        owner: id(&[]),
    };
    let bytes = item.to_bytes().unwrap();
    assert_eq!(bytes, vec![0, 4, 3, 2, 1, 0, 0, 0, 0, 0, 0, 0, 0, 0, 0, 0, 0, 0, 0, 0, 0]);
    assert_eq!(Item::from_bytes(&bytes), Some(item));
}

#[test]
fn record_reads_back_as_written() {
    let item = Item {
        description: "Grüße, 世界 🌍".to_string(),
        current_highest_bid: u32::MAX,
        current_highest_bidder: id(&[3; 29]),
        is_active: true,
        bidders: vec![id(&[1; 10]), id(&[]), id(&[3; 29]), id(&[1; 10])],
        owner: id(&[4]),
    };
    let bytes = item.to_bytes().unwrap();
    assert_eq!(Item::from_bytes(&bytes), Some(item));
    assert_eq!(Item::from_bytes(&sample().to_bytes().unwrap()), Some(sample()));
}

#[test]
fn broken_records_are_refused() {
    let good = sample().to_bytes().unwrap();
    assert!(check_record(&good));
    assert_eq!(Item::from_bytes(&[]), None);
    for cut in 0..good.len() {
        assert_eq!(Item::from_bytes(&good[..cut]), None, "cut at {}", cut);
    }
    let mut trailing = good.clone();
    trailing.push(0);
    assert_eq!(Item::from_bytes(&trailing), None);
    let mut bad_flag = good.clone();
    bad_flag[0] = 2;
    assert_eq!(Item::from_bytes(&bad_flag), None);
    let mut long_leader = good.clone();
    long_leader[11] = 200;
    assert_eq!(Item::from_bytes(&long_leader), None);
    let mut bad_text = good.clone();
    let last = bad_text.len() - 1;
    bad_text[last] = 0xff;
    assert_eq!(Item::from_bytes(&bad_text), None);
    assert!(!check_record(&bad_text));
    let mut too_many = good.clone();
    too_many[16] = 0xff;
    too_many[17] = 0xff;
    too_many[18] = 0xff;
    too_many[19] = 0xff;
    assert_eq!(Item::from_bytes(&too_many), None);
}

#[test]
fn record_bound_is_five_thousand_bytes() {
    assert_eq!(MAX_VALUE_SIZE, 5000);
    let at_bound = plain(4978);
    let bytes = at_bound.to_bytes().unwrap();
    assert_eq!(bytes.len(), 5000);
    assert!(check_record(&bytes));
    assert_eq!(plain(4979).to_bytes(), None);
    assert_eq!(plain(100_000).to_bytes(), None);
    let mut long = bytes.clone();
    long[18] = 0x73;
    long.push(b'x');
    assert_eq!(Item::from_bytes(&long), Some(plain(4979)));
    assert!(!check_record(&long));
}

#[test]
fn long_identity_and_many_bidders_do_not_fit() {
    let mut item = plain(0);
    item.owner = id(&vec![1u8; 6000]);
    assert_eq!(item.to_bytes(), None);
    let mut item = plain(0);
    item.current_highest_bidder = id(&vec![1u8; 6000]);
    assert_eq!(item.to_bytes(), None);
    let mut item = plain(0);
    item.bidders = vec![id(&[]); 6000];
    assert_eq!(item.to_bytes(), None);
    item.bidders.truncate(1245);
    assert_eq!(item.to_bytes(), None);
    item.bidders.truncate(1244);
    assert_eq!(item.to_bytes().unwrap().len(), 4998);
}

#[test]
fn check_records_wants_every_entry_whole() {
    let good = sample().to_bytes().unwrap();
    assert!(check_records(&vec![]));
    assert!(check_records(&vec![(1, good.clone()), (2, good.clone())]));
    assert!(!check_records(&vec![(1, good.clone()), (2, vec![1, 2, 3])]));
    assert!(!check_records(&vec![(1, vec![]), (2, good)]));
}

#[test]
fn opened_store_is_usable() {
    let mut store = ItemStore::open().unwrap();
    let owner = id(&[1]);
    let before = get_item_count(&store);
    create_item(
        &mut store,
        &owner,
        u64::MAX,
        CreateItem { description: "kept".to_string(), is_active: true },
    );
    assert!(get_item_count(&store) >= before);
    assert_eq!(get_item(&store, u64::MAX).unwrap().description, "kept");
}

#[test]
fn store_keeps_items_apart() {
    let mut store = ItemStore::new();
    assert_eq!(store.count(), 0);
    assert_eq!(store.get(1), None);
    assert_eq!(store.insert(1, &sample()), None);
    assert_eq!(store.insert(2, &plain(3)), None);
    assert_eq!(store.count(), 2);
    assert_eq!(store.get(1), Some(sample()));
    assert_eq!(store.get(2), Some(plain(3)));
    assert_eq!(store.get(3), None);
    assert_eq!(store.insert(1, &plain(5)), Some(sample()));
    assert_eq!(store.count(), 2);
    assert_eq!(store.get(1), Some(plain(5)));
    assert_eq!(store.list(), vec![plain(5), plain(3)]);
}

#[test]
fn two_stores_do_not_share_items() {
    let mut first = ItemStore::new();
    let second = ItemStore::new();
    first.insert(1, &sample());
    assert_eq!(first.count(), 1);
    assert_eq!(second.count(), 0);
    assert_eq!(second.get(1), None);
}

#[test]
fn can_create_tells_whether_the_listing_fits() {
    let caller = id(&[1]);
    let fits = CreateItem { description: "x".repeat(4978), is_active: true };
    let too_long = CreateItem { description: "x".repeat(4979), is_active: true };
    assert!(can_create(&caller, &fits));
    assert!(!can_create(&caller, &too_long));
    assert!(!can_create(&id(&[1, 2]), &fits));
    let mut store = ItemStore::new();
    assert_eq!(create_item(&mut store, &caller, 1, fits), None);
    assert_eq!(get_item(&store, 1).unwrap().description.len(), 4978);
}

#[test]
fn can_edit_tells_whether_the_edit_fits() {
    let owner = id(&[1]);
    let stranger = id(&[2]);
    let mut store = ItemStore::new();
    create_item(&mut store, &owner, 1, CreateItem { description: "short".to_string(), is_active: true });
    let too_long = CreateItem { description: "x".repeat(4979), is_active: true };
    let fits = CreateItem { description: "x".repeat(4978), is_active: false };
    assert!(!can_edit(&store, &owner, 1, &too_long));
    assert!(can_edit(&store, &owner, 1, &fits));
    assert!(can_edit(&store, &stranger, 1, &too_long));
    assert!(can_edit(&store, &owner, 2, &too_long));
    assert_eq!(edit_item(&mut store, &owner, 1, fits), Ok(()));
    assert_eq!(get_item(&store, 1).unwrap().description.len(), 4978);
}

#[test]
fn can_bid_tells_whether_the_bid_fits() {
    let owner = id(&[1]);
    let bidder = id(&[2; 29]);
    let mut store = ItemStore::new();
    create_item(&mut store, &owner, 1, CreateItem { description: String::new(), is_active: true });
    create_item(&mut store, &owner, 2, CreateItem { description: String::new(), is_active: false });
    let mut taken = 0;
    while can_bid(&store, &bidder, 1, 1) {
        assert_eq!(bid(&mut store, &bidder, 1, 1), Ok(()));
        taken += 1;
    }
    // 22 bytes without bids, 29 more for the leader, 33 for every bidder.
    assert_eq!(taken, (5000 - 22 - 29) / 33);
    assert_eq!(taken, 149);
    assert_eq!(get_item(&store, 1).unwrap().bidders.len(), taken);
    assert!(can_bid(&store, &id(&[]), 1, 0));
    assert!(can_bid(&store, &bidder, 2, 1));
    assert!(can_bid(&store, &bidder, 3, 1));
}
