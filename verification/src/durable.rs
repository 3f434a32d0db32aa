//! The durable ordered map that keeps the records, and what is taken on
//! trust about it.
//!
//! The map is a `StableBTreeMap` of `ic_stable_structures`. Nothing in this
//! file is proved: every contract below restates what that crate documents of
//! the method it calls, over the records that the map holds.

use ic_stable_structures::memory_manager::{MemoryId, MemoryManager, VirtualMemory};
use ic_stable_structures::storable::Blob;
use ic_stable_structures::{DefaultMemoryImpl, StableBTreeMap};
use vstd::prelude::*;

verus! {

/// The most bytes one record may take in the durable map.
pub const MAX_VALUE_SIZE: usize = 5000;

/// A `StableBTreeMap` from a 64-bit key to a record of at most
/// `MAX_VALUE_SIZE` bytes, laid out in the first virtual memory of the
/// default memory.
#[verifier::external_body]
pub struct RecordMap {
    inner: StableBTreeMap<u64, Blob<5000>, VirtualMemory<DefaultMemoryImpl>>,
}

/// The records that a durable map holds, by key.
pub uninterp spec fn stored_records(map: RecordMap) -> Map<u64, Seq<u8>>;

/// `StableBTreeMap::new`: lays out a new map over the memory, which holds no
/// record whatever the memory held before.
#[verifier::external_body]
pub(crate) fn map_new() -> (map: RecordMap)
    ensures
        stored_records(map).dom() == Set::<u64>::empty(),
{
    let manager = MemoryManager::init(DefaultMemoryImpl::default());
    RecordMap { inner: StableBTreeMap::new(manager.get(MemoryId::new(0))) }
}

/// `StableBTreeMap::init`: loads the map that the memory holds, or lays out a
/// new one where it holds none. What the map holds depends on the memory, so
/// nothing is claimed of it. Over a memory that holds a map of another layout
/// the method panics.
#[verifier::external_body]
pub(crate) fn map_init() -> (map: RecordMap) {
    let manager = MemoryManager::init(DefaultMemoryImpl::default());
    RecordMap { inner: StableBTreeMap::init(manager.get(MemoryId::new(0))) }
}

/// `StableBTreeMap::get`: the record under `key`, if the map holds one.
#[verifier::external_body]
pub(crate) fn map_get(map: &RecordMap, key: u64) -> (found: Option<Vec<u8>>)
    ensures
        match found {
            Some(record) => stored_records(*map).contains_key(key) && record@ == stored_records(
                *map,
            )[key],
            None => !stored_records(*map).contains_key(key),
        },
{
    map.inner.get(&key).map(|blob| blob.as_slice().to_vec())
}

/// `StableBTreeMap::insert`: puts `record` under `key` and returns the record
/// that was there before, if any. No other key is touched. The method panics
/// on a record longer than the map's value bound, hence the `requires`.
#[verifier::external_body]
pub(crate) fn map_insert(
    map: &mut RecordMap,
    key: u64,
    record: &[u8],
) -> (previous: Option<Vec<u8>>)
    requires
        record@.len() <= MAX_VALUE_SIZE,
    ensures
        stored_records(*final(map)) == stored_records(*old(map)).insert(key, record@),
        match previous {
            Some(before) => stored_records(*old(map)).contains_key(key) && before@
                == stored_records(*old(map))[key],
            None => !stored_records(*old(map)).contains_key(key),
        },
{
    let blob = Blob::<5000>::try_from(record).unwrap();
    map.inner.insert(key, blob).map(|before| before.as_slice().to_vec())
}

/// `StableBTreeMap::len`: the number of keys that the map holds.
#[verifier::external_body]
pub(crate) fn map_len(map: &RecordMap) -> (n: u64)
    ensures
        n == stored_records(*map).dom().len(),
{
    map.inner.len()
}

/// `StableBTreeMap::iter`, collected: every entry of the map, once, in
/// ascending order of the keys.
#[verifier::external_body]
pub(crate) fn map_entries(map: &RecordMap) -> (entries: Vec<(u64, Vec<u8>)>)
    ensures
        forall|i: int, j: int|
            0 <= i < j < entries@.len() ==> (#[trigger] entries@[i]).0 < (#[trigger] entries@[j]).0,
        forall|i: int|
            0 <= i < entries@.len() ==> stored_records(*map).contains_key(
                (#[trigger] entries@[i]).0,
            ) && stored_records(*map)[entries@[i].0] == entries@[i].1@,
        forall|key: u64| #[trigger]
            stored_records(*map).contains_key(key) ==> exists|i: int|
                0 <= i < entries@.len() && (#[trigger] entries@[i]).0 == key,
{
    map.inner.iter().map(|(key, blob)| (key, blob.as_slice().to_vec())).collect()
}

} // verus!
