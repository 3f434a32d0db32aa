//! The byte layout of one record, and the proof that a record that was
//! written is read back as the item it was written from.
//!
//! A record is, in this order: the flag `is_active` (one byte, 0 or 1); the
//! leading bid (four bytes, little-endian); the owner (a blob); the leading
//! bidder (a blob); the number of bidders (four bytes, little-endian) and
//! each bidder (a blob); the description in UTF-8 (a blob). A blob is its
//! length in four bytes, little-endian, and then its bytes. Nothing follows
//! the description.

use crate::durable::MAX_VALUE_SIZE;
use crate::item::ItemView;
use vstd::bytes::{lemma_auto_spec_u32_to_from_le_bytes, spec_u32_from_le_bytes, spec_u32_to_le_bytes};
use vstd::prelude::*;
use vstd::utf8::{
    decode_utf8, decode_utf8_encode_utf8, encode_utf8, encode_utf8_decode_utf8,
    encode_utf8_valid_utf8, valid_utf8,
};

verus! {

/// A flag as one byte: 1 for `true`, 0 for `false`.
pub open spec fn flag_bytes(flag: bool) -> Seq<u8> {
    seq![if flag { 1u8 } else { 0u8 }]
}

/// A number as four bytes, the least significant first.
pub open spec fn number_bytes(n: u32) -> Seq<u8> {
    spec_u32_to_le_bytes(n)
}

/// A byte string behind its length.
pub open spec fn blob_bytes(blob: Seq<u8>) -> Seq<u8> {
    number_bytes(blob.len() as u32) + blob
}

/// Byte strings one after the other, each behind its length.
pub open spec fn blobs_bytes(blobs: Seq<Seq<u8>>) -> Seq<u8>
    decreases blobs.len(),
{
    if blobs.len() == 0 {
        Seq::empty()
    } else {
        blob_bytes(blobs[0]) + blobs_bytes(blobs.drop_first())
    }
}

/// The part of a record that follows the flag and the leading bid: owner,
/// leader, bidders and description.
pub open spec fn parties_bytes(
    owner: Seq<u8>,
    leader: Seq<u8>,
    bidders: Seq<Seq<u8>>,
    text: Seq<u8>,
) -> Seq<u8> {
    blob_bytes(owner) + blob_bytes(leader) + number_bytes(bidders.len() as u32) + blobs_bytes(
        bidders,
    ) + blob_bytes(text)
}

/// The record that stands for `item`.
pub open spec fn record_bytes(item: ItemView) -> Seq<u8> {
    flag_bytes(item.is_active) + number_bytes(item.current_highest_bid) + parties_bytes(
        item.owner,
        item.current_highest_bidder,
        item.bidders,
        encode_utf8(item.description),
    )
}

/// Whether the record of `item` is within the bound of the durable map.
pub open spec fn fits(item: ItemView) -> bool {
    record_bytes(item).len() <= MAX_VALUE_SIZE
}

/// The flag that `bytes` start with, and the bytes that follow it.
pub open spec fn take_flag(bytes: Seq<u8>) -> Option<(bool, Seq<u8>)> {
    if bytes.len() >= 1 && bytes[0] <= 1 {
        Some((bytes[0] == 1, bytes.skip(1)))
    } else {
        None
    }
}

/// The number that `bytes` start with, and the bytes that follow it.
pub open spec fn take_number(bytes: Seq<u8>) -> Option<(u32, Seq<u8>)> {
    if bytes.len() >= 4 {
        Some((spec_u32_from_le_bytes(bytes.take(4)), bytes.skip(4)))
    } else {
        None
    }
}

/// The byte string that `bytes` start with, and the bytes that follow it.
pub open spec fn take_blob(bytes: Seq<u8>) -> Option<(Seq<u8>, Seq<u8>)> {
    match take_number(bytes) {
        Some((len, rest)) => if rest.len() >= len {
            Some((rest.take(len as int), rest.skip(len as int)))
        } else {
            None
        },
        None => None,
    }
}

/// The `count` byte strings that `bytes` start with, and the bytes that
/// follow them.
pub open spec fn take_blobs(bytes: Seq<u8>, count: nat) -> Option<(Seq<Seq<u8>>, Seq<u8>)>
    decreases count,
{
    if count == 0 {
        Some((Seq::empty(), bytes))
    } else {
        match take_blob(bytes) {
            Some((blob, rest)) => match take_blobs(rest, (count - 1) as nat) {
                Some((blobs, end)) => Some((seq![blob] + blobs, end)),
                None => None,
            },
            None => None,
        }
    }
}

/// What is left of a record once the flag and the leading bid are read:
/// owner, leader, bidders and description.
pub open spec fn take_parties(bytes: Seq<u8>) -> Option<
    (Seq<u8>, Seq<u8>, Seq<Seq<u8>>, Seq<u8>, Seq<u8>),
> {
    match take_blob(bytes) {
        Some((owner, s1)) => match take_blob(s1) {
            Some((leader, s2)) => match take_number(s2) {
                Some((count, s3)) => match take_blobs(s3, count as nat) {
                    Some((bidders, s4)) => match take_blob(s4) {
                        Some((text, end)) => Some((owner, leader, bidders, text, end)),
                        None => None,
                    },
                    None => None,
                },
                None => None,
            },
            None => None,
        },
        None => None,
    }
}

/// The item that `bytes` stand for, where they are a whole record.
pub open spec fn parse_record(bytes: Seq<u8>) -> Option<ItemView> {
    match take_flag(bytes) {
        Some((is_active, s1)) => match take_number(s1) {
            Some((bid, s2)) => match take_parties(s2) {
                Some((owner, leader, bidders, text, end)) => if end.len() == 0 && valid_utf8(
                    text,
                ) {
                    Some(
                        ItemView {
                            description: decode_utf8(text),
                            current_highest_bid: bid,
                            current_highest_bidder: leader,
                            is_active,
                            bidders,
                            owner,
                        },
                    )
                } else {
                    None
                },
                None => None,
            },
            None => None,
        },
        None => None,
    }
}

/// A flag that was written is read back, and what followed it is left.
pub proof fn lemma_take_flag(flag: bool, rest: Seq<u8>)
    ensures
        take_flag(flag_bytes(flag) + rest) == Some((flag, rest)),
{
    assert((flag_bytes(flag) + rest).skip(1) =~= rest);
}

/// A number that was written is read back, and what followed it is left.
pub proof fn lemma_take_number(n: u32, rest: Seq<u8>)
    ensures
        number_bytes(n).len() == 4,
        take_number(number_bytes(n) + rest) == Some((n, rest)),
{
    lemma_auto_spec_u32_to_from_le_bytes();
    assert((number_bytes(n) + rest).take(4) =~= number_bytes(n));
    assert((number_bytes(n) + rest).skip(4) =~= rest);
}

/// A byte string that was written is read back, and what followed it is
/// left.
pub proof fn lemma_take_blob(blob: Seq<u8>, rest: Seq<u8>)
    requires
        blob.len() <= u32::MAX,
    ensures
        blob_bytes(blob).len() == 4 + blob.len(),
        take_blob(blob_bytes(blob) + rest) == Some((blob, rest)),
{
    let len = blob.len() as u32;
    lemma_take_number(len, blob + rest);
    assert(blob_bytes(blob) + rest =~= number_bytes(len) + (blob + rest));
    assert((blob + rest).take(len as int) =~= blob);
    assert((blob + rest).skip(len as int) =~= rest);
}

/// A run of blobs is at least as long as each of them, and takes four bytes
/// and more for every one.
pub proof fn lemma_blobs_len(blobs: Seq<Seq<u8>>)
    ensures
        blobs_bytes(blobs).len() >= 4 * blobs.len(),
        forall|i: int| 0 <= i < blobs.len() ==> blobs_bytes(blobs).len() >= 4 + (#[trigger] blobs[i]).len(),
    decreases blobs.len(),
{
    lemma_auto_spec_u32_to_from_le_bytes();
    if blobs.len() > 0 {
        let tail = blobs.drop_first();
        lemma_blobs_len(tail);
        assert forall|i: int| 0 <= i < blobs.len() implies blobs_bytes(blobs).len() >= 4 + (
        #[trigger] blobs[i]).len() by {
            if i > 0 {
                assert(blobs[i] == tail[i - 1]);
            }
        }
    }
}

/// Writing one more byte string appends it to what was written.
pub proof fn lemma_blobs_push(blobs: Seq<Seq<u8>>, blob: Seq<u8>)
    ensures
        blobs_bytes(blobs.push(blob)) == blobs_bytes(blobs) + blob_bytes(blob),
    decreases blobs.len(),
{
    let all = blobs.push(blob);
    if blobs.len() == 0 {
        assert(all.drop_first() =~= Seq::<Seq<u8>>::empty());
        assert(blobs_bytes(all.drop_first()) =~= Seq::<u8>::empty());
        assert(blobs_bytes(all) =~= blobs_bytes(blobs) + blob_bytes(blob));
    } else {
        lemma_blobs_push(blobs.drop_first(), blob);
        assert(all.drop_first() =~= blobs.drop_first().push(blob));
        assert(blobs_bytes(all) =~= blobs_bytes(blobs) + blob_bytes(blob));
    }
}

/// Byte strings that were written are read back, and what followed them is
/// left.
pub proof fn lemma_take_blobs(blobs: Seq<Seq<u8>>, rest: Seq<u8>)
    requires
        forall|i: int| 0 <= i < blobs.len() ==> (#[trigger] blobs[i]).len() <= u32::MAX,
    ensures
        take_blobs(blobs_bytes(blobs) + rest, blobs.len()) == Some((blobs, rest)),
    decreases blobs.len(),
{
    if blobs.len() == 0 {
        assert(blobs_bytes(blobs) + rest =~= rest);
        assert(blobs =~= Seq::<Seq<u8>>::empty());
    } else {
        let tail = blobs.drop_first();
        assert forall|i: int| 0 <= i < tail.len() implies (#[trigger] tail[i]).len()
            <= u32::MAX by {
            assert(tail[i] == blobs[i + 1]);
        }
        lemma_take_blobs(tail, rest);
        lemma_take_blob(blobs[0], blobs_bytes(tail) + rest);
        assert(blobs_bytes(blobs) + rest =~= blob_bytes(blobs[0]) + (blobs_bytes(tail) + rest));
        assert(seq![blobs[0]] + tail =~= blobs);
    }
}

/// What a record within the bound holds is short enough for its length
/// fields.
pub proof fn lemma_fits_bounds(item: ItemView)
    requires
        fits(item),
    ensures
        item.owner.len() <= MAX_VALUE_SIZE,
        item.current_highest_bidder.len() <= MAX_VALUE_SIZE,
        item.bidders.len() <= MAX_VALUE_SIZE,
        forall|i: int| 0 <= i < item.bidders.len() ==> (#[trigger] item.bidders[i]).len() <= MAX_VALUE_SIZE,
        encode_utf8(item.description).len() <= MAX_VALUE_SIZE,
{
    lemma_blobs_len(item.bidders);
}

/// Closing an item makes its record no longer, so a closed item fits where
/// the open one did.
pub proof fn lemma_closed_fits(item: ItemView)
    requires
        fits(item),
    ensures
        fits(item.closed()),
{
    lemma_auto_spec_u32_to_from_le_bytes();
    lemma_fits_bounds(item);
    let closed = item.closed();
    assert(blobs_bytes(closed.bidders).len() == 0);
}

proof fn lemma_take_parties(
    owner: Seq<u8>,
    leader: Seq<u8>,
    bidders: Seq<Seq<u8>>,
    text: Seq<u8>,
    rest: Seq<u8>,
)
    requires
        owner.len() <= u32::MAX,
        leader.len() <= u32::MAX,
        bidders.len() <= u32::MAX,
        forall|i: int| 0 <= i < bidders.len() ==> (#[trigger] bidders[i]).len() <= u32::MAX,
        text.len() <= u32::MAX,
    ensures
        take_parties(parties_bytes(owner, leader, bidders, text) + rest) == Some(
            (owner, leader, bidders, text, rest),
        ),
{
    let count = bidders.len() as u32;
    let s4 = blob_bytes(text) + rest;
    let s3 = blobs_bytes(bidders) + s4;
    let s2 = number_bytes(count) + s3;
    let s1 = blob_bytes(leader) + s2;
    assert(parties_bytes(owner, leader, bidders, text) + rest =~= blob_bytes(owner) + s1);
    lemma_take_blob(owner, s1);
    lemma_take_blob(leader, s2);
    lemma_take_number(count, s3);
    lemma_take_blobs(bidders, s4);
    lemma_take_blob(text, rest);
}

/// Reading back the record of an item gives the item.
pub proof fn lemma_record_round_trip(item: ItemView)
    requires
        fits(item),
    ensures
        parse_record(record_bytes(item)) == Some(item),
{
    lemma_fits_bounds(item);
    let text = encode_utf8(item.description);
    let none = Seq::<u8>::empty();
    let parties = parties_bytes(item.owner, item.current_highest_bidder, item.bidders, text);
    let s1 = number_bytes(item.current_highest_bid) + parties;
    assert(record_bytes(item) =~= flag_bytes(item.is_active) + s1);
    lemma_take_flag(item.is_active, s1);
    lemma_take_number(item.current_highest_bid, parties);
    lemma_take_parties(item.owner, item.current_highest_bidder, item.bidders, text, none);
    assert(parties =~= parties + none);
    encode_utf8_valid_utf8(item.description);
    encode_utf8_decode_utf8(item.description);
}

/// Bytes that a flag was read from start with that flag as it is written.
pub proof fn lemma_flag_taken(bytes: Seq<u8>)
    requires
        take_flag(bytes) is Some,
    ensures
        take_flag(bytes) matches Some((flag, rest)) && bytes == flag_bytes(flag) + rest,
{
    let (flag, rest) = take_flag(bytes)->0;
    assert(bytes =~= flag_bytes(flag) + rest);
}

/// Bytes that a number was read from start with that number as it is
/// written.
pub proof fn lemma_number_taken(bytes: Seq<u8>)
    requires
        take_number(bytes) is Some,
    ensures
        take_number(bytes) matches Some((n, rest)) && bytes == number_bytes(n) + rest,
{
    lemma_auto_spec_u32_to_from_le_bytes();
    let (n, rest) = take_number(bytes)->0;
    assert(number_bytes(n) == bytes.take(4));
    assert(bytes =~= bytes.take(4) + rest);
}

/// Bytes that a byte string was read from start with that string as it is
/// written.
pub proof fn lemma_blob_taken(bytes: Seq<u8>)
    requires
        take_blob(bytes) is Some,
    ensures
        take_blob(bytes) matches Some((blob, rest)) && bytes == blob_bytes(blob) + rest,
{
    let (blob, rest) = take_blob(bytes)->0;
    let (len, tail) = take_number(bytes)->0;
    lemma_number_taken(bytes);
    assert(blob.len() == len);
    assert(tail =~= blob + rest);
    assert(bytes =~= blob_bytes(blob) + rest);
}

/// Bytes that byte strings were read from start with those strings as they
/// are written.
pub proof fn lemma_blobs_taken(bytes: Seq<u8>, count: nat)
    requires
        take_blobs(bytes, count) is Some,
    ensures
        take_blobs(bytes, count) matches Some((blobs, rest)) && blobs.len() == count && bytes
            == blobs_bytes(blobs) + rest,
    decreases count,
{
    let (blobs, rest) = take_blobs(bytes, count)->0;
    if count == 0 {
        assert(bytes =~= blobs_bytes(blobs) + rest);
    } else {
        let (blob, tail) = take_blob(bytes)->0;
        let (others, end) = take_blobs(tail, (count - 1) as nat)->0;
        lemma_blob_taken(bytes);
        lemma_blobs_taken(tail, (count - 1) as nat);
        assert(blobs.drop_first() =~= others);
        assert(bytes =~= blobs_bytes(blobs) + rest);
    }
}

proof fn lemma_parties_taken(bytes: Seq<u8>)
    requires
        take_parties(bytes) is Some,
    ensures
        take_parties(bytes) matches Some((owner, leader, bidders, text, end)) && bytes
            == parties_bytes(owner, leader, bidders, text) + end,
{
    let (owner, s1) = take_blob(bytes)->0;
    let (leader, s2) = take_blob(s1)->0;
    let (count, s3) = take_number(s2)->0;
    let (bidders, s4) = take_blobs(s3, count as nat)->0;
    let (text, end) = take_blob(s4)->0;
    lemma_blob_taken(bytes);
    lemma_blob_taken(s1);
    lemma_number_taken(s2);
    lemma_blobs_taken(s3, count as nat);
    lemma_blob_taken(s4);
    assert(bidders.len() as u32 == count);
    let owner_part = blob_bytes(owner);
    let leader_part = blob_bytes(leader);
    let count_part = number_bytes(count);
    let bidders_part = blobs_bytes(bidders);
    let text_part = blob_bytes(text);
    assert(s3 == bidders_part + (text_part + end));
    assert(s2 == count_part + (bidders_part + (text_part + end)));
    assert(s1 == leader_part + (count_part + (bidders_part + (text_part + end))));
    assert(bytes == owner_part + (leader_part + (count_part + (bidders_part + (text_part + end)))));
    assert(bytes =~= owner_part + leader_part + count_part + bidders_part + text_part + end);
}

/// A record is the record of the item that it is read as: no two records
/// stand for one item.
pub proof fn lemma_record_canonical(bytes: Seq<u8>)
    requires
        parse_record(bytes) is Some,
    ensures
        record_bytes(parse_record(bytes)->0) == bytes,
{
    let (is_active, s1) = take_flag(bytes)->0;
    let (bid, s2) = take_number(s1)->0;
    let (owner, leader, bidders, text, end) = take_parties(s2)->0;
    lemma_flag_taken(bytes);
    lemma_number_taken(s1);
    lemma_parties_taken(s2);
    decode_utf8_encode_utf8(text);
    let parties = parties_bytes(owner, leader, bidders, text);
    assert(s2 =~= parties);
    assert(bytes =~= flag_bytes(is_active) + number_bytes(bid) + parties);
}

} // verus!
