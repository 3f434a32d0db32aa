//! Writing an item as a record and reading a record back.

use crate::durable::MAX_VALUE_SIZE;
use crate::identity::Identity;
use crate::item::{identity_views, Item};
use crate::record::{
    blob_bytes, blobs_bytes, fits, flag_bytes, lemma_blobs_len, lemma_blobs_push, number_bytes,
    parse_record, record_bytes, take_blob, take_blobs, take_flag, take_number,
};
use vstd::bytes::{u32_from_le_bytes, u32_to_le_bytes};
use vstd::prelude::*;
use vstd::slice::{slice_subrange, slice_to_vec};
use vstd::utf8::{decode_utf8, valid_utf8};

verus! {

/// `String::from_utf8`: the text that `bytes` encode, where they are valid
/// UTF-8, and nothing where they are not.
#[verifier::external_body]
fn text_from_utf8(bytes: Vec<u8>) -> (text: Option<String>)
    ensures
        match text {
            Some(s) => valid_utf8(bytes@) && s@ == decode_utf8(bytes@),
            None => !valid_utf8(bytes@),
        },
{
    match String::from_utf8(bytes) {
        Ok(s) => Some(s),
        Err(_) => None,
    }
}

fn put_flag(out: &mut Vec<u8>, flag: bool)
    ensures
        final(out)@ == old(out)@ + flag_bytes(flag),
{
    out.push(if flag { 1u8 } else { 0u8 });
    assert(out@ =~= old(out)@ + flag_bytes(flag));
}

fn put_number(out: &mut Vec<u8>, n: u32)
    ensures
        final(out)@ == old(out)@ + number_bytes(n),
{
    let mut le = u32_to_le_bytes(n);
    out.append(&mut le);
}

fn put_blob(out: &mut Vec<u8>, blob: &[u8])
    requires
        blob@.len() <= u32::MAX,
    ensures
        final(out)@ == old(out)@ + blob_bytes(blob@),
{
    put_number(out, blob.len() as u32);
    let mut copy = slice_to_vec(blob);
    out.append(&mut copy);
    assert(out@ =~= old(out)@ + blob_bytes(blob@));
}

fn read_flag(bytes: &[u8], at: usize) -> (read: Option<(bool, usize)>)
    requires
        at <= bytes@.len(),
    ensures
        match take_flag(bytes@.skip(at as int)) {
            Some((flag, rest)) => read matches Some((f, next)) && f == flag && next <= bytes@.len()
                && bytes@.skip(next as int) == rest,
            None => read is None,
        },
{
    if at < bytes.len() && bytes[at] <= 1 {
        assert(bytes@.skip(at as int).skip(1) =~= bytes@.skip(at + 1));
        Some((bytes[at] == 1, at + 1))
    } else {
        None
    }
}

fn read_number(bytes: &[u8], at: usize) -> (read: Option<(u32, usize)>)
    requires
        at <= bytes@.len(),
    ensures
        match take_number(bytes@.skip(at as int)) {
            Some((n, rest)) => read matches Some((m, next)) && m == n && next <= bytes@.len()
                && bytes@.skip(next as int) == rest,
            None => read is None,
        },
{
    if bytes.len() - at >= 4 {
        let n = u32_from_le_bytes(slice_subrange(bytes, at, at + 4));
        assert(bytes@.skip(at as int).take(4) =~= bytes@.subrange(at as int, at + 4));
        assert(bytes@.skip(at as int).skip(4) =~= bytes@.skip(at + 4));
        Some((n, at + 4))
    } else {
        None
    }
}

fn read_blob(bytes: &[u8], at: usize) -> (read: Option<(&[u8], usize)>)
    requires
        at <= bytes@.len(),
    ensures
        match take_blob(bytes@.skip(at as int)) {
            Some((blob, rest)) => read matches Some((b, next)) && b@ == blob && next
                <= bytes@.len() && bytes@.skip(next as int) == rest,
            None => read is None,
        },
{
    match read_number(bytes, at) {
        Some((len, start)) => {
            if bytes.len() - start >= len as usize {
                let end = start + len as usize;
                let blob = slice_subrange(bytes, start, end);
                assert(bytes@.skip(start as int).take(len as int) =~= bytes@.subrange(
                    start as int,
                    end as int,
                ));
                assert(bytes@.skip(start as int).skip(len as int) =~= bytes@.skip(end as int));
                Some((blob, end))
            } else {
                None
            }
        },
        None => None,
    }
}

fn read_identities(bytes: &[u8], at: usize, count: u32) -> (read: Option<(Vec<Identity>, usize)>)
    requires
        at <= bytes@.len(),
    ensures
        match take_blobs(bytes@.skip(at as int), count as nat) {
            Some((blobs, rest)) => read matches Some((ids, next)) && identity_views(ids@) == blobs
                && next <= bytes@.len() && bytes@.skip(next as int) == rest,
            None => read is None,
        },
{
    let ghost whole = take_blobs(bytes@.skip(at as int), count as nat);
    let mut ids: Vec<Identity> = Vec::new();
    let mut next = at;
    let mut i: u32 = 0;
    assert(identity_views(ids@) =~= Seq::<Seq<u8>>::empty());
    while i < count
        invariant
            i <= count,
            next <= bytes@.len(),
            whole == take_blobs(bytes@.skip(at as int), count as nat),
            whole == match take_blobs(bytes@.skip(next as int), (count - i) as nat) {
                Some((blobs, rest)) => Some((identity_views(ids@) + blobs, rest)),
                None => None,
            },
        decreases count - i,
    {
        let ghost before = identity_views(ids@);
        match read_blob(bytes, next) {
            Some((blob, after)) => {
                ids.push(Identity::from_slice(blob));
                proof {
                    assert(identity_views(ids@) =~= before.push(blob@));
                    match take_blobs(bytes@.skip(after as int), (count - i - 1) as nat) {
                        Some((blobs, rest)) => {
                            assert(before + (seq![blob@] + blobs) =~= before.push(blob@) + blobs);
                        },
                        None => {},
                    }
                }
                next = after;
            },
            None => {
                return None;
            },
        }
        i = i + 1;
    }
    assert(identity_views(ids@) + Seq::<Seq<u8>>::empty() =~= identity_views(ids@));
    Some((ids, next))
}

impl Item {
    /// The record of the item, unless it is longer than the durable map takes.
    pub fn to_bytes(&self) -> (encoded: Option<Vec<u8>>)
        ensures
            encoded is Some <==> fits(self@),
            encoded matches Some(bytes) ==> bytes@ == record_bytes(self@),
    {
        let text = self.description.as_str().as_bytes();
        proof {
            lemma_blobs_len(self@.bidders);
        }
        if text.len() > MAX_VALUE_SIZE || self.bidders.len() > MAX_VALUE_SIZE
            || self.owner.as_slice().len() > MAX_VALUE_SIZE
            || self.current_highest_bidder.as_slice().len() > MAX_VALUE_SIZE {
            return None;
        }
        let mut out: Vec<u8> = Vec::new();
        put_flag(&mut out, self.is_active);
        put_number(&mut out, self.current_highest_bid);
        put_blob(&mut out, self.owner.as_slice());
        put_blob(&mut out, self.current_highest_bidder.as_slice());
        put_number(&mut out, self.bidders.len() as u32);
        let ghost head = out@;
        let mut i: usize = 0;
        while i < self.bidders.len()
            invariant
                i <= self.bidders@.len(),
                out@ == head + blobs_bytes(self@.bidders.take(i as int)),
                forall|j: int|
                    0 <= j < self@.bidders.len() ==> blobs_bytes(self@.bidders).len() >= 4 + (
                    #[trigger] self@.bidders[j]).len(),
            decreases self.bidders@.len() - i,
        {
            let bidder = self.bidders[i].as_slice();
            assert(bidder@ == self@.bidders[i as int]);
            if bidder.len() > MAX_VALUE_SIZE {
                return None;
            }
            put_blob(&mut out, bidder);
            proof {
                lemma_blobs_push(self@.bidders.take(i as int), bidder@);
                assert(self@.bidders.take(i + 1) =~= self@.bidders.take(i as int).push(bidder@));
                assert(out@ =~= head + blobs_bytes(self@.bidders.take(i + 1)));
            }
            i = i + 1;
        }
        assert(self@.bidders.take(i as int) =~= self@.bidders);
        put_blob(&mut out, text);
        assert(out@ =~= record_bytes(self@));
        if out.len() > MAX_VALUE_SIZE {
            return None;
        }
        Some(out)
    }

    /// The item that `bytes` stand for, unless they are no record.
    pub fn from_bytes(bytes: &[u8]) -> (decoded: Option<Item>)
        ensures
            match parse_record(bytes@) {
                Some(item) => decoded matches Some(found) && found@ == item,
                None => decoded is None,
            },
    {
        assert(bytes@.skip(0) =~= bytes@);
        let (is_active, at) = match read_flag(bytes, 0) {
            Some(read) => read,
            None => { return None; },
        };
        let (current_highest_bid, at) = match read_number(bytes, at) {
            Some(read) => read,
            None => { return None; },
        };
        let (owner, at) = match read_blob(bytes, at) {
            Some(read) => read,
            None => { return None; },
        };
        let (leader, at) = match read_blob(bytes, at) {
            Some(read) => read,
            None => { return None; },
        };
        let (count, at) = match read_number(bytes, at) {
            Some(read) => read,
            None => { return None; },
        };
        let (bidders, at) = match read_identities(bytes, at, count) {
            Some(read) => read,
            None => { return None; },
        };
        let (text, at) = match read_blob(bytes, at) {
            Some(read) => read,
            None => { return None; },
        };
        if at != bytes.len() {
            return None;
        }
        let description = match text_from_utf8(slice_to_vec(text)) {
            Some(description) => description,
            None => { return None; },
        };
        Some(
            Item {
                description,
                current_highest_bid,
                current_highest_bidder: Identity::from_slice(leader),
                is_active,
                bidders,
                owner: Identity::from_slice(owner),
            },
        )
    }
}

} // verus!
