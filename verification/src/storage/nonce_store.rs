//! The replay set of the receiver: every sender identifier and nonce that was
//! accepted once, with the time it was first seen.
//!
//! A `NonceStore` is a handle on the set as it is kept on disk. What it is
//! said to hold is right as long as it is the only handle in use: where two
//! are open on the same set, what one writes the other does not know of.

use vstd::prelude::*;
use vstd::utf8::encode_utf8;
use crate::bytes::{put_bytes, u64_be, u64_to_be};
use crate::clock::now_secs;
use crate::codec::lemma_cancel;
use super::kv::{
    open_tree, tree_contains, tree_entries, tree_flush, tree_insert, tree_name,
};
use super::StorageError;

verus! {

/// The key under which a sender's nonce is kept: the sender's identifier as
/// eight big-endian bytes, then the nonce.
pub open spec fn nonce_key(sender_id: u64, nonce: Seq<u8>) -> Seq<u8> {
    u64_be(sender_id) + nonce
}

/// Two senders' nonces have one key only if they are one sender and one nonce.
pub proof fn lemma_nonce_key_injective(s1: u64, n1: Seq<u8>, s2: u64, n2: Seq<u8>)
    requires
        nonce_key(s1, n1) == nonce_key(s2, n2),
    ensures
        s1 == s2,
        n1 == n2,
{
    crate::bytes::lemma_u64_be_order(s1, s2);
    crate::bytes::lemma_u64_be_order(s2, s1);
    lemma_cancel(u64_be(s1), n1, u64_be(s2), n2);
}

/// What a failure of the store while `key` was asked for leaves of a replay
/// set `seen`: what it held under every other key, and all of it where `key`
/// was in it.
pub open spec fn nonce_failure(
    seen: Map<Seq<u8>, Seq<u8>>,
    key: Seq<u8>,
    seen_after: Map<Seq<u8>, Seq<u8>>,
) -> bool {
    &&& seen_after.remove(key) == seen.remove(key)
    &&& seen.contains_key(key) ==> seen_after == seen
}

/// What asking for a nonce at `now` does to a replay set `seen`: a nonce that
/// was not there is put in, with the time, and counts as fresh; one that was
/// there changes nothing and does not. Only the store can make this fail, and
/// then no other nonce is touched.
pub open spec fn nonce_outcome(
    seen: Map<Seq<u8>, Seq<u8>>,
    sender_id: u64,
    nonce: Seq<u8>,
    now: u64,
    seen_after: Map<Seq<u8>, Seq<u8>>,
    r: Result<bool, StorageError>,
) -> bool {
    match r {
        Ok(fresh) => fresh == !seen.contains_key(nonce_key(sender_id, nonce)) && seen_after == (
        if fresh {
            seen.insert(nonce_key(sender_id, nonce), u64_be(now))
        } else {
            seen
        }),
        Err(e) => e is Db && nonce_failure(seen, nonce_key(sender_id, nonce), seen_after),
    }
}

/// A nonce is fresh exactly once: after it was asked for, whether it was fresh
/// or not, it is in the replay set, every nonce that was there still is, and
/// asking for it again finds it not fresh and changes nothing.
pub proof fn lemma_fresh_once(
    seen: Map<Seq<u8>, Seq<u8>>,
    sender_id: u64,
    nonce: Seq<u8>,
    now1: u64,
    mid: Map<Seq<u8>, Seq<u8>>,
    first: bool,
    now2: u64,
    after: Map<Seq<u8>, Seq<u8>>,
    second: bool,
)
    requires
        nonce_outcome(seen, sender_id, nonce, now1, mid, Ok(first)),
        nonce_outcome(mid, sender_id, nonce, now2, after, Ok(second)),
    ensures
        first == !seen.contains_key(nonce_key(sender_id, nonce)),
        !second,
        after == mid,
        forall|k: Seq<u8>| seen.contains_key(k) ==> mid.contains_key(k),
{
}

/// The replay set, on disk.
pub struct NonceStore {
    tree: sled::Tree,
}

impl View for NonceStore {
    type V = Map<Seq<u8>, Seq<u8>>;

    closed spec fn view(&self) -> Map<Seq<u8>, Seq<u8>> {
        tree_entries(&self.tree)
    }
}

/// The name of the tree that keeps the replay set: `nonces`.
pub open spec fn nonce_tree_name() -> Seq<u8> {
    encode_utf8("nonces"@)
}

impl NonceStore {
    /// The name of the tree that this replay set is kept in.
    pub closed spec fn tree(&self) -> Seq<u8> {
        tree_name(&self.tree)
    }

    /// Opens the replay set kept in the store `db`: the tree called `nonces`.
    /// What it holds is what is on disk; only the store can make this fail.
    pub fn open(db: &sled::Db) -> (r: Result<NonceStore, StorageError>)
        ensures
            match r {
                Ok(store) => store.tree() == nonce_tree_name() && store@.dom().finite(),
                Err(e) => e is Db,
            },
    {
        match open_tree(db, "nonces") {
            Ok(tree) => Ok(NonceStore { tree }),
            Err(e) => Err(StorageError::Db(e)),
        }
    }

    /// Whether `nonce` is new for the sender `sender_id`. A new one is kept,
    /// with `now` as the time it was first seen, and seen to disk before the
    /// answer is given.
    pub fn insert_if_fresh_at(&mut self, sender_id: u64, nonce: &[u8], now: u64) -> (r: Result<
        bool,
        StorageError,
    >)
        ensures
            nonce_outcome(old(self)@, sender_id, nonce@, now, final(self)@, r),
            final(self).tree() == old(self).tree(),
    {
        let mut key = u64_to_be(sender_id);
        put_bytes(&mut key, nonce);
        match tree_contains(&self.tree, key.as_slice()) {
            Ok(true) => {
                return Ok(false);
            },
            Ok(false) => {},
            Err(e) => {
                return Err(StorageError::Db(e));
            },
        }
        let stamp = u64_to_be(now);
        match tree_insert(&mut self.tree, key.as_slice(), stamp.as_slice()) {
            Ok(()) => {},
            Err(e) => {
                return Err(StorageError::Db(e));
            },
        }
        match tree_flush(&self.tree) {
            Ok(()) => Ok(true),
            Err(e) => Err(StorageError::Db(e)),
        }
    }

    /// Whether `nonce` is new for the sender `sender_id`; a new one is kept.
    pub fn insert_if_fresh(&mut self, sender_id: u64, nonce: &[u8]) -> (r: Result<bool, StorageError>)
        ensures
            exists|now: u64| #[trigger]
                nonce_outcome(old(self)@, sender_id, nonce@, now, final(self)@, r),
            final(self).tree() == old(self).tree(),
    {
        let now = now_secs();
        self.insert_if_fresh_at(sender_id, nonce, now)
    }
}

} // verus!
