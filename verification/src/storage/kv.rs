//! The embedded key/value store. It keeps named trees of byte-string keys and
//! values on disk, each tree ordered by its keys in dictionary order.
//!
//! Nothing in this file is proved: it states what the store is trusted to do.
//! A tree is spoken of through the pairs it holds as seen through one handle.
//! That picture is right as long as nothing else writes to the tree while the
//! handle is in use, which the types in this crate see to by keeping their
//! handles to themselves. The one tree that is handed out is that of the
//! replay set: of the handles on it only one may be in use.

use vstd::prelude::*;
use vstd::utf8::encode_utf8;
use crate::bytes::lex_lt;

verus! {

/// A tree of the store: `sled::Tree`, of which nothing is known but what the
/// functions below say.
#[verifier::external_type_specification]
#[verifier::external_body]
pub struct ExTree(sled::Tree);

/// The store: `sled::Db`, of which nothing is known but what the functions
/// below say.
#[verifier::external_type_specification]
#[verifier::external_body]
pub struct ExDb(sled::Db);

/// A failure of the store: `sled::Error`. It is handed on as it is.
#[verifier::external_type_specification]
#[verifier::external_body]
pub struct ExSledError(sled::Error);

/// The key/value pairs that a tree holds.
pub uninterp spec fn tree_entries(tree: &sled::Tree) -> Map<Seq<u8>, Seq<u8>>;

/// The name that a tree goes by in its store: what `Tree::name` of sled
/// returns, which is the name that the tree was opened under.
pub uninterp spec fn tree_name(tree: &sled::Tree) -> Seq<u8>;

/// `pairs` are exactly the pairs of `entries`, by ascending key.
pub open spec fn sorted_listing(
    pairs: Seq<(Seq<u8>, Seq<u8>)>,
    entries: Map<Seq<u8>, Seq<u8>>,
) -> bool {
    &&& forall|i: int|
        0 <= i < pairs.len() ==> entries.contains_key(#[trigger] pairs[i].0) && entries[pairs[i].0]
            == pairs[i].1
    &&& forall|i: int, j: int|
        0 <= i < j < pairs.len() ==> lex_lt(#[trigger] pairs[i].0, #[trigger] pairs[j].0)
    &&& forall|k: Seq<u8>|
        entries.contains_key(k) ==> exists|i: int| 0 <= i < pairs.len() && #[trigger] pairs[i].0 == k
}

/// The pairs in a listing, as mathematical values.
pub open spec fn pairs_of(listing: Seq<(Vec<u8>, Vec<u8>)>) -> Seq<(Seq<u8>, Seq<u8>)> {
    Seq::new(listing.len(), |i: int| (listing[i].0@, listing[i].1@))
}

/// Opens the store in the directory `path`, creating it where there is none.
///
/// Trusted: `sled::open`. What is on disk decides the outcome.
#[verifier::external_body]
pub(crate) fn open_db(path: &str) -> (r: Result<sled::Db, sled::Error>) {
    sled::open(path)
}

/// Opens the tree called `name`, creating it where there is none.
///
/// Trusted: `Db::open_tree` of sled. The tree that comes back goes by the
/// name it was asked for under. What is on disk decides what it holds; it
/// holds finitely many pairs.
#[verifier::external_body]
pub(crate) fn open_tree(db: &sled::Db, name: &str) -> (r: Result<sled::Tree, sled::Error>)
    ensures
        r matches Ok(tree) ==> tree_entries(&tree).dom().finite(),
        r matches Ok(tree) ==> tree_name(&tree) == encode_utf8(name@),
{
    db.open_tree(name)
}

/// Sets `key` to `value`.
///
/// Trusted: `Tree::insert` of sled. Where it succeeds the tree holds what it
/// held, but `value` under `key`. Where it fails nothing is known of what
/// stands under `key`; the tree still holds finitely many pairs. Either way
/// it writes to no other key: what stands under the others is what stood
/// there. The tree keeps its name.
#[verifier::external_body]
pub(crate) fn tree_insert(
    tree: &mut sled::Tree,
    key: &[u8],
    value: &[u8],
) -> (r: Result<(), sled::Error>)
    ensures
        r is Ok ==> tree_entries(final(tree)) == tree_entries(old(tree)).insert(key@, value@),
        tree_entries(final(tree)).remove(key@) == tree_entries(old(tree)).remove(key@),
        tree_entries(final(tree)).dom().finite(),
        tree_name(final(tree)) == tree_name(old(tree)),
{
    match tree.insert(key, value) {
        Ok(_) => Ok(()),
        Err(e) => Err(e),
    }
}

/// The value under `key`, if there is one.
///
/// Trusted: `Tree::get` of sled.
#[verifier::external_body]
pub(crate) fn tree_get(tree: &sled::Tree, key: &[u8]) -> (r: Result<Option<Vec<u8>>, sled::Error>)
    ensures
        match r {
            Ok(Some(value)) => tree_entries(tree).contains_key(key@) && tree_entries(tree)[key@]
                == value@,
            Ok(None) => !tree_entries(tree).contains_key(key@),
            Err(_) => true,
        },
{
    match tree.get(key) {
        Ok(found) => Ok(found.map(|value| value.to_vec())),
        Err(e) => Err(e),
    }
}

/// Whether there is a value under `key`.
///
/// Trusted: `Tree::contains_key` of sled.
#[verifier::external_body]
pub(crate) fn tree_contains(tree: &sled::Tree, key: &[u8]) -> (r: Result<bool, sled::Error>)
    ensures
        r matches Ok(found) ==> found == tree_entries(tree).contains_key(key@),
{
    tree.contains_key(key)
}

/// Takes `key` out, and says whether it was there.
///
/// Trusted: `Tree::remove` of sled. Where it succeeds the tree holds what it
/// held, without `key`. Where it fails nothing is known of what stands under
/// `key`; the tree still holds finitely many pairs. Either way it writes to
/// no other key: what stands under the others is what stood there.
#[verifier::external_body]
pub(crate) fn tree_remove(tree: &mut sled::Tree, key: &[u8]) -> (r: Result<bool, sled::Error>)
    ensures
        r matches Ok(existed) ==> tree_entries(final(tree)) == tree_entries(old(tree)).remove(
            key@,
        ) && existed == tree_entries(old(tree)).contains_key(key@),
        tree_entries(final(tree)).remove(key@) == tree_entries(old(tree)).remove(key@),
        tree_entries(final(tree)).dom().finite(),
{
    match tree.remove(key) {
        Ok(previous) => Ok(previous.is_some()),
        Err(e) => Err(e),
    }
}

/// The pair with the least key, if the tree holds any.
///
/// Trusted: `Tree::first` of sled, whose trees hold finitely many pairs,
/// ordered by their keys in dictionary order.
#[verifier::external_body]
pub(crate) fn tree_first(
    tree: &sled::Tree,
) -> (r: Result<Option<(Vec<u8>, Vec<u8>)>, sled::Error>)
    ensures
        match r {
            Ok(Some((key, value))) => tree_entries(tree).dom().finite() && tree_entries(
                tree,
            ).contains_key(key@) && tree_entries(tree)[key@] == value@ && forall|other: Seq<u8>|
                tree_entries(tree).contains_key(other) && other != key@ ==> lex_lt(key@, other),
            Ok(None) => tree_entries(tree) == Map::<Seq<u8>, Seq<u8>>::empty(),
            Err(_) => true,
        },
{
    match tree.first() {
        Ok(found) => Ok(found.map(|(key, value)| (key.to_vec(), value.to_vec()))),
        Err(e) => Err(e),
    }
}

/// All pairs, by ascending key.
///
/// Trusted: `Tree::iter` of sled, which walks the pairs in the order of their
/// keys; the first failure ends the walk and is handed on.
#[verifier::external_body]
pub(crate) fn tree_scan(tree: &sled::Tree) -> (r: Result<Vec<(Vec<u8>, Vec<u8>)>, sled::Error>)
    ensures
        r matches Ok(listing) ==> sorted_listing(pairs_of(listing@), tree_entries(tree)),
{
    tree.iter().map(|item| item.map(|(key, value)| (key.to_vec(), value.to_vec()))).collect()
}

/// Writes what is still in memory to disk.
///
/// Trusted: `Tree::flush` of sled. It changes nothing that the tree holds.
#[verifier::external_body]
pub(crate) fn tree_flush(tree: &sled::Tree) -> (r: Result<(), sled::Error>) {
    match tree.flush() {
        Ok(_) => Ok(()),
        Err(e) => Err(e),
    }
}

/// A number that this store has not handed out before.
///
/// Trusted: `Db::generate_id` of sled. Nothing is claimed of the number.
#[verifier::external_body]
pub(crate) fn next_id(db: &sled::Db) -> (r: Result<u64, sled::Error>) {
    db.generate_id()
}

} // verus!
