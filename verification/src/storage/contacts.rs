//! The address book: who the peers are, where they are reached, and the key
//! that messages to them are encrypted with. Each contact is kept sealed under
//! its number.

use vstd::prelude::*;
use vstd::utf8::encode_utf8;
use crate::bytes::{lemma_u64_be_order, lex_lt, put_u64_le, u64_be, u64_le, u64_to_be};
use crate::codec::{
    lemma_cancel_len_prefixed, lemma_cancel_text, lemma_cancel_u64, len_prefixed,
    put_len_prefixed, put_text, take_len_prefixed, take_text, take_u64, text_field,
};
use crate::hexcode::{hex_decode, hex_decoded};
use crate::text::{
    eq_ignore_ascii_case,
    has_leading_slash,
    join_path,
    same_ignoring_ascii_case,
    starts_with_slash,
    str_trimmed,
    str_trimmed_start,
    trim,
    trim_start,
};
use super::at_rest::{decrypt, encrypt, is_sealing_of, unsealed, AtRestKey};
use super::kv::{
    next_id, open_db, open_tree, pairs_of, sorted_listing, tree_contains, tree_entries, tree_get,
    tree_insert, tree_remove, tree_scan,
};
use super::StorageError;

verus! {

/// A peer.
#[derive(Debug, Clone)]
pub struct Contact {
    pub id: u64,
    pub name: String,
    /// Where the peer is reached, as a multiaddr.
    pub addr: String,
    /// The peer's public encryption key, 32 bytes.
    pub public_key: Vec<u8>,
    /// Seconds between pings.
    pub ping_interval: u64,
}

/// What a contact holds, as mathematical values.
pub struct ContactView {
    pub id: u64,
    pub name: Seq<char>,
    pub addr: Seq<char>,
    pub public_key: Seq<u8>,
    pub ping_interval: u64,
}

impl ContactView {
    /// The fields have lengths that the stored form can hold.
    pub open spec fn wf(self) -> bool {
        &&& encode_utf8(self.name).len() <= u64::MAX
        &&& encode_utf8(self.addr).len() <= u64::MAX
        &&& self.public_key.len() <= u64::MAX
    }
}

impl View for Contact {
    type V = ContactView;

    open spec fn view(&self) -> ContactView {
        ContactView {
            id: self.id,
            name: self.name@,
            addr: self.addr@,
            public_key: self.public_key@,
            ping_interval: self.ping_interval,
        }
    }
}

/// The stored form of a contact followed by `rest`.
pub open spec fn contact_wire_then(c: ContactView, rest: Seq<u8>) -> Seq<u8> {
    u64_le(c.id) + (text_field(c.name) + (text_field(c.addr) + (len_prefixed(c.public_key) + (
    u64_le(c.ping_interval) + rest))))
}

/// The stored form of a contact.
pub open spec fn contact_wire(c: ContactView) -> Seq<u8> {
    contact_wire_then(c, Seq::empty())
}

/// `bytes` starts with the stored form of `c`.
pub open spec fn starts_with_contact(bytes: Seq<u8>, c: ContactView) -> bool {
    c.wf() && exists|rest: Seq<u8>| bytes == #[trigger] contact_wire_then(c, rest)
}

/// The contact that `bytes` starts with, if there is one.
pub open spec fn contact_of(bytes: Seq<u8>) -> Option<ContactView> {
    if exists|c: ContactView| starts_with_contact(bytes, c) {
        Some(choose|c: ContactView| starts_with_contact(bytes, c))
    } else {
        None
    }
}

/// Bytes start with at most one contact.
pub proof fn lemma_contact_unique(bytes: Seq<u8>, a: ContactView, b: ContactView)
    requires
        starts_with_contact(bytes, a),
        starts_with_contact(bytes, b),
    ensures
        a == b,
{
    let ra = choose|rest: Seq<u8>| bytes == #[trigger] contact_wire_then(a, rest);
    let rb = choose|rest: Seq<u8>| bytes == #[trigger] contact_wire_then(b, rest);
    let a4 = u64_le(a.ping_interval) + ra;
    let b4 = u64_le(b.ping_interval) + rb;
    let a3 = len_prefixed(a.public_key) + a4;
    let b3 = len_prefixed(b.public_key) + b4;
    let a2 = text_field(a.addr) + a3;
    let b2 = text_field(b.addr) + b3;
    let a1 = text_field(a.name) + a2;
    let b1 = text_field(b.name) + b2;
    lemma_cancel_u64(a.id, a1, b.id, b1);
    lemma_cancel_text(a.name, a2, b.name, b2);
    lemma_cancel_text(a.addr, a3, b.addr, b3);
    lemma_cancel_len_prefixed(a.public_key, a4, b.public_key, b4);
    lemma_cancel_u64(a.ping_interval, ra, b.ping_interval, rb);
}

/// Decoding the stored form of a contact, whatever follows it, gives that
/// contact back.
pub proof fn lemma_contact_roundtrip(c: ContactView, rest: Seq<u8>)
    requires
        c.wf(),
    ensures
        contact_of(contact_wire_then(c, rest)) == Some(c),
{
    let bytes = contact_wire_then(c, rest);
    assert(starts_with_contact(bytes, c));
    lemma_contact_unique(bytes, c, contact_of(bytes)->0);
}

impl Contact {
    /// The stored form.
    pub fn encode(&self) -> (out: Vec<u8>)
        ensures
            out@ == contact_wire(self@),
            self@.wf(),
    {
        let mut out: Vec<u8> = Vec::new();
        put_u64_le(&mut out, self.id);
        put_text(&mut out, self.name.as_str());
        put_text(&mut out, self.addr.as_str());
        put_len_prefixed(&mut out, self.public_key.as_slice());
        put_u64_le(&mut out, self.ping_interval);
        let total: usize = out.len();
        proof {
            assert(out@ =~= contact_wire(self@));
            assert(out@.len() == total);
            assert(out@.len() >= encode_utf8(self@.name).len());
            assert(out@.len() >= encode_utf8(self@.addr).len());
            assert(out@.len() >= self@.public_key.len());
        }
        out
    }

    /// Reads the contact that `bytes` starts with. Bytes behind it are
    /// ignored. Fails exactly when `bytes` starts with no contact.
    pub fn decode(bytes: &[u8]) -> (decoded: Option<Contact>)
        ensures
            contact_of(bytes@) == match decoded {
                Some(c) => Some(c@),
                None => None,
            },
    {
        let ghost all = bytes@;
        proof {
            assert(all =~= all.skip(0));
        }
        let r1 = take_u64(bytes, 0);
        let r2 = match r1 {
            Some((_, p)) => take_text(bytes, p),
            None => None,
        };
        let r3 = match &r2 {
            Some((_, p)) => take_text(bytes, *p),
            None => None,
        };
        let r4 = match &r3 {
            Some((_, p)) => take_len_prefixed(bytes, *p),
            None => None,
        };
        let r5 = match &r4 {
            Some((_, p)) => take_u64(bytes, *p),
            None => None,
        };
        proof {
            assert forall|c: ContactView| starts_with_contact(all, c) implies r5 is Some && (
            ContactView {
                id: (r1->0).0,
                name: (r2->0).0@,
                addr: (r3->0).0@,
                public_key: (r4->0).0@,
                ping_interval: (r5->0).0,
            }) == c by {
                let rest = choose|rest: Seq<u8>| all == #[trigger] contact_wire_then(c, rest);
                let c4 = u64_le(c.ping_interval) + rest;
                let c3 = len_prefixed(c.public_key) + c4;
                let c2 = text_field(c.addr) + c3;
                let c1 = text_field(c.name) + c2;
                crate::bytes::lemma_pow256_values();
                crate::bytes::lemma_le_roundtrip(c.id as nat, 8);
                crate::bytes::lemma_le_roundtrip(c.ping_interval as nat, 8);
                assert(r1 is Some);
                lemma_cancel_u64(c.id, c1, (r1->0).0, all.skip((r1->0).1 as int));
                assert(r2 is Some);
                lemma_cancel_text(c.name, c2, (r2->0).0@, all.skip((r2->0).1 as int));
                assert(r3 is Some);
                lemma_cancel_text(c.addr, c3, (r3->0).0@, all.skip((r3->0).1 as int));
                assert(r4 is Some);
                lemma_cancel_len_prefixed(
                    c.public_key,
                    c4,
                    (r4->0).0@,
                    all.skip((r4->0).1 as int),
                );
                assert(r5 is Some);
                lemma_cancel_u64(c.ping_interval, rest, (r5->0).0, all.skip((r5->0).1 as int));
            }
        }
        match (r1, r2, r3, r4, r5) {
            (
                Some((id, _)),
                Some((name, _)),
                Some((addr, _)),
                Some((public_key, _)),
                Some((ping_interval, end)),
            ) => {
                let c = Contact { id, name, addr, public_key, ping_interval };
                proof {
                    assert(all == contact_wire_then(c@, all.skip(end as int)));
                    assert(starts_with_contact(all, c@));
                    lemma_contact_unique(all, c@, contact_of(all)->0);
                }
                Some(c)
            },
            _ => None,
        }
    }
}

/// `e` is the error owed for what was typed for a contact, if it is not
/// acceptable: the name must not be empty once trimmed, the address must
/// start with a slash once the white space in front of it is dropped, and the
/// key must be hexadecimal text for 32 bytes.
pub open spec fn input_refused(
    name: Seq<char>,
    addr: Seq<char>,
    public_key_hex: Seq<char>,
    e: StorageError,
) -> bool {
    if str_trimmed(name).len() == 0 {
        e.is_validation("name cannot be empty"@)
    } else if !starts_with_slash(str_trimmed_start(addr)) {
        e.is_validation("addr must be a multiaddr starting with '/'"@)
    } else {
        match hex_decoded(encode_utf8(public_key_hex)) {
            None => e matches StorageError::Validation(text) && "invalid pubkey hex: "@.is_prefix_of(
                text@,
            ),
            Some(key) => key.len() != 32 && e.is_validation(
                "pubkey must be 32 bytes (64 hex chars)"@,
            ),
        }
    }
}

/// What was typed for a contact is acceptable.
pub open spec fn input_accepted(name: Seq<char>, addr: Seq<char>, public_key_hex: Seq<char>) -> bool {
    &&& str_trimmed(name).len() != 0
    &&& starts_with_slash(str_trimmed_start(addr))
    &&& hex_decoded(encode_utf8(public_key_hex)) matches Some(key) && key.len() == 32
}

/// Checks what was typed for a contact, and gives the trimmed name and the
/// key.
pub fn validate_input(name: &str, addr: &str, public_key_hex: &str) -> (r: Result<
    (String, Vec<u8>),
    StorageError,
>)
    ensures
        match r {
            Ok((trimmed, key)) => input_accepted(name@, addr@, public_key_hex@) && trimmed@
                == str_trimmed(name@) && hex_decoded(encode_utf8(public_key_hex@)) == Some(key@),
            Err(e) => !input_accepted(name@, addr@, public_key_hex@) && input_refused(
                name@,
                addr@,
                public_key_hex@,
                e,
            ),
        },
{
    let trimmed = trim(name);
    if trimmed.as_str().is_empty() {
        return Err(StorageError::validation("name cannot be empty"));
    }
    let addr_start = trim_start(addr);
    if !has_leading_slash(addr_start.as_str()) {
        return Err(StorageError::validation("addr must be a multiaddr starting with '/'"));
    }
    let key = match hex_decode(public_key_hex) {
        Ok(key) => key,
        Err(reason) => {
            let text = String::from_str("invalid pubkey hex: ").concat(reason.as_str());
            return Err(StorageError::Validation(text));
        },
    };
    if key.len() != 32 {
        return Err(StorageError::validation("pubkey must be 32 bytes (64 hex chars)"));
    }
    Ok((trimmed, key))
}

/// The contact that a sealed record holds under `key`, if it opens and holds
/// one.
pub open spec fn stored_contact(sealed: Seq<u8>, key: Seq<u8>) -> Option<ContactView> {
    match unsealed(sealed, key) {
        Some(plain) => contact_of(plain),
        None => None,
    }
}

/// `e` is the error owed for a sealed record that does not give a contact.
pub open spec fn contact_failure(sealed: Seq<u8>, key: Seq<u8>, e: StorageError) -> bool {
    match unsealed(sealed, key) {
        None => if sealed.len() < 40 {
            e.is_serialization("Crypto error: ciphertext too short"@)
        } else {
            e.is_serialization("Crypto error: decryption failed"@)
        },
        Some(plain) => contact_of(plain) is None && e.is_serialization("invalid contact record"@),
    }
}

/// The contacts in a list, as mathematical values.
pub open spec fn contact_views(list: Seq<Contact>) -> Seq<ContactView> {
    Seq::new(list.len(), |i: int| list[i]@)
}

/// `list` holds what the sealed records in `pairs` give, one by one.
pub open spec fn contacts_of(pairs: Seq<(Seq<u8>, Seq<u8>)>, key: Seq<u8>, list: Seq<Contact>) -> bool {
    list.len() == pairs.len() && forall|i: int|
        0 <= i < list.len() ==> stored_contact(pairs[i].1, key) == Some(#[trigger] list[i]@)
}

/// `list` holds the contacts of the book `book`, in the order of the keys
/// that their records stand under.
pub open spec fn lists_contacts(list: Seq<Contact>, book: Map<Seq<u8>, Seq<u8>>, key: Seq<u8>) -> bool {
    exists|pairs: Seq<(Seq<u8>, Seq<u8>)>|
        sorted_listing(pairs, book) && #[trigger] contacts_of(pairs, key, list)
}

/// The address book, on disk.
pub struct ContactStore {
    db: sled::Db,
    tree: sled::Tree,
    key: AtRestKey,
}

/// What the address book holds: the sealed records by the big-endian bytes of
/// their numbers, and the at-rest key.
pub struct ContactBook {
    pub records: Map<Seq<u8>, Seq<u8>>,
    pub key: Seq<u8>,
}

impl ContactBook {
    /// Every record that gives a contact stands under that contact's number.
    /// A book that only this store has written to is numbered so.
    pub open spec fn numbered(self) -> bool {
        forall|k: Seq<u8>| #[trigger]
            self.records.contains_key(k) ==> match stored_contact(self.records[k], self.key) {
                Some(c) => k == u64_be(c.id),
                None => true,
            }
    }

    /// The contact under the number `id`, if there is a record that gives one.
    pub open spec fn contact(self, id: u64) -> Option<ContactView> {
        if self.records.contains_key(u64_be(id)) {
            stored_contact(self.records[u64_be(id)], self.key)
        } else {
            None
        }
    }
}

impl View for ContactStore {
    type V = ContactBook;

    closed spec fn view(&self) -> ContactBook {
        ContactBook { records: tree_entries(&self.tree), key: self.key@ }
    }
}

/// What was typed makes a contact whose stored form is too long to seal.
pub open spec fn too_long_to_seal(
    name: Seq<char>,
    addr: Seq<char>,
    public_key_hex: Seq<char>,
) -> bool {
    exists|c: ContactView|
        c.name == str_trimmed(name) && c.addr == addr && hex_decoded(encode_utf8(public_key_hex))
            == Some(c.public_key) && (#[trigger] contact_wire(c)).len() + 40 > usize::MAX
}

/// The contact that what was typed makes under the number `id`: the trimmed
/// name, the address as typed, the key that the text spells, and no pinging.
pub open spec fn typed_contact(
    id: u64,
    name: Seq<char>,
    addr: Seq<char>,
    public_key_hex: Seq<char>,
) -> ContactView {
    ContactView {
        id,
        name: str_trimmed(name),
        addr,
        public_key: match hex_decoded(encode_utf8(public_key_hex)) {
            Some(key) => key,
            None => Seq::empty(),
        },
        ping_interval: 0,
    }
}

/// What writing the new contact `c` into the book `pre` gives. Where the book
/// has a record under the number of `c`, nothing is written over: the contact
/// is refused, and nothing changes. Else `c` is sealed into the book under its
/// number, and comes back; a contact too long to seal is refused, and nothing
/// changes. Where the store fails, no other number is touched.
pub open spec fn insert_new_outcome(
    pre: ContactBook,
    c: ContactView,
    post: ContactBook,
    r: Result<Contact, StorageError>,
) -> bool {
    let at = u64_be(c.id);
    &&& post.key == pre.key
    &&& match r {
        Ok(stored) => {
            &&& stored@ == c
            &&& c.wf()
            &&& !pre.records.contains_key(at)
            &&& post.records.contains_key(at)
            &&& is_sealing_of(post.records[at], pre.key, contact_wire(c))
            &&& post.records == pre.records.insert(at, post.records[at])
        },
        Err(e) => if e is Db {
            &&& post.records.remove(at) == pre.records.remove(at)
            &&& pre.records.contains_key(at) ==> post == pre
        } else if pre.records.contains_key(at) {
            e.is_validation("contact id already in use"@) && post == pre
        } else {
            &&& e.is_crypto("plaintext too long"@)
            &&& contact_wire(c).len() + 40 > usize::MAX
            &&& post == pre
        },
    }
}

/// The contact that was typed was written as a new one under some number, or
/// that failed: see `insert_new_outcome`.
pub open spec fn inserted_under_some_number(
    pre: ContactBook,
    name: Seq<char>,
    addr: Seq<char>,
    public_key_hex: Seq<char>,
    post: ContactBook,
    r: Result<Contact, StorageError>,
) -> bool {
    exists|id: u64| #[trigger]
        insert_new_outcome(pre, typed_contact(id, name, addr, public_key_hex), post, r)
}

/// What adding a contact to the book `pre` gives. What was typed is checked,
/// and refused where it is not in order; nothing changes then. Else the store
/// gives out a number, and the contact that was typed is written as a new one
/// under it: with the trimmed name, the address as typed, the key and no
/// pinging, and only where the book has nothing under that number. Where the
/// store fails to give out a number nothing changes.
pub open spec fn add_outcome(
    pre: ContactBook,
    name: Seq<char>,
    addr: Seq<char>,
    public_key_hex: Seq<char>,
    post: ContactBook,
    r: Result<Contact, StorageError>,
) -> bool {
    &&& post.key == pre.key
    &&& if !input_accepted(name, addr, public_key_hex) {
        r matches Err(e) && input_refused(name, addr, public_key_hex, e) && post == pre
    } else {
        ||| r matches Err(e) && e is Db && post == pre
        ||| inserted_under_some_number(pre, name, addr, public_key_hex, post, r)
    }
}

/// A contact that was added has a number under which the book had nothing,
/// and the fields that were typed; every record that was there is still there,
/// as it was.
pub proof fn lemma_added_is_new(
    pre: ContactBook,
    name: Seq<char>,
    addr: Seq<char>,
    public_key_hex: Seq<char>,
    post: ContactBook,
    c: Contact,
)
    requires
        add_outcome(pre, name, addr, public_key_hex, post, Ok(c)),
    ensures
        input_accepted(name, addr, public_key_hex),
        !pre.records.contains_key(u64_be(c.id)),
        c@ == typed_contact(c.id, name, addr, public_key_hex),
        hex_decoded(encode_utf8(public_key_hex)) == Some(c@.public_key),
        post.records.contains_key(u64_be(c.id)),
        is_sealing_of(post.records[u64_be(c.id)], pre.key, contact_wire(c@)),
        forall|k: Seq<u8>|
            pre.records.contains_key(k) ==> post.records.contains_key(k) && post.records[k]
                == pre.records[k],
{
}

/// What writing the contact under the number `id` anew gives: what was typed
/// is checked; the contact keeps the pinging of the one that was there, and is
/// sealed into the book under `id`. Where what was typed is in order, an
/// error is the store's own, that of a record under `id` that gives no
/// contact, or that of a contact too long to seal; no other number is
/// touched.
pub open spec fn update_outcome(
    pre: ContactBook,
    id: u64,
    name: Seq<char>,
    addr: Seq<char>,
    public_key_hex: Seq<char>,
    post: ContactBook,
    r: Result<Contact, StorageError>,
) -> bool {
    &&& post.key == pre.key
    &&& match r {
        Ok(c) => {
            &&& input_accepted(name, addr, public_key_hex)
            &&& c@.wf()
            &&& c@.id == id
            &&& c@.name == str_trimmed(name)
            &&& c@.addr == addr
            &&& hex_decoded(encode_utf8(public_key_hex)) == Some(c@.public_key)
            &&& c@.ping_interval == match pre.contact(id) {
                Some(previous) => previous.ping_interval,
                None => 0,
            }
            &&& post.records.contains_key(u64_be(id))
            &&& is_sealing_of(post.records[u64_be(id)], pre.key, contact_wire(c@))
            &&& post.records == pre.records.insert(u64_be(id), post.records[u64_be(id)])
        },
        Err(e) => if input_accepted(name, addr, public_key_hex) {
            &&& post.records.remove(u64_be(id)) == pre.records.remove(u64_be(id))
            &&& e is Db || (post == pre && ((e.is_crypto("plaintext too long"@)
                && too_long_to_seal(name, addr, public_key_hex)) || (pre.records.contains_key(
                u64_be(id),
            ) && contact_failure(pre.records[u64_be(id)], pre.key, e))))
        } else {
            input_refused(name, addr, public_key_hex, e) && post == pre
        },
    }
}

/// What looking up the number `id` in a book gives: the contact that the
/// record under it holds, nothing where there is no record, and an error where
/// the record gives no contact.
pub open spec fn get_outcome(book: ContactBook, id: u64, r: Result<Option<Contact>, StorageError>) -> bool {
    match r {
        Ok(Some(c)) => book.contact(id) == Some(c@),
        Ok(None) => !book.records.contains_key(u64_be(id)),
        Err(e) => e is Db || (book.records.contains_key(u64_be(id)) && contact_failure(
            book.records[u64_be(id)],
            book.key,
            e,
        )),
    }
}

/// The contacts of `list` come by ascending number.
pub open spec fn ascending_by_number(list: Seq<Contact>) -> bool {
    forall|i: int, j: int| 0 <= i < j < list.len() ==> list[i].id < list[j].id
}

/// A list of a book in which every record stands under its contact's number
/// gives the contacts by ascending number.
pub proof fn lemma_listed_by_number(list: Seq<Contact>, book: ContactBook)
    requires
        book.numbered(),
        lists_contacts(list, book.records, book.key),
    ensures
        ascending_by_number(list),
{
    let pairs = choose|pairs: Seq<(Seq<u8>, Seq<u8>)>|
        sorted_listing(pairs, book.records) && #[trigger] contacts_of(pairs, book.key, list);
    assert forall|i: int, j: int| 0 <= i < j < list.len() implies list[i].id < list[j].id by {
        assert(book.records.contains_key(pairs[i].0));
        assert(book.records.contains_key(pairs[j].0));
        assert(stored_contact(pairs[i].1, book.key) == Some(list[i]@));
        assert(stored_contact(pairs[j].1, book.key) == Some(list[j]@));
        assert(lex_lt(pairs[i].0, pairs[j].0));
        lemma_u64_be_order(list[i].id, list[j].id);
    }
}

/// A sealed record of the contact `c` gives `c`.
pub proof fn lemma_sealed_contact(sealed: Seq<u8>, key: Seq<u8>, c: ContactView)
    requires
        c.wf(),
        is_sealing_of(sealed, key, contact_wire(c)),
    ensures
        stored_contact(sealed, key) == Some(c),
{
    lemma_contact_roundtrip(c, Seq::empty());
}

/// Writing the record of a contact under its own number keeps every record
/// under its contact's number.
pub proof fn lemma_write_keeps_numbered(pre: ContactBook, c: ContactView, post: ContactBook)
    requires
        pre.numbered(),
        c.wf(),
        post.key == pre.key,
        post.records.contains_key(u64_be(c.id)),
        is_sealing_of(post.records[u64_be(c.id)], pre.key, contact_wire(c)),
        post.records == pre.records.insert(u64_be(c.id), post.records[u64_be(c.id)]),
    ensures
        post.numbered(),
{
    lemma_sealed_contact(post.records[u64_be(c.id)], pre.key, c);
    assert forall|k: Seq<u8>| #[trigger] post.records.contains_key(k) implies match stored_contact(
        post.records[k],
        post.key,
    ) {
        Some(found) => k == u64_be(found.id),
        None => true,
    } by {
        if k != u64_be(c.id) {
            assert(pre.records.contains_key(k));
        }
    }
}

/// Adding a contact keeps every record under its contact's number, whether
/// it goes well or is refused. (Where the store fails, what stands under the
/// one number written to is not known.)
pub proof fn lemma_add_keeps_numbered(
    pre: ContactBook,
    name: Seq<char>,
    addr: Seq<char>,
    public_key_hex: Seq<char>,
    post: ContactBook,
    r: Result<Contact, StorageError>,
)
    requires
        pre.numbered(),
        add_outcome(pre, name, addr, public_key_hex, post, r),
        r matches Err(e) ==> !(e is Db),
    ensures
        post.numbered(),
{
    match r {
        Ok(c) => {
            lemma_write_keeps_numbered(pre, c@, post);
        },
        Err(e) => {
            assert(post == pre);
        },
    }
}

/// Writing a contact anew keeps every record under its contact's number,
/// whether it goes well or is refused. (Where the store fails, what stands
/// under the one number written to is not known.)
pub proof fn lemma_update_keeps_numbered(
    pre: ContactBook,
    id: u64,
    name: Seq<char>,
    addr: Seq<char>,
    public_key_hex: Seq<char>,
    post: ContactBook,
    r: Result<Contact, StorageError>,
)
    requires
        pre.numbered(),
        update_outcome(pre, id, name, addr, public_key_hex, post, r),
        r matches Err(e) ==> !(e is Db),
    ensures
        post.numbered(),
{
    match r {
        Ok(c) => {
            lemma_write_keeps_numbered(pre, c@, post);
        },
        Err(e) => {
            assert(post == pre);
        },
    }
}

/// Taking a contact out keeps every record under its contact's number.
pub proof fn lemma_remove_keeps_numbered(pre: ContactBook, id: u64, post: ContactBook, existed: bool)
    requires
        pre.numbered(),
        remove_outcome(pre, id, post, Ok(existed)),
    ensures
        post.numbered(),
{
    assert forall|k: Seq<u8>| #[trigger] post.records.contains_key(k) implies match stored_contact(
        post.records[k],
        post.key,
    ) {
        Some(found) => k == u64_be(found.id),
        None => true,
    } by {
        assert(pre.records.contains_key(k));
    }
}

/// `e` is an error owed for reading through a whole book: the store's own,
/// or that of a record in the book that gives no contact.
pub open spec fn book_failure(book: ContactBook, e: StorageError) -> bool {
    e is Db || exists|k: Seq<u8>| #[trigger]
        book.records.contains_key(k) && contact_failure(book.records[k], book.key, e)
}

/// What listing a book gives: its contacts in the order of the keys that
/// their records stand under, which is by ascending number where every record
/// stands under its contact's number; or an error where the store fails or a
/// record gives no contact.
pub open spec fn list_outcome(book: ContactBook, r: Result<Vec<Contact>, StorageError>) -> bool {
    match r {
        Ok(list) => lists_contacts(list@, book.records, book.key) && (book.numbered()
            ==> ascending_by_number(list@)),
        Err(e) => book_failure(book, e),
    }
}

/// What taking the number `id` out of the book `pre` gives: whether it was
/// there, and the book without it. Only the store can make this fail, and
/// then no other number is touched.
pub open spec fn remove_outcome(
    pre: ContactBook,
    id: u64,
    post: ContactBook,
    r: Result<bool, StorageError>,
) -> bool {
    &&& post.key == pre.key
    &&& match r {
        Ok(existed) => existed == pre.records.contains_key(u64_be(id)) && post.records
            == pre.records.remove(u64_be(id)),
        Err(e) => e is Db && post.records.remove(u64_be(id)) == pre.records.remove(u64_be(id)),
    }
}

/// What looking for a name in a book gives: the first contact of its list
/// (see `list_outcome`; by ascending number where every record stands under
/// its contact's number) whose name is `name` but for the case of ASCII
/// letters; or an error where the store fails or a record gives no contact.
pub open spec fn find_outcome(
    book: ContactBook,
    name: Seq<char>,
    r: Result<Option<Contact>, StorageError>,
) -> bool {
    match r {
        Ok(found) => exists|list: Seq<Contact>|
            #[trigger] lists_contacts(list, book.records, book.key) && first_named(
                list,
                name,
                match found {
                    Some(c) => Some(c@),
                    None => None,
                },
            ),
        Err(e) => book_failure(book, e),
    }
}

impl ContactStore {
    /// Opens the address book in the directory `data_dir`, creating it where
    /// there is none, with records sealed under `key`.
    pub fn open_in_dir(data_dir: &str, key: AtRestKey) -> (r: Result<ContactStore, StorageError>)
        ensures
            match r {
                Ok(store) => store@.key == key@,
                Err(e) => e is Db,
            },
    {
        let path = join_path(data_dir, "contacts_db");
        let db = match open_db(path.as_str()) {
            Ok(db) => db,
            Err(e) => {
                return Err(StorageError::Db(e));
            },
        };
        let tree = match open_tree(&db, "contacts") {
            Ok(tree) => tree,
            Err(e) => {
                return Err(StorageError::Db(e));
            },
        };
        Ok(ContactStore { db, tree, key })
    }

    /// Seals `contact` and writes it under its number.
    fn put(&mut self, contact: &Contact) -> (r: Result<(), StorageError>)
        ensures
            final(self)@.key == old(self)@.key,
            match r {
                Ok(()) => contact@.wf() && final(self)@.records.contains_key(
                    u64_be(contact.id),
                ) && is_sealing_of(
                    final(self)@.records[u64_be(contact.id)],
                    old(self)@.key,
                    contact_wire(contact@),
                ) && final(self)@.records == old(self)@.records.insert(
                    u64_be(contact.id),
                    final(self)@.records[u64_be(contact.id)],
                ),
                Err(e) => final(self)@.records.remove(u64_be(contact.id)) == old(
                    self,
                )@.records.remove(u64_be(contact.id)) && (e is Db || (e.is_crypto(
                    "plaintext too long"@,
                ) && contact_wire(contact@).len() + 40 > usize::MAX && final(self)@ == old(
                    self,
                )@)),
            },
    {
        let plain = contact.encode();
        let sealed = match encrypt(&self.key, plain.as_slice()) {
            Ok(sealed) => sealed,
            Err(e) => {
                return Err(e);
            },
        };
        let id_key = u64_to_be(contact.id);
        match tree_insert(&mut self.tree, id_key.as_slice(), sealed.as_slice()) {
            Ok(()) => {
                proof {
                    assert(self@.records =~= old(self)@.records.insert(
                        u64_be(contact.id),
                        sealed@,
                    ));
                }
                Ok(())
            },
            Err(e) => Err(StorageError::Db(e)),
        }
    }

    /// Writes `contact` as a new one under its number. Where the book has a
    /// record under that number it is not written over: the contact is
    /// refused.
    pub fn insert_new(&mut self, contact: Contact) -> (r: Result<Contact, StorageError>)
        ensures
            insert_new_outcome(old(self)@, contact@, final(self)@, r),
    {
        let id_key = u64_to_be(contact.id);
        match tree_contains(&self.tree, id_key.as_slice()) {
            Ok(false) => {},
            Ok(true) => {
                return Err(StorageError::validation("contact id already in use"));
            },
            Err(e) => {
                return Err(StorageError::Db(e));
            },
        }
        match self.put(&contact) {
            Ok(()) => Ok(contact),
            Err(e) => Err(e),
        }
    }

    /// Adds a contact under a number that the store gives out and under which
    /// the book has nothing, and gives the contact as it was stored: the name
    /// trimmed, the address as typed, the key, and no pinging.
    pub fn add(&mut self, name: &str, addr: &str, public_key_hex: &str) -> (r: Result<
        Contact,
        StorageError,
    >)
        ensures
            add_outcome(old(self)@, name@, addr@, public_key_hex@, final(self)@, r),
    {
        let (trimmed, public_key) = match validate_input(name, addr, public_key_hex) {
            Ok(parts) => parts,
            Err(e) => {
                return Err(e);
            },
        };
        let id = match next_id(&self.db) {
            Ok(id) => id,
            Err(e) => {
                return Err(StorageError::Db(e));
            },
        };
        let contact = Contact {
            id,
            name: trimmed,
            addr: String::from_str(addr),
            public_key,
            ping_interval: 0,
        };
        proof {
            assert(contact@ == typed_contact(id, name@, addr@, public_key_hex@));
        }
        let r = self.insert_new(contact);
        proof {
            assert(insert_new_outcome(
                old(self)@,
                typed_contact(id, name@, addr@, public_key_hex@),
                self@,
                r,
            ));
        }
        r
    }

    /// The contact under the number `id`, if there is one.
    pub fn get(&self, id: u64) -> (r: Result<Option<Contact>, StorageError>)
        ensures
            get_outcome(self@, id, r),
    {
        let id_key = u64_to_be(id);
        let sealed = match tree_get(&self.tree, id_key.as_slice()) {
            Ok(Some(sealed)) => sealed,
            Ok(None) => {
                return Ok(None);
            },
            Err(e) => {
                return Err(StorageError::Db(e));
            },
        };
        match Self::open_record(&self.key, sealed.as_slice()) {
            Ok(c) => Ok(Some(c)),
            Err(e) => Err(e),
        }
    }

    /// Opens one sealed record.
    fn open_record(key: &AtRestKey, sealed: &[u8]) -> (r: Result<Contact, StorageError>)
        ensures
            match r {
                Ok(c) => stored_contact(sealed@, key@) == Some(c@),
                Err(e) => stored_contact(sealed@, key@) is None && contact_failure(
                    sealed@,
                    key@,
                    e,
                ),
            },
    {
        let plain = match decrypt(key, sealed) {
            Ok(plain) => plain,
            Err(_) => {
                if sealed.len() < 40 {
                    return Err(
                        StorageError::serialization("Crypto error: ciphertext too short"),
                    );
                } else {
                    return Err(StorageError::serialization("Crypto error: decryption failed"));
                }
            },
        };
        match Contact::decode(plain.as_slice()) {
            Some(c) => Ok(c),
            None => Err(StorageError::serialization("invalid contact record")),
        }
    }

    /// All contacts, by ascending number. A record that cannot be read is an
    /// error.
    pub fn list(&self) -> (r: Result<Vec<Contact>, StorageError>)
        ensures
            list_outcome(self@, r),
    {
        let listing = match tree_scan(&self.tree) {
            Ok(listing) => listing,
            Err(e) => {
                return Err(StorageError::Db(e));
            },
        };
        let ghost pairs = pairs_of(listing@);
        let mut out: Vec<Contact> = Vec::new();
        let mut i: usize = 0;
        while i < listing.len()
            invariant
                i <= listing.len(),
                pairs == pairs_of(listing@),
                pairs.len() == listing.len(),
                sorted_listing(pairs, self@.records),
                out@.len() == i,
                forall|j: int|
                    0 <= j < i ==> stored_contact(pairs[j].1, self@.key) == Some(
                        #[trigger] out@[j]@,
                    ),
            decreases listing.len() - i,
        {
            let entry = &listing[i];
            match Self::open_record(&self.key, entry.1.as_slice()) {
                Ok(c) => {
                    out.push(c);
                },
                Err(e) => {
                    proof {
                        assert(self@.records.contains_key(pairs[i as int].0));
                    }
                    return Err(e);
                },
            }
            i = i + 1;
        }
        proof {
            assert(contacts_of(pairs, self@.key, out@));
            if self@.numbered() {
                lemma_listed_by_number(out@, self@);
            }
        }
        Ok(out)
    }

    /// Takes the contact under the number `id` out, and says whether it was
    /// there.
    pub fn remove(&mut self, id: u64) -> (r: Result<bool, StorageError>)
        ensures
            remove_outcome(old(self)@, id, final(self)@, r),
    {
        let id_key = u64_to_be(id);
        match tree_remove(&mut self.tree, id_key.as_slice()) {
            Ok(existed) => Ok(existed),
            Err(e) => Err(StorageError::Db(e)),
        }
    }

    /// Writes the contact under the number `id` anew. The pinging of a contact
    /// that was there is kept.
    pub fn update(&mut self, id: u64, name: &str, addr: &str, public_key_hex: &str) -> (r: Result<
        Contact,
        StorageError,
    >)
        ensures
            update_outcome(old(self)@, id, name@, addr@, public_key_hex@, final(self)@, r),
    {
        let (trimmed, public_key) = match validate_input(name, addr, public_key_hex) {
            Ok(parts) => parts,
            Err(e) => {
                return Err(e);
            },
        };
        let ping_interval = match self.get(id) {
            Ok(Some(previous)) => previous.ping_interval,
            Ok(None) => 0,
            Err(e) => {
                return Err(e);
            },
        };
        let contact = Contact {
            id,
            name: trimmed,
            addr: String::from_str(addr),
            public_key,
            ping_interval,
        };
        match self.put(&contact) {
            Ok(()) => Ok(contact),
            Err(e) => Err(e),
        }
    }

    /// The first contact, by ascending number, whose name is `name` but for
    /// the case of ASCII letters.
    pub fn find_by_name_case_insensitive(&self, name: &str) -> (r: Result<
        Option<Contact>,
        StorageError,
    >)
        ensures
            find_outcome(self@, name@, r),
    {
        let list = match self.list() {
            Ok(list) => list,
            Err(e) => {
                return Err(e);
            },
        };
        let ghost all = list@;
        let found = pick_by_name(list, name);
        Ok(found)
    }
}

/// `found` is the first contact in `list` whose name is `name` but for the
/// case of ASCII letters, or nothing where there is none.
pub open spec fn first_named(list: Seq<Contact>, name: Seq<char>, found: Option<ContactView>) -> bool {
    match found {
        Some(c) => exists|i: int|
            0 <= i < list.len() && #[trigger] list[i]@ == c && same_ignoring_ascii_case(
                c.name,
                name,
            ) && forall|j: int|
                0 <= j < i ==> !same_ignoring_ascii_case((#[trigger] list[j])@.name, name),
        None => forall|j: int|
            0 <= j < list.len() ==> !same_ignoring_ascii_case((#[trigger] list[j])@.name, name),
    }
}

/// The first contact in `contacts` whose name is `name` but for the case of
/// ASCII letters.
pub fn pick_by_name(contacts: Vec<Contact>, name: &str) -> (found: Option<Contact>)
    ensures
        first_named(
            contacts@,
            name@,
            match found {
                Some(c) => Some(c@),
                None => None,
            },
        ),
{
    let mut list = contacts;
    let ghost all = list@;
    let mut i: usize = 0;
    while i < list.len()
        invariant
            i <= list.len(),
            list@ == all,
            all == contacts@,
            forall|j: int|
                0 <= j < i ==> !same_ignoring_ascii_case((#[trigger] all[j])@.name, name@),
        decreases list.len() - i,
    {
        if eq_ignore_ascii_case(list[i].name.as_str(), name) {
            let c = list.swap_remove(i);
            proof {
                let at = i as int;
                assert(all[at]@ == c@);
                assert(0 <= at < all.len() && all[at]@ == c@ && same_ignoring_ascii_case(
                    c@.name,
                    name@,
                ));
                assert(first_named(all, name@, Some(c@)));
            }
            return Some(c);
        }
        i = i + 1;
    }
    None
}

} // verus!
