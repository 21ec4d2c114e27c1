//! What front-ends share: finding out whom a message is for.

use vstd::prelude::*;
use vstd::utf8::encode_utf8;
use crate::error::PigeonError;
use crate::hexcode::{hex_decode, hex_decoded};
use crate::bytes::u64_be;
use crate::storage::contacts::{
    book_failure, first_named, get_outcome, lists_contacts, pick_by_name, Contact, ContactBook,
    ContactStore, ContactView,
};
use crate::text::{decimal_u64, parse_u64};

verus! {

/// `e` is the error owed where address and key are to come from what was
/// typed, and do not.
pub open spec fn typed_target_refused(
    to: Option<Seq<char>>,
    pubkey_hex: Option<Seq<char>>,
    e: PigeonError,
) -> bool {
    match (to, pubkey_hex) {
        (None, _) => e.is_config("--to or --contact required"@),
        (Some(_), None) => e.is_config("--pubkey_hex or --contact required"@),
        (Some(_), Some(hex)) => match hex_decoded(encode_utf8(hex)) {
            None => e is Config,
            Some(key) => key.len() != 32 && e.is_config("invalid pubkey"@),
        },
    }
}

/// `addr` and `key` are the address and the key that were typed.
pub open spec fn is_typed_target(
    to: Option<Seq<char>>,
    pubkey_hex: Option<Seq<char>>,
    addr: Seq<char>,
    key: Seq<u8>,
) -> bool {
    to == Some(addr) && pubkey_hex is Some && hex_decoded(encode_utf8(pubkey_hex->0)) == Some(key)
}

/// A text that may be missing, as a mathematical value.
pub open spec fn typed(text: Option<&str>) -> Option<Seq<char>> {
    match text {
        Some(t) => Some(t@),
        None => None,
    }
}

/// Address and key as they were typed: both have to be there, and the key has
/// to be hexadecimal text for 32 bytes.
pub fn typed_target(to: Option<&str>, pubkey_hex: Option<&str>) -> (r: Result<
    (String, [u8; 32]),
    PigeonError,
>)
    ensures
        match r {
            Ok((addr, key)) => is_typed_target(typed(to), typed(pubkey_hex), addr@, key@),
            Err(e) => typed_target_refused(typed(to), typed(pubkey_hex), e),
        },
{
    let addr = match to {
        Some(addr) => addr,
        None => {
            return Err(PigeonError::config("--to or --contact required"));
        },
    };
    let hex = match pubkey_hex {
        Some(hex) => hex,
        None => {
            return Err(PigeonError::config("--pubkey_hex or --contact required"));
        },
    };
    let bytes = match hex_decode(hex) {
        Ok(bytes) => bytes,
        Err(reason) => {
            return Err(PigeonError::Config(reason));
        },
    };
    if bytes.len() != 32 {
        return Err(PigeonError::config("invalid pubkey"));
    }
    Ok((String::from_str(addr), crate::bytes::to_array::<32>(bytes.as_slice())))
}

/// What a search of the address book gives as the target: address and key of
/// the contact that was found; the error owed where none was found, or where
/// the one found has no key of 32 bytes.
pub open spec fn target_of(found: Option<ContactView>, r: Result<(String, [u8; 32]), PigeonError>) -> bool {
    match found {
        None => r matches Err(e) && e.is_config("contact not found"@),
        Some(c) => if c.public_key.len() == 32 {
            r matches Ok((addr, key)) && addr@ == c.addr && key@ == c.public_key
        } else {
            r matches Err(e) && e.is_config("contact has invalid pubkey"@)
        },
    }
}

/// A contact that may be missing, as a mathematical value.
pub open spec fn found_view(found: Option<Contact>) -> Option<ContactView> {
    match found {
        Some(c) => Some(c@),
        None => None,
    }
}

/// Address and key of a contact that was found, or the error owed where none
/// was found or the one found has no key of 32 bytes.
pub fn contact_target(found: Option<Contact>) -> (r: Result<(String, [u8; 32]), PigeonError>)
    ensures
        target_of(found_view(found), r),
{
    let c = match found {
        Some(c) => c,
        None => {
            return Err(PigeonError::config("contact not found"));
        },
    };
    if c.public_key.len() != 32 {
        return Err(PigeonError::config("contact has invalid pubkey"));
    }
    let key = crate::bytes::to_array::<32>(c.public_key.as_slice());
    Ok((c.addr, key))
}

/// The target is that of the first contact of the book, by ascending number,
/// whose name is `name` but for the case of ASCII letters.
pub open spec fn named_target(
    book: ContactBook,
    name: Seq<char>,
    r: Result<(String, [u8; 32]), PigeonError>,
) -> bool {
    exists|list: Seq<Contact>, found: Option<ContactView>|
        #[trigger] lists_contacts(list, book.records, book.key) && #[trigger] first_named(
            list,
            name,
            found,
        ) && target_of(found, r)
}

/// What selecting a contact of the book by `sel` gives. Where `sel` spells a
/// number, the contact under that number is taken; else the first contact, by
/// ascending number, whose name is `sel` but for the case of ASCII letters. The
/// target is then that of the contact. A storage error is the one that
/// looking up the number, or reading through the book, owes.
pub open spec fn selected_target(
    book: ContactBook,
    sel: Seq<char>,
    r: Result<(String, [u8; 32]), PigeonError>,
) -> bool {
    match r {
        Err(PigeonError::Storage(e)) => match decimal_u64(sel) {
            Some(id) => get_outcome(book, id, Err(e)),
            None => book_failure(book, e),
        },
        _ => match decimal_u64(sel) {
            Some(id) => if book.records.contains_key(u64_be(id)) {
                book.contact(id) is Some && target_of(book.contact(id), r)
            } else {
                target_of(None, r)
            },
            None => named_target(book, sel, r),
        },
    }
}

/// Where a message is to go and the key to encrypt it with: those of the
/// contact that `contact` selects, by number where it is one and else by name,
/// or, where no contact is selected, the address and key that were typed.
pub fn resolve_contact_or_args(
    store: &ContactStore,
    contact: Option<&str>,
    to: Option<&str>,
    pubkey_hex: Option<&str>,
) -> (r: Result<(String, [u8; 32]), PigeonError>)
    ensures
        match contact {
            None => match r {
                Ok((addr, key)) => is_typed_target(typed(to), typed(pubkey_hex), addr@, key@),
                Err(e) => typed_target_refused(typed(to), typed(pubkey_hex), e),
            },
            Some(sel) => selected_target(store@, sel@, r),
        },
{
    match contact {
        Some(sel) => match parse_u64(sel) {
            Some(id) => match store.get(id) {
                Ok(found) => contact_target(found),
                Err(e) => Err(PigeonError::Storage(e)),
            },
            None => match store.list() {
                Ok(list) => {
                    let ghost all = list@;
                    let found = pick_by_name(list, sel);
                    let r = contact_target(found);
                    proof {
                        assert(lists_contacts(all, store@.records, store@.key));
                        assert(first_named(all, sel@, found_view(found)));
                        assert(named_target(store@, sel@, r));
                    }
                    r
                },
                Err(e) => Err(PigeonError::Storage(e)),
            },
        },
        None => typed_target(to, pubkey_hex),
    }
}

} // verus!
