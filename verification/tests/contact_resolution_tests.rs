use secure_p2p_msg::error::PigeonError;
use secure_p2p_msg::storage::at_rest::AtRestKey;
use secure_p2p_msg::storage::contacts::{Contact, ContactStore};
use secure_p2p_msg::storage::StorageError;
use secure_p2p_msg::text::{is_whitespace, parse_u64, trim, trim_start};
use secure_p2p_msg::ui::resolve_contact_or_args;

fn key() -> AtRestKey {
    AtRestKey::from_bytes([5u8; 32])
}

fn validation_text(e: StorageError) -> String {
    match e {
        StorageError::Validation(text) => text,
        other => panic!("unexpected: {:?}", other),
    }
}

fn config_text(e: PigeonError) -> String {
    match e {
        PigeonError::Config(text) => text,
        other => panic!("unexpected: {:?}", other),
    }
}

#[test]
fn resolves_contact_by_name_and_id() {
    sodiumoxide::init().unwrap();

    let dir = tempfile::tempdir().unwrap();
    let data_dir = dir.path().to_str().unwrap();

    // Insert a contact
    let mut store = ContactStore::open_in_dir(data_dir, key()).unwrap();
    let pk = hex::encode([1u8; 32]);
    let c = store.add("Alice", "/ip4/127.0.0.1/tcp/4001", &pk).unwrap();

    // Resolve by name
    let (addr1, pk1) = resolve_contact_or_args(&store, Some("alice"), None, None).unwrap();
    assert_eq!(addr1, c.addr);
    assert_eq!(pk1.as_slice(), c.public_key.as_slice());

    // Resolve by id
    let (addr2, pk2) =
        resolve_contact_or_args(&store, Some(&c.id.to_string()), None, None).unwrap();
    assert_eq!(addr2, c.addr);
    assert_eq!(pk2.as_slice(), c.public_key.as_slice());

    // Resolve explicit args fallback
    let pk_hex = hex::encode([2u8; 32]);
    let (addr3, pk3) =
        resolve_contact_or_args(&store, None, Some("/ip4/1.2.3.4/tcp/1234"), Some(&pk_hex))
            .unwrap();
    assert_eq!(addr3, "/ip4/1.2.3.4/tcp/1234");
    assert_eq!(pk3, [2u8; 32]);
}

#[test]
fn resolution_errors_say_what_is_missing() {
    sodiumoxide::init().unwrap();
    let dir = tempfile::tempdir().unwrap();
    let store = ContactStore::open_in_dir(dir.path().to_str().unwrap(), key()).unwrap();
    let hex32 = hex::encode([2u8; 32]);
    let e = resolve_contact_or_args(&store, Some("nobody"), None, None).err().unwrap();
    assert_eq!(config_text(e), "contact not found");
    let e = resolve_contact_or_args(&store, Some("17"), None, None).err().unwrap();
    assert_eq!(config_text(e), "contact not found");
    let e = resolve_contact_or_args(&store, None, None, Some(&hex32)).err().unwrap();
    assert_eq!(config_text(e), "--to or --contact required");
    let e = resolve_contact_or_args(&store, None, Some("/ip4/1.2.3.4"), None).err().unwrap();
    assert_eq!(config_text(e), "--pubkey_hex or --contact required");
    let e = resolve_contact_or_args(&store, None, Some("/x"), Some("0102")).err().unwrap();
    assert_eq!(config_text(e), "invalid pubkey");
    assert!(resolve_contact_or_args(&store, None, Some("/x"), Some("zz")).is_err());
}

#[test]
fn contact_store_validates_what_is_typed() {
    sodiumoxide::init().unwrap();
    let dir = tempfile::tempdir().unwrap();
    let mut store = ContactStore::open_in_dir(dir.path().to_str().unwrap(), key()).unwrap();
    let pk = hex::encode([1u8; 32]);
    let e = store.add("   ", "/ip4/1.2.3.4", &pk).err().unwrap();
    assert_eq!(validation_text(e), "name cannot be empty");
    let e = store.add("Bob", "ip4/1.2.3.4", &pk).err().unwrap();
    assert_eq!(validation_text(e), "addr must be a multiaddr starting with '/'");
    let e = store.add("Bob", "/ip4/1.2.3.4", "xyz").err().unwrap();
    assert!(validation_text(e).starts_with("invalid pubkey hex: "));
    let e = store.add("Bob", "/ip4/1.2.3.4", "0102").err().unwrap();
    assert_eq!(validation_text(e), "pubkey must be 32 bytes (64 hex chars)");
    assert!(store.list().unwrap().is_empty());

    let c = store.add("  Bob \t", "  /ip4/1.2.3.4", &"AB".repeat(32)).unwrap();
    assert_eq!(c.name, "Bob");
    assert_eq!(c.addr, "  /ip4/1.2.3.4");
    assert_eq!(c.public_key, vec![0xabu8; 32]);
    assert_eq!(c.ping_interval, 0);
}

#[test]
fn contact_store_keeps_lists_updates_and_removes() {
    sodiumoxide::init().unwrap();
    let dir = tempfile::tempdir().unwrap();
    let data_dir = dir.path().to_str().unwrap();
    let (a, b);
    {
        let mut store = ContactStore::open_in_dir(data_dir, key()).unwrap();
        a = store.add("Alice", "/ip4/127.0.0.1/tcp/1", &hex::encode([1u8; 32])).unwrap();
        b = store.add("Bob", "/ip4/127.0.0.1/tcp/2", &hex::encode([2u8; 32])).unwrap();
        assert_ne!(a.id, b.id);
    }
    let mut store = ContactStore::open_in_dir(data_dir, key()).unwrap();
    let names: Vec<String> = store.list().unwrap().into_iter().map(|c| c.name).collect();
    assert_eq!(names.len(), 2);
    assert!(names.contains(&"Alice".to_string()) && names.contains(&"Bob".to_string()));
    let ids: Vec<u64> = store.list().unwrap().into_iter().map(|c| c.id).collect();
    assert!(ids[0] < ids[1]);
    assert_eq!(store.get(a.id).unwrap().unwrap().name, "Alice");
    assert!(store.get(a.id + b.id + 1).unwrap().is_none());
    assert_eq!(store.find_by_name_case_insensitive("BOB").unwrap().unwrap().id, b.id);
    assert!(store.find_by_name_case_insensitive("Bobby").unwrap().is_none());

    let updated = store.update(a.id, "Alicia", "/dns/a", &hex::encode([9u8; 32])).unwrap();
    assert_eq!(updated.id, a.id);
    assert_eq!(store.get(a.id).unwrap().unwrap().name, "Alicia");
    assert_eq!(store.get(a.id).unwrap().unwrap().public_key, vec![9u8; 32]);
    assert!(store.update(a.id, "", "/dns/a", &hex::encode([9u8; 32])).is_err());

    assert_eq!(store.remove(a.id).unwrap(), true);
    assert_eq!(store.remove(a.id).unwrap(), false);
    assert_eq!(store.list().unwrap().len(), 1);
}

#[test]
fn contact_records_are_sealed_and_in_the_bincode_form() {
    sodiumoxide::init().unwrap();
    let c = Contact {
        id: 3,
        name: "Zoë".to_string(),
        addr: "/ip4/1.2.3.4".to_string(),
        public_key: vec![7u8; 32],
        ping_interval: 30,
    };
    let expected = bincode::serialize(&(
        3u64,
        "Zoë".to_string(),
        "/ip4/1.2.3.4".to_string(),
        vec![7u8; 32],
        30u64,
    ))
    .unwrap();
    assert_eq!(c.encode(), expected);
    let back = Contact::decode(&expected).unwrap();
    assert_eq!(back.name, "Zoë");
    assert_eq!(back.ping_interval, 30);
    assert!(Contact::decode(&expected[..expected.len() - 1]).is_none());
    // a name that is no UTF-8 is refused
    let mut broken = expected.clone();
    broken[16] = 0xff;
    assert!(Contact::decode(&broken).is_none());

    let dir = tempfile::tempdir().unwrap();
    let data_dir = dir.path().to_str().unwrap();
    let id;
    {
        let mut store = ContactStore::open_in_dir(data_dir, key()).unwrap();
        id = store.add("Alice", "/ip4/127.0.0.1/tcp/1", &hex::encode([1u8; 32])).unwrap().id;
    }
    let other = ContactStore::open_in_dir(data_dir, AtRestKey::from_bytes([6u8; 32])).unwrap();
    match other.get(id) {
        Err(StorageError::Serialization(text)) => {
            assert_eq!(text, "Crypto error: decryption failed")
        }
        other => panic!("unexpected: {:?}", other),
    }
}

#[test]
fn names_lose_white_space_at_their_ends_only() {
    sodiumoxide::init().unwrap();
    let dir = tempfile::tempdir().unwrap();
    let mut store = ContactStore::open_in_dir(dir.path().to_str().unwrap(), key()).unwrap();
    let pk = hex::encode([1u8; 32]);
    assert_eq!(store.add("Alice", "/a", &pk).unwrap().name, "Alice");
    assert_eq!(store.add(" \t\r\nBob Ross\u{a0}\u{3000}\u{2003}", "/a", &pk).unwrap().name, "Bob Ross");
    assert_eq!(store.add("\u{85}\u{1680}x\u{2028}\u{2029}\u{202f}\u{205f}", "/a", &pk).unwrap().name, "x");
    // A zero-width space is no white space.
    assert_eq!(store.add(" \u{200b} ", "/a", &pk).unwrap().name, "\u{200b}");
    let e = store.add(" \u{b}\u{c}\u{2000}\u{200a} ", "/a", &pk).err().unwrap();
    assert_eq!(validation_text(e), "name cannot be empty");
    // The address is kept as typed, white space at its start and all.
    assert_eq!(store.add("c", "  /a ", &pk).unwrap().addr, "  /a ");
}

fn by(store: &ContactStore, sel: &str) -> Result<(String, [u8; 32]), PigeonError> {
    resolve_contact_or_args(store, Some(sel), None, None)
}

#[test]
fn a_contact_is_selected_by_number_where_the_text_spells_one() {
    sodiumoxide::init().unwrap();
    let dir = tempfile::tempdir().unwrap();
    let mut store = ContactStore::open_in_dir(dir.path().to_str().unwrap(), key()).unwrap();
    let pk = hex::encode([1u8; 32]);
    let c = store.add("Alice", "/alice", &pk).unwrap();
    // A contact whose name spells the number of another is found by number.
    let d = store.add(&c.id.to_string(), "/digits", &pk).unwrap();
    assert_ne!(c.id, d.id);

    assert_eq!(by(&store, &c.id.to_string()).unwrap().0, "/alice");
    assert_eq!(by(&store, &format!("+{}", c.id)).unwrap().0, "/alice");
    assert_eq!(by(&store, &format!("000{}", c.id)).unwrap().0, "/alice");
    // Anything else is a name.
    for sel in [format!(" {}", c.id), format!("-{}", c.id), format!("{}_", c.id), "+".to_string()] {
        assert_eq!(config_text(by(&store, &sel).err().unwrap()), "contact not found");
    }
    assert_eq!(config_text(by(&store, "").err().unwrap()), "contact not found");
    // A number too large for 64 bits is a name too.
    let large = "18446744073709551616";
    assert_eq!(config_text(by(&store, large).err().unwrap()), "contact not found");
    store.update(u64::MAX, large, "/large", &pk).unwrap();
    assert_eq!(by(&store, large).unwrap().0, "/large");
    assert_eq!(by(&store, "18446744073709551615").unwrap().0, "/large");
}

#[test]
fn a_new_contact_is_not_written_over_another() {
    sodiumoxide::init().unwrap();
    let dir = tempfile::tempdir().unwrap();
    let mut store = ContactStore::open_in_dir(dir.path().to_str().unwrap(), key()).unwrap();
    let new = |id: u64, name: &str| Contact {
        id,
        name: name.to_string(),
        addr: "/a".to_string(),
        public_key: vec![9u8; 32],
        ping_interval: 0,
    };
    let stored = store.insert_new(new(70, "first")).unwrap();
    assert_eq!((stored.id, stored.name.as_str()), (70, "first"));
    assert_eq!(store.get(70).unwrap().unwrap().name, "first");

    let e = store.insert_new(new(70, "second")).err().unwrap();
    assert_eq!(validation_text(e), "contact id already in use");
    assert_eq!(store.get(70).unwrap().unwrap().name, "first");
    assert_eq!(store.list().unwrap().len(), 1);

    store.insert_new(new(71, "second")).unwrap();
    assert_eq!(store.list().unwrap().len(), 2);
    // Once the number is free again it can be taken.
    assert!(store.remove(70).unwrap());
    store.insert_new(new(70, "third")).unwrap();
    assert_eq!(store.get(70).unwrap().unwrap().name, "third");
}

#[test]
fn contacts_are_listed_by_ascending_number() {
    sodiumoxide::init().unwrap();
    let dir = tempfile::tempdir().unwrap();
    let mut store = ContactStore::open_in_dir(dir.path().to_str().unwrap(), key()).unwrap();
    for id in [300u64, 2, 70_000, 255, 256, u64::MAX, 0] {
        let c = Contact {
            id,
            name: format!("n{id}"),
            addr: "/a".to_string(),
            public_key: vec![1u8; 32],
            ping_interval: 0,
        };
        store.insert_new(c).unwrap();
    }
    let ids: Vec<u64> = store.list().unwrap().into_iter().map(|c| c.id).collect();
    assert_eq!(ids, vec![0, 2, 255, 256, 300, 70_000, u64::MAX]);
    store.update(256, "again", "/b", &hex::encode([2u8; 32])).unwrap();
    assert!(store.remove(2).unwrap());
    let ids: Vec<u64> = store.list().unwrap().into_iter().map(|c| c.id).collect();
    assert_eq!(ids, vec![0, 255, 256, 300, 70_000, u64::MAX]);
}

#[test]
fn trimming_and_numbers_are_those_of_the_standard_library() {
    let white = [
        '\u{9}', '\u{a}', '\u{b}', '\u{c}', '\u{d}', ' ', '\u{85}', '\u{a0}', '\u{1680}', '\u{2000}',
        '\u{2001}', '\u{2002}', '\u{2003}', '\u{2004}', '\u{2005}', '\u{2006}', '\u{2007}',
        '\u{2008}', '\u{2009}', '\u{200a}', '\u{2028}', '\u{2029}', '\u{202f}', '\u{205f}',
        '\u{3000}',
    ];
    for c in white {
        assert!(is_whitespace(c) && c.is_whitespace());
        let text = format!("{c}a{c}b{c}");
        assert_eq!(trim(&text), format!("a{c}b"));
        assert_eq!(trim_start(&text), format!("a{c}b{c}"));
    }
    for c in ['\u{8}', '\u{e}', '\u{1f}', '!', 'a', '\u{84}', '\u{86}', '\u{180e}', '\u{1fff}',
        '\u{200b}', '\u{2027}', '\u{202a}', '\u{2060}', '\u{2fff}', '\u{3001}', '\u{feff}']
    {
        assert!(!is_whitespace(c) && !c.is_whitespace());
    }
    for code in 0u32..0x3100 {
        if let Some(c) = char::from_u32(code) {
            assert_eq!(is_whitespace(c), c.is_whitespace(), "{code:#x}");
        }
    }
    for text in ["", " ", "  \t", "a", " a", "a ", " a b ", "\u{3000}\u{e9}t\u{e9}\u{2003}", "\n\nx\n"] {
        assert_eq!(trim(text), text.trim());
        assert_eq!(trim_start(text), text.trim_start());
    }
    for text in [
        "", "+", "-", "0", "+0", "-0", "7", "+7", "007", "42", "4 2", " 42", "42 ", "4_2", "0x10",
        "++1", "+-1", "1+", "18446744073709551615", "+18446744073709551615",
        "18446744073709551616", "18446744073709551620", "28446744073709551615",
        "99999999999999999999", "000000000000000000000000000000018446744073709551615",
        "184467440737095516150", "\u{661}\u{662}", "1\u{e9}", "12345678901234567890",
    ] {
        assert_eq!(parse_u64(text), text.parse::<u64>().ok(), "{text:?}");
    }
    assert_eq!(parse_u64("42"), Some(42));
    assert_eq!(parse_u64("18446744073709551615"), Some(u64::MAX));
    assert_eq!(parse_u64("18446744073709551616"), None);
}
