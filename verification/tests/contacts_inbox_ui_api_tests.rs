use secure_p2p_msg::api::{limit_items, search_items, Core, InboxWatcher, NetworkSettings};
use secure_p2p_msg::config::AppConfig;
use secure_p2p_msg::error::PigeonError;
use secure_p2p_msg::identity::LoadedIdentity;
use secure_p2p_msg::storage::at_rest::AtRestKey;
use secure_p2p_msg::storage::StorageError;

fn key() -> AtRestKey {
    AtRestKey::from_bytes([5u8; 32])
}

fn core_in(dir: &tempfile::TempDir) -> Core {
    Core::with_data_dir(AppConfig::with_defaults("unused".to_string()), dir.path().to_str().unwrap())
}

#[test]
fn contacts_crud_and_find() {
    sodiumoxide::init().unwrap();
    let dir = tempfile::tempdir().unwrap();
    let core = core_in(&dir);
    let mut store = core.open_contacts(key()).unwrap();

    // Add
    let c = core
        .contacts_add(&mut store, "Alice", "/ip4/127.0.0.1/tcp/1234", &hex::encode([1u8; 32]))
        .unwrap();
    assert_eq!(c.name, "Alice");
    // List
    let list = core.contacts_list(&store).unwrap();
    assert_eq!(list.len(), 1);
    // Find by name (case-insensitive)
    let found = core.contacts_find_by_name(&store, "alice").unwrap().unwrap();
    assert_eq!(found.id, c.id);
    assert!(core.contacts_find_by_name(&store, "bob").unwrap().is_none());
    // Update
    let c2 = core
        .contacts_update(
            &mut store,
            c.id,
            "Alice Updated",
            "/ip4/127.0.0.1/tcp/4321",
            &hex::encode([2u8; 32]),
        )
        .unwrap();
    assert_eq!(c2.name, "Alice Updated");
    assert_eq!(core.contacts_get(&store, c.id).unwrap().unwrap().addr, "/ip4/127.0.0.1/tcp/4321");
    assert!(core.contacts_get(&store, c.id + 1).unwrap().is_none());
    // Remove
    assert!(core.contacts_remove(&mut store, c.id).unwrap());
    assert!(!core.contacts_remove(&mut store, c.id).unwrap());
    assert!(core.contacts_list(&store).unwrap().is_empty());
    // What was written stays when the book is opened again
    let kept = core.contacts_add(&mut store, "Carol", "/dns/c", &hex::encode([3u8; 32])).unwrap();
    drop(store);
    let store = core.open_contacts(key()).unwrap();
    assert_eq!(core.contacts_get(&store, kept.id).unwrap().unwrap().name, "Carol");
}

#[test]
fn inbox_list_limited_works() {
    let dir = tempfile::tempdir().unwrap();
    let core = core_in(&dir);
    let mut q = core.open_queue(key()).unwrap();
    // store two items
    let id1 = *uuid::Uuid::new_v4().as_bytes();
    q.store_inbox(id1, b"one".to_vec()).unwrap();
    let id2 = *uuid::Uuid::new_v4().as_bytes();
    q.store_inbox(id2, b"two".to_vec()).unwrap();

    let all = core.inbox_list(&q).unwrap();
    assert_eq!(all.len(), 2);
    assert!(all[0].0 < all[1].0);
    let limited = core.inbox_list_limited(&q, 1).unwrap();
    assert_eq!(limited.len(), 1);
    assert_eq!(limited[0], all[0]);
    assert_eq!(core.inbox_list_limited(&q, 0).unwrap().len(), 0);
    assert_eq!(core.inbox_list_limited(&q, 5).unwrap(), all);
}

#[test]
fn core_facade_compose_and_inbox_roundtrip() {
    sodiumoxide::init().unwrap();
    let dir = tempfile::tempdir().unwrap();
    let core = core_in(&dir);

    let mut q = core.open_queue(key()).unwrap();

    // Compose stores plaintext into queue as Pending (pre-encryption stage)
    let id = core.compose(&mut q, 1, "hello world").unwrap();

    // Simulate delivery by directly moving to inbox via storage API for smoke test
    // Pull one pending and store to inbox (mimicking receive logic)
    if let Some(msg) = q.dequeue().unwrap() {
        q.store_inbox(msg.id, msg.payload).unwrap();
    }

    // Ensure inbox shows the message
    let items = core.inbox_list(&q).unwrap();
    assert_eq!(items.len(), 1);
    assert_eq!(items[0].0, id);
    assert!(String::from_utf8_lossy(&items[0].1).contains("hello"));

    // Search finds it
    let found = core.inbox_search(&q, "WORLD", None).unwrap();
    assert_eq!(found.len(), 1);
    assert_eq!(found[0].0, id);

    // Showing gives the bytes
    assert_eq!(core.inbox_show(&q, id).unwrap(), Some(b"hello world".to_vec()));
    assert_eq!(core.inbox_show(&q, [0u8; 16]).unwrap(), None);

    // Stats are populated
    let stats = core.queue_stats(&q).unwrap();
    assert_eq!(stats.inbox, 1);
    assert_eq!(stats.pending, 0);
    assert_eq!(stats.dead_letters, 0);
}

#[test]
fn inbox_watcher_emits_on_change() {
    let mut watcher = InboxWatcher::new();
    // Initially empty; nothing to tell.
    assert!(watcher.observe(0, None).is_none());
    // Add one inbox item.
    let got = watcher.observe(1, Some(([7u8; 16], b"hello".to_vec()))).expect("no snapshot");
    assert_eq!(got.len, 1);
    assert!(got.latest.is_some());
    // No change, nothing told; a change again, told again.
    assert!(watcher.observe(1, Some(([7u8; 16], b"hello".to_vec()))).is_none());
    let got = watcher.observe(0, None).unwrap();
    assert_eq!(got.len, 0);
    assert!(got.latest.is_none());
}

#[test]
fn queue_summaries_present() {
    sodiumoxide::init().unwrap();
    let dir = tempfile::tempdir().unwrap();
    let core = core_in(&dir);

    let mut q = core.open_queue(key()).unwrap();

    // Enqueue a pending message directly via compose
    let id = core.compose(&mut q, 1, "body").unwrap();
    let summaries = core.queue_list_pending_summaries(&q).unwrap();
    assert_eq!(summaries.len(), 1);
    let s = &summaries[0];
    assert_eq!(s.contact_id, 1);
    assert_eq!(s.id, id);
    assert_eq!(s.priority, 1);
    assert_eq!(s.retry_count, 0);
    assert!(s.next_attempt_at > 0);
    let pending = core.queue_list_pending(&q).unwrap();
    assert_eq!(pending[0].payload, b"body");
    assert_eq!(pending[0].max_retries, 5);
    assert!(core.queue_list_dead_letters(&q).unwrap().is_empty());
    let stats = core.queue_stats(&q).unwrap();
    assert_eq!((stats.pending, stats.inbox, stats.dead_letters), (1, 0, 0));
    let given_up = q.dequeue().unwrap().unwrap();
    q.dead_letter(given_up, "gone").unwrap();
    let dead = core.queue_list_dead_letters(&q).unwrap();
    assert_eq!(dead.len(), 1);
    assert_eq!(dead[0].id, id);
    assert!(core.queue_list_pending_summaries(&q).unwrap().is_empty());
    let stats = core.queue_stats(&q).unwrap();
    assert_eq!((stats.pending, stats.inbox, stats.dead_letters), (0, 0, 1));
}

#[test]
fn first_run_and_identity_preview_roundtrip() {
    sodiumoxide::init().unwrap();
    let dir = tempfile::tempdir().unwrap();
    let core = core_in(&dir);

    let (preview, loaded) = core.ensure_identity_and_preview(None).unwrap();
    assert!(!preview.sodium_box_pk_hex.is_empty());
    assert!(!preview.sign_pk_hex.is_empty());
    assert!(!preview.libp2p_peer_id.is_empty());
    let (id, file) = match loaded {
        LoadedIdentity::Created(id, file) => (id, file),
        LoadedIdentity::Existing(_) => panic!("there was no identity yet"),
    };
    assert_eq!(preview.sodium_box_pk_hex, hex::encode(id.sodium_box_pk));
    assert_eq!(preview.sign_pk_hex, hex::encode(id.sign_pk));
    assert_eq!(preview.sodium_box_pk_hex.len(), 64);
    assert_eq!(preview.sign_pk_hex.len(), 64);
    assert_eq!(id.libp2p_ed25519.len(), 64);
    assert_eq!(file, id.to_file_bytes());

    // With the file written, the same identity comes back.
    let (again, loaded) = core.ensure_identity_and_preview(Some(&file)).unwrap();
    assert_eq!(again, preview);
    match loaded {
        LoadedIdentity::Existing(back) => {
            assert_eq!(back.libp2p_ed25519, id.libp2p_ed25519);
            assert_eq!(back.sodium_box_pk, id.sodium_box_pk);
            assert_eq!(back.sodium_box_sk, id.sodium_box_sk);
            assert_eq!(back.sign_pk, id.sign_pk);
            assert_eq!(back.sign_sk, id.sign_sk);
        }
        LoadedIdentity::Created(..) => panic!("the identity was there"),
    }

    // A file that is no identity file is refused.
    match core.ensure_identity_and_preview(Some(&file[..10])) {
        Err(PigeonError::Config(text)) => assert_eq!(text, "invalid identity file"),
        other => panic!("unexpected: {:?}", other.map(|(preview, _)| preview)),
    }
}

#[test]
fn passphrase_lock_unlock() {
    sodiumoxide::init().unwrap();
    let dir = tempfile::tempdir().unwrap();
    let core = core_in(&dir);
    let key = AtRestKey::generate();

    let file = core.set_passphrase(&key, "test-pass").unwrap();
    // After sealing, the key comes back only with the passphrase
    assert_eq!(core.unlock(&file, "test-pass").unwrap().key(), key.key());
    assert!(core.unlock(&file, "other").is_err());
}

#[test]
fn passphrase_set_unlock_rotate() {
    sodiumoxide::init().unwrap();
    let dir = tempfile::tempdir().unwrap();
    let core = core_in(&dir);
    let key = AtRestKey::generate();

    // Set passphrase
    let file = core.set_passphrase(&key, "p1").unwrap();
    assert!(file.starts_with(b"PGN1"));
    assert_eq!(file.len(), 92);
    // Unlock works
    core.unlock(&file, "p1").unwrap();
    // Rotate key
    let (rotated, file2) = core.rotate_at_rest_key("p2").unwrap();
    assert_ne!(rotated.key(), key.key());
    assert!(file2.starts_with(b"PGN1"));
    assert!(file2.len() > 44);
    assert_eq!(file2.len(), 92);
    // Unlock with new passphrase
    assert_eq!(core.unlock(&file2, "p2").unwrap().key(), rotated.key());
    assert!(core.unlock(&file2, "p1").is_err());
}

#[test]
fn log_level_get_set() {
    let dir = tempfile::tempdir().unwrap();
    let mut core = core_in(&dir);
    assert_eq!(core.get_log_level(), "info");
    core.set_log_level("debug");
    assert_eq!(core.get_log_level(), "debug");
}

#[test]
fn network_settings_roundtrip() {
    let dir = tempfile::tempdir().unwrap();
    let mut core = core_in(&dir);
    let mut s = core.get_network_settings();
    assert_eq!(s, NetworkSettings { listen_addr: None, enable_mdns: false });
    s.listen_addr = Some("/ip4/0.0.0.0/tcp/4001".to_string());
    s.enable_mdns = true;
    core.set_network_settings(s.clone()).unwrap();
    assert_eq!(core.get_network_settings(), s);

    let bad = NetworkSettings { listen_addr: Some("not a multiaddr".to_string()), enable_mdns: false };
    match core.set_network_settings(bad) {
        Err(PigeonError::Config(text)) => assert_eq!(text, "invalid listen_addr"),
        other => panic!("unexpected: {:?}", other),
    }
    assert_eq!(core.get_network_settings(), s);
}

#[test]
fn queue_path_is_in_the_data_directory() {
    let core = Core::with_data_dir(AppConfig::with_defaults("unused".to_string()), "/tmp/data");
    assert_eq!(core.queue_path(), "/tmp/data/queue_db");
    let core = Core::new(AppConfig::with_defaults("/var/pigeon".to_string()));
    assert_eq!(core.queue_path(), "/var/pigeon/queue_db");
}

#[test]
fn send_encrypt_and_enqueue_checks_the_key_and_picks_the_lane() {
    sodiumoxide::init().unwrap();
    let dir = tempfile::tempdir().unwrap();
    let core = core_in(&dir);
    let me = secure_p2p_msg::identity::Identity::generate();
    let peer = secure_p2p_msg::identity::Identity::generate();
    let peer_hex = hex::encode(peer.sodium_box_pk);

    let mut q = core.open_queue(key()).unwrap();
    match core.send_encrypt_and_enqueue(&mut q, &me, "zz", 4, "hi", false) {
        Err(PigeonError::Storage(StorageError::Validation(text))) => {
            assert!(text.starts_with("invalid recipient pk hex: "))
        }
        other => panic!("unexpected: {:?}", other),
    }
    match core.send_encrypt_and_enqueue(&mut q, &me, "0102", 4, "hi", false) {
        Err(PigeonError::Storage(StorageError::Validation(text))) => {
            assert_eq!(text, "recipient pk must be 32 bytes")
        }
        other => panic!("unexpected: {:?}", other),
    }
    assert!(q.is_empty().unwrap());
    let normal = core.send_encrypt_and_enqueue(&mut q, &me, &peer_hex, 4, "normal", false).unwrap();
    let high = core.send_encrypt_and_enqueue(&mut q, &me, &peer_hex, 4, "high", true).unwrap();
    assert_ne!(normal, high);
    assert_eq!(q.len().unwrap(), 2);
    let first = q.dequeue().unwrap().unwrap();
    assert_eq!(first.id, high);
    assert_eq!(first.priority, 0);
    assert_eq!(first.contact_id, 4);
    let env = secure_p2p_msg::messaging::message::EnvelopeV1::decode(&first.payload).unwrap();
    assert_eq!(env.version, 1);
    assert_eq!(env.recipient_id, 4);
    assert_eq!(env.signature.len(), 64);
    assert_eq!(env.payload.len(), 4 + 16);
    assert_eq!(q.dequeue().unwrap().unwrap().id, normal);
}

#[test]
fn inbox_search_case_insensitive() {
    let dir = tempfile::tempdir().unwrap();
    let core = core_in(&dir);
    let mut q = core.open_queue(key()).unwrap();

    let msgs = [
        (*uuid::Uuid::new_v4().as_bytes(), "Hello there".to_string()),
        (*uuid::Uuid::new_v4().as_bytes(), "world stage".to_string()),
        (*uuid::Uuid::new_v4().as_bytes(), "other".to_string()),
    ];
    for (id, s) in &msgs {
        q.store_inbox(*id, s.clone().into_bytes()).unwrap();
    }

    let mut hits: Vec<String> = core
        .inbox_search(&q, "HELLO", None)
        .unwrap()
        .into_iter()
        .filter_map(|(_id, bytes)| String::from_utf8(bytes).ok())
        .collect();
    hits.sort();
    assert_eq!(hits, vec!["Hello there".to_string()]);
}

#[test]
fn search_and_limit_take_the_first_items() {
    let items = vec![
        ([1u8; 16], b"an Apple".to_vec()),
        ([2u8; 16], b"pear".to_vec()),
        ([3u8; 16], b"pineAPPLE".to_vec()),
        ([4u8; 16], b"apple pie".to_vec()),
    ];
    let ids = |found: Vec<([u8; 16], Vec<u8>)>| found.iter().map(|i| i.0[0]).collect::<Vec<u8>>();
    assert_eq!(ids(search_items(items.clone(), "apple", None)), vec![1, 3, 4]);
    assert_eq!(ids(search_items(items.clone(), "apple", Some(2))), vec![1, 3]);
    assert_eq!(ids(search_items(items.clone(), "apple", Some(9))), vec![1, 3, 4]);
    assert_eq!(ids(search_items(items.clone(), "apple", Some(0))), vec![1]);
    assert_eq!(ids(search_items(items.clone(), "", Some(3))), vec![1, 2, 3]);
    assert_eq!(ids(search_items(items.clone(), "plum", None)), Vec::<u8>::new());
    assert_eq!(ids(limit_items(items.clone(), 2)), vec![1, 2]);
    assert_eq!(ids(limit_items(items.clone(), 0)), Vec::<u8>::new());
    assert_eq!(ids(limit_items(items, 7)), vec![1, 2, 3, 4]);
}

#[test]
fn try_receive_once_checks_the_key_and_receives() {
    sodiumoxide::init().unwrap();
    let dir = tempfile::tempdir().unwrap();
    let core = core_in(&dir);
    let me = secure_p2p_msg::identity::Identity::generate();
    let peer = secure_p2p_msg::crypto::KeyPair::generate();
    let mut q = core.open_queue(key()).unwrap();
    let id = secure_p2p_msg::messaging::send::send_now(
        &mut q,
        &peer.secret,
        &me.sodium_box_pk,
        7,
        b"for me",
    )
    .unwrap();

    match core.try_receive_once(&mut q, &me, "not hex") {
        Err(PigeonError::Storage(StorageError::Validation(_))) => {}
        other => panic!("unexpected: {:?}", other),
    }
    match core.try_receive_once(&mut q, &me, "0102") {
        Err(PigeonError::Storage(StorageError::Validation(text))) => assert_eq!(text, "bad pk"),
        other => panic!("unexpected: {:?}", other),
    }
    assert_eq!(q.inbox_len().unwrap(), 0);
    assert_eq!(q.len().unwrap(), 1);

    core.try_receive_once(&mut q, &me, &hex::encode(peer.public)).unwrap();
    assert_eq!(core.inbox_show(&q, id).unwrap(), Some(b"for me".to_vec()));
}

#[test]
fn search_reads_payloads_as_text() {
    // Bytes that are no UTF-8 are searched as the text they are shown as.
    let items = vec![
        ([1u8; 16], vec![0xff, b'a', b'B']),
        ([2u8; 16], "caf\u{e9} AB".as_bytes().to_vec()),
        ([3u8; 16], vec![b'a', 0xc3]),
    ];
    let hits = search_items(items.clone(), "\u{fffd}ab", None);
    assert_eq!(hits, vec![items[0].clone()]);
    let hits = search_items(items.clone(), "A\u{fffd}", None);
    assert_eq!(hits, vec![items[2].clone()]);
    let hits = search_items(items.clone(), "\u{e9} ab", None);
    assert_eq!(hits, vec![items[1].clone()]);
    let hits = search_items(items.clone(), "ab", None);
    assert_eq!(hits, vec![items[0].clone(), items[1].clone()]);
}

#[test]
fn add_never_writes_over_a_record() {
    sodiumoxide::init().unwrap();
    let dir = tempfile::tempdir().unwrap();
    let core = core_in(&dir);
    let mut store = core.open_contacts(key()).unwrap();
    let pk = hex::encode([3u8; 32]);

    let first = core.contacts_add(&mut store, "one", "/a", &pk).unwrap();
    // Put records under the numbers that may come next.
    for ahead in 1..4u64 {
        core.contacts_update(&mut store, first.id + ahead, "kept", "/kept", &pk).unwrap();
    }
    for _ in 0..5 {
        match core.contacts_add(&mut store, "new", "/new", &pk) {
            Ok(c) => {
                assert!(c.id != first.id);
                assert!(c.id < first.id + 1 || c.id > first.id + 3);
            }
            Err(PigeonError::Storage(StorageError::Validation(text))) => {
                assert_eq!(text, "contact id already in use")
            }
            Err(e) => panic!("unexpected: {e:?}"),
        }
    }
    for ahead in 1..4u64 {
        let kept = core.contacts_get(&store, first.id + ahead).unwrap().unwrap();
        assert_eq!(kept.name, "kept");
        assert_eq!(kept.addr, "/kept");
    }
    assert_eq!(core.contacts_get(&store, first.id).unwrap().unwrap().name, "one");
}
