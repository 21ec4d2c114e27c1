//! The facade that front-ends talk to: contacts, the queue, the inbox, the
//! identity and the settings. It opens the address book and the queue of its
//! data directory; every operation on them takes the open store, and says what
//! it does to it.

use vstd::prelude::*;
use vstd::utf8::encode_utf8;
use crate::config::{text_view, AppConfig, AppConfigView};
use crate::error::{from_storage, storage_side, PigeonError};
use crate::hexcode::{hex_decode, hex_decoded, hex_encode, hex_text};
use crate::identity::{
    identity_accepted, identity_fresh, identity_loaded, identity_refused, identity_wire,
    lemma_identity_reloaded, libp2p_peer_id, peer_id_text, Identity, LoadedIdentity,
    StoredIdentity,
};
use crate::ids::fresh_id;
use crate::messaging::compose::{compose_message, compose_outcome};
use crate::messaging::receive::{local_receipt, receipt_result, receive_and_ack};
use crate::messaging::send::{
    build_envelope, is_envelope_for, new_outgoing, outgoing, stored_as,
};
use crate::network::addr::{is_multiaddr, multiaddr_parses};
use crate::storage::at_rest::{
    derivation_refuses, fresh_seal_outcome, kdf_failure, key_file_unlocked, rotate_key_and_seal,
    set_passphrase_and_seal, unlock_failure, unlock_with_passphrase, AtRestKey,
};
use crate::storage::contacts::{
    add_outcome, find_outcome, get_outcome, list_outcome, remove_outcome, update_outcome, Contact,
    ContactStore,
};
use crate::storage::kv::sorted_listing;
use crate::storage::queue::{
    dead_letter_list_outcome, enqueue_outcome, inbox_get_outcome, inbox_list_failure,
    inbox_list_outcome, inbox_views, lists_pending, pending_list_outcome, waiting,
    MessageQueue, QueueState, DEFAULT_HIGH_RATIO,
};
use crate::storage::record::{DeadLetterRecord, MessageStatus, QueuedMessage};
use crate::storage::StorageError;
use crate::text::{holds_text, join_path, joined, text_holds};

verus! {

/// How full the queue and its neighbours are.
#[derive(Debug, Clone, Copy, PartialEq, Eq, Structural)]
pub struct QueueStats {
    pub pending: u64,
    pub inbox: u64,
    pub dead_letters: u64,
}

/// The public side of the identity, as text.
#[derive(Debug, Clone, PartialEq, Eq)]
pub struct IdentityPreview {
    pub sodium_box_pk_hex: String,
    pub sign_pk_hex: String,
    pub libp2p_peer_id: String,
}

/// What a list of the queue shows of one message.
#[derive(Debug, Clone)]
pub struct QueueItemSummary {
    pub id: [u8; 16],
    pub contact_id: u64,
    pub priority: u8,
    pub retry_count: u32,
    pub next_attempt_at: u64,
}

/// What a watcher of the inbox is told: how many there are, and the last one.
#[derive(Debug, Clone)]
pub struct InboxSnapshot {
    pub len: usize,
    pub latest: Option<([u8; 16], Vec<u8>)>,
}

/// The settings of the network.
#[derive(Debug, Clone, PartialEq, Eq)]
pub struct NetworkSettings {
    pub listen_addr: Option<String>,
    pub enable_mdns: bool,
}

/// What a watcher of the inbox remembers: how many there were when it last
/// told.
pub struct InboxWatcher {
    last_len: usize,
}

impl View for InboxWatcher {
    type V = usize;

    closed spec fn view(&self) -> usize {
        self.last_len
    }
}

impl InboxWatcher {
    /// A watcher that has seen an empty inbox.
    pub fn new() -> (w: InboxWatcher)
        ensures
            w@ == 0,
    {
        InboxWatcher { last_len: 0 }
    }

    /// Looks at the inbox, with its last item where it could be read: tells
    /// exactly when the number has changed since it last told.
    pub fn observe(&mut self, len: usize, latest: Option<([u8; 16], Vec<u8>)>) -> (told: Option<
        InboxSnapshot,
    >)
        ensures
            final(self)@ == len,
            match told {
                Some(snapshot) => len != old(self)@ && snapshot.len == len && snapshot.latest
                    == latest,
                None => len == old(self)@,
            },
    {
        if len != self.last_len {
            self.last_len = len;
            Some(InboxSnapshot { len, latest })
        } else {
            None
        }
    }
}

/// What a list of the queue shows of `m`.
pub fn summarize(m: &QueuedMessage) -> (s: QueueItemSummary)
    ensures
        s.id == m.id,
        s.contact_id == m.contact_id,
        s.priority == m.priority,
        s.retry_count == m.retry_count,
        s.next_attempt_at == m.next_attempt_at,
{
    QueueItemSummary {
        id: m.id,
        contact_id: m.contact_id,
        priority: m.priority,
        retry_count: m.retry_count,
        next_attempt_at: m.next_attempt_at,
    }
}

/// `out` shows of each of `items`, in their order, what a list of the queue
/// shows: identifier, contact, priority, retries and time of next attempt.
pub open spec fn summaries_of(items: Seq<QueuedMessage>, out: Seq<QueueItemSummary>) -> bool {
    out.len() == items.len() && forall|i: int|
        0 <= i < out.len() ==> (#[trigger] out[i]).id == items[i].id && out[i].contact_id
            == items[i].contact_id && out[i].priority == items[i].priority && out[i].retry_count
            == items[i].retry_count && out[i].next_attempt_at == items[i].next_attempt_at
}

/// What a list of the queue shows of each of `items`.
pub fn summarize_all(items: &Vec<QueuedMessage>) -> (out: Vec<QueueItemSummary>)
    ensures
        summaries_of(items@, out@),
{
    let mut out: Vec<QueueItemSummary> = Vec::new();
    let mut i: usize = 0;
    while i < items.len()
        invariant
            i <= items.len(),
            out@.len() == i,
            forall|j: int|
                0 <= j < i ==> (#[trigger] out@[j]).id == items@[j].id && out@[j].contact_id
                    == items@[j].contact_id && out@[j].priority == items@[j].priority
                    && out@[j].retry_count == items@[j].retry_count && out@[j].next_attempt_at
                    == items@[j].next_attempt_at,
        decreases items.len() - i,
    {
        out.push(summarize(&items[i]));
        i = i + 1;
    }
    out
}

/// The items of the inbox that hold `needle` when read as text, not minding
/// the case of ASCII letters, in their order.
pub open spec fn matching(items: Seq<([u8; 16], Vec<u8>)>, needle: Seq<u8>) -> Seq<
    ([u8; 16], Vec<u8>),
>
    decreases items.len(),
{
    if items.len() == 0 {
        Seq::empty()
    } else if text_holds(items.last().1@, needle) {
        matching(items.drop_last(), needle).push(items.last())
    } else {
        matching(items.drop_last(), needle)
    }
}

/// At most `limit` items are wanted; a limit of 0 still lets the first one
/// through.
pub open spec fn search_cap(limit: Option<usize>) -> Option<nat> {
    match limit {
        Some(n) => Some(if n == 0 {
            1nat
        } else {
            n as nat
        }),
        None => None,
    }
}

/// The first items of `all`, as many as `cap` lets through.
pub open spec fn capped<T>(all: Seq<T>, cap: Option<nat>) -> Seq<T> {
    match cap {
        Some(n) => if all.len() > n {
            all.take(n as int)
        } else {
            all
        },
        None => all,
    }
}

/// The items of `items` that hold `term` when read as text, not minding the
/// case of ASCII letters, in their order, and no more of them than the limit
/// lets through.
pub fn search_items(items: Vec<([u8; 16], Vec<u8>)>, term: &str, limit: Option<usize>) -> (out: Vec<
    ([u8; 16], Vec<u8>),
>)
    ensures
        out@ == capped(matching(items@, encode_utf8(term@)), search_cap(limit)),
{
    let needle = term.as_bytes();
    let mut out: Vec<([u8; 16], Vec<u8>)> = Vec::new();
    let mut rest = items;
    let ghost all = rest@;
    let n: usize = rest.len();
    let mut i: usize = 0;
    proof {
        assert(all.take(0) =~= Seq::empty());
    }
    while i < n
        invariant
            i <= n,
            n == all.len(),
            all == items@,
            rest@.len() == n,
            needle@ == encode_utf8(term@),
            forall|j: int| i <= j < n ==> rest@[j] == all[j],
            out@ == matching(all.take(i as int), needle@),
            search_cap(limit) matches Some(cap) ==> out@.len() < cap,
        decreases n - i,
    {
        proof {
            let upto = all.take(i + 1);
            assert(upto.drop_last() =~= all.take(i as int));
            assert(upto.last() == all[i as int]);
        }
        if holds_text(rest[i].1.as_slice(), needle) {
            let mut item: ([u8; 16], Vec<u8>) = ([0u8; 16], Vec::new());
            let ghost before = rest@;
            rest.set_and_swap(i, &mut item);
            out.push(item);
            match limit {
                Some(max) => {
                    if out.len() >= max {
                        proof {
                            lemma_matching_prefix(all, needle@, i + 1);
                            assert(out@ =~= matching(all, needle@).take(out@.len() as int));
                        }
                        return out;
                    }
                },
                None => {},
            }
        }
        i = i + 1;
    }
    proof {
        assert(all.take(n as int) =~= all);
    }
    out
}

/// What matches among the first items is the start of what matches among all.
pub proof fn lemma_matching_prefix(all: Seq<([u8; 16], Vec<u8>)>, needle: Seq<u8>, upto: int)
    requires
        0 <= upto <= all.len(),
    ensures
        matching(all.take(upto), needle).len() <= matching(all, needle).len(),
        matching(all.take(upto), needle) == matching(all, needle).take(
            matching(all.take(upto), needle).len() as int,
        ),
    decreases all.len(),
{
    if upto == all.len() {
        assert(all.take(upto) =~= all);
        assert(matching(all, needle).take(matching(all, needle).len() as int) =~= matching(
            all,
            needle,
        ));
    } else {
        let shorter = all.drop_last();
        lemma_matching_prefix(shorter, needle, upto);
        assert(shorter.take(upto) =~= all.take(upto));
        let m = matching(all.take(upto), needle);
        assert(m =~= matching(all, needle).take(m.len() as int));
    }
}

/// The first `limit` items of `items`.
pub fn limit_items(items: Vec<([u8; 16], Vec<u8>)>, limit: usize) -> (out: Vec<
    ([u8; 16], Vec<u8>),
>)
    ensures
        out@ == capped(items@, Some(limit as nat)),
{
    let mut kept = items;
    let ghost all = kept@;
    if kept.len() > limit {
        kept.truncate(limit);
        proof {
            assert(kept@ =~= all.take(limit as int));
        }
    }
    kept
}

/// What listing the first `limit` items of the inbox gives: the first
/// `limit` of everything in it, by ascending identifier.
pub open spec fn inbox_limited_outcome(
    inbox: Map<Seq<u8>, Seq<u8>>,
    limit: usize,
    r: Result<Vec<([u8; 16], Vec<u8>)>, PigeonError>,
) -> bool {
    match r {
        Ok(list) => exists|all: Seq<([u8; 16], Vec<u8>)>|
            sorted_listing(#[trigger] inbox_views(all), inbox) && list@ == capped(
                all,
                Some(limit as nat),
            ),
        Err(PigeonError::Storage(e)) => inbox_list_failure(inbox, e),
        Err(_) => false,
    }
}

/// What searching the inbox gives: of everything in it, by ascending
/// identifier, the items that hold `term`, not minding the case of ASCII
/// letters, and no more of them than the limit lets through.
pub open spec fn inbox_search_outcome(
    inbox: Map<Seq<u8>, Seq<u8>>,
    term: Seq<char>,
    limit: Option<usize>,
    r: Result<Vec<([u8; 16], Vec<u8>)>, PigeonError>,
) -> bool {
    match r {
        Ok(list) => exists|all: Seq<([u8; 16], Vec<u8>)>|
            sorted_listing(#[trigger] inbox_views(all), inbox) && list@ == capped(
                matching(all, encode_utf8(term)),
                search_cap(limit),
            ),
        Err(PigeonError::Storage(e)) => inbox_list_failure(inbox, e),
        Err(_) => false,
    }
}

/// `out` shows the pending messages of the pending store, by ascending
/// identifier.
pub open spec fn shows_pending(
    out: Seq<QueueItemSummary>,
    messages: Map<Seq<u8>, Seq<u8>>,
    key: Seq<u8>,
) -> bool {
    exists|items: Seq<QueuedMessage>|
        lists_pending(items, messages, key) && #[trigger] summaries_of(items, out)
}

/// What listing the summaries of the pending messages gives: what a list of
/// the queue shows of each pending message, by ascending identifier.
pub open spec fn pending_summaries_outcome(
    messages: Map<Seq<u8>, Seq<u8>>,
    key: Seq<u8>,
    r: Result<Vec<QueueItemSummary>, PigeonError>,
) -> bool {
    match r {
        Ok(out) => shows_pending(out@, messages, key),
        Err(PigeonError::Storage(e)) => e is Db,
        Err(_) => false,
    }
}

/// The counts are those of the queue `q`: pending is what both lanes hold
/// together, or the largest number there is where that does not fit.
pub open spec fn stats_match(stats: QueueStats, q: QueueState) -> bool {
    &&& stats.inbox == q.inbox.len()
    &&& stats.dead_letters == q.dead_letters.len()
    &&& stats.pending == waiting(q)
}

/// `e` is the error owed for a recipient key that is not hexadecimal text for
/// 32 bytes.
pub open spec fn recipient_key_refused(public_key_hex: Seq<char>, e: PigeonError) -> bool {
    match hex_decoded(encode_utf8(public_key_hex)) {
        None => e matches PigeonError::Storage(StorageError::Validation(text))
            && "invalid recipient pk hex: "@.is_prefix_of(text@),
        Some(key) => key.len() != 32 && e.is_validation("recipient pk must be 32 bytes"@),
    }
}

/// The lane that a message is sent in: the high lane where high priority is
/// asked for, else the normal lane.
pub open spec fn lane_for(high_priority: bool) -> u8 {
    if high_priority {
        0
    } else {
        1
    }
}

/// What sealing and enqueueing does to a queue in state `pre`. A recipient key
/// that is not hexadecimal text for 32 bytes is refused, and so is a body too
/// long to encrypt; nothing changes then. Else the body is encrypted for the
/// recipient under a fresh nonce, signed by the sender, and the envelope is
/// enqueued for `recipient_id`, pending in the lane asked for, under a fresh
/// identifier, which is the answer; where the store makes that fail, the
/// answer is its error.
pub open spec fn send_outcome(
    pre: QueueState,
    sender_sk_enc: Seq<u8>,
    sender_sk_sign: Seq<u8>,
    recipient_pubkey_hex: Seq<char>,
    recipient_id: u64,
    body: Seq<char>,
    high_priority: bool,
    post: QueueState,
    r: Result<[u8; 16], PigeonError>,
) -> bool {
    let key = hex_decoded(encode_utf8(recipient_pubkey_hex));
    if !(key is Some && key->0.len() == 32) {
        r is Err && recipient_key_refused(recipient_pubkey_hex, r->Err_0) && post == pre
    } else if encode_utf8(body).len() + 16 > usize::MAX {
        post == pre && match r {
            Err(PigeonError::Crypto(e)) => e.is_encryption("plaintext too long"@),
            _ => false,
        }
    } else {
        exists|envelope: Seq<u8>, nonce: Seq<u8>|
            {
                &&& nonce.len() == 24
                &&& #[trigger] is_envelope_for(
                    envelope,
                    encode_utf8(body),
                    nonce,
                    sender_sk_enc,
                    sender_sk_sign,
                    key->0,
                    0,
                    recipient_id,
                )
                &&& enqueued_as(pre, recipient_id, envelope, lane_for(high_priority), post, r)
            }
    }
}

/// The queue in state `pre` has taken, or the store has failed to take, a
/// pending message for `recipient_id` with this payload in this lane, under a
/// fresh identifier, which is the answer where it went well.
pub open spec fn enqueued_as(
    pre: QueueState,
    recipient_id: u64,
    payload: Seq<u8>,
    lane: u8,
    post: QueueState,
    r: Result<[u8; 16], PigeonError>,
) -> bool {
    exists|id: Seq<u8>, now: u64|
        {
            &&& id.len() == 16
            &&& stored_as(r, id) is Some
            &&& #[trigger] enqueue_outcome(
                pre,
                outgoing(id, recipient_id, payload, lane, MessageStatus::Pending),
                now,
                post,
                stored_as(r, id)->0,
            )
        }
}

/// What receiving once locally does to a queue in state `pre`. A sender key
/// that is not hexadecimal text for 32 bytes is refused, and nothing changes.
/// Else the next due message is received with the sender's key and the
/// receiver's secret key.
pub open spec fn receive_once_outcome(
    pre: QueueState,
    receiver_sk: Seq<u8>,
    sender_pubkey_hex: Seq<char>,
    post: QueueState,
    r: Result<(), PigeonError>,
) -> bool {
    match hex_decoded(encode_utf8(sender_pubkey_hex)) {
        None => post == pre && match r {
            Err(PigeonError::Storage(StorageError::Validation(_))) => true,
            _ => false,
        },
        Some(key) => if key.len() != 32 {
            post == pre && r is Err && r->Err_0.is_validation("bad pk"@)
        } else {
            exists|now: u64, received: bool| #[trigger]
                local_receipt(pre, key, receiver_sk, now, post, receipt_result(r, received))
        },
    }
}

/// The facade.
pub struct Core {
    cfg: AppConfig,
}

impl View for Core {
    type V = AppConfigView;

    closed spec fn view(&self) -> AppConfigView {
        self.cfg@
    }
}

impl Core {
    /// The facade over the configuration `cfg`.
    pub fn new(cfg: AppConfig) -> (core: Core)
        ensures
            core@ == cfg@,
    {
        Core { cfg }
    }

    /// The facade over the configuration `cfg`, but with the data in
    /// `data_dir`.
    pub fn with_data_dir(cfg: AppConfig, data_dir: &str) -> (core: Core)
        ensures
            core@ == (AppConfigView { data_dir: data_dir@, ..cfg@ }),
    {
        let mut cfg = cfg;
        cfg.data_dir = String::from_str(data_dir);
        Core { cfg }
    }

    /// Where the queue is kept: `queue_db` in the data directory.
    pub fn queue_path(&self) -> (path: String)
        ensures
            path@ == joined(self@.data_dir, "queue_db"@),
    {
        join_path(self.cfg.data_dir.as_str(), "queue_db")
    }

    /// Opens the queue of this data directory, with records sealed under
    /// `key`, the usual share of the high lane, and the whole of that share
    /// still to be spent. What it holds is what is on disk.
    pub fn open_queue(&self, key: AtRestKey) -> (r: Result<MessageQueue, PigeonError>)
        ensures
            match r {
                Ok(q) => q@.key == key@ && q@.ratio == DEFAULT_HIGH_RATIO && q@.high_budget
                    == DEFAULT_HIGH_RATIO,
                Err(e) => e matches PigeonError::Storage(s) && s is Db,
            },
    {
        let path = self.queue_path();
        match MessageQueue::new(path.as_str(), key) {
            Ok(q) => Ok(q),
            Err(e) => Err(PigeonError::Storage(e)),
        }
    }

    /// Opens the address book of this data directory, with records sealed
    /// under `key`. What it holds is what is on disk.
    pub fn open_contacts(&self, key: AtRestKey) -> (r: Result<ContactStore, PigeonError>)
        ensures
            match r {
                Ok(store) => store@.key == key@,
                Err(e) => e matches PigeonError::Storage(s) && s is Db,
            },
    {
        match ContactStore::open_in_dir(self.cfg.data_dir.as_str(), key) {
            Ok(store) => Ok(store),
            Err(e) => Err(PigeonError::Storage(e)),
        }
    }

    /// Adds a contact to the address book. What was typed is checked as the
    /// address book checks it.
    pub fn contacts_add(
        &self,
        store: &mut ContactStore,
        name: &str,
        addr: &str,
        public_key_hex: &str,
    ) -> (r: Result<Contact, PigeonError>)
        ensures
            storage_side(r) is Some,
            add_outcome(
                old(store)@,
                name@,
                addr@,
                public_key_hex@,
                final(store)@,
                storage_side(r)->0,
            ),
    {
        from_storage(store.add(name, addr, public_key_hex))
    }

    /// All contacts of the address book, by ascending number.
    pub fn contacts_list(&self, store: &ContactStore) -> (r: Result<Vec<Contact>, PigeonError>)
        ensures
            storage_side(r) is Some,
            list_outcome(store@, storage_side(r)->0),
    {
        from_storage(store.list())
    }

    /// The contact under the number `id`, if there is one.
    pub fn contacts_get(&self, store: &ContactStore, id: u64) -> (r: Result<
        Option<Contact>,
        PigeonError,
    >)
        ensures
            storage_side(r) is Some,
            get_outcome(store@, id, storage_side(r)->0),
    {
        from_storage(store.get(id))
    }

    /// Takes the contact under the number `id` out, and says whether it was
    /// there.
    pub fn contacts_remove(&self, store: &mut ContactStore, id: u64) -> (r: Result<
        bool,
        PigeonError,
    >)
        ensures
            storage_side(r) is Some,
            remove_outcome(old(store)@, id, final(store)@, storage_side(r)->0),
    {
        from_storage(store.remove(id))
    }

    /// Writes the contact under the number `id` anew.
    pub fn contacts_update(
        &self,
        store: &mut ContactStore,
        id: u64,
        name: &str,
        addr: &str,
        public_key_hex: &str,
    ) -> (r: Result<Contact, PigeonError>)
        ensures
            storage_side(r) is Some,
            update_outcome(
                old(store)@,
                id,
                name@,
                addr@,
                public_key_hex@,
                final(store)@,
                storage_side(r)->0,
            ),
    {
        from_storage(store.update(id, name, addr, public_key_hex))
    }

    /// The first contact, by ascending number, whose name is `name` but for
    /// the case of ASCII letters.
    pub fn contacts_find_by_name(&self, store: &ContactStore, name: &str) -> (r: Result<
        Option<Contact>,
        PigeonError,
    >)
        ensures
            storage_side(r) is Some,
            find_outcome(store@, name@, storage_side(r)->0),
    {
        from_storage(store.find_by_name_case_insensitive(name))
    }

    /// Puts `body` into the queue as it is, a placeholder that is never sent
    /// without a later stage that encrypts it.
    pub fn compose(&self, queue: &mut MessageQueue, recipient_id: u64, body: &str) -> (r: Result<
        [u8; 16],
        PigeonError,
    >)
        ensures
            compose_outcome(old(queue)@, recipient_id, body@, final(queue)@, r),
    {
        compose_message(queue, recipient_id, body)
    }

    /// The recipient key that `public_key_hex` spells.
    pub fn recipient_key(public_key_hex: &str) -> (r: Result<[u8; 32], PigeonError>)
        ensures
            match r {
                Ok(key) => hex_decoded(encode_utf8(public_key_hex@)) == Some(key@),
                Err(e) => recipient_key_refused(public_key_hex@, e),
            },
    {
        let bytes = match hex_decode(public_key_hex) {
            Ok(bytes) => bytes,
            Err(reason) => {
                let text = String::from_str("invalid recipient pk hex: ").concat(reason.as_str());
                return Err(PigeonError::Storage(StorageError::Validation(text)));
            },
        };
        if bytes.len() != 32 {
            return Err(PigeonError::validation("recipient pk must be 32 bytes"));
        }
        Ok(crate::bytes::to_array::<32>(bytes.as_slice()))
    }

    /// Seals `body` into a signed envelope for the recipient and puts it into
    /// the queue, in the high lane where `high_priority` asks for it, under a
    /// fresh identifier, which is the answer. A recipient key that is not
    /// hexadecimal text for 32 bytes is refused before anything is done.
    pub fn send_encrypt_and_enqueue(
        &self,
        queue: &mut MessageQueue,
        identity: &Identity,
        recipient_pubkey_hex: &str,
        recipient_id: u64,
        body: &str,
        high_priority: bool,
    ) -> (r: Result<[u8; 16], PigeonError>)
        ensures
            send_outcome(
                old(queue)@,
                identity.sodium_box_sk@,
                identity.sign_sk@,
                recipient_pubkey_hex@,
                recipient_id,
                body@,
                high_priority,
                final(queue)@,
                r,
            ),
    {
        let recipient_pk = match Self::recipient_key(recipient_pubkey_hex) {
            Ok(pk) => pk,
            Err(e) => {
                return Err(e);
            },
        };
        proof {
            vstd::array::array_len_matches_n(&recipient_pk);
        }
        let envelope = match build_envelope(
            &identity.sodium_box_sk,
            &identity.sign_sk,
            &recipient_pk,
            0,
            recipient_id,
            body.as_bytes(),
        ) {
            Ok(bytes) => bytes,
            Err(e) => {
                return Err(PigeonError::Crypto(e));
            },
        };
        let ghost sealed = envelope@;
        let id = fresh_id();
        let priority: u8 = if high_priority {
            0
        } else {
            1
        };
        let message = new_outgoing(id, recipient_id, envelope, priority, MessageStatus::Pending);
        let ghost want = message@;
        let stored = queue.enqueue(message);
        proof {
            vstd::array::array_len_matches_n(&id);
        }
        match stored {
            Ok(()) => {
                proof {
                    let nonce = choose|nonce: Seq<u8>|
                        nonce.len() == 24 && #[trigger] is_envelope_for(
                            sealed,
                            encode_utf8(body@),
                            nonce,
                            identity.sodium_box_sk@,
                            identity.sign_sk@,
                            recipient_pk@,
                            0,
                            recipient_id,
                        );
                    let now = choose|now: u64| #[trigger]
                        enqueue_outcome(old(queue)@, want, now, queue@, stored);
                    let r: Result<[u8; 16], PigeonError> = Ok(id);
                    assert(enqueue_outcome(
                        old(queue)@,
                        outgoing(
                            id@,
                            recipient_id,
                            sealed,
                            lane_for(high_priority),
                            MessageStatus::Pending,
                        ),
                        now,
                        queue@,
                        stored_as(r, id@)->0,
                    ));
                    assert(enqueued_as(
                        old(queue)@,
                        recipient_id,
                        sealed,
                        lane_for(high_priority),
                        queue@,
                        r,
                    ));
                }
                Ok(id)
            },
            Err(e) => {
                proof {
                    let nonce = choose|nonce: Seq<u8>|
                        nonce.len() == 24 && #[trigger] is_envelope_for(
                            sealed,
                            encode_utf8(body@),
                            nonce,
                            identity.sodium_box_sk@,
                            identity.sign_sk@,
                            recipient_pk@,
                            0,
                            recipient_id,
                        );
                    let now = choose|now: u64| #[trigger]
                        enqueue_outcome(old(queue)@, want, now, queue@, stored);
                    let r: Result<[u8; 16], PigeonError> = Err(PigeonError::Storage(e));
                    assert(enqueue_outcome(
                        old(queue)@,
                        outgoing(
                            id@,
                            recipient_id,
                            sealed,
                            lane_for(high_priority),
                            MessageStatus::Pending,
                        ),
                        now,
                        queue@,
                        stored_as(r, id@)->0,
                    ));
                    assert(enqueued_as(
                        old(queue)@,
                        recipient_id,
                        sealed,
                        lane_for(high_priority),
                        queue@,
                        r,
                    ));
                }
                Err(PigeonError::Storage(e))
            },
        }
    }

    /// Everything in the inbox, by ascending identifier.
    pub fn inbox_list(&self, queue: &MessageQueue) -> (r: Result<
        Vec<([u8; 16], Vec<u8>)>,
        PigeonError,
    >)
        ensures
            storage_side(r) is Some,
            inbox_list_outcome(queue@.inbox, storage_side(r)->0),
    {
        from_storage(queue.list_inbox())
    }

    /// The first `limit` items of the inbox, by ascending identifier.
    pub fn inbox_list_limited(&self, queue: &MessageQueue, limit: usize) -> (r: Result<
        Vec<([u8; 16], Vec<u8>)>,
        PigeonError,
    >)
        ensures
            inbox_limited_outcome(queue@.inbox, limit, r),
    {
        match queue.list_inbox() {
            Ok(items) => {
                let ghost all = items@;
                let list = limit_items(items, limit);
                proof {
                    assert(sorted_listing(inbox_views(all), queue@.inbox));
                }
                Ok(list)
            },
            Err(e) => Err(PigeonError::Storage(e)),
        }
    }

    /// The plaintext in the inbox under `id`, if there is one.
    pub fn inbox_show(&self, queue: &MessageQueue, id: [u8; 16]) -> (r: Result<
        Option<Vec<u8>>,
        PigeonError,
    >)
        ensures
            storage_side(r) is Some,
            inbox_get_outcome(queue@.inbox, id@, storage_side(r)->0),
    {
        from_storage(queue.get_inbox(id))
    }

    /// The items of the inbox that hold `term`, not minding the case of ASCII
    /// letters, by ascending identifier, and no more of them than the limit
    /// lets through. A limit of 0 still lets the first one through.
    pub fn inbox_search(&self, queue: &MessageQueue, term: &str, limit: Option<usize>) -> (r:
        Result<Vec<([u8; 16], Vec<u8>)>, PigeonError>)
        ensures
            inbox_search_outcome(queue@.inbox, term@, limit, r),
    {
        match queue.list_inbox() {
            Ok(items) => {
                let ghost all = items@;
                let list = search_items(items, term, limit);
                proof {
                    assert(sorted_listing(inbox_views(all), queue@.inbox));
                }
                Ok(list)
            },
            Err(e) => Err(PigeonError::Storage(e)),
        }
    }

    /// The pending messages, by ascending identifier.
    pub fn queue_list_pending(&self, queue: &MessageQueue) -> (r: Result<
        Vec<QueuedMessage>,
        PigeonError,
    >)
        ensures
            storage_side(r) is Some,
            pending_list_outcome(queue@.messages, queue@.key, storage_side(r)->0),
    {
        from_storage(queue.get_pending_messages())
    }

    /// The messages that were given up, by ascending identifier.
    pub fn queue_list_dead_letters(&self, queue: &MessageQueue) -> (r: Result<
        Vec<DeadLetterRecord>,
        PigeonError,
    >)
        ensures
            storage_side(r) is Some,
            dead_letter_list_outcome(queue@.dead_letters, storage_side(r)->0),
    {
        from_storage(queue.list_dead_letters())
    }

    /// How many messages are waiting, received, and given up. The queue is
    /// walked for it, and only the store can make that fail.
    pub fn queue_stats(&self, queue: &MessageQueue) -> (r: Result<QueueStats, PigeonError>)
        ensures
            match r {
                Ok(stats) => stats_match(stats, queue@),
                Err(PigeonError::Storage(e)) => e is Db,
                Err(_) => false,
            },
    {
        from_storage(stats_of(queue))
    }

    /// What a list of the queue shows of the pending messages, by ascending
    /// identifier.
    pub fn queue_list_pending_summaries(&self, queue: &MessageQueue) -> (r: Result<
        Vec<QueueItemSummary>,
        PigeonError,
    >)
        ensures
            pending_summaries_outcome(queue@.messages, queue@.key, r),
    {
        match queue.get_pending_messages() {
            Ok(items) => {
                let out = summarize_all(&items);
                proof {
                    assert(lists_pending(items@, queue@.messages, queue@.key));
                    assert(summaries_of(items@, out@));
                }
                Ok(out)
            },
            Err(e) => Err(PigeonError::Storage(e)),
        }
    }

    /// Receives one message locally: takes the next due message out of the
    /// queue, decrypts it with the sender's key and the identity's secret key,
    /// stores the plaintext in the inbox and puts the message back as
    /// delivered. A sender key that is not hexadecimal text for 32 bytes is
    /// refused before anything is done.
    pub fn try_receive_once(
        &self,
        queue: &mut MessageQueue,
        identity: &Identity,
        sender_pubkey_hex: &str,
    ) -> (r: Result<(), PigeonError>)
        ensures
            receive_once_outcome(
                old(queue)@,
                identity.sodium_box_sk@,
                sender_pubkey_hex@,
                final(queue)@,
                r,
            ),
    {
        let bytes = match hex_decode(sender_pubkey_hex) {
            Ok(bytes) => bytes,
            Err(reason) => {
                return Err(PigeonError::Storage(StorageError::Validation(reason)));
            },
        };
        if bytes.len() != 32 {
            return Err(PigeonError::validation("bad pk"));
        }
        let sender_pk: [u8; 32] = crate::bytes::to_array::<32>(bytes.as_slice());
        let r = receive_and_ack(queue, &sender_pk, &identity.sodium_box_sk);
        proof {
            let (now, received) = choose|now: u64, received: bool| #[trigger]
                local_receipt(
                    old(queue)@,
                    sender_pk@,
                    identity.sodium_box_sk@,
                    now,
                    queue@,
                    receipt_result(r, received),
                );
            assert(local_receipt(
                old(queue)@,
                bytes@,
                identity.sodium_box_sk@,
                now,
                queue@,
                receipt_result(r, received),
            ));
        }
        r
    }

    /// The identity that the identity file gives, or one made anew with the
    /// file to write for it, and its public side as text.
    pub fn ensure_identity_and_preview(&self, existing: Option<&[u8]>) -> (r: Result<
        (IdentityPreview, LoadedIdentity),
        PigeonError,
    >)
        ensures
            match r {
                Ok((preview, loaded)) => shows_identity(preview, identity_in(loaded)) && (
                match existing {
                    Some(bytes) => loaded is Existing && identity_loaded(bytes@, identity_in(loaded)),
                    None => loaded matches LoadedIdentity::Created(id, file) && file@
                        == identity_wire(id@) && identity_fresh(id@),
                }),
                Err(e) => existing matches Some(bytes) && !identity_accepted(bytes@)
                    && identity_refused(bytes@, e),
            },
    {
        let loaded = match Identity::load_or_generate(existing) {
            Ok(loaded) => loaded,
            Err(e) => {
                return Err(e);
            },
        };
        let preview = match &loaded {
            LoadedIdentity::Existing(id) => preview_of(id),
            LoadedIdentity::Created(id, _) => preview_of(id),
        };
        Ok((preview, loaded))
    }

    /// The sealed key file for `key` under `passphrase`, with a fresh salt and
    /// a fresh nonce.
    pub fn set_passphrase(&self, key: &AtRestKey, passphrase: &str) -> (r: Result<
        Vec<u8>,
        PigeonError,
    >)
        ensures
            match r {
                Ok(file) => fresh_seal_outcome(key@, encode_utf8(passphrase@), Ok(file@)),
                Err(PigeonError::Storage(e)) => fresh_seal_outcome(
                    key@,
                    encode_utf8(passphrase@),
                    Err(e),
                ),
                Err(_) => false,
            },
    {
        match set_passphrase_and_seal(key, passphrase) {
            Ok(file) => Ok(file),
            Err(e) => Err(PigeonError::Storage(e)),
        }
    }

    /// The at-rest key that the sealed key file gives up to `passphrase`.
    pub fn unlock(&self, file: &[u8], passphrase: &str) -> (r: Result<AtRestKey, PigeonError>)
        ensures
            match r {
                Ok(key) => key_file_unlocked(file@, encode_utf8(passphrase@)) == Some(key@),
                Err(e) => e matches PigeonError::Storage(s) && key_file_unlocked(
                    file@,
                    encode_utf8(passphrase@),
                ) is None && unlock_failure(file@, encode_utf8(passphrase@), s),
            },
    {
        match unlock_with_passphrase(file, passphrase) {
            Ok(key) => Ok(key),
            Err(e) => Err(PigeonError::Storage(e)),
        }
    }

    /// A fresh at-rest key, and its sealed key file under `passphrase`, with
    /// a fresh salt and a fresh nonce.
    pub fn rotate_at_rest_key(&self, passphrase: &str) -> (r: Result<(AtRestKey, Vec<u8>), PigeonError>)
        ensures
            match r {
                Ok((key, file)) => fresh_seal_outcome(key@, encode_utf8(passphrase@), Ok(file@)),
                Err(PigeonError::Storage(e)) => kdf_failure(e) && derivation_refuses(
                    encode_utf8(passphrase@),
                ),
                Err(_) => false,
            },
    {
        match rotate_key_and_seal(passphrase) {
            Ok(pair) => Ok(pair),
            Err(e) => Err(PigeonError::Storage(e)),
        }
    }

    /// How much is logged.
    pub fn get_log_level(&self) -> (level: String)
        ensures
            level@ == self@.log_level,
    {
        self.cfg.log_level.clone()
    }

    /// Sets how much is logged.
    pub fn set_log_level(&mut self, level: &str)
        ensures
            final(self)@ == (AppConfigView { log_level: level@, ..old(self)@ }),
    {
        self.cfg.log_level = String::from_str(level);
    }

    /// The settings of the network.
    pub fn get_network_settings(&self) -> (settings: NetworkSettings)
        ensures
            text_view(settings.listen_addr) == self@.listen_addr,
            settings.enable_mdns == self@.enable_mdns,
    {
        NetworkSettings {
            listen_addr: self.cfg.listen_addr.clone(),
            enable_mdns: self.cfg.enable_mdns,
        }
    }

    /// Sets the settings of the network. An address to listen on that is no
    /// multiaddr is refused, and nothing changes.
    pub fn set_network_settings(&mut self, settings: NetworkSettings) -> (r: Result<(), PigeonError>)
        ensures
            match r {
                Ok(()) => (settings.listen_addr matches Some(a) ==> multiaddr_parses(a@)) && final(self)@ == (AppConfigView {
                    listen_addr: text_view(settings.listen_addr),
                    enable_mdns: settings.enable_mdns,
                    ..old(self)@
                }),
                Err(e) => settings.listen_addr matches Some(a) && !multiaddr_parses(a@) && e.is_config(
                    "invalid listen_addr"@,
                ) && final(self)@ == old(self)@,
            },
    {
        match &settings.listen_addr {
            Some(addr) => {
                if !is_multiaddr(addr.as_str()) {
                    return Err(PigeonError::config("invalid listen_addr"));
                }
            },
            None => {},
        }
        self.cfg.listen_addr = settings.listen_addr;
        self.cfg.enable_mdns = settings.enable_mdns;
        Ok(())
    }
}

/// Everything that matches holds the needle.
pub proof fn lemma_matching_all_match(all: Seq<([u8; 16], Vec<u8>)>, needle: Seq<u8>)
    ensures
        forall|i: int|
            0 <= i < matching(all, needle).len() ==> text_holds(
                (#[trigger] matching(all, needle)[i]).1@,
                needle,
            ),
    decreases all.len(),
{
    if all.len() > 0 {
        lemma_matching_all_match(all.drop_last(), needle);
        let before = matching(all.drop_last(), needle);
        assert forall|i: int| 0 <= i < matching(all, needle).len() implies text_holds(
            (#[trigger] matching(all, needle)[i]).1@,
            needle,
        ) by {
            if i < before.len() {
                assert(matching(all, needle)[i] == before[i]);
            }
        }
    }
}

/// How many messages are waiting, received, and given up in `queue`. The
/// queue is walked for it, and only the store can make that fail.
pub fn stats_of(queue: &MessageQueue) -> (r: Result<QueueStats, StorageError>)
    ensures
        match r {
            Ok(stats) => stats_match(stats, queue@),
            Err(e) => e is Db,
        },
{
    let pending = match queue.len() {
        Ok(n) => n,
        Err(e) => {
            return Err(e);
        },
    };
    let inbox = match queue.inbox_len() {
        Ok(n) => n,
        Err(e) => {
            return Err(e);
        },
    };
    let dead_letters = match queue.dead_letter_len() {
        Ok(n) => n,
        Err(e) => {
            return Err(e);
        },
    };
    Ok(QueueStats { pending: pending as u64, inbox: inbox as u64, dead_letters: dead_letters as u64 })
}

/// The identity that loading gave, whether it was there or made anew.
pub open spec fn identity_in(loaded: LoadedIdentity) -> StoredIdentity {
    match loaded {
        LoadedIdentity::Existing(id) => id@,
        LoadedIdentity::Created(id, _) => id@,
    }
}

/// `preview` is the public side of `id` as text: both public keys in
/// lower-case hexadecimal, and the peer identifier of the transport key pair,
/// empty where that is no key pair.
pub open spec fn shows_identity(preview: IdentityPreview, id: StoredIdentity) -> bool {
    &&& preview.sodium_box_pk_hex@ == hex_text(id.sodium_box_pk)
    &&& preview.sign_pk_hex@ == hex_text(id.sign_pk)
    &&& preview.libp2p_peer_id@ == match libp2p_peer_id(id.libp2p_ed25519) {
        Some(text) => text,
        None => Seq::<char>::empty(),
    }
}

/// The identity shows the same the second time. Where `first` is shown for an
/// identity made anew, and `second` for what is loaded from the file written
/// for it, the two show the same texts, and each key is shown in 64
/// characters.
pub proof fn lemma_preview_stable(
    id: StoredIdentity,
    first: IdentityPreview,
    loaded: StoredIdentity,
    second: IdentityPreview,
)
    requires
        identity_fresh(id),
        shows_identity(first, id),
        identity_loaded(identity_wire(id), loaded),
        shows_identity(second, loaded),
    ensures
        loaded == id,
        second.sodium_box_pk_hex@ == first.sodium_box_pk_hex@,
        second.sign_pk_hex@ == first.sign_pk_hex@,
        second.libp2p_peer_id@ == first.libp2p_peer_id@,
        first.sodium_box_pk_hex@.len() == 64,
        first.sign_pk_hex@.len() == 64,
{
    lemma_identity_reloaded(id, loaded);
}

/// The public side of `id` as text.
pub fn preview_of(id: &Identity) -> (preview: IdentityPreview)
    ensures
        shows_identity(preview, id@),
{
    let peer = match peer_id_text(id.libp2p_ed25519.as_slice()) {
        Some(text) => text,
        None => String::new(),
    };
    IdentityPreview {
        sodium_box_pk_hex: hex_encode(id.sodium_box_pk.as_slice()),
        sign_pk_hex: hex_encode(id.sign_pk.as_slice()),
        libp2p_peer_id: peer,
    }
}

} // verus!
