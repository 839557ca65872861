//! Durable, bounded message history of a roost, backed by sled.

use std::path::PathBuf;
use vstd::prelude::*;
use vstd::string::StringSliceAdditionalSpecFns;

use crate::backend::{
    db_flush, db_get, db_open_tree, db_size_on_disk, default_tree_name, db_insert, db_open, db_open_temporary, db_remove, db_scan_prefix,
    is_prefix_scan, iter_next, random_secret, tree_entries,
};
use crate::bytes_order::{lemma_lex_asymmetric, lemma_lex_irreflexive, lex_lt};
use crate::codec::{
    decode_channels, decode_message, encode_channels, encode_message, message_tuple, postcard_channels,
    postcard_channels_decoded, postcard_message, postcard_message_decoded,
};
use crate::text::string_views;
use crate::error::RoostError;
use crate::history::{backfill, backfill_messages, messages_newer_than, newer_than, views};
use crate::keys::{
    channel_prefix, channel_prefix_spec, channel_secret_key, channel_secret_key_spec,
    control_secret_key_spec, legacy_prefix, legacy_prefix_spec, message_key, message_key_spec,
    channels_key_spec, perms_key_spec, CHANNELS_KEY, CONTROL_SECRET_KEY, PERMS_KEY,
};
use crate::message::{ChatMessage, MessageView};
use crate::naming::{is_valid_name, validate_channel};

verus! {

/// The most stored messages that one backfill reads.
pub const MAX_SCAN_MESSAGES: usize = 5000;

/// The entries of `m` whose key starts with `prefix`, in key order.
pub open spec fn scan_of(m: Map<Seq<u8>, Seq<u8>>, prefix: Seq<u8>) -> Seq<(Seq<u8>, Seq<u8>)> {
    choose|s: Seq<(Seq<u8>, Seq<u8>)>| is_prefix_scan(s, m, prefix)
}

/// The values of a list of entries.
pub open spec fn entry_values(s: Seq<(Seq<u8>, Seq<u8>)>) -> Seq<Seq<u8>> {
    s.map_values(|e: (Seq<u8>, Seq<u8>)| e.1)
}

/// The first `n` elements of `s`, or all of them.
pub open spec fn first_n<T>(s: Seq<T>, n: nat) -> Seq<T> {
    if s.len() > n {
        s.subrange(0, n as int)
    } else {
        s
    }
}

/// The stored values that a backfill of `channel` reads: current keys first,
/// then legacy keys, at most 5000 in all.
pub open spec fn scanned_values(m: Map<Seq<u8>, Seq<u8>>, channel: Seq<u8>) -> Seq<Seq<u8>> {
    first_n(
        entry_values(scan_of(m, channel_prefix_spec(channel))) + entry_values(
            scan_of(m, legacy_prefix_spec(channel)),
        ),
        MAX_SCAN_MESSAGES as nat,
    )
}

/// Every value of `vals` decodes as a message.
pub open spec fn all_decode(vals: Seq<Seq<u8>>) -> bool {
    forall|i: int| 0 <= i < vals.len() ==> (#[trigger] postcard_message_decoded(vals[i])) is Some
}

/// A decoded message tuple as a message view.
pub open spec fn tuple_view(t: (Seq<char>, Seq<char>, Seq<char>, i64)) -> MessageView {
    MessageView { id: t.0, author: t.1, body: t.2, ts: t.3 }
}

/// The messages that the values of `vals` decode to.
pub open spec fn decoded(vals: Seq<Seq<u8>>) -> Seq<MessageView> {
    vals.map_values(|b: Seq<u8>| tuple_view(postcard_message_decoded(b).unwrap()))
}

/// What `since` returns for `channel` and `since` on a store holding `m`,
/// provided every scanned value decodes.
pub open spec fn since_spec(m: Map<Seq<u8>, Seq<u8>>, channel: Seq<u8>, since: i64) -> Seq<MessageView> {
    backfill(newer_than(decoded(scanned_values(m, channel)), since))
}

/// How looking up a message id among scanned entries ends.
pub enum DeleteOutcome {
    /// The first entry whose message has the id has this key.
    Found(Seq<u8>),
    /// No entry holds a message with the id.
    NotFound,
    /// An entry before any match does not decode.
    Undecodable,
}

/// Walks the entries in order: the first whose message has id bytes `id`,
/// unless a value that does not decode comes first.
pub open spec fn delete_outcome(s: Seq<(Seq<u8>, Seq<u8>)>, id: Seq<u8>) -> DeleteOutcome
    decreases s.len(),
{
    if s.len() == 0 {
        DeleteOutcome::NotFound
    } else {
        match postcard_message_decoded(s[0].1) {
            None => DeleteOutcome::Undecodable,
            Some(t) => if vstd::utf8::encode_utf8(t.0) == id {
                DeleteOutcome::Found(s[0].0)
            } else {
                delete_outcome(s.drop_first(), id)
            },
        }
    }
}

/// The entries that hold a channel's messages: those under its keys, in key
/// order, then those under its legacy keys, in key order.
pub open spec fn stored_history(m: Map<Seq<u8>, Seq<u8>>, channel: Seq<u8>) -> Seq<(Seq<u8>, Seq<u8>)> {
    scan_of(m, channel_prefix_spec(channel)) + scan_of(m, legacy_prefix_spec(channel))
}

/// Looking up an id in two lists of entries, one after the other, ends as
/// in the first list, unless the id is not found there.
pub proof fn lemma_delete_outcome_concat(s1: Seq<(Seq<u8>, Seq<u8>)>, s2: Seq<(Seq<u8>, Seq<u8>)>, id: Seq<u8>)
    ensures
        delete_outcome(s1 + s2, id) == if delete_outcome(s1, id) is NotFound {
            delete_outcome(s2, id)
        } else {
            delete_outcome(s1, id)
        },
    decreases s1.len(),
{
    if s1.len() == 0 {
        assert(s1 + s2 =~= s2);
    } else {
        assert((s1 + s2)[0] == s1[0]);
        assert((s1 + s2).drop_first() =~= s1.drop_first() + s2);
        lemma_delete_outcome_concat(s1.drop_first(), s2, id);
    }
}

/// Entries of one map with one prefix, listed in key order, are listed
/// the same way.
pub proof fn lemma_prefix_scan_unique(
    s: Seq<(Seq<u8>, Seq<u8>)>,
    t: Seq<(Seq<u8>, Seq<u8>)>,
    m: Map<Seq<u8>, Seq<u8>>,
    prefix: Seq<u8>,
)
    requires
        is_prefix_scan(s, m, prefix),
        is_prefix_scan(t, m, prefix),
    ensures
        s == t,
    decreases s.len(),
{
    if s.len() == 0 {
        if t.len() > 0 {
            assert(m.contains_key(t[0].0) && crate::bytes_order::has_prefix(t[0].0, prefix));
        }
        assert(s =~= t);
    } else {
        if t.len() == 0 {
            assert(m.contains_key(s[0].0) && crate::bytes_order::has_prefix(s[0].0, prefix));
        }
        let k0 = s[0].0;
        let kt = t[0].0;
        assert(m.contains_key(kt) && crate::bytes_order::has_prefix(kt, prefix));
        let i = choose|i: int| 0 <= i < s.len() && s[i].0 == kt;
        assert(m.contains_key(k0) && crate::bytes_order::has_prefix(k0, prefix));
        let j = choose|j: int| 0 <= j < t.len() && t[j].0 == k0;
        if i > 0 && j > 0 {
            assert(lex_lt(s[0].0, s[i].0));
            assert(lex_lt(t[0].0, t[j].0));
            lemma_lex_asymmetric(k0, kt);
        }
        assert(k0 == kt) by {
            if i == 0 {
            } else {
                assert(j == 0);
            }
        }
        let m2 = m.remove(k0);
        let s2 = s.drop_first();
        let t2 = t.drop_first();
        assert forall|a: int| 0 <= a < s2.len() implies s2[a].0 != k0 by {
            assert(lex_lt(s[0].0, s[a + 1].0));
            lemma_lex_irreflexive(k0);
        }
        assert forall|a: int| 0 <= a < t2.len() implies t2[a].0 != k0 by {
            assert(lex_lt(t[0].0, t[a + 1].0));
            lemma_lex_irreflexive(k0);
        }
        assert(is_prefix_scan(s2, m2, prefix)) by {
            assert forall|a: int, b: int| 0 <= a < b < s2.len() implies lex_lt(
                #[trigger] s2[a].0,
                #[trigger] s2[b].0,
            ) by {
                assert(s2[a] == s[a + 1] && s2[b] == s[b + 1]);
            }
            assert forall|k: Seq<u8>| #[trigger]
                m2.contains_key(k) && crate::bytes_order::has_prefix(k, prefix) implies exists|a: int|
                0 <= a < s2.len() && s2[a].0 == k by {
                let a = choose|a: int| 0 <= a < s.len() && s[a].0 == k;
                assert(a != 0);
                assert(s2[a - 1].0 == k);
            }
        }
        assert(is_prefix_scan(t2, m2, prefix)) by {
            assert forall|a: int, b: int| 0 <= a < b < t2.len() implies lex_lt(
                #[trigger] t2[a].0,
                #[trigger] t2[b].0,
            ) by {
                assert(t2[a] == t[a + 1] && t2[b] == t[b + 1]);
            }
            assert forall|k: Seq<u8>| #[trigger]
                m2.contains_key(k) && crate::bytes_order::has_prefix(k, prefix) implies exists|a: int|
                0 <= a < t2.len() && t2[a].0 == k by {
                let a = choose|a: int| 0 <= a < t.len() && t[a].0 == k;
                assert(a != 0);
                assert(t2[a - 1].0 == k);
            }
        }
        lemma_prefix_scan_unique(s2, t2, m2, prefix);
        assert(s[0] == t[0]);
        assert(s =~= seq![s[0]] + s2);
        assert(t =~= seq![t[0]] + t2);
    }
}

/// A successful load-or-mint of the secret under `key` took the store from
/// `before` to `after` and returned `secret`: an existing secret is returned
/// unchanged, a missing one is stored.
pub open spec fn secret_loaded(
    before: Map<Seq<u8>, Seq<u8>>,
    after: Map<Seq<u8>, Seq<u8>>,
    key: Seq<u8>,
    secret: Seq<u8>,
) -> bool {
    &&& after.contains_key(key)
    &&& after[key] == secret
    &&& before.contains_key(key) ==> after == before
    &&& !before.contains_key(key) ==> after == before.insert(key, secret)
}

/// A sled-backed message store.
pub struct Store {
    db: sled::Db,
}

impl View for Store {
    type V = Map<Seq<u8>, Seq<u8>>;

    closed spec fn view(&self) -> Map<Seq<u8>, Seq<u8>> {
        tree_entries(self.db)
    }
}

/// The 32 bytes of a 32-byte vector as an array.
fn to_array32(v: &Vec<u8>) -> (r: [u8; 32])
    requires
        v@.len() == 32,
    ensures
        r@ == v@,
{
    let mut out: [u8; 32] = [0u8; 32];
    let mut i: usize = 0;
    while i < 32
        invariant
            v@.len() == 32,
            out@.len() == 32,
            i <= 32,
            forall|j: int| 0 <= j < i ==> out@[j] == v@[j],
        decreases 32 - i,
    {
        out[i] = v[i];
        i = i + 1;
    }
    assert(out@ =~= v@);
    out
}

impl Store {
    /// Opens (or creates) the database at `path`.
    pub fn open(path: &PathBuf) -> (r: Result<Store, RoostError>)
        ensures
            r is Err ==> r == Err::<Store, RoostError>(RoostError::Storage),
    {
        match db_open(path) {
            Ok(db) => Ok(Store { db }),
            Err(_) => Err(RoostError::Storage),
        }
    }

    /// A tree of the store's database other than the default one, which
    /// holds the store's entries: the event history keeps its trees there.
    pub fn open_tree(&self, name: &str) -> (r: Result<sled::Tree, RoostError>)
        requires
            name@ != default_tree_name(),
        ensures
            r is Err ==> r == Err::<sled::Tree, RoostError>(RoostError::Storage),
    {
        match db_open_tree(&self.db, name) {
            Ok(t) => Ok(t),
            Err(_) => Err(RoostError::Storage),
        }
    }

    /// Writes buffered data to disk.
    pub fn flush(&self) -> (r: Result<(), RoostError>)
        ensures
            r is Err ==> r == Err::<(), RoostError>(RoostError::Storage),
    {
        match db_flush(&self.db) {
            Ok(()) => Ok(()),
            Err(_) => Err(RoostError::Storage),
        }
    }

    /// The size of the database's files on disk.
    pub fn size_on_disk(&self) -> (r: Result<u64, RoostError>)
        ensures
            r is Err ==> r == Err::<u64, RoostError>(RoostError::Storage),
    {
        match db_size_on_disk(&self.db) {
            Ok(n) => Ok(n),
            Err(_) => Err(RoostError::Storage),
        }
    }

    /// Opens a fresh, empty database in a temporary file.
    pub fn open_temporary() -> (r: Result<Store, RoostError>)
        ensures
            match r {
                Ok(store) => store@ == Map::<Seq<u8>, Seq<u8>>::empty(),
                Err(e) => e == RoostError::Storage,
            },
    {
        match db_open_temporary() {
            Ok(db) => Ok(Store { db }),
            Err(_) => Err(RoostError::Storage),
        }
    }

    /// Loads the 32-byte secret stored under `key`, or mints a random one,
    /// stores it and flushes.
    fn load_or_mint_secret(&mut self, key: &[u8], malformed: RoostError) -> (r: Result<
        [u8; 32],
        RoostError,
    >)
        ensures
            match r {
                Ok(secret) => {
                    &&& final(self)@.contains_key(key@)
                    &&& final(self)@[key@] == secret@
                    &&& old(self)@.contains_key(key@) ==> final(self)@ == old(self)@
                    &&& !old(self)@.contains_key(key@) ==> final(self)@ == old(self)@.insert(
                        key@,
                        secret@,
                    )
                },
                Err(e) => {
                    ||| e == RoostError::Storage
                    ||| {
                        &&& e == malformed
                        &&& old(self)@.contains_key(key@)
                        &&& old(self)@[key@].len() != 32
                        &&& final(self)@ == old(self)@
                    }
                },
            },
            !(old(self)@.contains_key(key@) && old(self)@[key@].len() != 32) ==> (r is Ok || r
                == Err::<[u8; 32], RoostError>(RoostError::Storage)),
    {
        match db_get(&self.db, key) {
            Err(_) => Err(RoostError::Storage),
            Ok(Some(existing)) => {
                if existing.len() == 32 {
                    Ok(to_array32(&existing))
                } else {
                    Err(malformed)
                }
            },
            Ok(None) => {
                let secret = random_secret();
                match db_insert(&mut self.db, key, &secret) {
                    Err(_) => Err(RoostError::Storage),
                    Ok(()) => match db_flush(&self.db) {
                        Err(_) => Err(RoostError::Storage),
                        Ok(()) => Ok(secret),
                    },
                }
            },
        }
    }

    /// Loads (or mints and persists) the 32-byte secret key of a channel.
    ///
    /// The secrets are random and kept in sled, so nobody who merely knows
    /// the public roost code can derive them; the roost hands them out only
    /// to admitted birds.
    pub fn channel_secret(&mut self, channel: &str) -> (r: Result<[u8; 32], RoostError>)
        ensures
            ({
                let key = channel_secret_key_spec(channel.spec_bytes());
                match r {
                    Ok(secret) => is_valid_name(channel.spec_bytes()) && secret_loaded(
                        old(self)@,
                        final(self)@,
                        key,
                        secret@,
                    ),
                    Err(RoostError::InvalidChannel) => !is_valid_name(channel.spec_bytes())
                        && final(self)@ == old(self)@,
                    Err(RoostError::MalformedChannelSecret) => {
                        &&& is_valid_name(channel.spec_bytes())
                        &&& old(self)@.contains_key(key)
                        &&& old(self)@[key].len() != 32
                        &&& final(self)@ == old(self)@
                    },
                    Err(RoostError::Storage) => is_valid_name(channel.spec_bytes()),
                    Err(_) => false,
                }
            }),
            ({
                let key = channel_secret_key_spec(channel.spec_bytes());
                is_valid_name(channel.spec_bytes()) && !(old(self)@.contains_key(key)
                    && old(self)@[key].len() != 32) ==> (r is Ok || r == Err::<[u8; 32], RoostError>(
                    RoostError::Storage,
                ))
            }),
    {
        validate_channel(channel)?;
        let key = channel_secret_key(channel);
        self.load_or_mint_secret(&key, RoostError::MalformedChannelSecret)
    }

    /// Loads (or mints and persists) the 32-byte secret key of the roost's
    /// control channel, where the roost state is broadcast.
    pub fn control_secret(&mut self) -> (r: Result<[u8; 32], RoostError>)
        ensures
            ({
                let key = control_secret_key_spec();
                match r {
                    Ok(secret) => secret_loaded(old(self)@, final(self)@, key, secret@),
                    Err(RoostError::MalformedControlSecret) => {
                        &&& old(self)@.contains_key(key)
                        &&& old(self)@[key].len() != 32
                        &&& final(self)@ == old(self)@
                    },
                    Err(RoostError::Storage) => true,
                    Err(_) => false,
                }
            }),
            ({
                let key = control_secret_key_spec();
                !(old(self)@.contains_key(key) && old(self)@[key].len() != 32) ==> (r is Ok || r
                    == Err::<[u8; 32], RoostError>(RoostError::Storage))
            }),
    {
        let key: [u8; 1] = [CONTROL_SECRET_KEY];
        assert(key@ =~= control_secret_key_spec());
        self.load_or_mint_secret(&key, RoostError::MalformedControlSecret)
    }

    /// The persisted permission state, as the bytes it was saved as, or
    /// `None` for a roost that never saved one.
    pub fn load_perms(&self) -> (r: Result<Option<Vec<u8>>, RoostError>)
        ensures
            match r {
                Ok(Some(bytes)) => self@.contains_key(perms_key_spec()) && self@[perms_key_spec()]
                    == bytes@,
                Ok(None) => !self@.contains_key(perms_key_spec()),
                Err(e) => e == RoostError::Storage,
            },
    {
        let key: [u8; 1] = [PERMS_KEY];
        assert(key@ =~= perms_key_spec());
        match db_get(&self.db, &key) {
            Ok(v) => Ok(v),
            Err(_) => Err(RoostError::Storage),
        }
    }

    /// The persisted channel list, or `None` for a roost that never saved
    /// one; a stored list that does not decode is refused.
    pub fn load_channels(&self) -> (r: Result<Option<Vec<String>>, RoostError>)
        ensures
            ({
                let k = channels_key_spec();
                match r {
                    Ok(Some(names)) => self@.contains_key(k) && postcard_channels_decoded(self@[k])
                        == Some(string_views(names@)),
                    Ok(None) => !self@.contains_key(k),
                    Err(RoostError::Decode) => self@.contains_key(k) && postcard_channels_decoded(
                        self@[k],
                    ) is None,
                    Err(RoostError::Storage) => true,
                    Err(_) => false,
                }
            }),
    {
        let key: [u8; 1] = [CHANNELS_KEY];
        assert(key@ =~= channels_key_spec());
        match db_get(&self.db, &key) {
            Ok(Some(bytes)) => match decode_channels(&bytes) {
                Ok(names) => Ok(Some(names)),
                Err(_) => Err(RoostError::Decode),
            },
            Ok(None) => Ok(None),
            Err(_) => Err(RoostError::Storage),
        }
    }

    /// Persists the channel list and flushes; `load_channels` reads it back.
    pub fn save_channels(&mut self, channels: &Vec<String>) -> (r: Result<(), RoostError>)
        ensures
            match r {
                Ok(()) => {
                    &&& final(self)@ == old(self)@.insert(channels_key_spec(), postcard_channels(string_views(channels@)))
                    &&& postcard_channels_decoded(postcard_channels(string_views(channels@))) == Some(string_views(channels@))
                },
                Err(e) => e == RoostError::Storage,
            },
    {
        let key: [u8; 1] = [CHANNELS_KEY];
        assert(key@ =~= channels_key_spec());
        let bytes = match encode_channels(channels) {
            Ok(b) => b,
            Err(_) => Vec::new(),
        };
        match db_insert(&mut self.db, &key, &bytes) {
            Err(_) => Err(RoostError::Storage),
            Ok(()) => match db_flush(&self.db) {
                Err(_) => Err(RoostError::Storage),
                Ok(()) => Ok(()),
            },
        }
    }

    /// Persists the encoded permission state and flushes, so that members,
    /// invitations and bans survive a crash.
    pub fn save_perms(&mut self, perms: &[u8]) -> (r: Result<(), RoostError>)
        ensures
            match r {
                Ok(()) => final(self)@ == old(self)@.insert(perms_key_spec(), perms@),
                Err(e) => e == RoostError::Storage,
            },
    {
        let key: [u8; 1] = [PERMS_KEY];
        assert(key@ =~= perms_key_spec());
        match db_insert(&mut self.db, &key, perms) {
            Err(_) => Err(RoostError::Storage),
            Ok(()) => match db_flush(&self.db) {
                Err(_) => Err(RoostError::Storage),
                Ok(()) => Ok(()),
            },
        }
    }

    /// Persists a message under a key made of its timestamp and id, so that
    /// messages with equal timestamps do not overwrite each other.
    pub fn append(&mut self, channel: &str, message: &ChatMessage) -> (r: Result<(), RoostError>)
        ensures
            match r {
                Ok(()) => {
                    &&& is_valid_name(channel.spec_bytes())
                    &&& final(self)@ == old(self)@.insert(
                        message_key_spec(
                            channel.spec_bytes(),
                            message.ts,
                            vstd::utf8::encode_utf8(message.id@),
                        ),
                        postcard_message(message.id@, message.author@, message.body@, message.ts),
                    )
                    &&& postcard_message_decoded(
                        postcard_message(message.id@, message.author@, message.body@, message.ts),
                    ) == Some(message_tuple(message@))
                },
                Err(RoostError::InvalidChannel) => !is_valid_name(channel.spec_bytes())
                    && final(self)@ == old(self)@,
                Err(RoostError::Storage) => is_valid_name(channel.spec_bytes()),
                Err(_) => false,
            },
    {
        validate_channel(channel)?;
        let key = message_key(channel, message);
        let value = match encode_message(message) {
            Ok(v) => v,
            Err(_) => {
                return Err(RoostError::Encode);
            },
        };
        match db_insert(&mut self.db, &key, &value) {
            Err(_) => Err(RoostError::Storage),
            Ok(()) => match db_flush(&self.db) {
                Err(_) => Err(RoostError::Storage),
                Ok(()) => Ok(()),
            },
        }
    }

    /// How looking up id bytes `id` among the entries under `prefix` ends:
    /// the key of the first entry, in key order, whose message has that id.
    fn find_message(&self, prefix: &Vec<u8>, id: &[u8]) -> (r: Result<Option<Vec<u8>>, RoostError>)
        ensures
            ({
                let outcome = delete_outcome(scan_of(self@, prefix@), id@);
                match r {
                    Ok(Some(k)) => outcome == DeleteOutcome::Found(k@),
                    Ok(None) => outcome is NotFound,
                    Err(RoostError::Decode) => outcome is Undecodable,
                    Err(RoostError::Storage) => true,
                    Err(_) => false,
                }
            }),
    {
        let mut it = db_scan_prefix(&self.db, prefix.as_slice());
        let ghost m = self@;
        let ghost s = it.pending();
        proof {
            lemma_prefix_scan_unique(s, scan_of(m, prefix@), m, prefix@);
        }
        loop
            invariant
                self@ == m,
                s == scan_of(m, prefix@),
                delete_outcome(it.pending(), id@) == delete_outcome(s, id@),
            decreases it.pending().len(),
        {
            let ghost pending = it.pending();
            match iter_next(&mut it) {
                None => {
                    return Ok(None);
                },
                Some(Err(_)) => {
                    return Err(RoostError::Storage);
                },
                Some(Ok((key, value))) => {
                    assert(pending[0].1 == value@);
                    let msg = match decode_message(&value) {
                        Ok(msg) => msg,
                        Err(_) => {
                            return Err(RoostError::Decode);
                        },
                    };
                    let c = crate::bytes_order::compare_bytes(msg.id.as_str().as_bytes(), id);
                    if c == crate::bytes_order::Cmp::Equal {
                        return Ok(Some(key));
                    }
                },
            }
        }
    }

    /// Deletes one message by id from a channel's stored history: the first
    /// message with that id under the channel's keys, in key order, and then
    /// under its legacy keys, which older versions wrote. Returns whether a
    /// message was found and removed.
    pub fn delete_message(&mut self, channel: &str, id: &str) -> (r: Result<bool, RoostError>)
        ensures
            ({
                let outcome = delete_outcome(stored_history(old(self)@, channel.spec_bytes()), id.spec_bytes());
                match r {
                    Ok(true) => {
                        &&& is_valid_name(channel.spec_bytes())
                        &&& outcome is Found
                        &&& final(self)@ == old(self)@.remove(outcome->Found_0)
                    },
                    Ok(false) => is_valid_name(channel.spec_bytes()) && outcome is NotFound
                        && final(self)@ == old(self)@,
                    Err(RoostError::InvalidChannel) => !is_valid_name(channel.spec_bytes())
                        && final(self)@ == old(self)@,
                    Err(RoostError::Decode) => is_valid_name(channel.spec_bytes())
                        && outcome is Undecodable && final(self)@ == old(self)@,
                    Err(RoostError::Storage) => is_valid_name(channel.spec_bytes()),
                    Err(_) => false,
                }
            }),
    {
        validate_channel(channel)?;
        let ghost m = self@;
        let ghost c = channel.spec_bytes();
        let prefix = channel_prefix(channel);
        let legacy = legacy_prefix(channel);
        let id_bytes = id.as_bytes();
        proof {
            lemma_delete_outcome_concat(scan_of(m, prefix@), scan_of(m, legacy@), id_bytes@);
        }
        let found = match self.find_message(&prefix, id_bytes) {
            Ok(Some(k)) => Some(k),
            Ok(None) => self.find_message(&legacy, id_bytes)?,
            Err(e) => {
                return Err(e);
            },
        };
        match found {
            Some(key) => match db_remove(&mut self.db, &key) {
                Ok(()) => Ok(true),
                Err(_) => Err(RoostError::Storage),
            },
            None => Ok(false),
        }
    }

    /// At most the newest 500 messages of a channel strictly newer than
    /// `since`, oldest first.
    ///
    /// Messages under legacy text keys are read too, so that older databases
    /// stay readable; at most 5000 stored messages are read in all.
    pub fn since(&self, channel: &str, since: i64) -> (r: Result<Vec<ChatMessage>, RoostError>)
        ensures
            ({
                let vals = scanned_values(self@, channel.spec_bytes());
                match r {
                    Ok(v) => {
                        &&& is_valid_name(channel.spec_bytes())
                        &&& all_decode(vals)
                        &&& views(v@) == since_spec(self@, channel.spec_bytes(), since)
                    },
                    Err(RoostError::InvalidChannel) => !is_valid_name(channel.spec_bytes()),
                    Err(RoostError::Decode) => is_valid_name(channel.spec_bytes()) && !all_decode(
                        vals,
                    ),
                    Err(RoostError::Storage) => is_valid_name(channel.spec_bytes()),
                    Err(_) => false,
                }
            }),
            is_valid_name(channel.spec_bytes()) && all_decode(
                scanned_values(self@, channel.spec_bytes()),
            ) ==> (r is Ok || r == Err::<Vec<ChatMessage>, RoostError>(RoostError::Storage)),
    {
        validate_channel(channel)?;
        let ghost m = self@;
        let ghost c = channel.spec_bytes();
        let prefix = channel_prefix(channel);
        let legacy = legacy_prefix(channel);
        let mut all: Vec<ChatMessage> = Vec::new();
        let mut scanned: usize = 0;

        let mut it = db_scan_prefix(&self.db, &prefix);
        let ghost s1 = it.pending();
        proof {
            lemma_prefix_scan_unique(s1, scan_of(m, prefix@), m, prefix@);
        }
        let ghost v1 = entry_values(s1);
        loop
            invariant_except_break
                it.pending() == s1.subrange(scanned as int, s1.len() as int),
            invariant
                self@ == m,
                c == channel.spec_bytes(),
                is_valid_name(c),
                v1 == entry_values(s1),
                s1 == scan_of(m, channel_prefix_spec(c)),
                scanned <= MAX_SCAN_MESSAGES,
                scanned <= s1.len(),
                views(all@) == decoded(v1.subrange(0, scanned as int)),
                all_decode(v1.subrange(0, scanned as int)),
            ensures
                scanned == MAX_SCAN_MESSAGES || scanned == s1.len(),
            decreases MAX_SCAN_MESSAGES - scanned,
        {
            if scanned >= MAX_SCAN_MESSAGES {
                break;
            }
            let ghost pending = it.pending();
            match iter_next(&mut it) {
                None => {
                    break;
                },
                Some(Err(_)) => {
                    return Err(RoostError::Storage);
                },
                Some(Ok((_key, value))) => {
                    assert(pending[0] == s1[scanned as int]);
                    assert(value@ == v1[scanned as int]);
                    match decode_message(&value) {
                        Ok(msg) => {
                            let ghost prev = all@;
                            let ghost mv = msg@;
                            all.push(msg);
                            proof {
                                assert(tuple_view(postcard_message_decoded(value@).unwrap()) == mv);
                                assert(v1.subrange(0, scanned + 1) =~= v1.subrange(
                                    0,
                                    scanned as int,
                                ).push(v1[scanned as int]));
                                assert(views(all@) =~= views(prev).push(mv));
                                assert(decoded(v1.subrange(0, scanned + 1)) =~= decoded(
                                    v1.subrange(0, scanned as int),
                                ).push(mv));
                            }
                            scanned = scanned + 1;
                            assert(it.pending() =~= s1.subrange(scanned as int, s1.len() as int));
                        },
                        Err(_) => {
                            proof {
                                let vals = scanned_values(m, c);
                                assert(vals[scanned as int] == v1[scanned as int]);
                            }
                            return Err(RoostError::Decode);
                        },
                    }
                },
            }
        }

        let ghost k1 = scanned;
        let mut it2 = db_scan_prefix(&self.db, &legacy);
        let ghost s2 = it2.pending();
        proof {
            lemma_prefix_scan_unique(s2, scan_of(m, legacy@), m, legacy@);
        }
        let ghost v2 = entry_values(s2);
        let ghost comb = v1 + v2;
        proof {
            assert(comb.subrange(0, scanned as int) =~= v1.subrange(0, scanned as int));
        }
        loop
            invariant_except_break
                s1.len() <= scanned ==> it2.pending() == s2.subrange(
                    scanned - s1.len(),
                    s2.len() as int,
                ),
            invariant
                self@ == m,
                c == channel.spec_bytes(),
                is_valid_name(c),
                v1 == entry_values(s1),
                v2 == entry_values(s2),
                comb == v1 + v2,
                s1 == scan_of(m, channel_prefix_spec(c)),
                s2 == scan_of(m, legacy_prefix_spec(c)),
                scanned <= MAX_SCAN_MESSAGES,
                scanned <= comb.len(),
                comb.len() == s1.len() + s2.len(),
                scanned < s1.len() ==> scanned == MAX_SCAN_MESSAGES,
                views(all@) == decoded(comb.subrange(0, scanned as int)),
                all_decode(comb.subrange(0, scanned as int)),
            ensures
                scanned == MAX_SCAN_MESSAGES || scanned == comb.len(),
            decreases MAX_SCAN_MESSAGES - scanned,
        {
            if scanned >= MAX_SCAN_MESSAGES {
                break;
            }
            let ghost pending = it2.pending();
            match iter_next(&mut it2) {
                None => {
                    break;
                },
                Some(Err(_)) => {
                    return Err(RoostError::Storage);
                },
                Some(Ok((_key, value))) => {
                    assert(pending[0] == s2[scanned - s1.len()]);
                    assert(value@ == v2[scanned - s1.len()]);
                    assert(value@ == comb[scanned as int]);
                    match decode_message(&value) {
                        Ok(msg) => {
                            let ghost prev = all@;
                            let ghost mv = msg@;
                            all.push(msg);
                            proof {
                                assert(tuple_view(postcard_message_decoded(value@).unwrap()) == mv);
                                assert(comb.subrange(0, scanned + 1) =~= comb.subrange(
                                    0,
                                    scanned as int,
                                ).push(comb[scanned as int]));
                                assert(views(all@) =~= views(prev).push(mv));
                                assert(decoded(comb.subrange(0, scanned + 1)) =~= decoded(
                                    comb.subrange(0, scanned as int),
                                ).push(mv));
                            }
                            scanned = scanned + 1;
                            assert(it2.pending() =~= s2.subrange(
                                scanned - s1.len(),
                                s2.len() as int,
                            ));
                        },
                        Err(_) => {
                            proof {
                                let vals = scanned_values(m, c);
                                assert(vals[scanned as int] == comb[scanned as int]);
                            }
                            return Err(RoostError::Decode);
                        },
                    }
                },
            }
        }
        proof {
            assert(scanned_values(m, c) =~= comb.subrange(0, scanned as int));
        }
        let newer = messages_newer_than(&all, since);
        Ok(backfill_messages(newer))
    }
}

} // verus!
