//! History backfill, both between birds (`SyncProto`) and from a roost
//! (`RoostSyncRequest`).

use std::sync::{Arc, Mutex};
use vstd::prelude::*;

use crate::codec::{
    encode_i64, postcard_i64, decode_history, decode_i64, decode_request, encode_history, message_tuples, postcard_history,
    postcard_history_decoded, postcard_i64_decoded, postcard_request_decoded,
};
use crate::error::RoostError;
use crate::history::{keep_newest, keep_newest_messages, messages_newer_than, newer_than, views, MAX_BACKFILL_MESSAGES};
use crate::message::ChatMessage;
use crate::naming::is_valid_name;
use crate::store::{all_decode, scanned_values, since_spec, Store};

verus! {

/// The largest roost history response, in bytes.
pub const MAX_ROOST_SYNC_RESPONSE_BYTES: usize = 8388608;

#[verifier::external_type_specification]
#[verifier::external_body]
#[verifier::reject_recursive_types(T)]
pub struct ExMutex<T: ?Sized>(Mutex<T>);

/// Calls `Mutex::lock` on the shared scrollback and clones what it holds, or
/// gives `None` when the lock is poisoned. Other tasks change the scrollback,
/// so nothing is stated of what it holds.
#[verifier::external_body]
fn lock_and_copy(history: &Arc<Mutex<Vec<ChatMessage>>>) -> (r: Option<Vec<ChatMessage>>) {
    match history.lock() {
        Ok(guard) => Some(guard.clone()),
        Err(_) => None,
    }
}

/// The messages of `s` that a bird serves for a backfill since `since`: those
/// newer than `since`, at most the newest 500, in their order.
pub open spec fn recent_spec(s: Seq<crate::message::MessageView>, since: i64) -> Seq<crate::message::MessageView> {
    keep_newest(newer_than(s, since), MAX_BACKFILL_MESSAGES as nat)
}

/// The messages a bird serves for a backfill since `since`.
pub fn recent_since(history: &Vec<ChatMessage>, since: i64) -> (r: Vec<ChatMessage>)
    ensures
        views(r@) == recent_spec(views(history@), since),
{
    let newer = messages_newer_than(history, since);
    keep_newest_messages(newer, MAX_BACKFILL_MESSAGES)
}

/// The serving side of bird-to-bird backfill: answers a request with the
/// shared scrollback.
pub struct SyncProto {
    pub history: Arc<Mutex<Vec<ChatMessage>>>,
}

impl SyncProto {
    /// Decodes a backfill request (a timestamp) and encodes the messages to
    /// send back: the scrollback's messages newer than it, at most the newest
    /// 500. `None` when the scrollback lock is poisoned.
    pub fn answer(&self, request: &[u8]) -> (r: Result<Option<Vec<u8>>, RoostError>)
        ensures
            match r {
                Ok(_) => postcard_i64_decoded(request@) is Some,
                Err(RoostError::Decode) => postcard_i64_decoded(request@) is None,
                Err(_) => false,
            },
            match r {
                Ok(Some(bytes)) => exists|snapshot: Seq<ChatMessage>, msgs: Seq<ChatMessage>|
                    {
                        &&& views(msgs) == recent_spec(views(snapshot), postcard_i64_decoded(request@).unwrap())
                        &&& bytes@ == postcard_history(message_tuples(msgs))
                    },
                _ => true,
            },
    {
        let since = match decode_i64(request) {
            Ok(v) => v,
            Err(_) => {
                return Err(RoostError::Decode);
            },
        };
        match lock_and_copy(&self.history) {
            Some(snapshot) => {
                let recent = recent_since(&snapshot, since);
                match encode_history(&recent) {
                    Ok(bytes) => {
                        assert(views(recent@) == recent_spec(views(snapshot@), since));
                        Ok(Some(bytes))
                    },
                    Err(_) => Err(RoostError::Encode),
                }
            },
            None => Ok(None),
        }
    }
}

/// The request a bird sends for the messages after `since`: the timestamp's
/// postcard bytes, which the answering bird reads back as `since`.
pub fn backfill_request(since: i64) -> (r: Vec<u8>)
    ensures
        r@ == postcard_i64(since),
        postcard_i64_decoded(r@) == Some(since),
{
    match encode_i64(since) {
        Ok(bytes) => bytes,
        Err(_) => Vec::new(),
    }
}

/// The messages a bird received for its backfill request: `None` when there
/// are none, so that no empty history chunk is reported.
pub fn received_backfill(response: &[u8]) -> (r: Result<Option<Vec<ChatMessage>>, RoostError>)
    ensures
        match r {
            Ok(Some(msgs)) => postcard_history_decoded(response@) == Some(message_tuples(msgs@))
                && msgs@.len() > 0,
            Ok(None) => postcard_history_decoded(response@) == Some(
                Seq::<(Seq<char>, Seq<char>, Seq<char>, i64)>::empty(),
            ),
            Err(e) => e == RoostError::Decode && postcard_history_decoded(response@) is None,
        },
{
    match decode_history(response) {
        Ok(msgs) => {
            if msgs.len() == 0 {
                assert(message_tuples(msgs@) =~= Seq::<(Seq<char>, Seq<char>, Seq<char>, i64)>::empty());
                Ok(None)
            } else {
                Ok(Some(msgs))
            }
        },
        Err(_) => Err(RoostError::Decode),
    }
}

/// A client's request for roost history: the channel and the timestamp
/// after which messages are wanted.
pub struct RoostSyncRequest {
    pub channel: String,
    pub since: i64,
}

impl RoostSyncRequest {
    /// Decodes a request from its postcard bytes.
    pub fn decode(bytes: &[u8]) -> (r: Result<RoostSyncRequest, RoostError>)
        ensures
            match r {
                Ok(req) => postcard_request_decoded(bytes@) == Some((req.channel@, req.since)),
                Err(e) => e == RoostError::Decode && postcard_request_decoded(bytes@) is None,
            },
    {
        match decode_request(bytes) {
            Ok((channel, since)) => Ok(RoostSyncRequest { channel, since }),
            Err(_) => Err(RoostError::Decode),
        }
    }
}

/// How many of the oldest messages of `h` must go for the encoded rest to
/// fit in `limit` bytes (all of them, if nothing else fits).
pub open spec fn oldest_to_drop(h: Seq<ChatMessage>, limit: nat) -> nat
    decreases h.len(),
{
    if h.len() == 0 || postcard_history(message_tuples(h)).len() <= limit {
        0
    } else {
        1 + oldest_to_drop(h.drop_first(), limit)
    }
}

pub proof fn lemma_oldest_to_drop_bound(h: Seq<ChatMessage>, limit: nat)
    ensures
        oldest_to_drop(h, limit) <= h.len(),
    decreases h.len(),
{
    if h.len() > 0 {
        lemma_oldest_to_drop_bound(h.drop_first(), limit);
    }
}

/// Drops the oldest messages until the encoded history fits in `limit`
/// bytes, so that a client always receives the newest history. Returns the
/// messages kept and their encoding.
pub fn fit_history(history: Vec<ChatMessage>, limit: usize) -> (r: Result<(Vec<ChatMessage>, Vec<u8>), RoostError>)
    ensures
        match r {
            Ok((kept, bytes)) => {
                &&& kept@ == history@.subrange(
                    oldest_to_drop(history@, limit as nat) as int,
                    history@.len() as int,
                )
                &&& bytes@ == postcard_history(message_tuples(kept@))
            },
            Err(_) => false,
        },
{
    let mut h = history;
    let mut bytes = match encode_history(&h) {
        Ok(b) => b,
        Err(_) => {
            return Err(RoostError::Encode);
        },
    };
    let ghost k: int = 0;
    while bytes.len() > limit && h.len() > 0
        invariant
            0 <= k <= history@.len(),
            h@ == history@.subrange(k, history@.len() as int),
            bytes@ == postcard_history(message_tuples(h@)),
            oldest_to_drop(history@, limit as nat) == k + oldest_to_drop(h@, limit as nat),
        decreases h.len(),
    {
        let ghost before = h@;
        h.remove(0);
        proof {
            assert(h@ =~= before.drop_first());
            k = k + 1;
            assert(h@ =~= history@.subrange(k, history@.len() as int));
        }
        bytes = match encode_history(&h) {
            Ok(b) => b,
            Err(_) => {
                return Err(RoostError::Encode);
            },
        };
    }
    Ok((h, bytes))
}

/// What a roost answers to a history request: the backfill of the channel,
/// its oldest messages dropped until the encoding fits the response limit.
pub struct SyncAnswer {
    /// The encoded messages to send.
    pub bytes: Vec<u8>,
    /// How many messages the backfill held before any was dropped.
    pub original_len: usize,
    /// How many messages were kept.
    pub kept_len: usize,
}

/// Answers a decoded history request from the store.
pub fn answer_roost_sync(store: &Store, request: &RoostSyncRequest) -> (r: Result<SyncAnswer, RoostError>)
    ensures
        ({
            let c = vstd::utf8::encode_utf8(request.channel@);
            match r {
                Ok(answer) => {
                    &&& is_valid_name(c)
                    &&& all_decode(scanned_values(store@, c))
                    &&& exists|backfill: Seq<ChatMessage>|
                        {
                            &&& views(backfill) == since_spec(store@, c, request.since)
                            &&& answer.original_len == backfill.len()
                            &&& answer.bytes@ == postcard_history(
                                message_tuples(
                                    backfill.subrange(
                                        oldest_to_drop(backfill, MAX_ROOST_SYNC_RESPONSE_BYTES as nat)
                                            as int,
                                        backfill.len() as int,
                                    ),
                                ),
                            )
                            &&& answer.kept_len == backfill.len() - oldest_to_drop(
                                backfill,
                                MAX_ROOST_SYNC_RESPONSE_BYTES as nat,
                            )
                        }
                },
                Err(RoostError::InvalidChannel) => !is_valid_name(c),
                Err(RoostError::Decode) => is_valid_name(c) && !all_decode(scanned_values(store@, c)),
                Err(RoostError::Storage) => is_valid_name(c),
                Err(_) => false,
            }
        }),
{
    let history = store.since(request.channel.as_str(), request.since)?;
    let ghost backfill = history@;
    let original_len = history.len();
    let (kept, bytes) = fit_history(history, MAX_ROOST_SYNC_RESPONSE_BYTES)?;
    let kept_len = kept.len();
    proof {
        lemma_oldest_to_drop_bound(backfill, MAX_ROOST_SYNC_RESPONSE_BYTES as nat);
    }
    let answer = SyncAnswer { bytes, original_len, kept_len };
    assert({
        &&& views(backfill) == since_spec(store@, vstd::utf8::encode_utf8(request.channel@), request.since)
        &&& answer.original_len == backfill.len()
        &&& answer.bytes@ == postcard_history(
            message_tuples(
                backfill.subrange(
                    oldest_to_drop(backfill, MAX_ROOST_SYNC_RESPONSE_BYTES as nat) as int,
                    backfill.len() as int,
                ),
            ),
        )
        &&& answer.kept_len == backfill.len() - oldest_to_drop(
            backfill,
            MAX_ROOST_SYNC_RESPONSE_BYTES as nat,
        )
    });
    Ok(answer)
}

} // verus!
