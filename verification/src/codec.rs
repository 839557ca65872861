//! The postcard encoding of the values the roost stores and sends.
//!
//! A chat message is encoded as postcard encodes the tuple
//! `(id, author, body, ts)`, which is byte for byte what postcard writes for
//! a struct with those four fields in that order. Postcard's output is named,
//! not restated: `postcard_message` for one message, `postcard_history` for a
//! list of them, and `postcard_message_decoded` / `postcard_request_decoded`
//! for what `postcard::from_bytes` reads back.

use vstd::prelude::*;

use crate::message::{ChatMessage, MessageView};
use crate::text::string_views;

verus! {

#[verifier::external_type_specification]
#[verifier::external_body]
pub struct ExPostcardError(postcard::Error);

/// The fields of a message as one tuple.
pub open spec fn message_tuple(m: MessageView) -> (Seq<char>, Seq<char>, Seq<char>, i64) {
    (m.id, m.author, m.body, m.ts)
}

/// What `postcard::to_stdvec` writes for a message with these fields.
pub uninterp spec fn postcard_message(id: Seq<char>, author: Seq<char>, body: Seq<char>, ts: i64) -> Seq<u8>;

/// What `postcard::from_bytes` reads as a message from `bytes`, if anything.
pub uninterp spec fn postcard_message_decoded(bytes: Seq<u8>) -> Option<(Seq<char>, Seq<char>, Seq<char>, i64)>;

/// Calls `postcard::to_stdvec` on the message's fields. It succeeds: the
/// output is a growing vector, and strings and integers always encode. The
/// bytes are `postcard_message` of the fields, and `postcard::from_bytes`
/// reads the same fields back from them (postcard's round trip).
#[verifier::external_body]
pub(crate) fn encode_message(m: &ChatMessage) -> (r: Result<Vec<u8>, postcard::Error>)
    ensures
        match r {
            Ok(bytes) => {
                &&& bytes@ == postcard_message(m.id@, m.author@, m.body@, m.ts)
                &&& postcard_message_decoded(bytes@) == Some(message_tuple(m@))
            },
            Err(_) => false,
        },
{
    postcard::to_stdvec(&(&m.id, &m.author, &m.body, m.ts))
}

/// Calls `postcard::from_bytes` for a message: it succeeds exactly when
/// `postcard_message_decoded` is something, and returns those fields.
#[verifier::external_body]
pub(crate) fn decode_message(bytes: &[u8]) -> (r: Result<ChatMessage, postcard::Error>)
    ensures
        match r {
            Ok(m) => postcard_message_decoded(bytes@) == Some(message_tuple(m@)),
            Err(_) => postcard_message_decoded(bytes@) is None,
        },
{
    match postcard::from_bytes::<(String, String, String, i64)>(bytes) {
        Ok((id, author, body, ts)) => Ok(ChatMessage { id, author, body, ts }),
        Err(e) => Err(e),
    }
}

/// The fields of each message of a list as tuples.
pub open spec fn message_tuples(s: Seq<ChatMessage>) -> Seq<(Seq<char>, Seq<char>, Seq<char>, i64)> {
    s.map_values(|m: ChatMessage| message_tuple(m@))
}

/// What `postcard::to_stdvec` writes for a list of messages with these fields.
pub uninterp spec fn postcard_history(msgs: Seq<(Seq<char>, Seq<char>, Seq<char>, i64)>) -> Seq<u8>;

/// What `postcard::from_bytes` reads as a list of messages from `bytes`.
pub uninterp spec fn postcard_history_decoded(bytes: Seq<u8>) -> Option<Seq<(Seq<char>, Seq<char>, Seq<char>, i64)>>;

/// What `postcard::from_bytes` reads as a history request (channel, since).
pub uninterp spec fn postcard_request_decoded(bytes: Seq<u8>) -> Option<(Seq<char>, i64)>;

/// What `postcard::from_bytes` reads as a bare timestamp.
pub uninterp spec fn postcard_i64_decoded(bytes: Seq<u8>) -> Option<i64>;

/// Calls `postcard::to_stdvec` on a list of messages, each as its fields.
/// It succeeds: the output is a growing vector and a vector's length is
/// known. The bytes are `postcard_history` of those fields.
#[verifier::external_body]
pub(crate) fn encode_history(msgs: &Vec<ChatMessage>) -> (r: Result<Vec<u8>, postcard::Error>)
    ensures
        match r {
            Ok(bytes) => bytes@ == postcard_history(message_tuples(msgs@)),
            Err(_) => false,
        },
{
    let fields: Vec<(&String, &String, &String, i64)> = msgs.iter().map(
        |m| (&m.id, &m.author, &m.body, m.ts),
    ).collect();
    postcard::to_stdvec(&fields)
}

/// Calls `postcard::from_bytes` for a list of messages: it succeeds exactly
/// when `postcard_history_decoded` is something, and returns those messages.
#[verifier::external_body]
pub(crate) fn decode_history(bytes: &[u8]) -> (r: Result<Vec<ChatMessage>, postcard::Error>)
    ensures
        match r {
            Ok(msgs) => postcard_history_decoded(bytes@) == Some(message_tuples(msgs@)),
            Err(_) => postcard_history_decoded(bytes@) is None,
        },
{
    match postcard::from_bytes::<Vec<(String, String, String, i64)>>(bytes) {
        Ok(fields) => Ok(fields.into_iter().map(
            |(id, author, body, ts)| ChatMessage { id, author, body, ts },
        ).collect()),
        Err(e) => Err(e),
    }
}

/// Calls `postcard::from_bytes` for a history request `(channel, since)`: it
/// succeeds exactly when `postcard_request_decoded` is something.
#[verifier::external_body]
pub(crate) fn decode_request(bytes: &[u8]) -> (r: Result<(String, i64), postcard::Error>)
    ensures
        match r {
            Ok((channel, since)) => postcard_request_decoded(bytes@) == Some((channel@, since)),
            Err(_) => postcard_request_decoded(bytes@) is None,
        },
{
    postcard::from_bytes::<(String, i64)>(bytes)
}

/// Calls `postcard::from_bytes` for a bare timestamp: it succeeds exactly
/// when `postcard_i64_decoded` is something.
#[verifier::external_body]
pub(crate) fn decode_i64(bytes: &[u8]) -> (r: Result<i64, postcard::Error>)
    ensures
        match r {
            Ok(v) => postcard_i64_decoded(bytes@) == Some(v),
            Err(_) => postcard_i64_decoded(bytes@) is None,
        },
{
    postcard::from_bytes::<i64>(bytes)
}

/// What `postcard::to_stdvec` writes for a list of channel names.
pub uninterp spec fn postcard_channels(names: Seq<Seq<char>>) -> Seq<u8>;

/// What `postcard::from_bytes` reads as a list of channel names.
pub uninterp spec fn postcard_channels_decoded(bytes: Seq<u8>) -> Option<Seq<Seq<char>>>;

/// What `postcard::to_stdvec` writes for a bare timestamp.
pub uninterp spec fn postcard_i64(value: i64) -> Seq<u8>;

/// Calls `postcard::to_stdvec` on a list of channel names. It succeeds, the
/// bytes are `postcard_channels` of the names, and `postcard::from_bytes`
/// reads the same names back from them.
#[verifier::external_body]
pub(crate) fn encode_channels(names: &Vec<String>) -> (r: Result<Vec<u8>, postcard::Error>)
    ensures
        match r {
            Ok(bytes) => {
                &&& bytes@ == postcard_channels(string_views(names@))
                &&& postcard_channels_decoded(bytes@) == Some(string_views(names@))
            },
            Err(_) => false,
        },
{
    postcard::to_stdvec(names)
}

/// Calls `postcard::from_bytes` for a list of channel names: it succeeds
/// exactly when `postcard_channels_decoded` is something.
#[verifier::external_body]
pub(crate) fn decode_channels(bytes: &[u8]) -> (r: Result<Vec<String>, postcard::Error>)
    ensures
        match r {
            Ok(names) => postcard_channels_decoded(bytes@) == Some(string_views(names@)),
            Err(_) => postcard_channels_decoded(bytes@) is None,
        },
{
    postcard::from_bytes::<Vec<String>>(bytes)
}

/// Calls `postcard::to_stdvec` on a bare timestamp. It succeeds, the bytes
/// are `postcard_i64(value)`, and `postcard::from_bytes` reads the value back.
#[verifier::external_body]
pub(crate) fn encode_i64(value: i64) -> (r: Result<Vec<u8>, postcard::Error>)
    ensures
        match r {
            Ok(bytes) => bytes@ == postcard_i64(value) && postcard_i64_decoded(bytes@) == Some(value),
            Err(_) => false,
        },
{
    postcard::to_stdvec(&value)
}

} // verus!
