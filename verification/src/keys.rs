//! The layout of keys in a roost's sled database.
//!
//! * `[1] ++ channel ++ [0] ++ be64(ts xor 2^63) ++ id` — one chat message;
//! * `[2] ++ channel` — the channel's 32-byte secret;
//! * `[3]` — the persisted permission state;
//! * `[4]` — the control channel's 32-byte secret;
//! * `channel ++ "/" ++ ...` — messages written by older versions.

use vstd::prelude::*;
use vstd::string::StringSliceAdditionalSpecFns;

use crate::bytes_order::{
    has_prefix, lemma_lex_common_prefix, lemma_lex_extend, lemma_lex_irreflexive, lex_lt,
};
use crate::message::ChatMessage;
use crate::naming::{is_name_byte, is_valid_name};

verus! {

pub const KEY_VERSION: u8 = 1;

pub const CHANNEL_SECRET_PREFIX: u8 = 2;

pub const PERMS_KEY: u8 = 3;

pub const CONTROL_SECRET_KEY: u8 = 4;

pub const CHANNELS_KEY: u8 = 5;

/// The prefix shared by all message keys of a channel.
pub open spec fn channel_prefix_spec(channel: Seq<u8>) -> Seq<u8> {
    seq![KEY_VERSION] + channel + seq![0u8]
}

/// The key of a channel's secret.
pub open spec fn channel_secret_key_spec(channel: Seq<u8>) -> Seq<u8> {
    seq![CHANNEL_SECRET_PREFIX] + channel
}

/// The key of the persisted permission state.
pub open spec fn perms_key_spec() -> Seq<u8> {
    seq![PERMS_KEY]
}

/// The key of the control channel's secret.
pub open spec fn control_secret_key_spec() -> Seq<u8> {
    seq![CONTROL_SECRET_KEY]
}

/// The key of the persisted channel list.
pub open spec fn channels_key_spec() -> Seq<u8> {
    seq![CHANNELS_KEY]
}

/// The prefix of the keys that older versions wrote for a channel.
pub open spec fn legacy_prefix_spec(channel: Seq<u8>) -> Seq<u8> {
    channel + seq![0x2fu8]
}

/// A timestamp shifted into the unsigned range so that unsigned order is
/// timestamp order.
pub open spec fn ordered_ts(ts: i64) -> nat {
    (ts + 0x8000_0000_0000_0000) as nat
}

/// 256 to the power `n`.
pub open spec fn pow256(n: nat) -> nat
    decreases n,
{
    if n == 0 {
        1
    } else {
        256 * pow256((n - 1) as nat)
    }
}

/// The `n` low bytes of `x`, most significant first.
pub open spec fn be_bytes(x: nat, n: nat) -> Seq<u8>
    decreases n,
{
    if n == 0 {
        Seq::empty()
    } else {
        be_bytes(x / 256, (n - 1) as nat).push((x % 256) as u8)
    }
}

/// The key of a message with timestamp `ts` and id bytes `id` in `channel`.
pub open spec fn message_key_spec(channel: Seq<u8>, ts: i64, id: Seq<u8>) -> Seq<u8> {
    channel_prefix_spec(channel) + be_bytes(ordered_ts(ts), 8) + id
}

pub proof fn lemma_be_bytes_len(x: nat, n: nat)
    ensures
        be_bytes(x, n).len() == n,
    decreases n,
{
    if n > 0 {
        lemma_be_bytes_len(x / 256, (n - 1) as nat);
    }
}

/// Big-endian bytes sort as the numbers they encode.
pub proof fn lemma_be_bytes_order(a: nat, b: nat, n: nat)
    requires
        a < b,
        b < pow256(n),
    ensures
        lex_lt(be_bytes(a, n), be_bytes(b, n)),
    decreases n,
{
    if n == 0 {
    } else {
        let p = pow256((n - 1) as nat);
        assert(b / 256 < p) by (nonlinear_arith)
            requires
                b < 256 * p,
        ;
        assert(a / 256 <= b / 256) by (nonlinear_arith)
            requires
                a < b,
        ;
        lemma_be_bytes_len(a / 256, (n - 1) as nat);
        lemma_be_bytes_len(b / 256, (n - 1) as nat);
        let pa = be_bytes(a / 256, (n - 1) as nat);
        let pb = be_bytes(b / 256, (n - 1) as nat);
        if a / 256 < b / 256 {
            lemma_be_bytes_order(a / 256, b / 256, (n - 1) as nat);
            lemma_lex_extend(pa, pb, seq![(a % 256) as u8], seq![(b % 256) as u8]);
            assert(be_bytes(a, n) =~= pa + seq![(a % 256) as u8]);
            assert(be_bytes(b, n) =~= pb + seq![(b % 256) as u8]);
        } else {
            assert(a % 256 < b % 256) by (nonlinear_arith)
                requires
                    a < b,
                    a / 256 == b / 256,
            ;
            lemma_lex_common_prefix(pa, seq![(a % 256) as u8], seq![(b % 256) as u8]);
            assert(be_bytes(a, n) =~= pa + seq![(a % 256) as u8]);
            assert(be_bytes(b, n) =~= pa + seq![(b % 256) as u8]);
        }
    }
}

pub proof fn lemma_ordered_ts_bound(ts: i64)
    ensures
        ordered_ts(ts) < pow256(8),
{
    reveal_with_fuel(pow256, 9);
    assert(pow256(8) == 0x1_0000_0000_0000_0000);
}

/// Message keys of one channel sort by timestamp first.
pub proof fn law_message_keys_sort_by_time(channel: Seq<u8>, ts1: i64, id1: Seq<u8>, ts2: i64, id2: Seq<u8>)
    requires
        ts1 < ts2,
    ensures
        lex_lt(message_key_spec(channel, ts1, id1), message_key_spec(channel, ts2, id2)),
{
    lemma_ordered_ts_bound(ts2);
    lemma_be_bytes_order(ordered_ts(ts1), ordered_ts(ts2), 8);
    let b1 = be_bytes(ordered_ts(ts1), 8);
    let b2 = be_bytes(ordered_ts(ts2), 8);
    lemma_be_bytes_len(ordered_ts(ts1), 8);
    lemma_be_bytes_len(ordered_ts(ts2), 8);
    lemma_lex_extend(b1, b2, id1, id2);
    let p = channel_prefix_spec(channel);
    lemma_lex_common_prefix(p, b1 + id1, b2 + id2);
    assert(message_key_spec(channel, ts1, id1) =~= p + (b1 + id1));
    assert(message_key_spec(channel, ts2, id2) =~= p + (b2 + id2));
}

/// Two messages of one channel share a key only when they share both the
/// timestamp and the id: a message with an equal timestamp never overwrites
/// another.
pub proof fn lemma_message_key_injective(channel: Seq<u8>, ts1: i64, id1: Seq<u8>, ts2: i64, id2: Seq<u8>)
    requires
        message_key_spec(channel, ts1, id1) == message_key_spec(channel, ts2, id2),
    ensures
        ts1 == ts2,
        id1 == id2,
{
    let p = channel_prefix_spec(channel);
    let b1 = be_bytes(ordered_ts(ts1), 8);
    let b2 = be_bytes(ordered_ts(ts2), 8);
    lemma_be_bytes_len(ordered_ts(ts1), 8);
    lemma_be_bytes_len(ordered_ts(ts2), 8);
    let k1 = message_key_spec(channel, ts1, id1);
    let k2 = message_key_spec(channel, ts2, id2);
    assert(k1.subrange(p.len() as int, p.len() as int + 8) =~= b1);
    assert(k2.subrange(p.len() as int, p.len() as int + 8) =~= b2);
    assert(k1.subrange(p.len() as int + 8, k1.len() as int) =~= id1);
    assert(k2.subrange(p.len() as int + 8, k2.len() as int) =~= id2);
    if ts1 != ts2 {
        lemma_ordered_ts_bound(ts1);
        lemma_ordered_ts_bound(ts2);
        if ts1 < ts2 {
            lemma_be_bytes_order(ordered_ts(ts1), ordered_ts(ts2), 8);
        } else {
            lemma_be_bytes_order(ordered_ts(ts2), ordered_ts(ts1), 8);
        }
        lemma_lex_irreflexive(b1);
    }
}

/// The message namespaces of two different valid channels do not overlap:
/// neither prefix is a prefix of the other.
pub proof fn law_channel_namespaces_disjoint(c1: Seq<u8>, c2: Seq<u8>)
    requires
        is_valid_name(c1),
        is_valid_name(c2),
        c1 != c2,
    ensures
        !has_prefix(channel_prefix_spec(c2), channel_prefix_spec(c1)),
{
    let p1 = channel_prefix_spec(c1);
    let p2 = channel_prefix_spec(c2);
    if has_prefix(p2, p1) {
        if c1.len() < c2.len() {
            assert(p1[c1.len() as int + 1] == 0u8);
            assert(p2[c1.len() as int + 1] == c2[c1.len() as int]);
            assert(is_name_byte(c2[c1.len() as int]));
        } else {
            assert(c1.len() == c2.len());
            assert forall|i: int| 0 <= i < c1.len() implies c1[i] == c2[i] by {
                assert(p1[i + 1] == p2.subrange(0, p1.len() as int)[i + 1]);
            }
            assert(c1 =~= c2);
        }
    }
}

/// Keys of different kinds never collide: secrets, permissions, the channel
/// list and messages each start with their own byte, and legacy keys with a
/// name byte.
pub proof fn law_key_kinds_disjoint(c1: Seq<u8>, c2: Seq<u8>, ts: i64, id: Seq<u8>)
    requires
        is_valid_name(c1),
        is_valid_name(c2),
    ensures
        message_key_spec(c1, ts, id)[0] == KEY_VERSION,
        channel_secret_key_spec(c2)[0] == CHANNEL_SECRET_PREFIX,
        perms_key_spec()[0] == PERMS_KEY,
        control_secret_key_spec()[0] == CONTROL_SECRET_KEY,
        channels_key_spec()[0] == CHANNELS_KEY,
        legacy_prefix_spec(c2)[0] > CHANNELS_KEY,
        channel_secret_key_spec(c1) == channel_secret_key_spec(c2) ==> c1 == c2,
{
    assert(is_name_byte(c2[0]));
    if channel_secret_key_spec(c1) == channel_secret_key_spec(c2) {
        assert(c1 =~= channel_secret_key_spec(c1).drop_first());
        assert(c2 =~= channel_secret_key_spec(c2).drop_first());
    }
}

/// The prefix under which all messages of `channel` are stored.
pub fn channel_prefix(channel: &str) -> (key: Vec<u8>)
    ensures
        key@ == channel_prefix_spec(channel.spec_bytes()),
{
    let bytes = channel.as_bytes();
    let mut key: Vec<u8> = Vec::new();
    key.push(KEY_VERSION);
    key.extend_from_slice(bytes);
    key.push(0);
    assert(key@ =~= channel_prefix_spec(channel.spec_bytes()));
    key
}

/// The key under which the secret of `channel` is persisted.
pub fn channel_secret_key(channel: &str) -> (key: Vec<u8>)
    ensures
        key@ == channel_secret_key_spec(channel.spec_bytes()),
{
    let bytes = channel.as_bytes();
    let mut key: Vec<u8> = Vec::new();
    key.push(CHANNEL_SECRET_PREFIX);
    key.extend_from_slice(bytes);
    assert(key@ =~= channel_secret_key_spec(channel.spec_bytes()));
    key
}

/// The prefix under which older versions stored the messages of `channel`.
pub fn legacy_prefix(channel: &str) -> (key: Vec<u8>)
    ensures
        key@ == legacy_prefix_spec(channel.spec_bytes()),
{
    let bytes = channel.as_bytes();
    let mut key: Vec<u8> = Vec::new();
    key.extend_from_slice(bytes);
    key.push(0x2f);
    assert(key@ =~= legacy_prefix_spec(channel.spec_bytes()));
    key
}

/// Timestamp `ts` shifted into the unsigned range.
pub fn ordered_timestamp(ts: i64) -> (r: u64)
    ensures
        r == ordered_ts(ts),
{
    let r = (ts as u64) ^ 0x8000_0000_0000_0000u64;
    assert(((ts as u64) ^ 0x8000_0000_0000_0000u64) as int == ts + 0x8000_0000_0000_0000)
        by (bit_vector);
    r
}

/// The 8 bytes of `x`, most significant first.
pub fn u64_be_bytes(x: u64) -> (r: [u8; 8])
    ensures
        r@ == be_bytes(x as nat, 8),
{
    let mut out: [u8; 8] = [0u8; 8];
    let mut cur: u64 = x;
    let mut i: usize = 8;
    while i > 0
        invariant
            i <= 8,
            out@.len() == 8,
            be_bytes(x as nat, 8) == be_bytes(cur as nat, i as nat) + out@.subrange(i as int, 8),
        decreases i,
    {
        let ghost before = out@;
        assert(be_bytes(cur as nat, i as nat) == be_bytes((cur / 256) as nat, (i - 1) as nat).push(
            (cur % 256) as u8,
        ));
        out[i - 1] = (cur % 256) as u8;
        assert(out@.subrange(i - 1, 8) =~= seq![(cur % 256) as u8] + before.subrange(i as int, 8));
        cur = cur / 256;
        i = i - 1;
    }
    assert(out@.subrange(0, 8) =~= out@);
    out
}

/// The key under which `message` is stored in `channel`: equal timestamps
/// get distinct keys through the id, and keys sort by timestamp.
pub fn message_key(channel: &str, message: &ChatMessage) -> (key: Vec<u8>)
    ensures
        key@ == message_key_spec(channel.spec_bytes(), message.ts, vstd::utf8::encode_utf8(message.id@)),
{
    let mut key = channel_prefix(channel);
    let ordered = ordered_timestamp(message.ts);
    let be = u64_be_bytes(ordered);
    key.extend_from_slice(&be);
    let id_bytes = message.id.as_str().as_bytes();
    key.extend_from_slice(id_bytes);
    assert(key@ =~= message_key_spec(channel.spec_bytes(), message.ts, vstd::utf8::encode_utf8(message.id@)));
    key
}

} // verus!
