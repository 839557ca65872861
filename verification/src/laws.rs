//! Properties of the library as a whole, over the specifications its
//! functions are verified against.

use vstd::prelude::*;

use crate::backend::is_prefix_scan;
use crate::bytes_order::{
    has_prefix, lemma_lex_asymmetric, lemma_lex_common_prefix, lemma_lex_irreflexive, lemma_lex_total,
    lemma_lex_transitive, lex_lt,
};
use crate::codec::{message_tuple, message_tuples, postcard_history, postcard_message, postcard_message_decoded};
use crate::history::{
    backfill, dedup_ids, id_bytes, insert_stable, keep_newest, key_lt, newer_than, stable_sort, MAX_BACKFILL_MESSAGES,
};
use crate::keys::{
    be_bytes, channel_prefix_spec, legacy_prefix_spec, lemma_message_key_injective, message_key_spec, ordered_ts,
};
use crate::text::lemma_utf8_injective;
use crate::message::{ChatMessage, MessageView};
use crate::naming::{is_name_byte, is_valid_name};
use crate::setup::{step_spec, Action, Key, SetupView};
use crate::store::{
    all_decode, decoded, entry_values, lemma_prefix_scan_unique, scan_of, scanned_values, secret_loaded, since_spec,
};
use crate::sync::{lemma_oldest_to_drop_bound, oldest_to_drop, recent_spec};

verus! {

/// A valid roost or channel name holds no path separator, no dot and no
/// NUL byte, so a path or key built from it stays where it belongs.
pub proof fn law_valid_names_stay_in_place(name: Seq<u8>)
    requires
        is_valid_name(name),
    ensures
        forall|i: int|
            0 <= i < name.len() ==> #[trigger] name[i] != 0x2fu8 && name[i] != 0x5cu8 && name[i]
                != 0x2eu8 && name[i] != 0u8,
{
    assert forall|i: int| 0 <= i < name.len() implies #[trigger] name[i] != 0x2fu8 && name[i] != 0x5cu8
        && name[i] != 0x2eu8 && name[i] != 0u8 by {
        assert(is_name_byte(name[i]));
    }
}

/// Appending two messages of one channel with equal timestamps but
/// different ids keeps both: the second never overwrites the first.
pub proof fn law_equal_timestamps_coexist(
    m: Map<Seq<u8>, Seq<u8>>,
    channel: Seq<u8>,
    ts: i64,
    id1: Seq<u8>,
    v1: Seq<u8>,
    id2: Seq<u8>,
    v2: Seq<u8>,
)
    requires
        id1 != id2,
    ensures
        ({
            let k1 = message_key_spec(channel, ts, id1);
            let k2 = message_key_spec(channel, ts, id2);
            let after = m.insert(k1, v1).insert(k2, v2);
            &&& after.contains_key(k1) && after[k1] == v1
            &&& after.contains_key(k2) && after[k2] == v2
        }),
{
    let k1 = message_key_spec(channel, ts, id1);
    let k2 = message_key_spec(channel, ts, id2);
    if k1 == k2 {
        lemma_message_key_injective(channel, ts, id1, ts, id2);
    }
}

/// Once a secret has been loaded or minted, loading it again returns the
/// same bytes and leaves the store as it was: channel and control secrets
/// are stable across loads.
pub proof fn law_secret_stable(
    m0: Map<Seq<u8>, Seq<u8>>,
    m1: Map<Seq<u8>, Seq<u8>>,
    m2: Map<Seq<u8>, Seq<u8>>,
    key: Seq<u8>,
    first: Seq<u8>,
    second: Seq<u8>,
)
    requires
        secret_loaded(m0, m1, key, first),
        secret_loaded(m1, m2, key, second),
    ensures
        second == first,
        m2 == m1,
{
}

/// Two messages have the same key: the same timestamp and id.
pub open spec fn same_key(a: MessageView, b: MessageView) -> bool {
    a.ts == b.ts && id_bytes(a) == id_bytes(b)
}

/// `s` is sorted by timestamp, then id: no element sorts before an earlier one.
pub open spec fn sorted_by_key(s: Seq<MessageView>) -> bool {
    forall|i: int, j: int| 0 <= i < j < s.len() ==> !key_lt(#[trigger] s[j], #[trigger] s[i])
}

proof fn lemma_key_lt_asymmetric(a: MessageView, b: MessageView)
    ensures
        !(key_lt(a, b) && key_lt(b, a)),
{
    lemma_lex_asymmetric(id_bytes(a), id_bytes(b));
}

proof fn lemma_key_lt_transitive(a: MessageView, b: MessageView, c: MessageView)
    requires
        key_lt(a, b),
        key_lt(b, c),
    ensures
        key_lt(a, c),
{
    if a.ts == b.ts && b.ts == c.ts {
        lemma_lex_transitive(id_bytes(a), id_bytes(b), id_bytes(c));
    }
}

/// `a < b` and `b <= c` give `a < c`.
proof fn lemma_key_lt_le(a: MessageView, b: MessageView, c: MessageView)
    requires
        key_lt(a, b),
        !key_lt(c, b),
    ensures
        key_lt(a, c),
{
    if id_bytes(b) != id_bytes(c) {
        lemma_lex_total(id_bytes(b), id_bytes(c));
    }
    if key_lt(b, c) {
        lemma_key_lt_transitive(a, b, c);
    }
}

proof fn lemma_insert_stable_elements(d: Seq<MessageView>, m: MessageView)
    ensures
        insert_stable(d, m).len() == d.len() + 1,
        forall|x: MessageView| #[trigger] insert_stable(d, m).contains(x) ==> d.contains(x) || x == m,
    decreases d.len(),
{
    if d.len() == 0 {
        assert forall|x: MessageView| #[trigger] insert_stable(d, m).contains(x) implies d.contains(x)
            || x == m by {
            assert(insert_stable(d, m) =~= seq![m]);
        }
    } else if key_lt(m, d.last()) {
        let dl = d.drop_last();
        lemma_insert_stable_elements(dl, m);
        assert forall|x: MessageView| #[trigger] insert_stable(d, m).contains(x) implies d.contains(x)
            || x == m by {
            let r = insert_stable(dl, m).push(d.last());
            let i = choose|i: int| 0 <= i < r.len() && r[i] == x;
            if i < r.len() - 1 {
                assert(insert_stable(dl, m).contains(x));
                if dl.contains(x) {
                    let j = choose|j: int| 0 <= j < dl.len() && dl[j] == x;
                    assert(d[j] == x);
                }
            } else {
                assert(d[d.len() - 1] == x);
            }
        }
    } else {
        assert forall|x: MessageView| #[trigger] insert_stable(d, m).contains(x) implies d.contains(x)
            || x == m by {
            let r = d.push(m);
            let i = choose|i: int| 0 <= i < r.len() && r[i] == x;
            if i < d.len() {
                assert(d[i] == x);
            }
        }
    }
}

proof fn lemma_insert_stable_sorted(d: Seq<MessageView>, m: MessageView)
    requires
        sorted_by_key(d),
    ensures
        sorted_by_key(insert_stable(d, m)),
    decreases d.len(),
{
    if d.len() == 0 {
        assert(insert_stable(d, m) =~= seq![m]);
    } else if key_lt(m, d.last()) {
        let dl = d.drop_last();
        let last = d.last();
        assert(sorted_by_key(dl)) by {
            assert forall|i: int, j: int| 0 <= i < j < dl.len() implies !key_lt(
                #[trigger] dl[j],
                #[trigger] dl[i],
            ) by {
                assert(dl[i] == d[i] && dl[j] == d[j]);
            }
        }
        lemma_insert_stable_sorted(dl, m);
        lemma_insert_stable_elements(dl, m);
        let r0 = insert_stable(dl, m);
        let r = r0.push(last);
        assert forall|i: int, j: int| 0 <= i < j < r.len() implies !key_lt(
            #[trigger] r[j],
            #[trigger] r[i],
        ) by {
            if j < r.len() - 1 {
                assert(r[i] == r0[i] && r[j] == r0[j]);
            } else {
                assert(r[j] == last);
                assert(r0.contains(r[i]));
                if r[i] == m {
                    lemma_key_lt_asymmetric(m, last);
                } else {
                    let k = choose|k: int| 0 <= k < dl.len() && dl[k] == r[i];
                    assert(d[k] == r[i]);
                    assert(!key_lt(d[d.len() - 1], d[k]));
                }
            }
        }
    } else {
        let r = d.push(m);
        assert forall|i: int, j: int| 0 <= i < j < r.len() implies !key_lt(
            #[trigger] r[j],
            #[trigger] r[i],
        ) by {
            if j < d.len() {
                assert(r[i] == d[i] && r[j] == d[j]);
            } else {
                assert(r[j] == m);
                if i < d.len() - 1 {
                    assert(!key_lt(d[d.len() - 1], d[i]));
                    if key_lt(m, d[i]) {
                        lemma_key_lt_le(m, d[i], d[d.len() - 1]);
                    }
                } else {
                    assert(r[i] == d.last());
                }
            }
        }
    }
}

proof fn lemma_stable_sort(c: Seq<MessageView>)
    ensures
        sorted_by_key(stable_sort(c)),
        stable_sort(c).len() == c.len(),
        forall|x: MessageView| #[trigger] stable_sort(c).contains(x) ==> c.contains(x),
    decreases c.len(),
{
    if c.len() > 0 {
        let cl = c.drop_last();
        lemma_stable_sort(cl);
        lemma_insert_stable_sorted(stable_sort(cl), c.last());
        lemma_insert_stable_elements(stable_sort(cl), c.last());
        assert forall|x: MessageView| #[trigger] stable_sort(c).contains(x) implies c.contains(x) by {
            if stable_sort(cl).contains(x) {
                let j = choose|j: int| 0 <= j < cl.len() && cl[j] == x;
                assert(c[j] == x);
            } else {
                assert(c[c.len() - 1] == x);
            }
        }
    } else {
        assert(stable_sort(c) =~= Seq::<MessageView>::empty());
    }
}

proof fn lemma_dedup(s: Seq<MessageView>)
    requires
        sorted_by_key(s),
    ensures
        sorted_by_key(dedup_ids(s)),
        dedup_ids(s).len() <= s.len(),
        forall|x: MessageView| #[trigger] dedup_ids(s).contains(x) ==> s.contains(x),
    decreases s.len(),
{
    if s.len() > 1 {
        let sl = s.drop_last();
        assert(sorted_by_key(sl)) by {
            assert forall|i: int, j: int| 0 <= i < j < sl.len() implies !key_lt(
                #[trigger] sl[j],
                #[trigger] sl[i],
            ) by {
                assert(sl[i] == s[i] && sl[j] == s[j]);
            }
        }
        lemma_dedup(sl);
        let d0 = dedup_ids(sl);
        assert forall|x: MessageView| #[trigger] d0.contains(x) implies s.contains(x) by {
            let j = choose|j: int| 0 <= j < sl.len() && sl[j] == x;
            assert(s[j] == x);
        }
        if s.last().id != s[s.len() - 2].id {
            let r = d0.push(s.last());
            assert forall|i: int, j: int| 0 <= i < j < r.len() implies !key_lt(
                #[trigger] r[j],
                #[trigger] r[i],
            ) by {
                if j < r.len() - 1 {
                    assert(r[i] == d0[i] && r[j] == d0[j]);
                } else {
                    assert(d0.contains(r[i]));
                    let k = choose|k: int| 0 <= k < sl.len() && sl[k] == r[i];
                    assert(s[k] == r[i]);
                    assert(!key_lt(s[s.len() - 1], s[k]));
                }
            }
            assert forall|x: MessageView| #[trigger] r.contains(x) implies s.contains(x) by {
                let i = choose|i: int| 0 <= i < r.len() && r[i] == x;
                if i < r.len() - 1 {
                    assert(d0.contains(x));
                } else {
                    assert(s[s.len() - 1] == x);
                }
            }
        }
    }
}

/// What a roost backfills is at most 500 messages, each strictly newer than
/// the requested timestamp, each one of the stored candidates, in order of
/// timestamp and then id.
pub proof fn law_backfill_bounded_sorted_newer(c: Seq<MessageView>, since: i64)
    ensures
        ({
            let r = backfill(newer_than(c, since));
            &&& r.len() <= MAX_BACKFILL_MESSAGES
            &&& sorted_by_key(r)
            &&& forall|i: int| 0 <= i < r.len() ==> (#[trigger] r[i]).ts > since && c.contains(r[i])
        }),
{
    let n = newer_than(c, since);
    lemma_newer_than(c, since);
    lemma_stable_sort(n);
    lemma_dedup(stable_sort(n));
    let d = dedup_ids(stable_sort(n));
    let r = backfill(n);
    assert(r == keep_newest(d, MAX_BACKFILL_MESSAGES as nat));
    let off: int = if d.len() > MAX_BACKFILL_MESSAGES { d.len() - MAX_BACKFILL_MESSAGES } else { 0 };
    assert forall|i: int| 0 <= i < r.len() implies r[i] == d[i + off] by {}
    assert forall|i: int, j: int| 0 <= i < j < r.len() implies !key_lt(#[trigger] r[j], #[trigger] r[i]) by {
        assert(r[i] == d[i + off] && r[j] == d[j + off]);
    }
    assert forall|i: int| 0 <= i < r.len() implies (#[trigger] r[i]).ts > since && c.contains(r[i]) by {
        assert(d.contains(d[i + off]));
        assert(stable_sort(n).contains(r[i]));
        assert(n.contains(r[i]));
    }
}

proof fn lemma_newer_than(c: Seq<MessageView>, since: i64)
    ensures
        newer_than(c, since).len() <= c.len(),
        forall|x: MessageView| #[trigger] newer_than(c, since).contains(x) ==> x.ts > since && c.contains(x),
    decreases c.len(),
{
    if c.len() > 0 {
        let cl = c.drop_last();
        lemma_newer_than(cl, since);
        assert forall|x: MessageView| #[trigger] newer_than(c, since).contains(x) implies x.ts > since
            && c.contains(x) by {
            let r = newer_than(c, since);
            let i = choose|i: int| 0 <= i < r.len() && r[i] == x;
            if newer_than(cl, since).contains(x) {
                let j = choose|j: int| 0 <= j < cl.len() && cl[j] == x;
                assert(c[j] == x);
            } else {
                assert(c.last().ts > since);
                assert(r == newer_than(cl, since).push(c.last()));
                assert(x == c.last());
                assert(c[c.len() - 1] == x);
            }
        }
    }
}

/// What a bird serves for a backfill is at most 500 messages, each strictly
/// newer than the requested timestamp and taken from its scrollback.
pub proof fn law_recent_bounded_newer(s: Seq<MessageView>, since: i64)
    ensures
        ({
            let r = recent_spec(s, since);
            &&& r.len() <= MAX_BACKFILL_MESSAGES
            &&& forall|i: int| 0 <= i < r.len() ==> (#[trigger] r[i]).ts > since && s.contains(r[i])
        }),
{
    lemma_newer_than(s, since);
    let n = newer_than(s, since);
    let r = recent_spec(s, since);
    let off: int = if n.len() > MAX_BACKFILL_MESSAGES { n.len() - MAX_BACKFILL_MESSAGES } else { 0 };
    assert forall|i: int| 0 <= i < r.len() implies (#[trigger] r[i]).ts > since && s.contains(r[i]) by {
        assert(r[i] == n[i + off]);
        assert(n.contains(n[i + off]));
    }
}

/// A roost's history response keeps the newest messages whose encoding
/// fits: what it keeps fits the limit unless nothing is kept, and keeping
/// one more of the dropped messages would not fit.
pub proof fn law_history_response_fits(h: Seq<ChatMessage>, limit: nat)
    ensures
        ({
            let k = oldest_to_drop(h, limit);
            let kept = h.subrange(k as int, h.len() as int);
            &&& k <= h.len()
            &&& kept.len() == 0 || postcard_history(message_tuples(kept)).len() <= limit
            &&& k > 0 ==> postcard_history(message_tuples(h.subrange(k - 1, h.len() as int))).len()
                > limit
        }),
    decreases h.len(),
{
    lemma_oldest_to_drop_bound(h, limit);
    let k = oldest_to_drop(h, limit);
    if h.len() == 0 || postcard_history(message_tuples(h)).len() <= limit {
        assert(h.subrange(0, h.len() as int) =~= h);
    } else {
        let t = h.drop_first();
        law_history_response_fits(t, limit);
        assert(h.subrange(k as int, h.len() as int) =~= t.subrange(k - 1, t.len() as int));
        if k > 1 {
            assert(h.subrange(k - 1, h.len() as int) =~= t.subrange(k - 2, t.len() as int));
        } else {
            assert(h.subrange(0, h.len() as int) =~= h);
        }
    }
}

/// Escape leaves the setup wizard from any step, without changing anything.
pub proof fn law_escape_cancels_setup(s: SetupView)
    ensures
        step_spec(s, Key::Esc) == (s, Action::Cancel),
{
}

/// What a read gives back of a write: after a message is appended to a
/// channel that held no messages, a backfill of that channel from any
/// earlier timestamp returns exactly that message.
pub proof fn law_append_then_backfill(
    m0: Map<Seq<u8>, Seq<u8>>,
    channel: Seq<u8>,
    msg: MessageView,
    since: i64,
)
    requires
        is_valid_name(channel),
        forall|k: Seq<u8>|
            #[trigger] m0.contains_key(k) ==> !has_prefix(k, channel_prefix_spec(channel))
                && !has_prefix(k, legacy_prefix_spec(channel)),
        postcard_message_decoded(postcard_message(msg.id, msg.author, msg.body, msg.ts)) == Some(
            message_tuple(msg),
        ),
        since < msg.ts,
    ensures
        ({
            let m1 = m0.insert(
                message_key_spec(channel, msg.ts, vstd::utf8::encode_utf8(msg.id)),
                postcard_message(msg.id, msg.author, msg.body, msg.ts),
            );
            &&& all_decode(scanned_values(m1, channel))
            &&& since_spec(m1, channel, since) == seq![msg]
        }),
{
    let k = message_key_spec(channel, msg.ts, vstd::utf8::encode_utf8(msg.id));
    let v = postcard_message(msg.id, msg.author, msg.body, msg.ts);
    let m1 = m0.insert(k, v);
    let p = channel_prefix_spec(channel);
    let lp = legacy_prefix_spec(channel);
    let s1 = seq![(k, v)];
    let s2 = Seq::<(Seq<u8>, Seq<u8>)>::empty();
    assert(has_prefix(k, p)) by {
        assert(k.subrange(0, p.len() as int) =~= p);
    }
    assert(is_name_byte(channel[0]));
    assert(!has_prefix(k, lp)) by {
        if has_prefix(k, lp) {
            assert(k[0] == lp[0]);
        }
    }
    assert(is_prefix_scan(s1, m1, p)) by {
        assert forall|key: Seq<u8>| #[trigger] m1.contains_key(key) && has_prefix(key, p) implies exists|i: int|
            0 <= i < s1.len() && s1[i].0 == key by {
            if key != k {
                assert(m0.contains_key(key));
            }
            assert(s1[0].0 == k);
        }
    }
    assert(is_prefix_scan(s2, m1, lp)) by {
        assert forall|key: Seq<u8>| #[trigger] m1.contains_key(key) && has_prefix(key, lp) implies exists|i: int|
            0 <= i < s2.len() && s2[i].0 == key by {
            if key != k {
                assert(m0.contains_key(key));
            }
        }
    }
    lemma_prefix_scan_unique(s1, scan_of(m1, p), m1, p);
    lemma_prefix_scan_unique(s2, scan_of(m1, lp), m1, lp);
    let vals = scanned_values(m1, channel);
    assert(entry_values(s1) =~= seq![v]);
    assert(entry_values(s2) =~= Seq::<Seq<u8>>::empty());
    assert(vals =~= seq![v]);
    assert(decoded(vals) =~= seq![msg]);
    let one = seq![msg];
    assert(newer_than(one, since) =~= newer_than(one.drop_last(), since).push(msg));
    assert(newer_than(one.drop_last(), since) =~= Seq::<MessageView>::empty());
    assert(stable_sort(one) == insert_stable(stable_sort(one.drop_last()), msg));
    assert(stable_sort(one.drop_last()) =~= Seq::<MessageView>::empty());
    assert(insert_stable(Seq::<MessageView>::empty(), msg) =~= one);
    assert(dedup_ids(one) == one);
}

/// Two messages of an empty channel with equal timestamps, `a` sorting
/// before `b` by id, are each backfilled once, in that order.
#[verifier::spinoff_prover]
#[verifier::rlimit(50)]
proof fn lemma_two_messages_backfill(m0: Map<Seq<u8>, Seq<u8>>, channel: Seq<u8>, a: MessageView, b: MessageView, since: i64)
    requires
        is_valid_name(channel),
        forall|k: Seq<u8>|
            #[trigger] m0.contains_key(k) ==> !has_prefix(k, channel_prefix_spec(channel))
                && !has_prefix(k, legacy_prefix_spec(channel)),
        postcard_message_decoded(postcard_message(a.id, a.author, a.body, a.ts)) == Some(message_tuple(a)),
        postcard_message_decoded(postcard_message(b.id, b.author, b.body, b.ts)) == Some(message_tuple(b)),
        a.ts == b.ts,
        since < a.ts,
        lex_lt(id_bytes(a), id_bytes(b)),
    ensures
        ({
            let m = m0.insert(
                message_key_spec(channel, a.ts, id_bytes(a)),
                postcard_message(a.id, a.author, a.body, a.ts),
            ).insert(message_key_spec(channel, b.ts, id_bytes(b)), postcard_message(b.id, b.author, b.body, b.ts));
            &&& all_decode(scanned_values(m, channel))
            &&& since_spec(m, channel, since) == seq![a, b]
        }),
{
    let ka = message_key_spec(channel, a.ts, id_bytes(a));
    let kb = message_key_spec(channel, b.ts, id_bytes(b));
    let va = postcard_message(a.id, a.author, a.body, a.ts);
    let vb = postcard_message(b.id, b.author, b.body, b.ts);
    let m = m0.insert(ka, va).insert(kb, vb);
    let p = channel_prefix_spec(channel);
    let lp = legacy_prefix_spec(channel);
    let q = p + be_bytes(ordered_ts(a.ts), 8);
    assert(ka =~= q + id_bytes(a));
    assert(kb =~= q + id_bytes(b));
    lemma_lex_common_prefix(q, id_bytes(a), id_bytes(b));
    assert(lex_lt(ka, kb));
    lemma_lex_irreflexive(ka);
    assert(ka != kb);
    assert(has_prefix(ka, p)) by {
        assert(ka.subrange(0, p.len() as int) =~= p);
    }
    assert(has_prefix(kb, p)) by {
        assert(kb.subrange(0, p.len() as int) =~= p);
    }
    assert(is_name_byte(channel[0]));
    assert(!has_prefix(ka, lp)) by {
        if has_prefix(ka, lp) {
            assert(ka[0] == lp[0]);
        }
    }
    assert(!has_prefix(kb, lp)) by {
        if has_prefix(kb, lp) {
            assert(kb[0] == lp[0]);
        }
    }
    let s1 = seq![(ka, va), (kb, vb)];
    let s2 = Seq::<(Seq<u8>, Seq<u8>)>::empty();
    assert(is_prefix_scan(s1, m, p)) by {
        assert forall|key: Seq<u8>| #[trigger] m.contains_key(key) && has_prefix(key, p) implies exists|i: int|
            0 <= i < s1.len() && s1[i].0 == key by {
            if key != ka && key != kb {
                assert(m0.contains_key(key));
            } else if key == ka {
                assert(s1[0].0 == key);
            } else {
                assert(s1[1].0 == key);
            }
        }
    }
    assert(is_prefix_scan(s2, m, lp)) by {
        assert forall|key: Seq<u8>| #[trigger] m.contains_key(key) && has_prefix(key, lp) implies exists|i: int|
            0 <= i < s2.len() && s2[i].0 == key by {
            if key != ka && key != kb {
                assert(m0.contains_key(key));
            }
        }
    }
    lemma_prefix_scan_unique(s1, scan_of(m, p), m, p);
    lemma_prefix_scan_unique(s2, scan_of(m, lp), m, lp);
    let vals = scanned_values(m, channel);
    assert(entry_values(s1) =~= seq![va, vb]);
    assert(entry_values(s2) =~= Seq::<Seq<u8>>::empty());
    assert(vals =~= seq![va, vb]);
    assert(decoded(vals) =~= seq![a, b]);
    let two = seq![a, b];
    let one = seq![a];
    assert(two.drop_last() =~= one);
    assert(one.drop_last() =~= Seq::<MessageView>::empty());
    assert(newer_than(one.drop_last(), since) =~= Seq::<MessageView>::empty());
    assert(newer_than(one, since) =~= newer_than(one.drop_last(), since).push(a));
    assert(newer_than(one, since) =~= one);
    assert(newer_than(two, since) =~= newer_than(one, since).push(b));
    assert(newer_than(two, since) =~= two);
    assert(stable_sort(one.drop_last()) =~= Seq::<MessageView>::empty());
    assert(insert_stable(Seq::<MessageView>::empty(), a) =~= one);
    assert(stable_sort(one) == one);
    lemma_lex_asymmetric(id_bytes(a), id_bytes(b));
    assert(!key_lt(b, a));
    assert(stable_sort(two) == insert_stable(one, b));
    assert(insert_stable(one, b) =~= two);
    assert(a.id != b.id) by {
        lemma_lex_irreflexive(id_bytes(a));
    }
    assert(dedup_ids(one) == one);
    assert(dedup_ids(two) =~= two);
}

/// Two messages of a channel with equal timestamps and different ids are
/// each listed once by a backfill, in the order of their ids, also when the
/// second was appended twice: neither overwrites the other, and a repeated
/// append writes the same entry again.
#[verifier::spinoff_prover]
#[verifier::rlimit(50)]
pub proof fn law_equal_timestamps_listed_once(
    m0: Map<Seq<u8>, Seq<u8>>,
    channel: Seq<u8>,
    a: MessageView,
    b: MessageView,
    since: i64,
)
    requires
        is_valid_name(channel),
        forall|k: Seq<u8>|
            #[trigger] m0.contains_key(k) ==> !has_prefix(k, channel_prefix_spec(channel))
                && !has_prefix(k, legacy_prefix_spec(channel)),
        postcard_message_decoded(postcard_message(a.id, a.author, a.body, a.ts)) == Some(message_tuple(a)),
        postcard_message_decoded(postcard_message(b.id, b.author, b.body, b.ts)) == Some(message_tuple(b)),
        a.ts == b.ts,
        since < a.ts,
        a.id != b.id,
    ensures
        ({
            let ka = message_key_spec(channel, a.ts, id_bytes(a));
            let kb = message_key_spec(channel, b.ts, id_bytes(b));
            let va = postcard_message(a.id, a.author, a.body, a.ts);
            let vb = postcard_message(b.id, b.author, b.body, b.ts);
            let m = m0.insert(ka, va).insert(kb, vb).insert(kb, vb);
            &&& all_decode(scanned_values(m, channel))
            &&& since_spec(m, channel, since) == if lex_lt(id_bytes(a), id_bytes(b)) {
                seq![a, b]
            } else {
                seq![b, a]
            }
        }),
{
    let ka = message_key_spec(channel, a.ts, id_bytes(a));
    let kb = message_key_spec(channel, b.ts, id_bytes(b));
    let va = postcard_message(a.id, a.author, a.body, a.ts);
    let vb = postcard_message(b.id, b.author, b.body, b.ts);
    if id_bytes(a) == id_bytes(b) {
        lemma_utf8_injective(a.id, b.id);
    }
    lemma_lex_total(id_bytes(a), id_bytes(b));
    assert(ka != kb) by {
        if ka == kb {
            lemma_message_key_injective(channel, a.ts, id_bytes(a), b.ts, id_bytes(b));
        }
    }
    let m = m0.insert(ka, va).insert(kb, vb).insert(kb, vb);
    assert(m =~= m0.insert(ka, va).insert(kb, vb));
    if lex_lt(id_bytes(a), id_bytes(b)) {
        lemma_two_messages_backfill(m0, channel, a, b, since);
    } else {
        assert(m =~= m0.insert(kb, vb).insert(ka, va));
        lemma_two_messages_backfill(m0, channel, b, a, since);
    }
}


/// The test a backfill applies to each scrollback message: newer than `since`.
pub open spec fn is_newer_than(since: i64) -> spec_fn(MessageView) -> bool {
    |m: MessageView| m.ts > since
}

proof fn lemma_newer_than_is_filter(s: Seq<MessageView>, since: i64)
    ensures
        newer_than(s, since) == s.filter(is_newer_than(since)),
    decreases s.len(),
{
    reveal(Seq::filter);
    if s.len() > 0 {
        lemma_newer_than_is_filter(s.drop_last(), since);
    }
}

/// A bird serves for a backfill the newest of its scrollback's messages
/// newer than `since`, in scrollback order: all of them when there are at
/// most 500, else the last 500. So when the scrollback holds at most 500
/// messages, every message in it newer than `since` is served.
pub proof fn law_recent_serves_newest_newer(s: Seq<MessageView>, since: i64)
    ensures
        ({
            let f = s.filter(is_newer_than(since));
            let r = recent_spec(s, since);
            &&& r.len() == if f.len() > MAX_BACKFILL_MESSAGES { MAX_BACKFILL_MESSAGES as int } else { f.len() as int }
            &&& r == f.subrange(f.len() - r.len(), f.len() as int)
        }),
        s.len() <= MAX_BACKFILL_MESSAGES ==> recent_spec(s, since) == s.filter(is_newer_than(since)),
        s.len() <= MAX_BACKFILL_MESSAGES ==> forall|i: int|
            0 <= i < s.len() && #[trigger] s[i].ts > since ==> recent_spec(s, since).contains(s[i]),
{
    lemma_newer_than_is_filter(s, since);
    lemma_newer_than(s, since);
    let f = s.filter(is_newer_than(since));
    let r = recent_spec(s, since);
    if f.len() <= MAX_BACKFILL_MESSAGES {
        assert(f.subrange(0, f.len() as int) =~= f);
    }
    if s.len() <= MAX_BACKFILL_MESSAGES {
        s.filter_lemma(is_newer_than(since));
        assert forall|i: int| 0 <= i < s.len() && #[trigger] s[i].ts > since implies r.contains(s[i]) by {
            assert(is_newer_than(since)(s[i]));
        }
    }
}

} // verus!
