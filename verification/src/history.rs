//! Ordering, de-duplicating and bounding message history for backfill.

use vstd::prelude::*;

use crate::bytes_order::{compare_bytes, lex_lt, Cmp};
use crate::message::{ChatMessage, MessageView};

verus! {

/// The most messages a backfill returns.
pub const MAX_BACKFILL_MESSAGES: usize = 500;

/// The views of a list of messages.
pub open spec fn views(s: Seq<ChatMessage>) -> Seq<MessageView> {
    s.map_values(|m: ChatMessage| m@)
}

/// The UTF-8 bytes of a message id, by which ids are ordered.
pub open spec fn id_bytes(m: MessageView) -> Seq<u8> {
    vstd::utf8::encode_utf8(m.id)
}

/// `a` sorts strictly before `b`: by timestamp, then by id.
pub open spec fn key_lt(a: MessageView, b: MessageView) -> bool {
    a.ts < b.ts || (a.ts == b.ts && lex_lt(id_bytes(a), id_bytes(b)))
}

/// Inserts `m` into `d` after every element that does not sort after it.
pub open spec fn insert_stable(d: Seq<MessageView>, m: MessageView) -> Seq<MessageView>
    decreases d.len(),
{
    if d.len() == 0 {
        seq![m]
    } else if key_lt(m, d.last()) {
        insert_stable(d.drop_last(), m).push(d.last())
    } else {
        d.push(m)
    }
}

/// `c` sorted by timestamp, then id; messages with the same timestamp and id
/// keep their relative order (a stable sort).
pub open spec fn stable_sort(c: Seq<MessageView>) -> Seq<MessageView>
    decreases c.len(),
{
    if c.len() == 0 {
        Seq::empty()
    } else {
        insert_stable(stable_sort(c.drop_last()), c.last())
    }
}

/// `s` without each message whose id equals that of the message just
/// before it.
pub open spec fn dedup_ids(s: Seq<MessageView>) -> Seq<MessageView>
    decreases s.len(),
{
    if s.len() <= 1 {
        s
    } else if s.last().id == s[s.len() - 2].id {
        dedup_ids(s.drop_last())
    } else {
        dedup_ids(s.drop_last()).push(s.last())
    }
}

/// The last `n` elements of `s`, or all of them.
pub open spec fn keep_newest(s: Seq<MessageView>, n: nat) -> Seq<MessageView> {
    if s.len() > n {
        s.subrange(s.len() - n, s.len() as int)
    } else {
        s
    }
}

/// The messages of `s` newer than `since`, in order.
pub open spec fn newer_than(s: Seq<MessageView>, since: i64) -> Seq<MessageView>
    decreases s.len(),
{
    if s.len() == 0 {
        Seq::empty()
    } else if s.last().ts > since {
        newer_than(s.drop_last(), since).push(s.last())
    } else {
        newer_than(s.drop_last(), since)
    }
}

/// What a roost backfills from candidate messages: sorted by timestamp and
/// id, repeated ids next to each other dropped, at most the newest 500.
pub open spec fn backfill(c: Seq<MessageView>) -> Seq<MessageView> {
    keep_newest(dedup_ids(stable_sort(c)), MAX_BACKFILL_MESSAGES as nat)
}

/// Whether `a` sorts strictly before `b`.
pub fn message_key_lt(a: &ChatMessage, b: &ChatMessage) -> (r: bool)
    ensures
        r == key_lt(a@, b@),
{
    if a.ts < b.ts {
        true
    } else if a.ts > b.ts {
        false
    } else {
        let c = compare_bytes(a.id.as_str().as_bytes(), b.id.as_str().as_bytes());
        c == Cmp::Less
    }
}

proof fn lemma_insert_stable_at(d: Seq<MessageView>, m: MessageView, p: int)
    requires
        0 <= p <= d.len(),
        forall|q: int| p <= q < d.len() ==> key_lt(m, #[trigger] d[q]),
        p > 0 ==> !key_lt(m, d[p - 1]),
    ensures
        insert_stable(d, m) == d.subrange(0, p) + seq![m] + d.subrange(p, d.len() as int),
    decreases d.len(),
{
    if d.len() == 0 {
        assert(d.subrange(0, p) + seq![m] + d.subrange(p, d.len() as int) =~= seq![m]);
    } else if p == d.len() {
        assert(!key_lt(m, d.last()));
        assert(d.subrange(0, p) + seq![m] + d.subrange(p, d.len() as int) =~= d.push(m));
    } else {
        assert(key_lt(m, d.last()));
        let dl = d.drop_last();
        assert forall|q: int| p <= q < dl.len() implies key_lt(m, #[trigger] dl[q]) by {
            assert(dl[q] == d[q]);
        }
        lemma_insert_stable_at(dl, m, p);
        assert(dl.subrange(0, p) =~= d.subrange(0, p));
        assert((dl.subrange(0, p) + seq![m] + dl.subrange(p, dl.len() as int)).push(d.last())
            =~= d.subrange(0, p) + seq![m] + d.subrange(p, d.len() as int));
    }
}

/// Inserts `m` into `d` at its stable sorted place.
pub fn insert_message_stable(d: &mut Vec<ChatMessage>, m: ChatMessage)
    ensures
        views(final(d)@) == insert_stable(views(old(d)@), m@),
{
    let mut p: usize = d.len();
    while p > 0 && message_key_lt(&m, &d[p - 1])
        invariant
            p <= d.len(),
            d@ == old(d)@,
            forall|q: int| p <= q < d.len() ==> key_lt(m@, #[trigger] d@[q]@),
        decreases p,
    {
        p = p - 1;
    }
    let ghost dv = views(d@);
    proof {
        assert forall|q: int| p <= q < dv.len() implies key_lt(m@, #[trigger] dv[q]) by {
            assert(dv[q] == d@[q]@);
        }
        if p > 0 {
            assert(dv[p - 1] == d@[p - 1]@);
        }
        lemma_insert_stable_at(dv, m@, p as int);
    }
    d.insert(p, m);
    assert(views(d@) =~= dv.subrange(0, p as int) + seq![m@] + dv.subrange(p as int, dv.len() as int));
}

/// Sorts messages by timestamp, then id, keeping equal ones in their order.
pub fn sort_messages(c: Vec<ChatMessage>) -> (r: Vec<ChatMessage>)
    ensures
        views(r@) == stable_sort(views(c@)),
{
    let mut d: Vec<ChatMessage> = Vec::new();
    let n = c.len();
    let mut i: usize = 0;
    while i < n
        invariant
            n == c@.len(),
            i <= n,
            views(d@) == stable_sort(views(c@).subrange(0, i as int)),
        decreases n - i,
    {
        let m = c[i].duplicate();
        proof {
            let ci = views(c@).subrange(0, i + 1);
            assert(ci.drop_last() =~= views(c@).subrange(0, i as int));
            assert(ci.last() == c@[i as int]@);
        }
        insert_message_stable(&mut d, m);
        i = i + 1;
    }
    assert(views(c@).subrange(0, n as int) =~= views(c@));
    d
}

/// Drops each message whose id equals that of the message just before it.
pub fn dedup_messages(s: Vec<ChatMessage>) -> (r: Vec<ChatMessage>)
    ensures
        views(r@) == dedup_ids(views(s@)),
{
    let mut out: Vec<ChatMessage> = Vec::new();
    let n = s.len();
    let mut i: usize = 0;
    while i < n
        invariant
            n == s@.len(),
            i <= n,
            views(out@) == dedup_ids(views(s@).subrange(0, i as int)),
        decreases n - i,
    {
        let ghost si = views(s@).subrange(0, i + 1);
        proof {
            assert(si.drop_last() =~= views(s@).subrange(0, i as int));
            assert(si.last() == s@[i as int]@);
        }
        if i == 0 {
            out.push(s[i].duplicate());
            assert(views(out@) =~= si);
        } else if s[i].id == s[i - 1].id {
            assert(si[si.len() - 2] == s@[i - 1]@);
        } else {
            assert(si[si.len() - 2] == s@[i - 1]@);
            out.push(s[i].duplicate());
            assert(views(out@) =~= dedup_ids(si.drop_last()).push(si.last()));
        }
        i = i + 1;
    }
    assert(views(s@).subrange(0, n as int) =~= views(s@));
    out
}

/// The last `n` messages of `s`, or all of them.
pub fn keep_newest_messages(s: Vec<ChatMessage>, n: usize) -> (r: Vec<ChatMessage>)
    ensures
        views(r@) == keep_newest(views(s@), n as nat),
{
    let ghost original = s@;
    let mut s = s;
    if s.len() > n {
        let at = s.len() - n;
        let r = s.split_off(at);
        assert(views(r@) =~= keep_newest(views(original), n as nat));
        r
    } else {
        s
    }
}

/// The messages of `s` newer than `since`, in order.
pub fn messages_newer_than(s: &Vec<ChatMessage>, since: i64) -> (r: Vec<ChatMessage>)
    ensures
        views(r@) == newer_than(views(s@), since),
{
    let mut out: Vec<ChatMessage> = Vec::new();
    let n = s.len();
    let mut i: usize = 0;
    while i < n
        invariant
            n == s@.len(),
            i <= n,
            views(out@) == newer_than(views(s@).subrange(0, i as int), since),
        decreases n - i,
    {
        let ghost si = views(s@).subrange(0, i + 1);
        proof {
            assert(si.drop_last() =~= views(s@).subrange(0, i as int));
            assert(si.last() == s@[i as int]@);
        }
        if s[i].ts > since {
            out.push(s[i].duplicate());
            assert(views(out@) =~= newer_than(si.drop_last(), since).push(si.last()));
        }
        i = i + 1;
    }
    assert(views(s@).subrange(0, n as int) =~= views(s@));
    out
}

/// Sorts, de-duplicates and bounds candidate messages for a backfill.
pub fn backfill_messages(c: Vec<ChatMessage>) -> (r: Vec<ChatMessage>)
    ensures
        views(r@) == backfill(views(c@)),
{
    let sorted = sort_messages(c);
    let unique = dedup_messages(sorted);
    keep_newest_messages(unique, MAX_BACKFILL_MESSAGES)
}

} // verus!
