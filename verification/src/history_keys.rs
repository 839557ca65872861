//! Keys and commit checks of the durable event history. Every index is
//! keyed under the postcard encoding of the event's space (the "space key"):
//! the events tree by event hash, the sequence index by sender, session and
//! sequence number, and the sender heads by sender. A commit of a batch of
//! events goes through only when the space's head is still the one the
//! batch was validated against and no event or sequence slot of the batch is
//! taken, so that it never overwrites stored history.

use vstd::prelude::*;

use crate::bytes_order::{compare_bytes, lemma_lex_irreflexive, Cmp};
use crate::error::RoostError;
use crate::keys::{be_bytes, lemma_be_bytes_len, lemma_be_bytes_order, pow256, u64_be_bytes};

verus! {

/// The key of an event in the events tree.
pub open spec fn event_key_spec(space: Seq<u8>, hash: Seq<u8>) -> Seq<u8> {
    space + hash
}

/// The key of a sender's latest event in the sender heads tree.
pub open spec fn sender_key_spec(space: Seq<u8>, sender: Seq<u8>) -> Seq<u8> {
    space + sender
}

/// The key of a (sender, session, sequence) slot in the sequence index.
pub open spec fn sequence_key_spec(space: Seq<u8>, sender: Seq<u8>, session: Seq<u8>, sequence: u64) -> Seq<u8> {
    space + sender + session + be_bytes(sequence as nat, 8)
}

/// The events-tree key of the event with this hash in the space.
pub fn event_key(space_key: &[u8], hash: &[u8; 32]) -> (k: Vec<u8>)
    ensures
        k@ == event_key_spec(space_key@, hash@),
{
    let mut k: Vec<u8> = Vec::new();
    k.extend_from_slice(space_key);
    k.extend_from_slice(hash);
    assert(k@ =~= event_key_spec(space_key@, hash@));
    k
}

/// The sequence-index key of a sender's event `sequence` in `session`.
pub fn sequence_key(space_key: &[u8], sender: &[u8; 32], session: &[u8; 16], sequence: u64) -> (k: Vec<u8>)
    ensures
        k@ == sequence_key_spec(space_key@, sender@, session@, sequence),
{
    let mut k: Vec<u8> = Vec::new();
    k.extend_from_slice(space_key);
    k.extend_from_slice(sender);
    k.extend_from_slice(session);
    let be = u64_be_bytes(sequence);
    k.extend_from_slice(&be);
    assert(k@ =~= sequence_key_spec(space_key@, sender@, session@, sequence));
    k
}

/// The sender-heads key of a sender in the space.
pub fn sender_key(space_key: &[u8], sender: &[u8; 32]) -> (k: Vec<u8>)
    ensures
        k@ == sender_key_spec(space_key@, sender@),
{
    let mut k: Vec<u8> = Vec::new();
    k.extend_from_slice(space_key);
    k.extend_from_slice(sender);
    assert(k@ =~= sender_key_spec(space_key@, sender@));
    k
}

/// A stored event hash: exactly 32 bytes, else the value is refused.
pub fn hash_value(value: &[u8]) -> (r: Result<[u8; 32], RoostError>)
    ensures
        match r {
            Ok(h) => value@.len() == 32 && h@ == value@,
            Err(e) => value@.len() != 32 && e == RoostError::Decode,
        },
{
    if value.len() != 32 {
        return Err(RoostError::Decode);
    }
    let mut h: [u8; 32] = [0u8; 32];
    let mut i: usize = 0;
    while i < 32
        invariant
            value@.len() == 32,
            h@.len() == 32,
            i <= 32,
            forall|j: int| 0 <= j < i ==> h@[j] == value@[j],
        decreases 32 - i,
    {
        h[i] = value[i];
        i = i + 1;
    }
    assert(h@ =~= value@);
    Ok(h)
}

proof fn lemma_be_bytes_u64_injective(a: u64, b: u64)
    requires
        be_bytes(a as nat, 8) == be_bytes(b as nat, 8),
    ensures
        a == b,
{
    assert(pow256(8) == 0x1_0000_0000_0000_0000nat) by {
        reveal_with_fuel(pow256, 9);
    }
    if a < b {
        lemma_be_bytes_order(a as nat, b as nat, 8);
        lemma_lex_irreflexive(be_bytes(a as nat, 8));
    } else if b < a {
        lemma_be_bytes_order(b as nat, a as nat, 8);
        lemma_lex_irreflexive(be_bytes(b as nat, 8));
    }
}

/// Within one space, two sequence-index slots share a key only when they
/// are the same slot: same sender, same session, same sequence number.
pub proof fn law_sequence_slots_distinct(
    space: Seq<u8>,
    sender1: [u8; 32],
    session1: [u8; 16],
    sequence1: u64,
    sender2: [u8; 32],
    session2: [u8; 16],
    sequence2: u64,
)
    requires
        sequence_key_spec(space, sender1@, session1@, sequence1) == sequence_key_spec(
            space,
            sender2@,
            session2@,
            sequence2,
        ),
    ensures
        sender1@ == sender2@,
        session1@ == session2@,
        sequence1 == sequence2,
{
    let k1 = sequence_key_spec(space, sender1@, session1@, sequence1);
    let k2 = sequence_key_spec(space, sender2@, session2@, sequence2);
    let n = space.len() as int;
    lemma_be_bytes_len(sequence1 as nat, 8);
    lemma_be_bytes_len(sequence2 as nat, 8);
    assert(sender1@ =~= k1.subrange(n, n + 32));
    assert(sender2@ =~= k2.subrange(n, n + 32));
    assert(session1@ =~= k1.subrange(n + 32, n + 48));
    assert(session2@ =~= k2.subrange(n + 32, n + 48));
    assert(be_bytes(sequence1 as nat, 8) =~= k1.subrange(n + 48, n + 56));
    assert(be_bytes(sequence2 as nat, 8) =~= k2.subrange(n + 48, n + 56));
    lemma_be_bytes_u64_injective(sequence1, sequence2);
}

/// Within one space, events with different hashes are stored under
/// different keys, and so are the heads of different senders.
pub proof fn law_event_and_sender_keys_distinct(space: Seq<u8>, a: [u8; 32], b: [u8; 32])
    requires
        a@ != b@,
    ensures
        event_key_spec(space, a@) != event_key_spec(space, b@),
        sender_key_spec(space, a@) != sender_key_spec(space, b@),
{
    let n = space.len() as int;
    assert(event_key_spec(space, a@).subrange(n, n + 32) =~= a@);
    assert(event_key_spec(space, b@).subrange(n, n + 32) =~= b@);
}

/// An event staged for a history commit: its three index keys, its hash
/// and its canonical encoding.
pub struct StagedEvent {
    pub event_key: Vec<u8>,
    pub sequence_key: Vec<u8>,
    pub sender_key: Vec<u8>,
    pub hash: [u8; 32],
    pub encoded: Vec<u8>,
}

/// Stages an event of the space for a commit.
pub fn stage_event(
    space_key: &[u8],
    hash: [u8; 32],
    sender: &[u8; 32],
    session: &[u8; 16],
    sequence: u64,
    encoded: Vec<u8>,
) -> (r: StagedEvent)
    ensures
        r.event_key@ == event_key_spec(space_key@, hash@),
        r.sequence_key@ == sequence_key_spec(space_key@, sender@, session@, sequence),
        r.sender_key@ == sender_key_spec(space_key@, sender@),
        r.hash == hash,
        r.encoded@ == encoded@,
{
    StagedEvent {
        event_key: event_key(space_key, &hash),
        sequence_key: sequence_key(space_key, sender, session, sequence),
        sender_key: sender_key(space_key, sender),
        hash,
        encoded,
    }
}

/// Why a history commit is abandoned, with nothing written.
#[derive(Clone, Copy, Debug, PartialEq, Eq, Structural)]
pub enum CommitConflict {
    /// The space's head is no longer the one the batch was validated against.
    HeadChanged,
    /// An event or a sequence slot of the batch is already taken.
    AlreadyPresent,
}

/// The stored head bytes, if any.
pub open spec fn stored_head(actual: Option<&[u8]>) -> Option<Seq<u8>> {
    match actual {
        Some(v) => Some(v@),
        None => None,
    }
}

/// The stored head is the expected one: the same bytes, or no head at all
/// when the expected head is the empty one.
pub open spec fn head_matches(actual: Option<Seq<u8>>, expected: Seq<u8>, expected_is_empty: bool) -> bool {
    match actual {
        Some(v) => v == expected,
        None => expected_is_empty,
    }
}

/// The `i`-th staged event is new: its key and its sequence slot were not
/// stored before the commit, and no earlier event of the batch has either.
pub open spec fn fresh_at(staged: Seq<StagedEvent>, events_present: Seq<bool>, sequences_present: Seq<bool>, i: int) -> bool {
    &&& !events_present[i]
    &&& !sequences_present[i]
    &&& forall|j: int|
        0 <= j < i ==> (#[trigger] staged[j]).event_key@ != staged[i].event_key@ && staged[j].sequence_key@
            != staged[i].sequence_key@
}

/// Every staged event is new.
pub open spec fn all_fresh(staged: Seq<StagedEvent>, events_present: Seq<bool>, sequences_present: Seq<bool>) -> bool {
    forall|i: int| 0 <= i < staged.len() ==> #[trigger] fresh_at(staged, events_present, sequences_present, i)
}

fn bytes_equal(a: &Vec<u8>, b: &Vec<u8>) -> (r: bool)
    ensures
        r == (a@ == b@),
{
    compare_bytes(a.as_slice(), b.as_slice()) == Cmp::Equal
}

/// Decides a commit inside its transaction, from what the transaction read:
/// the stored head of the space, and for each staged event whether its key
/// is in the events tree and whether its sequence key is in the sequence
/// index. The head is checked first.
pub fn check_commit(
    actual_head: Option<&[u8]>,
    expected: &[u8],
    expected_is_empty: bool,
    staged: &Vec<StagedEvent>,
    events_present: &Vec<bool>,
    sequences_present: &Vec<bool>,
) -> (r: Result<(), CommitConflict>)
    requires
        events_present@.len() == staged@.len(),
        sequences_present@.len() == staged@.len(),
    ensures
        ({
            let head_ok = head_matches(stored_head(actual_head), expected@, expected_is_empty);
            let fresh = all_fresh(staged@, events_present@, sequences_present@);
            match r {
                Ok(()) => head_ok && fresh,
                Err(CommitConflict::HeadChanged) => !head_ok,
                Err(CommitConflict::AlreadyPresent) => head_ok && !fresh,
            }
        }),
{
    let head_ok = match actual_head {
        Some(v) => compare_bytes(v, expected) == Cmp::Equal,
        None => expected_is_empty,
    };
    if !head_ok {
        return Err(CommitConflict::HeadChanged);
    }
    let n = staged.len();
    let mut i: usize = 0;
    while i < n
        invariant
            n == staged@.len(),
            events_present@.len() == n,
            sequences_present@.len() == n,
            i <= n,
            head_matches(stored_head(actual_head), expected@, expected_is_empty),
            forall|k: int| 0 <= k < i ==> #[trigger] fresh_at(staged@, events_present@, sequences_present@, k),
        decreases n - i,
    {
        if events_present[i] || sequences_present[i] {
            assert(!fresh_at(staged@, events_present@, sequences_present@, i as int));
            assert(!all_fresh(staged@, events_present@, sequences_present@));
            return Err(CommitConflict::AlreadyPresent);
        }
        let mut j: usize = 0;
        while j < i
            invariant
                n == staged@.len(),
                events_present@.len() == n,
                sequences_present@.len() == n,
                i < n,
                j <= i,
                head_matches(stored_head(actual_head), expected@, expected_is_empty),
                forall|k: int|
                    0 <= k < j ==> (#[trigger] staged@[k]).event_key@ != staged@[i as int].event_key@
                        && staged@[k].sequence_key@ != staged@[i as int].sequence_key@,
            decreases i - j,
        {
            if bytes_equal(&staged[j].event_key, &staged[i].event_key) || bytes_equal(
                &staged[j].sequence_key,
                &staged[i].sequence_key,
            ) {
                assert(staged@[j as int].event_key@ == staged@[i as int].event_key@
                    || staged@[j as int].sequence_key@ == staged@[i as int].sequence_key@);
                assert(!fresh_at(staged@, events_present@, sequences_present@, i as int));
                assert(!all_fresh(staged@, events_present@, sequences_present@));
                return Err(CommitConflict::AlreadyPresent);
            }
            j = j + 1;
        }
        assert(fresh_at(staged@, events_present@, sequences_present@, i as int));
        i = i + 1;
    }
    Ok(())
}

/// A list of writes to one tree, as (key, value) bytes, in order.
pub open spec fn writes_view(w: Seq<(Vec<u8>, Vec<u8>)>) -> Seq<(Seq<u8>, Seq<u8>)> {
    w.map_values(|e: (Vec<u8>, Vec<u8>)| (e.0@, e.1@))
}

/// A tree holding `m` after the writes `w`, in order.
pub open spec fn apply_writes(m: Map<Seq<u8>, Seq<u8>>, w: Seq<(Seq<u8>, Seq<u8>)>) -> Map<Seq<u8>, Seq<u8>>
    decreases w.len(),
{
    if w.len() == 0 {
        m
    } else {
        apply_writes(m, w.drop_last()).insert(w.last().0, w.last().1)
    }
}

/// The events-tree writes of a commit: each event's key and encoding.
pub open spec fn event_writes(staged: Seq<StagedEvent>) -> Seq<(Seq<u8>, Seq<u8>)> {
    Seq::new(staged.len(), |i: int| (staged[i].event_key@, staged[i].encoded@))
}

/// The sequence-index writes of a commit: each slot's key and event hash.
pub open spec fn sequence_writes(staged: Seq<StagedEvent>) -> Seq<(Seq<u8>, Seq<u8>)> {
    Seq::new(staged.len(), |i: int| (staged[i].sequence_key@, staged[i].hash@))
}

/// The sender-heads writes of a commit: each sender's key and event hash.
pub open spec fn sender_writes(staged: Seq<StagedEvent>) -> Seq<(Seq<u8>, Seq<u8>)> {
    Seq::new(staged.len(), |i: int| (staged[i].sender_key@, staged[i].hash@))
}

fn copy_bytes(b: &[u8]) -> (r: Vec<u8>)
    ensures
        r@ == b@,
{
    let mut v: Vec<u8> = Vec::new();
    v.extend_from_slice(b);
    v
}

/// The writes a commit makes to the events tree, the sequence index and the
/// sender heads, in the order of the staged events; the new head is written
/// after them.
pub fn commit_writes(staged: &Vec<StagedEvent>) -> (r: (Vec<(Vec<u8>, Vec<u8>)>, Vec<(Vec<u8>, Vec<u8>)>, Vec<(Vec<u8>, Vec<u8>)>))
    ensures
        writes_view(r.0@) == event_writes(staged@),
        writes_view(r.1@) == sequence_writes(staged@),
        writes_view(r.2@) == sender_writes(staged@),
{
    let mut events: Vec<(Vec<u8>, Vec<u8>)> = Vec::new();
    let mut sequences: Vec<(Vec<u8>, Vec<u8>)> = Vec::new();
    let mut senders: Vec<(Vec<u8>, Vec<u8>)> = Vec::new();
    let n = staged.len();
    let mut i: usize = 0;
    while i < n
        invariant
            n == staged@.len(),
            i <= n,
            writes_view(events@) == event_writes(staged@).subrange(0, i as int),
            writes_view(sequences@) == sequence_writes(staged@).subrange(0, i as int),
            writes_view(senders@) == sender_writes(staged@).subrange(0, i as int),
        decreases n - i,
    {
        let s = &staged[i];
        let ghost (e0, q0, s0) = (events@, sequences@, senders@);
        events.push((copy_bytes(&s.event_key), copy_bytes(&s.encoded)));
        sequences.push((copy_bytes(&s.sequence_key), copy_bytes(&s.hash)));
        senders.push((copy_bytes(&s.sender_key), copy_bytes(&s.hash)));
        assert(writes_view(events@) =~= writes_view(e0).push((s.event_key@, s.encoded@)));
        assert(writes_view(sequences@) =~= writes_view(q0).push((s.sequence_key@, s.hash@)));
        assert(writes_view(senders@) =~= writes_view(s0).push((s.sender_key@, s.hash@)));
        assert(writes_view(events@) =~= event_writes(staged@).subrange(0, i + 1));
        assert(writes_view(sequences@) =~= sequence_writes(staged@).subrange(0, i + 1));
        assert(writes_view(senders@) =~= sender_writes(staged@).subrange(0, i + 1));
        i = i + 1;
    }
    assert(event_writes(staged@).subrange(0, n as int) =~= event_writes(staged@));
    assert(sequence_writes(staged@).subrange(0, n as int) =~= sequence_writes(staged@));
    assert(sender_writes(staged@).subrange(0, n as int) =~= sender_writes(staged@));
    (events, sequences, senders)
}

/// After writes, a key written last at `i` holds the value written there.
pub proof fn lemma_apply_last(m: Map<Seq<u8>, Seq<u8>>, w: Seq<(Seq<u8>, Seq<u8>)>, i: int)
    requires
        0 <= i < w.len(),
        forall|j: int| i < j < w.len() ==> (#[trigger] w[j]).0 != w[i].0,
    ensures
        apply_writes(m, w).contains_key(w[i].0),
        apply_writes(m, w)[w[i].0] == w[i].1,
    decreases w.len(),
{
    if i < w.len() - 1 {
        let p = w.drop_last();
        assert forall|j: int| i < j < p.len() implies (#[trigger] p[j]).0 != p[i].0 by {
            assert(p[j] == w[j]);
        }
        assert(w[w.len() - 1].0 != w[i].0);
        lemma_apply_last(m, p, i);
    }
}

/// Writes that never name `k` leave it as it was.
pub proof fn lemma_apply_untouched(m: Map<Seq<u8>, Seq<u8>>, w: Seq<(Seq<u8>, Seq<u8>)>, k: Seq<u8>)
    requires
        forall|j: int| 0 <= j < w.len() ==> (#[trigger] w[j]).0 != k,
    ensures
        apply_writes(m, w).contains_key(k) == m.contains_key(k),
        m.contains_key(k) ==> apply_writes(m, w)[k] == m[k],
    decreases w.len(),
{
    if w.len() > 0 {
        let p = w.drop_last();
        assert forall|j: int| 0 <= j < p.len() implies (#[trigger] p[j]).0 != k by {
            assert(p[j] == w[j]);
        }
        assert(w[w.len() - 1].0 != k);
        lemma_apply_untouched(m, p, k);
    }
}

/// A commit that the check lets through loses nothing and indexes every
/// event. Afterwards every staged event is stored under its key with its
/// encoding and every sequence slot maps to its event's hash; each sender's
/// head is the hash of its last event in the batch; every entry stored
/// before in the events tree and the sequence index is unchanged, and so is
/// every sender head of a sender without events in the batch.
pub proof fn law_commit_never_overwrites(
    events: Map<Seq<u8>, Seq<u8>>,
    sequences: Map<Seq<u8>, Seq<u8>>,
    senders: Map<Seq<u8>, Seq<u8>>,
    staged: Seq<StagedEvent>,
    events_present: Seq<bool>,
    sequences_present: Seq<bool>,
)
    requires
        events_present.len() == staged.len(),
        sequences_present.len() == staged.len(),
        forall|i: int| 0 <= i < staged.len() ==> events_present[i] == events.contains_key(#[trigger] staged[i].event_key@),
        forall|i: int| 0 <= i < staged.len() ==> sequences_present[i] == sequences.contains_key(
            #[trigger] staged[i].sequence_key@,
        ),
        all_fresh(staged, events_present, sequences_present),
    ensures
        forall|i: int|
            0 <= i < staged.len() ==> apply_writes(events, event_writes(staged)).contains_key(
                #[trigger] staged[i].event_key@,
            ) && apply_writes(events, event_writes(staged))[staged[i].event_key@] == staged[i].encoded@,
        forall|i: int|
            0 <= i < staged.len() ==> apply_writes(sequences, sequence_writes(staged)).contains_key(
                #[trigger] staged[i].sequence_key@,
            ) && apply_writes(sequences, sequence_writes(staged))[staged[i].sequence_key@] == staged[i].hash@,
        forall|i: int|
            0 <= i < staged.len() && (forall|l: int| i < l < staged.len() ==> staged[l].sender_key@ != staged[i].sender_key@)
                ==> apply_writes(senders, sender_writes(staged)).contains_key(#[trigger] staged[i].sender_key@)
                && apply_writes(senders, sender_writes(staged))[staged[i].sender_key@] == staged[i].hash@,
        forall|k: Seq<u8>| #[trigger] events.contains_key(k) ==> apply_writes(events, event_writes(staged)).contains_key(k)
            && apply_writes(events, event_writes(staged))[k] == events[k],
        forall|k: Seq<u8>| #[trigger] sequences.contains_key(k) ==> apply_writes(sequences, sequence_writes(staged)).contains_key(k)
            && apply_writes(sequences, sequence_writes(staged))[k] == sequences[k],
        forall|k: Seq<u8>|
            (forall|i: int| 0 <= i < staged.len() ==> staged[i].sender_key@ != k) ==> apply_writes(
                senders,
                sender_writes(staged),
            ).contains_key(k) == #[trigger] senders.contains_key(k) && (senders.contains_key(k) ==> apply_writes(
                senders,
                sender_writes(staged),
            )[k] == senders[k]),
{
    let ew = event_writes(staged);
    let qw = sequence_writes(staged);
    let sw = sender_writes(staged);
    assert forall|i: int| 0 <= i < staged.len() implies apply_writes(events, ew).contains_key(
        #[trigger] staged[i].event_key@,
    ) && apply_writes(events, ew)[staged[i].event_key@] == staged[i].encoded@ by {
        assert forall|j: int| i < j < ew.len() implies (#[trigger] ew[j]).0 != ew[i].0 by {
            assert(fresh_at(staged, events_present, sequences_present, j));
            assert(staged[i].event_key@ != staged[j].event_key@);
        }
        lemma_apply_last(events, ew, i);
    }
    assert forall|i: int| 0 <= i < staged.len() implies apply_writes(sequences, qw).contains_key(
        #[trigger] staged[i].sequence_key@,
    ) && apply_writes(sequences, qw)[staged[i].sequence_key@] == staged[i].hash@ by {
        assert forall|j: int| i < j < qw.len() implies (#[trigger] qw[j]).0 != qw[i].0 by {
            assert(fresh_at(staged, events_present, sequences_present, j));
            assert(staged[i].sequence_key@ != staged[j].sequence_key@);
        }
        lemma_apply_last(sequences, qw, i);
    }
    assert forall|i: int|
        0 <= i < staged.len() && (forall|l: int| i < l < staged.len() ==> staged[l].sender_key@ != staged[i].sender_key@)
        implies apply_writes(senders, sw).contains_key(#[trigger] staged[i].sender_key@)
        && apply_writes(senders, sw)[staged[i].sender_key@] == staged[i].hash@ by {
        assert forall|j: int| i < j < sw.len() implies (#[trigger] sw[j]).0 != sw[i].0 by {
            assert(staged[j].sender_key@ != staged[i].sender_key@);
        }
        lemma_apply_last(senders, sw, i);
    }
    assert forall|k: Seq<u8>| #[trigger] events.contains_key(k) implies apply_writes(events, ew).contains_key(k)
        && apply_writes(events, ew)[k] == events[k] by {
        assert forall|j: int| 0 <= j < ew.len() implies (#[trigger] ew[j]).0 != k by {
            assert(fresh_at(staged, events_present, sequences_present, j));
        }
        lemma_apply_untouched(events, ew, k);
    }
    assert forall|k: Seq<u8>| #[trigger] sequences.contains_key(k) implies apply_writes(sequences, qw).contains_key(k)
        && apply_writes(sequences, qw)[k] == sequences[k] by {
        assert forall|j: int| 0 <= j < qw.len() implies (#[trigger] qw[j]).0 != k by {
            assert(fresh_at(staged, events_present, sequences_present, j));
        }
        lemma_apply_untouched(sequences, qw, k);
    }
    assert forall|k: Seq<u8>|
        (forall|i: int| 0 <= i < staged.len() ==> staged[i].sender_key@ != k) implies apply_writes(senders, sw).contains_key(k)
        == #[trigger] senders.contains_key(k) && (senders.contains_key(k) ==> apply_writes(senders, sw)[k]
        == senders[k]) by {
        assert forall|j: int| 0 <= j < sw.len() implies (#[trigger] sw[j]).0 != k by {
            assert(staged[j].sender_key@ != k);
        }
        lemma_apply_untouched(senders, sw, k);
    }
}

} // verus!
