use starling_server::error::RoostError;
use starling_server::history_keys::{
    check_commit, commit_writes, event_key, hash_value, sender_key, sequence_key, stage_event, CommitConflict, StagedEvent,
};

#[test]
fn history_keys_extend_the_space_key() {
    let space = [0u8, 7, 7];
    let hash = [3u8; 32];
    let sender = [5u8; 32];
    let session = [9u8; 16];

    let mut expected = space.to_vec();
    expected.extend_from_slice(&hash);
    assert_eq!(event_key(&space, &hash), expected);

    let mut expected = space.to_vec();
    expected.extend_from_slice(&sender);
    assert_eq!(sender_key(&space, &sender), expected);

    let mut expected = space.to_vec();
    expected.extend_from_slice(&sender);
    expected.extend_from_slice(&session);
    expected.extend_from_slice(&0x0102_0304_0506_0708u64.to_be_bytes());
    assert_eq!(sequence_key(&space, &sender, &session, 0x0102_0304_0506_0708), expected);
}

#[test]
fn sequence_keys_sort_by_sequence_number() {
    let space = [1u8];
    let sender = [2u8; 32];
    let session = [0u8; 16];
    let a = sequence_key(&space, &sender, &session, 255);
    let b = sequence_key(&space, &sender, &session, 256);
    assert!(a < b);
    assert_ne!(a, b);
}

#[test]
fn stored_hashes_must_be_32_bytes() {
    let bytes = [4u8; 32];
    assert_eq!(hash_value(&bytes), Ok(bytes));
    assert_eq!(hash_value(&[4u8; 31]), Err(RoostError::Decode));
    assert_eq!(hash_value(&[]), Err(RoostError::Decode));
}

fn staged(hash: u8, sequence: u64) -> StagedEvent {
    stage_event(&[0, 7], [hash; 32], &[1; 32], &[2; 16], sequence, vec![hash, 0xee])
}

#[test]
fn staged_events_carry_their_keys() {
    let s = staged(3, 9);
    assert_eq!(s.event_key, event_key(&[0, 7], &[3; 32]));
    assert_eq!(s.sequence_key, sequence_key(&[0, 7], &[1; 32], &[2; 16], 9));
    assert_eq!(s.sender_key, sender_key(&[0, 7], &[1; 32]));
    assert_eq!(s.hash, [3; 32]);
    assert_eq!(s.encoded, vec![3, 0xee]);
}

#[test]
fn commit_checks_the_head_first() {
    let batch = vec![staged(1, 0)];
    let head = [5u8, 5];
    assert_eq!(check_commit(Some(&head[..]), &head, false, &batch, &vec![false], &vec![false]), Ok(()));
    assert_eq!(check_commit(None, &head, true, &batch, &vec![false], &vec![false]), Ok(()));
    assert_eq!(
        check_commit(None, &head, false, &batch, &vec![true], &vec![false]),
        Err(CommitConflict::HeadChanged)
    );
    assert_eq!(
        check_commit(Some(&[9u8][..]), &head, true, &batch, &vec![false], &vec![false]),
        Err(CommitConflict::HeadChanged)
    );
}

#[test]
fn commit_refuses_taken_events_and_slots() {
    let head = [5u8];
    let batch = vec![staged(1, 0), staged(2, 1)];
    assert_eq!(check_commit(Some(&head[..]), &head, false, &batch, &vec![false, true], &vec![false, false]), Err(CommitConflict::AlreadyPresent));
    assert_eq!(check_commit(Some(&head[..]), &head, false, &batch, &vec![false, false], &vec![true, false]), Err(CommitConflict::AlreadyPresent));
    // Within one batch, a repeated event or a repeated sequence slot is refused too.
    let same_event = vec![staged(1, 0), staged(1, 1)];
    assert_eq!(check_commit(Some(&head[..]), &head, false, &same_event, &vec![false, false], &vec![false, false]), Err(CommitConflict::AlreadyPresent));
    let same_slot = vec![staged(1, 4), staged(2, 4)];
    assert_eq!(check_commit(Some(&head[..]), &head, false, &same_slot, &vec![false, false], &vec![false, false]), Err(CommitConflict::AlreadyPresent));
    assert_eq!(check_commit(Some(&head[..]), &head, false, &batch, &vec![false, false], &vec![false, false]), Ok(()));
}

#[test]
fn commit_writes_index_every_event_in_order() {
    let batch = vec![staged(1, 0), staged(2, 1)];
    let (events, sequences, senders) = commit_writes(&batch);
    assert_eq!(events, vec![(batch[0].event_key.clone(), vec![1, 0xee]), (batch[1].event_key.clone(), vec![2, 0xee])]);
    assert_eq!(sequences[1], (batch[1].sequence_key.clone(), vec![2u8; 32]));
    // Both events come from one sender: its head ends at the last one.
    assert_eq!(senders.len(), 2);
    assert_eq!(senders[1], (batch[1].sender_key.clone(), vec![2u8; 32]));
    assert_eq!(senders[0].0, senders[1].0);
}
