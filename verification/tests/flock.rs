use std::path::PathBuf;

use starling_server::error::RoostError;
use starling_server::event::{backfill_peer, choose_device, flock_opener, payload_event, AppEvent, BirdStatus, GossipPayload};
use starling_server::history::{backfill_messages, dedup_messages, keep_newest_messages, sort_messages};
use starling_server::identity::{generate_identity, identity_endpoint_id};
use starling_server::message::ChatMessage;
use starling_server::paths::{roost_data_dir, roost_db_path, roost_key_path, roost_lock_path, roost_log_path};
use starling_server::replay::{clamp_page_bytes, ReplayGuard};

fn message(id: &str, ts: i64) -> ChatMessage {
    ChatMessage { id: id.into(), author: "a".into(), body: "b".into(), ts }
}

fn ids(msgs: &[ChatMessage]) -> Vec<&str> {
    msgs.iter().map(|m| m.id.as_str()).collect()
}

#[test]
fn identity_key_file_gives_the_endpoint_id() {
    let secret = [7u8; 32];
    let expected = *iroh_base::SecretKey::from_bytes(&secret).public().as_bytes();
    let id = identity_endpoint_id(&secret).unwrap();
    assert_eq!(id, expected);
    assert_ne!(id, secret);
    assert_eq!(identity_endpoint_id(&[7u8; 31]), Err(RoostError::InvalidIdentityKey));
    assert_eq!(identity_endpoint_id(&[7u8; 33]), Err(RoostError::InvalidIdentityKey));
}

#[test]
fn minted_identities_differ() {
    let a = generate_identity();
    let b = generate_identity();
    assert_ne!(a, b);
    assert!(identity_endpoint_id(&a).is_ok());
}

#[test]
fn roost_files_live_in_the_roost_directory() {
    let base = PathBuf::from("/tmp/roosts");
    assert_eq!(roost_data_dir(&base, "nest"), PathBuf::from("/tmp/roosts/nest"));
    assert_eq!(roost_db_path(&base, "nest"), PathBuf::from("/tmp/roosts/nest/roost.db"));
    assert_eq!(roost_key_path(&base, "nest"), PathBuf::from("/tmp/roosts/nest/identity.key"));
    assert_eq!(roost_lock_path(&base, "nest"), PathBuf::from("/tmp/roosts/nest/lock.pid"));
    assert_eq!(roost_log_path(&base, "nest"), PathBuf::from("/tmp/roosts/nest/logs/latest.log"));
}

#[test]
fn a_challenge_is_accepted_once_per_remote() {
    let mut guard = ReplayGuard::new(16);
    let alice = [1u8; 32];
    let bob = [2u8; 32];
    let challenge = [9u8; 32];
    assert!(guard.first_use(alice, challenge));
    assert!(!guard.first_use(alice, challenge));
    assert!(guard.first_use(bob, challenge));
    assert!(guard.first_use(alice, [8u8; 32]));
    assert!(!guard.first_use(bob, challenge));
}

#[test]
fn page_size_is_the_smallest_limit() {
    assert_eq!(clamp_page_bytes(100, 50, 70), 50);
    assert_eq!(clamp_page_bytes(10, 50, 70), 10);
    assert_eq!(clamp_page_bytes(100, 500, 70), 70);
    assert_eq!(clamp_page_bytes(0, 0, 0), 0);
}

#[test]
fn the_first_bootstrap_peer_names_the_flock() {
    let me = [1u8; 32];
    assert_eq!(flock_opener(&vec![], me), me);
    assert_eq!(flock_opener(&vec![[5u8; 32], [6u8; 32]], me), [5u8; 32]);
}

#[test]
fn only_chat_payloads_enter_the_scrollback() {
    let (event, keep) = payload_event(GossipPayload::Chat(message("m", 3)));
    assert!(keep);
    assert!(matches!(event, AppEvent::Message(m) if m.id == "m" && m.ts == 3));
    let (event, keep) = payload_event(GossipPayload::Profile { id: [4; 32], name: "ann".into() });
    assert!(!keep);
    assert!(matches!(event, AppEvent::PeerNamed(id, n) if id == [4; 32] && n == "ann"));
    let (event, keep) = payload_event(GossipPayload::Status { id: [4; 32], status: BirdStatus::InCall });
    assert!(!keep);
    assert!(matches!(event, AppEvent::PeerStatus(_, BirdStatus::InCall)));
}

#[test]
fn preferred_device_is_found_by_name() {
    let devices: Vec<String> = vec!["System Default".into(), "usb".into(), "usb".into()];
    assert_eq!(choose_device(&devices, Some("usb")), Some(1));
    assert_eq!(choose_device(&devices, Some("hdmi")), None);
    assert_eq!(choose_device(&devices, None), None);
}

#[test]
fn backfill_sorts_drops_adjacent_repeats_and_keeps_the_newest() {
    let sorted = sort_messages(vec![message("b", 2), message("a", 2), message("z", 1), message("a", 2)]);
    assert_eq!(ids(&sorted), ["z", "a", "a", "b"]);
    let unique = dedup_messages(sorted);
    assert_eq!(ids(&unique), ["z", "a", "b"]);
    assert_eq!(ids(&keep_newest_messages(unique, 2)), ["a", "b"]);

    let many: Vec<ChatMessage> = (0..600).rev().map(|i| message(&format!("{i:04}"), i)).collect();
    let result = backfill_messages(many);
    assert_eq!(result.len(), 500);
    assert_eq!(result[0].ts, 100);
    assert_eq!(result[499].ts, 599);
    assert!(result.windows(2).all(|w| w[0].ts < w[1].ts));
}

#[test]
fn a_challenge_is_forgotten_only_after_capacity_newer_ones() {
    let remote = [1u8; 32];
    let mut guard = ReplayGuard::new(2);
    assert!(guard.first_use(remote, [1; 32]));
    assert!(guard.first_use(remote, [2; 32]));
    // Re-using the first makes it the most recent again.
    assert!(!guard.first_use(remote, [1; 32]));
    assert!(guard.first_use(remote, [3; 32]));
    // The second was the least recent and went; the first is still there.
    assert!(!guard.first_use(remote, [1; 32]));
    assert!(guard.first_use(remote, [2; 32]));
}

#[test]
fn a_joining_bird_backfills_from_the_opener() {
    let me = [1u8; 32];
    assert_eq!(backfill_peer(&vec![], me), None);
    assert_eq!(backfill_peer(&vec![me], me), None);
    assert_eq!(backfill_peer(&vec![[2u8; 32], me], me), Some([2u8; 32]));
}
