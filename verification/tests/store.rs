use starling_server::error::RoostError;
use starling_server::history::MAX_BACKFILL_MESSAGES;
use starling_server::message::ChatMessage;
use starling_server::store::Store;

fn message(id: &str, ts: i64) -> ChatMessage {
    ChatMessage {
        id: id.into(),
        author: "bird".into(),
        body: id.into(),
        ts,
    }
}

fn temporary_store() -> Store {
    Store::open_temporary().unwrap()
}

#[test]
fn equal_timestamps_do_not_overwrite_messages() {
    let mut store = temporary_store();
    store.append("general", &message("a", 10)).unwrap();
    store.append("general", &message("b", 10)).unwrap();

    let result = store.since("general", 0).unwrap();
    assert_eq!(result.len(), 2);
    assert_eq!(result[0].id, "a");
    assert_eq!(result[1].id, "b");
}

#[test]
fn backfill_is_exclusive_and_bounded_to_newest_messages() {
    let mut store = temporary_store();
    for ts in 0..510 {
        store
            .append("general", &message(&format!("{ts:03}"), ts))
            .unwrap();
    }

    let result = store.since("general", 5).unwrap();
    assert_eq!(result.len(), MAX_BACKFILL_MESSAGES);
    assert_eq!(result.first().unwrap().ts, 10);
    assert_eq!(result.last().unwrap().ts, 509);
}

#[test]
fn delete_message_removes_only_the_matching_id() {
    let mut store = temporary_store();
    store.append("general", &message("a", 10)).unwrap();
    store.append("general", &message("b", 20)).unwrap();

    assert!(store.delete_message("general", "a").unwrap());
    let remaining = store.since("general", 0).unwrap();
    assert_eq!(remaining.len(), 1);
    assert_eq!(remaining[0].id, "b");
    assert!(!store.delete_message("general", "missing").unwrap());
}

#[test]
fn channel_secret_is_stable_across_loads_and_unique_per_channel() {
    let mut store = temporary_store();
    let first = store.channel_secret("general").unwrap();
    let second = store.channel_secret("general").unwrap();
    let other = store.channel_secret("random").unwrap();
    assert_eq!(first, second, "channel secret must be persisted and stable");
    assert_ne!(
        first, other,
        "different channels must get different secrets"
    );
}

#[test]
fn control_secret_is_stable_and_distinct_from_channel_secrets() {
    let mut store = temporary_store();
    let first = store.control_secret().unwrap();
    let second = store.control_secret().unwrap();
    let channel = store.channel_secret("general").unwrap();
    assert_eq!(
        first, second,
        "control secret must be persisted and stable across loads"
    );
    assert_ne!(
        first, channel,
        "control secret must be distinct from channel secrets"
    );
}

#[test]
fn store_refuses_invalid_channels() {
    let mut store = temporary_store();
    assert_eq!(
        store.append("../general", &message("a", 1)).unwrap_err(),
        RoostError::InvalidChannel
    );
    assert_eq!(store.since("a/b", 0).unwrap_err(), RoostError::InvalidChannel);
    assert_eq!(
        store.delete_message("", "a").unwrap_err(),
        RoostError::InvalidChannel
    );
    assert_eq!(
        store.channel_secret("with space").unwrap_err(),
        RoostError::InvalidChannel
    );
}

#[test]
fn perms_bytes_round_trip_through_sled() {
    let mut store = temporary_store();
    assert_eq!(store.load_perms().unwrap(), None);
    store.save_perms(&[1, 2, 3]).unwrap();
    assert_eq!(store.load_perms().unwrap(), Some(vec![1, 2, 3]));
    store.save_perms(&[9]).unwrap();
    assert_eq!(store.load_perms().unwrap(), Some(vec![9]));
}

#[test]
fn backfill_sorts_and_keeps_channels_apart() {
    let mut store = temporary_store();
    store.append("general", &message("late", 30)).unwrap();
    store.append("general", &message("early", -4)).unwrap();
    store.append("random", &message("other", 10)).unwrap();
    let result = store.since("general", -10).unwrap();
    let ids: Vec<_> = result.iter().map(|m| m.id.as_str()).collect();
    assert_eq!(ids, ["early", "late"]);
    let result = store.since("general", -4).unwrap();
    assert_eq!(result.len(), 1);
    assert_eq!(result[0].id, "late");
    assert!(store.since("empty", 0).unwrap().is_empty());
}

#[test]
fn secrets_and_perms_do_not_appear_in_history() {
    let mut store = temporary_store();
    store.channel_secret("general").unwrap();
    store.control_secret().unwrap();
    store.save_perms(&[0xff; 8]).unwrap();
    store.append("general", &message("a", 1)).unwrap();
    let result = store.since("general", i64::MIN).unwrap();
    assert_eq!(result.len(), 1);
}

#[test]
fn other_trees_are_kept_apart_from_the_store_entries() {
    let mut store = temporary_store();
    let tree = store.open_tree("events").unwrap();
    tree.insert(b"k", b"v".to_vec()).unwrap();
    store.append("general", &message("a", 1)).unwrap();
    assert_eq!(tree.len(), 1);
    assert_eq!(store.since("general", 0).unwrap().len(), 1);
    store.flush().unwrap();
    assert!(store.size_on_disk().unwrap() > 0);
}

#[test]
fn channel_list_round_trips_through_sled() {
    let mut store = temporary_store();
    assert_eq!(store.load_channels().unwrap(), None);
    let channels = vec!["general".to_string(), "news".to_string()];
    store.save_channels(&channels).unwrap();
    assert_eq!(store.load_channels().unwrap(), Some(channels));
    store.save_channels(&vec![]).unwrap();
    assert_eq!(store.load_channels().unwrap(), Some(vec![]));
    // The channel list is not a message of any channel.
    assert!(store.since("general", i64::MIN).unwrap().is_empty());
}

#[test]
fn delete_reaches_messages_under_legacy_keys() {
    let path = std::path::PathBuf::from("/tmp/starling_server_legacy_delete_test");
    {
        let db = sled::open(&path).unwrap();
        let value = postcard::to_stdvec(&("old".to_string(), "bird".to_string(), "hi".to_string(), 5i64)).unwrap();
        db.insert(b"general/old", value).unwrap();
        db.flush().unwrap();
    }
    let mut store = Store::open(&path).unwrap();
    assert_eq!(store.since("general", 0).unwrap().len(), 1);
    assert!(!store.delete_message("general", "missing").unwrap());
    assert!(store.delete_message("general", "old").unwrap());
    assert!(store.since("general", 0).unwrap().is_empty());
    assert!(!store.delete_message("general", "old").unwrap());
}
