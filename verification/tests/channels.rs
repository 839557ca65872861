use starling_server::channels::{
    add_channel_console, add_channel_offline, channel_changes, moderate_add_channel,
    moderate_remove_channel, remove_channel_console, remove_channel_offline, ChannelError,
};
use starling_server::moderation::{moderate_delete_message, DeleteRefusal};
use starling_server::message::ChatMessage;
use starling_server::store::Store;

fn list(names: &[&str]) -> Vec<String> {
    names.iter().map(|s| s.to_string()).collect()
}

#[test]
fn offline_add_checks_name_then_duplicates_then_room() {
    let mut channels = list(&["general"]);
    assert_eq!(add_channel_offline(&mut channels, "bad name", 2), Err(ChannelError::InvalidName));
    assert_eq!(add_channel_offline(&mut channels, "general", 1), Err(ChannelError::AlreadyExists));
    assert_eq!(add_channel_offline(&mut channels, "random", 1), Err(ChannelError::TooMany));
    assert_eq!(add_channel_offline(&mut channels, "random", 2), Ok(()));
    assert_eq!(channels, list(&["general", "random"]));
}

#[test]
fn offline_remove_protects_general_and_removes_first_match() {
    let mut channels = list(&["general", "a", "b", "a"]);
    assert_eq!(remove_channel_offline(&mut channels, "general"), Err(ChannelError::CannotRemoveGeneral));
    assert_eq!(remove_channel_offline(&mut channels, "zzz"), Err(ChannelError::NotFound));
    assert_eq!(remove_channel_offline(&mut channels, "a"), Ok(()));
    assert_eq!(channels, list(&["general", "b", "a"]));
}

#[test]
fn console_add_checks_room_before_duplicates_and_mints_a_secret() {
    let mut store = Store::open_temporary().unwrap();
    let mut channels = list(&["general"]);
    assert_eq!(add_channel_console(&mut channels, &mut store, "general", 1), Err(ChannelError::TooMany));
    assert_eq!(add_channel_console(&mut channels, &mut store, "general", 5), Err(ChannelError::AlreadyExists));
    assert_eq!(add_channel_console(&mut channels, &mut store, "a/b", 5), Err(ChannelError::InvalidName));
    assert_eq!(add_channel_console(&mut channels, &mut store, "random", 5), Ok(()));
    assert_eq!(channels, list(&["general", "random"]));
    let first = store.channel_secret("random").unwrap();
    assert_eq!(store.channel_secret("random").unwrap(), first);
}

#[test]
fn console_remove_drops_every_entry_of_the_name() {
    let mut channels = list(&["general", "a", "b", "a"]);
    assert_eq!(remove_channel_console(&mut channels, "general"), Err(ChannelError::CannotRemoveGeneral));
    assert_eq!(remove_channel_console(&mut channels, "c"), Err(ChannelError::NotFound));
    assert_eq!(remove_channel_console(&mut channels, "a"), Ok(()));
    assert_eq!(channels, list(&["general", "b"]));
}

#[test]
fn moderation_requires_permission() {
    let mut channels = list(&["general"]);
    assert_eq!(moderate_add_channel(&mut channels, false, "x", 10), Err(ChannelError::NotAllowed));
    assert_eq!(moderate_add_channel(&mut channels, true, "x", 10), Ok(()));
    assert_eq!(moderate_remove_channel(&mut channels, false, "x"), Err(ChannelError::NotAllowed));
    assert_eq!(moderate_remove_channel(&mut channels, true, "general"), Err(ChannelError::CannotRemoveGeneral));
    assert_eq!(moderate_remove_channel(&mut channels, true, "x"), Ok(()));
    assert_eq!(channels, list(&["general"]));
    assert_eq!(ChannelError::TooMany.verdict_message(), "too many channels");
}

#[test]
fn moderated_deletion_reports_its_verdict() {
    let mut store = Store::open_temporary().unwrap();
    let m = ChatMessage { id: "a".into(), author: "bird".into(), body: "hi".into(), ts: 5 };
    store.append("general", &m).unwrap();
    assert_eq!(moderate_delete_message(&mut store, false, "general", "a"), Err(DeleteRefusal::NotAllowed));
    assert_eq!(moderate_delete_message(&mut store, true, "general", "b"), Err(DeleteRefusal::MessageNotFound));
    assert_eq!(moderate_delete_message(&mut store, true, "general", "a"), Ok(()));
    assert!(store.since("general", 0).unwrap().is_empty());
    assert_eq!(DeleteRefusal::MessageNotFound.verdict_message(), "message not found");
}

#[test]
fn channel_changes_lists_additions_and_removals() {
    let (added, removed) = channel_changes(&list(&["general", "new", "kept"]), &list(&["kept", "old", "general"]));
    assert_eq!(added, list(&["new"]));
    assert_eq!(removed, list(&["old"]));
}
