use starling_server::keys::{channel_prefix, channel_secret_key, message_key};
use starling_server::message::ChatMessage;
use starling_server::naming::{channel_id_from_name, validate_channel, validate_roost_name};

#[test]
fn validates_roost_names_before_building_paths() {
    for valid in ["starling", "my-roost_2", "A"] {
        assert!(validate_roost_name(valid).is_ok());
    }
    for invalid in ["", ".", "..", "../outside", "a/b", "a\\b", "with space"] {
        assert!(
            validate_roost_name(invalid).is_err(),
            "accepted {invalid:?}"
        );
    }
}

#[test]
fn rejects_channels_that_can_escape_key_namespaces() {
    for channel in ["", "../general", "general/other", "contains space"] {
        assert!(validate_channel(channel).is_err());
    }
}

#[test]
fn channel_names_are_limited_to_64_bytes() {
    let longest = "a".repeat(64);
    let too_long = "a".repeat(65);
    assert!(validate_channel(&longest).is_ok());
    assert!(validate_channel(&too_long).is_err());
    assert!(validate_channel("caf\u{e9}").is_err());
}

#[test]
fn channel_prefix_frames_the_name() {
    assert_eq!(channel_prefix("general"), b"\x01general\x00".to_vec());
    assert_eq!(channel_secret_key("general"), b"\x02general".to_vec());
}

#[test]
fn message_keys_order_by_timestamp_then_id() {
    let msg = |id: &str, ts: i64| ChatMessage {
        id: id.into(),
        author: "bird".into(),
        body: String::new(),
        ts,
    };
    let a = message_key("general", &msg("b", -5));
    let b = message_key("general", &msg("a", 3));
    let c = message_key("general", &msg("b", 3));
    assert!(a < b);
    assert!(b < c);
    let mut expected = b"\x01general\x00".to_vec();
    expected.extend_from_slice(&[0x80, 0, 0, 0, 0, 0, 0, 3]);
    expected.extend_from_slice(b"a");
    assert_eq!(b, expected);
}

#[test]
fn channel_id_takes_the_first_sixteen_bytes() {
    let mut expected = [0u8; 16];
    expected[..7].copy_from_slice(b"general");
    assert_eq!(channel_id_from_name("general"), expected);
    assert_eq!(
        channel_id_from_name("abcdefghijklmnopqrstuvwxyz"),
        *b"abcdefghijklmnop"
    );
}
