use std::sync::{Arc, Mutex};

use starling_server::error::RoostError;
use starling_server::message::ChatMessage;
use starling_server::store::Store;
use starling_server::sync::{
    answer_roost_sync, backfill_request, fit_history, received_backfill, recent_since, RoostSyncRequest, SyncProto,
    MAX_ROOST_SYNC_RESPONSE_BYTES,
};

type Fields = (String, String, String, i64);

fn message(id: &str, ts: i64) -> ChatMessage {
    ChatMessage { id: id.into(), author: "b".into(), body: "c".into(), ts }
}

fn ids(msgs: &[ChatMessage]) -> Vec<String> {
    msgs.iter().map(|m| m.id.clone()).collect()
}

fn decode_fields(bytes: &[u8]) -> Vec<Fields> {
    postcard::from_bytes::<Vec<Fields>>(bytes).unwrap()
}

#[test]
fn recent_since_keeps_newer_messages_up_to_the_newest_500() {
    let history: Vec<ChatMessage> = (0..502).map(|i| message(&i.to_string(), i)).collect();
    let recent = recent_since(&history, -1);
    assert_eq!(recent.len(), 500);
    assert_eq!(recent[0].ts, 2);
    assert_eq!(recent[499].ts, 501);

    let mixed = vec![message("a", 5), message("b", 1), message("c", 9), message("d", 5)];
    assert_eq!(ids(&recent_since(&mixed, 5)), ["c"]);
    assert_eq!(ids(&recent_since(&mixed, 4)), ["a", "c", "d"]);
    assert!(recent_since(&mixed, 9).is_empty());
}

#[test]
fn bird_answers_backfill_requests_from_its_scrollback() {
    let proto = SyncProto {
        history: Arc::new(Mutex::new(vec![message("a", 1), message("b", 2), message("c", 3)])),
    };
    let request = postcard::to_stdvec(&1i64).unwrap();
    let answer = decode_fields(&proto.answer(&request).unwrap().unwrap());
    let answered: Vec<&str> = answer.iter().map(|f| f.0.as_str()).collect();
    assert_eq!(answered, ["b", "c"]);
    assert_eq!(proto.answer(&[]).unwrap_err(), RoostError::Decode);
}

#[test]
fn received_backfill_reports_only_non_empty_histories() {
    let empty = postcard::to_stdvec(&Vec::<Fields>::new()).unwrap();
    assert!(received_backfill(&empty).unwrap().is_none());
    let two: Vec<Fields> = vec![
        ("x".into(), "ann".into(), "hi".into(), 7),
        ("y".into(), "bob".into(), "yo".into(), -3),
    ];
    let got = received_backfill(&postcard::to_stdvec(&two).unwrap()).unwrap().unwrap();
    assert_eq!(got.len(), 2);
    assert_eq!((got[1].id.as_str(), got[1].author.as_str(), got[1].body.as_str(), got[1].ts), ("y", "bob", "yo", -3));
    assert_eq!(received_backfill(&[5]).unwrap_err(), RoostError::Decode);
}

#[test]
fn roost_sync_request_decodes_channel_and_timestamp() {
    let bytes = postcard::to_stdvec(&("general".to_string(), -42i64)).unwrap();
    let request = RoostSyncRequest::decode(&bytes).unwrap();
    assert_eq!(request.channel, "general");
    assert_eq!(request.since, -42);
    assert!(matches!(RoostSyncRequest::decode(&[0xff]), Err(RoostError::Decode)));
}

#[test]
fn fit_history_drops_the_oldest_until_it_fits() {
    let history = vec![message("a", 1), message("b", 1), message("c", 1)];
    // Each message encodes to 7 bytes; the list adds a 1-byte length.
    let (kept, bytes) = fit_history(history.clone(), 22).unwrap();
    assert_eq!(ids(&kept), ["a", "b", "c"]);
    assert_eq!(bytes.len(), 22);
    let (kept, bytes) = fit_history(history.clone(), 21).unwrap();
    assert_eq!(ids(&kept), ["b", "c"]);
    assert_eq!(decode_fields(&bytes).len(), 2);
    let (kept, bytes) = fit_history(history, 0).unwrap();
    assert!(kept.is_empty());
    assert_eq!(bytes, vec![0]);
}

#[test]
fn roost_answers_history_requests_from_its_store() {
    let mut store = Store::open_temporary().unwrap();
    store.append("general", &message("old", 1)).unwrap();
    store.append("general", &message("new", 2)).unwrap();
    store.append("random", &message("elsewhere", 3)).unwrap();
    let request = RoostSyncRequest { channel: "general".into(), since: 1 };
    let answer = answer_roost_sync(&store, &request).unwrap();
    assert_eq!(answer.original_len, 1);
    assert_eq!(answer.kept_len, 1);
    let fields = decode_fields(&answer.bytes);
    assert_eq!(fields, vec![("new".to_string(), "b".to_string(), "c".to_string(), 2)]);
    assert!(answer.bytes.len() <= MAX_ROOST_SYNC_RESPONSE_BYTES);

    let bad = RoostSyncRequest { channel: "../x".into(), since: 0 };
    assert!(matches!(answer_roost_sync(&store, &bad), Err(RoostError::InvalidChannel)));
}

#[test]
fn backfill_request_is_the_timestamp_in_postcard() {
    assert_eq!(backfill_request(-42), postcard::to_stdvec(&-42i64).unwrap());
    assert_eq!(postcard::from_bytes::<i64>(&backfill_request(7)).unwrap(), 7);
}
