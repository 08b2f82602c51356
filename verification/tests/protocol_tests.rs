use munnel::ids::get_rand_guid;
use munnel::protocol::{
    cancel_message, connect_opener, connect_order, handshake_message, verb_of, Verb,
};

#[test]
fn verbs_parse_exactly() {
    assert_eq!(verb_of(&"PRE_SHARED_KEY".to_string()), Verb::PreSharedKey);
    assert_eq!(verb_of(&"NEW_AGENT".to_string()), Verb::NewAgent);
    assert_eq!(verb_of(&"CONNECT".to_string()), Verb::Connect);
    assert_eq!(verb_of(&"CANCEL_CONNECTION".to_string()), Verb::CancelConnection);
    assert_eq!(verb_of(&"KEEP_ALIVE".to_string()), Verb::KeepAlive);
    assert_eq!(verb_of(&"OK".to_string()), Verb::Okay);
    assert_eq!(verb_of(&"connect".to_string()), Verb::Unknown);
    assert_eq!(verb_of(&"".to_string()), Verb::Unknown);
    assert_eq!(verb_of(&"CONNECT ".to_string()), Verb::Unknown);
}

#[test]
fn handshake_is_bit_exact() {
    let m = handshake_message(&"ABC123".to_string(), &"west".to_string());
    assert_eq!(m, "PRE_SHARED_KEY\nABC123\nNEW_AGENT\nwest\n".to_string());
}

#[test]
fn handshake_with_empty_group() {
    let m = handshake_message(&"ABC123".to_string(), &"".to_string());
    assert_eq!(m, "PRE_SHARED_KEY\nABC123\nNEW_AGENT\n\n".to_string());
}

#[test]
fn data_stream_opener_is_bit_exact() {
    let m = connect_opener(&"ABC123".to_string(), &"4c2a1b6e".to_string());
    assert_eq!(m, "PRE_SHARED_KEY\nABC123\nCONNECT\n4c2a1b6e\n".to_string());
}

#[test]
fn cancellation_authenticates_first() {
    let m = cancel_message(&"ABC123".to_string(), &"4c2a1b6e".to_string());
    assert_eq!(m, "PRE_SHARED_KEY\nABC123\nCANCEL_CONNECTION\n4c2a1b6e\n".to_string());
}

#[test]
fn connect_order_is_bit_exact() {
    let m = connect_order(&"10.0.0.7:5432".to_string(), &"4c2a1b6e".to_string());
    assert_eq!(m, "CONNECT\n10.0.0.7:5432\n4c2a1b6e\n".to_string());
}

#[test]
fn guid_is_hyphenated_lowercase_hex() {
    let id = get_rand_guid();
    assert_eq!(id.len(), 36);
    for (i, c) in id.chars().enumerate() {
        if i == 8 || i == 13 || i == 18 || i == 23 {
            assert_eq!(c, '-');
        } else {
            assert!(c.is_ascii_hexdigit() && !c.is_ascii_uppercase());
        }
    }
    assert!(!id.contains('\n'));
}
