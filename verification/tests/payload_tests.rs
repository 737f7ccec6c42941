use codegraph_server::payload::dec_to_u64;
use codegraph_server::payload::encode_node_id_payload;
use codegraph_server::payload::extract_node_id_payload;
use codegraph_server::payload::u64_to_dec;

#[test]
fn test_decimal_spelling() {
    assert_eq!(u64_to_dec(0), "0");
    assert_eq!(u64_to_dec(7), "7");
    assert_eq!(u64_to_dec(42), "42");
    assert_eq!(u64_to_dec(18446744073709551615), "18446744073709551615");
}

#[test]
fn test_decimal_parsing() {
    assert_eq!(dec_to_u64("0"), Some(0));
    assert_eq!(dec_to_u64("123"), Some(123));
    assert_eq!(dec_to_u64(""), None);
    assert_eq!(dec_to_u64("12a"), None);
    assert_eq!(dec_to_u64("18446744073709551615"), Some(u64::MAX));
    assert_eq!(dec_to_u64("18446744073709551616"), None);
}

#[test]
fn test_payload_shape() {
    assert_eq!(encode_node_id_payload(42), "{\"nodeId\":\"42\"}");
}

#[test]
fn test_payload_round_trip() {
    for id in [0u64, 1, 7, 10, 9999, u64::MAX] {
        let payload = encode_node_id_payload(id);
        assert_eq!(extract_node_id_payload(payload.as_str()), Some(id));
    }
}

#[test]
fn test_payload_rejects_junk() {
    assert_eq!(extract_node_id_payload(""), None);
    assert_eq!(extract_node_id_payload("{\"nodeId\":\"\"}"), None);
    assert_eq!(extract_node_id_payload("{\"nodeId\":\"x7\"}"), None);
    assert_eq!(extract_node_id_payload("{\"other\":\"7\"}"), None);
}
