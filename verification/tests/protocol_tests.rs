use rendezvous::msg::encode;
use rendezvous::msg::MsgType;
use rendezvous::server::Server;

#[test]
fn encode_ping_response_exactly() {
    assert_eq!(encode(&MsgType::PingResponse), "{\"msg_type\":\"PingResponse\"}");
    assert_eq!(encode(&MsgType::PingRequest), "{\"msg_type\":\"PingRequest\"}");
    assert_eq!(
        encode(&MsgType::HostRegisterRequest),
        "{\"msg_type\":\"HostRegisterRequest\"}"
    );
}

#[test]
fn encode_register_response_exactly() {
    let m = MsgType::HostRegisterResponse { host_code: "3F2A9B1C".to_string() };
    assert_eq!(
        encode(&m),
        "{\"msg_type\":\"HostRegisterResponse\",\"host_code\":\"3F2A9B1C\"}"
    );
}

#[test]
fn encode_lookup_request_exactly() {
    let m = MsgType::HostLookupRequest { host_code: "3F2A9B1C".to_string() };
    assert_eq!(
        encode(&m),
        "{\"msg_type\":\"HostLookupRequest\",\"host_code\":\"3F2A9B1C\"}"
    );
}

#[test]
fn encode_escapes_json_metacharacters() {
    let m = MsgType::ClientLookupResponse { client_info: "a\"b\\c\nd".to_string() };
    assert_eq!(
        encode(&m),
        "{\"msg_type\":\"ClientLookupResponse\",\"client_info\":\"a\\\"b\\\\c\\nd\"}"
    );
    // The escaped text is well-formed JSON carrying the original value.
    let v: serde_json::Value = serde_json::from_str(&encode(&m)).unwrap();
    assert_eq!(v["client_info"].as_str(), Some("a\"b\\c\nd"));
}

#[test]
fn encode_escapes_control_characters() {
    let m = MsgType::HostLookupResponse {
        success: true,
        host_info: "x\u{01}y\t\r".to_string(),
    };
    assert_eq!(
        encode(&m),
        "{\"msg_type\":\"HostLookupResponse\",\"success\":true,\"host_info\":\"x\\u0001y\\t\\r\"}"
    );
    let v: serde_json::Value = serde_json::from_str(&encode(&m)).unwrap();
    assert_eq!(v["host_info"].as_str(), Some("x\u{01}y\t\r"));
}

#[test]
fn awkward_origin_addresses_round_trip_through_the_wire() {
    let mut server = Server::new(10, 40);
    let origin = "host \"eight\"\\1:99";
    let outs = server.handle_message("{\"msg_type\":\"HostRegisterRequest\"}", origin, 0);
    assert_eq!(outs.len(), 1);
    let v: serde_json::Value = serde_json::from_str(&outs[0].payload).unwrap();
    let code = v["host_code"].as_str().unwrap().to_string();
    // A lookup reports the host's address intact despite the escaping.
    let req = format!("{{\"msg_type\":\"HostLookupRequest\",\"host_code\":\"{}\"}}", code);
    let outs = server.handle_message(&req, "client", 1);
    assert_eq!(outs.len(), 2);
    assert_eq!(outs[0].dest, origin);
    let to_client: serde_json::Value = serde_json::from_str(&outs[1].payload).unwrap();
    assert_eq!(to_client["host_info"].as_str(), Some(origin));
}

#[test]
fn inbound_messages_tolerate_field_order_and_whitespace() {
    let mut server = Server::new(10, 40);
    let outs = server.handle_message("{\"msg_type\":\"HostRegisterRequest\"}", "A", 0);
    let v: serde_json::Value = serde_json::from_str(&outs[0].payload).unwrap();
    let code = v["host_code"].as_str().unwrap().to_string();
    let req = format!(
        " {{ \"host_code\" : \"{}\" , \"msg_type\" : \"HostLookupRequest\" }} ",
        code
    );
    let outs = server.handle_message(&req, "B", 1);
    assert_eq!(outs.len(), 2);
}
