use rendezvous::server::OutMsg;
use rendezvous::server::Server;

// Liveness policy under test: ping every 10 s, evict after 40 s of silence.
const PING_INTERVAL: u64 = 10;
const REMOVAL_TIMEOUT: u64 = 40;

fn new_server() -> Server {
    Server::new(PING_INTERVAL, REMOVAL_TIMEOUT)
}

fn register(server: &mut Server, addr: &str, now: u64) -> String {
    let outs = server.handle_message("{\"msg_type\":\"HostRegisterRequest\"}", addr, now);
    assert_eq!(outs.len(), 1);
    assert_eq!(outs[0].dest, addr);
    let v: serde_json::Value = serde_json::from_str(&outs[0].payload).unwrap();
    assert_eq!(v["msg_type"].as_str(), Some("HostRegisterResponse"));
    v["host_code"].as_str().unwrap().to_string()
}

fn lookup(server: &mut Server, code: &str, from: &str, now: u64) -> Vec<OutMsg> {
    let req = format!("{{\"msg_type\":\"HostLookupRequest\",\"host_code\":\"{}\"}}", code);
    server.handle_message(&req, from, now)
}

#[test]
fn register_same_address_twice_returns_same_code() {
    let mut server = new_server();
    let c1 = register(&mut server, "10.0.0.1:5000", 0);
    let c2 = register(&mut server, "10.0.0.1:5000", 5);
    assert_eq!(c1, c2);
    assert_eq!(server.registry.hosts.len(), 1);
}

#[test]
fn register_distinct_addresses_yields_distinct_codes() {
    let mut server = new_server();
    let c1 = register(&mut server, "10.0.0.1:5000", 0);
    let c2 = register(&mut server, "10.0.0.2:5000", 0);
    let c3 = register(&mut server, "10.0.0.3:5000", 0);
    assert_ne!(c1, c2);
    assert_ne!(c1, c3);
    assert_ne!(c2, c3);
    assert_eq!(server.registry.hosts.len(), 3);
}

#[test]
fn codes_are_eight_symbols_over_the_hex_alphabet() {
    let mut server = new_server();
    let code = register(&mut server, "10.0.0.1:5000", 0);
    assert_eq!(code.chars().count(), 8);
    assert!(code.chars().all(|c| "0123456789ABCDEF".contains(c)));
}

#[test]
fn silent_host_is_evicted_after_removal_timeout() {
    let mut server = new_server();
    let code = register(&mut server, "A", 0);
    let hit = lookup(&mut server, &code, "B", 1);
    assert_eq!(hit.len(), 2);
    // No traffic from A for exactly the removal timeout: evicted.
    let (_pings, disconnects) = server.tick(REMOVAL_TIMEOUT);
    assert_eq!(disconnects, vec!["A".to_string()]);
    let miss = lookup(&mut server, &code, "B", 41);
    assert_eq!(miss.len(), 1);
    let v: serde_json::Value = serde_json::from_str(&miss[0].payload).unwrap();
    assert_eq!(v["success"].as_bool(), Some(false));
}

#[test]
fn pinging_host_is_never_evicted() {
    let mut server = new_server();
    let _code = register(&mut server, "A", 0);
    // A ping 35 s in refreshes the host's liveness.
    let outs = server.handle_message("{\"msg_type\":\"PingRequest\"}", "A", 35);
    assert_eq!(outs.len(), 1);
    assert_eq!(outs[0].payload, "{\"msg_type\":\"PingResponse\"}");
    // 39 s after that ping: still short of the removal timeout.
    let (_pings, disconnects) = server.tick(74);
    assert!(disconnects.is_empty());
    assert_eq!(server.registry.hosts.len(), 1);
    // One more second of silence reaches the timeout: evicted.
    let (_pings, disconnects) = server.tick(75);
    assert_eq!(disconnects, vec!["A".to_string()]);
    assert_eq!(server.registry.hosts.len(), 0);
}

#[test]
fn sweep_pings_hosts_past_the_ping_interval() {
    let mut server = new_server();
    let _code = register(&mut server, "A", 0);
    // Not yet due: nothing sent.
    let (pings, _) = server.tick(PING_INTERVAL);
    assert!(pings.is_empty());
    // Past the interval: one ping, and the send is noted.
    let (pings, _) = server.tick(PING_INTERVAL + 1);
    assert_eq!(pings.len(), 1);
    assert_eq!(pings[0].dest, "A");
    assert_eq!(pings[0].payload, "{\"msg_type\":\"PingResponse\"}");
    let (pings, _) = server.tick(PING_INTERVAL + 2);
    assert!(pings.is_empty());
}

#[test]
fn ping_from_unknown_address_is_ignored() {
    let mut server = new_server();
    let _code = register(&mut server, "A", 0);
    let outs = server.handle_message("{\"msg_type\":\"PingRequest\"}", "B", 1);
    assert!(outs.is_empty());
    assert_eq!(server.registry.hosts.len(), 1);
    assert!(server.tracker.entries.is_empty());
}

#[test]
fn empty_code_lookup_fails_without_touching_the_registry() {
    let mut server = new_server();
    let _code = register(&mut server, "A", 0);
    let outs = lookup(&mut server, "", "B", 1);
    assert_eq!(outs.len(), 1);
    assert_eq!(outs[0].dest, "B");
    assert_eq!(
        outs[0].payload,
        "{\"msg_type\":\"HostLookupResponse\",\"success\":false,\"host_info\":\"\"}"
    );
}

#[test]
fn missing_code_field_reads_as_empty_code() {
    let mut server = new_server();
    let outs = server.handle_message("{\"msg_type\":\"HostLookupRequest\"}", "B", 0);
    assert_eq!(outs.len(), 1);
    assert_eq!(
        outs[0].payload,
        "{\"msg_type\":\"HostLookupResponse\",\"success\":false,\"host_info\":\"\"}"
    );
}

#[test]
fn unknown_code_lookup_fails_like_the_empty_one() {
    let mut server = new_server();
    let _code = register(&mut server, "A", 0);
    let outs = lookup(&mut server, "00000000", "B", 1);
    assert_eq!(outs.len(), 1);
    assert_eq!(outs[0].dest, "B");
    assert_eq!(
        outs[0].payload,
        "{\"msg_type\":\"HostLookupResponse\",\"success\":false,\"host_info\":\"\"}"
    );
}

#[test]
fn successful_lookup_answers_requester_and_notifies_host() {
    let mut server = new_server();
    let code = register(&mut server, "A", 0);
    let outs = lookup(&mut server, &code, "B", 1);
    assert_eq!(outs.len(), 2);
    // The resolved host learns who is about to connect to it.
    assert_eq!(outs[0].dest, "A");
    assert_eq!(
        outs[0].payload,
        "{\"msg_type\":\"ClientLookupResponse\",\"client_info\":\"B\"}"
    );
    // The requester gets the host's address.
    assert_eq!(outs[1].dest, "B");
    assert_eq!(
        outs[1].payload,
        "{\"msg_type\":\"HostLookupResponse\",\"success\":true,\"host_info\":\"A\"}"
    );
}

#[test]
fn malformed_input_is_dropped_silently() {
    let mut server = new_server();
    let code = register(&mut server, "A", 0);
    let cases = [
        "",
        "{\"msg_type\"",
        "not json at all",
        "{\"foo\":\"bar\"}",
        "{\"msg_type\":\"NoSuchThing\"}",
        "{\"msg_type\":\"PingRequest\",\"n\":5}",
        "[1,2,3]",
        "{\"msg_type\":\"HostLookupResponse\",\"success\":\"true\",\"host_info\":\"x\"}",
    ];
    for case in cases {
        let outs = server.handle_message(case, "A", 1);
        assert!(outs.is_empty(), "expected no reply for {:?}", case);
    }
    // The registry is untouched: the code still resolves.
    let outs = lookup(&mut server, &code, "B", 2);
    assert_eq!(outs.len(), 2);
}

#[test]
fn idle_client_connection_is_pruned() {
    let mut server = new_server();
    server.note_activity("C", 0);
    // Still within the timeout: kept.
    let (_, disconnects) = server.tick(REMOVAL_TIMEOUT);
    assert!(disconnects.is_empty());
    // Strictly past it: dropped.
    let (_, disconnects) = server.tick(REMOVAL_TIMEOUT + 1);
    assert_eq!(disconnects, vec!["C".to_string()]);
    assert!(server.tracker.entries.is_empty());
}

#[test]
fn disconnected_client_is_forgotten() {
    let mut server = new_server();
    server.note_activity("C", 0);
    server.note_disconnect("C");
    let (_, disconnects) = server.tick(REMOVAL_TIMEOUT + 1);
    assert!(disconnects.is_empty());
}

#[test]
fn registration_stops_connection_tracking() {
    let mut server = new_server();
    server.note_activity("A", 0);
    let _code = register(&mut server, "A", 1);
    assert!(server.tracker.entries.is_empty());
    // Later activity from the registered host is not tracked either.
    server.note_activity("A", 2);
    assert!(server.tracker.entries.is_empty());
}

#[test]
fn end_to_end_rendezvous_and_eviction() {
    let mut server = new_server();
    // Host registers from address A and receives a valid 8-symbol code.
    let code = register(&mut server, "A", 0);
    assert_eq!(code.chars().count(), 8);
    assert!(code.chars().all(|c| "0123456789ABCDEF".contains(c)));
    // Client resolves the code from address B.
    let outs = lookup(&mut server, &code, "B", 1);
    assert_eq!(outs.len(), 2);
    let to_host: serde_json::Value = serde_json::from_str(&outs[0].payload).unwrap();
    assert_eq!(outs[0].dest, "A");
    assert_eq!(to_host["client_info"].as_str(), Some("B"));
    let to_client: serde_json::Value = serde_json::from_str(&outs[1].payload).unwrap();
    assert_eq!(outs[1].dest, "B");
    assert_eq!(to_client["success"].as_bool(), Some(true));
    assert_eq!(to_client["host_info"].as_str(), Some("A"));
    // 60 s later, with no further traffic from A, a sweep evicts the host.
    let (_, disconnects) = server.tick(60);
    assert_eq!(disconnects, vec!["A".to_string()]);
    // The code no longer resolves.
    let outs = lookup(&mut server, &code, "B", 61);
    assert_eq!(outs.len(), 1);
    let v: serde_json::Value = serde_json::from_str(&outs[0].payload).unwrap();
    assert_eq!(v["success"].as_bool(), Some(false));
    assert_eq!(v["host_info"].as_str(), Some(""));
}
