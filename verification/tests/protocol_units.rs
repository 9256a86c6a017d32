//! Unit tests of the wire grammar, the registry rules, dependency
//! resolution, identity scanning and the pipeline decisions.

use criu_coordinator::client::{
    find_container_id, find_dependencies_in_global_config, is_dump_action, is_restore_action,
    parse_global_config, parse_local_config, streaming_mode, StreamingMode,
};
use criu_coordinator::messages::{is_ack, is_img_ack, is_syn, Action, Response};
use criu_coordinator::pipeline::protobuf::{
    frame_size_ok, le32_of, streamer_request_filename,
};
use criu_coordinator::pipeline::unix_pipe::{desired_pipe_capacity, halved_capacity};
use criu_coordinator::server::{Server, SessionStep, StreamDirective};
use criu_coordinator::text::{join_colon, split_str, str_eq, str_is_prefix};
use criu_coordinator::wire::{
    encode_checkpoint_config, encode_header, encode_image_descriptor, get_field, parse_document,
    u64_to_dec, FieldValue,
};

// ------------------------------------------------------------------
// Wire grammar
// ------------------------------------------------------------------

#[test]
fn header_round_trip() {
    let header = encode_header("A", "pre-dump", "B:C").unwrap();
    assert_eq!(header, "{\"id\":\"A\",\"action\":\"pre-dump\",\"dependencies\":\"B:C\"}");
    let doc = parse_document(header.as_str()).unwrap();
    match get_field(&doc, "id") {
        Some(FieldValue::Text(t)) => assert_eq!(t, "A"),
        _ => panic!("id must be a text field"),
    }
    match get_field(&doc, "action") {
        Some(FieldValue::Text(t)) => assert_eq!(t, "pre-dump"),
        _ => panic!("action must be a text field"),
    }
    match get_field(&doc, "dependencies") {
        Some(FieldValue::Text(t)) => assert_eq!(t, "B:C"),
        _ => panic!("dependencies must be a text field"),
    }
}

#[test]
fn parser_accepts_whitespace_and_any_field_order() {
    let text = "{\n  \"action\": \"pre-restore\",\n  \"id\": \"web-1\",\n  \"dependencies\": \"db\"\n}\n";
    let doc = parse_document(text).unwrap();
    match get_field(&doc, "id") {
        Some(FieldValue::Text(t)) => assert_eq!(t, "web-1"),
        _ => panic!("id must be a text field"),
    }
}

#[test]
fn parser_rejects_malformed_documents() {
    assert!(parse_document("").is_none());
    assert!(parse_document("{").is_none());
    assert!(parse_document("{}x").is_none());
    assert!(parse_document("{\"id\":}").is_none());
    assert!(parse_document("{\"id\":\"A\",}").is_none());
    assert!(parse_document("{\"id\":\"A\\\"B\"}").is_none());
    assert!(parse_document("not json").is_none());
}

#[test]
fn parser_reads_numbers_and_tables() {
    let doc = parse_document("{\"img_size\": 4096, \"deps\": {\"A\": [\"B\", \"C\"], \"B\": []}}")
        .unwrap();
    match get_field(&doc, "img_size") {
        Some(FieldValue::Number(n)) => assert_eq!(*n, 4096),
        _ => panic!("img_size must be a number"),
    }
    match get_field(&doc, "deps") {
        Some(FieldValue::Table(t)) => {
            assert_eq!(t.len(), 2);
            assert_eq!(t[0].0, "A");
            assert_eq!(t[0].1, vec!["B".to_string(), "C".to_string()]);
            assert!(t[1].1.is_empty());
        },
        _ => panic!("deps must be a table"),
    }
}

#[test]
fn number_overflow_is_rejected() {
    assert!(parse_document("{\"img_size\": 18446744073709551615}").is_some());
    assert!(parse_document("{\"img_size\": 18446744073709551616}").is_none());
}

#[test]
fn decimal_encoding_is_exact() {
    assert_eq!(u64_to_dec(0), "0");
    assert_eq!(u64_to_dec(7), "7");
    assert_eq!(u64_to_dec(1024), "1024");
    assert_eq!(u64_to_dec(18446744073709551615), "18446744073709551615");
}

#[test]
fn image_descriptor_round_trip() {
    let d = encode_image_descriptor("pages-1.img", 8192).unwrap();
    assert_eq!(d, "{\"img_name\":\"pages-1.img\",\"img_size\":8192}");
    match criu_coordinator::server::stream_receiver_step(d.as_str()) {
        StreamDirective::Receive(name, size) => {
            assert_eq!(name, "pages-1.img");
            assert_eq!(size, 8192);
        },
        _ => panic!("descriptor must ask for bytes"),
    }
}

#[test]
fn stream_receiver_recognizes_syn_and_garbage() {
    assert!(matches!(
        criu_coordinator::server::stream_receiver_step("SYN"),
        StreamDirective::Finished
    ));
    assert!(matches!(
        criu_coordinator::server::stream_receiver_step("{\"img_name\":\"x\"}"),
        StreamDirective::Malformed
    ));
    assert!(matches!(
        criu_coordinator::server::stream_receiver_step("garbage"),
        StreamDirective::Malformed
    ));
}

#[test]
fn checkpoint_config_contents() {
    let c = encode_checkpoint_config("A", "B:C").unwrap();
    assert_eq!(c, "{\n   \"id\": \"A\",\n   \"dependencies\": \"B:C\"\n}");
    let conf = parse_local_config(c.as_str()).unwrap();
    assert_eq!(conf.get_id(), "A");
    assert_eq!(conf.get_dependencies(), "B:C");
    assert_eq!(conf.get_address(), "127.0.0.1");
    assert_eq!(conf.get_port(), "8080");
    assert_eq!(conf.get_log_file(), "-");
}

#[test]
fn unclean_fields_are_refused() {
    assert!(encode_header("A\"B", "pre-dump", "").is_none());
    assert!(encode_image_descriptor("a\\b", 1).is_none());
    assert!(encode_checkpoint_config("A", "B\"").is_none());
}

// ------------------------------------------------------------------
// Text utilities
// ------------------------------------------------------------------

#[test]
fn split_and_join() {
    let parts = split_str("A:B:C", ':');
    assert_eq!(parts, vec!["A".to_string(), "B".to_string(), "C".to_string()]);
    assert_eq!(join_colon(&parts), "A:B:C");
    assert_eq!(split_str("", ':'), vec!["".to_string()]);
    assert_eq!(split_str("A::B", ':'), vec!["A".to_string(), "".to_string(), "B".to_string()]);
    assert_eq!(join_colon(&Vec::new()), "");
}

#[test]
fn string_predicates() {
    assert!(str_eq("abc", "abc"));
    assert!(!str_eq("abc", "abd"));
    assert!(!str_eq("abc", "abcd"));
    assert!(str_is_prefix("ab", "abcd"));
    assert!(str_is_prefix("", "abcd"));
    assert!(!str_is_prefix("abd", "abcd"));
    assert!(!str_is_prefix("abcde", "abcd"));
}

#[test]
fn action_classification() {
    assert!(is_dump_action("pre-dump"));
    assert!(is_dump_action("network-lock"));
    assert!(is_dump_action("post-dump"));
    assert!(is_dump_action("pre-stream"));
    assert!(!is_dump_action("pre-restore"));
    assert!(is_restore_action("pre-restore"));
    assert!(is_restore_action("post-restore"));
    assert!(is_restore_action("network-unlock"));
    assert!(is_restore_action("post-resume"));
    assert!(!is_restore_action("post-stream"));
    assert_eq!(Action::from_name("pre-dump"), Some(Action::PreDump));
    assert_eq!(Action::from_name("no-such-action"), None);
    assert_eq!(Action::PostDump.name(), "post-dump");
    assert!(is_ack("ACK"));
    assert!(!is_ack("timeout"));
    assert!(is_syn("SYN"));
    assert!(is_img_ack("IMG_ACK"));
    assert_eq!(Response::AlreadyConnected.text(), "client already connected");
    assert_eq!(Response::CheckpointExists.text(), "checkpoint is already created");
    assert_eq!(Response::NotConnected.text(), "not connected");
}

// ------------------------------------------------------------------
// Identity and dependency resolution
// ------------------------------------------------------------------

#[test]
fn container_id_from_cgroup_lines() {
    let id = "0123456789abcdef0123456789abcdef0123456789abcdef0123456789abcdef";
    let content = format!(
        "12:pids:/init.scope\n11:memory:/system.slice/docker-{}.scope\n10:cpu:/\n",
        id
    );
    assert_eq!(find_container_id(content.as_str()).unwrap(), id);
    assert!(find_container_id("12:pids:/init.scope\n10:cpu:/\n").is_none());
    // A 65-character hexadecimal run has no bounded 64-character token.
    let long = format!("0:x:/{}0\n", id);
    assert!(find_container_id(long.as_str()).is_none());
}

#[test]
fn container_id_last_match_wins() {
    let a = "aaaaaaaaaaaaaaaaaaaaaaaaaaaaaaaaaaaaaaaaaaaaaaaaaaaaaaaaaaaaaaaa";
    let b = "bbbbbbbbbbbbbbbbbbbbbbbbbbbbbbbbbbbbbbbbbbbbbbbbbbbbbbbbbbbbbbbb";
    let content = format!("1:x:/{a}\n2:y:/{b}\n");
    assert_eq!(find_container_id(content.as_str()).unwrap(), b);
}

#[test]
fn prefix_rule_takes_first_match() {
    let map = vec![
        ("web".to_string(), vec!["db".to_string(), "cache".to_string()]),
        ("web-1".to_string(), vec!["db".to_string()]),
        ("db".to_string(), Vec::new()),
    ];
    assert_eq!(
        find_dependencies_in_global_config(&map, "web-1-0123").unwrap(),
        "db:cache"
    );
    let err = find_dependencies_in_global_config(&map, "cache-0").unwrap_err();
    assert_eq!(
        err,
        "No dependency entry found for container ID matching 'cache-0'"
    );
}

#[test]
fn global_config_with_dependency_table() {
    let text = "{\n  \"address\": \"10.0.0.1\",\n  \"port\": \"9000\",\n  \"dependencies\": {\n    \"A\": [\"B\", \"C\"],\n    \"B\": [\"C\", \"A\"]\n  }\n}";
    let conf = parse_global_config(text).unwrap();
    assert_eq!(conf.address, "10.0.0.1");
    assert_eq!(conf.port, "9000");
    assert_eq!(conf.log_file, "-");
    let table = conf.dependencies.unwrap();
    assert_eq!(
        find_dependencies_in_global_config(&table, "A-container").unwrap(),
        "B:C"
    );
}

#[test]
fn streaming_mode_decision() {
    assert_eq!(streaming_mode(Action::PreStream, false, false), StreamingMode::Stream);
    assert_eq!(streaming_mode(Action::PreDump, true, true), StreamingMode::Skip);
    assert_eq!(streaming_mode(Action::PreDump, true, false), StreamingMode::Reject);
    assert_eq!(streaming_mode(Action::PreDump, false, false), StreamingMode::Plain);
    assert_eq!(streaming_mode(Action::PreRestore, true, true), StreamingMode::Plain);
}

// ------------------------------------------------------------------
// Registry rules
// ------------------------------------------------------------------

fn open(server: &mut Server, id: &str, action: &str, deps: &str) -> (criu_coordinator::server::Session, Option<Response>) {
    let header = encode_header(id, action, deps).unwrap();
    let msg = server.read_message(header.as_str()).unwrap();
    server.open_session(msg)
}

fn settle(server: &mut Server, s: &mut criu_coordinator::server::Session) -> Response {
    loop {
        match server.advance_session(s) {
            SessionStep::Progress => continue,
            SessionStep::Wait => continue,
            SessionStep::Reply(r) => {
                server.close_session(s);
                return r;
            }
        }
    }
}

#[test]
fn duplicate_session_is_rejected_and_original_untouched() {
    let mut server = Server::new("127.0.0.1", 8080, 5);
    let (mut a, none) = open(&mut server, "A", "pre-dump", "");
    assert!(none.is_none());
    // A second concurrent session with the same id is turned away.
    let (dup, verdict) = open(&mut server, "A", "pre-dump", "");
    assert_eq!(verdict, Some(Response::AlreadyConnected));
    server.close_session(&dup);
    // Even a duplicate that names a terminal action must not disturb the
    // original session's entry.
    let (dup2, verdict2) = open(&mut server, "A", "post-stream", "");
    assert_eq!(verdict2, Some(Response::AlreadyConnected));
    server.close_session(&dup2);
    assert!(server.clients.contains("A"));
    // The original session is still fully operational.
    assert_eq!(settle(&mut server, &mut a), Response::Ack);
    assert!(server.clients.contains("A"));
}

#[test]
fn registry_ends_empty_after_terminal_actions() {
    let mut server = Server::new("127.0.0.1", 8080, 5);
    let (mut a, _) = open(&mut server, "A", "pre-dump", "");
    assert_eq!(settle(&mut server, &mut a), Response::Ack);
    assert!(!server.clients.is_empty());
    let (mut a2, _) = open(&mut server, "A", "post-dump", "");
    assert_eq!(settle(&mut server, &mut a2), Response::Ack);
    assert!(server.clients.is_empty());
}

#[test]
fn post_dump_without_session_is_not_connected() {
    let mut server = Server::new("127.0.0.1", 8080, 5);
    let (s, verdict) = open(&mut server, "ghost", "post-dump", "");
    assert_eq!(verdict, Some(Response::NotConnected));
    server.close_session(&s);
    assert!(server.clients.is_empty());
}

#[test]
fn second_checkpoint_is_refused() {
    let mut server = Server::new("127.0.0.1", 8080, 5);
    let (mut a, _) = open(&mut server, "A", "pre-stream", "");
    assert_eq!(settle(&mut server, &mut a), Response::Ack);
    // After the client's SYN the local checkpoint is recorded ...
    server.mark_local_checkpoint("A");
    assert!(server.clients.get("A").unwrap().has_local_checkpoint());
    // ... so a post-dump for the same session reports it exists.
    let (s, verdict) = open(&mut server, "A", "post-dump", "");
    assert_eq!(verdict, Some(Response::CheckpointExists));
    server.close_session(&s);
    // The terminal post-dump still removed the entry.
    assert!(server.clients.is_empty());
}

#[test]
fn ready_implies_connected_in_registry() {
    let mut server = Server::new("127.0.0.1", 8080, 5);
    let (mut a, _) = open(&mut server, "A", "pre-dump", "");
    assert_eq!(settle(&mut server, &mut a), Response::Ack);
    let st = server.clients.get("A").unwrap();
    assert!(st.is_ready());
    assert!(st.is_connected());
    assert!(!st.has_local_checkpoint());
}

#[test]
fn local_checkpoint_never_recorded_for_restore() {
    let mut server = Server::new("127.0.0.1", 8080, 5);
    let (mut a, _) = open(&mut server, "A", "pre-restore", "");
    assert_eq!(settle(&mut server, &mut a), Response::Ack);
    // Even an explicit attempt leaves a restore session without the flag.
    server.mark_local_checkpoint("A");
    assert!(!server.clients.get("A").unwrap().has_local_checkpoint());
}

#[test]
fn bulk_dependencies_feed_later_sessions() {
    let mut server = Server::new("127.0.0.1", 8080, 5);
    let bulk =
        "{\"id\":\"bulk-deps-client\",\"action\":\"add-dependencies\",\"dependencies\":{\"A\":[\"B\",\"A\"],\"B\":[\"A\"]}}";
    let msg = server.read_message(bulk).unwrap();
    let (s, verdict) = server.open_session(msg);
    assert_eq!(verdict, Some(Response::Ack));
    server.close_session(&s);
    // A client that supplies no dependencies gets them from the bulk map,
    // cleared of itself.
    let header = encode_header("A", "pre-dump", "").unwrap();
    let msg = server.read_message(header.as_str()).unwrap();
    assert_eq!(msg.dependencies, vec!["B".to_string()]);
    // A non-bulk client may not send a table.
    let bad = "{\"id\":\"A\",\"action\":\"pre-dump\",\"dependencies\":{\"A\":[\"B\"]}}";
    assert!(server.read_message(bad).is_none());
}

// ------------------------------------------------------------------
// Pre-stream scenario
// ------------------------------------------------------------------

#[test]
fn pre_stream_smoke() {
    let mut server = Server::new("127.0.0.1", 8080, 5);
    let (mut a, none) = open(&mut server, "A", "pre-stream", "");
    assert!(none.is_none());
    // The server acknowledges readiness ...
    assert_eq!(settle(&mut server, &mut a), Response::Ack);
    // ... the client sends SYN, upon which the checkpoint is recorded ...
    assert!(matches!(
        criu_coordinator::server::stream_receiver_step("SYN"),
        StreamDirective::Finished
    ));
    server.mark_local_checkpoint("A");
    // ... and one image descriptor asks for exactly its size in bytes.
    let bytes = b"hello checkpoint";
    let descriptor = encode_image_descriptor("x.img", bytes.len() as u64).unwrap();
    match criu_coordinator::server::stream_receiver_step(descriptor.as_str()) {
        StreamDirective::Receive(name, size) => {
            assert_eq!(name, "x.img");
            assert_eq!(size as usize, bytes.len());
        },
        _ => panic!("descriptor must ask for bytes"),
    }
    // The final SYN ends the transfer; pre-stream is not terminal, so the
    // session entry stays until its terminal action.
    assert!(matches!(
        criu_coordinator::server::stream_receiver_step("SYN"),
        StreamDirective::Finished
    ));
    assert!(server.clients.contains("A"));
    assert!(server.clients.get("A").unwrap().has_local_checkpoint());
}

// ------------------------------------------------------------------
// Pipeline decisions
// ------------------------------------------------------------------

#[test]
fn little_endian_length() {
    assert_eq!(le32_of(0, 0, 0, 0), 0);
    assert_eq!(le32_of(1, 0, 0, 0), 1);
    assert_eq!(le32_of(0x78, 0x56, 0x34, 0x12), 0x12345678);
    assert!(frame_size_ok(10239));
    assert!(!frame_size_ok(10240));
}

#[test]
fn streamer_request_decoding() {
    // tag 1 (length-delimited), length 9, "pages.img"
    let mut msg: Vec<u8> = vec![0x0A, 9];
    msg.extend_from_slice(b"pages.img");
    assert_eq!(streamer_request_filename(&msg).unwrap(), b"pages.img".to_vec());
    // A wrong tag, a bad length, or trailing bytes are rejected.
    assert!(streamer_request_filename(&vec![0x12, 1, b'x']).is_none());
    assert!(streamer_request_filename(&vec![0x0A, 5, b'x']).is_none());
    assert!(streamer_request_filename(&Vec::new()).is_none());
}

#[test]
fn pipe_capacity_halving() {
    assert_eq!(desired_pipe_capacity(), 4 * 1024 * 1024);
    assert_eq!(halved_capacity(4 * 1024 * 1024, 4096), Some(2 * 1024 * 1024));
    assert_eq!(halved_capacity(8192, 4096), Some(4096));
    assert_eq!(halved_capacity(4096, 4096), None);
}
