use tetris_server::lobby::{AcceptOutcome, Lobby, MatchRequestOutcome, RegisterOutcome};
use tetris_server::requests::{
    connect_step_of, decimal_string, handle_client_message, handle_connect_request,
    handle_registration_request, ok_response, registration_response, registration_step_of, str_eq,
    ClientAction, ConnectStep, RegistrationStep, MAX_HEADERS,
};

fn post_id(body: &str) -> Vec<u8> {
    format!(
        "POST /id HTTP/1.1\r\nHost: localhost:8081\r\nContent-Type: application/json\r\nContent-Length: {}\r\n\r\n{}",
        body.len(),
        body
    )
    .into_bytes()
}

#[test]
fn decimal_text() {
    assert_eq!(decimal_string(0), "0");
    assert_eq!(decimal_string(7), "7");
    assert_eq!(decimal_string(36), "36");
    assert_eq!(decimal_string(1204), "1204");
    assert_eq!(decimal_string(usize::MAX), usize::MAX.to_string());
}

#[test]
fn ok_response_text() {
    assert_eq!(ok_response("abc"), "HTTP/1.1 200 OK\r\nContent-Length: 3\r\n\r\nabc");
    assert_eq!(ok_response("é"), "HTTP/1.1 200 OK\r\nContent-Length: 2\r\n\r\né");
}

#[test]
fn registration_response_carries_the_id() {
    let id = 0x67e5_5044_10b1_426f_9247_bb68_0e5f_e0c8u128;
    assert_eq!(
        registration_response(id),
        "HTTP/1.1 200 OK\r\nContent-Length: 36\r\n\r\n67e55044-10b1-426f-9247-bb680e5fe0c8"
    );
}

#[test]
fn text_equality() {
    assert!(str_eq("POST", "POST"));
    assert!(!str_eq("POST", "post"));
    assert!(!str_eq("POST", "POS"));
    assert!(str_eq("", ""));
}

#[test]
fn header_room() {
    assert_eq!(MAX_HEADERS, 16);
}

#[test]
fn registration_request_registers() {
    let mut lobby = Lobby::new();
    let reply = handle_registration_request(&mut lobby, &post_id("{\"username\":\"Dave\"}"));
    assert!(matches!(reply.step, RegistrationStep::Username(ref u) if u == "Dave"));
    let id = match reply.outcome {
        Some(RegisterOutcome::Registered(id)) => id,
        other => panic!("unexpected {:?}", other),
    };
    assert_eq!(lobby.registered_id("dave"), Some(id));
    let expected = format!("HTTP/1.1 200 OK\r\nContent-Length: 36\r\n\r\n{}", uuid::Uuid::from_u128(id));
    assert_eq!(reply.response, Some(expected));

    let again = handle_registration_request(&mut lobby, &post_id("{\"username\":\"DAVE\"}"));
    assert_eq!(again.outcome, Some(RegisterOutcome::UsernameTaken));
    assert_eq!(again.response, None);
}

#[test]
fn registration_request_with_empty_username() {
    let mut lobby = Lobby::new();
    let reply = handle_registration_request(&mut lobby, &post_id("{\"username\":\"\"}"));
    assert_eq!(reply.outcome, Some(RegisterOutcome::EmptyUsername));
    assert_eq!(reply.response, None);
}

#[test]
fn registration_request_refusals() {
    let step = |raw: &[u8]| registration_step_of(raw);
    assert!(matches!(step(b"GET /id HTTP/1.1\r\nHost: a\r\n\r\n"), RegistrationStep::OtherRoute));
    assert!(matches!(step(b"POST /other HTTP/1.1\r\nContent-Length: 2\r\n\r\n{}"), RegistrationStep::OtherRoute));
    assert!(matches!(step(b"POST /id HTTP/1.1\r\nHost: a\r\n\r\n"), RegistrationStep::NoContentLength));
    assert!(matches!(step(b"POST /id HTTP/1.1\r\nContent-Length: ten\r\n\r\n{}"), RegistrationStep::ContentLengthNotNumber));
    // Raw bytes are read as UTF-8 with invalid sequences replaced first, so a
    // header value is always UTF-8 by the time it is read.
    assert!(matches!(step(b"POST /id HTTP/1.1\r\nContent-Length: \xff\r\n\r\n{}"), RegistrationStep::ContentLengthNotNumber));
    assert!(matches!(step(b"POST /id HTTP/1.1\r\nContent-Length: 50\r\n\r\n{}"), RegistrationStep::BodyOutOfRange));
    assert!(matches!(step(b"POST /id HTTP/1.1\r\nContent-Length: 3\r\n\r\nabc"), RegistrationStep::BodyNotJson));
    assert!(matches!(step(b"POST /id HTTP/1.1\r\nContent-Length: 14\r\n\r\n{\"username\":5}"), RegistrationStep::UsernameNotText));
    assert!(matches!(step(b"POST /id HTTP/1.1\r\nHost: a"), RegistrationStep::Partial));
    assert!(matches!(step(b"\x01\x02 nonsense\r\n\r\n"), RegistrationStep::Invalid));
}

#[test]
fn registration_header_name_ignores_case_and_value_is_trimmed() {
    let raw = b"POST /id HTTP/1.1\r\ncontent-LENGTH:   16 \r\n\r\n{\"username\":\"e\"}";
    assert!(matches!(registration_step_of(raw), RegistrationStep::Username(ref u) if u == "e"));
}

#[test]
fn registration_uses_the_first_content_length() {
    let raw = b"POST /id HTTP/1.1\r\nContent-Length: 2\r\nContent-Length: 16\r\n\r\n{\"username\":\"e\"}";
    assert!(matches!(registration_step_of(raw), RegistrationStep::BodyNotJson));
}

#[test]
fn registration_body_may_be_shorter_than_what_was_read() {
    let raw = b"POST /id HTTP/1.1\r\nContent-Length: 16\r\n\r\n{\"username\":\"f\"}trailing";
    assert!(matches!(registration_step_of(raw), RegistrationStep::Username(ref u) if u == "f"));
}

#[test]
fn refused_registration_request_leaves_lobby_alone() {
    let mut lobby = Lobby::new();
    let reply = handle_registration_request(&mut lobby, b"GET / HTTP/1.1\r\n\r\n");
    assert!(matches!(reply.step, RegistrationStep::OtherRoute));
    assert_eq!(reply.outcome, None);
    assert_eq!(reply.response, None);
}

#[test]
fn connect_request_steps() {
    let ok = b"GET /?username=Erin&id=abc HTTP/1.1\r\nHost: localhost:8080\r\nUpgrade: websocket\r\n\r\n";
    assert!(matches!(connect_step_of(ok), ConnectStep::Credentials(ref u) if u == "Erin"));
    let last_wins = b"GET /?username=a&username=b%20c&id=1 HTTP/1.1\r\nHOST: h\r\n\r\n";
    assert!(matches!(connect_step_of(last_wins), ConnectStep::Credentials(ref u) if u == "b c"));
    let no_id = b"GET /?username=a HTTP/1.1\r\nHost: h\r\n\r\n";
    assert!(matches!(connect_step_of(no_id), ConnectStep::MissingParams));
    let no_name = b"GET /?id=1 HTTP/1.1\r\nHost: h\r\n\r\n";
    assert!(matches!(connect_step_of(no_name), ConnectStep::MissingParams));
    let no_host = b"GET /?username=a&id=1 HTTP/1.1\r\nOrigin: h\r\n\r\n";
    assert!(matches!(connect_step_of(no_host), ConnectStep::NoHost));
    let bad_url = b"GET /?username=a&id=1 HTTP/1.1\r\nHost: bad host\r\n\r\n";
    assert!(matches!(connect_step_of(bad_url), ConnectStep::BadUrl));
    assert!(matches!(connect_step_of(b"GET / HTTP/1.1\r\nHost"), ConnectStep::Partial));
    assert!(matches!(connect_step_of(b"\x01\r\n\r\n"), ConnectStep::Invalid));
}

#[test]
fn connect_request_finds_registered_player() {
    let mut lobby = Lobby::new();
    let id = match lobby.register_username("Erin") {
        RegisterOutcome::Registered(id) => id,
        other => panic!("unexpected {:?}", other),
    };
    let raw = b"GET /?username=ERIN&id=whatever HTTP/1.1\r\nHost: localhost:8080\r\n\r\n";
    let decision = handle_connect_request(&lobby, raw);
    assert_eq!(decision.player, Some(id));
    let raw = b"GET /?username=frank&id=whatever HTTP/1.1\r\nHost: localhost:8080\r\n\r\n";
    assert_eq!(handle_connect_request(&lobby, raw).player, None);
}

#[test]
fn client_messages() {
    let mut lobby = Lobby::new();
    let alice = match lobby.register_username("alice") {
        RegisterOutcome::Registered(id) => id,
        other => panic!("unexpected {:?}", other),
    };
    let bob = match lobby.register_username("bob") {
        RegisterOutcome::Registered(id) => id,
        other => panic!("unexpected {:?}", other),
    };
    lobby.add_client(alice, "alice".to_string());
    lobby.add_client(bob, "bob".to_string());

    assert!(matches!(handle_client_message(&mut lobby, alice, "not json"), ClientAction::Malformed));
    assert!(matches!(handle_client_message(&mut lobby, alice, "{\"message\":\"hi\"}"), ClientAction::Chat));
    assert!(matches!(handle_client_message(&mut lobby, alice, "{\"matchRequest\":5}"), ClientAction::Chat));
    assert!(matches!(handle_client_message(&mut lobby, alice, "7"), ClientAction::Chat));
    match handle_client_message(&mut lobby, alice, "{\"matchRequest\":\"Bob\"}") {
        ClientAction::Request(outcome) => assert_eq!(outcome, MatchRequestOutcome::Challenge { target: bob }),
        _ => panic!("expected a challenge"),
    }
    let accept = format!("{{\"matchAccept\":\"{}\"}}", uuid::Uuid::from_u128(alice));
    match handle_client_message(&mut lobby, bob, &accept) {
        ClientAction::Accept(outcome) => assert_eq!(outcome, AcceptOutcome::MatchStarts { requester: alice }),
        _ => panic!("expected an acceptance"),
    }
    // A challenge takes precedence over an acceptance in the same message.
    let both = format!("{{\"matchRequest\":\"bob\",\"matchAccept\":\"{}\"}}", uuid::Uuid::from_u128(bob));
    assert!(matches!(handle_client_message(&mut lobby, alice, &both), ClientAction::Request(_)));
}

#[test]
fn only_a_json_string_is_a_username() {
    for body in [
        "{\"username\":null}",
        "{\"username\":true}",
        "{\"username\":1.5}",
        "{\"username\":[\"a\"]}",
        "{\"username\":{\"a\":1}}",
        "{\"name\":\"a\"}",
        "[\"username\"]",
    ] {
        let step = registration_step_of(&post_id(body));
        assert!(matches!(step, RegistrationStep::UsernameNotText), "body {}", body);
    }
}

#[test]
fn content_length_with_plus_sign_or_tabs() {
    let raw = b"POST /id HTTP/1.1\r\nContent-Length: +16\r\n\r\n{\"username\":\"g\"}";
    assert!(matches!(registration_step_of(raw), RegistrationStep::Username(ref u) if u == "g"));
    let raw = b"POST /id HTTP/1.1\r\nContent-Length: -16\r\n\r\n{\"username\":\"g\"}";
    assert!(matches!(registration_step_of(raw), RegistrationStep::ContentLengthNotNumber));
    let raw = b"POST /id HTTP/1.1\r\nContent-Length: 1_6\r\n\r\n{\"username\":\"g\"}";
    assert!(matches!(registration_step_of(raw), RegistrationStep::ContentLengthNotNumber));
    let raw = b"POST /id HTTP/1.1\r\nContent-Length: 99999999999999999999999\r\n\r\n{}";
    assert!(matches!(registration_step_of(raw), RegistrationStep::ContentLengthNotNumber));
}

#[test]
fn acceptance_read_when_challenge_is_not_text() {
    let mut lobby = Lobby::new();
    let alice = match lobby.register_username("alice") {
        RegisterOutcome::Registered(id) => id,
        other => panic!("unexpected {:?}", other),
    };
    let bob = match lobby.register_username("bob") {
        RegisterOutcome::Registered(id) => id,
        other => panic!("unexpected {:?}", other),
    };
    lobby.add_client(alice, "alice".to_string());
    lobby.add_client(bob, "bob".to_string());
    let msg = format!("{{\"matchRequest\":false,\"matchAccept\":\"{}\"}}", uuid::Uuid::from_u128(alice));
    match handle_client_message(&mut lobby, bob, &msg) {
        ClientAction::Accept(outcome) => assert_eq!(outcome, AcceptOutcome::NoPendingRequest),
        _ => panic!("expected an acceptance"),
    }
    assert!(matches!(handle_client_message(&mut lobby, bob, "{\"matchAccept\":[1]}"), ClientAction::Chat));
}
