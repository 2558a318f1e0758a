use tetris_server::lobby::{AcceptOutcome, Lobby, MatchRequestOutcome, RegisterOutcome};

fn registered(lobby: &mut Lobby, name: &str) -> u128 {
    match lobby.register_username(name) {
        RegisterOutcome::Registered(id) => id,
        other => panic!("registration of {} gave {:?}", name, other),
    }
}

fn uuid_text(id: u128) -> String {
    uuid::Uuid::from_u128(id).to_string()
}

#[test]
fn registration_is_case_insensitive_and_unique() {
    let mut lobby = Lobby::new();
    assert_eq!(lobby.register_username(""), RegisterOutcome::EmptyUsername);
    let id = registered(&mut lobby, "Alice");
    assert_eq!(lobby.registered_id("alice"), Some(id));
    assert_eq!(lobby.registered_id("ALICE"), Some(id));
    assert_eq!(lobby.register_username("aLiCe"), RegisterOutcome::UsernameTaken);
    assert_eq!(lobby.registered_id("bob"), None);
    let bob = registered(&mut lobby, "Bob");
    assert_ne!(bob, id);
    assert_eq!(lobby.registered_id("alice"), Some(id));
}

#[test]
fn registered_ids_are_version_four_uuids() {
    let mut lobby = Lobby::new();
    let id = registered(&mut lobby, "carol");
    assert_eq!(uuid::Uuid::from_u128(id).get_version_num(), 4);
    assert_eq!(uuid::Uuid::from_u128(id).get_variant(), uuid::Variant::RFC4122);
    assert_eq!((id >> 76) & 0xf, 4);
    assert_eq!((id >> 62) & 3, 2);
}

#[test]
fn challenge_and_accept_start_a_match() {
    let mut lobby = Lobby::new();
    let alice = registered(&mut lobby, "Alice");
    let bob = registered(&mut lobby, "Bob");
    lobby.add_client(alice, "Alice".to_string());
    lobby.add_client(bob, "Bob".to_string());
    assert!(lobby.is_connected(alice));
    assert_eq!(lobby.pending_requests(alice), Some(vec![]));

    assert_eq!(lobby.request_match(alice, "BOB"), MatchRequestOutcome::Challenge { target: bob });
    assert_eq!(lobby.pending_requests(alice), Some(vec![bob]));
    assert_eq!(lobby.pending_requests(bob), Some(vec![]));

    // Alice cannot accept her own challenge to Bob.
    assert_eq!(lobby.accept_match(alice, &uuid_text(bob)), AcceptOutcome::NoPendingRequest);
    assert_eq!(lobby.accept_match(bob, &uuid_text(alice)), AcceptOutcome::MatchStarts { requester: alice });
    assert_eq!(lobby.pending_requests(alice), Some(vec![]));
    assert_eq!(lobby.pending_requests(bob), Some(vec![]));
    // The challenge was used up.
    assert_eq!(lobby.accept_match(bob, &uuid_text(alice)), AcceptOutcome::NoPendingRequest);
}

#[test]
fn repeated_challenges_are_all_recorded() {
    let mut lobby = Lobby::new();
    let alice = registered(&mut lobby, "alice");
    let bob = registered(&mut lobby, "bob");
    lobby.add_client(alice, "alice".to_string());
    lobby.add_client(bob, "bob".to_string());
    lobby.request_match(alice, "bob");
    lobby.request_match(alice, "bob");
    assert_eq!(lobby.pending_requests(alice), Some(vec![bob, bob]));
}

#[test]
fn challenges_that_go_nowhere() {
    let mut lobby = Lobby::new();
    let alice = registered(&mut lobby, "alice");
    let bob = registered(&mut lobby, "bob");
    lobby.add_client(alice, "alice".to_string());
    assert_eq!(lobby.request_match(alice, "nobody"), MatchRequestOutcome::UnknownUsername);
    assert_eq!(lobby.request_match(alice, "Alice"), MatchRequestOutcome::SelfChallenge);
    assert_eq!(lobby.request_match(alice, "bob"), MatchRequestOutcome::NotConnected { target: bob });
    assert_eq!(lobby.pending_requests(alice), Some(vec![]));
}

#[test]
fn challenge_from_a_player_not_connected_records_nothing() {
    let mut lobby = Lobby::new();
    let alice = registered(&mut lobby, "alice");
    let bob = registered(&mut lobby, "bob");
    lobby.add_client(bob, "bob".to_string());
    assert_eq!(lobby.request_match(alice, "bob"), MatchRequestOutcome::Challenge { target: bob });
    assert!(!lobby.is_connected(alice));
    assert_eq!(lobby.pending_requests(bob), Some(vec![]));
}

#[test]
fn acceptances_that_start_nothing() {
    let mut lobby = Lobby::new();
    let alice = registered(&mut lobby, "alice");
    lobby.add_client(alice, "alice".to_string());
    assert_eq!(lobby.accept_match(alice, "not an id"), AcceptOutcome::InvalidId);
    assert_eq!(lobby.accept_match(alice, &uuid_text(12345)), AcceptOutcome::NotConnected);
    assert_eq!(lobby.accept_match(alice, &uuid_text(alice)), AcceptOutcome::NoPendingRequest);
}

#[test]
fn disconnect_frees_the_name() {
    let mut lobby = Lobby::new();
    let alice = registered(&mut lobby, "Alice");
    lobby.add_client(alice, "Alice".to_string());
    lobby.disconnect(alice, "Alice");
    assert!(!lobby.is_connected(alice));
    assert_eq!(lobby.pending_requests(alice), None);
    assert_eq!(lobby.registered_id("alice"), None);
    let again = registered(&mut lobby, "ALICE");
    assert_eq!(lobby.registered_id("alice"), Some(again));
}

#[test]
fn reconnecting_replaces_the_record() {
    let mut lobby = Lobby::new();
    let alice = registered(&mut lobby, "alice");
    let bob = registered(&mut lobby, "bob");
    lobby.add_client(alice, "alice".to_string());
    lobby.add_client(bob, "bob".to_string());
    lobby.request_match(alice, "bob");
    lobby.add_client(alice, "Alice".to_string());
    assert_eq!(lobby.pending_requests(alice), Some(vec![]));
}

#[test]
fn registrations_never_change_an_earlier_name() {
    let mut lobby = Lobby::new();
    let names = ["Ann", "ben", "ANN", "Cid", "", "BEN", "dee"];
    let mut seen: Vec<(String, u128)> = Vec::new();
    for name in names {
        let outcome = lobby.register_username(name);
        if let RegisterOutcome::Registered(id) = outcome {
            seen.push((name.to_lowercase(), id));
        }
        for (key, id) in &seen {
            assert_eq!(lobby.registered_id(key), Some(*id));
        }
    }
    assert_eq!(seen.len(), 4);
}
