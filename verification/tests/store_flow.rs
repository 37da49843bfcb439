use ctfdb::StoreError;
use ctfdb::notify::record_solve_outcome;
use ctfdb::provider::{ChallengeResponse, MyTeamResponseData, TeamSolvesResponseData};
use ctfdb::store::CtfStore;

fn remote_challenge(name: &str, value: i32, category: &str) -> ChallengeResponse {
    ChallengeResponse {
        name: name.to_string(),
        value,
        solves: None,
        category: category.to_string(),
    }
}

fn store_with_ctf() -> (CtfStore, i32) {
    let mut store = CtfStore::new();
    let id = store.add_active_ctf(
        "Test CTF",
        "https://ctf.example",
        "https://ctf.example/api/v1",
        "test-api-key",
        42,
    );
    (store, id)
}

#[test]
fn test_add_and_list_active_ctfs() {
    let (mut store, id) = store_with_ctf();
    assert_eq!(store.get_active_ctfs().len(), 1);
    assert_eq!(store.get_ctf_id_from_name("Test CTF"), Some(id));
    assert_eq!(store.get_ctf_id_from_name("Other"), None);
    store.remove_active_ctf("Test CTF");
    assert_eq!(store.get_active_ctfs().len(), 0);
    // history is retained: the row still resolves by name
    assert_eq!(store.get_ctf_id_from_name("Test CTF"), Some(id));
}

#[test]
fn test_ensure_challenge_dedup_key() {
    let (mut store, id) = store_with_ctf();
    assert!(store.ensure_challenge_exists_otherwise_add(&remote_challenge("Web 1", 50, "Web"), id));
    assert!(!store.ensure_challenge_exists_otherwise_add(&remote_challenge("Web 1", 75, "Web"), id));
    // a different category is a different challenge
    assert!(store.ensure_challenge_exists_otherwise_add(
        &remote_challenge("Web 1", 50, "Crypto"),
        id
    ));
    assert_eq!(store.get_challenges_for_ctfid(id).unwrap().len(), 2);
}

#[test]
fn test_update_refreshes_unsolved_points_only() {
    let (mut store, id) = store_with_ctf();
    let listing = vec![
        remote_challenge("Web 1", 50, "Web"),
        remote_challenge("Pwn 1", 200, "Pwn"),
    ];
    store.update_challenges_and_scores(id, &listing);

    // solve "Pwn 1" so its score freezes
    let mut solved = store.get_challenge_from_name("Pwn 1").unwrap();
    solved.solver = Some("alice".to_string());
    solved.solved_time = Some(1620903714);
    store.mark_solved(&solved);

    let relisting = vec![
        remote_challenge("Web 1", 60, "Web"),
        remote_challenge("Pwn 1", 250, "Pwn"),
    ];
    store.update_challenges_and_scores(id, &relisting);

    let web = store.get_challenge_from_name("Web 1").unwrap();
    assert_eq!(web.points, 60);
    let pwn = store.get_challenge_from_name("Pwn 1").unwrap();
    assert_eq!(pwn.points, 200, "solved challenges keep their frozen score");
    assert!(pwn.solved);
}

#[test]
fn test_working_set_on_store() {
    let (mut store, id) = store_with_ctf();
    store
        .ensure_challenge_exists_otherwise_add(&remote_challenge("Web 1", 50, "Web"), id);
    assert!(store.add_working("alice", "Web 1").is_ok());
    assert!(store.add_working("alice", "Web 1").is_ok());
    assert!(store.add_working("bob", "Web 1").is_ok());
    let challenge = store.get_challenge_from_name("Web 1").unwrap();
    assert_eq!(challenge.working, vec!["alice".to_string(), "bob".to_string()]);

    assert!(store.remove_working("mallory", "Web 1").is_ok());
    let challenge = store.get_challenge_from_name("Web 1").unwrap();
    assert_eq!(challenge.working, vec!["alice".to_string(), "bob".to_string()]);

    assert!(store.remove_working("alice", "Web 1").is_ok());
    let challenge = store.get_challenge_from_name("Web 1").unwrap();
    assert_eq!(challenge.working, vec!["bob".to_string()]);

    assert_eq!(
        store.add_working("alice", "No Such Challenge"),
        Err(StoreError::NoChallengeWithName)
    );
    assert_eq!(
        store.remove_working("alice", "No Such Challenge"),
        Err(StoreError::NoChallengeWithName)
    );
}

#[test]
fn test_search_for_challenge_by_name() {
    let (mut store, id) = store_with_ctf();
    store.ensure_challenge_exists_otherwise_add(&remote_challenge("Reverse a String", 100, "Programming"), id);
    store.ensure_challenge_exists_otherwise_add(&remote_challenge("Stringology", 50, "Misc"), id);
    store.ensure_challenge_exists_otherwise_add(&remote_challenge("Pwn 1", 200, "Pwn"), id);
    let hits = store.search_for_challenge_by_name("String");
    assert_eq!(hits.len(), 2);
    assert_eq!(hits[0].name, "Reverse a String");
    assert_eq!(hits[1].name, "Stringology");
    assert_eq!(store.search_for_challenge_by_name("zzz").len(), 0);
}

#[test]
fn test_scoreboard_history() {
    let (mut store, id) = store_with_ctf();
    match store.get_latest_scoreboard_status(id) {
        Err(StoreError::NoScoreboardEntry) => {}
        _ => panic!("expected NoScoreboardEntry"),
    }
    store.get_and_store_scoreboard(
        id,
        &MyTeamResponseData { place: "96th".to_string(), score: 201 },
        1620903714,
    );
    store.get_and_store_scoreboard(
        id,
        &MyTeamResponseData { place: "42nd".to_string(), score: 400 },
        1620903800,
    );
    let latest = store.get_latest_scoreboard_status(id).unwrap();
    assert_eq!(latest.position, "42nd");
    assert_eq!(latest.points, 400);
    match store.get_latest_scoreboard_status(id + 1) {
        Err(StoreError::NoScoreboardEntry) => {}
        _ => panic!("expected NoScoreboardEntry"),
    }
}

#[test]
fn test_challenges_for_missing_ctf() {
    let store = CtfStore::new();
    match store.get_challenges_for_ctfid(9) {
        Err(StoreError::NoCtfForId) => {}
        _ => panic!("expected NoCtfForId"),
    }
    match store.get_challenges_for_ctfname("nope") {
        Err(StoreError::NoCtfForName) => {}
        _ => panic!("expected NoCtfForName"),
    }
    match store.get_challenges_for_channel(123) {
        Err(StoreError::NoCtfForChannel) => {}
        _ => panic!("expected NoCtfForChannel"),
    }
}

fn remote_solve(name: &str, value: i32, category: &str, user: i32, date: &str) -> TeamSolvesResponseData {
    TeamSolvesResponseData {
        date: date.to_string(),
        team: 10,
        challenge: remote_challenge(name, value, category),
        user,
    }
}

#[test]
fn test_reconcile_notify_announce_scenario() {
    let (mut store, id) = store_with_ctf();
    // the local challenge exists, unannounced
    store.ensure_challenge_exists_otherwise_add(
        &remote_challenge("Reverse a String", 100, "Programming"),
        id,
    );

    // remote platform reports a new team solve by user 52, named "Craig"
    let remote = vec![remote_solve(
        "Reverse a String",
        100,
        "Programming",
        52,
        "2021-05-13T11:01:54+00:00",
    )];
    let names = vec!["Craig".to_string()];

    let new_solves = store.check_for_new_solves(id, &remote, &names);
    assert_eq!(new_solves.len(), 1, "exactly one notification is attempted");
    assert_eq!(new_solves[0].solver, Some("Craig".to_string()));
    assert_eq!(new_solves[0].solved_time, Some(1620903714));

    // the notifier delivers, then the store is told to mark it announced
    record_solve_outcome(&mut store, &new_solves[0], true);

    let challenge = store.get_challenge_from_name("Reverse a String").unwrap();
    assert_eq!(challenge.solver, Some("Craig".to_string()));
    assert!(challenge.solved);
    assert!(challenge.announced_solve);

    // the next tick finds nothing new
    assert_eq!(store.check_for_new_solves(id, &remote, &names).len(), 0);
}

#[test]
fn test_failed_delivery_leaves_solve_unannounced() {
    let (mut store, id) = store_with_ctf();
    store.ensure_challenge_exists_otherwise_add(
        &remote_challenge("Reverse a String", 100, "Programming"),
        id,
    );
    let remote = vec![remote_solve(
        "Reverse a String",
        100,
        "Programming",
        52,
        "2021-05-13T11:01:54+00:00",
    )];
    let names = vec!["Craig".to_string()];

    let new_solves = store.check_for_new_solves(id, &remote, &names);
    assert_eq!(new_solves.len(), 1);

    // the send fails: nothing is marked
    record_solve_outcome(&mut store, &new_solves[0], false);
    let challenge = store.get_challenge_from_name("Reverse a String").unwrap();
    assert!(!challenge.announced_solve);
    assert!(!challenge.solved);

    // the solve reappears in the next tick
    let again = store.check_for_new_solves(id, &remote, &names);
    assert_eq!(again.len(), 1);
    assert_eq!(again[0].solver, Some("Craig".to_string()));
}

#[test]
fn test_unmappable_solve_is_skipped_not_fatal() {
    let (mut store, id) = store_with_ctf();
    store.ensure_challenge_exists_otherwise_add(
        &remote_challenge("Reverse a String", 100, "Programming"),
        id,
    );
    let remote = vec![
        remote_solve("Ghost Challenge", 10, "Web", 51, "2021-05-13T11:01:54+00:00"),
        remote_solve(
            "Reverse a String",
            100,
            "Programming",
            52,
            "2021-05-13T11:01:54+00:00",
        ),
    ];
    let names = vec!["Eve".to_string(), "Craig".to_string()];
    let new_solves = store.check_for_new_solves(id, &remote, &names);
    assert_eq!(new_solves.len(), 1);
    assert_eq!(new_solves[0].solver, Some("Craig".to_string()));

    match store.map_response_to_challenge(&remote[0], id) {
        Err(StoreError::ChallengeMappingFailed) => {}
        _ => panic!("expected ChallengeMappingFailed"),
    }
}

#[test]
fn test_initial_create_inserts_all() {
    let (mut store, id) = store_with_ctf();
    let listing = vec![
        remote_challenge("Web 1", 50, "Web"),
        remote_challenge("Pwn 1", 200, "Pwn"),
        remote_challenge("Misc 1", 25, "Misc"),
    ];
    store.initial_create_all_challenges_in_db(id, &listing);
    let challenges = store.get_challenges_for_ctfid(id).unwrap();
    assert_eq!(challenges.len(), 3);
    assert!(challenges.iter().all(|c| !c.solved && !c.announced_solve));
}
