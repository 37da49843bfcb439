use ctfdb::models::Challenge;
use ctfdb::rest::{challenge_response_of, get_challenge_priority};

#[test]
fn test_low_priority() {
    let expected = "LOW".to_string();
    assert_eq!(get_challenge_priority(49), expected);
    assert_eq!(get_challenge_priority(1), expected);
    assert_ne!(get_challenge_priority(50), expected);
}

#[test]
fn test_medium_priority() {
    let expected = "MEDIUM".to_string();
    assert_eq!(get_challenge_priority(51), expected);
    assert_eq!(get_challenge_priority(99), expected);
    assert_ne!(get_challenge_priority(100), expected);
}

#[test]
fn test_high_priority() {
    let expected = "HIGH".to_string();
    assert_eq!(get_challenge_priority(100), expected);
    assert_eq!(get_challenge_priority(249), expected);
    assert_ne!(get_challenge_priority(250), expected);
}

#[test]
fn test_highest_priority() {
    let expected = "HIGHEST".to_string();
    assert_eq!(get_challenge_priority(260), expected);
    assert_eq!(get_challenge_priority(15000), expected);
}

#[test]
fn test_priority_boundaries() {
    assert_eq!(get_challenge_priority(50), "MEDIUM");
    assert_eq!(get_challenge_priority(250), "HIGHEST");
    assert_eq!(get_challenge_priority(0), "LOW");
    assert_eq!(get_challenge_priority(-5), "LOW");
}

fn sample_challenge() -> Challenge {
    Challenge {
        id: 7,
        ctf_id: 1,
        name: "Reverse a String".to_string(),
        category: "Programming".to_string(),
        solved: false,
        working: Vec::new(),
        solver: None,
        points: 100,
        solved_time: None,
        announced_solve: false,
    }
}

#[test]
fn test_challenge_status_todo() {
    let response = challenge_response_of(&sample_challenge());
    assert_eq!(response.status, "TODO");
    assert_eq!(response.priority, "HIGH");
    assert_eq!(response.title, "Reverse a String");
    assert_eq!(response.working, None);
    assert_eq!(response.solved_time, None);
}

#[test]
fn test_challenge_status_inprogress() {
    let mut challenge = sample_challenge();
    challenge.working = vec!["alice".to_string(), "bob".to_string()];
    let response = challenge_response_of(&challenge);
    assert_eq!(response.status, "INPROGRESS");
    assert_eq!(response.working, Some("alice, bob".to_string()));
}

#[test]
fn test_challenge_status_done_renders_solve_time() {
    let mut challenge = sample_challenge();
    challenge.solved = true;
    challenge.solver = Some("Craig".to_string());
    challenge.solved_time = Some(1620903714);
    let response = challenge_response_of(&challenge);
    assert_eq!(response.status, "DONE");
    assert_eq!(response.solver, Some("Craig".to_string()));
    assert_eq!(response.solved_time, Some("2021-05-13 11:01:54".to_string()));
}
