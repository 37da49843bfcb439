use ctfdb::htb::{RankStatsData, SolveToAnnounce};
use ctfdb::models::{Challenge, HTBChallenge};
use ctfdb::notify::{
    api_url_for_base, challenge_embed_title, channel_topic_for_stats, create_htb_solved_title,
    create_solved_title, create_standing_line, machine_avatar_url,
};
use ctfdb::provider::{ChallengeResponse, MyTeamResponseData};
use ctfdb::rest::{get_active_ctfs_route, get_challenges_for_id_route, get_stats_for_id_route};
use ctfdb::store::CtfStore;

#[test]
fn test_api_url_for_base() {
    assert_eq!(api_url_for_base("https://ctf.example/"), "https://ctf.example/api/v1");
    assert_eq!(api_url_for_base("https://ctf.example"), "https://ctf.example/api/v1");
}

#[test]
fn test_announcement_messages() {
    let challenge = Challenge {
        id: 1,
        ctf_id: 1,
        name: "Reverse a String".to_string(),
        category: "Programming".to_string(),
        solved: true,
        working: Vec::new(),
        solver: Some("Craig".to_string()),
        points: 100,
        solved_time: Some(1620903714),
        announced_solve: false,
    };
    assert_eq!(
        create_solved_title(&challenge),
        "🏴\u{200d} Reverse a String has been solved by Craig\u{200d}"
    );
    assert_eq!(
        create_standing_line("96th", 201),
        "📈 New team position: 96th, Total score: 201"
    );
    assert_eq!(challenge_embed_title("Love"), "❓ Love ❓");
    assert_eq!(
        channel_topic_for_stats(&RankStatsData { rank: 381, points: 101 }),
        "Team rank 381, Points: 101"
    );
    assert_eq!(
        machine_avatar_url("/avatars/ropetwo.png"),
        "https://www.hackthebox.eu//avatars/ropetwo.png"
    );
}

fn htb_challenge(name: &str) -> HTBChallenge {
    HTBChallenge {
        id: 1,
        htb_id: 344,
        name: name.to_string(),
        difficulty: "Easy".to_string(),
        points: "30".to_string(),
        release_date: "2021-05-01".to_string(),
        challenge_category: 1,
        working: Vec::new(),
        machine_avatar: None,
    }
}

#[test]
fn test_htb_announcement_messages() {
    let challenge_solve = SolveToAnnounce {
        solver: "Craig".to_string(),
        user_id: 52,
        solve_type: "challenge".to_string(),
        challenge: htb_challenge("Bombs Landed"),
    };
    assert_eq!(
        create_htb_solved_title(&challenge_solve),
        "🏴 Bombs Landed has been solved by Craig"
    );

    let root_own = SolveToAnnounce {
        solver: "wulfgarpro".to_string(),
        user_id: 53,
        solve_type: "root".to_string(),
        challenge: htb_challenge("Love"),
    };
    assert_eq!(
        create_htb_solved_title(&root_own),
        "🏴 Root has been owned by wulfgarpro on Love"
    );
}

#[test]
fn test_reporting_routes() {
    let mut store = CtfStore::new();
    let id = store.add_active_ctf(
        "Test CTF",
        "https://ctf.example",
        "https://ctf.example/api/v1",
        "test-api-key",
        42,
    );
    store.ensure_challenge_exists_otherwise_add(
        &ChallengeResponse {
            name: "Reverse a String".to_string(),
            value: 100,
            solves: None,
            category: "Programming".to_string(),
        },
        id,
    );
    store.get_and_store_scoreboard(
        id,
        &MyTeamResponseData { place: "96th".to_string(), score: 201 },
        1620903714,
    );

    let listing = get_challenges_for_id_route(&store, id).unwrap();
    assert_eq!(listing.data.len(), 1);
    assert_eq!(listing.data[0].title, "Reverse a String");
    assert_eq!(listing.data[0].status, "TODO");
    assert_eq!(listing.data[0].priority, "HIGH");

    let stats = get_stats_for_id_route(&store, id).unwrap();
    assert_eq!(stats.position, "96th");
    assert_eq!(stats.points, 201);
    assert_eq!(stats.entry_time, "2021-05-13 11:01:54");

    let active = get_active_ctfs_route(&store, 1620903800);
    assert_eq!(active.data.len(), 1);
    assert_eq!(active.data[0].name, "Test CTF");
    assert_eq!(active.data[0].stats.points, 201);

    // a competition without scoreboard history gets the fallback standing
    let id2 = store.add_active_ctf("Fresh CTF", "https://x", "https://x/api/v1", "k", 0);
    let active = get_active_ctfs_route(&store, 1620903800);
    assert_eq!(active.data.len(), 2);
    assert_eq!(active.data[1].id, id2);
    assert_eq!(active.data[1].stats.position, "0");
    assert_eq!(active.data[1].stats.points, 0);
    assert_eq!(active.data[1].stats.entry_time, "2021-05-13 11:03:20");
}
