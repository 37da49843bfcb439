use ctfdb::StoreError;
use ctfdb::htb::{
    GetRecentTeamActivityData, ListActiveChallenges, ListActiveChallengesData,
    ListActiveMachines, ListActiveMachinesData, ListChallengeCategories,
    ListChallengeCategoriesData, RankStats, RankStatsData, UserData,
};
use ctfdb::htb_db::HtbStore;
use ctfdb::notify::{process_rank_status, record_htb_announce_outcome};
use ctfdb::registry::{CategoryRegistry, get_challenge_category_from_id, load_categories_to_cache};

fn active_challenge(id: i32, name: &str, points: &str, category: i32) -> ListActiveChallengesData {
    ListActiveChallengesData {
        id,
        name: name.to_string(),
        difficulty: "Easy".to_string(),
        points: points.to_string(),
        release_date: "2021-05-01".to_string(),
        challenge_category_id: category,
        machine_avatar: None,
    }
}

fn activity(user_id: i32, user_name: &str, challenge_id: i32, name: &str, kind: &str) -> GetRecentTeamActivityData {
    GetRecentTeamActivityData {
        user: UserData {
            id: user_id,
            name: user_name.to_string(),
            avatar_thumb: "/thumb.png".to_string(),
        },
        date: "2021-05-13T19:18:57.000000Z".to_string(),
        solve_type: kind.to_string(),
        object_type: "challenge".to_string(),
        id: challenge_id,
        name: name.to_string(),
        points: 30,
        challenge_category: Some("Reversing".to_string()),
    }
}

fn store_with_challenges() -> HtbStore {
    let mut store = HtbStore::new();
    let challenges = ListActiveChallenges {
        challenges: vec![
            active_challenge(344, "Love", "30", 1),
            active_challenge(97, "Bombs Landed", "40", 2),
        ],
    };
    let machines = ListActiveMachines {
        info: vec![ListActiveMachinesData {
            id: 255,
            name: "RopeTwo".to_string(),
            difficulty: "Insane".to_string(),
            points: 50,
            release: "2020-06-27".to_string(),
            avatar: "/avatars/ropetwo.png".to_string(),
        }],
    };
    store.update_htb_challenges_and_scores(&challenges, &machines);
    store
}

#[test]
fn test_update_htb_challenges_and_machines() {
    let store = store_with_challenges();
    assert_eq!(store.challenges.len(), 3);
    let machine = store.get_challenge_from_id(255).unwrap();
    assert_eq!(machine.name, "RopeTwo");
    assert_eq!(machine.points, "50");
    assert_eq!(machine.challenge_category, 100);
    assert_eq!(machine.machine_avatar, Some("/avatars/ropetwo.png".to_string()));

    // re-running the refresh inserts nothing new
    let mut store2 = store_with_challenges();
    let challenges = ListActiveChallenges {
        challenges: vec![active_challenge(344, "Love", "30", 1)],
    };
    let machines = ListActiveMachines { info: Vec::new() };
    store2.update_htb_challenges_and_scores(&challenges, &machines);
    assert_eq!(store2.challenges.len(), 3);
}

#[test]
fn test_process_new_solves_records_once() {
    let mut store = store_with_challenges();
    let batch = vec![activity(52, "Craig", 344, "Love", "root")];
    let names = vec!["Craig".to_string()];

    store.process_new_solves(&batch, &names);
    assert_eq!(store.solves.len(), 1);
    assert!(!store.solves[0].announced);
    assert_eq!(store.solves[0].username, "Craig");
    assert_eq!(store.solves[0].challenge_id, 344);
    assert_eq!(store.solves[0].solved_time, 1620933537);

    // the tick runs again before the announcement: no duplicate row
    store.process_new_solves(&batch, &names);
    assert_eq!(store.solves.len(), 1);

    // a different solve kind on the same target is a separate solve
    let batch_user = vec![activity(52, "Craig", 344, "Love", "user")];
    store.process_new_solves(&batch_user, &names);
    assert_eq!(store.solves.len(), 2);
}

#[test]
fn test_unmapped_activity_is_skipped() {
    let mut store = store_with_challenges();
    let batch = vec![
        activity(52, "Craig", 999, "Unknown Target", "root"),
        activity(53, "wulfgarpro", 97, "Bombs Landed", "challenge"),
    ];
    let names = vec!["Craig".to_string(), "wulfgarpro".to_string()];
    store.process_new_solves(&batch, &names);
    assert_eq!(store.solves.len(), 1);
    assert_eq!(store.solves[0].username, "wulfgarpro");
}

#[test]
fn test_announce_failure_then_retry() {
    let mut store = store_with_challenges();
    let batch = vec![activity(52, "Craig", 344, "Love", "root")];
    let names = vec!["Craig".to_string()];
    store.process_new_solves(&batch, &names);

    let to_announce = store.get_solves_to_announce();
    assert_eq!(to_announce.len(), 1);
    assert_eq!(to_announce[0].solver, "Craig");
    assert_eq!(to_announce[0].challenge.name, "Love");

    // the re-recording guard already holds: a row exists, announced or not
    assert!(store.is_challenge_solved_and_not_announced_for_user(52, 344, "root"));
    assert!(!store.is_challenge_solved_and_not_announced_for_user(52, 344, "user"));

    // delivery fails: the solve stays unannounced and reappears
    assert!(record_htb_announce_outcome(&mut store, &to_announce[0], false).is_ok());
    assert!(!store.solves[0].announced);
    assert_eq!(store.get_solves_to_announce().len(), 1);

    // delivery succeeds: the flag flips exactly once and the queue drains
    assert!(record_htb_announce_outcome(&mut store, &to_announce[0], true).is_ok());
    assert!(store.solves[0].announced);
    assert_eq!(store.get_solves_to_announce().len(), 0);
    assert!(store.is_challenge_solved_and_not_announced_for_user(52, 344, "root"));
}

#[test]
fn test_solve_clears_working_set() {
    let mut store = store_with_challenges();
    assert!(store.add_working("Craig", "Love").is_ok());
    assert!(store.add_working("wulfgarpro", "Love").is_ok());
    let batch = vec![activity(52, "Craig", 344, "Love", "root")];
    store.process_new_solves(&batch, &vec!["Craig".to_string()]);
    let challenge = store.get_challenge_from_name("Love").unwrap();
    assert_eq!(challenge.working, vec!["wulfgarpro".to_string()]);
}

#[test]
fn test_solving_users_deduplicated() {
    let mut store = store_with_challenges();
    let batch = vec![
        activity(52, "Craig", 344, "Love", "user"),
        activity(52, "Craig", 344, "Love", "root"),
        activity(53, "wulfgarpro", 344, "Love", "root"),
    ];
    let names = vec!["Craig".to_string(), "Craig".to_string(), "wulfgarpro".to_string()];
    store.process_new_solves(&batch, &names);
    assert_eq!(store.solves.len(), 3);
    let users = store.get_solving_users_for_challenge(344).unwrap();
    assert_eq!(users, vec!["Craig".to_string(), "wulfgarpro".to_string()]);
    match store.get_solving_users_for_challenge(97) {
        Err(StoreError::NoSolvesForChallenge) => {}
        _ => panic!("expected NoSolvesForChallenge"),
    }
}

#[test]
fn test_add_challenge_solved_error_cases() {
    let mut store = store_with_challenges();
    match store.add_challenge_solved_for_user(1, "Craig", "2021-05-13T19:18:57.000000Z", 999, "root") {
        Err(StoreError::NoChallengeWithId) => {}
        _ => panic!("expected NoChallengeWithId"),
    }
    match store.add_challenge_solved_for_user(1, "Craig", "not a date", 344, "root") {
        Err(StoreError::SolveDateUnparseable) => {}
        _ => panic!("expected SolveDateUnparseable"),
    }
}

#[test]
fn test_rank_status_and_snapshots() {
    let mut store = HtbStore::new();
    let default_rank = store.get_latest_rank_from_db(1620933537);
    assert_eq!(default_rank.rank, 0);
    assert_eq!(default_rank.points, 0);
    assert_eq!(default_rank.timestamp, 1620933537);

    let latest = RankStats { data: RankStatsData { rank: 381, points: 101 } };
    assert!(process_rank_status(&mut store, &latest, 1620933600));
    assert_eq!(store.ranks.len(), 1);
    assert_eq!(store.ranks[0].rank, 381);

    // unchanged standing takes no new snapshot
    assert!(!process_rank_status(&mut store, &latest, 1620933700));
    assert_eq!(store.ranks.len(), 1);

    let moved = RankStats { data: RankStatsData { rank: 380, points: 101 } };
    assert!(process_rank_status(&mut store, &moved, 1620933800));
    assert_eq!(store.ranks.len(), 2);
    assert_eq!(store.get_latest_rank_from_db(0).rank, 380);
}

#[test]
fn test_user_identity_mapping_upsert() {
    let mut store = HtbStore::new();
    match store.get_discord_id_for(508037) {
        Err(StoreError::NoDiscordIdForUser) => {}
        _ => panic!("expected NoDiscordIdForUser"),
    }
    store.set_discord_id_for(508037, 111);
    assert_eq!(store.get_discord_id_for(508037).unwrap(), 111);
    store.set_discord_id_for(508037, 222);
    assert_eq!(store.get_discord_id_for(508037).unwrap(), 222);
    assert_eq!(store.user_mappings.len(), 1);
}

#[test]
fn test_category_registry() {
    let mut registry = CategoryRegistry::new();
    let listing = ListChallengeCategories {
        info: vec![
            ListChallengeCategoriesData { id: 1, name: "Reversing".to_string() },
            ListChallengeCategoriesData { id: 2, name: "Crypto".to_string() },
        ],
    };
    load_categories_to_cache(&mut registry, &listing);
    assert_eq!(get_challenge_category_from_id(&registry, 1), "Reversing");
    assert_eq!(get_challenge_category_from_id(&registry, 2), "Crypto");
    assert_eq!(get_challenge_category_from_id(&registry, 100), "Machine");
    assert_eq!(get_challenge_category_from_id(&registry, 77), "Unknown");
}

#[test]
fn test_htb_challenge_search() {
    let store = store_with_challenges();
    let hits = store.search_for_challenge_by_name("o");
    assert_eq!(hits.len(), 3);
    let hits = store.search_for_challenge_by_name("Rope");
    assert_eq!(hits.len(), 1);
    assert_eq!(hits[0].name, "RopeTwo");
}
