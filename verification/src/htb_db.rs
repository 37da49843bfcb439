//! The per-user provider's store: challenge and machine rows, per-user
//! solves (unique per user, challenge and solve kind), rank history and
//! user identity mappings, with the reconciliation logic that records
//! newly observed solves and the announcement bookkeeping.

use vstd::prelude::*;

use crate::StoreError;
use crate::dates::{activity_date_fmt, activity_date_format, parse_datetime_unix, parsed_unix_of};
use crate::htb::{
    GetRecentTeamActivityData, GetRecentTeamActivityDataView, ListActiveChallenges,
    ListActiveChallengesData, ListActiveChallengesDataView, ListActiveMachines,
    ListActiveMachinesDataView, RankStats, SolveToAnnounce, SolveToAnnounceView,
};
use crate::models::{
    HTBChallenge, HTBChallengeView, HTBRank, HTBRankView, HTBSolve, HTBSolveView, HTBUserMapping,
    clone_string_opt, clone_string_vec, distinct_names, names_of,
};
use crate::text::{contains_substring, dec_str, i32_to_string, is_substring_of, str_eq};
use crate::working::{
    add_working_user, lemma_with_working_distinct, lemma_without_working_distinct,
    remove_working_user, with_working, without_working,
};

verus! {

pub open spec fn htb_challenge_views(s: Seq<HTBChallenge>) -> Seq<HTBChallengeView> {
    s.map_values(|c: HTBChallenge| c@)
}

pub open spec fn htb_solve_views(s: Seq<HTBSolve>) -> Seq<HTBSolveView> {
    s.map_values(|c: HTBSolve| c@)
}

pub open spec fn announce_views(s: Seq<SolveToAnnounce>) -> Seq<SolveToAnnounceView> {
    s.map_values(|c: SolveToAnnounce| c@)
}

/// The de-duplication key on this provider: the stable remote id together
/// with the name.
pub open spec fn htb_key_match(c: HTBChallengeView, htb_id: int, name: Seq<char>) -> bool {
    c.htb_id == htb_id && c.name == name
}

/// The index of the first challenge row with the given remote id and name,
/// searching from position `k`.
pub open spec fn first_htb_key_match_from(
    s: Seq<HTBChallengeView>,
    htb_id: int,
    name: Seq<char>,
    k: int,
) -> Option<int>
    decreases s.len() - k,
{
    if k < 0 || k >= s.len() {
        None
    } else if htb_key_match(s[k], htb_id, name) {
        Some(k)
    } else {
        first_htb_key_match_from(s, htb_id, name, k + 1)
    }
}

pub open spec fn first_htb_key_match(
    s: Seq<HTBChallengeView>,
    htb_id: int,
    name: Seq<char>,
) -> Option<int> {
    first_htb_key_match_from(s, htb_id, name, 0)
}

/// The index of the first challenge row with the given remote id,
/// searching from position `k`.
pub open spec fn first_htb_id_match_from(s: Seq<HTBChallengeView>, htb_id: int, k: int) -> Option<
    int,
>
    decreases s.len() - k,
{
    if k < 0 || k >= s.len() {
        None
    } else if s[k].htb_id == htb_id {
        Some(k)
    } else {
        first_htb_id_match_from(s, htb_id, k + 1)
    }
}

pub open spec fn first_htb_id_match(s: Seq<HTBChallengeView>, htb_id: int) -> Option<int> {
    first_htb_id_match_from(s, htb_id, 0)
}

proof fn lemma_first_htb_id_match_from_some(s: Seq<HTBChallengeView>, htb_id: int, k: int, w: int)
    requires
        0 <= k <= w < s.len(),
        s[w].htb_id == htb_id,
    ensures
        first_htb_id_match_from(s, htb_id, k) is Some,
    decreases w - k,
{
    if s[k].htb_id != htb_id {
        lemma_first_htb_id_match_from_some(s, htb_id, k + 1, w);
    }
}

/// A solve row for the given user, challenge and solve kind exists.
pub open spec fn has_solve(
    s: Seq<HTBSolveView>,
    user_id: int,
    challenge_id: int,
    kind: Seq<char>,
) -> bool {
    exists|i: int|
        0 <= i < s.len() && (#[trigger] s[i]).user_id == user_id && s[i].challenge_id
            == challenge_id && s[i].solve_type == kind
}

/// Solve rows are unique per (user id, challenge id, solve kind).
pub open spec fn solves_unique(s: Seq<HTBSolveView>) -> bool {
    forall|i: int, j: int|
        0 <= i < j < s.len() ==> !((#[trigger] s[i]).user_id == (#[trigger] s[j]).user_id
            && s[i].challenge_id == s[j].challenge_id && s[i].solve_type == s[j].solve_type)
}

/// The store of the per-user provider's persisted state.
pub struct HtbStore {
    pub challenges: Vec<HTBChallenge>,
    pub solves: Vec<HTBSolve>,
    pub ranks: Vec<HTBRank>,
    pub user_mappings: Vec<HTBUserMapping>,
    pub next_challenge_row_id: i32,
    pub next_solve_id: i32,
    pub next_rank_entry_id: i32,
    pub next_mapping_entry_id: i32,
}

impl HtbStore {
    /// Well-formedness: row ids are unique and below the id counters,
    /// working sets are duplicate-free, solves are unique per (user,
    /// challenge, kind), rank entries are strictly ordered, and each
    /// remote user has at most one identity mapping.
    pub open spec fn wf(&self) -> bool {
        &&& forall|i: int|
            0 <= i < self.challenges@.len() ==> #[trigger] self.challenges@[i]@.id
                < self.next_challenge_row_id as int
        &&& forall|i: int, j: int|
            0 <= i < j < self.challenges@.len() ==> self.challenges@[i]@.id
                != self.challenges@[j]@.id
        &&& forall|i: int|
            0 <= i < self.challenges@.len() ==> #[trigger] distinct_names(
                self.challenges@[i]@.working,
            )
        &&& forall|i: int|
            0 <= i < self.solves@.len() ==> #[trigger] self.solves@[i]@.id
                < self.next_solve_id as int
        &&& forall|i: int, j: int|
            0 <= i < j < self.solves@.len() ==> self.solves@[i]@.id != self.solves@[j]@.id
        &&& solves_unique(htb_solve_views(self.solves@))
        &&& forall|i: int|
            0 <= i < self.ranks@.len() ==> #[trigger] self.ranks@[i]@.entry_id
                < self.next_rank_entry_id as int
        &&& forall|i: int, j: int|
            0 <= i < j < self.ranks@.len() ==> self.ranks@[i]@.entry_id < self.ranks@[j]@.entry_id
        &&& forall|i: int|
            0 <= i < self.user_mappings@.len() ==> #[trigger] self.user_mappings@[i]@.entry_id
                < self.next_mapping_entry_id as int
        &&& forall|i: int, j: int|
            0 <= i < j < self.user_mappings@.len() ==> self.user_mappings@[i]@.entry_id
                != self.user_mappings@[j]@.entry_id
        &&& forall|i: int, j: int|
            0 <= i < j < self.user_mappings@.len() ==> self.user_mappings@[i]@.htb_id
                != self.user_mappings@[j]@.htb_id
    }

    /// An empty store.
    pub fn new() -> (r: Self)
        ensures
            r.wf(),
            r.challenges@.len() == 0,
            r.solves@.len() == 0,
            r.ranks@.len() == 0,
            r.user_mappings@.len() == 0,
    {
        HtbStore {
            challenges: Vec::new(),
            solves: Vec::new(),
            ranks: Vec::new(),
            user_mappings: Vec::new(),
            next_challenge_row_id: 1,
            next_solve_id: 1,
            next_rank_entry_id: 1,
            next_mapping_entry_id: 1,
        }
    }

    fn find_by_key(&self, htb_id: i32, name: &str) -> (r: Option<usize>)
        ensures
            (match r {
                Some(i) => Some(i as int),
                None => None,
            }) == first_htb_key_match(
                htb_challenge_views(self.challenges@),
                htb_id as int,
                name@,
            ),
            (match r {
                Some(i) => i < self.challenges@.len() && htb_key_match(
                    htb_challenge_views(self.challenges@)[i as int],
                    htb_id as int,
                    name@,
                ),
                None => true,
            }),
    {
        let ghost s = htb_challenge_views(self.challenges@);
        let mut i: usize = 0;
        while i < self.challenges.len()
            invariant
                i <= self.challenges@.len(),
                s == htb_challenge_views(self.challenges@),
                first_htb_key_match(s, htb_id as int, name@) == first_htb_key_match_from(
                    s,
                    htb_id as int,
                    name@,
                    i as int,
                ),
            decreases self.challenges@.len() - i,
        {
            if self.challenges[i].htb_id == htb_id && str_eq(self.challenges[i].name.as_str(), name) {
                proof {
                    assert(htb_key_match(s[i as int], htb_id as int, name@));
                }
                return Some(i);
            }
            proof {
                assert(!htb_key_match(s[i as int], htb_id as int, name@));
                assert(first_htb_key_match_from(s, htb_id as int, name@, i as int)
                    == first_htb_key_match_from(s, htb_id as int, name@, i + 1));
            }
            i += 1;
        }
        None
    }

    fn find_by_htb_id(&self, htb_id: i32) -> (r: Option<usize>)
        ensures
            (match r {
                Some(i) => Some(i as int),
                None => None,
            }) == first_htb_id_match(htb_challenge_views(self.challenges@), htb_id as int),
            (match r {
                Some(i) => i < self.challenges@.len() && self.challenges@[i as int]@.htb_id
                    == htb_id as int,
                None => true,
            }),
    {
        let ghost s = htb_challenge_views(self.challenges@);
        let mut i: usize = 0;
        while i < self.challenges.len()
            invariant
                i <= self.challenges@.len(),
                s == htb_challenge_views(self.challenges@),
                first_htb_id_match(s, htb_id as int) == first_htb_id_match_from(
                    s,
                    htb_id as int,
                    i as int,
                ),
            decreases self.challenges@.len() - i,
        {
            if self.challenges[i].htb_id == htb_id {
                return Some(i);
            }
            proof {
                assert(first_htb_id_match_from(s, htb_id as int, i as int)
                    == first_htb_id_match_from(s, htb_id as int, i + 1));
            }
            i += 1;
        }
        None
    }

    /// Maps one remote activity entry to its local challenge row via the
    /// de-duplication key; an entry that maps to no row is an error the
    /// caller skips.
    pub fn map_htb_response_to_challenge(&self, challenge: &GetRecentTeamActivityData) -> (r:
        Result<HTBChallenge, StoreError>)
        ensures
            (match r {
                Ok(c) => (match first_htb_key_match(
                    htb_challenge_views(self.challenges@),
                    challenge@.id,
                    challenge@.name,
                ) {
                    Some(i) => c@ == htb_challenge_views(self.challenges@)[i],
                    None => false,
                }),
                Err(e) => e == StoreError::ChallengeMappingFailed && first_htb_key_match(
                    htb_challenge_views(self.challenges@),
                    challenge@.id,
                    challenge@.name,
                ) is None,
            }),
    {
        match self.find_by_key(challenge.id, challenge.name.as_str()) {
            Some(i) => Ok(self.challenges[i].clone()),
            None => Err(StoreError::ChallengeMappingFailed),
        }
    }

    /// The first challenge with the given name, if any.
    pub fn get_challenge_from_name(&self, name: &str) -> (r: Option<HTBChallenge>)
        ensures
            (match r {
                Some(c) => exists|i: int|
                    0 <= i < self.challenges@.len() && #[trigger] self.challenges@[i]@.name
                        == name@ && c@ == self.challenges@[i]@ && (forall|j: int|
                        0 <= j < i ==> #[trigger] self.challenges@[j]@.name != name@),
                None => forall|j: int|
                    0 <= j < self.challenges@.len() ==> #[trigger] self.challenges@[j]@.name
                        != name@,
            }),
    {
        let mut i: usize = 0;
        while i < self.challenges.len()
            invariant
                i <= self.challenges@.len(),
                forall|j: int| 0 <= j < i ==> #[trigger] self.challenges@[j]@.name != name@,
            decreases self.challenges@.len() - i,
        {
            if str_eq(self.challenges[i].name.as_str(), name) {
                proof {
                    assert(self.challenges@[i as int]@.name == name@);
                }
                return Some(self.challenges[i].clone());
            }
            i += 1;
        }
        None
    }

    /// The first challenge with the given remote id, if any.
    pub fn get_challenge_from_id(&self, htb_id: i32) -> (r: Option<HTBChallenge>)
        ensures
            (match r {
                Some(c) => (match first_htb_id_match(
                    htb_challenge_views(self.challenges@),
                    htb_id as int,
                ) {
                    Some(i) => c@ == htb_challenge_views(self.challenges@)[i],
                    None => false,
                }),
                None => first_htb_id_match(htb_challenge_views(self.challenges@), htb_id as int)
                    is None,
            }),
    {
        match self.find_by_htb_id(htb_id) {
            Some(i) => Some(self.challenges[i].clone()),
            None => None,
        }
    }

    /// Every challenge whose name contains the given text, in store order.
    pub fn search_for_challenge_by_name(&self, name: &str) -> (r: Vec<HTBChallenge>)
        ensures
            htb_challenge_views(r@) == htb_challenge_views(self.challenges@).filter(
                |c: HTBChallengeView| is_substring_of(name@, c.name),
            ),
    {
        let ghost pred = |c: HTBChallengeView| is_substring_of(name@, c.name);
        let mut r: Vec<HTBChallenge> = Vec::new();
        let mut i: usize = 0;
        while i < self.challenges.len()
            invariant
                i <= self.challenges@.len(),
                htb_challenge_views(r@) == htb_challenge_views(self.challenges@).take(
                    i as int,
                ).filter(pred),
                pred == (|c: HTBChallengeView| is_substring_of(name@, c.name)),
            decreases self.challenges@.len() - i,
        {
            proof {
                reveal(Seq::filter);
                assert(htb_challenge_views(self.challenges@).take(i + 1).drop_last()
                    =~= htb_challenge_views(self.challenges@).take(i as int));
                assert(htb_challenge_views(self.challenges@).take(i + 1).last()
                    == self.challenges@[i as int]@);
            }
            if contains_substring(self.challenges[i].name.as_str(), name) {
                r.push(self.challenges[i].clone());
                proof {
                    assert(htb_challenge_views(r@) =~= htb_challenge_views(self.challenges@).take(
                        i as int,
                    ).filter(pred).push(self.challenges@[i as int]@));
                }
            }
            i += 1;
        }
        proof {
            assert(htb_challenge_views(self.challenges@).take(self.challenges@.len() as int)
                =~= htb_challenge_views(self.challenges@));
        }
        r
    }

    /// Every solve of the given user, in store order.
    pub fn get_solves_for_user(&self, user_id: i32) -> (r: Vec<HTBSolve>)
        ensures
            htb_solve_views(r@) == htb_solve_views(self.solves@).filter(
                |s: HTBSolveView| s.user_id == user_id as int,
            ),
    {
        let ghost pred = |s: HTBSolveView| s.user_id == user_id as int;
        let mut r: Vec<HTBSolve> = Vec::new();
        let mut i: usize = 0;
        while i < self.solves.len()
            invariant
                i <= self.solves@.len(),
                htb_solve_views(r@) == htb_solve_views(self.solves@).take(i as int).filter(pred),
                pred == (|s: HTBSolveView| s.user_id == user_id as int),
            decreases self.solves@.len() - i,
        {
            proof {
                reveal(Seq::filter);
                assert(htb_solve_views(self.solves@).take(i + 1).drop_last() =~= htb_solve_views(
                    self.solves@,
                ).take(i as int));
                assert(htb_solve_views(self.solves@).take(i + 1).last()
                    == self.solves@[i as int]@);
            }
            if self.solves[i].user_id == user_id {
                r.push(self.solves[i].clone());
                proof {
                    assert(htb_solve_views(r@) =~= htb_solve_views(self.solves@).take(
                        i as int,
                    ).filter(pred).push(self.solves@[i as int]@));
                }
            }
            i += 1;
        }
        proof {
            assert(htb_solve_views(self.solves@).take(self.solves@.len() as int)
                =~= htb_solve_views(self.solves@));
        }
        r
    }

    /// Every solve recorded under the given username, in store order.
    pub fn get_solves_for_username(&self, username: &str) -> (r: Vec<HTBSolve>)
        ensures
            htb_solve_views(r@) == htb_solve_views(self.solves@).filter(
                username_is(username@),
            ),
    {
        let ghost pred = username_is(username@);
        let mut r: Vec<HTBSolve> = Vec::new();
        let mut i: usize = 0;
        while i < self.solves.len()
            invariant
                i <= self.solves@.len(),
                htb_solve_views(r@) == htb_solve_views(self.solves@).take(i as int).filter(pred),
                pred == username_is(username@),
            decreases self.solves@.len() - i,
        {
            proof {
                reveal(Seq::filter);
                assert(htb_solve_views(self.solves@).take(i + 1).drop_last() =~= htb_solve_views(
                    self.solves@,
                ).take(i as int));
                assert(htb_solve_views(self.solves@).take(i + 1).last()
                    == self.solves@[i as int]@);
            }
            if str_eq(self.solves[i].username.as_str(), username) {
                r.push(self.solves[i].clone());
                proof {
                    assert(htb_solve_views(r@) =~= htb_solve_views(self.solves@).take(
                        i as int,
                    ).filter(pred).push(self.solves@[i as int]@));
                }
            }
            i += 1;
        }
        proof {
            assert(htb_solve_views(self.solves@).take(self.solves@.len() as int)
                =~= htb_solve_views(self.solves@));
        }
        r
    }

    /// Every solve of the given challenge, in store order.
    pub fn get_solves_for_challenge(&self, challenge_id: i32) -> (r: Vec<HTBSolve>)
        ensures
            htb_solve_views(r@) == htb_solve_views(self.solves@).filter(
                solve_of_challenge(challenge_id as int),
            ),
    {
        let ghost pred = solve_of_challenge(challenge_id as int);
        let mut r: Vec<HTBSolve> = Vec::new();
        let mut i: usize = 0;
        while i < self.solves.len()
            invariant
                i <= self.solves@.len(),
                htb_solve_views(r@) == htb_solve_views(self.solves@).take(i as int).filter(pred),
                pred == solve_of_challenge(challenge_id as int),
            decreases self.solves@.len() - i,
        {
            proof {
                reveal(Seq::filter);
                assert(htb_solve_views(self.solves@).take(i + 1).drop_last() =~= htb_solve_views(
                    self.solves@,
                ).take(i as int));
                assert(htb_solve_views(self.solves@).take(i + 1).last()
                    == self.solves@[i as int]@);
            }
            if self.solves[i].challenge_id == challenge_id {
                r.push(self.solves[i].clone());
                proof {
                    assert(htb_solve_views(r@) =~= htb_solve_views(self.solves@).take(
                        i as int,
                    ).filter(pred).push(self.solves@[i as int]@));
                }
            }
            i += 1;
        }
        proof {
            assert(htb_solve_views(self.solves@).take(self.solves@.len() as int)
                =~= htb_solve_views(self.solves@));
        }
        r
    }

    /// Every solve not yet announced, in store order.
    pub fn get_unannounced_solves(&self) -> (r: Vec<HTBSolve>)
        ensures
            htb_solve_views(r@) == htb_solve_views(self.solves@).filter(
                |s: HTBSolveView| !s.announced,
            ),
    {
        let ghost pred = |s: HTBSolveView| !s.announced;
        let mut r: Vec<HTBSolve> = Vec::new();
        let mut i: usize = 0;
        while i < self.solves.len()
            invariant
                i <= self.solves@.len(),
                htb_solve_views(r@) == htb_solve_views(self.solves@).take(i as int).filter(pred),
                pred == (|s: HTBSolveView| !s.announced),
            decreases self.solves@.len() - i,
        {
            proof {
                reveal(Seq::filter);
                assert(htb_solve_views(self.solves@).take(i + 1).drop_last() =~= htb_solve_views(
                    self.solves@,
                ).take(i as int));
                assert(htb_solve_views(self.solves@).take(i + 1).last()
                    == self.solves@[i as int]@);
            }
            if !self.solves[i].announced {
                r.push(self.solves[i].clone());
                proof {
                    assert(htb_solve_views(r@) =~= htb_solve_views(self.solves@).take(
                        i as int,
                    ).filter(pred).push(self.solves@[i as int]@));
                }
            }
            i += 1;
        }
        proof {
            assert(htb_solve_views(self.solves@).take(self.solves@.len() as int)
                =~= htb_solve_views(self.solves@));
        }
        r
    }

    /// The guard that prevents re-recording a known solve: whether any
    /// solve row exists for the given user, challenge and solve kind —
    /// announced or not.
    pub fn is_challenge_solved_and_not_announced_for_user(
        &self,
        user_id: i32,
        challenge_id: i32,
        solve_type: &str,
    ) -> (r: bool)
        ensures
            r == has_solve(
                htb_solve_views(self.solves@),
                user_id as int,
                challenge_id as int,
                solve_type@,
            ),
    {
        let ghost sv = htb_solve_views(self.solves@);
        let mut i: usize = 0;
        while i < self.solves.len()
            invariant
                i <= self.solves@.len(),
                sv == htb_solve_views(self.solves@),
                forall|j: int|
                    0 <= j < i ==> !((#[trigger] sv[j]).user_id == user_id as int
                        && sv[j].challenge_id == challenge_id as int && sv[j].solve_type
                        == solve_type@),
            decreases self.solves@.len() - i,
        {
            if self.solves[i].user_id == user_id && self.solves[i].challenge_id == challenge_id
                && str_eq(self.solves[i].solve_type.as_str(), solve_type) {
                proof {
                    assert((sv[i as int]).user_id == user_id as int && sv[i as int].challenge_id
                        == challenge_id as int && sv[i as int].solve_type == solve_type@);
                }
                return true;
            }
            i += 1;
        }
        false
    }

    /// The chat identity mapped to a remote user id, or an error when no
    /// mapping exists.
    pub fn get_discord_id_for(&self, htb_id: i32) -> (r: Result<i64, StoreError>)
        ensures
            (match r {
                Ok(id) => exists|i: int|
                    0 <= i < self.user_mappings@.len() && #[trigger] self.user_mappings@[i]@.htb_id
                        == htb_id as int && self.user_mappings@[i]@.discord_id == id as int,
                Err(e) => e == StoreError::NoDiscordIdForUser && (forall|i: int|
                    0 <= i < self.user_mappings@.len() ==> #[trigger] self.user_mappings@[i]@.htb_id
                        != htb_id as int),
            }),
    {
        let mut i: usize = 0;
        while i < self.user_mappings.len()
            invariant
                i <= self.user_mappings@.len(),
                forall|j: int|
                    0 <= j < i ==> #[trigger] self.user_mappings@[j]@.htb_id != htb_id as int,
            decreases self.user_mappings@.len() - i,
        {
            if self.user_mappings[i].htb_id == htb_id {
                proof {
                    assert(self.user_mappings@[i as int]@.htb_id == htb_id as int);
                }
                return Ok(self.user_mappings[i].discord_id);
            }
            i += 1;
        }
        Err(StoreError::NoDiscordIdForUser)
    }

    /// The most recent rank snapshot, or a zeroed snapshot stamped with
    /// the given moment when none has been taken yet.
    pub fn get_latest_rank_from_db(&self, now: i64) -> (r: HTBRank)
        ensures
            self.ranks@.len() > 0 ==> r@ == self.ranks@.last()@,
            self.ranks@.len() == 0 ==> r@ == (HTBRankView {
                entry_id: 0,
                rank: 0,
                points: 0,
                timestamp: now as int,
            }),
    {
        if self.ranks.len() > 0 {
            self.ranks[self.ranks.len() - 1].clone()
        } else {
            HTBRank { entry_id: 0, rank: 0, points: 0, timestamp: now }
        }
    }
}

impl HtbStore {
    /// Marks a user as working on every challenge row carrying the remote
    /// id of the first challenge with the given name. Adding a user who is
    /// already working is a no-op; an unknown name is an error.
    pub fn add_working(&mut self, username: &str, challenge_name: &str) -> (r: Result<
        (),
        StoreError,
    >)
        requires
            old(self).wf(),
        ensures
            final(self).wf(),
            final(self).solves == old(self).solves,
            final(self).ranks == old(self).ranks,
            final(self).user_mappings == old(self).user_mappings,
            final(self).next_challenge_row_id == old(self).next_challenge_row_id,
            final(self).next_solve_id == old(self).next_solve_id,
            final(self).next_rank_entry_id == old(self).next_rank_entry_id,
            final(self).next_mapping_entry_id == old(self).next_mapping_entry_id,
            final(self).challenges@.len() == old(self).challenges@.len(),
            (match r {
                Ok(_) => exists|i: int|
                    0 <= i < old(self).challenges@.len() && #[trigger] old(
                        self,
                    ).challenges@[i]@.name == challenge_name@ && (forall|j: int|
                        0 <= j < i ==> #[trigger] old(self).challenges@[j]@.name
                            != challenge_name@) && (forall|j: int|
                        0 <= j < old(self).challenges@.len() ==> final(self).challenges@[j]@ == (
                        if #[trigger] old(self).challenges@[j]@.htb_id == old(
                            self,
                        ).challenges@[i]@.htb_id {
                            HTBChallengeView {
                                working: with_working(
                                    old(self).challenges@[j]@.working,
                                    username@,
                                ),
                                ..old(self).challenges@[j]@
                            }
                        } else {
                            old(self).challenges@[j]@
                        })),
                Err(e) => e == StoreError::NoChallengeWithName && *final(self) == *old(self) && (
                forall|j: int|
                    0 <= j < old(self).challenges@.len() ==> #[trigger] old(
                        self,
                    ).challenges@[j]@.name != challenge_name@),
            }),
    {
        let target = match self.get_challenge_from_name(challenge_name) {
            Some(c) => c,
            None => {
                return Err(StoreError::NoChallengeWithName);
            },
        };
        let mut i: usize = 0;
        while i < self.challenges.len()
            invariant
                old(self).wf(),
                i <= self.challenges@.len(),
                self.challenges@.len() == old(self).challenges@.len(),
                forall|j: int|
                    i <= j < self.challenges@.len() ==> self.challenges@[j] == #[trigger] old(
                        self,
                    ).challenges@[j],
                forall|j: int|
                    0 <= j < self.challenges@.len() ==> #[trigger] self.challenges@[j]@.id == old(
                        self,
                    ).challenges@[j]@.id,
                forall|j: int|
                    0 <= j < self.challenges@.len() ==> #[trigger] distinct_names(
                        self.challenges@[j]@.working,
                    ),
                forall|j: int|
                    0 <= j < i ==> self.challenges@[j]@ == (if #[trigger] old(
                        self,
                    ).challenges@[j]@.htb_id == target@.htb_id {
                        HTBChallengeView {
                            working: with_working(old(self).challenges@[j]@.working, username@),
                            ..old(self).challenges@[j]@
                        }
                    } else {
                        old(self).challenges@[j]@
                    }),
                self.solves == old(self).solves,
                self.ranks == old(self).ranks,
                self.user_mappings == old(self).user_mappings,
                self.next_challenge_row_id == old(self).next_challenge_row_id,
                self.next_solve_id == old(self).next_solve_id,
                self.next_rank_entry_id == old(self).next_rank_entry_id,
                self.next_mapping_entry_id == old(self).next_mapping_entry_id,
            decreases self.challenges@.len() - i,
        {
            if self.challenges[i].htb_id == target.htb_id {
                let updated = {
                    let row = &self.challenges[i];
                    let mut working = clone_string_vec(&row.working);
                    add_working_user(&mut working, username);
                    proof {
                        lemma_with_working_distinct(row@.working, username@);
                    }
                    HTBChallenge {
                        id: row.id,
                        htb_id: row.htb_id,
                        name: row.name.clone(),
                        difficulty: row.difficulty.clone(),
                        points: row.points.clone(),
                        release_date: row.release_date.clone(),
                        challenge_category: row.challenge_category,
                        working,
                        machine_avatar: clone_string_opt(&row.machine_avatar),
                    }
                };
                self.challenges[i] = updated;
            }
            i += 1;
        }
        Ok(())
    }

    /// Clears a user from the working set of every challenge row carrying
    /// the given challenge's remote id. Clearing a user who is not
    /// working is a no-op.
    pub fn remove_working_from_challenge(&mut self, username: &str, challenge: &HTBChallenge)
        requires
            old(self).wf(),
        ensures
            final(self).wf(),
            final(self).solves == old(self).solves,
            final(self).ranks == old(self).ranks,
            final(self).user_mappings == old(self).user_mappings,
            final(self).next_challenge_row_id == old(self).next_challenge_row_id,
            final(self).next_solve_id == old(self).next_solve_id,
            final(self).next_rank_entry_id == old(self).next_rank_entry_id,
            final(self).next_mapping_entry_id == old(self).next_mapping_entry_id,
            final(self).challenges@.len() == old(self).challenges@.len(),
            forall|j: int|
                0 <= j < old(self).challenges@.len() ==> final(self).challenges@[j]@ == (
                if #[trigger] old(self).challenges@[j]@.htb_id == challenge@.htb_id {
                    HTBChallengeView {
                        working: without_working(old(self).challenges@[j]@.working, username@),
                        ..old(self).challenges@[j]@
                    }
                } else {
                    old(self).challenges@[j]@
                }),
    {
        let mut i: usize = 0;
        while i < self.challenges.len()
            invariant
                old(self).wf(),
                i <= self.challenges@.len(),
                self.challenges@.len() == old(self).challenges@.len(),
                forall|j: int|
                    i <= j < self.challenges@.len() ==> self.challenges@[j] == #[trigger] old(
                        self,
                    ).challenges@[j],
                forall|j: int|
                    0 <= j < self.challenges@.len() ==> #[trigger] self.challenges@[j]@.id == old(
                        self,
                    ).challenges@[j]@.id,
                forall|j: int|
                    0 <= j < self.challenges@.len() ==> #[trigger] distinct_names(
                        self.challenges@[j]@.working,
                    ),
                forall|j: int|
                    0 <= j < i ==> self.challenges@[j]@ == (if #[trigger] old(
                        self,
                    ).challenges@[j]@.htb_id == challenge@.htb_id {
                        HTBChallengeView {
                            working: without_working(old(self).challenges@[j]@.working, username@),
                            ..old(self).challenges@[j]@
                        }
                    } else {
                        old(self).challenges@[j]@
                    }),
                self.solves == old(self).solves,
                self.ranks == old(self).ranks,
                self.user_mappings == old(self).user_mappings,
                self.next_challenge_row_id == old(self).next_challenge_row_id,
                self.next_solve_id == old(self).next_solve_id,
                self.next_rank_entry_id == old(self).next_rank_entry_id,
                self.next_mapping_entry_id == old(self).next_mapping_entry_id,
            decreases self.challenges@.len() - i,
        {
            if self.challenges[i].htb_id == challenge.htb_id {
                let updated = {
                    let row = &self.challenges[i];
                    let mut working = clone_string_vec(&row.working);
                    remove_working_user(&mut working, username);
                    proof {
                        lemma_without_working_distinct(row@.working, username@);
                    }
                    HTBChallenge {
                        id: row.id,
                        htb_id: row.htb_id,
                        name: row.name.clone(),
                        difficulty: row.difficulty.clone(),
                        points: row.points.clone(),
                        release_date: row.release_date.clone(),
                        challenge_category: row.challenge_category,
                        working,
                        machine_avatar: clone_string_opt(&row.machine_avatar),
                    }
                };
                self.challenges[i] = updated;
            }
            i += 1;
        }
    }

    /// Clears a user from the working set of the first challenge with the
    /// given name; an unknown name is an error, an absent user is not.
    pub fn remove_working(&mut self, username: &str, challenge_name: &str) -> (r: Result<
        (),
        StoreError,
    >)
        requires
            old(self).wf(),
        ensures
            final(self).wf(),
            final(self).solves == old(self).solves,
            final(self).ranks == old(self).ranks,
            final(self).user_mappings == old(self).user_mappings,
            final(self).next_challenge_row_id == old(self).next_challenge_row_id,
            final(self).next_solve_id == old(self).next_solve_id,
            final(self).next_rank_entry_id == old(self).next_rank_entry_id,
            final(self).next_mapping_entry_id == old(self).next_mapping_entry_id,
            final(self).challenges@.len() == old(self).challenges@.len(),
            (match r {
                Ok(_) => exists|i: int|
                    0 <= i < old(self).challenges@.len() && #[trigger] old(
                        self,
                    ).challenges@[i]@.name == challenge_name@ && (forall|j: int|
                        0 <= j < i ==> #[trigger] old(self).challenges@[j]@.name
                            != challenge_name@) && (forall|j: int|
                        0 <= j < old(self).challenges@.len() ==> final(self).challenges@[j]@ == (
                        if #[trigger] old(self).challenges@[j]@.htb_id == old(
                            self,
                        ).challenges@[i]@.htb_id {
                            HTBChallengeView {
                                working: without_working(
                                    old(self).challenges@[j]@.working,
                                    username@,
                                ),
                                ..old(self).challenges@[j]@
                            }
                        } else {
                            old(self).challenges@[j]@
                        })),
                Err(e) => e == StoreError::NoChallengeWithName && *final(self) == *old(self) && (
                forall|j: int|
                    0 <= j < old(self).challenges@.len() ==> #[trigger] old(
                        self,
                    ).challenges@[j]@.name != challenge_name@),
            }),
    {
        let target = match self.get_challenge_from_name(challenge_name) {
            Some(c) => c,
            None => {
                return Err(StoreError::NoChallengeWithName);
            },
        };
        self.remove_working_from_challenge(username, &target);
        Ok(())
    }

    /// Appends a rank snapshot taken at the given moment.
    pub fn insert_rank_into_db(&mut self, rank_stats: &RankStats, now: i64)
        requires
            old(self).wf(),
            old(self).next_rank_entry_id < i32::MAX,
        ensures
            final(self).wf(),
            final(self).ranks@.len() == old(self).ranks@.len() + 1,
            forall|i: int|
                0 <= i < old(self).ranks@.len() ==> final(self).ranks@[i] == #[trigger] old(
                    self,
                ).ranks@[i],
            final(self).ranks@.last()@ == (HTBRankView {
                entry_id: old(self).next_rank_entry_id as int,
                rank: rank_stats.data.rank as int,
                points: rank_stats.data.points as int,
                timestamp: now as int,
            }),
            final(self).challenges == old(self).challenges,
            final(self).solves == old(self).solves,
            final(self).user_mappings == old(self).user_mappings,
            final(self).next_challenge_row_id == old(self).next_challenge_row_id,
            final(self).next_solve_id == old(self).next_solve_id,
            final(self).next_rank_entry_id == old(self).next_rank_entry_id + 1,
            final(self).next_mapping_entry_id == old(self).next_mapping_entry_id,
    {
        let entry_id = self.next_rank_entry_id;
        let row = HTBRank {
            entry_id,
            rank: rank_stats.data.rank,
            points: rank_stats.data.points,
            timestamp: now,
        };
        self.ranks.push(row);
        self.next_rank_entry_id = entry_id + 1;
    }

    /// Binds a remote user id to a chat identity: updates the existing
    /// mapping when one exists, inserts one otherwise.
    pub fn set_discord_id_for(&mut self, htb_id: i32, discord_id: i64)
        requires
            old(self).wf(),
            old(self).next_mapping_entry_id < i32::MAX,
        ensures
            final(self).wf(),
            final(self).challenges == old(self).challenges,
            final(self).solves == old(self).solves,
            final(self).ranks == old(self).ranks,
            final(self).next_challenge_row_id == old(self).next_challenge_row_id,
            final(self).next_solve_id == old(self).next_solve_id,
            final(self).next_rank_entry_id == old(self).next_rank_entry_id,
            (if exists|i: int|
                0 <= i < old(self).user_mappings@.len() && #[trigger] old(
                    self,
                ).user_mappings@[i]@.htb_id == htb_id as int {
                final(self).user_mappings@.len() == old(self).user_mappings@.len() && (forall|
                    j: int,
                |
                    0 <= j < old(self).user_mappings@.len() ==> final(self).user_mappings@[j]@ == (
                    if #[trigger] old(self).user_mappings@[j]@.htb_id == htb_id as int {
                        crate::models::HTBUserMappingView {
                            discord_id: discord_id as int,
                            ..old(self).user_mappings@[j]@
                        }
                    } else {
                        old(self).user_mappings@[j]@
                    })) && final(self).next_mapping_entry_id == old(self).next_mapping_entry_id
            } else {
                final(self).user_mappings@.len() == old(self).user_mappings@.len() + 1 && (forall|
                    j: int,
                |
                    0 <= j < old(self).user_mappings@.len() ==> final(self).user_mappings@[j]
                        == #[trigger] old(self).user_mappings@[j]) && final(self).user_mappings@.last()@ == (crate::models::HTBUserMappingView {
                    entry_id: old(self).next_mapping_entry_id as int,
                    htb_id: htb_id as int,
                    discord_id: discord_id as int,
                }) && final(self).next_mapping_entry_id == old(self).next_mapping_entry_id + 1
            }),
    {
        let mut i: usize = 0;
        while i < self.user_mappings.len()
            invariant
                *self == *old(self),
                old(self).wf(),
                i <= self.user_mappings@.len(),
                forall|j: int|
                    0 <= j < i ==> #[trigger] self.user_mappings@[j]@.htb_id != htb_id as int,
            decreases self.user_mappings@.len() - i,
        {
            if self.user_mappings[i].htb_id == htb_id {
                proof {
                    assert(old(self).user_mappings@[i as int]@.htb_id == htb_id as int);
                }
                let updated = HTBUserMapping {
                    entry_id: self.user_mappings[i].entry_id,
                    htb_id: self.user_mappings[i].htb_id,
                    discord_id,
                };
                self.user_mappings[i] = updated;
                proof {
                    assert forall|j: int|
                        0 <= j < old(self).user_mappings@.len() implies final(self).user_mappings@[j]@ == (if old(self).user_mappings@[j]@.htb_id
                        == htb_id as int {
                        crate::models::HTBUserMappingView {
                            discord_id: discord_id as int,
                            ..old(self).user_mappings@[j]@
                        }
                    } else {
                        old(self).user_mappings@[j]@
                    }) by {
                        if j != i as int && old(self).user_mappings@[j]@.htb_id == htb_id as int {
                            assert(false);
                        }
                    }
                }
                return ;
            }
            i += 1;
        }
        let row = HTBUserMapping { entry_id: self.next_mapping_entry_id, htb_id, discord_id };
        self.user_mappings.push(row);
        self.next_mapping_entry_id = self.next_mapping_entry_id + 1;
    }
}

/// Solves recorded under a given username.
pub open spec fn username_is(name: Seq<char>) -> spec_fn(HTBSolveView) -> bool {
    |s: HTBSolveView| s.username == name
}

/// A fresh challenge row discovered from the provider's listing: nobody
/// working on it yet.
pub open spec fn new_htb_challenge_view(
    row_id: int,
    c: ListActiveChallengesDataView,
) -> HTBChallengeView {
    HTBChallengeView {
        id: row_id,
        htb_id: c.id,
        name: c.name,
        difficulty: c.difficulty,
        points: c.points,
        release_date: c.release_date,
        challenge_category: c.challenge_category_id,
        working: Seq::empty(),
        machine_avatar: c.machine_avatar,
    }
}

/// The challenge table and row counter after reconciling one remote
/// challenge: inserted when its (remote id, name) key is unknown, left
/// untouched otherwise — challenge scores on this provider are static.
pub open spec fn ensure_htb_challenge(
    cs: Seq<HTBChallengeView>,
    next_row_id: int,
    c: ListActiveChallengesDataView,
) -> (Seq<HTBChallengeView>, int) {
    if exists|i: int| 0 <= i < cs.len() && htb_key_match(#[trigger] cs[i], c.id, c.name) {
        (cs, next_row_id)
    } else {
        (cs.push(new_htb_challenge_view(next_row_id, c)), next_row_id + 1)
    }
}

/// The challenge table and row counter after reconciling a whole remote
/// listing, in listing order.
pub open spec fn ensure_htb_challenges(
    cs: Seq<HTBChallengeView>,
    next_row_id: int,
    rs: Seq<ListActiveChallengesDataView>,
) -> (Seq<HTBChallengeView>, int)
    decreases rs.len(),
{
    if rs.len() == 0 {
        (cs, next_row_id)
    } else {
        let step = ensure_htb_challenge(cs, next_row_id, rs.first());
        ensure_htb_challenges(step.0, step.1, rs.drop_first())
    }
}

/// A machine reported by the provider, viewed as challenge data: its
/// points rendered in decimal, filed under the synthetic machine category.
pub open spec fn machine_as_challenge(m: ListActiveMachinesDataView) -> ListActiveChallengesDataView {
    ListActiveChallengesDataView {
        id: m.id,
        name: m.name,
        difficulty: m.difficulty,
        points: dec_str(m.points),
        release_date: m.release,
        challenge_category_id: 100,
        machine_avatar: Some(m.avatar),
    }
}

pub open spec fn active_challenge_views(s: Seq<ListActiveChallengesData>) -> Seq<
    ListActiveChallengesDataView,
> {
    s.map_values(|c: ListActiveChallengesData| c@)
}

pub open spec fn machine_challenge_views(s: Seq<crate::htb::ListActiveMachinesData>) -> Seq<
    ListActiveChallengesDataView,
> {
    s.map_values(|m: crate::htb::ListActiveMachinesData| machine_as_challenge(m@))
}

pub open spec fn activity_views(s: Seq<GetRecentTeamActivityData>) -> Seq<
    GetRecentTeamActivityDataView,
> {
    s.map_values(|e: GetRecentTeamActivityData| e@)
}

/// The challenge table after a solver leaves the working sets of every
/// row with the given remote id.
pub open spec fn working_cleared(
    cs: Seq<HTBChallengeView>,
    htb_id: int,
    name: Seq<char>,
) -> Seq<HTBChallengeView> {
    Seq::new(
        cs.len(),
        |i: int|
            if cs[i].htb_id == htb_id {
                HTBChallengeView { working: without_working(cs[i].working, name), ..cs[i] }
            } else {
                cs[i]
            },
    )
}

/// A newly recorded, not yet announced solve row.
pub open spec fn recorded_solve_row(
    id: int,
    user_id: int,
    name: Seq<char>,
    challenge_id: int,
    kind: Seq<char>,
    t: int,
) -> HTBSolveView {
    HTBSolveView {
        id: id,
        user_id: user_id,
        username: name,
        challenge_id: challenge_id,
        solve_type: kind,
        announced: false,
        solved_time: t,
    }
}

/// The reconciliation-relevant part of the store: challenge rows, solve
/// rows and the solve id counter.
#[verifier::ext_equal]
pub ghost struct HtbReconView {
    pub challenges: Seq<HTBChallengeView>,
    pub solves: Seq<HTBSolveView>,
    pub next_solve_id: int,
}

/// What one remote activity entry does to the store: nothing when it maps
/// to no challenge, a solve row for its (user, challenge, kind) already
/// exists, or its date does not parse; otherwise a fresh unannounced solve
/// row is recorded and the solver leaves the challenge's working set.
pub open spec fn record_solve_step(
    m: HtbReconView,
    e: GetRecentTeamActivityDataView,
    name: Seq<char>,
) -> HtbReconView {
    match first_htb_key_match(m.challenges, e.id, e.name) {
        Some(ci) => if !has_solve(m.solves, e.user.id, e.id, e.solve_type) {
            match parsed_unix_of(e.date, activity_date_fmt()) {
                Some(t) => HtbReconView {
                    challenges: working_cleared(m.challenges, e.id, name),
                    solves: m.solves.push(
                        recorded_solve_row(
                            m.next_solve_id,
                            e.user.id,
                            name,
                            e.id,
                            e.solve_type,
                            t as int,
                        ),
                    ),
                    next_solve_id: m.next_solve_id + 1,
                },
                None => m,
            }
        } else {
            m
        },
        None => m,
    }
}

/// The store after one reconciliation tick over a batch of remote
/// activity entries, processed in provider order.
pub open spec fn record_solves(
    m: HtbReconView,
    rem: Seq<GetRecentTeamActivityDataView>,
    names: Seq<Seq<char>>,
) -> HtbReconView
    decreases rem.len(),
{
    if rem.len() == 0 {
        m
    } else {
        record_solves(
            record_solve_step(m, rem.first(), names.first()),
            rem.drop_first(),
            names.drop_first(),
        )
    }
}

/// Challenge keys (remote id and name) are untouched by a reconciliation
/// step: only working sets change.
proof fn lemma_step_preserves_keys(m: HtbReconView, e: GetRecentTeamActivityDataView, n: Seq<char>)
    ensures
        record_solve_step(m, e, n).challenges.len() == m.challenges.len(),
        forall|i: int|
            0 <= i < m.challenges.len() ==> (#[trigger] record_solve_step(
                m,
                e,
                n,
            ).challenges[i]).htb_id == m.challenges[i].htb_id && record_solve_step(
                m,
                e,
                n,
            ).challenges[i].name == m.challenges[i].name,
{
}

proof fn lemma_fold_preserves_keys(
    m: HtbReconView,
    rem: Seq<GetRecentTeamActivityDataView>,
    names: Seq<Seq<char>>,
)
    ensures
        record_solves(m, rem, names).challenges.len() == m.challenges.len(),
        forall|i: int|
            0 <= i < m.challenges.len() ==> (#[trigger] record_solves(
                m,
                rem,
                names,
            ).challenges[i]).htb_id == m.challenges[i].htb_id && record_solves(
                m,
                rem,
                names,
            ).challenges[i].name == m.challenges[i].name,
    decreases rem.len(),
{
    if rem.len() > 0 {
        let m1 = record_solve_step(m, rem.first(), names.first());
        lemma_step_preserves_keys(m, rem.first(), names.first());
        lemma_fold_preserves_keys(m1, rem.drop_first(), names.drop_first());
    }
}

/// A first-match lookup by key sees only the remote id and name, so it
/// gives the same answer on two tables with identical keys.
proof fn lemma_key_match_stable(
    a: Seq<HTBChallengeView>,
    b: Seq<HTBChallengeView>,
    htb_id: int,
    name: Seq<char>,
    k: int,
)
    requires
        a.len() == b.len(),
        forall|i: int|
            0 <= i < a.len() ==> (#[trigger] b[i]).htb_id == a[i].htb_id && b[i].name == a[i].name,
    ensures
        first_htb_key_match_from(a, htb_id, name, k) == first_htb_key_match_from(
            b,
            htb_id,
            name,
            k,
        ),
    decreases a.len() - k,
{
    if 0 <= k < a.len() {
        lemma_key_match_stable(a, b, htb_id, name, k + 1);
    }
}

/// A recorded solve row stays recorded through any further reconciliation.
proof fn lemma_has_solve_monotone(
    m: HtbReconView,
    rem: Seq<GetRecentTeamActivityDataView>,
    names: Seq<Seq<char>>,
    user_id: int,
    challenge_id: int,
    kind: Seq<char>,
)
    requires
        has_solve(m.solves, user_id, challenge_id, kind),
    ensures
        has_solve(record_solves(m, rem, names).solves, user_id, challenge_id, kind),
    decreases rem.len(),
{
    if rem.len() > 0 {
        let m1 = record_solve_step(m, rem.first(), names.first());
        let w = choose|i: int|
            0 <= i < m.solves.len() && (#[trigger] m.solves[i]).user_id == user_id
                && m.solves[i].challenge_id == challenge_id && m.solves[i].solve_type == kind;
        assert(m1.solves[w] == m.solves[w]);
        lemma_has_solve_monotone(m1, rem.drop_first(), names.drop_first(), user_id, challenge_id, kind);
    }
}

/// A reconciliation step that would do nothing: the entry maps to no
/// challenge, its solve is already recorded, or its date does not parse.
pub open spec fn step_settled(
    m: HtbReconView,
    e: GetRecentTeamActivityDataView,
    name: Seq<char>,
) -> bool {
    record_solve_step(m, e, name) == m
}

proof fn lemma_settled_conditions(m: HtbReconView, e: GetRecentTeamActivityDataView, n: Seq<char>)
    requires
        first_htb_key_match(m.challenges, e.id, e.name) is None || has_solve(
            m.solves,
            e.user.id,
            e.id,
            e.solve_type,
        ) || parsed_unix_of(e.date, activity_date_fmt()) is None,
    ensures
        step_settled(m, e, n),
{
}

/// After one reconciliation tick, every entry of the batch is settled in
/// the resulting store: a second look at the same entry changes nothing.
proof fn lemma_fold_settles_batch(
    m: HtbReconView,
    rem: Seq<GetRecentTeamActivityDataView>,
    names: Seq<Seq<char>>,
    k: int,
)
    requires
        names.len() == rem.len(),
        0 <= k < rem.len(),
    ensures
        step_settled(record_solves(m, rem, names), rem[k], names[k]),
    decreases rem.len(),
{
    let e = rem.first();
    let n = names.first();
    let m1 = record_solve_step(m, e, n);
    let m2 = record_solves(m1, rem.drop_first(), names.drop_first());
    assert(m2 == record_solves(m, rem, names));
    if k >= 1 {
        lemma_fold_settles_batch(m1, rem.drop_first(), names.drop_first(), k - 1);
        assert(rem.drop_first()[k - 1] == rem[k]);
        assert(names.drop_first()[k - 1] == names[k]);
    } else {
        match first_htb_key_match(m.challenges, e.id, e.name) {
            Some(ci) => {
                if has_solve(m.solves, e.user.id, e.id, e.solve_type) {
                    lemma_has_solve_monotone(
                        m1,
                        rem.drop_first(),
                        names.drop_first(),
                        e.user.id,
                        e.id,
                        e.solve_type,
                    );
                    lemma_settled_conditions(m2, e, n);
                } else {
                    match parsed_unix_of(e.date, activity_date_fmt()) {
                        Some(t) => {
                            assert(m1.solves.last().user_id == e.user.id
                                && m1.solves.last().challenge_id == e.id
                                && m1.solves.last().solve_type == e.solve_type);
                            assert(has_solve(m1.solves, e.user.id, e.id, e.solve_type));
                            lemma_has_solve_monotone(
                                m1,
                                rem.drop_first(),
                                names.drop_first(),
                                e.user.id,
                                e.id,
                                e.solve_type,
                            );
                            lemma_settled_conditions(m2, e, n);
                        },
                        None => {
                            lemma_fold_preserves_keys(m1, rem.drop_first(), names.drop_first());
                            lemma_settled_conditions(m2, e, n);
                        },
                    }
                }
            },
            None => {
                lemma_step_preserves_keys(m, e, n);
                lemma_fold_preserves_keys(m1, rem.drop_first(), names.drop_first());
                lemma_key_match_stable(m.challenges, m2.challenges, e.id, e.name, 0);
                lemma_settled_conditions(m2, e, n);
            },
        }
    }
}

proof fn lemma_fold_noop(
    m: HtbReconView,
    rem: Seq<GetRecentTeamActivityDataView>,
    names: Seq<Seq<char>>,
)
    requires
        names.len() == rem.len(),
        forall|k: int| 0 <= k < rem.len() ==> step_settled(m, rem[k], names[k]),
    ensures
        record_solves(m, rem, names) == m,
    decreases rem.len(),
{
    if rem.len() > 0 {
        assert(step_settled(m, rem[0], names[0]));
        assert(record_solve_step(m, rem.first(), names.first()) == m);
        assert forall|k: int| 0 <= k < rem.drop_first().len() implies step_settled(
            m,
            rem.drop_first()[k],
            names.drop_first()[k],
        ) by {
            assert(rem.drop_first()[k] == rem[k + 1]);
            assert(names.drop_first()[k] == names[k + 1]);
            assert(step_settled(m, rem[k + 1], names[k + 1]));
        }
        lemma_fold_noop(m, rem.drop_first(), names.drop_first());
    }
}

/// Reconciling the same batch of remote solves twice records exactly what
/// reconciling it once records: a solve that was inserted as unannounced
/// stays a single row per (user, challenge, kind) key even when the tick
/// runs again before the announcement, and the announcement then flips
/// that one row's flag.
pub proof fn lemma_record_solves_idempotent(
    m: HtbReconView,
    rem: Seq<GetRecentTeamActivityDataView>,
    names: Seq<Seq<char>>,
)
    requires
        names.len() == rem.len(),
    ensures
        record_solves(record_solves(m, rem, names), rem, names) == record_solves(m, rem, names),
{
    let m2 = record_solves(m, rem, names);
    assert forall|k: int| 0 <= k < rem.len() implies step_settled(m2, rem[k], names[k]) by {
        lemma_fold_settles_batch(m, rem, names, k);
    }
    lemma_fold_noop(m2, rem, names);
}

/// The unannounced solves joined with their challenge rows, in store
/// order; a solve whose challenge row is gone is skipped.
pub open spec fn solves_to_announce_from(
    cs: Seq<HTBChallengeView>,
    sv: Seq<HTBSolveView>,
) -> Seq<SolveToAnnounceView>
    decreases sv.len(),
{
    if sv.len() == 0 {
        Seq::empty()
    } else {
        let rest = solves_to_announce_from(cs, sv.drop_first());
        let s0 = sv.first();
        if !s0.announced {
            match first_htb_id_match(cs, s0.challenge_id) {
                Some(ci) => seq![
                    SolveToAnnounceView {
                        solver: s0.username,
                        user_id: s0.user_id,
                        solve_type: s0.solve_type,
                        challenge: cs[ci],
                    },
                ] + rest,
                None => rest,
            }
        } else {
            rest
        }
    }
}

/// The solve rows after an announcement has been delivered for the given
/// user, challenge and solve kind: exactly those rows are flagged
/// announced.
pub open spec fn announced_marked(
    sv: Seq<HTBSolveView>,
    user_id: int,
    challenge_id: int,
    kind: Seq<char>,
) -> Seq<HTBSolveView> {
    Seq::new(
        sv.len(),
        |i: int|
            if sv[i].user_id == user_id && sv[i].challenge_id == challenge_id && sv[i].solve_type
                == kind {
                HTBSolveView { announced: true, ..sv[i] }
            } else {
                sv[i]
            },
    )
}

/// The distinct usernames of a list, first occurrence first.
pub open spec fn collect_distinct(acc: Seq<Seq<char>>, names: Seq<Seq<char>>) -> Seq<Seq<char>>
    decreases names.len(),
{
    if names.len() == 0 {
        acc
    } else {
        collect_distinct(with_working(acc, names.first()), names.drop_first())
    }
}

pub open spec fn usernames_of(sv: Seq<HTBSolveView>) -> Seq<Seq<char>> {
    sv.map_values(|s: HTBSolveView| s.username)
}

impl HtbStore {
    /// The reconciliation-relevant part of this store.
    pub open spec fn recon_view(&self) -> HtbReconView {
        HtbReconView {
            challenges: htb_challenge_views(self.challenges@),
            solves: htb_solve_views(self.solves@),
            next_solve_id: self.next_solve_id as int,
        }
    }

    fn clear_working_rows(&mut self, htb_id: i32, username: &str)
        requires
            old(self).wf(),
        ensures
            final(self).wf(),
            htb_challenge_views(final(self).challenges@) == working_cleared(
                htb_challenge_views(old(self).challenges@),
                htb_id as int,
                username@,
            ),
            final(self).solves == old(self).solves,
            final(self).ranks == old(self).ranks,
            final(self).user_mappings == old(self).user_mappings,
            final(self).next_challenge_row_id == old(self).next_challenge_row_id,
            final(self).next_solve_id == old(self).next_solve_id,
            final(self).next_rank_entry_id == old(self).next_rank_entry_id,
            final(self).next_mapping_entry_id == old(self).next_mapping_entry_id,
    {
        let ghost target = working_cleared(
            htb_challenge_views(old(self).challenges@),
            htb_id as int,
            username@,
        );
        let mut i: usize = 0;
        while i < self.challenges.len()
            invariant
                old(self).wf(),
                i <= self.challenges@.len(),
                self.challenges@.len() == old(self).challenges@.len(),
                target == working_cleared(
                    htb_challenge_views(old(self).challenges@),
                    htb_id as int,
                    username@,
                ),
                forall|j: int|
                    i <= j < self.challenges@.len() ==> self.challenges@[j] == #[trigger] old(
                        self,
                    ).challenges@[j],
                forall|j: int| 0 <= j < i ==> #[trigger] self.challenges@[j]@ == target[j],
                forall|j: int|
                    0 <= j < self.challenges@.len() ==> #[trigger] self.challenges@[j]@.id == old(
                        self,
                    ).challenges@[j]@.id,
                forall|j: int|
                    0 <= j < self.challenges@.len() ==> #[trigger] distinct_names(
                        self.challenges@[j]@.working,
                    ),
                self.solves == old(self).solves,
                self.ranks == old(self).ranks,
                self.user_mappings == old(self).user_mappings,
                self.next_challenge_row_id == old(self).next_challenge_row_id,
                self.next_solve_id == old(self).next_solve_id,
                self.next_rank_entry_id == old(self).next_rank_entry_id,
                self.next_mapping_entry_id == old(self).next_mapping_entry_id,
            decreases self.challenges@.len() - i,
        {
            if self.challenges[i].htb_id == htb_id {
                let updated = {
                    let row = &self.challenges[i];
                    let mut working = clone_string_vec(&row.working);
                    remove_working_user(&mut working, username);
                    proof {
                        lemma_without_working_distinct(row@.working, username@);
                    }
                    HTBChallenge {
                        id: row.id,
                        htb_id: row.htb_id,
                        name: row.name.clone(),
                        difficulty: row.difficulty.clone(),
                        points: row.points.clone(),
                        release_date: row.release_date.clone(),
                        challenge_category: row.challenge_category,
                        working,
                        machine_avatar: clone_string_opt(&row.machine_avatar),
                    }
                };
                proof {
                    assert(updated@ =~= target[i as int]);
                }
                self.challenges[i] = updated;
            } else {
                proof {
                    assert(self.challenges@[i as int]@ == target[i as int]);
                }
            }
            i += 1;
        }
        proof {
            assert(htb_challenge_views(self.challenges@) =~= target);
        }
    }

    /// Looks a remote challenge up by its de-duplication key; when it is
    /// absent, inserts it as a fresh row. Returns whether a row was
    /// inserted. Existing rows are left untouched: challenge scores on
    /// this provider are static.
    pub fn ensure_challenge_exists_otherwise_add(
        &mut self,
        challenge: &ListActiveChallengesData,
    ) -> (is_new: bool)
        requires
            old(self).wf(),
            old(self).next_challenge_row_id < i32::MAX,
        ensures
            final(self).wf(),
            is_new == !(exists|i: int|
                0 <= i < htb_challenge_views(old(self).challenges@).len() && htb_key_match(
                    #[trigger] htb_challenge_views(old(self).challenges@)[i],
                    challenge@.id,
                    challenge@.name,
                )),
            !is_new ==> *final(self) == *old(self),
            is_new ==> htb_challenge_views(final(self).challenges@) == htb_challenge_views(
                old(self).challenges@,
            ).push(new_htb_challenge_view(old(self).next_challenge_row_id as int, challenge@))
                && final(self).next_challenge_row_id == old(self).next_challenge_row_id + 1
                && final(self).solves == old(self).solves && final(self).ranks == old(self).ranks
                && final(self).user_mappings == old(self).user_mappings && final(self).next_solve_id == old(self).next_solve_id && final(self).next_rank_entry_id == old(
                self,
            ).next_rank_entry_id && final(self).next_mapping_entry_id == old(
                self,
            ).next_mapping_entry_id,
    {
        let mut i: usize = 0;
        while i < self.challenges.len()
            invariant
                *self == *old(self),
                old(self).wf(),
                old(self).next_challenge_row_id < i32::MAX,
                i <= self.challenges@.len(),
                forall|j: int|
                    0 <= j < i ==> !htb_key_match(
                        #[trigger] htb_challenge_views(self.challenges@)[j],
                        challenge@.id,
                        challenge@.name,
                    ),
            decreases self.challenges@.len() - i,
        {
            if self.challenges[i].htb_id == challenge.id && str_eq(
                self.challenges[i].name.as_str(),
                challenge.name.as_str(),
            ) {
                proof {
                    assert(htb_key_match(
                        htb_challenge_views(self.challenges@)[i as int],
                        challenge@.id,
                        challenge@.name,
                    ));
                }
                return false;
            }
            i += 1;
        }
        let id = self.next_challenge_row_id;
        let row = HTBChallenge {
            id,
            htb_id: challenge.id,
            name: challenge.name.clone(),
            difficulty: challenge.difficulty.clone(),
            points: challenge.points.clone(),
            release_date: challenge.release_date.clone(),
            challenge_category: challenge.challenge_category_id,
            working: Vec::new(),
            machine_avatar: clone_string_opt(&challenge.machine_avatar),
        };
        self.challenges.push(row);
        self.next_challenge_row_id = id + 1;
        proof {
            assert(htb_challenge_views(self.challenges@) =~~= htb_challenge_views(
                old(self).challenges@,
            ).push(new_htb_challenge_view(old(self).next_challenge_row_id as int, challenge@)));
        }
        true
    }

    /// Reconciles the provider's active challenge and machine listings
    /// against the store: unknown entries are inserted, known ones left
    /// untouched. Machines are filed as challenge rows under the
    /// synthetic machine category, their points rendered in decimal.
    pub fn update_htb_challenges_and_scores(
        &mut self,
        challenges: &ListActiveChallenges,
        machines: &ListActiveMachines,
    )
        requires
            old(self).wf(),
            old(self).next_challenge_row_id as int + challenges.challenges@.len()
                + machines.info@.len() <= i32::MAX as int,
        ensures
            final(self).wf(),
            (
                htb_challenge_views(final(self).challenges@),
                final(self).next_challenge_row_id as int,
            ) == ensure_htb_challenges(
                ensure_htb_challenges(
                    htb_challenge_views(old(self).challenges@),
                    old(self).next_challenge_row_id as int,
                    active_challenge_views(challenges.challenges@),
                ).0,
                ensure_htb_challenges(
                    htb_challenge_views(old(self).challenges@),
                    old(self).next_challenge_row_id as int,
                    active_challenge_views(challenges.challenges@),
                ).1,
                machine_challenge_views(machines.info@),
            ),
            final(self).solves == old(self).solves,
            final(self).ranks == old(self).ranks,
            final(self).user_mappings == old(self).user_mappings,
            final(self).next_solve_id == old(self).next_solve_id,
            final(self).next_rank_entry_id == old(self).next_rank_entry_id,
            final(self).next_mapping_entry_id == old(self).next_mapping_entry_id,
    {
        let ghost cviews = active_challenge_views(challenges.challenges@);
        let ghost mviews = machine_challenge_views(machines.info@);
        let ghost mid = ensure_htb_challenges(
            htb_challenge_views(old(self).challenges@),
            old(self).next_challenge_row_id as int,
            cviews,
        );
        let ghost target = ensure_htb_challenges(mid.0, mid.1, mviews);
        proof {
            assert(cviews.skip(0) =~= cviews);
        }
        let mut i: usize = 0;
        while i < challenges.challenges.len()
            invariant
                self.wf(),
                i <= challenges.challenges@.len(),
                cviews == active_challenge_views(challenges.challenges@),
                self.next_challenge_row_id as int + (challenges.challenges@.len() - i)
                    + machines.info@.len() <= i32::MAX as int,
                ensure_htb_challenges(
                    htb_challenge_views(self.challenges@),
                    self.next_challenge_row_id as int,
                    cviews.skip(i as int),
                ) == mid,
                mid == ensure_htb_challenges(
                    htb_challenge_views(old(self).challenges@),
                    old(self).next_challenge_row_id as int,
                    cviews,
                ),
                self.solves == old(self).solves,
                self.ranks == old(self).ranks,
                self.user_mappings == old(self).user_mappings,
                self.next_solve_id == old(self).next_solve_id,
                self.next_rank_entry_id == old(self).next_rank_entry_id,
                self.next_mapping_entry_id == old(self).next_mapping_entry_id,
            decreases challenges.challenges@.len() - i,
        {
            let ghost pre_views = htb_challenge_views(self.challenges@);
            let ghost pre_next = self.next_challenge_row_id as int;
            self.ensure_challenge_exists_otherwise_add(&challenges.challenges[i]);
            proof {
                assert(cviews.skip(i as int).first() == challenges.challenges@[i as int]@);
                assert(cviews.skip(i as int).drop_first() =~= cviews.skip(i + 1));
                assert((htb_challenge_views(self.challenges@), self.next_challenge_row_id as int)
                    == ensure_htb_challenge(pre_views, pre_next, challenges.challenges@[i as int]@));
            }
            i += 1;
        }
        proof {
            assert(cviews.skip(challenges.challenges@.len() as int) =~= Seq::<
                ListActiveChallengesDataView,
            >::empty());
            assert(mviews.skip(0) =~= mviews);
        }
        let mut k: usize = 0;
        while k < machines.info.len()
            invariant
                self.wf(),
                k <= machines.info@.len(),
                mviews == machine_challenge_views(machines.info@),
                self.next_challenge_row_id as int + (machines.info@.len() - k) <= i32::MAX as int,
                ensure_htb_challenges(
                    htb_challenge_views(self.challenges@),
                    self.next_challenge_row_id as int,
                    mviews.skip(k as int),
                ) == target,
                target == ensure_htb_challenges(mid.0, mid.1, mviews),
                self.solves == old(self).solves,
                self.ranks == old(self).ranks,
                self.user_mappings == old(self).user_mappings,
                self.next_solve_id == old(self).next_solve_id,
                self.next_rank_entry_id == old(self).next_rank_entry_id,
                self.next_mapping_entry_id == old(self).next_mapping_entry_id,
            decreases machines.info@.len() - k,
        {
            let ghost pre_views = htb_challenge_views(self.challenges@);
            let ghost pre_next = self.next_challenge_row_id as int;
            let machine = &machines.info[k];
            let machine_points = i32_to_string(machine.points);
            let mapped = ListActiveChallengesData {
                id: machine.id,
                name: machine.name.clone(),
                difficulty: machine.difficulty.clone(),
                points: machine_points,
                release_date: machine.release.clone(),
                challenge_category_id: 100,
                machine_avatar: Some(machine.avatar.clone()),
            };
            proof {
                assert(mapped@ =~= machine_as_challenge(machines.info@[k as int]@));
            }
            self.ensure_challenge_exists_otherwise_add(&mapped);
            proof {
                assert(mviews.skip(k as int).first() == machine_as_challenge(
                    machines.info@[k as int]@,
                ));
                assert(mviews.skip(k as int).drop_first() =~= mviews.skip(k + 1));
                assert((htb_challenge_views(self.challenges@), self.next_challenge_row_id as int)
                    == ensure_htb_challenge(pre_views, pre_next, mviews.skip(k as int).first()));
            }
            k += 1;
        }
        proof {
            assert(mviews.skip(machines.info@.len() as int) =~= Seq::<
                ListActiveChallengesDataView,
            >::empty());
        }
    }

    /// Records one observed solve: the challenge row with the given remote
    /// id must exist and the solve date must parse; a solve already
    /// recorded for the same (user, challenge, kind) is left alone. On a
    /// fresh record, the solver leaves the challenge's working set.
    pub fn add_challenge_solved_for_user(
        &mut self,
        user_id: i32,
        username: &str,
        solve_date: &str,
        challenge_id: i32,
        solve_type: &str,
    ) -> (r: Result<(), StoreError>)
        requires
            old(self).wf(),
            old(self).next_solve_id < i32::MAX,
        ensures
            final(self).wf(),
            final(self).ranks == old(self).ranks,
            final(self).user_mappings == old(self).user_mappings,
            final(self).next_challenge_row_id == old(self).next_challenge_row_id,
            final(self).next_rank_entry_id == old(self).next_rank_entry_id,
            final(self).next_mapping_entry_id == old(self).next_mapping_entry_id,
            (match r {
                Ok(_) => first_htb_id_match(
                    htb_challenge_views(old(self).challenges@),
                    challenge_id as int,
                ) is Some && (match parsed_unix_of(solve_date@, activity_date_fmt()) {
                    Some(t) => if has_solve(
                        htb_solve_views(old(self).solves@),
                        user_id as int,
                        challenge_id as int,
                        solve_type@,
                    ) {
                        *final(self) == *old(self)
                    } else {
                        htb_challenge_views(final(self).challenges@) == working_cleared(
                            htb_challenge_views(old(self).challenges@),
                            challenge_id as int,
                            username@,
                        ) && htb_solve_views(final(self).solves@) == htb_solve_views(
                            old(self).solves@,
                        ).push(
                            recorded_solve_row(
                                old(self).next_solve_id as int,
                                user_id as int,
                                username@,
                                challenge_id as int,
                                solve_type@,
                                t as int,
                            ),
                        ) && final(self).next_solve_id == old(self).next_solve_id + 1
                    },
                    None => false,
                }),
                Err(e) => *final(self) == *old(self) && ((e == StoreError::NoChallengeWithId
                    && first_htb_id_match(
                    htb_challenge_views(old(self).challenges@),
                    challenge_id as int,
                ) is None) || (e == StoreError::SolveDateUnparseable && first_htb_id_match(
                    htb_challenge_views(old(self).challenges@),
                    challenge_id as int,
                ) is Some && parsed_unix_of(solve_date@, activity_date_fmt()) is None)),
            }),
    {
        if self.find_by_htb_id(challenge_id).is_none() {
            return Err(StoreError::NoChallengeWithId);
        }
        let t = match parse_datetime_unix(solve_date, activity_date_format()) {
            Some(t) => t,
            None => {
                return Err(StoreError::SolveDateUnparseable);
            },
        };
        if self.is_challenge_solved_and_not_announced_for_user(user_id, challenge_id, solve_type) {
            return Ok(());
        }
        let ghost pre_solves = htb_solve_views(self.solves@);
        let row = HTBSolve {
            id: self.next_solve_id,
            user_id,
            username: String::from_str(username),
            challenge_id,
            solve_type: String::from_str(solve_type),
            announced: false,
            solved_time: t,
        };
        self.solves.push(row);
        self.next_solve_id = self.next_solve_id + 1;
        proof {
            assert(htb_solve_views(self.solves@) =~~= pre_solves.push(
                recorded_solve_row(
                    old(self).next_solve_id as int,
                    user_id as int,
                    username@,
                    challenge_id as int,
                    solve_type@,
                    t as int,
                ),
            ));
            let sv = htb_solve_views(self.solves@);
            assert forall|a: int, b: int| 0 <= a < b < sv.len() implies !((#[trigger] sv[a]).user_id
                == (#[trigger] sv[b]).user_id && sv[a].challenge_id == sv[b].challenge_id
                && sv[a].solve_type == sv[b].solve_type) by {
                if b == sv.len() - 1 {
                    assert(sv[a] == pre_solves[a]);
                }
            }
        }
        self.clear_working_rows(challenge_id, username);
        Ok(())
    }

    /// One reconciliation tick over the remote activity feed: every entry
    /// that maps to a local challenge, has a parseable solve date, and is
    /// not yet recorded for its (user, challenge, kind) becomes a fresh
    /// unannounced solve row, and the solver leaves the challenge's
    /// working set. Entries that fail to map are skipped, not fatal, and
    /// each entry's outcome is independent of the others.
    pub fn process_new_solves(
        &mut self,
        recent: &Vec<GetRecentTeamActivityData>,
        solver_names: &Vec<String>,
    )
        requires
            old(self).wf(),
            solver_names@.len() == recent@.len(),
            old(self).next_solve_id as int + recent@.len() <= i32::MAX as int,
        ensures
            final(self).wf(),
            final(self).recon_view() == record_solves(
                old(self).recon_view(),
                activity_views(recent@),
                names_of(solver_names@),
            ),
            final(self).ranks == old(self).ranks,
            final(self).user_mappings == old(self).user_mappings,
            final(self).next_challenge_row_id == old(self).next_challenge_row_id,
            final(self).next_rank_entry_id == old(self).next_rank_entry_id,
            final(self).next_mapping_entry_id == old(self).next_mapping_entry_id,
    {
        let ghost av = activity_views(recent@);
        let ghost nm = names_of(solver_names@);
        let ghost target = record_solves(old(self).recon_view(), av, nm);
        proof {
            assert(av.skip(0) =~= av);
            assert(nm.skip(0) =~= nm);
        }
        let mut i: usize = 0;
        while i < recent.len()
            invariant
                self.wf(),
                i <= recent@.len(),
                recent@.len() == solver_names@.len(),
                av == activity_views(recent@),
                nm == names_of(solver_names@),
                self.next_solve_id as int + (recent@.len() - i) <= i32::MAX as int,
                record_solves(self.recon_view(), av.skip(i as int), nm.skip(i as int)) == target,
                target == record_solves(old(self).recon_view(), av, nm),
                self.ranks == old(self).ranks,
                self.user_mappings == old(self).user_mappings,
                self.next_challenge_row_id == old(self).next_challenge_row_id,
                self.next_rank_entry_id == old(self).next_rank_entry_id,
                self.next_mapping_entry_id == old(self).next_mapping_entry_id,
            decreases recent@.len() - i,
        {
            let ghost pre = self.recon_view();
            proof {
                assert(av.skip(i as int).first() == recent@[i as int]@);
                assert(av.skip(i as int).drop_first() =~= av.skip(i + 1));
                assert(nm.skip(i as int).first() == solver_names@[i as int]@);
                assert(nm.skip(i as int).drop_first() =~= nm.skip(i + 1));
            }
            let entry = &recent[i];
            let mapped = self.find_by_key(entry.id, entry.name.as_str());
            if mapped.is_some() {
                proof {
                    let ki = mapped -> Some_0;
                    assert(pre.challenges[ki as int].htb_id == av[i as int].id);
                    lemma_first_htb_id_match_from_some(
                        pre.challenges,
                        av[i as int].id,
                        0,
                        ki as int,
                    );
                }
                if !self.is_challenge_solved_and_not_announced_for_user(
                    entry.user.id,
                    entry.id,
                    entry.solve_type.as_str(),
                ) {
                    let _outcome = self.add_challenge_solved_for_user(
                        entry.user.id,
                        solver_names[i].as_str(),
                        entry.date.as_str(),
                        entry.id,
                        entry.solve_type.as_str(),
                    );
                }
            }
            proof {
                assert(self.recon_view() =~~= record_solve_step(pre, av[i as int], nm[i as int]));
            }
            i += 1;
        }
        proof {
            assert(av.skip(recent@.len() as int) =~= Seq::<GetRecentTeamActivityDataView>::empty());
        }
    }

    /// Flags the solve rows of the given user, challenge and solve kind as
    /// announced; the challenge row must still exist.
    pub fn add_challenge_announced_for_user(
        &mut self,
        solve: &SolveToAnnounce,
        challenge_id: i32,
    ) -> (r: Result<(), StoreError>)
        requires
            old(self).wf(),
        ensures
            final(self).wf(),
            final(self).challenges == old(self).challenges,
            final(self).ranks == old(self).ranks,
            final(self).user_mappings == old(self).user_mappings,
            final(self).next_challenge_row_id == old(self).next_challenge_row_id,
            final(self).next_solve_id == old(self).next_solve_id,
            final(self).next_rank_entry_id == old(self).next_rank_entry_id,
            final(self).next_mapping_entry_id == old(self).next_mapping_entry_id,
            (match r {
                Ok(_) => first_htb_id_match(
                    htb_challenge_views(old(self).challenges@),
                    challenge_id as int,
                ) is Some && htb_solve_views(final(self).solves@) == announced_marked(
                    htb_solve_views(old(self).solves@),
                    solve@.user_id,
                    challenge_id as int,
                    solve@.solve_type,
                ),
                Err(e) => e == StoreError::NoChallengeWithId && *final(self) == *old(self)
                    && first_htb_id_match(
                    htb_challenge_views(old(self).challenges@),
                    challenge_id as int,
                ) is None,
            }),
    {
        if self.find_by_htb_id(challenge_id).is_none() {
            return Err(StoreError::NoChallengeWithId);
        }
        let ghost target = announced_marked(
            htb_solve_views(old(self).solves@),
            solve@.user_id,
            challenge_id as int,
            solve@.solve_type,
        );
        let mut i: usize = 0;
        while i < self.solves.len()
            invariant
                old(self).wf(),
                i <= self.solves@.len(),
                self.solves@.len() == old(self).solves@.len(),
                target == announced_marked(
                    htb_solve_views(old(self).solves@),
                    solve@.user_id,
                    challenge_id as int,
                    solve@.solve_type,
                ),
                forall|j: int|
                    i <= j < self.solves@.len() ==> self.solves@[j] == #[trigger] old(
                        self,
                    ).solves@[j],
                forall|j: int| 0 <= j < i ==> #[trigger] self.solves@[j]@ == target[j],
                forall|j: int|
                    0 <= j < self.solves@.len() ==> #[trigger] self.solves@[j]@.id == old(
                        self,
                    ).solves@[j]@.id,
                forall|j: int|
                    0 <= j < self.solves@.len() ==> (#[trigger] self.solves@[j]@).user_id == old(
                        self,
                    ).solves@[j]@.user_id && self.solves@[j]@.challenge_id == old(
                        self,
                    ).solves@[j]@.challenge_id && self.solves@[j]@.solve_type == old(
                        self,
                    ).solves@[j]@.solve_type,
                self.challenges == old(self).challenges,
                self.ranks == old(self).ranks,
                self.user_mappings == old(self).user_mappings,
                self.next_challenge_row_id == old(self).next_challenge_row_id,
                self.next_solve_id == old(self).next_solve_id,
                self.next_rank_entry_id == old(self).next_rank_entry_id,
                self.next_mapping_entry_id == old(self).next_mapping_entry_id,
            decreases self.solves@.len() - i,
        {
            if self.solves[i].user_id == solve.user_id && self.solves[i].challenge_id
                == challenge_id && str_eq(self.solves[i].solve_type.as_str(), solve.solve_type.as_str()) {
                let updated = {
                    let row = &self.solves[i];
                    HTBSolve {
                        id: row.id,
                        user_id: row.user_id,
                        username: row.username.clone(),
                        challenge_id: row.challenge_id,
                        solve_type: row.solve_type.clone(),
                        announced: true,
                        solved_time: row.solved_time,
                    }
                };
                proof {
                    assert(updated@ =~= target[i as int]);
                }
                self.solves[i] = updated;
            } else {
                proof {
                    assert(self.solves@[i as int]@ == target[i as int]);
                }
            }
            i += 1;
        }
        proof {
            assert(htb_solve_views(self.solves@) =~= target);
        }
        Ok(())
    }

    /// The unannounced solves joined with their challenge rows, ready for
    /// delivery, in store order.
    pub fn get_solves_to_announce(&self) -> (r: Vec<SolveToAnnounce>)
        ensures
            announce_views(r@) == solves_to_announce_from(
                htb_challenge_views(self.challenges@),
                htb_solve_views(self.solves@),
            ),
    {
        let ghost cs = htb_challenge_views(self.challenges@);
        let ghost sv = htb_solve_views(self.solves@);
        let ghost total = solves_to_announce_from(cs, sv);
        proof {
            assert(sv.skip(0) =~= sv);
            assert(announce_views(Seq::<SolveToAnnounce>::empty()) + solves_to_announce_from(
                cs,
                sv,
            ) =~= total);
        }
        let mut out: Vec<SolveToAnnounce> = Vec::new();
        let mut i: usize = 0;
        while i < self.solves.len()
            invariant
                i <= self.solves@.len(),
                cs == htb_challenge_views(self.challenges@),
                sv == htb_solve_views(self.solves@),
                total == solves_to_announce_from(cs, sv),
                announce_views(out@) + solves_to_announce_from(cs, sv.skip(i as int)) == total,
            decreases self.solves@.len() - i,
        {
            proof {
                assert(sv.skip(i as int).first() == self.solves@[i as int]@);
                assert(sv.skip(i as int).drop_first() =~= sv.skip(i + 1));
            }
            if !self.solves[i].announced {
                if let Some(ci) = self.find_by_htb_id(self.solves[i].challenge_id) {
                    let row = SolveToAnnounce {
                        solver: self.solves[i].username.clone(),
                        user_id: self.solves[i].user_id,
                        solve_type: self.solves[i].solve_type.clone(),
                        challenge: self.challenges[ci].clone(),
                    };
                    proof {
                        assert(row@ =~= (SolveToAnnounceView {
                            solver: sv[i as int].username,
                            user_id: sv[i as int].user_id,
                            solve_type: sv[i as int].solve_type,
                            challenge: cs[first_htb_id_match(cs, sv[i as int].challenge_id)
                                -> Some_0],
                        }));
                    }
                    let ghost pre_out = announce_views(out@);
                    out.push(row);
                    proof {
                        assert(announce_views(out@) =~= pre_out.push(row@));
                        assert(announce_views(out@) + solves_to_announce_from(
                            cs,
                            sv.skip(i + 1),
                        ) =~= total);
                    }
                }
            }
            i += 1;
        }
        proof {
            assert(sv.skip(self.solves@.len() as int) =~= Seq::<HTBSolveView>::empty());
            assert(announce_views(out@) + Seq::<SolveToAnnounceView>::empty() =~= announce_views(
                out@,
            ));
        }
        out
    }

    /// The distinct usernames that have solved the given challenge, first
    /// solve first; a challenge nobody solved is an error.
    pub fn get_solving_users_for_challenge(&self, challenge_id: i32) -> (r: Result<
        Vec<String>,
        StoreError,
    >)
        ensures
            (match r {
                Ok(users) => htb_solve_views(self.solves@).filter(
                    solve_of_challenge(challenge_id as int),
                ).len() > 0 && names_of(users@) == collect_distinct(
                    Seq::empty(),
                    usernames_of(
                        htb_solve_views(self.solves@).filter(
                            solve_of_challenge(challenge_id as int),
                        ),
                    ),
                ),
                Err(e) => e == StoreError::NoSolvesForChallenge && htb_solve_views(
                    self.solves@,
                ).filter(solve_of_challenge(challenge_id as int)).len() == 0,
            }),
    {
        let solves = self.get_solves_for_challenge(challenge_id);
        if solves.len() == 0 {
            return Err(StoreError::NoSolvesForChallenge);
        }
        let ghost un = usernames_of(htb_solve_views(solves@));
        let ghost total = collect_distinct(Seq::empty(), un);
        proof {
            assert(un.skip(0) =~= un);
        }
        let mut users: Vec<String> = Vec::new();
        proof {
            assert(names_of(users@) =~= Seq::<Seq<char>>::empty());
        }
        let mut j: usize = 0;
        while j < solves.len()
            invariant
                j <= solves@.len(),
                un == usernames_of(htb_solve_views(solves@)),
                total == collect_distinct(Seq::empty(), un),
                collect_distinct(names_of(users@), un.skip(j as int)) == total,
            decreases solves@.len() - j,
        {
            proof {
                assert(un.skip(j as int).first() == solves@[j as int]@.username);
                assert(un.skip(j as int).drop_first() =~= un.skip(j + 1));
            }
            add_working_user(&mut users, solves[j].username.as_str());
            j += 1;
        }
        proof {
            assert(un.skip(solves@.len() as int) =~= Seq::<Seq<char>>::empty());
        }
        Ok(users)
    }
}

/// Solves belonging to a given challenge.
pub open spec fn solve_of_challenge(challenge_id: int) -> spec_fn(HTBSolveView) -> bool {
    |s: HTBSolveView| s.challenge_id == challenge_id
}

} // verus!
