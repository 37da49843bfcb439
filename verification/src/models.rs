//! Rows of the persisted state: competitions, challenges, scoreboard
//! entries, per-user solves, rank snapshots and user identity mappings.
//!
//! Each row type has a mathematical view (`@`) over which all contracts are
//! stated: strings become character sequences, integers become `int`, and a
//! challenge's "working on" set becomes a duplicate-free sequence of
//! usernames. Timestamps are held as unix seconds.

use vstd::prelude::*;

verus! {

/// The usernames of a working set, as character sequences.
pub open spec fn names_of(v: Seq<String>) -> Seq<Seq<char>> {
    v.map_values(|s: String| s@)
}

/// A duplicate-free list of usernames.
pub open spec fn distinct_names(names: Seq<Seq<char>>) -> bool {
    forall|i: int, j: int| 0 <= i < j < names.len() ==> names[i] != names[j]
}

/// A tracked competition.
pub struct Ctf {
    pub id: i32,
    pub name: String,
    pub base_url: String,
    pub api_url: String,
    pub api_key: String,
    pub channel_id: i64,
    pub active: bool,
}

#[verifier::ext_equal]
pub ghost struct CtfView {
    pub id: int,
    pub name: Seq<char>,
    pub base_url: Seq<char>,
    pub api_url: Seq<char>,
    pub api_key: Seq<char>,
    pub channel_id: int,
    pub active: bool,
}

impl View for Ctf {
    type V = CtfView;

    open spec fn view(&self) -> CtfView {
        CtfView {
            id: self.id as int,
            name: self.name@,
            base_url: self.base_url@,
            api_url: self.api_url@,
            api_key: self.api_key@,
            channel_id: self.channel_id as int,
            active: self.active,
        }
    }
}

/// A challenge of a tracked competition.
pub struct Challenge {
    pub id: i32,
    pub ctf_id: i32,
    pub name: String,
    pub category: String,
    pub solved: bool,
    pub working: Vec<String>,
    pub solver: Option<String>,
    pub points: i32,
    pub solved_time: Option<i64>,
    pub announced_solve: bool,
}

#[verifier::ext_equal]
pub ghost struct ChallengeView {
    pub id: int,
    pub ctf_id: int,
    pub name: Seq<char>,
    pub category: Seq<char>,
    pub solved: bool,
    pub working: Seq<Seq<char>>,
    pub solver: Option<Seq<char>>,
    pub points: int,
    pub solved_time: Option<int>,
    pub announced_solve: bool,
}

impl View for Challenge {
    type V = ChallengeView;

    open spec fn view(&self) -> ChallengeView {
        ChallengeView {
            id: self.id as int,
            ctf_id: self.ctf_id as int,
            name: self.name@,
            category: self.category@,
            solved: self.solved,
            working: names_of(self.working@),
            solver: match self.solver {
                Some(s) => Some(s@),
                None => None,
            },
            points: self.points as int,
            solved_time: match self.solved_time {
                Some(t) => Some(t as int),
                None => None,
            },
            announced_solve: self.announced_solve,
        }
    }
}

impl Challenge {
    /// The working set holds each username at most once.
    pub open spec fn wf(&self) -> bool {
        distinct_names(self@.working)
    }
}

/// A point-in-time scoreboard entry of a competition; the latest entry is
/// the current standing.
pub struct Scoreboard {
    pub entry_id: i32,
    pub ctf_id: i32,
    pub points: i32,
    pub position: String,
    pub entry_time: i64,
}

#[verifier::ext_equal]
pub ghost struct ScoreboardView {
    pub entry_id: int,
    pub ctf_id: int,
    pub points: int,
    pub position: Seq<char>,
    pub entry_time: int,
}

impl View for Scoreboard {
    type V = ScoreboardView;

    open spec fn view(&self) -> ScoreboardView {
        ScoreboardView {
            entry_id: self.entry_id as int,
            ctf_id: self.ctf_id as int,
            points: self.points as int,
            position: self.position@,
            entry_time: self.entry_time as int,
        }
    }
}

/// A challenge or machine of the per-user provider.
pub struct HTBChallenge {
    pub id: i32,
    pub htb_id: i32,
    pub name: String,
    pub difficulty: String,
    pub points: String,
    pub release_date: String,
    pub challenge_category: i32,
    pub working: Vec<String>,
    pub machine_avatar: Option<String>,
}

#[verifier::ext_equal]
pub ghost struct HTBChallengeView {
    pub id: int,
    pub htb_id: int,
    pub name: Seq<char>,
    pub difficulty: Seq<char>,
    pub points: Seq<char>,
    pub release_date: Seq<char>,
    pub challenge_category: int,
    pub working: Seq<Seq<char>>,
    pub machine_avatar: Option<Seq<char>>,
}

impl View for HTBChallenge {
    type V = HTBChallengeView;

    open spec fn view(&self) -> HTBChallengeView {
        HTBChallengeView {
            id: self.id as int,
            htb_id: self.htb_id as int,
            name: self.name@,
            difficulty: self.difficulty@,
            points: self.points@,
            release_date: self.release_date@,
            challenge_category: self.challenge_category as int,
            working: names_of(self.working@),
            machine_avatar: match self.machine_avatar {
                Some(s) => Some(s@),
                None => None,
            },
        }
    }
}

impl HTBChallenge {
    /// The working set holds each username at most once.
    pub open spec fn wf(&self) -> bool {
        distinct_names(self@.working)
    }
}

/// A recorded solve of the per-user provider; unique per
/// (user id, challenge id, solve kind).
pub struct HTBSolve {
    pub id: i32,
    pub user_id: i32,
    pub username: String,
    pub challenge_id: i32,
    pub solve_type: String,
    pub announced: bool,
    pub solved_time: i64,
}

#[verifier::ext_equal]
pub ghost struct HTBSolveView {
    pub id: int,
    pub user_id: int,
    pub username: Seq<char>,
    pub challenge_id: int,
    pub solve_type: Seq<char>,
    pub announced: bool,
    pub solved_time: int,
}

impl View for HTBSolve {
    type V = HTBSolveView;

    open spec fn view(&self) -> HTBSolveView {
        HTBSolveView {
            id: self.id as int,
            user_id: self.user_id as int,
            username: self.username@,
            challenge_id: self.challenge_id as int,
            solve_type: self.solve_type@,
            announced: self.announced,
            solved_time: self.solved_time as int,
        }
    }
}

/// A rank/points snapshot, strictly ordered by insertion.
pub struct HTBRank {
    pub entry_id: i32,
    pub rank: i32,
    pub points: i32,
    pub timestamp: i64,
}

#[verifier::ext_equal]
pub ghost struct HTBRankView {
    pub entry_id: int,
    pub rank: int,
    pub points: int,
    pub timestamp: int,
}

impl View for HTBRank {
    type V = HTBRankView;

    open spec fn view(&self) -> HTBRankView {
        HTBRankView {
            entry_id: self.entry_id as int,
            rank: self.rank as int,
            points: self.points as int,
            timestamp: self.timestamp as int,
        }
    }
}

/// Maps a remote user id to a chat identity id; at most one mapping per
/// remote id.
pub struct HTBUserMapping {
    pub entry_id: i32,
    pub htb_id: i32,
    pub discord_id: i64,
}

#[verifier::ext_equal]
pub ghost struct HTBUserMappingView {
    pub entry_id: int,
    pub htb_id: int,
    pub discord_id: int,
}

impl View for HTBUserMapping {
    type V = HTBUserMappingView;

    open spec fn view(&self) -> HTBUserMappingView {
        HTBUserMappingView {
            entry_id: self.entry_id as int,
            htb_id: self.htb_id as int,
            discord_id: self.discord_id as int,
        }
    }
}

pub fn clone_string_vec(v: &Vec<String>) -> (r: Vec<String>)
    ensures
        r@ == v@,
{
    let mut r: Vec<String> = Vec::new();
    let mut i: usize = 0;
    while i < v.len()
        invariant
            i <= v@.len(),
            r@.len() == i,
            forall|j: int| 0 <= j < i ==> r@[j] == v@[j],
        decreases v@.len() - i,
    {
        r.push(v[i].clone());
        i += 1;
    }
    proof {
        assert(r@ =~= v@);
    }
    r
}

pub fn clone_string_opt(v: &Option<String>) -> (r: Option<String>)
    ensures
        r == *v,
{
    match v {
        Some(s) => Some(s.clone()),
        None => None,
    }
}

impl Clone for Ctf {
    fn clone(&self) -> (r: Self)
        ensures
            r@ == self@,
    {
        Ctf {
            id: self.id,
            name: self.name.clone(),
            base_url: self.base_url.clone(),
            api_url: self.api_url.clone(),
            api_key: self.api_key.clone(),
            channel_id: self.channel_id,
            active: self.active,
        }
    }
}

impl Clone for Challenge {
    fn clone(&self) -> (r: Self)
        ensures
            r@ == self@,
    {
        Challenge {
            id: self.id,
            ctf_id: self.ctf_id,
            name: self.name.clone(),
            category: self.category.clone(),
            solved: self.solved,
            working: clone_string_vec(&self.working),
            solver: clone_string_opt(&self.solver),
            points: self.points,
            solved_time: self.solved_time,
            announced_solve: self.announced_solve,
        }
    }
}

impl Clone for Scoreboard {
    fn clone(&self) -> (r: Self)
        ensures
            r@ == self@,
    {
        Scoreboard {
            entry_id: self.entry_id,
            ctf_id: self.ctf_id,
            points: self.points,
            position: self.position.clone(),
            entry_time: self.entry_time,
        }
    }
}

impl Clone for HTBChallenge {
    fn clone(&self) -> (r: Self)
        ensures
            r@ == self@,
    {
        HTBChallenge {
            id: self.id,
            htb_id: self.htb_id,
            name: self.name.clone(),
            difficulty: self.difficulty.clone(),
            points: self.points.clone(),
            release_date: self.release_date.clone(),
            challenge_category: self.challenge_category,
            working: clone_string_vec(&self.working),
            machine_avatar: clone_string_opt(&self.machine_avatar),
        }
    }
}

impl Clone for HTBSolve {
    fn clone(&self) -> (r: Self)
        ensures
            r@ == self@,
    {
        HTBSolve {
            id: self.id,
            user_id: self.user_id,
            username: self.username.clone(),
            challenge_id: self.challenge_id,
            solve_type: self.solve_type.clone(),
            announced: self.announced,
            solved_time: self.solved_time,
        }
    }
}

impl Clone for HTBRank {
    fn clone(&self) -> (r: Self)
        ensures
            r@ == self@,
    {
        HTBRank {
            entry_id: self.entry_id,
            rank: self.rank,
            points: self.points,
            timestamp: self.timestamp,
        }
    }
}

impl Clone for HTBUserMapping {
    fn clone(&self) -> (r: Self)
        ensures
            r@ == self@,
    {
        HTBUserMapping { entry_id: self.entry_id, htb_id: self.htb_id, discord_id: self.discord_id }
    }
}

} // verus!
