//! The per-user provider's API data shapes and credential handling: the
//! activity, challenge, machine, category, team and login responses, and
//! the expiry claim carried inside a bearer token.

use vstd::prelude::*;

use crate::models::HTBChallenge;

verus! {

/// A user's recent activity feed.
pub struct UserActivity {
    pub profile: UserActivityData,
}

pub struct UserActivityData {
    pub activity: Vec<ActivityData>,
}

/// One entry of a user's activity feed.
pub struct ActivityData {
    pub date: String,
    pub object_type: String,
    pub solve_type: String,
    pub id: i32,
    pub name: String,
    pub points: i32,
}

/// A user's profile overview.
pub struct UserOverview {
    pub profile: UserOverviewData,
}

pub struct UserOverviewData {
    pub id: i32,
    pub name: String,
}

/// A team's profile.
pub struct GetTeamProfile {
    pub id: i32,
    pub name: String,
    pub points: i32,
}

/// One entry of the team's recent activity: a solve by a team member.
pub struct GetRecentTeamActivityData {
    pub user: UserData,
    pub date: String,
    pub solve_type: String,
    pub object_type: String,
    pub id: i32,
    pub name: String,
    pub points: i32,
    pub challenge_category: Option<String>,
}

/// The member a team activity entry belongs to.
pub struct UserData {
    pub id: i32,
    pub name: String,
    pub avatar_thumb: String,
}

#[verifier::ext_equal]
pub ghost struct UserDataView {
    pub id: int,
    pub name: Seq<char>,
    pub avatar_thumb: Seq<char>,
}

impl View for UserData {
    type V = UserDataView;

    open spec fn view(&self) -> UserDataView {
        UserDataView {
            id: self.id as int,
            name: self.name@,
            avatar_thumb: self.avatar_thumb@,
        }
    }
}

#[verifier::ext_equal]
pub ghost struct GetRecentTeamActivityDataView {
    pub user: UserDataView,
    pub date: Seq<char>,
    pub solve_type: Seq<char>,
    pub object_type: Seq<char>,
    pub id: int,
    pub name: Seq<char>,
    pub points: int,
    pub challenge_category: Option<Seq<char>>,
}

impl View for GetRecentTeamActivityData {
    type V = GetRecentTeamActivityDataView;

    open spec fn view(&self) -> GetRecentTeamActivityDataView {
        GetRecentTeamActivityDataView {
            user: self.user@,
            date: self.date@,
            solve_type: self.solve_type@,
            object_type: self.object_type@,
            id: self.id as int,
            name: self.name@,
            points: self.points as int,
            challenge_category: match self.challenge_category {
                Some(s) => Some(s@),
                None => None,
            },
        }
    }
}

/// The team's owns statistics.
pub struct GetTeamStatistics {
    pub rank: i32,
    pub user_owns: i32,
    pub system_owns: i32,
}

/// The team's member listing.
pub struct ListTeamMembers {
    pub data: Vec<ListTeamMembersData>,
}

pub struct ListTeamMembersData {
    pub id: i32,
    pub name: String,
    pub rank: i32,
    pub points: i32,
    pub root_owns: i32,
    pub user_owns: i32,
    pub rank_text: String,
}

/// The provider's active challenge listing.
pub struct ListActiveChallenges {
    pub challenges: Vec<ListActiveChallengesData>,
}

pub struct ListActiveChallengesData {
    pub id: i32,
    pub name: String,
    pub difficulty: String,
    pub points: String,
    pub release_date: String,
    pub challenge_category_id: i32,
    pub machine_avatar: Option<String>,
}

#[verifier::ext_equal]
pub ghost struct ListActiveChallengesDataView {
    pub id: int,
    pub name: Seq<char>,
    pub difficulty: Seq<char>,
    pub points: Seq<char>,
    pub release_date: Seq<char>,
    pub challenge_category_id: int,
    pub machine_avatar: Option<Seq<char>>,
}

impl View for ListActiveChallengesData {
    type V = ListActiveChallengesDataView;

    open spec fn view(&self) -> ListActiveChallengesDataView {
        ListActiveChallengesDataView {
            id: self.id as int,
            name: self.name@,
            difficulty: self.difficulty@,
            points: self.points@,
            release_date: self.release_date@,
            challenge_category_id: self.challenge_category_id as int,
            machine_avatar: match self.machine_avatar {
                Some(s) => Some(s@),
                None => None,
            },
        }
    }
}

/// The provider's active machine listing.
pub struct ListActiveMachines {
    pub info: Vec<ListActiveMachinesData>,
}

pub struct ListActiveMachinesData {
    pub id: i32,
    pub name: String,
    pub difficulty: String,
    pub points: i32,
    pub release: String,
    pub avatar: String,
}

#[verifier::ext_equal]
pub ghost struct ListActiveMachinesDataView {
    pub id: int,
    pub name: Seq<char>,
    pub difficulty: Seq<char>,
    pub points: int,
    pub release: Seq<char>,
    pub avatar: Seq<char>,
}

impl View for ListActiveMachinesData {
    type V = ListActiveMachinesDataView;

    open spec fn view(&self) -> ListActiveMachinesDataView {
        ListActiveMachinesDataView {
            id: self.id as int,
            name: self.name@,
            difficulty: self.difficulty@,
            points: self.points as int,
            release: self.release@,
            avatar: self.avatar@,
        }
    }
}

/// The provider's challenge category listing.
pub struct ListChallengeCategories {
    pub info: Vec<ListChallengeCategoriesData>,
}

pub struct ListChallengeCategoriesData {
    pub id: i32,
    pub name: String,
}

/// The login endpoint's response.
pub struct LoginResponse {
    pub message: LoginResponseData,
}

pub struct LoginResponseData {
    pub access_token: String,
}

/// The team's current rank and points.
pub struct RankStats {
    pub data: RankStatsData,
}

pub struct RankStatsData {
    pub rank: i32,
    pub points: i32,
}

/// An unannounced solve joined with its challenge, ready for delivery.
pub struct SolveToAnnounce {
    pub solver: String,
    pub user_id: i32,
    pub solve_type: String,
    pub challenge: HTBChallenge,
}

#[verifier::ext_equal]
pub ghost struct SolveToAnnounceView {
    pub solver: Seq<char>,
    pub user_id: int,
    pub solve_type: Seq<char>,
    pub challenge: crate::models::HTBChallengeView,
}

impl View for SolveToAnnounce {
    type V = SolveToAnnounceView;

    open spec fn view(&self) -> SolveToAnnounceView {
        SolveToAnnounceView {
            solver: self.solver@,
            user_id: self.user_id as int,
            solve_type: self.solve_type@,
            challenge: self.challenge@,
        }
    }
}

/// Credentials for the per-user provider's API.
pub struct HTBAPIConfig {
    pub email: String,
    pub password: String,
    pub team_id: i32,
}

/// The claims this library reads from a bearer token: its expiry, as unix
/// seconds.
pub struct JWTClaims {
    pub exp: i64,
}

} // verus!
