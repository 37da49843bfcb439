//! The challenge-provider capability: configuration of a remote scoring
//! service and the shapes of the data its endpoints return. The network
//! calls themselves live outside the library; the reconciliation logic
//! consumes these values.

use vstd::prelude::*;

verus! {

/// The kinds of remote scoring service a competition can be tracked on.
pub enum ChallengeProviderServiceTypes {
    Ctfd,
}

/// Configuration of a challenge provider service.
pub struct ChallengeProviderServiceConfig {
    pub name: String,
    pub base_url: String,
    pub api_url: String,
    pub api_key: String,
    pub service_type: ChallengeProviderServiceTypes,
}

/// A remote challenge as reported by the provider's challenge listing.
pub struct ChallengeResponse {
    pub name: String,
    pub value: i32,
    pub solves: Option<i32>,
    pub category: String,
}

#[verifier::ext_equal]
pub ghost struct ChallengeResponseView {
    pub name: Seq<char>,
    pub value: int,
    pub solves: Option<int>,
    pub category: Seq<char>,
}

impl View for ChallengeResponse {
    type V = ChallengeResponseView;

    open spec fn view(&self) -> ChallengeResponseView {
        ChallengeResponseView {
            name: self.name@,
            value: self.value as int,
            solves: match self.solves {
                Some(v) => Some(v as int),
                None => None,
            },
            category: self.category@,
        }
    }
}

/// The provider's challenge listing.
pub struct GetChallengesResponse {
    pub data: Vec<ChallengeResponse>,
}

/// One solve from the provider's team-solves listing.
pub struct TeamSolvesResponseData {
    pub date: String,
    pub team: i32,
    pub challenge: ChallengeResponse,
    pub user: i32,
}

#[verifier::ext_equal]
pub ghost struct TeamSolvesResponseDataView {
    pub date: Seq<char>,
    pub team: int,
    pub challenge: ChallengeResponseView,
    pub user: int,
}

impl View for TeamSolvesResponseData {
    type V = TeamSolvesResponseDataView;

    open spec fn view(&self) -> TeamSolvesResponseDataView {
        TeamSolvesResponseDataView {
            date: self.date@,
            team: self.team as int,
            challenge: self.challenge@,
            user: self.user as int,
        }
    }
}

/// The provider's team-solves listing.
pub struct GetTeamSolvesResponse {
    pub data: Vec<TeamSolvesResponseData>,
}

/// A user as reported by the provider.
pub struct UserResponseData {
    pub name: String,
    pub score: i32,
}

/// The provider's user-lookup response.
pub struct GetUserByIdResponse {
    pub data: UserResponseData,
}

/// The team's current standing as reported by the provider.
pub struct MyTeamResponseData {
    pub place: String,
    pub score: i32,
}

#[verifier::ext_equal]
pub ghost struct MyTeamResponseDataView {
    pub place: Seq<char>,
    pub score: int,
}

impl View for MyTeamResponseData {
    type V = MyTeamResponseDataView;

    open spec fn view(&self) -> MyTeamResponseDataView {
        MyTeamResponseDataView { place: self.place@, score: self.score as int }
    }
}

/// The provider's team-standing response.
pub struct MyTeamResponse {
    pub data: MyTeamResponseData,
}

} // verus!
