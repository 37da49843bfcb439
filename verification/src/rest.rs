//! Derived read-only views of tracked competitions, as served by the
//! reporting endpoints: challenge listings with derived status and
//! priority, active-competition listings with their latest standing, and
//! per-competition standing lookups.

use vstd::prelude::*;

use crate::StoreError;
use crate::dates::{timestamp_display, timestamp_display_of};
use crate::models::{Challenge, ChallengeView, CtfView, Scoreboard, ScoreboardView};
use crate::store::{
    CtfStore, challenge_views, clg_of_ctf, ctf_views, latest_scoreboard_for, scoreboard_views,
};
use crate::working::{join_working, joined};

verus! {

/// The display priority of a point value: below 50 is `LOW`, 50 to 99 is
/// `MEDIUM`, 100 to 249 is `HIGH`, and 250 or more is `HIGHEST`.
pub open spec fn priority_of(points: int) -> Seq<char> {
    if points < 50 {
        "LOW"@
    } else if points < 100 {
        "MEDIUM"@
    } else if points < 250 {
        "HIGH"@
    } else {
        "HIGHEST"@
    }
}

/// Derives the display priority of a challenge from its point value.
/// Priority is a pure, total function of the points.
pub fn get_challenge_priority(points: i32) -> (r: String)
    ensures
        r@ == priority_of(points as int),
{
    if points < 50 {
        String::from_str("LOW")
    } else if points < 100 {
        String::from_str("MEDIUM")
    } else if points < 250 {
        String::from_str("HIGH")
    } else {
        String::from_str("HIGHEST")
    }
}

/// The display status of a challenge: solved is `DONE`, someone working
/// is `INPROGRESS`, otherwise `TODO`.
pub open spec fn status_of(c: ChallengeView) -> Seq<char> {
    if c.solved {
        "DONE"@
    } else if c.working.len() > 0 {
        "INPROGRESS"@
    } else {
        "TODO"@
    }
}

/// A challenge as served by the reporting endpoint.
pub struct ChallengeResponse {
    pub title: String,
    pub category: String,
    pub status: String,
    pub priority: String,
    pub working: Option<String>,
    pub solver: Option<String>,
    pub solved: bool,
    pub points: i32,
    pub solved_time: Option<String>,
}

#[verifier::ext_equal]
pub ghost struct RestChallengeView {
    pub title: Seq<char>,
    pub category: Seq<char>,
    pub status: Seq<char>,
    pub priority: Seq<char>,
    pub working: Option<Seq<char>>,
    pub solver: Option<Seq<char>>,
    pub solved: bool,
    pub points: int,
    pub solved_time: Option<Seq<char>>,
}

impl View for ChallengeResponse {
    type V = RestChallengeView;

    open spec fn view(&self) -> RestChallengeView {
        RestChallengeView {
            title: self.title@,
            category: self.category@,
            status: self.status@,
            priority: self.priority@,
            working: match self.working {
                Some(s) => Some(s@),
                None => None,
            },
            solver: match self.solver {
                Some(s) => Some(s@),
                None => None,
            },
            solved: self.solved,
            points: self.points as int,
            solved_time: match self.solved_time {
                Some(s) => Some(s@),
                None => None,
            },
        }
    }
}

/// How a stored challenge appears on the reporting endpoint: its status
/// and priority derived, its working set joined, and its solve time
/// rendered when solved.
pub open spec fn rest_challenge_of(c: ChallengeView) -> RestChallengeView {
    RestChallengeView {
        title: c.name,
        category: c.category,
        status: status_of(c),
        priority: priority_of(c.points),
        working: if c.working.len() == 0 {
            None
        } else {
            Some(joined(c.working))
        },
        solver: c.solver,
        solved: c.solved,
        points: c.points,
        solved_time: if c.solved {
            match c.solved_time {
                Some(t) => timestamp_display_of(t as i64),
                None => None,
            }
        } else {
            None
        },
    }
}

pub open spec fn rest_challenge_views(s: Seq<ChallengeResponse>) -> Seq<RestChallengeView> {
    s.map_values(|c: ChallengeResponse| c@)
}

/// Renders one stored challenge for the reporting endpoint.
pub fn challenge_response_of(challenge: &Challenge) -> (r: ChallengeResponse)
    ensures
        r@ == rest_challenge_of(challenge@),
{
    let solved_time: Option<String> = if challenge.solved {
        match challenge.solved_time {
            Some(t) => timestamp_display(t),
            None => None,
        }
    } else {
        None
    };
    let working: Option<String> = if challenge.working.len() == 0 {
        None
    } else {
        Some(join_working(&challenge.working))
    };
    let status = if challenge.solved {
        String::from_str("DONE")
    } else if challenge.working.len() > 0 {
        String::from_str("INPROGRESS")
    } else {
        String::from_str("TODO")
    };
    let r = ChallengeResponse {
        title: challenge.name.clone(),
        category: challenge.category.clone(),
        status,
        priority: get_challenge_priority(challenge.points),
        working,
        solver: crate::models::clone_string_opt(&challenge.solver),
        solved: challenge.solved,
        points: challenge.points,
        solved_time,
    };
    proof {
        assert(r@ =~= rest_challenge_of(challenge@));
    }
    r
}

/// The challenge listing of one competition.
pub struct ChallengeForIDResponse {
    pub data: Vec<ChallengeResponse>,
}

/// A scoreboard standing as served by the reporting endpoints.
pub struct ScoreboardResponse {
    pub position: String,
    pub points: i32,
    pub entry_time: String,
}

#[verifier::ext_equal]
pub ghost struct ScoreboardResponseView {
    pub position: Seq<char>,
    pub points: int,
    pub entry_time: Seq<char>,
}

impl View for ScoreboardResponse {
    type V = ScoreboardResponseView;

    open spec fn view(&self) -> ScoreboardResponseView {
        ScoreboardResponseView {
            position: self.position@,
            points: self.points as int,
            entry_time: self.entry_time@,
        }
    }
}

/// The rendering of a stored timestamp, or the empty string when it lies
/// outside the representable range.
pub open spec fn display_or_empty(t: int) -> Seq<char> {
    match timestamp_display_of(t as i64) {
        Some(s) => s,
        None => Seq::empty(),
    }
}

/// How a stored scoreboard entry appears on the reporting endpoints.
pub open spec fn rest_scoreboard_of(sb: ScoreboardView) -> ScoreboardResponseView {
    ScoreboardResponseView {
        position: sb.position,
        points: sb.points,
        entry_time: display_or_empty(sb.entry_time),
    }
}

/// The standing reported for a competition without any scoreboard entry:
/// zero points at position `0`, stamped with the given moment.
pub open spec fn fallback_scoreboard(now: int) -> ScoreboardResponseView {
    ScoreboardResponseView { position: "0"@, points: 0, entry_time: display_or_empty(now) }
}

fn render_timestamp(t: i64) -> (r: String)
    ensures
        r@ == display_or_empty(t as int),
{
    match timestamp_display(t) {
        Some(s) => s,
        None => String::new(),
    }
}

/// Renders one stored scoreboard entry for the reporting endpoints.
pub fn scoreboard_response_of(sb: &Scoreboard) -> (r: ScoreboardResponse)
    ensures
        r@ == rest_scoreboard_of(sb@),
{
    let r = ScoreboardResponse {
        position: sb.position.clone(),
        points: sb.points,
        entry_time: render_timestamp(sb.entry_time),
    };
    proof {
        assert(r@ =~= rest_scoreboard_of(sb@));
    }
    r
}

/// One active competition with its latest standing.
pub struct CTFResponse {
    pub name: String,
    pub id: i32,
    pub stats: ScoreboardResponse,
}

#[verifier::ext_equal]
pub ghost struct CTFResponseView {
    pub name: Seq<char>,
    pub id: int,
    pub stats: ScoreboardResponseView,
}

impl View for CTFResponse {
    type V = CTFResponseView;

    open spec fn view(&self) -> CTFResponseView {
        CTFResponseView { name: self.name@, id: self.id as int, stats: self.stats@ }
    }
}

/// The active-competition listing.
pub struct ActiveCTFResponse {
    pub data: Vec<CTFResponse>,
}

/// How an active competition appears in the listing: its latest standing,
/// or the fallback standing when it has none.
pub open spec fn rest_ctf_of(c: CtfView, sb: Seq<ScoreboardView>, now: int) -> CTFResponseView {
    CTFResponseView {
        name: c.name,
        id: c.id,
        stats: match latest_scoreboard_for(sb, c.id) {
            Some(entry) => rest_scoreboard_of(entry),
            None => fallback_scoreboard(now),
        },
    }
}

pub open spec fn rest_ctf_views(s: Seq<CTFResponse>) -> Seq<CTFResponseView> {
    s.map_values(|c: CTFResponse| c@)
}

/// The active-competition listing: every active competition, in store
/// order, each with its latest standing (or the fallback standing stamped
/// with the given moment).
pub fn get_active_ctfs_route(store: &CtfStore, now: i64) -> (r: ActiveCTFResponse)
    ensures
        rest_ctf_views(r.data@) == ctf_views(store.ctfs@).filter(|c: CtfView| c.active).map_values(
            |c: CtfView| rest_ctf_of(c, scoreboard_views(store.scoreboard@), now as int),
        ),
{
    let active = store.get_active_ctfs();
    let ghost actives = ctf_views(store.ctfs@).filter(|c: CtfView| c.active);
    let ghost f = |c: CtfView| rest_ctf_of(c, scoreboard_views(store.scoreboard@), now as int);
    let mut data: Vec<CTFResponse> = Vec::new();
    let mut i: usize = 0;
    while i < active.len()
        invariant
            i <= active@.len(),
            ctf_views(active@) == actives,
            f == (|c: CtfView| rest_ctf_of(c, scoreboard_views(store.scoreboard@), now as int)),
            rest_ctf_views(data@).len() == i,
            forall|j: int| 0 <= j < i ==> #[trigger] rest_ctf_views(data@)[j] == f(actives[j]),
        decreases active@.len() - i,
    {
        let ctf = &active[i];
        let stats = match store.get_latest_scoreboard_status(ctf.id) {
            Ok(entry) => scoreboard_response_of(&entry),
            Err(_) => {
                let fb = ScoreboardResponse {
                    position: String::from_str("0"),
                    points: 0,
                    entry_time: render_timestamp(now),
                };
                proof {
                    assert(fb@ =~= fallback_scoreboard(now as int));
                }
                fb
            },
        };
        let row = CTFResponse { name: ctf.name.clone(), id: ctf.id, stats };
        proof {
            assert(row@ =~= f(actives[i as int]));
        }
        let ghost pre_data = rest_ctf_views(data@);
        data.push(row);
        proof {
            assert(rest_ctf_views(data@) =~= pre_data.push(row@));
        }
        i += 1;
    }
    proof {
        assert(rest_ctf_views(data@) =~= actives.map_values(f));
    }
    ActiveCTFResponse { data }
}

/// The latest standing of one competition, or an error when it has no
/// scoreboard entry yet.
pub fn get_stats_for_id_route(store: &CtfStore, id: i32) -> (r: Result<
    ScoreboardResponse,
    StoreError,
>)
    ensures
        (match r {
            Ok(resp) => (match latest_scoreboard_for(
                scoreboard_views(store.scoreboard@),
                id as int,
            ) {
                Some(entry) => resp@ == rest_scoreboard_of(entry),
                None => false,
            }),
            Err(e) => e == StoreError::NoScoreboardEntry && latest_scoreboard_for(
                scoreboard_views(store.scoreboard@),
                id as int,
            ) is None,
        }),
{
    match store.get_latest_scoreboard_status(id) {
        Ok(entry) => Ok(scoreboard_response_of(&entry)),
        Err(e) => Err(e),
    }
}

/// The challenge listing of one competition, each challenge with its
/// derived status and priority, or an error when no such competition
/// exists.
pub fn get_challenges_for_id_route(store: &CtfStore, id: i32) -> (r: Result<
    ChallengeForIDResponse,
    StoreError,
>)
    ensures
        (match r {
            Ok(resp) => (exists|i: int|
                0 <= i < store.ctfs@.len() && #[trigger] store.ctfs@[i]@.id == id as int)
                && rest_challenge_views(resp.data@) == challenge_views(store.challenges@).filter(
                clg_of_ctf(id as int),
            ).map_values(|c: ChallengeView| rest_challenge_of(c)),
            Err(e) => e == StoreError::NoCtfForId && (forall|i: int|
                0 <= i < store.ctfs@.len() ==> #[trigger] store.ctfs@[i]@.id != id as int),
        }),
{
    let challenges = match store.get_challenges_for_ctfid(id) {
        Ok(cs) => cs,
        Err(e) => {
            return Err(e);
        },
    };
    let ghost filtered = challenge_views(store.challenges@).filter(clg_of_ctf(id as int));
    let mut data: Vec<ChallengeResponse> = Vec::new();
    let mut i: usize = 0;
    while i < challenges.len()
        invariant
            i <= challenges@.len(),
            challenge_views(challenges@) == filtered,
            rest_challenge_views(data@).len() == i,
            forall|j: int|
                0 <= j < i ==> #[trigger] rest_challenge_views(data@)[j] == rest_challenge_of(
                    filtered[j],
                ),
        decreases challenges@.len() - i,
    {
        let row = challenge_response_of(&challenges[i]);
        let ghost pre_data = rest_challenge_views(data@);
        data.push(row);
        proof {
            assert(rest_challenge_views(data@) =~= pre_data.push(row@));
        }
        i += 1;
    }
    proof {
        assert(rest_challenge_views(data@) =~= filtered.map_values(
            |c: ChallengeView| rest_challenge_of(c),
        ));
    }
    Ok(ChallengeForIDResponse { data })
}

} // verus!
