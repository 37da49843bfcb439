//! The notifier's side of the pipeline: the announcement texts, the
//! rank-change decision, and the delivery-first bookkeeping — a solve is
//! marked announced only after its notification went out, so a failed
//! delivery leaves it unannounced for the next tick (at-least-once
//! delivery).

use vstd::prelude::*;

use crate::StoreError;
use crate::htb::{RankStats, RankStatsData, SolveToAnnounce};
use crate::htb_db::{HtbStore, announced_marked, first_htb_id_match, htb_challenge_views, htb_solve_views};
use crate::models::{Challenge, HTBRankView};
use crate::store::{CtfStore, marked_solved};
use crate::text::{capitalise_first, capitalised, dec_str, i32_to_string, str_eq};

verus! {

/// The API endpoint root derived from a competition's base address.
pub open spec fn api_url_of(base_url: Seq<char>) -> Seq<char> {
    if base_url.len() > 0 && base_url.last() == '/' {
        base_url + "api/v1"@
    } else {
        base_url + "/api/v1"@
    }
}

/// Derives the API endpoint root from a competition's base address.
pub fn api_url_for_base(base_url: &str) -> (r: String)
    ensures
        r@ == api_url_of(base_url@),
{
    let len = base_url.unicode_len();
    let mut out = String::from_str(base_url);
    if len > 0 && base_url.get_char(len - 1) == '/' {
        out.append("api/v1");
    } else {
        out.append("/api/v1");
    }
    out
}

/// The embed heading of a challenge.
pub open spec fn challenge_heading_of(name: Seq<char>) -> Seq<char> {
    "❓ "@ + name + " ❓"@
}

/// Builds the embed heading of a challenge.
pub fn challenge_embed_title(name: &str) -> (r: String)
    ensures
        r@ == challenge_heading_of(name@),
{
    let mut out = String::from_str("❓ ");
    out.append(name);
    out.append(" ❓");
    proof {
        assert(out@ =~= challenge_heading_of(name@));
    }
    out
}

/// The announcement heading for a solved challenge.
pub open spec fn solved_title_of(name: Seq<char>, solver: Seq<char>) -> Seq<char> {
    "🏴‍ "@ + name + " has been solved by "@ + solver + "‍"@
}

/// Builds the announcement heading for a solved challenge. The solver is
/// always recorded before a solve is announced.
pub fn create_solved_title(challenge: &Challenge) -> (r: String)
    requires
        challenge.solver is Some,
    ensures
        r@ == solved_title_of(challenge@.name, challenge@.solver->Some_0),
{
    let solver = match &challenge.solver {
        Some(s) => s.as_str(),
        None => "",
    };
    let mut out = String::from_str("🏴‍ ");
    out.append(challenge.name.as_str());
    out.append(" has been solved by ");
    out.append(solver);
    out.append("‍");
    proof {
        assert(out@ =~= solved_title_of(challenge@.name, challenge@.solver->Some_0));
    }
    out
}

/// The standing line of a solve announcement.
pub open spec fn standing_line_of(place: Seq<char>, score: int) -> Seq<char> {
    "📈 New team position: "@ + place + ", Total score: "@ + dec_str(score)
}

/// Builds the standing line of a solve announcement.
pub fn create_standing_line(place: &str, score: i32) -> (r: String)
    ensures
        r@ == standing_line_of(place@, score as int),
{
    let mut out = String::from_str("📈 New team position: ");
    out.append(place);
    out.append(", Total score: ");
    let rendered = i32_to_string(score);
    out.append(rendered.as_str());
    proof {
        assert(out@ =~= standing_line_of(place@, score as int));
    }
    out
}

/// The announcement heading for a solve on the per-user provider: a
/// challenge is "solved", a machine role is "owned".
pub open spec fn htb_solve_title_of(solve: crate::htb::SolveToAnnounceView) -> Seq<char> {
    let kind = capitalised(solve.solve_type);
    if kind == "Challenge"@ {
        "🏴 "@ + solve.challenge.name + " has been solved by "@ + solve.solver
    } else {
        "🏴 "@ + kind + " has been owned by "@ + solve.solver + " on "@ + solve.challenge.name
    }
}

/// Builds the announcement heading for a solve on the per-user provider.
pub fn create_htb_solved_title(solve: &SolveToAnnounce) -> (r: String)
    ensures
        r@ == htb_solve_title_of(solve@),
{
    let kind = capitalise_first(solve.solve_type.as_str());
    let mut out = String::from_str("🏴 ");
    if str_eq(kind.as_str(), "Challenge") {
        out.append(solve.challenge.name.as_str());
        out.append(" has been solved by ");
        out.append(solve.solver.as_str());
    } else {
        out.append(kind.as_str());
        out.append(" has been owned by ");
        out.append(solve.solver.as_str());
        out.append(" on ");
        out.append(solve.challenge.name.as_str());
    }
    proof {
        assert(out@ =~= htb_solve_title_of(solve@));
    }
    out
}

/// The address of a machine's avatar image.
pub open spec fn machine_avatar_url_of(avatar: Seq<char>) -> Seq<char> {
    "https://www.hackthebox.eu/"@ + avatar
}

/// Builds the address of a machine's avatar image.
pub fn machine_avatar_url(avatar: &str) -> (r: String)
    ensures
        r@ == machine_avatar_url_of(avatar@),
{
    let mut out = String::from_str("https://www.hackthebox.eu/");
    out.append(avatar);
    out
}

/// The channel topic summarising the team's standing.
pub open spec fn channel_topic_of(rank: int, points: int) -> Seq<char> {
    "Team rank "@ + dec_str(rank) + ", Points: "@ + dec_str(points)
}

/// Builds the channel topic summarising the team's standing.
pub fn channel_topic_for_stats(stats: &RankStatsData) -> (r: String)
    ensures
        r@ == channel_topic_of(stats.rank as int, stats.points as int),
{
    let mut out = String::from_str("Team rank ");
    let rank = i32_to_string(stats.rank);
    out.append(rank.as_str());
    out.append(", Points: ");
    let points = i32_to_string(stats.points);
    out.append(points.as_str());
    proof {
        assert(out@ =~= channel_topic_of(stats.rank as int, stats.points as int));
    }
    out
}

/// The team's current standing: the latest rank snapshot, or a zeroed
/// snapshot when none has been taken.
pub open spec fn current_rank_view(ranks: Seq<crate::models::HTBRank>, now: int) -> HTBRankView {
    if ranks.len() > 0 {
        ranks.last()@
    } else {
        HTBRankView { entry_id: 0, rank: 0, points: 0, timestamp: now }
    }
}

/// Compares the remote standing against the stored one; when rank or
/// points moved, a new snapshot is taken. Returns whether the standing
/// changed (and so whether the channel summary is due for an update).
pub fn process_rank_status(store: &mut HtbStore, latest: &RankStats, now: i64) -> (changed: bool)
    requires
        old(store).wf(),
        old(store).next_rank_entry_id < i32::MAX,
    ensures
        final(store).wf(),
        changed == (latest.data.rank as int != current_rank_view(old(store).ranks@, now as int).rank
            || latest.data.points as int != current_rank_view(
            old(store).ranks@,
            now as int,
        ).points),
        !changed ==> *final(store) == *old(store),
        changed ==> final(store).ranks@.len() == old(store).ranks@.len() + 1 && (forall|i: int|
            0 <= i < old(store).ranks@.len() ==> final(store).ranks@[i] == #[trigger] old(
                store,
            ).ranks@[i]) && final(store).ranks@.last()@ == (HTBRankView {
            entry_id: old(store).next_rank_entry_id as int,
            rank: latest.data.rank as int,
            points: latest.data.points as int,
            timestamp: now as int,
        }) && final(store).challenges == old(store).challenges && final(store).solves == old(
            store,
        ).solves && final(store).user_mappings == old(store).user_mappings,
{
    let current = store.get_latest_rank_from_db(now);
    if rank_changed(latest, &current) {
        store.insert_rank_into_db(latest, now);
        true
    } else {
        false
    }
}

/// Applies the outcome of one delivery attempt on the polling provider:
/// only a delivered announcement marks the challenge solved and announced;
/// a failed delivery leaves the store unchanged, so the solve is found
/// again on the next tick.
pub fn record_solve_outcome(store: &mut CtfStore, solve: &Challenge, delivered: bool)
    requires
        old(store).wf(),
    ensures
        final(store).wf(),
        !delivered ==> *final(store) == *old(store),
        delivered ==> final(store).challenges@.len() == old(store).challenges@.len() && (forall|
            i: int,
        |
            0 <= i < old(store).challenges@.len() ==> final(store).challenges@[i]@ == (
            if #[trigger] old(store).challenges@[i]@.id == solve@.id {
                marked_solved(old(store).challenges@[i]@, solve@)
            } else {
                old(store).challenges@[i]@
            })) && final(store).ctfs == old(store).ctfs && final(store).scoreboard == old(
            store,
        ).scoreboard,
{
    if delivered {
        store.mark_solved(solve);
    }
}

/// Applies the outcome of one delivery attempt on the per-user provider:
/// only a delivered announcement flags the solve rows announced; a failed
/// delivery leaves the store unchanged, so the solve reappears in the
/// next tick's announcement list.
pub fn record_htb_announce_outcome(
    store: &mut HtbStore,
    solve: &SolveToAnnounce,
    delivered: bool,
) -> (r: Result<(), StoreError>)
    requires
        old(store).wf(),
    ensures
        final(store).wf(),
        !delivered ==> r is Ok && *final(store) == *old(store),
        delivered ==> final(store).challenges == old(store).challenges && final(store).ranks
            == old(store).ranks && final(store).user_mappings == old(store).user_mappings && (
        match r {
            Ok(_) => first_htb_id_match(
                htb_challenge_views(old(store).challenges@),
                solve.challenge.htb_id as int,
            ) is Some && htb_solve_views(final(store).solves@) == announced_marked(
                htb_solve_views(old(store).solves@),
                solve@.user_id,
                solve.challenge.htb_id as int,
                solve@.solve_type,
            ),
            Err(e) => e == StoreError::NoChallengeWithId && *final(store) == *old(store)
                && first_htb_id_match(
                htb_challenge_views(old(store).challenges@),
                solve.challenge.htb_id as int,
            ) is None,
        }),
{
    if delivered {
        store.add_challenge_announced_for_user(solve, solve.challenge.htb_id)
    } else {
        Ok(())
    }
}

/// Whether the remote standing differs from a stored snapshot.
pub fn rank_changed(latest: &RankStats, current: &crate::models::HTBRank) -> (r: bool)
    ensures
        r == (latest.data.rank != current.rank || latest.data.points != current.points),
{
    latest.data.rank != current.rank || latest.data.points != current.points
}

} // verus!
