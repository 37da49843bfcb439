//! The competition store: tables of tracked competitions, their challenges
//! and scoreboard history, with the reconciliation logic that diffs remote
//! provider data against them. The store is plain in-memory state; callers
//! persist it however they like and feed remote data in as plain values.

use vstd::prelude::*;

use crate::StoreError;
use crate::dates::{parse_datetime_unix, parsed_unix_of, solve_date_fmt, solve_date_format};
use crate::models::{
    Challenge, ChallengeView, Ctf, CtfView, Scoreboard, ScoreboardView, clone_string_opt,
    clone_string_vec, distinct_names, names_of,
};
use crate::provider::{
    ChallengeResponse, ChallengeResponseView, MyTeamResponseData, TeamSolvesResponseData,
    TeamSolvesResponseDataView,
};
use crate::text::contains_substring;
use crate::text::is_substring_of;
use crate::text::str_eq;
use crate::working::{
    add_working_user, lemma_with_working_distinct, lemma_without_working_distinct,
    remove_working_user, with_working, without_working,
};

verus! {

pub open spec fn ctf_views(s: Seq<Ctf>) -> Seq<CtfView> {
    s.map_values(|c: Ctf| c@)
}

pub open spec fn challenge_views(s: Seq<Challenge>) -> Seq<ChallengeView> {
    s.map_values(|c: Challenge| c@)
}

pub open spec fn scoreboard_views(s: Seq<Scoreboard>) -> Seq<ScoreboardView> {
    s.map_values(|c: Scoreboard| c@)
}

/// The de-duplication key of a challenge on providers without stable remote
/// ids: the owning competition with the challenge's name and category.
pub open spec fn ctfd_key_match(
    c: ChallengeView,
    ctf_id: int,
    name: Seq<char>,
    category: Seq<char>,
) -> bool {
    c.ctf_id == ctf_id && c.name == name && c.category == category
}

/// The challenges belonging to a given competition.
pub open spec fn clg_of_ctf(ctf_id: int) -> spec_fn(ChallengeView) -> bool {
    |c: ChallengeView| c.ctf_id == ctf_id
}

/// A freshly discovered challenge: unsolved, nobody working, unannounced.
pub open spec fn new_challenge_view(
    id: int,
    ctf_id: int,
    name: Seq<char>,
    category: Seq<char>,
    points: int,
) -> ChallengeView {
    ChallengeView {
        id: id,
        ctf_id: ctf_id,
        name: name,
        category: category,
        solved: false,
        working: Seq::empty(),
        solver: None,
        points: points,
        solved_time: None,
        announced_solve: false,
    }
}

/// A challenge row after a solve has been recorded against it: marked
/// solved and announced, carrying the solver and solve time, with the
/// solver cleared from its working set.
pub open spec fn marked_solved(c: ChallengeView, with: ChallengeView) -> ChallengeView {
    ChallengeView {
        solved: true,
        announced_solve: true,
        solver: with.solver,
        solved_time: with.solved_time,
        working: match with.solver {
            Some(n) => without_working(c.working, n),
            None => c.working,
        },
        ..c
    }
}

/// The challenge table after a provider refresh of one remote challenge:
/// every row matching the de-duplication key and still unsolved takes the
/// remote point value; solved rows are frozen.
pub open spec fn with_updated_points(
    s: Seq<ChallengeView>,
    ctf_id: int,
    name: Seq<char>,
    category: Seq<char>,
    points: int,
) -> Seq<ChallengeView> {
    Seq::new(
        s.len(),
        |i: int|
            if ctfd_key_match(s[i], ctf_id, name, category) && !s[i].solved {
                ChallengeView { points: points, ..s[i] }
            } else {
                s[i]
            },
    )
}

pub open spec fn resp_views(s: Seq<ChallengeResponse>) -> Seq<ChallengeResponseView> {
    s.map_values(|r: ChallengeResponse| r@)
}

pub open spec fn solve_views(s: Seq<TeamSolvesResponseData>) -> Seq<TeamSolvesResponseDataView> {
    s.map_values(|r: TeamSolvesResponseData| r@)
}

/// The challenge table and id counter after reconciling one remote
/// challenge: an unknown de-duplication key inserts a fresh row, a known
/// key refreshes the point value of its unsolved rows.
pub open spec fn upsert_challenge(
    s: Seq<ChallengeView>,
    next_id: int,
    ctf_id: int,
    r: ChallengeResponseView,
) -> (Seq<ChallengeView>, int) {
    if exists|i: int|
        0 <= i < s.len() && ctfd_key_match(#[trigger] s[i], ctf_id, r.name, r.category) {
        (with_updated_points(s, ctf_id, r.name, r.category, r.value), next_id)
    } else {
        (s.push(new_challenge_view(next_id, ctf_id, r.name, r.category, r.value)), next_id + 1)
    }
}

/// The challenge table and id counter after reconciling a whole remote
/// challenge listing, in listing order.
pub open spec fn upsert_challenges(
    s: Seq<ChallengeView>,
    next_id: int,
    ctf_id: int,
    rs: Seq<ChallengeResponseView>,
) -> (Seq<ChallengeView>, int)
    decreases rs.len(),
{
    if rs.len() == 0 {
        (s, next_id)
    } else {
        let step = upsert_challenge(s, next_id, ctf_id, rs.first());
        upsert_challenges(step.0, step.1, ctf_id, rs.drop_first())
    }
}

/// The challenge table and id counter after inserting every challenge of a
/// remote listing unconditionally, in listing order.
pub open spec fn inserted_challenges(
    s: Seq<ChallengeView>,
    next_id: int,
    ctf_id: int,
    rs: Seq<ChallengeResponseView>,
) -> (Seq<ChallengeView>, int)
    decreases rs.len(),
{
    if rs.len() == 0 {
        (s, next_id)
    } else {
        inserted_challenges(
            s.push(
                new_challenge_view(next_id, ctf_id, rs.first().name, rs.first().category, rs.first().value),
            ),
            next_id + 1,
            ctf_id,
            rs.drop_first(),
        )
    }
}

/// The index of the first challenge row matching the de-duplication key,
/// searching from position `k`.
pub open spec fn first_key_match_from(
    s: Seq<ChallengeView>,
    ctf_id: int,
    name: Seq<char>,
    category: Seq<char>,
    k: int,
) -> Option<int>
    decreases s.len() - k,
{
    if k < 0 || k >= s.len() {
        None
    } else if ctfd_key_match(s[k], ctf_id, name, category) {
        Some(k)
    } else {
        first_key_match_from(s, ctf_id, name, category, k + 1)
    }
}

/// The index of the first challenge row matching the de-duplication key.
pub open spec fn first_key_match(
    s: Seq<ChallengeView>,
    ctf_id: int,
    name: Seq<char>,
    category: Seq<char>,
) -> Option<int> {
    first_key_match_from(s, ctf_id, name, category, 0)
}

/// What one remote team solve contributes to a reconciliation tick: the
/// mapped local challenge annotated with solver and solve time — or
/// nothing, when the solve does not map to a local challenge, its date does
/// not parse, or the local record is already announced.
pub open spec fn new_solve_of(
    s: Seq<ChallengeView>,
    ctf_id: int,
    e: TeamSolvesResponseDataView,
    name: Seq<char>,
) -> Option<ChallengeView> {
    match first_key_match(s, ctf_id, e.challenge.name, e.challenge.category) {
        Some(i) => if !s[i].announced_solve {
            match parsed_unix_of(e.date, solve_date_fmt()) {
                Some(t) => Some(
                    ChallengeView { solver: Some(name), solved_time: Some(t as int), ..s[i] },
                ),
                None => None,
            }
        } else {
            None
        },
        None => None,
    }
}

/// The most recent scoreboard entry of a competition among the first `k`
/// entries: the matching entry closest to the end.
pub open spec fn last_scoreboard_from(s: Seq<ScoreboardView>, ctf_id: int, k: int) -> Option<
    ScoreboardView,
>
    decreases k,
{
    if k <= 0 || k > s.len() {
        None
    } else if s[k - 1].ctf_id == ctf_id {
        Some(s[k - 1])
    } else {
        last_scoreboard_from(s, ctf_id, k - 1)
    }
}

/// The most recent scoreboard entry of a competition.
pub open spec fn latest_scoreboard_for(s: Seq<ScoreboardView>, ctf_id: int) -> Option<
    ScoreboardView,
> {
    last_scoreboard_from(s, ctf_id, s.len() as int)
}

/// The new, unannounced solves of a reconciliation tick, in the order the
/// provider reported them.
pub open spec fn new_solves_from(
    s: Seq<ChallengeView>,
    ctf_id: int,
    rem: Seq<TeamSolvesResponseDataView>,
    names: Seq<Seq<char>>,
) -> Seq<ChallengeView>
    decreases rem.len(),
{
    if rem.len() == 0 {
        Seq::empty()
    } else {
        let rest = new_solves_from(s, ctf_id, rem.drop_first(), names.drop_first());
        match new_solve_of(s, ctf_id, rem.first(), names.first()) {
            Some(c) => seq![c] + rest,
            None => rest,
        }
    }
}

/// The store of tracked competitions and their persisted state.
pub struct CtfStore {
    pub ctfs: Vec<Ctf>,
    pub challenges: Vec<Challenge>,
    pub scoreboard: Vec<Scoreboard>,
    pub next_ctf_id: i32,
    pub next_challenge_id: i32,
    pub next_scoreboard_entry_id: i32,
}

impl CtfStore {
    /// Well-formedness: row ids are unique and below the id counters, and
    /// every working set is duplicate-free.
    pub open spec fn wf(&self) -> bool {
        &&& forall|i: int|
            0 <= i < self.ctfs@.len() ==> #[trigger] self.ctfs@[i]@.id < self.next_ctf_id as int
        &&& forall|i: int, j: int|
            0 <= i < j < self.ctfs@.len() ==> self.ctfs@[i]@.id != self.ctfs@[j]@.id
        &&& forall|i: int|
            0 <= i < self.challenges@.len() ==> #[trigger] self.challenges@[i]@.id
                < self.next_challenge_id as int
        &&& forall|i: int, j: int|
            0 <= i < j < self.challenges@.len() ==> self.challenges@[i]@.id
                != self.challenges@[j]@.id
        &&& forall|i: int|
            0 <= i < self.challenges@.len() ==> #[trigger] distinct_names(
                self.challenges@[i]@.working,
            )
        &&& forall|i: int|
            0 <= i < self.scoreboard@.len() ==> #[trigger] self.scoreboard@[i]@.entry_id
                < self.next_scoreboard_entry_id as int
        &&& forall|i: int, j: int|
            0 <= i < j < self.scoreboard@.len() ==> self.scoreboard@[i]@.entry_id
                < self.scoreboard@[j]@.entry_id
    }

    /// An empty store.
    pub fn new() -> (r: Self)
        ensures
            r.wf(),
            r.ctfs@.len() == 0,
            r.challenges@.len() == 0,
            r.scoreboard@.len() == 0,
    {
        CtfStore {
            ctfs: Vec::new(),
            challenges: Vec::new(),
            scoreboard: Vec::new(),
            next_ctf_id: 1,
            next_challenge_id: 1,
            next_scoreboard_entry_id: 1,
        }
    }

    /// All competitions currently marked active.
    pub fn get_active_ctfs(&self) -> (r: Vec<Ctf>)
        ensures
            ctf_views(r@) == ctf_views(self.ctfs@).filter(|c: CtfView| c.active),
    {
        let ghost pred = |c: CtfView| c.active;
        let mut r: Vec<Ctf> = Vec::new();
        let mut i: usize = 0;
        while i < self.ctfs.len()
            invariant
                i <= self.ctfs@.len(),
                ctf_views(r@) == ctf_views(self.ctfs@).take(i as int).filter(pred),
                pred == (|c: CtfView| c.active),
            decreases self.ctfs@.len() - i,
        {
            proof {
                reveal(Seq::filter);
                assert(ctf_views(self.ctfs@).take(i + 1).drop_last() =~= ctf_views(
                    self.ctfs@,
                ).take(i as int));
                assert(ctf_views(self.ctfs@).take(i + 1).last() == self.ctfs@[i as int]@);
            }
            if self.ctfs[i].active {
                r.push(self.ctfs[i].clone());
                proof {
                    assert(ctf_views(r@) =~= ctf_views(self.ctfs@).take(i as int).filter(
                        pred,
                    ).push(self.ctfs@[i as int]@));
                }
            }
            i += 1;
        }
        proof {
            assert(ctf_views(self.ctfs@).take(self.ctfs@.len() as int) =~= ctf_views(self.ctfs@));
        }
        r
    }

    /// Starts tracking a competition: inserts an active row under a fresh id
    /// and returns that id.
    pub fn add_active_ctf(
        &mut self,
        name: &str,
        base_url: &str,
        api_url: &str,
        api_key: &str,
        channel_id: i64,
    ) -> (r: i32)
        requires
            old(self).wf(),
            old(self).next_ctf_id < i32::MAX,
        ensures
            final(self).wf(),
            r as int == old(self).next_ctf_id as int,
            final(self).ctfs@.len() == old(self).ctfs@.len() + 1,
            forall|i: int|
                0 <= i < old(self).ctfs@.len() ==> final(self).ctfs@[i]@ == #[trigger] old(
                    self,
                ).ctfs@[i]@,
            final(self).ctfs@.last()@ == (CtfView {
                id: old(self).next_ctf_id as int,
                name: name@,
                base_url: base_url@,
                api_url: api_url@,
                api_key: api_key@,
                channel_id: channel_id as int,
                active: true,
            }),
            final(self).challenges == old(self).challenges,
            final(self).scoreboard == old(self).scoreboard,
            final(self).next_challenge_id == old(self).next_challenge_id,
            final(self).next_scoreboard_entry_id == old(self).next_scoreboard_entry_id,
    {
        let id = self.next_ctf_id;
        let row = Ctf {
            id,
            name: String::from_str(name),
            base_url: String::from_str(base_url),
            api_url: String::from_str(api_url),
            api_key: String::from_str(api_key),
            channel_id,
            active: true,
        };
        self.ctfs.push(row);
        self.next_ctf_id = id + 1;
        id
    }

    /// Stops tracking a competition: deactivates every row with the given
    /// name, retaining its history.
    pub fn remove_active_ctf(&mut self, name: &str)
        requires
            old(self).wf(),
        ensures
            final(self).wf(),
            final(self).ctfs@.len() == old(self).ctfs@.len(),
            forall|i: int|
                0 <= i < old(self).ctfs@.len() ==> final(self).ctfs@[i]@ == (if #[trigger] old(
                    self,
                ).ctfs@[i]@.name == name@ {
                    CtfView { active: false, ..old(self).ctfs@[i]@ }
                } else {
                    old(self).ctfs@[i]@
                }),
            final(self).challenges == old(self).challenges,
            final(self).scoreboard == old(self).scoreboard,
            final(self).next_ctf_id == old(self).next_ctf_id,
            final(self).next_challenge_id == old(self).next_challenge_id,
            final(self).next_scoreboard_entry_id == old(self).next_scoreboard_entry_id,
    {
        let mut i: usize = 0;
        while i < self.ctfs.len()
            invariant
                old(self).wf(),
                i <= self.ctfs@.len(),
                self.ctfs@.len() == old(self).ctfs@.len(),
                forall|j: int|
                    i <= j < self.ctfs@.len() ==> self.ctfs@[j] == #[trigger] old(self).ctfs@[j],
                forall|j: int|
                    0 <= j < self.ctfs@.len() ==> #[trigger] self.ctfs@[j]@.id == old(
                        self,
                    ).ctfs@[j]@.id,
                forall|j: int|
                    0 <= j < i ==> self.ctfs@[j]@ == (if #[trigger] old(self).ctfs@[j]@.name
                        == name@ {
                        CtfView { active: false, ..old(self).ctfs@[j]@ }
                    } else {
                        old(self).ctfs@[j]@
                    }),
                self.challenges == old(self).challenges,
                self.scoreboard == old(self).scoreboard,
                self.next_ctf_id == old(self).next_ctf_id,
                self.next_challenge_id == old(self).next_challenge_id,
                self.next_scoreboard_entry_id == old(self).next_scoreboard_entry_id,
            decreases self.ctfs@.len() - i,
        {
            if str_eq(self.ctfs[i].name.as_str(), name) {
                let row = &self.ctfs[i];
                let updated = Ctf {
                    id: row.id,
                    name: row.name.clone(),
                    base_url: row.base_url.clone(),
                    api_url: row.api_url.clone(),
                    api_key: row.api_key.clone(),
                    channel_id: row.channel_id,
                    active: false,
                };
                self.ctfs[i] = updated;
            }
            i += 1;
        }
    }

    fn find_challenge_index_by_name(&self, name: &str) -> (r: Option<usize>)
        ensures
            (match r {
                Some(i) => i < self.challenges@.len() && self.challenges@[i as int]@.name == name@
                    && (forall|j: int|
                    0 <= j < i ==> #[trigger] self.challenges@[j]@.name != name@),
                None => forall|j: int|
                    0 <= j < self.challenges@.len() ==> #[trigger] self.challenges@[j]@.name
                        != name@,
            }),
    {
        let mut i: usize = 0;
        while i < self.challenges.len()
            invariant
                i <= self.challenges@.len(),
                forall|j: int| 0 <= j < i ==> #[trigger] self.challenges@[j]@.name != name@,
            decreases self.challenges@.len() - i,
        {
            if str_eq(self.challenges[i].name.as_str(), name) {
                return Some(i);
            }
            i += 1;
        }
        None
    }

    /// The first challenge with the given name, if any.
    pub fn get_challenge_from_name(&self, name: &str) -> (r: Option<Challenge>)
        ensures
            (match r {
                Some(c) => exists|i: int|
                    0 <= i < self.challenges@.len() && #[trigger] self.challenges@[i]@.name
                        == name@ && c@ == self.challenges@[i]@ && (forall|j: int|
                        0 <= j < i ==> #[trigger] self.challenges@[j]@.name != name@),
                None => forall|j: int|
                    0 <= j < self.challenges@.len() ==> #[trigger] self.challenges@[j]@.name
                        != name@,
            }),
    {
        match self.find_challenge_index_by_name(name) {
            Some(i) => Some(self.challenges[i].clone()),
            None => None,
        }
    }

    /// Every challenge whose name contains the given text, in store order.
    pub fn search_for_challenge_by_name(&self, name: &str) -> (r: Vec<Challenge>)
        ensures
            challenge_views(r@) == challenge_views(self.challenges@).filter(
                |c: ChallengeView| is_substring_of(name@, c.name),
            ),
    {
        let ghost pred = |c: ChallengeView| is_substring_of(name@, c.name);
        let mut r: Vec<Challenge> = Vec::new();
        let mut i: usize = 0;
        while i < self.challenges.len()
            invariant
                i <= self.challenges@.len(),
                challenge_views(r@) == challenge_views(self.challenges@).take(i as int).filter(
                    pred,
                ),
                pred == (|c: ChallengeView| is_substring_of(name@, c.name)),
            decreases self.challenges@.len() - i,
        {
            proof {
                reveal(Seq::filter);
                assert(challenge_views(self.challenges@).take(i + 1).drop_last() =~= challenge_views(
                    self.challenges@,
                ).take(i as int));
                assert(challenge_views(self.challenges@).take(i + 1).last()
                    == self.challenges@[i as int]@);
            }
            if contains_substring(self.challenges[i].name.as_str(), name) {
                r.push(self.challenges[i].clone());
                proof {
                    assert(challenge_views(r@) =~= challenge_views(self.challenges@).take(
                        i as int,
                    ).filter(pred).push(self.challenges@[i as int]@));
                }
            }
            i += 1;
        }
        proof {
            assert(challenge_views(self.challenges@).take(self.challenges@.len() as int)
                =~= challenge_views(self.challenges@));
        }
        r
    }

    /// Every challenge of the competition with the given id, in store order.
    fn challenges_of_ctf(&self, ctf_id: i32) -> (r: Vec<Challenge>)
        ensures
            challenge_views(r@) == challenge_views(self.challenges@).filter(
                clg_of_ctf(ctf_id as int),
            ),
    {
        let ghost pred = clg_of_ctf(ctf_id as int);
        let mut r: Vec<Challenge> = Vec::new();
        let mut i: usize = 0;
        while i < self.challenges.len()
            invariant
                i <= self.challenges@.len(),
                challenge_views(r@) == challenge_views(self.challenges@).take(i as int).filter(
                    pred,
                ),
                pred == clg_of_ctf(ctf_id as int),
            decreases self.challenges@.len() - i,
        {
            proof {
                reveal(Seq::filter);
                assert(challenge_views(self.challenges@).take(i + 1).drop_last() =~= challenge_views(
                    self.challenges@,
                ).take(i as int));
                assert(challenge_views(self.challenges@).take(i + 1).last()
                    == self.challenges@[i as int]@);
            }
            if self.challenges[i].ctf_id == ctf_id {
                r.push(self.challenges[i].clone());
                proof {
                    assert(challenge_views(r@) =~= challenge_views(self.challenges@).take(
                        i as int,
                    ).filter(pred).push(self.challenges@[i as int]@));
                }
            }
            i += 1;
        }
        proof {
            assert(challenge_views(self.challenges@).take(self.challenges@.len() as int)
                =~= challenge_views(self.challenges@));
        }
        r
    }

    /// The challenges of the competition with the given id, or an error when
    /// no such competition exists.
    pub fn get_challenges_for_ctfid(&self, ctf_id: i32) -> (r: Result<Vec<Challenge>, StoreError>)
        ensures
            (match r {
                Ok(cs) => (exists|i: int|
                    0 <= i < self.ctfs@.len() && #[trigger] self.ctfs@[i]@.id == ctf_id as int)
                    && challenge_views(cs@) == challenge_views(self.challenges@).filter(
                    clg_of_ctf(ctf_id as int),
                ),
                Err(e) => e == StoreError::NoCtfForId && (forall|i: int|
                    0 <= i < self.ctfs@.len() ==> #[trigger] self.ctfs@[i]@.id != ctf_id as int),
            }),
    {
        let mut i: usize = 0;
        while i < self.ctfs.len()
            invariant
                i <= self.ctfs@.len(),
                forall|j: int| 0 <= j < i ==> #[trigger] self.ctfs@[j]@.id != ctf_id as int,
            decreases self.ctfs@.len() - i,
        {
            if self.ctfs[i].id == ctf_id {
                proof {
                    assert(self.ctfs@[i as int]@.id == ctf_id as int);
                }
                return Ok(self.challenges_of_ctf(ctf_id));
            }
            i += 1;
        }
        Err(StoreError::NoCtfForId)
    }

    /// The challenges of the first competition with the given name, or an
    /// error when no such competition exists.
    pub fn get_challenges_for_ctfname(&self, ctf_name: &str) -> (r: Result<
        Vec<Challenge>,
        StoreError,
    >)
        ensures
            (match r {
                Ok(cs) => exists|i: int|
                    0 <= i < self.ctfs@.len() && #[trigger] self.ctfs@[i]@.name == ctf_name@
                        && challenge_views(cs@) == challenge_views(self.challenges@).filter(
                        clg_of_ctf(self.ctfs@[i]@.id),
                    ) && (forall|j: int|
                        0 <= j < i ==> #[trigger] self.ctfs@[j]@.name != ctf_name@),
                Err(e) => e == StoreError::NoCtfForName && (forall|i: int|
                    0 <= i < self.ctfs@.len() ==> #[trigger] self.ctfs@[i]@.name != ctf_name@),
            }),
    {
        let mut i: usize = 0;
        while i < self.ctfs.len()
            invariant
                i <= self.ctfs@.len(),
                forall|j: int| 0 <= j < i ==> #[trigger] self.ctfs@[j]@.name != ctf_name@,
            decreases self.ctfs@.len() - i,
        {
            if str_eq(self.ctfs[i].name.as_str(), ctf_name) {
                let r = self.challenges_of_ctf(self.ctfs[i].id);
                proof {
                    assert(self.ctfs@[i as int]@.name == ctf_name@);
                }
                return Ok(r);
            }
            i += 1;
        }
        Err(StoreError::NoCtfForName)
    }

    /// The challenges of the first competition bound to the given channel,
    /// or an error when no such competition exists.
    pub fn get_challenges_for_channel(&self, channel_id: i64) -> (r: Result<
        Vec<Challenge>,
        StoreError,
    >)
        ensures
            (match r {
                Ok(cs) => exists|i: int|
                    0 <= i < self.ctfs@.len() && #[trigger] self.ctfs@[i]@.channel_id
                        == channel_id as int && challenge_views(cs@) == challenge_views(
                        self.challenges@,
                    ).filter(clg_of_ctf(self.ctfs@[i]@.id)) && (forall|j: int|
                        0 <= j < i ==> #[trigger] self.ctfs@[j]@.channel_id != channel_id as int),
                Err(e) => e == StoreError::NoCtfForChannel && (forall|i: int|
                    0 <= i < self.ctfs@.len() ==> #[trigger] self.ctfs@[i]@.channel_id
                        != channel_id as int),
            }),
    {
        let mut i: usize = 0;
        while i < self.ctfs.len()
            invariant
                i <= self.ctfs@.len(),
                forall|j: int|
                    0 <= j < i ==> #[trigger] self.ctfs@[j]@.channel_id != channel_id as int,
            decreases self.ctfs@.len() - i,
        {
            if self.ctfs[i].channel_id == channel_id {
                let r = self.challenges_of_ctf(self.ctfs[i].id);
                proof {
                    assert(self.ctfs@[i as int]@.channel_id == channel_id as int);
                }
                return Ok(r);
            }
            i += 1;
        }
        Err(StoreError::NoCtfForChannel)
    }

    /// Marks a user as working on the first challenge with the given name.
    /// Adding a user who is already working is a no-op; an unknown
    /// challenge name is an error.
    pub fn add_working(&mut self, username: &str, challenge_name: &str) -> (r: Result<
        (),
        StoreError,
    >)
        requires
            old(self).wf(),
        ensures
            final(self).wf(),
            final(self).ctfs == old(self).ctfs,
            final(self).scoreboard == old(self).scoreboard,
            final(self).next_ctf_id == old(self).next_ctf_id,
            final(self).next_challenge_id == old(self).next_challenge_id,
            final(self).next_scoreboard_entry_id == old(self).next_scoreboard_entry_id,
            final(self).challenges@.len() == old(self).challenges@.len(),
            (match r {
                Ok(_) => exists|i: int|
                    0 <= i < old(self).challenges@.len() && #[trigger] old(
                        self,
                    ).challenges@[i]@.name == challenge_name@ && (forall|j: int|
                        0 <= j < i ==> #[trigger] old(self).challenges@[j]@.name
                            != challenge_name@) && final(self).challenges@[i]@ == (ChallengeView {
                        working: with_working(old(self).challenges@[i]@.working, username@),
                        ..old(self).challenges@[i]@
                    }) && (forall|j: int|
                        0 <= j < old(self).challenges@.len() && j != i ==> final(self).challenges@[j] == #[trigger] old(self).challenges@[j]),
                Err(e) => e == StoreError::NoChallengeWithName && *final(self) == *old(self) && (
                forall|j: int|
                    0 <= j < old(self).challenges@.len() ==> #[trigger] old(
                        self,
                    ).challenges@[j]@.name != challenge_name@),
            }),
    {
        match self.find_challenge_index_by_name(challenge_name) {
            Some(i) => {
                let updated = {
                    let row = &self.challenges[i];
                    let mut working = clone_string_vec(&row.working);
                    add_working_user(&mut working, username);
                    proof {
                        lemma_with_working_distinct(row@.working, username@);
                    }
                    Challenge {
                        id: row.id,
                        ctf_id: row.ctf_id,
                        name: row.name.clone(),
                        category: row.category.clone(),
                        solved: row.solved,
                        working,
                        solver: clone_string_opt(&row.solver),
                        points: row.points,
                        solved_time: row.solved_time,
                        announced_solve: row.announced_solve,
                    }
                };
                self.challenges[i] = updated;
                proof {
                    assert(self.challenges@[i as int]@ == (ChallengeView {
                        working: with_working(old(self).challenges@[i as int]@.working, username@),
                        ..old(self).challenges@[i as int]@
                    }));
                }
                Ok(())
            },
            None => Err(StoreError::NoChallengeWithName),
        }
    }

    /// Clears a user from the working set of the given challenge row (by
    /// id). Clearing a user who is not working is a no-op.
    pub fn remove_working_from_challenge(&mut self, username: &str, challenge: &Challenge)
        requires
            old(self).wf(),
        ensures
            final(self).wf(),
            final(self).ctfs == old(self).ctfs,
            final(self).scoreboard == old(self).scoreboard,
            final(self).next_ctf_id == old(self).next_ctf_id,
            final(self).next_challenge_id == old(self).next_challenge_id,
            final(self).next_scoreboard_entry_id == old(self).next_scoreboard_entry_id,
            final(self).challenges@.len() == old(self).challenges@.len(),
            forall|i: int|
                0 <= i < old(self).challenges@.len() ==> final(self).challenges@[i]@ == (
                if #[trigger] old(self).challenges@[i]@.id == challenge@.id {
                    ChallengeView {
                        working: without_working(old(self).challenges@[i]@.working, username@),
                        ..old(self).challenges@[i]@
                    }
                } else {
                    old(self).challenges@[i]@
                }),
    {
        let mut i: usize = 0;
        while i < self.challenges.len()
            invariant
                old(self).wf(),
                i <= self.challenges@.len(),
                self.challenges@.len() == old(self).challenges@.len(),
                forall|j: int|
                    i <= j < self.challenges@.len() ==> self.challenges@[j] == #[trigger] old(
                        self,
                    ).challenges@[j],
                forall|j: int|
                    0 <= j < self.challenges@.len() ==> #[trigger] self.challenges@[j]@.id == old(
                        self,
                    ).challenges@[j]@.id,
                forall|j: int|
                    0 <= j < self.challenges@.len() ==> #[trigger] distinct_names(
                        self.challenges@[j]@.working,
                    ),
                forall|j: int|
                    0 <= j < i ==> self.challenges@[j]@ == (if #[trigger] old(
                        self,
                    ).challenges@[j]@.id == challenge@.id {
                        ChallengeView {
                            working: without_working(old(self).challenges@[j]@.working, username@),
                            ..old(self).challenges@[j]@
                        }
                    } else {
                        old(self).challenges@[j]@
                    }),
                self.ctfs == old(self).ctfs,
                self.scoreboard == old(self).scoreboard,
                self.next_ctf_id == old(self).next_ctf_id,
                self.next_challenge_id == old(self).next_challenge_id,
                self.next_scoreboard_entry_id == old(self).next_scoreboard_entry_id,
            decreases self.challenges@.len() - i,
        {
            if self.challenges[i].id == challenge.id {
                let updated = {
                    let row = &self.challenges[i];
                    let mut working = clone_string_vec(&row.working);
                    remove_working_user(&mut working, username);
                    proof {
                        lemma_without_working_distinct(row@.working, username@);
                    }
                    Challenge {
                        id: row.id,
                        ctf_id: row.ctf_id,
                        name: row.name.clone(),
                        category: row.category.clone(),
                        solved: row.solved,
                        working,
                        solver: clone_string_opt(&row.solver),
                        points: row.points,
                        solved_time: row.solved_time,
                        announced_solve: row.announced_solve,
                    }
                };
                self.challenges[i] = updated;
            }
            i += 1;
        }
    }

    /// Clears a user from the working set of the first challenge with the
    /// given name; an unknown name is an error, an absent user is not.
    pub fn remove_working(&mut self, username: &str, challenge_name: &str) -> (r: Result<
        (),
        StoreError,
    >)
        requires
            old(self).wf(),
        ensures
            final(self).wf(),
            final(self).ctfs == old(self).ctfs,
            final(self).scoreboard == old(self).scoreboard,
            final(self).next_ctf_id == old(self).next_ctf_id,
            final(self).next_challenge_id == old(self).next_challenge_id,
            final(self).next_scoreboard_entry_id == old(self).next_scoreboard_entry_id,
            final(self).challenges@.len() == old(self).challenges@.len(),
            (match r {
                Ok(_) => exists|i: int|
                    0 <= i < old(self).challenges@.len() && #[trigger] old(
                        self,
                    ).challenges@[i]@.name == challenge_name@ && (forall|j: int|
                        0 <= j < i ==> #[trigger] old(self).challenges@[j]@.name
                            != challenge_name@) && (forall|j: int|
                        0 <= j < old(self).challenges@.len() ==> final(self).challenges@[j]@ == (
                        if #[trigger] old(self).challenges@[j]@.id == old(
                            self,
                        ).challenges@[i]@.id {
                            ChallengeView {
                                working: without_working(
                                    old(self).challenges@[j]@.working,
                                    username@,
                                ),
                                ..old(self).challenges@[j]@
                            }
                        } else {
                            old(self).challenges@[j]@
                        })),
                Err(e) => e == StoreError::NoChallengeWithName && *final(self) == *old(self) && (
                forall|j: int|
                    0 <= j < old(self).challenges@.len() ==> #[trigger] old(
                        self,
                    ).challenges@[j]@.name != challenge_name@),
            }),
    {
        match self.find_challenge_index_by_name(challenge_name) {
            Some(i) => {
                let row = self.challenges[i].clone();
                proof {
                    assert(old(self).challenges@[i as int]@.name == challenge_name@);
                }
                self.remove_working_from_challenge(username, &row);
                Ok(())
            },
            None => Err(StoreError::NoChallengeWithName),
        }
    }

    /// Records a delivered solve announcement: the row with the given
    /// challenge's id is marked solved and announced, takes the solver and
    /// solve time, and the solver leaves its working set.
    pub fn mark_solved(&mut self, challenge: &Challenge)
        requires
            old(self).wf(),
        ensures
            final(self).wf(),
            final(self).ctfs == old(self).ctfs,
            final(self).scoreboard == old(self).scoreboard,
            final(self).next_ctf_id == old(self).next_ctf_id,
            final(self).next_challenge_id == old(self).next_challenge_id,
            final(self).next_scoreboard_entry_id == old(self).next_scoreboard_entry_id,
            final(self).challenges@.len() == old(self).challenges@.len(),
            forall|i: int|
                0 <= i < old(self).challenges@.len() ==> final(self).challenges@[i]@ == (
                if #[trigger] old(self).challenges@[i]@.id == challenge@.id {
                    marked_solved(old(self).challenges@[i]@, challenge@)
                } else {
                    old(self).challenges@[i]@
                }),
    {
        let mut i: usize = 0;
        while i < self.challenges.len()
            invariant
                old(self).wf(),
                i <= self.challenges@.len(),
                self.challenges@.len() == old(self).challenges@.len(),
                forall|j: int|
                    i <= j < self.challenges@.len() ==> self.challenges@[j] == #[trigger] old(
                        self,
                    ).challenges@[j],
                forall|j: int|
                    0 <= j < self.challenges@.len() ==> #[trigger] self.challenges@[j]@.id == old(
                        self,
                    ).challenges@[j]@.id,
                forall|j: int|
                    0 <= j < self.challenges@.len() ==> #[trigger] distinct_names(
                        self.challenges@[j]@.working,
                    ),
                forall|j: int|
                    0 <= j < i ==> self.challenges@[j]@ == (if #[trigger] old(
                        self,
                    ).challenges@[j]@.id == challenge@.id {
                        marked_solved(old(self).challenges@[j]@, challenge@)
                    } else {
                        old(self).challenges@[j]@
                    }),
                self.ctfs == old(self).ctfs,
                self.scoreboard == old(self).scoreboard,
                self.next_ctf_id == old(self).next_ctf_id,
                self.next_challenge_id == old(self).next_challenge_id,
                self.next_scoreboard_entry_id == old(self).next_scoreboard_entry_id,
            decreases self.challenges@.len() - i,
        {
            if self.challenges[i].id == challenge.id {
                let updated = {
                    let row = &self.challenges[i];
                    let mut working = clone_string_vec(&row.working);
                    if let Some(solver) = &challenge.solver {
                        remove_working_user(&mut working, solver.as_str());
                        proof {
                            lemma_without_working_distinct(row@.working, solver@);
                        }
                    }
                    Challenge {
                        id: row.id,
                        ctf_id: row.ctf_id,
                        name: row.name.clone(),
                        category: row.category.clone(),
                        solved: true,
                        working,
                        solver: clone_string_opt(&challenge.solver),
                        points: row.points,
                        solved_time: challenge.solved_time,
                        announced_solve: true,
                    }
                };
                self.challenges[i] = updated;
            }
            i += 1;
        }
    }


    /// Looks a remote challenge up by its de-duplication key; when it is
    /// absent, inserts it as a fresh unsolved, unannounced row. Returns
    /// whether a row was inserted.
    pub fn ensure_challenge_exists_otherwise_add(
        &mut self,
        challenge: &ChallengeResponse,
        ctf_id: i32,
    ) -> (is_new: bool)
        requires
            old(self).wf(),
            old(self).next_challenge_id < i32::MAX,
        ensures
            final(self).wf(),
            is_new == !(exists|i: int|
                0 <= i < challenge_views(old(self).challenges@).len() && ctfd_key_match(
                    #[trigger] challenge_views(old(self).challenges@)[i],
                    ctf_id as int,
                    challenge@.name,
                    challenge@.category,
                )),
            !is_new ==> *final(self) == *old(self),
            is_new ==> challenge_views(final(self).challenges@) == challenge_views(
                old(self).challenges@,
            ).push(
                new_challenge_view(
                    old(self).next_challenge_id as int,
                    ctf_id as int,
                    challenge@.name,
                    challenge@.category,
                    challenge@.value,
                ),
            ) && final(self).next_challenge_id == old(self).next_challenge_id + 1 && final(self).ctfs == old(self).ctfs && final(self).scoreboard == old(self).scoreboard && final(self).next_ctf_id == old(self).next_ctf_id && final(self).next_scoreboard_entry_id == old(
                self,
            ).next_scoreboard_entry_id,
    {
        let mut i: usize = 0;
        while i < self.challenges.len()
            invariant
                *self == *old(self),
                old(self).wf(),
                old(self).next_challenge_id < i32::MAX,
                i <= self.challenges@.len(),
                forall|j: int|
                    0 <= j < i ==> !ctfd_key_match(
                        #[trigger] challenge_views(self.challenges@)[j],
                        ctf_id as int,
                        challenge@.name,
                        challenge@.category,
                    ),
            decreases self.challenges@.len() - i,
        {
            if self.challenges[i].ctf_id == ctf_id && str_eq(
                self.challenges[i].name.as_str(),
                challenge.name.as_str(),
            ) && str_eq(self.challenges[i].category.as_str(), challenge.category.as_str()) {
                proof {
                    assert(ctfd_key_match(
                        challenge_views(self.challenges@)[i as int],
                        ctf_id as int,
                        challenge@.name,
                        challenge@.category,
                    ));
                }
                return false;
            }
            i += 1;
        }
        let id = self.next_challenge_id;
        let row = Challenge {
            id,
            ctf_id,
            name: challenge.name.clone(),
            category: challenge.category.clone(),
            solved: false,
            working: Vec::new(),
            solver: None,
            points: challenge.value,
            solved_time: None,
            announced_solve: false,
        };
        self.challenges.push(row);
        self.next_challenge_id = id + 1;
        proof {
            assert(challenge_views(self.challenges@) =~~= challenge_views(
                old(self).challenges@,
            ).push(
                new_challenge_view(
                    old(self).next_challenge_id as int,
                    ctf_id as int,
                    challenge@.name,
                    challenge@.category,
                    challenge@.value,
                ),
            ));
        }
        true
    }

    /// Refreshes the point value of every unsolved row matching the
    /// de-duplication key; solved rows keep their frozen score.
    fn update_challenge_points(&mut self, ctf_id: i32, name: &str, category: &str, points: i32)
        requires
            old(self).wf(),
        ensures
            final(self).wf(),
            challenge_views(final(self).challenges@) == with_updated_points(
                challenge_views(old(self).challenges@),
                ctf_id as int,
                name@,
                category@,
                points as int,
            ),
            final(self).ctfs == old(self).ctfs,
            final(self).scoreboard == old(self).scoreboard,
            final(self).next_ctf_id == old(self).next_ctf_id,
            final(self).next_challenge_id == old(self).next_challenge_id,
            final(self).next_scoreboard_entry_id == old(self).next_scoreboard_entry_id,
    {
        let ghost target = with_updated_points(
            challenge_views(old(self).challenges@),
            ctf_id as int,
            name@,
            category@,
            points as int,
        );
        let mut i: usize = 0;
        while i < self.challenges.len()
            invariant
                old(self).wf(),
                i <= self.challenges@.len(),
                self.challenges@.len() == old(self).challenges@.len(),
                forall|j: int|
                    i <= j < self.challenges@.len() ==> self.challenges@[j] == #[trigger] old(
                        self,
                    ).challenges@[j],
                forall|j: int| 0 <= j < i ==> #[trigger] self.challenges@[j]@ == target[j],
                forall|j: int|
                    0 <= j < self.challenges@.len() ==> #[trigger] self.challenges@[j]@.id == old(
                        self,
                    ).challenges@[j]@.id,
                forall|j: int|
                    0 <= j < self.challenges@.len() ==> #[trigger] distinct_names(
                        self.challenges@[j]@.working,
                    ),
                target == with_updated_points(
                    challenge_views(old(self).challenges@),
                    ctf_id as int,
                    name@,
                    category@,
                    points as int,
                ),
                self.ctfs == old(self).ctfs,
                self.scoreboard == old(self).scoreboard,
                self.next_ctf_id == old(self).next_ctf_id,
                self.next_challenge_id == old(self).next_challenge_id,
                self.next_scoreboard_entry_id == old(self).next_scoreboard_entry_id,
            decreases self.challenges@.len() - i,
        {
            if self.challenges[i].ctf_id == ctf_id && !self.challenges[i].solved && str_eq(
                self.challenges[i].name.as_str(),
                name,
            ) && str_eq(self.challenges[i].category.as_str(), category) {
                let updated = {
                    let row = &self.challenges[i];
                    Challenge {
                        id: row.id,
                        ctf_id: row.ctf_id,
                        name: row.name.clone(),
                        category: row.category.clone(),
                        solved: row.solved,
                        working: clone_string_vec(&row.working),
                        solver: clone_string_opt(&row.solver),
                        points,
                        solved_time: row.solved_time,
                        announced_solve: row.announced_solve,
                    }
                };
                proof {
                    assert(updated@ =~= (ChallengeView {
                        points: points as int,
                        ..old(self).challenges@[i as int]@
                    }));
                }
                self.challenges[i] = updated;
                proof {
                    assert(self.challenges@[i as int]@ == target[i as int]);
                    assert(distinct_names(self.challenges@[i as int]@.working));
                }
            } else {
                proof {
                    assert(self.challenges@[i as int]@ == target[i as int]);
                }
            }
            i += 1;
        }
        proof {
            assert(challenge_views(self.challenges@) =~= target);
        }
    }

    /// Reconciles a remote challenge listing against the store: unknown
    /// challenges are inserted as unsolved and unannounced, known unsolved
    /// ones take the remote point value, and solved ones are left frozen.
    pub fn update_challenges_and_scores(&mut self, ctf_id: i32, remote: &Vec<ChallengeResponse>)
        requires
            old(self).wf(),
            old(self).next_challenge_id as int + remote@.len() <= i32::MAX as int,
        ensures
            final(self).wf(),
            (challenge_views(final(self).challenges@), final(self).next_challenge_id as int)
                == upsert_challenges(
                challenge_views(old(self).challenges@),
                old(self).next_challenge_id as int,
                ctf_id as int,
                resp_views(remote@),
            ),
            final(self).ctfs == old(self).ctfs,
            final(self).scoreboard == old(self).scoreboard,
            final(self).next_ctf_id == old(self).next_ctf_id,
            final(self).next_scoreboard_entry_id == old(self).next_scoreboard_entry_id,
    {
        let ghost target = upsert_challenges(
            challenge_views(old(self).challenges@),
            old(self).next_challenge_id as int,
            ctf_id as int,
            resp_views(remote@),
        );
        proof {
            assert(resp_views(remote@).skip(0) =~= resp_views(remote@));
        }
        let mut i: usize = 0;
        while i < remote.len()
            invariant
                self.wf(),
                i <= remote@.len(),
                self.next_challenge_id as int + (remote@.len() - i) <= i32::MAX as int,
                upsert_challenges(
                    challenge_views(self.challenges@),
                    self.next_challenge_id as int,
                    ctf_id as int,
                    resp_views(remote@).skip(i as int),
                ) == target,
                target == upsert_challenges(
                    challenge_views(old(self).challenges@),
                    old(self).next_challenge_id as int,
                    ctf_id as int,
                    resp_views(remote@),
                ),
                self.ctfs == old(self).ctfs,
                self.scoreboard == old(self).scoreboard,
                self.next_ctf_id == old(self).next_ctf_id,
                self.next_scoreboard_entry_id == old(self).next_scoreboard_entry_id,
            decreases remote@.len() - i,
        {
            let ghost pre_views = challenge_views(self.challenges@);
            let ghost pre_next = self.next_challenge_id as int;
            let is_new = self.ensure_challenge_exists_otherwise_add(&remote[i], ctf_id);
            if !is_new {
                self.update_challenge_points(
                    ctf_id,
                    remote[i].name.as_str(),
                    remote[i].category.as_str(),
                    remote[i].value,
                );
            }
            proof {
                let rv = resp_views(remote@);
                assert(rv.skip(i as int).first() == remote@[i as int]@);
                assert(rv.skip(i as int).drop_first() =~= rv.skip(i + 1));
                assert((challenge_views(self.challenges@), self.next_challenge_id as int)
                    == upsert_challenge(pre_views, pre_next, ctf_id as int, remote@[i as int]@));
            }
            i += 1;
        }
        proof {
            assert(resp_views(remote@).skip(remote@.len() as int) =~= Seq::<
                ChallengeResponseView,
            >::empty());
        }
    }

    /// Inserts every challenge of a freshly started competition's remote
    /// listing, in listing order.
    pub fn initial_create_all_challenges_in_db(
        &mut self,
        ctf_id: i32,
        remote: &Vec<ChallengeResponse>,
    )
        requires
            old(self).wf(),
            old(self).next_challenge_id as int + remote@.len() <= i32::MAX as int,
        ensures
            final(self).wf(),
            (challenge_views(final(self).challenges@), final(self).next_challenge_id as int)
                == inserted_challenges(
                challenge_views(old(self).challenges@),
                old(self).next_challenge_id as int,
                ctf_id as int,
                resp_views(remote@),
            ),
            final(self).ctfs == old(self).ctfs,
            final(self).scoreboard == old(self).scoreboard,
            final(self).next_ctf_id == old(self).next_ctf_id,
            final(self).next_scoreboard_entry_id == old(self).next_scoreboard_entry_id,
    {
        let ghost target = inserted_challenges(
            challenge_views(old(self).challenges@),
            old(self).next_challenge_id as int,
            ctf_id as int,
            resp_views(remote@),
        );
        proof {
            assert(resp_views(remote@).skip(0) =~= resp_views(remote@));
        }
        let mut i: usize = 0;
        while i < remote.len()
            invariant
                self.wf(),
                i <= remote@.len(),
                self.next_challenge_id as int + (remote@.len() - i) <= i32::MAX as int,
                inserted_challenges(
                    challenge_views(self.challenges@),
                    self.next_challenge_id as int,
                    ctf_id as int,
                    resp_views(remote@).skip(i as int),
                ) == target,
                target == inserted_challenges(
                    challenge_views(old(self).challenges@),
                    old(self).next_challenge_id as int,
                    ctf_id as int,
                    resp_views(remote@),
                ),
                self.ctfs == old(self).ctfs,
                self.scoreboard == old(self).scoreboard,
                self.next_ctf_id == old(self).next_ctf_id,
                self.next_scoreboard_entry_id == old(self).next_scoreboard_entry_id,
            decreases remote@.len() - i,
        {
            let ghost pre_views = challenge_views(self.challenges@);
            let id = self.next_challenge_id;
            let row = Challenge {
                id,
                ctf_id,
                name: remote[i].name.clone(),
                category: remote[i].category.clone(),
                solved: false,
                working: Vec::new(),
                solver: None,
                points: remote[i].value,
                solved_time: None,
                announced_solve: false,
            };
            self.challenges.push(row);
            self.next_challenge_id = id + 1;
            proof {
                let rv = resp_views(remote@);
                assert(rv.skip(i as int).first() == remote@[i as int]@);
                assert(rv.skip(i as int).drop_first() =~= rv.skip(i + 1));
                assert(challenge_views(self.challenges@) =~~= pre_views.push(
                    new_challenge_view(
                        id as int,
                        ctf_id as int,
                        remote@[i as int]@.name,
                        remote@[i as int]@.category,
                        remote@[i as int]@.value,
                    ),
                ));
            }
            i += 1;
        }
        proof {
            assert(resp_views(remote@).skip(remote@.len() as int) =~= Seq::<
                ChallengeResponseView,
            >::empty());
        }
    }

    fn find_challenge_by_key(&self, ctf_id: i32, name: &str, category: &str) -> (r: Option<usize>)
        ensures
            (match r {
                Some(i) => Some(i as int),
                None => None,
            }) == first_key_match(
                challenge_views(self.challenges@),
                ctf_id as int,
                name@,
                category@,
            ),
            (match r {
                Some(i) => i < self.challenges@.len() && ctfd_key_match(
                    challenge_views(self.challenges@)[i as int],
                    ctf_id as int,
                    name@,
                    category@,
                ),
                None => true,
            }),
    {
        let ghost s = challenge_views(self.challenges@);
        let mut i: usize = 0;
        while i < self.challenges.len()
            invariant
                i <= self.challenges@.len(),
                s == challenge_views(self.challenges@),
                first_key_match(s, ctf_id as int, name@, category@) == first_key_match_from(
                    s,
                    ctf_id as int,
                    name@,
                    category@,
                    i as int,
                ),
            decreases self.challenges@.len() - i,
        {
            if self.challenges[i].ctf_id == ctf_id && str_eq(self.challenges[i].name.as_str(), name)
                && str_eq(self.challenges[i].category.as_str(), category) {
                proof {
                    assert(ctfd_key_match(s[i as int], ctf_id as int, name@, category@));
                }
                return Some(i);
            }
            proof {
                assert(!ctfd_key_match(s[i as int], ctf_id as int, name@, category@));
                assert(first_key_match_from(s, ctf_id as int, name@, category@, i as int)
                    == first_key_match_from(s, ctf_id as int, name@, category@, i + 1));
            }
            i += 1;
        }
        None
    }

    /// Maps one remote team solve to its local challenge row via the
    /// de-duplication key; a solve that maps to no row is an error the
    /// caller skips.
    pub fn map_response_to_challenge(&self, data: &TeamSolvesResponseData, ctf_id: i32) -> (r:
        Result<Challenge, StoreError>)
        ensures
            (match r {
                Ok(c) => (match first_key_match(
                    challenge_views(self.challenges@),
                    ctf_id as int,
                    data@.challenge.name,
                    data@.challenge.category,
                ) {
                    Some(i) => c@ == challenge_views(self.challenges@)[i],
                    None => false,
                }),
                Err(e) => e == StoreError::ChallengeMappingFailed && first_key_match(
                    challenge_views(self.challenges@),
                    ctf_id as int,
                    data@.challenge.name,
                    data@.challenge.category,
                ) is None,
            }),
    {
        match self.find_challenge_by_key(
            ctf_id,
            data.challenge.name.as_str(),
            data.challenge.category.as_str(),
        ) {
            Some(i) => Ok(self.challenges[i].clone()),
            None => Err(StoreError::ChallengeMappingFailed),
        }
    }

    /// One reconciliation tick over the remote team solves: every solve
    /// that maps to a local challenge, has a parseable solve date, and is
    /// not yet announced comes back as the mapped challenge annotated with
    /// its solver and solve time, in provider order. Solves that fail to
    /// map are skipped, not fatal.
    pub fn check_for_new_solves(
        &self,
        ctf_id: i32,
        remote: &Vec<TeamSolvesResponseData>,
        solver_names: &Vec<String>,
    ) -> (r: Vec<Challenge>)
        requires
            solver_names@.len() == remote@.len(),
        ensures
            challenge_views(r@) == new_solves_from(
                challenge_views(self.challenges@),
                ctf_id as int,
                solve_views(remote@),
                names_of(solver_names@),
            ),
    {
        let ghost s = challenge_views(self.challenges@);
        let ghost rem = solve_views(remote@);
        let ghost nms = names_of(solver_names@);
        let ghost total = new_solves_from(s, ctf_id as int, rem, nms);
        proof {
            assert(rem.skip(0) =~= rem);
            assert(nms.skip(0) =~= nms);
            assert(challenge_views(Seq::<Challenge>::empty()) + new_solves_from(
                s,
                ctf_id as int,
                rem,
                nms,
            ) =~= total);
        }
        let mut out: Vec<Challenge> = Vec::new();
        let mut i: usize = 0;
        while i < remote.len()
            invariant
                i <= remote@.len(),
                remote@.len() == solver_names@.len(),
                s == challenge_views(self.challenges@),
                rem == solve_views(remote@),
                nms == names_of(solver_names@),
                total == new_solves_from(s, ctf_id as int, rem, nms),
                challenge_views(out@) + new_solves_from(
                    s,
                    ctf_id as int,
                    rem.skip(i as int),
                    nms.skip(i as int),
                ) == total,
            decreases remote@.len() - i,
        {
            proof {
                assert(rem.skip(i as int).first() == remote@[i as int]@);
                assert(rem.skip(i as int).drop_first() =~= rem.skip(i + 1));
                assert(nms.skip(i as int).first() == solver_names@[i as int]@);
                assert(nms.skip(i as int).drop_first() =~= nms.skip(i + 1));
            }
            let entry = &remote[i];
            if let Some(idx) = self.find_challenge_by_key(
                ctf_id,
                entry.challenge.name.as_str(),
                entry.challenge.category.as_str(),
            ) {
                if !self.challenges[idx].announced_solve {
                    if let Some(t) = parse_datetime_unix(entry.date.as_str(), solve_date_format()) {
                        let row = {
                            let base = &self.challenges[idx];
                            Challenge {
                                id: base.id,
                                ctf_id: base.ctf_id,
                                name: base.name.clone(),
                                category: base.category.clone(),
                                solved: base.solved,
                                working: clone_string_vec(&base.working),
                                solver: Some(solver_names[i].clone()),
                                points: base.points,
                                solved_time: Some(t),
                                announced_solve: base.announced_solve,
                            }
                        };
                        proof {
                            assert(row@ =~= new_solve_of(
                                s,
                                ctf_id as int,
                                rem[i as int],
                                nms[i as int],
                            ) -> Some_0);
                        }
                        let ghost pre_out = challenge_views(out@);
                        out.push(row);
                        proof {
                            assert(challenge_views(out@) =~= pre_out.push(row@));
                        }
                    }
                }
            }
            proof {
                let stepv = new_solve_of(s, ctf_id as int, rem[i as int], nms[i as int]);
                assert(new_solves_from(s, ctf_id as int, rem.skip(i as int), nms.skip(i as int))
                    == (match stepv {
                    Some(c) => seq![c] + new_solves_from(
                        s,
                        ctf_id as int,
                        rem.skip(i + 1),
                        nms.skip(i + 1),
                    ),
                    None => new_solves_from(s, ctf_id as int, rem.skip(i + 1), nms.skip(i + 1)),
                }));
                if stepv is Some {
                    assert(challenge_views(out@) + new_solves_from(
                        s,
                        ctf_id as int,
                        rem.skip(i + 1),
                        nms.skip(i + 1),
                    ) =~= total);
                }
            }
            i += 1;
        }
        proof {
            assert(rem.skip(remote@.len() as int) =~= Seq::<TeamSolvesResponseDataView>::empty());
            assert(challenge_views(out@) + Seq::<ChallengeView>::empty() =~= challenge_views(
                out@,
            ));
        }
        out
    }

    /// Appends the team's current standing as a new scoreboard entry.
    pub fn get_and_store_scoreboard(
        &mut self,
        ctf_id: i32,
        team_stats: &MyTeamResponseData,
        now: i64,
    )
        requires
            old(self).wf(),
            old(self).next_scoreboard_entry_id < i32::MAX,
        ensures
            final(self).wf(),
            final(self).scoreboard@.len() == old(self).scoreboard@.len() + 1,
            forall|i: int|
                0 <= i < old(self).scoreboard@.len() ==> final(self).scoreboard@[i]
                    == #[trigger] old(self).scoreboard@[i],
            final(self).scoreboard@.last()@ == (ScoreboardView {
                entry_id: old(self).next_scoreboard_entry_id as int,
                ctf_id: ctf_id as int,
                points: team_stats@.score,
                position: team_stats@.place,
                entry_time: now as int,
            }),
            final(self).ctfs == old(self).ctfs,
            final(self).challenges == old(self).challenges,
            final(self).next_ctf_id == old(self).next_ctf_id,
            final(self).next_challenge_id == old(self).next_challenge_id,
            final(self).next_scoreboard_entry_id == old(self).next_scoreboard_entry_id + 1,
    {
        let entry_id = self.next_scoreboard_entry_id;
        let row = Scoreboard {
            entry_id,
            ctf_id,
            points: team_stats.score,
            position: team_stats.place.clone(),
            entry_time: now,
        };
        self.scoreboard.push(row);
        self.next_scoreboard_entry_id = entry_id + 1;
    }

    /// The most recent scoreboard entry of a competition, or an error when
    /// it has none.
    pub fn get_latest_scoreboard_status(&self, ctf_id: i32) -> (r: Result<Scoreboard, StoreError>)
        ensures
            (match r {
                Ok(sb) => latest_scoreboard_for(scoreboard_views(self.scoreboard@), ctf_id as int)
                    == Some(sb@),
                Err(e) => e == StoreError::NoScoreboardEntry && latest_scoreboard_for(
                    scoreboard_views(self.scoreboard@),
                    ctf_id as int,
                ) is None,
            }),
    {
        let ghost s = scoreboard_views(self.scoreboard@);
        let mut i: usize = self.scoreboard.len();
        while i > 0
            invariant
                i <= self.scoreboard@.len(),
                s == scoreboard_views(self.scoreboard@),
                latest_scoreboard_for(s, ctf_id as int) == last_scoreboard_from(
                    s,
                    ctf_id as int,
                    i as int,
                ),
            decreases i,
        {
            i -= 1;
            if self.scoreboard[i].ctf_id == ctf_id {
                proof {
                    assert(last_scoreboard_from(s, ctf_id as int, i + 1) == Some(s[i as int]));
                }
                return Ok(self.scoreboard[i].clone());
            }
            proof {
                assert(last_scoreboard_from(s, ctf_id as int, i + 1) == last_scoreboard_from(
                    s,
                    ctf_id as int,
                    i as int,
                ));
            }
        }
        Err(StoreError::NoScoreboardEntry)
    }

    /// The id of the first competition with the given name, if any.
    pub fn get_ctf_id_from_name(&self, name: &str) -> (r: Option<i32>)
        ensures
            (match r {
                Some(id) => exists|i: int|
                    0 <= i < self.ctfs@.len() && #[trigger] self.ctfs@[i]@.name == name@
                        && self.ctfs@[i]@.id == id as int && (forall|j: int|
                        0 <= j < i ==> #[trigger] self.ctfs@[j]@.name != name@),
                None => forall|i: int|
                    0 <= i < self.ctfs@.len() ==> #[trigger] self.ctfs@[i]@.name != name@,
            }),
    {
        let mut i: usize = 0;
        while i < self.ctfs.len()
            invariant
                i <= self.ctfs@.len(),
                forall|j: int| 0 <= j < i ==> #[trigger] self.ctfs@[j]@.name != name@,
            decreases self.ctfs@.len() - i,
        {
            if str_eq(self.ctfs[i].name.as_str(), name) {
                proof {
                    assert(self.ctfs@[i as int]@.name == name@);
                }
                return Some(self.ctfs[i].id);
            }
            i += 1;
        }
        None
    }
}

} // verus!
