//! The battle itself: the turn state machine, the end-condition evaluator
//! and the top-level owner of the battling teams.

use vstd::prelude::*;

use crate::action::{resolved_ids, Action, Context, Target};
use crate::member::{Member, MemberIdentifier, Properties};
use crate::search::{
    lemma_spec_search_resolves, spec_search, AliveCondition, FilterCriteria,
    SuggestedPerformerCriteria,
};
use crate::team::{
    id_resolves, lemma_same_shape_refl, lemma_same_shape_resolves, lemma_same_shape_trans,
    lemma_team_list_len_bounded, teams_same_shape, Team,
};

verus! {

/// Condition deciding when a battle is over.
#[derive(Debug, Clone, Copy, PartialEq, Eq)]
pub enum EndCondition {
    /// End the battle if only one member is "alive" in the whole battle.
    ///
    /// It is up to the developer to ensure a way to resolve stalemates if
    /// more members of the same team remain alive.
    LastMemberStanding,
    /// End the battle if only one battling team has any "alive" members.
    ///
    /// This is the most common end condition for team-to-team fighting.
    LastTeamStanding,
}

/// Current state of a [`Battle`].
pub enum State {
    /// The battle has yet to start.
    Preparating,
    InProgress,
    Finished,
}

/// A fatal programming-contract violation, surfaced at the run-loop
/// boundary as an explicit error instead of a panic. It is never retried.
#[derive(Debug, Clone, Copy, PartialEq, Eq)]
pub enum FatalError {
    /// The turn counter cannot count one more turn.
    TurnCounterOverflow,
}

/// Number of alive members among the first `n` entries of `members`.
pub open spec fn alive_in_first<M: Member>(members: Seq<M>, n: int) -> nat
    decreases n,
{
    if n <= 0 {
        0
    } else {
        alive_in_first(members, n - 1) + if members[n - 1].spec_properties().spec_health() > 0 {
            1nat
        } else {
            0nat
        }
    }
}

/// Number of alive members of one team.
pub open spec fn team_alive_count<M: Member>(t: Team<M>) -> nat {
    alive_in_first(t@.members, t@.members.len() as int)
}

/// Number of alive members among the first `n` teams.
pub open spec fn alive_members_in_first<M: Member>(teams: Seq<Team<M>>, n: int) -> nat
    decreases n,
{
    if n <= 0 {
        0
    } else {
        alive_members_in_first(teams, n - 1) + team_alive_count(teams[n - 1])
    }
}

/// Number of alive members summed across all teams.
pub open spec fn alive_member_count<M: Member>(teams: Seq<Team<M>>) -> nat {
    alive_members_in_first(teams, teams.len() as int)
}

/// Whether at least one member of the team is alive.
pub open spec fn team_has_alive<M: Member>(t: Team<M>) -> bool {
    exists|j: int| 0 <= j < t@.members.len() && t@.members[j].spec_properties().spec_health() > 0
}

/// Number of teams with at least one alive member, among the first `n`.
pub open spec fn alive_teams_in_first<M: Member>(teams: Seq<Team<M>>, n: int) -> nat
    decreases n,
{
    if n <= 0 {
        0
    } else {
        alive_teams_in_first(teams, n - 1) + if team_has_alive(teams[n - 1]) {
            1nat
        } else {
            0nat
        }
    }
}

/// Number of teams with at least one alive member.
pub open spec fn alive_team_count<M: Member>(teams: Seq<Team<M>>) -> nat {
    alive_teams_in_first(teams, teams.len() as int)
}

/// Whether the battle is over: fewer than two alive members in the whole
/// battle under `LastMemberStanding`, fewer than two teams with an alive
/// member under `LastTeamStanding`.
pub open spec fn should_end<M: Member>(condition: EndCondition, teams: Seq<Team<M>>) -> bool {
    match condition {
        EndCondition::LastMemberStanding => alive_member_count(teams) < 2,
        EndCondition::LastTeamStanding => alive_team_count(teams) < 2,
    }
}

proof fn lemma_alive_in_first_mono<M: Member>(members: Seq<M>, a: int, b: int)
    requires
        a <= b,
    ensures
        alive_in_first(members, a) <= alive_in_first(members, b),
    decreases b - a,
{
    if a < b {
        lemma_alive_in_first_mono(members, a, b - 1);
    }
}

proof fn lemma_alive_members_in_first_mono<M: Member>(teams: Seq<Team<M>>, a: int, b: int)
    requires
        a <= b,
    ensures
        alive_members_in_first(teams, a) <= alive_members_in_first(teams, b),
    decreases b - a,
{
    if a < b {
        lemma_alive_members_in_first_mono(teams, a, b - 1);
    }
}

proof fn lemma_alive_teams_in_first_mono<M: Member>(teams: Seq<Team<M>>, a: int, b: int)
    requires
        a <= b,
    ensures
        alive_teams_in_first(teams, a) <= alive_teams_in_first(teams, b),
    decreases b - a,
{
    if a < b {
        lemma_alive_teams_in_first_mono(teams, a, b - 1);
    }
}

proof fn lemma_member_count_at_least<M: Member>(teams: Seq<Team<M>>, t: int, j: int)
    requires
        0 <= t < teams.len(),
        0 <= j <= teams[t]@.members.len(),
    ensures
        alive_member_count(teams) >= alive_members_in_first(teams, t) + alive_in_first(
            teams[t]@.members,
            j,
        ),
{
    lemma_alive_in_first_mono(teams[t]@.members, j, teams[t]@.members.len() as int);
    assert(alive_members_in_first(teams, t + 1) == alive_members_in_first(teams, t)
        + team_alive_count(teams[t]));
    lemma_alive_members_in_first_mono(teams, t + 1, teams.len() as int);
}

proof fn lemma_team_count_at_least<M: Member>(teams: Seq<Team<M>>, t: int)
    requires
        0 <= t < teams.len(),
    ensures
        alive_team_count(teams) >= alive_teams_in_first(teams, t + 1),
{
    lemma_alive_teams_in_first_mono(teams, t + 1, teams.len() as int);
}

/// Whether any member of `members` is alive, scanning in index order and
/// stopping at the first one found.
fn any_alive<M: Member>(members: &[M]) -> (r: bool)
    ensures
        r == exists|j: int|
            0 <= j < members@.len() && members@[j].spec_properties().spec_health() > 0,
{
    let mut j: usize = 0;
    while j < members.len()
        invariant
            0 <= j <= members@.len(),
            forall|x: int| 0 <= x < j ==> members@[x].spec_properties().spec_health() == 0,
        decreases members@.len() - j,
    {
        if members[j].health() > 0 {
            return true;
        }
        j += 1;
    }
    false
}

/// Information needed to start a new [`Battle`].
///
/// Here can be stored all sorts of specific infos, like the first
/// team/player that has to play.
#[non_exhaustive]
pub struct StartupInfo {}

/// Handler of the turn-based combat.
///
/// Stores information about the turn cycle and the current playing member.
pub struct TurnSystem {
    turn_number: u64,
    suggested_performer: Option<MemberIdentifier>,
    end_condition: EndCondition,
}

impl TurnSystem {
    /// How many turns have been played.
    pub closed spec fn spec_turn_number(&self) -> u64 {
        self.turn_number
    }

    /// The member suggested to perform the next turn, if any.
    pub closed spec fn spec_suggested_performer(&self) -> Option<MemberIdentifier> {
        self.suggested_performer
    }

    /// The configured end condition.
    pub closed spec fn spec_end_condition(&self) -> EndCondition {
        self.end_condition
    }

    pub fn new(starting_member: MemberIdentifier, end_condition: EndCondition) -> (t: Self)
        ensures
            t.spec_turn_number() == 0,
            t.spec_suggested_performer() == Some(starting_member),
            t.spec_end_condition() == end_condition,
    {
        Self { turn_number: 0, suggested_performer: Some(starting_member), end_condition }
    }

    /// Returns whether or not the battle should continue, by inspecting the
    /// health of every member until the verdict is settled.
    pub fn battle_should_end<M: Member>(&self, team_list: &[Team<M>]) -> (r: bool)
        ensures
            r == should_end(self.spec_end_condition(), team_list@),
    {
        let ghost teams = team_list@;
        match self.end_condition {
            EndCondition::LastMemberStanding => {
                let mut members_alive: u8 = 0;
                let mut t: usize = 0;
                while t < team_list.len()
                    invariant
                        0 <= t <= teams.len(),
                        teams == team_list@,
                        self.spec_end_condition() is LastMemberStanding,
                        members_alive < 2,
                        members_alive as nat == alive_members_in_first(teams, t as int),
                    decreases teams.len() - t,
                {
                    let members = team_list[t].member_list();
                    let mut j: usize = 0;
                    while j < members.len()
                        invariant
                            0 <= j <= members@.len(),
                            0 <= t < teams.len(),
                            teams == team_list@,
                            self.spec_end_condition() is LastMemberStanding,
                            members@ == teams[t as int]@.members,
                            members_alive < 2,
                            members_alive as nat == alive_members_in_first(teams, t as int)
                                + alive_in_first(members@, j as int),
                        decreases members@.len() - j,
                    {
                        if members[j].health() > 0 {
                            members_alive = members_alive + 1;
                            // Once two alive members are found, the battle
                            // is known to continue.
                            if members_alive >= 2 {
                                proof {
                                    assert(alive_in_first(members@, j as int + 1) == alive_in_first(
                                        members@,
                                        j as int,
                                    ) + 1);
                                    lemma_member_count_at_least(teams, t as int, j as int + 1);
                                    assert(alive_member_count(teams) >= 2);
                                }
                                return false;
                            }
                        }
                        j += 1;
                    }
                    t += 1;
                }
                true
            },
            EndCondition::LastTeamStanding => {
                let mut teams_alive: u8 = 0;
                let mut t: usize = 0;
                while t < team_list.len()
                    invariant
                        0 <= t <= teams.len(),
                        teams == team_list@,
                        self.spec_end_condition() is LastTeamStanding,
                        teams_alive < 2,
                        teams_alive as nat == alive_teams_in_first(teams, t as int),
                    decreases teams.len() - t,
                {
                    if any_alive(team_list[t].member_list()) {
                        teams_alive = teams_alive + 1;
                        // Once two teams with alive members are found, the
                        // battle is known to continue.
                        if teams_alive >= 2 {
                            proof {
                                assert(team_has_alive(teams[t as int]));
                                assert(alive_teams_in_first(teams, t as int + 1)
                                    == alive_teams_in_first(teams, t as int) + 1);
                                lemma_team_count_at_least(teams, t as int);
                                assert(alive_team_count(teams) >= 2);
                            }
                            return false;
                        }
                    }
                    t += 1;
                }
                true
            },
        }
    }

    fn suggest_next_performer<M: Member, P: FilterCriteria<M>>(
        &self,
        team_list: &[Team<M>],
        suggested_performer_criteria: &SuggestedPerformerCriteria<P>,
    ) -> (r: Option<MemberIdentifier>)
        ensures
            r == spec_search(
                *suggested_performer_criteria,
                self.spec_suggested_performer(),
                team_list@,
            ),
    {
        suggested_performer_criteria.search(self.suggested_performer, team_list)
    }

    /// Simulate one turn of the battle.
    ///
    /// One turn is counted, the decision callback picks an action with its
    /// performers and targets, the action is applied, the end condition is
    /// evaluated, and when the battle goes on the next performer is
    /// suggested.
    pub fn play_turn<M, A, P, F>(
        &mut self,
        team_list: &mut Vec<Team<M>>,
        action_choice_callback: &F,
        suggested_performer_criteria: &SuggestedPerformerCriteria<P>,
    ) -> (s: State) where
        M: Member,
        A: Action<M>,
        P: FilterCriteria<M>,
        F: Fn(&[Team<M>], Option<MemberIdentifier>) -> (A, Target, Target),

        requires
            old(self).spec_turn_number() < u64::MAX,
            old(self).spec_suggested_performer() matches Some(id) ==> id_resolves(
                id,
                old(team_list)@,
            ),
            forall|tl: &[Team<M>], sp: Option<MemberIdentifier>|
                call_requires(*action_choice_callback, (tl, sp)),
        ensures
            final(self).spec_end_condition() == old(self).spec_end_condition(),
            final(self).spec_turn_number() == old(self).spec_turn_number() + 1,
            teams_same_shape(old(team_list)@, final(team_list)@),
            exists|tl: &[Team<M>], ret: (A, Target, Target)|
                {
                    &&& tl@ == old(team_list)@
                    &&& call_ensures(
                        *action_choice_callback,
                        (tl, old(self).spec_suggested_performer()),
                        ret,
                    )
                    &&& ret.0.ens(
                        resolved_ids(ret.1, old(team_list)@),
                        resolved_ids(ret.2, old(team_list)@),
                        old(team_list)@,
                        final(team_list)@,
                    )
                },
            (s is Finished) == should_end(old(self).spec_end_condition(), final(team_list)@),
            s is Finished ==> final(self).spec_suggested_performer() == old(
                self,
            ).spec_suggested_performer(),
            !(s is Finished) ==> s is InProgress && final(self).spec_suggested_performer()
                == spec_search(
                *suggested_performer_criteria,
                old(self).spec_suggested_performer(),
                final(team_list)@,
            ),
    {
        // Count the new turn; the caller rules out overflow, which would be
        // a fatal contract violation.
        self.turn_number = self.turn_number + 1;

        let suggested = self.suggested_performer;
        let teams_slice = team_list.as_slice();
        let ghost gslice = teams_slice;
        let (mut action, performers, targets) = (action_choice_callback)(teams_slice, suggested);
        let ghost gaction = action;
        let ghost gperformers = performers;
        let ghost gtargets = targets;

        // Set up the chosen action over the resolved coordinates and let it
        // mutate the members it points at.
        let context = Context::new(team_list, performers, targets);
        action.act(&context, team_list);

        proof {
            assert(gslice@ == old(team_list)@);
            assert(call_ensures(
                *action_choice_callback,
                (gslice, old(self).spec_suggested_performer()),
                (gaction, gperformers, gtargets),
            ));
            assert(gaction.ens(
                resolved_ids(gperformers, old(team_list)@),
                resolved_ids(gtargets, old(team_list)@),
                old(team_list)@,
                team_list@,
            ));
        }

        // Check whether the battle should continue or whether it's finished.
        if self.battle_should_end(team_list.as_slice()) {
            return State::Finished;
        }

        let next = self.suggest_next_performer(team_list.as_slice(), suggested_performer_criteria);
        self.suggested_performer = next;

        State::InProgress
    }
}

/// Defaults to using the first given team and its first given member as
/// starters of the [`Battle`], with a
/// [`LastTeamStanding`](EndCondition::LastTeamStanding) end condition.
impl Default for TurnSystem {
    fn default() -> (t: Self)
        ensures
            t.spec_turn_number() == 0,
            t.spec_suggested_performer() == Some(MemberIdentifier { team_id: 0, member_id: 0 }),
            t.spec_end_condition() == EndCondition::LastTeamStanding,
    {
        Self::new(MemberIdentifier::zeroed(), EndCondition::LastTeamStanding)
    }
}

/// Instance of a unique fight between multiple [`Team`]s.
///
/// `F` is the decision callback picking each turn's action, and `P` the
/// qualifying criterion used when a
/// [`CycleWith`](SuggestedPerformerCriteria::CycleWith) suggestion policy is
/// configured.
pub struct Battle<M, F, P = AliveCondition> {
    /// List of all teams involved in the battle.
    team_list: Vec<Team<M>>,
    #[allow(dead_code)]
    startup: Option<StartupInfo>,
    /// Turn system in charge of handling turns and actions of the battle.
    turn_system: TurnSystem,
    /// Current battle state.
    state: State,
    suggested_performer_criteria: SuggestedPerformerCriteria<P>,
    action_choice_callback: F,
}

pub struct Builder<M, F, P = AliveCondition> {
    inner: Battle<M, F, P>,
}

impl<M: Member, F, P> Battle<M, F, P> {
    /// The battling teams.
    pub closed spec fn spec_teams(&self) -> Seq<Team<M>> {
        self.team_list@
    }

    /// The current lifecycle state.
    pub closed spec fn spec_state(&self) -> State {
        self.state
    }

    /// The turn bookkeeping.
    pub closed spec fn spec_turn_system(&self) -> TurnSystem {
        self.turn_system
    }

    /// The configured suggestion criterion.
    pub closed spec fn spec_criteria(&self) -> SuggestedPerformerCriteria<P> {
        self.suggested_performer_criteria
    }

    /// The configured decision callback.
    pub closed spec fn spec_callback(&self) -> F {
        self.action_choice_callback
    }

    /// The battle's bookkeeping is consistent: a configured constant
    /// suggestion points at an existing member, and so does the currently
    /// suggested performer, when there is one.
    pub open spec fn wf(&self) -> bool {
        &&& (self.spec_criteria() matches SuggestedPerformerCriteria::Constant(id)
            ==> id_resolves(id, self.spec_teams()))
        &&& (self.spec_turn_system().spec_suggested_performer() matches Some(id) ==> id_resolves(
            id,
            self.spec_teams(),
        ))
    }

    /// Returns whether this [`Battle`] has completed or not.
    pub fn is_finished(&self) -> (r: bool)
        ensures
            r == (self.spec_state() is Finished),
    {
        match self.state {
            State::Finished => true,
            _ => false,
        }
    }

    /// Signal the completion of the [`Battle`] to stop its execution.
    ///
    /// It is necessary to run at least one more turn using
    /// [`Battle::play_turn`] for the battle's end to be properly handled.
    pub fn set_completed(&mut self)
        ensures
            final(self).spec_state() is Finished,
            final(self).spec_teams() == old(self).spec_teams(),
            final(self).spec_turn_system() == old(self).spec_turn_system(),
            final(self).spec_criteria() == old(self).spec_criteria(),
            final(self).spec_callback() == old(self).spec_callback(),
    {
        self.state = State::Finished;
    }

    /// Returns a read-only view of the current state of the battling teams.
    pub fn teams(&self) -> (r: &[Team<M>])
        ensures
            r@ == self.spec_teams(),
    {
        self.team_list.as_slice()
    }

    /// Unwrap the [`Battle`] instance and return the state of its
    /// participants.
    pub fn take_teams(self) -> (r: Vec<Team<M>>)
        ensures
            r@ == self.spec_teams(),
    {
        self.team_list
    }
}

impl<M: Member, F, P: FilterCriteria<M>> Battle<M, F, P> {
    /// Runs a [`Battle`] for exactly one turn.
    ///
    /// Nothing will be done if the battle's state indicates it has already
    /// completed.
    pub fn play_turn<A>(&mut self) where
        A: Action<M>,
        F: Fn(&[Team<M>], Option<MemberIdentifier>) -> (A, Target, Target),

        requires
            old(self).wf(),
            forall|tl: &[Team<M>], sp: Option<MemberIdentifier>|
                call_requires(old(self).spec_callback(), (tl, sp)),
            !(old(self).spec_state() is Finished) ==> old(
                self,
            ).spec_turn_system().spec_turn_number() < u64::MAX,
        ensures
            final(self).wf(),
            final(self).spec_callback() == old(self).spec_callback(),
            final(self).spec_criteria() == old(self).spec_criteria(),
            final(self).spec_turn_system().spec_end_condition() == old(
                self,
            ).spec_turn_system().spec_end_condition(),
            old(self).spec_state() is Finished ==> *final(self) == *old(self),
            !(old(self).spec_state() is Finished) ==> {
                &&& teams_same_shape(old(self).spec_teams(), final(self).spec_teams())
                &&& final(self).spec_turn_system().spec_turn_number() == old(
                    self,
                ).spec_turn_system().spec_turn_number() + 1
                &&& (final(self).spec_state() is Finished <==> should_end(
                    old(self).spec_turn_system().spec_end_condition(),
                    final(self).spec_teams(),
                ))
                &&& (!(final(self).spec_state() is Finished) ==> final(self).spec_state() is InProgress)
                &&& exists|tl: &[Team<M>], ret: (A, Target, Target)|
                    {
                        &&& tl@ == old(self).spec_teams()
                        &&& call_ensures(
                            old(self).spec_callback(),
                            (tl, old(self).spec_turn_system().spec_suggested_performer()),
                            ret,
                        )
                        &&& ret.0.ens(
                            resolved_ids(ret.1, old(self).spec_teams()),
                            resolved_ids(ret.2, old(self).spec_teams()),
                            old(self).spec_teams(),
                            final(self).spec_teams(),
                        )
                    }
            },
    {
        if self.is_finished() {
            return ;
        }

        proof {
            assert(self.action_choice_callback == old(self).spec_callback());
            assert(forall|tl: &[Team<M>], sp: Option<MemberIdentifier>|
                call_requires(self.action_choice_callback, (tl, sp)));
        }
        let s = self.turn_system.play_turn(
            &mut self.team_list,
            &self.action_choice_callback,
            &self.suggested_performer_criteria,
        );
        self.state = s;

        proof {
            lemma_team_list_len_bounded(&self.team_list);
            if self.state is Finished {
                if let Some(id) = self.turn_system.spec_suggested_performer() {
                    lemma_same_shape_resolves(old(self).spec_teams(), self.team_list@, id);
                }
            } else {
                lemma_spec_search_resolves(
                    self.suggested_performer_criteria,
                    old(self).spec_turn_system().spec_suggested_performer(),
                    self.team_list@,
                );
            }
            if let SuggestedPerformerCriteria::Constant(id) = self.spec_criteria() {
                lemma_same_shape_resolves(old(self).spec_teams(), self.team_list@, id);
            }
        }
    }

    /// Runs a [`Battle`] to completion, returning the final state of the
    /// battling teams.
    ///
    /// The winner will be declared by the end of this function. Should the
    /// turn counter ever be exhausted first, the fatal condition is
    /// reported as an error instead of another turn being played.
    pub fn run<A>(self) -> (r: Result<Vec<Team<M>>, FatalError>) where
        A: Action<M>,
        F: Fn(&[Team<M>], Option<MemberIdentifier>) -> (A, Target, Target),

        requires
            self.wf(),
            forall|tl: &[Team<M>], sp: Option<MemberIdentifier>|
                call_requires(self.spec_callback(), (tl, sp)),
        ensures
            r matches Ok(teams) ==> {
                &&& teams_same_shape(self.spec_teams(), teams@)
                &&& (self.spec_state() is Finished ==> teams@ == self.spec_teams())
                &&& (!(self.spec_state() is Finished) ==> should_end(
                    self.spec_turn_system().spec_end_condition(),
                    teams@,
                ))
            },
            r matches Err(e) ==> e == FatalError::TurnCounterOverflow && !(
            self.spec_state() is Finished),
    {
        let mut battle = self;
        let ghost orig = battle;
        proof {
            lemma_same_shape_refl(orig.spec_teams());
        }
        loop
            invariant
                battle.wf(),
                forall|tl: &[Team<M>], sp: Option<MemberIdentifier>|
                    call_requires(battle.spec_callback(), (tl, sp)),
                battle.spec_turn_system().spec_end_condition()
                    == orig.spec_turn_system().spec_end_condition(),
                teams_same_shape(orig.spec_teams(), battle.spec_teams()),
                battle.spec_state() is Finished ==> battle.spec_teams() == orig.spec_teams()
                    && orig.spec_state() is Finished,
                orig.spec_state() is Finished ==> battle == orig,
                orig == self,
            decreases u64::MAX - battle.turn_system.turn_number,
        {
            if !battle.is_finished() && battle.turn_system.turn_number == u64::MAX {
                return Err(FatalError::TurnCounterOverflow);
            }

            let ghost before = battle;
            battle.play_turn();

            if battle.is_finished() {
                proof {
                    if !(before.spec_state() is Finished) {
                        lemma_same_shape_trans(
                            orig.spec_teams(),
                            before.spec_teams(),
                            battle.spec_teams(),
                        );
                    }
                }
                return Ok(battle.take_teams());
            }
            proof {
                lemma_same_shape_trans(orig.spec_teams(), before.spec_teams(), battle.spec_teams());
            }
        }
    }
}

impl<M: Member, F, P> Builder<M, F, P> {
    /// The battle being configured.
    pub closed spec fn spec_inner(&self) -> Battle<M, F, P> {
        self.inner
    }

    /// Set the criteria used to suggest the performing member.
    ///
    /// By default, [`SuggestedPerformerCriteria::CycleAlive`] is used, as it
    /// is the norm for many RPGs.
    pub fn set_suggested_performer_criteria<Q>(
        self,
        criteria: SuggestedPerformerCriteria<Q>,
    ) -> (b: Builder<M, F, Q>)
        ensures
            b.spec_inner().spec_criteria() == criteria,
            b.spec_inner().spec_teams() == self.spec_inner().spec_teams(),
            b.spec_inner().spec_state() == self.spec_inner().spec_state(),
            b.spec_inner().spec_turn_system() == self.spec_inner().spec_turn_system(),
            b.spec_inner().spec_callback() == self.spec_inner().spec_callback(),
    {
        Builder {
            inner: Battle {
                team_list: self.inner.team_list,
                startup: self.inner.startup,
                turn_system: self.inner.turn_system,
                state: self.inner.state,
                suggested_performer_criteria: criteria,
                action_choice_callback: self.inner.action_choice_callback,
            },
        }
    }

    pub fn build(self) -> (battle: Battle<M, F, P>)
        ensures
            battle == self.spec_inner(),
    {
        self.inner
    }
}

impl<M: Member, F> Builder<M, F, AliveCondition> {
    pub fn new(
        team_list: Vec<Team<M>>,
        startup: Option<StartupInfo>,
        action_choice_callback: F,
        end_condition: EndCondition,
    ) -> (b: Self)
        ensures
            b.spec_inner().spec_teams() == team_list@,
            b.spec_inner().spec_state() is Preparating,
            b.spec_inner().spec_turn_system().spec_turn_number() == 0,
            b.spec_inner().spec_turn_system().spec_suggested_performer() == Some(
                MemberIdentifier { team_id: 0, member_id: 0 },
            ),
            b.spec_inner().spec_turn_system().spec_end_condition() == end_condition,
            b.spec_inner().spec_criteria() is CycleAlive,
            b.spec_inner().spec_callback() == action_choice_callback,
    {
        Self {
            inner: Battle {
                team_list,
                startup,
                turn_system: TurnSystem::new(MemberIdentifier::zeroed(), end_condition),
                state: State::Preparating,
                suggested_performer_criteria: SuggestedPerformerCriteria::CycleAlive,
                action_choice_callback,
            },
        }
    }
}

} // verus!
