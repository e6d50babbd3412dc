//! Actions and targeting: descriptors of who performs and who is affected,
//! and their resolution into concrete member coordinates.

use vstd::prelude::*;

use crate::member::{Member, MemberIdentifier};
use crate::team::{
    id_resolves, lemma_team_list_len_bounded, lemma_team_members_len_bounded, roster_ids,
    roster_ids_first, team_scan, teams_same_shape, Team,
};

verus! {

/// Single or multiple targets being affected by an action.
///
/// It may also refer to the action's performer.
#[derive(Debug, Clone, PartialEq, Eq)]
pub enum Target {
    /// No target is affected by the action.
    Nobody,
    /// A single member is affected by the action.
    Single(MemberIdentifier),
    /// A specific choice of members is affected by the action.
    ///
    /// Any duplicate [`MemberIdentifier`] will be considered only once.
    DiscreteMultiple(Vec<MemberIdentifier>),
    /// A whole team is affected by the action.
    FullTeam { team_id: usize },
    /// All members of all teams are affected by the action.
    All,
}

/// The identifiers of team `team_id`'s members with index below `end` that
/// are selected by `ids`, in index order.
pub open spec fn scan_filter(team_id: int, end: int, ids: Seq<MemberIdentifier>) -> Seq<
    MemberIdentifier,
>
    decreases end,
{
    if end <= 0 {
        Seq::empty()
    } else {
        let id = MemberIdentifier { team_id: team_id as usize, member_id: (end - 1) as usize };
        scan_filter(team_id, end - 1, ids) + if ids.contains(id) {
            seq![id]
        } else {
            Seq::empty()
        }
    }
}

/// The members of the first `n` teams selected by `ids`, in roster order.
pub open spec fn discrete_ids_first<M: Member>(
    teams: Seq<Team<M>>,
    ids: Seq<MemberIdentifier>,
    n: int,
) -> Seq<MemberIdentifier>
    decreases n,
{
    if n <= 0 {
        Seq::empty()
    } else {
        discrete_ids_first(teams, ids, n - 1) + scan_filter(
            n - 1,
            teams[n - 1]@.members.len() as int,
            ids,
        )
    }
}

/// The distinct existing members selected by `ids`, in roster order.
pub open spec fn discrete_ids<M: Member>(teams: Seq<Team<M>>, ids: Seq<MemberIdentifier>) -> Seq<
    MemberIdentifier,
> {
    discrete_ids_first(teams, ids, teams.len() as int)
}

/// The member coordinates a [`Target`] denotes within `teams`:
///
/// - `Nobody` denotes nobody;
/// - `Single(id)` denotes `id` when it resolves, nobody otherwise;
/// - `DiscreteMultiple(ids)` denotes each distinct resolving entry of `ids`,
///   in roster order;
/// - `FullTeam { team_id }` denotes every member of that team, in index
///   order, or nobody when the team does not exist;
/// - `All` denotes every member of every team, in team order, then in
///   member-index order.
pub open spec fn resolved_ids<M: Member>(target: Target, teams: Seq<Team<M>>) -> Seq<
    MemberIdentifier,
> {
    match target {
        Target::Nobody => Seq::empty(),
        Target::Single(id) => if id_resolves(id, teams) {
            seq![id]
        } else {
            Seq::empty()
        },
        Target::DiscreteMultiple(ids) => discrete_ids(teams, ids@),
        Target::FullTeam { team_id } => if (team_id as int) < teams.len() {
            team_scan(team_id as int, 0, teams[team_id as int]@.members.len() as int)
        } else {
            Seq::empty()
        },
        Target::All => roster_ids(teams),
    }
}

/// Whether every identifier of `ids` resolves in `teams` and no identifier
/// occurs twice.
pub open spec fn ids_valid<M: Member>(ids: Seq<MemberIdentifier>, teams: Seq<Team<M>>) -> bool {
    &&& forall|k: int| 0 <= k < ids.len() ==> id_resolves(#[trigger] ids[k], teams)
    &&& ids.no_duplicates()
}

/// Membership in a concatenation: in the left part or in the right part.
pub proof fn lemma_add_contains<A>(a: Seq<A>, b: Seq<A>, x: A)
    ensures
        (a + b).contains(x) <==> a.contains(x) || b.contains(x),
{
    if a.contains(x) {
        let i = choose|i: int| 0 <= i < a.len() && a[i] == x;
        assert((a + b)[i] == x);
    }
    if b.contains(x) {
        let i = choose|i: int| 0 <= i < b.len() && b[i] == x;
        assert((a + b)[a.len() + i] == x);
    }
    if (a + b).contains(x) {
        let i = choose|i: int| 0 <= i < (a + b).len() && (a + b)[i] == x;
        if i < a.len() {
            assert(a[i] == x);
        } else {
            assert(b[i - a.len()] == x);
        }
    }
}

proof fn lemma_add_no_duplicates<A>(a: Seq<A>, b: Seq<A>)
    requires
        a.no_duplicates(),
        b.no_duplicates(),
        forall|x: A| !(a.contains(x) && b.contains(x)),
    ensures
        (a + b).no_duplicates(),
{
    assert forall|i: int, j: int|
        0 <= i < (a + b).len() && 0 <= j < (a + b).len() && i != j implies (a + b)[i] != (a
        + b)[j] by {
        if i < a.len() && j >= a.len() {
            assert(a.contains((a + b)[i]));
            assert(b.contains((a + b)[j]));
        }
        if i >= a.len() && j < a.len() {
            assert(a.contains((a + b)[j]));
            assert(b.contains((a + b)[i]));
        }
    }
}

/// Membership in a team scan: exactly the ids of that team with an index in
/// the scanned range.
pub proof fn lemma_team_scan_contains(team_id: int, start: int, end: int, id: MemberIdentifier)
    requires
        0 <= team_id <= usize::MAX,
        0 <= start,
        end <= usize::MAX,
    ensures
        team_scan(team_id, start, end).contains(id) <==> (id.team_id == team_id && start
            <= id.member_id < end),
{
    let s = team_scan(team_id, start, end);
    if id.team_id == team_id && start <= id.member_id < end {
        assert(s[id.member_id - start] == id);
    }
    if s.contains(id) {
        let j = choose|j: int| 0 <= j < s.len() && s[j] == id;
        assert(id.member_id == start + j);
    }
}

/// A team scan never mentions the same member twice.
pub proof fn lemma_team_scan_no_duplicates(team_id: int, start: int, end: int)
    requires
        0 <= start,
        end <= usize::MAX,
    ensures
        team_scan(team_id, start, end).no_duplicates(),
{
    let s = team_scan(team_id, start, end);
    assert forall|i: int, j: int| 0 <= i < s.len() && 0 <= j < s.len() && i != j implies s[i]
        != s[j] by {
        assert(s[i].member_id == start + i);
        assert(s[j].member_id == start + j);
    }
}

proof fn lemma_roster_first_contains<M: Member>(teams: Seq<Team<M>>, n: int, id: MemberIdentifier)
    requires
        n <= usize::MAX,
    ensures
        roster_ids_first(teams, n).contains(id) <==> (id.team_id < n && id.member_id < teams[(
        id.team_id as int)]@.members.len()),
    decreases n,
{
    if n > 0 {
        lemma_team_members_len_bounded(teams[n - 1]);
        lemma_roster_first_contains(teams, n - 1, id);
        lemma_team_scan_contains(n - 1, 0, teams[n - 1]@.members.len() as int, id);
        lemma_add_contains(
            roster_ids_first(teams, n - 1),
            team_scan(n - 1, 0, teams[n - 1]@.members.len() as int),
            id,
        );
    }
}

proof fn lemma_roster_first_no_duplicates<M: Member>(teams: Seq<Team<M>>, n: int)
    requires
        n <= usize::MAX,
    ensures
        roster_ids_first(teams, n).no_duplicates(),
    decreases n,
{
    if n <= 0 {
    } else {
        let a = roster_ids_first(teams, n - 1);
        let b = team_scan(n - 1, 0, teams[n - 1]@.members.len() as int);
        lemma_team_members_len_bounded(teams[n - 1]);
        lemma_roster_first_no_duplicates(teams, n - 1);
        lemma_team_scan_no_duplicates(n - 1, 0, teams[n - 1]@.members.len() as int);
        assert forall|x: MemberIdentifier| !(a.contains(x) && b.contains(x)) by {
            lemma_roster_first_contains(teams, n - 1, x);
            lemma_team_scan_contains(n - 1, 0, teams[n - 1]@.members.len() as int, x);
        }
        lemma_add_no_duplicates(a, b);
    }
}

/// The full roster lists exactly the resolving identifiers, each once.
pub proof fn lemma_roster_ids_valid<M: Member>(teams: Seq<Team<M>>)
    requires
        teams.len() <= usize::MAX,
    ensures
        roster_ids(teams).no_duplicates(),
        forall|id: MemberIdentifier| roster_ids(teams).contains(id) <==> id_resolves(id, teams),
{
    lemma_roster_first_no_duplicates(teams, teams.len() as int);
    assert forall|id: MemberIdentifier| roster_ids(teams).contains(id) <==> id_resolves(
        id,
        teams,
    ) by {
        lemma_roster_first_contains(teams, teams.len() as int, id);
    }
}

proof fn lemma_scan_filter_contains(
    team_id: int,
    end: int,
    ids: Seq<MemberIdentifier>,
    id: MemberIdentifier,
)
    requires
        0 <= team_id <= usize::MAX,
        end <= usize::MAX,
    ensures
        scan_filter(team_id, end, ids).contains(id) <==> (id.team_id == team_id && id.member_id
            < end && ids.contains(id)),
    decreases end,
{
    if end > 0 {
        let last = MemberIdentifier {
            team_id: team_id as usize,
            member_id: (end - 1) as usize,
        };
        let tail: Seq<MemberIdentifier> = if ids.contains(last) {
            seq![last]
        } else {
            Seq::empty()
        };
        lemma_scan_filter_contains(team_id, end - 1, ids, id);
        lemma_add_contains(scan_filter(team_id, end - 1, ids), tail, id);
        if tail.contains(id) {
            assert(id == last);
        }
        if id.team_id == team_id && id.member_id < end && ids.contains(id) && id.member_id == end
            - 1 {
            assert(id == last);
            assert(tail[0] == id);
            assert(tail.contains(id));
        }
    }
}

proof fn lemma_scan_filter_no_duplicates(team_id: int, end: int, ids: Seq<MemberIdentifier>)
    requires
        0 <= team_id <= usize::MAX,
        end <= usize::MAX,
    ensures
        scan_filter(team_id, end, ids).no_duplicates(),
    decreases end,
{
    if end > 0 {
        let a = scan_filter(team_id, end - 1, ids);
        let last = MemberIdentifier {
            team_id: team_id as usize,
            member_id: (end - 1) as usize,
        };
        let tail: Seq<MemberIdentifier> = if ids.contains(last) {
            seq![last]
        } else {
            Seq::empty()
        };
        lemma_scan_filter_no_duplicates(team_id, end - 1, ids);
        assert(tail.no_duplicates());
        assert forall|x: MemberIdentifier| !(a.contains(x) && tail.contains(x)) by {
            lemma_scan_filter_contains(team_id, end - 1, ids, x);
            if tail.contains(x) {
                assert(x == last);
            }
        }
        lemma_add_no_duplicates(a, tail);
    }
}

proof fn lemma_discrete_first_contains<M: Member>(
    teams: Seq<Team<M>>,
    ids: Seq<MemberIdentifier>,
    n: int,
    id: MemberIdentifier,
)
    requires
        n <= usize::MAX,
    ensures
        discrete_ids_first(teams, ids, n).contains(id) <==> (id.team_id < n && id.member_id
            < teams[(id.team_id as int)]@.members.len() && ids.contains(id)),
    decreases n,
{
    if n > 0 {
        lemma_team_members_len_bounded(teams[n - 1]);
        lemma_discrete_first_contains(teams, ids, n - 1, id);
        lemma_scan_filter_contains(n - 1, teams[n - 1]@.members.len() as int, ids, id);
        lemma_add_contains(
            discrete_ids_first(teams, ids, n - 1),
            scan_filter(n - 1, teams[n - 1]@.members.len() as int, ids),
            id,
        );
    }
}

proof fn lemma_discrete_first_no_duplicates<M: Member>(
    teams: Seq<Team<M>>,
    ids: Seq<MemberIdentifier>,
    n: int,
)
    requires
        n <= usize::MAX,
    ensures
        discrete_ids_first(teams, ids, n).no_duplicates(),
    decreases n,
{
    if n > 0 {
        let a = discrete_ids_first(teams, ids, n - 1);
        let b = scan_filter(n - 1, teams[n - 1]@.members.len() as int, ids);
        lemma_team_members_len_bounded(teams[n - 1]);
        lemma_discrete_first_no_duplicates(teams, ids, n - 1);
        lemma_scan_filter_no_duplicates(n - 1, teams[n - 1]@.members.len() as int, ids);
        assert forall|x: MemberIdentifier| !(a.contains(x) && b.contains(x)) by {
            lemma_discrete_first_contains(teams, ids, n - 1, x);
            lemma_scan_filter_contains(n - 1, teams[n - 1]@.members.len() as int, ids, x);
        }
        lemma_add_no_duplicates(a, b);
    }
}

/// Resolving a discrete selection keeps one coordinate per distinct chosen
/// identifier: duplicates in the selection collapse, and identifiers that do
/// not resolve are skipped.
pub proof fn lemma_discrete_multiple_dedup<M: Member>(
    ids: Vec<MemberIdentifier>,
    teams: Seq<Team<M>>,
)
    requires
        teams.len() <= usize::MAX,
    ensures
        resolved_ids(Target::DiscreteMultiple(ids), teams).no_duplicates(),
        forall|id: MemberIdentifier|
            resolved_ids(Target::DiscreteMultiple(ids), teams).contains(id) <==> (
            ids@.contains(id) && id_resolves(id, teams)),
{
    lemma_discrete_first_no_duplicates(teams, ids@, teams.len() as int);
    assert forall|id: MemberIdentifier|
        resolved_ids(Target::DiscreteMultiple(ids), teams).contains(id) <==> (ids@.contains(id)
            && id_resolves(id, teams)) by {
        lemma_discrete_first_contains(teams, ids@, teams.len() as int, id);
    }
}

/// Whatever the target and the team list, resolution yields identifiers
/// that all resolve, without duplicates.
pub proof fn lemma_resolved_ids_valid<M: Member>(target: Target, teams: Seq<Team<M>>)
    requires
        teams.len() <= usize::MAX,
    ensures
        ids_valid(resolved_ids(target, teams), teams),
{
    let r = resolved_ids(target, teams);
    match target {
        Target::Nobody => {},
        Target::Single(id) => {},
        Target::DiscreteMultiple(ids) => {
            lemma_discrete_multiple_dedup(ids, teams);
            assert forall|k: int| 0 <= k < r.len() implies id_resolves(#[trigger] r[k], teams) by {
                assert(r.contains(r[k]));
            }
        },
        Target::FullTeam { team_id } => {
            if (team_id as int) < teams.len() {
                let end = teams[team_id as int]@.members.len() as int;
                lemma_team_members_len_bounded(teams[team_id as int]);
                lemma_team_scan_no_duplicates(team_id as int, 0, end);
                assert forall|k: int| 0 <= k < r.len() implies id_resolves(
                    #[trigger] r[k],
                    teams,
                ) by {
                    assert(r.contains(r[k]));
                    lemma_team_scan_contains(team_id as int, 0, end, r[k]);
                }
            }
        },
        Target::All => {
            lemma_roster_ids_valid(teams);
            assert forall|k: int| 0 <= k < r.len() implies id_resolves(#[trigger] r[k], teams) by {
                assert(r.contains(r[k]));
            }
        },
    }
}

/// Whether `ids` lists `id` among its entries.
fn contains_id(ids: &Vec<MemberIdentifier>, id: MemberIdentifier) -> (r: bool)
    ensures
        r == ids@.contains(id),
{
    let mut i: usize = 0;
    while i < ids.len()
        invariant
            0 <= i <= ids@.len(),
            forall|k: int| 0 <= k < i ==> ids@[k] != id,
        decreases ids@.len() - i,
    {
        if ids[i] == id {
            return true;
        }
        i += 1;
    }
    false
}

fn resolve_single<M: Member>(team_list: &Vec<Team<M>>, id: MemberIdentifier) -> (r: Vec<
    MemberIdentifier,
>)
    ensures
        r@ == resolved_ids(Target::Single(id), team_list@),
{
    let mut out: Vec<MemberIdentifier> = Vec::new();
    if id.team_id < team_list.len() {
        let team = &team_list[id.team_id];
        if id.member_id < team.member_list().len() {
            out.push(id);
        }
    }
    proof {
        if id_resolves(id, team_list@) {
            assert(out@ =~= seq![id]);
        }
    }
    out
}

fn resolve_full_team<M: Member>(team_list: &Vec<Team<M>>, team_id: usize) -> (r: Vec<
    MemberIdentifier,
>)
    ensures
        r@ == resolved_ids(Target::FullTeam { team_id }, team_list@),
{
    let mut out: Vec<MemberIdentifier> = Vec::new();
    if team_id < team_list.len() {
        let n = team_list[team_id].member_list().len();
        let mut j: usize = 0;
        while j < n
            invariant
                0 <= j <= n,
                team_id < team_list@.len(),
                n == team_list@[team_id as int]@.members.len(),
                out@ == team_scan(team_id as int, 0, j as int),
            decreases n - j,
        {
            out.push(MemberIdentifier::new(team_id, j));
            proof {
                assert(out@ =~= team_scan(team_id as int, 0, j + 1 as int));
            }
            j += 1;
        }
        proof {
            assert(out@ =~= team_scan(
                team_id as int,
                0,
                team_list@[team_id as int]@.members.len() as int,
            ));
        }
    }
    out
}

fn resolve_all<M: Member>(team_list: &Vec<Team<M>>) -> (r: Vec<MemberIdentifier>)
    ensures
        r@ == resolved_ids(Target::All, team_list@),
{
    let ghost teams = team_list@;
    let mut out: Vec<MemberIdentifier> = Vec::new();
    let mut t: usize = 0;
    while t < team_list.len()
        invariant
            0 <= t <= teams.len(),
            teams == team_list@,
            out@ == roster_ids_first(teams, t as int),
        decreases teams.len() - t,
    {
        let n = team_list[t].member_list().len();
        let mut j: usize = 0;
        while j < n
            invariant
                0 <= j <= n,
                t < teams.len(),
                teams == team_list@,
                n == teams[t as int]@.members.len(),
                out@ == roster_ids_first(teams, t as int) + team_scan(t as int, 0, j as int),
            decreases n - j,
        {
            out.push(MemberIdentifier::new(t, j));
            proof {
                assert(out@ =~= roster_ids_first(teams, t as int) + team_scan(
                    t as int,
                    0,
                    j + 1 as int,
                ));
            }
            j += 1;
        }
        proof {
            assert(out@ =~= roster_ids_first(teams, t + 1 as int));
        }
        t += 1;
    }
    out
}

fn resolve_discrete<M: Member>(team_list: &Vec<Team<M>>, ids: &Vec<MemberIdentifier>) -> (r: Vec<
    MemberIdentifier,
>)
    ensures
        r@ == discrete_ids(team_list@, ids@),
{
    let ghost teams = team_list@;
    let mut out: Vec<MemberIdentifier> = Vec::new();
    let mut t: usize = 0;
    while t < team_list.len()
        invariant
            0 <= t <= teams.len(),
            teams == team_list@,
            out@ == discrete_ids_first(teams, ids@, t as int),
        decreases teams.len() - t,
    {
        let n = team_list[t].member_list().len();
        let mut j: usize = 0;
        while j < n
            invariant
                0 <= j <= n,
                t < teams.len(),
                teams == team_list@,
                n == teams[t as int]@.members.len(),
                out@ == discrete_ids_first(teams, ids@, t as int) + scan_filter(
                    t as int,
                    j as int,
                    ids@,
                ),
            decreases n - j,
        {
            let id = MemberIdentifier::new(t, j);
            if contains_id(ids, id) {
                out.push(id);
            }
            proof {
                assert(out@ =~= discrete_ids_first(teams, ids@, t as int) + scan_filter(
                    t as int,
                    j + 1 as int,
                    ids@,
                ));
            }
            j += 1;
        }
        proof {
            assert(out@ =~= discrete_ids_first(teams, ids@, t + 1 as int));
        }
        t += 1;
    }
    out
}

/// Resolves a [`Target`] descriptor to the concrete member coordinates it
/// denotes within `team_list`, tolerating missing teams and members.
fn resolve_target<M: Member>(team_list: &Vec<Team<M>>, target: &Target) -> (r: Vec<
    MemberIdentifier,
>)
    ensures
        r@ == resolved_ids(*target, team_list@),
{
    match target {
        Target::Nobody => Vec::new(),
        Target::Single(id) => resolve_single(team_list, *id),
        Target::DiscreteMultiple(ids) => resolve_discrete(team_list, ids),
        Target::FullTeam { team_id } => resolve_full_team(team_list, *team_id),
        Target::All => resolve_all(team_list),
    }
}

/// The resolved view an [`Action`] works on: the concrete coordinates of the
/// performers and of the targets of a turn.
///
/// Both lists are resolved up front against the same team list, so that the
/// mutations an action performs go through plain index lookups with no two
/// references alive at once.
pub struct Context {
    performers: Vec<MemberIdentifier>,
    targets: Vec<MemberIdentifier>,
}

impl Context {
    /// The resolved performer coordinates.
    pub closed spec fn spec_performers(&self) -> Seq<MemberIdentifier> {
        self.performers@
    }

    /// The resolved target coordinates.
    pub closed spec fn spec_targets(&self) -> Seq<MemberIdentifier> {
        self.targets@
    }

    /// Whether both coordinate lists resolve in `teams`, without duplicates.
    pub open spec fn valid_for<M: Member>(&self, teams: Seq<Team<M>>) -> bool {
        &&& ids_valid(self.spec_performers(), teams)
        &&& ids_valid(self.spec_targets(), teams)
    }

    /// Resolves the two [`Target`] descriptors against `team_list`.
    pub fn new<M: Member>(team_list: &Vec<Team<M>>, performers: Target, targets: Target) -> (c:
        Context)
        ensures
            c.spec_performers() == resolved_ids(performers, team_list@),
            c.spec_targets() == resolved_ids(targets, team_list@),
            c.valid_for(team_list@),
    {
        proof {
            lemma_team_list_len_bounded(team_list);
            lemma_resolved_ids_valid(performers, team_list@);
            lemma_resolved_ids_valid(targets, team_list@);
        }
        Self {
            performers: resolve_target(team_list, &performers),
            targets: resolve_target(team_list, &targets),
        }
    }

    /// Returns the coordinates of all members that are flagged as action
    /// performers.
    pub fn performers(&self) -> (r: &Vec<MemberIdentifier>)
        ensures
            r@ == self.spec_performers(),
    {
        &self.performers
    }

    /// Returns the coordinates of all members that are flagged as action
    /// targets.
    pub fn targets(&self) -> (r: &Vec<MemberIdentifier>)
        ensures
            r@ == self.spec_targets(),
    {
        &self.targets
    }
}

/// Action that can be performed by team members and that affects a
/// specified target.
///
/// More than one member may be appointed as "action performer". Even
/// members of different teams or whole teams can perform the same action
/// together.
pub trait Action<M: Member> {
    /// What this action guarantees about the team list it acted on, given
    /// the resolved performer and target coordinates.
    spec fn ens(
        &self,
        performers: Seq<MemberIdentifier>,
        targets: Seq<MemberIdentifier>,
        old_teams: Seq<Team<M>>,
        new_teams: Seq<Team<M>>,
    ) -> bool;

    /// Action logic performer.
    ///
    /// Actions mutate the members the resolved `context` points at; they can
    /// never add or remove members or teams, nor change anything but the
    /// members' properties.
    fn act(&mut self, context: &Context, team_list: &mut Vec<Team<M>>)
        requires
            context.valid_for(old(team_list)@),
        ensures
            teams_same_shape(old(team_list)@, final(team_list)@),
            old(self).ens(
                context.spec_performers(),
                context.spec_targets(),
                old(team_list)@,
                final(team_list)@,
            ),
    ;
}

} // verus!
