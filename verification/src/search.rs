//! Searching for the suggested performer of the next turn: cyclic traversal
//! of the team rosters under a pluggable qualifying criterion.

use vstd::prelude::*;

use crate::member::{Member, MemberIdentifier, Properties};
use crate::team::{id_resolves, member_at, Team};

verus! {

/// A qualifying test over members, used by the cyclic performer search.
///
/// Implementations decide whether the member at a given coordinate may act.
pub trait FilterCriteria<M: Member>: Sized {
    /// The qualifying test at spec level.
    spec fn spec_accepts(&self, id: MemberIdentifier, m: M) -> bool;

    /// Whether the member `m`, found at coordinate `id`, qualifies.
    fn accepts(&self, id: MemberIdentifier, m: &M) -> (r: bool)
        ensures
            r == self.spec_accepts(id, *m),
    ;
}

/// The qualifying test of [`SuggestedPerformerCriteria::CycleAlive`]: a
/// member qualifies exactly when its current health is greater than zero.
pub struct AliveCondition;

impl<M: Member> FilterCriteria<M> for AliveCondition {
    open spec fn spec_accepts(&self, id: MemberIdentifier, m: M) -> bool {
        m.spec_properties().spec_health() > 0
    }

    fn accepts(&self, id: MemberIdentifier, m: &M) -> (r: bool) {
        m.health() > 0
    }
}

/// Criterion used to pick the member suggested to perform next.
#[non_exhaustive]
pub enum SuggestedPerformerCriteria<P = AliveCondition> {
    /// Suggests no performer every time.
    Nobody,
    /// Suggests the given member ID every time.
    Constant(MemberIdentifier),
    /// If possible, chooses the next "alive" member (`health > 0`) of the
    /// currently acting member's team.
    ///
    /// Otherwise, cycles through the teams going forward choosing the first
    /// member that is found alive.
    CycleAlive,
    /// If possible, chooses the next member of the currently acting member's
    /// team that satisfies the given criterion.
    ///
    /// Otherwise, cycles through the teams going forward choosing the first
    /// member that is found to satisfy the criterion.
    ///
    /// Use [`CycleAlive`](Self::CycleAlive) if all you need is to check
    /// whether a member is currently alive.
    CycleWith(P),
}

/// Where a search starts: the current playing member, or the very first
/// coordinate when there is none.
pub open spec fn search_start(current: Option<MemberIdentifier>) -> MemberIdentifier {
    match current {
        Option::Some(c) => c,
        Option::None => MemberIdentifier { team_id: 0, member_id: 0 },
    }
}

/// The index of the team visited at step `k` of a cyclic traversal over
/// `team_count` teams that starts at `start_team` (reduced into range when
/// it points past the last team).
pub open spec fn cycle_team_index(team_count: int, start_team: int, k: int) -> int {
    let base = start_team % team_count;
    if base + k < team_count {
        base + k
    } else {
        base + k - team_count
    }
}

/// The first member index scanned within team `team_id`: strictly after the
/// current member within its own team, the whole roster elsewhere.
pub open spec fn scan_start(team_id: int, current: MemberIdentifier) -> int {
    if current.team_id == team_id {
        current.member_id + 1
    } else {
        0
    }
}

/// The coordinates visited from step `k` on by the cyclic performer
/// traversal of `teams` that starts after `current`.
pub open spec fn cycle_order_from<M: Member>(
    teams: Seq<Team<M>>,
    current: MemberIdentifier,
    k: int,
) -> Seq<MemberIdentifier>
    decreases teams.len() - k,
{
    if teams.len() == 0 || k < 0 || k >= teams.len() {
        Seq::empty()
    } else {
        let t = cycle_team_index(teams.len() as int, current.team_id as int, k);
        crate::team::team_scan(t, scan_start(t, current), teams[t]@.members.len() as int)
            + cycle_order_from(teams, current, k + 1)
    }
}

/// The complete traversal order of the cyclic performer search: teams are
/// visited starting from the current member's team and wrapping around;
/// within the starting team the scan resumes strictly after the current
/// member, within any other team it starts at the first member. Each member
/// is visited at most once.
pub open spec fn cycle_order<M: Member>(teams: Seq<Team<M>>, current: MemberIdentifier) -> Seq<
    MemberIdentifier,
> {
    cycle_order_from(teams, current, 0)
}

/// The first coordinate of `order` whose member qualifies under
/// `condition`, if any.
pub open spec fn first_match<M: Member, C: FilterCriteria<M>>(
    order: Seq<MemberIdentifier>,
    teams: Seq<Team<M>>,
    condition: C,
) -> Option<MemberIdentifier>
    decreases order.len(),
{
    if order.len() <= 0 {
        Option::None
    } else if condition.spec_accepts(order[0], member_at(teams, order[0])) {
        Option::Some(order[0])
    } else {
        first_match(order.drop_first(), teams, condition)
    }
}

/// What a search returns: nothing, the constant suggestion, or the first
/// qualifying member of the cyclic traversal.
pub open spec fn spec_search<M: Member, P: FilterCriteria<M>>(
    criteria: SuggestedPerformerCriteria<P>,
    current: Option<MemberIdentifier>,
    teams: Seq<Team<M>>,
) -> Option<MemberIdentifier> {
    match criteria {
        SuggestedPerformerCriteria::Nobody => Option::None,
        SuggestedPerformerCriteria::Constant(id) => Option::Some(id),
        SuggestedPerformerCriteria::CycleAlive => first_match(
            cycle_order(teams, search_start(current)),
            teams,
            AliveCondition,
        ),
        SuggestedPerformerCriteria::CycleWith(p) => first_match(
            cycle_order(teams, search_start(current)),
            teams,
            p,
        ),
    }
}

/// A search result always comes from the traversal order it searched.
proof fn lemma_first_match_in_order<M: Member, C: FilterCriteria<M>>(
    order: Seq<MemberIdentifier>,
    teams: Seq<Team<M>>,
    condition: C,
)
    ensures
        match first_match(order, teams, condition) {
            Option::Some(id) => order.contains(id),
            Option::None => true,
        },
    decreases order.len(),
{
    if order.len() > 0 {
        if !condition.spec_accepts(order[0], member_at(teams, order[0])) {
            lemma_first_match_in_order(order.drop_first(), teams, condition);
            match first_match(order, teams, condition) {
                Option::Some(id) => {
                    let i = choose|i: int|
                        0 <= i < order.drop_first().len() && order.drop_first()[i] == id;
                    assert(order[i + 1] == id);
                },
                Option::None => {},
            }
        }
    }
}

/// A search result is the first qualifying coordinate of the traversal
/// order: it qualifies, no earlier coordinate qualifies, and when the result
/// is nothing, no coordinate of the order qualifies at all.
pub proof fn lemma_first_match_characterization<M: Member, C: FilterCriteria<M>>(
    order: Seq<MemberIdentifier>,
    teams: Seq<Team<M>>,
    condition: C,
)
    ensures
        match first_match(order, teams, condition) {
            Option::Some(id) => exists|i: int|
                {
                    &&& 0 <= i < order.len()
                    &&& order[i] == id
                    &&& condition.spec_accepts(id, member_at(teams, id))
                    &&& forall|j: int|
                        0 <= j < i ==> !condition.spec_accepts(
                            #[trigger] order[j],
                            member_at(teams, order[j]),
                        )
                },
            Option::None => forall|j: int|
                0 <= j < order.len() ==> !condition.spec_accepts(
                    #[trigger] order[j],
                    member_at(teams, order[j]),
                ),
        },
    decreases order.len(),
{
    if order.len() > 0 {
        if condition.spec_accepts(order[0], member_at(teams, order[0])) {
            assert({
                &&& 0 <= 0 < order.len()
                &&& order[0] == order[0]
                &&& condition.spec_accepts(order[0], member_at(teams, order[0]))
                &&& forall|j: int|
                    0 <= j < 0 ==> !condition.spec_accepts(
                        #[trigger] order[j],
                        member_at(teams, order[j]),
                    )
            });
        } else {
            let tail = order.drop_first();
            lemma_first_match_characterization(tail, teams, condition);
            match first_match(order, teams, condition) {
                Option::Some(id) => {
                    let i = choose|i: int|
                        {
                            &&& 0 <= i < tail.len()
                            &&& tail[i] == id
                            &&& condition.spec_accepts(id, member_at(teams, id))
                            &&& forall|j: int|
                                0 <= j < i ==> !condition.spec_accepts(
                                    #[trigger] tail[j],
                                    member_at(teams, tail[j]),
                                )
                        };
                    assert(order[i + 1] == id);
                    assert forall|j: int| 0 <= j < i + 1 implies !condition.spec_accepts(
                        #[trigger] order[j],
                        member_at(teams, order[j]),
                    ) by {
                        if j > 0 {
                            assert(tail[j - 1] == order[j]);
                        }
                    }
                },
                Option::None => {
                    assert forall|j: int| 0 <= j < order.len() implies !condition.spec_accepts(
                        #[trigger] order[j],
                        member_at(teams, order[j]),
                    ) by {
                        if j > 0 {
                            assert(tail[j - 1] == order[j]);
                        }
                    }
                },
            }
        }
    }
}

proof fn lemma_cycle_index_range(team_count: int, start_team: int, k: int)
    requires
        0 < team_count,
        0 <= start_team,
        0 <= k < team_count,
    ensures
        0 <= cycle_team_index(team_count, start_team, k) < team_count,
        cycle_team_index(team_count, start_team, k) == (start_team + k) % team_count,
{
    let base = start_team % team_count;
    assert(0 <= base < team_count);
    assert((start_team + k) % team_count == (base + k) % team_count) by {
        vstd::arithmetic::div_mod::lemma_add_mod_noop(start_team, k, team_count);
        vstd::arithmetic::div_mod::lemma_mod_twice(start_team, team_count);
        vstd::arithmetic::div_mod::lemma_small_mod(k as nat, team_count as nat);
    }
    if base + k < team_count {
        vstd::arithmetic::div_mod::lemma_small_mod((base + k) as nat, team_count as nat);
    } else {
        vstd::arithmetic::div_mod::lemma_mod_sub_multiples_vanish(base + k, team_count);
        vstd::arithmetic::div_mod::lemma_small_mod((base + k - team_count) as nat, team_count as nat);
    }
}

proof fn lemma_cycle_index_injective(team_count: int, start_team: int, k1: int, k2: int)
    requires
        0 < team_count,
        0 <= start_team,
        0 <= k1 < team_count,
        0 <= k2 < team_count,
        k1 != k2,
    ensures
        cycle_team_index(team_count, start_team, k1) != cycle_team_index(
            team_count,
            start_team,
            k2,
        ),
{
    let base = start_team % team_count;
    assert(0 <= base < team_count);
}

proof fn lemma_cycle_from_contains<M: Member>(
    teams: Seq<Team<M>>,
    current: MemberIdentifier,
    k: int,
    id: MemberIdentifier,
)
    requires
        teams.len() <= usize::MAX,
        0 <= k,
    ensures
        cycle_order_from(teams, current, k).contains(id) <==> exists|k2: int|
            {
                &&& k <= k2 < teams.len()
                &&& id.team_id == cycle_team_index(
                    teams.len() as int,
                    current.team_id as int,
                    k2,
                )
                &&& scan_start(id.team_id as int, current) <= id.member_id < teams[(
                id.team_id as int)]@.members.len()
            },
    decreases teams.len() - k,
{
    let n = teams.len() as int;
    if teams.len() == 0 || k >= n {
    } else {
        let t = cycle_team_index(n, current.team_id as int, k);
        lemma_cycle_index_range(n, current.team_id as int, k);
        let block = crate::team::team_scan(t, scan_start(t, current), teams[t]@.members.len() as int);
        let rest = cycle_order_from(teams, current, k + 1);
        crate::team::lemma_team_members_len_bounded(teams[t]);
        crate::action::lemma_team_scan_contains(
            t,
            scan_start(t, current),
            teams[t]@.members.len() as int,
            id,
        );
        lemma_cycle_from_contains(teams, current, k + 1, id);
        crate::action::lemma_add_contains(block, rest, id);
        if block.contains(id) {
            assert(id.team_id == t);
            assert({
                &&& k <= k < teams.len()
                &&& id.team_id == cycle_team_index(n, current.team_id as int, k)
                &&& scan_start(id.team_id as int, current) <= id.member_id < teams[(
                id.team_id as int)]@.members.len()
            });
        }
    }
}

proof fn lemma_cycle_from_no_duplicates<M: Member>(
    teams: Seq<Team<M>>,
    current: MemberIdentifier,
    k: int,
)
    requires
        teams.len() <= usize::MAX,
        0 <= k,
    ensures
        cycle_order_from(teams, current, k).no_duplicates(),
    decreases teams.len() - k,
{
    let n = teams.len() as int;
    if teams.len() == 0 || k >= n {
    } else {
        let t = cycle_team_index(n, current.team_id as int, k);
        lemma_cycle_index_range(n, current.team_id as int, k);
        let block = crate::team::team_scan(t, scan_start(t, current), teams[t]@.members.len() as int);
        let rest = cycle_order_from(teams, current, k + 1);
        crate::team::lemma_team_members_len_bounded(teams[t]);
        crate::action::lemma_team_scan_no_duplicates(
            t,
            scan_start(t, current),
            teams[t]@.members.len() as int,
        );
        lemma_cycle_from_no_duplicates(teams, current, k + 1);
        assert forall|x: MemberIdentifier| !(block.contains(x) && rest.contains(x)) by {
            if block.contains(x) && rest.contains(x) {
                crate::action::lemma_team_scan_contains(
                    t,
                    scan_start(t, current),
                    teams[t]@.members.len() as int,
                    x,
                );
                lemma_cycle_from_contains(teams, current, k + 1, x);
                let k2 = choose|k2: int|
                    {
                        &&& k + 1 <= k2 < teams.len()
                        &&& x.team_id == cycle_team_index(n, current.team_id as int, k2)
                        &&& scan_start(x.team_id as int, current) <= x.member_id < teams[(
                        x.team_id as int)]@.members.len()
                    };
                lemma_cycle_index_injective(n, current.team_id as int, k, k2);
            }
        }
        assert forall|i: int, j: int|
            0 <= i < (block + rest).len() && 0 <= j < (block + rest).len() && i
                != j implies (block + rest)[i] != (block + rest)[j] by {
            if i < block.len() && j >= block.len() {
                assert(block.contains((block + rest)[i]));
                assert(rest.contains((block + rest)[j]));
            }
            if i >= block.len() && j < block.len() {
                assert(block.contains((block + rest)[j]));
                assert(rest.contains((block + rest)[i]));
            }
        }
    }
}

/// The cyclic traversal visits only existing members, visits each at most
/// once, and covers exactly the members a search may suggest: every member
/// of every team except the current member itself and its teammates at or
/// before the current index.
pub proof fn lemma_cycle_order_valid<M: Member>(teams: Seq<Team<M>>, current: MemberIdentifier)
    requires
        teams.len() <= usize::MAX,
    ensures
        cycle_order(teams, current).no_duplicates(),
        forall|id: MemberIdentifier|
            cycle_order(teams, current).contains(id) <==> (id_resolves(id, teams) && (id.team_id
                != current.team_id || id.member_id > current.member_id)),
{
    let n = teams.len() as int;
    lemma_cycle_from_no_duplicates(teams, current, 0);
    assert forall|id: MemberIdentifier|
        cycle_order(teams, current).contains(id) <==> (id_resolves(id, teams) && (id.team_id
            != current.team_id || id.member_id > current.member_id)) by {
        lemma_cycle_from_contains(teams, current, 0, id);
        if id_resolves(id, teams) && (id.team_id != current.team_id || id.member_id
            > current.member_id) {
            let base = (current.team_id as int) % n;
            assert(0 <= base < n);
            let k2 = if id.team_id >= base {
                id.team_id - base
            } else {
                id.team_id - base + n
            };
            lemma_cycle_index_range(n, current.team_id as int, k2);
            assert(cycle_team_index(n, current.team_id as int, k2) == id.team_id);
            assert(scan_start(id.team_id as int, current) <= id.member_id);
        }
        if cycle_order(teams, current).contains(id) {
            let k2 = choose|k2: int|
                {
                    &&& 0 <= k2 < teams.len()
                    &&& id.team_id == cycle_team_index(n, current.team_id as int, k2)
                    &&& scan_start(id.team_id as int, current) <= id.member_id < teams[(
                    id.team_id as int)]@.members.len()
                };
            lemma_cycle_index_range(n, current.team_id as int, k2);
        }
    }
}

/// Every identifier a search returns resolves, as long as a constant
/// criterion was configured with a resolving identifier.
pub proof fn lemma_spec_search_resolves<M: Member, P: FilterCriteria<M>>(
    criteria: SuggestedPerformerCriteria<P>,
    current: Option<MemberIdentifier>,
    teams: Seq<Team<M>>,
)
    requires
        teams.len() <= usize::MAX,
        criteria matches SuggestedPerformerCriteria::Constant(id) ==> id_resolves(id, teams),
    ensures
        match spec_search(criteria, current, teams) {
            Option::Some(id) => id_resolves(id, teams),
            Option::None => true,
        },
{
    let order = cycle_order(teams, search_start(current));
    match criteria {
        SuggestedPerformerCriteria::Nobody => {},
        SuggestedPerformerCriteria::Constant(id) => {},
        SuggestedPerformerCriteria::CycleAlive => {
            lemma_first_match_in_order(order, teams, AliveCondition);
            lemma_cycle_order_valid(teams, search_start(current));
        },
        SuggestedPerformerCriteria::CycleWith(p) => {
            lemma_first_match_in_order(order, teams, p);
            lemma_cycle_order_valid(teams, search_start(current));
        },
    }
}

impl<P> SuggestedPerformerCriteria<P> {
    /// Searches for the member suggested to perform next, starting from the
    /// currently playing member.
    pub fn search<M: Member>(
        &self,
        current_playing_member: Option<MemberIdentifier>,
        team_list: &[Team<M>],
    ) -> (r: Option<MemberIdentifier>) where P: FilterCriteria<M>
        ensures
            r == spec_search(*self, current_playing_member, team_list@),
    {
        match self {
            Self::Nobody => None,
            Self::Constant(member) => Some(*member),
            Self::CycleAlive => self.cycle_with_condition(
                current_playing_member,
                team_list,
                &AliveCondition,
            ),
            Self::CycleWith(condition) => self.cycle_with_condition(
                current_playing_member,
                team_list,
                condition,
            ),
        }
    }

    /// Walks the cyclic traversal order and returns the first member that
    /// satisfies `condition`, or nothing when no member does.
    fn cycle_with_condition<M: Member, C: FilterCriteria<M>>(
        &self,
        current_playing_member: Option<MemberIdentifier>,
        team_list: &[Team<M>],
        condition: &C,
    ) -> (r: Option<MemberIdentifier>)
        ensures
            r == first_match(
                cycle_order(team_list@, search_start(current_playing_member)),
                team_list@,
                *condition,
            ),
    {
        let ghost teams = team_list@;
        let ghost cur = search_start(current_playing_member);
        let ghost whole = first_match(cycle_order(teams, cur), teams, *condition);
        let current = match current_playing_member {
            Some(c) => c,
            None => MemberIdentifier::zeroed(),
        };
        let n = team_list.len();
        if n == 0 {
            return None;
        }
        let mut k: usize = 0;
        while k < n
            invariant
                0 <= k <= n,
                n == teams.len(),
                teams == team_list@,
                current == cur,
                cur == search_start(current_playing_member),
                whole == first_match(cycle_order(teams, cur), teams, *condition),
                whole == first_match(cycle_order_from(teams, cur, k as int), teams, *condition),
            decreases n - k,
        {
            let t0 = current.team_id % n;
            let team_id = if k < n - t0 {
                t0 + k
            } else {
                k - (n - t0)
            };
            proof {
                assert(team_id as int == cycle_team_index(n as int, cur.team_id as int, k as int));
            }
            let members = team_list[team_id].member_list();
            let len = members.len();
            let start = if current.team_id == team_id {
                if current.member_id >= len {
                    len
                } else {
                    current.member_id + 1
                }
            } else {
                0
            };
            let ghost rest = cycle_order_from(teams, cur, k as int + 1);
            proof {
                let t = team_id as int;
                assert(crate::team::team_scan(t, scan_start(t, cur), len as int)
                    =~= crate::team::team_scan(t, start as int, len as int));
            }
            let mut j = start;
            while j < len
                invariant
                    0 <= j <= len,
                    n == teams.len(),
                    teams == team_list@,
                    team_id < n,
                    len == teams[team_id as int]@.members.len(),
                    members@ == teams[team_id as int]@.members,
                    rest == cycle_order_from(teams, cur, k as int + 1),
                    cur == search_start(current_playing_member),
                    whole == first_match(cycle_order(teams, cur), teams, *condition),
                    whole == first_match(
                        crate::team::team_scan(team_id as int, j as int, len as int) + rest,
                        teams,
                        *condition,
                    ),
                decreases len - j,
            {
                let id = MemberIdentifier::new(team_id, j);
                let ghost suffix = crate::team::team_scan(team_id as int, j as int, len as int)
                    + rest;
                proof {
                    assert(suffix[0] == id);
                    assert(member_at(teams, id) == members@[j as int]);
                }
                if condition.accepts(id, &members[j]) {
                    proof {
                        assert(condition.spec_accepts(suffix[0], member_at(teams, suffix[0])));
                        assert(first_match(suffix, teams, *condition) == Option::Some(id));
                    }
                    return Some(id);
                }
                proof {
                    assert(suffix.drop_first() =~= crate::team::team_scan(
                        team_id as int,
                        j as int + 1,
                        len as int,
                    ) + rest);
                }
                j += 1;
            }
            proof {
                assert(crate::team::team_scan(team_id as int, len as int, len as int) + rest
                    =~= rest);
            }
            k += 1;
        }
        None
    }
}

} // verus!
