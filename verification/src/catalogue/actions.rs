//! Pre-made actions for common battle scenarios, each with an exact
//! description of the team state it leaves behind.

use vstd::prelude::*;

use crate::action::{ids_valid, lemma_add_contains, Action, Context};
use crate::member::{
    healed_health, member_attack, member_health, sat_add, saturated_damage, Member,
    MemberIdentifier, Properties, Statistics,
};
use crate::team::{
    id_resolves, lemma_same_shape_resolves, lemma_same_shape_trans, member_at, same_identity,
    teams_same_shape, Team,
};

verus! {

/// Saturating sum, in coordinate order, of the final attack of the members
/// at `ids`.
pub open spec fn total_attack<M: Member>(teams: Seq<Team<M>>, ids: Seq<MemberIdentifier>) -> u64
    decreases ids.len(),
{
    if ids.len() == 0 {
        0u64
    } else {
        sat_add(total_attack(teams, ids.drop_last()), member_attack(member_at(teams, ids.last())))
    }
}

/// Saturating sum, in coordinate order, of the current health of the
/// members at `ids`.
pub open spec fn total_health<M: Member>(teams: Seq<Team<M>>, ids: Seq<MemberIdentifier>) -> u64
    decreases ids.len(),
{
    if ids.len() == 0 {
        0u64
    } else {
        sat_add(total_health(teams, ids.drop_last()), member_health(member_at(teams, ids.last())))
    }
}

/// Saturating sum of `n` copies of `amount`.
pub open spec fn total_repeat(amount: u64, n: nat) -> u64
    decreases n,
{
    if n == 0 {
        0u64
    } else {
        sat_add(total_repeat(amount, (n - 1) as nat), amount)
    }
}

/// How much health draining by `amount` takes from a member at `health`:
/// the full amount, or whatever health is left.
pub open spec fn drained_amount(health: u64, amount: u64) -> u64 {
    if amount <= health {
        amount
    } else {
        health
    }
}

/// Saturating sum, in coordinate order, of the health actually drained by
/// `amount` from the members at `ids`.
pub open spec fn total_drained<M: Member>(
    teams: Seq<Team<M>>,
    ids: Seq<MemberIdentifier>,
    amount: u64,
) -> u64
    decreases ids.len(),
{
    if ids.len() == 0 {
        0u64
    } else {
        sat_add(
            total_drained(teams, ids.drop_last(), amount),
            drained_amount(member_health(member_at(teams, ids.last())), amount),
        )
    }
}

/// Member `b` is member `a` after taking `amount` damage: same identity,
/// same attack, health saturated down.
pub open spec fn damaged<M: Member>(a: M, b: M, amount: u64) -> bool {
    &&& same_identity(a, b)
    &&& b.spec_properties().spec_health() == saturated_damage(member_health(a), amount)
    &&& b.spec_properties().spec_attack() == a.spec_properties().spec_attack()
}

/// Member `b` is member `a` after being healed by `amount`: same identity,
/// same attack, health raised but never beyond the reference health.
pub open spec fn healed<M: Member>(a: M, b: M, amount: u64) -> bool {
    &&& same_identity(a, b)
    &&& b.spec_properties().spec_health() == healed_health(
        member_health(a),
        amount,
        a.spec_statistics().spec_reference_health(),
    )
    &&& b.spec_properties().spec_attack() == a.spec_properties().spec_attack()
}

/// What [`DirectAttack`] guarantees: every target takes the performers'
/// summed attack in full; everybody else is untouched.
pub open spec fn direct_attack_ens<M: Member>(
    performers: Seq<MemberIdentifier>,
    targets: Seq<MemberIdentifier>,
    old_teams: Seq<Team<M>>,
    new_teams: Seq<Team<M>>,
) -> bool {
    let total = total_attack(old_teams, performers);
    forall|id: MemberIdentifier|
        id_resolves(id, old_teams) ==> if targets.contains(id) {
            damaged(member_at(old_teams, id), #[trigger] member_at(new_teams, id), total)
        } else {
            member_at(new_teams, id) == member_at(old_teams, id)
        }
}

/// What [`Heal`] guarantees: every target is healed by the configured
/// amount, capped at its reference health; everybody else is untouched.
pub open spec fn heal_ens<M: Member>(
    amount: u64,
    targets: Seq<MemberIdentifier>,
    old_teams: Seq<Team<M>>,
    new_teams: Seq<Team<M>>,
) -> bool {
    forall|id: MemberIdentifier|
        id_resolves(id, old_teams) ==> if targets.contains(id) {
            healed(member_at(old_teams, id), #[trigger] member_at(new_teams, id), amount)
        } else {
            member_at(new_teams, id) == member_at(old_teams, id)
        }
}

/// What [`Sacrifice`] guarantees: every performer pays `amount` health; the
/// summed sacrifice then heals every target, capped at its reference
/// health. A performer that is also a target pays first and is healed
/// after.
pub open spec fn sacrifice_ens<M: Member>(
    amount: u64,
    performers: Seq<MemberIdentifier>,
    targets: Seq<MemberIdentifier>,
    old_teams: Seq<Team<M>>,
    new_teams: Seq<Team<M>>,
) -> bool {
    let total = total_repeat(amount, performers.len());
    forall|id: MemberIdentifier|
        id_resolves(id, old_teams) ==> {
            let a = member_at(old_teams, id);
            let b = #[trigger] member_at(new_teams, id);
            let mid_health = if performers.contains(id) {
                saturated_damage(member_health(a), amount)
            } else {
                member_health(a)
            };
            &&& same_identity(a, b)
            &&& b.spec_properties().spec_attack() == a.spec_properties().spec_attack()
            &&& b.spec_properties().spec_health() == if targets.contains(id) {
                healed_health(mid_health, total, a.spec_statistics().spec_reference_health())
            } else {
                mid_health
            }
        }
}

/// What [`Drain`] guarantees: every target loses up to `amount` health; the
/// summed drained health then heals every performer, capped at its
/// reference health. A member that is target and performer at once is
/// drained first and healed after.
pub open spec fn drain_ens<M: Member>(
    amount: u64,
    performers: Seq<MemberIdentifier>,
    targets: Seq<MemberIdentifier>,
    old_teams: Seq<Team<M>>,
    new_teams: Seq<Team<M>>,
) -> bool {
    let total = total_drained(old_teams, targets, amount);
    forall|id: MemberIdentifier|
        id_resolves(id, old_teams) ==> {
            let a = member_at(old_teams, id);
            let b = #[trigger] member_at(new_teams, id);
            let mid_health = if targets.contains(id) {
                saturated_damage(member_health(a), amount)
            } else {
                member_health(a)
            };
            &&& same_identity(a, b)
            &&& b.spec_properties().spec_attack() == a.spec_properties().spec_attack()
            &&& b.spec_properties().spec_health() == if performers.contains(id) {
                healed_health(mid_health, total, a.spec_statistics().spec_reference_health())
            } else {
                mid_health
            }
        }
}

/// What [`SelfDestruct`] guarantees: every performer ends at zero health;
/// their summed prior health hits every target as damage; everybody else
/// is untouched.
pub open spec fn self_destruct_ens<M: Member>(
    performers: Seq<MemberIdentifier>,
    targets: Seq<MemberIdentifier>,
    old_teams: Seq<Team<M>>,
    new_teams: Seq<Team<M>>,
) -> bool {
    let total = total_health(old_teams, performers);
    forall|id: MemberIdentifier|
        id_resolves(id, old_teams) ==> {
            let a = member_at(old_teams, id);
            let b = #[trigger] member_at(new_teams, id);
            &&& same_identity(a, b)
            &&& b.spec_properties().spec_attack() == a.spec_properties().spec_attack()
            &&& b.spec_properties().spec_health() == if performers.contains(id) {
                0u64
            } else if targets.contains(id) {
                saturated_damage(member_health(a), total)
            } else {
                member_health(a)
            }
            &&& (!performers.contains(id) && !targets.contains(id)) ==> b == a
        }
}

/// What [`AreaAttack`] guarantees: the performers' summed attack is split
/// evenly among the targets (integer division, the remainder is lost);
/// without targets nothing happens.
pub open spec fn area_attack_ens<M: Member>(
    performers: Seq<MemberIdentifier>,
    targets: Seq<MemberIdentifier>,
    old_teams: Seq<Team<M>>,
    new_teams: Seq<Team<M>>,
) -> bool {
    let total = total_attack(old_teams, performers);
    if targets.len() == 0 {
        new_teams == old_teams
    } else {
        let per_target = (total as int / targets.len() as int) as u64;
        forall|id: MemberIdentifier|
            id_resolves(id, old_teams) ==> if targets.contains(id) {
                damaged(member_at(old_teams, id), #[trigger] member_at(new_teams, id), per_target)
            } else {
                member_at(new_teams, id) == member_at(old_teams, id)
            }
    }
}

/// Every identifier of a valid list still resolves, and the list is still
/// duplicate-free, in any team list of the same shape.
proof fn lemma_ids_valid_same_shape<M: Member>(
    ids: Seq<MemberIdentifier>,
    a: Seq<Team<M>>,
    b: Seq<Team<M>>,
)
    requires
        ids_valid(ids, a),
        teams_same_shape(a, b),
    ensures
        ids_valid(ids, b),
{
    assert forall|k: int| 0 <= k < ids.len() implies id_resolves(#[trigger] ids[k], b) by {
        lemma_same_shape_resolves(a, b, ids[k]);
    }
}

/// Saturating sum of the final attack of the members `ids` points at.
fn sum_attack_of<M: Member>(team_list: &Vec<Team<M>>, ids: &Vec<MemberIdentifier>) -> (total: u64)
    requires
        forall|k: int| 0 <= k < ids@.len() ==> id_resolves(#[trigger] ids@[k], team_list@),
    ensures
        total == total_attack(team_list@, ids@),
{
    let ghost teams = team_list@;
    let mut total: u64 = 0;
    let mut k: usize = 0;
    while k < ids.len()
        invariant
            0 <= k <= ids@.len(),
            teams == team_list@,
            forall|x: int| 0 <= x < ids@.len() ==> id_resolves(#[trigger] ids@[x], teams),
            total == total_attack(teams, ids@.take(k as int)),
        decreases ids@.len() - k,
    {
        let id = ids[k];
        let team = &team_list[id.team_id];
        match team.member(id.member_id) {
            Some(m) => {
                total = total.saturating_add(m.final_properties().attack());
            },
            None => {
                proof {
                    assert(false);
                }
            },
        }
        proof {
            assert(ids@.take(k as int + 1).drop_last() =~= ids@.take(k as int));
            assert(ids@.take(k as int + 1).last() == ids@[k as int]);
        }
        k += 1;
    }
    proof {
        assert(ids@.take(ids@.len() as int) =~= ids@);
    }
    total
}

/// Saturating sum of the health draining by `amount` would take from the
/// members `ids` points at.
fn sum_drained_of<M: Member>(
    team_list: &Vec<Team<M>>,
    ids: &Vec<MemberIdentifier>,
    amount: u64,
) -> (total: u64)
    requires
        forall|k: int| 0 <= k < ids@.len() ==> id_resolves(#[trigger] ids@[k], team_list@),
    ensures
        total == total_drained(team_list@, ids@, amount),
{
    let ghost teams = team_list@;
    let mut total: u64 = 0;
    let mut k: usize = 0;
    while k < ids.len()
        invariant
            0 <= k <= ids@.len(),
            teams == team_list@,
            forall|x: int| 0 <= x < ids@.len() ==> id_resolves(#[trigger] ids@[x], teams),
            total == total_drained(teams, ids@.take(k as int), amount),
        decreases ids@.len() - k,
    {
        let id = ids[k];
        let team = &team_list[id.team_id];
        match team.member(id.member_id) {
            Some(m) => {
                let h = m.health();
                let d = if amount <= h {
                    amount
                } else {
                    h
                };
                total = total.saturating_add(d);
            },
            None => {
                proof {
                    assert(false);
                }
            },
        }
        proof {
            assert(ids@.take(k as int + 1).drop_last() =~= ids@.take(k as int));
            assert(ids@.take(k as int + 1).last() == ids@[k as int]);
        }
        k += 1;
    }
    proof {
        assert(ids@.take(ids@.len() as int) =~= ids@);
    }
    total
}

/// Deals `amount` damage to every member `ids` points at, one after the
/// other; everybody else is untouched.
fn damage_all<M: Member>(team_list: &mut Vec<Team<M>>, ids: &Vec<MemberIdentifier>, amount: u64)
    requires
        ids_valid(ids@, old(team_list)@),
    ensures
        teams_same_shape(old(team_list)@, final(team_list)@),
        forall|id: MemberIdentifier|
            id_resolves(id, old(team_list)@) ==> if ids@.contains(id) {
                damaged(
                    member_at(old(team_list)@, id),
                    #[trigger] member_at(final(team_list)@, id),
                    amount,
                )
            } else {
                member_at(final(team_list)@, id) == member_at(old(team_list)@, id)
            },
{
    let ghost teams0 = team_list@;
    proof {
        crate::team::lemma_team_list_len_bounded(team_list);
    }
    let mut k: usize = 0;
    while k < ids.len()
        invariant
            0 <= k <= ids@.len(),
            teams0.len() <= usize::MAX,
            ids_valid(ids@, teams0),
            teams_same_shape(teams0, team_list@),
            forall|id: MemberIdentifier|
                id_resolves(id, teams0) ==> if ids@.take(k as int).contains(id) {
                    damaged(
                        member_at(teams0, id),
                        #[trigger] member_at(team_list@, id),
                        amount,
                    )
                } else {
                    member_at(team_list@, id) == member_at(teams0, id)
                },
        decreases ids@.len() - k,
    {
        let ghost prev = team_list@;
        let id = ids[k];
        proof {
            assert(id_resolves(id, teams0));
            lemma_same_shape_resolves(teams0, prev, id);
            assert(!ids@.take(k as int).contains(id)) by {
                if ids@.take(k as int).contains(id) {
                    let x = choose|x: int| 0 <= x < k && ids@.take(k as int)[x] == id;
                    assert(ids@[x] == ids@[k as int]);
                }
            }
        }
        let team = &mut team_list[id.team_id];
        match team.member_mut(id.member_id) {
            Some(m) => {
                m.damage(amount);
            },
            None => {
                proof {
                    assert(false);
                }
            },
        }
        proof {
            assert(member_at(prev, id) == member_at(teams0, id));
            assert(damaged(member_at(teams0, id), member_at(team_list@, id), amount));
            assert(ids@.take(k as int + 1) =~= ids@.take(k as int) + seq![id]);
            assert forall|id2: MemberIdentifier| id_resolves(id2, teams0) implies {
                if ids@.take(k as int + 1).contains(id2) {
                    damaged(
                        member_at(teams0, id2),
                        #[trigger] member_at(team_list@, id2),
                        amount,
                    )
                } else {
                    member_at(team_list@, id2) == member_at(teams0, id2)
                }
            } by {
                lemma_add_contains(ids@.take(k as int), seq![id], id2);
                if id2 == id {
                    assert(seq![id][0] == id2);
                    assert(seq![id].contains(id2));
                } else {
                    if seq![id].contains(id2) {
                        let x = choose|x: int| 0 <= x < seq![id].len() && seq![id][x] == id2;
                        assert(false);
                    }
                    assert(member_at(team_list@, id2) == member_at(prev, id2));
                }
            }
            assert forall|i: int| 0 <= i < teams0.len() implies {
                &&& (#[trigger] team_list@[i])@.name == teams0[i]@.name
                &&& team_list@[i]@.members.len() == teams0[i]@.members.len()
                &&& forall|j: int|
                    0 <= j < teams0[i]@.members.len() ==> same_identity(
                        teams0[i]@.members[j],
                        #[trigger] team_list@[i]@.members[j],
                    )
            } by {
                assert forall|j: int| 0 <= j < teams0[i]@.members.len() implies same_identity(
                    teams0[i]@.members[j],
                    #[trigger] team_list@[i]@.members[j],
                ) by {
                    crate::team::lemma_team_members_len_bounded(teams0[i]);
                    let id2 = MemberIdentifier {
                        team_id: i as usize,
                        member_id: j as usize,
                    };
                    assert(id_resolves(id2, teams0));
                    assert(member_at(teams0, id2) == teams0[i]@.members[j]);
                    assert(member_at(team_list@, id2) == team_list@[i]@.members[j]);
                }
            }
        }
        k += 1;
    }
    proof {
        assert(ids@.take(ids@.len() as int) =~= ids@);
    }
}

/// Heals every member `ids` points at by `amount`, capped at its reference
/// health; everybody else is untouched.
fn heal_all<M: Member>(team_list: &mut Vec<Team<M>>, ids: &Vec<MemberIdentifier>, amount: u64)
    requires
        ids_valid(ids@, old(team_list)@),
    ensures
        teams_same_shape(old(team_list)@, final(team_list)@),
        forall|id: MemberIdentifier|
            id_resolves(id, old(team_list)@) ==> if ids@.contains(id) {
                healed(
                    member_at(old(team_list)@, id),
                    #[trigger] member_at(final(team_list)@, id),
                    amount,
                )
            } else {
                member_at(final(team_list)@, id) == member_at(old(team_list)@, id)
            },
{
    let ghost teams0 = team_list@;
    proof {
        crate::team::lemma_team_list_len_bounded(team_list);
    }
    let mut k: usize = 0;
    while k < ids.len()
        invariant
            0 <= k <= ids@.len(),
            teams0.len() <= usize::MAX,
            ids_valid(ids@, teams0),
            teams_same_shape(teams0, team_list@),
            forall|id: MemberIdentifier|
                id_resolves(id, teams0) ==> if ids@.take(k as int).contains(id) {
                    healed(
                        member_at(teams0, id),
                        #[trigger] member_at(team_list@, id),
                        amount,
                    )
                } else {
                    member_at(team_list@, id) == member_at(teams0, id)
                },
        decreases ids@.len() - k,
    {
        let ghost prev = team_list@;
        let id = ids[k];
        proof {
            assert(id_resolves(id, teams0));
            lemma_same_shape_resolves(teams0, prev, id);
            assert(!ids@.take(k as int).contains(id)) by {
                if ids@.take(k as int).contains(id) {
                    let x = choose|x: int| 0 <= x < k && ids@.take(k as int)[x] == id;
                    assert(ids@[x] == ids@[k as int]);
                }
            }
        }
        let team = &mut team_list[id.team_id];
        match team.member_mut(id.member_id) {
            Some(m) => {
                let max_health = m.statistics().reference_health();
                let current_health = m.health();
                let raised = current_health.saturating_add(amount);
                let new_health = if raised <= max_health {
                    raised
                } else {
                    max_health
                };
                let p = m.member_properties_mut();
                let h = p.health_mut();
                *h = new_health;
            },
            None => {
                proof {
                    assert(false);
                }
            },
        }
        proof {
            assert(member_at(prev, id) == member_at(teams0, id));
            assert(healed(member_at(teams0, id), member_at(team_list@, id), amount));
            assert(ids@.take(k as int + 1) =~= ids@.take(k as int) + seq![id]);
            assert forall|id2: MemberIdentifier| id_resolves(id2, teams0) implies {
                if ids@.take(k as int + 1).contains(id2) {
                    healed(
                        member_at(teams0, id2),
                        #[trigger] member_at(team_list@, id2),
                        amount,
                    )
                } else {
                    member_at(team_list@, id2) == member_at(teams0, id2)
                }
            } by {
                lemma_add_contains(ids@.take(k as int), seq![id], id2);
                if id2 == id {
                    assert(seq![id][0] == id2);
                    assert(seq![id].contains(id2));
                } else {
                    if seq![id].contains(id2) {
                        let x = choose|x: int| 0 <= x < seq![id].len() && seq![id][x] == id2;
                        assert(false);
                    }
                    assert(member_at(team_list@, id2) == member_at(prev, id2));
                }
            }
            assert forall|i: int| 0 <= i < teams0.len() implies {
                &&& (#[trigger] team_list@[i])@.name == teams0[i]@.name
                &&& team_list@[i]@.members.len() == teams0[i]@.members.len()
                &&& forall|j: int|
                    0 <= j < teams0[i]@.members.len() ==> same_identity(
                        teams0[i]@.members[j],
                        #[trigger] team_list@[i]@.members[j],
                    )
            } by {
                assert forall|j: int| 0 <= j < teams0[i]@.members.len() implies same_identity(
                    teams0[i]@.members[j],
                    #[trigger] team_list@[i]@.members[j],
                ) by {
                    crate::team::lemma_team_members_len_bounded(teams0[i]);
                    let id2 = MemberIdentifier {
                        team_id: i as usize,
                        member_id: j as usize,
                    };
                    assert(id_resolves(id2, teams0));
                    assert(member_at(teams0, id2) == teams0[i]@.members[j]);
                    assert(member_at(team_list@, id2) == team_list@[i]@.members[j]);
                }
            }
        }
        k += 1;
    }
    proof {
        assert(ids@.take(ids@.len() as int) =~= ids@);
    }
}

/// Knocks every member `ids` points at to zero health and returns the
/// saturating sum of the health they had; everybody else is untouched.
fn zero_all_and_sum<M: Member>(team_list: &mut Vec<Team<M>>, ids: &Vec<MemberIdentifier>) -> (total:
    u64)
    requires
        ids_valid(ids@, old(team_list)@),
    ensures
        teams_same_shape(old(team_list)@, final(team_list)@),
        total == total_health(old(team_list)@, ids@),
        forall|id: MemberIdentifier|
            id_resolves(id, old(team_list)@) ==> {
                let a = member_at(old(team_list)@, id);
                let b = #[trigger] member_at(final(team_list)@, id);
                if ids@.contains(id) {
                    &&& same_identity(a, b)
                    &&& b.spec_properties().spec_health() == 0
                    &&& b.spec_properties().spec_attack() == a.spec_properties().spec_attack()
                } else {
                    b == a
                }
            },
{
    let ghost teams0 = team_list@;
    proof {
        crate::team::lemma_team_list_len_bounded(team_list);
    }
    let mut total: u64 = 0;
    let mut k: usize = 0;
    while k < ids.len()
        invariant
            0 <= k <= ids@.len(),
            teams0.len() <= usize::MAX,
            ids_valid(ids@, teams0),
            teams_same_shape(teams0, team_list@),
            total == total_health(teams0, ids@.take(k as int)),
            forall|id: MemberIdentifier|
                id_resolves(id, teams0) ==> {
                    let a = member_at(teams0, id);
                    let b = #[trigger] member_at(team_list@, id);
                    if ids@.take(k as int).contains(id) {
                        &&& same_identity(a, b)
                        &&& b.spec_properties().spec_health() == 0
                        &&& b.spec_properties().spec_attack() == a.spec_properties().spec_attack()
                    } else {
                        b == a
                    }
                },
        decreases ids@.len() - k,
    {
        let ghost prev = team_list@;
        let id = ids[k];
        proof {
            assert(id_resolves(id, teams0));
            lemma_same_shape_resolves(teams0, prev, id);
            assert(!ids@.take(k as int).contains(id)) by {
                if ids@.take(k as int).contains(id) {
                    let x = choose|x: int| 0 <= x < k && ids@.take(k as int)[x] == id;
                    assert(ids@[x] == ids@[k as int]);
                }
            }
        }
        let team = &mut team_list[id.team_id];
        match team.member_mut(id.member_id) {
            Some(m) => {
                let h = m.health();
                total = total.saturating_add(h);
                let p = m.member_properties_mut();
                let hr = p.health_mut();
                *hr = 0;
            },
            None => {
                proof {
                    assert(false);
                }
            },
        }
        proof {
            assert(member_at(prev, id) == member_at(teams0, id));
            assert(ids@.take(k as int + 1) =~= ids@.take(k as int) + seq![id]);
            assert(ids@.take(k as int + 1).drop_last() =~= ids@.take(k as int));
            assert(ids@.take(k as int + 1).last() == ids@[k as int]);
            assert forall|id2: MemberIdentifier| id_resolves(id2, teams0) implies {
                let a = member_at(teams0, id2);
                let b = #[trigger] member_at(team_list@, id2);
                if ids@.take(k as int + 1).contains(id2) {
                    &&& same_identity(a, b)
                    &&& b.spec_properties().spec_health() == 0
                    &&& b.spec_properties().spec_attack() == a.spec_properties().spec_attack()
                } else {
                    b == a
                }
            } by {
                lemma_add_contains(ids@.take(k as int), seq![id], id2);
                if id2 == id {
                    assert(seq![id][0] == id2);
                    assert(seq![id].contains(id2));
                } else {
                    if seq![id].contains(id2) {
                        let x = choose|x: int| 0 <= x < seq![id].len() && seq![id][x] == id2;
                        assert(false);
                    }
                    assert(member_at(team_list@, id2) == member_at(prev, id2));
                }
            }
            assert forall|i: int| 0 <= i < teams0.len() implies {
                &&& (#[trigger] team_list@[i])@.name == teams0[i]@.name
                &&& team_list@[i]@.members.len() == teams0[i]@.members.len()
                &&& forall|j: int|
                    0 <= j < teams0[i]@.members.len() ==> same_identity(
                        teams0[i]@.members[j],
                        #[trigger] team_list@[i]@.members[j],
                    )
            } by {
                assert forall|j: int| 0 <= j < teams0[i]@.members.len() implies same_identity(
                    teams0[i]@.members[j],
                    #[trigger] team_list@[i]@.members[j],
                ) by {
                    crate::team::lemma_team_members_len_bounded(teams0[i]);
                    let id2 = MemberIdentifier {
                        team_id: i as usize,
                        member_id: j as usize,
                    };
                    assert(id_resolves(id2, teams0));
                    assert(member_at(teams0, id2) == teams0[i]@.members[j]);
                    assert(member_at(team_list@, id2) == team_list@[i]@.members[j]);
                }
            }
        }
        k += 1;
    }
    proof {
        assert(ids@.take(ids@.len() as int) =~= ids@);
    }
    total
}

/// Simple direct damage attack that ignores defense and status effects.
///
/// Multiple performers have their attacks summed together. Each target
/// receives the full combined damage.
pub struct DirectAttack;

impl<M: Member> Action<M> for DirectAttack {
    open spec fn ens(
        &self,
        performers: Seq<MemberIdentifier>,
        targets: Seq<MemberIdentifier>,
        old_teams: Seq<Team<M>>,
        new_teams: Seq<Team<M>>,
    ) -> bool {
        direct_attack_ens(performers, targets, old_teams, new_teams)
    }

    fn act(&mut self, context: &Context, team_list: &mut Vec<Team<M>>) {
        let total_damage = sum_attack_of(team_list, context.performers());
        damage_all(team_list, context.targets(), total_damage);
    }
}

/// Healing action that restores health to targets.
///
/// Each target receives the specified healing amount, capped at its
/// reference health.
pub struct Heal {
    pub amount: u64,
}

impl<M: Member> Action<M> for Heal {
    open spec fn ens(
        &self,
        performers: Seq<MemberIdentifier>,
        targets: Seq<MemberIdentifier>,
        old_teams: Seq<Team<M>>,
        new_teams: Seq<Team<M>>,
    ) -> bool {
        heal_ens(self.amount, targets, old_teams, new_teams)
    }

    fn act(&mut self, context: &Context, team_list: &mut Vec<Team<M>>) {
        heal_all(team_list, context.targets(), self.amount);
    }
}

/// Skip turn action that does nothing.
///
/// Useful for passing turns or when no action is desired.
pub struct Skip;

impl<M: Member> Action<M> for Skip {
    open spec fn ens(
        &self,
        performers: Seq<MemberIdentifier>,
        targets: Seq<MemberIdentifier>,
        old_teams: Seq<Team<M>>,
        new_teams: Seq<Team<M>>,
    ) -> bool {
        new_teams == old_teams
    }

    fn act(&mut self, context: &Context, team_list: &mut Vec<Team<M>>) {
        proof {
            crate::team::lemma_same_shape_refl(team_list@);
        }
    }
}

/// Sacrifice action where performers damage themselves to heal targets.
///
/// Performers lose the specified amount of health. Targets gain health
/// equal to the total sacrifice amount.
pub struct Sacrifice {
    pub amount: u64,
}

impl<M: Member> Action<M> for Sacrifice {
    open spec fn ens(
        &self,
        performers: Seq<MemberIdentifier>,
        targets: Seq<MemberIdentifier>,
        old_teams: Seq<Team<M>>,
        new_teams: Seq<Team<M>>,
    ) -> bool {
        sacrifice_ens(self.amount, performers, targets, old_teams, new_teams)
    }

    fn act(&mut self, context: &Context, team_list: &mut Vec<Team<M>>) {
        let ghost teams0 = team_list@;
        let performers = context.performers();

        let mut total_sacrifice: u64 = 0;
        let mut k: usize = 0;
        while k < performers.len()
            invariant
                0 <= k <= performers@.len(),
                total_sacrifice == total_repeat(self.amount, k as nat),
                self.amount == old(self).amount,
            decreases performers@.len() - k,
        {
            total_sacrifice = total_sacrifice.saturating_add(self.amount);
            k += 1;
        }

        damage_all(team_list, performers, self.amount);
        let ghost mid = team_list@;
        proof {
            lemma_ids_valid_same_shape(context.spec_targets(), teams0, mid);
        }
        heal_all(team_list, context.targets(), total_sacrifice);

        proof {
            lemma_same_shape_trans(teams0, mid, team_list@);
            assert forall|id: MemberIdentifier| id_resolves(id, teams0) implies {
                let a = member_at(teams0, id);
                let b = #[trigger] member_at(team_list@, id);
                let mid_health = if context.spec_performers().contains(id) {
                    saturated_damage(member_health(a), self.amount)
                } else {
                    member_health(a)
                };
                &&& same_identity(a, b)
                &&& b.spec_properties().spec_attack() == a.spec_properties().spec_attack()
                &&& b.spec_properties().spec_health() == if context.spec_targets().contains(id) {
                    healed_health(
                        mid_health,
                        total_repeat(self.amount, context.spec_performers().len()),
                        a.spec_statistics().spec_reference_health(),
                    )
                } else {
                    mid_health
                }
            } by {
                lemma_same_shape_resolves(teams0, mid, id);
            }
        }
    }
}

/// Drain action that steals health from targets and gives it to performers.
///
/// Targets lose up to the specified amount of health. Performers gain the
/// health that was drained, capped at their reference health.
pub struct Drain {
    pub amount: u64,
}

impl<M: Member> Action<M> for Drain {
    open spec fn ens(
        &self,
        performers: Seq<MemberIdentifier>,
        targets: Seq<MemberIdentifier>,
        old_teams: Seq<Team<M>>,
        new_teams: Seq<Team<M>>,
    ) -> bool {
        drain_ens(self.amount, performers, targets, old_teams, new_teams)
    }

    fn act(&mut self, context: &Context, team_list: &mut Vec<Team<M>>) {
        let ghost teams0 = team_list@;
        let total_drained_health = sum_drained_of(team_list, context.targets(), self.amount);
        damage_all(team_list, context.targets(), self.amount);
        let ghost mid = team_list@;
        proof {
            lemma_ids_valid_same_shape(context.spec_performers(), teams0, mid);
        }
        heal_all(team_list, context.performers(), total_drained_health);

        proof {
            lemma_same_shape_trans(teams0, mid, team_list@);
            assert forall|id: MemberIdentifier| id_resolves(id, teams0) implies {
                let a = member_at(teams0, id);
                let b = #[trigger] member_at(team_list@, id);
                let mid_health = if context.spec_targets().contains(id) {
                    saturated_damage(member_health(a), self.amount)
                } else {
                    member_health(a)
                };
                &&& same_identity(a, b)
                &&& b.spec_properties().spec_attack() == a.spec_properties().spec_attack()
                &&& b.spec_properties().spec_health() == if context.spec_performers().contains(
                    id,
                ) {
                    healed_health(
                        mid_health,
                        total_drained(teams0, context.spec_targets(), self.amount),
                        a.spec_statistics().spec_reference_health(),
                    )
                } else {
                    mid_health
                }
            } by {
                lemma_same_shape_resolves(teams0, mid, id);
            }
        }
    }
}

/// Self-destruct action that damages all targets while knocking out the
/// performers.
///
/// Each performer's health is set to 0. Targets receive damage equal to
/// the performers' summed prior health.
pub struct SelfDestruct;

impl<M: Member> Action<M> for SelfDestruct {
    open spec fn ens(
        &self,
        performers: Seq<MemberIdentifier>,
        targets: Seq<MemberIdentifier>,
        old_teams: Seq<Team<M>>,
        new_teams: Seq<Team<M>>,
    ) -> bool {
        self_destruct_ens(performers, targets, old_teams, new_teams)
    }

    fn act(&mut self, context: &Context, team_list: &mut Vec<Team<M>>) {
        let ghost teams0 = team_list@;
        let total_damage = zero_all_and_sum(team_list, context.performers());
        let ghost mid = team_list@;
        proof {
            lemma_ids_valid_same_shape(context.spec_targets(), teams0, mid);
        }
        damage_all(team_list, context.targets(), total_damage);

        proof {
            lemma_same_shape_trans(teams0, mid, team_list@);
            assert forall|id: MemberIdentifier| id_resolves(id, teams0) implies {
                let a = member_at(teams0, id);
                let b = #[trigger] member_at(team_list@, id);
                &&& same_identity(a, b)
                &&& b.spec_properties().spec_attack() == a.spec_properties().spec_attack()
                &&& b.spec_properties().spec_health() == if context.spec_performers().contains(
                    id,
                ) {
                    0u64
                } else if context.spec_targets().contains(id) {
                    saturated_damage(member_health(a), total_health(teams0, context.spec_performers()))
                } else {
                    member_health(a)
                }
                &&& (!context.spec_performers().contains(id) && !context.spec_targets().contains(
                    id,
                )) ==> b == a
            } by {
                lemma_same_shape_resolves(teams0, mid, id);
            }
        }
    }
}

/// Area attack that distributes damage among multiple targets.
///
/// The performers' total attack is split evenly among all targets
/// (integer division; the remainder is lost). Without targets, nothing
/// happens.
pub struct AreaAttack;

impl<M: Member> Action<M> for AreaAttack {
    open spec fn ens(
        &self,
        performers: Seq<MemberIdentifier>,
        targets: Seq<MemberIdentifier>,
        old_teams: Seq<Team<M>>,
        new_teams: Seq<Team<M>>,
    ) -> bool {
        area_attack_ens(performers, targets, old_teams, new_teams)
    }

    fn act(&mut self, context: &Context, team_list: &mut Vec<Team<M>>) {
        let total_attack_value = sum_attack_of(team_list, context.performers());
        let targets = context.targets();
        let target_count = targets.len() as u64;

        if target_count > 0 {
            let damage_per_target = total_attack_value / target_count;
            damage_all(team_list, targets, damage_per_target);
        } else {
            proof {
                crate::team::lemma_same_shape_refl(team_list@);
            }
        }
    }
}

} // verus!
