//! Teams, ordered groups of [`Member`]s that fight in a battle, and the
//! spec-level vocabulary used to talk about team rosters.

use vstd::prelude::*;

use crate::member::{Member, MemberIdentifier};

verus! {

/// Spec-level image of a [`Team`]: its name and its ordered member roster.
pub struct TeamView<M> {
    pub name: Seq<char>,
    pub members: Seq<M>,
}

/// Coalition made up of multiple fighting [`Member`]s.
pub struct Team<M> {
    name: String,
    member_list: Vec<M>,
}

impl<M> View for Team<M> {
    type V = TeamView<M>;

    closed spec fn view(&self) -> TeamView<M> {
        TeamView { name: self.name@, members: self.member_list@ }
    }
}

impl<M: Member> Team<M> {
    /// Create a new [`Team`] object using a list of members associated to it.
    pub fn new(name: String, member_list: Vec<M>) -> (t: Self)
        ensures
            t@.name == name@,
            t@.members == member_list@,
    {
        Self { name, member_list }
    }

    /// Returns this team's name.
    pub fn name(&self) -> (n: &str)
        ensures
            n@ == self@.name,
    {
        self.name.as_str()
    }

    /// Returns a reference to the internal member list.
    pub fn member_list(&self) -> (l: &[M])
        ensures
            l@ == self@.members,
    {
        self.member_list.as_slice()
    }

    /// Returns a mutable reference to the internal member list.
    ///
    /// The list itself cannot grow or shrink through the returned slice;
    /// only the members themselves can change.
    pub fn member_list_mut(&mut self) -> (l: &mut Vec<M>)
        ensures
            l@ == old(self)@.members,
            final(self)@.members == final(l)@,
            final(self)@.name == old(self)@.name,
    {
        &mut self.member_list
    }

    /// Returns a reference to one associated member.
    pub fn member(&self, member_id: usize) -> (r: Option<&M>)
        ensures
            match r {
                Some(m) => member_id < self@.members.len() && *m == self@.members[member_id as int],
                None => member_id >= self@.members.len(),
            },
    {
        if member_id < self.member_list.len() {
            Some(&self.member_list[member_id])
        } else {
            None
        }
    }

    /// Returns a mutable reference to one associated member.
    pub fn member_mut(&mut self, member_id: usize) -> (r: Option<&mut M>)
        ensures
            match r {
                Some(m) => {
                    &&& member_id < old(self)@.members.len()
                    &&& *m == old(self)@.members[member_id as int]
                    &&& final(self)@.name == old(self)@.name
                    &&& final(self)@.members == old(self)@.members.update(
                        member_id as int,
                        *final(m),
                    )
                },
                None => member_id >= old(self)@.members.len() && *final(self) == *old(self),
            },
    {
        if member_id < self.member_list.len() {
            Some(&mut self.member_list[member_id])
        } else {
            None
        }
    }
}

/// Whether `id` points at an existing member of `teams`.
pub open spec fn id_resolves<M: Member>(id: MemberIdentifier, teams: Seq<Team<M>>) -> bool {
    id.team_id < teams.len() && id.member_id < teams[id.team_id as int]@.members.len()
}

/// The member of `teams` that `id` points at (meaningful when `id` resolves).
pub open spec fn member_at<M: Member>(teams: Seq<Team<M>>, id: MemberIdentifier) -> M {
    teams[id.team_id as int]@.members[id.member_id as int]
}

/// Whether two members agree on everything an action may not change: the
/// name, the statistics and the equipment.
pub open spec fn same_identity<M: Member>(a: M, b: M) -> bool {
    &&& b.spec_name() == a.spec_name()
    &&& b.spec_statistics() == a.spec_statistics()
    &&& b.spec_equipment() == a.spec_equipment()
}

/// Whether two team lists have the same structure: the same teams, each with
/// the same name and the same members, where each member kept its identity
/// (only its properties may differ).
pub open spec fn teams_same_shape<M: Member>(a: Seq<Team<M>>, b: Seq<Team<M>>) -> bool {
    &&& b.len() == a.len()
    &&& forall|i: int|
        0 <= i < a.len() ==> {
            &&& (#[trigger] b[i])@.name == a[i]@.name
            &&& b[i]@.members.len() == a[i]@.members.len()
            &&& forall|j: int|
                0 <= j < a[i]@.members.len() ==> same_identity(
                    a[i]@.members[j],
                    #[trigger] b[i]@.members[j],
                )
        }
}

/// The identifiers of team `team_id`'s members with index in
/// `start .. end`, in index order.
pub open spec fn team_scan(team_id: int, start: int, end: int) -> Seq<MemberIdentifier> {
    Seq::new(
        if end - start >= 0 {
            (end - start) as nat
        } else {
            0
        },
        |j: int|
            MemberIdentifier { team_id: team_id as usize, member_id: (start + j) as usize },
    )
}

/// The identifiers of every member of the first `n` teams, team by team, in
/// index order.
pub open spec fn roster_ids_first<M: Member>(teams: Seq<Team<M>>, n: int) -> Seq<MemberIdentifier>
    decreases n,
{
    if n <= 0 {
        Seq::empty()
    } else {
        roster_ids_first(teams, n - 1) + team_scan(n - 1, 0, teams[n - 1]@.members.len() as int)
    }
}

/// The identifiers of every member of every team, in team order, then in
/// member-index order.
pub open spec fn roster_ids<M: Member>(teams: Seq<Team<M>>) -> Seq<MemberIdentifier> {
    roster_ids_first(teams, teams.len() as int)
}

/// A team's roster is held in a vector, so its length fits in `usize`.
pub proof fn lemma_team_members_len_bounded<M>(t: Team<M>)
    ensures
        t@.members.len() <= usize::MAX,
{
    broadcast use vstd::std_specs::vec::axiom_spec_len;

    assert(vstd::std_specs::vec::spec_vec_len(&t.member_list) == t.member_list@.len());
}

/// A team list is held in a vector, so its length fits in `usize`.
pub proof fn lemma_team_list_len_bounded<M>(v: &Vec<Team<M>>)
    ensures
        v@.len() <= usize::MAX,
{
    broadcast use vstd::std_specs::vec::axiom_spec_len;

    assert(vstd::std_specs::vec::spec_vec_len(v) == v@.len());
}

/// Team lists that share a shape resolve the same identifiers.
pub proof fn lemma_same_shape_resolves<M: Member>(
    a: Seq<Team<M>>,
    b: Seq<Team<M>>,
    id: MemberIdentifier,
)
    requires
        teams_same_shape(a, b),
    ensures
        id_resolves(id, a) == id_resolves(id, b),
{
}

/// Sharing a shape is reflexive.
pub proof fn lemma_same_shape_refl<M: Member>(a: Seq<Team<M>>)
    ensures
        teams_same_shape(a, a),
{
}

/// Sharing a shape is transitive.
pub proof fn lemma_same_shape_trans<M: Member>(a: Seq<Team<M>>, b: Seq<Team<M>>, c: Seq<Team<M>>)
    requires
        teams_same_shape(a, b),
        teams_same_shape(b, c),
    ensures
        teams_same_shape(a, c),
{
}

} // verus!
