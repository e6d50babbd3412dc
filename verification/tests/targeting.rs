use fierceful_atto::action::{Context, Target};
use fierceful_atto::catalogue::members::{Player, Props, Stats};
use fierceful_atto::member::MemberIdentifier;
use fierceful_atto::team::Team;

fn player(name: &str, max_health: u64, attack: u64, health: u64) -> Player {
    Player::new(
        String::from(name),
        Stats::new(max_health, attack),
        Props::new(health, attack),
    )
}

/// Two teams: "Alpha" with two members, "Beta" with one.
fn two_teams() -> Vec<Team<Player>> {
    vec![
        Team::new(
            String::from("Alpha"),
            vec![player("A0", 100, 10, 100), player("A1", 100, 10, 100)],
        ),
        Team::new(String::from("Beta"), vec![player("B0", 80, 5, 80)]),
    ]
}

fn id(team_id: usize, member_id: usize) -> MemberIdentifier {
    MemberIdentifier::new(team_id, member_id)
}

#[test]
fn nobody_resolves_to_no_members() {
    let teams = two_teams();
    let ctx = Context::new(&teams, Target::Nobody, Target::Nobody);
    assert!(ctx.performers().is_empty());
    assert!(ctx.targets().is_empty());
}

#[test]
fn single_resolves_to_exactly_that_member() {
    let teams = two_teams();
    let ctx = Context::new(&teams, Target::Single(id(0, 1)), Target::Single(id(1, 0)));
    assert_eq!(ctx.performers(), &vec![id(0, 1)]);
    assert_eq!(ctx.targets(), &vec![id(1, 0)]);
}

#[test]
fn single_with_missing_team_resolves_to_nobody() {
    let teams = two_teams();
    let ctx = Context::new(&teams, Target::Single(id(5, 0)), Target::Nobody);
    assert!(ctx.performers().is_empty());
}

#[test]
fn single_with_missing_member_resolves_to_nobody() {
    let teams = two_teams();
    let ctx = Context::new(&teams, Target::Single(id(1, 3)), Target::Nobody);
    assert!(ctx.performers().is_empty());
}

#[test]
fn discrete_multiple_collapses_duplicates() {
    let teams = two_teams();
    let ctx = Context::new(
        &teams,
        Target::Nobody,
        Target::DiscreteMultiple(vec![id(0, 1), id(0, 1)]),
    );
    assert_eq!(ctx.targets(), &vec![id(0, 1)]);
}

#[test]
fn discrete_multiple_skips_missing_members_and_keeps_roster_order() {
    let teams = two_teams();
    let ctx = Context::new(
        &teams,
        Target::Nobody,
        Target::DiscreteMultiple(vec![id(1, 0), id(7, 7), id(0, 0), id(0, 9)]),
    );
    assert_eq!(ctx.targets(), &vec![id(0, 0), id(1, 0)]);
}

#[test]
fn full_team_resolves_to_every_member_in_order() {
    let teams = two_teams();
    let ctx = Context::new(&teams, Target::FullTeam { team_id: 0 }, Target::Nobody);
    assert_eq!(ctx.performers(), &vec![id(0, 0), id(0, 1)]);
}

#[test]
fn full_team_with_missing_team_resolves_to_nobody() {
    let teams = two_teams();
    let ctx = Context::new(&teams, Target::FullTeam { team_id: 9 }, Target::Nobody);
    assert!(ctx.performers().is_empty());
}

#[test]
fn all_resolves_to_every_member_of_every_team() {
    let teams = two_teams();
    let ctx = Context::new(&teams, Target::Nobody, Target::All);
    assert_eq!(ctx.targets(), &vec![id(0, 0), id(0, 1), id(1, 0)]);
}

#[test]
fn all_over_empty_team_list_resolves_to_nobody() {
    let teams: Vec<Team<Player>> = Vec::new();
    let ctx = Context::new(&teams, Target::All, Target::Single(id(0, 0)));
    assert!(ctx.performers().is_empty());
    assert!(ctx.targets().is_empty());
}

#[test]
fn all_skips_empty_teams() {
    let teams = vec![
        Team::new(String::from("Empty"), Vec::<Player>::new()),
        Team::new(String::from("Solo"), vec![player("S0", 10, 1, 10)]),
    ];
    let ctx = Context::new(&teams, Target::Nobody, Target::All);
    assert_eq!(ctx.targets(), &vec![id(1, 0)]);
}
