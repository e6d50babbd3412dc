use fierceful_atto::battle::{EndCondition, TurnSystem};
use fierceful_atto::catalogue::members::{Player, Props, Stats};
use fierceful_atto::member::MemberIdentifier;
use fierceful_atto::team::Team;

fn player(name: &str, health: u64) -> Player {
    Player::new(String::from(name), Stats::new(100, 10), Props::new(health, 10))
}

fn team(name: &str, healths: &[u64]) -> Team<Player> {
    let mut members = Vec::new();
    for (i, h) in healths.iter().enumerate() {
        members.push(player(&format!("{name}{i}"), *h));
    }
    Team::new(String::from(name), members)
}

fn turn_system(end_condition: EndCondition) -> TurnSystem {
    TurnSystem::new(MemberIdentifier::zeroed(), end_condition)
}

#[test]
fn default_turn_system_uses_last_team_standing() {
    // One team holding every survivor ends the battle under the default
    // end condition.
    let teams = vec![team("First", &[10, 20]), team("Second", &[0])];
    assert!(TurnSystem::default().battle_should_end(&teams));
    let spread = vec![team("First", &[10]), team("Second", &[5])];
    assert!(!TurnSystem::default().battle_should_end(&spread));
}

#[test]
fn last_member_standing_ends_when_everyone_is_dead() {
    let teams = vec![team("First", &[0, 0]), team("Second", &[0])];
    assert!(turn_system(EndCondition::LastMemberStanding).battle_should_end(&teams));
}

#[test]
fn last_member_standing_ends_with_exactly_one_member_alive() {
    let teams = vec![team("First", &[0, 42]), team("Second", &[0])];
    assert!(turn_system(EndCondition::LastMemberStanding).battle_should_end(&teams));
}

#[test]
fn last_member_standing_continues_with_two_alive_on_the_same_team() {
    let teams = vec![team("First", &[1, 1]), team("Second", &[0])];
    assert!(!turn_system(EndCondition::LastMemberStanding).battle_should_end(&teams));
}

#[test]
fn last_member_standing_continues_with_two_alive_on_different_teams() {
    let teams = vec![team("First", &[0, 1]), team("Second", &[1])];
    assert!(!turn_system(EndCondition::LastMemberStanding).battle_should_end(&teams));
}

#[test]
fn last_member_standing_ends_over_an_empty_team_list() {
    let teams: Vec<Team<Player>> = Vec::new();
    assert!(turn_system(EndCondition::LastMemberStanding).battle_should_end(&teams));
}

#[test]
fn last_team_standing_ends_when_one_team_holds_all_survivors() {
    let teams = vec![team("First", &[10, 20]), team("Second", &[0])];
    assert!(turn_system(EndCondition::LastTeamStanding).battle_should_end(&teams));
}

#[test]
fn last_team_standing_continues_with_survivors_on_two_teams() {
    let teams = vec![team("First", &[10, 0]), team("Second", &[5])];
    assert!(!turn_system(EndCondition::LastTeamStanding).battle_should_end(&teams));
}

#[test]
fn last_team_standing_ends_when_everyone_is_dead() {
    let teams = vec![team("First", &[0]), team("Second", &[0])];
    assert!(turn_system(EndCondition::LastTeamStanding).battle_should_end(&teams));
}

#[test]
fn last_team_standing_counts_each_team_once() {
    let teams = vec![
        team("First", &[1, 1, 1]),
        team("Second", &[0, 0]),
        team("Third", &[0]),
    ];
    assert!(turn_system(EndCondition::LastTeamStanding).battle_should_end(&teams));
}
