use fierceful_atto::action::Target;
use fierceful_atto::battle::{Builder, EndCondition};
use fierceful_atto::catalogue::actions::DirectAttack;
use fierceful_atto::catalogue::members::{Player, Props, Stats};
use fierceful_atto::member::{Member, MemberIdentifier};
use fierceful_atto::search::SuggestedPerformerCriteria;
use fierceful_atto::team::Team;

fn player(name: &str, max_health: u64, attack: u64) -> Player {
    let stats = Stats::new(max_health, attack);
    let props = Props::from_stats(&stats);
    Player::new(String::from(name), stats, props)
}

/// Picco (100 health, 15 attack) against Bacco (150 health, 12 attack).
fn duel_teams() -> Vec<Team<Player>> {
    vec![
        Team::new(String::from("Strong Ones"), vec![player("Picco", 100, 15)]),
        Team::new(String::from("Weak Ones"), vec![player("Bacco", 150, 12)]),
    ]
}

/// The suggested performer attacks the first member of the other duo.
fn duel_callback(
    _team_list: &[Team<Player>],
    suggested: Option<MemberIdentifier>,
) -> (DirectAttack, Target, Target) {
    let performer = suggested.unwrap_or_default();
    let target = if performer.team_id == 0 {
        MemberIdentifier::new(1, 0)
    } else {
        MemberIdentifier::new(0, 0)
    };
    (DirectAttack, Target::Single(performer), Target::Single(target))
}

fn health_of(teams: &[Team<Player>], team_id: usize) -> u64 {
    teams[team_id].member_list()[0].health()
}

#[test]
fn duel_opening_turns_trade_the_expected_damage() {
    let mut battle =
        Builder::new(duel_teams(), None, duel_callback, EndCondition::LastTeamStanding).build();

    battle.play_turn();
    assert_eq!(health_of(battle.teams(), 0), 100);
    assert_eq!(health_of(battle.teams(), 1), 135);

    battle.play_turn();
    assert_eq!(health_of(battle.teams(), 0), 88);
    assert_eq!(health_of(battle.teams(), 1), 135);
}

#[test]
fn duel_finishes_after_the_expected_number_of_turns() {
    let mut battle =
        Builder::new(duel_teams(), None, duel_callback, EndCondition::LastTeamStanding).build();

    // Bacco hits for 12 on even turns: Picco falls on turn 18 (9 * 12 > 100),
    // before Picco's tenth attack would finish Bacco off.
    let mut turns: u32 = 0;
    while !battle.is_finished() {
        battle.play_turn();
        turns += 1;
        assert!(turns < 100);
    }
    assert_eq!(turns, 18);

    let teams = battle.take_teams();
    assert_eq!(health_of(&teams, 0), 0);
    assert_eq!(health_of(&teams, 1), 150 - 9 * 15);
}

#[test]
fn run_plays_the_whole_battle_to_its_conclusion() {
    let battle =
        Builder::new(duel_teams(), None, duel_callback, EndCondition::LastTeamStanding).build();
    let teams = battle.run().unwrap();
    assert_eq!(health_of(&teams, 0), 0);
    assert_eq!(health_of(&teams, 1), 15);
}

#[test]
fn play_turn_on_a_finished_battle_is_a_no_op() {
    let mut battle =
        Builder::new(duel_teams(), None, duel_callback, EndCondition::LastTeamStanding).build();

    battle.play_turn();
    battle.set_completed();
    assert!(battle.is_finished());
    let healths = (health_of(battle.teams(), 0), health_of(battle.teams(), 1));

    battle.play_turn();
    assert!(battle.is_finished());
    assert_eq!(health_of(battle.teams(), 0), healths.0);
    assert_eq!(health_of(battle.teams(), 1), healths.1);
}

#[test]
fn set_completed_before_any_turn_freezes_the_battle() {
    let mut battle =
        Builder::new(duel_teams(), None, duel_callback, EndCondition::LastTeamStanding).build();
    assert!(!battle.is_finished());
    battle.set_completed();
    battle.play_turn();
    assert_eq!(health_of(battle.teams(), 0), 100);
    assert_eq!(health_of(battle.teams(), 1), 150);
}

#[test]
fn nobody_criteria_stops_suggesting_performers_after_the_first_turn() {
    let criteria: SuggestedPerformerCriteria = SuggestedPerformerCriteria::Nobody;
    let mut battle =
        Builder::new(duel_teams(), None, duel_callback, EndCondition::LastTeamStanding)
            .set_suggested_performer_criteria(criteria)
            .build();

    // The first turn still runs with the initial suggestion.
    battle.play_turn();
    assert_eq!(health_of(battle.teams(), 1), 135);

    // With no suggestion, the callback falls back to the zeroed identifier:
    // Picco keeps attacking Bacco.
    battle.play_turn();
    assert_eq!(health_of(battle.teams(), 0), 100);
    assert_eq!(health_of(battle.teams(), 1), 120);
}

#[test]
fn constant_criteria_keeps_the_same_performer() {
    let criteria: SuggestedPerformerCriteria =
        SuggestedPerformerCriteria::Constant(MemberIdentifier::new(0, 0));
    let mut battle =
        Builder::new(duel_teams(), None, duel_callback, EndCondition::LastTeamStanding)
            .set_suggested_performer_criteria(criteria)
            .build();

    battle.play_turn();
    battle.play_turn();
    assert_eq!(health_of(battle.teams(), 0), 100);
    assert_eq!(health_of(battle.teams(), 1), 120);
}

#[test]
fn teams_exposes_the_current_rosters() {
    let battle =
        Builder::new(duel_teams(), None, duel_callback, EndCondition::LastTeamStanding).build();
    let teams = battle.teams();
    assert_eq!(teams.len(), 2);
    assert_eq!(teams[0].name(), "Strong Ones");
    assert_eq!(teams[1].name(), "Weak Ones");
    assert_eq!(teams[0].member_list()[0].name(), "Picco");
}
