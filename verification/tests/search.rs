use fierceful_atto::catalogue::members::{Player, Props, Stats};
use fierceful_atto::member::{Member, MemberIdentifier};
use fierceful_atto::search::{FilterCriteria, SuggestedPerformerCriteria};
use fierceful_atto::team::Team;

fn player(name: &str, health: u64) -> Player {
    Player::new(String::from(name), Stats::new(100, 10), Props::new(health, 10))
}

fn team(name: &str, healths: &[u64]) -> Team<Player> {
    let mut members = Vec::new();
    for (i, h) in healths.iter().enumerate() {
        members.push(player(&format!("{name}{i}"), *h));
    }
    Team::new(String::from(name), members)
}

fn id(team_id: usize, member_id: usize) -> MemberIdentifier {
    MemberIdentifier::new(team_id, member_id)
}

fn cycle_alive() -> SuggestedPerformerCriteria {
    SuggestedPerformerCriteria::CycleAlive
}

#[test]
fn search_over_no_teams_finds_nobody() {
    let teams: Vec<Team<Player>> = Vec::new();
    assert_eq!(cycle_alive().search(Some(id(0, 0)), &teams), None);
    assert_eq!(cycle_alive().search(None, &teams), None);
}

#[test]
fn search_never_reconsiders_the_current_member() {
    // A single team whose only member is the current one: nobody is left.
    let teams = vec![team("Solo", &[100])];
    assert_eq!(cycle_alive().search(Some(id(0, 0)), &teams), None);
}

#[test]
fn search_prefers_the_next_teammate() {
    let teams = vec![team("Trio", &[100, 100, 100]), team("Other", &[100])];
    assert_eq!(cycle_alive().search(Some(id(0, 0)), &teams), Some(id(0, 1)));
}

#[test]
fn search_skips_dead_teammates() {
    let teams = vec![team("Trio", &[100, 0, 100]), team("Other", &[100])];
    assert_eq!(cycle_alive().search(Some(id(0, 0)), &teams), Some(id(0, 2)));
}

#[test]
fn search_moves_to_the_next_team_when_the_current_one_is_exhausted() {
    let teams = vec![team("First", &[100]), team("Second", &[0, 100])];
    assert_eq!(cycle_alive().search(Some(id(0, 0)), &teams), Some(id(1, 1)));
}

#[test]
fn search_wraps_around_to_the_first_team() {
    let teams = vec![team("First", &[100]), team("Second", &[100])];
    assert_eq!(cycle_alive().search(Some(id(1, 0)), &teams), Some(id(0, 0)));
}

#[test]
fn search_ignores_earlier_teammates_of_the_current_member() {
    // The current member's earlier teammate is alive, but its team is only
    // scanned past the current index.
    let teams = vec![team("Trio", &[100, 100, 0])];
    assert_eq!(cycle_alive().search(Some(id(0, 1)), &teams), None);
}

#[test]
fn search_finds_nobody_when_everyone_is_dead() {
    let teams = vec![team("First", &[0, 0]), team("Second", &[0])];
    assert_eq!(cycle_alive().search(Some(id(0, 0)), &teams), None);
}

#[test]
fn search_with_an_out_of_range_current_team_scans_all_teams() {
    let teams = vec![team("First", &[100]), team("Second", &[0])];
    assert_eq!(cycle_alive().search(Some(id(99, 7)), &teams), Some(id(0, 0)));
}

#[test]
fn search_without_a_current_member_starts_after_the_very_first() {
    let teams = vec![team("First", &[100, 100])];
    assert_eq!(cycle_alive().search(None, &teams), Some(id(0, 1)));
}

#[test]
fn nobody_criteria_suggests_nobody() {
    let teams = vec![team("First", &[100])];
    let criteria: SuggestedPerformerCriteria = SuggestedPerformerCriteria::Nobody;
    assert_eq!(criteria.search(Some(id(0, 0)), &teams), None);
}

#[test]
fn constant_criteria_suggests_the_same_member_every_time() {
    let teams = vec![team("First", &[0])];
    let criteria: SuggestedPerformerCriteria =
        SuggestedPerformerCriteria::Constant(id(9, 9));
    assert_eq!(criteria.search(Some(id(0, 0)), &teams), Some(id(9, 9)));
    assert_eq!(criteria.search(None, &teams), Some(id(9, 9)));
}

/// A custom criterion: only members with at least this much health qualify.
struct HealthAtLeast {
    threshold: u64,
}

impl FilterCriteria<Player> for HealthAtLeast {
    fn spec_accepts(&self, _id: MemberIdentifier, m: Player) -> bool {
        m.health() >= self.threshold
    }

    fn accepts(&self, _id: MemberIdentifier, m: &Player) -> bool {
        m.health() >= self.threshold
    }
}

#[test]
fn cycle_with_uses_the_supplied_criterion() {
    let teams = vec![team("First", &[100, 30, 80]), team("Second", &[50])];
    let criteria = SuggestedPerformerCriteria::CycleWith(HealthAtLeast { threshold: 60 });
    assert_eq!(criteria.search(Some(id(0, 0)), &teams), Some(id(0, 2)));

    let demanding = SuggestedPerformerCriteria::CycleWith(HealthAtLeast { threshold: 1000 });
    assert_eq!(demanding.search(Some(id(0, 0)), &teams), None);
}
