use fierceful_atto::catalogue::members::{Gear, Player, Props, Stats};
use fierceful_atto::equipment::Equipment;
use fierceful_atto::member::{Member, MemberIdentifier, Properties, Statistics};
use fierceful_atto::team::Team;

fn player(name: &str, max_health: u64, attack: u64, health: u64) -> Player {
    Player::new(
        String::from(name),
        Stats::new(max_health, attack),
        Props::new(health, attack),
    )
}

#[test]
fn damage_subtracts_exactly() {
    let mut props = Props::new(100, 10);
    props.damage(30);
    assert_eq!(props.health(), 70);
    assert_eq!(props.attack(), 10);
}

#[test]
fn damage_saturates_at_zero() {
    let mut props = Props::new(100, 10);
    props.damage(1000);
    assert_eq!(props.health(), 0);
    props.damage(u64::MAX);
    assert_eq!(props.health(), 0);
}

#[test]
fn member_damage_keeps_the_rest_of_the_member() {
    let mut m = player("Hero", 120, 30, 100);
    m.damage(u64::MAX);
    assert_eq!(m.health(), 0);
    assert_eq!(m.name(), "Hero");
    assert_eq!(m.statistics().reference_health(), 120);
    assert_eq!(m.member_properties().attack(), 30);
}

#[test]
fn health_mut_writes_through() {
    let mut props = Props::new(40, 10);
    *props.health_mut() = 75;
    assert_eq!(props.health(), 75);
    assert_eq!(props.attack(), 10);
}

#[test]
fn sum_properties_saturates() {
    let a = Props::new(u64::MAX - 1, 3);
    let b = Props::new(5, u64::MAX);
    let s = a.sum_properties(&b);
    assert_eq!(s.health(), u64::MAX);
    assert_eq!(s.attack(), u64::MAX);
}

#[test]
fn apply_properties_matches_sum_properties() {
    let mut a = Props::new(10, 20);
    let b = Props::new(7, 5);
    let expected = a.sum_properties(&b);
    a.apply_properties(&b);
    assert_eq!(a, expected);
}

#[test]
fn final_properties_with_no_gear_match_the_base_properties() {
    let m = player("Plain", 100, 25, 90);
    let fp = m.final_properties();
    assert_eq!(fp.health(), 90);
    assert_eq!(fp.attack(), 25);
    assert_eq!(Gear.associated_properties(), Props::new(0, 0));
}

#[test]
fn from_stats_starts_at_full_health() {
    let stats = Stats::new(150, 12);
    let props = Props::from_stats(&stats);
    assert_eq!(props.health(), 150);
    assert_eq!(props.attack(), 12);
    assert_eq!(stats.base_attack(), 12);
}

#[test]
fn member_identifier_defaults_to_the_origin() {
    assert_eq!(MemberIdentifier::default(), MemberIdentifier::new(0, 0));
    assert_eq!(MemberIdentifier::zeroed(), MemberIdentifier::new(0, 0));
}

#[test]
fn member_identifier_orders_by_team_then_member() {
    assert!(MemberIdentifier::new(0, 9) < MemberIdentifier::new(1, 0));
    assert!(MemberIdentifier::new(1, 0) < MemberIdentifier::new(1, 1));
    assert_eq!(MemberIdentifier::new(2, 3), MemberIdentifier::new(2, 3));
}

#[test]
fn team_exposes_its_name_and_members() {
    let mut team = Team::new(
        String::from("Squad"),
        vec![player("S0", 100, 10, 100), player("S1", 100, 10, 50)],
    );
    assert_eq!(team.name(), "Squad");
    assert_eq!(team.member_list().len(), 2);
    assert_eq!(team.member(1).unwrap().health(), 50);
    assert!(team.member(2).is_none());
    assert!(team.member_mut(9).is_none());

    team.member_mut(1).unwrap().damage(10);
    assert_eq!(team.member(1).unwrap().health(), 40);

    let members = team.member_list_mut();
    members[0].damage(5);
    assert_eq!(team.member(0).unwrap().health(), 95);
}
