use fierceful_atto::action::{Action, Context, Target};
use fierceful_atto::catalogue::actions::{
    AreaAttack, DirectAttack, Drain, Heal, Sacrifice, SelfDestruct, Skip,
};
use fierceful_atto::catalogue::members::{Player, Props, Stats};
use fierceful_atto::member::{Member, MemberIdentifier, Statistics};
use fierceful_atto::team::Team;

fn player(name: &str, max_health: u64, attack: u64, health: u64) -> Player {
    Player::new(
        String::from(name),
        Stats::new(max_health, attack),
        Props::new(health, attack),
    )
}

fn id(team_id: usize, member_id: usize) -> MemberIdentifier {
    MemberIdentifier::new(team_id, member_id)
}

fn health_of(teams: &[Team<Player>], team_id: usize, member_id: usize) -> u64 {
    teams[team_id].member_list()[member_id].health()
}

#[test]
fn direct_attack_sums_performers_and_hits_every_target_in_full() {
    let mut teams = vec![
        Team::new(
            String::from("Raiders"),
            vec![player("R0", 100, 10, 100), player("R1", 100, 5, 100)],
        ),
        Team::new(
            String::from("Defenders"),
            vec![player("D0", 80, 3, 80), player("D1", 80, 3, 80)],
        ),
    ];
    let ctx = Context::new(&teams, Target::FullTeam { team_id: 0 }, Target::FullTeam {
        team_id: 1,
    });
    DirectAttack.act(&ctx, &mut teams);
    assert_eq!(health_of(&teams, 1, 0), 65);
    assert_eq!(health_of(&teams, 1, 1), 65);
    assert_eq!(health_of(&teams, 0, 0), 100);
    assert_eq!(health_of(&teams, 0, 1), 100);
}

#[test]
fn direct_attack_damage_saturates_at_zero() {
    let mut teams = vec![
        Team::new(String::from("Strong"), vec![player("S0", 100, 1000, 100)]),
        Team::new(String::from("Weak"), vec![player("W0", 20, 1, 20)]),
    ];
    let ctx = Context::new(&teams, Target::Single(id(0, 0)), Target::Single(id(1, 0)));
    DirectAttack.act(&ctx, &mut teams);
    assert_eq!(health_of(&teams, 1, 0), 0);
}

#[test]
fn heal_caps_at_the_reference_health() {
    let mut teams = vec![Team::new(
        String::from("Wounded"),
        vec![player("W0", 100, 10, 90)],
    )];
    let ctx = Context::new(&teams, Target::Nobody, Target::Single(id(0, 0)));
    let mut heal = Heal { amount: 25 };
    heal.act(&ctx, &mut teams);
    assert_eq!(health_of(&teams, 0, 0), 100);
}

#[test]
fn heal_raises_health_by_the_exact_amount_below_the_cap() {
    let mut teams = vec![Team::new(
        String::from("Wounded"),
        vec![player("W0", 100, 10, 50)],
    )];
    let ctx = Context::new(&teams, Target::Nobody, Target::Single(id(0, 0)));
    let mut heal = Heal { amount: 20 };
    heal.act(&ctx, &mut teams);
    assert_eq!(health_of(&teams, 0, 0), 70);
}

#[test]
fn skip_changes_nothing() {
    let mut teams = vec![Team::new(
        String::from("Calm"),
        vec![player("C0", 100, 10, 60)],
    )];
    let ctx = Context::new(&teams, Target::Single(id(0, 0)), Target::All);
    Skip.act(&ctx, &mut teams);
    assert_eq!(health_of(&teams, 0, 0), 60);
    assert_eq!(teams[0].name(), "Calm");
}

#[test]
fn area_attack_splits_damage_evenly_and_loses_the_remainder() {
    let mut teams = vec![
        Team::new(String::from("Caster"), vec![player("C0", 100, 10, 100)]),
        Team::new(
            String::from("Crowd"),
            vec![
                player("T0", 10, 1, 10),
                player("T1", 10, 1, 10),
                player("T2", 10, 1, 10),
            ],
        ),
    ];
    let ctx = Context::new(&teams, Target::Single(id(0, 0)), Target::FullTeam {
        team_id: 1,
    });
    AreaAttack.act(&ctx, &mut teams);
    // Total attack 10 over 3 targets: each takes 10 / 3 = 3; 1 point is lost
    // to integer division.
    assert_eq!(health_of(&teams, 1, 0), 7);
    assert_eq!(health_of(&teams, 1, 1), 7);
    assert_eq!(health_of(&teams, 1, 2), 7);
}

#[test]
fn area_attack_without_targets_changes_nothing() {
    let mut teams = vec![Team::new(
        String::from("Caster"),
        vec![player("C0", 100, 10, 100)],
    )];
    let ctx = Context::new(&teams, Target::Single(id(0, 0)), Target::Nobody);
    AreaAttack.act(&ctx, &mut teams);
    assert_eq!(health_of(&teams, 0, 0), 100);
}

#[test]
fn sacrifice_moves_health_from_performer_to_target() {
    let mut teams = vec![
        Team::new(String::from("Givers"), vec![player("G0", 100, 10, 100)]),
        Team::new(String::from("Takers"), vec![player("T0", 100, 10, 50)]),
    ];
    let ctx = Context::new(&teams, Target::Single(id(0, 0)), Target::Single(id(1, 0)));
    let mut sacrifice = Sacrifice { amount: 30 };
    sacrifice.act(&ctx, &mut teams);
    assert_eq!(health_of(&teams, 0, 0), 70);
    assert_eq!(health_of(&teams, 1, 0), 80);
}

#[test]
fn sacrifice_on_oneself_pays_first_and_heals_after() {
    let mut teams = vec![Team::new(
        String::from("Lone"),
        vec![player("L0", 100, 10, 100)],
    )];
    let ctx = Context::new(&teams, Target::Single(id(0, 0)), Target::Single(id(0, 0)));
    let mut sacrifice = Sacrifice { amount: 30 };
    sacrifice.act(&ctx, &mut teams);
    // Pays 30 down to 70, then receives the 30 back, capped at 100.
    assert_eq!(health_of(&teams, 0, 0), 100);
}

#[test]
fn drain_takes_only_the_health_the_target_has() {
    let mut teams = vec![
        Team::new(String::from("Leeches"), vec![player("L0", 100, 10, 50)]),
        Team::new(String::from("Prey"), vec![player("P0", 100, 10, 25)]),
    ];
    let ctx = Context::new(&teams, Target::Single(id(0, 0)), Target::Single(id(1, 0)));
    let mut drain = Drain { amount: 40 };
    drain.act(&ctx, &mut teams);
    // Only 25 health could be drained.
    assert_eq!(health_of(&teams, 1, 0), 0);
    assert_eq!(health_of(&teams, 0, 0), 75);
}

#[test]
fn drain_heals_the_performer_up_to_its_reference_health() {
    let mut teams = vec![
        Team::new(String::from("Leeches"), vec![player("L0", 100, 10, 95)]),
        Team::new(String::from("Prey"), vec![player("P0", 100, 10, 60)]),
    ];
    let ctx = Context::new(&teams, Target::Single(id(0, 0)), Target::Single(id(1, 0)));
    let mut drain = Drain { amount: 40 };
    drain.act(&ctx, &mut teams);
    assert_eq!(health_of(&teams, 1, 0), 20);
    assert_eq!(health_of(&teams, 0, 0), 100);
}

#[test]
fn self_destruct_zeroes_the_performer_and_hits_with_its_prior_health() {
    let mut teams = vec![
        Team::new(String::from("Bombs"), vec![player("B0", 100, 10, 60)]),
        Team::new(String::from("Bystanders"), vec![player("S0", 100, 10, 100)]),
    ];
    let ctx = Context::new(&teams, Target::Single(id(0, 0)), Target::Single(id(1, 0)));
    SelfDestruct.act(&ctx, &mut teams);
    assert_eq!(health_of(&teams, 0, 0), 0);
    assert_eq!(health_of(&teams, 1, 0), 40);
}

#[test]
fn actions_keep_names_and_statistics_untouched() {
    let mut teams = vec![
        Team::new(String::from("Raiders"), vec![player("R0", 100, 10, 100)]),
        Team::new(String::from("Defenders"), vec![player("D0", 80, 3, 80)]),
    ];
    let ctx = Context::new(&teams, Target::Single(id(0, 0)), Target::Single(id(1, 0)));
    DirectAttack.act(&ctx, &mut teams);
    let target = &teams[1].member_list()[0];
    assert_eq!(target.name(), "D0");
    assert_eq!(target.statistics().reference_health(), 80);
    assert_eq!(teams[1].name(), "Defenders");
}
