use anti_tower::bubble::{
    bubble_lifetime, home_in, new_bubble, spawn_bubble, spawn_bubble_spawner, Blower, Bubble,
    BubbleSpawner, Homing, BUBBLE_LIFETIME, SPAWNER_COST, SPAWNER_SPAWN_RATE,
};
use anti_tower::despawn::despawn_dead_entities;
use anti_tower::detection::DetectionEvent;
use anti_tower::entity::{Entity, Row};
use anti_tower::footman::{pursue, spawn_footman, Chaser, ATTACK_RATE};
use anti_tower::group::Group;
use anti_tower::harvester::{
    drain_mana, generate_mana, spawn_harvester, Harvester, Well, MAX_MANA,
};
use anti_tower::health::Health;
use anti_tower::mana::Mana;
use anti_tower::movement::{
    accrue, advance, update_position, update_velocity, Acceleration, KinematicBundle, Moving,
    Velocity,
};
use anti_tower::player::{character_movement, spawn_player, Arrows, Player, Walker};
use anti_tower::potion::{potion_lifetime, spawn_potion, Potion};
use anti_tower::timer::{Timer, TimerMode};
use anti_tower::tower::{spawn_enemy, spawn_tower, Garrison, Tower};
use anti_tower::vector::Vec3;

const SECOND: u64 = 1_000_000_000;

fn e(id: u64) -> Entity {
    Entity::from_bits(id)
}

#[test]
fn spawner_is_refused_without_the_mana() {
    let mut mana = Mana::new(15_000);
    let built = spawn_bubble_spawner(true, Some(Vec3::new(0, 0, 0)), &mut mana);
    assert!(built.is_none());
    assert_eq!(mana, Mana::new(15_000));
}

#[test]
fn spawner_is_built_and_paid_for() {
    let mut mana = Mana::new(100_000);
    let built = spawn_bubble_spawner(true, Some(Vec3::new(5_000, 7_000, 0)), &mut mana).unwrap();
    assert_eq!(mana, Mana::new(80_000));
    assert_eq!(built.translation, Vec3::new(5_000, 39_000, -1_000));
    assert_eq!(built.collider.radius, 16_000);
    assert!(built.collider.colliding_entities.is_empty());
    assert_eq!(built.collision_groups.memberships, Group::ally());
    assert_eq!(built.collision_groups.filters, Group::none());
    assert_eq!(built.detection_groups.memberships, Group::ally());
    assert_eq!(built.detection_groups.filters, Group::none());
    assert_eq!(built.health, Health::new(80_000));
    assert_eq!(built.spawner.spawn_rate, Timer::new(2 * SECOND, TimerMode::Repeating));
    assert_eq!(SPAWNER_COST, 20_000);
    assert_eq!(SPAWNER_SPAWN_RATE, 2 * SECOND);
}

#[test]
fn spawner_for_exactly_the_cost() {
    let mut mana = Mana::new(20_000);
    assert!(spawn_bubble_spawner(true, Some(Vec3::zero()), &mut mana).is_some());
    assert_eq!(mana, Mana::new(0));
    assert!(spawn_bubble_spawner(true, Some(Vec3::zero()), &mut mana).is_none());
    assert_eq!(mana, Mana::new(0));
}

#[test]
fn spawner_needs_the_key_and_the_player() {
    let mut mana = Mana::new(100_000);
    assert!(spawn_bubble_spawner(false, Some(Vec3::zero()), &mut mana).is_none());
    assert!(spawn_bubble_spawner(true, None, &mut mana).is_none());
    assert_eq!(mana, Mana::new(100_000));
}

#[test]
fn mana_is_spent_and_earned() {
    let mut mana = Mana::new(50);
    assert!(!mana.spend(51));
    assert_eq!(mana.0, 50);
    assert!(mana.spend(50));
    assert_eq!(mana.0, 0);
    mana.earn(i32::MAX);
    mana.earn(1);
    assert_eq!(mana.0, i32::MAX);
}

#[test]
fn spawners_blow_bubbles_on_their_timers() {
    let mut spawners = vec![
        Blower {
            spawner: BubbleSpawner { spawn_rate: Timer::new(2 * SECOND, TimerMode::Repeating) },
            translation: Vec3::new(1_000, 2_000, -1_000),
        },
        Blower {
            spawner: BubbleSpawner { spawn_rate: Timer::new(3 * SECOND, TimerMode::Repeating) },
            translation: Vec3::new(-1_000, -2_000, -1_000),
        },
    ];
    let mut counts = Vec::new();
    for _ in 0..6 {
        counts.push(spawn_bubble(&mut spawners, SECOND).len());
    }
    assert_eq!(counts, vec![0, 1, 1, 1, 0, 2]);

    let bubbles = spawn_bubble(&mut spawners, 7 * SECOND);
    assert_eq!(bubbles.len(), 2);
    assert_eq!(bubbles[0].translation, Vec3::new(1_000, 8_000, 1_000));
    assert_eq!(bubbles[1].translation, Vec3::new(-1_000, 4_000, 1_000));
    assert_eq!(spawners[0].translation, Vec3::new(1_000, 2_000, -1_000));
}

#[test]
fn a_new_bubble() {
    let bubble = new_bubble(Vec3::new(0, i32::MAX, 5));
    assert_eq!(bubble.translation, Vec3::new(0, i32::MAX, 1_000));
    assert_eq!(bubble.kinematics.velocity.value, Vec3::zero());
    assert_eq!(bubble.kinematics.acceleration.value, Vec3::zero());
    assert_eq!(bubble.collider.radius, 8_000);
    assert_eq!(bubble.collision_groups.memberships, Group::ally());
    assert_eq!(bubble.collision_groups.filters, Group::enemy());
    assert_eq!(bubble.health, Health::new(1_000));
    assert_eq!(bubble.collision_damage.amount, 3_000);
    assert_eq!(bubble.detection_groups.memberships, Group::ally());
    assert_eq!(bubble.detection_groups.filters, Group::enemy());
    assert_eq!(bubble.tracker.vision, 420_000);
    assert_eq!(bubble.bubble.lifetime, Timer::new(BUBBLE_LIFETIME, TimerMode::Once));
    assert_eq!(BUBBLE_LIFETIME, 6 * SECOND);
}

#[test]
fn bubbles_burst_when_their_time_is_up() {
    let mut bubbles = vec![
        Row { entity: e(1), item: Bubble { lifetime: Timer::new(6 * SECOND, TimerMode::Once) } },
        Row { entity: e(2), item: Bubble { lifetime: Timer::new(3 * SECOND, TimerMode::Once) } },
    ];
    assert_eq!(bubble_lifetime(&mut bubbles, 2 * SECOND), vec![]);
    assert_eq!(bubble_lifetime(&mut bubbles, 2 * SECOND), vec![e(2)]);
    // A bubble that is not removed stays finished.
    assert_eq!(bubble_lifetime(&mut bubbles, 2 * SECOND), vec![e(1), e(2)]);
    assert_eq!(bubbles[0].item.lifetime.elapsed(), 6 * SECOND);
}

#[test]
fn homing_weakens_with_the_distance() {
    let at = Vec3::new(0, 0, 1_000);
    // 1800 / 100 at the distance 100.
    assert_eq!(home_in(&at, &Vec3::new(100_000, 0, -1_000)), Vec3::new(18_000, 0, 0));
    // 1800 / 10 at the distance 10.
    assert_eq!(home_in(&at, &Vec3::new(0, -10_000, 0)), Vec3::new(0, -180_000, 0));
    // 1800 / 5 at the distance 5, along (3, 4).
    assert_eq!(home_in(&at, &Vec3::new(3_000, 4_000, 0)), Vec3::new(216_000, 288_000, 0));
    assert_eq!(home_in(&at, &Vec3::new(0, 0, 500)), Vec3::zero());
    // At the closest the pull is beyond the stored range.
    assert_eq!(home_in(&at, &Vec3::new(1, 0, 0)), Vec3::new(1_800_000_000, 0, 0));
    assert_eq!(home_in(&at, &Vec3::new(0, -1, 0)), Vec3::new(0, -1_800_000_000, 0));
}

#[test]
fn bubbles_steer_by_their_detection_events() {
    let events = vec![
        DetectionEvent::new(e(1), e(10)),
        DetectionEvent::new(e(2), e(99)),
        DetectionEvent::new(e(9), e(10)),
        DetectionEvent::new(e(1), e(11)),
    ];
    let row = |id: u64, x: i32| Row {
        entity: e(id),
        item: Homing {
            position: Vec3::new(x, 0, 1_000),
            acceleration: Acceleration::new(Vec3::new(1, 2, 3)),
        },
    };
    let mut trackers = vec![row(1, 0), row(2, 5), row(3, 7)];
    let targets = vec![
        Row { entity: e(10), item: Vec3::new(100_000, 0, 0) },
        Row { entity: e(11), item: Vec3::new(0, 10_000, 0) },
    ];
    anti_tower::bubble::tracking(&events, &mut trackers, &targets);
    // The last event about a bubble stays.
    assert_eq!(trackers[0].item.acceleration.value, Vec3::new(0, 180_000, 0));
    assert_eq!(trackers[1].item.acceleration.value, Vec3::new(1, 2, 3));
    assert_eq!(trackers[2].item.acceleration.value, Vec3::new(1, 2, 3));
    assert_eq!(trackers[0].item.position, Vec3::new(0, 0, 1_000));
}

#[test]
fn a_new_footman() {
    let footman = spawn_footman(Vec3::new(400_000, -40_000, -1_000));
    assert_eq!(footman.translation, Vec3::new(400_000, -40_000, 0));
    assert_eq!(footman.kinematics.velocity.value, Vec3::zero());
    assert_eq!(footman.kinematics.acceleration.value, Vec3::zero());
    assert_eq!(footman.collider.radius, 16_000);
    assert!(footman.collider.colliding_entities.is_empty());
    assert_eq!(footman.collision_groups.memberships, Group::enemy());
    assert_eq!(footman.collision_groups.filters, Group::ally() | Group::player());
    assert_eq!(footman.collision_damage.amount, 5_000);
    assert_eq!(footman.detection_groups.memberships, Group::enemy());
    assert_eq!(footman.detection_groups.filters, Group::ally() | Group::player());
    assert_eq!(footman.tracker.vision, 600_000);
    assert_eq!(footman.attack.amount, 5_000);
    assert_eq!(footman.attack.rate, Timer::new(ATTACK_RATE, TimerMode::Repeating));
    assert_eq!(ATTACK_RATE, 1_200_000_000);
    assert_eq!(footman.health, Health::new(10_000));
    assert_eq!(footman.spear.translation, Vec3::new(-16_000, -16_000, 0));
}

#[test]
fn footmen_chase_at_their_speed() {
    let at = Vec3::new(0, 0, 0);
    assert_eq!(pursue(&at, &Vec3::new(100_000, 0, -1_000)), Vec3::new(80_000, 0, 0));
    assert_eq!(pursue(&at, &Vec3::new(-3_000, 4_000, 0)), Vec3::new(-48_000, 64_000, 0));
    assert_eq!(pursue(&at, &Vec3::new(0, 0, 77)), Vec3::zero());
    // The distance is rounded down, from the root of 2 to 1.
    assert_eq!(pursue(&at, &Vec3::new(1, 1, 0)), Vec3::new(80_000, 80_000, 0));
}

#[test]
fn footmen_turn_by_their_detection_events() {
    let events = vec![DetectionEvent::new(e(1), e(10)), DetectionEvent::new(e(2), e(11))];
    let row = |id: u64| Row {
        entity: e(id),
        item: Chaser { position: Vec3::new(0, 0, 0), velocity: Velocity::new(Vec3::new(1, 2, 3)) },
    };
    let mut trackers = vec![row(1), row(2)];
    let targets = vec![Row { entity: e(10), item: Vec3::new(0, -50_000, -1_000) }];
    anti_tower::footman::tracking(&events, &mut trackers, &targets);
    assert_eq!(trackers[0].item.velocity.value, Vec3::new(0, -80_000, 0));
    assert_eq!(trackers[1].item.velocity.value, Vec3::new(1, 2, 3));
}

#[test]
fn the_tower() {
    let tower = spawn_tower();
    assert_eq!(tower.translation, Vec3::new(400_000, 0, -1_000));
    assert_eq!(tower.collider.radius, 60_000);
    assert_eq!(tower.collision_groups.memberships, Group::enemy() | Group::structure());
    assert_eq!(tower.collision_groups.filters, Group::none());
    assert_eq!(tower.detection_groups.memberships, Group::enemy() | Group::structure());
    assert_eq!(tower.detection_groups.filters, Group::none());
    assert_eq!(tower.health, Health::new(500_000));
    assert_eq!(tower.tower.spawn_rate, Timer::new(10 * SECOND, TimerMode::Repeating));
}

#[test]
fn tower_sends_a_footman_every_ten_seconds() {
    let mut towers = vec![Garrison {
        tower: Tower { spawn_rate: Timer::new(10 * SECOND, TimerMode::Repeating) },
        translation: Vec3::new(400_000, 0, -1_000),
    }];
    let mut sent = 0;
    for tick in 1..=25 {
        let footmen = spawn_enemy(&mut towers, SECOND);
        if tick == 10 || tick == 20 {
            assert_eq!(footmen.len(), 1);
            assert_eq!(footmen[0].translation, Vec3::new(400_000, -40_000, 0));
        } else {
            assert!(footmen.is_empty());
        }
        sent += footmen.len();
    }
    assert_eq!(sent, 2);
}

#[test]
fn integrator_values() {
    assert_eq!(accrue(80_000, 16_000_000), 1_280);
    assert_eq!(accrue(-80_000, 16_000_000), -1_280);
    assert_eq!(accrue(1, 999_999_999), 0);
    assert_eq!(accrue(-1, 999_999_999), 0);
    assert_eq!(accrue(3, SECOND), 3);
    let moved = advance(&Vec3::new(10, 20, 30), &Vec3::new(1_000, -2_000, 0), SECOND / 2);
    assert_eq!(moved, Vec3::new(510, -980, 30));
    let clamped = advance(&Vec3::new(i32::MAX, i32::MIN, 0), &Vec3::new(1_000, -1_000, 0), SECOND);
    assert_eq!(clamped, Vec3::new(i32::MAX, i32::MIN, 0));
}

#[test]
fn velocity_then_position() {
    let mut bodies = vec![KinematicBundle {
        velocity: Velocity::new(Vec3::new(0, 0, 0)),
        acceleration: Acceleration::new(Vec3::new(18_000, -6_000, 0)),
    }];
    update_velocity(&mut bodies, SECOND / 2);
    assert_eq!(bodies[0].velocity.value, Vec3::new(9_000, -3_000, 0));
    assert_eq!(bodies[0].acceleration.value, Vec3::new(18_000, -6_000, 0));
    assert_eq!(Velocity::new(Vec3::zero()).value, Vec3::zero());
    assert_eq!(Acceleration::new(Vec3::zero()).value, Vec3::zero());

    let mut moving = vec![Moving { velocity: bodies[0].velocity, translation: Vec3::new(100, 100, 1_000) }];
    update_position(&mut moving, SECOND / 2);
    assert_eq!(moving[0].translation, Vec3::new(4_600, -1_400, 1_000));
    assert_eq!(moving[0].velocity.value, Vec3::new(9_000, -3_000, 0));
}

#[test]
fn harvesters_gather_up_to_what_they_hold() {
    let mut harvesters = vec![
        Harvester::new(0, 4_000),
        Harvester::new(99_000, 4_000),
        Harvester::new(100_000, 4_000),
        Harvester::new(150_000, 4_000),
    ];
    generate_mana(&mut harvesters, SECOND / 2);
    assert_eq!(harvesters[0], Harvester::new(2_000, 4_000));
    assert_eq!(harvesters[1], Harvester::new(100_000, 4_000));
    assert_eq!(harvesters[2], Harvester::new(100_000, 4_000));
    assert_eq!(harvesters[3], Harvester::new(150_000, 4_000));
    assert_eq!(MAX_MANA, 100_000);
}

#[test]
fn player_drains_the_harvesters_in_reach() {
    let well = |x: i32, mana: i32| Well {
        position: Vec3::new(x, 0, 0),
        harvester: Harvester::new(mana, 4_000),
    };
    let mut wells = vec![well(100_000, 50_000), well(139_999, 10_000), well(140_000, 50_000), well(0, 30_000)];
    let mut mana = Mana::new(1_000);
    drain_mana(&mut wells, Some(Vec3::new(0, 0, 0)), SECOND / 2, &mut mana);
    // Half a second drains up to 30.
    assert_eq!(wells[0].harvester.mana, 20_000);
    assert_eq!(wells[1].harvester.mana, 0);
    assert_eq!(wells[2].harvester.mana, 50_000);
    assert_eq!(wells[3].harvester.mana, 0);
    assert_eq!(mana, Mana::new(71_000));

    drain_mana(&mut wells, None, SECOND, &mut mana);
    assert_eq!(wells[0].harvester.mana, 20_000);
    assert_eq!(mana, Mana::new(71_000));
}

#[test]
fn harvester_is_built_only_for_its_cost() {
    let mut mana = Mana::new(99_999);
    assert!(spawn_harvester(true, &mut mana).is_none());
    assert_eq!(mana, Mana::new(99_999));
    let mut mana = Mana::new(100_000);
    assert!(spawn_harvester(false, &mut mana).is_none());
    let built = spawn_harvester(true, &mut mana).unwrap();
    assert_eq!(mana, Mana::new(0));
    assert_eq!(built.collider.radius, 48_000);
    assert_eq!(built.collision_groups.memberships, Group::ally());
    assert_eq!(built.collision_groups.filters, Group::none());
    assert_eq!(built.health, Health::new(200_000));
    assert_eq!(built.harvester, Harvester::new(0, 4_000));
}

#[test]
fn dead_entities_are_swept() {
    let rows = vec![
        Row { entity: e(1), item: Health::new(1) },
        Row { entity: e(2), item: Health::new(0) },
        Row { entity: e(3), item: Health::new(-3_000) },
        Row { entity: e(4), item: Health::new(500_000) },
    ];
    assert_eq!(despawn_dead_entities(&rows), vec![e(2), e(3)]);
    assert!(Health::new(0).is_dead());
    assert!(!Health::new(1).is_dead());
    let mut health = Health::new(12_000);
    health.damage(5_000);
    assert_eq!(health.value, 7_000);
}

#[test]
fn potions_are_bought_and_sold() {
    let mut money = Mana::new(9_999);
    assert!(spawn_potion(true, Vec3::zero(), &mut money).is_none());
    let mut money = Mana::new(25_000);
    assert!(spawn_potion(false, Vec3::zero(), &mut money).is_none());
    let made = spawn_potion(true, Vec3::new(1, 2, 3), &mut money).unwrap();
    assert_eq!(money, Mana::new(15_000));
    assert_eq!(made.translation, Vec3::new(1, 2, 3));
    assert_eq!(made.potion.lifetime, Timer::new(2 * SECOND, TimerMode::Once));

    let mut potions = vec![
        Row { entity: e(1), item: made.potion },
        Row { entity: e(2), item: Potion { lifetime: Timer::new(5 * SECOND, TimerMode::Once) } },
    ];
    assert_eq!(potion_lifetime(&mut potions, SECOND, &mut money), vec![]);
    assert_eq!(money, Mana::new(15_000));
    assert_eq!(potion_lifetime(&mut potions, SECOND, &mut money), vec![e(1)]);
    assert_eq!(money, Mana::new(30_000));
}

#[test]
fn arrows_move_the_player() {
    assert_eq!(spawn_player(), Player { speed: 100_000 });
    assert_eq!(Player::default().speed, 0);
    let mut characters = vec![Walker { translation: Vec3::new(0, 0, 0), player: spawn_player() }];
    let keys = |up, down, right, left| Arrows { up, down, right, left };
    character_movement(&mut characters, keys(true, false, false, true), SECOND / 10);
    assert_eq!(characters[0].translation, Vec3::new(-10_000, 10_000, 0));
    character_movement(&mut characters, keys(true, true, true, false), SECOND / 10);
    assert_eq!(characters[0].translation, Vec3::new(0, 10_000, 0));
    character_movement(&mut characters, keys(false, false, false, false), SECOND);
    assert_eq!(characters[0].translation, Vec3::new(0, 10_000, 0));
}
