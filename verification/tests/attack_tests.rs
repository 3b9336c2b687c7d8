use anti_tower::attack::{
    attack_occurance, remove_attack_occurances, Attack, AttackOccurance, AttackOccuranceDeathEvent,
    Attacker,
};
use anti_tower::detection::{
    classify, detect, Contact, DetectionEvent, DetectionGroups, Sighted, Target, Tracker, Watcher,
    ATTACK_RANGE,
};
use anti_tower::entity::{Entity, Row};
use anti_tower::group::Group;
use anti_tower::health::Health;
use anti_tower::movement::Velocity;
use anti_tower::timer::{Timer, TimerMode};
use anti_tower::vector::Vec3;

fn e(id: u64) -> Entity {
    Entity::from_bits(id)
}

fn footman(id: u64, amount: i32, rate: u64) -> Row<Attacker> {
    Row {
        entity: e(id),
        item: Attacker {
            attack: Attack::new(amount, Timer::new(rate, TimerMode::Repeating)),
            velocity: Velocity::new(Vec3::new(80_000, -5, 0)),
        },
    }
}

#[test]
fn attack_constructors() {
    let timer = Timer::new(1_200_000_000, TimerMode::Repeating);
    let attack = Attack::new(5_000, timer);
    assert_eq!(attack.amount, 5_000);
    assert_eq!(attack.rate, timer);
    let occurance = AttackOccurance::new(e(1), e(2));
    assert_eq!(occurance.attacker, e(1));
    assert_eq!(occurance.target, e(2));
    assert_eq!(AttackOccuranceDeathEvent::new(e(2)).target_entity, e(2));
}

#[test]
fn third_hit_kills_and_death_fires_once() {
    let mut attackers = vec![footman(1, 5_000, 1_200_000_000)];
    let mut targets = vec![Row { entity: e(2), item: Health::new(12_000) }];
    let mut occurances = vec![AttackOccurance::new(e(1), e(2))];
    let mut deaths_per_tick = Vec::new();
    let mut health_per_tick = Vec::new();
    for _ in 0..5 {
        let deaths = attack_occurance(&occurances, &mut attackers, &mut targets, 1_200_000_000);
        // The death events end the engagements after the damage is dealt.
        let idle = remove_attack_occurances(&deaths, &occurances);
        occurances.retain(|o| !idle.contains(&o.attacker));
        deaths_per_tick.push(deaths);
        health_per_tick.push(targets[0].item.value);
    }
    assert_eq!(health_per_tick, vec![7_000, 2_000, -3_000, -3_000, -3_000]);
    assert_eq!(
        deaths_per_tick,
        vec![vec![], vec![], vec![AttackOccuranceDeathEvent::new(e(2))], vec![], vec![]]
    );
    assert!(occurances.is_empty());
}

#[test]
fn engaged_attacker_stands_still() {
    let mut attackers = vec![footman(1, 5_000, 1_200_000_000), footman(7, 5_000, 1_200_000_000)];
    let mut targets = vec![Row { entity: e(2), item: Health::new(12_000) }];
    let occurances = vec![AttackOccurance::new(e(1), e(2))];
    let deaths = attack_occurance(&occurances, &mut attackers, &mut targets, 16_000_000);
    assert!(deaths.is_empty());
    assert_eq!(attackers[0].item.velocity.value, Vec3::zero());
    assert_eq!(attackers[0].item.attack.rate.elapsed(), 16_000_000);
    // Entity 7 is in no engagement.
    assert_eq!(attackers[1].item.velocity.value, Vec3::new(80_000, -5, 0));
    assert_eq!(attackers[1].item.attack.rate.elapsed(), 0);
    assert_eq!(targets[0].item.value, 12_000);
}

#[test]
fn long_tick_deals_one_hit() {
    let mut attackers = vec![footman(1, 5_000, 1_200_000_000)];
    let mut targets = vec![Row { entity: e(2), item: Health::new(100_000) }];
    let occurances = vec![AttackOccurance::new(e(1), e(2))];
    // Ten seconds cover eight periods of the timer.
    attack_occurance(&occurances, &mut attackers, &mut targets, 10_000_000_000);
    assert_eq!(attackers[0].item.attack.rate.times_finished_this_tick(), 8);
    assert_eq!(targets[0].item.value, 95_000);
}

#[test]
fn one_hit_per_period_at_any_frame_rate() {
    let mut attackers = vec![footman(1, 5_000, 1_200_000_000)];
    let mut targets = vec![Row { entity: e(2), item: Health::new(100_000) }];
    let occurances = vec![AttackOccurance::new(e(1), e(2))];
    // 100 ticks of 60 ms are 6 s: five periods of 1.2 s.
    for _ in 0..100 {
        attack_occurance(&occurances, &mut attackers, &mut targets, 60_000_000);
    }
    assert_eq!(targets[0].item.value, 75_000);
}

#[test]
fn lost_attacker_or_target_is_passed_over() {
    let mut attackers = vec![footman(1, 5_000, 1_000)];
    let mut targets = vec![Row { entity: e(2), item: Health::new(3_000) }];
    let occurances = vec![AttackOccurance::new(e(9), e(2)), AttackOccurance::new(e(1), e(8))];
    let deaths = attack_occurance(&occurances, &mut attackers, &mut targets, 1_000);
    assert!(deaths.is_empty());
    assert_eq!(targets[0].item.value, 3_000);
    // The attacker of the second engagement was found: it halts and ticks.
    assert_eq!(attackers[0].item.velocity.value, Vec3::zero());
    assert!(attackers[0].item.attack.rate.just_finished());
}

#[test]
fn several_attackers_share_a_target() {
    let mut attackers = vec![footman(1, 5_000, 1_000), footman(3, 5_000, 1_000)];
    let mut targets = vec![Row { entity: e(2), item: Health::new(7_000) }];
    let occurances = vec![AttackOccurance::new(e(1), e(2)), AttackOccurance::new(e(3), e(2))];
    let deaths = attack_occurance(&occurances, &mut attackers, &mut targets, 1_000);
    assert_eq!(targets[0].item.value, -3_000);
    assert_eq!(deaths, vec![AttackOccuranceDeathEvent::new(e(2))]);
    let idle = remove_attack_occurances(&deaths, &occurances);
    assert_eq!(idle, vec![e(1), e(3)]);
}

#[test]
fn only_the_attackers_of_the_dead_are_released() {
    let occurances = vec![
        AttackOccurance::new(e(1), e(2)),
        AttackOccurance::new(e(3), e(4)),
        AttackOccurance::new(e(5), e(2)),
    ];
    let events = vec![AttackOccuranceDeathEvent::new(e(4)), AttackOccuranceDeathEvent::new(e(2))];
    assert_eq!(remove_attack_occurances(&events, &occurances), vec![e(3), e(1), e(5)]);
    assert_eq!(remove_attack_occurances(&vec![], &occurances), vec![]);
}

fn watcher(id: u64, x: i32, vision: u32, engaged: bool) -> Row<Watcher> {
    Row {
        entity: e(id),
        item: Watcher {
            groups: DetectionGroups::new(Group::ally(), Group::enemy()),
            tracker: Tracker::new(vision),
            position: Vec3::new(x, 0, 1000),
            engaged: if engaged { Some(AttackOccurance::new(e(id), e(99))) } else { None },
        },
    }
}

fn sighted(id: u64, x: i32, member: Group, marked: bool) -> Row<Sighted> {
    Row {
        entity: e(id),
        item: Sighted {
            groups: DetectionGroups::new(member, Group::none()),
            position: Vec3::new(x, 0, 1000),
            target: if marked { Some(Target) } else { None },
        },
    }
}

#[test]
fn detection_constructors() {
    assert_eq!(Tracker::new(420_000).vision, 420_000);
    let event = DetectionEvent::new(e(1), e(2));
    assert_eq!(event.tracker_entity, e(1));
    assert_eq!(event.target_entity, e(2));
    let groups = DetectionGroups::new(Group::enemy(), Group::ally());
    assert_eq!(groups.memberships, Group::enemy());
    assert_eq!(groups.filters, Group::ally());
    assert_eq!(DetectionGroups::default(), DetectionGroups::new(Group::all(), Group::all()));
    assert_eq!(ATTACK_RANGE, 40_000);
}

#[test]
fn attack_range_comes_before_vision() {
    let tracker = watcher(1, 0, 420_000, false);
    assert_eq!(classify(&tracker, &sighted(2, 30_000, Group::enemy(), true)), Contact::Engaged);
    assert_eq!(classify(&tracker, &sighted(2, 39_999, Group::enemy(), true)), Contact::Engaged);
    assert_eq!(classify(&tracker, &sighted(2, 40_000, Group::enemy(), true)), Contact::Seen);
    assert_eq!(classify(&tracker, &sighted(2, -419_999, Group::enemy(), true)), Contact::Seen);
    assert_eq!(classify(&tracker, &sighted(2, 420_000, Group::enemy(), true)), Contact::Hidden);
    // Short sight: still engaged within the attack range.
    let near = watcher(1, 0, 10_000, false);
    assert_eq!(classify(&near, &sighted(2, 30_000, Group::enemy(), true)), Contact::Engaged);
    assert_eq!(classify(&near, &sighted(2, 40_000, Group::enemy(), true)), Contact::Hidden);
}

#[test]
fn what_does_not_count_is_not_seen() {
    let tracker = watcher(1, 0, 420_000, false);
    // Without the marker.
    assert_eq!(classify(&tracker, &sighted(2, 30_000, Group::enemy(), false)), Contact::Hidden);
    // Of a group that the tracker does not look for.
    assert_eq!(classify(&tracker, &sighted(2, 30_000, Group::ally(), true)), Contact::Hidden);
    // At the very place of the tracker.
    assert_eq!(classify(&tracker, &sighted(2, 0, Group::enemy(), true)), Contact::Hidden);
    // The tracker itself.
    assert_eq!(classify(&tracker, &sighted(1, 30_000, Group::enemy(), true)), Contact::Hidden);
}

#[test]
fn scan_installs_engagements_and_publishes_sightings() {
    let trackers = vec![
        watcher(1, 0, 420_000, false),
        watcher(2, 0, 420_000, true),
        watcher(3, 100_000, 50_000, false),
    ];
    let targets = vec![
        sighted(10, 30_000, Group::enemy(), true),
        sighted(11, 100_000, Group::enemy(), true),
        sighted(12, 500_000, Group::enemy(), true),
        sighted(13, 20_000, Group::enemy(), false),
        sighted(14, -10_000, Group::enemy() | Group::structure(), true),
        sighted(15, 145_000, Group::enemy(), true),
    ];
    let found = detect(&trackers, &targets);
    assert_eq!(
        found.engagements,
        vec![
            AttackOccurance::new(e(1), e(10)),
            AttackOccurance::new(e(1), e(14)),
        ]
    );
    assert_eq!(
        found.events,
        vec![
            DetectionEvent::new(e(1), e(11)),
            DetectionEvent::new(e(1), e(15)),
            DetectionEvent::new(e(3), e(15)),
        ]
    );
}

#[test]
fn scan_of_nothing_finds_nothing() {
    let found = detect(&vec![], &vec![sighted(10, 30_000, Group::enemy(), true)]);
    assert!(found.engagements.is_empty());
    assert!(found.events.is_empty());
    let found = detect(&vec![watcher(1, 0, 420_000, false)], &vec![]);
    assert!(found.engagements.is_empty());
    assert!(found.events.is_empty());
}
