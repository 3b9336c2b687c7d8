use anti_tower::collisions::{
    collision_detection, touching, Bounce, Collider, CollisionBody, CollisionDamage,
    CollisionEvent, CollisionGroups, CollisionRecords, COLLISION_BUFFER,
};
use anti_tower::entity::{lookup, Entity, Row};
use anti_tower::group::Group;
use anti_tower::health::Health;
use anti_tower::movement::Velocity;
use anti_tower::resolution::{
    apply_collision_damage, bounce_off, handle_collisions, separate, update_bouncy_collisions,
    update_solid_collisions, BouncyBody, Shape, SolidBody,
};
use anti_tower::vector::Vec3;

fn body(id: u64, groups: CollisionGroups, x: i32, y: i32, radius: u32) -> Row<CollisionBody> {
    Row {
        entity: Entity::from_bits(id),
        item: CollisionBody { groups, position: Vec3::new(x, y, 0), collider: Collider::new(radius) },
    }
}

fn ids(list: &Vec<Entity>) -> Vec<u64> {
    list.iter().map(|e| e.to_bits()).collect()
}

fn e(id: u64) -> Entity {
    Entity::from_bits(id)
}

#[test]
fn constructors() {
    let collider = Collider::new(8000);
    assert_eq!(collider.radius, 8000);
    assert!(collider.colliding_entities.is_empty());
    assert_eq!(CollisionDamage::new(3000).amount, 3000);
    assert_eq!(Bounce::new(800).value, 800);
    let event = CollisionEvent::new(e(1), e(2));
    assert_eq!(event.entity, e(1));
    assert_eq!(event.colliding_entity, e(2));
    let groups = CollisionGroups::new(Group::ally(), Group::enemy());
    assert_eq!(groups.memberships, Group::ally());
    assert_eq!(groups.filters, Group::enemy());
    assert_eq!(CollisionGroups::default(), CollisionGroups::new(Group::all(), Group::all()));
    assert_eq!(COLLISION_BUFFER, 2000);
}

#[test]
fn overlapping_pair_is_detected_and_separated() {
    let all = CollisionGroups::default();
    let mut bodies = vec![body(1, all, 0, 0, 8000), body(2, all, 10_000, 0, 8000)];
    let mut records = CollisionRecords::new();
    collision_detection(&mut bodies, &mut records);
    assert_eq!(ids(&bodies[0].item.collider.colliding_entities), vec![2]);
    assert_eq!(ids(&bodies[1].item.collider.colliding_entities), vec![1]);

    // Entity 1 is of one kind, entity 2 of another.
    let kind = vec![Row {
        entity: e(1),
        item: Collider {
            radius: 8000,
            colliding_entities: bodies[0].item.collider.colliding_entities.clone(),
        },
    }];
    let events = handle_collisions(&kind);
    assert_eq!(events, vec![CollisionEvent::new(e(1), e(2))]);

    let attacked = vec![Row {
        entity: e(1),
        item: Shape { position: Vec3::new(0, 0, 0), radius: 8000 },
    }];
    let mut attackers = vec![Row {
        entity: e(2),
        item: SolidBody {
            shape: Shape { position: Vec3::new(10_000, 0, 0), radius: 8000 },
            translation: Vec3::new(10_000, 0, 0),
        },
    }];
    update_solid_collisions(&events, &attacked, &mut attackers);
    assert_eq!(attackers[0].item.translation, Vec3::new(18_000, 0, 0));
    let apart = attackers[0].item.translation.distance_squared(&Vec3::new(0, 0, 0));
    assert!(apart >= 16_000 * 16_000);

    // The next pass finds nothing, and a further separation moves nothing.
    bodies[1].item.position = attackers[0].item.translation;
    collision_detection(&mut bodies, &mut records);
    assert!(bodies[0].item.collider.colliding_entities.is_empty());
    assert!(bodies[1].item.collider.colliding_entities.is_empty());
    let kind = vec![Row { entity: e(1), item: Collider::new(8000) }];
    let events = handle_collisions(&kind);
    assert!(events.is_empty());
    update_solid_collisions(&events, &attacked, &mut attackers);
    assert_eq!(attackers[0].item.translation, Vec3::new(18_000, 0, 0));
}

#[test]
fn touching_bodies_do_not_overlap() {
    let all = CollisionGroups::default();
    let a = body(1, all, 0, 0, 8000);
    let b = body(2, all, 16_000, 0, 8000);
    assert!(!touching(&a, &b));
    assert!(!touching(&b, &a));
    let c = body(3, all, 15_999, 0, 8000);
    assert!(touching(&a, &c));
    assert!(touching(&c, &a));
}

#[test]
fn coincident_bodies_are_skipped() {
    let all = CollisionGroups::default();
    let a = body(1, all, 5, 5, 8000);
    let b = body(2, all, 5, 5, 8000);
    assert!(!touching(&a, &b));
    let mut bodies = vec![a, b];
    let mut records = CollisionRecords::new();
    collision_detection(&mut bodies, &mut records);
    assert!(bodies[0].item.collider.colliding_entities.is_empty());
    assert!(bodies[1].item.collider.colliding_entities.is_empty());
}

#[test]
fn a_body_does_not_collide_with_itself() {
    let all = CollisionGroups::default();
    let a = body(1, all, 0, 0, 8000);
    assert!(!touching(&a, &a));
}

#[test]
fn masks_are_tested_in_one_direction() {
    // The bubble is an ally that looks for enemies; the tower is an enemy
    // that looks for nothing.
    let bubble = body(1, CollisionGroups::new(Group::ally(), Group::enemy()), 0, 0, 8000);
    let tower = body(2, CollisionGroups::new(Group::enemy(), Group::none()), 10_000, 0, 60_000);
    // The tower's memberships meet the bubble's filters.
    assert!(touching(&tower, &bubble));
    // The bubble's memberships do not meet the tower's filters.
    assert!(!touching(&bubble, &tower));
    let mut bodies = vec![bubble, tower];
    let mut records = CollisionRecords::new();
    collision_detection(&mut bodies, &mut records);
    assert!(bodies[0].item.collider.colliding_entities.is_empty());
    assert_eq!(ids(&bodies[1].item.collider.colliding_entities), vec![1]);
    assert!(records.contains(e(2), e(1)));
    assert!(!records.contains(e(1), e(2)));
}

#[test]
fn partners_come_in_the_order_of_the_rows() {
    let all = CollisionGroups::default();
    let mut bodies = vec![
        body(7, all, 0, 0, 8000),
        body(3, all, 1000, 0, 8000),
        body(9, all, 500_000, 0, 8000),
        body(5, all, 0, 2000, 8000),
    ];
    // A list left over from an earlier tick is replaced, not extended.
    bodies[0].item.collider.colliding_entities.push(e(42));
    let mut records = CollisionRecords::new();
    collision_detection(&mut bodies, &mut records);
    assert_eq!(ids(&bodies[0].item.collider.colliding_entities), vec![3, 5]);
    assert_eq!(ids(&bodies[1].item.collider.colliding_entities), vec![7, 5]);
    assert!(bodies[2].item.collider.colliding_entities.is_empty());
    assert_eq!(ids(&bodies[3].item.collider.colliding_entities), vec![7, 3]);
    assert_eq!(bodies[0].entity, e(7));
    assert_eq!(bodies[0].item.position, Vec3::new(0, 0, 0));
    assert_eq!(bodies[0].item.collider.radius, 8000);
}

#[test]
fn records_tell_new_contacts_from_old_ones() {
    let all = CollisionGroups::default();
    let mut bodies = vec![body(1, all, 0, 0, 8000), body(2, all, 10_000, 0, 8000)];
    let mut records = CollisionRecords::new();
    assert!(!records.contains(e(1), e(2)));
    assert_eq!(records.get(e(1), e(2)), None);

    collision_detection(&mut bodies, &mut records);
    assert_eq!(records.get(e(1), e(2)), Some(true));
    assert_eq!(records.get(e(2), e(1)), Some(true));

    collision_detection(&mut bodies, &mut records);
    assert_eq!(records.get(e(1), e(2)), Some(false));
    assert_eq!(records.get(e(2), e(1)), Some(false));
    // The contact is still listed on every pass.
    assert_eq!(ids(&bodies[0].item.collider.colliding_entities), vec![2]);

    collision_detection(&mut bodies, &mut records);
    assert_eq!(records.get(e(1), e(2)), Some(false));

    bodies[1].item.position = Vec3::new(100_000, 0, 0);
    collision_detection(&mut bodies, &mut records);
    assert_eq!(records.get(e(1), e(2)), None);
    assert!(!records.contains(e(2), e(1)));

    bodies[1].item.position = Vec3::new(10_000, 0, 0);
    collision_detection(&mut bodies, &mut records);
    assert_eq!(records.get(e(1), e(2)), Some(true));
}

#[test]
fn two_of_a_kind_give_no_event() {
    let rows = vec![
        Row { entity: e(1), item: Collider { radius: 8000, colliding_entities: vec![e(2), e(3), e(4)] } },
        Row { entity: e(2), item: Collider { radius: 8000, colliding_entities: vec![e(1)] } },
        Row { entity: e(4), item: Collider { radius: 8000, colliding_entities: vec![e(3), e(5)] } },
    ];
    let events = handle_collisions(&rows);
    assert_eq!(
        events,
        vec![
            CollisionEvent::new(e(1), e(3)),
            CollisionEvent::new(e(4), e(3)),
            CollisionEvent::new(e(4), e(5)),
        ]
    );
}

#[test]
fn lookup_finds_the_first_row() {
    let rows = vec![
        Row { entity: e(4), item: 'a' },
        Row { entity: e(2), item: 'b' },
        Row { entity: e(4), item: 'c' },
    ];
    assert_eq!(lookup(&rows, e(4)), Some(0));
    assert_eq!(lookup(&rows, e(2)), Some(1));
    assert_eq!(lookup(&rows, e(3)), None);
}

#[test]
fn collision_damage_is_dealt_per_event() {
    let events = vec![
        CollisionEvent::new(e(1), e(10)),
        CollisionEvent::new(e(1), e(11)),
        CollisionEvent::new(e(2), e(10)),
        // No damage on entity 12, no health on entity 3.
        CollisionEvent::new(e(1), e(12)),
        CollisionEvent::new(e(3), e(10)),
    ];
    let mut attacked = vec![
        Row { entity: e(1), item: Health::new(10_000) },
        Row { entity: e(2), item: Health::new(1_000) },
        Row { entity: e(4), item: Health::new(500) },
    ];
    let attackers = vec![
        Row { entity: e(10), item: CollisionDamage::new(3_000) },
        Row { entity: e(11), item: CollisionDamage::new(5_000) },
    ];
    apply_collision_damage(&events, &mut attacked, &attackers);
    assert_eq!(attacked[0].item.value, 2_000);
    assert_eq!(attacked[1].item.value, -2_000);
    assert_eq!(attacked[2].item.value, 500);
    assert_eq!(attacked[0].entity, e(1));
}

#[test]
fn collision_damage_clamps() {
    let events = vec![CollisionEvent::new(e(1), e(10)), CollisionEvent::new(e(1), e(10))];
    let mut attacked = vec![Row { entity: e(1), item: Health::new(i32::MIN + 1) }];
    let attackers = vec![Row { entity: e(10), item: CollisionDamage::new(5) }];
    apply_collision_damage(&events, &mut attacked, &attackers);
    assert_eq!(attacked[0].item.value, i32::MIN);
}

#[test]
fn separation_values() {
    let at = |x: i32, y: i32, z: i32, radius: u32| Shape { position: Vec3::new(x, y, z), radius };
    // Along an axis: 16 - 10 + 2 further out.
    assert_eq!(separate(&at(10_000, 0, 0, 8000), &at(0, 0, 0, 8000)), (8_000, 0));
    assert_eq!(separate(&at(-10_000, 0, 0, 8000), &at(0, 0, 0, 8000)), (-8_000, 0));
    // On a 3-4-5 triangle: 5 apart, to be 12 apart.
    assert_eq!(separate(&at(3_000, 4_000, 0, 4000), &at(0, 0, 0, 6000)), (4_200, 5_600));
    // The render layer does not count.
    assert_eq!(separate(&at(3_000, 4_000, 900, 4000), &at(0, 0, -1000, 6000)), (4_200, 5_600));
    // No direction to take.
    assert_eq!(separate(&at(0, 0, 500, 8000), &at(0, 0, 0, 8000)), (0, 0));
    // Beyond the set distance a body is drawn in.
    assert_eq!(separate(&at(30_000, 0, 0, 8000), &at(0, 0, 0, 8000)), (-12_000, 0));
    // The distance is rounded down, from the root of 5 to 2; the reach is
    // then 1999, and the push (1999 / 2, 2 * 1999 / 2), rounded toward zero.
    assert_eq!(separate(&at(1, 2, 0, 1), &at(0, 0, 0, 0)), (999, 1999));
    assert_eq!(separate(&at(-1, -2, 0, 1), &at(0, 0, 0, 0)), (-999, -1999));
}

#[test]
fn several_contacts_of_one_body_add_up() {
    let events = vec![
        CollisionEvent::new(e(1), e(3)),
        CollisionEvent::new(e(2), e(3)),
        // Entity 9 is unknown, and entity 1 is no attacker.
        CollisionEvent::new(e(9), e(3)),
        CollisionEvent::new(e(2), e(1)),
    ];
    let attacked = vec![
        Row { entity: e(1), item: Shape { position: Vec3::new(-10_000, 0, 0), radius: 8000 } },
        Row { entity: e(2), item: Shape { position: Vec3::new(0, -10_000, 0), radius: 8000 } },
    ];
    let mut attackers = vec![Row {
        entity: e(3),
        item: SolidBody {
            shape: Shape { position: Vec3::new(0, 0, 0), radius: 8000 },
            translation: Vec3::new(100, 200, 300),
        },
    }];
    update_solid_collisions(&events, &attacked, &mut attackers);
    assert_eq!(attackers[0].item.translation, Vec3::new(8_100, 8_200, 300));
    assert_eq!(attackers[0].item.shape.position, Vec3::new(0, 0, 0));
}

#[test]
fn rebound_without_restitution_stops_along_the_line() {
    let attacked = Shape { position: Vec3::new(0, 0, 0), radius: 8000 };
    let attacker = Shape { position: Vec3::new(10_000, 0, 0), radius: 8000 };
    let v = bounce_off(&Vec3::new(-3_000, 4_000, 0), &attacker, &attacked, Bounce::new(0));
    assert_eq!(v, Vec3::new(0, 4_000, 0));
}

#[test]
fn rebound_with_restitution_turns_around() {
    let attacked = Shape { position: Vec3::new(0, 0, 0), radius: 8000 };
    let attacker = Shape { position: Vec3::new(10_000, 0, 0), radius: 8000 };
    let v = bounce_off(&Vec3::new(-3_000, 4_000, 5), &attacker, &attacked, Bounce::new(800));
    assert_eq!(v, Vec3::new(2_400, 4_000, 5));
    let v = bounce_off(&Vec3::new(-3_000, 4_000, 5), &attacker, &attacked, Bounce::new(1000));
    assert_eq!(v, Vec3::new(3_000, 4_000, 5));
}

#[test]
fn rebound_keeps_the_velocity_across_the_line() {
    let attacked = Shape { position: Vec3::new(0, 0, 0), radius: 8000 };
    let attacker = Shape { position: Vec3::new(3_000, 4_000, 0), radius: 8000 };
    let before = Vec3::new(-5_000, 0, 7);
    let after = bounce_off(&before, &attacker, &attacked, Bounce::new(0));
    assert_eq!(after, Vec3::new(-3_200, 2_400, 7));
    let along = |v: &Vec3| v.x as i64 * 3_000 + v.y as i64 * 4_000;
    let across = |v: &Vec3| v.y as i64 * 3_000 - v.x as i64 * 4_000;
    assert_eq!(along(&after), 0);
    assert_eq!(across(&after), across(&before));
}

#[test]
fn rebound_without_a_direction_changes_nothing() {
    let attacked = Shape { position: Vec3::new(5, 5, 0), radius: 8000 };
    let attacker = Shape { position: Vec3::new(5, 5, 9), radius: 8000 };
    let v = bounce_off(&Vec3::new(-3_000, 4_000, 0), &attacker, &attacked, Bounce::new(500));
    assert_eq!(v, Vec3::new(-3_000, 4_000, 0));
}

#[test]
fn bouncy_bodies_are_separated_and_turned() {
    let events = vec![CollisionEvent::new(e(1), e(2)), CollisionEvent::new(e(1), e(5))];
    let attacked = vec![Row {
        entity: e(1),
        item: Shape { position: Vec3::new(0, 0, 0), radius: 8000 },
    }];
    let mut attackers = vec![
        Row {
            entity: e(2),
            item: BouncyBody {
                shape: Shape { position: Vec3::new(10_000, 0, 0), radius: 8000 },
                translation: Vec3::new(10_000, 0, 0),
                velocity: Velocity::new(Vec3::new(-3_000, 4_000, 0)),
                bounce: Bounce::new(800),
            },
        },
        Row {
            entity: e(3),
            item: BouncyBody {
                shape: Shape { position: Vec3::new(0, 10_000, 0), radius: 8000 },
                translation: Vec3::new(0, 10_000, 0),
                velocity: Velocity::new(Vec3::new(1, 2, 3)),
                bounce: Bounce::new(800),
            },
        },
    ];
    update_bouncy_collisions(&events, &attacked, &mut attackers);
    assert_eq!(attackers[0].item.translation, Vec3::new(18_000, 0, 0));
    assert_eq!(attackers[0].item.velocity.value, Vec3::new(2_400, 4_000, 0));
    assert_eq!(attackers[1].item.translation, Vec3::new(0, 10_000, 0));
    assert_eq!(attackers[1].item.velocity.value, Vec3::new(1, 2, 3));
}
