//! What follows a detected contact: the collision events, the damage they
//! deal, and the separation and rebound of the bodies in contact.
//!
//! Within one tick the steps run in this order: detection, events, damage,
//! separation, rebound. Damage is therefore dealt on the positions found by
//! the detection pass, and the bodies are apart before the next one.

use vstd::prelude::*;
use crate::collisions::{
    overlaps, partners, Bounce, Collider, CollisionBody, CollisionDamage, CollisionEvent,
    COLLISION_BUFFER,
};
use crate::entity::{find, first_at, lemma_same_entities_same_first, lookup, Entity, Row};
use crate::fixed::{div_toward_zero, floor_sqrt, is_floor_sqrt, isqrt, lemma_floor_sqrt, trunc_div};
use crate::health::Health;
use crate::movement::Velocity;
use crate::vector::{lemma_square_bound, Vec3};

verus! {

/// The event for one colliding entity of `row`, unless that entity is of
/// the same category as `row`, that is, has a row in `all` itself.
pub open spec fn contact_of(row: Row<Collider>, all: Seq<Row<Collider>>) -> spec_fn(Entity) -> Option<
    CollisionEvent,
> {
    |other: Entity|
        if find(all, other) is None {
            Some(CollisionEvent { entity: row.entity, colliding_entity: other })
        } else {
            None
        }
}

/// The events of one row: one for each of its colliding entities that is
/// not of its own category, in the order of its list.
pub open spec fn contacts(row: Row<Collider>, all: Seq<Row<Collider>>) -> Seq<CollisionEvent> {
    row.item.colliding_entities@.filter_map(contact_of(row, all))
}

/// The events of `rows`, row after row, where `all` holds the rows of the
/// whole category.
pub open spec fn collision_events(rows: Seq<Row<Collider>>, all: Seq<Row<Collider>>) -> Seq<
    CollisionEvent,
>
    decreases rows.len(),
{
    if rows.len() == 0 {
        Seq::empty()
    } else {
        collision_events(rows.drop_last(), all) + contacts(rows.last(), all)
    }
}

/// Turns the colliding entities of one category into collision events.
///
/// `rows` holds every entity of the category that has a collider. Each of
/// them gets one event for each entity on its list, in order, but for the
/// entities of the category itself: two of a kind do not collide.
pub fn handle_collisions(rows: &Vec<Row<Collider>>) -> (events: Vec<CollisionEvent>)
    ensures
        events@ == collision_events(rows@, rows@),
{
    let mut events: Vec<CollisionEvent> = Vec::new();
    let mut i: usize = 0;
    assert(rows@.take(0) =~= Seq::<Row<Collider>>::empty());
    while i < rows.len()
        invariant
            i <= rows.len(),
            events@ == collision_events(rows@.take(i as int), rows@),
        decreases rows.len() - i,
    {
        let ghost done = events@;
        let row = &rows[i];
        let list = &row.item.colliding_entities;
        let mut m: usize = 0;
        assert(list@.take(0) =~= Seq::<Entity>::empty());
        while m < list.len()
            invariant
                m <= list.len(),
                i < rows.len(),
                *row == rows[i as int],
                *list == row.item.colliding_entities,
                events@ == done + list@.take(m as int).filter_map(contact_of(*row, rows@)),
            decreases list.len() - m,
        {
            let other = list[m];
            proof {
                list@.lemma_filter_map_take_succ(contact_of(*row, rows@), m as int);
            }
            if lookup(rows, other).is_none() {
                events.push(CollisionEvent::new(row.entity, other));
            }
            assert(events@ =~= done + list@.take(m + 1).filter_map(contact_of(*row, rows@)));
            m += 1;
        }
        proof {
            assert(list@.take(list.len() as int) =~= list@);
            assert(rows@.take(i + 1).drop_last() =~= rows@.take(i as int));
        }
        i += 1;
    }
    assert(rows@.take(rows.len() as int) =~= rows@);
    events
}

/// The health of `victim` after one event: lower by the damage of the
/// colliding entity if the event is about `victim` and the colliding entity
/// deals damage, unchanged otherwise.
pub open spec fn hit(
    health: Health,
    victim: Entity,
    event: CollisionEvent,
    attackers: Seq<Row<CollisionDamage>>,
) -> Health {
    if event.entity == victim {
        match find(attackers, event.colliding_entity) {
            Some(k) => health.damaged(attackers[k].item.amount),
            None => health,
        }
    } else {
        health
    }
}

/// The health of `victim` after the events, taken in order.
pub open spec fn health_after(
    health: Health,
    victim: Entity,
    events: Seq<CollisionEvent>,
    attackers: Seq<Row<CollisionDamage>>,
) -> Health
    decreases events.len(),
{
    if events.len() == 0 {
        health
    } else {
        hit(
            health_after(health, victim, events.drop_last(), attackers),
            victim,
            events.last(),
            attackers,
        )
    }
}

/// Deals the damage of the collision events.
///
/// Each event lowers the health of its entity by the contact damage of the
/// colliding entity. An event whose entity has no health, or whose
/// colliding entity deals no damage, is passed over. An entity is looked up
/// by its first row; a row that repeats an entity is left alone.
pub fn apply_collision_damage(
    events: &Vec<CollisionEvent>,
    attacked: &mut Vec<Row<Health>>,
    attackers: &Vec<Row<CollisionDamage>>,
)
    ensures
        final(attacked).len() == old(attacked).len(),
        forall|k: int|
            0 <= k < old(attacked).len() ==> {
                let before = #[trigger] old(attacked)[k];
                let after = final(attacked)[k];
                &&& after.entity == before.entity
                &&& after.item == if first_at(old(attacked)@, before.entity, k) {
                    health_after(before.item, before.entity, events@, attackers@)
                } else {
                    before.item
                }
            },
{
    let ghost rows = attacked@;
    let mut m: usize = 0;
    assert(events@.take(0) =~= Seq::<CollisionEvent>::empty());
    while m < events.len()
        invariant
            m <= events.len(),
            attacked.len() == rows.len(),
            forall|k: int|
                0 <= k < rows.len() ==> {
                    let before = #[trigger] rows[k];
                    let after = attacked[k];
                    &&& after.entity == before.entity
                    &&& after.item == if first_at(rows, before.entity, k) {
                        health_after(before.item, before.entity, events@.take(m as int), attackers@)
                    } else {
                        before.item
                    }
                },
        decreases events.len() - m,
    {
        let event = events[m];
        let ghost held = attacked@;
        proof {
            assert(events@.take(m + 1).drop_last() =~= events@.take(m as int));
            assert forall|i: int| first_at(held, event.entity, i) == first_at(
                rows,
                event.entity,
                i,
            ) by {
                lemma_same_entities_same_first(held, rows, event.entity, i);
            }
        }
        if let Some(at) = lookup(attacked, event.entity) {
            if let Some(by) = lookup(attackers, event.colliding_entity) {
                attacked[at].item.damage(attackers[by].item.amount);
            }
        }
        m += 1;
    }
    assert(events@.take(events.len() as int) =~= events@);
}

/// A circle in the world: where a body is and how far it reaches.
#[derive(Copy, Clone, Debug, PartialEq, Eq, Structural)]
pub struct Shape {
    /// The position in the world, as of the last detection pass.
    pub position: Vec3,
    pub radius: u32,
}

/// A body without bounce: its shape, and the position that a separation
/// moves.
#[derive(Copy, Clone, Debug, PartialEq, Eq, Structural)]
pub struct SolidBody {
    pub shape: Shape,
    pub translation: Vec3,
}

/// A body with bounce: its shape, and the position and the velocity that a
/// contact changes.
#[derive(Copy, Clone, Debug, PartialEq, Eq, Structural)]
pub struct BouncyBody {
    pub shape: Shape,
    pub translation: Vec3,
    pub velocity: Velocity,
    pub bounce: Bounce,
}

/// The displacement that takes `attacker` out of its contact with
/// `attacked`, as its two planar coordinates.
///
/// Both bodies are put on the render layer of `attacker`. With `d` the
/// distance between them there, rounded down, the displacement points from
/// `attacked` to `attacker` and is as long as the two radii together, less
/// `d`, plus the buffer; each coordinate is rounded toward zero. Where the
/// two positions coincide on that layer there is no direction to take, and
/// the displacement is zero.
pub open spec fn separation(attacker: Shape, attacked: Shape) -> (int, int) {
    let dx = attacker.position.x - attacked.position.x;
    let dy = attacker.position.y - attacked.position.y;
    let d = floor_sqrt(dx * dx + dy * dy);
    let reach = attacked.radius + attacker.radius - d + COLLISION_BUFFER;
    if dx == 0 && dy == 0 {
        (0, 0)
    } else {
        (trunc_div(dx * reach, d), trunc_div(dy * reach, d))
    }
}

/// The numerators of the change of velocity on a rebound, over the common
/// denominator `1000 * (dx * dx + dy * dy)`.
///
/// `(dx, dy)` points from the body hit to the body that rebounds. The change
/// is the part of the velocity along that line, turned around and scaled by
/// one plus the restitution, which is given in thousandths.
pub open spec fn rebound_numerators(velocity: Vec3, dx: int, dy: int, restitution: int) -> (
    int,
    int,
) {
    let along = velocity.x * dx + velocity.y * dy;
    (-(1000 + restitution) * along * dx, -(1000 + restitution) * along * dy)
}

/// The velocity of `attacker` after it rebounds from `attacked`: the change
/// of `rebound_numerators`, each coordinate divided with rounding toward
/// zero, added to the velocity and clamped. The coordinate across the
/// render layers stays. Where the two positions coincide on the layer of
/// `attacker` the velocity stays as it is.
pub open spec fn rebound(velocity: Vec3, attacker: Shape, attacked: Shape, bounce: Bounce) -> Vec3 {
    let dx = attacker.position.x - attacked.position.x;
    let dy = attacker.position.y - attacked.position.y;
    let n = rebound_numerators(velocity, dx, dy, bounce.value as int);
    let over = 1000 * (dx * dx + dy * dy);
    if dx == 0 && dy == 0 {
        velocity
    } else {
        velocity.moved(trunc_div(n.0, over), trunc_div(n.1, over), 0)
    }
}

/// Computes the displacement that separates `attacker` from `attacked`.
pub fn separate(attacker: &Shape, attacked: &Shape) -> (push: (i128, i128))
    ensures
        push.0 == separation(*attacker, *attacked).0,
        push.1 == separation(*attacker, *attacked).1,
{
    let dx: i128 = attacker.position.x as i128 - attacked.position.x as i128;
    let dy: i128 = attacker.position.y as i128 - attacked.position.y as i128;
    if dx == 0 && dy == 0 {
        return (0, 0);
    }
    proof {
        lemma_square_bound(dx as int);
        lemma_square_bound(dy as int);
    }
    let d: i128 = isqrt((dx * dx + dy * dy) as u128) as i128;
    let reach: i128 = attacked.radius as i128 + attacker.radius as i128 - d
        + COLLISION_BUFFER as i128;
    proof {
        let s = dx * dx + dy * dy;
        assert(s > 0) by (nonlinear_arith)
            requires
                s == dx * dx + dy * dy,
                dx != 0 || dy != 0,
        ;
        assert(d > 0 && d < 0x2_0000_0000) by (nonlinear_arith)
            requires
                is_floor_sqrt(d as int, s as int),
                0 < s < 0x2_0000_0000_0000_0000,
        ;
        assert(-0x8_0000_0000_0000_0000_0000 < dx * reach < 0x8_0000_0000_0000_0000_0000
            && -0x8_0000_0000_0000_0000_0000 < dy * reach < 0x8_0000_0000_0000_0000_0000)
            by (nonlinear_arith)
            requires
                -0x1_0000_0000 < dx < 0x1_0000_0000,
                -0x1_0000_0000 < dy < 0x1_0000_0000,
                -0x8_0000_0000 < reach < 0x8_0000_0000,
        ;
    }
    (div_toward_zero(dx * reach, d), div_toward_zero(dy * reach, d))
}

/// Computes the velocity of `attacker` after it rebounds from `attacked`.
pub fn bounce_off(velocity: &Vec3, attacker: &Shape, attacked: &Shape, bounce: Bounce) -> (v: Vec3)
    ensures
        v == rebound(*velocity, *attacker, *attacked, bounce),
{
    let dx: i128 = attacker.position.x as i128 - attacked.position.x as i128;
    let dy: i128 = attacker.position.y as i128 - attacked.position.y as i128;
    if dx == 0 && dy == 0 {
        return *velocity;
    }
    let vx: i128 = velocity.x as i128;
    let vy: i128 = velocity.y as i128;
    let scale: i128 = -(1000 + bounce.value as i128);
    proof {
        lemma_square_bound(dx as int);
        lemma_square_bound(dy as int);
        assert(dx * dx + dy * dy > 0) by (nonlinear_arith)
            requires
                dx != 0 || dy != 0,
        ;
        assert(-0x8000_0000_0000_0000 < vx * dx < 0x8000_0000_0000_0000 && -0x8000_0000_0000_0000
            < vy * dy < 0x8000_0000_0000_0000) by (nonlinear_arith)
            requires
                -0x1_0000_0000 < dx < 0x1_0000_0000,
                -0x1_0000_0000 < dy < 0x1_0000_0000,
                -0x8000_0000 <= vx < 0x8000_0000,
                -0x8000_0000 <= vy < 0x8000_0000,
        ;
    }
    let along: i128 = vx * dx + vy * dy;
    proof {
        assert(-0x2_0000_0000_0000_0000_0000 < scale * along < 0x2_0000_0000_0000_0000_0000)
            by (nonlinear_arith)
            requires
                -0x1_0000_0000_0000_0000 < along < 0x1_0000_0000_0000_0000,
                -0x2_0000 < scale < 0,
        ;
    }
    let turned: i128 = scale * along;
    proof {
        assert(-0x2_0000_0000_0000_0000_0000_0000_0000 < turned * dx
            < 0x2_0000_0000_0000_0000_0000_0000_0000 && -0x2_0000_0000_0000_0000_0000_0000_0000
            < turned * dy < 0x2_0000_0000_0000_0000_0000_0000_0000) by (nonlinear_arith)
            requires
                -0x2_0000_0000_0000_0000_0000 < turned < 0x2_0000_0000_0000_0000_0000,
                -0x1_0000_0000 < dx < 0x1_0000_0000,
                -0x1_0000_0000 < dy < 0x1_0000_0000,
        ;
    }
    let over: i128 = 1000 * (dx * dx + dy * dy);
    velocity.translate(div_toward_zero(turned * dx, over), div_toward_zero(turned * dy, over), 0)
}

/// The position of `body` after one event: moved out of the contact if the
/// event names `body` as the colliding entity and the entity it collides
/// with has a shape, unchanged otherwise.
pub open spec fn shoved(
    translation: Vec3,
    shape: Shape,
    entity: Entity,
    event: CollisionEvent,
    attacked: Seq<Row<Shape>>,
) -> Vec3 {
    if event.colliding_entity == entity {
        match find(attacked, event.entity) {
            Some(k) => {
                let push = separation(shape, attacked[k].item);
                translation.moved(push.0, push.1, 0)
            },
            None => translation,
        }
    } else {
        translation
    }
}

/// The position of a solid body after the events, taken in order.
pub open spec fn translation_after(
    body: Row<SolidBody>,
    events: Seq<CollisionEvent>,
    attacked: Seq<Row<Shape>>,
) -> Vec3
    decreases events.len(),
{
    if events.len() == 0 {
        body.item.translation
    } else {
        shoved(
            translation_after(body, events.drop_last(), attacked),
            body.item.shape,
            body.entity,
            events.last(),
            attacked,
        )
    }
}

/// Pushes the bodies without bounce out of their contacts.
///
/// For each event the colliding entity is the one that moves: away from the
/// entity of the event, by `separation`. Both shapes are taken as the
/// detection pass saw them, so that several contacts of one body in one
/// tick add up. An event whose entity has no shape, or whose colliding
/// entity is not among `attackers`, is passed over. An entity is looked up
/// by its first row; a row that repeats an entity is left alone.
pub fn update_solid_collisions(
    events: &Vec<CollisionEvent>,
    attacked: &Vec<Row<Shape>>,
    attackers: &mut Vec<Row<SolidBody>>,
)
    ensures
        final(attackers).len() == old(attackers).len(),
        forall|k: int|
            0 <= k < old(attackers).len() ==> {
                let before = #[trigger] old(attackers)[k];
                let after = final(attackers)[k];
                &&& after.entity == before.entity
                &&& after.item.shape == before.item.shape
                &&& after.item.translation == if first_at(old(attackers)@, before.entity, k) {
                    translation_after(before, events@, attacked@)
                } else {
                    before.item.translation
                }
            },
{
    let ghost rows = attackers@;
    let mut m: usize = 0;
    assert(events@.take(0) =~= Seq::<CollisionEvent>::empty());
    while m < events.len()
        invariant
            m <= events.len(),
            attackers.len() == rows.len(),
            forall|k: int|
                0 <= k < rows.len() ==> {
                    let before = #[trigger] rows[k];
                    let after = attackers[k];
                    &&& after.entity == before.entity
                    &&& after.item.shape == before.item.shape
                    &&& after.item.translation == if first_at(rows, before.entity, k) {
                        translation_after(before, events@.take(m as int), attacked@)
                    } else {
                        before.item.translation
                    }
                },
        decreases events.len() - m,
    {
        let event = events[m];
        let ghost held = attackers@;
        proof {
            assert(events@.take(m + 1).drop_last() =~= events@.take(m as int));
            assert forall|i: int| first_at(held, event.colliding_entity, i) == first_at(
                rows,
                event.colliding_entity,
                i,
            ) by {
                lemma_same_entities_same_first(held, rows, event.colliding_entity, i);
            }
        }
        if let Some(at) = lookup(attacked, event.entity) {
            if let Some(by) = lookup(attackers, event.colliding_entity) {
                let body = attackers[by].item;
                let push = separate(&body.shape, &attacked[at].item);
                attackers[by].item.translation = body.translation.translate(push.0, push.1, 0);
            }
        }
        m += 1;
    }
    assert(events@.take(events.len() as int) =~= events@);
}

/// The position and the velocity of a bouncy body after one event: moved
/// out of the contact and turned around along the line of contact if the
/// event names the body as the colliding entity and the entity it collides
/// with has a shape, unchanged otherwise.
pub open spec fn knocked(
    state: (Vec3, Vec3),
    body: Row<BouncyBody>,
    event: CollisionEvent,
    attacked: Seq<Row<Shape>>,
) -> (Vec3, Vec3) {
    if event.colliding_entity == body.entity {
        match find(attacked, event.entity) {
            Some(k) => {
                let push = separation(body.item.shape, attacked[k].item);
                (
                    state.0.moved(push.0, push.1, 0),
                    rebound(state.1, body.item.shape, attacked[k].item, body.item.bounce),
                )
            },
            None => state,
        }
    } else {
        state
    }
}

/// The position and the velocity of a bouncy body after the events, taken
/// in order.
pub open spec fn bounced_after(
    body: Row<BouncyBody>,
    events: Seq<CollisionEvent>,
    attacked: Seq<Row<Shape>>,
) -> (Vec3, Vec3)
    decreases events.len(),
{
    if events.len() == 0 {
        (body.item.translation, body.item.velocity.value)
    } else {
        knocked(bounced_after(body, events.drop_last(), attacked), body, events.last(), attacked)
    }
}

/// Pushes the bodies with bounce out of their contacts and turns them
/// around.
///
/// For each event the colliding entity is separated from the entity of the
/// event as a solid body is, and then its velocity loses its part along the
/// line of contact and gains that part turned around, scaled by the
/// restitution; the part across the line stays. Events are passed over as
/// for solid bodies.
pub fn update_bouncy_collisions(
    events: &Vec<CollisionEvent>,
    attacked: &Vec<Row<Shape>>,
    attackers: &mut Vec<Row<BouncyBody>>,
)
    ensures
        final(attackers).len() == old(attackers).len(),
        forall|k: int|
            0 <= k < old(attackers).len() ==> {
                let before = #[trigger] old(attackers)[k];
                let after = final(attackers)[k];
                &&& after.entity == before.entity
                &&& after.item.shape == before.item.shape
                &&& after.item.bounce == before.item.bounce
                &&& (after.item.translation, after.item.velocity.value) == if first_at(
                    old(attackers)@,
                    before.entity,
                    k,
                ) {
                    bounced_after(before, events@, attacked@)
                } else {
                    (before.item.translation, before.item.velocity.value)
                }
            },
{
    let ghost rows = attackers@;
    let mut m: usize = 0;
    assert(events@.take(0) =~= Seq::<CollisionEvent>::empty());
    while m < events.len()
        invariant
            m <= events.len(),
            attackers.len() == rows.len(),
            forall|k: int|
                0 <= k < rows.len() ==> {
                    let before = #[trigger] rows[k];
                    let after = attackers[k];
                    &&& after.entity == before.entity
                    &&& after.item.shape == before.item.shape
                    &&& after.item.bounce == before.item.bounce
                    &&& (after.item.translation, after.item.velocity.value) == if first_at(
                        rows,
                        before.entity,
                        k,
                    ) {
                        bounced_after(before, events@.take(m as int), attacked@)
                    } else {
                        (before.item.translation, before.item.velocity.value)
                    }
                },
        decreases events.len() - m,
    {
        let event = events[m];
        let ghost held = attackers@;
        proof {
            assert(events@.take(m + 1).drop_last() =~= events@.take(m as int));
            assert forall|i: int| first_at(held, event.colliding_entity, i) == first_at(
                rows,
                event.colliding_entity,
                i,
            ) by {
                lemma_same_entities_same_first(held, rows, event.colliding_entity, i);
            }
        }
        if let Some(at) = lookup(attacked, event.entity) {
            if let Some(by) = lookup(attackers, event.colliding_entity) {
                let body = attackers[by].item;
                let other = attacked[at].item;
                let push = separate(&body.shape, &other);
                attackers[by].item.translation = body.translation.translate(push.0, push.1, 0);
                attackers[by].item.velocity.value = bounce_off(
                    &body.velocity.value,
                    &body.shape,
                    &other,
                    body.bounce,
                );
            }
        }
        m += 1;
    }
    assert(events@.take(events.len() as int) =~= events@);
}

/// A rebound keeps the velocity across the line of contact and turns
/// around the velocity along it.
///
/// Take the velocity after the rebound before rounding, as numerators over
/// `1000 * (dx * dx + dy * dy)`. Its part across the line of contact, which
/// runs along `(dx, dy)`, is that of the velocity before. Its part along the
/// line is that of the velocity before, turned around and scaled by the
/// restitution: the rebound takes away one plus the restitution of it. With
/// a restitution of zero nothing is left along the line.
pub proof fn lemma_rebound_components(velocity: Vec3, dx: int, dy: int, restitution: int)
    ensures
        ({
            let n = rebound_numerators(velocity, dx, dy, restitution);
            let over = 1000 * (dx * dx + dy * dy);
            let along = velocity.x * dx + velocity.y * dy;
            let across = velocity.y * dx - velocity.x * dy;
            &&& (over * velocity.y + n.1) * dx - (over * velocity.x + n.0) * dy == over * across
            &&& 1000 * ((over * velocity.x + n.0) * dx + (over * velocity.y + n.1) * dy)
                == -restitution * (over * along)
            &&& restitution == 0 ==> (over * velocity.x + n.0) * dx + (over * velocity.y + n.1)
                * dy == 0
        }),
{
    let vx = velocity.x as int;
    let vy = velocity.y as int;
    let n = rebound_numerators(velocity, dx, dy, restitution);
    let s = dx * dx + dy * dy;
    let over = 1000 * s;
    let along = vx * dx + vy * dy;
    let across = vy * dx - vx * dy;
    let scale = -(1000 + restitution);
    assert(n.0 == scale * along * dx);
    assert(n.1 == scale * along * dy);
    let t = scale * along;
    let a = over * vx;
    let b = over * vy;
    let p = t * dx;
    let q = t * dy;
    assert((b + q) * dx == b * dx + q * dx) by (nonlinear_arith);
    assert((a + p) * dy == a * dy + p * dy) by (nonlinear_arith);
    assert((a + p) * dx == a * dx + p * dx) by (nonlinear_arith);
    assert((b + q) * dy == b * dy + q * dy) by (nonlinear_arith);
    assert(q * dx == p * dy) by (nonlinear_arith)
        requires
            p == t * dx,
            q == t * dy,
    ;
    assert(b * dx - a * dy == over * (vy * dx - vx * dy)) by (nonlinear_arith)
        requires
            a == over * vx,
            b == over * vy,
    ;
    assert(a * dx + b * dy == over * (vx * dx + vy * dy)) by (nonlinear_arith)
        requires
            a == over * vx,
            b == over * vy,
    ;
    assert(p * dx + q * dy == t * (dx * dx + dy * dy)) by (nonlinear_arith)
        requires
            p == t * dx,
            q == t * dy,
    ;
    assert((a + p) * dx + (b + q) * dy == over * along + t * s);
    let m = along * s;
    assert(over * along == 1000 * m) by (nonlinear_arith)
        requires
            over == 1000 * s,
            m == along * s,
    ;
    assert(t * s == -(1000 + restitution) * m) by (nonlinear_arith)
        requires
            t == -(1000 + restitution) * along,
            m == along * s,
    ;
    assert(-(1000 + restitution) * m == -1000 * m - restitution * m) by (nonlinear_arith);
    assert(-restitution * m == -(restitution * m)) by (nonlinear_arith);
    assert(-restitution * (1000 * m) == 1000 * (-restitution * m)) by (nonlinear_arith);
    assert(over * velocity.x + n.0 == a + p);
    assert(over * velocity.y + n.1 == b + q);
    assert((b + q) * dx - (a + p) * dy == over * across);
    assert(over * along + t * s == -restitution * m);
    assert(1000 * ((a + p) * dx + (b + q) * dy) == -restitution * (over * along));
}

/// The velocity that a rebound stores is the exact one rounded toward the
/// velocity before: each planar coordinate of the change is less than one
/// unit short of the exact change, and never beyond it.
pub proof fn lemma_rebound_rounding(velocity: Vec3, dx: int, dy: int, restitution: int)
    requires
        dx != 0 || dy != 0,
    ensures
        ({
            let n = rebound_numerators(velocity, dx, dy, restitution);
            let over = 1000 * (dx * dx + dy * dy);
            &&& over > 0
            &&& -over < n.0 - trunc_div(n.0, over) * over < over
            &&& -over < n.1 - trunc_div(n.1, over) * over < over
        }),
{
    let n = rebound_numerators(velocity, dx, dy, restitution);
    let over = 1000 * (dx * dx + dy * dy);
    assert(dx * dx + dy * dy > 0) by (nonlinear_arith)
        requires
            dx != 0 || dy != 0,
    ;
    crate::fixed::lemma_trunc_div_bounds(n.0, over);
    crate::fixed::lemma_trunc_div_bounds(n.1, over);
}

/// Two lengths that each fall short of a side of a right triangle by less
/// than `d` span a hypotenuse that falls short by less than `2 * d`.
///
/// `a` and `b` are the lengths, `x` and `y` the sides, and `w` a lower bound
/// of the hypotenuse over `x` and `y`. Then the hypotenuse over `a` and `b`
/// is at least `w - 2 * d`.
proof fn lemma_short_sides(a: int, b: int, x: int, y: int, d: int, u: int, w: int)
    requires
        a >= 0,
        b >= 0,
        x >= 0,
        y >= 0,
        d > 0,
        u >= 0,
        a + d > x,
        b + d > y,
        x * x + y * y >= w * w,
        w >= u + 2 * d,
    ensures
        a * a + b * b >= u * u,
{
    if a * a + b * b < u * u {
        let ad = a + d;
        let bd = b + d;
        assert(ad * ad >= x * x) by (nonlinear_arith)
            requires
                ad > x,
                x >= 0,
        ;
        assert(bd * bd >= y * y) by (nonlinear_arith)
            requires
                bd > y,
                y >= 0,
        ;
        let sum = a + b;
        assert(sum * sum <= 2 * (a * a + b * b)) by (nonlinear_arith)
            requires
                sum == a + b,
        ;
        assert(sum < 2 * u) by (nonlinear_arith)
            requires
                sum >= 0,
                u >= 0,
                sum * sum < 2 * (u * u),
        ;
        assert(ad * ad + bd * bd == a * a + b * b + 2 * (d * sum) + 2 * (d * d))
            by (nonlinear_arith)
            requires
                ad == a + d,
                bd == b + d,
                sum == a + b,
        ;
        assert(d * sum < 2 * (d * u)) by (nonlinear_arith)
            requires
                d > 0,
                sum < 2 * u,
        ;
        let v = u + 2 * d;
        assert(v * v == u * u + 4 * (d * u) + 4 * (d * d)) by (nonlinear_arith)
            requires
                v == u + 2 * d,
        ;
        assert(d * d > 0) by (nonlinear_arith)
            requires
                d > 0,
        ;
        assert(w * w >= v * v) by (nonlinear_arith)
            requires
                w >= v,
                v >= 0,
        ;
        assert(false);
    }
}

/// A separation takes a body out of its contact.
///
/// Take a body that overlaps another on its render layer, without standing
/// on the very place of the other there. Moved by `separation`, it is at
/// least as far from the other as the two radii together, on the layer and
/// so in the world: unless the edge of the world stops it, the next
/// detection pass does not find the two in contact, and separation has
/// nothing left to do.
pub proof fn lemma_separation_takes_apart(attacker: Shape, attacked: Shape)
    requires
        0 < attacker.position.planar_dist_sq(attacked.position) < (attacker.radius
            + attacked.radius) * (attacker.radius + attacked.radius),
    ensures
        ({
            let push = separation(attacker, attacked);
            let x = attacker.position.x + push.0 - attacked.position.x;
            let y = attacker.position.y + push.1 - attacked.position.y;
            x * x + y * y >= (attacker.radius + attacked.radius) * (attacker.radius
                + attacked.radius)
        }),
{
    let dx = attacker.position.x - attacked.position.x;
    let dy = attacker.position.y - attacked.position.y;
    let s = dx * dx + dy * dy;
    let r = (attacker.radius + attacked.radius) as int;
    let d = floor_sqrt(s);
    lemma_floor_sqrt(s);
    assert(d > 0) by (nonlinear_arith)
        requires
            is_floor_sqrt(d, s),
            s > 0,
    ;
    assert(d < r) by (nonlinear_arith)
        requires
            d * d <= s,
            s < r * r,
            d > 0,
            r >= 0,
    ;
    let t = r + COLLISION_BUFFER;
    let m = t - d;
    assert(m == attacked.radius + attacker.radius - d + COLLISION_BUFFER);
    assert(dx != 0 || dy != 0) by (nonlinear_arith)
        requires
            s == dx * dx + dy * dy,
            s > 0,
    ;
    let push = separation(attacker, attacked);
    assert(push.0 == trunc_div(dx * m, d));
    assert(push.1 == trunc_div(dy * m, d));
    let x = dx + push.0;
    let y = dy + push.1;
    let ax = if dx >= 0 { dx } else { -dx };
    let ay = if dy >= 0 { dy } else { -dy };
    let a = if x >= 0 { x * d } else { -(x * d) };
    let b = if y >= 0 { y * d } else { -(y * d) };
    lemma_pushed_side(dx, m, d, t);
    lemma_pushed_side(dy, m, d, t);
    let u = r * d;
    let w = t * d;
    assert(u >= 0 && w == u + 2000 * d) by (nonlinear_arith)
        requires
            u == r * d,
            w == t * d,
            t == r + 2000,
            r >= 0,
            d > 0,
    ;
    let big_x = ax * t;
    let big_y = ay * t;
    assert(big_x >= 0 && big_y >= 0) by (nonlinear_arith)
        requires
            big_x == ax * t,
            big_y == ay * t,
            ax >= 0,
            ay >= 0,
            t >= 0,
    ;
    assert(ax * ax + ay * ay == s) by (nonlinear_arith)
        requires
            s == dx * dx + dy * dy,
            ax == dx || ax == -dx,
            ay == dy || ay == -dy,
    ;
    assert(big_x * big_x + big_y * big_y == (t * t) * (ax * ax + ay * ay)) by (nonlinear_arith)
        requires
            big_x == ax * t,
            big_y == ay * t,
    ;
    assert(w * w == (t * t) * (d * d)) by (nonlinear_arith)
        requires
            w == t * d,
    ;
    assert((t * t) * s >= (t * t) * (d * d)) by (nonlinear_arith)
        requires
            s >= d * d,
    ;
    lemma_short_sides(a, b, big_x, big_y, d, u, w);
    assert(a * a == (x * x) * (d * d)) by (nonlinear_arith)
        requires
            a == x * d || a == -(x * d),
    ;
    assert(b * b == (y * y) * (d * d)) by (nonlinear_arith)
        requires
            b == y * d || b == -(y * d),
    ;
    assert(u * u == (r * r) * (d * d)) by (nonlinear_arith)
        requires
            u == r * d,
    ;
    let gain = x * x + y * y - r * r;
    assert(gain >= 0) by (nonlinear_arith)
        requires
            (x * x) * (d * d) + (y * y) * (d * d) >= (r * r) * (d * d),
            gain == x * x + y * y - r * r,
            d > 0,
    ;
}

/// A body that has been separated from another is no longer in contact
/// with it.
///
/// Take two bodies of which the second overlaps the first on its own
/// render layer without standing on the very place of the first there, and
/// move the second by its separation from the first. If the edge of the
/// world does not stop it, neither body is recorded as colliding with the
/// other at the new position, whatever their masks.
pub proof fn lemma_separated_bodies_do_not_overlap(
    first: Row<CollisionBody>,
    second: Row<CollisionBody>,
    moved: Row<CollisionBody>,
)
    requires
        0 < second.item.position.planar_dist_sq(first.item.position) < (
        second.item.collider.radius + first.item.collider.radius) * (second.item.collider.radius
            + first.item.collider.radius),
        moved.item.collider.radius == second.item.collider.radius,
        ({
            let push = separation(
                Shape { position: second.item.position, radius: second.item.collider.radius },
                Shape { position: first.item.position, radius: first.item.collider.radius },
            );
            &&& moved.item.position.x == second.item.position.x + push.0
            &&& moved.item.position.y == second.item.position.y + push.1
            &&& moved.item.position.z == second.item.position.z
        }),
    ensures
        !overlaps(first, moved),
        !overlaps(moved, first),
{
    let attacker = Shape { position: second.item.position, radius: second.item.collider.radius };
    let attacked = Shape { position: first.item.position, radius: first.item.collider.radius };
    lemma_separation_takes_apart(attacker, attacked);
    let dz = moved.item.position.z - first.item.position.z;
    assert(dz * dz >= 0) by (nonlinear_arith);
    lemma_apart_no_overlap(moved, first);
}

/// One coordinate of a body after a separation lies on the side of the
/// coordinate before, and times the distance `d` it falls short of the
/// coordinate before times `t` by less than `d`. Here `m` is `t - d`, the
/// length of the push, and the coordinate is pushed by `c * m / d`, rounded
/// toward zero.
proof fn lemma_pushed_side(c: int, m: int, d: int, t: int)
    requires
        d > 0,
        m >= 0,
        t == m + d,
    ensures
        ({
            let pushed = c + trunc_div(c * m, d);
            let size = if c >= 0 { c } else { -c };
            let side = if pushed >= 0 { pushed * d } else { -(pushed * d) };
            &&& side >= 0
            &&& side + d > size * t
        }),
{
    let n = c * m;
    let q = trunc_div(n, d);
    crate::fixed::lemma_trunc_div_bounds(n, d);
    let pushed = c + q;
    assert(pushed * d == c * d + q * d) by (nonlinear_arith)
        requires
            pushed == c + q,
    ;
    assert(c * t == c * m + c * d) by (nonlinear_arith)
        requires
            t == m + d,
    ;
    if c >= 0 {
        assert(n >= 0) by (nonlinear_arith)
            requires
                n == c * m,
                c >= 0,
                m >= 0,
        ;
        assert(q >= 0) by (nonlinear_arith)
            requires
                q * d >= 0,
                d > 0,
        ;
        assert(pushed * d >= 0) by (nonlinear_arith)
            requires
                pushed >= 0,
                d > 0,
        ;
    } else {
        assert(n <= 0) by (nonlinear_arith)
            requires
                n == c * m,
                c < 0,
                m >= 0,
        ;
        assert(q <= 0) by (nonlinear_arith)
            requires
                q * d <= 0,
                d > 0,
        ;
        assert(pushed * d < 0) by (nonlinear_arith)
            requires
                pushed < 0,
                d > 0,
        ;
        assert((-c) * t == -(c * t)) by (nonlinear_arith);
    }
}

/// Bodies that are no closer than touching do not overlap.
pub proof fn lemma_apart_no_overlap(a: Row<CollisionBody>, b: Row<CollisionBody>)
    requires
        a.item.position.dist_sq(b.item.position) >= (a.item.collider.radius
            + b.item.collider.radius) * (a.item.collider.radius + b.item.collider.radius),
    ensures
        !overlaps(a, b),
        !overlaps(b, a),
{
    crate::vector::lemma_dist_sq_symmetric(a.item.position, b.item.position);
}

/// Among bodies none of which overlaps `a`, `a` has no partner.
pub proof fn lemma_no_overlap_no_partner(a: Row<CollisionBody>, rows: Seq<Row<CollisionBody>>)
    requires
        forall|j: int| 0 <= j < rows.len() ==> !overlaps(a, #[trigger] rows[j]),
    ensures
        partners(a, rows).len() == 0,
    decreases rows.len(),
{
    if rows.len() > 0 {
        let front = rows.drop_last();
        assert forall|j: int| 0 <= j < front.len() implies !overlaps(a, #[trigger] front[j]) by {
            assert(front[j] == rows[j]);
        }
        lemma_no_overlap_no_partner(a, front);
        assert(!overlaps(a, rows[rows.len() - 1]));
    }
}

/// Rows without colliding entities give no collision events.
pub proof fn lemma_no_colliding_no_events(rows: Seq<Row<Collider>>, all: Seq<Row<Collider>>)
    requires
        forall|k: int| 0 <= k < rows.len() ==> (#[trigger] rows[k]).item.colliding_entities@.len() == 0,
    ensures
        collision_events(rows, all).len() == 0,
    decreases rows.len(),
{
    if rows.len() > 0 {
        let front = rows.drop_last();
        assert forall|k: int| 0 <= k < front.len() implies (
        #[trigger] front[k]).item.colliding_entities@.len() == 0 by {
            assert(front[k] == rows[k]);
        }
        lemma_no_colliding_no_events(front, all);
        assert(rows[rows.len() - 1].item.colliding_entities@.len() == 0);
    }
}

/// Separation comes to rest where the bodies touch.
///
/// Take bodies of which every two are at least as far apart as their radii
/// together: at the distance at which a separation leaves them, or beyond.
/// Then a detection pass finds no partner for any of them, the lists of
/// colliding entities that it writes give no collision event, and a
/// separation or a rebound on those events moves nothing: positions and
/// velocities stay as they are.
pub proof fn lemma_separation_fixed_point(
    bodies: Seq<Row<CollisionBody>>,
    category: Seq<Row<Collider>>,
    attacked: Seq<Row<Shape>>,
    solid: Row<SolidBody>,
    bouncy: Row<BouncyBody>,
)
    requires
        forall|i: int, j: int|
            0 <= i < bodies.len() && 0 <= j < bodies.len() && i != j ==> (
            #[trigger] bodies[i]).item.position.dist_sq((#[trigger] bodies[j]).item.position) >= (
            bodies[i].item.collider.radius + bodies[j].item.collider.radius) * (
            bodies[i].item.collider.radius + bodies[j].item.collider.radius),
        forall|k: int|
            0 <= k < category.len() ==> exists|i: int|
                0 <= i < bodies.len() && (#[trigger] category[k]).item.colliding_entities@
                    == partners(#[trigger] bodies[i], bodies),
    ensures
        forall|i: int| 0 <= i < bodies.len() ==> partners(#[trigger] bodies[i], bodies).len() == 0,
        collision_events(category, category).len() == 0,
        translation_after(solid, collision_events(category, category), attacked)
            == solid.item.translation,
        bounced_after(bouncy, collision_events(category, category), attacked) == (
            bouncy.item.translation,
            bouncy.item.velocity.value,
        ),
{
    assert forall|i: int| 0 <= i < bodies.len() implies partners(
        #[trigger] bodies[i],
        bodies,
    ).len() == 0 by {
        assert forall|j: int| 0 <= j < bodies.len() implies !overlaps(
            bodies[i],
            #[trigger] bodies[j],
        ) by {
            if i != j {
                lemma_apart_no_overlap(bodies[i], bodies[j]);
            }
        }
        lemma_no_overlap_no_partner(bodies[i], bodies);
    }
    assert forall|k: int| 0 <= k < category.len() implies (
    #[trigger] category[k]).item.colliding_entities@.len() == 0 by {
        let i = choose|i: int|
            0 <= i < bodies.len() && (#[trigger] category[k]).item.colliding_entities@ == partners(
                #[trigger] bodies[i],
                bodies,
            );
        assert(partners(bodies[i], bodies).len() == 0);
    }
    lemma_no_colliding_no_events(category, category);
}

} // verus!
