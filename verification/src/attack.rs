//! The attack state machine.
//!
//! An attacker is idle or engaged. It is engaged while it holds an
//! `AttackOccurance`, which names its target. While engaged it stands
//! still, and each time its rate timer completes it deals its damage to the
//! target. When that brings the target's health to zero or below, a death
//! event is published; on a death event every attacker of the dead target
//! goes back to idle.

use vstd::prelude::*;
use crate::entity::{find, lemma_find, lemma_find_same_entities, lookup, Entity, Row};
use crate::health::Health;
use crate::movement::Velocity;
use crate::timer::{lemma_repeating_fires_once_per_period, total, Timer, TimerMode};
use crate::vector::Vec3;

verus! {

/// The damage of one hit and the timer that sets the pace of the hits.
#[derive(Copy, Clone, Debug, PartialEq, Eq, Structural)]
pub struct Attack {
    pub amount: i32,
    pub rate: Timer,
}

impl Attack {
    pub fn new(amount: i32, rate: Timer) -> (a: Attack)
        ensures
            a == (Attack { amount, rate }),
    {
        Attack { amount, rate }
    }
}

/// A live engagement of `attacker` with `target`. The attacker holds it for
/// as long as it fights.
#[derive(Copy, Clone, Debug, PartialEq, Eq, Structural)]
pub struct AttackOccurance {
    pub attacker: Entity,
    pub target: Entity,
}

impl AttackOccurance {
    pub fn new(attacker: Entity, target: Entity) -> (o: AttackOccurance)
        ensures
            o == (AttackOccurance { attacker, target }),
    {
        AttackOccurance { attacker, target }
    }
}

/// Says that an attack has brought the health of `target_entity` to zero or
/// below.
#[derive(Copy, Clone, Debug, PartialEq, Eq, Structural)]
pub struct AttackOccuranceDeathEvent {
    pub target_entity: Entity,
}

impl AttackOccuranceDeathEvent {
    pub fn new(target_entity: Entity) -> (e: AttackOccuranceDeathEvent)
        ensures
            e.target_entity == target_entity,
    {
        AttackOccuranceDeathEvent { target_entity }
    }
}

/// What the attack system reads and writes of an engaged attacker.
#[derive(Copy, Clone, Debug, PartialEq, Eq, Structural)]
pub struct Attacker {
    pub attack: Attack,
    pub velocity: Velocity,
}

/// The state that the engagements of one tick work on: the attackers, the
/// health of whatever can be hit, and the death events published so far.
pub struct Battle {
    pub attackers: Seq<Row<Attacker>>,
    pub targets: Seq<Row<Health>>,
    pub deaths: Seq<AttackOccuranceDeathEvent>,
}

/// An attacker after one tick of an engagement: it stands still and its
/// rate timer has advanced.
pub open spec fn halted(attacker: Row<Attacker>, delta: u64) -> Row<Attacker> {
    Row {
        entity: attacker.entity,
        item: Attacker {
            attack: Attack {
                amount: attacker.item.attack.amount,
                rate: attacker.item.attack.rate.ticked(delta),
            },
            velocity: Velocity { value: Vec3 { x: 0, y: 0, z: 0 } },
        },
    }
}

/// The state after one engagement has had its tick.
///
/// An engagement whose attacker cannot be found is passed over. Otherwise
/// the attacker is halted. If its timer has just finished and the target
/// can be found, the target takes the damage of one hit, whatever the
/// length of the tick, and a death event follows if its health is then
/// zero or below.
pub open spec fn strike(state: Battle, occurance: AttackOccurance, delta: u64) -> Battle {
    match find(state.attackers, occurance.attacker) {
        None => state,
        Some(a) => {
            let attacker = halted(state.attackers[a], delta);
            let attackers = state.attackers.update(a, attacker);
            match find(state.targets, occurance.target) {
                Some(t) if attacker.item.attack.rate.spec_just_finished() => {
                    let health = state.targets[t].item.damaged(attacker.item.attack.amount);
                    Battle {
                        attackers,
                        targets: state.targets.update(
                            t,
                            Row { entity: state.targets[t].entity, item: health },
                        ),
                        deaths: if health.spec_is_dead() {
                            state.deaths.push(
                                AttackOccuranceDeathEvent { target_entity: occurance.target },
                            )
                        } else {
                            state.deaths
                        },
                    }
                },
                _ => Battle { attackers, targets: state.targets, deaths: state.deaths },
            }
        },
    }
}

/// The state after each of the engagements has had its tick, in order.
pub open spec fn fought(state: Battle, occurances: Seq<AttackOccurance>, delta: u64) -> Battle
    decreases occurances.len(),
{
    if occurances.len() == 0 {
        state
    } else {
        strike(fought(state, occurances.drop_last(), delta), occurances.last(), delta)
    }
}

/// Gives every engagement its tick.
///
/// `occurances` holds the live engagements, `attackers` the engaged
/// entities that can attack and move, `targets` the health of whatever can
/// be hit, and `delta` the nanoseconds since the last tick. The death
/// events come back in the order in which the hits fell.
pub fn attack_occurance(
    occurances: &Vec<AttackOccurance>,
    attackers: &mut Vec<Row<Attacker>>,
    targets: &mut Vec<Row<Health>>,
    delta: u64,
) -> (deaths: Vec<AttackOccuranceDeathEvent>)
    ensures
        ({
            let start = Battle {
                attackers: old(attackers)@,
                targets: old(targets)@,
                deaths: Seq::empty(),
            };
            let end = fought(start, occurances@, delta);
            &&& final(attackers)@ == end.attackers
            &&& final(targets)@ == end.targets
            &&& deaths@ == end.deaths
        }),
{
    let ghost start = Battle { attackers: attackers@, targets: targets@, deaths: Seq::empty() };
    let mut deaths: Vec<AttackOccuranceDeathEvent> = Vec::new();
    let mut m: usize = 0;
    assert(occurances@.take(0) =~= Seq::<AttackOccurance>::empty());
    while m < occurances.len()
        invariant
            m <= occurances.len(),
            attackers@ == fought(start, occurances@.take(m as int), delta).attackers,
            targets@ == fought(start, occurances@.take(m as int), delta).targets,
            deaths@ == fought(start, occurances@.take(m as int), delta).deaths,
        decreases occurances.len() - m,
    {
        let occurance = occurances[m];
        let ghost before = fought(start, occurances@.take(m as int), delta);
        proof {
            assert(occurances@.take(m + 1).drop_last() =~= occurances@.take(m as int));
        }
        if let Some(a) = lookup(attackers, occurance.attacker) {
            attackers[a].item.velocity.value = Vec3::zero();
            attackers[a].item.attack.rate.tick(delta);
            let attack = attackers[a].item.attack;
            assert(attackers[a as int] == halted(before.attackers[a as int], delta));
            assert(attackers@ =~= before.attackers.update(a as int, attackers[a as int]));
            if attack.rate.just_finished() {
                if let Some(t) = lookup(targets, occurance.target) {
                    targets[t].item.damage(attack.amount);
                    assert(targets@ =~= before.targets.update(t as int, targets[t as int]));
                    if targets[t].item.is_dead() {
                        deaths.push(AttackOccuranceDeathEvent::new(occurance.target));
                    }
                }
            }
        }
        m += 1;
    }
    assert(occurances@.take(occurances.len() as int) =~= occurances@);
    deaths
}

/// The engagements of a tick change no entity, add or drop no row, and
/// leave the damage of every attacker as it is; a velocity is either left
/// alone or set to zero.
pub proof fn lemma_fought_keeps_rows(state: Battle, occurances: Seq<AttackOccurance>, delta: u64)
    ensures
        ({
            let end = fought(state, occurances, delta);
            &&& end.attackers.len() == state.attackers.len()
            &&& end.targets.len() == state.targets.len()
            &&& forall|i: int|
                0 <= i < state.attackers.len() ==> {
                    let before = #[trigger] state.attackers[i];
                    let after = end.attackers[i];
                    &&& after.entity == before.entity
                    &&& after.item.attack.amount == before.item.attack.amount
                    &&& (after.item.velocity == before.item.velocity || after.item.velocity.value
                        == (Vec3 { x: 0, y: 0, z: 0 }))
                }
            &&& forall|i: int|
                0 <= i < state.targets.len() ==> end.targets[i].entity == (
                #[trigger] state.targets[i]).entity
        }),
    decreases occurances.len(),
{
    if occurances.len() > 0 {
        let before = fought(state, occurances.drop_last(), delta);
        lemma_fought_keeps_rows(state, occurances.drop_last(), delta);
        lemma_find(before.attackers, occurances.last().attacker);
        lemma_find(before.targets, occurances.last().target);
    }
}

/// An engaged attacker stands still.
///
/// After the engagements of a tick, every attacker that one of them names,
/// and that can be found, has the velocity zero.
pub proof fn lemma_engaged_stands_still(
    state: Battle,
    occurances: Seq<AttackOccurance>,
    delta: u64,
    k: int,
)
    requires
        0 <= k < occurances.len(),
        find(state.attackers, occurances[k].attacker) is Some,
    ensures
        ({
            let a = find(state.attackers, occurances[k].attacker)->0;
            &&& 0 <= a < fought(state, occurances, delta).attackers.len()
            &&& fought(state, occurances, delta).attackers[a].item.velocity.value == (Vec3 {
                x: 0,
                y: 0,
                z: 0,
            })
        }),
    decreases occurances.len(),
{
    let a = find(state.attackers, occurances[k].attacker)->0;
    let front = occurances.drop_last();
    let before = fought(state, front, delta);
    lemma_find(state.attackers, occurances[k].attacker);
    lemma_fought_keeps_rows(state, front, delta);
    lemma_fought_keeps_rows(state, occurances, delta);
    lemma_find(before.attackers, occurances.last().attacker);
    lemma_find(before.targets, occurances.last().target);
    if k == occurances.len() - 1 {
        lemma_find_same_entities(before.attackers, state.attackers, occurances[k].attacker);
    } else {
        lemma_engaged_stands_still(state, front, delta, k);
    }
}

/// One tick deals at most one hit for an engagement, however long the tick.
///
/// After one engagement has had its tick, the health of every target is
/// what it was, but for the target of the engagement, which may have taken
/// the damage of the attacker once: that is so exactly if the attacker and
/// the target can be found and the attacker's timer has just finished. At
/// most one death event has been added.
pub proof fn lemma_one_hit_per_tick(state: Battle, occurance: AttackOccurance, delta: u64)
    ensures
        ({
            let end = strike(state, occurance, delta);
            let hit = find(state.attackers, occurance.attacker) is Some && find(
                state.targets,
                occurance.target,
            ) is Some && state.attackers[find(
                state.attackers,
                occurance.attacker,
            )->0].item.attack.rate.ticked(delta).spec_just_finished();
            &&& end.targets.len() == state.targets.len()
            &&& state.deaths.len() <= end.deaths.len() <= state.deaths.len() + 1
            &&& forall|t: int|
                0 <= t < state.targets.len() ==> #[trigger] end.targets[t] == if hit && find(
                    state.targets,
                    occurance.target,
                ) == Some(t) {
                    Row {
                        entity: state.targets[t].entity,
                        item: state.targets[t].item.damaged(
                            state.attackers[find(
                                state.attackers,
                                occurance.attacker,
                            )->0].item.attack.amount,
                        ),
                    }
                } else {
                    state.targets[t]
                }
        }),
{
    lemma_find(state.attackers, occurance.attacker);
    lemma_find(state.targets, occurance.target);
}

/// The health after `times` hits of `amount`.
pub open spec fn hit_times(health: Health, amount: i32, times: int) -> Health
    decreases times,
{
    if times <= 0 {
        health
    } else {
        hit_times(health, amount, times - 1).damaged(amount)
    }
}

/// The state after one engagement has had a tick for each of `deltas`.
pub open spec fn campaign(state: Battle, occurance: AttackOccurance, deltas: Seq<u64>) -> Battle
    decreases deltas.len(),
{
    if deltas.len() == 0 {
        state
    } else {
        strike(campaign(state, occurance, deltas.drop_last()), occurance, deltas.last())
    }
}

/// An engagement deals one hit each time its rate timer fires.
///
/// Take an engagement whose attacker and target can be found, and give it a
/// tick for each of `deltas`. Then the target has taken the attacker's
/// damage as many times as the rate timer has fired over those ticks, and
/// the attacker's timer is the timer run over them. With
/// `lemma_repeating_fires_once_per_period` that is one hit for each period
/// of the timer.
pub proof fn lemma_one_hit_per_completion(
    state: Battle,
    occurance: AttackOccurance,
    deltas: Seq<u64>,
)
    requires
        find(state.attackers, occurance.attacker) is Some,
        find(state.targets, occurance.target) is Some,
    ensures
        ({
            let a = find(state.attackers, occurance.attacker)->0;
            let t = find(state.targets, occurance.target)->0;
            let end = campaign(state, occurance, deltas);
            let attack = state.attackers[a].item.attack;
            &&& end.attackers.len() == state.attackers.len()
            &&& end.targets.len() == state.targets.len()
            &&& forall|i: int|
                0 <= i < state.attackers.len() ==> end.attackers[i].entity == (
                #[trigger] state.attackers[i]).entity
            &&& forall|i: int|
                0 <= i < state.targets.len() ==> end.targets[i].entity == (
                #[trigger] state.targets[i]).entity
            &&& end.attackers[a].item.attack.amount == attack.amount
            &&& end.attackers[a].item.attack.rate == attack.rate.run(deltas)
            &&& end.targets[t].item == hit_times(
                state.targets[t].item,
                attack.amount,
                attack.rate.fired(deltas),
            )
            &&& attack.rate.fired(deltas) >= 0
        }),
    decreases deltas.len(),
{
    lemma_find(state.attackers, occurance.attacker);
    lemma_find(state.targets, occurance.target);
    if deltas.len() > 0 {
        let before = campaign(state, occurance, deltas.drop_last());
        lemma_one_hit_per_completion(state, occurance, deltas.drop_last());
        lemma_find_same_entities(before.attackers, state.attackers, occurance.attacker);
        lemma_find_same_entities(before.targets, state.targets, occurance.target);
        lemma_find(before.attackers, occurance.attacker);
        lemma_find(before.targets, occurance.target);
    }
}

/// An engagement deals exactly one hit for each period of its rate timer.
///
/// Take an engagement whose attacker and target can be found, with a
/// repeating rate timer of a duration above zero that is part-way through
/// a period, and give it ticks none of which is longer than that duration.
/// Then the target has taken the attacker's damage once for each whole
/// period in the time that the timer has run.
pub proof fn lemma_one_hit_per_period(
    state: Battle,
    occurance: AttackOccurance,
    deltas: Seq<u64>,
)
    requires
        find(state.attackers, occurance.attacker) is Some,
        find(state.targets, occurance.target) is Some,
        ({
            let rate = state.attackers[find(state.attackers, occurance.attacker)->0].item.attack.rate;
            &&& rate.mode == TimerMode::Repeating
            &&& rate.duration > 0
            &&& rate.elapsed < rate.duration
            &&& forall|i: int| 0 <= i < deltas.len() ==> deltas[i] <= rate.duration
        }),
    ensures
        ({
            let a = find(state.attackers, occurance.attacker)->0;
            let t = find(state.targets, occurance.target)->0;
            let attack = state.attackers[a].item.attack;
            &&& 0 <= t < campaign(state, occurance, deltas).targets.len()
            &&& campaign(state, occurance, deltas).targets[t].item == hit_times(
                state.targets[t].item,
                attack.amount,
                (attack.rate.elapsed + total(deltas)) / (attack.rate.duration as int),
            )
        }),
{
    let a = find(state.attackers, occurance.attacker)->0;
    lemma_find(state.targets, occurance.target);
    lemma_one_hit_per_completion(state, occurance, deltas);
    lemma_repeating_fires_once_per_period(state.attackers[a].item.attack.rate, deltas);
}

/// Picks the attacker of each engagement with `target`.
pub open spec fn attacker_of(target: Entity) -> spec_fn(AttackOccurance) -> Option<Entity> {
    |occurance: AttackOccurance|
        if occurance.target == target {
            Some(occurance.attacker)
        } else {
            None
        }
}

/// The attackers that go back to idle: for each death event in order, the
/// attackers of the engagements with the dead target, in the order of the
/// engagements.
pub open spec fn released(
    events: Seq<AttackOccuranceDeathEvent>,
    occurances: Seq<AttackOccurance>,
) -> Seq<Entity>
    decreases events.len(),
{
    if events.len() == 0 {
        Seq::empty()
    } else {
        released(events.drop_last(), occurances) + occurances.filter_map(
            attacker_of(events.last().target_entity),
        )
    }
}

/// Ends the engagements with targets that have died.
///
/// Returns the attackers whose engagement is over, for the engine to take
/// the `AttackOccurance` from. It runs after the damage of the tick has been
/// dealt, on the death events of that step, so that several attackers of one
/// target are all released together.
pub fn remove_attack_occurances(
    events: &Vec<AttackOccuranceDeathEvent>,
    occurances: &Vec<AttackOccurance>,
) -> (idle: Vec<Entity>)
    ensures
        idle@ == released(events@, occurances@),
{
    let mut idle: Vec<Entity> = Vec::new();
    let mut m: usize = 0;
    assert(events@.take(0) =~= Seq::<AttackOccuranceDeathEvent>::empty());
    while m < events.len()
        invariant
            m <= events.len(),
            idle@ == released(events@.take(m as int), occurances@),
        decreases events.len() - m,
    {
        let ghost done = idle@;
        let target = events[m].target_entity;
        let mut k: usize = 0;
        assert(occurances@.take(0) =~= Seq::<AttackOccurance>::empty());
        while k < occurances.len()
            invariant
                k <= occurances.len(),
                idle@ == done + occurances@.take(k as int).filter_map(attacker_of(target)),
            decreases occurances.len() - k,
        {
            proof {
                occurances@.lemma_filter_map_take_succ(attacker_of(target), k as int);
            }
            if occurances[k].target == target {
                idle.push(occurances[k].attacker);
            }
            assert(idle@ =~= done + occurances@.take(k + 1).filter_map(attacker_of(target)));
            k += 1;
        }
        proof {
            assert(occurances@.take(occurances.len() as int) =~= occurances@);
            assert(events@.take(m + 1).drop_last() =~= events@.take(m as int));
        }
        m += 1;
    }
    assert(events@.take(events.len() as int) =~= events@);
    idle
}

} // verus!
