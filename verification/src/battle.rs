//! The battle between two teams: loading them, striking, and the result.
use vstd::prelude::*;
use crate::world::{
    World, Field, Unit, Entity, Faction, Context, EvalError, VarName, VarValue, in_battle, is_dead_spec,
    unit_index, first_index, at_slot, lemma_first_index, find_unit, find_unit_at_slot, no_vars,
    vars_set, vars_get, lemma_vars_set_get, copy_statuses,
};
use crate::action::{ActionPlugin, ActionsResource, Action, current_turn_number, next_turn_number, same_rules, valid_drain, cleared, dead};
use crate::effect::Effect;
use crate::event::{Event, sent};
use crate::expression::{of_faction, collect_faction};
use crate::bindings::{User, first_row};

verus! {

/// The outcome of a battle.
#[derive(Clone, Copy, Debug, PartialEq, Eq, Structural)]
pub enum BattleResult {
    /// Not decided yet.
    Tbd,
    /// The left team won with this many units standing.
    Left(usize),
    /// The right team won with this many units standing.
    Right(usize),
    /// No unit is left standing.
    Even,
}

/// Whether the result counts as a win for the left (the player's) team:
/// undecided gives nothing, a left win or a draw is a win, a right win a loss.
pub open spec fn win_of(r: BattleResult) -> Option<bool> {
    match r {
        BattleResult::Tbd => None,
        BattleResult::Left(_) | BattleResult::Even => Some(true),
        BattleResult::Right(_) => Some(false),
    }
}

impl BattleResult {
    pub fn is_win(&self) -> (r: Option<bool>)
        ensures
            r == win_of(*self),
    {
        match self {
            BattleResult::Tbd => None,
            BattleResult::Left(_) | BattleResult::Even => Some(true),
            BattleResult::Right(_) => Some(false),
        }
    }
}

/// Why a battle could not be brought to an end.
#[derive(Clone, Copy, Debug, PartialEq, Eq, Structural)]
pub enum BattleError {
    /// The queues or the strikes did not run dry within their limits.
    LimitExceeded,
    /// Units of both sides are left standing, but no pair of strikers.
    NoSingleWinner,
}

/// A unit as a team stores it, before it is put on the field.
#[derive(Debug)]
pub struct PackedUnit {
    pub hp: i32,
    pub pwr: i32,
    pub statuses: Vec<(String, i32)>,
}

/// A team: its units, front first.
#[derive(Debug)]
pub struct PackedTeam {
    pub units: Vec<PackedUnit>,
}

/// A player's id and name, shown beside the team.
#[derive(Debug)]
pub struct PlayerData {
    pub id: u64,
    pub name: String,
}

impl PlayerData {
    /// The player with the given id, named as the users' table names them.
    pub fn from_id(users: &Vec<User>, id: u64) -> (r: Option<PlayerData>)
        ensures
            match first_row(users@, |row: User| row.id == id) {
                Some(u) => r == Some(PlayerData { id, name: u.name }),
                None => r is None,
            },
    {
        match User::filter_by_id(users, id) {
            Some(u) => Some(PlayerData { id, name: u.name.clone() }),
            None => None,
        }
    }
}

/// Teams and outcome of the current battle.
#[derive(Debug)]
pub struct BattleData {
    pub left: Option<PackedTeam>,
    pub right: Option<PackedTeam>,
    pub left_player_data: Option<PlayerData>,
    pub right_player_data: Option<PlayerData>,
    pub result: BattleResult,
    pub run_id: Option<u64>,
}

/// The unit that a packed unit becomes on the field.
pub open spec fn unpacked_unit(p: PackedUnit, faction: Faction, slot: int, entity: int) -> Unit {
    Unit { entity: entity as u64, faction, slot: slot as i32, hp: p.hp, pwr: p.pwr, dmg: 0, statuses: p.statuses }
}

impl PackedUnit {
    pub fn copy(&self) -> (r: PackedUnit)
        ensures
            r.hp == self.hp,
            r.pwr == self.pwr,
            r.statuses@ == self.statuses@,
    {
        PackedUnit { hp: self.hp, pwr: self.pwr, statuses: copy_statuses(&self.statuses) }
    }
}

impl PackedTeam {
    pub fn copy(&self) -> (r: PackedTeam)
        ensures
            r.units@.len() == self.units@.len(),
            forall|i: int| 0 <= i < self.units@.len() ==> {
                &&& (#[trigger] r.units@[i]).hp == self.units@[i].hp
                &&& r.units@[i].pwr == self.units@[i].pwr
                &&& r.units@[i].statuses@ == self.units@[i].statuses@
            },
    {
        let mut units: Vec<PackedUnit> = Vec::new();
        let mut i: usize = 0;
        while i < self.units.len()
            invariant
                0 <= i <= self.units.len(),
                units@.len() == i,
                forall|k: int| 0 <= k < i ==> {
                    &&& (#[trigger] units@[k]).hp == self.units@[k].hp
                    &&& units@[k].pwr == self.units@[k].pwr
                    &&& units@[k].statuses@ == self.units@[k].statuses@
                },
            decreases self.units.len() - i,
        {
            units.push(self.units[i].copy());
            i = i + 1;
        }
        PackedTeam { units }
    }

    /// Puts the team's units on the field for `faction`, front first, in
    /// slots counted from 1, each as a new entity.
    pub fn unpack(self, faction: Faction, world: &mut World)
        requires
            old(world).field.next_entity + self.units@.len() <= u64::MAX,
            self.units@.len() < i32::MAX,
        ensures
            final(world).field.units@.len() == old(world).field.units@.len() + self.units@.len(),
            forall|k: int| 0 <= k < old(world).field.units@.len() ==> final(world).field.units@[k] == old(world).field.units@[k],
            forall|i: int| 0 <= i < self.units@.len() ==> final(world).field.units@[old(world).field.units@.len() + i]
                == unpacked_unit(self.units@[i], faction, i + 1, old(world).field.next_entity + i),
            forall|i: int| old(world).field.units@.len() <= i < final(world).field.units@.len() ==> (#[trigger] final(world).field.units@[i]).faction == faction,
            final(world).field.next_entity == old(world).field.next_entity + self.units@.len(),
            final(world).field.world_entity == old(world).field.world_entity,
            final(world).field.corpses == old(world).field.corpses,
            final(world).field.ability_vars == old(world).field.ability_vars,
            final(world).field.abilities == old(world).field.abilities,
            final(world).field.statuses == old(world).field.statuses,
            final(world).actions == old(world).actions,
            final(world).events == old(world).events,
            final(world).resource == old(world).resource,
            final(world).battle == old(world).battle,
            final(world).fatigue_start == old(world).fatigue_start,
    {
        let ghost team = self.units@;
        let ghost n0 = world.field.units@.len();
        let ghost e0 = world.field.next_entity;
        let mut rest = self.units;
        let n = rest.len();
        let mut i: usize = 0;
        while i < n
            invariant
                0 <= i <= n,
                n == team.len(),
                n < i32::MAX,
                e0 + n <= u64::MAX,
                rest@ == team.subrange(i as int, n as int),
                world.field.next_entity == e0 + i,
                world.field.units@.len() == n0 + i,
                forall|k: int| 0 <= k < n0 ==> world.field.units@[k] == old(world).field.units@[k],
                forall|j: int| 0 <= j < i ==> world.field.units@[n0 + j] == unpacked_unit(team[j], faction, j + 1, e0 + j),
                forall|j: int| n0 <= j < n0 + i ==> (#[trigger] world.field.units@[j]).faction == faction,
                world.field.world_entity == old(world).field.world_entity,
                world.field.corpses == old(world).field.corpses,
                world.field.ability_vars == old(world).field.ability_vars,
                world.field.abilities == old(world).field.abilities,
                world.field.statuses == old(world).field.statuses,
                world.actions == old(world).actions,
                world.events == old(world).events,
                world.resource == old(world).resource,
                world.battle == old(world).battle,
                world.fatigue_start == old(world).fatigue_start,
            decreases n - i,
        {
            let p = rest.remove(0);
            assert(p == team[i as int]);
            let entity = world.field.next_entity;
            let slot: i32 = i as i32 + 1;
            world.field.units.push(Unit { entity, faction, slot, hp: p.hp, pwr: p.pwr, dmg: 0, statuses: p.statuses });
            world.field.next_entity = entity + 1;
            assert(rest@ =~= team.subrange(i as int + 1, n as int));
            i = i + 1;
        }
    }
}

/// How many units of the faction stand on the field.
pub open spec fn count_faction(units: Seq<Unit>, f: Faction) -> nat
    decreases units.len(),
{
    if units.len() == 0 {
        0
    } else {
        count_faction(units.drop_last(), f) + if units.last().faction == f { 1nat } else { 0nat }
    }
}

pub proof fn lemma_count_faction_le(units: Seq<Unit>, f: Faction)
    ensures
        count_faction(units, f) <= units.len(),
    decreases units.len(),
{
    if units.len() > 0 {
        lemma_count_faction_le(units.drop_last(), f);
    }
}

/// The outcome that the units left standing give: nobody is a draw, one
/// side alone wins with its number of units, both sides are no outcome.
pub open spec fn battle_outcome(units: Seq<Unit>) -> Result<BattleResult, BattleError> {
    let l = count_faction(units, Faction::Left);
    let r = count_faction(units, Faction::Right);
    if l == 0 && r == 0 {
        Ok(BattleResult::Even)
    } else if r == 0 {
        Ok(BattleResult::Left(l as usize))
    } else if l == 0 {
        Ok(BattleResult::Right(r as usize))
    } else {
        Err(BattleError::NoSingleWinner)
    }
}

/// The front units of both sides, the left one first, when both stand.
pub open spec fn strikers(units: Seq<Unit>) -> Option<(Entity, Entity)> {
    let l = first_index(units, at_slot(Faction::Left, 1));
    let r = first_index(units, at_slot(Faction::Right, 1));
    if l >= 0 && r >= 0 {
        Some((units[l].entity, units[r].entity))
    } else {
        None
    }
}

/// A unit is out of the fight when it no longer stands on the field or its
/// damage reached its health.
pub open spec fn out_of_fight(units: Seq<Unit>, e: Entity) -> bool {
    let i = unit_index(units, e);
    i < 0 || is_dead_spec(units[i])
}

/// The context of a blow that `caster` strikes at `target`.
pub open spec fn blow_context(caster: Entity, target: Entity) -> Context {
    Context { owner: caster, target: Some(target), parent: None, caster: Some(caster), vars: no_vars() }
}

/// The context in which fatigue hurts a unit for `amount`.
pub open spec fn fatigue_context(unit: Entity, amount: i32) -> Context {
    Context { owner: unit, target: Some(unit), parent: None, caster: None, vars: vars_set(no_vars(), VarName::Damage, VarValue::Int(amount)) }
}

/// The fatigue damage of the given turn: how far it lies past the start of
/// fatigue.
pub open spec fn fatigue_amount(turn: int, start: i32) -> i32 {
    (turn as i32).wrapping_sub(start)
}

/// The blows that fatigue deals: one to each unit listed, at itself.
pub open spec fn fatigue_actions(units: Seq<Entity>, amount: i32) -> Seq<Action> {
    Seq::new(units.len(), |i: int| Action { effect: Effect::Damage, context: fatigue_context(units[i], amount) })
}

/// The record `new` keeps the record `old` and may add to it.
pub open spec fn extends(new: Seq<Event>, old: Seq<Event>) -> bool {
    new.len() >= old.len() && new.subrange(0, old.len() as int) == old
}

/// What opening a turn between `left` and `right` records.
pub open spec fn opening(left: Entity, right: Entity) -> Seq<Event> {
    seq![Event::TurnStart, Event::BeforeStrike(left, right), Event::BeforeStrike(right, left)]
}

/// What closing a strike between `left` and `right` records.
pub open spec fn closing(left: Entity, right: Entity) -> Seq<Event> {
    seq![Event::AfterStrike(left, right), Event::AfterStrike(right, left)]
}

pub proof fn lemma_extends_trans(a: Seq<Event>, b: Seq<Event>, c: Seq<Event>)
    requires
        extends(a, b),
        extends(b, c),
    ensures
        extends(a, c),
{
    assert(a.subrange(0, c.len() as int) =~= b.subrange(0, c.len() as int));
}

/// The turns recorded are numbered 1, 2, 3 and so on.
pub open spec fn turns_numbered(turns: Seq<usize>) -> bool {
    forall|k: int| 0 <= k < turns.len() ==> #[trigger] turns[k] == k + 1
}

/// The world `b` is reached from `a` by draining the queues without error.
pub open spec fn drained(a: World, b: World) -> bool {
    exists|trace: Seq<World>, ran: Seq<bool>, p: bool| #[trigger] valid_drain(a, trace, ran, Ok::<bool, EvalError>(p), b)
}

/// A drain that ended with `Ok` is a drain without error.
pub proof fn lemma_drained(a: World, b: World, r: Result<bool, EvalError>)
    requires
        exists|trace: Seq<World>, ran: Seq<bool>| #[trigger] valid_drain(a, trace, ran, r, b),
        r is Ok,
    ensures
        drained(a, b),
{
    let (trace, ran) = choose|trace: Seq<World>, ran: Seq<bool>| #[trigger] valid_drain(a, trace, ran, r, b);
    assert(valid_drain(a, trace, ran, Ok::<bool, EvalError>(r->Ok_0), b));
}

/// The event is sent from `a`, giving `mid`, and the queues are drained to `b`.
pub open spec fn sent_drained_via(a: World, e: Event, mid: World, b: World) -> bool {
    sent(e, a, mid) && drained(mid, b)
}

/// The world `b` is `a` after the event is sent and the queues drained.
pub open spec fn sent_and_drained(a: World, e: Event, b: World) -> bool {
    exists|mid: World| #[trigger] sent_drained_via(a, e, mid, b)
}

/// A drain from `a` gave up, leaving `b`: it took its whole budget of steps
/// without running the queues dry.
#[verifier::opaque]
pub open spec fn drain_failed(a: World, b: World) -> bool {
    exists|trace: Seq<World>, ran: Seq<bool>| #[trigger] valid_drain(a, trace, ran, Err::<bool, EvalError>(EvalError::LimitExceeded), b)
}

/// A drain that ended with an error is a drain that gave up.
pub proof fn lemma_drain_failed(a: World, b: World, r: Result<bool, EvalError>)
    requires
        exists|trace: Seq<World>, ran: Seq<bool>| #[trigger] valid_drain(a, trace, ran, r, b),
        r == Err::<bool, EvalError>(EvalError::LimitExceeded),
    ensures
        drain_failed(a, b),
{
    reveal(drain_failed);
}

/// The event is sent from `a`, giving `mid`, and the drain that follows
/// gives up, leaving `b`.
pub open spec fn sent_failed_via(a: World, e: Event, mid: World, b: World) -> bool {
    sent(e, a, mid) && drain_failed(mid, b)
}

/// The event is sent from `a` and the drain that follows gives up, leaving `b`.
pub open spec fn sent_failed(a: World, e: Event, b: World) -> bool {
    exists|mid: World| #[trigger] sent_failed_via(a, e, mid, b)
}

/// Either striker is out of the fight in the world.
pub open spec fn strikers_out(w: World, left: Entity, right: Entity) -> bool {
    out_of_fight(w.field.units@, left) || out_of_fight(w.field.units@, right)
}

/// Opening a turn through the worlds `w1`, `w2`, `w3`: the turn's start and
/// both strikes are announced, each followed by a drain; if both strikers
/// still stand, the queues are drained once more.
pub open spec fn opened_via(a: World, left: Entity, right: Entity, w1: World, w2: World, w3: World, b: World) -> bool {
    &&& sent_and_drained(a, Event::TurnStart, w1)
    &&& sent_and_drained(w1, Event::BeforeStrike(left, right), w2)
    &&& sent_and_drained(w2, Event::BeforeStrike(right, left), w3)
    &&& if strikers_out(w3, left, right) { b == w3 } else { drained(w3, b) }
}

/// The world `b` is `a` after the turn between the strikers is opened.
pub open spec fn opened(a: World, left: Entity, right: Entity, b: World) -> bool {
    exists|w1: World, w2: World, w3: World| #[trigger] opened_via(a, left, right, w1, w2, w3, b)
}

/// Opening a turn gives up at its stage `k`, through the worlds `w1` to `w3`
/// that the stages before it reached: at stage 0 the drain after the turn's
/// start, at 1 and 2 those after the announced strikes, at 3 the last drain.
pub open spec fn opening_failed_via(a: World, left: Entity, right: Entity, w1: World, w2: World, w3: World, k: int, b: World) -> bool {
    if k == 0 {
        sent_failed(a, Event::TurnStart, b)
    } else if k == 1 {
        &&& sent_and_drained(a, Event::TurnStart, w1)
        &&& sent_failed(w1, Event::BeforeStrike(left, right), b)
    } else if k == 2 {
        &&& sent_and_drained(a, Event::TurnStart, w1)
        &&& sent_and_drained(w1, Event::BeforeStrike(left, right), w2)
        &&& sent_failed(w2, Event::BeforeStrike(right, left), b)
    } else {
        &&& k == 3
        &&& sent_and_drained(a, Event::TurnStart, w1)
        &&& sent_and_drained(w1, Event::BeforeStrike(left, right), w2)
        &&& sent_and_drained(w2, Event::BeforeStrike(right, left), w3)
        &&& !strikers_out(w3, left, right)
        &&& drain_failed(w3, b)
    }
}

/// Opening the turn between the strikers from `a` gives up in one of its
/// drains, leaving `b`.
pub open spec fn opening_failed(a: World, left: Entity, right: Entity, b: World) -> bool {
    exists|w1: World, w2: World, w3: World, k: int| #[trigger] opening_failed_via(a, left, right, w1, w2, w3, k, b)
}

/// The two blows of a strike, the left striker's first.
pub open spec fn blows(left: Entity, right: Entity) -> Seq<Action> {
    seq![
        Action { effect: Effect::Damage, context: blow_context(left, right) },
        Action { effect: Effect::Damage, context: blow_context(right, left) },
    ]
}

/// The blows are queued after the actions of `a`, giving `q`, and the queues
/// are drained to `b`.
pub open spec fn struck_via(a: World, left: Entity, right: Entity, q: World, b: World) -> bool {
    &&& q.actions@ == a.actions@ + blows(left, right)
    &&& q == (World { actions: q.actions, ..a })
    &&& drained(q, b)
}

/// The world `b` is `a` after the strikers strike each other.
pub open spec fn struck(a: World, left: Entity, right: Entity, b: World) -> bool {
    exists|q: World| #[trigger] struck_via(a, left, right, q, b)
}

/// The blows are queued after the actions of `a`, giving `q`, and the drain
/// that follows gives up, leaving `b`.
pub open spec fn strike_failed_via(a: World, left: Entity, right: Entity, q: World, b: World) -> bool {
    &&& q.actions@ == a.actions@ + blows(left, right)
    &&& q == (World { actions: q.actions, ..a })
    &&& drain_failed(q, b)
}

/// The strike between the strikers from `a` gives up in its drain, leaving `b`.
pub open spec fn strike_failed(a: World, left: Entity, right: Entity, b: World) -> bool {
    exists|q: World| #[trigger] strike_failed_via(a, left, right, q, b)
}

/// Closing a strike through `w1`: each striker's strike is announced to it,
/// each followed by a drain.
pub open spec fn closed_via(a: World, left: Entity, right: Entity, w1: World, b: World) -> bool {
    &&& sent_and_drained(a, Event::AfterStrike(left, right), w1)
    &&& sent_and_drained(w1, Event::AfterStrike(right, left), b)
}

/// The world `b` is `a` after the strike is closed.
pub open spec fn closed(a: World, left: Entity, right: Entity, b: World) -> bool {
    exists|w1: World| #[trigger] closed_via(a, left, right, w1, b)
}

/// Closing a strike gives up: at stage 0 in the drain after the first
/// announcement, at stage 1, through `w1`, in the drain after the second.
pub open spec fn closing_failed_via(a: World, left: Entity, right: Entity, w1: World, k: int, b: World) -> bool {
    if k == 0 {
        sent_failed(a, Event::AfterStrike(left, right), b)
    } else {
        &&& k == 1
        &&& sent_and_drained(a, Event::AfterStrike(left, right), w1)
        &&& sent_failed(w1, Event::AfterStrike(right, left), b)
    }
}

/// Closing the strike from `a` gives up in one of its drains, leaving `b`.
pub open spec fn closing_failed(a: World, left: Entity, right: Entity, b: World) -> bool {
    exists|w1: World, k: int| #[trigger] closing_failed_via(a, left, right, w1, k, b)
}

/// The world `b` is `a` with the fatigue blows of its current turn queued.
pub open spec fn fatigued(a: World, b: World) -> bool {
    let amount = fatigue_amount(current_turn_number(a.resource.turns@), a.fatigue_start);
    let hurt = of_faction(a.field.units@, Faction::Left) + of_faction(a.field.units@, Faction::Right);
    &&& b.actions@ == a.actions@ + if amount > 0 { fatigue_actions(hurt, amount) } else { Seq::empty() }
    &&& b == (World { actions: b.actions, ..a })
}

/// The next turn is recorded and the chain count restarts.
pub open spec fn turn_started(a: World, b: World) -> bool {
    &&& b.resource.turns@ == a.resource.turns@.push(next_turn_number(a.resource.turns@) as usize)
    &&& b == (World { resource: ActionsResource { turns: b.resource.turns, chain: 0, ..a.resource }, ..a })
}

/// A whole turn between the strikers through the worlds `w0` to `w6`: the
/// queues are drained, the next turn starts and is opened; unless a striker
/// fell, the strikers strike, the strike is closed, fatigue queues its
/// blows, the turn's end is announced and the queues are drained twice.
pub open spec fn turn_via(a: World, left: Entity, right: Entity, w0: World, w1: World, w2: World, w3: World, w4: World, w5: World, w6: World, b: World) -> bool {
    &&& drained(a, w0)
    &&& turn_started(w0, w1)
    &&& opened(w1, left, right, w2)
    &&& if strikers_out(w2, left, right) {
        b == w2
    } else {
        &&& struck(w2, left, right, w3)
        &&& closed(w3, left, right, w4)
        &&& fatigued(w4, w5)
        &&& sent_and_drained(w5, Event::TurnEnd, w6)
        &&& drained(w6, b)
    }
}

/// The world `b` is `a` after a whole turn between the strikers.
pub open spec fn turn_played(a: World, left: Entity, right: Entity, b: World) -> bool {
    exists|w0: World, w1: World, w2: World, w3: World, w4: World, w5: World, w6: World|
        #[trigger] turn_via(a, left, right, w0, w1, w2, w3, w4, w5, w6, b)
}

/// A turn between the strikers gives up at its stage `k`, through the worlds
/// `w0` to `w6` that the stages before it reached, as `turn_via` lays them
/// out: at stage 0 the first drain, at 1 the opening, at 2 the strike, at 3
/// the closing, at 4 the drain after the turn's end, at 5 the last drain.
pub open spec fn turn_failed_via(a: World, left: Entity, right: Entity, w0: World, w1: World, w2: World, w3: World, w4: World, w5: World, w6: World, k: int, b: World) -> bool {
    if k == 0 {
        drain_failed(a, b)
    } else {
        &&& drained(a, w0)
        &&& turn_started(w0, w1)
        &&& if k == 1 {
            opening_failed(w1, left, right, b)
        } else {
            &&& opened(w1, left, right, w2)
            &&& !strikers_out(w2, left, right)
            &&& if k == 2 {
                strike_failed(w2, left, right, b)
            } else {
                &&& struck(w2, left, right, w3)
                &&& if k == 3 {
                    closing_failed(w3, left, right, b)
                } else {
                    &&& closed(w3, left, right, w4)
                    &&& fatigued(w4, w5)
                    &&& if k == 4 {
                        sent_failed(w5, Event::TurnEnd, b)
                    } else {
                        &&& k == 5
                        &&& sent_and_drained(w5, Event::TurnEnd, w6)
                        &&& drain_failed(w6, b)
                    }
                }
            }
        }
    }
}

/// A turn between the strikers from `a` gives up in one of its drains,
/// leaving `b`.
#[verifier::opaque]
pub open spec fn turn_failed(a: World, left: Entity, right: Entity, b: World) -> bool {
    exists|w0: World, w1: World, w2: World, w3: World, w4: World, w5: World, w6: World, k: int|
        #[trigger] turn_failed_via(a, left, right, w0, w1, w2, w3, w4, w5, w6, k, b)
}

/// The record of the battle starts anew: no event, no turn, no chain.
pub open spec fn record_reset(a: World, b: World) -> bool {
    &&& b.resource.events@.len() == 0
    &&& b.resource.turns@.len() == 0
    &&& b.resource.chain == 0
    &&& b == (World { resource: b.resource, ..a })
}

/// The world `b` is `a` with the team's units put on the field for
/// `faction`, front first, in slots counted from 1, each as a new entity.
pub open spec fn unpacked_from(a: World, team: Seq<PackedUnit>, faction: Faction, b: World) -> bool {
    let n = a.field.units@.len();
    &&& b.field.units@.len() == n + team.len()
    &&& forall|k: int| 0 <= k < n ==> #[trigger] b.field.units@[k] == a.field.units@[k]
    &&& forall|i: int| 0 <= i < team.len() ==> {
        let u = #[trigger] b.field.units@[n + i];
        &&& u.entity == a.field.next_entity + i
        &&& u.faction == faction
        &&& u.slot == i + 1
        &&& u.hp == team[i].hp
        &&& u.pwr == team[i].pwr
        &&& u.dmg == 0
        &&& u.statuses@ == team[i].statuses@
    }
    &&& b.field.next_entity == a.field.next_entity + team.len()
    &&& b == (World { field: Field { units: b.field.units, next_entity: b.field.next_entity, ..a.field }, ..a })
}

/// Setting up a battle through the worlds `w1` to `w4`: its record starts
/// anew, the left team and then the right team are put on the field, the
/// queues are drained, and the battle's start is announced and drained.
pub open spec fn setup_via(a: World, w1: World, w2: World, w3: World, w4: World, b: World) -> bool {
    &&& record_reset(a, w1)
    &&& unpacked_from(w1, a.battle.left.unwrap().units@, Faction::Left, w2)
    &&& unpacked_from(w2, a.battle.right.unwrap().units@, Faction::Right, w3)
    &&& drained(w3, w4)
    &&& sent_and_drained(w4, Event::BattleStart, b)
}

/// The world `b` is `a` once the battle is set up.
pub open spec fn set_up(a: World, b: World) -> bool {
    exists|w1: World, w2: World, w3: World, w4: World| #[trigger] setup_via(a, w1, w2, w3, w4, b)
}

/// The queues are drained with the result `p`, giving `mid`, and the dead
/// are then cleared from `mid`, giving `b`.
pub open spec fn quiet_via(a: World, p: bool, mid: World, b: World) -> bool {
    &&& exists|trace: Seq<World>, ran: Seq<bool>| #[trigger] valid_drain(a, trace, ran, Ok::<bool, EvalError>(p), mid)
    &&& cleared(mid, b)
}

/// One step of a battle: with both front units standing, a whole turn
/// between them; otherwise a drain in which some action ran, or a drain in
/// which none ran followed by clearing dead units.
#[verifier::opaque]
pub open spec fn battle_step(a: World, b: World) -> bool {
    match strikers(a.field.units@) {
        Some(s) => turn_played(a, s.0, s.1, b),
        None => {
            ||| exists|trace: Seq<World>, ran: Seq<bool>| #[trigger] valid_drain(a, trace, ran, Ok::<bool, EvalError>(true), b)
            ||| exists|mid: World| #[trigger] quiet_via(a, false, mid, b) && dead(mid.field.units@).len() > 0
        },
    }
}

/// The last step of a battle: no front units face each other, a drain runs
/// no action and no unit is dead.
#[verifier::opaque]
pub open spec fn battle_end(a: World, b: World) -> bool {
    &&& strikers(a.field.units@) is None
    &&& exists|mid: World| #[trigger] quiet_via(a, false, mid, b) && dead(mid.field.units@).len() == 0
}

/// A whole battle from `a` to `b` through the worlds of `trace`: the set-up,
/// its steps, and its end.
pub open spec fn battle_run(a: World, trace: Seq<World>, b: World) -> bool {
    &&& trace.len() >= 1
    &&& set_up(a, trace[0])
    &&& forall|i: int| 0 <= i < trace.len() - 1 ==> battle_step(#[trigger] trace[i], trace[i + 1])
    &&& battle_end(trace.last(), b)
}

/// Setting up a battle gives up, as `setup_via` lays it out: at stage 0 in
/// the drain after the teams were put on the field, at stage 1, through
/// `w4`, in the drain after the battle's start.
pub open spec fn setup_failed_via(a: World, w1: World, w2: World, w3: World, w4: World, k: int, b: World) -> bool {
    &&& record_reset(a, w1)
    &&& unpacked_from(w1, a.battle.left.unwrap().units@, Faction::Left, w2)
    &&& unpacked_from(w2, a.battle.right.unwrap().units@, Faction::Right, w3)
    &&& if k == 0 {
        drain_failed(w3, b)
    } else {
        &&& k == 1
        &&& drained(w3, w4)
        &&& sent_failed(w4, Event::BattleStart, b)
    }
}

/// The battle's step from `a` gives up, leaving `b`: the turn between the
/// front units, or, with no such pair, the drain.
#[verifier::opaque]
pub open spec fn step_failed(a: World, b: World) -> bool {
    match strikers(a.field.units@) {
        Some(s) => turn_failed(a, s.0, s.1, b),
        None => drain_failed(a, b),
    }
}

/// A battle from `a` set up to `trace[0]` and stepped through the worlds of
/// `trace` is given up, leaving `b`: it took `BATTLE_STEP_LIMIT` steps, or
/// its next step gave up.
pub open spec fn battle_cut(a: World, trace: Seq<World>, b: World) -> bool {
    &&& trace.len() >= 1
    &&& set_up(a, trace[0])
    &&& forall|i: int| 0 <= i < trace.len() - 1 ==> battle_step(#[trigger] trace[i], trace[i + 1])
    &&& (trace.len() == BATTLE_STEP_LIMIT + 1 && b == trace.last()) || step_failed(trace.last(), b)
}

/// The battle from `a` is given up, leaving `b`: its set-up gave up in a
/// drain, or its steps were cut off.
#[verifier::opaque]
pub open spec fn battle_failed(a: World, b: World) -> bool {
    ||| exists|w1: World, w2: World, w3: World, w4: World, k: int| #[trigger] setup_failed_via(a, w1, w2, w3, w4, k, b)
    ||| exists|trace: Seq<World>| #[trigger] battle_cut(a, trace, b)
}

/// The world with other battle data.
pub open spec fn with_battle(w: World, b: BattleData) -> World {
    World { battle: b, ..w }
}

/// A battle whose steps ran out, or whose next step gave up, is given up.
pub proof fn lemma_battle_cut(a: World, trace: Seq<World>, b: World)
    requires
        trace.len() >= 1,
        set_up(a, trace[0]),
        forall|i: int| 0 <= i < trace.len() - 1 ==> battle_step(#[trigger] trace[i], trace[i + 1]),
        (trace.len() == BATTLE_STEP_LIMIT + 1 && b == trace.last()) || step_failed(trace.last(), b),
    ensures
        battle_failed(a, b),
{
    reveal(battle_failed);
    assert(battle_cut(a, trace, b));
}

/// A battle whose set-up gave up is given up.
pub proof fn lemma_setup_failed(a: World, w1: World, w2: World, w3: World, w4: World, k: int, b: World)
    requires
        setup_failed_via(a, w1, w2, w3, w4, k, b),
    ensures
        battle_failed(a, b),
{
    reveal(battle_failed);
}

/// Adding a step to a battle keeps its steps in order.
pub proof fn lemma_battle_trace_push(trace: Seq<World>, w: World)
    requires
        trace.len() >= 1,
        forall|i: int| 0 <= i < trace.len() - 1 ==> battle_step(#[trigger] trace[i], trace[i + 1]),
        battle_step(trace.last(), w),
    ensures
        forall|i: int| 0 <= i < trace.push(w).len() - 1 ==> battle_step(#[trigger] trace.push(w)[i], trace.push(w)[i + 1]),
        trace.push(w)[0] == trace[0],
        trace.push(w).last() == w,
{
    let t = trace.push(w);
    assert forall|i: int| 0 <= i < t.len() - 1 implies battle_step(#[trigger] t[i], t[i + 1]) by {
        if i < trace.len() - 1 {
            assert(t[i] == trace[i]);
            assert(t[i + 1] == trace[i + 1]);
        } else {
            assert(t[i] == trace.last());
        }
    }
}

/// The number of steps a battle may take before it is given up.
pub const BATTLE_STEP_LIMIT: u32 = 10000;

/// The world keeps its rules, its next entity, its battle data and the start
/// of fatigue.
pub open spec fn same_setup(a: World, b: World) -> bool {
    &&& a.field.world_entity == b.field.world_entity
    &&& a.field.next_entity == b.field.next_entity
    &&& a.field.ability_vars == b.field.ability_vars
    &&& a.field.abilities == b.field.abilities
    &&& a.field.statuses == b.field.statuses
    &&& a.battle == b.battle
    &&& a.fatigue_start == b.fatigue_start
}

/// Runs a battle between the teams loaded into the world.
pub struct BattlePlugin;

impl BattlePlugin {
    /// Stores the teams of the next battle and who plays them; the result is
    /// undecided. The player data are those of the run's two players, as the
    /// caller looked them up in the run's tables; a battle without a run has
    /// no players, whatever was handed in.
    pub fn load_teams(
        left: PackedTeam,
        right: PackedTeam,
        run_id: Option<u64>,
        left_player_data: Option<PlayerData>,
        right_player_data: Option<PlayerData>,
        world: &mut World,
    )
        ensures
            final(world).battle == (BattleData {
                left: Some(left),
                right: Some(right),
                left_player_data: if run_id is Some { left_player_data } else { None },
                right_player_data: if run_id is Some { right_player_data } else { None },
                result: BattleResult::Tbd,
                run_id,
            }),
            final(world).field == old(world).field,
            final(world).actions == old(world).actions,
            final(world).events == old(world).events,
            final(world).resource == old(world).resource,
            final(world).fatigue_start == old(world).fatigue_start,
    {
        let (left_player_data, right_player_data) = match run_id {
            Some(_) => (left_player_data, right_player_data),
            None => (None, None),
        };
        world.battle = BattleData { left: Some(left), right: Some(right), left_player_data, right_player_data, result: BattleResult::Tbd, run_id };
    }

    /// Takes every unit and corpse off the field.
    pub fn on_leave(world: &mut World)
        ensures
            final(world).field.units@.len() == 0,
            final(world).field.corpses@.len() == 0,
            final(world).field.world_entity == old(world).field.world_entity,
            final(world).field.next_entity == old(world).field.next_entity,
            final(world).field.ability_vars == old(world).field.ability_vars,
            final(world).field.abilities == old(world).field.abilities,
            final(world).field.statuses == old(world).field.statuses,
            final(world).actions == old(world).actions,
            final(world).events == old(world).events,
            final(world).resource == old(world).resource,
            final(world).battle == old(world).battle,
            final(world).fatigue_start == old(world).fatigue_start,
    {
        world.field.units = Vec::new();
        world.field.corpses = Vec::new();
    }

    /// The front units of both sides, when both stand.
    pub fn get_strikers(world: &World) -> (r: Option<(Entity, Entity)>)
        ensures
            r == strikers(world.field.units@),
    {
        let left = match find_unit_at_slot(&world.field.units, Faction::Left, 1) {
            Some(i) => i,
            None => return None,
        };
        let right = match find_unit_at_slot(&world.field.units, Faction::Right, 1) {
            Some(i) => i,
            None => return None,
        };
        Some((world.field.units[left].entity, world.field.units[right].entity))
    }

    /// Whether either striker is out of the fight.
    pub fn striker_death_check(left: Entity, right: Entity, world: &World) -> (r: bool)
        ensures
            r == (out_of_fight(world.field.units@, left) || out_of_fight(world.field.units@, right)),
    {
        let l = match find_unit(&world.field.units, left) {
            Some(i) => world.field.units[i].is_dead(),
            None => true,
        };
        let r = match find_unit(&world.field.units, right) {
            Some(i) => world.field.units[i].is_dead(),
            None => true,
        };
        l || r
    }

    /// Counts the units of each side and tells the outcome.
    pub fn get_result(world: &World) -> (r: Result<BattleResult, BattleError>)
        requires
            in_battle(world.field.units@),
        ensures
            r == battle_outcome(world.field.units@),
    {
        let units = &world.field.units;
        let mut l: usize = 0;
        let mut r: usize = 0;
        let mut i: usize = 0;
        while i < units.len()
            invariant
                0 <= i <= units.len(),
                l == count_faction(units@.subrange(0, i as int), Faction::Left),
                r == count_faction(units@.subrange(0, i as int), Faction::Right),
            decreases units.len() - i,
        {
            proof {
                lemma_count_faction_le(units@.subrange(0, i as int), Faction::Left);
                lemma_count_faction_le(units@.subrange(0, i as int), Faction::Right);
                assert(units@.subrange(0, i as int + 1).drop_last() =~= units@.subrange(0, i as int));
            }
            match units[i].faction {
                Faction::Left => { l = l + 1; },
                Faction::Right => { r = r + 1; },
                _ => {},
            }
            i = i + 1;
        }
        assert(units@.subrange(0, units@.len() as int) =~= units@);
        if l == 0 && r == 0 {
            Ok(BattleResult::Even)
        } else if r == 0 {
            Ok(BattleResult::Left(l))
        } else if l == 0 {
            Ok(BattleResult::Right(r))
        } else {
            Err(BattleError::NoSingleWinner)
        }
    }

    /// Queues the fatigue blows: once the current turn lies past the start
    /// of fatigue, every unit of both sides is hurt by the difference.
    pub fn fatigue(world: &mut World)
        ensures
            fatigued(*old(world), *final(world)),
    {
        let turn = ActionPlugin::current_turn(world);
        let amount = (turn as i32).wrapping_sub(world.fatigue_start);
        if amount <= 0 {
            assert(world.actions@ + Seq::<Action>::empty() =~= world.actions@);
            return;
        }
        let mut hurt = collect_faction(&world.field.units, Faction::Left);
        let mut right = collect_faction(&world.field.units, Faction::Right);
        hurt.append(&mut right);
        let ghost before = world.actions@;
        let mut i: usize = 0;
        while i < hurt.len()
            invariant
                0 <= i <= hurt.len(),
                world.actions@ == before + fatigue_actions(hurt@.subrange(0, i as int), amount),
                world.field == old(world).field,
                world.events == old(world).events,
                world.resource == old(world).resource,
                world.battle == old(world).battle,
                world.fatigue_start == old(world).fatigue_start,
            decreases hurt.len() - i,
        {
            let unit = hurt[i];
            let mut context = Context::new(unit);
            context.target = Some(unit);
            context.set_var(VarName::Damage, VarValue::Int(amount));
            ActionPlugin::action_push_back(Effect::Damage, context, world);
            assert(fatigue_actions(hurt@.subrange(0, i as int + 1), amount) =~= fatigue_actions(hurt@.subrange(0, i as int), amount).push(Action { effect: Effect::Damage, context: fatigue_context(unit, amount) }));
            i = i + 1;
        }
        assert(hurt@.subrange(0, hurt@.len() as int) =~= hurt@);
    }

    /// Opens the turn: announces it and both strikes to come, draining the
    /// queues after each; if both strikers still stand, drains once more.
    pub fn before_strike(left: Entity, right: Entity, world: &mut World) -> (r: Result<(), BattleError>)
        requires
            old(world).field.units@.len() < i32::MAX,
        ensures
            r is Err ==> r == Err::<(), BattleError>(BattleError::LimitExceeded),
            r is Ok ==> final(world).actions@.len() == 0 && final(world).events@.len() == 0,
            r is Ok ==> final(world).resource.events@ == old(world).resource.events@ + opening(left, right),
            extends(final(world).resource.events@, old(world).resource.events@),
            same_setup(*final(world), *old(world)),
            final(world).resource.turns == old(world).resource.turns,
            final(world).field.units@.len() <= old(world).field.units@.len(),
            in_battle(old(world).field.units@) ==> in_battle(final(world).field.units@),
            r is Ok ==> opened(*old(world), left, right, *final(world)),
            r is Err ==> opening_failed(*old(world), left, right, *final(world)),
    {
        let ghost rec = world.resource.events@;
        proof {
            assert(opening(left, right) == seq![Event::TurnStart].push(Event::BeforeStrike(left, right)).push(Event::BeforeStrike(right, left)));
            assert(rec.push(Event::TurnStart).subrange(0, rec.len() as int) =~= rec);
            assert(rec.push(Event::TurnStart).push(Event::BeforeStrike(left, right)).subrange(0, rec.len() as int) =~= rec);
            assert(rec.push(Event::TurnStart).push(Event::BeforeStrike(left, right)).push(Event::BeforeStrike(right, left)) =~= rec + opening(left, right));
            assert((rec + opening(left, right)).subrange(0, rec.len() as int) =~= rec);
        }
        let ghost a = *world;
        Event::TurnStart.send(world);
        let ghost m1 = *world;
        let res = ActionPlugin::spin(world);
        if res.is_err() {
            proof {
                lemma_drain_failed(m1, *world, res);
                assert(sent_failed_via(a, Event::TurnStart, m1, *world));
                assert(opening_failed_via(a, left, right, a, a, a, 0, *world));
            }
            return Err(BattleError::LimitExceeded);
        }
        proof {
            lemma_drained(m1, *world, res);
            assert(sent_drained_via(a, Event::TurnStart, m1, *world));
        }
        let ghost w1 = *world;
        Event::BeforeStrike(left, right).send(world);
        let ghost m2 = *world;
        let res = ActionPlugin::spin(world);
        if res.is_err() {
            proof {
                lemma_drain_failed(m2, *world, res);
                assert(sent_failed_via(w1, Event::BeforeStrike(left, right), m2, *world));
                assert(opening_failed_via(a, left, right, w1, a, a, 1, *world));
            }
            return Err(BattleError::LimitExceeded);
        }
        proof {
            lemma_drained(m2, *world, res);
            assert(sent_drained_via(w1, Event::BeforeStrike(left, right), m2, *world));
        }
        let ghost w2 = *world;
        Event::BeforeStrike(right, left).send(world);
        let ghost m3 = *world;
        let res = ActionPlugin::spin(world);
        if res.is_err() {
            proof {
                lemma_drain_failed(m3, *world, res);
                assert(sent_failed_via(w2, Event::BeforeStrike(right, left), m3, *world));
                assert(opening_failed_via(a, left, right, w1, w2, a, 2, *world));
            }
            return Err(BattleError::LimitExceeded);
        }
        proof {
            lemma_drained(m3, *world, res);
            assert(sent_drained_via(w2, Event::BeforeStrike(right, left), m3, *world));
        }
        let ghost w3 = *world;
        if Self::striker_death_check(left, right, world) {
            assert(opened_via(a, left, right, w1, w2, w3, *world));
            return Ok(());
        }
        let res = ActionPlugin::spin(world);
        if res.is_err() {
            proof {
                lemma_drain_failed(w3, *world, res);
                assert(opening_failed_via(a, left, right, w1, w2, w3, 3, *world));
            }
            return Err(BattleError::LimitExceeded);
        }
        proof {
            lemma_drained(w3, *world, res);
            assert(opened_via(a, left, right, w1, w2, w3, *world));
        }
        Ok(())
    }

    /// Each striker deals a blow to the other, the left first; then the
    /// queues are drained.
    pub fn strike(left: Entity, right: Entity, world: &mut World) -> (r: Result<(), BattleError>)
        requires
            old(world).field.units@.len() < i32::MAX,
        ensures
            r is Err ==> r == Err::<(), BattleError>(BattleError::LimitExceeded),
            r is Ok ==> final(world).actions@.len() == 0 && final(world).events@.len() == 0,
            same_setup(*final(world), *old(world)),
            final(world).resource.turns == old(world).resource.turns,
            final(world).resource.events == old(world).resource.events,
            final(world).field.units@.len() <= old(world).field.units@.len(),
            in_battle(old(world).field.units@) ==> in_battle(final(world).field.units@),
            r is Ok ==> struck(*old(world), left, right, *final(world)),
            r is Err ==> strike_failed(*old(world), left, right, *final(world)),
    {
        let mut first = Context::new(left);
        first.target = Some(right);
        first.caster = Some(left);
        ActionPlugin::action_push_back(Effect::Damage, first, world);
        let mut second = Context::new(right);
        second.target = Some(left);
        second.caster = Some(right);
        ActionPlugin::action_push_back(Effect::Damage, second, world);
        proof {
            assert(first == blow_context(left, right));
            assert(second == blow_context(right, left));
            assert(world.actions@ =~= old(world).actions@ + blows(left, right));
        }
        let ghost q = *world;
        let res = ActionPlugin::spin(world);
        if res.is_err() {
            proof {
                lemma_drain_failed(q, *world, res);
                assert(strike_failed_via(*old(world), left, right, q, *world));
            }
            return Err(BattleError::LimitExceeded);
        }
        proof {
            lemma_drained(q, *world, res);
            assert(struck_via(*old(world), left, right, q, *world));
        }
        Ok(())
    }

    /// Announces each striker's strike to it, draining the queues after each.
    pub fn after_strike(left: Entity, right: Entity, world: &mut World) -> (r: Result<(), BattleError>)
        requires
            old(world).field.units@.len() < i32::MAX,
        ensures
            r is Err ==> r == Err::<(), BattleError>(BattleError::LimitExceeded),
            r is Ok ==> final(world).actions@.len() == 0 && final(world).events@.len() == 0,
            r is Ok ==> final(world).resource.events@ == old(world).resource.events@ + closing(left, right),
            r is Ok ==> closed(*old(world), left, right, *final(world)),
            r is Err ==> closing_failed(*old(world), left, right, *final(world)),
            extends(final(world).resource.events@, old(world).resource.events@),
            same_setup(*final(world), *old(world)),
            final(world).resource.turns == old(world).resource.turns,
            final(world).field.units@.len() <= old(world).field.units@.len(),
            in_battle(old(world).field.units@) ==> in_battle(final(world).field.units@),
    {
        let ghost rec = world.resource.events@;
        proof {
            assert(rec.push(Event::AfterStrike(left, right)).subrange(0, rec.len() as int) =~= rec);
            assert(rec.push(Event::AfterStrike(left, right)).push(Event::AfterStrike(right, left)) =~= rec + closing(left, right));
            assert((rec + closing(left, right)).subrange(0, rec.len() as int) =~= rec);
        }
        let ghost a = *world;
        Event::AfterStrike(left, right).send(world);
        let ghost m1 = *world;
        let res = ActionPlugin::spin(world);
        if res.is_err() {
            proof {
                lemma_drain_failed(m1, *world, res);
                assert(sent_failed_via(a, Event::AfterStrike(left, right), m1, *world));
                assert(closing_failed_via(a, left, right, a, 0, *world));
            }
            return Err(BattleError::LimitExceeded);
        }
        proof {
            lemma_drained(m1, *world, res);
            assert(sent_drained_via(a, Event::AfterStrike(left, right), m1, *world));
        }
        let ghost w1 = *world;
        Event::AfterStrike(right, left).send(world);
        let ghost m2 = *world;
        let res = ActionPlugin::spin(world);
        if res.is_err() {
            proof {
                lemma_drain_failed(m2, *world, res);
                assert(sent_failed_via(w1, Event::AfterStrike(right, left), m2, *world));
                assert(closing_failed_via(a, left, right, w1, 1, *world));
            }
            return Err(BattleError::LimitExceeded);
        }
        proof {
            lemma_drained(m2, *world, res);
            assert(sent_drained_via(w1, Event::AfterStrike(right, left), m2, *world));
            assert(closed_via(a, left, right, w1, *world));
        }
        Ok(())
    }

    /// One turn of the battle between the two strikers: drain the queues,
    /// start the next turn, open it, and unless a striker fell, strike, close
    /// the strike, let fatigue hurt, end the turn and drain twice.
    pub fn run_strike(left: Entity, right: Entity, world: &mut World) -> (r: Result<(), BattleError>)
        requires
            old(world).field.units@.len() < i32::MAX,
            next_turn_number(old(world).resource.turns@) <= usize::MAX,
        ensures
            r is Err ==> r == Err::<(), BattleError>(BattleError::LimitExceeded),
            r is Ok ==> final(world).actions@.len() == 0 && final(world).events@.len() == 0,
            r is Ok ==> final(world).resource.turns@ == old(world).resource.turns@.push(next_turn_number(old(world).resource.turns@) as usize),
            final(world).resource.turns@ == old(world).resource.turns@
                || final(world).resource.turns@ == old(world).resource.turns@.push(next_turn_number(old(world).resource.turns@) as usize),
            extends(final(world).resource.events@, old(world).resource.events@),
            r is Ok ==> final(world).resource.events@ == old(world).resource.events@ + opening(left, right)
                || final(world).resource.events@ == old(world).resource.events@ + opening(left, right) + closing(left, right).push(Event::TurnEnd),
            same_setup(*final(world), *old(world)),
            final(world).field.units@.len() <= old(world).field.units@.len(),
            in_battle(old(world).field.units@) ==> in_battle(final(world).field.units@),
            r is Ok ==> turn_played(*old(world), left, right, *final(world)),
            r is Err ==> turn_failed(*old(world), left, right, *final(world)),
    {
        reveal(turn_failed);
        let ghost rec = world.resource.events@;
        let ghost a = *world;
        let res = ActionPlugin::spin(world);
        if res.is_err() {
            proof {
                assert(rec.subrange(0, rec.len() as int) =~= rec);
                lemma_drain_failed(a, *world, res);
                assert(turn_failed_via(a, left, right, a, a, a, a, a, a, a, 0, *world));
            }
            return Err(BattleError::LimitExceeded);
        }
        proof {
            lemma_drained(a, *world, res);
        }
        let ghost w0 = *world;
        ActionPlugin::register_next_turn(world);
        let ghost w1 = *world;
        let opened_ok = Self::before_strike(left, right, world);
        if opened_ok.is_err() {
            proof {
                assert(turn_failed_via(a, left, right, w0, w1, a, a, a, a, a, 1, *world));
            }
            return opened_ok;
        }
        let ghost w2 = *world;
        if Self::striker_death_check(left, right, world) {
            assert(turn_via(a, left, right, w0, w1, w2, w2, w2, w2, w2, *world));
            return Ok(());
        }
        let ghost rec_opened = world.resource.events@;
        let struck_ok = Self::strike(left, right, world);
        if struck_ok.is_err() {
            proof {
                assert(turn_failed_via(a, left, right, w0, w1, w2, a, a, a, a, 2, *world));
            }
            return struck_ok;
        }
        let ghost w3 = *world;
        let ghost rec_struck = world.resource.events@;
        let closed_ok = Self::after_strike(left, right, world);
        proof {
            lemma_extends_trans(world.resource.events@, rec_struck, rec);
        }
        if closed_ok.is_err() {
            proof {
                assert(turn_failed_via(a, left, right, w0, w1, w2, w3, a, a, a, 3, *world));
            }
            return closed_ok;
        }
        let ghost w4 = *world;
        Self::fatigue(world);
        let ghost w5 = *world;
        let ghost rec_closed = world.resource.events@;
        Event::TurnEnd.send(world);
        proof {
            assert(rec_closed.push(Event::TurnEnd) =~= rec + opening(left, right) + closing(left, right).push(Event::TurnEnd));
            assert(rec_closed.push(Event::TurnEnd).subrange(0, rec.len() as int) =~= (rec + opening(left, right)).subrange(0, rec.len() as int));
            assert((rec + opening(left, right)).subrange(0, rec.len() as int) =~= rec);
            assert(rec_opened.subrange(0, rec.len() as int) =~= rec);
        }
        let ghost m6 = *world;
        let res = ActionPlugin::spin(world);
        if res.is_err() {
            proof {
                lemma_drain_failed(m6, *world, res);
                assert(sent_failed_via(w5, Event::TurnEnd, m6, *world));
                assert(turn_failed_via(a, left, right, w0, w1, w2, w3, w4, w5, a, 4, *world));
            }
            return Err(BattleError::LimitExceeded);
        }
        proof {
            lemma_drained(m6, *world, res);
            assert(sent_drained_via(w5, Event::TurnEnd, m6, *world));
        }
        let ghost w6 = *world;
        let res = ActionPlugin::spin(world);
        if res.is_err() {
            proof {
                lemma_drain_failed(w6, *world, res);
                assert(turn_failed_via(a, left, right, w0, w1, w2, w3, w4, w5, w6, 5, *world));
            }
            return Err(BattleError::LimitExceeded);
        }
        proof {
            lemma_drained(w6, *world, res);
            assert(turn_via(a, left, right, w0, w1, w2, w3, w4, w5, w6, *world));
        }
        Ok(())
    }

    /// One round of a battle: a whole turn when both sides have a front
    /// unit; otherwise a drain, and when it ran no action, clearing the dead.
    /// Tells whether the battle goes on.
    fn battle_round(world: &mut World) -> (r: Result<bool, BattleError>)
        requires
            old(world).field.units@.len() < i32::MAX,
            in_battle(old(world).field.units@),
            turns_numbered(old(world).resource.turns@),
            current_turn_number(old(world).resource.turns@) < BATTLE_STEP_LIMIT,
            old(world).resource.events@.len() > 0,
        ensures
            final(world).field.units@.len() <= old(world).field.units@.len(),
            in_battle(final(world).field.units@),
            turns_numbered(final(world).resource.turns@),
            current_turn_number(final(world).resource.turns@) <= current_turn_number(old(world).resource.turns@) + 1,
            final(world).resource.events@.len() > 0,
            final(world).resource.events@[0] == old(world).resource.events@[0],
            final(world).battle == old(world).battle,
            final(world).fatigue_start == old(world).fatigue_start,
            final(world).field.abilities == old(world).field.abilities,
            final(world).field.statuses == old(world).field.statuses,
            r == Ok::<bool, BattleError>(true) ==> battle_step(*old(world), *final(world)),
            r == Ok::<bool, BattleError>(false) ==> {
                &&& battle_end(*old(world), *final(world))
                &&& strikers(final(world).field.units@) is None
                &&& forall|i: int| 0 <= i < final(world).field.units@.len() ==> !is_dead_spec(#[trigger] final(world).field.units@[i])
                &&& final(world).actions@.len() == 0
                &&& final(world).events@.len() == 0
            },
            r is Err ==> r == Err::<bool, BattleError>(BattleError::LimitExceeded) && step_failed(*old(world), *final(world)),
    {
        reveal(battle_step);
        reveal(battle_end);
        reveal(step_failed);
        let ghost b0 = *world;
        match Self::get_strikers(world) {
            Some((l, r)) => {
                let played = Self::run_strike(l, r, world);
                if played.is_err() {
                    return Err(BattleError::LimitExceeded);
                }
                return Ok(true);
            },
            None => {},
        }
        let ghost before = world.field.units;
        let res = ActionPlugin::spin(world);
        match res {
            Ok(true) => {
                proof {
                    let (t, q) = choose|t: Seq<World>, q: Seq<bool>| #[trigger] valid_drain(b0, t, q, res, *world);
                    assert(valid_drain(b0, t, q, Ok::<bool, EvalError>(true), *world));
                }
                return Ok(true);
            },
            Ok(false) => {},
            Err(_) => {
                proof {
                    lemma_drain_failed(b0, *world, res);
                }
                return Err(BattleError::LimitExceeded);
            },
        }
        assert(world.field.units == before);
        let ghost mid = *world;
        if ActionPlugin::clear_dead(world) {
            proof {
                assert(quiet_via(b0, false, mid, *world));
            }
            return Ok(true);
        }
        proof {
            assert(quiet_via(b0, false, mid, *world));
        }
        Ok(false)
    }

    /// Fights the loaded teams out: puts both on the field, announces the
    /// battle, and strikes while both sides have a front unit; when they do
    /// not, drains the queues and clears the dead until nothing changes. Gives
    /// the outcome. A battle that takes more than `BATTLE_STEP_LIMIT` steps is
    /// given up.
    #[verifier::rlimit(50)]
    #[verifier::spinoff_prover]
    pub fn run_battle(world: &mut World) -> (r: Result<BattleResult, BattleError>)
        requires
            old(world).battle.left is Some,
            old(world).battle.right is Some,
            in_battle(old(world).field.units@),
            old(world).field.units@.len() + old(world).battle.left.unwrap().units@.len() + old(world).battle.right.unwrap().units@.len() < i32::MAX,
            old(world).field.next_entity + old(world).battle.left.unwrap().units@.len() + old(world).battle.right.unwrap().units@.len() <= u64::MAX,
        ensures
            r != Err::<BattleResult, BattleError>(BattleError::LimitExceeded) ==> {
                &&& r == battle_outcome(final(world).field.units@)
                &&& strikers(final(world).field.units@) is None
                &&& forall|i: int| 0 <= i < final(world).field.units@.len() ==> !is_dead_spec(#[trigger] final(world).field.units@[i])
                &&& final(world).actions@.len() == 0
                &&& final(world).events@.len() == 0
            },
            r != Err::<BattleResult, BattleError>(BattleError::LimitExceeded) ==>
                final(world).resource.events@.len() > 0 && final(world).resource.events@[0] == Event::BattleStart,
            turns_numbered(final(world).resource.turns@),
            in_battle(final(world).field.units@),
            final(world).battle == old(world).battle,
            final(world).fatigue_start == old(world).fatigue_start,
            final(world).field.abilities == old(world).field.abilities,
            final(world).field.statuses == old(world).field.statuses,
            r != Err::<BattleResult, BattleError>(BattleError::LimitExceeded) ==>
                exists|trace: Seq<World>| #[trigger] battle_run(*old(world), trace, *final(world)),
            r == Err::<BattleResult, BattleError>(BattleError::LimitExceeded) ==> battle_failed(*old(world), *final(world)),
    {
        let ghost a = *world;
        ActionPlugin::reset(world);
        let ghost w1 = *world;
        let left = match &world.battle.left {
            Some(t) => t.copy(),
            None => return Err(BattleError::LimitExceeded),
        };
        let right = match &world.battle.right {
            Some(t) => t.copy(),
            None => return Err(BattleError::LimitExceeded),
        };
        let ghost u0 = world.field.units@;
        let ghost n0 = u0.len();
        let ghost lt = left.units@;
        left.unpack(Faction::Left, world);
        let ghost w2 = *world;
        let ghost u1 = world.field.units@;
        let ghost n1 = u1.len();
        let ghost rt = right.units@;
        right.unpack(Faction::Right, world);
        let ghost w3 = *world;
        proof {
            let tl = a.battle.left.unwrap().units@;
            let tr = a.battle.right.unwrap().units@;
            assert forall|i: int| 0 <= i < tl.len() implies {
                let u = #[trigger] w2.field.units@[n0 + i];
                &&& u.entity == w1.field.next_entity + i
                &&& u.faction == Faction::Left
                &&& u.slot == i + 1
                &&& u.hp == tl[i].hp
                &&& u.pwr == tl[i].pwr
                &&& u.dmg == 0
                &&& u.statuses@ == tl[i].statuses@
            } by {
                assert(lt[i].hp == tl[i].hp);
            }
            assert(unpacked_from(w1, tl, Faction::Left, w2));
            assert forall|i: int| 0 <= i < tr.len() implies {
                let u = #[trigger] w3.field.units@[n1 + i];
                &&& u.entity == w2.field.next_entity + i
                &&& u.faction == Faction::Right
                &&& u.slot == i + 1
                &&& u.hp == tr[i].hp
                &&& u.pwr == tr[i].pwr
                &&& u.dmg == 0
                &&& u.statuses@ == tr[i].statuses@
            } by {
                assert(rt[i].hp == tr[i].hp);
            }
            assert(unpacked_from(w2, tr, Faction::Right, w3));
        }
        assert(in_battle(world.field.units@)) by {
            assert forall|i: int| 0 <= i < world.field.units@.len() implies
                (#[trigger] world.field.units@[i]).faction == Faction::Left || world.field.units@[i].faction == Faction::Right by {
                if n0 <= i < n1 {
                    assert(world.field.units@[i] == u1[i]);
                    assert(u1[i].faction == Faction::Left);
                } else if i < n0 {
                    assert(world.field.units@[i] == u1[i]);
                    assert(u1[i] == u0[i]);
                }
            }
        }
        let res = ActionPlugin::spin(world);
        if res.is_err() {
            proof {
                lemma_drain_failed(w3, *world, res);
                assert(setup_failed_via(a, w1, w2, w3, a, 0, *world));
                lemma_setup_failed(a, w1, w2, w3, a, 0, *world);
            }
            return Err(BattleError::LimitExceeded);
        }
        proof {
            lemma_drained(w3, *world, res);
        }
        let ghost w4 = *world;
        Event::BattleStart.send(world);
        let ghost m5 = *world;
        let res = ActionPlugin::spin(world);
        if res.is_err() {
            proof {
                lemma_drain_failed(m5, *world, res);
                assert(sent_failed_via(w4, Event::BattleStart, m5, *world));
                assert(setup_failed_via(a, w1, w2, w3, w4, 1, *world));
                lemma_setup_failed(a, w1, w2, w3, w4, 1, *world);
            }
            return Err(BattleError::LimitExceeded);
        }
        proof {
            lemma_drained(m5, *world, res);
            assert(sent_drained_via(w4, Event::BattleStart, m5, *world));
            assert(setup_via(a, w1, w2, w3, w4, *world));
        }
        let ghost mut trace: Seq<World> = seq![*world];
        let mut steps: u32 = BATTLE_STEP_LIMIT;
        loop
            invariant_except_break
                world.field.units@.len() < i32::MAX,
                in_battle(world.field.units@),
                turns_numbered(world.resource.turns@),
                world.resource.events@.len() > 0 && world.resource.events@[0] == Event::BattleStart,
                current_turn_number(world.resource.turns@) <= BATTLE_STEP_LIMIT - steps,
                steps <= BATTLE_STEP_LIMIT,
                world.battle == old(world).battle,
                world.fatigue_start == old(world).fatigue_start,
                world.field.abilities == old(world).field.abilities,
                world.field.statuses == old(world).field.statuses,
                trace.len() >= 1,
                trace.len() == BATTLE_STEP_LIMIT - steps + 1,
                a == *old(world),
                set_up(a, trace[0]),
                forall|i: int| 0 <= i < trace.len() - 1 ==> battle_step(#[trigger] trace[i], trace[i + 1]),
                trace.last() == *world,
            ensures
                in_battle(world.field.units@),
                turns_numbered(world.resource.turns@),
                world.resource.events@.len() > 0 && world.resource.events@[0] == Event::BattleStart,
                world.battle == old(world).battle,
                world.fatigue_start == old(world).fatigue_start,
                world.field.abilities == old(world).field.abilities,
                world.field.statuses == old(world).field.statuses,
                strikers(world.field.units@) is None,
                forall|i: int| 0 <= i < world.field.units@.len() ==> !is_dead_spec(#[trigger] world.field.units@[i]),
                world.actions@.len() == 0,
                world.events@.len() == 0,
                battle_run(a, trace, *world),
            decreases steps,
        {
            if steps == 0 {
                proof {
                    lemma_battle_cut(a, trace, *world);
                }
                return Err(BattleError::LimitExceeded);
            }
            steps = steps - 1;
            let ghost b0 = *world;
            match Self::battle_round(world) {
                Ok(true) => {
                    proof {
                        lemma_battle_trace_push(trace, *world);
                        trace = trace.push(*world);
                    }
                    continue;
                },
                Ok(false) => {},
                Err(_) => {
                    proof {
                        lemma_battle_cut(a, trace, *world);
                    }
                    return Err(BattleError::LimitExceeded);
                },
            }
            break;
        }
        Self::get_result(world)
    }

    /// Fights the battle and records its result. For a battle of a run, also
    /// tells whether it was won, the answer to hand to the server.
    pub fn on_enter(world: &mut World) -> (r: Result<Option<bool>, BattleError>)
        requires
            old(world).battle.left is Some,
            old(world).battle.right is Some,
            in_battle(old(world).field.units@),
            old(world).field.units@.len() + old(world).battle.left.unwrap().units@.len() + old(world).battle.right.unwrap().units@.len() < i32::MAX,
            old(world).field.next_entity + old(world).battle.left.unwrap().units@.len() + old(world).battle.right.unwrap().units@.len() <= u64::MAX,
        ensures
            match r {
                Ok(s) => {
                    &&& battle_outcome(final(world).field.units@) == Ok::<BattleResult, BattleError>(final(world).battle.result)
                    &&& s == if old(world).battle.run_id is Some { win_of(final(world).battle.result) } else { None }
                    &&& final(world).battle == (BattleData { result: final(world).battle.result, ..old(world).battle })
                    &&& exists|trace: Seq<World>| #[trigger] battle_run(*old(world), trace, with_battle(*final(world), old(world).battle))
                },
                Err(e) => if e == BattleError::LimitExceeded {
                    battle_failed(*old(world), *final(world))
                } else {
                    &&& battle_outcome(final(world).field.units@) == Err::<BattleResult, BattleError>(e)
                    &&& exists|trace: Seq<World>| #[trigger] battle_run(*old(world), trace, *final(world))
                },
            },
    {
        let result = Self::run_battle(world)?;
        let ghost fought = *world;
        world.battle.result = result;
        proof {
            assert(fought == with_battle(*world, old(world).battle));
        }
        if world.battle.run_id.is_some() {
            Ok(result.is_win())
        } else {
            Ok(None)
        }
    }
}

/// The outcome names the side left standing: a side wins only when every
/// standing unit is its own, with that many units, and a draw leaves nobody
/// standing.
pub proof fn lemma_outcome_sides(units: Seq<Unit>)
    requires
        in_battle(units),
        units.len() <= usize::MAX,
    ensures
        battle_outcome(units) matches Ok(BattleResult::Left(n)) ==> n == units.len() && forall|i: int| 0 <= i < units.len() ==> (#[trigger] units[i]).faction == Faction::Left,
        battle_outcome(units) matches Ok(BattleResult::Right(n)) ==> n == units.len() && forall|i: int| 0 <= i < units.len() ==> (#[trigger] units[i]).faction == Faction::Right,
        battle_outcome(units) == Ok::<BattleResult, BattleError>(BattleResult::Even) ==> units.len() == 0,
        battle_outcome(units) is Err ==> count_faction(units, Faction::Left) > 0 && count_faction(units, Faction::Right) > 0,
    decreases units.len(),
{
    lemma_count_sum(units);
    lemma_count_zero(units, Faction::Left);
    lemma_count_zero(units, Faction::Right);
}

/// A side of which no unit is counted has no unit standing.
pub proof fn lemma_count_zero(units: Seq<Unit>, f: Faction)
    ensures
        count_faction(units, f) == 0 ==> forall|i: int| 0 <= i < units.len() ==> (#[trigger] units[i]).faction != f,
    decreases units.len(),
{
    if units.len() > 0 {
        let p = units.drop_last();
        lemma_count_zero(p, f);
        assert forall|i: int| 0 <= i < units.len() - 1 implies #[trigger] units[i] == p[i] by {}
    }
}

/// Every standing unit of a battle is counted on its side.
pub proof fn lemma_count_sum(units: Seq<Unit>)
    requires
        in_battle(units),
    ensures
        count_faction(units, Faction::Left) + count_faction(units, Faction::Right) == units.len(),
    decreases units.len(),
{
    if units.len() > 0 {
        let p = units.drop_last();
        assert(in_battle(p)) by {
            assert forall|i: int| 0 <= i < p.len() implies (#[trigger] p[i]).faction == Faction::Left || p[i].faction == Faction::Right by {
                assert(p[i] == units[i]);
            }
        }
        lemma_count_sum(p);
        assert(units[units.len() - 1] == units.last());
    }
}

/// Some unit of the side on the field is the entity.
pub open spec fn listed_on_side(units: Seq<Unit>, f: Faction, x: Entity) -> bool {
    exists|k: int| 0 <= k < units.len() && (#[trigger] units[k]).faction == f && units[k].entity == x
}

/// The units of a side, as listed for fatigue, are the side's units on the
/// field: as many as are counted, each one of them, and every one listed.
pub proof fn lemma_of_faction(units: Seq<Unit>, f: Faction)
    ensures
        of_faction(units, f).len() == count_faction(units, f),
        forall|k: int| 0 <= k < units.len() && (#[trigger] units[k]).faction == f ==> of_faction(units, f).contains(units[k].entity),
        forall|j: int| 0 <= j < of_faction(units, f).len() ==> #[trigger] listed_on_side(units, f, of_faction(units, f)[j]),
    decreases units.len(),
{
    if units.len() > 0 {
        let p = units.drop_last();
        lemma_of_faction(p, f);
        let l = units.len() - 1;
        let o = of_faction(units, f);
        let q = of_faction(p, f);
        assert forall|k: int| 0 <= k < units.len() && (#[trigger] units[k]).faction == f implies o.contains(units[k].entity) by {
            if k < l {
                assert(units[k] == p[k]);
                let j = choose|j: int| 0 <= j < q.len() && q[j] == p[k].entity;
                assert(o[j] == q[j]);
            } else {
                assert(units[k] == units.last());
                assert(o[q.len() as int] == units.last().entity);
            }
        }
        assert forall|j: int| 0 <= j < o.len() implies #[trigger] listed_on_side(units, f, o[j]) by {
            if j < q.len() {
                assert(o[j] == q[j]);
                assert(listed_on_side(p, f, q[j]));
                let k = choose|k: int| 0 <= k < p.len() && (#[trigger] p[k]).faction == f && p[k].entity == q[j];
                assert(units[k] == p[k]);
            } else {
                assert(units[l] == units.last());
            }
        }
    }
}

/// Fatigue hurts every unit of both sides by how far the turn lies past its
/// start, and nothing else: once the turn is past the start, exactly one
/// blow per unit of the Left and the Right side is queued after the waiting
/// actions, each a unit's damage to itself for that amount, aimed at a unit
/// of those sides, and every such unit is aimed at; before that, nothing is
/// queued.
pub proof fn lemma_fatigue_hurts_everyone(a: World, b: World)
    requires
        fatigued(a, b),
        0 <= current_turn_number(a.resource.turns@) <= i32::MAX,
        i32::MIN <= current_turn_number(a.resource.turns@) - a.fatigue_start <= i32::MAX,
    ensures
        ({
            let d = current_turn_number(a.resource.turns@) - a.fatigue_start;
            let units = a.field.units@;
            let n = a.actions@.len();
            let added = b.actions@.subrange(n as int, b.actions@.len() as int);
            &&& b == (World { actions: b.actions, ..a })
            &&& b.actions@.subrange(0, n as int) == a.actions@
            &&& d <= 0 ==> b.actions@ == a.actions@
            &&& d > 0 ==> {
                &&& added.len() == count_faction(units, Faction::Left) + count_faction(units, Faction::Right)
                &&& forall|j: int| 0 <= j < added.len() ==> {
                    &&& (#[trigger] added[j]).effect == Effect::Damage
                    &&& added[j].context.target == Some(added[j].context.owner)
                    &&& vars_get(added[j].context.vars, VarName::Damage) == Some(VarValue::Int(d as i32))
                    &&& exists|k: int| 0 <= k < units.len() && (#[trigger] units[k]).entity == added[j].context.owner
                        && (units[k].faction == Faction::Left || units[k].faction == Faction::Right)
                }
                &&& forall|k: int| 0 <= k < units.len() && ((#[trigger] units[k]).faction == Faction::Left || units[k].faction == Faction::Right)
                    ==> exists|j: int| 0 <= j < added.len() && (#[trigger] added[j]).context.target == Some(units[k].entity)
            }
        }),
{
    let t = current_turn_number(a.resource.turns@);
    let d = t - a.fatigue_start;
    let units = a.field.units@;
    let amount = fatigue_amount(t, a.fatigue_start);
    assert(amount == d);
    let l = of_faction(units, Faction::Left);
    let r = of_faction(units, Faction::Right);
    let hurt = l + r;
    lemma_of_faction(units, Faction::Left);
    lemma_of_faction(units, Faction::Right);
    let n = a.actions@.len();
    let added = b.actions@.subrange(n as int, b.actions@.len() as int);
    if d <= 0 {
        assert(b.actions@ =~= a.actions@);
    } else {
        let fa = fatigue_actions(hurt, amount);
        assert(added =~= fa);
        assert(b.actions@.subrange(0, n as int) =~= a.actions@);
        assert forall|j: int| 0 <= j < added.len() implies {
            &&& (#[trigger] added[j]).effect == Effect::Damage
            &&& added[j].context.target == Some(added[j].context.owner)
            &&& vars_get(added[j].context.vars, VarName::Damage) == Some(VarValue::Int(d as i32))
            &&& exists|k: int| 0 <= k < units.len() && (#[trigger] units[k]).entity == added[j].context.owner
                && (units[k].faction == Faction::Left || units[k].faction == Faction::Right)
        } by {
            assert(added[j] == fa[j]);
            lemma_vars_set_get(no_vars(), VarName::Damage, VarValue::Int(amount), VarName::Damage);
            if j < l.len() {
                assert(hurt[j] == l[j]);
                assert(listed_on_side(units, Faction::Left, l[j]));
                let k = choose|k: int| 0 <= k < units.len() && (#[trigger] units[k]).faction == Faction::Left && units[k].entity == l[j];
                assert(units[k].entity == added[j].context.owner);
            } else {
                assert(hurt[j] == r[j - l.len()]);
                assert(listed_on_side(units, Faction::Right, r[j - l.len()]));
                let k = choose|k: int| 0 <= k < units.len() && (#[trigger] units[k]).faction == Faction::Right && units[k].entity == r[j - l.len()];
                assert(units[k].entity == added[j].context.owner);
            }
        }
        assert forall|k: int| 0 <= k < units.len() && ((#[trigger] units[k]).faction == Faction::Left || units[k].faction == Faction::Right)
            implies exists|j: int| 0 <= j < added.len() && (#[trigger] added[j]).context.target == Some(units[k].entity) by {
            if units[k].faction == Faction::Left {
                let j = choose|j: int| 0 <= j < l.len() && l[j] == units[k].entity;
                assert(hurt[j] == l[j]);
                assert(added[j] == fa[j]);
            } else {
                let j = choose|j: int| 0 <= j < r.len() && r[j] == units[k].entity;
                assert(hurt[l.len() + j] == r[j]);
                assert(added[l.len() + j] == fa[l.len() + j]);
            }
        }
    }
}

/// A strike queues two blows after the waiting actions, the left striker's
/// first: each a `Damage` effect of one striker aimed at the other, with no
/// variable set, so each deals its owner's power; then the queues drain.
pub proof fn lemma_strike_blows(a: World, left: Entity, right: Entity, q: World, b: World)
    requires
        struck_via(a, left, right, q, b),
    ensures
        ({
            let n = a.actions@.len();
            &&& q.actions@.len() == n + 2
            &&& q.actions@.subrange(0, n as int) == a.actions@
            &&& q.actions@[n as int].effect == Effect::Damage
            &&& q.actions@[n as int].context.owner == left
            &&& q.actions@[n as int].context.target == Some(right)
            &&& q.actions@[n as int].context.vars == no_vars()
            &&& q.actions@[n as int + 1].effect == Effect::Damage
            &&& q.actions@[n as int + 1].context.owner == right
            &&& q.actions@[n as int + 1].context.target == Some(left)
            &&& q.actions@[n as int + 1].context.vars == no_vars()
            &&& drained(q, b)
        }),
{
    assert(q.actions@.subrange(0, a.actions@.len() as int) =~= a.actions@);
}

} // verus!
