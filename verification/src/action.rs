//! The queue of actions (effects waiting to run) and of events (waiting to
//! be handed to the units' statuses), and the loop that drains them.
use vstd::prelude::*;
use crate::world::{World, Context, Entity, EvalError, Unit, is_dead_spec, in_battle};
use crate::effect::{Effect, invoke_rel};
use crate::event::{Event, process_rel};
use crate::world::{Faction, Field};

verus! {

/// An effect waiting to run in its context.
#[derive(Debug)]
pub struct Action {
    pub effect: Effect,
    pub context: Context,
}

/// What the battle has recorded: the events sent, the turns started, and how
/// many actions ran since the last turn began.
#[derive(Debug)]
pub struct ActionsResource {
    pub events: Vec<Event>,
    pub turns: Vec<usize>,
    pub chain: usize,
}

impl ActionsResource {
    pub fn new() -> (r: ActionsResource)
        ensures
            r.events@.len() == 0,
            r.turns@.len() == 0,
            r.chain == 0,
    {
        ActionsResource { events: Vec::new(), turns: Vec::new(), chain: 0 }
    }
}

/// The number of the turn after the recorded ones: one more than the last,
/// or 1 when none was recorded.
pub open spec fn next_turn_number(turns: Seq<usize>) -> int {
    if turns.len() == 0 { 1 } else { turns.last() + 1 }
}

/// The number of the current turn: the last recorded, or 0 before the first.
pub open spec fn current_turn_number(turns: Seq<usize>) -> int {
    if turns.len() == 0 { 0 } else { turns.last() as int }
}

/// Runs the queued actions and events of the battle world.
pub struct ActionPlugin;

impl ActionPlugin {
    /// Queues an action after all others.
    pub fn action_push_back(effect: Effect, context: Context, world: &mut World)
        ensures
            final(world).actions@ == old(world).actions@.push(Action { effect, context }),
            final(world).field == old(world).field,
            final(world).events == old(world).events,
            final(world).resource == old(world).resource,
            final(world).battle == old(world).battle,
            final(world).fatigue_start == old(world).fatigue_start,
    {
        world.actions.push(Action { effect, context });
    }

    /// Queues an action before all others.
    pub fn action_push_front(effect: Effect, context: Context, world: &mut World)
        ensures
            final(world).actions@ == seq![Action { effect, context }] + old(world).actions@,
            final(world).field == old(world).field,
            final(world).events == old(world).events,
            final(world).resource == old(world).resource,
            final(world).battle == old(world).battle,
            final(world).fatigue_start == old(world).fatigue_start,
    {
        world.actions.insert(0, Action { effect, context });
        assert(world.actions@ =~= seq![Action { effect, context }] + old(world).actions@);
    }

    /// Queues an event, with the context it is sent in, after all others.
    pub fn event_push_back(event: Event, context: Context, world: &mut World)
        ensures
            final(world).events@ == old(world).events@.push((event, context)),
            final(world).field == old(world).field,
            final(world).actions == old(world).actions,
            final(world).resource == old(world).resource,
            final(world).battle == old(world).battle,
            final(world).fatigue_start == old(world).fatigue_start,
    {
        world.events.push((event, context));
    }

    /// Takes the first queued action.
    pub fn pop_action(world: &mut World) -> (r: Option<Action>)
        ensures
            old(world).actions@.len() == 0 ==> r is None && *final(world) == *old(world),
            old(world).actions@.len() > 0 ==> r == Some(old(world).actions@[0]) && final(world).actions@ == old(world).actions@.drop_first(),
            final(world).field == old(world).field,
            final(world).events == old(world).events,
            final(world).resource == old(world).resource,
            final(world).battle == old(world).battle,
            final(world).fatigue_start == old(world).fatigue_start,
    {
        if world.actions.len() == 0 {
            None
        } else {
            let a = world.actions.remove(0);
            assert(world.actions@ =~= old(world).actions@.drop_first());
            Some(a)
        }
    }

    /// Takes the first queued event.
    pub fn pop_event(world: &mut World) -> (r: Option<(Event, Context)>)
        ensures
            old(world).events@.len() == 0 ==> r is None && *final(world) == *old(world),
            old(world).events@.len() > 0 ==> r == Some(old(world).events@[0]) && final(world).events@ == old(world).events@.drop_first(),
            final(world).field == old(world).field,
            final(world).actions == old(world).actions,
            final(world).resource == old(world).resource,
            final(world).battle == old(world).battle,
            final(world).fatigue_start == old(world).fatigue_start,
    {
        if world.events.len() == 0 {
            None
        } else {
            let e = world.events.remove(0);
            assert(world.events@ =~= old(world).events@.drop_first());
            Some(e)
        }
    }

    /// Records that an event was sent.
    pub fn register_event(event: Event, world: &mut World)
        ensures
            final(world).resource.events@ == old(world).resource.events@.push(event),
            final(world).resource.turns == old(world).resource.turns,
            final(world).resource.chain == old(world).resource.chain,
            final(world).field == old(world).field,
            final(world).actions == old(world).actions,
            final(world).events == old(world).events,
            final(world).battle == old(world).battle,
            final(world).fatigue_start == old(world).fatigue_start,
    {
        world.resource.events.push(event);
    }

    /// Records the start of the next turn and restarts the chain count.
    pub fn register_next_turn(world: &mut World)
        requires
            next_turn_number(old(world).resource.turns@) <= usize::MAX,
        ensures
            final(world).resource.turns@ == old(world).resource.turns@.push(next_turn_number(old(world).resource.turns@) as usize),
            final(world).resource.chain == 0,
            final(world).resource.events == old(world).resource.events,
            final(world).field == old(world).field,
            final(world).actions == old(world).actions,
            final(world).events == old(world).events,
            final(world).battle == old(world).battle,
            final(world).fatigue_start == old(world).fatigue_start,
    {
        let n = world.resource.turns.len();
        let last = if n == 0 { 0 } else { world.resource.turns[n - 1] };
        world.resource.turns.push(last + 1);
        world.resource.chain = 0;
    }

    /// The number of the current turn.
    pub fn current_turn(world: &World) -> (r: usize)
        ensures
            r as int == current_turn_number(world.resource.turns@),
    {
        let n = world.resource.turns.len();
        if n == 0 { 0 } else { world.resource.turns[n - 1] }
    }

    /// Forgets everything recorded.
    pub fn reset(world: &mut World)
        ensures
            final(world).resource.events@.len() == 0,
            final(world).resource.turns@.len() == 0,
            final(world).resource.chain == 0,
            final(world).field == old(world).field,
            final(world).actions == old(world).actions,
            final(world).events == old(world).events,
            final(world).battle == old(world).battle,
            final(world).fatigue_start == old(world).fatigue_start,
    {
        world.resource = ActionsResource::new();
    }
}

} // verus!

verus! {

/// The living units, in their order on the field.
pub open spec fn living(units: Seq<Unit>) -> Seq<Unit>
    decreases units.len(),
{
    if units.len() == 0 {
        Seq::empty()
    } else if is_dead_spec(units.last()) {
        living(units.drop_last())
    } else {
        living(units.drop_last()).push(units.last())
    }
}

/// The dead units, in their order on the field.
pub open spec fn dead(units: Seq<Unit>) -> Seq<Unit>
    decreases units.len(),
{
    if units.len() == 0 {
        Seq::empty()
    } else if is_dead_spec(units.last()) {
        dead(units.drop_last()).push(units.last())
    } else {
        dead(units.drop_last())
    }
}

/// How many units of the faction of unit `i` stand before it in the line
/// among the first `n` units: a lower slot, or the same slot and an earlier
/// place on the field.
pub open spec fn ahead_count(units: Seq<Unit>, i: int, n: int) -> int
    decreases n,
{
    if n <= 0 {
        0
    } else {
        let j = n - 1;
        let before = units[j].faction == units[i].faction && (units[j].slot < units[i].slot || (units[j].slot == units[i].slot && j < i));
        ahead_count(units, i, n - 1) + if before { 1int } else { 0int }
    }
}

pub proof fn lemma_ahead_count_bounds(units: Seq<Unit>, i: int, n: int)
    ensures
        0 <= ahead_count(units, i, n) <= if n < 0 { 0 } else { n },
    decreases n,
{
    if n > 0 {
        lemma_ahead_count_bounds(units, i, n - 1);
    }
}

/// The units with the gaps in each faction's line closed: every unit gets the
/// slot one past the number of its faction's units ahead of it.
pub open spec fn gaps_filled(units: Seq<Unit>) -> Seq<Unit> {
    Seq::new(units.len(), |i: int| Unit { slot: (ahead_count(units, i, units.len() as int) + 1) as i32, ..units[i] })
}

/// Closes the gaps in each faction's line.
pub fn fill_gaps(units: &mut Vec<Unit>)
    requires
        old(units).len() < i32::MAX,
    ensures
        final(units)@ == gaps_filled(old(units)@),
{
    let ghost orig = units@;
    let n = units.len();
    let mut ranks: Vec<i32> = Vec::new();
    let mut i: usize = 0;
    while i < n
        invariant
            0 <= i <= n,
            n == units.len(),
            n < i32::MAX,
            units@ == orig,
            ranks@.len() == i,
            forall|k: int| 0 <= k < i ==> ranks@[k] as int == ahead_count(orig, k, n as int) + 1,
        decreases n - i,
    {
        let mut c: i32 = 0;
        let mut j: usize = 0;
        while j < n
            invariant
                0 <= j <= n,
                i < n,
                n == units.len(),
                n < i32::MAX,
                units@ == orig,
                c as int == ahead_count(orig, i as int, j as int),
            decreases n - j,
        {
            proof {
                lemma_ahead_count_bounds(orig, i as int, j as int);
            }
            let uj = &units[j];
            let ui = &units[i];
            if uj.faction == ui.faction && (uj.slot < ui.slot || (uj.slot == ui.slot && j < i)) {
                c = c + 1;
            }
            j = j + 1;
        }
        proof {
            lemma_ahead_count_bounds(orig, i as int, n as int);
        }
        ranks.push(c + 1);
        i = i + 1;
    }
    let mut k: usize = 0;
    while k < n
        invariant
            0 <= k <= n,
            n == orig.len(),
            ranks@.len() == n,
            forall|m: int| 0 <= m < n ==> ranks@[m] as int == ahead_count(orig, m, n as int) + 1,
            units@.len() == n,
            forall|m: int| 0 <= m < k ==> units@[m] == gaps_filled(orig)[m],
            forall|m: int| k <= m < n ==> units@[m] == orig[m],
        decreases n - k,
    {
        let mut u = units.remove(k);
        u.slot = ranks[k];
        units.insert(k, u);
        k = k + 1;
    }
    assert(units@ =~= gaps_filled(orig));
}

/// Takes the dead units off the field, in their order, leaving the living.
pub fn take_dead(units: &mut Vec<Unit>) -> (r: Vec<Unit>)
    ensures
        final(units)@ == living(old(units)@),
        r@ == dead(old(units)@),
{
    let ghost orig = units@;
    let mut alive: Vec<Unit> = Vec::new();
    let mut gone: Vec<Unit> = Vec::new();
    let mut rest: Vec<Unit> = Vec::new();
    // Move the units out in reverse, then put each where it belongs.
    let n = units.len();
    while units.len() > 0
        invariant
            units@.len() + rest@.len() == n,
            n == orig.len(),
            units@ == orig.subrange(0, units@.len() as int),
            forall|m: int| 0 <= m < rest@.len() ==> rest@[m] == orig[n - 1 - m],
        decreases units.len(),
    {
        let u = units.pop().unwrap();
        rest.push(u);
    }
    while rest.len() > 0
        invariant
            rest@.len() <= n,
            n == orig.len(),
            forall|m: int| 0 <= m < rest@.len() ==> rest@[m] == orig[n - 1 - m],
            alive@ == living(orig.subrange(0, n - rest@.len())),
            gone@ == dead(orig.subrange(0, n - rest@.len())),
            units@.len() == 0,
        decreases rest.len(),
    {
        let ghost done = n - rest@.len();
        let u = rest.pop().unwrap();
        assert(orig.subrange(0, done + 1).drop_last() =~= orig.subrange(0, done));
        assert(orig.subrange(0, done + 1).last() == orig[done]);
        if u.is_dead() {
            gone.push(u);
        } else {
            alive.push(u);
        }
    }
    assert(orig.subrange(0, n as int) =~= orig);
    *units = alive;
    gone
}

/// Whether the world differs from `a` at most in its units, corpses,
/// queues and the chain count.
pub open spec fn same_rules(a: World, b: World) -> bool {
    &&& a.field.world_entity == b.field.world_entity
    &&& a.field.next_entity == b.field.next_entity
    &&& a.field.ability_vars == b.field.ability_vars
    &&& a.field.abilities == b.field.abilities
    &&& a.field.statuses == b.field.statuses
    &&& a.resource.events == b.resource.events
    &&& a.resource.turns == b.resource.turns
    &&& a.battle == b.battle
    &&& a.fatigue_start == b.fatigue_start
}

/// The chain count after an action: one more when it ran, held at the top.
pub open spec fn chain_after(chain: usize, ran: bool) -> usize {
    if ran && chain < usize::MAX { (chain + 1) as usize } else { chain }
}

/// One step with an action: the first action of `a` leaves the queue,
/// giving `mid`; it runs in its own context on `mid`, giving the result `r`,
/// the context `c` and the world `done`; `b` is `done` with the chain
/// counted on when the action ran.
pub open spec fn action_step(a: World, mid: World, r: Result<(), EvalError>, c: Context, done: World, b: World) -> bool {
    &&& a.actions@.len() > 0
    &&& mid.actions@ == a.actions@.drop_first()
    &&& mid == (World { actions: mid.actions, ..a })
    &&& invoke_rel(a.actions@[0].effect, a.actions@[0].context, mid, r, c, done)
    &&& b == (World { resource: ActionsResource { chain: chain_after(done.resource.chain, r is Ok), ..done.resource }, ..done })
}

/// One step with an event: no action waits; the first event of `a` leaves
/// the queue, giving `mid`, and is handed to its owner, giving `b`.
pub open spec fn event_step(a: World, mid: World, added: bool, b: World) -> bool {
    &&& a.actions@.len() == 0
    &&& a.events@.len() > 0
    &&& mid.events@ == a.events@.drop_first()
    &&& mid == (World { events: mid.events, ..a })
    &&& process_rel(a.events@[0].0, a.events@[0].1, mid, added, b)
}

/// One step of a drain from `a` to `b`; `ran` tells whether it was an
/// action that ran.
pub open spec fn drain_step(a: World, ran: bool, b: World) -> bool {
    ||| exists|mid: World, r: Result<(), EvalError>, c: Context, done: World|
            #[trigger] action_step(a, mid, r, c, done, b) && ran == (r is Ok)
    ||| !ran && exists|mid: World, added: bool| #[trigger] event_step(a, mid, added, b)
}

/// Whether any step ran an action.
pub open spec fn any_ran(ran: Seq<bool>) -> bool {
    exists|k: int| 0 <= k < ran.len() && #[trigger] ran[k]
}

/// The world `b` is `a` with its dead units turned into corpses, in their
/// order, and, when any died, the gaps in the lines closed.
pub open spec fn cleared(a: World, b: World) -> bool {
    let d = dead(a.field.units@);
    &&& b.field.corpses@ == a.field.corpses@ + d
    &&& b.field.units@ == if d.len() > 0 { gaps_filled(living(a.field.units@)) } else { a.field.units@ }
    &&& b == (World { field: Field { units: b.field.units, corpses: b.field.corpses, ..a.field }, ..a })
}

/// A drain of the queues from `start` to `end`: a run of steps through the
/// worlds of `trace`, `ran` telling of each step whether an action ran. A
/// drain that ends with `Ok` leaves both queues empty and tells whether any
/// action ran; then, and only then, the dead are cleared from the last world
/// to give `end`. A drain gives up only after it has taken at least
/// `SPIN_LIMIT` steps.
pub open spec fn valid_drain(start: World, trace: Seq<World>, ran: Seq<bool>, r: Result<bool, EvalError>, end: World) -> bool {
    &&& trace.len() == ran.len() + 1
    &&& trace[0] == start
    &&& forall|i: int| 0 <= i < ran.len() ==> drain_step(#[trigger] trace[i], ran[i], trace[i + 1])
    &&& r is Ok ==> trace.last().actions@.len() == 0 && trace.last().events@.len() == 0
    &&& r is Err ==> ran.len() >= SPIN_LIMIT
    &&& (r matches Ok(p) ==> p == any_ran(ran))
    &&& if r == Ok::<bool, EvalError>(true) { cleared(trace.last(), end) } else { end == trace.last() }
}

/// The number of steps one drain of the queues may take.
pub const SPIN_LIMIT: u32 = 100000;

impl ActionPlugin {
    /// Turns the dead units into corpses and, if any died, closes the gaps
    /// they left. Tells whether any unit died.
    pub fn clear_dead(world: &mut World) -> (r: bool)
        requires
            old(world).field.units.len() < i32::MAX,
        ensures
            r == (dead(old(world).field.units@).len() > 0),
            final(world).field.corpses@ == old(world).field.corpses@ + dead(old(world).field.units@),
            r ==> final(world).field.units@ == gaps_filled(living(old(world).field.units@)),
            !r ==> final(world).field.units@ == old(world).field.units@,
            same_rules(*final(world), *old(world)),
            final(world).actions == old(world).actions,
            final(world).events == old(world).events,
            final(world).resource.chain == old(world).resource.chain,
            final(world).field.units.len() <= old(world).field.units.len(),
            in_battle(old(world).field.units@) ==> in_battle(final(world).field.units@),
            forall|i: int| 0 <= i < final(world).field.units@.len() ==> !is_dead_spec(#[trigger] final(world).field.units@[i]),
            cleared(*old(world), *final(world)),
    {
        let ghost before = world.field.units@;
        let mut gone = take_dead(&mut world.field.units);
        let died = gone.len() > 0;
        world.field.corpses.append(&mut gone);
        if died {
            proof {
                lemma_living_len(before);
                lemma_living_in_battle(before);
                lemma_living_alive(before);
            }
            fill_gaps(&mut world.field.units);
        } else {
            proof {
                lemma_no_dead_all_living(before);
                lemma_no_dead_all_alive(before);
            }
        }
        died
    }

    /// Runs queued actions until none is left; when the action queue is dry,
    /// hands queued events to their owners' statuses until one of them queues
    /// an action; stops when both queues are dry. Gives up with
    /// `LimitExceeded` after `SPIN_LIMIT` steps. If any action ran, the dead
    /// are cleared at the end. Tells whether any action ran. Every step it
    /// took is one of `drain_step`, as `valid_drain` lays out.
    pub fn spin(world: &mut World) -> (r: Result<bool, EvalError>)
        requires
            old(world).field.units.len() < i32::MAX,
        ensures
            r is Ok ==> final(world).actions@.len() == 0 && final(world).events@.len() == 0,
            r is Err ==> r == Err::<bool, EvalError>(EvalError::LimitExceeded),
            old(world).actions@.len() == 0 && old(world).events@.len() == 0 ==> r == Ok::<bool, EvalError>(false) && *final(world) == *old(world),
            same_rules(*final(world), *old(world)),
            final(world).field.units.len() <= old(world).field.units.len(),
            in_battle(old(world).field.units@) ==> in_battle(final(world).field.units@),
            r == Ok::<bool, EvalError>(false) ==> final(world).field.units == old(world).field.units,
            r == Ok::<bool, EvalError>(true) ==> forall|i: int| 0 <= i < final(world).field.units@.len() ==> !is_dead_spec(#[trigger] final(world).field.units@[i]),
            exists|trace: Seq<World>, ran: Seq<bool>| #[trigger] valid_drain(*old(world), trace, ran, r, *final(world)),
    {
        let mut processed = false;
        let mut limit: u32 = SPIN_LIMIT;
        let ghost n0 = world.field.units.len();
        let ghost mut trace: Seq<World> = seq![*world];
        let ghost mut ran: Seq<bool> = Seq::empty();
        loop
            invariant_except_break
                same_rules(*world, *old(world)),
                world.field.units.len() == n0,
                n0 == old(world).field.units.len(),
                n0 < i32::MAX,
                in_battle(old(world).field.units@) ==> in_battle(world.field.units@),
                !processed ==> world.field.units == old(world).field.units,
                !processed && old(world).actions@.len() == 0 && old(world).events@.len() == 0 ==> *world == *old(world),
                old(world).actions@.len() == 0 && old(world).events@.len() == 0 ==> !processed && limit == SPIN_LIMIT,
                trace.len() == ran.len() + 1,
                trace[0] == *old(world),
                trace.last() == *world,
                forall|i: int| 0 <= i < ran.len() ==> drain_step(#[trigger] trace[i], ran[i], trace[i + 1]),
                processed == any_ran(ran),
                ran.len() + limit >= SPIN_LIMIT,
            ensures
                same_rules(*world, *old(world)),
                world.field.units.len() == n0,
                n0 == old(world).field.units.len(),
                n0 < i32::MAX,
                in_battle(old(world).field.units@) ==> in_battle(world.field.units@),
                world.actions@.len() == 0 && world.events@.len() == 0,
                !processed && old(world).actions@.len() == 0 && old(world).events@.len() == 0 ==> *world == *old(world),
                old(world).actions@.len() == 0 && old(world).events@.len() == 0 ==> !processed,
                !processed ==> world.field.units == old(world).field.units,
                trace.len() == ran.len() + 1,
                trace[0] == *old(world),
                trace.last() == *world,
                forall|i: int| 0 <= i < ran.len() ==> drain_step(#[trigger] trace[i], ran[i], trace[i + 1]),
                processed == any_ran(ran),
            decreases limit,
        {
            if limit == 0 {
                assert(valid_drain(*old(world), trace, ran, Err::<bool, EvalError>(EvalError::LimitExceeded), *world));
                return Err(EvalError::LimitExceeded);
            }
            limit = limit - 1;
            let ghost w0 = *world;
            match ActionPlugin::pop_action(world) {
                Some(action) => {
                    let ghost mid = *world;
                    let mut context = action.context;
                    let res = action.effect.invoke(&mut context, world);
                    let ghost done = *world;
                    match res {
                        Ok(()) => {
                            processed = true;
                            world.resource.chain = world.resource.chain.saturating_add(1);
                        },
                        Err(_) => {},
                    }
                    proof {
                        assert(action_step(w0, mid, res, context, done, *world));
                        assert(drain_step(w0, res is Ok, *world));
                        lemma_trace_push(trace, ran, *world, res is Ok);
                        trace = trace.push(*world);
                        ran = ran.push(res is Ok);
                    }
                    continue;
                },
                None => {},
            }
            let mut added = false;
            let ghost r0 = ran.len();
            while world.events.len() > 0
                invariant_except_break
                    world.actions@.len() == 0,
                    !added,
                invariant
                    same_rules(*world, *old(world)),
                    world.field.units.len() == n0,
                    n0 == old(world).field.units.len(),
                    in_battle(old(world).field.units@) ==> in_battle(world.field.units@),
                    !processed ==> world.field.units == old(world).field.units,
                    !processed && old(world).actions@.len() == 0 && old(world).events@.len() == 0 ==> *world == *old(world),
                    trace.len() == ran.len() + 1,
                    trace[0] == *old(world),
                    trace.last() == *world,
                    forall|i: int| 0 <= i < ran.len() ==> drain_step(#[trigger] trace[i], ran[i], trace[i + 1]),
                    processed == any_ran(ran),
                    ran.len() >= r0,
                ensures
                    added || (world.actions@.len() == 0 && world.events@.len() == 0),
                    added ==> world.actions@.len() > 0,
                    added ==> ran.len() > r0,
                decreases world.events.len(),
            {
                let ghost e0 = *world;
                let (event, context) = match ActionPlugin::pop_event(world) {
                    Some(x) => x,
                    None => break,
                };
                let ghost mid = *world;
                let got = event.process(context, world);
                proof {
                    assert(event_step(e0, mid, got, *world));
                    assert(drain_step(e0, false, *world));
                    lemma_trace_push(trace, ran, *world, false);
                    trace = trace.push(*world);
                    ran = ran.push(false);
                }
                if got {
                    added = true;
                    break;
                }
            }
            if !added {
                break;
            }
        }
        if processed {
            ActionPlugin::clear_dead(world);
        }
        assert(valid_drain(*old(world), trace, ran, Ok::<bool, EvalError>(processed), *world));
        Ok(processed)
    }
}

/// Adding a step to a drain keeps its steps in order and tells whether any
/// ran an action.
pub proof fn lemma_trace_push(trace: Seq<World>, ran: Seq<bool>, w: World, step_ran: bool)
    requires
        trace.len() == ran.len() + 1,
        forall|i: int| 0 <= i < ran.len() ==> drain_step(#[trigger] trace[i], ran[i], trace[i + 1]),
        drain_step(trace.last(), step_ran, w),
    ensures
        trace.push(w).len() == ran.push(step_ran).len() + 1,
        forall|i: int| 0 <= i < ran.push(step_ran).len() ==> drain_step(#[trigger] trace.push(w)[i], ran.push(step_ran)[i], trace.push(w)[i + 1]),
        any_ran(ran.push(step_ran)) == (any_ran(ran) || step_ran),
        trace.push(w)[0] == trace[0],
        trace.push(w).last() == w,
{
    let t = trace.push(w);
    let q = ran.push(step_ran);
    assert forall|i: int| 0 <= i < q.len() implies drain_step(#[trigger] t[i], q[i], t[i + 1]) by {
        if i < ran.len() {
            assert(t[i] == trace[i]);
            assert(t[i + 1] == trace[i + 1]);
            assert(q[i] == ran[i]);
        } else {
            assert(t[i] == trace.last());
        }
    }
    if any_ran(ran) {
        let k = choose|k: int| 0 <= k < ran.len() && ran[k];
        assert(q[k]);
    }
    if step_ran {
        assert(q[ran.len() as int]);
    }
    if any_ran(q) {
        let k = choose|k: int| 0 <= k < q.len() && q[k];
        if k < ran.len() {
            assert(ran[k]);
        }
    }
}

pub proof fn lemma_living_len(units: Seq<Unit>)
    ensures
        living(units).len() <= units.len(),
    decreases units.len(),
{
    if units.len() > 0 {
        lemma_living_len(units.drop_last());
    }
}

pub proof fn lemma_no_dead_all_living(units: Seq<Unit>)
    requires
        dead(units).len() == 0,
    ensures
        living(units) == units,
    decreases units.len(),
{
    if units.len() > 0 {
        lemma_no_dead_all_living(units.drop_last());
        assert(units.drop_last().push(units.last()) =~= units);
    }
}

pub proof fn lemma_living_in_battle(units: Seq<Unit>)
    ensures
        in_battle(units) ==> in_battle(living(units)),
        in_battle(units) ==> in_battle(gaps_filled(living(units))),
    decreases units.len(),
{
    if units.len() > 0 {
        lemma_living_in_battle(units.drop_last());
        if in_battle(units) {
            assert(in_battle(units.drop_last())) by {
                assert forall|i: int| 0 <= i < units.drop_last().len() implies (#[trigger] units.drop_last()[i]).faction == Faction::Left || units.drop_last()[i].faction == Faction::Right by {
                    assert(units.drop_last()[i] == units[i]);
                }
            }
            assert(units[units.len() - 1] == units.last());
        }
    }
}

pub proof fn lemma_no_dead_all_alive(units: Seq<Unit>)
    requires
        dead(units).len() == 0,
    ensures
        forall|i: int| 0 <= i < units.len() ==> !is_dead_spec(#[trigger] units[i]),
    decreases units.len(),
{
    if units.len() > 0 {
        lemma_no_dead_all_alive(units.drop_last());
        assert forall|i: int| 0 <= i < units.len() implies !is_dead_spec(#[trigger] units[i]) by {
            if i < units.len() - 1 {
                assert(units[i] == units.drop_last()[i]);
            }
        }
    }
}

/// No dead unit is among the living, nor after their line is closed up.
pub proof fn lemma_living_alive(units: Seq<Unit>)
    ensures
        forall|i: int| 0 <= i < living(units).len() ==> !is_dead_spec(#[trigger] living(units)[i]),
        forall|i: int| 0 <= i < gaps_filled(living(units)).len() ==> !is_dead_spec(#[trigger] gaps_filled(living(units))[i]),
    decreases units.len(),
{
    if units.len() > 0 {
        lemma_living_alive(units.drop_last());
        let l = living(units.drop_last());
        assert forall|i: int| 0 <= i < living(units).len() implies !is_dead_spec(#[trigger] living(units)[i]) by {
            if i < l.len() {
                assert(living(units)[i] == l[i]);
            }
        }
    }
}

/// Unit `i` stands ahead of unit `j` in their faction's line: a lower
/// slot, or the same slot and an earlier place on the field.
pub open spec fn ahead_of(units: Seq<Unit>, i: int, j: int) -> bool {
    &&& units[i].faction == units[j].faction
    &&& (units[i].slot < units[j].slot || (units[i].slot == units[j].slot && i < j))
}

/// Among the first `n` units, the one ahead has fewer units ahead of it.
proof fn lemma_ahead_count_mono(units: Seq<Unit>, i: int, j: int, n: int)
    requires
        0 <= i < units.len(),
        0 <= j < units.len(),
        ahead_of(units, i, j),
        n <= units.len(),
    ensures
        ahead_count(units, i, n) + (if 0 <= i < n { 1int } else { 0int }) <= ahead_count(units, j, n),
    decreases n,
{
    if n > 0 {
        lemma_ahead_count_mono(units, i, j, n - 1);
    }
}

/// Closing the gaps keeps each faction's line in its order and starts it at
/// slot 1: a unit ahead of another stays ahead with a lower slot, every slot
/// is at least 1, and nothing but the slots changes.
pub proof fn lemma_gaps_filled_keeps_order(units: Seq<Unit>, i: int, j: int)
    requires
        units.len() < i32::MAX,
        0 <= i < units.len(),
        0 <= j < units.len(),
    ensures
        gaps_filled(units).len() == units.len(),
        gaps_filled(units)[i] == (Unit { slot: gaps_filled(units)[i].slot, ..units[i] }),
        1 <= gaps_filled(units)[i].slot <= units.len(),
        ahead_of(units, i, j) ==> gaps_filled(units)[i].slot < gaps_filled(units)[j].slot,
{
    let n = units.len() as int;
    lemma_ahead_count_bounds(units, i, n);
    lemma_ahead_count_bounds(units, j, n);
    if ahead_of(units, i, j) {
        lemma_ahead_count_mono(units, i, j, n);
    }
    if ahead_count(units, i, n) == n {
        lemma_ahead_count_self(units, i, n);
    }
}

/// A unit is never ahead of itself, so fewer than all are ahead of it.
proof fn lemma_ahead_count_self(units: Seq<Unit>, i: int, n: int)
    requires
        0 <= i < n <= units.len(),
    ensures
        ahead_count(units, i, n) < n,
    decreases n,
{
    lemma_ahead_count_bounds(units, i, n - 1);
    if i < n - 1 {
        lemma_ahead_count_self(units, i, n - 1);
    }
}

} // verus!
