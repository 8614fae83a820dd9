//! Events of the battle and how they reach the units' statuses.
use vstd::prelude::*;
use crate::world::{World, Context, Entity, Unit, VarName, VarValue, StatusTrigger, vars_set, no_vars, is_dead_spec, unit_index, find_unit, same_but_actions, vars_get, lemma_vars_set_get};
use crate::action::{Action, ActionPlugin, living};

verus! {

/// Something that happened in the battle.
#[derive(Debug)]
pub enum Event {
    BattleStart,
    TurnStart,
    TurnEnd,
    BeforeStrike(Entity, Entity),
    AfterStrike(Entity, Entity),
    Death(Entity),
    Kill { owner: Entity, target: Entity },
    IncomingDamage { owner: Entity, value: i32 },
    DamageTaken { owner: Entity, value: i32 },
    OutgoingDamage { owner: Entity, target: Entity, value: i32 },
    DamageDealt { owner: Entity, target: Entity, value: i32 },
    Summon(Entity),
    UseAbility(String),
}

/// The kind of an event, without what it carries.
#[derive(Clone, Copy, Debug, PartialEq, Eq, Structural)]
pub enum EventKind {
    BattleStart,
    TurnStart,
    TurnEnd,
    BeforeStrike,
    AfterStrike,
    Death,
    Kill,
    IncomingDamage,
    DamageTaken,
    OutgoingDamage,
    DamageDealt,
    Summon,
    UseAbility,
}

} // verus!

verus! {

/// The kind of an event.
pub open spec fn kind_of(e: Event) -> EventKind {
    match e {
        Event::BattleStart => EventKind::BattleStart,
        Event::TurnStart => EventKind::TurnStart,
        Event::TurnEnd => EventKind::TurnEnd,
        Event::BeforeStrike(..) => EventKind::BeforeStrike,
        Event::AfterStrike(..) => EventKind::AfterStrike,
        Event::Death(..) => EventKind::Death,
        Event::Kill { .. } => EventKind::Kill,
        Event::IncomingDamage { .. } => EventKind::IncomingDamage,
        Event::DamageTaken { .. } => EventKind::DamageTaken,
        Event::OutgoingDamage { .. } => EventKind::OutgoingDamage,
        Event::DamageDealt { .. } => EventKind::DamageDealt,
        Event::Summon(..) => EventKind::Summon,
        Event::UseAbility(..) => EventKind::UseAbility,
    }
}

/// A list of (slot, entity) pairs with `x` placed after every pair whose
/// slot is not above its own.
pub open spec fn insert_by_slot(sorted: Seq<(i32, Entity)>, x: (i32, Entity)) -> Seq<(i32, Entity)>
    decreases sorted.len(),
{
    if sorted.len() == 0 {
        seq![x]
    } else if sorted.last().0 <= x.0 {
        sorted.push(x)
    } else {
        insert_by_slot(sorted.drop_last(), x).push(sorted.last())
    }
}

/// The living units as (slot, entity) pairs, sorted by slot; units in the
/// same slot keep their order on the field.
pub open spec fn alive_by_slot(units: Seq<Unit>) -> Seq<(i32, Entity)>
    decreases units.len(),
{
    if units.len() == 0 {
        Seq::empty()
    } else {
        let rest = alive_by_slot(units.drop_last());
        let u = units.last();
        if is_dead_spec(u) { rest } else { insert_by_slot(rest, (u.slot, u.entity)) }
    }
}

/// The units an event goes to, and the context each of them receives it in.
pub open spec fn recipients(e: Event, ctx: Context, units: Seq<Unit>) -> (Seq<Entity>, Context) {
    match e {
        Event::DamageTaken { owner, value } => (seq![owner], Context { vars: vars_set(ctx.vars, VarName::Value, VarValue::Int(value)), ..ctx }),
        Event::IncomingDamage { owner, value } => (seq![owner], Context { vars: vars_set(ctx.vars, VarName::Value, VarValue::Int(value)), ..ctx }),
        Event::BeforeStrike(owner, target) => (seq![owner], Context { target: Some(target), ..ctx }),
        Event::AfterStrike(owner, target) => (seq![owner], Context { target: Some(target), ..ctx }),
        Event::Kill { owner, target } => (seq![owner], Context { target: Some(target), ..ctx }),
        Event::OutgoingDamage { owner, target, value } => (seq![owner], Context { target: Some(target), vars: vars_set(ctx.vars, VarName::Value, VarValue::Int(value)), ..ctx }),
        Event::DamageDealt { owner, target, value } => (seq![owner], Context { target: Some(target), vars: vars_set(ctx.vars, VarName::Value, VarValue::Int(value)), ..ctx }),
        Event::Death(t) => (alive_by_slot(units).map_values(|p: (i32, Entity)| p.1), Context { target: Some(t), ..ctx }),
        Event::Summon(t) => (alive_by_slot(units).map_values(|p: (i32, Entity)| p.1), Context { target: Some(t), ..ctx }),
        _ => (alive_by_slot(units).map_values(|p: (i32, Entity)| p.1), ctx),
    }
}

/// The queue entries that hand an event to each of its recipients.
pub open spec fn deliveries(e: Event, owners: Seq<Entity>, ctx: Context) -> Seq<(Event, Context)> {
    owners.map_values(|o: Entity| (e, Context { owner: o, ..ctx }))
}

/// The actions the statuses named `name` start on an event of `kind`: one per
/// matching trigger, in the order of the triggers, with `Charges` set.
pub open spec fn trigger_actions(ts: Seq<StatusTrigger>, name: Seq<char>, charges: i32, kind: EventKind, ctx: Context) -> Seq<Action>
    decreases ts.len(),
{
    if ts.len() == 0 {
        Seq::empty()
    } else {
        let rest = trigger_actions(ts.drop_last(), name, charges, kind, ctx);
        let t = ts.last();
        if t.status@ == name && t.on == kind {
            rest.push(Action { effect: t.effect, context: Context { vars: vars_set(ctx.vars, VarName::Charges, VarValue::Int(charges)), ..ctx } })
        } else {
            rest
        }
    }
}

/// The actions all statuses of a unit start on an event of `kind`.
pub open spec fn reactions(st: Seq<(String, i32)>, ts: Seq<StatusTrigger>, kind: EventKind, ctx: Context) -> Seq<Action>
    decreases st.len(),
{
    if st.len() == 0 {
        Seq::empty()
    } else {
        reactions(st.drop_last(), ts, kind, ctx) + trigger_actions(ts, st.last().0@, st.last().1, kind, ctx)
    }
}

/// The actions an event starts when its owner receives it.
pub open spec fn owner_reactions(kind: EventKind, ctx: Context, units: Seq<Unit>, ts: Seq<StatusTrigger>) -> Seq<Action> {
    let i = unit_index(units, ctx.owner);
    if i < 0 { Seq::empty() } else { reactions(units[i].statuses@, ts, kind, ctx) }
}

/// What handing the event `e` in context `ctx` to its owner does to the
/// world `w0`: the owner's statuses queue their reactions after the queued
/// actions, and `r` tells whether there were any.
pub open spec fn process_rel(e: Event, ctx: Context, w0: World, r: bool, w1: World) -> bool {
    let acts = owner_reactions(kind_of(e), ctx, w0.field.units@, w0.field.statuses@);
    &&& w1.actions@ == w0.actions@ + acts
    &&& r == (acts.len() > 0)
    &&& same_but_actions(w1, w0)
}

/// The world `b` is `a` after the event `e` is sent in a context owned by
/// the world: the event is recorded and queued for each of its recipients.
pub open spec fn sent(e: Event, a: World, b: World) -> bool {
    let ctx = Context { owner: a.field.world_entity, target: None, parent: None, caster: None, vars: no_vars() };
    &&& b.resource.events@ == a.resource.events@.push(e)
    &&& b.resource.turns == a.resource.turns
    &&& b.resource.chain == a.resource.chain
    &&& b.events@ == a.events@ + deliveries(e, recipients(e, ctx, a.field.units@).0, recipients(e, ctx, a.field.units@).1)
    &&& b.field == a.field
    &&& b.actions == a.actions
    &&& b.battle == a.battle
    &&& b.fatigue_start == a.fatigue_start
}

impl EventKind {
    pub fn of(e: &Event) -> (r: EventKind)
        ensures
            r == kind_of(*e),
    {
        match e {
            Event::BattleStart => EventKind::BattleStart,
            Event::TurnStart => EventKind::TurnStart,
            Event::TurnEnd => EventKind::TurnEnd,
            Event::BeforeStrike(..) => EventKind::BeforeStrike,
            Event::AfterStrike(..) => EventKind::AfterStrike,
            Event::Death(..) => EventKind::Death,
            Event::Kill { .. } => EventKind::Kill,
            Event::IncomingDamage { .. } => EventKind::IncomingDamage,
            Event::DamageTaken { .. } => EventKind::DamageTaken,
            Event::OutgoingDamage { .. } => EventKind::OutgoingDamage,
            Event::DamageDealt { .. } => EventKind::DamageDealt,
            Event::Summon(..) => EventKind::Summon,
            Event::UseAbility(..) => EventKind::UseAbility,
        }
    }
}

/// The living units sorted by slot.
pub fn collect_alive_by_slot(units: &Vec<Unit>) -> (r: Vec<Entity>)
    ensures
        r@ == alive_by_slot(units@).map_values(|p: (i32, Entity)| p.1),
{
    let mut sorted: Vec<(i32, Entity)> = Vec::new();
    let mut i: usize = 0;
    while i < units.len()
        invariant
            0 <= i <= units.len(),
            sorted@ == alive_by_slot(units@.subrange(0, i as int)),
        decreases units.len() - i,
    {
        assert(units@.subrange(0, i + 1).drop_last() =~= units@.subrange(0, i as int));
        if !units[i].is_dead() {
            let x = (units[i].slot, units[i].entity);
            let ghost before = sorted@;
            let mut k: usize = sorted.len();
            assert(before.subrange(0, before.len() as int) =~= before);
            assert(insert_by_slot(before, x) + before.subrange(before.len() as int, before.len() as int) =~= insert_by_slot(before, x));
            while k > 0 && sorted[k - 1].0 > x.0
                invariant
                    0 <= k <= sorted.len(),
                    sorted@ == before,
                    insert_by_slot(before, x) == insert_by_slot(before.subrange(0, k as int), x) + before.subrange(k as int, before.len() as int),
                    k < before.len() ==> before[k as int].0 > x.0,
                decreases k,
            {
                assert(before.subrange(0, k as int).drop_last() =~= before.subrange(0, k - 1));
                assert(before.subrange(0, k as int).last() == before[k - 1]);
                assert(insert_by_slot(before.subrange(0, k as int), x) == insert_by_slot(before.subrange(0, k - 1), x).push(before[k - 1]));
                assert(insert_by_slot(before.subrange(0, k - 1), x).push(before[k - 1]) + before.subrange(k as int, before.len() as int)
                    =~= insert_by_slot(before.subrange(0, k - 1), x) + before.subrange(k - 1, before.len() as int));
                k = k - 1;
            }
            proof {
                if k > 0 {
                    assert(insert_by_slot(before.subrange(0, k as int), x) == before.subrange(0, k as int).push(x));
                } else {
                    assert(insert_by_slot(before.subrange(0, 0), x) == seq![x]);
                }
            }
            sorted.insert(k, x);
            assert(sorted@ =~= insert_by_slot(before, x));
        }
        i = i + 1;
    }
    assert(units@.subrange(0, units.len() as int) =~= units@);
    let mut r: Vec<Entity> = Vec::new();
    let mut j: usize = 0;
    while j < sorted.len()
        invariant
            0 <= j <= sorted.len(),
            r@ == sorted@.subrange(0, j as int).map_values(|p: (i32, Entity)| p.1),
        decreases sorted.len() - j,
    {
        r.push(sorted[j].1);
        j = j + 1;
        assert(r@ =~= sorted@.subrange(0, j as int).map_values(|p: (i32, Entity)| p.1));
    }
    assert(sorted@.subrange(0, sorted.len() as int) =~= sorted@);
    r
}

impl Event {
    /// A copy of the event.
    pub fn copy(&self) -> (r: Event)
        ensures
            r == *self,
    {
        match self {
            Event::BattleStart => Event::BattleStart,
            Event::TurnStart => Event::TurnStart,
            Event::TurnEnd => Event::TurnEnd,
            Event::BeforeStrike(a, b) => Event::BeforeStrike(*a, *b),
            Event::AfterStrike(a, b) => Event::AfterStrike(*a, *b),
            Event::Death(a) => Event::Death(*a),
            Event::Kill { owner, target } => Event::Kill { owner: *owner, target: *target },
            Event::IncomingDamage { owner, value } => Event::IncomingDamage { owner: *owner, value: *value },
            Event::DamageTaken { owner, value } => Event::DamageTaken { owner: *owner, value: *value },
            Event::OutgoingDamage { owner, target, value } => Event::OutgoingDamage { owner: *owner, target: *target, value: *value },
            Event::DamageDealt { owner, target, value } => Event::DamageDealt { owner: *owner, target: *target, value: *value },
            Event::Summon(a) => Event::Summon(*a),
            Event::UseAbility(s) => Event::UseAbility(s.clone()),
        }
    }

    /// Sends the event: records it, and queues it for each of its recipients
    /// in the context given, with the recipient as owner.
    pub fn send_with_context(self, context: Context, world: &mut World) -> (r: Event)
        ensures
            r == self,
            final(world).resource.events@ == old(world).resource.events@.push(self),
            final(world).resource.turns == old(world).resource.turns,
            final(world).resource.chain == old(world).resource.chain,
            final(world).events@ == old(world).events@ + deliveries(self, recipients(self, context, old(world).field.units@).0, recipients(self, context, old(world).field.units@).1),
            final(world).field == old(world).field,
            final(world).actions == old(world).actions,
            final(world).battle == old(world).battle,
            final(world).fatigue_start == old(world).fatigue_start,
    {
        let ghost given = context;
        let mut context = context;
        ActionPlugin::register_event(self.copy(), world);
        let owners: Vec<Entity> = match &self {
            Event::DamageTaken { owner, value } | Event::IncomingDamage { owner, value } => {
                context.set_var(VarName::Value, VarValue::Int(*value));
                vec![*owner]
            },
            Event::BeforeStrike(owner, target) | Event::AfterStrike(owner, target) => {
                context.target = Some(*target);
                vec![*owner]
            },
            Event::Kill { owner, target } => {
                context.target = Some(*target);
                vec![*owner]
            },
            Event::OutgoingDamage { owner, target, value } | Event::DamageDealt { owner, target, value } => {
                context.target = Some(*target);
                context.set_var(VarName::Value, VarValue::Int(*value));
                vec![*owner]
            },
            Event::Death(e) | Event::Summon(e) => {
                context.target = Some(*e);
                collect_alive_by_slot(&world.field.units)
            },
            _ => collect_alive_by_slot(&world.field.units),
        };
        assert(owners@ == recipients(self, given, old(world).field.units@).0);
        assert(context == recipients(self, given, old(world).field.units@).1);
        let ghost start = world.events@;
        let ghost res_events = world.resource.events;
        let ghost res_turns = world.resource.turns;
        let ghost res_chain = world.resource.chain;
        let mut k: usize = 0;
        while k < owners.len()
            invariant
                0 <= k <= owners.len(),
                world.events@ == start + deliveries(self, owners@.subrange(0, k as int), context),
                world.field == old(world).field,
                world.actions == old(world).actions,
                world.battle == old(world).battle,
                world.fatigue_start == old(world).fatigue_start,
                world.resource.events == res_events,
                world.resource.turns == res_turns,
                world.resource.chain == res_chain,
            decreases owners.len() - k,
        {
            ActionPlugin::event_push_back(self.copy(), Context { owner: owners[k], ..context }, world);
            k = k + 1;
            assert(deliveries(self, owners@.subrange(0, k as int), context) =~= deliveries(self, owners@.subrange(0, k - 1), context).push((self, Context { owner: owners@[k - 1], ..context })));
        }
        assert(owners@.subrange(0, owners.len() as int) =~= owners@);
        self
    }

    /// Sends the event in a context owned by the world.
    pub fn send(self, world: &mut World) -> (r: Event)
        ensures
            r == self,
            sent(self, *old(world), *final(world)),
    {
        let ctx = Context::new(world.field.world_entity);
        self.send_with_context(ctx, world)
    }

    /// Hands the event to the statuses of the context's owner: every trigger
    /// of the owner's statuses that listens to this kind of event queues its
    /// effect. Tells whether any action was queued.
    pub fn process(self, context: Context, world: &mut World) -> (r: bool)
        ensures
            process_rel(self, context, *old(world), r, *final(world)),
    {
        let kind = EventKind::of(&self);
        let i = match find_unit(&world.field.units, context.owner) {
            Some(i) => i,
            None => {
                assert(old(world).actions@ + Seq::<Action>::empty() =~= old(world).actions@);
                return false;
            },
        };
        let ghost st = world.field.units@[i as int].statuses@;
        let ghost ts = world.field.statuses@;
        let mut added: Vec<Action> = Vec::new();
        let n = world.field.units[i].statuses.len();
        let mut s: usize = 0;
        while s < n
            invariant
                0 <= s <= n,
                i < world.field.units.len(),
                n == st.len(),
                st == world.field.units@[i as int].statuses@,
                ts == world.field.statuses@,
                world == old(world),
                added@ == reactions(st.subrange(0, s as int), ts, kind, context),
            decreases n - s,
        {
            assert(st.subrange(0, s + 1).drop_last() =~= st.subrange(0, s as int));
            let charges = world.field.units[i].statuses[s].1;
            let ghost name = st[s as int].0@;
            let ghost before = added@;
            let mut t: usize = 0;
            while t < world.field.statuses.len()
                invariant
                    0 <= t <= ts.len(),
                    i < world.field.units.len(),
                    s < n,
                    n == st.len(),
                    st == world.field.units@[i as int].statuses@,
                    ts == world.field.statuses@,
                    world == old(world),
                    name == st[s as int].0@,
                    charges == st[s as int].1,
                    added@ == before + trigger_actions(ts.subrange(0, t as int), name, charges, kind, context),
                decreases ts.len() - t,
            {
                assert(ts.subrange(0, t + 1).drop_last() =~= ts.subrange(0, t as int));
                let trig = &world.field.statuses[t];
                let same = trig.status == world.field.units[i].statuses[s].0;
                assert(same == (trig.status@ == name));
                if same && trig.on == kind {
                    let mut ctx = context;
                    ctx.set_var(VarName::Charges, VarValue::Int(charges));
                    added.push(Action { effect: trig.effect.copy(), context: ctx });
                }
                t = t + 1;
                assert(added@ =~= before + trigger_actions(ts.subrange(0, t as int), name, charges, kind, context));
            }
            assert(ts.subrange(0, ts.len() as int) =~= ts);
            s = s + 1;
            assert(added@ =~= reactions(st.subrange(0, s as int), ts, kind, context));
        }
        assert(st.subrange(0, n as int) =~= st);
        let any = added.len() > 0;
        world.actions.append(&mut added);
        any
    }
}

/// An event that names the unit it happened to goes to that unit alone:
/// sending it in the context `ctx` adds exactly one delivery to the queue,
/// of that event, in a context owned by the named unit that keeps the
/// parent and the caster of `ctx`; an event that also names another unit
/// (the victim of a kill, the other striker, the one hit) carries it as the
/// target, and an event that carries an amount of damage sets the value to
/// it.
pub proof fn lemma_addressed_delivery(e: Event, ctx: Context, units: Seq<Unit>, before: Seq<(Event, Context)>, after: Seq<(Event, Context)>)
    requires
        after == before + deliveries(e, recipients(e, ctx, units).0, recipients(e, ctx, units).1),
    ensures
        match e {
            Event::Kill { owner, target } => addressed(before, after, e, ctx, owner, Some(target)),
            Event::BeforeStrike(owner, target) => addressed(before, after, e, ctx, owner, Some(target)),
            Event::AfterStrike(owner, target) => addressed(before, after, e, ctx, owner, Some(target)),
            Event::OutgoingDamage { owner, target, value } => addressed(before, after, e, ctx, owner, Some(target))
                && vars_get(after.last().1.vars, VarName::Value) == Some(VarValue::Int(value)),
            Event::DamageDealt { owner, target, value } => addressed(before, after, e, ctx, owner, Some(target))
                && vars_get(after.last().1.vars, VarName::Value) == Some(VarValue::Int(value)),
            Event::DamageTaken { owner, value } => addressed(before, after, e, ctx, owner, ctx.target)
                && vars_get(after.last().1.vars, VarName::Value) == Some(VarValue::Int(value)),
            Event::IncomingDamage { owner, value } => addressed(before, after, e, ctx, owner, ctx.target)
                && vars_get(after.last().1.vars, VarName::Value) == Some(VarValue::Int(value)),
            _ => true,
        },
{
    let d = deliveries(e, recipients(e, ctx, units).0, recipients(e, ctx, units).1);
    if recipients(e, ctx, units).0.len() == 1 {
        assert(after.subrange(0, before.len() as int) =~= before);
        assert(after.last() == d[0]);
    }
    match e {
        Event::OutgoingDamage { owner, target, value } => lemma_vars_set_get(ctx.vars, VarName::Value, VarValue::Int(value), VarName::Value),
        Event::DamageDealt { owner, target, value } => lemma_vars_set_get(ctx.vars, VarName::Value, VarValue::Int(value), VarName::Value),
        Event::DamageTaken { owner, value } => lemma_vars_set_get(ctx.vars, VarName::Value, VarValue::Int(value), VarName::Value),
        Event::IncomingDamage { owner, value } => lemma_vars_set_get(ctx.vars, VarName::Value, VarValue::Int(value), VarName::Value),
        _ => {},
    }
}

/// The queue `after` is `before` with one more delivery: the event `e`, in
/// a context owned by `owner`, aimed at `target`, with the parent and the
/// caster of `ctx`.
pub open spec fn addressed(before: Seq<(Event, Context)>, after: Seq<(Event, Context)>, e: Event, ctx: Context, owner: Entity, target: Option<Entity>) -> bool {
    &&& after.len() == before.len() + 1
    &&& after.subrange(0, before.len() as int) == before
    &&& after.last().0 == e
    &&& after.last().1.owner == owner
    &&& after.last().1.target == target
    &&& after.last().1.parent == ctx.parent
    &&& after.last().1.caster == ctx.caster
}

/// Some living unit on the field stands in the slot with the entity.
pub open spec fn alive_at(units: Seq<Unit>, p: (i32, Entity)) -> bool {
    exists|k: int| 0 <= k < units.len() && !is_dead_spec(#[trigger] units[k]) && units[k].slot == p.0 && units[k].entity == p.1
}

/// Placing a pair into a list keeps every pair, adds the new one, and nothing else.
proof fn lemma_insert_by_slot(sorted: Seq<(i32, Entity)>, x: (i32, Entity))
    ensures
        insert_by_slot(sorted, x).len() == sorted.len() + 1,
        insert_by_slot(sorted, x).contains(x),
        forall|i: int| 0 <= i < sorted.len() ==> insert_by_slot(sorted, x).contains(#[trigger] sorted[i]),
        forall|j: int| 0 <= j < insert_by_slot(sorted, x).len() ==> #[trigger] insert_by_slot(sorted, x)[j] == x || sorted.contains(insert_by_slot(sorted, x)[j]),
    decreases sorted.len(),
{
    let r = insert_by_slot(sorted, x);
    if sorted.len() == 0 {
        assert(r[0] == x);
    } else if sorted.last().0 <= x.0 {
        assert(r[sorted.len() as int] == x);
        assert forall|i: int| 0 <= i < sorted.len() implies r.contains(#[trigger] sorted[i]) by {
            assert(r[i] == sorted[i]);
        }
        assert forall|j: int| 0 <= j < r.len() implies #[trigger] r[j] == x || sorted.contains(r[j]) by {
            if j < sorted.len() {
                assert(r[j] == sorted[j]);
            }
        }
    } else {
        let p = sorted.drop_last();
        let q = insert_by_slot(p, x);
        lemma_insert_by_slot(p, x);
        assert(r == q.push(sorted.last()));
        let jx = choose|j: int| 0 <= j < q.len() && q[j] == x;
        assert(r[jx] == x);
        assert forall|i: int| 0 <= i < sorted.len() implies r.contains(#[trigger] sorted[i]) by {
            if i < p.len() {
                assert(sorted[i] == p[i]);
                assert(q.contains(p[i]));
                let j = choose|j: int| 0 <= j < q.len() && q[j] == p[i];
                assert(r[j] == q[j]);
            } else {
                assert(r[q.len() as int] == sorted.last());
            }
        }
        assert forall|j: int| 0 <= j < r.len() implies #[trigger] r[j] == x || sorted.contains(r[j]) by {
            if j < q.len() {
                assert(r[j] == q[j]);
                if q[j] != x {
                    assert(p.contains(q[j]));
                    let k = choose|k: int| 0 <= k < p.len() && p[k] == q[j];
                    assert(sorted[k] == p[k]);
                }
            } else {
                assert(sorted[sorted.len() - 1] == sorted.last());
            }
        }
    }
}

/// The living units by slot list each living unit once, as many as live,
/// and nothing else.
proof fn lemma_alive_by_slot(units: Seq<Unit>)
    ensures
        alive_by_slot(units).len() == living(units).len(),
        forall|j: int| 0 <= j < alive_by_slot(units).len() ==> alive_at(units, #[trigger] alive_by_slot(units)[j]),
        forall|k: int| 0 <= k < units.len() && !is_dead_spec(#[trigger] units[k]) ==> alive_by_slot(units).contains((units[k].slot, units[k].entity)),
    decreases units.len(),
{
    if units.len() > 0 {
        let p = units.drop_last();
        lemma_alive_by_slot(p);
        let rest = alive_by_slot(p);
        let u = units.last();
        let l = units.len() - 1;
        assert(units[l] == u);
        let s = alive_by_slot(units);
        if !is_dead_spec(u) {
            lemma_insert_by_slot(rest, (u.slot, u.entity));
        }
        assert forall|j: int| 0 <= j < s.len() implies alive_at(units, #[trigger] s[j]) by {
            if is_dead_spec(u) || s[j] != (u.slot, u.entity) {
                assert(rest.contains(s[j]));
                let i = choose|i: int| 0 <= i < rest.len() && rest[i] == s[j];
                assert(alive_at(p, rest[i]));
                let k = choose|k: int| 0 <= k < p.len() && !is_dead_spec(#[trigger] p[k]) && p[k].slot == rest[i].0 && p[k].entity == rest[i].1;
                assert(units[k] == p[k]);
            }
        }
        assert forall|k: int| 0 <= k < units.len() && !is_dead_spec(#[trigger] units[k]) implies s.contains((units[k].slot, units[k].entity)) by {
            if k < l {
                assert(units[k] == p[k]);
                if !is_dead_spec(u) {
                    let i = choose|i: int| 0 <= i < rest.len() && rest[i] == (p[k].slot, p[k].entity);
                    assert(s.contains(rest[i]));
                }
            }
        }
    }
}

/// An event of the whole field goes to every living unit once and to no
/// other: sending it adds one delivery per living unit, each of that event,
/// owned by a living unit on the field, with every living unit among the
/// owners; a death or a summon names the unit as the target, any other such
/// event keeps the target of `ctx`.
pub proof fn lemma_broadcast_delivery(e: Event, ctx: Context, units: Seq<Unit>, before: Seq<(Event, Context)>, after: Seq<(Event, Context)>)
    requires
        after == before + deliveries(e, recipients(e, ctx, units).0, recipients(e, ctx, units).1),
        e is BattleStart || e is TurnStart || e is TurnEnd || e is Death || e is Summon || e is UseAbility,
    ensures
        ({
            let n = before.len();
            &&& after.len() == n + living(units).len()
            &&& after.subrange(0, n as int) == before
            &&& forall|j: int| n <= j < after.len() ==> {
                &&& (#[trigger] after[j]).0 == e
                &&& exists|k: int| 0 <= k < units.len() && !is_dead_spec(#[trigger] units[k]) && units[k].entity == after[j].1.owner
                &&& after[j].1.target == match e {
                    Event::Death(t) => Some(t),
                    Event::Summon(t) => Some(t),
                    _ => ctx.target,
                }
                &&& after[j].1.parent == ctx.parent
                &&& after[j].1.caster == ctx.caster
                &&& after[j].1.vars == ctx.vars
            }
            &&& forall|k: int| 0 <= k < units.len() && !is_dead_spec(#[trigger] units[k]) ==>
                exists|j: int| n <= j < after.len() && (#[trigger] after[j]).1.owner == units[k].entity
        }),
{
    lemma_alive_by_slot(units);
    let s = alive_by_slot(units);
    let owners = s.map_values(|p: (i32, Entity)| p.1);
    let n = before.len();
    assert(recipients(e, ctx, units).0 == owners);
    assert(after.subrange(0, n as int) =~= before);
    assert forall|j: int| #![trigger after[j]] n <= j < after.len() implies exists|k: int| 0 <= k < units.len() && !is_dead_spec(#[trigger] units[k]) && units[k].entity == after[j].1.owner by {
        assert(after[j].1.owner == owners[j - n]);
        assert(alive_at(units, s[j - n]));
    }
    assert forall|k: int| 0 <= k < units.len() && !is_dead_spec(#[trigger] units[k]) implies
        exists|j: int| n <= j < after.len() && (#[trigger] after[j]).1.owner == units[k].entity by {
        let i = choose|i: int| 0 <= i < s.len() && s[i] == (units[k].slot, units[k].entity);
        assert(after[n + i].1.owner == owners[i]);
    }
}

} // verus!
