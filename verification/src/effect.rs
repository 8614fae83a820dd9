//! Effects: what abilities, statuses and strikes do to the battle world.
use vstd::prelude::*;
use crate::world::{World, Entity, Context, Unit, Ability, VarName, VarValue, EvalError, vars_get, vars_set, unit_index, unit_var, find_unit, first_index, lemma_first_index, same_but_units, same_but_actions, change_charges, change_status_charges};
use crate::expression::{ExpressionEntity, ExpressionInt, det_entity, det_int, eval_entity, eval_int, entity_outcome, int_outcome};
use crate::action::{Action, ActionPlugin};

verus! {

/// Something that happens to the battle world.
#[derive(Debug)]
pub enum Effect {
    Noop,
    /// Deals damage to the target: the `Damage` variable where it is set,
    /// otherwise the owner's power.
    Damage,
    /// Changes the charges of a status on the target by the `Charges`
    /// variable, or by one where it is not set.
    ChangeStatus(String),
    /// Runs an ability's effect, with `Charges` set to the level plus the
    /// given amount.
    UseAbility(String, i32),
    /// Runs the inner effect on the entity the formula names.
    WithTarget(ExpressionEntity, Box<Effect>),
    /// Runs the inner effect with a variable set to the formula's value.
    WithVar(VarName, ExpressionInt, Box<Effect>),
}

} // verus!

verus! {

/// The value of a variable as an effect sees it: the context's own binding,
/// otherwise the owner's state.
pub open spec fn ctx_var(ctx: Context, units: Seq<Unit>, var: VarName) -> Option<VarValue> {
    match vars_get(ctx.vars, var) {
        Some(v) => Some(v),
        None => {
            let i = unit_index(units, ctx.owner);
            if i >= 0 { unit_var(units[i], var) } else { None }
        },
    }
}

/// The damage a `Damage` effect deals: the `Damage` variable, or else the
/// power. The power must be readable in either case.
pub open spec fn damage_amount(ctx: Context, units: Seq<Unit>) -> Result<i32, EvalError> {
    match ctx_var(ctx, units, VarName::Pwr) {
        None => Err(EvalError::VarNotFound),
        Some(p) => {
            let v = match ctx_var(ctx, units, VarName::Damage) {
                Some(d) => d,
                None => p,
            };
            match v {
                VarValue::Int(x) => Ok(x),
                _ => Err(EvalError::VarNotFound),
            }
        },
    }
}

/// The change of charges a `ChangeStatus` effect makes.
pub open spec fn charges_delta(ctx: Context, units: Seq<Unit>) -> Result<i32, EvalError> {
    match ctx_var(ctx, units, VarName::Charges) {
        None => Ok(1),
        Some(VarValue::Int(x)) => Ok(x),
        _ => Err(EvalError::VarNotFound),
    }
}

/// The charges an ability runs with: its level (1 where none is set) plus `base`.
pub open spec fn ability_charges(ctx: Context, units: Seq<Unit>, base: i32) -> Result<i32, EvalError> {
    match ctx_var(ctx, units, VarName::Level) {
        None => Ok(1i32.wrapping_add(base)),
        Some(VarValue::Int(l)) => Ok(l.wrapping_add(base)),
        _ => Err(EvalError::VarNotFound),
    }
}

/// The position of the ability of that name, or -1.
pub open spec fn ability_index(abilities: Seq<Ability>, name: Seq<char>) -> int {
    first_index(abilities, |a: Ability| a.name@ == name)
}

/// The value of a variable as an effect sees it.
pub fn get_var(ctx: &Context, units: &Vec<Unit>, var: VarName) -> (r: Option<VarValue>)
    ensures
        r == ctx_var(*ctx, units@, var),
{
    match ctx.vars.get(var) {
        Some(v) => Some(v),
        None => match find_unit(units, ctx.owner) {
            Some(i) => units[i].var(var),
            None => None,
        },
    }
}

/// The position of an ability.
pub fn find_ability(abilities: &Vec<Ability>, name: &String) -> (r: Option<usize>)
    ensures
        match r {
            Some(i) => i as int == ability_index(abilities@, name@) && i < abilities.len(),
            None => ability_index(abilities@, name@) == -1,
        },
{
    let ghost p = |a: Ability| a.name@ == name@;
    proof {
        lemma_first_index(abilities@, p);
    }
    let mut i: usize = 0;
    while i < abilities.len()
        invariant
            0 <= i <= abilities.len(),
            p == (|a: Ability| a.name@ == name@),
            -1 <= first_index(abilities@, p) < abilities.len(),
            first_index(abilities@, p) >= 0 ==> p(abilities@[first_index(abilities@, p)]),
            first_index(abilities@, p) == -1 || i <= first_index(abilities@, p),
            forall|j: int| 0 <= j < abilities.len() && (first_index(abilities@, p) == -1 || j < first_index(abilities@, p)) ==> !p(#[trigger] abilities@[j]),
        decreases abilities.len() - i,
    {
        let same = abilities[i].name == *name;
        assert(same == (abilities@[i as int].name@ == name@));
        if same {
            assert(p(abilities@[i as int]));
            return Some(i);
        }
        i = i + 1;
    }
    None
}

/// What running the effect `e` in context `c0` on world `w0` may give: the
/// result `r`, the context `c1` and the world `w1`. On an error nothing
/// changes.
pub open spec fn invoke_rel(e: Effect, c0: Context, w0: World, r: Result<(), EvalError>, c1: Context, w1: World) -> bool {
    &&& r is Err ==> c1 == c0 && w1 == w0
    &&& w1.field.units@.len() == w0.field.units@.len()
    &&& forall|k: int| 0 <= k < w1.field.units@.len() ==> (#[trigger] w1.field.units@[k]).faction == w0.field.units@[k].faction
    &&& match e {
        Effect::Noop => r is Ok && c1 == c0 && w1 == w0,
        Effect::Damage => c1 == c0 && match c0.target {
            None => r == Err::<(), EvalError>(EvalError::NoTarget),
            Some(t) => match damage_amount(c0, w0.field.units@) {
                Err(e) => r == Err::<(), EvalError>(e),
                Ok(v) => if v <= 0 {
                    r is Ok && w1 == w0
                } else if unit_index(w0.field.units@, t) < 0 {
                    r == Err::<(), EvalError>(EvalError::NotAUnit)
                } else {
                    let i = unit_index(w0.field.units@, t);
                    let u = w0.field.units@[i];
                    &&& r is Ok
                    &&& w1.field.units@ == w0.field.units@.update(i, Unit { dmg: u.dmg.wrapping_add(v), ..u })
                    &&& same_but_units(w1, w0)
                },
            },
        },
        Effect::ChangeStatus(name) => c1 == c0 && match charges_delta(c0, w0.field.units@) {
            Err(e) => r == Err::<(), EvalError>(e),
            Ok(d) => match c0.target {
                None => r == Err::<(), EvalError>(EvalError::NoTarget),
                Some(t) => if unit_index(w0.field.units@, t) < 0 {
                    r == Err::<(), EvalError>(EvalError::NotAUnit)
                } else {
                    let i = unit_index(w0.field.units@, t);
                    let u = w0.field.units@[i];
                    &&& r is Ok
                    &&& w1.field.units@ == w0.field.units@.update(i, Unit { statuses: w1.field.units@[i].statuses, ..u })
                    &&& w1.field.units@[i].statuses@ == change_charges(u.statuses@, name, d)
                    &&& same_but_units(w1, w0)
                },
            },
        },
        Effect::UseAbility(name, base) => c1 == c0 && {
            let i = ability_index(w0.field.abilities@, name@);
            if i < 0 {
                r == Err::<(), EvalError>(EvalError::AbilityNotFound)
            } else {
                match ability_charges(c0, w0.field.units@, base) {
                    Err(e) => r == Err::<(), EvalError>(e),
                    Ok(c) => {
                        let ctx = Context { caster: Some(c0.owner), vars: vars_set(c0.vars, VarName::Charges, VarValue::Int(c)), ..c0 };
                        &&& r is Ok
                        &&& w1.actions@ == seq![Action { effect: w0.field.abilities@[i].effect, context: ctx }] + w0.actions@
                        &&& same_but_actions(w1, w0)
                    },
                }
            }
        },
        Effect::WithTarget(target, inner) => {
            &&& det_entity(target) ==> match eval_entity(target, c0, w0.field.world_entity, w0.field.units@, w0.field.ability_vars@) {
                Err(e) => r == Err::<(), EvalError>(e),
                Ok(t) => r is Ok && c1.target == Some(t),
            }
            &&& match r {
                Err(x) => entity_outcome(target, c0, w0.field.world_entity, w0.field.units@, w0.field.ability_vars@, Err::<Entity, EvalError>(x)),
                Ok(_) => c1.target is Some && entity_outcome(target, c0, w0.field.world_entity, w0.field.units@, w0.field.ability_vars@, Ok::<Entity, EvalError>(c1.target->Some_0)),
            }
            &&& r is Ok ==> {
                &&& c1.target is Some
                &&& c1 == Context { target: c1.target, ..c0 }
                &&& w1.actions@ == seq![Action { effect: *inner, context: c1 }] + w0.actions@
                &&& same_but_actions(w1, w0)
            }
        },
        Effect::WithVar(var, value, inner) => {
            &&& det_int(value) ==> match eval_int(value, c0, w0.field.world_entity, w0.field.units@, w0.field.ability_vars@) {
                Err(e) => r == Err::<(), EvalError>(e),
                Ok(v) => r is Ok && c1.vars == vars_set(c0.vars, var, VarValue::Int(v)),
            }
            &&& match r {
                Err(x) => int_outcome(value, c0, w0.field.world_entity, w0.field.units@, w0.field.ability_vars@, Err::<i32, EvalError>(x)),
                Ok(_) => exists|v: i32| #[trigger] vars_set(c0.vars, var, VarValue::Int(v)) == c1.vars
                    && int_outcome(value, c0, w0.field.world_entity, w0.field.units@, w0.field.ability_vars@, Ok::<i32, EvalError>(v)),
            }
            &&& r is Ok ==> {
                &&& c1 == Context { vars: c1.vars, ..c0 }
                &&& w1.actions@ == seq![Action { effect: *inner, context: c1 }] + w0.actions@
                &&& same_but_actions(w1, w0)
            }
        },
    }
}

impl Effect {
    /// A copy of the effect.
    pub fn copy(&self) -> (r: Effect)
        ensures
            r == *self,
        decreases self,
    {
        match self {
            Effect::Noop => Effect::Noop,
            Effect::Damage => Effect::Damage,
            Effect::ChangeStatus(name) => Effect::ChangeStatus(name.clone()),
            Effect::UseAbility(name, base) => Effect::UseAbility(name.clone(), *base),
            Effect::WithTarget(e, inner) => Effect::WithTarget(e.copy(), Box::new(inner.copy())),
            Effect::WithVar(var, e, inner) => Effect::WithVar(*var, e.copy(), Box::new(inner.copy())),
        }
    }

    /// Runs the effect in `context`. On an error nothing changes.
    pub fn invoke(&self, context: &mut Context, world: &mut World) -> (r: Result<(), EvalError>)
        ensures
            invoke_rel(*self, *old(context), *old(world), r, *final(context), *final(world)),
    {
        match self {
            Effect::Noop => Ok(()),
            Effect::Damage => {
                let target = match context.target {
                    Some(t) => t,
                    None => return Err(EvalError::NoTarget),
                };
                let pwr = match get_var(context, &world.field.units, VarName::Pwr) {
                    Some(p) => p,
                    None => return Err(EvalError::VarNotFound),
                };
                let v = match get_var(context, &world.field.units, VarName::Damage) {
                    Some(d) => d,
                    None => pwr,
                };
                let value = match v {
                    VarValue::Int(x) => x,
                    _ => return Err(EvalError::VarNotFound),
                };
                if value > 0 {
                    match find_unit(&world.field.units, target) {
                        None => Err(EvalError::NotAUnit),
                        Some(i) => {
                            let mut u = world.field.units.remove(i);
                            u.dmg = u.dmg.wrapping_add(value);
                            world.field.units.insert(i, u);
                            assert(world.field.units@ =~= old(world).field.units@.update(i as int, Unit { dmg: old(world).field.units@[i as int].dmg.wrapping_add(value), ..old(world).field.units@[i as int] }));
                            Ok(())
                        },
                    }
                } else {
                    Ok(())
                }
            },
            Effect::ChangeStatus(name) => {
                let delta = match get_var(context, &world.field.units, VarName::Charges) {
                    None => 1i32,
                    Some(VarValue::Int(x)) => x,
                    Some(_) => return Err(EvalError::VarNotFound),
                };
                let target = match context.target {
                    Some(t) => t,
                    None => return Err(EvalError::NoTarget),
                };
                match find_unit(&world.field.units, target) {
                    None => Err(EvalError::NotAUnit),
                    Some(i) => {
                        let mut u = world.field.units.remove(i);
                        change_status_charges(&mut u.statuses, name.clone(), delta);
                        world.field.units.insert(i, u);
                        assert(world.field.units@ =~= old(world).field.units@.update(i as int, Unit { statuses: world.field.units@[i as int].statuses, ..old(world).field.units@[i as int] }));
                        Ok(())
                    },
                }
            },
            Effect::UseAbility(name, base) => {
                let i = match find_ability(&world.field.abilities, name) {
                    Some(i) => i,
                    None => return Err(EvalError::AbilityNotFound),
                };
                let level = match get_var(context, &world.field.units, VarName::Level) {
                    None => 1i32,
                    Some(VarValue::Int(l)) => l,
                    Some(_) => return Err(EvalError::VarNotFound),
                };
                let charges = level.wrapping_add(*base);
                let effect = world.field.abilities[i].effect.copy();
                let mut ctx = *context;
                ctx.set_var(VarName::Charges, VarValue::Int(charges));
                ctx.caster = Some(context.owner);
                ActionPlugin::action_push_front(effect, ctx, world);
                Ok(())
            },
            Effect::WithTarget(target, inner) => {
                let t = match target.calculate(context, world.field.world_entity, &world.field.units, &world.field.ability_vars) {
                    Ok(t) => t,
                    Err(e) => return Err(e),
                };
                context.target = Some(t);
                ActionPlugin::action_push_front(inner.copy(), *context, world);
                Ok(())
            },
            Effect::WithVar(var, value, inner) => {
                let v = match value.calculate(context, world.field.world_entity, &world.field.units, &world.field.ability_vars) {
                    Ok(v) => v,
                    Err(e) => return Err(e),
                };
                context.set_var(*var, VarValue::Int(v));
                ActionPlugin::action_push_front(inner.copy(), *context, world);
                Ok(())
            },
        }
    }
}

/// A blow deals the attacker's power, or the damage its context names, to
/// the target: when the attacker `ko` and the target `kt` stand on the
/// field, the target's damage grows by that amount, as `i32` arithmetic
/// wraps, and no other unit and nothing else changes; a blow of no force
/// changes nothing.
pub proof fn lemma_blow_hurts_target(c0: Context, w0: World, r: Result<(), EvalError>, c1: Context, w1: World, ko: int, kt: int)
    requires
        invoke_rel(Effect::Damage, c0, w0, r, c1, w1),
        vars_get(c0.vars, VarName::Pwr) is None,
        vars_get(c0.vars, VarName::Damage) is None || vars_get(c0.vars, VarName::Damage) matches Some(VarValue::Int(_)),
        unit_index(w0.field.units@, c0.owner) == ko,
        c0.target matches Some(t) && unit_index(w0.field.units@, t) == kt,
        0 <= ko < w0.field.units@.len(),
        0 <= kt < w0.field.units@.len(),
    ensures
        ({
            let units = w0.field.units@;
            let amount = match vars_get(c0.vars, VarName::Damage) {
                Some(VarValue::Int(d)) => d,
                _ => units[ko].pwr,
            };
            &&& r is Ok
            &&& c1 == c0
            &&& amount <= 0 ==> w1 == w0
            &&& amount > 0 ==> {
                &&& w1.field.units@.len() == units.len()
                &&& w1.field.units@[kt].dmg == units[kt].dmg.wrapping_add(amount)
                &&& w1.field.units@[kt].hp == units[kt].hp
                &&& w1.field.units@[kt].pwr == units[kt].pwr
                &&& w1.field.units@[kt].entity == units[kt].entity
                &&& forall|k: int| 0 <= k < units.len() && k != kt ==> #[trigger] w1.field.units@[k] == units[k]
                &&& w1.actions == w0.actions
                &&& w1.events == w0.events
            }
        }),
{
}

} // verus!
