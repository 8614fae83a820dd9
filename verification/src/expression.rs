//! Expressions: integer, entity and faction valued formulas and the
//! conditions between them, evaluated in a context over the battle world.
use vstd::prelude::*;
use crate::world::{Entity, Faction, VarName, VarValue, EvalError, Context, Unit, AbilityVar, opposite_of, vars_get, faction_of, unit_faction, first_index, at_slot, find_unit_at_slot, unit_index, unit_var, find_unit, ability_var_value, get_ability_var};
use crate::random::pick_index;

verus! {

/// A formula whose value is an integer.
#[derive(Debug)]
pub enum ExpressionInt {
    Sum { a: Box<ExpressionInt>, b: Box<ExpressionInt> },
    Sub { a: Box<ExpressionInt>, b: Box<ExpressionInt> },
    Mul { a: Box<ExpressionInt>, b: Box<ExpressionInt> },
    Max { a: Box<ExpressionInt>, b: Box<ExpressionInt> },
    If { condition: Box<Condition>, then: Box<ExpressionInt>, otherwise: Box<ExpressionInt> },
    Const { value: i32 },
    /// A variable of the context.
    Var { var: VarName },
    /// A variable of another entity's state.
    EntityVar { var: VarName, entity: ExpressionEntity },
    /// A variable that an ability holds for the owner's faction.
    AbilityVar { ability: String, var: VarName },
}

/// A formula whose value is an entity.
#[derive(Debug)]
pub enum ExpressionEntity {
    World,
    Target,
    Parent,
    Owner,
    /// The unit of a faction in a slot.
    FindUnit { slot: Box<ExpressionInt>, faction: ExpressionFaction },
    /// A unit of a faction picked at random.
    RandomUnit { faction: ExpressionFaction },
}

/// A formula whose value is a faction.
#[derive(Debug)]
pub enum ExpressionFaction {
    Owner,
    Target,
    Parent,
    Opposite { faction: Box<ExpressionFaction> },
    Var { var: VarName },
}

/// A condition over integer formulas and the battle field.
#[derive(Debug)]
pub enum Condition {
    EqualsInt { a: ExpressionInt, b: ExpressionInt },
    LessInt { a: ExpressionInt, b: ExpressionInt },
    MoreInt { a: ExpressionInt, b: ExpressionInt },
    /// Some unit of the faction stands in the slot.
    SlotOccupied { slot: ExpressionInt, faction: Faction },
}

/// The faction of a unit, or an error when the entity is no unit.
pub open spec fn unit_faction_result(units: Seq<Unit>, e: Entity) -> Result<Faction, EvalError> {
    match faction_of(units, e) {
        Some(f) => Ok(f),
        None => Err(EvalError::NotAUnit),
    }
}

/// The value of a faction formula.
pub open spec fn eval_faction(f: ExpressionFaction, ctx: Context, units: Seq<Unit>) -> Result<Faction, EvalError>
    decreases f,
{
    match f {
        ExpressionFaction::Owner => unit_faction_result(units, ctx.owner),
        ExpressionFaction::Target => match ctx.target {
            Some(t) => unit_faction_result(units, t),
            None => Err(EvalError::NoTarget),
        },
        ExpressionFaction::Parent => match ctx.parent {
            Some(p) => unit_faction_result(units, p),
            None => Err(EvalError::NoParent),
        },
        ExpressionFaction::Opposite { faction } => match eval_faction(*faction, ctx, units) {
            Ok(x) => Ok(opposite_of(x)),
            Err(e) => Err(e),
        },
        ExpressionFaction::Var { var } => match vars_get(ctx.vars, var) {
            Some(VarValue::Faction(x)) => Ok(x),
            _ => Err(EvalError::VarNotFound),
        },
    }
}

/// Whether a formula leaves nothing to chance.
pub open spec fn det_entity(e: ExpressionEntity) -> bool
    decreases e,
{
    match e {
        ExpressionEntity::FindUnit { slot, faction } => det_int(*slot),
        ExpressionEntity::RandomUnit { .. } => false,
        _ => true,
    }
}

pub open spec fn det_int(e: ExpressionInt) -> bool
    decreases e,
{
    match e {
        ExpressionInt::Sum { a, b } => det_int(*a) && det_int(*b),
        ExpressionInt::Sub { a, b } => det_int(*a) && det_int(*b),
        ExpressionInt::Mul { a, b } => det_int(*a) && det_int(*b),
        ExpressionInt::Max { a, b } => det_int(*a) && det_int(*b),
        ExpressionInt::If { condition, then, otherwise } => det_cond(*condition) && det_int(*then) && det_int(*otherwise),
        ExpressionInt::EntityVar { var, entity } => det_entity(entity),
        _ => true,
    }
}

pub open spec fn det_cond(c: Condition) -> bool
    decreases c,
{
    match c {
        Condition::EqualsInt { a, b } => det_int(a) && det_int(b),
        Condition::LessInt { a, b } => det_int(a) && det_int(b),
        Condition::MoreInt { a, b } => det_int(a) && det_int(b),
        Condition::SlotOccupied { slot, faction } => det_int(slot),
    }
}

/// The value of an entity formula. The unit that `RandomUnit` picks is left
/// open: contracts speak of this value only for formulas without chance.
pub open spec fn eval_entity(e: ExpressionEntity, ctx: Context, world_entity: Entity, units: Seq<Unit>, ab: Seq<AbilityVar>) -> Result<Entity, EvalError>
    decreases e,
{
    match e {
        ExpressionEntity::World => Ok(world_entity),
        ExpressionEntity::Target => match ctx.target {
            Some(t) => Ok(t),
            None => Err(EvalError::NoTarget),
        },
        ExpressionEntity::Parent => match ctx.parent {
            Some(p) => Ok(p),
            None => Err(EvalError::NoParent),
        },
        ExpressionEntity::Owner => Ok(ctx.owner),
        ExpressionEntity::FindUnit { slot, faction } => match eval_int(*slot, ctx, world_entity, units, ab) {
            Err(e) => Err(e),
            Ok(s) => match eval_faction(faction, ctx, units) {
                Err(e) => Err(e),
                Ok(f) => {
                    let i = first_index(units, at_slot(f, s));
                    if i >= 0 { Ok(units[i].entity) } else { Err(EvalError::UnitNotFound) }
                },
            },
        },
        ExpressionEntity::RandomUnit { faction } => arbitrary(),
    }
}

/// The value of an integer formula. Sums, differences and products wrap
/// around on overflow as `i32` arithmetic of a release build does.
pub open spec fn eval_int(e: ExpressionInt, ctx: Context, world_entity: Entity, units: Seq<Unit>, ab: Seq<AbilityVar>) -> Result<i32, EvalError>
    decreases e,
{
    match e {
        ExpressionInt::Sum { a, b } => match eval_int(*a, ctx, world_entity, units, ab) {
            Err(e) => Err(e),
            Ok(x) => match eval_int(*b, ctx, world_entity, units, ab) {
                Err(e) => Err(e),
                Ok(y) => Ok(x.wrapping_add(y)),
            },
        },
        ExpressionInt::Sub { a, b } => match eval_int(*a, ctx, world_entity, units, ab) {
            Err(e) => Err(e),
            Ok(x) => match eval_int(*b, ctx, world_entity, units, ab) {
                Err(e) => Err(e),
                Ok(y) => Ok(x.wrapping_sub(y)),
            },
        },
        ExpressionInt::Mul { a, b } => match eval_int(*a, ctx, world_entity, units, ab) {
            Err(e) => Err(e),
            Ok(x) => match eval_int(*b, ctx, world_entity, units, ab) {
                Err(e) => Err(e),
                Ok(y) => Ok(x.wrapping_mul(y)),
            },
        },
        ExpressionInt::Max { a, b } => match eval_int(*a, ctx, world_entity, units, ab) {
            Err(e) => Err(e),
            Ok(x) => match eval_int(*b, ctx, world_entity, units, ab) {
                Err(e) => Err(e),
                Ok(y) => Ok(if x >= y { x } else { y }),
            },
        },
        ExpressionInt::If { condition, then, otherwise } => match eval_cond(*condition, ctx, world_entity, units, ab) {
            Err(e) => Err(e),
            Ok(true) => eval_int(*then, ctx, world_entity, units, ab),
            Ok(false) => eval_int(*otherwise, ctx, world_entity, units, ab),
        },
        ExpressionInt::Const { value } => Ok(value),
        ExpressionInt::Var { var } => match vars_get(ctx.vars, var) {
            Some(VarValue::Int(x)) => Ok(x),
            _ => Err(EvalError::VarNotFound),
        },
        ExpressionInt::EntityVar { var, entity } => match eval_entity(entity, ctx, world_entity, units, ab) {
            Err(e) => Err(e),
            Ok(x) => {
                let i = unit_index(units, x);
                if i < 0 {
                    Err(EvalError::NotAUnit)
                } else {
                    match unit_var(units[i], var) {
                        Some(VarValue::Int(v)) => Ok(v),
                        _ => Err(EvalError::VarNotFound),
                    }
                }
            },
        },
        ExpressionInt::AbilityVar { ability, var } => match unit_faction_result(units, ctx.owner) {
            Err(e) => Err(e),
            Ok(f) => Ok(ability_var_value(ab, f, ability@, var)),
        },
    }
}

/// The value of a condition.
pub open spec fn eval_cond(c: Condition, ctx: Context, world_entity: Entity, units: Seq<Unit>, ab: Seq<AbilityVar>) -> Result<bool, EvalError>
    decreases c,
{
    match c {
        Condition::EqualsInt { a, b } => match eval_int(a, ctx, world_entity, units, ab) {
            Err(e) => Err(e),
            Ok(x) => match eval_int(b, ctx, world_entity, units, ab) {
                Err(e) => Err(e),
                Ok(y) => Ok(x == y),
            },
        },
        Condition::LessInt { a, b } => match eval_int(a, ctx, world_entity, units, ab) {
            Err(e) => Err(e),
            Ok(x) => match eval_int(b, ctx, world_entity, units, ab) {
                Err(e) => Err(e),
                Ok(y) => Ok(x < y),
            },
        },
        Condition::MoreInt { a, b } => match eval_int(a, ctx, world_entity, units, ab) {
            Err(e) => Err(e),
            Ok(x) => match eval_int(b, ctx, world_entity, units, ab) {
                Err(e) => Err(e),
                Ok(y) => Ok(x > y),
            },
        },
        Condition::SlotOccupied { slot, faction } => match eval_int(slot, ctx, world_entity, units, ab) {
            Err(e) => Err(e),
            Ok(s) => Ok(first_index(units, at_slot(faction, s)) >= 0),
        },
    }
}

/// A variable of the unit an entity outcome names, or the error on the way.
pub open spec fn entity_var_result(re: Result<Entity, EvalError>, units: Seq<Unit>, var: VarName) -> Result<i32, EvalError> {
    match re {
        Err(e) => Err(e),
        Ok(x) => {
            let i = unit_index(units, x);
            if i < 0 {
                Err(EvalError::NotAUnit)
            } else {
                match unit_var(units[i], var) {
                    Some(VarValue::Int(v)) => Ok(v),
                    _ => Err(EvalError::VarNotFound),
                }
            }
        },
    }
}

/// A result that a part of a formula gave; it names the witness of an
/// outcome.
pub open spec fn sub_result<T>(r: Result<T, EvalError>) -> bool {
    true
}

/// The operation of a two-operand integer formula on its operands' values.
pub open spec fn int_op(e: ExpressionInt, x: i32, y: i32) -> i32 {
    match e {
        ExpressionInt::Sum { .. } => x.wrapping_add(y),
        ExpressionInt::Sub { .. } => x.wrapping_sub(y),
        ExpressionInt::Mul { .. } => x.wrapping_mul(y),
        _ => if x >= y { x } else { y },
    }
}

/// The comparison of a two-operand condition on its operands' values.
pub open spec fn cond_op(c: Condition, x: i32, y: i32) -> bool {
    match c {
        Condition::EqualsInt { .. } => x == y,
        Condition::LessInt { .. } => x < y,
        _ => x > y,
    }
}

/// Whether `r` is a value that the entity formula may take: a random pick
/// names some unit of its faction, or fails when the faction has none; any
/// other formula takes the value of its parts as `eval_entity` does.
pub open spec fn entity_outcome(e: ExpressionEntity, ctx: Context, world_entity: Entity, units: Seq<Unit>, ab: Seq<AbilityVar>, r: Result<Entity, EvalError>) -> bool
    decreases e,
{
    match e {
        ExpressionEntity::RandomUnit { faction } => match eval_faction(faction, ctx, units) {
            Err(x) => r == Err::<Entity, EvalError>(x),
            Ok(f) => if of_faction(units, f).len() == 0 {
                r == Err::<Entity, EvalError>(EvalError::UnitNotFound)
            } else {
                r is Ok && of_faction(units, f).contains(r->Ok_0)
            },
        },
        ExpressionEntity::FindUnit { slot, faction } => exists|rs: Result<i32, EvalError>| #[trigger] sub_result(rs) &&
            int_outcome(*slot, ctx, world_entity, units, ab, rs) && r == match rs {
                Err(x) => Err(x),
                Ok(s) => match eval_faction(faction, ctx, units) {
                    Err(x) => Err(x),
                    Ok(f) => {
                        let i = first_index(units, at_slot(f, s));
                        if i >= 0 { Ok(units[i].entity) } else { Err(EvalError::UnitNotFound) }
                    },
                },
            },
        _ => r == eval_entity(e, ctx, world_entity, units, ab),
    }
}

/// Whether `r` is a value that the integer formula may take, each random
/// pick within it naming some unit of its faction.
pub open spec fn int_outcome(e: ExpressionInt, ctx: Context, world_entity: Entity, units: Seq<Unit>, ab: Seq<AbilityVar>, r: Result<i32, EvalError>) -> bool
    decreases e,
{
    match e {
        ExpressionInt::Sum { a, b } =>
            exists|ra: Result<i32, EvalError>| #[trigger] sub_result(ra) && int_outcome(*a, ctx, world_entity, units, ab, ra) && match ra {
                Err(x) => r == Err::<i32, EvalError>(x),
                Ok(x) => exists|rb: Result<i32, EvalError>| #[trigger] sub_result(rb) && int_outcome(*b, ctx, world_entity, units, ab, rb) && r == match rb {
                    Err(y) => Err(y),
                    Ok(y) => Ok(int_op(e, x, y)),
                },
            },
        ExpressionInt::Sub { a, b } =>
            exists|ra: Result<i32, EvalError>| #[trigger] sub_result(ra) && int_outcome(*a, ctx, world_entity, units, ab, ra) && match ra {
                Err(x) => r == Err::<i32, EvalError>(x),
                Ok(x) => exists|rb: Result<i32, EvalError>| #[trigger] sub_result(rb) && int_outcome(*b, ctx, world_entity, units, ab, rb) && r == match rb {
                    Err(y) => Err(y),
                    Ok(y) => Ok(int_op(e, x, y)),
                },
            },
        ExpressionInt::Mul { a, b } =>
            exists|ra: Result<i32, EvalError>| #[trigger] sub_result(ra) && int_outcome(*a, ctx, world_entity, units, ab, ra) && match ra {
                Err(x) => r == Err::<i32, EvalError>(x),
                Ok(x) => exists|rb: Result<i32, EvalError>| #[trigger] sub_result(rb) && int_outcome(*b, ctx, world_entity, units, ab, rb) && r == match rb {
                    Err(y) => Err(y),
                    Ok(y) => Ok(int_op(e, x, y)),
                },
            },
        ExpressionInt::Max { a, b } =>
            exists|ra: Result<i32, EvalError>| #[trigger] sub_result(ra) && int_outcome(*a, ctx, world_entity, units, ab, ra) && match ra {
                Err(x) => r == Err::<i32, EvalError>(x),
                Ok(x) => exists|rb: Result<i32, EvalError>| #[trigger] sub_result(rb) && int_outcome(*b, ctx, world_entity, units, ab, rb) && r == match rb {
                    Err(y) => Err(y),
                    Ok(y) => Ok(int_op(e, x, y)),
                },
            },
        ExpressionInt::If { condition, then, otherwise } =>
            exists|rc: Result<bool, EvalError>| #[trigger] sub_result(rc) && cond_outcome(*condition, ctx, world_entity, units, ab, rc) && match rc {
                Err(x) => r == Err::<i32, EvalError>(x),
                Ok(true) => int_outcome(*then, ctx, world_entity, units, ab, r),
                Ok(false) => int_outcome(*otherwise, ctx, world_entity, units, ab, r),
            },
        ExpressionInt::EntityVar { var, entity } =>
            exists|re: Result<Entity, EvalError>| #[trigger] sub_result(re) && entity_outcome(entity, ctx, world_entity, units, ab, re)
                && r == entity_var_result(re, units, var),
        _ => r == eval_int(e, ctx, world_entity, units, ab),
    }
}

/// Whether `r` is a value that the condition may take, each random pick
/// within it naming some unit of its faction.
pub open spec fn cond_outcome(c: Condition, ctx: Context, world_entity: Entity, units: Seq<Unit>, ab: Seq<AbilityVar>, r: Result<bool, EvalError>) -> bool
    decreases c,
{
    match c {
        Condition::SlotOccupied { slot, faction } => exists|rs: Result<i32, EvalError>| #[trigger] sub_result(rs) &&
            int_outcome(slot, ctx, world_entity, units, ab, rs) && r == match rs {
                Err(x) => Err(x),
                Ok(s) => Ok(first_index(units, at_slot(faction, s)) >= 0),
            },
        Condition::EqualsInt { a, b } =>
            exists|ra: Result<i32, EvalError>| #[trigger] sub_result(ra) && int_outcome(a, ctx, world_entity, units, ab, ra) && match ra {
                Err(x) => r == Err::<bool, EvalError>(x),
                Ok(x) => exists|rb: Result<i32, EvalError>| #[trigger] sub_result(rb) && int_outcome(b, ctx, world_entity, units, ab, rb) && r == match rb {
                    Err(y) => Err(y),
                    Ok(y) => Ok(cond_op(c, x, y)),
                },
            },
        Condition::LessInt { a, b } =>
            exists|ra: Result<i32, EvalError>| #[trigger] sub_result(ra) && int_outcome(a, ctx, world_entity, units, ab, ra) && match ra {
                Err(x) => r == Err::<bool, EvalError>(x),
                Ok(x) => exists|rb: Result<i32, EvalError>| #[trigger] sub_result(rb) && int_outcome(b, ctx, world_entity, units, ab, rb) && r == match rb {
                    Err(y) => Err(y),
                    Ok(y) => Ok(cond_op(c, x, y)),
                },
            },
        Condition::MoreInt { a, b } =>
            exists|ra: Result<i32, EvalError>| #[trigger] sub_result(ra) && int_outcome(a, ctx, world_entity, units, ab, ra) && match ra {
                Err(x) => r == Err::<bool, EvalError>(x),
                Ok(x) => exists|rb: Result<i32, EvalError>| #[trigger] sub_result(rb) && int_outcome(b, ctx, world_entity, units, ab, rb) && r == match rb {
                    Err(y) => Err(y),
                    Ok(y) => Ok(cond_op(c, x, y)),
                },
            },
    }
}

/// The units of a faction, in the order of the field.
pub open spec fn of_faction(units: Seq<Unit>, f: Faction) -> Seq<Entity>
    decreases units.len(),
{
    if units.len() == 0 {
        Seq::empty()
    } else {
        let rest = of_faction(units.drop_last(), f);
        if units.last().faction == f { rest.push(units.last().entity) } else { rest }
    }
}

/// The entities of the units of a faction.
pub fn collect_faction(units: &Vec<Unit>, f: Faction) -> (r: Vec<Entity>)
    ensures
        r@ == of_faction(units@, f),
{
    let mut r: Vec<Entity> = Vec::new();
    let mut i: usize = 0;
    while i < units.len()
        invariant
            0 <= i <= units.len(),
            r@ == of_faction(units@.subrange(0, i as int), f),
        decreases units.len() - i,
    {
        assert(units@.subrange(0, i + 1).drop_last() =~= units@.subrange(0, i as int));
        if units[i].faction == f {
            r.push(units[i].entity);
        }
        i = i + 1;
    }
    assert(units@.subrange(0, units.len() as int) =~= units@);
    r
}

impl ExpressionFaction {
    /// A copy of the formula.
    pub fn copy(&self) -> (r: ExpressionFaction)
        ensures
            r == *self,
        decreases self,
    {
        match self {
            ExpressionFaction::Owner => ExpressionFaction::Owner,
            ExpressionFaction::Target => ExpressionFaction::Target,
            ExpressionFaction::Parent => ExpressionFaction::Parent,
            ExpressionFaction::Opposite { faction } => ExpressionFaction::Opposite { faction: Box::new(faction.copy()) },
            ExpressionFaction::Var { var } => ExpressionFaction::Var { var: *var },
        }
    }

    pub fn calculate(&self, context: &Context, units: &Vec<Unit>) -> (r: Result<Faction, EvalError>)
        ensures
            r == eval_faction(*self, *context, units@),
        decreases self,
    {
        match self {
            ExpressionFaction::Owner => match unit_faction(units, context.owner) {
                Some(f) => Ok(f),
                None => Err(EvalError::NotAUnit),
            },
            ExpressionFaction::Target => match context.target {
                Some(t) => match unit_faction(units, t) {
                    Some(f) => Ok(f),
                    None => Err(EvalError::NotAUnit),
                },
                None => Err(EvalError::NoTarget),
            },
            ExpressionFaction::Parent => match context.parent {
                Some(p) => match unit_faction(units, p) {
                    Some(f) => Ok(f),
                    None => Err(EvalError::NotAUnit),
                },
                None => Err(EvalError::NoParent),
            },
            ExpressionFaction::Opposite { faction } => match faction.calculate(context, units) {
                Ok(f) => Ok(f.opposite()),
                Err(e) => Err(e),
            },
            ExpressionFaction::Var { var } => match context.vars.get(*var) {
                Some(VarValue::Faction(f)) => Ok(f),
                _ => Err(EvalError::VarNotFound),
            },
        }
    }
}

impl ExpressionEntity {
    /// A copy of the formula.
    pub fn copy(&self) -> (r: ExpressionEntity)
        ensures
            r == *self,
        decreases self,
    {
        match self {
            ExpressionEntity::World => ExpressionEntity::World,
            ExpressionEntity::Target => ExpressionEntity::Target,
            ExpressionEntity::Parent => ExpressionEntity::Parent,
            ExpressionEntity::Owner => ExpressionEntity::Owner,
            ExpressionEntity::FindUnit { slot, faction } => ExpressionEntity::FindUnit { slot: Box::new(slot.copy()), faction: faction.copy() },
            ExpressionEntity::RandomUnit { faction } => ExpressionEntity::RandomUnit { faction: faction.copy() },
        }
    }

    /// The entity the formula names. A random pick is one of the units of
    /// the faction; every other formula gives its `eval_entity` value.
    pub fn calculate(&self, context: &Context, world_entity: Entity, units: &Vec<Unit>, ab: &Vec<AbilityVar>) -> (r: Result<Entity, EvalError>)
        ensures
            det_entity(*self) ==> r == eval_entity(*self, *context, world_entity, units@, ab@),
            entity_outcome(*self, *context, world_entity, units@, ab@, r),
            match *self {
                ExpressionEntity::RandomUnit { faction } => match eval_faction(faction, *context, units@) {
                    Err(e) => r == Err::<Entity, EvalError>(e),
                    Ok(f) => if of_faction(units@, f).len() == 0 {
                        r == Err::<Entity, EvalError>(EvalError::UnitNotFound)
                    } else {
                        r is Ok && of_faction(units@, f).contains(r->Ok_0)
                    },
                },
                _ => true,
            },
        decreases self,
    {
        match self {
            ExpressionEntity::World => Ok(world_entity),
            ExpressionEntity::Target => match context.target {
                Some(t) => Ok(t),
                None => Err(EvalError::NoTarget),
            },
            ExpressionEntity::Parent => match context.parent {
                Some(p) => Ok(p),
                None => Err(EvalError::NoParent),
            },
            ExpressionEntity::Owner => Ok(context.owner),
            ExpressionEntity::FindUnit { slot, faction } => {
                let res_s = slot.calculate(context, world_entity, units, ab);
                proof {
                    assert(sub_result(res_s));
                }
                let s = match res_s {
                    Ok(s) => s,
                    Err(e) => return Err(e),
                };
                let res_f = faction.calculate(context, units);
                proof {
                    assert(sub_result(res_f));
                }
                let f = match res_f {
                    Ok(f) => f,
                    Err(e) => return Err(e),
                };
                match find_unit_at_slot(units, f, s) {
                    Some(i) => Ok(units[i].entity),
                    None => Err(EvalError::UnitNotFound),
                }
            },
            ExpressionEntity::RandomUnit { faction } => {
                let res_f = faction.calculate(context, units);
                proof {
                    assert(sub_result(res_f));
                }
                let f = match res_f {
                    Ok(f) => f,
                    Err(e) => return Err(e),
                };
                let candidates = collect_faction(units, f);
                match pick_index(candidates.len()) {
                    Some(i) => Ok(candidates[i]),
                    None => Err(EvalError::UnitNotFound),
                }
            },
        }
    }
}

impl ExpressionInt {
    /// A copy of the formula.
    pub fn copy(&self) -> (r: ExpressionInt)
        ensures
            r == *self,
        decreases self,
    {
        match self {
            ExpressionInt::Sum { a, b } => ExpressionInt::Sum { a: Box::new(a.copy()), b: Box::new(b.copy()) },
            ExpressionInt::Sub { a, b } => ExpressionInt::Sub { a: Box::new(a.copy()), b: Box::new(b.copy()) },
            ExpressionInt::Mul { a, b } => ExpressionInt::Mul { a: Box::new(a.copy()), b: Box::new(b.copy()) },
            ExpressionInt::Max { a, b } => ExpressionInt::Max { a: Box::new(a.copy()), b: Box::new(b.copy()) },
            ExpressionInt::If { condition, then, otherwise } => ExpressionInt::If {
                condition: Box::new(condition.copy()),
                then: Box::new(then.copy()),
                otherwise: Box::new(otherwise.copy()),
            },
            ExpressionInt::Const { value } => ExpressionInt::Const { value: *value },
            ExpressionInt::Var { var } => ExpressionInt::Var { var: *var },
            ExpressionInt::EntityVar { var, entity } => ExpressionInt::EntityVar { var: *var, entity: entity.copy() },
            ExpressionInt::AbilityVar { ability, var } => ExpressionInt::AbilityVar { ability: ability.clone(), var: *var },
        }
    }

    /// The value of the formula; for formulas without chance it is
    /// `eval_int`, and it is always one of the values `int_outcome` allows.
    pub fn calculate(&self, context: &Context, world_entity: Entity, units: &Vec<Unit>, ab: &Vec<AbilityVar>) -> (r: Result<i32, EvalError>)
        ensures
            det_int(*self) ==> r == eval_int(*self, *context, world_entity, units@, ab@),
            int_outcome(*self, *context, world_entity, units@, ab@, r),
        decreases self,
    {
        match self {
            ExpressionInt::Sum { a, b } => {
                let res_x = a.calculate(context, world_entity, units, ab);
                proof {
                    assert(sub_result(res_x));
                }
                let x = match res_x {
                    Ok(x) => x,
                    Err(e) => return Err(e),
                };
                let res_y = b.calculate(context, world_entity, units, ab);
                proof {
                    assert(sub_result(res_y));
                }
                let y = match res_y {
                    Ok(y) => y,
                    Err(e) => return Err(e),
                };
                Ok(x.wrapping_add(y))
            },
            ExpressionInt::Sub { a, b } => {
                let res_x = a.calculate(context, world_entity, units, ab);
                proof {
                    assert(sub_result(res_x));
                }
                let x = match res_x {
                    Ok(x) => x,
                    Err(e) => return Err(e),
                };
                let res_y = b.calculate(context, world_entity, units, ab);
                proof {
                    assert(sub_result(res_y));
                }
                let y = match res_y {
                    Ok(y) => y,
                    Err(e) => return Err(e),
                };
                Ok(x.wrapping_sub(y))
            },
            ExpressionInt::Mul { a, b } => {
                let res_x = a.calculate(context, world_entity, units, ab);
                proof {
                    assert(sub_result(res_x));
                }
                let x = match res_x {
                    Ok(x) => x,
                    Err(e) => return Err(e),
                };
                let res_y = b.calculate(context, world_entity, units, ab);
                proof {
                    assert(sub_result(res_y));
                }
                let y = match res_y {
                    Ok(y) => y,
                    Err(e) => return Err(e),
                };
                Ok(x.wrapping_mul(y))
            },
            ExpressionInt::Max { a, b } => {
                let res_x = a.calculate(context, world_entity, units, ab);
                proof {
                    assert(sub_result(res_x));
                }
                let x = match res_x {
                    Ok(x) => x,
                    Err(e) => return Err(e),
                };
                let res_y = b.calculate(context, world_entity, units, ab);
                proof {
                    assert(sub_result(res_y));
                }
                let y = match res_y {
                    Ok(y) => y,
                    Err(e) => return Err(e),
                };
                Ok(if x >= y { x } else { y })
            },
            ExpressionInt::If { condition, then, otherwise } => {
                let res_c = condition.calculate(context, world_entity, units, ab);
                proof {
                    assert(sub_result(res_c));
                }
                match res_c {
                    Err(e) => Err(e),
                    Ok(true) => then.calculate(context, world_entity, units, ab),
                    Ok(false) => otherwise.calculate(context, world_entity, units, ab),
                }
            },
            ExpressionInt::Const { value } => Ok(*value),
            ExpressionInt::Var { var } => match context.vars.get(*var) {
                Some(VarValue::Int(x)) => Ok(x),
                _ => Err(EvalError::VarNotFound),
            },
            ExpressionInt::EntityVar { var, entity } => {
                let res_e = entity.calculate(context, world_entity, units, ab);
                proof {
                    assert(sub_result(res_e));
                }
                let e = match res_e {
                    Ok(e) => e,
                    Err(e) => return Err(e),
                };
                match find_unit(units, e) {
                    None => Err(EvalError::NotAUnit),
                    Some(i) => match units[i].var(*var) {
                        Some(VarValue::Int(v)) => Ok(v),
                        _ => Err(EvalError::VarNotFound),
                    },
                }
            },
            ExpressionInt::AbilityVar { ability, var } => match unit_faction(units, context.owner) {
                None => Err(EvalError::NotAUnit),
                Some(f) => Ok(get_ability_var(ab, f, ability, *var)),
            },
        }
    }
}

impl Condition {
    /// A copy of the condition.
    pub fn copy(&self) -> (r: Condition)
        ensures
            r == *self,
        decreases self,
    {
        match self {
            Condition::EqualsInt { a, b } => Condition::EqualsInt { a: a.copy(), b: b.copy() },
            Condition::LessInt { a, b } => Condition::LessInt { a: a.copy(), b: b.copy() },
            Condition::MoreInt { a, b } => Condition::MoreInt { a: a.copy(), b: b.copy() },
            Condition::SlotOccupied { slot, faction } => Condition::SlotOccupied { slot: slot.copy(), faction: *faction },
        }
    }

    /// The value of the condition; for conditions without chance it is
    /// `eval_cond`, and it is always one of the values `cond_outcome` allows.
    pub fn calculate(&self, context: &Context, world_entity: Entity, units: &Vec<Unit>, ab: &Vec<AbilityVar>) -> (r: Result<bool, EvalError>)
        ensures
            det_cond(*self) ==> r == eval_cond(*self, *context, world_entity, units@, ab@),
            cond_outcome(*self, *context, world_entity, units@, ab@, r),
        decreases self,
    {
        match self {
            Condition::EqualsInt { a, b } => {
                let res_x = a.calculate(context, world_entity, units, ab);
                proof {
                    assert(sub_result(res_x));
                }
                let x = match res_x {
                    Ok(x) => x,
                    Err(e) => return Err(e),
                };
                let res_y = b.calculate(context, world_entity, units, ab);
                proof {
                    assert(sub_result(res_y));
                }
                let y = match res_y {
                    Ok(y) => y,
                    Err(e) => return Err(e),
                };
                Ok(x == y)
            },
            Condition::LessInt { a, b } => {
                let res_x = a.calculate(context, world_entity, units, ab);
                proof {
                    assert(sub_result(res_x));
                }
                let x = match res_x {
                    Ok(x) => x,
                    Err(e) => return Err(e),
                };
                let res_y = b.calculate(context, world_entity, units, ab);
                proof {
                    assert(sub_result(res_y));
                }
                let y = match res_y {
                    Ok(y) => y,
                    Err(e) => return Err(e),
                };
                Ok(x < y)
            },
            Condition::MoreInt { a, b } => {
                let res_x = a.calculate(context, world_entity, units, ab);
                proof {
                    assert(sub_result(res_x));
                }
                let x = match res_x {
                    Ok(x) => x,
                    Err(e) => return Err(e),
                };
                let res_y = b.calculate(context, world_entity, units, ab);
                proof {
                    assert(sub_result(res_y));
                }
                let y = match res_y {
                    Ok(y) => y,
                    Err(e) => return Err(e),
                };
                Ok(x > y)
            },
            Condition::SlotOccupied { slot, faction } => {
                let res_s = slot.calculate(context, world_entity, units, ab);
                proof {
                    assert(sub_result(res_s));
                }
                let s = match res_s {
                    Ok(s) => s,
                    Err(e) => return Err(e),
                };
                Ok(find_unit_at_slot(units, *faction, s).is_some())
            },
        }
    }
}

/// A comparison of two formulas compares their values: whatever values
/// `x` and `y` the two sides may take, the comparison may be `x == y`,
/// `x < y` or `x > y`, and every value it takes is such a comparison of
/// values the sides may take.
pub proof fn lemma_comparison_outcomes(a: ExpressionInt, b: ExpressionInt, ctx: Context, world_entity: Entity, units: Seq<Unit>, ab: Seq<AbilityVar>, x: i32, y: i32, v: bool)
    ensures
        int_outcome(a, ctx, world_entity, units, ab, Ok::<i32, EvalError>(x)) && int_outcome(b, ctx, world_entity, units, ab, Ok::<i32, EvalError>(y)) ==> {
            &&& cond_outcome(Condition::EqualsInt { a, b }, ctx, world_entity, units, ab, Ok::<bool, EvalError>(x == y))
            &&& cond_outcome(Condition::LessInt { a, b }, ctx, world_entity, units, ab, Ok::<bool, EvalError>(x < y))
            &&& cond_outcome(Condition::MoreInt { a, b }, ctx, world_entity, units, ab, Ok::<bool, EvalError>(x > y))
        },
        cond_outcome(Condition::EqualsInt { a, b }, ctx, world_entity, units, ab, Ok::<bool, EvalError>(v)) ==>
            exists|p: i32, q: i32| #[trigger] int_outcome(a, ctx, world_entity, units, ab, Ok::<i32, EvalError>(p))
                && #[trigger] int_outcome(b, ctx, world_entity, units, ab, Ok::<i32, EvalError>(q)) && v == (p == q),
        cond_outcome(Condition::LessInt { a, b }, ctx, world_entity, units, ab, Ok::<bool, EvalError>(v)) ==>
            exists|p: i32, q: i32| #[trigger] int_outcome(a, ctx, world_entity, units, ab, Ok::<i32, EvalError>(p))
                && #[trigger] int_outcome(b, ctx, world_entity, units, ab, Ok::<i32, EvalError>(q)) && v == (p < q),
        cond_outcome(Condition::MoreInt { a, b }, ctx, world_entity, units, ab, Ok::<bool, EvalError>(v)) ==>
            exists|p: i32, q: i32| #[trigger] int_outcome(a, ctx, world_entity, units, ab, Ok::<i32, EvalError>(p))
                && #[trigger] int_outcome(b, ctx, world_entity, units, ab, Ok::<i32, EvalError>(q)) && v == (p > q),
{
    assert(sub_result(Ok::<i32, EvalError>(x)));
    assert(sub_result(Ok::<i32, EvalError>(y)));
    let c = Condition::EqualsInt { a, b };
    if cond_outcome(c, ctx, world_entity, units, ab, Ok::<bool, EvalError>(v)) {
        let ra = choose|ra: Result<i32, EvalError>| sub_result(ra) && int_outcome(a, ctx, world_entity, units, ab, ra) && match ra {
            Err(x) => Ok::<bool, EvalError>(v) == Err::<bool, EvalError>(x),
            Ok(x) => exists|rb: Result<i32, EvalError>| sub_result(rb) && int_outcome(b, ctx, world_entity, units, ab, rb) && Ok::<bool, EvalError>(v) == match rb {
                Err(y) => Err(y),
                Ok(y) => Ok(cond_op(c, x, y)),
            },
        };
        let p = ra->Ok_0;
        let rb = choose|rb: Result<i32, EvalError>| sub_result(rb) && int_outcome(b, ctx, world_entity, units, ab, rb) && Ok::<bool, EvalError>(v) == match rb {
            Err(y) => Err(y),
            Ok(y) => Ok(cond_op(c, p, y)),
        };
        assert(int_outcome(a, ctx, world_entity, units, ab, Ok::<i32, EvalError>(p)));
        assert(int_outcome(b, ctx, world_entity, units, ab, Ok::<i32, EvalError>(rb->Ok_0)));
    }
    let c = Condition::LessInt { a, b };
    if cond_outcome(c, ctx, world_entity, units, ab, Ok::<bool, EvalError>(v)) {
        let ra = choose|ra: Result<i32, EvalError>| sub_result(ra) && int_outcome(a, ctx, world_entity, units, ab, ra) && match ra {
            Err(x) => Ok::<bool, EvalError>(v) == Err::<bool, EvalError>(x),
            Ok(x) => exists|rb: Result<i32, EvalError>| sub_result(rb) && int_outcome(b, ctx, world_entity, units, ab, rb) && Ok::<bool, EvalError>(v) == match rb {
                Err(y) => Err(y),
                Ok(y) => Ok(cond_op(c, x, y)),
            },
        };
        let p = ra->Ok_0;
        let rb = choose|rb: Result<i32, EvalError>| sub_result(rb) && int_outcome(b, ctx, world_entity, units, ab, rb) && Ok::<bool, EvalError>(v) == match rb {
            Err(y) => Err(y),
            Ok(y) => Ok(cond_op(c, p, y)),
        };
        assert(int_outcome(a, ctx, world_entity, units, ab, Ok::<i32, EvalError>(p)));
        assert(int_outcome(b, ctx, world_entity, units, ab, Ok::<i32, EvalError>(rb->Ok_0)));
    }
    let c = Condition::MoreInt { a, b };
    if cond_outcome(c, ctx, world_entity, units, ab, Ok::<bool, EvalError>(v)) {
        let ra = choose|ra: Result<i32, EvalError>| sub_result(ra) && int_outcome(a, ctx, world_entity, units, ab, ra) && match ra {
            Err(x) => Ok::<bool, EvalError>(v) == Err::<bool, EvalError>(x),
            Ok(x) => exists|rb: Result<i32, EvalError>| sub_result(rb) && int_outcome(b, ctx, world_entity, units, ab, rb) && Ok::<bool, EvalError>(v) == match rb {
                Err(y) => Err(y),
                Ok(y) => Ok(cond_op(c, x, y)),
            },
        };
        let p = ra->Ok_0;
        let rb = choose|rb: Result<i32, EvalError>| sub_result(rb) && int_outcome(b, ctx, world_entity, units, ab, rb) && Ok::<bool, EvalError>(v) == match rb {
            Err(y) => Err(y),
            Ok(y) => Ok(cond_op(c, p, y)),
        };
        assert(int_outcome(a, ctx, world_entity, units, ab, Ok::<i32, EvalError>(p)));
        assert(int_outcome(b, ctx, world_entity, units, ab, Ok::<i32, EvalError>(rb->Ok_0)));
    }
}

/// A comparison of two formulas without chance is the comparison of their
/// values; a formula compared with itself is equal to itself.
pub proof fn lemma_comparison_values(a: ExpressionInt, b: ExpressionInt, ctx: Context, world_entity: Entity, units: Seq<Unit>, ab: Seq<AbilityVar>, x: i32, y: i32)
    requires
        eval_int(a, ctx, world_entity, units, ab) == Ok::<i32, EvalError>(x),
        eval_int(b, ctx, world_entity, units, ab) == Ok::<i32, EvalError>(y),
    ensures
        eval_cond(Condition::EqualsInt { a, b }, ctx, world_entity, units, ab) == Ok::<bool, EvalError>(x == y),
        eval_cond(Condition::LessInt { a, b }, ctx, world_entity, units, ab) == Ok::<bool, EvalError>(x < y),
        eval_cond(Condition::MoreInt { a, b }, ctx, world_entity, units, ab) == Ok::<bool, EvalError>(x > y),
        eval_cond(Condition::EqualsInt { a, b: a }, ctx, world_entity, units, ab) == Ok::<bool, EvalError>(true),
{
}

/// Arithmetic on two formulas is arithmetic on their values: whatever values
/// `x` and `y` the two sides may take, the sum may be their wrapped sum, and
/// likewise the difference, the product and the larger of the two.
pub proof fn lemma_arithmetic_outcomes(a: ExpressionInt, b: ExpressionInt, ctx: Context, world_entity: Entity, units: Seq<Unit>, ab: Seq<AbilityVar>, x: i32, y: i32)
    requires
        int_outcome(a, ctx, world_entity, units, ab, Ok::<i32, EvalError>(x)),
        int_outcome(b, ctx, world_entity, units, ab, Ok::<i32, EvalError>(y)),
    ensures
        int_outcome(ExpressionInt::Sum { a: Box::new(a), b: Box::new(b) }, ctx, world_entity, units, ab, Ok::<i32, EvalError>(x.wrapping_add(y))),
        int_outcome(ExpressionInt::Sub { a: Box::new(a), b: Box::new(b) }, ctx, world_entity, units, ab, Ok::<i32, EvalError>(x.wrapping_sub(y))),
        int_outcome(ExpressionInt::Mul { a: Box::new(a), b: Box::new(b) }, ctx, world_entity, units, ab, Ok::<i32, EvalError>(x.wrapping_mul(y))),
        int_outcome(ExpressionInt::Max { a: Box::new(a), b: Box::new(b) }, ctx, world_entity, units, ab, Ok::<i32, EvalError>(if x < y { y } else { x })),
        x + y <= i32::MAX && x + y >= i32::MIN ==>
            int_outcome(ExpressionInt::Sum { a: Box::new(a), b: Box::new(b) }, ctx, world_entity, units, ab, Ok::<i32, EvalError>((x + y) as i32)),
{
    assert(sub_result(Ok::<i32, EvalError>(x)));
    assert(sub_result(Ok::<i32, EvalError>(y)));
}

} // verus!
