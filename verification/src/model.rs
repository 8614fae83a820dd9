//! Small vocabulary of the game's content: who an effect may target, what a
//! status is attached with, damage triggers, unit stats, floating text kinds
//! and the rarities of bonuses.
use vstd::prelude::*;
use crate::world::{Faction, VarName};

verus! {

/// Which units an effect may reach, seen from one faction.
#[derive(Clone, Copy, Debug, PartialEq, Eq, Structural)]
pub enum TargetFilter {
    All,
    Allies,
    Enemies,
}

/// Whether a unit of faction `b` passes the filter for faction `a`: allies
/// share the faction, enemies do not, and everyone passes `All`.
pub open spec fn filter_matches(f: TargetFilter, a: Faction, b: Faction) -> bool {
    match f {
        TargetFilter::Allies => a == b,
        TargetFilter::Enemies => a != b,
        TargetFilter::All => true,
    }
}

impl TargetFilter {
    pub fn matches(&self, a: Faction, b: Faction) -> (r: bool)
        ensures
            r == filter_matches(*self, a, b),
    {
        match self {
            TargetFilter::Allies => a == b,
            TargetFilter::Enemies => a != b,
            TargetFilter::All => true,
        }
    }
}

/// Every unit is either an ally or an enemy, never both, and `All` lets
/// everyone pass.
pub proof fn lemma_filter_sides(a: Faction, b: Faction)
    ensures
        filter_matches(TargetFilter::Allies, a, b) != filter_matches(TargetFilter::Enemies, a, b),
        filter_matches(TargetFilter::All, a, b),
        filter_matches(TargetFilter::Allies, a, a),
{
}

/// One of the units an effect context names.
#[derive(Clone, Copy, Debug, PartialEq, Eq, Structural)]
pub enum Who {
    Owner,
    Creator,
    Target,
}

/// A status to attach, by name, with the variables it starts with.
#[derive(Debug)]
pub struct AttachStatusEffect {
    pub status: String,
    pub vars: Vec<(VarName, i32)>,
}

impl AttachStatusEffect {
    pub fn new(status: String, vars: Vec<(VarName, i32)>) -> (r: AttachStatusEffect)
        ensures
            r.status == status,
            r.vars == vars,
    {
        AttachStatusEffect { status, vars }
    }
}

/// When an effect attached to a damage fires: on any injury, or on a kill.
#[derive(Clone, Copy, Debug, PartialEq, Eq, Structural)]
pub enum DamageTrigger {
    Injure,
    Kill,
}

/// The stats of a unit that modifiers can change.
#[derive(Clone, Copy, Debug, PartialEq, Eq, Structural)]
pub enum UnitStat {
    MaxHealth,
    Radius,
    BaseDamage,
    CritChance,
    Speed,
}

/// The kinds of floating text shown over the field; damage carries its
/// damage types.
#[derive(Debug)]
pub enum TextType {
    Damage(Vec<String>),
    Status,
    Aoe,
    Message,
}

/// How rare a bonus is.
#[derive(Clone, Copy, Debug, PartialEq, Eq, Structural)]
pub enum Rarity {
    Common,
    Rare,
    Epic,
    Legendary,
}

/// The weight a rarity has when a bonus is drawn: the rarer, the lighter.
pub open spec fn rarity_weight(r: Rarity) -> i32 {
    match r {
        Rarity::Common => 100,
        Rarity::Rare => 25,
        Rarity::Epic => 10,
        Rarity::Legendary => 3,
    }
}

impl Rarity {
    pub fn weight(&self) -> (r: i32)
        ensures
            r == rarity_weight(*self),
    {
        match self {
            Rarity::Common => 100,
            Rarity::Rare => 25,
            Rarity::Epic => 10,
            Rarity::Legendary => 3,
        }
    }
}

} // verus!
