//! The state that the battle rules read and change: units with their
//! variables and statuses, the context an effect runs in, and lookups over them.
use vstd::prelude::*;

verus! {

/// An entity of the battle world, named by a number.
pub type Entity = u64;

/// The side a unit belongs to.
#[derive(Clone, Copy, Debug, PartialEq, Eq, Structural)]
pub enum Faction {
    Left,
    Right,
    Shop,
    Team,
}

/// The faction facing the given one: left and right face each other, and so
/// do the shop and the team.
pub open spec fn opposite_of(f: Faction) -> Faction {
    match f {
        Faction::Left => Faction::Right,
        Faction::Right => Faction::Left,
        Faction::Shop => Faction::Team,
        Faction::Team => Faction::Shop,
    }
}

impl Faction {
    pub fn opposite(&self) -> (r: Faction)
        ensures
            r == opposite_of(*self),
    {
        match self {
            Faction::Left => Faction::Right,
            Faction::Right => Faction::Left,
            Faction::Shop => Faction::Team,
            Faction::Team => Faction::Shop,
        }
    }
}

/// Facing the facing side brings one back: the opposite of the opposite is
/// the faction itself, and no faction faces itself.
pub proof fn lemma_opposite_involution(f: Faction)
    ensures
        opposite_of(opposite_of(f)) == f,
        opposite_of(f) != f,
{
}

/// The names of the variables that units and contexts carry.
#[derive(Clone, Copy, Debug, PartialEq, Eq, Structural)]
pub enum VarName {
    Hp,
    Pwr,
    Dmg,
    Damage,
    Charges,
    Level,
    Slot,
    Value,
    Slots,
    G,
    Faction,
}

/// The value of a variable.
#[derive(Clone, Copy, Debug, PartialEq, Eq, Structural)]
pub enum VarValue {
    Int(i32),
    Faction(Faction),
}

/// Why an expression or an effect could not be evaluated.
#[derive(Clone, Copy, Debug, PartialEq, Eq, Structural)]
pub enum EvalError {
    /// A variable is not set, or holds a value of another kind.
    VarNotFound,
    /// The context has no target.
    NoTarget,
    /// The context has no parent.
    NoParent,
    /// The entity is not a unit of the world.
    NotAUnit,
    /// No unit matches the request.
    UnitNotFound,
    /// No ability of that name is defined.
    AbilityNotFound,
    /// The action queue did not run dry within its step limit.
    LimitExceeded,
}

/// The variables an effect's context carries, one optional value per name.
#[derive(Clone, Copy, Debug, PartialEq, Eq, Structural)]
pub struct Vars {
    pub hp: Option<VarValue>,
    pub pwr: Option<VarValue>,
    pub dmg: Option<VarValue>,
    pub damage: Option<VarValue>,
    pub charges: Option<VarValue>,
    pub level: Option<VarValue>,
    pub slot: Option<VarValue>,
    pub value: Option<VarValue>,
    pub slots: Option<VarValue>,
    pub g: Option<VarValue>,
    pub faction: Option<VarValue>,
}

/// The value of `var`.
pub open spec fn vars_get(v: Vars, var: VarName) -> Option<VarValue> {
    match var {
        VarName::Hp => v.hp,
        VarName::Pwr => v.pwr,
        VarName::Dmg => v.dmg,
        VarName::Damage => v.damage,
        VarName::Charges => v.charges,
        VarName::Level => v.level,
        VarName::Slot => v.slot,
        VarName::Value => v.value,
        VarName::Slots => v.slots,
        VarName::G => v.g,
        VarName::Faction => v.faction,
    }
}

/// The variables after `var` is set to `x`; the others keep their values.
pub open spec fn vars_set(v: Vars, var: VarName, x: VarValue) -> Vars {
    match var {
        VarName::Hp => Vars { hp: Some(x), ..v },
        VarName::Pwr => Vars { pwr: Some(x), ..v },
        VarName::Dmg => Vars { dmg: Some(x), ..v },
        VarName::Damage => Vars { damage: Some(x), ..v },
        VarName::Charges => Vars { charges: Some(x), ..v },
        VarName::Level => Vars { level: Some(x), ..v },
        VarName::Slot => Vars { slot: Some(x), ..v },
        VarName::Value => Vars { value: Some(x), ..v },
        VarName::Slots => Vars { slots: Some(x), ..v },
        VarName::G => Vars { g: Some(x), ..v },
        VarName::Faction => Vars { faction: Some(x), ..v },
    }
}

/// No variable is set.
pub open spec fn no_vars() -> Vars {
    Vars {
        hp: None,
        pwr: None,
        dmg: None,
        damage: None,
        charges: None,
        level: None,
        slot: None,
        value: None,
        slots: None,
        g: None,
        faction: None,
    }
}

/// Setting a variable and reading it back gives the value set; the other
/// variables are untouched.
pub proof fn lemma_vars_set_get(v: Vars, var: VarName, x: VarValue, other: VarName)
    ensures
        vars_get(vars_set(v, var, x), var) == Some(x),
        other != var ==> vars_get(vars_set(v, var, x), other) == vars_get(v, other),
{
}

impl Vars {
    /// No variable is set.
    pub fn empty() -> (r: Vars)
        ensures
            r == no_vars(),
    {
        Vars {
            hp: None,
            pwr: None,
            dmg: None,
            damage: None,
            charges: None,
            level: None,
            slot: None,
            value: None,
            slots: None,
            g: None,
            faction: None,
        }
    }

    pub fn get(&self, var: VarName) -> (r: Option<VarValue>)
        ensures
            r == vars_get(*self, var),
    {
        match var {
            VarName::Hp => self.hp,
            VarName::Pwr => self.pwr,
            VarName::Dmg => self.dmg,
            VarName::Damage => self.damage,
            VarName::Charges => self.charges,
            VarName::Level => self.level,
            VarName::Slot => self.slot,
            VarName::Value => self.value,
            VarName::Slots => self.slots,
            VarName::G => self.g,
            VarName::Faction => self.faction,
        }
    }

    pub fn set(&mut self, var: VarName, x: VarValue)
        ensures
            *final(self) == vars_set(*old(self), var, x),
    {
        match var {
            VarName::Hp => self.hp = Some(x),
            VarName::Pwr => self.pwr = Some(x),
            VarName::Dmg => self.dmg = Some(x),
            VarName::Damage => self.damage = Some(x),
            VarName::Charges => self.charges = Some(x),
            VarName::Level => self.level = Some(x),
            VarName::Slot => self.slot = Some(x),
            VarName::Value => self.value = Some(x),
            VarName::Slots => self.slots = Some(x),
            VarName::G => self.g = Some(x),
            VarName::Faction => self.faction = Some(x),
        }
    }
}

/// The context an effect or expression runs in.
#[derive(Clone, Copy, Debug, PartialEq, Eq, Structural)]
pub struct Context {
    /// The unit the effect belongs to.
    pub owner: Entity,
    pub target: Option<Entity>,
    pub parent: Option<Entity>,
    pub caster: Option<Entity>,
    pub vars: Vars,
}

impl Context {
    /// A context owned by `owner`, with nothing else set.
    pub fn new(owner: Entity) -> (c: Context)
        ensures
            c == (Context { owner, target: None, parent: None, caster: None, vars: no_vars() }),
    {
        Context { owner, target: None, parent: None, caster: None, vars: Vars::empty() }
    }

    /// Sets a variable of the context.
    pub fn set_var(&mut self, var: VarName, value: VarValue)
        ensures
            *final(self) == (Context { vars: vars_set(old(self).vars, var, value), ..*old(self) }),
    {
        self.vars.set(var, value);
    }
}

/// A unit on the battle field.
#[derive(Debug)]
pub struct Unit {
    pub entity: Entity,
    pub faction: Faction,
    /// Position in the line, counted from 1 at the front.
    pub slot: i32,
    pub hp: i32,
    pub pwr: i32,
    /// Damage taken so far.
    pub dmg: i32,
    /// Status name and its charges.
    pub statuses: Vec<(String, i32)>,
}

/// The value of a variable as the unit's state holds it.
pub open spec fn unit_var(u: Unit, var: VarName) -> Option<VarValue> {
    match var {
        VarName::Hp => Some(VarValue::Int(u.hp)),
        VarName::Pwr => Some(VarValue::Int(u.pwr)),
        VarName::Dmg => Some(VarValue::Int(u.dmg)),
        VarName::Slot => Some(VarValue::Int(u.slot)),
        VarName::Faction => Some(VarValue::Faction(u.faction)),
        _ => None,
    }
}

/// A unit is dead once its damage reaches its health.
pub open spec fn is_dead_spec(u: Unit) -> bool {
    u.dmg >= u.hp
}

impl Unit {
    pub fn var(&self, var: VarName) -> (r: Option<VarValue>)
        ensures
            r == unit_var(*self, var),
    {
        match var {
            VarName::Hp => Some(VarValue::Int(self.hp)),
            VarName::Pwr => Some(VarValue::Int(self.pwr)),
            VarName::Dmg => Some(VarValue::Int(self.dmg)),
            VarName::Slot => Some(VarValue::Int(self.slot)),
            VarName::Faction => Some(VarValue::Faction(self.faction)),
            _ => None,
        }
    }

    pub fn is_dead(&self) -> (r: bool)
        ensures
            r == is_dead_spec(*self),
    {
        self.dmg >= self.hp
    }
}

/// The position of the first unit whose entity is `e`, or -1.
pub open spec fn unit_index(units: Seq<Unit>, e: Entity) -> int
    decreases units.len(),
{
    if units.len() == 0 {
        -1
    } else if units[0].entity == e {
        0
    } else {
        let i = unit_index(units.drop_first(), e);
        if i < 0 { -1 } else { i + 1 }
    }
}

pub proof fn lemma_unit_index(units: Seq<Unit>, e: Entity)
    ensures
        -1 <= unit_index(units, e) < units.len(),
        unit_index(units, e) >= 0 ==> units[unit_index(units, e)].entity == e,
        forall|j: int| 0 <= j < units.len() && (unit_index(units, e) == -1 || j < unit_index(units, e)) ==> #[trigger] units[j].entity != e,
    decreases units.len(),
{
    if units.len() > 0 && units[0].entity != e {
        lemma_unit_index(units.drop_first(), e);
        assert forall|j: int| 0 <= j < units.len() && (unit_index(units, e) == -1 || j < unit_index(units, e)) implies #[trigger] units[j].entity != e by {
            if j > 0 {
                assert(units[j] == units.drop_first()[j - 1]);
            }
        }
    }
}

/// The position of the unit whose entity is `e`.
pub fn find_unit(units: &Vec<Unit>, e: Entity) -> (r: Option<usize>)
    ensures
        match r {
            Some(i) => i as int == unit_index(units@, e) && i < units.len(),
            None => unit_index(units@, e) == -1,
        },
{
    proof {
        lemma_unit_index(units@, e);
    }
    let mut i: usize = 0;
    while i < units.len()
        invariant
            0 <= i <= units.len(),
            -1 <= unit_index(units@, e) < units.len(),
            unit_index(units@, e) >= 0 ==> units@[unit_index(units@, e)].entity == e,
            unit_index(units@, e) == -1 || i <= unit_index(units@, e),
            forall|j: int| 0 <= j < units.len() && (unit_index(units@, e) == -1 || j < unit_index(units@, e)) ==> #[trigger] units@[j].entity != e,
        decreases units.len() - i,
    {
        if units[i].entity == e {
            return Some(i);
        }
        i = i + 1;
    }
    None
}

} // verus!

verus! {

/// A copy of a list of status charges.
pub fn copy_statuses(statuses: &Vec<(String, i32)>) -> (r: Vec<(String, i32)>)
    ensures
        r@ == statuses@,
{
    let mut r: Vec<(String, i32)> = Vec::new();
    let mut i: usize = 0;
    while i < statuses.len()
        invariant
            0 <= i <= statuses.len(),
            r@ == statuses@.subrange(0, i as int),
        decreases statuses.len() - i,
    {
        let name = statuses[i].0.clone();
        r.push((name, statuses[i].1));
        i = i + 1;
    }
    assert(r@ =~= statuses@);
    r
}

} // verus!

verus! {

/// The position of the first element of `s` that satisfies `p`, or -1.
pub open spec fn first_index<T>(s: Seq<T>, p: spec_fn(T) -> bool) -> int
    decreases s.len(),
{
    if s.len() == 0 {
        -1
    } else if p(s[0]) {
        0
    } else {
        let i = first_index(s.drop_first(), p);
        if i < 0 { -1 } else { i + 1 }
    }
}

pub proof fn lemma_first_index<T>(s: Seq<T>, p: spec_fn(T) -> bool)
    ensures
        -1 <= first_index(s, p) < s.len(),
        first_index(s, p) >= 0 ==> p(s[first_index(s, p)]),
        forall|j: int| 0 <= j < s.len() && (first_index(s, p) == -1 || j < first_index(s, p)) ==> !p(#[trigger] s[j]),
    decreases s.len(),
{
    if s.len() > 0 && !p(s[0]) {
        lemma_first_index(s.drop_first(), p);
        assert forall|j: int| 0 <= j < s.len() && (first_index(s, p) == -1 || j < first_index(s, p)) implies !p(#[trigger] s[j]) by {
            if j > 0 {
                assert(s[j] == s.drop_first()[j - 1]);
            }
        }
    }
}

/// A variable that an ability holds for one faction.
#[derive(Debug)]
pub struct AbilityVar {
    pub faction: Faction,
    pub ability: String,
    pub var: VarName,
    pub value: i32,
}

/// Every unit stands on the left or on the right: the field of a battle.
pub open spec fn in_battle(units: Seq<Unit>) -> bool {
    forall|i: int| 0 <= i < units.len() ==> (#[trigger] units[i]).faction == Faction::Left || units[i].faction == Faction::Right
}

/// The faction of the unit `e`, if `e` is a unit.
pub open spec fn faction_of(units: Seq<Unit>, e: Entity) -> Option<Faction> {
    let i = unit_index(units, e);
    if i >= 0 { Some(units[i].faction) } else { None }
}

/// The faction of a unit of the world.
pub fn unit_faction(units: &Vec<Unit>, e: Entity) -> (r: Option<Faction>)
    ensures
        r == faction_of(units@, e),
{
    match find_unit(units, e) {
        Some(i) => Some(units[i].faction),
        None => None,
    }
}

/// Whether the unit stands in `slot` of `faction`.
pub open spec fn at_slot(faction: Faction, slot: i32) -> spec_fn(Unit) -> bool {
    |u: Unit| u.faction == faction && u.slot == slot
}

/// The position of the first unit of `faction` in `slot`.
pub fn find_unit_at_slot(units: &Vec<Unit>, faction: Faction, slot: i32) -> (r: Option<usize>)
    ensures
        match r {
            Some(i) => i as int == first_index(units@, at_slot(faction, slot)) && i < units.len(),
            None => first_index(units@, at_slot(faction, slot)) == -1,
        },
{
    proof {
        lemma_first_index(units@, at_slot(faction, slot));
    }
    let ghost p = at_slot(faction, slot);
    let mut i: usize = 0;
    while i < units.len()
        invariant
            0 <= i <= units.len(),
            p == at_slot(faction, slot),
            -1 <= first_index(units@, p) < units.len(),
            first_index(units@, p) >= 0 ==> p(units@[first_index(units@, p)]),
            first_index(units@, p) == -1 || i <= first_index(units@, p),
            forall|j: int| 0 <= j < units.len() && (first_index(units@, p) == -1 || j < first_index(units@, p)) ==> !p(#[trigger] units@[j]),
        decreases units.len() - i,
    {
        if units[i].faction == faction && units[i].slot == slot {
            assert(p(units@[i as int]));
            return Some(i);
        }
        i = i + 1;
    }
    None
}

/// The value of a variable that an ability holds for a faction: the first
/// matching entry, and 0 where there is none.
pub open spec fn ability_var_value(vars: Seq<AbilityVar>, faction: Faction, ability: Seq<char>, var: VarName) -> i32 {
    let i = first_index(vars, |a: AbilityVar| a.faction == faction && a.ability@ == ability && a.var == var);
    if i >= 0 { vars[i].value } else { 0 }
}

pub fn get_ability_var(vars: &Vec<AbilityVar>, faction: Faction, ability: &String, var: VarName) -> (r: i32)
    ensures
        r == ability_var_value(vars@, faction, ability@, var),
{
    let ghost p = |a: AbilityVar| a.faction == faction && a.ability@ == ability@ && a.var == var;
    proof {
        lemma_first_index(vars@, p);
    }
    let mut i: usize = 0;
    while i < vars.len()
        invariant
            0 <= i <= vars.len(),
            p == (|a: AbilityVar| a.faction == faction && a.ability@ == ability@ && a.var == var),
            -1 <= first_index(vars@, p) < vars.len(),
            first_index(vars@, p) >= 0 ==> p(vars@[first_index(vars@, p)]),
            first_index(vars@, p) == -1 || i <= first_index(vars@, p),
            forall|j: int| 0 <= j < vars.len() && (first_index(vars@, p) == -1 || j < first_index(vars@, p)) ==> !p(#[trigger] vars@[j]),
        decreases vars.len() - i,
    {
        let a = &vars[i];
        let same_name = a.ability == *ability;
        assert(same_name == (a.ability@ == ability@));
        if a.faction == faction && a.var == var && same_name {
            assert(p(vars@[i as int]));
            return a.value;
        }
        i = i + 1;
    }
    0
}

} // verus!

verus! {

/// An ability that units can use: its name and what it does.
#[derive(Debug)]
pub struct Ability {
    pub name: String,
    pub effect: crate::effect::Effect,
}

/// A status reacts to events of one kind with an effect.
#[derive(Debug)]
pub struct StatusTrigger {
    pub status: String,
    pub on: crate::event::EventKind,
    pub effect: crate::effect::Effect,
}

/// What stands on the battle field and the rules it is played by.
#[derive(Debug)]
pub struct Field {
    /// The entity that stands for the world itself.
    pub world_entity: Entity,
    /// The entity the next spawned unit gets.
    pub next_entity: Entity,
    pub units: Vec<Unit>,
    /// Units that died, in the order they died.
    pub corpses: Vec<Unit>,
    pub ability_vars: Vec<AbilityVar>,
    pub abilities: Vec<Ability>,
    pub statuses: Vec<StatusTrigger>,
}

/// The whole battle world: the field, the queues of pending actions and
/// events, the record of the battle and the battle's settings.
#[derive(Debug)]
pub struct World {
    pub field: Field,
    pub actions: Vec<crate::action::Action>,
    pub events: Vec<(crate::event::Event, Context)>,
    pub resource: crate::action::ActionsResource,
    pub battle: crate::battle::BattleData,
    /// The turn after which fatigue starts to hurt every unit.
    pub fatigue_start: i32,
}

} // verus!

verus! {

/// The world differs from `a` at most in its units.
pub open spec fn same_but_units(a: World, b: World) -> bool {
    &&& a.field.world_entity == b.field.world_entity
    &&& a.field.next_entity == b.field.next_entity
    &&& a.field.corpses == b.field.corpses
    &&& a.field.ability_vars == b.field.ability_vars
    &&& a.field.abilities == b.field.abilities
    &&& a.field.statuses == b.field.statuses
    &&& a.actions == b.actions
    &&& a.events == b.events
    &&& a.resource == b.resource
    &&& a.battle == b.battle
    &&& a.fatigue_start == b.fatigue_start
}

/// The world differs from `a` at most in its queued actions.
pub open spec fn same_but_actions(a: World, b: World) -> bool {
    &&& a.field == b.field
    &&& a.events == b.events
    &&& a.resource == b.resource
    &&& a.battle == b.battle
    &&& a.fatigue_start == b.fatigue_start
}

/// The position of a status in a list of status charges, or -1.
pub open spec fn status_index(s: Seq<(String, i32)>, name: Seq<char>) -> int {
    first_index(s, |p: (String, i32)| p.0@ == name)
}

/// The charges of a status: 0 where the status is absent.
pub open spec fn status_charges(s: Seq<(String, i32)>, name: Seq<char>) -> i32 {
    let i = status_index(s, name);
    if i >= 0 { s[i].1 } else { 0 }
}

/// The statuses after the charges of `name` change by `delta`. A status whose
/// charges drop to zero or below is removed; a new one is added at the end.
pub open spec fn change_charges(s: Seq<(String, i32)>, name: String, delta: i32) -> Seq<(String, i32)> {
    let i = status_index(s, name@);
    let c = status_charges(s, name@).wrapping_add(delta);
    if i >= 0 {
        if c > 0 { s.update(i, (s[i].0, c)) } else { s.remove(i) }
    } else {
        if c > 0 { s.push((name, c)) } else { s }
    }
}

/// The position of a status.
pub fn find_status(statuses: &Vec<(String, i32)>, name: &String) -> (r: Option<usize>)
    ensures
        match r {
            Some(i) => i as int == status_index(statuses@, name@) && i < statuses.len(),
            None => status_index(statuses@, name@) == -1,
        },
{
    let ghost p = |q: (String, i32)| q.0@ == name@;
    proof {
        lemma_first_index(statuses@, p);
    }
    let mut i: usize = 0;
    while i < statuses.len()
        invariant
            0 <= i <= statuses.len(),
            p == (|q: (String, i32)| q.0@ == name@),
            -1 <= first_index(statuses@, p) < statuses.len(),
            first_index(statuses@, p) >= 0 ==> p(statuses@[first_index(statuses@, p)]),
            first_index(statuses@, p) == -1 || i <= first_index(statuses@, p),
            forall|j: int| 0 <= j < statuses.len() && (first_index(statuses@, p) == -1 || j < first_index(statuses@, p)) ==> !p(#[trigger] statuses@[j]),
        decreases statuses.len() - i,
    {
        let same = statuses[i].0 == *name;
        assert(same == (statuses@[i as int].0@ == name@));
        if same {
            assert(p(statuses@[i as int]));
            return Some(i);
        }
        i = i + 1;
    }
    None
}

/// Changes the charges of a status.
pub fn change_status_charges(statuses: &mut Vec<(String, i32)>, name: String, delta: i32)
    ensures
        final(statuses)@ == change_charges(old(statuses)@, name, delta),
{
    match find_status(statuses, &name) {
        Some(i) => {
            let c = statuses[i].1.wrapping_add(delta);
            if c > 0 {
                let (n, _) = statuses.remove(i);
                statuses.insert(i, (n, c));
                assert(statuses@ =~= change_charges(old(statuses)@, name, delta));
            } else {
                statuses.remove(i);
            }
        },
        None => {
            let c = 0i32.wrapping_add(delta);
            if c > 0 {
                statuses.push((name, c));
            }
        },
    }
}

/// No status is listed twice.
pub open spec fn distinct_names(s: Seq<(String, i32)>) -> bool {
    forall|i: int, j: int| 0 <= i < j < s.len() ==> s[i].0@ != s[j].0@
}

/// Changing the charges of a status keeps every status listed once, and the
/// status then holds its old charges plus the change, or is gone when that
/// is not above zero.
pub proof fn lemma_change_charges(s: Seq<(String, i32)>, name: String, delta: i32)
    requires
        distinct_names(s),
    ensures
        distinct_names(change_charges(s, name, delta)),
        ({
            let c = status_charges(s, name@).wrapping_add(delta);
            status_charges(change_charges(s, name, delta), name@) == if c > 0 { c } else { 0 }
        }),
{
    let p = |q: (String, i32)| q.0@ == name@;
    let t = change_charges(s, name, delta);
    let i = status_index(s, name@);
    let c = status_charges(s, name@).wrapping_add(delta);
    lemma_first_index(s, p);
    lemma_first_index(t, p);
    if i >= 0 {
        if c > 0 {
            assert(t == s.update(i, (s[i].0, c)));
            assert(distinct_names(t)) by {
                assert forall|a: int, b: int| 0 <= a < b < t.len() implies t[a].0@ != t[b].0@ by {
                    assert(s[a].0@ != s[b].0@);
                }
            }
            assert(p(t[i]));
            let fi = status_index(t, name@);
            if fi != i {
                if fi >= 0 && fi < i {
                    assert(t[fi] == s[fi]);
                } else if fi > i {
                    assert(!p(t[i]));
                }
            }
        } else {
            assert(t == s.remove(i));
            assert(distinct_names(t)) by {
                assert forall|a: int, b: int| 0 <= a < b < t.len() implies t[a].0@ != t[b].0@ by {
                    if a < i && b < i {
                        assert(s[a].0@ != s[b].0@);
                    } else if a < i {
                        assert(s[a].0@ != s[b + 1].0@);
                    } else {
                        assert(s[a + 1].0@ != s[b + 1].0@);
                    }
                }
            }
            let fi = status_index(t, name@);
            if fi >= 0 {
                if fi < i {
                    assert(t[fi] == s[fi]);
                } else {
                    assert(t[fi] == s[fi + 1]);
                    assert(s[i].0@ != s[fi + 1].0@);
                }
            }
        }
    } else {
        if c > 0 {
            assert(t == s.push((name, c)));
            assert(distinct_names(t)) by {
                assert forall|a: int, b: int| 0 <= a < b < t.len() implies t[a].0@ != t[b].0@ by {
                    if b < s.len() {
                        assert(s[a].0@ != s[b].0@);
                    } else {
                        assert(!p(s[a]));
                    }
                }
            }
            let fi = status_index(t, name@);
            assert(p(t[s.len() as int]));
            if fi >= 0 && fi < s.len() {
                assert(t[fi] == s[fi]);
            }
        } else {
            assert(t == s);
        }
    }
}

} // verus!
