use arena_of_ideas::action::{ActionPlugin, ActionsResource};
use arena_of_ideas::battle::{
    BattleData, BattleError, BattlePlugin, BattleResult, PackedTeam, PackedUnit, PlayerData,
};
use arena_of_ideas::bindings::User;
use arena_of_ideas::effect::Effect;
use arena_of_ideas::event::{Event, EventKind};
use arena_of_ideas::expression::{Condition, ExpressionEntity, ExpressionFaction, ExpressionInt};
use arena_of_ideas::world::{
    change_status_charges, Ability, AbilityVar, Context, EvalError, Faction, Field, StatusTrigger,
    Unit, VarName, VarValue, Vars, World,
};

fn world_with(units: Vec<Unit>) -> World {
    World {
        field: Field {
            world_entity: 0,
            next_entity: 100,
            units,
            corpses: Vec::new(),
            ability_vars: Vec::new(),
            abilities: Vec::new(),
            statuses: Vec::new(),
        },
        actions: Vec::new(),
        events: Vec::new(),
        resource: ActionsResource::new(),
        battle: BattleData {
            left: None,
            right: None,
            left_player_data: None,
            right_player_data: None,
            result: BattleResult::Tbd,
            run_id: None,
        },
        fatigue_start: 20,
    }
}

fn unit(entity: u64, faction: Faction, slot: i32, hp: i32, pwr: i32) -> Unit {
    Unit { entity, faction, slot, hp, pwr, dmg: 0, statuses: Vec::new() }
}

fn team(units: &[(i32, i32)]) -> PackedTeam {
    PackedTeam {
        units: units
            .iter()
            .map(|(hp, pwr)| PackedUnit { hp: *hp, pwr: *pwr, statuses: Vec::new() })
            .collect(),
    }
}

#[test]
fn vars_set_then_get() {
    let mut v = Vars::empty();
    assert_eq!(v.get(VarName::Damage), None);
    v.set(VarName::Damage, VarValue::Int(7));
    assert_eq!(v.get(VarName::Damage), Some(VarValue::Int(7)));
    assert_eq!(v.get(VarName::Pwr), None);
}

#[test]
fn faction_opposites() {
    assert_eq!(Faction::Left.opposite(), Faction::Right);
    assert_eq!(Faction::Right.opposite(), Faction::Left);
    assert_eq!(Faction::Shop.opposite(), Faction::Team);
    assert_eq!(Faction::Team.opposite(), Faction::Shop);
}

#[test]
fn expressions_compute() {
    let units = vec![unit(1, Faction::Left, 1, 5, 3), unit(2, Faction::Right, 1, 4, 2)];
    let mut ctx = Context::new(1);
    ctx.target = Some(2);
    ctx.set_var(VarName::Value, VarValue::Int(10));
    let sum = ExpressionInt::Sum {
        a: Box::new(ExpressionInt::Const { value: 4 }),
        b: Box::new(ExpressionInt::Var { var: VarName::Value }),
    };
    assert_eq!(sum.calculate(&ctx, 0, &units, &Vec::new()), Ok(14));
    let sub = ExpressionInt::Sub {
        a: Box::new(ExpressionInt::Const { value: 4 }),
        b: Box::new(ExpressionInt::Const { value: 9 }),
    };
    assert_eq!(sub.calculate(&ctx, 0, &units, &Vec::new()), Ok(-5));
    let mul = ExpressionInt::Mul {
        a: Box::new(ExpressionInt::Const { value: i32::MAX }),
        b: Box::new(ExpressionInt::Const { value: 2 }),
    };
    assert_eq!(mul.calculate(&ctx, 0, &units, &Vec::new()), Ok(-2));
    let max = ExpressionInt::Max {
        a: Box::new(ExpressionInt::EntityVar { var: VarName::Pwr, entity: ExpressionEntity::Target }),
        b: Box::new(ExpressionInt::EntityVar { var: VarName::Pwr, entity: ExpressionEntity::Owner }),
    };
    assert_eq!(max.calculate(&ctx, 0, &units, &Vec::new()), Ok(3));
    let pick = ExpressionInt::If {
        condition: Box::new(Condition::LessInt {
            a: ExpressionInt::Const { value: 1 },
            b: ExpressionInt::Const { value: 2 },
        }),
        then: Box::new(ExpressionInt::Const { value: 11 }),
        otherwise: Box::new(ExpressionInt::Const { value: 22 }),
    };
    assert_eq!(pick.calculate(&ctx, 0, &units, &Vec::new()), Ok(11));
    let missing = ExpressionInt::Var { var: VarName::G };
    assert_eq!(missing.calculate(&ctx, 0, &units, &Vec::new()), Err(EvalError::VarNotFound));
}

#[test]
fn ability_var_is_read_for_the_owner_faction() {
    let units = vec![unit(1, Faction::Left, 1, 5, 3)];
    let ab = vec![
        AbilityVar { faction: Faction::Right, ability: "Siphon".to_string(), var: VarName::Level, value: 9 },
        AbilityVar { faction: Faction::Left, ability: "Siphon".to_string(), var: VarName::Level, value: 4 },
    ];
    let e = ExpressionInt::AbilityVar { ability: "Siphon".to_string(), var: VarName::Level };
    assert_eq!(e.calculate(&Context::new(1), 0, &units, &ab), Ok(4));
    let none = ExpressionInt::AbilityVar { ability: "Other".to_string(), var: VarName::Level };
    assert_eq!(none.calculate(&Context::new(1), 0, &units, &ab), Ok(0));
}

#[test]
fn entities_and_factions() {
    let units = vec![
        unit(1, Faction::Left, 1, 5, 3),
        unit(2, Faction::Right, 1, 4, 2),
        unit(3, Faction::Right, 2, 4, 2),
    ];
    let ctx = Context::new(1);
    let find = ExpressionEntity::FindUnit {
        slot: Box::new(ExpressionInt::Const { value: 2 }),
        faction: ExpressionFaction::Opposite { faction: Box::new(ExpressionFaction::Owner) },
    };
    assert_eq!(find.calculate(&ctx, 0, &units, &Vec::new()), Ok(3));
    assert_eq!(ExpressionEntity::World.calculate(&ctx, 42, &units, &Vec::new()), Ok(42));
    assert_eq!(ExpressionEntity::Target.calculate(&ctx, 0, &units, &Vec::new()), Err(EvalError::NoTarget));
    assert_eq!(ExpressionEntity::Parent.calculate(&ctx, 0, &units, &Vec::new()), Err(EvalError::NoParent));
    let random = ExpressionEntity::RandomUnit { faction: ExpressionFaction::Owner };
    assert_eq!(random.calculate(&ctx, 0, &units, &Vec::new()), Ok(1));
    let nobody = ExpressionEntity::RandomUnit { faction: ExpressionFaction::Var { var: VarName::Faction } };
    let mut fctx = Context::new(1);
    fctx.set_var(VarName::Faction, VarValue::Faction(Faction::Shop));
    assert_eq!(nobody.calculate(&fctx, 0, &units, &Vec::new()), Err(EvalError::UnitNotFound));
    let occupied = Condition::SlotOccupied { slot: ExpressionInt::Const { value: 2 }, faction: Faction::Right };
    assert_eq!(occupied.calculate(&ctx, 0, &units, &Vec::new()), Ok(true));
    let empty = Condition::SlotOccupied { slot: ExpressionInt::Const { value: 2 }, faction: Faction::Left };
    assert_eq!(empty.calculate(&ctx, 0, &units, &Vec::new()), Ok(false));
}

#[test]
fn status_charges_add_and_drop() {
    let mut s: Vec<(String, i32)> = Vec::new();
    change_status_charges(&mut s, "Shield".to_string(), 2);
    assert_eq!(s, vec![("Shield".to_string(), 2)]);
    change_status_charges(&mut s, "Shield".to_string(), 3);
    assert_eq!(s, vec![("Shield".to_string(), 5)]);
    change_status_charges(&mut s, "Shield".to_string(), -5);
    assert!(s.is_empty());
    change_status_charges(&mut s, "Poison".to_string(), -1);
    assert!(s.is_empty());
}

#[test]
fn damage_effect_hurts_the_target() {
    let mut world = world_with(vec![unit(1, Faction::Left, 1, 5, 3), unit(2, Faction::Right, 1, 4, 2)]);
    let mut ctx = Context::new(1);
    ctx.target = Some(2);
    assert_eq!(Effect::Damage.invoke(&mut ctx, &mut world), Ok(()));
    assert_eq!(world.field.units[1].dmg, 3);
    ctx.set_var(VarName::Damage, VarValue::Int(1));
    assert_eq!(Effect::Damage.invoke(&mut ctx, &mut world), Ok(()));
    assert_eq!(world.field.units[1].dmg, 4);
    assert!(world.field.units[1].is_dead());
    let mut no_target = Context::new(1);
    assert_eq!(Effect::Damage.invoke(&mut no_target, &mut world), Err(EvalError::NoTarget));
    let mut stranger = Context::new(1);
    stranger.target = Some(77);
    assert_eq!(Effect::Damage.invoke(&mut stranger, &mut world), Err(EvalError::NotAUnit));
    let mut ownerless = Context::new(55);
    ownerless.target = Some(2);
    assert_eq!(Effect::Damage.invoke(&mut ownerless, &mut world), Err(EvalError::VarNotFound));
}

#[test]
fn change_status_and_use_ability() {
    let mut world = world_with(vec![unit(1, Faction::Left, 1, 5, 3)]);
    world.field.abilities.push(Ability { name: "Rally".to_string(), effect: Effect::Noop });
    let mut ctx = Context::new(1);
    ctx.target = Some(1);
    assert_eq!(Effect::ChangeStatus("Shield".to_string()).invoke(&mut ctx, &mut world), Ok(()));
    assert_eq!(world.field.units[0].statuses, vec![("Shield".to_string(), 1)]);
    assert_eq!(Effect::UseAbility("Rally".to_string(), 2).invoke(&mut ctx, &mut world), Ok(()));
    assert_eq!(world.actions.len(), 1);
    assert_eq!(world.actions[0].context.caster, Some(1));
    assert_eq!(world.actions[0].context.vars.get(VarName::Charges), Some(VarValue::Int(3)));
    assert_eq!(
        Effect::UseAbility("Missing".to_string(), 0).invoke(&mut ctx, &mut world),
        Err(EvalError::AbilityNotFound)
    );
}

#[test]
fn wrapped_effects_queue_their_inner_effect() {
    let mut world = world_with(vec![unit(1, Faction::Left, 1, 5, 3), unit(2, Faction::Right, 1, 4, 2)]);
    let mut ctx = Context::new(1);
    let e = Effect::WithTarget(
        ExpressionEntity::FindUnit {
            slot: Box::new(ExpressionInt::Const { value: 1 }),
            faction: ExpressionFaction::Opposite { faction: Box::new(ExpressionFaction::Owner) },
        },
        Box::new(Effect::Damage),
    );
    assert_eq!(e.invoke(&mut ctx, &mut world), Ok(()));
    assert_eq!(ctx.target, Some(2));
    assert_eq!(world.actions.len(), 1);
    let mut ctx2 = Context::new(1);
    let v = Effect::WithVar(VarName::Damage, ExpressionInt::Const { value: 6 }, Box::new(Effect::Noop));
    assert_eq!(v.invoke(&mut ctx2, &mut world), Ok(()));
    assert_eq!(ctx2.vars.get(VarName::Damage), Some(VarValue::Int(6)));
    assert_eq!(world.actions.len(), 2);
}

#[test]
fn queues_are_first_in_first_out() {
    let mut world = world_with(Vec::new());
    ActionPlugin::action_push_back(Effect::Noop, Context::new(1), &mut world);
    ActionPlugin::action_push_back(Effect::Damage, Context::new(2), &mut world);
    ActionPlugin::action_push_front(Effect::Noop, Context::new(3), &mut world);
    assert_eq!(ActionPlugin::pop_action(&mut world).unwrap().context.owner, 3);
    assert_eq!(ActionPlugin::pop_action(&mut world).unwrap().context.owner, 1);
    assert_eq!(ActionPlugin::pop_action(&mut world).unwrap().context.owner, 2);
    assert!(ActionPlugin::pop_action(&mut world).is_none());
    ActionPlugin::event_push_back(Event::TurnStart, Context::new(5), &mut world);
    assert_eq!(ActionPlugin::pop_event(&mut world).unwrap().1.owner, 5);
    assert!(ActionPlugin::pop_event(&mut world).is_none());
}

#[test]
fn turns_are_counted_from_one() {
    let mut world = world_with(Vec::new());
    assert_eq!(ActionPlugin::current_turn(&world), 0);
    ActionPlugin::register_next_turn(&mut world);
    ActionPlugin::register_next_turn(&mut world);
    assert_eq!(ActionPlugin::current_turn(&world), 2);
    assert_eq!(world.resource.turns, vec![1, 2]);
    ActionPlugin::register_event(Event::TurnEnd, &mut world);
    assert_eq!(world.resource.events.len(), 1);
    ActionPlugin::reset(&mut world);
    assert_eq!(ActionPlugin::current_turn(&world), 0);
    assert!(world.resource.events.is_empty());
}

#[test]
fn events_reach_living_units_by_slot() {
    let mut world = world_with(vec![
        unit(1, Faction::Left, 2, 5, 3),
        unit(2, Faction::Right, 1, 4, 2),
        Unit { dmg: 9, ..unit(3, Faction::Left, 1, 4, 2) },
    ]);
    Event::TurnStart.send(&mut world);
    let owners: Vec<u64> = world.events.iter().map(|(_, c)| c.owner).collect();
    assert_eq!(owners, vec![2, 1]);
    assert_eq!(world.resource.events.len(), 1);
    Event::BeforeStrike(1, 2).send(&mut world);
    let (_, ctx) = &world.events[2];
    assert_eq!((ctx.owner, ctx.target), (1, Some(2)));
}

#[test]
fn statuses_react_to_their_events() {
    let mut world = world_with(vec![Unit { statuses: vec![("Thorns".to_string(), 2)], ..unit(1, Faction::Left, 1, 5, 3) }]);
    world.field.statuses.push(StatusTrigger { status: "Thorns".to_string(), on: EventKind::TurnEnd, effect: Effect::Noop });
    assert!(!Event::TurnStart.process(Context::new(1), &mut world));
    assert!(world.actions.is_empty());
    assert!(Event::TurnEnd.process(Context::new(1), &mut world));
    assert_eq!(world.actions.len(), 1);
    assert_eq!(world.actions[0].context.vars.get(VarName::Charges), Some(VarValue::Int(2)));
}

#[test]
fn spin_runs_the_queue_and_clears_the_dead() {
    let mut world = world_with(vec![
        unit(1, Faction::Left, 1, 5, 3),
        unit(2, Faction::Right, 1, 2, 2),
        unit(3, Faction::Right, 2, 4, 2),
    ]);
    let mut ctx = Context::new(1);
    ctx.target = Some(2);
    ActionPlugin::action_push_back(Effect::Damage, ctx, &mut world);
    assert_eq!(ActionPlugin::spin(&mut world), Ok(true));
    assert_eq!(world.field.units.len(), 2);
    assert_eq!(world.field.corpses.len(), 1);
    assert_eq!(world.field.corpses[0].entity, 2);
    assert_eq!(world.field.units[1].entity, 3);
    assert_eq!(world.field.units[1].slot, 1);
    assert_eq!(ActionPlugin::spin(&mut world), Ok(false));
}

#[test]
fn spin_on_a_quiet_world_changes_nothing() {
    let mut world = world_with(vec![unit(1, Faction::Left, 1, 5, 3)]);
    assert_eq!(ActionPlugin::spin(&mut world), Ok(false));
    assert_eq!(world.field.units.len(), 1);
    assert!(!ActionPlugin::clear_dead(&mut world));
}

#[test]
fn endless_reactions_hit_the_limit() {
    let mut world = world_with(vec![Unit { statuses: vec![("Echo".to_string(), 1)], ..unit(1, Faction::Left, 1, 5, 3) }]);
    world.field.abilities.push(Ability { name: "Again".to_string(), effect: Effect::UseAbility("Again".to_string(), 0) });
    ActionPlugin::action_push_back(Effect::UseAbility("Again".to_string(), 0), Context::new(1), &mut world);
    assert_eq!(ActionPlugin::spin(&mut world), Err(EvalError::LimitExceeded));
}

#[test]
fn unpack_puts_a_team_in_line() {
    let mut world = world_with(Vec::new());
    team(&[(3, 1), (4, 2)]).unpack(Faction::Right, &mut world);
    assert_eq!(world.field.units.len(), 2);
    assert_eq!((world.field.units[0].entity, world.field.units[0].slot), (100, 1));
    assert_eq!((world.field.units[1].entity, world.field.units[1].slot, world.field.units[1].hp), (101, 2, 4));
    assert_eq!(world.field.next_entity, 102);
}

#[test]
fn strikers_are_both_front_units() {
    let world = world_with(vec![unit(4, Faction::Right, 1, 2, 2), unit(3, Faction::Left, 1, 2, 2)]);
    assert_eq!(BattlePlugin::get_strikers(&world), Some((3, 4)));
    let lonely = world_with(vec![unit(3, Faction::Left, 1, 2, 2)]);
    assert_eq!(BattlePlugin::get_strikers(&lonely), None);
    assert!(BattlePlugin::striker_death_check(3, 9, &lonely));
    assert!(!BattlePlugin::striker_death_check(3, 3, &lonely));
}

#[test]
fn results_count_the_standing_sides() {
    assert_eq!(BattlePlugin::get_result(&world_with(Vec::new())), Ok(BattleResult::Even));
    let left = world_with(vec![unit(1, Faction::Left, 1, 2, 2), unit(2, Faction::Left, 2, 2, 2)]);
    assert_eq!(BattlePlugin::get_result(&left), Ok(BattleResult::Left(2)));
    let right = world_with(vec![unit(1, Faction::Right, 1, 2, 2)]);
    assert_eq!(BattlePlugin::get_result(&right), Ok(BattleResult::Right(1)));
    let both = world_with(vec![unit(1, Faction::Right, 1, 2, 2), unit(2, Faction::Left, 3, 2, 2)]);
    assert_eq!(BattlePlugin::get_result(&both), Err(BattleError::NoSingleWinner));
}

#[test]
fn a_draw_counts_as_a_win() {
    assert_eq!(BattleResult::Tbd.is_win(), None);
    assert_eq!(BattleResult::Left(2).is_win(), Some(true));
    assert_eq!(BattleResult::Even.is_win(), Some(true));
    assert_eq!(BattleResult::Right(1).is_win(), Some(false));
}

#[test]
fn the_stronger_team_wins() {
    let mut world = world_with(Vec::new());
    BattlePlugin::load_teams(team(&[(3, 2)]), team(&[(2, 1)]), Some(5), None, Some(PlayerData { id: 9, name: "Rival".to_string() }), &mut world);
    assert_eq!(world.battle.result, BattleResult::Tbd);
    assert_eq!(BattlePlugin::on_enter(&mut world), Ok(Some(true)));
    assert_eq!(world.battle.result, BattleResult::Left(1));
    assert_eq!(world.field.units.len(), 1);
    assert_eq!(world.field.units[0].dmg, 1);
    assert_eq!(world.field.corpses.len(), 1);
    assert_eq!(ActionPlugin::current_turn(&world), 1);
    BattlePlugin::on_leave(&mut world);
    assert!(world.field.units.is_empty() && world.field.corpses.is_empty());
}

#[test]
fn equal_teams_draw() {
    let mut world = world_with(Vec::new());
    BattlePlugin::load_teams(team(&[(1, 1)]), team(&[(1, 1)]), None, None, None, &mut world);
    assert_eq!(BattlePlugin::run_battle(&mut world), Ok(BattleResult::Even));
    assert_eq!(BattlePlugin::on_enter(&mut world), Ok(None));
}

#[test]
fn fatigue_ends_a_battle_of_harmless_teams() {
    let mut world = world_with(Vec::new());
    world.fatigue_start = 0;
    BattlePlugin::load_teams(team(&[(4, 0)]), team(&[(2, 0)]), None, None, None, &mut world);
    assert_eq!(BattlePlugin::run_battle(&mut world), Ok(BattleResult::Left(1)));
    assert_eq!(world.field.units[0].dmg, 3);
    assert_eq!(ActionPlugin::current_turn(&world), 2);
}

#[test]
fn fatigue_queues_a_blow_for_every_unit() {
    let mut world = world_with(vec![unit(1, Faction::Left, 1, 5, 3), unit(2, Faction::Right, 1, 4, 2)]);
    world.fatigue_start = 1;
    ActionPlugin::register_next_turn(&mut world);
    BattlePlugin::fatigue(&mut world);
    assert!(world.actions.is_empty());
    ActionPlugin::register_next_turn(&mut world);
    ActionPlugin::register_next_turn(&mut world);
    BattlePlugin::fatigue(&mut world);
    assert_eq!(world.actions.len(), 2);
    assert_eq!(world.actions[0].context.target, Some(1));
    assert_eq!(world.actions[1].context.vars.get(VarName::Damage), Some(VarValue::Int(2)));
}

#[test]
fn players_are_named_from_the_users_table() {
    let users = vec![
        User { id: 3, name: "ann".to_string(), identities: Vec::new(), pass_hash: None, online: true, last_login: 0 },
        User { id: 4, name: "bob".to_string(), identities: Vec::new(), pass_hash: None, online: false, last_login: 0 },
    ];
    let p = PlayerData::from_id(&users, 4).unwrap();
    assert_eq!((p.id, p.name.as_str()), (4, "bob"));
    assert!(PlayerData::from_id(&users, 5).is_none());
    assert_eq!(User::filter_by_id(&users, 3).map(|u| u.online), Some(true));
}

#[test]
fn a_battle_without_a_run_has_no_players() {
    let mut world = world_with(Vec::new());
    let rival = PlayerData { id: 9, name: "Rival".to_string() };
    BattlePlugin::load_teams(team(&[(1, 1)]), team(&[(1, 1)]), None, Some(rival), None, &mut world);
    assert!(world.battle.left_player_data.is_none());
    assert!(world.battle.right_player_data.is_none());
    assert_eq!(world.battle.run_id, None);
    let rival = PlayerData { id: 9, name: "Rival".to_string() };
    BattlePlugin::load_teams(team(&[(1, 1)]), team(&[(1, 1)]), Some(3), None, Some(rival), &mut world);
    let kept = world.battle.right_player_data.as_ref().unwrap();
    assert_eq!((kept.id, kept.name.as_str()), (9, "Rival"));
    assert_eq!(world.battle.run_id, Some(3));
}

#[test]
fn a_random_pick_reads_a_unit_of_its_faction() {
    let units = vec![
        unit(1, Faction::Left, 1, 5, 3),
        unit(2, Faction::Right, 1, 4, 2),
        unit(3, Faction::Right, 2, 4, 2),
    ];
    let ctx = Context::new(1);
    let hp_of_foe = ExpressionInt::EntityVar {
        var: VarName::Hp,
        entity: ExpressionEntity::RandomUnit {
            faction: ExpressionFaction::Opposite { faction: Box::new(ExpressionFaction::Owner) },
        },
    };
    for _ in 0..20 {
        assert_eq!(hp_of_foe.calculate(&ctx, 0, &units, &Vec::new()), Ok(4));
    }
    let more = Condition::MoreInt { a: hp_of_foe, b: ExpressionInt::Const { value: 3 } };
    assert_eq!(more.calculate(&ctx, 0, &units, &Vec::new()), Ok(true));
    let own_hp = ExpressionInt::EntityVar {
        var: VarName::Hp,
        entity: ExpressionEntity::RandomUnit { faction: ExpressionFaction::Owner },
    };
    assert_eq!(own_hp.calculate(&ctx, 0, &units, &Vec::new()), Ok(5));
}
