use arena_of_ideas::arena::{
    next_id, run_finish, shop_reorder, shop_weights, unique_houses, ArenaError, ArenaSettings,
    Fusion, GameMode, RaritySettings, Reward, ShopSlot, TArenaRun, TBattleResult, TeamSlot,
};

fn settings() -> ArenaSettings {
    ArenaSettings {
        ranked_cost_min: 5,
        ranked_cost_max: 50,
        ranked_cost_increase: 5,
        const_cost_min: 3,
        const_cost_max: 30,
        const_cost_increase: 3,
        slots_min: 3,
        slots_max: 6,
        g_start: 7,
        g_income_min: 4,
        g_income_max: 10,
        g_income_per_round: 2,
        price_reroll: 1,
        sell_discount: 1,
        stack_discount: 1,
        team_slots: 5,
        lives_initial: 3,
        lives_per_wins: 3,
        free_rerolls_initial: 1,
        free_rerolls_income: 1,
    }
}

fn rarities() -> RaritySettings {
    RaritySettings {
        prices: vec![3, 5, 8, 12],
        weights_initial: vec![100, 10, 2, -5],
        weights_per_round: vec![-10, 2, 1, 1],
        lootbox_weights: vec![1, 1, 1, 1],
    }
}

fn offer(unit: &str, available: bool, freeze: bool) -> ShopSlot {
    ShopSlot { unit: unit.to_string(), available, freeze, buy_price: 3, ..ShopSlot::new() }
}

fn run(mode: GameMode) -> TArenaRun<String> {
    TArenaRun::start(1, 10, 20, mode, &settings(), vec![31, 32], 1000)
}

#[test]
fn a_new_run_starts_from_the_settings() {
    let r = run(GameMode::ArenaNormal);
    assert_eq!((r.g, r.lives, r.free_rerolls, r.price_reroll), (7, 3, 1, 1));
    assert_eq!((r.round, r.score, r.rerolls), (0, 0, 0));
    assert!(r.active && !r.finale);
    assert_eq!(r.enemies, vec![31, 32]);
    assert_eq!(r.reward_limit, 5);
    assert_eq!(r.last_updated, 1000);
    assert_eq!(run(GameMode::ArenaRanked).reward_limit, 0);
    assert_eq!(run(GameMode::ArenaConst("seed".to_string())).reward_limit, 5);
    let plain: TArenaRun<String> = TArenaRun::new(1, 10, 20, GameMode::ArenaNormal, &settings(), Vec::new(), 0);
    assert_eq!(plain.reward_limit, 0);
}

#[test]
fn ids_count_up() {
    let mut c = 41;
    assert_eq!(next_id(&mut c), 42);
    assert_eq!(next_id(&mut c), 43);
    assert_eq!(c, 43);
}

#[test]
fn buying_takes_gold_and_the_offer() {
    let mut r = run(GameMode::ArenaNormal);
    r.shop_slots = vec![offer("Wolf", true, false), offer("Bear", false, false)];
    assert_eq!(r.buy(5, 1), Err(ArenaError::WrongShopSlot));
    assert_eq!(r.buy(1, 1), Err(ArenaError::UnitAlreadyBought));
    assert_eq!(r.buy(0, 8), Err(ArenaError::NotEnoughG));
    assert_eq!(r.g, 7);
    assert_eq!(r.buy(0, 3), Ok("Wolf".to_string()));
    assert_eq!(r.g, 4);
    assert!(!r.shop_slots[0].available);
    assert_eq!(r.buy(0, 3), Err(ArenaError::UnitAlreadyBought));
}

#[test]
fn selling_pays_the_slot_price() {
    let mut r = run(GameMode::ArenaNormal);
    r.team_slots = vec![
        TeamSlot { stack_targets: Vec::new(), fuse_targets: Vec::new(), sell_price: 2 },
        TeamSlot { stack_targets: Vec::new(), fuse_targets: Vec::new(), sell_price: 4 },
    ];
    let mut team = vec!["Wolf".to_string(), "Bear".to_string()];
    assert_eq!(r.sell(&mut team, 2), Err(ArenaError::SlotIsEmpty));
    assert_eq!(r.sell(&mut team, 1), Ok(()));
    assert_eq!(team, vec!["Wolf".to_string()]);
    assert_eq!(r.g, 11);
    r.add_to_team(&mut team, "Fox".to_string());
    assert_eq!(team, vec!["Fox".to_string(), "Wolf".to_string()]);
    assert_eq!(r.remove_team(&mut team, 0), Ok("Fox".to_string()));
}

#[test]
fn freezing_twice_is_refused() {
    let mut r = run(GameMode::ArenaNormal);
    r.shop_slots = vec![offer("Wolf", true, false)];
    assert_eq!(r.shop_set_freeze(0, false), Err(ArenaError::SlotAlreadyUnfrozen));
    assert_eq!(r.shop_set_freeze(0, true), Ok(()));
    assert!(r.shop_slots[0].freeze);
    assert_eq!(r.shop_set_freeze(0, true), Err(ArenaError::SlotAlreadyFrozen));
    assert_eq!(r.shop_set_freeze(3, true), Err(ArenaError::WrongShopSlot));
}

#[test]
fn rerolls_use_free_ones_first() {
    let mut r = run(GameMode::ArenaNormal);
    r.g = 1;
    assert_eq!(r.shop_reroll(), Ok(()));
    assert_eq!((r.free_rerolls, r.g, r.rerolls), (0, 1, 1));
    assert_eq!(r.shop_reroll(), Ok(()));
    assert_eq!((r.free_rerolls, r.g, r.rerolls), (0, 0, 2));
    assert_eq!(r.shop_reroll(), Err(ArenaError::NotEnoughG));
    assert_eq!(r.rerolls, 2);
    r.shop_change_g(-3);
    assert_eq!(r.g, -3);
}

#[test]
fn reordering_moves_one_unit() {
    let mut team = vec![1, 2, 3, 4];
    assert_eq!(shop_reorder(&mut team, 0, 2), Ok(()));
    assert_eq!(team, vec![2, 3, 1, 4]);
    assert_eq!(shop_reorder(&mut team, 3, 200), Ok(()));
    assert_eq!(team, vec![2, 3, 1, 4]);
    assert_eq!(shop_reorder(&mut team, 2, 0), Ok(()));
    assert_eq!(team, vec![1, 2, 3, 4]);
    assert_eq!(shop_reorder(&mut team, 9, 0), Err(ArenaError::WrongFromIndex));
}

#[test]
fn fusion_replaces_and_removes() {
    let mut r = run(GameMode::ArenaNormal);
    assert_eq!(r.fuse_cancel(), Err(ArenaError::FusionNotStarted));
    let mut team = vec!["A".to_string(), "B".to_string(), "C".to_string()];
    assert_eq!(r.fuse_choose(&mut team, 0), Err(ArenaError::FusionNotStarted));
    r.fusion = Some(Fusion { options: vec!["AC1".to_string(), "AC2".to_string()], a: 0, b: 2 });
    assert_eq!(r.fuse_choose(&mut team, 2), Err(ArenaError::WrongFusionIndex));
    assert!(r.fusion.is_some());
    assert_eq!(r.fuse_choose(&mut team, 1), Ok(()));
    assert_eq!(team, vec!["AC2".to_string(), "B".to_string()]);
    assert!(r.fusion.is_none());
    r.fusion = Some(Fusion { options: Vec::new(), a: 0, b: 1 });
    assert_eq!(r.fuse_cancel(), Ok(()));
    assert!(r.fusion.is_none());
}

#[test]
fn battle_results_move_score_and_lives() {
    let mut r = run(GameMode::ArenaNormal);
    assert_eq!(r.submit_battle_result(TBattleResult::Left, true), Err(ArenaError::LastBattleNotPresent));
    r.battles.push(7);
    r.round = 2;
    assert_eq!(r.submit_battle_result(TBattleResult::Left, false), Err(ArenaError::ResultAlreadySubmitted));
    assert_eq!(r.submit_battle_result(TBattleResult::Left, true), Ok(false));
    assert_eq!((r.score, r.lives), (2, 3));
    assert_eq!(r.submit_battle_result(TBattleResult::Right, true), Ok(false));
    assert_eq!(r.submit_battle_result(TBattleResult::Even, true), Ok(false));
    assert_eq!(r.lives, 1);
    assert!(r.active);
    assert_eq!(r.submit_battle_result(TBattleResult::Right, true), Ok(false));
    assert_eq!(r.lives, 0);
    assert!(!r.active);
    assert_eq!(r.rewards.len(), 1);
    assert_eq!((r.rewards[0].name.as_str(), r.rewards[0].amount), ("Score", 2));
}

#[test]
fn beating_the_champion_in_the_finale() {
    let mut r = run(GameMode::ArenaRanked);
    r.battles.push(7);
    r.round = 4;
    r.score = 3;
    r.finale = true;
    r.enemies.clear();
    assert_eq!(r.submit_battle_result(TBattleResult::Left, true), Ok(true));
    assert!(!r.active);
    assert_eq!(r.rewards.len(), 2);
    assert_eq!((r.rewards[0].name.as_str(), r.rewards[0].amount), ("Ranked score * 2", 14));
    assert_eq!((r.rewards[1].name.as_str(), r.rewards[1].amount), ("Champion defeated", 10));
    let mut lost = run(GameMode::ArenaNormal);
    lost.battles.push(8);
    lost.finale = true;
    assert_eq!(lost.submit_battle_result(TBattleResult::Right, true), Ok(false));
    assert_eq!(lost.lives, 0);
}

#[test]
fn a_finished_run_pays_up_to_its_limit() {
    let mut r = run(GameMode::ArenaNormal);
    r.rewards = vec![Reward::new("Score".to_string(), 4), Reward::new("Bonus".to_string(), 3)];
    let (pay, archive) = run_finish(r);
    assert_eq!(pay, 5);
    assert_eq!((archive.id, archive.owner, archive.team, archive.round), (1, 10, 20, 0));
    let mut ranked = run(GameMode::ArenaRanked);
    ranked.rewards = vec![Reward::new("Score".to_string(), 4), Reward::new("Bonus".to_string(), 3)];
    assert_eq!(run_finish(ranked).0, 7);
    let mut small = run(GameMode::ArenaNormal);
    small.rewards = vec![Reward::new("Score".to_string(), 2)];
    assert_eq!(run_finish(small).0, 2);
}

#[test]
fn weights_grow_with_rounds_but_not_below_zero() {
    assert_eq!(shop_weights(&rarities(), 0), vec![100, 10, 2, 0]);
    assert_eq!(shop_weights(&rarities(), 12), vec![0, 34, 14, 7]);
}

#[test]
fn houses_are_kept_once_in_order() {
    let h = vec!["Dragons".to_string(), "Wolves".to_string(), "Dragons".to_string(), "Owls".to_string()];
    assert_eq!(unique_houses(&h), vec!["Dragons".to_string(), "Wolves".to_string(), "Owls".to_string()]);
}

#[test]
fn refilling_keeps_frozen_offers() {
    let mut r = run(GameMode::ArenaNormal);
    r.shop_slots = vec![offer("Wolf", true, true), offer("Bear", true, false), offer("Fox", false, true)];
    r.fill_case(4, Some(vec!["Dragons".to_string(), "Dragons".to_string()]));
    assert_eq!(r.shop_slots.len(), 4);
    assert_eq!(r.shop_slots[0].unit, "Wolf");
    assert_eq!(r.shop_slots[0].house_filter, vec!["Dragons".to_string()]);
    assert_eq!(r.shop_slots[1].unit, "");
    assert_eq!(r.shop_slots[2].unit, "");
    assert!(!r.shop_slots[2].freeze);
    let picks = vec![
        ("Ignored".to_string(), 0),
        ("Owl".to_string(), 1),
        ("Elk".to_string(), 3),
        ("Bat".to_string(), 0),
    ];
    let mut counter = 10;
    r.stock_case(&picks, &mut counter, &rarities(), &settings());
    assert_eq!(counter, 14);
    assert_eq!(r.shop_slots[0].unit, "Wolf");
    assert_eq!(r.shop_slots[0].id, 0);
    assert_eq!((r.shop_slots[1].unit.as_str(), r.shop_slots[1].id, r.shop_slots[1].buy_price, r.shop_slots[1].stack_price), ("Owl", 12, 5, 4));
    assert_eq!((r.shop_slots[2].unit.as_str(), r.shop_slots[2].buy_price), ("Elk", 12));
    assert!(r.shop_slots[3].available);
}

#[test]
fn closing_the_shop_picks_the_next_enemy() {
    let mut r = run(GameMode::ArenaNormal);
    assert_eq!(r.shop_finish(50, None, 60), 31);
    assert_eq!((r.round, r.enemies.clone(), r.finale), (1, vec![32], false));
    assert_eq!(r.shop_finish(50, None, 60), 32);
    assert_eq!(r.shop_finish(50, Some((9, 70)), 60), 60);
    assert!(!r.finale);
    assert_eq!(r.shop_finish(50, Some((4, 70)), 60), 70);
    assert!(r.finale);
    assert_eq!(r.enemies, vec![50]);
    let mut alone = run(GameMode::ArenaNormal);
    alone.enemies.clear();
    assert_eq!(alone.shop_finish(50, None, 0), 0);
    assert!(alone.finale);
}

#[test]
fn a_new_round_pays_its_income() {
    let mut r = run(GameMode::ArenaNormal);
    r.round = 1;
    r.rerolls = 4;
    r.open_round(77, &settings());
    assert_eq!((r.g, r.rerolls, r.free_rerolls), (17, 0, 2));
    assert_eq!(r.battles, vec![77]);
    r.round = 5;
    r.open_round(78, &settings());
    assert_eq!(r.g, 31);
}

#[test]
fn buying_from_the_shop_uses_the_slot_price() {
    let mut r = run(GameMode::ArenaNormal);
    r.shop_slots = vec![ShopSlot { buy_price: 5, ..offer("Wolf", true, false) }, ShopSlot { buy_price: 9, ..offer("Bear", true, false) }];
    assert_eq!(r.shop_buy(1), Err(ArenaError::NotEnoughG));
    assert_eq!(r.shop_buy(0), Ok("Wolf".to_string()));
    assert_eq!(r.g, 2);
    assert_eq!(r.shop_buy(0), Err(ArenaError::UnitAlreadyBought));
}


#[test]
fn saving_lists_prices_and_targets() {
    let mut r = run(GameMode::ArenaNormal);
    r.shop_slots = vec![offer("Wolf", true, false), offer("Bear", false, false)];
    let unit_rarities = vec![0, 2, 1];
    let stack_onto = vec![vec![false, true, true], vec![true, true, false], vec![false, false, false]];
    let fuse_with = vec![vec![false, false, true], vec![false, false, false], vec![true, true, true]];
    let shop_stack = vec![vec![true, false, true], vec![true, true, true]];
    r.save(99, &unit_rarities, &stack_onto, &fuse_with, &shop_stack, &rarities(), &settings());
    assert_eq!(r.last_updated, 99);
    assert_eq!(r.shop_slots[0].stack_targets, vec![0, 2]);
    assert!(r.shop_slots[1].stack_targets.is_empty());
    assert_eq!(r.team_slots.len(), 3);
    assert_eq!((r.team_slots[0].sell_price, r.team_slots[1].sell_price, r.team_slots[2].sell_price), (2, 7, 4));
    assert_eq!(r.team_slots[0].stack_targets, vec![1, 2]);
    assert_eq!(r.team_slots[1].stack_targets, vec![0]);
    assert_eq!(r.team_slots[0].fuse_targets, vec![2]);
    assert_eq!(r.team_slots[2].fuse_targets, vec![0, 1]);
}

#[test]
fn successive_ids_are_fresh() {
    let mut c = 7;
    let ids: Vec<u64> = (0..5).map(|_| next_id(&mut c)).collect();
    assert_eq!(ids, vec![8, 9, 10, 11, 12]);
    for i in 0..ids.len() {
        for j in (i + 1)..ids.len() {
            assert_ne!(ids[i], ids[j]);
        }
    }
}
