use arena_of_ideas::arena::{MetaSettings, ShopSlot};
use arena_of_ideas::shop::{reconcile_units, ShopPlugin};
use arena_of_ideas::bindings::{
    add_user_ladder, finish_building_ladder, run_start, run_submit_result, set_password,
    ArenaArchive, FinishBuildingLadderArgs, Run, RunStartArgs, RunSubmitResultArgs,
};
use arena_of_ideas::cli::{target_state, Args, RunMode, TargetState};
use arena_of_ideas::colors::{black, dark_gray, light_black, light_gray, red, white, yellow, Color32};
use arena_of_ideas::login::{LoginData, LoginPlugin, RegisterData};
use arena_of_ideas::meta_shop::{ItemKind, TMetaShop};
use arena_of_ideas::model::{AttachStatusEffect, Rarity, TargetFilter};
use arena_of_ideas::world::{Faction, VarName};

fn meta() -> MetaSettings {
    MetaSettings { price_lootbox: 100, price_shard: 30, shop_refresh_period_secs: 3600, shop_shard_slots: 2 }
}

fn run_row(id: u64, user_id: u64) -> Run<String> {
    Run { id, user_id, team: Vec::new(), shop: Vec::new(), fusion: None, round: 0, last_updated: 0 }
}

#[test]
fn ui_colors() {
    assert_eq!(light_gray(), Color32 { r: 0x6F, g: 0x6F, b: 0x6F, a: 255 });
    assert_eq!(dark_gray(), Color32 { r: 0x39, g: 0x39, b: 0x39, a: 255 });
    assert_eq!(black(), Color32 { r: 0, g: 0, b: 0, a: 255 });
    assert_eq!(light_black(), Color32 { r: 0x20, g: 0x20, b: 0x20, a: 255 });
    assert_eq!(white(), Color32 { r: 255, g: 255, b: 255, a: 255 });
    assert_eq!(yellow(), Color32 { r: 0xD9, g: 0x8F, b: 0x00, a: 255 });
    assert_eq!(red(), Color32 { r: 0xE5, g: 0x39, b: 0x35, a: 255 });
}

#[test]
fn target_filters() {
    assert!(TargetFilter::All.matches(Faction::Left, Faction::Right));
    assert!(TargetFilter::Allies.matches(Faction::Left, Faction::Left));
    assert!(!TargetFilter::Allies.matches(Faction::Left, Faction::Right));
    assert!(TargetFilter::Enemies.matches(Faction::Left, Faction::Right));
    assert!(!TargetFilter::Enemies.matches(Faction::Shop, Faction::Shop));
}

#[test]
fn rarity_weights() {
    assert_eq!(Rarity::Common.weight(), 100);
    assert_eq!(Rarity::Rare.weight(), 25);
    assert_eq!(Rarity::Epic.weight(), 10);
    assert_eq!(Rarity::Legendary.weight(), 3);
}

#[test]
fn attach_status_keeps_its_vars() {
    let e = AttachStatusEffect::new("Shield".to_string(), vec![(VarName::Charges, 2)]);
    assert_eq!(e.status, "Shield");
    assert_eq!(e.vars, vec![(VarName::Charges, 2)]);
}

#[test]
fn meta_shop_offers_lootbox_then_shards() {
    let offers = TMetaShop::refresh(5, &vec![8, 9], &meta());
    assert_eq!(
        offers,
        vec![
            TMetaShop { id: 5, item_kind: ItemKind::Lootbox, price: 100 },
            TMetaShop { id: 8, item_kind: ItemKind::UnitShard, price: 30 },
            TMetaShop { id: 9, item_kind: ItemKind::UnitShard, price: 30 },
        ]
    );
}

#[test]
fn shards_are_drawn_once_each() {
    let units = vec!["A".to_string(), "B".to_string(), "C".to_string()];
    let drawn = TMetaShop::draw_shards(&units, &meta());
    assert_eq!(drawn.len(), 2);
    assert_ne!(drawn[0], drawn[1]);
    assert!(drawn.iter().all(|d| units.contains(d)));
    let few = vec!["A".to_string()];
    assert_eq!(TMetaShop::draw_shards(&few, &meta()), vec!["A".to_string()]);
}

#[test]
fn requests_carry_their_arguments() {
    assert_eq!(add_user_ladder(vec!["l1".to_string()]).levels, vec!["l1".to_string()]);
    assert_eq!(finish_building_ladder(), FinishBuildingLadderArgs {});
    assert_eq!(run_start(), RunStartArgs {});
    assert_eq!(run_submit_result(true), RunSubmitResultArgs { win: true });
    let p = set_password("old".to_string(), "new".to_string());
    assert_eq!((p.old_pass.as_str(), p.new_pass.as_str()), ("old", "new"));
}

#[test]
fn rows_are_found_by_key() {
    let rows = vec![run_row(1, 10), run_row(2, 20), run_row(3, 20)];
    assert_eq!(Run::filter_by_id(&rows, 2).map(|r| r.user_id), Some(20));
    assert!(Run::filter_by_id(&rows, 9).is_none());
    assert_eq!(Run::filter_by_user_id(&rows, 20).map(|r| r.id), Some(2));
    let archive: Vec<ArenaArchive<String>> = vec![ArenaArchive { id: 4, user_id: 1, round: 3, wins: 2, loses: 1, team: Vec::new(), timestamp: 0 }];
    assert_eq!(ArenaArchive::filter_by_id(&archive, 4).map(|a| a.wins), Some(2));
    assert!(ArenaArchive::filter_by_id(&archive, 5).is_none());
}

#[test]
fn login_state() {
    let mut l = LoginPlugin::new();
    assert!(!l.is_connected());
    assert!(l.get_user_data().is_none());
    l.save_current_user("ann".to_string(), 7, [1; 32]);
    let u = l.get_user_data().unwrap();
    assert_eq!((u.name.as_str(), u.id, u.identity), ("ann", 7, [1; 32]));
}

#[test]
fn forms_need_their_fields() {
    let mut login = LoginData { name: "ann".to_string(), pass: String::new(), login_sent: false };
    assert!(!login.can_login());
    login.pass = "pw".to_string();
    assert!(login.can_login());
    let mut reg = RegisterData { name: "ann".to_string(), pass: "pw".to_string(), pass_repeat: "pW".to_string() };
    assert!(!reg.can_register());
    reg.pass_repeat = "pw".to_string();
    assert!(reg.can_register());
    reg.name = String::new();
    assert!(!reg.can_register());
}

#[test]
fn start_modes() {
    let a = Args::new();
    assert_eq!(a.mode, RunMode::Regular);
    assert!(a.path.is_none());
    assert_eq!(target_state(RunMode::Regular), TargetState::CustomBattle);
    assert_eq!(target_state(RunMode::Custom), TargetState::CustomBattle);
    assert_eq!(target_state(RunMode::Test), TargetState::TestScenariosRun);
}

#[test]
fn syncing_keeps_spawns_and_despawns() {
    let shop = vec![
        ShopSlot { id: 5, available: true, ..ShopSlot::new() },
        ShopSlot { id: 6, available: false, ..ShopSlot::new() },
        ShopSlot { id: 7, available: true, ..ShopSlot::new() },
    ];
    let plan = ShopPlugin::sync_run(&shop, &vec![Some(1), None, Some(3)], &vec![7, 6, 9], &vec![3, 2]);
    assert_eq!(plan.shop_keep, vec![7]);
    assert_eq!(plan.shop_spawn, vec![(1, 5)]);
    assert_eq!(plan.shop_despawn, vec![6, 9]);
    assert_eq!(plan.team_keep, vec![(3, 3)]);
    assert_eq!(plan.team_spawn, vec![(1, 1)]);
    assert_eq!(plan.team_despawn, vec![2]);
    let (keep, spawn, rest) = reconcile_units(&vec![Some(4), Some(4)], &vec![4]);
    assert_eq!((keep, spawn, rest), (vec![(1, 4)], vec![(2, 4)], vec![]));
}
