//! An arena run as the server keeps it: the shop, gold, rerolls, lives,
//! rounds and rewards, and the changes each request of the player makes.
use vstd::prelude::*;

verus! {

/// The kind of arena a run is played in; a constant arena is seeded.
#[derive(Debug, PartialEq, Eq)]
pub enum GameMode {
    ArenaNormal,
    ArenaRanked,
    ArenaConst(String),
}

/// Why a request on a run was refused.
#[derive(Clone, Copy, Debug, PartialEq, Eq, Structural)]
pub enum ArenaError {
    WrongShopSlot,
    UnitAlreadyBought,
    NotEnoughG,
    SlotAlreadyFrozen,
    SlotAlreadyUnfrozen,
    WrongFromIndex,
    SlotIsEmpty,
    FusionNotStarted,
    WrongFusionIndex,
    LastBattleNotPresent,
    ResultAlreadySubmitted,
}

/// One offer of the shop.
#[derive(Debug)]
pub struct ShopSlot {
    pub unit: String,
    pub id: u64,
    pub buy_price: i32,
    pub stack_price: i32,
    pub freeze: bool,
    pub discount: bool,
    pub available: bool,
    pub stack_targets: Vec<u8>,
    pub house_filter: Vec<String>,
}

impl ShopSlot {
    /// An empty offer.
    pub fn new() -> (r: ShopSlot)
        ensures
            r.unit@.len() == 0,
            r.id == 0,
            r.buy_price == 0,
            r.stack_price == 0,
            !r.freeze,
            !r.discount,
            !r.available,
            r.stack_targets@.len() == 0,
            r.house_filter@.len() == 0,
    {
        ShopSlot {
            unit: String::new(),
            id: 0,
            buy_price: 0,
            stack_price: 0,
            freeze: false,
            discount: false,
            available: false,
            stack_targets: Vec::new(),
            house_filter: Vec::new(),
        }
    }
}

/// What the shop knows of one unit of the team.
#[derive(Debug)]
pub struct TeamSlot {
    pub stack_targets: Vec<u8>,
    pub fuse_targets: Vec<u8>,
    pub sell_price: i32,
}

/// A fusion in progress: the units it may give, and the two team slots
/// fused.
#[derive(Debug)]
pub struct Fusion<U> {
    pub options: Vec<U>,
    pub a: u8,
    pub b: u8,
}

/// A reward earned in a run.
#[derive(Debug)]
pub struct Reward {
    pub name: String,
    pub amount: i64,
}

impl Reward {
    pub fn new(name: String, amount: i64) -> (r: Reward)
        ensures
            r.name == name,
            r.amount == amount,
    {
        Reward { name, amount }
    }
}

/// The arena's settings, as far as the run's rules read them.
#[derive(Debug)]
pub struct ArenaSettings {
    pub ranked_cost_min: i64,
    pub ranked_cost_max: i64,
    pub ranked_cost_increase: i64,
    pub const_cost_min: i64,
    pub const_cost_max: i64,
    pub const_cost_increase: i64,
    pub slots_min: u32,
    pub slots_max: u32,
    pub g_start: i32,
    pub g_income_min: i32,
    pub g_income_max: i32,
    pub g_income_per_round: i32,
    pub price_reroll: i32,
    pub sell_discount: i32,
    pub stack_discount: i32,
    pub team_slots: u32,
    pub lives_initial: u32,
    pub lives_per_wins: u32,
    pub free_rerolls_initial: u32,
    pub free_rerolls_income: u32,
}

/// Prices and draw weights of the unit rarities.
#[derive(Debug)]
pub struct RaritySettings {
    pub prices: Vec<i32>,
    pub weights_initial: Vec<i32>,
    pub weights_per_round: Vec<i32>,
    pub lootbox_weights: Vec<i32>,
}

/// Prices and sizes of the meta shop.
#[derive(Debug)]
pub struct MetaSettings {
    pub price_lootbox: i64,
    pub price_shard: i64,
    pub shop_refresh_period_secs: u64,
    pub shop_shard_slots: u32,
}

/// A run of the arena.
#[derive(Debug)]
pub struct TArenaRun<U> {
    pub mode: GameMode,
    pub id: u64,
    pub owner: u64,
    pub team: u64,
    pub battles: Vec<u64>,
    pub enemies: Vec<u64>,
    pub shop_slots: Vec<ShopSlot>,
    pub team_slots: Vec<TeamSlot>,
    pub fusion: Option<Fusion<U>>,
    pub g: i32,
    pub price_reroll: i32,
    pub free_rerolls: u32,
    pub lives: u32,
    pub active: bool,
    pub finale: bool,
    pub round: u32,
    pub rerolls: u32,
    pub score: u32,
    pub rewards: Vec<Reward>,
    pub reward_limit: i64,
    /// When the run was last saved, in microseconds.
    pub last_updated: u64,
}

/// A finished run, as archived.
#[derive(Debug)]
pub struct TArenaRunArchive {
    pub mode: GameMode,
    pub id: u64,
    pub owner: u64,
    pub team: u64,
    pub battles: Vec<u64>,
    pub round: u32,
}

impl TArenaRunArchive {
    /// The archive entry of a run.
    pub fn add_from_run<U>(run: TArenaRun<U>) -> (r: TArenaRunArchive)
        ensures
            r == (TArenaRunArchive { mode: run.mode, id: run.id, owner: run.owner, team: run.team, battles: run.battles, round: run.round }),
    {
        TArenaRunArchive { mode: run.mode, id: run.id, owner: run.owner, team: run.team, battles: run.battles, round: run.round }
    }
}

/// The most a run may pay out: a normal or constant run is capped at the
/// least entry cost of a ranked run, a ranked run is not capped.
pub open spec fn reward_limit_of(mode: GameMode, ars: ArenaSettings) -> i64 {
    match mode {
        GameMode::ArenaRanked => 0,
        _ => ars.ranked_cost_min,
    }
}

/// The next identifier: one past the last one given out.
pub fn next_id(counter: &mut u64) -> (r: u64)
    requires
        *old(counter) < u64::MAX,
    ensures
        r == *old(counter) + 1,
        *final(counter) == r,
{
    *counter = *counter + 1;
    *counter
}

/// Identifiers handed out by successive calls of `next_id` are fresh: when
/// each call starts from the counter the one before left, as `next_id`
/// leaves it, the identifiers rise with every call and no two are the same.
pub proof fn lemma_next_ids_distinct(counters: Seq<u64>, ids: Seq<u64>)
    requires
        counters.len() == ids.len() + 1,
        forall|k: int| 0 <= k < ids.len() ==> #[trigger] ids[k] == counters[k] + 1 && counters[k + 1] == ids[k],
    ensures
        forall|i: int, j: int| 0 <= i < j < ids.len() ==> ids[i] < ids[j],
        forall|i: int, j: int| 0 <= i < j < ids.len() ==> ids[i] != ids[j],
    decreases ids.len(),
{
    if ids.len() > 0 {
        let n = ids.len() - 1;
        lemma_next_ids_distinct(counters.drop_last(), ids.drop_last());
        assert forall|i: int| 0 <= i < n implies ids[i] < #[trigger] ids[n] by {
            assert(ids.drop_last()[i] == ids[i]);
            lemma_next_ids_rise(counters, ids, i, n);
        }
        assert forall|i: int, j: int| 0 <= i < j < ids.len() implies ids[i] < ids[j] by {
            if j < n {
                assert(ids.drop_last()[i] == ids[i] && ids.drop_last()[j] == ids[j]);
            }
        }
    }
}

/// Each identifier handed out is below every later one.
proof fn lemma_next_ids_rise(counters: Seq<u64>, ids: Seq<u64>, i: int, j: int)
    requires
        counters.len() == ids.len() + 1,
        forall|k: int| 0 <= k < ids.len() ==> #[trigger] ids[k] == counters[k] + 1 && counters[k + 1] == ids[k],
        0 <= i < j < ids.len(),
    ensures
        ids[i] < ids[j],
    decreases j - i,
{
    assert(ids[j] == counters[j] + 1);
    assert(counters[j] == ids[j - 1]);
    if i < j - 1 {
        lemma_next_ids_rise(counters, ids, i, j - 1);
    }
}

/// A shop slot once its unit is bought.
pub open spec fn bought(s: ShopSlot) -> ShopSlot {
    ShopSlot { available: false, ..s }
}

/// The run differs from `a` at most in its gold and shop.
pub open spec fn same_but_shop<U>(a: TArenaRun<U>, b: TArenaRun<U>) -> bool {
    a == TArenaRun::<U> { g: a.g, shop_slots: a.shop_slots, ..b }
}

impl<U> TArenaRun<U> {
    /// A fresh run of `owner` in `mode`: gold, reroll price, lives and free
    /// rerolls from the settings, the enemies given, and nothing else yet.
    pub fn new(id: u64, owner: u64, team: u64, mode: GameMode, ars: &ArenaSettings, enemies: Vec<u64>, now: u64) -> (r: TArenaRun<U>)
        ensures
            r.mode == mode,
            r.id == id,
            r.owner == owner,
            r.team == team,
            r.battles@.len() == 0,
            r.enemies == enemies,
            r.shop_slots@.len() == 0,
            r.team_slots@.len() == 0,
            r.fusion is None,
            r.g == ars.g_start,
            r.price_reroll == ars.price_reroll,
            r.free_rerolls == ars.free_rerolls_initial,
            r.lives == ars.lives_initial,
            r.active,
            !r.finale,
            r.round == 0,
            r.rerolls == 0,
            r.score == 0,
            r.rewards@.len() == 0,
            r.reward_limit == 0,
            r.last_updated == now,
    {
        TArenaRun {
            mode,
            id,
            owner,
            team,
            battles: Vec::new(),
            enemies,
            shop_slots: Vec::new(),
            team_slots: Vec::new(),
            fusion: None,
            g: ars.g_start,
            price_reroll: ars.price_reroll,
            free_rerolls: ars.free_rerolls_initial,
            lives: ars.lives_initial,
            active: true,
            finale: false,
            round: 0,
            rerolls: 0,
            score: 0,
            rewards: Vec::new(),
            reward_limit: 0,
            last_updated: now,
        }
    }

    /// A fresh run with its payout capped as its mode wants.
    pub fn start(id: u64, owner: u64, team: u64, mode: GameMode, ars: &ArenaSettings, enemies: Vec<u64>, now: u64) -> (r: TArenaRun<U>)
        ensures
            r.reward_limit == reward_limit_of(mode, *ars),
            r.mode == mode,
            r.id == id,
            r.owner == owner,
            r.team == team,
            r.battles@.len() == 0,
            r.enemies == enemies,
            r.shop_slots@.len() == 0,
            r.team_slots@.len() == 0,
            r.fusion is None,
            r.g == ars.g_start,
            r.price_reroll == ars.price_reroll,
            r.free_rerolls == ars.free_rerolls_initial,
            r.lives == ars.lives_initial,
            r.active,
            !r.finale,
            r.round == 0,
            r.rerolls == 0,
            r.score == 0,
            r.rewards@.len() == 0,
            r.last_updated == now,
    {
        let limit = match &mode {
            GameMode::ArenaRanked => 0,
            _ => ars.ranked_cost_min,
        };
        let mut run = TArenaRun::new(id, owner, team, mode, ars, enemies, now);
        run.reward_limit = limit;
        run
    }

    /// Buys the unit of a shop slot for `price`: the slot must hold an
    /// available unit and the run enough gold. Gives the unit's name.
    pub fn buy(&mut self, slot: u8, price: i32) -> (r: Result<String, ArenaError>)
        requires
            slot < old(self).shop_slots@.len() && old(self).shop_slots@[slot as int].available && price <= old(self).g
                ==> old(self).g - price <= i32::MAX,
        ensures
            slot >= old(self).shop_slots@.len() ==> r == Err::<String, ArenaError>(ArenaError::WrongShopSlot),
            slot < old(self).shop_slots@.len() && !old(self).shop_slots@[slot as int].available
                ==> r == Err::<String, ArenaError>(ArenaError::UnitAlreadyBought),
            slot < old(self).shop_slots@.len() && old(self).shop_slots@[slot as int].available && price > old(self).g
                ==> r == Err::<String, ArenaError>(ArenaError::NotEnoughG),
            r is Err ==> *final(self) == *old(self),
            r is Ok ==> {
                &&& slot < old(self).shop_slots@.len()
                &&& old(self).shop_slots@[slot as int].available
                &&& price <= old(self).g
                &&& r == Ok::<String, ArenaError>(old(self).shop_slots@[slot as int].unit)
                &&& final(self).g == old(self).g - price
                &&& final(self).shop_slots@ == old(self).shop_slots@.update(slot as int, bought(old(self).shop_slots@[slot as int]))
                &&& same_but_shop(*final(self), *old(self))
            },
    {
        let i = slot as usize;
        if i >= self.shop_slots.len() {
            return Err(ArenaError::WrongShopSlot);
        }
        if !self.shop_slots[i].available {
            return Err(ArenaError::UnitAlreadyBought);
        }
        if price > self.g {
            return Err(ArenaError::NotEnoughG);
        }
        self.g = self.g - price;
        self.shop_slots[i].available = false;
        assert(self.shop_slots@ =~= old(self).shop_slots@.update(slot as int, bought(old(self).shop_slots@[slot as int])));
        Ok(self.shop_slots[i].unit.clone())
    }

    /// Buys the unit of a shop slot at the slot's price; the unit is then
    /// made from the name given back and joins the team.
    pub fn shop_buy(&mut self, slot: u8) -> (r: Result<String, ArenaError>)
        requires
            slot < old(self).shop_slots@.len(),
            old(self).shop_slots@[slot as int].available && old(self).shop_slots@[slot as int].buy_price <= old(self).g
                ==> old(self).g - old(self).shop_slots@[slot as int].buy_price <= i32::MAX,
        ensures
            !old(self).shop_slots@[slot as int].available ==> r == Err::<String, ArenaError>(ArenaError::UnitAlreadyBought),
            old(self).shop_slots@[slot as int].available && old(self).shop_slots@[slot as int].buy_price > old(self).g
                ==> r == Err::<String, ArenaError>(ArenaError::NotEnoughG),
            r is Err ==> *final(self) == *old(self),
            r is Ok ==> {
                &&& r == Ok::<String, ArenaError>(old(self).shop_slots@[slot as int].unit)
                &&& final(self).g == old(self).g - old(self).shop_slots@[slot as int].buy_price
                &&& final(self).shop_slots@ == old(self).shop_slots@.update(slot as int, bought(old(self).shop_slots@[slot as int]))
                &&& same_but_shop(*final(self), *old(self))
            },
    {
        let price = self.shop_slots[slot as usize].buy_price;
        self.buy(slot, price)
    }

    /// Takes the unit in `slot` out of the team, if there is one.
    pub fn remove_team(&mut self, team: &mut Vec<U>, slot: usize) -> (r: Result<U, ArenaError>)
        ensures
            *final(self) == *old(self),
            slot < old(team)@.len() ==> r == Ok::<U, ArenaError>(old(team)@[slot as int]) && final(team)@ == old(team)@.remove(slot as int),
            slot >= old(team)@.len() ==> r == Err::<U, ArenaError>(ArenaError::SlotIsEmpty) && final(team)@ == old(team)@,
    {
        if team.len() > slot {
            let unit = team.remove(slot);
            Ok(unit)
        } else {
            Err(ArenaError::SlotIsEmpty)
        }
    }

    /// Puts a unit at the front of the team.
    pub fn add_to_team(&mut self, team: &mut Vec<U>, unit: U)
        ensures
            *final(self) == *old(self),
            final(team)@ == seq![unit] + old(team)@,
    {
        team.insert(0, unit);
        assert(team@ =~= seq![unit] + old(team)@);
    }

    /// Sells the unit in a team slot for that slot's price.
    pub fn sell(&mut self, team: &mut Vec<U>, slot: usize) -> (r: Result<(), ArenaError>)
        requires
            slot < old(team)@.len() ==> slot < old(self).team_slots@.len()
                && i32::MIN <= old(self).g + old(self).team_slots@[slot as int].sell_price <= i32::MAX,
        ensures
            slot >= old(team)@.len() ==> r == Err::<(), ArenaError>(ArenaError::SlotIsEmpty) && *final(self) == *old(self) && final(team)@ == old(team)@,
            slot < old(team)@.len() ==> {
                &&& r is Ok
                &&& final(team)@ == old(team)@.remove(slot as int)
                &&& *final(self) == (TArenaRun::<U> { g: (old(self).g + old(self).team_slots@[slot as int].sell_price) as i32, ..*old(self) })
            },
    {
        let _unit = self.remove_team(team, slot)?;
        self.g = self.g + self.team_slots[slot].sell_price;
        Ok(())
    }

    /// Freezes or unfreezes a shop slot; asking for the state it is already
    /// in is refused.
    pub fn shop_set_freeze(&mut self, slot: u8, value: bool) -> (r: Result<(), ArenaError>)
        ensures
            slot >= old(self).shop_slots@.len() ==> r == Err::<(), ArenaError>(ArenaError::WrongShopSlot),
            slot < old(self).shop_slots@.len() && old(self).shop_slots@[slot as int].freeze == value
                ==> r == (if value { Err::<(), ArenaError>(ArenaError::SlotAlreadyFrozen) } else { Err::<(), ArenaError>(ArenaError::SlotAlreadyUnfrozen) }),
            r is Err ==> *final(self) == *old(self),
            r is Ok ==> {
                &&& slot < old(self).shop_slots@.len()
                &&& old(self).shop_slots@[slot as int].freeze != value
                &&& final(self).shop_slots@ == old(self).shop_slots@.update(slot as int, ShopSlot { freeze: value, ..old(self).shop_slots@[slot as int] })
                &&& *final(self) == (TArenaRun::<U> { shop_slots: final(self).shop_slots, ..*old(self) })
            },
    {
        let i = slot as usize;
        if i >= self.shop_slots.len() {
            return Err(ArenaError::WrongShopSlot);
        }
        if self.shop_slots[i].freeze == value {
            if value {
                return Err(ArenaError::SlotAlreadyFrozen);
            } else {
                return Err(ArenaError::SlotAlreadyUnfrozen);
            }
        }
        self.shop_slots[i].freeze = value;
        assert(self.shop_slots@ =~= old(self).shop_slots@.update(slot as int, ShopSlot { freeze: value, ..old(self).shop_slots@[slot as int] }));
        Ok(())
    }

    /// Pays for a reroll of the shop: with a free reroll, or else with gold
    /// at the reroll price; counts the reroll.
    pub fn shop_reroll(&mut self) -> (r: Result<(), ArenaError>)
        requires
            old(self).rerolls < u32::MAX,
            old(self).free_rerolls == 0 && old(self).g >= old(self).price_reroll ==> old(self).g - old(self).price_reroll <= i32::MAX,
        ensures
            old(self).free_rerolls > 0 ==> r is Ok && *final(self) == (TArenaRun::<U> { free_rerolls: (old(self).free_rerolls - 1) as u32, rerolls: (old(self).rerolls + 1) as u32, ..*old(self) }),
            old(self).free_rerolls == 0 && old(self).g < old(self).price_reroll ==> r == Err::<(), ArenaError>(ArenaError::NotEnoughG) && *final(self) == *old(self),
            old(self).free_rerolls == 0 && old(self).g >= old(self).price_reroll ==> r is Ok && *final(self) == (TArenaRun::<U> { g: (old(self).g - old(self).price_reroll) as i32, rerolls: (old(self).rerolls + 1) as u32, ..*old(self) }),
    {
        if self.free_rerolls > 0 {
            self.free_rerolls = self.free_rerolls - 1;
        } else {
            if self.g < self.price_reroll {
                return Err(ArenaError::NotEnoughG);
            }
            self.g = self.g - self.price_reroll;
        }
        self.rerolls = self.rerolls + 1;
        Ok(())
    }

    /// Changes the gold by `delta`.
    pub fn shop_change_g(&mut self, delta: i32)
        requires
            i32::MIN <= old(self).g + delta <= i32::MAX,
        ensures
            *final(self) == (TArenaRun::<U> { g: (old(self).g + delta) as i32, ..*old(self) }),
    {
        self.g = self.g + delta;
    }

    /// Drops the fusion in progress.
    pub fn fuse_cancel(&mut self) -> (r: Result<(), ArenaError>)
        ensures
            old(self).fusion is None ==> r == Err::<(), ArenaError>(ArenaError::FusionNotStarted) && *final(self) == *old(self),
            old(self).fusion is Some ==> r is Ok && *final(self) == (TArenaRun::<U> { fusion: None, ..*old(self) }),
    {
        if self.fusion.is_none() {
            return Err(ArenaError::FusionNotStarted);
        }
        self.fusion = None;
        Ok(())
    }
}

/// The team with the unit at `from` moved to `to`, where `to` is held to
/// the last place.
pub open spec fn reordered<U>(team: Seq<U>, from: int, to: int) -> Seq<U> {
    let to = if to < team.len() - 1 { to } else { team.len() - 1 };
    team.remove(from).insert(to, team[from])
}

/// Moves the unit at `from` to `to`, where `to` is held to the last place.
pub fn shop_reorder<U>(team: &mut Vec<U>, from: u8, to: u8) -> (r: Result<(), ArenaError>)
    requires
        old(team)@.len() > 0,
        from != old(team)@.len(),
    ensures
        old(team)@.len() < from ==> r == Err::<(), ArenaError>(ArenaError::WrongFromIndex) && final(team)@ == old(team)@,
        from < old(team)@.len() ==> r is Ok && final(team)@ == reordered(old(team)@, from as int, to as int),
{
    let from = from as usize;
    let last = team.len() - 1;
    let to = if (to as usize) < last { to as usize } else { last };
    if team.len() < from {
        return Err(ArenaError::WrongFromIndex);
    }
    let unit = team.remove(from);
    team.insert(to, unit);
    Ok(())
}

/// The outcome of a battle as the server records it.
#[derive(Clone, Copy, Debug, PartialEq, Eq, Structural)]
pub enum TBattleResult {
    Tbd,
    Left,
    Right,
    Even,
}

/// Whether a recorded battle counts as won by its left team: a left win or
/// a draw.
pub open spec fn battle_won(r: TBattleResult) -> bool {
    r == TBattleResult::Left || r == TBattleResult::Even
}

impl TBattleResult {
    pub fn is_win(&self) -> (r: bool)
        ensures
            r == battle_won(*self),
    {
        match self {
            TBattleResult::Left | TBattleResult::Even => true,
            _ => false,
        }
    }
}

/// The sum of the rewards' amounts.
pub open spec fn reward_sum(rs: Seq<Reward>) -> int
    decreases rs.len(),
{
    if rs.len() == 0 { 0 } else { reward_sum(rs.drop_last()) + rs.last().amount }
}

/// Every running total of the rewards fits in an `i64`.
pub open spec fn rewards_fit(rs: Seq<Reward>) -> bool {
    forall|k: int| 0 <= k <= rs.len() ==> i64::MIN <= #[trigger] reward_sum(rs.subrange(0, k)) <= i64::MAX
}

/// What finishing a run pays: the sum of its rewards, held to its limit
/// when it has one.
pub open spec fn payout(rs: Seq<Reward>, limit: i64) -> int {
    let total = reward_sum(rs);
    if limit > 0 && limit < total { limit as int } else { total }
}

/// The gold a new round brings: the base income plus the income per round,
/// but at least the top income.
pub open spec fn round_income(ars: ArenaSettings, round: u32) -> int {
    let v = ars.g_income_min + ars.g_income_per_round * (round as i32);
    if v < ars.g_income_max { ars.g_income_max as int } else { v }
}

/// The run a finish leaves: inactive, with the score's reward and, when the
/// finale's champion was beaten, the champion's reward.
pub open spec fn finish_rewards(ranked: bool, score: u32, champion_beaten: bool) -> Seq<(Seq<char>, i64)> {
    let first = if ranked { seq![("Ranked score * 2"@, (score * 2) as i64)] } else { seq![("Score"@, score as i64)] };
    if champion_beaten { first.push(("Champion defeated"@, 10i64)) } else { first }
}

impl<U> TArenaRun<U> {
    /// Ends the fusion in progress with its option `slot`: the option takes
    /// the place of the unit at `a`, and the unit at `b` leaves the team.
    pub fn fuse_choose(&mut self, team: &mut Vec<U>, slot: u8) -> (r: Result<(), ArenaError>)
        requires
            match old(self).fusion {
                Some(f) => slot < f.options@.len() ==> f.a < old(team)@.len() && f.b < old(team)@.len(),
                None => true,
            },
        ensures
            old(self).fusion is None ==> r == Err::<(), ArenaError>(ArenaError::FusionNotStarted),
            match old(self).fusion {
                Some(f) => slot >= f.options@.len() ==> r == Err::<(), ArenaError>(ArenaError::WrongFusionIndex),
                None => true,
            },
            r is Err ==> *final(self) == *old(self) && final(team)@ == old(team)@,
            r is Ok ==> match old(self).fusion {
                Some(f) => {
                    &&& slot < f.options@.len()
                    &&& final(team)@ == old(team)@.update(f.a as int, f.options@[slot as int]).remove(f.b as int)
                    &&& *final(self) == (TArenaRun::<U> { fusion: None, ..*old(self) })
                },
                None => false,
            },
    {
        let fusion = match self.fusion.take() {
            Some(f) => f,
            None => return Err(ArenaError::FusionNotStarted),
        };
        let i = slot as usize;
        if i >= fusion.options.len() {
            self.fusion = Some(fusion);
            return Err(ArenaError::WrongFusionIndex);
        }
        let Fusion { mut options, a, b } = fusion;
        let ghost opts = options@;
        let chosen = options.remove(i);
        team.remove(a as usize);
        team.insert(a as usize, chosen);
        assert(team@ =~= old(team)@.update(a as int, opts[slot as int]));
        team.remove(b as usize);
        Ok(())
    }

    /// Ends the run: it is no longer active and earns its score, doubled
    /// for a ranked run, and, when the finale's champion was beaten in the
    /// last battle, the champion's reward. Tells whether that reward was
    /// earned, so that the champion's place can be taken.
    pub fn finish(&mut self, last_battle_won: bool) -> (r: bool)
        requires
            old(self).rewards@.len() + 2 <= usize::MAX,
        ensures
            r == (old(self).finale && last_battle_won),
            final(self).rewards@.len() == old(self).rewards@.len() + if r { 2int } else { 1int },
            forall|k: int| 0 <= k < old(self).rewards@.len() ==> final(self).rewards@[k] == old(self).rewards@[k],
            ({
                let added = finish_rewards(old(self).mode is ArenaRanked, old(self).score, r);
                forall|k: int| 0 <= k < added.len() ==> {
                    &&& (#[trigger] final(self).rewards@[old(self).rewards@.len() + k]).name@ == added[k].0
                    &&& final(self).rewards@[old(self).rewards@.len() + k].amount == added[k].1
                }
            }),
            *final(self) == (TArenaRun::<U> { active: false, rewards: final(self).rewards, ..*old(self) }),
    {
        self.active = false;
        let ranked = match &self.mode {
            GameMode::ArenaRanked => true,
            _ => false,
        };
        let ghost n = self.rewards@.len();
        if ranked {
            let amount: i64 = self.score as i64 * 2;
            self.rewards.push(Reward::new("Ranked score * 2".to_string(), amount));
        } else {
            self.rewards.push(Reward::new("Score".to_string(), self.score as i64));
        }
        let beaten = self.finale && last_battle_won;
        if beaten {
            self.rewards.push(Reward::new("Champion defeated".to_string(), 10));
        }
        proof {
            reveal_strlit("Ranked score * 2");
            reveal_strlit("Score");
            reveal_strlit("Champion defeated");
        }
        beaten
    }

    /// Records the result of the run's last battle: a left win adds the
    /// round to the score, anything else costs a life, or all of them in the
    /// finale. With no life left, or the finale's last enemy met, the run is
    /// finished. Tells whether the finale's champion was beaten.
    pub fn submit_battle_result(&mut self, result: TBattleResult, last_battle_tbd: bool) -> (r: Result<bool, ArenaError>)
        requires
            old(self).rewards@.len() + 2 <= usize::MAX,
            old(self).battles@.len() > 0 && last_battle_tbd && result == TBattleResult::Left ==> old(self).score + old(self).round <= u32::MAX,
            old(self).battles@.len() > 0 && last_battle_tbd && result != TBattleResult::Left && !old(self).finale ==> old(self).lives > 0,
        ensures
            old(self).battles@.len() == 0 ==> r == Err::<bool, ArenaError>(ArenaError::LastBattleNotPresent),
            old(self).battles@.len() > 0 && !last_battle_tbd ==> r == Err::<bool, ArenaError>(ArenaError::ResultAlreadySubmitted),
            r is Err ==> *final(self) == *old(self),
            r is Ok ==> {
                let score = if result == TBattleResult::Left { old(self).score + old(self).round } else { old(self).score as int };
                let lives = if result == TBattleResult::Left { old(self).lives as int } else if old(self).finale { 0 } else { old(self).lives - 1 };
                let done = lives == 0 || (old(self).finale && old(self).enemies@.len() == 0);
                &&& old(self).battles@.len() > 0
                &&& last_battle_tbd
                &&& final(self).score == score
                &&& final(self).lives == lives
                &&& final(self).active == (old(self).active && !done)
                &&& r == Ok::<bool, ArenaError>(done && old(self).finale && battle_won(result))
                &&& !done ==> final(self).rewards == old(self).rewards
                &&& done ==> final(self).rewards@.len() == old(self).rewards@.len() + if old(self).finale && battle_won(result) { 2int } else { 1int }
                &&& *final(self) == (TArenaRun::<U> { score: final(self).score, lives: final(self).lives, active: final(self).active, rewards: final(self).rewards, ..*old(self) })
            },
    {
        if self.battles.len() == 0 {
            return Err(ArenaError::LastBattleNotPresent);
        }
        if !last_battle_tbd {
            return Err(ArenaError::ResultAlreadySubmitted);
        }
        match result {
            TBattleResult::Left => {
                self.score = self.score + self.round;
            },
            _ => {
                if self.finale {
                    self.lives = 0;
                } else {
                    self.lives = self.lives - 1;
                }
            },
        }
        if self.lives == 0 || (self.finale && self.enemies.len() == 0) {
            let won = result.is_win();
            let beaten = self.finish(won);
            return Ok(beaten);
        }
        Ok(false)
    }
}

/// Finishes a run: what it pays out, and its archive entry.
pub fn run_finish<U>(run: TArenaRun<U>) -> (r: (i64, TArenaRunArchive))
    requires
        rewards_fit(run.rewards@),
    ensures
        r.0 == payout(run.rewards@, run.reward_limit),
        r.1 == (TArenaRunArchive { mode: run.mode, id: run.id, owner: run.owner, team: run.team, battles: run.battles, round: run.round }),
{
    let mut total: i64 = 0;
    let mut i: usize = 0;
    while i < run.rewards.len()
        invariant
            0 <= i <= run.rewards.len(),
            rewards_fit(run.rewards@),
            total == reward_sum(run.rewards@.subrange(0, i as int)),
        decreases run.rewards.len() - i,
    {
        assert(run.rewards@.subrange(0, i as int + 1).drop_last() =~= run.rewards@.subrange(0, i as int));
        assert(i64::MIN <= reward_sum(run.rewards@.subrange(0, i as int + 1)) <= i64::MAX);
        total = total + run.rewards[i].amount;
        i = i + 1;
    }
    assert(run.rewards@.subrange(0, run.rewards@.len() as int) =~= run.rewards@);
    if run.reward_limit > 0 && run.reward_limit < total {
        total = run.reward_limit;
    }
    (total, TArenaRunArchive::add_from_run(run))
}

/// The houses with each one kept once, in the order they first appear.
pub open spec fn unique_names(s: Seq<Seq<char>>) -> Seq<Seq<char>>
    decreases s.len(),
{
    if s.len() == 0 {
        Seq::empty()
    } else {
        let d = unique_names(s.drop_last());
        if d.contains(s.last()) { d } else { d.push(s.last()) }
    }
}

/// The names that a list of strings holds.
pub open spec fn names_of(s: Seq<String>) -> Seq<Seq<char>> {
    s.map_values(|x: String| x@)
}

/// Keeps each name once, in the order they first appear.
pub fn unique_houses(houses: &Vec<String>) -> (r: Vec<String>)
    ensures
        names_of(r@) == unique_names(names_of(houses@)),
{
    let mut r: Vec<String> = Vec::new();
    let mut i: usize = 0;
    while i < houses.len()
        invariant
            0 <= i <= houses.len(),
            names_of(r@) == unique_names(names_of(houses@.subrange(0, i as int))),
        decreases houses.len() - i,
    {
        let h = &houses[i];
        let mut seen = false;
        let mut j: usize = 0;
        while j < r.len()
            invariant
                0 <= j <= r.len(),
                seen == exists|k: int| 0 <= k < j && r@[k]@ == h@,
            decreases r.len() - j,
        {
            if r[j] == *h {
                seen = true;
            }
            j = j + 1;
        }
        proof {
            let prev = names_of(houses@.subrange(0, i as int));
            let next = names_of(houses@.subrange(0, i as int + 1));
            assert(next.drop_last() =~= prev);
            assert(next.last() == h@);
            if seen {
                let k = choose|k: int| 0 <= k < r@.len() && r@[k]@ == h@;
                assert(names_of(r@)[k] == h@);
            } else {
                assert forall|k: int| 0 <= k < names_of(r@).len() implies names_of(r@)[k] != h@ by {
                    assert(names_of(r@)[k] == r@[k]@);
                }
            }
        }
        if !seen {
            let ghost before = r@;
            r.push(h.clone());
            assert(names_of(r@) =~= names_of(before).push(h@));
        }
        i = i + 1;
    }
    assert(houses@.subrange(0, houses@.len() as int) =~= houses@);
    r
}

/// A slot is kept through a refill when its unit is still for sale and it
/// is frozen.
pub open spec fn kept(s: ShopSlot) -> bool {
    s.available && s.freeze
}

/// An empty offer, whatever houses it is limited to.
pub open spec fn is_empty_offer(s: ShopSlot) -> bool {
    &&& s.unit@.len() == 0
    &&& s.id == 0
    &&& s.buy_price == 0
    &&& s.stack_price == 0
    &&& !s.freeze
    &&& !s.discount
    &&& !s.available
    &&& s.stack_targets@.len() == 0
}

/// An empty offer.
pub open spec fn is_empty_slot(s: ShopSlot) -> bool {
    &&& s.unit@.len() == 0
    &&& s.id == 0
    &&& s.buy_price == 0
    &&& s.stack_price == 0
    &&& !s.freeze
    &&& !s.discount
    &&& !s.available
    &&& s.stack_targets@.len() == 0
    &&& s.house_filter@.len() == 0
}

/// The draw weight of rarity `i` in a round: its initial weight plus its
/// weight per round for each round, but never below zero.
pub open spec fn shop_weight(rs: RaritySettings, i: int, round: u32) -> int {
    let v = rs.weights_initial@[i] + rs.weights_per_round@[i] * (round as i32);
    if v < 0 { 0 } else { v }
}

/// The draw weights of the rarities in a round.
pub fn shop_weights(rs: &RaritySettings, round: u32) -> (r: Vec<i32>)
    requires
        rs.weights_per_round@.len() >= rs.weights_initial@.len(),
        forall|i: int| 0 <= i < rs.weights_initial@.len() ==> i32::MIN <= #[trigger] rs.weights_per_round@[i] * (round as i32) <= i32::MAX
            && i32::MIN <= rs.weights_initial@[i] + rs.weights_per_round@[i] * (round as i32) <= i32::MAX,
    ensures
        r@.len() == rs.weights_initial@.len(),
        forall|i: int| 0 <= i < r@.len() ==> r@[i] == shop_weight(*rs, i, round),
{
    let round_i = round as i32;
    let mut r: Vec<i32> = Vec::new();
    let mut i: usize = 0;
    while i < rs.weights_initial.len()
        invariant
            0 <= i <= rs.weights_initial@.len(),
            round_i == round as i32,
            rs.weights_per_round@.len() >= rs.weights_initial@.len(),
            forall|i: int| 0 <= i < rs.weights_initial@.len() ==> i32::MIN <= #[trigger] rs.weights_per_round@[i] * (round as i32) <= i32::MAX
                && i32::MIN <= rs.weights_initial@[i] + rs.weights_per_round@[i] * (round as i32) <= i32::MAX,
            r@.len() == i,
            forall|k: int| 0 <= k < i ==> r@[k] == shop_weight(*rs, k, round),
        decreases rs.weights_initial.len() - i,
    {
        let grown = rs.weights_per_round[i] * round_i;
        let w = rs.weights_initial[i] + grown;
        r.push(if w < 0 { 0 } else { w });
        i = i + 1;
    }
    r
}

impl<U> TArenaRun<U> {
    /// Lays out the shop for a refill: `slots` slots, each keeping the frozen
    /// offer that stood there and otherwise empty. When the team has units,
    /// the first slot offers only their houses.
    pub fn fill_case(&mut self, slots: usize, team_houses: Option<Vec<String>>)
        requires
            team_houses is Some ==> slots > 0,
        ensures
            final(self).shop_slots@.len() == slots,
            forall|i: int| 0 <= i < slots && !(i == 0 && team_houses is Some) ==> {
                let s = #[trigger] final(self).shop_slots@[i];
                if i < old(self).shop_slots@.len() && kept(old(self).shop_slots@[i]) { s == old(self).shop_slots@[i] } else { is_empty_slot(s) }
            },
            team_houses matches Some(h) ==> {
                let s = final(self).shop_slots@[0];
                &&& names_of(s.house_filter@) == unique_names(names_of(h@))
                &&& if old(self).shop_slots@.len() > 0 && kept(old(self).shop_slots@[0]) {
                        s == ShopSlot { house_filter: s.house_filter, ..old(self).shop_slots@[0] }
                    } else {
                        is_empty_offer(s)
                    }
            },
            *final(self) == (TArenaRun::<U> { shop_slots: final(self).shop_slots, ..*old(self) }),
    {
        let ghost before = self.shop_slots@;
        let mut old_slots: Vec<ShopSlot> = Vec::new();
        std::mem::swap(&mut old_slots, &mut self.shop_slots);
        let mut i: usize = 0;
        while i < slots
            invariant
                0 <= i <= slots,
                self.shop_slots@.len() == i,
                old_slots@ == if i < before.len() { before.subrange(i as int, before.len() as int) } else { Seq::<ShopSlot>::empty() },
                forall|k: int| 0 <= k < i ==> {
                    let s = #[trigger] self.shop_slots@[k];
                    if k < before.len() && kept(before[k]) { s == before[k] } else { is_empty_slot(s) }
                },
                *self == (TArenaRun::<U> { shop_slots: self.shop_slots, ..*old(self) }),
            decreases slots - i,
        {
            let mut fresh = true;
            if old_slots.len() > 0 {
                let s = old_slots.remove(0);
                if s.available && s.freeze {
                    self.shop_slots.push(s);
                    fresh = false;
                }
            }
            if fresh {
                self.shop_slots.push(ShopSlot::new());
            }
            proof {
                if i + 1 < before.len() {
                    assert(old_slots@ =~= before.subrange(i as int + 1, before.len() as int));
                } else {
                    assert(old_slots@ =~= Seq::<ShopSlot>::empty());
                }
            }
            i = i + 1;
        }
        match team_houses {
            Some(h) => {
                let filter = unique_houses(&h);
                self.shop_slots[0].house_filter = filter;
            },
            None => {},
        }
    }

    /// Stocks the laid-out shop: every slot takes the next identifier, and
    /// each one not frozen offers the unit drawn for it, at the price of its
    /// rarity, and for stacking at that price less the stacking discount.
    pub fn stock_case(&mut self, picks: &Vec<(String, usize)>, counter: &mut u64, rs: &RaritySettings, ars: &ArenaSettings)
        requires
            picks@.len() == old(self).shop_slots@.len(),
            *old(counter) + old(self).shop_slots@.len() <= u64::MAX,
            forall|i: int| 0 <= i < picks@.len() && !old(self).shop_slots@[i].freeze ==> {
                &&& (#[trigger] picks@[i]).1 < rs.prices@.len()
                &&& i32::MIN <= rs.prices@[picks@[i].1 as int] - ars.stack_discount <= i32::MAX
            },
        ensures
            *final(counter) == *old(counter) + old(self).shop_slots@.len(),
            final(self).shop_slots@.len() == old(self).shop_slots@.len(),
            forall|i: int| 0 <= i < old(self).shop_slots@.len() ==> {
                let o = old(self).shop_slots@[i];
                let price = rs.prices@[picks@[i].1 as int];
                #[trigger] final(self).shop_slots@[i] == if o.freeze {
                    o
                } else {
                    ShopSlot {
                        available: true,
                        id: (*old(counter) + i + 1) as u64,
                        unit: picks@[i].0,
                        buy_price: price,
                        stack_price: (price - ars.stack_discount) as i32,
                        ..o
                    }
                }
            },
            *final(self) == (TArenaRun::<U> { shop_slots: final(self).shop_slots, ..*old(self) }),
    {
        let n = self.shop_slots.len();
        let mut i: usize = 0;
        while i < n
            invariant
                0 <= i <= n,
                n == old(self).shop_slots@.len(),
                picks@.len() == n,
                self.shop_slots@.len() == n,
                *counter == *old(counter) + i,
                *old(counter) + n <= u64::MAX,
                forall|i: int| 0 <= i < picks@.len() && !old(self).shop_slots@[i].freeze ==> {
                    &&& (#[trigger] picks@[i]).1 < rs.prices@.len()
                    &&& i32::MIN <= rs.prices@[picks@[i].1 as int] - ars.stack_discount <= i32::MAX
                },
                forall|k: int| i <= k < n ==> #[trigger] self.shop_slots@[k] == old(self).shop_slots@[k],
                forall|k: int| 0 <= k < i ==> {
                    let o = old(self).shop_slots@[k];
                    let price = rs.prices@[picks@[k].1 as int];
                    #[trigger] self.shop_slots@[k] == if o.freeze {
                        o
                    } else {
                        ShopSlot {
                            available: true,
                            id: (*old(counter) + k + 1) as u64,
                            unit: picks@[k].0,
                            buy_price: price,
                            stack_price: (price - ars.stack_discount) as i32,
                            ..o
                        }
                    }
                },
                *self == (TArenaRun::<U> { shop_slots: self.shop_slots, ..*old(self) }),
            decreases n - i,
        {
            let id = next_id(counter);
            if !self.shop_slots[i].freeze {
                let price = rs.prices[picks[i].1];
                let name = picks[i].0.clone();
                let slot = &mut self.shop_slots[i];
                slot.available = true;
                slot.id = id;
                slot.unit = name;
                slot.buy_price = price;
                slot.stack_price = price - ars.stack_discount;
            }
            i = i + 1;
        }
    }

    /// Closes the shop for the next battle: the round advances and the enemy
    /// is chosen. The first enemy waiting is taken; without one, a champion
    /// of this very round is met in the finale, with the team queued as the
    /// last enemy; otherwise the enemy drawn from the pool is met. No enemy
    /// at all (0) makes this the finale. Gives the enemy.
    pub fn shop_finish(&mut self, team: u64, champion: Option<(u32, u64)>, pool_enemy: u64) -> (r: u64)
        requires
            old(self).round < u32::MAX,
        ensures
            final(self).round == old(self).round + 1,
            old(self).enemies@.len() > 0 ==> r == old(self).enemies@[0] && final(self).enemies@ == old(self).enemies@.drop_first()
                && final(self).finale == (old(self).finale || r == 0),
            old(self).enemies@.len() == 0 ==> match champion {
                Some((round, champion_team)) if round == old(self).round + 1 =>
                    r == champion_team && final(self).enemies@ == seq![team] && final(self).finale,
                _ => r == pool_enemy && final(self).enemies@ == old(self).enemies@ && final(self).finale == (old(self).finale || r == 0),
            },
            *final(self) == (TArenaRun::<U> { round: final(self).round, enemies: final(self).enemies, finale: final(self).finale, ..*old(self) }),
    {
        self.round = self.round + 1;
        let enemy = if self.enemies.len() > 0 {
            self.enemies.remove(0)
        } else {
            match champion {
                Some((round, champion_team)) if round == self.round => {
                    self.enemies.push(team);
                    self.finale = true;
                    champion_team
                },
                _ => pool_enemy,
            }
        };
        if enemy == 0 {
            self.finale = true;
        }
        proof {
            if old(self).enemies@.len() > 0 {
                assert(self.enemies@ =~= old(self).enemies@.drop_first());
            } else {
                assert(old(self).enemies@.push(team) =~= seq![team]);
            }
        }
        enemy
    }

    /// Opens the shop of the new round: the battle is recorded, rerolls are
    /// counted anew, and the round's gold and free rerolls are added.
    pub fn open_round(&mut self, battle: u64, ars: &ArenaSettings)
        requires
            i32::MIN <= ars.g_income_per_round * (old(self).round as i32) <= i32::MAX,
            i32::MIN <= ars.g_income_min + ars.g_income_per_round * (old(self).round as i32) <= i32::MAX,
            i32::MIN <= old(self).g + round_income(*ars, old(self).round) <= i32::MAX,
            old(self).free_rerolls + ars.free_rerolls_income <= u32::MAX,
        ensures
            final(self).battles@ == old(self).battles@.push(battle),
            final(self).rerolls == 0,
            final(self).g == old(self).g + round_income(*ars, old(self).round),
            final(self).free_rerolls == old(self).free_rerolls + ars.free_rerolls_income,
            *final(self) == (TArenaRun::<U> { battles: final(self).battles, rerolls: 0, g: final(self).g, free_rerolls: final(self).free_rerolls, ..*old(self) }),
    {
        self.battles.push(battle);
        self.rerolls = 0;
        let per_round = ars.g_income_per_round * (self.round as i32);
        let base = ars.g_income_min + per_round;
        let income = if base < ars.g_income_max { ars.g_income_max } else { base };
        self.g = self.g + income;
        self.free_rerolls = self.free_rerolls + ars.free_rerolls_income;
    }
}

/// Moving a unit of the team and moving it back leaves the team as it was.
pub proof fn lemma_reorder_back<U>(team: Seq<U>, from: int, to: int)
    requires
        0 <= from < team.len(),
        0 <= to < team.len(),
    ensures
        reordered(reordered(team, from, to), to, from) == team,
{
    let moved = reordered(team, from, to);
    assert(moved.len() == team.len());
    assert(moved[to] == team[from]);
    assert(moved.remove(to) =~= team.remove(from));
    assert(team.remove(from).insert(from, team[from]) =~= team);
}

/// A bought unit is no longer for sale, and its slot is not kept through a
/// refill, frozen or not.
pub proof fn lemma_bought_not_for_sale(s: ShopSlot)
    ensures
        !bought(s).available,
        !kept(bought(s)),
{
}

/// Names left after removing repeats occur once each, and each name of the
/// list given is among them.
pub proof fn lemma_unique_names(s: Seq<Seq<char>>)
    ensures
        forall|i: int, j: int| 0 <= i < j < unique_names(s).len() ==> unique_names(s)[i] != unique_names(s)[j],
        forall|k: int| 0 <= k < s.len() ==> unique_names(s).contains(#[trigger] s[k]),
        forall|i: int| 0 <= i < unique_names(s).len() ==> s.contains(#[trigger] unique_names(s)[i]),
    decreases s.len(),
{
    if s.len() > 0 {
        let p = s.drop_last();
        lemma_unique_names(p);
        let d = unique_names(p);
        assert forall|k: int| 0 <= k < s.len() implies unique_names(s).contains(#[trigger] s[k]) by {
            if k < s.len() - 1 {
                assert(p[k] == s[k]);
                assert(d.contains(p[k]));
                let w = choose|w: int| 0 <= w < d.len() && d[w] == p[k];
                assert(unique_names(s)[w] == s[k]);
            } else if d.contains(s.last()) {
            } else {
                assert(unique_names(s)[d.len() as int] == s.last());
            }
        }
        assert forall|i: int| 0 <= i < unique_names(s).len() implies s.contains(#[trigger] unique_names(s)[i]) by {
            if i < d.len() {
                assert(unique_names(s)[i] == d[i]);
                assert(p.contains(d[i]));
                let w = choose|w: int| 0 <= w < p.len() && p[w] == d[i];
                assert(s[w] == p[w]);
            } else {
                assert(s[s.len() - 1] == s.last());
            }
        }
    }
}

/// A run with a limit never pays more than its limit; one without pays the
/// sum of its rewards.
pub proof fn lemma_payout_capped(rs: Seq<Reward>, limit: i64)
    ensures
        limit > 0 ==> payout(rs, limit) <= limit,
        limit <= 0 ==> payout(rs, limit) == reward_sum(rs),
{
}

/// No rarity is drawn with a negative weight.
pub proof fn lemma_shop_weight_nonnegative(rs: RaritySettings, i: int, round: u32)
    ensures
        shop_weight(rs, i, round) >= 0,
{
}

/// The positions below `n` that pass `p`, in order, as team slot numbers.
pub open spec fn targets_where(n: int, p: spec_fn(int) -> bool) -> Seq<u8>
    decreases n,
{
    if n <= 0 {
        Seq::empty()
    } else {
        let rest = targets_where(n - 1, p);
        if p(n - 1) { rest.push((n - 1) as u8) } else { rest }
    }
}

/// The team positions below `n` whose unit passes `p`.
fn collect_targets(n: usize, row: &Vec<bool>, skip: Option<usize>) -> (r: Vec<u8>)
    requires
        row@.len() == n,
    ensures
        r@ == targets_where(n as int, |i: int| skip != Some(i as usize) && row@[i]),
{
    let ghost p = |i: int| skip != Some(i as usize) && row@[i];
    let mut r: Vec<u8> = Vec::new();
    let mut i: usize = 0;
    while i < n
        invariant
            0 <= i <= n,
            row@.len() == n,
            p == (|i: int| skip != Some(i as usize) && row@[i]),
            r@ == targets_where(i as int, p),
        decreases n - i,
    {
        if skip != Some(i) && row[i] {
            r.push(i as u8);
        }
        i = i + 1;
    }
    r
}

/// What the shop says of each team unit once the run is saved: its sell
/// price, the rarity's price less the sell discount, and the other units
/// that can be stacked onto it or fused with it.
pub open spec fn team_slot_of(j: int, rarity: usize, stack_onto: Seq<bool>, fuse_with: Seq<bool>, n: int, rs: RaritySettings, ars: ArenaSettings) -> (Seq<u8>, Seq<u8>, int) {
    (
        targets_where(n, |i: int| Some(j as usize) != Some(i as usize) && stack_onto[i]),
        targets_where(n, |i: int| Some(j as usize) != Some(i as usize) && fuse_with[i]),
        rs.prices@[rarity as int] - ars.sell_discount,
    )
}

impl<U> TArenaRun<U> {
    /// Brings what the shop shows up to date before the run is stored: each
    /// available offer lists the team units it can be stacked onto, each team
    /// unit gets its sell price and the other units that can be stacked onto
    /// it or fused with it; the time of saving is recorded. `rarities[j]` is
    /// the rarity of team unit `j`; `stack_onto[j][i]` and `fuse_with[j][i]`
    /// tell whether unit `i` can be stacked onto, or fused with, unit `j`;
    /// `shop_stack[s][i]` whether the unit of offer `s` can be stacked onto
    /// team unit `i`.
    pub fn save(&mut self, now: u64, rarities: &Vec<usize>, stack_onto: &Vec<Vec<bool>>, fuse_with: &Vec<Vec<bool>>, shop_stack: &Vec<Vec<bool>>, rs: &RaritySettings, ars: &ArenaSettings)
        requires
            stack_onto@.len() == rarities@.len(),
            fuse_with@.len() == rarities@.len(),
            shop_stack@.len() == old(self).shop_slots@.len(),
            forall|j: int| 0 <= j < rarities@.len() ==> (#[trigger] stack_onto@[j])@.len() == rarities@.len() && fuse_with@[j]@.len() == rarities@.len(),
            forall|s: int| 0 <= s < shop_stack@.len() ==> (#[trigger] shop_stack@[s])@.len() == rarities@.len(),
            forall|j: int| 0 <= j < rarities@.len() ==> (#[trigger] rarities@[j]) < rs.prices@.len()
                && i32::MIN <= rs.prices@[rarities@[j] as int] - ars.sell_discount <= i32::MAX,
        ensures
            final(self).last_updated == now,
            final(self).shop_slots@.len() == old(self).shop_slots@.len(),
            forall|s: int| 0 <= s < old(self).shop_slots@.len() ==> {
                let o = old(self).shop_slots@[s];
                let t = #[trigger] final(self).shop_slots@[s];
                &&& t == ShopSlot { stack_targets: t.stack_targets, ..o }
                &&& t.stack_targets@ == if o.available {
                        targets_where(rarities@.len() as int, |i: int| None::<usize> != Some(i as usize) && shop_stack@[s]@[i])
                    } else {
                        Seq::<u8>::empty()
                    }
            },
            final(self).team_slots@.len() == rarities@.len(),
            forall|j: int| 0 <= j < rarities@.len() ==> {
                let t = #[trigger] final(self).team_slots@[j];
                let want = team_slot_of(j, rarities@[j], stack_onto@[j]@, fuse_with@[j]@, rarities@.len() as int, *rs, *ars);
                &&& t.stack_targets@ == want.0
                &&& t.fuse_targets@ == want.1
                &&& t.sell_price == want.2
            },
            *final(self) == (TArenaRun::<U> { last_updated: now, shop_slots: final(self).shop_slots, team_slots: final(self).team_slots, ..*old(self) }),
    {
        self.last_updated = now;
        let n = rarities.len();
        let mut s: usize = 0;
        while s < self.shop_slots.len()
            invariant
                0 <= s <= self.shop_slots@.len(),
                n == rarities@.len(),
                self.shop_slots@.len() == old(self).shop_slots@.len(),
                shop_stack@.len() == old(self).shop_slots@.len(),
                forall|s: int| 0 <= s < shop_stack@.len() ==> (#[trigger] shop_stack@[s])@.len() == rarities@.len(),
                forall|k: int| s <= k < self.shop_slots@.len() ==> #[trigger] self.shop_slots@[k] == old(self).shop_slots@[k],
                forall|k: int| 0 <= k < s ==> {
                    let o = old(self).shop_slots@[k];
                    let t = #[trigger] self.shop_slots@[k];
                    &&& t == ShopSlot { stack_targets: t.stack_targets, ..o }
                    &&& t.stack_targets@ == if o.available {
                            targets_where(rarities@.len() as int, |i: int| None::<usize> != Some(i as usize) && shop_stack@[k]@[i])
                        } else {
                            Seq::<u8>::empty()
                        }
                },
                *self == (TArenaRun::<U> { last_updated: now, shop_slots: self.shop_slots, ..*old(self) }),
            decreases self.shop_slots.len() - s,
        {
            let targets = if self.shop_slots[s].available {
                collect_targets(n, &shop_stack[s], None)
            } else {
                Vec::new()
            };
            self.shop_slots[s].stack_targets = targets;
            s = s + 1;
        }
        let mut team_slots: Vec<TeamSlot> = Vec::new();
        let mut j: usize = 0;
        while j < n
            invariant
                0 <= j <= n,
                n == rarities@.len(),
                stack_onto@.len() == n,
                fuse_with@.len() == n,
                forall|j: int| 0 <= j < rarities@.len() ==> (#[trigger] stack_onto@[j])@.len() == rarities@.len() && fuse_with@[j]@.len() == rarities@.len(),
                forall|j: int| 0 <= j < rarities@.len() ==> (#[trigger] rarities@[j]) < rs.prices@.len()
                    && i32::MIN <= rs.prices@[rarities@[j] as int] - ars.sell_discount <= i32::MAX,
                team_slots@.len() == j,
                forall|k: int| 0 <= k < j ==> {
                    let t = #[trigger] team_slots@[k];
                    let want = team_slot_of(k, rarities@[k], stack_onto@[k]@, fuse_with@[k]@, rarities@.len() as int, *rs, *ars);
                    &&& t.stack_targets@ == want.0
                    &&& t.fuse_targets@ == want.1
                    &&& t.sell_price == want.2
                },
            decreases n - j,
        {
            let price = rs.prices[rarities[j]] - ars.sell_discount;
            let stack_targets = collect_targets(n, &stack_onto[j], Some(j));
            let fuse_targets = collect_targets(n, &fuse_with[j], Some(j));
            team_slots.push(TeamSlot { stack_targets, fuse_targets, sell_price: price });
            j = j + 1;
        }
        self.team_slots = team_slots;
    }
}

} // verus!
