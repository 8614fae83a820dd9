//! The meta shop: a lootbox and unit shards for sale between runs.
use vstd::prelude::*;
use crate::arena::MetaSettings;
use crate::random::{pick_indices, distinct};

verus! {

/// What a meta shop item is.
#[derive(Clone, Copy, Debug, PartialEq, Eq, Structural)]
pub enum ItemKind {
    Lootbox,
    UnitShard,
}

/// An item for sale in the meta shop.
#[derive(Clone, Copy, Debug, PartialEq, Eq, Structural)]
pub struct TMetaShop {
    pub id: u64,
    pub item_kind: ItemKind,
    pub price: i64,
}

/// The offers of a refreshed shop: the lootbox first, then a shard of each
/// unit drawn, at the prices of the settings.
pub open spec fn shop_offers(lootbox: u64, shards: Seq<u64>, ms: MetaSettings) -> Seq<TMetaShop> {
    seq![TMetaShop { id: lootbox, item_kind: ItemKind::Lootbox, price: ms.price_lootbox }]
        + shards.map_values(|id: u64| TMetaShop { id, item_kind: ItemKind::UnitShard, price: ms.price_shard })
}

impl TMetaShop {
    /// Draws the units whose shards a refreshed shop offers: as many as it has
    /// shard slots, or every unit when there are fewer, each at most once.
    pub fn draw_shards(base_units: &Vec<String>, ms: &MetaSettings) -> (r: Vec<String>)
        ensures
            r@.len() == if (ms.shop_shard_slots as int) < base_units@.len() { ms.shop_shard_slots as int } else { base_units@.len() as int },
            exists|ix: Seq<usize>| {
                &&& ix.len() == r@.len()
                &&& distinct(ix)
                &&& forall|i: int| 0 <= i < ix.len() ==> ix[i] < base_units@.len() && #[trigger] r@[i] == base_units@[ix[i] as int]
            },
    {
        let ix = pick_indices(base_units.len(), ms.shop_shard_slots as usize);
        let mut r: Vec<String> = Vec::new();
        let mut i: usize = 0;
        while i < ix.len()
            invariant
                0 <= i <= ix@.len(),
                r@.len() == i,
                forall|k: int| 0 <= k < ix@.len() ==> ix@[k] < base_units@.len(),
                forall|k: int| 0 <= k < i ==> #[trigger] r@[k] == base_units@[ix@[k] as int],
            decreases ix.len() - i,
        {
            r.push(base_units[ix[i]].clone());
            i = i + 1;
        }
        assert(forall|i: int| 0 <= i < ix@.len() ==> ix@[i] < base_units@.len() && #[trigger] r@[i] == base_units@[ix@[i] as int]);
        r
    }

    /// The offers of the refreshed shop, given the lootbox made for it and
    /// the shards made of the units drawn.
    pub fn refresh(lootbox: u64, shards: &Vec<u64>, ms: &MetaSettings) -> (r: Vec<TMetaShop>)
        ensures
            r@ == shop_offers(lootbox, shards@, *ms),
    {
        let mut r: Vec<TMetaShop> = Vec::new();
        r.push(TMetaShop { id: lootbox, item_kind: ItemKind::Lootbox, price: ms.price_lootbox });
        let mut i: usize = 0;
        while i < shards.len()
            invariant
                0 <= i <= shards@.len(),
                r@ == shop_offers(lootbox, shards@.subrange(0, i as int), *ms),
            decreases shards.len() - i,
        {
            r.push(TMetaShop { id: shards[i], item_kind: ItemKind::UnitShard, price: ms.price_shard });
            assert(shop_offers(lootbox, shards@.subrange(0, i as int + 1), *ms) =~= shop_offers(lootbox, shards@.subrange(0, i as int), *ms).push(TMetaShop { id: shards@[i as int], item_kind: ItemKind::UnitShard, price: ms.price_shard }));
            i = i + 1;
        }
        assert(shards@.subrange(0, shards@.len() as int) =~= shards@);
        r
    }
}

} // verus!
