//! Keeping the shop and team shown by the client in step with the run the
//! server holds: which units stay, which appear, which go.
use vstd::prelude::*;
use crate::arena::ShopSlot;
use crate::world::{first_index, lemma_first_index};

verus! {

/// Goes through the wanted slots in order, each slot `i` asking for the unit
/// `id` (or nothing) in slot `i + 1`: a unit still present and unclaimed is
/// kept and moved there, any other is spawned there. What is left present
/// at the end is to be despawned. Gives the units kept (with their new
/// slot), the ones to spawn (with their slot), and the ones to despawn.
pub open spec fn reconcile(wanted: Seq<Option<u64>>, present: Seq<u64>) -> (Seq<(i32, u64)>, Seq<(i32, u64)>, Seq<u64>)
    decreases wanted.len(),
{
    if wanted.len() == 0 {
        (Seq::empty(), Seq::empty(), present)
    } else {
        let s = reconcile(wanted.drop_last(), present);
        let slot = wanted.len() as i32;
        match wanted.last() {
            None => s,
            Some(id) => if first_index(s.2, |x: u64| x == id) >= 0 {
                (s.0.push((slot, id)), s.1, s.2.remove(first_index(s.2, |x: u64| x == id)))
            } else {
                (s.0, s.1.push((slot, id)), s.2)
            },
        }
    }
}

/// What the client must change to show the run: in the shop, the offers
/// kept where they stand, spawned (into their slot) and despawned; in the
/// team, the units kept (moved to their slot), spawned (into their slot) and
/// despawned.
#[derive(Debug)]
pub struct SyncPlan {
    pub shop_keep: Vec<u64>,
    pub shop_spawn: Vec<(i32, u64)>,
    pub shop_despawn: Vec<u64>,
    pub team_keep: Vec<(i32, u64)>,
    pub team_spawn: Vec<(i32, u64)>,
    pub team_despawn: Vec<u64>,
}

/// The shop slots as the units they ask for: the unit of an available
/// offer, nothing for a bought one.
pub open spec fn wanted_offers(shop: Seq<ShopSlot>) -> Seq<Option<u64>> {
    shop.map_values(|s: ShopSlot| if s.available { Some(s.id) } else { None })
}

/// The units of kept pairs, without their slots.
pub open spec fn kept_ids(keep: Seq<(i32, u64)>) -> Seq<u64> {
    keep.map_values(|p: (i32, u64)| p.1)
}

/// Reconciles the wanted slots with the present units.
pub fn reconcile_units(wanted: &Vec<Option<u64>>, present: &Vec<u64>) -> (r: (Vec<(i32, u64)>, Vec<(i32, u64)>, Vec<u64>))
    requires
        wanted@.len() < i32::MAX,
    ensures
        r.0@ == reconcile(wanted@, present@).0,
        r.1@ == reconcile(wanted@, present@).1,
        r.2@ == reconcile(wanted@, present@).2,
{
    let mut keep: Vec<(i32, u64)> = Vec::new();
    let mut spawn: Vec<(i32, u64)> = Vec::new();
    let mut rest: Vec<u64> = Vec::new();
    let mut k: usize = 0;
    while k < present.len()
        invariant
            0 <= k <= present@.len(),
            rest@ == present@.subrange(0, k as int),
        decreases present.len() - k,
    {
        rest.push(present[k]);
        k = k + 1;
    }
    assert(present@.subrange(0, present@.len() as int) =~= present@);
    let mut i: usize = 0;
    while i < wanted.len()
        invariant
            0 <= i <= wanted@.len(),
            wanted@.len() < i32::MAX,
            keep@ == reconcile(wanted@.subrange(0, i as int), present@).0,
            spawn@ == reconcile(wanted@.subrange(0, i as int), present@).1,
            rest@ == reconcile(wanted@.subrange(0, i as int), present@).2,
        decreases wanted.len() - i,
    {
        let ghost prev = wanted@.subrange(0, i as int);
        let ghost next = wanted@.subrange(0, i as int + 1);
        assert(next.drop_last() =~= prev);
        assert(next.last() == wanted@[i as int]);
        let slot: i32 = (i + 1) as i32;
        match wanted[i] {
            None => {},
            Some(id) => {
                let mut j: usize = 0;
                let mut found: Option<usize> = None;
                while j < rest.len()
                    invariant
                        0 <= j <= rest@.len(),
                        found is None ==> forall|m: int| 0 <= m < j ==> rest@[m] != id,
                        found matches Some(f) ==> f < rest@.len() && rest@[f as int] == id && forall|m: int| 0 <= m < f ==> rest@[m] != id,
                    decreases rest.len() - j,
                {
                    if found.is_none() && rest[j] == id {
                        found = Some(j);
                    }
                    j = j + 1;
                }
                proof {
                    lemma_first_index(rest@, |x: u64| x == id);
                    let fi = first_index(rest@, |x: u64| x == id);
                    match found {
                        Some(f) => {
                            if fi < f as int {
                                assert(rest@[fi] == id);
                            } else if fi > f as int || fi == -1 {
                                assert((|x: u64| x == id)(rest@[f as int]));
                            }
                        },
                        None => {
                            if fi >= 0 {
                                assert(rest@[fi] == id);
                            }
                        },
                    }
                }
                match found {
                    Some(f) => {
                        rest.remove(f);
                        keep.push((slot, id));
                    },
                    None => {
                        spawn.push((slot, id));
                    },
                }
            },
        }
        i = i + 1;
    }
    assert(wanted@.subrange(0, wanted@.len() as int) =~= wanted@);
    (keep, spawn, rest)
}

/// Decides how the client follows the run: the shop shows the available
/// offers, each in its slot; the team shows its units, each in its slot.
pub struct ShopPlugin;

impl ShopPlugin {
    pub fn sync_run(shop: &Vec<ShopSlot>, team: &Vec<Option<u64>>, shop_present: &Vec<u64>, team_present: &Vec<u64>) -> (r: SyncPlan)
        requires
            shop@.len() < i32::MAX,
            team@.len() < i32::MAX,
        ensures
            r.shop_keep@ == kept_ids(reconcile(wanted_offers(shop@), shop_present@).0),
            r.shop_spawn@ == reconcile(wanted_offers(shop@), shop_present@).1,
            r.shop_despawn@ == reconcile(wanted_offers(shop@), shop_present@).2,
            r.team_keep@ == reconcile(team@, team_present@).0,
            r.team_spawn@ == reconcile(team@, team_present@).1,
            r.team_despawn@ == reconcile(team@, team_present@).2,
    {
        let mut offers: Vec<Option<u64>> = Vec::new();
        let mut i: usize = 0;
        while i < shop.len()
            invariant
                0 <= i <= shop@.len(),
                offers@ == wanted_offers(shop@.subrange(0, i as int)),
            decreases shop.len() - i,
        {
            let s = &shop[i];
            offers.push(if s.available { Some(s.id) } else { None });
            assert(wanted_offers(shop@.subrange(0, i as int + 1)) =~= wanted_offers(shop@.subrange(0, i as int)).push(if shop@[i as int].available { Some(shop@[i as int].id) } else { None }));
            i = i + 1;
        }
        assert(shop@.subrange(0, shop@.len() as int) =~= shop@);
        let (shop_kept, shop_spawn, shop_despawn) = reconcile_units(&offers, shop_present);
        let mut shop_keep: Vec<u64> = Vec::new();
        let mut k: usize = 0;
        while k < shop_kept.len()
            invariant
                0 <= k <= shop_kept@.len(),
                shop_keep@ == kept_ids(shop_kept@.subrange(0, k as int)),
            decreases shop_kept.len() - k,
        {
            shop_keep.push(shop_kept[k].1);
            assert(kept_ids(shop_kept@.subrange(0, k as int + 1)) =~= kept_ids(shop_kept@.subrange(0, k as int)).push(shop_kept@[k as int].1));
            k = k + 1;
        }
        assert(shop_kept@.subrange(0, shop_kept@.len() as int) =~= shop_kept@);
        let (team_keep, team_spawn, team_despawn) = reconcile_units(team, team_present);
        SyncPlan { shop_keep, shop_spawn, shop_despawn, team_keep, team_spawn, team_despawn }
    }
}

/// How many slots ask for a unit.
pub open spec fn asked(wanted: Seq<Option<u64>>) -> nat
    decreases wanted.len(),
{
    if wanted.len() == 0 { 0 } else { asked(wanted.drop_last()) + if wanted.last() is Some { 1nat } else { 0nat } }
}

/// Following the run loses and doubles nothing: every present unit is
/// either kept or despawned, and every slot asking for a unit gets one kept
/// or spawned.
pub proof fn lemma_reconcile_counts(wanted: Seq<Option<u64>>, present: Seq<u64>)
    ensures
        reconcile(wanted, present).0.len() + reconcile(wanted, present).2.len() == present.len(),
        reconcile(wanted, present).0.len() + reconcile(wanted, present).1.len() == asked(wanted),
    decreases wanted.len(),
{
    if wanted.len() > 0 {
        lemma_reconcile_counts(wanted.drop_last(), present);
        let s = reconcile(wanted.drop_last(), present);
        if let Some(id) = wanted.last() {
            lemma_first_index(s.2, |x: u64| x == id);
        }
    }
}

} // verus!
