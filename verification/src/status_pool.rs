//! The ledger of status charges that entities carry, and the queue of
//! changes to it: charges are added and removed one at a time, and each
//! step is announced.
use vstd::prelude::*;
use crate::world::{first_index, lemma_first_index};

verus! {

/// What a change of charges announces.
#[derive(Debug)]
pub enum StatusEvent {
    /// The entity gained a status it did not have.
    StatusAdd { status: String, owner: u64 },
    /// The entity gained a charge of a status.
    StatusChargeAdd { status: String, owner: u64 },
    /// The entity lost the last charge of a status.
    StatusRemove { status: String, owner: u64 },
    /// The entity lost a charge of a status.
    StatusChargeRemove { status: String, owner: u64 },
}

/// The statuses defined, the charges each entity carries (entity, status,
/// charges), the changes waiting, and the announcements made so far.
#[derive(Debug)]
pub struct StatusPool {
    pub defined_statuses: Vec<String>,
    pub active_statuses: Vec<(u64, String, i32)>,
    pub status_changes: Vec<(u64, String, i32)>,
    pub sent: Vec<StatusEvent>,
}

/// Whether a ledger entry is the entity's status.
pub open spec fn entry_of(e: u64, name: Seq<char>) -> spec_fn((u64, String, i32)) -> bool {
    |t: (u64, String, i32)| t.0 == e && t.1@ == name
}

/// Where the entity's status stands in the ledger, or -1.
pub open spec fn entry_index(active: Seq<(u64, String, i32)>, e: u64, name: Seq<char>) -> int {
    first_index(active, entry_of(e, name))
}

/// The charges of the entity's status: 0 where it has none.
pub open spec fn charges_of(active: Seq<(u64, String, i32)>, e: u64, name: Seq<char>) -> int {
    let i = entry_index(active, e, name);
    if i >= 0 { active[i].2 as int } else { 0 }
}

/// The ledger and announcements after one charge is added to the entity's
/// status: a status it lacked is announced as added, then the charge.
pub open spec fn add_charge(active: Seq<(u64, String, i32)>, sent: Seq<StatusEvent>, e: u64, name: String)
    -> (Seq<(u64, String, i32)>, Seq<StatusEvent>)
{
    let i = entry_index(active, e, name@);
    let c = charges_of(active, e, name@);
    let sent2 = if c == 0 { sent.push(StatusEvent::StatusAdd { status: name, owner: e }) } else { sent };
    let sent3 = sent2.push(StatusEvent::StatusChargeAdd { status: name, owner: e });
    let active2 = if i >= 0 { active.update(i, (e, active[i].1, (c + 1) as i32)) } else { active.push((e, name, (c + 1) as i32)) };
    (active2, sent3)
}

/// The ledger and announcements after one charge is taken from the
/// entity's status: the last charge is announced as the status removed,
/// then the charge; a status without charges left leaves the ledger.
pub open spec fn remove_charge(active: Seq<(u64, String, i32)>, sent: Seq<StatusEvent>, e: u64, name: String)
    -> (Seq<(u64, String, i32)>, Seq<StatusEvent>)
{
    let i = entry_index(active, e, name@);
    let c = charges_of(active, e, name@);
    let sent2 = if c == 1 { sent.push(StatusEvent::StatusRemove { status: name, owner: e }) } else { sent };
    let sent3 = sent2.push(StatusEvent::StatusChargeRemove { status: name, owner: e });
    let active2 = if c > 1 { active.update(i, (e, active[i].1, (c - 1) as i32)) } else if i >= 0 { active.remove(i) } else { active };
    (active2, sent3)
}

/// No entity carries the same status in two entries of the ledger.
pub open spec fn ledger_unique(active: Seq<(u64, String, i32)>) -> bool {
    forall|i: int, j: int| 0 <= i < j < active.len() ==> !(#[trigger] active[i].0 == #[trigger] active[j].0 && active[i].1@ == active[j].1@)
}

/// Adding or taking a charge keeps each entity's statuses apart.
pub proof fn lemma_charge_unique(active: Seq<(u64, String, i32)>, sent: Seq<StatusEvent>, e: u64, name: String)
    requires
        ledger_unique(active),
    ensures
        ledger_unique(add_charge(active, sent, e, name).0),
        ledger_unique(remove_charge(active, sent, e, name).0),
{
    lemma_first_index(active, entry_of(e, name@));
    let i = entry_index(active, e, name@);
    let a = add_charge(active, sent, e, name).0;
    if i < 0 {
        assert forall|x: int, y: int| 0 <= x < y < a.len() implies !(#[trigger] a[x].0 == #[trigger] a[y].0 && a[x].1@ == a[y].1@) by {
            if y == active.len() {
                assert(!entry_of(e, name@)(active[x]));
            } else {
                assert(a[x] == active[x] && a[y] == active[y]);
            }
        }
    } else {
        assert forall|x: int, y: int| 0 <= x < y < a.len() implies !(#[trigger] a[x].0 == #[trigger] a[y].0 && a[x].1@ == a[y].1@) by {
            assert(a[x].0 == active[x].0 && a[x].1 == active[x].1);
            assert(a[y].0 == active[y].0 && a[y].1 == active[y].1);
        }
    }
    let r = remove_charge(active, sent, e, name).0;
    assert forall|x: int, y: int| 0 <= x < y < r.len() implies !(#[trigger] r[x].0 == #[trigger] r[y].0 && r[x].1@ == r[y].1@) by {
        if charges_of(active, e, name@) > 1 {
            assert(r[x].0 == active[x].0 && r[x].1 == active[x].1);
            assert(r[y].0 == active[y].0 && r[y].1 == active[y].1);
        } else if i >= 0 {
            let x2 = if x < i { x } else { x + 1 };
            let y2 = if y < i { y } else { y + 1 };
            assert(r[x] == active[x2] && r[y] == active[y2]);
        }
    }
}

/// Every entry left when an entity's entries are dropped was in the ledger,
/// in the same order.
pub proof fn lemma_without_entity_unique(active: Seq<(u64, String, i32)>, entity: u64)
    requires
        ledger_unique(active),
    ensures
        ledger_unique(without_entity(active, entity)),
        forall|k: int| 0 <= k < without_entity(active, entity).len() ==> active.contains(#[trigger] without_entity(active, entity)[k]),
    decreases active.len(),
{
    if active.len() > 0 {
        let p = active.drop_last();
        assert(ledger_unique(p)) by {
            assert forall|x: int, y: int| 0 <= x < y < p.len() implies !(#[trigger] p[x].0 == #[trigger] p[y].0 && p[x].1@ == p[y].1@) by {
                assert(p[x] == active[x] && p[y] == active[y]);
            }
        }
        lemma_without_entity_unique(p, entity);
        let rest = without_entity(p, entity);
        let w = without_entity(active, entity);
        assert forall|k: int| 0 <= k < rest.len() implies active.contains(#[trigger] rest[k]) by {
            let j = choose|j: int| 0 <= j < p.len() && p[j] == rest[k];
            assert(active[j] == rest[k]);
        }
        if active.last().0 != entity {
            let l = active.len() - 1;
            assert(active[l] == active.last());
            assert forall|x: int, y: int| 0 <= x < y < w.len() implies !(#[trigger] w[x].0 == #[trigger] w[y].0 && w[x].1@ == w[y].1@) by {
                if y == rest.len() {
                    assert(p.contains(rest[x]));
                    let j = choose|j: int| 0 <= j < p.len() && p[j] == rest[x];
                    assert(active[j] == rest[x]);
                } else {
                    assert(w[x] == rest[x] && w[y] == rest[y]);
                }
            }
            assert forall|k: int| 0 <= k < w.len() implies active.contains(#[trigger] w[k]) by {
                if k < rest.len() {
                    assert(w[k] == rest[k]);
                } else {
                    assert(w[k] == active[l]);
                }
            }
        }
    }
}

/// Every charge in the ledger is at most `bound`.
pub open spec fn charges_below(active: Seq<(u64, String, i32)>, bound: int) -> bool {
    forall|k: int| 0 <= k < active.len() ==> (#[trigger] active[k]).2 <= bound
}

/// The ledger after `n` charges are added to, or taken from, the status.
pub open spec fn repeat_charge(p: (Seq<(u64, String, i32)>, Seq<StatusEvent>), e: u64, name: String, add: bool, n: nat)
    -> (Seq<(u64, String, i32)>, Seq<StatusEvent>)
    decreases n,
{
    if n == 0 {
        p
    } else {
        let q = repeat_charge(p, e, name, add, (n - 1) as nat);
        if add { add_charge(q.0, q.1, e, name) } else { remove_charge(q.0, q.1, e, name) }
    }
}

/// The size of a change: how many single charges it moves.
pub open spec fn change_size(delta: i32) -> nat {
    if delta < 0 { (-delta) as nat } else { delta as nat }
}

/// The ledger after the changes are carried out in order, charge by charge.
pub open spec fn apply_changes(p: (Seq<(u64, String, i32)>, Seq<StatusEvent>), changes: Seq<(u64, String, i32)>)
    -> (Seq<(u64, String, i32)>, Seq<StatusEvent>)
    decreases changes.len(),
{
    if changes.len() == 0 {
        p
    } else {
        let c = changes.last();
        repeat_charge(apply_changes(p, changes.drop_last()), c.0, c.1, c.2 > 0, change_size(c.2))
    }
}

/// How many single charges the changes move in all.
pub open spec fn total_size(changes: Seq<(u64, String, i32)>) -> nat
    decreases changes.len(),
{
    if changes.len() == 0 { 0 } else { total_size(changes.drop_last()) + change_size(changes.last().2) }
}

pub proof fn lemma_add_charge_bound(active: Seq<(u64, String, i32)>, sent: Seq<StatusEvent>, e: u64, name: String, bound: int)
    requires
        charges_below(active, bound),
        0 <= bound,
    ensures
        charges_below(add_charge(active, sent, e, name).0, bound + 1),
        charges_below(remove_charge(active, sent, e, name).0, bound + 1),
{
    lemma_first_index(active, entry_of(e, name@));
    let i = entry_index(active, e, name@);
    if i >= 0 {
        assert(active[i].2 <= bound);
    }
    let r = remove_charge(active, sent, e, name).0;
    if charges_of(active, e, name@) <= 1 && i >= 0 {
        assert forall|k: int| 0 <= k < r.len() implies (#[trigger] r[k]).2 <= bound + 1 by {
            if k < i {
                assert(r[k] == active[k]);
            } else {
                assert(r[k] == active[k + 1]);
            }
        }
    }
}

pub proof fn lemma_repeat_bound(p: (Seq<(u64, String, i32)>, Seq<StatusEvent>), e: u64, name: String, add: bool, n: nat, bound: int)
    requires
        charges_below(p.0, bound),
        0 <= bound,
    ensures
        charges_below(repeat_charge(p, e, name, add, n).0, bound + n),
    decreases n,
{
    if n > 0 {
        lemma_repeat_bound(p, e, name, add, (n - 1) as nat, bound);
        let q = repeat_charge(p, e, name, add, (n - 1) as nat);
        lemma_add_charge_bound(q.0, q.1, e, name, bound + n - 1);
    }
}

impl StatusPool {
    /// No entity carries the same status in two entries of the ledger.
    pub open spec fn well_formed(&self) -> bool {
        ledger_unique(self.active_statuses@)
    }

    pub fn new() -> (r: StatusPool)
        ensures
            r.well_formed(),
            r.defined_statuses@.len() == 0,
            r.active_statuses@.len() == 0,
            r.status_changes@.len() == 0,
            r.sent@.len() == 0,
    {
        StatusPool { defined_statuses: Vec::new(), active_statuses: Vec::new(), status_changes: Vec::new(), sent: Vec::new() }
    }

    /// Adds a status to those defined.
    pub fn define_status(&mut self, name: String)
        ensures
            final(self).defined_statuses@ == old(self).defined_statuses@.push(name),
            final(self).active_statuses == old(self).active_statuses,
            final(self).status_changes == old(self).status_changes,
            final(self).sent == old(self).sent,
    {
        self.defined_statuses.push(name);
    }

    /// Queues a change of the entity's charges; no change is queued for zero.
    pub fn change_entity_status(&mut self, entity: u64, status_name: &String, charges_change: i32)
        ensures
            final(self).status_changes@ == if charges_change != 0 {
                old(self).status_changes@.push((entity, *status_name, charges_change))
            } else {
                old(self).status_changes@
            },
            final(self).defined_statuses == old(self).defined_statuses,
            final(self).active_statuses == old(self).active_statuses,
            final(self).sent == old(self).sent,
    {
        if charges_change != 0 {
            self.status_changes.push((entity, status_name.clone(), charges_change));
        }
    }

    /// Where the entity's status stands in the ledger.
    fn find_entry(&self, entity: u64, status: &String) -> (r: Option<usize>)
        ensures
            match r {
                Some(i) => i as int == entry_index(self.active_statuses@, entity, status@) && i < self.active_statuses@.len()
                    && self.active_statuses@[i as int].0 == entity,
                None => entry_index(self.active_statuses@, entity, status@) == -1,
            },
    {
        let ghost p = entry_of(entity, status@);
        proof {
            lemma_first_index(self.active_statuses@, p);
        }
        let mut i: usize = 0;
        while i < self.active_statuses.len()
            invariant
                0 <= i <= self.active_statuses@.len(),
                p == entry_of(entity, status@),
                -1 <= first_index(self.active_statuses@, p) < self.active_statuses@.len(),
                first_index(self.active_statuses@, p) >= 0 ==> p(self.active_statuses@[first_index(self.active_statuses@, p)]),
                first_index(self.active_statuses@, p) == -1 || i <= first_index(self.active_statuses@, p),
                forall|j: int| 0 <= j < self.active_statuses@.len() && (first_index(self.active_statuses@, p) == -1 || j < first_index(self.active_statuses@, p))
                    ==> !p(#[trigger] self.active_statuses@[j]),
            decreases self.active_statuses.len() - i,
        {
            let t = &self.active_statuses[i];
            let same = t.1 == *status;
            if t.0 == entity && same {
                assert(p(self.active_statuses@[i as int]));
                return Some(i);
            }
            i = i + 1;
        }
        None
    }

    /// Adds one charge to the entity's status, announcing a new status first.
    pub fn add_status_charge(&mut self, entity: u64, status: &String)
        requires
            old(self).well_formed(),
            charges_of(old(self).active_statuses@, entity, status@) < i32::MAX,
        ensures
            final(self).well_formed(),
            (final(self).active_statuses@, final(self).sent@) == add_charge(old(self).active_statuses@, old(self).sent@, entity, *status),
            final(self).defined_statuses == old(self).defined_statuses,
            final(self).status_changes == old(self).status_changes,
    {
        let found = self.find_entry(entity, status);
        let charges: i32 = match found {
            Some(i) => self.active_statuses[i].2,
            None => 0,
        };
        if charges == 0 {
            self.sent.push(StatusEvent::StatusAdd { status: status.clone(), owner: entity });
        }
        self.sent.push(StatusEvent::StatusChargeAdd { status: status.clone(), owner: entity });
        match found {
            Some(i) => {
                self.active_statuses[i].2 = charges + 1;
            },
            None => {
                self.active_statuses.push((entity, status.clone(), charges + 1));
            },
        }
        proof {
            let want = add_charge(old(self).active_statuses@, old(self).sent@, entity, *status);
            assert(charges as int == charges_of(old(self).active_statuses@, entity, status@));
            assert(self.active_statuses@ =~= want.0);
            if charges == 0 {
                assert(self.sent@ =~= old(self).sent@.push(StatusEvent::StatusAdd { status: *status, owner: entity }).push(StatusEvent::StatusChargeAdd { status: *status, owner: entity }));
            } else {
                assert(self.sent@ =~= old(self).sent@.push(StatusEvent::StatusChargeAdd { status: *status, owner: entity }));
            }
            assert(self.sent@ =~= want.1);
            lemma_charge_unique(old(self).active_statuses@, old(self).sent@, entity, *status);
        }
    }

    /// Takes one charge from the entity's status, announcing the removal of
    /// its last one first.
    pub fn remove_status_charge(&mut self, entity: u64, status: &String)
        requires
            old(self).well_formed(),
        ensures
            final(self).well_formed(),
            (final(self).active_statuses@, final(self).sent@) == remove_charge(old(self).active_statuses@, old(self).sent@, entity, *status),
            final(self).defined_statuses == old(self).defined_statuses,
            final(self).status_changes == old(self).status_changes,
    {
        let found = self.find_entry(entity, status);
        let charges: i32 = match found {
            Some(i) => self.active_statuses[i].2,
            None => 0,
        };
        if charges == 1 {
            self.sent.push(StatusEvent::StatusRemove { status: status.clone(), owner: entity });
        }
        self.sent.push(StatusEvent::StatusChargeRemove { status: status.clone(), owner: entity });
        match found {
            Some(i) => {
                if charges > 1 {
                    self.active_statuses[i].2 = charges - 1;
                } else {
                    self.active_statuses.remove(i);
                }
            },
            None => {},
        }
        proof {
            let want = remove_charge(old(self).active_statuses@, old(self).sent@, entity, *status);
            assert(self.active_statuses@ =~= want.0);
            assert(self.sent@ =~= want.1);
            lemma_charge_unique(old(self).active_statuses@, old(self).sent@, entity, *status);
        }
    }

    /// Carries out the queued changes in order, one charge at a time, and
    /// empties the queue.
    pub fn process_status_changes(&mut self)
        requires
            old(self).well_formed(),
            charges_below(old(self).active_statuses@, i32::MAX - total_size(old(self).status_changes@)),
            total_size(old(self).status_changes@) <= i32::MAX,
        ensures
            (final(self).active_statuses@, final(self).sent@) == apply_changes((old(self).active_statuses@, old(self).sent@), old(self).status_changes@),
            final(self).status_changes@.len() == 0,
            final(self).defined_statuses == old(self).defined_statuses,
            final(self).well_formed(),
    {
        let ghost changes = self.status_changes@;
        let ghost start = (self.active_statuses@, self.sent@);
        let ghost bound: int = i32::MAX - total_size(changes);
        let mut queue: Vec<(u64, String, i32)> = Vec::new();
        std::mem::swap(&mut queue, &mut self.status_changes);
        let mut k: usize = 0;
        while k < queue.len()
            invariant
                0 <= k <= queue@.len(),
                queue@ == changes,
                self.status_changes@.len() == 0,
                self.defined_statuses == old(self).defined_statuses,
                0 <= bound,
                bound + total_size(changes) == i32::MAX,
                (self.active_statuses@, self.sent@) == apply_changes(start, changes.subrange(0, k as int)),
                charges_below(self.active_statuses@, bound + total_size(changes.subrange(0, k as int))),
                total_size(changes) <= i32::MAX,
                self.well_formed(),
            decreases queue.len() - k,
        {
            proof {
                assert(changes.subrange(0, k as int + 1).drop_last() =~= changes.subrange(0, k as int));
                lemma_total_size_prefix(changes, k as int + 1);
            }
            let entity = queue[k].0;
            let delta = queue[k].2;
            let add = delta > 0;
            let n: i32 = if delta < 0 { -delta } else { delta };
            let ghost before = (self.active_statuses@, self.sent@);
            let ghost b0 = bound + total_size(changes.subrange(0, k as int));
            let mut j: i32 = 0;
            while j < n
                invariant
                    0 <= j <= n,
                    n as nat == change_size(delta),
                    0 <= b0,
                    b0 + n <= i32::MAX,
                    charges_below(before.0, b0),
                    (self.active_statuses@, self.sent@) == repeat_charge(before, entity, queue@[k as int].1, add, j as nat),
                    self.status_changes@.len() == 0,
                    self.defined_statuses == old(self).defined_statuses,
                    k < queue@.len(),
                    self.well_formed(),
                decreases n - j,
            {
                proof {
                    lemma_repeat_bound(before, entity, queue@[k as int].1, add, j as nat, b0);
                    lemma_first_index(self.active_statuses@, entry_of(entity, queue@[k as int].1@));
                    let i = entry_index(self.active_statuses@, entity, queue@[k as int].1@);
                    if i >= 0 {
                        assert(self.active_statuses@[i].2 <= b0 + j);
                    }
                }
                if add {
                    self.add_status_charge(entity, &queue[k].1);
                } else {
                    self.remove_status_charge(entity, &queue[k].1);
                }
                j = j + 1;
            }
            proof {
                lemma_repeat_bound(before, entity, queue@[k as int].1, add, n as nat, b0);
            }
            k = k + 1;
        }
        assert(changes.subrange(0, changes.len() as int) =~= changes);
    }

    /// Forgets every charge of every entity.
    pub fn clear_all_active(&mut self)
        ensures
            final(self).well_formed(),
            final(self).active_statuses@.len() == 0,
            final(self).defined_statuses == old(self).defined_statuses,
            final(self).status_changes == old(self).status_changes,
            final(self).sent == old(self).sent,
    {
        self.active_statuses = Vec::new();
    }

    /// Forgets every charge of the entity.
    pub fn clear_entity(&mut self, entity: u64)
        requires
            old(self).well_formed(),
        ensures
            final(self).well_formed(),
            final(self).active_statuses@ == without_entity(old(self).active_statuses@, entity),
            final(self).defined_statuses == old(self).defined_statuses,
            final(self).status_changes == old(self).status_changes,
            final(self).sent == old(self).sent,
    {
        let mut kept: Vec<(u64, String, i32)> = Vec::new();
        let mut i: usize = 0;
        while i < self.active_statuses.len()
            invariant
                0 <= i <= self.active_statuses@.len(),
                self.active_statuses == old(self).active_statuses,
                kept@ == without_entity(old(self).active_statuses@.subrange(0, i as int), entity),
            decreases self.active_statuses.len() - i,
        {
            let ghost a = old(self).active_statuses@;
            assert(a.subrange(0, i as int + 1).drop_last() =~= a.subrange(0, i as int));
            let t = &self.active_statuses[i];
            if t.0 != entity {
                kept.push((t.0, t.1.clone(), t.2));
            }
            i = i + 1;
        }
        assert(old(self).active_statuses@.subrange(0, old(self).active_statuses@.len() as int) =~= old(self).active_statuses@);
        proof {
            lemma_without_entity_unique(old(self).active_statuses@, entity);
        }
        self.active_statuses = kept;
    }

    /// Queues the removal of every charge the entity carries.
    pub fn clear_entity_by_changes(&mut self, entity: u64)
        requires
            forall|k: int| 0 <= k < old(self).active_statuses@.len() && (#[trigger] old(self).active_statuses@[k]).0 == entity
                ==> old(self).active_statuses@[k].2 > i32::MIN,
        ensures
            final(self).status_changes@ == old(self).status_changes@ + removals(old(self).active_statuses@, entity),
            final(self).defined_statuses == old(self).defined_statuses,
            final(self).active_statuses == old(self).active_statuses,
            final(self).sent == old(self).sent,
    {
        let mut i: usize = 0;
        while i < self.active_statuses.len()
            invariant
                0 <= i <= self.active_statuses@.len(),
                self.active_statuses == old(self).active_statuses,
                self.defined_statuses == old(self).defined_statuses,
                self.sent == old(self).sent,
                self.status_changes@ == old(self).status_changes@ + removals(old(self).active_statuses@.subrange(0, i as int), entity),
                forall|k: int| 0 <= k < old(self).active_statuses@.len() && (#[trigger] old(self).active_statuses@[k]).0 == entity
                    ==> old(self).active_statuses@[k].2 > i32::MIN,
            decreases self.active_statuses.len() - i,
        {
            let ghost a = old(self).active_statuses@;
            assert(a.subrange(0, i as int + 1).drop_last() =~= a.subrange(0, i as int));
            let t = &self.active_statuses[i];
            if t.0 == entity {
                let c = t.2;
                let name = t.1.clone();
                self.status_changes.push((entity, name, -c));
                assert(self.status_changes@ =~= old(self).status_changes@ + removals(a.subrange(0, i as int + 1), entity));
            } else {
                assert(self.status_changes@ =~= old(self).status_changes@ + removals(a.subrange(0, i as int + 1), entity));
            }
            i = i + 1;
        }
        assert(old(self).active_statuses@.subrange(0, old(self).active_statuses@.len() as int) =~= old(self).active_statuses@);
    }
}

/// The ledger without the entries of the entity.
pub open spec fn without_entity(active: Seq<(u64, String, i32)>, entity: u64) -> Seq<(u64, String, i32)>
    decreases active.len(),
{
    if active.len() == 0 {
        Seq::empty()
    } else {
        let rest = without_entity(active.drop_last(), entity);
        if active.last().0 != entity { rest.push(active.last()) } else { rest }
    }
}

/// The changes that take away every charge the entity carries, in ledger
/// order.
pub open spec fn removals(active: Seq<(u64, String, i32)>, entity: u64) -> Seq<(u64, String, i32)>
    decreases active.len(),
{
    if active.len() == 0 {
        Seq::empty()
    } else {
        let t = active.last();
        let rest = removals(active.drop_last(), entity);
        if t.0 == entity { rest.push((entity, t.1, (-t.2) as i32)) } else { rest }
    }
}

pub proof fn lemma_total_size_prefix(changes: Seq<(u64, String, i32)>, k: int)
    requires
        0 <= k <= changes.len(),
    ensures
        total_size(changes.subrange(0, k)) <= total_size(changes),
    decreases changes.len() - k,
{
    if k < changes.len() {
        lemma_total_size_prefix(changes, k + 1);
        assert(changes.subrange(0, k + 1).drop_last() =~= changes.subrange(0, k));
    } else {
        assert(changes.subrange(0, k) =~= changes);
    }
}

/// Every entry of the ledger holds at least one charge.
pub open spec fn charges_positive(active: Seq<(u64, String, i32)>) -> bool {
    forall|k: int| 0 <= k < active.len() ==> (#[trigger] active[k]).2 > 0
}

/// Adding a charge and taking it back leaves the ledger as it was, and the
/// announcements tell of both steps.
pub proof fn lemma_add_then_remove(active: Seq<(u64, String, i32)>, sent: Seq<StatusEvent>, e: u64, name: String)
    requires
        charges_positive(active),
        charges_of(active, e, name@) < i32::MAX,
    ensures
        ({
            let a = add_charge(active, sent, e, name);
            let r = remove_charge(a.0, a.1, e, name);
            &&& r.0 == active
            &&& r.1.len() == sent.len() + if charges_of(active, e, name@) == 0 { 4int } else { 2int }
        }),
{
    let p = entry_of(e, name@);
    lemma_first_index(active, p);
    let i = entry_index(active, e, name@);
    let a = add_charge(active, sent, e, name);
    lemma_first_index(a.0, p);
    let j = entry_index(a.0, e, name@);
    if i >= 0 {
        assert(active[i].2 > 0);
        assert(p(a.0[i]));
        if j != i {
            if 0 <= j < i {
                assert(a.0[j] == active[j]);
            }
        }
        assert(charges_of(a.0, e, name@) == active[i].2 + 1);
        let r = remove_charge(a.0, a.1, e, name);
        assert(r.0 =~= active);
    } else {
        assert(p(a.0[active.len() as int]));
        if 0 <= j < active.len() {
            assert(a.0[j] == active[j]);
        }
        assert(j == active.len());
        let r = remove_charge(a.0, a.1, e, name);
        assert(r.0 =~= active);
    }
}

/// Taking a charge never leaves an entry without charges: from a ledger
/// whose entries all hold charges, the ledger after the removal is such a
/// ledger too; when the entity lacks the status, nothing changes; and when
/// no status is held twice, the entity's charges drop by one, or to none
/// from the last charge.
pub proof fn lemma_remove_charge_laws(active: Seq<(u64, String, i32)>, sent: Seq<StatusEvent>, e: u64, name: String)
    requires
        charges_positive(active),
    ensures
        charges_positive(remove_charge(active, sent, e, name).0),
        charges_of(active, e, name@) == 0 ==> remove_charge(active, sent, e, name).0 == active,
        ledger_unique(active) ==> charges_of(remove_charge(active, sent, e, name).0, e, name@)
            == if charges_of(active, e, name@) > 1 { charges_of(active, e, name@) - 1 } else { 0 },
{
    let p = entry_of(e, name@);
    lemma_first_index(active, p);
    let i = entry_index(active, e, name@);
    let c = charges_of(active, e, name@);
    let r = remove_charge(active, sent, e, name).0;
    if i >= 0 {
        assert(active[i].2 > 0);
    }
    assert forall|k: int| 0 <= k < r.len() implies (#[trigger] r[k]).2 > 0 by {
        if c > 1 {
            if k != i {
                assert(r[k] == active[k]);
            }
        } else if i >= 0 {
            if k < i {
                assert(r[k] == active[k]);
            } else {
                assert(r[k] == active[k + 1]);
            }
        } else {
            assert(r[k] == active[k]);
        }
    }
    if ledger_unique(active) {
        lemma_first_index(r, p);
        let j = entry_index(r, e, name@);
        if c > 1 {
            assert(p(r[i]));
            if 0 <= j < i {
                assert(r[j] == active[j]);
            }
        } else if i >= 0 {
            if j >= 0 {
                let k = if j < i { j } else { j + 1 };
                assert(r[j] == active[k]);
                assert(p(active[i]));
                if k < i {
                    assert(p(active[k]));
                }
                assert(false);
            }
        } else {
            if j >= 0 {
                assert(r[j] == active[j]);
            }
        }
    }
}

/// Adding a charge gives the entity one more charge of the status, and an
/// entry with charges again.
pub proof fn lemma_add_charge_laws(active: Seq<(u64, String, i32)>, sent: Seq<StatusEvent>, e: u64, name: String)
    requires
        charges_positive(active),
        charges_of(active, e, name@) < i32::MAX,
    ensures
        charges_positive(add_charge(active, sent, e, name).0),
        charges_of(add_charge(active, sent, e, name).0, e, name@) == charges_of(active, e, name@) + 1,
{
    let p = entry_of(e, name@);
    lemma_first_index(active, p);
    let i = entry_index(active, e, name@);
    let a = add_charge(active, sent, e, name).0;
    lemma_first_index(a, p);
    let j = entry_index(a, e, name@);
    if i >= 0 {
        assert(active[i].2 > 0);
        assert(p(a[i]));
        if 0 <= j < i {
            assert(a[j] == active[j]);
        }
    } else {
        assert(p(a[active.len() as int]));
        if 0 <= j < active.len() {
            assert(a[j] == active[j]);
        }
    }
    assert forall|k: int| 0 <= k < a.len() implies (#[trigger] a[k]).2 > 0 by {
        if k < active.len() && k != i {
            assert(a[k] == active[k]);
        }
    }
}

} // verus!
