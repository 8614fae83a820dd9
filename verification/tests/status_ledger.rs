use arena_of_ideas::status_pool::{StatusEvent, StatusPool};

fn kinds(p: &StatusPool) -> Vec<&'static str> {
    p.sent
        .iter()
        .map(|e| match e {
            StatusEvent::StatusAdd { .. } => "add",
            StatusEvent::StatusChargeAdd { .. } => "charge+",
            StatusEvent::StatusRemove { .. } => "remove",
            StatusEvent::StatusChargeRemove { .. } => "charge-",
        })
        .collect()
}

#[test]
fn charges_are_added_one_at_a_time() {
    let mut p = StatusPool::new();
    let shield = "Shield".to_string();
    p.add_status_charge(1, &shield);
    p.add_status_charge(1, &shield);
    assert_eq!(p.active_statuses, vec![(1, shield.clone(), 2)]);
    assert_eq!(kinds(&p), vec!["add", "charge+", "charge+"]);
    p.remove_status_charge(1, &shield);
    p.remove_status_charge(1, &shield);
    assert!(p.active_statuses.is_empty());
    assert_eq!(kinds(&p), vec!["add", "charge+", "charge+", "charge-", "remove", "charge-"]);
}

#[test]
fn queued_changes_are_applied_in_order() {
    let mut p = StatusPool::new();
    p.define_status("Poison".to_string());
    let poison = "Poison".to_string();
    p.change_entity_status(3, &poison, 0);
    assert!(p.status_changes.is_empty());
    p.change_entity_status(3, &poison, 3);
    p.change_entity_status(4, &poison, 1);
    p.change_entity_status(3, &poison, -2);
    p.process_status_changes();
    assert!(p.status_changes.is_empty());
    assert_eq!(p.active_statuses, vec![(3, poison.clone(), 1), (4, poison.clone(), 1)]);
    assert_eq!(p.sent.len(), 8);
    p.clear_entity_by_changes(3);
    assert_eq!(p.status_changes, vec![(3, poison.clone(), -1)]);
    p.process_status_changes();
    assert_eq!(p.active_statuses, vec![(4, poison.clone(), 1)]);
}

#[test]
fn clearing_forgets_charges() {
    let mut p = StatusPool::new();
    p.add_status_charge(1, &"A".to_string());
    p.add_status_charge(2, &"B".to_string());
    p.add_status_charge(1, &"C".to_string());
    p.clear_entity(1);
    assert_eq!(p.active_statuses, vec![(2, "B".to_string(), 1)]);
    p.clear_all_active();
    assert!(p.active_statuses.is_empty());
    assert_eq!(p.sent.len(), 6);
}

#[test]
fn a_status_has_one_entry_per_entity() {
    let mut p = StatusPool::new();
    let shield = "Shield".to_string();
    let poison = "Poison".to_string();
    p.change_entity_status(1, &shield, 1);
    p.change_entity_status(1, &shield, 5);
    p.change_entity_status(2, &shield, 2);
    p.change_entity_status(1, &poison, 1);
    p.process_status_changes();
    assert_eq!(p.active_statuses, vec![(1, shield.clone(), 6), (2, shield.clone(), 2), (1, poison.clone(), 1)]);
    p.change_entity_status(1, &shield, -6);
    p.process_status_changes();
    assert_eq!(p.active_statuses, vec![(2, shield.clone(), 2), (1, poison.clone(), 1)]);
}
