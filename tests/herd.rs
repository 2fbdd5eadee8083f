use dairy_backend::cow::{Cow, HerdError};
use dairy_backend::herd::Herd;

fn ids(cows: &[Cow]) -> Vec<u64> {
    cows.iter().map(|c| c.id).collect()
}

#[test]
fn bessie_records_production() {
    let mut h = Herd::new();
    let c = h.add_cow("Bessie".to_string(), 5, 100).unwrap();
    assert_eq!(c.id, 1);
    assert_eq!(c.milk_produced, 0);
    let r = h.record_milk_production(1, 10).unwrap();
    assert_eq!(r.milk_produced, 10);
    let g = h.get_cow(1).unwrap();
    assert_eq!(g.id, 1);
    assert_eq!(g.name, "Bessie");
    assert_eq!(g.age, 5);
    assert_eq!(g.milk_produced, 10);
}

#[test]
fn deleted_id_is_not_reused() {
    let mut h = Herd::new();
    assert_eq!(h.add_cow("Molly".to_string(), 4, 0).unwrap().id, 1);
    assert_eq!(h.add_cow("Daisy".to_string(), 3, 0).unwrap().id, 2);
    assert_eq!(h.delete_cow(1), Ok(()));
    let all = h.get_all_cows();
    assert_eq!(ids(&all), vec![2]);
    assert_eq!(all[0].name, "Daisy");
    assert_eq!(h.add_cow("Lily".to_string(), 2, 0).unwrap().id, 3);
    assert_eq!(h.get_cow(1), None);
}

#[test]
fn total_of_two_cows() {
    let mut h = Herd::new();
    h.add_cow("A".to_string(), 1, 0).unwrap();
    h.add_cow("B".to_string(), 2, 0).unwrap();
    h.record_milk_production(1, 8).unwrap();
    h.record_milk_production(2, 6).unwrap();
    assert_eq!(h.get_total_milk_production(), 14);
}

#[test]
fn update_of_missing_id_is_not_found() {
    let mut h = Herd::new();
    h.add_cow("A".to_string(), 1, 0).unwrap();
    assert_eq!(h.update_cow(99, Some("X".to_string()), Some(1)), Err(HerdError::NotFound));
    assert_eq!(h.get_all_cows().len(), 1);
}

#[test]
fn create_then_get_returns_same_cow() {
    let mut h = Herd::new();
    for (name, age) in [("Rosie", 2u64), ("Clover", 7), ("Buttercup", 0)] {
        let c = h.add_cow(name.to_string(), age, 42).unwrap();
        assert_eq!(h.get_cow(c.id), Some(c.clone()));
        assert_eq!(c.name, name);
        assert_eq!(c.age, age);
        assert_eq!(c.health_status, "Healthy");
        assert_eq!(c.created_at, 42);
    }
}

#[test]
fn empty_name_is_rejected() {
    for age in [0u64, 1, 5, u64::MAX] {
        let mut h = Herd::new();
        assert_eq!(h.add_cow(String::new(), age, 0), Err(HerdError::Validation));
        assert_eq!(h.len(), 0);
        assert_eq!(h.last_id(), 0);
    }
}

#[test]
fn delete_then_get_is_absent() {
    let mut h = Herd::new();
    for i in 0..5u64 {
        h.add_cow(format!("c{}", i), i, 0).unwrap();
    }
    assert_eq!(h.delete_cow(3), Ok(()));
    assert_eq!(h.get_cow(3), None);
    assert_eq!(h.delete_cow(3), Err(HerdError::NotFound));
    for _ in 0..10 {
        let c = h.add_cow("n".to_string(), 1, 0).unwrap();
        assert_ne!(c.id, 3);
    }
    assert_eq!(h.get_cow(3), None);
}

#[test]
fn production_accumulates() {
    let mut h = Herd::new();
    h.add_cow("A".to_string(), 1, 0).unwrap();
    h.add_cow("B".to_string(), 1, 0).unwrap();
    let amounts = [3u64, 0, 17, 5, 100];
    for a in amounts {
        h.record_milk_production(2, a).unwrap();
    }
    assert_eq!(h.get_cow(2).unwrap().milk_produced, 125);
    assert_eq!(h.get_cow(1).unwrap().milk_produced, 0);
}

#[test]
fn production_saturates() {
    let mut h = Herd::new();
    h.add_cow("A".to_string(), 1, 0).unwrap();
    h.record_milk_production(1, u64::MAX - 1).unwrap();
    assert_eq!(h.record_milk_production(1, 5).unwrap().milk_produced, u64::MAX);
}

#[test]
fn record_for_missing_id_is_not_found() {
    let mut h = Herd::new();
    assert_eq!(h.record_milk_production(1, 5), Err(HerdError::NotFound));
}

#[test]
fn total_matches_listing() {
    let mut h = Herd::new();
    for i in 1..=6u64 {
        h.add_cow(format!("c{}", i), i, 0).unwrap();
        h.record_milk_production(i, i * 3).unwrap();
    }
    h.delete_cow(2).unwrap();
    let listed: u64 = h.get_all_cows().iter().map(|c| c.milk_produced).sum();
    assert_eq!(h.get_total_milk_production(), listed);
    assert_eq!(listed, 3 + 9 + 12 + 15 + 18);
}

#[test]
fn total_saturates() {
    let mut h = Herd::new();
    h.add_cow("A".to_string(), 1, 0).unwrap();
    h.add_cow("B".to_string(), 1, 0).unwrap();
    h.record_milk_production(1, u64::MAX).unwrap();
    h.record_milk_production(2, 1).unwrap();
    assert_eq!(h.get_total_milk_production(), u64::MAX);
}

#[test]
fn empty_registry() {
    let h = Herd::new();
    assert_eq!(h.get_total_milk_production(), 0);
    assert!(h.get_all_cows().is_empty());
    assert_eq!(h.get_cow(1), None);
}

#[test]
fn listing_is_strictly_ascending() {
    let mut h = Herd::new();
    for i in 0..8u64 {
        h.add_cow(format!("c{}", i), i, 0).unwrap();
    }
    h.delete_cow(1).unwrap();
    h.delete_cow(5).unwrap();
    h.add_cow("late".to_string(), 1, 0).unwrap();
    let got = ids(&h.get_all_cows());
    assert_eq!(got, vec![2, 3, 4, 6, 7, 8, 9]);
    assert!(got.windows(2).all(|w| w[0] < w[1]));
}

#[test]
fn update_without_fields_changes_nothing() {
    let mut h = Herd::new();
    h.add_cow("Bessie".to_string(), 5, 9).unwrap();
    h.record_milk_production(1, 4).unwrap();
    let before = h.get_cow(1).unwrap();
    let r = h.update_cow(1, None, None).unwrap();
    assert_eq!(r, before);
    assert_eq!(h.get_cow(1).unwrap(), before);
}

#[test]
fn update_changes_only_supplied_fields() {
    let mut h = Herd::new();
    h.add_cow("Bessie".to_string(), 5, 9).unwrap();
    let r = h.update_cow(1, Some("Bess".to_string()), None).unwrap();
    assert_eq!(r.name, "Bess");
    assert_eq!(r.age, 5);
    let r = h.update_cow(1, None, Some(6)).unwrap();
    assert_eq!(r.name, "Bess");
    assert_eq!(r.age, 6);
    assert_eq!(h.get_cow(1).unwrap(), r);
}

#[test]
fn health_status_is_set() {
    let mut h = Herd::new();
    h.add_cow("Bessie".to_string(), 5, 0).unwrap();
    let r = h.update_health_status(1, "Sick".to_string()).unwrap();
    assert_eq!(r.health_status, "Sick");
    assert_eq!(h.get_cow(1).unwrap().health_status, "Sick");
    assert_eq!(h.update_health_status(2, "Sick".to_string()), Err(HerdError::NotFound));
}

#[test]
fn delete_of_missing_id_is_not_found() {
    let mut h = Herd::new();
    assert_eq!(h.delete_cow(7), Err(HerdError::NotFound));
}

#[test]
fn exhausted_counter_refuses_registration() {
    let mut h = Herd::restore(Vec::new(), u64::MAX).unwrap();
    assert_eq!(h.add_cow("A".to_string(), 1, 0), Err(HerdError::CapacityExceeded));
    assert_eq!(h.add_cow(String::new(), 1, 0), Err(HerdError::Validation));
    assert_eq!(h.len(), 0);
}

fn cow(id: u64) -> Cow {
    Cow {
        id,
        name: format!("c{}", id),
        age: 1,
        milk_produced: id,
        health_status: "Healthy".to_string(),
        created_at: 0,
    }
}

#[test]
fn restore_accepts_consistent_records() {
    let mut h = Herd::restore(vec![cow(2), cow(5), cow(9)], 10).unwrap();
    assert_eq!(ids(&h.get_all_cows()), vec![2, 5, 9]);
    assert_eq!(h.get_total_milk_production(), 16);
    assert_eq!(h.add_cow("n".to_string(), 1, 0).unwrap().id, 11);
    assert_eq!(h.get_cow(5), Some(cow(5)));
}

#[test]
fn restore_rejects_corrupt_records() {
    let bad = [
        (vec![cow(3), cow(2)], 10),
        (vec![cow(2), cow(2)], 10),
        (vec![cow(0)], 10),
        (vec![cow(4)], 3),
    ];
    for (cows, last) in bad {
        assert_eq!(Herd::restore(cows, last).err(), Some(HerdError::StorageCorruption));
    }
}
