use distance_tracker::classify::{classify_max, classify_min, AlertKind};
use distance_tracker::evaluate::{alerts_for_pair, evaluate_snapshot, pair_indices, DistanceAlert};
use distance_tracker::table::{EntityState, StateTable};
use distance_tracker::Position;

fn entity(id: &str, lat_udeg: i64, lng_udeg: i64) -> EntityState {
    EntityState {
        id: String::from(id),
        position: Position { lat_udeg, lng_udeg },
        speed_mmps: 0,
        color: String::from("red"),
        kind: String::from("car"),
    }
}

const MIN_MM: u64 = 10_000; // 10 m
const MAX_MM: u64 = 1_000_000; // 1000 m

#[test]
fn min_band_boundaries() {
    // exactly at the threshold: danger, inclusive
    assert_eq!(classify_min(MIN_MM, MIN_MM), Some(AlertKind::DangerMin));
    // just above: alert tier
    assert_eq!(classify_min(MIN_MM + 1, MIN_MM), Some(AlertKind::AlertMin));
    // exactly at 1.5 times the threshold: alert, inclusive
    assert_eq!(classify_min(15_000, MIN_MM), Some(AlertKind::AlertMin));
    // just beyond 1.5 times: quiet
    assert_eq!(classify_min(15_001, MIN_MM), None);
    assert_eq!(classify_min(0, MIN_MM), Some(AlertKind::DangerMin));
}

#[test]
fn max_band_boundaries() {
    // exactly at the threshold: still inside, no danger
    assert_eq!(classify_max(MAX_MM, MAX_MM), Some(AlertKind::AlertMax));
    // just above: danger
    assert_eq!(classify_max(MAX_MM + 1, MAX_MM), Some(AlertKind::DangerMax));
    // exactly at three quarters: quiet (strictly-above edge)
    assert_eq!(classify_max(750_000, MAX_MM), None);
    assert_eq!(classify_max(750_001, MAX_MM), Some(AlertKind::AlertMax));
    assert_eq!(classify_max(0, MAX_MM), None);
}

#[test]
fn kind_wire_tags() {
    assert_eq!(AlertKind::AlertMin.tag(), 0);
    assert_eq!(AlertKind::DangerMin.tag(), 1);
    assert_eq!(AlertKind::AlertMax.tag(), 2);
    assert_eq!(AlertKind::DangerMax.tag(), 3);
}

#[test]
fn identical_coordinates_danger_min_only() {
    // two entities at the same spot: distance 0 is a minimum-band danger
    // and is safely inside the maximum band
    let a = entity("a", 45_000_000, 7_000_000);
    let b = entity("b", 45_000_000, 7_000_000);
    let snap = vec![a, b];
    let dists = vec![0u64; 4];
    let alerts = evaluate_snapshot(&snap, &dists, MIN_MM, MAX_MM);
    assert_eq!(alerts.len(), 1);
    assert_eq!(alerts[0].ida, "a");
    assert_eq!(alerts[0].idb, "b");
    assert_eq!(alerts[0].distance_mm, 0);
    assert_eq!(alerts[0].kind, AlertKind::DangerMin);
}

#[test]
fn far_apart_danger_max_only() {
    // 50 km apart: beyond the maximum band, far outside the minimum band
    let a = entity("a", 0, 0);
    let b = entity("b", 0, 450_000);
    let snap = vec![a, b];
    let mut dists = vec![0u64; 4];
    dists[1] = 50_000_000; // row-major (0, 1)
    let alerts = evaluate_snapshot(&snap, &dists, MIN_MM, MAX_MM);
    assert_eq!(alerts.len(), 1);
    assert_eq!(alerts[0].kind, AlertKind::DangerMax);
    assert_eq!(alerts[0].distance_mm, 50_000_000);
}

#[test]
fn three_entities_one_crossing() {
    // only the (a, b) pair crosses a threshold; the other two pairs sit in
    // both bands' safe regions
    let a = entity("a", 0, 0);
    let b = entity("b", 0, 0);
    let c = entity("c", 10_000, 10_000);
    let snap = vec![a, b, c];
    let mut dists = vec![0u64; 9];
    dists[0 * 3 + 1] = 0; // a-b together
    dists[0 * 3 + 2] = 500_000; // a-c: quiet in both bands
    dists[1 * 3 + 2] = 500_000; // b-c: quiet in both bands
    let alerts = evaluate_snapshot(&snap, &dists, MIN_MM, MAX_MM);
    assert_eq!(alerts.len(), 1);
    assert_eq!(alerts[0].ida, "a");
    assert_eq!(alerts[0].idb, "b");
    assert_eq!(alerts[0].kind, AlertKind::DangerMin);
}

#[test]
fn pair_can_cross_both_bands() {
    // a distance at or under the minimum and over the maximum yields one
    // alert per band
    let a = entity("a", 0, 0);
    let b = entity("b", 0, 0);
    let alerts: Vec<DistanceAlert> = alerts_for_pair(&a, &b, 80, 100, 50);
    assert_eq!(alerts.len(), 2);
    assert_eq!(alerts[0].kind, AlertKind::DangerMin);
    assert_eq!(alerts[1].kind, AlertKind::DangerMax);
}

#[test]
fn empty_and_singleton_snapshots_quiet() {
    let dists0: Vec<u64> = Vec::new();
    let no_alerts = evaluate_snapshot(&Vec::new(), &dists0, MIN_MM, MAX_MM);
    assert_eq!(no_alerts.len(), 0);
    let snap = vec![entity("a", 1, 2)];
    let dists1 = vec![0u64; 1];
    let one = evaluate_snapshot(&snap, &dists1, MIN_MM, MAX_MM);
    assert_eq!(one.len(), 0);
}

#[test]
fn pair_indices_exact_enumeration() {
    let pairs = pair_indices(4);
    assert_eq!(
        pairs,
        vec![(0, 1), (0, 2), (0, 3), (1, 2), (1, 3), (2, 3)]
    );
    assert_eq!(pair_indices(0).len(), 0);
    assert_eq!(pair_indices(1).len(), 0);
    assert_eq!(pair_indices(5).len(), 10);
}

#[test]
fn insert_replaces_never_duplicates() {
    let mut t = StateTable::new();
    let mut v = entity("x", 1, 2);
    t.insert(v.clone());
    assert_eq!(t.len(), 1);
    v.speed_mmps = 777;
    t.insert(v);
    // same id: replaced in place, table did not grow
    assert_eq!(t.len(), 1);
    assert_eq!(t.entries()[0].speed_mmps, 777);
    t.insert(entity("y", 3, 4));
    assert_eq!(t.len(), 2);
}

#[test]
fn malformed_message_leaves_table_untouched() {
    let mut t = StateTable::new();
    assert!(t.apply_message(Some(entity("x", 1, 2))));
    assert_eq!(t.len(), 1);
    // a decode failure is handed in as None: nothing changes, and the
    // next good message is still applied
    assert!(!t.apply_message(None));
    assert_eq!(t.len(), 1);
    assert_eq!(t.entries()[0].id, "x");
    assert!(t.apply_message(Some(entity("y", 3, 4))));
    assert_eq!(t.len(), 2);
}

#[test]
fn detach_empties_the_table() {
    let mut t = StateTable::new();
    t.insert(entity("x", 1, 2));
    t.insert(entity("y", 3, 4));
    let snap = t.detach();
    assert_eq!(t.len(), 0);
    assert_eq!(snap.len(), 2);
}

#[test]
fn merge_keeps_late_reports() {
    // x and y are detached in a snapshot; while the evaluator works, a
    // fresh report for x and a first report for z land in the table
    let mut t = StateTable::new();
    t.insert(entity("x", 1, 1));
    t.insert(entity("y", 2, 2));
    let snap = t.detach();
    let mut late_x = entity("x", 9, 9);
    late_x.speed_mmps = 42;
    t.insert(late_x);
    t.insert(entity("z", 3, 3));
    t.merge(snap);
    assert_eq!(t.len(), 3);
    let entries = t.entries();
    let x = entries.iter().find(|e| e.id == "x").expect("x kept");
    // the report that arrived during the window wins over the snapshot
    assert_eq!(x.speed_mmps, 42);
    assert_eq!(x.position.lat_udeg, 9);
    assert!(entries.iter().any(|e| e.id == "y"));
    assert!(entries.iter().any(|e| e.id == "z"));
}
