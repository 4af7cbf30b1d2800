use deathlogger_agent::pairing::find_nearest_screenshot;
use deathlogger_agent::state::{DeliveryState, PendingShot};

fn shot(path: &str, ts: i64) -> PendingShot {
    PendingShot { path: path.to_string(), ts_epoch: ts }
}

fn queue(shots: Vec<PendingShot>) -> DeliveryState {
    DeliveryState::from_parts(Vec::new(), shots)
}

#[test]
fn pairs_nearest_within_window() {
    let st = queue(vec![shot("a.jpg", 100), shot("b.jpg", 250), shot("c.jpg", 400)]);
    let got = find_nearest_screenshot(&st, 260, 120).expect("a shot is in the window");
    assert_eq!(got.path, "b.jpg");
    assert_eq!(got.ts_epoch, 250);
}

#[test]
fn pairs_nothing_outside_window() {
    let st = queue(vec![shot("a.jpg", 100), shot("b.jpg", 250), shot("c.jpg", 400)]);
    assert!(find_nearest_screenshot(&st, 260, 5).is_none());
    assert!(find_nearest_screenshot(&st, 700, 50).is_none());
}

#[test]
fn pairs_window_fifty_keeps_near_shot() {
    // 250 is 10 s from 260, inside a 50 s window.
    let st = queue(vec![shot("a.jpg", 100), shot("b.jpg", 250), shot("c.jpg", 400)]);
    assert_eq!(find_nearest_screenshot(&st, 260, 50).unwrap().path, "b.jpg");
}

#[test]
fn pairs_tie_goes_to_first_observed() {
    let st = queue(vec![shot("late.jpg", 270), shot("early.jpg", 250)]);
    assert_eq!(find_nearest_screenshot(&st, 260, 120).unwrap().path, "late.jpg");
    let st = queue(vec![shot("early.jpg", 250), shot("late.jpg", 270)]);
    assert_eq!(find_nearest_screenshot(&st, 260, 120).unwrap().path, "early.jpg");
}

#[test]
fn pairs_window_edge_is_inclusive() {
    let st = queue(vec![shot("a.jpg", 100)]);
    assert!(find_nearest_screenshot(&st, 220, 120).is_some());
    assert!(find_nearest_screenshot(&st, 221, 120).is_none());
}

#[test]
fn pairs_extreme_times_without_overflow() {
    let st = queue(vec![shot("a.jpg", i64::MIN), shot("b.jpg", i64::MAX)]);
    assert_eq!(find_nearest_screenshot(&st, i64::MAX, 0).unwrap().path, "b.jpg");
    assert!(find_nearest_screenshot(&st, 0, 1000).is_none());
}

#[test]
fn pairs_empty_queue() {
    let st = DeliveryState::new();
    assert!(find_nearest_screenshot(&st, 0, i64::MAX).is_none());
}
