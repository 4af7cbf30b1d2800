use deathlogger_agent::pipeline::{finish_delivery, plan_delivery, DEFAULT_PAIR_WINDOW_SECS};
use deathlogger_agent::pipeline::observe_screenshot;
use deathlogger_agent::record::{DeathRecord, Norm};
use deathlogger_agent::state::DeliveryState;

fn death(player: &str, realm: &str, at: i64) -> DeathRecord {
    DeathRecord {
        at,
        player: player.to_string(),
        realm: realm.to_string(),
        class: None,
        level: None,
        location: Norm::Null,
        killer: Norm::Null,
        bags: Norm::Null,
        equipped: Norm::Null,
        instance: Norm::Object(Vec::new()),
        money_copper: None,
        money_gold: None,
        money_silver: None,
        money_copper_only: None,
    }
}

/// Runs the pipeline once: plans, "uploads" with the given outcome, and
/// applies it. Returns whether an upload was attempted.
fn handle(st: &mut DeliveryState, rec: &DeathRecord, upload_ok: bool, uploads: &mut u32) -> bool {
    match plan_delivery(st, rec, DEFAULT_PAIR_WINDOW_SECS) {
        Some(plan) => {
            if upload_ok {
                *uploads += 1;
            }
            finish_delivery(st, plan, upload_ok);
            true
        }
        None => false,
    }
}

#[test]
fn repeated_handle_uploads_once() {
    let mut st = DeliveryState::new();
    let rec = death("Bob", "Stormrage", 1000);
    let mut uploads = 0;
    for _ in 0..5 {
        handle(&mut st, &rec, true, &mut uploads);
    }
    assert_eq!(uploads, 1);
    assert_eq!(st.last_delivered("Bob@Stormrage"), 1000);
}

#[test]
fn out_of_order_times_only_newer_delivered() {
    let mut st = DeliveryState::new();
    let mut uploads = 0;
    let mut attempted = Vec::new();
    for at in [100, 50, 100, 300, 200, 301] {
        if handle(&mut st, &death("Ann", "R", at), true, &mut uploads) {
            attempted.push(at);
        }
    }
    assert_eq!(attempted, vec![100, 300, 301]);
    assert_eq!(st.last_delivered("Ann@R"), 301);
}

#[test]
fn non_positive_time_is_never_due() {
    let st = DeliveryState::new();
    assert!(plan_delivery(&st, &death("Z", "R", 0), 120).is_none());
    assert!(plan_delivery(&st, &death("Z", "R", -5), 120).is_none());
}

#[test]
fn keys_are_separate_per_character() {
    let mut st = DeliveryState::new();
    let mut uploads = 0;
    handle(&mut st, &death("A", "R", 10), true, &mut uploads);
    assert!(handle(&mut st, &death("B", "R", 5), true, &mut uploads));
    assert!(handle(&mut st, &death("A", "S", 5), true, &mut uploads));
    assert_eq!(uploads, 3);
}

#[test]
fn failed_delivery_is_retried_then_advances_once() {
    let mut st = DeliveryState::new();
    observe_screenshot(&mut st, "shot.jpg".to_string(), Some(1010), 0);
    let rec = death("Bob", "R", 1000);
    let mut uploads = 0;
    assert!(handle(&mut st, &rec, false, &mut uploads));
    assert_eq!(st.last_delivered("Bob@R"), 0);
    assert_eq!(st.pending().len(), 1);
    assert!(handle(&mut st, &rec, true, &mut uploads));
    assert_eq!(uploads, 1);
    assert_eq!(st.last_delivered("Bob@R"), 1000);
    assert_eq!(st.pending().len(), 0);
    assert!(!handle(&mut st, &rec, true, &mut uploads));
}

#[test]
fn plan_carries_key_time_and_screenshot() {
    let mut st = DeliveryState::new();
    observe_screenshot(&mut st, "far.jpg".to_string(), Some(0), 0);
    observe_screenshot(&mut st, "near.jpg".to_string(), Some(990), 0);
    let plan = plan_delivery(&st, &death("Bob", "R", 1000), 120).unwrap();
    assert_eq!(plan.key, "Bob@R");
    assert_eq!(plan.at, 1000);
    assert_eq!(plan.screenshot.unwrap().path, "near.jpg");
    let plan = plan_delivery(&st, &death("Bob", "R", 5000), 120).unwrap();
    assert!(plan.screenshot.is_none());
}
