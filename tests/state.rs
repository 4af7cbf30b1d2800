use deathlogger_agent::pipeline::observe_screenshot;
use deathlogger_agent::state::{DeliveryState, PendingShot, PENDING_CAPACITY};

fn paths(st: &DeliveryState) -> Vec<String> {
    st.pending().iter().map(|p| p.path.clone()).collect()
}

#[test]
fn queue_never_exceeds_capacity() {
    let mut st = DeliveryState::new();
    for i in 0..(PENDING_CAPACITY as i64) {
        observe_screenshot(&mut st, format!("s{i}.png"), Some(i), 0);
    }
    assert_eq!(st.pending().len(), 50);
    assert_eq!(st.pending()[0].path, "s0.png");
    observe_screenshot(&mut st, "s50.png".to_string(), Some(50), 0);
    assert_eq!(st.pending().len(), 50);
    assert_eq!(st.pending()[0].path, "s1.png");
    assert_eq!(st.pending()[49].path, "s50.png");
}

#[test]
fn observed_time_falls_back_to_now() {
    let mut st = DeliveryState::new();
    observe_screenshot(&mut st, "a.jpg".to_string(), None, 777);
    observe_screenshot(&mut st, "b.jpg".to_string(), Some(5), 777);
    assert_eq!(st.pending()[0].ts_epoch, 777);
    assert_eq!(st.pending()[1].ts_epoch, 5);
}

#[test]
fn ledger_records_and_overrides() {
    let mut st = DeliveryState::new();
    assert_eq!(st.last_delivered("Bob@Realm"), 0);
    st.record_delivery("Bob@Realm".to_string(), 10);
    st.record_delivery("Ann@Realm".to_string(), 7);
    st.record_delivery("Bob@Realm".to_string(), 12);
    assert_eq!(st.last_delivered("Bob@Realm"), 12);
    assert_eq!(st.last_delivered("Ann@Realm"), 7);
    let (entries, _) = st.to_parts();
    assert_eq!(entries.len(), 2);
}

#[test]
fn remove_screenshot_takes_first_match_only() {
    let mut st = DeliveryState::from_parts(
        Vec::new(),
        vec![
            PendingShot { path: "x.jpg".into(), ts_epoch: 1 },
            PendingShot { path: "y.jpg".into(), ts_epoch: 2 },
            PendingShot { path: "x.jpg".into(), ts_epoch: 3 },
        ],
    );
    st.remove_screenshot("x.jpg");
    assert_eq!(paths(&st), vec!["y.jpg", "x.jpg"]);
    assert_eq!(st.pending()[1].ts_epoch, 3);
    st.remove_screenshot("missing.jpg");
    assert_eq!(st.pending().len(), 2);
}

#[test]
fn state_round_trip_keeps_ledger_and_order() {
    let mut st = DeliveryState::new();
    st.record_delivery("A@R".to_string(), 5);
    st.record_delivery("B@R".to_string(), 9);
    observe_screenshot(&mut st, "1.png".to_string(), Some(1), 0);
    observe_screenshot(&mut st, "2.png".to_string(), Some(2), 0);
    let (entries, shots) = st.to_parts();
    let back = DeliveryState::from_parts(entries, shots);
    assert_eq!(back.last_delivered("A@R"), 5);
    assert_eq!(back.last_delivered("B@R"), 9);
    assert_eq!(back.last_delivered("C@R"), 0);
    assert_eq!(paths(&back), vec!["1.png", "2.png"]);
    assert_eq!(back.pending()[1].ts_epoch, 2);
}

#[test]
fn from_parts_later_entry_wins_and_keeps_newest_shots() {
    let entries = vec![("K@R".to_string(), 3), ("K@R".to_string(), 8)];
    let shots: Vec<PendingShot> = (0..60)
        .map(|i| PendingShot { path: format!("{i}.jpg"), ts_epoch: i })
        .collect();
    let st = DeliveryState::from_parts(entries, shots);
    assert_eq!(st.last_delivered("K@R"), 8);
    assert_eq!(st.pending().len(), 50);
    assert_eq!(st.pending()[0].path, "10.jpg");
}
