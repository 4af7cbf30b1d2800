//! The decisions of the delivery pipeline: whether a death read from a
//! saved-variables file is new, which screenshot goes with it, and how the
//! state changes once the upload has succeeded or failed.
use vstd::prelude::*;
use crate::pairing::{find_nearest_screenshot, nearest_spec};
use crate::paths::{key_of, to_key};
use crate::record::DeathRecord;
use crate::state::{keep_last, last_at, without_path, DeliveryState, PendingShot, PENDING_CAPACITY};

verus! {

/// The pairing window used unless the configuration says otherwise, in seconds.
pub const DEFAULT_PAIR_WINDOW_SECS: i64 = 120;

/// A death that is to be uploaded, with the screenshot chosen for it.
#[derive(Debug)]
pub struct DeliveryPlan {
    /// `player@realm` of the death.
    pub key: String,
    pub at: i64,
    pub screenshot: Option<PendingShot>,
}

/// A death at `at` for `key` has not been delivered yet: it is newer than the
/// ledger's entry.
pub open spec fn is_due(ledger: Map<Seq<char>, i64>, key: Seq<char>, at: i64) -> bool {
    at > last_at(ledger, key)
}

/// The ledger after an upload of the death (`key`, `at`) ended.
pub open spec fn ledger_after(
    ledger: Map<Seq<char>, i64>,
    key: Seq<char>,
    at: i64,
    delivered: bool,
) -> Map<Seq<char>, i64> {
    if delivered {
        ledger.insert(key, at)
    } else {
        ledger
    }
}

/// The screenshot queue after an upload with `shot` ended.
pub open spec fn queue_after(
    queue: Seq<PendingShot>,
    shot: Option<PendingShot>,
    delivered: bool,
) -> Seq<PendingShot> {
    match shot {
        Some(s) if delivered => without_path(queue, s.path@),
        _ => queue,
    }
}

/// Decides what to do with the latest death read from a file: nothing when
/// it is not newer than the ledger's entry for its character, else upload it
/// with the nearest queued screenshot within `window_secs`.
pub fn plan_delivery(state: &DeliveryState, record: &DeathRecord, window_secs: i64) -> (r: Option<
    DeliveryPlan,
>)
    requires
        state.wf(),
    ensures
        r.is_some() <==> is_due(
            state.ledger_view(),
            key_of(record.player@, record.realm@),
            record.at,
        ),
        r matches Some(p) ==> {
            &&& p.key@ == key_of(record.player@, record.realm@)
            &&& p.at == record.at
            &&& p.screenshot == nearest_spec(
                state.pending_view(),
                record.at as int,
                window_secs as int,
            )
        },
{
    let key = to_key(record.player.as_str(), record.realm.as_str());
    let already = state.last_delivered(key.as_str());
    if record.at <= already {
        return None;
    }
    let near = find_nearest_screenshot(state, record.at, window_secs);
    Some(DeliveryPlan { key, at: record.at, screenshot: near })
}

/// Applies the outcome of the upload of `plan`. A failed upload changes
/// nothing, so the same death is tried again later; a successful one moves
/// the ledger entry to the death's time and takes the paired screenshot out of
/// the queue.
pub fn finish_delivery(state: &mut DeliveryState, plan: DeliveryPlan, delivered: bool)
    requires
        old(state).wf(),
    ensures
        final(state).wf(),
        final(state).ledger_view() == ledger_after(
            old(state).ledger_view(),
            plan.key@,
            plan.at,
            delivered,
        ),
        final(state).pending_view() == queue_after(
            old(state).pending_view(),
            plan.screenshot,
            delivered,
        ),
{
    if delivered {
        let DeliveryPlan { key, at, screenshot } = plan;
        state.record_delivery(key, at);
        match screenshot {
            Some(s) => state.remove_screenshot(s.path.as_str()),
            None => {},
        }
    }
}

/// The time a screenshot is queued with: its modification time in seconds
/// since the epoch when known, else the time it was seen.
pub fn screenshot_time(mtime_secs: Option<i64>, now_secs: i64) -> (r: i64)
    ensures
        r == match mtime_secs {
            Some(m) => m,
            None => now_secs,
        },
{
    match mtime_secs {
        Some(m) => m,
        None => now_secs,
    }
}

/// Queues a screenshot that appeared at `path`, dropping the oldest queued
/// ones beyond the queue's capacity.
pub fn observe_screenshot(state: &mut DeliveryState, path: String, mtime_secs: Option<i64>, now_secs: i64)
    requires
        old(state).wf(),
    ensures
        final(state).wf(),
        final(state).ledger_view() == old(state).ledger_view(),
        final(state).pending_view() == keep_last(
            old(state).pending_view().push(
                PendingShot {
                    path,
                    ts_epoch: match mtime_secs {
                        Some(m) => m,
                        None => now_secs,
                    },
                },
            ),
            PENDING_CAPACITY as nat,
        ),
{
    let ts = screenshot_time(mtime_secs, now_secs);
    state.push_screenshot(PendingShot { path, ts_epoch: ts });
}

/// The queue never holds more than its capacity: after any arrival it holds
/// the newest arrivals, at most `PENDING_CAPACITY` of them, and a full queue
/// loses exactly its oldest shot.
pub proof fn law_queue_is_bounded(q: Seq<PendingShot>, shot: PendingShot)
    requires
        q.len() <= PENDING_CAPACITY,
    ensures
        keep_last(q.push(shot), PENDING_CAPACITY as nat).len() <= PENDING_CAPACITY,
        keep_last(q.push(shot), PENDING_CAPACITY as nat).last() == shot,
        q.len() == PENDING_CAPACITY ==> keep_last(q.push(shot), PENDING_CAPACITY as nat)
            == q.drop_first().push(shot),
        q.len() < PENDING_CAPACITY ==> keep_last(q.push(shot), PENDING_CAPACITY as nat) == q.push(
            shot,
        ),
{
    if q.len() == PENDING_CAPACITY {
        assert(keep_last(q.push(shot), PENDING_CAPACITY as nat) =~= q.drop_first().push(shot));
    }
}

/// Once a death has been delivered, the same death is never due again: calling
/// the pipeline any number of times on an unchanged file uploads it once.
pub proof fn law_delivery_is_idempotent(ledger: Map<Seq<char>, i64>, key: Seq<char>, at: i64)
    requires
        is_due(ledger, key, at),
    ensures
        !is_due(ledger_after(ledger, key, at, true), key, at),
{
}

/// After a death at `at` has been delivered, a death of the same character is
/// due exactly when it is strictly later than `at`; times of other characters
/// are untouched. Older or equal times that arrive afterwards are skipped.
pub proof fn law_only_newer_deaths_are_due(
    ledger: Map<Seq<char>, i64>,
    key: Seq<char>,
    at: i64,
    later: i64,
    other: Seq<char>,
)
    requires
        is_due(ledger, key, at),
    ensures
        is_due(ledger_after(ledger, key, at, true), key, later) <==> later > at,
        last_at(ledger_after(ledger, key, at, true), key) > last_at(ledger, key),
        other != key ==> last_at(ledger_after(ledger, key, at, true), other) == last_at(
            ledger,
            other,
        ),
{
}

/// The ledger after the death times `ats` of the character `key` were handed
/// to the pipeline in order, each due one uploaded successfully.
pub open spec fn run_ledger(ledger: Map<Seq<char>, i64>, key: Seq<char>, ats: Seq<i64>) -> Map<
    Seq<char>,
    i64,
>
    decreases ats.len(),
{
    if ats.len() == 0 {
        ledger
    } else {
        let before = run_ledger(ledger, key, ats.drop_last());
        ledger_after(before, key, ats.last(), is_due(before, key, ats.last()))
    }
}

/// Presenting death times for one character in any order, with every upload
/// succeeding, delivers a time exactly when it is strictly greater than both
/// the starting ledger entry and every time presented before it; the entry
/// never decreases.
pub proof fn law_out_of_order_times(ledger: Map<Seq<char>, i64>, key: Seq<char>, ats: Seq<i64>)
    ensures
        forall|i: int|
            0 <= i < ats.len() ==> (is_due(run_ledger(ledger, key, ats.take(i)), key, ats[i]) <==> (
            ats[i] > last_at(ledger, key) && forall|j: int| 0 <= j < i ==> ats[i] > ats[j])),
        last_at(run_ledger(ledger, key, ats), key) >= last_at(ledger, key),
    decreases ats.len(),
{
    if ats.len() > 0 {
        let p = ats.drop_last();
        law_out_of_order_times(ledger, key, p);
        lemma_run_max(ledger, key, ats);
        assert forall|i: int| 0 <= i < ats.len() implies (is_due(
            run_ledger(ledger, key, ats.take(i)),
            key,
            ats[i],
        ) <==> (ats[i] > last_at(ledger, key) && forall|j: int| 0 <= j < i ==> ats[i] > ats[j])) by {
            lemma_run_max(ledger, key, ats.take(i));
            assert(ats.take(i).len() == i);
            assert forall|j: int| 0 <= j < i implies ats.take(i)[j] == ats[j] by {}
        }
    }
}

/// The ledger entry after a run is the largest of the starting entry and the
/// presented times.
proof fn lemma_run_max(ledger: Map<Seq<char>, i64>, key: Seq<char>, ats: Seq<i64>)
    ensures
        last_at(run_ledger(ledger, key, ats), key) >= last_at(ledger, key),
        forall|j: int| 0 <= j < ats.len() ==> last_at(run_ledger(ledger, key, ats), key) >= ats[j],
        last_at(run_ledger(ledger, key, ats), key) == last_at(ledger, key) || exists|j: int|
            0 <= j < ats.len() && last_at(run_ledger(ledger, key, ats), key) == ats[j],
    decreases ats.len(),
{
    if ats.len() > 0 {
        let p = ats.drop_last();
        lemma_run_max(ledger, key, p);
        assert forall|j: int| 0 <= j < p.len() implies p[j] == ats[j] by {}
        if last_at(run_ledger(ledger, key, p), key) != last_at(ledger, key) {
            let j = choose|j: int|
                0 <= j < p.len() && last_at(run_ledger(ledger, key, p), key) == p[j];
            assert(p[j] == ats[j]);
        }
    }
}

/// A failed upload leaves the ledger as it was, so the death stays due; the
/// next successful upload moves the entry to the death's time, once.
pub proof fn law_failed_delivery_is_retried(ledger: Map<Seq<char>, i64>, key: Seq<char>, at: i64)
    requires
        is_due(ledger, key, at),
    ensures
        ledger_after(ledger, key, at, false) == ledger,
        is_due(ledger_after(ledger, key, at, false), key, at),
        last_at(ledger_after(ledger_after(ledger, key, at, false), key, at, true), key) == at,
        !is_due(ledger_after(ledger_after(ledger, key, at, false), key, at, true), key, at),
{
}

} // verus!
