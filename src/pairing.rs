//! Choosing the queued screenshot that belongs to a death.
use vstd::prelude::*;
use crate::state::{DeliveryState, PendingShot};

verus! {

/// Distance in seconds between two instants.
pub open spec fn dist(a: int, b: int) -> int {
    if a >= b {
        a - b
    } else {
        b - a
    }
}

/// Shot `i` of `q` was taken within `window` seconds of `target`.
pub open spec fn in_window(q: Seq<PendingShot>, i: int, target: int, window: int) -> bool {
    dist(q[i].ts_epoch as int, target) <= window
}

/// Shot `j` is the pick for `target`: in the window, no farther than any other
/// shot in the window, and strictly nearer than every earlier one.
pub open spec fn is_nearest(q: Seq<PendingShot>, j: int, target: int, window: int) -> bool {
    &&& 0 <= j < q.len()
    &&& in_window(q, j, target, window)
    &&& forall|i: int|
        0 <= i < q.len() && in_window(q, i, target, window) ==> dist(q[j].ts_epoch as int, target)
            <= dist(q[i].ts_epoch as int, target)
    &&& forall|i: int|
        0 <= i < j && in_window(q, i, target, window) ==> dist(q[j].ts_epoch as int, target)
            < dist(q[i].ts_epoch as int, target)
}

/// What the pairer returns for `target` over the queue `q`.
pub open spec fn nearest_spec(q: Seq<PendingShot>, target: int, window: int) -> Option<PendingShot> {
    if exists|j: int| is_nearest(q, j, target, window) {
        Some(q[choose|j: int| is_nearest(q, j, target, window)])
    } else {
        None
    }
}

fn distance(a: i64, b: i64) -> (r: i128)
    ensures
        r == dist(a as int, b as int),
{
    let d = a as i128 - b as i128;
    if d >= 0 {
        d
    } else {
        -d
    }
}

proof fn lemma_nearest_unique(q: Seq<PendingShot>, j: int, k: int, target: int, window: int)
    requires
        is_nearest(q, j, target, window),
        is_nearest(q, k, target, window),
    ensures
        j == k,
{
}

/// Index in `q` of the shot nearest to `death_ts` within `window_secs`
/// seconds; among equally near shots the one queued first.
pub fn nearest_index(q: &Vec<PendingShot>, death_ts: i64, window_secs: i64) -> (r: Option<usize>)
    ensures
        match r {
            Some(j) => is_nearest(q@, j as int, death_ts as int, window_secs as int),
            None => forall|i: int|
                0 <= i < q@.len() ==> !in_window(q@, i, death_ts as int, window_secs as int),
        },
{
    let mut best: Option<usize> = None;
    let mut best_dt: i128 = 0;
    let mut i: usize = 0;
    while i < q.len()
        invariant
            i <= q@.len(),
            match best {
                Some(j) => {
                    &&& j < i
                    &&& best_dt == dist(q@[j as int].ts_epoch as int, death_ts as int)
                    &&& in_window(q@, j as int, death_ts as int, window_secs as int)
                    &&& forall|k: int|
                        0 <= k < i && in_window(q@, k, death_ts as int, window_secs as int)
                            ==> best_dt <= dist(q@[k].ts_epoch as int, death_ts as int)
                    &&& forall|k: int|
                        0 <= k < j && in_window(q@, k, death_ts as int, window_secs as int)
                            ==> best_dt < dist(q@[k].ts_epoch as int, death_ts as int)
                },
                None => forall|k: int|
                    0 <= k < i ==> !in_window(q@, k, death_ts as int, window_secs as int),
            },
        decreases q@.len() - i,
    {
        let dt = distance(q[i].ts_epoch, death_ts);
        if dt <= window_secs as i128 {
            let better = match best {
                Some(_) => dt < best_dt,
                None => true,
            };
            if better {
                best = Some(i);
                best_dt = dt;
            }
        }
        i += 1;
    }
    best
}

/// The queued shot nearest to `death_ts` within `window_secs` seconds, if any;
/// among equally near shots the one queued first.
pub fn find_nearest_screenshot(state: &DeliveryState, death_ts: i64, window_secs: i64) -> (r: Option<
    PendingShot,
>)
    ensures
        r == nearest_spec(state.pending_view(), death_ts as int, window_secs as int),
{
    let q = state.pending();
    match nearest_index(q, death_ts, window_secs) {
        Some(j) => {
            proof {
                let k = choose|k: int|
                    is_nearest(q@, k, death_ts as int, window_secs as int);
                lemma_nearest_unique(q@, j as int, k, death_ts as int, window_secs as int);
            }
            Some(q[j].duplicate())
        },
        None => None,
    }
}

} // verus!
