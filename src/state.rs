//! The persisted delivery state: the ledger of last delivered death times per
//! character and the bounded queue of screenshots not yet paired.
use vstd::prelude::*;
use crate::text::str_eq;

verus! {

/// How many unpaired screenshots the queue keeps.
pub const PENDING_CAPACITY: usize = 50;

/// A screenshot seen on disk and not yet sent with a death.
#[derive(Debug)]
pub struct PendingShot {
    pub path: String,
    /// Seconds since the epoch: the file's modification time, or the time it was seen.
    pub ts_epoch: i64,
}

impl PendingShot {
    /// An equal copy.
    pub fn duplicate(&self) -> (r: PendingShot)
        ensures
            r == *self,
    {
        PendingShot { path: self.path.clone(), ts_epoch: self.ts_epoch }
    }
}

/// The map that a list of ledger entries stands for; a later entry overrides an
/// earlier one with the same key.
pub open spec fn entries_map(s: Seq<(String, i64)>) -> Map<Seq<char>, i64>
    decreases s.len(),
{
    if s.len() == 0 {
        Map::empty()
    } else {
        entries_map(s.drop_last()).insert(s.last().0@, s.last().1)
    }
}

/// No two entries share a key.
pub open spec fn keys_unique(s: Seq<(String, i64)>) -> bool {
    forall|i: int, j: int| 0 <= i < j < s.len() ==> s[i].0@ != s[j].0@
}

/// The last `n` elements of `s`, or all of them when there are fewer.
pub open spec fn keep_last<T>(s: Seq<T>, n: nat) -> Seq<T> {
    if s.len() <= n {
        s
    } else {
        s.subrange(s.len() - n, s.len() as int)
    }
}

/// The value a ledger holds for `key`, or 0 when it holds none.
pub open spec fn last_at(ledger: Map<Seq<char>, i64>, key: Seq<char>) -> i64 {
    if ledger.contains_key(key) {
        ledger[key]
    } else {
        0
    }
}

/// Index of the first shot in `q` whose path is `path`, if any.
pub open spec fn first_with_path(q: Seq<PendingShot>, path: Seq<char>) -> Option<int>
    decreases q.len(),
{
    if q.len() == 0 {
        None
    } else if q[0].path@ == path {
        Some(0)
    } else {
        match first_with_path(q.drop_first(), path) {
            Some(i) => Some(i + 1),
            None => None,
        }
    }
}

/// `q` without the first shot whose path is `path`.
pub open spec fn without_path(q: Seq<PendingShot>, path: Seq<char>) -> Seq<PendingShot> {
    match first_with_path(q, path) {
        Some(i) => q.remove(i),
        None => q,
    }
}

proof fn lemma_first_with_path(q: Seq<PendingShot>, path: Seq<char>)
    ensures
        match first_with_path(q, path) {
            Some(i) => 0 <= i < q.len() && q[i].path@ == path && forall|j: int|
                0 <= j < i ==> q[j].path@ != path,
            None => forall|j: int| 0 <= j < q.len() ==> q[j].path@ != path,
        },
    decreases q.len(),
{
    if q.len() > 0 {
        lemma_first_with_path(q.drop_first(), path);
        if q[0].path@ != path {
            assert forall|j: int| 0 < j < q.len() implies q[j] == q.drop_first()[j - 1] by {}
        }
    }
}

proof fn lemma_entries_lookup(s: Seq<(String, i64)>, k: Seq<char>)
    requires
        keys_unique(s),
    ensures
        entries_map(s).contains_key(k) <==> exists|i: int| 0 <= i < s.len() && s[i].0@ == k,
        forall|i: int| 0 <= i < s.len() && s[i].0@ == k ==> entries_map(s)[k] == s[i].1,
    decreases s.len(),
{
    if s.len() > 0 {
        let p = s.drop_last();
        lemma_entries_lookup(p, k);
        if entries_map(s).contains_key(k) && s.last().0@ != k {
            let i = choose|i: int| 0 <= i < p.len() && p[i].0@ == k;
            assert(s[i] == p[i]);
        }
        assert forall|i: int| 0 <= i < s.len() - 1 && s[i].0@ == k implies p[i].0@ == k by {
            assert(s[i] == p[i]);
        }
    }
}

proof fn lemma_entries_update(s: Seq<(String, i64)>, i: int, e: (String, i64))
    requires
        keys_unique(s),
        0 <= i < s.len(),
        s[i].0@ == e.0@,
    ensures
        entries_map(s.update(i, e)) == entries_map(s).insert(e.0@, e.1),
        keys_unique(s.update(i, e)),
    decreases s.len(),
{
    let u = s.update(i, e);
    if i == s.len() - 1 {
        assert(u.drop_last() == s.drop_last());
        assert(entries_map(u) =~= entries_map(s).insert(e.0@, e.1));
    } else {
        let p = s.drop_last();
        assert(u.drop_last() == p.update(i, e));
        lemma_entries_update(p, i, e);
        assert(s.last().0@ != e.0@);
        assert(entries_map(u) =~= entries_map(s).insert(e.0@, e.1));
    }
}

/// Ledger and screenshot queue. The ledger has one entry per key; the queue
/// keeps arrival order and never holds more than `PENDING_CAPACITY` shots.
pub struct DeliveryState {
    ledger: Vec<(String, i64)>,
    pending: Vec<PendingShot>,
}

impl DeliveryState {
    pub closed spec fn entries(&self) -> Seq<(String, i64)> {
        self.ledger@
    }

    /// Last delivered death time per `player@realm` key.
    pub closed spec fn ledger_view(&self) -> Map<Seq<char>, i64> {
        entries_map(self.ledger@)
    }

    /// Unpaired screenshots, oldest first.
    pub closed spec fn pending_view(&self) -> Seq<PendingShot> {
        self.pending@
    }

    pub closed spec fn wf(&self) -> bool {
        keys_unique(self.ledger@) && self.pending@.len() <= PENDING_CAPACITY
    }

    /// An empty ledger and an empty queue.
    pub fn new() -> (r: DeliveryState)
        ensures
            r.wf(),
            r.ledger_view() == Map::<Seq<char>, i64>::empty(),
            r.pending_view() == Seq::<PendingShot>::empty(),
    {
        DeliveryState { ledger: Vec::new(), pending: Vec::new() }
    }

    /// The queue of unpaired screenshots, oldest first.
    pub fn pending(&self) -> (r: &Vec<PendingShot>)
        ensures
            r@ == self.pending_view(),
    {
        &self.pending
    }

    fn find_key(&self, key: &str) -> (r: Option<usize>)
        requires
            self.wf(),
        ensures
            match r {
                Some(i) => i < self.ledger@.len() && self.ledger@[i as int].0@ == key@,
                None => !self.ledger_view().contains_key(key@),
            },
    {
        proof {
            lemma_entries_lookup(self.ledger@, key@);
        }
        let mut i: usize = 0;
        while i < self.ledger.len()
            invariant
                i <= self.ledger@.len(),
                forall|j: int| 0 <= j < i ==> self.ledger@[j].0@ != key@,
            decreases self.ledger@.len() - i,
        {
            if str_eq(self.ledger[i].0.as_str(), key) {
                return Some(i);
            }
            i += 1;
        }
        None
    }

    /// The last delivered death time for `key`, 0 when none was delivered.
    pub fn last_delivered(&self, key: &str) -> (r: i64)
        requires
            self.wf(),
        ensures
            r == last_at(self.ledger_view(), key@),
    {
        proof {
            lemma_entries_lookup(self.ledger@, key@);
        }
        match self.find_key(key) {
            Some(i) => self.ledger[i].1,
            None => 0,
        }
    }

    /// Sets the ledger entry of `key` to `at`.
    pub fn record_delivery(&mut self, key: String, at: i64)
        requires
            old(self).wf(),
        ensures
            final(self).wf(),
            final(self).ledger_view() == old(self).ledger_view().insert(key@, at),
            final(self).pending_view() == old(self).pending_view(),
    {
        match self.find_key(key.as_str()) {
            Some(i) => {
                proof {
                    lemma_entries_update(self.ledger@, i as int, (key, at));
                }
                self.ledger.set(i, (key, at));
            },
            None => {
                proof {
                    lemma_entries_lookup(self.ledger@, key@);
                }
                let ghost before = self.ledger@;
                self.ledger.push((key, at));
                assert(self.ledger@.drop_last() == before);
            },
        }
    }

    /// Appends a screenshot to the queue, dropping the oldest ones beyond
    /// `PENDING_CAPACITY`.
    pub fn push_screenshot(&mut self, shot: PendingShot)
        requires
            old(self).wf(),
        ensures
            final(self).wf(),
            final(self).pending_view() == keep_last(
                old(self).pending_view().push(shot),
                PENDING_CAPACITY as nat,
            ),
            final(self).ledger_view() == old(self).ledger_view(),
    {
        let ghost grown = self.pending@.push(shot);
        self.pending.push(shot);
        if self.pending.len() > PENDING_CAPACITY {
            self.pending.remove(0);
            assert(self.pending@ =~= keep_last(grown, PENDING_CAPACITY as nat));
        }
    }

    /// Removes the first queued screenshot whose path is `path`, if any.
    pub fn remove_screenshot(&mut self, path: &str)
        requires
            old(self).wf(),
        ensures
            final(self).wf(),
            final(self).pending_view() == without_path(old(self).pending_view(), path@),
            final(self).ledger_view() == old(self).ledger_view(),
    {
        proof {
            lemma_first_with_path(self.pending@, path@);
        }
        let mut i: usize = 0;
        while i < self.pending.len()
            invariant
                i <= self.pending@.len(),
                self.pending@ == old(self).pending@,
                self.ledger@ == old(self).ledger@,
                old(self).wf(),
                forall|j: int| 0 <= j < i ==> self.pending@[j].path@ != path@,
            decreases self.pending@.len() - i,
        {
            if str_eq(self.pending[i].path.as_str(), path) {
                proof {
                    lemma_first_with_path(self.pending@, path@);
                    assert(first_with_path(self.pending@, path@) == Some(i as int));
                }
                self.pending.remove(i);
                return;
            }
            i += 1;
        }
    }

    /// The ledger entries and the queue as plain lists, for storage.
    pub fn to_parts(&self) -> (r: (Vec<(String, i64)>, Vec<PendingShot>))
        requires
            self.wf(),
        ensures
            r.0@ == self.entries(),
            entries_map(r.0@) == self.ledger_view(),
            r.1@ == self.pending_view(),
    {
        let mut entries: Vec<(String, i64)> = Vec::new();
        let mut i: usize = 0;
        while i < self.ledger.len()
            invariant
                i <= self.ledger@.len(),
                entries@ == self.ledger@.take(i as int),
            decreases self.ledger@.len() - i,
        {
            entries.push((self.ledger[i].0.clone(), self.ledger[i].1));
            assert(entries@ =~= self.ledger@.take(i + 1));
            i += 1;
        }
        assert(entries@ =~= self.ledger@);
        let mut shots: Vec<PendingShot> = Vec::new();
        let mut j: usize = 0;
        while j < self.pending.len()
            invariant
                j <= self.pending@.len(),
                shots@ == self.pending@.take(j as int),
            decreases self.pending@.len() - j,
        {
            shots.push(self.pending[j].duplicate());
            assert(shots@ =~= self.pending@.take(j + 1));
            j += 1;
        }
        assert(shots@ =~= self.pending@);
        (entries, shots)
    }

    /// The two facts that, with the contracts of `to_parts` and `from_parts`,
    /// make storing and rebuilding a round trip: the map of this state's own
    /// entry list is its ledger, and keeping the newest `PENDING_CAPACITY`
    /// shots of its queue keeps the whole queue, in order.
    pub proof fn law_round_trip(&self)
        requires
            self.wf(),
        ensures
            entries_map(self.entries()) == self.ledger_view(),
            keep_last(self.pending_view(), PENDING_CAPACITY as nat) == self.pending_view(),
    {
    }

    /// Rebuilds a state from stored lists: a later ledger entry overrides an
    /// earlier one with the same key, and only the newest `PENDING_CAPACITY`
    /// screenshots are kept.
    pub fn from_parts(entries: Vec<(String, i64)>, shots: Vec<PendingShot>) -> (r: DeliveryState)
        ensures
            r.wf(),
            r.ledger_view() == entries_map(entries@),
            r.pending_view() == keep_last(shots@, PENDING_CAPACITY as nat),
    {
        let mut st = DeliveryState::new();
        let mut n: usize = 0;
        while n < entries.len()
            invariant
                n <= entries@.len(),
                st.wf(),
                st.pending_view() == Seq::<PendingShot>::empty(),
                st.ledger_view() == entries_map(entries@.take(n as int)),
            decreases entries@.len() - n,
        {
            proof {
                assert(entries@.take(n + 1).drop_last() =~= entries@.take(n as int));
            }
            st.record_delivery(entries[n].0.clone(), entries[n].1);
            n += 1;
        }
        assert(entries@.take(n as int) =~= entries@);
        let mut shots = shots;
        let ghost q = shots@;
        if shots.len() > PENDING_CAPACITY {
            let extra = shots.len() - PENDING_CAPACITY;
            let tail = shots.split_off(extra);
            shots = tail;
        }
        assert(shots@ =~= keep_last(q, PENDING_CAPACITY as nat));
        st.pending = shots;
        st
    }
}

} // verus!
