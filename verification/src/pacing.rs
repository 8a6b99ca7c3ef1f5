use vstd::prelude::*;
use crate::model::{DeviceState, LogEntry};

verus! {

/// Least time between two device states sent for one device, in milliseconds.
pub const DEVICE_STATE_DEBOUNCE_MS: i64 = 500;

/// Least time between two log lines sent to the front end, in milliseconds
/// (about five a second).
pub const LOG_INTERVAL_MS: i64 = 200;

/// Whether `interval` milliseconds have passed from `last` to `now`.
pub open spec fn passed(last: i64, now: i64, interval: i64) -> bool {
    now - last >= interval
}

fn has_passed(last: i64, now: i64, interval: i64) -> (r: bool)
    ensures
        r == passed(last, now, interval),
{
    (now as i128) - (last as i128) >= interval as i128
}

/// A device's debounce record: when its state was last sent, and the newest
/// state held back since.
pub struct DebounceEntry {
    pub device_id: String,
    pub last_sent_ms: i64,
    pub held: Option<DeviceState>,
}

/// Position of the last record of device `id`, or -1.
pub open spec fn entry_index(s: Seq<DebounceEntry>, id: Seq<char>) -> int
    decreases s.len(),
{
    if s.len() == 0 {
        -1
    } else if s.last().device_id@ == id {
        s.len() - 1
    } else {
        entry_index(s.drop_last(), id)
    }
}

/// Offering device state `ds` at `now`: it is sent at once (and its time
/// noted) when its device has sent none yet or none for
/// `DEVICE_STATE_DEBOUNCE_MS`; else it is held back, replacing any state held
/// for that device.
pub open spec fn offer_state(s: Seq<DebounceEntry>, ds: DeviceState, now: i64) -> (Seq<DebounceEntry>, Option<DeviceState>) {
    let j = entry_index(s, ds.device_id@);
    if j < 0 {
        (s.push(DebounceEntry { device_id: ds.device_id, last_sent_ms: now, held: None }), Some(ds))
    } else if passed(s[j].last_sent_ms, now, DEVICE_STATE_DEBOUNCE_MS) {
        (s.update(j, DebounceEntry { device_id: s[j].device_id, last_sent_ms: now, held: None }), Some(ds))
    } else {
        (s.update(j, DebounceEntry { device_id: s[j].device_id, last_sent_ms: s[j].last_sent_ms, held: Some(ds) }), None)
    }
}

/// Whether a record's held state is due at `now`.
pub open spec fn due(e: DebounceEntry, now: i64) -> bool {
    e.held is Some && passed(e.last_sent_ms, now, DEVICE_STATE_DEBOUNCE_MS)
}

/// Flushing at `now`, over the records in order: each held state whose
/// device has sent nothing for `DEVICE_STATE_DEBOUNCE_MS` is sent, and its
/// time noted.
pub open spec fn flush_states(s: Seq<DebounceEntry>, now: i64) -> (Seq<DebounceEntry>, Seq<DeviceState>)
    decreases s.len(),
{
    if s.len() == 0 {
        (s, Seq::empty())
    } else {
        let (e0, out0) = flush_states(s.drop_last(), now);
        let x = s.last();
        if due(x, now) {
            (e0.push(DebounceEntry { device_id: x.device_id, last_sent_ms: now, held: None }), out0.push(x.held->0))
        } else {
            (e0.push(x), out0)
        }
    }
}

/// Debounces device states: per device, at most one is sent per
/// `DEVICE_STATE_DEBOUNCE_MS`, and the newest held back is sent once that
/// time has passed.
pub struct StateDebouncer {
    entries: Vec<DebounceEntry>,
}

impl View for StateDebouncer {
    type V = Seq<DebounceEntry>;

    closed spec fn view(&self) -> Seq<DebounceEntry> {
        self.entries@
    }
}

impl StateDebouncer {
    /// A debouncer for which no device has sent a state.
    pub fn new() -> (r: StateDebouncer)
        ensures
            r@ == Seq::<DebounceEntry>::empty(),
    {
        StateDebouncer { entries: Vec::new() }
    }

    fn find(&self, id: &String) -> (r: Option<usize>)
        ensures
            entry_index(self@, id@) == (match r {
                Some(j) => j as int,
                None => -1,
            }),
            r matches Some(j) ==> j < self@.len(),
    {
        let mut i = self.entries.len();
        assert(self@.take(i as int) =~= self@);
        while i > 0
            invariant
                i <= self@.len(),
                entry_index(self@, id@) == entry_index(self@.take(i as int), id@),
            decreases i,
        {
            assert(self@.take(i as int).drop_last() =~= self@.take(i - 1));
            i -= 1;
            if self.entries[i].device_id == *id {
                return Some(i);
            }
        }
        None
    }

    /// Offers device state `ds` at `now`: returns it when it may be sent now,
    /// else holds it back.
    pub fn offer(&mut self, ds: DeviceState, now: i64) -> (r: Option<DeviceState>)
        ensures
            (final(self)@, r) == offer_state(old(self)@, ds, now),
    {
        match self.find(&ds.device_id) {
            None => {
                self.entries.push(DebounceEntry { device_id: ds.device_id.clone(), last_sent_ms: now, held: None });
                Some(ds)
            },
            Some(j) => {
                let id = self.entries[j].device_id.clone();
                if has_passed(self.entries[j].last_sent_ms, now, DEVICE_STATE_DEBOUNCE_MS) {
                    self.entries.set(j, DebounceEntry { device_id: id, last_sent_ms: now, held: None });
                    Some(ds)
                } else {
                    let last = self.entries[j].last_sent_ms;
                    self.entries.set(j, DebounceEntry { device_id: id, last_sent_ms: last, held: Some(ds) });
                    None
                }
            },
        }
    }

    /// Sends, in order, the held states that are due at `now`.
    pub fn flush(&mut self, now: i64) -> (r: Vec<DeviceState>)
        ensures
            (final(self)@, r@) == flush_states(old(self)@, now),
    {
        let mut kept: Vec<DebounceEntry> = Vec::new();
        let mut out: Vec<DeviceState> = Vec::new();
        let n = self.entries.len();
        let mut i: usize = 0;
        while i < n
            invariant
                n == self@.len(),
                self@ == old(self)@,
                0 <= i <= n,
                (kept@, out@) == flush_states(self@.take(i as int), now),
            decreases n - i,
        {
            assert(self@.take(i + 1).drop_last() =~= self@.take(i as int));
            assert(self@.take(i + 1).last() == self@[i as int]);
            let e = &self.entries[i];
            let id = e.device_id.clone();
            match &e.held {
                Some(h) => {
                    if has_passed(e.last_sent_ms, now, DEVICE_STATE_DEBOUNCE_MS) {
                        out.push(h.clone());
                        kept.push(DebounceEntry { device_id: id, last_sent_ms: now, held: None });
                    } else {
                        kept.push(DebounceEntry { device_id: id, last_sent_ms: e.last_sent_ms, held: Some(h.clone()) });
                    }
                },
                None => {
                    kept.push(DebounceEntry { device_id: id, last_sent_ms: e.last_sent_ms, held: None });
                },
            }
            i += 1;
        }
        assert(self@.take(n as int) =~= self@);
        self.entries = kept;
        out
    }
}

/// A device state goes out at once only when its device sent none for
/// `DEVICE_STATE_DEBOUNCE_MS` (or none yet), and its device's record then
/// notes `now`; held back, it replaces the state held before.
pub proof fn lemma_offer_spacing(s: Seq<DebounceEntry>, ds: DeviceState, now: i64)
    ensures
        ({
            let j = entry_index(s, ds.device_id@);
            let (s2, r) = offer_state(s, ds, now);
            &&& r is Some ==> (j < 0 || passed(s[j].last_sent_ms, now, DEVICE_STATE_DEBOUNCE_MS))
            &&& r is Some ==> (0 <= entry_index(s2, ds.device_id@) < s2.len() && s2[entry_index(s2, ds.device_id@)].last_sent_ms == now)
            &&& r is None ==> (0 <= entry_index(s2, ds.device_id@) < s2.len() && s2[entry_index(s2, ds.device_id@)].held == Some(ds)
                && s2[entry_index(s2, ds.device_id@)].last_sent_ms == s[j].last_sent_ms)
        }),
{
    lemma_entry_index(s, ds.device_id@);
    let j = entry_index(s, ds.device_id@);
    let (s2, r) = offer_state(s, ds, now);
    if j >= 0 {
        lemma_entry_index_same_ids(s, s2, ds.device_id@);
    } else {
        assert(s2.drop_last() == s);
    }
}

proof fn lemma_entry_index(s: Seq<DebounceEntry>, id: Seq<char>)
    ensures
        -1 <= entry_index(s, id) < s.len(),
        entry_index(s, id) >= 0 ==> s[entry_index(s, id)].device_id@ == id,
    decreases s.len(),
{
    if s.len() > 0 {
        lemma_entry_index(s.drop_last(), id);
    }
}

proof fn lemma_entry_index_same_ids(s: Seq<DebounceEntry>, t: Seq<DebounceEntry>, id: Seq<char>)
    requires
        s.len() == t.len(),
        forall|k: int| 0 <= k < s.len() ==> (#[trigger] s[k]).device_id@ == t[k].device_id@,
    ensures
        entry_index(s, id) == entry_index(t, id),
    decreases s.len(),
{
    if s.len() > 0 {
        let (ps, pt) = (s.drop_last(), t.drop_last());
        assert forall|k: int| 0 <= k < ps.len() implies (#[trigger] ps[k]).device_id@ == pt[k].device_id@ by {
            assert(ps[k] == s[k] && pt[k] == t[k]);
        }
        lemma_entry_index_same_ids(ps, pt, id);
        assert(s[s.len() - 1] == s.last() && t[t.len() - 1] == t.last());
    }
}

/// A flush keeps every device's record in place; it sends a device's held
/// state only when `DEVICE_STATE_DEBOUNCE_MS` have passed since that device
/// last sent one, and then notes `now`; other records stay as they were.
pub proof fn lemma_flush_spacing(s: Seq<DebounceEntry>, now: i64)
    ensures
        flush_states(s, now).0.len() == s.len(),
        forall|k: int| 0 <= k < s.len() ==> {
            let e = #[trigger] flush_states(s, now).0[k];
            &&& e.device_id == s[k].device_id
            &&& due(s[k], now) ==> e.last_sent_ms == now && e.held is None
            &&& !due(s[k], now) ==> e == s[k]
        },
        flush_states(s, now).1.len() <= s.len(),
    decreases s.len(),
{
    if s.len() > 0 {
        let p = s.drop_last();
        lemma_flush_spacing(p, now);
        let (e0, out0) = flush_states(p, now);
        let e = flush_states(s, now).0;
        assert forall|k: int| 0 <= k < s.len() implies {
            let x = #[trigger] flush_states(s, now).0[k];
            &&& x.device_id == s[k].device_id
            &&& due(s[k], now) ==> x.last_sent_ms == now && x.held is None
            &&& !due(s[k], now) ==> x == s[k]
        } by {
            if k < p.len() {
                assert(e[k] == e0[k]);
                assert(p[k] == s[k]);
            } else {
                assert(s[k] == s.last());
            }
        }
    }
}

/// One call on a debouncer: a device state offered, or a flush, at a clock
/// reading.
pub enum StateStep {
    Offer(DeviceState, i64),
    Flush(i64),
}

/// The debouncer after one call, with the states sent and when.
pub open spec fn state_step(s: Seq<DebounceEntry>, step: StateStep) -> (Seq<DebounceEntry>, Seq<(DeviceState, i64)>) {
    match step {
        StateStep::Offer(ds, now) => {
            let (s2, r) = offer_state(s, ds, now);
            (s2, match r {
                Some(d) => seq![(d, now)],
                None => Seq::empty(),
            })
        },
        StateStep::Flush(now) => {
            let (s2, out) = flush_states(s, now);
            (s2, out.map_values(|d: DeviceState| (d, now)))
        },
    }
}

/// The debouncer after the calls `steps`, in order, and every state sent on
/// the way with its clock reading.
pub open spec fn state_run(s: Seq<DebounceEntry>, steps: Seq<StateStep>) -> (Seq<DebounceEntry>, Seq<(DeviceState, i64)>)
    decreases steps.len(),
{
    if steps.len() == 0 {
        (s, Seq::empty())
    } else {
        let (s1, o1) = state_run(s, steps.drop_last());
        let (s2, o2) = state_step(s1, steps.last());
        (s2, o1 + o2)
    }
}

/// Whether two sends of one device's state are at least
/// `DEVICE_STATE_DEBOUNCE_MS` apart, the later one later in `sent`.
pub open spec fn states_spaced(sent: Seq<(DeviceState, i64)>) -> bool {
    forall|k: int, l: int|
        0 <= k < l < sent.len() && (#[trigger] sent[k]).0.device_id@ == (#[trigger] sent[l]).0.device_id@
            ==> sent[l].1 - sent[k].1 >= DEVICE_STATE_DEBOUNCE_MS
}

spec fn ids_unique(s: Seq<DebounceEntry>) -> bool {
    forall|i: int, j: int| 0 <= i < j < s.len() ==> (#[trigger] s[i]).device_id@ != (#[trigger] s[j]).device_id@
}

spec fn held_matches(s: Seq<DebounceEntry>) -> bool {
    forall|i: int| 0 <= i < s.len() && (#[trigger] s[i]).held is Some ==> s[i].held->0.device_id@ == s[i].device_id@
}

spec fn covers(s: Seq<DebounceEntry>, sent: Seq<(DeviceState, i64)>) -> bool {
    forall|k: int| 0 <= k < sent.len() ==> exists|i: int|
        0 <= i < s.len() && (#[trigger] s[i]).device_id@ == (#[trigger] sent[k]).0.device_id@ && sent[k].1
            <= s[i].last_sent_ms
}

spec fn run_inv(s: Seq<DebounceEntry>, sent: Seq<(DeviceState, i64)>) -> bool {
    &&& ids_unique(s)
    &&& held_matches(s)
    &&& covers(s, sent)
    &&& states_spaced(sent)
}

proof fn lemma_entry_absent(s: Seq<DebounceEntry>, id: Seq<char>)
    ensures
        entry_index(s, id) < 0 ==> forall|i: int| 0 <= i < s.len() ==> (#[trigger] s[i]).device_id@ != id,
    decreases s.len(),
{
    if s.len() > 0 {
        lemma_entry_absent(s.drop_last(), id);
        if entry_index(s, id) < 0 {
            assert forall|i: int| 0 <= i < s.len() implies (#[trigger] s[i]).device_id@ != id by {
                if i < s.len() - 1 {
                    assert(s[i] == s.drop_last()[i]);
                }
            }
        }
    }
}

/// What a flush sends: each state comes from a due record of its own device,
/// no device twice.
proof fn lemma_flush_sends(s: Seq<DebounceEntry>, now: i64)
    requires
        ids_unique(s),
        held_matches(s),
    ensures
        forall|m: int| 0 <= m < flush_states(s, now).1.len() ==> exists|k: int|
            0 <= k < s.len() && due(#[trigger] s[k], now) && (#[trigger] flush_states(s, now).1[m]).device_id@
                == s[k].device_id@,
        forall|m1: int, m2: int| 0 <= m1 < m2 < flush_states(s, now).1.len() ==>
            (#[trigger] flush_states(s, now).1[m1]).device_id@ != (#[trigger] flush_states(s, now).1[m2]).device_id@,
    decreases s.len(),
{
    if s.len() > 0 {
        let p = s.drop_last();
        assert forall|i: int, j: int| 0 <= i < j < p.len() implies (#[trigger] p[i]).device_id@ != (#[trigger] p[j]).device_id@ by {
            assert(p[i] == s[i] && p[j] == s[j]);
        }
        assert forall|i: int| 0 <= i < p.len() && (#[trigger] p[i]).held is Some implies p[i].held->0.device_id@ == p[i].device_id@ by {
            assert(p[i] == s[i]);
        }
        lemma_flush_sends(p, now);
        let out0 = flush_states(p, now).1;
        let out = flush_states(s, now).1;
        let x = s.last();
        assert(x == s[s.len() - 1]);
        assert forall|m: int| 0 <= m < out.len() implies exists|k: int|
            0 <= k < s.len() && due(#[trigger] s[k], now) && (#[trigger] out[m]).device_id@ == s[k].device_id@ by {
            if m < out0.len() {
                assert(out[m] == out0[m]);
                let k = choose|k: int| 0 <= k < p.len() && due(#[trigger] p[k], now) && out0[m].device_id@ == p[k].device_id@;
                assert(p[k] == s[k]);
            } else {
                assert(due(s[s.len() - 1], now));
            }
        }
        assert forall|m1: int, m2: int| 0 <= m1 < m2 < out.len() implies
            (#[trigger] out[m1]).device_id@ != (#[trigger] out[m2]).device_id@ by {
            if m2 < out0.len() {
                assert(out[m1] == out0[m1] && out[m2] == out0[m2]);
            } else {
                assert(out[m1] == out0[m1]);
                let k = choose|k: int| 0 <= k < p.len() && due(#[trigger] p[k], now) && out0[m1].device_id@ == p[k].device_id@;
                assert(p[k] == s[k]);
                assert(s[k].device_id@ != s[s.len() - 1].device_id@);
            }
        }
    }
}

proof fn lemma_state_step_inv(s: Seq<DebounceEntry>, sent: Seq<(DeviceState, i64)>, step: StateStep)
    requires
        run_inv(s, sent),
    ensures
        run_inv(state_step(s, step).0, sent + state_step(s, step).1),
{
    let (s2, o2) = state_step(s, step);
    let all = sent + o2;
    match step {
        StateStep::Offer(ds, now) => {
            let id = ds.device_id@;
            lemma_entry_index(s, id);
            lemma_entry_absent(s, id);
            lemma_offer_spacing(s, ds, now);
            let j = entry_index(s, id);
            if j < 0 {
                assert(s2 == s.push(DebounceEntry { device_id: ds.device_id, last_sent_ms: now, held: None }));
                assert forall|i: int, j2: int| 0 <= i < j2 < s2.len() implies (#[trigger] s2[i]).device_id@ != (#[trigger] s2[j2]).device_id@ by {
                    if j2 < s.len() {
                        assert(s2[i] == s[i] && s2[j2] == s[j2]);
                    } else {
                        assert(s2[i] == s[i]);
                    }
                }
                assert forall|i: int| 0 <= i < s2.len() && (#[trigger] s2[i]).held is Some implies s2[i].held->0.device_id@ == s2[i].device_id@ by {
                    assert(s2[i] == s[i]);
                }
                assert forall|k: int| 0 <= k < all.len() implies exists|i: int|
                    0 <= i < s2.len() && (#[trigger] s2[i]).device_id@ == (#[trigger] all[k]).0.device_id@ && all[k].1
                        <= s2[i].last_sent_ms by {
                    if k < sent.len() {
                        assert(all[k] == sent[k]);
                        let i = choose|i: int| 0 <= i < s.len() && (#[trigger] s[i]).device_id@ == sent[k].0.device_id@ && sent[k].1 <= s[i].last_sent_ms;
                        assert(s2[i] == s[i]);
                    } else {
                        assert(all[k] == (ds, now));
                        assert(s2[s.len() as int].device_id@ == id);
                    }
                }
                assert forall|k: int, l: int|
                    0 <= k < l < all.len() && (#[trigger] all[k]).0.device_id@ == (#[trigger] all[l]).0.device_id@
                    implies all[l].1 - all[k].1 >= DEVICE_STATE_DEBOUNCE_MS by {
                    if l < sent.len() {
                        assert(all[k] == sent[k] && all[l] == sent[l]);
                    } else {
                        assert(all[k] == sent[k] && all[l] == (ds, now));
                        let i = choose|i: int| 0 <= i < s.len() && (#[trigger] s[i]).device_id@ == sent[k].0.device_id@ && sent[k].1 <= s[i].last_sent_ms;
                        assert(s[i].device_id@ != id);
                    }
                }
            } else if passed(s[j].last_sent_ms, now, DEVICE_STATE_DEBOUNCE_MS) {
                assert(s2 == s.update(j, DebounceEntry { device_id: s[j].device_id, last_sent_ms: now, held: None }));
                assert(o2 == seq![(ds, now)]);
                assert forall|i: int, j2: int| 0 <= i < j2 < s2.len() implies (#[trigger] s2[i]).device_id@ != (#[trigger] s2[j2]).device_id@ by {
                    assert(s2[i].device_id == s[i].device_id && s2[j2].device_id == s[j2].device_id);
                    assert(s[i] == s[i] && s[j2] == s[j2]);
                }
                assert forall|i: int| 0 <= i < s2.len() && (#[trigger] s2[i]).held is Some implies s2[i].held->0.device_id@ == s2[i].device_id@ by {
                    assert(s2[i] == s[i]);
                }
                assert forall|k: int| 0 <= k < all.len() implies exists|i: int|
                    0 <= i < s2.len() && (#[trigger] s2[i]).device_id@ == (#[trigger] all[k]).0.device_id@ && all[k].1
                        <= s2[i].last_sent_ms by {
                    if k < sent.len() {
                        assert(all[k] == sent[k]);
                        let i = choose|i: int| 0 <= i < s.len() && (#[trigger] s[i]).device_id@ == sent[k].0.device_id@ && sent[k].1 <= s[i].last_sent_ms;
                        if i == j {
                            assert(s2[j].last_sent_ms == now);
                        } else {
                            assert(s2[i] == s[i]);
                        }
                    } else {
                        assert(all[k] == (ds, now));
                        assert(s2[j].device_id@ == id);
                    }
                }
                assert forall|k: int, l: int|
                    0 <= k < l < all.len() && (#[trigger] all[k]).0.device_id@ == (#[trigger] all[l]).0.device_id@
                    implies all[l].1 - all[k].1 >= DEVICE_STATE_DEBOUNCE_MS by {
                    if l < sent.len() {
                        assert(all[k] == sent[k] && all[l] == sent[l]);
                    } else {
                        assert(all[k] == sent[k] && all[l] == (ds, now));
                        let i = choose|i: int| 0 <= i < s.len() && (#[trigger] s[i]).device_id@ == sent[k].0.device_id@ && sent[k].1 <= s[i].last_sent_ms;
                        if i != j {
                            assert(s[i].device_id@ != s[j].device_id@);
                        }
                    }
                }
            } else {
                assert(s2 == s.update(j, DebounceEntry { device_id: s[j].device_id, last_sent_ms: s[j].last_sent_ms, held: Some(ds) }));
                assert(all =~= sent);
                assert forall|i: int, j2: int| 0 <= i < j2 < s2.len() implies (#[trigger] s2[i]).device_id@ != (#[trigger] s2[j2]).device_id@ by {
                    assert(s2[i].device_id == s[i].device_id && s2[j2].device_id == s[j2].device_id);
                    assert(s[i] == s[i] && s[j2] == s[j2]);
                }
                assert forall|i: int| 0 <= i < s2.len() && (#[trigger] s2[i]).held is Some implies s2[i].held->0.device_id@ == s2[i].device_id@ by {
                    if i != j {
                        assert(s2[i] == s[i]);
                    }
                }
                assert forall|k: int| 0 <= k < all.len() implies exists|i: int|
                    0 <= i < s2.len() && (#[trigger] s2[i]).device_id@ == (#[trigger] all[k]).0.device_id@ && all[k].1
                        <= s2[i].last_sent_ms by {
                    assert(all[k] == sent[k]);
                    let i = choose|i: int| 0 <= i < s.len() && (#[trigger] s[i]).device_id@ == sent[k].0.device_id@ && sent[k].1 <= s[i].last_sent_ms;
                    assert(s2[i].device_id == s[i].device_id && s2[i].last_sent_ms == s[i].last_sent_ms);
                }
            }
        },
        StateStep::Flush(now) => {
            let out = flush_states(s, now).1;
            lemma_flush_spacing(s, now);
            lemma_flush_sends(s, now);
            assert(o2 == out.map_values(|d: DeviceState| (d, now)));
            assert forall|i: int, j2: int| 0 <= i < j2 < s2.len() implies (#[trigger] s2[i]).device_id@ != (#[trigger] s2[j2]).device_id@ by {
                assert(s2[i].device_id == s[i].device_id && s2[j2].device_id == s[j2].device_id);
                assert(s[i] == s[i] && s[j2] == s[j2]);
            }
            assert forall|i: int| 0 <= i < s2.len() && (#[trigger] s2[i]).held is Some implies s2[i].held->0.device_id@ == s2[i].device_id@ by {
                assert(s2[i] == flush_states(s, now).0[i]);
                assert(s[i] == s[i]);
            }
            assert forall|k: int| 0 <= k < all.len() implies exists|i: int|
                0 <= i < s2.len() && (#[trigger] s2[i]).device_id@ == (#[trigger] all[k]).0.device_id@ && all[k].1
                    <= s2[i].last_sent_ms by {
                if k < sent.len() {
                    assert(all[k] == sent[k]);
                    let i = choose|i: int| 0 <= i < s.len() && (#[trigger] s[i]).device_id@ == sent[k].0.device_id@ && sent[k].1 <= s[i].last_sent_ms;
                    assert(s2[i] == flush_states(s, now).0[i]);
                } else {
                    let m = k - sent.len();
                    assert(all[k] == o2[m]);
                    assert(o2[m] == (out[m], now));
                    let kk = choose|kk: int| 0 <= kk < s.len() && due(#[trigger] s[kk], now) && out[m].device_id@ == s[kk].device_id@;
                    assert(s2[kk] == flush_states(s, now).0[kk]);
                }
            }
            assert forall|k: int, l: int|
                0 <= k < l < all.len() && (#[trigger] all[k]).0.device_id@ == (#[trigger] all[l]).0.device_id@
                implies all[l].1 - all[k].1 >= DEVICE_STATE_DEBOUNCE_MS by {
                if l < sent.len() {
                    assert(all[k] == sent[k] && all[l] == sent[l]);
                } else if k < sent.len() {
                    let m = l - sent.len();
                    assert(all[k] == sent[k] && all[l] == o2[m]);
                    assert(o2[m] == (out[m], now));
                    let kk = choose|kk: int| 0 <= kk < s.len() && due(#[trigger] s[kk], now) && out[m].device_id@ == s[kk].device_id@;
                    let i = choose|i: int| 0 <= i < s.len() && (#[trigger] s[i]).device_id@ == sent[k].0.device_id@ && sent[k].1 <= s[i].last_sent_ms;
                    if i != kk {
                        assert(s[i].device_id@ != s[kk].device_id@);
                    }
                } else {
                    let (m1, m2) = (k - sent.len(), l - sent.len());
                    assert(all[k] == o2[m1] && all[l] == o2[m2]);
                    assert(o2[m1] == (out[m1], now) && o2[m2] == (out[m2], now));
                    assert(out[m1].device_id@ != out[m2].device_id@);
                }
            }
        },
    }
}

proof fn lemma_state_run_inv(steps: Seq<StateStep>)
    ensures
        run_inv(state_run(Seq::empty(), steps).0, state_run(Seq::empty(), steps).1),
    decreases steps.len(),
{
    if steps.len() > 0 {
        lemma_state_run_inv(steps.drop_last());
        let (s1, o1) = state_run(Seq::empty(), steps.drop_last());
        lemma_state_step_inv(s1, o1, steps.last());
    }
}

/// Over any sequence of offers and flushes on a new debouncer, two device
/// states sent for one device are at least `DEVICE_STATE_DEBOUNCE_MS` apart:
/// in any window shorter than that, at most one state per device goes out.
pub proof fn lemma_run_states_spaced(steps: Seq<StateStep>)
    ensures
        states_spaced(state_run(Seq::empty(), steps).1),
{
    lemma_state_run_inv(steps);
}

/// The abstract state of a log pacer.
pub struct LogPacerView {
    /// Log lines waiting to be sent, oldest first.
    pub queue: Seq<LogEntry>,
    /// When a log line was last sent.
    pub last_sent_ms: Option<i64>,
}

/// Whether a log line may be sent at `now`.
pub open spec fn log_free(v: LogPacerView, now: i64) -> bool {
    match v.last_sent_ms {
        None => true,
        Some(t) => passed(t, now, LOG_INTERVAL_MS),
    }
}

/// Offering log line `entry` at `now`: it is sent at once when nothing waits
/// and none was sent for `LOG_INTERVAL_MS`; else it joins the queue.
pub open spec fn offer_log(v: LogPacerView, entry: LogEntry, now: i64) -> (LogPacerView, Option<LogEntry>) {
    if v.queue.len() == 0 && log_free(v, now) {
        (LogPacerView { queue: v.queue, last_sent_ms: Some(now) }, Some(entry))
    } else {
        (LogPacerView { queue: v.queue.push(entry), last_sent_ms: v.last_sent_ms }, None)
    }
}

/// Flushing at `now`: the oldest waiting line is sent when none was sent for
/// `LOG_INTERVAL_MS`.
pub open spec fn flush_log(v: LogPacerView, now: i64) -> (LogPacerView, Option<LogEntry>) {
    if v.queue.len() > 0 && log_free(v, now) {
        (LogPacerView { queue: v.queue.drop_first(), last_sent_ms: Some(now) }, Some(v.queue[0]))
    } else {
        (v, None)
    }
}

/// Paces log lines to the front end: at most one per `LOG_INTERVAL_MS`, in
/// order, none lost.
pub struct LogPacer {
    queue: Vec<LogEntry>,
    last_sent_ms: Option<i64>,
}

impl View for LogPacer {
    type V = LogPacerView;

    closed spec fn view(&self) -> LogPacerView {
        LogPacerView { queue: self.queue@, last_sent_ms: self.last_sent_ms }
    }
}

impl LogPacer {
    /// A pacer that has sent nothing.
    pub fn new() -> (r: LogPacer)
        ensures
            r@.queue == Seq::<LogEntry>::empty(),
            r@.last_sent_ms is None,
    {
        LogPacer { queue: Vec::new(), last_sent_ms: None }
    }

    fn free(&self, now: i64) -> (r: bool)
        ensures
            r == log_free(self@, now),
    {
        match self.last_sent_ms {
            None => true,
            Some(t) => has_passed(t, now, LOG_INTERVAL_MS),
        }
    }

    /// Offers log line `entry` at `now`: returns it when it may be sent now,
    /// else queues it.
    pub fn offer(&mut self, entry: LogEntry, now: i64) -> (r: Option<LogEntry>)
        ensures
            (final(self)@, r) == offer_log(old(self)@, entry, now),
    {
        if self.queue.len() == 0 && self.free(now) {
            self.last_sent_ms = Some(now);
            Some(entry)
        } else {
            self.queue.push(entry);
            None
        }
    }

    /// Sends the oldest waiting log line if one may be sent at `now`.
    pub fn flush(&mut self, now: i64) -> (r: Option<LogEntry>)
        ensures
            (final(self)@, r) == flush_log(old(self)@, now),
    {
        if self.queue.len() > 0 && self.free(now) {
            let e = self.queue.remove(0);
            self.last_sent_ms = Some(now);
            assert(self.queue@ =~= old(self)@.queue.drop_first());
            Some(e)
        } else {
            None
        }
    }
}

/// Log lines go out at least `LOG_INTERVAL_MS` apart and in the order they
/// came: a line is sent only when none was sent for that long, the pacer then
/// notes `now`, and a queued line goes out only from the front.
pub proof fn lemma_log_spacing(v: LogPacerView, entry: LogEntry, now: i64)
    ensures
        offer_log(v, entry, now).1 is Some ==> log_free(v, now) && v.queue.len() == 0
            && offer_log(v, entry, now).0.last_sent_ms == Some(now),
        offer_log(v, entry, now).1 is None ==> offer_log(v, entry, now).0.queue == v.queue.push(entry),
        flush_log(v, now).1 is Some ==> log_free(v, now) && flush_log(v, now).1 == Some(v.queue[0])
            && flush_log(v, now).0.last_sent_ms == Some(now) && flush_log(v, now).0.queue == v.queue.drop_first(),
{
}


/// One call on a log pacer: a line offered, or a flush, at a clock reading.
pub enum LogStep {
    Offer(LogEntry, i64),
    Flush(i64),
}

/// The pacer after one call, with the line sent and when, if any.
pub open spec fn log_step(v: LogPacerView, step: LogStep) -> (LogPacerView, Seq<(LogEntry, i64)>) {
    let (v2, r, now) = match step {
        LogStep::Offer(e, now) => (offer_log(v, e, now).0, offer_log(v, e, now).1, now),
        LogStep::Flush(now) => (flush_log(v, now).0, flush_log(v, now).1, now),
    };
    (v2, match r {
        Some(e) => seq![(e, now)],
        None => Seq::empty(),
    })
}

/// The pacer after the calls `steps`, in order, and every line sent on the
/// way with its clock reading.
pub open spec fn log_run(v: LogPacerView, steps: Seq<LogStep>) -> (LogPacerView, Seq<(LogEntry, i64)>)
    decreases steps.len(),
{
    if steps.len() == 0 {
        (v, Seq::empty())
    } else {
        let (v1, o1) = log_run(v, steps.drop_last());
        let (v2, o2) = log_step(v1, steps.last());
        (v2, o1 + o2)
    }
}

proof fn lemma_log_run_inv(v: LogPacerView, steps: Seq<LogStep>)
    ensures
        ({
            let (w, o) = log_run(v, steps);
            &&& o.len() > 0 ==> w.last_sent_ms is Some
            &&& forall|k: int| 0 <= k < o.len() ==> (#[trigger] o[k]).1 <= w.last_sent_ms->0
            &&& forall|k: int, l: int| 0 <= k < l < o.len() ==> #[trigger] o[l].1 - #[trigger] o[k].1 >= LOG_INTERVAL_MS
        }),
    decreases steps.len(),
{
    if steps.len() > 0 {
        lemma_log_run_inv(v, steps.drop_last());
        let (v1, o1) = log_run(v, steps.drop_last());
        let (v2, o2) = log_step(v1, steps.last());
        let o = o1 + o2;
        assert(log_run(v, steps) == (v2, o));
        if o2.len() == 0 {
            assert(o =~= o1);
            assert(v2.last_sent_ms == v1.last_sent_ms);
        } else {
            assert(o[o.len() - 1] == o2[0]);
            assert forall|k: int, l: int| 0 <= k < l < o.len() implies #[trigger] o[l].1 - #[trigger] o[k].1 >= LOG_INTERVAL_MS by {
                assert(o[k] == o1[k]);
                if l < o1.len() {
                    assert(o[l] == o1[l]);
                }
            }
            assert forall|k: int| 0 <= k < o.len() implies (#[trigger] o[k]).1 <= v2.last_sent_ms->0 by {
                if k < o1.len() {
                    assert(o[k] == o1[k]);
                }
            }
        }
    }
}

/// Over any sequence of offers and flushes, the log lines a pacer sends are
/// at least `LOG_INTERVAL_MS` apart, whatever the clock readings.
pub proof fn lemma_run_logs_spaced(v: LogPacerView, steps: Seq<LogStep>)
    ensures
        forall|k: int, l: int|
            0 <= k < l < log_run(v, steps).1.len() ==> #[trigger] log_run(v, steps).1[l].1
                - #[trigger] log_run(v, steps).1[k].1 >= LOG_INTERVAL_MS,
{
    lemma_log_run_inv(v, steps);
}

} // verus!
