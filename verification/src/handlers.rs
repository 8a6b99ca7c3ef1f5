use vstd::prelude::*;
use crate::pacing::{offer_log, offer_state, LogPacer, StateDebouncer};
use crate::event::Event;
use crate::model::{DeviceState, LogEntry, Sample, TagUpdate};
use crate::text::{decimal, decimal_string};
use crate::throttle::{
    filter_changes, pushed, reading_key, recorded, tick_batch, unchanged, unique_tags, without_reading,
    without_update, LastReading, ThrottleView, UpdateThrottle, BATCH_MS, CHANNEL_MAX, LAST_VALUES_MAX,
};

verus! {

/// Something to send to the front end.
#[derive(Debug)]
pub enum UiEmit {
    /// A line for the log window, sent on channel `log`.
    Log(LogEntry),
    /// A device's connection state, sent on channel `device-state`.
    DeviceState(DeviceState),
}

impl UiEmit {
    /// The channel this is sent on.
    pub fn channel(&self) -> (r: &'static str)
        ensures
            self is Log ==> r@ == "log"@,
            self is DeviceState ==> r@ == "device-state"@,
    {
        match self {
            UiEmit::Log(_) => "log",
            UiEmit::DeviceState(_) => "device-state",
        }
    }
}

/// What routing one event gives: something to send now, if any, and a
/// warning for the host's own log, if any.
#[derive(Debug)]
pub struct Routed {
    pub emit: Option<UiEmit>,
    pub warning: Option<String>,
}

pub open spec fn state_emit(d: Option<DeviceState>) -> Option<UiEmit> {
    match d {
        Some(x) => Some(UiEmit::DeviceState(x)),
        None => None,
    }
}

pub open spec fn log_emit(e: Option<LogEntry>) -> Option<UiEmit> {
    match e {
        Some(x) => Some(UiEmit::Log(x)),
        None => None,
    }
}

/// The channel batches of tag updates are sent on.
pub fn tag_update_channel() -> (r: &'static str)
    ensures
        r@ == "tag-update"@,
{
    "tag-update"
}

/// Whether `u` is the update that carries sample `s`.
pub open spec fn carries(u: TagUpdate, s: Sample) -> bool {
    &&& u.tag_id == s.tag_id
    &&& u.ts_ms == s.ts_ms
    &&& u.value == s.value
    &&& u.quality == s.quality
    &&& u.unit@ == Seq::<char>::empty()
}

/// Pending updates after pushing `us` in order.
pub open spec fn pushed_all(pending: Seq<TagUpdate>, us: Seq<TagUpdate>) -> Seq<TagUpdate>
    decreases us.len(),
{
    if us.len() == 0 {
        pending
    } else {
        pushed(pushed_all(pending, us.drop_last()), us.last())
    }
}

/// The text of the warning about dropped updates.
pub open spec fn dropped_message(n: nat) -> Seq<char> {
    "IPC throttle dropped "@ + decimal(n) + " updates"@
}

/// Routes one runtime event, arriving at `now_ms`, toward the front end.
/// The samples of a successful poll go, in order, into the throttle; if it
/// has dropped updates since last asked, a warning (also for the host's log)
/// goes to the log pacer and the count is reset. A failed poll makes its
/// device offline with one error; a change of connection gives the device's
/// new state with no error; device states go through the debouncer; log lines
/// through the log pacer.
pub fn route_event(
    throttle: &mut UpdateThrottle,
    states: &mut StateDebouncer,
    logs: &mut LogPacer,
    event: Event,
    now_ms: i64,
) -> (r: Routed)
    ensures
        match event {
            Event::PollSucceeded(_, samples) => {
                &&& final(states)@ == old(states)@
                &&& exists|us: Seq<TagUpdate>|
                    #![trigger pushed_all(old(throttle)@.pending, us)]
                    {
                        &&& us.len() == samples@.len()
                        &&& forall|i: int| 0 <= i < us.len() ==> carries(#[trigger] us[i], samples@[i])
                        &&& final(throttle)@ == (ThrottleView {
                            pending: pushed_all(old(throttle)@.pending, us),
                            dropped: 0,
                            ..old(throttle)@
                        })
                    }
                &&& old(throttle)@.dropped == 0 ==> (r.emit is None && r.warning is None && final(logs)@ == old(logs)@)
                &&& old(throttle)@.dropped > 0 ==> (r.warning matches Some(m) && m@ == dropped_message(
                    old(throttle)@.dropped,
                ) && exists|w: LogEntry|
                    #![trigger offer_log(old(logs)@, w, now_ms)]
                    {
                        &&& w.ts_ms == now_ms
                        &&& w.level@ == "warn"@
                        &&& w.message@ == dropped_message(old(throttle)@.dropped)
                        &&& final(logs)@ == offer_log(old(logs)@, w, now_ms).0
                        &&& r.emit == log_emit(offer_log(old(logs)@, w, now_ms).1)
                    })
            },
            Event::PollFailed(id, err) => {
                let ds = DeviceState { device_id: id, online: false, error_count: 1, last_error: Some(err), last_poll_at_ms: None };
                &&& final(throttle)@ == old(throttle)@
                &&& final(logs)@ == old(logs)@
                &&& final(states)@ == offer_state(old(states)@, ds, now_ms).0
                &&& r.emit == state_emit(offer_state(old(states)@, ds, now_ms).1)
                &&& r.warning is None
            },
            Event::ConnectionStateChanged(id, online) => {
                let ds = DeviceState { device_id: id, online, error_count: 0, last_error: None, last_poll_at_ms: None };
                &&& final(throttle)@ == old(throttle)@
                &&& final(logs)@ == old(logs)@
                &&& final(states)@ == offer_state(old(states)@, ds, now_ms).0
                &&& r.emit == state_emit(offer_state(old(states)@, ds, now_ms).1)
                &&& r.warning is None
            },
            Event::Log(entry) => {
                &&& final(throttle)@ == old(throttle)@
                &&& final(states)@ == old(states)@
                &&& final(logs)@ == offer_log(old(logs)@, entry, now_ms).0
                &&& r.emit == log_emit(offer_log(old(logs)@, entry, now_ms).1)
                &&& r.warning is None
            },
            Event::DeviceStatus(ds) => {
                &&& final(throttle)@ == old(throttle)@
                &&& final(logs)@ == old(logs)@
                &&& final(states)@ == offer_state(old(states)@, ds, now_ms).0
                &&& r.emit == state_emit(offer_state(old(states)@, ds, now_ms).1)
                &&& r.warning is None
            },
        },
{
    match event {
        Event::PollSucceeded(_, samples) => {
            let ghost mut us: Seq<TagUpdate> = Seq::empty();
            let n = samples.len();
            let mut i: usize = 0;
            while i < n
                invariant
                    n == samples@.len(),
                    0 <= i <= n,
                    us.len() == i,
                    forall|k: int| 0 <= k < i ==> carries(#[trigger] us[k], samples@[k]),
                    throttle@ == (ThrottleView { pending: pushed_all(old(throttle)@.pending, us), ..old(throttle)@ }),
                decreases n - i,
            {
                let u = TagUpdate::from_sample(&samples[i]);
                let ghost gu = u;
                throttle.push(u);
                proof {
                    let prev = us;
                    us = us.push(gu);
                    assert(us.drop_last() == prev);
                }
                i += 1;
            }
            let dropped = throttle.dropped_count();
            if dropped > 0 {
                let message = String::from_str("IPC throttle dropped ").concat(decimal_string(dropped).as_str()).concat(
                    " updates",
                );
                let warning = message.clone();
                let w = LogEntry { ts_ms: now_ms, level: String::from_str("warn"), message };
                let ghost gw = w;
                let sent = logs.offer(w, now_ms);
                let emit = match sent {
                    Some(e) => Some(UiEmit::Log(e)),
                    None => None,
                };
                assert(offer_log(old(logs)@, gw, now_ms).0 == logs@);
                Routed { emit, warning: Some(warning) }
            } else {
                Routed { emit: None, warning: None }
            }
        },
        Event::PollFailed(id, err) => {
            let ds = DeviceState { device_id: id, online: false, error_count: 1, last_error: Some(err), last_poll_at_ms: None };
            let emit = match states.offer(ds, now_ms) {
                Some(d) => Some(UiEmit::DeviceState(d)),
                None => None,
            };
            Routed { emit, warning: None }
        },
        Event::ConnectionStateChanged(id, online) => {
            let ds = DeviceState { device_id: id, online, error_count: 0, last_error: None, last_poll_at_ms: None };
            let emit = match states.offer(ds, now_ms) {
                Some(d) => Some(UiEmit::DeviceState(d)),
                None => None,
            };
            Routed { emit, warning: None }
        },
        Event::Log(entry) => {
            let emit = match logs.offer(entry, now_ms) {
                Some(e) => Some(UiEmit::Log(e)),
                None => None,
            };
            Routed { emit, warning: None }
        },
        Event::DeviceStatus(ds) => {
            let emit = match states.offer(ds, now_ms) {
                Some(d) => Some(UiEmit::DeviceState(d)),
                None => None,
            };
            Routed { emit, warning: None }
        },
    }
}

} // verus!

verus! {

proof fn lemma_without_update_absent(s: Seq<TagUpdate>, id: Seq<char>)
    requires
        forall|k: int| 0 <= k < s.len() ==> (#[trigger] s[k]).tag_id@ != id,
    ensures
        without_update(s, id) == s,
    decreases s.len(),
{
    if s.len() > 0 {
        let p = s.drop_last();
        assert forall|k: int| 0 <= k < p.len() implies (#[trigger] p[k]).tag_id@ != id by {
            assert(p[k] == s[k]);
        }
        lemma_without_update_absent(p, id);
        assert(s[s.len() - 1] == s.last());
        assert(p.push(s.last()) =~= s);
    }
}

proof fn lemma_pushed_all_distinct(us: Seq<TagUpdate>)
    requires
        unique_tags(us),
    ensures
        pushed_all(Seq::empty(), us) == us,
    decreases us.len(),
{
    if us.len() > 0 {
        let p = us.drop_last();
        assert(unique_tags(p)) by {
            assert forall|i: int, j: int| 0 <= i < j < p.len() implies p[i].tag_id@ != p[j].tag_id@ by {
                assert(p[i] == us[i] && p[j] == us[j]);
            }
        }
        lemma_pushed_all_distinct(p);
        assert forall|k: int| 0 <= k < p.len() implies (#[trigger] p[k]).tag_id@ != us.last().tag_id@ by {
            assert(p[k] == us[k]);
            assert(us[us.len() - 1] == us.last());
        }
        lemma_without_update_absent(p, us.last().tag_id@);
        assert(p.push(us.last()) =~= us);
    }
}

proof fn lemma_without_reading_subset(s: Seq<LastReading>, id: Seq<char>)
    ensures
        forall|k: int| 0 <= k < without_reading(s, id).len() ==> s.contains(
            #[trigger] without_reading(s, id)[k],
        ),
    decreases s.len(),
{
    if s.len() > 0 {
        let p = s.drop_last();
        lemma_without_reading_subset(p, id);
        let r0 = without_reading(p, id);
        let r = without_reading(s, id);
        assert forall|k: int| 0 <= k < r.len() implies s.contains(#[trigger] r[k]) by {
            if k < r0.len() {
                assert(r[k] == r0[k]);
                assert(p.contains(r0[k]));
                let j = choose|j: int| 0 <= j < p.len() && p[j] == r0[k];
                assert(s[j] == p[j]);
            } else {
                assert(r[k] == s.last());
                assert(s[s.len() - 1] == s.last());
            }
        }
    }
}

proof fn lemma_filter_changes_all_new(last: Seq<LastReading>, s: Seq<TagUpdate>)
    requires
        unique_tags(s),
        forall|k: int| 0 <= k < s.len() ==> !unchanged(last, #[trigger] s[k]),
    ensures
        filter_changes(last, s).1 == s,
        forall|i: int|
            0 <= i < filter_changes(last, s).0.len() ==> last.contains(
                #[trigger] filter_changes(last, s).0[i],
            ) || exists|k: int|
                0 <= k < s.len() && s[k].tag_id@ == filter_changes(last, s).0[i].tag_id@,
    decreases s.len(),
{
    if s.len() > 0 {
        let p = s.drop_last();
        assert(unique_tags(p)) by {
            assert forall|i: int, j: int| 0 <= i < j < p.len() implies p[i].tag_id@ != p[j].tag_id@ by {
                assert(p[i] == s[i] && p[j] == s[j]);
            }
        }
        assert forall|k: int| 0 <= k < p.len() implies !unchanged(last, #[trigger] p[k]) by {
            assert(p[k] == s[k]);
        }
        lemma_filter_changes_all_new(last, p);
        let (l0, b0) = filter_changes(last, p);
        let x = s.last();
        assert(s[s.len() - 1] == x);
        if unchanged(l0, x) {
            let i = choose|i: int| 0 <= i < l0.len() && #[trigger] l0[i].tag_id@ == x.tag_id@
                && l0[i].key == reading_key(x.value) && l0[i].quality == x.quality;
            if last.contains(l0[i]) {
                let j = choose|j: int| 0 <= j < last.len() && last[j] == l0[i];
                assert(last[j].tag_id@ == x.tag_id@);
                assert(unchanged(last, x));
            } else {
                let k = choose|k: int| 0 <= k < p.len() && p[k].tag_id@ == l0[i].tag_id@;
                assert(p[k] == s[k]);
            }
            assert(false);
        }
        assert(b0.push(x) =~= s);
        let l = recorded(l0, x);
        lemma_without_reading_subset(l0, x.tag_id@);
        let w = without_reading(l0, x.tag_id@);
        assert forall|i: int| 0 <= i < l.len() implies last.contains(#[trigger] l[i]) || exists|k: int|
            0 <= k < s.len() && s[k].tag_id@ == l[i].tag_id@ by {
            if i < w.len() {
                assert(l[i] == w[i]);
                assert(l0.contains(w[i]));
                let m = choose|m: int| 0 <= m < l0.len() && l0[m] == w[i];
                if !last.contains(l0[m]) {
                    let k = choose|k: int| 0 <= k < p.len() && p[k].tag_id@ == l0[m].tag_id@;
                    assert(s[k] == p[k]);
                }
            } else {
                assert(l[i].tag_id@ == x.tag_id@);
            }
        }
    }
}

/// The updates of a successful poll, for distinct tags and each with a
/// reading or quality that differs from the last emitted for its tag, all
/// reach the front end, in order, in the next batch that is due, when nothing
/// else was pending and they fit in one batch.
pub proof fn lemma_poll_reaches_front_end(v: ThrottleView, us: Seq<TagUpdate>, elapsed: u64)
    requires
        v.pending.len() == 0,
        unique_tags(us),
        0 < us.len() <= CHANNEL_MAX,
        v.last.len() <= LAST_VALUES_MAX,
        elapsed >= BATCH_MS,
        forall|k: int| 0 <= k < us.len() ==> !unchanged(v.last, #[trigger] us[k]),
    ensures
        tick_batch(ThrottleView { pending: pushed_all(v.pending, us), ..v }, elapsed) == Some(us),
{
    assert(v.pending == Seq::<TagUpdate>::empty());
    lemma_pushed_all_distinct(us);
    lemma_filter_changes_all_new(v.last, us);
}

} // verus!
