use vstd::prelude::*;
use std::time::Instant;
use crate::clock::{elapsed_millis, instant_now};
use crate::model::{Quality, TagUpdate, Value};

verus! {

/// Least time between two batches, in milliseconds.
pub const BATCH_MS: u64 = 100;

/// Most updates in one batch; older pending updates beyond it are dropped.
pub const CHANNEL_MAX: usize = 64;

/// Size beyond which the memory of last emitted readings is forgotten.
pub const LAST_VALUES_MAX: usize = 8192;

/// What the change filter compares of a reading: integers by their numeric
/// value whatever their width or sign, booleans as such, finite floats by
/// value (both zeros alike) and every non-finite float alike.
#[derive(Clone, Copy, Debug, PartialEq, Eq, Structural)]
pub enum ReadingKey {
    Int(i64),
    Bool(bool),
    Float(u32),
    NonFinite,
}

/// Whether a single-precision bit pattern is infinite or NaN (exponent all ones).
pub open spec fn f32_bits_non_finite(b: u32) -> bool {
    (b / 0x80_0000) % 256 == 255
}

/// Whether a single-precision bit pattern is a zero of either sign.
pub open spec fn f32_bits_zero(b: u32) -> bool {
    b % 0x8000_0000 == 0
}

pub open spec fn reading_key(v: Value) -> ReadingKey {
    match v {
        Value::U16(x) => ReadingKey::Int(x as i64),
        Value::I16(x) => ReadingKey::Int(x as i64),
        Value::U32(x) => ReadingKey::Int(x as i64),
        Value::I32(x) => ReadingKey::Int(x as i64),
        Value::Bool(b) => ReadingKey::Bool(b),
        Value::F32(b) => if f32_bits_non_finite(b) {
            ReadingKey::NonFinite
        } else if f32_bits_zero(b) {
            ReadingKey::Float(0)
        } else {
            ReadingKey::Float(b)
        },
    }
}

/// The integer a reading holds, whatever its width or sign.
pub open spec fn integer_reading(v: Value) -> Option<int> {
    match v {
        Value::U16(x) => Some(x as int),
        Value::I16(x) => Some(x as int),
        Value::U32(x) => Some(x as int),
        Value::I32(x) => Some(x as int),
        _ => None,
    }
}

/// Two readings get the same change-filter key exactly when their JSON
/// values are equal: integers of equal value (whatever their width or sign),
/// equal booleans, finite floats with the same bits or both zero, or two
/// non-finite floats (each written as `null`). In particular a boolean that
/// flips, or an integer that changes, always counts as a change.
pub proof fn lemma_reading_key_faithful(a: Value, b: Value)
    ensures
        reading_key(a) == reading_key(b) <==> {
            ||| integer_reading(a) is Some && integer_reading(a) == integer_reading(b)
            ||| (a matches Value::Bool(x) && b matches Value::Bool(y) && x == y)
            ||| (a matches Value::F32(x) && b matches Value::F32(y) && (((x / 0x80_0000) % 256 == 255 && (y
                / 0x80_0000) % 256 == 255) || ((x / 0x80_0000) % 256 != 255 && (y / 0x80_0000) % 256 != 255 && (x
                == y || (x % 0x8000_0000 == 0 && y % 0x8000_0000 == 0)))))
        },
{
}

/// The key under which the change filter compares a value.
pub fn key_of(v: Value) -> (r: ReadingKey)
    ensures
        r == reading_key(v),
{
    match v {
        Value::U16(x) => ReadingKey::Int(x as i64),
        Value::I16(x) => ReadingKey::Int(x as i64),
        Value::U32(x) => ReadingKey::Int(x as i64),
        Value::I32(x) => ReadingKey::Int(x as i64),
        Value::Bool(b) => ReadingKey::Bool(b),
        Value::F32(b) => if (b / 0x80_0000) % 256 == 255 {
            ReadingKey::NonFinite
        } else if b % 0x8000_0000 == 0 {
            ReadingKey::Float(0)
        } else {
            ReadingKey::Float(b)
        },
    }
}

/// The last reading emitted for a tag.
pub struct LastReading {
    pub tag_id: String,
    pub key: ReadingKey,
    pub quality: Quality,
}

/// The abstract state of a throttle.
pub struct ThrottleView {
    /// Updates waiting for the next batch, oldest first, one per tag.
    pub pending: Seq<TagUpdate>,
    /// The last reading emitted for each tag.
    pub last: Seq<LastReading>,
    /// Updates dropped since the count was last taken.
    pub dropped: nat,
    /// The instant the throttle's clock counts from.
    pub origin: Instant,
    /// When the last batch was formed (or the throttle made), in milliseconds
    /// after `origin`.
    pub last_emit_ms: u64,
}

/// `s` without the updates of tag `id`.
pub open spec fn without_update(s: Seq<TagUpdate>, id: Seq<char>) -> Seq<TagUpdate>
    decreases s.len(),
{
    if s.len() == 0 {
        s
    } else {
        let r = without_update(s.drop_last(), id);
        if s.last().tag_id@ == id { r } else { r.push(s.last()) }
    }
}

/// `s` without the readings of tag `id`.
pub open spec fn without_reading(s: Seq<LastReading>, id: Seq<char>) -> Seq<LastReading>
    decreases s.len(),
{
    if s.len() == 0 {
        s
    } else {
        let r = without_reading(s.drop_last(), id);
        if s.last().tag_id@ == id { r } else { r.push(s.last()) }
    }
}

/// Pending updates after `u` is pushed: it replaces any update of its tag and
/// becomes the newest.
pub open spec fn pushed(pending: Seq<TagUpdate>, u: TagUpdate) -> Seq<TagUpdate> {
    without_update(pending, u.tag_id@).push(u)
}

/// Whether `u` carries the reading last emitted for its tag.
pub open spec fn unchanged(last: Seq<LastReading>, u: TagUpdate) -> bool {
    exists|i: int|
        0 <= i < last.len() && #[trigger] last[i].tag_id@ == u.tag_id@ && last[i].key == reading_key(
            u.value,
        ) && last[i].quality == u.quality
}

/// The memory of emitted readings once `u` is emitted.
pub open spec fn recorded(last: Seq<LastReading>, u: TagUpdate) -> Seq<LastReading> {
    without_reading(last, u.tag_id@).push(
        LastReading { tag_id: u.tag_id, key: reading_key(u.value), quality: u.quality },
    )
}

/// Runs the change filter over `s` in order: the memory afterwards, and the
/// updates that differ from what was last emitted for their tag.
pub open spec fn filter_changes(last: Seq<LastReading>, s: Seq<TagUpdate>) -> (Seq<LastReading>, Seq<TagUpdate>)
    decreases s.len(),
{
    if s.len() == 0 {
        (last, Seq::empty())
    } else {
        let (l, b) = filter_changes(last, s.drop_last());
        let u = s.last();
        if unchanged(l, u) { (l, b) } else { (recorded(l, u), b.push(u)) }
    }
}

/// The pending updates that fit in one batch: the newest `CHANNEL_MAX`.
pub open spec fn kept(pending: Seq<TagUpdate>) -> Seq<TagUpdate> {
    if pending.len() > CHANNEL_MAX { pending.skip(pending.len() - CHANNEL_MAX) } else { pending }
}

/// Whether a tick after `elapsed` milliseconds forms a batch.
pub open spec fn tick_fires(v: ThrottleView, elapsed: u64) -> bool {
    elapsed >= BATCH_MS && v.pending.len() > 0
}

/// State after a tick that fires.
pub open spec fn fired_state(v: ThrottleView) -> ThrottleView {
    let last0 = if v.last.len() > LAST_VALUES_MAX { Seq::empty() } else { v.last };
    let extra: nat = if v.pending.len() > CHANNEL_MAX { (v.pending.len() - CHANNEL_MAX) as nat } else { 0 };
    ThrottleView {
        pending: Seq::empty(),
        last: filter_changes(last0, kept(v.pending)).0,
        dropped: v.dropped + extra,
        ..v
    }
}

/// Batch of a tick that fires (possibly empty).
pub open spec fn fired_batch(v: ThrottleView) -> Seq<TagUpdate> {
    let last0 = if v.last.len() > LAST_VALUES_MAX { Seq::empty() } else { v.last };
    filter_changes(last0, kept(v.pending)).1
}

/// State after a tick `elapsed` milliseconds after the last batch.
pub open spec fn tick_state(v: ThrottleView, elapsed: u64) -> ThrottleView {
    if tick_fires(v, elapsed) { fired_state(v) } else { v }
}

/// What a tick `elapsed` milliseconds after the last batch emits.
pub open spec fn tick_batch(v: ThrottleView, elapsed: u64) -> Option<Seq<TagUpdate>> {
    if tick_fires(v, elapsed) && fired_batch(v).len() > 0 { Some(fired_batch(v)) } else { None }
}

/// Milliseconds from the last batch to the clock reading `now` (none if the
/// reading is earlier).
pub open spec fn since_last(v: ThrottleView, now: u64) -> u64 {
    if now >= v.last_emit_ms { (now - v.last_emit_ms) as u64 } else { 0 }
}

/// State after a tick at clock reading `now`: as `tick_state`, and when a
/// batch is formed its time becomes `now`.
pub open spec fn tick_at_state(v: ThrottleView, now: u64) -> ThrottleView {
    let e = since_last(v, now);
    if tick_fires(v, e) { ThrottleView { last_emit_ms: now, ..fired_state(v) } } else { v }
}

/// What a tick at clock reading `now` emits.
pub open spec fn tick_at_batch(v: ThrottleView, now: u64) -> Option<Seq<TagUpdate>> {
    tick_batch(v, since_last(v, now))
}

pub open spec fn batch_view(r: Option<Vec<TagUpdate>>) -> Option<Seq<TagUpdate>> {
    match r {
        Some(b) => Some(b@),
        None => None,
    }
}

/// Coalesces tag updates into batches for the front end: at most one batch per
/// `BATCH_MS`, at most `CHANNEL_MAX` updates per batch (the oldest dropped and
/// counted), and no update whose reading and quality equal the last emitted
/// for its tag.
pub struct UpdateThrottle {
    pending: Vec<TagUpdate>,
    origin: Instant,
    last_emit_ms: u64,
    last_values: Vec<LastReading>,
    dropped: u64,
}

impl View for UpdateThrottle {
    type V = ThrottleView;

    closed spec fn view(&self) -> ThrottleView {
        ThrottleView {
            pending: self.pending@,
            last: self.last_values@,
            dropped: self.dropped as nat,
            origin: self.origin,
            last_emit_ms: self.last_emit_ms,
        }
    }
}

impl Default for UpdateThrottle {
    /// An empty throttle whose last batch is now.
    fn default() -> (r: UpdateThrottle)
        ensures
            r@.pending == Seq::<TagUpdate>::empty(),
            r@.last == Seq::<LastReading>::empty(),
            r@.dropped == 0,
            r@.last_emit_ms == 0,
    {
        UpdateThrottle::new()
    }
}

impl UpdateThrottle {
    /// An empty throttle whose clock starts now, as if a batch had just been
    /// formed.
    pub fn new() -> (r: UpdateThrottle)
        ensures
            r@.pending == Seq::<TagUpdate>::empty(),
            r@.last == Seq::<LastReading>::empty(),
            r@.dropped == 0,
            r@.last_emit_ms == 0,
    {
        UpdateThrottle {
            pending: Vec::new(),
            origin: instant_now(),
            last_emit_ms: 0,
            last_values: Vec::new(),
            dropped: 0,
        }
    }

    /// Queues `u`, replacing any pending update of the same tag.
    pub fn push(&mut self, u: TagUpdate)
        ensures
            final(self)@ == (ThrottleView { pending: pushed(old(self)@.pending, u), ..old(self)@ }),
    {
        let ghost id = u.tag_id@;
        let mut kept_updates: Vec<TagUpdate> = Vec::new();
        let n = self.pending.len();
        let mut i: usize = 0;
        while i < n
            invariant
                n == self.pending@.len(),
                self@ == old(self)@,
                0 <= i <= n,
                id == u.tag_id@,
                kept_updates@ == without_update(self.pending@.take(i as int), id),
            decreases n - i,
        {
            assert(self.pending@.take(i + 1).drop_last() =~= self.pending@.take(i as int));
            assert(self.pending@.take(i + 1).last() == self.pending@[i as int]);
            if !(self.pending[i].tag_id == u.tag_id) {
                kept_updates.push(self.pending[i].clone());
            }
            i += 1;
        }
        assert(self.pending@.take(n as int) =~= self.pending@);
        kept_updates.push(u);
        self.pending = kept_updates;
    }

    /// Whether adding the updates that a tick may drop to the drop count
    /// would overflow it.
    pub fn drop_count_would_overflow(&self) -> (r: bool)
        ensures
            r == (self@.dropped + self@.pending.len() > u64::MAX),
    {
        self.dropped > u64::MAX - self.pending.len() as u64
    }

    /// Whether the change filter has already emitted `u`'s reading and quality.
    fn is_unchanged(&self, u: &TagUpdate) -> (r: bool)
        ensures
            r == unchanged(self@.last, *u),
    {
        let key = key_of(u.value);
        let n = self.last_values.len();
        let mut i: usize = 0;
        while i < n
            invariant
                n == self.last_values@.len(),
                0 <= i <= n,
                key == reading_key(u.value),
                forall|j: int|
                    0 <= j < i ==> !(#[trigger] self.last_values@[j].tag_id@ == u.tag_id@
                        && self.last_values@[j].key == key && self.last_values@[j].quality
                        == u.quality),
            decreases n - i,
        {
            let r = &self.last_values[i];
            if r.tag_id == u.tag_id && r.key == key && r.quality == u.quality {
                assert(self.last_values@[i as int].tag_id@ == u.tag_id@);
                return true;
            }
            i += 1;
        }
        false
    }

    /// Remembers `u` as the last reading emitted for its tag.
    fn record(&mut self, u: &TagUpdate)
        ensures
            final(self)@ == (ThrottleView { last: recorded(old(self)@.last, *u), ..old(self)@ }),
    {
        let ghost id = u.tag_id@;
        let mut kept_readings: Vec<LastReading> = Vec::new();
        let n = self.last_values.len();
        let mut i: usize = 0;
        while i < n
            invariant
                n == self.last_values@.len(),
                self@ == old(self)@,
                0 <= i <= n,
                id == u.tag_id@,
                kept_readings@ == without_reading(self.last_values@.take(i as int), id),
            decreases n - i,
        {
            assert(self.last_values@.take(i + 1).drop_last() =~= self.last_values@.take(i as int));
            assert(self.last_values@.take(i + 1).last() == self.last_values@[i as int]);
            if !(self.last_values[i].tag_id == u.tag_id) {
                let r = &self.last_values[i];
                kept_readings.push(LastReading { tag_id: r.tag_id.clone(), key: r.key, quality: r.quality });
            }
            i += 1;
        }
        assert(self.last_values@.take(n as int) =~= self.last_values@);
        kept_readings.push(LastReading { tag_id: u.tag_id.clone(), key: key_of(u.value), quality: u.quality });
        self.last_values = kept_readings;
    }

    /// The batching of a tick `elapsed_ms` milliseconds after the last batch:
    /// when that is at least `BATCH_MS` and updates are pending, it keeps the
    /// newest `CHANNEL_MAX` (counting the others as dropped), empties the
    /// queue and returns those whose reading changed, if any. The time of the
    /// last batch is left to the caller.
    fn batch_after(&mut self, elapsed_ms: u64) -> (r: Option<Vec<TagUpdate>>)
        requires
            old(self)@.dropped + old(self)@.pending.len() <= u64::MAX,
        ensures
            final(self)@ == tick_state(old(self)@, elapsed_ms),
            batch_view(r) == tick_batch(old(self)@, elapsed_ms),
    {
        if elapsed_ms < BATCH_MS || self.pending.len() == 0 {
            return None;
        }
        if self.last_values.len() > LAST_VALUES_MAX {
            self.last_values.clear();
        }
        let n = self.pending.len();
        if n > CHANNEL_MAX {
            self.dropped = self.dropped + (n - CHANNEL_MAX) as u64;
            let newest = self.pending.split_off(n - CHANNEL_MAX);
            self.pending = newest;
        }
        let mut queue: Vec<TagUpdate> = Vec::new();
        std::mem::swap(&mut queue, &mut self.pending);
        let ghost last0 = self.last_values@;
        assert(queue@ == kept(old(self)@.pending));
        let mut batch: Vec<TagUpdate> = Vec::new();
        let m = queue.len();
        let mut i: usize = 0;
        while i < m
            invariant
                m == queue@.len(),
                0 <= i <= m,
                self.pending@ == Seq::<TagUpdate>::empty(),
                self.dropped == fired_state(old(self)@).dropped,
                self.origin == old(self).origin,
                self.last_emit_ms == old(self).last_emit_ms,
                (self.last_values@, batch@) == filter_changes(last0, queue@.take(i as int)),
            decreases m - i,
        {
            assert(queue@.take(i + 1).drop_last() =~= queue@.take(i as int));
            let u = &queue[i];
            if !self.is_unchanged(u) {
                self.record(u);
                batch.push(u.clone());
            }
            i += 1;
        }
        assert(queue@.take(m as int) =~= queue@);
        if batch.len() == 0 {
            None
        } else {
            Some(batch)
        }
    }

    /// The tick at clock reading `now_ms` (milliseconds after the origin):
    /// when at least `BATCH_MS` have passed since the last batch and updates
    /// are pending, it keeps the newest `CHANNEL_MAX` (counting the others as
    /// dropped), empties the queue, returns those whose reading changed, if
    /// any, and restarts the clock at `now_ms`; otherwise it changes nothing.
    pub fn tick_at(&mut self, now_ms: u64) -> (r: Option<Vec<TagUpdate>>)
        requires
            old(self)@.dropped + old(self)@.pending.len() <= u64::MAX,
        ensures
            final(self)@ == tick_at_state(old(self)@, now_ms),
            batch_view(r) == tick_at_batch(old(self)@, now_ms),
    {
        let elapsed = if now_ms >= self.last_emit_ms { now_ms - self.last_emit_ms } else { 0 };
        let fires = elapsed >= BATCH_MS && self.pending.len() > 0;
        let r = self.batch_after(elapsed);
        if fires {
            self.last_emit_ms = now_ms;
        }
        r
    }

    /// Emits a batch if one is due: the tick at the clock's reading of the
    /// milliseconds passed since the origin, which the clock alone decides.
    pub fn tick(&mut self) -> (r: Option<Vec<TagUpdate>>)
        requires
            old(self)@.dropped + old(self)@.pending.len() <= u64::MAX,
        ensures
            exists|now: u64|
                final(self)@ == tick_at_state(old(self)@, now) && batch_view(r) == tick_at_batch(old(self)@, now),
    {
        let now = elapsed_millis(&self.origin);
        self.tick_at(now)
    }

    /// Returns the number of updates dropped since the last call, and resets it.
    pub fn dropped_count(&mut self) -> (r: u64)
        ensures
            r == old(self)@.dropped,
            final(self)@ == (ThrottleView { dropped: 0, ..old(self)@ }),
    {
        let count = self.dropped;
        self.dropped = 0;
        count
    }
}

} // verus!

verus! {

/// No two updates of `s` are for the same tag.
pub open spec fn unique_tags(s: Seq<TagUpdate>) -> bool {
    forall|i: int, j: int| 0 <= i < j < s.len() ==> s[i].tag_id@ != s[j].tag_id@
}

proof fn lemma_without_update(s: Seq<TagUpdate>, id: Seq<char>)
    ensures
        forall|k: int| #![trigger without_update(s, id)[k]] 0 <= k < without_update(s, id).len()
            ==> without_update(s, id)[k].tag_id@ != id && s.contains(without_update(s, id)[k]),
        forall|k: int| 0 <= k < s.len() && s[k].tag_id@ != id ==> without_update(s, id).contains(#[trigger] s[k]),
        unique_tags(s) ==> unique_tags(without_update(s, id)),
    decreases s.len(),
{
    if s.len() > 0 {
        let p = s.drop_last();
        lemma_without_update(p, id);
        let r0 = without_update(p, id);
        let r = without_update(s, id);
        assert forall|k: int| 0 <= k < r.len() implies #[trigger] r[k].tag_id@ != id && s.contains(r[k]) by {
            if k < r0.len() {
                assert(r[k] == r0[k]);
                let j = choose|j: int| 0 <= j < p.len() && p[j] == r0[k];
                assert(s[j] == r0[k]);
            } else {
                assert(r[k] == s.last());
                assert(s[s.len() - 1] == s.last());
            }
        }
        assert forall|k: int| 0 <= k < s.len() && s[k].tag_id@ != id implies r.contains(#[trigger] s[k]) by {
            if k < s.len() - 1 {
                assert(p[k] == s[k]);
                let j = choose|j: int| 0 <= j < r0.len() && r0[j] == p[k];
                assert(r[j] == r0[j]);
            } else {
                assert(r[r.len() - 1] == s[k]);
            }
        }
        if unique_tags(s) {
            assert(unique_tags(p)) by {
                assert forall|i: int, j: int| 0 <= i < j < p.len() implies p[i].tag_id@ != p[j].tag_id@ by {
                    assert(p[i] == s[i] && p[j] == s[j]);
                }
            }
            assert forall|i: int, j: int| 0 <= i < j < r.len() implies r[i].tag_id@ != r[j].tag_id@ by {
                if j < r0.len() {
                    assert(r[i] == r0[i] && r[j] == r0[j]);
                } else if s.last().tag_id@ != id {
                    assert(r[i] == r0[i]);
                    assert(r[j] == s.last());
                    let a = choose|a: int| 0 <= a < p.len() && p[a] == r0[i];
                    assert(s[a] == p[a]);
                    assert(s[s.len() - 1] == s.last());
                }
            }
        }
    }
}

/// Pushing keeps one pending update per tag, and the pushed update is the
/// newest; every other pending update of another tag stays.
pub proof fn lemma_push_coalesces(pending: Seq<TagUpdate>, u: TagUpdate)
    requires
        unique_tags(pending),
    ensures
        unique_tags(pushed(pending, u)),
        pushed(pending, u).last() == u,
        forall|k: int| 0 <= k < pending.len() && pending[k].tag_id@ != u.tag_id@
            ==> pushed(pending, u).contains(#[trigger] pending[k]),
        forall|k: int| 0 <= k < pushed(pending, u).len() - 1 ==> #[trigger] pushed(pending, u)[k].tag_id@ != u.tag_id@,
{
    lemma_without_update(pending, u.tag_id@);
    let w = without_update(pending, u.tag_id@);
    let r = pushed(pending, u);
    assert forall|i: int, j: int| 0 <= i < j < r.len() implies r[i].tag_id@ != r[j].tag_id@ by {
        assert(r[i] == w[i]);
        if j < w.len() {
            assert(r[j] == w[j]);
        }
    }
    assert forall|k: int| 0 <= k < pending.len() && pending[k].tag_id@ != u.tag_id@ implies r.contains(#[trigger] pending[k]) by {
        let j = choose|j: int| 0 <= j < w.len() && w[j] == pending[k];
        assert(r[j] == w[j]);
    }
    assert forall|k: int| 0 <= k < r.len() - 1 implies #[trigger] r[k].tag_id@ != u.tag_id@ by {
        assert(r[k] == w[k]);
    }
}

proof fn lemma_without_reading_keeps(s: Seq<LastReading>, id: Seq<char>, k: int)
    requires
        0 <= k < s.len(),
        s[k].tag_id@ != id,
    ensures
        without_reading(s, id).contains(s[k]),
    decreases s.len(),
{
    let p = s.drop_last();
    let r0 = without_reading(p, id);
    if k < s.len() - 1 {
        assert(p[k] == s[k]);
        lemma_without_reading_keeps(p, id, k);
        let j = choose|j: int| 0 <= j < r0.len() && r0[j] == p[k];
        assert(without_reading(s, id)[j] == r0[j]);
    } else {
        let r = without_reading(s, id);
        assert(r[r.len() - 1] == s[k]);
    }
}

proof fn lemma_filter_changes(last: Seq<LastReading>, s: Seq<TagUpdate>)
    ensures
        filter_changes(last, s).1.len() <= s.len(),
        forall|k: int| 0 <= k < filter_changes(last, s).1.len() ==> s.contains(#[trigger] filter_changes(last, s).1[k]),
        unique_tags(s) ==> forall|k: int| 0 <= k < filter_changes(last, s).1.len()
            ==> unchanged(filter_changes(last, s).0, #[trigger] filter_changes(last, s).1[k]),
    decreases s.len(),
{
    if s.len() > 0 {
        let p = s.drop_last();
        lemma_filter_changes(last, p);
        let (l0, b0) = filter_changes(last, p);
        let (l, b) = filter_changes(last, s);
        let u = s.last();
        assert(s[s.len() - 1] == u);
        assert forall|k: int| 0 <= k < b.len() implies s.contains(#[trigger] b[k]) by {
            if k < b0.len() {
                assert(b[k] == b0[k]);
                let j = choose|j: int| 0 <= j < p.len() && p[j] == b0[k];
                assert(s[j] == p[j]);
            } else {
                assert(b[k] == u);
            }
        }
        if unique_tags(s) {
            assert(unique_tags(p)) by {
                assert forall|i: int, j: int| 0 <= i < j < p.len() implies p[i].tag_id@ != p[j].tag_id@ by {
                    assert(p[i] == s[i] && p[j] == s[j]);
                }
            }
            if !unchanged(l0, u) {
                let lr = recorded(l0, u);
                assert forall|k: int| 0 <= k < b.len() implies unchanged(l, #[trigger] b[k]) by {
                    if k < b0.len() {
                        assert(b[k] == b0[k]);
                        assert(unchanged(l0, b0[k]));
                        let i = choose|i: int| 0 <= i < l0.len() && #[trigger] l0[i].tag_id@ == b0[k].tag_id@
                            && l0[i].key == reading_key(b0[k].value) && l0[i].quality == b0[k].quality;
                        let j = choose|j: int| 0 <= j < p.len() && p[j] == b0[k];
                        assert(s[j] == p[j]);
                        assert(b0[k].tag_id@ != u.tag_id@);
                        lemma_without_reading_keeps(l0, u.tag_id@, i);
                        let w = without_reading(l0, u.tag_id@);
                        let m = choose|m: int| 0 <= m < w.len() && w[m] == l0[i];
                        assert(lr[m] == w[m]);
                    } else {
                        assert(b[k] == u);
                        assert(lr[lr.len() - 1].tag_id@ == u.tag_id@);
                    }
                }
            }
        }
    }
}

/// A tick emits at most `CHANNEL_MAX` updates, each one of the pending ones,
/// and never an empty batch.
pub proof fn lemma_batch_bounded(v: ThrottleView, elapsed: u64)
    ensures
        tick_batch(v, elapsed) matches Some(b) ==> 0 < b.len() <= CHANNEL_MAX
            && forall|k: int| 0 <= k < b.len() ==> v.pending.contains(#[trigger] b[k]),
{
    if tick_fires(v, elapsed) {
        let last0 = if v.last.len() > LAST_VALUES_MAX { Seq::empty() } else { v.last };
        let q = kept(v.pending);
        lemma_filter_changes(last0, q);
        let b = fired_batch(v);
        assert forall|k: int| 0 <= k < b.len() implies v.pending.contains(#[trigger] b[k]) by {
            let j = choose|j: int| 0 <= j < q.len() && q[j] == b[k];
            if v.pending.len() > CHANNEL_MAX {
                assert(v.pending[j + v.pending.len() - CHANNEL_MAX] == q[j]);
            }
        }
    }
}

/// Before `BATCH_MS` have passed since the last batch, or with nothing
/// pending, a tick emits nothing and changes nothing, its clock included.
pub proof fn lemma_tick_at_waits(v: ThrottleView, now: u64)
    requires
        now < v.last_emit_ms + BATCH_MS || v.pending.len() == 0,
    ensures
        tick_at_batch(v, now) is None,
        tick_at_state(v, now) == v,
{
}

/// Batches are at least `BATCH_MS` apart: a tick emits only `BATCH_MS` or
/// more after the last batch, and every tick that forms a batch restarts the
/// clock at its own reading.
pub proof fn lemma_batches_spaced(v: ThrottleView, now: u64)
    ensures
        tick_at_batch(v, now) is Some ==> now >= v.last_emit_ms + BATCH_MS,
        tick_fires(v, since_last(v, now)) ==> tick_at_state(v, now).last_emit_ms == now,
        tick_at_state(v, now).origin == v.origin,
{
}

/// Before `BATCH_MS` have passed, or with nothing pending, a tick emits
/// nothing and changes nothing.
pub proof fn lemma_tick_waits(v: ThrottleView, elapsed: u64)
    requires
        elapsed < BATCH_MS || v.pending.len() == 0,
    ensures
        tick_batch(v, elapsed) is None,
        tick_state(v, elapsed) == v,
{
}

/// A tick that fires empties the queue and adds the updates beyond
/// `CHANNEL_MAX` to the drop count.
pub proof fn lemma_tick_drops_excess(v: ThrottleView, elapsed: u64)
    requires
        tick_fires(v, elapsed),
    ensures
        tick_state(v, elapsed).pending.len() == 0,
        v.pending.len() > CHANNEL_MAX ==> tick_state(v, elapsed).dropped == v.dropped + v.pending.len() - CHANNEL_MAX,
        v.pending.len() <= CHANNEL_MAX ==> tick_state(v, elapsed).dropped == v.dropped,
{
}

/// After a batch, every update in it is remembered as its tag's last
/// reading (the pending updates being one per tag, as `push` keeps them).
pub proof fn lemma_emitted_remembered(v: ThrottleView, elapsed: u64)
    requires
        unique_tags(v.pending),
    ensures
        tick_batch(v, elapsed) matches Some(b) ==> forall|k: int|
            0 <= k < b.len() ==> unchanged(tick_state(v, elapsed).last, #[trigger] b[k]),
{
    if tick_fires(v, elapsed) {
        let last0 = if v.last.len() > LAST_VALUES_MAX { Seq::empty() } else { v.last };
        let q = kept(v.pending);
        assert(unique_tags(q)) by {
            if v.pending.len() > CHANNEL_MAX {
                let d = v.pending.len() - CHANNEL_MAX;
                assert forall|i: int, j: int| 0 <= i < j < q.len() implies q[i].tag_id@ != q[j].tag_id@ by {
                    assert(q[i] == v.pending[i + d] && q[j] == v.pending[j + d]);
                }
            }
        }
        lemma_filter_changes(last0, q);
    }
}

/// An update that repeats the reading and quality last emitted for its tag is
/// not emitted again (unless the memory had outgrown `LAST_VALUES_MAX` and was
/// forgotten).
pub proof fn lemma_repeat_suppressed(v: ThrottleView, u: TagUpdate, elapsed: u64)
    requires
        v.pending == seq![u],
        unchanged(v.last, u),
        v.last.len() <= LAST_VALUES_MAX,
    ensures
        tick_batch(v, elapsed) is None,
        tick_state(v, elapsed).last == v.last,
{
    let q = kept(v.pending);
    assert(q == v.pending);
    assert(q.drop_last() =~= Seq::<TagUpdate>::empty());
    assert(q.last() == u);
    assert(filter_changes(v.last, q.drop_last()) == (v.last, Seq::<TagUpdate>::empty()));
    assert(filter_changes(v.last, q) == (v.last, Seq::<TagUpdate>::empty()));
}

} // verus!

verus! {

proof fn lemma_filter_changes_keeps(last: Seq<LastReading>, s: Seq<TagUpdate>, u: TagUpdate)
    requires
        unchanged(last, u),
        forall|k: int| 0 <= k < s.len() ==> (#[trigger] s[k]).tag_id@ != u.tag_id@ || s[k] == u,
    ensures
        unchanged(filter_changes(last, s).0, u),
        !filter_changes(last, s).1.contains(u),
    decreases s.len(),
{
    if s.len() > 0 {
        let p = s.drop_last();
        assert forall|k: int| 0 <= k < p.len() implies (#[trigger] p[k]).tag_id@ != u.tag_id@ || p[k] == u by {
            assert(p[k] == s[k]);
        }
        lemma_filter_changes_keeps(last, p, u);
        let (l0, b0) = filter_changes(last, p);
        let x = s.last();
        assert(s[s.len() - 1] == x);
        if !unchanged(l0, x) {
            assert(x != u);
            assert(x.tag_id@ != u.tag_id@);
            let i = choose|i: int| 0 <= i < l0.len() && #[trigger] l0[i].tag_id@ == u.tag_id@
                && l0[i].key == reading_key(u.value) && l0[i].quality == u.quality;
            lemma_without_reading_keeps(l0, x.tag_id@, i);
            let w = without_reading(l0, x.tag_id@);
            let m = choose|m: int| 0 <= m < w.len() && w[m] == l0[i];
            let l = recorded(l0, x);
            assert(l[m] == w[m]);
            let b = b0.push(x);
            if b.contains(u) {
                let j = choose|j: int| 0 <= j < b.len() && b[j] == u;
                if j < b0.len() {
                    assert(b0[j] == b[j]);
                }
            }
        }
    }
}

/// An update that carries the reading and quality last emitted for its tag
/// is never in a batch, whatever else is pending (while the memory of emitted
/// readings has not outgrown `LAST_VALUES_MAX` and been forgotten).
pub proof fn lemma_unchanged_not_emitted(v: ThrottleView, elapsed: u64, u: TagUpdate)
    requires
        unique_tags(v.pending),
        v.last.len() <= LAST_VALUES_MAX,
        unchanged(v.last, u),
    ensures
        tick_batch(v, elapsed) matches Some(b) ==> !b.contains(u),
{
    lemma_batch_bounded(v, elapsed);
    if tick_fires(v, elapsed) && v.pending.contains(u) {
        let q = kept(v.pending);
        let j = choose|j: int| 0 <= j < v.pending.len() && v.pending[j] == u;
        let d: int = if v.pending.len() > CHANNEL_MAX { v.pending.len() - CHANNEL_MAX } else { 0 };
        assert forall|k: int| 0 <= k < q.len() implies (#[trigger] q[k]).tag_id@ != u.tag_id@ || q[k] == u by {
            assert(q[k] == v.pending[k + d]);
            if k + d != j {
                if k + d < j {
                    assert(v.pending[k + d].tag_id@ != v.pending[j].tag_id@);
                } else {
                    assert(v.pending[j].tag_id@ != v.pending[k + d].tag_id@);
                }
            }
        }
        lemma_filter_changes_keeps(v.last, q, u);
    }
}


/// One call on a throttle: a push, a tick at a clock reading, or taking the
/// drop count.
pub enum ThrottleStep {
    Push(TagUpdate),
    Tick(u64),
    TakeDropped,
}

/// The throttle after one call, with the batch it emitted, if any, and the
/// clock reading it was emitted at.
pub open spec fn throttle_step(v: ThrottleView, step: ThrottleStep) -> (ThrottleView, Seq<(Seq<TagUpdate>, u64)>) {
    match step {
        ThrottleStep::Push(u) => (ThrottleView { pending: pushed(v.pending, u), ..v }, Seq::empty()),
        ThrottleStep::Tick(now) => (
            tick_at_state(v, now),
            match tick_at_batch(v, now) {
                Some(b) => seq![(b, now)],
                None => Seq::empty(),
            },
        ),
        ThrottleStep::TakeDropped => (ThrottleView { dropped: 0, ..v }, Seq::empty()),
    }
}

/// The throttle after the calls `steps`, in order, and every batch emitted
/// on the way with its clock reading.
pub open spec fn throttle_run(v: ThrottleView, steps: Seq<ThrottleStep>) -> (ThrottleView, Seq<(Seq<TagUpdate>, u64)>)
    decreases steps.len(),
{
    if steps.len() == 0 {
        (v, Seq::empty())
    } else {
        let (v1, e1) = throttle_run(v, steps.drop_last());
        let (v2, e2) = throttle_step(v1, steps.last());
        (v2, e1 + e2)
    }
}

/// Over any sequence of pushes, ticks and drop-count reads, every batch the
/// throttle emits is non-empty and holds at most `CHANNEL_MAX` updates, and
/// each batch comes at least `BATCH_MS` after the one before it, whatever
/// the clock readings.
pub proof fn lemma_run_batches_spaced(v: ThrottleView, steps: Seq<ThrottleStep>)
    ensures
        ({
            let e = throttle_run(v, steps).1;
            &&& forall|k: int| 0 <= k < e.len() ==> 0 < (#[trigger] e[k]).0.len() <= CHANNEL_MAX
            &&& forall|k: int, l: int| 0 <= k < l < e.len() ==> #[trigger] e[l].1 >= #[trigger] e[k].1 + BATCH_MS
        }),
{
    lemma_run_inv(v, steps);
}

proof fn lemma_run_inv(v: ThrottleView, steps: Seq<ThrottleStep>)
    ensures
        ({
            let (w, e) = throttle_run(v, steps);
            &&& w.last_emit_ms >= v.last_emit_ms
            &&& forall|k: int| 0 <= k < e.len() ==> (#[trigger] e[k]).1 <= w.last_emit_ms
            &&& forall|k: int| 0 <= k < e.len() ==> 0 < (#[trigger] e[k]).0.len() <= CHANNEL_MAX
            &&& forall|k: int, l: int| 0 <= k < l < e.len() ==> #[trigger] e[l].1 >= #[trigger] e[k].1 + BATCH_MS
        }),
    decreases steps.len(),
{
    if steps.len() > 0 {
        lemma_run_inv(v, steps.drop_last());
        let (v1, e1) = throttle_run(v, steps.drop_last());
        let (v2, e2) = throttle_step(v1, steps.last());
        let e = e1 + e2;
        assert(throttle_run(v, steps) == (v2, e));
        match steps.last() {
            ThrottleStep::Tick(now) => {
                lemma_batch_bounded(v1, since_last(v1, now));
                if tick_at_batch(v1, now) is Some {
                    assert(e2.len() == 1);
                    assert(e[e.len() - 1] == e2[0]);
                }
                assert forall|k: int, l: int| 0 <= k < l < e.len() implies #[trigger] e[l].1 >= #[trigger] e[k].1 + BATCH_MS by {
                    if l < e1.len() {
                        assert(e[l] == e1[l] && e[k] == e1[k]);
                    } else {
                        assert(e[k] == e1[k]);
                    }
                }
                assert forall|k: int| 0 <= k < e.len() implies (#[trigger] e[k]).1 <= v2.last_emit_ms by {
                    if k < e1.len() {
                        assert(e[k] == e1[k]);
                    }
                }
                assert forall|k: int| 0 <= k < e.len() implies 0 < (#[trigger] e[k]).0.len() <= CHANNEL_MAX by {
                    if k < e1.len() {
                        assert(e[k] == e1[k]);
                    }
                }
            },
            _ => {
                assert(e =~= e1);
            },
        }
    }
}

} // verus!
