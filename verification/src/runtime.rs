use vstd::prelude::*;
use crate::error::SourceError;
use crate::event::Event;
use crate::model::{Device, DeviceId, DeviceState, RuntimeStatus, Sample, Tag};
use crate::source::PollRequest;

verus! {

/// A configured device with its tags.
#[derive(Debug)]
pub struct DeviceEntry {
    pub device: Device,
    pub tags: Vec<Tag>,
}

/// A configured device with its tags, abstractly.
pub struct EntryView {
    pub device: Device,
    pub tags: Seq<Tag>,
}

pub open spec fn entry_view(e: DeviceEntry) -> EntryView {
    EntryView { device: e.device, tags: e.tags@ }
}

/// The abstract state of the runtime: the configured devices, whether it
/// runs, and the devices that have a poll loop.
pub struct RuntimeView {
    pub entries: Seq<EntryView>,
    pub running: bool,
    pub active: Seq<Seq<char>>,
}

/// The tags of `tags` that belong to device `id`, in order.
pub open spec fn tags_of(tags: Seq<Tag>, id: Seq<char>) -> Seq<Tag>
    decreases tags.len(),
{
    if tags.len() == 0 {
        tags
    } else {
        let r = tags_of(tags.drop_last(), id);
        if tags.last().device_id@ == id { r.push(tags.last()) } else { r }
    }
}

/// The tags kept for device `id` are exactly the tags that name it as their
/// device, in their order: none is lost, none added, none reordered.
pub proof fn lemma_tags_of_selects(tags: Seq<Tag>, id: Seq<char>)
    ensures
        tags_of(tags, id) == tags.filter(|t: Tag| t.device_id@ == id),
        forall|i: int| 0 <= i < tags.len() && (#[trigger] tags[i]).device_id@ == id ==> tags_of(tags, id).contains(tags[i]),
        forall|k: int| 0 <= k < tags_of(tags, id).len() ==> (#[trigger] tags_of(tags, id)[k]).device_id@ == id
            && tags.contains(tags_of(tags, id)[k]),
    decreases tags.len(),
{
    reveal(Seq::filter);
    let pred = |t: Tag| t.device_id@ == id;
    if tags.len() > 0 {
        let p = tags.drop_last();
        lemma_tags_of_selects(p, id);
        let r = tags_of(tags, id);
        let r0 = tags_of(p, id);
        assert forall|i: int| 0 <= i < tags.len() && (#[trigger] tags[i]).device_id@ == id implies r.contains(tags[i]) by {
            if i < p.len() {
                assert(p[i] == tags[i]);
                let k = choose|k: int| 0 <= k < r0.len() && r0[k] == p[i];
                assert(r[k] == r0[k]);
            } else {
                assert(r[r.len() - 1] == tags.last());
            }
        }
        assert forall|k: int| 0 <= k < r.len() implies (#[trigger] r[k]).device_id@ == id && tags.contains(r[k]) by {
            if k < r0.len() {
                assert(r[k] == r0[k]);
                let i = choose|i: int| 0 <= i < p.len() && p[i] == r0[k];
                assert(tags[i] == p[i]);
            } else {
                assert(r[k] == tags[tags.len() - 1]);
            }
        }
    }
}

/// Position of the last entry of device `id`, or -1.
pub open spec fn index_of(entries: Seq<EntryView>, id: Seq<char>) -> int
    decreases entries.len(),
{
    if entries.len() == 0 {
        -1
    } else if entries.last().device.id@ == id {
        entries.len() - 1
    } else {
        index_of(entries.drop_last(), id)
    }
}

/// The entries once `e` is configured: it replaces its device's entry, or
/// is added.
pub open spec fn upsert(entries: Seq<EntryView>, e: EntryView) -> Seq<EntryView> {
    let j = index_of(entries, e.device.id@);
    if j >= 0 { entries.update(j, e) } else { entries.push(e) }
}

/// The entries once the devices `ds` are configured in order, each with its
/// tags among `tags`.
pub open spec fn configured(entries: Seq<EntryView>, ds: Seq<Device>, tags: Seq<Tag>) -> Seq<EntryView>
    decreases ds.len(),
{
    if ds.len() == 0 {
        entries
    } else {
        upsert(
            configured(entries, ds.drop_last(), tags),
            EntryView { device: ds.last(), tags: tags_of(tags, ds.last().id@) },
        )
    }
}

/// Whether `ids` names `id`.
pub open spec fn names(ids: Seq<Seq<char>>, id: Seq<char>) -> bool {
    exists|i: int| 0 <= i < ids.len() && ids[i] == id
}

pub open spec fn ids_view(ids: Seq<String>) -> Seq<Seq<char>> {
    ids.map_values(|s: String| s@)
}

pub open spec fn filter_view(filter: Option<Vec<DeviceId>>) -> Option<Seq<Seq<char>>> {
    match filter {
        Some(f) => Some(ids_view(f@)),
        None => None,
    }
}

/// Whether a start with `filter` launches a poll loop for `e` while the
/// devices `active` have one: the device passes the filter, is enabled and
/// has none yet.
pub open spec fn selected(e: EntryView, filter: Option<Seq<Seq<char>>>, active: Seq<Seq<char>>) -> bool {
    &&& match filter {
        Some(f) => names(f, e.device.id@),
        None => true,
    }
    &&& e.device.enabled
    &&& !names(active, e.device.id@)
}

/// Runs a start over `entries` in order: the devices with a poll loop
/// afterwards, and the entries launched.
pub open spec fn start_fold(entries: Seq<EntryView>, filter: Option<Seq<Seq<char>>>, active: Seq<Seq<char>>) -> (Seq<Seq<char>>, Seq<EntryView>)
    decreases entries.len(),
{
    if entries.len() == 0 {
        (active, Seq::empty())
    } else {
        let (a, l) = start_fold(entries.drop_last(), filter, active);
        let e = entries.last();
        if selected(e, filter, a) { (a.push(e.device.id@), l.push(e)) } else { (a, l) }
    }
}

/// The devices, their tags and their poll loops, as the runtime keeps them.
pub struct RuntimeState {
    entries: Vec<DeviceEntry>,
    running: bool,
    active: Vec<DeviceId>,
}

impl View for RuntimeState {
    type V = RuntimeView;

    closed spec fn view(&self) -> RuntimeView {
        RuntimeView {
            entries: self.entries@.map_values(|e: DeviceEntry| entry_view(e)),
            running: self.running,
            active: ids_view(self.active@),
        }
    }
}

fn clone_tags(tags: &Vec<Tag>) -> (r: Vec<Tag>)
    ensures
        r@ == tags@,
{
    let mut r: Vec<Tag> = Vec::new();
    let n = tags.len();
    let mut i: usize = 0;
    while i < n
        invariant
            n == tags@.len(),
            0 <= i <= n,
            r@ == tags@.take(i as int),
        decreases n - i,
    {
        r.push(tags[i].clone());
        assert(r@ =~= tags@.take(i + 1));
        i += 1;
    }
    assert(tags@.take(n as int) =~= tags@);
    r
}

/// The tags of `tags` that belong to device `id`, in order.
pub fn select_tags(tags: &Vec<Tag>, id: &String) -> (r: Vec<Tag>)
    ensures
        r@ == tags_of(tags@, id@),
{
    let mut r: Vec<Tag> = Vec::new();
    let n = tags.len();
    let mut i: usize = 0;
    while i < n
        invariant
            n == tags@.len(),
            0 <= i <= n,
            r@ == tags_of(tags@.take(i as int), id@),
        decreases n - i,
    {
        assert(tags@.take(i + 1).drop_last() =~= tags@.take(i as int));
        assert(tags@.take(i + 1).last() == tags@[i as int]);
        if tags[i].device_id == *id {
            r.push(tags[i].clone());
        }
        i += 1;
    }
    assert(tags@.take(n as int) =~= tags@);
    r
}

fn ids_contain(ids: &Vec<DeviceId>, id: &String) -> (r: bool)
    ensures
        r == names(ids_view(ids@), id@),
{
    let n = ids.len();
    let mut i: usize = 0;
    while i < n
        invariant
            n == ids@.len(),
            0 <= i <= n,
            forall|j: int| 0 <= j < i ==> ids@[j]@ != id@,
        decreases n - i,
    {
        if ids[i] == *id {
            assert(ids_view(ids@)[i as int] == id@);
            return true;
        }
        i += 1;
    }
    assert forall|j: int| 0 <= j < ids_view(ids@).len() implies ids_view(ids@)[j] != id@ by {
        assert(ids_view(ids@)[j] == ids@[j]@);
    }
    false
}

impl RuntimeState {
    /// A stopped runtime with no devices.
    pub fn new() -> (r: RuntimeState)
        ensures
            r@.entries == Seq::<EntryView>::empty(),
            !r@.running,
            r@.active == Seq::<Seq<char>>::empty(),
    {
        let r = RuntimeState { entries: Vec::new(), running: false, active: Vec::new() };
        assert(r@.entries =~= Seq::<EntryView>::empty());
        assert(r@.active =~= Seq::<Seq<char>>::empty());
        r
    }

    fn find(&self, id: &String) -> (r: Option<usize>)
        ensures
            index_of(self@.entries, id@) == (match r {
                Some(j) => j as int,
                None => -1,
            }),
            r matches Some(j) ==> j < self.entries@.len(),
    {
        let mut i = self.entries.len();
        assert(self@.entries.take(i as int) =~= self@.entries);
        while i > 0
            invariant
                i <= self.entries@.len(),
                index_of(self@.entries, id@) == index_of(self@.entries.take(i as int), id@),
            decreases i,
        {
            assert(self@.entries.take(i as int).drop_last() =~= self@.entries.take(i - 1));
            i -= 1;
            if self.entries[i].device.id == *id {
                return Some(i);
            }
        }
        None
    }

    fn upsert_entry(&mut self, e: DeviceEntry)
        ensures
            final(self)@ == (RuntimeView { entries: upsert(old(self)@.entries, entry_view(e)), ..old(self)@ }),
    {
        match self.find(&e.device.id) {
            Some(j) => {
                self.entries.set(j, e);
            },
            None => {
                self.entries.push(e);
            },
        }
        assert(self@.entries =~= upsert(old(self)@.entries, entry_view(e)));
    }

    /// Configures `devices` in order, each with the tags of `tags` that
    /// belong to it, replacing any earlier configuration of the same device.
    pub fn set_devices(&mut self, devices: Vec<Device>, tags: Vec<Tag>)
        ensures
            final(self)@ == (RuntimeView { entries: configured(old(self)@.entries, devices@, tags@), ..old(self)@ }),
    {
        let n = devices.len();
        let mut i: usize = 0;
        while i < n
            invariant
                n == devices@.len(),
                0 <= i <= n,
                self@ == (RuntimeView { entries: configured(old(self)@.entries, devices@.take(i as int), tags@), ..old(self)@ }),
            decreases n - i,
        {
            assert(devices@.take(i + 1).drop_last() =~= devices@.take(i as int));
            assert(devices@.take(i + 1).last() == devices@[i as int]);
            let d = devices[i].clone();
            let t = select_tags(&tags, &d.id);
            self.upsert_entry(DeviceEntry { device: d, tags: t });
            i += 1;
        }
        assert(devices@.take(n as int) =~= devices@);
    }

    /// Marks the runtime running and launches a poll loop for each configured
    /// device, in order, that passes `filter` (when one is given), is enabled
    /// and has none yet; returns those devices with their tags.
    pub fn start(&mut self, filter: Option<Vec<DeviceId>>) -> (r: Vec<DeviceEntry>)
        ensures
            ({
                let (a, l) = start_fold(old(self)@.entries, filter_view(filter), old(self)@.active);
                &&& final(self)@ == (RuntimeView { running: true, active: a, ..old(self)@ })
                &&& r@.map_values(|e: DeviceEntry| entry_view(e)) == l
            }),
    {
        let ghost fv = filter_view(filter);
        self.running = true;
        let mut launched: Vec<DeviceEntry> = Vec::new();
        let n = self.entries.len();
        let mut i: usize = 0;
        while i < n
            invariant
                n == self.entries@.len(),
                0 <= i <= n,
                fv == filter_view(filter),
                self@.entries == old(self)@.entries,
                self@.running,
                (self@.active, launched@.map_values(|e: DeviceEntry| entry_view(e))) == start_fold(
                    self@.entries.take(i as int),
                    fv,
                    old(self)@.active,
                ),
            decreases n - i,
        {
            assert(self@.entries.take(i + 1).drop_last() =~= self@.entries.take(i as int));
            assert(self@.entries.take(i + 1).last() == self@.entries[i as int]);
            let e = &self.entries[i];
            let passes = match &filter {
                Some(f) => ids_contain(f, &e.device.id),
                None => true,
            };
            if passes && e.device.enabled && !ids_contain(&self.active, &e.device.id) {
                let launch = DeviceEntry { device: e.device.clone(), tags: clone_tags(&e.tags) };
                let id = e.device.id.clone();
                let ghost a0 = self.active@;
                let ghost l0 = launched@;
                self.active.push(id);
                launched.push(launch);
                assert(ids_view(self.active@) =~= ids_view(a0).push(self@.entries[i as int].device.id@));
                assert(launched@.map_values(|e: DeviceEntry| entry_view(e)) =~= l0.map_values(
                    |e: DeviceEntry| entry_view(e),
                ).push(self@.entries[i as int]));
            }
            i += 1;
        }
        assert(self@.entries.take(n as int) =~= self@.entries);
        launched
    }

    /// Marks the runtime stopped and returns the devices whose poll loops
    /// must end; none has a poll loop afterwards.
    pub fn stop(&mut self) -> (r: Vec<DeviceId>)
        ensures
            ids_view(r@) == old(self)@.active,
            final(self)@ == (RuntimeView { running: false, active: Seq::empty(), ..old(self)@ }),
    {
        self.running = false;
        let mut stopped: Vec<DeviceId> = Vec::new();
        std::mem::swap(&mut stopped, &mut self.active);
        assert(self@.active =~= Seq::<Seq<char>>::empty());
        stopped
    }

    /// Whether the runtime runs.
    pub fn is_running(&self) -> (r: bool)
        ensures
            r == self@.running,
    {
        self.running
    }

    /// Whether device `id` has a poll loop.
    pub fn has_runner(&self, id: &str) -> (r: bool)
        ensures
            r == names(self@.active, id@),
    {
        ids_contain(&self.active, &String::from_str(id))
    }

    /// Whether the runtime runs, and each configured device, in order, as
    /// online with no errors and no poll yet.
    pub fn status(&self) -> (r: RuntimeStatus)
        ensures
            r.running == self@.running,
            r.devices@.len() == self@.entries.len(),
            forall|i: int|
                0 <= i < r.devices@.len() ==> (#[trigger] r.devices@[i]).device_id == self@.entries[i].device.id
                    && r.devices@[i].online && r.devices@[i].error_count == 0
                    && r.devices@[i].last_error is None && r.devices@[i].last_poll_at_ms is None,
    {
        let mut devices: Vec<DeviceState> = Vec::new();
        let n = self.entries.len();
        let mut i: usize = 0;
        while i < n
            invariant
                n == self.entries@.len(),
                0 <= i <= n,
                devices@.len() == i,
                forall|j: int|
                    0 <= j < i ==> (#[trigger] devices@[j]).device_id == self@.entries[j].device.id
                        && devices@[j].online && devices@[j].error_count == 0
                        && devices@[j].last_error is None && devices@[j].last_poll_at_ms is None,
            decreases n - i,
        {
            devices.push(DeviceState {
                device_id: self.entries[i].device.id.clone(),
                online: true,
                error_count: 0,
                last_error: None,
                last_poll_at_ms: None,
            });
            i += 1;
        }
        RuntimeStatus { running: self.running, devices }
    }
}

} // verus!

verus! {

/// Pause of a device's poll loop after its first failed poll in a row, in
/// milliseconds; each further failure doubles it.
pub const FIRST_BACKOFF_MS: u64 = 1000;

/// Longest pause of a device's poll loop after failed polls, in milliseconds.
pub const MAX_BACKOFF_MS: u64 = 30_000;

/// `FIRST_BACKOFF_MS` doubled `k` times.
pub open spec fn doubled(k: nat) -> nat
    decreases k,
{
    if k == 0 { FIRST_BACKOFF_MS as nat } else { 2 * doubled((k - 1) as nat) }
}

/// The pause after `failures` failed polls in a row: none after a success,
/// then exponentially growing from `FIRST_BACKOFF_MS`, at most `MAX_BACKOFF_MS`.
pub open spec fn backoff_ms(failures: nat) -> nat {
    if failures == 0 {
        0
    } else if doubled((failures - 1) as nat) < MAX_BACKOFF_MS {
        doubled((failures - 1) as nat)
    } else {
        MAX_BACKOFF_MS as nat
    }
}

proof fn lemma_doubled_grows(j: nat, k: nat)
    requires
        j <= k,
    ensures
        doubled(j) <= doubled(k),
    decreases k,
{
    if j < k {
        lemma_doubled_grows(j, (k - 1) as nat);
    }
}

/// The pause after `failures` failed polls in a row.
pub fn backoff_after(failures: u32) -> (r: u64)
    ensures
        r == backoff_ms(failures as nat),
{
    if failures == 0 {
        return 0;
    }
    let mut d: u64 = FIRST_BACKOFF_MS;
    let mut k: u32 = 0;
    while k < failures - 1 && d < MAX_BACKOFF_MS
        invariant
            0 < failures,
            k <= failures - 1,
            d == (if doubled(k as nat) < MAX_BACKOFF_MS { doubled(k as nat) } else { MAX_BACKOFF_MS as nat }),
        decreases failures - 1 - k,
    {
        d = if 2 * d < MAX_BACKOFF_MS { 2 * d } else { MAX_BACKOFF_MS };
        k += 1;
    }
    proof {
        if d == MAX_BACKOFF_MS {
            lemma_doubled_grows(k as nat, (failures - 1) as nat);
        }
    }
    d
}

/// Each further failure doubles the pause, up to `MAX_BACKOFF_MS`: the pause
/// after `failures + 1` failures is twice the pause after `failures`, capped.
pub proof fn lemma_backoff_doubles(failures: nat)
    requires
        failures >= 1,
    ensures
        backoff_ms(failures + 1) == (if 2 * backoff_ms(failures) < MAX_BACKOFF_MS {
            2 * backoff_ms(failures)
        } else {
            MAX_BACKOFF_MS as nat
        }),
{
    let k = (failures - 1) as nat;
    assert(doubled(k + 1) == 2 * doubled(k));
}

/// Pauses after failures never exceed `MAX_BACKOFF_MS`, start at
/// `FIRST_BACKOFF_MS`, and never shrink as failures go on.
pub proof fn lemma_backoff_bounded(failures: nat, more: nat)
    requires
        failures <= more,
    ensures
        backoff_ms(failures) <= MAX_BACKOFF_MS,
        backoff_ms(1) == FIRST_BACKOFF_MS,
        backoff_ms(failures) <= backoff_ms(more),
{
    if failures > 0 {
        lemma_doubled_grows((failures - 1) as nat, (more - 1) as nat);
    }
}

/// The enabled tags of `tags`, in order.
pub open spec fn enabled_tags(tags: Seq<Tag>) -> Seq<Tag>
    decreases tags.len(),
{
    if tags.len() == 0 {
        tags
    } else {
        let r = enabled_tags(tags.drop_last());
        if tags.last().enabled { r.push(tags.last()) } else { r }
    }
}

/// A poll asks for exactly the enabled tags, in their order: none dropped,
/// none added.
pub proof fn lemma_enabled_tags_selects(tags: Seq<Tag>)
    ensures
        enabled_tags(tags) == tags.filter(|t: Tag| t.enabled),
    decreases tags.len(),
{
    reveal(Seq::filter);
    if tags.len() > 0 {
        lemma_enabled_tags_selects(tags.drop_last());
    }
}

/// What one round of a device's poll loop asks of its source: a poll of its
/// enabled tags, or nothing when none is enabled.
pub fn poll_request(tags: &Vec<Tag>) -> (r: Option<PollRequest>)
    ensures
        enabled_tags(tags@).len() == 0 ==> r is None,
        enabled_tags(tags@).len() > 0 ==> (r matches Some(req) && req.tags@ == enabled_tags(tags@)),
{
    let mut active: Vec<Tag> = Vec::new();
    let n = tags.len();
    let mut i: usize = 0;
    while i < n
        invariant
            n == tags@.len(),
            0 <= i <= n,
            active@ == enabled_tags(tags@.take(i as int)),
        decreases n - i,
    {
        assert(tags@.take(i + 1).drop_last() =~= tags@.take(i as int));
        assert(tags@.take(i + 1).last() == tags@[i as int]);
        if tags[i].enabled {
            active.push(tags[i].clone());
        }
        i += 1;
    }
    assert(tags@.take(n as int) =~= tags@);
    if active.len() == 0 {
        None
    } else {
        Some(PollRequest { tags: active })
    }
}

/// What a device's poll loop does with the outcome of a poll: the events it
/// publishes, in order, how long it pauses before the next round, and how
/// many polls in a row have failed.
#[derive(Debug)]
pub struct PollRound {
    pub events: Vec<Event>,
    pub back_off_ms: u64,
    pub failures: u32,
    /// The status handed to the hooks after the round: success, or the text
    /// of the poll's error.
    pub hook_status: Result<(), String>,
}

/// The round after a poll of device `device_id` that followed `failures`
/// failed polls in a row: on success the samples and "online", at once, and
/// the failures forgotten; on failure the error's text and "offline", then
/// the pause for one more failure. The hooks are told the poll's status.
pub fn poll_round(device_id: &DeviceId, failures: u32, outcome: Result<Vec<Sample>, SourceError>) -> (r: PollRound)
    ensures
        outcome is Ok ==> r.hook_status is Ok,
        outcome matches Err(e) ==> (r.hook_status matches Err(m) && m@ == e.text()),
        outcome matches Ok(samples) ==> r.events@ == seq![
            Event::PollSucceeded(*device_id, samples),
            Event::ConnectionStateChanged(*device_id, true),
        ] && r.back_off_ms == 0 && r.failures == 0,
        outcome matches Err(e) ==> r.events@.len() == 2 && (r.events@[0] matches Event::PollFailed(id, m) && id
            == *device_id && m@ == e.text()) && r.events@[1] == Event::ConnectionStateChanged(*device_id, false)
            && r.failures == (if failures < u32::MAX { failures + 1 } else { failures as int })
            && r.back_off_ms == backoff_ms(r.failures as nat),
{
    match outcome {
        Ok(samples) => {
            let events = vec![
                Event::PollSucceeded(device_id.clone(), samples),
                Event::ConnectionStateChanged(device_id.clone(), true),
            ];
            PollRound { events, back_off_ms: 0, failures: 0, hook_status: Ok(()) }
        },
        Err(e) => {
            let events = vec![
                Event::PollFailed(device_id.clone(), e.message()),
                Event::ConnectionStateChanged(device_id.clone(), false),
            ];
            let failures = failures.saturating_add(1);
            PollRound { events, back_off_ms: backoff_after(failures), failures, hook_status: Err(e.message()) }
        },
    }
}

proof fn lemma_start_fold_grows(entries: Seq<EntryView>, filter: Option<Seq<Seq<char>>>, active: Seq<Seq<char>>)
    ensures
        ({
            let (a, l) = start_fold(entries, filter, active);
            &&& a.len() >= active.len()
            &&& a.take(active.len() as int) == active
            &&& forall|k: int| 0 <= k < l.len() ==> names(a, #[trigger] l[k].device.id@)
            &&& forall|k: int| 0 <= k < l.len() ==> selected(#[trigger] l[k], filter, active)
            &&& forall|k: int| 0 <= k < entries.len() ==> !selected(#[trigger] entries[k], filter, a)
        }),
    decreases entries.len(),
{
    if entries.len() > 0 {
        let p = entries.drop_last();
        lemma_start_fold_grows(p, filter, active);
        let (a0, l0) = start_fold(p, filter, active);
        let (a, l) = start_fold(entries, filter, active);
        let e = entries.last();
        if selected(e, filter, a0) {
            assert(a == a0.push(e.device.id@));
            assert(a.take(active.len() as int) =~= a0.take(active.len() as int));
            assert forall|k: int| 0 <= k < l.len() implies names(a, #[trigger] l[k].device.id@) by {
                if k < l0.len() {
                    assert(l[k] == l0[k]);
                    let i = choose|i: int| 0 <= i < a0.len() && a0[i] == l0[k].device.id@;
                    assert(a[i] == a0[i]);
                } else {
                    assert(a[a.len() - 1] == e.device.id@);
                }
            }
            assert forall|k: int| 0 <= k < l.len() implies selected(#[trigger] l[k], filter, active) by {
                if k < l0.len() {
                    assert(l[k] == l0[k]);
                } else {
                    assert(l[k] == e);
                    if names(active, e.device.id@) {
                        let i = choose|i: int| 0 <= i < active.len() && active[i] == e.device.id@;
                        assert(a0[i] == active[i]);
                    }
                }
            }
        }
        assert forall|k: int| 0 <= k < entries.len() implies !selected(#[trigger] entries[k], filter, a) by {
            let x = entries[k];
            if k < p.len() {
                assert(p[k] == x);
                assert(!selected(p[k], filter, a0));
                if names(a0, x.device.id@) {
                    let i = choose|i: int| 0 <= i < a0.len() && a0[i] == x.device.id@;
                    assert(a[i] == a0[i]);
                }
            } else {
                assert(x == e);
                if selected(e, filter, a0) {
                    assert(a[a.len() - 1] == e.device.id@);
                }
            }
        }
    }
}

proof fn lemma_start_fold_none(entries: Seq<EntryView>, filter: Option<Seq<Seq<char>>>, active: Seq<Seq<char>>)
    requires
        forall|k: int| 0 <= k < entries.len() ==> !selected(#[trigger] entries[k], filter, active),
    ensures
        start_fold(entries, filter, active) == (active, Seq::<EntryView>::empty()),
    decreases entries.len(),
{
    if entries.len() > 0 {
        let p = entries.drop_last();
        assert forall|k: int| 0 <= k < p.len() implies !selected(#[trigger] p[k], filter, active) by {
            assert(p[k] == entries[k]);
        }
        lemma_start_fold_none(p, filter, active);
        assert(entries[entries.len() - 1] == entries.last());
    }
}

/// A start launches only devices that pass the filter, are enabled and had
/// no poll loop, and leaves every launched device with one.
pub proof fn lemma_start_selects(entries: Seq<EntryView>, filter: Option<Seq<Seq<char>>>, active: Seq<Seq<char>>)
    ensures
        ({
            let (a, l) = start_fold(entries, filter, active);
            forall|k: int| 0 <= k < l.len() ==> {
                &&& (#[trigger] l[k]).device.enabled
                &&& (filter matches Some(f) ==> names(f, l[k].device.id@))
                &&& !names(active, l[k].device.id@)
                &&& names(a, l[k].device.id@)
            }
        }),
{
    lemma_start_fold_grows(entries, filter, active);
}

/// Starting again with the same filter launches nothing more.
pub proof fn lemma_start_idempotent(entries: Seq<EntryView>, filter: Option<Seq<Seq<char>>>, active: Seq<Seq<char>>)
    ensures
        ({
            let a = start_fold(entries, filter, active).0;
            start_fold(entries, filter, a) == (a, Seq::<EntryView>::empty())
        }),
{
    lemma_start_fold_grows(entries, filter, active);
    lemma_start_fold_none(entries, filter, start_fold(entries, filter, active).0);
}

proof fn lemma_index_of(entries: Seq<EntryView>, id: Seq<char>)
    ensures
        -1 <= index_of(entries, id) < entries.len(),
        index_of(entries, id) >= 0 ==> entries[index_of(entries, id)].device.id@ == id,
        forall|k: int| index_of(entries, id) < k < entries.len() ==> (#[trigger] entries[k]).device.id@ != id,
    decreases entries.len(),
{
    if entries.len() > 0 {
        let p = entries.drop_last();
        lemma_index_of(p, id);
        if entries.last().device.id@ != id {
            assert forall|k: int| index_of(entries, id) < k < entries.len() implies (#[trigger] entries[k]).device.id@ != id by {
                if k < p.len() {
                    assert(entries[k] == p[k]);
                }
            }
        }
    }
}

proof fn lemma_index_of_same_ids(s: Seq<EntryView>, t: Seq<EntryView>, id: Seq<char>)
    requires
        s.len() == t.len(),
        forall|k: int| 0 <= k < s.len() ==> (#[trigger] s[k]).device.id@ == t[k].device.id@,
    ensures
        index_of(s, id) == index_of(t, id),
    decreases s.len(),
{
    if s.len() > 0 {
        let (ps, pt) = (s.drop_last(), t.drop_last());
        assert forall|k: int| 0 <= k < ps.len() implies (#[trigger] ps[k]).device.id@ == pt[k].device.id@ by {
            assert(ps[k] == s[k] && pt[k] == t[k]);
        }
        lemma_index_of_same_ids(ps, pt, id);
        assert(s[s.len() - 1] == s.last() && t[t.len() - 1] == t.last());
    }
}

/// After configuring `e`, its device's entry is `e`.
pub proof fn lemma_upsert_lookup(entries: Seq<EntryView>, e: EntryView)
    ensures
        ({
            let r = upsert(entries, e);
            let j = index_of(r, e.device.id@);
            0 <= j < r.len() && r[j] == e
        }),
{
    lemma_index_of(entries, e.device.id@);
    let j = index_of(entries, e.device.id@);
    let r = upsert(entries, e);
    if j >= 0 {
        lemma_index_of_same_ids(entries, r, e.device.id@);
    } else {
        assert(r.drop_last() == entries);
    }
}

/// Configuring `e` leaves the entry of every other device as it was.
pub proof fn lemma_upsert_frame(entries: Seq<EntryView>, e: EntryView, id: Seq<char>)
    requires
        id != e.device.id@,
    ensures
        ({
            let r = upsert(entries, e);
            &&& index_of(r, id) >= 0 <==> index_of(entries, id) >= 0
            &&& index_of(entries, id) >= 0 ==> r[index_of(r, id)] == entries[index_of(entries, id)]
        }),
{
    lemma_index_of(entries, e.device.id@);
    lemma_index_of(entries, id);
    let j = index_of(entries, e.device.id@);
    let r = upsert(entries, e);
    if j >= 0 {
        lemma_index_of_same_ids(entries, r, id);
    } else {
        assert(r.drop_last() == entries);
        assert(r.last().device.id@ != id);
    }
}

/// Configuring devices gives each configured device its own tags: the last
/// device configured is found with exactly the tags that name it.
pub proof fn lemma_configured_last(entries: Seq<EntryView>, ds: Seq<Device>, tags: Seq<Tag>)
    requires
        ds.len() > 0,
    ensures
        ({
            let c = configured(entries, ds, tags);
            let j = index_of(c, ds.last().id@);
            0 <= j < c.len() && c[j] == (EntryView { device: ds.last(), tags: tags_of(tags, ds.last().id@) })
        }),
{
    lemma_upsert_lookup(
        configured(entries, ds.drop_last(), tags),
        EntryView { device: ds.last(), tags: tags_of(tags, ds.last().id@) },
    );
}

} // verus!

verus! {

/// Whether a start with `filter` asks for a poll loop for `e`: the device is
/// enabled and passes the filter (when one is given).
pub open spec fn eligible(e: EntryView, filter: Option<Seq<Seq<char>>>) -> bool {
    &&& e.device.enabled
    &&& match filter {
        Some(f) => names(f, e.device.id@),
        None => true,
    }
}

proof fn lemma_start_fold_shape(entries: Seq<EntryView>, filter: Option<Seq<Seq<char>>>, active: Seq<Seq<char>>)
    ensures
        ({
            let (a, l) = start_fold(entries, filter, active);
            &&& a == active + l.map_values(|e: EntryView| e.device.id@)
            &&& forall|k: int| 0 <= k < l.len() ==> entries.contains(#[trigger] l[k])
        }),
    decreases entries.len(),
{
    if entries.len() > 0 {
        let p = entries.drop_last();
        lemma_start_fold_shape(p, filter, active);
        let (a0, l0) = start_fold(p, filter, active);
        let (a, l) = start_fold(entries, filter, active);
        let e = entries.last();
        assert(entries[entries.len() - 1] == e);
        if selected(e, filter, a0) {
            assert(l.map_values(|x: EntryView| x.device.id@) =~= l0.map_values(|x: EntryView| x.device.id@).push(
                e.device.id@,
            ));
            assert(a =~= active + l.map_values(|x: EntryView| x.device.id@));
        }
        assert forall|k: int| 0 <= k < l.len() implies entries.contains(#[trigger] l[k]) by {
            if k < l0.len() {
                assert(l[k] == l0[k]);
                assert(p.contains(l0[k]));
                let j = choose|j: int| 0 <= j < p.len() && p[j] == l0[k];
                assert(entries[j] == p[j]);
            } else {
                assert(l[k] == e);
            }
        }
    }
}

/// After a start, exactly these devices have a poll loop: those that had one
/// before, and every configured device that is enabled and passes the filter.
pub proof fn lemma_start_complete(entries: Seq<EntryView>, filter: Option<Seq<Seq<char>>>, active: Seq<Seq<char>>, id: Seq<char>)
    ensures
        names(start_fold(entries, filter, active).0, id) <==> (names(active, id) || exists|k: int|
            0 <= k < entries.len() && eligible(#[trigger] entries[k], filter) && entries[k].device.id@ == id),
{
    lemma_start_fold_grows(entries, filter, active);
    lemma_start_fold_shape(entries, filter, active);
    let (a, l) = start_fold(entries, filter, active);
    let ids = l.map_values(|e: EntryView| e.device.id@);
    if names(a, id) {
        let i = choose|i: int| 0 <= i < a.len() && a[i] == id;
        if i < active.len() {
            assert(active[i] == a[i]);
        } else {
            let k = i - active.len();
            assert(ids[k] == l[k].device.id@);
            assert(selected(l[k], filter, active));
            let j = choose|j: int| 0 <= j < entries.len() && entries[j] == l[k];
            assert(eligible(entries[j], filter));
        }
    }
    if names(active, id) {
        let i = choose|i: int| 0 <= i < active.len() && active[i] == id;
        assert(a[i] == active[i]);
    }
    if exists|k: int| 0 <= k < entries.len() && eligible(#[trigger] entries[k], filter) && entries[k].device.id@ == id {
        let k = choose|k: int| 0 <= k < entries.len() && eligible(#[trigger] entries[k], filter) && entries[k].device.id@ == id;
        assert(!selected(entries[k], filter, a));
    }
}

} // verus!
