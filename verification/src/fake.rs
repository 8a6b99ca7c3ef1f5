use vstd::prelude::*;
use crate::clock::now_unix_millis;
use crate::error::SourceError;
use crate::model::{Device, Quality, Sample, Value};
use crate::source::{PollOutcome, PollRequest, SourceHealth, WriteRequest};

verus! {

/// One simulated register value.
pub struct FakeEntry {
    pub tag_id: String,
    pub value: Value,
}

/// The value that the entries hold for tag `id`: the latest entry for it.
pub open spec fn lookup(s: Seq<FakeEntry>, id: Seq<char>) -> Option<Value>
    decreases s.len(),
{
    if s.len() == 0 {
        None
    } else if s.last().tag_id@ == id {
        Some(s.last().value)
    } else {
        lookup(s.drop_last(), id)
    }
}

/// The entries as a map from tag to value.
pub open spec fn entries_map(s: Seq<FakeEntry>) -> Map<Seq<char>, Value> {
    Map::new(|id: Seq<char>| lookup(s, id) is Some, |id: Seq<char>| lookup(s, id).unwrap())
}

/// `s` without the entries of tag `id`.
pub open spec fn without_entry(s: Seq<FakeEntry>, id: Seq<char>) -> Seq<FakeEntry>
    decreases s.len(),
{
    if s.len() == 0 {
        s
    } else {
        let r = without_entry(s.drop_last(), id);
        if s.last().tag_id@ == id { r } else { r.push(s.last()) }
    }
}

/// What a poll of the simulated device reads for tag `id`: its stored value,
/// or `false` when none was stored.
pub open spec fn fake_value(values: Map<Seq<char>, Value>, id: Seq<char>) -> Value {
    if values.contains_key(id) { values[id] } else { Value::Bool(false) }
}

/// The abstract state of a simulated source.
pub struct FakeView {
    pub device_id: Seq<char>,
    pub values: Map<Seq<char>, Value>,
    pub fail: bool,
}

/// A simulated device: it returns the values stored for its tags, and fails
/// every poll while told to.
pub struct FakeSource {
    device_id: String,
    entries: Vec<FakeEntry>,
    fail: bool,
}

impl View for FakeSource {
    type V = FakeView;

    closed spec fn view(&self) -> FakeView {
        FakeView { device_id: self.device_id@, values: entries_map(self.entries@), fail: self.fail }
    }
}

proof fn lemma_without_entry(s: Seq<FakeEntry>, id: Seq<char>, x: Seq<char>)
    requires
        x != id,
    ensures
        lookup(without_entry(s, id), x) == lookup(s, x),
    decreases s.len(),
{
    if s.len() > 0 {
        lemma_without_entry(s.drop_last(), id, x);
        let r = without_entry(s.drop_last(), id);
        if s.last().tag_id@ != id {
            assert(r.push(s.last()).drop_last() =~= r);
        }
    }
}

impl FakeSource {
    /// A healthy simulated device `device_id` with no stored values.
    pub fn new(device_id: &str) -> (r: FakeSource)
        ensures
            r@.device_id == device_id@,
            r@.values == Map::<Seq<char>, Value>::empty(),
            !r@.fail,
    {
        let r = FakeSource { device_id: String::from_str(device_id), entries: Vec::new(), fail: false };
        assert(r@.values =~= Map::<Seq<char>, Value>::empty());
        r
    }

    /// Opens the simulated device for `spec`; this never fails.
    pub fn open(spec: &Device) -> (r: Result<FakeSource, SourceError>)
        ensures
            r matches Ok(s) && s@.device_id == spec.id@ && s@.values == Map::<Seq<char>, Value>::empty() && !s@.fail,
    {
        let r = FakeSource { device_id: spec.id.clone(), entries: Vec::new(), fail: false };
        assert(r@.values =~= Map::<Seq<char>, Value>::empty());
        Ok(r)
    }

    fn store(&mut self, tag_id: String, value: Value)
        ensures
            final(self)@ == (FakeView { values: old(self)@.values.insert(tag_id@, value), ..old(self)@ }),
    {
        let ghost id = tag_id@;
        let mut kept: Vec<FakeEntry> = Vec::new();
        let n = self.entries.len();
        let mut i: usize = 0;
        while i < n
            invariant
                n == self.entries@.len(),
                0 <= i <= n,
                id == tag_id@,
                self@ == old(self)@,
                kept@ == without_entry(self.entries@.take(i as int), id),
            decreases n - i,
        {
            assert(self.entries@.take(i + 1).drop_last() =~= self.entries@.take(i as int));
            assert(self.entries@.take(i + 1).last() == self.entries@[i as int]);
            if !(self.entries[i].tag_id == tag_id) {
                let e = &self.entries[i];
                kept.push(FakeEntry { tag_id: e.tag_id.clone(), value: e.value });
            }
            i += 1;
        }
        assert(self.entries@.take(n as int) =~= self.entries@);
        let ghost before = self.entries@;
        kept.push(FakeEntry { tag_id, value });
        self.entries = kept;
        assert forall|x: Seq<char>| x != id implies lookup(self.entries@, x) == lookup(before, x) by {
            lemma_without_entry(before, id, x);
            assert(self.entries@.drop_last() =~= without_entry(before, id));
        }
        assert(entries_map(self.entries@) =~= entries_map(before).insert(id, value));
    }

    /// Stores `value` for tag `tag_id`.
    pub fn set_value(&mut self, tag_id: &str, value: Value)
        ensures
            final(self)@ == (FakeView { values: old(self)@.values.insert(tag_id@, value), ..old(self)@ }),
    {
        self.store(String::from_str(tag_id), value);
    }

    /// Makes every later poll fail (`true`) or succeed (`false`).
    pub fn set_fail(&mut self, fail: bool)
        ensures
            final(self)@ == (FakeView { fail, ..old(self)@ }),
    {
        self.fail = fail;
    }

    fn value_of(&self, tag_id: &String) -> (r: Value)
        ensures
            r == fake_value(self@.values, tag_id@),
    {
        let mut i = self.entries.len();
        assert(self.entries@.take(i as int) =~= self.entries@);
        while i > 0
            invariant
                i <= self.entries@.len(),
                lookup(self.entries@, tag_id@) == lookup(self.entries@.take(i as int), tag_id@),
            decreases i,
        {
            assert(self.entries@.take(i as int).drop_last() =~= self.entries@.take(i - 1));
            i -= 1;
            if self.entries[i].tag_id == *tag_id {
                return self.entries[i].value;
            }
        }
        Value::Bool(false)
    }

    /// Reads every requested tag: fails with a communication error while told
    /// to fail, else returns one good sample per tag, in order, holding the
    /// value stored for it (`false` if none), stamped with the current time.
    pub fn poll(&self, req: &PollRequest) -> (r: Result<PollOutcome, SourceError>)
        ensures
            self@.fail ==> (r matches Err(SourceError::Comm(m)) && m@ == "simulated"@),
            !self@.fail ==> (r matches Ok(o) && o.device_id@ == self@.device_id && o.samples@.len()
                == req.tags@.len() && forall|i: int|
                0 <= i < req.tags@.len() ==> (#[trigger] o.samples@[i]).tag_id == req.tags@[i].id
                    && o.samples@[i].value == fake_value(self@.values, req.tags@[i].id@)
                    && o.samples@[i].quality == Quality::Good),
    {
        if self.fail {
            return Err(SourceError::Comm(String::from_str("simulated")));
        }
        let mut samples: Vec<Sample> = Vec::new();
        let n = req.tags.len();
        let mut i: usize = 0;
        while i < n
            invariant
                n == req.tags@.len(),
                0 <= i <= n,
                samples@.len() == i,
                forall|j: int|
                    0 <= j < i ==> (#[trigger] samples@[j]).tag_id == req.tags@[j].id
                        && samples@[j].value == fake_value(self@.values, req.tags@[j].id@)
                        && samples@[j].quality == Quality::Good,
            decreases n - i,
        {
            let t = &req.tags[i];
            samples.push(Sample {
                tag_id: t.id.clone(),
                ts_ms: now_unix_millis(),
                value: self.value_of(&t.id),
                quality: Quality::Good,
            });
            i += 1;
        }
        Ok(PollOutcome { samples, device_id: self.device_id.clone() })
    }

    /// Stores the requested value for the tag; this never fails.
    pub fn write(&mut self, req: &WriteRequest) -> (r: Result<(), SourceError>)
        ensures
            r is Ok,
            final(self)@ == (FakeView { values: old(self)@.values.insert(req.tag.id@, req.value), ..old(self)@ }),
    {
        self.store(req.tag.id.clone(), req.value);
        Ok(())
    }

    /// Disconnected (reason `simulated`) while told to fail, else connected.
    pub fn health(&self) -> (r: SourceHealth)
        ensures
            self@.fail ==> (r matches SourceHealth::Disconnected { reason } && reason@ == "simulated"@),
            !self@.fail ==> r is Connected,
    {
        if self.fail {
            SourceHealth::Disconnected { reason: String::from_str("simulated") }
        } else {
            SourceHealth::Connected
        }
    }
}

/// A poll reads back what was last written to a tag.
pub proof fn lemma_read_after_write(values: Map<Seq<char>, Value>, id: Seq<char>, v: Value)
    ensures
        fake_value(values.insert(id, v), id) == v,
{
}

/// Writing one tag leaves what a poll reads for every other tag unchanged.
pub proof fn lemma_write_isolated(values: Map<Seq<char>, Value>, id: Seq<char>, v: Value, other: Seq<char>)
    requires
        other != id,
    ensures
        fake_value(values.insert(id, v), other) == fake_value(values, other),
{
}

} // verus!
