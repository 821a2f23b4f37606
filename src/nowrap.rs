use vstd::prelude::*;

use crate::counters::{
    field, is_field_sum, n_fields, sum_counters, sum_field, sums_fit, DiskIOCounters,
    COUNTER_WRAP,
};
use crate::error::{DiskError, DiskErrorView};
use crate::stats::{
    counters_only, index_from, named_views, option_views, per_disk_counters, per_disk_records,
    NamedCounters,
};
use crate::text::bytes_eq;

verus! {

/// How far one counter travelled between two polls, from its raw value at the
/// previous poll and its raw value now. A decrease means the 32-bit counter
/// wrapped: it travelled to the wrap point and on to its new value. A decrease
/// larger than the counter's whole range cannot be a wrap: the counter started
/// again from zero and travelled to its new value.
pub open spec fn wrap_delta(last: u64, raw: u64) -> nat {
    if raw >= last {
        (raw - last) as nat
    } else if last - raw <= COUNTER_WRAP {
        (raw + COUNTER_WRAP - last) as nat
    } else {
        raw as nat
    }
}

/// The value reported for one counter: the value reported at the previous poll
/// plus the distance travelled since.
pub open spec fn advance_field(prev: u64, last: u64, raw: u64) -> u64 {
    (prev + wrap_delta(last, raw)) as u64
}

/// Every counter of `prev` advanced by what it travelled from `last` to `raw`
/// fits in a `u64`.
pub open spec fn advance_fits(prev: DiskIOCounters, last: DiskIOCounters, raw: DiskIOCounters) -> bool {
    forall|k: int|
        0 <= k < n_fields() ==> field(prev, k) + wrap_delta(field(last, k), field(raw, k))
            <= u64::MAX
}

/// Every counter of `prev` advanced by what it travelled from `last` to `raw`.
pub open spec fn advanced(prev: DiskIOCounters, last: DiskIOCounters, raw: DiskIOCounters) -> DiskIOCounters {
    DiskIOCounters {
        read_count: advance_field(prev.read_count, last.read_count, raw.read_count),
        write_count: advance_field(prev.write_count, last.write_count, raw.write_count),
        read_bytes: advance_field(prev.read_bytes, last.read_bytes, raw.read_bytes),
        write_bytes: advance_field(prev.write_bytes, last.write_bytes, raw.write_bytes),
        read_time: advance_field(prev.read_time, last.read_time, raw.read_time),
        write_time: advance_field(prev.write_time, last.write_time, raw.write_time),
        read_merged_count: advance_field(prev.read_merged_count, last.read_merged_count, raw.read_merged_count),
        write_merged_count: advance_field(prev.write_merged_count, last.write_merged_count, raw.write_merged_count),
        busy_time: advance_field(prev.busy_time, last.busy_time, raw.busy_time),
    }
}

/// The device names of a poll.
pub open spec fn names_of(s: Seq<(Seq<u8>, DiskIOCounters)>) -> Seq<Seq<u8>> {
    s.map_values(|x: (Seq<u8>, DiskIOCounters)| x.0)
}

/// The counters reported for one device: those it reported at the previous
/// poll, advanced by what its raw counters travelled since, the device found
/// by name; its raw counters when it is new. `None` when a counter would not
/// fit in a `u64`. `prev[j]` is what was reported for the device whose raw
/// counters are `past[j]`.
pub open spec fn correct_one(
    past: Seq<(Seq<u8>, DiskIOCounters)>,
    prev: Seq<DiskIOCounters>,
    x: (Seq<u8>, DiskIOCounters),
) -> Option<DiskIOCounters> {
    let j = index_from(names_of(past), x.0, 0);
    if j < past.len() && j < prev.len() {
        if advance_fits(prev[j], past[j].1, x.1) {
            Some(advanced(prev[j], past[j].1, x.1))
        } else {
            None
        }
    } else {
        Some(x.1)
    }
}

/// The counters reported for every device of a poll, in its order; `None`
/// when one of them would not fit.
pub open spec fn correct_all(
    past: Seq<(Seq<u8>, DiskIOCounters)>,
    prev: Seq<DiskIOCounters>,
    now: Seq<(Seq<u8>, DiskIOCounters)>,
) -> Option<Seq<DiskIOCounters>> {
    if forall|i: int| 0 <= i < now.len() ==> (#[trigger] correct_one(past, prev, now[i])) is Some {
        Some(Seq::new(now.len(), |i: int| correct_one(past, prev, now[i])->Some_0))
    } else {
        None
    }
}

/// The state of an accumulator.
pub struct AccumulatorView {
    /// A poll has been made since creation or the last reset
    pub initialized: bool,
    /// The counters that the last poll reported, corrected
    pub current: Seq<DiskIOCounters>,
    /// The raw counters of the last poll, by device name
    pub last_raw: Seq<(Seq<u8>, DiskIOCounters)>,
}

impl AccumulatorView {
    /// `current` and `last_raw` describe the same devices; both are empty
    /// before the first poll.
    pub open spec fn wf(self) -> bool {
        &&& self.current.len() == self.last_raw.len()
        &&& !self.initialized ==> self.last_raw.len() == 0
    }
}

/// The state of a new or reset accumulator.
pub open spec fn fresh_state() -> AccumulatorView {
    AccumulatorView { initialized: false, current: Seq::empty(), last_raw: Seq::empty() }
}

/// What a poll reports and the state it leaves, from the state before it and
/// the raw per-device counters just read; `None` when a corrected counter
/// would not fit in a `u64`. In raw mode the state is not used. The first poll
/// in nowrap mode reports the raw counters; later ones advance what the
/// previous poll reported by what each counter travelled since.
pub open spec fn poll_outcome(
    s: AccumulatorView,
    nowrap: bool,
    raw: Seq<(Seq<u8>, DiskIOCounters)>,
) -> Option<(Seq<DiskIOCounters>, AccumulatorView)> {
    if !nowrap {
        Some((counters_only(raw), s))
    } else if !s.initialized {
        Some(
            (
                counters_only(raw),
                AccumulatorView { initialized: true, current: counters_only(raw), last_raw: raw },
            ),
        )
    } else {
        match correct_all(s.last_raw, s.current, raw) {
            None => None,
            Some(c) => Some((c, AccumulatorView { initialized: true, current: c, last_raw: raw })),
        }
    }
}

/// A nowrap poll made after a reset reports the raw counters unchanged and
/// leaves the accumulator initialized with that poll as its only history, just
/// as the first poll of a new accumulator does.
pub proof fn lemma_reset_then_poll(raw: Seq<(Seq<u8>, DiskIOCounters)>)
    ensures
        poll_outcome(fresh_state(), true, raw) == Some(
            (
                counters_only(raw),
                AccumulatorView { initialized: true, current: counters_only(raw), last_raw: raw },
            ),
        ),
        poll_outcome(fresh_state(), true, raw)->Some_0.1.wf(),
{
}

/// Polls never leave an accumulator in a state where `current` and
/// `last_raw` describe different devices.
pub proof fn lemma_poll_keeps_wf(
    s: AccumulatorView,
    nowrap: bool,
    raw: Seq<(Seq<u8>, DiskIOCounters)>,
)
    requires
        s.wf(),
        poll_outcome(s, nowrap, raw) is Some,
    ensures
        poll_outcome(s, nowrap, raw)->Some_0.1.wf(),
{
}

/// The first occurrence found from `m` is at `j` when no earlier one exists.
proof fn lemma_index_from_first(names: Seq<Seq<u8>>, name: Seq<u8>, m: int, j: int)
    requires
        0 <= m <= j < names.len(),
        names[j] == name,
        forall|x: int| 0 <= x < j ==> names[x] != name,
    ensures
        index_from(names, name, m) == j,
    decreases j - m,
{
    if m < j {
        lemma_index_from_first(names, name, m + 1, j);
    }
}

/// In nowrap mode, no counter of a device that the previous poll also saw
/// decreases: each reported counter is at least what the previous poll
/// reported for the same device, found by name.
pub proof fn lemma_nowrap_never_decreases(
    s: AccumulatorView,
    raw: Seq<(Seq<u8>, DiskIOCounters)>,
    i: int,
    j: int,
    k: int,
)
    requires
        s.wf(),
        s.initialized,
        poll_outcome(s, true, raw) is Some,
        0 <= i < raw.len(),
        0 <= j < s.last_raw.len(),
        s.last_raw[j].0 == raw[i].0,
        forall|m: int| 0 <= m < j ==> s.last_raw[m].0 != raw[i].0,
        0 <= k < n_fields(),
    ensures
        field(poll_outcome(s, true, raw)->Some_0.0[i], k) == field(s.current[j], k)
            + wrap_delta(field(s.last_raw[j].1, k), field(raw[i].1, k)),
        field(poll_outcome(s, true, raw)->Some_0.0[i], k) >= field(s.current[j], k),
{
    let names = names_of(s.last_raw);
    lemma_index_from_first(names, raw[i].0, 0, j);
    assert(correct_one(s.last_raw, s.current, raw[i]) is Some);
}

/// The device names of `s` are distinct.
pub open spec fn distinct_names(s: Seq<(Seq<u8>, DiskIOCounters)>) -> bool {
    forall|a: int, b: int| 0 <= a < b < s.len() ==> s[a].0 != s[b].0
}

/// When a nowrap poll sees the same devices, with distinct names, in the same
/// order as the previous one, no reported counter of any device is below what
/// the previous poll reported for it.
pub proof fn lemma_same_devices_never_decrease(s: AccumulatorView, raw: Seq<(Seq<u8>, DiskIOCounters)>)
    requires
        s.wf(),
        s.initialized,
        poll_outcome(s, true, raw) is Some,
        names_of(raw) == names_of(s.last_raw),
        distinct_names(raw),
    ensures
        poll_outcome(s, true, raw)->Some_0.0.len() == s.current.len(),
        forall|i: int, k: int|
            0 <= i < s.current.len() && 0 <= k < n_fields() ==> field(
                s.current[i],
                k,
            ) <= #[trigger] field(poll_outcome(s, true, raw)->Some_0.0[i], k),
{
    assert(raw.len() == names_of(raw).len());
    assert forall|i: int, k: int|
        0 <= i < s.current.len() && 0 <= k < n_fields() implies field(s.current[i], k) <= #[trigger] field(
        poll_outcome(s, true, raw)->Some_0.0[i],
        k,
    ) by {
        assert(s.last_raw[i].0 == names_of(s.last_raw)[i]);
        assert(raw[i].0 == names_of(raw)[i]);
        assert forall|m: int| 0 <= m < i implies s.last_raw[m].0 != raw[i].0 by {
            assert(s.last_raw[m].0 == names_of(raw)[m]);
        }
        lemma_nowrap_never_decreases(s, raw, i, i, k);
    }
}

/// The same, of the system-wide total: when a nowrap poll sees the same
/// devices in the same order as the previous one, the field-wise sum of what
/// it reports is at least the field-wise sum of what the previous poll
/// reported.
pub proof fn lemma_total_never_decreases(
    s: AccumulatorView,
    raw: Seq<(Seq<u8>, DiskIOCounters)>,
    before: DiskIOCounters,
    after: DiskIOCounters,
)
    requires
        s.wf(),
        s.initialized,
        poll_outcome(s, true, raw) is Some,
        names_of(raw) == names_of(s.last_raw),
        distinct_names(raw),
        is_field_sum(before, s.current),
        is_field_sum(after, poll_outcome(s, true, raw)->Some_0.0),
    ensures
        forall|k: int| 0 <= k < n_fields() ==> field(before, k) <= #[trigger] field(after, k),
{
    lemma_same_devices_never_decrease(s, raw);
    let out = poll_outcome(s, true, raw)->Some_0.0;
    assert forall|k: int| 0 <= k < n_fields() implies field(before, k) <= #[trigger] field(
        after,
        k,
    ) by {
        lemma_sum_field_le(s.current, out, k);
    }
}

/// A field-wise sum over records that are each no larger is no larger.
proof fn lemma_sum_field_le(a: Seq<DiskIOCounters>, b: Seq<DiskIOCounters>, k: int)
    requires
        a.len() == b.len(),
        forall|i: int| 0 <= i < a.len() ==> field(a[i], k) <= #[trigger] field(b[i], k),
    ensures
        sum_field(a, k) <= sum_field(b, k),
    decreases a.len(),
{
    if a.len() > 0 {
        let n = a.len() - 1;
        assert(field(a[n], k) <= field(b[n], k));
        assert forall|i: int| 0 <= i < a.drop_last().len() implies field(a.drop_last()[i], k)
            <= #[trigger] field(b.drop_last()[i], k) by {
            assert(field(a[i], k) <= field(b[i], k));
        }
        lemma_sum_field_le(a.drop_last(), b.drop_last(), k);
    }
}

/// How far one counter travelled from `last` to `raw`.
fn delta_value(last: u64, raw: u64) -> (r: u64)
    ensures
        r == wrap_delta(last, raw),
{
    if raw >= last {
        raw - last
    } else if last - raw <= COUNTER_WRAP {
        COUNTER_WRAP - (last - raw)
    } else {
        raw
    }
}

/// Every counter of `prev` advanced by what it travelled from `last` to
/// `raw`, or `None` when one would not fit in a `u64`.
pub fn advance_counters(prev: &DiskIOCounters, last: &DiskIOCounters, raw: &DiskIOCounters) -> (r: Option<DiskIOCounters>)
    ensures
        advance_fits(*prev, *last, *raw) <==> r is Some,
        r matches Some(c) ==> c == advanced(*prev, *last, *raw),
{
    let d = delta_value(last.read_count, raw.read_count);
    if prev.read_count > u64::MAX - d {
        assert(field(*prev, 0) + wrap_delta(field(*last, 0), field(*raw, 0)) > u64::MAX);
        return None;
    }
    let read_count = prev.read_count + d;
    let d = delta_value(last.write_count, raw.write_count);
    if prev.write_count > u64::MAX - d {
        assert(field(*prev, 1) + wrap_delta(field(*last, 1), field(*raw, 1)) > u64::MAX);
        return None;
    }
    let write_count = prev.write_count + d;
    let d = delta_value(last.read_bytes, raw.read_bytes);
    if prev.read_bytes > u64::MAX - d {
        assert(field(*prev, 2) + wrap_delta(field(*last, 2), field(*raw, 2)) > u64::MAX);
        return None;
    }
    let read_bytes = prev.read_bytes + d;
    let d = delta_value(last.write_bytes, raw.write_bytes);
    if prev.write_bytes > u64::MAX - d {
        assert(field(*prev, 3) + wrap_delta(field(*last, 3), field(*raw, 3)) > u64::MAX);
        return None;
    }
    let write_bytes = prev.write_bytes + d;
    let d = delta_value(last.read_time, raw.read_time);
    if prev.read_time > u64::MAX - d {
        assert(field(*prev, 4) + wrap_delta(field(*last, 4), field(*raw, 4)) > u64::MAX);
        return None;
    }
    let read_time = prev.read_time + d;
    let d = delta_value(last.write_time, raw.write_time);
    if prev.write_time > u64::MAX - d {
        assert(field(*prev, 5) + wrap_delta(field(*last, 5), field(*raw, 5)) > u64::MAX);
        return None;
    }
    let write_time = prev.write_time + d;
    let d = delta_value(last.read_merged_count, raw.read_merged_count);
    if prev.read_merged_count > u64::MAX - d {
        assert(field(*prev, 6) + wrap_delta(field(*last, 6), field(*raw, 6)) > u64::MAX);
        return None;
    }
    let read_merged_count = prev.read_merged_count + d;
    let d = delta_value(last.write_merged_count, raw.write_merged_count);
    if prev.write_merged_count > u64::MAX - d {
        assert(field(*prev, 7) + wrap_delta(field(*last, 7), field(*raw, 7)) > u64::MAX);
        return None;
    }
    let write_merged_count = prev.write_merged_count + d;
    let d = delta_value(last.busy_time, raw.busy_time);
    if prev.busy_time > u64::MAX - d {
        assert(field(*prev, 8) + wrap_delta(field(*last, 8), field(*raw, 8)) > u64::MAX);
        return None;
    }
    let busy_time = prev.busy_time + d;
    Some(
        DiskIOCounters {
            read_count,
            write_count,
            read_bytes,
            write_bytes,
            read_time,
            write_time,
            read_merged_count,
            write_merged_count,
            busy_time,
        },
    )
}

/// The counters to report for each device of `current`: those reported at the
/// previous poll (`past_reported[j]` for the device whose raw counters were
/// `past[j]`), advanced by what its raw counters travelled since, the device
/// matched by name; a device absent from `past` reports its raw counters.
/// `None` when a counter would not fit in a `u64`.
pub fn total_disk_io_counters(
    past: &Vec<NamedCounters>,
    past_reported: &Vec<DiskIOCounters>,
    current: &Vec<NamedCounters>,
) -> (r: Option<Vec<DiskIOCounters>>)
    ensures
        match correct_all(named_views(past@), past_reported@, named_views(current@)) {
            None => r is None,
            Some(c) => r matches Some(v) && v@ == c,
        },
{
    let ghost pv = named_views(past@);
    let ghost cv = named_views(current@);
    let ghost prev = past_reported@;
    let mut out: Vec<DiskIOCounters> = Vec::new();
    let mut i: usize = 0;
    while i < current.len()
        invariant
            i <= current@.len(),
            pv == named_views(past@),
            cv == named_views(current@),
            prev == past_reported@,
            out@.len() == i,
            forall|m: int| 0 <= m < i ==> (#[trigger] correct_one(pv, prev, cv[m])) is Some,
            forall|m: int| 0 <= m < i ==> out@[m] == correct_one(pv, prev, cv[m])->Some_0,
        decreases current@.len() - i,
    {
        let x = &current[i];
        let mut j: usize = 0;
        while j < past.len()
            invariant
                j <= past@.len(),
                pv == named_views(past@),
                index_from(names_of(pv), x.name@, 0) == index_from(
                    names_of(pv),
                    x.name@,
                    j as int,
                ),
            ensures
                j <= past@.len(),
                index_from(names_of(pv), x.name@, 0) == j as int,
            decreases past@.len() - j,
        {
            if bytes_eq(past[j].name.as_slice(), x.name.as_slice()) {
                assert(names_of(pv)[j as int] == x.name@);
                break;
            }
            j += 1;
        }
        assert(cv[i as int] == x@);
        if j < past.len() && j < past_reported.len() {
            match advance_counters(&past_reported[j], &past[j].counters, &x.counters) {
                Some(c) => {
                    out.push(c);
                },
                None => {
                    assert(correct_one(pv, prev, cv[i as int]) is None);
                    return None;
                },
            }
        } else {
            out.push(x.counters);
        }
        i += 1;
    }
    assert(out@ =~= Seq::new(cv.len(), |m: int| correct_one(pv, prev, cv[m])->Some_0));
    Some(out)
}

/// The counters of named counters, names dropped.
fn strip_names(v: &Vec<NamedCounters>) -> (r: Vec<DiskIOCounters>)
    ensures
        r@ == counters_only(named_views(v@)),
{
    let mut out: Vec<DiskIOCounters> = Vec::new();
    let mut i: usize = 0;
    while i < v.len()
        invariant
            i <= v@.len(),
            out@ =~= counters_only(named_views(v@)).subrange(0, i as int),
        decreases v@.len() - i,
    {
        out.push(v[i].counters);
        i += 1;
    }
    out
}

/// A copy of a vector of counters.
fn copy_counters(v: &Vec<DiskIOCounters>) -> (r: Vec<DiskIOCounters>)
    ensures
        r@ == v@,
{
    let mut out: Vec<DiskIOCounters> = Vec::new();
    let mut i: usize = 0;
    while i < v.len()
        invariant
            i <= v@.len(),
            out@ =~= v@.subrange(0, i as int),
        decreases v@.len() - i,
    {
        out.push(v[i]);
        i += 1;
    }
    out
}

/// Accumulator of disk counters for nowrap mode: it remembers the raw counters
/// of its last poll so that a counter that wrapped can be corrected.
#[derive(Clone, Debug)]
pub struct DiskIOCountersNoWrap {
    /// The counters reported by the last nowrap poll
    disk_io_counters: Vec<DiskIOCounters>,
    /// The raw counters of the last nowrap poll
    disk_io_counters_last_call: Vec<NamedCounters>,
    initialize: bool,
}

impl View for DiskIOCountersNoWrap {
    type V = AccumulatorView;

    closed spec fn view(&self) -> AccumulatorView {
        AccumulatorView {
            initialized: self.initialize,
            current: self.disk_io_counters@,
            last_raw: named_views(self.disk_io_counters_last_call@),
        }
    }
}

impl DiskIOCountersNoWrap {
    /// A new accumulator, with no poll made yet.
    pub fn new() -> (r: DiskIOCountersNoWrap)
        ensures
            r@ == fresh_state(),
            r@.wf(),
    {
        let r = DiskIOCountersNoWrap {
            disk_io_counters: Vec::new(),
            disk_io_counters_last_call: Vec::new(),
            initialize: false,
        };
        assert(r@.current =~= Seq::<DiskIOCounters>::empty());
        assert(r@.last_raw =~= Seq::<(Seq<u8>, DiskIOCounters)>::empty());
        r
    }

    /// Forget all past polls: the next nowrap poll is treated as the first.
    pub fn cache_clear(&mut self)
        ensures
            final(self)@ == fresh_state(),
            final(self)@.wf(),
    {
        self.disk_io_counters = Vec::new();
        self.disk_io_counters_last_call = Vec::new();
        self.initialize = false;
        assert(self@.current =~= Seq::<DiskIOCounters>::empty());
        assert(self@.last_raw =~= Seq::<(Seq<u8>, DiskIOCounters)>::empty());
    }

    /// What a poll with these raw counters reports, or `None` when a corrected
    /// counter would not fit.
    fn outputs(&self, nowrap: bool, raw: &Vec<NamedCounters>) -> (r: Option<Vec<DiskIOCounters>>)
        ensures
            match poll_outcome(self@, nowrap, named_views(raw@)) {
                None => r is None,
                Some(p) => r matches Some(v) && v@ == p.0,
            },
    {
        if nowrap && self.initialize {
            total_disk_io_counters(&self.disk_io_counters_last_call, &self.disk_io_counters, raw)
        } else {
            Some(strip_names(raw))
        }
    }

    /// Record a poll with these raw counters, whose report is `out`.
    fn commit(&mut self, nowrap: bool, raw: Vec<NamedCounters>, out: &Vec<DiskIOCounters>)
        requires
            poll_outcome(old(self)@, nowrap, named_views(raw@)) is Some,
            out@ == poll_outcome(old(self)@, nowrap, named_views(raw@))->Some_0.0,
        ensures
            final(self)@ == poll_outcome(old(self)@, nowrap, named_views(raw@))->Some_0.1,
    {
        if nowrap {
            self.disk_io_counters = copy_counters(out);
            self.disk_io_counters_last_call = raw;
            self.initialize = true;
        }
    }

    /// Disk I/O counters of each device, from the partition table, the disk
    /// statistics and the sector-size texts (see `per_disk_counters`).
    /// With `nowrap`, each counter reports what it reported at the last nowrap
    /// poll plus the distance it travelled since, counting a wrap of the 32-bit
    /// kernel counter, so that it never decreases; the accumulator remembers
    /// this poll. Without it, the raw counters are returned and the accumulator
    /// is left alone. A failed poll leaves the accumulator as it was.
    pub fn disk_io_counters_perdisk(
        &mut self,
        nowrap: bool,
        partitions: &[u8],
        diskstats: &[u8],
        sector_sizes: &Vec<Option<Vec<u8>>>,
    ) -> (r: Result<Vec<DiskIOCounters>, DiskError>)
        ensures
            match per_disk_records(partitions@, diskstats@, option_views(sector_sizes@)) {
                Err(e) => r matches Err(x) && x@ == e && final(self)@ == old(self)@,
                Ok(raw) => match poll_outcome(old(self)@, nowrap, raw) {
                    None => r matches Err(x) && x@ == DiskErrorView::CounterOverflow
                        && final(self)@ == old(self)@,
                    Some((out, next)) => r matches Ok(v) && v@ == out && final(self)@ == next,
                },
            },
            old(self)@.wf() ==> final(self)@.wf(),
    {
        let raw = per_disk_counters(partitions, diskstats, sector_sizes)?;
        let out = match self.outputs(nowrap, &raw) {
            Some(o) => o,
            None => {
                return Err(DiskError::CounterOverflow);
            },
        };
        self.commit(nowrap, raw, &out);
        Ok(out)
    }

    /// System-wide disk I/O counters: the field-wise sum of what
    /// `disk_io_counters_perdisk` would report for the same inputs. A counter
    /// or a sum that does not fit in 64 bits fails the poll, which then leaves
    /// the accumulator as it was.
    pub fn disk_io_counters(
        &mut self,
        nowrap: bool,
        partitions: &[u8],
        diskstats: &[u8],
        sector_sizes: &Vec<Option<Vec<u8>>>,
    ) -> (r: Result<DiskIOCounters, DiskError>)
        ensures
            match per_disk_records(partitions@, diskstats@, option_views(sector_sizes@)) {
                Err(e) => r matches Err(x) && x@ == e && final(self)@ == old(self)@,
                Ok(raw) => match poll_outcome(old(self)@, nowrap, raw) {
                    None => r matches Err(x) && x@ == DiskErrorView::CounterOverflow
                        && final(self)@ == old(self)@,
                    Some((out, next)) => if sums_fit(out) {
                        r matches Ok(t) && is_field_sum(t, out) && final(self)@ == next
                    } else {
                        r matches Err(x) && x@ == DiskErrorView::CounterOverflow && final(self)@
                            == old(self)@
                    },
                },
            },
            old(self)@.wf() ==> final(self)@.wf(),
    {
        let raw = per_disk_counters(partitions, diskstats, sector_sizes)?;
        let out = match self.outputs(nowrap, &raw) {
            Some(o) => o,
            None => {
                return Err(DiskError::CounterOverflow);
            },
        };
        let total = match sum_counters(&out) {
            Some(t) => t,
            None => {
                return Err(DiskError::CounterOverflow);
            },
        };
        self.commit(nowrap, raw, &out);
        Ok(total)
    }
}

} // verus!
