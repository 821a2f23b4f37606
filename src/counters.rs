use vstd::prelude::*;

verus! {

/// Width of the kernel's counters: they wrap to zero after `2^32 - 1`.
pub const COUNTER_WRAP: u64 = 4294967296;

/// I/O counters of one block device, or of all of them summed.
#[derive(Clone, Copy, Debug, PartialEq, Eq, Structural)]
pub struct DiskIOCounters {
    /// Number of reads
    pub read_count: u64,
    /// Number of writes
    pub write_count: u64,
    /// Number of bytes read
    pub read_bytes: u64,
    /// Number of bytes written
    pub write_bytes: u64,
    /// Time spent reading from disk (in milliseconds)
    pub read_time: u64,
    /// Time spent writing to disk (in milliseconds)
    pub write_time: u64,
    /// Number of merged reads
    pub read_merged_count: u64,
    /// Number of merged writes
    pub write_merged_count: u64,
    /// Time spent doing actual I/Os (in milliseconds)
    pub busy_time: u64,
}

/// Number of counters in a `DiskIOCounters`.
pub open spec fn n_fields() -> int {
    9
}

/// The `k`-th counter, in declaration order.
pub open spec fn field(c: DiskIOCounters, k: int) -> u64 {
    if k == 0 {
        c.read_count
    } else if k == 1 {
        c.write_count
    } else if k == 2 {
        c.read_bytes
    } else if k == 3 {
        c.write_bytes
    } else if k == 4 {
        c.read_time
    } else if k == 5 {
        c.write_time
    } else if k == 6 {
        c.read_merged_count
    } else if k == 7 {
        c.write_merged_count
    } else {
        c.busy_time
    }
}

/// Two counter records are equal when all their counters are.
pub proof fn lemma_fields_determine(a: DiskIOCounters, b: DiskIOCounters)
    requires
        forall|k: int| 0 <= k < n_fields() ==> field(a, k) == field(b, k),
    ensures
        a == b,
{
    assert(field(a, 0) == field(b, 0));
    assert(field(a, 1) == field(b, 1));
    assert(field(a, 2) == field(b, 2));
    assert(field(a, 3) == field(b, 3));
    assert(field(a, 4) == field(b, 4));
    assert(field(a, 5) == field(b, 5));
    assert(field(a, 6) == field(b, 6));
    assert(field(a, 7) == field(b, 7));
    assert(field(a, 8) == field(b, 8));
}

/// The all-zero record.
pub open spec fn zero_counters() -> DiskIOCounters {
    DiskIOCounters {
        read_count: 0,
        write_count: 0,
        read_bytes: 0,
        write_bytes: 0,
        read_time: 0,
        write_time: 0,
        read_merged_count: 0,
        write_merged_count: 0,
        busy_time: 0,
    }
}

/// Sum of the `k`-th counter over all records of `s`.
pub open spec fn sum_field(s: Seq<DiskIOCounters>, k: int) -> int
    decreases s.len(),
{
    if s.len() == 0 {
        0
    } else {
        sum_field(s.drop_last(), k) + field(s.last(), k)
    }
}

/// Every field-wise sum of `s` fits in a `u64`.
pub open spec fn sums_fit(s: Seq<DiskIOCounters>) -> bool {
    forall|k: int| 0 <= k < n_fields() ==> sum_field(s, k) <= u64::MAX
}

/// `t` is the field-wise sum of the records of `s`.
pub open spec fn is_field_sum(t: DiskIOCounters, s: Seq<DiskIOCounters>) -> bool {
    forall|k: int| 0 <= k < n_fields() ==> field(t, k) == sum_field(s, k)
}

/// A field-wise sum over a prefix never exceeds the sum over the whole.
pub proof fn lemma_sum_field_prefix(s: Seq<DiskIOCounters>, i: int, k: int)
    requires
        0 <= i <= s.len(),
    ensures
        sum_field(s.subrange(0, i), k) <= sum_field(s, k),
    decreases s.len() - i,
{
    if i < s.len() {
        lemma_sum_field_prefix(s, i + 1, k);
        assert(s.subrange(0, i + 1).drop_last() =~= s.subrange(0, i));
    } else {
        assert(s.subrange(0, i) =~= s);
    }
}

/// The field-wise sum of an empty set of records is all zero.
pub proof fn lemma_empty_sum_is_zero(t: DiskIOCounters)
    requires
        is_field_sum(t, Seq::<DiskIOCounters>::empty()),
    ensures
        t == zero_counters(),
{
    assert forall|k: int| 0 <= k < n_fields() implies field(t, k) == field(zero_counters(), k) by {
        assert(sum_field(Seq::<DiskIOCounters>::empty(), k) == 0);
    }
    lemma_fields_determine(t, zero_counters());
}

/// Sum two records field by field, or `None` when some sum exceeds `u64::MAX`.
pub fn add_counters(a: &DiskIOCounters, b: &DiskIOCounters) -> (r: Option<DiskIOCounters>)
    ensures
        (forall|k: int| 0 <= k < n_fields() ==> field(*a, k) + field(*b, k) <= u64::MAX)
            <==> r is Some,
        r matches Some(t) ==> forall|k: int|
            0 <= k < n_fields() ==> field(t, k) == field(*a, k) + field(*b, k),
{
    if a.read_count > u64::MAX - b.read_count {
        assert(field(*a, 0) + field(*b, 0) > u64::MAX);
        return None;
    }
    let read_count = a.read_count + b.read_count;
    if a.write_count > u64::MAX - b.write_count {
        assert(field(*a, 1) + field(*b, 1) > u64::MAX);
        return None;
    }
    let write_count = a.write_count + b.write_count;
    if a.read_bytes > u64::MAX - b.read_bytes {
        assert(field(*a, 2) + field(*b, 2) > u64::MAX);
        return None;
    }
    let read_bytes = a.read_bytes + b.read_bytes;
    if a.write_bytes > u64::MAX - b.write_bytes {
        assert(field(*a, 3) + field(*b, 3) > u64::MAX);
        return None;
    }
    let write_bytes = a.write_bytes + b.write_bytes;
    if a.read_time > u64::MAX - b.read_time {
        assert(field(*a, 4) + field(*b, 4) > u64::MAX);
        return None;
    }
    let read_time = a.read_time + b.read_time;
    if a.write_time > u64::MAX - b.write_time {
        assert(field(*a, 5) + field(*b, 5) > u64::MAX);
        return None;
    }
    let write_time = a.write_time + b.write_time;
    if a.read_merged_count > u64::MAX - b.read_merged_count {
        assert(field(*a, 6) + field(*b, 6) > u64::MAX);
        return None;
    }
    let read_merged_count = a.read_merged_count + b.read_merged_count;
    if a.write_merged_count > u64::MAX - b.write_merged_count {
        assert(field(*a, 7) + field(*b, 7) > u64::MAX);
        return None;
    }
    let write_merged_count = a.write_merged_count + b.write_merged_count;
    if a.busy_time > u64::MAX - b.busy_time {
        assert(field(*a, 8) + field(*b, 8) > u64::MAX);
        return None;
    }
    let busy_time = a.busy_time + b.busy_time;
    Some(
        DiskIOCounters {
            read_count,
            write_count,
            read_bytes,
            write_bytes,
            read_time,
            write_time,
            read_merged_count,
            write_merged_count,
            busy_time,
        },
    )
}

/// Field-wise sum of all records, or `None` when a sum exceeds `u64::MAX`.
pub fn sum_counters(v: &Vec<DiskIOCounters>) -> (r: Option<DiskIOCounters>)
    ensures
        sums_fit(v@) <==> r is Some,
        r matches Some(t) ==> is_field_sum(t, v@),
        v@.len() == 0 ==> r == Some(zero_counters()),
{
    let mut total = DiskIOCounters {
        read_count: 0,
        write_count: 0,
        read_bytes: 0,
        write_bytes: 0,
        read_time: 0,
        write_time: 0,
        read_merged_count: 0,
        write_merged_count: 0,
        busy_time: 0,
    };
    let mut i: usize = 0;
    while i < v.len()
        invariant
            i <= v@.len(),
            is_field_sum(total, v@.subrange(0, i as int)),
            i == 0 ==> total == zero_counters(),
        decreases v@.len() - i,
    {
        assert(v@.subrange(0, i + 1).drop_last() =~= v@.subrange(0, i as int));
        match add_counters(&total, &v[i]) {
            Some(t) => {
                total = t;
            },
            None => {
                assert(!sums_fit(v@)) by {
                    let k = choose|k: int|
                        0 <= k < n_fields() && field(total, k) + field(v@[i as int], k)
                            > u64::MAX;
                    lemma_sum_field_prefix(v@, i + 1, k);
                }
                return None;
            },
        }
        i += 1;
    }
    assert(v@.subrange(0, i as int) =~= v@);
    Some(total)
}

} // verus!
