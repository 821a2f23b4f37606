use vstd::prelude::*;
use vstd::slice::slice_to_vec;

use crate::counters::DiskIOCounters;
use crate::error::{err_view, DiskError, DiskErrorView};
use crate::partitions::{device_names, get_partitions};
use crate::text::{
    byte_views, bytes_eq, fields, is_u64_text, lines, parse_u64, split_fields, split_lines, trim,
    trim_spaces, u64_value,
};

verus! {

/// Sector size assumed when a device does not report one.
pub const DEFAULT_SECTOR_SIZE: u64 = 512;

/// Number of fields of a disk-statistics record.
pub const STATS_FIELDS: usize = 14;

/// The counters of one named device.
#[derive(Clone, Debug)]
pub struct NamedCounters {
    /// Device name, as the kernel lists it
    pub name: Vec<u8>,
    /// Its counters
    pub counters: DiskIOCounters,
}

impl View for NamedCounters {
    type V = (Seq<u8>, DiskIOCounters);

    open spec fn view(&self) -> (Seq<u8>, DiskIOCounters) {
        (self.name@, self.counters)
    }
}

/// The views of a sequence of named counters.
pub open spec fn named_views(v: Seq<NamedCounters>) -> Seq<(Seq<u8>, DiskIOCounters)> {
    v.map_values(|x: NamedCounters| x@)
}

/// The counters alone, names dropped.
pub open spec fn counters_only(v: Seq<(Seq<u8>, DiskIOCounters)>) -> Seq<DiskIOCounters> {
    v.map_values(|x: (Seq<u8>, DiskIOCounters)| x.1)
}

/// The byte views of the optional sector-size texts.
pub open spec fn option_views(v: Seq<Option<Vec<u8>>>) -> Seq<Option<Seq<u8>>> {
    v.map_values(
        |o: Option<Vec<u8>>|
            match o {
                Some(x) => Some(x@),
                None => None,
            },
    )
}

/// The values of a run of decimal fields.
pub open spec fn decimals(f: Seq<Seq<u8>>) -> Seq<u64> {
    f.map_values(|x: Seq<u8>| u64_value(x) as u64)
}

/// Index of the first field at or after `j` that is not the text of a `u64`,
/// or `f.len()` when there is none.
pub open spec fn first_bad(f: Seq<Seq<u8>>, j: int) -> int
    decreases f.len() - j,
{
    if j < 0 || j >= f.len() {
        f.len() as int
    } else if !is_u64_text(f[j]) {
        j
    } else {
        first_bad(f, j + 1)
    }
}

/// The counter values of a record, parsed; when one of them is not the text
/// of a `u64`, an error that holds the first such value.
pub open spec fn stats_values(f: Seq<Seq<u8>>) -> Result<Seq<u64>, DiskErrorView> {
    let k = first_bad(f, 0);
    if k < f.len() {
        Err(DiskErrorView::MalformedInput(f[k]))
    } else {
        Ok(decimals(f))
    }
}

/// A disk-statistics record split into the device name and its eleven counter
/// values. A record without exactly fourteen fields is an unsupported format.
pub open spec fn stats_record(line: Seq<u8>) -> Result<(Seq<u8>, Seq<u64>), DiskErrorView> {
    let f = fields(line);
    if f.len() != 14 {
        Err(DiskErrorView::UnsupportedKernelFormat)
    } else {
        match stats_values(f.subrange(3, 14)) {
            Err(e) => Err(e),
            Ok(v) => Ok((f[2], v)),
        }
    }
}

/// The sector size given by a device's attribute text: 512 when it could not
/// be read, its trimmed decimal value otherwise; an error that holds the text
/// when that is not the text of a `u64`.
pub open spec fn sector_size(text: Option<Seq<u8>>) -> Result<u64, DiskErrorView> {
    match text {
        None => Ok(512),
        Some(t) => if is_u64_text(trim(t)) {
            Ok(u64_value(trim(t)) as u64)
        } else {
            Err(DiskErrorView::MalformedInput(t))
        },
    }
}

/// The counters of one record, from its eleven values and the sector size;
/// `None` when a byte count does not fit in a `u64`.
pub open spec fn counters_of(v: Seq<u64>, size: u64) -> Option<DiskIOCounters> {
    if v[2] * size > u64::MAX || v[6] * size > u64::MAX {
        None
    } else {
        Some(
            DiskIOCounters {
                read_count: v[0],
                write_count: v[4],
                read_bytes: (v[2] * size) as u64,
                write_bytes: (v[6] * size) as u64,
                read_time: v[3],
                write_time: v[7],
                read_merged_count: v[1],
                write_merged_count: v[5],
                busy_time: v[9],
            },
        )
    }
}

/// Index of the first occurrence of `name` in `names` at or after `j`, or
/// `names.len()` when there is none.
pub open spec fn index_from(names: Seq<Seq<u8>>, name: Seq<u8>, j: int) -> int
    decreases names.len() - j,
{
    if j < 0 || j >= names.len() {
        names.len() as int
    } else if names[j] == name {
        j
    } else {
        index_from(names, name, j + 1)
    }
}

/// The `j`-th sector-size text, or `None` beyond the end.
pub open spec fn size_text(sizes: Seq<Option<Seq<u8>>>, j: int) -> Option<Seq<u8>> {
    if 0 <= j < sizes.len() {
        sizes[j]
    } else {
        None
    }
}

/// What one disk-statistics line contributes: the named counters of a device
/// in `names`, nothing for another device, or an error. `sizes[j]` is the
/// sector-size text of `names[j]`.
pub open spec fn disk_record(
    line: Seq<u8>,
    names: Seq<Seq<u8>>,
    sizes: Seq<Option<Seq<u8>>>,
) -> Result<Option<(Seq<u8>, DiskIOCounters)>, DiskErrorView> {
    match stats_record(line) {
        Err(e) => Err(e),
        Ok((name, v)) => {
            let j = index_from(names, name, 0);
            if j >= names.len() {
                Ok(None)
            } else {
                match sector_size(size_text(sizes, j)) {
                    Err(e) => Err(e),
                    Ok(size) => match counters_of(v, size) {
                        None => Err(DiskErrorView::CounterOverflow),
                        Some(c) => Ok(Some((name, c))),
                    },
                }
            }
        },
    }
}

/// The records of all lines, in order; the first error stops the scan.
pub open spec fn collect_records(
    ls: Seq<Seq<u8>>,
    names: Seq<Seq<u8>>,
    sizes: Seq<Option<Seq<u8>>>,
) -> Result<Seq<(Seq<u8>, DiskIOCounters)>, DiskErrorView>
    decreases ls.len(),
{
    if ls.len() == 0 {
        Ok(Seq::empty())
    } else {
        match collect_records(ls.drop_last(), names, sizes) {
            Err(e) => Err(e),
            Ok(acc) => match disk_record(ls.last(), names, sizes) {
                Err(e) => Err(e),
                Ok(None) => Ok(acc),
                Ok(Some(x)) => Ok(acc.push(x)),
            },
        }
    }
}

/// The per-device counters of one poll, from the partition table, the disk
/// statistics and the sector-size texts of the enumerated devices.
pub open spec fn per_disk_records(
    partitions: Seq<u8>,
    stats: Seq<u8>,
    sizes: Seq<Option<Seq<u8>>>,
) -> Result<Seq<(Seq<u8>, DiskIOCounters)>, DiskErrorView> {
    match device_names(partitions) {
        Err(l) => Err(DiskErrorView::MalformedInput(l)),
        Ok(names) => collect_records(lines(stats), names, sizes),
    }
}

/// An error on a prefix of the lines is the error of all of them.
proof fn lemma_collect_error_stays(
    ls: Seq<Seq<u8>>,
    i: int,
    names: Seq<Seq<u8>>,
    sizes: Seq<Option<Seq<u8>>>,
)
    requires
        0 <= i <= ls.len(),
        collect_records(ls.subrange(0, i), names, sizes) is Err,
    ensures
        collect_records(ls, names, sizes) == collect_records(ls.subrange(0, i), names, sizes),
    decreases ls.len() - i,
{
    if i < ls.len() {
        assert(ls.subrange(0, i + 1).drop_last() =~= ls.subrange(0, i));
        lemma_collect_error_stays(ls, i + 1, names, sizes);
    } else {
        assert(ls.subrange(0, i) =~= ls);
    }
}

/// The line from which the `j`-th record of a scan comes.
proof fn lemma_record_source(
    ls: Seq<Seq<u8>>,
    names: Seq<Seq<u8>>,
    sizes: Seq<Option<Seq<u8>>>,
    j: int,
) -> (i: int)
    requires
        collect_records(ls, names, sizes) is Ok,
        0 <= j < collect_records(ls, names, sizes)->Ok_0.len(),
    ensures
        0 <= i < ls.len(),
        disk_record(ls[i], names, sizes) == Ok::<
            Option<(Seq<u8>, DiskIOCounters)>,
            DiskErrorView,
        >(Some(collect_records(ls, names, sizes)->Ok_0[j])),
    decreases ls.len(),
{
    let init = ls.drop_last();
    let acc = collect_records(init, names, sizes)->Ok_0;
    match disk_record(ls.last(), names, sizes) {
        Ok(Some(x)) => {
            if j == acc.len() {
                ls.len() - 1
            } else {
                let i = lemma_record_source(init, names, sizes, j);
                assert(init[i] == ls[i]);
                i
            }
        },
        _ => {
            let i = lemma_record_source(init, names, sizes, j);
            assert(init[i] == ls[i]);
            i
        },
    }
}

/// Each device counter record of a poll comes from one disk-statistics line
/// `i` of a listed device. Its byte counts are that line's sector counts
/// multiplied by the device's sector size. That size is 512 when the
/// device's sector-size attribute could not be read.
pub proof fn lemma_bytes_are_sectors_times_size(
    partitions: Seq<u8>,
    stats: Seq<u8>,
    sizes: Seq<Option<Seq<u8>>>,
    j: int,
) -> (i: int)
    requires
        per_disk_records(partitions, stats, sizes) is Ok,
        0 <= j < per_disk_records(partitions, stats, sizes)->Ok_0.len(),
    ensures
        0 <= i < lines(stats).len(),
        ({
            let rec = per_disk_records(partitions, stats, sizes)->Ok_0[j];
            let names = device_names(partitions)->Ok_0;
            let (name, v) = stats_record(lines(stats)[i])->Ok_0;
            let d = index_from(names, name, 0);
            let size = sector_size(size_text(sizes, d))->Ok_0;
            &&& stats_record(lines(stats)[i]) is Ok
            &&& name == rec.0
            &&& 0 <= d < names.len()
            &&& sector_size(size_text(sizes, d)) is Ok
            &&& (size_text(sizes, d) is None ==> size == 512)
            &&& rec.1.read_bytes == v[2] * size
            &&& rec.1.write_bytes == v[6] * size
        }),
{
    let names = device_names(partitions)->Ok_0;
    assert(device_names(partitions) is Ok);
    let i = lemma_record_source(lines(stats), names, sizes, j);
    let rec = per_disk_records(partitions, stats, sizes)->Ok_0[j];
    let line = lines(stats)[i];
    assert(stats_record(line) is Ok);
    let (name, v) = stats_record(line)->Ok_0;
    let d = index_from(names, name, 0);
    assert(0 <= d < names.len()) by {
        lemma_index_from_bounds(names, name, 0);
    }
    assert(sector_size(size_text(sizes, d)) is Ok);
    let size = sector_size(size_text(sizes, d))->Ok_0;
    assert(counters_of(v, size) == Some(rec.1));
    i
}

/// A search from a valid start ends inside the names or just past them.
proof fn lemma_index_from_bounds(names: Seq<Seq<u8>>, name: Seq<u8>, j: int)
    requires
        0 <= j,
    ensures
        0 <= index_from(names, name, j) <= names.len(),
    decreases names.len() - j,
{
    if j < names.len() && names[j] != name {
        lemma_index_from_bounds(names, name, j + 1);
    }
}

/// Parse counter values, each a decimal `u64`.
pub fn line_disk_stats(line: &[Vec<u8>]) -> (r: Result<Vec<u64>, DiskError>)
    ensures
        match stats_values(byte_views(line@)) {
            Err(e) => r matches Err(x) && x@ == e,
            Ok(v) => r matches Ok(w) && w@ == v,
        },
{
    let ghost f = byte_views(line@);
    let mut result: Vec<u64> = Vec::new();
    let mut i: usize = 0;
    while i < line.len()
        invariant
            i <= line@.len(),
            f == byte_views(line@),
            result@ == decimals(f.subrange(0, i as int)),
            first_bad(f, 0) == first_bad(f, i as int),
        decreases line@.len() - i,
    {
        match parse_u64(line[i].as_slice()) {
            Some(v) => {
                result.push(v);
                assert(result@ =~= decimals(f.subrange(0, i + 1)));
            },
            None => {
                assert(first_bad(f, i as int) == i);
                return Err(DiskError::MalformedInput(line[i].clone()));
            },
        }
        i += 1;
    }
    assert(f.subrange(0, i as int) =~= f);
    Ok(result)
}

/// Split a disk-statistics record into the device name and its eleven counter
/// values.
pub fn parse_stats_record(line: &[u8]) -> (r: Result<(Vec<u8>, Vec<u64>), DiskError>)
    ensures
        match stats_record(line@) {
            Err(e) => r matches Err(x) && x@ == e,
            Ok((name, v)) => r matches Ok((n, w)) && n@ == name && w@ == v,
        },
        fields(line@).len() != 14 <==> r == Err::<(Vec<u8>, Vec<u64>), DiskError>(
            DiskError::UnsupportedKernelFormat,
        ),
{
    let f = split_fields(line);
    if f.len() != STATS_FIELDS {
        return Err(DiskError::UnsupportedKernelFormat);
    }
    let name = f[2].clone();
    let values = line_disk_stats(&f.as_slice()[3..14]);
    assert(byte_views(f@.subrange(3, 14)) =~= byte_views(f@).subrange(3, 14));
    match values {
        Err(e) => Err(e),
        Ok(v) => Ok((name, v)),
    }
}

/// The sector size of a device from the text of its sector-size attribute, or
/// 512 when the attribute could not be read.
pub fn get_sector_size(contents: Option<&[u8]>) -> (r: Result<u64, DiskError>)
    ensures
        err_view(r) == sector_size(
            match contents {
                Some(t) => Some(t@),
                None => None,
            },
        ),
        contents is None ==> r == Ok::<u64, DiskError>(512),
{
    match contents {
        None => Ok(DEFAULT_SECTOR_SIZE),
        Some(t) => {
            let trimmed = trim_spaces(t);
            match parse_u64(trimmed.as_slice()) {
                Some(v) => Ok(v),
                None => Err(DiskError::MalformedInput(slice_to_vec(t))),
            }
        },
    }
}

/// The counters of a record from its eleven values: fields pass through, but
/// the sector counts are multiplied by the sector size to give bytes.
pub fn build_counters(values: &Vec<u64>, sector_size: u64) -> (r: Result<DiskIOCounters, DiskError>)
    requires
        values@.len() == 11,
    ensures
        match counters_of(values@, sector_size) {
            None => r == Err::<DiskIOCounters, DiskError>(DiskError::CounterOverflow),
            Some(c) => r == Ok::<DiskIOCounters, DiskError>(c),
        },
{
    let read_sectors = values[2];
    let write_sectors = values[6];
    if sector_size > 0 && read_sectors > u64::MAX / sector_size {
        assert(read_sectors * sector_size > u64::MAX) by (nonlinear_arith)
            requires
                sector_size > 0,
                read_sectors > u64::MAX / sector_size,
        ;
        return Err(DiskError::CounterOverflow);
    }
    if sector_size > 0 && write_sectors > u64::MAX / sector_size {
        assert(write_sectors * sector_size > u64::MAX) by (nonlinear_arith)
            requires
                sector_size > 0,
                write_sectors > u64::MAX / sector_size,
        ;
        return Err(DiskError::CounterOverflow);
    }
    assert(read_sectors * sector_size <= u64::MAX && write_sectors * sector_size <= u64::MAX)
        by (nonlinear_arith)
        requires
            sector_size == 0 || read_sectors <= u64::MAX / sector_size,
            sector_size == 0 || write_sectors <= u64::MAX / sector_size,
    ;
    Ok(
        DiskIOCounters {
            read_count: values[0],
            write_count: values[4],
            read_bytes: read_sectors * sector_size,
            write_bytes: write_sectors * sector_size,
            read_time: values[3],
            write_time: values[7],
            read_merged_count: values[1],
            write_merged_count: values[5],
            busy_time: values[9],
        },
    )
}

/// Index of the first occurrence of `name` in `names`, or `names.len()`.
fn find_name(names: &Vec<Vec<u8>>, name: &[u8]) -> (r: usize)
    ensures
        r == index_from(byte_views(names@), name@, 0),
{
    let ghost nv = byte_views(names@);
    let mut j: usize = 0;
    while j < names.len()
        invariant
            j <= names@.len(),
            nv == byte_views(names@),
            index_from(nv, name@, 0) == index_from(nv, name@, j as int),
        decreases names@.len() - j,
    {
        if bytes_eq(names[j].as_slice(), name) {
            return j;
        }
        j += 1;
    }
    j
}

/// The named counters of every device of the partition table that has a
/// disk-statistics record, in the order of the records. `sector_sizes[j]` is
/// the text of the sector-size attribute of the `j`-th device that
/// `get_partitions` lists, `None` where it could not be read; a missing entry
/// counts as `None`.
pub fn per_disk_counters(
    partitions: &[u8],
    diskstats: &[u8],
    sector_sizes: &Vec<Option<Vec<u8>>>,
) -> (r: Result<Vec<NamedCounters>, DiskError>)
    ensures
        match per_disk_records(partitions@, diskstats@, option_views(sector_sizes@)) {
            Err(e) => r matches Err(x) && x@ == e,
            Ok(s) => r matches Ok(v) && named_views(v@) == s,
        },
{
    let names = get_partitions(partitions)?;
    let ghost nv = byte_views(names@);
    let ghost sv = option_views(sector_sizes@);
    let all = split_lines(diskstats);
    let ghost ls = byte_views(all@);
    let mut out: Vec<NamedCounters> = Vec::new();
    let mut i: usize = 0;
    assert(ls.subrange(0, 0) =~= Seq::<Seq<u8>>::empty());
    assert(named_views(out@) =~= Seq::<(Seq<u8>, DiskIOCounters)>::empty());
    while i < all.len()
        invariant
            i <= all@.len(),
            ls == byte_views(all@),
            ls == lines(diskstats@),
            nv == byte_views(names@),
            sv == option_views(sector_sizes@),
            device_names(partitions@) == Ok::<Seq<Seq<u8>>, Seq<u8>>(nv),
            collect_records(ls.subrange(0, i as int), nv, sv) == Ok::<
                Seq<(Seq<u8>, DiskIOCounters)>,
                DiskErrorView,
            >(named_views(out@)),
        decreases all@.len() - i,
    {
        let ghost pre = ls.subrange(0, i + 1);
        assert(pre.drop_last() =~= ls.subrange(0, i as int));
        assert(pre.last() == all@[i as int]@);
        let ghost before = named_views(out@);
        let rec = parse_stats_record(all[i].as_slice());
        let (name, values) = match rec {
            Err(e) => {
                proof {
                    lemma_collect_error_stays(ls, i + 1, nv, sv);
                }
                return Err(e);
            },
            Ok(p) => p,
        };
        let j = find_name(&names, name.as_slice());
        if j < names.len() {
            let size = match sector_sizes.get(j) {
                Some(t) => match t {
                    Some(b) => get_sector_size(Some(b.as_slice())),
                    None => get_sector_size(None),
                },
                None => get_sector_size(None),
            };
            let size = match size {
                Err(e) => {
                    proof {
                        lemma_collect_error_stays(ls, i + 1, nv, sv);
                    }
                    return Err(e);
                },
                Ok(s) => s,
            };
            let c = match build_counters(&values, size) {
                Err(e) => {
                    proof {
                        lemma_collect_error_stays(ls, i + 1, nv, sv);
                    }
                    return Err(e);
                },
                Ok(c) => c,
            };
            out.push(NamedCounters { name, counters: c });
            assert(named_views(out@) =~= before.push((name@, c)));
        }
        i += 1;
    }
    assert(ls.subrange(0, i as int) =~= ls);
    Ok(out)
}

} // verus!
