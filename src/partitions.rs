use vstd::prelude::*;

use crate::error::{DiskError, DiskErrorView};
use crate::text::{byte_views, fields, is_digit, lines, split_fields, split_lines, starts_with};

verus! {

/// The name ends in a decimal digit: it names a partition such as `sda1`.
pub open spec fn ends_with_digit(name: Seq<u8>) -> bool {
    name.len() > 0 && is_digit(name.last())
}

/// `p` is a prefix of `a`.
pub open spec fn is_prefix(p: Seq<u8>, a: Seq<u8>) -> bool {
    p.len() <= a.len() && a.subrange(0, p.len() as int) == p
}

/// The data rows of the partition table: all lines but the first two, which
/// are a header.
pub open spec fn table_rows(text: Seq<u8>) -> Seq<Seq<u8>> {
    let l = lines(text);
    if l.len() >= 2 {
        l.subrange(2, l.len() as int)
    } else {
        Seq::empty()
    }
}

/// Some partition among the kept names starts with `disk`: that partition
/// already accounts for the disk's I/O.
pub open spec fn has_partition_of(kept: Seq<Seq<u8>>, disk: Seq<u8>) -> bool {
    exists|m: int| 0 <= m < kept.len() && ends_with_digit(kept[m]) && is_prefix(disk, kept[m])
}

/// One step of the enumeration: the names kept so far, then one row. A
/// partition is always kept; a whole disk is kept unless a partition kept
/// before starts with its name. A row without exactly four fields is
/// malformed: the error holds the row.
pub open spec fn keep_device(kept: Seq<Seq<u8>>, line: Seq<u8>) -> Result<Seq<Seq<u8>>, Seq<u8>> {
    let row = fields(line);
    if row.len() != 4 {
        Err(line)
    } else if ends_with_digit(row[3]) {
        Ok(kept.push(row[3]))
    } else if has_partition_of(kept, row[3]) {
        Ok(kept)
    } else {
        Ok(kept.push(row[3]))
    }
}

/// The enumeration over `rows`, taken from the last row to the first.
pub open spec fn scan_devices(rows: Seq<Seq<u8>>) -> Result<Seq<Seq<u8>>, Seq<u8>>
    decreases rows.len(),
{
    if rows.len() == 0 {
        Ok(Seq::<Seq<u8>>::empty())
    } else {
        match scan_devices(rows.drop_first()) {
            Err(l) => Err(l),
            Ok(kept) => keep_device(kept, rows[0]),
        }
    }
}

/// A malformed row makes every longer suffix of the rows fail the same way.
proof fn lemma_scan_failure_spreads(rows: Seq<Seq<u8>>, j: int, k: int)
    requires
        0 <= k <= j <= rows.len(),
        scan_devices(rows.subrange(j, rows.len() as int)) is Err,
    ensures
        scan_devices(rows.subrange(k, rows.len() as int)) == scan_devices(
            rows.subrange(j, rows.len() as int),
        ),
    decreases j - k,
{
    if k < j {
        lemma_scan_failure_spreads(rows, j, k + 1);
        assert(rows.subrange(k, rows.len() as int).drop_first() =~= rows.subrange(
            k + 1,
            rows.len() as int,
        ));
    }
}

/// The device names of a partition table, most specific first, or the first
/// malformed row met from the end.
pub open spec fn device_names(text: Seq<u8>) -> Result<Seq<Seq<u8>>, Seq<u8>> {
    scan_devices(table_rows(text))
}

/// Whether a partition among `kept` starts with `disk`.
fn partition_kept(kept: &Vec<Vec<u8>>, disk: &[u8]) -> (r: bool)
    ensures
        r == has_partition_of(byte_views(kept@), disk@),
{
    let ghost kv = byte_views(kept@);
    let mut m: usize = 0;
    while m < kept.len()
        invariant
            m <= kept@.len(),
            kv == byte_views(kept@),
            forall|x: int|
                0 <= x < m ==> !(ends_with_digit(kv[x]) && is_prefix(disk@, #[trigger] kv[x])),
        decreases kept@.len() - m,
    {
        let name = kept[m].as_slice();
        let n = name.len();
        if n > 0 && 48u8 <= name[n - 1] && name[n - 1] <= 57u8 && starts_with(name, disk) {
            assert(ends_with_digit(kv[m as int]) && is_prefix(disk@, kv[m as int]));
            return true;
        }
        m += 1;
    }
    false
}

/// The names of the devices listed in a partition table (lines of
/// `major minor blocks name` after two header lines). Rows are taken in reverse
/// order, so that the partitions of a disk are kept before the disk is seen.
pub fn get_partitions(data: &[u8]) -> (r: Result<Vec<Vec<u8>>, DiskError>)
    ensures
        match device_names(data@) {
            Err(l) => r matches Err(x) && x@ == DiskErrorView::MalformedInput(l),
            Ok(names) => r matches Ok(v) && byte_views(v@) == names,
        },
{
    let all = split_lines(data);
    let start: usize = if all.len() >= 2 {
        2
    } else {
        all.len()
    };
    let ghost rows = byte_views(all@).subrange(start as int, all@.len() as int);
    assert(rows =~= table_rows(data@));
    let mut kept: Vec<Vec<u8>> = Vec::new();
    let mut i: usize = all.len();
    assert(rows.subrange(i - start, rows.len() as int) =~= Seq::<Seq<u8>>::empty());
    assert(byte_views(kept@) =~= Seq::<Seq<u8>>::empty());
    while i > start
        invariant
            start <= i <= all@.len(),
            rows == byte_views(all@).subrange(start as int, all@.len() as int),
            rows == table_rows(data@),
            scan_devices(rows.subrange(i - start, rows.len() as int)) == Ok::<
                Seq<Seq<u8>>,
                Seq<u8>,
            >(byte_views(kept@)),
        decreases i,
    {
        let ghost suffix = rows.subrange(i - 1 - start, rows.len() as int);
        assert(suffix.drop_first() =~= rows.subrange(i - start, rows.len() as int));
        assert(suffix[0] == all@[i - 1]@);
        let ghost before = byte_views(kept@);
        let row = split_fields(all[i - 1].as_slice());
        if row.len() != 4 {
            proof {
                assert(byte_views(row@).len() == row@.len());
                assert(scan_devices(suffix) == Err::<Seq<Seq<u8>>, Seq<u8>>(all@[i - 1]@));
                lemma_scan_failure_spreads(rows, i - 1 - start, 0);
                assert(rows.subrange(0, rows.len() as int) =~= rows);
            }
            return Err(DiskError::MalformedInput(all[i - 1].clone()));
        }
        let name = row[3].as_slice();
        let n = name.len();
        let partition = n > 0 && 48u8 <= name[n - 1] && name[n - 1] <= 57u8;
        if partition || !partition_kept(&kept, name) {
            kept.push(row[3].clone());
            assert(byte_views(kept@) =~= before.push(byte_views(row@)[3]));
        }
        i -= 1;
    }
    assert(rows.subrange(0, rows.len() as int) =~= rows);
    Ok(kept)
}

} // verus!
