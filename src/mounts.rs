use vstd::prelude::*;

use crate::error::{DiskError, DiskErrorView};
use crate::text::{byte_views, bytes_eq, fields, lines, split_fields, split_lines};

verus! {

/// The word `nodev`, which marks a filesystem type that needs no block device.
pub open spec fn nodev_word() -> Seq<u8> {
    seq![110u8, 111u8, 100u8, 101u8, 118u8]
}

/// The word `zfs`.
pub open spec fn zfs_word() -> Seq<u8> {
    seq![122u8, 102u8, 115u8]
}

/// What one line of the filesystem-type list contributes: the type of a
/// block-device filesystem, `zfs` although it is marked `nodev`, or nothing.
/// A line without the fields it needs is malformed: the error holds the line.
pub open spec fn fstype_entry(line: Seq<u8>) -> Result<Option<Seq<u8>>, DiskErrorView> {
    let f = fields(line);
    if f.len() == 0 {
        Err(DiskErrorView::MalformedInput(line))
    } else if f[0] == nodev_word() {
        if f.len() < 2 {
            Err(DiskErrorView::MalformedInput(line))
        } else if f[1] == zfs_word() {
            Ok(Some(f[1]))
        } else {
            Ok(None)
        }
    } else {
        Ok(Some(f[0]))
    }
}

/// The filesystem types of the lines, in order; the first error stops the scan.
pub open spec fn collect_fstypes(ls: Seq<Seq<u8>>) -> Result<Seq<Seq<u8>>, DiskErrorView>
    decreases ls.len(),
{
    if ls.len() == 0 {
        Ok(Seq::empty())
    } else {
        match collect_fstypes(ls.drop_last()) {
            Err(e) => Err(e),
            Ok(acc) => match fstype_entry(ls.last()) {
                Err(e) => Err(e),
                Ok(None) => Ok(acc),
                Ok(Some(t)) => Ok(acc.push(t)),
            },
        }
    }
}

/// A mounted filesystem, as the mount table lists it.
#[derive(Clone, Debug, PartialEq, Eq)]
pub struct MountedPartition {
    /// The block special device or remote filesystem that is mounted
    pub device: Vec<u8>,
    /// Where it is mounted
    pub mountpoint: Vec<u8>,
    /// The type of the filesystem
    pub fstype: Vec<u8>,
    /// The mount options
    pub opts: Vec<u8>,
}

impl View for MountedPartition {
    type V = (Seq<u8>, Seq<u8>, Seq<u8>, Seq<u8>);

    open spec fn view(&self) -> (Seq<u8>, Seq<u8>, Seq<u8>, Seq<u8>) {
        (self.device@, self.mountpoint@, self.fstype@, self.opts@)
    }
}

/// The views of a sequence of mounted partitions.
pub open spec fn mount_views(v: Seq<MountedPartition>) -> Seq<(Seq<u8>, Seq<u8>, Seq<u8>, Seq<u8>)> {
    v.map_values(|m: MountedPartition| m@)
}

/// What one line of the mount table contributes: its first four fields, kept
/// when `all` is set or when its filesystem type is one of `fstypes`. A line
/// with fewer than four fields is malformed: the error holds the line.
pub open spec fn mount_entry(line: Seq<u8>, all: bool, fstypes: Seq<Seq<u8>>) -> Result<
    Option<(Seq<u8>, Seq<u8>, Seq<u8>, Seq<u8>)>,
    DiskErrorView,
> {
    let f = fields(line);
    if f.len() < 4 {
        Err(DiskErrorView::MalformedInput(line))
    } else if all || fstypes.contains(f[2]) {
        Ok(Some((f[0], f[1], f[2], f[3])))
    } else {
        Ok(None)
    }
}

/// The mounted partitions of the lines, in order; the first error stops the scan.
pub open spec fn collect_mounts(ls: Seq<Seq<u8>>, all: bool, fstypes: Seq<Seq<u8>>) -> Result<
    Seq<(Seq<u8>, Seq<u8>, Seq<u8>, Seq<u8>)>,
    DiskErrorView,
>
    decreases ls.len(),
{
    if ls.len() == 0 {
        Ok(Seq::empty())
    } else {
        match collect_mounts(ls.drop_last(), all, fstypes) {
            Err(e) => Err(e),
            Ok(acc) => match mount_entry(ls.last(), all, fstypes) {
                Err(e) => Err(e),
                Ok(None) => Ok(acc),
                Ok(Some(m)) => Ok(acc.push(m)),
            },
        }
    }
}

/// The mounted partitions, from the filesystem-type list and the mount table.
pub open spec fn mounted_partitions(filesystems: Seq<u8>, mounts: Seq<u8>, all: bool) -> Result<
    Seq<(Seq<u8>, Seq<u8>, Seq<u8>, Seq<u8>)>,
    DiskErrorView,
> {
    match collect_fstypes(lines(filesystems)) {
        Err(e) => Err(e),
        Ok(t) => collect_mounts(lines(mounts), all, t),
    }
}

proof fn lemma_fstypes_error_stays(ls: Seq<Seq<u8>>, i: int)
    requires
        0 <= i <= ls.len(),
        collect_fstypes(ls.subrange(0, i)) is Err,
    ensures
        collect_fstypes(ls) == collect_fstypes(ls.subrange(0, i)),
    decreases ls.len() - i,
{
    if i < ls.len() {
        assert(ls.subrange(0, i + 1).drop_last() =~= ls.subrange(0, i));
        lemma_fstypes_error_stays(ls, i + 1);
    } else {
        assert(ls.subrange(0, i) =~= ls);
    }
}

proof fn lemma_mounts_error_stays(ls: Seq<Seq<u8>>, i: int, all: bool, t: Seq<Seq<u8>>)
    requires
        0 <= i <= ls.len(),
        collect_mounts(ls.subrange(0, i), all, t) is Err,
    ensures
        collect_mounts(ls, all, t) == collect_mounts(ls.subrange(0, i), all, t),
    decreases ls.len() - i,
{
    if i < ls.len() {
        assert(ls.subrange(0, i + 1).drop_last() =~= ls.subrange(0, i));
        lemma_mounts_error_stays(ls, i + 1, all, t);
    } else {
        assert(ls.subrange(0, i) =~= ls);
    }
}

/// Whether `w` is the word `nodev`.
fn is_nodev(w: &[u8]) -> (r: bool)
    ensures
        r == (w@ == nodev_word()),
{
    let word: [u8; 5] = [110u8, 111u8, 100u8, 101u8, 118u8];
    let r = bytes_eq(w, word.as_slice());
    assert(word@ =~= nodev_word());
    r
}

/// Whether `w` is the word `zfs`.
fn is_zfs(w: &[u8]) -> (r: bool)
    ensures
        r == (w@ == zfs_word()),
{
    let word: [u8; 3] = [122u8, 102u8, 115u8];
    let r = bytes_eq(w, word.as_slice());
    assert(word@ =~= zfs_word());
    r
}

/// The filesystem types to look for, from the kernel's list of filesystem
/// types (lines of an optional `nodev` mark and a type name): those that need
/// a block device, and `zfs`.
pub fn fstype(data: &[u8]) -> (r: Result<Vec<Vec<u8>>, DiskError>)
    ensures
        match collect_fstypes(lines(data@)) {
            Err(e) => r matches Err(x) && x@ == e,
            Ok(t) => r matches Ok(v) && byte_views(v@) == t,
        },
{
    let all = split_lines(data);
    let ghost ls = byte_views(all@);
    let mut out: Vec<Vec<u8>> = Vec::new();
    let mut i: usize = 0;
    assert(ls.subrange(0, 0) =~= Seq::<Seq<u8>>::empty());
    assert(byte_views(out@) =~= Seq::<Seq<u8>>::empty());
    while i < all.len()
        invariant
            i <= all@.len(),
            ls == byte_views(all@),
            ls == lines(data@),
            collect_fstypes(ls.subrange(0, i as int)) == Ok::<Seq<Seq<u8>>, DiskErrorView>(
                byte_views(out@),
            ),
        decreases all@.len() - i,
    {
        let ghost pre = ls.subrange(0, i + 1);
        assert(pre.drop_last() =~= ls.subrange(0, i as int));
        assert(pre.last() == all@[i as int]@);
        let ghost before = byte_views(out@);
        let f = split_fields(all[i].as_slice());
        let ghost fv = byte_views(f@);
        if f.len() == 0 || (is_nodev(f[0].as_slice()) && f.len() < 2) {
            proof {
                lemma_fstypes_error_stays(ls, i + 1);
            }
            return Err(DiskError::MalformedInput(all[i].clone()));
        }
        if is_nodev(f[0].as_slice()) {
            if is_zfs(f[1].as_slice()) {
                out.push(f[1].clone());
                assert(byte_views(out@) =~= before.push(fv[1]));
            }
        } else {
            out.push(f[0].clone());
            assert(byte_views(out@) =~= before.push(fv[0]));
        }
        i += 1;
    }
    assert(ls.subrange(0, i as int) =~= ls);
    Ok(out)
}

/// Whether `w` is one of `list`.
fn contains_word(list: &Vec<Vec<u8>>, w: &[u8]) -> (r: bool)
    ensures
        r == byte_views(list@).contains(w@),
{
    let mut j: usize = 0;
    while j < list.len()
        invariant
            j <= list@.len(),
            forall|k: int| 0 <= k < j ==> byte_views(list@)[k] != w@,
        decreases list@.len() - j,
    {
        if bytes_eq(list[j].as_slice(), w) {
            assert(byte_views(list@)[j as int] == w@);
            return true;
        }
        j += 1;
    }
    false
}

/// The mounted partitions, from the kernel's list of filesystem types and the
/// mount table (lines of device, mount point, type, options, ...). With `all`
/// every mounted filesystem is listed; without it, only those whose type is
/// one that `fstype` keeps, that is physical devices.
pub fn disk_partitions(all: bool, filesystems: &[u8], mounts: &[u8]) -> (r: Result<
    Vec<MountedPartition>,
    DiskError,
>)
    ensures
        match mounted_partitions(filesystems@, mounts@, all) {
            Err(e) => r matches Err(x) && x@ == e,
            Ok(m) => r matches Ok(v) && mount_views(v@) == m,
        },
{
    let types = fstype(filesystems)?;
    let ghost tv = byte_views(types@);
    let lns = split_lines(mounts);
    let ghost ls = byte_views(lns@);
    let mut out: Vec<MountedPartition> = Vec::new();
    let mut i: usize = 0;
    assert(ls.subrange(0, 0) =~= Seq::<Seq<u8>>::empty());
    assert(mount_views(out@) =~= Seq::<(Seq<u8>, Seq<u8>, Seq<u8>, Seq<u8>)>::empty());
    while i < lns.len()
        invariant
            i <= lns@.len(),
            ls == byte_views(lns@),
            ls == lines(mounts@),
            tv == byte_views(types@),
            collect_fstypes(lines(filesystems@)) == Ok::<Seq<Seq<u8>>, DiskErrorView>(tv),
            collect_mounts(ls.subrange(0, i as int), all, tv) == Ok::<
                Seq<(Seq<u8>, Seq<u8>, Seq<u8>, Seq<u8>)>,
                DiskErrorView,
            >(mount_views(out@)),
        decreases lns@.len() - i,
    {
        let ghost pre = ls.subrange(0, i + 1);
        assert(pre.drop_last() =~= ls.subrange(0, i as int));
        assert(pre.last() == lns@[i as int]@);
        let ghost before = mount_views(out@);
        let f = split_fields(lns[i].as_slice());
        let ghost fv = byte_views(f@);
        if f.len() < 4 {
            proof {
                lemma_mounts_error_stays(ls, i + 1, all, tv);
            }
            return Err(DiskError::MalformedInput(lns[i].clone()));
        }
        if all || contains_word(&types, f[2].as_slice()) {
            let m = MountedPartition {
                device: f[0].clone(),
                mountpoint: f[1].clone(),
                fstype: f[2].clone(),
                opts: f[3].clone(),
            };
            out.push(m);
            assert(mount_views(out@) =~= before.push((fv[0], fv[1], fv[2], fv[3])));
        }
        i += 1;
    }
    assert(ls.subrange(0, i as int) =~= ls);
    Ok(out)
}

} // verus!
