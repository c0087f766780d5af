//! The records that the buckets hold for an inode: its attributes and, for a
//! directory, its entries.
use vstd::prelude::*;
use vstd::std_specs::convert::FromSpecImpl;
use crate::fuse::dentry::lex_lt;

verus! {

/// The size of a block, by which the block count of a file is reported.
pub const BLOCK_SIZE: u64 = 512;

/// The permission bits that every mounted file and directory gets.
pub const DEFAULT_MODE: u16 = 0o777;

/// The largest count of nanoseconds that a time stamp read from the clock holds.
pub const MAX_NANOS: u32 = 999_999_999;

/// What an inode is.
#[derive(Copy, Clone, PartialEq, Eq, Debug, Structural)]
pub enum FileKind {
    File,
    Directory,
    Symlink,
}

/// The attributes of an inode. Times are seconds and nanoseconds from the
/// epoch, the seconds negative before it.
#[derive(PartialEq, Eq, Debug)]
pub struct InodeAttributes {
    pub inode: u64,
    /// How many handles are open on the inode.
    pub open_file_handles: u64,
    pub size: u64,
    pub last_accessed: (i64, u32),
    pub last_modified: (i64, u32),
    pub last_metadata_changed: (i64, u32),
    pub kind: FileKind,
    /// Permission and special mode bits.
    pub mode: u16,
    pub hardlinks: u32,
    pub uid: u32,
    pub gid: u32,
    /// Extended attributes, as pairs of name and value in the strict order
    /// of the names, so that no name occurs twice.
    pub xattrs: Vec<(Vec<u8>, Vec<u8>)>,
}

/// The attributes of an inode as a mathematical value.
pub struct InodeAttributesView {
    pub inode: u64,
    pub open_file_handles: u64,
    pub size: u64,
    pub last_accessed: (i64, u32),
    pub last_modified: (i64, u32),
    pub last_metadata_changed: (i64, u32),
    pub kind: FileKind,
    pub mode: u16,
    pub hardlinks: u32,
    pub uid: u32,
    pub gid: u32,
    pub xattrs: Seq<(Seq<u8>, Seq<u8>)>,
}

/// A pair of byte vectors as a pair of byte sequences.
pub open spec fn pair_view(p: (Vec<u8>, Vec<u8>)) -> (Seq<u8>, Seq<u8>) {
    (p.0@, p.1@)
}

/// A list of pairs of byte vectors as a sequence of pairs of byte sequences.
pub open spec fn pairs_view(v: Seq<(Vec<u8>, Vec<u8>)>) -> Seq<(Seq<u8>, Seq<u8>)> {
    v.map_values(|p: (Vec<u8>, Vec<u8>)| pair_view(p))
}

impl View for InodeAttributes {
    type V = InodeAttributesView;

    open spec fn view(&self) -> InodeAttributesView {
        InodeAttributesView {
            inode: self.inode,
            open_file_handles: self.open_file_handles,
            size: self.size,
            last_accessed: self.last_accessed,
            last_modified: self.last_modified,
            last_metadata_changed: self.last_metadata_changed,
            kind: self.kind,
            mode: self.mode,
            hardlinks: self.hardlinks,
            uid: self.uid,
            gid: self.gid,
            xattrs: pairs_view(self.xattrs@),
        }
    }
}

/// Whether the pairs stand in the strict order of their names.
pub open spec fn xattrs_sorted(x: Seq<(Seq<u8>, Seq<u8>)>) -> bool {
    forall|i: int, j: int|
        0 <= i < j < x.len() ==> lex_lt((#[trigger] x[i]).0, (#[trigger] x[j]).0)
}

impl InodeAttributesView {
    /// Whether the extended attributes are in order, so that no name occurs
    /// twice.
    pub open spec fn wf(self) -> bool {
        xattrs_sorted(self.xattrs)
    }

    /// The attributes of a file of `size` bytes that was mounted at `now`.
    pub open spec fn file(inode: u64, size: u64, now: (i64, u32)) -> InodeAttributesView {
        InodeAttributesView {
            inode,
            open_file_handles: 0,
            size,
            last_accessed: now,
            last_modified: now,
            last_metadata_changed: now,
            kind: FileKind::File,
            mode: DEFAULT_MODE,
            hardlinks: 0,
            uid: 0,
            gid: 0,
            xattrs: Seq::empty(),
        }
    }

    /// The attributes of a directory that was mounted at `now`.
    pub open spec fn directory(inode: u64, now: (i64, u32)) -> InodeAttributesView {
        InodeAttributesView {
            inode,
            open_file_handles: 0,
            size: 0,
            last_accessed: now,
            last_modified: now,
            last_metadata_changed: now,
            kind: FileKind::Directory,
            mode: DEFAULT_MODE,
            hardlinks: 0,
            uid: 0,
            gid: 0,
            xattrs: Seq::empty(),
        }
    }

    /// These attributes after the content was rewritten at `now`.
    pub open spec fn touched(self, now: (i64, u32)) -> InodeAttributesView {
        InodeAttributesView { last_modified: now, last_metadata_changed: now, ..self }
    }

    /// These attributes after one more handle was opened. The count stays at
    /// its largest value once it has reached it.
    pub open spec fn opened(self) -> InodeAttributesView {
        InodeAttributesView {
            open_file_handles: if self.open_file_handles < u64::MAX {
                (self.open_file_handles + 1) as u64
            } else {
                u64::MAX
            },
            ..self
        }
    }
}

/// A copy of a list of bytes.
pub fn copy_bytes(bytes: &[u8]) -> (copy: Vec<u8>)
    ensures
        copy@ == bytes@,
{
    vstd::slice::slice_to_vec(bytes)
}

impl Clone for InodeAttributes {
    fn clone(&self) -> (copy: InodeAttributes)
        ensures
            copy@ == self@,
    {
        let mut xattrs: Vec<(Vec<u8>, Vec<u8>)> = Vec::new();
        let mut i: usize = 0;
        while i < self.xattrs.len()
            invariant
                i <= self.xattrs@.len(),
                xattrs@.len() == i,
                pairs_view(xattrs@) == pairs_view(self.xattrs@).take(i as int),
            decreases self.xattrs@.len() - i,
        {
            let ghost before = xattrs@;
            let name = copy_bytes(self.xattrs[i].0.as_slice());
            let value = copy_bytes(self.xattrs[i].1.as_slice());
            xattrs.push((name, value));
            i += 1;
            assert forall|k: int| 0 <= k < i implies pairs_view(xattrs@)[k] == pairs_view(
                self.xattrs@,
            )[k] by {
                if k < i - 1 {
                    assert(pairs_view(before)[k] == pairs_view(self.xattrs@).take(i - 1)[k]);
                }
            }
            assert(pairs_view(xattrs@) =~= pairs_view(self.xattrs@).take(i as int));
        }
        assert(pairs_view(self.xattrs@).take(i as int) =~= pairs_view(self.xattrs@));
        InodeAttributes {
            inode: self.inode,
            open_file_handles: self.open_file_handles,
            size: self.size,
            last_accessed: self.last_accessed,
            last_modified: self.last_modified,
            last_metadata_changed: self.last_metadata_changed,
            kind: self.kind,
            mode: self.mode,
            hardlinks: self.hardlinks,
            uid: self.uid,
            gid: self.gid,
            xattrs,
        }
    }
}

impl InodeAttributes {
    /// The attributes of a file of `size` bytes that is mounted at `now`.
    pub fn new_file(inode: u64, size: u64, now: (i64, u32)) -> (attr: InodeAttributes)
        ensures
            attr@ == InodeAttributesView::file(inode, size, now),
            attr@.wf(),
    {
        let attr = InodeAttributes {
            inode,
            open_file_handles: 0,
            size,
            last_accessed: now,
            last_modified: now,
            last_metadata_changed: now,
            kind: FileKind::File,
            mode: DEFAULT_MODE,
            hardlinks: 0,
            uid: 0,
            gid: 0,
            xattrs: Vec::new(),
        };
        assert(attr@.xattrs =~= Seq::empty());
        attr
    }

    /// The attributes of a directory that is mounted at `now`.
    pub fn new_dict(inode: u64, now: (i64, u32)) -> (attr: InodeAttributes)
        ensures
            attr@ == InodeAttributesView::directory(inode, now),
            attr@.wf(),
    {
        let attr = InodeAttributes {
            inode,
            open_file_handles: 0,
            size: 0,
            last_accessed: now,
            last_modified: now,
            last_metadata_changed: now,
            kind: FileKind::Directory,
            mode: DEFAULT_MODE,
            hardlinks: 0,
            uid: 0,
            gid: 0,
            xattrs: Vec::new(),
        };
        assert(attr@.xattrs =~= Seq::empty());
        attr
    }
}

/// What a `stat` of an inode reports.
#[derive(PartialEq, Eq, Debug)]
pub struct FileAttr {
    pub ino: u64,
    pub size: u64,
    /// The size in blocks of `BLOCK_SIZE` bytes, rounded up.
    pub blocks: u64,
    pub atime: (i64, u32),
    pub mtime: (i64, u32),
    pub ctime: (i64, u32),
    /// The time of creation, which is not recorded: the epoch.
    pub crtime: (i64, u32),
    pub kind: FileKind,
    pub perm: u16,
    pub nlink: u32,
    pub uid: u32,
    pub gid: u32,
    pub rdev: u32,
    pub blksize: u32,
    pub flags: u32,
}

impl Clone for FileAttr {
    fn clone(&self) -> (copy: FileAttr)
        ensures
            copy == *self,
    {
        *self
    }
}

impl Copy for FileAttr {

}

/// What a `stat` reports of an inode with the attributes `attrs`.
pub open spec fn file_attr_of(attrs: InodeAttributesView) -> FileAttr {
    FileAttr {
        ino: attrs.inode,
        size: attrs.size,
        blocks: ((attrs.size + BLOCK_SIZE - 1) / (BLOCK_SIZE as int)) as u64,
        atime: attrs.last_accessed,
        mtime: attrs.last_modified,
        ctime: attrs.last_metadata_changed,
        crtime: (0, 0),
        kind: attrs.kind,
        perm: attrs.mode,
        nlink: attrs.hardlinks,
        uid: attrs.uid,
        gid: attrs.gid,
        rdev: 0,
        blksize: BLOCK_SIZE as u32,
        flags: 0,
    }
}

impl From<InodeAttributes> for FileAttr {
    fn from(attrs: InodeAttributes) -> (attr: FileAttr) {
        let whole = attrs.size / BLOCK_SIZE;
        let blocks = if attrs.size % BLOCK_SIZE == 0 {
            whole
        } else {
            whole + 1
        };
        FileAttr {
            ino: attrs.inode,
            size: attrs.size,
            blocks,
            atime: attrs.last_accessed,
            mtime: attrs.last_modified,
            ctime: attrs.last_metadata_changed,
            crtime: (0, 0),
            kind: attrs.kind,
            perm: attrs.mode,
            nlink: attrs.hardlinks,
            uid: attrs.uid,
            gid: attrs.gid,
            rdev: 0,
            blksize: BLOCK_SIZE as u32,
            flags: 0,
        }
    }
}

impl FromSpecImpl<InodeAttributes> for FileAttr {
    open spec fn obeys_from_spec() -> bool {
        true
    }

    open spec fn from_spec(attrs: InodeAttributes) -> FileAttr {
        file_attr_of(attrs@)
    }
}

/// `std::time::SystemTime`, carried as an opaque value.
#[verifier::external_type_specification]
#[verifier::external_body]
pub struct ExSystemTime(std::time::SystemTime);

/// `SystemTime::now`: the reading of the clock. Nothing is claimed of it.
#[verifier::external_body]
fn system_now() -> (t: std::time::SystemTime) {
    std::time::SystemTime::now()
}

/// `SystemTime::duration_since` the epoch: the distance of `t` from the epoch,
/// in whole seconds and nanoseconds, after it (`Ok`) or before it (`Err`). The
/// nanoseconds, those of `Duration::subsec_nanos`, are below a thousand million.
#[verifier::external_body]
fn since_epoch(t: &std::time::SystemTime) -> (r: Result<(u64, u32), (u64, u32)>)
    ensures
        r == epoch_offset(*t),
        match r {
            Ok(after) => after.1 <= MAX_NANOS,
            Err(before) => before.1 <= MAX_NANOS,
        },
{
    match t.duration_since(std::time::UNIX_EPOCH) {
        Ok(d) => Ok((d.as_secs(), d.subsec_nanos())),
        Err(e) => Err((e.duration().as_secs(), e.duration().subsec_nanos())),
    }
}

/// The time stamp of a distance from the epoch: the seconds as they are
/// after the epoch, negated before it, and never beyond the largest signed
/// 64-bit number either way.
pub open spec fn stamp_of(offset: Result<(u64, u32), (u64, u32)>) -> (i64, u32) {
    match offset {
        Ok(after) => (
            if after.0 <= i64::MAX as u64 {
                after.0 as i64
            } else {
                i64::MAX
            },
            after.1,
        ),
        Err(before) => (
            if before.0 <= i64::MAX as u64 {
                (-(before.0 as int)) as i64
            } else {
                (-(i64::MAX as int)) as i64
            },
            before.1,
        ),
    }
}

/// The time stamp of a distance from the epoch.
pub fn time_from_offset(offset: Result<(u64, u32), (u64, u32)>) -> (stamp: (i64, u32))
    ensures
        stamp == stamp_of(offset),
{
    match offset {
        Ok(after) => {
            let secs: i64 = if after.0 <= i64::MAX as u64 {
                after.0 as i64
            } else {
                i64::MAX
            };
            (secs, after.1)
        },
        Err(before) => {
            let secs: i64 = if before.0 <= i64::MAX as u64 {
                -(before.0 as i64)
            } else {
                -i64::MAX
            };
            (secs, before.1)
        },
    }
}

/// The time stamp of a reading of the clock.
pub fn time_from_system_time(system_time: &std::time::SystemTime) -> (stamp: (i64, u32))
    ensures
        stamp == stamp_of(epoch_offset(*system_time)) && stamp.1 <= MAX_NANOS,
{
    time_from_offset(since_epoch(system_time))
}

/// The time stamp of this moment.
pub fn time_now() -> (stamp: (i64, u32))
    ensures
        stamp.1 <= MAX_NANOS,
{
    let now = system_now();
    time_from_system_time(&now)
}

/// The distance of a point in time from the epoch, after it (`Ok`) or before
/// it (`Err`), in whole seconds and nanoseconds: what
/// `SystemTime::duration_since` gives for the epoch.
pub uninterp spec fn epoch_offset(t: std::time::SystemTime) -> Result<(u64, u32), (u64, u32)>;

} // verus!
