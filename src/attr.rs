use vstd::prelude::*;

use crate::types::{ftype_for, ftype_of, Ftype, NfsError, TimeVal, BLOCK_SIZE};

verus! {

/// What the host reports of a numbered file.
#[derive(Clone, Copy, Debug, PartialEq, Eq, Structural)]
pub struct HostMeta {
    pub is_dir: bool,
    pub size: u64,
    pub atime: TimeVal,
    pub mtime: TimeVal,
    pub ctime: TimeVal,
}

/// The attributes of an object, as reported to clients.
#[derive(Clone, Copy, Debug, PartialEq, Eq, Structural)]
pub struct Fattr {
    pub ftype: Ftype,
    pub mode: u32,
    pub nlink: u32,
    pub uid: u32,
    pub gid: u32,
    pub size: u64,
    pub blocksize: u64,
    pub rdev: u32,
    pub blocks: u64,
    pub fsid: u64,
    pub fid: u64,
    pub atime: TimeVal,
    pub mtime: TimeVal,
    pub ctime: TimeVal,
}

/// Permissions are not enforced: every object reports full access.
pub const REPORTED_MODE: u32 = 0x1FF;

/// The number of blocks that `size` bytes take.
pub open spec fn blocks_for(size: u64) -> u64 {
    ((size as int + BLOCK_SIZE - 1) / BLOCK_SIZE as int) as u64
}

/// The attributes of object `fid`, whose numbered file the host describes by
/// `meta`.
pub fn fattr_of(fid: u64, meta: &HostMeta) -> (r: Fattr)
    ensures
        r.ftype == ftype_of(meta.is_dir),
        r.mode == REPORTED_MODE,
        r.nlink == 1,
        r.uid == 0,
        r.gid == 0,
        r.size == meta.size,
        r.blocksize == BLOCK_SIZE,
        r.rdev == 0,
        r.blocks == blocks_for(meta.size),
        r.fsid == 0,
        r.fid == fid,
        r.atime == meta.atime,
        r.mtime == meta.mtime,
        r.ctime == meta.ctime,
{
    let blocks = meta.size / BLOCK_SIZE + if meta.size % BLOCK_SIZE == 0 {
        0
    } else {
        1
    };
    assert(blocks == blocks_for(meta.size)) by (nonlinear_arith)
        requires
            blocks == meta.size / 4096 + if meta.size % 4096 == 0 {
                0int
            } else {
                1int
            },
            BLOCK_SIZE == 4096,
    ;
    Fattr {
        ftype: ftype_for(meta.is_dir),
        mode: REPORTED_MODE,
        nlink: 1,
        uid: 0,
        gid: 0,
        size: meta.size,
        blocksize: BLOCK_SIZE,
        rdev: 0,
        blocks,
        fsid: 0,
        fid,
        atime: meta.atime,
        mtime: meta.mtime,
        ctime: meta.ctime,
    }
}

/// A host time, given as whole seconds and nanoseconds since the epoch, in
/// the reported form; seconds beyond the reported range are capped.
pub fn time_val(secs: u64, nanos: u32) -> (r: TimeVal)
    ensures
        r.seconds == if secs <= i64::MAX as u64 {
            secs as i64
        } else {
            i64::MAX
        },
        r.useconds == nanos / 1000,
{
    let seconds = if secs <= i64::MAX as u64 {
        secs as i64
    } else {
        i64::MAX
    };
    TimeVal { seconds, useconds: (nanos / 1000) as i64 }
}

/// The (access, modification) times that a SETATTR applies: with an access
/// time, that time and the modification time, or the access time again when
/// none is given; with no access time, nothing.
pub open spec fn times_applied(atime: Option<TimeVal>, mtime: Option<TimeVal>) -> Option<
    (TimeVal, TimeVal),
> {
    match atime {
        Some(a) => Some(
            (
                a,
                match mtime {
                    Some(m) => m,
                    None => a,
                },
            ),
        ),
        None => None,
    }
}

pub fn times_to_set(atime: Option<TimeVal>, mtime: Option<TimeVal>) -> (r: Option<(TimeVal, TimeVal)>)
    ensures
        r == times_applied(atime, mtime),
{
    match atime {
        Some(a) => Some(
            (
                a,
                match mtime {
                    Some(m) => m,
                    None => a,
                },
            ),
        ),
        None => None,
    }
}

/// A SETATTR may set a size on files only.
pub fn check_set_size(is_dir: bool, size: Option<u64>) -> (r: Result<(), NfsError>)
    ensures
        r == if is_dir && size is Some {
            Err::<(), NfsError>(NfsError::Isdir)
        } else {
            Ok(())
        },
{
    if is_dir && size.is_some() {
        Err(NfsError::Isdir)
    } else {
        Ok(())
    }
}

/// The fixed summary that STATFS reports.
#[derive(Clone, Copy, Debug, PartialEq, Eq, Structural)]
pub struct StatFsRes {
    pub tsize: u64,
    pub bsize: u64,
    pub blocks: u64,
    pub bfree: u64,
    pub bavail: u64,
}

pub fn statfs() -> (r: StatFsRes)
    ensures
        r == (StatFsRes {
            tsize: 2097152,
            bsize: 4096,
            blocks: 1048576,
            bfree: 1048576,
            bavail: 1048576,
        }),
{
    StatFsRes { tsize: 2097152, bsize: 4096, blocks: 1048576, bfree: 1048576, bavail: 1048576 }
}

} // verus!
