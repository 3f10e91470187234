use vstd::prelude::*;

verus! {

/// A file identifier: a persistent integer naming one filesystem object.
pub type Fid = u64;

/// The identifier of the root directory; it is never deleted.
pub const ROOT_FID: u64 = 1;

/// The largest number of payload bytes that one response carries.
pub const MAX_BUF_LEN: u64 = 4000;

/// The size of a filesystem block, as reported in attributes.
pub const BLOCK_SIZE: u64 = 4096;

/// The errors that an operation can report to a client.
#[derive(Clone, Copy, Debug, PartialEq, Eq, Structural)]
pub enum NfsError {
    Stale,
    Noent,
    Exist,
    Isdir,
    Notdir,
    Notempty,
    Nametoolong,
}

/// The message that accompanies each error on the wire.
pub open spec fn message_text(e: NfsError) -> Seq<char> {
    match e {
        NfsError::Stale => "NFSERR_STALE: Stale file handle"@,
        NfsError::Noent => "NFSERR_NOENT: No such file or directory"@,
        NfsError::Exist => "NFSERR_EXIST: File or directory exists"@,
        NfsError::Isdir => "NFSERR_ISDIR: Is a directory"@,
        NfsError::Notdir => "NFSERR_NOTDIR: Not a directory"@,
        NfsError::Notempty => "NFSERR_NOTEMPTY: Directory not empty"@,
        NfsError::Nametoolong => "NFSERR_NAMETOOLONG: File name too long"@,
    }
}

impl NfsError {
    /// The message that accompanies the error on the wire.
    pub fn message(&self) -> (r: &'static str)
        ensures
            r@ == message_text(*self),
    {
        match self {
            NfsError::Stale => "NFSERR_STALE: Stale file handle",
            NfsError::Noent => "NFSERR_NOENT: No such file or directory",
            NfsError::Exist => "NFSERR_EXIST: File or directory exists",
            NfsError::Isdir => "NFSERR_ISDIR: Is a directory",
            NfsError::Notdir => "NFSERR_NOTDIR: Not a directory",
            NfsError::Notempty => "NFSERR_NOTEMPTY: Directory not empty",
            NfsError::Nametoolong => "NFSERR_NAMETOOLONG: File name too long",
        }
    }
}

/// The type of a filesystem object. Only regular files and directories are
/// ever reported.
#[derive(Clone, Copy, Debug, PartialEq, Eq, Structural)]
pub enum Ftype {
    Nfreg,
    Nfdir,
    Nfnon,
    Nfblk,
    Nfchr,
    Nflnk,
}

/// The type reported for an object whose numbered file is (or is not) a
/// directory.
pub open spec fn ftype_of(is_dir: bool) -> Ftype {
    if is_dir {
        Ftype::Nfdir
    } else {
        Ftype::Nfreg
    }
}

pub fn ftype_for(is_dir: bool) -> (r: Ftype)
    ensures
        r == ftype_of(is_dir),
{
    if is_dir {
        Ftype::Nfdir
    } else {
        Ftype::Nfreg
    }
}

/// A point in time, in seconds and microseconds.
#[derive(Clone, Copy, Debug, PartialEq, Eq, Structural)]
pub struct TimeVal {
    pub seconds: i64,
    pub useconds: i64,
}

/// One entry of a directory listing.
#[derive(Clone, Debug)]
pub struct DirEntry {
    pub fid: u64,
    pub fname: String,
    pub ftype: Ftype,
}

/// How a write is to be made durable.
#[derive(Clone, Copy, Debug, PartialEq, Eq, Structural)]
pub enum WriteStable {
    Unstable,
    DataSync,
    FileSync,
}

} // verus!
