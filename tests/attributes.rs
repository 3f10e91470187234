use zippynfs::attr::{check_set_size, fattr_of, statfs, time_val, times_to_set, HostMeta, REPORTED_MODE};
use zippynfs::types::{Ftype, NfsError, TimeVal};

fn tv(seconds: i64, useconds: i64) -> TimeVal {
    TimeVal { seconds, useconds }
}

fn meta(is_dir: bool, size: u64) -> HostMeta {
    HostMeta { is_dir, size, atime: tv(1, 2), mtime: tv(3, 4), ctime: tv(5, 6) }
}

#[test]
fn test_fs_get_attr() {
    let attr3 = fattr_of(3, &meta(false, 27));
    let attr4 = fattr_of(4, &meta(false, 0));
    let attr8 = fattr_of(8, &meta(true, 4096));
    assert_eq!(attr3.fid, 3);
    assert_eq!(attr4.fid, 4);
    assert_eq!(attr8.fid, 8);
    assert_eq!(attr3.size, 27);
    assert_eq!(attr4.size, 0);
    assert_eq!(attr3.ftype, Ftype::Nfreg);
    assert_eq!(attr8.ftype, Ftype::Nfdir);
    assert_eq!(attr3.blocks, 1);
    assert_eq!(attr4.blocks, 0);
    assert_eq!(attr8.blocks, 1);
    assert_eq!(fattr_of(9, &meta(false, 4097)).blocks, 2);
    assert_eq!(attr3.mode, REPORTED_MODE);
    assert_eq!(attr3.nlink, 1);
    assert_eq!(attr3.blocksize, 4096);
    assert_eq!(attr3.atime, tv(1, 2));
    assert_eq!(attr3.mtime, tv(3, 4));
    assert_eq!(attr3.ctime, tv(5, 6));
}

#[test]
fn largest_size_has_exact_block_count() {
    assert_eq!(fattr_of(2, &meta(false, u64::MAX)).blocks, u64::MAX / 4096 + 1);
}

#[test]
fn test_nfs_setattr_time() {
    assert_eq!(times_to_set(Some(tv(10, 20)), Some(tv(30, 40))), Some((tv(10, 20), tv(30, 40))));
    // Only an access time: the modification time follows it.
    assert_eq!(times_to_set(Some(tv(50, 60)), None), Some((tv(50, 60), tv(50, 60))));
    // Only a modification time: nothing is set.
    assert_eq!(times_to_set(None, Some(tv(70, 80))), None);
    assert_eq!(times_to_set(None, None), None);
}

#[test]
fn test_nfs_setattr_size() {
    assert_eq!(check_set_size(false, Some(10)), Ok(()));
    assert_eq!(check_set_size(true, Some(10)), Err(NfsError::Isdir));
    assert_eq!(check_set_size(true, None), Ok(()));
}

#[test]
fn host_times_in_microseconds() {
    assert_eq!(time_val(12, 345_678_999), tv(12, 345_678));
    assert_eq!(time_val(u64::MAX, 0), tv(i64::MAX, 0));
}

#[test]
fn test_nfs_statfs() {
    let s = statfs();
    assert_eq!(s.tsize, 2 << 20);
    assert_eq!(s.bsize, 1 << 12);
    assert_eq!(s.blocks, 1 << 20);
    assert_eq!(s.bfree, 1 << 20);
    assert_eq!(s.bavail, 1 << 20);
}

#[test]
fn error_messages() {
    assert_eq!(NfsError::Stale.message(), "NFSERR_STALE: Stale file handle");
    assert_eq!(NfsError::Noent.message(), "NFSERR_NOENT: No such file or directory");
    assert_eq!(NfsError::Exist.message(), "NFSERR_EXIST: File or directory exists");
    assert_eq!(NfsError::Isdir.message(), "NFSERR_ISDIR: Is a directory");
    assert_eq!(NfsError::Notdir.message(), "NFSERR_NOTDIR: Not a directory");
    assert_eq!(NfsError::Notempty.message(), "NFSERR_NOTEMPTY: Directory not empty");
    assert_eq!(NfsError::Nametoolong.message(), "NFSERR_NAMETOOLONG: File name too long");
}
