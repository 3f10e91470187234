use zippynfs::types::WriteStable;
use zippynfs::types::NfsError;
use zippynfs::write::{
    apply_write, apply_writes, check_read, next_resend, read_bytes, read_window, write_reply,
    UnstableTable, UnstableWrite,
};

const ALPHABET: &[u8] = b"abcdefghijklmnopqrstuvwxyz\n";

fn unstable(offset: u64, data: &[u8]) -> UnstableWrite {
    UnstableWrite { offset, count: data.len() as u64, data: data.to_vec() }
}

#[test]
fn test_nfs_read() {
    let f3 = ALPHABET.to_vec();
    let f4: Vec<u8> = Vec::new();
    assert_eq!(read_bytes(&f3, 1, 10), b"bcdefghijk".to_vec());
    assert_eq!(read_bytes(&f3, 0, 30), ALPHABET.to_vec());
    assert_eq!(read_bytes(&f3, 30, 10), Vec::<u8>::new());
    assert_eq!(read_bytes(&f3, 0, 0), Vec::<u8>::new());
    assert_eq!(read_bytes(&f4, 0, 10), Vec::<u8>::new());
}

#[test]
fn read_is_capped_at_one_response() {
    assert_eq!(read_window(10), 10);
    assert_eq!(read_window(4000), 4000);
    assert_eq!(read_window(5000), 4000);
    let big = vec![7u8; 10000];
    assert_eq!(read_bytes(&big, 0, 10000).len(), 4000);
    assert_eq!(read_bytes(&big, 9000, 10000).len(), 1000);
}

#[test]
fn test_nfs_write_stable_simple() {
    let mut f = ALPHABET.to_vec();
    let data1 = b"Hello, World!".to_vec();
    apply_write(&mut f, 0, &data1);
    let reply = write_reply(WriteStable::FileSync, data1.len() as u64, 9);
    assert_eq!(reply.count, 13);
    assert_eq!(reply.committed, WriteStable::FileSync);
    assert_eq!(reply.verf, 9);
    let mut expected = data1.clone();
    expected.extend_from_slice(&ALPHABET[13..]);
    assert_eq!(f.len(), 27);
    assert_eq!(f, expected);
    assert_eq!(read_bytes(&f, 0, 13), data1);
}

#[test]
fn test_nfs_write_stable_extend() {
    let mut f = ALPHABET.to_vec();
    let data1 = b"Hello, World!".to_vec();
    apply_write(&mut f, 26, &data1);
    let mut expected = ALPHABET[..26].to_vec();
    expected.extend_from_slice(&data1);
    assert_eq!(f.len(), 39);
    assert_eq!(f, expected);
}

#[test]
fn write_past_end_fills_with_zeros() {
    let mut f = b"ab".to_vec();
    apply_write(&mut f, 4, &b"cd".to_vec());
    assert_eq!(f, vec![b'a', b'b', 0, 0, b'c', b'd']);
    let mut g = Vec::new();
    apply_write(&mut g, 0, &Vec::new());
    assert!(g.is_empty());
}

#[test]
fn data_sync_is_reported_as_file_sync() {
    let r = write_reply(WriteStable::DataSync, 3, 5);
    assert_eq!(r.committed, WriteStable::FileSync);
    let r = write_reply(WriteStable::Unstable, 3, 5);
    assert_eq!(r.committed, WriteStable::Unstable);
    assert_eq!(r.verf, 5);
    assert_eq!(r.count, 3);
}

#[test]
fn test_nfs_write_unstable_simple() {
    let mut table = UnstableTable::new();
    let mut f = ALPHABET.to_vec();
    table.append(3, unstable(0, b"0123"));
    table.append(3, unstable(4, b"45678"));
    // Nothing reaches the file before the commit.
    assert_eq!(f, ALPHABET.to_vec());
    let ws = table.take(3).unwrap();
    assert_eq!(ws.len(), 2);
    apply_writes(&mut f, &ws);
    let mut expected = b"012345678".to_vec();
    expected.extend_from_slice(&ALPHABET[9..]);
    assert_eq!(f, expected);
    assert!(table.take(3).is_none());
}

#[test]
fn test_nfs_write_unstable_extend() {
    let mut table = UnstableTable::new();
    let mut f = ALPHABET.to_vec();
    table.append(3, unstable(26, b"0123"));
    apply_writes(&mut f, &table.take(3).unwrap());
    let mut expected = ALPHABET[..26].to_vec();
    expected.extend_from_slice(b"0123");
    assert_eq!(f.len(), 30);
    assert_eq!(f, expected);
}

#[test]
fn test_nfs_write_unstable_overlap() {
    let mut table = UnstableTable::new();
    let mut f = ALPHABET.to_vec();
    table.append(3, unstable(0, b"0123"));
    table.append(3, unstable(1, b"45678"));
    apply_writes(&mut f, &table.take(3).unwrap());
    let mut expected = b"0".to_vec();
    expected.extend_from_slice(b"45678");
    expected.extend_from_slice(&ALPHABET[6..]);
    assert_eq!(f, expected);
}

#[test]
fn tables_keep_files_apart() {
    let mut table = UnstableTable::new();
    table.append(3, unstable(0, b"x"));
    table.append(4, unstable(0, b"y"));
    let w4 = table.take(4).unwrap();
    assert_eq!(w4.len(), 1);
    assert_eq!(w4[0].data, b"y".to_vec());
    assert_eq!(table.take(3).unwrap()[0].data, b"x".to_vec());
}

#[test]
fn resend_starts_over_on_a_new_epoch() {
    assert_eq!(next_resend(0, 9, 9), (1, 9));
    assert_eq!(next_resend(1, 9, 12), (0, 12));
}

#[test]
fn test_nfs_write_unstable_crash() {
    // The client keeps both writes; the server restarts between them, so the
    // second reply carries a new epoch and the client sends both again.
    let client_buf = vec![unstable(0, b"aaaa"), unstable(4, b"bbb")];
    let mut file: Vec<u8> = Vec::new();

    // Before the restart: the first write is buffered at epoch 9.
    let mut table = UnstableTable::new();
    table.append(3, unstable(0, b"aaaa"));
    let (pos, epoch) = next_resend(0, 9, write_reply(WriteStable::Unstable, 4, 9).verf);
    assert_eq!((pos, epoch), (1, 9));

    // The restart loses the buffer; the second write is acknowledged at 12.
    let mut table = UnstableTable::new();
    table.append(3, unstable(4, b"bbb"));
    let (pos, epoch) = next_resend(pos, epoch, write_reply(WriteStable::Unstable, 3, 12).verf);
    assert_eq!((pos, epoch), (0, 12));

    // Sending from the start replaces what the new server holds.
    assert!(table.take(3).is_some());
    for w in &client_buf[pos..] {
        table.append(3, unstable(w.offset, &w.data));
    }
    apply_writes(&mut file, &table.take(3).unwrap());
    assert_eq!(read_bytes(&file, 0, 7), b"aaaabbb".to_vec());
}

#[test]
fn read_needs_a_file() {
    assert_eq!(check_read(true), Ok(()));
    assert_eq!(check_read(false), Err(NfsError::Isdir));
}

#[test]
fn commit_with_nothing_pending() {
    let mut table = UnstableTable::new();
    assert!(table.take_pending(3).is_none());
    table.append(3, unstable(0, b"ab"));
    let ws = table.take_pending(3).unwrap();
    assert_eq!(ws.len(), 1);
    assert_eq!(ws[0].data, b"ab".to_vec());
    assert!(table.take_pending(3).is_none());
}
