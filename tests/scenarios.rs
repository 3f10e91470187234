use std::collections::HashMap;

use zippynfs::counter::{fetch_inc, fresh_counter};
use zippynfs::listing::{find_by_name, read_dir_page, HostEntry};
use zippynfs::ops::{check_dir, dir_path, HostOp};
use zippynfs::session::{CreateSession, DeleteSession, Event, Failure, RenameSession, Step};
use zippynfs::reserve::NameReservations;
use zippynfs::resolver::{chain_pairs, BfsSearch, BfsStep, FidCache};
use zippynfs::types::{NfsError, WriteStable};
use zippynfs::write::{apply_write, apply_writes, read_bytes, write_reply, UnstableTable, UnstableWrite};

/// A host filesystem held in memory: directory listings and file contents by
/// path relative to the data directory.
#[derive(Clone)]
struct MemHost {
    dirs: HashMap<String, Vec<HostEntry>>,
    files: HashMap<String, Vec<u8>>,
    counter: Vec<u8>,
}

fn join(dir: &str, leaf: &str) -> String {
    format!("{}/{}", dir, leaf)
}

impl MemHost {
    /// The sample data directory: "foo" (8, a directory holding "bar" (2),
    /// which holds the file "zee.txt" (3)), the file "baz.txt" (4), the
    /// directory "bazee" (5), a numbered directory 6 that has no name, and a
    /// name "deleted.txt" whose numbered file 7 is gone. The counter is at 9.
    fn sample(with_strays: bool) -> MemHost {
        let mut dirs = HashMap::new();
        let e = |leaf: &str, is_dir: bool| HostEntry { leaf: leaf.to_owned(), is_dir };
        dirs.insert(
            "1".to_owned(),
            vec![
                e("8", true),
                e("4", false),
                e("5", true),
                e("6", true),
                e("8.foo", false),
                e("4.baz.txt", false),
                e("5.bazee", false),
                e("7.deleted.txt", false),
            ],
        );
        dirs.insert("1/8".to_owned(), vec![e("2", true), e("2.bar", false)]);
        dirs.insert("1/8/2".to_owned(), vec![e("3", false), e("3.zee.txt", false)]);
        dirs.insert("1/5".to_owned(), if with_strays { vec![e("32.empty", false)] } else { vec![] });
        dirs.insert("1/6".to_owned(), if with_strays { vec![e("33.empty", false)] } else { vec![] });
        let mut files = HashMap::new();
        files.insert("1/8/2/3".to_owned(), b"abcdefghijklmnopqrstuvwxyz\n".to_vec());
        files.insert("1/4".to_owned(), Vec::new());
        MemHost { dirs, files, counter: vec![9, 0, 0, 0, 0, 0, 0, 0] }
    }

    fn formatted() -> MemHost {
        let mut dirs = HashMap::new();
        dirs.insert("1".to_owned(), Vec::new());
        MemHost { dirs, files: HashMap::new(), counter: fresh_counter() }
    }

    fn add(&mut self, dir: &str, leaf: &str, is_dir: bool) {
        let l = self.dirs.get_mut(dir).unwrap();
        assert!(l.iter().all(|e| e.leaf != leaf));
        l.push(HostEntry { leaf: leaf.to_owned(), is_dir });
    }

    fn drop_entry(&mut self, dir: &str, leaf: &str) -> bool {
        let l = self.dirs.get_mut(dir).unwrap();
        let i = l.iter().position(|e| e.leaf == leaf).unwrap();
        l.remove(i).is_dir
    }

    fn apply(&mut self, op: &HostOp) {
        match op {
            HostOp::CreateFile { dir, leaf } => {
                self.add(dir, leaf, false);
                self.files.insert(join(dir, leaf), Vec::new());
            }
            HostOp::MakeDir { dir, leaf } => {
                self.add(dir, leaf, true);
                self.dirs.insert(join(dir, leaf), Vec::new());
            }
            HostOp::SyncDir { .. } => {}
            HostOp::RemoveFile { dir, leaf } => {
                self.drop_entry(dir, leaf);
                self.files.remove(&join(dir, leaf));
            }
            HostOp::RemoveDir { dir, leaf } => {
                self.drop_entry(dir, leaf);
                assert!(self.dirs.remove(&join(dir, leaf)).unwrap().is_empty());
            }
            HostOp::Rename { from_dir, from_leaf, to_dir, to_leaf } => {
                let is_dir = self.drop_entry(from_dir, from_leaf);
                self.add(to_dir, to_leaf, is_dir);
                let from = join(from_dir, from_leaf);
                let to = join(to_dir, to_leaf);
                if let Some(c) = self.files.remove(&from) {
                    self.files.insert(to.clone(), c);
                }
                let moved: Vec<String> = self
                    .dirs
                    .keys()
                    .filter(|k| **k == from || k.starts_with(&format!("{}/", from)))
                    .cloned()
                    .collect();
                for k in moved {
                    let l = self.dirs.remove(&k).unwrap();
                    self.dirs.insert(format!("{}{}", to, &k[from.len()..]), l);
                }
            }
        }
    }
}

/// A server over a `MemHost`, making the same decisions as the real one.
struct Server {
    host: MemHost,
    cache: FidCache,
    names: NameReservations,
    table: UnstableTable,
    epoch: u64,
}

impl Server {
    fn start(mut host: MemHost) -> Server {
        let epoch = fetch_inc(&mut host.counter).unwrap();
        Server { host, cache: FidCache::new(), names: NameReservations::new(), table: UnstableTable::new(), epoch }
    }

    fn resolve(&mut self, fid: u64) -> Option<Vec<u64>> {
        if let Some(p) = self.cache.resolve(fid) {
            return Some(p);
        }
        let mut bfs = BfsSearch::new(fid);
        loop {
            match bfs.step() {
                BfsStep::Found(p) => {
                    self.cache.extend(&chain_pairs(&p));
                    return Some(p);
                }
                BfsStep::Exhausted => return None,
                BfsStep::Visit(p) => {
                    if let Some(l) = self.host.dirs.get(&dir_path(&p)) {
                        bfs.expand(&p, l);
                    }
                }
            }
        }
    }

    fn resolved(&mut self, fid: u64) -> Event {
        match self.resolve(fid) {
            Some(chain) => {
                let dir = dir_path(&chain);
                let is_dir = self.host.dirs.contains_key(&dir);
                Event::Resolved { found: true, is_dir, dir, chain }
            }
            None => Event::Resolved { found: false, is_dir: false, dir: String::new(), chain: Vec::new() },
        }
    }

    fn perform(&mut self, step: Step) -> Event {
        match step {
            Step::Reserve { dir, name } => Event::Claimed(self.names.reserve(&dir, &name)),
            Step::Release { dir, name } => {
                assert!(self.names.holds(&dir, &name));
                self.names.release(&dir, &name);
                Event::Released
            }
            Step::List { dir } => Event::Listed(self.host.dirs[&dir].clone()),
            Step::Allocate => Event::Allocated(fetch_inc(&mut self.host.counter).unwrap()),
            Step::Run { ops } => {
                for op in &ops {
                    self.host.apply(op);
                }
                Event::Ran(Ok(()))
            }
            Step::SetAttrs { .. } => Event::AttrsSet(Ok(())),
            Step::Record { fid, parent } => {
                self.cache.insert(fid, parent);
                Event::Recorded
            }
            Step::Resolve { fid } => self.resolved(fid),
            Step::Inspect { path } => {
                let listing = self.host.dirs.get(&path);
                Event::Inspected { is_dir: listing.is_some(), empty: listing.map_or(true, |l| l.is_empty()) }
            }
            Step::Forget { fid, ops } => {
                self.cache.remove(fid);
                for op in &ops {
                    self.host.apply(op);
                }
                Event::Ran(Ok(()))
            }
            Step::Move { fid, from, to, ops } => {
                for op in &ops {
                    self.host.apply(op);
                }
                if let Some(old) = self.cache.insert(fid, to) {
                    assert_eq!(old, from);
                }
                Event::Ran(Ok(()))
            }
            Step::Finish(_) => unreachable!(),
        }
    }

    fn outcome(r: Result<u64, Failure>) -> Result<u64, String> {
        r.map_err(|f| match f {
            Failure::Nfs(k) => k.message().to_owned(),
            Failure::Host(m) => m,
        })
    }

    fn create(&mut self, dir: u64, name: &str, is_file: bool) -> Result<u64, NfsError> {
        let mut s = CreateSession::new(dir, name.to_owned(), is_file);
        let e = self.resolved(dir);
        let mut step = s.next(e);
        loop {
            if let Step::Finish(r) = step {
                return r.map_err(|f| match f {
                    Failure::Nfs(k) => k,
                    Failure::Host(m) => panic!("{}", m),
                });
            }
            let e = self.perform(step);
            assert!(s.expects(&e));
            step = s.next(e);
        }
    }

    fn lookup(&mut self, dir: u64, name: &str) -> Result<u64, NfsError> {
        match self.resolved(dir) {
            Event::Resolved { found, is_dir, dir, .. } => {
                check_dir(found, is_dir)?;
                find_by_name(&self.host.dirs[&dir], name).ok_or(NfsError::Noent)
            }
            _ => unreachable!(),
        }
    }

    fn delete(&mut self, dir: u64, name: &str, want_dir: bool) -> Result<(), NfsError> {
        let mut s = DeleteSession::new(dir, name.to_owned(), want_dir);
        let e = self.resolved(dir);
        let mut step = s.next(e);
        loop {
            if let Step::Finish(r) = step {
                return r.map(|_| ()).map_err(|f| match f {
                    Failure::Nfs(k) => k,
                    Failure::Host(m) => panic!("{}", m),
                });
            }
            let e = self.perform(step);
            assert!(s.expects(&e));
            step = s.next(e);
        }
    }

    fn rename(&mut self, od: u64, on: &str, nd: u64, nn: &str) -> Result<(), String> {
        let mut s = RenameSession::new(od, on.to_owned(), nd, nn.to_owned());
        let e = self.resolved(od);
        let mut step = s.next(e);
        loop {
            if let Step::Finish(r) = step {
                return Self::outcome(r).map(|_| ());
            }
            let e = self.perform(step);
            assert!(s.expects(&e));
            step = s.next(e);
        }
    }

    fn file_path(&mut self, fid: u64) -> String {
        dir_path(&self.resolve(fid).unwrap())
    }

    fn write(&mut self, fid: u64, offset: u64, data: &[u8], stable: WriteStable) -> (u64, WriteStable, u64) {
        if stable == WriteStable::Unstable {
            self.table.append(fid, UnstableWrite { offset, count: data.len() as u64, data: data.to_vec() });
        } else {
            let p = self.file_path(fid);
            let mut content = self.host.files[&p].clone();
            apply_write(&mut content, offset, &data.to_vec());
            self.host.files.insert(p, content);
        }
        let r = write_reply(stable, data.len() as u64, self.epoch);
        (r.count, r.committed, r.verf)
    }

    fn commit(&mut self, fid: u64) -> u64 {
        let p = self.file_path(fid);
        if let Some(ws) = self.table.take_pending(fid) {
            let mut content = self.host.files[&p].clone();
            apply_writes(&mut content, &ws);
            self.host.files.insert(p, content);
        }
        self.epoch
    }

    fn read(&mut self, fid: u64, offset: u64, count: u64) -> Vec<u8> {
        let p = self.file_path(fid);
        read_bytes(&self.host.files[&p], offset, count)
    }
}

#[test]
fn create_then_read_roundtrip() {
    let mut s = Server::start(MemHost::formatted());
    let e = s.epoch;
    assert_eq!(s.create(1, "a", false), Ok(3));
    assert_eq!(s.create(3, "f", true), Ok(4));
    assert_eq!(s.write(4, 0, b"hello", WriteStable::FileSync), (5, WriteStable::FileSync, e));
    assert_eq!(s.read(4, 0, 5), b"hello".to_vec());
}

#[test]
fn unstable_then_commit() {
    let mut s = Server::start(MemHost::formatted());
    let e = s.epoch;
    s.create(1, "a", false).unwrap();
    let f = s.create(3, "f", true).unwrap();
    assert_eq!(s.write(f, 0, b"aaaa", WriteStable::Unstable).2, e);
    assert_eq!(s.write(f, 4, b"bbb", WriteStable::Unstable).2, e);
    assert_eq!(s.read(f, 0, 7), Vec::<u8>::new());
    assert_eq!(s.commit(f), e);
    assert_eq!(s.read(f, 0, 7), b"aaaabbb".to_vec());
}

#[test]
fn unstable_across_restart() {
    let mut s = Server::start(MemHost::formatted());
    let e = s.epoch;
    s.create(1, "a", false).unwrap();
    let f = s.create(3, "f", true).unwrap();
    assert_eq!(s.write(f, 0, b"aaaa", WriteStable::Unstable).2, e);
    let mut s = Server::start(s.host.clone());
    let (_, _, e2) = s.write(f, 4, b"bbb", WriteStable::Unstable);
    assert!(e2 > e);
    // The client saw a new epoch: it resends its whole buffer, then commits.
    assert_eq!(s.write(f, 0, b"aaaa", WriteStable::Unstable).2, e2);
    assert_eq!(s.write(f, 4, b"bbb", WriteStable::Unstable).2, e2);
    assert_eq!(s.commit(f), e2);
    assert_eq!(s.read(f, 0, 7), b"aaaabbb".to_vec());
}

#[test]
fn name_uniqueness_under_contention() {
    let mut s = Server::start(MemHost::formatted());
    let first = s.create(1, "x", true).unwrap();
    for _ in 1..1000 {
        assert_eq!(s.create(1, "x", true), Err(NfsError::Exist));
    }
    let root = &s.host.dirs["1"];
    assert_eq!(root.len(), 2);
    assert!(root.iter().any(|e| e.leaf == first.to_string()));
    assert!(root.iter().any(|e| e.leaf == format!("{}.x", first)));
    // A name held by an operation in flight cannot be taken either.
    assert!(s.names.reserve("1", "y"));
    assert_eq!(s.create(1, "y", true), Err(NfsError::Exist));
    s.names.release("1", "y");
    assert!(s.create(1, "y", true).is_ok());
}

#[test]
fn rmdir_non_empty() {
    let mut s = Server::start(MemHost::formatted());
    let d = s.create(1, "d", false).unwrap();
    s.create(d, "f", true).unwrap();
    assert_eq!(s.delete(1, "d", true), Err(NfsError::Notempty));
    assert_eq!(s.delete(d, "f", false), Ok(()));
    assert_eq!(s.delete(1, "d", true), Ok(()));
    assert_eq!(s.lookup(1, "d"), Err(NfsError::Noent));
    assert_eq!(s.lookup(d, "f"), Err(NfsError::Stale));
}

#[test]
fn rename_overwrite_rejected() {
    let mut s = Server::start(MemHost::formatted());
    let a = s.create(1, "a", true).unwrap();
    let b = s.create(1, "b", true).unwrap();
    assert_eq!(s.rename(1, "a", 1, "b"), Err(NfsError::Exist.message().to_owned()));
    assert_eq!(s.lookup(1, "a"), Ok(a));
    assert_eq!(s.lookup(1, "b"), Ok(b));
}

#[test]
fn readdir_then_lookup_after_changes() {
    let mut s = Server::start(MemHost::formatted());
    for n in ["c", "a", "b"] {
        s.create(1, n, true).unwrap();
    }
    s.delete(1, "a", false).unwrap();
    let page = read_dir_page(&s.host.dirs["1"], 0);
    assert_eq!(page.len(), 2);
    for e in page {
        assert_eq!(s.lookup(1, &e.fname), Ok(e.fid));
    }
}

#[test]
fn test_new() {
    let s = Server::start(MemHost::sample(true));
    assert_eq!(s.epoch, 9);
}

#[test]
fn test_nfs_lookup() {
    let mut s = Server::start(MemHost::sample(true));
    assert_eq!(s.lookup(1, "foo"), Ok(8));
    assert_eq!(s.lookup(8, "bar"), Ok(2));
    assert_eq!(s.lookup(2, "zee.txt"), Ok(3));
    assert_eq!(s.lookup(1, "baz.txt"), Ok(4));
    assert_eq!(s.lookup(1, "bazee"), Ok(5));
    assert_eq!(s.lookup(1, "deleted.txt"), Err(NfsError::Noent));
    assert_eq!(s.lookup(8, "foo"), Err(NfsError::Noent));
    assert_eq!(s.read(3, 0, 100).len(), 27);
}

#[test]
fn test_nfs_getattr() {
    let mut s = Server::start(MemHost::sample(true));
    for fid in [8, 2, 3, 4, 5] {
        assert!(s.resolve(fid).is_some());
    }
    for fid in [6, 7, 9] {
        assert_eq!(s.resolve(fid), None);
    }
}

#[test]
fn test_fs_create_obj() {
    let mut s = Server::start(MemHost::sample(true));
    assert_eq!(s.create(1, "myfile.txt", true), Ok(10));
    assert_eq!(s.create(1, "mydir", false), Ok(11));
    let root = &s.host.dirs["1"];
    let has = |leaf: &str, is_dir: bool| root.iter().any(|e| e.leaf == leaf && e.is_dir == is_dir);
    assert!(has("10", false));
    assert!(has("10.myfile.txt", false));
    assert!(has("11", true));
    assert!(has("11.mydir", false));
}

fn create_object(is_file: bool) {
    let mut s = Server::start(MemHost::sample(true));
    assert_eq!(s.create(1, "myobj", is_file), Ok(10));
    assert_eq!(s.create(1, "foo", is_file), Err(NfsError::Exist));
    assert_eq!(s.create(2, "zee.txt", is_file), Err(NfsError::Exist));
}

#[test]
fn test_nfs_mkdir() {
    create_object(false)
}

#[test]
fn test_nfs_create() {
    create_object(true)
}

fn create_object_many(is_file: bool) {
    let mut s = Server::start(MemHost::formatted());
    for _ in 0..1000 {
        let _ = s.create(1, "myobj", is_file);
    }
    let root = &s.host.dirs["1"];
    assert!(root.iter().any(|e| e.leaf == "3.myobj"));
    assert!(root.iter().any(|e| e.leaf == "3"));
    assert_eq!(root.len(), 2);
}

#[test]
fn test_mkdir_concurrent() {
    create_object_many(false)
}

#[test]
fn test_create_concurrent() {
    create_object_many(true)
}

#[test]
fn test_fs_delete_obj() {
    let mut s = Server::start(MemHost::sample(false));
    assert_eq!(s.delete(1, "baz.txt", false), Ok(()));
    assert_eq!(s.delete(1, "bazee", true), Ok(()));
    assert_eq!(s.lookup(1, "baz.txt"), Err(NfsError::Noent));
    assert_eq!(s.lookup(1, "bazee"), Err(NfsError::Noent));
}

#[test]
fn test_nfs_rmdir() {
    let mut s = Server::start(MemHost::sample(false));
    assert_eq!(s.delete(1, "foo", true), Err(NfsError::Notempty));
    assert_eq!(s.delete(2, "zee.txt", true), Err(NfsError::Notdir));
    assert_eq!(s.delete(1, "bazee", true), Ok(()));
    assert_eq!(s.delete(1, "baz", true), Err(NfsError::Noent));
    assert_eq!(s.lookup(1, "bazee"), Err(NfsError::Noent));
}

#[test]
fn test_nfs_remove() {
    let mut s = Server::start(MemHost::sample(false));
    assert_eq!(s.delete(1, "foo", false), Err(NfsError::Isdir));
    assert_eq!(s.delete(2, "zee.txt", false), Ok(()));
    assert_eq!(s.delete(1, "bazee", false), Err(NfsError::Isdir));
    assert_eq!(s.delete(1, "baz", false), Err(NfsError::Noent));
    assert_eq!(s.lookup(2, "zee.txt"), Err(NfsError::Noent));
}

#[test]
fn test_nfs_rename_easy() {
    let mut s = Server::start(MemHost::sample(true));
    let exist = Err(NfsError::Exist.message().to_owned());
    let noent = Err(NfsError::Noent.message().to_owned());
    let stale = Err(NfsError::Stale.message().to_owned());

    assert_eq!(s.rename(2, "zee.txt", 8, "zee.mv.txt"), Ok(()));
    assert_eq!(s.rename(1, "foo", 5, "foo.mv"), Ok(()));
    assert_eq!(s.rename(2, "zee.txt", 8, "zee.mv.txt"), noent);
    assert_eq!(s.rename(1, "foo", 5, "foo.mv"), noent);
    assert_eq!(s.rename(8, "zee.mv.txt", 6, "zee.mv.again2.txt"), stale);
    assert_eq!(s.rename(5, "foo.mv", 6, "foo.mv.again2"), stale);
    assert_eq!(s.rename(8, "zee.mv.txt", 1, "baz.txt"), exist);
    assert_eq!(s.rename(8, "zee.mv.txt", 1, "bazee"), exist);
    assert_eq!(s.rename(5, "foo.mv", 1, "bazee"), exist);
    assert_eq!(s.rename(5, "foo.mv", 1, "baz.txt"), exist);
    assert!(s.rename(5, "foo.mv", 8, "heheheh").is_err());

    let root = s.host.dirs["1"].clone();
    assert_eq!(find_by_name(&root, "foo"), None);
    assert_eq!(find_by_name(&s.host.dirs["1/5"], "foo.mv"), Some(8));
    assert_eq!(find_by_name(&s.host.dirs["1/5/8/2"], "zee.txt"), None);
    assert_eq!(find_by_name(&s.host.dirs["1/5/8"], "zee.mv.txt"), Some(3));

    // After a restart the cache is empty; the disk search finds the moved tree.
    let mut s = Server::start(s.host.clone());
    assert_eq!(s.resolve(3), Some(vec![1, 5, 8, 3]));
}

#[test]
fn test_nfs_rename_concurrent() {
    let mut s = Server::start(MemHost::formatted());
    for i in 0..500 {
        let old = format!("myobj{}", i);
        s.create(1, &old, i % 2 == 0).unwrap();
        let _ = s.rename(1, &old, 1, "foo");
    }
    let root = &s.host.dirs["1"];
    assert_eq!(root.iter().filter(|e| e.leaf.ends_with(".foo")).count(), 1);
}
