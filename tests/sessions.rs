use zippynfs::listing::HostEntry;
use zippynfs::ops::HostOp;
use zippynfs::session::{CreateSession, DeleteSession, Event, Failure, RenameSession, Step};
use zippynfs::types::NfsError;

fn entry(leaf: &str, is_dir: bool) -> HostEntry {
    HostEntry { leaf: leaf.to_owned(), is_dir }
}

fn resolved(dir: &str, chain: Vec<u64>) -> Event {
    Event::Resolved { found: true, is_dir: true, dir: dir.to_owned(), chain }
}

fn nfs(step: Step) -> NfsError {
    match step {
        Step::Finish(Err(Failure::Nfs(e))) => e,
        _ => panic!("not a finished failure"),
    }
}

#[test]
fn create_checks_its_directory() {
    let mut s = CreateSession::new(9, "a".to_owned(), true);
    assert_eq!(nfs(s.next(Event::Resolved { found: false, is_dir: false, dir: String::new(), chain: vec![] })), NfsError::Stale);
    let mut s = CreateSession::new(9, "a".to_owned(), true);
    assert_eq!(nfs(s.next(Event::Resolved { found: true, is_dir: false, dir: "1/9".to_owned(), chain: vec![1, 9] })), NfsError::Notdir);
}

#[test]
fn create_runs_the_plan_and_records_the_parent() {
    let mut s = CreateSession::new(1, "a".to_owned(), false);
    match s.next(resolved("1", vec![1])) {
        Step::Reserve { dir, name } => assert_eq!((dir.as_str(), name.as_str()), ("1", "a")),
        _ => panic!(),
    }
    assert!(matches!(s.next(Event::Claimed(true)), Step::List { .. }));
    assert!(matches!(s.next(Event::Listed(vec![entry("5", false), entry("5.b", false)])), Step::Allocate));
    match s.next(Event::Allocated(6)) {
        Step::Run { ops } => {
            assert_eq!(ops.len(), 4);
            assert!(matches!(&ops[0], HostOp::MakeDir { dir, leaf } if dir == "1" && leaf == "6"));
            assert!(matches!(&ops[2], HostOp::CreateFile { dir, leaf } if dir == "1" && leaf == "6.a"));
        }
        _ => panic!(),
    }
    match s.next(Event::Ran(Ok(()))) {
        Step::SetAttrs { path } => assert_eq!(path, "1/6"),
        _ => panic!(),
    }
    assert!(matches!(s.next(Event::AttrsSet(Ok(()))), Step::Release { .. }));
    assert!(matches!(s.next(Event::Released), Step::Record { fid: 6, parent: 1 }));
    assert!(matches!(s.next(Event::Recorded), Step::Finish(Ok(6))));
}

#[test]
fn create_of_a_visible_name_releases_its_claim() {
    let mut s = CreateSession::new(1, "b".to_owned(), true);
    s.next(resolved("1", vec![1]));
    s.next(Event::Claimed(true));
    assert!(matches!(s.next(Event::Listed(vec![entry("5", false), entry("5.b", false)])), Step::Release { .. }));
    assert_eq!(nfs(s.next(Event::Released)), NfsError::Exist);
    let mut s = CreateSession::new(1, "b".to_owned(), true);
    s.next(resolved("1", vec![1]));
    assert_eq!(nfs(s.next(Event::Claimed(false))), NfsError::Exist);
}

#[test]
fn aborting_while_holding_releases_first() {
    let mut s = CreateSession::new(1, "a".to_owned(), true);
    s.next(resolved("1", vec![1]));
    s.next(Event::Claimed(true));
    match s.abort("disk gone".to_owned()) {
        Step::Release { dir, name } => assert_eq!((dir.as_str(), name.as_str()), ("1", "a")),
        _ => panic!(),
    }
    match s.next(Event::Released) {
        Step::Finish(Err(Failure::Host(m))) => assert_eq!(m, "disk gone"),
        _ => panic!(),
    }
    let mut s = CreateSession::new(1, "a".to_owned(), true);
    assert!(matches!(s.abort("x".to_owned()), Step::Finish(Err(Failure::Host(_)))));
}

#[test]
fn delete_checks_the_kind_of_object() {
    let listing = vec![entry("4", false), entry("4.f", false), entry("5", true), entry("5.d", false)];

    let mut s = DeleteSession::new(1, "d".to_owned(), false);
    s.next(resolved("1", vec![1]));
    match s.next(Event::Listed(listing.clone())) {
        Step::Inspect { path } => assert_eq!(path, "1/5"),
        _ => panic!(),
    }
    assert_eq!(nfs(s.next(Event::Inspected { is_dir: true, empty: true })), NfsError::Isdir);

    let mut s = DeleteSession::new(1, "f".to_owned(), true);
    s.next(resolved("1", vec![1]));
    s.next(Event::Listed(listing.clone()));
    assert_eq!(nfs(s.next(Event::Inspected { is_dir: false, empty: true })), NfsError::Notdir);

    let mut s = DeleteSession::new(1, "d".to_owned(), true);
    s.next(resolved("1", vec![1]));
    s.next(Event::Listed(listing.clone()));
    assert_eq!(nfs(s.next(Event::Inspected { is_dir: true, empty: false })), NfsError::Notempty);

    let mut s = DeleteSession::new(1, "zzz".to_owned(), true);
    s.next(resolved("1", vec![1]));
    assert_eq!(nfs(s.next(Event::Listed(listing))), NfsError::Noent);
}

#[test]
fn delete_forgets_before_the_named_file_goes() {
    let mut s = DeleteSession::new(1, "f".to_owned(), false);
    s.next(resolved("1", vec![1]));
    s.next(Event::Listed(vec![entry("4", false), entry("4.f", false)]));
    match s.next(Event::Inspected { is_dir: false, empty: true }) {
        Step::Run { ops } => assert!(matches!(&ops[..], [HostOp::RemoveFile { leaf, .. }] if leaf == "4")),
        _ => panic!(),
    }
    match s.next(Event::Ran(Ok(()))) {
        Step::Forget { fid: 4, ops } => {
            assert_eq!(ops.len(), 3);
            assert!(matches!(&ops[1], HostOp::RemoveFile { leaf, .. } if leaf == "4.f"));
        }
        _ => panic!(),
    }
    assert!(matches!(s.next(Event::Ran(Ok(()))), Step::Finish(Ok(4))));
}

#[test]
fn rename_never_moves_a_directory_into_itself() {
    let mut s = RenameSession::new(1, "d".to_owned(), 5, "x".to_owned());
    assert!(matches!(s.next(resolved("1", vec![1])), Step::Resolve { fid: 5 }));
    assert!(matches!(s.next(resolved("1/5", vec![1, 5])), Step::List { .. }));
    assert!(matches!(s.next(Event::Listed(vec![entry("5", true), entry("5.d", false)])), Step::Reserve { .. }));
    assert!(matches!(s.next(Event::Claimed(true)), Step::List { .. }));
    assert!(matches!(s.next(Event::Listed(vec![])), Step::Release { .. }));
    assert!(matches!(s.next(Event::Released), Step::Finish(Err(Failure::Host(_)))));
}

#[test]
fn rename_moves_then_cleans_up() {
    let mut s = RenameSession::new(1, "a".to_owned(), 2, "b".to_owned());
    s.next(resolved("1", vec![1]));
    s.next(resolved("1/2", vec![1, 2]));
    s.next(Event::Listed(vec![entry("3", false), entry("3.a", false)]));
    s.next(Event::Claimed(true));
    match s.next(Event::Listed(vec![])) {
        Step::Run { ops } => {
            assert_eq!(ops.len(), 2);
            assert!(matches!(&ops[0], HostOp::CreateFile { dir, leaf } if dir == "1/2" && leaf == "3.b"));
        }
        _ => panic!(),
    }
    match s.next(Event::Ran(Ok(()))) {
        Step::Move { fid: 3, from: 1, to: 2, ops } => {
            assert!(matches!(&ops[0], HostOp::Rename { from_dir, from_leaf, to_dir, to_leaf }
                if from_dir == "1" && from_leaf == "3" && to_dir == "1/2" && to_leaf == "3"));
        }
        _ => panic!(),
    }
    assert!(matches!(s.next(Event::Ran(Ok(()))), Step::Release { .. }));
    match s.next(Event::Released) {
        Step::Run { ops } => assert!(matches!(&ops[..], [HostOp::RemoveFile { dir, leaf }] if dir == "1" && leaf == "3.a")),
        _ => panic!(),
    }
    assert!(matches!(s.next(Event::Ran(Ok(()))), Step::Finish(Ok(3))));
}

#[test]
fn rename_errors() {
    let mut s = RenameSession::new(1, "a".to_owned(), 2, "b".to_owned());
    s.next(resolved("1", vec![1]));
    assert_eq!(nfs(s.next(Event::Resolved { found: false, is_dir: false, dir: String::new(), chain: vec![] })), NfsError::Stale);
    let mut s = RenameSession::new(1, "a".to_owned(), 2, "b".to_owned());
    s.next(resolved("1", vec![1]));
    s.next(resolved("1/2", vec![1, 2]));
    assert_eq!(nfs(s.next(Event::Listed(vec![]))), NfsError::Noent);
    let mut s = RenameSession::new(1, "a".to_owned(), 2, "b".to_owned());
    s.next(resolved("1", vec![1]));
    s.next(resolved("1/2", vec![1, 2]));
    s.next(Event::Listed(vec![entry("3", false), entry("3.a", false)]));
    s.next(Event::Claimed(true));
    assert!(matches!(s.next(Event::Listed(vec![entry("4", false), entry("4.b", false)])), Step::Release { .. }));
    assert_eq!(nfs(s.next(Event::Released)), NfsError::Exist);
}
