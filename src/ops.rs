use vstd::prelude::*;

use crate::name::{
    fid_leaf, lemma_decimal_digits_injective, lemma_named_leaf_injective, lemma_numbered_not_named,
    named_file_leaf, named_leaf, numbered_leaf,
};
use crate::types::{NfsError, ROOT_FID};

verus! {

// ---------------------------------------------------------------------------
// Host operations
// ---------------------------------------------------------------------------

/// One step on the host filesystem. Directories are paths relative to the
/// data directory; leaves are names inside them.
#[derive(Clone, Debug)]
pub enum HostOp {
    /// Create an empty regular file; it must not exist yet.
    CreateFile { dir: String, leaf: String },
    /// Create an empty directory; it must not exist yet.
    MakeDir { dir: String, leaf: String },
    /// Flush a directory's entries to stable storage.
    SyncDir { dir: String },
    /// Unlink a regular file.
    RemoveFile { dir: String, leaf: String },
    /// Remove an empty directory.
    RemoveDir { dir: String, leaf: String },
    /// Atomically move an entry.
    Rename { from_dir: String, from_leaf: String, to_dir: String, to_leaf: String },
}

/// A host operation seen as values.
pub enum OpView {
    CreateFile(Seq<char>, Seq<char>),
    MakeDir(Seq<char>, Seq<char>),
    SyncDir(Seq<char>),
    RemoveFile(Seq<char>, Seq<char>),
    RemoveDir(Seq<char>, Seq<char>),
    Rename(Seq<char>, Seq<char>, Seq<char>, Seq<char>),
}

pub open spec fn op_view(op: HostOp) -> OpView {
    match op {
        HostOp::CreateFile { dir, leaf } => OpView::CreateFile(dir@, leaf@),
        HostOp::MakeDir { dir, leaf } => OpView::MakeDir(dir@, leaf@),
        HostOp::SyncDir { dir } => OpView::SyncDir(dir@),
        HostOp::RemoveFile { dir, leaf } => OpView::RemoveFile(dir@, leaf@),
        HostOp::RemoveDir { dir, leaf } => OpView::RemoveDir(dir@, leaf@),
        HostOp::Rename { from_dir, from_leaf, to_dir, to_leaf } => OpView::Rename(
            from_dir@,
            from_leaf@,
            to_dir@,
            to_leaf@,
        ),
    }
}

pub open spec fn plan_view(ops: Seq<HostOp>) -> Seq<OpView> {
    ops.map_values(|op: HostOp| op_view(op))
}

// ---------------------------------------------------------------------------
// A model of the host: the set of (directory, leaf) entries
// ---------------------------------------------------------------------------

pub type HostModel = Set<(Seq<char>, Seq<char>)>;

/// The entries after one operation.
pub open spec fn apply_op(h: HostModel, op: OpView) -> HostModel {
    match op {
        OpView::CreateFile(d, l) => h.insert((d, l)),
        OpView::MakeDir(d, l) => h.insert((d, l)),
        OpView::SyncDir(_) => h,
        OpView::RemoveFile(d, l) => h.remove((d, l)),
        OpView::RemoveDir(d, l) => h.remove((d, l)),
        OpView::Rename(fd, fl, td, tl) => h.remove((fd, fl)).insert((td, tl)),
    }
}

/// The entries after the operations `ops`, in order.
pub open spec fn run(h: HostModel, ops: Seq<OpView>) -> HostModel
    decreases ops.len(),
{
    if ops.len() == 0 {
        h
    } else {
        apply_op(run(h, ops.drop_last()), ops.last())
    }
}

/// Object `fid` exists in directory `dir` under `name`: both its numbered
/// file and its named file are there.
pub open spec fn exists_in(h: HostModel, dir: Seq<char>, fid: u64, name: Seq<char>) -> bool {
    h.contains((dir, numbered_leaf(fid))) && h.contains((dir, named_leaf(fid, name)))
}

// ---------------------------------------------------------------------------
// The plans
// ---------------------------------------------------------------------------

/// Creating `fid` named `name` in `dir`: the numbered file first, then the
/// named file, each followed by a flush of the directory.
pub open spec fn create_steps(dir: Seq<char>, fid: u64, name: Seq<char>, is_file: bool) -> Seq<
    OpView,
> {
    seq![
        if is_file {
            OpView::CreateFile(dir, numbered_leaf(fid))
        } else {
            OpView::MakeDir(dir, numbered_leaf(fid))
        },
        OpView::SyncDir(dir),
        OpView::CreateFile(dir, named_leaf(fid, name)),
        OpView::SyncDir(dir),
    ]
}

/// Deleting `fid` named `name` from `dir`: the numbered file first, then the
/// named file, each followed by a flush of the directory.
pub open spec fn delete_steps(dir: Seq<char>, fid: u64, name: Seq<char>, is_dir: bool) -> Seq<
    OpView,
> {
    seq![
        if is_dir {
            OpView::RemoveDir(dir, numbered_leaf(fid))
        } else {
            OpView::RemoveFile(dir, numbered_leaf(fid))
        },
        OpView::SyncDir(dir),
        OpView::RemoveFile(dir, named_leaf(fid, name)),
        OpView::SyncDir(dir),
    ]
}

/// Renaming `fid` from `old_name` in `old_dir` to `new_name` in `new_dir`:
/// the new named file, then the move of the numbered file, then the removal
/// of the old named file.
pub open spec fn rename_steps(
    old_dir: Seq<char>,
    new_dir: Seq<char>,
    fid: u64,
    old_name: Seq<char>,
    new_name: Seq<char>,
) -> Seq<OpView> {
    seq![
        OpView::CreateFile(new_dir, named_leaf(fid, new_name)),
        OpView::SyncDir(new_dir),
        OpView::Rename(old_dir, numbered_leaf(fid), new_dir, numbered_leaf(fid)),
        OpView::SyncDir(new_dir),
        OpView::RemoveFile(old_dir, named_leaf(fid, old_name)),
    ]
}

/// The path, relative to the data directory, of the directory whose
/// identifiers from the root down are `chain`.
pub open spec fn path_text(chain: Seq<u64>) -> Seq<char>
    decreases chain.len(),
{
    if chain.len() <= 1 {
        if chain.len() == 0 {
            Seq::empty()
        } else {
            numbered_leaf(chain[0])
        }
    } else {
        path_text(chain.drop_last()) + seq!['/'] + numbered_leaf(chain.last())
    }
}

/// The path of the numbered file at the end of `chain`, relative to the data
/// directory.
pub fn dir_path(chain: &Vec<u64>) -> (r: String)
    requires
        chain.len() >= 1,
    ensures
        r@ == path_text(chain@),
{
    let mut out = fid_leaf(chain[0]);
    assert(chain@.subrange(0, 1) =~= seq![chain@[0]]);
    let mut i: usize = 1;
    while i < chain.len()
        invariant
            1 <= i <= chain.len(),
            out@ == path_text(chain@.subrange(0, i as int)),
        decreases chain.len() - i,
    {
        proof {
            reveal_strlit("/");
        }
        out.append("/");
        let leaf = fid_leaf(chain[i]);
        out.append(leaf.as_str());
        assert(chain@.subrange(0, i + 1).drop_last() =~= chain@.subrange(0, i as int));
        i = i + 1;
    }
    assert(chain@.subrange(0, chain.len() as int) =~= chain@);
    out
}

pub fn create_plan(dir: &str, fid: u64, name: &str, is_file: bool) -> (r: Vec<HostOp>)
    ensures
        plan_view(r@) == create_steps(dir@, fid, name@, is_file),
{
    let mut r: Vec<HostOp> = Vec::new();
    if is_file {
        r.push(HostOp::CreateFile { dir: dir.to_owned(), leaf: fid_leaf(fid) });
    } else {
        r.push(HostOp::MakeDir { dir: dir.to_owned(), leaf: fid_leaf(fid) });
    }
    r.push(HostOp::SyncDir { dir: dir.to_owned() });
    r.push(HostOp::CreateFile { dir: dir.to_owned(), leaf: named_file_leaf(fid, name) });
    r.push(HostOp::SyncDir { dir: dir.to_owned() });
    assert(plan_view(r@) =~= create_steps(dir@, fid, name@, is_file));
    r
}

pub fn delete_plan(dir: &str, fid: u64, name: &str, is_dir: bool) -> (r: Vec<HostOp>)
    ensures
        plan_view(r@) == delete_steps(dir@, fid, name@, is_dir),
{
    let mut r: Vec<HostOp> = Vec::new();
    if is_dir {
        r.push(HostOp::RemoveDir { dir: dir.to_owned(), leaf: fid_leaf(fid) });
    } else {
        r.push(HostOp::RemoveFile { dir: dir.to_owned(), leaf: fid_leaf(fid) });
    }
    r.push(HostOp::SyncDir { dir: dir.to_owned() });
    r.push(HostOp::RemoveFile { dir: dir.to_owned(), leaf: named_file_leaf(fid, name) });
    r.push(HostOp::SyncDir { dir: dir.to_owned() });
    assert(plan_view(r@) =~= delete_steps(dir@, fid, name@, is_dir));
    r
}

pub fn rename_plan(old_dir: &str, new_dir: &str, fid: u64, old_name: &str, new_name: &str) -> (r:
    Vec<HostOp>)
    ensures
        plan_view(r@) == rename_steps(old_dir@, new_dir@, fid, old_name@, new_name@),
{
    let mut r: Vec<HostOp> = Vec::new();
    r.push(HostOp::CreateFile { dir: new_dir.to_owned(), leaf: named_file_leaf(fid, new_name) });
    r.push(HostOp::SyncDir { dir: new_dir.to_owned() });
    r.push(
        HostOp::Rename {
            from_dir: old_dir.to_owned(),
            from_leaf: fid_leaf(fid),
            to_dir: new_dir.to_owned(),
            to_leaf: fid_leaf(fid),
        },
    );
    r.push(HostOp::SyncDir { dir: new_dir.to_owned() });
    r.push(HostOp::RemoveFile { dir: old_dir.to_owned(), leaf: named_file_leaf(fid, old_name) });
    assert(plan_view(r@) =~= rename_steps(old_dir@, new_dir@, fid, old_name@, new_name@));
    r
}

/// The layout of a fresh data directory, next to its counter file: the
/// scratch directory, then the root's numbered directory and its named file,
/// then a flush of the data directory.
pub open spec fn format_steps() -> Seq<OpView> {
    seq![
        OpView::MakeDir(Seq::empty(), "tmp"@),
        OpView::MakeDir(Seq::empty(), numbered_leaf(ROOT_FID)),
        OpView::CreateFile(Seq::empty(), named_leaf(ROOT_FID, "root"@)),
        OpView::SyncDir(Seq::empty()),
    ]
}

pub fn format_plan() -> (r: Vec<HostOp>)
    ensures
        plan_view(r@) == format_steps(),
{
    let mut r: Vec<HostOp> = Vec::new();
    r.push(HostOp::MakeDir { dir: String::new(), leaf: "tmp".to_owned() });
    r.push(HostOp::MakeDir { dir: String::new(), leaf: fid_leaf(ROOT_FID) });
    r.push(HostOp::CreateFile { dir: String::new(), leaf: named_file_leaf(ROOT_FID, "root") });
    r.push(HostOp::SyncDir { dir: String::new() });
    assert(plan_view(r@) =~= format_steps());
    r
}

// ---------------------------------------------------------------------------
// Decisions taken before a plan runs
// ---------------------------------------------------------------------------

/// The check on a directory an operation works in: it must resolve, and be a
/// directory.
pub fn check_dir(resolved: bool, is_dir: bool) -> (r: Result<(), NfsError>)
    ensures
        r == if !resolved {
            Err::<(), NfsError>(NfsError::Stale)
        } else if !is_dir {
            Err(NfsError::Notdir)
        } else {
            Ok(())
        },
{
    if !resolved {
        Err(NfsError::Stale)
    } else if !is_dir {
        Err(NfsError::Notdir)
    } else {
        Ok(())
    }
}

/// The check before a REMOVE (`want_dir` false) or an RMDIR (`want_dir`
/// true) of the object `found` names, whose numbered file is a directory when
/// `target_is_dir`, and, for a directory, is empty when `target_empty`.
pub fn check_delete(found: Option<u64>, target_is_dir: bool, want_dir: bool, target_empty: bool) -> (r:
    Result<u64, NfsError>)
    ensures
        r == match found {
            None => Err::<u64, NfsError>(NfsError::Noent),
            Some(f) => if target_is_dir && !want_dir {
                Err(NfsError::Isdir)
            } else if !target_is_dir && want_dir {
                Err(NfsError::Notdir)
            } else if want_dir && !target_empty {
                Err(NfsError::Notempty)
            } else {
                Ok(f)
            },
        },
{
    match found {
        None => Err(NfsError::Noent),
        Some(f) => {
            if target_is_dir && !want_dir {
                Err(NfsError::Isdir)
            } else if !target_is_dir && want_dir {
                Err(NfsError::Notdir)
            } else if want_dir && !target_empty {
                Err(NfsError::Notempty)
            } else {
                Ok(f)
            }
        },
    }
}

/// Whether moving `fid` into the directory whose identifiers from the root
/// are `new_parent` would put a directory inside itself.
pub fn moves_into_itself(fid: u64, new_parent: &Vec<u64>) -> (r: bool)
    ensures
        r == new_parent@.contains(fid),
{
    let mut i: usize = 0;
    while i < new_parent.len()
        invariant
            i <= new_parent.len(),
            forall|j: int| 0 <= j < i ==> new_parent@[j] != fid,
        decreases new_parent.len() - i,
    {
        if new_parent[i] == fid {
            return true;
        }
        i = i + 1;
    }
    false
}

// ---------------------------------------------------------------------------
// Crash safety
// ---------------------------------------------------------------------------

proof fn lemma_leaves_distinct(f: u64, n: Seq<char>, g: u64, m: Seq<char>)
    ensures
        numbered_leaf(f) != named_leaf(g, m),
        numbered_leaf(f) == numbered_leaf(g) ==> f == g,
        named_leaf(f, n) == named_leaf(g, m) ==> f == g && n == m,
{
    lemma_numbered_not_named(f, g, m);
    if numbered_leaf(f) == numbered_leaf(g) {
        lemma_decimal_digits_injective(f as nat, g as nat);
    }
    if named_leaf(f, n) == named_leaf(g, m) {
        lemma_named_leaf_injective(f, n, g, m);
    }
}

proof fn lemma_run_prefix(h: HostModel, ops: Seq<OpView>, k: int)
    requires
        0 < k <= ops.len(),
    ensures
        run(h, ops.take(k)) == apply_op(run(h, ops.take(k - 1)), ops[k - 1]),
{
    assert(ops.take(k).drop_last() =~= ops.take(k - 1));
}

/// A crash at any point of a CREATE leaves every other object as it was, and
/// the new object exists, under its name only, once its named file is made.
pub proof fn lemma_create_crash_safe(
    h: HostModel,
    dir: Seq<char>,
    fid: u64,
    name: Seq<char>,
    is_file: bool,
    k: int,
)
    requires
        0 <= k <= 4,
        !h.contains((dir, numbered_leaf(fid))),
        forall|m: Seq<char>| !h.contains((dir, #[trigger] named_leaf(fid, m))),
    ensures
        forall|d: Seq<char>, g: u64, m: Seq<char>|
            !(d == dir && g == fid) ==> (exists_in(
                run(h, create_steps(dir, fid, name, is_file).take(k)),
                d,
                g,
                m,
            ) == exists_in(h, d, g, m)),
        forall|m: Seq<char>|
            exists_in(run(h, create_steps(dir, fid, name, is_file).take(k)), dir, fid, m) == (k
                >= 3 && m == name),
{
    let ops = create_steps(dir, fid, name, is_file);
    let num = (dir, numbered_leaf(fid));
    let nam = (dir, named_leaf(fid, name));
    assert(ops.take(0) =~= Seq::<OpView>::empty());
    let h1 = h.insert(num);
    let h3 = h1.insert(nam);
    if k >= 1 {
        lemma_run_prefix(h, ops, 1);
    }
    if k >= 2 {
        lemma_run_prefix(h, ops, 2);
    }
    if k >= 3 {
        lemma_run_prefix(h, ops, 3);
    }
    if k >= 4 {
        lemma_run_prefix(h, ops, 4);
    }
    let hk = run(h, ops.take(k));
    assert(hk == if k == 0 {
        h
    } else if k <= 2 {
        h1
    } else {
        h3
    });
    assert forall|d: Seq<char>, g: u64, m: Seq<char>| !(d == dir && g == fid) implies (exists_in(
        hk,
        d,
        g,
        m,
    ) == exists_in(h, d, g, m)) by {
        lemma_leaves_distinct(g, m, fid, name);
        lemma_leaves_distinct(fid, name, g, m);
    }
    assert forall|m: Seq<char>| exists_in(hk, dir, fid, m) == (k >= 3 && m == name) by {
        lemma_leaves_distinct(fid, m, fid, name);
        lemma_leaves_distinct(fid, name, fid, m);
    }
}

/// A crash at any point of a REMOVE or RMDIR leaves every other object as it
/// was; once the first step has run, the object exists under no name.
pub proof fn lemma_delete_crash_safe(
    h: HostModel,
    dir: Seq<char>,
    fid: u64,
    name: Seq<char>,
    is_dir: bool,
    k: int,
)
    requires
        0 <= k <= 4,
    ensures
        forall|d: Seq<char>, g: u64, m: Seq<char>|
            !(d == dir && g == fid) ==> (exists_in(
                run(h, delete_steps(dir, fid, name, is_dir).take(k)),
                d,
                g,
                m,
            ) == exists_in(h, d, g, m)),
        forall|m: Seq<char>|
            k >= 1 ==> !exists_in(run(h, delete_steps(dir, fid, name, is_dir).take(k)), dir, fid, m),
        k == 4 ==> !run(h, delete_steps(dir, fid, name, is_dir).take(k)).contains(
            (dir, named_leaf(fid, name)),
        ),
{
    let ops = delete_steps(dir, fid, name, is_dir);
    let num = (dir, numbered_leaf(fid));
    let nam = (dir, named_leaf(fid, name));
    assert(ops.take(0) =~= Seq::<OpView>::empty());
    let h1 = h.remove(num);
    let h3 = h1.remove(nam);
    if k >= 1 {
        lemma_run_prefix(h, ops, 1);
    }
    if k >= 2 {
        lemma_run_prefix(h, ops, 2);
    }
    if k >= 3 {
        lemma_run_prefix(h, ops, 3);
    }
    if k >= 4 {
        lemma_run_prefix(h, ops, 4);
    }
    let hk = run(h, ops.take(k));
    assert(hk == if k == 0 {
        h
    } else if k <= 2 {
        h1
    } else {
        h3
    });
    assert forall|d: Seq<char>, g: u64, m: Seq<char>| !(d == dir && g == fid) implies (exists_in(
        hk,
        d,
        g,
        m,
    ) == exists_in(h, d, g, m)) by {
        lemma_leaves_distinct(g, m, fid, name);
        lemma_leaves_distinct(fid, name, g, m);
    }
}

/// A RENAME between two directories is atomic: at every point of the plan
/// the object exists under exactly one of its two names, under the new one
/// once the plan has run, and every other object stays as it was.
pub proof fn lemma_rename_atomic(
    h: HostModel,
    old_dir: Seq<char>,
    new_dir: Seq<char>,
    fid: u64,
    old_name: Seq<char>,
    new_name: Seq<char>,
    k: int,
)
    requires
        0 <= k <= 5,
        old_dir != new_dir,
        exists_in(h, old_dir, fid, old_name),
        !h.contains((new_dir, numbered_leaf(fid))),
    ensures
        exists_in(run(h, rename_steps(old_dir, new_dir, fid, old_name, new_name).take(k)), old_dir, fid, old_name)
            != exists_in(
            run(h, rename_steps(old_dir, new_dir, fid, old_name, new_name).take(k)),
            new_dir,
            fid,
            new_name,
        ),
        k == 5 ==> exists_in(
            run(h, rename_steps(old_dir, new_dir, fid, old_name, new_name).take(k)),
            new_dir,
            fid,
            new_name,
        ),
        forall|d: Seq<char>, g: u64, m: Seq<char>|
            g != fid ==> (exists_in(
                run(h, rename_steps(old_dir, new_dir, fid, old_name, new_name).take(k)),
                d,
                g,
                m,
            ) == exists_in(h, d, g, m)),
{
    let ops = rename_steps(old_dir, new_dir, fid, old_name, new_name);
    let old_num = (old_dir, numbered_leaf(fid));
    let new_num = (new_dir, numbered_leaf(fid));
    let old_nam = (old_dir, named_leaf(fid, old_name));
    let new_nam = (new_dir, named_leaf(fid, new_name));
    assert(ops.take(0) =~= Seq::<OpView>::empty());
    let h1 = h.insert(new_nam);
    let h3 = h1.remove(old_num).insert(new_num);
    let h5 = h3.remove(old_nam);
    if k >= 1 {
        lemma_run_prefix(h, ops, 1);
    }
    if k >= 2 {
        lemma_run_prefix(h, ops, 2);
    }
    if k >= 3 {
        lemma_run_prefix(h, ops, 3);
    }
    if k >= 4 {
        lemma_run_prefix(h, ops, 4);
    }
    if k >= 5 {
        lemma_run_prefix(h, ops, 5);
    }
    let hk = run(h, ops.take(k));
    assert(hk == if k == 0 {
        h
    } else if k <= 2 {
        h1
    } else if k <= 4 {
        h3
    } else {
        h5
    });
    lemma_leaves_distinct(fid, old_name, fid, new_name);
    assert forall|d: Seq<char>, g: u64, m: Seq<char>| g != fid implies (exists_in(hk, d, g, m)
        == exists_in(h, d, g, m)) by {
        lemma_leaves_distinct(g, m, fid, new_name);
        lemma_leaves_distinct(g, m, fid, old_name);
        lemma_leaves_distinct(fid, m, g, m);
    }
}

} // verus!
