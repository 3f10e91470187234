use vstd::prelude::*;

use crate::name::{
    classify_leaf, same_text, lemma_named_leaf_injective, lemma_numbered_not_named, named_leaf,
    numbered_leaf, LeafKind,
};
use crate::types::{ftype_for, ftype_of, DirEntry, Ftype, MAX_BUF_LEN};

verus! {

/// One entry of a host directory, as the host reports it.
#[derive(Clone, Debug)]
pub struct HostEntry {
    pub leaf: String,
    pub is_dir: bool,
}

/// The size that one listing entry takes in a response.
pub const DIR_ENTRY_SIZE: u64 = 40;

/// The most entries that one READDIR response carries.
pub const MAX_DIR_ENTRIES: u64 = MAX_BUF_LEN / DIR_ENTRY_SIZE;

/// The listing holds the numbered file of `fid`.
pub open spec fn has_numbered(l: Seq<HostEntry>, fid: u64) -> bool {
    exists|i: int| 0 <= i < l.len() && (#[trigger] l[i]).leaf@ == numbered_leaf(fid)
}

/// The listing holds the named file that gives `fid` the name `name`.
pub open spec fn has_named(l: Seq<HostEntry>, fid: u64, name: Seq<char>) -> bool {
    exists|i: int| 0 <= i < l.len() && (#[trigger] l[i]).leaf@ == named_leaf(fid, name)
}

/// The object `fid` exists in this directory under `name`: both its numbered
/// file and its named file are present.
pub open spec fn visible(l: Seq<HostEntry>, fid: u64, name: Seq<char>) -> bool {
    has_numbered(l, fid) && has_named(l, fid, name)
}

/// Some object is visible in the listing under `name`.
pub open spec fn names_some(l: Seq<HostEntry>, name: Seq<char>) -> bool {
    exists|f: u64| #[trigger] visible(l, f, name)
}

/// The object `fid` exists in this directory under some name.
pub open spec fn visible_fid(l: Seq<HostEntry>, fid: u64) -> bool {
    exists|n: Seq<char>| visible(l, fid, n)
}

/// `i` is the first entry of the listing that is the numbered file of `fid`.
pub open spec fn first_numbered(l: Seq<HostEntry>, fid: u64, i: int) -> bool {
    &&& 0 <= i < l.len()
    &&& l[i].leaf@ == numbered_leaf(fid)
    &&& forall|j: int| 0 <= j < i ==> (#[trigger] l[j]).leaf@ != numbered_leaf(fid)
}

/// The type of the object `fid` as the listing shows it.
pub open spec fn listed_type(l: Seq<HostEntry>, fid: u64, t: Ftype) -> bool {
    exists|i: int| first_numbered(l, fid, i) && t == ftype_of(#[trigger] l[i].is_dir)
}

/// The entry `e` stands for an object visible in the listing, with its type.
pub open spec fn entry_ok(l: Seq<HostEntry>, e: DirEntry) -> bool {
    visible(l, e.fid, e.fname@) && listed_type(l, e.fid, e.ftype)
}

/// Some entry of `s` gives `fid` the name `name`.
pub open spec fn has_pair(s: Seq<DirEntry>, fid: u64, name: Seq<char>) -> bool {
    exists|x: int| 0 <= x < s.len() && (#[trigger] s[x]).fid == fid && s[x].fname@ == name
}

/// No two entries of `s` give one identifier one name.
pub open spec fn pairs_distinct(s: Seq<DirEntry>) -> bool {
    forall|a: int, b: int|
        0 <= a < b < s.len() ==> !((#[trigger] s[a]).fid == (#[trigger] s[b]).fid && s[a].fname@
            == s[b].fname@)
}

/// The entries `s` are exactly the objects visible in the listing, each once,
/// with their types.
pub open spec fn lists_exactly(l: Seq<HostEntry>, s: Seq<DirEntry>) -> bool {
    &&& forall|i: int| 0 <= i < s.len() ==> entry_ok(l, #[trigger] s[i])
    &&& pairs_distinct(s)
    &&& forall|f: u64, n: Seq<char>| #[trigger] visible(l, f, n) ==> has_pair(s, f, n)
}

/// Entries in ascending order of identifier.
pub open spec fn sorted_by_fid(s: Seq<DirEntry>) -> bool {
    forall|i: int, j: int| 0 <= i <= j < s.len() ==> (#[trigger] s[i]).fid <= (#[trigger] s[j]).fid
}

/// The page of `s` that starts at `offset` and holds at most `max` entries.
pub open spec fn page_of<T>(s: Seq<T>, offset: int, max: int) -> Seq<T> {
    if offset >= s.len() {
        Seq::empty()
    } else if offset + max <= s.len() {
        s.subrange(offset, offset + max)
    } else {
        s.subrange(offset, s.len() as int)
    }
}

/// The kind of every entry of a listing.
fn classify_all(l: &Vec<HostEntry>) -> (r: Vec<LeafKind>)
    ensures
        r.len() == l.len(),
        forall|i: int| 0 <= i < l.len() ==> kind_matches(#[trigger] l@[i].leaf@, r@[i]),
{
    let mut r: Vec<LeafKind> = Vec::new();
    let mut i: usize = 0;
    while i < l.len()
        invariant
            i <= l.len(),
            r.len() == i,
            forall|j: int| 0 <= j < i ==> kind_matches(#[trigger] l@[j].leaf@, r@[j]),
        decreases l.len() - i,
    {
        r.push(classify_leaf(l[i].leaf.as_str()));
        i = i + 1;
    }
    r
}

/// What `classify_leaf` says of a leaf.
pub open spec fn kind_matches(leaf: Seq<char>, k: LeafKind) -> bool {
    match k {
        LeafKind::Numbered(f) => leaf == numbered_leaf(f),
        LeafKind::Named(f, n) => leaf == named_leaf(f, n@),
        LeafKind::Foreign => {
            &&& forall|f: u64| leaf != numbered_leaf(f)
            &&& forall|f: u64, n: Seq<char>| leaf != named_leaf(f, n)
        },
    }
}

proof fn lemma_not_numbered(leaf: Seq<char>, k: LeafKind, fid: u64)
    requires
        kind_matches(leaf, k),
        !(k matches LeafKind::Numbered(g) && g == fid),
    ensures
        leaf != numbered_leaf(fid),
{
    match k {
        LeafKind::Numbered(g) => {
            if leaf == numbered_leaf(fid) {
                crate::name::lemma_decimal_digits_injective(g as nat, fid as nat);
            }
        },
        LeafKind::Named(g, n) => {
            lemma_numbered_not_named(fid, g, n@);
        },
        LeafKind::Foreign => {},
    }
}

/// The first entry that is the numbered file of `fid`, if any.
fn find_numbered(l: &Vec<HostEntry>, kinds: &Vec<LeafKind>, fid: u64) -> (r: Option<usize>)
    requires
        kinds.len() == l.len(),
        forall|i: int| 0 <= i < l.len() ==> kind_matches(#[trigger] l@[i].leaf@, kinds@[i]),
    ensures
        match r {
            Some(i) => first_numbered(l@, fid, i as int),
            None => !has_numbered(l@, fid),
        },
{
    let mut i: usize = 0;
    while i < kinds.len()
        invariant
            kinds.len() == l.len(),
            forall|i: int| 0 <= i < l.len() ==> kind_matches(#[trigger] l@[i].leaf@, kinds@[i]),
            i <= kinds.len(),
            forall|j: int| 0 <= j < i ==> (#[trigger] l@[j]).leaf@ != numbered_leaf(fid),
        decreases kinds.len() - i,
    {
        let hit = match &kinds[i] {
            LeafKind::Numbered(g) => *g == fid,
            _ => false,
        };
        if hit {
            return Some(i);
        }
        proof {
            lemma_not_numbered(l@[i as int].leaf@, kinds@[i as int], fid);
        }
        i = i + 1;
    }
    None
}

/// The identifier of the object that `name` names in the directory listed by
/// `l`, if one is visible there.
pub fn find_by_name(l: &Vec<HostEntry>, name: &str) -> (r: Option<u64>)
    ensures
        lookup_answer(l@, name@, r),
{
    let kinds = classify_all(l);
    let mut i: usize = 0;
    while i < kinds.len()
        invariant
            kinds.len() == l.len(),
            forall|i: int| 0 <= i < l.len() ==> kind_matches(#[trigger] l@[i].leaf@, kinds@[i]),
            i <= kinds.len(),
            forall|f: u64, j: int|
                #![trigger l@[j], named_leaf(f, name@)]
                0 <= j < i && l@[j].leaf@ == named_leaf(f, name@) ==> !has_numbered(
                    l@,
                    f,
                ),
        decreases kinds.len() - i,
    {
        match &kinds[i] {
            LeafKind::Named(f, n) => {
                if same_text(n.as_str(), name) {
                    let f = *f;
                    if let Some(_) = find_numbered(l, &kinds, f) {
                        assert(has_named(l@, f, name@)) by {
                            assert(l@[i as int].leaf@ == named_leaf(f, name@));
                        }
                        return Some(f);
                    }
                }
            },
            _ => {},
        }
        proof {
            assert forall|f: u64, j: int|
                #![trigger l@[j], named_leaf(f, name@)]
                0 <= j < i + 1 && l@[j].leaf@ == named_leaf(
                    f,
                    name@,
                ) implies !has_numbered(l@, f) by {
                if j == i {
                    match kinds@[i as int] {
                        LeafKind::Named(g, n) => {
                            lemma_named_leaf_injective(g, n@, f, name@);
                        },
                        LeafKind::Numbered(g) => {
                            lemma_numbered_not_named(g, f, name@);
                        },
                        LeafKind::Foreign => {},
                    }
                }
            }
        }
        i = i + 1;
    }
    None
}

/// The identifiers of the objects visible in the listing, each once.
pub fn visible_fids(l: &Vec<HostEntry>) -> (r: Vec<u64>)
    ensures
        forall|i: int| 0 <= i < r.len() ==> visible_fid(l@, #[trigger] r@[i]),
        forall|f: u64, n: Seq<char>| #[trigger] visible(l@, f, n) ==> r@.contains(f),
        r@.no_duplicates(),
{
    let kinds = classify_all(l);
    let mut r: Vec<u64> = Vec::new();
    let mut i: usize = 0;
    while i < kinds.len()
        invariant
            kinds.len() == l.len(),
            forall|i: int| 0 <= i < l.len() ==> kind_matches(#[trigger] l@[i].leaf@, kinds@[i]),
            i <= kinds.len(),
            forall|k: int| 0 <= k < r.len() ==> visible_fid(l@, #[trigger] r@[k]),
            forall|f: u64, n: Seq<char>, j: int|
                #![trigger l@[j], named_leaf(f, n)]
                0 <= j < i && l@[j].leaf@ == named_leaf(f, n) && has_numbered(l@, f)
                    ==> r@.contains(f),
            r@.no_duplicates(),
        decreases kinds.len() - i,
    {
        let ghost before = r@;
        match &kinds[i] {
            LeafKind::Named(f, n) => {
                let f = *f;
                if let Some(_) = find_numbered(l, &kinds, f) {
                    if !contains_u64(&r, f) {
                        r.push(f);
                        proof {
                            assert(visible(l@, f, n@)) by {
                                assert(l@[i as int].leaf@ == named_leaf(f, n@));
                            }
                            assert(r@[r.len() - 1] == f);
                            assert forall|k: int| 0 <= k < r.len() implies visible_fid(
                                l@,
                                #[trigger] r@[k],
                            ) by {
                                if k < r.len() - 1 {
                                    assert(r@[k] == before[k]);
                                } else {
                                    assert(visible(l@, r@[k], n@));
                                }
                            }
                        }
                    }
                }
            },
            _ => {},
        }
        proof {
            assert forall|f: u64, n: Seq<char>, j: int|
                #![trigger l@[j], named_leaf(f, n)]
                0 <= j < i + 1 && l@[j].leaf@ == named_leaf(f, n) && has_numbered(
                    l@,
                    f,
                ) implies r@.contains(f) by {
                if j < i {
                    assert(before.contains(f));
                    let k = choose|k: int| 0 <= k < before.len() && before[k] == f;
                    assert(r@[k] == f);
                } else {
                    match kinds@[i as int] {
                        LeafKind::Named(g, m) => {
                            lemma_named_leaf_injective(g, m@, f, n);
                            if before.contains(f) {
                                let k = choose|k: int| 0 <= k < before.len() && before[k] == f;
                                assert(r@[k] == f);
                            } else {
                                assert(r@[r.len() - 1] == f);
                            }
                        },
                        LeafKind::Numbered(g) => {
                            lemma_numbered_not_named(g, f, n);
                        },
                        LeafKind::Foreign => {},
                    }
                }
            }
        }
        i = i + 1;
    }
    r
}

fn contains_u64(v: &Vec<u64>, x: u64) -> (r: bool)
    ensures
        r == v@.contains(x),
{
    let mut i: usize = 0;
    while i < v.len()
        invariant
            i <= v.len(),
            forall|j: int| 0 <= j < i ==> v@[j] != x,
        decreases v.len() - i,
    {
        if v[i] == x {
            return true;
        }
        i = i + 1;
    }
    false
}

/// Inserts `e` after every entry whose identifier is not above its own.
fn insert_by_fid(r: &mut Vec<DirEntry>, e: DirEntry)
    requires
        sorted_by_fid(old(r)@),
    ensures
        sorted_by_fid(final(r)@),
        exists|p: int| 0 <= p <= old(r)@.len() && final(r)@ == old(r)@.insert(p, e),
{
    let mut p: usize = 0;
    while p < r.len() && r[p].fid <= e.fid
        invariant
            p <= r.len(),
            r@ == old(r)@,
            forall|k: int| 0 <= k < p ==> (#[trigger] r@[k]).fid <= e.fid,
        decreases r.len() - p,
    {
        p = p + 1;
    }
    let ghost before = r@;
    r.insert(p, e);
    proof {
        let after = r@;
        assert forall|i: int, j: int| 0 <= i <= j < after.len() implies (#[trigger] after[i]).fid
            <= (#[trigger] after[j]).fid by {
            let fi = if i < p { before[i] } else if i == p { e } else { before[i - 1] };
            let fj = if j < p { before[j] } else if j == p { e } else { before[j - 1] };
            assert(after[i] == fi);
            assert(after[j] == fj);
            if j > p && i <= p && (p as int) < before.len() {
                assert(before[p as int].fid > e.fid);
            }
        }
        assert(after == before.insert(p as int, e));
    }
}

/// Adds `e` to the sorted entries `r`, unless they already give its
/// identifier its name.
fn add_entry(r: &mut Vec<DirEntry>, e: DirEntry)
    requires
        sorted_by_fid(old(r)@),
        pairs_distinct(old(r)@),
    ensures
        sorted_by_fid(final(r)@),
        pairs_distinct(final(r)@),
        has_pair(final(r)@, e.fid, e.fname@),
        forall|f: u64, n: Seq<char>| has_pair(old(r)@, f, n) ==> has_pair(final(r)@, f, n),
        forall|k: int|
            0 <= k < final(r)@.len() ==> #[trigger] final(r)@[k] == e || old(r)@.contains(
                final(r)@[k],
            ),
{
    let ghost before = r@;
    let mut q: usize = 0;
    while q < r.len()
        invariant
            q <= r.len(),
            r@ == before,
            before == old(r)@,
            sorted_by_fid(before),
            pairs_distinct(before),
            forall|x: int|
                0 <= x < q ==> !((#[trigger] r@[x]).fid == e.fid && r@[x].fname@ == e.fname@),
        decreases r.len() - q,
    {
        if r[q].fid == e.fid && same_text(r[q].fname.as_str(), e.fname.as_str()) {
            assert(has_pair(r@, e.fid, e.fname@));
            proof {
                assert forall|k: int| 0 <= k < r@.len() implies #[trigger] r@[k] == e
                    || before.contains(r@[k]) by {
                    assert(before[k] == r@[k]);
                }
            }
            return;
        }
        q = q + 1;
    }
    let ghost e0 = e;
    insert_by_fid(r, e);
    proof {
        let p = choose|p: int| 0 <= p <= before.len() && r@ == before.insert(p, e0);
        assert(r@[p] == e0);
        assert(has_pair(r@, e0.fid, e0.fname@));
        assert forall|a: int, b: int|
            0 <= a < b < r.len() implies !((#[trigger] r@[a]).fid == (#[trigger] r@[b]).fid
            && r@[a].fname@ == r@[b].fname@) by {
            let ia = if a < p { a } else { a - 1 };
            let ib = if b < p { b } else { b - 1 };
            if a != p && b != p {
                assert(r@[a] == before[ia]);
                assert(r@[b] == before[ib]);
            } else if a == p {
                assert(r@[b] == before[ib]);
            } else {
                assert(r@[a] == before[ia]);
            }
        }
        assert forall|f: u64, n: Seq<char>| has_pair(before, f, n) implies has_pair(r@, f, n) by {
            let x0 = choose|x: int|
                0 <= x < before.len() && (#[trigger] before[x]).fid == f && before[x].fname@ == n;
            let x1 = if x0 < p { x0 } else { x0 + 1 };
            assert(r@[x1] == before[x0]);
        }
        assert forall|k: int| 0 <= k < r@.len() implies #[trigger] r@[k] == e0 || before.contains(
            r@[k],
        ) by {
            if k < p {
                assert(r@[k] == before[k]);
            } else if k > p {
                assert(r@[k] == before[k - 1]);
            }
        }
    }
}

/// The objects visible in the listing, each once, in ascending order of
/// identifier.
pub fn dir_entries(l: &Vec<HostEntry>) -> (r: Vec<DirEntry>)
    ensures
        lists_exactly(l@, r@),
        sorted_by_fid(r@),
{
    let kinds = classify_all(l);
    let mut r: Vec<DirEntry> = Vec::new();
    let mut i: usize = 0;
    while i < kinds.len()
        invariant
            kinds.len() == l.len(),
            forall|i: int| 0 <= i < l.len() ==> kind_matches(#[trigger] l@[i].leaf@, kinds@[i]),
            i <= kinds.len(),
            sorted_by_fid(r@),
            pairs_distinct(r@),
            forall|k: int| 0 <= k < r.len() ==> entry_ok(l@, #[trigger] r@[k]),
            forall|f: u64, n: Seq<char>, j: int|
                #![trigger l@[j], named_leaf(f, n)]
                0 <= j < i && l@[j].leaf@ == named_leaf(f, n) && has_numbered(l@, f) ==> has_pair(
                    r@,
                    f,
                    n,
                ),
        decreases kinds.len() - i,
    {
        let ghost before = r@;
        match &kinds[i] {
            LeafKind::Named(f, n) => {
                let f = *f;
                match find_numbered(l, &kinds, f) {
                    Some(k) => {
                        let ftype = ftype_for(l[k].is_dir);
                        let e = DirEntry { fid: f, fname: n.clone(), ftype };
                        proof {
                            assert(visible(l@, f, n@)) by {
                                assert(l@[i as int].leaf@ == named_leaf(f, n@));
                            }
                            assert(listed_type(l@, f, ftype)) by {
                                assert(first_numbered(l@, f, k as int));
                            }
                        }
                        let ghost e0 = e;
                        add_entry(&mut r, e);
                        proof {
                            assert forall|x: int| 0 <= x < r.len() implies entry_ok(
                                l@,
                                #[trigger] r@[x],
                            ) by {
                                if r@[x] != e0 {
                                    assert(before.contains(r@[x]));
                                    let y = choose|y: int| 0 <= y < before.len() && before[y] == r@[x];
                                    assert(entry_ok(l@, before[y]));
                                }
                            }
                        }
                    },
                    None => {},
                }
            },
            _ => {},
        }
        proof {
            assert forall|f: u64, n: Seq<char>, j: int|
                #![trigger l@[j], named_leaf(f, n)]
                0 <= j < i + 1 && l@[j].leaf@ == named_leaf(f, n) && has_numbered(
                    l@,
                    f,
                ) implies has_pair(r@, f, n) by {
                if j == i {
                    match kinds@[i as int] {
                        LeafKind::Named(g, m) => {
                            lemma_named_leaf_injective(g, m@, f, n);
                        },
                        LeafKind::Numbered(g) => {
                            lemma_numbered_not_named(g, f, n);
                        },
                        LeafKind::Foreign => {},
                    }
                } else {
                    assert(has_pair(before, f, n));
                }
            }
        }
        i = i + 1;
    }
    proof {
        assert forall|f: u64, n: Seq<char>| #[trigger] visible(l@, f, n) implies has_pair(
            r@,
            f,
            n,
        ) by {
            let j = choose|j: int| 0 <= j < l.len() && (#[trigger] l@[j]).leaf@ == named_leaf(f, n);
            assert(l@[j].leaf@ == named_leaf(f, n));
        }
    }
    r
}

/// The entries of the directory listed by `l`, in ascending order of
/// identifier, from position `offset` on, and at most as many as one response
/// carries.
pub fn read_dir_page(l: &Vec<HostEntry>, offset: u64) -> (r: Vec<DirEntry>)
    ensures
        exists|s: Seq<DirEntry>|
            lists_exactly(l@, s) && sorted_by_fid(s) && r@ == page_of(
                s,
                offset as int,
                MAX_DIR_ENTRIES as int,
            ),
{
    let mut all = dir_entries(l);
    let ghost s = all@;
    if offset >= all.len() as u64 {
        assert(page_of(s, offset as int, MAX_DIR_ENTRIES as int) =~= Seq::<DirEntry>::empty());
        return Vec::new();
    }
    let mut page = all.split_off(offset as usize);
    if page.len() > MAX_DIR_ENTRIES as usize {
        page.truncate(MAX_DIR_ENTRIES as usize);
    }
    assert(page@ =~= page_of(s, offset as int, MAX_DIR_ENTRIES as int));
    page
}

/// At most one object is visible under each name: the state that name
/// reservation keeps every directory in.
pub open spec fn names_unique(l: Seq<HostEntry>) -> bool {
    forall|f1: u64, f2: u64, n: Seq<char>|
        visible(l, f1, n) && visible(l, f2, n) ==> f1 == f2
}

/// What `find_by_name` may answer for `name` in the listing `l`.
pub open spec fn lookup_answer(l: Seq<HostEntry>, name: Seq<char>, r: Option<u64>) -> bool {
    match r {
        Some(f) => visible(l, f, name),
        None => forall|f: u64| !visible(l, f, name),
    }
}

/// Every entry that READDIR lists is found again by LOOKUP of its name, with
/// the same identifier, and is listed with the type of its numbered file.
pub proof fn lemma_readdir_lookup_agree(l: Seq<HostEntry>, s: Seq<DirEntry>, i: int, r: Option<u64>)
    requires
        names_unique(l),
        lists_exactly(l, s),
        0 <= i < s.len(),
        lookup_answer(l, s[i].fname@, r),
    ensures
        r == Some(s[i].fid),
        listed_type(l, s[i].fid, s[i].ftype),
{
    assert(entry_ok(l, s[i]));
}

} // verus!
