use std::collections::HashMap;
use vstd::prelude::*;

use crate::types::{NfsError, WriteStable, MAX_BUF_LEN};

verus! {

broadcast use vstd::std_specs::hash::group_hash_axioms;

/// The contents of a file after writing `data` at `offset`: the file grows to
/// cover the write, any gap reads as zeros, and the written range holds
/// `data`.
pub open spec fn written(content: Seq<u8>, offset: int, data: Seq<u8>) -> Seq<u8> {
    let end = offset + data.len();
    let len = if end > content.len() {
        end
    } else {
        content.len() as int
    };
    Seq::new(
        len as nat,
        |i: int|
            if offset <= i < end {
                data[i - offset]
            } else if i < content.len() {
                content[i]
            } else {
                0u8
            },
    )
}

/// The bytes that a positional read of `count` bytes at `offset` returns.
pub open spec fn read_range(content: Seq<u8>, offset: int, count: int) -> Seq<u8> {
    if offset >= content.len() {
        Seq::empty()
    } else if offset + count <= content.len() {
        content.subrange(offset, offset + count)
    } else {
        content.subrange(offset, content.len() as int)
    }
}

/// One write that a client asked to be made later.
#[derive(Clone, Debug)]
pub struct UnstableWrite {
    pub offset: u64,
    pub count: u64,
    pub data: Vec<u8>,
}

/// A write carries as many bytes as it says.
pub open spec fn write_wf(w: UnstableWrite) -> bool {
    w.data@.len() == w.count
}

/// The contents of a file after the writes `ws`, in order.
pub open spec fn written_all(content: Seq<u8>, ws: Seq<UnstableWrite>) -> Seq<u8>
    decreases ws.len(),
{
    if ws.len() == 0 {
        content
    } else {
        let w = ws.last();
        written(written_all(content, ws.drop_last()), w.offset as int, w.data@)
    }
}

/// The index of the last write of `ws` that covers byte `i`, if any.
pub open spec fn last_cover(ws: Seq<UnstableWrite>, i: int) -> Option<int>
    decreases ws.len(),
{
    if ws.len() == 0 {
        None
    } else {
        let w = ws.last();
        if w.offset <= i < w.offset + w.data@.len() {
            Some(ws.len() - 1)
        } else {
            last_cover(ws.drop_last(), i)
        }
    }
}

/// The length of a file after the writes `ws`.
pub open spec fn written_len(len: int, ws: Seq<UnstableWrite>) -> int
    decreases ws.len(),
{
    if ws.len() == 0 {
        len
    } else {
        let w = ws.last();
        let before = written_len(len, ws.drop_last());
        if w.offset + w.data@.len() > before {
            w.offset + w.data@.len()
        } else {
            before
        }
    }
}

/// A write followed by a read of the same range returns what was written.
pub proof fn lemma_read_after_write(content: Seq<u8>, offset: int, data: Seq<u8>)
    requires
        offset >= 0,
    ensures
        read_range(written(content, offset, data), offset, data.len() as int) == data,
{
    let c = written(content, offset, data);
    if data.len() > 0 {
        assert(read_range(c, offset, data.len() as int) =~= data);
    } else {
        assert(read_range(c, offset, 0) =~= data);
    }
}

/// After a sequence of writes, each byte holds what the last write covering
/// it put there; a byte that no write covers keeps its old value, or reads
/// as zero past the old end.
pub proof fn lemma_later_writes_win(content: Seq<u8>, ws: Seq<UnstableWrite>, i: int)
    requires
        0 <= i < written_len(content.len() as int, ws),
    ensures
        written_all(content, ws).len() == written_len(content.len() as int, ws),
        written_all(content, ws)[i] == match last_cover(ws, i) {
            Some(k) => ws[k].data@[i - ws[k].offset],
            None => if i < content.len() {
                content[i]
            } else {
                0u8
            },
        },
    decreases ws.len(),
{
    lemma_written_len(content, ws);
    if ws.len() > 0 {
        let w = ws.last();
        let prev = ws.drop_last();
        lemma_written_len(content, prev);
        if !(w.offset <= i < w.offset + w.data@.len()) {
            if i < written_len(content.len() as int, prev) {
                lemma_later_writes_win(content, prev, i);
                lemma_last_cover_range(prev, i);
                match last_cover(prev, i) {
                    Some(k) => {
                        assert(ws[k] == prev[k]);
                    },
                    None => {},
                }
            } else {
                lemma_no_cover_past_end(content, prev, i);
            }
        }
    }
}

proof fn lemma_last_cover_range(ws: Seq<UnstableWrite>, i: int)
    ensures
        match last_cover(ws, i) {
            Some(k) => 0 <= k < ws.len() && ws[k].offset <= i < ws[k].offset + ws[k].data@.len(),
            None => true,
        },
    decreases ws.len(),
{
    if ws.len() > 0 {
        lemma_last_cover_range(ws.drop_last(), i);
    }
}

proof fn lemma_written_len(content: Seq<u8>, ws: Seq<UnstableWrite>)
    ensures
        written_all(content, ws).len() == written_len(content.len() as int, ws),
        written_len(content.len() as int, ws) >= content.len(),
    decreases ws.len(),
{
    if ws.len() > 0 {
        lemma_written_len(content, ws.drop_last());
    }
}

proof fn lemma_no_cover_past_end(content: Seq<u8>, ws: Seq<UnstableWrite>, i: int)
    requires
        i >= written_len(content.len() as int, ws),
    ensures
        last_cover(ws, i) is None,
        i >= content.len(),
    decreases ws.len(),
{
    lemma_written_len(content, ws);
    if ws.len() > 0 {
        lemma_no_cover_past_end(content, ws.drop_last(), i);
    }
}

/// Writes `data` into `content` at `offset`.
pub fn apply_write(content: &mut Vec<u8>, offset: u64, data: &Vec<u8>)
    requires
        offset + data.len() <= usize::MAX,
    ensures
        final(content)@ == written(old(content)@, offset as int, data@),
{
    let ghost c0 = content@;
    let off = offset as usize;
    while content.len() < off
        invariant
            content@.len() == c0.len() || content@.len() <= off,
            content@.len() >= c0.len(),
            forall|i: int| 0 <= i < c0.len() ==> #[trigger] content@[i] == c0[i],
            forall|i: int| c0.len() <= i < content@.len() ==> #[trigger] content@[i] == 0u8,
        decreases off - content.len(),
    {
        content.push(0u8);
    }
    let mut j: usize = 0;
    while j < data.len()
        invariant
            off == offset,
            off + data.len() <= usize::MAX,
            j <= data.len(),
            content@.len() == if off + j > c0.len() {
                (off + j) as int
            } else if off > c0.len() {
                off as int
            } else {
                c0.len() as int
            },
            forall|i: int|
                0 <= i < content@.len() ==> #[trigger] content@[i] == if off <= i < off + j {
                    data@[i - off]
                } else if i < c0.len() {
                    c0[i]
                } else {
                    0u8
                },
        decreases data.len() - j,
    {
        if off + j < content.len() {
            content.set(off + j, data[j]);
        } else {
            content.push(data[j]);
        }
        j = j + 1;
    }
    assert(content@ =~= written(c0, offset as int, data@));
}

/// Applies the writes `ws` to `content`, in order.
pub fn apply_writes(content: &mut Vec<u8>, ws: &Vec<UnstableWrite>)
    requires
        forall|k: int| 0 <= k < ws.len() ==> write_wf(#[trigger] ws@[k]),
        written_len(old(content)@.len() as int, ws@) <= usize::MAX,
    ensures
        final(content)@ == written_all(old(content)@, ws@),
{
    let ghost c0 = content@;
    let mut k: usize = 0;
    while k < ws.len()
        invariant
            k <= ws.len(),
            content@ == written_all(c0, ws@.subrange(0, k as int)),
            written_len(c0.len() as int, ws@) <= usize::MAX,
        decreases ws.len() - k,
    {
        proof {
            assert(ws@.subrange(0, k + 1).drop_last() =~= ws@.subrange(0, k as int));
            lemma_written_len_prefix(c0.len() as int, ws@, k as int + 1);
            lemma_written_len(c0, ws@.subrange(0, k + 1));
        }
        apply_write(content, ws[k].offset, &ws[k].data);
        k = k + 1;
    }
    assert(ws@.subrange(0, ws.len() as int) =~= ws@);
}

proof fn lemma_written_len_prefix(len: int, ws: Seq<UnstableWrite>, k: int)
    requires
        0 <= k <= ws.len(),
    ensures
        written_len(len, ws.subrange(0, k)) <= written_len(len, ws),
        k >= 1 ==> ws[k - 1].offset + ws[k - 1].data@.len() <= written_len(len, ws),
    decreases ws.len() - k,
{
    if k < ws.len() {
        lemma_written_len_prefix(len, ws, k + 1);
        assert(ws.subrange(0, k + 1).drop_last() =~= ws.subrange(0, k));
    } else {
        assert(ws.subrange(0, k) =~= ws);
    }
    if k >= 1 {
        let p = ws.subrange(0, k);
        assert(p.drop_last() =~= ws.subrange(0, k - 1));
        assert(p.last() == ws[k - 1]);
    }
}

/// The number of bytes a READ of `count` bytes may return: never more than
/// one response carries.
pub open spec fn window(count: u64) -> u64 {
    if count < MAX_BUF_LEN {
        count
    } else {
        MAX_BUF_LEN
    }
}

pub fn read_window(count: u64) -> (r: u64)
    ensures
        r == window(count),
{
    if count < MAX_BUF_LEN {
        count
    } else {
        MAX_BUF_LEN
    }
}

/// A READ is of a regular file only.
pub fn check_read(is_file: bool) -> (r: Result<(), NfsError>)
    ensures
        r == if is_file {
            Ok::<(), NfsError>(())
        } else {
            Err(NfsError::Isdir)
        },
{
    if is_file {
        Ok(())
    } else {
        Err(NfsError::Isdir)
    }
}

/// The bytes that a READ of `count` bytes at `offset` returns from a file
/// holding `content`.
pub fn read_bytes(content: &Vec<u8>, offset: u64, count: u64) -> (r: Vec<u8>)
    ensures
        r@ == read_range(content@, offset as int, window(count) as int),
{
    let n = read_window(count);
    let mut r: Vec<u8> = Vec::new();
    if offset >= content.len() as u64 {
        return r;
    }
    let start = offset as usize;
    let end: usize = if n as usize <= content.len() - start {
        start + n as usize
    } else {
        content.len()
    };
    let mut i: usize = start;
    while i < end
        invariant
            start <= i <= end <= content.len(),
            r@ == content@.subrange(start as int, i as int),
        decreases end - i,
    {
        r.push(content[i]);
        i = i + 1;
    }
    r
}

/// The reply to a WRITE.
#[derive(Clone, Copy, Debug, PartialEq, Eq, Structural)]
pub struct WriteRes {
    pub count: u64,
    pub committed: WriteStable,
    pub verf: u64,
}

/// Whether a write mode asks for the data to be durable before the reply.
pub open spec fn is_stable(s: WriteStable) -> bool {
    s != WriteStable::Unstable
}

/// The reply to a WRITE of `count` bytes in mode `stable`, made by the server
/// of epoch `epoch`: both stable modes are reported as FILE_SYNC.
pub fn write_reply(stable: WriteStable, count: u64, epoch: u64) -> (r: WriteRes)
    ensures
        r.count == count,
        r.verf == epoch,
        r.committed == if is_stable(stable) {
            WriteStable::FileSync
        } else {
            WriteStable::Unstable
        },
{
    let committed = match stable {
        WriteStable::Unstable => WriteStable::Unstable,
        _ => WriteStable::FileSync,
    };
    WriteRes { count, committed, verf: epoch }
}

/// The writes that clients made in UNSTABLE mode and that no COMMIT has
/// drained yet, by file.
pub struct UnstableTable {
    bufs: HashMap<u64, Vec<UnstableWrite>>,
}

impl View for UnstableTable {
    type V = Map<u64, Seq<UnstableWrite>>;

    closed spec fn view(&self) -> Map<u64, Seq<UnstableWrite>> {
        self.bufs@.map_values(|v: Vec<UnstableWrite>| v@)
    }
}

impl UnstableTable {
    pub fn new() -> (r: UnstableTable)
        ensures
            r@ == Map::<u64, Seq<UnstableWrite>>::empty(),
    {
        let r = UnstableTable { bufs: HashMap::new() };
        assert(r@ =~= Map::<u64, Seq<UnstableWrite>>::empty());
        r
    }

    /// The pending writes of `fid`, oldest first (none when it has no entry).
    pub open spec fn pending(&self, fid: u64) -> Seq<UnstableWrite> {
        if self@.contains_key(fid) {
            self@[fid]
        } else {
            Seq::empty()
        }
    }

    /// Adds `w` after the pending writes of `fid`.
    pub fn append(&mut self, fid: u64, w: UnstableWrite)
        ensures
            final(self)@ == old(self)@.insert(fid, old(self).pending(fid).push(w)),
    {
        let ghost w0 = w;
        let mut v = match self.bufs.remove(&fid) {
            Some(v) => v,
            None => Vec::new(),
        };
        v.push(w);
        self.bufs.insert(fid, v);
        assert(self@ =~= old(self)@.insert(fid, old(self).pending(fid).push(w0)));
    }

    /// What a COMMIT of `fid` has to write: its pending writes, taken out
    /// of the table, or nothing when it has none (no entry, or an empty
    /// one), in which case the COMMIT only reports the epoch.
    pub fn take_pending(&mut self, fid: u64) -> (r: Option<Vec<UnstableWrite>>)
        ensures
            final(self)@ == old(self)@.remove(fid),
            match r {
                Some(v) => old(self).pending(fid).len() > 0 && v@ == old(self).pending(fid),
                None => old(self).pending(fid).len() == 0,
            },
    {
        match self.take(fid) {
            Some(v) => {
                if v.len() == 0 {
                    None
                } else {
                    Some(v)
                }
            },
            None => None,
        }
    }

    /// Takes out the pending writes of `fid`, leaving it no entry.
    pub fn take(&mut self, fid: u64) -> (r: Option<Vec<UnstableWrite>>)
        ensures
            final(self)@ == old(self)@.remove(fid),
            match r {
                Some(v) => old(self)@.contains_key(fid) && v@ == old(self)@[fid],
                None => !old(self)@.contains_key(fid),
            },
    {
        let r = self.bufs.remove(&fid);
        assert(self@ =~= old(self)@.remove(fid));
        r
    }
}

/// A client's next move while it resends its buffered writes: the position
/// of the next write to send and the epoch it believes in, after the server
/// of epoch `returned` acknowledged the write at `pos`. A new epoch means the
/// server restarted and lost what it buffered, so sending starts over.
pub fn next_resend(pos: usize, known_epoch: u64, returned: u64) -> (r: (usize, u64))
    requires
        pos < usize::MAX,
    ensures
        returned == known_epoch ==> r.0 == pos + 1 && r.1 == known_epoch,
        returned != known_epoch ==> r.0 == 0 && r.1 == returned,
{
    if returned == known_epoch {
        (pos + 1, known_epoch)
    } else {
        (0, returned)
    }
}

} // verus!
