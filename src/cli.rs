use vstd::prelude::*;

use crate::attr::{Fattr, StatFsRes};
use crate::types::TimeVal;

verus! {

/// White space as Unicode defines it.
pub open spec fn is_space(c: char) -> bool {
    ||| c == ' '
    ||| ('\t' <= c && c <= '\r')
    ||| c == '\u{85}'
    ||| c == '\u{A0}'
    ||| c == '\u{1680}'
    ||| ('\u{2000}' <= c && c <= '\u{200A}')
    ||| c == '\u{2028}'
    ||| c == '\u{2029}'
    ||| c == '\u{202F}'
    ||| c == '\u{205F}'
    ||| c == '\u{3000}'
}

pub fn space(c: char) -> (r: bool)
    ensures
        r == is_space(c),
{
    c == ' ' || ('\t' <= c && c <= '\r') || c == '\u{85}' || c == '\u{A0}' || c == '\u{1680}' || (
    '\u{2000}' <= c && c <= '\u{200A}') || c == '\u{2028}' || c == '\u{2029}' || c == '\u{202F}'
        || c == '\u{205F}' || c == '\u{3000}'
}

/// The index of the first character of `s` that is not white space.
pub open spec fn text_start(s: Seq<char>, i: int) -> bool {
    &&& 0 <= i <= s.len()
    &&& forall|j: int| 0 <= j < i ==> is_space(#[trigger] s[j])
    &&& i < s.len() ==> !is_space(s[i])
}

/// The commands the test client knows.
pub open spec fn known_command(s: Seq<char>, i: int) -> bool {
    i + 4 <= s.len() && s[i] == 'N' && s[i + 1] == 'U' && s[i + 2] == 'L' && s[i + 3] == 'L'
}

/// Accepts a command line for the test client: after leading white space it
/// must begin with a known command.
pub fn is_nfs_command(arg: String) -> (r: Result<(), String>)
    ensures
        r is Ok <==> exists|i: int| text_start(arg@, i) && known_command(arg@, i),
        r matches Err(m) ==> m@ == "Not a valid command. Valid commands are [\"NULL\"]"@,
{
    let s = arg.as_str();
    let len = s.unicode_len();
    let mut i: usize = 0;
    while i < len && space(s.get_char(i))
        invariant
            len == s@.len(),
            s@ == arg@,
            i <= len,
            forall|j: int| 0 <= j < i ==> is_space(#[trigger] s@[j]),
        decreases len - i,
    {
        i = i + 1;
    }
    assert(text_start(arg@, i as int));
    let ok = len - i >= 4 && s.get_char(i) == 'N' && s.get_char(i + 1) == 'U' && s.get_char(i + 2)
        == 'L' && s.get_char(i + 3) == 'L';
    proof {
        assert forall|k: int| text_start(arg@, k) implies k == i by {
            if k < i {
                assert(is_space(arg@[k]));
            } else if k > i {
                assert(is_space(arg@[i as int]));
            }
        }
    }
    if ok {
        Ok(())
    } else {
        Err("Not a valid command. Valid commands are [\"NULL\"]".to_owned())
    }
}

pub open spec fn is_ascii_digit(c: char) -> bool {
    '0' <= c && c <= '9'
}

/// The value of the decimal digits `s[from..to]`.
pub open spec fn digits_value(s: Seq<char>, from: int, to: int) -> int
    decreases to - from,
{
    if to <= from {
        0
    } else {
        digits_value(s, from, to - 1) * 10 + (s[to - 1] as u32 - '0' as u32)
    }
}

/// `s` has the shape `host:port`: a host that is not empty, then a colon,
/// then the port in decimal digits, at most 65535. The port is what follows
/// the last colon.
pub open spec fn addr_shape(s: Seq<char>) -> bool {
    exists|p: int|
        {
            &&& 0 < p < s.len() - 1
            &&& s[p] == ':'
            &&& forall|j: int| p < j < s.len() ==> is_ascii_digit(#[trigger] s[j])
            &&& digits_value(s, p + 1, s.len() as int) <= 65535
        }
}

/// Accepts a server address of the form `host:port`. Whether the host can
/// be resolved is left to the caller.
pub fn is_addr(arg: String) -> (r: Result<(), String>)
    ensures
        r is Ok <==> addr_shape(arg@),
        r matches Err(m) ==> m@ == "Not a valid IP:Port"@,
{
    let s = arg.as_str();
    let len = s.unicode_len();
    // Walk back over the port digits, keeping the value's bound in view.
    let mut p: usize = len;
    while p > 0 && is_digit_char(s.get_char(p - 1))
        invariant
            len == s@.len(),
            s@ == arg@,
            p <= len,
            forall|j: int| p <= j < len ==> is_ascii_digit(#[trigger] s@[j]),
        decreases p,
    {
        p = p - 1;
    }
    if p < 2 || p == len || s.get_char(p - 1) != ':' {
        proof {
            assert(!addr_shape(arg@)) by {
                if addr_shape(arg@) {
                    let q = choose|q: int|
                        {
                            &&& 0 < q < arg@.len() - 1
                            &&& arg@[q] == ':'
                            &&& forall|j: int| q < j < arg@.len() ==> is_ascii_digit(#[trigger] arg@[j])
                            &&& digits_value(arg@, q + 1, arg@.len() as int) <= 65535
                        };
                    lemma_digit_run_start(arg@, p as int, q);
                }
            }
        }
        return Err("Not a valid IP:Port".to_owned());
    }
    let colon = p - 1;
    // The port, stopping as soon as it passes the largest value.
    let mut v: u64 = 0;
    let mut i: usize = p;
    while i < len
        invariant
            len == s@.len(),
            s@ == arg@,
            p <= i <= len,
            p >= 2,
            !is_ascii_digit(s@[p as int - 1]),
            forall|j: int| p <= j < len ==> is_ascii_digit(#[trigger] s@[j]),
            v == digits_value(s@, p as int, i as int),
            v <= 65535,
        decreases len - i,
    {
        assert(is_ascii_digit(s@[i as int]));
        let d = (s.get_char(i) as u32 - '0' as u32) as u64;
        assert(digits_value(s@, p as int, i as int + 1) == v * 10 + d);
        if v * 10 + d > 65535 {
            proof {
                lemma_digits_value_grows(s@, p as int, i as int + 1, len as int);
            }
            proof {
                assert(!addr_shape(arg@)) by {
                    if addr_shape(arg@) {
                        let q = choose|q: int|
                            {
                                &&& 0 < q < arg@.len() - 1
                                &&& arg@[q] == ':'
                                &&& forall|j: int| q < j < arg@.len() ==> is_ascii_digit(
                                    #[trigger] arg@[j],
                                )
                                &&& digits_value(arg@, q + 1, arg@.len() as int) <= 65535
                            };
                        lemma_digit_run_start(arg@, p as int, q);
                    }
                }
            }
            return Err("Not a valid IP:Port".to_owned());
        }
        v = v * 10 + d;
        i = i + 1;
    }
    assert(addr_shape(arg@)) by {
        assert(s@[colon as int] == ':');
    }
    Ok(())
}

fn is_digit_char(c: char) -> (r: bool)
    ensures
        r == is_ascii_digit(c),
{
    '0' <= c && c <= '9'
}

/// Where a run of digits ends at the end of `s` and starts at `p`, a colon
/// followed only by digits up to the end sits just before `p`.
proof fn lemma_digit_run_start(s: Seq<char>, p: int, q: int)
    requires
        0 <= p <= s.len(),
        forall|j: int| p <= j < s.len() ==> is_ascii_digit(#[trigger] s[j]),
        p == 0 || !is_ascii_digit(s[p - 1]),
        0 < q < s.len() - 1,
        s[q] == ':',
        forall|j: int| q < j < s.len() ==> is_ascii_digit(#[trigger] s[j]),
    ensures
        q == p - 1,
{
    if q >= p {
        assert(is_ascii_digit(s[q]));
    } else if q < p - 1 {
        assert(is_ascii_digit(s[p - 1]));
    }
}

proof fn lemma_digits_value_grows(s: Seq<char>, from: int, mid: int, to: int)
    requires
        from <= mid <= to,
        forall|j: int| from <= j < to ==> is_ascii_digit(#[trigger] s[j]),
    ensures
        digits_value(s, from, mid) <= digits_value(s, from, to),
    decreases to - mid,
{
    if mid < to {
        lemma_digits_value_grows(s, from, mid, to - 1);
        assert(is_ascii_digit(s[to - 1]));
        lemma_digits_value_nonneg(s, from, to - 1);
    }
}

proof fn lemma_digits_value_nonneg(s: Seq<char>, from: int, to: int)
    requires
        forall|j: int| from <= j < to ==> is_ascii_digit(#[trigger] s[j]),
    ensures
        digits_value(s, from, to) >= 0,
    decreases to - from,
{
    if from < to {
        lemma_digits_value_nonneg(s, from, to - 1);
        assert(is_ascii_digit(s[to - 1]));
    }
}

/// The operations a client bridge offers to the kernel, on plain values.
/// Errors are host error numbers.
pub trait Filesystem {
    fn setattr(
        &mut self,
        ino: u64,
        size: Option<u64>,
        atime: Option<TimeVal>,
        mtime: Option<TimeVal>,
    ) -> Result<Fattr, i32>;

    fn mkdir(&mut self, parent: u64, name: &str) -> Result<Fattr, i32>;

    fn unlink(&mut self, parent: u64, name: &str) -> Result<(), i32>;

    fn rmdir(&mut self, parent: u64, name: &str) -> Result<(), i32>;

    fn rename(&mut self, parent: u64, name: &str, newparent: u64, newname: &str) -> Result<
        (),
        i32,
    >;

    fn write(&mut self, ino: u64, offset: u64, data: &[u8]) -> Result<u32, i32>;

    fn statfs(&mut self, ino: u64) -> Result<StatFsRes, i32>;

    fn create(&mut self, parent: u64, name: &str) -> Result<Fattr, i32>;

    fn flush(&mut self, ino: u64) -> Result<(), i32>;

    fn fsync(&mut self, ino: u64, datasync: bool) -> Result<(), i32>;
}

} // verus!
