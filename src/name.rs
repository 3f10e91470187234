use vstd::prelude::*;
use vstd::string::*;

verus! {

// ---------------------------------------------------------------------------
// Decimal notation of identifiers
// ---------------------------------------------------------------------------

pub open spec fn is_digit(c: char) -> bool {
    '0' <= c && c <= '9'
}

pub open spec fn all_digits(s: Seq<char>) -> bool {
    forall|i: int| 0 <= i < s.len() ==> is_digit(#[trigger] s[i])
}

pub open spec fn digit_char(d: nat) -> char {
    if d == 0 {
        '0'
    } else if d == 1 {
        '1'
    } else if d == 2 {
        '2'
    } else if d == 3 {
        '3'
    } else if d == 4 {
        '4'
    } else if d == 5 {
        '5'
    } else if d == 6 {
        '6'
    } else if d == 7 {
        '7'
    } else if d == 8 {
        '8'
    } else {
        '9'
    }
}

pub open spec fn digit_value(c: char) -> nat {
    (c as u32 - '0' as u32) as nat
}

/// The value of a string of decimal digits.
pub open spec fn decimal_value(s: Seq<char>) -> nat
    decreases s.len(),
{
    if s.len() == 0 {
        0
    } else {
        decimal_value(s.drop_last()) * 10 + digit_value(s.last())
    }
}

/// The canonical decimal notation of `n`: no leading zero, at least one digit.
pub open spec fn decimal_digits(n: nat) -> Seq<char>
    decreases n,
{
    if n < 10 {
        seq![digit_char(n)]
    } else {
        decimal_digits(n / 10).push(digit_char(n % 10))
    }
}

/// A string in canonical decimal notation.
pub open spec fn is_canonical_decimal(s: Seq<char>) -> bool {
    &&& s.len() > 0
    &&& all_digits(s)
    &&& (s.len() > 1 ==> s[0] != '0')
}

// ---------------------------------------------------------------------------
// Leaf names on the host filesystem
// ---------------------------------------------------------------------------

/// The leaf name of the numbered file of `fid`.
pub open spec fn numbered_leaf(fid: u64) -> Seq<char> {
    decimal_digits(fid as nat)
}

/// The leaf name of the named file that gives `fid` the name `name`.
pub open spec fn named_leaf(fid: u64, name: Seq<char>) -> Seq<char> {
    decimal_digits(fid as nat) + seq!['.'] + name
}

/// A name that a client may give to an object: not empty, no `/`, and not
/// made of digits alone (it would then read as a numbered file).
pub open spec fn legal_name(name: Seq<char>) -> bool {
    &&& name.len() > 0
    &&& !name.contains('/')
    &&& !all_digits(name)
}

/// What a leaf name found in a data directory stands for.
#[derive(Clone, Debug)]
pub enum LeafKind {
    /// The numbered file of an object.
    Numbered(u64),
    /// A named file: the object's identifier and its name.
    Named(u64, String),
    /// Anything else.
    Foreign,
}

// ---------------------------------------------------------------------------
// Lemmas on decimal notation
// ---------------------------------------------------------------------------

proof fn lemma_digit_char(d: nat)
    requires
        d < 10,
    ensures
        is_digit(digit_char(d)),
        digit_value(digit_char(d)) == d,
        digit_char(d) != '.',
        digit_char(d) == '0' <==> d == 0,
{
}

proof fn lemma_digit_roundtrip(c: char)
    requires
        is_digit(c),
    ensures
        digit_value(c) < 10,
        digit_char(digit_value(c)) == c,
{
    assert(digit_char(digit_value(c)) == c) by {
        let v = c as u32;
        assert('0' as u32 == 48);
        assert(48 <= v <= 57);
    }
}

/// The canonical notation of `n` is canonical, and it reads back as `n`.
pub proof fn lemma_decimal_digits(n: nat)
    ensures
        is_canonical_decimal(decimal_digits(n)),
        decimal_value(decimal_digits(n)) == n,
        !decimal_digits(n).contains('.'),
        decimal_digits(n).len() >= 1,
        n >= 10 ==> decimal_digits(n).len() >= 2,
    decreases n,
{
    let s = decimal_digits(n);
    if n < 10 {
        lemma_digit_char(n);
        assert(s.drop_last() =~= Seq::<char>::empty());
        assert(decimal_value(s.drop_last()) == 0);
        assert(!s.contains('.')) by {
            if s.contains('.') {
                let i = choose|i: int| 0 <= i < s.len() && s[i] == '.';
                assert(s[i] == digit_char(n));
            }
        }
    } else {
        lemma_decimal_digits(n / 10);
        lemma_digit_char(n % 10);
        let t = decimal_digits(n / 10);
        assert(s.drop_last() =~= t);
        assert(s.last() == digit_char(n % 10));
        assert(n == (n / 10) * 10 + n % 10);
        assert(all_digits(s)) by {
            assert forall|i: int| 0 <= i < s.len() implies is_digit(#[trigger] s[i]) by {
                if i < t.len() {
                    assert(s[i] == t[i]);
                }
            }
        }
        assert(s[0] == t[0]);
        if t.len() == 1 {
            assert(t[0] == digit_char(n / 10));
            lemma_digit_char(n / 10);
        }
        assert(!s.contains('.')) by {
            if s.contains('.') {
                let i = choose|i: int| 0 <= i < s.len() && s[i] == '.';
                if i < t.len() {
                    assert(t[i] == '.');
                    assert(t.contains('.'));
                }
            }
        }
    }
}

/// A canonical decimal string is the notation of its own value.
pub proof fn lemma_canonical_is_digits_of_value(s: Seq<char>)
    requires
        is_canonical_decimal(s),
    ensures
        decimal_digits(decimal_value(s)) == s,
        s.len() > 1 ==> decimal_value(s) >= 10,
    decreases s.len(),
{
    let v = decimal_value(s);
    lemma_digit_roundtrip(s.last());
    if s.len() == 1 {
        assert(s.drop_last() =~= Seq::<char>::empty());
        assert(decimal_value(s.drop_last()) == 0);
        assert(v == digit_value(s.last()));
        assert(decimal_digits(v) =~= s);
    } else {
        let t = s.drop_last();
        assert(t[0] == s[0]);
        assert(is_canonical_decimal(t)) by {
            assert forall|i: int| 0 <= i < t.len() implies is_digit(#[trigger] t[i]) by {
                assert(t[i] == s[i]);
            }
        }
        lemma_canonical_is_digits_of_value(t);
        let w = decimal_value(t);
        if t.len() == 1 {
            lemma_digit_roundtrip(t[0]);
            assert(t.drop_last() =~= Seq::<char>::empty());
            assert(decimal_value(t.drop_last()) == 0);
            assert(t.last() == t[0]);
            assert(w == digit_value(t[0]));
            assert(w >= 1);
        }
        assert(w >= 1);
        let d = digit_value(s.last());
        assert(v == w * 10 + d);
        assert(v >= 10) by (nonlinear_arith)
            requires
                v == w * 10 + d,
                w >= 1,
        ;
        assert(v / 10 == w && v % 10 == d) by (nonlinear_arith)
            requires
                v == w * 10 + d,
                d < 10,
        ;
        assert(decimal_digits(v) =~= t.push(s.last()));
        assert(t.push(s.last()) =~= s);
    }
}

/// Canonical notation is one to one.
pub proof fn lemma_decimal_digits_injective(a: nat, b: nat)
    requires
        decimal_digits(a) == decimal_digits(b),
    ensures
        a == b,
{
    lemma_decimal_digits(a);
    lemma_decimal_digits(b);
}

/// A named leaf determines its identifier and its name.
pub proof fn lemma_named_leaf_injective(f1: u64, n1: Seq<char>, f2: u64, n2: Seq<char>)
    requires
        named_leaf(f1, n1) == named_leaf(f2, n2),
    ensures
        f1 == f2,
        n1 == n2,
{
    let d1 = decimal_digits(f1 as nat);
    let d2 = decimal_digits(f2 as nat);
    lemma_decimal_digits(f1 as nat);
    lemma_decimal_digits(f2 as nat);
    let s = named_leaf(f1, n1);
    assert(s[d1.len() as int] == '.');
    assert(s[d2.len() as int] == '.');
    if d1.len() < d2.len() {
        assert(s[d1.len() as int] == d2[d1.len() as int]);
        assert(d2.contains('.'));
    } else if d2.len() < d1.len() {
        assert(s[d2.len() as int] == d1[d2.len() as int]);
        assert(d1.contains('.'));
    }
    assert(d1 =~= s.subrange(0, d1.len() as int));
    assert(d2 =~= s.subrange(0, d2.len() as int));
    lemma_decimal_digits_injective(f1 as nat, f2 as nat);
    assert(n1 =~= s.subrange(d1.len() as int + 1, s.len() as int));
    assert(n2 =~= s.subrange(d2.len() as int + 1, s.len() as int));
}

/// A numbered leaf is never a named leaf.
pub proof fn lemma_numbered_not_named(f1: u64, f2: u64, n: Seq<char>)
    ensures
        numbered_leaf(f1) != named_leaf(f2, n),
{
    lemma_decimal_digits(f1 as nat);
    lemma_decimal_digits(f2 as nat);
    let d2 = decimal_digits(f2 as nat);
    if numbered_leaf(f1) == named_leaf(f2, n) {
        let s = named_leaf(f2, n);
        assert(s[d2.len() as int] == '.');
        assert(numbered_leaf(f1).contains('.'));
    }
}

// ---------------------------------------------------------------------------
// Executable functions
// ---------------------------------------------------------------------------

fn digit_str(d: u64) -> (r: &'static str)
    requires
        d < 10,
    ensures
        r@ == seq![digit_char(d as nat)],
{
    proof {
        reveal_strlit("0");
        reveal_strlit("1");
        reveal_strlit("2");
        reveal_strlit("3");
        reveal_strlit("4");
        reveal_strlit("5");
        reveal_strlit("6");
        reveal_strlit("7");
        reveal_strlit("8");
        reveal_strlit("9");
    }
    if d == 0 {
        "0"
    } else if d == 1 {
        "1"
    } else if d == 2 {
        "2"
    } else if d == 3 {
        "3"
    } else if d == 4 {
        "4"
    } else if d == 5 {
        "5"
    } else if d == 6 {
        "6"
    } else if d == 7 {
        "7"
    } else if d == 8 {
        "8"
    } else {
        "9"
    }
}

/// The leaf name of the numbered file of `fid`: its decimal notation.
pub fn fid_leaf(fid: u64) -> (r: String)
    ensures
        r@ == numbered_leaf(fid),
{
    // Collect the digits, least significant first.
    let mut digits: Vec<u64> = Vec::new();
    let mut n: u64 = fid;
    let ghost mut rest: nat = fid as nat;
    loop
        invariant_except_break
            n as nat == rest,
            decimal_digits(fid as nat) == decimal_digits(rest) + Seq::new(
                digits.len() as nat,
                |i: int| digit_char(digits[digits.len() - 1 - i] as nat),
            ),
        invariant
            forall|i: int| 0 <= i < digits.len() ==> #[trigger] digits[i] < 10,
        ensures
            forall|i: int| 0 <= i < digits.len() ==> #[trigger] digits[i] < 10,
            decimal_digits(fid as nat) == Seq::new(
                digits.len() as nat,
                |i: int| digit_char(digits[digits.len() - 1 - i] as nat),
            ),
        decreases n,
    {
        if n < 10 {
            let ghost old_digits = digits@;
            digits.push(n);
            proof {
                assert(decimal_digits(rest) =~= seq![digit_char(n as nat)]);
                assert(decimal_digits(fid as nat) =~= Seq::<char>::empty() + Seq::new(
                    digits.len() as nat,
                    |i: int| digit_char(digits[digits.len() - 1 - i] as nat),
                )) by {
                    assert(digits@ == old_digits.push(n));
                }
            }
            break;
        }
        let ghost old_digits = digits@;
        digits.push(n % 10);
        proof {
            let tail_old = Seq::new(
                old_digits.len() as nat,
                |i: int| digit_char(old_digits[old_digits.len() - 1 - i] as nat),
            );
            let tail_new = Seq::new(
                digits.len() as nat,
                |i: int| digit_char(digits[digits.len() - 1 - i] as nat),
            );
            assert(tail_new =~= seq![digit_char((n % 10) as nat)] + tail_old);
            assert(decimal_digits(rest) == decimal_digits(rest / 10).push(
                digit_char(rest % 10),
            ));
            assert(decimal_digits(rest / 10).push(digit_char(rest % 10)) + tail_old
                =~= decimal_digits(rest / 10) + tail_new);
            rest = rest / 10;
        }
        n = n / 10;
    }
    let mut out = String::new();
    let mut k: usize = digits.len();
    while k > 0
        invariant
            k <= digits.len(),
            forall|i: int| 0 <= i < digits.len() ==> #[trigger] digits[i] < 10,
            out@ == Seq::new(
                (digits.len() - k) as nat,
                |i: int| digit_char(digits[digits.len() - 1 - i] as nat),
            ),
            decimal_digits(fid as nat) == Seq::new(
                digits.len() as nat,
                |i: int| digit_char(digits[digits.len() - 1 - i] as nat),
            ),
        decreases k,
    {
        k = k - 1;
        let s = digit_str(digits[k]);
        let ghost before = out@;
        out.append(s);
        assert(out@ =~= Seq::new(
            (digits.len() - k) as nat,
            |i: int| digit_char(digits[digits.len() - 1 - i] as nat),
        ));
    }
    assert(out@ =~= decimal_digits(fid as nat));
    out
}

/// The leaf name of the named file that gives `fid` the name `name`.
pub fn named_file_leaf(fid: u64, name: &str) -> (r: String)
    ensures
        r@ == named_leaf(fid, name@),
{
    let mut out = fid_leaf(fid);
    proof {
        reveal_strlit(".");
    }
    out.append(".");
    out.append(name);
    out
}

/// Whether `name` may name an object.
pub fn is_legal_name(name: &str) -> (r: bool)
    ensures
        r == legal_name(name@),
{
    let len = name.unicode_len();
    if len == 0 {
        return false;
    }
    let mut digits_only = true;
    let mut i: usize = 0;
    while i < len
        invariant
            len == name@.len(),
            i <= len,
            forall|j: int| 0 <= j < i ==> name@[j] != '/',
            digits_only == all_digits(name@.subrange(0, i as int)),
        decreases len - i,
    {
        let c = name.get_char(i);
        if c == '/' {
            assert(name@.contains('/')) by {
                assert(name@[i as int] == '/');
            }
            return false;
        }
        let ghost prev = name@.subrange(0, i as int);
        assert(name@.subrange(0, i + 1) =~= prev.push(c));
        proof {
            lemma_all_digits_push(prev, c);
        }
        if !('0' <= c && c <= '9') {
            digits_only = false;
        }
        i = i + 1;
    }
    assert(name@.subrange(0, len as int) =~= name@);
    !digits_only
}

pub proof fn lemma_all_digits_push(t: Seq<char>, c: char)
    ensures
        all_digits(t.push(c)) == (all_digits(t) && is_digit(c)),
{
    let q = t.push(c);
    if all_digits(t) && is_digit(c) {
        assert forall|j: int| 0 <= j < q.len() implies is_digit(#[trigger] q[j]) by {
            if j < t.len() {
                assert(q[j] == t[j]);
            }
        }
    }
    if all_digits(q) {
        assert(is_digit(q[t.len() as int]));
        assert forall|j: int| 0 <= j < t.len() implies is_digit(#[trigger] t[j]) by {
            assert(q[j] == t[j]);
        }
    }
}

pub proof fn lemma_decimal_value_push(t: Seq<char>, c: char)
    ensures
        decimal_value(t.push(c)) == decimal_value(t) * 10 + digit_value(c),
{
    assert(t.push(c).drop_last() =~= t);
}

/// Reads `s[0..end]` as the canonical decimal notation of an identifier.
fn parse_fid_prefix(s: &str, end: usize) -> (r: Option<u64>)
    requires
        end <= s@.len(),
    ensures
        match r {
            Some(f) => s@.subrange(0, end as int) == numbered_leaf(f),
            None => forall|f: u64| s@.subrange(0, end as int) != numbered_leaf(f),
        },
{
    let ghost sub = s@.subrange(0, end as int);
    if end == 0 {
        proof {
            assert forall|f: u64| sub != numbered_leaf(f) by {
                lemma_decimal_digits(f as nat);
            }
        }
        return None;
    }
    if end > 1 && s.get_char(0) == '0' {
        proof {
            assert forall|f: u64| sub != numbered_leaf(f) by {
                lemma_decimal_digits(f as nat);
                if sub == numbered_leaf(f) {
                    assert(sub[0] == s@[0]);
                }
            }
        }
        return None;
    }
    let mut v: u64 = 0;
    let mut i: usize = 0;
    while i < end
        invariant
            end <= s@.len(),
            sub == s@.subrange(0, end as int),
            i <= end,
            all_digits(s@.subrange(0, i as int)),
            v as nat == decimal_value(s@.subrange(0, i as int)),
        decreases end - i,
    {
        let c = s.get_char(i);
        let ghost prev = s@.subrange(0, i as int);
        assert(s@.subrange(0, i + 1) =~= prev.push(c));
        proof {
            lemma_decimal_value_push(prev, c);
        }
        if !('0' <= c && c <= '9') {
            proof {
                assert forall|f: u64| sub != numbered_leaf(f) by {
                    lemma_decimal_digits(f as nat);
                    if sub == numbered_leaf(f) {
                        assert(sub[i as int] == c);
                    }
                }
            }
            return None;
        }
        let d: u64 = (c as u32 - '0' as u32) as u64;
        assert(d as nat == digit_value(c));
        if v > (u64::MAX - d) / 10 {
            proof {
                assert(decimal_value(prev.push(c)) > u64::MAX) by (nonlinear_arith)
                    requires
                        decimal_value(prev.push(c)) == v * 10 + d,
                        v > (u64::MAX - d) / 10,
                        d < 10,
                ;
                assert forall|f: u64| sub != numbered_leaf(f) by {
                    if sub == numbered_leaf(f) {
                        lemma_decimal_digits(f as nat);
                        lemma_decimal_value_prefix_bound(sub, i as int + 1);
                        assert(sub.subrange(0, i as int + 1) =~= prev.push(c));
                    }
                }
            }
            return None;
        }
        v = v * 10 + d;
        i = i + 1;
    }
    proof {
        assert(s@.subrange(0, end as int) =~= sub);
        assert(is_canonical_decimal(sub)) by {
            if sub.len() > 1 {
                assert(sub[0] == s@[0]);
            }
        }
        lemma_canonical_is_digits_of_value(sub);
    }
    Some(v)
}

proof fn lemma_decimal_value_prefix_bound(s: Seq<char>, k: int)
    requires
        0 <= k <= s.len(),
    ensures
        decimal_value(s.subrange(0, k)) <= decimal_value(s),
    decreases s.len() - k,
{
    if k < s.len() {
        lemma_decimal_value_prefix_bound(s, k + 1);
        let t = s.subrange(0, k);
        assert(s.subrange(0, k + 1) =~= t.push(s[k]));
        lemma_decimal_value_push(t, s[k]);
    } else {
        assert(s.subrange(0, k) =~= s);
    }
}

/// The index of the first `.` in `s`, or its length when there is none.
fn first_dot(s: &str) -> (r: usize)
    ensures
        r <= s@.len(),
        forall|j: int| 0 <= j < r ==> s@[j] != '.',
        r < s@.len() ==> s@[r as int] == '.',
{
    let len = s.unicode_len();
    let mut i: usize = 0;
    while i < len
        invariant
            len == s@.len(),
            i <= len,
            forall|j: int| 0 <= j < i ==> s@[j] != '.',
        decreases len - i,
    {
        if s.get_char(i) == '.' {
            return i;
        }
        i = i + 1;
    }
    i
}

/// Tells what a leaf name found in a data directory stands for.
pub fn classify_leaf(leaf: &str) -> (r: LeafKind)
    ensures
        match r {
            LeafKind::Numbered(f) => leaf@ == numbered_leaf(f),
            LeafKind::Named(f, n) => leaf@ == named_leaf(f, n@),
            LeafKind::Foreign => {
                &&& forall|f: u64| leaf@ != numbered_leaf(f)
                &&& forall|f: u64, n: Seq<char>| leaf@ != named_leaf(f, n)
            },
        },
{
    let len = leaf.unicode_len();
    let p = first_dot(leaf);
    let prefix = parse_fid_prefix(leaf, p);
    if p == len {
        assert(leaf@.subrange(0, p as int) =~= leaf@);
        proof {
            assert forall|f: u64, n: Seq<char>| leaf@ != named_leaf(f, n) by {
                lemma_decimal_digits(f as nat);
                let d = decimal_digits(f as nat);
                if leaf@ == named_leaf(f, n) {
                    assert(leaf@[d.len() as int] == '.');
                }
            }
        }
        match prefix {
            Some(f) => LeafKind::Numbered(f),
            None => LeafKind::Foreign,
        }
    } else {
        proof {
            assert forall|f: u64| leaf@ != numbered_leaf(f) by {
                lemma_decimal_digits(f as nat);
                if leaf@ == numbered_leaf(f) {
                    assert(leaf@[p as int] == '.');
                    assert(numbered_leaf(f).contains('.'));
                }
            }
        }
        match prefix {
            Some(f) => {
                let rest = leaf.substring_char(p + 1, len).to_owned();
                assert(leaf@ =~= leaf@.subrange(0, p as int) + seq!['.'] + rest@);
                LeafKind::Named(f, rest)
            },
            None => {
                proof {
                    assert forall|f: u64, n: Seq<char>| leaf@ != named_leaf(f, n) by {
                        lemma_decimal_digits(f as nat);
                        let d = decimal_digits(f as nat);
                        let l = named_leaf(f, n);
                        if leaf@ == l {
                            assert(l[d.len() as int] == '.');
                            if (p as int) < d.len() {
                                assert(l[p as int] == d[p as int]);
                                assert(d[p as int] == '.');
                                assert(d.contains('.'));
                            } else if d.len() < (p as int) {
                                assert(leaf@[d.len() as int] != '.');
                            } else {
                                assert(leaf@.subrange(0, p as int) =~= d);
                                assert(d == numbered_leaf(f));
                            }
                        }
                    }
                }
                LeafKind::Foreign
            },
        }
    }
}

/// Whether two strings hold the same characters.
pub fn same_text(a: &str, b: &str) -> (r: bool)
    ensures
        r == (a@ == b@),
{
    let n = a.unicode_len();
    if n != b.unicode_len() {
        return false;
    }
    let mut i: usize = 0;
    while i < n
        invariant
            n == a@.len(),
            n == b@.len(),
            i <= n,
            forall|j: int| 0 <= j < i ==> a@[j] == b@[j],
        decreases n - i,
    {
        if a.get_char(i) != b.get_char(i) {
            return false;
        }
        i = i + 1;
    }
    assert(a@ =~= b@);
    true
}

} // verus!
