use vstd::prelude::*;
use vstd::string::*;

use crate::cli::{is_space, space};
use crate::name::{digit_value, is_digit, same_text};

verus! {

// ---------------------------------------------------------------------------
// Words
// ---------------------------------------------------------------------------

/// The end of the word that starts at `i`: the first white space at or after
/// `i`, or the end of `s`.
pub open spec fn word_end(s: Seq<char>, i: int) -> int
    decreases s.len() - i,
{
    if i >= s.len() || is_space(s[i]) {
        i
    } else {
        word_end(s, i + 1)
    }
}

/// The words of `s[i..]`: its maximal runs of characters that are not white
/// space, in order.
pub open spec fn words_from(s: Seq<char>, i: int) -> Seq<Seq<char>>
    decreases s.len() - i,
{
    if i >= s.len() {
        Seq::empty()
    } else if is_space(s[i]) {
        words_from(s, i + 1)
    } else {
        let j = word_end(s, i);
        if j <= i || j > s.len() {
            Seq::empty()
        } else {
            seq![s.subrange(i, j)] + words_from(s, j)
        }
    }
}

proof fn lemma_word_end_bound(s: Seq<char>, i: int)
    requires
        0 <= i,
    ensures
        i <= s.len() ==> i <= word_end(s, i) <= s.len(),
    decreases s.len() - i,
{
    if i < s.len() && !is_space(s[i]) {
        lemma_word_end_bound(s, i + 1);
    }
}

proof fn lemma_word_end(s: Seq<char>, i: int, j: int)
    requires
        0 <= i <= j <= s.len(),
        forall|k: int| i <= k < j ==> !is_space(#[trigger] s[k]),
        j == s.len() || is_space(s[j]),
    ensures
        word_end(s, i) == j,
    decreases j - i,
{
    if i < j {
        lemma_word_end(s, i + 1, j);
    }
}

/// The words of `s`, each as a string.
pub fn words(s: &str) -> (r: Vec<String>)
    ensures
        r@.map_values(|w: String| w@) == words_from(s@, 0),
{
    let len = s.unicode_len();
    let mut r: Vec<String> = Vec::new();
    let mut i: usize = 0;
    while i < len
        invariant
            len == s@.len(),
            i <= len,
            r@.map_values(|w: String| w@) + words_from(s@, i as int) == words_from(s@, 0),
        decreases len - i,
    {
        if space(s.get_char(i)) {
            i = i + 1;
        } else {
            let mut j: usize = i + 1;
            while j < len && !space(s.get_char(j))
                invariant
                    len == s@.len(),
                    i < j <= len,
                    forall|k: int| i <= k < j ==> !is_space(#[trigger] s@[k]),
                decreases len - j,
            {
                j = j + 1;
            }
            proof {
                lemma_word_end(s@, i as int, j as int);
                lemma_word_end_bound(s@, i as int);
            }
            let w = s.substring_char(i, j).to_owned();
            let ghost before = r@.map_values(|w: String| w@);
            r.push(w);
            assert(r@.map_values(|w: String| w@) =~= before.push(s@.subrange(i as int, j as int)));
            assert(words_from(s@, i as int) == seq![s@.subrange(i as int, j as int)] + words_from(
                s@,
                j as int,
            ));
            assert(before.push(s@.subrange(i as int, j as int)) + words_from(s@, j as int) =~= before
                + (seq![s@.subrange(i as int, j as int)] + words_from(s@, j as int)));
            i = j;
        }
    }
    assert(r@.map_values(|w: String| w@) + words_from(s@, len as int) =~= r@.map_values(
        |w: String| w@,
    ));
    r
}

// ---------------------------------------------------------------------------
// Numbers and truth values, read as Rust reads them
// ---------------------------------------------------------------------------

pub open spec fn invalid_digit() -> Seq<char> {
    "invalid digit found in string"@
}

pub open spec fn too_large() -> Seq<char> {
    "number too large to fit in target type"@
}

pub open spec fn empty_number() -> Seq<char> {
    "cannot parse integer from empty string"@
}

pub open spec fn not_bool() -> Seq<char> {
    "provided string was not `true` or `false`"@
}

/// Reading the digits `d[i..]` after the value `acc`, left to right: the
/// first character that is no digit, or the first digit that takes the value
/// past the largest, ends the reading with an error.
pub open spec fn scan_digits(d: Seq<char>, i: int, acc: int) -> Result<u64, Seq<char>>
    decreases d.len() - i,
{
    if i >= d.len() {
        Ok(acc as u64)
    } else if !is_digit(d[i]) {
        Err(invalid_digit())
    } else if acc * 10 + digit_value(d[i]) > u64::MAX {
        Err(too_large())
    } else {
        scan_digits(d, i + 1, acc * 10 + digit_value(d[i]))
    }
}

/// An unsigned decimal number with an optional leading `+`.
pub open spec fn read_u64(t: Seq<char>) -> Result<u64, Seq<char>> {
    if t.len() == 0 {
        Err(empty_number())
    } else {
        let d = if t[0] == '+' {
            t.drop_first()
        } else {
            t
        };
        if d.len() == 0 {
            Err(invalid_digit())
        } else {
            scan_digits(d, 0, 0)
        }
    }
}

pub open spec fn read_bool(t: Seq<char>) -> Result<bool, Seq<char>> {
    if t == "true"@ {
        Ok(true)
    } else if t == "false"@ {
        Ok(false)
    } else {
        Err(not_bool())
    }
}

pub fn parse_u64(t: &str) -> (r: Result<u64, String>)
    ensures
        match (r, read_u64(t@)) {
            (Ok(v), Ok(w)) => v == w,
            (Err(m), Err(n)) => m@ == n,
            _ => false,
        },
{
    let len = t.unicode_len();
    if len == 0 {
        return Err("cannot parse integer from empty string".to_owned());
    }
    let start: usize = if t.get_char(0) == '+' {
        1
    } else {
        0
    };
    let ghost d = if t@[0] == '+' {
        t@.drop_first()
    } else {
        t@
    };
    assert(d =~= t@.subrange(start as int, len as int));
    if start == len {
        return Err("invalid digit found in string".to_owned());
    }
    let mut acc: u64 = 0;
    let mut i: usize = start;
    while i < len
        invariant
            len == t@.len(),
            start <= i <= len,
            d == t@.subrange(start as int, len as int),
            read_u64(t@) == scan_digits(d, i - start, acc as int),
        decreases len - i,
    {
        let c = t.get_char(i);
        assert(d[i - start] == c);
        if !('0' <= c && c <= '9') {
            return Err("invalid digit found in string".to_owned());
        }
        let v = (c as u32 - '0' as u32) as u64;
        assert(v == digit_value(c));
        if acc > (u64::MAX - v) / 10 {
            assert(acc * 10 + v > u64::MAX) by (nonlinear_arith)
                requires
                    acc > (u64::MAX - v) / 10,
                    v < 10,
            ;
            return Err("number too large to fit in target type".to_owned());
        }
        acc = acc * 10 + v;
        i = i + 1;
    }
    Ok(acc)
}

pub fn parse_bool(t: &str) -> (r: Result<bool, String>)
    ensures
        match (r, read_bool(t@)) {
            (Ok(v), Ok(w)) => v == w,
            (Err(m), Err(n)) => m@ == n,
            _ => false,
        },
{
    if same_text(t, "true") {
        Ok(true)
    } else if same_text(t, "false") {
        Ok(false)
    } else {
        Err("provided string was not `true` or `false`".to_owned())
    }
}

/// A request, as one line of text.
#[derive(Clone, Debug)]
pub enum NfsCommand {
    Null,
    MkDir(u64, String),
    RmDir(u64, String),
    Remove(u64, String),
    Lookup(u64, String),
    ReadDir(u64, u64),
    GetAttr(u64),
    SetAttr(u64, u64, u64, u64),
    Read(u64, u64, u64),
    Write(u64, u64, u64, bool, String),
    Create(u64, String),
    Rename(u64, String, u64, String),
    Commit(u64, u64, u64),
    StatFs,
}

/// A request seen as values.
pub enum CommandView {
    Null,
    MkDir(u64, Seq<char>),
    RmDir(u64, Seq<char>),
    Remove(u64, Seq<char>),
    Lookup(u64, Seq<char>),
    ReadDir(u64, u64),
    GetAttr(u64),
    SetAttr(u64, u64, u64, u64),
    Read(u64, u64, u64),
    Write(u64, u64, u64, bool, Seq<char>),
    Create(u64, Seq<char>),
    Rename(u64, Seq<char>, u64, Seq<char>),
    Commit(u64, u64, u64),
    StatFs,
}

pub open spec fn command_view(c: NfsCommand) -> CommandView {
    match c {
        NfsCommand::Null => CommandView::Null,
        NfsCommand::StatFs => CommandView::StatFs,
        NfsCommand::MkDir(a0, a1) => CommandView::MkDir(a0, a1@),
        NfsCommand::RmDir(a0, a1) => CommandView::RmDir(a0, a1@),
        NfsCommand::Remove(a0, a1) => CommandView::Remove(a0, a1@),
        NfsCommand::Lookup(a0, a1) => CommandView::Lookup(a0, a1@),
        NfsCommand::ReadDir(a0, a1) => CommandView::ReadDir(a0, a1),
        NfsCommand::GetAttr(a0) => CommandView::GetAttr(a0),
        NfsCommand::SetAttr(a0, a1, a2, a3) => CommandView::SetAttr(a0, a1, a2, a3),
        NfsCommand::Read(a0, a1, a2) => CommandView::Read(a0, a1, a2),
        NfsCommand::Write(a0, a1, a2, a3, a4) => CommandView::Write(a0, a1, a2, a3, a4@),
        NfsCommand::Create(a0, a1) => CommandView::Create(a0, a1@),
        NfsCommand::Rename(a0, a1, a2, a3) => CommandView::Rename(a0, a1@, a2, a3@),
        NfsCommand::Commit(a0, a1, a2) => CommandView::Commit(a0, a1, a2),
    }
}

/// What a request line means, given its words `ws` and the whole line: the
/// command word, then its fields, read left to right; the first field that
/// does not read ends the reading with its error.
pub open spec fn parse_spec(ws: Seq<Seq<char>>, whole: Seq<char>) -> Result<CommandView, Seq<char>> {
    if ws.len() < 1 {
        Err("No command given"@)
    } else {
        if ws[0] == "NULL"@ {
            Ok(CommandView::Null)
        } else if ws[0] == "MKDIR"@ {
            if ws.len() < 3 {
                Err("Mkdir without new dir name or parent dir name"@)
            } else {
                match read_u64(ws[1]) {
                    Err(m) => Err(m),
                    Ok(v0) => {
                        Ok(CommandView::MkDir(v0, ws[2]))
                    },
                }
            }
        } else if ws[0] == "RMDIR"@ {
            if ws.len() < 3 {
                Err("Rmdir without new dir name or parent dir name"@)
            } else {
                match read_u64(ws[1]) {
                    Err(m) => Err(m),
                    Ok(v0) => {
                        Ok(CommandView::RmDir(v0, ws[2]))
                    },
                }
            }
        } else if ws[0] == "REMOVE"@ {
            if ws.len() < 3 {
                Err("Remove without new dir name or parent dir name"@)
            } else {
                match read_u64(ws[1]) {
                    Err(m) => Err(m),
                    Ok(v0) => {
                        Ok(CommandView::Remove(v0, ws[2]))
                    },
                }
            }
        } else if ws[0] == "LOOKUP"@ {
            if ws.len() < 3 {
                Err("Lookup without parent dir name or lookup name"@)
            } else {
                match read_u64(ws[1]) {
                    Err(m) => Err(m),
                    Ok(v0) => {
                        Ok(CommandView::Lookup(v0, ws[2]))
                    },
                }
            }
        } else if ws[0] == "READDIR"@ {
            if ws.len() < 3 {
                Err("Readdir without dir name"@)
            } else {
                match read_u64(ws[1]) {
                    Err(m) => Err(m),
                    Ok(v0) => {
                        match read_u64(ws[2]) {
                            Err(m) => Err(m),
                            Ok(v1) => {
                                Ok(CommandView::ReadDir(v0, v1))
                            },
                        }
                    },
                }
            }
        } else if ws[0] == "GETATTR"@ {
            if ws.len() < 2 {
                Err("GetAttr without fid"@)
            } else {
                match read_u64(ws[1]) {
                    Err(m) => Err(m),
                    Ok(v0) => {
                        Ok(CommandView::GetAttr(v0))
                    },
                }
            }
        } else if ws[0] == "SETATTR"@ {
            if ws.len() < 5 {
                Err("SetAttr without fid, size, atime, mtime"@)
            } else {
                match read_u64(ws[1]) {
                    Err(m) => Err(m),
                    Ok(v0) => {
                        match read_u64(ws[2]) {
                            Err(m) => Err(m),
                            Ok(v1) => {
                                match read_u64(ws[3]) {
                                    Err(m) => Err(m),
                                    Ok(v2) => {
                                        match read_u64(ws[4]) {
                                            Err(m) => Err(m),
                                            Ok(v3) => {
                                                Ok(CommandView::SetAttr(v0, v1, v2, v3))
                                            },
                                        }
                                    },
                                }
                            },
                        }
                    },
                }
            }
        } else if ws[0] == "READ"@ {
            if ws.len() < 4 {
                Err("Read without fid, offset, count"@)
            } else {
                match read_u64(ws[1]) {
                    Err(m) => Err(m),
                    Ok(v0) => {
                        match read_u64(ws[2]) {
                            Err(m) => Err(m),
                            Ok(v1) => {
                                match read_u64(ws[3]) {
                                    Err(m) => Err(m),
                                    Ok(v2) => {
                                        Ok(CommandView::Read(v0, v1, v2))
                                    },
                                }
                            },
                        }
                    },
                }
            }
        } else if ws[0] == "WRITE"@ {
            if ws.len() < 6 {
                Err("Write without fid, offset, count, stable, data"@)
            } else {
                match read_u64(ws[1]) {
                    Err(m) => Err(m),
                    Ok(v0) => {
                        match read_u64(ws[2]) {
                            Err(m) => Err(m),
                            Ok(v1) => {
                                match read_u64(ws[3]) {
                                    Err(m) => Err(m),
                                    Ok(v2) => {
                                        match read_bool(ws[4]) {
                                            Err(m) => Err(m),
                                            Ok(v3) => {
                                                Ok(CommandView::Write(v0, v1, v2, v3, ws[5]))
                                            },
                                        }
                                    },
                                }
                            },
                        }
                    },
                }
            }
        } else if ws[0] == "CREATE"@ {
            if ws.len() < 3 {
                Err("Create without did, fname"@)
            } else {
                match read_u64(ws[1]) {
                    Err(m) => Err(m),
                    Ok(v0) => {
                        Ok(CommandView::Create(v0, ws[2]))
                    },
                }
            }
        } else if ws[0] == "RENAME"@ {
            if ws.len() < 5 {
                Err("Rename without fromdid, fromfname, todid, tofname"@)
            } else {
                match read_u64(ws[1]) {
                    Err(m) => Err(m),
                    Ok(v0) => {
                        match read_u64(ws[3]) {
                            Err(m) => Err(m),
                            Ok(v2) => {
                                Ok(CommandView::Rename(v0, ws[2], v2, ws[4]))
                            },
                        }
                    },
                }
            }
        } else if ws[0] == "STATFS"@ {
            Ok(CommandView::StatFs)
        } else if ws[0] == "COMMIT"@ {
            if ws.len() < 4 {
                Err("Commit without fid, offset, count"@)
            } else {
                match read_u64(ws[1]) {
                    Err(m) => Err(m),
                    Ok(v0) => {
                        match read_u64(ws[2]) {
                            Err(m) => Err(m),
                            Ok(v1) => {
                                match read_u64(ws[3]) {
                                    Err(m) => Err(m),
                                    Ok(v2) => {
                                        Ok(CommandView::Commit(v0, v1, v2))
                                    },
                                }
                            },
                        }
                    },
                }
            }
        } else {
            Err("Unknown command: "@ + whole)
        }
    }
}

/// Reads a request line.
pub fn parse_command(value: &str) -> (r: Result<NfsCommand, String>)
    ensures
        match (r, parse_spec(words_from(value@, 0), value@)) {
            (Ok(c), Ok(v)) => command_view(c) == v,
            (Err(m), Err(n)) => m@ == n,
            _ => false,
        },
{
    let ws = words(value);
    let ghost wv = ws@.map_values(|w: String| w@);
    assert(wv.len() == ws@.len());
    assert(forall|i: int| 0 <= i < ws@.len() ==> #[trigger] wv[i] == ws@[i]@);
    if ws.len() < 1 {
        return Err("No command given".to_owned());
    }
    let first = ws[0].as_str();
    if same_text(first, "NULL") {
        return Ok(NfsCommand::Null);
    }
    if same_text(first, "MKDIR") {
        if ws.len() < 3 {
            return Err("Mkdir without new dir name or parent dir name".to_owned());
        }
        let v0 = match parse_u64(ws[1].as_str()) {
            Ok(v) => v,
            Err(m) => {
                return Err(m);
            },
        };
        return Ok(NfsCommand::MkDir(v0, ws[2].clone()));
    }
    if same_text(first, "RMDIR") {
        if ws.len() < 3 {
            return Err("Rmdir without new dir name or parent dir name".to_owned());
        }
        let v0 = match parse_u64(ws[1].as_str()) {
            Ok(v) => v,
            Err(m) => {
                return Err(m);
            },
        };
        return Ok(NfsCommand::RmDir(v0, ws[2].clone()));
    }
    if same_text(first, "REMOVE") {
        if ws.len() < 3 {
            return Err("Remove without new dir name or parent dir name".to_owned());
        }
        let v0 = match parse_u64(ws[1].as_str()) {
            Ok(v) => v,
            Err(m) => {
                return Err(m);
            },
        };
        return Ok(NfsCommand::Remove(v0, ws[2].clone()));
    }
    if same_text(first, "LOOKUP") {
        if ws.len() < 3 {
            return Err("Lookup without parent dir name or lookup name".to_owned());
        }
        let v0 = match parse_u64(ws[1].as_str()) {
            Ok(v) => v,
            Err(m) => {
                return Err(m);
            },
        };
        return Ok(NfsCommand::Lookup(v0, ws[2].clone()));
    }
    if same_text(first, "READDIR") {
        if ws.len() < 3 {
            return Err("Readdir without dir name".to_owned());
        }
        let v0 = match parse_u64(ws[1].as_str()) {
            Ok(v) => v,
            Err(m) => {
                return Err(m);
            },
        };
        let v1 = match parse_u64(ws[2].as_str()) {
            Ok(v) => v,
            Err(m) => {
                return Err(m);
            },
        };
        return Ok(NfsCommand::ReadDir(v0, v1));
    }
    if same_text(first, "GETATTR") {
        if ws.len() < 2 {
            return Err("GetAttr without fid".to_owned());
        }
        let v0 = match parse_u64(ws[1].as_str()) {
            Ok(v) => v,
            Err(m) => {
                return Err(m);
            },
        };
        return Ok(NfsCommand::GetAttr(v0));
    }
    if same_text(first, "SETATTR") {
        if ws.len() < 5 {
            return Err("SetAttr without fid, size, atime, mtime".to_owned());
        }
        let v0 = match parse_u64(ws[1].as_str()) {
            Ok(v) => v,
            Err(m) => {
                return Err(m);
            },
        };
        let v1 = match parse_u64(ws[2].as_str()) {
            Ok(v) => v,
            Err(m) => {
                return Err(m);
            },
        };
        let v2 = match parse_u64(ws[3].as_str()) {
            Ok(v) => v,
            Err(m) => {
                return Err(m);
            },
        };
        let v3 = match parse_u64(ws[4].as_str()) {
            Ok(v) => v,
            Err(m) => {
                return Err(m);
            },
        };
        return Ok(NfsCommand::SetAttr(v0, v1, v2, v3));
    }
    if same_text(first, "READ") {
        if ws.len() < 4 {
            return Err("Read without fid, offset, count".to_owned());
        }
        let v0 = match parse_u64(ws[1].as_str()) {
            Ok(v) => v,
            Err(m) => {
                return Err(m);
            },
        };
        let v1 = match parse_u64(ws[2].as_str()) {
            Ok(v) => v,
            Err(m) => {
                return Err(m);
            },
        };
        let v2 = match parse_u64(ws[3].as_str()) {
            Ok(v) => v,
            Err(m) => {
                return Err(m);
            },
        };
        return Ok(NfsCommand::Read(v0, v1, v2));
    }
    if same_text(first, "WRITE") {
        if ws.len() < 6 {
            return Err("Write without fid, offset, count, stable, data".to_owned());
        }
        let v0 = match parse_u64(ws[1].as_str()) {
            Ok(v) => v,
            Err(m) => {
                return Err(m);
            },
        };
        let v1 = match parse_u64(ws[2].as_str()) {
            Ok(v) => v,
            Err(m) => {
                return Err(m);
            },
        };
        let v2 = match parse_u64(ws[3].as_str()) {
            Ok(v) => v,
            Err(m) => {
                return Err(m);
            },
        };
        let v3 = match parse_bool(ws[4].as_str()) {
            Ok(v) => v,
            Err(m) => {
                return Err(m);
            },
        };
        return Ok(NfsCommand::Write(v0, v1, v2, v3, ws[5].clone()));
    }
    if same_text(first, "CREATE") {
        if ws.len() < 3 {
            return Err("Create without did, fname".to_owned());
        }
        let v0 = match parse_u64(ws[1].as_str()) {
            Ok(v) => v,
            Err(m) => {
                return Err(m);
            },
        };
        return Ok(NfsCommand::Create(v0, ws[2].clone()));
    }
    if same_text(first, "RENAME") {
        if ws.len() < 5 {
            return Err("Rename without fromdid, fromfname, todid, tofname".to_owned());
        }
        let v0 = match parse_u64(ws[1].as_str()) {
            Ok(v) => v,
            Err(m) => {
                return Err(m);
            },
        };
        let v2 = match parse_u64(ws[3].as_str()) {
            Ok(v) => v,
            Err(m) => {
                return Err(m);
            },
        };
        return Ok(NfsCommand::Rename(v0, ws[2].clone(), v2, ws[4].clone()));
    }
    if same_text(first, "STATFS") {
        return Ok(NfsCommand::StatFs);
    }
    if same_text(first, "COMMIT") {
        if ws.len() < 4 {
            return Err("Commit without fid, offset, count".to_owned());
        }
        let v0 = match parse_u64(ws[1].as_str()) {
            Ok(v) => v,
            Err(m) => {
                return Err(m);
            },
        };
        let v1 = match parse_u64(ws[2].as_str()) {
            Ok(v) => v,
            Err(m) => {
                return Err(m);
            },
        };
        let v2 = match parse_u64(ws[3].as_str()) {
            Ok(v) => v,
            Err(m) => {
                return Err(m);
            },
        };
        return Ok(NfsCommand::Commit(v0, v1, v2));
    }
    let mut msg = "Unknown command: ".to_owned();
    msg.append(value);
    Err(msg)
}

} // verus!
