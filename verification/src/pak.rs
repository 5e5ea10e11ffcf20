//! The length-prefixed string-table format used for the game's text assets:
//! a record count, then per record a length-prefixed name and a 32-bit offset
//! to its block of length-prefixed lines elsewhere in the buffer.
use vstd::prelude::*;

use crate::bytes::{le_u32_at, read_u32_le};
use crate::error::Error;
use vstd::string::StringExecFns;

verus! {

/// The characters that lossy UTF-8 decoding yields for a byte sequence.
pub uninterp spec fn utf8_lossy_of(b: Seq<u8>) -> Seq<char>;

/// Relies on `String::from_utf8_lossy`: the result depends on the bytes
/// alone, and valid UTF-8 — so in particular plain ASCII — passes through
/// unchanged, byte for byte.
#[verifier::external_body]
fn utf8_lossy(b: &[u8]) -> (r: String)
    ensures
        r@ == utf8_lossy_of(b@),
        (forall|i: int| 0 <= i < b@.len() ==> b@[i] < 0x80) ==> r@ == b@.map_values(
            |c: u8| c as char,
        ),
{
    String::from_utf8_lossy(b).into_owned()
}

#[derive(Debug, PartialEq)]
pub struct PAKFile {
    pub records: Vec<PAKRecord>,
}

#[derive(Debug, PartialEq)]
pub struct PAKRecord {
    pub name: String,
    pub lines: Vec<String>,
}

/// The mathematical value of one record: its name and its lines.
pub struct PAKRecordV {
    pub name: Seq<char>,
    pub lines: Seq<Seq<char>>,
}

impl View for PAKRecord {
    type V = PAKRecordV;

    open spec fn view(&self) -> PAKRecordV {
        PAKRecordV { name: self.name@, lines: self.lines@.map_values(|l: String| l@) }
    }
}

impl View for PAKFile {
    type V = Seq<PAKRecordV>;

    open spec fn view(&self) -> Seq<PAKRecordV> {
        self.records@.map_values(|r: PAKRecord| r@)
    }
}

/// One length-prefixed string read at `p`: its decoded characters and the
/// position just past it.
pub open spec fn pak_string_at(s: Seq<u8>, p: int) -> Result<(Seq<char>, int), Error> {
    if p + 4 > s.len() {
        Err(Error::TruncatedInput)
    } else {
        let n = le_u32_at(s, p) as int;
        if p + 4 + n > s.len() {
            Err(Error::TruncatedInput)
        } else {
            Ok((utf8_lossy_of(s.subrange(p + 4, p + 4 + n)), p + 4 + n))
        }
    }
}

/// `cnt` length-prefixed strings read one after another from `q`.
pub open spec fn pak_lines_at(s: Seq<u8>, q: int, cnt: int) -> Result<Seq<Seq<char>>, Error>
    decreases cnt,
{
    if cnt <= 0 {
        Ok(Seq::empty())
    } else {
        match pak_string_at(s, q) {
            Ok(first) => match pak_lines_at(s, first.1, cnt - 1) {
                Ok(rest) => Ok(seq![first.0] + rest),
                Err(e) => Err(e),
            },
            Err(e) => Err(e),
        }
    }
}

/// `cnt` records read from `p`: each a name, then an offset that must lie
/// inside the buffer, where a line count and that many lines stand.
pub open spec fn pak_records_at(s: Seq<u8>, p: int, cnt: int) -> Result<Seq<PAKRecordV>, Error>
    decreases cnt,
{
    if cnt <= 0 {
        Ok(Seq::empty())
    } else {
        match pak_string_at(s, p) {
            Ok(name_read) => {
                let p2 = name_read.1;
                if p2 + 4 > s.len() {
                    Err(Error::TruncatedInput)
                } else {
                    let off = le_u32_at(s, p2) as int;
                    if off >= s.len() {
                        Err(
                            Error::OffsetOutOfBounds {
                                offset: off as usize,
                                max: (s.len() - 1) as usize,
                            },
                        )
                    } else if off + 4 > s.len() {
                        Err(Error::TruncatedInput)
                    } else {
                        match pak_lines_at(s, off + 4, le_u32_at(s, off) as int) {
                            Ok(lines) => match pak_records_at(s, p2 + 4, cnt - 1) {
                                Ok(rest) => Ok(
                                    seq![PAKRecordV { name: name_read.0, lines }] + rest,
                                ),
                                Err(e) => Err(e),
                            },
                            Err(e) => Err(e),
                        }
                    }
                }
            },
            Err(e) => Err(e),
        }
    }
}

/// A whole string table: the record count, then that many records.
pub open spec fn pak_parse(s: Seq<u8>) -> Result<Seq<PAKRecordV>, Error> {
    if s.len() < 4 {
        Err(Error::TruncatedInput)
    } else {
        pak_records_at(s, 4, le_u32_at(s, 0) as int)
    }
}

/// Reads one length-prefixed string.
fn read_string(data: &[u8], pos: usize) -> (r: Result<(String, usize), Error>)
    requires
        pos <= data@.len(),
    ensures
        (match r {
            Ok(sp) => pak_string_at(data@, pos as int) == Ok::<(Seq<char>, int), Error>(
                (sp.0@, sp.1 as int),
            ) && sp.1 <= data@.len(),
            Err(e) => pak_string_at(data@, pos as int) == Err::<(Seq<char>, int), Error>(e),
        }),
{
    if data.len() - pos < 4 {
        return Err(Error::TruncatedInput);
    }
    let n = read_u32_le(data, pos) as usize;
    if n > data.len() - (pos + 4) {
        return Err(Error::TruncatedInput);
    }
    let bytes = vstd::slice::slice_subrange(data, pos + 4, pos + 4 + n);
    let st = utf8_lossy(bytes);
    Ok((st, pos + 4 + n))
}

/// Reads `cnt` strings one after another.
fn read_lines(data: &[u8], q: usize, cnt: u32) -> (r: Result<Vec<String>, Error>)
    requires
        q <= data@.len(),
    ensures
        (match r {
            Ok(v) => pak_lines_at(data@, q as int, cnt as int) == Ok::<Seq<Seq<char>>, Error>(
                v@.map_values(|l: String| l@),
            ),
            Err(e) => pak_lines_at(data@, q as int, cnt as int) == Err::<Seq<Seq<char>>, Error>(e),
        }),
{
    let mut lines: Vec<String> = Vec::new();
    let mut cur: usize = q;
    let mut k: u32 = 0;
    while k < cnt
        invariant
            k <= cnt,
            cur <= data@.len(),
            lines@.len() == k,
            (match pak_lines_at(data@, cur as int, (cnt - k) as int) {
                Ok(rest) => pak_lines_at(data@, q as int, cnt as int) == Ok::<
                    Seq<Seq<char>>,
                    Error,
                >(lines@.map_values(|l: String| l@) + rest),
                Err(e) => pak_lines_at(data@, q as int, cnt as int) == Err::<
                    Seq<Seq<char>>,
                    Error,
                >(e),
            }),
        decreases cnt - k,
    {
        let ghost lines0 = lines@.map_values(|l: String| l@);
        match read_string(data, cur) {
            Ok((line, np)) => {
                lines.push(line);
                cur = np;
            },
            Err(e) => {
                return Err(e);
            },
        }
        k += 1;
        proof {
            let mapped = lines@.map_values(|l: String| l@);
            assert(mapped =~= lines0.push(lines@[lines@.len() - 1]@));
            if pak_lines_at(data@, cur as int, (cnt - k) as int) is Ok {
                let rest2 = pak_lines_at(data@, cur as int, (cnt - k) as int)->Ok_0;
                assert(lines0 + (seq![mapped[mapped.len() - 1]] + rest2) =~= mapped + rest2);
            }
        }
    }
    assert(lines@.map_values(|l: String| l@) + Seq::<Seq<char>>::empty() =~= lines@.map_values(
        |l: String| l@,
    ));
    Ok(lines)
}

impl PAKFile {
    /// Parses a whole string table.
    pub fn parse(data: &[u8]) -> (r: Result<PAKFile, Error>)
        ensures
            (match r {
                Ok(f) => pak_parse(data@) == Ok::<Seq<PAKRecordV>, Error>(f@),
                Err(e) => pak_parse(data@) == Err::<Seq<PAKRecordV>, Error>(e),
            }),
    {
        if data.len() < 4 {
            return Err(Error::TruncatedInput);
        }
        let cnt = read_u32_le(data, 0);
        let mut records: Vec<PAKRecord> = Vec::new();
        let mut pos: usize = 4;
        let mut k: u32 = 0;
        while k < cnt
            invariant
                k <= cnt,
                pos <= data@.len(),
                data@.len() >= 4,
                cnt == le_u32_at(data@, 0),
                records@.len() == k,
                (match pak_records_at(data@, pos as int, (cnt - k) as int) {
                    Ok(rest) => pak_records_at(data@, 4, cnt as int) == Ok::<
                        Seq<PAKRecordV>,
                        Error,
                    >(records@.map_values(|r: PAKRecord| r@) + rest),
                    Err(e) => pak_records_at(data@, 4, cnt as int) == Err::<
                        Seq<PAKRecordV>,
                        Error,
                    >(e),
                }),
            decreases cnt - k,
        {
            let ghost recs0 = records@.map_values(|r: PAKRecord| r@);
            let name: String;
            let after_name: usize;
            match read_string(data, pos) {
                Ok((n, np)) => {
                    name = n;
                    after_name = np;
                },
                Err(e) => {
                    return Err(e);
                },
            }
            if data.len() - after_name < 4 {
                return Err(Error::TruncatedInput);
            }
            let off = read_u32_le(data, after_name) as usize;
            if off >= data.len() {
                return Err(Error::OffsetOutOfBounds { offset: off, max: data.len() - 1 });
            }
            if data.len() - off < 4 {
                return Err(Error::TruncatedInput);
            }
            let line_count = read_u32_le(data, off);
            let lines: Vec<String>;
            match read_lines(data, off + 4, line_count) {
                Ok(v) => {
                    lines = v;
                },
                Err(e) => {
                    return Err(e);
                },
            }
            records.push(PAKRecord { name, lines });
            pos = after_name + 4;
            k += 1;
            proof {
                let mapped = records@.map_values(|r: PAKRecord| r@);
                assert(mapped =~= recs0.push(records@[records@.len() - 1]@));
                if pak_records_at(data@, pos as int, (cnt - k) as int) is Ok {
                    let rest2 = pak_records_at(data@, pos as int, (cnt - k) as int)->Ok_0;
                    assert(recs0 + (seq![mapped[mapped.len() - 1]] + rest2) =~= mapped + rest2);
                }
            }
        }
        proof {
            assert(records@.map_values(|r: PAKRecord| r@) + Seq::<PAKRecordV>::empty()
                =~= records@.map_values(|r: PAKRecord| r@));
        }
        Ok(PAKFile { records })
    }
}

/// The first `k` lines joined with a newline between each two.
pub open spec fn join_prefix(lines: Seq<Seq<char>>, k: int) -> Seq<char>
    decreases k,
{
    if k <= 0 {
        Seq::empty()
    } else if k == 1 {
        lines[0]
    } else {
        join_prefix(lines, k - 1) + seq!['\n'] + lines[k - 1]
    }
}

/// All of a record's lines joined with newlines.
pub open spec fn joined_lines(lines: Seq<Seq<char>>) -> Seq<char> {
    join_prefix(lines, lines.len() as int)
}

impl PAKRecord {
    /// The record's lines as one text, a newline between each two.
    pub fn as_single_string(&self) -> (r: String)
        ensures
            r@ == joined_lines(self@.lines),
    {
        let mut out = String::new();
        let n = self.lines.len();
        let mut k: usize = 0;
        while k < n
            invariant
                k <= n,
                n == self.lines@.len(),
                out@ == join_prefix(self@.lines, k as int),
            decreases n - k,
        {
            if k > 0 {
                proof {
                    reveal_strlit("\n");
                }
                out.append("\n");
                assert(out@ =~= join_prefix(self@.lines, k as int) + seq!['\n']);
            }
            out.append(self.lines[k].as_str());
            proof {
                assert(self@.lines[k as int] == self.lines@[k as int]@);
            }
            k += 1;
        }
        out
    }
}

} // verus!
