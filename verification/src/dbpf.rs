//! The sibling compression layout found in some game files: the same
//! two magic bytes read little-endian (`0xFB10`) behind a 32-bit compressed
//! length, and a four-byte control layout in the `0xC0`–`0xDF` range with a
//! zero-based copy offset. Parsing collects the instruction list; applying it
//! replays the literal runs and back-reference copies.
use vstd::prelude::*;

use crate::bytes::{be_u24_at, le_u16_at, le_u32_at, push_range, read_u16_le, read_u24_be, read_u32_le};
use crate::error::Error;
use crate::refpack::back_copy;

verus! {

pub const DBPF_QFS_COMPRESSION_ID: u16 = 0xFB10;

#[derive(Debug)]
pub struct DBPFCompression {
    pub data: Vec<u8>,
    pub instructions: Vec<DBPFCompressionInstruction>,
    pub uncompressed_len: usize,
}

#[derive(Debug, Clone, Copy, PartialEq, Eq, Structural)]
pub struct DBPFCompressionInstruction {
    pub append_offset: usize,
    pub append_len: usize,
    pub decoded_copy_offset: usize,
    pub decoded_copy_len: usize,
}

/// The instructions read from `s` between `i` and the declared end `len`.
/// Control bytes must lie inside the buffer; the literal bytes after them are
/// only skipped over, so the cursor may run past the end and end the scan.
pub open spec fn dbpf_scan(s: Seq<u8>, i: int, len: int) -> Result<
    Seq<DBPFCompressionInstruction>,
    Error,
>
    decreases len - i,
{
    if i >= len {
        Ok(Seq::empty())
    } else {
        let c0 = s[i];
        let nb: int = if c0 < 0x80 {
            2
        } else if c0 < 0xC0 {
            3
        } else if c0 < 0xE0 {
            4
        } else {
            1
        };
        if i + nb > s.len() {
            Err(Error::TruncatedInput)
        } else {
            let insn = dbpf_insn_at(s, i);
            let i2 = i + nb + insn.append_len;
            let next = if i2 > len {
                len
            } else {
                i2
            };
            match dbpf_scan(s, next, len) {
                Ok(rest) => Ok(seq![insn] + rest),
                Err(e) => Err(e),
            }
        }
    }
}

/// The one instruction whose control byte stands at `i`.
pub open spec fn dbpf_insn_at(s: Seq<u8>, i: int) -> DBPFCompressionInstruction {
    let c0 = s[i];
    if c0 < 0x80 {
        let c1 = s[i + 1];
        DBPFCompressionInstruction {
            append_offset: (i + 2) as usize,
            append_len: (c0 % 4) as usize,
            decoded_copy_offset: ((c0 / 32) % 4 * 32 * 8 + c1 + 1) as usize,
            decoded_copy_len: ((c0 / 4) % 8 + 3) as usize,
        }
    } else if c0 < 0xC0 {
        let c1 = s[i + 1];
        let c2 = s[i + 2];
        DBPFCompressionInstruction {
            append_offset: (i + 3) as usize,
            append_len: ((c1 / 64) % 4) as usize,
            decoded_copy_offset: (c1 % 64 * 0x100 + c2 + 1) as usize,
            decoded_copy_len: (c0 % 64 + 4) as usize,
        }
    } else if c0 < 0xE0 {
        let c1 = s[i + 1];
        let c2 = s[i + 2];
        let c3 = s[i + 3];
        DBPFCompressionInstruction {
            append_offset: (i + 4) as usize,
            append_len: (c0 % 4) as usize,
            decoded_copy_offset: (c1 * 0x100 + c2) as usize,
            decoded_copy_len: ((c0 / 4) % 8 * 4 * 64 + c3 + 5) as usize,
        }
    } else if c0 < 0xFC {
        DBPFCompressionInstruction {
            append_offset: (i + 1) as usize,
            append_len: (c0 % 32 * 4 + 4) as usize,
            decoded_copy_offset: 0,
            decoded_copy_len: 0,
        }
    } else {
        DBPFCompressionInstruction {
            append_offset: (i + 1) as usize,
            append_len: (c0 % 4) as usize,
            decoded_copy_offset: 0,
            decoded_copy_len: 0,
        }
    }
}

/// The whole parsed header and instruction list: a 32-bit little-endian
/// compressed length, the little-endian magic, a 24-bit big-endian
/// uncompressed length, then the instruction stream up to the declared end.
pub open spec fn dbpf_parse(s: Seq<u8>) -> Result<Seq<DBPFCompressionInstruction>, Error> {
    if s.len() < 6 {
        Err(Error::TruncatedInput)
    } else if le_u16_at(s, 4) != DBPF_QFS_COMPRESSION_ID {
        Err(Error::MalformedHeader)
    } else if le_u32_at(s, 0) > s.len() {
        Err(Error::TruncatedInput)
    } else if s.len() < 9 {
        Err(Error::TruncatedInput)
    } else {
        dbpf_scan(s, 9, le_u32_at(s, 0) as int)
    }
}

/// One parsed instruction applied after another to a growing output buffer:
/// first the literal bytes it points at, then its back-reference copy, whose
/// zero-based offset must lie inside the output produced so far.
pub open spec fn dbpf_apply(
    s: Seq<u8>,
    insns: Seq<DBPFCompressionInstruction>,
    k: int,
    out: Seq<u8>,
) -> Result<Seq<u8>, Error>
    decreases insns.len() - k,
{
    if k >= insns.len() {
        Ok(out)
    } else {
        let e = insns[k];
        let out1 = out + s.subrange(e.append_offset as int, e.append_offset + e.append_len);
        if e.decoded_copy_len <= 0 {
            dbpf_apply(s, insns, k + 1, out1)
        } else if e.decoded_copy_offset >= out1.len() {
            Err(
                Error::CopySourceOutOfBounds {
                    have: out1.len() as usize,
                    want: e.decoded_copy_offset,
                },
            )
        } else {
            dbpf_apply(
                s,
                insns,
                k + 1,
                back_copy(out1, e.decoded_copy_offset + 1, e.decoded_copy_len as int),
            )
        }
    }
}

/// The decoded output: the instructions applied in order, then the check
/// against the declared uncompressed length.
pub open spec fn dbpf_uncompress(
    s: Seq<u8>,
    insns: Seq<DBPFCompressionInstruction>,
    want: int,
) -> Result<Seq<u8>, Error> {
    match dbpf_apply(s, insns, 0, Seq::empty()) {
        Ok(out) => if out.len() == want {
            Ok(out)
        } else {
            Err(Error::LengthMismatch { got: out.len() as usize, want: want as usize })
        },
        Err(e) => Err(e),
    }
}

impl DBPFCompression {
    /// Every instruction's literal run lies inside the held data, so the
    /// instruction list can be applied without reading out of bounds.
    pub open spec fn wf(&self) -> bool {
        forall|k: int|
            0 <= k < self.instructions@.len() ==> (#[trigger] self.instructions@[k]).append_offset
                + self.instructions@[k].append_len <= self.data@.len()
    }

    /// Parses the header and collects the instruction list without applying
    /// it. The data is kept alongside for a later `uncompress`.
    pub fn parse(data: &[u8]) -> (r: Result<DBPFCompression, Error>)
        ensures
            (match r {
                Ok(c) => dbpf_parse(data@) == Ok::<Seq<DBPFCompressionInstruction>, Error>(
                    c.instructions@,
                ) && c.data@ == data@ && c.uncompressed_len == be_u24_at(data@, 6),
                Err(e) => dbpf_parse(data@) == Err::<Seq<DBPFCompressionInstruction>, Error>(e),
            }),
    {
        if data.len() < 6 {
            return Err(Error::TruncatedInput);
        }
        let ident = read_u16_le(data, 4);
        if ident != DBPF_QFS_COMPRESSION_ID {
            return Err(Error::MalformedHeader);
        }
        let declared = read_u32_le(data, 0) as usize;
        if declared > data.len() {
            return Err(Error::TruncatedInput);
        }
        if data.len() < 9 {
            return Err(Error::TruncatedInput);
        }
        let uncompressed_len = read_u24_be(data, 6) as usize;

        let mut instructions: Vec<DBPFCompressionInstruction> = Vec::new();
        let mut pos: usize = 9;
        let ghost mut done: Seq<DBPFCompressionInstruction> = Seq::empty();

        loop
            invariant
                9 <= pos,
                pos <= data@.len(),
                declared <= data@.len(),
                declared == le_u32_at(data@, 0),
                data@.len() >= 9,
                le_u16_at(data@, 4) == DBPF_QFS_COMPRESSION_ID,
                instructions@ == done,
                (match dbpf_scan(data@, pos as int, declared as int) {
                    Ok(rest) => dbpf_scan(data@, 9, declared as int) == Ok::<
                        Seq<DBPFCompressionInstruction>,
                        Error,
                    >(done + rest),
                    Err(e) => dbpf_scan(data@, 9, declared as int) == Err::<
                        Seq<DBPFCompressionInstruction>,
                        Error,
                    >(e),
                }),
            ensures
                dbpf_scan(data@, 9, declared as int) == Ok::<
                    Seq<DBPFCompressionInstruction>,
                    Error,
                >(done),
                instructions@ == done,
            decreases declared - pos,
        {
            if pos >= declared {
                proof {
                    assert(done + Seq::<DBPFCompressionInstruction>::empty() =~= done);
                }
                break;
            }
            let c0 = data[pos];
            let nb: usize = if c0 < 0x80 {
                2
            } else if c0 < 0xC0 {
                3
            } else if c0 < 0xE0 {
                4
            } else {
                1
            };
            if data.len() - pos < nb {
                return Err(Error::TruncatedInput);
            }
            let insn: DBPFCompressionInstruction;
            if c0 < 0x80 {
                let c1 = data[pos + 1];
                insn = DBPFCompressionInstruction {
                    append_offset: pos + 2,
                    append_len: (c0 % 4) as usize,
                    decoded_copy_offset: ((c0 / 32) % 4) as usize * 32 * 8 + c1 as usize + 1,
                    decoded_copy_len: ((c0 / 4) % 8) as usize + 3,
                };
            } else if c0 < 0xC0 {
                let c1 = data[pos + 1];
                let c2 = data[pos + 2];
                insn = DBPFCompressionInstruction {
                    append_offset: pos + 3,
                    append_len: ((c1 / 64) % 4) as usize,
                    decoded_copy_offset: (c1 % 64) as usize * 0x100 + c2 as usize + 1,
                    decoded_copy_len: (c0 % 64) as usize + 4,
                };
            } else if c0 < 0xE0 {
                let c1 = data[pos + 1];
                let c2 = data[pos + 2];
                let c3 = data[pos + 3];
                insn = DBPFCompressionInstruction {
                    append_offset: pos + 4,
                    append_len: (c0 % 4) as usize,
                    decoded_copy_offset: c1 as usize * 0x100 + c2 as usize,
                    decoded_copy_len: ((c0 / 4) % 8) as usize * 4 * 64 + c3 as usize + 5,
                };
            } else if c0 < 0xFC {
                insn = DBPFCompressionInstruction {
                    append_offset: pos + 1,
                    append_len: (c0 % 32) as usize * 4 + 4,
                    decoded_copy_offset: 0,
                    decoded_copy_len: 0,
                };
            } else {
                insn = DBPFCompressionInstruction {
                    append_offset: pos + 1,
                    append_len: (c0 % 4) as usize,
                    decoded_copy_offset: 0,
                    decoded_copy_len: 0,
                };
            }
            assert(insn == dbpf_insn_at(data@, pos as int));

            let after = pos + nb;
            let next: usize = if after >= declared {
                declared
            } else if insn.append_len > declared - after {
                declared
            } else {
                after + insn.append_len
            };
            proof {
                let i2 = pos + nb + insn.append_len;
                let model_next: int = if i2 > declared {
                    declared as int
                } else {
                    i2
                };
                assert(dbpf_scan(data@, model_next, declared as int) == dbpf_scan(
                    data@,
                    next as int,
                    declared as int,
                ));
                let old_done = done;
                done = done.push(insn);
                if dbpf_scan(data@, next as int, declared as int) is Ok {
                    let rest2 = dbpf_scan(data@, next as int, declared as int)->Ok_0;
                    assert(old_done + (seq![insn] + rest2) =~= done + rest2);
                }
            }
            instructions.push(insn);
            pos = next;
        }

        Ok(
            DBPFCompression {
                data: vstd::slice::slice_to_vec(data),
                instructions,
                uncompressed_len,
            },
        )
    }

    /// Whether the instruction list can be applied safely; `parse` always
    /// hands back a value for which this holds.
    pub fn well_formed(&self) -> (r: bool)
        ensures
            r == self.wf(),
    {
        let mut k: usize = 0;
        let n = self.instructions.len();
        while k < n
            invariant
                k <= n,
                n == self.instructions@.len(),
                forall|m: int|
                    0 <= m < k ==> (#[trigger] self.instructions@[m]).append_offset
                        + self.instructions@[m].append_len <= self.data@.len(),
            decreases n - k,
        {
            let e = &self.instructions[k];
            if e.append_len > self.data.len() || e.append_offset > self.data.len() - e.append_len {
                return false;
            }
            k += 1;
        }
        true
    }

    /// Applies the parsed instructions in order and checks the result's
    /// length against the declared one. The instruction list must be
    /// well formed (`wf`), as everything `parse` returns is.
    pub fn uncompress(&self) -> (r: Result<Vec<u8>, Error>)
        requires
            self.wf(),
        ensures
            (match r {
                Ok(v) => dbpf_uncompress(
                    self.data@,
                    self.instructions@,
                    self.uncompressed_len as int,
                ) == Ok::<Seq<u8>, Error>(v@),
                Err(e) => dbpf_uncompress(
                    self.data@,
                    self.instructions@,
                    self.uncompressed_len as int,
                ) == Err::<Seq<u8>, Error>(e),
            }),
    {
        let mut out: Vec<u8> = Vec::new();
        let n = self.instructions.len();
        let mut k: usize = 0;
        while k < n
            invariant
                k <= n,
                n == self.instructions@.len(),
                self.wf(),
                dbpf_apply(self.data@, self.instructions@, 0, Seq::empty()) == dbpf_apply(
                    self.data@,
                    self.instructions@,
                    k as int,
                    out@,
                ),
            decreases n - k,
        {
            let e = &self.instructions[k];
            assert(e.append_offset + e.append_len <= self.data@.len());
            let ghost out_before = out@;
            push_range(&mut out, self.data.as_slice(), e.append_offset, e.append_len);

            if e.decoded_copy_len > 0 {
                if e.decoded_copy_offset >= out.len() {
                    return Err(
                        Error::CopySourceOutOfBounds {
                            have: out.len(),
                            want: e.decoded_copy_offset,
                        },
                    );
                }
                let dist = e.decoded_copy_offset + 1;
                let clen = e.decoded_copy_len;
                let ghost out1 = out@;
                let mut c: usize = 0;
                while c < clen
                    invariant
                        c <= clen,
                        1 <= dist <= out@.len(),
                        back_copy(out@, dist as int, (clen - c) as int) == back_copy(
                            out1,
                            dist as int,
                            clen as int,
                        ),
                    decreases clen - c,
                {
                    let b = out[out.len() - dist];
                    out.push(b);
                    c += 1;
                }
            }
            k += 1;
        }

        if out.len() != self.uncompressed_len {
            return Err(Error::LengthMismatch { got: out.len(), want: self.uncompressed_len });
        }
        Ok(out)
    }
}

} // verus!
