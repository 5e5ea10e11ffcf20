//! The back-reference compression scheme used by the game's data files: a
//! two-byte magic, a 24-bit big-endian uncompressed length, then a stream of
//! control-byte instructions. Each instruction appends a literal run and may
//! replicate bytes from earlier in the output, possibly overlapping itself.
use vstd::prelude::*;

use crate::bytes::{be_u16_at, be_u24_at, read_u16_be, read_u24_be, push_u16_be, push_u24_be, push_range, u16_be_bytes, u24_be_bytes};
use crate::error::Error;

verus! {

pub const REFPACK_COMPRESSION_ID: u16 = 0x10FB;

pub struct RefPackCompression;

/// Appends `n` bytes to `out`, each read `dist` positions back from the
/// current end. Appending one byte at a time lets a distance smaller than `n`
/// replicate the pattern it is producing.
pub open spec fn back_copy(out: Seq<u8>, dist: int, n: int) -> Seq<u8>
    decreases n,
{
    if n <= 0 {
        out
    } else {
        back_copy(out.push(out[out.len() - dist]), dist, n - 1)
    }
}

/// One instruction applied to `out`: the `lit` literal bytes at `j`, then a
/// back-reference copy of `clen` bytes from `dist` positions back (none when
/// `clen == 0`). The literals must lie inside `s`, and the copy must not
/// reach further back than the output produced so far.
pub open spec fn rp_apply(
    s: Seq<u8>,
    j: int,
    out: Seq<u8>,
    lit: int,
    dist: int,
    clen: int,
) -> Result<Seq<u8>, Error> {
    if j + lit > s.len() {
        Err(Error::TruncatedInput)
    } else {
        let out1 = out + s.subrange(j, j + lit);
        if clen <= 0 {
            Ok(out1)
        } else if dist > out1.len() {
            Err(
                Error::CopySourceOutOfBounds {
                    have: out1.len() as usize,
                    want: dist as usize,
                },
            )
        } else {
            Ok(back_copy(out1, dist, clen))
        }
    }
}

/// The instruction stream of `s` from index `i` onward, applied to `out`.
/// Every control byte falls in one of six ranges; the fields of each range
/// are fixed arithmetic on the control byte and its extra bytes. A control
/// byte of `0xFC` or above stops the stream; otherwise it runs until the
/// input is exhausted.
pub open spec fn rp_instructions(s: Seq<u8>, i: int, out: Seq<u8>) -> Result<Seq<u8>, Error>
    decreases s.len() - i,
{
    if i >= s.len() {
        Ok(out)
    } else {
        let c0 = s[i];
        if c0 < 0x80 {
            if i + 2 > s.len() {
                Err(Error::TruncatedInput)
            } else {
                let c1 = s[i + 1];
                let lit = c0 % 4;
                let dist = (c0 / 32) % 4 * 32 * 8 + c1 + 1;
                let clen = (c0 / 4) % 8 + 3;
                match rp_apply(s, i + 2, out, lit as int, dist, clen) {
                    Ok(out2) => rp_instructions(s, i + 2 + lit, out2),
                    Err(e) => Err(e),
                }
            }
        } else if c0 < 0xC0 {
            if i + 3 > s.len() {
                Err(Error::TruncatedInput)
            } else {
                let c1 = s[i + 1];
                let c2 = s[i + 2];
                let lit = (c1 / 64) % 4;
                let dist = c1 % 64 * 0x100 + c2 + 1;
                let clen = c0 % 64 + 4;
                match rp_apply(s, i + 3, out, lit as int, dist, clen) {
                    Ok(out2) => rp_instructions(s, i + 3 + lit, out2),
                    Err(e) => Err(e),
                }
            }
        } else if c0 < 0xD0 {
            if i + 4 > s.len() {
                Err(Error::TruncatedInput)
            } else {
                let c1 = s[i + 1];
                let c2 = s[i + 2];
                let c3 = s[i + 3];
                let lit = c0 % 4;
                let dist = c1 * 0x100 + c2 + 1;
                let clen = (c0 / 4) % 8 * 4 * 64 + c3 + 5;
                match rp_apply(s, i + 4, out, lit as int, dist, clen) {
                    Ok(out2) => rp_instructions(s, i + 4 + lit, out2),
                    Err(e) => Err(e),
                }
            }
        } else if c0 < 0xE0 {
            if i + 4 > s.len() {
                Err(Error::TruncatedInput)
            } else {
                let c1 = s[i + 1];
                let c2 = s[i + 2];
                let c3 = s[i + 3];
                let lit = c0 % 4;
                let dist = (c0 / 16) % 2 * 16 * 4096 + c1 * 0x100 + c2 + 1;
                let clen = (c0 / 4) % 4 * 4 * 64 + c3 + 5;
                match rp_apply(s, i + 4, out, lit as int, dist, clen) {
                    Ok(out2) => rp_instructions(s, i + 4 + lit, out2),
                    Err(e) => Err(e),
                }
            }
        } else if c0 < 0xFC {
            let lit = c0 % 32 * 4 + 4;
            match rp_apply(s, i + 1, out, lit as int, 0, 0) {
                Ok(out2) => rp_instructions(s, i + 1 + lit, out2),
                Err(e) => Err(e),
            }
        } else {
            let lit = c0 % 4;
            rp_apply(s, i + 1, out, lit as int, 0, 0)
        }
    }
}

/// The whole decoded stream: magic, declared length, instructions, and the
/// final check that the output length matches the declared one.
pub open spec fn rp_decode(s: Seq<u8>) -> Result<Seq<u8>, Error> {
    if s.len() < 2 {
        Err(Error::TruncatedInput)
    } else if be_u16_at(s, 0) != REFPACK_COMPRESSION_ID {
        Err(Error::MalformedHeader)
    } else if s.len() < 5 {
        Err(Error::TruncatedInput)
    } else {
        let want = be_u24_at(s, 2) as int;
        match rp_instructions(s, 5, Seq::empty()) {
            Ok(out) => if out.len() == want {
                Ok(out)
            } else {
                Err(Error::LengthMismatch { got: out.len() as usize, want: want as usize })
            },
            Err(e) => Err(e),
        }
    }
}

/// The closing instruction of an encoded stream: a stop control byte
/// carrying the final `b.len() - pos` leftover bytes, at most three.
pub open spec fn rp_tail(b: Seq<u8>, pos: int) -> Seq<u8> {
    seq![(0xFC + (b.len() - pos)) as u8] + b.subrange(pos, b.len() as int)
}

/// The literal-only encoding of `b` from `pos` on: full 112-byte runs while
/// they fit, then one mid-range run covering the largest `4 * n + 4` bytes of
/// the remainder, then the stop instruction with the last bytes.
pub open spec fn rp_encode_body(b: Seq<u8>, pos: int) -> Seq<u8>
    decreases b.len() - pos,
{
    if b.len() - pos >= 112 {
        seq![0xFBu8] + b.subrange(pos, pos + 112) + rp_encode_body(b, pos + 112)
    } else if b.len() - pos >= 4 {
        let bits = (b.len() - pos - 4) / 4;
        seq![(0xE0 + bits) as u8] + b.subrange(pos, pos + bits * 4 + 4) + rp_tail(
            b,
            pos + bits * 4 + 4,
        )
    } else {
        rp_tail(b, pos)
    }
}

/// The whole encoded stream for `b`: magic, 24-bit length, literal runs.
pub open spec fn rp_encode(b: Seq<u8>) -> Seq<u8> {
    u16_be_bytes(REFPACK_COMPRESSION_ID) + u24_be_bytes((b.len() % 0x100_0000) as u32)
        + rp_encode_body(b, 0)
}

/// Appends to `out` the `lit` literal bytes of `data` at `next`, then the
/// back-reference copy of `clen` bytes from `dist` positions back, exactly as
/// `rp_apply` describes.
fn apply_instruction(
    data: &[u8],
    next: usize,
    out: &mut Vec<u8>,
    lit: usize,
    dist: usize,
    clen: usize,
) -> (r: Result<(), Error>)
    requires
        next <= data@.len(),
        clen > 0 ==> dist >= 1,
    ensures
        (match r {
            Ok(()) => rp_apply(
                data@,
                next as int,
                old(out)@,
                lit as int,
                dist as int,
                clen as int,
            ) == Ok::<Seq<u8>, Error>(final(out)@),
            Err(e) => rp_apply(
                data@,
                next as int,
                old(out)@,
                lit as int,
                dist as int,
                clen as int,
            ) == Err::<Seq<u8>, Error>(e),
        }),
{
    if data.len() - next < lit {
        return Err(Error::TruncatedInput);
    }
    let mut j: usize = 0;
    while j < lit
        invariant
            j <= lit,
            next + lit <= data@.len(),
            next + lit <= usize::MAX,
            out@ == old(out)@ + data@.subrange(next as int, next + j),
        decreases lit - j,
    {
        let b = data[next + j];
        out.push(b);
        j += 1;
        assert(out@ =~= old(out)@ + data@.subrange(next as int, next + j));
    }

    if clen > 0 {
        if dist > out.len() {
            return Err(Error::CopySourceOutOfBounds { have: out.len(), want: dist });
        }
        let ghost out1 = out@;
        let mut k: usize = 0;
        while k < clen
            invariant
                k <= clen,
                1 <= dist <= out@.len(),
                back_copy(out@, dist as int, (clen - k) as int) == back_copy(
                    out1,
                    dist as int,
                    clen as int,
                ),
            decreases clen - k,
        {
            let b = out[out.len() - dist];
            out.push(b);
            k += 1;
        }
    }
    Ok(())
}

/// Reads the control byte at `pos` and carries out the one instruction it
/// begins. On success the new cursor and the stop flag come back; the stream
/// from `pos` on `old(out)` equals the stream from the new cursor on the
/// grown output, or ends there when the instruction stops it.
fn step_instruction(data: &[u8], pos: usize, out: &mut Vec<u8>) -> (r: Result<
    (usize, bool),
    Error,
>)
    requires
        pos < data@.len(),
    ensures
        (match r {
            Ok((np, st)) => pos < np <= data@.len() && (if st {
                rp_instructions(data@, pos as int, old(out)@) == Ok::<Seq<u8>, Error>(final(out)@)
            } else {
                rp_instructions(data@, pos as int, old(out)@) == rp_instructions(
                    data@,
                    np as int,
                    final(out)@,
                )
            }),
            Err(e) => rp_instructions(data@, pos as int, old(out)@) == Err::<Seq<u8>, Error>(e),
        }),
{
    let c0 = data[pos];
    let lit: usize;
    let dist: usize;
    let clen: usize;
    let next: usize;
    let mut stop = false;

    if c0 < 0x80 {
        if data.len() - pos < 2 {
            return Err(Error::TruncatedInput);
        }
        let c1 = data[pos + 1] as usize;
        lit = (c0 % 4) as usize;
        dist = ((c0 / 32) % 4) as usize * 32 * 8 + c1 + 1;
        clen = ((c0 / 4) % 8) as usize + 3;
        next = pos + 2;
    } else if c0 < 0xC0 {
        if data.len() - pos < 3 {
            return Err(Error::TruncatedInput);
        }
        let c1 = data[pos + 1];
        let c2 = data[pos + 2] as usize;
        lit = ((c1 / 64) % 4) as usize;
        dist = (c1 % 64) as usize * 0x100 + c2 + 1;
        clen = (c0 % 64) as usize + 4;
        next = pos + 3;
    } else if c0 < 0xD0 {
        if data.len() - pos < 4 {
            return Err(Error::TruncatedInput);
        }
        let c1 = data[pos + 1] as usize;
        let c2 = data[pos + 2] as usize;
        let c3 = data[pos + 3] as usize;
        lit = (c0 % 4) as usize;
        dist = c1 * 0x100 + c2 + 1;
        clen = ((c0 / 4) % 8) as usize * 4 * 64 + c3 + 5;
        next = pos + 4;
    } else if c0 < 0xE0 {
        if data.len() - pos < 4 {
            return Err(Error::TruncatedInput);
        }
        let c1 = data[pos + 1] as usize;
        let c2 = data[pos + 2] as usize;
        let c3 = data[pos + 3] as usize;
        lit = (c0 % 4) as usize;
        dist = ((c0 / 16) % 2) as usize * 16 * 4096 + c1 * 0x100 + c2 + 1;
        clen = ((c0 / 4) % 4) as usize * 4 * 64 + c3 + 5;
        next = pos + 4;
    } else if c0 < 0xFC {
        lit = (c0 % 32) as usize * 4 + 4;
        dist = 0;
        clen = 0;
        next = pos + 1;
    } else {
        lit = (c0 % 4) as usize;
        dist = 0;
        clen = 0;
        next = pos + 1;
        stop = true;
    }

    match apply_instruction(data, next, out, lit, dist, clen) {
        Ok(()) => Ok((next + lit, stop)),
        Err(e) => Err(e),
    }
}

impl RefPackCompression {
    /// Decodes a compressed stream into the uncompressed bytes, or reports
    /// exactly the failure the stream exhibits.
    pub fn uncompress(data: &[u8]) -> (r: Result<Vec<u8>, Error>)
        ensures
            (match r {
                Ok(v) => rp_decode(data@) == Ok::<Seq<u8>, Error>(v@),
                Err(e) => rp_decode(data@) == Err::<Seq<u8>, Error>(e),
            }),
    {
        if data.len() < 2 {
            return Err(Error::TruncatedInput);
        }
        let ident = read_u16_be(data, 0);
        if ident != REFPACK_COMPRESSION_ID {
            return Err(Error::MalformedHeader);
        }
        if data.len() < 5 {
            return Err(Error::TruncatedInput);
        }
        let want = read_u24_be(data, 2) as usize;

        let mut out: Vec<u8> = Vec::new();
        let mut pos: usize = 5;
        let mut stop = false;

        while pos < data.len() && !stop
            invariant
                5 <= pos <= data@.len(),
                be_u16_at(data@, 0) == REFPACK_COMPRESSION_ID,
                (if stop {
                    rp_instructions(data@, 5, Seq::empty()) == Ok::<Seq<u8>, Error>(out@)
                } else {
                    rp_instructions(data@, 5, Seq::empty()) == rp_instructions(
                        data@,
                        pos as int,
                        out@,
                    )
                }),
            decreases data@.len() - pos,
        {
            match step_instruction(data, pos, &mut out) {
                Ok((np, st)) => {
                    pos = np;
                    stop = st;
                },
                Err(e) => {
                    return Err(e);
                },
            }
        }

        if out.len() != want {
            return Err(Error::LengthMismatch { got: out.len(), want });
        }
        Ok(out)
    }

    /// Encodes `data` as a literal-only stream. A correctness baseline: no
    /// back-reference search, so nothing shrinks, but the result decodes to
    /// `data` again (`lemma_compression_round_trip`).
    pub fn compress(data: &[u8]) -> (r: Result<Vec<u8>, Error>)
        requires
            data@.len() < 0x100_0000,
        ensures
            r is Ok,
            r->Ok_0@ == rp_encode(data@),
            rp_decode(r->Ok_0@) == Ok::<Seq<u8>, Error>(data@),
    {
        let mut out: Vec<u8> = Vec::new();
        push_u16_be(&mut out, REFPACK_COMPRESSION_ID);
        push_u24_be(&mut out, data.len() as u32);
        assert(out@ =~= u16_be_bytes(REFPACK_COMPRESSION_ID) + u24_be_bytes(
            (data@.len() % 0x100_0000) as u32,
        ));

        let mut pos: usize = 0;
        while data.len() - pos >= 112
            invariant
                pos <= data@.len(),
                out@ + rp_encode_body(data@, pos as int) == rp_encode(data@),
            decreases data@.len() - pos,
        {
            let ghost out0 = out@;
            out.push(0xFB);
            push_range(&mut out, data, pos, 112);
            proof {
                assert(out@ =~= out0 + (seq![0xFBu8] + data@.subrange(
                    pos as int,
                    pos + 112,
                )));
                assert(out0 + rp_encode_body(data@, pos as int) =~= out@ + rp_encode_body(
                    data@,
                    pos + 112,
                ));
            }
            pos = pos + 112;
        }

        let rem = data.len() - pos;
        if rem >= 4 {
            let bits = (rem - 4) / 4;
            let run = bits * 4 + 4;
            let ghost out0 = out@;
            out.push(0xE0 + bits as u8);
            push_range(&mut out, data, pos, run);
            proof {
                assert(out@ =~= out0 + (seq![(0xE0 + (data@.len() - pos - 4) / 4) as u8]
                    + data@.subrange(pos as int, pos + ((data@.len() - pos - 4) / 4) * 4 + 4)));
            }
            pos = pos + run;
        }

        let tail = data.len() - pos;
        let ghost out1 = out@;
        out.push(0xFC + tail as u8);
        push_range(&mut out, data, pos, tail);
        proof {
            assert(out@ =~= out1 + rp_tail(data@, pos as int));
            assert(out@ =~= rp_encode(data@));
            lemma_compression_round_trip(data@);
        }
        Ok(out)
    }
}

/// The stop instruction of an encoded stream decodes to exactly the bytes it
/// carries, appended to the output so far.
proof fn lemma_rp_tail_decodes(b: Seq<u8>, s: Seq<u8>, i: int, pos: int, out: Seq<u8>)
    requires
        0 <= pos <= b.len(),
        b.len() - pos <= 3,
        0 <= i <= s.len(),
        s.subrange(i, s.len() as int) == rp_tail(b, pos),
    ensures
        rp_instructions(s, i, out) == Ok::<Seq<u8>, Error>(out + b.subrange(pos, b.len() as int)),
{
    let t = b.len() - pos;
    let suffix = s.subrange(i, s.len() as int);
    let tailbytes = b.subrange(pos, b.len() as int);
    assert(suffix.len() == 1 + t);
    assert(s[i] == suffix[0]);
    assert(s[i] == (0xFC + t) as u8);
    let c0 = s[i];
    assert(c0 >= 0xFC);
    assert(c0 % 4 == t);
    assert(i + 1 + t == s.len());
    assert forall|j: int| 0 <= j < t implies s[i + 1 + j] == tailbytes[j] by {
        assert(s[i + 1 + j] == suffix[1 + j]);
    }
    assert(s.subrange(i + 1, i + 1 + t) =~= tailbytes);
    assert(rp_instructions(s, i, out) == rp_apply(s, i + 1, out, t, 0, 0));
    assert(rp_apply(s, i + 1, out, t, 0, 0) == Ok::<Seq<u8>, Error>(out + tailbytes));
}

/// Every literal run the encoder emits decodes back to the bytes it covers.
#[verifier::rlimit(80)]
proof fn lemma_rp_encode_body_decodes(b: Seq<u8>, s: Seq<u8>, i: int, pos: int, out: Seq<u8>)
    requires
        0 <= pos <= b.len(),
        0 <= i <= s.len(),
        s.subrange(i, s.len() as int) == rp_encode_body(b, pos),
    ensures
        rp_instructions(s, i, out) == Ok::<Seq<u8>, Error>(out + b.subrange(pos, b.len() as int)),
    decreases b.len() - pos,
{
    let rem = b.len() - pos;
    let suffix = s.subrange(i, s.len() as int);
    if rem >= 112 {
        let run = b.subrange(pos, pos + 112);
        let rest = rp_encode_body(b, pos + 112);
        assert(suffix == seq![0xFBu8] + run + rest);
        assert(suffix.len() == 113 + rest.len());
        assert(s[i] == suffix[0]);
        assert(s[i] == 0xFB);
        assert(0xFBu8 % 32 * 4 + 4 == 112);
        assert(i + 1 + 112 <= s.len());
        assert forall|j: int| 0 <= j < 112 implies s[i + 1 + j] == run[j] by {
            assert(s[i + 1 + j] == suffix[1 + j]);
            assert(suffix[1 + j] == (seq![0xFBu8] + run)[1 + j]);
        }
        assert(s.subrange(i + 1, i + 113) =~= run);
        let out1 = out + run;
        assert(rp_apply(s, i + 1, out, 112, 0, 0) == Ok::<Seq<u8>, Error>(out1));
        assert forall|j: int| 0 <= j < rest.len() implies s[i + 113 + j] == rest[j] by {
            assert(s[i + 113 + j] == suffix[113 + j]);
        }
        assert(s.subrange(i + 113, s.len() as int) =~= rest);
        lemma_rp_encode_body_decodes(b, s, i + 113, pos + 112, out1);
        assert(out1 + b.subrange(pos + 112, b.len() as int) =~= out + b.subrange(
            pos,
            b.len() as int,
        ));
        assert(rp_instructions(s, i, out) == Ok::<Seq<u8>, Error>(out + b.subrange(
            pos,
            b.len() as int,
        )));
    } else if rem >= 4 {
        let bits = (rem - 4) / 4;
        let run_len = bits * 4 + 4;
        assert(0 <= bits <= 26);
        assert(run_len <= rem);
        let run = b.subrange(pos, pos + run_len);
        let rest = rp_tail(b, pos + run_len);
        assert(suffix == seq![(0xE0 + bits) as u8] + run + rest);
        assert(suffix.len() == 1 + run_len + rest.len());
        assert(s[i] == suffix[0]);
        assert(s[i] == (0xE0 + bits) as u8);
        let c0 = s[i];
        assert(0xE0 <= c0 < 0xFC);
        assert(c0 % 32 == bits);
        assert(c0 % 32 * 4 + 4 == run_len);
        assert(i + 1 + run_len <= s.len());
        assert forall|j: int| 0 <= j < run_len implies s[i + 1 + j] == run[j] by {
            assert(s[i + 1 + j] == suffix[1 + j]);
            assert(suffix[1 + j] == (seq![(0xE0 + bits) as u8] + run)[1 + j]);
        }
        assert(s.subrange(i + 1, i + 1 + run_len) =~= run);
        let out1 = out + run;
        assert(rp_apply(s, i + 1, out, run_len, 0, 0) == Ok::<Seq<u8>, Error>(out1));
        assert forall|j: int| 0 <= j < rest.len() implies s[i + 1 + run_len + j] == rest[j] by {
            assert(s[i + 1 + run_len + j] == suffix[1 + run_len + j]);
        }
        assert(s.subrange(i + 1 + run_len, s.len() as int) =~= rest);
        assert(b.len() - (pos + run_len) <= 3);
        lemma_rp_tail_decodes(b, s, i + 1 + run_len, pos + run_len, out1);
        assert(out1 + b.subrange(pos + run_len, b.len() as int) =~= out + b.subrange(
            pos,
            b.len() as int,
        ));
        assert(rp_instructions(s, i, out) == Ok::<Seq<u8>, Error>(out + b.subrange(
            pos,
            b.len() as int,
        )));
    } else {
        lemma_rp_tail_decodes(b, s, i, pos, out);
    }
}

/// Round trip of the compression codec: decoding an encoded buffer gives the
/// buffer back, for every byte buffer whose length fits the 24-bit header.
#[verifier::rlimit(100)]
#[verifier::spinoff_prover]
pub proof fn lemma_compression_round_trip(b: Seq<u8>)
    requires
        b.len() < 0x100_0000,
    ensures
        rp_decode(rp_encode(b)) == Ok::<Seq<u8>, Error>(b),
{
    let s = rp_encode(b);
    let header = u16_be_bytes(REFPACK_COMPRESSION_ID) + u24_be_bytes(
        (b.len() % 0x100_0000) as u32,
    );
    let body = rp_encode_body(b, 0);
    assert(s == header + body);
    assert(header.len() == 5);
    assert(s.len() >= 5);
    assert(s[0] == header[0] && s[1] == header[1] && s[2] == header[2] && s[3] == header[3] && s[4]
        == header[4]);
    assert(be_u16_at(s, 0) == REFPACK_COMPRESSION_ID);
    crate::bytes::lemma_u24_be_round_trip((b.len() % 0x100_0000) as u32);
    assert(be_u24_at(s, 2) == b.len());
    assert forall|j: int| 0 <= j < body.len() implies s[5 + j] == body[j] by {
        assert(s[5 + j] == (header + body)[5 + j]);
    }
    assert(s.subrange(5, s.len() as int) =~= body);
    lemma_rp_encode_body_decodes(b, s, 5, 0, Seq::empty());
    assert(Seq::empty() + b.subrange(0, b.len() as int) =~= b);
    assert(rp_instructions(s, 5, Seq::empty()) == Ok::<Seq<u8>, Error>(b));
}

/// A back-reference copy at distance one replicates the last output byte:
/// the appended bytes are all equal to the byte the output ended with.
pub proof fn lemma_overlapping_copy(out: Seq<u8>, n: int)
    requires
        out.len() >= 1,
        n >= 0,
    ensures
        back_copy(out, 1, n) == out + Seq::new(n as nat, |k: int| out.last()),
    decreases n,
{
    if n == 0 {
        assert(back_copy(out, 1, 0) =~= out + Seq::new(0, |k: int| out.last()));
    } else {
        let out2 = out.push(out.last());
        assert(back_copy(out, 1, n) == back_copy(out2, 1, n - 1));
        lemma_overlapping_copy(out2, n - 1);
        assert(out2 + Seq::new((n - 1) as nat, |k: int| out2.last()) =~= out + Seq::new(
            n as nat,
            |k: int| out.last(),
        ));
    }
}

} // verus!
