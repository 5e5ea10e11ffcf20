//! The indexed record container of the game's data files: a four-byte magic,
//! a table of 20-byte index entries closed by an all-zero-id terminator, and
//! the record bodies the entries point at.
use vstd::prelude::*;

use crate::bytes::{le_u32_at, lemma_seq_add_assoc, lemma_seq_add_empty, push_range, push_u32_le, read_u32_le, u32_le_bytes};
use crate::error::Error;

verus! {

pub const IXF_FILE_RECORD_LENGTH: usize = 20;

/// The fixed magic bytes that open a container.
pub open spec fn ixf_magic() -> Seq<u8> {
    seq![0xD7u8, 0x81u8, 0xC3u8, 0x80u8]
}

#[derive(Debug, PartialEq)]
pub struct IXFFile {
    pub records: Vec<IXFRecord>,
}

#[derive(Debug, PartialEq)]
pub struct IXFRecord {
    pub type_id: u32,
    pub group_id: u32,
    pub instance_id: u32,
    pub body: Vec<u8>,
}

/// The mathematical value of one record: its three ids and its body bytes.
pub struct IXFRecordV {
    pub type_id: u32,
    pub group_id: u32,
    pub instance_id: u32,
    pub body: Seq<u8>,
}

impl View for IXFRecord {
    type V = IXFRecordV;

    open spec fn view(&self) -> IXFRecordV {
        IXFRecordV {
            type_id: self.type_id,
            group_id: self.group_id,
            instance_id: self.instance_id,
            body: self.body@,
        }
    }
}

impl View for IXFFile {
    type V = Seq<IXFRecordV>;

    open spec fn view(&self) -> Seq<IXFRecordV> {
        self.records@.map_values(|r: IXFRecord| r@)
    }
}

/// One index entry as read from disk: five 32-bit little-endian fields.
pub struct IXFEntryV {
    pub type_id: u32,
    pub group_id: u32,
    pub instance_id: u32,
    pub offset: u32,
    pub length: u32,
}

/// The index entry whose 20 bytes start at `i`.
pub open spec fn entry_at(s: Seq<u8>, i: int) -> IXFEntryV {
    IXFEntryV {
        type_id: le_u32_at(s, i),
        group_id: le_u32_at(s, i + 4),
        instance_id: le_u32_at(s, i + 8),
        offset: le_u32_at(s, i + 12),
        length: le_u32_at(s, i + 16),
    }
}

/// An entry is in bounds when its body starts inside the buffer and ends no
/// later than the buffer does.
pub open spec fn entry_ok(s: Seq<u8>, e: IXFEntryV) -> bool {
    e.offset < s.len() && e.offset + e.length <= s.len()
}

/// The record an in-bounds entry denotes: its ids and the body bytes it
/// points at.
pub open spec fn record_of(s: Seq<u8>, e: IXFEntryV) -> IXFRecordV {
    IXFRecordV {
        type_id: e.type_id,
        group_id: e.group_id,
        instance_id: e.instance_id,
        body: s.subrange(e.offset as int, e.offset + e.length),
    }
}

/// The index entries accepted from position `i` onward. An entry whose three
/// id fields are all zero ends the scan and is discarded. An out-of-bounds
/// entry is skipped in lenient mode and is fatal otherwise; a table that runs
/// past the end of the buffer is fatal in either mode.
pub open spec fn ixf_scan(s: Seq<u8>, i: int, lenient: bool) -> Result<Seq<IXFEntryV>, Error>
    decreases s.len() - i,
{
    if i + 12 > s.len() {
        Err(Error::TruncatedInput)
    } else if le_u32_at(s, i) == 0 && le_u32_at(s, i + 4) == 0 && le_u32_at(s, i + 8) == 0 {
        Ok(Seq::empty())
    } else if i + 20 > s.len() {
        Err(Error::TruncatedInput)
    } else {
        let e = entry_at(s, i);
        if !entry_ok(s, e) {
            if lenient {
                ixf_scan(s, i + 20, lenient)
            } else {
                Err(
                    Error::RecordOutOfBounds {
                        offset: e.offset as usize,
                        length: e.length as usize,
                        max: (s.len() - 1) as usize,
                    },
                )
            }
        } else {
            match ixf_scan(s, i + 20, lenient) {
                Ok(rest) => Ok(seq![e] + rest),
                Err(err) => Err(err),
            }
        }
    }
}

/// The accepted entries of a whole container: magic first, then the table.
pub open spec fn ixf_entries(s: Seq<u8>, lenient: bool) -> Result<Seq<IXFEntryV>, Error> {
    if s.len() < 4 {
        Err(Error::TruncatedInput)
    } else if s.subrange(0, 4) != ixf_magic() {
        Err(Error::MalformedHeader)
    } else {
        ixf_scan(s, 4, lenient)
    }
}

/// The records of a whole container, in index order.
pub open spec fn ixf_parse(s: Seq<u8>, lenient: bool) -> Result<Seq<IXFRecordV>, Error> {
    match ixf_entries(s, lenient) {
        Ok(es) => Ok(es.map_values(|e: IXFEntryV| record_of(s, e))),
        Err(e) => Err(e),
    }
}

/// The position where record `k`'s body begins on re-encode: the magic and
/// the index table (terminator included) come first, then the bodies of the
/// earlier records.
pub open spec fn ixf_offset(rs: Seq<IXFRecordV>, k: int) -> int
    decreases k,
{
    if k <= 0 {
        4 + 20 * (rs.len() as int + 1)
    } else {
        ixf_offset(rs, k - 1) + rs[k - 1].body.len()
    }
}

/// The index entry written for record `k`.
pub open spec fn serial_entry(rs: Seq<IXFRecordV>, k: int) -> IXFEntryV {
    IXFEntryV {
        type_id: rs[k].type_id,
        group_id: rs[k].group_id,
        instance_id: rs[k].instance_id,
        offset: (ixf_offset(rs, k) % 0x1_0000_0000) as u32,
        length: (rs[k].body.len() % 0x1_0000_0000) as u32,
    }
}

/// The 20 bytes of one index entry.
pub open spec fn entry_bytes(e: IXFEntryV) -> Seq<u8> {
    u32_le_bytes(e.type_id) + u32_le_bytes(e.group_id) + u32_le_bytes(e.instance_id)
        + u32_le_bytes(e.offset) + u32_le_bytes(e.length)
}

/// The index table from record `k` on.
pub open spec fn ixf_index_bytes(rs: Seq<IXFRecordV>, k: int) -> Seq<u8>
    decreases rs.len() - k,
{
    if k >= rs.len() {
        Seq::empty()
    } else {
        entry_bytes(serial_entry(rs, k)) + ixf_index_bytes(rs, k + 1)
    }
}

/// The concatenated bodies from record `k` on.
pub open spec fn ixf_bodies_bytes(rs: Seq<IXFRecordV>, k: int) -> Seq<u8>
    decreases rs.len() - k,
{
    if k >= rs.len() {
        Seq::empty()
    } else {
        rs[k].body + ixf_bodies_bytes(rs, k + 1)
    }
}

/// The all-zero terminator entry.
pub open spec fn zero_entry_bytes() -> Seq<u8> {
    Seq::new(20, |j: int| 0u8)
}

/// A whole re-encoded container: magic, index table, terminator, bodies.
pub open spec fn ixf_serialize(rs: Seq<IXFRecordV>) -> Seq<u8> {
    ixf_magic() + ixf_index_bytes(rs, 0) + zero_entry_bytes() + ixf_bodies_bytes(rs, 0)
}

impl IXFFile {
    /// Parses a container. In lenient mode (`skip_bad`) an out-of-bounds
    /// index entry is dropped and scanning continues; otherwise it is fatal.
    pub fn parse(data: &[u8], skip_bad: bool) -> (r: Result<IXFFile, Error>)
        ensures
            (match r {
                Ok(f) => ixf_parse(data@, skip_bad) == Ok::<Seq<IXFRecordV>, Error>(f@),
                Err(e) => ixf_parse(data@, skip_bad) == Err::<Seq<IXFRecordV>, Error>(e),
            }),
    {
        if data.len() < 4 {
            return Err(Error::TruncatedInput);
        }
        proof {
            assert(data@.subrange(0, 4)[0] == data@[0]);
            assert(data@.subrange(0, 4)[1] == data@[1]);
            assert(data@.subrange(0, 4)[2] == data@[2]);
            assert(data@.subrange(0, 4)[3] == data@[3]);
        }
        if !(data[0] == 0xD7 && data[1] == 0x81 && data[2] == 0xC3 && data[3] == 0x80) {
            return Err(Error::MalformedHeader);
        }
        assert(data@.subrange(0, 4) =~= ixf_magic());

        let mut pos: usize = 4;
        let mut records: Vec<IXFRecord> = Vec::new();
        let ghost mut done: Seq<IXFEntryV> = Seq::empty();

        loop
            invariant
                4 <= pos <= data@.len(),
                data@.len() >= 4,
                data@.subrange(0, 4) == ixf_magic(),
                records@.len() == done.len(),
                forall|k: int|
                    0 <= k < done.len() ==> records@[k]@ == record_of(data@, done[k]),
                (match ixf_scan(data@, pos as int, skip_bad) {
                    Ok(rest) => ixf_scan(data@, 4, skip_bad) == Ok::<Seq<IXFEntryV>, Error>(
                        done + rest,
                    ),
                    Err(e) => ixf_scan(data@, 4, skip_bad) == Err::<Seq<IXFEntryV>, Error>(e),
                }),
            ensures
                ixf_scan(data@, 4, skip_bad) == Ok::<Seq<IXFEntryV>, Error>(done),
                records@.len() == done.len(),
                forall|k: int|
                    0 <= k < done.len() ==> records@[k]@ == record_of(data@, done[k]),
            decreases data@.len() - pos,
        {
            if data.len() - pos < 12 {
                return Err(Error::TruncatedInput);
            }
            let t = read_u32_le(data, pos);
            let g = read_u32_le(data, pos + 4);
            let n = read_u32_le(data, pos + 8);
            if t == 0 && g == 0 && n == 0 {
                proof {
                    assert(done + Seq::<IXFEntryV>::empty() =~= done);
                }
                break;
            }
            if data.len() - pos < 20 {
                return Err(Error::TruncatedInput);
            }
            let off = read_u32_le(data, pos + 12) as usize;
            let length = read_u32_le(data, pos + 16) as usize;
            let ghost e = entry_at(data@, pos as int);

            if off >= data.len() || length > data.len() - off {
                assert(!entry_ok(data@, e));
                if !skip_bad {
                    return Err(
                        Error::RecordOutOfBounds { offset: off, length, max: data.len() - 1 },
                    );
                }
            } else {
                assert(entry_ok(data@, e));
                let body_slice = vstd::slice::slice_subrange(data, off, off + length);
                let body = vstd::slice::slice_to_vec(body_slice);
                records.push(IXFRecord { type_id: t, group_id: g, instance_id: n, body });
                proof {
                    let old_done = done;
                    done = done.push(e);
                    if ixf_scan(data@, pos + 20, skip_bad) is Ok {
                        let rest2 = ixf_scan(data@, pos + 20, skip_bad)->Ok_0;
                        assert(old_done + (seq![e] + rest2) =~= done + rest2);
                    }
                }
            }
            pos = pos + 20;
        }

        let r = IXFFile { records };
        proof {
            let es = done;
            assert(ixf_entries(data@, skip_bad) == Ok::<Seq<IXFEntryV>, Error>(es));
            assert(r@ =~= es.map_values(|e: IXFEntryV| record_of(data@, e)));
        }
        Ok(r)
    }

    /// Re-encodes the container: magic, one index entry per record with its
    /// running body offset, the all-zero terminator, then the bodies in the
    /// same order. The whole encoding must stay within 32-bit offsets.
    #[verifier::rlimit(100)]
    #[verifier::spinoff_prover]
    pub fn as_vec(&self) -> (r: Result<Vec<u8>, Error>)
        requires
            ixf_offset(self@, self@.len() as int) <= u32::MAX,
        ensures
            r is Ok,
            r->Ok_0@ == ixf_serialize(self@),
    {
        let ghost rs = self@;
        let n = self.records.len();
        proof {
            assert(rs.len() == n);
            lemma_ixf_offset_bounds(rs, 0);
        }
        let mut out: Vec<u8> = Vec::new();
        out.push(0xD7);
        out.push(0x81);
        out.push(0xC3);
        out.push(0x80);
        assert(out@ =~= ixf_magic());

        let mut offset: usize = 4 + 20 * (n + 1);
        let mut k: usize = 0;
        while k < n
            invariant
                k <= n,
                n == rs.len(),
                rs == self@,
                ixf_offset(rs, rs.len() as int) <= u32::MAX,
                offset == ixf_offset(rs, k as int),
                out@ + ixf_index_bytes(rs, k as int) == ixf_magic() + ixf_index_bytes(rs, 0),
            decreases n - k,
        {
            proof {
                lemma_ixf_offset_bounds(rs, k as int);
                lemma_ixf_offset_bounds(rs, k + 1);
            }
            let rec = &self.records[k];
            let ghost out0 = out@;
            push_entry(&mut out, rec.type_id, rec.group_id, rec.instance_id, offset as u32,
                rec.body.len() as u32);
            proof {
                assert(rec@ == rs[k as int]);
                let e = serial_entry(rs, k as int);
                assert(e.offset == offset as u32);
                assert(e.length == rec.body.len() as u32);
                assert(out@ == out0 + entry_bytes(e));
                assert(ixf_index_bytes(rs, k as int) == entry_bytes(e) + ixf_index_bytes(
                    rs,
                    k + 1,
                ));
                lemma_seq_add_assoc(out0, entry_bytes(e), ixf_index_bytes(rs, k + 1));
            }
            offset = offset + rec.body.len();
            k += 1;
        }

        let ghost out_index = out@;
        proof {
            assert(ixf_index_bytes(rs, rs.len() as int) == Seq::<u8>::empty());
            lemma_seq_add_empty(out_index);
            assert(out_index == ixf_magic() + ixf_index_bytes(rs, 0));
        }
        let mut z: usize = 0;
        while z < 20
            invariant
                z <= 20,
                out@ == out_index + Seq::new(z as nat, |j: int| 0u8),
            decreases 20 - z,
        {
            out.push(0);
            z += 1;
            assert(out@ =~= out_index + Seq::new(z as nat, |j: int| 0u8));
        }
        assert(out@ == ixf_magic() + ixf_index_bytes(rs, 0) + zero_entry_bytes());

        let ghost out_head = out@;
        let mut k2: usize = 0;
        while k2 < n
            invariant
                k2 <= n,
                n == rs.len(),
                rs == self@,
                out@ + ixf_bodies_bytes(rs, k2 as int) == out_head + ixf_bodies_bytes(rs, 0),
            decreases n - k2,
        {
            let rec = &self.records[k2];
            let ghost out0 = out@;
            push_range(&mut out, rec.body.as_slice(), 0, rec.body.len());
            proof {
                assert(rec@ == rs[k2 as int]);
                assert(rec.body@.subrange(0, rec.body@.len() as int) =~= rs[k2 as int].body);
                assert(out@ == out0 + rs[k2 as int].body);
                assert(ixf_bodies_bytes(rs, k2 as int) == rs[k2 as int].body + ixf_bodies_bytes(
                    rs,
                    k2 + 1,
                ));
                lemma_seq_add_assoc(out0, rs[k2 as int].body, ixf_bodies_bytes(rs, k2 + 1));
            }
            k2 += 1;
        }
        proof {
            assert(ixf_bodies_bytes(rs, rs.len() as int) == Seq::<u8>::empty());
            lemma_seq_add_empty(out@);
            assert(out@ == out_head + ixf_bodies_bytes(rs, 0));
            assert(out@ == ixf_serialize(rs));
        }
        Ok(out)
    }
}

/// Appends the 20 bytes of one index entry.
fn push_entry(out: &mut Vec<u8>, t: u32, g: u32, inst: u32, off: u32, len: u32)
    ensures
        final(out)@ == old(out)@ + entry_bytes(
            IXFEntryV { type_id: t, group_id: g, instance_id: inst, offset: off, length: len },
        ),
{
    push_u32_le(out, t);
    push_u32_le(out, g);
    push_u32_le(out, inst);
    push_u32_le(out, off);
    push_u32_le(out, len);
    assert(out@ =~= old(out)@ + entry_bytes(
        IXFEntryV { type_id: t, group_id: g, instance_id: inst, offset: off, length: len },
    ));
}

/// Offsets into the encoded container grow with the record index, so every
/// offset lies between the end of the index table and the encoding's end.
pub proof fn lemma_ixf_offset_bounds(rs: Seq<IXFRecordV>, k: int)
    requires
        0 <= k <= rs.len(),
    ensures
        4 + 20 * (rs.len() as int + 1) <= ixf_offset(rs, k) <= ixf_offset(rs, rs.len() as int),
    decreases rs.len() - k,
{
    if k < rs.len() {
        lemma_ixf_offset_bounds(rs, k + 1);
    }
    lemma_ixf_offset_grows(rs, k);
}

/// The running offset never shrinks as records are appended.
proof fn lemma_ixf_offset_grows(rs: Seq<IXFRecordV>, k: int)
    requires
        0 <= k <= rs.len(),
    ensures
        4 + 20 * (rs.len() as int + 1) <= ixf_offset(rs, k),
    decreases k,
{
    if k > 0 {
        lemma_ixf_offset_grows(rs, k - 1);
    }
}

/// The running offset is monotone in the record index.
proof fn lemma_ixf_offset_mono(rs: Seq<IXFRecordV>, k1: int, k2: int)
    requires
        0 <= k1 <= k2 <= rs.len(),
    ensures
        ixf_offset(rs, k1) <= ixf_offset(rs, k2),
    decreases k2 - k1,
{
    if k1 < k2 {
        lemma_ixf_offset_mono(rs, k1, k2 - 1);
    }
}

/// The index table from record `k` on takes 20 bytes per remaining record.
proof fn lemma_index_bytes_len(rs: Seq<IXFRecordV>, k: int)
    requires
        0 <= k <= rs.len(),
    ensures
        ixf_index_bytes(rs, k).len() == 20 * (rs.len() - k),
    decreases rs.len() - k,
{
    if k < rs.len() {
        lemma_index_bytes_len(rs, k + 1);
    }
}

/// The bodies from record `k` on take exactly the space between `k`'s offset
/// and the end of the encoding.
proof fn lemma_bodies_bytes_len(rs: Seq<IXFRecordV>, k: int)
    requires
        0 <= k <= rs.len(),
    ensures
        ixf_bodies_bytes(rs, k).len() == ixf_offset(rs, rs.len() as int) - ixf_offset(rs, k),
    decreases rs.len() - k,
{
    if k < rs.len() {
        lemma_bodies_bytes_len(rs, k + 1);
    }
}

/// A serialized container is exactly as long as the offset past its last body.
proof fn lemma_serialize_len(rs: Seq<IXFRecordV>)
    ensures
        ixf_serialize(rs).len() == ixf_offset(rs, rs.len() as int),
{
    lemma_index_bytes_len(rs, 0);
    lemma_bodies_bytes_len(rs, 0);
}

/// Where each field of one serialized index entry lies in its 20 bytes.
proof fn lemma_entry_bytes_fields(e: IXFEntryV, j: int)
    requires
        0 <= j < 4,
    ensures
        entry_bytes(e)[j] == u32_le_bytes(e.type_id)[j],
        entry_bytes(e)[4 + j] == u32_le_bytes(e.group_id)[j],
        entry_bytes(e)[8 + j] == u32_le_bytes(e.instance_id)[j],
        entry_bytes(e)[12 + j] == u32_le_bytes(e.offset)[j],
        entry_bytes(e)[16 + j] == u32_le_bytes(e.length)[j],
{
    assert(entry_bytes(e)[j] == u32_le_bytes(e.type_id)[j]);
    assert(entry_bytes(e)[4 + j] == u32_le_bytes(e.group_id)[j]);
    assert(entry_bytes(e)[8 + j] == u32_le_bytes(e.instance_id)[j]);
    assert(entry_bytes(e)[12 + j] == u32_le_bytes(e.offset)[j]);
    assert(entry_bytes(e)[16 + j] == u32_le_bytes(e.length)[j]);
}

/// Byte `j` of entry `k` inside the index table region.
proof fn lemma_index_bytes_at(rs: Seq<IXFRecordV>, k0: int, k: int, j: int)
    requires
        0 <= k0 <= k < rs.len(),
        0 <= j < 20,
    ensures
        ixf_index_bytes(rs, k0)[20 * (k - k0) + j] == entry_bytes(serial_entry(rs, k))[j],
    decreases k - k0,
{
    let head = entry_bytes(serial_entry(rs, k0));
    assert(head.len() == 20);
    lemma_index_bytes_len(rs, k0);
    lemma_index_bytes_len(rs, k0 + 1);
    assert(ixf_index_bytes(rs, k0) == head + ixf_index_bytes(rs, k0 + 1));
    if k0 == k {
        assert((head + ixf_index_bytes(rs, k0 + 1))[j] == head[j]);
    } else {
        lemma_index_bytes_at(rs, k0 + 1, k, j);
        assert((head + ixf_index_bytes(rs, k0 + 1))[20 * (k - k0) + j] == ixf_index_bytes(
            rs,
            k0 + 1,
        )[20 * (k - k0) + j - 20]);
    }
}

/// Byte `j` of body `k` inside the bodies region.
proof fn lemma_bodies_bytes_at(rs: Seq<IXFRecordV>, k0: int, k: int, j: int)
    requires
        0 <= k0 <= k < rs.len(),
        0 <= j < rs[k].body.len(),
    ensures
        ixf_bodies_bytes(rs, k0)[ixf_offset(rs, k) - ixf_offset(rs, k0) + j] == rs[k].body[j],
    decreases k - k0,
{
    let head = rs[k0].body;
    lemma_bodies_bytes_len(rs, k0);
    lemma_bodies_bytes_len(rs, k0 + 1);
    assert(ixf_bodies_bytes(rs, k0) == head + ixf_bodies_bytes(rs, k0 + 1));
    if k0 == k {
        assert((head + ixf_bodies_bytes(rs, k0 + 1))[j] == head[j]);
    } else {
        lemma_bodies_bytes_at(rs, k0 + 1, k, j);
        lemma_ixf_offset_mono(rs, k0 + 1, k);
        lemma_ixf_offset_mono(rs, k + 1, rs.len() as int);
        assert(ixf_offset(rs, k + 1) == ixf_offset(rs, k) + rs[k].body.len());
        assert(ixf_offset(rs, k0 + 1) == ixf_offset(rs, k0) + head.len());
        assert((head + ixf_bodies_bytes(rs, k0 + 1))[ixf_offset(rs, k) - ixf_offset(rs, k0) + j]
            == ixf_bodies_bytes(rs, k0 + 1)[ixf_offset(rs, k) - ixf_offset(rs, k0 + 1) + j]);
    }
}

/// Byte `j` of the serialized entry for record `k`, within the whole encoding.
proof fn lemma_entry_region(rs: Seq<IXFRecordV>, k: int, j: int)
    requires
        0 <= k < rs.len(),
        0 <= j < 20,
    ensures
        ixf_serialize(rs)[4 + 20 * k + j] == entry_bytes(serial_entry(rs, k))[j],
{
    let a = ixf_magic();
    let b = ixf_index_bytes(rs, 0);
    let c = zero_entry_bytes();
    let d = ixf_bodies_bytes(rs, 0);
    lemma_index_bytes_len(rs, 0);
    let p = 4 + 20 * k + j;
    assert(p < 4 + 20 * rs.len());
    assert(ixf_serialize(rs)[p] == (a + b + c + d)[p]);
    assert((a + b + c + d)[p] == (a + b + c)[p]);
    assert((a + b + c)[p] == (a + b)[p]);
    assert((a + b)[p] == b[p - 4]);
    lemma_index_bytes_at(rs, 0, k, j);
}

/// Every byte of the terminator entry region is zero.
proof fn lemma_zero_region(rs: Seq<IXFRecordV>, j: int)
    requires
        0 <= j < 20,
    ensures
        ixf_serialize(rs)[4 + 20 * rs.len() + j] == 0,
{
    let a = ixf_magic();
    let b = ixf_index_bytes(rs, 0);
    let c = zero_entry_bytes();
    let d = ixf_bodies_bytes(rs, 0);
    lemma_index_bytes_len(rs, 0);
    let p = 4 + 20 * rs.len() + j;
    assert(ixf_serialize(rs)[p] == (a + b + c + d)[p]);
    assert((a + b + c + d)[p] == (a + b + c)[p]);
    assert((a + b + c)[p] == c[p - (4 + 20 * rs.len())]);
}

/// Byte `j` of record `k`'s body, at its computed offset in the encoding.
proof fn lemma_body_region(rs: Seq<IXFRecordV>, k: int, j: int)
    requires
        0 <= k < rs.len(),
        0 <= j < rs[k].body.len(),
    ensures
        ixf_serialize(rs)[ixf_offset(rs, k) + j] == rs[k].body[j],
{
    let a = ixf_magic();
    let b = ixf_index_bytes(rs, 0);
    let c = zero_entry_bytes();
    let d = ixf_bodies_bytes(rs, 0);
    lemma_index_bytes_len(rs, 0);
    lemma_bodies_bytes_len(rs, 0);
    lemma_ixf_offset_bounds(rs, k);
    lemma_ixf_offset_mono(rs, k + 1, rs.len() as int);
    assert(ixf_offset(rs, k + 1) == ixf_offset(rs, k) + rs[k].body.len());
    let p = ixf_offset(rs, k) + j;
    assert((a + b + c).len() == ixf_offset(rs, 0));
    assert(p >= ixf_offset(rs, 0));
    assert(ixf_serialize(rs)[p] == (a + b + c + d)[p]);
    assert((a + b + c + d)[p] == d[p - ixf_offset(rs, 0)]);
    lemma_bodies_bytes_at(rs, 0, k, j);
}

/// Reading the 32-bit field at `p` gives back the value whose bytes lie there.
proof fn lemma_le_field(s: Seq<u8>, p: int, v: u32)
    requires
        s[p] == u32_le_bytes(v)[0],
        s[p + 1] == u32_le_bytes(v)[1],
        s[p + 2] == u32_le_bytes(v)[2],
        s[p + 3] == u32_le_bytes(v)[3],
    ensures
        le_u32_at(s, p) == v,
{
    crate::bytes::lemma_u32_le_round_trip(v);
}

/// The five fields read back from the serialized entry for record `k`.
proof fn lemma_entry_read_back(rs: Seq<IXFRecordV>, k: int)
    requires
        0 <= k < rs.len(),
    ensures
        entry_at(ixf_serialize(rs), 4 + 20 * k) == serial_entry(rs, k),
{
    let s = ixf_serialize(rs);
    let e = serial_entry(rs, k);
    let i = 4 + 20 * k;
    assert forall|j: int| 0 <= j < 20 implies s[i + j] == entry_bytes(e)[j] by {
        lemma_entry_region(rs, k, j);
    }
    assert forall|j: int|
        0 <= j < 4 implies s[i + j] == u32_le_bytes(e.type_id)[j] && s[i + 4 + j] == u32_le_bytes(
        e.group_id,
    )[j] && s[i + 8 + j] == u32_le_bytes(e.instance_id)[j] && s[i + 12 + j] == u32_le_bytes(
        e.offset,
    )[j] && s[i + 16 + j] == u32_le_bytes(e.length)[j] by {
        lemma_entry_bytes_fields(e, j);
    }
    lemma_le_field(s, i, e.type_id);
    lemma_le_field(s, i + 4, e.group_id);
    lemma_le_field(s, i + 8, e.instance_id);
    lemma_le_field(s, i + 12, e.offset);
    lemma_le_field(s, i + 16, e.length);
}

/// What the index entry written for record `k` holds: the true offset and
/// length (no 32-bit truncation occurs), pointing inside the encoding.
proof fn lemma_serial_entry_props(rs: Seq<IXFRecordV>, k: int)
    requires
        0 <= k < rs.len(),
        rs[rs.len() - 1].body.len() > 0,
        ixf_offset(rs, rs.len() as int) <= u32::MAX,
    ensures
        serial_entry(rs, k).offset == ixf_offset(rs, k),
        serial_entry(rs, k).length == rs[k].body.len(),
        ixf_offset(rs, k) < ixf_offset(rs, rs.len() as int),
        ixf_offset(rs, k) + rs[k].body.len() <= ixf_offset(rs, rs.len() as int),
{
    let n = rs.len() as int;
    lemma_ixf_offset_bounds(rs, k);
    lemma_ixf_offset_bounds(rs, k + 1);
    assert(ixf_offset(rs, k) % 0x1_0000_0000 == ixf_offset(rs, k));
    assert(ixf_offset(rs, k + 1) == ixf_offset(rs, k) + rs[k].body.len());
    assert(rs[k].body.len() % 0x1_0000_0000 == rs[k].body.len());
    lemma_ixf_offset_mono(rs, k + 1, n);
    if k + 1 < n {
        lemma_ixf_offset_mono(rs, k + 1, n - 1);
        assert(ixf_offset(rs, n) == ixf_offset(rs, n - 1) + rs[n - 1].body.len());
    }
}

/// One serialized index entry as the scan meets it: fully inside the
/// buffer, reading back as written, in bounds, and not the terminator.
#[verifier::rlimit(100)]
#[verifier::spinoff_prover]
proof fn lemma_serialized_scan_step(rs: Seq<IXFRecordV>, s: Seq<u8>, k: int)
    requires
        s == ixf_serialize(rs),
        0 <= k < rs.len(),
        forall|m: int|
            0 <= m < rs.len() ==> !(rs[m].type_id == 0 && rs[m].group_id == 0
                && rs[m].instance_id == 0),
        rs[rs.len() - 1].body.len() > 0,
        ixf_offset(rs, rs.len() as int) <= u32::MAX,
    ensures
        s.len() == ixf_offset(rs, rs.len() as int),
        4 + 20 * k + 20 <= s.len(),
        entry_at(s, 4 + 20 * k) == serial_entry(rs, k),
        entry_ok(s, serial_entry(rs, k)),
        !(serial_entry(rs, k).type_id == 0 && serial_entry(rs, k).group_id == 0 && serial_entry(
            rs,
            k,
        ).instance_id == 0),
{
    let n = rs.len() as int;
    lemma_serialize_len(rs);
    lemma_ixf_offset_bounds(rs, 0);
    lemma_ixf_offset_bounds(rs, k);
    lemma_entry_read_back(rs, k);
    lemma_serial_entry_props(rs, k);
}

/// A table whose entries read back in bounds, none the terminator, and whose
/// region after them starts with a zero-id entry, scans to exactly those
/// entries.
proof fn lemma_table_scan(s: Seq<u8>, es: Seq<IXFEntryV>, k: int)
    requires
        0 <= k <= es.len(),
        4 + 20 * es.len() + 12 <= s.len(),
        forall|m: int| k <= m < es.len() ==> #[trigger] entry_at(s, 4 + 20 * m) == es[m],
        forall|m: int|
            k <= m < es.len() ==> #[trigger] entry_ok(s, es[m]) && !(es[m].type_id == 0
                && es[m].group_id == 0 && es[m].instance_id == 0),
        le_u32_at(s, 4 + 20 * es.len() as int) == 0,
        le_u32_at(s, 4 + 20 * es.len() as int + 4) == 0,
        le_u32_at(s, 4 + 20 * es.len() as int + 8) == 0,
    ensures
        ixf_scan(s, 4 + 20 * k, false) == Ok::<Seq<IXFEntryV>, Error>(
            es.subrange(k, es.len() as int),
        ),
    decreases es.len() - k,
{
    let n = es.len() as int;
    let i = 4 + 20 * k;
    if k < n {
        let e = es[k];
        assert(entry_at(s, i) == e);
        assert(le_u32_at(s, i) == e.type_id && le_u32_at(s, i + 4) == e.group_id && le_u32_at(
            s,
            i + 8,
        ) == e.instance_id);
        assert(entry_ok(s, es[k]) && !(es[k].type_id == 0 && es[k].group_id == 0
            && es[k].instance_id == 0));
        lemma_table_scan(s, es, k + 1);
        assert(ixf_scan(s, i, false) == Ok::<Seq<IXFEntryV>, Error>(
            seq![e] + es.subrange(k + 1, n),
        ));
        assert(seq![e] + es.subrange(k + 1, n) =~= es.subrange(k, n));
    } else {
        assert(ixf_scan(s, i, false) == Ok::<Seq<IXFEntryV>, Error>(Seq::empty()));
        assert(es.subrange(k, n) =~= Seq::<IXFEntryV>::empty());
    }
}

/// Round trip of the container codec: serializing a container and parsing it
/// back in strict mode yields the same records, ids, bodies and order. This
/// holds whenever no record carries the all-zero id triple that marks the
/// terminator, the last record's body is not empty (an empty body at the very
/// end would be re-read at the buffer's edge and rejected), and the encoding
/// stays within 32-bit offsets.
#[verifier::rlimit(100)]
#[verifier::spinoff_prover]
pub proof fn lemma_container_round_trip(rs: Seq<IXFRecordV>)
    requires
        forall|m: int|
            0 <= m < rs.len() ==> !(rs[m].type_id == 0 && rs[m].group_id == 0
                && rs[m].instance_id == 0),
        rs.len() > 0 ==> rs[rs.len() - 1].body.len() > 0,
        ixf_offset(rs, rs.len() as int) <= u32::MAX,
    ensures
        ixf_parse(ixf_serialize(rs), false) == Ok::<Seq<IXFRecordV>, Error>(rs),
{
    let s = ixf_serialize(rs);
    let n = rs.len() as int;
    lemma_serialize_len(rs);
    lemma_ixf_offset_bounds(rs, 0);
    let a = ixf_magic();
    let b = ixf_index_bytes(rs, 0);
    let c = zero_entry_bytes();
    let d = ixf_bodies_bytes(rs, 0);
    assert forall|j: int| 0 <= j < 4 implies s[j] == a[j] by {
        assert(s[j] == (a + b + c + d)[j]);
        assert((a + b + c + d)[j] == (a + b + c)[j]);
        assert((a + b + c)[j] == (a + b)[j]);
        assert((a + b)[j] == a[j]);
    }
    assert(s.subrange(0, 4) =~= ixf_magic());

    let es = Seq::new(n as nat, |j: int| serial_entry(rs, j));
    assert forall|m: int| 0 <= m < n implies #[trigger] entry_at(s, 4 + 20 * m) == es[m] by {
        lemma_serialized_scan_step(rs, s, m);
    }
    assert forall|m: int|
        0 <= m < n implies #[trigger] entry_ok(s, es[m]) && !(es[m].type_id == 0 && es[m].group_id
        == 0 && es[m].instance_id == 0) by {
        lemma_serialized_scan_step(rs, s, m);
    }
    lemma_zero_region(rs, 0);
    lemma_zero_region(rs, 1);
    lemma_zero_region(rs, 2);
    lemma_zero_region(rs, 3);
    lemma_zero_region(rs, 4);
    lemma_zero_region(rs, 5);
    lemma_zero_region(rs, 6);
    lemma_zero_region(rs, 7);
    lemma_zero_region(rs, 8);
    lemma_zero_region(rs, 9);
    lemma_zero_region(rs, 10);
    lemma_zero_region(rs, 11);
    lemma_le_field(s, 4 + 20 * n, 0);
    lemma_le_field(s, 4 + 20 * n + 4, 0);
    lemma_le_field(s, 4 + 20 * n + 8, 0);
    lemma_table_scan(s, es, 0);
    assert(ixf_scan(s, 4 + 20 * 0int, false) == ixf_scan(s, 4, false));
    assert(es.subrange(0, n) =~= es);
    assert(ixf_entries(s, false) == Ok::<Seq<IXFEntryV>, Error>(es));

    assert forall|m: int| 0 <= m < n implies record_of(s, es[m]) == rs[m] by {
        let e = serial_entry(rs, m);
        assert(es[m] == e);
        lemma_serial_entry_props(rs, m);
        lemma_ixf_offset_bounds(rs, m);
        let body = s.subrange(ixf_offset(rs, m), ixf_offset(rs, m) + rs[m].body.len());
        assert(body.len() == rs[m].body.len());
        assert forall|j: int| 0 <= j < rs[m].body.len() implies body[j] == rs[m].body[j] by {
            assert(body[j] == s[ixf_offset(rs, m) + j]);
            lemma_body_region(rs, m, j);
        }
        assert(body =~= rs[m].body);
        assert(s.subrange(e.offset as int, e.offset + e.length) == body);
        let rec = record_of(s, e);
        assert(rec.type_id == rs[m].type_id && rec.group_id == rs[m].group_id && rec.instance_id
            == rs[m].instance_id && rec.body == rs[m].body);
    }
    assert(es.map_values(|e: IXFEntryV| record_of(s, e)) =~= rs);
}

/// Bounds invariant: every index entry accepted by a parse lies inside the
/// input buffer — its offset is a valid index, and offset plus length is at
/// most the buffer's length.
pub proof fn lemma_parse_bounds(s: Seq<u8>, lenient: bool)
    requires
        ixf_entries(s, lenient) is Ok,
    ensures
        forall|k: int|
            0 <= k < ixf_entries(s, lenient)->Ok_0.len() ==> entry_ok(
                s,
                ixf_entries(s, lenient)->Ok_0[k],
            ),
{
    lemma_scan_bounds(s, 4, lenient);
}

/// Every entry a scan accepts satisfies the bounds check it was accepted by.
proof fn lemma_scan_bounds(s: Seq<u8>, i: int, lenient: bool)
    requires
        ixf_scan(s, i, lenient) is Ok,
    ensures
        forall|k: int|
            0 <= k < ixf_scan(s, i, lenient)->Ok_0.len() ==> entry_ok(
                s,
                ixf_scan(s, i, lenient)->Ok_0[k],
            ),
    decreases s.len() - i,
{
    if i + 12 > s.len() {
    } else if le_u32_at(s, i) == 0 && le_u32_at(s, i + 4) == 0 && le_u32_at(s, i + 8) == 0 {
    } else if i + 20 > s.len() {
    } else {
        let e = entry_at(s, i);
        if !entry_ok(s, e) {
            if lenient {
                lemma_scan_bounds(s, i + 20, lenient);
            }
        } else {
            lemma_scan_bounds(s, i + 20, lenient);
            let rest = ixf_scan(s, i + 20, lenient)->Ok_0;
            assert forall|k: int| 0 <= k < (seq![e] + rest).len() implies entry_ok(
                s,
                (seq![e] + rest)[k],
            ) by {
                if k == 0 {
                    assert((seq![e] + rest)[0] == e);
                } else {
                    assert((seq![e] + rest)[k] == rest[k - 1]);
                }
            }
        }
    }
}

/// Terminator invariant: wherever the scan meets an index entry whose three
/// id fields are all zero, the scan ends there and accepts nothing further,
/// whatever else the entry or the rest of the table holds.
pub proof fn lemma_terminator_ends_scan(s: Seq<u8>, i: int, lenient: bool)
    requires
        i + 12 <= s.len(),
        le_u32_at(s, i) == 0,
        le_u32_at(s, i + 4) == 0,
        le_u32_at(s, i + 8) == 0,
    ensures
        ixf_scan(s, i, lenient) == Ok::<Seq<IXFEntryV>, Error>(Seq::empty()),
{
}

} // verus!
