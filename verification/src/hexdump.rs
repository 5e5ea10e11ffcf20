//! A classic hex-dump view of a byte buffer: a column-header line, then one
//! line per 16-byte row with the row's offset, the bytes in hexadecimal, and
//! their printable characters.
use vstd::prelude::*;

use vstd::string::StringExecFns;

verus! {

/// Relies on `String::push`: appends exactly the one character.
#[verifier::external_body]
fn push_char(s: &mut String, c: char)
    ensures
        final(s)@ == old(s)@.push(c),
{
    s.push(c);
}

/// The hexadecimal digit for a value below 16, upper case.
pub open spec fn hex_digit(n: int) -> char {
    if n < 10 {
        ((0x30 + n) as u8) as char
    } else {
        ((0x37 + n) as u8) as char
    }
}

/// The `d` lowest hexadecimal digits of `v`, least significant first.
pub open spec fn hex_rev(v: int, d: int) -> Seq<char>
    decreases d,
{
    if d <= 0 {
        Seq::empty()
    } else {
        seq![hex_digit(v % 16)] + hex_rev(v / 16, d - 1)
    }
}

/// The row offset as 16 hexadecimal digits, most significant first.
pub open spec fn offset_hex(v: int) -> Seq<char> {
    hex_rev(v, 16).reverse()
}

/// The two hexadecimal digits of one byte.
pub open spec fn byte_hex(b: u8) -> Seq<char> {
    seq![hex_digit(b as int / 16), hex_digit(b as int % 16)]
}

/// The byte as a printable character, or a dot for anything unprintable.
pub open spec fn printable(b: u8) -> char {
    if 0x20 <= b <= 0x7e {
        b as char
    } else {
        '.'
    }
}

/// The hexadecimal cells of one row, from the row's byte `j` on: two digits
/// and a space per byte, with one extra space after the eighth cell.
pub open spec fn row_cells(data: Seq<u8>, base: int, cnt: int, j: int) -> Seq<char>
    decreases cnt - j,
{
    if j >= cnt {
        Seq::empty()
    } else {
        byte_hex(data[base + j]) + seq![' '] + (if j == 7 {
            seq![' ']
        } else {
            Seq::empty()
        }) + row_cells(data, base, cnt, j + 1)
    }
}

/// The printable-character column of one row, from the row's byte `j` on.
pub open spec fn row_ascii(data: Seq<u8>, base: int, cnt: int, j: int) -> Seq<char>
    decreases cnt - j,
{
    if j >= cnt {
        Seq::empty()
    } else {
        seq![printable(data[base + j])] + row_ascii(data, base, cnt, j + 1)
    }
}

/// `n` spaces (none when `n` is negative).
pub open spec fn spaces(n: int) -> Seq<char> {
    if n <= 0 {
        Seq::empty()
    } else {
        Seq::new(n as nat, |k: int| ' ')
    }
}

/// One whole dump row: the offset, a space, the hexadecimal cells padded to
/// fifty characters, the printable column, and a newline.
pub open spec fn dump_row(data: Seq<u8>, row: int) -> Seq<char> {
    let base = 16 * row;
    let cnt = if data.len() - base > 16 {
        16int
    } else {
        data.len() - base
    };
    let cells = row_cells(data, base, cnt, 0);
    offset_hex(base) + seq![' '] + cells + spaces(50 - cells.len()) + row_ascii(data, base, cnt, 0)
        + seq!['\n']
}

/// Every dump row from `row` on.
pub open spec fn dump_rows(data: Seq<u8>, row: int) -> Seq<char>
    decreases (data.len() + 15) / 16 - row,
{
    if 16 * row >= data.len() {
        Seq::empty()
    } else {
        dump_row(data, row) + dump_rows(data, row + 1)
    }
}

/// The whole dump: the column-header line, then one line per 16-byte row.
pub open spec fn hex_dump(data: Seq<u8>) -> Seq<char> {
    "                 00 01 02 03 04 05 06 07  08 09 0A 0B 0C 0D 0E 0F\n"@ + dump_rows(data, 0)
}

/// The digit for one value below 16.
fn hex_digit_char(n: u8) -> (r: char)
    requires
        n < 16,
    ensures
        r == hex_digit(n as int),
{
    if n < 10 {
        (0x30 + n) as char
    } else {
        (0x37 + n) as char
    }
}

/// Appends the sixteen-digit hexadecimal offset of one row.
fn push_offset_hex(out: &mut String, v: usize)
    ensures
        final(out)@ == old(out)@ + offset_hex(v as int),
{
    let mut tmp: Vec<char> = Vec::new();
    let mut rest: usize = v;
    let mut d: usize = 0;
    while d < 16
        invariant
            d <= 16,
            tmp@.len() == d,
            hex_rev(v as int, 16) == tmp@ + hex_rev(rest as int, 16 - d),
        decreases 16 - d,
    {
        let ghost tmp0 = tmp@;
        tmp.push(hex_digit_char((rest % 16) as u8));
        rest = rest / 16;
        d += 1;
        proof {
            assert(tmp0 + (seq![tmp@[d - 1]] + hex_rev(rest as int, 16 - d)) =~= tmp@ + hex_rev(
                rest as int,
                16 - d,
            ));
        }
    }
    let mut k: usize = 0;
    while k < 16
        invariant
            k <= 16,
            tmp@.len() == 16,
            tmp@ == hex_rev(v as int, 16),
            out@ == old(out)@ + hex_rev(v as int, 16).reverse().subrange(0, k as int),
        decreases 16 - k,
    {
        let c = tmp[16 - 1 - k];
        push_char(out, c);
        k += 1;
        assert(out@ =~= old(out)@ + hex_rev(v as int, 16).reverse().subrange(0, k as int));
    }
    assert(hex_rev(v as int, 16).reverse().subrange(0, 16) =~= offset_hex(v as int));
}

/// How long one row's hexadecimal cells are: three characters per byte and
/// the one extra space after the eighth cell.
proof fn lemma_row_cells_len(data: Seq<u8>, base: int, cnt: int, j: int)
    requires
        0 <= j <= cnt,
    ensures
        row_cells(data, base, cnt, j).len() == 3 * (cnt - j) + (if j <= 7 && 7 < cnt {
            1int
        } else {
            0
        }),
    decreases cnt - j,
{
    if j < cnt {
        lemma_row_cells_len(data, base, cnt, j + 1);
    }
}

/// Appends one whole dump row for the 16-byte group starting at `base`.
#[verifier::rlimit(100)]
fn push_row(out: &mut String, data: &[u8], base: usize)
    requires
        base % 16 == 0,
        base < data@.len(),
    ensures
        final(out)@ == old(out)@ + dump_row(data@, base as int / 16),
{
    let total = data.len();
    let cnt: usize = if total - base < 16 {
        total - base
    } else {
        16
    };
    let ghost row = base as int / 16;
    assert(16 * row == base);

    push_offset_hex(out, base);
    push_char(out, ' ');
    let ghost head = old(out)@ + offset_hex(base as int) + seq![' '];
    assert(out@ =~= head);

    let mut j: usize = 0;
    while j < cnt
        invariant
            j <= cnt,
            cnt <= 16,
            base + cnt <= data@.len(),
            base + cnt <= usize::MAX,
            out@ + row_cells(data@, base as int, cnt as int, j as int) == head + row_cells(
                data@,
                base as int,
                cnt as int,
                0,
            ),
        decreases cnt - j,
    {
        let b = data[base + j];
        let ghost out0 = out@;
        push_char(out, hex_digit_char(b / 16));
        push_char(out, hex_digit_char(b % 16));
        push_char(out, ' ');
        if j == 7 {
            push_char(out, ' ');
        }
        proof {
            let piece = byte_hex(b) + seq![' '] + (if j == 7 {
                seq![' ']
            } else {
                Seq::<char>::empty()
            });
            assert(out@ =~= out0 + piece);
            assert(row_cells(data@, base as int, cnt as int, j as int) == piece + row_cells(
                data@,
                base as int,
                cnt as int,
                j + 1,
            ));
            crate::bytes::lemma_seq_add_assoc(
                out0,
                piece,
                row_cells(data@, base as int, cnt as int, j + 1),
            );
        }
        j += 1;
    }
    let ghost cells = row_cells(data@, base as int, cnt as int, 0);
    proof {
        crate::bytes::lemma_seq_add_empty(out@);
        assert(out@ == head + cells);
        lemma_row_cells_len(data@, base as int, cnt as int, 0);
    }

    let cells_len: usize = 3 * cnt + (if cnt >= 8 {
        1
    } else {
        0
    });
    assert(cells_len == cells.len());
    let mut p: usize = cells_len;
    while p < 50
        invariant
            cells_len <= p <= 50,
            out@ == head + cells + Seq::new((p - cells_len) as nat, |k: int| ' '),
        decreases 50 - p,
    {
        push_char(out, ' ');
        p += 1;
        assert(out@ =~= head + cells + Seq::new((p - cells_len) as nat, |k: int| ' '));
    }
    proof {
        assert(Seq::new((50 - cells_len) as nat, |k: int| ' ') =~= spaces(50 - cells.len()));
        assert(out@ == head + cells + spaces(50 - cells.len()));
    }
    let ghost mid = head + cells + spaces(50 - cells.len());

    let mut j2: usize = 0;
    while j2 < cnt
        invariant
            j2 <= cnt,
            base + cnt <= data@.len(),
            base + cnt <= usize::MAX,
            out@ + row_ascii(data@, base as int, cnt as int, j2 as int) == mid + row_ascii(
                data@,
                base as int,
                cnt as int,
                0,
            ),
        decreases cnt - j2,
    {
        let b = data[base + j2];
        let c: char = if 0x20 <= b && b <= 0x7e {
            b as char
        } else {
            '.'
        };
        let ghost out0 = out@;
        push_char(out, c);
        proof {
            assert(out@ =~= out0 + seq![printable(data@[base + j2])]);
            crate::bytes::lemma_seq_add_assoc(
                out0,
                seq![printable(data@[base + j2])],
                row_ascii(data@, base as int, cnt as int, j2 + 1),
            );
        }
        j2 += 1;
    }
    proof {
        crate::bytes::lemma_seq_add_empty(out@);
        assert(out@ == mid + row_ascii(data@, base as int, cnt as int, 0));
    }
    push_char(out, '\n');
    proof {
        assert(out@ =~= old(out)@ + dump_row(data@, row));
    }
}

/// The hex-dump text for a byte buffer, sixteen bytes per line, as the
/// `hex_dump` view describes it line by line.
pub fn dump_hex(data: &[u8]) -> (r: String)
    ensures
        r@ == hex_dump(data@),
{
    let mut out = String::new();
    out.append("                 00 01 02 03 04 05 06 07  08 09 0A 0B 0C 0D 0E 0F\n");
    proof {
        assert(out@ =~= "                 00 01 02 03 04 05 06 07  08 09 0A 0B 0C 0D 0E 0F\n"@);
    }

    let total = data.len();
    let mut pos: usize = 0;
    loop
        invariant_except_break
            pos % 16 == 0,
            pos <= total,
            total == data@.len(),
            out@ + dump_rows(data@, pos as int / 16) == hex_dump(data@),
        ensures
            out@ == hex_dump(data@),
        decreases total - pos,
    {
        if pos >= total {
            proof {
                assert(dump_rows(data@, pos as int / 16) == Seq::<char>::empty());
                crate::bytes::lemma_seq_add_empty(out@);
            }
            break;
        }
        let ghost row = pos as int / 16;
        let ghost out0 = out@;
        push_row(&mut out, data, pos);
        proof {
            assert(dump_rows(data@, row) == dump_row(data@, row) + dump_rows(data@, row + 1));
            crate::bytes::lemma_seq_add_assoc(
                out0,
                dump_row(data@, row),
                dump_rows(data@, row + 1),
            );
        }
        if total - pos <= 16 {
            proof {
                assert(16 * (row + 1) >= total);
                assert(dump_rows(data@, row + 1) == Seq::<char>::empty());
                crate::bytes::lemma_seq_add_empty(out@);
            }
            break;
        }
        pos = pos + 16;
    }
    out
}

} // verus!
