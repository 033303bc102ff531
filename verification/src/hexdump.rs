//! The hex and ASCII dump that is shown before a strike and after a read.

use crate::text::{
    digits, join_lines, lemma_join_lines_count, lemma_numeral_single_line, lemma_quotient_smaller,
    lower_hex, newline_count, push_numeral, repeated, single_line, space_padded, zero_padded,
};
use vstd::prelude::*;

verus! {

/// The bytes shown in one row.
pub const ROW_BYTES: usize = 16;

/// The width of the hex field of a full row: sixteen pairs, fifteen single
/// spaces between them, and one more before the ninth pair.
pub const HEX_FIELD_WIDTH: usize = 48;

/// The byte is shown as its own character in the ASCII field.
pub open spec fn printable(byte: u8) -> bool {
    32 <= byte < 127
}

/// What the ASCII field shows for a byte.
pub open spec fn ascii_cell(byte: u8) -> char {
    if printable(byte) {
        byte as char
    } else {
        '.'
    }
}

/// The ASCII field of a row, without its bars.
pub open spec fn ascii_field(chunk: Seq<u8>) -> Seq<char> {
    Seq::new(chunk.len(), |j: int| ascii_cell(chunk[j]))
}

/// A byte as two lower-case hex digits.
pub open spec fn hex_pair(byte: u8) -> Seq<char> {
    zero_padded(lower_hex(byte as nat), 2)
}

/// What stands before the pair at column `j` of a row: nothing before the
/// first, two spaces before the ninth, one space before the others.
pub open spec fn hex_separator(j: int) -> Seq<char> {
    if j == 0 {
        Seq::empty()
    } else if j == 8 {
        seq![' ', ' ']
    } else {
        seq![' ']
    }
}

/// The hex field of a row, before padding.
pub open spec fn hex_field(chunk: Seq<u8>) -> Seq<char>
    decreases chunk.len(),
{
    if chunk.len() == 0 {
        Seq::empty()
    } else {
        hex_field(chunk.drop_last()) + hex_separator(chunk.len() - 1) + hex_pair(chunk.last())
    }
}

/// One row: the offset of its first byte in eight hex digits, two spaces,
/// the hex field padded to its full width, two spaces, and the ASCII field
/// between bars.
pub open spec fn row_text(offset: nat, chunk: Seq<u8>) -> Seq<char> {
    zero_padded(lower_hex(offset), 8) + seq![' ', ' '] + space_padded(
        hex_field(chunk),
        HEX_FIELD_WIDTH as nat,
    ) + seq![' ', ' ', '|'] + ascii_field(chunk) + seq!['|']
}

/// The number of rows of a buffer of `len` bytes: `len / 16`, rounded up.
pub open spec fn row_count(len: nat) -> nat {
    (len + 15) / 16
}

/// Where row `row` ends in a buffer of `len` bytes.
pub open spec fn row_end(len: nat, row: int) -> int {
    if 16 * row + 16 <= len {
        16 * row + 16
    } else {
        len as int
    }
}

/// The bytes of row `row`.
pub open spec fn row_chunk(bytes: Seq<u8>, row: int) -> Seq<u8> {
    bytes.subrange(16 * row, row_end(bytes.len(), row))
}

/// The rows of the dump, first to last.
pub open spec fn hexdump_rows(bytes: Seq<u8>) -> Seq<Seq<char>> {
    Seq::new(row_count(bytes.len()), |row: int| row_text((16 * row) as nat, row_chunk(bytes, row)))
}

/// The dump: its rows joined by newlines. Nothing for an empty buffer.
pub open spec fn hexdump_text(bytes: Seq<u8>) -> Seq<char> {
    join_lines(hexdump_rows(bytes))
}

/// A hex pair has two characters.
pub proof fn lemma_hex_pair_len(byte: u8)
    ensures
        hex_pair(byte).len() == 2,
{
    let n = byte as nat;
    if n >= 16 {
        lemma_quotient_smaller(n, 16);
        assert(n / 16 < 16);
        assert(digits(n / 16, 16).len() == 1);
        assert(digits(n, 16).len() == 2);
    } else {
        assert(digits(n, 16).len() == 1);
    }
}

/// The width of the hex field of a row of `count` bytes.
pub open spec fn hex_field_len(count: nat) -> nat {
    if count == 0 {
        0
    } else if count <= 8 {
        (3 * count - 1) as nat
    } else {
        3 * count
    }
}

/// The hex field of a row is as wide as the number of its bytes says, and
/// that of a full row has the full width.
pub proof fn lemma_hex_field_len(chunk: Seq<u8>)
    ensures
        hex_field(chunk).len() == hex_field_len(chunk.len()),
    decreases chunk.len(),
{
    if chunk.len() > 0 {
        lemma_hex_field_len(chunk.drop_last());
        lemma_hex_pair_len(chunk.last());
    }
}

fn ascii_cell_of(byte: u8) -> (c: char)
    ensures
        c == ascii_cell(byte),
{
    if byte >= 32 && byte < 127 {
        byte as char
    } else {
        '.'
    }
}

/// Appends the row of the bytes from `start` to `end`.
fn push_row(out: &mut String, bytes: &[u8], start: usize, end: usize)
    requires
        start < end <= bytes@.len(),
        end - start <= 16,
    ensures
        final(out)@ == old(out)@ + row_text(
            start as nat,
            bytes@.subrange(start as int, end as int),
        ),
{
    let ghost before = out@;
    let ghost chunk = bytes@.subrange(start as int, end as int);
    push_numeral(out, start, 16, false, 8);
    out.push(' ');
    out.push(' ');
    let ghost head = out@;
    assert(head =~= before + zero_padded(lower_hex(start as nat), 8) + seq![' ', ' ']);
    let count: usize = end - start;
    let mut width: usize = 0;
    let mut j: usize = 0;
    assert(chunk.take(0) =~= Seq::<u8>::empty());
    assert(out@ =~= head + hex_field(chunk.take(0)));
    while j < count
        invariant
            j <= count <= 16,
            count == chunk.len(),
            chunk == bytes@.subrange(start as int, end as int),
            start + count == end <= bytes@.len(),
            width == hex_field(chunk.take(j as int)).len(),
            width == hex_field_len(j as nat),
            out@ == head + hex_field(chunk.take(j as int)),
        decreases count - j,
    {
        let ghost so_far = out@;
        let byte = bytes[start + j];
        assert(byte == chunk[j as int]);
        if j == 8 {
            out.push(' ');
            out.push(' ');
            width = width + 2;
        } else if j > 0 {
            out.push(' ');
            width = width + 1;
        }
        assert(out@ =~= so_far + hex_separator(j as int));
        push_numeral(out, byte as usize, 16, false, 2);
        proof {
            lemma_hex_pair_len(byte);
            assert(chunk.take(j + 1).drop_last() =~= chunk.take(j as int));
            assert(chunk.take(j + 1).last() == byte);
            assert(out@ =~= head + hex_field(chunk.take(j + 1)));
        }
        width = width + 2;
        j = j + 1;
    }
    assert(chunk.take(count as int) =~= chunk);
    let ghost field_end = out@;
    let ghost field = hex_field(chunk);
    while width < HEX_FIELD_WIDTH
        invariant
            field.len() <= width,
            width > field.len() ==> width <= HEX_FIELD_WIDTH,
            out@ == field_end + repeated(' ', width - field.len()),
        decreases HEX_FIELD_WIDTH - width,
    {
        out.push(' ');
        width = width + 1;
        assert(out@ =~= field_end + repeated(' ', width - field.len()));
    }
    assert(out@ =~= head + space_padded(field, HEX_FIELD_WIDTH as nat));
    out.push(' ');
    out.push(' ');
    out.push('|');
    let ghost bar = out@;
    assert(bar =~= head + space_padded(field, HEX_FIELD_WIDTH as nat) + seq![' ', ' ', '|']);
    let mut k: usize = 0;
    while k < count
        invariant
            k <= count,
            count == chunk.len(),
            chunk == bytes@.subrange(start as int, end as int),
            start + count == end <= bytes@.len(),
            out@ == bar + ascii_field(chunk).take(k as int),
        decreases count - k,
    {
        let c = ascii_cell_of(bytes[start + k]);
        out.push(c);
        k = k + 1;
        assert(out@ =~= bar + ascii_field(chunk).take(k as int));
    }
    assert(ascii_field(chunk).take(count as int) =~= ascii_field(chunk));
    out.push('|');
    assert(out@ =~= before + row_text(start as nat, chunk));
}

/// Renders the buffer as rows of sixteen bytes: offset, hex field, ASCII
/// field. The rows are joined by newlines; an empty buffer gives the empty
/// string.
pub fn bytes_to_hexdump(bytes: &[u8]) -> (dump: String)
    ensures
        dump@ == hexdump_text(bytes@),
{
    let ghost rows = hexdump_rows(bytes@);
    let mut dump = String::new();
    let mut row: usize = 0;
    let mut start: usize = 0;
    assert(rows.take(0) =~= Seq::<Seq<char>>::empty());
    while start < bytes.len()
        invariant
            rows == hexdump_rows(bytes@),
            row <= rows.len(),
            start <= bytes@.len(),
            start == if row < rows.len() {
                16 * row
            } else {
                bytes@.len() as int
            },
            dump@ == join_lines(rows.take(row as int)),
        decreases bytes@.len() - start,
    {
        let end: usize = if bytes.len() - start > ROW_BYTES {
            start + ROW_BYTES
        } else {
            bytes.len()
        };
        assert(end == row_end(bytes@.len(), row as int));
        let ghost joined = dump@;
        if row > 0 {
            dump.push('\n');
        }
        push_row(&mut dump, bytes, start, end);
        proof {
            let shown = rows.take(row + 1);
            assert(shown.drop_last() =~= rows.take(row as int));
            assert(shown.last() == row_text(start as nat, row_chunk(bytes@, row as int)));
            if row == 0 {
                assert(joined =~= Seq::<char>::empty());
                assert(dump@ =~= shown.last());
            } else {
                assert(dump@ =~= joined + seq!['\n'] + shown.last());
            }
            assert(dump@ == join_lines(shown));
        }
        row = row + 1;
        start = end;
    }
    assert(rows.take(row as int) =~= rows);
    dump
}

/// The hex field of a row holds no newline.
pub proof fn lemma_hex_field_single_line(chunk: Seq<u8>)
    ensures
        single_line(hex_field(chunk)),
    decreases chunk.len(),
{
    if chunk.len() > 0 {
        lemma_hex_field_single_line(chunk.drop_last());
        lemma_numeral_single_line(chunk.last() as nat, 16, false, 2);
    }
}

/// A row holds no newline.
pub proof fn lemma_row_single_line(offset: nat, chunk: Seq<u8>)
    ensures
        single_line(row_text(offset, chunk)),
{
    lemma_numeral_single_line(offset, 16, false, 8);
    lemma_hex_field_single_line(chunk);
}

/// The padded hex field has the same width in every row, so that the ASCII
/// fields of all rows stand in one column.
pub proof fn lemma_hex_field_aligned(chunk: Seq<u8>)
    requires
        chunk.len() <= ROW_BYTES,
    ensures
        space_padded(hex_field(chunk), HEX_FIELD_WIDTH as nat).len() == HEX_FIELD_WIDTH,
{
    lemma_hex_field_len(chunk);
}

/// The dump has one row for every sixteen bytes, the last of them begun or
/// full: as many rows as `len / 16` rounded up. A dump of at least one byte
/// therefore holds one newline fewer than that, and the dump of an empty
/// buffer is the empty string.
pub proof fn lemma_dump_rows(bytes: Seq<u8>)
    ensures
        hexdump_rows(bytes).len() == row_count(bytes.len()),
        16 * (row_count(bytes.len()) - 1) < bytes.len() <= 16 * row_count(bytes.len()),
        bytes.len() == 0 ==> hexdump_text(bytes) == Seq::<char>::empty(),
        bytes.len() > 0 ==> newline_count(hexdump_text(bytes)) + 1 == row_count(bytes.len()),
{
    let rows = hexdump_rows(bytes);
    assert forall|row: int| 0 <= row < rows.len() implies single_line(#[trigger] rows[row]) by {
        lemma_row_single_line((16 * row) as nat, row_chunk(bytes, row));
    }
    lemma_join_lines_count(rows);
}

/// The dump is a function of the bytes alone: rendering the same buffer
/// again gives the same text.
pub proof fn lemma_dump_repeatable(first: Seq<u8>, second: Seq<u8>)
    requires
        first == second,
    ensures
        hexdump_text(first) == hexdump_text(second),
{
}

/// Every row shows the bytes of its sixteen offsets and no others: the rows'
/// chunks, set one behind the other, are the buffer.
pub proof fn lemma_row_chunks_cover(bytes: Seq<u8>, i: int)
    requires
        0 <= i < bytes.len(),
    ensures
        0 <= i / 16 < row_count(bytes.len()),
        0 <= i % 16 < row_chunk(bytes, i / 16).len(),
        row_chunk(bytes, i / 16)[i % 16] == bytes[i],
{
}

} // verus!
