use vstd::prelude::*;
use crate::text::{
    repeat, hex_char, hex_digits, hex_padded, push_char, push_repeat, push_hex_padded, hex_len,
    hex_char_exec,
};

verus! {

/// Box-drawing characters of the dump's frame.
pub open spec fn vbar() -> char { '\u{2502}' }
pub open spec fn hbar() -> char { '\u{2500}' }
pub open spec fn cross() -> char { '\u{253C}' }

/// The character shown for a byte in the text column: control characters,
/// `0x7F..=0xA0` and the soft hyphen `0xAD` become `'.'`; every other byte is
/// shown as the Latin-1 character with that code.
pub open spec fn spec_ascii_dot(x: u8) -> char {
    if x <= 0x1F || (0x7F <= x && x <= 0xA0) || x == 0xAD {
        '.'
    } else {
        x as char
    }
}

/// `{:02X} ` for each value in `a..b`.
pub open spec fn col_labels(a: nat, b: nat) -> Seq<char>
    decreases b,
{
    if b <= a {
        Seq::empty()
    } else {
        col_labels(a, (b - 1) as nat) + hex_padded((b - 1) as nat, 2) + seq![' ']
    }
}

/// Width of the address column: the number of hexadecimal digits of `v`.
pub open spec fn width_of(v: nat) -> nat {
    hex_digits(v).len()
}

/// The two header lines: column numbers, then a rule.
pub open spec fn header_text(ptr: nat, length: nat) -> Seq<char> {
    let w = width_of(ptr + length);
    repeat(' ', w) + seq![' '] + col_labels(0, 8) + seq![' '] + col_labels(8, 16) + seq![
        vbar(),
        ' ',
    ] + Seq::new(16, |i: int| hex_char(i)) + seq!['\n'] + repeat(' ', w) + seq![' '] + repeat(
        hbar(),
        24,
    ) + seq![hbar()] + repeat(hbar(), 24) + seq![cross(), hbar()] + repeat(hbar(), 16) + seq![
        '\n',
    ]
}

/// The cell of the hexadecimal column at position `by` (0..16) of a row showing `bytes`.
pub open spec fn raw_cell(bytes: Seq<u8>, by: int) -> Seq<char> {
    (if by >= bytes.len() {
        seq![' ', ' ', ' ']
    } else {
        hex_padded(bytes[by] as nat, 2) + seq![' ']
    }) + (if by == 7 {
        seq![' ']
    } else if by == 15 {
        seq![vbar(), ' ']
    } else {
        Seq::empty()
    })
}

/// The first `k` cells of the hexadecimal column.
pub open spec fn raw_cells(bytes: Seq<u8>, k: nat) -> Seq<char>
    decreases k,
{
    if k == 0 {
        Seq::empty()
    } else {
        raw_cells(bytes, (k - 1) as nat) + raw_cell(bytes, k - 1)
    }
}

/// The text column of a row, ended by a newline.
pub open spec fn pretty_text(bytes: Seq<u8>) -> Seq<char> {
    bytes.map_values(|b: u8| spec_ascii_dot(b)) + seq!['\n']
}

/// Offset of the first byte of row `row`.
pub open spec fn row_start(row: nat) -> nat {
    row * 16
}

/// Number of bytes that row `row` shows.
pub open spec fn row_count_of(length: nat, row: nat) -> nat {
    if length - row_start(row) > 16 {
        16
    } else {
        (length - row_start(row)) as nat
    }
}

/// The bytes that row `row` shows.
pub open spec fn row_bytes(data: Seq<u8>, row: nat) -> Seq<u8> {
    data.subrange(row_start(row) as int, (row_start(row) + row_count_of(data.len(), row)) as int)
}

/// One row: its address padded to the width of `address + length`, the
/// hexadecimal column and the text column.
pub open spec fn row_text(ptr: nat, data: Seq<u8>, row: nat) -> Seq<char> {
    let address = ptr + row_start(row);
    let bytes = row_bytes(data, row);
    hex_padded(address, width_of(address + data.len())) + seq![' '] + raw_cells(bytes, 16)
        + pretty_text(bytes)
}

/// The first `n` rows.
pub open spec fn rows_text(ptr: nat, data: Seq<u8>, n: nat) -> Seq<char>
    decreases n,
{
    if n == 0 {
        Seq::empty()
    } else {
        rows_text(ptr, data, (n - 1) as nat) + row_text(ptr, data, (n - 1) as nat)
    }
}

/// Number of rows of a dump of `length` bytes: sixteen bytes per row, the last one partial.
pub open spec fn row_total(length: nat) -> nat {
    if length % 16 != 0 {
        length / 16 + 1
    } else {
        length / 16
    }
}

/// The whole dump.
pub open spec fn dump_text(ptr: nat, data: Seq<u8>) -> Seq<char> {
    header_text(ptr, data.len()) + rows_text(ptr, data, row_total(data.len()))
}

/// The addresses a dump computes stay within `u64`: the end of the dumped
/// range, and for the last row its address plus the length.
pub open spec fn dump_fits(ptr: nat, length: nat) -> bool {
    &&& ptr + length <= u64::MAX
    &&& length > 0 ==> ptr + row_start((row_total(length) - 1) as nat) + length <= u64::MAX
}

/// The character shown for byte `x` in the text column.
pub fn to_ascii_dots(x: u8) -> (c: char)
    ensures
        c == spec_ascii_dot(x),
{
    if x <= 0x1F || (0x7F <= x && x <= 0xA0) || x == 0xAD {
        '.'
    } else {
        x as char
    }
}

fn push_col_labels(s: &mut String, a: u8, b: u8)
    requires
        a <= b <= 16,
    ensures
        final(s)@ == old(s)@ + col_labels(a as nat, b as nat),
{
    let ghost start = s@;
    let mut x: u8 = a;
    assert(col_labels(a as nat, a as nat) =~= Seq::<char>::empty());
    while x < b
        invariant
            a <= x <= b <= 16,
            s@ == start + col_labels(a as nat, x as nat),
        decreases b - x,
    {
        push_hex_padded(s, x as u64, 2);
        push_char(s, ' ');
        x = x + 1;
        assert(s@ =~= start + col_labels(a as nat, x as nat));
    }
}

/// The two header lines of a dump of `length` bytes starting at `ptr`.
pub fn print_dump_header(ptr: u64, length: usize) -> (out: String)
    requires
        ptr + length <= u64::MAX,
    ensures
        out@ == header_text(ptr as nat, length as nat),
{
    let mut s = String::new();
    let w = hex_len(ptr + length as u64);
    push_repeat(&mut s, ' ', w);
    push_char(&mut s, ' ');
    push_col_labels(&mut s, 0, 8);
    push_char(&mut s, ' ');
    push_col_labels(&mut s, 8, 16);
    push_char(&mut s, '\u{2502}');
    push_char(&mut s, ' ');
    let ghost before = s@;
    let mut x: u8 = 0;
    while x < 16
        invariant
            x <= 16,
            s@ == before + Seq::new(x as nat, |i: int| hex_char(i)),
        decreases 16 - x,
    {
        push_char(&mut s, hex_char_exec(x));
        x = x + 1;
        assert(s@ =~= before + Seq::new(x as nat, |i: int| hex_char(i)));
    }
    push_char(&mut s, '\n');
    push_repeat(&mut s, ' ', w);
    push_char(&mut s, ' ');
    push_repeat(&mut s, '\u{2500}', 24);
    push_char(&mut s, '\u{2500}');
    push_repeat(&mut s, '\u{2500}', 24);
    push_char(&mut s, '\u{253C}');
    push_char(&mut s, '\u{2500}');
    push_repeat(&mut s, '\u{2500}', 16);
    push_char(&mut s, '\n');
    assert(s@ =~= header_text(ptr as nat, length as nat));
    s
}

/// The address column of a row: `address` padded with zeros to the width of
/// `address + length`, then a space.
pub fn print_address(address: u64, length: usize) -> (out: String)
    requires
        address + length <= u64::MAX,
    ensures
        out@ == hex_padded(address as nat, width_of((address + length) as nat)) + seq![' '],
{
    let mut s = String::new();
    let w = hex_len(address + length as u64);
    push_hex_padded(&mut s, address, w);
    push_char(&mut s, ' ');
    assert(s@ =~= hex_padded(address as nat, width_of((address + length) as nat)) + seq![' ']);
    s
}

/// The hexadecimal column of a row showing `bytes`: sixteen cells, the
/// first ones holding the bytes (only the first sixteen of a longer slice are
/// shown) and the rest blank.
pub fn print_raw(bytes: &[u8]) -> (out: String)
    ensures
        out@ == raw_cells(bytes@, 16),
{
    let mut s = String::new();
    let count = bytes.len();
    let mut by: usize = 0;
    assert(s@ =~= raw_cells(bytes@, 0));
    while by < 16
        invariant
            by <= 16,
            count == bytes@.len(),
            s@ == raw_cells(bytes@, by as nat),
        decreases 16 - by,
    {
        let ghost before = s@;
        if by >= count {
            push_char(&mut s, ' ');
            push_char(&mut s, ' ');
            push_char(&mut s, ' ');
        } else {
            push_hex_padded(&mut s, bytes[by] as u64, 2);
            push_char(&mut s, ' ');
        }
        if by == 7 {
            push_char(&mut s, ' ');
        } else if by == 15 {
            push_char(&mut s, '\u{2502}');
            push_char(&mut s, ' ');
        }
        assert(s@ =~= before + raw_cell(bytes@, by as int));
        by = by + 1;
    }
    s
}

/// The text column of a row showing `bytes`, ended by a newline.
pub fn print_pretty(bytes: &[u8]) -> (out: String)
    ensures
        out@ == pretty_text(bytes@),
{
    let mut s = String::new();
    let mut ch: usize = 0;
    while ch < bytes.len()
        invariant
            ch <= bytes@.len(),
            s@ == bytes@.subrange(0, ch as int).map_values(|b: u8| spec_ascii_dot(b)),
        decreases bytes.len() - ch,
    {
        push_char(&mut s, to_ascii_dots(bytes[ch]));
        ch = ch + 1;
        assert(s@ =~= bytes@.subrange(0, ch as int).map_values(|b: u8| spec_ascii_dot(b)));
    }
    push_char(&mut s, '\n');
    assert(bytes@.subrange(0, bytes@.len() as int) =~= bytes@);
    s
}

/// Row `row` of the dump of `data`, which starts at address `ptr`.
pub fn print_row(ptr: u64, data: &[u8], row: usize) -> (out: String)
    requires
        row * 16 <= data.len(),
        ptr + row * 16 + data.len() <= u64::MAX,
    ensures
        out@ == row_text(ptr as nat, data@, row as nat),
{
    let length = data.len();
    let row_address: u64 = ptr + (row * 16) as u64;
    let mut bytes_to_print: usize = length - row * 16;
    if bytes_to_print > 16 {
        bytes_to_print = 16;
    }
    let bytes = vstd::slice::slice_subrange(data, row * 16, row * 16 + bytes_to_print);
    let mut s = print_address(row_address, length);
    let raw = print_raw(bytes);
    let pretty = print_pretty(bytes);
    s.append(raw.as_str());
    s.append(pretty.as_str());
    assert(bytes@ =~= row_bytes(data@, row as nat));
    assert(s@ =~= row_text(ptr as nat, data@, row as nat));
    s
}

/// A hex dump of `data`, which lies at address `ptr`: two header lines, then
/// one line per sixteen bytes with the address, the bytes in hexadecimal and
/// the bytes as text.
pub fn perform(ptr: u64, data: &[u8]) -> (out: String)
    requires
        dump_fits(ptr as nat, data.len() as nat),
    ensures
        out@ == dump_text(ptr as nat, data@),
{
    let length = data.len();
    let mut rows = length / 16;
    if length % 16 != 0 {
        rows = rows + 1;
    }
    let mut s = print_dump_header(ptr, length);
    let mut row: usize = 0;
    assert(rows_text(ptr as nat, data@, 0) =~= Seq::<char>::empty());
    assert(s@ =~= header_text(ptr as nat, length as nat) + rows_text(ptr as nat, data@, 0));
    while row < rows
        invariant
            length == data@.len(),
            rows == row_total(length as nat),
            dump_fits(ptr as nat, length as nat),
            row <= rows,
            s@ == header_text(ptr as nat, length as nat) + rows_text(ptr as nat, data@, row as nat),
        decreases rows - row,
    {
        assert(row * 16 <= row_start((rows - 1) as nat));
        let line = print_row(ptr, data, row);
        s.append(line.as_str());
        row = row + 1;
        assert(s@ =~= header_text(ptr as nat, length as nat) + rows_text(
            ptr as nat,
            data@,
            row as nat,
        ));
    }
    s
}

/// Every byte of the dumped range is shown by exactly one row: byte `i` by
/// row `i / 16`, which exists, at column `i % 16`.
pub proof fn lemma_each_byte_in_one_row(length: nat, i: nat)
    requires
        i < length,
    ensures
        i / 16 < row_total(length),
        row_start(i / 16) <= i < row_start(i / 16) + row_count_of(length, i / 16),
        i - row_start(i / 16) == i % 16,
        forall|r: nat| r < row_total(length) && #[trigger] row_start(r) <= i < row_start(r) + row_count_of(length, r) ==> r == i / 16,
{
    assert forall|r: nat| r < row_total(length) && #[trigger] row_start(r) <= i < row_start(r) + row_count_of(length, r) implies r == i / 16 by {
        assert(row_start(r) <= i < row_start(r) + 16);
    }
}

} // verus!
