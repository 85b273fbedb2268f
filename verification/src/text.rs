use vstd::prelude::*;

verus! {

/// `n` copies of `c`.
pub open spec fn repeat(c: char, n: nat) -> Seq<char> {
    Seq::new(n, |_i: int| c)
}

/// The upper-case hexadecimal digit for `d` (meaningful for `d < 16`).
pub open spec fn hex_char(d: int) -> char {
    if d < 10 {
        (d + 48) as char
    } else {
        (d + 55) as char
    }
}

/// The numeric value of an upper-case hexadecimal digit.
pub open spec fn hex_char_value(c: char) -> int {
    if c as int <= 57 {
        c as int - 48
    } else {
        c as int - 55
    }
}

/// Upper-case hexadecimal digits of `v` without leading zeros, as `{:X}` writes them.
pub open spec fn hex_digits(v: nat) -> Seq<char>
    decreases v,
{
    if v < 16 {
        seq![hex_char(v as int)]
    } else {
        hex_digits(v / 16).push(hex_char((v % 16) as int))
    }
}

/// `{:0w$X}`: the digits of `v`, padded on the left with `'0'` to at least `w` characters.
pub open spec fn hex_padded(v: nat, w: nat) -> Seq<char> {
    let d = hex_digits(v);
    if d.len() < w {
        repeat('0', (w - d.len()) as nat) + d
    } else {
        d
    }
}

/// The value a sequence of hexadecimal digits denotes.
pub open spec fn hex_value(s: Seq<char>) -> int
    decreases s.len(),
{
    if s.len() == 0 {
        0
    } else {
        hex_value(s.drop_last()) * 16 + hex_char_value(s.last())
    }
}

/// Decimal digits of `v` without leading zeros, as `{}` writes them.
pub open spec fn dec_digits(v: nat) -> Seq<char>
    decreases v,
{
    if v < 10 {
        seq![(v + 48) as char]
    } else {
        dec_digits(v / 10).push(((v % 10) + 48) as char)
    }
}

/// The value a sequence of decimal digits denotes.
pub open spec fn dec_value(s: Seq<char>) -> int
    decreases s.len(),
{
    if s.len() == 0 {
        0
    } else {
        dec_value(s.drop_last()) * 10 + (s.last() as int - 48)
    }
}

proof fn lemma_hex_char_value(d: int)
    requires
        0 <= d < 16,
    ensures
        hex_char_value(hex_char(d)) == d,
{
    if d < 10 {
        assert(((d + 48) as char) as int == d + 48);
    } else {
        assert(((d + 55) as char) as int == d + 55);
    }
}

/// Writing a number in hexadecimal and reading the digits back gives the number.
pub proof fn lemma_hex_digits_value(v: nat)
    ensures
        hex_value(hex_digits(v)) == v,
        1 <= hex_digits(v).len(),
    decreases v,
{
    if v >= 16 {
        lemma_hex_digits_value(v / 16);
        assert(hex_digits(v).drop_last() =~= hex_digits(v / 16));
    } else {
        assert(hex_digits(v).drop_last() =~= Seq::<char>::empty());
        assert(hex_value(Seq::<char>::empty()) == 0);
    }
    lemma_hex_char_value((v % 16) as int);
    assert(hex_digits(v).last() == hex_char((v % 16) as int));
    assert(hex_value(hex_digits(v)) == hex_value(hex_digits(v).drop_last()) * 16
        + hex_char_value(hex_digits(v).last()));
}

/// Writing a number in decimal and reading the digits back gives the number.
pub proof fn lemma_dec_digits_value(v: nat)
    ensures
        dec_value(dec_digits(v)) == v,
        1 <= dec_digits(v).len(),
    decreases v,
{
    if v >= 10 {
        lemma_dec_digits_value(v / 10);
        assert(dec_digits(v).drop_last() =~= dec_digits(v / 10));
    } else {
        assert(dec_digits(v).drop_last() =~= Seq::<char>::empty());
        assert(dec_value(Seq::<char>::empty()) == 0);
    }
    let d = (v % 10) as int;
    assert(((d + 48) as char) as int == d + 48);
    assert(dec_digits(v).last() == ((v % 10) + 48) as char);
    assert(dec_value(dec_digits(v)) == dec_value(dec_digits(v).drop_last()) * 10
        + (dec_digits(v).last() as int - 48));
}

/// Appends one character to a string. Trusted: calls `String::push` of std,
/// whose documentation says it appends the given `char` to the end of the
/// string; the contract claims exactly that of the string's characters.
#[verifier::external_body]
pub fn push_char(s: &mut String, c: char)
    ensures
        final(s)@ == old(s)@.push(c),
{
    s.push(c);
}

/// The upper-case hexadecimal digit for `d`.
pub fn hex_char_exec(d: u8) -> (c: char)
    requires
        d < 16,
    ensures
        c == hex_char(d as int),
{
    if d < 10 {
        (d + 48) as char
    } else {
        (d + 55) as char
    }
}

/// Appends `n` copies of `c`.
pub fn push_repeat(s: &mut String, c: char, n: usize)
    ensures
        final(s)@ == old(s)@ + repeat(c, n as nat),
{
    let ghost start = s@;
    let mut i: usize = 0;
    while i < n
        invariant
            i <= n,
            s@ == start + repeat(c, i as nat),
        decreases n - i,
    {
        push_char(s, c);
        i = i + 1;
        assert(s@ =~= start + repeat(c, i as nat));
    }
}

/// Appends the upper-case hexadecimal digits of `v`.
pub fn push_hex(s: &mut String, v: u64)
    ensures
        final(s)@ == old(s)@ + hex_digits(v as nat),
    decreases v,
{
    let ghost start = s@;
    if v >= 16 {
        push_hex(s, v / 16);
    }
    push_char(s, hex_char_exec((v % 16) as u8));
    assert(s@ =~= start + hex_digits(v as nat));
}

/// The number of hexadecimal digits of `v`.
pub fn hex_len(v: u64) -> (n: usize)
    ensures
        n == hex_digits(v as nat).len(),
        1 <= n <= 16,
    decreases v,
{
    proof {
        reveal_with_fuel(pow16, 17);
        assert(pow16(16) == 0x1_0000_0000_0000_0000);
        lemma_hex_len_below(v as nat, 16);
    }
    if v >= 16 {
        hex_len(v / 16) + 1
    } else {
        1
    }
}

/// `16` to the power `k`.
pub open spec fn pow16(k: nat) -> nat
    decreases k,
{
    if k == 0 {
        1
    } else {
        16 * pow16((k - 1) as nat)
    }
}

proof fn lemma_hex_len_below(v: nat, k: nat)
    requires
        v < pow16(k),
    ensures
        k >= 1 ==> hex_digits(v).len() <= k,
    decreases k,
{
    if k >= 1 && v >= 16 {
        assert(k >= 2) by {
            if k == 1 {
                assert(pow16(0) == 1);
            }
        }
        lemma_hex_len_below(v / 16, (k - 1) as nat);
    }
}

/// Appends `v` in hexadecimal, padded with `'0'` to at least `w` digits.
pub fn push_hex_padded(s: &mut String, v: u64, w: usize)
    ensures
        final(s)@ == old(s)@ + hex_padded(v as nat, w as nat),
{
    let ghost start = s@;
    let n = hex_len(v);
    if n < w {
        push_repeat(s, '0', w - n);
    }
    push_hex(s, v);
    assert(s@ =~= start + hex_padded(v as nat, w as nat));
}

/// Appends the decimal digits of `v`.
pub fn push_dec(s: &mut String, v: usize)
    ensures
        final(s)@ == old(s)@ + dec_digits(v as nat),
    decreases v,
{
    let ghost start = s@;
    if v >= 10 {
        push_dec(s, v / 10);
    }
    let d = (v % 10) as u8;
    push_char(s, (d + 48) as char);
    assert(s@ =~= start + dec_digits(v as nat));
}

} // verus!
