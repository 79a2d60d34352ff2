use vstd::prelude::*;

verus! {

/// The upper-case hexadecimal digit for a value below sixteen.
pub open spec fn hex_digit(n: int) -> char {
    if n < 10 {
        (48 + n) as char
    } else {
        (55 + n) as char
    }
}

/// A byte as two upper-case hexadecimal digits (`{:02X}`).
pub open spec fn hex_byte(b: u8) -> Seq<char> {
    seq![hex_digit(b as int / 16), hex_digit(b as int % 16)]
}

/// Bytes written as two-digit hexadecimal numbers joined by `:`.
pub open spec fn hex_joined(bytes: Seq<u8>) -> Seq<char>
    decreases bytes.len(),
{
    if bytes.len() == 0 {
        Seq::empty()
    } else if bytes.len() == 1 {
        hex_byte(bytes[0])
    } else {
        hex_joined(bytes.drop_last()) + seq![':'] + hex_byte(bytes.last())
    }
}

/// The decimal digit of a value below ten.
pub open spec fn decimal_digit(n: int) -> char {
    (48 + n) as char
}

/// A natural number in decimal notation, without leading zeros.
pub open spec fn decimal_nat(n: nat) -> Seq<char>
    decreases n,
{
    if n < 10 {
        seq![decimal_digit(n as int)]
    } else {
        decimal_nat((n / 10) as nat).push(decimal_digit((n % 10) as int))
    }
}

/// An integer in decimal notation, with a leading `-` when negative (`{}`).
pub open spec fn decimal(v: int) -> Seq<char> {
    if v < 0 {
        seq!['-'] + decimal_nat((-v) as nat)
    } else {
        decimal_nat(v as nat)
    }
}

/// Appends one character to a string; calls `String::push`.
#[verifier::external_body]
pub(crate) fn push_char(s: &mut String, c: char)
    ensures
        final(s)@ == old(s)@.push(c),
{
    s.push(c);
}

fn hex_digit_char(n: u8) -> (c: char)
    requires
        n < 16,
    ensures
        c == hex_digit(n as int),
{
    if n < 10 {
        (48 + n) as char
    } else {
        (55 + n) as char
    }
}

/// Appends `{:02X}` of a byte.
pub fn push_hex_byte(s: &mut String, b: u8)
    ensures
        final(s)@ == old(s)@ + hex_byte(b),
{
    push_char(s, hex_digit_char(b / 16));
    push_char(s, hex_digit_char(b % 16));
    assert(s@ =~= old(s)@ + hex_byte(b));
}

/// Appends the decimal notation of a signed byte.
pub fn push_decimal_i8(s: &mut String, v: i8)
    ensures
        final(s)@ == old(s)@ + decimal(v as int),
{
    let ghost start = s@;
    let mut n: u8;
    if v < 0 {
        push_char(s, '-');
        n = if v == -128 { 128u8 } else { (-v) as u8 };
    } else {
        n = v as u8;
    }
    let ghost mid = s@;
    assert(mid == start + (if v < 0 { seq!['-'] } else { Seq::<char>::empty() }));
    assert(n as int == if v < 0 { -(v as int) } else { v as int });
    if n >= 100 {
        push_char(s, (48 + n / 100) as char);
        push_char(s, (48 + (n / 10) % 10) as char);
        push_char(s, (48 + n % 10) as char);
        proof {
            let n0 = n as nat;
            assert((n0 / 10) as nat / 10 == n0 / 100);
            assert(decimal_nat((n0 / 100) as nat) =~= seq![decimal_digit((n0 / 100) as int)]);
            assert(decimal_nat((n0 / 10) as nat) =~= seq![
                decimal_digit((n0 / 100) as int),
                decimal_digit(((n0 / 10) % 10) as int),
            ]);
            assert(decimal_nat(n0) =~= seq![
                decimal_digit((n0 / 100) as int),
                decimal_digit(((n0 / 10) % 10) as int),
                decimal_digit((n0 % 10) as int),
            ]);
            assert(s@ =~= mid + decimal_nat(n0));
        }
    } else if n >= 10 {
        push_char(s, (48 + n / 10) as char);
        push_char(s, (48 + n % 10) as char);
        proof {
            let n0 = n as nat;
            assert(decimal_nat((n0 / 10) as nat) =~= seq![decimal_digit((n0 / 10) as int)]);
            assert(decimal_nat(n0) =~= seq![
                decimal_digit((n0 / 10) as int),
                decimal_digit((n0 % 10) as int),
            ]);
            assert(s@ =~= mid + decimal_nat(n0));
        }
    } else {
        push_char(s, (48 + n) as char);
        assert(s@ =~= mid + decimal_nat(n as nat));
    }
    assert(s@ =~= start + decimal(v as int));
}

/// The number that decimal digits denote.
pub open spec fn digits_value(s: Seq<char>) -> int
    decreases s.len(),
{
    if s.len() == 0 {
        0
    } else {
        digits_value(s.drop_last()) * 10 + (s.last() as int - 48)
    }
}

/// Every character is a decimal digit.
pub open spec fn all_digits(s: Seq<char>) -> bool {
    forall|i: int| 0 <= i < s.len() ==> '0' <= #[trigger] s[i] <= '9'
}

/// The decimal notation of a natural number is a non-empty run of digits, without a leading
/// zero except for zero itself, that denotes the number.
pub proof fn lemma_decimal_nat_denotes(n: nat)
    ensures
        decimal_nat(n).len() > 0,
        all_digits(decimal_nat(n)),
        digits_value(decimal_nat(n)) == n,
        n > 0 ==> decimal_nat(n)[0] != '0',
    decreases n,
{
    if n >= 10 {
        lemma_decimal_nat_denotes((n / 10) as nat);
        let p = decimal_nat((n / 10) as nat);
        let d = decimal_nat(n);
        assert(d == p.push(decimal_digit((n % 10) as int)));
        assert(d.drop_last() =~= p);
        assert(d[0] == p[0]);
        assert(n == (n / 10) * 10 + n % 10);
        assert(decimal_digit((n % 10) as int) as int == 48 + n % 10);
        assert(digits_value(d) == digits_value(p) * 10 + (d.last() as int - 48));
        assert(d.last() as int - 48 == n % 10);
        assert(digits_value(p) == n / 10);
        assert(digits_value(d) == n);
    } else {
        let d = decimal_nat(n);
        assert(d.drop_last() =~= Seq::<char>::empty());
        assert(decimal_digit(n as int) as int == 48 + n);
        assert(digits_value(d.drop_last()) == 0);
        assert(digits_value(d) == n);
    }
}

/// The decimal notation of an integer: a `-` before the notation of its magnitude when it is
/// negative, and the digits read back give the integer.
pub proof fn lemma_decimal_denotes(v: int)
    ensures
        v < 0 ==> decimal(v)[0] == '-' && all_digits(decimal(v).drop_first()) && digits_value(
            decimal(v).drop_first(),
        ) == -v && decimal(v).len() > 1 && decimal(v)[1] != '0',
        v >= 0 ==> all_digits(decimal(v)) && digits_value(decimal(v)) == v && decimal(v).len() > 0
            && (v > 0 ==> decimal(v)[0] != '0'),
{
    if v < 0 {
        lemma_decimal_nat_denotes((-v) as nat);
        assert(decimal(v).drop_first() =~= decimal_nat((-v) as nat));
    } else {
        lemma_decimal_nat_denotes(v as nat);
    }
}

/// The value of an upper-case hexadecimal digit.
pub open spec fn hex_char_value(c: char) -> int {
    if '0' <= c && c <= '9' {
        c as int - 48
    } else {
        c as int - 55
    }
}

/// The character is a digit or one of `A` to `F`.
pub open spec fn is_upper_hex(c: char) -> bool {
    ('0' <= c && c <= '9') || ('A' <= c && c <= 'F')
}

/// A byte is written as two upper-case hexadecimal digits, high nibble first, that read back
/// as the byte.
pub proof fn lemma_hex_byte_denotes(b: u8)
    ensures
        hex_byte(b).len() == 2,
        is_upper_hex(hex_byte(b)[0]),
        is_upper_hex(hex_byte(b)[1]),
        hex_char_value(hex_byte(b)[0]) * 16 + hex_char_value(hex_byte(b)[1]) == b,
{
    let hi = b as int / 16;
    let lo = b as int % 16;
    assert(0 <= hi < 16 && 0 <= lo < 16);
    assert(hex_digit(hi) as int == if hi < 10 { 48 + hi } else { 55 + hi });
    assert(hex_digit(lo) as int == if lo < 10 { 48 + lo } else { 55 + lo });
    assert(hex_char_value(hex_digit(hi)) == hi);
    assert(hex_char_value(hex_digit(lo)) == lo);
}

/// Bytes joined in hexadecimal take three characters each but the last: byte `k` is written at
/// positions `3k` and `3k + 1`, and a `:` stands after every byte but the last.
pub proof fn lemma_hex_joined_layout(bytes: Seq<u8>)
    requires
        bytes.len() > 0,
    ensures
        hex_joined(bytes).len() == 3 * bytes.len() - 1,
        forall|k: int|
            0 <= k < bytes.len() ==> #[trigger] hex_joined(bytes).subrange(3 * k, 3 * k + 2) == hex_byte(
                bytes[k],
            ),
        forall|k: int| 0 <= k < bytes.len() - 1 ==> #[trigger] hex_joined(bytes)[3 * k + 2] == ':',
    decreases bytes.len(),
{
    let h = hex_joined(bytes);
    if bytes.len() == 1 {
        assert(h.subrange(0, 2) =~= hex_byte(bytes[0]));
    } else {
        let p = bytes.drop_last();
        lemma_hex_joined_layout(p);
        let hp = hex_joined(p);
        let n = bytes.len() as int;
        assert(h == hp + seq![':'] + hex_byte(bytes.last()));
        assert(hp.len() == 3 * n - 4);
        assert forall|k: int| 0 <= k < n implies #[trigger] h.subrange(3 * k, 3 * k + 2) == hex_byte(
            bytes[k],
        ) by {
            if k < n - 1 {
                assert(hp.subrange(3 * k, 3 * k + 2) == hex_byte(p[k]));
                assert(h.subrange(3 * k, 3 * k + 2) =~= hp.subrange(3 * k, 3 * k + 2));
            } else {
                assert(h.subrange(3 * k, 3 * k + 2) =~= hex_byte(bytes.last()));
            }
        }
        assert forall|k: int| 0 <= k < n - 1 implies #[trigger] h[3 * k + 2] == ':' by {
            if k < n - 2 {
                assert(hp[3 * k + 2] == ':');
            }
        }
    }
}

} // verus!
