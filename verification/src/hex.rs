//! Hexadecimal numerals: parsing identifier values from the wire and
//! rendering them back as fixed-width lowercase digit strings.

use vstd::prelude::*;
use vstd::arithmetic::div_mod::lemma_fundamental_div_mod;

verus! {

/// Numeric value of a hexadecimal digit, or -1 for any other character.
/// Both letter cases are accepted on input.
pub open spec fn hex_digit_val(c: char) -> int {
    if '0' <= c && c <= '9' {
        c as int - '0' as int
    } else if 'a' <= c && c <= 'f' {
        10 + c as int - 'a' as int
    } else if 'A' <= c && c <= 'F' {
        10 + c as int - 'A' as int
    } else {
        -1
    }
}

pub open spec fn is_hex_digit(c: char) -> bool {
    hex_digit_val(c) >= 0
}

pub open spec fn all_hex(s: Seq<char>) -> bool {
    forall|i: int| 0 <= i < s.len() ==> is_hex_digit(#[trigger] s[i])
}

/// The number denoted by a string of hexadecimal digits (most significant
/// digit first). Meaningful only when `all_hex` holds of the string.
pub open spec fn hex_val(s: Seq<char>) -> int
    decreases s.len(),
{
    if s.len() == 0 {
        0
    } else {
        hex_val(s.drop_last()) * 16 + hex_digit_val(s.last())
    }
}

/// 16 to the n-th power: the number of distinct n-digit hexadecimal strings.
pub open spec fn pow16(n: nat) -> int
    decreases n,
{
    if n == 0 {
        1
    } else {
        16 * pow16((n - 1) as nat)
    }
}

/// The lowercase digit character for a value below 16.
pub open spec fn hex_char_of(d: int) -> char {
    if d == 0 { '0' } else if d == 1 { '1' } else if d == 2 { '2' } else if d == 3 { '3' }
    else if d == 4 { '4' } else if d == 5 { '5' } else if d == 6 { '6' } else if d == 7 { '7' }
    else if d == 8 { '8' } else if d == 9 { '9' } else if d == 10 { 'a' } else if d == 11 { 'b' }
    else if d == 12 { 'c' } else if d == 13 { 'd' } else if d == 14 { 'e' } else { 'f' }
}

/// `v` rendered as exactly `n` lowercase hexadecimal digits (the low `n`
/// digits of `v`, most significant first).
pub open spec fn render_hex(v: int, n: nat) -> Seq<char>
    decreases n,
{
    if n == 0 {
        Seq::empty()
    } else {
        render_hex(v / 16, (n - 1) as nat).push(hex_char_of(v % 16))
    }
}

/// What parsing a whole hexadecimal numeral yields: the denoted value, if the
/// string is non-empty, all digits, and the value fits in 128 bits.
pub open spec fn parse_hex_u128_spec(s: Seq<char>) -> Option<u128> {
    if s.len() > 0 && all_hex(s) && hex_val(s) <= u128::MAX {
        Some(hex_val(s) as u128)
    } else {
        None
    }
}

pub proof fn lemma_hex_val_nonneg(s: Seq<char>)
    requires
        all_hex(s),
    ensures
        hex_val(s) >= 0,
    decreases s.len(),
{
    if s.len() > 0 {
        assert(all_hex(s.drop_last()));
        lemma_hex_val_nonneg(s.drop_last());
    }
}

pub proof fn lemma_hex_val_bound(s: Seq<char>)
    requires
        all_hex(s),
    ensures
        0 <= hex_val(s) < pow16(s.len()),
    decreases s.len(),
{
    if s.len() > 0 {
        assert(all_hex(s.drop_last()));
        lemma_hex_val_bound(s.drop_last());
        assert(hex_digit_val(s.last()) <= 15);
        assert(hex_val(s.drop_last()) * 16 <= (pow16((s.len() - 1) as nat) - 1) * 16)
            by (nonlinear_arith)
            requires
                hex_val(s.drop_last()) <= pow16((s.len() - 1) as nat) - 1,
        ;
    }
}

pub proof fn lemma_pow16_val()
    ensures
        pow16(16) == 0x1_0000_0000_0000_0000,
        pow16(24) == 0x1_0000_0000_0000_0000_0000_0000,
        pow16(32) == 0x1_0000_0000_0000_0000_0000_0000_0000_0000,
{
    reveal_with_fuel(pow16, 33);
}

/// Appending digits: the value of `a + b` combines the values positionally.
pub proof fn lemma_hex_val_append(a: Seq<char>, b: Seq<char>)
    ensures
        hex_val(a + b) == hex_val(a) * pow16(b.len()) + hex_val(b),
    decreases b.len(),
{
    if b.len() == 0 {
        assert(a + b =~= a);
    } else {
        let b0 = b.drop_last();
        lemma_hex_val_append(a, b0);
        assert((a + b).drop_last() =~= a + b0);
        assert((a + b).last() == b.last());
        assert((hex_val(a) * pow16(b0.len()) + hex_val(b0)) * 16 + hex_digit_val(b.last())
            == hex_val(a) * (16 * pow16(b0.len())) + (hex_val(b0) * 16 + hex_digit_val(b.last())))
            by (nonlinear_arith);
    }
}

pub proof fn lemma_hex_digit_of_char(d: int)
    requires
        0 <= d < 16,
    ensures
        hex_digit_val(hex_char_of(d)) == d,
        '0' <= hex_char_of(d) && hex_char_of(d) <= '9' || 'a' <= hex_char_of(d) && hex_char_of(d)
            <= 'f',
{
}

/// Rendering then parsing is the identity on values that fit in `n` digits.
pub proof fn lemma_render_hex_inverse(v: int, n: nat)
    requires
        0 <= v < pow16(n),
    ensures
        render_hex(v, n).len() == n,
        all_hex(render_hex(v, n)),
        hex_val(render_hex(v, n)) == v,
    decreases n,
{
    if n == 0 {
        assert(render_hex(v, n) =~= Seq::<char>::empty());
    } else {
        lemma_fundamental_div_mod(v, 16);
        assert(v / 16 < pow16((n - 1) as nat)) by (nonlinear_arith)
            requires
                v < 16 * pow16((n - 1) as nat),
                v >= 0,
                16 * (v / 16) + v % 16 == v,
                0 <= v % 16 < 16,
        ;
        lemma_render_hex_inverse(v / 16, (n - 1) as nat);
        lemma_hex_digit_of_char(v % 16);
        let r = render_hex(v, n);
        let r0 = render_hex(v / 16, (n - 1) as nat);
        assert(r.drop_last() =~= r0);
        assert(r.last() == hex_char_of(v % 16));
        assert(forall|i: int| 0 <= i < r.len() ==> is_hex_digit(#[trigger] r[i])) by {
            assert(forall|i: int| 0 <= i < r0.len() ==> r[i] == #[trigger] r0[i]);
        }
    }
}

/// Every character of a rendering is a lowercase hexadecimal digit; in
/// particular none is `'-'`, `';'` or `'='`.
pub proof fn lemma_render_hex_chars(v: int, n: nat)
    ensures
        render_hex(v, n).len() == n,
        forall|i: int|
            0 <= i < n ==> ('0' <= #[trigger] render_hex(v, n)[i] && render_hex(v, n)[i] <= '9'
                || 'a' <= render_hex(v, n)[i] && render_hex(v, n)[i] <= 'f'),
    decreases n,
{
    if n > 0 {
        lemma_fundamental_div_mod(v, 16);
        lemma_render_hex_chars(v / 16, (n - 1) as nat);
        let r = render_hex(v, n);
        let r0 = render_hex(v / 16, (n - 1) as nat);
        assert(r.last() == hex_char_of(v % 16));
        lemma_hex_digit_of_char(v % 16);
        assert(forall|i: int| 0 <= i < n - 1 ==> r[i] == #[trigger] r0[i]);
    }
}

/// The lowercase digit character for a value below 16.
pub fn hex_char_of_exec(d: u8) -> (r: char)
    requires
        d < 16,
    ensures
        r == hex_char_of(d as int),
{
    match d {
        0 => '0',
        1 => '1',
        2 => '2',
        3 => '3',
        4 => '4',
        5 => '5',
        6 => '6',
        7 => '7',
        8 => '8',
        9 => '9',
        10 => 'a',
        11 => 'b',
        12 => 'c',
        13 => 'd',
        14 => 'e',
        _ => 'f',
    }
}

/// Renders the low `n` hexadecimal digits of `v`, most significant first.
pub fn render_hex_u128(v: u128, n: usize) -> (r: String)
    ensures
        r@ == render_hex(v as int, n as nat),
    decreases n,
{
    if n == 0 {
        let r = String::new();
        proof {
            assert(r@ =~= render_hex(v as int, 0));
        }
        r
    } else {
        let mut r = render_hex_u128(v / 16, n - 1);
        let d = (v % 16) as u8;
        let c = hex_char_of_exec(d);
        crate::ascii::push_char(&mut r, c);
        proof {
            assert((v / 16) as int == v as int / 16);
            assert(d as int == v as int % 16);
        }
        r
    }
}

/// Tests whether a character is a hexadecimal digit and returns its value.
pub fn hex_digit_of(c: char) -> (r: Option<u8>)
    ensures
        r is Some <==> is_hex_digit(c),
        r is Some ==> r->0 as int == hex_digit_val(c),
{
    if '0' <= c && c <= '9' {
        Some(((c as u32) - ('0' as u32)) as u8)
    } else if 'a' <= c && c <= 'f' {
        Some((10 + (c as u32) - ('a' as u32)) as u8)
    } else if 'A' <= c && c <= 'F' {
        Some((10 + (c as u32) - ('A' as u32)) as u8)
    } else {
        None
    }
}

/// Parses a whole string as a 128-bit hexadecimal numeral. Yields the value
/// exactly when the string is non-empty, contains only hexadecimal digits
/// (either letter case), and the value fits in 128 bits.
pub fn parse_hex_u128(s: &str) -> (r: Option<u128>)
    ensures
        r == parse_hex_u128_spec(s@),
{
    let n = s.unicode_len();
    if n == 0 {
        return None;
    }
    let mut acc: u128 = 0;
    let mut i: usize = 0;
    while i < n
        invariant
            n == s@.len(),
            0 < n,
            i <= n,
            all_hex(s@.subrange(0, i as int)),
            acc == hex_val(s@.subrange(0, i as int)),
        decreases n - i,
    {
        let c = s.get_char(i);
        let ghost pre = s@.subrange(0, i as int);
        match hex_digit_of(c) {
            None => {
                assert(!is_hex_digit(s@[i as int]));
                assert(!all_hex(s@));
                return None;
            },
            Some(d) => {
                if acc > (u128::MAX - d as u128) / 16 {
                    // The numeral already exceeds 128 bits; further digits
                    // only grow it.
                    proof {
                        lemma_fundamental_div_mod((u128::MAX - d) as int, 16);
                        assert(acc * 16 + d > u128::MAX) by (nonlinear_arith)
                            requires
                                acc > ((u128::MAX - d) as int) / 16,
                                16 * (((u128::MAX - d) as int) / 16) + ((u128::MAX - d) as int)
                                    % 16 == u128::MAX - d,
                                0 <= ((u128::MAX - d) as int) % 16 < 16,
                        ;
                        let whole = s@;
                        let rest = whole.subrange(i + 1, n as int);
                        assert(whole =~= pre.push(whole[i as int]) + rest);
                        if all_hex(whole) {
                            lemma_hex_val_append(pre.push(whole[i as int]), rest);
                            assert(all_hex(rest)) by {
                                assert(forall|j: int|
                                    0 <= j < rest.len() ==> #[trigger] rest[j] == whole[i + 1 + j]);
                            }
                            lemma_hex_val_bound(rest);
                            assert(hex_val(pre.push(whole[i as int])) == acc * 16 + d) by {
                                assert(pre.push(whole[i as int]).drop_last() =~= pre);
                            }
                            assert(pow16(rest.len()) >= 1) by {
                                lemma_hex_val_bound(rest);
                            }
                            assert(hex_val(whole) >= acc * 16 + d) by (nonlinear_arith)
                                requires
                                    hex_val(whole) == (acc * 16 + d) * pow16(rest.len()) + hex_val(
                                        rest,
                                    ),
                                    pow16(rest.len()) >= 1,
                                    hex_val(rest) >= 0,
                                    acc * 16 + d >= 0,
                            ;
                        }
                    }
                    return None;
                }
                proof {
                    lemma_fundamental_div_mod((u128::MAX - d) as int, 16);
                    assert(acc * 16 + d <= u128::MAX) by (nonlinear_arith)
                        requires
                            acc <= ((u128::MAX - d) as int) / 16,
                            acc >= 0,
                            16 * (((u128::MAX - d) as int) / 16) + ((u128::MAX - d) as int) % 16
                                == u128::MAX - d,
                            0 <= ((u128::MAX - d) as int) % 16,
                    ;
                }
                acc = acc * 16 + d as u128;
                i = i + 1;
                proof {
                    let now = s@.subrange(0, i as int);
                    assert(now =~= pre.push(s@[i - 1]));
                    assert(now.drop_last() =~= pre);
                }
            },
        }
    }
    proof {
        assert(s@.subrange(0, n as int) =~= s@);
        lemma_hex_val_nonneg(s@);
    }
    Some(acc)
}

} // verus!
