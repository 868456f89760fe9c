//! IPv4 values in dotted decimal form.

use vstd::arithmetic::power2::{lemma2_to64, lemma_pow2_adds, pow2};
use vstd::prelude::*;

use crate::text::{chars_of, pieces, split_at_each, texts};
use crate::text::{joined, lemma_join_of_pieces, lemma_one_piece, lemma_piece_added};

verus! {

/// The decimal digit of a number below ten.
pub open spec fn digit(d: int) -> char {
    ('0' as u32 + d) as char
}

/// A number of one byte in decimal form, without leading zeros.
pub open spec fn decimal(n: u8) -> Seq<char> {
    if n >= 100 {
        seq![digit(n as int / 100), digit(n as int / 10 % 10), digit(n as int % 10)]
    } else if n >= 10 {
        seq![digit(n as int / 10), digit(n as int % 10)]
    } else {
        seq![digit(n as int)]
    }
}

/// Four numbers of one byte in dotted decimal form.
pub open spec fn dotted(a: u8, b: u8, c: u8, d: u8) -> Seq<char> {
    decimal(a) + seq!['.'] + decimal(b) + seq!['.'] + decimal(c) + seq!['.'] + decimal(d)
}

/// Whether a text is an IPv4 value: four numbers of one byte, in decimal form
/// without leading zeros, with dots between them.
pub open spec fn is_dotted_quad(s: Seq<char>) -> bool {
    exists|a: u8, b: u8, c: u8, d: u8| s == #[trigger] dotted(a, b, c, d)
}

/// The byte of which the leading bits, so many, are one, and the others zero.
pub open spec fn leading_ones(count: int) -> u8 {
    (256 - pow2((8 - count) as nat)) as u8
}

/// How many of the bits that a prefix covers fall in a byte of the value,
/// counted from the first.
pub open spec fn prefix_bits(prefix_length: int, byte: int) -> int {
    let rest = prefix_length - 8 * byte;
    if rest < 0 {
        0
    } else if rest > 8 {
        8
    } else {
        rest
    }
}

/// A byte of the subnet mask of a prefix.
pub open spec fn mask_byte(prefix_length: int, byte: int) -> u8 {
    leading_ones(prefix_bits(prefix_length, byte))
}

/// The subnet mask of a prefix, in dotted decimal form.
pub open spec fn mask_text(prefix_length: int) -> Seq<char> {
    dotted(
        mask_byte(prefix_length, 0),
        mask_byte(prefix_length, 1),
        mask_byte(prefix_length, 2),
        mask_byte(prefix_length, 3),
    )
}

fn digit_text(d: u8) -> (r: &'static str)
    requires
        d < 10,
    ensures
        r@ == seq![digit(d as int)],
{
    match d {
        0 => {
            proof {
                reveal_strlit("0");
            }
            "0"
        },
        1 => {
            proof {
                reveal_strlit("1");
            }
            "1"
        },
        2 => {
            proof {
                reveal_strlit("2");
            }
            "2"
        },
        3 => {
            proof {
                reveal_strlit("3");
            }
            "3"
        },
        4 => {
            proof {
                reveal_strlit("4");
            }
            "4"
        },
        5 => {
            proof {
                reveal_strlit("5");
            }
            "5"
        },
        6 => {
            proof {
                reveal_strlit("6");
            }
            "6"
        },
        7 => {
            proof {
                reveal_strlit("7");
            }
            "7"
        },
        8 => {
            proof {
                reveal_strlit("8");
            }
            "8"
        },
        _ => {
            proof {
                reveal_strlit("9");
            }
            "9"
        },
    }
}

/// A number of one byte in decimal form.
pub fn decimal_text(n: u8) -> (r: String)
    ensures
        r@ == decimal(n),
{
    let mut r: String = String::new();
    if n >= 100 {
        r.append(digit_text(n / 100));
    }
    if n >= 10 {
        r.append(digit_text(n / 10 % 10));
    }
    r.append(digit_text(n % 10));
    assert(r@ =~= decimal(n));
    r
}

fn leading_ones_of(count: i32) -> (r: u8)
    requires
        0 <= count <= 8,
    ensures
        r == leading_ones(count as int),
{
    proof {
        lemma2_to64();
    }
    if count == 0 {
        0
    } else if count == 1 {
        128
    } else if count == 2 {
        192
    } else if count == 3 {
        224
    } else if count == 4 {
        240
    } else if count == 5 {
        248
    } else if count == 6 {
        252
    } else if count == 7 {
        254
    } else {
        255
    }
}

fn mask_byte_of(prefix_length: i32, byte: i32) -> (r: u8)
    requires
        0 <= prefix_length <= 32,
        0 <= byte < 4,
    ensures
        r == mask_byte(prefix_length as int, byte as int),
{
    let rest: i32 = prefix_length - 8 * byte;
    if rest < 0 {
        leading_ones_of(0)
    } else if rest > 8 {
        leading_ones_of(8)
    } else {
        leading_ones_of(rest)
    }
}

/// The subnet mask of a prefix, in dotted decimal form; nothing for a length
/// that no IPv4 prefix has.
pub fn prefix_length_to_mask(prefix_length: i32) -> (r: Option<String>)
    ensures
        r is Some <==> 0 <= prefix_length <= 32,
        r matches Some(mask) ==> mask@ == mask_text(prefix_length as int),
{
    if prefix_length < 0 || prefix_length > 32 {
        return None;
    }
    let mut mask: String = decimal_text(mask_byte_of(prefix_length, 0));
    proof {
        reveal_strlit(".");
    }
    let dot = ".";
    assert(dot@ =~= seq!['.']);
    mask.append(dot);
    mask.append(&decimal_text(mask_byte_of(prefix_length, 1)));
    mask.append(dot);
    mask.append(&decimal_text(mask_byte_of(prefix_length, 2)));
    mask.append(dot);
    mask.append(&decimal_text(mask_byte_of(prefix_length, 3)));
    Some(mask)
}

fn digit_value(c: char) -> (r: Option<u8>)
    ensures
        r matches Some(d) ==> d < 10 && c == digit(d as int),
        r is None ==> forall|d: int| 0 <= d < 10 ==> c != digit(d),
{
    let n: u32 = c as u32;
    if 0x30 <= n && n <= 0x39 {
        Some((n - 0x30) as u8)
    } else {
        None
    }
}

/// The number that a text is the decimal form of.
fn octet_value(part: &str) -> (r: Option<u8>)
    ensures
        r matches Some(n) ==> part@ == decimal(n),
        r is None ==> forall|n: u8| part@ != decimal(n),
{
    let cs = chars_of(part);
    if cs.len() == 0 || cs.len() > 3 {
        return None;
    }
    let mut value: u32 = 0;
    let mut i: usize = 0;
    while i < cs.len()
        invariant
            cs@ == part@,
            0 < cs@.len() <= 3,
            i <= cs@.len(),
            i == 0 ==> value == 0,
            i == 1 ==> value < 10 && cs@[0] == digit(value as int),
            i == 2 ==> value < 100 && cs@[0] == digit(value as int / 10) && cs@[1] == digit(
                value as int % 10,
            ),
            i == 3 ==> value < 1000 && cs@[0] == digit(value as int / 100) && cs@[1] == digit(
                value as int / 10 % 10,
            ) && cs@[2] == digit(value as int % 10),
        decreases cs@.len() - i,
    {
        match digit_value(cs[i]) {
            Some(d) => {
                value = value * 10 + d as u32;
            },
            None => {
                return None;
            },
        }
        i += 1;
    }
    if value > 255 || (cs.len() == 3 && value < 100) || (cs.len() == 2 && value < 10) {
        return None;
    }
    assert(part@ =~= decimal(value as u8));
    Some(value as u8)
}

/// Whether a text is an IPv4 value.
pub fn is_ipv4(value: &str) -> (r: bool)
    ensures
        r == is_dotted_quad(value@),
{
    let parts = split_at_each(value, '.');
    let ghost quad = texts(parts@);
    if parts.len() != 4 {
        proof {
            assert(quad.len() != 4);
            assert forall|a: u8, b: u8, c: u8, d: u8| value@ != #[trigger] dotted(a, b, c, d) by {
                lemma_pieces_of_dotted(a, b, c, d);
            }
        }
        return false;
    }
    let a = octet_value(&parts[0]);
    let b = octet_value(&parts[1]);
    let c = octet_value(&parts[2]);
    let d = octet_value(&parts[3]);
    proof {
        assert(quad[0] == parts@[0]@);
        assert(quad[1] == parts@[1]@);
        assert(quad[2] == parts@[2]@);
        assert(quad[3] == parts@[3]@);
        assert forall|x: u8, y: u8, z: u8, w: u8| value@ == #[trigger] dotted(x, y, z, w) implies a
            is Some && b is Some && c is Some && d is Some by {
            lemma_pieces_of_dotted(x, y, z, w);
        }
    }
    match (a, b, c, d) {
        (Some(a), Some(b), Some(c), Some(d)) => {
            proof {
                lemma_join_of_pieces(value@, '.');
                lemma_join_of_four(quad, seq!['.']);
                assert(value@ == dotted(a, b, c, d));
            }
            true
        },
        _ => false,
    }
}

proof fn lemma_join_of_four(quad: Seq<Seq<char>>, separator: Seq<char>)
    requires
        quad.len() == 4,
    ensures
        joined(quad, separator) == quad[0] + separator + quad[1] + separator + quad[2] + separator
            + quad[3],
{
    reveal_with_fuel(joined, 4);
}

proof fn lemma_decimal_has_no_dot(n: u8)
    ensures
        !decimal(n).contains('.'),
{
}

proof fn lemma_pieces_of_dotted(a: u8, b: u8, c: u8, d: u8)
    ensures
        pieces(dotted(a, b, c, d), '.') == seq![decimal(a), decimal(b), decimal(c), decimal(d)],
{
    lemma_decimal_has_no_dot(a);
    lemma_decimal_has_no_dot(b);
    lemma_decimal_has_no_dot(c);
    lemma_decimal_has_no_dot(d);
    let one = decimal(a);
    let two = one + seq!['.'] + decimal(b);
    let three = two + seq!['.'] + decimal(c);
    lemma_one_piece(one, '.');
    lemma_piece_added(one, '.', decimal(b));
    lemma_piece_added(two, '.', decimal(c));
    lemma_piece_added(three, '.', decimal(d));
    assert(pieces(dotted(a, b, c, d), '.') =~= seq![
        decimal(a),
        decimal(b),
        decimal(c),
        decimal(d),
    ]);
}

/// Different numbers have different decimal forms.
pub proof fn decimal_is_injective(m: u8, n: u8)
    requires
        decimal(m) == decimal(n),
    ensures
        m == n,
{
    lemma_digits(m);
    lemma_digits(n);
    let (x, y) = (decimal(m), decimal(n));
    assert(x.len() == y.len());
    if m >= 100 {
        assert(n >= 100);
        assert(x[0] == y[0] && x[1] == y[1] && x[2] == y[2]);
        assert(m as int / 100 == n as int / 100);
        assert(m as int / 10 % 10 == n as int / 10 % 10);
        assert(m as int % 10 == n as int % 10);
    } else if m >= 10 {
        assert(10 <= n < 100);
        assert(x[0] == y[0] && x[1] == y[1]);
        assert(m as int / 10 == n as int / 10);
    } else {
        assert(n < 10);
        assert(x[0] == y[0]);
    }
}

proof fn lemma_digit(d: int)
    requires
        0 <= d < 10,
    ensures
        digit(d) as u32 == '0' as u32 + d,
{
}

proof fn lemma_digits(n: u8)
    ensures
        digit(n as int / 100) as u32 == '0' as u32 + n as int / 100,
        digit(n as int / 10 % 10) as u32 == '0' as u32 + n as int / 10 % 10,
        digit(n as int % 10) as u32 == '0' as u32 + n as int % 10,
        n < 100 ==> digit(n as int / 10) as u32 == '0' as u32 + n as int / 10,
        n < 10 ==> digit(n as int) as u32 == '0' as u32 + n as int,
{
    lemma_digit(n as int / 100);
    lemma_digit(n as int / 10 % 10);
    lemma_digit(n as int % 10);
}

proof fn lemma_digit_of(c: char)
    requires
        '0' as u32 <= c as u32 <= '9' as u32,
    ensures
        digit(c as u32 - '0' as u32) == c,
{
    vstd::utf8::char_u32_cast(c, c as u32);
}

/// An IPv4 value is written in one way only: different numbers have different
/// dotted decimal forms.
pub proof fn dotted_is_injective(a: u8, b: u8, c: u8, d: u8, e: u8, f: u8, g: u8, h: u8)
    requires
        dotted(a, b, c, d) == dotted(e, f, g, h),
    ensures
        a == e && b == f && c == g && d == h,
{
    lemma_pieces_of_dotted(a, b, c, d);
    lemma_pieces_of_dotted(e, f, g, h);
    let one = seq![decimal(a), decimal(b), decimal(c), decimal(d)];
    let other = seq![decimal(e), decimal(f), decimal(g), decimal(h)];
    assert(one[0] == other[0] && one[1] == other[1] && one[2] == other[2] && one[3] == other[3]);
    decimal_is_injective(a, e);
    decimal_is_injective(b, f);
    decimal_is_injective(c, g);
    decimal_is_injective(d, h);
}

/// Whether a text is the decimal form of a number of one byte: one to three
/// digits, not starting with a zero unless it is the only one, and no more
/// than 255.
pub open spec fn is_octet(s: Seq<char>) -> bool {
    let v = |i: int| s[i] as u32 - '0' as u32;
    &&& forall|i: int| 0 <= i < s.len() ==> '0' as u32 <= #[trigger] s[i] as u32 <= '9' as u32
    &&& s.len() == 1 || (s.len() == 2 && v(0) > 0) || (s.len() == 3 && v(0) > 0 && 100 * v(0) + 10
        * v(1) + v(2) <= 255)
}

proof fn lemma_octet(s: Seq<char>)
    ensures
        is_octet(s) <==> exists|n: u8| s == #[trigger] decimal(n),
{
    let v = |i: int| s[i] as u32 - '0' as u32;
    if is_octet(s) {
        assert('0' as u32 <= s[0] as u32 <= '9' as u32);
        lemma_digit_of(s[0]);
        if s.len() == 1 {
            assert(s =~= decimal(v(0) as u8));
        } else {
            assert('0' as u32 <= s[1] as u32 <= '9' as u32);
            lemma_digit_of(s[1]);
            if s.len() == 2 {
                let n = 10 * v(0) + v(1);
                assert(n / 10 == v(0) && n % 10 == v(1));
                assert(s =~= decimal(n as u8));
            } else {
                assert('0' as u32 <= s[2] as u32 <= '9' as u32);
                lemma_digit_of(s[2]);
                let n = 100 * v(0) + 10 * v(1) + v(2);
                assert(n / 100 == v(0) && n / 10 % 10 == v(1) && n % 10 == v(2));
                assert(s =~= decimal(n as u8));
            }
        }
    }
    if exists|n: u8| s == #[trigger] decimal(n) {
        let n = choose|n: u8| s == #[trigger] decimal(n);
        lemma_digits(n);
    }
}

/// A text is an IPv4 value exactly if it has four pieces between its dots, each
/// of them the decimal form of a number of one byte.
pub proof fn dotted_quad_by_pieces(s: Seq<char>)
    ensures
        is_dotted_quad(s) <==> {
            let parts = pieces(s, '.');
            parts.len() == 4 && is_octet(parts[0]) && is_octet(parts[1]) && is_octet(parts[2])
                && is_octet(parts[3])
        },
{
    let parts = pieces(s, '.');
    if parts.len() == 4 {
        lemma_octet(parts[0]);
        lemma_octet(parts[1]);
        lemma_octet(parts[2]);
        lemma_octet(parts[3]);
        if is_octet(parts[0]) && is_octet(parts[1]) && is_octet(parts[2]) && is_octet(parts[3]) {
            let a = choose|n: u8| parts[0] == #[trigger] decimal(n);
            let b = choose|n: u8| parts[1] == #[trigger] decimal(n);
            let c = choose|n: u8| parts[2] == #[trigger] decimal(n);
            let d = choose|n: u8| parts[3] == #[trigger] decimal(n);
            lemma_join_of_pieces(s, '.');
            lemma_join_of_four(parts, seq!['.']);
            assert(s == dotted(a, b, c, d));
        }
    }
    if is_dotted_quad(s) {
        let (a, b, c, d) = choose|a: u8, b: u8, c: u8, d: u8| s == #[trigger] dotted(a, b, c, d);
        lemma_pieces_of_dotted(a, b, c, d);
        assert(parts[0] == decimal(a) && parts[1] == decimal(b));
        assert(parts[2] == decimal(c) && parts[3] == decimal(d));
    }
}

/// The subnet mask of a prefix is an IPv4 value.
pub proof fn mask_is_ipv4(prefix_length: int)
    ensures
        is_dotted_quad(mask_text(prefix_length)),
{
}

/// The bits of a subnet mask, counted from the first: those that the prefix
/// covers are one, the others zero.
pub proof fn mask_covers_the_prefix(prefix_length: int, bit: int)
    requires
        0 <= prefix_length <= 32,
        0 <= bit < 32,
    ensures
        (mask_byte(prefix_length, bit / 8) as nat / pow2((7 - bit % 8) as nat)) % 2 == 1 <==> bit
            < prefix_length,
{
    let ones = prefix_bits(prefix_length, bit / 8);
    let k = bit % 8;
    assert(0 <= ones <= 8 && 0 <= k < 8);
    assert(bit < prefix_length <==> k < ones);
    lemma_leading_ones_bit(ones, k);
}

proof fn lemma_leading_ones_bit(ones: int, k: int)
    requires
        0 <= ones <= 8,
        0 <= k < 8,
    ensures
        (leading_ones(ones) as nat / pow2((7 - k) as nat)) % 2 == 1 <==> k < ones,
{
    lemma2_to64();
    let x = leading_ones(ones) as nat;
    lemma_leading_ones_value(ones);
    if k == 0 {
        assert((7 - k) as nat == 7);
        assert((x / 128) % 2 == 1 <==> k < ones);
    } else if k == 1 {
        assert((7 - k) as nat == 6);
        assert((x / 64) % 2 == 1 <==> k < ones);
    } else if k == 2 {
        assert((7 - k) as nat == 5);
        assert((x / 32) % 2 == 1 <==> k < ones);
    } else if k == 3 {
        assert((7 - k) as nat == 4);
        assert((x / 16) % 2 == 1 <==> k < ones);
    } else if k == 4 {
        assert((7 - k) as nat == 3);
        assert((x / 8) % 2 == 1 <==> k < ones);
    } else if k == 5 {
        assert((7 - k) as nat == 2);
        assert((x / 4) % 2 == 1 <==> k < ones);
    } else if k == 6 {
        assert((7 - k) as nat == 1);
        assert((x / 2) % 2 == 1 <==> k < ones);
    } else if k == 7 {
        assert((7 - k) as nat == 0);
        assert((x / 1) % 2 == 1 <==> k < ones);
    }
}

proof fn lemma_leading_ones_value(ones: int)
    requires
        0 <= ones <= 8,
    ensures
        ones == 0 ==> leading_ones(ones) == 0,
        ones == 1 ==> leading_ones(ones) == 128,
        ones == 2 ==> leading_ones(ones) == 192,
        ones == 3 ==> leading_ones(ones) == 224,
        ones == 4 ==> leading_ones(ones) == 240,
        ones == 5 ==> leading_ones(ones) == 248,
        ones == 6 ==> leading_ones(ones) == 252,
        ones == 7 ==> leading_ones(ones) == 254,
        ones == 8 ==> leading_ones(ones) == 255,
{
    lemma2_to64();
}

/// Different prefixes have different subnet masks.
pub proof fn mask_is_injective(m: int, n: int)
    requires
        0 <= m <= 32,
        0 <= n <= 32,
        mask_text(m) == mask_text(n),
    ensures
        m == n,
{
    dotted_is_injective(
        mask_byte(m, 0),
        mask_byte(m, 1),
        mask_byte(m, 2),
        mask_byte(m, 3),
        mask_byte(n, 0),
        mask_byte(n, 1),
        mask_byte(n, 2),
        mask_byte(n, 3),
    );
    if m < n {
        mask_covers_the_prefix(m, m);
        mask_covers_the_prefix(n, m);
    } else if n < m {
        mask_covers_the_prefix(m, n);
        mask_covers_the_prefix(n, n);
    }
}

/// The subnet mask of a prefix, as a number of 32 bits, has as many leading
/// ones as the prefix is long: it lacks the size of the network to the full
/// range.
pub proof fn mask_is_the_value_of_the_prefix(prefix_length: int)
    requires
        0 <= prefix_length <= 32,
    ensures
        exists|a: u8, b: u8, c: u8, d: u8|
            mask_text(prefix_length) == #[trigger] dotted(a, b, c, d) && 0x100_0000 * a + 0x1_0000
                * b + 0x100 * c + d == 0x1_0000_0000 - pow2((32 - prefix_length) as nat),
{
    let a = mask_byte(prefix_length, 0);
    let b = mask_byte(prefix_length, 1);
    let c = mask_byte(prefix_length, 2);
    let d = mask_byte(prefix_length, 3);
    lemma2_to64();
    lemma_leading_ones_value(0);
    lemma_leading_ones_value(8);
    lemma_leading_ones_value(prefix_bits(prefix_length, 0));
    lemma_leading_ones_value(prefix_bits(prefix_length, 1));
    lemma_leading_ones_value(prefix_bits(prefix_length, 2));
    lemma_leading_ones_value(prefix_bits(prefix_length, 3));
    let value = 0x100_0000 * a + 0x1_0000 * b + 0x100 * c + d;
    if prefix_length <= 8 {
        let k = prefix_length;
        assert(b == 0 && c == 0 && d == 0);
        lemma_pow2_adds((8 - k) as nat, 24);
        assert(pow2((32 - k) as nat) == pow2((8 - k) as nat) * 0x100_0000);
        assert(a == 256 - pow2((8 - k) as nat)) by {
            lemma_leading_ones_complement(k);
        }
        assert(value == 0x1_0000_0000 - pow2((32 - prefix_length) as nat));
    } else if prefix_length <= 16 {
        let k = prefix_length - 8;
        assert(a == 255 && c == 0 && d == 0);
        lemma_pow2_adds((8 - k) as nat, 16);
        assert(pow2((24 - k) as nat) == pow2((8 - k) as nat) * 0x1_0000);
        assert(b == 256 - pow2((8 - k) as nat)) by {
            lemma_leading_ones_complement(k);
        }
        assert(value == 0x1_0000_0000 - pow2((32 - prefix_length) as nat));
    } else if prefix_length <= 24 {
        let k = prefix_length - 16;
        assert(a == 255 && b == 255 && d == 0);
        lemma_pow2_adds((8 - k) as nat, 8);
        assert(pow2((16 - k) as nat) == pow2((8 - k) as nat) * 0x100);
        assert(c == 256 - pow2((8 - k) as nat)) by {
            lemma_leading_ones_complement(k);
        }
        assert(value == 0x1_0000_0000 - pow2((32 - prefix_length) as nat));
    } else {
        let k = prefix_length - 24;
        assert(a == 255 && b == 255 && c == 255);
        assert(d == 256 - pow2((8 - k) as nat)) by {
            lemma_leading_ones_complement(k);
        }
        assert(value == 0x1_0000_0000 - pow2((32 - prefix_length) as nat));
    }
    assert(mask_text(prefix_length) == dotted(a, b, c, d));
}

proof fn lemma_leading_ones_complement(ones: int)
    requires
        0 <= ones <= 8,
    ensures
        leading_ones(ones) == 256 - pow2((8 - ones) as nat),
{
    lemma2_to64();
    lemma_leading_ones_value(ones);
}

/// The decimal form of a number has only digits, which are worth the number,
/// and starts with a zero only if that is all of it.
pub proof fn decimal_is_worth_its_number(n: u8)
    ensures
        ({
            let s = decimal(n);
            let v = |i: int| s[i] as u32 - '0' as u32;
            &&& 1 <= s.len() <= 3
            &&& forall|i: int| 0 <= i < s.len() ==> '0' as u32 <= #[trigger] s[i] as u32 <= '9' as u32
            &&& s.len() > 1 ==> v(0) > 0
            &&& s.len() == 1 ==> n == v(0)
            &&& s.len() == 2 ==> n == 10 * v(0) + v(1)
            &&& s.len() == 3 ==> n == 100 * v(0) + 10 * v(1) + v(2)
        }),
{
    lemma_digits(n);
}

/// The pieces between the dots of a dotted form are the decimal forms of its
/// numbers, in their order.
pub proof fn dotted_has_its_numbers(a: u8, b: u8, c: u8, d: u8)
    ensures
        pieces(dotted(a, b, c, d), '.') == seq![decimal(a), decimal(b), decimal(c), decimal(d)],
{
    lemma_pieces_of_dotted(a, b, c, d);
}

/// A text is an IPv4 value exactly if between its dots are four numbers: one to
/// three digits each, worth no more than 255, without a leading zero.
pub proof fn ipv4_values_are_four_numbers(s: Seq<char>)
    ensures
        is_dotted_quad(s) <==> pieces(s, '.').len() == 4 && forall|k: int|
            0 <= k < 4 ==> {
                let p = #[trigger] pieces(s, '.')[k];
                let v = |i: int| p[i] as u32 - '0' as u32;
                &&& forall|i: int|
                    0 <= i < p.len() ==> '0' as u32 <= #[trigger] p[i] as u32 <= '9' as u32
                &&& p.len() == 1 || (p.len() == 2 && v(0) > 0) || (p.len() == 3 && v(0) > 0 && 100
                    * v(0) + 10 * v(1) + v(2) <= 255)
            },
{
    dotted_quad_by_pieces(s);
    let parts = pieces(s, '.');
    assert(is_octet(parts[0]) && is_octet(parts[1]) && is_octet(parts[2]) && is_octet(parts[3])
        <==> forall|k: int| 0 <= k < 4 ==> is_octet(#[trigger] parts[k]));
}

} // verus!
