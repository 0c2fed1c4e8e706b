use vstd::prelude::*;
use crate::utils::color_utils::Argb;
use crate::utils::error::ColorParseError;

verus! {

/// Utility methods for string representations of colors.
pub struct StringUtils;

/// The lowercase hexadecimal digit for a value below 16.
pub open spec fn hex_digit(d: int) -> char {
    if d < 10 {
        (48 + d) as char
    } else {
        (87 + d) as char
    }
}

/// A byte as exactly two lowercase hexadecimal digits, most significant first.
pub open spec fn hex_byte(b: u8) -> Seq<char> {
    seq![hex_digit(b as int / 16), hex_digit(b as int % 16)]
}

/// The `#rrggbb` form of a color: its red, green and blue channels in lowercase hex.
pub open spec fn hex_string(c: Argb) -> Seq<char> {
    seq!['#'] + hex_byte(c.spec_red()) + hex_byte(c.spec_green()) + hex_byte(c.spec_blue())
}

/// `String::push`: appends one character at the end of the string.
#[verifier::external_body]
fn push_char(s: &mut String, c: char)
    ensures
        final(s)@ == old(s)@.push(c),
{
    s.push(c)
}

fn hex_digit_char(d: u8) -> (c: char)
    requires
        d < 16,
    ensures
        c == hex_digit(d as int),
{
    if d < 10 {
        (48u8 + d) as char
    } else {
        (87u8 + d) as char
    }
}

fn push_hex_byte(s: &mut String, b: u8)
    ensures
        final(s)@ == old(s)@ + hex_byte(b),
{
    push_char(s, hex_digit_char(b / 16));
    push_char(s, hex_digit_char(b % 16));
    assert(final(s)@ =~= old(s)@ + hex_byte(b));
}

/// The uppercase hexadecimal digit for a value below 16.
pub open spec fn hex_digit_upper(d: int) -> char {
    if d < 10 {
        (48 + d) as char
    } else {
        (55 + d) as char
    }
}

/// A byte as exactly two uppercase hexadecimal digits, most significant first.
pub open spec fn hex_byte_upper(b: u8) -> Seq<char> {
    seq![hex_digit_upper(b as int / 16), hex_digit_upper(b as int % 16)]
}

/// The `#RRGGBB` form of a color: its red, green and blue channels in uppercase hex.
pub open spec fn hex_string_upper(c: Argb) -> Seq<char> {
    seq!['#'] + hex_byte_upper(c.spec_red()) + hex_byte_upper(c.spec_green()) + hex_byte_upper(
        c.spec_blue(),
    )
}

/// The value of a hexadecimal digit, `0-9`, `a-f` or `A-F`.
pub open spec fn hex_digit_value(c: char) -> Option<int> {
    if '0' <= c <= '9' {
        Some(c as int - 48)
    } else if 'a' <= c <= 'f' {
        Some(c as int - 87)
    } else if 'A' <= c <= 'F' {
        Some(c as int - 55)
    } else {
        None
    }
}

/// The number that a sequence of hexadecimal digits spells, most significant digit first, or
/// `None` when one of the characters is not a hexadecimal digit.
pub open spec fn hex_digits_value(s: Seq<char>) -> Option<int>
    decreases s.len(),
{
    if s.len() == 0 {
        Some(0)
    } else {
        match (hex_digits_value(s.drop_last()), hex_digit_value(s.last())) {
            (Some(v), Some(d)) => Some(16 * v + d),
            _ => None,
        }
    }
}

/// The number that `u32::from_str_radix(s, 16)` reads in `s`: an optional `+` followed by one
/// or more hexadecimal digits; `None` for any other string.
pub open spec fn radix16_value(s: Seq<char>) -> Option<int> {
    let digits = if s.len() > 0 && s[0] == '+' {
        s.drop_first()
    } else {
        s
    };
    if digits.len() == 0 {
        None
    } else {
        hex_digits_value(digits)
    }
}

/// The characters of a hex color string after an optional leading `#`.
pub open spec fn hex_body(s: Seq<char>) -> Seq<char> {
    if s.len() > 0 && s[0] == '#' {
        s.drop_first()
    } else {
        s
    }
}

/// The color that a hex string names: six digits `RRGGBB` give an opaque color, eight digits
/// `AARRGGBB` give all four channels. `None` when the body after an optional `#` is not six or
/// eight characters that `u32::from_str_radix` reads in base 16.
pub open spec fn hex_color(s: Seq<char>) -> Option<Argb> {
    let body = hex_body(s);
    if body.len() == 6 || body.len() == 8 {
        match radix16_value(body) {
            Some(v) => Some(
                Argb(
                    if body.len() == 6 {
                        (0xFF00_0000 + v) as u32
                    } else {
                        v as u32
                    },
                ),
            ),
            None => None,
        }
    } else {
        None
    }
}

/// `u32::from_str_radix(s, 16)`: as its documentation says, the string must be an optional `+`
/// followed by one or more digits of base 16 (`0-9`, `a-f`, `A-F`) whose value fits a `u32`;
/// then the value is returned, and otherwise an error.
#[verifier::external_body]
fn parse_radix16(s: &str) -> (r: Result<u32, std::num::ParseIntError>)
    ensures
        match r {
            Ok(v) => radix16_value(s@) == Some(v as int),
            Err(_) => match radix16_value(s@) {
                Some(v) => v > u32::MAX,
                None => true,
            },
        },
{
    u32::from_str_radix(s, 16)
}

fn hex_digit_char_upper(d: u8) -> (c: char)
    requires
        d < 16,
    ensures
        c == hex_digit_upper(d as int),
{
    if d < 10 {
        (48u8 + d) as char
    } else {
        (55u8 + d) as char
    }
}

fn push_hex_byte_upper(s: &mut String, b: u8)
    ensures
        final(s)@ == old(s)@ + hex_byte_upper(b),
{
    push_char(s, hex_digit_char_upper(b / 16));
    push_char(s, hex_digit_char_upper(b % 16));
    assert(final(s)@ =~= old(s)@ + hex_byte_upper(b));
}

/// The characters of `hex` after an optional leading `#`, and how many there are, counted up
/// to nine.
fn hex_body_of(hex: &str) -> (r: (String, usize))
    ensures
        r.0@ == hex_body(hex@),
        r.1 == if hex_body(hex@).len() < 9 { hex_body(hex@).len() } else { 9 },
{
    broadcast use vstd::string::axiom_spec_iter;
    let mut body = String::new();
    let mut count: usize = 0;
    let mut skip_hash = false;
    let mut at_start = true;
    for c in it: hex.chars()
        invariant
            it.seq() == hex@,
            at_start <==> it.index() == 0,
            skip_hash <==> (it.index() > 0 && hex@[0] == '#'),
            body@ == if skip_hash {
                hex@.subrange(1, it.index() as int)
            } else {
                hex@.take(it.index() as int)
            },
            count == if body@.len() < 9 { body@.len() } else { 9 },
    {
        if at_start && c == '#' {
            skip_hash = true;
        } else {
            push_char(&mut body, c);
            if count < 9 {
                count = count + 1;
            }
        }
        at_start = false;
        proof {
            if skip_hash {
                assert(body@ =~= hex@.subrange(1, it.index() + 1));
            } else {
                assert(body@ =~= hex@.take(it.index() + 1));
            }
        }
    }
    proof {
        if skip_hash {
            assert(hex@.subrange(1, hex@.len() as int) =~= hex@.drop_first());
        } else {
            assert(hex@.take(hex@.len() as int) =~= hex@);
        }
    }
    (body, count)
}

impl Argb {
    /// The `#RRGGBB` hex string of a color, in uppercase; the alpha channel is left out.
    pub fn to_hex(&self) -> (s: String)
        ensures
            s@ == hex_string_upper(*self),
    {
        let v = self.0;
        let red = ((v >> 16u32) & 255u32) as u8;
        let green = ((v >> 8u32) & 255u32) as u8;
        assert(v >> 0u32 == v) by (bit_vector);
        let blue = (v & 255u32) as u8;
        let mut s = String::new();
        push_char(&mut s, '#');
        push_hex_byte_upper(&mut s, red);
        push_hex_byte_upper(&mut s, green);
        push_hex_byte_upper(&mut s, blue);
        assert(s@ =~= hex_string_upper(*self));
        s
    }

    /// Reads a color from a hex string: an optional `#`, then `RRGGBB` for an opaque color or
    /// `AARRGGBB`. A body of any other length is `InvalidLength`; one that `u32::from_str_radix`
    /// cannot read in base 16 is `InvalidHex`, with the parse error.
    pub fn from_hex(hex: &str) -> (r: Result<Argb, ColorParseError>)
        ensures
            hex_color(hex@) matches Some(c) ==> r == Ok::<Argb, ColorParseError>(c),
            hex_color(hex@) is None ==> r is Err,
            r matches Err(e) && e is InvalidLength <==> !(hex_body(hex@).len() == 6
                || hex_body(hex@).len() == 8),
    {
        let (body, count) = hex_body_of(hex);
        if count != 6 && count != 8 {
            return Err(ColorParseError::InvalidLength);
        }
        proof {
            lemma_short_hex_fits(body@);
        }
        match parse_radix16(body.as_str()) {
            Ok(v) => {
                if count == 6 {
                    assert(0xFF00_0000u32 | v == 0xFF00_0000u32 + v) by (bit_vector)
                        requires v < 0x100_0000u32;
                    Ok(Argb(0xFF00_0000u32 | v))
                } else {
                    Ok(Argb(v))
                }
            },
            Err(e) => Err(ColorParseError::InvalidHex(e)),
        }
    }
}

/// A string of at most eight characters that `from_str_radix` reads in base 16 has a value
/// below `16^(its number of digits)`, so it fits a `u32`, and one of six characters fits in
/// 24 bits.
proof fn lemma_short_hex_fits(s: Seq<char>)
    requires
        s.len() <= 8,
    ensures
        radix16_value(s) matches Some(v) ==> 0 <= v <= u32::MAX,
        s.len() <= 6 ==> (radix16_value(s) matches Some(v) ==> v < 0x100_0000),
{
    let digits = if s.len() > 0 && s[0] == '+' {
        s.drop_first()
    } else {
        s
    };
    lemma_hex_digits_bound(digits);
    lemma_pow16_monotone(digits.len(), 8);
    if s.len() <= 6 {
        lemma_pow16_monotone(digits.len(), 6);
    }
    reveal_with_fuel(pow16, 9);
}

/// `16^n`.
spec fn pow16(n: nat) -> int
    decreases n,
{
    if n == 0 {
        1
    } else {
        16 * pow16((n - 1) as nat)
    }
}

proof fn lemma_pow16_monotone(a: nat, b: nat)
    requires
        a <= b,
    ensures
        0 < pow16(a) <= pow16(b),
    decreases b,
{
    if b > a {
        lemma_pow16_monotone(a, (b - 1) as nat);
    } else if a > 0 {
        lemma_pow16_monotone((a - 1) as nat, (a - 1) as nat);
    }
}

proof fn lemma_hex_digits_bound(s: Seq<char>)
    ensures
        hex_digits_value(s) matches Some(v) ==> 0 <= v < pow16(s.len()),
    decreases s.len(),
{
    if s.len() > 0 {
        lemma_hex_digits_bound(s.drop_last());
        match (hex_digits_value(s.drop_last()), hex_digit_value(s.last())) {
            (Some(v), Some(d)) => {
                let p = pow16((s.len() - 1) as nat);
                assert(16 * v + d < 16 * p) by (nonlinear_arith)
                    requires 0 <= v < p, 0 <= d < 16;
            },
            _ => {},
        }
    }
}

impl StringUtils {
    /// Hex string representing color, ex. `#ff0000` for red.
    pub fn hex_from_argb(argb: Argb) -> (s: String)
        ensures
            s@ == hex_string(argb),
    {
        let v = argb.0;
        let red = ((v >> 16u32) & 255u32) as u8;
        let green = ((v >> 8u32) & 255u32) as u8;
        assert(v >> 0u32 == v) by (bit_vector);
        let blue = (v & 255u32) as u8;
        let mut s = String::new();
        push_char(&mut s, '#');
        push_hex_byte(&mut s, red);
        push_hex_byte(&mut s, green);
        push_hex_byte(&mut s, blue);
        assert(s@ =~= hex_string(argb));
        s
    }
}

proof fn lemma_hex_digit_injective(d1: int, d2: int)
    requires
        0 <= d1 < 16,
        0 <= d2 < 16,
        hex_digit(d1) == hex_digit(d2),
    ensures
        d1 == d2,
{
}

proof fn lemma_hex_byte_injective(b1: u8, b2: u8)
    requires
        hex_byte(b1) == hex_byte(b2),
    ensures
        b1 == b2,
{
    assert(hex_byte(b1)[0] == hex_byte(b2)[0]);
    assert(hex_byte(b1)[1] == hex_byte(b2)[1]);
    lemma_hex_digit_injective(b1 as int / 16, b2 as int / 16);
    lemma_hex_digit_injective(b1 as int % 16, b2 as int % 16);
}

/// The hex string of a color is seven characters: `#` and six lowercase hex digits.
pub proof fn lemma_hex_string_shape(c: Argb)
    ensures
        hex_string(c).len() == 7,
        hex_string(c)[0] == '#',
        forall|i: int|
            1 <= i < 7 ==> ('0' <= #[trigger] hex_string(c)[i] <= '9' || 'a' <= hex_string(c)[i]
                <= 'f'),
{
}

/// Two colors with the same hex string have the same red, green and blue channels:
/// the string loses nothing but the alpha channel.
pub proof fn lemma_hex_string_injective(c1: Argb, c2: Argb)
    requires
        hex_string(c1) == hex_string(c2),
    ensures
        c1.spec_red() == c2.spec_red(),
        c1.spec_green() == c2.spec_green(),
        c1.spec_blue() == c2.spec_blue(),
{
    let s1 = hex_string(c1);
    let s2 = hex_string(c2);
    assert(s1.subrange(1, 3) =~= hex_byte(c1.spec_red()));
    assert(s2.subrange(1, 3) =~= hex_byte(c2.spec_red()));
    assert(s1.subrange(3, 5) =~= hex_byte(c1.spec_green()));
    assert(s2.subrange(3, 5) =~= hex_byte(c2.spec_green()));
    assert(s1.subrange(5, 7) =~= hex_byte(c1.spec_blue()));
    assert(s2.subrange(5, 7) =~= hex_byte(c2.spec_blue()));
    lemma_hex_byte_injective(c1.spec_red(), c2.spec_red());
    lemma_hex_byte_injective(c1.spec_green(), c2.spec_green());
    lemma_hex_byte_injective(c1.spec_blue(), c2.spec_blue());
}

proof fn lemma_hex_digit_values(d: int)
    requires
        0 <= d < 16,
    ensures
        hex_digit_value(hex_digit(d)) == Some(d),
        hex_digit_value(hex_digit_upper(d)) == Some(d),
{
}

/// Appending the two digits of a byte, in either case, to a run of hex digits multiplies its
/// value by 256 and adds the byte.
proof fn lemma_hex_digits_push_byte(x: Seq<char>, b: u8)
    ensures
        hex_digits_value(x + hex_byte(b)) == match hex_digits_value(x) {
            Some(v) => Some(256 * v + b),
            None => None,
        },
        hex_digits_value(x + hex_byte_upper(b)) == match hex_digits_value(x) {
            Some(v) => Some(256 * v + b),
            None => None,
        },
{
    let hi = b as int / 16;
    let lo = b as int % 16;
    lemma_hex_digit_values(hi);
    lemma_hex_digit_values(lo);
    assert(b == 16 * hi + lo);
    let y = x + hex_byte(b);
    let y1 = x.push(hex_digit(hi));
    assert(y.drop_last() =~= y1);
    assert(y.last() == hex_digit(lo));
    assert(y1.drop_last() =~= x);
    assert(y1.last() == hex_digit(hi));
    assert(hex_digits_value(y1) == match hex_digits_value(x) {
        Some(v) => Some(16 * v + hi),
        None => None,
    });
    let z = x + hex_byte_upper(b);
    let z1 = x.push(hex_digit_upper(hi));
    assert(z.drop_last() =~= z1);
    assert(z.last() == hex_digit_upper(lo));
    assert(z1.drop_last() =~= x);
    assert(z1.last() == hex_digit_upper(hi));
    assert(hex_digits_value(z1) == match hex_digits_value(x) {
        Some(v) => Some(16 * v + hi),
        None => None,
    });
}

/// Reading back the hex string of an opaque color gives the color again, whether the string
/// was written in uppercase by `Argb::to_hex` or in lowercase by `StringUtils::hex_from_argb`.
pub proof fn lemma_hex_round_trip(c: Argb)
    requires
        c.spec_alpha() == 255,
    ensures
        hex_color(hex_string_upper(c)) == Some(c),
        hex_color(hex_string(c)) == Some(c),
{
    let (r, g, b) = (c.spec_red(), c.spec_green(), c.spec_blue());
    let value = r as int * 65536 + g as int * 256 + b as int;
    let v = c.0;
    assert(((v >> 24u32) & 0xFFu32) == 0xFFu32 ==> v == 0xFF00_0000u32 + ((v >> 16u32) & 0xFFu32)
        * 65536u32 + ((v >> 8u32) & 0xFFu32) * 256u32 + ((v >> 0u32) & 0xFFu32)) by (bit_vector);
    assert((v >> 16u32) & 0xFFu32 < 256u32) by (bit_vector);
    assert((v >> 8u32) & 0xFFu32 < 256u32) by (bit_vector);
    assert((v >> 0u32) & 0xFFu32 < 256u32) by (bit_vector);
    assert((v >> 24u32) & 0xFFu32 < 256u32) by (bit_vector);
    assert(v == 0xFF00_0000 + value);
    let empty = Seq::<char>::empty();
    assert(hex_digits_value(empty) == Some(0int));
    lemma_hex_digits_push_byte(empty, r);
    lemma_hex_digits_push_byte(empty + hex_byte_upper(r), g);
    lemma_hex_digits_push_byte(empty + hex_byte_upper(r) + hex_byte_upper(g), b);
    lemma_hex_digits_push_byte(empty + hex_byte(r), g);
    lemma_hex_digits_push_byte(empty + hex_byte(r) + hex_byte(g), b);

    let upper = hex_string_upper(c);
    assert(hex_body(upper) =~= empty + hex_byte_upper(r) + hex_byte_upper(g) + hex_byte_upper(b));
    assert(hex_digits_value(hex_body(upper)) == Some(value));
    lemma_hex_digit_values(r as int / 16);
    assert(hex_body(upper)[0] != '+');
    assert(radix16_value(hex_body(upper)) == Some(value));
    assert(hex_body(upper).len() == 6);

    let lower = hex_string(c);
    assert(hex_body(lower) =~= empty + hex_byte(r) + hex_byte(g) + hex_byte(b));
    assert(hex_digits_value(hex_body(lower)) == Some(value));
    assert(hex_body(lower)[0] != '+');
    assert(radix16_value(hex_body(lower)) == Some(value));
    assert(hex_body(lower).len() == 6);
}

/// The value of the two hexadecimal digits at positions `i` and `i + 1` of `s`, the first one
/// the more significant.
pub open spec fn digit_pair(s: Seq<char>, i: int) -> int {
    16 * hex_digit_value(s[i]).unwrap() + hex_digit_value(s[i + 1]).unwrap()
}

/// Every character of `s` is a hexadecimal digit.
pub open spec fn all_hex_digits(s: Seq<char>) -> bool {
    forall|i: int| 0 <= i < s.len() ==> #[trigger] hex_digit_value(s[i]) is Some
}

proof fn lemma_hex_digit_value_range(ch: char)
    ensures
        hex_digit_value(ch) matches Some(d) ==> 0 <= d < 16,
{
}

/// Reading one more digit multiplies the value so far by 16 and adds the digit.
proof fn lemma_hex_digits_take(s: Seq<char>, k: int)
    requires
        1 <= k <= s.len(),
        all_hex_digits(s),
    ensures
        hex_digits_value(s.take(k)) == Some(
            16 * hex_digits_value(s.take(k - 1)).unwrap() + hex_digit_value(s[k - 1]).unwrap(),
        ),
        hex_digits_value(s.take(k - 1)) is Some,
    decreases k,
{
    assert(s.take(k).drop_last() =~= s.take(k - 1));
    assert(s.take(k).last() == s[k - 1]);
    assert(hex_digit_value(s[k - 1]) is Some);
    if k > 1 {
        lemma_hex_digits_take(s, k - 1);
    } else {
        assert(s.take(0) =~= Seq::<char>::empty());
    }
}

/// The number that eight hexadecimal digits spell has the four digit pairs as its bytes, most
/// significant first.
proof fn lemma_eight_digits_value(s: Seq<char>)
    requires
        s.len() == 8,
        all_hex_digits(s),
    ensures
        hex_digits_value(s) == Some(
            digit_pair(s, 0) * 0x100_0000 + digit_pair(s, 2) * 0x1_0000 + digit_pair(s, 4) * 0x100
                + digit_pair(s, 6),
        ),
{
    lemma_hex_digits_take(s, 1);
    lemma_hex_digits_take(s, 2);
    lemma_hex_digits_take(s, 3);
    lemma_hex_digits_take(s, 4);
    lemma_hex_digits_take(s, 5);
    lemma_hex_digits_take(s, 6);
    lemma_hex_digits_take(s, 7);
    lemma_hex_digits_take(s, 8);
    assert(s.take(8) =~= s);
    assert(s.take(0) =~= Seq::<char>::empty());
}

/// The number that six hexadecimal digits spell has the three digit pairs as its bytes, most
/// significant first.
proof fn lemma_six_digits_value(s: Seq<char>)
    requires
        s.len() == 6,
        all_hex_digits(s),
    ensures
        hex_digits_value(s) == Some(
            digit_pair(s, 0) * 0x1_0000 + digit_pair(s, 2) * 0x100 + digit_pair(s, 4),
        ),
{
    lemma_hex_digits_take(s, 1);
    lemma_hex_digits_take(s, 2);
    lemma_hex_digits_take(s, 3);
    lemma_hex_digits_take(s, 4);
    lemma_hex_digits_take(s, 5);
    lemma_hex_digits_take(s, 6);
    assert(s.take(6) =~= s);
    assert(s.take(0) =~= Seq::<char>::empty());
}

proof fn lemma_pairs_are_bytes(s: Seq<char>, i: int)
    requires
        0 <= i,
        i + 1 < s.len(),
        all_hex_digits(s),
    ensures
        0 <= digit_pair(s, i) < 256,
{
    assert(hex_digit_value(s[i]) is Some);
    assert(hex_digit_value(s[i + 1]) is Some);
    lemma_hex_digit_value_range(s[i]);
    lemma_hex_digit_value_range(s[i + 1]);
}

/// A hex string whose body is eight hexadecimal digits `AARRGGBB` names the color whose alpha,
/// red, green and blue channels are the digit pairs `AA`, `RR`, `GG` and `BB`; one whose body is
/// six digits `RRGGBB` names the opaque color whose red, green and blue channels are the pairs.
pub proof fn lemma_hex_color_channels(s: Seq<char>)
    requires
        hex_body(s).len() == 6 || hex_body(s).len() == 8,
        all_hex_digits(hex_body(s)),
    ensures
        hex_color(s) is Some,
        hex_body(s).len() == 8 ==> {
            let c = hex_color(s).unwrap();
            &&& c.spec_alpha() == digit_pair(hex_body(s), 0)
            &&& c.spec_red() == digit_pair(hex_body(s), 2)
            &&& c.spec_green() == digit_pair(hex_body(s), 4)
            &&& c.spec_blue() == digit_pair(hex_body(s), 6)
        },
        hex_body(s).len() == 6 ==> {
            let c = hex_color(s).unwrap();
            &&& c.spec_alpha() == 255
            &&& c.spec_red() == digit_pair(hex_body(s), 0)
            &&& c.spec_green() == digit_pair(hex_body(s), 2)
            &&& c.spec_blue() == digit_pair(hex_body(s), 4)
        },
{
    let body = hex_body(s);
    assert(hex_digit_value(body[0]) is Some);
    assert(body[0] != '+');
    if body.len() == 8 {
        lemma_eight_digits_value(body);
        lemma_pairs_are_bytes(body, 0);
        lemma_pairs_are_bytes(body, 2);
        lemma_pairs_are_bytes(body, 4);
        lemma_pairs_are_bytes(body, 6);
        let a = digit_pair(body, 0) as u32;
        let r = digit_pair(body, 2) as u32;
        let g = digit_pair(body, 4) as u32;
        let b = digit_pair(body, 6) as u32;
        let v = (a * 0x100_0000 + r * 0x1_0000 + g * 0x100 + b) as u32;
        assert(a < 256 && r < 256 && g < 256 && b < 256 ==> {
            &&& (((a * 0x100_0000 + r * 0x1_0000 + g * 0x100 + b) as u32 >> 24u32) & 0xFFu32) == a
            &&& (((a * 0x100_0000 + r * 0x1_0000 + g * 0x100 + b) as u32 >> 16u32) & 0xFFu32) == r
            &&& (((a * 0x100_0000 + r * 0x1_0000 + g * 0x100 + b) as u32 >> 8u32) & 0xFFu32) == g
            &&& (((a * 0x100_0000 + r * 0x1_0000 + g * 0x100 + b) as u32 >> 0u32) & 0xFFu32) == b
        }) by (bit_vector);
        assert(hex_color(s) == Some(Argb(v)));
    } else {
        lemma_six_digits_value(body);
        lemma_pairs_are_bytes(body, 0);
        lemma_pairs_are_bytes(body, 2);
        lemma_pairs_are_bytes(body, 4);
        let r = digit_pair(body, 0) as u32;
        let g = digit_pair(body, 2) as u32;
        let b = digit_pair(body, 4) as u32;
        let v = (0xFF00_0000 + r * 0x1_0000 + g * 0x100 + b) as u32;
        assert(r < 256 && g < 256 && b < 256 ==> {
            &&& (((0xFF00_0000u32 + r * 0x1_0000 + g * 0x100 + b) as u32 >> 24u32) & 0xFFu32) == 255
            &&& (((0xFF00_0000u32 + r * 0x1_0000 + g * 0x100 + b) as u32 >> 16u32) & 0xFFu32) == r
            &&& (((0xFF00_0000u32 + r * 0x1_0000 + g * 0x100 + b) as u32 >> 8u32) & 0xFFu32) == g
            &&& (((0xFF00_0000u32 + r * 0x1_0000 + g * 0x100 + b) as u32 >> 0u32) & 0xFFu32) == b
        }) by (bit_vector);
        assert(hex_color(s) == Some(Argb(v)));
    }
}

} // verus!
