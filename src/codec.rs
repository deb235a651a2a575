use vstd::prelude::*;
use vstd::string::*;
use crate::text::push_char;

verus! {

/// One colour as three independent 8-bit channels.
#[derive(Clone, Copy, Debug, PartialEq, Eq, Structural)]
pub struct Color {
    pub red: u8,
    pub green: u8,
    pub blue: u8,
}

/// Why a string of hexadecimal digits could not be decoded.
#[derive(Clone, Copy, Debug, PartialEq, Eq, Structural)]
pub enum DecodeError {
    /// The number of characters is odd, so the last pair is incomplete.
    OddLength,
    /// The character at this position is not a hexadecimal digit.
    InvalidDigit(usize),
    /// Fewer than the six digits of a colour were given.
    TooShort,
}

/// `c` is one of `0-9`, `a-f`, `A-F`.
pub open spec fn is_hex_char(c: char) -> bool {
    (48 <= c as u32 && c as u32 <= 57) || (97 <= c as u32 && c as u32 <= 102) || (65 <= c as u32
        && c as u32 <= 70)
}

/// The value of a hexadecimal digit (0 for any other character).
pub open spec fn hex_value(c: char) -> nat {
    if 48 <= c as u32 && c as u32 <= 57 {
        (c as u32 - 48) as nat
    } else if 97 <= c as u32 && c as u32 <= 102 {
        (c as u32 - 87) as nat
    } else if 65 <= c as u32 && c as u32 <= 70 {
        (c as u32 - 55) as nat
    } else {
        0
    }
}

/// The lowercase hexadecimal digit for a value below 16.
pub open spec fn hex_digit_spec(n: nat) -> char {
    if n < 10 {
        ((n + 48) as u8) as char
    } else {
        ((n + 87) as u8) as char
    }
}

/// `c` is one of `0-9`, `a-f`.
pub open spec fn is_lower_hex_char(c: char) -> bool {
    (48 <= c as u32 && c as u32 <= 57) || (97 <= c as u32 && c as u32 <= 102)
}

/// Every character of `s` is a hexadecimal digit.
pub open spec fn all_hex(s: Seq<char>) -> bool {
    forall|i: int| 0 <= i < s.len() ==> is_hex_char(#[trigger] s[i])
}

/// `s` is a whole number of digit pairs, all hexadecimal.
pub open spec fn decodable(s: Seq<char>) -> bool {
    s.len() % 2 == 0 && all_hex(s)
}

/// The byte written by the `k`-th pair of digits, most significant first.
pub open spec fn pair_value(s: Seq<char>, k: int) -> u8 {
    (16 * hex_value(s[2 * k]) + hex_value(s[2 * k + 1])) as u8
}

/// The bytes written by the digit pairs of `s`, in order.
pub open spec fn decoded(s: Seq<char>) -> Seq<u8> {
    Seq::new(s.len() / 2, |k: int| pair_value(s, k))
}

/// Two lowercase digits for one byte, most significant first.
pub open spec fn byte_hex(b: u8) -> Seq<char> {
    seq![hex_digit_spec(b as nat / 16), hex_digit_spec(b as nat % 16)]
}

/// The text of a colour: `0x`, then red, green and blue as two lowercase digits each.
pub open spec fn encoded(c: Color) -> Seq<char> {
    seq!['0', 'x'] + byte_hex(c.red) + byte_hex(c.green) + byte_hex(c.blue)
}

/// The colour held by the first six digits of `s`.
pub open spec fn color_of(s: Seq<char>) -> Color {
    Color { red: pair_value(s, 0), green: pair_value(s, 1), blue: pair_value(s, 2) }
}

fn hex_digit(n: u8) -> (c: char)
    requires
        n < 16,
    ensures
        c == hex_digit_spec(n as nat),
{
    if n < 10 {
        (n + 48) as char
    } else {
        (n + 87) as char
    }
}

fn digit_value(c: char) -> (r: Option<u8>)
    ensures
        r is Some <==> is_hex_char(c),
        r is Some ==> r->0 as nat == hex_value(c) && r->0 < 16,
{
    let v = c as u32;
    if 48 <= v && v <= 57 {
        Some((v - 48) as u8)
    } else if 97 <= v && v <= 102 {
        Some((v - 87) as u8)
    } else if 65 <= v && v <= 70 {
        Some((v - 55) as u8)
    } else {
        None
    }
}

/// Decodes consecutive pairs of hexadecimal digits into bytes.
pub fn decode_hex(s: &str) -> (r: Result<Vec<u8>, DecodeError>)
    ensures
        r is Ok <==> decodable(s@),
        r is Ok ==> r->Ok_0@ == decoded(s@),
        r == Err::<Vec<u8>, DecodeError>(DecodeError::OddLength) <==> s@.len() % 2 == 1,
        r matches Err(DecodeError::InvalidDigit(i)) ==> s@.len() % 2 == 0 && i < s@.len()
            && !is_hex_char(s@[i as int]) && all_hex(s@.take(i as int)),
        r != Err::<Vec<u8>, DecodeError>(DecodeError::TooShort),
{
    let n = s.unicode_len();
    if n % 2 != 0 {
        return Err(DecodeError::OddLength);
    }
    let mut out: Vec<u8> = Vec::new();
    let mut k: usize = 0;
    while k < n / 2
        invariant
            n == s@.len(),
            n % 2 == 0,
            k <= n / 2,
            all_hex(s@.take(2 * k as int)),
            out@ == decoded(s@).take(k as int),
        decreases n / 2 - k,
    {
        let a = s.get_char(2 * k);
        let b = s.get_char(2 * k + 1);
        let va = digit_value(a);
        if va.is_none() {
            return Err(DecodeError::InvalidDigit(2 * k));
        }
        let vb = digit_value(b);
        if vb.is_none() {
            proof {
                let t = s@.take(2 * k as int + 1);
                assert forall|j: int| 0 <= j < t.len() implies is_hex_char(#[trigger] t[j]) by {
                    if j < 2 * k {
                        assert(s@.take(2 * k as int)[j] == t[j]);
                    }
                }
            }
            return Err(DecodeError::InvalidDigit(2 * k + 1));
        }
        let x = va.unwrap();
        let y = vb.unwrap();
        out.push(16 * x + y);
        proof {
            let t = s@.take(2 * k as int + 2);
            assert forall|j: int| 0 <= j < t.len() implies is_hex_char(#[trigger] t[j]) by {
                if j < 2 * k {
                    assert(s@.take(2 * k as int)[j] == t[j]);
                }
            }
            assert(out@ =~= decoded(s@).take(k as int + 1));
        }
        k = k + 1;
    }
    proof {
        assert(s@.take(n as int) =~= s@);
        assert(out@ =~= decoded(s@));
    }
    Ok(out)
}

/// The digit of a value below 16 is a lowercase hexadecimal digit that decodes back to it.
proof fn lemma_digit(n: nat)
    requires
        n < 16,
    ensures
        is_lower_hex_char(hex_digit_spec(n)),
        is_hex_char(hex_digit_spec(n)),
        hex_value(hex_digit_spec(n)) == n,
{
}

/// The two digits of a byte decode back to it.
proof fn lemma_byte(b: u8)
    ensures
        16 * hex_value(byte_hex(b)[0]) + hex_value(byte_hex(b)[1]) == b as nat,
        is_lower_hex_char(byte_hex(b)[0]),
        is_lower_hex_char(byte_hex(b)[1]),
{
    lemma_digit(b as nat / 16);
    lemma_digit(b as nat % 16);
}

fn push_byte(s: &mut String, b: u8)
    ensures
        final(s)@ == old(s)@ + byte_hex(b),
{
    push_char(s, hex_digit(b / 16));
    push_char(s, hex_digit(b % 16));
    proof {
        assert(final(s)@ =~= old(s)@ + byte_hex(b));
    }
}

/// Writes a colour as `0x` followed by six lowercase hexadecimal digits.
pub fn encode(c: Color) -> (r: String)
    ensures
        r@ == encoded(c),
        r@.len() == 8,
        r@[0] == '0',
        r@[1] == 'x',
        forall|i: int| 2 <= i < 8 ==> is_lower_hex_char(#[trigger] r@[i]),
{
    let mut s = String::new();
    push_char(&mut s, '0');
    push_char(&mut s, 'x');
    push_byte(&mut s, c.red);
    push_byte(&mut s, c.green);
    push_byte(&mut s, c.blue);
    proof {
        lemma_byte(c.red);
        lemma_byte(c.green);
        lemma_byte(c.blue);
        assert(s@ =~= encoded(c));
    }
    s
}

/// Decodes the colour held by the first six hexadecimal digits of `s`; the whole of `s`
/// must be valid digit pairs.
pub fn decode_color(s: &str) -> (r: Result<Color, DecodeError>)
    ensures
        r is Ok <==> decodable(s@) && s@.len() >= 6,
        r is Ok ==> r->Ok_0 == color_of(s@),
        r == Err::<Color, DecodeError>(DecodeError::TooShort) <==> decodable(s@) && s@.len() < 6,
        r == Err::<Color, DecodeError>(DecodeError::OddLength) <==> s@.len() % 2 == 1,
        r matches Err(DecodeError::InvalidDigit(i)) ==> s@.len() % 2 == 0 && i < s@.len()
            && !is_hex_char(s@[i as int]) && all_hex(s@.take(i as int)),
{
    match decode_hex(s) {
        Ok(v) => {
            if v.len() < 3 {
                Err(DecodeError::TooShort)
            } else {
                Ok(Color { red: v[0], green: v[1], blue: v[2] })
            }
        },
        Err(e) => Err(e),
    }
}

/// Decoding the six digits that follow the `0x` of an encoded colour gives the colour back.
pub proof fn lemma_round_trip(c: Color)
    ensures
        encoded(c).skip(2).len() == 6,
        decodable(encoded(c).skip(2)),
        decoded(encoded(c).skip(2)) == seq![c.red, c.green, c.blue],
        color_of(encoded(c).skip(2)) == c,
{
    lemma_byte(c.red);
    lemma_byte(c.green);
    lemma_byte(c.blue);
    let d = encoded(c).skip(2);
    assert(d =~= byte_hex(c.red) + byte_hex(c.green) + byte_hex(c.blue));
    assert(decoded(d) =~= seq![c.red, c.green, c.blue]);
}

} // verus!
