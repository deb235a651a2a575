use vstd::prelude::*;
use vstd::string::*;
use crate::text::push_char;

verus! {

/// The characters that `char::is_whitespace` accepts (Unicode `White_Space`).
pub open spec fn is_whitespace(c: char) -> bool {
    let u = c as u32;
    (9 <= u && u <= 13) || u == 32 || u == 0x85 || u == 0xA0 || u == 0x1680 || (0x2000 <= u && u
        <= 0x200A) || u == 0x2028 || u == 0x2029 || u == 0x202F || u == 0x205F || u == 0x3000
}

/// `s` without its leading whitespace.
pub open spec fn trim_start(s: Seq<char>) -> Seq<char>
    decreases s.len(),
{
    if s.len() > 0 && is_whitespace(s[0]) {
        trim_start(s.drop_first())
    } else {
        s
    }
}

/// `s` without its trailing whitespace.
pub open spec fn trim_end(s: Seq<char>) -> Seq<char>
    decreases s.len(),
{
    if s.len() > 0 && is_whitespace(s.last()) {
        trim_end(s.drop_last())
    } else {
        s
    }
}

/// `s` without whitespace at either end.
pub open spec fn trimmed(s: Seq<char>) -> Seq<char> {
    trim_end(trim_start(s))
}

/// `c` is one of `0-9`.
pub open spec fn is_decimal_char(c: char) -> bool {
    48 <= c as u32 && c as u32 <= 57
}

/// The value of a string of decimal digits, most significant first.
pub open spec fn decimal_value(s: Seq<char>) -> nat
    decreases s.len(),
{
    if s.len() == 0 {
        0
    } else {
        10 * decimal_value(s.drop_last()) + (s.last() as u32 - 48) as nat
    }
}

/// The digits of `s` after an optional leading `+`.
pub open spec fn unsigned_digits(s: Seq<char>) -> Seq<char> {
    if s.len() > 0 && s[0] == '+' {
        s.drop_first()
    } else {
        s
    }
}

/// The byte that `s` writes in decimal, with an optional leading `+`; `None` when `s` holds
/// no digits, holds another character, or writes a value above 255.
pub open spec fn parsed_u8(s: Seq<char>) -> Option<u8> {
    let d = unsigned_digits(s);
    if d.len() > 0 && (forall|i: int| 0 <= i < d.len() ==> is_decimal_char(#[trigger] d[i]))
        && decimal_value(d) <= 255 {
        Some(decimal_value(d) as u8)
    } else {
        None
    }
}

/// The decimal digit for a value below 10.
pub open spec fn decimal_digit(n: nat) -> char {
    ((n + 48) as u8) as char
}

/// `n` in decimal, without leading zeros.
pub open spec fn decimal_text(n: nat) -> Seq<char>
    decreases n,
{
    if n < 10 {
        seq![decimal_digit(n)]
    } else {
        decimal_text(n / 10).push(decimal_digit(n % 10))
    }
}

proof fn lemma_trim_start_skip(s: Seq<char>, i: int)
    requires
        0 <= i <= s.len(),
        forall|k: int| 0 <= k < i ==> is_whitespace(#[trigger] s[k]),
    ensures
        trim_start(s) == trim_start(s.skip(i)),
    decreases i,
{
    if i > 0 {
        assert(s.skip(1).skip(i - 1) =~= s.skip(i));
        lemma_trim_start_skip(s.drop_first(), i - 1);
    } else {
        assert(s.skip(0) =~= s);
    }
}

proof fn lemma_trim_end_take(s: Seq<char>, j: int)
    requires
        0 <= j <= s.len(),
        forall|k: int| j <= k < s.len() ==> is_whitespace(#[trigger] s[k]),
    ensures
        trim_end(s) == trim_end(s.take(j)),
    decreases s.len() - j,
{
    if j < s.len() {
        assert(s.drop_last().take(j) =~= s.take(j));
        lemma_trim_end_take(s.drop_last(), j);
    } else {
        assert(s.take(j) =~= s);
    }
}

/// The value of a longer string of digits is at least that of its prefix.
proof fn lemma_value_grows(s: Seq<char>, i: int)
    requires
        0 <= i <= s.len(),
        forall|k: int| 0 <= k < s.len() ==> is_decimal_char(#[trigger] s[k]),
    ensures
        decimal_value(s.take(i)) <= decimal_value(s),
    decreases s.len() - i,
{
    if i < s.len() {
        assert(s.drop_last().take(i) =~= s.take(i));
        lemma_value_grows(s.drop_last(), i);
    } else {
        assert(s.take(i) =~= s);
    }
}

/// The decimal text of a number is a non-empty string of digits whose value is that number.
proof fn lemma_decimal_text_digits(n: nat)
    ensures
        decimal_text(n).len() > 0,
        forall|i: int| 0 <= i < decimal_text(n).len() ==> is_decimal_char(#[trigger] decimal_text(n)[i]),
        decimal_value(decimal_text(n)) == n,
    decreases n,
{
    assert(decimal_digit(n % 10) as u32 == n % 10 + 48);
    if n >= 10 {
        lemma_decimal_text_digits(n / 10);
        assert(decimal_text(n).drop_last() =~= decimal_text(n / 10));
        assert(decimal_text(n).last() == decimal_digit(n % 10));
        assert(10 * (n / 10) + n % 10 == n);
        assert(decimal_value(decimal_text(n)) == 10 * decimal_value(decimal_text(n / 10)) + n % 10);
    } else {
        let t = decimal_text(n);
        assert(t =~= seq![decimal_digit(n)]);
        assert(t.drop_last() =~= Seq::<char>::empty());
        assert(decimal_value(t.drop_last()) == 0);
        assert(t.last() as u32 == n + 48);
    }
}

/// A byte written in decimal by `format_u8` reads back as the same byte.
pub proof fn lemma_decimal_round_trip(b: u8)
    ensures
        parsed_u8(trimmed(decimal_text(b as nat))) == Some(b),
{
    let t = decimal_text(b as nat);
    lemma_decimal_text_digits(b as nat);
    assert(!is_whitespace(t[0]));
    assert(!is_whitespace(t.last()));
    assert(trim_start(t) == t);
    assert(trim_end(t) == t);
    assert(t[0] != '+');
    assert(unsigned_digits(trimmed(t)) == t);
    assert(forall|i: int| 0 <= i < t.len() ==> is_decimal_char(#[trigger] t[i]));
    assert(decimal_value(t) == b as nat);
}

/// Reads a byte written in decimal, with an optional leading `+` and whitespace at either end.
pub fn parse_u8(text: &str) -> (r: Option<u8>)
    ensures
        r == parsed_u8(trimmed(text@)),
{
    let n = text.unicode_len();
    let ghost s = text@;
    let mut i: usize = 0;
    while i < n && is_whitespace_char(text.get_char(i))
        invariant
            n == s.len(),
            s == text@,
            i <= n,
            forall|k: int| 0 <= k < i ==> is_whitespace(#[trigger] s[k]),
        decreases n - i,
    {
        i = i + 1;
    }
    proof {
        lemma_trim_start_skip(s, i as int);
    }
    let mut j: usize = n;
    while j > i && is_whitespace_char(text.get_char(j - 1))
        invariant
            n == s.len(),
            s == text@,
            i <= j <= n,
            forall|k: int| j <= k < n ==> is_whitespace(#[trigger] s[k]),
        decreases j,
    {
        j = j - 1;
    }
    let ghost t = s.subrange(i as int, j as int);
    proof {
        let u = s.skip(i as int);
        assert(trim_start(u) == u);
        assert forall|k: int| j - i <= k < u.len() implies is_whitespace(#[trigger] u[k]) by {
            assert(u[k] == s[k + i]);
        }
        lemma_trim_end_take(u, j - i);
        assert(u.take(j - i) =~= t);
        assert(trim_end(t) == t);
        assert(trimmed(s) == t);
    }
    let mut start: usize = i;
    if i < j && text.get_char(i) == '+' {
        start = i + 1;
    }
    let ghost d = s.subrange(start as int, j as int);
    assert(d =~= unsigned_digits(t));
    if start == j {
        return None;
    }
    let mut acc: u32 = 0;
    let mut k: usize = start;
    while k < j
        invariant
            n == s.len(),
            s == text@,
            start <= k <= j <= n,
            d == s.subrange(start as int, j as int),
            d == unsigned_digits(trimmed(s)),
            d.len() > 0,
            forall|m: int| 0 <= m < k - start ==> is_decimal_char(#[trigger] d[m]),
            acc as nat == decimal_value(d.take(k - start)),
            acc <= 255,
        decreases j - k,
    {
        let c = text.get_char(k);
        let v = c as u32;
        if v < 48 || v > 57 {
            assert(!is_decimal_char(d[k - start]));
            return None;
        }
        proof {
            assert(d.take(k - start + 1).drop_last() =~= d.take(k - start));
        }
        acc = 10 * acc + (v - 48);
        k = k + 1;
        if acc > 255 {
            proof {
                if forall|m: int| 0 <= m < d.len() ==> is_decimal_char(#[trigger] d[m]) {
                    lemma_value_grows(d, k - start);
                }
            }
            return None;
        }
    }
    proof {
        assert(d.take(j - start) =~= d);
    }
    Some(acc as u8)
}

fn is_whitespace_char(c: char) -> (r: bool)
    ensures
        r == is_whitespace(c),
{
    let u = c as u32;
    (9 <= u && u <= 13) || u == 32 || u == 0x85 || u == 0xA0 || u == 0x1680 || (0x2000 <= u && u
        <= 0x200A) || u == 0x2028 || u == 0x2029 || u == 0x202F || u == 0x205F || u == 0x3000
}

fn decimal_digit_char(n: u8) -> (c: char)
    requires
        n < 10,
    ensures
        c == decimal_digit(n as nat),
{
    (n + 48) as char
}

/// Writes a byte in decimal, without leading zeros.
pub fn format_u8(v: u8) -> (r: String)
    ensures
        r@ == decimal_text(v as nat),
{
    let mut s = String::new();
    if v >= 100 {
        push_char(&mut s, decimal_digit_char(v / 100));
    }
    if v >= 10 {
        push_char(&mut s, decimal_digit_char((v / 10) % 10));
    }
    push_char(&mut s, decimal_digit_char(v % 10));
    proof {
        let n = v as nat;
        if n >= 100 {
            assert(decimal_text(n / 100) =~= seq![decimal_digit(n / 100)]);
            assert(n / 10 / 10 == n / 100);
            assert(decimal_text(n / 10) =~= seq![decimal_digit(n / 100), decimal_digit((n / 10) % 10)]);
        } else if n >= 10 {
            assert(decimal_text(n / 10) =~= seq![decimal_digit(n / 10)]);
        }
        assert(s@ =~= decimal_text(n));
    }
    s
}

} // verus!
