//! Numeric literals: integers in a radix, and the shape of real literals.
use vstd::prelude::*;

verus! {

/// Why an integer literal has no `u32` value.
#[derive(Clone, Copy, Debug, PartialEq, Eq, Structural)]
pub enum IntError {
    /// The literal is empty.
    Empty,
    /// A character is not a digit of the radix.
    InvalidDigit,
    /// The value exceeds `u32::MAX`.
    PosOverflow,
}

/// The value of `c` as a digit of `radix` (`0`-`9`, then `a`-`z` or `A`-`Z`).
pub open spec fn digit_value(c: char, radix: u32) -> Option<u32> {
    let d: int = if '0' <= c <= '9' {
        c as int - '0' as int
    } else if 'a' <= c <= 'z' {
        c as int - 'a' as int + 10
    } else if 'A' <= c <= 'Z' {
        c as int - 'A' as int + 10
    } else {
        36
    };
    if d < radix {
        Some(d as u32)
    } else {
        None
    }
}

/// Reads the digits `d` after the value `acc` read so far.
pub open spec fn fold_digits(d: Seq<char>, radix: u32, acc: int) -> Result<u32, IntError>
    decreases d.len(),
{
    if d.len() == 0 {
        Ok(acc as u32)
    } else {
        match digit_value(d[0], radix) {
            None => Err(IntError::InvalidDigit),
            Some(x) => if acc * radix + x > u32::MAX {
                Err(IntError::PosOverflow)
            } else {
                fold_digits(d.drop_first(), radix, acc * radix + x)
            },
        }
    }
}

/// The `u32` that `s` denotes in `radix`: an optional `+` and then digits,
/// as `u32::from_str_radix` reads it.
pub open spec fn spec_parse_u32(s: Seq<char>, radix: u32) -> Result<u32, IntError> {
    if s.len() == 0 {
        Err(IntError::Empty)
    } else if s.len() == 1 && (s[0] == '+' || s[0] == '-') {
        Err(IntError::InvalidDigit)
    } else if s[0] == '+' {
        fold_digits(s.drop_first(), radix, 0)
    } else {
        fold_digits(s, radix, 0)
    }
}

fn digit_of(c: char, radix: u32) -> (r: Option<u32>)
    requires
        2 <= radix <= 36,
    ensures
        r == digit_value(c, radix),
{
    let d: u32 = if '0' <= c && c <= '9' {
        (c as u32) - ('0' as u32)
    } else if 'a' <= c && c <= 'z' {
        (c as u32) - ('a' as u32) + 10
    } else if 'A' <= c && c <= 'Z' {
        (c as u32) - ('A' as u32) + 10
    } else {
        36
    };
    if d < radix {
        Some(d)
    } else {
        None
    }
}

/// Reads `s[start..]` as digits of `radix`.
fn parse_digits(s: &str, start: usize, radix: u32) -> (r: Result<u32, IntError>)
    requires
        2 <= radix <= 36,
        start <= s@.len(),
    ensures
        r == fold_digits(s@.skip(start as int), radix, 0),
{
    let n = s.unicode_len();
    let mut acc: u32 = 0;
    let mut i = start;
    assert(s@.skip(start as int).len() == n - start);
    while i < n
        invariant
            n == s@.len(),
            start <= i <= n,
            2 <= radix <= 36,
            fold_digits(s@.skip(i as int), radix, acc as int) == fold_digits(
                s@.skip(start as int),
                radix,
                0,
            ),
        decreases n - i,
    {
        let c = s.get_char(i);
        assert(s@.skip(i as int)[0] == c);
        assert(s@.skip(i as int).drop_first() =~= s@.skip(i + 1));
        match digit_of(c, radix) {
            None => {
                return Err(IntError::InvalidDigit);
            },
            Some(x) => {
                assert(acc * radix <= 36 * 0xffff_ffffint) by (nonlinear_arith)
                    requires
                        acc <= 0xffff_ffffint,
                        radix <= 36,
                ;
                let big: u64 = (acc as u64) * (radix as u64) + (x as u64);
                if big > u32::MAX as u64 {
                    return Err(IntError::PosOverflow);
                }
                acc = big as u32;
            },
        }
        i += 1;
    }
    assert(s@.skip(n as int).len() == 0);
    Ok(acc)
}

/// The `u32` that `s` denotes in `radix`, or why there is none.
pub fn parse_u32(s: &str, radix: u32) -> (r: Result<u32, IntError>)
    requires
        2 <= radix <= 36,
    ensures
        r == spec_parse_u32(s@, radix),
{
    let n = s.unicode_len();
    if n == 0 {
        return Err(IntError::Empty);
    }
    let c0 = s.get_char(0);
    if n == 1 && (c0 == '+' || c0 == '-') {
        return Err(IntError::InvalidDigit);
    }
    if c0 == '+' {
        assert(s@.skip(1) =~= s@.drop_first());
        parse_digits(s, 1, radix)
    } else {
        assert(s@.skip(0) =~= s@);
        parse_digits(s, 0, radix)
    }
}

pub open spec fn is_digit(c: char) -> bool {
    '0' <= c <= '9'
}

/// A real literal as the lexer makes one: digits, a point, and digits
/// (at least one digit before the point).
pub open spec fn is_real_literal(s: Seq<char>) -> bool {
    exists|k: int|
        1 <= k < s.len() && s[k] == '.' && forall|i: int|
            0 <= i < s.len() && i != k ==> is_digit(#[trigger] s[i])
}

pub fn check_real_literal(s: &str) -> (r: bool)
    ensures
        r == is_real_literal(s@),
{
    let n = s.unicode_len();
    let mut k: usize = 0;
    while k < n && is_ascii_digit(s.get_char(k))
        invariant
            n == s@.len(),
            k <= n,
            forall|i: int| 0 <= i < k ==> is_digit(#[trigger] s@[i]),
        decreases n - k,
    {
        k += 1;
    }
    if k == 0 || k >= n || s.get_char(k) != '.' {
        proof {
            if is_real_literal(s@) {
                let w = choose|w: int|
                    1 <= w < s@.len() && s@[w] == '.' && forall|i: int|
                        0 <= i < s@.len() && i != w ==> is_digit(#[trigger] s@[i]);
                if k < n {
                    assert(!is_digit(s@[k as int]));
                    assert(k == w);
                } else {
                    assert(is_digit(s@[w]));
                }
            }
        }
        return false;
    }
    let mut j = k + 1;
    while j < n
        invariant
            n == s@.len(),
            k < j <= n,
            1 <= k < n,
            s@[k as int] == '.',
            forall|i: int| 0 <= i < j && i != k ==> is_digit(#[trigger] s@[i]),
        decreases n - j,
    {
        if !is_ascii_digit(s.get_char(j)) {
            proof {
                if is_real_literal(s@) {
                    let w = choose|w: int|
                        1 <= w < s@.len() && s@[w] == '.' && forall|i: int|
                            0 <= i < s@.len() && i != w ==> is_digit(#[trigger] s@[i]);
                    if w != k {
                        assert(is_digit(s@[k as int]));
                    }
                    assert(is_digit(s@[j as int]));
                }
            }
            return false;
        }
        j += 1;
    }
    assert(is_real_literal(s@)) by {
        assert(1 <= k < s@.len() && s@[k as int] == '.' && forall|i: int|
            0 <= i < s@.len() && i != k ==> is_digit(#[trigger] s@[i]));
    }
    true
}

fn is_ascii_digit(c: char) -> (r: bool)
    ensures
        r == is_digit(c),
{
    '0' <= c && c <= '9'
}

pub open spec fn digit_text(d: int) -> Seq<char> {
    if d == 0 {
        "0"@
    } else if d == 1 {
        "1"@
    } else if d == 2 {
        "2"@
    } else if d == 3 {
        "3"@
    } else if d == 4 {
        "4"@
    } else if d == 5 {
        "5"@
    } else if d == 6 {
        "6"@
    } else if d == 7 {
        "7"@
    } else if d == 8 {
        "8"@
    } else {
        "9"@
    }
}

/// The decimal digits of `n`.
pub open spec fn decimal(n: nat) -> Seq<char>
    decreases n,
{
    if n < 10 {
        digit_text(n as int)
    } else {
        decimal(n / 10) + digit_text((n % 10) as int)
    }
}

/// Appends the decimal digits of `n`.
pub(crate) fn push_decimal(s: &mut String, n: usize)
    ensures
        final(s)@ == old(s)@ + decimal(n as nat),
    decreases n,
{
    if n >= 10 {
        push_decimal(s, n / 10);
    }
    let d = n % 10;
    let ghost before = s@;
    if d == 0 {
        s.append("0");
    } else if d == 1 {
        s.append("1");
    } else if d == 2 {
        s.append("2");
    } else if d == 3 {
        s.append("3");
    } else if d == 4 {
        s.append("4");
    } else if d == 5 {
        s.append("5");
    } else if d == 6 {
        s.append("6");
    } else if d == 7 {
        s.append("7");
    } else if d == 8 {
        s.append("8");
    } else {
        s.append("9");
    }
    proof {
        if n >= 10 {
            assert(s@ =~= old(s)@ + decimal((n / 10) as nat) + digit_text((n % 10) as int));
        } else {
            assert(s@ =~= old(s)@ + digit_text(n as int));
        }
    }
}

} // verus!
