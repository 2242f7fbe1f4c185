//! Decimal text: reading unsigned numbers and fixed-point coordinates out of
//! JSON number text, and printing page numbers into request URLs.

use vstd::prelude::*;

verus! {

use vstd::arithmetic::div_mod::{lemma_div_decreases, lemma_fundamental_div_mod};

/// An ASCII decimal digit.
pub open spec fn is_digit(b: u8) -> bool {
    48 <= b <= 57
}

/// The value of one digit byte.
pub open spec fn digit_val(b: u8) -> int {
    b - 48
}

/// Every byte is a decimal digit.
pub open spec fn all_digits(s: Seq<u8>) -> bool {
    forall|i: int| 0 <= i < s.len() ==> is_digit(#[trigger] s[i])
}

/// The number the digit bytes spell, most significant first.
pub open spec fn digits_val(s: Seq<u8>) -> int
    decreases s.len(),
{
    if s.len() == 0 {
        0
    } else {
        digits_val(s.drop_last()) * 10 + digit_val(s.last())
    }
}

/// Ten to the `n`.
pub open spec fn pow10(n: nat) -> int
    decreases n,
{
    if n == 0 {
        1
    } else {
        10 * pow10((n - 1) as nat)
    }
}

/// Digit strings of length `n` spell values below `pow10(n)`.
pub proof fn lemma_digits_val_bound(s: Seq<u8>)
    requires
        all_digits(s),
    ensures
        0 <= digits_val(s) < pow10(s.len()),
    decreases s.len(),
{
    if s.len() > 0 {
        assert(all_digits(s.drop_last()));
        lemma_digits_val_bound(s.drop_last());
        assert(digit_val(s.last()) <= 9);
    }
}

/// `pow10` grows with its exponent.
pub proof fn lemma_pow10_increases(a: nat, b: nat)
    requires
        a <= b,
    ensures
        pow10(a) <= pow10(b),
    decreases b,
{
    if a < b {
        lemma_pow10_increases(a, (b - 1) as nat);
        assert(pow10((b - 1) as nat) >= 1) by {
            lemma_pow10_pos((b - 1) as nat);
        }
    }
}

/// `pow10` is positive.
pub proof fn lemma_pow10_pos(n: nat)
    ensures
        pow10(n) >= 1,
    decreases n,
{
    if n > 0 {
        lemma_pow10_pos((n - 1) as nat);
    }
}

/// Reads the digits `bytes[from..to]` as an unsigned number. Yields a value
/// exactly when the range holds only digits; the width cap keeps the value
/// within `u64`.
pub fn parse_u64_digits(bytes: &[u8], from: usize, to: usize) -> (r: Option<u64>)
    requires
        from <= to <= bytes@.len(),
        to - from <= 18,
    ensures
        r is Some <==> all_digits(bytes@.subrange(from as int, to as int)),
        r matches Some(v) ==> v == digits_val(bytes@.subrange(from as int, to as int)),
{
    let mut v: u64 = 0;
    let mut i: usize = from;
    while i < to
        invariant
            from <= i <= to <= bytes@.len(),
            to - from <= 18,
            all_digits(bytes@.subrange(from as int, i as int)),
            v == digits_val(bytes@.subrange(from as int, i as int)),
        decreases to - i,
    {
        let b = bytes[i];
        if !(48 <= b && b <= 57) {
            proof {
                assert(bytes@.subrange(from as int, to as int)[i - from] == b);
            }
            return None;
        }
        proof {
            let prefix = bytes@.subrange(from as int, i as int);
            let next = bytes@.subrange(from as int, i + 1);
            assert(next.drop_last() =~= prefix);
            assert(next.last() == b);
            assert(all_digits(next));
            lemma_digits_val_bound(prefix);
            lemma_pow10_increases(prefix.len(), 17nat);
            reveal_with_fuel(pow10, 18);
            assert(pow10(17nat) == 100000000000000000);
        }
        v = v * 10 + ((b - 48) as u64);
        i = i + 1;
    }
    proof {
        assert(bytes@.subrange(from as int, to as int) =~= bytes@.subrange(from as int, i as int));
    }
    Some(v)
}

/// Reads a whole byte string of digits as an unsigned number: yields a value
/// exactly when the text is one to eighteen digits.
pub fn parse_u64(bytes: &[u8]) -> (r: Option<u64>)
    ensures
        r is Some <==> 1 <= bytes@.len() <= 18 && all_digits(bytes@),
        r matches Some(v) ==> v == digits_val(bytes@),
{
    let n = bytes.len();
    if n == 0 || n > 18 {
        return None;
    }
    let r = parse_u64_digits(bytes, 0, n);
    proof {
        assert(bytes@.subrange(0, n as int) =~= bytes@);
    }
    r
}

/// The first index at which `b` occurs in `s`, or -1 if it never does.
pub open spec fn find_byte(s: Seq<u8>, b: u8) -> int
    decreases s.len(),
{
    if s.len() == 0 {
        -1
    } else if s[0] == b {
        0
    } else {
        let r = find_byte(s.drop_first(), b);
        if r < 0 {
            -1
        } else {
            r + 1
        }
    }
}

/// `find_byte` names the first occurrence: nothing before it matches, and a
/// negative answer means nothing matches at all.
pub proof fn lemma_find_byte(s: Seq<u8>, b: u8)
    ensures
        find_byte(s, b) >= 0 ==> find_byte(s, b) < s.len() && s[find_byte(s, b)] == b && (forall|
            j: int,
        | 0 <= j < find_byte(s, b) ==> s[j] != b),
        find_byte(s, b) < 0 ==> find_byte(s, b) == -1 && (forall|j: int|
            0 <= j < s.len() ==> s[j] != b),
    decreases s.len(),
{
    if s.len() > 0 && s[0] != b {
        lemma_find_byte(s.drop_first(), b);
        let t = s.drop_first();
        let r = find_byte(t, b);
        if r >= 0 {
            assert(s[r + 1] == t[r]);
            assert forall|j: int| 0 <= j < r + 1 implies s[j] != b by {
                if j > 0 {
                    assert(t[j - 1] != b);
                    assert(s[j] == t[j - 1]);
                }
            }
        } else {
            assert forall|j: int| 0 <= j < s.len() implies s[j] != b by {
                if j > 0 {
                    assert(t[j - 1] != b);
                    assert(s[j] == t[j - 1]);
                }
            }
        }
    }
}

/// The byte string without a single leading minus sign.
pub open spec fn decimal_body(s: Seq<u8>) -> Seq<u8> {
    if s.len() >= 1 && s[0] == 45 {
        s.drop_first()
    } else {
        s
    }
}

/// Plain decimal-number text: an optional minus sign, at least one digit, and
/// at most one decimal point with at least one digit after it. This is the
/// shape coordinate values take in posting fragments; anything else is a
/// malformed record.
pub open spec fn valid_decimal(s: Seq<u8>) -> bool {
    let body = decimal_body(s);
    let d = find_byte(body, 46);
    if d < 0 {
        body.len() >= 1 && all_digits(body)
    } else {
        &&& d >= 1
        &&& all_digits(body.take(d))
        &&& body.len() - d - 1 >= 1
        &&& all_digits(body.skip(d + 1))
    }
}

/// Checks that `bytes[from..to]` holds only decimal digits.
fn check_digits(bytes: &[u8], from: usize, to: usize) -> (r: bool)
    requires
        from <= to <= bytes@.len(),
    ensures
        r == all_digits(bytes@.subrange(from as int, to as int)),
{
    let mut i: usize = from;
    while i < to
        invariant
            from <= i <= to <= bytes@.len(),
            all_digits(bytes@.subrange(from as int, i as int)),
        decreases to - i,
    {
        let b = bytes[i];
        if !(48 <= b && b <= 57) {
            proof {
                assert(bytes@.subrange(from as int, to as int)[i - from] == b);
            }
            return false;
        }
        proof {
            let next = bytes@.subrange(from as int, i + 1);
            assert(next.drop_last() =~= bytes@.subrange(from as int, i as int));
            assert(next.last() == b);
            assert(all_digits(next));
        }
        i = i + 1;
    }
    proof {
        assert(bytes@.subrange(from as int, to as int) =~= bytes@.subrange(from as int, i as int));
    }
    true
}

/// Decides whether a byte string is plain decimal-number text.
pub fn is_valid_decimal(bytes: &[u8]) -> (r: bool)
    ensures
        r == valid_decimal(bytes@),
{
    let n = bytes.len();
    let from: usize = if n >= 1 && bytes[0] == 45 {
        1
    } else {
        0
    };
    proof {
        assert(decimal_body(bytes@) =~= bytes@.subrange(from as int, n as int));
    }
    let ghost body = decimal_body(bytes@);
    // Find the first decimal point in the body, if any.
    let mut i: usize = from;
    let mut dot: usize = n;
    let mut seen_dot = false;
    while i < n && !seen_dot
        invariant
            from <= i <= n == bytes@.len(),
            body == bytes@.subrange(from as int, n as int),
            !seen_dot ==> dot == n && (forall|j: int| 0 <= j < i - from ==> body[j] != 46),
            seen_dot ==> from <= dot < n && bytes@[dot as int] == 46 && i == dot + 1 && (forall|
                j: int,
            | 0 <= j < dot - from ==> body[j] != 46),
        decreases n - i,
    {
        if bytes[i] == 46 {
            dot = i;
            seen_dot = true;
        }
        proof {
            assert(body[i - from] == bytes@[i as int]);
        }
        i = i + 1;
    }
    proof {
        lemma_find_byte(body, 46);
    }
    if !seen_dot {
        proof {
            if find_byte(body, 46) >= 0 {
                assert(body[find_byte(body, 46)] == 46);
            }
        }
        if n - from < 1 {
            return false;
        }
        check_digits(bytes, from, n)
    } else {
        proof {
            assert(body[dot - from] == 46);
            if find_byte(body, 46) < 0 {
                assert(body[dot - from] != 46);
            }
            assert(find_byte(body, 46) == dot - from);
        }
        if dot - from < 1 {
            return false;
        }
        if n - dot - 1 < 1 {
            return false;
        }
        let ghost d = dot - from;
        proof {
            assert(body.take(d as int) =~= bytes@.subrange(from as int, dot as int));
            assert(body.skip(d + 1) =~= bytes@.subrange(dot + 1, n as int));
        }
        let ints_ok = check_digits(bytes, from, dot);
        if !ints_ok {
            return false;
        }
        check_digits(bytes, dot + 1, n)
    }
}

/// The decimal digits of `n`, most significant first, as characters.
pub open spec fn dec_digits(n: int) -> Seq<char>
    decreases n,
{
    if n < 0 {
        Seq::empty()
    } else if n <= 9 {
        seq![digit_char(n)]
    } else {
        dec_digits(n / 10).push(digit_char(n % 10))
    }
}

/// The character for one decimal digit.
pub open spec fn digit_char(d: int) -> char {
    if d == 0 {
        '0'
    } else if d == 1 {
        '1'
    } else if d == 2 {
        '2'
    } else if d == 3 {
        '3'
    } else if d == 4 {
        '4'
    } else if d == 5 {
        '5'
    } else if d == 6 {
        '6'
    } else if d == 7 {
        '7'
    } else if d == 8 {
        '8'
    } else {
        '9'
    }
}

/// One digit as text.
fn digit_str(d: u64) -> (r: &'static str)
    requires
        d < 10,
    ensures
        r@ == seq![digit_char(d as int)],
{
    proof {
        reveal_strlit("0");
        reveal_strlit("1");
        reveal_strlit("2");
        reveal_strlit("3");
        reveal_strlit("4");
        reveal_strlit("5");
        reveal_strlit("6");
        reveal_strlit("7");
        reveal_strlit("8");
        reveal_strlit("9");
    }
    let r: &'static str = if d == 0 {
        "0"
    } else if d == 1 {
        "1"
    } else if d == 2 {
        "2"
    } else if d == 3 {
        "3"
    } else if d == 4 {
        "4"
    } else if d == 5 {
        "5"
    } else if d == 6 {
        "6"
    } else if d == 7 {
        "7"
    } else if d == 8 {
        "8"
    } else {
        "9"
    };
    proof {
        assert(r@ =~= seq![digit_char(d as int)]);
    }
    r
}

/// Prints `n` in decimal.
pub fn u64_to_string(n: u64) -> (r: String)
    ensures
        r@ == dec_digits(n as int),
    decreases n,
{
    if n <= 9 {
        let mut s = String::new();
        s.append(digit_str(n));
        proof {
            assert(s@ =~= dec_digits(n as int));
        }
        s
    } else {
        proof {
            lemma_div_decreases(n as int, 10);
            lemma_fundamental_div_mod(n as int, 10);
        }
        let mut s = u64_to_string(n / 10);
        s.append(digit_str(n % 10));
        proof {
            assert(s@ =~= dec_digits(n as int));
        }
        s
    }
}

} // verus!
