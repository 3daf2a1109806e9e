//! Decimal notation, integer parsing and the C-string rule for names that
//! are handed to librdkafka.
use vstd::prelude::*;
use vstd::string::StringExecFns;
use vstd::utf8::encode_utf8;

verus! {

broadcast use vstd::utf8::is_ascii_chars_encode_utf8;

// ---------------------------------------------------------------------------
// Decimal notation
// ---------------------------------------------------------------------------

/// The ASCII character of the decimal digit `d` (for `0 <= d < 10`).
pub open spec fn digit_char(d: int) -> char {
    (d + 48) as char
}

/// The decimal notation of a natural number, most significant digit first,
/// without leading zeros (`"0"` for zero).
pub open spec fn decimal_nat(n: nat) -> Seq<char>
    decreases n,
{
    if n < 10 {
        seq![digit_char(n as int)]
    } else {
        decimal_nat(n / 10).push(digit_char((n % 10) as int))
    }
}

/// The decimal notation of an integer, as Rust's `{}` prints it: a leading
/// `-` for negative numbers, then the digits of the magnitude.
pub open spec fn decimal_int(i: int) -> Seq<char> {
    if i < 0 {
        seq!['-'] + decimal_nat((-i) as nat)
    } else {
        decimal_nat(i as nat)
    }
}

fn digit_str(d: u64) -> (s: &'static str)
    requires
        d < 10,
    ensures
        s@ == seq![digit_char(d as int)],
{
    proof {
        reveal_strlit("0");
        reveal_strlit("1");
        reveal_strlit("2");
        reveal_strlit("3");
        reveal_strlit("4");
        reveal_strlit("5");
        reveal_strlit("6");
        reveal_strlit("7");
        reveal_strlit("8");
        reveal_strlit("9");
    }
    match d {
        0 => "0",
        1 => "1",
        2 => "2",
        3 => "3",
        4 => "4",
        5 => "5",
        6 => "6",
        7 => "7",
        8 => "8",
        _ => "9",
    }
}

/// Formats an unsigned integer in decimal.
pub fn format_u64(n: u64) -> (s: String)
    ensures
        s@ == decimal_nat(n as nat),
    decreases n,
{
    if n < 10 {
        let mut s = String::new();
        s.append(digit_str(n));
        s
    } else {
        let mut s = format_u64(n / 10);
        s.append(digit_str(n % 10));
        s
    }
}

/// Formats a `usize` in decimal.
pub fn format_usize(n: usize) -> (s: String)
    ensures
        s@ == decimal_nat(n as nat),
{
    format_u64(n as u64)
}

/// Formats a signed integer in decimal, as `format!("{}", i)` does.
pub fn format_i32(i: i32) -> (s: String)
    ensures
        s@ == decimal_int(i as int),
{
    if i < 0 {
        let magnitude: i64 = -(i as i64);
        let digits = format_u64(magnitude as u64);
        proof {
            reveal_strlit("-");
        }
        let s = String::from_str("-");
        s.concat(digits.as_str())
    } else {
        format_u64(i as u64)
    }
}

// ---------------------------------------------------------------------------
// Parsing a decimal `i32`
// ---------------------------------------------------------------------------

/// Whether a byte is an ASCII decimal digit.
pub open spec fn is_digit_byte(b: u8) -> bool {
    48 <= b <= 57
}

/// Whether every byte of `s` is an ASCII decimal digit.
pub open spec fn all_digit_bytes(s: Seq<u8>) -> bool {
    forall|i: int| 0 <= i < s.len() ==> is_digit_byte(#[trigger] s[i])
}

/// The value of a run of decimal digits, most significant first.
pub open spec fn digits_value(s: Seq<u8>) -> int
    decreases s.len(),
{
    if s.len() == 0 {
        0
    } else {
        digits_value(s.drop_last()) * 10 + (s.last() - 48)
    }
}

/// What `str::parse::<i32>` gives for the UTF-8 bytes `s`: an optional
/// single `+` or `-`, followed by at least one ASCII digit and nothing else,
/// with a value that fits in an `i32`.
pub open spec fn parse_i32_spec(s: Seq<u8>) -> Option<i32> {
    if s.len() == 0 {
        None
    } else if s[0] == 45u8 {
        let d = s.drop_first();
        if d.len() > 0 && all_digit_bytes(d) && digits_value(d) <= 0x8000_0000 {
            Some((-digits_value(d)) as i32)
        } else {
            None
        }
    } else {
        let d = if s[0] == 43u8 {
            s.drop_first()
        } else {
            s
        };
        if d.len() > 0 && all_digit_bytes(d) && digits_value(d) <= 0x7fff_ffff {
            Some(digits_value(d) as i32)
        } else {
            None
        }
    }
}

proof fn lemma_digits_value_prefix(s: Seq<u8>, i: int)
    requires
        all_digit_bytes(s),
        0 <= i <= s.len(),
    ensures
        0 <= digits_value(s.subrange(0, i)) <= digits_value(s),
    decreases s.len(),
{
    if i == s.len() {
        assert(s.subrange(0, i) =~= s);
        if s.len() > 0 {
            assert(all_digit_bytes(s.drop_last()));
            lemma_digits_value_prefix(s.drop_last(), i - 1);
            assert(s.drop_last().subrange(0, i - 1) =~= s.drop_last());
        }
    } else {
        assert(all_digit_bytes(s.drop_last()));
        lemma_digits_value_prefix(s.drop_last(), i);
        assert(s.drop_last().subrange(0, i) =~= s.subrange(0, i));
        lemma_digits_value_prefix(s.drop_last(), s.len() - 1);
        assert(s.drop_last().subrange(0, s.len() - 1) =~= s.drop_last());
    }
}

/// Reads the digits `bytes[start..]` with the value bound `limit`: `None`
/// when a byte is not a digit or when the value exceeds `limit`.
fn parse_digits(bytes: &[u8], start: usize, limit: i64) -> (r: Option<i64>)
    requires
        start < bytes@.len(),
        0 <= limit <= 0x8000_0000,
    ensures
        ({
            let d = bytes@.subrange(start as int, bytes@.len() as int);
            match r {
                Some(v) => all_digit_bytes(d) && 0 <= v <= limit && v == digits_value(d),
                None => !(all_digit_bytes(d) && digits_value(d) <= limit),
            }
        }),
{
    let ghost d = bytes@.subrange(start as int, bytes@.len() as int);
    let mut acc: i64 = 0;
    let mut i: usize = start;
    while i < bytes.len()
        invariant
            start <= i <= bytes@.len(),
            d == bytes@.subrange(start as int, bytes@.len() as int),
            0 <= limit <= 0x8000_0000,
            all_digit_bytes(d.subrange(0, i - start)),
            acc == digits_value(d.subrange(0, i - start)),
            0 <= acc <= limit,
        decreases bytes@.len() - i,
    {
        let b = bytes[i];
        let ghost prefix = d.subrange(0, i - start);
        let ghost next = d.subrange(0, i + 1 - start);
        assert(next.drop_last() =~= prefix);
        assert(next.last() == b);
        if b < 48 || b > 57 {
            assert(!is_digit_byte(d[i - start]));
            return None;
        }
        let value: i64 = acc * 10 + (b as i64 - 48);
        assert(forall|j: int| 0 <= j < next.len() ==> #[trigger] next[j] == d[j]);
        assert(all_digit_bytes(next));
        if value > limit {
            proof {
                assert(d.len() == bytes@.len() - start);
                if all_digit_bytes(d) {
                    lemma_digits_value_prefix(d, i + 1 - start);
                }
            }
            return None;
        }
        acc = value;
        i = i + 1;
    }
    assert(d.subrange(0, i - start) =~= d);
    Some(acc)
}

/// Parses a decimal `i32`, as `str::parse::<i32>` does.
pub fn parse_i32(s: &str) -> (r: Option<i32>)
    ensures
        r == parse_i32_spec(encode_utf8(s@)),
{
    let bytes = s.as_bytes();
    let ghost b = bytes@;
    if bytes.len() == 0 {
        return None;
    }
    if bytes[0] == 45u8 {
        if bytes.len() == 1 {
            return None;
        }
        assert(b.subrange(1, b.len() as int) =~= b.drop_first());
        match parse_digits(bytes, 1, 0x8000_0000) {
            Some(v) => Some((-v) as i32),
            None => None,
        }
    } else {
        let start: usize = if bytes[0] == 43u8 {
            1
        } else {
            0
        };
        if start == bytes.len() {
            return None;
        }
        assert(b.subrange(1, b.len() as int) =~= b.drop_first());
        assert(b.subrange(0, b.len() as int) =~= b);
        match parse_digits(bytes, start, 0x7fff_ffff) {
            Some(v) => Some(v as i32),
            None => None,
        }
    }
}

// ---------------------------------------------------------------------------
// Decimal notation read back
// ---------------------------------------------------------------------------

/// The bytes of an ASCII character sequence.
pub open spec fn ascii_bytes(s: Seq<char>) -> Seq<u8> {
    Seq::new(s.len(), |i: int| s[i] as u8)
}

proof fn lemma_decimal_nat_digits(n: nat)
    ensures
        decimal_nat(n).len() > 0,
        all_digit_bytes(ascii_bytes(decimal_nat(n))),
        digits_value(ascii_bytes(decimal_nat(n))) == n,
        vstd::utf8::is_ascii_chars(decimal_nat(n)),
    decreases n,
{
    let s = decimal_nat(n);
    let b = ascii_bytes(s);
    if n < 10 {
        assert(b.drop_last() =~= Seq::<u8>::empty());
        assert(digits_value(b.drop_last()) == 0);
        assert(b[0] == (n + 48) as u8);
    } else {
        lemma_decimal_nat_digits(n / 10);
        let p = decimal_nat(n / 10);
        assert(b.drop_last() =~= ascii_bytes(p));
        assert(forall|i: int| 0 <= i < p.len() ==> #[trigger] s[i] == p[i]);
        assert(b.last() == ((n % 10) + 48) as u8);
        assert forall|i: int| 0 <= i < b.len() implies is_digit_byte(#[trigger] b[i]) by {
            if i < b.len() - 1 {
                assert(b[i] == ascii_bytes(p)[i]);
            }
        }
        assert(n == (n / 10) * 10 + n % 10);
    }
}

/// The UTF-8 encoding of a decimal notation is its ASCII bytes.
pub proof fn lemma_decimal_int_bytes(i: int)
    ensures
        vstd::utf8::is_ascii_chars(decimal_int(i)),
        encode_utf8(decimal_int(i)) == ascii_bytes(decimal_int(i)),
{
    let s = decimal_int(i);
    if i < 0 {
        lemma_decimal_nat_digits((-i) as nat);
        let d = decimal_nat((-i) as nat);
        assert(forall|j: int| 0 <= j < d.len() ==> #[trigger] s[j + 1] == d[j]);
        assert(vstd::utf8::is_ascii_chars(s));
    } else {
        lemma_decimal_nat_digits(i as nat);
    }
    assert(encode_utf8(s) =~= ascii_bytes(s));
}

/// Reading back what `format_i32` writes gives the number written.
pub proof fn law_parse_reads_back_format(i: i32)
    ensures
        parse_i32_spec(encode_utf8(decimal_int(i as int))) == Some(i),
{
    lemma_decimal_int_bytes(i as int);
    let s = decimal_int(i as int);
    let b = ascii_bytes(s);
    if i < 0 {
        let d = decimal_nat((-i) as nat);
        lemma_decimal_nat_digits((-i) as nat);
        assert(b.drop_first() =~= ascii_bytes(d));
        assert(b[0] == 45u8);
    } else {
        lemma_decimal_nat_digits(i as nat);
        assert(is_digit_byte(b[0]));
    }
}

// ---------------------------------------------------------------------------
// The C-string rule
// ---------------------------------------------------------------------------

/// `p` is the first position of a zero byte in `b`.
pub open spec fn is_first_nul(b: Seq<u8>, p: int) -> bool {
    &&& 0 <= p < b.len()
    &&& b[p] == 0
    &&& forall|j: int| 0 <= j < p ==> b[j] != 0
}

/// Whether `b` holds a zero byte.
pub open spec fn has_nul(b: Seq<u8>) -> bool {
    exists|j: int| 0 <= j < b.len() && b[j] == 0
}

/// The first position of a zero byte in `b` (meaningful where `has_nul(b)`).
pub open spec fn first_nul(b: Seq<u8>) -> int {
    choose|p: int| is_first_nul(b, p)
}

/// Finds the first zero byte in the UTF-8 encoding of `s`: a string can be
/// handed to C exactly when there is none (the rule of `CString::new`).
pub fn find_nul(s: &str) -> (r: Option<usize>)
    ensures
        r is None <==> !has_nul(encode_utf8(s@)),
        r matches Some(p) ==> is_first_nul(encode_utf8(s@), p as int) && p == first_nul(
            encode_utf8(s@),
        ),
{
    let bytes = s.as_bytes();
    let mut i: usize = 0;
    while i < bytes.len()
        invariant
            i <= bytes@.len(),
            bytes@ == encode_utf8(s@),
            forall|j: int| 0 <= j < i ==> bytes@[j] != 0,
        decreases bytes@.len() - i,
    {
        if bytes[i] == 0 {
            proof {
                let b = bytes@;
                assert(is_first_nul(b, i as int));
                let q = first_nul(b);
                assert(is_first_nul(b, q));
                if q < i {
                    assert(b[q] == 0);
                } else if q > i {
                    assert(b[i as int] != 0);
                }
            }
            return Some(i);
        }
        i = i + 1;
    }
    None
}

// ---------------------------------------------------------------------------
// The first failure in a sequence of checks
// ---------------------------------------------------------------------------

/// The index of the first failed check (`Some`) in `s`, or `s.len()` when
/// every check passed.
pub open spec fn first_failure<E>(s: Seq<Option<E>>) -> int
    decreases s.len(),
{
    if s.len() == 0 {
        0
    } else if s[0] is Some {
        0
    } else {
        1 + first_failure(s.drop_first())
    }
}

/// The first failure in `s`, if any.
pub open spec fn first_error<E>(s: Seq<Option<E>>) -> Option<E> {
    let i = first_failure(s);
    if i < s.len() {
        s[i]
    } else {
        None
    }
}

/// Pins `first_failure` down from a scan that stopped at `i`.
pub proof fn lemma_first_failure<E>(s: Seq<Option<E>>, i: int)
    requires
        0 <= i <= s.len(),
        forall|j: int| 0 <= j < i ==> s[j] is None,
        i == s.len() || s[i] is Some,
    ensures
        first_failure(s) == i,
        first_error(s) == (if i < s.len() {
            s[i]
        } else {
            None
        }),
    decreases i,
{
    if i > 0 {
        let t = s.drop_first();
        assert forall|j: int| 0 <= j < i - 1 implies t[j] is None by {
            assert(t[j] == s[j + 1]);
        }
        lemma_first_failure(t, i - 1);
    }
}

/// The checks before the first failure all passed.
pub proof fn lemma_first_failure_none_before<E>(s: Seq<Option<E>>, j: int)
    requires
        0 <= j < first_failure(s),
    ensures
        j < s.len(),
        s[j] is None,
    decreases s.len(),
{
    if j > 0 {
        lemma_first_failure_none_before(s.drop_first(), j - 1);
    }
}

/// The first failure is within the checks, and failed, unless all passed.
pub proof fn lemma_first_failure_is_some<E>(s: Seq<Option<E>>)
    ensures
        0 <= first_failure(s) <= s.len(),
        first_failure(s) < s.len() ==> s[first_failure(s)] is Some,
    decreases s.len(),
{
    if s.len() > 0 && s[0] is None {
        lemma_first_failure_is_some(s.drop_first());
    }
}

} // verus!
