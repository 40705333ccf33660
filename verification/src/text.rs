//! Numbers and words as text: decimal and hexadecimal notation, and cutting a
//! string apart at a character.

use vstd::prelude::*;
use vstd::string::*;
use vstd::utf8::*;

verus! {

/// The digit `d` as a character.
pub open spec fn digit(d: int) -> char {
    ('0' as u32 + d) as char
}

/// The number `n` in decimal notation, without leading zeros.
pub open spec fn decimal(n: nat) -> Seq<char>
    decreases n,
{
    if n < 10 {
        seq![digit(n as int)]
    } else {
        decimal(n / 10).push(digit((n % 10) as int))
    }
}

/// Whether `c` is one of the ten decimal digits.
pub open spec fn is_digit(c: char) -> bool {
    '0' as u32 <= c as u32 <= '9' as u32
}

/// The number that a string of decimal digits denotes.
pub open spec fn digits_value(s: Seq<char>) -> nat
    decreases s.len(),
{
    if s.len() == 0 {
        0
    } else {
        (digits_value(s.drop_last()) * 10 + (s.last() as u32 - '0' as u32)) as nat
    }
}

/// Whether every character is a decimal digit, and there is one.
pub open spec fn is_numeral(s: Seq<char>) -> bool {
    s.len() > 0 && forall|i: int| 0 <= i < s.len() ==> is_digit(#[trigger] s[i])
}

/// The 64-bit number that `s` denotes: decimal digits, with an optional `+`
/// in front.
pub open spec fn number(s: Seq<char>) -> Option<u64> {
    let body = if s.len() > 0 && s[0] == '+' {
        s.drop_first()
    } else {
        s
    };
    if is_numeral(body) && digits_value(body) <= u64::MAX {
        Some(digits_value(body) as u64)
    } else {
        None
    }
}

/// Append the number `n` in decimal notation.
pub fn append_decimal(out: &mut String, n: u64)
    ensures
        final(out)@ == old(out)@ + decimal(n as nat),
    decreases n,
{
    if n >= 10 {
        append_decimal(out, n / 10);
    }
    out.append(digit_text((n % 10) as u8));
    assert(out@ =~= old(out)@ + decimal(n as nat));
}

/// The number `n` in decimal notation.
pub fn decimal_text(n: u64) -> (text: String)
    ensures
        text@ == decimal(n as nat),
{
    let mut out = String::new();
    append_decimal(&mut out, n);
    assert(out@ =~= decimal(n as nat));
    out
}

/// One decimal digit as a string.
fn digit_text(d: u8) -> (text: &'static str)
    requires
        d < 10,
    ensures
        text@ == seq![digit(d as int)],
{
    proof {
        reveal_strlit("0");
        reveal_strlit("1");
        reveal_strlit("2");
        reveal_strlit("3");
        reveal_strlit("4");
        reveal_strlit("5");
        reveal_strlit("6");
        reveal_strlit("7");
        reveal_strlit("8");
        reveal_strlit("9");
    }
    let text: &'static str = match d {
        0 => "0",
        1 => "1",
        2 => "2",
        3 => "3",
        4 => "4",
        5 => "5",
        6 => "6",
        7 => "7",
        8 => "8",
        _ => "9",
    };
    assert(text@ =~= seq![digit(d as int)]);
    text
}

/// The characters of a string.
pub fn chars_of(s: &str) -> (chars: Vec<char>)
    ensures
        chars@ == s@,
{
    let mut out: Vec<char> = Vec::new();
    for c in it: s.chars()
        invariant
            it.seq() == s@,
            out@ == s@.take(it.index()),
    {
        out.push(c);
    }
    out
}

/// Whether two strings are the same.
pub fn same_text(a: &str, b: &str) -> (same: bool)
    ensures
        same == (a@ == b@),
{
    a.to_owned() == b.to_owned()
}

/// The 64-bit number that `s` denotes, if it denotes one.
pub fn parse_number(s: &[char]) -> (n: Option<u64>)
    ensures
        n == number(s@),
{
    let start: usize = if s.len() > 0 && s[0] == '+' { 1 } else { 0 };
    let ghost body = if start == 1 { s@.drop_first() } else { s@ };
    assert(body =~= s@.subrange(start as int, s@.len() as int));
    if start == s.len() {
        return None;
    }
    let mut value: u64 = 0;
    let mut i: usize = start;
    while i < s.len()
        invariant
            start <= i <= s.len(),
            start <= 1,
            body == s@.subrange(start as int, s@.len() as int),
            body.len() > 0,
            number(s@) == (if is_numeral(body) && digits_value(body) <= u64::MAX {
                Some(digits_value(body) as u64)
            } else {
                None::<u64>
            }),
            value == digits_value(body.take(i - start)),
            forall|j: int| 0 <= j < i - start ==> is_digit(#[trigger] body[j]),
        decreases s.len() - i,
    {
        let c: u32 = s[i] as u32;
        assert(s@[i as int] == body[i - start]);
        if c < 0x30 || c > 0x39 {
            assert(!is_digit(body[i - start]));
            return None;
        }
        let d: u64 = (c - 0x30) as u64;
        proof {
            assert(body.take(i - start + 1).drop_last() =~= body.take(i - start));
            if is_numeral(body) {
                lemma_digits_value_prefix(body, i - start + 1);
            }
        }
        if value > 1844674407370955161 || (value == 1844674407370955161 && d > 5) {
            return None;
        }
        value = value * 10 + d;
        i += 1;
    }
    assert(body.take(i - start) =~= body);
    Some(value)
}

/// Reading on never makes a number smaller.
proof fn lemma_digits_value_prefix(s: Seq<char>, k: int)
    requires
        0 <= k <= s.len(),
        is_numeral(s),
    ensures
        digits_value(s.take(k)) <= digits_value(s),
    decreases s.len() - k,
{
    if k < s.len() {
        assert(s.take(k + 1).drop_last() =~= s.take(k));
        lemma_digits_value_prefix(s, k + 1);
    } else {
        assert(s.take(k) =~= s);
    }
}

/// What a number is written as, it is read back from.
pub proof fn law_decimal_reads_back(n: u64)
    ensures
        number(decimal(n as nat)) == Some(n),
{
    lemma_decimal(n as nat);
}

proof fn lemma_decimal(n: nat)
    ensures
        is_numeral(decimal(n)),
        digits_value(decimal(n)) == n,
        decimal(n)[0] != '+',
    decreases n,
{
    if n < 10 {
        assert(decimal(n).drop_last() =~= Seq::<char>::empty());
        assert(digits_value(Seq::<char>::empty()) == 0);
    } else {
        lemma_decimal(n / 10);
        assert(decimal(n).drop_last() =~= decimal(n / 10));
    }
}

/// The position of the first `c` in `s`, or the length of `s` where there is
/// none.
pub open spec fn first_of(s: Seq<char>, c: char) -> int
    decreases s.len(),
{
    if s.len() == 0 || s[0] == c {
        0
    } else {
        1 + first_of(s.drop_first(), c)
    }
}

/// The first position of a character is within the string, or its end.
pub proof fn lemma_first_of_range(s: Seq<char>, c: char)
    ensures
        0 <= first_of(s, c) <= s.len(),
        forall|i: int| 0 <= i < first_of(s, c) ==> s[i] != c,
        first_of(s, c) < s.len() ==> s[first_of(s, c)] == c,
    decreases s.len(),
{
    if s.len() > 0 && s[0] != c {
        lemma_first_of_range(s.drop_first(), c);
        assert forall|i: int| 0 <= i < first_of(s, c) implies s[i] != c by {
            if i > 0 {
                assert(s[i] == s.drop_first()[i - 1]);
            }
        }
    }
}

/// The first position of a character is where it stands first.
pub proof fn lemma_first_of(s: Seq<char>, c: char, k: int)
    requires
        0 <= k <= s.len(),
        forall|i: int| 0 <= i < k ==> s[i] != c,
        k < s.len() ==> s[k] == c,
    ensures
        first_of(s, c) == k,
    decreases s.len(),
{
    if k > 0 {
        assert(s.drop_first().len() == s.len() - 1);
        lemma_first_of(s.drop_first(), c, k - 1);
    }
}

/// The position of the first `c` in `s`, or the length of `s`.
pub fn find_char(s: &[char], c: char) -> (at: usize)
    ensures
        at == first_of(s@, c),
        at <= s@.len(),
        forall|i: int| 0 <= i < at ==> s@[i] != c,
        at < s@.len() ==> s@[at as int] == c,
{
    let mut i: usize = 0;
    while i < s.len()
        invariant
            i <= s@.len(),
            forall|j: int| 0 <= j < i ==> s@[j] != c,
        decreases s@.len() - i,
    {
        if s[i] == c {
            proof {
                lemma_first_of(s@, c, i as int);
            }
            return i;
        }
        i += 1;
    }
    proof {
        lemma_first_of(s@, c, i as int);
    }
    i
}

/// Whether `s` begins with `prefix`.
pub open spec fn begins_with(s: Seq<char>, prefix: Seq<char>) -> bool {
    prefix.len() <= s.len() && s.take(prefix.len() as int) == prefix
}

/// Whether `s` begins with `prefix`.
pub fn has_prefix(s: &[char], prefix: &[char]) -> (yes: bool)
    ensures
        yes == begins_with(s@, prefix@),
{
    if prefix.len() > s.len() {
        return false;
    }
    let mut i: usize = 0;
    while i < prefix.len()
        invariant
            i <= prefix@.len() <= s@.len(),
            forall|j: int| 0 <= j < i ==> s@[j] == prefix@[j],
        decreases prefix@.len() - i,
    {
        if s[i] != prefix[i] {
            assert(s@.take(prefix@.len() as int)[i as int] != prefix@[i as int]);
            return false;
        }
        i += 1;
    }
    assert(s@.take(prefix@.len() as int) =~= prefix@);
    true
}

/// The text that bytes encode, if they are valid UTF-8. Calls
/// `std::str::from_utf8`, which succeeds on valid UTF-8 and on nothing else,
/// and then gives the text that the bytes encode.
#[verifier::external_body]
pub(crate) fn utf8_text(bytes: &[u8]) -> (text: Option<&str>)
    ensures
        text is Some <==> valid_utf8(bytes@),
        text matches Some(t) ==> t@ == decode_utf8(bytes@),
{
    std::str::from_utf8(bytes).ok()
}

/// A hexadecimal digit, in lower case.
pub open spec fn hex_digit(d: int) -> char {
    if d < 10 {
        digit(d)
    } else {
        ('a' as u32 + d - 10) as char
    }
}

/// A byte as two hexadecimal digits.
pub open spec fn hex2(b: u8) -> Seq<char> {
    seq![hex_digit(b as int / 16), hex_digit(b as int % 16)]
}

/// One hexadecimal digit as a string.
fn hex_digit_text(d: u8) -> (text: &'static str)
    requires
        d < 16,
    ensures
        text@ == seq![hex_digit(d as int)],
{
    if d < 10 {
        return digit_text(d);
    }
    proof {
        reveal_strlit("a");
        reveal_strlit("b");
        reveal_strlit("c");
        reveal_strlit("d");
        reveal_strlit("e");
        reveal_strlit("f");
    }
    let text: &'static str = match d {
        10 => "a",
        11 => "b",
        12 => "c",
        13 => "d",
        14 => "e",
        _ => "f",
    };
    assert(text@ =~= seq![hex_digit(d as int)]);
    text
}

/// Append a byte as two hexadecimal digits.
pub fn append_hex2(out: &mut String, b: u8)
    ensures
        final(out)@ == old(out)@ + hex2(b),
{
    out.append(hex_digit_text(b / 16));
    out.append(hex_digit_text(b % 16));
    assert(out@ =~= old(out)@ + hex2(b));
}

/// Decimal notation is positional: a number below ten is its digit, and another
/// digit behind a number other than 0 makes ten times the number and the digit.
pub proof fn law_decimal_is_positional(n: nat, d: nat)
    requires
        d < 10,
    ensures
        decimal(d).len() == 1 && decimal(d)[0] as u32 == 0x30 + d,
        n > 0 ==> decimal(10 * n + d).drop_last() == decimal(n),
        n > 0 ==> decimal(10 * n + d).last() as u32 == 0x30 + d,
{
    if n > 0 {
        let m = 10 * n + d;
        assert(m / 10 == n && m % 10 == d);
        assert(decimal(m).drop_last() =~= decimal(n));
    }
}

/// What denotes a number: decimal digits, at least one, with or without a `+` in
/// front, of a value below 2 to the 64th. Nothing else does.
pub proof fn law_what_denotes_a_number(s: Seq<char>, i: int)
    ensures
        number(s) is Some ==> s.len() > 0,
        number(seq!['+']) is None,
        number(s) is Some && 0 <= i < s.len() && !('0' as u32 <= s[i] as u32 <= '9' as u32) ==> i
            == 0 && s[0] == '+',
        number(s) is Some && s[0] != '+' ==> number(seq!['+'] + s) == number(s),
        number(s) is Some && s[0] != '+' ==> number(seq!['0'] + s) == number(s),
{
    assert(seq!['+'].drop_first() =~= Seq::<char>::empty());
    if number(s) is Some {
        let body = if s[0] == '+' {
            s.drop_first()
        } else {
            s
        };
        assert(is_numeral(body));
        if 0 <= i < s.len() && !('0' as u32 <= s[i] as u32 <= '9' as u32) {
            if s[0] == '+' {
                if i > 0 {
                    assert(is_digit(body[i - 1]));
                }
            } else {
                assert(is_digit(body[i]));
            }
        }
        if s[0] != '+' {
            assert((seq!['+'] + s).drop_first() =~= s);
            lemma_leading_zero(s);
            let padded = seq!['0'] + s;
            assert forall|k: int| 0 <= k < padded.len() implies is_digit(#[trigger] padded[k]) by {
                if k > 0 {
                    assert(padded[k] == s[k - 1]);
                }
            }
        }
    }
}

/// A zero in front does not count.
proof fn lemma_leading_zero(s: Seq<char>)
    ensures
        digits_value(seq!['0'] + s) == digits_value(s),
    decreases s.len(),
{
    let padded = seq!['0'] + s;
    if s.len() == 0 {
        assert(padded.drop_last() =~= s);
    } else {
        lemma_leading_zero(s.drop_last());
        assert(padded.drop_last() =~= seq!['0'] + s.drop_last());
    }
}

/// Two hexadecimal digits in lower case, the first counting sixteen times the
/// second.
pub proof fn law_hex_reads_back(b: u8)
    ensures
        hex2(b).len() == 2,
        ({
            let x = hex2(b)[0] as int;
            let y = hex2(b)[1] as int;
            let high = if x <= '9' as int {
                x - '0' as int
            } else {
                x - 'a' as int + 10
            };
            let low = if y <= '9' as int {
                y - '0' as int
            } else {
                y - 'a' as int + 10
            };
            &&& '0' as int <= x <= '9' as int || 'a' as int <= x <= 'f' as int
            &&& '0' as int <= y <= '9' as int || 'a' as int <= y <= 'f' as int
            &&& 16 * high + low == b
        }),
{
}

/// Another digit behind a number makes ten times the number and the digit, as
/// long as that is below 2 to the 64th; no number is read where it is not.
pub proof fn law_another_digit_counts_tenfold(s: Seq<char>, n: u64, c: char)
    requires
        number(s) == Some(n),
        '0' as u32 <= c as u32 <= '9' as u32,
    ensures
        ({
            let more = 10 * n + (c as u32 - '0' as u32);
            number(s.push(c)) == (if more <= 0xffff_ffff_ffff_ffff {
                Some(more as u64)
            } else {
                None
            })
        }),
{
    let longer = s.push(c);
    let body = if s[0] == '+' {
        s.drop_first()
    } else {
        s
    };
    let long_body = if longer[0] == '+' {
        longer.drop_first()
    } else {
        longer
    };
    assert(long_body =~= body.push(c));
    assert(long_body.drop_last() =~= body);
    assert(is_numeral(body));
    assert forall|i: int| 0 <= i < long_body.len() implies is_digit(#[trigger] long_body[i]) by {
        if i < body.len() {
            assert(is_digit(body[i]));
        }
    }
    assert(digits_value(body) == n);
}

} // verus!
