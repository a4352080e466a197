//! Numbers and letters in text.
use vstd::prelude::*;
use vstd::string::{StrSliceExecFns, StringExecFns};

verus! {

/// The digit that stands for `d`.
pub open spec fn digit(d: nat) -> char {
    (48 + d) as char
}

/// Whether `c` is a decimal digit.
pub open spec fn is_digit(c: char) -> bool {
    '0' <= c <= '9'
}

/// The number that the digit `c` stands for.
pub open spec fn digit_value(c: char) -> nat {
    (c as nat - 48) as nat
}

/// `n` in decimal, without leading zeros.
pub open spec fn decimal(n: nat) -> Seq<char>
    decreases n,
{
    if n < 10 {
        seq![digit(n)]
    } else {
        decimal(n / 10).push(digit(n % 10))
    }
}

/// The number that a row of digits stands for.
pub open spec fn digits_value(s: Seq<char>) -> nat
    decreases s.len(),
{
    if s.len() == 0 {
        0
    } else {
        digits_value(s.drop_last()) * 10 + digit_value(s.last())
    }
}

/// Whether `s` holds digits only.
pub open spec fn all_digits(s: Seq<char>) -> bool {
    forall|i: int| 0 <= i < s.len() ==> is_digit(#[trigger] s[i])
}

/// `s` without the plus sign that it may begin with.
pub open spec fn unsigned(s: Seq<char>) -> Seq<char> {
    if s.len() > 0 && s[0] == '+' {
        s.skip(1)
    } else {
        s
    }
}

/// The number that `s` is the text of: digits, with or without a plus sign before them, that stand
/// for a number below 2^64.
pub open spec fn parsed(s: Seq<char>) -> Option<u64> {
    let digits = unsigned(s);
    if digits.len() > 0 && all_digits(digits) && digits_value(digits) <= u64::MAX {
        Some(digits_value(digits) as u64)
    } else {
        None
    }
}

/// Characters below 128 as the bytes that they are stored as.
pub open spec fn ascii(s: Seq<char>) -> Seq<u8> {
    s.map_values(|c: char| c as u8)
}

/// Whether the character, which is no ASCII character, is a letter to Unicode.
pub uninterp spec fn alphabetic_beyond_ascii(c: char) -> bool;

/// Whether `c` is a letter.
pub open spec fn alphabetic(c: char) -> bool {
    if (c as u32) < 128 {
        'a' <= c <= 'z' || 'A' <= c <= 'Z'
    } else {
        alphabetic_beyond_ascii(c)
    }
}

/// `char::is_alphabetic` of the standard library: among the ASCII characters the letters, and
/// beyond them whatever has the property `Alphabetic` in Unicode.
#[verifier::external_body]
pub(crate) fn is_alphabetic(c: char) -> (yes: bool)
    ensures
        (c as u32) < 128 ==> yes == ('a' <= c <= 'z' || 'A' <= c <= 'Z'),
        (c as u32) >= 128 ==> yes == alphabetic_beyond_ascii(c),
{
    c.is_alphabetic()
}

/// The text of one decimal digit.
fn digit_text(d: u64) -> (text: &'static str)
    requires
        d < 10,
    ensures
        text@ == seq![digit(d as nat)],
{
    proof {
        reveal_strlit("0");
        reveal_strlit("1");
        reveal_strlit("2");
        reveal_strlit("3");
        reveal_strlit("4");
        reveal_strlit("5");
        reveal_strlit("6");
        reveal_strlit("7");
        reveal_strlit("8");
        reveal_strlit("9");
    }
    if d == 0 {
        "0"
    } else if d == 1 {
        "1"
    } else if d == 2 {
        "2"
    } else if d == 3 {
        "3"
    } else if d == 4 {
        "4"
    } else if d == 5 {
        "5"
    } else if d == 6 {
        "6"
    } else if d == 7 {
        "7"
    } else if d == 8 {
        "8"
    } else {
        "9"
    }
}

/// Writes `n` in decimal behind `text`.
pub fn push_decimal(text: &mut String, n: u64)
    ensures
        final(text)@ == old(text)@ + decimal(n as nat),
    decreases n,
{
    if n >= 10 {
        push_decimal(text, n / 10);
    }
    text.append(digit_text(n % 10));
}

/// The characters of `text`.
pub fn characters(text: &str) -> (chars: Vec<char>)
    ensures
        chars@ == text@,
{
    let mut chars: Vec<char> = Vec::new();
    let n: usize = text.unicode_len();
    let mut i: usize = 0;
    while i < n
        invariant
            i <= n == text@.len(),
            chars@ == text@.take(i as int),
        decreases n - i,
    {
        chars.push(text.get_char(i));
        i += 1;
        assert(chars@ =~= text@.take(i as int));
    }
    assert(text@.take(n as int) =~= text@);
    chars
}

/// A longer row of digits stands for no smaller number.
proof fn digits_value_grows(s: Seq<char>, n: int)
    requires
        0 <= n <= s.len(),
    ensures
        digits_value(s.take(n)) <= digits_value(s),
    decreases s.len(),
{
    if n < s.len() {
        digits_value_grows(s.drop_last(), n);
        assert(s.drop_last().take(n) =~= s.take(n));
    } else {
        assert(s.take(n) =~= s);
    }
}

/// The number that the first `end` characters are the text of, if they are.
pub fn parse_u64(chars: &Vec<char>, end: usize) -> (number: Option<u64>)
    requires
        end <= chars@.len(),
    ensures
        number == parsed(chars@.take(end as int)),
{
    let ghost s = chars@.take(end as int);
    let start: usize = if end > 0 && chars[0] == '+' {
        1
    } else {
        0
    };
    let ghost digits = unsigned(s);
    assert(digits =~= chars@.subrange(start as int, end as int));
    if start == end {
        return None;
    }
    let mut value: u64 = 0;
    let mut i: usize = start;
    assert(digits.take(0) =~= Seq::<char>::empty());
    while i < end
        invariant
            start <= i <= end <= chars@.len(),
            start < end,
            s == chars@.take(end as int),
            digits == unsigned(s),
            digits == chars@.subrange(start as int, end as int),
            value == digits_value(digits.take(i - start)),
            forall|j: int| 0 <= j < i - start ==> is_digit(#[trigger] digits[j]),
        decreases end - i,
    {
        let c: char = chars[i];
        assert(digits[i - start] == c);
        if c < '0' || c > '9' {
            assert(!is_digit(digits[i - start]));
            return None;
        }
        let d: u64 = (c as u32 - 48) as u64;
        proof {
            let longer = digits.take(i - start + 1);
            assert(longer.drop_last() =~= digits.take(i - start));
            digits_value_grows(digits, i - start + 1);
            assert(digits_value(longer) == value * 10 + d);
        }
        if value > (u64::MAX - d) / 10 {
            return None;
        }
        value = value * 10 + d;
        i += 1;
    }
    assert(digits.take(end - start) =~= digits);
    Some(value)
}

/// Writing a number in decimal gives digits that stand for it.
pub proof fn decimal_reads_back(n: nat)
    ensures
        decimal(n).len() > 0,
        all_digits(decimal(n)),
        digits_value(decimal(n)) == n,
    decreases n,
{
    if n < 10 {
        let s = decimal(n);
        assert(s.drop_last() =~= Seq::<char>::empty());
        assert(digits_value(s.drop_last()) == 0);
    } else {
        decimal_reads_back(n / 10);
        let s = decimal(n);
        assert(s.drop_last() =~= decimal(n / 10));
        assert forall|i: int| 0 <= i < s.len() implies is_digit(#[trigger] s[i]) by {
            if i < s.len() - 1 {
                assert(s[i] == decimal(n / 10)[i]);
            }
        }
    }
}

/// The decimal text of a `u64` is parsed as that number.
pub proof fn decimal_parses(n: u64)
    ensures
        parsed(decimal(n as nat)) == Some(n),
{
    decimal_reads_back(n as nat);
    assert(is_digit(decimal(n as nat)[0]));
}

/// The text of a number without its last digit is that of a tenth of it; its last digit is the
/// rest.
pub proof fn decimal_grows_by_digits(n: nat, d: nat)
    requires
        d < 10,
    ensures
        n > 0 ==> decimal(10 * n + d) == decimal(n).push((48 + d) as char),
        n == 0 ==> decimal(d) == seq![(48 + d) as char],
        n > 0 ==> decimal(n)[0] != '0',
    decreases n,
{
    if n >= 10 {
        decimal_grows_by_digits(n / 10, n % 10);
        decimal_reads_back(n / 10);
    }
}

/// A digit behind the text of a number makes it ten times as large and adds the digit, as long as
/// that is below 2^64.
pub proof fn digit_behind_a_number(s: Seq<char>, n: u64, c: char)
    requires
        parsed(s) == Some(n),
        '0' <= c <= '9',
    ensures
        10 * n + (c as int - 48) <= u64::MAX ==> parsed(s.push(c)) == Some(
            (10 * n + (c as int - 48)) as u64,
        ),
        10 * n + (c as int - 48) > u64::MAX ==> parsed(s.push(c)) is None,
{
    let digits = unsigned(s);
    let longer = unsigned(s.push(c));
    assert(longer =~= digits.push(c));
    assert(longer.drop_last() =~= digits);
    assert forall|i: int| 0 <= i < longer.len() implies is_digit(#[trigger] longer[i]) by {
        if i < digits.len() {
            assert(is_digit(digits[i]));
        }
    }
}

/// One digit is a number by itself. A plus sign in front of digits makes no difference, one by
/// itself is no number, and neither is an empty text.
pub proof fn numbers_begin_with_a_digit(c: char, s: Seq<char>)
    requires
        '0' <= c <= '9',
    ensures
        parsed(seq![c]) == Some((c as int - 48) as u64),
        parsed(seq!['+'] + (seq![c] + s)) == parsed(seq![c] + s),
        parsed(seq!['+']) is None,
        parsed(Seq::empty()) is None,
{
    assert(unsigned(seq!['+'] + (seq![c] + s)) =~= seq![c] + s);
    assert(unsigned(seq!['+']) =~= Seq::<char>::empty());
    reveal_with_fuel(digits_value, 2);
    assert(seq![c].drop_last() =~= Seq::<char>::empty());
}

/// A text with anything in it but digits, behind its first character, is no number.
pub proof fn numbers_hold_digits_only(s: Seq<char>, i: int)
    requires
        0 < i < s.len(),
        !('0' <= s[i] <= '9'),
    ensures
        parsed(s) is None,
{
    let digits = unsigned(s);
    if s[0] == '+' {
        assert(digits[i - 1] == s[i]);
        assert(!is_digit(digits[i - 1]));
    } else {
        assert(!is_digit(digits[i]));
    }
}

/// Among the ASCII characters the letters are those from `a` to `z`, small and capital.
pub proof fn ascii_letters(c: char)
    requires
        (c as u32) < 128,
    ensures
        alphabetic(c) <==> 'a' <= c <= 'z' || 'A' <= c <= 'Z',
{
}

} // verus!
