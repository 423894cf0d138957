//! Whole numbers in decimal notation: reading and writing them.

use vstd::prelude::*;
use vstd::slice::slice_subrange;

use crate::text::chars_of;

verus! {

/// Whether a character is an ASCII digit.
pub open spec fn is_digit(c: char) -> bool {
    '0' <= c <= '9'
}

/// The value of a digit.
pub open spec fn digit_value(c: char) -> int {
    c as int - '0' as int
}

/// Whether all characters are digits, and there is one.
pub open spec fn all_digits(s: Seq<char>) -> bool {
    s.len() > 0 && forall|i: int| 0 <= i < s.len() ==> is_digit(#[trigger] s[i])
}

/// The number that digits denote.
pub open spec fn value_of(s: Seq<char>) -> int
    decreases s.len(),
{
    if s.len() == 0 {
        0
    } else {
        10 * value_of(s.drop_last()) + digit_value(s.last())
    }
}

/// The number that a text denotes: digits, after an optional `+`, or an optional `-` where the
/// number may be negative.
pub open spec fn number(s: Seq<char>, signed: bool) -> Option<int> {
    if all_digits(s) {
        Some(value_of(s))
    } else if s.len() > 0 && s[0] == '+' && all_digits(s.skip(1)) {
        Some(value_of(s.skip(1)))
    } else if signed && s.len() > 0 && s[0] == '-' && all_digits(s.skip(1)) {
        Some(-value_of(s.skip(1)))
    } else {
        None
    }
}

/// The number that a text denotes, where it lies between two bounds.
pub open spec fn number_within(s: Seq<char>, low: int, high: int) -> Option<int> {
    match number(s, low < 0) {
        Some(n) => if low <= n <= high {
            Some(n)
        } else {
            None
        },
        None => None,
    }
}

/// Digits only add to a number.
proof fn lemma_value_grows(s: Seq<char>, k: int)
    requires
        0 <= k <= s.len(),
        forall|i: int| 0 <= i < s.len() ==> is_digit(#[trigger] s[i]),
    ensures
        0 <= value_of(s.take(k)) <= value_of(s),
    decreases s.len(),
{
    if k < s.len() {
        lemma_value_grows(s.drop_last(), k);
        assert(s.drop_last().take(k) =~= s.take(k));
        assert(s.last() == s[s.len() - 1]);
    } else {
        assert(s.take(k) =~= s);
        if s.len() > 0 {
            lemma_value_grows(s.drop_last(), s.len() - 1);
            assert(s.drop_last().take(s.len() - 1) =~= s.drop_last());
        }
    }
}

/// Reads digits as a number of at most `high`.
fn read_digits(chars: &[char], high: u64) -> (res: Option<u64>)
    ensures
        match res {
            Some(n) => all_digits(chars@) && n == value_of(chars@) && n <= high,
            None => !all_digits(chars@) || value_of(chars@) > high,
        },
{
    if chars.len() == 0 {
        return None;
    }
    let mut n: u64 = 0;
    let mut fits: bool = true;
    let mut i: usize = 0;
    while i < chars.len()
        invariant
            i <= chars@.len(),
            forall|j: int| 0 <= j < i ==> is_digit(#[trigger] chars@[j]),
            fits ==> n == value_of(chars@.take(i as int)) && n <= high,
            !fits ==> value_of(chars@.take(i as int)) > high,
        decreases chars@.len() - i,
    {
        let c: char = chars[i];
        if c < '0' || c > '9' {
            assert(!is_digit(chars@[i as int]));
            return None;
        }
        let ghost more = chars@.take(i + 1);
        assert(more.drop_last() =~= chars@.take(i as int));
        assert(more.last() == c);
        let d: u64 = (c as u32 - '0' as u32) as u64;
        proof {
            assert forall|j: int| 0 <= j < more.len() implies is_digit(#[trigger] more[j]) by {
                assert(more[j] == chars@[j]);
            }
            lemma_value_grows(more, i as int);
            assert(more.take(i as int) =~= chars@.take(i as int));
        }
        if fits {
            if n > high / 10 {
                fits = false;
            } else if d > high || n * 10 > high - d {
                fits = false;
            } else {
                n = n * 10 + d;
            }
        }
        i += 1;
    }
    assert(chars@.take(i as int) =~= chars@);
    if fits {
        Some(n)
    } else {
        None
    }
}

/// Reads a number that is not negative and at most `high`.
fn read_unsigned(chars: &[char], high: u64) -> (res: Option<u64>)
    ensures
        match res {
            Some(n) => number_within(chars@, 0, high as int) == Some(n as int),
            None => number_within(chars@, 0, high as int) is None,
        },
{
    if chars.len() > 0 && chars[0] == '+' {
        assert(!is_digit(chars@[0]));
        assert(chars@.skip(1) =~= chars@.subrange(1, chars@.len() as int));
        read_digits(slice_subrange(chars, 1, chars.len()), high)
    } else {
        read_digits(chars, high)
    }
}

/// Reads a `u64`.
pub fn parse_u64(text: &str) -> (res: Option<u64>)
    ensures
        match res {
            Some(n) => number_within(text@, 0, u64::MAX as int) == Some(n as int),
            None => number_within(text@, 0, u64::MAX as int) is None,
        },
{
    read_unsigned(chars_of(text).as_slice(), u64::MAX)
}

/// Reads a `u32`.
pub fn parse_u32(text: &str) -> (res: Option<u32>)
    ensures
        match res {
            Some(n) => number_within(text@, 0, u32::MAX as int) == Some(n as int),
            None => number_within(text@, 0, u32::MAX as int) is None,
        },
{
    match read_unsigned(chars_of(text).as_slice(), u32::MAX as u64) {
        Some(n) => Some(n as u32),
        None => None,
    }
}

/// Reads an `i32`.
pub fn parse_i32(text: &str) -> (res: Option<i32>)
    ensures
        match res {
            Some(n) => number_within(text@, i32::MIN as int, i32::MAX as int) == Some(n as int),
            None => number_within(text@, i32::MIN as int, i32::MAX as int) is None,
        },
{
    let owned = chars_of(text);
    let chars = owned.as_slice();
    if chars.len() > 0 && chars[0] == '-' {
        assert(!is_digit(chars@[0]));
        assert(chars@.skip(1) =~= chars@.subrange(1, chars@.len() as int));
        match read_digits(slice_subrange(chars, 1, chars.len()), 0x8000_0000) {
            Some(n) => Some((-(n as i64)) as i32),
            None => None,
        }
    } else {
        proof {
            if all_digits(chars@) {
                lemma_value_grows(chars@, 0);
            } else if chars@.len() > 0 && all_digits(chars@.skip(1)) {
                lemma_value_grows(chars@.skip(1), 0);
            }
        }
        match read_unsigned(chars, i32::MAX as u64) {
            Some(n) => Some(n as i32),
            None => None,
        }
    }
}

/// The digit that denotes a number below 10.
pub open spec fn digit(d: nat) -> char {
    ('0' as int + d) as char
}

/// A number in decimal notation, without superfluous zeros.
pub open spec fn decimal(n: nat) -> Seq<char>
    decreases n,
{
    if n < 10 {
        seq![digit(n)]
    } else {
        decimal(n / 10).push(digit(n % 10))
    }
}

/// A number in decimal notation, with `-` in front where it is negative.
pub open spec fn signed_decimal(n: int) -> Seq<char> {
    if n < 0 {
        seq!['-'] + decimal((-n) as nat)
    } else {
        decimal(n as nat)
    }
}

/// The text of one digit.
fn digit_text(d: u64) -> (res: &'static str)
    requires
        d < 10,
    ensures
        res@ == seq![digit(d as nat)],
{
    proof {
        reveal_strlit("0");
        reveal_strlit("1");
        reveal_strlit("2");
        reveal_strlit("3");
        reveal_strlit("4");
        reveal_strlit("5");
        reveal_strlit("6");
        reveal_strlit("7");
        reveal_strlit("8");
        reveal_strlit("9");
    }
    match d {
        0 => "0",
        1 => "1",
        2 => "2",
        3 => "3",
        4 => "4",
        5 => "5",
        6 => "6",
        7 => "7",
        8 => "8",
        _ => "9",
    }
}

/// Writes a number in decimal notation.
pub fn format_u64(n: u64) -> (res: String)
    ensures
        res@ == decimal(n as nat),
    decreases n,
{
    if n < 10 {
        digit_text(n).to_owned()
    } else {
        let mut out = format_u64(n / 10);
        out.append(digit_text(n % 10));
        assert(out@ =~= decimal(n as nat));
        out
    }
}

/// Writes a number that may be negative in decimal notation.
pub fn format_i32(n: i32) -> (res: String)
    ensures
        res@ == signed_decimal(n as int),
{
    if n < 0 {
        proof {
            reveal_strlit("-");
        }
        let mut out = "-".to_owned();
        out.append(format_u64((-(n as i64)) as u64).as_str());
        assert(out@ =~= signed_decimal(n as int));
        out
    } else {
        format_u64(n as u64)
    }
}

/// Decimal notation consists of digits, and denotes the number that was written.
pub proof fn law_decimal_reads_back(n: nat)
    ensures
        all_digits(decimal(n)),
        value_of(decimal(n)) == n,
        number(decimal(n), false) == Some(n as int),
    decreases n,
{
    let s = decimal(n);
    if n >= 10 {
        law_decimal_reads_back(n / 10);
        assert(s.drop_last() =~= decimal(n / 10));
        assert forall|i: int| 0 <= i < s.len() implies is_digit(#[trigger] s[i]) by {
            if i < s.len() - 1 {
                assert(s[i] == decimal(n / 10)[i]);
            }
        }
    } else {
        assert(s.drop_last() =~= Seq::<char>::empty());
        assert(value_of(s.drop_last()) == 0);
    }
}

/// Whatever number is written, the same number is read back.
pub proof fn law_signed_decimal_reads_back(n: int)
    ensures
        number(signed_decimal(n), true) == Some(n),
{
    if n < 0 {
        let s = signed_decimal(n);
        law_decimal_reads_back((-n) as nat);
        assert(s[0] == '-');
        assert(!is_digit(s[0]));
        assert(s.skip(1) =~= decimal((-n) as nat));
    } else {
        law_decimal_reads_back(n as nat);
    }
}

/// Digits denote a number, place by place: one digit its own value, and each further digit makes
/// ten times the number before, and its own value. A `+` in front changes nothing; a `-` turns
/// the sign, where the number may be negative, and otherwise makes it no number.
pub proof fn law_digits_denote_a_number(s: Seq<char>, signed: bool)
    requires
        s.len() > 0,
        forall|i: int| 0 <= i < s.len() ==> '0' <= #[trigger] s[i] <= '9',
    ensures
        number(s, signed) is Some,
        number(s, signed)->Some_0 >= 0,
        s.len() == 1 ==> number(s, signed) == Some(s[0] as int - 48),
        s.len() > 1 ==> number(s.subrange(0, s.len() - 1), signed) is Some && number(s, signed)
            == Some(
            10 * number(s.subrange(0, s.len() - 1), signed)->Some_0 + (s[s.len() - 1] as int - 48),
        ),
        number(seq!['+'] + s, signed) == number(s, signed),
        number(seq!['-'] + s, true) == Some(-number(s, true)->Some_0),
        number(seq!['-'] + s, false) is None,
{
    let less = s.subrange(0, s.len() - 1);
    assert(all_digits(s));
    assert(s.drop_last() =~= less);
    lemma_value_grows(s, 0);
    if s.len() == 1 {
        assert(s.drop_last() =~= Seq::<char>::empty());
        assert(value_of(s.drop_last()) == 0);
    } else {
        assert(all_digits(less));
    }
    let (plus, minus) = (seq!['+'] + s, seq!['-'] + s);
    assert(!is_digit(plus[0]) && !is_digit(minus[0]));
    assert(plus.skip(1) =~= s && minus.skip(1) =~= s);
}

/// Nothing but digits, one at least, after an optional sign, denotes a number; and a `-` only
/// where the number may be negative.
pub proof fn law_nothing_else_denotes_a_number(s: Seq<char>, signed: bool)
    requires
        number(s, signed) is Some,
    ensures
        s.len() > 0,
        forall|i: int| 0 < i < s.len() ==> '0' <= #[trigger] s[i] <= '9',
        '0' <= s[0] <= '9' || ((s[0] == '+' || (signed && s[0] == '-')) && s.len() > 1),
{
    if !all_digits(s) {
        assert forall|i: int| 0 < i < s.len() implies '0' <= #[trigger] s[i] <= '9' by {
            assert(s.skip(1)[i - 1] == s[i]);
        }
    }
}

/// A number is read between two bounds exactly where it lies between them, both included.
pub proof fn law_bounds_are_included(s: Seq<char>, low: int, high: int, n: int)
    ensures
        number_within(s, low, high) == Some(n) <==> number(s, low < 0) == Some(n) && low <= n
            && n <= high,
        number_within(s, low, high) is None <==> number(s, low < 0) is None || number(
            s,
            low < 0,
        )->Some_0 < low || number(s, low < 0)->Some_0 > high,
{
}

/// A number is written with no more digits than it needs, and with a sign only where it is
/// negative.
pub proof fn law_numbers_are_written_briefly(n: int)
    ensures
        n >= 0 ==> forall|i: int|
            0 <= i < signed_decimal(n).len() ==> '0' <= #[trigger] signed_decimal(n)[i] <= '9',
        n > 0 ==> signed_decimal(n)[0] != '0',
        n == 0 ==> signed_decimal(n) == seq!['0'],
        n < 0 ==> signed_decimal(n) == seq!['-'] + signed_decimal(-n),
        n >= 0 ==> decimal(n as nat) == signed_decimal(n),
{
    if n >= 0 {
        law_decimal_reads_back(n as nat);
        if n > 0 {
            lemma_first_digit(n as nat);
        }
    }
}

/// The first digit of a number is not zero.
proof fn lemma_first_digit(n: nat)
    requires
        n > 0,
    ensures
        decimal(n).len() > 0,
        decimal(n)[0] != '0',
    decreases n,
{
    if n >= 10 {
        lemma_first_digit(n / 10);
        assert(decimal(n)[0] == decimal(n / 10)[0]);
    }
}

} // verus!
