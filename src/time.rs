//! Timestamps written as `YYYY-MM-DD HH:MM:SS`, without a time zone.

use crate::money::{digit_char, digits, padded_digits, pow10};
use vstd::prelude::*;

verus! {

/// A date and a time of day, to the second.
#[derive(Clone, Copy, Debug, PartialEq, Eq, Structural)]
pub struct DateTime {
    pub year: u16,
    pub month: u8,
    pub day: u8,
    pub hour: u8,
    pub minute: u8,
    pub second: u8,
}

/// A text that is not a timestamp of the expected shape, or names no real moment.
#[derive(Debug, PartialEq, Eq)]
pub struct TimeParseError {
    pub input: String,
}

pub open spec fn is_leap_year(y: int) -> bool {
    (y % 4 == 0 && y % 100 != 0) || y % 400 == 0
}

pub open spec fn days_in_month(y: int, m: int) -> int {
    if m == 2 {
        if is_leap_year(y) { 29 } else { 28 }
    } else if m == 4 || m == 6 || m == 9 || m == 11 {
        30
    } else {
        31
    }
}

pub open spec fn is_digit(c: char) -> bool {
    '0' <= c && c <= '9'
}

pub open spec fn digit_value(c: char) -> int {
    (c as u32) as int - 48
}

/// The number written by the decimal digits `s[i..i + n]`.
pub open spec fn number_at(s: Seq<char>, i: int, n: nat) -> int
    decreases n,
{
    if n == 0 {
        0
    } else {
        number_at(s, i, (n - 1) as nat) * 10 + digit_value(s[i + n - 1])
    }
}

/// The places of the digits in `YYYY-MM-DD HH:MM:SS`.
pub open spec fn is_digit_place(i: int) -> bool {
    0 <= i < 19 && i != 4 && i != 7 && i != 10 && i != 13 && i != 16
}

/// `s` has the shape `YYYY-MM-DD HH:MM:SS`.
pub open spec fn has_timestamp_shape(s: Seq<char>) -> bool {
    &&& s.len() == 19
    &&& forall|i: int| is_digit_place(i) ==> is_digit(#[trigger] s[i])
    &&& s[4] == '-' && s[7] == '-' && s[10] == ' ' && s[13] == ':' && s[16] == ':'
}

/// The fields that a text of timestamp shape writes.
pub open spec fn fields_of(s: Seq<char>) -> DateTime {
    DateTime {
        year: number_at(s, 0, 4) as u16,
        month: number_at(s, 5, 2) as u8,
        day: number_at(s, 8, 2) as u8,
        hour: number_at(s, 11, 2) as u8,
        minute: number_at(s, 14, 2) as u8,
        second: number_at(s, 17, 2) as u8,
    }
}

/// The text with which a timestamp is written.
pub open spec fn timestamp_text(t: DateTime) -> Seq<char> {
    padded_digits(t.year as nat, 4) + seq!['-'] + padded_digits(t.month as nat, 2) + seq!['-']
        + padded_digits(t.day as nat, 2) + seq![' '] + padded_digits(t.hour as nat, 2) + seq![':']
        + padded_digits(t.minute as nat, 2) + seq![':'] + padded_digits(t.second as nat, 2)
}

impl DateTime {
    /// A real date of the calendar and a time of day.
    pub open spec fn valid(&self) -> bool {
        &&& self.year <= 9999
        &&& 1 <= self.month <= 12
        &&& 1 <= self.day <= days_in_month(self.year as int, self.month as int)
        &&& self.hour < 24 && self.minute < 60 && self.second < 60
    }

    /// Seconds counted in a mixed radix from the year down; earlier moments have smaller keys.
    pub open spec fn key_spec(&self) -> int {
        ((((self.year as int * 12 + self.month as int) * 31 + self.day as int) * 24
            + self.hour as int) * 60 + self.minute as int) * 60 + self.second as int
    }

    /// The chronological key of `key_spec`.
    pub fn key(&self) -> (r: u64)
        ensures
            r == self.key_spec(),
    {
        ((((self.year as u64 * 12 + self.month as u64) * 31 + self.day as u64) * 24
            + self.hour as u64) * 60 + self.minute as u64) * 60 + self.second as u64
    }

    /// Both moments fall on the same calendar day.
    pub open spec fn same_date(&self, other: DateTime) -> bool {
        self.year == other.year && self.month == other.month && self.day == other.day
    }

    /// The timestamp written as `YYYY-MM-DD HH:MM:SS`.
    pub fn to_text(&self) -> (r: String)
        ensures
            r@ == timestamp_text(*self),
    {
        format_timestamp(self.year, self.month, self.day, self.hour, self.minute, self.second)
    }
}

/// The one-character text of a decimal digit.
fn digit_text(d: u64) -> (r: &'static str)
    requires
        d < 10,
    ensures
        r@ == seq![digit_char(d as int)],
{
    proof {
        let t = seq!['0', '1', '2', '3', '4', '5', '6', '7', '8', '9'];
        assert(t[0] == '0' && t[1] == '1' && t[2] == '2' && t[3] == '3' && t[4] == '4');
        assert(t[5] == '5' && t[6] == '6' && t[7] == '7' && t[8] == '8' && t[9] == '9');
        reveal_strlit("0");
        reveal_strlit("1");
        reveal_strlit("2");
        reveal_strlit("3");
        reveal_strlit("4");
        reveal_strlit("5");
        reveal_strlit("6");
        reveal_strlit("7");
        reveal_strlit("8");
        reveal_strlit("9");
    }
    let r = if d == 0 {
        "0"
    } else if d == 1 {
        "1"
    } else if d == 2 {
        "2"
    } else if d == 3 {
        "3"
    } else if d == 4 {
        "4"
    } else if d == 5 {
        "5"
    } else if d == 6 {
        "6"
    } else if d == 7 {
        "7"
    } else if d == 8 {
        "8"
    } else {
        "9"
    };
    assert(r@ =~= seq![digit_char(d as int)]);
    r
}

/// Appends the decimal digits of `n` (none for zero) and returns how many there are.
fn push_digits(n: u64, out: &mut String) -> (len: u64)
    ensures
        final(out)@ == old(out)@ + digits(n as nat),
        len == digits(n as nat).len(),
        len <= n,
    decreases n,
{
    if n == 0 {
        assert(old(out)@ + digits(0) =~= old(out)@);
        0
    } else {
        let len = push_digits(n / 10, out);
        out.append(digit_text(n % 10));
        proof {
            assert(digits(n as nat) == digits((n / 10) as nat).push(digit_char((n % 10) as int)));
            assert(final(out)@ =~= old(out)@ + digits(n as nat));
        }
        assert(digits(n as nat).len() == len + 1);
        len + 1
    }
}

/// Appends `n` with zeros in front up to `width` digits.
fn push_padded(n: u64, width: u64, out: &mut String)
    ensures
        final(out)@ == old(out)@ + padded_digits(n as nat, width as nat),
{
    let mut probe = String::new();
    let len: u64 = push_digits(n, &mut probe);
    let ghost d = digits(n as nat);
    let mut k: u64 = len;
    let ghost start = out@;
    while k < width
        invariant
            len == d.len(),
            len <= k,
            k <= width || k == len,
            out@ == start + Seq::new((k - len) as nat, |i: int| '0'),
        decreases width - k,
    {
        out.append("0");
        proof {
            reveal_strlit("0");
            assert(out@ =~= start + Seq::new((k + 1 - len) as nat, |i: int| '0'));
        }
        k += 1;
    }
    let ghost before = out@;
    push_digits(n, out);
    proof {
        if d.len() < width {
            assert(out@ =~= start + (Seq::new((width - d.len()) as nat, |i: int| '0') + d));
        } else {
            assert(Seq::new((k - len) as nat, |i: int| '0') =~= Seq::<char>::empty());
            assert(out@ =~= start + d);
        }
    }
}

fn format_timestamp(year: u16, month: u8, day: u8, hour: u8, minute: u8, second: u8) -> (r: String)
    ensures
        r@ == timestamp_text(DateTime { year, month, day, hour, minute, second }),
{
    let mut out = String::new();
    push_padded(year as u64, 4, &mut out);
    out.append("-");
    push_padded(month as u64, 2, &mut out);
    out.append("-");
    push_padded(day as u64, 2, &mut out);
    out.append(" ");
    push_padded(hour as u64, 2, &mut out);
    out.append(":");
    push_padded(minute as u64, 2, &mut out);
    out.append(":");
    push_padded(second as u64, 2, &mut out);
    proof {
        reveal_strlit("-");
        reveal_strlit(" ");
        reveal_strlit(":");
    }
    assert(out@ =~= timestamp_text(DateTime { year, month, day, hour, minute, second }));
    out
}

/// The number written by `n` decimal digits of `t` from place `i`.
fn read_number(t: &str, i: usize, n: usize) -> (r: u16)
    requires
        n <= 4,
        i + n <= t@.len() <= 19,
        forall|j: int| i <= j < i + n ==> is_digit(#[trigger] t@[j]),
    ensures
        r == number_at(t@, i as int, n as nat),
        r < 10000,
{
    let mut v: u16 = 0;
    let mut k: usize = 0;
    proof {
        reveal_with_fuel(pow10, 5);
    }
    while k < n
        invariant
            k <= n <= 4,
            i + n <= t@.len() <= 19,
            forall|j: int| i <= j < i + n ==> is_digit(#[trigger] t@[j]),
            v == number_at(t@, i as int, k as nat),
            0 <= v < pow10(k as nat),
            pow10(4) == 10000,
            pow10(3) == 1000,
            pow10(2) == 100,
            pow10(1) == 10,
        decreases n - k,
    {
        let c = t.get_char(i + k);
        assert(is_digit(t@[i + k]));
        let d = (c as u32 - 48) as u16;
        assert(0 <= d <= 9);
        assert(v * 10 + d < pow10((k + 1) as nat)) by (nonlinear_arith)
            requires
                v < pow10(k as nat),
                d <= 9,
                pow10((k + 1) as nat) == 10 * pow10(k as nat),
        ;
        assert(pow10((k + 1) as nat) <= 10000);
        v = v * 10 + d;
        k += 1;
    }
    v
}

/// Reads a timestamp written as `YYYY-MM-DD HH:MM:SS`, a real date and time.
pub fn parse_date_time(t: &str) -> (r: Result<DateTime, TimeParseError>)
    ensures
        r is Ok <==> has_timestamp_shape(t@) && fields_of(t@).valid(),
        r is Ok ==> r->Ok_0 == fields_of(t@),
        r is Err ==> r->Err_0.input@ == t@,
{
    let n = t.unicode_len();
    if n != 19 {
        return Err(TimeParseError { input: t.to_owned() });
    }
    let mut i: usize = 0;
    while i < 19
        invariant
            n == t@.len() == 19,
            i <= 19,
            forall|j: int| 0 <= j < i && is_digit_place(j) ==> is_digit(#[trigger] t@[j]),
            forall|j: int| 0 <= j < i && j == 4 ==> t@[j] == '-',
            forall|j: int| 0 <= j < i && j == 7 ==> t@[j] == '-',
            forall|j: int| 0 <= j < i && j == 10 ==> t@[j] == ' ',
            forall|j: int| 0 <= j < i && j == 13 ==> t@[j] == ':',
            forall|j: int| 0 <= j < i && j == 16 ==> t@[j] == ':',
        decreases 19 - i,
    {
        let c = t.get_char(i);
        let ok = if i == 4 || i == 7 {
            c == '-'
        } else if i == 10 {
            c == ' '
        } else if i == 13 || i == 16 {
            c == ':'
        } else {
            '0' <= c && c <= '9'
        };
        if !ok {
            return Err(TimeParseError { input: t.to_owned() });
        }
        i += 1;
    }
    let year = read_number(t, 0, 4);
    let month = read_number(t, 5, 2) as u8;
    let day = read_number(t, 8, 2) as u8;
    let hour = read_number(t, 11, 2) as u8;
    let minute = read_number(t, 14, 2) as u8;
    let second = read_number(t, 17, 2) as u8;
    let dt = DateTime { year, month, day, hour, minute, second };
    let leap = (year % 4 == 0 && year % 100 != 0) || year % 400 == 0;
    let month_days: u8 = if month == 2 {
        if leap { 29 } else { 28 }
    } else if month == 4 || month == 6 || month == 9 || month == 11 {
        30
    } else {
        31
    };
    if 1 <= month && month <= 12 && 1 <= day && day <= month_days && hour < 24 && minute < 60
        && second < 60 {
        Ok(dt)
    } else {
        Err(TimeParseError { input: t.to_owned() })
    }
}

} // verus!
