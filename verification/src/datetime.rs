//! Canonical timestamp codec for the storage representation.
//!
//! Timestamps are written as `YYYY-MM-DDTHH:MM:SS.mmmZ`: an ISO-8601-like
//! naive local timestamp with fractional seconds and a trailing literal `Z`
//! (the `Z` is a fixed character of the pattern, not a time-zone marker).
//! Parsing accepts zero to three fractional digits; formatting always emits
//! exactly three.

use vstd::prelude::*;

verus! {

/// A naive calendar timestamp with millisecond precision.
#[derive(Clone, Copy, PartialEq, Eq, Structural, Debug)]
pub struct DateTime {
    pub year: u16,
    pub month: u8,
    pub day: u8,
    pub hour: u8,
    pub minute: u8,
    pub second: u8,
    pub milli: u16,
}

/// Malformed timestamp text, reported to the caller instead of aborting.
#[derive(Clone, Copy, PartialEq, Eq, Structural, Debug)]
pub enum ParseError {
    Malformed,
}

pub open spec fn leap_year(y: int) -> bool {
    y % 4 == 0 && (y % 100 != 0 || y % 400 == 0)
}

pub open spec fn days_in_month(y: int, m: int) -> int {
    if m == 2 {
        if leap_year(y) {
            29
        } else {
            28
        }
    } else if m == 4 || m == 6 || m == 9 || m == 11 {
        30
    } else {
        31
    }
}

impl DateTime {
    /// A value the codec can round-trip: real calendar fields, four-digit year.
    pub open spec fn valid(self) -> bool {
        &&& self.year <= 9999
        &&& 1 <= self.month <= 12
        &&& 1 <= self.day <= days_in_month(self.year as int, self.month as int)
        &&& self.hour < 24
        &&& self.minute < 60
        &&& self.second < 60
        &&& self.milli < 1000
    }

    /// Total chronological order, as a single integer: later timestamps have
    /// strictly larger keys, and equal keys mean equal field values.
    pub open spec fn key(self) -> int {
        (((((self.year * 13 + self.month) * 32 + self.day) * 24 + self.hour) * 60 + self.minute)
            * 60 + self.second) * 1000 + self.milli
    }

    /// The chronological key, computed executably.
    pub fn timestamp_key(&self) -> (r: u64)
        requires
            self.valid(),
        ensures
            r == self.key(),
    {
        (((((self.year as u64 * 13 + self.month as u64) * 32 + self.day as u64) * 24
            + self.hour as u64) * 60 + self.minute as u64) * 60 + self.second as u64) * 1000
            + self.milli as u64
    }

    /// Whether the fields name a real calendar instant the codec can
    /// round-trip.
    pub fn check_valid(&self) -> (r: bool)
        ensures
            r == self.valid(),
    {
        self.year <= 9999 && 1 <= self.month && self.month <= 12 && 1 <= self.day && self.day
            <= days_in_month_exec(self.year, self.month) && self.hour < 24 && self.minute < 60
            && self.second < 60 && self.milli < 1000
    }

    /// Chronological comparison: `self` is at or before `other`.
    pub fn le(&self, other: &DateTime) -> (r: bool)
        requires
            self.valid(),
            other.valid(),
        ensures
            r == (self.key() <= other.key()),
    {
        self.timestamp_key() <= other.timestamp_key()
    }
}

pub open spec fn is_digit(c: char) -> bool {
    c == '0' || c == '1' || c == '2' || c == '3' || c == '4' || c == '5' || c == '6' || c == '7'
        || c == '8' || c == '9'
}

pub open spec fn digit_val(c: char) -> int {
    if c == '0' {
        0
    } else if c == '1' {
        1
    } else if c == '2' {
        2
    } else if c == '3' {
        3
    } else if c == '4' {
        4
    } else if c == '5' {
        5
    } else if c == '6' {
        6
    } else if c == '7' {
        7
    } else if c == '8' {
        8
    } else {
        9
    }
}

pub open spec fn digit_char(d: int) -> char {
    if d == 0 {
        '0'
    } else if d == 1 {
        '1'
    } else if d == 2 {
        '2'
    } else if d == 3 {
        '3'
    } else if d == 4 {
        '4'
    } else if d == 5 {
        '5'
    } else if d == 6 {
        '6'
    } else if d == 7 {
        '7'
    } else if d == 8 {
        '8'
    } else {
        '9'
    }
}

pub open spec fn num2(s: Seq<char>, i: int) -> int {
    digit_val(s[i]) * 10 + digit_val(s[i + 1])
}

pub open spec fn num4(s: Seq<char>, i: int) -> int {
    digit_val(s[i]) * 1000 + digit_val(s[i + 1]) * 100 + digit_val(s[i + 2]) * 10 + digit_val(
        s[i + 3],
    )
}

/// The fractional part and closing `Z`, by total text length:
/// no fraction, or a dot followed by one, two or three digits.
pub open spec fn frac_ok(s: Seq<char>) -> bool {
    let n = s.len() as int;
    if n == 20 {
        s[19] == 'Z'
    } else if n == 22 {
        s[19] == '.' && is_digit(s[20]) && s[21] == 'Z'
    } else if n == 23 {
        s[19] == '.' && is_digit(s[20]) && is_digit(s[21]) && s[22] == 'Z'
    } else if n == 24 {
        s[19] == '.' && is_digit(s[20]) && is_digit(s[21]) && is_digit(s[22]) && s[23] == 'Z'
    } else {
        false
    }
}

/// Milliseconds denoted by the fractional digits, shorter fractions
/// standing for their zero-padded three-digit form.
pub open spec fn frac_millis(s: Seq<char>) -> int {
    let n = s.len() as int;
    if n == 20 {
        0
    } else if n == 22 {
        digit_val(s[20]) * 100
    } else if n == 23 {
        digit_val(s[20]) * 100 + digit_val(s[21]) * 10
    } else {
        digit_val(s[20]) * 100 + digit_val(s[21]) * 10 + digit_val(s[22])
    }
}

/// The timestamp denoted by well-formed timestamp text.
pub open spec fn fields_of_text(s: Seq<char>) -> DateTime {
    DateTime {
        year: num4(s, 0) as u16,
        month: num2(s, 5) as u8,
        day: num2(s, 8) as u8,
        hour: num2(s, 11) as u8,
        minute: num2(s, 14) as u8,
        second: num2(s, 17) as u8,
        milli: frac_millis(s) as u16,
    }
}

/// Exactly the texts the codec accepts: the fixed pattern with digits and
/// separators in place, and field values that name a real calendar instant.
pub open spec fn is_timestamp_text(s: Seq<char>) -> bool {
    &&& (s.len() == 20 || s.len() == 22 || s.len() == 23 || s.len() == 24)
    &&& is_digit(s[0]) && is_digit(s[1]) && is_digit(s[2]) && is_digit(s[3])
    &&& s[4] == '-'
    &&& is_digit(s[5]) && is_digit(s[6])
    &&& s[7] == '-'
    &&& is_digit(s[8]) && is_digit(s[9])
    &&& s[10] == 'T'
    &&& is_digit(s[11]) && is_digit(s[12])
    &&& s[13] == ':'
    &&& is_digit(s[14]) && is_digit(s[15])
    &&& s[16] == ':'
    &&& is_digit(s[17]) && is_digit(s[18])
    &&& frac_ok(s)
    &&& fields_of_text(s).valid()
}

fn read_digit(c: char) -> (r: Option<u8>)
    ensures
        r is Some <==> is_digit(c),
        r is Some ==> r->0 == digit_val(c),
{
    match c {
        '0' => Some(0),
        '1' => Some(1),
        '2' => Some(2),
        '3' => Some(3),
        '4' => Some(4),
        '5' => Some(5),
        '6' => Some(6),
        '7' => Some(7),
        '8' => Some(8),
        '9' => Some(9),
        _ => None,
    }
}

fn read_num2(s: &str, i: usize) -> (r: Option<u8>)
    requires
        i + 2 <= s@.len(),
        s@.len() <= usize::MAX,
    ensures
        r is Some <==> is_digit(s@[i as int]) && is_digit(s@[i + 1]),
        r is Some ==> r->0 == num2(s@, i as int),
{
    let d0 = match read_digit(s.get_char(i)) {
        Some(d) => d,
        None => {
            return None;
        },
    };
    let d1 = match read_digit(s.get_char(i + 1)) {
        Some(d) => d,
        None => {
            return None;
        },
    };
    Some(d0 * 10 + d1)
}

fn read_num4(s: &str, i: usize) -> (r: Option<u16>)
    requires
        i + 4 <= s@.len(),
        s@.len() <= usize::MAX,
    ensures
        r is Some <==> is_digit(s@[i as int]) && is_digit(s@[i + 1]) && is_digit(s@[i + 2])
            && is_digit(s@[i + 3]),
        r is Some ==> r->0 == num4(s@, i as int),
{
    let hi = match read_num2(s, i) {
        Some(d) => d,
        None => {
            return None;
        },
    };
    let lo = match read_num2(s, i + 2) {
        Some(d) => d,
        None => {
            return None;
        },
    };
    Some(hi as u16 * 100 + lo as u16)
}

fn days_in_month_exec(y: u16, m: u8) -> (r: u8)
    ensures
        r == days_in_month(y as int, m as int),
{
    if m == 2 {
        if y % 4 == 0 && (y % 100 != 0 || y % 400 == 0) {
            29
        } else {
            28
        }
    } else if m == 4 || m == 6 || m == 9 || m == 11 {
        30
    } else {
        31
    }
}

/// Parse timestamp text in the storage pattern. Succeeds exactly on
/// well-formed text, and then returns the timestamp the text denotes.
pub fn parse_timestamp(s: &str) -> (r: Result<DateTime, ParseError>)
    ensures
        r is Ok <==> is_timestamp_text(s@),
        r is Ok ==> r->Ok_0 == fields_of_text(s@) && r->Ok_0.valid(),
{
    let n = s.unicode_len();
    if n != 20 && n != 22 && n != 23 && n != 24 {
        return Err(ParseError::Malformed);
    }
    let year = match read_num4(s, 0) {
        Some(v) => v,
        None => {
            return Err(ParseError::Malformed);
        },
    };
    let month = match read_num2(s, 5) {
        Some(v) => v,
        None => {
            return Err(ParseError::Malformed);
        },
    };
    let day = match read_num2(s, 8) {
        Some(v) => v,
        None => {
            return Err(ParseError::Malformed);
        },
    };
    let hour = match read_num2(s, 11) {
        Some(v) => v,
        None => {
            return Err(ParseError::Malformed);
        },
    };
    let minute = match read_num2(s, 14) {
        Some(v) => v,
        None => {
            return Err(ParseError::Malformed);
        },
    };
    let second = match read_num2(s, 17) {
        Some(v) => v,
        None => {
            return Err(ParseError::Malformed);
        },
    };
    if s.get_char(4) != '-' || s.get_char(7) != '-' || s.get_char(10) != 'T' || s.get_char(13)
        != ':' || s.get_char(16) != ':' {
        return Err(ParseError::Malformed);
    }
    let milli: u16;
    if n == 20 {
        if s.get_char(19) != 'Z' {
            return Err(ParseError::Malformed);
        }
        milli = 0;
    } else {
        if s.get_char(19) != '.' || s.get_char(n - 1) != 'Z' {
            return Err(ParseError::Malformed);
        }
        let d0 = match read_digit(s.get_char(20)) {
            Some(d) => d,
            None => {
                return Err(ParseError::Malformed);
            },
        };
        if n == 22 {
            milli = d0 as u16 * 100;
        } else {
            let d1 = match read_digit(s.get_char(21)) {
                Some(d) => d,
                None => {
                    return Err(ParseError::Malformed);
                },
            };
            if n == 23 {
                milli = d0 as u16 * 100 + d1 as u16 * 10;
            } else {
                let d2 = match read_digit(s.get_char(22)) {
                    Some(d) => d,
                    None => {
                        return Err(ParseError::Malformed);
                    },
                };
                milli = d0 as u16 * 100 + d1 as u16 * 10 + d2 as u16;
            }
        }
    }
    if !(1 <= month && month <= 12) {
        return Err(ParseError::Malformed);
    }
    if !(1 <= day && day <= days_in_month_exec(year, month)) {
        return Err(ParseError::Malformed);
    }
    if !(hour < 24 && minute < 60 && second < 60) {
        return Err(ParseError::Malformed);
    }
    let dt = DateTime { year, month, day, hour, minute, second, milli };
    assert(dt == fields_of_text(s@));
    Ok(dt)
}

pub open spec fn two_digit_chars(v: int) -> Seq<char> {
    seq![digit_char(v / 10), digit_char(v % 10)]
}

pub open spec fn three_digit_chars(v: int) -> Seq<char> {
    seq![digit_char(v / 100)] + two_digit_chars(v % 100)
}

pub open spec fn four_digit_chars(v: int) -> Seq<char> {
    two_digit_chars(v / 100) + two_digit_chars(v % 100)
}

/// Canonical text of a timestamp: the fixed pattern with a three-digit
/// fraction, each field zero-padded to its width.
pub open spec fn format_spec(dt: DateTime) -> Seq<char> {
    four_digit_chars(dt.year as int) + seq!['-'] + two_digit_chars(dt.month as int) + seq!['-']
        + two_digit_chars(dt.day as int) + seq!['T'] + two_digit_chars(dt.hour as int) + seq![':']
        + two_digit_chars(dt.minute as int) + seq![':'] + two_digit_chars(dt.second as int)
        + seq!['.'] + three_digit_chars(dt.milli as int) + seq!['Z']
}

fn digit_char_exec(d: u16) -> (r: char)
    requires
        d <= 9,
    ensures
        r == digit_char(d as int),
{
    match d {
        0 => '0',
        1 => '1',
        2 => '2',
        3 => '3',
        4 => '4',
        5 => '5',
        6 => '6',
        7 => '7',
        8 => '8',
        _ => '9',
    }
}

fn push_digit(out: &mut String, d: u16)
    requires
        d <= 9,
    ensures
        final(out)@ == old(out)@.push(digit_char(d as int)),
{
    let c = digit_char_exec(d);
    let s: &str = match c {
        '0' => "0",
        '1' => "1",
        '2' => "2",
        '3' => "3",
        '4' => "4",
        '5' => "5",
        '6' => "6",
        '7' => "7",
        '8' => "8",
        _ => "9",
    };
    proof {
        reveal_strlit("0");
        reveal_strlit("1");
        reveal_strlit("2");
        reveal_strlit("3");
        reveal_strlit("4");
        reveal_strlit("5");
        reveal_strlit("6");
        reveal_strlit("7");
        reveal_strlit("8");
        reveal_strlit("9");
    }
    out.append(s);
    proof {
        assert(final(out)@ =~= old(out)@.push(digit_char(d as int)));
    }
}

fn push_sep(out: &mut String, c: char)
    requires
        c == '-' || c == 'T' || c == ':' || c == '.' || c == 'Z',
    ensures
        final(out)@ == old(out)@.push(c),
{
    let s: &str = match c {
        '-' => "-",
        'T' => "T",
        ':' => ":",
        '.' => ".",
        _ => "Z",
    };
    proof {
        reveal_strlit("-");
        reveal_strlit("T");
        reveal_strlit(":");
        reveal_strlit(".");
        reveal_strlit("Z");
    }
    out.append(s);
    proof {
        assert(final(out)@ =~= old(out)@.push(c));
    }
}

fn push_num2(out: &mut String, v: u16)
    requires
        v <= 99,
    ensures
        final(out)@ == old(out)@ + two_digit_chars(v as int),
{
    push_digit(out, v / 10);
    push_digit(out, v % 10);
    proof {
        assert(final(out)@ =~= old(out)@ + two_digit_chars(v as int));
    }
}

fn push_num3(out: &mut String, v: u16)
    requires
        v <= 999,
    ensures
        final(out)@ == old(out)@ + three_digit_chars(v as int),
{
    push_digit(out, v / 100);
    push_num2(out, v % 100);
    proof {
        assert(final(out)@ =~= old(out)@ + three_digit_chars(v as int));
    }
}

fn push_num4(out: &mut String, v: u16)
    requires
        v <= 9999,
    ensures
        final(out)@ == old(out)@ + four_digit_chars(v as int),
{
    push_num2(out, v / 100);
    push_num2(out, v % 100);
    proof {
        assert(final(out)@ =~= old(out)@ + four_digit_chars(v as int));
    }
}

fn push_sep_seq(out: &mut String, c: char)
    requires
        c == '-' || c == 'T' || c == ':' || c == '.' || c == 'Z',
    ensures
        final(out)@ == old(out)@ + seq![c],
{
    push_sep(out, c);
    proof {
        assert(final(out)@ =~= old(out)@ + seq![c]);
    }
}

/// Format a timestamp in the canonical storage pattern.
pub fn format_timestamp(dt: &DateTime) -> (r: String)
    requires
        dt.valid(),
    ensures
        r@ == format_spec(*dt),
{
    let mut out = String::new();
    push_num4(&mut out, dt.year);
    proof {
        assert(out@ =~= four_digit_chars(dt.year as int));
    }
    push_sep_seq(&mut out, '-');
    push_num2(&mut out, dt.month as u16);
    push_sep_seq(&mut out, '-');
    push_num2(&mut out, dt.day as u16);
    push_sep_seq(&mut out, 'T');
    push_num2(&mut out, dt.hour as u16);
    push_sep_seq(&mut out, ':');
    push_num2(&mut out, dt.minute as u16);
    push_sep_seq(&mut out, ':');
    push_num2(&mut out, dt.second as u16);
    push_sep_seq(&mut out, '.');
    push_num3(&mut out, dt.milli);
    push_sep_seq(&mut out, 'Z');
    out
}

/// Law: the codec round-trips. Formatting any valid timestamp yields
/// well-formed timestamp text, and parsing that text yields the same
/// timestamp back.
proof fn lemma_split_two_digits(v: int)
    requires
        0 <= v <= 99,
    ensures
        is_digit(two_digit_chars(v)[0]),
        is_digit(two_digit_chars(v)[1]),
        digit_val(two_digit_chars(v)[0]) * 10 + digit_val(two_digit_chars(v)[1]) == v,
        two_digit_chars(v).len() == 2,
{
    assert(v == (v / 10) * 10 + v % 10 && 0 <= v / 10 <= 9 && 0 <= v % 10 <= 9)
        by (nonlinear_arith)
        requires
            0 <= v <= 99,
    ;
}

proof fn lemma_split_hundreds(v: int)
    requires
        0 <= v <= 9999,
    ensures
        v == (v / 100) * 100 + v % 100,
        0 <= v / 100 <= 99,
        0 <= v % 100 <= 99,
{
    assert(v == (v / 100) * 100 + v % 100 && 0 <= v / 100 <= 99 && 0 <= v % 100 <= 99)
        by (nonlinear_arith)
        requires
            0 <= v <= 9999,
    ;
}

proof fn lemma_digit_char_val(c: char)
    requires
        is_digit(c),
    ensures
        digit_char(digit_val(c)) == c,
{
}

proof fn lemma_join_two_digits(a: int, b: int)
    requires
        0 <= a <= 9,
        0 <= b <= 9,
    ensures
        (a * 10 + b) / 10 == a,
        (a * 10 + b) % 10 == b,
{
    assert((a * 10 + b) / 10 == a && (a * 10 + b) % 10 == b) by (nonlinear_arith)
        requires
            0 <= a <= 9 && 0 <= b <= 9,
    ;
}

proof fn lemma_join_hundreds(q: int, r: int)
    requires
        0 <= q <= 99,
        0 <= r <= 99,
    ensures
        (q * 100 + r) / 100 == q,
        (q * 100 + r) % 100 == r,
{
    assert((q * 100 + r) / 100 == q && (q * 100 + r) % 100 == r) by (nonlinear_arith)
        requires
            0 <= q <= 99 && 0 <= r <= 99,
    ;
}

/// Law: parsing canonical text and formatting the result gives the text
/// back — a stored timestamp in the canonical pattern survives a decode
/// and re-encode unchanged.
#[verifier::rlimit(100)]
pub proof fn lemma_parse_format_round_trip(s: Seq<char>)
    requires
        is_timestamp_text(s),
        s.len() == 24,
    ensures
        format_spec(fields_of_text(s)) == s,
{
    let dt = fields_of_text(s);
    let y = dt.year as int;
    let ms = dt.milli as int;
    assert(y == (digit_val(s[0]) * 10 + digit_val(s[1])) * 100 + (digit_val(s[2]) * 10 + digit_val(
        s[3],
    )));
    lemma_join_hundreds(
        digit_val(s[0]) * 10 + digit_val(s[1]),
        digit_val(s[2]) * 10 + digit_val(s[3]),
    );
    lemma_join_two_digits(digit_val(s[0]), digit_val(s[1]));
    lemma_join_two_digits(digit_val(s[2]), digit_val(s[3]));
    lemma_join_two_digits(digit_val(s[5]), digit_val(s[6]));
    lemma_join_two_digits(digit_val(s[8]), digit_val(s[9]));
    lemma_join_two_digits(digit_val(s[11]), digit_val(s[12]));
    lemma_join_two_digits(digit_val(s[14]), digit_val(s[15]));
    lemma_join_two_digits(digit_val(s[17]), digit_val(s[18]));
    assert(ms == digit_val(s[20]) * 100 + (digit_val(s[21]) * 10 + digit_val(s[22])));
    lemma_join_hundreds(digit_val(s[20]), digit_val(s[21]) * 10 + digit_val(s[22]));
    lemma_join_two_digits(digit_val(s[21]), digit_val(s[22]));
    lemma_digit_char_val(s[0]);
    lemma_digit_char_val(s[1]);
    lemma_digit_char_val(s[2]);
    lemma_digit_char_val(s[3]);
    lemma_digit_char_val(s[5]);
    lemma_digit_char_val(s[6]);
    lemma_digit_char_val(s[8]);
    lemma_digit_char_val(s[9]);
    lemma_digit_char_val(s[11]);
    lemma_digit_char_val(s[12]);
    lemma_digit_char_val(s[14]);
    lemma_digit_char_val(s[15]);
    lemma_digit_char_val(s[17]);
    lemma_digit_char_val(s[18]);
    lemma_digit_char_val(s[20]);
    lemma_digit_char_val(s[21]);
    lemma_digit_char_val(s[22]);
    assert(two_digit_chars(y / 100) =~= seq![s[0], s[1]]);
    assert(two_digit_chars(y % 100) =~= seq![s[2], s[3]]);
    assert(two_digit_chars(dt.month as int) =~= seq![s[5], s[6]]);
    assert(two_digit_chars(dt.day as int) =~= seq![s[8], s[9]]);
    assert(two_digit_chars(dt.hour as int) =~= seq![s[11], s[12]]);
    assert(two_digit_chars(dt.minute as int) =~= seq![s[14], s[15]]);
    assert(two_digit_chars(dt.second as int) =~= seq![s[17], s[18]]);
    assert(two_digit_chars(ms % 100) =~= seq![s[21], s[22]]);
    assert(three_digit_chars(ms) =~= seq![s[20], s[21], s[22]]);
    assert(four_digit_chars(y) =~= seq![s[0], s[1], s[2], s[3]]);
    assert(format_spec(dt) =~= s);
}

/// Law: the codec round-trips. Formatting any valid timestamp yields
/// well-formed timestamp text, and parsing that text yields the same
/// timestamp back.
#[verifier::rlimit(100)]
pub proof fn lemma_format_parse_round_trip(dt: DateTime)
    requires
        dt.valid(),
    ensures
        is_timestamp_text(format_spec(dt)),
        fields_of_text(format_spec(dt)) == dt,
{
    let s = format_spec(dt);
    let y = dt.year as int;
    let ms = dt.milli as int;
    lemma_split_hundreds(y);
    lemma_split_two_digits(y / 100);
    lemma_split_two_digits(y % 100);
    lemma_split_two_digits(dt.month as int);
    lemma_split_two_digits(dt.day as int);
    lemma_split_two_digits(dt.hour as int);
    lemma_split_two_digits(dt.minute as int);
    lemma_split_two_digits(dt.second as int);
    lemma_split_hundreds(ms);
    assert(0 <= ms / 100 <= 9);
    lemma_split_two_digits(ms % 100);
    assert(s.len() == 24);
    assert(num4(s, 0) == y);
    assert(num2(s, 5) == dt.month as int);
    assert(num2(s, 8) == dt.day as int);
    assert(num2(s, 11) == dt.hour as int);
    assert(num2(s, 14) == dt.minute as int);
    assert(num2(s, 17) == dt.second as int);
    assert(frac_millis(s) == ms);
    assert(fields_of_text(s) == dt);
}

} // verus!
