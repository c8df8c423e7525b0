use vstd::prelude::*;
use vstd::string::{StrSliceExecFns, StringExecFns};

verus! {

// A wall-clock instant is carried through the pipeline as microseconds since
// the Unix epoch. Rendering a record's timestamp needs the civil calendar
// fields of that instant; the spec functions below define them by walking
// years and months from 1970, and `LogDate::from_micros` computes them.

pub open spec fn is_leap_year(y: int) -> bool {
    (y % 4 == 0 && y % 100 != 0) || y % 400 == 0
}

pub open spec fn days_in_year(y: int) -> int {
    if is_leap_year(y) {
        366
    } else {
        365
    }
}

pub open spec fn days_in_month(y: int, m: int) -> int {
    if m == 2 {
        if is_leap_year(y) {
            29
        } else {
            28
        }
    } else if m == 4 || m == 6 || m == 9 || m == 11 {
        30
    } else {
        31
    }
}

/// The calendar year that day `d` (counted from day 0 of year `y`) falls in.
pub open spec fn year_of_days(y: int, d: int) -> int
    decreases d,
    when d >= 0
{
    if d < days_in_year(y) {
        y
    } else {
        year_of_days(y + 1, d - days_in_year(y))
    }
}

/// The zero-based day within that year.
pub open spec fn day_of_year(y: int, d: int) -> int
    decreases d,
    when d >= 0
{
    if d < days_in_year(y) {
        d
    } else {
        day_of_year(y + 1, d - days_in_year(y))
    }
}

/// The month (1..=12) that zero-based day `d` of year `y` falls in, starting
/// the walk at month `m`.
pub open spec fn month_of(y: int, m: int, d: int) -> int
    decreases 12 - m,
{
    if m >= 12 || d < days_in_month(y, m) {
        m
    } else {
        month_of(y, m + 1, d - days_in_month(y, m))
    }
}

/// The zero-based day within that month.
pub open spec fn day_of_month(y: int, m: int, d: int) -> int
    decreases 12 - m,
{
    if m >= 12 || d < days_in_month(y, m) {
        d
    } else {
        day_of_month(y, m + 1, d - days_in_month(y, m))
    }
}

/// Civil calendar fields of an instant, microsecond precision.
#[derive(Clone, Copy, Debug, PartialEq, Eq, Structural)]
pub struct LogDate {
    pub year: u64,
    pub mon: u64,
    pub day: u64,
    pub hour: u64,
    pub min: u64,
    pub sec: u64,
    pub micro: u64,
}

/// The calendar fields denoted by `micros` microseconds since the Unix epoch.
pub open spec fn spec_date(micros: u64) -> LogDate {
    let days = micros as int / 86_400_000_000;
    let sod = (micros as int / 1_000_000) % 86_400;
    let y = year_of_days(1970, days);
    let dy = day_of_year(1970, days);
    let m = month_of(y, 1, dy);
    let dm = day_of_month(y, 1, dy);
    LogDate {
        year: y as u64,
        mon: m as u64,
        day: (dm + 1) as u64,
        hour: (sod / 3600) as u64,
        min: ((sod / 60) % 60) as u64,
        sec: (sod % 60) as u64,
        micro: (micros as int % 1_000_000) as u64,
    }
}

fn days_in_year_x(y: u64) -> (r: u64)
    ensures
        r as int == days_in_year(y as int),
{
    if (y % 4 == 0 && y % 100 != 0) || y % 400 == 0 {
        366
    } else {
        365
    }
}

fn days_in_month_x(y: u64, m: u64) -> (r: u64)
    ensures
        r as int == days_in_month(y as int, m as int),
{
    if m == 2 {
        if (y % 4 == 0 && y % 100 != 0) || y % 400 == 0 {
            29
        } else {
            28
        }
    } else if m == 4 || m == 6 || m == 9 || m == 11 {
        30
    } else {
        31
    }
}

impl LogDate {
    /// Decompose an epoch instant into its calendar fields.
    pub fn from_micros(micros: u64) -> (d: LogDate)
        ensures
            d == spec_date(micros),
    {
        let days: u64 = micros / 86_400_000_000;
        let sod: u64 = (micros / 1_000_000) % 86_400;
        proof {
            vstd::arithmetic::div_mod::lemma_div_is_ordered(
                micros as int,
                u64::MAX as int,
                86_400_000_000,
            );
        }
        let mut y: u64 = 1970;
        let mut rem: u64 = days;
        while rem >= days_in_year_x(y)
            invariant
                year_of_days(y as int, rem as int) == year_of_days(1970, days as int),
                day_of_year(y as int, rem as int) == day_of_year(1970, days as int),
                rem <= days,
                1970 <= y,
                y as int <= 1970 + days as int - rem as int,
                days as int <= u64::MAX as int / 86_400_000_000,
            decreases rem,
        {
            let n = days_in_year_x(y);
            rem = rem - n;
            y = y + 1;
        }
        let mut m: u64 = 1;
        let mut dm: u64 = rem;
        while m < 12 && dm >= days_in_month_x(y, m)
            invariant
                1 <= m <= 12,
                dm <= rem,
                month_of(y as int, m as int, dm as int) == month_of(y as int, 1, rem as int),
                day_of_month(y as int, m as int, dm as int) == day_of_month(
                    y as int,
                    1,
                    rem as int,
                ),
            decreases 12 - m,
        {
            let n = days_in_month_x(y, m);
            dm = dm - n;
            m = m + 1;
        }
        LogDate {
            year: y,
            mon: m,
            day: dm + 1,
            hour: sod / 3600,
            min: (sod / 60) % 60,
            sec: sod % 60,
            micro: micros % 1_000_000,
        }
    }
}

// ---------------------------------------------------------------------------
// Decimal rendering.

pub open spec fn digit_char(d: int) -> char {
    if d == 0 {
        '0'
    } else if d == 1 {
        '1'
    } else if d == 2 {
        '2'
    } else if d == 3 {
        '3'
    } else if d == 4 {
        '4'
    } else if d == 5 {
        '5'
    } else if d == 6 {
        '6'
    } else if d == 7 {
        '7'
    } else if d == 8 {
        '8'
    } else {
        '9'
    }
}

/// The decimal digits of `n`, left-padded with zeros to at least `width`
/// characters.
pub open spec fn dec_seq(n: int, width: int) -> Seq<char>
    decreases n, width,
    when n >= 0
{
    if n <= 9 && width <= 1 {
        seq![digit_char(n)]
    } else {
        dec_seq(n / 10, if width <= 1 { 1int } else { width - 1 }).push(digit_char(n % 10))
    }
}

fn digit_str(d: u64) -> (r: &'static str)
    requires
        d <= 9,
    ensures
        r@ == seq![digit_char(d as int)],
{
    proof {
        reveal_strlit("0");
        reveal_strlit("1");
        reveal_strlit("2");
        reveal_strlit("3");
        reveal_strlit("4");
        reveal_strlit("5");
        reveal_strlit("6");
        reveal_strlit("7");
        reveal_strlit("8");
        reveal_strlit("9");
    }
    let r = if d == 0 {
        "0"
    } else if d == 1 {
        "1"
    } else if d == 2 {
        "2"
    } else if d == 3 {
        "3"
    } else if d == 4 {
        "4"
    } else if d == 5 {
        "5"
    } else if d == 6 {
        "6"
    } else if d == 7 {
        "7"
    } else if d == 8 {
        "8"
    } else {
        "9"
    };
    proof {
        assert(r@ =~= seq![digit_char(d as int)]);
    }
    r
}

/// Append the zero-padded decimal rendering of `n` to `s`.
pub fn push_dec(s: &mut String, n: u64, width: u64)
    ensures
        final(s)@ == old(s)@ + dec_seq(n as int, width as int),
    decreases n, width,
{
    if n <= 9 && width <= 1 {
        s.append(digit_str(n));
        proof {
            assert(s@ =~= old(s)@ + dec_seq(n as int, width as int));
        }
    } else {
        let w: u64 = if width <= 1 {
            1
        } else {
            width - 1
        };
        push_dec(s, n / 10, w);
        s.append(digit_str(n % 10));
        proof {
            assert(s@ =~= old(s)@ + dec_seq(n as int, width as int));
        }
    }
}

// ---------------------------------------------------------------------------
// Padding.

/// `n` spaces.
pub open spec fn spaces(n: int) -> Seq<char>
    decreases n,
{
    if n <= 0 {
        Seq::empty()
    } else {
        spaces(n - 1).push(' ')
    }
}

/// `s` followed by enough spaces to reach width `w` (unchanged if already
/// that wide).
pub open spec fn pad_right(s: Seq<char>, w: int) -> Seq<char> {
    s + spaces(w - s.len())
}

/// Append spaces to `s` until it holds at least `w` characters.
pub fn pad_to_width(s: &mut String, w: usize)
    ensures
        final(s)@ == pad_right(old(s)@, w as int),
{
    let ghost orig = s@;
    let mut n: usize = s.as_str().unicode_len();
    proof {
        assert(s@ =~= orig + spaces(n as int - orig.len()));
    }
    while n < w
        invariant
            n as int >= orig.len(),
            n as int <= orig.len() || n <= w,
            n as int == s@.len(),
            s@ == orig + spaces(n as int - orig.len()),
            w <= usize::MAX,
        decreases w - n,
    {
        s.append(" ");
        n = n + 1;
        proof {
            reveal_strlit(" ");
            assert(s@ =~= orig + spaces(n as int - orig.len()));
        }
    }
    proof {
        assert(s@ =~= pad_right(orig, w as int));
    }
}

// ---------------------------------------------------------------------------
// Rendering.

/// The human-readable form `YYYY-MM-DD hh:mm:ss.mmmmmm` (26 characters for
/// years below 10000).
pub open spec fn date_display(d: LogDate) -> Seq<char> {
    dec_seq(d.year as int, 4) + seq!['-'] + dec_seq(d.mon as int, 2) + seq!['-'] + dec_seq(
        d.day as int,
        2,
    ) + seq![' '] + dec_seq(d.hour as int, 2) + seq![':'] + dec_seq(d.min as int, 2) + seq![':']
        + dec_seq(d.sec as int, 2) + seq!['.'] + dec_seq(d.micro as int, 6)
}

/// The file-name-safe form `YYYY-MM-DDThh-mm-ss.mmmmmm` used in rotated file
/// names; lexicographic order of these stamps matches chronological order.
pub open spec fn date_file_stamp(d: LogDate) -> Seq<char> {
    dec_seq(d.year as int, 4) + seq!['-'] + dec_seq(d.mon as int, 2) + seq!['-'] + dec_seq(
        d.day as int,
        2,
    ) + seq!['T'] + dec_seq(d.hour as int, 2) + seq!['-'] + dec_seq(d.min as int, 2) + seq!['-']
        + dec_seq(d.sec as int, 2) + seq!['.'] + dec_seq(d.micro as int, 6)
}

impl LogDate {
    /// Render as `YYYY-MM-DD hh:mm:ss.mmmmmm`.
    pub fn display(&self) -> (r: String)
        ensures
            r@ == date_display(*self),
    {
        let mut s = String::new();
        push_dec(&mut s, self.year, 4);
        s.append("-");
        push_dec(&mut s, self.mon, 2);
        s.append("-");
        push_dec(&mut s, self.day, 2);
        s.append(" ");
        push_dec(&mut s, self.hour, 2);
        s.append(":");
        push_dec(&mut s, self.min, 2);
        s.append(":");
        push_dec(&mut s, self.sec, 2);
        s.append(".");
        push_dec(&mut s, self.micro, 6);
        proof {
            reveal_strlit("-");
            reveal_strlit(" ");
            reveal_strlit(":");
            reveal_strlit(".");
            assert("-"@ =~= seq!['-']);
            assert(" "@ =~= seq![' ']);
            assert(":"@ =~= seq![':']);
            assert("."@ =~= seq!['.']);
            assert(s@ =~= date_display(*self));
        }
        s
    }

    /// Render as `YYYY-MM-DDThh-mm-ss.mmmmmm`.
    pub fn file_stamp(&self) -> (r: String)
        ensures
            r@ == date_file_stamp(*self),
    {
        let mut s = String::new();
        push_dec(&mut s, self.year, 4);
        s.append("-");
        push_dec(&mut s, self.mon, 2);
        s.append("-");
        push_dec(&mut s, self.day, 2);
        s.append("T");
        push_dec(&mut s, self.hour, 2);
        s.append("-");
        push_dec(&mut s, self.min, 2);
        s.append("-");
        push_dec(&mut s, self.sec, 2);
        s.append(".");
        push_dec(&mut s, self.micro, 6);
        proof {
            reveal_strlit("-");
            reveal_strlit("T");
            reveal_strlit(".");
            assert("-"@ =~= seq!['-']);
            assert("T"@ =~= seq!['T']);
            assert("."@ =~= seq!['.']);
            assert(s@ =~= date_file_stamp(*self));
        }
        s
    }
}

} // verus!
