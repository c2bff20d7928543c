//! The time of day, and the labels that are made of it.
//!
//! Reading the clock is left to the `time` crate; what is made of the
//! reading is computed here.

use crate::names::{name_lt, opt_name};
use vstd::prelude::*;
use vstd::string::*;

verus! {

/// A point in time as the `time` crate holds it.
#[verifier::external_type_specification]
#[verifier::external_body]
pub struct ExOffsetDateTime(time::OffsetDateTime);

/// A point in time in UTC, by its calendar parts.
#[derive(Clone, Copy, Debug, PartialEq, Eq)]
pub struct UtcParts {
    pub year: i32,
    pub month: u8,
    pub day: u8,
    pub hour: u8,
    pub minute: u8,
    pub second: u8,
}

impl UtcParts {
    /// The parts are those of a date and a time of day.
    pub open spec fn in_range(&self) -> bool {
        &&& -999_999 <= self.year <= 999_999
        &&& 1 <= self.month <= 12
        &&& 1 <= self.day <= 31
        &&& self.hour < 24
        &&& self.minute < 60
        &&& self.second < 60
    }
}

/// Reads the clock: `time::OffsetDateTime::now_utc`. Nothing is claimed of
/// the reading.
#[verifier::external_body]
fn read_clock() -> (now: time::OffsetDateTime) {
    time::OffsetDateTime::now_utc()
}

/// The calendar parts of a point in time, by the getters `year`, `month`,
/// `day`, `hour`, `minute` and `second` of `time::OffsetDateTime`. The
/// claim is that each part lies in the range that the crate documents for
/// it: the month in 1..=12, the day in 1..=31, the hour below 24, minute
/// and second below 60, and the year within the widest range of years
/// that the crate can hold.
#[verifier::external_body]
fn calendar_parts(now: &time::OffsetDateTime) -> (t: UtcParts)
    ensures
        t.in_range(),
{
    UtcParts {
        year: now.year(),
        month: u8::from(now.month()),
        day: now.day(),
        hour: now.hour(),
        minute: now.minute(),
        second: now.second(),
    }
}

/// The nanoseconds within the second of a point in time, by the getter
/// `nanosecond` of `time::OffsetDateTime`. The claim is that they lie in
/// the range that the crate documents: below a thousand million.
#[verifier::external_body]
fn subsecond(now: &time::OffsetDateTime) -> (n: u32)
    ensures
        n < 1_000_000_000,
{
    now.nanosecond()
}

/// What the `time` crate writes in the notation of RFC 3339 for the point
/// in time in UTC with the given calendar parts and nanoseconds; `None`
/// where the parts are no point in time, or where the crate cannot write
/// the point in that notation.
pub uninterp spec fn rfc3339_text(
    year: i32,
    month: u8,
    day: u8,
    hour: u8,
    minute: u8,
    second: u8,
    nanosecond: u32,
) -> Option<Seq<char>>;

/// The notation of RFC 3339 of the point in time in UTC with the given
/// calendar parts and nanoseconds. The parts are made a point in time by
/// `time::Month::try_from`, `time::Date::from_calendar_date`,
/// `time::Time::from_hms_nano` and `time::OffsetDateTime::new_utc`, each
/// of which refuses what is out of range, and the point is written by
/// `time::OffsetDateTime::format` with `Rfc3339`. The result is named, not
/// stated.
#[verifier::external_body]
fn rfc3339_utc(t: &UtcParts, nanosecond: u32) -> (r: Option<String>)
    ensures
        opt_name(r) == rfc3339_text(
            t.year,
            t.month,
            t.day,
            t.hour,
            t.minute,
            t.second,
            nanosecond,
        ),
{
    let month = time::Month::try_from(t.month).ok()?;
    let date = time::Date::from_calendar_date(t.year, month, t.day).ok()?;
    let time = time::Time::from_hms_nano(t.hour, t.minute, t.second, nanosecond).ok()?;
    let point = time::OffsetDateTime::new_utc(date, time);
    point.format(&time::format_description::well_known::Rfc3339).ok()
}

/// The character of the digit `d`.
pub open spec fn digit_char(d: int) -> char {
    if d == 0 {
        '0'
    } else if d == 1 {
        '1'
    } else if d == 2 {
        '2'
    } else if d == 3 {
        '3'
    } else if d == 4 {
        '4'
    } else if d == 5 {
        '5'
    } else if d == 6 {
        '6'
    } else if d == 7 {
        '7'
    } else if d == 8 {
        '8'
    } else {
        '9'
    }
}

/// The decimal digits of `n`, without leading zeros.
pub open spec fn decimal(n: nat) -> Seq<char>
    decreases n,
{
    if n < 10 {
        seq![digit_char(n as int)]
    } else {
        decimal(n / 10) + seq![digit_char((n % 10) as int)]
    }
}

/// `count` zeros.
pub open spec fn zeros(count: nat) -> Seq<char> {
    Seq::new(count, |i: int| '0')
}

/// The decimal digits of `n`, with zeros in front up to `width` digits.
pub open spec fn zero_padded(n: nat, width: nat) -> Seq<char> {
    if decimal(n).len() >= width {
        decimal(n)
    } else {
        zeros((width - decimal(n).len()) as nat) + decimal(n)
    }
}

/// The number `n` in at least `width` characters, the sign counted, with
/// zeros behind the sign.
pub open spec fn signed_padded(n: int, width: nat) -> Seq<char> {
    if n >= 0 {
        zero_padded(n as nat, width)
    } else {
        "-"@ + zero_padded((-n) as nat, if width > 0 {
            (width - 1) as nat
        } else {
            0
        })
    }
}

/// The version label of a point in time: year, month and day with dots
/// between them, then a dot and hour, minute and second in a row. Labels
/// of the same length sort as the points in time do.
pub open spec fn version_text(t: UtcParts) -> Seq<char> {
    signed_padded(t.year as int, 4) + "."@ + zero_padded(t.month as nat, 2) + "."@ + zero_padded(
        t.day as nat,
        2,
    ) + "."@ + zero_padded(t.hour as nat, 2) + zero_padded(t.minute as nat, 2) + zero_padded(
        t.second as nat,
        2,
    )
}

/// The digit `d` as a text.
fn digit_str(d: u32) -> (r: &'static str)
    requires
        d < 10,
    ensures
        r@ == seq![digit_char(d as int)],
{
    proof {
        reveal_strlit("0");
        reveal_strlit("1");
        reveal_strlit("2");
        reveal_strlit("3");
        reveal_strlit("4");
        reveal_strlit("5");
        reveal_strlit("6");
        reveal_strlit("7");
        reveal_strlit("8");
        reveal_strlit("9");
    }
    let r = if d == 0 {
        "0"
    } else if d == 1 {
        "1"
    } else if d == 2 {
        "2"
    } else if d == 3 {
        "3"
    } else if d == 4 {
        "4"
    } else if d == 5 {
        "5"
    } else if d == 6 {
        "6"
    } else if d == 7 {
        "7"
    } else if d == 8 {
        "8"
    } else {
        "9"
    };
    assert(r@ =~= seq![digit_char(d as int)]);
    r
}

/// The decimal digits of `n`.
pub fn decimal_text(n: u32) -> (r: String)
    ensures
        r@ == decimal(n as nat),
{
    let mut rest: u32 = n / 10;
    let mut r = String::from_str(digit_str(n % 10));
    proof {
        if n < 10 {
            assert(n % 10 == n);
        }
    }
    while rest > 0
        invariant
            decimal(n as nat) == if rest == 0 {
                r@
            } else {
                decimal(rest as nat) + r@
            },
        decreases rest,
    {
        let d = rest % 10;
        let next = rest / 10;
        let head = String::from_str(digit_str(d));
        let ghost old_r = r@;
        r = head.concat(r.as_str());
        proof {
            if next == 0 {
                assert(rest < 10);
                assert(decimal(rest as nat) == seq![digit_char(rest as int)]);
            } else {
                assert(decimal(rest as nat) == decimal(next as nat) + seq![digit_char(d as int)]);
                assert(decimal(next as nat) + seq![digit_char(d as int)] + old_r =~= decimal(
                    next as nat,
                ) + (seq![digit_char(d as int)] + old_r));
            }
        }
        rest = next;
    }
    r
}

/// The decimal digits of `n`, with zeros in front up to `width` digits.
pub fn zero_padded_text(n: u32, width: usize) -> (r: String)
    ensures
        r@ == zero_padded(n as nat, width as nat),
{
    let digits = decimal_text(n);
    let len = digits.as_str().unicode_len();
    if len >= width {
        digits
    } else {
        let mut r = String::from_str("");
        let mut k: usize = 0;
        proof {
            reveal_strlit("");
            reveal_strlit("0");
            assert(r@ =~= zeros(0));
        }
        while k < width - len
            invariant
                len < width,
                k <= width - len,
                r@ == zeros(k as nat),
                "0"@ == seq!['0'],
            decreases width - len - k,
        {
            let ghost old_r = r@;
            r = r.concat("0");
            proof {
                assert(old_r + seq!['0'] =~= zeros((k + 1) as nat));
            }
            k += 1;
        }
        r.concat(digits.as_str())
    }
}

/// The version label of a point in time.
pub fn version_label(t: &UtcParts) -> (r: String)
    ensures
        r@ == version_text(*t),
{
    let year = if t.year >= 0 {
        zero_padded_text(t.year as u32, 4)
    } else {
        let m: u32 = if t.year == i32::MIN {
            2147483648u32
        } else {
            (-t.year) as u32
        };
        String::from_str("-").concat(zero_padded_text(m, 3).as_str())
    };
    year.concat(".").concat(zero_padded_text(t.month as u32, 2).as_str()).concat(".").concat(
        zero_padded_text(t.day as u32, 2).as_str(),
    ).concat(".").concat(zero_padded_text(t.hour as u32, 2).as_str()).concat(
        zero_padded_text(t.minute as u32, 2).as_str(),
    ).concat(zero_padded_text(t.second as u32, 2).as_str())
}

/// A new version label, made of the time of the call.
///
/// The label is the version text of some point in time; which one, the
/// clock decides.
pub fn generate_version() -> (r: String)
    ensures
        exists|t: UtcParts| t.in_range() && r@ == #[trigger] version_text(t),
{
    let now = read_clock();
    let t = calendar_parts(&now);
    version_label(&t)
}

/// The time stamp to record: the formatted time, or `unknown` where the
/// time could not be formatted.
pub fn timestamp_text(formatted: Option<String>) -> (r: String)
    ensures
        r@ == match formatted {
            Some(s) => s@,
            None => "unknown"@,
        },
{
    match formatted {
        Some(s) => s,
        None => String::from_str("unknown"),
    }
}

/// The time stamp of a point in time in UTC: its notation of RFC 3339, or
/// `unknown` where the point cannot be written in that notation.
pub open spec fn stamp_text(t: UtcParts, nanosecond: u32) -> Seq<char> {
    match rfc3339_text(t.year, t.month, t.day, t.hour, t.minute, t.second, nanosecond) {
        Some(s) => s,
        None => "unknown"@,
    }
}

/// The time stamp of the point in time in UTC with the calendar parts `t`
/// and the nanoseconds `nanosecond` within its second.
pub fn timestamp_of(t: &UtcParts, nanosecond: u32) -> (r: String)
    ensures
        r@ == stamp_text(*t, nanosecond),
{
    timestamp_text(rfc3339_utc(t, nanosecond))
}

/// The time stamp of the time of the call.
///
/// The stamp is the time stamp of some point in time, to the nanosecond;
/// which one, the clock decides.
pub fn timestamp_now() -> (r: String)
    ensures
        exists|t: UtcParts, nanosecond: u32|
            t.in_range() && nanosecond < 1_000_000_000 && r@ == #[trigger] stamp_text(
                t,
                nanosecond,
            ),
{
    let now = read_clock();
    let t = calendar_parts(&now);
    let nanosecond = subsecond(&now);
    timestamp_of(&t, nanosecond)
}

/// The point in time `a` is before the point in time `b`.
pub open spec fn earlier(a: UtcParts, b: UtcParts) -> bool {
    a.year < b.year || (a.year == b.year && (a.month < b.month || (a.month == b.month && (a.day
        < b.day || (a.day == b.day && (a.hour < b.hour || (a.hour == b.hour && (a.minute
        < b.minute || (a.minute == b.minute && a.second < b.second)))))))))
}

/// Texts that begin alike are ordered by what follows.
proof fn lemma_same_prefix(p: Seq<char>, x: Seq<char>, y: Seq<char>)
    ensures
        name_lt(p + x, p + y) == name_lt(x, y),
    decreases p.len(),
{
    if p.len() == 0 {
        assert(p + x =~= x);
        assert(p + y =~= y);
    } else {
        let t = p.drop_first();
        lemma_same_prefix(t, x, y);
        assert((p + x).drop_first() =~= t + x);
        assert((p + y).drop_first() =~= t + y);
        assert((p + x)[0] == (p + y)[0]);
        if y.len() == 0 {
            assert(p + y =~= p);
            if x.len() == 0 {
                assert(p + x =~= p);
            }
        }
    }
}

/// Texts whose beginnings have one length and are in order are in order.
proof fn lemma_prefix_decides(p: Seq<char>, q: Seq<char>, x: Seq<char>, y: Seq<char>)
    requires
        p.len() == q.len(),
        name_lt(p, q),
    ensures
        name_lt(p + x, q + y),
    decreases p.len(),
{
    if p.len() > 0 {
        assert((p + x)[0] == p[0]);
        assert((q + y)[0] == q[0]);
        assert((p + x).drop_first() =~= p.drop_first() + x);
        assert((q + y).drop_first() =~= q.drop_first() + y);
        if p[0] == q[0] {
            lemma_prefix_decides(p.drop_first(), q.drop_first(), x, y);
        }
    }
}

/// Ten to the power of `w`.
pub open spec fn pow10(w: nat) -> nat
    decreases w,
{
    if w == 0 {
        1
    } else {
        10 * pow10((w - 1) as nat)
    }
}

/// The digits of a number in one more place are the digits of its tenth
/// part and its last digit.
proof fn lemma_padded_step(n: nat, w: nat)
    requires
        w >= 1,
    ensures
        zero_padded(n, w + 1) == zero_padded(n / 10, w) + seq![digit_char((n % 10) as int)],
{
    let last = seq![digit_char((n % 10) as int)];
    if n < 10 {
        assert(decimal(0) == seq![digit_char(0)]);
        assert(zero_padded(0, w) =~= zeros(w));
        assert(zero_padded(n, w + 1) =~= zeros(w) + last);
    } else {
        let front = decimal(n / 10);
        assert(decimal(n) == front + last);
        if front.len() >= w {
            assert(zero_padded(n, w + 1) =~= front + last);
        } else {
            assert(zeros((w + 1 - decimal(n).len()) as nat) + (front + last) =~= (zeros(
                (w - front.len()) as nat,
            ) + front) + last);
        }
    }
}

/// Of two numbers that fit in `w` digits the lesser is written first, and
/// both are written in `w` digits.
proof fn lemma_digits_sort(a: nat, b: nat, w: nat)
    requires
        w >= 1,
        a < pow10(w),
        b < pow10(w),
    ensures
        zero_padded(a, w).len() == w,
        zero_padded(b, w).len() == w,
        a < b ==> name_lt(zero_padded(a, w), zero_padded(b, w)),
    decreases w,
{
    reveal_with_fuel(pow10, 2);
    reveal_with_fuel(name_lt, 2);
    if w == 1 {
        assert(zero_padded(a, 1) == seq![digit_char(a as int)]);
        assert(zero_padded(b, 1) == seq![digit_char(b as int)]);
    } else {
        let v = (w - 1) as nat;
        lemma_padded_step(a, v);
        lemma_padded_step(b, v);
        lemma_digits_sort(a / 10, b / 10, v);
        let la = seq![digit_char((a % 10) as int)];
        let lb = seq![digit_char((b % 10) as int)];
        if a < b {
            if a / 10 == b / 10 {
                lemma_same_prefix(zero_padded(a / 10, v), la, lb);
            } else {
                lemma_prefix_decides(zero_padded(a / 10, v), zero_padded(b / 10, v), la, lb);
            }
        }
    }
}

/// Two texts that begin with numbers of one width: where the numbers
/// differ, the lesser number decides; where they are the same, what
/// follows decides.
proof fn lemma_field(a: nat, b: nat, w: nat, x: Seq<char>, y: Seq<char>)
    requires
        w >= 1,
        a < pow10(w),
        b < pow10(w),
    ensures
        a < b ==> name_lt(zero_padded(a, w) + x, zero_padded(b, w) + y),
        a == b ==> name_lt(zero_padded(a, w) + x, zero_padded(b, w) + y) == name_lt(x, y),
{
    lemma_digits_sort(a, b, w);
    if a < b {
        lemma_prefix_decides(zero_padded(a, w), zero_padded(b, w), x, y);
    } else if a == b {
        lemma_same_prefix(zero_padded(a, w), x, y);
    }
}

/// The part of a version label from the seconds on.
spec fn label_from_second(t: UtcParts) -> Seq<char> {
    zero_padded(t.second as nat, 2)
}

/// The part of a version label from the minutes on.
spec fn label_from_minute(t: UtcParts) -> Seq<char> {
    zero_padded(t.minute as nat, 2) + label_from_second(t)
}

/// The part of a version label from the hours on.
spec fn label_from_hour(t: UtcParts) -> Seq<char> {
    zero_padded(t.hour as nat, 2) + label_from_minute(t)
}

/// The part of a version label from the day on.
spec fn label_from_day(t: UtcParts) -> Seq<char> {
    zero_padded(t.day as nat, 2) + ("."@ + label_from_hour(t))
}

/// The part of a version label from the month on.
spec fn label_from_month(t: UtcParts) -> Seq<char> {
    zero_padded(t.month as nat, 2) + ("."@ + label_from_day(t))
}

/// The time of day of `a` is before that of `b`.
spec fn earlier_in_day(a: UtcParts, b: UtcParts) -> bool {
    a.hour < b.hour || (a.hour == b.hour && (a.minute < b.minute || (a.minute == b.minute
        && a.second < b.second)))
}

/// The point `a` is before the point `b` of the same year.
spec fn earlier_in_year(a: UtcParts, b: UtcParts) -> bool {
    a.month < b.month || (a.month == b.month && (a.day < b.day || (a.day == b.day
        && earlier_in_day(a, b))))
}

/// The parts of the labels from the hours on sort as the times of day do.
proof fn lemma_time_of_day_sorts(a: UtcParts, b: UtcParts)
    requires
        a.in_range(),
        b.in_range(),
        earlier_in_day(a, b),
    ensures
        name_lt(label_from_hour(a), label_from_hour(b)),
{
    reveal_with_fuel(pow10, 3);
    let e = Seq::<char>::empty();
    assert(label_from_second(a) =~= label_from_second(a) + e);
    assert(label_from_second(b) =~= label_from_second(b) + e);
    lemma_field(a.second as nat, b.second as nat, 2, e, e);
    lemma_field(a.minute as nat, b.minute as nat, 2, label_from_second(a), label_from_second(b));
    lemma_field(a.hour as nat, b.hour as nat, 2, label_from_minute(a), label_from_minute(b));
}

/// The parts of the labels from the month on sort as the points in the
/// year do.
proof fn lemma_time_of_year_sorts(a: UtcParts, b: UtcParts)
    requires
        a.in_range(),
        b.in_range(),
        earlier_in_year(a, b),
    ensures
        name_lt(label_from_month(a), label_from_month(b)),
{
    reveal_with_fuel(pow10, 3);
    let dot = "."@;
    if a.month == b.month && a.day == b.day {
        lemma_time_of_day_sorts(a, b);
    }
    lemma_same_prefix(dot, label_from_hour(a), label_from_hour(b));
    lemma_field(
        a.day as nat,
        b.day as nat,
        2,
        dot + label_from_hour(a),
        dot + label_from_hour(b),
    );
    lemma_same_prefix(dot, label_from_day(a), label_from_day(b));
    lemma_field(
        a.month as nat,
        b.month as nat,
        2,
        dot + label_from_day(a),
        dot + label_from_day(b),
    );
}

/// Seven texts in a row, grouped from the left and from the right.
proof fn lemma_regroup(
    y: Seq<char>,
    dot: Seq<char>,
    o: Seq<char>,
    d: Seq<char>,
    h: Seq<char>,
    m: Seq<char>,
    c: Seq<char>,
)
    ensures
        y + dot + o + dot + d + dot + h + m + c == y + (dot + (o + (dot + (d + (dot + (h + (m
            + c))))))),
{
    assert(y + dot + o + dot + d + dot + h + m + c =~= y + (dot + (o + (dot + (d + (dot + (h + (m
        + c))))))));
}

/// The version label of a year that is written in four digits, part by
/// part.
proof fn lemma_label_parts(t: UtcParts)
    requires
        0 <= t.year,
    ensures
        version_text(t) == zero_padded(t.year as nat, 4) + ("."@ + label_from_month(t)),
{
    lemma_regroup(
        zero_padded(t.year as nat, 4),
        "."@,
        zero_padded(t.month as nat, 2),
        zero_padded(t.day as nat, 2),
        zero_padded(t.hour as nat, 2),
        zero_padded(t.minute as nat, 2),
        zero_padded(t.second as nat, 2),
    );
}

/// The version labels of the years that are written in four digits sort
/// as the points in time do: the label of the earlier point is before the
/// label of the later one.
pub proof fn lemma_version_labels_sort(a: UtcParts, b: UtcParts)
    requires
        a.in_range(),
        b.in_range(),
        0 <= a.year <= 9999,
        0 <= b.year <= 9999,
        earlier(a, b),
    ensures
        name_lt(version_text(a), version_text(b)),
{
    reveal_with_fuel(pow10, 5);
    let dot = "."@;
    lemma_label_parts(a);
    lemma_label_parts(b);
    if a.year == b.year {
        lemma_time_of_year_sorts(a, b);
    }
    lemma_same_prefix(dot, label_from_month(a), label_from_month(b));
    lemma_field(
        a.year as nat,
        b.year as nat,
        4,
        dot + label_from_month(a),
        dot + label_from_month(b),
    );
}

} // verus!
