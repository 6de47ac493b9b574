//! The instants that RFC3339 tags name, and the order of tags by age.

use vstd::prelude::*;

use crate::text;

verus! {

/// A point in time.
pub struct Instant {
    /// The seconds since the year 0 began in UTC, by the Gregorian calendar, leap seconds
    /// left out.
    pub seconds: int,
    /// It lies in a leap second, behind that second and before the next.
    pub leap: bool,
    /// The digits of the fraction of a second, without the zeros at their end.
    pub fraction: Seq<char>,
}

/// The first instant is the earlier one.
pub open spec fn earlier(a: Instant, b: Instant) -> bool {
    if a.seconds != b.seconds {
        a.seconds < b.seconds
    } else if a.leap != b.leap {
        b.leap
    } else {
        text::text_before(a.fraction, b.fraction)
    }
}

/// The character is a decimal digit.
pub open spec fn is_digit(c: char) -> bool {
    0x30 <= c as int <= 0x39
}

/// The number that the two digits at `at` write.
pub open spec fn two_digits(tag: Seq<char>, at: int) -> int {
    10 * (tag[at] as int - 0x30) + (tag[at + 1] as int - 0x30)
}

/// There are two digits at `at`.
pub open spec fn has_two_digits(tag: Seq<char>, at: int) -> bool {
    at + 2 <= tag.len() && is_digit(tag[at]) && is_digit(tag[at + 1])
}

/// The year has a 29th of February.
pub open spec fn is_leap(year: int) -> bool {
    year % 4 == 0 && (year % 100 != 0 || year % 400 == 0)
}

/// How many days a month has.
pub open spec fn days_in_month(year: int, month: int) -> int {
    if month == 2 {
        if is_leap(year) {
            29
        } else {
            28
        }
    } else if month == 4 || month == 6 || month == 9 || month == 11 {
        30
    } else {
        31
    }
}

/// How many days there are from the first day of the year 0 to the first day of a year.
pub open spec fn days_before_year(year: int) -> int {
    365 * year + (year + 3) / 4 - (year + 99) / 100 + (year + 399) / 400
}

/// How many days of a year there are before a month of it.
pub open spec fn days_before_month(year: int, month: int) -> int {
    let leap_day = if is_leap(year) {
        1int
    } else {
        0
    };
    if month <= 1 {
        0
    } else if month == 2 {
        31
    } else if month == 3 {
        59 + leap_day
    } else if month == 4 {
        90 + leap_day
    } else if month == 5 {
        120 + leap_day
    } else if month == 6 {
        151 + leap_day
    } else if month == 7 {
        181 + leap_day
    } else if month == 8 {
        212 + leap_day
    } else if month == 9 {
        243 + leap_day
    } else if month == 10 {
        273 + leap_day
    } else if month == 11 {
        304 + leap_day
    } else {
        334 + leap_day
    }
}

/// The number of a day, counted from the first day of the year 0.
pub open spec fn day_number(year: int, month: int, day: int) -> int {
    days_before_year(year) + days_before_month(year, month) + day - 1
}

/// Each day has the number behind that of the day before it: within a month, from the
/// last day of a month to the next month, and from the last day of a year to the next
/// year.
pub proof fn days_are_numbered_one_by_one(year: int, month: int)
    requires
        year >= 0,
        1 <= month <= 12,
    ensures
        forall|day: int| #[trigger]
            day_number(year, month, day + 1) == day_number(year, month, day) + 1,
        month < 12 ==> day_number(year, month + 1, 1) == day_number(
            year,
            month,
            days_in_month(year, month),
        ) + 1,
        month == 12 ==> day_number(year + 1, 1, 1) == day_number(year, 12, 31) + 1,
        day_number(0, 1, 1) == 0,
{
}

/// The tag begins with a date and a time of day that exist. The 60th second is a leap
/// second.
pub open spec fn has_date_and_time(tag: Seq<char>) -> bool {
    &&& tag.len() >= 19
    &&& has_two_digits(tag, 0)
    &&& has_two_digits(tag, 2)
    &&& tag[4] == '-'
    &&& has_two_digits(tag, 5)
    &&& 1 <= two_digits(tag, 5) <= 12
    &&& tag[7] == '-'
    &&& has_two_digits(tag, 8)
    &&& 1 <= two_digits(tag, 8) <= days_in_month(year_of(tag), two_digits(tag, 5))
    &&& tag[10] == 'T' || tag[10] == 't'
    &&& has_two_digits(tag, 11)
    &&& two_digits(tag, 11) <= 23
    &&& tag[13] == ':'
    &&& has_two_digits(tag, 14)
    &&& two_digits(tag, 14) <= 59
    &&& tag[16] == ':'
    &&& has_two_digits(tag, 17)
    &&& two_digits(tag, 17) <= 60
}

/// The year that a tag begins with.
pub open spec fn year_of(tag: Seq<char>) -> int {
    100 * two_digits(tag, 0) + two_digits(tag, 2)
}

/// The tag's time of day lies in a leap second.
pub open spec fn in_leap_second(tag: Seq<char>) -> bool {
    two_digits(tag, 17) == 60
}

/// The seconds from the beginning of the year 0 to the date and the time of day that a
/// tag begins with, as if they were those of UTC. A leap second has the number of the
/// second before it.
pub open spec fn wall_clock(tag: Seq<char>) -> int {
    86400 * day_number(year_of(tag), two_digits(tag, 5), two_digits(tag, 8)) + 3600 * two_digits(
        tag,
        11,
    ) + 60 * two_digits(tag, 14) + (if in_leap_second(tag) {
        59
    } else {
        two_digits(tag, 17)
    })
}

/// Where the digits that begin at `at` end.
pub open spec fn digits_end(tag: Seq<char>, at: int) -> int
    decreases tag.len() - at,
{
    if 0 <= at < tag.len() && is_digit(tag[at]) {
        digits_end(tag, at + 1)
    } else {
        at
    }
}

/// The tag has a fraction of a second behind its time of day.
pub open spec fn has_fraction(tag: Seq<char>) -> bool {
    tag.len() > 20 && tag[19] == '.' && is_digit(tag[20])
}

/// Where the offset of a tag begins.
pub open spec fn offset_start(tag: Seq<char>) -> int {
    if has_fraction(tag) {
        digits_end(tag, 20)
    } else {
        19
    }
}

/// A text without the zeros at its end.
pub open spec fn without_end_zeros(s: Seq<char>) -> Seq<char>
    decreases s.len(),
{
    if s.len() > 0 && s.last() == '0' {
        without_end_zeros(s.drop_last())
    } else {
        s
    }
}

/// The digits of a tag's fraction of a second, without the zeros at their end.
pub open spec fn fraction_of(tag: Seq<char>) -> Seq<char> {
    if has_fraction(tag) {
        without_end_zeros(tag.subrange(20, digits_end(tag, 20)))
    } else {
        seq![]
    }
}

/// The minutes by which a local time with this offset is ahead of UTC.
pub open spec fn offset_minutes(offset: Seq<char>) -> Option<int> {
    if offset.len() == 1 && (offset[0] == 'Z' || offset[0] == 'z') {
        Some(0)
    } else if offset.len() == 6 && has_two_digits(offset, 1) && offset[3] == ':' && has_two_digits(
        offset,
        4,
    ) && two_digits(offset, 1) <= 23 && two_digits(offset, 4) <= 59 {
        let minutes = 60 * two_digits(offset, 1) + two_digits(offset, 4);
        if offset[0] == '+' {
            Some(minutes)
        } else if offset[0] == '-' {
            Some(-minutes)
        } else {
            None
        }
    } else {
        None
    }
}

/// The instant that a tag names: its date, its time of day and its fraction of a second,
/// at its offset. A text that is no RFC3339 time names none.
pub open spec fn instant(tag: Seq<char>) -> Option<Instant> {
    if has_date_and_time(tag) {
        match offset_minutes(tag.skip(offset_start(tag))) {
            Some(minutes) => Some(
                Instant {
                    seconds: wall_clock(tag) - 60 * minutes,
                    leap: in_leap_second(tag),
                    fraction: fraction_of(tag),
                },
            ),
            None => None,
        }
    } else {
        None
    }
}

/// The first tag is the older one: by the instants that they name, and of two texts for
/// one instant the one that comes first. Where one of them names none, they are compared
/// as texts.
pub open spec fn older(a: Seq<char>, b: Seq<char>) -> bool {
    match (instant(a), instant(b)) {
        (Some(x), Some(y)) => earlier(x, y) || (x == y && text::text_before(a, b)),
        _ => text::text_before(a, b),
    }
}

/// No instant is earlier than itself, and of two different ones exactly one is earlier.
pub proof fn instants_are_in_order(x: Instant, y: Instant)
    ensures
        earlier(x, y) ==> x != y && !earlier(y, x),
        x != y ==> earlier(x, y) || earlier(y, x),
{
    text::text_order_is_total(x.fraction, y.fraction);
}

/// What is earlier than an instant is earlier than all that this instant is earlier than.
pub proof fn instants_follow_each_other(x: Instant, y: Instant, z: Instant)
    requires
        earlier(x, y),
        earlier(y, z),
    ensures
        earlier(x, z),
{
    if x.seconds == y.seconds && y.seconds == z.seconds && x.leap == y.leap && y.leap == z.leap {
        text::text_order_is_transitive(x.fraction, y.fraction, z.fraction);
    }
}

/// No tag is older than itself, and of two different texts exactly one is older.
pub proof fn age_order_is_total(a: Seq<char>, b: Seq<char>)
    ensures
        older(a, b) ==> a != b && !older(b, a),
        a != b ==> older(a, b) || older(b, a),
{
    text::text_order_is_total(a, b);
    match (instant(a), instant(b)) {
        (Some(x), Some(y)) => instants_are_in_order(x, y),
        _ => {},
    }
}

/// Of tags that name instants, what is older than one is older than all that this one is
/// older than.
pub proof fn age_order_is_transitive(a: Seq<char>, b: Seq<char>, c: Seq<char>)
    requires
        instant(a) is Some,
        instant(b) is Some,
        instant(c) is Some,
        older(a, b),
        older(b, c),
    ensures
        older(a, c),
{
    let x = instant(a)->0;
    let y = instant(b)->0;
    let z = instant(c)->0;
    if earlier(x, y) && earlier(y, z) {
        instants_follow_each_other(x, y, z);
    } else if x == y && y == z {
        text::text_order_is_transitive(a, b, c);
    }
}

/// Both tags name instants, and they are written alike: with the same letter before the
/// time of day, without a fraction of a second and at the same offset.
pub open spec fn written_alike(a: Seq<char>, b: Seq<char>) -> bool {
    &&& instant(a) is Some
    &&& instant(b) is Some
    &&& a[10] == b[10]
    &&& !has_fraction(a)
    &&& !has_fraction(b)
    &&& a.skip(19) == b.skip(19)
}

proof fn lemma_earlier_day(y: int, m: int, d: int, y2: int, m2: int, d2: int)
    requires
        0 <= y <= y2,
        1 <= m <= 12,
        1 <= m2 <= 12,
        1 <= d <= days_in_month(y, m),
        1 <= d2 <= days_in_month(y2, m2),
        y < y2 || m < m2 || (m == m2 && d < d2),
        y == y2 ==> m <= m2,
    ensures
        day_number(y, m, d) < day_number(y2, m2, d2),
{
    days_are_numbered_one_by_one(y, 12);
    assert(days_before_month(y, m) + d <= days_before_month(y, 12) + 31);
    assert(days_before_month(y2, m2) >= 0);
    if y < y2 {
        assert(days_before_year(y + 1) <= days_before_year(y2));
    }
}

proof fn lemma_first_difference(a: Seq<char>, b: Seq<char>) -> (k: int)
    requires
        text::text_before(a, b),
        a.len() == b.len(),
    ensures
        0 <= k < a.len(),
        forall|i: int| 0 <= i < k ==> a[i] == b[i],
        (a[k] as int) < (b[k] as int),
    decreases a.len(),
{
    if a[0] != b[0] {
        0
    } else {
        let x = a.drop_first();
        let y = b.drop_first();
        let k = lemma_first_difference(x, y);
        assert forall|i: int| 0 <= i < k + 1 implies a[i] == b[i] by {
            if i > 0 {
                assert(x[i - 1] == y[i - 1]);
            }
        }
        k + 1
    }
}

proof fn lemma_lesser_text_is_older(a: Seq<char>, b: Seq<char>)
    requires
        written_alike(a, b),
        text::text_before(a, b),
    ensures
        older(a, b),
{
    assert(a.len() == a.skip(19).len() + 19);
    assert(b.len() == b.skip(19).len() + 19);
    let k = lemma_first_difference(a, b);
    if k >= 19 {
        assert(a[k] == a.skip(19)[k - 19]);
        assert(b[k] == b.skip(19)[k - 19]);
    }
    assert(has_date_and_time(a) && has_date_and_time(b));
    let days = day_number(year_of(a), two_digits(a, 5), two_digits(a, 8));
    let days2 = day_number(year_of(b), two_digits(b, 5), two_digits(b, 8));
    if k < 10 {
        if k < 4 {
            assert(year_of(a) < year_of(b));
        } else {
            assert(year_of(a) == year_of(b));
            assert(two_digits(a, 5) < two_digits(b, 5) || (two_digits(a, 5) == two_digits(b, 5)
                && two_digits(a, 8) < two_digits(b, 8)));
        }
        lemma_earlier_day(
            year_of(a),
            two_digits(a, 5),
            two_digits(a, 8),
            year_of(b),
            two_digits(b, 5),
            two_digits(b, 8),
        );
        assert(days < days2);
    } else {
        assert(days == days2);
        if k < 13 {
            assert(two_digits(a, 11) < two_digits(b, 11));
        } else {
            assert(two_digits(a, 11) == two_digits(b, 11));
            if k < 16 {
                assert(two_digits(a, 14) < two_digits(b, 14));
            } else {
                assert(two_digits(a, 14) == two_digits(b, 14));
                assert(two_digits(a, 17) < two_digits(b, 17));
            }
        }
    }
}

/// Tags that are written alike sort as texts in the order of time.
pub proof fn tags_of_one_offset_sort_as_texts(a: Seq<char>, b: Seq<char>)
    requires
        written_alike(a, b),
    ensures
        older(a, b) <==> text::text_before(a, b),
{
    text::text_order_is_total(a, b);
    age_order_is_total(a, b);
    if text::text_before(a, b) {
        lemma_lesser_text_is_older(a, b);
    }
    if text::text_before(b, a) {
        lemma_lesser_text_is_older(b, a);
    }
}

pub(crate) proof fn lemma_digits_end_bounds(tag: Seq<char>, at: int)
    requires
        0 <= at <= tag.len(),
    ensures
        at <= digits_end(tag, at) <= tag.len(),
    decreases tag.len() - at,
{
    if at < tag.len() && is_digit(tag[at]) {
        lemma_digits_end_bounds(tag, at + 1);
    }
}

pub(crate) proof fn lemma_digits_are_digits(tag: Seq<char>, at: int)
    requires
        0 <= at <= tag.len(),
    ensures
        forall|i: int| at <= i < digits_end(tag, at) ==> is_digit(#[trigger] tag[i]),
    decreases tag.len() - at,
{
    if at < tag.len() && is_digit(tag[at]) {
        lemma_digits_are_digits(tag, at + 1);
    }
}

proof fn lemma_same_digits_end(a: Seq<char>, b: Seq<char>, at: int)
    requires
        a.is_prefix_of(b),
        0 <= at <= a.len(),
        digits_end(a, at) < a.len(),
    ensures
        digits_end(b, at) == digits_end(a, at),
        at <= digits_end(a, at),
    decreases a.len() - at,
{
    assert(a[at] == b[at]);
    if is_digit(a[at]) {
        lemma_same_digits_end(a, b, at + 1);
    }
}

/// A tag that names an instant does not begin another one that does.
pub proof fn no_tag_begins_another(a: Seq<char>, b: Seq<char>)
    requires
        instant(a) is Some,
        instant(b) is Some,
        a.is_prefix_of(b),
    ensures
        a == b,
{
    assert forall|i: int| 0 <= i < a.len() implies a[i] == b[i] by {
        assert(b.subrange(0, a.len() as int)[i] == b[i]);
    }
    let at = offset_start(a);
    if has_fraction(a) {
        lemma_digits_end_bounds(a, 20);
    }
    assert(a.skip(at).len() == a.len() - at);
    if has_fraction(a) {
        lemma_same_digits_end(a, b, 20);
    }
    assert(a.skip(at)[0] == a[at]);
    assert(offset_start(b) == at);
    assert(b.skip(at).len() == b.len() - at);
    assert(b.skip(at)[0] == b[at]);
    assert(a =~= b);
}

/// An instant as it is compared.
struct Moment {
    seconds: i64,
    leap: bool,
    fraction: String,
}

spec fn moment_view(m: Option<Moment>) -> Option<Instant> {
    match m {
        Some(m) => Some(
            Instant { seconds: m.seconds as int, leap: m.leap, fraction: m.fraction@ },
        ),
        None => None,
    }
}

fn digit_at(v: &Vec<char>, at: usize) -> (r: Option<i64>)
    ensures
        match r {
            Some(d) => at < v@.len() && is_digit(v@[at as int]) && d == v@[at as int] as int - 0x30,
            None => at >= v@.len() || !is_digit(v@[at as int]),
        },
{
    if at >= v.len() {
        return None;
    }
    match v[at] {
        '0' => Some(0),
        '1' => Some(1),
        '2' => Some(2),
        '3' => Some(3),
        '4' => Some(4),
        '5' => Some(5),
        '6' => Some(6),
        '7' => Some(7),
        '8' => Some(8),
        '9' => Some(9),
        _ => None,
    }
}

fn two_digits_at(v: &Vec<char>, at: usize) -> (r: Option<i64>)
    requires
        at < 100,
    ensures
        match r {
            Some(n) => has_two_digits(v@, at as int) && n == two_digits(v@, at as int) && 0 <= n
                <= 99,
            None => !has_two_digits(v@, at as int),
        },
{
    match (digit_at(v, at), digit_at(v, at + 1)) {
        (Some(a), Some(b)) => Some(10 * a + b),
        _ => None,
    }
}

fn leap(year: i64) -> (r: bool)
    requires
        0 <= year,
    ensures
        r == is_leap(year as int),
{
    year % 4 == 0 && (year % 100 != 0 || year % 400 == 0)
}

fn month_days(year: i64, month: i64) -> (r: i64)
    requires
        0 <= year,
    ensures
        r == days_in_month(year as int, month as int),
{
    if month == 2 {
        if leap(year) {
            29
        } else {
            28
        }
    } else if month == 4 || month == 6 || month == 9 || month == 11 {
        30
    } else {
        31
    }
}

fn day_number_of(year: i64, month: i64, day: i64) -> (r: i64)
    requires
        0 <= year <= 9999,
        1 <= month <= 12,
        1 <= day <= 31,
    ensures
        r == day_number(year as int, month as int, day as int),
        0 <= r <= 4_000_000,
{
    let years: i64 = 365 * year + (year + 3) / 4 - (year + 99) / 100 + (year + 399) / 400;
    let mut days: i64 = 0;
    let mut m: i64 = 1;
    while m < month
        invariant
            0 <= year,
            1 <= m <= month <= 12,
            days == days_before_month(year as int, m as int),
        decreases month - m,
    {
        days += month_days(year, m);
        m += 1;
    }
    years + days + day - 1
}

/// The seconds of the date and the time of day that a tag begins with, and whether they lie
/// in a leap second.
fn wall_clock_of(v: &Vec<char>) -> (r: Option<(i64, bool)>)
    ensures
        match r {
            Some((s, leap)) => {
                &&& has_date_and_time(v@)
                &&& s == wall_clock(v@)
                &&& leap == in_leap_second(v@)
                &&& 0 <= s <= 400_000_000_000
            },
            None => !has_date_and_time(v@),
        },
{
    if v.len() < 19 || v[4] != '-' || v[7] != '-' || !(v[10] == 'T' || v[10] == 't') || v[13] != ':'
        || v[16] != ':' {
        return None;
    }
    let year: i64 = match (two_digits_at(v, 0), two_digits_at(v, 2)) {
        (Some(a), Some(b)) => 100 * a + b,
        _ => return None,
    };
    let (month, day): (i64, i64) = match (two_digits_at(v, 5), two_digits_at(v, 8)) {
        (Some(month), Some(day)) => (month, day),
        _ => return None,
    };
    let (hour, minute): (i64, i64) = match (two_digits_at(v, 11), two_digits_at(v, 14)) {
        (Some(hour), Some(minute)) => (hour, minute),
        _ => return None,
    };
    let second: i64 = match two_digits_at(v, 17) {
        Some(second) => second,
        None => return None,
    };
    if month < 1 || month > 12 || day < 1 || day > month_days(year, month) || hour > 23 || minute
        > 59 || second > 60 {
        return None;
    }
    let leap = second == 60;
    let counted: i64 = if leap {
        59
    } else {
        second
    };
    Some((86400 * day_number_of(year, month, day) + 3600 * hour + 60 * minute + counted, leap))
}

fn end_of_digits(v: &Vec<char>, at: usize) -> (r: usize)
    requires
        at <= v@.len(),
    ensures
        r == digits_end(v@, at as int),
        at <= r <= v@.len(),
{
    let mut end: usize = at;
    while end < v.len() && digit_at(v, end).is_some()
        invariant
            at <= end <= v@.len(),
            digits_end(v@, at as int) == digits_end(v@, end as int),
        decreases v@.len() - end,
    {
        end += 1;
    }
    end
}

/// The characters from `from` to `to`, without the zeros at their end.
fn trimmed_digits(v: &Vec<char>, from: usize, to: usize) -> (r: String)
    requires
        from <= to <= v@.len(),
    ensures
        r@ == without_end_zeros(v@.subrange(from as int, to as int)),
{
    let mut end: usize = to;
    while end > from && v[end - 1] == '0'
        invariant
            from <= end <= to <= v@.len(),
            without_end_zeros(v@.subrange(from as int, to as int)) == without_end_zeros(
                v@.subrange(from as int, end as int),
            ),
        decreases end,
    {
        assert(v@.subrange(from as int, end as int).drop_last() =~= v@.subrange(
            from as int,
            end - 1,
        ));
        end -= 1;
    }
    text::slice_text(v, from, end)
}

fn offset_minutes_of(v: &Vec<char>) -> (r: Option<i64>)
    ensures
        match r {
            Some(m) => offset_minutes(v@) == Some(m as int) && -2000 <= m <= 2000,
            None => offset_minutes(v@) is None,
        },
{
    if v.len() == 1 && (v[0] == 'Z' || v[0] == 'z') {
        return Some(0);
    }
    if v.len() != 6 || v[3] != ':' {
        return None;
    }
    match (two_digits_at(v, 1), two_digits_at(v, 4)) {
        (Some(h), Some(m)) => {
            if h > 23 || m > 59 {
                None
            } else if v[0] == '+' {
                Some(60 * h + m)
            } else if v[0] == '-' {
                Some(-(60 * h + m))
            } else {
                None
            }
        },
        _ => None,
    }
}

fn moment(tag: &str) -> (r: Option<Moment>)
    ensures
        moment_view(r) == instant(tag@),
{
    let v = text::chars_of(tag);
    let (clock, leap): (i64, bool) = match wall_clock_of(&v) {
        Some(clock) => clock,
        None => return None,
    };
    let mut start: usize = 19;
    let mut fraction = String::new();
    assert(fraction@ =~= Seq::<char>::empty());
    if v.len() > 20 && v[19] == '.' && digit_at(&v, 20).is_some() {
        start = end_of_digits(&v, 20);
        fraction = trimmed_digits(&v, 20, start);
    }
    let offset = text::chars_of(text::slice_text(&v, start, v.len()).as_str());
    assert(offset@ =~= tag@.skip(start as int));
    match offset_minutes_of(&offset) {
        Some(minutes) => Some(Moment { seconds: clock - 60 * minutes, leap, fraction }),
        None => None,
    }
}

/// Whether a tag names an instant.
pub(crate) fn names_instant(tag: &str) -> (r: bool)
    ensures
        r == (instant(tag@) is Some),
{
    moment(tag).is_some()
}

/// Whether the first tag is the older one.
pub(crate) fn is_older(a: &str, b: &str) -> (r: bool)
    ensures
        r == older(a@, b@),
{
    match (moment(a), moment(b)) {
        (Some(x), Some(y)) => {
            if x.seconds != y.seconds {
                x.seconds < y.seconds
            } else if x.leap != y.leap {
                y.leap
            } else if x.fraction == y.fraction {
                proof {
                    text::text_order_is_total(x.fraction@, x.fraction@);
                }
                text::comes_before(a, b)
            } else {
                text::comes_before(x.fraction.as_str(), y.fraction.as_str())
            }
        },
        _ => text::comes_before(a, b),
    }
}

} // verus!
