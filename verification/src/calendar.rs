//! The partition calendar: proleptic-Gregorian dates as plain values, the
//! day-number and month-index measures over them, and the arithmetic needed
//! to enumerate the monthly and daily archive partitions covering a range.

use vstd::prelude::*;

verus! {

/// One archive unit's granularity: a calendar month or a calendar day.
#[derive(Clone, Copy, PartialEq, Eq, Structural, Debug)]
pub enum Timeperiod {
    Daily,
    Monthly,
}

impl Timeperiod {
    /// The path segment this granularity is addressed by.
    pub fn as_str(&self) -> (r: &'static str)
        ensures
            r@ == self.spec_str(),
    {
        match self {
            Timeperiod::Daily => "daily",
            Timeperiod::Monthly => "monthly",
        }
    }

    /// The path segment of each granularity.
    pub open spec fn spec_str(self) -> Seq<char> {
        match self {
            Timeperiod::Daily => "daily"@,
            Timeperiod::Monthly => "monthly"@,
        }
    }
}

/// A calendar date, kept as plain year/month/day values.
#[derive(Clone, Copy, PartialEq, Eq, Structural, Debug)]
pub struct Date {
    pub year: u32,
    pub month: u32,
    pub day: u32,
}

/// Whether `y` is a leap year in the Gregorian calendar.
pub open spec fn is_leap_year(y: int) -> bool {
    y % 4 == 0 && (y % 100 != 0 || y % 400 == 0)
}

/// The number of days in month `m` of year `y`.
pub open spec fn spec_days_in_month(y: int, m: int) -> int {
    if m == 2 {
        if is_leap_year(y) {
            29
        } else {
            28
        }
    } else if m == 4 || m == 6 || m == 9 || m == 11 {
        30
    } else {
        31
    }
}

/// The number of days of year `y` that lie before month `m`.
pub open spec fn days_before_month(y: int, m: int) -> int
    decreases m,
{
    if m <= 1 {
        0
    } else {
        days_before_month(y, m - 1) + spec_days_in_month(y, m - 1)
    }
}

/// The number of days in year `y`.
pub open spec fn spec_year_days(y: int) -> int {
    days_before_month(y, 13)
}

/// The number of days that lie before January 1 of year `y`, counting from
/// year 1.
pub open spec fn days_before_year(y: int) -> int
    decreases y,
{
    if y <= 1 {
        0
    } else {
        days_before_year(y - 1) + spec_year_days(y - 1)
    }
}

impl Date {
    /// A well-formed date: within the supported year range and with a day
    /// that exists in its month.
    pub open spec fn valid(self) -> bool {
        &&& 1 <= self.year <= 9999
        &&& 1 <= self.month <= 12
        &&& 1 <= self.day <= spec_days_in_month(self.year as int, self.month as int)
    }

    /// The number of days between year 1, January 1 and this date: the
    /// measure all calendar ordering is stated over.
    pub open spec fn day_number(self) -> int {
        days_before_year(self.year as int) + days_before_month(self.year as int, self.month as int)
            + self.day - 1
    }

    /// The number of months between year 1, January and this date's month.
    pub open spec fn month_index(self) -> int {
        12 * self.year + self.month - 13
    }

    /// The first day of this date's month.
    pub open spec fn spec_month_start(self) -> Date {
        Date { year: self.year, month: self.month, day: 1 }
    }

    /// This date's predecessor in the calendar.
    pub open spec fn spec_pred(self) -> Date {
        if self.day > 1 {
            Date { year: self.year, month: self.month, day: (self.day - 1) as u32 }
        } else if self.month > 1 {
            Date {
                year: self.year,
                month: (self.month - 1) as u32,
                day: spec_days_in_month(self.year as int, self.month - 1) as u32,
            }
        } else {
            Date { year: (self.year - 1) as u32, month: 12, day: 31 }
        }
    }

    /// This date's successor in the calendar.
    pub open spec fn spec_succ(self) -> Date {
        if self.day < spec_days_in_month(self.year as int, self.month as int) {
            Date { year: self.year, month: self.month, day: (self.day + 1) as u32 }
        } else if self.month < 12 {
            Date { year: self.year, month: (self.month + 1) as u32, day: 1 }
        } else {
            Date { year: (self.year + 1) as u32, month: 1, day: 1 }
        }
    }
}

/// The first day of the month `idx` months after year 1, January.
pub open spec fn month_of_index(idx: int) -> Date {
    Date { year: ((idx + 12) / 12) as u32, month: ((idx % 12) + 1) as u32, day: 1 }
}

/// The error of a partition enumeration asked for a reversed range.
#[derive(Clone, Copy, PartialEq, Eq, Structural, Debug)]
pub enum CalendarError {
    /// The range's start lies after its end; enumerating it would underflow.
    ReversedRange,
}

/// Whether `y` is a leap year.
pub fn is_leap(y: u32) -> (r: bool)
    ensures
        r == is_leap_year(y as int),
{
    y % 4 == 0 && (y % 100 != 0 || y % 400 == 0)
}

/// The number of days in month `m` of year `y`.
pub fn days_in_month(y: u32, m: u32) -> (r: u32)
    requires
        1 <= m <= 12,
    ensures
        r == spec_days_in_month(y as int, m as int),
{
    if m == 2 {
        if is_leap(y) {
            29
        } else {
            28
        }
    } else if m == 4 || m == 6 || m == 9 || m == 11 {
        30
    } else {
        31
    }
}

/// Whether year/month/day values form a well-formed date.
pub fn valid_ymd(y: u32, m: u32, d: u32) -> (r: bool)
    ensures
        r == (Date { year: y, month: m, day: d }).valid(),
{
    1 <= y && y <= 9999 && 1 <= m && m <= 12 && 1 <= d && d <= days_in_month(y, m)
}

impl Date {
    /// A date from its parts; malformed parts are a hard input error that
    /// unverified callers rule out with [`valid_ymd`] first.
    pub fn new(year: u32, month: u32, day: u32) -> (r: Date)
        requires
            (Date { year, month, day }).valid(),
        ensures
            r == (Date { year, month, day }),
            r.valid(),
    {
        Date { year, month, day }
    }

    /// The first day of this date's month.
    pub fn month_start(&self) -> (r: Date)
        requires
            self.valid(),
        ensures
            r == self.spec_month_start(),
            r.valid(),
    {
        Date { year: self.year, month: self.month, day: 1 }
    }

    /// The next day of the calendar.
    pub fn succ(&self) -> (r: Date)
        requires
            self.valid(),
            !(self.year == 9999 && self.month == 12 && self.day == 31),
        ensures
            r == self.spec_succ(),
            r.valid(),
            r.day_number() == self.day_number() + 1,
    {
        proof {
            lemma_succ_day_number(*self);
        }
        if self.day < days_in_month(self.year, self.month) {
            Date { year: self.year, month: self.month, day: self.day + 1 }
        } else if self.month < 12 {
            Date { year: self.year, month: self.month + 1, day: 1 }
        } else {
            Date { year: self.year + 1, month: 1, day: 1 }
        }
    }

    /// The previous day of the calendar.
    pub fn pred(&self) -> (r: Date)
        requires
            self.valid(),
            !(self.year == 1 && self.month == 1 && self.day == 1),
        ensures
            r == self.spec_pred(),
            r.valid(),
            r.spec_succ() == *self,
            r.day_number() == self.day_number() - 1,
    {
        let r = if self.day > 1 {
            Date { year: self.year, month: self.month, day: self.day - 1 }
        } else if self.month > 1 {
            Date { year: self.year, month: self.month - 1, day: days_in_month(self.year, self.month - 1) }
        } else {
            Date { year: self.year - 1, month: 12, day: 31 }
        };
        proof {
            lemma_succ_day_number(r);
        }
        r
    }

    /// Whether this date lies on or before `other` in the calendar.
    pub fn on_or_before(&self, other: &Date) -> (r: bool)
        requires
            self.valid(),
            other.valid(),
        ensures
            r == (self.day_number() <= other.day_number()),
    {
        proof {
            lemma_day_number_orders(*self, *other);
        }
        self.year < other.year || (self.year == other.year && (self.month < other.month || (
        self.month == other.month && self.day <= other.day)))
    }
}

/// Proof that a month's first day is valid and is mapped back from its month
/// index.
proof fn lemma_month_of_index_roundtrip(d: Date)
    requires
        d.valid(),
    ensures
        month_of_index(d.month_index()) == d.spec_month_start(),
        d.spec_month_start().valid(),
        d.spec_month_start().month_index() == d.month_index(),
{
    let y = d.year as int;
    let m = d.month as int;
    let idx = 12 * y + m - 13;
    assert((idx + 12) / 12 == y && idx % 12 == m - 1) by (nonlinear_arith)
        requires
            idx == 12 * y + m - 13,
            1 <= m <= 12,
            1 <= y <= 9999,
    ;
}

/// Proof that the days of a year's months accumulate monotonically.
proof fn lemma_days_before_month_monotone(y: int, m1: int, m2: int)
    requires
        m1 <= m2,
    ensures
        days_before_month(y, m1) <= days_before_month(y, m2),
    decreases m2 - m1,
{
    if m1 < m2 {
        lemma_days_before_month_monotone(y, m1, m2 - 1);
        if m2 - 1 >= 1 {
            assert(spec_days_in_month(y, m2 - 1) >= 28);
        }
    }
}

/// Proof that a valid date's day offset stays below its year's length.
proof fn lemma_day_offset_in_year(d: Date)
    requires
        d.valid(),
    ensures
        0 <= days_before_month(d.year as int, d.month as int) + d.day - 1 < spec_year_days(
            d.year as int,
        ),
{
    let y = d.year as int;
    let m = d.month as int;
    lemma_days_before_month_monotone(y, 1, m);
    assert(days_before_month(y, m + 1) == days_before_month(y, m) + spec_days_in_month(y, m));
    lemma_days_before_month_monotone(y, m + 1, 13);
}

/// Proof that the days before a year accumulate monotonically.
proof fn lemma_days_before_year_monotone(y1: int, y2: int)
    requires
        y1 <= y2,
    ensures
        days_before_year(y1) <= days_before_year(y2),
        y1 >= 1 ==> days_before_year(y1) + (y2 - y1) * 365 <= days_before_year(y2),
    decreases y2 - y1,
{
    if y1 < y2 {
        lemma_days_before_year_monotone(y1, y2 - 1);
        lemma_days_before_month_monotone(y2 - 1, 1, 13);
        assert(spec_year_days(y2 - 1) >= 365) by {
            lemma_days_before_month_monotone(y2 - 1, 1, 12);
            assert(days_before_month(y2 - 1, 13) == days_before_month(y2 - 1, 12)
                + spec_days_in_month(y2 - 1, 12));
            lemma_months_sum(y2 - 1);
        }
        assert((y2 - y1) * 365 == (y2 - 1 - y1) * 365 + 365) by (nonlinear_arith);
    }
}

/// Proof of the exact day count of every prefix of a year's months.
proof fn lemma_months_sum(y: int)
    ensures
        days_before_month(y, 13) == if is_leap_year(y) {
            366int
        } else {
            365int
        },
{
    assert(days_before_month(y, 2) == days_before_month(y, 1) + spec_days_in_month(y, 1));
    assert(days_before_month(y, 3) == days_before_month(y, 2) + spec_days_in_month(y, 2));
    assert(days_before_month(y, 4) == days_before_month(y, 3) + spec_days_in_month(y, 3));
    assert(days_before_month(y, 5) == days_before_month(y, 4) + spec_days_in_month(y, 4));
    assert(days_before_month(y, 6) == days_before_month(y, 5) + spec_days_in_month(y, 5));
    assert(days_before_month(y, 7) == days_before_month(y, 6) + spec_days_in_month(y, 6));
    assert(days_before_month(y, 8) == days_before_month(y, 7) + spec_days_in_month(y, 7));
    assert(days_before_month(y, 9) == days_before_month(y, 8) + spec_days_in_month(y, 8));
    assert(days_before_month(y, 10) == days_before_month(y, 9) + spec_days_in_month(y, 9));
    assert(days_before_month(y, 11) == days_before_month(y, 10) + spec_days_in_month(y, 10));
    assert(days_before_month(y, 12) == days_before_month(y, 11) + spec_days_in_month(y, 11));
    assert(days_before_month(y, 13) == days_before_month(y, 12) + spec_days_in_month(y, 12));
}

/// Proof that the day-number measure strictly orders distinct valid dates in
/// year/month/day lexicographic order.
pub proof fn lemma_day_number_orders(a: Date, b: Date)
    requires
        a.valid(),
        b.valid(),
    ensures
        (a.day_number() < b.day_number()) <==> (a.year < b.year || (a.year == b.year && a.month
            < b.month) || (a.year == b.year && a.month == b.month && a.day < b.day)),
        a.day_number() == b.day_number() <==> a == b,
{
    let ay = a.year as int;
    let by = b.year as int;
    lemma_day_offset_in_year(a);
    lemma_day_offset_in_year(b);
    if ay < by {
        lemma_days_before_year_monotone(ay + 1, by);
        assert(days_before_year(ay + 1) == days_before_year(ay) + spec_year_days(ay));
    } else if by < ay {
        lemma_days_before_year_monotone(by + 1, ay);
        assert(days_before_year(by + 1) == days_before_year(by) + spec_year_days(by));
    } else if a.month != b.month {
        let lo: Date = if a.month < b.month {
            a
        } else {
            b
        };
        let hi: Date = if a.month < b.month {
            b
        } else {
            a
        };
        lemma_days_before_month_monotone(ay, lo.month + 1, hi.month as int);
        assert(days_before_month(ay, lo.month + 1) == days_before_month(ay, lo.month as int)
            + spec_days_in_month(ay, lo.month as int));
    }
}

/// The first day of the month after `d`'s month.
fn next_month_start(d: &Date) -> (r: Date)
    requires
        d.valid(),
        d.month_index() < 119987,  // strictly before 9999-12
    ensures
        r.valid(),
        r.day == 1,
        r.month_index() == d.month_index() + 1,
        r == month_of_index(d.month_index() + 1),
{
    let r = if d.month < 12 {
        Date { year: d.year, month: d.month + 1, day: 1 }
    } else {
        Date { year: d.year + 1, month: 1, day: 1 }
    };
    proof {
        if d.month == 12 {
            assert(d.year < 9999) by (nonlinear_arith)
                requires
                    12 * d.year + d.month - 13 < 119987,
                    d.month == 12,
            ;
        }
        lemma_month_of_index_roundtrip(r);
    }
    r
}

/// The ordered list of partition start dates covering `from..=to`, one per
/// calendar unit of `period`, both endpoints' units included. Monthly
/// partitions are the first days of every month from `from`'s month through
/// `to`'s month; daily partitions are every day from `from` through `to`.
/// A range whose start lies after its end (by month for `Monthly`, by day
/// for `Daily`) is refused.
pub fn partitions_between(from: &Date, to: &Date, period: &Timeperiod) -> (r: Result<
    Vec<Date>,
    CalendarError,
>)
    requires
        from.valid(),
        to.valid(),
    ensures
        r is Err <==> (match period {
            Timeperiod::Monthly => from.month_index() > to.month_index(),
            Timeperiod::Daily => from.day_number() > to.day_number(),
        }),
        r matches Ok(v) ==> {
            &&& v@.len() >= 1
            &&& (forall|i: int| 0 <= i < v@.len() ==> #[trigger] v@[i].valid())
            &&& (forall|i: int, j: int|
                0 <= i < j < v@.len() ==> #[trigger] v@[i].day_number()
                    < #[trigger] v@[j].day_number())
            &&& (forall|i: int, j: int| 0 <= i < j < v@.len() ==> #[trigger] v@[i] != #[trigger] v@[j])
            &&& (period is Monthly ==> {
                &&& v@.len() == to.month_index() - from.month_index() + 1
                &&& (forall|i: int|
                    0 <= i < v@.len() ==> #[trigger] v@[i] == month_of_index(
                        from.month_index() + i,
                    ))
                &&& v@[0] == from.spec_month_start()
            })
            &&& (period is Daily ==> {
                &&& v@.len() == to.day_number() - from.day_number() + 1
                &&& (forall|i: int|
                    0 <= i < v@.len() ==> #[trigger] v@[i].day_number() == from.day_number() + i)
                &&& v@[0] == *from
                &&& v@[v@.len() - 1] == *to
            })
        },
        // A one-day range yields exactly one partition: the day itself, or
        // its month's first day for a monthly range.
        from == to ==> r is Ok && (r matches Ok(v) ==> v@.len() == 1 && v@[0] == (
        if period is Monthly {
            from.spec_month_start()
        } else {
            *from
        })),
{
    match period {
        Timeperiod::Monthly => {
            proof {
                lemma_month_of_index_roundtrip(*from);
                lemma_month_of_index_roundtrip(*to);
            }
            if from.year > to.year || (from.year == to.year && from.month > to.month) {
                proof {
                    lemma_midx_orders(*from, *to);
                }
                return Err(CalendarError::ReversedRange);
            }
            proof {
                lemma_midx_orders(*from, *to);
            }
            let mut cur = from.month_start();
            let mut v: Vec<Date> = Vec::new();
            v.push(cur);
            while !(cur.year == to.year && cur.month == to.month)
                invariant
                    from.valid(),
                    to.valid(),
                    cur.valid(),
                    cur.day == 1,
                    from.month_index() <= cur.month_index() <= to.month_index(),
                    v@.len() == cur.month_index() - from.month_index() + 1,
                    forall|i: int|
                        0 <= i < v@.len() ==> #[trigger] v@[i] == month_of_index(
                            from.month_index() + i,
                        ),
                    forall|i: int| 0 <= i < v@.len() ==> #[trigger] v@[i].valid(),
                    v@[v@.len() - 1] == cur,
                decreases to.month_index() - cur.month_index(),
            {
                proof {
                    lemma_midx_orders(cur, *to);
                    assert(cur.month_index() < to.month_index());
                }
                cur = next_month_start(&cur);
                v.push(cur);
            }
            proof {
                lemma_midx_orders(cur, *to);
                assert(cur.month_index() == to.month_index());
                assert forall|i: int, j: int|
                    0 <= i < j < v@.len() implies #[trigger] v@[i].day_number()
                    < #[trigger] v@[j].day_number() by {
                    lemma_month_seq_ordered(v@, from.month_index(), i, j);
                }
                assert forall|i: int, j: int|
                    0 <= i < j < v@.len() implies #[trigger] v@[i] != #[trigger] v@[j] by {
                    assert(v@[i].day_number() < v@[j].day_number());
                }
            }
            Ok(v)
        },
        Timeperiod::Daily => {
            if !from.on_or_before(to) {
                return Err(CalendarError::ReversedRange);
            }
            let mut cur = *from;
            let mut v: Vec<Date> = Vec::new();
            v.push(cur);
            while !(cur.year == to.year && cur.month == to.month && cur.day == to.day)
                invariant
                    from.valid(),
                    to.valid(),
                    cur.valid(),
                    from.day_number() <= cur.day_number() <= to.day_number(),
                    v@.len() == cur.day_number() - from.day_number() + 1,
                    forall|i: int|
                        0 <= i < v@.len() ==> #[trigger] v@[i].day_number() == from.day_number()
                            + i,
                    forall|i: int| 0 <= i < v@.len() ==> #[trigger] v@[i].valid(),
                    v@[0] == *from,
                    v@[v@.len() - 1] == cur,
                decreases to.day_number() - cur.day_number(),
            {
                proof {
                    lemma_day_number_orders(cur, *to);
                    assert(cur.day_number() < to.day_number());
                    if cur.year == 9999 && cur.month == 12 && cur.day == 31 {
                        lemma_day_number_orders(*to, cur);
                        assert(false);
                    }
                }
                cur = cur.succ();
                v.push(cur);
            }
            proof {
                lemma_day_number_orders(cur, *to);
                assert(cur == *to);
                assert forall|i: int, j: int|
                    0 <= i < j < v@.len() implies #[trigger] v@[i] != #[trigger] v@[j] by {
                    assert(v@[i].day_number() < v@[j].day_number());
                }
            }
            Ok(v)
        },
    }
}

/// Proof that month indexes order first-of-month dates exactly as their
/// year/month parts and their day numbers do.
pub proof fn lemma_midx_orders(a: Date, b: Date)
    requires
        a.valid(),
        b.valid(),
    ensures
        (a.month_index() < b.month_index()) <==> (a.year < b.year || (a.year == b.year && a.month
            < b.month)),
        (a.month_index() == b.month_index()) <==> (a.year == b.year && a.month == b.month),
{
    assert((12 * a.year + a.month - 13 < 12 * b.year + b.month - 13) <==> (a.year < b.year || (
    a.year == b.year && a.month < b.month))) by (nonlinear_arith)
        requires
            1 <= a.month <= 12,
            1 <= b.month <= 12,
    ;
    assert((12 * a.year + a.month - 13 == 12 * b.year + b.month - 13) <==> (a.year == b.year
        && a.month == b.month)) by (nonlinear_arith)
        requires
            1 <= a.month <= 12,
            1 <= b.month <= 12,
    ;
}

/// Proof that the first-of-month date of an in-range month index is valid
/// and carries that index.
proof fn lemma_month_of_index_midx(idx: int)
    requires
        0 <= idx <= 119987,
    ensures
        month_of_index(idx).valid(),
        month_of_index(idx).month_index() == idx,
{
    assert(12 * ((idx + 12) / 12) + ((idx % 12) + 1) - 13 == idx && 1 <= (idx + 12) / 12 <= 9999
        && 0 <= idx % 12 < 12) by (nonlinear_arith)
        requires
            0 <= idx <= 119987,
    ;
}

/// Proof that a sequence of consecutive month starts is strictly increasing
/// by day number.
proof fn lemma_month_seq_ordered(v: Seq<Date>, base: int, i: int, j: int)
    requires
        0 <= i < j < v.len(),
        0 <= base,
        base + v.len() <= 119988,
        forall|k: int| 0 <= k < v.len() ==> #[trigger] v[k] == month_of_index(base + k),
        forall|k: int| 0 <= k < v.len() ==> #[trigger] v[k].valid(),
    ensures
        v[i].day_number() < v[j].day_number(),
    decreases j - i,
{
    if j == i + 1 {
        lemma_month_of_index_midx(base + i);
        lemma_month_of_index_midx(base + j);
        lemma_midx_orders(v[i], v[j]);
        lemma_day_number_orders(v[i], v[j]);
    } else {
        lemma_month_seq_ordered(v, base, i, j - 1);
        lemma_month_seq_ordered(v, base, j - 1, j);
    }
}

/// Proof that the calendar successor advances the day number by exactly one
/// and lands on a valid date.
pub proof fn lemma_succ_day_number(d: Date)
    requires
        d.valid(),
        !(d.year == 9999 && d.month == 12 && d.day == 31),
    ensures
        d.spec_succ().valid(),
        d.spec_succ().day_number() == d.day_number() + 1,
{
    let y = d.year as int;
    let m = d.month as int;
    if d.day < spec_days_in_month(y, m) {
    } else if d.month < 12 {
        assert(days_before_month(y, m + 1) == days_before_month(y, m) + spec_days_in_month(y, m));
    } else {
        assert(days_before_month(y, 13) == days_before_month(y, 12) + spec_days_in_month(y, 12));
        assert(days_before_year(y + 1) == days_before_year(y) + spec_year_days(y));
        assert(d.day == 31);
    }
}


} // verus!
