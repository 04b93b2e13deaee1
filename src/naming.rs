//! Snapshot names: `YYYYMMDD_HHMMSS-<host>`, fixed width and most significant
//! field first, so that plain string order is time order.
use vstd::prelude::*;

use crate::text::{chars_of, push_char, seq_less};
use chrono::{Datelike, Timelike};

verus! {

/// A calendar date and a time of day, to the second.
#[derive(Clone, Copy, Debug, PartialEq, Eq, Structural)]
pub struct Timestamp {
    pub year: u32,
    pub month: u32,
    pub day: u32,
    pub hour: u32,
    pub minute: u32,
    pub second: u32,
}

pub open spec fn is_leap_year(y: int) -> bool {
    y % 4 == 0 && (y % 100 != 0 || y % 400 == 0)
}

/// Days in month `m` (1 to 12) of year `y`, proleptic Gregorian calendar.
pub open spec fn days_in_month(y: int, m: int) -> int {
    if m == 2 {
        if is_leap_year(y) { 29 } else { 28 }
    } else if m == 4 || m == 6 || m == 9 || m == 11 {
        30
    } else {
        31
    }
}

pub open spec fn date_is_valid(y: int, m: int, d: int) -> bool {
    1 <= m <= 12 && 1 <= d <= days_in_month(y, m)
}

pub open spec fn time_is_valid(h: int, mi: int, s: int) -> bool {
    0 <= h < 24 && 0 <= mi < 60 && 0 <= s < 60
}

impl Timestamp {
    /// An existing date with a four-digit year, and a time of day.
    pub open spec fn wf(self) -> bool {
        self.year <= 9999 && date_is_valid(self.year as int, self.month as int, self.day as int)
            && time_is_valid(self.hour as int, self.minute as int, self.second as int)
    }

    /// Chronological order: the fields compared from the most significant.
    pub open spec fn before(self, o: Timestamp) -> bool {
        self.year < o.year || (self.year == o.year && (self.month < o.month || (self.month
            == o.month && (self.day < o.day || (self.day == o.day && (self.hour < o.hour || (
        self.hour == o.hour && (self.minute < o.minute || (self.minute == o.minute
            && self.second < o.second)))))))))
    }
}

/// Relies on `chrono::NaiveDate::from_ymd_opt`: a date exists exactly when
/// the month is 1 to 12 and the day lies within that month.
#[verifier::external_body]
fn date_exists(y: u32, m: u32, d: u32) -> (r: bool)
    requires
        y <= 9999,
    ensures
        r == date_is_valid(y as int, m as int, d as int),
{
    chrono::NaiveDate::from_ymd_opt(y as i32, m, d).is_some()
}

/// Relies on `chrono::NaiveTime::from_hms_opt`: hour below 24, minute and
/// second below 60.
#[verifier::external_body]
fn time_exists(h: u32, mi: u32, s: u32) -> (r: bool)
    ensures
        r == time_is_valid(h as int, mi as int, s as int),
{
    chrono::NaiveTime::from_hms_opt(h, mi, s).is_some()
}

/// Relies on `chrono::DateTime<Local>: From<SystemTime>`: the local date and
/// time now, as year, month, day, hour, minute and second. It takes clocks
/// before 1970 too; chrono still panics where the system's time zone data
/// is broken, which no argument here can rule out.
#[verifier::external_body]
fn local_now_parts() -> (r: (i32, u32, u32, u32, u32, u32)) {
    let now = chrono::DateTime::<chrono::Local>::from(std::time::SystemTime::now());
    (now.year(), now.month(), now.day(), now.hour(), now.minute(), now.second())
}

/// Relies on `hostname::get`: the machine's host name, if it can be read.
#[verifier::external_body]
fn host_name() -> (r: Option<String>) {
    hostname::get().ok().map(|h| h.to_string_lossy().to_string())
}

impl Timestamp {
    /// The timestamp with these fields, where they name an existing moment
    /// with a four-digit year.
    pub fn from_parts(year: i32, month: u32, day: u32, hour: u32, minute: u32, second: u32) -> (r:
        Option<Timestamp>)
        ensures
            r is Some <==> (0 <= year <= 9999 && date_is_valid(year as int, month as int, day as int)
                && time_is_valid(hour as int, minute as int, second as int)),
            r matches Some(t) ==> t.wf() && t.year == year && t.month == month && t.day == day
                && t.hour == hour && t.minute == minute && t.second == second,
    {
        if year < 0 || year > 9999 {
            return None;
        }
        let y = year as u32;
        if !date_exists(y, month, day) || !time_exists(hour, minute, second) {
            return None;
        }
        Some(Timestamp { year: y, month, day, hour, minute, second })
    }

    /// The local time now, where its year has four digits.
    pub fn now() -> (r: Option<Timestamp>)
        ensures
            r matches Some(t) ==> t.wf(),
    {
        let (y, mo, d, h, mi, s) = local_now_parts();
        Timestamp::from_parts(y, mo, d, h, mi, s)
    }
}

pub open spec fn digit_char(k: int) -> char {
    if k == 0 {
        '0'
    } else if k == 1 {
        '1'
    } else if k == 2 {
        '2'
    } else if k == 3 {
        '3'
    } else if k == 4 {
        '4'
    } else if k == 5 {
        '5'
    } else if k == 6 {
        '6'
    } else if k == 7 {
        '7'
    } else if k == 8 {
        '8'
    } else {
        '9'
    }
}

pub open spec fn is_digit(c: char) -> bool {
    '0' <= c <= '9'
}

pub open spec fn digit_value(c: char) -> int {
    (c as u32) - ('0' as u32)
}

/// `n` in two decimal digits, zero-padded.
pub open spec fn two_digits(n: int) -> Seq<char> {
    seq![digit_char(n / 10), digit_char(n % 10)]
}

/// `n` in four decimal digits, zero-padded.
pub open spec fn four_digits(n: int) -> Seq<char> {
    seq![digit_char(n / 1000), digit_char(n / 100 % 10), digit_char(n / 10 % 10), digit_char(n % 10)]
}

/// The timestamp as `YYYYMMDD_HHMMSS`.
pub open spec fn stamp_text(t: Timestamp) -> Seq<char> {
    four_digits(t.year as int) + two_digits(t.month as int) + two_digits(t.day as int) + seq!['_']
        + two_digits(t.hour as int) + two_digits(t.minute as int) + two_digits(t.second as int)
}

/// The timestamp as `YYYY-MM-DD HH:MM:SS`.
pub open spec fn display_text(t: Timestamp) -> Seq<char> {
    four_digits(t.year as int) + seq!['-'] + two_digits(t.month as int) + seq!['-'] + two_digits(
        t.day as int) + seq![' '] + two_digits(t.hour as int) + seq![':'] + two_digits(
        t.minute as int) + seq![':'] + two_digits(t.second as int)
}

/// The name of a snapshot taken at `t` on host `host`.
pub open spec fn snapshot_name(t: Timestamp, host: Seq<char>) -> Seq<char> {
    stamp_text(t) + seq!['-'] + host
}


/// Index of the first `-` in `s` at or after `i`; `s.len()` where none is.
pub open spec fn first_dash_from(s: Seq<char>, i: int) -> int
    decreases s.len() - i,
{
    if i < 0 || i >= s.len() {
        s.len() as int
    } else if s[i] == '-' {
        i
    } else {
        first_dash_from(s, i + 1)
    }
}

/// A name split at its first `-`: what comes before it, and what follows it
/// (empty where there is no `-`).
pub open spec fn split_name(s: Seq<char>) -> (Seq<char>, Seq<char>) {
    let k = first_dash_from(s, 0);
    if k < s.len() {
        (s.subrange(0, k), s.subrange(k + 1, s.len() as int))
    } else {
        (s, Seq::empty())
    }
}

pub open spec fn num2(s: Seq<char>, i: int) -> int {
    10 * digit_value(s[i]) + digit_value(s[i + 1])
}

pub open spec fn num4(s: Seq<char>, i: int) -> int {
    1000 * digit_value(s[i]) + 100 * digit_value(s[i + 1]) + 10 * digit_value(s[i + 2])
        + digit_value(s[i + 3])
}

/// Fifteen characters: digits, with `_` in ninth place.
pub open spec fn stamp_shape(s: Seq<char>) -> bool {
    s.len() == 15 && s[8] == '_' && forall|i: int| 0 <= i < 15 && i != 8 ==> is_digit(#[trigger] s[i])
}

/// The timestamp that `s` spells as `YYYYMMDD_HHMMSS`, where it spells an
/// existing moment.
pub open spec fn parse_stamp(s: Seq<char>) -> Option<Timestamp> {
    if stamp_shape(s) && date_is_valid(num4(s, 0), num2(s, 4), num2(s, 6)) && time_is_valid(
        num2(s, 9),
        num2(s, 11),
        num2(s, 13),
    ) {
        Some(
            Timestamp {
                year: num4(s, 0) as u32,
                month: num2(s, 4) as u32,
                day: num2(s, 6) as u32,
                hour: num2(s, 9) as u32,
                minute: num2(s, 11) as u32,
                second: num2(s, 13) as u32,
            },
        )
    } else {
        None
    }
}

pub open spec fn invalid_stamp_text() -> Seq<char> {
    seq!['i', 'n', 'v', 'a', 'l', 'i', 'd', ' ', 't', 'i', 'm', 'e', 's', 't', 'a', 'm', 'p']
}

/// How a snapshot's timestamp part is shown: `YYYY-MM-DD HH:MM:SS`, or the
/// words "invalid timestamp" where the part spells no moment.
pub open spec fn stamp_display(s: Seq<char>) -> Seq<char> {
    match parse_stamp(s) {
        Some(t) => display_text(t),
        None => invalid_stamp_text(),
    }
}

fn digit_to_char(k: u32) -> (r: char)
    requires
        k < 10,
    ensures
        r == digit_char(k as int),
{
    if k == 0 {
        '0'
    } else if k == 1 {
        '1'
    } else if k == 2 {
        '2'
    } else if k == 3 {
        '3'
    } else if k == 4 {
        '4'
    } else if k == 5 {
        '5'
    } else if k == 6 {
        '6'
    } else if k == 7 {
        '7'
    } else if k == 8 {
        '8'
    } else {
        '9'
    }
}

fn push_two_digits(s: &mut String, n: u32)
    requires
        n < 100,
    ensures
        final(s)@ == old(s)@ + two_digits(n as int),
{
    push_char(s, digit_to_char(n / 10));
    push_char(s, digit_to_char(n % 10));
    assert(final(s)@ =~= old(s)@ + two_digits(n as int));
}

fn push_four_digits(s: &mut String, n: u32)
    requires
        n < 10000,
    ensures
        final(s)@ == old(s)@ + four_digits(n as int),
{
    push_char(s, digit_to_char(n / 1000));
    push_char(s, digit_to_char(n / 100 % 10));
    push_char(s, digit_to_char(n / 10 % 10));
    push_char(s, digit_to_char(n % 10));
    assert(final(s)@ =~= old(s)@ + four_digits(n as int));
}

impl Timestamp {
    /// The timestamp as `YYYYMMDD_HHMMSS`.
    pub fn stamp(&self) -> (r: String)
        requires
            self.wf(),
        ensures
            r@ == stamp_text(*self),
    {
        let mut s = String::new();
        push_four_digits(&mut s, self.year);
        push_two_digits(&mut s, self.month);
        push_two_digits(&mut s, self.day);
        push_char(&mut s, '_');
        push_two_digits(&mut s, self.hour);
        push_two_digits(&mut s, self.minute);
        push_two_digits(&mut s, self.second);
        assert(s@ =~= stamp_text(*self));
        s
    }

    /// The timestamp as `YYYY-MM-DD HH:MM:SS`.
    pub fn display(&self) -> (r: String)
        requires
            self.wf(),
        ensures
            r@ == display_text(*self),
    {
        let mut s = String::new();
        push_four_digits(&mut s, self.year);
        push_char(&mut s, '-');
        push_two_digits(&mut s, self.month);
        push_char(&mut s, '-');
        push_two_digits(&mut s, self.day);
        push_char(&mut s, ' ');
        push_two_digits(&mut s, self.hour);
        push_char(&mut s, ':');
        push_two_digits(&mut s, self.minute);
        push_char(&mut s, ':');
        push_two_digits(&mut s, self.second);
        assert(s@ =~= display_text(*self));
        s
    }
}

/// The name of a snapshot taken at `t` on the host named `host`.
pub fn make_snapshot_name(t: &Timestamp, host: &str) -> (r: String)
    requires
        t.wf(),
    ensures
        r@ == snapshot_name(*t, host@),
{
    let mut s = t.stamp();
    push_char(&mut s, '-');
    s.append(host);
    s
}

/// The host part of a snapshot name: the host name where it could be read,
/// else the marker `[unknown host]`.
pub fn origin_name(host: Option<String>) -> (r: String)
    ensures
        host matches Some(h) ==> r@ == h@,
        host is None ==> r@ == unknown_host_text(),
{
    match host {
        Some(h) => h,
        None => {
            let s = String::from_str("[unknown host]");
            proof {
                reveal_strlit("[unknown host]");
            }
            assert(s@ =~= unknown_host_text());
            s
        },
    }
}

pub open spec fn unknown_host_text() -> Seq<char> {
    seq!['[', 'u', 'n', 'k', 'n', 'o', 'w', 'n', ' ', 'h', 'o', 's', 't', ']']
}

/// The name for a snapshot taken now on this machine; `None` where the local
/// year does not have four digits.
pub fn new_snapshot_name() -> (r: Option<String>)
    ensures
        r matches Some(n) ==> exists|t: Timestamp, h: Seq<char>|
            t.wf() && n@ == snapshot_name(t, h),
{
    match Timestamp::now() {
        Some(t) => {
            let host = origin_name(host_name());
            let n = make_snapshot_name(&t, host.as_str());
            Some(n)
        },
        None => None,
    }
}

fn char_digit_value(c: char) -> (r: u32)
    requires
        is_digit(c),
    ensures
        r as int == digit_value(c),
        r < 10,
{
    (c as u32) - ('0' as u32)
}

/// The timestamp spelled by `s`, where `s` spells one.
pub fn parse_stamp_chars(s: &Vec<char>) -> (r: Option<Timestamp>)
    ensures
        r == parse_stamp(s@),
{
    if s.len() != 15 || s[8] != '_' {
        return None;
    }
    let mut i: usize = 0;
    while i < 15
        invariant
            s@.len() == 15,
            i <= 15,
            forall|j: int| 0 <= j < i && j != 8 ==> is_digit(#[trigger] s@[j]),
        decreases 15 - i,
    {
        if i != 8 && !('0' <= s[i] && s[i] <= '9') {
            return None;
        }
        i += 1;
    }
    let y = 1000 * char_digit_value(s[0]) + 100 * char_digit_value(s[1]) + 10 * char_digit_value(s[2])
        + char_digit_value(s[3]);
    let mo = 10 * char_digit_value(s[4]) + char_digit_value(s[5]);
    let d = 10 * char_digit_value(s[6]) + char_digit_value(s[7]);
    let h = 10 * char_digit_value(s[9]) + char_digit_value(s[10]);
    let mi = 10 * char_digit_value(s[11]) + char_digit_value(s[12]);
    let sec = 10 * char_digit_value(s[13]) + char_digit_value(s[14]);
    if date_exists(y, mo, d) && time_exists(h, mi, sec) {
        Some(Timestamp { year: y, month: mo, day: d, hour: h, minute: mi, second: sec })
    } else {
        None
    }
}

/// Splits a snapshot name at its first `-` and shows its two parts: the
/// timestamp as `YYYY-MM-DD HH:MM:SS` (or "invalid timestamp"), and the host.
pub fn parse_snapshot_name(name: &str) -> (r: (String, String))
    ensures
        r.0@ == stamp_display(split_name(name@).0),
        r.1@ == split_name(name@).1,
{
    let cs = chars_of(name);
    let n = cs.len();
    let mut k: usize = 0;
    while k < n && cs[k] != '-'
        invariant
            cs@ == name@,
            n == cs@.len(),
            k <= n,
            first_dash_from(cs@, 0) == first_dash_from(cs@, k as int),
        decreases n - k,
    {
        k += 1;
    }
    let head = name.substring_char(0, k);
    let tail = if k < n {
        name.substring_char(k + 1, n)
    } else {
        name.substring_char(n, n)
    };
    let display = match parse_stamp_chars(&chars_of(head)) {
        Some(t) => t.display(),
        None => {
            let s = String::from_str("invalid timestamp");
            proof {
                reveal_strlit("invalid timestamp");
            }
            assert(s@ =~= invalid_stamp_text());
            s
        },
    };
    assert(head@ =~= split_name(name@).0);
    assert(tail@ =~= split_name(name@).1);
    (display, tail.to_string())
}


proof fn lemma_digit(k: int)
    requires
        0 <= k < 10,
    ensures
        is_digit(digit_char(k)),
        digit_value(digit_char(k)) == k,
        digit_char(k) != '-',
        digit_char(k) as u32 == '0' as u32 + k,
{
}

proof fn lemma_two_digits(n: int)
    requires
        0 <= n < 100,
    ensures
        two_digits(n).len() == 2,
        is_digit(two_digits(n)[0]) && is_digit(two_digits(n)[1]),
        num2(two_digits(n), 0) == n,
{
    lemma_digit(n / 10);
    lemma_digit(n % 10);
}

proof fn lemma_four_digits(n: int)
    requires
        0 <= n < 10000,
    ensures
        four_digits(n).len() == 4,
        forall|i: int| 0 <= i < 4 ==> is_digit(#[trigger] four_digits(n)[i]),
        num4(four_digits(n), 0) == n,
{
    lemma_digit(n / 1000);
    lemma_digit(n / 100 % 10);
    lemma_digit(n / 10 % 10);
    lemma_digit(n % 10);
    lemma_four_split(n);
}

proof fn lemma_four_split(n: int)
    requires
        0 <= n < 10000,
    ensures
        1000 * (n / 1000) + 100 * (n / 100 % 10) + 10 * (n / 10 % 10) + n % 10 == n,
{
    assert(n / 100 % 10 == n / 100 - 10 * (n / 1000));
    assert(n / 10 % 10 == n / 10 - 10 * (n / 100));
    assert(n % 10 == n - 10 * (n / 10));
}

proof fn lemma_stamp_chars(t: Timestamp)
    requires
        t.wf(),
    ensures
        stamp_text(t).len() == 15,
        stamp_shape(stamp_text(t)),
        forall|i: int| 0 <= i < 15 ==> #[trigger] stamp_text(t)[i] != '-',
        num4(stamp_text(t), 0) == t.year,
        num2(stamp_text(t), 4) == t.month,
        num2(stamp_text(t), 6) == t.day,
        num2(stamp_text(t), 9) == t.hour,
        num2(stamp_text(t), 11) == t.minute,
        num2(stamp_text(t), 13) == t.second,
{
    let s = stamp_text(t);
    let y = four_digits(t.year as int);
    let mo = two_digits(t.month as int);
    let d = two_digits(t.day as int);
    let h = two_digits(t.hour as int);
    let mi = two_digits(t.minute as int);
    let se = two_digits(t.second as int);
    lemma_four_digits(t.year as int);
    lemma_two_digits(t.month as int);
    lemma_two_digits(t.day as int);
    lemma_two_digits(t.hour as int);
    lemma_two_digits(t.minute as int);
    lemma_two_digits(t.second as int);
    assert(s =~= seq![y[0], y[1], y[2], y[3], mo[0], mo[1], d[0], d[1], '_', h[0], h[1], mi[0],
        mi[1], se[0], se[1]]);
    assert(s[8] == '_');
}

proof fn lemma_first_dash_at(s: Seq<char>, i: int, k: int)
    requires
        0 <= i <= k < s.len(),
        s[k] == '-',
        forall|j: int| i <= j < k ==> #[trigger] s[j] != '-',
    ensures
        first_dash_from(s, i) == k,
    decreases k - i,
{
    if i < k {
        lemma_first_dash_at(s, i + 1, k);
    }
}

/// A name made at a moment on a host splits back into that moment's stamp
/// and the host, and its timestamp part reads back as the same moment.
pub proof fn lemma_name_round_trip(t: Timestamp, host: Seq<char>)
    requires
        t.wf(),
    ensures
        split_name(snapshot_name(t, host)) == (stamp_text(t), host),
        parse_stamp(stamp_text(t)) == Some(t),
        stamp_display(split_name(snapshot_name(t, host)).0) == display_text(t),
{
    let n = snapshot_name(t, host);
    lemma_stamp_chars(t);
    assert(n[15] == '-');
    assert forall|j: int| 0 <= j < 15 implies #[trigger] n[j] != '-' by {
        assert(n[j] == stamp_text(t)[j]);
    }
    lemma_first_dash_at(n, 0, 15);
    assert(n.subrange(0, 15) =~= stamp_text(t));
    assert(n.subrange(16, n.len() as int) =~= host);
}


proof fn lemma_less_in_middle(p: Seq<char>, x: Seq<char>, y: Seq<char>, r1: Seq<char>, r2: Seq<char>)
    requires
        x.len() == y.len(),
        seq_less(x, y),
    ensures
        seq_less(p + x + r1, p + y + r2),
{
    let j = choose|j: int|
        #![trigger x[j], y[j]]
        0 <= j <= x.len() && j <= y.len() && x.subrange(0, j) == y.subrange(0, j) && ((j == x.len()
            && j < y.len()) || (j < x.len() && j < y.len() && (x[j] as u32) < (y[j] as u32)));
    let a = p + x + r1;
    let b = p + y + r2;
    let i = p.len() + j;
    assert forall|k: int| 0 <= k < i implies a[k] == b[k] by {
        if k >= p.len() {
            assert(x.subrange(0, j)[k - p.len()] == y.subrange(0, j)[k - p.len()]);
        }
    }
    assert(a.subrange(0, i) =~= b.subrange(0, i));
    assert(a[i] == x[j] && b[i] == y[j]);
    assert((a[i] as u32) < (b[i] as u32));
}

proof fn lemma_less_at(x: Seq<char>, y: Seq<char>, j: int)
    requires
        0 <= j < x.len(),
        j < y.len(),
        x.subrange(0, j) == y.subrange(0, j),
        (x[j] as u32) < (y[j] as u32),
    ensures
        seq_less(x, y),
{
}

proof fn lemma_two_digits_less(a: int, b: int)
    requires
        0 <= a < b < 100,
    ensures
        seq_less(two_digits(a), two_digits(b)),
{
    let x = two_digits(a);
    let y = two_digits(b);
    lemma_digit(a / 10);
    lemma_digit(a % 10);
    lemma_digit(b / 10);
    lemma_digit(b % 10);
    if a / 10 < b / 10 {
        assert(x.subrange(0, 0) =~= y.subrange(0, 0));
        lemma_less_at(x, y, 0);
    } else {
        assert(x.subrange(0, 1) =~= y.subrange(0, 1));
        lemma_less_at(x, y, 1);
    }
}

proof fn lemma_four_digits_less(a: int, b: int)
    requires
        0 <= a < b < 10000,
    ensures
        seq_less(four_digits(a), four_digits(b)),
{
    let x = four_digits(a);
    let y = four_digits(b);
    let (a0, a1, a2, a3) = (a / 1000, a / 100 % 10, a / 10 % 10, a % 10);
    let (b0, b1, b2, b3) = (b / 1000, b / 100 % 10, b / 10 % 10, b % 10);
    lemma_digit(a0);
    lemma_digit(a1);
    lemma_digit(a2);
    lemma_digit(a3);
    lemma_digit(b0);
    lemma_digit(b1);
    lemma_digit(b2);
    lemma_digit(b3);
    lemma_four_split(a);
    lemma_four_split(b);
    assert(a == 1000 * a0 + 100 * a1 + 10 * a2 + a3);
    assert(b == 1000 * b0 + 100 * b1 + 10 * b2 + b3);
    if a0 != b0 {
        assert(a0 < b0);
        assert(x.subrange(0, 0) =~= y.subrange(0, 0));
        lemma_less_at(x, y, 0);
    } else if a1 != b1 {
        assert(a1 < b1);
        assert(x.subrange(0, 1) =~= y.subrange(0, 1));
        lemma_less_at(x, y, 1);
    } else if a2 != b2 {
        assert(a2 < b2);
        assert(x.subrange(0, 2) =~= y.subrange(0, 2));
        lemma_less_at(x, y, 2);
    } else {
        assert(a3 < b3);
        assert(x.subrange(0, 3) =~= y.subrange(0, 3));
        lemma_less_at(x, y, 3);
    }
}

/// Names made at two moments, the first before the second, are in the same
/// order as strings, whatever the two hosts.
pub proof fn lemma_names_follow_time(t1: Timestamp, t2: Timestamp, h1: Seq<char>, h2: Seq<char>)
    requires
        t1.wf(),
        t2.wf(),
        t1.before(t2),
    ensures
        seq_less(snapshot_name(t1, h1), snapshot_name(t2, h2)),
{
    let y1 = four_digits(t1.year as int);
    let y2 = four_digits(t2.year as int);
    let mo1 = two_digits(t1.month as int);
    let mo2 = two_digits(t2.month as int);
    let d1 = two_digits(t1.day as int);
    let d2 = two_digits(t2.day as int);
    let hr1 = two_digits(t1.hour as int);
    let hr2 = two_digits(t2.hour as int);
    let mi1 = two_digits(t1.minute as int);
    let mi2 = two_digits(t2.minute as int);
    let s1 = two_digits(t1.second as int);
    let s2 = two_digits(t2.second as int);
    let u = seq!['_'];
    let m = seq!['-'];
    let n1 = snapshot_name(t1, h1);
    let n2 = snapshot_name(t2, h2);
    if t1.year < t2.year {
        lemma_four_digits_less(t1.year as int, t2.year as int);
        let e = Seq::<char>::empty();
        lemma_less_in_middle(e, y1, y2, mo1 + d1 + u + hr1 + mi1 + s1 + m + h1, mo2 + d2 + u + hr2
            + mi2 + s2 + m + h2);
        assert(n1 =~= e + y1 + (mo1 + d1 + u + hr1 + mi1 + s1 + m + h1));
        assert(n2 =~= e + y2 + (mo2 + d2 + u + hr2 + mi2 + s2 + m + h2));
    } else if t1.month < t2.month {
        lemma_two_digits_less(t1.month as int, t2.month as int);
        lemma_less_in_middle(y1, mo1, mo2, d1 + u + hr1 + mi1 + s1 + m + h1, d2 + u + hr2 + mi2 + s2
            + m + h2);
        assert(n1 =~= y1 + mo1 + (d1 + u + hr1 + mi1 + s1 + m + h1));
        assert(n2 =~= y1 + mo2 + (d2 + u + hr2 + mi2 + s2 + m + h2));
    } else if t1.day < t2.day {
        lemma_two_digits_less(t1.day as int, t2.day as int);
        lemma_less_in_middle(y1 + mo1, d1, d2, u + hr1 + mi1 + s1 + m + h1, u + hr2 + mi2 + s2 + m
            + h2);
        assert(n1 =~= y1 + mo1 + d1 + (u + hr1 + mi1 + s1 + m + h1));
        assert(n2 =~= y1 + mo1 + d2 + (u + hr2 + mi2 + s2 + m + h2));
    } else if t1.hour < t2.hour {
        lemma_two_digits_less(t1.hour as int, t2.hour as int);
        lemma_less_in_middle(y1 + mo1 + d1 + u, hr1, hr2, mi1 + s1 + m + h1, mi2 + s2 + m + h2);
        assert(n1 =~= y1 + mo1 + d1 + u + hr1 + (mi1 + s1 + m + h1));
        assert(n2 =~= y1 + mo1 + d1 + u + hr2 + (mi2 + s2 + m + h2));
    } else if t1.minute < t2.minute {
        lemma_two_digits_less(t1.minute as int, t2.minute as int);
        lemma_less_in_middle(y1 + mo1 + d1 + u + hr1, mi1, mi2, s1 + m + h1, s2 + m + h2);
        assert(n1 =~= y1 + mo1 + d1 + u + hr1 + mi1 + (s1 + m + h1));
        assert(n2 =~= y1 + mo1 + d1 + u + hr1 + mi2 + (s2 + m + h2));
    } else {
        lemma_two_digits_less(t1.second as int, t2.second as int);
        lemma_less_in_middle(y1 + mo1 + d1 + u + hr1 + mi1, s1, s2, m + h1, m + h2);
        assert(n1 =~= y1 + mo1 + d1 + u + hr1 + mi1 + s1 + (m + h1));
        assert(n2 =~= y1 + mo1 + d1 + u + hr1 + mi1 + s2 + (m + h2));
    }
}

} // verus!
