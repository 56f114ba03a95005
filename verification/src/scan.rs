//! Reading a footage folder: recording ids, start times from filenames, and
//! grouping recordings into sessions.
use vstd::prelude::*;

use crate::project::{short, short_digest};
use crate::text::{
    base_name, chars_of, concat, decimal, digits_value, file_name, is_digit, lemma_digits_value_bound,
    lowercase, pow10, push_decimal, push_str, same_text, string_of, to_lowercase, extension,
    extension_of, owned,
};

verus! {

/// A recording's id: stable across runs and machines, from the file's name
/// and its size in bytes.
pub open spec fn spec_recording_id(path: Seq<char>, size: u64) -> Seq<char> {
    let name = match base_name(path) {
        Some(n) => n,
        None => Seq::<char>::empty(),
    };
    short_digest(name + ":"@ + decimal(size as nat))
}

/// Stable across runs and machines: path basename plus byte size.
pub fn recording_id(path: &str, size: u64) -> (r: String)
    ensures
        r@ == spec_recording_id(path@, size),
{
    let mut text = match file_name(path) {
        Some(n) => n,
        None => String::new(),
    };
    push_str(&mut text, ":");
    push_decimal(&mut text, size);
    short(text.as_str())
}

/// A start time read from a filename, with every field in range.
#[derive(Debug, Clone, Copy, PartialEq, Eq, Structural)]
pub struct Stamp {
    pub year: i32,
    pub month: u32,
    pub day: u32,
    pub hour: u32,
    pub minute: u32,
    pub second: u32,
}

/// Separators allowed inside a date or a clock time.
pub open spec fn is_field_sep(c: char) -> bool {
    c == '-' || c == '.' || c == '_'
}

/// Characters that may stand between the date and the clock time.
pub open spec fn is_gap(c: char) -> bool {
    c == ' ' || c == '_' || c == '-'
}

/// `n` digits stand at `s[i..i + n]`.
pub open spec fn digits_at(s: Seq<char>, i: int, n: int) -> bool {
    0 <= i && i + n <= s.len() && forall|k: int| i <= k < i + n ==> is_digit(#[trigger] s[k])
}

/// The number spelled by `s[i..i + n]`.
pub open spec fn number_at(s: Seq<char>, i: int, n: int) -> nat {
    digits_value(s.subrange(i, i + n))
}

/// How many gap characters follow one another from `s[i]` on.
pub open spec fn gap_run(s: Seq<char>, i: int) -> nat
    decreases s.len() - i,
{
    if 0 <= i < s.len() && is_gap(s[i]) {
        1 + gap_run(s, i + 1)
    } else {
        0
    }
}

/// Where the hour stands when the clock time follows a date that ends at `t`.
pub open spec fn hour_at(s: Seq<char>, t: int) -> int {
    t + gap_run(s, t)
}

/// A clock time follows the date that ends at `t`: one or more gap
/// characters, two digits, a separator, two digits.
pub open spec fn clock_at(s: Seq<char>, t: int) -> bool {
    let j = hour_at(s, t);
    &&& gap_run(s, t) >= 1
    &&& digits_at(s, j, 2)
    &&& j + 2 < s.len()
    &&& is_field_sep(s[j + 2])
    &&& digits_at(s, j + 3, 2)
}

/// The clock time that follows the date ending at `t` carries seconds.
pub open spec fn seconds_at(s: Seq<char>, t: int) -> bool {
    let j = hour_at(s, t);
    0 <= j + 5 < s.len() && is_field_sep(s[j + 5]) && digits_at(s, j + 6, 2)
}

/// Year first (OBS, ShadowPlay): `2024-03-09 21-14-05`.
pub open spec fn ymd_at(s: Seq<char>, i: int) -> bool {
    &&& digits_at(s, i, 4)
    &&& i + 4 < s.len() && is_field_sep(s[i + 4])
    &&& digits_at(s, i + 5, 2)
    &&& i + 7 < s.len() && is_field_sep(s[i + 7])
    &&& digits_at(s, i + 8, 2)
    &&& clock_at(s, i + 10)
}

/// Day first with dots (Windows Game Bar): `09.03.2024 21.14`.
pub open spec fn dmy_at(s: Seq<char>, i: int) -> bool {
    &&& digits_at(s, i, 2)
    &&& i + 2 < s.len() && s[i + 2] == '.'
    &&& digits_at(s, i + 3, 2)
    &&& i + 5 < s.len() && s[i + 5] == '.'
    &&& digits_at(s, i + 6, 4)
    &&& clock_at(s, i + 10)
}

pub open spec fn first_ymd(s: Seq<char>, i: int) -> bool {
    0 <= i && ymd_at(s, i) && forall|j: int| 0 <= j < i ==> !ymd_at(s, j)
}

pub open spec fn first_dmy(s: Seq<char>, i: int) -> bool {
    0 <= i && dmy_at(s, i) && forall|j: int| 0 <= j < i ==> !dmy_at(s, j)
}

/// The fields a year-first stamp at `s[i..]` spells, before any range check;
/// a clock time without seconds reads as zero seconds.
pub open spec fn ymd_stamp(s: Seq<char>, i: int) -> Stamp {
    clocked(s, i + 10, number_at(s, i, 4), number_at(s, i + 5, 2), number_at(s, i + 8, 2))
}

/// The fields a day-first stamp at `s[i..]` spells, before any range check.
pub open spec fn dmy_stamp(s: Seq<char>, i: int) -> Stamp {
    clocked(s, i + 10, number_at(s, i + 6, 4), number_at(s, i + 3, 2), number_at(s, i, 2))
}

/// A date with the clock time that follows it at `t`.
pub open spec fn clocked(s: Seq<char>, t: int, y: nat, mo: nat, d: nat) -> Stamp {
    let j = hour_at(s, t);
    Stamp {
        year: y as i32,
        month: mo as u32,
        day: d as u32,
        hour: number_at(s, j, 2) as u32,
        minute: number_at(s, j + 3, 2) as u32,
        second: if seconds_at(s, t) { number_at(s, j + 6, 2) as u32 } else { 0 },
    }
}

/// The leftmost year-first stamp, else the leftmost day-first one.
pub open spec fn stamp_fields(s: Seq<char>) -> Option<Stamp> {
    if exists|i: int| first_ymd(s, i) {
        Some(ymd_stamp(s, choose|i: int| first_ymd(s, i)))
    } else if exists|i: int| first_dmy(s, i) {
        Some(dmy_stamp(s, choose|i: int| first_dmy(s, i)))
    } else {
        None
    }
}

pub open spec fn is_leap_year(y: int) -> bool {
    y % 4 == 0 && (y % 100 != 0 || y % 400 == 0)
}

/// Days in month `m` of year `y`, proleptic Gregorian.
pub open spec fn days_in_month(y: int, m: int) -> int {
    if m == 2 {
        if is_leap_year(y) { 29 } else { 28 }
    } else if m == 4 || m == 6 || m == 9 || m == 11 {
        30
    } else {
        31
    }
}

pub open spec fn is_calendar_date(y: int, m: int, d: int) -> bool {
    1 <= m <= 12 && 1 <= d <= days_in_month(y, m)
}

pub open spec fn is_clock_time(h: int, m: int, s: int) -> bool {
    0 <= h < 24 && 0 <= m < 60 && 0 <= s < 60
}

/// The fields name a real calendar day and clock time.
pub open spec fn is_real(st: Stamp) -> bool {
    is_calendar_date(st.year as int, st.month as int, st.day as int) && is_clock_time(
        st.hour as int,
        st.minute as int,
        st.second as int,
    )
}

/// The start time a filename carries, if it carries a real one.
pub open spec fn spec_parse_stamp(s: Seq<char>) -> Option<Stamp> {
    match stamp_fields(s) {
        Some(st) => if is_real(st) { Some(st) } else { None },
        None => None,
    }
}

/// `chrono::NaiveDate`, carried through unopened.
#[verifier::external_type_specification]
#[verifier::external_body]
pub struct ExNaiveDate(chrono::NaiveDate);

/// `chrono::NaiveDateTime`, carried through unopened.
#[verifier::external_type_specification]
#[verifier::external_body]
pub struct ExNaiveDateTime(chrono::NaiveDateTime);

/// `chrono::NaiveDate::from_ymd_opt`: claimed to give a date exactly when
/// the month is 1 to 12 and the day exists in that month of the proleptic
/// Gregorian calendar (for years 0 to 9999, well inside its range).
#[verifier::external_body]
fn calendar_date(year: i32, month: u32, day: u32) -> (r: Option<chrono::NaiveDate>)
    requires
        0 <= year <= 9999,
    ensures
        r is Some <==> is_calendar_date(year as int, month as int, day as int),
{
    chrono::NaiveDate::from_ymd_opt(year, month, day)
}

/// `chrono::NaiveDate::and_hms_opt`: claimed to give a date-time exactly when
/// the hour is below 24 and the minute and second below 60 (no leap second).
#[verifier::external_body]
fn at_clock(date: &chrono::NaiveDate, hour: u32, minute: u32, second: u32) -> (r: Option<
    chrono::NaiveDateTime,
>)
    ensures
        r is Some <==> is_clock_time(hour as int, minute as int, second as int),
{
    date.and_hms_opt(hour, minute, second)
}

/// The number spelled by the `n` digits at `v[i..]`.
fn number_in(v: &Vec<char>, i: usize, n: usize) -> (r: u32)
    requires
        n <= 4,
        digits_at(v@, i as int, n as int),
    ensures
        r == number_at(v@, i as int, n as int),
        r < pow10(n as nat),
{
    let len = v.len();
    let mut r: u32 = 0;
    let mut k: usize = 0;
    while k < n
        invariant
            k <= n <= 4,
            len == v@.len(),
            digits_at(v@, i as int, n as int),
            r == digits_value(v@.subrange(i as int, i + k)),
            r < pow10(k as nat),
        decreases n - k,
    {
        let c = v[i + k];
        proof {
            assert(is_digit(v@[i + k]));
            let next = v@.subrange(i as int, i + k + 1);
            assert(next.drop_last() == v@.subrange(i as int, i + k));
            assert(next.last() == c);
            assert(pow10((k + 1) as nat) == 10 * pow10(k as nat));
            assert(pow10(k as nat) <= 1000) by {
                reveal_with_fuel(pow10, 5);
                if k == 0 {
                } else if k == 1 {
                } else if k == 2 {
                } else {
                    assert(k == 3);
                }
            }
        }
        let d = (c as u32) - 48;
        r = r * 10 + d;
        k = k + 1;
    }
    r
}

fn digits_in(v: &Vec<char>, i: usize, n: usize) -> (b: bool)
    ensures
        b == digits_at(v@, i as int, n as int),
{
    if i > v.len() || n > v.len() - i {
        return false;
    }
    let len = v.len();
    let mut k: usize = 0;
    while k < n
        invariant
            len == v@.len(),
            i + n <= v@.len(),
            k <= n,
            forall|j: int| i <= j < i + k ==> is_digit(#[trigger] v@[j]),
        decreases n - k,
    {
        let c = v[i + k];
        if !('0' <= c && c <= '9') {
            return false;
        }
        k = k + 1;
    }
    true
}

fn field_sep_at(v: &Vec<char>, i: usize) -> (b: bool)
    ensures
        b == (i < v@.len() && is_field_sep(v@[i as int])),
{
    i < v.len() && (v[i] == '-' || v[i] == '.' || v[i] == '_')
}

proof fn lemma_gap_run_step(s: Seq<char>, t: int, j: int)
    requires
        0 <= t <= j <= s.len(),
        forall|k: int| t <= k < j ==> is_gap(#[trigger] s[k]),
    ensures
        gap_run(s, t) == (j - t) + gap_run(s, j),
    decreases j - t,
{
    if t < j {
        lemma_gap_run_step(s, t + 1, j);
    }
}

/// `gap_run(v, t)`, counted.
fn gap_len(v: &Vec<char>, t: usize) -> (r: usize)
    requires
        t <= v@.len(),
    ensures
        r == gap_run(v@, t as int),
        t + r <= v@.len(),
{
    let mut j = t;
    while j < v.len() && (v[j] == ' ' || v[j] == '_' || v[j] == '-')
        invariant
            t <= j <= v@.len(),
            forall|k: int| t <= k < j ==> is_gap(#[trigger] v@[k]),
        decreases v@.len() - j,
    {
        j = j + 1;
    }
    proof {
        lemma_gap_run_step(v@, t as int, j as int);
    }
    j - t
}

/// Hour, minute and second of the clock time after the date that ends at
/// `t`, if one is there.
fn clock_after(v: &Vec<char>, t: usize) -> (r: Option<(u32, u32, u32)>)
    requires
        t <= v@.len(),
    ensures
        r is Some <==> clock_at(v@, t as int),
        r matches Some(c) ==> {
            let j = hour_at(v@, t as int);
            &&& c.0 == number_at(v@, j, 2)
            &&& c.1 == number_at(v@, j + 3, 2)
            &&& c.2 == (if seconds_at(v@, t as int) { number_at(v@, j + 6, 2) } else { 0 })
            &&& c.0 < 100 && c.1 < 100 && c.2 < 100
        },
{
    let len = v.len();
    let k = gap_len(v, t);
    if k == 0 {
        return None;
    }
    let j = t + k;
    if !(digits_in(v, j, 2) && field_sep_at(v, j + 2) && digits_in(v, j + 3, 2)) {
        return None;
    }
    let h = number_in(v, j, 2);
    let m = number_in(v, j + 3, 2);
    let s = if field_sep_at(v, j + 5) && digits_in(v, j + 6, 2) {
        number_in(v, j + 6, 2)
    } else {
        0
    };
    proof {
        reveal_with_fuel(pow10, 3);
    }
    Some((h, m, s))
}

/// A date followed by the clock time `c`, as a stamp.
fn stamp_with(y: u32, mo: u32, d: u32, c: (u32, u32, u32)) -> (st: Stamp)
    requires
        y < 10000,
    ensures
        st == (Stamp { year: y as i32, month: mo, day: d, hour: c.0, minute: c.1, second: c.2 }),
{
    Stamp { year: y as i32, month: mo, day: d, hour: c.0, minute: c.1, second: c.2 }
}

/// The year-first stamp at `v[i..]`, if one stands there.
fn ymd_in(v: &Vec<char>, i: usize) -> (r: Option<Stamp>)
    requires
        i <= v@.len(),
    ensures
        r is Some <==> ymd_at(v@, i as int),
        r matches Some(st) ==> st == ymd_stamp(v@, i as int),
{
    let len = v.len();
    if !(digits_in(v, i, 4) && field_sep_at(v, i + 4) && digits_in(v, i + 5, 2) && field_sep_at(
        v,
        i + 7,
    ) && digits_in(v, i + 8, 2)) {
        return None;
    }
    match clock_after(v, i + 10) {
        None => None,
        Some(c) => {
            let y = number_in(v, i, 4);
            let mo = number_in(v, i + 5, 2);
            let d = number_in(v, i + 8, 2);
            proof {
                reveal_with_fuel(pow10, 5);
            }
            Some(stamp_with(y, mo, d, c))
        },
    }
}

/// The day-first stamp at `v[i..]`, if one stands there.
fn dmy_in(v: &Vec<char>, i: usize) -> (r: Option<Stamp>)
    requires
        i <= v@.len(),
    ensures
        r is Some <==> dmy_at(v@, i as int),
        r matches Some(st) ==> st == dmy_stamp(v@, i as int),
{
    let len = v.len();
    if !(digits_in(v, i, 2) && i + 2 < v.len() && v[i + 2] == '.' && digits_in(v, i + 3, 2) && i
        + 5 < v.len() && v[i + 5] == '.' && digits_in(v, i + 6, 4)) {
        return None;
    }
    match clock_after(v, i + 10) {
        None => None,
        Some(c) => {
            let y = number_in(v, i + 6, 4);
            let mo = number_in(v, i + 3, 2);
            let d = number_in(v, i, 2);
            proof {
                reveal_with_fuel(pow10, 5);
            }
            Some(stamp_with(y, mo, d, c))
        },
    }
}

/// The leftmost year-first stamp in `v`.
fn find_ymd(v: &Vec<char>) -> (r: Option<Stamp>)
    ensures
        r is None ==> forall|k: int| !first_ymd(v@, k),
        r matches Some(st) ==> exists|i: int| first_ymd(v@, i) && st == ymd_stamp(v@, i),
{
    let mut i: usize = 0;
    while i < v.len()
        invariant
            i <= v@.len(),
            forall|j: int| 0 <= j < i ==> !ymd_at(v@, j),
        decreases v@.len() - i,
    {
        let m = ymd_in(v, i);
        if m.is_some() {
            assert(first_ymd(v@, i as int));
            return m;
        }
        i = i + 1;
    }
    assert forall|k: int| !first_ymd(v@, k) by {
        if 0 <= k < v@.len() {
            assert(!ymd_at(v@, k));
        }
        if k >= v@.len() {
            assert(!digits_at(v@, k, 4));
        }
    }
    None
}

/// The leftmost day-first stamp in `v`.
fn find_dmy(v: &Vec<char>) -> (r: Option<Stamp>)
    ensures
        r is None ==> forall|k: int| !first_dmy(v@, k),
        r matches Some(st) ==> exists|i: int| first_dmy(v@, i) && st == dmy_stamp(v@, i),
{
    let mut i: usize = 0;
    while i < v.len()
        invariant
            i <= v@.len(),
            forall|j: int| 0 <= j < i ==> !dmy_at(v@, j),
        decreases v@.len() - i,
    {
        let m = dmy_in(v, i);
        if m.is_some() {
            assert(first_dmy(v@, i as int));
            return m;
        }
        i = i + 1;
    }
    assert forall|k: int| !first_dmy(v@, k) by {
        if 0 <= k < v@.len() {
            assert(!dmy_at(v@, k));
        }
        if k >= v@.len() {
            assert(!digits_at(v@, k, 2));
        }
    }
    None
}

proof fn lemma_first_unique_ymd(s: Seq<char>, i: int, k: int)
    requires
        first_ymd(s, i),
        first_ymd(s, k),
    ensures
        i == k,
{
    if i < k {
        assert(!ymd_at(s, i));
    }
    if k < i {
        assert(!ymd_at(s, k));
    }
}

proof fn lemma_first_unique_dmy(s: Seq<char>, i: int, k: int)
    requires
        first_dmy(s, i),
        first_dmy(s, k),
    ensures
        i == k,
{
    if i < k {
        assert(!dmy_at(s, i));
    }
    if k < i {
        assert(!dmy_at(s, k));
    }
}

/// The fields the filename spells, before any range check.
fn stamp_in(name: &str) -> (r: Option<Stamp>)
    ensures
        r == stamp_fields(name@),
        r matches Some(st) ==> 0 <= st.year <= 9999,
{
    let v = chars_of(name);
    match find_ymd(&v) {
        Some(st) => {
            proof {
                let i = choose|i: int| first_ymd(v@, i) && st == ymd_stamp(v@, i);
                let c = choose|i: int| first_ymd(v@, i);
                lemma_first_unique_ymd(v@, i, c);
                lemma_digits_value_bound(v@.subrange(i, i + 4));
                reveal_with_fuel(pow10, 5);
            }
            Some(st)
        },
        None => match find_dmy(&v) {
            Some(st) => {
                proof {
                    let i = choose|i: int| first_dmy(v@, i) && st == dmy_stamp(v@, i);
                    let c = choose|i: int| first_dmy(v@, i);
                    lemma_first_unique_dmy(v@, i, c);
                    lemma_digits_value_bound(v@.subrange(i + 6, i + 10));
                    reveal_with_fuel(pow10, 5);
                }
                Some(st)
            },
            None => None,
        },
    }
}

/// Reads a start time from a filename. OBS, ShadowPlay and Windows Game Bar
/// all stamp filenames differently: the leftmost year-first stamp wins, then
/// the leftmost day-first one, and its fields must name a real calendar day
/// and clock time.
pub fn parse_stamp(name: &str) -> (r: Option<Stamp>)
    ensures
        r == spec_parse_stamp(name@),
{
    match stamp_in(name) {
        None => None,
        Some(st) => match calendar_date(st.year, st.month, st.day) {
            None => None,
            Some(date) => {
                if at_clock(&date, st.hour, st.minute, st.second).is_some() {
                    Some(st)
                } else {
                    None
                }
            },
        },
    }
}

pub open spec fn is_video_extension(e: Seq<char>) -> bool {
    e == "mp4"@ || e == "mkv"@ || e == "mov"@ || e == "flv"@
}

/// A path names a video file by its extension, in any letter case.
pub open spec fn spec_is_video(path: Seq<char>) -> bool {
    match base_name(path) {
        Some(n) => match extension(n) {
            Some(e) => is_video_extension(lowercase(e)),
            None => false,
        },
        None => false,
    }
}

/// Whether `path` is a video the scan picks up: mp4, mkv, mov or flv.
pub fn is_video(path: &str) -> (b: bool)
    ensures
        b == spec_is_video(path@),
{
    match file_name(path) {
        None => false,
        Some(n) => match extension_of(n.as_str()) {
            None => false,
            Some(e) => {
                let low = to_lowercase(e.as_str());
                same_text(low.as_str(), "mp4") || same_text(low.as_str(), "mkv") || same_text(
                    low.as_str(),
                    "mov",
                ) || same_text(low.as_str(), "flv")
            },
        },
    }
}

/// Recording `a` plays before recording `b`: earlier start, ties kept in the
/// order they came in.
pub open spec fn plays_before(starts: Seq<i64>, a: int, b: int) -> bool {
    starts[a] < starts[b] || (starts[a] == starts[b] && a < b)
}

/// `order` lists every recording once, in play order.
pub open spec fn is_play_order(starts: Seq<i64>, order: Seq<usize>) -> bool {
    &&& order.len() == starts.len()
    &&& forall|i: int| 0 <= i < order.len() ==> order[i] < starts.len()
    &&& forall|k: usize| k < starts.len() ==> #[trigger] order.contains(k)
    &&& forall|i: int, j: int|
        0 <= i < j < order.len() ==> plays_before(starts, order[i] as int, order[j] as int)
}

/// The recordings in play order, by start time in milliseconds: a stable
/// sort, so recordings that start together keep their order.
pub fn play_order(starts: &Vec<i64>) -> (order: Vec<usize>)
    ensures
        is_play_order(starts@, order@),
{
    let n = starts.len();
    let mut order: Vec<usize> = Vec::new();
    let mut k: usize = 0;
    while k < n
        invariant
            n == starts@.len(),
            k <= n,
            order@.len() == k,
            forall|i: int| 0 <= i < order@.len() ==> order@[i] < k,
            forall|m: usize| m < k ==> #[trigger] order@.contains(m),
            forall|i: int, j: int|
                0 <= i < j < order@.len() ==> plays_before(starts@, order@[i] as int, order@[j] as int),
        decreases n - k,
    {
        let key = starts[k];
        let mut p: usize = 0;
        while p < order.len() && starts[order[p]] <= key
            invariant
                p <= order@.len(),
                order@.len() == k,
                k < n == starts@.len(),
                forall|i: int| 0 <= i < order@.len() ==> order@[i] < k,
                forall|i: int| 0 <= i < p ==> starts@[order@[i] as int] <= key,
                key == starts@[k as int],
            decreases order@.len() - p,
        {
            p = p + 1;
        }
        let ghost old_order = order@;
        proof {
            assert forall|i: int| p <= i < old_order.len() implies starts@[old_order[i] as int] > key by {
                if i > p {
                    assert(plays_before(starts@, old_order[p as int] as int, old_order[i] as int));
                }
            }
        }
        order.insert(p, k);
        proof {
            assert(order@ == old_order.insert(p as int, k));
            assert forall|m: usize| m < k + 1 implies #[trigger] order@.contains(m) by {
                if m == k {
                    assert(order@[p as int] == k);
                } else {
                    assert(old_order.contains(m));
                    let i = choose|i: int| 0 <= i < old_order.len() && old_order[i] == m;
                    if i < p {
                        assert(order@[i] == m);
                    } else {
                        assert(order@[i + 1] == m);
                    }
                }
            }
            assert forall|i: int, j: int| 0 <= i < j < order@.len() implies plays_before(
                starts@,
                order@[i] as int,
                order@[j] as int,
            ) by {
                if j < p {
                    assert(order@[i] == old_order[i] && order@[j] == old_order[j]);
                } else if j == p {
                    assert(order@[i] == old_order[i]);
                } else if i < p {
                    assert(order@[i] == old_order[i] && order@[j] == old_order[j - 1]);
                } else if i == p {
                    assert(order@[j] == old_order[j - 1]);
                } else {
                    assert(order@[i] == old_order[i - 1] && order@[j] == old_order[j - 1]);
                }
            }
        }
        k = k + 1;
    }
    order
}

/// The session number of the `k`th recording in play order: the first opens
/// session 0, and each later one opens the next session when it starts more
/// than `gap` milliseconds after the one before it ended.
pub open spec fn session_index(starts: Seq<i64>, ends: Seq<i64>, gap: i64, k: int) -> nat
    decreases k,
{
    if k <= 0 {
        0
    } else {
        session_index(starts, ends, gap, k - 1) + if starts[k] - ends[k - 1] > gap {
            1nat
        } else {
            0nat
        }
    }
}

/// Session numbers for recordings in play order, from their start and end
/// times in milliseconds: a gap longer than `gap` between one recording's
/// end and the next one's start begins a new session.
pub fn sessions(starts: &Vec<i64>, ends: &Vec<i64>, gap: i64) -> (r: Vec<usize>)
    requires
        starts@.len() == ends@.len(),
    ensures
        r@.len() == starts@.len(),
        forall|k: int| 0 <= k < r@.len() ==> r@[k] == session_index(starts@, ends@, gap, k),
        r@.len() > 0 ==> r@[0] == 0,
        forall|k: int|
            0 < k < r@.len() && starts@[k] - ends@[k - 1] <= gap ==> #[trigger] r@[k] == r@[k - 1],
        forall|k: int|
            0 < k < r@.len() && starts@[k] - ends@[k - 1] > gap ==> #[trigger] r@[k] == r@[k - 1] + 1,
{
    let n = starts.len();
    let mut r: Vec<usize> = Vec::new();
    let mut current: usize = 0;
    let mut k: usize = 0;
    while k < n
        invariant
            n == starts@.len() == ends@.len(),
            k <= n,
            r@.len() == k,
            current <= k,
            k > 0 ==> current == session_index(starts@, ends@, gap, k - 1),
            forall|i: int| 0 <= i < k ==> r@[i] == session_index(starts@, ends@, gap, i),
        decreases n - k,
    {
        if k > 0 {
            let apart: i128 = (starts[k] as i128) - (ends[k - 1] as i128);
            if apart > gap as i128 {
                current = current + 1;
            }
        }
        r.push(current);
        k = k + 1;
    }
    r
}

/// The split decision looks only at the recording just before: a recording
/// that starts at most `gap` milliseconds after the previous one ended stays
/// in its session, one that starts later opens the next session.
pub proof fn law_sessions_split_on_gap(starts: Seq<i64>, ends: Seq<i64>, gap: i64, k: int)
    requires
        0 < k,
    ensures
        starts[k] - ends[k - 1] <= gap ==> session_index(starts, ends, gap, k) == session_index(
            starts,
            ends,
            gap,
            k - 1,
        ),
        starts[k] - ends[k - 1] > gap ==> session_index(starts, ends, gap, k) == session_index(
            starts,
            ends,
            gap,
            k - 1,
        ) + 1,
{
}

/// Session numbers start at 0 and each recording either stays in the
/// session of the one before it or opens the next.
pub proof fn law_sessions_consecutive(starts: Seq<i64>, ends: Seq<i64>, gap: i64, k: int)
    requires
        0 < k,
    ensures
        session_index(starts, ends, gap, 0) == 0,
        session_index(starts, ends, gap, k) == session_index(starts, ends, gap, k - 1)
            || session_index(starts, ends, gap, k) == session_index(starts, ends, gap, k - 1) + 1,
{
}

/// A track's display name: its title tag, else its name tag, else
/// `track<index>`.
pub fn track_name(title: Option<&str>, name: Option<&str>, index: u32) -> (r: String)
    ensures
        r@ == (match title {
            Some(t) => t@,
            None => match name {
                Some(n) => n@,
                None => "track"@ + decimal(index as nat),
            },
        }),
{
    match title {
        Some(t) => owned(t),
        None => match name {
            Some(n) => owned(n),
            None => {
                let mut r = owned("track");
                push_decimal(&mut r, index as u64);
                r
            },
        },
    }
}

/// A probed file is usable when it has a positive duration and at least
/// one audio track; the error names the file and what it lacks, duration
/// first.
pub fn probe_check(path: &str, has_duration: bool, audio_tracks: usize) -> (r: Result<(), String>)
    ensures
        r is Ok <==> has_duration && audio_tracks > 0,
        !has_duration ==> (r matches Err(e) && e@ == path@ + " has no usable duration"@),
        has_duration && audio_tracks == 0 ==> (r matches Err(e) && e@ == path@ + " has no audio"@),
{
    if !has_duration {
        Err(concat(path, " has no usable duration"))
    } else if audio_tracks == 0 {
        Err(concat(path, " has no audio"))
    } else {
        Ok(())
    }
}

/// A recording's id depends on nothing but its file name and size: the same
/// file found under another folder, on another machine, keeps its id, which
/// is what lets a library follow footage that moved.
pub proof fn law_id_follows_name_and_size(a: Seq<char>, b: Seq<char>, size: u64)
    requires
        base_name(a) == base_name(b),
    ensures
        spec_recording_id(a, size) == spec_recording_id(b, size),
{
}

/// `n` in exactly `w` decimal digits, zero-padded on the left.
pub open spec fn padded(n: nat, w: nat) -> Seq<char>
    decreases w,
{
    if w == 0 {
        seq![]
    } else {
        padded(n / 10, (w - 1) as nat).push(crate::text::digit(n % 10))
    }
}

fn push_padded(s: &mut String, n: u32, w: u32)
    ensures
        final(s)@ == old(s)@ + padded(n as nat, w as nat),
    decreases w,
{
    if w == 0 {
        assert(old(s)@ + Seq::<char>::empty() == old(s)@);
        return;
    }
    push_padded(s, n / 10, w - 1);
    let d = (n % 10) as u8 + 48;
    let c = d as char;
    assert(c == crate::text::digit(n as nat % 10));
    crate::text::push_char(s, c);
    assert(old(s)@ + padded(n as nat / 10, (w - 1) as nat) + seq![c] == old(s)@ + padded(n as nat, w as nat));
}

/// A start time as the library file stores it: `%Y-%m-%dT%H:%M:%S`.
pub open spec fn spec_wall_text(st: Stamp) -> Seq<char> {
    padded(st.year as nat, 4) + "-"@ + padded(st.month as nat, 2) + "-"@ + padded(st.day as nat, 2)
        + "T"@ + padded(st.hour as nat, 2) + ":"@ + padded(st.minute as nat, 2) + ":"@ + padded(
        st.second as nat,
        2,
    )
}

/// A start time written as the library file stores it.
pub fn wall_text(st: &Stamp) -> (r: String)
    requires
        0 <= st.year <= 9999,
    ensures
        r@ == spec_wall_text(*st),
{
    let mut r = String::new();
    push_padded(&mut r, st.year as u32, 4);
    push_str(&mut r, "-");
    push_padded(&mut r, st.month, 2);
    push_str(&mut r, "-");
    push_padded(&mut r, st.day, 2);
    push_str(&mut r, "T");
    push_padded(&mut r, st.hour, 2);
    push_str(&mut r, ":");
    push_padded(&mut r, st.minute, 2);
    push_str(&mut r, ":");
    push_padded(&mut r, st.second, 2);
    r
}

/// The shape of a stored start time: digits and separators where
/// `%Y-%m-%dT%H:%M:%S` puts them, and nothing else.
pub open spec fn wall_shape(s: Seq<char>) -> bool {
    &&& s.len() == 19
    &&& digits_at(s, 0, 4) && s[4] == '-' && digits_at(s, 5, 2) && s[7] == '-' && digits_at(s, 8, 2)
    &&& s[10] == 'T' && digits_at(s, 11, 2) && s[13] == ':' && digits_at(s, 14, 2) && s[16] == ':'
    &&& digits_at(s, 17, 2)
}

/// The fields a stored start time spells.
pub open spec fn wall_fields(s: Seq<char>) -> Stamp {
    Stamp {
        year: number_at(s, 0, 4) as i32,
        month: number_at(s, 5, 2) as u32,
        day: number_at(s, 8, 2) as u32,
        hour: number_at(s, 11, 2) as u32,
        minute: number_at(s, 14, 2) as u32,
        second: number_at(s, 17, 2) as u32,
    }
}

/// A stored start time read back, when it has the stored shape and names a
/// real day and time.
pub open spec fn spec_parse_wall(s: Seq<char>) -> Option<Stamp> {
    if wall_shape(s) && is_real(wall_fields(s)) {
        Some(wall_fields(s))
    } else {
        None
    }
}

fn wall_shape_in(v: &Vec<char>) -> (b: bool)
    ensures
        b == wall_shape(v@),
{
    v.len() == 19 && digits_in(v, 0, 4) && v[4] == '-' && digits_in(v, 5, 2) && v[7] == '-'
        && digits_in(v, 8, 2) && v[10] == 'T' && digits_in(v, 11, 2) && v[13] == ':' && digits_in(
        v,
        14,
        2,
    ) && v[16] == ':' && digits_in(v, 17, 2)
}

/// Reads a start time as the library file stores it.
pub fn parse_wall(text: &str) -> (r: Option<Stamp>)
    ensures
        r == spec_parse_wall(text@),
{
    let v = chars_of(text);
    if !wall_shape_in(&v) {
        return None;
    }
    let y = number_in(&v, 0, 4);
    let mo = number_in(&v, 5, 2);
    let d = number_in(&v, 8, 2);
    let h = number_in(&v, 11, 2);
    let mi = number_in(&v, 14, 2);
    let s = number_in(&v, 17, 2);
    proof {
        reveal_with_fuel(pow10, 5);
    }
    let st = Stamp { year: y as i32, month: mo, day: d, hour: h, minute: mi, second: s };
    assert(st == wall_fields(text@));
    match calendar_date(st.year, st.month, st.day) {
        None => None,
        Some(date) => {
            if at_clock(&date, st.hour, st.minute, st.second).is_some() {
                Some(st)
            } else {
                None
            }
        },
    }
}

proof fn lemma_padded(n: nat, w: nat)
    requires
        n < pow10(w),
    ensures
        padded(n, w).len() == w,
        forall|k: int| 0 <= k < w ==> is_digit(#[trigger] padded(n, w)[k]),
        digits_value(padded(n, w)) == n,
    decreases w,
{
    assert(crate::text::digit(n % 10) as nat == (n % 10) + 48);
    if w > 0 {
        assert(pow10(w) == 10 * pow10((w - 1) as nat));
        assert(n / 10 < pow10((w - 1) as nat));
        lemma_padded(n / 10, (w - 1) as nat);
        let s = padded(n / 10, (w - 1) as nat);
        let t = s.push(crate::text::digit(n % 10));
        assert(padded(n, w) == t);
        assert(t.drop_last() == s);
        assert(n == (n / 10) * 10 + n % 10);
        assert forall|k: int| 0 <= k < w implies is_digit(#[trigger] t[k]) by {
            if k < w - 1 {
                assert(t[k] == s[k]);
            }
        }
    } else {
        assert(n == 0);
    }
}

/// A real start time survives being stored and read back.
pub proof fn law_wall_round_trip(st: Stamp)
    requires
        is_real(st),
        0 <= st.year <= 9999,
    ensures
        spec_parse_wall(spec_wall_text(st)) == Some(st),
{
    reveal_with_fuel(pow10, 5);
    reveal_strlit("-");
    reveal_strlit("T");
    reveal_strlit(":");
    let y = st.year as nat;
    lemma_padded(y, 4);
    lemma_padded(st.month as nat, 2);
    lemma_padded(st.day as nat, 2);
    lemma_padded(st.hour as nat, 2);
    lemma_padded(st.minute as nat, 2);
    lemma_padded(st.second as nat, 2);
    let t = spec_wall_text(st);
    let py = padded(y, 4);
    let pm = padded(st.month as nat, 2);
    let pd = padded(st.day as nat, 2);
    let ph = padded(st.hour as nat, 2);
    let pi = padded(st.minute as nat, 2);
    let ps = padded(st.second as nat, 2);
    assert(t.len() == 19);
    assert(t.subrange(0, 4) =~= py);
    assert(t.subrange(5, 7) =~= pm);
    assert(t.subrange(8, 10) =~= pd);
    assert(t.subrange(11, 13) =~= ph);
    assert(t.subrange(14, 16) =~= pi);
    assert(t.subrange(17, 19) =~= ps);
    assert(t[4] == '-' && t[7] == '-' && t[10] == 'T' && t[13] == ':' && t[16] == ':');
    assert forall|k: int| 0 <= k < 4 implies is_digit(#[trigger] t[k]) by { assert(t[k] == py[k]); }
    assert forall|k: int| 5 <= k < 7 implies is_digit(#[trigger] t[k]) by { assert(t[k] == pm[k - 5]); }
    assert forall|k: int| 8 <= k < 10 implies is_digit(#[trigger] t[k]) by { assert(t[k] == pd[k - 8]); }
    assert forall|k: int| 11 <= k < 13 implies is_digit(#[trigger] t[k]) by { assert(t[k] == ph[k - 11]); }
    assert forall|k: int| 14 <= k < 16 implies is_digit(#[trigger] t[k]) by { assert(t[k] == pi[k - 14]); }
    assert forall|k: int| 17 <= k < 19 implies is_digit(#[trigger] t[k]) by { assert(t[k] == ps[k - 17]); }
    assert(wall_fields(t) == st);
}

/// `chrono::NaiveDate::from_ymd_opt`, then `and_hms_opt`, then
/// `chrono::Local::from_local_datetime(..).single()`, as milliseconds since
/// the epoch. Claimed only that a result means the fields name a real day
/// and clock time. Which instant comes back depends on the machine's time
/// zone, and a local time the clocks skipped or repeated gives none: that is
/// left unsaid.
#[verifier::external_body]
fn local_millis(st: &Stamp) -> (r: Option<i64>)
    ensures
        r is Some ==> is_real(*st),
{
    let date = chrono::NaiveDate::from_ymd_opt(st.year, st.month, st.day)?;
    let naive = date.and_hms_opt(st.hour, st.minute, st.second)?;
    match chrono::TimeZone::from_local_datetime(&chrono::Local, &naive).single() {
        Some(t) => Some(t.timestamp_millis()),
        None => None,
    }
}

/// `r` is a reading this machine's clock can give of exactly these fields:
/// what comes back when they are handed, unchanged, to the local-time
/// conversion.
pub closed spec fn local_reading(st: Stamp, r: Option<i64>) -> bool {
    call_ensures(local_millis, (&st,), r)
}

/// When a start time began, in milliseconds since the epoch, on this
/// machine's clock: what the time zone makes of exactly these fields. None
/// for fields that name no real day and time, and for a local time the
/// clocks skipped or repeated.
pub fn stamp_millis(st: &Stamp) -> (r: Option<i64>)
    ensures
        r is Some ==> is_real(*st),
        local_reading(*st, r),
{
    local_millis(st)
}

/// When a recording began, in milliseconds since the epoch: its stored
/// start time on this machine's clock, or `now` when that cannot be read or
/// the clock has no such local time.
pub fn start_millis(wall_start: &str, now: i64) -> (r: i64)
    ensures
        spec_parse_wall(wall_start@) is None ==> r == now,
        spec_parse_wall(wall_start@) matches Some(st) ==> exists|o: Option<i64>|
            call_ensures(stamp_millis, (&st,), o) && r == (match o {
                Some(ms) => ms,
                None => now,
            }),
{
    match parse_wall(wall_start) {
        None => now,
        Some(st) => {
            let o = stamp_millis(&st);
            match o {
                Some(ms) => ms,
                None => now,
            }
        },
    }
}

} // verus!
