use vstd::prelude::*;
use crate::text::{decimal, push_decimal, push_char, push_str};

verus! {

/// A time of day: hour, minute, second and nanosecond.
#[derive(Clone, Copy, PartialEq, Eq, Structural, Debug)]
pub struct ClockTime {
    pub hour: u8,
    pub minute: u8,
    pub second: u8,
    pub nanosecond: u32,
}

/// How a time picker shows hours.
#[derive(Clone, Copy, PartialEq, Eq, Structural, Debug)]
pub enum TimePickerFormat {
    TwelveHour,
    TwentyFourHour,
}

/// The column of a time picker that a value is chosen in.
#[derive(Clone, Copy, PartialEq, Eq, Structural, Debug)]
pub enum TimeColumn {
    Hour,
    Minute,
    Second,
    Period,
}

/// What the columns of a picker show for the current time: the displayed hour,
/// the minute, the second (0 without a seconds column) and the period (0 before
/// noon, 1 from noon on).
#[derive(Clone, Copy, PartialEq, Eq, Structural, Debug)]
pub struct ClockSelection {
    pub hour: u32,
    pub minute: u32,
    pub second: u32,
    pub period: u32,
}

impl ClockTime {
    /// A valid time of day.
    pub open spec fn wf(self) -> bool {
        &&& self.hour < 24
        &&& self.minute < 60
        &&& self.second < 60
        &&& self.nanosecond < 1_000_000_000
    }

    /// Strict chronological order: hour, then minute, second and nanosecond.
    pub open spec fn precedes(self, other: ClockTime) -> bool {
        ||| self.hour < other.hour
        ||| (self.hour == other.hour && self.minute < other.minute)
        ||| (self.hour == other.hour && self.minute == other.minute && self.second < other.second)
        ||| (self.hour == other.hour && self.minute == other.minute && self.second == other.second
            && self.nanosecond < other.nanosecond)
    }

    /// The time `hour:minute:second` with no fraction, when each part is in range.
    pub fn from_hms(hour: u8, minute: u8, second: u8) -> (r: Option<ClockTime>)
        ensures
            r == (if hour < 24 && minute < 60 && second < 60 {
                Some(ClockTime { hour, minute, second, nanosecond: 0 })
            } else {
                None
            }),
    {
        if hour < 24 && minute < 60 && second < 60 {
            Some(ClockTime { hour, minute, second, nanosecond: 0 })
        } else {
            None
        }
    }

    /// Whether `self` comes strictly before `other`.
    pub fn is_before(&self, other: &ClockTime) -> (r: bool)
        ensures
            r == self.precedes(*other),
    {
        if self.hour != other.hour {
            self.hour < other.hour
        } else if self.minute != other.minute {
            self.minute < other.minute
        } else if self.second != other.second {
            self.second < other.second
        } else {
            self.nanosecond < other.nanosecond
        }
    }
}

/// The hour shown on a twelve-hour clock for the hour `h` of the day.
pub open spec fn twelve_hour_spec(h: int) -> int {
    if h % 12 == 0 {
        12
    } else {
        h % 12
    }
}

/// The hour of the day that a displayed hour and period stand for, and the
/// wrapping cast of a twenty-four-hour display value.
pub open spec fn hour_of_day_spec(display: u32, period: u32, is_twelve: bool) -> int {
    if is_twelve {
        (display % 12) + (if period == 1 { 12int } else { 0int })
    } else {
        (display % 256) as int
    }
}

/// `n` with at least two digits, zero-padded (`{:02}`).
pub open spec fn padded2(n: nat) -> Seq<char> {
    if n < 10 {
        seq!['0'] + decimal(n)
    } else {
        decimal(n)
    }
}

/// The label of a preset button.
pub open spec fn preset_label_spec(
    t: ClockTime,
    hour_format: TimePickerFormat,
    with_seconds: bool,
    am: Seq<char>,
    pm: Seq<char>,
) -> Seq<char> {
    let seconds = if with_seconds {
        seq![':'] + padded2(t.second as nat)
    } else {
        Seq::empty()
    };
    match hour_format {
        TimePickerFormat::TwentyFourHour => padded2(t.hour as nat) + seq![':'] + padded2(
            t.minute as nat,
        ) + seconds,
        TimePickerFormat::TwelveHour => decimal(twelve_hour_spec(t.hour as int) as nat) + seq![':']
            + padded2(t.minute as nat) + seconds + seq![' '] + (if t.hour < 12 {
            am
        } else {
            pm
        }),
    }
}

/// The displayed hour for hour `h` on a twelve-hour clock: 12 for midnight and
/// noon, otherwise `h % 12`.
pub fn display_12h_hour(h: u8) -> (r: u32)
    ensures
        r == twelve_hour_spec(h as int),
        1 <= r <= 12,
{
    if h % 12 == 0 {
        12
    } else {
        (h % 12) as u32
    }
}

/// The hour of the day for a displayed twelve-hour value and period.
pub fn to_24h_hour(display: u32, is_pm: bool) -> (r: u8)
    ensures
        r == (display % 12) + (if is_pm { 12int } else { 0int }),
        r < 24,
{
    let h: u8 = (display % 12) as u8;
    if is_pm {
        h + 12
    } else {
        h
    }
}

/// Appends `n` zero-padded to two digits.
pub fn push_padded2(out: &mut String, n: u64)
    ensures
        final(out)@ == old(out)@ + padded2(n as nat),
{
    if n < 10 {
        push_char(out, '0');
    }
    push_decimal(out, n);
    assert(out@ =~= old(out)@ + padded2(n as nat));
}

/// The label of a preset quick-select button, as `HH:MM[:SS]` on a twenty-four
/// hour clock or `H:MM[:SS] PERIOD` on a twelve-hour clock.
pub fn preset_label(
    t: ClockTime,
    hour_format: TimePickerFormat,
    with_seconds: bool,
    am_pm: &(String, String),
) -> (r: String)
    ensures
        r@ == preset_label_spec(t, hour_format, with_seconds, am_pm.0@, am_pm.1@),
{
    let mut out = String::new();
    match hour_format {
        TimePickerFormat::TwentyFourHour => {
            push_padded2(&mut out, t.hour as u64);
            push_char(&mut out, ':');
            push_padded2(&mut out, t.minute as u64);
            if with_seconds {
                push_char(&mut out, ':');
                push_padded2(&mut out, t.second as u64);
            }
        },
        TimePickerFormat::TwelveHour => {
            let dh = display_12h_hour(t.hour);
            push_decimal(&mut out, dh as u64);
            push_char(&mut out, ':');
            push_padded2(&mut out, t.minute as u64);
            if with_seconds {
                push_char(&mut out, ':');
                push_padded2(&mut out, t.second as u64);
            }
            push_char(&mut out, ' ');
            if t.hour < 12 {
                push_str(&mut out, am_pm.0.as_str());
            } else {
                push_str(&mut out, am_pm.1.as_str());
            }
        },
    }
    assert(out@ =~= preset_label_spec(t, hour_format, with_seconds, am_pm.0@, am_pm.1@));
    out
}

/// A range bound as the picker compares with it: without a seconds column the
/// bound keeps its hour and minute only.
pub fn effective_bound(bound: ClockTime, with_seconds: bool) -> (r: ClockTime)
    ensures
        r == (if with_seconds {
            bound
        } else {
            ClockTime { hour: bound.hour, minute: bound.minute, second: 0, nanosecond: 0 }
        }),
{
    if with_seconds {
        bound
    } else {
        ClockTime { hour: bound.hour, minute: bound.minute, second: 0, nanosecond: 0 }
    }
}

/// What the columns show for the current time, if there is one.
pub open spec fn selection_spec(t: ClockTime, is_twelve: bool, with_seconds: bool) -> ClockSelection {
    ClockSelection {
        hour: (if is_twelve {
            twelve_hour_spec(t.hour as int)
        } else {
            t.hour as int
        }) as u32,
        minute: t.minute as u32,
        second: (if with_seconds {
            t.second
        } else {
            0
        }) as u32,
        period: (if t.hour >= 12 {
            1int
        } else {
            0int
        }) as u32,
    }
}

/// The selection the columns show for `current`.
pub fn current_selection(
    current: Option<ClockTime>,
    hour_format: TimePickerFormat,
    with_seconds: bool,
) -> (r: Option<ClockSelection>)
    ensures
        r == (match current {
            Some(t) => Some(
                selection_spec(t, hour_format == TimePickerFormat::TwelveHour, with_seconds),
            ),
            None => None,
        }),
{
    match current {
        Some(t) => {
            let is_twelve = match hour_format {
                TimePickerFormat::TwelveHour => true,
                TimePickerFormat::TwentyFourHour => false,
            };
            let hour: u32 = if is_twelve {
                display_12h_hour(t.hour)
            } else {
                t.hour as u32
            };
            let second: u32 = if with_seconds {
                t.second as u32
            } else {
                0
            };
            let period: u32 = if t.hour >= 12 {
                1
            } else {
                0
            };
            Some(ClockSelection { hour, minute: t.minute as u32, second, period })
        },
        None => None,
    }
}

/// The (hour, minute, second, period) that choosing `value` in `column` stands
/// for: the chosen value in its column, the current selection elsewhere, and
/// where there is none, hour 12 on a twelve-hour clock and 0 otherwise.
pub open spec fn choice_spec(
    current: Option<ClockSelection>,
    is_twelve: bool,
    column: TimeColumn,
    value: u32,
) -> (u32, u32, u32, u32) {
    let default_hour: u32 = if is_twelve {
        12
    } else {
        0
    };
    let (h, m, s, p) = match current {
        Some(c) => (c.hour, c.minute, c.second, c.period),
        None => (default_hour, 0u32, 0u32, 0u32),
    };
    match column {
        TimeColumn::Hour => (value, m, s, p),
        TimeColumn::Minute => (h, value, s, p),
        TimeColumn::Second => (h, m, value, p),
        TimeColumn::Period => (h, m, s, value),
    }
}

/// The time that a choice in the columns stands for, if it is a valid time.
pub open spec fn choice_time_spec(
    choice: (u32, u32, u32, u32),
    is_twelve: bool,
    with_seconds: bool,
) -> Option<ClockTime> {
    let hour = hour_of_day_spec(choice.0, choice.3, is_twelve);
    let minute: int = (choice.1 % 256) as int;
    let second: int = if with_seconds {
        (choice.2 % 256) as int
    } else {
        0
    };
    if hour < 24 && minute < 60 && second < 60 {
        Some(ClockTime { hour: hour as u8, minute: minute as u8, second: second as u8, nanosecond: 0 })
    } else {
        None
    }
}

/// Whether `t` lies within `[min, max]`.
pub open spec fn within_spec(t: ClockTime, min: ClockTime, max: ClockTime) -> bool {
    !t.precedes(min) && !max.precedes(t)
}

/// The column choice for `value` in `column`.
pub fn column_choice(
    current: Option<ClockSelection>,
    hour_format: TimePickerFormat,
    column: TimeColumn,
    value: u32,
) -> (r: (u32, u32, u32, u32))
    ensures
        r == choice_spec(current, hour_format == TimePickerFormat::TwelveHour, column, value),
{
    let default_hour: u32 = match hour_format {
        TimePickerFormat::TwelveHour => 12,
        TimePickerFormat::TwentyFourHour => 0,
    };
    let (h, m, s, p) = match current {
        Some(c) => (c.hour, c.minute, c.second, c.period),
        None => (default_hour, 0u32, 0u32, 0u32),
    };
    match column {
        TimeColumn::Hour => (value, m, s, p),
        TimeColumn::Minute => (h, value, s, p),
        TimeColumn::Second => (h, m, value, p),
        TimeColumn::Period => (h, m, s, value),
    }
}

/// The time a column choice stands for: the displayed hour read on the picker's
/// clock, the second kept only with a seconds column; `None` where that is no
/// valid time of day.
pub fn choice_time(
    choice: (u32, u32, u32, u32),
    hour_format: TimePickerFormat,
    with_seconds: bool,
) -> (r: Option<ClockTime>)
    ensures
        r == choice_time_spec(choice, hour_format == TimePickerFormat::TwelveHour, with_seconds),
{
    let (h_display, m, s, period) = choice;
    let hour: u8 = match hour_format {
        TimePickerFormat::TwelveHour => to_24h_hour(h_display, period == 1),
        TimePickerFormat::TwentyFourHour => (h_display % 256) as u8,
    };
    let second: u8 = if with_seconds {
        (s % 256) as u8
    } else {
        0
    };
    ClockTime::from_hms(hour, (m % 256) as u8, second)
}

/// Whether `t` lies within `[min, max]`.
pub fn within(t: &ClockTime, min: &ClockTime, max: &ClockTime) -> (r: bool)
    ensures
        r == within_spec(*t, *min, *max),
{
    !t.is_before(min) && !max.is_before(t)
}

/// The time a choice emits: the time it stands for, when that lies within the
/// picker's effective range; otherwise nothing is emitted.
pub fn emit_choice(
    choice: (u32, u32, u32, u32),
    hour_format: TimePickerFormat,
    with_seconds: bool,
    effective_min: &ClockTime,
    effective_max: &ClockTime,
) -> (r: Option<ClockTime>)
    ensures
        r == (match choice_time_spec(choice, hour_format == TimePickerFormat::TwelveHour, with_seconds) {
            Some(t) => if within_spec(t, *effective_min, *effective_max) {
                Some(t)
            } else {
                None
            },
            None => None,
        }),
        r matches Some(t) ==> t.wf() && within_spec(t, *effective_min, *effective_max),
{
    match choice_time(choice, hour_format, with_seconds) {
        Some(t) => if within(&t, effective_min, effective_max) {
            Some(t)
        } else {
            None
        },
        None => None,
    }
}

/// Whether an option is shown disabled: it stands for no valid time, or for one
/// outside the effective range.
pub fn option_disabled(
    choice: (u32, u32, u32, u32),
    hour_format: TimePickerFormat,
    with_seconds: bool,
    effective_min: &ClockTime,
    effective_max: &ClockTime,
) -> (r: bool)
    ensures
        r == (match choice_time_spec(choice, hour_format == TimePickerFormat::TwelveHour, with_seconds) {
            Some(t) => !within_spec(t, *effective_min, *effective_max),
            None => true,
        }),
{
    match choice_time(choice, hour_format, with_seconds) {
        Some(t) => !within(&t, effective_min, effective_max),
        None => true,
    }
}

/// Whether `v` is one of `start, start + step, ...` up to `end`.
pub open spec fn in_steps(v: int, start: int, end: int, step: int) -> bool {
    start <= v <= end && (v - start) % step == 0
}

/// The first and last value of a column.
pub open spec fn column_range(column: TimeColumn, is_twelve: bool) -> (int, int) {
    match column {
        TimeColumn::Hour => if is_twelve {
            (1, 12)
        } else {
            (0, 23)
        },
        TimeColumn::Minute => (0, 59),
        TimeColumn::Second => (0, 59),
        TimeColumn::Period => (0, 1),
    }
}

/// Strictly increasing.
pub open spec fn strictly_increasing(s: Seq<u32>) -> bool {
    forall|i: int, j: int| 0 <= i < j < s.len() ==> s[i] < s[j]
}

/// Inserts `x` into the strictly increasing `v`, unless it is there already.
fn insert_sorted_unique(v: &mut Vec<u32>, x: u32)
    requires
        strictly_increasing(old(v)@),
    ensures
        strictly_increasing(final(v)@),
        forall|y: u32| final(v)@.contains(y) <==> (old(v)@.contains(y) || y == x),
{
    let mut i: usize = 0;
    while i < v.len() && v[i] < x
        invariant
            0 <= i <= v.len(),
            v@ == old(v)@,
            strictly_increasing(v@),
            forall|k: int| 0 <= k < i ==> v@[k] < x,
        decreases v.len() - i,
    {
        i = i + 1;
    }
    if i < v.len() && v[i] == x {
        assert(v@[i as int] == x);
        return;
    }
    let ghost old_v = v@;
    v.insert(i, x);
    assert(v@ =~= old_v.subrange(0, i as int).push(x) + old_v.subrange(i as int, old_v.len() as int));
    assert(i < old_v.len() ==> x < old_v[i as int]);
    assert forall|a: int, b: int| 0 <= a < b < v@.len() implies v@[a] < v@[b] by {
        if b < i {
        } else if b == i {
        } else if a < i {
            assert(v@[b] == old_v[b - 1]);
            assert(old_v[a] < old_v[b - 1] || a == b - 1);
        } else if a == i {
            assert(v@[b] == old_v[b - 1]);
            assert(x < old_v[i as int]);
            assert(old_v[i as int] <= old_v[b - 1]);
        } else {
            assert(v@[a] == old_v[a - 1]);
            assert(v@[b] == old_v[b - 1]);
        }
    }
    assert forall|y: u32| v@.contains(y) <==> (old_v.contains(y) || y == x) by {
        if v@.contains(y) {
            let k = choose|k: int| 0 <= k < v@.len() && v@[k] == y;
            if k < i {
                assert(old_v[k] == y);
            } else if k > i {
                assert(old_v[k - 1] == y);
            }
        }
        if old_v.contains(y) {
            let k = choose|k: int| 0 <= k < old_v.len() && old_v[k] == y;
            if k < i {
                assert(v@[k] == y);
            } else {
                assert(v@[k + 1] == y);
            }
        }
        if y == x {
            assert(v@[i as int] == x);
        }
    }
}

/// Two distinct multiples of `step` lie at least `step` apart.
proof fn lemma_multiples_gap(a: int, b: int, step: int)
    requires
        step > 0,
        0 <= a < b,
        a % step == 0,
        b % step == 0,
    ensures
        b - a >= step,
{
    vstd::arithmetic::div_mod::lemma_fundamental_div_mod(a, step);
    vstd::arithmetic::div_mod::lemma_fundamental_div_mod(b, step);
    let qa = a / step;
    let qb = b / step;
    assert(qa < qb) by (nonlinear_arith)
        requires
            a == step * qa,
            b == step * qb,
            a < b,
            step > 0,
    ;
    assert(b - a >= step) by (nonlinear_arith)
        requires
            a == step * qa,
            b == step * qb,
            qa < qb,
            step > 0,
    ;
}

/// The values a column offers: every `step`-th value of its range (a step of 0
/// counts as 1), together with the current value, in increasing order and each
/// once.
pub fn column_values(
    column: TimeColumn,
    hour_format: TimePickerFormat,
    step: u32,
    current: Option<u32>,
) -> (r: Vec<u32>)
    ensures
        strictly_increasing(r@),
        forall|v: u32|
            r@.contains(v) <==> ({
                let (lo, hi) = column_range(column, hour_format == TimePickerFormat::TwelveHour);
                ||| in_steps(v as int, lo, hi, if step == 0 { 1int } else { step as int })
                ||| current == Some(v)
            }),
{
    let is_twelve = match hour_format {
        TimePickerFormat::TwelveHour => true,
        TimePickerFormat::TwentyFourHour => false,
    };
    let (start, end): (u32, u32) = match column {
        TimeColumn::Hour => if is_twelve {
            (1, 12)
        } else {
            (0, 23)
        },
        TimeColumn::Minute => (0, 59),
        TimeColumn::Second => (0, 59),
        TimeColumn::Period => (0, 1),
    };
    let step: u32 = if step == 0 {
        1
    } else {
        step
    };
    let mut out: Vec<u32> = Vec::new();
    let mut v: u32 = start;
    let mut done = false;
    proof {
        vstd::arithmetic::div_mod::lemma_small_mod(0, step as nat);
    }
    while !done
        invariant
            start <= v <= end,
            end <= 59,
            step >= 1,
            ((v - start) as int) % (step as int) == 0,
            strictly_increasing(out@),
            forall|k: int| 0 <= k < out.len() ==> out@[k] < v || done,
            !done ==> forall|w: u32|
                out@.contains(w) <==> (in_steps(w as int, start as int, end as int, step as int) && w < v),
            done ==> forall|w: u32| out@.contains(w) <==> in_steps(w as int, start as int, end as int, step as int),
        decreases end - v + (if done { 0int } else { 1int }),
    {
        let ghost before = out@;
        out.push(v);
        assert forall|w: u32| out@.contains(w) <==> (before.contains(w) || w == v) by {
            if out@.contains(w) {
                let k = choose|k: int| 0 <= k < out@.len() && out@[k] == w;
                if k < before.len() {
                    assert(before[k] == w);
                }
            }
            if before.contains(w) {
                let k = choose|k: int| 0 <= k < before.len() && before[k] == w;
                assert(out@[k] == w);
            }
            if w == v {
                assert(out@[before.len() as int] == v);
            }
        }
        if end - v < step {
            done = true;
            assert forall|w: u32| in_steps(w as int, start as int, end as int, step as int) implies w <= v by {
                if w > v {
                    lemma_multiples_gap((v - start) as int, (w - start) as int, step as int);
                }
            }
            assert forall|w: u32| out@.contains(w) <==> in_steps(w as int, start as int, end as int, step as int) by {
                if w == v {
                    assert(in_steps(v as int, start as int, end as int, step as int));
                    assert(out@[before.len() as int] == v);
                    assert(out@.contains(w));
                } else if before.contains(w) {
                    assert(in_steps(w as int, start as int, end as int, step as int) && w < v);
                    assert(out@.contains(w));
                } else {
                    assert(!out@.contains(w));
                    assert(!(in_steps(w as int, start as int, end as int, step as int) && w < v));
                }
            }
        } else {
            let next: u32 = v + step;
            assert forall|w: u32| in_steps(w as int, start as int, end as int, step as int) && v < w implies next <= w by {
                lemma_multiples_gap((v - start) as int, (w - start) as int, step as int);
            }
            assert forall|w: u32| out@.contains(w) <==> (in_steps(w as int, start as int, end as int, step as int) && w < next) by {
                if w == v {
                    assert(in_steps(v as int, start as int, end as int, step as int));
                    assert(out@[before.len() as int] == v);
                    assert(out@.contains(w));
                } else if before.contains(w) {
                    assert(in_steps(w as int, start as int, end as int, step as int) && w < v);
                    assert(out@.contains(w));
                } else {
                    assert(!out@.contains(w));
                    assert(!(in_steps(w as int, start as int, end as int, step as int) && w < v));
                }
            }
            assert(((next - start) as int) % (step as int) == 0) by {
                vstd::arithmetic::div_mod::lemma_mod_add_multiples_vanish((v - start) as int, step as int);
                assert((next - start) as int == step + (v - start) as int);
            }
            v = next;
        }
    }
    match current {
        Some(c) => insert_sorted_unique(&mut out, c),
        None => {},
    }
    out
}

/// Each value with its two-digit label.
pub fn column_items(values: &Vec<u32>) -> (r: Vec<(u32, String)>)
    ensures
        r@.len() == values@.len(),
        forall|i: int| 0 <= i < r@.len() ==> r@[i].0 == values@[i] && r@[i].1@ == padded2(values@[i] as nat),
{
    let mut out: Vec<(u32, String)> = Vec::new();
    let mut i: usize = 0;
    while i < values.len()
        invariant
            0 <= i <= values.len(),
            out@.len() == i,
            forall|k: int| 0 <= k < i ==> out@[k].0 == values@[k] && out@[k].1@ == padded2(values@[k] as nat),
        decreases values.len() - i,
    {
        let mut label = String::new();
        push_padded2(&mut label, values[i] as u64);
        assert(label@ =~= padded2(values@[i as int] as nat));
        out.push((values[i], label));
        i = i + 1;
    }
    out
}

/// The values of a column that are shown disabled, in the column's order.
pub fn disabled_values(
    values: &Vec<u32>,
    current: Option<ClockSelection>,
    hour_format: TimePickerFormat,
    with_seconds: bool,
    column: TimeColumn,
    effective_min: &ClockTime,
    effective_max: &ClockTime,
) -> (r: Vec<u32>)
    ensures
        r@ == values@.filter(|v: u32| match choice_time_spec(
            choice_spec(current, hour_format == TimePickerFormat::TwelveHour, column, v),
            hour_format == TimePickerFormat::TwelveHour,
            with_seconds,
        ) {
            Some(t) => !within_spec(t, *effective_min, *effective_max),
            None => true,
        }),
{
    let ghost pred = |v: u32| match choice_time_spec(
        choice_spec(current, hour_format == TimePickerFormat::TwelveHour, column, v),
        hour_format == TimePickerFormat::TwelveHour,
        with_seconds,
    ) {
        Some(t) => !within_spec(t, *effective_min, *effective_max),
        None => true,
    };
    let mut out: Vec<u32> = Vec::new();
    let mut i: usize = 0;
    while i < values.len()
        invariant
            0 <= i <= values.len(),
            out@ == values@.subrange(0, i as int).filter(pred),
            pred == (|v: u32| match choice_time_spec(
                choice_spec(current, hour_format == TimePickerFormat::TwelveHour, column, v),
                hour_format == TimePickerFormat::TwelveHour,
                with_seconds,
            ) {
                Some(t) => !within_spec(t, *effective_min, *effective_max),
                None => true,
            }),
        decreases values.len() - i,
    {
        let v = values[i];
        let choice = column_choice(current, hour_format, column, v);
        let off = option_disabled(choice, hour_format, with_seconds, effective_min, effective_max);
        proof {
            assert(values@.subrange(0, i + 1) =~= values@.subrange(0, i as int).push(v));
            values@.subrange(0, i as int).lemma_filter_push(v, pred);
        }
        if off {
            out.push(v);
        }
        i = i + 1;
    }
    assert(values@.subrange(0, values@.len() as int) =~= values@);
    out
}

/// Whether a preset button is disabled: the picker is disabled or read-only, or
/// the preset lies outside the effective range.
pub fn preset_disabled(
    preset: &ClockTime,
    disabled: bool,
    read_only: bool,
    effective_min: &ClockTime,
    effective_max: &ClockTime,
) -> (r: bool)
    ensures
        r == (disabled || read_only || !within_spec(*preset, *effective_min, *effective_max)),
{
    disabled || read_only || !within(preset, effective_min, effective_max)
}

/// What a time input shows at its right edge besides its value.
#[derive(Clone, Copy, PartialEq, Eq, Structural, Debug)]
pub enum TimeInputClearSectionMode {
    /// The clear button and the caller's right section.
    Both,
    /// Only the clear button.
    Clear,
    /// Only the caller's right section.
    RightSection,
}

impl Default for TimeInputClearSectionMode {
    fn default() -> (r: Self)
        ensures
            r == TimeInputClearSectionMode::Both,
    {
        TimeInputClearSectionMode::Both
    }
}

/// Which of the clear button and the caller's right section a time input
/// shows: the clear button when the input is clearable and the mode allows it,
/// the right section when there is one and the mode allows it.
pub fn time_input_sections(clearable: bool, mode: TimeInputClearSectionMode, has_right_section: bool) -> (r: (
    bool,
    bool,
))
    ensures
        r.0 == (clearable && mode != TimeInputClearSectionMode::RightSection),
        r.1 == (has_right_section && mode != TimeInputClearSectionMode::Clear),
{
    let show_clear = clearable && match mode {
        TimeInputClearSectionMode::RightSection => false,
        _ => true,
    };
    let show_right = has_right_section && match mode {
        TimeInputClearSectionMode::Clear => false,
        _ => true,
    };
    (show_clear, show_right)
}

/// The twelve-hour display of an hour and its period give the hour back.
pub proof fn law_twelve_hour_round_trip(h: u8)
    requires
        h < 24,
    ensures
        (twelve_hour_spec(h as int) % 12) + (if h >= 12 { 12int } else { 0int }) == h,
{
}

/// An option that is not disabled emits a time when chosen, and a disabled one
/// emits nothing.
pub proof fn law_enabled_options_emit(
    choice: (u32, u32, u32, u32),
    is_twelve: bool,
    with_seconds: bool,
    effective_min: ClockTime,
    effective_max: ClockTime,
)
    ensures
        (match choice_time_spec(choice, is_twelve, with_seconds) {
            Some(t) => !within_spec(t, effective_min, effective_max),
            None => true,
        }) <==> (match choice_time_spec(choice, is_twelve, with_seconds) {
            Some(t) => if within_spec(t, effective_min, effective_max) {
                Some(t)
            } else {
                None::<ClockTime>
            },
            None => None,
        }) is None,
{
}

/// Choosing the shown hour of the current time again, on either clock and with a
/// seconds column, stands for the current time itself when it has no fraction of
/// a second.
pub proof fn law_current_choice_round_trip(t: ClockTime, is_twelve: bool)
    requires
        t.wf(),
        t.nanosecond == 0,
    ensures
        choice_time_spec(
            choice_spec(Some(selection_spec(t, is_twelve, true)), is_twelve, TimeColumn::Hour,
                selection_spec(t, is_twelve, true).hour),
            is_twelve,
            true,
        ) == Some(t),
{
}

} // verus!
