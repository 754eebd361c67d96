//! What the figures shown to the user stand for.

use crate::calendar::civil_days;
use crate::calendar::date_of;
use crate::calendar::law_dates_and_days_are_inverse;
use crate::calendar::valid_date;
use crate::calendar::wrap32;
use crate::engine::Plan;
use crate::questions::amount_text;
use crate::questions::headline_text;
use crate::questions::time_text;
use crate::questions::Speed;
use crate::tags::recorded_text;
use crate::text::decimal;
use crate::text::digit;
use crate::text::digits_value;
use crate::text::lower;
use crate::text::padded;
use crate::text::pieces;
use crate::text::signed_number;
use crate::text::white;
use crate::timestamps::lemma_decimal;
use crate::timestamps::lemma_first_is;
use crate::timestamps::lemma_mail_words;
use crate::timestamps::lemma_padded;
use crate::timestamps::lemma_pieces;
use crate::timestamps::lemma_plain;
use crate::timestamps::lemma_reads;
use crate::timestamps::lemma_two;
use crate::timestamps::lemma_untrimmed;
use crate::timestamps::lemma_utc;
use crate::timestamps::mail_text;
use crate::timestamps::one_word;
use crate::util::atom_date;
use crate::util::bytes_text;
use crate::util::clock_time;
use crate::util::counted_text;
use crate::util::duration_text;
use crate::util::full_year;
use crate::util::law_one_instant_one_moment;
use crate::util::log_stamp;
use crate::util::nearest;
use crate::util::nearest_even;
use crate::util::rate_text;
use crate::util::rss_date;
use crate::util::transfer_wait;
use crate::util::zone_start;
use crate::util::zoned;
use crate::util::Published;
use crate::util::Rate;
use vstd::prelude::*;

verus! {

// ---- Moments --------------------------------------------------------------

/// A file's name spells the moment its episode came out: two digits each for the
/// day, the month and the last of the year, a dash, and two each for the hour
/// and the minute.
pub proof fn law_stamps_spell_the_moment(p: Published)
    requires
        p.genuine(),
    ensures
        p.name().len() == 11,
        digits_value(p.name().subrange(0, 2)) == p.day,
        digits_value(p.name().subrange(2, 4)) == p.month,
        digits_value(p.name().subrange(4, 6)) == p.year as int % 100,
        p.name()[6] == '-',
        digits_value(p.name().subrange(7, 9)) == p.hour,
        digits_value(p.name().subrange(9, 11)) == p.minute,
{
    let y = p.year as int % 100;
    lemma_two(p.day as int);
    lemma_two(p.month as int);
    lemma_two(y);
    lemma_two(p.hour as int);
    lemma_two(p.minute as int);
    assert(p.name().subrange(0, 2) =~= padded(p.day as int, 2));
    assert(p.name().subrange(2, 4) =~= padded(p.month as int, 2));
    assert(p.name().subrange(4, 6) =~= padded(y, 2));
    assert(p.name().subrange(7, 9) =~= padded(p.hour as int, 2));
    assert(p.name().subrange(9, 11) =~= padded(p.minute as int, 2));
}

/// A year of two digits is the one of 1950 to 2049 that ends in them: a timestamp
/// reads the same with the year written out.
pub proof fn law_short_years_are_recent(
    weekday: Option<Seq<char>>,
    day: Seq<char>,
    month: Seq<char>,
    year: int,
    time: Seq<char>,
    zone: Seq<char>,
)
    requires
        1950 <= year < 2050,
        weekday matches Some(w) ==> one_word(w),
        one_word(day),
        one_word(month),
        one_word(time),
        one_word(zone),
    ensures
        rss_date(mail_text(weekday, day, month, padded(year % 100, 2), time, zone)) == rss_date(
            mail_text(weekday, day, month, padded(year, 4), time, zone),
        ),
        full_year(year) == year,
{
    let short = padded(year % 100, 2);
    let long = padded(year, 4);
    lemma_padded(year % 100, 2);
    lemma_padded(year, 4);
    lemma_year_word(short);
    lemma_year_word(long);
    lemma_reads(short, 0x7fff_ffff);
    lemma_reads(long, 0x7fff_ffff);
    lemma_year_only(weekday, day, month, short, long, time, zone);
}

/// Only what the year comes to matters of it.
proof fn lemma_year_only(
    weekday: Option<Seq<char>>,
    day: Seq<char>,
    month: Seq<char>,
    a: Seq<char>,
    b: Seq<char>,
    time: Seq<char>,
    zone: Seq<char>,
)
    requires
        weekday matches Some(w) ==> one_word(w),
        one_word(day),
        one_word(month),
        one_word(a),
        one_word(b),
        one_word(time),
        one_word(zone),
        signed_number(a) is Some,
        signed_number(b) is Some,
        full_year(signed_number(a)->0) == full_year(signed_number(b)->0),
    ensures
        rss_date(mail_text(weekday, day, month, a, time, zone)) == rss_date(
            mail_text(weekday, day, month, b, time, zone),
        ),
{
    lemma_mail_words(weekday, day, month, a, time, zone);
    lemma_mail_words(weekday, day, month, b, time, zone);
}

proof fn lemma_year_word(s: Seq<char>)
    requires
        s.len() > 0,
        crate::text::all_digits(s),
    ensures
        one_word(s),
{
    lemma_plain(s);
    assert forall|i: int| 0 <= i < s.len() implies !crate::text::white(#[trigger] s[i]) && s[i]
        != ',' by {
        assert('0' <= s[i] <= '9');
    }
}

/// A date with a time behind it is read as that date, whatever the time says.
proof fn lemma_dated(year: int, month: int, day: int, gap: char, rest: Seq<char>)
    requires
        0 <= year <= 9999,
        1 <= month <= 12,
        1 <= day <= 31,
        gap == 'T' || gap == ' ',
        rest.len() > 0,
        !white(rest.last()),
    ensures
        ({
            let at = zone_start(rest);
            atom_date(
                padded(year, 4) + seq!['-'] + (padded(month, 2) + seq!['-'] + padded(day, 2))
                    + seq![gap] + rest,
            ) == zoned(
                year,
                month,
                day,
                Some(rest.take(at)),
                if at < rest.len() {
                    Some(rest.skip(at))
                } else {
                    None
                },
            )
        }),
{
    let (y, m, d) = (padded(year, 4), padded(month, 2), padded(day, 2));
    lemma_padded(year, 4);
    lemma_two(month);
    lemma_two(day);
    lemma_plain(y);
    lemma_plain(m);
    lemma_plain(d);
    let date = y + seq!['-'] + (m + seq!['-'] + d);
    let s = date + seq![gap] + rest;
    assert(s[0] == y[0]);
    assert(s.last() == rest.last());
    lemma_untrimmed(s);
    let gaps = seq!['T', 't', ' '];
    let n = date.len() as int;
    assert(gaps[0] == 'T' && gaps[2] == ' ');
    assert(gaps.contains(gap));
    assert forall|i: int| 0 <= i < n implies !gaps.contains(#[trigger] s[i]) by {
        assert(s[i] == date[i]);
        if i < y.len() {
            assert(date[i] == y[i] && '0' <= y[i] <= '9');
        } else if i > y.len() {
            let k = i - y.len() - 1;
            if k < 2 {
                assert(date[i] == m[k] && '0' <= m[k] <= '9');
            } else if k > 2 {
                assert(date[i] == d[k - 3] && '0' <= d[k - 3] <= '9');
            }
        }
    }
    assert(s[n] == gap);
    lemma_first_is(s, gaps, n);
    assert(s.take(n) =~= date);
    assert(s.skip(n + 1) =~= rest);
    lemma_pieces(y, '-', m + seq!['-'] + d);
    lemma_pieces(m, '-', d);
    lemma_pieces(d, '-', d);
    assert(pieces(date, '-') =~= seq![y, m, d]);
    lemma_reads(y, 0x7fff_ffff);
    lemma_reads(m, u32::MAX as int);
    lemma_reads(d, u32::MAX as int);
}

/// The hours and minutes at the front of a time, whatever follows the minutes.
proof fn lemma_clocked(hour: int, minute: int, rest: Seq<char>)
    requires
        0 <= hour < 24,
        0 <= minute < 60,
        rest.len() > 0 ==> rest[0] == ':' && !white(rest.last()),
    ensures
        clock_time(padded(hour, 2) + seq![':'] + (padded(minute, 2) + rest)) == Some(
            (hour, minute),
        ),
{
    let (a, b) = (padded(hour, 2), padded(minute, 2));
    lemma_two(hour);
    lemma_two(minute);
    lemma_plain(a);
    lemma_plain(b);
    let tail = b + rest;
    let t = a + seq![':'] + tail;
    assert(t[0] == a[0]);
    assert(!white(t.last())) by {
        if rest.len() > 0 {
            assert(t.last() == rest.last());
        } else {
            assert(t.last() == b[1]);
        }
    }
    lemma_untrimmed(t);
    lemma_pieces(a, ':', tail);
    if rest.len() > 0 {
        let more = rest.skip(1);
        assert(tail =~= b + seq![':'] + more);
        lemma_pieces(b, ':', more);
    } else {
        assert(tail =~= b);
        lemma_pieces(b, ':', b);
    }
    let parts = pieces(t, ':');
    assert(parts.len() >= 2 && parts[0] == a && parts[1] == b);
    lemma_untrimmed(b);
    lemma_reads(a, u32::MAX as int);
    lemma_reads(b, u32::MAX as int);
}

/// When an episode came out is written into its tags the way Atom would write it
/// in UTC: read as Atom's, it is the moment it was written from.
pub proof fn law_tagged_moments_read_back(p: Published)
    requires
        p.genuine(),
        0 <= p.year <= 9999,
    ensures
        atom_date(recorded_text(p)) == Some(p),
{
    let (h, m) = (p.hour as int, p.minute as int);
    let rest = padded(h, 2) + seq![':'] + padded(m, 2);
    lemma_recorded_shape(p);
    lemma_no_zone(h, m);
    assert(!white(rest.last())) by {
        lemma_two(m);
        lemma_plain(padded(m, 2));
        assert(rest.last() == padded(m, 2)[1]);
    }
    lemma_dated(p.year as int, p.month as int, p.day as int, 'T', rest);
    assert(rest.take(rest.len() as int) =~= rest);
    assert(clock_time(rest) == Some((h, m))) by {
        lemma_clocked(h, m, Seq::empty());
        assert(padded(m, 2) + Seq::<char>::empty() =~= padded(m, 2));
    }
    law_one_instant_one_moment(p, p);
}

proof fn lemma_recorded_shape(p: Published)
    requires
        p.genuine(),
        0 <= p.year <= 9999,
    ensures
        recorded_text(p) == padded(p.year as int, 4) + seq!['-'] + (padded(p.month as int, 2)
            + seq!['-'] + padded(p.day as int, 2)) + seq!['T'] + (padded(p.hour as int, 2) + seq![
            ':',
        ] + padded(p.minute as int, 2)),
{
    assert(p.month % 256 == p.month && p.day % 256 == p.day);
    assert(p.hour % 256 == p.hour && p.minute % 256 == p.minute);
    assert(recorded_text(p) =~= padded(p.year as int, 4) + seq!['-'] + (padded(p.month as int, 2)
        + seq!['-'] + padded(p.day as int, 2)) + seq!['T'] + (padded(p.hour as int, 2) + seq![':']
        + padded(p.minute as int, 2)));
}

proof fn lemma_no_zone(hour: int, minute: int)
    requires
        0 <= hour < 24,
        0 <= minute < 60,
    ensures
        ({
            let t = padded(hour, 2) + seq![':'] + padded(minute, 2);
            zone_start(t) == t.len()
        }),
{
    let (a, b) = (padded(hour, 2), padded(minute, 2));
    lemma_two(hour);
    lemma_two(minute);
    let t = a + seq![':'] + b;
    let marks = seq!['Z', 'z', '+'];
    let minus = seq!['-'];
    assert forall|i: int| 0 <= i < t.len() implies !marks.contains(#[trigger] t[i])
        && !minus.contains(t[i]) by {
        if i < 2 {
            assert('0' <= a[i] <= '9');
        } else if i > 2 {
            assert('0' <= b[i - 3] <= '9');
        }
    }
    lemma_first_is(t, marks, t.len() as int);
    lemma_first_is(t, minus, t.len() as int);
}

/// A line of the logs is stamped with the moment it was written, in UTC: read as
/// Atom's it is that minute, and the second and the thousandth follow.
pub proof fn law_log_stamps_read_back(secs: int, millis: int)
    requires
        0 <= secs,
        0 <= millis < 1000,
        0 <= date_of(secs / 86_400).0 <= 9999,
    ensures
        atom_date(log_stamp(secs, millis)) == Some(Published::at(secs / 60)),
        log_stamp(secs, millis).len() == 24,
        digits_value(log_stamp(secs, millis).subrange(17, 19)) == secs % 60,
        digits_value(log_stamp(secs, millis).subrange(20, 23)) == millis,
{
    reveal_strlit("-");
    reveal_strlit(" ");
    reveal_strlit(":");
    reveal_strlit(".");
    reveal_strlit("Z");
    let days = secs / 86_400;
    let d = date_of(days);
    law_dates_and_days_are_inverse(days);
    assert(valid_date(d.0, d.1, d.2));
    let time = secs % 86_400;
    let (h, m, sec) = (time / 3600, time % 3600 / 60, time % 60);
    let (ph, pm, ps, pf) = (padded(h, 2), padded(m, 2), padded(sec, 2), padded(millis, 3));
    lemma_two(d.1);
    lemma_two(d.2);
    lemma_two(h);
    lemma_two(m);
    lemma_two(sec);
    lemma_padded(millis, 3);
    lemma_padded(d.0, 4);
    assert(pf.len() == 3 && padded(d.0, 4).len() == 4) by {
        reveal_with_fuel(decimal, 5);
    }
    let tail = seq![':'] + ps + seq!['.'] + pf;
    let clock = ph + seq![':'] + (pm + tail);
    let zone = seq!['Z'];
    let rest = clock + zone;
    let date = padded(d.0, 4) + seq!['-'] + (padded(d.1, 2) + seq!['-'] + padded(d.2, 2));
    lemma_wrapped(d.0);
    assert(log_stamp(secs, millis) =~= date + seq![' '] + rest);
    assert(rest.last() == 'Z');
    lemma_dated(d.0, d.1, d.2, ' ', rest);
    let n = clock.len() as int;
    assert(zone_start(rest) == n) by {
        let marks = seq!['Z', 'z', '+'];
        assert(marks[0] == 'Z');
        assert forall|i: int| 0 <= i < n implies !marks.contains(#[trigger] rest[i]) by {
            assert(rest[i] == clock[i]);
            if i < 2 {
                assert('0' <= ph[i] <= '9');
            } else if 2 < i < 5 {
                assert('0' <= pm[i - 3] <= '9');
            } else if 5 < i < 8 {
                assert('0' <= ps[i - 6] <= '9');
            } else if i > 8 {
                assert('0' <= pf[i - 9] <= '9');
            }
        }
        assert(marks.contains(rest[n]));
        lemma_first_is(rest, marks, n);
    }
    assert(rest.take(n) =~= clock);
    assert(rest.skip(n) =~= zone);
    lemma_plain(pf);
    assert(tail.last() == pf[2]);
    lemma_clocked(h, m, tail);
    assert(lower(zone) =~= "z"@) by {
        reveal_strlit("z");
    }
    lemma_utc(zone);
    assert(civil_days(d.0, d.1, d.2) == days);
    assert(days * 1440 + h * 60 + m == secs / 60);
    assert(log_stamp(secs, millis).subrange(17, 19) =~= ps);
    assert(log_stamp(secs, millis).subrange(20, 23) =~= pf);
    assert(sec == secs % 60);
}

proof fn lemma_wrapped(n: int)
    requires
        0 <= n <= 9999,
    ensures
        wrap32(n) == n,
{
}

// ---- Sizes ----------------------------------------------------------------

/// 1024 to the power of `k`.
pub open spec fn unit(k: int) -> int {
    if k == 1 {
        1024
    } else if k == 2 {
        1024int * 1024
    } else if k == 3 {
        1024int * 1024 * 1024
    } else if k == 4 {
        1024int * 1024 * 1024 * 1024
    } else {
        1
    }
}

/// What the unit is called.
pub open spec fn unit_letter(k: int) -> char {
    if k == 1 {
        'K'
    } else if k == 2 {
        'M'
    } else if k == 3 {
        'G'
    } else {
        'T'
    }
}

proof fn lemma_nearest_even(n: int, d: int)
    requires
        0 <= n,
        0 < d,
    ensures
        2 * (nearest_even(n, d) * d - n) <= d,
        2 * (n - nearest_even(n, d) * d) <= d,
        nearest_even(n, d) >= 0,
{
    let q = n / d;
    let r = n % d;
    assert(n == q * d + r && 0 <= r < d && q >= 0) by (nonlinear_arith)
        requires
            0 <= n,
            0 < d,
            q == n / d,
            r == n % d,
    ;
    assert((q + 1) * d == q * d + d) by (nonlinear_arith);
}

/// A size is shown in the largest unit it fills, a unit being 1024 of the one
/// below it, and to the nearest tenth: what is shown is never more than half a
/// tenth of its unit from the truth. Below a kilobyte it is shown to the byte.
pub proof fn law_sizes_are_shown_to_the_tenth(bytes: int) -> (r: (int, int))
    requires
        0 <= bytes < 0x20_0000_0000_0000,
    ensures
        bytes < 1024 ==> bytes_text(bytes) == decimal(bytes) + seq![' ', 'B'],
        bytes >= 1024 ==> {
            let (k, tenths) = r;
            &&& 1 <= k <= 4
            &&& unit(k) <= bytes
            &&& k < 4 ==> bytes < unit(k + 1)
            &&& bytes_text(bytes) == decimal(tenths / 10) + seq!['.', digit(tenths % 10), ' ']
                + seq![unit_letter(k), 'B']
            &&& 2 * (tenths * unit(k) - 10 * bytes) <= unit(k)
            &&& 2 * (10 * bytes - tenths * unit(k)) <= unit(k)
        },
{
    assert(crate::util::step(bytes) == 1);
    assert(crate::util::rounded_bytes(bytes) == bytes);
    let k: int = if bytes < 0x10_0000 {
        1
    } else if bytes < 0x4000_0000 {
        2
    } else if bytes < 0x100_0000_0000 {
        3
    } else {
        4
    };
    lemma_nearest_even(bytes * 10, unit(k));
    (k, nearest_even(bytes * 10, unit(k)))
}

// ---- Lengths of time ------------------------------------------------------

/// A count goes before its noun, which is in the plural for all but one.
pub proof fn law_counts_agree_with_their_nouns(n: int, noun: Seq<char>)
    requires
        0 <= n,
    ensures
        n == 1 ==> counted_text(n, noun) == decimal(n) + seq![' '] + noun,
        n != 1 ==> counted_text(n, noun) == decimal(n) + seq![' '] + noun + seq!['s'],
        digits_value(decimal(n)) == n,
{
    lemma_decimal(n);
    assert(counted_text(1, noun) =~= decimal(1) + seq![' '] + noun);
}

/// A wait is said in hours and minutes that come within half a minute of it, in
/// minutes alone up to an hour and a half, and with nothing said of no minutes.
pub proof fn law_waits_are_said_to_the_minute(seconds: u64) -> (r: (int, int))
    requires
        seconds >= 60,
    ensures
        ({
            let (hours, minutes) = r;
            let said = hours * 60 + minutes;
            &&& 0 <= hours && 0 <= minutes
            &&& -30 < 60 * said - seconds <= 30
            &&& said < 90 <==> hours == 0
            &&& hours > 0 ==> minutes < 60
            &&& duration_text(Some(seconds)) == (if hours == 0 {
                counted_text(minutes, "minute"@)
            } else if minutes == 0 {
                counted_text(hours, "hour"@)
            } else {
                counted_text(hours, "hour"@) + seq![' '] + counted_text(minutes, "minute"@)
            })
        }),
{
    let m = (seconds + 30) / 60;
    if m < 90 {
        (0, m)
    } else {
        (m / 60, m % 60)
    }
}

/// A transfer takes as long as its bytes take at the rate: to the nearest second,
/// and never no time at all for something.
pub proof fn law_transfers_take_their_time(bytes: u64, rate: Rate)
    requires
        rate.bytes > 0,
        rate.micros > 0,
        bytes as int * rate.micros as int <= rate.bytes as int * 1_000_000 * 0xffff_ffff_ffff_fff0,
    ensures
        transfer_wait(bytes, rate) matches Some(w) && {
            let part = bytes as int * rate.micros as int;
            let second = rate.bytes as int * 1_000_000;
            &&& bytes > 0 ==> w.seconds > 0
            &&& bytes == 0 ==> w.seconds == 0
            &&& w.seconds != 1 ==> 2 * (w.seconds * second - part) <= second && 2 * (part
                - w.seconds * second) <= second
            &&& w.seconds == 1 ==> 2 * part < 3 * second
            &&& w.under_a_minute <==> part < 60 * second
        },
{
    let part = bytes as int * rate.micros as int;
    let second = rate.bytes as int * 1_000_000;
    let q = part / second;
    let r = part % second;
    assert(bytes > 0 ==> part > 0) by (nonlinear_arith)
        requires
            part == bytes as int * rate.micros as int,
            rate.micros > 0,
    ;
    assert(bytes == 0 ==> part == 0) by (nonlinear_arith)
        requires
            part == bytes as int * rate.micros as int,
    ;
    assert(part == q * second + r && 0 <= r < second && q >= 0) by (nonlinear_arith)
        requires
            0 <= part,
            0 < second,
            q == part / second,
            r == part % second,
    ;
    assert((q + 1) * second == q * second + second) by (nonlinear_arith);
    assert(q <= 0xffff_ffff_ffff_fff0) by (nonlinear_arith)
        requires
            part == q * second + r,
            0 <= r,
            0 < second,
            part <= second * 0xffff_ffff_ffff_fff0,
    ;
    let w = nearest(part, second);
    assert(w == q || w == q + 1);
    assert(0 * second == 0 && 1 * second == second);
}

/// Nothing can be said of a transfer without a rate to go by.
pub proof fn law_no_rate_no_estimate(bytes: u64, rate: Rate)
    ensures
        transfer_wait(bytes, rate) is None <==> rate.bytes == 0 || rate.micros == 0,
{
}

/// A rate is the bytes there were in a second, rounded down.
pub proof fn law_rates_are_bytes_in_a_second(rate: Rate)
    requires
        rate.micros > 0,
        rate.speed() < u64::MAX,
    ensures
        rate.speed() as int * rate.micros as int <= rate.bytes as int * 1_000_000,
        rate.bytes as int * 1_000_000 < (rate.speed() as int + 1) * rate.micros as int,
{
    let n = rate.bytes as int * 1_000_000;
    let d = rate.micros as int;
    let q = n / d;
    assert(q * d <= n < (q + 1) * d) by (nonlinear_arith)
        requires
            0 <= n,
            0 < d,
            q == n / d,
    ;
}

// ---- The question ---------------------------------------------------------

/// Whether one text stands somewhere in another.
pub open spec fn says(s: Seq<char>, p: Seq<char>) -> bool {
    exists|a: Seq<char>, b: Seq<char>| s == #[trigger] (a + p + b)
}

/// The estimate in the box is for the bytes of the job at the speed there is to go
/// by: it says how long they take at that rate, and what the rate is.
pub proof fn law_the_estimate_is_for_this_job(plan: Plan, speed: Speed, concurrency: usize)
    requires
        plan.bytes > 0,
        speed.of().usable(),
    ensures
        says(
            time_text(plan, Some(speed), concurrency),
            duration_text(Some((transfer_wait(plan.bytes, speed.of())->0).seconds)),
        ),
        says(
            time_text(plan, Some(speed), concurrency),
            bytes_text(speed.of().speed() as int) + seq!['/', 's'],
        ),
{
    let w = transfer_wait(plan.bytes, speed.of())->0;
    let estimate = duration_text(Some(w.seconds));
    let rate = rate_text(speed.of().speed() as int);
    let one = speed is Probed && concurrency > 1;
    let lead = if w.under_a_minute {
        "that is "@
    } else if plan.unsized_episodes > 0 {
        "that is at least "@
    } else {
        "that is about "@
    };
    let after = if w.under_a_minute && plan.unsized_episodes > 0 {
        " for the ones that say"@
    } else {
        Seq::empty()
    };
    let aside = if one {
        " on one connection"@
    } else {
        ""@
    };
    let tail = (if one {
        " — likely quicker, with "@ + decimal(concurrency as int) + " downloading at once"@
    } else {
        ""@
    }) + "."@;
    let s = time_text(plan, Some(speed), concurrency);
    let front = "At around "@ + rate + aside + ", "@ + lead;
    assert(s =~= front + estimate + (after + tail));
    assert(s =~= "At around "@ + rate + (aside + ", "@ + lead + estimate + after + tail));
}

/// The box says how many bytes there are to fetch, and how many episodes do not
/// say; and when none says, it claims nothing.
pub proof fn law_the_box_says_how_much(plan: Plan)
    ensures
        plan.episodes > plan.unsized_episodes ==> says(
            amount_text(plan),
            bytes_text(plan.bytes as int),
        ),
        plan.episodes > plan.unsized_episodes && plan.unsized_episodes > 0 ==> says(
            amount_text(plan),
            counted_text(plan.unsized_episodes as int, "episode"@),
        ),
        says(headline_text(plan), counted_text(plan.episodes as int, "episode"@)),
{
    let none = Seq::<char>::empty();
    let size = bytes_text(plan.bytes as int);
    let s = amount_text(plan);
    let counted = counted_text(plan.unsized_episodes as int, "episode"@);
    if plan.episodes > plan.unsized_episodes {
        if plan.unsized_episodes == 0 {
            assert(s =~= none + size + " to fetch."@);
        } else {
            assert(s =~= none + size + (" to fetch, plus "@ + counted
                + " that don't say how big they are."@));
            assert(s =~= (size + " to fetch, plus "@) + counted
                + " that don't say how big they are."@);
        }
    }
    assert(headline_text(plan) =~= "Download "@ + counted_text(
        plan.episodes as int,
        "episode"@,
    ) + "?"@);
}

// ---- Rounding -------------------------------------------------------------

/// A quotient is rounded to the nearest whole number, and one that lies halfway
/// to the even one.
pub proof fn law_quotients_are_rounded_to_the_nearest(n: int, d: int)
    requires
        d > 0,
    ensures
        -d <= 2 * (nearest_even(n, d) * d - n) <= d,
        2 * (nearest_even(n, d) * d - n) == d || 2 * (nearest_even(n, d) * d - n) == -d
            ==> nearest_even(n, d) % 2 == 0,
{
    let q = n / d;
    let r = n % d;
    vstd::arithmetic::div_mod::lemma_fundamental_div_mod(n, d);
    vstd::arithmetic::div_mod::lemma_mod_bound(n, d);
    assert(d * q == q * d) by (nonlinear_arith);
    assert((q + 1) * d == q * d + d) by (nonlinear_arith);
}

/// A share is rounded to the nearest whole number, and one that lies halfway
/// upwards.
pub proof fn law_shares_are_rounded_to_the_nearest(n: int, d: int)
    requires
        d > 0,
    ensures
        -d < 2 * (nearest(n, d) * d - n) <= d,
{
    let q = n / d;
    vstd::arithmetic::div_mod::lemma_fundamental_div_mod(n, d);
    vstd::arithmetic::div_mod::lemma_mod_bound(n, d);
    assert(d * q == q * d) by (nonlinear_arith);
    assert((q + 1) * d == q * d + d) by (nonlinear_arith);
}

} // verus!
