//! The two ways feeds write a moment.
//!
//! RSS writes `5 Aug 2025 10:00:00 -0400` and Atom writes
//! `2025-08-05T10:00:00-04:00`. What is said here is how a moment is written
//! from a zone, so that reading it back can be held against it.

use crate::calendar::civil_days;
use crate::calendar::law_dates_and_days_are_inverse;
use crate::calendar::law_days_follow_dates;
use crate::calendar::valid_date;
use crate::text::all_digits;
use crate::text::decimal;
use crate::text::digit;
use crate::text::digits_value;
use crate::text::first_of;
use crate::text::lemma_first_of;
use crate::text::lemma_word_len;
use crate::text::lower;
use crate::text::lower_char;
use crate::text::padded;
use crate::text::pieces;
use crate::text::signed_number;
use crate::text::trim;
use crate::text::trim_start;
use crate::text::unsigned_number;
use crate::text::white;
use crate::text::word_len;
use crate::text::words;
use crate::text::zeros;
use crate::util::atom_date;
use crate::util::clock_time;
use crate::util::digits_of;
use crate::util::law_one_instant_one_moment;
use crate::util::law_shifting_keeps_the_instant;
use crate::util::month_number;
use crate::util::offset_digits;
use crate::util::rss_date;
use crate::util::without_weekday;
use crate::util::zone_minutes;
use crate::util::zone_start;
use crate::util::Published;
use vstd::prelude::*;

verus! {

/// A moment in UTC as the clocks of a zone `zone` minutes east of it show it.
pub open spec fn local_time(u: Published, zone: int) -> Published {
    Published::at(u.instant() + zone)
}

/// The sign of a zone.
pub open spec fn zone_sign(zone: int) -> char {
    if zone < 0 {
        '-'
    } else {
        '+'
    }
}

/// How far a zone is from UTC, either way.
pub open spec fn zone_size(zone: int) -> int {
    if zone < 0 {
        -zone
    } else {
        zone
    }
}

/// A time of day: `hh:mm:ss`.
pub open spec fn time_text(hour: int, minute: int, second: int) -> Seq<char> {
    padded(hour, 2) + seq![':'] + (padded(minute, 2) + seq![':'] + padded(second, 2))
}

/// A moment as Atom writes it from a zone: `YYYY-MM-DDThh:mm:ss+hh:mm`.
pub open spec fn atom_text(u: Published, zone: int, second: int) -> Seq<char> {
    let l = local_time(u, zone);
    (padded(l.year as int, 4) + seq!['-'] + (padded(l.month as int, 2) + seq!['-'] + padded(
        l.day as int,
        2,
    ))) + seq!['T'] + (time_text(l.hour as int, l.minute as int, second) + (seq![zone_sign(zone)]
        + padded(zone_size(zone) / 60, 2) + seq![':'] + padded(zone_size(zone) % 60, 2)))
}

/// The English name of a month, cut to three letters.
pub open spec fn month_name(month: int) -> Seq<char> {
    if month == 1 {
        "Jan"@
    } else if month == 2 {
        "Feb"@
    } else if month == 3 {
        "Mar"@
    } else if month == 4 {
        "Apr"@
    } else if month == 5 {
        "May"@
    } else if month == 6 {
        "Jun"@
    } else if month == 7 {
        "Jul"@
    } else if month == 8 {
        "Aug"@
    } else if month == 9 {
        "Sep"@
    } else if month == 10 {
        "Oct"@
    } else if month == 11 {
        "Nov"@
    } else {
        "Dec"@
    }
}

/// A moment as RSS writes it from a zone: `D Mon YYYY hh:mm:ss +hhmm`.
pub open spec fn rss_text(u: Published, zone: int, second: int) -> Seq<char> {
    let l = local_time(u, zone);
    decimal(l.day as int) + seq![' '] + (month_name(l.month as int) + seq![' '] + (padded(
        l.year as int,
        4,
    ) + seq![' '] + (time_text(l.hour as int, l.minute as int, second) + seq![' '] + (seq![
        zone_sign(zone),
    ] + padded(zone_size(zone) / 60, 2) + padded(zone_size(zone) % 60, 2)))))
}

// ---- Cutting texts apart --------------------------------------------------

/// Where the first of a set stands is told by what stands before it.
pub proof fn lemma_first_is(s: Seq<char>, set: Seq<char>, n: int)
    requires
        0 <= n <= s.len(),
        forall|i: int| 0 <= i < n ==> !set.contains(#[trigger] s[i]),
        n < s.len() ==> set.contains(s[n]),
    ensures
        first_of(s, set) == n,
{
    lemma_first_of(s, set);
    let k = first_of(s, set);
    if k < n {
        assert(!set.contains(s[k]));
    }
    if n < k {
        assert(!set.contains(s[n]));
    }
}

/// A text before a separator is a piece of its own.
pub proof fn lemma_pieces(a: Seq<char>, c: char, rest: Seq<char>)
    requires
        !a.contains(c),
    ensures
        pieces(a + seq![c] + rest, c) == seq![a] + pieces(rest, c),
        pieces(a, c) == seq![a],
{
    let s = a + seq![c] + rest;
    let set = seq![c];
    let n = a.len() as int;
    assert(set.contains(c)) by {
        assert(set[0] == c);
    }
    assert forall|i: int| 0 <= i < n implies !set.contains(#[trigger] s[i]) by {
        assert(s[i] == a[i]);
    }
    lemma_first_is(s, set, n);
    assert(s.take(n) =~= a);
    assert(s.skip(n + 1) =~= rest);
    assert forall|i: int| 0 <= i < n implies !set.contains(#[trigger] a[i]) by {}
    lemma_first_is(a, set, n);
}

/// A text that neither begins nor ends with white space stays as it is.
pub proof fn lemma_untrimmed(s: Seq<char>)
    requires
        s.len() > 0,
        !white(s[0]),
        !white(s.last()),
    ensures
        trim_start(s) == s,
        trim(s) == s,
{
}

/// A text before a space is a word of its own.
proof fn lemma_words(a: Seq<char>, rest: Seq<char>)
    requires
        a.len() > 0,
        forall|i: int| 0 <= i < a.len() ==> !white(#[trigger] a[i]),
    ensures
        words(a + seq![' '] + rest) == seq![a] + words(rest),
        words(a) == seq![a],
{
    let s = a + seq![' '] + rest;
    let n = a.len() as int;
    assert(s[0] == a[0]);
    assert(trim_start(s) == s);
    lemma_word_len(s);
    let k = word_len(s);
    if k < n {
        assert(s[k] == a[k]);
    }
    if k > n {
        assert(s[n] == ' ');
    }
    assert(s.take(n) =~= a);
    let after = s.skip(n);
    assert(after[0] == ' ');
    assert(after.drop_first() =~= rest);
    assert(trim_start(after) == trim_start(rest));
    assert(words(after) == words(rest));

    assert(trim_start(a) == a);
    lemma_word_len(a);
    let m = word_len(a);
    if m < n {
        assert(!white(a[m]));
    }
    assert(a.take(n) =~= a);
    assert(a.skip(n) =~= Seq::empty());
    assert(words(a.skip(n)) =~= Seq::empty());
    assert(words(a) =~= seq![a]);
}

// ---- Numbers --------------------------------------------------------------

proof fn lemma_digit(d: int)
    requires
        0 <= d < 10,
    ensures
        '0' <= digit(d) <= '9',
        digit(d) as int == 48 + d,
{
}

/// A number in decimal is digits, and they are worth the number.
pub proof fn lemma_decimal(n: int)
    requires
        0 <= n,
    ensures
        decimal(n).len() > 0,
        all_digits(decimal(n)),
        digits_value(decimal(n)) == n,
    decreases n,
{
    if n < 10 {
        lemma_digit(n);
        let s = decimal(n);
        assert(s.drop_last() =~= Seq::empty());
        assert(digits_value(s.drop_last()) == 0);
    } else {
        lemma_decimal(n / 10);
        lemma_digit(n % 10);
        let s = decimal(n);
        assert(s.drop_last() =~= decimal(n / 10));
        assert(s.last() == digit(n % 10));
    }
}

/// Zeros in front are worth nothing.
proof fn lemma_zeros(k: int, s: Seq<char>)
    requires
        0 <= k,
        all_digits(s),
    ensures
        all_digits(zeros(k) + s),
        digits_value(zeros(k) + s) == digits_value(s),
    decreases s.len(), k,
{
    let t = zeros(k) + s;
    assert forall|i: int| 0 <= i < t.len() implies '0' <= #[trigger] t[i] <= '9' by {
        if i >= k {
            assert(t[i] == s[i - k]);
        }
    }
    if s.len() > 0 {
        assert forall|i: int| 0 <= i < s.drop_last().len() implies '0' <= #[trigger] s.drop_last()[i]
            <= '9' by {
            assert(s.drop_last()[i] == s[i]);
        }
        lemma_zeros(k, s.drop_last());
        assert(t.drop_last() =~= zeros(k) + s.drop_last());
        assert(t.last() == s.last());
    } else if k > 0 {
        lemma_zeros(k - 1, s);
        assert(t.drop_last() =~= zeros(k - 1) + s);
        assert(t.last() == '0');
    } else {
        assert(t =~= s);
    }
}

/// A padded number is digits, worth the number.
pub proof fn lemma_padded(n: int, width: int)
    requires
        0 <= n,
    ensures
        padded(n, width).len() > 0,
        padded(n, width).len() >= width,
        all_digits(padded(n, width)),
        digits_value(padded(n, width)) == n,
{
    lemma_decimal(n);
    if decimal(n).len() < width {
        lemma_zeros(width - decimal(n).len(), decimal(n));
    }
}

/// Two digits are enough for numbers below a hundred.
pub proof fn lemma_two(n: int)
    requires
        0 <= n < 100,
    ensures
        padded(n, 2).len() == 2,
        all_digits(padded(n, 2)),
        digits_value(padded(n, 2)) == n,
{
    lemma_padded(n, 2);
    reveal_with_fuel(decimal, 3);
}

/// Digits read as a number give what they are worth.
pub proof fn lemma_reads(s: Seq<char>, max: int)
    requires
        s.len() > 0,
        all_digits(s),
        digits_value(s) <= max,
    ensures
        unsigned_number(s, max) == Some(digits_value(s) as int),
        max == 0x7fff_ffff ==> signed_number(s) == Some(digits_value(s) as int),
{
    assert('0' <= s[0] <= '9');
}

/// Digits are neither white space nor any of the marks that part a timestamp.
pub proof fn lemma_plain(s: Seq<char>)
    requires
        all_digits(s),
    ensures
        forall|i: int| 0 <= i < s.len() ==> !white(#[trigger] s[i]),
        !s.contains(':'),
        !s.contains('-'),
        !s.contains('+'),
{
}

proof fn lemma_digits_of_digits(s: Seq<char>, rest: Seq<char>)
    requires
        all_digits(s),
    ensures
        digits_of(s + rest) == s + digits_of(rest),
    decreases s.len(),
{
    let t = s + rest;
    if s.len() == 0 {
        assert(t =~= rest);
        assert(s + digits_of(rest) =~= digits_of(rest));
    } else {
        let tail = s.skip(1);
        assert forall|i: int| 0 <= i < tail.len() implies '0' <= #[trigger] tail[i] <= '9' by {
            assert(tail[i] == s[i + 1]);
        }
        lemma_digits_of_digits(tail, rest);
        assert(t.skip(1) =~= tail + rest);
        assert(t[0] == s[0]);
        assert(seq![s[0]] + (tail + digits_of(rest)) =~= s + digits_of(rest));
    }
}

// ---- Times and zones ------------------------------------------------------

/// A written time reads as the hour and minute it was written from.
proof fn lemma_time(h: int, m: int, sec: int)
    requires
        0 <= h < 24,
        0 <= m < 60,
        0 <= sec < 60,
    ensures
        clock_time(time_text(h, m, sec)) == Some((h, m)),
        time_text(h, m, sec).len() == 8,
        forall|i: int|
            0 <= i < 8 ==> ({
                let c = #[trigger] time_text(h, m, sec)[i];
                '0' <= c <= '9' || c == ':'
            }),
{
    lemma_two(h);
    lemma_two(m);
    lemma_two(sec);
    let (a, b, c) = (padded(h, 2), padded(m, 2), padded(sec, 2));
    let t = time_text(h, m, sec);
    lemma_plain(a);
    lemma_plain(b);
    lemma_plain(c);
    assert(t[0] == a[0]);
    assert(t.last() == c[1]);
    lemma_untrimmed(t);
    lemma_pieces(a, ':', b + seq![':'] + c);
    lemma_pieces(b, ':', c);
    lemma_pieces(c, ':', c);
    let parts = pieces(t, ':');
    assert(parts =~= seq![a, b, c]);
    lemma_untrimmed(b);
    lemma_reads(a, u32::MAX as int);
    lemma_reads(b, u32::MAX as int);
}

/// A written zone reads as the minutes it was written from.
proof fn lemma_zone(zone: int, mark: Seq<char>)
    requires
        -1440 < zone < 1440,
        mark == Seq::<char>::empty() || mark == seq![':'],
    ensures
        ({
            let z = seq![zone_sign(zone)] + padded(zone_size(zone) / 60, 2) + mark + padded(
                zone_size(zone) % 60,
                2,
            );
            zone_minutes(Some(z)) == zone
        }),
{
    let (h, m) = (zone_size(zone) / 60, zone_size(zone) % 60);
    lemma_two(h);
    lemma_two(m);
    let (a, b) = (padded(h, 2), padded(m, 2));
    let z = seq![zone_sign(zone)] + a + mark + b;
    lemma_plain(b);
    assert(z.last() == b[1]);
    lemma_untrimmed(z);
    let d = z.skip(1);
    assert(d =~= a + (mark + b));
    lemma_digits_of_digits(a, mark + b);
    lemma_digits_of_digits(b, Seq::empty());
    assert(b + Seq::<char>::empty() =~= b);
    assert(digits_of(mark + b) == b) by {
        if mark.len() == 0 {
            assert(mark + b =~= b);
        } else {
            assert((mark + b).skip(1) =~= b);
        }
    }
    let all = a + b;
    assert(digits_of(d) =~= all);
    assert(all.take(2) =~= a);
    assert(all.skip(2) =~= b);
    assert(offset_digits(all) == h * 60 + m);
}

/// Seen from a zone, a moment of four-digit years is still one, and moving it
/// back gives it again.
proof fn lemma_local(u: Published, zone: int)
    requires
        u.genuine(),
        1000 <= u.year <= 9000,
        -1440 < zone < 1440,
    ensures
        local_time(u, zone).genuine(),
        999 <= local_time(u, zone).year <= 9001,
        Published::at(
            civil_days(
                local_time(u, zone).year as int,
                local_time(u, zone).month as int,
                local_time(u, zone).day as int,
            ) * 1440 + local_time(u, zone).hour * 60 + local_time(u, zone).minute - zone,
        ) == u,
{
    let total = u.instant() + zone;
    let days = total / 1440;
    let d = crate::calendar::date_of(days);
    law_dates_and_days_are_inverse(days);
    let ud = (u.year as int, u.month as int, u.day as int);
    let here = civil_days(ud.0, ud.1, ud.2);
    assert(here - 1 <= days <= here + 1);
    assert(valid_date(999, 1, 1) && valid_date(1000, 1, 1) && valid_date(9001, 1, 1) && valid_date(
        9002,
        1,
        1,
    ));
    law_days_follow_dates(ud, (1000, 1, 1));
    law_days_follow_dates(ud, (9001, 1, 1));
    law_days_follow_dates(d, (999, 1, 1));
    law_days_follow_dates(d, (9002, 1, 1));
    lemma_year_starts();
    assert(999 <= d.0 <= 9001);
    law_shifting_keeps_the_instant(total);
    law_one_instant_one_moment(u, u);
    law_one_instant_one_moment(local_time(u, zone), local_time(u, zone));
    assert(local_time(u, zone).instant() == total);
}

proof fn lemma_year_starts()
    ensures
        civil_days(999, 1, 1) + 1 < civil_days(1000, 1, 1),
        civil_days(9001, 1, 1) + 1 < civil_days(9002, 1, 1),
{
}

// ---- The law --------------------------------------------------------------

/// What Atom writes is read back as the moment it was written from.
proof fn lemma_atom(u: Published, zone: int, second: int)
    requires
        u.genuine(),
        1000 <= u.year <= 9000,
        -1440 < zone < 1440,
        0 <= second < 60,
    ensures
        atom_date(atom_text(u, zone, second)) == Some(u),
{
    lemma_local(u, zone);
    let l = local_time(u, zone);
    let s = atom_text(u, zone, second);
    let (y, m, d) = (padded(l.year as int, 4), padded(l.month as int, 2), padded(l.day as int, 2));
    lemma_padded(l.year as int, 4);
    lemma_two(l.month as int);
    lemma_two(l.day as int);
    lemma_plain(y);
    lemma_plain(m);
    lemma_plain(d);
    let date = y + seq!['-'] + (m + seq!['-'] + d);
    let time = time_text(l.hour as int, l.minute as int, second);
    lemma_time(l.hour as int, l.minute as int, second);
    let (zh, zm) = (padded(zone_size(zone) / 60, 2), padded(zone_size(zone) % 60, 2));
    lemma_two(zone_size(zone) / 60);
    lemma_two(zone_size(zone) % 60);
    let z = seq![zone_sign(zone)] + zh + seq![':'] + zm;
    lemma_zone(zone, seq![':']);
    let rest = time + z;
    assert(s == date + seq!['T'] + rest);
    assert(s[0] == y[0]);
    assert(s.last() == zm[1]);
    lemma_plain(zm);
    lemma_untrimmed(s);

    let gap = seq!['T', 't', ' '];
    let n = date.len() as int;
    assert(gap.contains('T')) by {
        assert(gap[0] == 'T');
    }
    assert forall|i: int| 0 <= i < n implies !gap.contains(#[trigger] s[i]) by {
        assert(s[i] == date[i]);
        assert('0' <= date[i] <= '9' || date[i] == '-') by {
            if i < y.len() {
                assert(date[i] == y[i]);
            } else if i > y.len() {
                let k = i - y.len() - 1;
                if k < 2 {
                    assert(date[i] == m[k]);
                } else if k > 2 {
                    assert(date[i] == d[k - 3]);
                }
            }
        }
    }
    lemma_first_is(s, gap, n);
    assert(s.take(n) =~= date);
    assert(s.skip(n + 1) =~= rest);
    lemma_pieces(y, '-', m + seq!['-'] + d);
    lemma_pieces(m, '-', d);
    lemma_pieces(d, '-', d);
    assert(pieces(date, '-') =~= seq![y, m, d]);
    lemma_reads(y, 0x7fff_ffff);
    lemma_reads(m, u32::MAX as int);
    lemma_reads(d, u32::MAX as int);

    lemma_zone_start(time, z, zone);
    assert(rest.take(8) =~= time);
    assert(rest.skip(8) =~= z);
}

/// The zone of a time starts at its sign.
proof fn lemma_zone_start(time: Seq<char>, z: Seq<char>, zone: int)
    requires
        time.len() == 8,
        forall|i: int|
            0 <= i < 8 ==> ({
                let c = #[trigger] time[i];
                '0' <= c <= '9' || c == ':'
            }),
        z.len() == 6,
        z[0] == zone_sign(zone),
        forall|i: int|
            1 <= i < 6 ==> ({
                let c = #[trigger] z[i];
                '0' <= c <= '9' || c == ':'
            }),
    ensures
        zone_start(time + z) == 8,
{
    let rest = time + z;
    let marks = seq!['Z', 'z', '+'];
    let minus = seq!['-'];
    assert forall|i: int| 0 <= i < 14 && i != 8 implies !marks.contains(#[trigger] rest[i])
        && !minus.contains(rest[i]) by {
        if i < 8 {
            assert(rest[i] == time[i]);
        } else {
            assert(rest[i] == z[i - 8]);
        }
    }
    assert(rest[8] == z[0]);
    if zone < 0 {
        assert(minus[0] == '-');
        lemma_first_is(rest, marks, 14);
        lemma_first_is(rest, minus, 8);
    } else {
        assert(marks[2] == '+');
        lemma_first_is(rest, marks, 8);
    }
}

/// The name of a month is three letters, and reads as that month.
proof fn lemma_month_name(month: int)
    requires
        1 <= month <= 12,
    ensures
        month_name(month).len() == 3,
        forall|i: int|
            0 <= i < 3 ==> ({
                let c = #[trigger] month_name(month)[i];
                !white(c) && c != ','
            }),
        month_number(month_name(month)) == Some(month),
{
    reveal_strlit("Jan");
    reveal_strlit("jan");
    reveal_strlit("Feb");
    reveal_strlit("feb");
    reveal_strlit("Mar");
    reveal_strlit("mar");
    reveal_strlit("Apr");
    reveal_strlit("apr");
    reveal_strlit("May");
    reveal_strlit("may");
    reveal_strlit("Jun");
    reveal_strlit("jun");
    reveal_strlit("Jul");
    reveal_strlit("jul");
    reveal_strlit("Aug");
    reveal_strlit("aug");
    reveal_strlit("Sep");
    reveal_strlit("sep");
    reveal_strlit("Oct");
    reveal_strlit("oct");
    reveal_strlit("Nov");
    reveal_strlit("nov");
    reveal_strlit("Dec");
    reveal_strlit("dec");
    let name = month_name(month);
    let low = lower(name);
    assert(low.len() == 3);
    assert(low =~= seq![low[0], low[1], low[2]]);
    assert(month == 1 ==> low =~= "jan"@);
    assert(month == 2 ==> low =~= "feb"@);
    assert(month == 3 ==> low =~= "mar"@);
    assert(month == 4 ==> low =~= "apr"@);
    assert(month == 5 ==> low =~= "may"@);
    assert(month == 6 ==> low =~= "jun"@);
    assert(month == 7 ==> low =~= "jul"@);
    assert(month == 8 ==> low =~= "aug"@);
    assert(month == 9 ==> low =~= "sep"@);
    assert(month == 10 ==> low =~= "oct"@);
    assert(month == 11 ==> low =~= "nov"@);
    assert(month == 12 ==> low =~= "dec"@);
}

/// What RSS writes is read back as the moment it was written from.
proof fn lemma_rss(u: Published, zone: int, second: int)
    requires
        u.genuine(),
        1000 <= u.year <= 9000,
        -1440 < zone < 1440,
        0 <= second < 60,
    ensures
        rss_date(rss_text(u, zone, second)) == Some(u),
{
    lemma_local(u, zone);
    let l = local_time(u, zone);
    let s = rss_text(u, zone, second);
    let d = decimal(l.day as int);
    let mon = month_name(l.month as int);
    let y = padded(l.year as int, 4);
    let time = time_text(l.hour as int, l.minute as int, second);
    let (zh, zm) = (padded(zone_size(zone) / 60, 2), padded(zone_size(zone) % 60, 2));
    let z = seq![zone_sign(zone)] + zh + zm;
    lemma_decimal(l.day as int);
    lemma_month_name(l.month as int);
    lemma_padded(l.year as int, 4);
    lemma_time(l.hour as int, l.minute as int, second);
    lemma_two(zone_size(zone) / 60);
    lemma_two(zone_size(zone) % 60);
    lemma_zone(zone, Seq::empty());
    assert(seq![zone_sign(zone)] + zh + Seq::<char>::empty() + zm =~= z);
    lemma_plain(d);
    lemma_plain(y);
    lemma_plain(zh);
    lemma_plain(zm);
    assert forall|i: int| 0 <= i < z.len() implies !white(#[trigger] z[i]) && z[i] != ',' by {
        if i == 0 {
            assert(z[i] == zone_sign(zone));
        } else if i < 3 {
            assert(z[i] == zh[i - 1]);
        } else {
            assert(z[i] == zm[i - 3]);
        }
    }
    assert forall|i: int| 0 <= i < time.len() implies !white(#[trigger] time[i]) by {}
    let s4 = time + seq![' '] + z;
    let s3 = y + seq![' '] + s4;
    let s2 = mon + seq![' '] + s3;
    assert(s == d + seq![' '] + s2);
    lemma_words(d, s2);
    lemma_words(mon, s3);
    lemma_words(y, s4);
    lemma_words(time, z);
    lemma_words(z, z);
    assert(words(s) =~= seq![d, mon, y, time, z]);

    lemma_no_comma(time, z);
    lemma_no_comma(y, s4);
    lemma_no_comma(mon, s3);
    lemma_no_comma(d, s2);
    assert(s[0] == d[0]);
    assert(s.last() == z.last());
    lemma_untrimmed(s);
    lemma_first_is(s, seq![','], s.len() as int);
    assert(without_weekday(s) == s);
    lemma_reads(d, u32::MAX as int);
    lemma_reads(y, 0x7fff_ffff);
}

proof fn lemma_no_comma(a: Seq<char>, rest: Seq<char>)
    requires
        forall|i: int| 0 <= i < a.len() ==> #[trigger] a[i] != ',',
        forall|i: int| 0 <= i < rest.len() ==> #[trigger] rest[i] != ',',
    ensures
        forall|i: int|
            0 <= i < (a + seq![' '] + rest).len() ==> #[trigger] (a + seq![' '] + rest)[i] != ','
                && !seq![','].contains((a + seq![' '] + rest)[i]),
{
    let s = a + seq![' '] + rest;
    assert forall|i: int| 0 <= i < s.len() implies #[trigger] s[i] != ',' && !seq![','].contains(
        s[i],
    ) by {
        if i < a.len() {
            assert(s[i] == a[i]);
        } else if i > a.len() {
            assert(s[i] == rest[i - a.len() - 1]);
        }
    }
}

/// One instant, one moment: written from any zone, and in either of the two
/// ways, it is read back as the same moment in UTC, and so gets the same name.
pub proof fn law_one_instant_however_written(u: Published, zone: int, second: int)
    requires
        u.genuine(),
        1000 <= u.year <= 9000,
        -1440 < zone < 1440,
        0 <= second < 60,
    ensures
        atom_date(atom_text(u, zone, second)) == Some(u),
        rss_date(rss_text(u, zone, second)) == Some(u),
{
    lemma_atom(u, zone, second);
    lemma_rss(u, zone, second);
}

// ---- Zones by name --------------------------------------------------------

/// Whether a text is a single word that no comma stands in.
pub open spec fn one_word(s: Seq<char>) -> bool {
    s.len() > 0 && forall|i: int| 0 <= i < s.len() ==> !white(#[trigger] s[i]) && s[i] != ','
}

/// A timestamp of the shape mail uses: perhaps a weekday with its comma, and
/// then the day, the month, the year, the time and the zone.
pub open spec fn mail_text(
    weekday: Option<Seq<char>>,
    day: Seq<char>,
    month: Seq<char>,
    year: Seq<char>,
    time: Seq<char>,
    zone: Seq<char>,
) -> Seq<char> {
    let date = day + seq![' '] + (month + seq![' '] + (year + seq![' '] + (time + seq![' ']
        + zone)));
    match weekday {
        Some(w) => w + seq![',', ' '] + date,
        None => date,
    }
}

pub proof fn lemma_mail_words(
    weekday: Option<Seq<char>>,
    day: Seq<char>,
    month: Seq<char>,
    year: Seq<char>,
    time: Seq<char>,
    zone: Seq<char>,
)
    requires
        weekday matches Some(w) ==> one_word(w),
        one_word(day),
        one_word(month),
        one_word(year),
        one_word(time),
        one_word(zone),
    ensures
        words(without_weekday(mail_text(weekday, day, month, year, time, zone))) == seq![
            day,
            month,
            year,
            time,
            zone,
        ],
{
    let s4 = time + seq![' '] + zone;
    let s3 = year + seq![' '] + s4;
    let s2 = month + seq![' '] + s3;
    let s1 = day + seq![' '] + s2;
    lemma_words(day, s2);
    lemma_words(month, s3);
    lemma_words(year, s4);
    lemma_words(time, zone);
    lemma_words(zone, zone);
    assert(words(s1) =~= seq![day, month, year, time, zone]);
    lemma_no_comma(time, zone);
    lemma_no_comma(year, s4);
    lemma_no_comma(month, s3);
    lemma_no_comma(day, s2);
    assert(s1[0] == day[0]);
    assert(s1.last() == zone.last());
    lemma_untrimmed(s1);
    let s = mail_text(weekday, day, month, year, time, zone);
    let comma = seq![','];
    match weekday {
        None => {
            lemma_first_is(s, comma, s.len() as int);
        },
        Some(w) => {
            assert(s == w + seq![',', ' '] + s1);
            assert(s[0] == w[0]);
            assert(s.last() == s1.last());
            lemma_untrimmed(s);
            let n = w.len() as int;
            assert(comma.contains(',')) by {
                assert(comma[0] == ',');
            }
            assert forall|i: int| 0 <= i < n implies !comma.contains(#[trigger] s[i]) by {
                assert(s[i] == w[i]);
            }
            lemma_first_is(s, comma, n);
            let rest = s.skip(n + 1);
            assert(rest[0] == ' ');
            assert(rest.drop_first() =~= s1);
            assert(trim_start(rest) == s1);
            assert(trim(rest) == s1);
        },
    }
}

proof fn lemma_numeric_zone(text: Seq<char>, hours: int)
    requires
        0 <= hours < 10,
        text.len() == 5,
        text[0] == '-',
        text[1] == '0',
        text[2] == digit(hours),
        text[3] == '0',
        text[4] == '0',
    ensures
        zone_minutes(Some(text)) == -60 * hours,
        one_word(text),
{
    reveal_with_fuel(decimal, 2);
    lemma_digit(hours);
    if hours > 0 {
        lemma_zone(-60 * hours, Seq::empty());
        assert(padded(hours, 2) =~= seq!['0', digit(hours)]);
        assert(padded(0, 2) =~= seq!['0', '0']);
        assert(text =~= seq!['-'] + padded(hours, 2) + Seq::<char>::empty() + padded(0, 2));
    } else {
        lemma_untrimmed(text);
        let d = text.skip(1);
        assert(all_digits(d));
        lemma_digits_of_digits(d, Seq::empty());
        assert(d + Seq::<char>::empty() =~= d);
        assert(digits_of(d) =~= d);
        reveal_with_fuel(digits_value, 3);
        assert(d.take(2) =~= seq!['0', '0'] && d.skip(2) =~= seq!['0', '0']);
        assert(seq!['0', '0'].drop_last() =~= seq!['0']);
        assert(seq!['0'].drop_last() =~= Seq::<char>::empty());
    }
}

/// A name in any case of letters is a word, and no number.
proof fn lemma_named_zone(zone: Seq<char>)
    requires
        zone.len() > 0,
        forall|i: int| 0 <= i < zone.len() ==> 'a' <= #[trigger] lower(zone)[i] <= 'z',
    ensures
        one_word(zone),
        trim(zone) == zone,
        zone[0] != '+' && zone[0] != '-',
{
    assert forall|i: int| 0 <= i < zone.len() implies !white(#[trigger] zone[i]) && zone[i] != ','
        && zone[i] != '+' && zone[i] != '-' by {
        assert('a' <= lower(zone)[i] <= 'z');
        assert(lower(zone)[i] == lower_char(zone[i]));
        if !('A' <= zone[i] <= 'Z') {
            assert('a' <= zone[i] <= 'z');
        }
    }
    assert(!white(zone[0]));
    lemma_untrimmed(zone);
}

/// A three-letter name with a `t` at its end is its zone's.
proof fn lemma_letters(zone: Seq<char>, a: char, b: char)
    requires
        lower(zone) == seq![a, b, 't'],
        a == 'e' || a == 'c' || a == 'm' || a == 'p',
        b == 'd' || b == 's',
    ensures
        one_word(zone),
        zone_minutes(Some(zone)) == -60 * ((if a == 'e' {
            5int
        } else if a == 'c' {
            6
        } else if a == 'm' {
            7
        } else {
            8
        }) - (if b == 'd' {
            1int
        } else {
            0
        })),
{
    let n = lower(zone);
    assert(zone.len() == n.len());
    assert(n[0] == a && n[1] == b && n[2] == 't');
    lemma_named_zone(zone);
    reveal_strlit("edt");
    reveal_strlit("est");
    reveal_strlit("cdt");
    reveal_strlit("cst");
    reveal_strlit("mdt");
    reveal_strlit("mst");
    reveal_strlit("pdt");
    reveal_strlit("pst");
    assert("edt"@ =~= seq!['e', 'd', 't'] && "est"@ =~= seq!['e', 's', 't']);
    assert("cdt"@ =~= seq!['c', 'd', 't'] && "cst"@ =~= seq!['c', 's', 't']);
    assert("mdt"@ =~= seq!['m', 'd', 't'] && "mst"@ =~= seq!['m', 's', 't']);
    assert("pdt"@ =~= seq!['p', 'd', 't'] && "pst"@ =~= seq!['p', 's', 't']);
}

/// One of the names for UTC.
pub proof fn lemma_utc(zone: Seq<char>)
    requires
        lower(zone) == "gmt"@ || lower(zone) == "utc"@ || lower(zone) == "ut"@ || lower(zone)
            == "z"@,
    ensures
        one_word(zone),
        zone_minutes(Some(zone)) == 0,
{
    let n = lower(zone);
    reveal_strlit("gmt");
    reveal_strlit("utc");
    reveal_strlit("ut");
    reveal_strlit("z");
    assert(zone.len() == n.len());
    assert(forall|i: int| 0 <= i < n.len() ==> 'a' <= #[trigger] n[i] <= 'z');
    lemma_named_zone(zone);
    reveal_strlit("edt");
    reveal_strlit("est");
    reveal_strlit("cdt");
    reveal_strlit("cst");
    reveal_strlit("mdt");
    reveal_strlit("mst");
    reveal_strlit("pdt");
    reveal_strlit("pst");
    assert("edt"@[0] == 'e' && "est"@[0] == 'e' && "cdt"@[0] == 'c' && "cst"@[0] == 'c'
        && "mdt"@[0] == 'm' && "mst"@[0] == 'm' && "pdt"@[0] == 'p' && "pst"@[0] == 'p');
    assert(n[0] == 'g' || n[0] == 'u' || n[0] == 'z');
}

/// Only what the zone comes to matters of it.
proof fn lemma_same_zone(
    weekday: Option<Seq<char>>,
    day: Seq<char>,
    month: Seq<char>,
    year: Seq<char>,
    time: Seq<char>,
    a: Seq<char>,
    b: Seq<char>,
)
    requires
        weekday matches Some(w) ==> one_word(w),
        one_word(day),
        one_word(month),
        one_word(year),
        one_word(time),
        one_word(a),
        one_word(b),
        zone_minutes(Some(a)) == zone_minutes(Some(b)),
    ensures
        rss_date(mail_text(weekday, day, month, year, time, a)) == rss_date(
            mail_text(weekday, day, month, year, time, b),
        ),
{
    lemma_mail_words(weekday, day, month, year, time, a);
    lemma_mail_words(weekday, day, month, year, time, b);
}

/// The zones that plenty of feeds still name mean the offsets mail gives them:
/// in any timestamp, the name and the number can stand for each other.
pub proof fn law_zone_names_are_their_offsets(
    weekday: Option<Seq<char>>,
    day: Seq<char>,
    month: Seq<char>,
    year: Seq<char>,
    time: Seq<char>,
    zone: Seq<char>,
)
    requires
        weekday matches Some(w) ==> one_word(w),
        one_word(day),
        one_word(month),
        one_word(year),
        one_word(time),
    ensures
        ({
            let read = |z: Seq<char>| rss_date(mail_text(weekday, day, month, year, time, z));
            &&& lower(zone) == "edt"@ ==> read(zone) == read("-0400"@)
            &&& lower(zone) == "est"@ ==> read(zone) == read("-0500"@)
            &&& lower(zone) == "cdt"@ ==> read(zone) == read("-0500"@)
            &&& lower(zone) == "cst"@ ==> read(zone) == read("-0600"@)
            &&& lower(zone) == "mdt"@ ==> read(zone) == read("-0600"@)
            &&& lower(zone) == "mst"@ ==> read(zone) == read("-0700"@)
            &&& lower(zone) == "pdt"@ ==> read(zone) == read("-0700"@)
            &&& lower(zone) == "pst"@ ==> read(zone) == read("-0800"@)
            &&& lower(zone) == "gmt"@ ==> read(zone) == read("-0000"@)
            &&& lower(zone) == "utc"@ ==> read(zone) == read("-0000"@)
            &&& lower(zone) == "ut"@ ==> read(zone) == read("-0000"@)
            &&& lower(zone) == "z"@ ==> read(zone) == read("-0000"@)
        }),
{
    let n = lower(zone);
    if n == "edt"@ {
        reveal_strlit("edt");
        reveal_strlit("-0400");
        assert(n =~= seq!['e', 'd', 't']);
        lemma_letters(zone, 'e', 'd');
        lemma_numeric_zone("-0400"@, 4);
        lemma_same_zone(weekday, day, month, year, time, zone, "-0400"@);
    }
    if n == "est"@ || n == "cdt"@ {
        reveal_strlit("est");
        reveal_strlit("cdt");
        reveal_strlit("-0500");
        if n == "est"@ {
            assert(n =~= seq!['e', 's', 't']);
            lemma_letters(zone, 'e', 's');
        } else {
            assert(n =~= seq!['c', 'd', 't']);
            lemma_letters(zone, 'c', 'd');
        }
        lemma_numeric_zone("-0500"@, 5);
        lemma_same_zone(weekday, day, month, year, time, zone, "-0500"@);
    }
    if n == "cst"@ || n == "mdt"@ {
        reveal_strlit("cst");
        reveal_strlit("mdt");
        reveal_strlit("-0600");
        if n == "cst"@ {
            assert(n =~= seq!['c', 's', 't']);
            lemma_letters(zone, 'c', 's');
        } else {
            assert(n =~= seq!['m', 'd', 't']);
            lemma_letters(zone, 'm', 'd');
        }
        lemma_numeric_zone("-0600"@, 6);
        lemma_same_zone(weekday, day, month, year, time, zone, "-0600"@);
    }
    if n == "mst"@ || n == "pdt"@ {
        reveal_strlit("mst");
        reveal_strlit("pdt");
        reveal_strlit("-0700");
        if n == "mst"@ {
            assert(n =~= seq!['m', 's', 't']);
            lemma_letters(zone, 'm', 's');
        } else {
            assert(n =~= seq!['p', 'd', 't']);
            lemma_letters(zone, 'p', 'd');
        }
        lemma_numeric_zone("-0700"@, 7);
        lemma_same_zone(weekday, day, month, year, time, zone, "-0700"@);
    }
    if n == "pst"@ {
        reveal_strlit("pst");
        reveal_strlit("-0800");
        assert(n =~= seq!['p', 's', 't']);
        lemma_letters(zone, 'p', 's');
        lemma_numeric_zone("-0800"@, 8);
        lemma_same_zone(weekday, day, month, year, time, zone, "-0800"@);
    }
    if n == "gmt"@ || n == "utc"@ || n == "ut"@ || n == "z"@ {
        reveal_strlit("-0000");
        lemma_utc(zone);
        lemma_numeric_zone("-0000"@, 0);
        lemma_same_zone(weekday, day, month, year, time, zone, "-0000"@);
    }
}

// ---- Moving moments -------------------------------------------------------

/// Whether a moment comes before another, by the calendar and the clock.
pub open spec fn earlier(p: Published, q: Published) -> bool {
    p.year < q.year || (p.year == q.year && (p.month < q.month || (p.month == q.month && (p.day
        < q.day || (p.day == q.day && (p.hour < q.hour || (p.hour == q.hour && p.minute
        < q.minute)))))))
}

/// Moving a moment by no time leaves it; moving it twice is moving it once by
/// both; what comes of it is a moment the calendar and the clock have, and a
/// later one when it is moved forward. (Years so far off that their type could
/// not hold what comes of it are left out.)
pub proof fn law_shifts_add_up(p: Published, m: int, n: int)
    requires
        p.genuine(),
        -2_000_000_000 <= p.year <= 2_000_000_000,
        -10_000_000_000_000 <= m <= 10_000_000_000_000,
        -10_000_000_000_000 <= n <= 10_000_000_000_000,
    ensures
        Published::at(p.instant() + 0) == p,
        ({
            let q = Published::at(p.instant() + m);
            &&& q.genuine()
            &&& q.instant() == p.instant() + m
            &&& Published::at(q.instant() + n) == Published::at(p.instant() + m + n)
            &&& (m > 0 ==> earlier(p, q))
        }),
{
    law_one_instant_one_moment(p, p);
    lemma_year_holds(p, m);
    law_shifting_keeps_the_instant(p.instant() + m);
    let q = Published::at(p.instant() + m);
    let a = (p.year as int, p.month as int, p.day as int);
    let b = (q.year as int, q.month as int, q.day as int);
    law_days_follow_dates(a, b);
    law_days_follow_dates(b, a);
}

/// The year of a moment moved by no more than that fits its type.
proof fn lemma_year_holds(p: Published, m: int)
    requires
        p.genuine(),
        -2_000_000_000 <= p.year <= 2_000_000_000,
        -10_000_000_000_000 <= m <= 10_000_000_000_000,
    ensures
        i32::MIN <= crate::calendar::date_of((p.instant() + m) / 1440).0 <= i32::MAX,
{
    let a = (p.year as int, p.month as int, p.day as int);
    let here = civil_days(a.0, a.1, a.2);
    let days = (p.instant() + m) / 1440;
    assert(here - 7_000_000_000 <= days <= here + 7_000_000_000);
    let d = crate::calendar::date_of(days);
    law_dates_and_days_are_inverse(days);
    let (lo, hi) = ((-2_000_000_000int, 1int, 1int), (2_000_000_001int, 1int, 1int));
    let (least, most) = ((-2_147_483_648int, 1int, 1int), (2_147_483_648int, 1int, 1int));
    assert(valid_date(lo.0, 1, 1) && valid_date(hi.0, 1, 1));
    assert(valid_date(least.0, 1, 1) && valid_date(most.0, 1, 1));
    law_days_follow_dates(a, lo);
    law_days_follow_dates(a, hi);
    law_days_follow_dates(d, least);
    law_days_follow_dates(d, most);
    lemma_far_years();
}

proof fn lemma_far_years()
    ensures
        civil_days(-2_147_483_648, 1, 1) + 8_000_000_000 < civil_days(-2_000_000_000, 1, 1),
        civil_days(2_000_000_001, 1, 1) + 8_000_000_000 < civil_days(2_147_483_648, 1, 1),
{
}

} // verus!
