//! Names, dates, sizes and the small text tools.

use podbatch::calendar::civil_from_days;
use podbatch::calendar::days_from_civil;
use podbatch::text::is_control;
use podbatch::text::is_white;
use podbatch::text::to_lower_char;
use podbatch::util::extension_for;
use podbatch::util::human_bytes;
use podbatch::util::human_duration;
use podbatch::util::human_rate;
use podbatch::util::is_media;
use podbatch::util::iso8601;
use podbatch::util::looks_like_http;
use podbatch::util::rfc2822;
use podbatch::util::sanitize;
use podbatch::util::strip_html;
use podbatch::util::transfer_seconds;
use podbatch::util::utc_stamp;
use podbatch::util::Published;
use podbatch::util::Rate;
use podbatch::util::Wait;

#[test]
fn sanitize_strips_separators_and_collapses_space() {
    assert_eq!(sanitize("AC/DC:  Live?"), "AC DC Live");
    assert_eq!(sanitize("   "), "untitled");
    assert_eq!(sanitize(".hidden."), "hidden");
}

/// `CON`, `NUL` and the rest name a device on Windows, not a file — even
/// with an extension after them — so a show or episode that sanitises to
/// exactly one of these must not be handed back unchanged.
#[test]
fn sanitize_steers_clear_of_windows_device_names() {
    assert_eq!(sanitize("CON"), "CON_");
    assert_eq!(sanitize("con"), "con_");
    assert_eq!(sanitize("Nul"), "Nul_");
    assert_eq!(sanitize("Aux"), "Aux_");
    assert_eq!(sanitize("COM1"), "COM1_");
    assert_eq!(sanitize("Lpt3"), "Lpt3_");
    // A word that only starts with a reserved name is a real title, not a
    // device — "Console" must be left exactly as it was written.
    assert_eq!(sanitize("Console"), "Console");
    assert_eq!(sanitize("Nullable Podcast"), "Nullable Podcast");
}

#[test]
fn sanitize_respects_char_boundaries() {
    let long = "é".repeat(400);
    let out = sanitize(&long);
    assert_eq!(out.chars().count(), 150);
}

#[test]
fn extension_prefers_url_then_mime() {
    assert_eq!(extension_for("https://x.test/a/b.MP3?t=1", None), "mp3");
    assert_eq!(extension_for("https://x.test/track/9281", Some("audio/mp4")), "m4a");
    assert_eq!(extension_for("https://x.test/track/9281", None), "mp3");
    // A dotted hostname path segment isn't an extension, whatever it looks
    // like; fall through to the MIME type instead.
    assert_eq!(extension_for("https://x.test/redirect/example.com", None), "mp3");
    assert_eq!(extension_for("https://x.test/r/example.com", Some("audio/ogg")), "ogg");
}

fn at(year: i32, month: u32, day: u32, hour: u32, minute: u32) -> Published {
    Published { year, month, day, hour, minute }
}

#[test]
fn parses_rss_dates() {
    assert_eq!(rfc2822("Tue, 05 Aug 2025 10:00:00 GMT"), Some(at(2025, 8, 5, 10, 0)));
    // Two-digit year, no seconds, and an offset that has to come back off.
    assert_eq!(rfc2822("5 Aug 25 10:00 -0400"), Some(at(2025, 8, 5, 14, 0)));
    // A bare date is midnight, not a refusal.
    assert_eq!(rfc2822("5 Aug 2025"), Some(at(2025, 8, 5, 0, 0)));
    assert_eq!(rfc2822("last thursday"), None);
}

#[test]
fn parses_atom_dates() {
    assert_eq!(iso8601("2025-08-05T10:00:00Z"), Some(at(2025, 8, 5, 10, 0)));
    assert_eq!(iso8601("2025-08-05T10:30:00.500+02:30"), Some(at(2025, 8, 5, 8, 0)));
    assert_eq!(iso8601("2025-08-05"), Some(at(2025, 8, 5, 0, 0)));
    assert_eq!(iso8601("whenever"), None);
}

/// Taking the zone off can move the date, the month and the year, and a
/// file name that got this wrong is wrong for good — it is what the episode
/// is called from then on, and what the next run looks for to decide it is
/// already here.
#[test]
fn zones_roll_the_calendar_over() {
    assert_eq!(rfc2822("Wed, 31 Dec 2025 23:30:00 -0100"), Some(at(2026, 1, 1, 0, 30)));
    assert_eq!(rfc2822("Thu, 1 Jan 2026 00:30:00 +0100"), Some(at(2025, 12, 31, 23, 30)));
    // A leap day, backwards over the year boundary it only has every four.
    assert_eq!(iso8601("2024-03-01T00:15:00+01:00"), Some(at(2024, 2, 29, 23, 15)));
}

#[test]
fn stamps_are_ddmmyy_hhmm() {
    assert_eq!(at(2025, 8, 5, 10, 0).stamp(), "050825-1000");
    assert_eq!(at(2026, 12, 31, 23, 59).stamp(), "311226-2359");
    // Midnight is 0000, not blank: every stamp is the same width.
    assert_eq!(at(2025, 1, 1, 0, 0).stamp(), "010125-0000");
}

#[test]
fn stamps_log_lines_in_utc() {
    assert_eq!(utc_stamp(0, 0), "1970-01-01 00:00:00.000Z");
    assert_eq!(utc_stamp(1_000_000_000, 500), "2001-09-09 01:46:40.500Z");
}

#[test]
fn strips_markup_from_descriptions() {
    assert_eq!(
        strip_html("<p>First.</p><p>Second &amp; last.</p>"),
        "First. Second & last."
    );
    assert_eq!(strip_html("a<br/>b"), "a b");
    assert_eq!(strip_html("  plain  text \n here "), "plain text here");
}

/// A `<` in prose is not a tag, and reading it as one would drop everything
/// after it — the rest of the episode's notes, gone from the file's tags with
/// nothing to say it had been there.
#[test]
fn a_less_than_sign_in_prose_keeps_the_prose() {
    assert_eq!(strip_html("Is 3 < 5? Yes, and so is 2."), "Is 3 < 5? Yes, and so is 2.");
    assert_eq!(strip_html("a < b and <b>c</b>"), "a < b and c");
    // Markup that never closes takes the rest with it; there is nothing
    // outside the tag left to keep.
    assert_eq!(strip_html("kept <b broken"), "kept");
}

#[test]
fn formats_bytes() {
    assert_eq!(human_bytes(512), "512 B");
    assert_eq!(human_bytes(1536), "1.5 KB");
}

#[test]
fn formats_durations_coarsely() {
    assert_eq!(human_duration(Some(0)), "no time at all");
    assert_eq!(human_duration(Some(12)), "less than a minute");
    assert_eq!(human_duration(Some(61)), "1 minute");
    assert_eq!(human_duration(Some(1500)), "25 minutes");
    // 90 minutes is where it starts counting in hours.
    assert_eq!(human_duration(Some(5400)), "1 hour 30 minutes");
    assert_eq!(human_duration(Some(7200)), "2 hours");
    // A rate of zero produces an infinite estimate upstream; it must not
    // reach the user as "inf minutes".
    assert_eq!(human_duration(None), "no time at all");
}

#[test]
fn an_estimate_needs_a_real_rate_to_stand_on() {
    assert_eq!(
        transfer_seconds(1_000_000, Rate { bytes: 1_000_000, micros: 1_000_000 }),
        Some(Wait { seconds: 1, under_a_minute: true })
    );
    // A wait too short to round to a second is still a wait.
    assert_eq!(
        transfer_seconds(1, Rate { bytes: 1_000_000, micros: 1_000_000 }),
        Some(Wait { seconds: 1, under_a_minute: true })
    );
    assert_eq!(
        transfer_seconds(0, Rate { bytes: 1_000_000, micros: 1_000_000 }),
        Some(Wait { seconds: 0, under_a_minute: true })
    );
    assert_eq!(
        transfer_seconds(1_000_000, Rate { bytes: 2, micros: 1_000_001 }),
        Some(Wait { seconds: 500_001, under_a_minute: false })
    );
    assert_eq!(transfer_seconds(1_000_000, Rate { bytes: 0, micros: 1_000_000 }), None);
    assert_eq!(transfer_seconds(1_000_000, Rate { bytes: 1, micros: 0 }), None);
}

#[test]
fn formats_rates() {
    assert_eq!(human_rate(5 * 1024 * 1024 / 2), "2.5 MB/s");
}

/// Sizes are shown as a float rounded to a tenth would be, at every size.
#[test]
fn sizes_are_rounded_as_floats_are() {
    fn shown(bytes: u64) -> String {
        const UNITS: [&str; 5] = ["B", "KB", "MB", "GB", "TB"];
        let mut value = bytes as f64;
        let mut unit = 0;
        while value >= 1024.0 && unit < UNITS.len() - 1 {
            value /= 1024.0;
            unit += 1;
        }
        if unit == 0 {
            format!("{bytes} B")
        } else {
            format!("{value:.1} {}", UNITS[unit])
        }
    }
    let mut cases: Vec<u64> = (0..3000).collect();
    for shift in 0..64 {
        let n = 1u64 << shift;
        for d in 0..40 {
            cases.push(n.saturating_add(d * 7));
            cases.push(n.saturating_sub(d * 3));
        }
    }
    let mut n: u64 = 12345;
    for _ in 0..20_000 {
        n = n.wrapping_mul(6364136223846793005).wrapping_add(1442695040888963407);
        cases.push(n >> (n % 60));
    }
    for i in 0..5000 {
        cases.push(1024 * 1024 + i * 52429);
        cases.push(i * 512 + 1024 * 51);
    }
    cases.push(u64::MAX);
    for bytes in cases {
        assert_eq!(human_bytes(bytes), shown(bytes), "{bytes}");
    }
}

/// The character classes are the standard library's, for every character.
#[test]
fn characters_are_classed_as_usual() {
    for n in 0..=0x10FFFF {
        if let Some(c) = char::from_u32(n) {
            assert_eq!(is_white(c), c.is_whitespace(), "{c:?}");
            assert_eq!(is_control(c), c.is_control(), "{c:?}");
            assert_eq!(to_lower_char(c), c.to_ascii_lowercase(), "{c:?}");
        }
    }
}

#[test]
fn days_and_dates_undo_each_other() {
    assert_eq!(days_from_civil(1970, 1, 1), 0);
    assert_eq!(days_from_civil(2000, 3, 1), 11_017);
    assert_eq!(civil_from_days(-1), (1969, 12, 31));
    for days in -800_000..800_000 {
        let (y, m, d) = civil_from_days(days);
        assert_eq!(days_from_civil(y, m, d), days);
    }
}

/// The count goes through the calendar a day at a time.
#[test]
fn each_day_is_followed_by_the_next_date() {
    let length = |y: i32, m: u32| match m {
        2 if y % 4 == 0 && (y % 100 != 0 || y % 400 == 0) => 29,
        2 => 28,
        4 | 6 | 9 | 11 => 30,
        _ => 31,
    };
    for days in -800_000..800_000 {
        let (y, m, d) = civil_from_days(days);
        let next = if d < length(y, m) {
            (y, m, d + 1)
        } else if m < 12 {
            (y, m + 1, 1)
        } else {
            (y + 1, 1, 1)
        };
        assert_eq!(civil_from_days(days + 1), next);
    }
    assert_eq!(civil_from_days(days_from_civil(-10_000, 2, 29)), (-10_000, 2, 29));
    assert_eq!(civil_from_days(days_from_civil(10_000, 12, 31)), (10_000, 12, 31));
}

#[test]
fn one_instant_gets_one_name_whatever_the_zone() {
    let names: Vec<Option<String>> = [
        "Tue, 05 Aug 2025 10:00:00 GMT",
        "Tue, 05 Aug 2025 06:00:00 -0400",
        "Tue, 05 Aug 2025 15:30:00 +0530",
        "Tue, 05 Aug 2025 06:00:00 EDT",
    ]
    .iter()
    .map(|d| rfc2822(d).map(|p| p.stamp()))
    .collect();
    assert_eq!(names[0].as_deref(), Some("050825-1000"));
    assert_eq!(names[1], names[0]);
    assert_eq!(names[2], names[0]);
    assert_eq!(iso8601("2025-08-05T12:00:00+02:00").map(|p| p.stamp()), names[0]);
}

#[test]
fn only_web_addresses_are_fetched() {
    assert!(looks_like_http("https://x.test/f"));
    assert!(looks_like_http("HTTP://x.test/f"));
    assert!(!looks_like_http("itpc://x.test/f"));
    assert!(!looks_like_http("file:///etc/passwd"));
    assert!(!looks_like_http(""));
}

#[test]
fn media_is_known_by_its_extension() {
    for name in ["a.mp3", "b.M4A", "c.flac", "d.ogg", "e.opus"] {
        assert!(is_media(name), "{name}");
    }
    for name in ["notes.txt", "cover.jpg", "mp3", "a.mp3.part", ""] {
        assert!(!is_media(name), "{name}");
    }
}

#[test]
fn sanitized_names_never_hold_a_separator() {
    for name in ["a/b", "a\\b", "..", "../../x", "<>:\"/\\|?*", "tab\there", "CON"] {
        let out = sanitize(name);
        assert!(!out.is_empty());
        assert!(!out.contains(['/', '\\', ':', '*', '?', '"', '<', '>', '|']), "{out}");
        assert!(out.chars().count() <= 150);
    }
    assert_eq!(sanitize(".."), "untitled");
    // An extension does not stop a device's name from being one.
    assert_eq!(sanitize("nul.mp3"), "nul_.mp3");
    assert_eq!(sanitize("Con.tar.gz"), "Con_.tar.gz");
    // Neither dots nor spaces are left at either end, however they are mixed.
    assert_eq!(sanitize(". .a"), "a");
    assert_eq!(sanitize("a. ."), "a");
    assert_eq!(sanitize(". . ."), "untitled");
    let long = format!("con{}x", " .".repeat(100));
    assert_eq!(sanitize(&long), "con_");
    let dotted = format!("{}.{}", "a".repeat(149), "b".repeat(9));
    assert_eq!(sanitize(&dotted), "a".repeat(149));
}

#[test]
fn moments_move_across_days_and_years() {
    let p = at(2025, 8, 5, 10, 0);
    assert_eq!(p.shifted(0), p);
    assert_eq!(p.shifted(10_000_000), at(2044, 8, 9, 20, 40));
    assert_eq!(p.shifted(10_000_000).shifted(-10_000_000), p);
    assert_eq!(p.shifted(-600).shifted(-1), at(2025, 8, 4, 23, 59));
    assert!(p < p.shifted(1));
}

/// One instant, written from many zones and in both ways.
#[test]
fn a_moment_is_read_back_however_it_was_written() {
    const MONTHS: [&str; 12] =
        ["Jan", "Feb", "Mar", "Apr", "May", "Jun", "Jul", "Aug", "Sep", "Oct", "Nov", "Dec"];
    for u in [at(2024, 2, 29, 23, 59), at(1000, 1, 1, 0, 0), at(9000, 12, 31, 12, 30)] {
        for zone in (-1439i64..1440).step_by(47) {
            let l = u.shifted(zone);
            let sign = if zone < 0 { '-' } else { '+' };
            let (h, m) = (zone.abs() / 60, zone.abs() % 60);
            let atom = format!(
                "{:04}-{:02}-{:02}T{:02}:{:02}:07{sign}{h:02}:{m:02}",
                l.year, l.month, l.day, l.hour, l.minute
            );
            let rss = format!(
                "{} {} {:04} {:02}:{:02}:07 {sign}{h:02}{m:02}",
                l.day,
                MONTHS[l.month as usize - 1],
                l.year,
                l.hour,
                l.minute
            );
            assert_eq!(iso8601(&atom), Some(u), "{atom}");
            assert_eq!(rfc2822(&rss), Some(u), "{rss}");
        }
    }
}
