//! Dates and times, and the characters that lines are made of.
use chrono::{DateTime, Duration, Local, Utc};
use locdo::clock::{
    fmt_stamp, is_sooner, month_heading, rotation_cutoff, show_moment, stamp_moment, stamp_now,
    Moment, DAY, FIRST_SECOND, KEPT_DAYS, LAST_SECOND,
};
use locdo::rotate::month_due;
use locdo::task::{section_kind, SectionKind};
use locdo::text::{eq_ignore_case, is_before, space, to_decimal, trimmed};

#[test]
fn the_calendar_is_that_of_the_clock() {
    assert_eq!(DateTime::<Utc>::MIN_UTC.timestamp(), FIRST_SECOND);
    assert_eq!(DateTime::<Utc>::MAX_UTC.timestamp(), LAST_SECOND);
}

#[test]
fn a_stamp_is_read_as_a_moment() {
    let at = Moment { secs: 1_788_100_320, nanos: 0 };
    assert_eq!(stamp_moment("2026-08-30 14:32"), Some(at));
    assert_eq!(stamp_moment("2026-08-30"), None);
    assert_eq!(stamp_moment("2026-13-30 14:32"), None);
    assert_eq!(stamp_moment(""), None);
}

#[test]
fn a_stamp_is_shown_shorter() {
    assert_eq!(fmt_stamp("2026-08-30 14:32"), "Aug 30, 14:32");
    assert_eq!(fmt_stamp("2026-08-03 04:05"), "Aug 3, 04:05");
    assert_eq!(fmt_stamp("yesterday"), "yesterday");
    let at = Moment { secs: 0, nanos: 0 };
    assert_eq!(show_moment(Some(at), "x"), "Jan 1, 00:00");
    assert_eq!(show_moment(None, "x"), "x");
}

#[test]
fn a_month_has_a_heading() {
    let at = Moment { secs: 1_788_100_320, nanos: 5 };
    assert_eq!(month_heading(at), "## 2026-08");
    // Years beyond four digits, and before the first, are written with a sign.
    assert_eq!(month_heading(Moment { secs: LAST_SECOND, nanos: 0 }), "## +262142-12");
    assert_eq!(month_heading(Moment { secs: FIRST_SECOND, nanos: 0 }), "## -262143-01");
}

#[test]
fn a_task_is_due_before_the_cutoff() {
    let cutoff = Moment { secs: 1_788_100_320, nanos: 7 };
    let just = Moment { secs: 1_788_100_320, nanos: 6 };
    assert!(is_sooner(just, cutoff));
    assert!(!is_sooner(cutoff, cutoff));
    assert_eq!(month_due(Some(just), cutoff), Some("## 2026-08".to_string()));
    assert_eq!(month_due(Some(cutoff), cutoff), None);
    assert_eq!(month_due(None, cutoff), None);
}

#[test]
fn the_present_time_in_a_stamp() {
    let then = Local::now().naive_local().and_utc().timestamp();
    let stamp = stamp_now();
    let now = Local::now().naive_local().and_utc().timestamp();
    assert_eq!(stamp.len(), 16);
    let at = stamp_moment(&stamp).unwrap();
    assert!(then - 60 < at.secs && at.secs <= now);
    assert_eq!(at.secs % 60, 0);
}

#[test]
fn the_cutoff_lies_a_week_back() {
    let then = Local::now().naive_local() - Duration::days(KEPT_DAYS);
    let cutoff = rotation_cutoff();
    let now = Local::now().naive_local() - Duration::days(KEPT_DAYS);
    assert!(then.and_utc().timestamp() <= cutoff.secs);
    assert!(cutoff.secs <= now.and_utc().timestamp());
    assert_eq!(DAY * KEPT_DAYS, 604_800);
}

#[test]
fn blanks_are_those_of_unicode() {
    for c in '\0'..=char::MAX {
        assert_eq!(space(c), c.is_whitespace(), "{c:?}");
    }
}

#[test]
fn only_ascii_letters_fold_to_the_special_names() {
    for c in '\u{80}'..=char::MAX {
        assert!(
            !c.to_lowercase().any(|d| "laterdone".contains(d)),
            "{c:?}"
        );
    }
    assert_eq!(section_kind("LaTeR"), SectionKind::Later);
    assert!(eq_ignore_case("Größe", "gRöße"));
    assert!(!eq_ignore_case("Ö", "ö"));
}

#[test]
fn texts_are_ordered_by_code_points() {
    for (a, b) in [("## 2025-12", "## 2026-01"), ("a", "b"), ("a", "ab"), ("", "a"), ("z", "é")] {
        assert!(is_before(a, b) && a < b);
        assert!(!is_before(b, a));
        assert!(!is_before(a, a));
    }
}

#[test]
fn numbers_and_trimming() {
    for n in [0, 7, 10, 99, 100, 12345, usize::MAX] {
        assert_eq!(to_decimal(n), format!("{n}"));
    }
    assert_eq!(trimmed(" \u{a0}a b\t\r\n"), "a b");
    assert_eq!(trimmed(" \t"), "");
}

#[test]
fn a_written_stamp_is_read_as_its_minute() {
    for (secs, nanos) in [
        (0, 0),
        (59, 1_999_999_999),
        (-1, 999_999_999),
        (1_788_100_379, 5),
        (-62_167_219_201, 0),
        (-62_167_219_200, 0),
        (253_402_300_799, 0),
        (253_402_300_800, 0),
        (FIRST_SECOND, 0),
        (LAST_SECOND, 999_999_999),
    ] {
        let at = DateTime::from_timestamp(secs, nanos).unwrap().naive_utc();
        let text = at.format("%Y-%m-%d %H:%M").to_string();
        assert!(text.chars().all(|c| c.is_ascii_digit() || "-+ :".contains(c)), "{text}");
        let minute = Moment { secs: secs - secs.rem_euclid(60), nanos: 0 };
        assert_eq!(stamp_moment(&text), Some(minute), "{text}");
    }
}
