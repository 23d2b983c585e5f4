use chrono::{DateTime, Duration, Utc};
use cookbook::date_time::{
    almost_three_weeks_from, checked_add_seconds, date_line, day_earlier, era_line, is_known,
    seconds_line, time_line, UtcTime, DAY, MAX_DELTA, MAX_SECS, MIN_SECS, WEEK,
};

fn at(secs: i64, nanos: u32) -> UtcTime {
    UtcTime { secs, nanos }
}

fn theirs(time: UtcTime) -> Option<DateTime<Utc>> {
    DateTime::from_timestamp(time.secs, time.nanos)
}

#[test]
fn a_day_earlier() {
    let noon = at(1_510_507_224, 5);
    assert_eq!(day_earlier(noon), Some(at(1_510_507_224 - 86_400, 5)));
    let expected = theirs(noon).unwrap().checked_sub_signed(Duration::days(1)).unwrap();
    let ours = day_earlier(noon).unwrap();
    assert_eq!(theirs(ours), Some(expected));
}

#[test]
fn twenty_days_on() {
    let now = at(1_000_000_000, 123_456_789);
    let later = almost_three_weeks_from(now).unwrap();
    assert_eq!(later, at(1_000_000_000 + 20 * 86_400, 123_456_789));
    let expected = theirs(now)
        .unwrap()
        .checked_add_signed(Duration::weeks(2))
        .and_then(|t| t.checked_add_signed(Duration::weeks(1)))
        .and_then(|t| t.checked_sub_signed(Duration::days(1)));
    assert_eq!(theirs(later), expected);
}

#[test]
fn the_calendar_has_two_ends() {
    let last = DateTime::<Utc>::MAX_UTC.timestamp();
    let first = DateTime::<Utc>::MIN_UTC.timestamp();
    assert_eq!(first, MIN_SECS);
    assert_eq!(last, MAX_SECS);
    assert!(is_known(at(last, 0)));
    assert!(!is_known(at(last + 1, 0)));
    assert!(is_known(at(first, 0)));
    assert!(!is_known(at(first - 1, 0)));
    assert!(!is_known(at(0, 2_000_000_000)));
    assert!(!is_known(at(0, 1_000_000_000)));
    assert!(is_known(at(59, 1_000_000_000)));
    assert!(is_known(at(-1, 1_999_999_999)));
    assert!(!is_known(at(-1, 2_000_000_000)));
    assert!(is_known(at(last, 1_999_999_999)));
    assert!(is_known(at(0, 0)));
    assert!(!is_known(at(i64::MAX, 0)));
    assert!(!is_known(at(i64::MIN, 0)));

    assert_eq!(checked_add_seconds(at(last - 10, 7), 10), Some(at(last, 7)));
    assert_eq!(checked_add_seconds(at(last - 10, 7), 11), None);
    assert_eq!(checked_add_seconds(at(first + 10, 0), -10), Some(at(first, 0)));
    assert_eq!(checked_add_seconds(at(first + 10, 0), -11), None);
    assert_eq!(checked_add_seconds(at(last + 1, 0), -5), None);
    assert_eq!(checked_add_seconds(at(0, 0), MAX_DELTA), None);
    assert_eq!(checked_add_seconds(at(0, 0), MAX_DELTA + 1), None);
    assert_eq!(checked_add_seconds(at(0, 0), i64::MIN), None);
    assert_eq!(checked_add_seconds(at(i64::MAX, 0), 1), None);

    assert_eq!(day_earlier(at(first + DAY - 1, 0)), None);
    assert_eq!(day_earlier(at(first + DAY, 0)), Some(at(first, 0)));
    // Three weeks are out of reach although twenty days are not.
    assert_eq!(almost_three_weeks_from(at(last - 3 * WEEK + 1, 0)), None);
    assert_eq!(
        almost_three_weeks_from(at(last - 3 * WEEK, 0)),
        Some(at(last - DAY, 0))
    );
}

#[test]
fn moves_out_of_a_leap_second() {
    let leap = at(1_483_228_799, 1_250_000_000);
    assert!(is_known(leap));
    assert_eq!(checked_add_seconds(leap, 0), Some(leap));
    assert_eq!(checked_add_seconds(leap, 1), Some(at(1_483_228_800, 250_000_000)));
    assert_eq!(checked_add_seconds(leap, -1), Some(at(1_483_228_799, 250_000_000)));
    assert_eq!(day_earlier(leap), Some(at(1_483_228_800 - DAY, 250_000_000)));
    assert_eq!(
        almost_three_weeks_from(leap),
        Some(at(1_483_228_799 + 20 * DAY, 250_000_000))
    );
    let end = at(MAX_SECS, 1_500_000_000);
    assert_eq!(checked_add_seconds(end, 0), Some(end));
    assert_eq!(checked_add_seconds(end, 1), None);
    assert_eq!(checked_add_seconds(end, -1), Some(at(MAX_SECS, 500_000_000)));
    assert_eq!(checked_add_seconds(end, -2), Some(at(MAX_SECS - 1, 500_000_000)));
}

#[test]
fn shifts_agree_with_the_calendar() {
    let starts = [
        0i64,
        -1,
        1,
        59,
        86_399,
        951_782_400,
        1_483_228_799,
        1_700_000_000,
        -62_135_596_800,
        253_402_300_799,
        MIN_SECS,
        MIN_SECS + 59,
        MAX_SECS,
        MAX_SECS - 60,
        MAX_SECS + 1,
    ];
    let shifts = [
        0i64,
        1,
        -1,
        59,
        60,
        -60,
        86_400,
        -86_400,
        31_536_000,
        -1_000_000_007,
        MAX_DELTA,
        -MAX_DELTA,
        MAX_DELTA + 1,
        -MAX_DELTA - 1,
        i64::MAX,
        i64::MIN,
    ];
    let fractions = [0u32, 1, 999_999_999, 1_000_000_000, 1_500_000_000, 1_999_999_999, 2_000_000_000];
    for secs in starts {
        for nanos in fractions {
            assert_eq!(is_known(at(secs, nanos)), theirs(at(secs, nanos)).is_some());
            for shift in shifts {
                let expected = theirs(at(secs, nanos))
                    .and_then(|t| match chrono::TimeDelta::try_seconds(shift) {
                        Some(delta) => t.checked_add_signed(delta),
                        None => None,
                    })
                    .map(|t| at(t.timestamp(), t.timestamp_subsec_nanos()));
                assert_eq!(
                    checked_add_seconds(at(secs, nanos), shift),
                    expected,
                    "{} s {} ns moved by {}",
                    secs,
                    nanos,
                    shift
                );
            }
        }
    }
}

#[test]
fn lines_of_date_and_time() {
    assert_eq!(time_line(true, 3, 4, 5), "The current UTC time is 03:04:05 PM");
    assert_eq!(time_line(false, 12, 0, 59), "The current UTC time is 12:00:59 AM");
    assert_eq!(time_line(false, 123, 0, 9), format!("The current UTC time is {:02}:{:02}:{:02} AM", 123, 0, 9));
    assert_eq!(seconds_line(0), "And there have been 0 seconds since midnight");
    assert_eq!(seconds_line(86399), "And there have been 86399 seconds since midnight");
    assert_eq!(
        date_line(true, 2017, 11, 2, "Thu"),
        "The current UTC date is 2017-11-02 Thu (CE)"
    );
    assert_eq!(
        date_line(false, 44, 3, 15, "Wed"),
        "The current UTC date is 44-03-15 Wed (BCE)"
    );
    assert_eq!(era_line(736640), "And the Common Era began 736640 days ago");
    assert_eq!(era_line(-5), "And the Common Era began -5 days ago");
    assert_eq!(era_line(0), "And the Common Era began 0 days ago");
    assert_eq!(era_line(i32::MIN), format!("And the Common Era began {} days ago", i32::MIN));
}
