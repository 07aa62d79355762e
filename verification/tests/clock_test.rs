use chrono::{Datelike, FixedOffset, NaiveDate, TimeZone, Timelike};
use solaredge_mqtt::clock::{timestamp_text, LocalTime};
use solaredge_mqtt::digits::{int_text, nat_text};

fn fields(dt: &chrono::DateTime<FixedOffset>) -> LocalTime {
    LocalTime {
        year: dt.year(),
        month: dt.month(),
        day: dt.day(),
        hour: dt.hour(),
        minute: dt.minute(),
        second: dt.second(),
        nanosecond: dt.nanosecond(),
        utc_offset: dt.offset().local_minus_utc(),
    }
}

fn chrono_text(dt: &chrono::DateTime<FixedOffset>) -> String {
    dt.format("%Y-%m-%dT%H:%M:%S%z").to_string()
}

#[test]
fn timestamp_of_the_documented_example() {
    let t = LocalTime {
        year: 2026,
        month: 12,
        day: 3,
        hour: 11,
        minute: 30,
        second: 0,
        nanosecond: 0,
        utc_offset: 3600,
    };
    assert_eq!(timestamp_text(&t), "2026-12-03T11:30:00+0100");
}

#[test]
fn timestamp_matches_chrono_formatting() {
    let cases: [(i32, u32, u32, u32, u32, u32, u32, i32); 10] = [
        (2026, 12, 3, 11, 30, 0, 0, 3600),
        (1999, 1, 9, 0, 5, 7, 123, 0),
        (2024, 6, 30, 23, 59, 59, 999_999_999, -19800),
        (2016, 12, 31, 23, 59, 59, 1_500_000_000, 0),
        (999, 2, 28, 1, 2, 3, 0, 3629),
        (7, 3, 4, 5, 6, 7, 0, 3630),
        (12345, 7, 8, 9, 10, 11, 0, -86399),
        (-5, 10, 11, 12, 13, 14, 0, 86399),
        (0, 1, 1, 0, 0, 0, 0, -29),
        (2000, 2, 29, 12, 0, 0, 0, -30),
    ];
    for (y, mo, d, h, mi, s, ns, off) in cases {
        let tz = FixedOffset::east_opt(off).unwrap();
        let naive = NaiveDate::from_ymd_opt(y, mo, d)
            .unwrap()
            .and_hms_nano_opt(h, mi, s, ns)
            .unwrap();
        let dt = tz.from_local_datetime(&naive).unwrap();
        assert_eq!(timestamp_text(&fields(&dt)), chrono_text(&dt), "{dt:?}");
    }
}

#[test]
fn integers_in_decimal() {
    assert_eq!(nat_text(0), "0");
    assert_eq!(nat_text(10), "10");
    assert_eq!(nat_text(u64::MAX), u64::MAX.to_string());
    assert_eq!(int_text(-42), "-42");
    assert_eq!(int_text(i64::MIN), i64::MIN.to_string());
    assert_eq!(int_text(i64::MAX), i64::MAX.to_string());
}
