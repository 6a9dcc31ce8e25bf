use chrono::{Datelike, Duration, Local, TimeZone};
use reing::utils::{recognizable_datetime, RecognizableDateTime};

fn local(ts: i64) -> chrono::DateTime<Local> {
    Local.timestamp_opt(ts, 0).single().unwrap()
}

#[test]
fn test_recognizable_datetime() {
    let now = Local::now().timestamp();

    assert_eq!(RecognizableDateTime::of(now, now), Some(RecognizableDateTime::Now));
    assert_eq!(
        RecognizableDateTime::of(now - Duration::seconds(10).num_seconds(), now),
        Some(RecognizableDateTime::SecondsAgo(10))
    );
    assert_eq!(
        RecognizableDateTime::of(now - Duration::minutes(10).num_seconds(), now),
        Some(RecognizableDateTime::MinutesAgo(10))
    );
    assert_eq!(
        RecognizableDateTime::of(now - Duration::hours(10).num_seconds(), now),
        Some(RecognizableDateTime::HoursAgo(10))
    );
    assert_eq!(
        RecognizableDateTime::of(now - Duration::days(3).num_seconds(), now),
        Some(RecognizableDateTime::DaysAgo(3)),
    );
    let ten_days_ago = now - Duration::days(10).num_seconds();
    let d = local(ten_days_ago);
    assert_eq!(
        RecognizableDateTime::of(ten_days_ago, now),
        Some(RecognizableDateTime::MonthDay(d.month() as i64, d.day() as i64)),
    );
    let one_year_ago = now - Duration::days(365).num_seconds();
    let d = local(one_year_ago);
    assert_eq!(
        RecognizableDateTime::of(one_year_ago, now),
        Some(RecognizableDateTime::YearMonthDay(d.year() as i64, d.month() as i64, d.day() as i64)),
    );
}

#[test]
fn elapsed_time_thresholds() {
    assert_eq!(RecognizableDateTime::of_elapsed(0, 2020, 1, 2), RecognizableDateTime::Now);
    assert_eq!(RecognizableDateTime::of_elapsed(-5, 2020, 1, 2), RecognizableDateTime::Now);
    assert_eq!(RecognizableDateTime::of_elapsed(59, 2020, 1, 2), RecognizableDateTime::SecondsAgo(59));
    assert_eq!(RecognizableDateTime::of_elapsed(60, 2020, 1, 2), RecognizableDateTime::MinutesAgo(1));
    assert_eq!(RecognizableDateTime::of_elapsed(3599, 2020, 1, 2), RecognizableDateTime::MinutesAgo(59));
    assert_eq!(RecognizableDateTime::of_elapsed(3600, 2020, 1, 2), RecognizableDateTime::HoursAgo(1));
    assert_eq!(RecognizableDateTime::of_elapsed(86400, 2020, 1, 2), RecognizableDateTime::DaysAgo(1));
    assert_eq!(RecognizableDateTime::of_elapsed(7 * 86400 - 1, 2020, 1, 2), RecognizableDateTime::DaysAgo(6));
    assert_eq!(RecognizableDateTime::of_elapsed(7 * 86400, 2020, 1, 2), RecognizableDateTime::MonthDay(1, 2));
    assert_eq!(
        RecognizableDateTime::of_elapsed(330 * 86400, 2020, 1, 2),
        RecognizableDateTime::YearMonthDay(2020, 1, 2)
    );
}

#[test]
fn descriptions_as_shown() {
    assert_eq!(RecognizableDateTime::Now.string(), "今");
    assert_eq!(RecognizableDateTime::SecondsAgo(10).string(), "10秒前");
    assert_eq!(RecognizableDateTime::MinutesAgo(5).string(), "5分前");
    assert_eq!(RecognizableDateTime::HoursAgo(23).string(), "23時間前");
    assert_eq!(RecognizableDateTime::DaysAgo(3).string(), "3日前");
    assert_eq!(RecognizableDateTime::MonthDay(3, 5).string(), "03/05");
    assert_eq!(RecognizableDateTime::MonthDay(12, 31).string(), "12/31");
    assert_eq!(RecognizableDateTime::YearMonthDay(2019, 1, 2).string(), "2019/01/02");
    assert_eq!(RecognizableDateTime::YearMonthDay(7, 1, 2).string(), "0007/01/02");
    assert_eq!(RecognizableDateTime::SecondsAgo(-3).string(), format!("{}秒前", -3));
    assert_eq!(RecognizableDateTime::YearMonthDay(-5, 1, 2).string(), format!("{:04}/01/02", -5));
}

#[test]
fn recognizable_datetime_of_now_is_now() {
    let now = Local::now().timestamp();
    let shown = recognizable_datetime(now + 5).unwrap();
    assert_eq!(shown, "今");
}

#[test]
fn timestamps_beyond_chrono_are_not_dated() {
    assert_eq!(RecognizableDateTime::of(i64::MAX, 0), None);
    assert!(RecognizableDateTime::of(8_000_000_000_000, 0).is_some());
    assert!(RecognizableDateTime::of(-8_000_000_000_000, 0).is_some());
}
