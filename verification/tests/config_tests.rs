use iamtxt::config::{default_config, to_time_conf, to_time_stat, TimeParseError, UserConf};
use iamtxt::day::{Date, TimeOfDay};
use iamtxt::maps::StatusFile;
use iamtxt::status::StatusEntry;

fn conf(enable: bool, name: &str, retry: Option<u8>) -> UserConf {
    UserConf::new(enable, name.to_string(), "secret".to_string(), retry)
}

fn record(date: &str, success: bool) -> StatusEntry {
    StatusEntry::new(date.to_string(), success, "reply".to_string())
}

fn day(y: i32, m: u8, d: u8) -> Date {
    Date::new(y, m, d).expect("a day that exists")
}

#[test]
fn getters_return_fields() {
    let u = conf(true, "alice", Some(4));
    assert_eq!(u.name(), "alice");
    assert_eq!(u.pwd(), "secret");
    assert!(u.enable());
    assert_eq!(u.retry_setting(), Some(4));
}

#[test]
fn retry_times_defaults_to_one() {
    assert_eq!(conf(true, "a", None).retry_times(), 1);
    assert_eq!(conf(true, "a", Some(0)).retry_times(), 1);
    assert_eq!(conf(true, "a", Some(1)).retry_times(), 1);
    assert_eq!(conf(true, "a", Some(7)).retry_times(), 7);
    assert_eq!(conf(true, "a", Some(255)).retry_times(), 255);
}

#[test]
fn default_user_conf_is_disabled_sample() {
    let u = UserConf::default();
    assert!(!u.enable());
    assert_eq!(u.name(), "myname");
    assert_eq!(u.pwd(), "mypwd");
    assert_eq!(u.retry_setting(), None);
    assert_eq!(u.retry_times(), 1);
}

#[test]
fn default_config_holds_one_sample_account() {
    let c = default_config();
    assert_eq!(c.len(), 1);
    let u = c.get("mynote").expect("sample account");
    assert_eq!(u.name(), "myname");
    assert!(!u.enable());
}

#[test]
fn disabled_account_never_needs_sign_in() {
    let mut status = StatusFile::new();
    assert!(!conf(false, "alice", None).need_att(&status, day(2024, 1, 5)));
    status.insert("alice".to_string(), record("2023-12-31", false));
    assert!(!conf(false, "alice", None).need_att(&status, day(2024, 1, 5)));
}

#[test]
fn enabled_account_without_record_needs_sign_in() {
    let status = StatusFile::new();
    assert!(conf(true, "alice", None).need_att(&status, day(2024, 1, 5)));
}

#[test]
fn failed_record_needs_sign_in_even_today() {
    let mut status = StatusFile::new();
    status.insert("alice".to_string(), record("2024-01-05", false));
    assert!(conf(true, "alice", None).need_att(&status, day(2024, 1, 5)));
}

#[test]
fn success_today_needs_no_sign_in() {
    let mut status = StatusFile::new();
    status.insert("alice".to_string(), record("2024-01-05", true));
    assert!(!conf(true, "alice", None).need_att(&status, day(2024, 1, 5)));
}

#[test]
fn success_on_another_day_needs_sign_in() {
    let mut status = StatusFile::new();
    status.insert("alice".to_string(), record("2024-01-04", true));
    assert!(conf(true, "alice", None).need_att(&status, day(2024, 1, 5)));
    let next_year = day(2025, 1, 5);
    status.insert("alice".to_string(), record("2024-01-05", true));
    assert!(conf(true, "alice", None).need_att(&status, next_year));
}

#[test]
fn unreadable_record_day_needs_sign_in() {
    let mut status = StatusFile::new();
    status.insert("alice".to_string(), record("yesterday", true));
    assert!(conf(true, "alice", None).need_att(&status, day(2024, 1, 5)));
}

#[test]
fn record_of_other_account_is_ignored() {
    let mut status = StatusFile::new();
    status.insert("bob".to_string(), record("2024-01-05", true));
    assert!(conf(true, "alice", None).need_att(&status, day(2024, 1, 5)));
}

#[test]
fn clock_time_parses() {
    assert_eq!(
        to_time_conf("12:30:05"),
        Ok(TimeOfDay { hour: 12, minute: 30, second: 5, nanosecond: 0 })
    );
    assert_eq!(
        to_time_conf("00:00:00"),
        Ok(TimeOfDay { hour: 0, minute: 0, second: 0, nanosecond: 0 })
    );
}

#[test]
fn bad_clock_time_is_refused() {
    assert_eq!(to_time_conf("25:00:00"), Err(TimeParseError));
    assert_eq!(to_time_conf("noon"), Err(TimeParseError));
    assert_eq!(to_time_conf(""), Err(TimeParseError));
}

#[test]
fn day_text_reads_as_no_time_of_day() {
    assert_eq!(to_time_stat("2024-01-05"), Err(TimeParseError));
    assert_eq!(to_time_stat("12:30:05"), Err(TimeParseError));
    assert_eq!(to_time_stat(""), Err(TimeParseError));
}

#[test]
fn clock_time_edges() {
    assert_eq!(
        to_time_conf("23:59:59"),
        Ok(TimeOfDay { hour: 23, minute: 59, second: 59, nanosecond: 0 })
    );
    assert_eq!(to_time_conf("24:00:00"), Err(TimeParseError));
    assert_eq!(to_time_conf("12:60:00"), Err(TimeParseError));
    assert_eq!(to_time_conf("12:00:60"), Err(TimeParseError));
    assert_eq!(to_time_conf("12:30"), Err(TimeParseError));
    assert_eq!(to_time_conf("1:30:00"), Err(TimeParseError));
    assert_eq!(to_time_conf("12:30:05 "), Err(TimeParseError));
    assert_eq!(to_time_conf("１２:30:05"), Err(TimeParseError));
}

#[test]
fn only_existing_days_are_dates() {
    assert!(Date::new(2024, 2, 29).is_some());
    assert!(Date::new(2000, 2, 29).is_some());
    assert!(Date::new(2023, 2, 29).is_none());
    assert!(Date::new(1900, 2, 29).is_none());
    assert!(Date::new(2024, 4, 31).is_none());
    assert!(Date::new(2024, 13, 1).is_none());
    assert!(Date::new(2024, 0, 1).is_none());
    assert!(Date::new(2024, 1, 0).is_none());
    assert!(Date::new(10000, 1, 1).is_none());
    assert!(Date::new(-9999, 1, 1).is_some());
    let d = day(2024, 12, 31);
    assert_eq!((d.year(), d.month(), d.day()), (2024, 12, 31));
}

#[test]
fn day_text_is_zero_padded() {
    assert_eq!(day(2024, 1, 5).day_text(), "2024-01-05");
    assert_eq!(day(987, 12, 31).day_text(), "0987-12-31");
    assert_eq!(day(0, 3, 4).day_text(), "0000-03-04");
    assert_eq!(day(-1, 3, 4).day_text(), "-0001-03-04");
}

#[test]
fn recorded_day_text_reads_back_as_the_day() {
    for d in [day(2024, 2, 29), day(2000, 2, 29), day(987, 12, 31), day(-44, 3, 15), day(9999, 12, 31)] {
        let mut status = StatusFile::new();
        status.insert("alice".to_string(), StatusEntry::new(d.day_text(), true, "r".to_string()));
        assert!(!conf(true, "alice", None).need_att(&status, d));
    }
}
