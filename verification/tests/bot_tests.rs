use iamtxt::bot::{
    accounts_to_sign_in, att_times, clean_stat, get_session, points_in_page, sign_in_form, RetryStep,
    Session,
};
use iamtxt::config::UserConf;
use iamtxt::day::Date;
use iamtxt::maps::{Config, StatusFile};
use iamtxt::status::StatusEntry;

fn conf(enable: bool, name: &str, retry: Option<u8>) -> UserConf {
    UserConf::new(enable, name.to_string(), format!("{}-pwd", name), retry)
}

fn session(name: &str, retry: Option<u8>) -> Session {
    Session::new(conf(true, name, retry))
}

fn day(y: i32, m: u8, d: u8) -> Date {
    Date::new(y, m, d).expect("a day that exists")
}

#[test]
fn session_keeps_its_account() {
    let s = get_session(conf(true, "alice", Some(2)));
    assert_eq!(s.userconf().name(), "alice");
    assert_eq!(s.userconf().pwd(), "alice-pwd");
    assert_eq!(s.userconf().retry_times(), 2);
}

#[test]
fn login_form_fields() {
    let form = session("alice", None).login_form();
    let expected: Vec<(String, String)> = vec![
        ("ecmsfrom".to_string(), "https://www.iamtxt.com/".to_string()),
        ("enews".to_string(), "login".to_string()),
        ("tobind".to_string(), "0".to_string()),
        ("username".to_string(), "alice".to_string()),
        ("password".to_string(), "alice-pwd".to_string()),
        ("lifetime".to_string(), "315360000".to_string()),
        ("Submit".to_string(), " 登 录 ".to_string()),
    ];
    assert_eq!(form, expected);
}

#[test]
fn signed_in_reply_is_recorded_as_success() {
    let s = session("alice", None);
    let mut status = StatusFile::new();
    assert_eq!(s.record_reply(&mut status, day(2024, 1, 5), "您已连签3天"), Ok(()));
    let e = status.get("alice").expect("recorded");
    assert_eq!(e.date(), "2024-01-05");
    assert!(e.success());
    assert_eq!(e.result(), "您已连签3天");
    assert_eq!(s.record_reply(&mut status, day(2024, 1, 6), "今天已经签到过了"), Ok(()));
    assert_eq!(status.get("alice").unwrap().date(), "2024-01-06");
    assert_eq!(status.len(), 1);
}

#[test]
fn signed_in_then_same_day_needs_nothing() {
    let s = session("alice", None);
    let mut status = StatusFile::new();
    assert!(s.userconf().need_att(&status, day(2024, 1, 5)));
    s.record_reply(&mut status, day(2024, 1, 5), "已连签").unwrap();
    assert!(!s.userconf().need_att(&status, day(2024, 1, 5)));
}

#[test]
fn not_logged_in_without_record_is_recorded_as_failure() {
    let s = session("alice", None);
    let mut status = StatusFile::new();
    assert_eq!(s.record_reply(&mut status, day(2024, 1, 5), "nolog"), Err(" 登陆失败!".to_string()));
    let e = status.get("alice").expect("recorded");
    assert!(!e.success());
    assert_eq!(e.date(), "2024-01-05");
    assert!(s.userconf().need_att(&status, day(2024, 1, 5)));
}

#[test]
fn not_logged_in_keeps_existing_record() {
    let s = session("alice", None);
    let mut status = StatusFile::new();
    status.insert("alice".to_string(), StatusEntry::new("2024-01-04".to_string(), true, "ok".to_string()));
    assert_eq!(s.record_reply(&mut status, day(2024, 1, 5), "err: nolog"), Ok(()));
    assert_eq!(status.get("alice").unwrap().date(), "2024-01-04");
    status.insert("alice".to_string(), StatusEntry::new("2024-01-04".to_string(), false, "no".to_string()));
    assert_eq!(s.record_reply(&mut status, day(2024, 1, 5), "nolog"), Err("登陆失败!".to_string()));
    assert_eq!(status.get("alice").unwrap().date(), "2024-01-04");
    assert!(!status.get("alice").unwrap().success());
}

#[test]
fn unknown_reply_is_refused_and_not_recorded() {
    let s = session("alice", None);
    let mut status = StatusFile::new();
    assert_eq!(
        s.record_reply(&mut status, day(2024, 1, 5), "系统繁忙"),
        Err("未处理的情况: 系统繁忙".to_string())
    );
    assert!(status.is_empty());
}

#[test]
fn other_accounts_records_are_untouched() {
    let s = session("alice", None);
    let mut status = StatusFile::new();
    status.insert("bob".to_string(), StatusEntry::new("2024-01-01".to_string(), false, "x".to_string()));
    s.record_reply(&mut status, day(2024, 1, 5), "已连签").unwrap();
    assert_eq!(status.get("bob").unwrap().date(), "2024-01-01");
    assert!(!status.get("bob").unwrap().success());
}

#[test]
fn retries_until_limit_then_fails_with_last_error() {
    let s = session("alice", Some(3));
    let mut st = s.start_attempts();
    assert_eq!(st.attempts(), 0);
    assert!(matches!(s.after_attempt(&mut st, Err("e1".to_string())), RetryStep::TryAgain));
    assert!(matches!(s.after_attempt(&mut st, Err("e2".to_string())), RetryStep::TryAgain));
    match s.after_attempt(&mut st, Err("e3".to_string())) {
        RetryStep::Done(Err(m)) => assert_eq!(m, "alice签到失败, error: e3"),
        _ => panic!("run should have ended in failure"),
    }
    assert_eq!(st.attempts(), 3);
    assert_eq!(st.last_error(), "e3");
}

#[test]
fn retry_stops_at_first_success() {
    let s = session("alice", Some(3));
    let mut st = s.start_attempts();
    assert!(matches!(s.after_attempt(&mut st, Err("e1".to_string())), RetryStep::TryAgain));
    assert!(matches!(s.after_attempt(&mut st, Ok(())), RetryStep::Done(Ok(()))));
    assert_eq!(st.attempts(), 2);
}

#[test]
fn zero_retry_setting_means_one_attempt() {
    let s = session("bob", Some(0));
    let mut st = s.start_attempts();
    match s.after_attempt(&mut st, Err("boom".to_string())) {
        RetryStep::Done(Err(m)) => assert_eq!(m, "bob签到失败, error: boom"),
        _ => panic!("a single attempt is allowed"),
    }
}

#[test]
fn points_are_read_from_marked_line() {
    let html = "<html>\n<li>等级: 3</li>\n   积分：1520点 [\n<li>其他 99点 [兑换]</li>\n</html>";
    assert_eq!(points_in_page(html), Some("1520".to_string()));
    assert_eq!(session("alice", None).get_info(html), Ok("1520点 alice".to_string()));
}

#[test]
fn marked_line_without_digits_is_skipped() {
    let html = "积分：点 [\n  余额 42点 [点 [  \n";
    assert_eq!(points_in_page(html), Some("42".to_string()));
}

#[test]
fn mark_inside_line_still_counts() {
    let html = "x\n<b>88点 [详情]</b>";
    assert_eq!(points_in_page(html), Some("88".to_string()));
}

#[test]
fn no_points_gives_error() {
    let html = "<html>\n<p>登录后查看</p>\n</html>";
    assert_eq!(points_in_page(html), None);
    assert_eq!(
        session("alice", None).get_info(html),
        Err("无法找到 alice 的积分信息".to_string())
    );
    assert_eq!(points_in_page(""), None);
}

#[test]
fn points_reply_formats_found_points() {
    let s = session("carol", None);
    assert_eq!(s.points_reply(Some("7".to_string())), Ok("7点 carol".to_string()));
    assert_eq!(s.points_reply(None), Err("无法找到 carol 的积分信息".to_string()));
}

fn sample_config() -> Config {
    let mut c = Config::new();
    c.insert("first".to_string(), conf(true, "alice", None));
    c.insert("second".to_string(), conf(false, "bob", None));
    c.insert("third".to_string(), conf(true, "carol", Some(2)));
    c
}

#[test]
fn clean_drops_unconfigured_records() {
    let mut status = StatusFile::new();
    for n in ["alice", "bob", "dave", "first"] {
        status.insert(n.to_string(), StatusEntry::new("2024-01-01".to_string(), true, "r".to_string()));
    }
    clean_stat(&mut status, sample_config());
    let mut keys: Vec<&String> = status.keys().collect();
    keys.sort();
    assert_eq!(keys, vec!["alice", "bob"]);
    clean_stat(&mut status, sample_config());
    assert_eq!(status.len(), 2);
    assert_eq!(status.get("alice").unwrap().date(), "2024-01-01");
}

#[test]
fn clean_with_empty_config_empties_status() {
    let mut status = StatusFile::new();
    status.insert("alice".to_string(), StatusEntry::new("d".to_string(), true, "r".to_string()));
    clean_stat(&mut status, Config::new());
    assert!(status.is_empty());
}

#[test]
fn picks_enabled_accounts_that_need_sign_in() {
    let mut status = StatusFile::new();
    status.insert("carol".to_string(), StatusEntry::new("2024-01-05".to_string(), true, "r".to_string()));
    let picked = accounts_to_sign_in(sample_config(), &status, day(2024, 1, 5));
    let names: Vec<&str> = picked.iter().map(|(_, u)| u.name()).collect();
    assert_eq!(names, vec!["alice"]);
    assert_eq!(picked[0].0, "first");
    let later = day(2024, 1, 6);
    let mut picked = accounts_to_sign_in(sample_config(), &status, later);
    picked.sort_by(|a, b| a.0.cmp(&b.0));
    let ids: Vec<&str> = picked.iter().map(|(k, _)| k.as_str()).collect();
    assert_eq!(ids, vec!["first", "third"]);
}

#[test]
fn multi_attempt_sign_in_is_not_offered() {
    assert_eq!(
        att_times(&sample_config(), &StatusFile::new()),
        Err("unimplemented!".to_string())
    );
}

#[test]
fn sign_in_form_fields() {
    assert_eq!(sign_in_form(), vec![("userid".to_string(), "0".to_string())]);
}

#[test]
fn failure_message_names_account_and_error() {
    assert_eq!(session("dave", None).failure_message("timeout"), "dave签到失败, error: timeout");
}

#[test]
fn fresh_status_file_is_empty() {
    assert!(iamtxt::status::empty_status().is_empty());
}
