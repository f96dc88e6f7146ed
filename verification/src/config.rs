use vstd::prelude::*;
use vstd::string::StringExecFns;

use crate::maps::{config_entries, config_insert, config_new, status_entries, status_get, Config, StatusFile};
use crate::day::{
    clock_time, day_format, day_text, is_valid_day, lemma_day_text_injective, lemma_view_injective, parse_date,
    parse_time, parsed_date, Date, TimeOfDay,
};
use crate::status::StatusEntryView;

verus! {

/// A text that does not read as a time in the expected format.
#[derive(Clone, Copy, Debug, PartialEq, Eq, Structural)]
pub struct TimeParseError;

/// Reads a time of day written as `hour:minute:second` (see
/// [`clock_time`]).
pub fn to_time_conf(con: &str) -> (r: Result<TimeOfDay, TimeParseError>)
    ensures
        r == (match clock_time(con@) {
            Some(t) => Ok(t),
            None => Err(TimeParseError),
        }),
{
    match parse_time(con, "[hour]:[minute]:[second]") {
        Some(t) => Ok(t),
        None => Err(TimeParseError),
    }
}

/// Reads a time of day under the day format `[year]-[month]-[day]` that
/// status records use; since that format holds no hour, nothing reads as a
/// time of day under it.
pub fn to_time_stat(con: &str) -> (r: Result<TimeOfDay, TimeParseError>)
    ensures
        r == Err::<TimeOfDay, TimeParseError>(TimeParseError),
{
    match parse_time(con, "[year]-[month]-[day]") {
        Some(t) => Ok(t),
        None => Err(TimeParseError),
    }
}

/// Whether the record `e` says that the account was signed in on `today`:
/// a success whose day is the text of `today`.
pub open spec fn done_on(e: StatusEntryView, today: Date) -> bool {
    e.success && is_valid_day(today@) && e.date == day_text(today@)
}

/// Whether an account with settings `conf`, whose latest record is `record`,
/// is to be signed in on `today`: only enabled accounts are, and of those
/// the ones with no record, with a failed record, with a record whose day
/// does not read as a day, or with a record of another day. A success
/// recorded with the text of `today` is today's: the day format reads that
/// text back as `today` (stated by the trusted `parse_date`).
pub open spec fn needs_sign_in(conf: UserConfView, record: Option<StatusEntryView>, today: Date) -> bool {
    conf.enable && match record {
        None => true,
        Some(e) => !e.success || (!done_on(e, today) && match parsed_date(e.date, day_format()) {
            None => true,
            Some(d) => d != today,
        }),
    }
}

/// For an enabled account whose latest record is a success on a day `d`
/// (its day text reads back as `d`), sign-in is needed exactly when `d` is
/// not `today` as a whole date: in particular whenever the two differ in
/// year, in month or in day of the month. This holds when the record is
/// written as the text of `d` (as [`crate::bot::Session::record_reply`]
/// writes it), and for any record text other than that of `today`.
pub proof fn lemma_success_counts_only_on_its_day(conf: UserConfView, e: StatusEntryView, d: Date, today: Date)
    requires
        conf.enable,
        e.success,
        is_valid_day(d@),
        is_valid_day(today@),
        parsed_date(e.date, day_format()) == Some(d),
    ensures
        e.date == day_text(d@) ==> (needs_sign_in(conf, Some(e), today) <==> d@ != today@),
        e.date != day_text(today@) ==> (needs_sign_in(conf, Some(e), today) <==> d@ != today@),
        (e.date == day_text(d@) || e.date != day_text(today@)) && (d@.year != today@.year || d@.month
            != today@.month || d@.day != today@.day) ==> needs_sign_in(conf, Some(e), today),
{
    if d@ == today@ {
        lemma_view_injective(d, today);
    }
    if e.date == day_text(d@) && e.date == day_text(today@) {
        lemma_day_text_injective(d, today);
    }
}

/// The settings of one account, as written in the configuration file.
pub struct UserConf {
    enable: bool,
    name: String,
    pwd: String,
    retry_times: Option<u8>,
}

/// The mathematical value of a [`UserConf`].
pub struct UserConfView {
    pub enable: bool,
    pub name: Seq<char>,
    pub pwd: Seq<char>,
    pub retry_times: Option<u8>,
}

/// Number of attempts that a setting of `retry_times` stands for:
/// an absent setting and `0` both mean a single attempt.
pub open spec fn attempts_for(setting: Option<u8>) -> u8 {
    match setting {
        None => 1,
        Some(n) => if n == 0 { 1 } else { n },
    }
}

impl View for UserConf {
    type V = UserConfView;

    closed spec fn view(&self) -> UserConfView {
        UserConfView {
            enable: self.enable,
            name: self.name@,
            pwd: self.pwd@,
            retry_times: self.retry_times,
        }
    }
}

impl UserConf {
    /// Builds the settings of one account from its four fields.
    pub fn new(enable: bool, name: String, pwd: String, retry_times: Option<u8>) -> (r: UserConf)
        ensures
            r@ == (UserConfView { enable, name: name@, pwd: pwd@, retry_times }),
    {
        UserConf { enable, name, pwd, retry_times }
    }

    /// Login name of the account.
    pub fn name(&self) -> (r: &str)
        ensures
            r@ == self@.name,
    {
        self.name.as_str()
    }

    /// Password of the account.
    pub fn pwd(&self) -> (r: &str)
        ensures
            r@ == self@.pwd,
    {
        self.pwd.as_str()
    }

    /// The raw `retry_times` setting, as written in the configuration.
    pub fn retry_setting(&self) -> (r: Option<u8>)
        ensures
            r == self@.retry_times,
    {
        self.retry_times
    }

    /// Number of sign-in attempts: `0` or no setting at all mean one attempt.
    pub fn retry_times(&self) -> (r: u8)
        ensures
            r == attempts_for(self@.retry_times),
            r >= 1,
    {
        match self.retry_times {
            None => 1,
            Some(0) => 1,
            Some(n) => n,
        }
    }

    /// Whether the account takes part in sign-in.
    pub fn enable(&self) -> (r: bool)
        ensures
            r == self@.enable,
    {
        self.enable
    }

    /// Whether this account is to be signed in on `today`, given the status
    /// file `stat`.
    pub fn need_att(&self, stat: &StatusFile, today: Date) -> (r: bool)
        ensures
            r == needs_sign_in(self@, status_entries(*stat).get(self@.name), today),
    {
        let record = status_get(stat, self.name());
        match record {
            None => self.enable(),
            Some(e) => {
                if !self.enable() {
                    false
                } else if !e.success() {
                    true
                } else {
                    proof {
                        use_type_invariant(&today);
                    }
                    let parsed = parse_date(e.date(), "[year]-[month]-[day]");
                    assert(day_text(today@) == e@.date && is_valid_day(today@) ==> parsed == Some(today));
                    match parsed {
                        None => true,
                        Some(d) => today != d,
                    }
                }
            },
        }
    }
}

/// The settings written into a fresh configuration file.
pub open spec fn default_conf_view() -> UserConfView {
    UserConfView { enable: false, name: "myname"@, pwd: "mypwd"@, retry_times: None }
}

impl Default for UserConf {
    /// A disabled account named `myname` with password `mypwd` and no retry
    /// setting.
    fn default() -> (r: UserConf)
        ensures
            r@ == default_conf_view(),
    {
        UserConf {
            enable: false,
            name: String::from_str("myname"),
            pwd: String::from_str("mypwd"),
            retry_times: None,
        }
    }
}

/// The content of a fresh configuration file: one disabled sample account
/// under the identifier `mynote`.
pub open spec fn default_config_view() -> Map<Seq<char>, UserConfView> {
    Map::empty().insert("mynote"@, default_conf_view())
}

/// Builds the configuration written when none exists yet.
pub fn default_config() -> (r: Config)
    ensures
        config_entries(r) == default_config_view(),
{
    let mut config = config_new();
    let user = UserConf::default();
    config_insert(&mut config, String::from_str("mynote"), user);
    assert(config_entries(config) =~= default_config_view());
    config
}

} // verus!
