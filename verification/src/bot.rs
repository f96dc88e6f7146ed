use vstd::prelude::*;
use vstd::string::{StrSliceExecFns, StringExecFns};

use crate::config::{attempts_for, needs_sign_in, UserConf, UserConfView};
use crate::day::{day_text, is_ascii_digit, is_valid_day, Date};
use crate::maps::{
    config_entries, config_into_entries, name_set_contains, name_set_entries, name_set_from,
    status_entries, status_get, status_insert, status_keys, status_remove, string_views, Config,
    StatusFile,
};
use crate::status::{StatusEntry, StatusEntryView};
use crate::text::{
    ascii_digit_run, ascii_non_digits, lemma_split_single_line, lemma_trim_end_nothing,
    lemma_trim_start_concat, lemma_trim_start_suffix, trim_start, chars_of, contains_str,
    has_substring, occurs_at, occurs_in, pieces, split_lines, split_lines_ranges, trim,
    trim_end_matches, trim_end_matches_range, trim_range,
};

verus! {

/// The first piece of `haystack` that the regular expression `pattern`
/// matches, as the `regex` crate finds it (`None` as well when `pattern`
/// is not a valid expression).
pub uninterp spec fn regex_first_match(pattern: Seq<char>, haystack: Seq<char>) -> Option<Seq<char>>;

/// `pre`, then `run`, then `post`.
pub open spec fn three_pieces(pre: Seq<char>, run: Seq<char>, post: Seq<char>) -> Seq<char> {
    pre + run + post
}

/// `regex::Regex::new`, then `Regex::captures` and `Captures::get(0)`: the
/// text of the leftmost-first match of `pattern` in `haystack`. What is
/// matched is named, not described in general. Stated are the crate's
/// promise that the match is a piece of the haystack, and what `\d+`
/// (one or more Unicode decimal digits, as many as possible) finds in a
/// haystack made of ASCII characters other than digits, then a run of ASCII
/// digits, then nothing or an ASCII character other than a digit: that run.
#[verifier::external_body]
fn regex_find(pattern: &str, haystack: &str) -> (r: Option<String>)
    ensures
        match r {
            Some(m) => regex_first_match(pattern@, haystack@) == Some(m@) && has_substring(haystack@, m@),
            None => regex_first_match(pattern@, haystack@) is None,
        },
        forall|pre: Seq<char>, run: Seq<char>, post: Seq<char>|
            pattern@ == digits_pattern() && #[trigger] three_pieces(pre, run, post) == haystack@
                && ascii_non_digits(pre) && ascii_digit_run(run) && (post.len() == 0 || ascii_non_digits(post.subrange(0, 1))) ==> (r is Some
                && r->0@ == run),
{
    let re = regex::Regex::new(pattern).ok()?;
    let caps = re.captures(haystack)?;
    let m = caps.get(0)?;
    Some(m.as_str().to_string())
}

/// The text that marks the line of the member page holding the points.
pub open spec fn points_mark() -> Seq<char> {
    "点 ["@
}

/// The expression for a run of digits.
pub open spec fn digits_pattern() -> Seq<char> {
    "\\d+"@
}

/// The points found on the first line that, once trimmed, holds the points
/// mark and, with the marks at its end removed, holds a run of digits.
pub open spec fn points_in_lines(lines: Seq<Seq<char>>) -> Option<Seq<char>>
    decreases lines.len(),
{
    if lines.len() == 0 {
        None
    } else {
        let line = trim(lines[0]);
        let found = if has_substring(line, points_mark()) {
            regex_first_match(digits_pattern(), trim_end_matches(line, points_mark()))
        } else {
            None
        };
        match found {
            Some(d) => Some(d),
            None => points_in_lines(lines.drop_first()),
        }
    }
}

/// A one-line member page: `pre`, the points `run`, then the points mark.
pub open spec fn marked_points_line(pre: Seq<char>, run: Seq<char>) -> Seq<char> {
    pre + run + points_mark()
}

/// `t` is one line made of ASCII characters other than digits, then a run
/// of ASCII digits, then the points mark.
pub open spec fn one_marked_line(t: Seq<char>) -> bool {
    exists|pre: Seq<char>, run: Seq<char>|
        #[trigger] marked_points_line(pre, run) == t && ascii_non_digits(pre) && (forall|i: int|
            0 <= i < pre.len() ==> pre[i] != '\n') && ascii_digit_run(run)
}

/// A line made of ASCII characters other than digits and line feeds, then a
/// run of ASCII digits, then the points mark, is read as one line holding
/// the mark; trimmed and without its trailing marks it is the trimmed start
/// followed by the digits, and that start has no digits.
proof fn lemma_marked_line(pre: Seq<char>, run: Seq<char>)
    requires
        ascii_non_digits(pre),
        forall|i: int| 0 <= i < pre.len() ==> pre[i] != '\n',
        ascii_digit_run(run),
    ensures
        split_lines(marked_points_line(pre, run)) == seq![marked_points_line(pre, run)],
        has_substring(trim(marked_points_line(pre, run)), points_mark()),
        trim_end_matches(trim(marked_points_line(pre, run)), points_mark()) == trim_start(pre) + run,
        ascii_non_digits(trim_start(pre)),
{
    reveal_strlit("点 [");
    let mark = points_mark();
    let t = marked_points_line(pre, run);
    assert forall|i: int| 0 <= i < t.len() implies t[i] != '\n' by {
        if i < pre.len() {
            assert(t[i] == pre[i]);
        } else if i < pre.len() + run.len() {
            assert(t[i] == run[i - pre.len()]);
            assert(is_ascii_digit(run[i - pre.len()]));
        } else {
            assert(t[i] == mark[i - pre.len() - run.len()]);
        }
    }
    lemma_split_single_line(t);
    let x = run + mark;
    assert(t =~= pre + x);
    assert(x[0] == run[0]);
    assert(is_ascii_digit(run[0]));
    lemma_trim_start_concat(pre, x);
    let y = trim_start(pre) + run;
    assert(trim_start(pre) + x =~= y + mark);
    assert((y + mark).last() == '[');
    lemma_trim_end_nothing(y + mark);
    assert(trim(t) == y + mark);
    assert((y + mark).subrange(y.len() as int, y.len() as int + 3) =~= mark);
    assert(occurs_at(y + mark, mark, y.len() as int));
    assert((y + mark).subrange((y + mark).len() - 3, (y + mark).len() as int) =~= mark);
    assert((y + mark).subrange(0, (y + mark).len() - 3) =~= y);
    assert(y.last() == run.last());
    assert(is_ascii_digit(run[run.len() - 1]));
    if y.len() >= 3 {
        assert(y.subrange(y.len() - 3, y.len() as int)[2] == y.last());
    }
    assert(trim_end_matches(y, mark) == y);
    lemma_trim_start_suffix(pre);
    assert forall|i: int| 0 <= i < trim_start(pre).len() implies (trim_start(pre)[i] as int) < 128
        && !is_ascii_digit(#[trigger] trim_start(pre)[i]) by {
        assert(trim_start(pre)[i] == pre[i + (pre.len() - trim_start(pre).len())]);
    }
}

/// What `\\d+` finds on the marked line of a one-line page of ASCII text,
/// a run of ASCII digits and the points mark, given what the regular
/// expression finds in a haystack of that shape: the digits.
proof fn lemma_points_found(html: Seq<char>, hay: Seq<char>, found: Option<String>)
    requires
        one_marked_line(html),
        hay == trim_end_matches(trim(html), points_mark()),
        forall|pre: Seq<char>, run: Seq<char>, post: Seq<char>|
            digits_pattern() == digits_pattern() && #[trigger] three_pieces(pre, run, post) == hay && ascii_non_digits(pre)
                && ascii_digit_run(run) && (post.len() == 0 || ascii_non_digits(post.subrange(0, 1))) ==> (found is Some && found->0@ == run),
    ensures
        forall|pre: Seq<char>, run: Seq<char>|
            #[trigger] marked_points_line(pre, run) == html && ascii_non_digits(pre) && (forall|i: int|
                0 <= i < pre.len() ==> pre[i] != '\n') && ascii_digit_run(run) ==> (found is Some && found->0@ == run),
{
    assert forall|pre: Seq<char>, run: Seq<char>|
        #[trigger] marked_points_line(pre, run) == html && ascii_non_digits(pre) && (forall|i: int|
            0 <= i < pre.len() ==> pre[i] != '\n') && ascii_digit_run(run) implies (found is Some && found->0@ == run) by {
        lemma_marked_line(pre, run);
        let post = Seq::<char>::empty();
        assert(hay == trim_start(pre) + run);
        assert(three_pieces(trim_start(pre), run, post) =~= trim_start(pre) + run);
    }
}

/// The points shown on a member page, read line by line. A page that is a
/// single line of ASCII text without digits, then a run of ASCII digits,
/// then the points mark, shows exactly those digits.
#[verifier::rlimit(40)]
pub fn points_in_page(html: &str) -> (r: Option<String>)
    ensures
        match r {
            Some(d) => points_in_lines(split_lines(html@)) == Some(d@),
            None => points_in_lines(split_lines(html@)) is None,
        },
        forall|pre: Seq<char>, run: Seq<char>|
            #[trigger] marked_points_line(pre, run) == html@ && ascii_non_digits(pre) && (forall|i: int|
                0 <= i < pre.len() ==> pre[i] != '\n') && ascii_digit_run(run) ==> (r is Some && r->0@ == run),
{
    let ghost premise = one_marked_line(html@);
    let s = chars_of(html);
    let mark = chars_of("点 [");
    let ranges = split_lines_ranges(&s);
    let ghost lines = split_lines(html@);
    proof {
        if premise {
            let (pre, run) = choose|pre: Seq<char>, run: Seq<char>|
                #[trigger] marked_points_line(pre, run) == html@ && ascii_non_digits(pre) && (forall|i: int|
                    0 <= i < pre.len() ==> pre[i] != '\n') && ascii_digit_run(run);
            lemma_marked_line(pre, run);
            assert(ranges@.len() == 1);
        }
    }
    let mut i: usize = 0;
    assert(lines.skip(0) =~= lines);
    while i < ranges.len()
        invariant
            s@ == html@,
            mark@ == points_mark(),
            lines == split_lines(html@),
            pieces(s@, ranges@) == lines,
            forall|k: int| 0 <= k < ranges@.len() ==> #[trigger] ranges@[k].0 <= ranges@[k].1 <= s@.len(),
            i <= ranges@.len(),
            points_in_lines(lines) == points_in_lines(lines.skip(i as int)),
            premise == one_marked_line(html@),
            premise ==> i == 0 && lines == seq![html@] && ranges@.len() == 1,
        decreases ranges.len() - i,
    {
        let (lo, hi) = ranges[i];
        let ghost rest = lines.skip(i as int);
        assert(rest[0] == s@.subrange(lo as int, hi as int));
        assert(rest.drop_first() =~= lines.skip(i + 1));
        let (a, b) = trim_range(&s, lo, hi);
        proof {
            if premise {
                let (pre, run) = choose|pre: Seq<char>, run: Seq<char>|
                    #[trigger] marked_points_line(pre, run) == html@ && ascii_non_digits(pre) && (forall|i: int|
                        0 <= i < pre.len() ==> pre[i] != '\n') && ascii_digit_run(run);
                lemma_marked_line(pre, run);
            }
        }
        if occurs_in(&s, a, b, &mark) {
            let c = trim_end_matches_range(&s, a, b, &mark);
            let line = html.substring_char(a, c);
            let found = regex_find("\\d+", line);
            proof {
                if premise {
                    let (pre, run) = choose|pre: Seq<char>, run: Seq<char>|
                        #[trigger] marked_points_line(pre, run) == html@ && ascii_non_digits(pre) && (forall|i: int|
                            0 <= i < pre.len() ==> pre[i] != '\n') && ascii_digit_run(run);
                    assert(rest[0] == html@);
                    assert(line@ == trim_end_matches(trim(html@), points_mark()));
                    lemma_points_found(html@, line@, found);
                }
            }
            if found.is_some() {
                return found;
            }
        }
        i = i + 1;
    }
    None
}

/// One account's sign-in session: the account settings that every request
/// is made for.
pub struct Session {
    userconf: UserConf,
}

impl View for Session {
    type V = UserConfView;

    closed spec fn view(&self) -> UserConfView {
        self.userconf@
    }
}

/// Opens a session for the account `userconf`.
pub fn get_session(userconf: UserConf) -> (r: Session)
    ensures
        r@ == userconf@,
{
    Session::new(userconf)
}

/// The form fields of a login request for an account.
pub open spec fn login_form_view(conf: UserConfView) -> Seq<(Seq<char>, Seq<char>)> {
    seq![
        ("ecmsfrom"@, "https://www.iamtxt.com/"@),
        ("enews"@, "login"@),
        ("tobind"@, "0"@),
        ("username"@, conf.name),
        ("password"@, conf.pwd),
        ("lifetime"@, "315360000"@),
        ("Submit"@, " 登 录 "@),
    ]
}

/// The views of a list of form fields.
pub open spec fn field_views(v: Seq<(String, String)>) -> Seq<(Seq<char>, Seq<char>)> {
    v.map_values(|f: (String, String)| (f.0@, f.1@))
}

/// The form fields that the sign-in request posts.
pub fn sign_in_form() -> (r: Vec<(String, String)>)
    ensures
        field_views(r@) == seq![("userid"@, "0"@)],
{
    let mut v: Vec<(String, String)> = Vec::new();
    v.push((String::from_str("userid"), String::from_str("0")));
    assert(field_views(v@) =~= seq![("userid"@, "0"@)]);
    v
}

/// The reply text by which the site says that today's sign-in is done.
pub open spec fn reply_signed_in(text: Seq<char>) -> bool {
    has_substring(text, "已连签"@) || has_substring(text, "今天已经"@)
}

/// The reply text by which the site says that the session is not logged in.
pub open spec fn reply_not_logged_in(text: Seq<char>) -> bool {
    has_substring(text, "nolog"@)
}

impl Session {
    /// Opens a session for the account `userconf`.
    pub fn new(userconf: UserConf) -> (r: Session)
        ensures
            r@ == userconf@,
    {
        Session { userconf }
    }

    /// The account settings of this session.
    pub fn userconf(&self) -> (r: &UserConf)
        ensures
            r@ == self@,
    {
        &self.userconf
    }

    /// The form fields that the login request posts.
    pub fn login_form(&self) -> (r: Vec<(String, String)>)
        ensures
            field_views(r@) == login_form_view(self@),
    {
        let mut v: Vec<(String, String)> = Vec::new();
        v.push((String::from_str("ecmsfrom"), String::from_str("https://www.iamtxt.com/")));
        v.push((String::from_str("enews"), String::from_str("login")));
        v.push((String::from_str("tobind"), String::from_str("0")));
        v.push((String::from_str("username"), String::from_str(self.userconf.name())));
        v.push((String::from_str("password"), String::from_str(self.userconf.pwd())));
        v.push((String::from_str("lifetime"), String::from_str("315360000")));
        v.push((String::from_str("Submit"), String::from_str(" 登 录 ")));
        assert(field_views(v@) =~= login_form_view(self@));
        v
    }

    /// Records the reply `text` of the sign-in request made on `today` in
    /// `status` (the day written as [`Date::day_text`] gives it), and says
    /// whether the sign-in went through.
    ///
    /// A reply that reports today's sign-in records a success. A reply that
    /// reports a missing login is accepted when the account's record already
    /// says success, refused when it says failure, and recorded as a failure
    /// when there is no record. Any other reply is refused and recorded
    /// nowhere.
    pub fn record_reply(&self, status: &mut StatusFile, today: Date, text: &str) -> (r: Result<(), String>)
        ensures
            reply_signed_in(text@) ==> {
                &&& r is Ok
                &&& status_entries(*final(status)) == status_entries(*old(status)).insert(
                    self@.name,
                    StatusEntryView { date: day_text(today@), success: true, result: text@ },
                )
            },
            !reply_signed_in(text@) && reply_not_logged_in(text@) ==> {
                let old_entries = status_entries(*old(status));
                if old_entries.contains_key(self@.name) {
                    &&& status_entries(*final(status)) == old_entries
                    &&& (old_entries[self@.name].success ==> r is Ok)
                    &&& (!old_entries[self@.name].success ==> (r matches Err(e) && e@ == "登陆失败!"@))
                } else {
                    &&& status_entries(*final(status)) == old_entries.insert(
                        self@.name,
                        StatusEntryView { date: day_text(today@), success: false, result: text@ },
                    )
                    &&& r matches Err(e) && e@ == " 登陆失败!"@
                }
            },
            !reply_signed_in(text@) && !reply_not_logged_in(text@) ==> {
                &&& status_entries(*final(status)) == status_entries(*old(status))
                &&& r matches Err(e) && e@ == "未处理的情况: "@ + text@
            },
    {
        if contains_str(text, "已连签") || contains_str(text, "今天已经") {
            let entry = StatusEntry::new(today.day_text(), true, String::from_str(text));
            status_insert(status, String::from_str(self.userconf.name()), entry);
            Ok(())
        } else if contains_str(text, "nolog") {
            let old_success = match status_get(status, self.userconf.name()) {
                Some(e) => Some(e.success()),
                None => None,
            };
            match old_success {
                Some(true) => Ok(()),
                Some(false) => Err(String::from_str("登陆失败!")),
                None => {
                    let entry = StatusEntry::new(today.day_text(), false, String::from_str(text));
                    status_insert(status, String::from_str(self.userconf.name()), entry);
                    Err(String::from_str(" 登陆失败!"))
                },
            }
        } else {
            Err(String::from_str("未处理的情况: ").concat(text))
        }
    }

    /// The state of a run of sign-in attempts before the first attempt.
    pub fn start_attempts(&self) -> (r: RetryState)
        ensures
            r@ == (RetryStateView { attempts: 0, last_error: Seq::empty() }),
    {
        RetryState { attempts: 0, last_error: String::new() }
    }

    /// Takes in the outcome of one sign-in attempt and says whether to stop,
    /// with which answer, or to try again.
    pub fn after_attempt(&self, state: &mut RetryState, outcome: Result<(), String>) -> (r: RetryStep)
        requires
            old(state)@.attempts < attempts_for(self@.retry_times),
        ensures
            (final(state)@, r@) == attempt_step(self@, old(state)@, outcome_view(outcome)),
    {
        let limit = self.userconf.retry_times();
        state.attempts = state.attempts + 1;
        match outcome {
            Ok(_) => RetryStep::Done(Ok(())),
            Err(e) => {
                state.last_error = e.clone();
                if state.attempts < limit {
                    RetryStep::TryAgain
                } else {
                    RetryStep::Done(Err(self.failure_message(e.as_str())))
                }
            },
        }
    }

    /// The message that ends a run of sign-in attempts that all failed, the
    /// last with `last_error`.
    pub fn failure_message(&self, last_error: &str) -> (r: String)
        ensures
            r@ == retries_failed_message(self@.name, last_error@),
    {
        String::from_str(self.userconf.name()).concat("签到失败, error: ").concat(last_error)
    }

    /// The answer to a points query, given the points found on the member
    /// page: the points followed by `点 ` and the login name, or a message
    /// that none were found for this account.
    pub fn points_reply(&self, found: Option<String>) -> (r: Result<String, String>)
        ensures
            match found {
                Some(d) => r matches Ok(m) && m@ == d@ + "点 "@ + self@.name,
                None => r matches Err(e) && e@ == "无法找到 "@ + self@.name + " 的积分信息"@,
            },
    {
        match found {
            Some(d) => Ok(d.concat("点 ").concat(self.userconf.name())),
            None => Err(String::from_str("无法找到 ").concat(self.userconf.name()).concat(" 的积分信息")),
        }
    }

    /// The answer to a points query, read from the member page `html`.
    pub fn get_info(&self, html: &str) -> (r: Result<String, String>)
        ensures
            match points_in_lines(split_lines(html@)) {
                Some(d) => r matches Ok(m) && m@ == d + "点 "@ + self@.name,
                None => r matches Err(e) && e@ == "无法找到 "@ + self@.name + " 的积分信息"@,
            },
    {
        self.points_reply(points_in_page(html))
    }
}

/// Where a run of sign-in attempts stands: how many attempts were made and
/// the error of the latest failed one.
pub struct RetryState {
    attempts: u8,
    last_error: String,
}

/// The mathematical value of a [`RetryState`].
pub struct RetryStateView {
    pub attempts: nat,
    pub last_error: Seq<char>,
}

impl View for RetryState {
    type V = RetryStateView;

    closed spec fn view(&self) -> RetryStateView {
        RetryStateView { attempts: self.attempts as nat, last_error: self.last_error@ }
    }
}

impl RetryState {
    /// Number of attempts made so far.
    pub fn attempts(&self) -> (r: u8)
        ensures
            r == self@.attempts,
    {
        self.attempts
    }

    /// The error of the latest failed attempt (empty before any failure).
    pub fn last_error(&self) -> (r: &str)
        ensures
            r@ == self@.last_error,
    {
        self.last_error.as_str()
    }
}

/// What to do after an attempt: stop with an answer, or try again.
pub enum RetryStep {
    Done(Result<(), String>),
    TryAgain,
}

/// The mathematical value of a [`RetryStep`].
pub enum RetryStepView {
    Done(Result<(), Seq<char>>),
    TryAgain,
}

/// The view of an outcome whose error is a string.
pub open spec fn outcome_view(r: Result<(), String>) -> Result<(), Seq<char>> {
    match r {
        Ok(_) => Ok(()),
        Err(e) => Err(e@),
    }
}

impl View for RetryStep {
    type V = RetryStepView;

    open spec fn view(&self) -> RetryStepView {
        match self {
            RetryStep::Done(r) => RetryStepView::Done(outcome_view(*r)),
            RetryStep::TryAgain => RetryStepView::TryAgain,
        }
    }
}

/// The message that ends a run of attempts that all failed.
pub open spec fn retries_failed_message(name: Seq<char>, last_error: Seq<char>) -> Seq<char> {
    name + "签到失败, error: "@ + last_error
}

/// One step of a run of sign-in attempts for the account `conf`: a success
/// ends the run; a failure is remembered and ends the run once as many
/// attempts as the account allows were made.
pub open spec fn attempt_step(
    conf: UserConfView,
    s: RetryStateView,
    outcome: Result<(), Seq<char>>,
) -> (RetryStateView, RetryStepView) {
    let attempts = s.attempts + 1;
    match outcome {
        Ok(_) => (RetryStateView { attempts, last_error: s.last_error }, RetryStepView::Done(Ok(()))),
        Err(e) => (
            RetryStateView { attempts, last_error: e },
            if attempts < attempts_for(conf.retry_times) {
                RetryStepView::TryAgain
            } else {
                RetryStepView::Done(Err(retries_failed_message(conf.name, e)))
            },
        ),
    }
}

/// A run of attempts from state `s` whose successive outcomes are
/// `outcomes`: how many attempts it makes and its answer, or `None` when
/// the outcomes run out first.
pub open spec fn attempts_run(
    conf: UserConfView,
    s: RetryStateView,
    outcomes: Seq<Result<(), Seq<char>>>,
) -> Option<(nat, Result<(), Seq<char>>)>
    decreases outcomes.len(),
{
    if outcomes.len() == 0 {
        None
    } else {
        let (next, step) = attempt_step(conf, s, outcomes[0]);
        match step {
            RetryStepView::Done(r) => Some((1, r)),
            RetryStepView::TryAgain => match attempts_run(conf, next, outcomes.drop_first()) {
                Some((n, r)) => Some((n + 1, r)),
                None => None,
            },
        }
    }
}

/// A run from a state with fewer attempts than allowed, given outcomes for
/// every attempt still allowed, stops within those attempts: at the first
/// success, with success, or at the last allowed attempt, with the failure
/// message built from that attempt's error.
proof fn lemma_attempts_run_from(conf: UserConfView, s: RetryStateView, outcomes: Seq<Result<(), Seq<char>>>)
    requires
        s.attempts < attempts_for(conf.retry_times),
        outcomes.len() >= attempts_for(conf.retry_times) - s.attempts,
    ensures
        attempts_run(conf, s, outcomes) is Some,
        ({
            let (n, r) = attempts_run(conf, s, outcomes)->0;
            &&& 1 <= n <= attempts_for(conf.retry_times) - s.attempts
            &&& forall|j: int| 0 <= j < n - 1 ==> outcomes[j] is Err
            &&& outcomes[n - 1] is Ok ==> r == Ok::<(), Seq<char>>(())
            &&& outcomes[n - 1] matches Err(e) ==> n == attempts_for(conf.retry_times) - s.attempts
                && r == Err::<(), Seq<char>>(retries_failed_message(conf.name, e))
        }),
    decreases outcomes.len(),
{
    let (next, step) = attempt_step(conf, s, outcomes[0]);
    if let RetryStepView::TryAgain = step {
        lemma_attempts_run_from(conf, next, outcomes.drop_first());
        let (n, r) = attempts_run(conf, next, outcomes.drop_first())->0;
        assert forall|j: int| 0 <= j < n implies outcomes[j] is Err by {
            if j > 0 {
                assert(outcomes[j] == outcomes.drop_first()[j - 1]);
            }
        }
        assert(outcomes[n as int] == outcomes.drop_first()[n - 1]);
    }
}

/// Every run of sign-in attempts, from a fresh state, makes at least one
/// and at most `retry_times` attempts; it stops at the first success with
/// success, and otherwise fails after exactly `retry_times` attempts with
/// the error of the last one.
pub proof fn lemma_sign_in_attempts_bounded(conf: UserConfView, outcomes: Seq<Result<(), Seq<char>>>)
    requires
        outcomes.len() >= attempts_for(conf.retry_times),
    ensures
        ({
            let fresh = RetryStateView { attempts: 0, last_error: Seq::empty() };
            let (n, r) = attempts_run(conf, fresh, outcomes)->0;
            &&& attempts_run(conf, fresh, outcomes) is Some
            &&& 1 <= n <= attempts_for(conf.retry_times)
            &&& forall|j: int| 0 <= j < n - 1 ==> outcomes[j] is Err
            &&& outcomes[n - 1] is Ok ==> r == Ok::<(), Seq<char>>(())
            &&& outcomes[n - 1] matches Err(e) ==> n == attempts_for(conf.retry_times)
                && r == Err::<(), Seq<char>>(retries_failed_message(conf.name, e))
        }),
{
    let fresh = RetryStateView { attempts: 0, last_error: Seq::empty() };
    lemma_attempts_run_from(conf, fresh, outcomes);
}

/// The login names of the accounts in a configuration.
pub open spec fn configured_names(config: Map<Seq<char>, UserConfView>) -> Set<Seq<char>> {
    Set::new(|n: Seq<char>| exists|k: Seq<char>| config.contains_key(k) && #[trigger] config[k].name == n)
}

/// A status file without the records of accounts that the configuration no
/// longer lists; the other records are kept as they are.
pub open spec fn cleaned(
    status: Map<Seq<char>, StatusEntryView>,
    config: Map<Seq<char>, UserConfView>,
) -> Map<Seq<char>, StatusEntryView> {
    status.restrict(configured_names(config))
}

/// After cleaning, every remaining record belongs to a configured account,
/// and every configured account keeps its record unchanged.
pub proof fn lemma_clean_keeps_configured_only(
    status: Map<Seq<char>, StatusEntryView>,
    config: Map<Seq<char>, UserConfView>,
)
    ensures
        forall|k: Seq<char>| #[trigger] cleaned(status, config).contains_key(k) ==> configured_names(config).contains(k),
        forall|k: Seq<char>|
            status.contains_key(k) && configured_names(config).contains(k) ==> #[trigger] cleaned(status, config).contains_key(k)
                && cleaned(status, config)[k] == status[k],
{
}

/// Cleaning twice with the same configuration leaves what cleaning once
/// left.
pub proof fn lemma_clean_idempotent(status: Map<Seq<char>, StatusEntryView>, config: Map<Seq<char>, UserConfView>)
    ensures
        cleaned(cleaned(status, config), config) == cleaned(status, config),
{
    assert(cleaned(cleaned(status, config), config) =~= cleaned(status, config));
}

/// Cleaning keeps a record exactly when its key equals the login name of
/// some configured account, and then keeps it unchanged; every other record
/// is dropped.
pub proof fn lemma_clean_matches_names_exactly(
    status: Map<Seq<char>, StatusEntryView>,
    config: Map<Seq<char>, UserConfView>,
    k: Seq<char>,
)
    ensures
        cleaned(status, config).contains_key(k) <==> status.contains_key(k) && exists|id: Seq<char>|
            config.contains_key(id) && #[trigger] config[id].name == k,
        cleaned(status, config).contains_key(k) ==> cleaned(status, config)[k] == status[k],
{
}

/// Drops from `status` the records of accounts that `config` does not list.
#[verifier::spinoff_prover]
pub fn clean_stat(status: &mut StatusFile, config: Config)
    ensures
        status_entries(*final(status)) == cleaned(status_entries(*old(status)), config_entries(config)),
{
    let ghost c = config_entries(config);
    let ghost names_spec = configured_names(c);
    let entries = config_into_entries(config);
    let mut names: Vec<String> = Vec::new();
    let mut i: usize = 0;
    while i < entries.len()
        invariant
            c == config_entries(config),
            forall|j: int|
                0 <= j < entries@.len() ==> #[trigger] c.contains_key(entries@[j].0@) && c[entries@[j].0@]
                    == entries@[j].1@,
            forall|k: Seq<char>|
                #[trigger] c.contains_key(k) ==> exists|j: int| 0 <= j < entries@.len() && entries@[j].0@ == k,
            i <= entries@.len(),
            names@.len() == i,
            forall|j: int| 0 <= j < i ==> #[trigger] names@[j]@ == entries@[j].1@.name,
        decreases entries.len() - i,
    {
        names.push(String::from_str(entries[i].1.name()));
        i = i + 1;
    }
    let ghost name_views = string_views(names@);
    assert forall|x: Seq<char>| name_views.to_set().contains(x) <==> names_spec.contains(x) by {
        if name_views.to_set().contains(x) {
            let j = choose|j: int| 0 <= j < name_views.len() && name_views[j] == x;
            assert(name_views[j] == names@[j]@);
            let k = entries@[j].0@;
            assert(c.contains_key(k));
            assert(c[k].name == x);
        }
        if names_spec.contains(x) {
            let k = choose|k: Seq<char>| c.contains_key(k) && #[trigger] c[k].name == x;
            let j = choose|j: int| 0 <= j < entries@.len() && entries@[j].0@ == k;
            assert(name_views[j] == names@[j]@);
            assert(name_views.contains(x));
        }
    }
    let ids = name_set_from(names);
    assert(name_set_entries(ids) =~= names_spec);
    let ghost old_st = status_entries(*status);
    let keys = status_keys(status);
    let ghost key_views = string_views(keys@);
    let mut stale: Vec<String> = Vec::new();
    let mut j: usize = 0;
    while j < keys.len()
        invariant
            j <= keys@.len(),
            key_views == string_views(keys@),
            key_views.to_set() == old_st.dom(),
            name_set_entries(ids) == names_spec,
            forall|m: int| 0 <= m < stale@.len() ==> !names_spec.contains(#[trigger] stale@[m]@),
            forall|m: int|
                0 <= m < j && !names_spec.contains(#[trigger] key_views[m]) ==> exists|t: int|
                    0 <= t < stale@.len() && stale@[t]@ == key_views[m],
        decreases keys.len() - j,
    {
        assert(key_views[j as int] == keys@[j as int]@);
        let ghost old_stale = stale@;
        if !name_set_contains(&ids, keys[j].as_str()) {
            stale.push(keys[j].clone());
            assert(stale@[stale@.len() - 1]@ == key_views[j as int]);
        }
        assert forall|m: int|
            0 <= m < j + 1 && !names_spec.contains(#[trigger] key_views[m]) implies exists|t: int|
            0 <= t < stale@.len() && stale@[t]@ == key_views[m] by {
            if m == j {
                assert(stale@[stale@.len() - 1]@ == key_views[m]);
            } else {
                let t = choose|t: int| 0 <= t < old_stale.len() && old_stale[t]@ == key_views[m];
                assert(stale@[t] == old_stale[t]);
            }
        }
        j = j + 1;
    }
    let mut t: usize = 0;
    while t < stale.len()
        invariant
            t <= stale@.len(),
            forall|m: int| 0 <= m < stale@.len() ==> !names_spec.contains(#[trigger] stale@[m]@),
            forall|k: Seq<char>|
                #[trigger] status_entries(*status).contains_key(k) <==> old_st.contains_key(k) && !(
                exists|m: int| 0 <= m < t && stale@[m]@ == k),
            forall|k: Seq<char>|
                #[trigger] status_entries(*status).contains_key(k) ==> status_entries(*status)[k]
                    == old_st[k],
        decreases stale.len() - t,
    {
        status_remove(status, stale[t].as_str());
        t = t + 1;
    }
    assert forall|k: Seq<char>| old_st.contains_key(k) && !names_spec.contains(k) implies exists|
        m: int,
    | 0 <= m < stale@.len() && stale@[m]@ == k by {
        assert(key_views.to_set().contains(k));
        let m = choose|m: int| 0 <= m < key_views.len() && key_views[m] == k;
        assert(!names_spec.contains(key_views[m]));
    }
    assert(status_entries(*status) =~= cleaned(old_st, c));
}

/// Once a reply that reports today's sign-in is recorded for an account
/// (the record [`Session::record_reply`] writes, with the text of `today`),
/// the account is not to be signed in again that day; the records of the
/// other accounts stay as they were.
pub proof fn lemma_signed_in_today_is_done(
    status: Map<Seq<char>, StatusEntryView>,
    conf: UserConfView,
    today: Date,
    text: Seq<char>,
)
    requires
        is_valid_day(today@),
    ensures
        ({
            let after = status.insert(
                conf.name,
                StatusEntryView { date: day_text(today@), success: true, result: text },
            );
            &&& !needs_sign_in(conf, after.get(conf.name), today)
            &&& forall|k: Seq<char>| k != conf.name ==> #[trigger] after.get(k) == status.get(k)
        }),
{
    let after = status.insert(conf.name, StatusEntryView { date: day_text(today@), success: true, result: text });
    assert(after.get(conf.name) == Some(StatusEntryView { date: day_text(today@), success: true, result: text }));
}

/// An enabled account whose record says the latest sign-in failed is to be
/// signed in, whatever the day; a disabled account never is.
pub proof fn lemma_failed_or_disabled(conf: UserConfView, record: Option<StatusEntryView>, today: Date)
    ensures
        conf.enable && (record is None || !record->0.success) ==> needs_sign_in(conf, record, today),
        !conf.enable ==> !needs_sign_in(conf, record, today),
{
}

/// A reply counts as a success wherever in it `已连签` or `今天已经`
/// appears, and as a missing login wherever `nolog` appears, whatever text
/// surrounds the phrase.
pub proof fn lemma_reply_phrases_anywhere(before: Seq<char>, after: Seq<char>)
    ensures
        reply_signed_in(before + "已连签"@ + after),
        reply_signed_in(before + "今天已经"@ + after),
        reply_not_logged_in(before + "nolog"@ + after),
{
    lemma_occurs_in_middle(before, "已连签"@, after);
    lemma_occurs_in_middle(before, "今天已经"@, after);
    lemma_occurs_in_middle(before, "nolog"@, after);
}

/// `p` occurs in `before + p + after`, right after `before`.
proof fn lemma_occurs_in_middle(before: Seq<char>, p: Seq<char>, after: Seq<char>)
    ensures
        has_substring(before + p + after, p),
{
    let t = before + p + after;
    assert(t.subrange(before.len() as int, before.len() + p.len() as int) =~= p);
    assert(occurs_at(t, p, before.len() as int));
}

/// The retry-driven sign-in over a whole configuration, which this tool does
/// not offer: it always answers `unimplemented!`.
pub fn att_times(config: &Config, status: &StatusFile) -> (r: Result<(), String>)
    ensures
        r matches Err(e) && e@ == "unimplemented!"@,
{
    Err(String::from_str("unimplemented!"))
}

/// Picks the accounts of `config` that are to be signed in on `today`,
/// each with its identifier, in an order that the map decides.
#[verifier::spinoff_prover]
pub fn accounts_to_sign_in(config: Config, status: &StatusFile, today: Date) -> (r: Vec<(String, UserConf)>)
    ensures
        forall|i: int|
            0 <= i < r@.len() ==> #[trigger] config_entries(config).contains_key(r@[i].0@)
                && config_entries(config)[r@[i].0@] == r@[i].1@ && r@[i].1@.enable && needs_sign_in(
                r@[i].1@,
                status_entries(*status).get(r@[i].1@.name),
                today,
            ),
        forall|i: int, j: int| 0 <= i < j < r@.len() ==> r@[i].0@ != r@[j].0@,
        forall|k: Seq<char>|
            #[trigger] config_entries(config).contains_key(k) && needs_sign_in(
                config_entries(config)[k],
                status_entries(*status).get(config_entries(config)[k].name),
                today,
            ) ==> exists|i: int| 0 <= i < r@.len() && r@[i].0@ == k,
{
    let ghost c = config_entries(config);
    let ghost st = status_entries(*status);
    let mut entries = config_into_entries(config);
    let ghost all = entries@;
    let mut picked: Vec<(String, UserConf)> = Vec::new();
    let ghost mut picked_from: Seq<int> = Seq::empty();
    let n = entries.len();
    let mut k: usize = n;
    assert(all.take(n as int) =~= all);
    while k > 0
        invariant
            n == all.len(),
            k <= n,
            st == status_entries(*status),
            c == config_entries(config),
            forall|key: Seq<char>|
                #[trigger] c.contains_key(key) ==> exists|m: int| 0 <= m < all.len() && all[m].0@ == key,
            forall|a: int, b: int| 0 <= a < b < all.len() ==> all[a].0@ != all[b].0@,
            entries@ == all.take(k as int),
            forall|m: int|
                0 <= m < all.len() ==> #[trigger] c.contains_key(all[m].0@) && c[all[m].0@] == all[m].1@,
            picked_from.len() == picked@.len(),
            forall|p: int|
                0 <= p < picked@.len() ==> k <= #[trigger] picked_from[p] < n && picked@[p] == all[picked_from[p]],
            forall|p: int, q: int| 0 <= p < q < picked@.len() ==> picked_from[p] > picked_from[q],
            forall|p: int|
                0 <= p < picked@.len() ==> needs_sign_in(
                    #[trigger] picked@[p].1@,
                    st.get(picked@[p].1@.name),
                    today,
                ),
            forall|m: int|
                k <= m < n && needs_sign_in(#[trigger] all[m].1@, st.get(all[m].1@.name), today)
                    ==> exists|p: int| 0 <= p < picked@.len() && picked_from[p] == m,
        decreases k,
    {
        let entry = entries.pop().unwrap();
        k = k - 1;
        assert(entries@ =~= all.take(k as int));
        assert(entry == all[k as int]);
        let ghost old_picked = picked@;
        let ghost old_from = picked_from;
        let wanted = entry.1.need_att(status, today);
        if wanted {
            proof {
                picked_from = picked_from.push(k as int);
            }
            picked.push(entry);
        }
        assert forall|m: int|
            k <= m < n && needs_sign_in(#[trigger] all[m].1@, st.get(all[m].1@.name), today) implies exists|p: int|
            0 <= p < picked@.len() && picked_from[p] == m by {
            if m == k {
                assert(picked_from[picked@.len() - 1] == m);
            } else {
                let p = choose|p: int| 0 <= p < old_picked.len() && old_from[p] == m;
                assert(picked_from[p] == m);
            }
        }
    }
    assert forall|p: int| 0 <= p < picked@.len() implies #[trigger] c.contains_key(picked@[p].0@) && c[picked@[p].0@] == picked@[p].1@ by {
        let m = picked_from[p];
        assert(c.contains_key(all[m].0@));
    }
    assert forall|a: int, b: int| 0 <= a < b < picked@.len() implies picked@[a].0@ != picked@[b].0@ by {
        assert(picked_from[a] > picked_from[b]);
    }
    assert forall|key: Seq<char>|
        #[trigger] c.contains_key(key) && needs_sign_in(c[key], st.get(c[key].name), today) implies exists|p: int|
        0 <= p < picked@.len() && picked@[p].0@ == key by {
        let m = choose|m: int| 0 <= m < all.len() && all[m].0@ == key;
        assert(needs_sign_in(all[m].1@, st.get(all[m].1@.name), today));
        let p = choose|p: int| 0 <= p < picked@.len() && picked_from[p] == m;
        assert(picked@[p].0@ == key);
    }
    picked
}

} // verus!
