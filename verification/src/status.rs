use vstd::prelude::*;

use crate::maps::{status_entries, status_new, StatusFile};

verus! {

/// What is remembered of one account's latest sign-in: the day of the
/// attempt, whether it succeeded, and the reply of the site on that day.
pub struct StatusEntry {
    date: String,
    success: bool,
    result: String,
}

/// The mathematical value of a [`StatusEntry`].
pub struct StatusEntryView {
    pub date: Seq<char>,
    pub success: bool,
    pub result: Seq<char>,
}

impl View for StatusEntry {
    type V = StatusEntryView;

    closed spec fn view(&self) -> StatusEntryView {
        StatusEntryView { date: self.date@, success: self.success, result: self.result@ }
    }
}

impl StatusEntry {
    /// Builds a record from its three parts.
    pub fn new(date: String, success: bool, result: String) -> (r: StatusEntry)
        ensures
            r@ == (StatusEntryView { date: date@, success, result: result@ }),
    {
        StatusEntry { date, success, result }
    }

    /// The day of the recorded attempt.
    pub fn date(&self) -> (r: &str)
        ensures
            r@ == self@.date,
    {
        self.date.as_str()
    }

    /// Whether the recorded attempt succeeded.
    pub fn success(&self) -> (r: bool)
        ensures
            r == self@.success,
    {
        self.success
    }

    /// The reply of the site to the recorded attempt.
    pub fn result(&self) -> (r: &str)
        ensures
            r@ == self@.result,
    {
        self.result.as_str()
    }
}

/// A fresh status file: no account has a record yet.
pub fn empty_status() -> (r: StatusFile)
    ensures
        status_entries(r).dom().is_empty(),
{
    status_new()
}

} // verus!
