use vstd::prelude::*;

verus! {

/// One line of the shell's history, with the moment it was entered, as
/// whole seconds since the Unix epoch.
pub struct HistoryEntry {
    pub line: String,
    pub timestamp: i64,
}

/// Relies on chrono's `From<SystemTime>` for `DateTime<Utc>` and on
/// `DateTime::timestamp`: the current time in whole seconds since the Unix
/// epoch.  The conversion handles a clock that reads before the epoch
/// (negative seconds) without panicking.  The value depends on the clock,
/// so nothing is stated of it.
#[verifier::external_body]
fn utc_now_timestamp() -> (r: i64) {
    chrono::DateTime::<chrono::Utc>::from(std::time::SystemTime::now()).timestamp()
}

impl HistoryEntry {
    /// Record a line at the current time.
    pub fn new(line: &str) -> (r: HistoryEntry)
        ensures
            r.line@ == line@,
    {
        HistoryEntry { line: String::from_str(line), timestamp: utc_now_timestamp() }
    }
}

} // verus!
