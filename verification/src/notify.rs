//! What is announced to the frontend, and when.

use vstd::prelude::*;

verus! {

/// Milliseconds the shell waits before announcing an opened file, so the
/// frontend can finish registering its event listener first.
pub const NOTIFY_DELAY_MS: u64 = 300;

/// Name of the event that announces a file to open, carrying the absolute
/// path as its payload.
pub fn file_opened_event_name() -> (r: &'static str)
    ensures
        r@ == "file-opened"@,
{
    "file-opened"
}

/// What one scan of a launch's arguments decided: which argument to open and
/// the path to announce, before canonicalization.
pub struct OpenPlan {
    /// The selected argument, as given on the command line.
    pub raw: String,
    /// The selected argument made absolute against the working directory;
    /// canonicalization, a file-system step, is still the caller's to attempt.
    pub pre_resolved: String,
}

/// Scans the arguments of one launch (or one forwarded second-instance
/// invocation) and plans the notification: the first qualifying argument,
/// made absolute against `cwd`.  Returns nothing when no argument qualifies,
/// in which case no notification is owed.
pub fn plan_open(args: &Vec<String>, regular_file: &Vec<bool>, cwd: Option<&str>) -> (r: Option<
    OpenPlan,
>)
    requires
        args@.len() == regular_file@.len(),
    ensures
        match r {
            Some(plan) => crate::scan::first_qualifying(args@, regular_file@) matches Some(i)
                && plan.raw@ == args@[i]@ && plan.pre_resolved@ == crate::paths::pre_resolved(
                args@[i]@,
                crate::paths::str_opt_view(cwd),
            ),
            None => crate::scan::first_qualifying(args@, regular_file@) is None,
        },
{
    match crate::scan::select_candidate(args, regular_file) {
        Some(i) => {
            let raw = args[i].clone();
            let pre = crate::paths::pre_resolve(raw.as_str(), cwd);
            Some(OpenPlan { raw, pre_resolved: pre })
        },
        None => None::<OpenPlan>,
    }
}

} // verus!
