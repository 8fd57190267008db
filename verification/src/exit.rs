//! Exit-code protocol.
//!
//! The unprivileged surface reports its outcome to its parent solely
//! through its process exit status: no other channel across the privilege
//! boundary is trusted. This module is the single reading of that status,
//! shared by every launcher: 0 confirms, 1 denies, 2 timed out, and any
//! other code — or an abnormal termination — is an error, never consent.

use vstd::prelude::*;

use crate::config::DialogResult;
use crate::machine::spec_exit_code;
use crate::machine::DialogState;

verus! {

/// The caller-side reading of a child exit status. `None` stands for
/// abnormal termination: a signal, a crash, or a failure to start at all.
pub open spec fn spec_result_of_status(status: Option<i32>) -> DialogResult {
    match status {
        Option::Some(c) => {
            if c == 0 {
                DialogResult::Confirmed
            } else if c == 1 {
                DialogResult::Denied
            } else if c == 2 {
                DialogResult::Timeout
            } else {
                DialogResult::Error
            }
        },
        Option::None => DialogResult::Error,
    }
}

/// Map a child's exit status to a result.
pub fn result_from_status(status: Option<i32>) -> (r: DialogResult)
    ensures
        r == spec_result_of_status(status),
{
    match status {
        Option::Some(0) => DialogResult::Confirmed,
        Option::Some(1) => DialogResult::Denied,
        Option::Some(2) => DialogResult::Timeout,
        _ => DialogResult::Error,
    }
}

/// Map an in-process run's exit code to a result.
pub fn result_from_exit_code(code: i32) -> (r: DialogResult)
    ensures
        r == spec_result_of_status(Some(code)),
{
    result_from_status(Some(code))
}

/// The mapping is total and exhaustive: every status reads as exactly one
/// of the four results; each of Confirmed, Denied and Timeout is produced
/// by exactly one exit code, and everything else — any other code, or an
/// abnormal termination — reads as Error.
pub proof fn lemma_status_mapping_total(status: Option<i32>)
    ensures
        spec_result_of_status(status) == DialogResult::Confirmed <==> status == Some(0i32),
        spec_result_of_status(status) == DialogResult::Denied <==> status == Some(1i32),
        spec_result_of_status(status) == DialogResult::Timeout <==> status == Some(2i32),
        spec_result_of_status(status) == DialogResult::Error <==> (status is None || (
        status matches Some(c) && c != 0 && c != 1 && c != 2)),
{
}

/// Fail-closed: only exit code 0 reads as Confirmed, and only the
/// Confirmed state exits with code 0. A surface killed before a terminal
/// decision (abnormal status), or stopped in any state but Confirmed,
/// never reads as Confirmed on the caller side.
pub proof fn lemma_fail_closed(s: DialogState, status: Option<i32>)
    ensures
        spec_result_of_status(status) == DialogResult::Confirmed ==> status == Some(0i32),
        spec_exit_code(s) == 0 ==> s == DialogState::Confirmed,
        s != DialogState::Confirmed ==> spec_result_of_status(Some(spec_exit_code(s)))
            != DialogResult::Confirmed,
        spec_result_of_status(None) == DialogResult::Error,
{
}

} // verus!
