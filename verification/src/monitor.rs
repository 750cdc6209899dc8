//! What the daemon's loops record between fencing decisions: whether the in-use
//! data is fresh enough, whether multipathd answered, and how discovery fares.
//! Each function updates the status issues and says how to go on.
use vstd::prelude::*;
use crate::status::{StatusLevel, StatusTracker, with_issue, without_issue};
use crate::text::{chars_of, concat, starts_with_chars};

verus! {

pub open spec fn stale_message() -> Seq<char> {
    "Active LUN data is stale (older than 2x discovery interval). Skipping fencer update to avoid race condition with discovery thread."@
}

/// Records whether the in-use data is stale (a `stale_luns` warning, cleared when
/// fresh); the cycle goes on only with fresh data.
pub fn note_lun_freshness(status: &mut StatusTracker, stale: bool) -> (proceed: bool)
    requires
        old(status).wf(),
    ensures
        final(status).wf(),
        final(status).file() == old(status).file(),
        proceed == !stale,
        final(status).entries() == if stale {
            with_issue(old(status).entries(), "stale_luns"@, StatusLevel::Warning, stale_message())
        } else {
            without_issue(old(status).entries(), "stale_luns"@)
        },
{
    if stale {
        status.set_issue(
            "stale_luns",
            StatusLevel::Warning,
            "Active LUN data is stale (older than 2x discovery interval). Skipping fencer update to avoid race condition with discovery thread.".to_string(),
        );
        false
    } else {
        status.clear_issue("stale_luns");
        true
    }
}

/// Records the outcome of asking multipathd for its maps: on an error (its
/// message given) a `query_failure` warning "Failed to query multipathd: <error>",
/// and the cycle does not go on; on an answer the warning is cleared.
pub fn note_maps_query(status: &mut StatusTracker, error: Option<&str>) -> (proceed: bool)
    requires
        old(status).wf(),
    ensures
        final(status).wf(),
        final(status).file() == old(status).file(),
        proceed == error is None,
        final(status).entries() == match error {
            Some(e) => with_issue(
                old(status).entries(),
                "query_failure"@,
                StatusLevel::Warning,
                "Failed to query multipathd: "@ + e@,
            ),
            None => without_issue(old(status).entries(), "query_failure"@),
        },
{
    match error {
        Some(e) => {
            status.set_issue("query_failure", StatusLevel::Warning, concat("Failed to query multipathd: ", e));
            false
        },
        None => {
            status.clear_issue("query_failure");
            true
        },
    }
}

/// Records the outcome of asking multipathd for its configuration: on an error a
/// `config_query_error` warning "Failed to query multipathd config: <error>",
/// cleared on an answer.
pub fn note_config_query(status: &mut StatusTracker, error: Option<&str>)
    requires
        old(status).wf(),
    ensures
        final(status).wf(),
        final(status).file() == old(status).file(),
        final(status).entries() == match error {
            Some(e) => with_issue(
                old(status).entries(),
                "config_query_error"@,
                StatusLevel::Warning,
                "Failed to query multipathd config: "@ + e@,
            ),
            None => without_issue(old(status).entries(), "config_query_error"@),
        },
{
    match error {
        Some(e) => {
            status.set_issue(
                "config_query_error",
                StatusLevel::Warning,
                concat("Failed to query multipathd config: ", e),
            );
        },
        None => {
            status.clear_issue("config_query_error");
        },
    }
}

/// The failure count after a discovery round: reset by success, one more
/// (saturating) after a failure.
pub open spec fn failures_after(failures: u64, failed: bool) -> u64 {
    if !failed {
        0
    } else if failures == u64::MAX {
        failures
    } else {
        (failures + 1) as u64
    }
}

/// Records a discovery round: success clears the `discovery_failure` and
/// `discovery_backoff` issues; a failure (its message given) is a
/// `discovery_failure` warning with that message. Returns the new count of
/// consecutive failures.
pub fn note_discovery(status: &mut StatusTracker, failures: u64, error: Option<String>) -> (r: u64)
    requires
        old(status).wf(),
    ensures
        final(status).wf(),
        final(status).file() == old(status).file(),
        r == failures_after(failures, error is Some),
        final(status).entries() == match error {
            Some(m) => with_issue(old(status).entries(), "discovery_failure"@, StatusLevel::Warning, m@),
            None => without_issue(
                without_issue(old(status).entries(), "discovery_failure"@),
                "discovery_backoff"@,
            ),
        },
{
    match error {
        Some(m) => {
            status.set_issue("discovery_failure", StatusLevel::Warning, m);
            if failures < u64::MAX {
                failures + 1
            } else {
                failures
            }
        },
        None => {
            status.clear_issue("discovery_failure");
            status.clear_issue("discovery_backoff");
            0
        },
    }
}

/// Whether a device-mapper name is a multipath device (it starts with `mpath`).
pub fn is_multipath_name(mapped_name: &str) -> (r: bool)
    ensures
        r == "mpath"@.is_prefix_of(mapped_name@),
{
    let p = chars_of("mpath");
    let s = chars_of(mapped_name);
    starts_with_chars(s.as_slice(), p.as_slice())
}

/// Whether a block device name is a device-mapper device (it starts with `dm-`).
pub fn is_dm_device(name: &str) -> (r: bool)
    ensures
        r == "dm-"@.is_prefix_of(name@),
{
    let p = chars_of("dm-");
    let s = chars_of(name);
    starts_with_chars(s.as_slice(), p.as_slice())
}

} // verus!
