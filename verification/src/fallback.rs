//! The degraded surface for platforms without a native process-tree
//! concept.
//!
//! On such a platform every operation becomes a documented no-op that
//! returns a neutral value — `false`, an empty list, or plain success —
//! rather than an error, so host code never needs to special-case the
//! platform.

use vstd::prelude::*;
use crate::errors::ProcessError;

verus! {

/// Kill a process tree: nothing to do, and no tree was found.
pub fn kill_process_tree(_pid: u32) -> (r: Result<bool, ProcessError>)
    ensures
        r == Ok::<bool, ProcessError>(false),
{
    Ok(false)
}

/// List processes by image name: nothing runs here, so the list is empty.
pub fn list_processes_by_name(_name: &str) -> (r: Result<Vec<u32>, ProcessError>)
    ensures
        r matches Ok(v) && v@ == Seq::<u32>::empty(),
{
    Ok(Vec::new())
}

/// Ask whether a process is elevated: without the concept, no.
pub fn is_process_elevated(_pid: u32) -> (r: Result<bool, ProcessError>)
    ensures
        r == Ok::<bool, ProcessError>(false),
{
    Ok(false)
}

/// Register a file association: accepted and ignored.
pub fn register_file_association(
    _extension: &str,
    _program_id: &str,
    _executable_path: &str,
    _description: &str,
) -> (r: Result<(), ProcessError>)
    ensures
        r is Ok,
{
    Ok(())
}

/// Register a URL protocol: accepted and ignored.
pub fn register_url_protocol(_protocol: &str, _executable_path: &str, _description: &str) -> (r:
    Result<(), ProcessError>)
    ensures
        r is Ok,
{
    Ok(())
}

/// Configure auto-start on login: accepted and ignored.
pub fn set_auto_start(_app_name: &str, _executable_path: &str, _enabled: bool) -> (r: Result<
    (),
    ProcessError,
>)
    ensures
        r is Ok,
{
    Ok(())
}

/// Ask whether the current process is elevated: without the concept, no.
pub fn is_running_as_admin() -> (r: Result<bool, ProcessError>)
    ensures
        r == Ok::<bool, ProcessError>(false),
{
    Ok(false)
}

/// Request elevation: there is nothing to elevate to.
pub fn request_elevation(_executable_path: &str, _args: &[&str]) -> (r: Result<bool, ProcessError>)
    ensures
        r == Ok::<bool, ProcessError>(false),
{
    Ok(false)
}

/// Set an access-control list on a file: accepted and ignored.
pub fn set_file_acl(_file_path: &str, _permissions: &str) -> (r: Result<(), ProcessError>)
    ensures
        r is Ok,
{
    Ok(())
}

} // verus!
