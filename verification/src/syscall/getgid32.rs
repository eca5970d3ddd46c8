//! The `getgid32` syscall returns the GID of the process's owner.

use vstd::prelude::*;
use crate::errno::{EResult, Errno};
use crate::process::Process;

verus! {

/// Returns the ID of the group that owns the process `proc`.
pub fn getgid32(proc: &Process) -> (r: EResult<i32>)
    ensures
        r == Ok::<i32, Errno>(proc.access_profile.gid as i32),
{
    Ok(proc.access_profile.get_gid() as i32)
}

} // verus!
