//! What a process is allowed to do to files.

use vstd::prelude::*;
use crate::file::{Gid, Stat, Uid};
use crate::net::{SocketDomain, SocketType};

verus! {

/// The ID of the superuser.
pub const ROOT_UID: Uid = 0;

/// The ID of the group of the superuser.
pub const ROOT_GID: Gid = 0;

/// The users and the groups that a process acts as.
#[derive(Clone, Copy, Debug, PartialEq, Eq, Structural)]
pub struct AccessProfile {
    /// The real ID of the user.
    pub uid: Uid,
    /// The real ID of the group.
    pub gid: Gid,
    /// The effective ID of the user.
    pub euid: Uid,
    /// The effective ID of the group.
    pub egid: Gid,
}

/// Tells whether the mode `mode` has all the bits of `bits`.
pub open spec fn has_bits(mode: u32, bits: u32) -> bool {
    mode & bits == bits
}

impl AccessProfile {
    /// The profile of the kernel, which is allowed everything.
    pub open spec fn spec_kernel() -> AccessProfile {
        AccessProfile { uid: ROOT_UID, gid: ROOT_GID, euid: ROOT_UID, egid: ROOT_GID }
    }

    /// Returns the profile of the kernel.
    pub fn kernel() -> (p: Self)
        ensures
            p == Self::spec_kernel(),
    {
        AccessProfile { uid: ROOT_UID, gid: ROOT_GID, euid: ROOT_UID, egid: ROOT_GID }
    }

    /// Tells whether the profile acts as the superuser.
    pub open spec fn privileged(&self) -> bool {
        self.euid == ROOT_UID || self.egid == ROOT_GID
    }

    /// Tells whether the agent is privileged.
    pub fn is_privileged(&self) -> (b: bool)
        ensures
            b == self.privileged(),
    {
        self.euid == ROOT_UID || self.egid == ROOT_GID
    }

    /// Returns the real ID of the user.
    pub fn get_uid(&self) -> (u: Uid)
        ensures
            u == self.uid,
    {
        self.uid
    }

    /// Returns the real ID of the group.
    pub fn get_gid(&self) -> (g: Gid)
        ensures
            g == self.gid,
    {
        self.gid
    }

    /// Returns the effective ID of the user.
    pub fn get_euid(&self) -> (u: Uid)
        ensures
            u == self.euid,
    {
        self.euid
    }

    /// Returns the effective ID of the group.
    pub fn get_egid(&self) -> (g: Gid)
        ensures
            g == self.egid,
    {
        self.egid
    }

    /// The bits of the mode of a file with status `stat` that give the
    /// profile the rights whose bits for the others are `other`: those of
    /// the owner if the profile acts as the owner, or else those of the
    /// group if it acts as the group, or else those of the others.
    pub open spec fn needed_bits(&self, stat: Stat, other: u32) -> u32 {
        if self.euid == stat.uid {
            (other * 64) as u32
        } else if self.egid == stat.gid {
            (other * 8) as u32
        } else {
            other
        }
    }

    /// Tells whether the profile has on a file with status `stat` the rights
    /// whose bits for the others are `other`, which is one of 1, 2 and 4: the
    /// superuser has them all.
    pub open spec fn allowed(&self, stat: Stat, other: u32) -> bool {
        self.privileged() || has_bits(stat.mode, self.needed_bits(stat, other))
    }

    /// Tells whether the profile has on a file with status `stat` the rights
    /// whose bits for the others are `other`.
    fn check(&self, stat: &Stat, other: u32) -> (b: bool)
        requires
            other <= 7,
        ensures
            b == self.allowed(*stat, other),
    {
        if self.is_privileged() {
            return true;
        }
        let bits = if self.euid == stat.uid {
            other * 64
        } else if self.egid == stat.gid {
            other * 8
        } else {
            other
        };
        stat.mode & bits == bits
    }

    /// Tells whether the agent can read a file with the given status.
    pub fn can_read_file(&self, stat: &Stat) -> (b: bool)
        ensures
            b == self.allowed(*stat, 4),
    {
        self.check(stat, 4)
    }

    /// Tells whether the agent can write a file with the given status.
    pub fn can_write_file(&self, stat: &Stat) -> (b: bool)
        ensures
            b == self.allowed(*stat, 2),
    {
        self.check(stat, 2)
    }

    /// Tells whether the agent can list the files of a directory with the
    /// given status.
    pub fn can_list_directory(&self, stat: &Stat) -> (b: bool)
        ensures
            b == self.allowed(*stat, 4),
    {
        self.check(stat, 4)
    }

    /// Tells whether the agent can use the given domain of socket: one that
    /// is reserved to privileged agents takes a privileged agent.
    pub fn can_use_sock_domain(&self, domain: &SocketDomain) -> (b: bool)
        ensures
            b == (self.privileged() || *domain != SocketDomain::AfPacket),
    {
        self.is_privileged() || !domain.is_privileged()
    }

    /// Tells whether the agent can use the given type of socket: one that is
    /// reserved to privileged agents takes a privileged agent.
    pub fn can_use_sock_type(&self, type_: &SocketType) -> (b: bool)
        ensures
            b == (self.privileged() || *type_ != SocketType::SockRaw),
    {
        self.is_privileged() || !type_.is_privileged()
    }
}

} // verus!
