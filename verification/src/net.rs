//! What identifies the kind of a socket.

use vstd::prelude::*;
use crate::errno::{EResult, Errno};

verus! {

/// The domain of a socket.
#[derive(Clone, Copy, Debug, PartialEq, Eq, Structural)]
pub enum SocketDomain {
    /// Local communication.
    AfUnix,
    /// IPv4 Internet Protocols.
    AfInet,
    /// IPv6 Internet Protocols.
    AfInet6,
    /// Kernel user interface device.
    AfNetlink,
    /// Low level packet interface.
    AfPacket,
}

/// The number that stands for each domain of socket, if it stands for one.
pub open spec fn domain_of(id: u32) -> Option<SocketDomain> {
    if id == 1 {
        Some(SocketDomain::AfUnix)
    } else if id == 2 {
        Some(SocketDomain::AfInet)
    } else if id == 10 {
        Some(SocketDomain::AfInet6)
    } else if id == 16 {
        Some(SocketDomain::AfNetlink)
    } else if id == 17 {
        Some(SocketDomain::AfPacket)
    } else {
        None
    }
}

impl SocketDomain {
    /// Returns the domain that the number `id` stands for. The function fails
    /// with `EINVAL` if the number stands for none.
    pub fn try_from(id: u32) -> (r: EResult<Self>)
        ensures
            match r {
                Ok(d) => domain_of(id) == Some(d),
                Err(e) => e == Errno::EINVAL && domain_of(id).is_none(),
            },
    {
        if id == 1 {
            Ok(SocketDomain::AfUnix)
        } else if id == 2 {
            Ok(SocketDomain::AfInet)
        } else if id == 10 {
            Ok(SocketDomain::AfInet6)
        } else if id == 16 {
            Ok(SocketDomain::AfNetlink)
        } else if id == 17 {
            Ok(SocketDomain::AfPacket)
        } else {
            Err(Errno::EINVAL)
        }
    }

    /// Tells whether only a privileged process may use the domain.
    pub fn is_privileged(&self) -> (b: bool)
        ensures
            b == (*self == SocketDomain::AfPacket),
    {
        match self {
            SocketDomain::AfPacket => true,
            _ => false,
        }
    }
}

/// The type of a socket.
#[derive(Clone, Copy, Debug, PartialEq, Eq, Structural)]
pub enum SocketType {
    /// Sequenced, reliable, two-way, connection-based byte streams.
    SockStream,
    /// Datagrams.
    SockDgram,
    /// Sequenced, reliable, two-way connection-based data transmission path
    /// for datagrams of fixed maximum length.
    SockSeqpacket,
    /// Raw network protocol access.
    SockRaw,
}

/// The number that stands for each type of socket, if it stands for one.
pub open spec fn type_of(id: u32) -> Option<SocketType> {
    if id == 1 {
        Some(SocketType::SockStream)
    } else if id == 2 {
        Some(SocketType::SockDgram)
    } else if id == 5 {
        Some(SocketType::SockSeqpacket)
    } else if id == 3 {
        Some(SocketType::SockRaw)
    } else {
        None
    }
}

impl SocketType {
    /// Returns the type that the number `id` stands for. The function fails
    /// with `EINVAL` if the number stands for none.
    pub fn try_from(id: u32) -> (r: EResult<Self>)
        ensures
            match r {
                Ok(t) => type_of(id) == Some(t),
                Err(e) => e == Errno::EINVAL && type_of(id).is_none(),
            },
    {
        if id == 1 {
            Ok(SocketType::SockStream)
        } else if id == 2 {
            Ok(SocketType::SockDgram)
        } else if id == 5 {
            Ok(SocketType::SockSeqpacket)
        } else if id == 3 {
            Ok(SocketType::SockRaw)
        } else {
            Err(Errno::EINVAL)
        }
    }

    /// Tells whether the type is a stream of bytes.
    pub fn is_stream(&self) -> (b: bool)
        ensures
            b == (*self == SocketType::SockStream || *self == SocketType::SockSeqpacket),
    {
        match self {
            SocketType::SockStream => true,
            SocketType::SockSeqpacket => true,
            _ => false,
        }
    }

    /// Tells whether only a privileged process may use the type.
    pub fn is_privileged(&self) -> (b: bool)
        ensures
            b == (*self == SocketType::SockRaw),
    {
        match self {
            SocketType::SockRaw => true,
            _ => false,
        }
    }
}

/// The description of a socket.
#[derive(Clone, Copy, Debug, PartialEq, Eq, Structural)]
pub struct SocketDesc {
    /// The domain of the socket.
    pub domain: SocketDomain,
    /// The type of the socket.
    pub type_: SocketType,
    /// The protocol of the socket.
    pub protocol: i32,
}

} // verus!
