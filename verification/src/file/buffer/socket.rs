//! This file implements sockets.

use vstd::prelude::*;
use crate::errno::{EResult, Errno};
use crate::file::{FileType, Stat};
use crate::file::buffer::pipe::PipeBuffer;
use crate::net::{SocketDesc, SocketDomain, SocketType};

verus! {

/// The maximum size of a socket's buffers.
pub const BUFFER_SIZE: usize = 65536;

/// Socket option level: Socket
pub const SOL_SOCKET: i32 = 1;

/// Structure representing a socket.
pub struct Socket {
    /// The socket's stack descriptor.
    desc: SocketDesc,
    /// The number of the network stack that corresponds to the descriptor,
    /// once the socket has one.
    stack: Option<u32>,
    /// The buffer containing received data. If `None`, reception has been
    /// shutdown.
    receive_buffer: Option<PipeBuffer>,
    /// The buffer containing data to be transmitted. If `None`, transmission
    /// has been shutdown.
    transmit_buffer: Option<PipeBuffer>,
    /// The number of entities owning a reference to the socket. When this
    /// count reaches zero, the socket is closed.
    open_count: u32,
    /// The address the socket is bound to.
    sockname: Vec<u8>,
}

impl Socket {
    /// The socket's descriptor.
    pub closed spec fn spec_desc(&self) -> SocketDesc {
        self.desc
    }

    /// The number of the socket's network stack, if it has one.
    pub closed spec fn spec_stack(&self) -> Option<u32> {
        self.stack
    }

    /// The address the socket is bound to: empty if it is bound to none.
    pub closed spec fn sockname(&self) -> Seq<u8> {
        self.sockname@
    }

    /// Whether the socket can receive.
    pub closed spec fn receives(&self) -> bool {
        self.receive_buffer.is_some()
    }

    /// Whether the socket can transmit.
    pub closed spec fn transmits(&self) -> bool {
        self.transmit_buffer.is_some()
    }

    /// The number of entities owning a reference to the socket.
    pub closed spec fn open_count(&self) -> nat {
        self.open_count as nat
    }

    /// Creates a new instance: a socket that is bound to no address, has no
    /// network stack, can receive and transmit, and that nobody owns.
    pub fn new(desc: SocketDesc) -> (s: Self)
        ensures
            s.spec_desc() == desc,
            s.spec_stack().is_none(),
            s.sockname().len() == 0,
            s.receives(),
            s.transmits(),
            s.open_count() == 0,
    {
        Socket {
            desc,
            stack: None,
            receive_buffer: Some(PipeBuffer::new()),
            transmit_buffer: Some(PipeBuffer::new()),
            open_count: 0,
            sockname: Vec::new(),
        }
    }

    /// Creates a raw socket of the local domain.
    pub fn try_default() -> (s: Self)
        ensures
            s.spec_desc() == (SocketDesc {
                domain: SocketDomain::AfUnix,
                type_: SocketType::SockRaw,
                protocol: 0,
            }),
            s.spec_stack().is_none(),
            s.sockname().len() == 0,
            s.receives(),
            s.transmits(),
            s.open_count() == 0,
    {
        Self::new(
            SocketDesc { domain: SocketDomain::AfUnix, type_: SocketType::SockRaw, protocol: 0 },
        )
    }

    /// Returns the socket's descriptor.
    pub fn desc(&self) -> (d: &SocketDesc)
        ensures
            *d == self.spec_desc(),
    {
        &self.desc
    }

    /// Returns the number of the socket's network stack.
    pub fn stack(&self) -> (s: Option<u32>)
        ensures
            s == self.spec_stack(),
    {
        self.stack
    }

    /// Writes the given socket option.
    ///
    /// Arguments:
    /// - `level` is the level (protocol) at which the option is located.
    /// - `optname` is the name of the option.
    /// - `optval` is the value of the option.
    ///
    /// The function returns a value to be returned by the syscall on success.
    pub fn set_opt(&mut self, _level: i32, _optname: i32, _optval: &Vec<u8>) -> (r: EResult<i32>)
        ensures
            r == Ok::<i32, Errno>(0),
            *final(self) == *old(self),
    {
        Ok(0)
    }

    /// Returns the name of the socket.
    pub fn get_sockname(&self) -> (n: &Vec<u8>)
        ensures
            n@ == self.sockname(),
    {
        &self.sockname
    }

    /// Tells whether the socket is bound.
    pub fn is_bound(&self) -> (b: bool)
        ensures
            b == (self.sockname().len() > 0),
    {
        self.sockname.len() > 0
    }

    /// Binds the socket to the given address.
    ///
    /// `sockaddr` is the new socket name.
    ///
    /// If the socket is already bound, the function returns `EINVAL` and
    /// changes nothing.
    pub fn bind(&mut self, sockaddr: &Vec<u8>) -> (r: EResult<()>)
        ensures
            final(self).spec_desc() == old(self).spec_desc(),
            final(self).spec_stack() == old(self).spec_stack(),
            final(self).receives() == old(self).receives(),
            final(self).transmits() == old(self).transmits(),
            final(self).open_count() == old(self).open_count(),
            match r {
                Ok(()) => old(self).sockname().len() == 0 && final(self).sockname() == sockaddr@,
                Err(e) => e == Errno::EINVAL && old(self).sockname().len() > 0 && final(self).sockname() == old(self).sockname(),
            },
    {
        if self.is_bound() {
            return Err(Errno::EINVAL);
        }
        let mut name: Vec<u8> = Vec::new();
        let mut i: usize = 0;
        while i < sockaddr.len()
            invariant
                i <= sockaddr@.len(),
                name@ == sockaddr@.subrange(0, i as int),
            decreases sockaddr@.len() - i,
        {
            name.push(sockaddr[i]);
            assert(name@ =~= sockaddr@.subrange(0, i + 1));
            i = i + 1;
        }
        assert(name@ =~= sockaddr@);
        self.sockname = name;
        Ok(())
    }

    /// Shuts down the receive side of the socket.
    pub fn shutdown_receive(&mut self)
        ensures
            !final(self).receives(),
            final(self).transmits() == old(self).transmits(),
            final(self).spec_desc() == old(self).spec_desc(),
            final(self).spec_stack() == old(self).spec_stack(),
            final(self).sockname() == old(self).sockname(),
            final(self).open_count() == old(self).open_count(),
    {
        self.receive_buffer = None;
    }

    /// Shuts down the transmit side of the socket.
    pub fn shutdown_transmit(&mut self)
        ensures
            !final(self).transmits(),
            final(self).receives() == old(self).receives(),
            final(self).spec_desc() == old(self).spec_desc(),
            final(self).spec_stack() == old(self).spec_stack(),
            final(self).sockname() == old(self).sockname(),
            final(self).open_count() == old(self).open_count(),
    {
        self.transmit_buffer = None;
    }

    /// Records that one more entity owns a reference to the socket.
    pub fn increment_open(&mut self, _read: bool, _write: bool)
        requires
            old(self).open_count() < u32::MAX,
        ensures
            final(self).open_count() == old(self).open_count() + 1,
            final(self).receives() == old(self).receives(),
            final(self).transmits() == old(self).transmits(),
            final(self).spec_desc() == old(self).spec_desc(),
            final(self).spec_stack() == old(self).spec_stack(),
            final(self).sockname() == old(self).sockname(),
    {
        self.open_count += 1;
    }

    /// Records that one entity less owns a reference to the socket.
    pub fn decrement_open(&mut self, _read: bool, _write: bool)
        requires
            old(self).open_count() > 0,
        ensures
            final(self).open_count() == old(self).open_count() - 1,
            final(self).receives() == old(self).receives(),
            final(self).transmits() == old(self).transmits(),
            final(self).spec_desc() == old(self).spec_desc(),
            final(self).spec_stack() == old(self).spec_stack(),
            final(self).sockname() == old(self).sockname(),
    {
        self.open_count -= 1;
    }

    /// Returns the status of the file of a socket.
    pub fn get_stat(&self) -> (s: Stat)
        ensures
            s == (Stat { file_type: FileType::Socket, mode: 0o666, ..Stat::spec_default() }),
    {
        let mut s = Stat::default();
        s.file_type = FileType::Socket;
        s.mode = 0o666;
        s
    }
}

} // verus!
