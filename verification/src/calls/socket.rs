//! Opening a TCP connection to a server.

use crate::completion::Cause;
use crate::runtime::{Runtime, AF_INET};
use crate::sqe::Sqe;
use crate::stream::Progress;
use vstd::prelude::*;

verus! {

/// The number of bytes in an IPv4 socket address.
pub const SOCKADDR_IN_LEN: u32 = 16;

/// An IPv4 socket address. Port and address are in network order, byte by byte.
#[derive(Clone, Copy, Debug)]
pub struct SockAddrIn {
    pub family: u16,
    pub port: [u8; 2],
    pub addr: [u8; 4],
}

/// The wait for a connection to a server.
pub enum SocketFuture {
    /// The socket is still to be asked for.
    CreateSocket { addr: SockAddrIn },
    /// The socket is awaited, or, once its index `fd` is known, the connection.
    Connecting { fd: Option<u32>, addr: SockAddrIn },
    /// The connection was made.
    Pending,
}

/// Connects to port `port` of the server `ip`.
pub fn connect(ip: [u8; 4], port: u16) -> (f: SocketFuture)
    ensures
        f matches SocketFuture::CreateSocket { addr } && {
            &&& addr.family == AF_INET
            &&& addr.port[0] * 256 + addr.port[1] == port
            &&& addr.addr == ip
        },
{
    let high: u8 = (port / 256) as u8;
    let low: u8 = (port % 256) as u8;
    SocketFuture::CreateSocket {
        addr: SockAddrIn { family: AF_INET as u16, port: [high, low], addr: ip },
    }
}

impl SocketFuture {
    /// The first poll asks for a socket, the second takes its index in the table
    /// of registered files and asks for the connection, the third gives the
    /// index. The address has to stand at `sockaddr` until then.
    pub fn poll<F>(&mut self, rt: &mut Runtime<F>, sockaddr: usize) -> (r: Progress<u32>)
        requires
            old(rt).wf(),
            old(rt)@.polling(),
            *old(self) !is Pending,
            *old(self) is CreateSocket ==> old(rt)@.may_submit(1),
            *old(self) matches SocketFuture::Connecting { fd: None, .. } ==> old(
                rt,
            )@.current().cause == Cause::Completion ==> old(rt)@.may_submit(1),
        ensures
            final(rt).wf(),
            match *old(self) {
                SocketFuture::CreateSocket { addr } => {
                    &&& r is Pending
                    &&& *final(self) == (SocketFuture::Connecting { fd: None, addr })
                    &&& final(rt)@ == old(rt)@.submitted(
                        Sqe::Socket {
                            domain: AF_INET,
                            socket_type: crate::runtime::STREAM_SOCKET,
                            protocol: 0,
                            user_data: old(rt)@.current_udata(false, 0),
                        },
                        false,
                    )
                },
                SocketFuture::Connecting { .. } if old(rt)@.current().cause
                    != Cause::Completion => {
                    &&& r is Pending
                    &&& *final(self) == *old(self)
                    &&& final(rt)@ == old(rt)@
                },
                SocketFuture::Connecting { fd: None, addr } => {
                    let slot = old(rt)@.current().result as u32;
                    &&& r is Pending
                    &&& *final(self) == (SocketFuture::Connecting { fd: Some(slot), addr })
                    &&& final(rt)@ == old(rt)@.submitted(
                        Sqe::Connect {
                            fd: slot,
                            addr: sockaddr,
                            addrlen: SOCKADDR_IN_LEN,
                            user_data: old(rt)@.current_udata(false, 0),
                        },
                        false,
                    )
                },
                SocketFuture::Connecting { fd: Some(fd), addr } => {
                    &&& r == Progress::Ready(fd)
                    &&& *final(self) is Pending
                    &&& final(rt)@ == old(rt)@
                },
                SocketFuture::Pending => true,
            },
    {
        match *self {
            SocketFuture::CreateSocket { addr } => {
                rt.submit_socket();
                *self = SocketFuture::Connecting { fd: None, addr };
                Progress::Pending
            },
            SocketFuture::Connecting { .. } if !rt.is_completion() => Progress::Pending,
            SocketFuture::Connecting { fd: None, addr } => {
                let slot: u32 = rt.current_result() as u32;
                *self = SocketFuture::Connecting { fd: Some(slot), addr };
                rt.submit_connect(slot, sockaddr, SOCKADDR_IN_LEN);
                Progress::Pending
            },
            SocketFuture::Connecting { fd: Some(fd), addr } => {
                *self = SocketFuture::Pending;
                Progress::Ready(fd)
            },
            SocketFuture::Pending => Progress::Pending,
        }
    }
}

} // verus!
