//! The network side of the boot source: DHCP leases, and the TFTP data
//! buffer that holds received image bytes until the MCU pulls them.

use vstd::prelude::*;
use crate::lwip::{BaremetalNetIf, BaremetalTftpClient, Ipv4Addr, Ipv6Addr, fresh_transfer};

verus! {

broadcast use {vstd::seq::group_seq_axioms, vstd::slice::group_slice_axioms, vstd::array::group_array_axioms};

/// Capacity of the buffer that holds TFTP data until the MCU pulls it.
pub const TFTP_CHUNK_BUF_SIZE: usize = 4096;

/// Longest boot-file name a lease keeps; one byte stays for the NUL.
pub const MAX_BOOT_FILE_LEN: usize = 127;

/// Errors from network operations.
#[derive(Debug, Clone, Copy, PartialEq, Eq, Structural)]
pub enum NetworkError {
    InitFailed,
    DhcpTimeout,
    DhcpFailed,
    Dhcpv6Timeout,
    Dhcpv6Failed,
    TftpInitFailed,
    TftpGetFailed,
    TftpTimeout,
    TftpError,
    NoBootFile,
}

/// IP-version-agnostic server address.
#[derive(Debug, Clone, Copy)]
pub enum ServerAddr {
    V4(Ipv4Addr),
    V6(Ipv6Addr),
}

/// DHCP results extracted after a successful handshake.
#[derive(Debug, Clone, Copy)]
pub struct DhcpResult {
    pub server_ip: ServerAddr,
    pub boot_file: [u8; 128],
    pub boot_file_len: usize,
}

/// A lease carries the first 127 bytes of the boot-file name, zero-padded
/// to the 128-byte field.
pub open spec fn lease_file(r: DhcpResult, name: Seq<u8>) -> bool {
    let len: int = if name.len() < 127 {
        name.len() as int
    } else {
        127
    };
    &&& r.boot_file_len == len
    &&& r.boot_file@ == name.take(len) + Seq::new((128 - len) as nat, |k: int| 0u8)
}

fn lease_boot_file(name: &[u8]) -> (r: ([u8; 128], usize))
    ensures
        r.1 == (if name@.len() < 127 {
            name@.len()
        } else {
            127
        }),
        r.0@ == name@.take(r.1 as int) + Seq::new((128 - r.1) as nat, |k: int| 0u8),
{
    let mut boot_file = [0u8; 128];
    let len = if name.len() < MAX_BOOT_FILE_LEN {
        name.len()
    } else {
        MAX_BOOT_FILE_LEN
    };
    let mut i: usize = 0;
    while i < len
        invariant
            len <= 127,
            len <= name@.len(),
            i <= len,
            boot_file@.len() == 128,
            forall|k: int| 0 <= k < i ==> boot_file@[k] == name@[k],
            forall|k: int| i <= k < 128 ==> boot_file@[k] == 0,
        decreases len - i,
    {
        boot_file[i] = name[i];
        i = i + 1;
    }
    assert(boot_file@ =~= name@.take(len as int) + Seq::new((128 - len) as nat, |k: int| 0u8));
    (boot_file, len)
}

/// The lease of a DHCPv4 reply: the server and the boot-file name it
/// named; a reply without a boot-file name is of no use.
pub fn dhcp_v4_lease(server_ip: Ipv4Addr, boot_file_name: &[u8]) -> (r: Result<DhcpResult, NetworkError>)
    ensures
        boot_file_name@.len() == 0 <==> r == Err::<DhcpResult, NetworkError>(NetworkError::NoBootFile),
        r matches Ok(l) ==> l.server_ip == ServerAddr::V4(server_ip) && lease_file(l, boot_file_name@),
{
    if boot_file_name.len() == 0 {
        return Err(NetworkError::NoBootFile);
    }
    let (boot_file, len) = lease_boot_file(boot_file_name);
    Ok(DhcpResult { server_ip: ServerAddr::V4(server_ip), boot_file, boot_file_len: len })
}

/// The lease once SLAAC gave a global address: stateless DHCPv6 names no
/// boot file, so the configured server and file stand in.
pub fn dhcp_v6_lease(fallback_server: Ipv6Addr, fallback_boot_file: &[u8]) -> (r: DhcpResult)
    ensures
        r.server_ip == ServerAddr::V6(fallback_server),
        lease_file(r, fallback_boot_file@),
{
    let (boot_file, len) = lease_boot_file(fallback_boot_file);
    DhcpResult { server_ip: ServerAddr::V6(fallback_server), boot_file, boot_file_len: len }
}

/// The outcome of a DHCPv4 attempt: the client could not start, no lease
/// came within the poll budget, or the lease of the reply.
pub fn dhcp_v4_outcome(started: bool, reply: Option<(Ipv4Addr, &[u8])>) -> (r: Result<
    DhcpResult,
    NetworkError,
>)
    ensures
        !started ==> r == Err::<DhcpResult, NetworkError>(NetworkError::DhcpFailed),
        started && reply is None ==> r == Err::<DhcpResult, NetworkError>(NetworkError::DhcpTimeout),
        started && reply is Some ==> (reply.unwrap().1@.len() == 0 <==> r == Err::<
            DhcpResult,
            NetworkError,
        >(NetworkError::NoBootFile)),
        started && reply is Some && r is Ok ==> r.unwrap().server_ip == ServerAddr::V4(
            reply.unwrap().0,
        ) && lease_file(r.unwrap(), reply.unwrap().1@),
{
    if !started {
        return Err(NetworkError::DhcpFailed);
    }
    match reply {
        Some((ip, name)) => dhcp_v4_lease(ip, name),
        None => Err(NetworkError::DhcpTimeout),
    }
}

/// The outcome of a DHCPv6 attempt: stateless DHCPv6 could not be enabled,
/// no global address came within the poll budget, or the fallback lease.
pub fn dhcp_v6_outcome(enabled: bool, has_global: bool, fallback_server: Ipv6Addr, fallback_boot_file: &[u8]) -> (r:
    Result<DhcpResult, NetworkError>)
    ensures
        !enabled ==> r == Err::<DhcpResult, NetworkError>(NetworkError::Dhcpv6Failed),
        enabled && !has_global ==> r == Err::<DhcpResult, NetworkError>(NetworkError::Dhcpv6Timeout),
        enabled && has_global ==> (r matches Ok(l) && l.server_ip == ServerAddr::V6(fallback_server)
            && lease_file(l, fallback_boot_file@)),
{
    if !enabled {
        return Err(NetworkError::Dhcpv6Failed);
    }
    if !has_global {
        return Err(NetworkError::Dhcpv6Timeout);
    }
    Ok(dhcp_v6_lease(fallback_server, fallback_boot_file))
}

/// DHCPv4 is tried first; any failure of it sends the boot source to
/// DHCPv6. Returns the lease to use, or `None` when DHCPv6 has to run.
pub fn run_dhcp(v4: Result<DhcpResult, NetworkError>) -> (r: Option<DhcpResult>)
    ensures
        match v4 {
            Ok(l) => r == Some(l),
            Err(_) => r is None,
        },
{
    match v4 {
        Ok(l) => Some(l),
        Err(_) => None,
    }
}

/// Seed of the random numbers handed to lwIP.
pub const RAND_SEED: u32 = 0x12345678;

/// One xorshift step (shifts 13, 17, 5) of a 32-bit state.
pub open spec fn xorshift(s: u32) -> u32 {
    let a = s ^ ((s << 13u32) as u32);
    let b = a ^ (a >> 17u32);
    b ^ ((b << 5u32) as u32)
}

/// The random number source of lwIP: advances the xorshift state and
/// returns it.
pub fn simple_rand(state: &mut u32) -> (r: u32)
    ensures
        r == xorshift(*old(state)),
        *final(state) == r,
{
    let mut s = *state;
    s = s ^ (s << 13u32);
    s = s ^ (s >> 17u32);
    s = s ^ (s << 5u32);
    *state = s;
    s
}

/// lwIP's clock: milliseconds since the tick counter started, kept to 32
/// bits as lwIP counts them.
pub fn sys_now_ms(freq: u64, ticks: u64) -> (r: u32)
    requires
        freq == 0 || ticks as int * 1_000 <= u64::MAX,
    ensures
        r == crate::timers::elapsed_in(freq, 0, ticks, 1_000) % 0x1_0000_0000,
{
    let ms = crate::timers::elapsed_ms_at(freq, 0, ticks);
    (ms % 0x1_0000_0000) as u32
}

/// lwIP's system start hook: nothing to set up.
pub fn sys_init() {
}

/// lwIP's critical-section entry: the coprocessor is single-threaded, so
/// there is no state to save.
pub fn sys_arch_protect() -> (r: u32)
    ensures
        r == 0,
{
    0
}

/// lwIP's critical-section exit.
pub fn sys_arch_unprotect(_val: u32) {
}

/// The network state of the boot source: the interface and TFTP client,
/// and the buffer of received TFTP data.
pub struct LwipState {
    netif: BaremetalNetIf,
    tftp: BaremetalTftpClient,
    initialized: bool,
    chunk_buf: [u8; 4096],
    chunk_buf_len: usize,
    tftp_complete: bool,
    tftp_has_error: bool,
}

/// The buffer after a data block arrives: it is appended when it fits and
/// dropped otherwise.
pub open spec fn buffer_after_write(buf: Seq<u8>, data: Seq<u8>) -> Seq<u8> {
    if buf.len() + data.len() <= TFTP_CHUNK_BUF_SIZE {
        buf + data
    } else {
        buf
    }
}

impl LwipState {
    /// The fill level never passes the capacity.
    pub closed spec fn wf(&self) -> bool {
        self.chunk_buf_len <= TFTP_CHUNK_BUF_SIZE
    }

    /// The bytes received and not yet taken, oldest first.
    pub closed spec fn buffered(&self) -> Seq<u8> {
        self.chunk_buf@.take(self.chunk_buf_len as int)
    }

    pub closed spec fn spec_initialized(&self) -> bool {
        self.initialized
    }

    pub closed spec fn spec_tftp(&self) -> BaremetalTftpClient {
        self.tftp
    }

    pub closed spec fn spec_netif(&self) -> BaremetalNetIf {
        self.netif
    }

    /// Whether a data block was dropped or the server reported an error.
    pub closed spec fn spec_write_error(&self) -> bool {
        self.tftp_has_error
    }

    /// Whether the server reported an error.
    pub closed spec fn spec_server_done(&self) -> bool {
        self.tftp_complete
    }

    pub fn new() -> (r: Self)
        ensures
            r.wf(),
            !r.spec_initialized(),
            r.buffered() == Seq::<u8>::empty(),
            !r.spec_write_error(),
            !r.spec_server_done(),
            !r.spec_tftp().spec_initialized(),
            r.spec_tftp().spec_state() is None,
            !r.spec_netif().spec_initialized(),
            !r.spec_netif().spec_dhcp_started(),
    {
        let r = LwipState {
            netif: BaremetalNetIf::new(),
            tftp: BaremetalTftpClient::new(),
            initialized: false,
            chunk_buf: [0u8; 4096],
            chunk_buf_len: 0,
            tftp_complete: false,
            tftp_has_error: false,
        };
        assert(r.buffered() =~= Seq::<u8>::empty());
        r
    }

    /// Whether bringing the stack up needs lwIP at all: a second
    /// initialisation does nothing.
    pub fn init_needed(&self) -> (r: bool)
        ensures
            r == !self.spec_initialized(),
    {
        !self.initialized
    }

    /// lwIP was brought up and the interface added (`netif_ok`) or not.
    pub fn finish_init(&mut self, netif_ok: bool) -> (r: Result<(), NetworkError>)
        requires
            old(self).wf(),
        ensures
            final(self).spec_tftp() == old(self).spec_tftp(),
            final(self).wf(),
            r == (if netif_ok {
                Ok::<(), NetworkError>(())
            } else {
                Err(NetworkError::InitFailed)
            }),
            final(self).spec_initialized() == (old(self).spec_initialized() || netif_ok),
            netif_ok ==> final(self).spec_netif().spec_initialized(),
            final(self).buffered() == old(self).buffered(),
    {
        if !netif_ok {
            return Err(NetworkError::InitFailed);
        }
        self.netif.mark_initialized();
        self.initialized = true;
        Ok(())
    }

    /// Polling reaches the interface only once the stack is up.
    pub fn poll(&self) -> (r: bool)
        ensures
            r == self.spec_initialized(),
    {
        self.initialized
    }

    /// Takes the interface down if it is up; returns whether it was.
    pub fn shutdown(&mut self) -> (r: bool)
        requires
            old(self).wf(),
        ensures
            final(self).spec_tftp() == old(self).spec_tftp(),
            final(self).wf(),
            r == old(self).spec_initialized(),
            !final(self).spec_initialized(),
            r ==> !final(self).spec_netif().spec_initialized() && !final(self).spec_netif().spec_dhcp_started(),
            final(self).buffered() == old(self).buffered(),
    {
        if self.initialized {
            self.netif.shutdown();
            self.initialized = false;
            true
        } else {
            false
        }
    }

    /// Sets up the TFTP client; `accepted` is whether lwIP took it.
    pub fn init_tftp(&mut self, accepted: bool) -> (r: Result<(), NetworkError>)
        requires
            old(self).wf(),
        ensures
            final(self).spec_initialized() == old(self).spec_initialized(),
            final(self).spec_netif() == old(self).spec_netif(),
            final(self).wf(),
            r == (if accepted {
                Ok::<(), NetworkError>(())
            } else {
                Err(NetworkError::TftpInitFailed)
            }),
            final(self).spec_tftp().spec_state() == Some(fresh_transfer()),
            final(self).spec_tftp().spec_initialized() == (old(self).spec_tftp().spec_initialized() || accepted),
            final(self).buffered() == old(self).buffered(),
    {
        self.tftp.init(accepted);
        if accepted {
            Ok(())
        } else {
            Err(NetworkError::TftpInitFailed)
        }
    }

    /// Starts a GET for `filename` (NUL-terminated): the buffer is emptied
    /// and the flags cleared, then the client checks the request.
    pub fn start_tftp_get(&mut self, filename: &[u8]) -> (r: Result<(), NetworkError>)
        requires
            old(self).wf(),
        ensures
            final(self).spec_initialized() == old(self).spec_initialized(),
            final(self).spec_netif() == old(self).spec_netif(),
            final(self).wf(),
            final(self).buffered() == Seq::<u8>::empty(),
            !final(self).spec_write_error(),
            !final(self).spec_server_done(),
            r is Ok <==> old(self).spec_tftp().spec_initialized() && filename@.len() > 0 && filename@.last()
                == 0 && old(self).spec_tftp().spec_state() is Some,
            r is Err ==> r == Err::<(), NetworkError>(NetworkError::TftpGetFailed),
            r is Ok ==> final(self).spec_tftp().spec_state() == Some(fresh_transfer()),
            r is Err ==> final(self).spec_tftp().spec_state() == old(self).spec_tftp().spec_state(),
            final(self).spec_tftp().spec_initialized() == old(self).spec_tftp().spec_initialized(),
    {
        self.chunk_buf_len = 0;
        self.tftp_complete = false;
        self.tftp_has_error = false;
        assert(self.buffered() =~= Seq::<u8>::empty());
        match self.tftp.start_get(filename) {
            Ok(()) => Ok(()),
            Err(_) => Err(NetworkError::TftpGetFailed),
        }
    }

    /// lwIP refused the GET that the client opened: the transfer is closed.
    pub fn tftp_get_refused(&mut self) -> (r: NetworkError)
        requires
            old(self).wf(),
        ensures
            final(self).spec_initialized() == old(self).spec_initialized(),
            final(self).spec_netif() == old(self).spec_netif(),
            final(self).wf(),
            r == NetworkError::TftpGetFailed,
            final(self).spec_tftp().spec_state() == (match old(self).spec_tftp().spec_state() {
                Some(s) => Some(crate::lwip::TftpState { complete: true, ..s }),
                None => None,
            }),
            final(self).buffered() == old(self).buffered(),
    {
        self.tftp.get_refused();
        NetworkError::TftpGetFailed
    }

    pub fn tftp_is_complete(&self) -> (r: bool)
        ensures
            r == (self.spec_tftp().spec_state() matches Some(s) && s.complete),
    {
        self.tftp.is_complete()
    }

    pub fn tftp_has_error(&self) -> (r: bool)
        ensures
            r == (self.spec_tftp().spec_state() matches Some(s) && s.has_error),
    {
        self.tftp.has_error()
    }

    /// Stores a received data block; refuses it, and records the error,
    /// when it does not fit in what is left of the buffer.
    pub fn tftp_write_cb(&mut self, data: &[u8]) -> (r: bool)
        requires
            old(self).wf(),
        ensures
            final(self).spec_netif() == old(self).spec_netif(),
            final(self).wf(),
            r == (old(self).buffered().len() + data@.len() <= TFTP_CHUNK_BUF_SIZE),
            final(self).buffered() == buffer_after_write(old(self).buffered(), data@),
            final(self).spec_write_error() == (old(self).spec_write_error() || !r),
            final(self).spec_server_done() == old(self).spec_server_done(),
            final(self).spec_tftp() == old(self).spec_tftp(),
            final(self).spec_initialized() == old(self).spec_initialized(),
    {
        let buf_len = self.chunk_buf_len;
        let space = TFTP_CHUNK_BUF_SIZE - buf_len;
        if data.len() > space {
            self.tftp_has_error = true;
            return false;
        }
        let ghost old_buf = self.chunk_buf@;
        let ghost pre = *self;
        let mut i: usize = 0;
        while i < data.len()
            invariant
                self.tftp == pre.tftp,
                self.netif == pre.netif,
                self.initialized == pre.initialized,
                self.tftp_complete == pre.tftp_complete,
                self.tftp_has_error == pre.tftp_has_error,
                buf_len <= TFTP_CHUNK_BUF_SIZE,
                buf_len + data@.len() <= TFTP_CHUNK_BUF_SIZE,
                i <= data@.len(),
                self.chunk_buf@.len() == TFTP_CHUNK_BUF_SIZE,
                self.chunk_buf_len == buf_len,
                forall|k: int| 0 <= k < buf_len ==> self.chunk_buf@[k] == old_buf[k],
                forall|k: int| 0 <= k < i ==> self.chunk_buf@[buf_len + k] == data@[k],
            decreases data@.len() - i,
        {
            self.chunk_buf[buf_len + i] = data[i];
            i = i + 1;
        }
        self.chunk_buf_len = buf_len + data.len();
        assert(self.buffered() =~= old_buf.take(buf_len as int) + data@);
        true
    }

    /// The server reported an error: the transfer counts as over and failed.
    pub fn tftp_error_cb(&mut self)
        requires
            old(self).wf(),
        ensures
            final(self).spec_initialized() == old(self).spec_initialized(),
            final(self).spec_netif() == old(self).spec_netif(),
            final(self).wf(),
            final(self).spec_write_error(),
            final(self).spec_server_done(),
            final(self).buffered() == old(self).buffered(),
            final(self).spec_tftp() == old(self).spec_tftp(),
    {
        self.tftp_has_error = true;
        self.tftp_complete = true;
    }

    /// lwIP hands the client a data block: the block goes to the buffer,
    /// and the client counts it or, when the buffer refused it, fails the
    /// transfer. Returns lwIP's status (0 to go on, -1 to abort).
    pub fn deliver_block(&mut self, data: &[u8]) -> (status: i32)
        requires
            old(self).wf(),
            old(self).spec_tftp().spec_state() matches Some(s) ==> s.bytes_received + data@.len()
                <= usize::MAX,
        ensures
            final(self).spec_initialized() == old(self).spec_initialized(),
            final(self).spec_netif() == old(self).spec_netif(),
            final(self).wf(),
            old(self).spec_tftp().spec_state() is None ==> status == -1 && final(self).buffered()
                == old(self).buffered() && final(self).spec_tftp() == old(self).spec_tftp(),
            old(self).spec_tftp().spec_state() matches Some(s) ==> {
                let fits = old(self).buffered().len() + data@.len() <= TFTP_CHUNK_BUF_SIZE;
                &&& status == (if fits {
                    0i32
                } else {
                    -1i32
                })
                &&& final(self).buffered() == buffer_after_write(old(self).buffered(), data@)
                &&& final(self).spec_tftp().spec_state() == Some(
                    if fits {
                        crate::lwip::TftpState {
                            bytes_received: (s.bytes_received + data@.len()) as usize,
                            ..s
                        }
                    } else {
                        crate::lwip::TftpState { has_error: true, ..s }
                    },
                )
            },
    {
        if !self.tftp.has_state() {
            return -1;
        }
        let accepted = self.tftp_write_cb(data);
        self.tftp.on_write(accepted, data.len())
    }

    /// The server sent an error: the buffer side records it, then the client
    /// ends the transfer in error.
    pub fn deliver_error(&mut self)
        requires
            old(self).wf(),
        ensures
            final(self).spec_initialized() == old(self).spec_initialized(),
            final(self).spec_netif() == old(self).spec_netif(),
            final(self).wf(),
            old(self).spec_tftp().spec_state() is Some ==> final(self).spec_write_error()
                && final(self).spec_server_done(),
            final(self).spec_tftp().spec_state() == (match old(self).spec_tftp().spec_state() {
                Some(s) => Some(crate::lwip::TftpState { has_error: true, complete: true, ..s }),
                None => None,
            }),
            final(self).buffered() == old(self).buffered(),
    {
        if self.tftp.has_state() {
            self.tftp_error_cb();
        }
        self.tftp.on_error();
    }

    /// Whether a data block of `len` bytes can be counted without the
    /// client's byte count overflowing.
    pub fn tftp_block_fits(&self, len: usize) -> (r: bool)
        ensures
            r == (self.spec_tftp().spec_state() matches Some(t) ==> t.bytes_received + len
                <= usize::MAX),
    {
        if !self.tftp.has_state() {
            return true;
        }
        len <= usize::MAX - self.tftp.bytes_received()
    }

    /// lwIP closed the transfer.
    pub fn tftp_closed(&mut self)
        requires
            old(self).wf(),
        ensures
            final(self).wf(),
            final(self).spec_netif() == old(self).spec_netif(),
            final(self).spec_initialized() == old(self).spec_initialized(),
            final(self).buffered() == old(self).buffered(),
            final(self).spec_tftp().spec_initialized() == old(self).spec_tftp().spec_initialized(),
            final(self).spec_tftp().spec_state() == (match old(self).spec_tftp().spec_state() {
                Some(s) => Some(crate::lwip::TftpState { complete: true, ..s }),
                None => None,
            }),
    {
        self.tftp.on_close();
    }

    /// Moves the oldest buffered bytes, as many as fit, to the front of
    /// `out`; returns how many.
    pub fn take_tftp_chunk(&mut self, out: &mut [u8]) -> (n: usize)
        requires
            old(self).wf(),
        ensures
            final(self).spec_netif() == old(self).spec_netif(),
            final(self).wf(),
            n == (if old(self).buffered().len() < old(out)@.len() {
                old(self).buffered().len()
            } else {
                old(out)@.len()
            }),
            final(out)@ == old(self).buffered().take(n as int) + old(out)@.skip(n as int),
            final(self).buffered() == old(self).buffered().skip(n as int),
            final(self).spec_tftp() == old(self).spec_tftp(),
            final(self).spec_write_error() == old(self).spec_write_error(),
            final(self).spec_server_done() == old(self).spec_server_done(),
            final(self).spec_initialized() == old(self).spec_initialized(),
    {
        let buf_len = self.chunk_buf_len;
        let avail = if buf_len < out.len() {
            buf_len
        } else {
            out.len()
        };
        let ghost old_out = out@;
        let ghost old_buf = self.chunk_buf@;
        let ghost pre = *self;
        let mut i: usize = 0;
        while i < avail
            invariant
                self.tftp == pre.tftp,
                self.netif == pre.netif,
                self.initialized == pre.initialized,
                self.tftp_complete == pre.tftp_complete,
                self.tftp_has_error == pre.tftp_has_error,
                avail <= buf_len,
                buf_len <= TFTP_CHUNK_BUF_SIZE,
                avail <= old_out.len(),
                out@.len() == old_out.len(),
                self.chunk_buf@ == old_buf,
                old_buf.len() == TFTP_CHUNK_BUF_SIZE,
                i <= avail,
                forall|k: int| 0 <= k < i ==> out@[k] == old_buf[k],
                forall|k: int| i <= k < out@.len() ==> out@[k] == old_out[k],
            decreases avail - i,
        {
            out[i] = self.chunk_buf[i];
            i = i + 1;
        }
        let remaining = buf_len - avail;
        let mut j: usize = 0;
        while j < remaining
            invariant
                self.tftp == pre.tftp,
                self.netif == pre.netif,
                self.initialized == pre.initialized,
                self.tftp_complete == pre.tftp_complete,
                self.tftp_has_error == pre.tftp_has_error,
                avail + remaining == buf_len,
                buf_len <= TFTP_CHUNK_BUF_SIZE,
                self.chunk_buf@.len() == TFTP_CHUNK_BUF_SIZE,
                old_buf.len() == TFTP_CHUNK_BUF_SIZE,
                j <= remaining,
                forall|k: int| 0 <= k < j ==> self.chunk_buf@[k] == old_buf[avail + k],
                forall|k: int| j <= k < TFTP_CHUNK_BUF_SIZE ==> self.chunk_buf@[k] == old_buf[k],
            decreases remaining - j,
        {
            let b = self.chunk_buf[avail + j];
            self.chunk_buf[j] = b;
            j = j + 1;
        }
        self.chunk_buf_len = remaining;
        assert(out@ =~= old_buf.take(buf_len as int).take(avail as int) + old_out.skip(avail as int));
        assert(self.buffered() =~= old_buf.take(buf_len as int).skip(avail as int));
        avail
    }

    /// Drops what is buffered and clears the buffer's error and done flags,
    /// once the last chunk of an image has gone out.
    pub fn reset_tftp_state(&mut self)
        requires
            old(self).wf(),
        ensures
            final(self).wf(),
            final(self).buffered() == Seq::<u8>::empty(),
            !final(self).spec_write_error(),
            !final(self).spec_server_done(),
            final(self).spec_tftp() == old(self).spec_tftp(),
            final(self).spec_netif() == old(self).spec_netif(),
            final(self).spec_initialized() == old(self).spec_initialized(),
    {
        self.chunk_buf_len = 0;
        self.tftp_complete = false;
        self.tftp_has_error = false;
        assert(self.buffered() =~= Seq::<u8>::empty());
    }

    pub fn tftp_buffered_len(&self) -> (n: usize)
        requires
            self.wf(),
        ensures
            n == self.buffered().len(),
            n <= TFTP_CHUNK_BUF_SIZE,
    {
        self.chunk_buf_len
    }

    /// Releases the TFTP client and empties the buffer; returns whether
    /// lwIP's TFTP side must be torn down.
    pub fn cleanup_tftp(&mut self) -> (r: bool)
        requires
            old(self).wf(),
        ensures
            final(self).spec_initialized() == old(self).spec_initialized(),
            final(self).spec_netif() == old(self).spec_netif(),
            final(self).wf(),
            r == old(self).spec_tftp().spec_initialized(),
            !final(self).spec_tftp().spec_initialized(),
            r ==> final(self).spec_tftp().spec_state() is None,
            !r ==> final(self).spec_tftp().spec_state() == old(self).spec_tftp().spec_state(),
            final(self).buffered() == Seq::<u8>::empty(),
            !final(self).spec_write_error(),
            !final(self).spec_server_done(),
    {
        let r = self.tftp.cleanup();
        self.chunk_buf_len = 0;
        self.tftp_complete = false;
        self.tftp_has_error = false;
        assert(self.buffered() =~= Seq::<u8>::empty());
        r
    }
}

/// The data buffer is a queue: what successive takes hand out, put
/// together, is what the accepted writes put in, in the order they came,
/// and nothing else.
pub proof fn lemma_buffer_is_fifo(buf: Seq<u8>, data: Seq<u8>, n: int)
    requires
        buf.len() + data.len() <= TFTP_CHUNK_BUF_SIZE,
        0 <= n <= buf.len() + data.len(),
    ensures
        buffer_after_write(buf, data).take(n) + buffer_after_write(buf, data).skip(n) == buf
            + data,
        n <= buf.len() ==> buffer_after_write(buf, data).take(n) == buf.take(n),
        buffer_after_write(buf, data).skip(buf.len() as int) == data,
{
    assert(buffer_after_write(buf, data).take(n) + buffer_after_write(buf, data).skip(n) =~= buf
        + data);
    if n <= buf.len() {
        assert((buf + data).take(n) =~= buf.take(n));
    }
    assert((buf + data).skip(buf.len() as int) =~= data);
}

} // verus!
