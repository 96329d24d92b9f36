//! The Rust side of the bare-metal lwIP platform layer: address types, the parsing
//! of DHCPv6 boot-file URLs and IPv6 addresses, boot-file names, IPv6
//! address-slot selection, and the state of the bare-metal TFTP client.

use vstd::prelude::*;
use crate::toc::{lemma_nul_len, nul_len, nul_terminated_len};

verus! {

broadcast use {vstd::seq::group_seq_axioms, vstd::slice::group_slice_axioms, vstd::array::group_array_axioms};

/// An IPv4 address in network byte order, as lwIP stores it.
#[derive(Debug, Clone, Copy, PartialEq, Eq, Structural)]
pub struct Ipv4Addr(pub u32);

/// An IPv6 address as eight 16-bit segments.
#[derive(Debug, Clone, Copy)]
pub struct Ipv6Addr {
    pub segments: [u16; 8],
}

impl Ipv6Addr {
    pub fn new(segments: [u16; 8]) -> (r: Self)
        ensures
            r.segments == segments,
    {
        Ipv6Addr { segments }
    }

    /// Whether the address lies in `fe80::/10`.
    pub fn is_link_local(&self) -> (r: bool)
        ensures
            r == (self.segments@[0] & 0xffc0 == 0xfe80),
    {
        self.segments[0] & 0xffc0 == 0xfe80
    }
}

/// Errors of the bare-metal interface and TFTP client.
#[derive(Debug, Clone, Copy, PartialEq, Eq, Structural)]
pub enum LwipError {
    AlreadyConnected,
    NotConnected,
    IllegalArgument,
    OutOfMemory,
}

/// Value of a hexadecimal digit, if the byte is one.
pub open spec fn hex_digit(b: u8) -> Option<u8> {
    if 0x30 <= b <= 0x39 {
        Some((b - 0x30) as u8)
    } else if 0x61 <= b <= 0x66 {
        Some((b - 0x61 + 10) as u8)
    } else if 0x41 <= b <= 0x46 {
        Some((b - 0x41 + 10) as u8)
    } else {
        None
    }
}

/// State of a left-to-right scan of colon-separated hex segments: the
/// segments closed so far, the value of the open segment and whether it has
/// a digit. `None` once the text is invalid: a byte that is neither a digit
/// nor `:`, a segment whose value does not fit in 16 bits, a `:` that closes
/// no digits, or more than `cap` segments.
pub open spec fn hex_scan(s: Seq<u8>, cap: int) -> Option<(Seq<u16>, u16, bool)>
    decreases s.len(),
{
    if s.len() == 0 {
        Some((Seq::empty(), 0u16, false))
    } else {
        match hex_scan(s.drop_last(), cap) {
            None => None,
            Some((segs, val, has_digit)) => {
                let b = s.last();
                if b == 0x3a {
                    if !has_digit || segs.len() >= cap {
                        None
                    } else {
                        Some((segs.push(val), 0u16, false))
                    }
                } else {
                    match hex_digit(b) {
                        None => None,
                        Some(d) => if val > 0x0fff {
                            None
                        } else {
                            Some((segs, (val * 16 + d) as u16, true))
                        },
                    }
                }
            },
        }
    }
}

/// The segments of a colon-separated hex list of at most `cap` segments.
/// A trailing `:` is accepted; an empty list gives no segments.
pub open spec fn hex_segments(s: Seq<u8>, cap: int) -> Option<Seq<u16>> {
    match hex_scan(s, cap) {
        None => None,
        Some((segs, val, has_digit)) => if !has_digit {
            Some(segs)
        } else if segs.len() >= cap {
            None
        } else {
            Some(segs.push(val))
        },
    }
}

proof fn lemma_hex_scan_bound(s: Seq<u8>, cap: int)
    requires
        hex_scan(s, cap) is Some,
        cap >= 0,
    ensures
        hex_scan(s, cap).unwrap().0.len() <= cap,
    decreases s.len(),
{
    if s.len() > 0 {
        lemma_hex_scan_bound(s.drop_last(), cap);
    }
}

proof fn lemma_hex_scan_none_stays(s: Seq<u8>, cap: int, i: int)
    requires
        0 <= i <= s.len(),
        hex_scan(s.take(i), cap) is None,
    ensures
        hex_scan(s, cap) is None,
    decreases s.len() - i,
{
    if i < s.len() {
        assert(s.take(i + 1).drop_last() =~= s.take(i));
        lemma_hex_scan_none_stays(s, cap, i + 1);
    } else {
        assert(s.take(i) =~= s);
    }
}

pub(crate) fn hex_digit_value(b: u8) -> (r: Option<u8>)
    ensures
        r == hex_digit(b),
{
    if 0x30 <= b && b <= 0x39 {
        Some(b - 0x30)
    } else if 0x61 <= b && b <= 0x66 {
        Some(b - 0x61 + 10)
    } else if 0x41 <= b && b <= 0x46 {
        Some(b - 0x41 + 10)
    } else {
        None
    }
}

/// Parses colon-separated hex segments into `out` from index `start` on and
/// returns how many were parsed; `None` for text that is not such a list,
/// among it a segment whose value does not fit in 16 bits.
pub fn parse_hex_segments(s: &[u8], out: &mut [u16; 8], start: usize) -> (r: Option<usize>)
    requires
        start <= 8,
    ensures
        r == (match hex_segments(s@, 8 - start) {
            Some(segs) => Some(segs.len() as usize),
            None => None::<usize>,
        }),
        forall|k: int| 0 <= k < start ==> final(out)@[k] == old(out)@[k],
        r matches Some(n) ==> forall|k: int|
            start <= k < start + n ==> final(out)@[k] == hex_segments(s@, 8 - start).unwrap()[k
                - start],
        r matches Some(n) ==> forall|k: int| start + n <= k < 8 ==> final(out)@[k] == old(out)@[k],
{
    let ghost cap: int = 8 - start;
    let mut idx = start;
    let mut val: u16 = 0;
    let mut has_digit = false;
    let ghost mut segs: Seq<u16> = Seq::empty();
    let mut i: usize = 0;
    assert(s@.take(0) =~= Seq::<u8>::empty());
    while i < s.len()
        invariant
            start <= 8,
            cap == 8 - start,
            i <= s@.len(),
            hex_scan(s@.take(i as int), cap) == Some((segs, val, has_digit)),
            idx == start + segs.len(),
            segs.len() <= cap,
            out@.len() == 8,
            forall|k: int| start <= k < idx ==> out@[k] == segs[k - start],
            forall|k: int| 0 <= k < start ==> out@[k] == old(out)@[k],
            forall|k: int| idx <= k < 8 ==> out@[k] == old(out)@[k],
        decreases s@.len() - i,
    {
        let b = s[i];
        proof {
            assert(s@.take(i + 1).drop_last() =~= s@.take(i as int));
            assert(s@.take(i + 1).last() == b);
        }
        if b == 0x3a {
            if !has_digit || idx >= 8 {
                proof {
                    lemma_hex_scan_none_stays(s@, cap, i + 1);
                }
                return None;
            }
            out[idx] = val;
            idx = idx + 1;
            proof {
                segs = segs.push(val);
            }
            val = 0;
            has_digit = false;
        } else {
            let digit = match hex_digit_value(b) {
                Some(d) => d,
                None => {
                    proof {
                        lemma_hex_scan_none_stays(s@, cap, i + 1);
                    }
                    return None;
                },
            };
            if val > 0x0fff {
                proof {
                    lemma_hex_scan_none_stays(s@, cap, i + 1);
                }
                return None;
            }
            val = val * 16 + digit as u16;
            has_digit = true;
        }
        i = i + 1;
    }
    proof {
        assert(s@.take(s@.len() as int) =~= s@);
    }
    if has_digit {
        if idx >= 8 {
            return None;
        }
        out[idx] = val;
        idx = idx + 1;
        proof {
            segs = segs.push(val);
        }
    }
    Some(idx - start)
}

/// Index of the first `::` at or after `i`.
pub open spec fn double_colon_from(s: Seq<u8>, i: int) -> Option<int>
    decreases s.len() - i,
{
    if i < 0 || i + 1 >= s.len() {
        None
    } else if s[i] == 0x3a && s[i + 1] == 0x3a {
        Some(i)
    } else {
        double_colon_from(s, i + 1)
    }
}

/// `n` zero segments.
pub open spec fn zero_segments(n: int) -> Seq<u16> {
    Seq::new(n as nat, |k: int| 0u16)
}

/// The eight segments of a textual IPv6 address, with `::` standing for
/// the zero segments that the two sides leave out.
pub open spec fn ipv6_segments(s: Seq<u8>) -> Option<Seq<u16>> {
    match double_colon_from(s, 0) {
        Some(dc) => {
            let left = s.take(dc);
            let right = s.skip(dc + 2);
            let l = if left.len() == 0 {
                Some(Seq::<u16>::empty())
            } else {
                hex_segments(left, 8)
            };
            match l {
                None => None,
                Some(ls) => if right.len() == 0 {
                    Some(ls + zero_segments(8 - ls.len()))
                } else {
                    match hex_segments(right, 8) {
                        None => None,
                        Some(rs) => if ls.len() + rs.len() > 8 {
                            None
                        } else {
                            Some(ls + zero_segments(8 - ls.len() - rs.len()) + rs)
                        },
                    }
                },
            }
        },
        None => match hex_segments(s, 8) {
            Some(segs) => if segs.len() == 8 {
                Some(segs)
            } else {
                None
            },
            None => None,
        },
    }
}

proof fn lemma_double_colon_from_bounds(s: Seq<u8>, j: int)
    ensures
        double_colon_from(s, j) matches Some(i) ==> j <= i && i + 1 < s.len() && s[i] == 0x3a
            && s[i + 1] == 0x3a,
    decreases s.len() - j,
{
    if !(j < 0 || j + 1 >= s.len()) && !(s[j] == 0x3a && s[j + 1] == 0x3a) {
        lemma_double_colon_from_bounds(s, j + 1);
    }
}

pub(crate) fn find_double_colon(s: &[u8]) -> (r: Option<usize>)
    ensures
        match double_colon_from(s@, 0) {
            Some(i) => r == Some(i as usize),
            None => r is None,
        },
        r matches Some(i) ==> i + 1 < s@.len() && double_colon_from(s@, 0) == Some(i as int),
{
    proof {
        lemma_double_colon_from_bounds(s@, 0);
    }
    let mut i: usize = 0;
    while s.len() >= 2 && i < s.len() - 1
        invariant
            i <= s@.len(),
            double_colon_from(s@, 0) == double_colon_from(s@, i as int),
        decreases s@.len() - i,
    {
        if s[i] == 0x3a && s[i + 1] == 0x3a {
            return Some(i);
        }
        i = i + 1;
    }
    None
}

/// Parses a textual IPv6 address such as `fd00:1234:5678::1`.
pub fn parse_ipv6_addr_bytes(s: &[u8]) -> (r: Option<Ipv6Addr>)
    ensures
        r is Some <==> ipv6_segments(s@) is Some,
        r matches Some(a) ==> a.segments@ == ipv6_segments(s@).unwrap(),
{
    let mut segments = [0u16; 8];
    assert(segments@ =~= zero_segments(8));
    match find_double_colon(s) {
        Some(dc_pos) => {
            assert(dc_pos + 2 <= s.len());
            assert(double_colon_from(s@, 0) == Some(dc_pos as int));
            let left = vstd::slice::slice_subrange(s, 0, dc_pos);
            let right = vstd::slice::slice_subrange(s, dc_pos + 2, s.len());
            assert(left@ =~= s@.take(dc_pos as int));
            assert(right@ =~= s@.skip(dc_pos + 2));
            let left_count = if left.len() == 0 {
                0
            } else {
                match parse_hex_segments(left, &mut segments, 0) {
                    Some(n) => n,
                    None => return None,
                }
            };
            let ghost ls: Seq<u16> = if left@.len() == 0 {
                Seq::empty()
            } else {
                hex_segments(left@, 8).unwrap()
            };
            assert(segments@ =~= ls + zero_segments(8 - ls.len()));
            if right.len() == 0 {
                assert(left@.len() == 0 ==> ls.len() == 0);
                assert(ipv6_segments(s@) == Some(ls + zero_segments(8 - ls.len())));
                return Some(Ipv6Addr::new(segments));
            }
            let mut right_segs = [0u16; 8];
            let right_count = match parse_hex_segments(right, &mut right_segs, 0) {
                Some(n) => n,
                None => return None,
            };
            if left_count + right_count > 8 {
                return None;
            }
            let ghost rs = hex_segments(right@, 8).unwrap();
            let right_start = 8 - right_count;
            let mut k: usize = 0;
            while k < right_count
                invariant
                    right_count == rs.len(),
                    left_count == ls.len(),
                    left_count + right_count <= 8,
                    right_start == 8 - right_count,
                    k <= right_count,
                    segments@.len() == 8,
                    forall|j: int| 0 <= j < right_count ==> right_segs@[j] == rs[j],
                    forall|j: int| 0 <= j < right_start ==> segments@[j] == (ls + zero_segments(8 - ls.len()))[j],
                    forall|j: int| 0 <= j < k ==> segments@[right_start + j] == rs[j],
                    forall|j: int| right_start + k <= j < 8 ==> segments@[j] == 0,
                decreases right_count - k,
            {
                segments[right_start + k] = right_segs[k];
                k = k + 1;
            }
            assert(segments@ =~= ls + zero_segments(8 - ls.len() - rs.len()) + rs);
            Some(Ipv6Addr::new(segments))
        },
        None => {
            let count = match parse_hex_segments(s, &mut segments, 0) {
                Some(n) => n,
                None => return None,
            };
            if count != 8 {
                return None;
            }
            assert(segments@ =~= hex_segments(s@, 8).unwrap());
            Some(Ipv6Addr::new(segments))
        },
    }
}

/// The bytes `tftp://[` that open a DHCPv6 boot-file URL.
pub open spec fn tftp_url_prefix() -> Seq<u8> {
    seq![0x74u8, 0x66, 0x74, 0x70, 0x3a, 0x2f, 0x2f, 0x5b]
}

/// Index of the first `b` at or after `i`.
pub open spec fn index_of_from(s: Seq<u8>, b: u8, i: int) -> Option<int>
    decreases s.len() - i,
{
    if i < 0 || i >= s.len() {
        None
    } else if s[i] == b {
        Some(i)
    } else {
        index_of_from(s, b, i + 1)
    }
}

proof fn lemma_index_of_from_bounds(s: Seq<u8>, b: u8, j: int)
    ensures
        index_of_from(s, b, j) matches Some(i) ==> j <= i < s.len() && s[i] == b,
    decreases s.len() - j,
{
    if !(j < 0 || j >= s.len()) && s[j] != b {
        lemma_index_of_from_bounds(s, b, j + 1);
    }
}

/// Server address and file path of a boot-file URL `tftp://[addr]/path`;
/// the `/` before the path is dropped when it is there.
pub open spec fn boot_url_parts(url: Seq<u8>) -> Option<(Seq<u16>, Seq<u8>)> {
    if url.len() < 8 || url.take(8) != tftp_url_prefix() {
        None
    } else {
        let rest = url.skip(8);
        match index_of_from(rest, 0x5d, 0) {
            None => None,
            Some(be) => {
                let after = rest.skip(be + 1);
                match ipv6_segments(rest.take(be)) {
                    None => None,
                    Some(addr) => Some(
                        (
                            addr,
                            if after.len() > 0 && after[0] == 0x2f {
                                after.skip(1)
                            } else {
                                after
                            },
                        ),
                    ),
                }
            },
        }
    }
}

pub(crate) fn find_byte(s: &[u8], b: u8) -> (r: Option<usize>)
    ensures
        match index_of_from(s@, b, 0) {
            Some(i) => r == Some(i as usize),
            None => r is None,
        },
        r matches Some(i) ==> i < s@.len() && s@[i as int] == b && index_of_from(s@, b, 0) == Some(
            i as int,
        ),
{
    proof {
        lemma_index_of_from_bounds(s@, b, 0);
    }
    let mut i: usize = 0;
    while i < s.len()
        invariant
            i <= s@.len(),
            index_of_from(s@, b, 0) == index_of_from(s@, b, i as int),
        decreases s@.len() - i,
    {
        if s[i] == b {
            return Some(i);
        }
        i = i + 1;
    }
    None
}

/// Splits a DHCPv6 boot-file URL (`tftp://[<ipv6-addr>]/<path>`) into the
/// server address and the path.
pub fn parse_boot_file_url(url: &[u8]) -> (r: Option<(Ipv6Addr, &[u8])>)
    ensures
        r is Some <==> boot_url_parts(url@) is Some,
        r matches Some((a, p)) ==> a.segments@ == boot_url_parts(url@).unwrap().0 && p@
            == boot_url_parts(url@).unwrap().1,
{
    let prefix: [u8; 8] = [0x74, 0x66, 0x74, 0x70, 0x3a, 0x2f, 0x2f, 0x5b];
    assert(prefix@ =~= tftp_url_prefix());
    if url.len() < 8 {
        return None;
    }
    let mut i: usize = 0;
    while i < 8
        invariant
            i <= 8,
            url@.len() >= 8,
            prefix@ == tftp_url_prefix(),
            forall|k: int| 0 <= k < i ==> url@[k] == prefix@[k],
        decreases 8 - i,
    {
        if url[i] != prefix[i] {
            assert(url@.take(8)[i as int] != tftp_url_prefix()[i as int]);
            return None;
        }
        i = i + 1;
    }
    assert(url@.take(8) =~= tftp_url_prefix());
    let rest = vstd::slice::slice_subrange(url, 8, url.len());
    assert(rest@ =~= url@.skip(8));
    let bracket_end = match find_byte(rest, 0x5d) {
        Some(b) => b,
        None => return None,
    };
    let addr_bytes = vstd::slice::slice_subrange(rest, 0, bracket_end);
    let after = vstd::slice::slice_subrange(rest, bracket_end + 1, rest.len());
    assert(addr_bytes@ =~= rest@.take(bracket_end as int));
    assert(after@ =~= rest@.skip(bracket_end + 1));
    let server_addr = match parse_ipv6_addr_bytes(addr_bytes) {
        Some(a) => a,
        None => return None,
    };
    let path = if after.len() > 0 && after[0] == 0x2f {
        let p = vstd::slice::slice_subrange(after, 1, after.len());
        assert(p@ =~= after@.skip(1));
        p
    } else {
        after
    };
    Some((server_addr, path))
}

/// The boot-file name of a DHCP reply: the bytes before the first NUL of
/// the fixed-size name field.
pub fn dhcp_boot_file_name(name: &[u8]) -> (r: &[u8])
    ensures
        r@ == name@.take(nul_len(name@)),
{
    let n = nul_terminated_len(name);
    proof {
        lemma_nul_len(name@);
    }
    vstd::slice::slice_subrange(name, 0, n)
}

/// lwIP's state value from which an IPv6 address counts as usable.
pub const IP6_ADDR_PREFERRED: u8 = 0x30;

/// Whether one of the global address slots (1 and 2; slot 0 holds the
/// link-local address) has reached the preferred state.
pub fn has_global_ipv6_address(states: &[u8; 3]) -> (r: bool)
    ensures
        r == (states@[1] >= IP6_ADDR_PREFERRED || states@[2] >= IP6_ADDR_PREFERRED),
{
    states[1] >= IP6_ADDR_PREFERRED || states[2] >= IP6_ADDR_PREFERRED
}

/// The slot of the first preferred global address; slot 1 when none is.
pub fn global_ipv6_addr_index(states: &[u8; 3]) -> (r: usize)
    ensures
        r == (if states@[1] >= IP6_ADDR_PREFERRED {
            1usize
        } else if states@[2] >= IP6_ADDR_PREFERRED {
            2usize
        } else {
            1usize
        }),
{
    if states[1] >= IP6_ADDR_PREFERRED {
        1
    } else if states[2] >= IP6_ADDR_PREFERRED {
        2
    } else {
        1
    }
}

/// Whether a slot holds a valid address outside `fe80::/10`.
pub open spec fn is_global_slot(slot: Option<Ipv6Addr>) -> bool {
    slot matches Some(a) && a.segments@[0] & 0xffc0 != 0xfe80
}

/// The first valid non-link-local address among slots 1 and up (slot 0
/// holds the link-local address); `None` marks an invalid slot.
pub fn first_global_address(slots: &[Option<Ipv6Addr>]) -> (r: Option<Ipv6Addr>)
    ensures
        match r {
            Some(a) => exists|i: int|
                1 <= i < slots@.len() && slots@[i] == Some(a) && is_global_slot(slots@[i])
                    && forall|j: int| 1 <= j < i ==> !is_global_slot(#[trigger] slots@[j]),
            None => forall|j: int| 1 <= j < slots@.len() ==> !is_global_slot(#[trigger] slots@[j]),
        },
{
    let mut i: usize = 1;
    while i < slots.len()
        invariant
            1 <= i,
            i <= slots@.len() || slots@.len() == 0,
            forall|j: int| 1 <= j < i && j < slots@.len() ==> !is_global_slot(#[trigger] slots@[j]),
        decreases slots@.len() - i,
    {
        if let Some(a) = slots[i] {
            if !a.is_link_local() {
                return Some(a);
            }
        }
        i = i + 1;
    }
    None
}

/// Progress of one TFTP transfer, as the client's callbacks record it.
#[derive(Debug, Clone, Copy, PartialEq, Eq, Structural)]
pub struct TftpState {
    pub bytes_received: usize,
    pub has_error: bool,
    pub complete: bool,
}

/// The bare-metal TFTP client: whether lwIP accepted its callbacks, and the
/// progress of the transfer once it has been set up.
pub struct BaremetalTftpClient {
    initialized: bool,
    state: Option<TftpState>,
}

/// A transfer record with nothing received and nothing gone wrong.
pub open spec fn fresh_transfer() -> TftpState {
    TftpState { bytes_received: 0, has_error: false, complete: false }
}

impl BaremetalTftpClient {
    pub closed spec fn spec_initialized(&self) -> bool {
        self.initialized
    }

    pub closed spec fn spec_state(&self) -> Option<TftpState> {
        self.state
    }

    pub fn new() -> (r: Self)
        ensures
            !r.spec_initialized(),
            r.spec_state() is None,
    {
        BaremetalTftpClient { initialized: false, state: None }
    }

    /// Sets up a fresh transfer record; `accepted` is whether lwIP took the
    /// client's callbacks, and only then is the client ready for a GET.
    pub fn init(&mut self, accepted: bool)
        ensures
            final(self).spec_state() == Some(fresh_transfer()),
            final(self).spec_initialized() == (old(self).spec_initialized() || accepted),
    {
        self.state = Some(TftpState { bytes_received: 0, has_error: false, complete: false });
        if accepted {
            self.initialized = true;
        }
    }

    /// Checks a GET request and opens the transfer: fails when the client
    /// is not ready, when `filename` is not NUL-terminated, or when there is
    /// no transfer record; otherwise the transfer starts afresh.
    pub fn start_get(&mut self, filename: &[u8]) -> (r: Result<(), LwipError>)
        ensures
            !old(self).spec_initialized() ==> r == Err::<(), LwipError>(LwipError::NotConnected),
            old(self).spec_initialized() && (filename@.len() == 0 || filename@.last() != 0) ==> r
                == Err::<(), LwipError>(LwipError::IllegalArgument),
            old(self).spec_initialized() && filename@.len() > 0 && filename@.last() == 0 ==> r == (
            if old(self).spec_state() is Some {
                Ok::<(), LwipError>(())
            } else {
                Err(LwipError::OutOfMemory)
            }),
            final(self).spec_initialized() == old(self).spec_initialized(),
            r is Ok ==> final(self).spec_state() == Some(fresh_transfer()),
            r is Err ==> final(self).spec_state() == old(self).spec_state(),
    {
        if !self.initialized {
            return Err(LwipError::NotConnected);
        }
        if filename.len() == 0 || filename[filename.len() - 1] != 0 {
            return Err(LwipError::IllegalArgument);
        }
        if self.state.is_none() {
            return Err(LwipError::OutOfMemory);
        }
        self.state = Some(TftpState { bytes_received: 0, has_error: false, complete: false });
        Ok(())
    }

    /// lwIP refused to start the GET: the transfer is closed.
    pub fn get_refused(&mut self)
        ensures
            final(self).spec_initialized() == old(self).spec_initialized(),
            final(self).spec_state() == (match old(self).spec_state() {
                Some(s) => Some(TftpState { complete: true, ..s }),
                None => None,
            }),
    {
        self.on_close();
    }

    /// A data block of `len` bytes arrived and the consumer took it
    /// (`accepted`) or refused it. Returns lwIP's status: 0 to go on, -1 to
    /// abort.
    pub fn on_write(&mut self, accepted: bool, len: usize) -> (status: i32)
        requires
            old(self).spec_state() matches Some(s) ==> s.bytes_received + len <= usize::MAX,
        ensures
            final(self).spec_initialized() == old(self).spec_initialized(),
            status == (if old(self).spec_state() is Some && accepted { 0i32 } else { -1i32 }),
            final(self).spec_state() == (match old(self).spec_state() {
                Some(s) => if accepted {
                    Some(TftpState { bytes_received: (s.bytes_received + len) as usize, ..s })
                } else {
                    Some(TftpState { has_error: true, ..s })
                },
                None => None,
            }),
    {
        match self.state {
            Some(s) => {
                if !accepted {
                    self.state = Some(TftpState { has_error: true, ..s });
                    return -1;
                }
                self.state = Some(TftpState { bytes_received: s.bytes_received + len, ..s });
                0
            },
            None => -1,
        }
    }

    /// The server reported an error: the transfer ends in error.
    pub fn on_error(&mut self)
        ensures
            final(self).spec_initialized() == old(self).spec_initialized(),
            final(self).spec_state() == (match old(self).spec_state() {
                Some(s) => Some(TftpState { has_error: true, complete: true, ..s }),
                None => None,
            }),
    {
        if let Some(s) = self.state {
            self.state = Some(TftpState { has_error: true, complete: true, ..s });
        }
    }

    /// lwIP closed the transfer.
    pub fn on_close(&mut self)
        ensures
            final(self).spec_initialized() == old(self).spec_initialized(),
            final(self).spec_state() == (match old(self).spec_state() {
                Some(s) => Some(TftpState { complete: true, ..s }),
                None => None,
            }),
    {
        if let Some(s) = self.state {
            self.state = Some(TftpState { complete: true, ..s });
        }
    }

    /// Whether a transfer record has been set up.
    pub fn has_state(&self) -> (r: bool)
        ensures
            r == self.spec_state() is Some,
    {
        self.state.is_some()
    }

    pub fn is_complete(&self) -> (r: bool)
        ensures
            r == (self.spec_state() matches Some(s) && s.complete),
    {
        match self.state {
            Some(s) => s.complete,
            None => false,
        }
    }

    pub fn has_error(&self) -> (r: bool)
        ensures
            r == (self.spec_state() matches Some(s) && s.has_error),
    {
        match self.state {
            Some(s) => s.has_error,
            None => false,
        }
    }

    pub fn bytes_received(&self) -> (r: usize)
        ensures
            r == (match self.spec_state() {
                Some(s) => s.bytes_received,
                None => 0,
            }),
    {
        match self.state {
            Some(s) => s.bytes_received,
            None => 0,
        }
    }

    /// Releases the client; returns whether lwIP's side must be torn down.
    pub fn cleanup(&mut self) -> (r: bool)
        ensures
            r == old(self).spec_initialized(),
            !final(self).spec_initialized(),
            r ==> final(self).spec_state() is None,
            !r ==> final(self).spec_state() == old(self).spec_state(),
    {
        if self.initialized {
            self.state = None;
            self.initialized = false;
            true
        } else {
            false
        }
    }
}

/// The Rust-side state of the bare-metal network interface.
pub struct BaremetalNetIf {
    initialized: bool,
    dhcp_started: bool,
}

impl BaremetalNetIf {
    pub closed spec fn spec_initialized(&self) -> bool {
        self.initialized
    }

    pub closed spec fn spec_dhcp_started(&self) -> bool {
        self.dhcp_started
    }

    pub fn new() -> (r: Self)
        ensures
            !r.spec_initialized(),
            !r.spec_dhcp_started(),
    {
        BaremetalNetIf { initialized: false, dhcp_started: false }
    }

    /// An interface can be brought up once.
    pub fn check_init(&self) -> (r: Result<(), LwipError>)
        ensures
            r == (if self.spec_initialized() {
                Err(LwipError::AlreadyConnected)
            } else {
                Ok::<(), LwipError>(())
            }),
    {
        if self.initialized {
            Err(LwipError::AlreadyConnected)
        } else {
            Ok(())
        }
    }

    /// lwIP added the interface.
    pub fn mark_initialized(&mut self)
        ensures
            final(self).spec_initialized(),
            final(self).spec_dhcp_started() == old(self).spec_dhcp_started(),
    {
        self.initialized = true;
    }

    /// Whether starting DHCP needs lwIP at all: a second start does nothing.
    pub fn dhcp_start_needed(&self) -> (r: bool)
        ensures
            r == !self.spec_dhcp_started(),
    {
        !self.dhcp_started
    }

    /// lwIP started its DHCP client.
    pub fn mark_dhcp_started(&mut self)
        ensures
            final(self).spec_dhcp_started(),
            final(self).spec_initialized() == old(self).spec_initialized(),
    {
        self.dhcp_started = true;
    }

    /// DHCP has an address only once it was started and lwIP says so.
    pub fn dhcp_has_address(&self, supplied: bool) -> (r: bool)
        ensures
            r == (self.spec_dhcp_started() && supplied),
    {
        self.dhcp_started && supplied
    }

    /// Splits the DHCPv6 boot-file URL that lwIP received.
    pub fn dhcp6_parse_boot_file_url<'a>(&self, url: &'a [u8]) -> (r: Option<(Ipv6Addr, &'a [u8])>)
        ensures
            r is Some <==> boot_url_parts(url@) is Some,
            r matches Some((a, p)) ==> a.segments@ == boot_url_parts(url@).unwrap().0 && p@
                == boot_url_parts(url@).unwrap().1,
    {
        parse_boot_file_url(url)
    }

    /// Takes the interface down; returns whether DHCP has to be stopped.
    pub fn shutdown(&mut self) -> (stop_dhcp: bool)
        ensures
            stop_dhcp == old(self).spec_dhcp_started(),
            !final(self).spec_initialized(),
            !final(self).spec_dhcp_started(),
    {
        let was = self.dhcp_started;
        self.dhcp_started = false;
        self.initialized = false;
        was
    }
}

} // verus!
