//! The stateful DHCPv6 client: selection of the global address it obtained,
//! and the parsing of the boot-file URL of Option 59 as text.

use vstd::prelude::*;
use vstd::string::StringSliceAdditionalSpecFns;
use vstd::utf8::{is_char_boundary, length_of_first_scalar, pop_first_scalar, valid_utf8};
use crate::lwip::{
    Ipv6Addr, double_colon_from, first_global_address, index_of_from, is_global_slot,
    tftp_url_prefix, zero_segments,
};

verus! {

broadcast use {vstd::seq::group_seq_axioms, vstd::slice::group_slice_axioms, vstd::array::group_array_axioms};

/// Value of hexadecimal digits, most significant first.
pub open spec fn hex_value(d: Seq<u8>) -> int
    decreases d.len(),
{
    if d.len() == 0 {
        0
    } else {
        hex_value(d.drop_last()) * 16 + crate::lwip::hex_digit(d.last()).unwrap()
    }
}

/// The value of hexadecimal digits is never negative.
proof fn lemma_hex_value_nonneg(d: Seq<u8>)
    requires
        all_hex(d),
    ensures
        hex_value(d) >= 0,
    decreases d.len(),
{
    if d.len() > 0 {
        assert(all_hex(d.drop_last()));
        lemma_hex_value_nonneg(d.drop_last());
        assert(crate::lwip::hex_digit(d[d.len() - 1]) is Some);
    }
}

/// A run of hexadecimal digits is read as the number it writes: its scan
/// holds that number as the open segment while it fits in 16 bits, and
/// fails once it does not.
proof fn lemma_scan_digits(d: Seq<u8>, cap: int)
    requires
        d.len() > 0,
        all_hex(d),
    ensures
        hex_value(d) <= 0xffff ==> crate::lwip::hex_scan(d, cap) == Some(
            (Seq::<u16>::empty(), hex_value(d) as u16, true),
        ),
        hex_value(d) > 0xffff ==> crate::lwip::hex_scan(d, cap) is None,
    decreases d.len(),
{
    let p = d.drop_last();
    let b = d.last();
    assert(crate::lwip::hex_digit(d[d.len() - 1]) is Some);
    assert(b == d[d.len() - 1]);
    let x = crate::lwip::hex_digit(b).unwrap();
    assert(x < 16);
    assert(b != 0x3a);
    assert(all_hex(p));
    lemma_hex_value_nonneg(p);
    if p.len() > 0 {
        lemma_scan_digits(p, cap);
    } else {
        assert(crate::lwip::hex_scan(p, cap) == Some((Seq::<u16>::empty(), 0u16, false)));
    }
}

/// A segment is read the same way by the byte parser and the text parser:
/// for a non-empty run of hexadecimal digits, the byte parser's one
/// segment and `u16::from_str_radix`'s value are both the number the
/// digits write when it fits in 16 bits, and both refuse it otherwise.
pub proof fn lemma_segment_value(d: Seq<u8>, cap: int)
    requires
        d.len() > 0,
        all_hex(d),
        cap >= 1,
    ensures
        hex_value(d) <= 0xffff ==> crate::lwip::hex_segments(d, cap) == Some(seq![hex_value(d) as u16])
            && radix16(d) == Some(hex_value(d) as u16),
        hex_value(d) > 0xffff ==> crate::lwip::hex_segments(d, cap) is None && radix16(d) is None,
{
    lemma_scan_digits(d, cap);
    assert(crate::lwip::hex_digit(d[0]) is Some);
    assert(d[0] != 0x2b);
    if hex_value(d) <= 0xffff {
        assert(Seq::<u16>::empty().push(hex_value(d) as u16) =~= seq![hex_value(d) as u16]);
    }
}

/// Every byte is a hexadecimal digit.
pub open spec fn all_hex(d: Seq<u8>) -> bool {
    forall|i: int| 0 <= i < d.len() ==> crate::lwip::hex_digit(#[trigger] d[i]) is Some
}

/// A 16-bit number written in hexadecimal, as `u16::from_str_radix` reads
/// it: an optional `+`, then at least one digit, and a value that fits.
pub open spec fn radix16(p: Seq<u8>) -> Option<u16> {
    let digits = if p.len() > 0 && p[0] == 0x2b {
        p.skip(1)
    } else {
        p
    };
    if digits.len() == 0 || !all_hex(digits) || hex_value(digits) > 0xffff {
        None
    } else {
        Some(hex_value(digits) as u16)
    }
}

/// The pieces of `s` between colons (one piece when there is none).
pub open spec fn colon_parts(s: Seq<u8>) -> Seq<Seq<u8>>
    decreases s.len(),
{
    match index_of_from(s, 0x3a, 0) {
        None => seq![s],
        Some(i) => if 0 <= i < s.len() {
            seq![s.take(i)] + colon_parts(s.skip(i + 1))
        } else {
            seq![s]
        },
    }
}

/// The values of all pieces, when each is a 16-bit hexadecimal number.
pub open spec fn parts_values(parts: Seq<Seq<u8>>) -> Option<Seq<u16>>
    decreases parts.len(),
{
    if parts.len() == 0 {
        Some(Seq::empty())
    } else {
        match (parts_values(parts.drop_last()), radix16(parts.last())) {
            (Some(vs), Some(v)) => Some(vs.push(v)),
            _ => None,
        }
    }
}

/// The pieces of one side of a `::`: none for an empty side.
pub open spec fn side_parts(s: Seq<u8>) -> Seq<Seq<u8>> {
    if s.len() == 0 {
        Seq::empty()
    } else {
        colon_parts(s)
    }
}

/// The eight segments of a textual IPv6 address read piece by piece with
/// `u16::from_str_radix`, with `::` standing for the zero segments the two
/// sides leave out.
pub open spec fn text_ipv6_segments(s: Seq<u8>) -> Option<Seq<u16>> {
    match double_colon_from(s, 0) {
        Some(dc) => {
            let lp = side_parts(s.take(dc));
            let rp = side_parts(s.skip(dc + 2));
            if lp.len() + rp.len() > 8 {
                None
            } else {
                match (parts_values(lp), parts_values(rp)) {
                    (Some(ls), Some(rs)) => Some(ls + zero_segments(8 - ls.len() - rs.len()) + rs),
                    _ => None,
                }
            }
        },
        None => {
            let parts = colon_parts(s);
            if parts.len() != 8 {
                None
            } else {
                parts_values(parts)
            }
        },
    }
}

proof fn lemma_hex_value_grows(d: Seq<u8>, k: int)
    requires
        0 <= k <= d.len(),
        all_hex(d),
    ensures
        hex_value(d) >= hex_value(d.take(k)),
        hex_value(d) >= 0,
    decreases d.len(),
{
    if d.len() > 0 {
        assert(all_hex(d.drop_last()));
        if k < d.len() {
            assert(d.drop_last().take(k) =~= d.take(k));
            lemma_hex_value_grows(d.drop_last(), k);
        } else {
            assert(d.take(k) =~= d);
            lemma_hex_value_grows(d.drop_last(), 0);
        }
    } else {
        assert(d.take(k) =~= d);
    }
}

/// Reads a 16-bit hexadecimal number the way `u16::from_str_radix` does.
pub fn radix16_value(p: &[u8]) -> (r: Option<u16>)
    ensures
        r == radix16(p@),
{
    let start: usize = if p.len() > 0 && p[0] == 0x2b {
        1
    } else {
        0
    };
    let ghost digits = if p@.len() > 0 && p@[0] == 0x2b {
        p@.skip(1)
    } else {
        p@
    };
    assert(digits =~= p@.skip(start as int));
    if p.len() - start == 0 {
        return None;
    }
    let mut value: u32 = 0;
    let mut i: usize = start;
    while i < p.len()
        invariant
            start <= i <= p@.len(),
            digits == p@.skip(start as int),
            digits == (if p@.len() > 0 && p@[0] == 0x2b {
                p@.skip(1)
            } else {
                p@
            }),
            digits.len() > 0,
            all_hex(p@.subrange(start as int, i as int)),
            value == hex_value(p@.subrange(start as int, i as int)),
            value <= 0xffff,
        decreases p@.len() - i,
    {
        let ghost prefix = p@.subrange(start as int, i + 1);
        assert(prefix.drop_last() =~= p@.subrange(start as int, i as int));
        let d = match crate::lwip::hex_digit_value(p[i]) {
            Some(d) => d,
            None => {
                assert(digits[i - start] == p@[i as int]);
                assert(crate::lwip::hex_digit(digits[i - start]) is None);
                assert(!all_hex(digits));
                return None;
            },
        };
        let next = value * 16 + d as u32;
        if next > 0xffff {
            proof {
                assert(prefix.last() == p@[i as int]);
                assert forall|k: int| 0 <= k < prefix.len() implies crate::lwip::hex_digit(#[trigger] prefix[k]) is Some by {
                    if k < prefix.len() - 1 {
                        assert(prefix[k] == p@.subrange(start as int, i as int)[k]);
                    }
                }
                assert(all_hex(prefix));
                assert(hex_value(prefix) == next);
                assert(all_hex(digits) ==> hex_value(digits) > 0xffff) by {
                    if all_hex(digits) {
                        assert(digits.take(i + 1 - start) =~= prefix);
                        lemma_hex_value_grows(digits, i + 1 - start);
                    }
                }
            }
            return None;
        }
        value = next;
        i = i + 1;
    }
    assert(p@.subrange(start as int, p@.len() as int) =~= digits);
    Some(value as u16)
}

proof fn lemma_index_of_from_skip(s: Seq<u8>, b: u8, start: int, i: int)
    requires
        0 <= start <= i <= s.len(),
        forall|k: int| start <= k < i ==> s[k] != b,
    ensures
        index_of_from(s.skip(start), b, i - start) == (match index_of_from(s, b, i) {
            Some(j) => Some(j - start),
            None => None::<int>,
        }),
        index_of_from(s.skip(start), b, 0) == index_of_from(s.skip(start), b, i - start),
    decreases s.len() - i,
{
    lemma_index_of_from_skip_at(s, b, start, i);
    lemma_index_of_from_prefix(s.skip(start), b, i - start);
}

proof fn lemma_index_of_from_skip_at(s: Seq<u8>, b: u8, start: int, i: int)
    requires
        0 <= start <= i <= s.len(),
    ensures
        index_of_from(s.skip(start), b, i - start) == (match index_of_from(s, b, i) {
            Some(j) => Some(j - start),
            None => None::<int>,
        }),
    decreases s.len() - i,
{
    if i < s.len() && s[i] != b {
        lemma_index_of_from_skip_at(s, b, start, i + 1);
    }
}

proof fn lemma_index_of_from_prefix(s: Seq<u8>, b: u8, i: int)
    requires
        0 <= i <= s.len(),
        forall|k: int| 0 <= k < i ==> s[k] != b,
    ensures
        index_of_from(s, b, 0) == index_of_from(s, b, i),
    decreases i,
{
    if i > 0 {
        lemma_index_of_from_step(s, b, 0, i);
    }
}

proof fn lemma_index_of_from_step(s: Seq<u8>, b: u8, j: int, i: int)
    requires
        0 <= j <= i <= s.len(),
        forall|k: int| j <= k < i ==> s[k] != b,
    ensures
        index_of_from(s, b, j) == index_of_from(s, b, i),
    decreases i - j,
{
    if j < i {
        lemma_index_of_from_step(s, b, j + 1, i);
    }
}

/// Reads the colon-separated pieces of `s` as 16-bit hexadecimal numbers.
pub fn parse_colon_parts(s: &[u8]) -> (r: Option<Vec<u16>>)
    ensures
        match parts_values(colon_parts(s@)) {
            Some(vs) => r matches Some(v) && v@ == vs,
            None => r is None,
        },
        r matches Some(v) ==> v@.len() == colon_parts(s@).len(),
{
    let mut vals: Vec<u16> = Vec::new();
    let ghost mut done: Seq<Seq<u8>> = Seq::empty();
    let mut start: usize = 0;
    let mut i: usize = 0;
    proof {
        assert(s@.skip(0) =~= s@);
        assert(done + colon_parts(s@) =~= colon_parts(s@));
    }
    while i < s.len()
        invariant
            start <= i <= s@.len(),
            forall|k: int| start <= k < i ==> s@[k] != 0x3a,
            colon_parts(s@) == done + colon_parts(s@.skip(start as int)),
            parts_values(done) == Some(vals@),
        decreases s@.len() - i,
    {
        if s[i] == 0x3a {
            proof {
                lemma_index_of_from_skip(s@, 0x3a, start as int, i as int);
                let rest = s@.skip(start as int);
                assert(index_of_from(rest, 0x3a, i - start) == Some(i - start));
                assert(rest.take(i - start) =~= s@.subrange(start as int, i as int));
                assert(rest.skip(i - start + 1) =~= s@.skip(i + 1));
                assert(colon_parts(rest) == seq![s@.subrange(start as int, i as int)] + colon_parts(
                    s@.skip(i + 1),
                ));
            }
            let part = vstd::slice::slice_subrange(s, start, i);
            let v = match radix16_value(part) {
                Some(v) => v,
                None => {
                    proof {
                        let piece = s@.subrange(start as int, i as int);
                        lemma_parts_values_none(done.push(piece), colon_parts(s@.skip(i + 1)));
                        assert(done.push(piece) + colon_parts(s@.skip(i + 1)) =~= done + (seq![piece]
                            + colon_parts(s@.skip(i + 1))));
                    }
                    return None;
                },
            };
            vals.push(v);
            proof {
                let piece = s@.subrange(start as int, i as int);
                assert(done.push(piece).drop_last() =~= done);
                assert(done.push(piece) + colon_parts(s@.skip(i + 1)) =~= done + (seq![piece]
                    + colon_parts(s@.skip(i + 1))));
                done = done.push(piece);
            }
            start = i + 1;
        }
        i = i + 1;
    }
    proof {
        lemma_index_of_from_skip(s@, 0x3a, start as int, i as int);
        let rest = s@.skip(start as int);
        assert(index_of_from(rest, 0x3a, i - start) is None);
        assert(colon_parts(rest) == seq![rest]);
        assert(rest =~= s@.subrange(start as int, s@.len() as int));
    }
    let part = vstd::slice::slice_subrange(s, start, s.len());
    let v = match radix16_value(part) {
        Some(v) => v,
        None => {
            proof {
                let piece = s@.subrange(start as int, s@.len() as int);
                lemma_parts_values_none(done.push(piece), Seq::empty());
                assert(done.push(piece) + Seq::<Seq<u8>>::empty() =~= done + seq![piece]);
            }
            return None;
        },
    };
    vals.push(v);
    proof {
        let piece = s@.subrange(start as int, s@.len() as int);
        assert(done.push(piece).drop_last() =~= done);
        assert(done + seq![piece] =~= done.push(piece));
        lemma_parts_values_len(done.push(piece));
    }
    Some(vals)
}

proof fn lemma_parts_values_len(parts: Seq<Seq<u8>>)
    ensures
        parts_values(parts) matches Some(vs) ==> vs.len() == parts.len(),
    decreases parts.len(),
{
    if parts.len() > 0 {
        lemma_parts_values_len(parts.drop_last());
    }
}

/// Once a piece fails, more pieces after it do not help.
proof fn lemma_parts_values_none(front: Seq<Seq<u8>>, back: Seq<Seq<u8>>)
    requires
        parts_values(front) is None,
    ensures
        parts_values(front + back) is None,
    decreases back.len(),
{
    if back.len() > 0 {
        lemma_parts_values_none(front, back.drop_last());
        assert((front + back).drop_last() =~= front + back.drop_last());
    } else {
        assert(front + back =~= front);
    }
}

/// Parses a textual IPv6 address such as `fd00:1234:5678::1`, each piece
/// read as `u16::from_str_radix` reads it.
pub fn parse_ipv6_addr(s: &[u8]) -> (r: Option<Ipv6Addr>)
    ensures
        r is Some <==> text_ipv6_segments(s@) is Some,
        r matches Some(a) ==> a.segments@ == text_ipv6_segments(s@).unwrap(),
{
    let mut segments = [0u16; 8];
    match crate::lwip::find_double_colon(s) {
        Some(dc) => {
            assert(dc + 2 <= s.len());
            let left = vstd::slice::slice_subrange(s, 0, dc);
            let right = vstd::slice::slice_subrange(s, dc + 2, s.len());
            assert(left@ =~= s@.take(dc as int));
            assert(right@ =~= s@.skip(dc + 2));
            let left_vals = if left.len() == 0 {
                Some(Vec::new())
            } else {
                parse_colon_parts(left)
            };
            let right_vals = if right.len() == 0 {
                Some(Vec::new())
            } else {
                parse_colon_parts(right)
            };
            proof {
                lemma_parts_values_len(side_parts(left@));
                lemma_parts_values_len(side_parts(right@));
                assert(parts_values(Seq::<Seq<u8>>::empty()) == Some(Seq::<u16>::empty()));
            }
            let (lv, rv) = match (left_vals, right_vals) {
                (Some(l), Some(r)) => (l, r),
                _ => {
                    proof {
                        lemma_colon_parts_len(left@);
                        lemma_colon_parts_len(right@);
                    }
                    return None;
                },
            };
            if lv.len() > 8 || rv.len() > 8 - lv.len() {
                return None;
            }
            let mut k: usize = 0;
            while k < lv.len()
                invariant
                    k <= lv@.len(),
                    lv@.len() + rv@.len() <= 8,
                    segments@.len() == 8,
                    forall|j: int| 0 <= j < k ==> segments@[j] == lv@[j],
                    forall|j: int| k <= j < 8 ==> segments@[j] == 0,
                decreases lv@.len() - k,
            {
                segments[k] = lv[k];
                k = k + 1;
            }
            let right_start = 8 - rv.len();
            let mut k: usize = 0;
            while k < rv.len()
                invariant
                    k <= rv@.len(),
                    lv@.len() + rv@.len() <= 8,
                    right_start == 8 - rv@.len(),
                    segments@.len() == 8,
                    forall|j: int| 0 <= j < lv@.len() ==> segments@[j] == lv@[j],
                    forall|j: int| lv@.len() <= j < right_start ==> segments@[j] == 0,
                    forall|j: int| 0 <= j < k ==> segments@[right_start + j] == rv@[j],
                    forall|j: int| right_start + k <= j < 8 ==> segments@[j] == 0,
                decreases rv@.len() - k,
            {
                segments[right_start + k] = rv[k];
                k = k + 1;
            }
            assert(segments@ =~= lv@ + zero_segments(8 - lv@.len() - rv@.len()) + rv@);
            Some(Ipv6Addr::new(segments))
        },
        None => {
            let vals = match parse_colon_parts(s) {
                Some(v) => v,
                None => {
                    proof {
                        lemma_colon_parts_len(s@);
                    }
                    return None;
                },
            };
            if vals.len() != 8 {
                return None;
            }
            let mut k: usize = 0;
            while k < 8
                invariant
                    k <= 8,
                    vals@.len() == 8,
                    segments@.len() == 8,
                    forall|j: int| 0 <= j < k ==> segments@[j] == vals@[j],
                decreases 8 - k,
            {
                segments[k] = vals[k];
                k = k + 1;
            }
            assert(segments@ =~= vals@);
            Some(Ipv6Addr::new(segments))
        },
    }
}

proof fn lemma_colon_parts_len(s: Seq<u8>)
    ensures
        colon_parts(s).len() >= 1,
    decreases s.len(),
{
    match index_of_from(s, 0x3a, 0) {
        None => {},
        Some(i) => if 0 <= i < s.len() {
            lemma_colon_parts_len(s.skip(i + 1));
        },
    }
}

/// Server address and file path of a boot-file URL `tftp://[addr]/path`
/// read as text; the `/` before the path is dropped when it is there.
pub open spec fn text_url_parts(url: Seq<u8>) -> Option<(Seq<u16>, Seq<u8>)> {
    if url.len() < 8 || url.take(8) != tftp_url_prefix() {
        None
    } else {
        let rest = url.skip(8);
        match index_of_from(rest, 0x5d, 0) {
            None => None,
            Some(be) => {
                let after = rest.skip(be + 1);
                match text_ipv6_segments(rest.take(be)) {
                    None => None,
                    Some(addr) => Some(
                        (
                            addr,
                            if after.len() > 0 && after[0] == 0x2f {
                                after.skip(1)
                            } else {
                                after
                            },
                        ),
                    ),
                }
            },
        }
    }
}

/// In valid UTF-8 a character starts right after every ASCII byte.
proof fn lemma_boundary_after_ascii(b: Seq<u8>, k: int)
    requires
        valid_utf8(b),
        0 < k <= b.len(),
        b[k - 1] < 0x80,
    ensures
        is_char_boundary(b, k),
    decreases b.len(),
{
    let l = length_of_first_scalar(b);
    let tail = pop_first_scalar(b);
    assert(valid_utf8(tail));
    assert(1 <= l <= b.len());
    if k < l {
        assert(false);
    } else if k == l {
        assert(is_char_boundary(tail, 0));
        assert(is_char_boundary(b, k) == is_char_boundary(tail, k - l));
    } else {
        assert(tail[k - l - 1] == b[k - 1]);
        lemma_boundary_after_ascii(tail, k - l);
        assert(is_char_boundary(b, k) == is_char_boundary(tail, k - l));
    }
}

/// The stateful DHCPv6 client: whether it has been started.
pub struct Dhcp6Client {
    started: bool,
}

impl Dhcp6Client {
    pub closed spec fn spec_started(&self) -> bool {
        self.started
    }

    pub fn new() -> (r: Self)
        ensures
            !r.spec_started(),
    {
        Dhcp6Client { started: false }
    }

    /// lwIP enabled stateful DHCPv6 for the client.
    pub fn mark_started(&mut self)
        ensures
            final(self).spec_started(),
    {
        self.started = true;
    }

    /// Stops the client; returns whether lwIP's DHCPv6 has to be disabled.
    pub fn stop(&mut self) -> (r: bool)
        ensures
            r == old(self).spec_started(),
            !final(self).spec_started(),
    {
        let r = self.started;
        self.started = false;
        r
    }

    /// Whether a valid global (non-link-local) address sits in one of the
    /// slots after slot 0; `None` marks an invalid slot.
    pub fn has_address(&self, slots: &[Option<Ipv6Addr>]) -> (r: bool)
        ensures
            r == exists|i: int| 1 <= i < slots@.len() && is_global_slot(#[trigger] slots@[i]),
    {
        first_global_address(slots).is_some()
    }

    /// The first valid global address in the slots after slot 0.
    pub fn global_address(&self, slots: &[Option<Ipv6Addr>]) -> (r: Option<Ipv6Addr>)
        ensures
            match r {
                Some(a) => exists|i: int|
                    1 <= i < slots@.len() && slots@[i] == Some(a) && is_global_slot(slots@[i])
                        && forall|j: int| 1 <= j < i ==> !is_global_slot(#[trigger] slots@[j]),
                None => forall|j: int| 1 <= j < slots@.len() ==> !is_global_slot(#[trigger] slots@[j]),
            },
    {
        first_global_address(slots)
    }

    /// Splits the boot-file URL of Option 59 (`tftp://[<ipv6-addr>]/<path>`)
    /// into the server address and the file path.
    pub fn parse_boot_file_url<'a>(&self, url: &'a str) -> (r: Option<(Ipv6Addr, &'a str)>)
        ensures
            r is Some <==> text_url_parts(url.spec_bytes()) is Some,
            r matches Some((a, p)) ==> a.segments@ == text_url_parts(url.spec_bytes()).unwrap().0
                && p.spec_bytes() == text_url_parts(url.spec_bytes()).unwrap().1,
    {
        let b = url.as_bytes();
        let prefix: [u8; 8] = [0x74, 0x66, 0x74, 0x70, 0x3a, 0x2f, 0x2f, 0x5b];
        assert(prefix@ =~= tftp_url_prefix());
        if b.len() < 8 {
            return None;
        }
        let mut i: usize = 0;
        while i < 8
            invariant
                i <= 8,
                b@.len() >= 8,
                b@ == url.spec_bytes(),
                prefix@ == tftp_url_prefix(),
                forall|k: int| 0 <= k < i ==> b@[k] == prefix@[k],
            decreases 8 - i,
        {
            if b[i] != prefix[i] {
                assert(b@.take(8)[i as int] != tftp_url_prefix()[i as int]);
                return None;
            }
            i = i + 1;
        }
        assert(b@.take(8) =~= tftp_url_prefix());
        let rest = vstd::slice::slice_subrange(b, 8, b.len());
        assert(rest@ =~= b@.skip(8));
        let bracket_end = match crate::lwip::find_byte(rest, 0x5d) {
            Some(e) => e,
            None => return None,
        };
        let addr_bytes = vstd::slice::slice_subrange(rest, 0, bracket_end);
        assert(addr_bytes@ =~= rest@.take(bracket_end as int));
        let server_addr = match parse_ipv6_addr(addr_bytes) {
            Some(a) => a,
            None => return None,
        };
        let after = 8 + bracket_end + 1;
        let start = if after < b.len() && b[after] == 0x2f {
            after + 1
        } else {
            after
        };
        proof {
            let bytes = url.spec_bytes();
            vstd::utf8::encode_utf8_valid_utf8(url@);
            assert(bytes[8 + bracket_end] == 0x5d);
            lemma_boundary_after_ascii(bytes, start as int);
            assert(rest@.skip(bracket_end + 1) =~= bytes.skip(after as int));
            if start > after {
                assert(bytes.skip(after as int).skip(1) =~= bytes.skip(start as int));
            }
        }
        let (_, path) = url.split_at(start);
        assert(path.spec_bytes() =~= url.spec_bytes().skip(start as int));
        Some((server_addr, path))
    }
}

} // verus!
