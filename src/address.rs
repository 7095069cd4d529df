//! The per-packet address record that the capture driver hands out with each
//! packet, and its fixed little-endian layout at the native boundary.
use vstd::prelude::*;

verus! {

/// Size in bytes of the address record exchanged with the driver.
pub const ADDRESS_LEN: usize = 64;

/// Metadata that comes with one diverted packet.
#[derive(Debug, Clone, Copy, PartialEq, Eq, Structural)]
pub struct WinDivertAddress {
    pub timestamp: i64,
    pub layer: u32,
    pub event: u32,
    pub sniffed: u32,
    pub outbound: u32,
    pub loopback: u32,
    pub impostor: u32,
    pub ipv6: u32,
    pub ip_checksum: u32,
    pub tcp_checksum: u32,
    pub udp_checksum: u32,
    /// Owning process, 0 where the driver could not tell.
    pub process_id: u32,
}

/// The owner of a packet: the driver's 0 means "unknown".
pub open spec fn owner_of(raw_pid: u32) -> Option<u32> {
    if raw_pid != 0 {
        Some(raw_pid)
    } else {
        None
    }
}

/// Unsigned little-endian value of the four bytes at `at`.
pub open spec fn le32(b: Seq<u8>, at: int) -> nat {
    (b[at] + 256 * b[at + 1] + 65536 * b[at + 2] + 16777216 * b[at + 3]) as nat
}

/// Signed (two's complement) little-endian value of the eight bytes at `at`.
pub open spec fn le64_signed(b: Seq<u8>, at: int) -> int {
    let u = (le32(b, at) + 4294967296 * le32(b, at + 4)) as int;
    if u >= 0x8000_0000_0000_0000 {
        u - 0x1_0000_0000_0000_0000
    } else {
        u
    }
}

/// The record that the bytes `b` describe, by the driver's layout: the
/// timestamp, then eleven 32-bit fields, then padding up to `ADDRESS_LEN`.
pub open spec fn address_of(b: Seq<u8>) -> WinDivertAddress {
    WinDivertAddress {
        timestamp: le64_signed(b, 0) as i64,
        layer: le32(b, 8) as u32,
        event: le32(b, 12) as u32,
        sniffed: le32(b, 16) as u32,
        outbound: le32(b, 20) as u32,
        loopback: le32(b, 24) as u32,
        impostor: le32(b, 28) as u32,
        ipv6: le32(b, 32) as u32,
        ip_checksum: le32(b, 36) as u32,
        tcp_checksum: le32(b, 40) as u32,
        udp_checksum: le32(b, 44) as u32,
        process_id: le32(b, 48) as u32,
    }
}

fn read_u32(b: &[u8], at: usize) -> (r: u32)
    requires
        at + 4 <= b@.len(),
    ensures
        r as nat == le32(b@, at as int),
{
    (b[at] as u32) + 256 * (b[at + 1] as u32) + 65536 * (b[at + 2] as u32) + 16777216 * (b[at
        + 3] as u32)
}

/// The four little-endian bytes of `x`.
pub open spec fn le_bytes32(x: u32) -> Seq<u8> {
    seq![(x % 256) as u8, (x / 256 % 256) as u8, (x / 65536 % 256) as u8, (x / 16777216) as u8]
}

/// The unsigned 64-bit pattern of a timestamp (two's complement).
pub open spec fn timestamp_bits(t: i64) -> nat {
    if t < 0 {
        (t + 0x1_0000_0000_0000_0000) as nat
    } else {
        t as nat
    }
}

/// The bytes of a record in the driver's layout.
pub open spec fn encoding_of(a: WinDivertAddress) -> Seq<u8> {
    let u = timestamp_bits(a.timestamp);
    le_bytes32((u % 4294967296) as u32) + le_bytes32((u / 4294967296) as u32) + le_bytes32(
        a.layer,
    ) + le_bytes32(a.event) + le_bytes32(a.sniffed) + le_bytes32(a.outbound) + le_bytes32(
        a.loopback,
    ) + le_bytes32(a.impostor) + le_bytes32(a.ipv6) + le_bytes32(a.ip_checksum) + le_bytes32(
        a.tcp_checksum,
    ) + le_bytes32(a.udp_checksum) + le_bytes32(a.process_id) + Seq::new(12, |i: int| 0u8)
}

proof fn lemma_le32_of_bytes(x: u32, s: Seq<u8>, at: int)
    requires
        0 <= at,
        at + 4 <= s.len(),
        s.subrange(at, at + 4) == le_bytes32(x),
    ensures
        le32(s, at) == x as nat,
{
    assert(s[at] == s.subrange(at, at + 4)[0]);
    assert(s[at + 1] == s.subrange(at, at + 4)[1]);
    assert(s[at + 2] == s.subrange(at, at + 4)[2]);
    assert(s[at + 3] == s.subrange(at, at + 4)[3]);
    let b0 = x % 256;
    let b1 = x / 256 % 256;
    let b2 = x / 65536 % 256;
    let b3 = x / 16777216;
    assert(b0 + 256 * b1 + 65536 * b2 + 16777216 * b3 == x) by (nonlinear_arith)
        requires
            b0 == x % 256,
            b1 == x / 256 % 256,
            b2 == x / 65536 % 256,
            b3 == x / 16777216,
    ;
}

/// Decoding what `encode` wrote gives the record back.
pub proof fn lemma_decode_encoding(a: WinDivertAddress)
    ensures
        encoding_of(a).len() == ADDRESS_LEN,
        address_of(encoding_of(a)) == a,
{
    let e = encoding_of(a);
    let u = timestamp_bits(a.timestamp);
    let lo = (u % 4294967296) as u32;
    let hi = (u / 4294967296) as u32;
    let fields = seq![
        lo,
        hi,
        a.layer,
        a.event,
        a.sniffed,
        a.outbound,
        a.loopback,
        a.impostor,
        a.ipv6,
        a.ip_checksum,
        a.tcp_checksum,
        a.udp_checksum,
        a.process_id,
    ];
    assert(e.len() == 64);
    assert forall|k: int| 0 <= k < 13 implies e.subrange(4 * k, 4 * k + 4) == le_bytes32(
        #[trigger] fields[k],
    ) by {
        assert(e.subrange(4 * k, 4 * k + 4) =~= le_bytes32(fields[k]));
    }
    assert forall|k: int| 0 <= k < 13 implies le32(e, 4 * k) == (#[trigger] fields[k]) as nat by {
        lemma_le32_of_bytes(fields[k], e, 4 * k);
    }
    assert(le32(e, 0) == lo);
    assert(le32(e, 4) == hi);
    assert(lo + 4294967296 * hi == u) by (nonlinear_arith)
        requires
            lo == u % 4294967296,
            hi == u / 4294967296,
            u < 0x1_0000_0000_0000_0000,
    ;
    assert(le32(e, 8) == a.layer);
    assert(le32(e, 12) == a.event);
    assert(le32(e, 16) == a.sniffed);
    assert(le32(e, 20) == a.outbound);
    assert(le32(e, 24) == a.loopback);
    assert(le32(e, 28) == a.impostor);
    assert(le32(e, 32) == a.ipv6);
    assert(le32(e, 36) == a.ip_checksum);
    assert(le32(e, 40) == a.tcp_checksum);
    assert(le32(e, 44) == a.udp_checksum);
    assert(le32(e, 48) == a.process_id);
}

fn write_u32(out: &mut Vec<u8>, x: u32)
    ensures
        final(out)@ == old(out)@ + le_bytes32(x),
{
    out.push((x % 256) as u8);
    out.push((x / 256 % 256) as u8);
    out.push((x / 65536 % 256) as u8);
    out.push((x / 16777216) as u8);
    assert(out@ =~= old(out)@ + le_bytes32(x));
}

impl WinDivertAddress {
    /// A record with every field zero.
    pub fn new() -> (r: Self)
        ensures
            r == address_zero(),
    {
        WinDivertAddress {
            timestamp: 0,
            layer: 0,
            event: 0,
            sniffed: 0,
            outbound: 0,
            loopback: 0,
            impostor: 0,
            ipv6: 0,
            ip_checksum: 0,
            tcp_checksum: 0,
            udp_checksum: 0,
            process_id: 0,
        }
    }

    /// The owning process, or `None` for a packet that the driver could not attribute.
    pub fn process_id(&self) -> (r: Option<u32>)
        ensures
            r == owner_of(self.process_id),
    {
        if self.process_id != 0 {
            Some(self.process_id)
        } else {
            None
        }
    }

    /// Whether the packet was leaving the host.
    pub fn is_outbound(&self) -> (r: bool)
        ensures
            r == (self.outbound != 0),
    {
        self.outbound != 0
    }

    /// Whether the packet travelled over the loopback interface.
    pub fn is_loopback(&self) -> (r: bool)
        ensures
            r == (self.loopback != 0),
    {
        self.loopback != 0
    }

    /// Reads a record in the driver's layout; `None` when fewer than
    /// `ADDRESS_LEN` bytes are given.
    pub fn decode(b: &[u8]) -> (r: Option<Self>)
        ensures
            b@.len() < ADDRESS_LEN ==> r.is_none(),
            b@.len() >= ADDRESS_LEN ==> r == Some(address_of(b@)),
    {
        if b.len() < ADDRESS_LEN {
            return None;
        }
        let lo = read_u32(b, 0);
        let hi = read_u32(b, 4);
        let u: u64 = (lo as u64) + 4294967296 * (hi as u64);
        let timestamp: i64 = if u >= 0x8000_0000_0000_0000 {
            ((u as i128) - 0x1_0000_0000_0000_0000i128) as i64
        } else {
            u as i64
        };
        Some(
            WinDivertAddress {
                timestamp,
                layer: read_u32(b, 8),
                event: read_u32(b, 12),
                sniffed: read_u32(b, 16),
                outbound: read_u32(b, 20),
                loopback: read_u32(b, 24),
                impostor: read_u32(b, 28),
                ipv6: read_u32(b, 32),
                ip_checksum: read_u32(b, 36),
                tcp_checksum: read_u32(b, 40),
                udp_checksum: read_u32(b, 44),
                process_id: read_u32(b, 48),
            },
        )
    }

    /// Writes the record in the driver's layout, padding with zeros.
    pub fn encode(&self) -> (r: Vec<u8>)
        ensures
            r@ == encoding_of(*self),
            r@.len() == ADDRESS_LEN,
            address_of(r@) == *self,
    {
        let mut out: Vec<u8> = Vec::new();
        let u: u64 = if self.timestamp < 0 {
            ((self.timestamp as i128) + 0x1_0000_0000_0000_0000i128) as u64
        } else {
            self.timestamp as u64
        };
        let lo = (u % 4294967296) as u32;
        let hi = (u / 4294967296) as u32;
        write_u32(&mut out, lo);
        write_u32(&mut out, hi);
        write_u32(&mut out, self.layer);
        write_u32(&mut out, self.event);
        write_u32(&mut out, self.sniffed);
        write_u32(&mut out, self.outbound);
        write_u32(&mut out, self.loopback);
        write_u32(&mut out, self.impostor);
        write_u32(&mut out, self.ipv6);
        write_u32(&mut out, self.ip_checksum);
        write_u32(&mut out, self.tcp_checksum);
        write_u32(&mut out, self.udp_checksum);
        write_u32(&mut out, self.process_id);
        let ghost head = out@;
        let mut i: usize = 52;
        while i < ADDRESS_LEN
            invariant
                52 <= i <= ADDRESS_LEN,
                head.len() == 52,
                out@ == head + Seq::new((i - 52) as nat, |j: int| 0u8),
            decreases ADDRESS_LEN - i,
        {
            out.push(0u8);
            i = i + 1;
            assert(out@ =~= head + Seq::new((i - 52) as nat, |j: int| 0u8));
        }
        assert(out@ =~= encoding_of(*self));
        proof {
            lemma_decode_encoding(*self);
        }
        out
    }
}

/// A record with every field zero.
pub open spec fn address_zero() -> WinDivertAddress {
    WinDivertAddress {
        timestamp: 0,
        layer: 0,
        event: 0,
        sniffed: 0,
        outbound: 0,
        loopback: 0,
        impostor: 0,
        ipv6: 0,
        ip_checksum: 0,
        tcp_checksum: 0,
        udp_checksum: 0,
        process_id: 0,
    }
}

impl Default for WinDivertAddress {
    fn default() -> (r: Self)
        ensures
            r == address_zero(),
    {
        WinDivertAddress::new()
    }
}

} // verus!
