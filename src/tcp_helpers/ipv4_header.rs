use vstd::prelude::*;
use vstd::string::StringExecFns;

use crate::tcp_helpers::tcp_header::{u16_at, u32_at};
use crate::util::parser::{be16_bytes, be32_bytes, NetParser, NetUnparser, ParseError};
use crate::util::util::{dec_digits, dec_string};

verus! {

/// Length of an IPv4 header without options.
pub const LENGTH: usize = 20;

/// A reasonable default time to live.
pub const DEFAULT_TTL: u8 = 128;

/// Protocol number of TCP.
pub const PROTO_TCP: u8 = 6;

/// The fields of an IPv4 header.
#[derive(Copy, Clone, Debug, PartialEq, Eq, Structural)]
pub struct IPv4Header {
    /// IP version.
    pub ver: u8,
    /// Header length, in 32-bit words.
    pub hlen: u8,
    /// Type of service.
    pub tos: u8,
    /// Total length of the packet.
    pub len: u16,
    pub id: u16,
    /// Don't fragment.
    pub df: bool,
    /// More fragments.
    pub mf: bool,
    /// Fragment offset.
    pub offset: u16,
    /// Time to live.
    pub ttl: u8,
    pub proto: u8,
    pub cksum: u16,
    pub src: u32,
    pub dst: u32,
}

/// The header that the first 20 bytes of `b` encode.
pub open spec fn ipv4_header_from(b: Seq<u8>) -> IPv4Header {
    let fo = u16_at(b, 6);
    IPv4Header {
        ver: b[0] >> 4u8,
        hlen: b[0] & 0x0fu8,
        tos: b[1],
        len: u16_at(b, 2),
        id: u16_at(b, 4),
        df: fo & 0x4000u16 != 0,
        mf: fo & 0x2000u16 != 0,
        offset: fo & 0x1fffu16,
        ttl: b[8],
        proto: b[9],
        cksum: u16_at(b, 10),
        src: u32_at(b, 12),
        dst: u32_at(b, 16),
    }
}

/// Why a parsed header is refused, checked in this order; `size` is the
/// number of bytes of the whole datagram.
pub open spec fn ipv4_header_error(h: IPv4Header, size: nat) -> Option<ParseError> {
    if size < h.hlen * 4 {
        Some(ParseError::PacketTooShort)
    } else if h.ver != 4 {
        Some(ParseError::WrongIPVersion)
    } else if h.hlen < 5 {
        Some(ParseError::HeaderTooShort)
    } else if h.len != size {
        Some(ParseError::TruncatedPacket)
    } else {
        None
    }
}

/// The 20 bytes of a header on the wire.
pub open spec fn ipv4_header_bytes(h: IPv4Header) -> Seq<u8> {
    seq![(h.ver << 4u8) | h.hlen, h.tos] + be16_bytes(h.len) + be16_bytes(h.id) + be16_bytes(
        (if h.df { 0x4000u16 } else { 0u16 }) | (if h.mf { 0x2000u16 } else { 0u16 }) | h.offset,
    ) + seq![h.ttl, h.proto] + be16_bytes(h.cksum) + be32_bytes(h.src) + be32_bytes(h.dst)
}

/// `x` with its four bytes in reverse order.
pub open spec fn byte_swapped(x: u32) -> nat {
    ((x % 256) * 16777216 + ((x / 256) % 256) * 65536 + ((x / 65536) % 256) * 256 + x / 16777216) as nat
}

/// Relies on u32::to_be: `x` in big-endian byte order, which is `x` itself on
/// a big-endian machine and `x` with its bytes reversed on a little-endian one.
#[verifier::external_body]
fn to_big_endian(x: u32) -> (r: u32)
    ensures
        r == x || r == byte_swapped(x),
{
    x.to_be()
}

/// A one-line summary of a header that shows the addresses as `src` and `dst`.
pub open spec fn ipv4_summary_text(h: IPv4Header, src: u32, dst: u32) -> Seq<char> {
    "IPv"@ + dec_digits(h.ver as nat) + ", len="@ + dec_digits(h.len as nat) + ", protocol="@
        + dec_digits(h.proto as nat) + ", "@ + (if h.ttl >= 10 {
        Seq::empty()
    } else {
        "ttl="@ + dec_digits(h.ttl as nat) + ", "@
    }) + "src="@ + dec_digits(src as nat) + ", dst="@ + dec_digits(dst as nat)
}

impl IPv4Header {
    /// A one-line summary: version, length, protocol, a low TTL, and the
    /// addresses as big-endian numbers.
    pub fn summary(&self) -> (r: String)
        ensures
            exists|src: u32, dst: u32| (src == self.src || src == byte_swapped(self.src)) && (dst
                == self.dst || dst == byte_swapped(self.dst)) && r@ == ipv4_summary_text(
                *self,
                src,
                dst,
            ),
    {
        let src = to_big_endian(self.src);
        let dst = to_big_endian(self.dst);
        let mut r = String::from_str("IPv");
        r.append(dec_string(self.ver as u32).as_str());
        r.append(", len=");
        r.append(dec_string(self.len as u32).as_str());
        r.append(", protocol=");
        r.append(dec_string(self.proto as u32).as_str());
        r.append(", ");
        if self.ttl < 10 {
            r.append("ttl=");
            r.append(dec_string(self.ttl as u32).as_str());
            r.append(", ");
        }
        r.append("src=");
        r.append(dec_string(src).as_str());
        r.append(", dst=");
        r.append(dec_string(dst).as_str());
        proof {
            reveal_strlit("");
        }
        assert(r@ =~= ipv4_summary_text(*self, src, dst));
        r
    }

    pub open spec fn spec_payload_length(self) -> int {
        self.len - self.hlen * 4
    }

    /// Reads a header from `p`, skipping any options.
    pub fn parse(&mut self, p: &mut NetParser) -> (r: Result<(), ParseError>)
        ensures
            old(p)@.len() < 20 ==> r == Err::<(), ParseError>(ParseError::PacketTooShort)
                && final(p)@ == old(p)@ && *final(self) == *old(self),
            old(p)@.len() >= 20 ==> *final(self) == ipv4_header_from(old(p)@),
            old(p)@.len() >= 20 ==> match ipv4_header_error(
                ipv4_header_from(old(p)@),
                old(p)@.len(),
            ) {
                Some(e) => r == Err::<(), ParseError>(e) && final(p)@ == old(p)@.skip(20),
                None => r is Ok && final(p)@ == old(p)@.skip(ipv4_header_from(old(p)@).hlen * 4),
            },
    {
        let data_size = p.buffer().len();
        if data_size < LENGTH {
            return Err(ParseError::PacketTooShort);
        }
        let ghost b = p@;
        let first_byte = p.u8()?;
        self.ver = first_byte >> 4;
        self.hlen = first_byte & 0x0f;
        self.tos = p.u8()?;
        self.len = p.u16()?;
        self.id = p.u16()?;
        let fo_val = p.u16()?;
        self.df = (fo_val & 0x4000) != 0;
        self.mf = (fo_val & 0x2000) != 0;
        self.offset = fo_val & 0x1fff;
        self.ttl = p.u8()?;
        self.proto = p.u8()?;
        self.cksum = p.u16()?;
        self.src = p.u32()?;
        self.dst = p.u32()?;
        assert(p@ =~= b.skip(20));
        assert(*self == ipv4_header_from(b));
        if data_size < self.hlen as usize * 4 {
            return Err(ParseError::PacketTooShort);
        }
        if self.ver != 4 {
            return Err(ParseError::WrongIPVersion);
        }
        if self.hlen < 5 {
            return Err(ParseError::HeaderTooShort);
        }
        if self.len as usize != data_size {
            return Err(ParseError::TruncatedPacket);
        }
        p.remove_prefix(self.hlen as usize * 4 - LENGTH)?;
        assert(p@ =~= b.skip(self.hlen * 4));
        Ok(())
    }

    /// Length of the payload.
    pub fn payload_length(&self) -> (r: u16)
        requires
            self.len >= self.hlen * 4,
        ensures
            r == self.spec_payload_length(),
    {
        self.len - self.hlen as u16 * 4
    }

    /// The pseudo-header's contribution to the TCP checksum: the halves of
    /// both addresses, the protocol, and the TCP length.
    pub fn pseudo_cksum(&self) -> (r: u32)
        requires
            self.len >= self.hlen * 4,
        ensures
            r == self.src / 65536 + self.src % 65536 + self.dst / 65536 + self.dst % 65536
                + self.proto + self.spec_payload_length(),
    {
        let mut pcksum: u32 = self.src / 65536 + self.src % 65536;
        pcksum = pcksum + self.dst / 65536 + self.dst % 65536;
        pcksum = pcksum + self.proto as u32 + self.payload_length() as u32;
        pcksum
    }

    /// The header's 20 bytes (the checksum is written as it stands).
    pub fn serialize(&self) -> (r: Result<Vec<u8>, &'static str>)
        ensures
            self.ver != 4 ==> r == Err::<Vec<u8>, &'static str>("wrong IP version"),
            self.ver == 4 && self.hlen < 5 ==> r == Err::<Vec<u8>, &'static str>(
                "IP header too short",
            ),
            self.ver == 4 && self.hlen >= 5 ==> (r matches Ok(v) && v@ == ipv4_header_bytes(*self)),
    {
        if self.ver != 4 {
            return Err("wrong IP version");
        }
        if self.hlen < 5 {
            return Err("IP header too short");
        }
        let mut buffer: Vec<u8> = Vec::new();
        NetUnparser::u8(&mut buffer, (self.ver << 4) | self.hlen);
        NetUnparser::u8(&mut buffer, self.tos);
        NetUnparser::u16(&mut buffer, self.len);
        NetUnparser::u16(&mut buffer, self.id);
        let fo_val: u16 = (if self.df { 0x4000 } else { 0 }) | (if self.mf { 0x2000 } else { 0 })
            | self.offset;
        NetUnparser::u16(&mut buffer, fo_val);
        NetUnparser::u8(&mut buffer, self.ttl);
        NetUnparser::u8(&mut buffer, self.proto);
        NetUnparser::u16(&mut buffer, self.cksum);
        NetUnparser::u32(&mut buffer, self.src);
        NetUnparser::u32(&mut buffer, self.dst);
        assert(buffer@ =~= ipv4_header_bytes(*self));
        Ok(buffer)
    }
}

/// The header of a fresh TCP datagram: version 4, no options, don't
/// fragment, default TTL, everything else zero.
pub open spec fn default_ipv4_header() -> IPv4Header {
    IPv4Header {
        ver: 4,
        hlen: 5,
        tos: 0,
        len: 0,
        id: 0,
        df: true,
        mf: false,
        offset: 0,
        ttl: DEFAULT_TTL,
        proto: PROTO_TCP,
        cksum: 0,
        src: 0,
        dst: 0,
    }
}

impl Default for IPv4Header {
    fn default() -> (r: Self)
        ensures
            r == default_ipv4_header(),
    {
        IPv4Header {
            ver: 4,
            hlen: (LENGTH / 4) as u8,
            tos: 0,
            len: 0,
            id: 0,
            df: true,
            mf: false,
            offset: 0,
            ttl: DEFAULT_TTL,
            proto: PROTO_TCP,
            cksum: 0,
            src: 0,
            dst: 0,
        }
    }
}

} // verus!
