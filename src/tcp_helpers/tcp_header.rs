use vstd::prelude::*;
use vstd::string::StringExecFns;

use crate::util::parser::{
    be16, be16_bytes, be32, be32_bytes, lemma_be_round_trip, NetParser, NetUnparser, ParseError,
};
use crate::util::util::{bool_str, bool_text, hex_digits, hex_string};
use crate::wrapping_integers::WrappingInt32;

verus! {

pub const URG_FLAG: u8 = 0b0010_0000;
pub const ACK_FLAG: u8 = 0b0001_0000;
pub const PSH_FLAG: u8 = 0b0000_1000;
pub const RST_FLAG: u8 = 0b0000_0100;
pub const SYN_FLAG: u8 = 0b0000_0010;
pub const FIN_FLAG: u8 = 0b0000_0001;

/// Length of a TCP header without options.
pub const TCP_HEADER_LENGTH: usize = 20;

/// The 16-bit big-endian number at `b[i]`, `b[i + 1]`.
pub open spec fn u16_at(b: Seq<u8>, i: int) -> u16 {
    (b[i] as nat * 256 + b[i + 1] as nat) as u16
}

/// The 32-bit big-endian number at `b[i..i + 4]`.
pub open spec fn u32_at(b: Seq<u8>, i: int) -> u32 {
    (b[i] as nat * 16777216 + b[i + 1] as nat * 65536 + b[i + 2] as nat * 256 + b[i + 3] as nat) as u32
}

/// The header that the first 20 bytes of `b` encode.
pub open spec fn header_from(b: Seq<u8>) -> TCPHeader {
    let fl = b[13];
    TCPHeader {
        sport: u16_at(b, 0),
        dport: u16_at(b, 2),
        seqno: WrappingInt32(u32_at(b, 4)),
        ackno: WrappingInt32(u32_at(b, 8)),
        doff: b[12] >> 4u8,
        urg: fl & URG_FLAG != 0,
        ack: fl & ACK_FLAG != 0,
        psh: fl & PSH_FLAG != 0,
        rst: fl & RST_FLAG != 0,
        syn: fl & SYN_FLAG != 0,
        fin: fl & FIN_FLAG != 0,
        win: u16_at(b, 14),
        cksum: u16_at(b, 16),
        uptr: u16_at(b, 18),
    }
}

/// The flags byte of a header.
pub open spec fn flags_byte(h: TCPHeader) -> u8 {
    (if h.urg { URG_FLAG } else { 0u8 }) | (if h.ack { ACK_FLAG } else { 0u8 }) | (if h.psh {
        PSH_FLAG
    } else {
        0u8
    }) | (if h.rst { RST_FLAG } else { 0u8 }) | (if h.syn { SYN_FLAG } else { 0u8 }) | (if h.fin {
        FIN_FLAG
    } else {
        0u8
    })
}

/// The 20 bytes of a header on the wire (options are never written).
pub open spec fn header_bytes(h: TCPHeader) -> Seq<u8> {
    be16_bytes(h.sport) + be16_bytes(h.dport) + be32_bytes(h.seqno.0) + be32_bytes(h.ackno.0)
        + seq![h.doff << 4u8, flags_byte(h)] + be16_bytes(h.win) + be16_bytes(h.cksum) + be16_bytes(
        h.uptr,
    )
}

/// The fields of a TCP header.
#[derive(Copy, Clone, PartialEq, Eq, Debug, Structural)]
pub struct TCPHeader {
    /// Source port.
    pub sport: u16,
    /// Destination port.
    pub dport: u16,
    pub seqno: WrappingInt32,
    pub ackno: WrappingInt32,
    /// Data offset, in 32-bit words.
    pub doff: u8,
    pub urg: bool,
    pub ack: bool,
    pub psh: bool,
    pub rst: bool,
    pub syn: bool,
    pub fin: bool,
    /// Window size.
    pub win: u16,
    pub cksum: u16,
    /// Urgent pointer.
    pub uptr: u16,
}

impl TCPHeader {
    /// The header with every field zero or false.
    pub open spec fn zeroed() -> TCPHeader {
        TCPHeader {
            sport: 0,
            dport: 0,
            seqno: WrappingInt32(0),
            ackno: WrappingInt32(0),
            doff: 0,
            urg: false,
            ack: false,
            psh: false,
            rst: false,
            syn: false,
            fin: false,
            win: 0,
            cksum: 0,
            uptr: 0,
        }
    }
}

/// Parsing the bytes of a header gives the header back, when its data
/// offset fits in four bits and is at least 5.
pub proof fn lemma_header_round_trip(h: TCPHeader)
    requires
        5 <= h.doff < 16,
    ensures
        header_bytes(h).len() == 20,
        header_from(header_bytes(h)) == h,
{
    let b = header_bytes(h);
    lemma_be_round_trip(h.seqno.0, h.sport);
    lemma_be_round_trip(h.ackno.0, h.dport);
    lemma_be_round_trip(0, h.win);
    lemma_be_round_trip(0, h.cksum);
    lemma_be_round_trip(0, h.uptr);
    assert(b.len() == 20);
    assert(u16_at(b, 0) as nat == be16(be16_bytes(h.sport)));
    assert(u16_at(b, 2) as nat == be16(be16_bytes(h.dport)));
    assert(u32_at(b, 4) as nat == be32(be32_bytes(h.seqno.0)));
    assert(u32_at(b, 8) as nat == be32(be32_bytes(h.ackno.0)));
    assert(u16_at(b, 14) as nat == be16(be16_bytes(h.win)));
    assert(u16_at(b, 16) as nat == be16(be16_bytes(h.cksum)));
    assert(u16_at(b, 18) as nat == be16(be16_bytes(h.uptr)));
    let d = h.doff;
    assert((d << 4u8) >> 4u8 == d) by (bit_vector)
        requires d < 16u8;
    let fl = flags_byte(h);
    let (urg, ack, psh, rst, syn, fin) = (h.urg, h.ack, h.psh, h.rst, h.syn, h.fin);
    assert((fl & URG_FLAG != 0 <==> urg) && (fl & ACK_FLAG != 0 <==> ack)) by (bit_vector)
        requires fl == (if urg { 0x20u8 } else { 0u8 }) | (if ack { 0x10u8 } else { 0u8 }) | (if psh {
            0x08u8
        } else {
            0u8
        }) | (if rst { 0x04u8 } else { 0u8 }) | (if syn { 0x02u8 } else { 0u8 }) | (if fin {
            0x01u8
        } else {
            0u8
        });
    assert((fl & PSH_FLAG != 0 <==> psh) && (fl & RST_FLAG != 0 <==> rst) && (fl & SYN_FLAG != 0
        <==> syn) && (fl & FIN_FLAG != 0 <==> fin)) by (bit_vector)
        requires fl == (if urg { 0x20u8 } else { 0u8 }) | (if ack { 0x10u8 } else { 0u8 }) | (if psh {
            0x08u8
        } else {
            0u8
        }) | (if rst { 0x04u8 } else { 0u8 }) | (if syn { 0x02u8 } else { 0u8 }) | (if fin {
            0x01u8
        } else {
            0u8
        });
}

/// `text` if `b`, else nothing.
pub open spec fn flag_text(b: bool, text: Seq<char>) -> Seq<char> {
    if b {
        text
    } else {
        Seq::empty()
    }
}

/// A one-line summary of a header.
pub open spec fn summary_text(h: TCPHeader) -> Seq<char> {
    "Header(flags="@ + flag_text(h.syn, "S"@) + flag_text(h.ack, "A"@) + flag_text(h.rst, "R"@)
        + flag_text(h.fin, "F"@) + ",seqno=0x"@ + hex_digits(h.seqno.0 as nat) + ",ack=0x"@
        + hex_digits(h.ackno.0 as nat) + ",win=0x"@ + hex_digits(h.win as nat) + ")"@
}

/// Every field of a header, one per line (the flags share one).
pub open spec fn header_text(h: TCPHeader) -> Seq<char> {
    "TCP source port: "@ + hex_digits(h.sport as nat) + "\nTCP dest port: "@ + hex_digits(
        h.dport as nat,
    ) + "\nTCP seqno: 0x"@ + hex_digits(h.seqno.0 as nat) + "\nTCP ackno: 0x"@ + hex_digits(
        h.ackno.0 as nat,
    ) + "\nTCP doff: "@ + hex_digits(h.doff as nat) + "\nFlags: urg: "@ + bool_text(h.urg)
        + " ack: "@ + bool_text(h.ack) + " psh: "@ + bool_text(h.psh) + " rst: "@ + bool_text(h.rst)
        + " syn: "@ + bool_text(h.syn) + " fin: "@ + bool_text(h.fin) + "\nTCP winsize: "@
        + hex_digits(h.win as nat) + "\nTCP cksum: "@ + hex_digits(h.cksum as nat)
        + "\nTCP uptr: "@ + hex_digits(h.uptr as nat) + "\n"@
}

impl TCPHeader {
    /// A one-line summary: flags, seqno, ackno and window.
    pub fn summary(&self) -> (r: String)
        ensures
            r@ == summary_text(*self),
    {
        let mut r = String::from_str("Header(flags=");
        r.append(if self.syn { "S" } else { "" });
        r.append(if self.ack { "A" } else { "" });
        r.append(if self.rst { "R" } else { "" });
        r.append(if self.fin { "F" } else { "" });
        r.append(",seqno=0x");
        r.append(hex_string(self.seqno.0).as_str());
        r.append(",ack=0x");
        r.append(hex_string(self.ackno.0).as_str());
        r.append(",win=0x");
        r.append(hex_string(self.win as u32).as_str());
        r.append(")");
        proof {
            reveal_strlit("");
        }
        assert(r@ =~= summary_text(*self));
        r
    }

    /// Every field of the header, one per line.
    pub fn to_string(&self) -> (r: String)
        ensures
            r@ == header_text(*self),
    {
        let mut r = String::from_str("TCP source port: ");
        r.append(hex_string(self.sport as u32).as_str());
        r.append("\nTCP dest port: ");
        r.append(hex_string(self.dport as u32).as_str());
        r.append("\nTCP seqno: 0x");
        r.append(hex_string(self.seqno.0).as_str());
        r.append("\nTCP ackno: 0x");
        r.append(hex_string(self.ackno.0).as_str());
        r.append("\nTCP doff: ");
        r.append(hex_string(self.doff as u32).as_str());
        r.append("\nFlags: urg: ");
        r.append(bool_str(self.urg));
        r.append(" ack: ");
        r.append(bool_str(self.ack));
        r.append(" psh: ");
        r.append(bool_str(self.psh));
        r.append(" rst: ");
        r.append(bool_str(self.rst));
        r.append(" syn: ");
        r.append(bool_str(self.syn));
        r.append(" fin: ");
        r.append(bool_str(self.fin));
        r.append("\nTCP winsize: ");
        r.append(hex_string(self.win as u32).as_str());
        r.append("\nTCP cksum: ");
        r.append(hex_string(self.cksum as u32).as_str());
        r.append("\nTCP uptr: ");
        r.append(hex_string(self.uptr as u32).as_str());
        r.append("\n");
        r
    }

    /// Reads a header from `p`, skipping any options.
    pub fn parse(&mut self, p: &mut NetParser) -> (r: Result<(), ParseError>)
        ensures
            old(p)@.len() < 20 ==> r == Err::<(), ParseError>(ParseError::PacketTooShort)
                && final(p)@ == old(p)@ && *final(self) == *old(self),
            old(p)@.len() >= 20 ==> *final(self) == header_from(old(p)@),
            old(p)@.len() >= 20 && header_from(old(p)@).doff < 5 ==> r == Err::<(), ParseError>(
                ParseError::HeaderTooShort,
            ) && final(p)@ == old(p)@.skip(20),
            old(p)@.len() >= 20 && header_from(old(p)@).doff >= 5 && old(p)@.len() < header_from(
                old(p)@,
            ).doff * 4 ==> r == Err::<(), ParseError>(ParseError::PacketTooShort) && final(p)@
                == old(p)@.skip(20),
            old(p)@.len() >= 20 && header_from(old(p)@).doff >= 5 && old(p)@.len() >= header_from(
                old(p)@,
            ).doff * 4 ==> r is Ok && final(p)@ == old(p)@.skip(header_from(old(p)@).doff * 4),
    {
        if p.buffer().len() < TCP_HEADER_LENGTH {
            return Err(ParseError::PacketTooShort);
        }
        let ghost b = p@;
        self.sport = p.u16()?;
        self.dport = p.u16()?;
        self.seqno = WrappingInt32::new(p.u32()?);
        self.ackno = WrappingInt32::new(p.u32()?);
        self.doff = p.u8()? >> 4;
        let fl_b = p.u8()?;
        self.urg = (fl_b & URG_FLAG) != 0;
        self.ack = (fl_b & ACK_FLAG) != 0;
        self.psh = (fl_b & PSH_FLAG) != 0;
        self.rst = (fl_b & RST_FLAG) != 0;
        self.syn = (fl_b & SYN_FLAG) != 0;
        self.fin = (fl_b & FIN_FLAG) != 0;
        self.win = p.u16()?;
        self.cksum = p.u16()?;
        self.uptr = p.u16()?;
        assert(p@ =~= b.skip(20));
        assert(*self == header_from(b));
        if self.doff < 5 {
            return Err(ParseError::HeaderTooShort);
        }
        p.remove_prefix(self.doff as usize * 4 - TCP_HEADER_LENGTH)?;
        assert(p@ =~= b.skip(self.doff * 4));
        Ok(())
    }

    /// The header's 20 bytes; fails when the data offset is below 5.
    pub fn serialize(&self) -> (r: Result<Vec<u8>, &'static str>)
        ensures
            self.doff < 5 <==> r is Err,
            r is Err ==> r == Err::<Vec<u8>, &'static str>("TCP Header length is greater than 20 bytes"),
            r matches Ok(v) ==> v@ == header_bytes(*self),
    {
        if self.doff < 5 {
            return Err("TCP Header length is greater than 20 bytes");
        }
        let mut buffer: Vec<u8> = Vec::new();
        NetUnparser::u16(&mut buffer, self.sport);
        NetUnparser::u16(&mut buffer, self.dport);
        NetUnparser::u32(&mut buffer, self.seqno.raw_value());
        NetUnparser::u32(&mut buffer, self.ackno.raw_value());
        NetUnparser::u8(&mut buffer, self.doff << 4);
        let fl_b: u8 = (if self.urg { URG_FLAG } else { 0 }) | (if self.ack { ACK_FLAG } else { 0 })
            | (if self.psh { PSH_FLAG } else { 0 }) | (if self.rst { RST_FLAG } else { 0 }) | (
        if self.syn {
            SYN_FLAG
        } else {
            0
        }) | (if self.fin { FIN_FLAG } else { 0 });
        NetUnparser::u8(&mut buffer, fl_b);
        NetUnparser::u16(&mut buffer, self.win);
        NetUnparser::u16(&mut buffer, self.cksum);
        NetUnparser::u16(&mut buffer, self.uptr);
        assert(buffer@ =~= header_bytes(*self));
        Ok(buffer)
    }
}

impl Default for TCPHeader {
    fn default() -> (r: Self)
        ensures
            r == TCPHeader::zeroed(),
    {
        TCPHeader {
            sport: 0,
            dport: 0,
            seqno: WrappingInt32::new(0),
            ackno: WrappingInt32::new(0),
            doff: 0,
            urg: false,
            ack: false,
            psh: false,
            rst: false,
            syn: false,
            fin: false,
            win: 0,
            cksum: 0,
            uptr: 0,
        }
    }
}

} // verus!
