use vstd::prelude::*;
use vstd::string::StringExecFns;

use crate::util::buffer::Buffer;

verus! {

/// Why a packet could not be parsed.
#[derive(Clone, Copy, Debug, PartialEq, Eq, Structural)]
pub enum ParseError {
    BadChecksum,
    PacketTooShort,
    WrongIPVersion,
    HeaderTooShort,
    TruncatedPacket,
    Unsupported,
    Unknown,
}

/// The error that a message names; `Unknown` for any other text.
pub open spec fn error_named(s: Seq<char>) -> ParseError {
    if s == "Bad checksum"@ {
        ParseError::BadChecksum
    } else if s == "Not enough data to finish parsing"@ {
        ParseError::PacketTooShort
    } else if s == "Got a version of IP other than 4"@ {
        ParseError::WrongIPVersion
    } else if s == "Header length is shorter than minimum required"@ {
        ParseError::HeaderTooShort
    } else if s == "Packet length is shorter than header claims"@ {
        ParseError::TruncatedPacket
    } else if s == "Packet uses unsupported features"@ {
        ParseError::Unsupported
    } else {
        ParseError::Unknown
    }
}

impl From<&'static str> for ParseError {
    fn from(s: &'static str) -> (r: ParseError) {
        let t = String::from_str(s);
        if t == String::from_str("Bad checksum") {
            ParseError::BadChecksum
        } else if t == String::from_str("Not enough data to finish parsing") {
            ParseError::PacketTooShort
        } else if t == String::from_str("Got a version of IP other than 4") {
            ParseError::WrongIPVersion
        } else if t == String::from_str("Header length is shorter than minimum required") {
            ParseError::HeaderTooShort
        } else if t == String::from_str("Packet length is shorter than header claims") {
            ParseError::TruncatedPacket
        } else if t == String::from_str("Packet uses unsupported features") {
            ParseError::Unsupported
        } else {
            ParseError::Unknown
        }
    }
}

impl vstd::std_specs::convert::FromSpecImpl<&'static str> for ParseError {
    open spec fn obeys_from_spec() -> bool {
        true
    }

    open spec fn from_spec(s: &'static str) -> ParseError {
        error_named(s@)
    }
}

/// The big-endian value of two bytes.
pub open spec fn be16(s: Seq<u8>) -> nat {
    s[0] as nat * 256 + s[1] as nat
}

/// The big-endian value of four bytes.
pub open spec fn be32(s: Seq<u8>) -> nat {
    s[0] as nat * 16777216 + s[1] as nat * 65536 + s[2] as nat * 256 + s[3] as nat
}

/// The big-endian bytes of a 16-bit value.
pub open spec fn be16_bytes(n: u16) -> Seq<u8> {
    seq![(n / 256) as u8, (n % 256) as u8]
}

/// The big-endian bytes of a 32-bit value.
pub open spec fn be32_bytes(n: u32) -> Seq<u8> {
    seq![(n / 16777216) as u8, ((n / 65536) % 256) as u8, ((n / 256) % 256) as u8, (n % 256) as u8]
}

/// Reads big-endian numbers off the front of a buffer.
pub struct NetParser {
    buffer: Buffer,
}

impl View for NetParser {
    type V = Seq<u8>;

    closed spec fn view(&self) -> Seq<u8> {
        self.buffer@
    }
}

impl NetParser {
    pub fn new(buffer: Buffer) -> (r: Self)
        ensures
            r@ == buffer@,
    {
        NetParser { buffer }
    }

    /// Drops `n` bytes; fails, consuming nothing, if there are fewer.
    pub fn remove_prefix(&mut self, n: usize) -> (r: Result<(), ParseError>)
        ensures
            r is Ok <==> n <= old(self)@.len(),
            r is Ok ==> final(self)@ == old(self)@.skip(n as int),
            r is Err ==> r == Err::<(), ParseError>(ParseError::PacketTooShort) && final(self)@
                == old(self)@,
    {
        self.check_size(n)?;
        let _ = self.buffer.remove_prefix(n);
        Ok(())
    }

    /// Whether at least `size` bytes are left.
    fn check_size(&self, size: usize) -> (r: Result<(), ParseError>)
        ensures
            r is Ok <==> size <= self@.len(),
            r is Err ==> r == Err::<(), ParseError>(ParseError::PacketTooShort),
    {
        if self.buffer.len() < size {
            Err(ParseError::PacketTooShort)
        } else {
            Ok(())
        }
    }

    /// Reads a big-endian 32-bit number.
    pub fn u32(&mut self) -> (r: Result<u32, ParseError>)
        ensures
            r is Ok <==> old(self)@.len() >= 4,
            r is Ok ==> r->Ok_0 == be32(old(self)@) && final(self)@ == old(self)@.skip(4),
            r is Err ==> r == Err::<u32, ParseError>(ParseError::PacketTooShort) && final(self)@
                == old(self)@,
    {
        self.check_size(4)?;
        let b0 = self.buffer.at(0).unwrap();
        let b1 = self.buffer.at(1).unwrap();
        let b2 = self.buffer.at(2).unwrap();
        let b3 = self.buffer.at(3).unwrap();
        let v: u32 = (b0 as u32) * 16777216 + (b1 as u32) * 65536 + (b2 as u32) * 256 + (b3 as u32);
        let _ = self.buffer.remove_prefix(4);
        Ok(v)
    }

    /// Reads a big-endian 16-bit number.
    pub fn u16(&mut self) -> (r: Result<u16, ParseError>)
        ensures
            r is Ok <==> old(self)@.len() >= 2,
            r is Ok ==> r->Ok_0 == be16(old(self)@) && final(self)@ == old(self)@.skip(2),
            r is Err ==> r == Err::<u16, ParseError>(ParseError::PacketTooShort) && final(self)@
                == old(self)@,
    {
        self.check_size(2)?;
        let b0 = self.buffer.at(0).unwrap();
        let b1 = self.buffer.at(1).unwrap();
        let v: u16 = (b0 as u16) * 256 + (b1 as u16);
        let _ = self.buffer.remove_prefix(2);
        Ok(v)
    }

    /// Reads one byte.
    pub fn u8(&mut self) -> (r: Result<u8, ParseError>)
        ensures
            r is Ok <==> old(self)@.len() >= 1,
            r is Ok ==> r->Ok_0 == old(self)@[0] && final(self)@ == old(self)@.skip(1),
            r is Err ==> r == Err::<u8, ParseError>(ParseError::PacketTooShort) && final(self)@
                == old(self)@,
    {
        self.check_size(1)?;
        let v = self.buffer.at(0).unwrap();
        let _ = self.buffer.remove_prefix(1);
        Ok(v)
    }

    /// The bytes not yet parsed.
    pub fn buffer(&self) -> (r: Buffer)
        ensures
            r@ == self@,
    {
        self.buffer.copy()
    }
}

/// Writes big-endian numbers.
pub struct NetUnparser;

impl NetUnparser {
    pub fn u32(buffer: &mut Vec<u8>, num: u32)
        ensures
            final(buffer)@ == old(buffer)@ + be32_bytes(num),
    {
        buffer.push((num / 16777216) as u8);
        buffer.push(((num / 65536) % 256) as u8);
        buffer.push(((num / 256) % 256) as u8);
        buffer.push((num % 256) as u8);
        assert(buffer@ =~= old(buffer)@ + be32_bytes(num));
    }

    pub fn u16(buffer: &mut Vec<u8>, num: u16)
        ensures
            final(buffer)@ == old(buffer)@ + be16_bytes(num),
    {
        buffer.push((num / 256) as u8);
        buffer.push((num % 256) as u8);
        assert(buffer@ =~= old(buffer)@ + be16_bytes(num));
    }

    pub fn u8(buffer: &mut Vec<u8>, num: u8)
        ensures
            final(buffer)@ == old(buffer)@.push(num),
    {
        buffer.push(num);
    }
}

/// Reading back what was written gives the number that was written.
pub proof fn lemma_be_round_trip(a: u32, b: u16)
    ensures
        be32(be32_bytes(a)) == a,
        be16(be16_bytes(b)) == b,
{
    let a0 = a / 16777216;
    let a1 = (a / 65536) % 256;
    let a2 = (a / 256) % 256;
    let a3 = a % 256;
    assert(a0 * 16777216 + a1 * 65536 + a2 * 256 + a3 == a) by (nonlinear_arith)
        requires
            a0 == a / 16777216,
            a1 == (a / 65536) % 256,
            a2 == (a / 256) % 256,
            a3 == a % 256,
            0 <= a < 0x1_0000_0000;
    assert(a0 < 256) by (nonlinear_arith) requires a0 == a / 16777216, 0 <= a < 0x1_0000_0000;
}

} // verus!
