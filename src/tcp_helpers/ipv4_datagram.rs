use vstd::prelude::*;

use crate::tcp_helpers::ipv4_header::{
    default_ipv4_header, ipv4_header_bytes, ipv4_header_error, ipv4_header_from, IPv4Header,
};
use crate::util::buffer::{flat, Buffer, BufferList};
use crate::util::parser::{NetParser, ParseError};
use crate::util::util::{checksum_sum, checksum_value, InternetChecksum};

verus! {

/// An IPv4 datagram: a header and a payload.
pub struct IPv4Datagram {
    pub header: IPv4Header,
    pub payload: BufferList,
}

impl IPv4Datagram {
    pub fn new(header: IPv4Header, payload: BufferList) -> (r: Self)
        ensures
            r.header == header,
            r.payload@ == payload@,
    {
        IPv4Datagram { header, payload }
    }

    /// Parses a datagram from `buffer`; the payload must be as long as the
    /// header says.
    pub fn parse(&mut self, buffer: &mut Buffer) -> (r: Result<(), ParseError>)
        ensures
            final(buffer)@ == old(buffer)@,
            ({
                let b = old(buffer)@;
                let h = ipv4_header_from(b);
                if b.len() < 20 {
                    r == Err::<(), ParseError>(ParseError::PacketTooShort) && final(self).header
                        == old(self).header && final(self).payload@ == old(self).payload@
                } else if ipv4_header_error(h, b.len()) is Some {
                    r == Err::<(), ParseError>(ipv4_header_error(h, b.len())->0)
                        && final(self).header == h && final(self).payload@ == old(self).payload@
                } else {
                    final(self).header == h && final(self).payload@ == seq![b.skip(h.hlen * 4)] && (
                    r is Ok <==> b.len() - h.hlen * 4 == h.spec_payload_length()) && (r is Err ==> r
                        == Err::<(), ParseError>(ParseError::PacketTooShort))
                }
            }),
    {
        let mut p = NetParser::new(buffer.copy());
        self.header.parse(&mut p)?;
        self.payload = BufferList::new_from_buffer(p.buffer());
        proof {
            assert(self.payload@.skip(1) =~= Seq::<Seq<u8>>::empty());
            assert(flat(self.payload@.skip(1)) =~= Seq::<u8>::empty());
            assert(flat(self.payload@) =~= self.payload@[0]);
        }
        if self.payload.total_size() != self.header.payload_length() as usize {
            return Err(ParseError::PacketTooShort);
        }
        Ok(())
    }

    /// Sets the header checksum (over the header alone) and returns the
    /// header's bytes followed by the payload's buffers.
    pub fn serialize(&mut self) -> (r: Result<BufferList, &'static str>)
        requires
            old(self).header.len >= old(self).header.hlen * 4,
            flat(old(self).payload@).len() <= usize::MAX,
        ensures
            final(self).payload@ == old(self).payload@,
            flat(old(self).payload@).len() != old(self).header.spec_payload_length() ==> r == Err::<
                BufferList,
                &'static str,
            >("IPv4Datagram::serialize: payload is wrong size") && final(self).header == old(
                self,
            ).header,
            flat(old(self).payload@).len() == old(self).header.spec_payload_length() && (old(
                self,
            ).header.ver != 4 || old(self).header.hlen < 5) ==> r is Err && final(self).header == (
            IPv4Header { cksum: 0, ..old(self).header }),
            flat(old(self).payload@).len() == old(self).header.spec_payload_length() && old(
                self,
            ).header.ver == 4 && old(self).header.hlen >= 5 ==> final(self).header == (IPv4Header {
                cksum: checksum_value(
                    checksum_sum(0, false, ipv4_header_bytes(IPv4Header { cksum: 0, ..old(self).header })),
                ) as u16,
                ..old(self).header
            }) && (r matches Ok(l) && l@ == seq![ipv4_header_bytes(final(self).header)] + old(
                self,
            ).payload@),
    {
        if self.payload.total_size() != self.header.payload_length() as usize {
            return Err("IPv4Datagram::serialize: payload is wrong size");
        }
        self.header.cksum = 0;
        let header_zero_checksum = self.header.serialize()?;
        let mut check = InternetChecksum::new(0);
        check.add(header_zero_checksum.as_slice());
        self.header.cksum = check.value();
        let mut ret = BufferList::new();
        let bytes = self.header.serialize()?;
        ret.append_vec(bytes);
        let mut rest = self.payload.copy();
        ret.append(&mut rest);
        Ok(ret)
    }
}

impl Default for IPv4Datagram {
    fn default() -> (r: Self)
        ensures
            r.header == default_ipv4_header(),
            r.payload@ == Seq::<Seq<u8>>::empty(),
    {
        IPv4Datagram { header: IPv4Header::default(), payload: BufferList::new() }
    }
}

} // verus!
