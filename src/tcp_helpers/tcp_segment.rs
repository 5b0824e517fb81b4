use vstd::prelude::*;

use crate::tcp_helpers::tcp_header::{header_bytes, header_from, TCPHeader};
use crate::util::buffer::{Buffer, BufferList};
use crate::util::parser::{NetParser, ParseError};
use crate::util::util::{
    checksum_sum, checksum_value, lemma_checksum_concat, lemma_checksum_sum_bound, InternetChecksum,
};

verus! {

/// The abstract content of a segment: its header and payload bytes.
pub struct SegmentModel {
    pub header: TCPHeader,
    pub payload: Seq<u8>,
}

impl SegmentModel {
    /// Payload length plus one for SYN and one for FIN.
    pub open spec fn length_in_sequence_space(self) -> nat {
        self.payload.len() + (if self.header.syn { 1nat } else { 0nat }) + (if self.header.fin {
            1nat
        } else {
            0nat
        })
    }
}

/// A TCP segment.
pub struct TCPSegment {
    pub header: TCPHeader,
    pub payload: Buffer,
}

impl View for TCPSegment {
    type V = SegmentModel;

    open spec fn view(&self) -> SegmentModel {
        SegmentModel { header: self.header, payload: self.payload@ }
    }
}

impl TCPSegment {
    pub fn new(header: TCPHeader, payload: Buffer) -> (r: Self)
        ensures
            r.header == header,
            r.payload@ == payload@,
    {
        TCPSegment { header, payload }
    }

    /// A segment with the same header and payload.
    pub fn copy(&self) -> (r: Self)
        ensures
            r@ == self@,
    {
        TCPSegment { header: self.header, payload: self.payload.copy() }
    }

    /// How many sequence numbers the segment occupies.
    pub fn length_in_sequence_space(&self) -> (r: usize)
        requires
            self.payload@.len() + 2 <= usize::MAX,
        ensures
            r == self@.length_in_sequence_space(),
    {
        self.payload.len() + (if self.header.syn { 1 } else { 0 }) + (if self.header.fin {
            1
        } else {
            0
        })
    }
}

impl TCPSegment {
    /// Parses a segment from `buffer`, given the datagram layer's
    /// contribution to the checksum; the checksum over the whole segment
    /// must come out zero.
    pub fn parse(&mut self, buffer: &mut Buffer, datagram_layer_checksum: u32) -> (r: Result<
        (),
        ParseError,
    >)
        requires
            datagram_layer_checksum + 65280 * old(buffer)@.len() <= u32::MAX,
        ensures
            final(buffer)@ == old(buffer)@,
            ({
                let b = old(buffer)@;
                let h = header_from(b);
                if checksum_value(checksum_sum(datagram_layer_checksum as nat, false, b)) != 0 {
                    r == Err::<(), ParseError>(ParseError::BadChecksum) && final(self)@ == old(self)@
                } else if b.len() < 20 {
                    r == Err::<(), ParseError>(ParseError::PacketTooShort) && final(self)@ == old(
                        self,
                    )@
                } else if h.doff < 5 {
                    r == Err::<(), ParseError>(ParseError::HeaderTooShort) && final(self).header
                        == h && final(self).payload@ == old(self).payload@
                } else if b.len() < h.doff * 4 {
                    r == Err::<(), ParseError>(ParseError::PacketTooShort) && final(self).header
                        == h && final(self).payload@ == old(self).payload@
                } else {
                    r is Ok && final(self).header == h && final(self).payload@ == b.skip(h.doff * 4)
                }
            }),
    {
        let mut check = InternetChecksum::new(datagram_layer_checksum);
        check.add(buffer.as_slice());
        if check.value() != 0 {
            return Err(ParseError::BadChecksum);
        }
        let mut p = NetParser::new(buffer.copy());
        self.header.parse(&mut p)?;
        self.payload = p.buffer();
        Ok(())
    }

    /// Sets the checksum (over the datagram layer's contribution, the header
    /// with a zero checksum, and the payload) and returns the header's bytes
    /// followed by the payload.
    pub fn serialize(&mut self, datagram_layer_checksum: u32) -> (r: Result<BufferList, &'static str>)
        requires
            datagram_layer_checksum + 65280 * (20 + old(self).payload@.len()) <= u32::MAX,
        ensures
            final(self).payload@ == old(self).payload@,
            old(self).header.doff < 5 <==> r is Err,
            r is Err ==> r == Err::<BufferList, &'static str>(
                "TCP Header length is greater than 20 bytes",
            ) && final(self).header == (TCPHeader { cksum: 0, ..old(self).header }),
            r matches Ok(l) ==> final(self).header == (TCPHeader {
                cksum: checksum_value(
                    checksum_sum(
                        datagram_layer_checksum as nat,
                        false,
                        header_bytes(TCPHeader { cksum: 0, ..old(self).header }) + old(
                            self,
                        ).payload@,
                    ),
                ) as u16,
                ..old(self).header
            }) && l@ == seq![header_bytes(final(self).header), old(self).payload@],
    {
        self.header.cksum = 0;
        let zeroed = self.header.serialize()?;
        let mut check = InternetChecksum::new(datagram_layer_checksum);
        check.add(zeroed.as_slice());
        proof {
            lemma_checksum_sum_bound(datagram_layer_checksum as nat, false, zeroed@);
        }
        check.add(self.payload.as_slice());
        proof {
            lemma_checksum_concat(datagram_layer_checksum as nat, false, zeroed@, self.payload@);
        }
        self.header.cksum = check.value();
        let mut ret = BufferList::new();
        let bytes = self.header.serialize()?;
        ret.append_vec(bytes);
        ret.append_buffer(self.payload.copy());
        Ok(ret)
    }
}

impl Default for TCPSegment {
    fn default() -> (r: Self)
        ensures
            r.header == TCPHeader::zeroed(),
            r.payload@ == Seq::<u8>::empty(),
    {
        TCPSegment { header: TCPHeader::default(), payload: Buffer::empty() }
    }
}

} // verus!
