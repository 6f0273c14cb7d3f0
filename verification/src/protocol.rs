//! The wire format: what a sender and a receiver agree on.
//!
//! A UDP datagram is a header of 24 bytes (little-endian) followed by PCM: interleaved
//! frames, whose number follows from the length of the datagram.
use crate::le::{get_le, put_le};
use crate::le::{le_bytes, le_value};
use crate::le::{lemma_le_bytes_len, lemma_le_bytes_of_value, lemma_le_value_bound};
use crate::le::{law_le_values, lemma_le_value_of_bytes, lemma_pow256};
use vstd::prelude::*;

verus! {

/// The first four bytes of every datagram: `SND1` in ASCII.
pub const MAGIC: [u8; 4] = [0x53, 0x4E, 0x44, 0x31];

pub const VERSION: u8 = 1;

pub const HEADER_LEN: usize = 24;

pub const DEFAULT_PORT: u16 = 48100;

#[derive(Debug, Clone, Copy, PartialEq, Eq, Structural)]
pub enum PacketType {
    Audio,
    Hello,
    Bye,
}

impl PacketType {
    /// The byte that stands for a packet type.
    pub open spec fn code(self) -> u8 {
        match self {
            PacketType::Audio => 0,
            PacketType::Hello => 1,
            PacketType::Bye => 2,
        }
    }

    pub fn as_u8(self) -> (code: u8)
        ensures
            code == self.code(),
    {
        match self {
            PacketType::Audio => 0,
            PacketType::Hello => 1,
            PacketType::Bye => 2,
        }
    }

    /// The packet type that a byte stands for, if it stands for one.
    pub open spec fn of_code(v: u8) -> Option<PacketType> {
        match v {
            0 => Some(PacketType::Audio),
            1 => Some(PacketType::Hello),
            2 => Some(PacketType::Bye),
            _ => None,
        }
    }

    pub fn from_u8(v: u8) -> (ptype: Option<PacketType>)
        ensures
            ptype == PacketType::of_code(v),
    {
        match v {
            0 => Some(PacketType::Audio),
            1 => Some(PacketType::Hello),
            2 => Some(PacketType::Bye),
            _ => None,
        }
    }
}

#[derive(Debug, Clone, Copy, PartialEq, Eq, Structural)]
pub enum WireFormat {
    S16le,
    F32le,
}

impl WireFormat {
    /// How many bytes one sample takes on the wire.
    pub open spec fn width(self) -> nat {
        match self {
            WireFormat::S16le => 2,
            WireFormat::F32le => 4,
        }
    }

    /// The byte that stands for a sample format.
    pub open spec fn code(self) -> u8 {
        match self {
            WireFormat::S16le => 0,
            WireFormat::F32le => 1,
        }
    }

    pub fn bytes_per_sample(self) -> (width: usize)
        ensures
            width == self.width(),
    {
        match self {
            WireFormat::S16le => 2,
            WireFormat::F32le => 4,
        }
    }

    pub fn as_u8(self) -> (code: u8)
        ensures
            code == self.code(),
    {
        match self {
            WireFormat::S16le => 0,
            WireFormat::F32le => 1,
        }
    }

    /// The sample format that a byte stands for, if it stands for one.
    pub open spec fn of_code(v: u8) -> Option<WireFormat> {
        match v {
            0 => Some(WireFormat::S16le),
            1 => Some(WireFormat::F32le),
            _ => None,
        }
    }

    pub fn from_u8(v: u8) -> (format: Option<WireFormat>)
        ensures
            format == WireFormat::of_code(v),
    {
        match v {
            0 => Some(WireFormat::S16le),
            1 => Some(WireFormat::F32le),
            _ => None,
        }
    }
}

/// The byte of a packet type stands for that type and for no other.
pub proof fn law_packet_type_codes(p: PacketType, v: u8)
    ensures
        PacketType::of_code(p.code()) == Some(p),
        PacketType::of_code(v) == Some(p) ==> p.code() == v,
{
}

/// The byte of a sample format stands for that format and for no other.
pub proof fn law_wire_format_codes(f: WireFormat, v: u8)
    ensures
        WireFormat::of_code(f.code()) == Some(f),
        WireFormat::of_code(v) == Some(f) ==> f.code() == v,
{
}

#[derive(Debug, Clone, Copy, PartialEq, Eq, Structural)]
pub struct Header {
    pub ptype: PacketType,
    pub channels: u8,
    pub format: WireFormat,
    pub sample_rate: u32,
    /// One more for every audio packet, wrapping round.
    pub seq: u32,
    /// The number of the packet's first frame since the stream began; it outlives the wrapping
    /// of `seq`.
    pub sample_pos: u64,
}

impl Header {
    /// The header on the wire.
    pub open spec fn bytes(self) -> Seq<u8> {
        MAGIC@ + seq![VERSION, self.ptype.code(), self.channels, self.format.code()] + le_bytes(
            self.sample_rate as nat,
            4,
        ) + le_bytes(self.seq as nat, 4) + le_bytes(self.sample_pos as nat, 8)
    }

    /// The header that a datagram begins with, if it begins with one.
    pub open spec fn of_bytes(bytes: Seq<u8>) -> Option<Header> {
        if bytes.len() < HEADER_LEN || bytes.take(4) != MAGIC@ || bytes[4] != VERSION {
            None
        } else {
            match (PacketType::of_code(bytes[5]), WireFormat::of_code(bytes[7])) {
                (Some(ptype), Some(format)) => Some(
                    Header {
                        ptype,
                        channels: bytes[6],
                        format,
                        sample_rate: le_value(bytes.subrange(8, 12)) as u32,
                        seq: le_value(bytes.subrange(12, 16)) as u32,
                        sample_pos: le_value(bytes.subrange(16, 24)) as u64,
                    },
                ),
                _ => None,
            }
        }
    }

    /// Writes the header at the start of `buf`; what follows it is left alone.
    pub fn write(&self, buf: &mut [u8])
        requires
            old(buf)@.len() >= HEADER_LEN,
        ensures
            final(buf)@ == self.bytes() + old(buf)@.skip(HEADER_LEN as int),
    {
        let ghost before = buf@;
        buf[0] = MAGIC[0];
        buf[1] = MAGIC[1];
        buf[2] = MAGIC[2];
        buf[3] = MAGIC[3];
        buf[4] = VERSION;
        buf[5] = self.ptype.as_u8();
        buf[6] = self.channels;
        buf[7] = self.format.as_u8();
        proof {
            lemma_le_bytes_len(self.sample_rate as nat, 4);
            lemma_le_bytes_len(self.seq as nat, 4);
            lemma_le_bytes_len(self.sample_pos as nat, 8);
        }
        put_le(buf, 8, self.sample_rate as u64, 4);
        put_le(buf, 12, self.seq as u64, 4);
        put_le(buf, 16, self.sample_pos, 8);
        proof {
            assert(buf@ =~= self.bytes() + before.skip(HEADER_LEN as int));
        }
    }

    /// Reads the header at the start of a datagram.
    pub fn parse(buf: &[u8]) -> (header: Option<Header>)
        ensures
            header == Header::of_bytes(buf@),
    {
        if buf.len() < HEADER_LEN {
            return None;
        }
        assert(buf@.take(4) == MAGIC@ <==> buf@[0] == MAGIC@[0] && buf@[1] == MAGIC@[1] && buf@[2]
            == MAGIC@[2] && buf@[3] == MAGIC@[3]) by {
            if buf@[0] == MAGIC@[0] && buf@[1] == MAGIC@[1] && buf@[2] == MAGIC@[2] && buf@[3]
                == MAGIC@[3] {
                assert(buf@.take(4) =~= MAGIC@);
            } else {
                assert(buf@.take(4)[0] == buf@[0]);
                assert(buf@.take(4)[1] == buf@[1]);
                assert(buf@.take(4)[2] == buf@[2]);
                assert(buf@.take(4)[3] == buf@[3]);
            }
        }
        if buf[0] != MAGIC[0] || buf[1] != MAGIC[1] || buf[2] != MAGIC[2] || buf[3] != MAGIC[3]
            || buf[4] != VERSION {
            return None;
        }
        match (PacketType::from_u8(buf[5]), WireFormat::from_u8(buf[7])) {
            (Some(ptype), Some(format)) => {
                proof {
                    lemma_pow256();
                    lemma_le_value_bound(buf@.subrange(8, 12));
                    lemma_le_value_bound(buf@.subrange(12, 16));
                }
                Some(
                    Header {
                        ptype,
                        channels: buf[6],
                        format,
                        sample_rate: get_le(buf, 8, 4) as u32,
                        seq: get_le(buf, 12, 4) as u32,
                        sample_pos: get_le(buf, 16, 8),
                    },
                )
            },
            _ => None,
        }
    }
}

/// A header takes 24 bytes on the wire.
pub proof fn lemma_header_len(header: Header)
    ensures
        header.bytes().len() == HEADER_LEN,
{
    lemma_le_bytes_len(header.sample_rate as nat, 4);
    lemma_le_bytes_len(header.seq as nat, 4);
    lemma_le_bytes_len(header.sample_pos as nat, 8);
}

/// What a receiver reads from a datagram is the header that the sender wrote, whatever follows it.
pub proof fn law_header_round_trip(header: Header, payload: Seq<u8>)
    ensures
        Header::of_bytes(header.bytes() + payload) == Some(header),
{
    let bytes = header.bytes() + payload;
    lemma_header_len(header);
    lemma_le_bytes_len(header.sample_rate as nat, 4);
    lemma_le_bytes_len(header.seq as nat, 4);
    lemma_le_bytes_len(header.sample_pos as nat, 8);
    lemma_pow256();
    lemma_le_value_of_bytes(header.sample_rate as nat, 4);
    lemma_le_value_of_bytes(header.seq as nat, 4);
    lemma_le_value_of_bytes(header.sample_pos as nat, 8);
    assert(bytes.take(4) =~= MAGIC@);
    assert(bytes.subrange(8, 12) =~= le_bytes(header.sample_rate as nat, 4));
    assert(bytes.subrange(12, 16) =~= le_bytes(header.seq as nat, 4));
    assert(bytes.subrange(16, 24) =~= le_bytes(header.sample_pos as nat, 8));
}

/// A datagram that is read as some header begins with the bytes of that header and no other.
pub proof fn law_header_is_canonical(bytes: Seq<u8>, header: Header)
    requires
        Header::of_bytes(bytes) == Some(header),
    ensures
        bytes.len() >= HEADER_LEN,
        bytes.take(HEADER_LEN as int) == header.bytes(),
{
    lemma_header_len(header);
    lemma_pow256();
    lemma_le_value_bound(bytes.subrange(8, 12));
    lemma_le_value_bound(bytes.subrange(12, 16));
    lemma_le_value_bound(bytes.subrange(16, 24));
    lemma_le_bytes_of_value(bytes.subrange(8, 12));
    lemma_le_bytes_of_value(bytes.subrange(12, 16));
    lemma_le_bytes_of_value(bytes.subrange(16, 24));
    assert(bytes.take(HEADER_LEN as int) =~= bytes.take(4) + seq![
        bytes[4],
        bytes[5],
        bytes[6],
        bytes[7],
    ] + bytes.subrange(8, 12) + bytes.subrange(12, 16) + bytes.subrange(16, 24));
}

/// The layout of a header, byte by byte: which datagrams begin with one, and what it says.
pub proof fn law_header_layout(bytes: Seq<u8>)
    ensures
        Header::of_bytes(bytes) is Some <==> {
            &&& bytes.len() >= 24
            &&& bytes[0] == 0x53 && bytes[1] == 0x4E && bytes[2] == 0x44 && bytes[3] == 0x31
            &&& bytes[4] == 1
            &&& bytes[5] <= 2
            &&& bytes[7] <= 1
        },
        Header::of_bytes(bytes) matches Some(header) ==> {
            &&& header.ptype is Audio <==> bytes[5] == 0
            &&& header.ptype is Hello <==> bytes[5] == 1
            &&& header.ptype is Bye <==> bytes[5] == 2
            &&& header.channels == bytes[6]
            &&& header.format is S16le <==> bytes[7] == 0
            &&& header.format is F32le <==> bytes[7] == 1
            &&& header.sample_rate == bytes[8] + 0x100 * bytes[9] + 0x1_0000 * bytes[10]
                + 0x100_0000 * bytes[11]
            &&& header.seq == bytes[12] + 0x100 * bytes[13] + 0x1_0000 * bytes[14] + 0x100_0000
                * bytes[15]
            &&& header.sample_pos == bytes[16] + 0x100 * bytes[17] + 0x1_0000 * bytes[18]
                + 0x100_0000 * bytes[19] + 0x1_0000_0000 * bytes[20] + 0x100_0000_0000 * bytes[21]
                + 0x1_0000_0000_0000 * bytes[22] + 0x100_0000_0000_0000 * bytes[23]
        },
{
    if bytes.len() >= 24 {
        let front = bytes.take(4);
        if bytes[0] == 0x53 && bytes[1] == 0x4E && bytes[2] == 0x44 && bytes[3] == 0x31 {
            assert(front =~= MAGIC@);
        } else {
            assert(front[0] == bytes[0] && front[1] == bytes[1] && front[2] == bytes[2] && front[3]
                == bytes[3]);
        }
        law_le_values(bytes.subrange(8, 12));
        law_le_values(bytes.subrange(12, 16));
        law_le_values(bytes.subrange(16, 24));
        lemma_pow256();
        lemma_le_value_bound(bytes.subrange(8, 12));
        lemma_le_value_bound(bytes.subrange(12, 16));
        lemma_le_value_bound(bytes.subrange(16, 24));
    }
}

/// A sample takes two bytes on the wire as an integer and four as a float.
pub proof fn law_sample_widths(format: WireFormat)
    ensures
        format is S16le ==> format.width() == 2,
        format is F32le ==> format.width() == 4,
{
}

} // verus!
