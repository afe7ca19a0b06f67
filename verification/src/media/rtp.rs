//! RTP packets on the wire: parsing, serialising, and the law that joins them.
use vstd::prelude::*;
use bytes::Bytes;
use crate::buffer::{
    be16, be32, buf_contents, buf_freeze, buf_put_slice, buf_put_u16, buf_put_u32, buf_put_u8,
    buf_with_capacity, bytes_as_slice, bytes_contents, bytes_from_slice,
};
use crate::error::{MediaFault, SfuError};

verus! {

/// Header extension of an RTP packet.
pub struct RtpExtension {
    /// Profile-defined identifier.
    pub profile: u16,
    /// Extension body; a whole number of 32-bit words in a well-formed packet.
    pub data: Bytes,
}

/// Fixed and variable parts of an RTP header.
pub struct RtpHeader {
    pub version: u8,
    pub padding: bool,
    pub extension: bool,
    pub csrc_count: u8,
    pub marker: bool,
    pub payload_type: u8,
    pub sequence_number: u16,
    pub timestamp: u32,
    pub ssrc: u32,
    pub csrc: Vec<u32>,
    pub extension_data: Option<RtpExtension>,
}

/// An RTP packet: header and payload.
pub struct RtpPacket {
    pub header: RtpHeader,
    pub payload: Bytes,
}

/// The mathematical value of an RTP packet.
pub ghost struct RtpPacketView {
    pub version: u8,
    pub padding: bool,
    pub extension: bool,
    pub csrc_count: u8,
    pub marker: bool,
    pub payload_type: u8,
    pub sequence_number: u16,
    pub timestamp: u32,
    pub ssrc: u32,
    pub csrc: Seq<u32>,
    pub extension_data: Option<(u16, Seq<u8>)>,
    pub payload: Seq<u8>,
}

impl View for RtpPacket {
    type V = RtpPacketView;

    open spec fn view(&self) -> RtpPacketView {
        RtpPacketView {
            version: self.header.version,
            padding: self.header.padding,
            extension: self.header.extension,
            csrc_count: self.header.csrc_count,
            marker: self.header.marker,
            payload_type: self.header.payload_type,
            sequence_number: self.header.sequence_number,
            timestamp: self.header.timestamp,
            ssrc: self.header.ssrc,
            csrc: self.header.csrc@,
            extension_data: match self.header.extension_data {
                Some(e) => Some((e.profile, bytes_contents(e.data))),
                None => None,
            },
            payload: bytes_contents(self.payload),
        }
    }
}

/// One for a set flag, zero for a clear one.
pub open spec fn bit(b: bool) -> u8 {
    if b { 1u8 } else { 0u8 }
}

/// First header octet: version, padding, extension, CSRC count.
pub open spec fn first_octet(version: u8, padding: bool, extension: bool, csrc_count: u8) -> u8 {
    (version << 6) | (bit(padding) << 5) | (bit(extension) << 4) | (csrc_count & 0x0F)
}

/// Second header octet: marker and payload type.
pub open spec fn second_octet(marker: bool, payload_type: u8) -> u8 {
    (bit(marker) << 7) | (payload_type & 0x7F)
}

/// The 16-bit number whose big-endian bytes start at `at`.
pub open spec fn be16_at(d: Seq<u8>, at: int) -> u16 {
    ((d[at] as u16) << 8) | (d[at + 1] as u16)
}

/// The 32-bit number whose big-endian bytes start at `at`.
pub open spec fn be32_at(d: Seq<u8>, at: int) -> u32 {
    ((d[at] as u32) << 24) | ((d[at + 1] as u32) << 16) | ((d[at + 2] as u32) << 8) | (d[at + 3] as u32)
}

/// The CSRC list on the wire: four big-endian bytes for each identifier.
pub open spec fn csrc_bytes(csrc: Seq<u32>) -> Seq<u8>
    decreases csrc.len(),
{
    if csrc.len() == 0 {
        Seq::<u8>::empty()
    } else {
        csrc_bytes(csrc.drop_last()) + be32(csrc.last())
    }
}

/// The number of 32-bit words announced for an extension body.
pub open spec fn extension_words(data: Seq<u8>) -> u16 {
    (data.len() / 4) as u16
}

/// The header extension on the wire: profile, length in words, body.
pub open spec fn extension_bytes(ext: Option<(u16, Seq<u8>)>) -> Seq<u8> {
    match ext {
        Some((profile, data)) => be16(profile) + be16(extension_words(data)) + data,
        None => Seq::<u8>::empty(),
    }
}

/// The twelve fixed octets of the header.
pub open spec fn fixed_header(p: RtpPacketView) -> Seq<u8> {
    seq![
        first_octet(p.version, p.padding, p.extension, p.csrc_count),
        second_octet(p.marker, p.payload_type),
    ] + be16(p.sequence_number) + be32(p.timestamp) + be32(p.ssrc)
}

/// The packet on the wire.
pub open spec fn spec_serialize(p: RtpPacketView) -> Seq<u8> {
    fixed_header(p) + csrc_bytes(p.csrc) + extension_bytes(p.extension_data) + p.payload
}

/// The number of octets of the packet on the wire.
pub open spec fn wire_len(p: RtpPacketView) -> int {
    12 + 4 * p.csrc.len() + (match p.extension_data {
        Some((_, data)) => 4 + data.len() as int,
        None => 0,
    }) + p.payload.len()
}

/// A packet whose fields fit the header's bit fields and agree with each
/// other: exactly the packets that the wire format can carry.
pub open spec fn well_formed(p: RtpPacketView) -> bool {
    &&& p.version <= 3
    &&& p.csrc_count <= 15
    &&& p.csrc.len() == p.csrc_count
    &&& p.payload_type <= 127
    &&& p.extension == p.extension_data.is_some()
    &&& match p.extension_data {
        Some((_, data)) => data.len() % 4 == 0 && data.len() / 4 <= 0xFFFF,
        None => true,
    }
}

/// The packet that the bytes hold, if they hold a complete one.
pub open spec fn spec_parse(d: Seq<u8>) -> Option<RtpPacketView> {
    if d.len() < 12 {
        None
    } else {
        let cc = d[0] & 0x0F;
        let extension = (d[0] >> 4) & 0x01 != 0;
        let csrc_end = 12 + 4 * (cc as int);
        let fixed = RtpPacketView {
            version: (d[0] >> 6) & 0x03,
            padding: (d[0] >> 5) & 0x01 != 0,
            extension,
            csrc_count: cc,
            marker: (d[1] >> 7) & 0x01 != 0,
            payload_type: d[1] & 0x7F,
            sequence_number: be16_at(d, 2),
            timestamp: be32_at(d, 4),
            ssrc: be32_at(d, 8),
            csrc: Seq::new(cc as nat, |i: int| be32_at(d, 12 + 4 * i)),
            extension_data: None,
            payload: Seq::<u8>::empty(),
        };
        if d.len() < csrc_end {
            None
        } else if !extension {
            Some(RtpPacketView { payload: d.subrange(csrc_end, d.len() as int), ..fixed })
        } else if d.len() < csrc_end + 4 {
            None
        } else {
            let ext_end = csrc_end + 4 + 4 * (be16_at(d, csrc_end + 2) as int);
            if d.len() < ext_end {
                None
            } else {
                Some(
                    RtpPacketView {
                        extension_data: Some(
                            (be16_at(d, csrc_end), d.subrange(csrc_end + 4, ext_end)),
                        ),
                        payload: d.subrange(ext_end, d.len() as int),
                        ..fixed
                    },
                )
            }
        }
    }
}

proof fn lemma_low_bits(b: u8)
    ensures
        b & 0x0F <= 15,
        (b >> 6) & 0x03 <= 3,
        b & 0x7F <= 127,
{
    assert(b & 0x0F <= 15) by (bit_vector);
    assert((b >> 6) & 0x03 <= 3) by (bit_vector);
    assert(b & 0x7F <= 127) by (bit_vector);
}

fn read_be16(data: &[u8], at: usize) -> (v: u16)
    requires
        at + 1 < data@.len(),
    ensures
        v == be16_at(data@, at as int),
{
    ((data[at] as u16) << 8) | (data[at + 1] as u16)
}

fn read_be32(data: &[u8], at: usize) -> (v: u32)
    requires
        at + 3 < data@.len(),
    ensures
        v == be32_at(data@, at as int),
{
    ((data[at] as u32) << 24) | ((data[at + 1] as u32) << 16) | ((data[at + 2] as u32) << 8) | (
    data[at + 3] as u32)
}

impl RtpPacket {
    /// A packet of the given header and payload.
    pub fn new(header: RtpHeader, payload: Bytes) -> (p: RtpPacket)
        ensures
            p.header == header,
            p.payload == payload,
    {
        RtpPacket { header, payload }
    }

    /// Reads one packet from `data`. Succeeds exactly when the twelve fixed
    /// octets, the announced CSRC list and the announced extension are all
    /// there; the rest of the bytes is the payload.
    pub fn parse(data: &[u8]) -> (r: Result<RtpPacket, SfuError>)
        ensures
            match r {
                Ok(p) => spec_parse(data@) == Some(p@),
                Err(e) => spec_parse(data@).is_none() && e == SfuError::Media(
                    MediaFault::MalformedPacket,
                ),
            },
    {
        if data.len() < 12 {
            return Err(SfuError::Media(MediaFault::MalformedPacket));
        }
        proof {
            lemma_low_bits(data@[0]);
            lemma_low_bits(data@[1]);
        }
        let version = (data[0] >> 6) & 0x03;
        let padding = (data[0] >> 5) & 0x01 != 0;
        let extension = (data[0] >> 4) & 0x01 != 0;
        let csrc_count = data[0] & 0x0F;
        let marker = (data[1] >> 7) & 0x01 != 0;
        let payload_type = data[1] & 0x7F;
        let sequence_number = read_be16(data, 2);
        let timestamp = read_be32(data, 4);
        let ssrc = read_be32(data, 8);
        let csrc_end: usize = 12 + 4 * (csrc_count as usize);
        if data.len() < csrc_end {
            return Err(SfuError::Media(MediaFault::MalformedPacket));
        }
        let mut csrc: Vec<u32> = Vec::new();
        let mut i: usize = 0;
        while i < csrc_count as usize
            invariant
                i <= csrc_count <= 15,
                csrc_end == 12 + 4 * csrc_count,
                csrc_end <= data@.len(),
                csrc@.len() == i,
                forall|k: int| 0 <= k < i ==> csrc@[k] == be32_at(data@, 12 + 4 * k),
            decreases csrc_count - i,
        {
            let id = read_be32(data, 12 + 4 * i);
            csrc.push(id);
            i = i + 1;
        }
        assert(csrc@ =~= Seq::new(csrc_count as nat, |k: int| be32_at(data@, 12 + 4 * k)));
        let mut offset: usize = csrc_end;
        let mut extension_data: Option<RtpExtension> = None;
        if extension {
            if data.len() < offset + 4 {
                return Err(SfuError::Media(MediaFault::MalformedPacket));
            }
            let profile = read_be16(data, offset);
            let words = read_be16(data, offset + 2);
            let ext_end: usize = offset + 4 + 4 * (words as usize);
            if data.len() < ext_end {
                return Err(SfuError::Media(MediaFault::MalformedPacket));
            }
            let body = bytes_from_slice(vstd::slice::slice_subrange(data, offset + 4, ext_end));
            extension_data = Some(RtpExtension { profile, data: body });
            offset = ext_end;
        }
        let payload = bytes_from_slice(vstd::slice::slice_subrange(data, offset, data.len()));
        let header = RtpHeader {
            version,
            padding,
            extension,
            csrc_count,
            marker,
            payload_type,
            sequence_number,
            timestamp,
            ssrc,
            csrc,
            extension_data,
        };
        Ok(RtpPacket::new(header, payload))
    }

    /// The number of octets that `serialize` writes, if it fits in `isize`.
    pub fn wire_size(&self) -> (r: Option<usize>)
        ensures
            match r {
                Some(n) => n == wire_len(self@) && n <= isize::MAX,
                None => wire_len(self@) > isize::MAX,
            },
    {
        let payload = bytes_as_slice(&self.payload).len() as u128;
        let count = self.header.csrc.len() as u128;
        let total: u128 = match &self.header.extension_data {
            Some(ext) => 16 + 4 * count + bytes_as_slice(&ext.data).len() as u128 + payload,
            None => 12 + 4 * count + payload,
        };
        if total > isize::MAX as u128 {
            None
        } else {
            Some(total as usize)
        }
    }

    /// Writes the packet in wire order, or nothing if it is longer than a
    /// buffer can be.
    pub fn try_serialize(&self) -> (r: Option<Bytes>)
        ensures
            match r {
                Some(out) => bytes_contents(out) == spec_serialize(self@) && wire_len(self@)
                    <= isize::MAX,
                None => wire_len(self@) > isize::MAX,
            },
    {
        match self.wire_size() {
            Some(_) => Some(self.serialize()),
            None => None,
        }
    }

    /// Writes the packet in wire order: the twelve fixed octets, each CSRC,
    /// the extension if one is held, the payload.
    pub fn serialize(&self) -> (out: Bytes)
        requires
            wire_len(self@) <= isize::MAX,
        ensures
            bytes_contents(out) == spec_serialize(self@),
    {
        let payload = bytes_as_slice(&self.payload);
        let mut buf = buf_with_capacity(12 + self.header.csrc.len() * 4 + payload.len());
        let padding: u8 = if self.header.padding { 1 } else { 0 };
        let extension: u8 = if self.header.extension { 1 } else { 0 };
        let marker: u8 = if self.header.marker { 1 } else { 0 };
        let b0 = (self.header.version << 6) | (padding << 5) | (extension << 4) | (
        self.header.csrc_count & 0x0F);
        buf_put_u8(&mut buf, b0);
        let b1 = (marker << 7) | (self.header.payload_type & 0x7F);
        buf_put_u8(&mut buf, b1);
        buf_put_u16(&mut buf, self.header.sequence_number);
        buf_put_u32(&mut buf, self.header.timestamp);
        buf_put_u32(&mut buf, self.header.ssrc);
        assert(buf_contents(buf) =~= fixed_header(self@));
        let n = self.header.csrc.len();
        let mut i: usize = 0;
        assert(self.header.csrc@.take(0) =~= Seq::<u32>::empty());
        while i < n
            invariant
                i <= n == self.header.csrc@.len(),
                wire_len(self@) <= isize::MAX,
                buf_contents(buf) == fixed_header(self@) + csrc_bytes(
                    self.header.csrc@.take(i as int),
                ),
            decreases n - i,
        {
            proof {
                let next = self.header.csrc@.take(i + 1);
                assert(next.drop_last() =~= self.header.csrc@.take(i as int));
                assert(next.last() == self.header.csrc@[i as int]);
                lemma_csrc_bytes_len(self.header.csrc@.take(i as int));
            }
            buf_put_u32(&mut buf, self.header.csrc[i]);
            i = i + 1;
            assert(buf_contents(buf) =~= fixed_header(self@) + csrc_bytes(
                self.header.csrc@.take(i as int),
            ));
        }
        assert(self.header.csrc@.take(n as int) =~= self.header.csrc@);
        proof {
            lemma_csrc_bytes_len(self.header.csrc@);
        }
        match &self.header.extension_data {
            Some(ext) => {
                let body = bytes_as_slice(&ext.data);
                buf_put_u16(&mut buf, ext.profile);
                let words = #[verifier::truncate]
                ((body.len() / 4) as u16);
                buf_put_u16(&mut buf, words);
                buf_put_slice(&mut buf, body);
                assert(buf_contents(buf) =~= fixed_header(self@) + csrc_bytes(self.header.csrc@)
                    + extension_bytes(self@.extension_data));
            },
            None => {
                assert(buf_contents(buf) =~= fixed_header(self@) + csrc_bytes(self.header.csrc@)
                    + extension_bytes(self@.extension_data));
            },
        }
        buf_put_slice(&mut buf, payload);
        buf_freeze(buf)
    }
}

/// Each CSRC takes four octets.
pub proof fn lemma_csrc_bytes_len(csrc: Seq<u32>)
    ensures
        csrc_bytes(csrc).len() == 4 * csrc.len(),
    decreases csrc.len(),
{
    if csrc.len() > 0 {
        lemma_csrc_bytes_len(csrc.drop_last());
    }
}

/// A well-formed packet takes `wire_len` octets on the wire.
pub proof fn lemma_serialize_len(p: RtpPacketView)
    ensures
        spec_serialize(p).len() == wire_len(p),
{
    lemma_csrc_bytes_len(p.csrc);
}

proof fn lemma_first_octet(version: u8, padding: bool, extension: bool, csrc_count: u8)
    requires
        version <= 3,
        csrc_count <= 15,
    ensures
        ({
            let b = first_octet(version, padding, extension, csrc_count);
            &&& (b >> 6) & 0x03 == version
            &&& ((b >> 5) & 0x01 != 0) == padding
            &&& ((b >> 4) & 0x01 != 0) == extension
            &&& b & 0x0F == csrc_count
        }),
{
    let p = bit(padding);
    let e = bit(extension);
    let b = (version << 6) | (p << 5) | (e << 4) | (csrc_count & 0x0F);
    assert((b >> 6) & 0x03 == version && (b >> 5) & 0x01 == p && (b >> 4) & 0x01 == e && b & 0x0F
        == csrc_count) by (bit_vector)
        requires
            version <= 3,
            csrc_count <= 15,
            p <= 1,
            e <= 1,
            b == (version << 6) | (p << 5) | (e << 4) | (csrc_count & 0x0F),
    ;
}

proof fn lemma_second_octet(marker: bool, payload_type: u8)
    requires
        payload_type <= 127,
    ensures
        ({
            let b = second_octet(marker, payload_type);
            &&& ((b >> 7) & 0x01 != 0) == marker
            &&& b & 0x7F == payload_type
        }),
{
    let m = bit(marker);
    let b = (m << 7) | (payload_type & 0x7F);
    assert((b >> 7) & 0x01 == m && b & 0x7F == payload_type) by (bit_vector)
        requires
            payload_type <= 127,
            m <= 1,
            b == (m << 7) | (payload_type & 0x7F),
    ;
}

/// Reading two big-endian bytes gives back the number written.
pub proof fn lemma_be16_round_trip(d: Seq<u8>, at: int, v: u16)
    requires
        0 <= at,
        at + 2 <= d.len(),
        d.subrange(at, at + 2) == be16(v),
    ensures
        be16_at(d, at) == v,
{
    let hi = (v >> 8) as u8;
    let lo = (v & 0xff) as u8;
    assert(d[at] == d.subrange(at, at + 2)[0]);
    assert(d[at + 1] == d.subrange(at, at + 2)[1]);
    assert(((hi as u16) << 8) | (lo as u16) == v) by (bit_vector)
        requires
            hi == (v >> 8) as u8,
            lo == (v & 0xff) as u8,
    ;
}

/// Reading four big-endian bytes gives back the number written.
pub proof fn lemma_be32_round_trip(d: Seq<u8>, at: int, v: u32)
    requires
        0 <= at,
        at + 4 <= d.len(),
        d.subrange(at, at + 4) == be32(v),
    ensures
        be32_at(d, at) == v,
{
    let b0 = (v >> 24) as u8;
    let b1 = ((v >> 16) & 0xff) as u8;
    let b2 = ((v >> 8) & 0xff) as u8;
    let b3 = (v & 0xff) as u8;
    assert(d[at] == d.subrange(at, at + 4)[0]);
    assert(d[at + 1] == d.subrange(at, at + 4)[1]);
    assert(d[at + 2] == d.subrange(at, at + 4)[2]);
    assert(d[at + 3] == d.subrange(at, at + 4)[3]);
    assert(((b0 as u32) << 24) | ((b1 as u32) << 16) | ((b2 as u32) << 8) | (b3 as u32) == v)
        by (bit_vector)
        requires
            b0 == (v >> 24) as u8,
            b1 == ((v >> 16) & 0xff) as u8,
            b2 == ((v >> 8) & 0xff) as u8,
            b3 == (v & 0xff) as u8,
    ;
}

proof fn lemma_csrc_bytes_at(csrc: Seq<u32>, k: int)
    requires
        0 <= k < csrc.len(),
    ensures
        csrc_bytes(csrc).len() == 4 * csrc.len(),
        csrc_bytes(csrc).subrange(4 * k, 4 * k + 4) == be32(csrc[k]),
    decreases csrc.len(),
{
    lemma_csrc_bytes_len(csrc);
    lemma_csrc_bytes_len(csrc.drop_last());
    if k == csrc.len() - 1 {
        assert(csrc_bytes(csrc).subrange(4 * k, 4 * k + 4) =~= be32(csrc[k]));
    } else {
        lemma_csrc_bytes_at(csrc.drop_last(), k);
        assert(csrc_bytes(csrc).subrange(4 * k, 4 * k + 4) =~= csrc_bytes(
            csrc.drop_last(),
        ).subrange(4 * k, 4 * k + 4));
    }
}

/// Where the parts of a serialised packet lie.
proof fn lemma_layout(p: RtpPacketView)
    ensures
        ({
            let d = spec_serialize(p);
            let csrc_end = 12 + 4 * (p.csrc.len() as int);
            let ext_end = csrc_end + extension_bytes(p.extension_data).len() as int;
            &&& d.len() == wire_len(p)
            &&& d.len() == ext_end + p.payload.len()
            &&& d.subrange(0, 12) == fixed_header(p)
            &&& d.subrange(12, csrc_end) == csrc_bytes(p.csrc)
            &&& d.subrange(csrc_end, ext_end) == extension_bytes(p.extension_data)
            &&& d.subrange(ext_end, d.len() as int) == p.payload
        }),
{
    let d = spec_serialize(p);
    lemma_csrc_bytes_len(p.csrc);
    let csrc_end = 12 + 4 * (p.csrc.len() as int);
    let ext_end = csrc_end + extension_bytes(p.extension_data).len() as int;
    assert(fixed_header(p).len() == 12);
    assert(d.subrange(0, 12) =~= fixed_header(p));
    assert(d.subrange(12, csrc_end) =~= csrc_bytes(p.csrc));
    assert(d.subrange(csrc_end, ext_end) =~= extension_bytes(p.extension_data));
    assert(d.subrange(ext_end, d.len() as int) =~= p.payload);
}

proof fn lemma_fixed_fields(p: RtpPacketView, d: Seq<u8>)
    requires
        well_formed(p),
        d.len() >= 12,
        d.subrange(0, 12) == fixed_header(p),
    ensures
        (d[0] >> 6) & 0x03 == p.version,
        ((d[0] >> 5) & 0x01 != 0) == p.padding,
        ((d[0] >> 4) & 0x01 != 0) == p.extension,
        d[0] & 0x0F == p.csrc_count,
        ((d[1] >> 7) & 0x01 != 0) == p.marker,
        d[1] & 0x7F == p.payload_type,
        be16_at(d, 2) == p.sequence_number,
        be32_at(d, 4) == p.timestamp,
        be32_at(d, 8) == p.ssrc,
{
    let h = fixed_header(p);
    lemma_first_octet(p.version, p.padding, p.extension, p.csrc_count);
    lemma_second_octet(p.marker, p.payload_type);
    assert(d[0] == d.subrange(0, 12)[0]);
    assert(d[1] == d.subrange(0, 12)[1]);
    assert(h[0] == first_octet(p.version, p.padding, p.extension, p.csrc_count));
    assert(h[1] == second_octet(p.marker, p.payload_type));
    assert(d.subrange(2, 4) =~= h.subrange(2, 4));
    assert(h.subrange(2, 4) =~= be16(p.sequence_number));
    assert(d.subrange(4, 8) =~= h.subrange(4, 8));
    assert(h.subrange(4, 8) =~= be32(p.timestamp));
    assert(d.subrange(8, 12) =~= h.subrange(8, 12));
    assert(h.subrange(8, 12) =~= be32(p.ssrc));
    lemma_be16_round_trip(d, 2, p.sequence_number);
    lemma_be32_round_trip(d, 4, p.timestamp);
    lemma_be32_round_trip(d, 8, p.ssrc);
}

proof fn lemma_csrc_fields(csrc: Seq<u32>, d: Seq<u8>)
    requires
        d.len() >= 12 + 4 * (csrc.len() as int),
        d.subrange(12, 12 + 4 * (csrc.len() as int)) == csrc_bytes(csrc),
    ensures
        Seq::new(csrc.len(), |i: int| be32_at(d, 12 + 4 * i)) == csrc,
{
    let parsed = Seq::new(csrc.len(), |i: int| be32_at(d, 12 + 4 * i));
    assert forall|k: int| 0 <= k < csrc.len() implies parsed[k] == csrc[k] by {
        lemma_csrc_bytes_at(csrc, k);
        assert(d.subrange(12 + 4 * k, 12 + 4 * k + 4) =~= d.subrange(
            12,
            12 + 4 * (csrc.len() as int),
        ).subrange(4 * k, 4 * k + 4));
        lemma_be32_round_trip(d, 12 + 4 * k, csrc[k]);
    }
    assert(parsed =~= csrc);
}

proof fn lemma_extension_fields(profile: u16, data: Seq<u8>, d: Seq<u8>, at: int)
    requires
        0 <= at,
        data.len() % 4 == 0,
        data.len() / 4 <= 0xFFFF,
        d.len() >= at + 4 + (data.len() as int),
        d.subrange(at, at + 4 + (data.len() as int)) == extension_bytes(Some((profile, data))),
    ensures
        be16_at(d, at) == profile,
        4 * (be16_at(d, at + 2) as int) == data.len(),
        d.subrange(at + 4, at + 4 + (data.len() as int)) == data,
{
    let e = extension_bytes(Some((profile, data)));
    let words = extension_words(data);
    assert(words as int == data.len() / 4);
    assert(4 * (words as int) == data.len());
    let part = d.subrange(at, at + 4 + (data.len() as int));
    assert(d.subrange(at, at + 2) =~= part.subrange(0, 2));
    assert(e.subrange(0, 2) =~= be16(profile));
    assert(d.subrange(at + 2, at + 4) =~= part.subrange(2, 4));
    assert(e.subrange(2, 4) =~= be16(words));
    lemma_be16_round_trip(d, at, profile);
    lemma_be16_round_trip(d, at + 2, words);
    assert(d.subrange(at + 4, at + 4 + (data.len() as int)) =~= part.subrange(4, 4 + (data.len() as int)));
    assert(e.subrange(4, 4 + (data.len() as int)) =~= data);
}

/// Parsing what `serialize` wrote gives back the packet, for every packet
/// that the wire format can carry.
pub proof fn lemma_parse_serialize(p: RtpPacketView)
    requires
        well_formed(p),
    ensures
        spec_parse(spec_serialize(p)) == Some(p),
{
    let d = spec_serialize(p);
    let csrc_end = 12 + 4 * (p.csrc.len() as int);
    lemma_layout(p);
    lemma_fixed_fields(p, d);
    lemma_csrc_fields(p.csrc, d);
    match p.extension_data {
        Some((profile, data)) => {
            lemma_extension_fields(profile, data, d, csrc_end);
        },
        None => {},
    }
}

} // verus!
