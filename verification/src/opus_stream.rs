//! Ogg/Opus stream assembly of the current pipeline: identification and
//! comment headers, one-packet delay so that the last packet can close the
//! stream, and granule positions in 48 kHz units. Pages are laid out by the
//! `ogg` crate's packet writer.

use std::time::{Duration, SystemTime, SystemTimeError};
use vstd::prelude::*;

use crate::chunker::{frames_of, leftover_of, Chunker};
use crate::ogg_opus::{ascii4, le32, FrameEncoder};
use crate::util::extend_copy;

verus! {

broadcast use vstd::seq_lib::group_seq_properties;

/// The `ogg` crate's packet writer over an in-memory buffer. Verus cannot
/// declare the writer type itself (its type parameter is bound by
/// `std::io::Write`), so it is held here, opaque.
#[verifier::external_body]
pub struct OggPacketWriter {
    inner: ogg::writing::PacketWriter<'static, Vec<u8>>,
}

#[verifier::external_type_specification]
#[verifier::external_body]
pub struct ExIoError(std::io::Error);

#[verifier::external_type_specification]
#[verifier::external_body]
pub struct ExSystemTime(std::time::SystemTime);

#[verifier::external_type_specification]
#[verifier::external_body]
pub struct ExSystemTimeError(std::time::SystemTimeError);

/// Opus frame length in samples (20 ms at 16 kHz).
pub const OPUS_FRAME_SIZE: usize = 320;

/// Granule increment per Opus frame, in 48 kHz units.
pub const GRANULE_PER_FRAME: u64 = 960;

/// Encoder bitrate in kbit/s.
pub const BITRATE_KBPS: i32 = 24;

/// Errors of Ogg/Opus encoding.
#[derive(Debug)]
pub enum EncodeError {
    /// The Opus encoder failed; its message.
    Opus(String),
    /// Writing the stream failed.
    Io(std::io::Error),
}

/// How a packet ends its page or stream.
#[derive(Debug, Clone, Copy, PartialEq, Eq, Structural)]
pub enum PacketEnd {
    /// The packet may share a page with the following ones.
    NormalPacket,
    /// The packet closes its page.
    EndPage,
    /// The packet closes the stream.
    EndStream,
}

/// One packet handed to the Ogg writer.
pub struct OggPacket {
    pub data: Seq<u8>,
    pub serial: u32,
    pub end: PacketEnd,
    pub granule: u64,
}

/// Little-endian encoding of a 16-bit value.
pub open spec fn le16(v: u16) -> Seq<u8> {
    seq![(v & 0xffu16) as u8, ((v >> 8u16) & 0xffu16) as u8]
}

/// Pre-skip in 48 kHz samples for an encoder lookahead of `lookahead`
/// samples at 16 kHz, truncated to 16 bits.
pub open spec fn preskip_of(lookahead: int) -> u16 {
    (lookahead * 48000 / 16000) as u16
}

/// The OpusHead packet: version 1, one channel, the pre-skip, input rate
/// 16000, output gain 0, mapping family 0.
pub open spec fn opus_head(preskip: u16) -> Seq<u8> {
    ascii4('O', 'p', 'u', 's') + ascii4('H', 'e', 'a', 'd') + seq![1u8, 1u8] + le16(preskip)
        + le32(16000) + seq![0u8, 0u8, 0u8]
}

/// The OpusTags packet: vendor "bark", no comments.
pub open spec fn opus_tags() -> Seq<u8> {
    ascii4('O', 'p', 'u', 's') + ascii4('T', 'a', 'g', 's') + le32(4) + ascii4('b', 'a', 'r', 'k')
        + le32(0)
}

/// The two header packets, each closing its page, at granule 0.
pub open spec fn header_packets(serial: u32, preskip: u16) -> Seq<OggPacket> {
    seq![
        OggPacket { data: opus_head(preskip), serial, end: PacketEnd::EndPage, granule: 0 },
        OggPacket { data: opus_tags(), serial, end: PacketEnd::EndPage, granule: 0 },
    ]
}

/// The packets an Ogg packet writer has been handed, in order, each as its
/// data, serial number, end marker (see `end_code`) and granule position.
pub uninterp spec fn ogg_handed(w: OggPacketWriter) -> Seq<(Seq<u8>, u32, u8, u64)>;

/// The bytes the writer under an Ogg packet writer held when it was made.
pub uninterp spec fn ogg_start(w: OggPacketWriter) -> Seq<u8>;

/// The bytes the `ogg` crate's packet writer writes for a sequence of
/// packets (data, serial number, end marker, granule position), in the
/// order they were handed to it.
pub uninterp spec fn ogg_layout(packets: Seq<(Seq<u8>, u32, u8, u64)>) -> Seq<u8>;

/// The number standing for an end marker: 0 for a packet that may share
/// its page, 1 for one that ends its page, 2 for one that ends the stream.
pub open spec fn end_code(end: PacketEnd) -> u8 {
    match end {
        PacketEnd::NormalPacket => 0,
        PacketEnd::EndPage => 1,
        PacketEnd::EndStream => 2,
    }
}

/// A packet as the Ogg writer is handed it.
pub open spec fn packet_tuple(p: OggPacket) -> (Seq<u8>, u32, u8, u64) {
    (p.data, p.serial, end_code(p.end), p.granule)
}

/// The bytes the Ogg writer writes for `packets`.
pub open spec fn layout_of(packets: Seq<OggPacket>) -> Seq<u8> {
    ogg_layout(packets.map_values(|p: OggPacket| packet_tuple(p)))
}

/// Creates an Ogg packet writer over `wtr`.
///
/// Calls `ogg::writing::PacketWriter::new`, which keeps `wtr` and an empty
/// table of streams: the writer has been handed nothing and starts from the
/// bytes of `wtr`.
#[verifier::external_body]
fn packet_writer_new(wtr: Vec<u8>) -> (w: OggPacketWriter)
    ensures
        ogg_handed(w) == Seq::<(Seq<u8>, u32, u8, u64)>::empty(),
        ogg_start(w) == wtr@,
{
    OggPacketWriter { inner: ogg::writing::PacketWriter::new(wtr) }
}

/// Hands one packet to the Ogg writer.
///
/// Calls `ogg::writing::PacketWriter::write_packet` with the given serial,
/// end-of-page/stream marker and absolute granule position; the packet is
/// recorded as handed. The call fails only when a write to the underlying
/// writer fails (the header is built in a `Cursor<Vec<u8>>`, the page goes
/// to the writer); the writer here is a `Vec<u8>`, whose writes append and
/// never fail, so the result is `Ok`. The crate counts pages per stream in
/// a `u32`; a stream of more than `u32::MAX` pages is not covered.
#[verifier::external_body]
fn packet_writer_write(
    pw: &mut OggPacketWriter,
    data: Vec<u8>,
    serial: u32,
    end: PacketEnd,
    granule: u64,
) -> (r: Result<(), std::io::Error>)
    ensures
        r is Ok,
        ogg_handed(*final(pw)) == ogg_handed(*old(pw)).push((data@, serial, end_code(end), granule)),
        ogg_start(*final(pw)) == ogg_start(*old(pw)),
{
    let info = match end {
        PacketEnd::NormalPacket => ogg::writing::PacketWriteEndInfo::NormalPacket,
        PacketEnd::EndPage => ogg::writing::PacketWriteEndInfo::EndPage,
        PacketEnd::EndStream => ogg::writing::PacketWriteEndInfo::EndStream,
    };
    pw.inner.write_packet(data, serial, info, granule)
}

/// Gives back the underlying writer.
///
/// Calls `ogg::writing::PacketWriter::into_inner`, which returns the writer
/// itself: the bytes it started with, followed by the pages the crate wrote
/// for the packets handed to it. The page layout is the crate's and is
/// named, not spelled out.
#[verifier::external_body]
fn packet_writer_into_inner(pw: OggPacketWriter) -> (r: Vec<u8>)
    ensures
        r@ == ogg_start(pw) + ogg_layout(ogg_handed(pw)),
{
    pw.inner.into_inner()
}

/// The current wall-clock time.
///
/// Calls `SystemTime::now`; nothing is stated: it is the clock.
#[verifier::external_body]
fn system_time_now() -> SystemTime {
    SystemTime::now()
}

/// Time elapsed since the Unix epoch, or an error for a clock set before it.
///
/// Calls `SystemTime::duration_since(UNIX_EPOCH)`; nothing is stated.
#[verifier::external_body]
fn since_unix_epoch(t: &SystemTime) -> Result<Duration, SystemTimeError> {
    t.duration_since(std::time::UNIX_EPOCH)
}

/// Whole nanoseconds in a duration.
///
/// Calls `Duration::as_nanos`; nothing is stated of the count.
#[verifier::external_body]
fn duration_nanos(d: &Duration) -> u128 {
    d.as_nanos()
}

/// The stream serial derived from a clock reading: the low 32 bits of the
/// nanoseconds since the epoch, or 413 when the clock gave no reading.
pub fn serial_from_clock(nanos: Option<u128>) -> (serial: u32)
    ensures
        serial == match nanos {
            Some(n) => (n % 0x1_0000_0000) as u32,
            None => 413u32,
        },
{
    match nanos {
        Some(n) => {
            let low: u128 = n % 0x1_0000_0000u128;
            low as u32
        },
        None => 413,
    }
}

/// A random-enough stream serial number, taken from the clock.
pub fn ogg_serial() -> u32 {
    let now = system_time_now();
    let nanos = match since_unix_epoch(&now) {
        Ok(d) => Some(duration_nanos(&d)),
        Err(_) => None,
    };
    serial_from_clock(nanos)
}

/// Builds the OpusHead packet for the given pre-skip.
fn build_opus_head(preskip: u16) -> (head: Vec<u8>)
    ensures
        head@ == opus_head(preskip),
{
    let mut head: Vec<u8> = Vec::with_capacity(19);
    let magic: [u8; 8] = [0x4f, 0x70, 0x75, 0x73, 0x48, 0x65, 0x61, 0x64];
    extend_copy(&mut head, &magic);
    head.push(1);
    head.push(1);
    head.push((preskip & 0xff) as u8);
    head.push(((preskip >> 8u16) & 0xff) as u8);
    crate::ogg_opus::write_le32_to_vec(&mut head, 16_000);
    head.push(0);
    head.push(0);
    head.push(0);
    proof {
        assert(magic@ =~= ascii4('O', 'p', 'u', 's') + ascii4('H', 'e', 'a', 'd'));
        assert(head@ =~= opus_head(preskip));
    }
    head
}

/// Builds the OpusTags packet.
fn build_opus_tags() -> (tags: Vec<u8>)
    ensures
        tags@ == opus_tags(),
{
    let mut tags: Vec<u8> = Vec::new();
    let magic: [u8; 8] = [0x4f, 0x70, 0x75, 0x73, 0x54, 0x61, 0x67, 0x73];
    extend_copy(&mut tags, &magic);
    crate::ogg_opus::write_le32_to_vec(&mut tags, 4);
    let vendor: [u8; 4] = [0x62, 0x61, 0x72, 0x6b];
    extend_copy(&mut tags, &vendor);
    crate::ogg_opus::write_le32_to_vec(&mut tags, 0);
    proof {
        assert(magic@ =~= ascii4('O', 'p', 'u', 's') + ascii4('T', 'a', 'g', 's'));
        assert(vendor@ =~= ascii4('b', 'a', 'r', 'k'));
        assert(tags@ =~= opus_tags());
    }
    tags
}

/// Ogg side of the Opus encoder, writing to memory: the headers, then each
/// encoded packet one step late, so that the last one can end the stream.
pub struct InternalOpusEncoder {
    ogg: OggPacketWriter,
    serial: u32,
    granule_pos: u64,
    pending: Option<Vec<u8>>,
    sent: Ghost<Seq<OggPacket>>,
}

impl InternalOpusEncoder {
    /// Every packet handed to the Ogg writer so far, in order.
    pub closed spec fn packets(&self) -> Seq<OggPacket> {
        self.sent@
    }

    /// The stream serial number.
    pub closed spec fn serial(&self) -> u32 {
        self.serial
    }

    /// The bytes the underlying writer started with.
    pub closed spec fn base(&self) -> Seq<u8> {
        ogg_start(self.ogg)
    }

    /// The internal invariant: the Ogg writer has been handed exactly the
    /// packets recorded.
    pub closed spec fn wf(&self) -> bool {
        ogg_handed(self.ogg) == self.sent@.map_values(|p: OggPacket| packet_tuple(p))
    }

    /// The granule position of the last packet handed over.
    pub closed spec fn granule(&self) -> u64 {
        self.granule_pos
    }

    /// The encoded packet held back until the next one arrives.
    pub closed spec fn held(&self) -> Option<Seq<u8>> {
        match self.pending {
            Some(p) => Some(p@),
            None => None,
        }
    }

    /// Starts a stream over `writer` for an Opus encoder with the given
    /// lookahead (samples at 16 kHz): the OpusHead and OpusTags packets are
    /// written, each on its own page.
    pub fn new(writer: Vec<u8>, lookahead: i32) -> (res: Result<Self, EncodeError>)
        requires
            lookahead >= 0,
        ensures
            res is Ok,
            res matches Ok(e) ==> {
                &&& e.wf()
                &&& e.base() == writer@
                &&& e.packets() == header_packets(e.serial(), preskip_of(lookahead as int))
                &&& e.granule() == 0
                &&& e.held() is None
            },
    {
        let serial = ogg_serial();
        let ogg = packet_writer_new(writer);
        let mut this = InternalOpusEncoder {
            ogg,
            serial,
            granule_pos: 0,
            pending: None,
            sent: Ghost(Seq::empty()),
        };
        proof {
            assert(this.sent@.map_values(|p: OggPacket| packet_tuple(p)) =~= Seq::<
                (Seq<u8>, u32, u8, u64),
            >::empty());
        }
        match this.write_headers(lookahead) {
            Ok(()) => Ok(this),
            Err(e) => Err(e),
        }
    }

    /// Writes the identification and comment headers.
    fn write_headers(&mut self, lookahead: i32) -> (res: Result<(), EncodeError>)
        requires
            lookahead >= 0,
            old(self).packets() == Seq::<OggPacket>::empty(),
            old(self).wf(),
        ensures
            final(self).wf(),
            final(self).base() == old(self).base(),
            final(self).serial() == old(self).serial(),
            final(self).granule() == old(self).granule(),
            final(self).held() == old(self).held(),
            res is Ok,
            res is Ok ==> final(self).packets() == header_packets(
                old(self).serial(),
                preskip_of(lookahead as int),
            ),
    {
        let wide: u64 = lookahead as u64 * 48000 / 16000;
        let preskip: u16 = wide as u16;
        let head = build_opus_head(preskip);
        let ghost head_view = head@;
        if let Err(e) = packet_writer_write(&mut self.ogg, head, self.serial, PacketEnd::EndPage, 0) {
            return Err(EncodeError::Io(e));
        }
        let tags = build_opus_tags();
        let ghost tags_view = tags@;
        if let Err(e) = packet_writer_write(&mut self.ogg, tags, self.serial, PacketEnd::EndPage, 0) {
            return Err(EncodeError::Io(e));
        }
        proof {
            self.sent@ = seq![
                OggPacket { data: head_view, serial: self.serial, end: PacketEnd::EndPage, granule: 0 },
                OggPacket { data: tags_view, serial: self.serial, end: PacketEnd::EndPage, granule: 0 },
            ];
            assert(self.sent@ =~= header_packets(self.serial, preskip_of(lookahead as int)));
            assert(self.sent@.map_values(|p: OggPacket| packet_tuple(p)) =~= ogg_handed(self.ogg));
        }
        Ok(())
    }

    /// Takes the next encoded packet; the previously held packet, if any,
    /// is handed to the Ogg writer with the granule position advanced by
    /// one frame.
    pub fn push_packet(&mut self, packet: Vec<u8>) -> (res: Result<(), EncodeError>)
        requires
            old(self).wf(),
            old(self).granule() + GRANULE_PER_FRAME <= u64::MAX,
        ensures
            final(self).wf(),
            final(self).base() == old(self).base(),
            final(self).serial() == old(self).serial(),
            res is Ok,
            res is Ok ==> final(self).held() == Some(packet@),
            res is Ok ==> match old(self).held() {
                Some(prev) => {
                    &&& final(self).granule() == old(self).granule() + GRANULE_PER_FRAME
                    &&& final(self).packets() == old(self).packets().push(
                        OggPacket {
                            data: prev,
                            serial: old(self).serial(),
                            end: PacketEnd::NormalPacket,
                            granule: final(self).granule(),
                        },
                    )
                },
                None => {
                    &&& final(self).granule() == old(self).granule()
                    &&& final(self).packets() == old(self).packets()
                },
            },
    {
        let previous = self.pending.take();
        self.pending = Some(packet);
        if let Some(prev) = previous {
            self.granule_pos = self.granule_pos + GRANULE_PER_FRAME;
            let ghost prev_view = prev@;
            if let Err(e) = packet_writer_write(
                &mut self.ogg,
                prev,
                self.serial,
                PacketEnd::NormalPacket,
                self.granule_pos,
            ) {
                return Err(EncodeError::Io(e));
            }
            proof {
                let ghost before = self.sent@;
                self.sent@ = self.sent@.push(
                    OggPacket {
                        data: prev_view,
                        serial: self.serial,
                        end: PacketEnd::NormalPacket,
                        granule: self.granule_pos,
                    },
                );
                assert(self.sent@.map_values(|p: OggPacket| packet_tuple(p)) =~= before.map_values(
                    |p: OggPacket| packet_tuple(p),
                ).push((prev_view, self.serial, 0u8, self.granule_pos)));
            }
        }
        Ok(())
    }

    /// Hands the held packet (an empty one when there is none) to the Ogg
    /// writer as the stream's last packet, one frame further on.
    fn write_last(&mut self) -> (res: Result<(), EncodeError>)
        requires
            old(self).wf(),
            old(self).granule() + GRANULE_PER_FRAME <= u64::MAX,
        ensures
            final(self).wf(),
            final(self).base() == old(self).base(),
            res is Ok,
            res is Ok ==> final(self).packets() == old(self).packets().push(old(self).final_packet()),
    {
        let packet: Vec<u8> = match self.pending.take() {
            Some(p) => p,
            None => Vec::new(),
        };
        let ghost packet_view = packet@;
        self.granule_pos = self.granule_pos + GRANULE_PER_FRAME;
        if let Err(e) = packet_writer_write(
            &mut self.ogg,
            packet,
            self.serial,
            PacketEnd::EndStream,
            self.granule_pos,
        ) {
            return Err(EncodeError::Io(e));
        }
        proof {
            let ghost before = self.sent@;
            self.sent@ = self.sent@.push(
                OggPacket {
                    data: packet_view,
                    serial: self.serial,
                    end: PacketEnd::EndStream,
                    granule: self.granule_pos,
                },
            );
            assert(self.sent@.map_values(|p: OggPacket| packet_tuple(p)) =~= before.map_values(
                |p: OggPacket| packet_tuple(p),
            ).push((packet_view, self.serial, 2u8, self.granule_pos)));
        }
        Ok(())
    }

    /// Ends the stream: the held packet (an empty one when there is none)
    /// goes out as the last packet, one frame further on (see
    /// `final_packet`), and the underlying writer is returned: the bytes it
    /// started with, then the `ogg` crate's pages for every packet handed
    /// over.
    pub fn finish(self) -> (res: Result<Vec<u8>, EncodeError>)
        requires
            self.wf(),
            self.granule() + GRANULE_PER_FRAME <= u64::MAX,
        ensures
            res matches Ok(b) && b@ == self.base() + layout_of(self.packets().push(self.final_packet())),
    {
        let mut this = self;
        match this.write_last() {
            Ok(()) => Ok(packet_writer_into_inner(this.ogg)),
            Err(e) => Err(e),
        }
    }

    /// What `finish` hands to the Ogg writer as the last packet.
    pub open spec fn final_packet(&self) -> OggPacket {
        OggPacket {
            data: match self.held() {
                Some(p) => p,
                None => Seq::empty(),
            },
            serial: self.serial(),
            end: PacketEnd::EndStream,
            granule: (self.granule() + GRANULE_PER_FRAME) as u64,
        }
    }
}

/// The audio packets sent on with the packets `q`, all but the last of a
/// stream: packet `k` may share its page and is stamped with the granule
/// position after `k + 1` frames.
pub open spec fn sent_audio(serial: u32, q: Seq<Seq<u8>>) -> Seq<OggPacket> {
    Seq::new(
        q.len(),
        |k: int|
            OggPacket {
                data: q[k],
                serial,
                end: PacketEnd::NormalPacket,
                granule: (960 * (k + 1)) as u64,
            },
    )
}

/// Every packet of a finished stream whose frames were encoded as `q`: the
/// headers, every packet but the last sent on, and the last one ending the
/// stream (an empty one when nothing was encoded).
pub open spec fn opus_stream_packets(serial: u32, preskip: u16, q: Seq<Seq<u8>>) -> Seq<OggPacket> {
    header_packets(serial, preskip) + if q.len() == 0 {
        seq![OggPacket { data: Seq::empty(), serial, end: PacketEnd::EndStream, granule: 960 }]
    } else {
        sent_audio(serial, q.drop_last()) + seq![
            OggPacket {
                data: q.last(),
                serial,
                end: PacketEnd::EndStream,
                granule: (960 * q.len()) as u64,
            },
        ]
    }
}

/// `s` padded with zeros to a whole frame of 320 samples.
pub open spec fn zero_padded(s: Seq<i16>) -> Seq<i16> {
    s + Seq::new((320 - s.len()) as nat, |i: int| 0i16)
}

/// Opus encoding of 16 kHz mono audio into an in-memory Ogg stream: the
/// audio is cut into 20 ms frames, each frame is encoded by `codec` into
/// one packet, and the packets go to the Ogg side one step late.
pub struct OpusEncoder<E: FrameEncoder<i16, Error = String>> {
    codec: E,
    inner: InternalOpusEncoder,
    chunker: Chunker<i16, 320>,
    samples: u64,
    frames: Ghost<Seq<Seq<i16>>>,
    encoded: Ghost<Seq<Seq<u8>>>,
    preskip: Ghost<u16>,
}

impl<E: FrameEncoder<i16, Error = String>> OpusEncoder<E> {
    /// Frames encoded so far.
    pub closed spec fn frames_encoded(&self) -> nat {
        self.frames@.len()
    }

    /// The frames handed to the codec so far, in order.
    pub closed spec fn frames(&self) -> Seq<Seq<i16>> {
        self.frames@
    }

    /// The codec.
    pub closed spec fn codec(&self) -> E {
        self.codec
    }

    /// The stream serial number.
    pub closed spec fn serial(&self) -> u32 {
        self.inner.serial()
    }

    /// The pre-skip written in the stream's header.
    pub closed spec fn preskip(&self) -> u16 {
        self.preskip@
    }

    /// Samples waiting for a frame to fill.
    pub closed spec fn pending(&self) -> Seq<i16> {
        self.chunker.pending()
    }

    /// Samples fed so far.
    pub closed spec fn samples_fed(&self) -> u64 {
        self.samples
    }

    /// Packets handed to the Ogg writer so far.
    pub closed spec fn packets(&self) -> Seq<OggPacket> {
        self.inner.packets()
    }

    /// The frames the codec will have been handed once the stream ends:
    /// those so far, then the pending samples padded with zeros, if any.
    pub open spec fn final_frames(&self) -> Seq<Seq<i16>> {
        self.frames() + if self.pending().len() > 0 {
            seq![zero_padded(self.pending())]
        } else {
            Seq::empty()
        }
    }

    /// The internal invariant: packet `k` is what the codec gave for frame
    /// `k`; the headers and every packet but the last have gone to the Ogg
    /// writer, which started empty, and the last packet is held, at granule
    /// position `960 * (n - 1)` after `n` frames.
    pub closed spec fn wf(&self) -> bool {
        let n = self.frames@.len();
        let q = self.encoded@;
        &&& self.chunker.wf()
        &&& self.inner.wf()
        &&& self.inner.base() == Seq::<u8>::empty()
        &&& q.len() == n
        &&& forall|k: int| 0 <= k < n ==> #[trigger] crate::ogg_opus::encodes_to(&self.codec, self.frames@[k], q[k])
        &&& n == 0 ==> {
            &&& self.inner.held() is None
            &&& self.inner.granule() == 0
            &&& self.inner.packets() == header_packets(self.inner.serial(), self.preskip@)
        }
        &&& n > 0 ==> {
            &&& self.inner.held() == Some(q.last())
            &&& self.inner.granule() == 960 * (n - 1)
            &&& self.inner.packets() == header_packets(self.inner.serial(), self.preskip@) + sent_audio(
                self.inner.serial(),
                q.drop_last(),
            )
        }
    }

    /// A new encoder over `codec`, whose lookahead (samples at 16 kHz)
    /// sets the stream's pre-skip; the two header packets are written.
    pub fn new(codec: E, lookahead: i32) -> (res: Result<Self, EncodeError>)
        requires
            lookahead >= 0,
        ensures
            res is Ok,
            res matches Ok(e) ==> {
                &&& e.wf()
                &&& e.frames() == Seq::<Seq<i16>>::empty()
                &&& e.codec() == codec
                &&& e.preskip() == preskip_of(lookahead as int)
                &&& e.pending() == Seq::<i16>::empty()
                &&& e.samples_fed() == 0
                &&& e.packets() == header_packets(e.serial(), e.preskip())
            },
    {
        match InternalOpusEncoder::new(Vec::new(), lookahead) {
            Ok(inner) => Ok(OpusEncoder {
                codec,
                inner,
                chunker: Chunker::new(),
                samples: 0,
                frames: Ghost(Seq::empty()),
                encoded: Ghost(Seq::empty()),
                preskip: Ghost(preskip_of(lookahead as int)),
            }),
            Err(e) => Err(e),
        }
    }

    /// Encodes one frame and hands the packet to the Ogg side.
    fn encode(&mut self, frame: &[i16]) -> (res: Result<(), EncodeError>)
        requires
            old(self).wf(),
            960 * (old(self).frames_encoded() + 1) <= u64::MAX,
        ensures
            final(self).chunker == old(self).chunker,
            final(self).samples == old(self).samples,
            final(self).codec == old(self).codec,
            final(self).preskip == old(self).preskip,
            final(self).inner.serial() == old(self).inner.serial(),
            final(self).wf(),
            res is Ok ==> final(self).frames() == old(self).frames().push(frame@),
            res is Err ==> {
                &&& res matches Err(EncodeError::Opus(_))
                &&& final(self).frames() == old(self).frames()
            },
    {
        let packet = match self.codec.encode_frame(frame) {
            Ok(p) => p,
            Err(msg) => {
                return Err(EncodeError::Opus(msg));
            },
        };
        proof {
            assert(crate::ogg_opus::encodes_to(&self.codec, frame@, packet@));
        }
        let ghost n = self.frames@.len();
        let ghost q = self.encoded@;
        let ghost pv = packet@;
        let res = self.inner.push_packet(packet);
        proof {
            self.frames@ = self.frames@.push(frame@);
            self.encoded@ = self.encoded@.push(pv);
            let q2 = self.encoded@;
            assert(q2.drop_last() =~= q);
            if n > 0 {
                assert(sent_audio(self.inner.serial(), q2.drop_last()) =~= sent_audio(
                    self.inner.serial(),
                    q.drop_last(),
                ).push(
                    OggPacket {
                        data: q.last(),
                        serial: self.inner.serial(),
                        end: PacketEnd::NormalPacket,
                        granule: (960 * n) as u64,
                    },
                ));
                assert(self.inner.packets() =~= header_packets(self.inner.serial(), self.preskip@)
                    + sent_audio(self.inner.serial(), q2.drop_last()));
            } else {
                assert(sent_audio(self.inner.serial(), q2.drop_last()) =~= Seq::<OggPacket>::empty());
                assert(self.inner.packets() =~= header_packets(self.inner.serial(), self.preskip@)
                    + sent_audio(self.inner.serial(), q2.drop_last()));
            }
            assert forall|k: int| 0 <= k < n + 1 implies #[trigger] crate::ogg_opus::encodes_to(
                &self.codec,
                self.frames@[k],
                q2[k],
            ) by {
                if k < n {
                    assert(self.frames@[k] == old(self).frames@[k]);
                    assert(q2[k] == q[k]);
                }
            }
        }
        res
    }

    /// Takes more audio: every frame completed by it is encoded and its
    /// packet handed on; an incomplete frame stays pending. A codec error
    /// is returned as it is, and the pending samples are then dropped.
    pub fn feed(&mut self, pcm: &[i16]) -> (res: Result<(), EncodeError>)
        requires
            old(self).wf(),
            old(self).samples_fed() + pcm@.len() <= u64::MAX,
            960 * (old(self).frames_encoded() + (old(self).pending().len() + pcm@.len()) / 320 + 2)
                <= u64::MAX,
        ensures
            final(self).wf(),
            final(self).codec() == old(self).codec(),
            final(self).serial() == old(self).serial(),
            final(self).preskip() == old(self).preskip(),
            res is Ok ==> {
                &&& final(self).pending() == leftover_of(old(self).pending() + pcm@, 320)
                &&& final(self).frames() == old(self).frames() + frames_of(
                    old(self).pending() + pcm@,
                    320,
                )
                &&& final(self).samples_fed() == old(self).samples_fed() + pcm@.len()
            },
            old(self).pending().len() + pcm@.len() < 320 ==> res is Ok,
            res is Err ==> {
                &&& res matches Err(EncodeError::Opus(_))
                &&& final(self).pending() == Seq::<i16>::empty()
            },
    {
        let ghost all = self.chunker.pending() + pcm@;
        let ghost start = self.frames@;
        let frames = self.chunker.feed_frames(pcm);
        let ghost fv = frames@.map_values(|f: Vec<i16>| f@);
        proof {
            crate::chunker::lemma_frames_index(all, 320);
            assert(start + fv.take(0) =~= start);
        }
        let mut k: usize = 0;
        while k < frames.len()
            invariant
                k <= frames@.len(),
                fv == frames@.map_values(|f: Vec<i16>| f@),
                fv == frames_of(all, 320),
                fv.len() == all.len() / 320,
                all == old(self).pending() + pcm@,
                start == old(self).frames(),
                960 * (start.len() + fv.len() + 2) <= u64::MAX,
                self.wf(),
                self.frames@ == start + fv.take(k as int),
                self.samples == old(self).samples,
                self.codec == old(self).codec,
                self.preskip == old(self).preskip,
                self.inner.serial() == old(self).inner.serial(),
                self.chunker.pending() == leftover_of(all, 320),
            decreases frames@.len() - k,
        {
            let r = self.encode(frames[k].as_slice());
            if r.is_err() {
                self.chunker.reset();
                return r;
            }
            proof {
                assert(start + fv.take(k + 1) =~= (start + fv.take(k as int)).push(fv[k as int]));
            }
            k = k + 1;
        }
        proof {
            assert(fv.take(fv.len() as int) =~= fv);
        }
        self.samples = self.samples + pcm.len() as u64;
        Ok(())
    }

    /// Ends the stream: a pending partial frame is padded with zeros to a
    /// whole frame and encoded, the last packet closes the stream, and the
    /// Ogg bytes are returned with the number of samples fed. The bytes are
    /// the Ogg writer's pages for the headers and one packet per frame,
    /// packet `k` being what the codec gave for frame `k`.
    pub fn finish(self) -> (res: Result<(Vec<u8>, u64), EncodeError>)
        requires
            self.wf(),
            960 * (self.frames_encoded() + 2) <= u64::MAX,
        ensures
            res matches Ok(r) ==> r.1 == self.samples_fed(),
            res matches Ok(r) ==> exists|q: Seq<Seq<u8>>|
                #![trigger opus_stream_packets(self.serial(), self.preskip(), q)]
                {
                    &&& q.len() == self.final_frames().len()
                    &&& forall|k: int|
                        0 <= k < q.len() ==> #[trigger] crate::ogg_opus::encodes_to(
                            &self.codec(),
                            self.final_frames()[k],
                            q[k],
                        )
                    &&& r.0@ == layout_of(opus_stream_packets(self.serial(), self.preskip(), q))
                },
            self.pending().len() == 0 ==> res is Ok,
            res is Err ==> res matches Err(EncodeError::Opus(_)),
    {
        let ghost frames0 = self.final_frames();
        let ghost serial = self.serial();
        let ghost preskip = self.preskip();
        let ghost codec0 = self.codec;
        let mut this = self;
        let samples = this.samples;
        if let Some(frame) = this.chunker.finish() {
            proof {
                let pend = self.pending();
                assert(frame@[319] == 0i16);
                assert forall|j: int| 0 <= j < 320 implies #[trigger] frame@[j] == zero_padded(pend)[j] by {
                    if j < pend.len() {
                        assert(frame@.take(pend.len() as int)[j] == pend[j]);
                    }
                }
                assert(frame@ =~= zero_padded(pend));
            }
            if let Err(e) = this.encode(frame.as_slice()) {
                return Err(e);
            }
        }
        let ghost q = this.encoded@;
        proof {
            assert(this.frames@ =~= frames0);
            if q.len() == 0 {
                assert(this.inner.packets().push(this.inner.final_packet()) =~= opus_stream_packets(
                    serial,
                    preskip,
                    q,
                ));
            } else {
                assert(this.inner.packets().push(this.inner.final_packet()) =~= opus_stream_packets(
                    serial,
                    preskip,
                    q,
                ));
            }
        }
        match this.inner.finish() {
            Ok(bytes) => {
                proof {
                    assert(bytes@ =~= layout_of(opus_stream_packets(serial, preskip, q)));
                    assert(forall|k: int| 0 <= k < q.len() ==> #[trigger] crate::ogg_opus::encodes_to(&codec0, frames0[k], q[k]));
                }
                Ok((bytes, samples))
            },
            Err(e) => Err(e),
        }
    }
}

} // verus!
