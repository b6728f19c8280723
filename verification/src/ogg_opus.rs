//! In-memory Ogg/Opus stream writer: page framing, lacing, granule
//! positions and page checksums.

use rand::Rng;
use vstd::prelude::*;

use crate::crc::{crc32, ogg_crc};
use crate::util::extend_copy;

verus! {

broadcast use vstd::seq_lib::group_seq_properties;

/// Little-endian encoding of a 32-bit value.
pub open spec fn le32(v: u32) -> Seq<u8> {
    seq![
        (v & 0xffu32) as u8,
        ((v >> 8u32) & 0xffu32) as u8,
        ((v >> 16u32) & 0xffu32) as u8,
        ((v >> 24u32) & 0xffu32) as u8,
    ]
}

/// Little-endian encoding of a 64-bit value.
pub open spec fn le64(v: u64) -> Seq<u8> {
    seq![
        (v & 0xffu64) as u8,
        ((v >> 8u64) & 0xffu64) as u8,
        ((v >> 16u64) & 0xffu64) as u8,
        ((v >> 24u64) & 0xffu64) as u8,
        ((v >> 32u64) & 0xffu64) as u8,
        ((v >> 40u64) & 0xffu64) as u8,
        ((v >> 48u64) & 0xffu64) as u8,
        ((v >> 56u64) & 0xffu64) as u8,
    ]
}

/// The ASCII bytes of a four-letter capture pattern or tag.
pub open spec fn ascii4(a: char, b: char, c: char, d: char) -> Seq<u8> {
    seq![a as u8, b as u8, c as u8, d as u8]
}

/// Lacing values of one packet of `len` bytes: one 255 per full segment,
/// then the remainder (possibly 0).
pub open spec fn lacing(len: nat) -> Seq<u8> {
    Seq::new(len / 255, |i: int| 255u8).push((len % 255) as u8)
}

/// The segment table of a page holding `packets`.
pub open spec fn segment_table(packets: Seq<Seq<u8>>) -> Seq<u8> {
    packets.map_values(|p: Seq<u8>| lacing(p.len())).flatten()
}

/// A page as written before its checksum is filled in (checksum field zero).
pub open spec fn page_without_crc(
    packets: Seq<Seq<u8>>,
    granule: u64,
    flags: u8,
    serial: u32,
    page_no: u32,
) -> Seq<u8> {
    let segs = segment_table(packets);
    ascii4('O', 'g', 'g', 'S') + seq![0u8, flags] + le64(granule) + le32(serial) + le32(page_no)
        + seq![0u8, 0u8, 0u8, 0u8] + seq![segs.len() as u8] + segs + packets.flatten()
}

/// A complete Ogg page: the header, segment table and packet data, with the
/// CRC-32 of the whole page (taken with a zero checksum field) stored at
/// bytes 22..26.
pub open spec fn ogg_page(
    packets: Seq<Seq<u8>>,
    granule: u64,
    flags: u8,
    serial: u32,
    page_no: u32,
) -> Seq<u8> {
    let raw = page_without_crc(packets, granule, flags, serial, page_no);
    raw.take(22) + le32(ogg_crc(raw)) + raw.skip(26)
}

/// Page flag of the first page of a logical stream.
pub open spec fn flag_bos() -> u8 {
    0x02
}

/// Page flag of the last page of a logical stream.
pub open spec fn flag_eos() -> u8 {
    0x04
}

/// The OpusTags packet this writer emits: vendor "Bark", no comments.
pub open spec fn opus_tags_packet() -> Seq<u8> {
    ascii4('O', 'p', 'u', 's') + ascii4('T', 'a', 'g', 's') + le32(4) + ascii4('B', 'a', 'r', 'k')
        + le32(0)
}

/// The 19-byte OpusHead packet for a mono 16 kHz stream: version 1, one
/// channel, pre-skip 312, input rate 16000, gain 0, mapping family 0.
pub open spec fn opus_head_packet() -> Seq<u8> {
    ascii4('O', 'p', 'u', 's') + ascii4('H', 'e', 'a', 'd') + seq![1u8, 1u8, 0x38u8, 0x01u8]
        + le32(16000) + seq![0u8, 0u8, 0u8]
}

/// Granule increment (48 kHz units) for `samples` samples at `rate` Hz.
pub open spec fn granule_increment(samples: u32, rate: u32) -> int {
    (samples as int) * 48000 / (rate as int)
}

/// The sum of lacing values: the byte count they announce.
pub open spec fn lacing_sum(s: Seq<u8>) -> int
    decreases s.len(),
{
    if s.len() == 0 {
        0
    } else {
        lacing_sum(s.drop_last()) + s.last()
    }
}

proof fn lemma_lacing_sum_full(k: nat)
    ensures
        lacing_sum(Seq::new(k, |i: int| 255u8)) == 255 * k,
    decreases k,
{
    if k > 0 {
        lemma_lacing_sum_full((k - 1) as nat);
        assert(Seq::new(k, |i: int| 255u8).drop_last() =~= Seq::new((k - 1) as nat, |i: int| 255u8));
    }
}

/// A reader recovers a packet's length from its lacing values: every
/// value but the last is 255, the last is below 255 and ends the packet,
/// and together they add up to the length.
pub proof fn lemma_lacing_decodes(len: nat)
    ensures
        lacing(len).len() == len / 255 + 1,
        forall|i: int| 0 <= i < lacing(len).len() - 1 ==> #[trigger] lacing(len)[i] == 255,
        lacing(len).last() < 255,
        lacing_sum(lacing(len)) == len,
{
    let k = len / 255;
    lemma_lacing_sum_full(k);
    assert(lacing(len).drop_last() =~= Seq::new(k, |i: int| 255u8));
    assert(255 * k + len % 255 == len) by {
        vstd::arithmetic::div_mod::lemma_fundamental_div_mod(len as int, 255);
    }
}

/// What a reader checks of a page gives back what was written: the capture
/// pattern, the flags, granule position, serial number and sequence number
/// sit at their offsets, and the stored checksum is the CRC of the page
/// with its checksum field zeroed.
pub proof fn lemma_page_reads_back(
    packets: Seq<Seq<u8>>,
    granule: u64,
    flags: u8,
    serial: u32,
    page_no: u32,
)
    ensures
        ({
            let page = ogg_page(packets, granule, flags, serial, page_no);
            let zeroed = page.take(22) + seq![0u8, 0u8, 0u8, 0u8] + page.skip(26);
            &&& page.len() >= 27
            &&& page.take(4) == ascii4('O', 'g', 'g', 'S')
            &&& page[4] == 0 && page[5] == flags
            &&& page.subrange(6, 14) == le64(granule)
            &&& page.subrange(14, 18) == le32(serial)
            &&& page.subrange(18, 22) == le32(page_no)
            &&& zeroed == page_without_crc(packets, granule, flags, serial, page_no)
            &&& page.subrange(22, 26) == le32(ogg_crc(zeroed))
        }),
{
    let raw = page_without_crc(packets, granule, flags, serial, page_no);
    let page = ogg_page(packets, granule, flags, serial, page_no);
    let crc = le32(ogg_crc(raw));
    assert(raw.len() >= 27);
    assert(page.len() == raw.len());
    assert(page.take(4) =~= ascii4('O', 'g', 'g', 'S'));
    assert(page.subrange(6, 14) =~= le64(granule));
    assert(page.subrange(14, 18) =~= le32(serial));
    assert(page.subrange(18, 22) =~= le32(page_no));
    assert(page.take(22) + seq![0u8, 0u8, 0u8, 0u8] + page.skip(26) =~= raw);
    assert(page.subrange(22, 26) =~= crc);
}

/// Writes a valid Ogg Opus stream to an in-memory buffer.
pub struct OggOpusWriter {
    buf: Vec<u8>,
    serial: u32,
    page_no: u32,
    granule: u64,
    opus_input_rate: u32,
    has_audio: bool,
    pages: Ghost<Seq<(Seq<Seq<u8>>, u64, u8)>>,
}

/// The bytes of a run of pages of one logical stream: page `i` holds the
/// packets, granule position and flags of `pages[i]` and carries sequence
/// number `i`.
pub open spec fn stream_pages(pages: Seq<(Seq<Seq<u8>>, u64, u8)>, serial: u32) -> Seq<u8>
    decreases pages.len(),
{
    if pages.len() == 0 {
        Seq::empty()
    } else {
        let last = pages.last();
        stream_pages(pages.drop_last(), serial) + ogg_page(
            last.0,
            last.1,
            last.2,
            serial,
            (pages.len() - 1) as u32,
        )
    }
}

/// A fresh random stream serial number.
///
/// Calls `rand::rng().random::<u32>()` (rand's thread-local generator).
/// Nothing is stated of the value: it is random.
#[verifier::external_body]
fn random_serial() -> u32 {
    rand::rng().random()
}

impl OggOpusWriter {
    /// The bytes written so far.
    pub closed spec fn bytes(&self) -> Seq<u8> {
        self.buf@
    }

    /// The stream serial number stamped on every page.
    pub closed spec fn serial(&self) -> u32 {
        self.serial
    }

    /// The sequence number the next page will carry.
    pub closed spec fn page_no(&self) -> u32 {
        self.page_no
    }

    /// The granule position (48 kHz samples) reached so far.
    pub closed spec fn granule(&self) -> u64 {
        self.granule
    }

    /// The sample rate of the PCM that was fed to the Opus encoder.
    pub closed spec fn input_rate(&self) -> u32 {
        self.opus_input_rate
    }

    /// Whether an audio packet has been written.
    pub closed spec fn has_audio(&self) -> bool {
        self.has_audio
    }

    /// The pages written so far, each as its packets, granule position and
    /// flags, in order.
    pub closed spec fn pages(&self) -> Seq<(Seq<Seq<u8>>, u64, u8)> {
        self.pages@
    }

    /// The writer's invariant: the bytes are exactly its pages, numbered
    /// from zero, the next number is the page count, and no page's granule
    /// position is beyond the one reached.
    pub closed spec fn wf(&self) -> bool {
        &&& self.buf@ == stream_pages(self.pages@, self.serial)
        &&& self.page_no == self.pages@.len()
        &&& forall|i: int| 0 <= i < self.pages@.len() ==> #[trigger] self.pages@[i].1 <= self.granule
    }

    /// Creates an empty writer with a random serial number.
    pub fn new(opus_input_rate: u32) -> (w: Self)
        ensures
            w.bytes() == Seq::<u8>::empty(),
            w.page_no() == 0,
            w.granule() == 0,
            w.input_rate() == opus_input_rate,
            !w.has_audio(),
            w.wf(),
            w.pages() == Seq::<(Seq<Seq<u8>>, u64, u8)>::empty(),
    {
        OggOpusWriter {
            buf: Vec::new(),
            serial: random_serial(),
            page_no: 0,
            granule: 0,
            opus_input_rate,
            has_audio: false,
            pages: Ghost(Seq::empty()),
        }
    }

    /// Writes the Opus identification header `csd` as the first page
    /// (beginning-of-stream flag, granule 0).
    pub fn write_opus_head(&mut self, csd: &[u8])
        requires
            old(self).page_no() < u32::MAX,
        ensures
            final(self).bytes() == old(self).bytes() + ogg_page(
                seq![csd@],
                0,
                flag_bos(),
                old(self).serial(),
                old(self).page_no(),
            ),
            final(self).page_no() == old(self).page_no() + 1,
            final(self).serial() == old(self).serial(),
            final(self).granule() == old(self).granule(),
            final(self).input_rate() == old(self).input_rate(),
            final(self).has_audio() == old(self).has_audio(),
            final(self).pages() == old(self).pages().push((seq![csd@], 0u64, flag_bos())),
            old(self).wf() ==> final(self).wf(),
    {
        let packets: [&[u8]; 1] = [csd];
        self.write_page(&packets, 0, 0x02);
        proof {
            assert(packets@.map_values(|p: &[u8]| p@) =~= seq![csd@]);
        }
    }

    /// Writes the Opus comment header (vendor "Bark", no comments) as a page
    /// of its own.
    pub fn write_opus_tags(&mut self)
        requires
            old(self).page_no() < u32::MAX,
        ensures
            final(self).bytes() == old(self).bytes() + ogg_page(
                seq![opus_tags_packet()],
                0,
                0,
                old(self).serial(),
                old(self).page_no(),
            ),
            final(self).page_no() == old(self).page_no() + 1,
            final(self).serial() == old(self).serial(),
            final(self).granule() == old(self).granule(),
            final(self).input_rate() == old(self).input_rate(),
            final(self).has_audio() == old(self).has_audio(),
            final(self).pages() == old(self).pages().push((seq![opus_tags_packet()], 0u64, 0u8)),
            old(self).wf() ==> final(self).wf(),
    {
        let mut tags: Vec<u8> = Vec::with_capacity(20);
        push_ascii(&mut tags, 'O', 'p', 'u', 's');
        push_ascii(&mut tags, 'T', 'a', 'g', 's');
        write_le32_to_vec(&mut tags, 4);
        push_ascii(&mut tags, 'B', 'a', 'r', 'k');
        write_le32_to_vec(&mut tags, 0);
        let packets: [&[u8]; 1] = [tags.as_slice()];
        self.write_page(&packets, 0, 0);
        proof {
            assert(tags@ =~= opus_tags_packet());
            assert(packets@.map_values(|p: &[u8]| p@) =~= seq![opus_tags_packet()]);
        }
    }

    /// Writes one Opus audio packet on a page of its own.
    /// `input_sample_count` is the number of PCM samples (at the input rate)
    /// the packet encodes; the granule position advances by that many
    /// 48 kHz samples.
    pub fn write_audio_packet(&mut self, packet: &[u8], input_sample_count: u32)
        requires
            old(self).input_rate() > 0,
            old(self).page_no() < u32::MAX,
            old(self).granule() + granule_increment(input_sample_count, old(self).input_rate())
                <= u64::MAX,
        ensures
            final(self).granule() == old(self).granule() + granule_increment(
                input_sample_count,
                old(self).input_rate(),
            ),
            final(self).bytes() == old(self).bytes() + ogg_page(
                seq![packet@],
                final(self).granule(),
                0,
                old(self).serial(),
                old(self).page_no(),
            ),
            final(self).page_no() == old(self).page_no() + 1,
            final(self).serial() == old(self).serial(),
            final(self).input_rate() == old(self).input_rate(),
            final(self).has_audio(),
            final(self).pages() == old(self).pages().push((seq![packet@], final(self).granule(), 0u8)),
            old(self).wf() ==> final(self).wf(),
    {
        let inc: u64 = (input_sample_count as u64) * 48_000 / (self.opus_input_rate as u64);
        self.granule = self.granule + inc;
        proof {
            if old(self).wf() {
                assert forall|i: int| 0 <= i < self.pages@.len() implies #[trigger] self.pages@[i].1
                    <= self.granule by {
                    assert(old(self).pages@[i].1 <= old(self).granule);
                }
            }
        }
        let packets: [&[u8]; 1] = [packet];
        let g = self.granule;
        self.write_page(&packets, g, 0);
        self.has_audio = true;
        proof {
            assert(packets@.map_values(|p: &[u8]| p@) =~= seq![packet@]);
        }
    }

    /// Ends the stream with an empty end-of-stream page.
    pub fn close(&mut self)
        requires
            old(self).page_no() < u32::MAX,
        ensures
            final(self).bytes() == old(self).bytes() + ogg_page(
                Seq::empty(),
                old(self).granule(),
                flag_eos(),
                old(self).serial(),
                old(self).page_no(),
            ),
            final(self).page_no() == old(self).page_no() + 1,
            final(self).serial() == old(self).serial(),
            final(self).granule() == old(self).granule(),
            final(self).input_rate() == old(self).input_rate(),
            final(self).has_audio() == old(self).has_audio(),
            final(self).pages() == old(self).pages().push((Seq::<Seq<u8>>::empty(), old(self).granule(), flag_eos())),
            old(self).wf() ==> final(self).wf(),
    {
        let packets: [&[u8]; 0] = [];
        let g = self.granule;
        self.write_page(&packets, g, 0x04);
        proof {
            assert(packets@.map_values(|p: &[u8]| p@) =~= Seq::<Seq<u8>>::empty());
        }
    }

    /// The finished stream: empty when no audio was written and at most the
    /// two header pages exist, else everything written plus an
    /// end-of-stream page.
    pub fn into_bytes(self) -> (out: Vec<u8>)
        requires
            self.page_no() < u32::MAX,
        ensures
            !self.has_audio() && self.page_no() <= 2 ==> out@ == Seq::<u8>::empty(),
            !(!self.has_audio() && self.page_no() <= 2) ==> out@ == self.bytes() + ogg_page(
                Seq::empty(),
                self.granule(),
                flag_eos(),
                self.serial(),
                self.page_no(),
            ),
            !(!self.has_audio() && self.page_no() <= 2) && self.wf() ==> out@ == stream_pages(
                self.pages().push((Seq::<Seq<u8>>::empty(), self.granule(), flag_eos())),
                self.serial(),
            ),
    {
        let mut this = self;
        if !this.has_audio && this.page_no <= 2 {
            return Vec::new();
        }
        this.close();
        this.buf
    }

    /// The law of a finished stream: what `into_bytes` gives back once
    /// audio was written is a run of pages numbered 0, 1, ... in order, all
    /// of one serial number, each with its checksum in place (see
    /// `lemma_page_reads_back`). Where the pages written so far have
    /// non-decreasing granule positions and none ends the stream, the
    /// granule positions of the whole run do not decrease and only its last
    /// page carries the end-of-stream flag.
    pub proof fn lemma_finished_stream(w: OggOpusWriter)
        requires
            w.wf(),
            forall|i: int| 0 <= i < w.pages().len() ==> #[trigger] w.pages()[i].2 != flag_eos(),
            forall|i: int, j: int|
                0 <= i <= j < w.pages().len() ==> #[trigger] w.pages()[i].1 <= #[trigger] w.pages()[j].1,
        ensures
            ({
                let all = w.pages().push((Seq::<Seq<u8>>::empty(), w.granule(), flag_eos()));
                &&& w.bytes() + ogg_page(Seq::empty(), w.granule(), flag_eos(), w.serial(), w.page_no())
                    == stream_pages(all, w.serial())
                &&& forall|i: int, j: int|
                    0 <= i <= j < all.len() ==> #[trigger] all[i].1 <= #[trigger] all[j].1
                &&& forall|i: int| 0 <= i < all.len() ==> (#[trigger] all[i].2 == flag_eos() <==> i == all.len() - 1)
            }),
    {
        let all = w.pages().push((Seq::<Seq<u8>>::empty(), w.granule(), flag_eos()));
        assert(all.drop_last() =~= w.pages());
        assert forall|i: int, j: int| 0 <= i <= j < all.len() implies #[trigger] all[i].1 <= #[trigger] all[j].1 by {
            if j < all.len() - 1 {
                assert(w.pages()[i].1 <= w.pages()[j].1);
            } else if i < all.len() - 1 {
                assert(w.pages()[i].1 <= w.granule());
            }
        }
        assert forall|i: int| 0 <= i < all.len() implies (#[trigger] all[i].2 == flag_eos() <==> i == all.len() - 1) by {
            if i < all.len() - 1 {
                assert(all[i] == w.pages()[i]);
            }
        }
    }

    /// Appends one page holding `packets` to the stream.
    fn write_page(&mut self, packets: &[&[u8]], granule: u64, flags: u8)
        requires
            old(self).page_no() < u32::MAX,
        ensures
            final(self).bytes() == old(self).bytes() + ogg_page(
                packets@.map_values(|p: &[u8]| p@),
                granule,
                flags,
                old(self).serial(),
                old(self).page_no(),
            ),
            final(self).page_no() == old(self).page_no() + 1,
            final(self).serial() == old(self).serial(),
            final(self).granule() == old(self).granule(),
            final(self).input_rate() == old(self).input_rate(),
            final(self).has_audio() == old(self).has_audio(),
            final(self).pages() == old(self).pages().push(
                (packets@.map_values(|p: &[u8]| p@), granule, flags),
            ),
            old(self).wf() && granule <= old(self).granule() ==> final(self).wf(),
    {
        let ghost pk = packets@.map_values(|p: &[u8]| p@);
        // Segment (lacing) table.
        let mut seg_table: Vec<u8> = Vec::new();
        let mut k: usize = 0;
        while k < packets.len()
            invariant
                k <= packets@.len(),
                pk == packets@.map_values(|p: &[u8]| p@),
                seg_table@ == segment_table(pk.take(k as int)),
            decreases packets@.len() - k,
        {
            let p: &[u8] = packets[k];
            let ghost before = seg_table@;
            let mut rem: usize = p.len();
            while rem >= 255
                invariant
                    rem <= p@.len(),
                    (p@.len() - rem) % 255 == 0,
                    seg_table@ == before + Seq::new(
                        ((p@.len() - rem) / 255) as nat,
                        |i: int| 255u8,
                    ),
                decreases rem,
            {
                seg_table.push(255u8);
                rem = rem - 255;
                proof {
                    assert(seg_table@ =~= before + Seq::new(
                        ((p@.len() - rem) / 255) as nat,
                        |i: int| 255u8,
                    ));
                }
            }
            seg_table.push(rem as u8);
            proof {
                assert(rem == p@.len() % 255);
                assert(seg_table@ =~= before + lacing(p@.len()));
                lemma_segment_table_push(pk, k as int);
            }
            k = k + 1;
        }
        proof {
            assert(pk.take(packets@.len() as int) =~= pk);
        }
        let seg_count: usize = seg_table.len();

        let mut page: Vec<u8> = Vec::new();
        push_ascii(&mut page, 'O', 'g', 'g', 'S');
        page.push(0u8);
        page.push(flags);
        write_le64_to_vec(&mut page, granule);
        write_le32_to_vec(&mut page, self.serial);
        write_le32_to_vec(&mut page, self.page_no);
        page.push(0u8);
        page.push(0u8);
        page.push(0u8);
        page.push(0u8);
        page.push(seg_count as u8);
        let mut j: usize = 0;
        let ghost header = page@;
        while j < seg_count
            invariant
                j <= seg_count,
                seg_count == seg_table@.len(),
                page@ == header + seg_table@.take(j as int),
            decreases seg_count - j,
        {
            page.push(seg_table[j]);
            j = j + 1;
            proof {
                assert(page@ =~= header + seg_table@.take(j as int));
            }
        }
        // Packet data.
        let ghost with_segs = page@;
        let mut q: usize = 0;
        while q < packets.len()
            invariant
                q <= packets@.len(),
                pk == packets@.map_values(|p: &[u8]| p@),
                page@ == with_segs + pk.take(q as int).flatten(),
            decreases packets@.len() - q,
        {
            let p: &[u8] = packets[q];
            let ghost before = page@;
            let mut b: usize = 0;
            while b < p.len()
                invariant
                    b <= p@.len(),
                    page@ == before + p@.take(b as int),
                decreases p@.len() - b,
            {
                page.push(p[b]);
                b = b + 1;
                proof {
                    assert(page@ =~= before + p@.take(b as int));
                }
            }
            proof {
                assert(p@.take(p@.len() as int) =~= p@);
                assert(pk.take(q + 1) =~= pk.take(q as int).push(p@));
                pk.take(q as int).lemma_flatten_push(p@);
            }
            q = q + 1;
        }
        proof {
            assert(pk.take(packets@.len() as int) =~= pk);
            assert(seg_table@.take(seg_count as int) =~= seg_table@);
            assert(page@ =~= page_without_crc(pk, granule, flags, self.serial, self.page_no));
        }
        let ghost raw = page@;
        // CRC-32 over the complete page with a zero checksum field.
        let checksum = crc32(page.as_slice());
        write_le32(&mut page, 22, checksum);
        proof {
            assert(page@ =~= raw.take(22) + le32(ogg_crc(raw)) + raw.skip(26));
        }
        let mut t: usize = 0;
        let ghost before_buf = self.buf@;
        while t < page.len()
            invariant
                t <= page@.len(),
                self.buf@ == before_buf + page@.take(t as int),
                self.page_no == old(self).page_no,
                self.serial == old(self).serial,
                self.granule == old(self).granule,
                self.opus_input_rate == old(self).opus_input_rate,
                self.has_audio == old(self).has_audio,
                self.pages == old(self).pages,
            decreases page@.len() - t,
        {
            self.buf.push(page[t]);
            t = t + 1;
            proof {
                assert(self.buf@ =~= before_buf + page@.take(t as int));
            }
        }
        proof {
            assert(page@.take(page@.len() as int) =~= page@);
            let item = (pk, granule, flags);
            let before = self.pages@;
            self.pages@ = before.push(item);
            assert(self.pages@.drop_last() =~= before);
        }
        self.page_no = self.page_no + 1;
    }
}

proof fn lemma_segment_table_push(pk: Seq<Seq<u8>>, k: int)
    requires
        0 <= k < pk.len(),
    ensures
        segment_table(pk.take(k + 1)) == segment_table(pk.take(k)) + lacing(pk[k].len()),
{
    let f = |p: Seq<u8>| lacing(p.len());
    assert(pk.take(k + 1).map_values(f) =~= pk.take(k).map_values(f).push(lacing(pk[k].len())));
    pk.take(k).map_values(f).lemma_flatten_push(lacing(pk[k].len()));
}

/// Appends the ASCII codes of four characters.
fn push_ascii(v: &mut Vec<u8>, a: char, b: char, c: char, d: char)
    requires
        (a as u32) < 128,
        (b as u32) < 128,
        (c as u32) < 128,
        (d as u32) < 128,
    ensures
        final(v)@ == old(v)@ + ascii4(a, b, c, d),
{
    v.push(a as u8);
    v.push(b as u8);
    v.push(c as u8);
    v.push(d as u8);
    proof {
        assert(final(v)@ =~= old(v)@ + ascii4(a, b, c, d));
    }
}

/// Overwrites `buf[off..off + 4]` with the little-endian bytes of `v`.
pub fn write_le32(buf: &mut Vec<u8>, off: usize, v: u32)
    requires
        off + 4 <= old(buf)@.len(),
    ensures
        final(buf)@ == old(buf)@.take(off as int) + le32(v) + old(buf)@.skip(off + 4),
{
    let _n = buf.len();
    buf.set(off, (v & 0xff) as u8);
    buf.set(off + 1, ((v >> 8u32) & 0xff) as u8);
    buf.set(off + 2, ((v >> 16u32) & 0xff) as u8);
    buf.set(off + 3, ((v >> 24u32) & 0xff) as u8);
    proof {
        assert(final(buf)@ =~= old(buf)@.take(off as int) + le32(v) + old(buf)@.skip(off + 4));
    }
}

/// Overwrites `buf[off..off + 8]` with the little-endian bytes of `v`.
pub fn write_le64(buf: &mut Vec<u8>, off: usize, v: u64)
    requires
        off + 8 <= old(buf)@.len(),
    ensures
        final(buf)@ == old(buf)@.take(off as int) + le64(v) + old(buf)@.skip(off + 8),
{
    let _n = buf.len();
    let mut i: usize = 0;
    while i < 8
        invariant
            i <= 8,
            off + 8 <= buf@.len(),
            buf@.len() == old(buf)@.len(),
            buf@.len() <= usize::MAX,
            forall|j: int| 0 <= j < off || off + 8 <= j < buf@.len() ==> buf@[j] == old(buf)@[j],
            forall|j: int| 0 <= j < i ==> buf@[off + j] == #[trigger] le64(v)[j],
        decreases 8 - i,
    {
        let shift: u64 = (8 * i) as u64;
        let byte: u8 = ((v >> shift) & 0xff) as u8;
        proof {
            assert(byte == le64(v)[i as int]) by {
                lemma_le64_byte(v, i as int);
            }
        }
        buf.set(off + i, byte);
        i = i + 1;
    }
    proof {
        assert(final(buf)@ =~= old(buf)@.take(off as int) + le64(v) + old(buf)@.skip(off + 8));
    }
}

proof fn lemma_le64_byte(v: u64, i: int)
    requires
        0 <= i < 8,
    ensures
        le64(v)[i] == ((v >> ((8 * i) as u64)) & 0xffu64) as u8,
{
    if i == 0 {
        assert(v >> 0u64 == v) by (bit_vector);
    }
}

/// Appends the four little-endian bytes of `val`.
pub fn write_le32_to_vec(v: &mut Vec<u8>, val: u32)
    ensures
        final(v)@ == old(v)@ + le32(val),
{
    v.push((val & 0xff) as u8);
    v.push(((val >> 8u32) & 0xff) as u8);
    v.push(((val >> 16u32) & 0xff) as u8);
    v.push(((val >> 24u32) & 0xff) as u8);
    proof {
        assert(final(v)@ =~= old(v)@ + le32(val));
    }
}

/// Appends the eight little-endian bytes of `val`.
fn write_le64_to_vec(v: &mut Vec<u8>, val: u64)
    ensures
        final(v)@ == old(v)@ + le64(val),
{
    let start = v.len();
    let mut i: usize = 0;
    while i < 8
        invariant
            i <= 8,
            start == old(v)@.len(),
            v@.len() == start + i,
            v@.take(start as int) == old(v)@,
            forall|j: int| 0 <= j < i ==> v@[start + j] == #[trigger] le64(val)[j],
        decreases 8 - i,
    {
        let shift: u64 = (8 * i) as u64;
        let byte: u8 = ((val >> shift) & 0xff) as u8;
        proof {
            lemma_le64_byte(val, i as int);
        }
        v.push(byte);
        proof {
            assert(v@.take(start as int) =~= old(v)@);
        }
        i = i + 1;
    }
    proof {
        assert(final(v)@ =~= old(v)@ + le64(val));
    }
}

/// Builds the 19-byte OpusHead packet for mono 16 kHz audio.
pub fn build_opus_head() -> (csd: Vec<u8>)
    ensures
        csd@ == opus_head_packet(),
{
    let mut csd: Vec<u8> = Vec::with_capacity(19);
    push_ascii(&mut csd, 'O', 'p', 'u', 's');
    push_ascii(&mut csd, 'H', 'e', 'a', 'd');
    csd.push(1);
    csd.push(1);
    csd.push((312u32 & 0xff) as u8);
    csd.push(((312u32 >> 8u32) & 0xff) as u8);
    write_le32_to_vec(&mut csd, 16_000);
    csd.push(0);
    csd.push(0);
    csd.push(0);
    proof {
        assert((312u32 & 0xffu32) == 0x38u32) by (bit_vector);
        assert(((312u32 >> 8u32) & 0xffu32) == 0x01u32) by (bit_vector);
        assert(csd@ =~= opus_head_packet());
    }
    csd
}

} // verus!

verus! {

/// An audio codec that turns one frame of samples into one packet.
pub trait FrameEncoder<S> {
    type Error;

    /// Encodes one frame of `pcm`. A codec that keeps state between
    /// frames keeps it behind the shared reference.
    fn encode_frame(&self, pcm: &[S]) -> Result<Vec<u8>, Self::Error>;
}

/// `packet` is a result `codec` may give for `frame`: a call of
/// `encode_frame` on a slice holding `frame` may return `Ok` of it.
pub open spec fn encodes_to<S, E: FrameEncoder<S>>(codec: &E, frame: Seq<S>, packet: Seq<u8>) -> bool {
    exists|f: &[S], p: Vec<u8>|
        #![trigger call_ensures(E::encode_frame, (codec, f), Ok::<Vec<u8>, E::Error>(p))]
        f@ == frame && p@ == packet && call_ensures(
            E::encode_frame,
            (codec, f),
            Ok::<Vec<u8>, E::Error>(p),
        )
}

/// The whole frames of `audio`, in order.
pub open spec fn whole_frames<S>(audio: Seq<S>) -> Seq<Seq<S>> {
    Seq::new(audio.len() / 320, |k: int| audio.subrange(320 * k, 320 * k + 320))
}

/// What is left after the whole frames, padded with `z` to a whole frame.
pub open spec fn padded_tail<S>(audio: Seq<S>, z: S) -> Seq<S> {
    audio.skip((320 * (audio.len() / 320)) as int) + Seq::new((320 - audio.len() % 320) as nat, |i: int| z)
}

/// The frames handed to the codec for `audio`: its whole frames, then the
/// rest padded with `z` when there is a rest.
pub open spec fn codec_frames<S>(audio: Seq<S>, z: S) -> Seq<Seq<S>> {
    whole_frames(audio) + if audio.len() % 320 > 0 {
        seq![padded_tail(audio, z)]
    } else {
        Seq::empty()
    }
}

/// Samples per Opus frame at 16 kHz (20 ms).
pub const OPUS_FRAME_SAMPLES: usize = 320;

/// Largest encoded packet the encoder may produce.
pub const MAX_PACKET_BYTES: usize = 4000;

/// Samples encoded by each packet for `len` samples of audio: whole
/// frames, then the remainder when there is one.
pub open spec fn frame_counts(len: nat) -> Seq<u32> {
    Seq::new(len / 320, |i: int| 320u32) + if len % 320 > 0 {
        seq![(len % 320) as u32]
    } else {
        Seq::empty()
    }
}

/// Granule position (48 kHz) after packets encoding `counts` samples at
/// 16 kHz.
pub open spec fn granule_after(counts: Seq<u32>) -> int
    decreases counts.len(),
{
    if counts.len() == 0 {
        0
    } else {
        granule_after(counts.drop_last()) + 3 * counts.last()
    }
}

/// The audio pages of a stream: packet `i` on page `2 + i`, stamped with
/// the granule position reached after it.
pub open spec fn audio_pages(packets: Seq<Seq<u8>>, counts: Seq<u32>, serial: u32) -> Seq<u8>
    decreases packets.len(),
{
    if packets.len() == 0 || counts.len() != packets.len() {
        Seq::empty()
    } else {
        audio_pages(packets.drop_last(), counts.drop_last(), serial) + ogg_page(
            seq![packets.last()],
            granule_after(counts) as u64,
            0,
            serial,
            (2 + packets.len() - 1) as u32,
        )
    }
}

/// A complete stream: the OpusHead page (beginning of stream), the
/// OpusTags page, one page per audio packet, and the empty end-of-stream
/// page.
pub open spec fn encoded_stream(serial: u32, packets: Seq<Seq<u8>>, counts: Seq<u32>) -> Seq<u8> {
    ogg_page(seq![opus_head_packet()], 0, flag_bos(), serial, 0) + ogg_page(
        seq![opus_tags_packet()],
        0,
        0,
        serial,
        1,
    ) + audio_pages(packets, counts, serial) + ogg_page(
        Seq::empty(),
        granule_after(counts) as u64,
        flag_eos(),
        serial,
        (2 + packets.len()) as u32,
    )
}

proof fn lemma_granule_after_bound(counts: Seq<u32>)
    requires
        forall|i: int| 0 <= i < counts.len() ==> counts[i] <= 320,
    ensures
        0 <= granule_after(counts) <= 960 * counts.len(),
    decreases counts.len(),
{
    if counts.len() > 0 {
        lemma_granule_after_bound(counts.drop_last());
    }
}

/// The last partial frame of `audio`, padded with `pad` to a whole frame.
fn padded_last_frame<S: Copy>(audio: &[S], pad: S) -> (f: Vec<S>)
    requires
        audio@.len() % 320 > 0,
    ensures
        f@ == padded_tail(audio@, pad),
{
    let alen: usize = audio.len();
    let start: usize = (alen / OPUS_FRAME_SAMPLES) * OPUS_FRAME_SAMPLES;
    proof {
        assert(start <= alen) by (nonlinear_arith)
            requires
                start == (alen / 320) * 320,
        ;
    }
    let mut last_frame: Vec<S> = Vec::with_capacity(OPUS_FRAME_SAMPLES);
    let tail = vstd::slice::slice_subrange(audio, start, alen);
    extend_copy(&mut last_frame, tail);
    proof {
        assert(last_frame@ =~= tail@ + Seq::new(0, |i: int| pad));
        assert(alen - start == alen % 320) by (nonlinear_arith)
            requires
                start == (alen / 320) * 320,
        ;
    }
    while last_frame.len() < OPUS_FRAME_SAMPLES
        invariant
            tail@.len() < 320,
            tail@.len() <= last_frame@.len() <= OPUS_FRAME_SAMPLES,
            last_frame@ == tail@ + Seq::new((last_frame@.len() - tail@.len()) as nat, |i: int| pad),
        decreases OPUS_FRAME_SAMPLES - last_frame@.len(),
    {
        last_frame.push(pad);
        proof {
            assert(last_frame@ =~= tail@ + Seq::new((last_frame@.len() - tail@.len()) as nat, |i: int| pad));
        }
    }
    proof {
        assert(320 * (alen / 320) == start) by (nonlinear_arith)
            requires
                start == (alen / 320) * 320,
        ;
        assert(tail@ =~= audio@.skip((320 * (audio@.len() / 320)) as int));
        assert(last_frame@ =~= padded_tail(audio@, pad));
    }
    last_frame
}

proof fn lemma_codec_frames_with_tail<S, E: FrameEncoder<S>>(
    codec: &E,
    audio: Seq<S>,
    z: S,
    packets: Seq<Seq<u8>>,
    last: Seq<u8>,
)
    requires
        audio.len() % 320 > 0,
        packets.len() == audio.len() / 320,
        forall|j: int| 0 <= j < packets.len() ==> #[trigger] encodes_to(codec, whole_frames(audio)[j], packets[j]),
        encodes_to(codec, padded_tail(audio, z), last),
    ensures
        forall|j: int|
            0 <= j < packets.len() + 1 ==> #[trigger] encodes_to(
                codec,
                codec_frames(audio, z)[j],
                packets.push(last)[j],
            ),
{
    let cf = codec_frames(audio, z);
    let p2 = packets.push(last);
    assert forall|j: int| 0 <= j < packets.len() + 1 implies #[trigger] encodes_to(codec, cf[j], p2[j]) by {
        if j < packets.len() {
            assert(cf[j] == whole_frames(audio)[j]);
            assert(p2[j] == packets[j]);
        } else {
            assert(cf[j] == padded_tail(audio, z));
            assert(p2[j] == last);
        }
    }
}

/// Encodes 16 kHz mono audio into an Ogg/Opus byte stream.
pub struct OpusOggEncoder {
    writer: OggOpusWriter,
    bitrate_kbps: i32,
    frame_size: usize,
    max_pkt_size: usize,
    headers_written: bool,
}

impl OpusOggEncoder {
    /// The Opus bitrate in kbit/s the codec is to be configured with.
    pub closed spec fn bitrate(&self) -> i32 {
        self.bitrate_kbps
    }

    /// The serial number of the stream this encoder writes.
    pub closed spec fn serial(&self) -> u32 {
        self.writer.serial()
    }

    /// A fresh encoder: nothing written yet, 20 ms frames at 16 kHz.
    pub closed spec fn wf(&self) -> bool {
        &&& self.writer.bytes() == Seq::<u8>::empty()
        &&& self.writer.page_no() == 0
        &&& self.writer.granule() == 0
        &&& self.writer.input_rate() == 16000
        &&& !self.writer.has_audio()
        &&& self.frame_size == OPUS_FRAME_SAMPLES
        &&& self.max_pkt_size == MAX_PACKET_BYTES
        &&& !self.headers_written
    }

    /// A new encoder for the given Opus bitrate.
    pub fn new(bitrate_kbps: i32) -> (e: Self)
        ensures
            e.wf(),
            e.bitrate() == bitrate_kbps,
    {
        OpusOggEncoder {
            writer: OggOpusWriter::new(16_000),
            bitrate_kbps,
            frame_size: OPUS_FRAME_SAMPLES,
            max_pkt_size: MAX_PACKET_BYTES,
            headers_written: false,
        }
    }

    /// The Opus bitrate in kbit/s.
    pub fn bitrate_kbps(&self) -> (b: i32)
        ensures
            b == self.bitrate(),
    {
        self.bitrate_kbps
    }

    /// Writes the OpusHead and OpusTags pages.
    fn write_default_headers(&mut self)
        requires
            old(self).wf(),
        ensures
            final(self).writer.bytes() == ogg_page(
                seq![opus_head_packet()],
                0,
                flag_bos(),
                old(self).serial(),
                0,
            ) + ogg_page(seq![opus_tags_packet()], 0, 0, old(self).serial(), 1),
            final(self).writer.page_no() == 2,
            final(self).writer.granule() == 0,
            final(self).writer.serial() == old(self).serial(),
            final(self).writer.input_rate() == 16000,
            !final(self).writer.has_audio(),
            final(self).frame_size == OPUS_FRAME_SAMPLES,
            final(self).headers_written,
    {
        let csd = build_opus_head();
        self.writer.write_opus_head(csd.as_slice());
        self.writer.write_opus_tags();
        self.headers_written = true;
        proof {
            assert(Seq::<u8>::empty() + ogg_page(seq![opus_head_packet()], 0, flag_bos(), self.writer.serial(), 0)
                =~= ogg_page(seq![opus_head_packet()], 0, flag_bos(), self.writer.serial(), 0));
        }
    }

    /// Encodes the whole frames of `audio` one by one, each on a page of
    /// its own; the packets are given back as ghost values.
    fn encode_whole_frames<S: Copy, E: FrameEncoder<S>>(&mut self, audio: &[S], codec: &E) -> (res:
        Result<Ghost<Seq<Seq<u8>>>, E::Error>)
        requires
            old(self).frame_size == OPUS_FRAME_SAMPLES,
            old(self).writer.input_rate() == 16000,
            old(self).writer.page_no() == 2,
            old(self).writer.granule() == 0,
            audio@.len() / 320 + 4 < u32::MAX,
        ensures
            res matches Ok(g) ==> {
                let packets = g@;
                let counts = frame_counts(audio@.len()).take((audio@.len() / 320) as int);
                &&& packets.len() == audio@.len() / 320
                &&& forall|k: int|
                    0 <= k < packets.len() ==> #[trigger] encodes_to(
                        codec,
                        whole_frames(audio@)[k],
                        packets[k],
                    )
                &&& final(self).frame_size == OPUS_FRAME_SAMPLES
                &&& final(self).writer.input_rate() == 16000
                &&& final(self).writer.serial() == old(self).writer.serial()
                &&& final(self).writer.page_no() == 2 + packets.len()
                &&& final(self).writer.granule() == granule_after(counts)
                &&& final(self).writer.bytes() == old(self).writer.bytes() + audio_pages(
                    packets,
                    counts,
                    old(self).writer.serial(),
                )
                &&& packets.len() > 0 ==> final(self).writer.has_audio()
                &&& packets.len() == 0 ==> final(self).writer.has_audio() == old(self).writer.has_audio()
            },
    {
        let ghost serial = self.writer.serial();
        let ghost counts = frame_counts(audio@.len());
        let ghost headers = self.writer.bytes();
        let ghost has0 = self.writer.has_audio();
        let alen: usize = audio.len();
        let full: usize = alen / OPUS_FRAME_SAMPLES;
        let ghost mut packets: Seq<Seq<u8>> = Seq::empty();
        let mut k: usize = 0;
        proof {
            assert(counts.take(0) =~= Seq::<u32>::empty());
            assert(headers + audio_pages(packets, counts.take(0), serial) =~= headers);
        }
        while k < full
            invariant
                k <= full,
                alen == audio@.len(),
                full == alen / 320,
                full + 4 < u32::MAX,
                counts == frame_counts(audio@.len()),
                packets.len() == k,
                forall|j: int| 0 <= j < k ==> #[trigger] encodes_to(codec, whole_frames(audio@)[j], packets[j]),
                self.frame_size == OPUS_FRAME_SAMPLES,
                self.writer.input_rate() == 16000,
                self.writer.serial() == serial,
                self.writer.page_no() == 2 + k,
                self.writer.granule() == granule_after(counts.take(k as int)),
                self.writer.bytes() == headers + audio_pages(packets, counts.take(k as int), serial),
                k > 0 ==> self.writer.has_audio(),
                k == 0 ==> self.writer.has_audio() == has0,
            decreases full - k,
        {
            proof {
                assert(320 * k + 320 <= 320 * full) by (nonlinear_arith)
                    requires
                        k < full,
                ;
                assert(320 * full <= alen) by (nonlinear_arith)
                    requires
                        full == alen / 320,
                ;
                assert(counts.take(k + 1).drop_last() =~= counts.take(k as int));
                assert(counts[k as int] == 320u32);
                lemma_granule_after_bound(counts.take(k as int));
            }
            let start: usize = k * OPUS_FRAME_SAMPLES;
            let frame = vstd::slice::slice_subrange(audio, start, start + OPUS_FRAME_SAMPLES);
            let packet = match codec.encode_frame(frame) {
                Ok(p) => p,
                Err(e) => {
                    return Err(e);
                },
            };
            proof {
                assert(frame@ == whole_frames(audio@)[k as int]);
                assert(encodes_to(codec, whole_frames(audio@)[k as int], packet@));
            }
            self.writer.write_audio_packet(packet.as_slice(), 320);
            proof {
                let p2 = packets.push(packet@);
                assert(p2.drop_last() =~= packets);
                assert(counts.take(k + 1).last() == 320u32);
                packets = p2;
            }
            k = k + 1;
        }
        Ok(Ghost(packets))
    }

    /// Encodes what is left after the whole frames, padded with `pad`, as
    /// the stream's last audio packet; nothing when there is no rest.
    fn encode_tail<S: Copy, E: FrameEncoder<S>>(
        &mut self,
        audio: &[S],
        codec: &E,
        pad: S,
        packets: Ghost<Seq<Seq<u8>>>,
        headers: Ghost<Seq<u8>>,
    ) -> (res: Result<Ghost<Seq<Seq<u8>>>, E::Error>)
        requires
            audio@.len() / 320 + 4 < u32::MAX,
            old(self).frame_size == OPUS_FRAME_SAMPLES,
            old(self).writer.input_rate() == 16000,
            packets@.len() == audio@.len() / 320,
            forall|j: int|
                0 <= j < packets@.len() ==> #[trigger] encodes_to(codec, whole_frames(audio@)[j], packets@[j]),
            old(self).writer.page_no() == 2 + packets@.len(),
            old(self).writer.granule() == granule_after(
                frame_counts(audio@.len()).take(packets@.len() as int),
            ),
            old(self).writer.bytes() == headers@ + audio_pages(
                packets@,
                frame_counts(audio@.len()).take(packets@.len() as int),
                old(self).writer.serial(),
            ),
            audio@.len() > 0,
            packets@.len() > 0 ==> old(self).writer.has_audio(),
        ensures
            res matches Ok(g) ==> {
                let p2 = g@;
                let counts = frame_counts(audio@.len());
                &&& p2.len() == counts.len()
                &&& forall|j: int|
                    0 <= j < p2.len() ==> #[trigger] encodes_to(codec, codec_frames(audio@, pad)[j], p2[j])
                &&& final(self).frame_size == OPUS_FRAME_SAMPLES
                &&& final(self).writer.serial() == old(self).writer.serial()
                &&& final(self).writer.page_no() == 2 + p2.len()
                &&& final(self).writer.granule() == granule_after(counts)
                &&& final(self).writer.has_audio()
                &&& final(self).writer.input_rate() == 16000
                &&& final(self).writer.bytes() == headers@ + audio_pages(
                    p2,
                    counts,
                    old(self).writer.serial(),
                )
            },
    {
        let ghost counts = frame_counts(audio@.len());
        let alen: usize = audio.len();
        let k: usize = alen / OPUS_FRAME_SAMPLES;
        let remaining: usize = alen - k * OPUS_FRAME_SAMPLES;
        proof {
            assert(remaining == alen % 320) by (nonlinear_arith)
                requires
                    k == alen / 320,
                    remaining == alen - k * 320,
            ;
            assert(whole_frames(audio@).len() == k);
        }
        if remaining > 0 {
            let last_frame = padded_last_frame(audio, pad);
            let packet = match codec.encode_frame(last_frame.as_slice()) {
                Ok(p) => p,
                Err(e) => {
                    return Err(e);
                },
            };
            proof {
                assert(encodes_to(codec, padded_tail(audio@, pad), packet@));
                lemma_granule_after_bound(counts.take(k as int));
                assert(counts.len() == k + 1);
                assert(counts.take(k + 1) =~= counts);
                assert(counts.drop_last() =~= counts.take(k as int));
                assert(counts[k as int] == remaining as u32);
            }
            self.writer.write_audio_packet(packet.as_slice(), remaining as u32);
            proof {
                lemma_codec_frames_with_tail(codec, audio@, pad, packets@, packet@);
                let p2 = packets@.push(packet@);
                assert(p2.drop_last() =~= packets@);
                assert(p2.last() == packet@);
            }
            Ok(Ghost(packets@.push(packet@)))
        } else {
            proof {
                assert(counts.len() == k);
                assert(counts.take(k as int) =~= counts);
                assert(codec_frames(audio@, pad) =~= whole_frames(audio@));
            }
            Ok(packets)
        }
    }

    /// Encodes all of `audio` (16 kHz mono) frame by frame with `codec`,
    /// padding the last partial frame with `S::default()`, and returns the
    /// finished Ogg/Opus stream; empty audio gives an empty stream. Packet
    /// `k` of the stream is what the codec gave for frame `k`. A codec error
    /// is returned as it is.
    pub fn encode_all<S: Copy + Default, E: FrameEncoder<S>>(self, audio: &[S], codec: &E) -> (res:
        Result<Vec<u8>, E::Error>)
        requires
            self.wf(),
            audio@.len() / 320 + 4 < u32::MAX,
        ensures
            audio@.len() == 0 ==> (res matches Ok(out) && out@ == Seq::<u8>::empty()),
            res matches Ok(out) ==> audio@.len() == 0 || exists|packets: Seq<Seq<u8>>, z: S|
                #![trigger call_ensures(S::default, (), z), encoded_stream(self.serial(), packets, frame_counts(audio@.len()))]
                {
                    &&& call_ensures(S::default, (), z)
                    &&& packets.len() == frame_counts(audio@.len()).len()
                    &&& forall|k: int|
                        0 <= k < packets.len() ==> #[trigger] encodes_to(
                            codec,
                            codec_frames(audio@, z)[k],
                            packets[k],
                        )
                    &&& out@ == encoded_stream(self.serial(), packets, frame_counts(audio@.len()))
                },
    {
        if audio.len() == 0 {
            return Ok(Vec::new());
        }
        let ghost serial = self.serial();
        let ghost counts = frame_counts(audio@.len());
        let mut this = self;
        this.write_default_headers();
        let ghost headers = this.writer.bytes();
        let alen: usize = audio.len();
        let k: usize = alen / OPUS_FRAME_SAMPLES;
        let whole = match this.encode_whole_frames(audio, codec) {
            Ok(g) => g,
            Err(e) => {
                return Err(e);
            },
        };
        let ghost mut packets: Seq<Seq<u8>> = whole@;
        proof {
            assert(this.writer.bytes() == headers + audio_pages(packets, counts.take(k as int), serial));
        }
        let pad = S::default();
        let tail = match this.encode_tail(audio, codec, pad, whole, Ghost(headers)) {
            Ok(g) => g,
            Err(e) => {
                return Err(e);
            },
        };
        proof {
            packets = tail@;
        }
        let out = this.writer.into_bytes();
        proof {
            assert(out@ =~= encoded_stream(serial, packets, counts));
            assert(encodes_to(codec, codec_frames(audio@, pad)[0], packets[0]));
        }
        Ok(out)
    }
}

} // verus!
