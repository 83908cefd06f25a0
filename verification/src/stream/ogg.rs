//! Ogg pages for an Opus stream: checksums, pages, headers, and the staging
//! of samples into frames. Every page carries exactly one packet.

use vstd::bytes::{u16_to_le_bytes, u32_to_le_bytes, u64_to_le_bytes};
use vstd::prelude::*;
use vstd::string::*;

use crate::audio::channels::{deal, take_front};
use crate::error::CrabError;
use crate::audio::channels;

verus! {

/// Sample rate of every Opus stream.
pub const OPUS_RATE: u32 = 48_000;

/// Samples per channel in a frame of 20 ms.
pub const FRAME_SAMPLES: usize = 960;

/// Samples per channel that are resampled at once.
pub const RES_CHUNK: usize = 1024;

/// One bit of the checksum register, most significant first.
pub open spec fn crc_bit(r: u32) -> u32 {
    if r & 0x8000_0000 != 0 {
        (r << 1) ^ 0x04C1_1DB7
    } else {
        r << 1
    }
}

/// Eight bits of the checksum register.
pub open spec fn crc_eight(r: u32) -> u32 {
    crc_bit(crc_bit(crc_bit(crc_bit(crc_bit(crc_bit(crc_bit(crc_bit(r))))))))
}

/// The register after one more byte.
pub open spec fn crc_byte(crc: u32, b: u8) -> u32 {
    crc_eight(crc ^ ((b as u32) << 24))
}

/// The checksum of a run of bytes: CRC-32, most significant bit first, start
/// zero, nothing reflected.
pub open spec fn crc(data: Seq<u8>) -> u32
    decreases data.len(),
{
    if data.len() == 0 {
        0
    } else {
        crc_byte(crc(data.drop_last()), data.last())
    }
}

/// The entry of the table for a byte.
pub open spec fn table_entry(i: int) -> u32 {
    crc_eight(((i as u32) << 24) as u32)
}

/// A table of the eight-bit steps.
pub open spec fn is_crc_table(t: Seq<u32>) -> bool {
    t.len() == 256 && forall|i: int| 0 <= i < 256 ==> #[trigger] t[i] == table_entry(i)
}

proof fn lemma_table_step(crc: u32, b: u8)
    ensures
        ((crc >> 24) ^ (b as u32)) < 256,
        crc_byte(crc, b) == (crc << 8) ^ crc_eight(((crc >> 24) ^ (b as u32)) << 24),
{
    let w = b as u32;
    assert(w < 256);
    assert((crc >> 24) ^ w < 256) by (bit_vector)
        requires
            w < 256,
    ;
    let x = crc ^ (w << 24);
    let high = ((crc >> 24) ^ w) << 24;
    assert(high == x & 0xff00_0000) by (bit_vector)
        requires
            w < 256,
            x == crc ^ (w << 24),
            high == ((crc >> 24) ^ w) << 24,
    ;
    assert(crc << 8 == x << 8) by (bit_vector)
        requires
            x == crc ^ (w << 24),
    ;
    lemma_shift_eight(x);
}

proof fn lemma_shift_eight(x: u32)
    ensures
        crc_eight(x) == (x << 8) ^ crc_eight(x & 0xff00_0000),
{
    assert(crc_eight(x) == (x << 8) ^ crc_eight(x & 0xff00_0000)) by (bit_vector);
}

/// The checksum table: the eight-bit step of every byte in the high place.
pub fn build_crc_table() -> (t: Vec<u32>)
    ensures
        is_crc_table(t@),
{
    let mut t: Vec<u32> = Vec::new();
    let mut i: u32 = 0;
    while i < 256
        invariant
            i <= 256,
            t@.len() == i,
            forall|k: int| 0 <= k < i ==> #[trigger] t@[k] == table_entry(k),
        decreases 256 - i,
    {
        let mut r: u32 = i << 24;
        let ghost start = r;
        let mut j: u32 = 0;
        while j < 8
            invariant
                j <= 8,
                j == 0 ==> r == start,
                j == 1 ==> r == crc_bit(start),
                j == 2 ==> r == crc_bit(crc_bit(start)),
                j == 3 ==> r == crc_bit(crc_bit(crc_bit(start))),
                j == 4 ==> r == crc_bit(crc_bit(crc_bit(crc_bit(start)))),
                j == 5 ==> r == crc_bit(crc_bit(crc_bit(crc_bit(crc_bit(start))))),
                j == 6 ==> r == crc_bit(crc_bit(crc_bit(crc_bit(crc_bit(crc_bit(start)))))),
                j == 7 ==> r == crc_bit(
                    crc_bit(crc_bit(crc_bit(crc_bit(crc_bit(crc_bit(start)))))),
                ),
                j == 8 ==> r == crc_eight(start),
            decreases 8 - j,
        {
            r = if r & 0x8000_0000 != 0 {
                (r << 1) ^ 0x04C1_1DB7
            } else {
                r << 1
            };
            j = j + 1;
        }
        t.push(r);
        i = i + 1;
    }
    t
}

/// The page checksum of a run of bytes.
pub fn ogg_crc32(data: &[u8]) -> (r: u32)
    ensures
        r == crc(data@),
{
    let table = build_crc_table();
    let mut c: u32 = 0;
    let mut i: usize = 0;
    while i < data.len()
        invariant
            i <= data.len(),
            is_crc_table(table@),
            c == crc(data@.subrange(0, i as int)),
        decreases data.len() - i,
    {
        let b: u8 = data[i];
        proof {
            lemma_table_step(c, b);
            assert(data@.subrange(0, i + 1).drop_last() =~= data@.subrange(0, i as int));
        }
        let k: usize = ((c >> 24) ^ (b as u32)) as usize;
        c = (c << 8) ^ table[k];
        i = i + 1;
    }
    assert(data@.subrange(0, i as int) =~= data@);
    c
}

/// The lacing values of a packet: full 255s and the remainder, which is zero
/// where the length is a multiple of 255. A page without a packet has one
/// empty value less.
pub open spec fn lacing(len: nat) -> Seq<u8>
    decreases len,
{
    if len >= 255 {
        seq![255u8] + lacing((len - 255) as nat)
    } else {
        seq![len as u8]
    }
}

/// The segment table of a page: the number of lacing values, and they.
pub open spec fn segment_table(len: nat) -> Seq<u8> {
    if len == 0 {
        seq![0u8]
    } else {
        seq![lacing(len).len() as u8] + lacing(len)
    }
}

/// The fields in front of the checksum.
pub open spec fn page_head(serial: u32, seq: u32, header_type: u8, granule: u64) -> Seq<u8> {
    seq![0x4fu8, 0x67u8, 0x67u8, 0x53u8, 0u8, header_type] + vstd::bytes::spec_u64_to_le_bytes(
        granule,
    ) + vstd::bytes::spec_u32_to_le_bytes(serial) + vstd::bytes::spec_u32_to_le_bytes(seq)
}

/// A page whose checksum field holds the given bytes.
pub open spec fn page_with(
    serial: u32,
    seq: u32,
    header_type: u8,
    granule: u64,
    payload: Seq<u8>,
    checksum: Seq<u8>,
) -> Seq<u8> {
    page_head(serial, seq, header_type, granule) + checksum + segment_table(payload.len()) + payload
}

/// A page: its checksum is that of the page with a zero checksum field.
pub open spec fn page(
    serial: u32,
    seq: u32,
    header_type: u8,
    granule: u64,
    payload: Seq<u8>,
) -> Seq<u8> {
    let blank = page_with(serial, seq, header_type, granule, payload, seq![0u8, 0u8, 0u8, 0u8]);
    page_with(
        serial,
        seq,
        header_type,
        granule,
        payload,
        vstd::bytes::spec_u32_to_le_bytes(crc(blank)),
    )
}

proof fn lemma_lacing(len: nat)
    ensures
        lacing(len).len() == len / 255 + 1,
    decreases len,
{
    if len >= 255 {
        lemma_lacing((len - 255) as nat);
    }
}

/// Append the segment table of a payload.
fn push_segments(out: &mut Vec<u8>, len: usize)
    ensures
        final(out)@ == old(out)@ + segment_table(len as nat),
{
    let ghost before = out@;
    if len == 0 {
        out.push(0);
        assert(out@ =~= before + segment_table(len as nat));
        return;
    }
    proof {
        lemma_lacing(len as nat);
    }
    let count: usize = len / 255 + 1;
    out.push(#[verifier::truncate] (count as u8));
    let ghost head = out@;
    let mut rest: usize = len;
    let ghost mut done: Seq<u8> = Seq::empty();
    assert(done + lacing(rest as nat) =~= lacing(len as nat));
    assert(out@ =~= head + done);
    while rest >= 255
        invariant
            out@ == head + done,
            done + lacing(rest as nat) == lacing(len as nat),
        decreases rest,
    {
        out.push(255);
        proof {
            let next = done.push(255);
            assert(next + lacing((rest - 255) as nat) =~= done + lacing(rest as nat));
            done = next;
        }
        assert(out@ =~= head + done);
        rest = rest - 255;
    }
    out.push(rest as u8);
    assert(done + lacing(rest as nat) =~= done.push(rest as u8));
    assert(out@ =~= before + segment_table(len as nat));
}

/// Append one page that carries a single packet. `header_type`: 2 begins the
/// stream, 4 ends it, 0 continues it.
pub fn write_page(
    out: &mut Vec<u8>,
    serial: u32,
    seq: u32,
    header_type: u8,
    granule: u64,
    payload: &[u8],
)
    ensures
        final(out)@ == old(out)@ + page(serial, seq, header_type, granule, payload@),
{
    let mut head: Vec<u8> = Vec::new();
    head.push(0x4f);
    head.push(0x67);
    head.push(0x67);
    head.push(0x53);
    head.push(0);
    head.push(header_type);
    let mut g = u64_to_le_bytes(granule);
    let mut s = u32_to_le_bytes(serial);
    let mut q = u32_to_le_bytes(seq);
    head.append(&mut g);
    head.append(&mut s);
    head.append(&mut q);
    assert(head@ =~= page_head(serial, seq, header_type, granule));
    let mut tail: Vec<u8> = Vec::new();
    push_segments(&mut tail, payload.len());
    tail.extend_from_slice(payload);
    assert(tail@ =~= segment_table(payload@.len()) + payload@);
    let mut draft: Vec<u8> = Vec::new();
    draft.extend_from_slice(head.as_slice());
    draft.push(0);
    draft.push(0);
    draft.push(0);
    draft.push(0);
    draft.extend_from_slice(tail.as_slice());
    assert(draft@ =~= page_with(
        serial,
        seq,
        header_type,
        granule,
        payload@,
        seq![0u8, 0u8, 0u8, 0u8],
    ));
    let mut sum = u32_to_le_bytes(ogg_crc32(draft.as_slice()));
    out.append(&mut head);
    out.append(&mut sum);
    out.append(&mut tail);
    assert(out@ =~= old(out)@ + page(serial, seq, header_type, granule, payload@));
}

/// The identification header of a plain stereo stream.
pub open spec fn head_bytes(pre_skip: u16, input_rate: u32) -> Seq<u8> {
    seq![0x4fu8, 0x70u8, 0x75u8, 0x73u8, 0x48u8, 0x65u8, 0x61u8, 0x64u8, 1u8, 2u8]
        + vstd::bytes::spec_u16_to_le_bytes(pre_skip) + vstd::bytes::spec_u32_to_le_bytes(input_rate)
        + seq![0u8, 0u8, 0u8]
}

/// The identification header of a plain stereo stream (19 bytes).
pub fn opus_head(pre_skip: u16, input_rate: u32) -> (h: Vec<u8>)
    ensures
        h@ == head_bytes(pre_skip, input_rate),
        h@.len() == 19,
{
    proof {
        vstd::bytes::lemma_auto_spec_u16_to_from_le_bytes();
        vstd::bytes::lemma_auto_spec_u32_to_from_le_bytes();
    }
    let mut h: Vec<u8> = vec![0x4fu8, 0x70u8, 0x75u8, 0x73u8, 0x48u8, 0x65u8, 0x61u8, 0x64u8, 1u8, 2u8];
    let mut p = u16_to_le_bytes(pre_skip);
    let mut r = u32_to_le_bytes(input_rate);
    h.append(&mut p);
    h.append(&mut r);
    h.push(0);
    h.push(0);
    h.push(0);
    assert(h@ =~= head_bytes(pre_skip, input_rate));
    h
}

/// The comment header without comments: the magic, the length of the vendor's
/// name, the name, and no comment.
pub open spec fn tags_bytes() -> Seq<u8> {
    seq![0x4fu8, 0x70u8, 0x75u8, 0x73u8, 0x54u8, 0x61u8, 0x67u8, 0x73u8]
        + vstd::bytes::spec_u32_to_le_bytes(8) + seq![
        0x43u8,
        0x72u8,
        0x61u8,
        0x62u8,
        0x42u8,
        0x6fu8,
        0x73u8,
        0x73u8,
    ] + vstd::bytes::spec_u32_to_le_bytes(0)
}

/// The comment header without comments.
pub fn opus_tags() -> (t: Vec<u8>)
    ensures
        t@ == tags_bytes(),
        t@.len() == 24,
{
    proof {
        vstd::bytes::lemma_auto_spec_u32_to_from_le_bytes();
    }
    let mut t: Vec<u8> = vec![0x4fu8, 0x70u8, 0x75u8, 0x73u8, 0x54u8, 0x61u8, 0x67u8, 0x73u8];
    let mut n = u32_to_le_bytes(8);
    let mut v: Vec<u8> = vec![0x43u8, 0x72u8, 0x61u8, 0x62u8, 0x42u8, 0x6fu8, 0x73u8, 0x73u8];
    let mut z = u32_to_le_bytes(0);
    t.append(&mut n);
    t.append(&mut v);
    t.append(&mut z);
    assert(t@ =~= tags_bytes());
    t
}

/// The sum of lacing values.
pub open spec fn lacing_sum(values: Seq<u8>) -> nat
    decreases values.len(),
{
    if values.len() == 0 {
        0
    } else {
        values[0] as nat + lacing_sum(values.drop_first())
    }
}

proof fn lemma_lacing_sum(len: nat)
    ensures
        lacing_sum(lacing(len)) == len,
    decreases len,
{
    if len >= 255 {
        lemma_lacing_sum((len - 255) as nat);
        assert(lacing(len).drop_first() =~= lacing((len - 255) as nat));
    } else {
        assert(lacing(len) =~= seq![len as u8]);
        assert(lacing(len).drop_first() =~= Seq::<u8>::empty());
        assert(lacing_sum(Seq::<u8>::empty()) == 0);
    }
}

/// What a reader takes from the front of a page: type, granule, serial number,
/// sequence number, checksum and packet.
pub ghost struct ReadPage {
    pub header_type: u8,
    pub granule: u64,
    pub serial: u32,
    pub seq: u32,
    pub checksum: u32,
    pub payload: Seq<u8>,
    /// Bytes the page takes.
    pub size: int,
}

/// Read a page from the front of some bytes.
pub open spec fn read_page(b: Seq<u8>) -> ReadPage {
    let segments = b[26] as int;
    let body = 27 + segments;
    let len = lacing_sum(b.subrange(27, body));
    ReadPage {
        header_type: b[5],
        granule: vstd::bytes::spec_u64_from_le_bytes(b.subrange(6, 14)),
        serial: vstd::bytes::spec_u32_from_le_bytes(b.subrange(14, 18)),
        seq: vstd::bytes::spec_u32_from_le_bytes(b.subrange(18, 22)),
        checksum: vstd::bytes::spec_u32_from_le_bytes(b.subrange(22, 26)),
        payload: b.subrange(body, body + len),
        size: body + len,
    }
}

/// The bytes of a page with its checksum field set to zero.
pub open spec fn without_checksum(b: Seq<u8>) -> Seq<u8> {
    b.subrange(0, 22) + seq![0u8, 0u8, 0u8, 0u8] + b.skip(26)
}

/// A page reads back as what was written, whatever follows it, and its
/// checksum verifies, as long as the packet fits into one page.
pub proof fn pages_read_back(
    serial: u32,
    seq: u32,
    header_type: u8,
    granule: u64,
    payload: Seq<u8>,
    rest: Seq<u8>,
)
    requires
        payload.len() < 65025,
    ensures
        ({
            let p = page(serial, seq, header_type, granule, payload);
            let r = read_page(p + rest);
            &&& r.header_type == header_type
            &&& r.granule == granule
            &&& r.serial == serial
            &&& r.seq == seq
            &&& r.payload == payload
            &&& r.size == p.len()
            &&& r.checksum == crc(without_checksum(p))
        }),
{
    vstd::bytes::lemma_auto_spec_u32_to_from_le_bytes();
    vstd::bytes::lemma_auto_spec_u64_to_from_le_bytes();
    lemma_lacing(payload.len());
    lemma_lacing_sum(payload.len());
    let head = page_head(serial, seq, header_type, granule);
    let zero = seq![0u8, 0u8, 0u8, 0u8];
    let blank = page_with(serial, seq, header_type, granule, payload, zero);
    let sum = vstd::bytes::spec_u32_to_le_bytes(crc(blank));
    let table = segment_table(payload.len());
    let p = page(serial, seq, header_type, granule, payload);
    let b = p + rest;
    assert(vstd::bytes::spec_u64_to_le_bytes(granule).len() == 8);
    assert(vstd::bytes::spec_u32_to_le_bytes(serial).len() == 4);
    assert(vstd::bytes::spec_u32_to_le_bytes(seq).len() == 4);
    assert(sum.len() == 4);
    assert(head.len() == 22);
    assert(b.subrange(6, 14) =~= vstd::bytes::spec_u64_to_le_bytes(granule));
    assert(b.subrange(14, 18) =~= vstd::bytes::spec_u32_to_le_bytes(serial));
    assert(b.subrange(18, 22) =~= vstd::bytes::spec_u32_to_le_bytes(seq));
    assert(b.subrange(22, 26) =~= sum);
    let segments = if payload.len() == 0 {
        0int
    } else {
        lacing(payload.len()).len() as int
    };
    assert(segments <= 255);
    assert(b[26] == table[0]);
    assert(b[26] as int == segments);
    assert(p.len() == 27 + segments + payload.len());
    if payload.len() == 0 {
        assert(b.subrange(27, 27) =~= Seq::empty());
    } else {
        assert(b.subrange(27, 27 + segments) =~= lacing(payload.len()));
    }
    assert(b.subrange(27 + segments, 27 + segments + payload.len()) =~= payload);
    assert(without_checksum(p) =~= blank);
}

/// The bitrate handed to the encoder, in bits per second.
pub open spec fn opus_bits(kbps: u32) -> int {
    if kbps < 16 {
        16_000
    } else if kbps > 320 {
        320_000
    } else {
        kbps * 1000
    }
}

/// The bitrate handed to the encoder, in bits per second.
pub fn opus_bitrate(kbps: u32) -> (r: i32)
    ensures
        r == opus_bits(kbps),
{
    let k: u32 = if kbps < 16 {
        16
    } else if kbps > 320 {
        320
    } else {
        kbps
    };
    (k * 1000) as i32
}

/// The container side of an Opus stream: it stages samples into frames and
/// frames packets into pages. `T` is the sample type.
#[derive(Debug)]
pub struct OpusOggEncoder<T> {
    /// Samples per channel at the stream's rate, waiting to fill a frame.
    pub left: Vec<T>,
    pub right: Vec<T>,
    /// Samples per channel at the input's rate, waiting to be resampled.
    pub raw_left: Vec<T>,
    pub raw_right: Vec<T>,
    /// Bytes to send.
    pub out: Vec<u8>,
    pub serial: u32,
    pub seq: u32,
    /// Samples emitted so far.
    pub granule: u64,
    pub started: bool,
    pub input_rate: u32,
    pub pre_skip: u16,
}

impl<T: Copy> OpusOggEncoder<T> {
    /// An empty stream for input at a rate; a rate of zero is refused.
    pub fn new(sample_rate: u32, serial: u32, pre_skip: u16) -> (r: Result<Self, CrabError>)
        ensures
            match r {
                Ok(e) => sample_rate != 0 && e.left@.len() == 0 && e.right@.len() == 0
                    && e.raw_left@.len() == 0 && e.raw_right@.len() == 0
                    && e.out@.len() == 0 && e.serial == serial && e.seq == 0 && e.granule == 0
                    && !e.started && e.input_rate == sample_rate && e.pre_skip == pre_skip,
                Err(CrabError::Audio(m)) => sample_rate == 0 && m@ == "Opus: device rate is 0"@,
                Err(_) => false,
            },
    {
        if sample_rate == 0 {
            return Err(CrabError::Audio(String::from_str("Opus: device rate is 0")));
        }
        Ok(
            OpusOggEncoder {
                left: Vec::new(),
                right: Vec::new(),
                raw_left: Vec::new(),
                raw_right: Vec::new(),
                out: Vec::new(),
                serial,
                seq: 0,
                granule: 0,
                started: false,
                input_rate: sample_rate,
                pre_skip,
            },
        )
    }

    /// Whether the input has to be brought to the stream's rate first.
    pub fn needs_resampling(&self) -> (r: bool)
        ensures
            r == (self.input_rate != OPUS_RATE),
    {
        self.input_rate != OPUS_RATE
    }

    /// Append a page with the next sequence number.
    fn push_page(&mut self, header_type: u8, granule: u64, payload: &[u8])
        requires
            old(self).seq < u32::MAX,
        ensures
            *final(self) == (OpusOggEncoder { out: final(self).out, seq: final(self).seq, ..*old(self) }),
            final(self).seq == old(self).seq + 1,
            final(self).out@ == old(self).out@ + page(
                old(self).serial,
                old(self).seq,
                header_type,
                granule,
                payload@,
            ),
    {
        write_page(&mut self.out, self.serial, self.seq, header_type, granule, payload);
        self.seq = self.seq + 1;
    }

    /// Begin a batch: forget the bytes of the last one, and open the stream
    /// with its two header pages the first time.
    pub fn begin(&mut self)
        requires
            old(self).seq < u32::MAX - 1,
        ensures
            final(self).started,
            final(self).left == old(self).left,
            final(self).right == old(self).right,
            final(self).raw_left == old(self).raw_left,
            final(self).raw_right == old(self).raw_right,
            final(self).granule == old(self).granule,
            final(self).serial == old(self).serial,
            final(self).input_rate == old(self).input_rate,
            final(self).pre_skip == old(self).pre_skip,
            if old(self).started {
                final(self).out@.len() == 0 && final(self).seq == old(self).seq
            } else {
                final(self).seq == old(self).seq + 2 && final(self).out@ == page(
                    old(self).serial,
                    old(self).seq,
                    2,
                    0,
                    head_bytes(old(self).pre_skip, old(self).input_rate),
                ) + page(old(self).serial, (old(self).seq + 1) as u32, 0, 0, tags_bytes())
            },
    {
        self.out.clear();
        if !self.started {
            self.started = true;
            let head = opus_head(self.pre_skip, self.input_rate);
            self.push_page(2, 0, head.as_slice());
            let tags = opus_tags();
            self.push_page(0, 0, tags.as_slice());
            assert(self.out@ =~= page(
                old(self).serial,
                old(self).seq,
                2,
                0,
                head_bytes(old(self).pre_skip, old(self).input_rate),
            ) + page(old(self).serial, (old(self).seq + 1) as u32, 0, 0, tags_bytes()));
        }
    }

    /// Put interleaved samples into the two channels: those of the stream, or
    /// those that are to be resampled.
    pub fn stage(&mut self, interleaved: &[T])
        ensures
            old(self).input_rate == OPUS_RATE ==> {
                &&& *final(self) == (OpusOggEncoder {
                    left: final(self).left,
                    right: final(self).right,
                    ..*old(self)
                })
                &&& final(self).left@ == old(self).left@ + channels::evens(interleaved@)
                &&& final(self).right@ == old(self).right@ + channels::odds(interleaved@)
            },
            old(self).input_rate != OPUS_RATE ==> {
                &&& *final(self) == (OpusOggEncoder {
                    raw_left: final(self).raw_left,
                    raw_right: final(self).raw_right,
                    ..*old(self)
                })
                &&& final(self).raw_left@ == old(self).raw_left@ + channels::evens(interleaved@)
                &&& final(self).raw_right@ == old(self).raw_right@ + channels::odds(interleaved@)
            },
    {
        if self.input_rate == OPUS_RATE {
            deal(&mut self.left, &mut self.right, interleaved);
        } else {
            deal(&mut self.raw_left, &mut self.raw_right, interleaved);
        }
    }

    /// Take the next chunk to resample, one part per channel, if it is whole.
    pub fn take_chunk(&mut self) -> (c: Option<(Vec<T>, Vec<T>)>)
        ensures
            *final(self) == (OpusOggEncoder {
                raw_left: final(self).raw_left,
                raw_right: final(self).raw_right,
                ..*old(self)
            }),
            match c {
                Some((l, r)) => l@.len() == RES_CHUNK && r@.len() == RES_CHUNK
                    && l@ + final(self).raw_left@ == old(self).raw_left@
                    && r@ + final(self).raw_right@ == old(self).raw_right@,
                None => (old(self).raw_left@.len() < RES_CHUNK || old(self).raw_right@.len()
                    < RES_CHUNK) && final(self).raw_left@ == old(self).raw_left@
                    && final(self).raw_right@ == old(self).raw_right@,
            },
    {
        if self.raw_left.len() < RES_CHUNK || self.raw_right.len() < RES_CHUNK {
            return None;
        }
        let l = take_front(&mut self.raw_left, RES_CHUNK);
        let r = take_front(&mut self.raw_right, RES_CHUNK);
        Some((l, r))
    }

    /// Put a resampled chunk into the channels of the stream.
    pub fn push_resampled(&mut self, l: &[T], r: &[T])
        ensures
            *final(self) == (OpusOggEncoder {
                left: final(self).left,
                right: final(self).right,
                ..*old(self)
            }),
            final(self).left@ == old(self).left@ + l@,
            final(self).right@ == old(self).right@ + r@,
    {
        let mut i: usize = 0;
        while i < l.len()
            invariant
                i <= l@.len(),
                *self == (OpusOggEncoder { left: self.left, ..*old(self) }),
                self.left@ == old(self).left@ + l@.subrange(0, i as int),
            decreases l@.len() - i,
        {
            self.left.push(l[i]);
            i = i + 1;
            assert(self.left@ =~= old(self).left@ + l@.subrange(0, i as int));
        }
        assert(l@.subrange(0, i as int) =~= l@);
        let mut j: usize = 0;
        while j < r.len()
            invariant
                j <= r@.len(),
                *self == (OpusOggEncoder { left: self.left, right: self.right, ..*old(self) }),
                self.left@ == old(self).left@ + l@,
                self.right@ == old(self).right@ + r@.subrange(0, j as int),
            decreases r@.len() - j,
        {
            self.right.push(r[j]);
            j = j + 1;
            assert(self.right@ =~= old(self).right@ + r@.subrange(0, j as int));
        }
        assert(r@.subrange(0, j as int) =~= r@);
    }

    /// Take the next full frame, interleaved, if one is waiting.
    pub fn take_frame(&mut self) -> (f: Option<Vec<T>>)
        ensures
            match f {
                Some(v) => {
                    &&& old(self).left@.len() >= FRAME_SAMPLES
                    &&& old(self).right@.len() >= FRAME_SAMPLES
                    &&& v@ == channels::woven(old(self).left@, old(self).right@, FRAME_SAMPLES as nat)
                    &&& final(self).left@ == old(self).left@.skip(FRAME_SAMPLES as int)
                    &&& final(self).right@ == old(self).right@.skip(FRAME_SAMPLES as int)
                    &&& *final(self) == (OpusOggEncoder {
                        left: final(self).left,
                        right: final(self).right,
                        ..*old(self)
                    })
                },
                None => (old(self).left@.len() < FRAME_SAMPLES || old(self).right@.len()
                    < FRAME_SAMPLES) && *final(self) == *old(self),
            },
    {
        if self.left.len() < FRAME_SAMPLES || self.right.len() < FRAME_SAMPLES {
            return None;
        }
        let mut frame: Vec<T> = Vec::new();
        let mut i: usize = 0;
        while i < FRAME_SAMPLES
            invariant
                i <= FRAME_SAMPLES,
                *self == *old(self),
                self.left@.len() >= FRAME_SAMPLES,
                self.right@.len() >= FRAME_SAMPLES,
                frame@ == channels::woven(self.left@, self.right@, i as nat),
            decreases FRAME_SAMPLES - i,
        {
            frame.push(self.left[i]);
            frame.push(self.right[i]);
            i = i + 1;
        }
        let l = self.left.split_off(FRAME_SAMPLES);
        let r = self.right.split_off(FRAME_SAMPLES);
        self.left = l;
        self.right = r;
        assert(self.left@ =~= old(self).left@.skip(FRAME_SAMPLES as int));
        assert(self.right@ =~= old(self).right@.skip(FRAME_SAMPLES as int));
        Some(frame)
    }

    /// Append the page of one encoded frame.
    pub fn push_packet(&mut self, packet: &[u8])
        requires
            old(self).seq < u32::MAX,
            old(self).granule + FRAME_SAMPLES <= u64::MAX,
        ensures
            *final(self) == (OpusOggEncoder {
                out: final(self).out,
                seq: final(self).seq,
                granule: final(self).granule,
                ..*old(self)
            }),
            final(self).seq == old(self).seq + 1,
            final(self).granule == old(self).granule + FRAME_SAMPLES,
            final(self).out@ == old(self).out@ + page(
                old(self).serial,
                old(self).seq,
                0,
                final(self).granule,
                packet@,
            ),
    {
        self.granule = self.granule + FRAME_SAMPLES as u64;
        let granule: u64 = self.granule;
        self.push_page(0, granule, packet);
    }

    /// Close the stream with an empty last page; what is left of a frame is
    /// dropped.
    pub fn flush(&mut self)
        requires
            old(self).seq < u32::MAX,
        ensures
            *final(self) == (OpusOggEncoder {
                out: final(self).out,
                seq: final(self).seq,
                ..*old(self)
            }),
            final(self).seq == old(self).seq + 1,
            final(self).out@ == page(
                old(self).serial,
                old(self).seq,
                4,
                old(self).granule,
                Seq::empty(),
            ),
    {
        self.out.clear();
        let nothing: Vec<u8> = Vec::new();
        let granule: u64 = self.granule;
        self.push_page(4, granule, nothing.as_slice());
        assert(nothing@ =~= Seq::empty());
        assert(self.out@ =~= page(
            old(self).serial,
            old(self).seq,
            4,
            old(self).granule,
            Seq::empty(),
        ));
    }
}

/// An identification header says what it was made for: version one, two
/// channels, the skip and the rate, no gain and no mapping.
pub proof fn identification_reads_back(pre_skip: u16, input_rate: u32)
    ensures
        head_bytes(pre_skip, input_rate).len() == 19,
        head_bytes(pre_skip, input_rate).take(8) == seq!['O', 'p', 'u', 's', 'H', 'e', 'a', 'd'].map_values(
            |c: char| c as u8,
        ),
        head_bytes(pre_skip, input_rate)[8] == 1,
        head_bytes(pre_skip, input_rate)[9] == 2,
        vstd::bytes::spec_u16_from_le_bytes(head_bytes(pre_skip, input_rate).subrange(10, 12))
            == pre_skip,
        vstd::bytes::spec_u32_from_le_bytes(head_bytes(pre_skip, input_rate).subrange(12, 16))
            == input_rate,
        head_bytes(pre_skip, input_rate)[16] == 0 && head_bytes(pre_skip, input_rate)[17] == 0,
        head_bytes(pre_skip, input_rate)[18] == 0,
{
    vstd::bytes::lemma_auto_spec_u16_to_from_le_bytes();
    vstd::bytes::lemma_auto_spec_u32_to_from_le_bytes();
    let h = head_bytes(pre_skip, input_rate);
    assert(vstd::bytes::spec_u16_to_le_bytes(pre_skip).len() == 2);
    assert(vstd::bytes::spec_u32_to_le_bytes(input_rate).len() == 4);
    assert(h.subrange(10, 12) =~= vstd::bytes::spec_u16_to_le_bytes(pre_skip));
    assert(h.subrange(12, 16) =~= vstd::bytes::spec_u32_to_le_bytes(input_rate));
    assert(h.take(8) =~= seq!['O', 'p', 'u', 's', 'H', 'e', 'a', 'd'].map_values(|c: char| c as u8));
}

/// A comment header names who made the stream and holds no comments.
pub proof fn comments_read_back()
    ensures
        tags_bytes().len() == 24,
        tags_bytes().take(8) == seq!['O', 'p', 'u', 's', 'T', 'a', 'g', 's'].map_values(
            |c: char| c as u8,
        ),
        vstd::bytes::spec_u32_from_le_bytes(tags_bytes().subrange(8, 12)) == 8,
        tags_bytes().subrange(12, 20) == seq!['C', 'r', 'a', 'b', 'B', 'o', 's', 's'].map_values(
            |c: char| c as u8,
        ),
        vstd::bytes::spec_u32_from_le_bytes(tags_bytes().subrange(20, 24)) == 0,
{
    vstd::bytes::lemma_auto_spec_u32_to_from_le_bytes();
    let t = tags_bytes();
    assert(vstd::bytes::spec_u32_to_le_bytes(8).len() == 4);
    assert(vstd::bytes::spec_u32_to_le_bytes(0).len() == 4);
    assert(t.subrange(8, 12) =~= vstd::bytes::spec_u32_to_le_bytes(8));
    assert(t.subrange(20, 24) =~= vstd::bytes::spec_u32_to_le_bytes(0));
    assert(t.take(8) =~= seq!['O', 'p', 'u', 's', 'T', 'a', 'g', 's'].map_values(|c: char| c as u8));
    assert(t.subrange(12, 20) =~= seq!['C', 'r', 'a', 'b', 'B', 'o', 's', 's'].map_values(
        |c: char| c as u8,
    ));
}

/// The rate of the codec is the one asked for, from sixteen to three hundred
/// and twenty thousand bits a second.
pub proof fn codec_rates_are_in_range(kbps: u32)
    ensures
        16_000 <= opus_bits(kbps) <= 320_000,
        16 <= kbps <= 320 ==> opus_bits(kbps) == 1000 * kbps,
        kbps < 16 ==> opus_bits(kbps) == 16_000,
        kbps > 320 ==> opus_bits(kbps) == 320_000,
{
}

/// A packet is laced into full segments and one that is not full, which may be
/// empty.
pub proof fn laces_end_with_a_short_one(len: nat, i: int)
    requires
        0 <= i,
    ensures
        lacing(len).len() == len / 255 + 1,
        i < len / 255 ==> lacing(len)[i] == 255,
        lacing(len)[(len / 255) as int] == len % 255,
    decreases len,
{
    if len >= 255 {
        laces_end_with_a_short_one((len - 255) as nat, if i > 0 {
            i - 1
        } else {
            0
        });
        assert((len - 255) / 255 == len / 255 - 1);
        assert((len - 255) % 255 == (len % 255) as int);
    }
}

/// A checksum shifts its register bit by bit, and what leaves it comes back at
/// the places 26, 23, 22, 16, 12, 11, 10, 8, 7, 5, 4, 2, 1 and 0.
pub proof fn checksums_feed_back(r: u32)
    ensures
        r & 0x8000_0000 == 0 ==> crc_bit(r) == r << 1,
        r & 0x8000_0000 != 0 ==> crc_bit(r) == (r << 1) ^ ((1u32 << 26) | (1u32 << 23) | (1u32 << 22) | (
        1u32 << 16) | (1u32 << 12) | (1u32 << 11) | (1u32 << 10) | (1u32 << 8) | (1u32 << 7) | (1u32 << 5)
            | (1u32 << 4) | (1u32 << 2) | (1u32 << 1) | 1u32),
{
    assert(0x04C1_1DB7u32 == ((1u32 << 26) | (1u32 << 23) | (1u32 << 22) | (1u32 << 16) | (1u32 << 12)
        | (1u32 << 11) | (1u32 << 10) | (1u32 << 8) | (1u32 << 7) | (1u32 << 5) | (1u32 << 4) | (1u32
        << 2) | (1u32 << 1) | 1u32)) by (bit_vector);
}

/// A checksum cancels itself: behind any bytes, their own checksum with its
/// highest byte in front brings the register to nothing.
pub proof fn checksums_cancel(data: Seq<u8>)
    ensures
        ({
            let c = crc(data);
            crc(
                data.push((c >> 24) as u8).push((c >> 16) as u8).push((c >> 8) as u8).push(c as u8),
            ) == 0
        }),
{
    let c = crc(data);
    let b3 = (c >> 24) as u8;
    let b2 = (c >> 16) as u8;
    let b1 = (c >> 8) as u8;
    let b0 = c as u8;
    let s3 = data.push(b3);
    let s2 = s3.push(b2);
    let s1 = s2.push(b1);
    let s0 = s1.push(b0);
    assert(s3.drop_last() =~= data);
    assert(s2.drop_last() =~= s3);
    assert(s1.drop_last() =~= s2);
    assert(s0.drop_last() =~= s1);
    let r3 = crc(s3);
    let r2 = crc(s2);
    let r1 = crc(s1);
    lemma_cancel(c, b3);
    lemma_cancel(r3, b2);
    lemma_cancel(r2, b1);
    lemma_cancel(r1, b0);
    assert((c >> 24) as u8 as u32 == c >> 24) by (bit_vector);
    assert(((c << 8) >> 24) as u8 == (c >> 16) as u8) by (bit_vector);
    assert(((c << 8u32) << 8u32) >> 24u32 == ((c >> 8u32) & 0xff)) by (bit_vector);
    assert((c >> 8u32) as u8 as u32 == (c >> 8u32) & 0xff) by (bit_vector);
    assert((c >> 16u32) as u8 as u32 == (c << 8u32) >> 24u32) by (bit_vector);
    assert(c as u8 as u32 == (((c << 8u32) << 8u32) << 8u32) >> 24u32) by (bit_vector);
    assert((((c << 8u32) << 8u32) << 8u32) << 8u32 == 0) by (bit_vector);
}

proof fn lemma_cancel(r: u32, b: u8)
    ensures
        b as u32 == r >> 24 ==> crc_byte(r, b) == r << 8,
{
    if b as u32 == r >> 24 {
        lemma_table_step(r, b);
        let w = b as u32;
        assert((r >> 24u32) ^ w == 0) by (bit_vector)
            requires
                w == r >> 24u32,
        ;
        assert(0u32 << 24u32 == 0 && 0u32 << 1u32 == 0 && 0u32 & 0x8000_0000 == 0) by (bit_vector);
        assert(crc_bit(0) == 0);
        assert(crc_eight(0) == 0);
        let x = r << 8;
        assert(x ^ 0u32 == x) by (bit_vector);
    }
}

} // verus!
