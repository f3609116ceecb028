//! The canonical 44-byte WAV header and 16-bit little-endian PCM data: how
//! extracted audio is written, and how it is read back for recognition.

use crate::error::AsrError;
use crate::text::{chars_to_string, dec, push_dec, push_str};
use vstd::prelude::*;

verus! {

/// Two little-endian bytes of `x`.
pub open spec fn le16(x: u16) -> Seq<u8> {
    seq![(x % 256) as u8, (x / 256) as u8]
}

/// Four little-endian bytes of `x`.
pub open spec fn le32(x: u32) -> Seq<u8> {
    seq![(x % 256) as u8, ((x / 256) % 256) as u8, ((x / 65536) % 256) as u8, (x / 16777216) as u8]
}

/// The value of two little-endian bytes.
pub open spec fn read16(b: Seq<u8>, at: int) -> u16 {
    (b[at] + 256 * b[at + 1]) as u16
}

/// The value of four little-endian bytes.
pub open spec fn read32(b: Seq<u8>, at: int) -> u32 {
    (b[at] + 256 * b[at + 1] + 65536 * b[at + 2] + 16777216 * b[at + 3]) as u32
}

/// The two's complement bit pattern of a sample.
pub open spec fn sample_bits(x: i16) -> u16 {
    if x >= 0 {
        x as u16
    } else {
        (x + 65536) as u16
    }
}

/// The sample a bit pattern stands for.
pub open spec fn bits_sample(u: u16) -> i16 {
    if u < 32768 {
        u as i16
    } else {
        (u - 65536) as i16
    }
}

/// The bytes of the samples, two little-endian bytes each.
pub open spec fn pcm16_bytes(samples: Seq<i16>) -> Seq<u8>
    decreases samples.len(),
{
    if samples.len() == 0 {
        Seq::empty()
    } else {
        pcm16_bytes(samples.drop_last()) + le16(sample_bits(samples.last()))
    }
}

/// The samples in PCM data: one per whole pair of bytes (a trailing odd
/// byte is ignored).
pub open spec fn pcm16_samples(b: Seq<u8>) -> Seq<i16> {
    Seq::new((b.len() / 2) as nat, |i: int| bits_sample(read16(b, 2 * i)))
}

/// The 44-byte header of mono or multi-channel 16-bit PCM.
pub open spec fn wav_header(data_size: u32, sample_rate: u32, channels: u16) -> Seq<u8> {
    "RIFF"@.map_values(|c: char| c as u8) + le32((36 + data_size) as u32) + "WAVE"@.map_values(
        |c: char| c as u8,
    ) + "fmt "@.map_values(|c: char| c as u8) + le32(16) + le16(1) + le16(channels) + le32(
        sample_rate,
    ) + le32((sample_rate * channels * 2) as u32) + le16((channels * 2) as u16) + le16(16)
        + "data"@.map_values(|c: char| c as u8) + le32(data_size)
}

/// The whole file: header and sample data.
pub open spec fn wav_file(samples: Seq<i16>, sample_rate: u32, channels: u16) -> Seq<u8> {
    wav_header((samples.len() * 2) as u32, sample_rate, channels) + pcm16_bytes(samples)
}

/// The fields of a WAV header that reading needs.
#[derive(Debug, Clone, Copy, PartialEq, Eq, Structural)]
pub struct WavFormat {
    pub audio_format: u16,
    pub num_channels: u16,
    pub sample_rate: u32,
    pub bits_per_sample: u16,
    pub data_size: u32,
}

/// The encoding of the samples.
#[derive(Debug, Clone, Copy, PartialEq, Eq, Structural)]
pub enum SampleEncoding {
    /// Signed 16-bit integers.
    Pcm16,
    /// 32-bit floats.
    Float32,
}

/// The header begins with `RIFF` and names `WAVE` at byte 8.
pub open spec fn is_riff_wave(h: Seq<u8>) -> bool {
    h[0] == 82 && h[1] == 73 && h[2] == 70 && h[3] == 70 && h[8] == 87 && h[9] == 65 && h[10]
        == 86 && h[11] == 69
}

/// The fields read from a header.
pub open spec fn header_format(h: Seq<u8>) -> WavFormat {
    WavFormat {
        audio_format: read16(h, 20),
        num_channels: read16(h, 22),
        sample_rate: read32(h, 24),
        bits_per_sample: read16(h, 34),
        data_size: read32(h, 40),
    }
}

/// The encoding given by the bits per sample, if it is a supported one.
pub open spec fn encoding_of(f: WavFormat) -> Option<SampleEncoding> {
    if f.bits_per_sample == 16 {
        Some(SampleEncoding::Pcm16)
    } else if f.bits_per_sample == 32 && f.sample_rate != 3 {
        Some(SampleEncoding::Float32)
    } else {
        None
    }
}

fn push_le16(out: &mut Vec<u8>, x: u16)
    ensures
        final(out)@ == old(out)@ + le16(x),
{
    out.push((x % 256) as u8);
    out.push((x / 256) as u8);
}

fn push_le32(out: &mut Vec<u8>, x: u32)
    ensures
        final(out)@ == old(out)@ + le32(x),
{
    out.push((x % 256) as u8);
    out.push(((x / 256) % 256) as u8);
    out.push(((x / 65536) % 256) as u8);
    out.push((x / 16777216) as u8);
}

fn push_tag(out: &mut Vec<u8>, tag: &str)
    requires
        tag@.len() == 4,
        forall|i: int| 0 <= i < 4 ==> (#[trigger] tag@[i] as u32) < 128,
    ensures
        final(out)@ == old(out)@ + tag@.map_values(|c: char| c as u8),
{
    let chars = crate::text::str_chars(tag);
    let ghost o0 = out@;
    let mut i: usize = 0;
    while i < 4
        invariant
            i <= 4,
            chars@ == tag@,
            tag@.len() == 4,
            out@ == o0 + tag@.map_values(|c: char| c as u8).take(i as int),
        decreases 4 - i,
    {
        out.push(chars[i] as u8);
        i = i + 1;
        proof {
            assert(tag@.map_values(|c: char| c as u8).take(i as int) =~= tag@.map_values(
                |c: char| c as u8,
            ).take(i - 1).push(chars@[i - 1] as u8));
        }
    }
    assert(tag@.map_values(|c: char| c as u8).take(4) =~= tag@.map_values(|c: char| c as u8));
}

/// The bit pattern of a sample, computed.
fn sample_to_bits(x: i16) -> (u: u16)
    ensures
        u == sample_bits(x),
{
    if x >= 0 {
        x as u16
    } else {
        (x as i32 + 65536) as u16
    }
}

/// The header fields of a written file, read from the file itself.
proof fn lemma_wav_file_fields(samples: Seq<i16>, sample_rate: u32, channels: u16)
    requires
        36 + samples.len() * 2 <= u32::MAX,
        sample_rate * channels * 2 <= u32::MAX,
        channels * 2 <= u16::MAX,
    ensures
        ({
            let f = wav_file(samples, sample_rate, channels);
            &&& f.len() == 44 + 2 * samples.len()
            &&& read32(f, 28) == sample_rate * channels * 2
            &&& read16(f, 32) == channels * 2
            &&& header_format(f) == (WavFormat {
                audio_format: 1,
                num_channels: channels,
                sample_rate,
                bits_per_sample: 16,
                data_size: (samples.len() * 2) as u32,
            })
        }),
{
    lemma_wav_roundtrip(samples, sample_rate, channels);
    let f = wav_file(samples, sample_rate, channels);
    let h = f.take(44);
    assert(read32(f, 28) == read32(h, 28));
    assert(read16(f, 32) == read16(h, 32));
    assert(read16(f, 20) == read16(h, 20));
    assert(read16(f, 22) == read16(h, 22));
    assert(read32(f, 24) == read32(h, 24));
    assert(read16(f, 34) == read16(h, 34));
    assert(read32(f, 40) == read32(h, 40));
}

/// The WAV file of 16-bit samples: the 44-byte header followed by the
/// samples as little-endian bytes.
pub fn wav_bytes(samples: &[i16], sample_rate: u32, channels: u16) -> (b: Vec<u8>)
    requires
        36 + samples@.len() * 2 <= u32::MAX,
        sample_rate * channels * 2 <= u32::MAX,
        channels * 2 <= u16::MAX,
    ensures
        b@ == wav_file(samples@, sample_rate, channels),
        b@.len() == 44 + 2 * samples@.len(),
        read32(b@, 28) == sample_rate * channels * 2,
        read16(b@, 32) == channels * 2,
        header_format(b@) == (WavFormat {
            audio_format: 1,
            num_channels: channels,
            sample_rate,
            bits_per_sample: 16,
            data_size: (samples@.len() * 2) as u32,
        }),
{
    let data_size = (samples.len() * 2) as u32;
    let file_size = 36 + data_size;
    let byte_rate = sample_rate * channels as u32 * 2;
    let block_align = channels * 2;
    let mut out: Vec<u8> = Vec::new();
    proof {
        reveal_strlit("RIFF");
        reveal_strlit("WAVE");
        reveal_strlit("fmt ");
        reveal_strlit("data");
    }
    push_tag(&mut out, "RIFF");
    push_le32(&mut out, file_size);
    push_tag(&mut out, "WAVE");
    push_tag(&mut out, "fmt ");
    push_le32(&mut out, 16);
    push_le16(&mut out, 1);
    push_le16(&mut out, channels);
    push_le32(&mut out, sample_rate);
    push_le32(&mut out, byte_rate);
    push_le16(&mut out, block_align);
    push_le16(&mut out, 16);
    push_tag(&mut out, "data");
    push_le32(&mut out, data_size);
    let ghost head = wav_header((samples@.len() * 2) as u32, sample_rate, channels);
    assert(out@ =~= head);
    let mut i: usize = 0;
    while i < samples.len()
        invariant
            i <= samples@.len(),
            out@ == head + pcm16_bytes(samples@.take(i as int)),
        decreases samples.len() - i,
    {
        let u = sample_to_bits(samples[i]);
        push_le16(&mut out, u);
        proof {
            assert(samples@.take(i + 1).drop_last() =~= samples@.take(i as int));
            assert(samples@.take(i + 1).last() == samples@[i as int]);
            assert(out@ =~= head + pcm16_bytes(samples@.take(i + 1)));
        }
        i = i + 1;
    }
    assert(samples@.take(samples@.len() as int) =~= samples@);
    proof {
        lemma_wav_file_fields(samples@, sample_rate, channels);
    }
    out
}

/// `Unsupported WAV format: N (only PCM supported)`.
pub open spec fn unsupported_format_message(f: u16) -> Seq<char> {
    "Unsupported WAV format: "@ + dec(f as nat) + " (only PCM supported)"@
}

/// `Unsupported bits per sample: N`.
pub open spec fn unsupported_bits_message(bits: u16) -> Seq<char> {
    "Unsupported bits per sample: "@ + dec(bits as nat)
}

/// Reads the fields of a 44-byte WAV header. Refuses a header that is not
/// RIFF/WAVE, or whose audio format is not PCM (1).
pub fn parse_wav_header(header: &[u8]) -> (r: Result<WavFormat, AsrError>)
    requires
        header@.len() == 44,
    ensures
        match r {
            Ok(f) => is_riff_wave(header@) && f == header_format(header@) && f.audio_format == 1,
            Err(AsrError::Transcription(m)) => if !is_riff_wave(header@) {
                m@ == "Not a valid WAV file"@
            } else {
                header_format(header@).audio_format != 1 && m@ == unsupported_format_message(
                    header_format(header@).audio_format,
                )
            },
            Err(_) => false,
        },
{
    if !(header[0] == 82 && header[1] == 73 && header[2] == 70 && header[3] == 70 && header[8] == 87
        && header[9] == 65 && header[10] == 86 && header[11] == 69) {
        return Err(AsrError::Transcription("Not a valid WAV file".to_owned()));
    }
    let f = WavFormat {
        audio_format: (header[20] as u16 + 256 * header[21] as u16),
        num_channels: (header[22] as u16 + 256 * header[23] as u16),
        sample_rate: (header[24] as u32 + 256 * header[25] as u32 + 65536 * header[26] as u32
            + 16777216 * header[27] as u32),
        bits_per_sample: (header[34] as u16 + 256 * header[35] as u16),
        data_size: (header[40] as u32 + 256 * header[41] as u32 + 65536 * header[42] as u32
            + 16777216 * header[43] as u32),
    };
    if f.audio_format != 1 {
        let mut m: Vec<char> = Vec::new();
        push_str(&mut m, "Unsupported WAV format: ");
        push_dec(&mut m, f.audio_format as u64);
        push_str(&mut m, " (only PCM supported)");
        assert(m@ =~= unsupported_format_message(f.audio_format));
        return Err(AsrError::Transcription(chars_to_string(m.as_slice())));
    }
    Ok(f)
}

impl WavFormat {
    /// The encoding of the samples: 16 bits are integers, 32 bits floats
    /// (unless the sample rate is 3); anything else is refused.
    pub fn encoding(&self) -> (r: Result<SampleEncoding, AsrError>)
        ensures
            match r {
                Ok(e) => encoding_of(*self) == Some(e),
                Err(AsrError::Transcription(m)) => encoding_of(*self) is None && m@
                    == unsupported_bits_message(self.bits_per_sample),
                Err(_) => false,
            },
    {
        if self.bits_per_sample == 16 {
            Ok(SampleEncoding::Pcm16)
        } else if self.bits_per_sample == 32 && self.sample_rate != 3 {
            Ok(SampleEncoding::Float32)
        } else {
            let mut m: Vec<char> = Vec::new();
            push_str(&mut m, "Unsupported bits per sample: ");
            push_dec(&mut m, self.bits_per_sample as u64);
            assert(m@ =~= unsupported_bits_message(self.bits_per_sample));
            Err(AsrError::Transcription(chars_to_string(m.as_slice())))
        }
    }
}

/// The 16-bit samples of PCM data, two little-endian bytes each.
pub fn decode_pcm16(data: &[u8]) -> (s: Vec<i16>)
    ensures
        s@ == pcm16_samples(data@),
{
    let mut out: Vec<i16> = Vec::new();
    let n = data.len() / 2;
    let mut i: usize = 0;
    while i < n
        invariant
            n == data@.len() / 2,
            i <= n,
            out@ == pcm16_samples(data@).take(i as int),
        decreases n - i,
    {
        proof {
            assert(2 * i + 1 < data@.len()) by (nonlinear_arith)
                requires
                    i < n,
                    n == data@.len() / 2,
            ;
            assert(data@.len() == data.len());
        }
        let u: u16 = data[2 * i] as u16 + 256 * data[2 * i + 1] as u16;
        let v: i16 = if u < 32768 {
            u as i16
        } else {
            (u as i32 - 65536) as i16
        };
        out.push(v);
        i = i + 1;
        proof {
            assert(out@ =~= pcm16_samples(data@).take(i as int));
        }
    }
    assert(pcm16_samples(data@).take(n as int) =~= pcm16_samples(data@));
    out
}

proof fn lemma_le16(x: u16)
    ensures
        read16(le16(x), 0) == x,
{
    let b = le16(x);
    assert((x % 256) + 256 * (x / 256) == x) by (nonlinear_arith);
}

proof fn lemma_le32(x: u32)
    ensures
        read32(le32(x), 0) == x,
{
    assert((x % 256) + 256 * ((x / 256) % 256) + 65536 * ((x / 65536) % 256) + 16777216 * (x
        / 16777216) == x) by (nonlinear_arith);
}

proof fn lemma_sample_bits(x: i16)
    ensures
        bits_sample(sample_bits(x)) == x,
{
}

proof fn lemma_pcm16_bytes(s: Seq<i16>)
    ensures
        pcm16_bytes(s).len() == 2 * s.len(),
        forall|i: int|
            0 <= i < s.len() ==> #[trigger] read16(pcm16_bytes(s), 2 * i) == sample_bits(s[i]),
    decreases s.len(),
{
    if s.len() > 0 {
        let init = s.drop_last();
        lemma_pcm16_bytes(init);
        let b = pcm16_bytes(s);
        assert forall|i: int| 0 <= i < s.len() implies #[trigger] read16(b, 2 * i) == sample_bits(
            s[i],
        ) by {
            if i < init.len() {
                assert(b[2 * i] == pcm16_bytes(init)[2 * i]);
                assert(b[2 * i + 1] == pcm16_bytes(init)[2 * i + 1]);
                assert(read16(pcm16_bytes(init), 2 * i) == sample_bits(init[i]));
            } else {
                let u = sample_bits(s.last());
                lemma_le16(u);
                assert(b[2 * i] == le16(u)[0]);
                assert(b[2 * i + 1] == le16(u)[1]);
            }
        }
    }
}

/// Audio written by `wav_bytes` reads back unchanged: its header passes
/// `parse_wav_header` with the channels, rate and data size it was written
/// with, its encoding is 16-bit PCM, and the data decodes to the very
/// samples. Every other header field reads back too: the RIFF size is the
/// file size less 8, the format chunk is 16 bytes, a frame (block) holds two
/// bytes per channel and the byte rate is the sample rate times that.
pub proof fn lemma_wav_roundtrip(samples: Seq<i16>, sample_rate: u32, channels: u16)
    requires
        36 + samples.len() * 2 <= u32::MAX,
        sample_rate * channels * 2 <= u32::MAX,
        channels * 2 <= u16::MAX,
    ensures
        ({
            let b = wav_file(samples, sample_rate, channels);
            let h = b.take(44);
            &&& b.len() == 44 + 2 * samples.len()
            &&& is_riff_wave(h)
            &&& header_format(h) == (WavFormat {
                audio_format: 1,
                num_channels: channels,
                sample_rate,
                bits_per_sample: 16,
                data_size: (samples.len() * 2) as u32,
            })
            &&& encoding_of(header_format(h)) == Some(SampleEncoding::Pcm16)
            &&& pcm16_samples(b.subrange(44, 44 + header_format(h).data_size)) == samples
            &&& read32(h, 4) == 36 + 2 * samples.len()
            &&& read32(h, 16) == 16
            &&& read32(h, 28) == sample_rate * channels * 2
            &&& read16(h, 32) == channels * 2
            &&& read32(h, 28) == read32(h, 24) * read16(h, 32)
        }),
{
    reveal_strlit("RIFF");
    reveal_strlit("WAVE");
    reveal_strlit("fmt ");
    reveal_strlit("data");
    let data_size = (samples.len() * 2) as u32;
    let head = wav_header(data_size, sample_rate, channels);
    let b = wav_file(samples, sample_rate, channels);
    let body = pcm16_bytes(samples);
    lemma_pcm16_bytes(samples);
    assert(head.len() == 44);
    let h = b.take(44);
    assert(h =~= head);
    lemma_le16(1);
    lemma_le16(channels);
    lemma_le16(16);
    lemma_le32(sample_rate);
    lemma_le32(data_size);
    assert(read16(h, 20) == read16(le16(1), 0));
    assert(read16(h, 22) == read16(le16(channels), 0));
    assert(read32(h, 24) == read32(le32(sample_rate), 0));
    assert(read16(h, 34) == read16(le16(16), 0));
    assert(read32(h, 40) == read32(le32(data_size), 0));
    lemma_le32((36 + data_size) as u32);
    lemma_le32(16);
    lemma_le32((sample_rate * channels * 2) as u32);
    lemma_le16((channels * 2) as u16);
    assert(read32(h, 4) == read32(le32((36 + data_size) as u32), 0));
    assert(read32(h, 16) == read32(le32(16), 0));
    assert(read32(h, 28) == read32(le32((sample_rate * channels * 2) as u32), 0));
    assert(read16(h, 32) == read16(le16((channels * 2) as u16), 0));
    assert(sample_rate * (channels * 2) == sample_rate * channels * 2) by (nonlinear_arith);
    assert(is_riff_wave(h));
    let d = b.subrange(44, 44 + data_size);
    assert(d =~= body);
    assert forall|i: int| 0 <= i < samples.len() implies #[trigger] pcm16_samples(d)[i] == samples[i] by {
        assert(read16(body, 2 * i) == sample_bits(samples[i]));
        lemma_sample_bits(samples[i]);
    }
    assert(pcm16_samples(d) =~= samples);
}

} // verus!
