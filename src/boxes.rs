//! Decoders for the TFHD, TFDT, MDHD and TRUN boxes of fragmented MP4.
//!
//! Each decoder takes a cursor placed just after the box's version and flags
//! and reads the box's fields in their on-wire order. The contracts describe
//! the result over the bytes left in the cursor: how many the box takes, when
//! there are enough, and what each field holds.

use vstd::prelude::*;
use crate::reader::{Reader, ParseError, be_u16, be_u32, be_u64, as_signed32, reinterpret_signed};

verus! {

/// Whether `flags` has any of the bits of `bit` set.
pub open spec fn has_flag(flags: u32, bit: u32) -> bool {
    flags & bit != 0
}

/// `n` bytes when `flags` carries `bit`, none otherwise.
pub open spec fn width_if(flags: u32, bit: u32, n: nat) -> nat {
    if has_flag(flags, bit) {
        n
    } else {
        0
    }
}

// ---------------------------------------------------------------- TFHD

/// A decoded track fragment header.
pub struct ParsedTFHDBox {
    /// Identifies the track over the whole presentation.
    pub track_id: u32,
    /// Overrides the track's default sample duration for this fragment.
    pub default_sample_duration: Option<u32>,
    /// Overrides the track's default sample size for this fragment.
    pub default_sample_size: Option<u32>,
    /// The base data offset, when given.
    pub base_data_offset: Option<u64>,
}

/// Offset of the default sample duration field.
pub open spec fn tfhd_duration_at(flags: u32) -> nat {
    4 + width_if(flags, 0x1, 8) + width_if(flags, 0x2, 4)
}

/// Offset of the default sample size field.
pub open spec fn tfhd_size_at(flags: u32) -> nat {
    tfhd_duration_at(flags) + width_if(flags, 0x8, 4)
}

/// Number of bytes a TFHD body with these flags takes.
pub open spec fn tfhd_len(flags: u32) -> nat {
    tfhd_size_at(flags) + width_if(flags, 0x10, 4)
}

/// The TFHD record that the bytes `s` give under `flags`.
pub open spec fn tfhd_of(flags: u32, s: Seq<u8>) -> ParsedTFHDBox {
    ParsedTFHDBox {
        track_id: be_u32(s, 0) as u32,
        default_sample_duration: if has_flag(flags, 0x8) {
            Some(be_u32(s, tfhd_duration_at(flags) as int) as u32)
        } else {
            None
        },
        default_sample_size: if has_flag(flags, 0x10) {
            Some(be_u32(s, tfhd_size_at(flags) as int) as u32)
        } else {
            None
        },
        base_data_offset: if has_flag(flags, 0x1) {
            Some(be_u64(s, 4) as u64)
        } else {
            None
        },
    }
}

proof fn lemma_rest_after(r0: Reader, r1: Reader, k: nat)
    requires
        r1.bytes() == r0.bytes(),
        r1.pos() == r0.pos() + k,
        r0.pos() + k <= r0.bytes().len(),
    ensures
        r1.rest() == r0.rest().subrange(k as int, r0.rest().len() as int),
{
    assert(r1.rest() =~= r0.rest().subrange(k as int, r0.rest().len() as int));
}

impl ParsedTFHDBox {
    /// Decodes a TFHD body under the box's 24-bit `flags`.
    pub fn parse(reader: &mut Reader, flags: u32) -> (r: Result<ParsedTFHDBox, ParseError>)
        requires
            old(reader).wf(),
        ensures
            final(reader).wf(),
            final(reader).bytes() == old(reader).bytes(),
            match r {
                Ok(b) => old(reader).remaining() >= tfhd_len(flags)
                    && final(reader).pos() == old(reader).pos() + tfhd_len(flags)
                    && b == tfhd_of(flags, old(reader).rest()),
                Err(e) => old(reader).remaining() < tfhd_len(flags)
                    && e == ParseError::InsufficientData,
            },
    {
        let ghost r0 = *reader;
        let mut default_sample_duration: Option<u32> = None;
        let mut default_sample_size: Option<u32> = None;
        let mut base_data_offset: Option<u64> = None;

        let track_id = reader.read_u32()?;
        proof { lemma_rest_after(r0, *reader, 4); }

        if flags & 0x1 != 0 {
            let ghost r1 = *reader;
            base_data_offset = Some(reader.read_u64()?);
            proof { lemma_rest_after(r1, *reader, 8); }
        }
        assert(reader.pos() == r0.pos() + 4 + width_if(flags, 0x1, 8));

        if flags & 0x2 != 0 {
            let ghost r1 = *reader;
            reader.skip(4)?;
            proof { lemma_rest_after(r1, *reader, 4); }
        }
        assert(reader.pos() == r0.pos() + tfhd_duration_at(flags));

        if flags & 0x8 != 0 {
            let ghost r1 = *reader;
            default_sample_duration = Some(reader.read_u32()?);
            proof { lemma_rest_after(r1, *reader, 4); }
        }
        assert(reader.pos() == r0.pos() + tfhd_size_at(flags));

        if flags & 0x10 != 0 {
            let ghost r1 = *reader;
            default_sample_size = Some(reader.read_u32()?);
            proof { lemma_rest_after(r1, *reader, 4); }
        }

        Ok(ParsedTFHDBox { track_id, default_sample_duration, default_sample_size, base_data_offset })
    }
}

// ---------------------------------------------------------------- TFDT

/// A decoded track fragment decode time.
pub struct ParsedTFDTBox {
    /// Decode time, on the media timeline, of the fragment's first sample.
    pub base_media_decode_time: u64,
}

/// Number of bytes a TFDT body of this version takes.
pub open spec fn tfdt_len(version: u32) -> nat {
    if version == 1 {
        8
    } else {
        4
    }
}

/// The decode time that the bytes `s` give under `version`.
pub open spec fn tfdt_time_of(version: u32, s: Seq<u8>) -> int {
    if version == 1 {
        be_u64(s, 0)
    } else {
        be_u32(s, 0)
    }
}

impl ParsedTFDTBox {
    /// Decodes a TFDT body: a 64-bit time for version 1, else a 32-bit one.
    pub fn parse(reader: &mut Reader, version: u32) -> (r: Result<ParsedTFDTBox, ParseError>)
        requires
            old(reader).wf(),
        ensures
            final(reader).wf(),
            final(reader).bytes() == old(reader).bytes(),
            match r {
                Ok(b) => old(reader).remaining() >= tfdt_len(version)
                    && final(reader).pos() == old(reader).pos() + tfdt_len(version)
                    && b.base_media_decode_time as int == tfdt_time_of(version, old(reader).rest()),
                Err(e) => old(reader).remaining() < tfdt_len(version)
                    && e == ParseError::InsufficientData,
            },
    {
        let base_media_decode_time = if version == 1 {
            reader.read_u64()?
        } else {
            reader.read_u32()? as u64
        };
        Ok(ParsedTFDTBox { base_media_decode_time })
    }
}

// ---------------------------------------------------------------- MDHD

/// A decoded media header.
pub struct ParsedMDHDBox {
    /// Time units that pass in one second.
    pub timescale: u32,
    /// The three-letter language code.
    pub language: String,
}

/// Number of bytes the creation and modification times take.
pub open spec fn mdhd_times_len(version: u32) -> nat {
    if version == 1 {
        16
    } else {
        8
    }
}

/// Number of bytes an MDHD body of this version takes.
pub open spec fn mdhd_len(version: u32) -> nat {
    mdhd_times_len(version) + 10
}

/// The three character codes packed in `code`: each 5-bit field (bits
/// 10 to 14, 5 to 9, 0 to 4) plus 0x60.
pub open spec fn language_units(code: u16) -> Seq<int> {
    seq![
        ((code >> 10u16) & 0x1f) as int + 0x60,
        ((code >> 5u16) & 0x1f) as int + 0x60,
        (code & 0x1f) as int + 0x60,
    ]
}

/// `t` is the text of the character codes `units`.
pub open spec fn text_of_units(t: Seq<char>, units: Seq<int>) -> bool {
    &&& t.len() == units.len()
    &&& forall|i: int| 0 <= i < units.len() ==> #[trigger] t[i] as u32 as int == units[i]
}

/// Relies on `String::from_utf16`: a sequence of UTF-16 code units with no
/// surrogate decodes to one character per unit, of the unit's value.
#[verifier::external_body]
fn string_from_utf16(units: &[u16]) -> (r: Option<String>)
    ensures
        (forall|i: int| 0 <= i < units@.len() ==> units@[i] < 0xd800) ==> (r matches Some(t)
            && t@.len() == units@.len()
            && forall|i: int| 0 <= i < units@.len() ==> t@[i] as u32 == units@[i] as u32),
{
    String::from_utf16(units).ok()
}

/// Unpacks a packed language code into its three letters. Text that cannot
/// be formed gives the empty string rather than an error.
pub fn decode_language(code: u16) -> (r: String)
    ensures
        text_of_units(r@, language_units(code)),
{
    let a: u16 = (code >> 10u16) & 0x1f;
    let b: u16 = (code >> 5u16) & 0x1f;
    let c: u16 = code & 0x1f;
    assert(a <= 0x1f && b <= 0x1f && c <= 0x1f) by (bit_vector)
        requires a == (code >> 10u16) & 0x1f, b == (code >> 5u16) & 0x1f, c == code & 0x1f;
    let units: Vec<u16> = vec![a + 0x60, b + 0x60, c + 0x60];
    assert(units@[0] < 0xd800 && units@[1] < 0xd800 && units@[2] < 0xd800);
    match string_from_utf16(units.as_slice()) {
        Some(t) => t,
        None => String::new(),
    }
}

impl ParsedMDHDBox {
    /// Decodes an MDHD body: skips the two times (64-bit for version 1, else
    /// 32-bit), reads the timescale, skips the duration, and unpacks the
    /// language code.
    pub fn parse(reader: &mut Reader, version: u32) -> (r: Result<ParsedMDHDBox, ParseError>)
        requires
            old(reader).wf(),
        ensures
            final(reader).wf(),
            final(reader).bytes() == old(reader).bytes(),
            match r {
                Ok(b) => old(reader).remaining() >= mdhd_len(version)
                    && final(reader).pos() == old(reader).pos() + mdhd_len(version)
                    && b.timescale as int == be_u32(old(reader).rest(), mdhd_times_len(version) as int)
                    && text_of_units(b.language@, language_units(
                        be_u16(old(reader).rest(), mdhd_times_len(version) + 8int) as u16)),
                Err(e) => old(reader).remaining() < mdhd_len(version)
                    && e == ParseError::InsufficientData,
            },
    {
        let ghost r0 = *reader;
        if version == 1 {
            reader.skip(8)?;
            reader.skip(8)?;
        } else {
            reader.skip(4)?;
            reader.skip(4)?;
        }
        proof { lemma_rest_after(r0, *reader, mdhd_times_len(version)); }
        let ghost r1 = *reader;
        let timescale = reader.read_u32()?;
        reader.skip(4)?;
        proof { lemma_rest_after(r1, *reader, 8); }
        let code = reader.read_u16()?;
        let language = decode_language(code);
        Ok(ParsedMDHDBox { timescale, language })
    }
}

// ---------------------------------------------------------------- TRUN

/// One sample of a track run. Which fields are present is set once for the
/// whole run by the box's flags.
#[derive(Debug, Clone, Copy, PartialEq, Eq, Structural)]
pub struct ParsedTRUNSample {
    /// Length of the sample in timescale units.
    pub sample_duration: Option<u32>,
    /// Size of the sample in bytes.
    pub sample_size: Option<u32>,
    /// Offset of the sample's presentation time from its decode time. When
    /// absent, start times come from the durations of the samples before it.
    pub sample_composition_time_offset: Option<i32>,
}

/// A decoded track run.
pub struct ParsedTRUNBox {
    /// Number of samples in the run.
    pub sample_count: u32,
    /// The samples, in file order.
    pub sample_data: Vec<ParsedTRUNSample>,
    /// Offset of the run's data, when given.
    pub data_offset: Option<u32>,
}

/// Number of bytes before the first sample: the count and the optional
/// data offset and first-sample flags.
pub open spec fn trun_header_len(flags: u32) -> nat {
    4 + width_if(flags, 0x1, 4) + width_if(flags, 0x4, 4)
}

/// Offset, within a sample, of its size field.
pub open spec fn sample_size_at(flags: u32) -> nat {
    width_if(flags, 0x100, 4)
}

/// Offset, within a sample, of its composition time offset field.
pub open spec fn sample_cto_at(flags: u32) -> nat {
    sample_size_at(flags) + width_if(flags, 0x200, 4) + width_if(flags, 0x400, 4)
}

/// Number of bytes each sample takes.
pub open spec fn sample_len(flags: u32) -> nat {
    sample_cto_at(flags) + width_if(flags, 0x800, 4)
}

/// The sample that the bytes `s` give under `flags`.
pub open spec fn sample_of(flags: u32, s: Seq<u8>) -> ParsedTRUNSample {
    ParsedTRUNSample {
        sample_duration: if has_flag(flags, 0x100) {
            Some(be_u32(s, 0) as u32)
        } else {
            None
        },
        sample_size: if has_flag(flags, 0x200) {
            Some(be_u32(s, sample_size_at(flags) as int) as u32)
        } else {
            None
        },
        sample_composition_time_offset: if has_flag(flags, 0x800) {
            Some(as_signed32(be_u32(s, sample_cto_at(flags) as int)) as i32)
        } else {
            None
        },
    }
}

/// The sample count that the bytes `s` give.
pub open spec fn trun_count_of(s: Seq<u8>) -> nat {
    be_u32(s, 0) as nat
}

/// Offset of sample `i` within the body.
pub open spec fn trun_sample_at(flags: u32, i: nat) -> nat {
    trun_header_len(flags) + i * sample_len(flags)
}

/// Number of bytes a TRUN body with these flags and `n` samples takes.
pub open spec fn trun_len(flags: u32, n: nat) -> nat {
    trun_sample_at(flags, n)
}

/// The data offset that the bytes `s` give under `flags`.
pub open spec fn trun_data_offset_of(flags: u32, s: Seq<u8>) -> Option<u32> {
    if has_flag(flags, 0x1) {
        Some(be_u32(s, 4) as u32)
    } else {
        None
    }
}

/// The samples that the bytes `s` give under `flags`, in file order.
pub open spec fn trun_samples_of(flags: u32, s: Seq<u8>) -> Seq<ParsedTRUNSample> {
    Seq::new(
        trun_count_of(s),
        |i: int| sample_of(flags, s.subrange(trun_sample_at(flags, i as nat) as int, s.len() as int)),
    )
}

/// Reads one sample's fields under the run's flags.
fn parse_sample(reader: &mut Reader, flags: u32, version: u32) -> (r: Result<ParsedTRUNSample, ParseError>)
    requires
        old(reader).wf(),
    ensures
        final(reader).wf(),
        final(reader).bytes() == old(reader).bytes(),
        match r {
            Ok(v) => old(reader).remaining() >= sample_len(flags)
                && final(reader).pos() == old(reader).pos() + sample_len(flags)
                && v == sample_of(flags, old(reader).rest()),
            Err(e) => old(reader).remaining() < sample_len(flags)
                && e == ParseError::InsufficientData,
        },
{
    let ghost r0 = *reader;
    let mut sample = ParsedTRUNSample {
        sample_duration: None,
        sample_size: None,
        sample_composition_time_offset: None,
    };
    if flags & 0x100 != 0 {
        sample.sample_duration = Some(reader.read_u32()?);
    }
    assert(reader.pos() == r0.pos() + sample_size_at(flags));
    if flags & 0x200 != 0 {
        let ghost r1 = *reader;
        sample.sample_size = Some(reader.read_u32()?);
        proof { lemma_rest_after(r0, r1, sample_size_at(flags)); }
    }
    if flags & 0x400 != 0 {
        reader.skip(4)?;
    }
    assert(reader.pos() == r0.pos() + sample_cto_at(flags));
    if flags & 0x800 != 0 {
        let ghost r1 = *reader;
        let offset = if version == 0 {
            reinterpret_signed(reader.read_u32()?)
        } else {
            reader.read_i32()?
        };
        proof { lemma_rest_after(r0, r1, sample_cto_at(flags)); }
        sample.sample_composition_time_offset = Some(offset);
    }
    Ok(sample)
}

proof fn lemma_next_sample_at(flags: u32, i: nat)
    ensures
        trun_sample_at(flags, i + 1) == trun_sample_at(flags, i) + sample_len(flags),
{
    assert((i + 1) * sample_len(flags) == i * sample_len(flags) + sample_len(flags))
        by (nonlinear_arith);
}

proof fn lemma_sample_at_mono(flags: u32, i: nat, n: nat)
    requires
        i < n,
    ensures
        trun_sample_at(flags, i) + sample_len(flags) <= trun_sample_at(flags, n),
{
    lemma_next_sample_at(flags, i);
    assert((i + 1) * sample_len(flags) <= n * sample_len(flags)) by (nonlinear_arith)
        requires i + 1 <= n;
}

impl ParsedTRUNBox {
    /// Decodes a TRUN body under the box's 24-bit `flags` and its `version`.
    /// With version 0 a composition time offset is stored unsigned and read
    /// back as the signed value of the same bits.
    pub fn parse(reader: &mut Reader, flags: u32, version: u32) -> (r: Result<ParsedTRUNBox, ParseError>)
        requires
            old(reader).wf(),
        ensures
            final(reader).wf(),
            final(reader).bytes() == old(reader).bytes(),
            match r {
                Ok(b) => old(reader).remaining() >= 4
                    && old(reader).remaining() >= trun_len(flags, trun_count_of(old(reader).rest()))
                    && final(reader).pos() == old(reader).pos()
                        + trun_len(flags, trun_count_of(old(reader).rest()))
                    && b.sample_count == trun_count_of(old(reader).rest())
                    && b.data_offset == trun_data_offset_of(flags, old(reader).rest())
                    && b.sample_data@ == trun_samples_of(flags, old(reader).rest()),
                Err(e) => (old(reader).remaining() < 4
                    || old(reader).remaining() < trun_len(flags, trun_count_of(old(reader).rest())))
                    && e == ParseError::InsufficientData,
            },
    {
        let ghost r0 = *reader;
        let ghost s0 = r0.rest();
        let sample_count = reader.read_u32()?;
        let mut sample_data: Vec<ParsedTRUNSample> = Vec::new();
        let mut data_offset: Option<u32> = None;

        if flags & 0x1 != 0 {
            let ghost r1 = *reader;
            data_offset = Some(reader.read_u32()?);
            proof { lemma_rest_after(r0, r1, 4); }
        }
        if flags & 0x4 != 0 {
            reader.skip(4)?;
        }
        assert(reader.pos() == r0.pos() + trun_sample_at(flags, 0));

        let ghost n = sample_count as nat;
        let mut i: u32 = 0;
        while i < sample_count
            invariant
                i <= sample_count,
                n == sample_count,
                n == trun_count_of(s0),
                r0 == *old(reader),
                s0 == r0.rest(),
                r0.wf(),
                reader.wf(),
                reader.bytes() == r0.bytes(),
                reader.pos() == r0.pos() + trun_sample_at(flags, i as nat),
                data_offset == trun_data_offset_of(flags, s0),
                sample_data@.len() == i,
                forall|j: int| 0 <= j < i ==> sample_data@[j] == #[trigger] trun_samples_of(flags, s0)[j],
            decreases sample_count - i,
        {
            let ghost r1 = *reader;
            proof {
                lemma_rest_after(r0, r1, trun_sample_at(flags, i as nat));
                lemma_sample_at_mono(flags, i as nat, n);
                lemma_next_sample_at(flags, i as nat);
            }
            let sample = parse_sample(reader, flags, version)?;
            sample_data.push(sample);
            i = i + 1;
        }
        proof {
            assert(sample_data@ =~= trun_samples_of(flags, s0));
        }
        Ok(ParsedTRUNBox { sample_count, sample_data, data_offset })
    }
}

// ---------------------------------------------------------------- laws

/// The four big-endian bytes of `x`.
pub open spec fn u32_bytes(x: u32) -> Seq<u8> {
    seq![
        (x / 0x100_0000) as u8,
        (x / 0x1_0000 % 256) as u8,
        (x / 256 % 256) as u8,
        (x % 256) as u8,
    ]
}

/// The eight big-endian bytes of `x`.
pub open spec fn u64_bytes(x: u64) -> Seq<u8> {
    u32_bytes((x / 0x1_0000_0000) as u32) + u32_bytes((x % 0x1_0000_0000) as u32)
}

/// The bytes of an optional 32-bit field: four when present, none otherwise.
pub open spec fn opt_u32_bytes(o: Option<u32>) -> Seq<u8> {
    match o {
        Some(v) => u32_bytes(v),
        None => Seq::empty(),
    }
}

/// The bytes of a TFHD body that holds the fields of `b` under `flags`, with
/// a zero sample description index where the flags ask for one.
pub open spec fn tfhd_bytes(flags: u32, b: ParsedTFHDBox) -> Seq<u8> {
    u32_bytes(b.track_id) + match b.base_data_offset {
        Some(v) => u64_bytes(v),
        None => Seq::empty(),
    } + if has_flag(flags, 0x2) {
        seq![0u8, 0u8, 0u8, 0u8]
    } else {
        Seq::empty()
    } + opt_u32_bytes(b.default_sample_duration) + opt_u32_bytes(b.default_sample_size)
}

/// The optional fields of `b` are present exactly where `flags` asks for them.
pub open spec fn tfhd_matches_flags(flags: u32, b: ParsedTFHDBox) -> bool {
    &&& (b.base_data_offset is Some) == has_flag(flags, 0x1)
    &&& (b.default_sample_duration is Some) == has_flag(flags, 0x8)
    &&& (b.default_sample_size is Some) == has_flag(flags, 0x10)
}

proof fn lemma_u32_bytes(x: u32)
    ensures
        be_u32(u32_bytes(x), 0) == x,
{
    let t = u32_bytes(x);
    let xi = x as int;
    assert(xi == (xi / 0x100_0000 * 256 + xi / 0x1_0000 % 256) * 65536 + (xi / 256 % 256) * 256
        + xi % 256) by (nonlinear_arith)
        requires 0 <= xi < 0x1_0000_0000;
}

proof fn lemma_be_u32_at(t: Seq<u8>, k: int, x: u32)
    requires
        0 <= k,
        k + 4 <= t.len(),
        t.subrange(k, k + 4) == u32_bytes(x),
    ensures
        be_u32(t, k) == x,
{
    lemma_u32_bytes(x);
    let w = t.subrange(k, k + 4);
    assert(w[0] == t[k] && w[1] == t[k + 1] && w[2] == t[k + 2] && w[3] == t[k + 3]);
}

proof fn lemma_be_u64_at(t: Seq<u8>, k: int, x: u64)
    requires
        0 <= k,
        k + 8 <= t.len(),
        t.subrange(k, k + 8) == u64_bytes(x),
    ensures
        be_u64(t, k) == x,
{
    let hi = (x / 0x1_0000_0000) as u32;
    let lo = (x % 0x1_0000_0000) as u32;
    assert(t.subrange(k, k + 4) =~= t.subrange(k, k + 8).subrange(0, 4));
    assert(u64_bytes(x).subrange(0, 4) =~= u32_bytes(hi));
    assert(t.subrange(k + 4, k + 8) =~= t.subrange(k, k + 8).subrange(4, 8));
    assert(u64_bytes(x).subrange(4, 8) =~= u32_bytes(lo));
    lemma_be_u32_at(t, k, hi);
    lemma_be_u32_at(t, k + 4, lo);
}

/// Encoding the fields of a TFHD record under flags that match it, and
/// decoding those bytes under the same flags, gives back the record; the
/// encoding is exactly as long as the decoder reads.
pub proof fn lemma_tfhd_round_trip(flags: u32, b: ParsedTFHDBox)
    requires
        tfhd_matches_flags(flags, b),
    ensures
        tfhd_bytes(flags, b).len() == tfhd_len(flags),
        tfhd_of(flags, tfhd_bytes(flags, b)) == b,
{
    let t = tfhd_bytes(flags, b);
    let d = tfhd_duration_at(flags) as int;
    let z = tfhd_size_at(flags) as int;
    assert(t.len() == tfhd_len(flags));
    assert(t.subrange(0, 4) =~= u32_bytes(b.track_id));
    lemma_be_u32_at(t, 0, b.track_id);
    if let Some(v) = b.base_data_offset {
        assert(t.subrange(4, 12) =~= u64_bytes(v));
        lemma_be_u64_at(t, 4, v);
    }
    if let Some(v) = b.default_sample_duration {
        assert(t.subrange(d, d + 4) =~= u32_bytes(v));
        lemma_be_u32_at(t, d, v);
    }
    if let Some(v) = b.default_sample_size {
        assert(t.subrange(z, z + 4) =~= u32_bytes(v));
        lemma_be_u32_at(t, z, v);
    }
}

/// A TFHD record's optional fields are present exactly when their flag bits
/// are set, whatever the bytes.
pub proof fn lemma_tfhd_presence(flags: u32, s: Seq<u8>)
    ensures
        tfhd_matches_flags(flags, tfhd_of(flags, s)),
{
}

/// Encoding a decode time and decoding it gives it back: any 64-bit value
/// under version 1, and a value that fits in 32 bits under version 0, in as
/// many bytes as the decoder reads.
pub proof fn lemma_tfdt_round_trip(t: u64)
    ensures
        u64_bytes(t).len() == tfdt_len(1),
        tfdt_time_of(1, u64_bytes(t)) == t,
        t <= 0xffff_ffff ==> u32_bytes(t as u32).len() == tfdt_len(0)
            && tfdt_time_of(0, u32_bytes(t as u32)) == t,
{
    assert(u64_bytes(t).subrange(0, 8) =~= u64_bytes(t));
    lemma_be_u64_at(u64_bytes(t), 0, t);
    if t <= 0xffff_ffff {
        lemma_u32_bytes(t as u32);
    }
}

/// A run of zero samples takes only the count and the optional data offset
/// and first-sample flags, and decodes to no samples, whatever the flags.
pub proof fn lemma_trun_empty_run(flags: u32, s: Seq<u8>)
    requires
        s.len() >= 4,
        trun_count_of(s) == 0,
    ensures
        trun_len(flags, trun_count_of(s)) == trun_header_len(flags),
        trun_samples_of(flags, s) == Seq::<ParsedTRUNSample>::empty(),
{
    assert(trun_samples_of(flags, s) =~= Seq::<ParsedTRUNSample>::empty());
}

} // verus!
