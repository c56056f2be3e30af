use vstd::prelude::*;
use vstd::arithmetic::power2::{pow2, lemma2_to64};
use crate::bits::{BitCursor, CursorView, bits_value, signed_bits_value, lemma_bits_value_bound};
use crate::error::Error;

verus! {

/// Quantization step sizes, indexed by a channel's step index.
pub const STEP_TABLE: [i32; 89] = [
    7, 8, 9, 10, 11, 12, 13, 14, 16, 17, 19, 21, 23, 25, 28, 31, 34, 37, 41, 45, 50, 55, 60,
    66, 73, 80, 88, 97, 107, 118, 130, 143, 157, 173, 190, 209, 230, 253, 279, 307, 337, 371,
    408, 449, 494, 544, 598, 658, 724, 796, 876, 963, 1060, 1166, 1282, 1411, 1552, 1707, 1878,
    2066, 2272, 2499, 2749, 3024, 3327, 3660, 4026, 4428, 4871, 5358, 5894, 6484, 7132, 7845,
    8630, 9493, 10442, 11487, 12635, 13899, 15289, 16818, 18500, 20350, 22385, 24623, 27086,
    29794, 32767,
];

/// Step-index adjustments for 2-bit codes, indexed by magnitude.
pub const INDEX_TABLE_2: [i16; 2] = [-1, 2];

/// Step-index adjustments for 3-bit codes, indexed by magnitude.
pub const INDEX_TABLE_3: [i16; 4] = [-1, -1, 2, 4];

/// Step-index adjustments for 4-bit codes, indexed by magnitude.
pub const INDEX_TABLE_4: [i16; 8] = [-1, -1, -1, -1, 2, 4, 6, 8];

/// Step-index adjustments for 5-bit codes, indexed by magnitude.
pub const INDEX_TABLE_5: [i16; 16] = [-1, -1, -1, -1, -1, -1, -1, -1, 1, 2, 4, 6, 8, 10, 13, 16];

/// The largest step index.
pub const MAX_STEP_INDEX: i16 = 88;

/// Number of sample instants between two channel headers.
pub const BLOCK_LEN: u16 = 4095;

/// The step-index adjustment for a code of `bits_per_sample` bits with the given magnitude.
pub open spec fn index_adjust(bits_per_sample: nat, magnitude: nat) -> int {
    if bits_per_sample == 2 {
        INDEX_TABLE_2@[magnitude as int] as int
    } else if bits_per_sample == 3 {
        INDEX_TABLE_3@[magnitude as int] as int
    } else if bits_per_sample == 4 {
        INDEX_TABLE_4@[magnitude as int] as int
    } else {
        INDEX_TABLE_5@[magnitude as int] as int
    }
}

/// The decoding state of one channel.
#[derive(Clone, Copy, Debug, PartialEq, Eq, Structural)]
pub struct ChannelState {
    pub sample: i32,
    pub step_index: i16,
}

/// A channel's sample fits in 16 bits and its step index lies in the step table.
pub open spec fn channel_in_range(c: ChannelState) -> bool {
    &&& -32768 <= c.sample <= 32767
    &&& 0 <= c.step_index <= 88
}

/// One sign-magnitude code of `bits_per_sample` bits applied to a channel.
///
/// A sample that falls below -32768 is set to +32768 and narrowed to 16 bits,
/// which lands on -32768; one above 32767 is clamped to 32767.
pub open spec fn step_channel(c: ChannelState, bits_per_sample: nat, data: nat) -> ChannelState {
    let sign_mask = pow2((bits_per_sample - 1) as nat);
    let magnitude = data % sign_mask;
    let step = STEP_TABLE@[c.step_index as int];
    let delta = (2 * magnitude + 1) * step / sign_mask as int;
    let raw = if data >= sign_mask {
        c.sample - delta
    } else {
        c.sample + delta
    };
    let sample = if raw < -32768 {
        -32768
    } else if raw > 32767 {
        32767
    } else {
        raw
    };
    let index = c.step_index + index_adjust(bits_per_sample, magnitude);
    let step_index = if index < 0 {
        0
    } else if index > 88 {
        88
    } else {
        index
    };
    ChannelState { sample: sample as i32, step_index: step_index as i16 }
}

proof fn lemma_step_table_bounds(i: int)
    requires
        0 <= i < 89,
    ensures
        7 <= STEP_TABLE@[i] <= 32767,
{
}

/// Every code keeps a channel in range: its sample within 16 bits and its
/// step index within the step table.
pub proof fn lemma_step_in_range(c: ChannelState, bits_per_sample: nat, data: nat)
    requires
        channel_in_range(c),
        2 <= bits_per_sample <= 5,
        data < pow2(bits_per_sample),
    ensures
        channel_in_range(step_channel(c, bits_per_sample, data)),
{
}

proof fn lemma_sign_magnitude(data: u32, sign_mask: u32)
    by (bit_vector)
    requires
        sign_mask == 2 || sign_mask == 4 || sign_mask == 8 || sign_mask == 16,
        data < 2 * sign_mask,
    ensures
        data & !sign_mask == data % sign_mask,
        (data & sign_mask != 0) == (data >= sign_mask),
{
}

fn sign_mask_of(bits_per_sample: u32) -> (m: u32)
    requires
        2 <= bits_per_sample <= 5,
    ensures
        m == pow2((bits_per_sample - 1) as nat),
        m == 2 || m == 4 || m == 8 || m == 16,
{
    proof {
        lemma2_to64();
    }
    let m = 1u32 << (bits_per_sample - 1);
    assert(m == 1u32 << 1u32 || m == 1u32 << 2u32 || m == 1u32 << 3u32 || m == 1u32 << 4u32);
    assert(1u32 << 1u32 == 2 && 1u32 << 2u32 == 4 && 1u32 << 3u32 == 8 && 1u32 << 4u32 == 16)
        by (bit_vector);
    m
}

fn index_adjust_of(bits_per_sample: u32, magnitude: u32) -> (r: i16)
    requires
        2 <= bits_per_sample <= 5,
        magnitude < pow2((bits_per_sample - 1) as nat),
    ensures
        r == index_adjust(bits_per_sample as nat, magnitude as nat),
        -1 <= r <= 16,
{
    proof {
        lemma2_to64();
    }
    let i = magnitude as usize;
    if bits_per_sample == 2 {
        INDEX_TABLE_2[i]
    } else if bits_per_sample == 3 {
        INDEX_TABLE_3[i]
    } else if bits_per_sample == 4 {
        INDEX_TABLE_4[i]
    } else {
        INDEX_TABLE_5[i]
    }
}

/// Applies one sign-magnitude code to a channel.
pub fn decode_code(c: ChannelState, bits_per_sample: u32, data: u32) -> (r: ChannelState)
    requires
        channel_in_range(c),
        2 <= bits_per_sample <= 5,
        data < pow2(bits_per_sample as nat),
    ensures
        r == step_channel(c, bits_per_sample as nat, data as nat),
        channel_in_range(r),
{
    proof {
        lemma2_to64();
        lemma_step_table_bounds(c.step_index as int);
    }
    let sign_mask = sign_mask_of(bits_per_sample);
    proof {
        lemma_sign_magnitude(data, sign_mask);
    }
    // The code is sign-magnitude, not two's complement.
    let magnitude = data & !sign_mask;
    let step = STEP_TABLE[c.step_index as usize];
    assert((2 * magnitude + 1) * step <= 31 * 32767) by (nonlinear_arith)
        requires
            magnitude < 16,
            0 < step <= 32767,
    ;
    let delta = (2 * magnitude + 1) * (step as u32) / sign_mask;
    assert(delta <= 31 * 32767) by (nonlinear_arith)
        requires
            delta == ((2 * magnitude + 1) * step) / (sign_mask as int),
            (2 * magnitude + 1) * step <= 31 * 32767,
            sign_mask >= 2,
    ;
    let mut sample = c.sample;
    if data & sign_mask != 0 {
        sample = sample - delta as i32;
    } else {
        sample = sample + delta as i32;
    }
    if sample < -32768 {
        // Set to +32768 and narrowed to 16 bits, which wraps to -32768.
        sample = -32768;
    } else if sample > 32767 {
        sample = 32767;
    }
    let mut step_index = c.step_index + index_adjust_of(bits_per_sample, magnitude);
    if step_index < 0 {
        step_index = 0;
    } else if step_index > MAX_STEP_INDEX {
        step_index = MAX_STEP_INDEX;
    }
    ChannelState { sample, step_index }
}

/// What a decoder stands for: its byte source and read position, its fixed
/// parameters, its block counter, both channels, and the next channel to emit.
pub ghost struct AdpcmState {
    pub source: CursorView,
    pub sample_rate: u16,
    pub is_stereo: bool,
    pub bits_per_sample: nat,
    pub sample_num: nat,
    pub left: ChannelState,
    pub right: ChannelState,
    pub cur_channel: nat,
}

pub open spec fn channel_count(s: AdpcmState) -> nat {
    if s.is_stereo {
        2
    } else {
        1
    }
}

/// The invariant of every decoder state.
pub open spec fn valid_state(s: AdpcmState) -> bool {
    &&& s.source.pos <= 8 * s.source.bytes.len()
    &&& 2 <= s.bits_per_sample <= 5
    &&& s.sample_num < 4095
    &&& channel_in_range(s.left)
    &&& channel_in_range(s.right)
    &&& s.cur_channel <= 2
}

/// The state right after the 2-bit size code: `bits_per_sample` is the code plus 2.
pub open spec fn start_state(bytes: Seq<u8>, is_stereo: bool, sample_rate: u16) -> AdpcmState {
    AdpcmState {
        source: CursorView { bytes, pos: 2 },
        sample_rate,
        is_stereo,
        bits_per_sample: bits_value(bytes, 0, 2) + 2,
        sample_num: 0,
        left: ChannelState { sample: 0, step_index: 0 },
        right: ChannelState { sample: 0, step_index: 0 },
        cur_channel: 2,
    }
}

/// The number of bits that the next sample instant reads: per channel a
/// 22-bit header at the start of a block, then one code.
pub open spec fn instant_bits(s: AdpcmState) -> nat {
    let per_channel = if s.sample_num == 0 {
        22 + s.bits_per_sample
    } else {
        s.bits_per_sample
    };
    if s.is_stereo {
        2 * per_channel
    } else {
        per_channel
    }
}

/// A channel header: a 16-bit signed sample and a 6-bit step index.
pub open spec fn header_channel(bytes: Seq<u8>, pos: int) -> ChannelState {
    ChannelState {
        sample: signed_bits_value(bytes, pos, 16) as i32,
        step_index: bits_value(bytes, pos + 16, 6) as i16,
    }
}

/// The state after one sample instant, read from the bits at the current position.
pub open spec fn next_instant(s: AdpcmState) -> AdpcmState {
    let bytes = s.source.bytes;
    let pos = s.source.pos as int;
    let bps = s.bits_per_sample;
    let header = s.sample_num == 0;
    let left0 = if header {
        header_channel(bytes, pos)
    } else {
        s.left
    };
    let right0 = if header && s.is_stereo {
        header_channel(bytes, pos + 22)
    } else {
        s.right
    };
    let data_pos = if !header {
        pos
    } else if s.is_stereo {
        pos + 44
    } else {
        pos + 22
    };
    let left = step_channel(left0, bps, bits_value(bytes, data_pos, bps));
    let right = if s.is_stereo {
        step_channel(right0, bps, bits_value(bytes, data_pos + bps, bps))
    } else {
        right0
    };
    AdpcmState {
        source: CursorView { bytes, pos: s.source.pos + instant_bits(s) },
        sample_rate: s.sample_rate,
        is_stereo: s.is_stereo,
        bits_per_sample: bps,
        sample_num: (s.sample_num + 1) % 4095,
        left,
        right,
        cur_channel: 0,
    }
}

/// One pull of the sample sequence: the next state and the sample emitted,
/// or `None` once the source holds too few bits for another sample instant.
pub open spec fn pull(s: AdpcmState) -> (AdpcmState, Option<i16>) {
    if s.cur_channel >= channel_count(s) {
        if s.source.has_bits(instant_bits(s)) {
            let t = next_instant(s);
            (AdpcmState { cur_channel: 1, ..t }, Some(t.left.sample as i16))
        } else {
            (s, None)
        }
    } else {
        let c = if s.cur_channel == 0 {
            s.left
        } else {
            s.right
        };
        (AdpcmState { cur_channel: s.cur_channel + 1, ..s }, Some(c.sample as i16))
    }
}

pub open spec fn pull_measure(s: AdpcmState) -> nat {
    (3 * (8 * s.source.bytes.len() - s.source.pos) + 2 - s.cur_channel) as nat
}

pub proof fn lemma_pull_progress(s: AdpcmState)
    requires
        valid_state(s),
        pull(s).1 is Some,
    ensures
        pull_measure(pull(s).0) < pull_measure(s),
{
}

/// Every sample that the decoder still emits, in order, from state `s`.
pub open spec fn remaining_samples(s: AdpcmState) -> Seq<i16>
    decreases pull_measure(s),
{
    if valid_state(s) && pull(s).1 is Some {
        proof {
            lemma_pull_progress(s);
        }
        seq![pull(s).1->0] + remaining_samples(pull(s).0)
    } else {
        Seq::empty()
    }
}

/// Whatever the bits read, every decoding step keeps each channel's step
/// index within [0, 88] and its sample within [-32768, 32767].
pub proof fn lemma_pull_stays_valid(s: AdpcmState)
    requires
        valid_state(s),
    ensures
        valid_state(pull(s).0),
{
    if s.cur_channel >= channel_count(s) && s.source.has_bits(instant_bits(s)) {
        let bytes = s.source.bytes;
        let pos = s.source.pos as int;
        let bps = s.bits_per_sample;
        lemma2_to64();
        lemma_bits_value_bound(bytes, pos, 16);
        lemma_bits_value_bound(bytes, pos + 16, 6);
        lemma_bits_value_bound(bytes, pos + 22, 16);
        lemma_bits_value_bound(bytes, pos + 38, 6);
        let header = s.sample_num == 0;
        let data_pos = if !header {
            pos
        } else if s.is_stereo {
            pos + 44
        } else {
            pos + 22
        };
        lemma_bits_value_bound(bytes, data_pos, bps);
        lemma_bits_value_bound(bytes, data_pos + bps, bps);
        let left0 = if header {
            header_channel(bytes, pos)
        } else {
            s.left
        };
        let right0 = if header && s.is_stereo {
            header_channel(bytes, pos + 22)
        } else {
            s.right
        };
        assert(channel_in_range(left0));
        assert(channel_in_range(right0));
        lemma_step_in_range(left0, bps, bits_value(bytes, data_pos, bps));
        lemma_step_in_range(right0, bps, bits_value(bytes, data_pos + bps, bps));
    }
}

proof fn lemma_samples_ignore_rate(s: AdpcmState, rate: u16)
    ensures
        remaining_samples(s) == remaining_samples(AdpcmState { sample_rate: rate, ..s }),
    decreases pull_measure(s),
{
    let r = AdpcmState { sample_rate: rate, ..s };
    assert(pull(r).0 == AdpcmState { sample_rate: rate, ..pull(s).0 });
    if valid_state(s) && pull(s).1 is Some {
        lemma_pull_progress(s);
        lemma_samples_ignore_rate(pull(s).0, rate);
    }
}

/// Decoding depends on the input bytes and the channel layout alone: two
/// fresh decoders over equal bytes emit the same samples, whatever sample
/// rate each was given.
pub proof fn lemma_decoding_deterministic(
    a: Seq<u8>,
    b: Seq<u8>,
    is_stereo: bool,
    rate_a: u16,
    rate_b: u16,
)
    requires
        a == b,
    ensures
        remaining_samples(start_state(a, is_stereo, rate_a)) == remaining_samples(
            start_state(b, is_stereo, rate_b),
        ),
{
    lemma_samples_ignore_rate(start_state(a, is_stereo, rate_a), rate_b);
    assert(start_state(b, is_stereo, rate_b) == AdpcmState {
        sample_rate: rate_b,
        ..start_state(a, is_stereo, rate_a)
    });
}

/// A sign-magnitude ADPCM decoder over one byte source, for one or two
/// channels; stereo samples come out left, then right, per sample instant.
pub struct AdpcmDecoder {
    inner: BitCursor,
    sample_rate: u16,
    is_stereo: bool,
    bits_per_sample: u32,
    sample_num: u16,
    left: ChannelState,
    right: ChannelState,
    cur_channel: u8,
}

impl View for AdpcmDecoder {
    type V = AdpcmState;

    closed spec fn view(&self) -> AdpcmState {
        AdpcmState {
            source: self.inner@,
            sample_rate: self.sample_rate,
            is_stereo: self.is_stereo,
            bits_per_sample: self.bits_per_sample as nat,
            sample_num: self.sample_num as nat,
            left: self.left,
            right: self.right,
            cur_channel: self.cur_channel as nat,
        }
    }
}

impl AdpcmDecoder {
    pub closed spec fn wf(&self) -> bool {
        self.inner.wf() && valid_state(self@)
    }

    /// Reads the 2-bit size code at the start of `data`; fails with
    /// `EndOfStream` when `data` is empty.
    pub fn new(data: Vec<u8>, is_stereo: bool, sample_rate: u16) -> (r: Result<Self, Error>)
        ensures
            data@.len() == 0 <==> r is Err,
            r matches Err(e) ==> e == Error::EndOfStream,
            r matches Ok(d) ==> d.wf() && d@ == start_state(data@, is_stereo, sample_rate),
    {
        let mut reader = BitCursor::new(data);
        let code = reader.read_unsigned(2)?;
        proof {
            reader.lemma_wf();
            lemma2_to64();
        }
        Ok(AdpcmDecoder {
            inner: reader,
            sample_rate,
            is_stereo,
            bits_per_sample: code + 2,
            sample_num: 0,
            left: ChannelState { sample: 0, step_index: 0 },
            right: ChannelState { sample: 0, step_index: 0 },
            cur_channel: 2,
        })
    }

    fn read_header(&mut self) -> (r: Result<ChannelState, Error>)
        requires
            old(self).wf(),
            old(self)@.source.has_bits(22),
        ensures
            final(self).wf(),
            final(self)@ == (AdpcmState {
                source: CursorView { bytes: old(self)@.source.bytes, pos: old(self)@.source.pos + 22 },
                ..old(self)@
            }),
            r == Ok::<ChannelState, Error>(
                header_channel(old(self)@.source.bytes, old(self)@.source.pos as int)),
            channel_in_range(header_channel(old(self)@.source.bytes, old(self)@.source.pos as int)),
    {
        proof {
            lemma2_to64();
            lemma_bits_value_bound(self@.source.bytes, self@.source.pos as int, 16);
            lemma_bits_value_bound(self@.source.bytes, self@.source.pos as int + 16, 6);
        }
        let sample = self.inner.read_signed(16)?;
        let step_index = self.inner.read_unsigned(6)?;
        proof {
            self.inner.lemma_wf();
        }
        Ok(ChannelState { sample, step_index: step_index as i16 })
    }

    /// Decodes the next sample instant of every channel, reading the channel
    /// headers first at the start of a block. When the source holds too few
    /// bits for the whole instant, fails with `EndOfStream` and changes nothing.
    pub fn next_sample(&mut self) -> (r: Result<(), Error>)
        requires
            old(self).wf(),
        ensures
            final(self).wf(),
            valid_state(final(self)@),
            old(self)@.source.has_bits(instant_bits(old(self)@)) ==> r is Ok
                && final(self)@ == next_instant(old(self)@),
            !old(self)@.source.has_bits(instant_bits(old(self)@)) ==> r == Err::<(), Error>(
                Error::EndOfStream) && final(self)@ == old(self)@,
    {
        let ghost s = self@;
        let per_channel: u32 = if self.sample_num == 0 {
            22 + self.bits_per_sample
        } else {
            self.bits_per_sample
        };
        let needed: u32 = if self.is_stereo {
            2 * per_channel
        } else {
            per_channel
        };
        if !self.inner.has_bits(needed) {
            return Err(Error::EndOfStream);
        }
        proof {
            lemma2_to64();
        }
        if self.sample_num == 0 {
            // The channel headers are not byte-aligned.
            self.left = self.read_header()?;
            if self.is_stereo {
                self.right = self.read_header()?;
            }
        }
        self.sample_num = (self.sample_num + 1) % BLOCK_LEN;
        let ghost data_pos = self@.source.pos as int;
        proof {
            lemma_bits_value_bound(s.source.bytes, data_pos, s.bits_per_sample);
            lemma_bits_value_bound(s.source.bytes, data_pos + s.bits_per_sample as int, s.bits_per_sample);
        }
        let data = self.inner.read_unsigned(self.bits_per_sample)?;
        self.left = decode_code(self.left, self.bits_per_sample, data);
        if self.is_stereo {
            let data = self.inner.read_unsigned(self.bits_per_sample)?;
            self.right = decode_code(self.right, self.bits_per_sample, data);
        }
        self.cur_channel = 0;
        proof {
            self.inner.lemma_wf();
        }
        Ok(())
    }

    /// The next sample of the interleaved sequence, or `None` once the source
    /// is exhausted.
    pub fn next(&mut self) -> (r: Option<i16>)
        requires
            old(self).wf(),
        ensures
            final(self).wf(),
            valid_state(final(self)@),
            (final(self)@, r) == pull(old(self)@),
    {
        let channels: u8 = if self.is_stereo {
            2
        } else {
            1
        };
        if self.cur_channel >= channels {
            if self.next_sample().is_err() {
                return None;
            }
        }
        let sample = if self.cur_channel == 0 {
            self.left.sample
        } else {
            self.right.sample
        };
        self.cur_channel = self.cur_channel + 1;
        Some(sample as i16)
    }

    /// Every sample that the decoder still emits, in order.
    pub fn into_samples(self) -> (r: Vec<i16>)
        requires
            self.wf(),
        ensures
            r@ == remaining_samples(self@),
    {
        let ghost start = self@;
        let mut decoder = self;
        let mut out: Vec<i16> = Vec::new();
        loop
            invariant
                decoder.wf(),
                out@ + remaining_samples(decoder@) == remaining_samples(start),
            ensures
                out@ == remaining_samples(start),
            decreases pull_measure(decoder@),
        {
            let ghost before = decoder@;
            match decoder.next() {
                Some(x) => {
                    proof {
                        lemma_pull_progress(before);
                        assert(remaining_samples(before) == seq![x] + remaining_samples(decoder@));
                        assert(out@.push(x) + remaining_samples(decoder@) =~= out@ + remaining_samples(before));
                    }
                    out.push(x);
                },
                None => {
                    proof {
                        assert(remaining_samples(before) =~= Seq::<i16>::empty());
                        assert(out@ + remaining_samples(before) =~= out@);
                    }
                    break;
                },
            }
        }
        out
    }

    /// 2 for a stereo stream, 1 for a mono one.
    pub fn num_channels(&self) -> (r: u8)
        ensures
            r == channel_count(self@),
    {
        if self.is_stereo {
            2
        } else {
            1
        }
    }

    pub fn sample_rate(&self) -> (r: u16)
        ensures
            r == self@.sample_rate,
    {
        self.sample_rate
    }
}

} // verus!
