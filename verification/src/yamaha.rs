//! Yamaha ADPCM-B (DELTA-T).
//!
//! A headerless stream of four-bit codes, the low nibble of a byte first, the
//! channels taking turns. A code moves the sample by an odd number of eighths
//! of the step and scales the step. Chips differ in how they round the scale.
//! The state of a channel lives on from packet to packet.

use vstd::prelude::*;

use crate::arith::{clamp, clamp16, clamp_i16, div_floor, magnitude};
use crate::dialogic::sample_seq;
use crate::lanes::{
    code_seq, lane_of, lane_range, lanes_are_apart, lanes_chosen, lanes_invariant, lanes_out,
    lanes_out_apart, lanes_run, lanes_step, lanes_track, lanes_track_invariant, lanes_track_step,
    next_turn, pack_nibbles, packed, packet_codes,
};
use crate::tables::{YAMAHA_DIFF_LOOKUP, YAMAHA_INDEX_SCALE, YAMAHA_INDEX_SCALE_OPNA};

verus! {

/// Whose step multipliers a channel uses.
#[derive(Clone, Copy, Debug, PartialEq, Eq, Structural)]
pub enum Chip {
    /// AICA, Y8950 and YMZ280B.
    Aica,
    /// YM2608 (OPNA).
    Opna,
}

impl Default for Chip {
    fn default() -> (r: Chip)
        ensures
            r == Chip::Aica,
    {
        Chip::Aica
    }
}

impl Chip {
    /// The step multiplier of a magnitude, over [`Chip::divisor_spec`].
    pub open spec fn scale_spec(self, mag: int) -> int {
        match self {
            Chip::Aica => YAMAHA_INDEX_SCALE[mag] as int,
            Chip::Opna => YAMAHA_INDEX_SCALE_OPNA[mag] as int,
        }
    }

    /// What the step multipliers are fractions of.
    pub open spec fn divisor_spec(self) -> int {
        match self {
            Chip::Aica => 256,
            Chip::Opna => 64,
        }
    }

    /// The step multiplier of a magnitude.
    fn scale(self, mag: usize) -> (r: i32)
        requires
            mag < 8,
        ensures
            r == self.scale_spec(mag as int),
            57 <= r <= 614,
    {
        match self {
            Chip::Aica => YAMAHA_INDEX_SCALE[mag],
            Chip::Opna => YAMAHA_INDEX_SCALE_OPNA[mag],
        }
    }

    /// What the step multipliers are fractions of.
    fn divisor(self) -> (r: i64)
        ensures
            r == self.divisor_spec(),
            r > 0,
    {
        match self {
            Chip::Aica => 256,
            Chip::Opna => 64,
        }
    }
}

/// The state of one channel.
#[derive(Clone, Copy, Debug, PartialEq, Eq, Structural)]
pub struct Channel {
    /// The last sample.
    pub predictor: i32,
    /// The current step.
    pub step: i32,
    /// Whose step multipliers are used.
    pub chip: Chip,
}

/// The state of one channel, over the integers.
pub struct YamahaModel {
    pub predictor: int,
    pub step: int,
    pub chip: Chip,
}

impl View for Channel {
    type V = YamahaModel;

    open spec fn view(&self) -> YamahaModel {
        YamahaModel {
            predictor: self.predictor as int,
            step: self.step as int,
            chip: self.chip,
        }
    }
}

impl YamahaModel {
    /// The sample fits 16 bits and the step is within its bounds.
    pub open spec fn valid(self) -> bool {
        &&& -32768 <= self.predictor <= 32767
        &&& 127 <= self.step <= 24576
    }
}

/// The state of a channel that has not taken any code.
pub open spec fn fresh(chip: Chip) -> YamahaModel {
    YamahaModel { predictor: 0, step: 127, chip }
}

impl Default for Channel {
    fn default() -> (r: Channel)
        ensures
            r@ == fresh(Chip::Aica),
    {
        Channel { predictor: 0, step: 127, chip: Chip::Aica }
    }
}

impl Channel {
    /// A fresh channel with the step multipliers of a chip.
    pub fn for_chip(chip: Chip) -> (r: Channel)
        ensures
            r@ == fresh(chip),
    {
        Channel { predictor: 0, step: 127, chip }
    }
}

/// The states of several channels, over the integers.
pub open spec fn models(states: Seq<Channel>) -> Seq<YamahaModel> {
    Seq::new(states.len(), |ch: int| states[ch]@)
}

/// How far a code moves the sample: an odd number of eighths of the step,
/// against the sign bit.
pub open spec fn yamaha_move(s: YamahaModel, code: int) -> int {
    let m = (YAMAHA_DIFF_LOOKUP[code % 8] * s.step) / 8;
    if code >= 8 {
        -m
    } else {
        m
    }
}

/// The state behind a code.
#[verifier::opaque]
pub open spec fn yamaha_next(s: YamahaModel, code: int) -> YamahaModel {
    YamahaModel {
        predictor: clamp16(s.predictor + yamaha_move(s, code)),
        step: clamp((s.step * s.chip.scale_spec(code % 8)) / s.chip.divisor_spec(), 127, 24576),
        chip: s.chip,
    }
}

/// [`yamaha_next`] as a value.
pub open spec fn yamaha_stepper() -> spec_fn(YamahaModel, int) -> YamahaModel {
    |s: YamahaModel, code: int| yamaha_next(s, code)
}

/// `x` saturated to 32 bits.
pub open spec fn saturated32(x: int) -> int {
    clamp(x, i32::MIN as int, i32::MAX as int)
}

/// The largest magnitude, up to `k`, for which the distance reaches that many
/// quarters of the step.
pub open spec fn yamaha_magnitude(distance: int, step: int, k: int) -> int
    decreases k,
{
    if k <= 0 {
        0
    } else if saturated32(4 * distance) >= saturated32(k * step) {
        k
    } else {
        yamaha_magnitude(distance, step, k - 1)
    }
}

/// The code of a sample: the sign of its distance from the running sample, and
/// the distance in quarters of the step, at most seven.
pub open spec fn yamaha_code(s: YamahaModel, target: int) -> int {
    let sign: int = if target < s.predictor {
        8
    } else {
        0
    };
    sign + yamaha_magnitude(magnitude(target - s.predictor), s.step, 7)
}

/// [`yamaha_code`] as a value.
pub open spec fn yamaha_picker() -> spec_fn(YamahaModel, int) -> int {
    |s: YamahaModel, target: int| yamaha_code(s, target)
}

/// The move of a code stays within 32 bits.
#[verifier::opaque]
pub open spec fn yamaha_fits(s: YamahaModel, code: int) -> bool {
    &&& i32::MIN <= YAMAHA_DIFF_LOOKUP[code % 8] * s.step <= i32::MAX
    &&& i32::MIN <= s.predictor + yamaha_move(s, code) <= i32::MAX
    &&& i32::MIN <= s.step * s.chip.scale_spec(code % 8) <= i32::MAX
}

/// Quantizing a sample stays within 32 bits.
pub open spec fn yamaha_code_fits(s: YamahaModel, target: int) -> bool {
    &&& i32::MIN < target - s.predictor <= i32::MAX
    &&& yamaha_fits(s, yamaha_code(s, target))
}

/// Magnitudes are three bits wide.
pub proof fn yamaha_magnitude_range(distance: int, step: int, k: int)
    requires
        0 <= k,
    ensures
        0 <= yamaha_magnitude(distance, step, k) <= k,
    decreases k,
{
    if k > 0 {
        yamaha_magnitude_range(distance, step, k - 1);
    }
}

/// For a valid step and a sample of 16 bits, the magnitude is the number of
/// whole quarters of the step in the distance, at most seven.
pub proof fn yamaha_magnitude_counts(distance: int, step: int, k: int)
    requires
        127 <= step <= 24576,
        0 <= distance <= 65535,
        0 <= k <= 7,
    ensures
        yamaha_magnitude(distance, step, k) == (if (4 * distance) / step < k {
            (4 * distance) / step
        } else {
            k
        }),
    decreases k,
{
    let q = (4 * distance) / step;
    assert(k * step <= 7 * 24576) by (nonlinear_arith)
        requires
            0 <= k <= 7,
            127 <= step <= 24576,
    ;
    assert(0 <= k * step) by (nonlinear_arith)
        requires
            0 <= k,
            0 <= step,
    ;
    assert(4 * distance >= k * step <==> q >= k) by (nonlinear_arith)
        requires
            q == (4 * distance) / step,
            step > 0,
            0 <= k,
            0 <= distance,
    ;
    assert(q >= 0) by (nonlinear_arith)
        requires
            q == (4 * distance) / step,
            step > 0,
            0 <= distance,
    ;
    if k > 0 {
        yamaha_magnitude_counts(distance, step, k - 1);
    }
}

/// From a valid state, every code and every sample stays within 32 bits, and
/// every code leads to a valid state.
pub proof fn yamaha_valid_fits(s: YamahaModel, code: int, target: int)
    requires
        s.valid(),
        -32768 <= target <= 32767,
        0 <= code < 16,
    ensures
        yamaha_fits(s, code),
        yamaha_code_fits(s, target),
        yamaha_next(s, code).valid(),
        0 <= yamaha_code(s, target) < 16,
{
    reveal(yamaha_next);
    reveal(yamaha_fits);
    yamaha_magnitude_range(magnitude(target - s.predictor), s.step, 7);
    yamaha_products(s, code);
    yamaha_products(s, yamaha_code(s, target));
}

/// The products of a valid state.
proof fn yamaha_products(s: YamahaModel, code: int)
    requires
        127 <= s.step <= 24576,
        0 <= code < 16,
    ensures
        0 <= YAMAHA_DIFF_LOOKUP[code % 8] * s.step <= 15 * 24576,
        0 <= s.step * s.chip.scale_spec(code % 8) <= 614 * 24576,
{
    let a = YAMAHA_DIFF_LOOKUP[code % 8] as int;
    let b = s.chip.scale_spec(code % 8);
    assert(0 <= a * s.step <= 15 * 24576) by (nonlinear_arith)
        requires
            1 <= a <= 15,
            127 <= s.step <= 24576,
    ;
    assert(0 <= s.step * b <= 614 * 24576) by (nonlinear_arith)
        requires
            57 <= b <= 614,
            127 <= s.step <= 24576,
    ;
}

/// Expands one code: moves the channel and returns the new sample. Bits above
/// the fourth are ignored.
pub fn decode_nibble(state: &mut Channel, nibble: u8) -> (r: i16)
    requires
        yamaha_fits(old(state)@, nibble as int % 16),
    ensures
        final(state)@ == yamaha_next(old(state)@, nibble as int % 16),
        r == final(state)@.predictor,
        final(state)@.valid(),
{
    proof {
        reveal(yamaha_next);
        reveal(yamaha_fits);
    }
    let code: u8 = nibble % 16;
    let mag: usize = (code % 8) as usize;
    assert(mag as int == (nibble as int % 16) % 8);
    let product: i32 = YAMAHA_DIFF_LOOKUP[mag] * state.step;
    let diff: i64 = div_floor(product as i64, 8);
    let moved: i64 = if code >= 8 {
        state.predictor as i64 - diff
    } else {
        state.predictor as i64 + diff
    };
    let sample: i16 = clamp_i16(moved);
    let scaled: i64 = div_floor((state.step * state.chip.scale(mag)) as i64, state.chip.divisor());
    state.predictor = sample as i32;
    state.step = if scaled < 127 {
        127
    } else if scaled > 24576 {
        24576
    } else {
        scaled as i32
    };
    sample
}

/// Quantizes one sample: moves the channel as the decoder will, and returns the
/// code with the sample that it stands for.
pub fn encode_sample(state: &mut Channel, target: i16) -> (r: (u8, i16))
    requires
        yamaha_code_fits(old(state)@, target as int),
    ensures
        r.0 < 16,
        r.0 == yamaha_code(old(state)@, target as int),
        final(state)@ == yamaha_next(old(state)@, r.0 as int),
        r.1 == final(state)@.predictor,
        final(state)@.valid(),
{
    let dn: i32 = target as i32 - state.predictor;
    let distance: i32 = if dn < 0 {
        -dn
    } else {
        dn
    };
    let four: i64 = saturate(4 * distance as i64);
    let step: i64 = state.step as i64;
    let mut mag: u8 = 7;
    while mag > 0 && !reaches(four, mag, step)
        invariant
            mag <= 7,
            i32::MIN <= step <= i32::MAX,
            four == saturated32(4 * distance as int),
            yamaha_magnitude(distance as int, step as int, 7) == yamaha_magnitude(
                distance as int,
                step as int,
                mag as int,
            ),
        decreases mag,
    {
        mag = mag - 1;
    }
    let nibble: u8 = if dn < 0 {
        8 + mag
    } else {
        mag
    };
    assert(nibble == yamaha_code(old(state)@, target as int));
    let sample: i16 = decode_nibble(state, nibble);
    (nibble, sample)
}

/// Whether a distance, times four, reaches `mag` steps.
fn reaches(four: i64, mag: u8, step: i64) -> (r: bool)
    requires
        mag <= 7,
        i32::MIN <= step <= i32::MAX,
    ensures
        r == (four >= saturated32(mag as int * step as int)),
{
    assert(-0x4_0000_0000 <= mag * step <= 0x4_0000_0000) by (nonlinear_arith)
        requires
            0 <= mag <= 7,
            -0x8000_0000 <= step <= 0x7fff_ffff,
    ;
    four >= saturate(mag as i64 * step)
}

/// Saturates `x` to 32 bits.
fn saturate(x: i64) -> (r: i64)
    ensures
        r == saturated32(x as int),
{
    if x < -0x8000_0000 {
        -0x8000_0000
    } else if x > 0x7fff_ffff {
        0x7fff_ffff
    } else {
        x
    }
}

/// The decoded samples of a stream of codes.
pub open spec fn yamaha_samples(states: Seq<YamahaModel>, codes: Seq<int>) -> Seq<i16> {
    Seq::new(
        codes.len(),
        |m: int| lanes_out(states, codes, yamaha_stepper(), m).predictor as i16,
    )
}

/// Every code of a stream can be expanded within 32 bits.
#[verifier::opaque]
pub open spec fn yamaha_stream_fits(states: Seq<YamahaModel>, codes: Seq<int>) -> bool {
    forall|m: int|
        #![trigger codes[m]]
        0 <= m < codes.len() ==> yamaha_fits(
            lanes_run(states, codes, yamaha_stepper(), m)[m % states.len() as int],
            codes[m],
        )
}

/// Every sample of a run can be quantized within 32 bits.
#[verifier::opaque]
pub open spec fn yamaha_run_fits(states: Seq<YamahaModel>, targets: Seq<int>) -> bool {
    forall|m: int|
        #![trigger targets[m]]
        0 <= m < targets.len() ==> yamaha_code_fits(
            lanes_track(states, targets, yamaha_picker(), yamaha_stepper(), m)[m
                % states.len() as int],
            targets[m],
        )
}

/// Codes keep states valid.
proof fn stepper_keeps_valid()
    ensures
        forall|s: YamahaModel, code: int|
            s.valid() ==> (#[trigger] yamaha_stepper()(s, code)).valid(),
{
    reveal(yamaha_next);
}

/// From valid states, every stream can be expanded, and the states stay valid.
pub proof fn yamaha_stream_valid(states: Seq<YamahaModel>, codes: Seq<int>)
    requires
        states.len() > 0,
        forall|ch: int| 0 <= ch < states.len() ==> (#[trigger] states[ch]).valid(),
        forall|m: int| 0 <= m < codes.len() ==> 0 <= #[trigger] codes[m] < 16,
    ensures
        yamaha_stream_fits(states, codes),
        forall|ch: int|
            0 <= ch < states.len() ==> (#[trigger] lanes_run(
                states,
                codes,
                yamaha_stepper(),
                codes.len() as int,
            )[ch]).valid(),
{
    reveal(yamaha_stream_fits);
    stepper_keeps_valid();
    let inv = |s: YamahaModel| s.valid();
    let next = yamaha_stepper();
    assert forall|m: int| #![trigger codes[m]] 0 <= m < codes.len() implies yamaha_fits(
        lanes_run(states, codes, next, m)[m % states.len() as int],
        codes[m],
    ) by {
        let ch = m % states.len() as int;
        lane_range(m, states.len() as int);
        lanes_invariant(states, codes, next, inv, m, ch);
        yamaha_valid_fits(lanes_run(states, codes, next, m)[ch], codes[m], 0);
    }
    assert forall|ch: int| 0 <= ch < states.len() implies (#[trigger] lanes_run(
        states,
        codes,
        next,
        codes.len() as int,
    )[ch]).valid() by {
        lanes_invariant(states, codes, next, inv, codes.len() as int, ch);
    }
}

/// From valid states, every run of samples can be quantized, and the states
/// stay valid.
pub proof fn yamaha_run_valid(states: Seq<YamahaModel>, targets: Seq<int>)
    requires
        states.len() > 0,
        forall|ch: int| 0 <= ch < states.len() ==> (#[trigger] states[ch]).valid(),
        forall|m: int| 0 <= m < targets.len() ==> -32768 <= #[trigger] targets[m] <= 32767,
    ensures
        yamaha_run_fits(states, targets),
        forall|ch: int|
            0 <= ch < states.len() ==> (#[trigger] lanes_track(
                states,
                targets,
                yamaha_picker(),
                yamaha_stepper(),
                targets.len() as int,
            )[ch]).valid(),
{
    reveal(yamaha_run_fits);
    stepper_keeps_valid();
    let inv = |s: YamahaModel| s.valid();
    let next = yamaha_stepper();
    let pick = yamaha_picker();
    assert forall|m: int| #![trigger targets[m]] 0 <= m < targets.len() implies yamaha_code_fits(
        lanes_track(states, targets, pick, next, m)[m % states.len() as int],
        targets[m],
    ) by {
        let ch = m % states.len() as int;
        lane_range(m, states.len() as int);
        lanes_track_invariant(states, targets, pick, next, inv, m, ch);
        yamaha_valid_fits(lanes_track(states, targets, pick, next, m)[ch], 0, targets[m]);
    }
    assert forall|ch: int| 0 <= ch < states.len() implies (#[trigger] lanes_track(
        states,
        targets,
        pick,
        next,
        targets.len() as int,
    )[ch]).valid() by {
        lanes_track_invariant(states, targets, pick, next, inv, targets.len() as int, ch);
    }
}

/// Expands one code for channel `ch`.
fn decode_lane(state: &mut [Channel], ch: usize, code: u8) -> (r: i16)
    requires
        ch < old(state)@.len(),
        code < 16,
        yamaha_fits(models(old(state)@)[ch as int], code as int),
    ensures
        final(state)@.len() == old(state)@.len(),
        models(final(state)@) == models(old(state)@).update(
            ch as int,
            yamaha_next(models(old(state)@)[ch as int], code as int),
        ),
        r == yamaha_next(models(old(state)@)[ch as int], code as int).predictor,
{
    let mut st: Channel = state[ch];
    let sample: i16 = decode_nibble(&mut st, code);
    state[ch] = st;
    assert(models(state@) =~= models(old(state)@).update(ch as int, st@));
    sample
}

/// Quantizes one sample for channel `ch`.
fn encode_lane(state: &mut [Channel], ch: usize, target: i16) -> (code: u8)
    requires
        ch < old(state)@.len(),
        yamaha_code_fits(models(old(state)@)[ch as int], target as int),
    ensures
        code < 16,
        code == yamaha_code(models(old(state)@)[ch as int], target as int),
        final(state)@.len() == old(state)@.len(),
        models(final(state)@) == models(old(state)@).update(
            ch as int,
            yamaha_next(models(old(state)@)[ch as int], code as int),
        ),
{
    let mut st: Channel = state[ch];
    let coded: (u8, i16) = encode_sample(&mut st, target);
    state[ch] = st;
    assert(models(state@) =~= models(old(state)@).update(ch as int, st@));
    coded.0
}

/// Decodes a packet, the channels taking turns code by code, and moves them.
pub fn decode_packet(packet: &[u8], state: &mut [Channel]) -> (out: Vec<i16>)
    requires
        2 * packet@.len() <= usize::MAX,
        old(state)@.len() > 0 ==> yamaha_stream_fits(
            models(old(state)@),
            packet_codes(packet@, true),
        ),
    ensures
        old(state)@.len() == 0 ==> out@ == Seq::<i16>::empty() && final(state)@ == old(state)@,
        old(state)@.len() > 0 ==> {
            let codes = packet_codes(packet@, true);
            &&& out@ == yamaha_samples(models(old(state)@), codes)
            &&& models(final(state)@) == lanes_run(
                models(old(state)@),
                codes,
                yamaha_stepper(),
                codes.len() as int,
            )
        },
        final(state)@.len() == old(state)@.len(),
{
    let channels: usize = state.len();
    let mut out: Vec<i16> = Vec::new();
    if channels == 0 {
        return out;
    }
    let ghost start = models(old(state)@);
    let ghost codes = packet_codes(packet@, true);
    let ghost want = yamaha_samples(start, codes);
    let total: usize = 2 * packet.len();
    let mut cursor: usize = 0;
    let mut m: usize = 0;
    while m < total
        invariant
            m <= total == 2 * packet@.len(),
            channels == start.len() == state@.len(),
            channels > 0,
            cursor == m as int % channels as int,
            cursor < channels,
            codes == packet_codes(packet@, true),
            want == yamaha_samples(start, codes),
            out@ == want.take(m as int),
            models(state@) == lanes_run(start, codes, yamaha_stepper(), m as int),
            yamaha_stream_fits(start, codes),
        decreases total - m,
    {
        let byte: u8 = packet[m / 2];
        let code: u8 = if m % 2 == 0 {
            byte % 16
        } else {
            byte / 16
        };
        assert(code == codes[m as int]);
        proof {
            reveal(yamaha_stream_fits);
            lanes_step(start, codes, yamaha_stepper(), m as int);
            next_turn(m as int, channels as int);
        }
        let sample: i16 = decode_lane(state, cursor, code);
        out.push(sample);
        proof {
            assert(want[m as int] == sample);
            assert(out@ =~= want.take(m + 1));
        }
        cursor = if cursor + 1 == channels {
            0
        } else {
            cursor + 1
        };
        m = m + 1;
    }
    assert(want.take(total as int) =~= want);
    out
}

/// Encodes interleaved samples to a packet, the channels taking turns, and
/// moves them. Behind an odd number of samples comes a zero code.
pub fn encode_packet(samples: &[i16], state: &mut [Channel]) -> (out: Vec<u8>)
    requires
        old(state)@.len() > 0 ==> yamaha_run_fits(models(old(state)@), sample_seq(samples@)),
    ensures
        old(state)@.len() == 0 ==> out@ == Seq::<u8>::empty() && final(state)@ == old(state)@,
        old(state)@.len() > 0 ==> {
            let start = models(old(state)@);
            let targets = sample_seq(samples@);
            &&& out@ == packed(
                lanes_chosen(start, targets, yamaha_picker(), yamaha_stepper()),
                true,
            )
            &&& models(final(state)@) == lanes_track(
                start,
                targets,
                yamaha_picker(),
                yamaha_stepper(),
                targets.len() as int,
            )
        },
        final(state)@.len() == old(state)@.len(),
{
    let channels: usize = state.len();
    if channels == 0 {
        return Vec::new();
    }
    let ghost start = models(old(state)@);
    let ghost targets = sample_seq(samples@);
    let ghost chosen = lanes_chosen(start, targets, yamaha_picker(), yamaha_stepper());
    let n: usize = samples.len();
    let mut codes: Vec<u8> = Vec::new();
    let mut cursor: usize = 0;
    let mut m: usize = 0;
    while m < n
        invariant
            m <= n == samples@.len(),
            channels == start.len() == state@.len(),
            channels > 0,
            cursor == m as int % channels as int,
            cursor < channels,
            targets == sample_seq(samples@),
            chosen == lanes_chosen(start, targets, yamaha_picker(), yamaha_stepper()),
            yamaha_run_fits(start, targets),
            models(state@) == lanes_track(
                start,
                targets,
                yamaha_picker(),
                yamaha_stepper(),
                m as int,
            ),
            code_seq(codes@) == chosen.take(m as int),
            forall|k: int| 0 <= k < codes@.len() ==> (#[trigger] codes@[k]) < 16,
        decreases n - m,
    {
        proof {
            reveal(yamaha_run_fits);
            lanes_track_step(start, targets, yamaha_picker(), yamaha_stepper(), m as int);
            next_turn(m as int, channels as int);
            assert(targets[m as int] == samples@[m as int]);
        }
        let code: u8 = encode_lane(state, cursor, samples[m]);
        let ghost old_codes = codes@;
        codes.push(code);
        proof {
            assert(chosen[m as int] == code);
            assert(code_seq(codes@) =~= code_seq(old_codes).push(code as int));
            assert(code_seq(codes@) =~= chosen.take(m + 1));
        }
        cursor = if cursor + 1 == channels {
            0
        } else {
            cursor + 1
        };
        m = m + 1;
    }
    assert(chosen.take(n as int) =~= chosen);
    pack_nibbles(&codes, true)
}

/// Every channel is decoded from its own codes and its own state alone, as a
/// stream of one channel.
pub proof fn yamaha_channels_apart(states: Seq<YamahaModel>, codes: Seq<int>, ch: int)
    requires
        0 <= ch < states.len(),
    ensures
        ({
            let c = states.len() as int;
            let own = lane_of(codes, c, ch);
            &&& lane_of(yamaha_samples(states, codes), c, ch) == yamaha_samples(
                seq![states[ch]],
                own,
            )
            &&& lanes_run(states, codes, yamaha_stepper(), codes.len() as int)[ch] == lanes_run(
                seq![states[ch]],
                own,
                yamaha_stepper(),
                own.len() as int,
            )[0]
        }),
{
    let c = states.len() as int;
    let own = lane_of(codes, c, ch);
    let got = lane_of(yamaha_samples(states, codes), c, ch);
    let alone = yamaha_samples(seq![states[ch]], own);
    lanes_are_apart(states, codes, yamaha_stepper(), codes.len() as int, ch);
    assert forall|k: int| 0 <= k < own.len() implies got[k] == alone[k] by {
        lanes_out_apart(states, codes, yamaha_stepper(), k, ch);
    }
    assert(got =~= alone);
}

/// The sign bit mirrors the move of a code, and the step does not depend on it.
pub proof fn yamaha_sign_mirrors(s: YamahaModel, mag: int)
    requires
        0 <= mag < 8,
    ensures
        yamaha_move(s, mag + 8) == -yamaha_move(s, mag),
        yamaha_next(s, mag + 8).step == yamaha_next(s, mag).step,
{
    reveal(yamaha_next);
    assert((mag + 8) % 8 == mag % 8);
}

} // verus!
