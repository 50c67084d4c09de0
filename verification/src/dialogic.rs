//! OKI / Dialogic ADPCM (VOX).
//!
//! A headerless stream of four-bit codes, two to a byte. The recurrence is that
//! of [`crate::ima_wav`] with a shorter ladder of steps and 12-bit samples. The
//! state of a channel lives on from packet to packet.

use vstd::prelude::*;

use crate::arith::{clamp, clamp_i32, div_floor};
use crate::error::{Component, Error};
use crate::ima_wav::{ima_code4, ima_move4};
use crate::lanes::{
    code_seq, lane_of, lane_range, lanes_are_apart, lanes_chosen, lanes_invariant, lanes_out,
    lanes_out_apart, lanes_run, lanes_step, lanes_track, lanes_track_invariant,
    lanes_track_step, next_turn, pack_nibbles, packed, packet_codes,
};
use crate::tables::{OKI_INDEX_ADJUST, OKI_STEP_SIZE};

verus! {

/// Which nibble of a byte holds the earlier code.
#[derive(Clone, Copy, Debug, PartialEq, Eq, Structural)]
pub enum NibbleOrder {
    /// The high nibble (Dialogic VOX, MSM6295).
    HiFirst,
    /// The low nibble (MSM6258).
    LoFirst,
}

/// The width of decoded samples.
#[derive(Clone, Copy, Debug, PartialEq, Eq, Structural)]
pub enum Output {
    /// The 12-bit value itself.
    Native12,
    /// The 12-bit value times 16, filling 16 bits.
    Wide16,
}

/// The state of one channel.
#[derive(Clone, Copy, Debug, PartialEq, Eq, Structural)]
pub struct Channel {
    /// The last sample, 12 bits.
    pub predictor: i32,
    /// The index of the current step, `0..=48`.
    pub step_index: i32,
}

impl Default for Channel {
    fn default() -> (r: Channel)
        ensures
            r@ == fresh(),
    {
        Channel { predictor: 0, step_index: 0 }
    }
}

/// The state of one channel, over the integers.
pub struct VoxModel {
    pub predictor: int,
    pub step_index: int,
}

impl View for Channel {
    type V = VoxModel;

    open spec fn view(&self) -> VoxModel {
        VoxModel { predictor: self.predictor as int, step_index: self.step_index as int }
    }
}

impl VoxModel {
    /// The sample fits 12 bits and the index is one of the table.
    pub open spec fn valid(self) -> bool {
        &&& -2048 <= self.predictor <= 2047
        &&& 0 <= self.step_index <= 48
    }
}

/// The state of a channel that has not taken any code.
pub open spec fn fresh() -> VoxModel {
    VoxModel { predictor: 0, step_index: 0 }
}

/// The states of several channels, over the integers.
pub open spec fn models(states: Seq<Channel>) -> Seq<VoxModel> {
    Seq::new(states.len(), |ch: int| states[ch]@)
}

/// The step of an index; an index outside the table counts as the nearest one.
pub open spec fn vox_step(step_index: int) -> int {
    OKI_STEP_SIZE[clamp(step_index, 0, 48)] as int
}

/// How far a code moves the sample, before the sample is saturated.
pub open spec fn vox_move(s: VoxModel, code: int) -> int {
    ima_move4(vox_step(s.step_index), code)
}

/// The state behind a code.
#[verifier::opaque]
pub open spec fn vox_next(s: VoxModel, code: int) -> VoxModel {
    VoxModel {
        predictor: clamp(s.predictor + vox_move(s, code), -2048, 2047),
        step_index: clamp(s.step_index + OKI_INDEX_ADJUST[code % 8], 0, 48),
    }
}

/// [`vox_next`] as a value.
pub open spec fn vox_stepper() -> spec_fn(VoxModel, int) -> VoxModel {
    |s: VoxModel, code: int| vox_next(s, code)
}

/// The code of a sample, by the threshold ladder of the current step.
pub open spec fn vox_code(s: VoxModel, target: int) -> int {
    ima_code4(s.predictor, vox_step(s.step_index), target)
}

/// [`vox_code`] as a value.
pub open spec fn vox_picker() -> spec_fn(VoxModel, int) -> int {
    |s: VoxModel, target: int| vox_code(s, target)
}

/// The move of a code stays within 32 bits.
#[verifier::opaque]
pub open spec fn vox_fits(s: VoxModel, code: int) -> bool {
    &&& i32::MIN <= s.predictor + vox_move(s, code) <= i32::MAX
    &&& i32::MIN <= s.step_index + OKI_INDEX_ADJUST[code % 8] <= i32::MAX
}

/// Quantizing a sample stays within 32 bits.
pub open spec fn vox_code_fits(s: VoxModel, target: int) -> bool {
    &&& i32::MIN < target - s.predictor <= i32::MAX
    &&& vox_fits(s, vox_code(s, target))
}

/// A 12-bit sample at the wanted width.
pub open spec fn widened(output: Output, x: int) -> int {
    match output {
        Output::Native12 => x,
        Output::Wide16 => 16 * x,
    }
}

/// Steps lie between 16 and 1552.
pub proof fn vox_step_bounds(step_index: int)
    ensures
        16 <= vox_step(step_index) <= 1552,
{
}

/// From a valid state, every code and every sample stays within 32 bits, and
/// every code leads to a valid state.
pub proof fn vox_valid_fits(s: VoxModel, code: int, target: int)
    requires
        s.valid(),
        -32768 <= target <= 32767,
        0 <= code < 16,
    ensures
        vox_fits(s, code),
        vox_code_fits(s, target),
        vox_next(s, code).valid(),
        0 <= vox_code(s, target) < 16,
{
    reveal(vox_next);
    reveal(vox_fits);
    vox_step_bounds(s.step_index);
}

/// The current step.
fn step_size(state: &Channel) -> (r: i32)
    ensures
        r == vox_step(state.step_index as int),
        16 <= r <= 1552,
{
    proof {
        vox_step_bounds(state.step_index as int);
    }
    let i: i32 = clamp_i32(state.step_index, 0, 48);
    OKI_STEP_SIZE[i as usize] as i32
}

/// Expands one code: moves the channel and returns the new sample. Bits above
/// the fourth are ignored.
pub fn decode_nibble(state: &mut Channel, nibble: u8, output: Output) -> (r: i16)
    requires
        vox_fits(old(state)@, nibble as int % 16),
    ensures
        final(state)@ == vox_next(old(state)@, nibble as int % 16),
        r == widened(output, final(state)@.predictor),
        -2048 <= final(state)@.predictor <= 2047,
{
    proof {
        reveal(vox_next);
        reveal(vox_fits);
    }
    let step: i32 = step_size(state);
    let code: u8 = nibble % 16;
    let mut d: i32 = step / 8;
    if code % 2 == 1 {
        d = d + step / 4;
    }
    if (code / 2) % 2 == 1 {
        d = d + step / 2;
    }
    if (code / 4) % 2 == 1 {
        d = d + step;
    }
    let moved: i32 = if code >= 8 {
        state.predictor - d
    } else {
        state.predictor + d
    };
    state.predictor = clamp_i32(moved, -2048, 2047);
    let adjusted: i32 = state.step_index + OKI_INDEX_ADJUST[(code % 8) as usize];
    state.step_index = clamp_i32(adjusted, 0, 48);
    match output {
        Output::Native12 => state.predictor as i16,
        Output::Wide16 => (16 * state.predictor) as i16,
    }
}

/// Quantizes one sample: moves the channel as the decoder will, and returns the
/// code with the 12-bit sample that it stands for.
pub fn encode_sample(state: &mut Channel, target: i32) -> (r: (u8, i16))
    requires
        vox_code_fits(old(state)@, target as int),
    ensures
        r.0 < 16,
        r.0 == vox_code(old(state)@, target as int),
        final(state)@ == vox_next(old(state)@, r.0 as int),
        r.1 == final(state)@.predictor,
{
    proof {
        reveal(vox_fits);
    }
    let step: i32 = step_size(state);
    let mut d: i32 = target - state.predictor;
    let mut nibble: u8 = 0;
    if d < 0 {
        nibble = 8;
        d = -d;
    }
    if d >= step {
        nibble = nibble + 4;
        d = d - step;
    }
    if d >= step / 2 {
        nibble = nibble + 2;
        d = d - step / 2;
    }
    if d >= step / 4 {
        nibble = nibble + 1;
    }
    let sample: i16 = decode_nibble(state, nibble, Output::Native12);
    (nibble, sample)
}

/// The decoded samples of a stream of codes.
pub open spec fn vox_samples(states: Seq<VoxModel>, codes: Seq<int>, output: Output) -> Seq<i16> {
    Seq::new(
        codes.len(),
        |m: int| widened(output, lanes_out(states, codes, vox_stepper(), m).predictor) as i16,
    )
}

/// Every code of a stream can be expanded within 32 bits.
#[verifier::opaque]
pub open spec fn vox_stream_fits(states: Seq<VoxModel>, codes: Seq<int>) -> bool {
    forall|m: int|
        #![trigger codes[m]]
        0 <= m < codes.len() ==> vox_fits(
            lanes_run(states, codes, vox_stepper(), m)[m % states.len() as int],
            codes[m],
        )
}

/// From valid states, every stream can be expanded, and the states stay valid.
pub proof fn vox_stream_valid(states: Seq<VoxModel>, codes: Seq<int>)
    requires
        states.len() > 0,
        forall|ch: int| 0 <= ch < states.len() ==> (#[trigger] states[ch]).valid(),
        forall|m: int| 0 <= m < codes.len() ==> 0 <= #[trigger] codes[m] < 16,
    ensures
        vox_stream_fits(states, codes),
        forall|ch: int|
            0 <= ch < states.len() ==> (#[trigger] lanes_run(
                states,
                codes,
                vox_stepper(),
                codes.len() as int,
            )[ch]).valid(),
{
    reveal(vox_stream_fits);
    let inv = |s: VoxModel| s.valid();
    let next = vox_stepper();
    assert forall|s: VoxModel, code: int| inv(s) implies inv(#[trigger] next(s, code)) by {
        reveal(vox_next);
    }
    assert forall|m: int| #![trigger codes[m]] 0 <= m < codes.len() implies vox_fits(
        lanes_run(states, codes, next, m)[m % states.len() as int],
        codes[m],
    ) by {
        let ch = m % states.len() as int;
        lane_range(m, states.len() as int);
        lanes_invariant(states, codes, next, inv, m, ch);
        vox_valid_fits(lanes_run(states, codes, next, m)[ch], codes[m], 0);
    }
    assert forall|ch: int| 0 <= ch < states.len() implies (#[trigger] lanes_run(
        states,
        codes,
        next,
        codes.len() as int,
    )[ch]).valid() by {
        lanes_invariant(states, codes, next, inv, codes.len() as int, ch);
    }
}

/// Expands one code for channel `ch`.
fn decode_lane(state: &mut [Channel], ch: usize, code: u8, output: Output) -> (r: i16)
    requires
        ch < old(state)@.len(),
        code < 16,
        vox_fits(models(old(state)@)[ch as int], code as int),
    ensures
        final(state)@.len() == old(state)@.len(),
        models(final(state)@) == models(old(state)@).update(
            ch as int,
            vox_next(models(old(state)@)[ch as int], code as int),
        ),
        r == widened(output, vox_next(models(old(state)@)[ch as int], code as int).predictor),
{
    let mut st: Channel = state[ch];
    let sample: i16 = decode_nibble(&mut st, code, output);
    state[ch] = st;
    assert(models(state@) =~= models(old(state)@).update(ch as int, st@));
    sample
}

/// Decodes a packet, the channels taking turns code by code, and moves them.
pub fn decode_packet(
    packet: &[u8],
    state: &mut [Channel],
    order: NibbleOrder,
    output: Output,
) -> (out: Vec<i16>)
    requires
        2 * packet@.len() <= usize::MAX,
        old(state)@.len() > 0 ==> vox_stream_fits(
            models(old(state)@),
            packet_codes(packet@, order is LoFirst),
        ),
    ensures
        old(state)@.len() == 0 ==> out@ == Seq::<i16>::empty() && final(state)@ == old(state)@,
        old(state)@.len() > 0 ==> {
            let codes = packet_codes(packet@, order is LoFirst);
            &&& out@ == vox_samples(models(old(state)@), codes, output)
            &&& models(final(state)@) == lanes_run(
                models(old(state)@),
                codes,
                vox_stepper(),
                codes.len() as int,
            )
        },
        final(state)@.len() == old(state)@.len(),
{
    let channels: usize = state.len();
    let mut out: Vec<i16> = Vec::new();
    if channels == 0 {
        return out;
    }
    let ghost start = models(old(state)@);
    let ghost codes = packet_codes(packet@, order is LoFirst);
    let ghost want = vox_samples(start, codes, output);
    let total: usize = 2 * packet.len();
    let mut cursor: usize = 0;
    let mut m: usize = 0;
    while m < total
        invariant
            m <= total == 2 * packet@.len(),
            channels == start.len() == state@.len(),
            channels > 0,
            cursor == m as int % channels as int,
            cursor < channels,
            codes == packet_codes(packet@, order is LoFirst),
            want == vox_samples(start, codes, output),
            out@ == want.take(m as int),
            models(state@) == lanes_run(start, codes, vox_stepper(), m as int),
            vox_stream_fits(start, codes),
        decreases total - m,
    {
        let byte: u8 = packet[m / 2];
        let low: bool = (m % 2 == 0) == matches!(order, NibbleOrder::LoFirst);
        let code: u8 = if low {
            byte % 16
        } else {
            byte / 16
        };
        assert(code == codes[m as int]);
        proof {
            reveal(vox_stream_fits);
            lanes_step(start, codes, vox_stepper(), m as int);
            next_turn(m as int, channels as int);
        }
        let sample: i16 = decode_lane(state, cursor, code, output);
        out.push(sample);
        proof {
            assert(want[m as int] == sample);
            assert(out@ =~= want.take(m + 1));
        }
        cursor = if cursor + 1 == channels {
            0
        } else {
            cursor + 1
        };
        m = m + 1;
    }
    assert(want.take(total as int) =~= want);
    out
}

/// Samples over the integers.
pub open spec fn sample_seq(samples: Seq<i16>) -> Seq<int> {
    Seq::new(samples.len(), |k: int| samples[k] as int)
}

/// Samples over the integers, a sixteenth of each, rounded down.
pub open spec fn narrowed(samples: Seq<i16>) -> Seq<int> {
    Seq::new(samples.len(), |k: int| samples[k] as int / 16)
}

/// Every sample of a run, the channels taking turns, can be quantized within 32
/// bits.
#[verifier::opaque]
pub open spec fn vox_runs_fit(states: Seq<VoxModel>, targets: Seq<int>) -> bool {
    forall|m: int|
        #![trigger targets[m]]
        0 <= m < targets.len() ==> vox_code_fits(
            lanes_track(states, targets, vox_picker(), vox_stepper(), m)[m % states.len() as int],
            targets[m],
        )
}

/// Every sample of a run of one channel can be quantized within 32 bits.
pub open spec fn vox_run_fits(s: VoxModel, targets: Seq<int>) -> bool {
    vox_runs_fit(seq![s], targets)
}

/// From valid states, every run of samples can be quantized, and the states
/// stay valid.
pub proof fn vox_runs_valid(states: Seq<VoxModel>, targets: Seq<int>)
    requires
        states.len() > 0,
        forall|ch: int| 0 <= ch < states.len() ==> (#[trigger] states[ch]).valid(),
        forall|m: int| 0 <= m < targets.len() ==> -32768 <= #[trigger] targets[m] <= 32767,
    ensures
        vox_runs_fit(states, targets),
        forall|ch: int|
            0 <= ch < states.len() ==> (#[trigger] lanes_track(
                states,
                targets,
                vox_picker(),
                vox_stepper(),
                targets.len() as int,
            )[ch]).valid(),
{
    reveal(vox_runs_fit);
    let inv = |t: VoxModel| t.valid();
    let next = vox_stepper();
    let pick = vox_picker();
    assert forall|t: VoxModel, code: int| inv(t) implies inv(#[trigger] next(t, code)) by {
        reveal(vox_next);
    }
    assert forall|m: int| #![trigger targets[m]] 0 <= m < targets.len() implies vox_code_fits(
        lanes_track(states, targets, pick, next, m)[m % states.len() as int],
        targets[m],
    ) by {
        let ch = m % states.len() as int;
        lane_range(m, states.len() as int);
        lanes_track_invariant(states, targets, pick, next, inv, m, ch);
        vox_valid_fits(lanes_track(states, targets, pick, next, m)[ch], 0, targets[m]);
    }
    assert forall|ch: int| 0 <= ch < states.len() implies (#[trigger] lanes_track(
        states,
        targets,
        pick,
        next,
        targets.len() as int,
    )[ch]).valid() by {
        lanes_track_invariant(states, targets, pick, next, inv, targets.len() as int, ch);
    }
}

/// Quantizes one sample for channel `ch`.
fn encode_lane(state: &mut [Channel], ch: usize, target: i16) -> (code: u8)
    requires
        ch < old(state)@.len(),
        vox_code_fits(models(old(state)@)[ch as int], target as int),
    ensures
        code < 16,
        code == vox_code(models(old(state)@)[ch as int], target as int),
        final(state)@.len() == old(state)@.len(),
        models(final(state)@) == models(old(state)@).update(
            ch as int,
            vox_next(models(old(state)@)[ch as int], code as int),
        ),
{
    let mut st: Channel = state[ch];
    let coded: (u8, i16) = encode_sample(&mut st, target as i32);
    state[ch] = st;
    assert(models(state@) =~= models(old(state)@).update(ch as int, st@));
    coded.0
}

/// Encodes interleaved 12-bit samples to a packet, the channels taking turns,
/// and moves them. Behind an odd number of samples comes a zero code.
pub fn encode_packet_multi(samples: &[i16], state: &mut [Channel], order: NibbleOrder) -> (out: Vec<
    u8,
>)
    requires
        old(state)@.len() > 0 ==> vox_runs_fit(models(old(state)@), sample_seq(samples@)),
    ensures
        old(state)@.len() == 0 ==> out@ == Seq::<u8>::empty() && final(state)@ == old(state)@,
        old(state)@.len() > 0 ==> {
            let start = models(old(state)@);
            let targets = sample_seq(samples@);
            &&& out@ == packed(
                lanes_chosen(start, targets, vox_picker(), vox_stepper()),
                order is LoFirst,
            )
            &&& models(final(state)@) == lanes_track(
                start,
                targets,
                vox_picker(),
                vox_stepper(),
                targets.len() as int,
            )
        },
        final(state)@.len() == old(state)@.len(),
{
    let channels: usize = state.len();
    if channels == 0 {
        return Vec::new();
    }
    let ghost start = models(old(state)@);
    let ghost targets = sample_seq(samples@);
    let ghost chosen = lanes_chosen(start, targets, vox_picker(), vox_stepper());
    let n: usize = samples.len();
    let mut codes: Vec<u8> = Vec::new();
    let mut cursor: usize = 0;
    let mut m: usize = 0;
    while m < n
        invariant
            m <= n == samples@.len(),
            channels == start.len() == state@.len(),
            channels > 0,
            cursor == m as int % channels as int,
            cursor < channels,
            targets == sample_seq(samples@),
            chosen == lanes_chosen(start, targets, vox_picker(), vox_stepper()),
            vox_runs_fit(start, targets),
            models(state@) == lanes_track(start, targets, vox_picker(), vox_stepper(), m as int),
            code_seq(codes@) == chosen.take(m as int),
            forall|k: int| 0 <= k < codes@.len() ==> (#[trigger] codes@[k]) < 16,
        decreases n - m,
    {
        proof {
            reveal(vox_runs_fit);
            lanes_track_step(start, targets, vox_picker(), vox_stepper(), m as int);
            next_turn(m as int, channels as int);
            assert(targets[m as int] == samples@[m as int]);
        }
        let code: u8 = encode_lane(state, cursor, samples[m]);
        let ghost old_codes = codes@;
        codes.push(code);
        proof {
            assert(chosen[m as int] == code);
            assert(code_seq(codes@) =~= code_seq(old_codes).push(code as int));
            assert(code_seq(codes@) =~= chosen.take(m + 1));
        }
        cursor = if cursor + 1 == channels {
            0
        } else {
            cursor + 1
        };
        m = m + 1;
    }
    assert(chosen.take(n as int) =~= chosen);
    pack_nibbles(&codes, matches!(order, NibbleOrder::LoFirst))
}

/// Encodes interleaved 16-bit samples to a packet, a sixteenth of each, and moves
/// the channels.
pub fn encode_packet_multi_wide16(
    samples: &[i16],
    state: &mut [Channel],
    order: NibbleOrder,
) -> (out: Vec<u8>)
    requires
        old(state)@.len() > 0 ==> vox_runs_fit(models(old(state)@), narrowed(samples@)),
    ensures
        old(state)@.len() == 0 ==> out@ == Seq::<u8>::empty() && final(state)@ == old(state)@,
        old(state)@.len() > 0 ==> {
            let start = models(old(state)@);
            let targets = narrowed(samples@);
            &&& out@ == packed(
                lanes_chosen(start, targets, vox_picker(), vox_stepper()),
                order is LoFirst,
            )
            &&& models(final(state)@) == lanes_track(
                start,
                targets,
                vox_picker(),
                vox_stepper(),
                targets.len() as int,
            )
        },
        final(state)@.len() == old(state)@.len(),
{
    let n: usize = samples.len();
    let mut narrow: Vec<i16> = Vec::new();
    let mut i: usize = 0;
    while i < n
        invariant
            i <= n == samples@.len(),
            narrow@.len() == i,
            forall|k: int| 0 <= k < i ==> (#[trigger] narrow@[k]) == samples@[k] as int / 16,
        decreases n - i,
    {
        let s: i64 = div_floor(samples[i] as i64, 16);
        narrow.push(s as i16);
        i = i + 1;
    }
    assert(sample_seq(narrow@) =~= narrowed(samples@));
    encode_packet_multi(narrow.as_slice(), state, order)
}

/// Encodes 12-bit samples to a packet and moves the channel. Behind an odd
/// number of samples comes a zero code.
pub fn encode_packet(samples: &[i16], state: &mut Channel, order: NibbleOrder) -> (out: Vec<u8>)
    requires
        vox_run_fits(old(state)@, sample_seq(samples@)),
    ensures
        out@ == packed(
            lanes_chosen(
                seq![old(state)@],
                sample_seq(samples@),
                vox_picker(),
                vox_stepper(),
            ),
            order is LoFirst,
        ),
        final(state)@ == lanes_track(
            seq![old(state)@],
            sample_seq(samples@),
            vox_picker(),
            vox_stepper(),
            samples@.len() as int,
        )[0],
{
    let mut one: Vec<Channel> = vec![*state];
    assert(models(one@) =~= seq![state@]);
    let out: Vec<u8> = encode_packet_multi(samples, one.as_mut_slice(), order);
    assert(models(one@)[0] == one@[0]@);
    *state = one[0];
    out
}

/// Encodes 16-bit samples to a packet, a sixteenth of each, and moves the
/// channel.
pub fn encode_packet_wide16(samples: &[i16], state: &mut Channel, order: NibbleOrder) -> (out: Vec<
    u8,
>)
    requires
        vox_run_fits(old(state)@, narrowed(samples@)),
    ensures
        out@ == packed(
            lanes_chosen(
                seq![old(state)@],
                narrowed(samples@),
                vox_picker(),
                vox_stepper(),
            ),
            order is LoFirst,
        ),
        final(state)@ == lanes_track(
            seq![old(state)@],
            narrowed(samples@),
            vox_picker(),
            vox_stepper(),
            samples@.len() as int,
        )[0],
{
    let mut one: Vec<Channel> = vec![*state];
    assert(models(one@) =~= seq![state@]);
    let out: Vec<u8> = encode_packet_multi_wide16(samples, one.as_mut_slice(), order);
    assert(models(one@)[0] == one@[0]@);
    *state = one[0];
    out
}

/// Bytes of the reset preamble.
pub const RESET_PREAMBLE_BYTES: usize = 24;

/// Samples of the reset preamble.
pub const RESET_PREAMBLE_SAMPLES: usize = 48;

/// Builds the reset preamble: the smallest move down and the smallest move up,
/// in turn.
pub fn reset_preamble(order: NibbleOrder) -> (r: [u8; 24])
    ensures
        packet_codes(r@, order is LoFirst) == preamble_codes(),
        forall|j: int| 0 <= j < 24 ==> r@[j] == (if order is LoFirst { 0x08u8 } else { 0x80u8 }),
{
    let r: [u8; 24] = match order {
        NibbleOrder::HiFirst => [0x80u8; 24],
        NibbleOrder::LoFirst => [0x08u8; 24],
    };
    assert(packet_codes(r@, order is LoFirst) =~= preamble_codes());
    r
}

/// The codes of the reset preamble.
pub open spec fn preamble_codes() -> Seq<int> {
    Seq::new(48, |m: int| if m % 2 == 0 { 8int } else { 0int })
}

/// From any valid state, the reset preamble takes the step down to the
/// smallest.
pub proof fn preamble_floors_step(s: VoxModel, m: int)
    requires
        s.valid(),
        0 <= m <= 48,
    ensures
        lanes_run(seq![s], preamble_codes(), vox_stepper(), m).len() == 1,
        lanes_run(seq![s], preamble_codes(), vox_stepper(), m)[0].valid(),
        lanes_run(seq![s], preamble_codes(), vox_stepper(), m)[0].step_index == (if s.step_index
            >= m {
            s.step_index - m
        } else {
            0
        }),
        m == 48 ==> lanes_run(
            seq![s],
            preamble_codes(),
            vox_stepper(),
            m,
        )[0].step_index == 0,
    decreases m,
{
    reveal(vox_next);
    if m > 0 {
        preamble_floors_step(s, m - 1);
        assert((m - 1) % 1 == 0);
    }
}

/// From a fresh channel, the reset preamble swings between one move down and
/// zero, and leaves the channel fresh.
pub proof fn preamble_is_neutral(m: int)
    requires
        0 <= m <= 48,
    ensures
        lanes_run(seq![fresh()], preamble_codes(), vox_stepper(), m) == seq![
            VoxModel { predictor: if m % 2 == 0 { 0 } else { -2 }, step_index: 0 },
        ],
        m == 48 ==> lanes_run(
            seq![fresh()],
            preamble_codes(),
            vox_stepper(),
            m,
        ) == seq![fresh()],
    decreases m,
{
    reveal(vox_next);
    if m > 0 {
        preamble_is_neutral(m - 1);
        assert((m - 1) % 1 == 0);
        let before = lanes_run(seq![fresh()], preamble_codes(), vox_stepper(), m - 1);
        let after = lanes_run(seq![fresh()], preamble_codes(), vox_stepper(), m);
        assert(after == before.update(
            0,
            vox_next(before[0], preamble_codes()[m - 1]),
        ));
        assert(after =~= seq![
            VoxModel { predictor: if m % 2 == 0 { 0 } else { -2 }, step_index: 0 },
        ]);
    } else {
        assert(lanes_run(seq![fresh()], preamble_codes(), vox_stepper(), 0) =~= seq![
            VoxModel { predictor: 0, step_index: 0 },
        ]);
    }
}

/// A channel count that the format does not have.
pub open spec fn channels_error(channels: u16) -> Option<Error> {
    if channels < 1 || channels > 2 {
        Some(
            Error::ChannelCount { component: Component::Dialogic, channels: channels as usize },
        )
    } else {
        None
    }
}

/// Accepts one or two channels.
pub fn validate_channels(channels: u16) -> (r: Result<(), Error>)
    ensures
        match r {
            Ok(_) => channels_error(channels) is None,
            Err(e) => channels_error(channels) == Some(e),
        },
{
    if channels < 1 || channels > 2 {
        return Err(
            Error::ChannelCount { component: Component::Dialogic, channels: channels as usize },
        );
    }
    Ok(())
}

/// Every channel is decoded from its own codes and its own state alone, as a
/// stream of one channel.
pub proof fn vox_channels_apart(states: Seq<VoxModel>, codes: Seq<int>, output: Output, ch: int)
    requires
        0 <= ch < states.len(),
    ensures
        ({
            let c = states.len() as int;
            let own = lane_of(codes, c, ch);
            &&& lane_of(vox_samples(states, codes, output), c, ch) == vox_samples(
                seq![states[ch]],
                own,
                output,
            )
            &&& lanes_run(states, codes, vox_stepper(), codes.len() as int)[ch] == lanes_run(
                seq![states[ch]],
                own,
                vox_stepper(),
                own.len() as int,
            )[0]
        }),
{
    let c = states.len() as int;
    let own = lane_of(codes, c, ch);
    let got = lane_of(vox_samples(states, codes, output), c, ch);
    let alone = vox_samples(seq![states[ch]], own, output);
    lanes_are_apart(states, codes, vox_stepper(), codes.len() as int, ch);
    assert forall|k: int| 0 <= k < own.len() implies got[k] == alone[k] by {
        lanes_out_apart(states, codes, vox_stepper(), k, ch);
    }
    assert(got =~= alone);
}

/// The sign bit mirrors the move of a code, and the step does not depend on it.
pub proof fn vox_sign_mirrors(s: VoxModel, magnitude: int)
    requires
        0 <= magnitude < 8,
    ensures
        vox_move(s, magnitude + 8) == -vox_move(s, magnitude),
        vox_next(s, magnitude + 8).step_index == vox_next(s, magnitude).step_index,
{
    reveal(vox_next);
}

} // verus!
