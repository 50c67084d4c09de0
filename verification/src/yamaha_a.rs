//! Yamaha ADPCM-A.
//!
//! A headerless stream of four-bit codes for one channel, the low nibble of a
//! byte first. A code moves the 12-bit sample by an odd number of eighths of
//! the step and moves the step index. The state lives on from packet to packet;
//! a state out of bounds is brought within them before it is used.

use vstd::prelude::*;

use crate::arith::{clamp, clamp_i32, div_floor, least, least_is_least, magnitude};
use crate::lanes::{
    code_seq, lanes_chosen, lanes_out, lanes_run, lanes_step, lanes_track, lanes_track_step,
    pack_nibbles, packed, packet_codes,
};
use crate::tables::{YAMAHA_A_INDEX_ADJUST, YAMAHA_A_STEP_SIZE};

verus! {

/// The state of the channel.
#[derive(Clone, Copy, Debug, PartialEq, Eq, Structural)]
pub struct Channel {
    /// The last sample, 12 bits.
    pub acc: i32,
    /// The index of the current step, `0..=48`.
    pub step_index: i32,
}

impl Default for Channel {
    fn default() -> (r: Channel)
        ensures
            r@ == fresh(),
    {
        Channel { acc: 0, step_index: 0 }
    }
}

/// The width of samples.
#[derive(Clone, Copy, Debug, PartialEq, Eq, Structural)]
pub enum Output {
    /// The 12-bit value itself.
    Native12,
    /// The 12-bit value times 16, filling 16 bits.
    Wide16,
}

/// The state of the channel, over the integers.
pub struct RhythmModel {
    pub acc: int,
    pub step_index: int,
}

impl View for Channel {
    type V = RhythmModel;

    open spec fn view(&self) -> RhythmModel {
        RhythmModel { acc: self.acc as int, step_index: self.step_index as int }
    }
}

impl RhythmModel {
    /// The sample fits 12 bits and the index is one of the table.
    pub open spec fn valid(self) -> bool {
        &&& -2048 <= self.acc <= 2047
        &&& 0 <= self.step_index <= 48
    }

    /// The nearest valid state.
    pub open spec fn bounded(self) -> RhythmModel {
        RhythmModel {
            acc: clamp(self.acc, -2048, 2047),
            step_index: clamp(self.step_index, 0, 48),
        }
    }
}

/// The state of a channel that has not taken any code.
pub open spec fn fresh() -> RhythmModel {
    RhythmModel { acc: 0, step_index: 0 }
}

/// The step of a state.
pub open spec fn rhythm_step(s: RhythmModel) -> int {
    YAMAHA_A_STEP_SIZE[s.bounded().step_index] as int
}

/// How far a magnitude moves the sample.
pub open spec fn rhythm_level(step: int, mag: int) -> int {
    (step * (2 * mag + 1)) / 8
}

/// The state behind a code.
#[verifier::opaque]
pub open spec fn rhythm_next(s: RhythmModel, code: int) -> RhythmModel {
    let b = s.bounded();
    let level = rhythm_level(rhythm_step(s), code % 8);
    RhythmModel {
        acc: clamp(
            if code >= 8 {
                b.acc - level
            } else {
                b.acc + level
            },
            -2048,
            2047,
        ),
        step_index: clamp(b.step_index + YAMAHA_A_INDEX_ADJUST[code], 0, 48),
    }
}

/// [`rhythm_next`] as a value.
pub open spec fn rhythm_stepper() -> spec_fn(RhythmModel, int) -> RhythmModel {
    |s: RhythmModel, code: int| rhythm_next(s, code)
}

/// A sample as a 12-bit one.
pub open spec fn narrowed(output: Output, sample: int) -> int {
    match output {
        Output::Native12 => clamp(sample, -2048, 2047),
        Output::Wide16 => clamp(sample / 16, -2048, 2047),
    }
}

/// A 12-bit sample at the wanted width.
pub open spec fn widened(output: Output, x: int) -> int {
    match output {
        Output::Native12 => x,
        Output::Wide16 => 16 * x,
    }
}

/// The magnitude whose move comes closest to a distance, the lower of two.
pub open spec fn rhythm_magnitude(distance: int, step: int) -> int {
    least(|mag: int| magnitude(distance - rhythm_level(step, mag)), 8)
}

/// The code of a 12-bit sample: the sign of its distance from the running
/// sample, and the magnitude whose move comes closest to the distance.
#[verifier::opaque]
pub open spec fn rhythm_code(s: RhythmModel, target: int) -> int {
    let distance = target - s.bounded().acc;
    let sign: int = if distance < 0 {
        8
    } else {
        0
    };
    sign + rhythm_magnitude(magnitude(distance), rhythm_step(s))
}

/// [`rhythm_code`] as a value.
pub open spec fn rhythm_picker() -> spec_fn(RhythmModel, int) -> int {
    |s: RhythmModel, target: int| rhythm_code(s, target)
}

/// Steps lie between 16 and 1552, and moves stay below three thousand.
proof fn rhythm_bounds(s: RhythmModel, mag: int)
    requires
        0 <= mag < 8,
    ensures
        16 <= rhythm_step(s) <= 1552,
        0 <= rhythm_step(s) * (2 * mag + 1) <= 23280,
        0 <= rhythm_level(rhythm_step(s), mag) <= 2910,
{
    let step = rhythm_step(s);
    assert(0 <= step * (2 * mag + 1) <= 23280) by (nonlinear_arith)
        requires
            16 <= step <= 1552,
            0 <= mag < 8,
    ;
}

/// Every code leads to a valid state.
pub proof fn rhythm_next_valid(s: RhythmModel, code: int)
    ensures
        rhythm_next(s, code).valid(),
{
    reveal(rhythm_next);
}

/// No magnitude comes closer to a sample than the one chosen, and no lower one
/// as close.
pub proof fn rhythm_choice_is_closest(distance: int, step: int, mag: int)
    requires
        0 <= mag < 8,
    ensures
        0 <= rhythm_magnitude(distance, step) < 8,
        magnitude(distance - rhythm_level(step, rhythm_magnitude(distance, step))) <= magnitude(
            distance - rhythm_level(step, mag),
        ),
        mag < rhythm_magnitude(distance, step) ==> magnitude(
            distance - rhythm_level(step, rhythm_magnitude(distance, step)),
        ) < magnitude(distance - rhythm_level(step, mag)),
{
    let f = |m: int| magnitude(distance - rhythm_level(step, m));
    least_is_least(f, 8);
    assert(f(mag) == magnitude(distance - rhythm_level(step, mag)));
    let best = rhythm_magnitude(distance, step);
    assert(f(best) == magnitude(distance - rhythm_level(step, best)));
}

/// Codes are four bits wide.
pub proof fn rhythm_code_range(s: RhythmModel, target: int)
    ensures
        0 <= rhythm_code(s, target) < 16,
{
    reveal(rhythm_code);
    rhythm_choice_is_closest(magnitude(target - s.bounded().acc), rhythm_step(s), 0);
}

/// The step of a state.
fn step_size(state: &Channel) -> (r: i32)
    ensures
        r == rhythm_step(state@),
        16 <= r <= 1552,
{
    proof {
        rhythm_bounds(state@, 0);
    }
    let i: i32 = clamp_i32(state.step_index, 0, 48);
    YAMAHA_A_STEP_SIZE[i as usize] as i32
}

/// How far a magnitude moves the sample.
fn level_of(step: i32, mag: u8) -> (r: i32)
    requires
        16 <= step <= 1552,
        mag < 8,
    ensures
        r == rhythm_level(step as int, mag as int),
        0 <= r <= 2910,
{
    assert(0 <= step * (2 * mag + 1) <= 23280) by (nonlinear_arith)
        requires
            16 <= step <= 1552,
            0 <= mag < 8,
    ;
    (step * (2 * mag as i32 + 1)) / 8
}

/// Expands one code: moves the channel and returns the new sample. Bits above
/// the fourth are ignored.
pub fn decode_nibble(state: &mut Channel, nibble: u8, output: Output) -> (r: i16)
    ensures
        final(state)@ == rhythm_next(old(state)@, nibble as int % 16),
        final(state)@.valid(),
        r == widened(output, final(state)@.acc),
{
    proof {
        reveal(rhythm_next);
    }
    let code: u8 = nibble % 16;
    let step: i32 = step_size(state);
    let level: i32 = level_of(step, code % 8);
    let acc: i32 = clamp_i32(state.acc, -2048, 2047);
    let index: i32 = clamp_i32(state.step_index, 0, 48);
    let moved: i32 = if code >= 8 {
        acc - level
    } else {
        acc + level
    };
    state.acc = clamp_i32(moved, -2048, 2047);
    state.step_index = clamp_i32(index + YAMAHA_A_INDEX_ADJUST[code as usize], 0, 48);
    match output {
        Output::Native12 => state.acc as i16,
        Output::Wide16 => (16 * state.acc) as i16,
    }
}

/// Quantizes one sample of the given width: moves the channel as the decoder
/// will, and returns the code with the 12-bit sample that it stands for.
pub fn encode_sample(state: &mut Channel, target: i16, output: Output) -> (r: (u8, i16))
    ensures
        r.0 < 16,
        r.0 == rhythm_code(old(state)@, narrowed(output, target as int)),
        final(state)@ == rhythm_next(old(state)@, r.0 as int),
        final(state)@.valid(),
        r.1 == final(state)@.acc,
{
    let native: i32 = match output {
        Output::Native12 => clamp_i32(target as i32, -2048, 2047),
        Output::Wide16 => {
            let sixteenth: i64 = div_floor(target as i64, 16);
            clamp_i32(sixteenth as i32, -2048, 2047)
        },
    };
    let dn: i32 = native - clamp_i32(state.acc, -2048, 2047);
    let distance: i32 = if dn < 0 {
        -dn
    } else {
        dn
    };
    let step: i32 = step_size(state);
    let best: u8 = closest_level(distance, step);
    let nibble: u8 = if dn < 0 {
        8 + best
    } else {
        best
    };
    proof {
        reveal(rhythm_code);
    }
    let sample: i16 = decode_nibble(state, nibble, Output::Native12);
    (nibble, sample)
}

/// Computes [`rhythm_magnitude`].
fn closest_level(distance: i32, step: i32) -> (best: u8)
    requires
        0 <= distance <= 4095,
        16 <= step <= 1552,
    ensures
        best < 8,
        best == rhythm_magnitude(distance as int, step as int),
{
    let ghost f = |mag: int| magnitude(distance - rhythm_level(step as int, mag));
    let mut best: u8 = 0;
    let mut best_err: i32 = gap(distance, level_of(step, 0));
    let mut m: u8 = 1;
    while m < 8
        invariant
            1 <= m <= 8,
            best < 8,
            0 <= distance <= 4095,
            16 <= step <= 1552,
            f == (|mag: int| magnitude(distance - rhythm_level(step as int, mag))),
            best == least(f, m as int),
            best_err == f(best as int),
        decreases 8 - m,
    {
        let err: i32 = gap(distance, level_of(step, m));
        assert(err == f(m as int));
        if err < best_err {
            best = m;
            best_err = err;
        }
        m = m + 1;
    }
    best
}

/// The distance between two small numbers.
fn gap(a: i32, b: i32) -> (r: i32)
    requires
        0 <= a <= 65535,
        0 <= b <= 65535,
    ensures
        r == magnitude(a - b),
{
    if a < b {
        b - a
    } else {
        a - b
    }
}

/// The decoded samples of a stream of codes.
pub open spec fn rhythm_samples(s: RhythmModel, codes: Seq<int>, output: Output) -> Seq<i16> {
    Seq::new(
        codes.len(),
        |m: int| widened(output, lanes_out(seq![s], codes, rhythm_stepper(), m).acc) as i16,
    )
}

/// Samples of the given width as 12-bit ones.
pub open spec fn targets_of(samples: Seq<i16>, output: Output) -> Seq<int> {
    Seq::new(samples.len(), |k: int| narrowed(output, samples[k] as int))
}

/// Decodes a packet and moves the channel, the first one of `state`. Without a
/// channel there are no samples.
pub fn decode_packet(packet: &[u8], state: &mut [Channel], output: Output) -> (out: Vec<i16>)
    requires
        2 * packet@.len() <= usize::MAX,
    ensures
        old(state)@.len() == 0 ==> out@ == Seq::<i16>::empty() && final(state)@ == old(state)@,
        old(state)@.len() > 0 ==> {
            let codes = packet_codes(packet@, true);
            let start = old(state)@[0]@;
            &&& out@ == rhythm_samples(start, codes, output)
            &&& final(state)@ == old(state)@.update(0, final(state)@[0])
            &&& final(state)@[0]@ == lanes_run(
                seq![start],
                codes,
                rhythm_stepper(),
                codes.len() as int,
            )[0]
        },
        final(state)@.len() == old(state)@.len(),
{
    let mut out: Vec<i16> = Vec::new();
    if state.len() == 0 {
        return out;
    }
    let mut st: Channel = state[0];
    let ghost start = seq![st@];
    let ghost codes = packet_codes(packet@, true);
    let ghost want = rhythm_samples(st@, codes, output);
    let total: usize = 2 * packet.len();
    let mut m: usize = 0;
    while m < total
        invariant
            m <= total == 2 * packet@.len(),
            start.len() == 1,
            codes == packet_codes(packet@, true),
            want == rhythm_samples(start[0], codes, output),
            start == seq![start[0]],
            out@ == want.take(m as int),
            seq![st@] == lanes_run(start, codes, rhythm_stepper(), m as int),
        decreases total - m,
    {
        let byte: u8 = packet[m / 2];
        let code: u8 = if m % 2 == 0 {
            byte % 16
        } else {
            byte / 16
        };
        assert(code == codes[m as int]);
        let ghost before = seq![st@];
        assert(before[0] == st@);
        let sample: i16 = decode_nibble(&mut st, code, output);
        out.push(sample);
        proof {
            lanes_step(start, codes, rhythm_stepper(), m as int);
            assert(m as int % 1 == 0);
            assert(before.update(0, st@) =~= seq![st@]);
            assert(want[m as int] == sample);
            assert(out@ =~= want.take(m + 1));
        }
        m = m + 1;
    }
    assert(want.take(total as int) =~= want);
    assert(seq![st@][0] == st@);
    state[0] = st;
    out
}

/// Encodes samples of the given width to a packet and moves the channel, the
/// first one of `state`. Behind an odd number of samples comes a zero code.
pub fn encode_packet(samples: &[i16], state: &mut [Channel], output: Output) -> (out: Vec<u8>)
    ensures
        old(state)@.len() == 0 ==> out@ == Seq::<u8>::empty() && final(state)@ == old(state)@,
        old(state)@.len() > 0 ==> {
            let start = seq![old(state)@[0]@];
            let targets = targets_of(samples@, output);
            &&& out@ == packed(
                lanes_chosen(start, targets, rhythm_picker(), rhythm_stepper()),
                true,
            )
            &&& final(state)@ == old(state)@.update(0, final(state)@[0])
            &&& final(state)@[0]@ == lanes_track(
                start,
                targets,
                rhythm_picker(),
                rhythm_stepper(),
                targets.len() as int,
            )[0]
        },
        final(state)@.len() == old(state)@.len(),
{
    if state.len() == 0 {
        return Vec::new();
    }
    let mut st: Channel = state[0];
    let ghost start = seq![st@];
    let ghost targets = targets_of(samples@, output);
    let ghost chosen = lanes_chosen(start, targets, rhythm_picker(), rhythm_stepper());
    let n: usize = samples.len();
    let mut codes: Vec<u8> = Vec::new();
    let mut m: usize = 0;
    while m < n
        invariant
            m <= n == samples@.len(),
            start.len() == 1,
            targets == targets_of(samples@, output),
            chosen == lanes_chosen(start, targets, rhythm_picker(), rhythm_stepper()),
            seq![st@] == lanes_track(
                start,
                targets,
                rhythm_picker(),
                rhythm_stepper(),
                m as int,
            ),
            code_seq(codes@) == chosen.take(m as int),
            forall|k: int| 0 <= k < codes@.len() ==> (#[trigger] codes@[k]) < 16,
        decreases n - m,
    {
        let ghost before = seq![st@];
        assert(before[0] == st@);
        let coded: (u8, i16) = encode_sample(&mut st, samples[m], output);
        let ghost old_codes = codes@;
        codes.push(coded.0);
        proof {
            lanes_track_step(start, targets, rhythm_picker(), rhythm_stepper(), m as int);
            assert(m as int % 1 == 0);
            assert(before.update(0, st@) =~= seq![st@]);
            assert(chosen[m as int] == coded.0);
            assert(code_seq(codes@) =~= code_seq(old_codes).push(coded.0 as int));
            assert(code_seq(codes@) =~= chosen.take(m + 1));
        }
        m = m + 1;
    }
    assert(chosen.take(n as int) =~= chosen);
    assert(seq![st@][0] == st@);
    state[0] = st;
    pack_nibbles(&codes, true)
}

/// The sign bit mirrors the move of a code, and the step does not depend on it.
pub proof fn rhythm_sign_mirrors(s: RhythmModel, mag: int)
    requires
        s.valid(),
        0 <= mag < 8,
    ensures
        rhythm_next(s, mag).acc == clamp(
            s.acc + rhythm_level(rhythm_step(s), mag),
            -2048,
            2047,
        ),
        rhythm_next(s, mag + 8).acc == clamp(
            s.acc - rhythm_level(rhythm_step(s), mag),
            -2048,
            2047,
        ),
        rhythm_next(s, mag + 8).step_index == rhythm_next(s, mag).step_index,
{
    reveal(rhythm_next);
    assert((mag + 8) % 8 == mag);
}

} // verus!
