//! What holds of the stream codecs as wholes: an encoded stream decodes along
//! the encoder's own trajectory, and where a stream is cut into packets makes
//! no difference.

use vstd::prelude::*;

use crate::arith::{clamp, magnitude};
use crate::bits::{
    feed_split, joined, joined_append, joined_len, joined_pieces, leftover, packed_bytes,
    packed_bytes_hold, pieces, pieces_append, zero_pieces, zeros, BitOrder,
};
use crate::dialogic::{self, vox_next, vox_picker, vox_samples, vox_stepper, VoxModel};
use crate::g726::{
    as_bytes, code_count_is_power, fed_codes, fed_rest, input_code, input_code_range,
    linear_sample, linear_samples, next, picker, quarters, reconstructed, stepper, CodecModel, Rate,
};
use crate::lanes::{
    code_seq, lanes_chosen, lanes_chosen_split, lanes_lockstep, lanes_out, lanes_out_split,
    lanes_run, lanes_run_len, lanes_run_prefix, lanes_split, lanes_step, lanes_track,
    lanes_track_split, packed, packed_round_trip, packet_codes, packet_codes_join,
};
use crate::yamaha::{
    yamaha_magnitude_range, yamaha_picker, yamaha_samples, yamaha_stepper, YamahaModel,
};
use crate::yamaha_a::{
    self, rhythm_code_range, rhythm_next_valid, rhythm_picker, rhythm_samples, rhythm_stepper,
    RhythmModel,
};

verus! {

/// Packing codes and unpacking them gives the codes back, with nothing but
/// zero codes behind them, fewer than eight bits of them.
pub proof fn packed_codes_round_trip(codes: Seq<u8>, rate: Rate, order: BitOrder)
    requires
        forall|k: int| 0 <= k < codes.len() ==> (#[trigger] codes[k]) < rate.code_count(),
    ensures
        ({
            let w = rate.width();
            let bytes = packed_bytes(joined(codes, w, order), order);
            let got = pieces(joined(bytes, 8, order), w, order);
            &&& bytes.len() == (codes.len() * w + 7) / 8
            &&& codes.len() <= got.len()
            &&& (got.len() - codes.len()) * w < 8
            &&& got.take(codes.len() as int) == codes
            &&& forall|k: int| codes.len() <= k < got.len() ==> got[k] == 0
        }),
{
    let w = rate.width();
    code_count_is_power(rate);
    let bits = joined(codes, w, order);
    let bytes = packed_bytes(bits, order);
    let got = pieces(joined(bytes, 8, order), w, order);
    joined_len(codes, w, order);
    packed_bytes_hold(bits, order);
    let fill = 8 * bytes.len() - bits.len();
    joined_pieces(codes, zeros(fill), w, order);
    let extra = pieces(zeros(fill), w, order);
    pieces_count(zeros(fill), w, order);
    assert(got == codes + extra);
    assert(got.take(codes.len() as int) =~= codes);
    assert forall|k: int| codes.len() <= k < got.len() implies got[k] == 0 by {
        zero_pieces(fill, w, order, k - codes.len());
    }
}

/// Bits are cut into as many pieces as they fill.
proof fn pieces_count(b: Seq<bool>, w: int, order: BitOrder)
    requires
        w > 0,
    ensures
        pieces(b, w, order).len() * w <= b.len() < (pieces(b, w, order).len() + 1) * w,
    decreases b.len(),
{
    if b.len() >= w {
        pieces_count(b.skip(w), w, order);
        let k = pieces(b.skip(w), w, order).len() as int;
        let n = pieces(b, w, order).len() as int;
        assert(n * w == k * w + w && (n + 1) * w == (k + 1) * w + w) by (nonlinear_arith)
            requires
                n == k + 1,
        ;
    } else {
        assert(0 * w == 0 && (0 + 1) * w == w) by (nonlinear_arith);
    }
}

/// A packet that nothing came before gives one sample for every whole code in
/// its bytes.
pub proof fn g726_sample_count(s: CodecModel, bytes: Seq<u8>, order: BitOrder)
    ensures
        ({
            let w = s.rate.width();
            let codes = code_seq(fed_codes(Seq::empty(), bytes, w, order));
            linear_samples(seq![s], codes).len() == (8 * bytes.len() as int) / w
        }),
{
    let w = s.rate.width();
    let bits = joined(bytes, 8, order);
    joined_len(bytes, 8, order);
    assert(Seq::<bool>::empty() + bits =~= bits);
    pieces_count(bits, w, order);
    let n = pieces(bits, w, order).len() as int;
    assert(n * w == w * n) by (nonlinear_arith);
    assert((n + 1) * w == n * w + w) by (nonlinear_arith);
    vstd::arithmetic::div_mod::lemma_fundamental_div_mod_converse(
        bits.len() as int,
        w,
        n,
        bits.len() - n * w,
    );
}

/// A decoder that is handed an encoder's codes goes through the encoder's own
/// states, so it reconstructs what the encoder tracked.
pub proof fn g726_lockstep(states: Seq<CodecModel>, targets: Seq<int>, m: int)
    requires
        0 <= m <= targets.len(),
    ensures
        lanes_run(states, lanes_chosen(states, targets, picker(), stepper()), stepper(), m)
            == lanes_track(states, targets, picker(), stepper(), m),
{
    lanes_lockstep(states, targets, picker(), stepper(), m);
}

/// A decoder in the state of the encoder, handed the encoder's code with any bits
/// above it, comes to the encoder's next state, and what it puts out is a 14-bit
/// sample that does not depend on those bits.
pub proof fn g726_high_bits_do_not_count(s: CodecModel, sl: int, high: u8)
    requires
        high as int % s.rate.code_count() == 0,
    ensures
        ({
            let code = input_code(s, sl);
            let handed = (code as u8 | high) as int % s.rate.code_count();
            let out = clamp(reconstructed(s, handed), -8192, 8191);
            &&& handed == code
            &&& next(s, handed) == next(s, code)
            &&& out == clamp(reconstructed(s, code), -8192, 8191)
            &&& -8192 <= out <= 8191
        }),
{
    input_code_range(s, sl);
    let code = input_code(s, sl) as u8;
    match s.rate {
        Rate::R16 => {
            assert(code < 4 && high % 4 == 0 ==> (code | high) % 4 == code) by (bit_vector);
        },
        Rate::R24 => {
            assert(code < 8 && high % 8 == 0 ==> (code | high) % 8 == code) by (bit_vector);
        },
        Rate::R32 => {
            assert(code < 16 && high % 16 == 0 ==> (code | high) % 16 == code) by (bit_vector);
        },
        Rate::R40 => {
            assert(code < 32 && high % 32 == 0 ==> (code | high) % 32 == code) by (bit_vector);
        },
    }
}

/// A codec with another rate and everything else unchanged.
pub open spec fn at_rate(s: CodecModel, rate: Rate) -> CodecModel {
    CodecModel { rate, ..s }
}

/// The states of an encoder that takes a rate before each sample.
pub open spec fn switched_track(
    s: CodecModel,
    rates: Seq<Rate>,
    targets: Seq<int>,
    m: int,
) -> CodecModel
    decreases m,
{
    if m <= 0 {
        s
    } else {
        let before = at_rate(switched_track(s, rates, targets, m - 1), rates[m - 1]);
        next(before, input_code(before, targets[m - 1]))
    }
}

/// The codes of an encoder that takes a rate before each sample.
pub open spec fn switched_codes(s: CodecModel, rates: Seq<Rate>, targets: Seq<int>) -> Seq<int> {
    Seq::new(
        targets.len(),
        |m: int|
            input_code(at_rate(switched_track(s, rates, targets, m), rates[m]), targets[m]),
    )
}

/// The states of a decoder that takes a rate before each code.
pub open spec fn switched_run(
    s: CodecModel,
    rates: Seq<Rate>,
    codes: Seq<int>,
    m: int,
) -> CodecModel
    decreases m,
{
    if m <= 0 {
        s
    } else {
        next(at_rate(switched_run(s, rates, codes, m - 1), rates[m - 1]), codes[m - 1])
    }
}

/// An encoder and a decoder that change rate at the same samples stay in
/// lockstep.
pub proof fn g726_rate_switch_lockstep(
    s: CodecModel,
    rates: Seq<Rate>,
    targets: Seq<int>,
    m: int,
)
    requires
        0 <= m <= targets.len(),
    ensures
        switched_run(s, rates, switched_codes(s, rates, targets), m) == switched_track(
            s,
            rates,
            targets,
            m,
        ),
    decreases m,
{
    if m > 0 {
        g726_rate_switch_lockstep(s, rates, targets, m - 1);
    }
}

/// No code changes the rate.
pub proof fn next_keeps_rate(s: CodecModel, code: int)
    ensures
        next(s, code).rate == s.rate,
{
    reveal(next);
}

/// The rate of an encoder's lane.
proof fn track_keeps_rate(s: CodecModel, targets: Seq<int>, m: int)
    requires
        0 <= m,
    ensures
        lanes_track(seq![s], targets, picker(), stepper(), m).len() == 1,
        lanes_track(seq![s], targets, picker(), stepper(), m)[0].rate == s.rate,
    decreases m,
{
    if m > 0 {
        track_keeps_rate(s, targets, m - 1);
        let before = lanes_track(seq![s], targets, picker(), stepper(), m - 1);
        assert((m - 1) % 1 == 0);
        next_keeps_rate(before[0], input_code(before[0], targets[m - 1]));
    }
}

/// What an encoder puts into bytes, a decoder that starts in the same state
/// takes out again: the encoder's codes, in the encoder's states, then only
/// padding.
pub proof fn g726_stream_round_trip(s: CodecModel, pcm: Seq<i16>, order: BitOrder)
    ensures
        ({
            let w = s.rate.width();
            let start = seq![s];
            let want = quarters(pcm);
            let chosen = lanes_chosen(start, want, picker(), stepper());
            let bytes = packed_bytes(joined(as_bytes(chosen), w, order), order);
            let got = code_seq(fed_codes(Seq::empty(), bytes, w, order));
            let out = linear_samples(start, got);
            &&& bytes.len() == (pcm.len() * w + 7) / 8
            &&& pcm.len() <= got.len()
            &&& (got.len() - pcm.len()) * w < 8
            &&& got.take(pcm.len() as int) == chosen
            &&& lanes_run(start, got, stepper(), pcm.len() as int) == lanes_track(
                start,
                want,
                picker(),
                stepper(),
                pcm.len() as int,
            )
            &&& forall|m: int| #![trigger out[m]]
                0 <= m < pcm.len() ==> out[m] == linear_sample(
                    lanes_track(start, want, picker(), stepper(), m)[0],
                    chosen[m],
                ) as i16
        }),
{
    let w = s.rate.width();
    let start = seq![s];
    let want = quarters(pcm);
    let chosen = lanes_chosen(start, want, picker(), stepper());
    let codes = as_bytes(chosen);
    let bytes = packed_bytes(joined(codes, w, order), order);
    let fed = fed_codes(Seq::empty(), bytes, w, order);
    let got = code_seq(fed);
    assert forall|k: int| 0 <= k < codes.len() implies (#[trigger] codes[k]) < s.rate.code_count()
        && codes[k] == chosen[k] by {
        track_keeps_rate(s, want, k);
        assert(k % 1 == 0);
        let here = lanes_track(start, want, picker(), stepper(), k)[0];
        input_code_range(here, want[k]);
        assert(chosen[k] == input_code(here, want[k]));
        code_count_is_power(s.rate);
    }
    packed_codes_round_trip(codes, s.rate, order);
    code_count_is_power(s.rate);
    assert(Seq::<bool>::empty() + joined(bytes, 8, order) =~= joined(bytes, 8, order));
    if bytes.len() == 0 {
        assert(joined(bytes, 8, order) =~= Seq::<bool>::empty());
        assert(pieces(joined(bytes, 8, order), w, order) =~= Seq::<u8>::empty());
    }
    assert(fed == pieces(joined(bytes, 8, order), w, order));
    assert forall|k: int| 0 <= k < pcm.len() implies got[k] == chosen[k] by {
        assert(fed.take(codes.len() as int)[k] == fed[k]);
    }
    assert(got.take(pcm.len() as int) =~= chosen);
    assert forall|m: int| 0 <= m <= pcm.len() implies #[trigger] lanes_run(
        start,
        got,
        stepper(),
        m,
    ) == lanes_track(start, want, picker(), stepper(), m) by {
        lanes_run_prefix(start, got, chosen, stepper(), m);
        lanes_lockstep(start, want, picker(), stepper(), m);
    }
    let out = linear_samples(start, got);
    assert forall|m: int| #![trigger out[m]] 0 <= m < pcm.len() implies out[m] == linear_sample(
        lanes_track(start, want, picker(), stepper(), m)[0],
        chosen[m],
    ) as i16 by {
        assert(m % 1 == 0);
        assert(lanes_run(start, got, stepper(), m) == lanes_track(
            start,
            want,
            picker(),
            stepper(),
            m,
        ));
    }
}

/// Where a G.726 stream is cut into packets makes no difference: the same
/// codes come out, the same bits wait, and the same samples are decoded.
pub proof fn g726_stream_split(
    s: CodecModel,
    pending: Seq<bool>,
    a: Seq<u8>,
    b: Seq<u8>,
    order: BitOrder,
)
    ensures
        ({
            let w = s.rate.width();
            let start = seq![s];
            let first = code_seq(fed_codes(pending, a, w, order));
            let rest = fed_rest(pending, a, w, order);
            let second = code_seq(fed_codes(rest, b, w, order));
            let whole = code_seq(fed_codes(pending, a + b, w, order));
            let middle = lanes_run(start, first, stepper(), first.len() as int);
            &&& whole == first + second
            &&& fed_rest(pending, a + b, w, order) == fed_rest(rest, b, w, order)
            &&& lanes_run(start, whole, stepper(), whole.len() as int) == lanes_run(
                middle,
                second,
                stepper(),
                second.len() as int,
            )
            &&& linear_samples(start, whole) == linear_samples(start, first) + linear_samples(
                middle,
                second,
            )
        }),
{
    let w = s.rate.width();
    let start = seq![s];
    let first = code_seq(fed_codes(pending, a, w, order));
    let rest = fed_rest(pending, a, w, order);
    let second = code_seq(fed_codes(rest, b, w, order));
    let whole = code_seq(fed_codes(pending, a + b, w, order));
    let middle = lanes_run(start, first, stepper(), first.len() as int);
    feed_split(pending, a, b, w, order);
    if a.len() == 0 {
        assert(a + b =~= b);
    } else if b.len() == 0 {
        assert(a + b =~= a);
    }
    assert(whole =~= first + second);
    vstd::arithmetic::div_mod::lemma_mod_bound(first.len() as int, 1);
    assert forall|k: int| 0 <= k <= second.len() implies #[trigger] lanes_run(
        middle,
        second,
        stepper(),
        k,
    ) == lanes_run(start, whole, stepper(), first.len() + k) by {
        lanes_split(start, first, second, stepper(), k);
    }
    let joint = linear_samples(start, first) + linear_samples(middle, second);
    lanes_run_len(start, first, stepper(), first.len() as int);
    assert forall|m: int| 0 <= m < whole.len() implies linear_samples(start, whole)[m]
        == joint[m] by {
        assert(m % 1 == 0);
        if m < first.len() {
            lanes_run_prefix(start, whole, first, stepper(), m);
        } else {
            let k = m - first.len();
            assert(k % 1 == 0);
            assert(lanes_run(middle, second, stepper(), k) == lanes_run(
                start,
                whole,
                stepper(),
                first.len() + k,
            ));
        }
    }
    assert(linear_samples(start, whole) =~= joint);
}

/// An encoder that is handed its samples in two parts gives out the same bytes
/// and keeps the same bits back.
pub proof fn g726_encode_split(
    s: CodecModel,
    pending: Seq<bool>,
    a: Seq<i16>,
    b: Seq<i16>,
    order: BitOrder,
)
    ensures
        ({
            let w = s.rate.width();
            let start = seq![s];
            let middle = lanes_track(start, quarters(a), picker(), stepper(), a.len() as int);
            let first = as_bytes(lanes_chosen(start, quarters(a), picker(), stepper()));
            let second = as_bytes(lanes_chosen(middle, quarters(b), picker(), stepper()));
            let whole = as_bytes(lanes_chosen(start, quarters(a + b), picker(), stepper()));
            let kept = leftover(pending + joined(first, w, order), 8);
            &&& whole == first + second
            &&& lanes_track(
                start,
                quarters(a + b),
                picker(),
                stepper(),
                (a + b).len() as int,
            ) == lanes_track(middle, quarters(b), picker(), stepper(), b.len() as int)
            &&& pieces(pending + joined(whole, w, order), 8, order) == pieces(
                pending + joined(first, w, order),
                8,
                order,
            ) + pieces(kept + joined(second, w, order), 8, order)
            &&& leftover(pending + joined(whole, w, order), 8) == leftover(
                kept + joined(second, w, order),
                8,
            )
        }),
{
    let w = s.rate.width();
    let start = seq![s];
    let qa = quarters(a);
    let qb = quarters(b);
    assert(quarters(a + b) =~= qa + qb);
    vstd::arithmetic::div_mod::lemma_mod_bound(qa.len() as int, 1);
    lanes_chosen_split(start, qa, qb, picker(), stepper());
    lanes_track_split(start, qa, qb, picker(), stepper(), qb.len() as int);
    let middle = lanes_track(start, qa, picker(), stepper(), a.len() as int);
    let first = as_bytes(lanes_chosen(start, qa, picker(), stepper()));
    let second = as_bytes(lanes_chosen(middle, qb, picker(), stepper()));
    let whole = as_bytes(lanes_chosen(start, qa + qb, picker(), stepper()));
    assert(whole =~= first + second);
    joined_append(first, second, w, order);
    let head = pending + joined(first, w, order);
    assert(pending + joined(whole, w, order) =~= head + joined(second, w, order));
    pieces_append(head, joined(second, w, order), 8, order);
}

/// Four-bit codes that an encoder packs come out of the packet again, in the
/// encoder's states.
proof fn nibbles_round_trip<S>(
    states: Seq<S>,
    targets: Seq<int>,
    pick: spec_fn(S, int) -> int,
    next: spec_fn(S, int) -> S,
    low_first: bool,
)
    requires
        states.len() > 0,
        forall|m: int|
            0 <= m < targets.len() ==> 0 <= #[trigger] lanes_chosen(
                states,
                targets,
                pick,
                next,
            )[m] < 16,
    ensures
        ({
            let chosen = lanes_chosen(states, targets, pick, next);
            let got = packet_codes(packed(chosen, low_first), low_first);
            &&& targets.len() <= got.len() <= targets.len() + 1
            &&& got.take(targets.len() as int) == chosen
            &&& lanes_run(states, got, next, targets.len() as int) == lanes_track(
                states,
                targets,
                pick,
                next,
                targets.len() as int,
            )
            &&& forall|m: int|
                0 <= m < targets.len() ==> #[trigger] lanes_out(states, got, next, m)
                    == lanes_track(states, targets, pick, next, m + 1)[m % states.len() as int]
        }),
{
    let chosen = lanes_chosen(states, targets, pick, next);
    let got = packet_codes(packed(chosen, low_first), low_first);
    packed_round_trip(chosen, low_first);
    assert(got.take(targets.len() as int) =~= chosen);
    assert forall|m: int| 0 <= m <= targets.len() implies #[trigger] lanes_run(
        states,
        got,
        next,
        m,
    ) == lanes_track(states, targets, pick, next, m) by {
        lanes_run_prefix(states, got, chosen, next, m);
        lanes_lockstep(states, targets, pick, next, m);
    }
}

/// What the VOX encoder puts into a packet, a decoder that starts in the same
/// states takes out again: sample by sample, the encoder's own running sample.
pub proof fn vox_round_trip(states: Seq<VoxModel>, targets: Seq<int>, low_first: bool)
    requires
        states.len() > 0,
    ensures
        ({
            let chosen = lanes_chosen(states, targets, vox_picker(), vox_stepper());
            let got = packet_codes(packed(chosen, low_first), low_first);
            &&& got.take(targets.len() as int) == chosen
            &&& lanes_run(states, got, vox_stepper(), targets.len() as int) == lanes_track(
                states,
                targets,
                vox_picker(),
                vox_stepper(),
                targets.len() as int,
            )
            &&& forall|m: int|
                0 <= m < targets.len() ==> #[trigger] lanes_out(states, got, vox_stepper(), m)
                    == lanes_track(states, targets, vox_picker(), vox_stepper(), m + 1)[m
                    % states.len() as int]
        }),
{
    nibbles_round_trip(states, targets, vox_picker(), vox_stepper(), low_first);
}

/// What the ADPCM-B encoder puts into a packet, a decoder that starts in the
/// same states takes out again: sample by sample, the encoder's own running
/// sample.
pub proof fn yamaha_round_trip(states: Seq<YamahaModel>, targets: Seq<int>)
    requires
        states.len() > 0,
    ensures
        ({
            let chosen = lanes_chosen(states, targets, yamaha_picker(), yamaha_stepper());
            let got = packet_codes(packed(chosen, true), true);
            &&& got.take(targets.len() as int) == chosen
            &&& lanes_run(states, got, yamaha_stepper(), targets.len() as int) == lanes_track(
                states,
                targets,
                yamaha_picker(),
                yamaha_stepper(),
                targets.len() as int,
            )
            &&& forall|m: int|
                0 <= m < targets.len() ==> #[trigger] lanes_out(
                    states,
                    got,
                    yamaha_stepper(),
                    m,
                ) == lanes_track(
                    states,
                    targets,
                    yamaha_picker(),
                    yamaha_stepper(),
                    m + 1,
                )[m % states.len() as int]
        }),
{
    let chosen = lanes_chosen(states, targets, yamaha_picker(), yamaha_stepper());
    assert forall|m: int| 0 <= m < targets.len() implies 0 <= #[trigger] chosen[m] < 16 by {
        let here = lanes_track(states, targets, yamaha_picker(), yamaha_stepper(), m)[m
            % states.len() as int];
        yamaha_magnitude_range(magnitude(targets[m] - here.predictor), here.step, 7);
    }
    nibbles_round_trip(states, targets, yamaha_picker(), yamaha_stepper(), true);
}

/// What the ADPCM-A encoder puts into a packet, a decoder that starts in the
/// same state takes out again: sample by sample, the encoder's own running
/// sample.
pub proof fn rhythm_round_trip(s: RhythmModel, targets: Seq<int>)
    ensures
        ({
            let start = seq![s];
            let chosen = lanes_chosen(start, targets, rhythm_picker(), rhythm_stepper());
            let got = packet_codes(packed(chosen, true), true);
            &&& got.take(targets.len() as int) == chosen
            &&& lanes_run(start, got, rhythm_stepper(), targets.len() as int) == lanes_track(
                start,
                targets,
                rhythm_picker(),
                rhythm_stepper(),
                targets.len() as int,
            )
            &&& forall|m: int|
                0 <= m < targets.len() ==> #[trigger] lanes_out(start, got, rhythm_stepper(), m)
                    == lanes_track(start, targets, rhythm_picker(), rhythm_stepper(), m + 1)[m % 1]
        }),
{
    let start = seq![s];
    let chosen = lanes_chosen(start, targets, rhythm_picker(), rhythm_stepper());
    assert forall|m: int| 0 <= m < targets.len() implies 0 <= #[trigger] chosen[m] < 16 by {
        let here = lanes_track(start, targets, rhythm_picker(), rhythm_stepper(), m)[m % 1];
        rhythm_code_range(here, targets[m]);
    }
    nibbles_round_trip(start, targets, rhythm_picker(), rhythm_stepper(), true);
}

/// Where a VOX stream is cut into packets makes no difference, as long as each
/// channel has had its turn equally often.
pub proof fn vox_split(
    states: Seq<VoxModel>,
    a: Seq<u8>,
    b: Seq<u8>,
    low_first: bool,
    output: dialogic::Output,
)
    requires
        states.len() > 0,
        2 * a.len() % states.len() == 0,
    ensures
        ({
            let first = packet_codes(a, low_first);
            let second = packet_codes(b, low_first);
            let whole = packet_codes(a + b, low_first);
            let middle = lanes_run(states, first, vox_stepper(), first.len() as int);
            &&& lanes_run(states, whole, vox_stepper(), whole.len() as int) == lanes_run(
                middle,
                second,
                vox_stepper(),
                second.len() as int,
            )
            &&& vox_samples(states, whole, output) == vox_samples(states, first, output)
                + vox_samples(middle, second, output)
        }),
{
    let first = packet_codes(a, low_first);
    let second = packet_codes(b, low_first);
    let whole = packet_codes(a + b, low_first);
    let middle = lanes_run(states, first, vox_stepper(), first.len() as int);
    packet_codes_join(a, b, low_first);
    lanes_split(states, first, second, vox_stepper(), second.len() as int);
    let parts = vox_samples(states, first, output) + vox_samples(middle, second, output);
    assert forall|m: int| 0 <= m < whole.len() implies vox_samples(states, whole, output)[m]
        == parts[m] by {
        lanes_out_split(states, first, second, vox_stepper(), m);
    }
    assert(vox_samples(states, whole, output) =~= parts);
}

/// Where an ADPCM-B stream is cut into packets makes no difference, as long as
/// each channel has had its turn equally often.
pub proof fn yamaha_split(states: Seq<YamahaModel>, a: Seq<u8>, b: Seq<u8>)
    requires
        states.len() > 0,
        2 * a.len() % states.len() == 0,
    ensures
        ({
            let first = packet_codes(a, true);
            let second = packet_codes(b, true);
            let whole = packet_codes(a + b, true);
            let middle = lanes_run(states, first, yamaha_stepper(), first.len() as int);
            &&& lanes_run(states, whole, yamaha_stepper(), whole.len() as int) == lanes_run(
                middle,
                second,
                yamaha_stepper(),
                second.len() as int,
            )
            &&& yamaha_samples(states, whole) == yamaha_samples(states, first) + yamaha_samples(
                middle,
                second,
            )
        }),
{
    let first = packet_codes(a, true);
    let second = packet_codes(b, true);
    let whole = packet_codes(a + b, true);
    let middle = lanes_run(states, first, yamaha_stepper(), first.len() as int);
    packet_codes_join(a, b, true);
    lanes_split(states, first, second, yamaha_stepper(), second.len() as int);
    let parts = yamaha_samples(states, first) + yamaha_samples(middle, second);
    assert forall|m: int| 0 <= m < whole.len() implies yamaha_samples(states, whole)[m]
        == parts[m] by {
        lanes_out_split(states, first, second, yamaha_stepper(), m);
    }
    assert(yamaha_samples(states, whole) =~= parts);
}

/// Where an ADPCM-A stream is cut into packets makes no difference.
pub proof fn rhythm_split(s: RhythmModel, a: Seq<u8>, b: Seq<u8>, output: yamaha_a::Output)
    ensures
        ({
            let start = seq![s];
            let first = packet_codes(a, true);
            let second = packet_codes(b, true);
            let whole = packet_codes(a + b, true);
            let middle = lanes_run(start, first, rhythm_stepper(), first.len() as int);
            &&& lanes_run(start, whole, rhythm_stepper(), whole.len() as int) == lanes_run(
                middle,
                second,
                rhythm_stepper(),
                second.len() as int,
            )
            &&& rhythm_samples(s, whole, output) == rhythm_samples(s, first, output)
                + rhythm_samples(middle[0], second, output)
        }),
{
    let start = seq![s];
    let first = packet_codes(a, true);
    let second = packet_codes(b, true);
    let whole = packet_codes(a + b, true);
    let middle = lanes_run(start, first, rhythm_stepper(), first.len() as int);
    packet_codes_join(a, b, true);
    vstd::arithmetic::div_mod::lemma_mod_bound(first.len() as int, 1);
    lanes_split(start, first, second, rhythm_stepper(), second.len() as int);
    lanes_run_len(start, first, rhythm_stepper(), first.len() as int);
    assert(middle =~= seq![middle[0]]);
    let parts = rhythm_samples(s, first, output) + rhythm_samples(middle[0], second, output);
    assert forall|m: int| 0 <= m < whole.len() implies rhythm_samples(s, whole, output)[m]
        == parts[m] by {
        lanes_out_split(start, first, second, rhythm_stepper(), m);
    }
    assert(rhythm_samples(s, whole, output) =~= parts);
}

/// A 16-bit VOX sample is sixteen times the 12-bit one.
pub proof fn vox_wide_is_sixteenfold(states: Seq<VoxModel>, codes: Seq<int>, m: int)
    requires
        states.len() > 0,
        0 <= m < codes.len(),
    ensures
        vox_samples(states, codes, dialogic::Output::Wide16)[m] == 16 * vox_samples(
            states,
            codes,
            dialogic::Output::Native12,
        )[m],
{
    lanes_step(states, codes, vox_stepper(), m);
    reveal(vox_next);
}

/// A 16-bit ADPCM-A sample is sixteen times the 12-bit one.
pub proof fn rhythm_wide_is_sixteenfold(s: RhythmModel, codes: Seq<int>, m: int)
    requires
        0 <= m < codes.len(),
    ensures
        rhythm_samples(s, codes, yamaha_a::Output::Wide16)[m] == 16 * rhythm_samples(
            s,
            codes,
            yamaha_a::Output::Native12,
        )[m],
{
    lanes_step(seq![s], codes, rhythm_stepper(), m);
    rhythm_next_valid(lanes_run(seq![s], codes, rhythm_stepper(), m)[m % 1], codes[m]);
}

} // verus!
