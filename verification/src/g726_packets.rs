//! G.726 in packets: the auxiliary bytes of WAV blocks, and channels that take
//! turns.

use vstd::prelude::*;

use crate::g711::{expand_i16, expanded, Law};
use crate::g726::{
    linear_sample, next, output_word, stepper, CodecModel, Rate, State,
};
use crate::lanes::{code_seq, lanes_run, lanes_step, next_turn};

verus! {

/// The bytes of a stream that are not auxiliary ones, for a stream whose first
/// byte stands at `pos` in a block of so many bytes with the auxiliary ones in
/// front.
pub open spec fn without_aux(data: Seq<u8>, pos: int, aux: int, block: int) -> Seq<u8>
    decreases data.len(),
{
    if data.len() == 0 {
        Seq::empty()
    } else {
        let before = without_aux(data.drop_last(), pos, aux, block);
        if (pos + data.len() - 1) % block >= aux {
            before.push(data.last())
        } else {
            before
        }
    }
}

/// The place in a block behind so many bytes.
pub open spec fn place_behind(pos: int, len: int, block: int) -> int {
    (pos + len) % block
}

/// Takes the auxiliary bytes out of a part of a stream.
pub fn strip_aux(data: &[u8], pos: u128, aux: usize, block: u128) -> (r: (Vec<u8>, u128))
    requires
        pos < block,
    ensures
        r.0@ == without_aux(data@, pos as int, aux as int, block as int),
        r.1 == place_behind(pos as int, data@.len() as int, block as int),
        r.1 < block,
{
    let mut out: Vec<u8> = Vec::new();
    let mut p: u128 = pos;
    let n: usize = data.len();
    let mut i: usize = 0;
    proof {
        vstd::arithmetic::div_mod::lemma_small_mod(pos as nat, block as nat);
        assert(data@.take(0) =~= Seq::<u8>::empty());
    }
    while i < n
        invariant
            i <= n == data@.len(),
            pos < block,
            p < block,
            p == (pos + i) % block as int,
            out@ == without_aux(data@.take(i as int), pos as int, aux as int, block as int),
        decreases n - i,
    {
        proof {
            next_turn(pos + i, block as int);
            let longer = data@.take(i + 1);
            assert(longer.drop_last() =~= data@.take(i as int));
            assert(longer.last() == data@[i as int]);
        }
        if p >= aux as u128 {
            out.push(data[i]);
        }
        p = if p + 1 == block {
            0
        } else {
            p + 1
        };
        i = i + 1;
    }
    assert(data@.take(n as int) =~= data@);
    (out, p)
}

/// Steps from a place in a block lead where steps from the start lead.
proof fn place_shift(x: int, k: int, block: int)
    requires
        0 < block,
    ensures
        (x % block + k) % block == (x + k) % block,
{
    vstd::arithmetic::div_mod::lemma_add_mod_noop(x, k, block);
    vstd::arithmetic::div_mod::lemma_add_mod_noop(x % block, k, block);
    vstd::arithmetic::div_mod::lemma_mod_twice(x, block);
}

/// Where a stream is cut makes no difference to which bytes are auxiliary.
pub proof fn without_aux_split(a: Seq<u8>, b: Seq<u8>, pos: int, aux: int, block: int)
    requires
        0 <= pos,
        0 < block,
    ensures
        without_aux(a + b, pos, aux, block) == without_aux(a, pos, aux, block) + without_aux(
            b,
            place_behind(pos, a.len() as int, block),
            aux,
            block,
        ),
        place_behind(pos, (a + b).len() as int, block) == place_behind(
            place_behind(pos, a.len() as int, block),
            b.len() as int,
            block,
        ),
    decreases b.len(),
{
    let middle = place_behind(pos, a.len() as int, block);
    place_shift(pos + a.len(), b.len() as int, block);
    if b.len() == 0 {
        assert(a + b =~= a);
        assert(without_aux(a, pos, aux, block) + without_aux(b, middle, aux, block)
            =~= without_aux(a, pos, aux, block));
    } else {
        without_aux_split(a, b.drop_last(), pos, aux, block);
        assert((a + b).drop_last() =~= a + b.drop_last());
        assert((a + b).last() == b.last());
        place_shift(
            pos + a.len(),
            b.len() - 1,
            block,
        );
        let first = without_aux(a, pos, aux, block);
        let second = without_aux(b.drop_last(), middle, aux, block);
        assert(first + second.push(b.last()) =~= (first + second).push(b.last()));
    }
}

/// The states of several channels, over the integers.
pub open spec fn codec_models(states: Seq<State>) -> Seq<CodecModel> {
    Seq::new(states.len(), |ch: int| states[ch]@)
}

/// All states are in order and at one rate.
pub open spec fn all_at(states: Seq<State>, rate: Rate) -> bool {
    forall|ch: int|
        0 <= ch < states.len() ==> (#[trigger] states[ch]).wf() && states[ch].rate == rate
}

/// The sample of a code: linear, or the word of a log-PCM law as a linear one.
pub open spec fn sample_of_code(s: CodecModel, code: int, law: Option<Law>) -> int {
    match law {
        None => linear_sample(s, code),
        Some(l) => 4 * expanded(output_word(s, code, l), l),
    }
}

/// The samples of codes that the channels take in turns.
pub open spec fn g726_samples(states: Seq<CodecModel>, codes: Seq<int>, law: Option<Law>) -> Seq<
    i16,
> {
    Seq::new(
        codes.len(),
        |m: int|
            sample_of_code(
                lanes_run(states, codes, stepper(), m)[m % states.len() as int],
                codes[m],
                law,
            ) as i16,
    )
}

/// Decodes a code of channel `ch`.
fn decode_lane(states: &mut Vec<State>, ch: usize, code: u8, law: Option<Law>, Ghost(rate): Ghost<
    Rate,
>) -> (r: i16)
    requires
        ch < old(states)@.len(),
        all_at(old(states)@, rate),
        code < rate.code_count(),
    ensures
        final(states)@.len() == old(states)@.len(),
        all_at(final(states)@, rate),
        codec_models(final(states)@) == codec_models(old(states)@).update(
            ch as int,
            next(codec_models(old(states)@)[ch as int], code as int),
        ),
        r == sample_of_code(codec_models(old(states)@)[ch as int], code as int, law),
{
    let mut st: State = states[ch];
    let ghost s = st@;
    assert(old(states)@[ch as int].wf());
    assert(code as int % rate.code_count() == code);
    let sample: i16 = match law {
        None => st.decode_i16(code),
        Some(l) => expand_i16(st.decode_law(code, l), l),
    };
    assert(st@.rate == s.rate) by {
        reveal(next);
    }
    states[ch] = st;
    assert(codec_models(states@) =~= codec_models(old(states)@).update(ch as int, st@));
    sample
}

/// Decodes codes that the channels take in turns.
pub fn decode_lanes(states: &mut Vec<State>, codes: &[u8], law: Option<Law>) -> (out: Vec<i16>)
    requires
        old(states)@.len() > 0,
        all_at(old(states)@, old(states)@[0].rate),
        forall|k: int|
            0 <= k < codes@.len() ==> (#[trigger] codes@[k]) < old(states)@[0].rate.code_count(),
    ensures
        final(states)@.len() == old(states)@.len(),
        all_at(final(states)@, old(states)@[0].rate),
        ({
            let start = codec_models(old(states)@);
            let list = code_seq(codes@);
            &&& out@ == g726_samples(start, list, law)
            &&& codec_models(final(states)@) == lanes_run(
                start,
                list,
                stepper(),
                list.len() as int,
            )
        }),
{
    let ghost rate = states@[0].rate;
    let ghost start = codec_models(states@);
    let ghost list = code_seq(codes@);
    let ghost want = g726_samples(start, list, law);
    let channels: usize = states.len();
    let mut out: Vec<i16> = Vec::new();
    let n: usize = codes.len();
    let mut cursor: usize = 0;
    let mut m: usize = 0;
    assert(out@ =~= want.take(0));
    while m < n
        invariant
            m <= n == codes@.len(),
            channels == start.len() == states@.len(),
            channels > 0,
            cursor == m as int % channels as int,
            cursor < channels,
            list == code_seq(codes@),
            want == g726_samples(start, list, law),
            out@ == want.take(m as int),
            all_at(states@, rate),
            forall|k: int| 0 <= k < codes@.len() ==> (#[trigger] codes@[k]) < rate.code_count(),
            codec_models(states@) == lanes_run(start, list, stepper(), m as int),
        decreases n - m,
    {
        let code: u8 = codes[m];
        proof {
            lanes_step(start, list, stepper(), m as int);
            next_turn(m as int, channels as int);
        }
        let sample: i16 = decode_lane(states, cursor, code, law, Ghost(rate));
        out.push(sample);
        proof {
            assert(want[m as int] == sample);
            assert(out@ =~= want.take(m + 1));
        }
        cursor = if cursor + 1 == channels {
            0
        } else {
            cursor + 1
        };
        m = m + 1;
    }
    assert(want.take(n as int) =~= want);
    out
}

} // verus!
