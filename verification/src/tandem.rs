//! Synchronous tandem coding: a log-PCM word that a G.726 decoder puts out for
//! the code of a log-PCM word is coded by that code again, so that decoding and
//! encoding over and over changes nothing any more.

use vstd::prelude::*;

use crate::arith::magnitude;
use crate::g711::{
    compressed, compressed_is_adjacent, expanded, level_magnitude_range, level_of, neighbor,
    neighbor_is_next, word_parts, Law,
};
use crate::g726::{
    antilog_of, difference_magnitude, estimate, input_code, input_code_range,
    levels_quantize_to_their_code, log_of, next_wf, ordered, output_word, reached,
    reached_range, reconstructed, scale, scale_range, top_magnitude, CodecModel, Rate,
};
use crate::stream_laws::{at_rate, switched_codes, switched_track};
use crate::words::{
    bit_length, bit_length_bounds, bit_length_limit, signed_of, two_to, two_to_monotonic,
    two_to_positive, two_to_values,
};

verus! {

/// A magnitude above zero, by the two parts of its logarithm.
proof fn log_parts(m: int) -> (r: (int, int))
    requires
        1 <= m < 32768,
    ensures
        0 <= r.0 <= 14,
        128 <= r.1 <= 255,
        r.1 == (128 * m) / two_to(r.0),
        two_to(r.0) <= m < two_to(r.0 + 1),
        log_of(m) == 128 * r.0 + r.1 - 128,
{
    two_to_values();
    bit_length_bounds(m);
    bit_length_limit(m, 15);
    let e = bit_length(m) - 1;
    if m < 2 {
        assert(bit_length(1) == 1 + bit_length(0));
    }
    let p = two_to(e);
    assert(two_to(e + 1) == 2 * p);
    assert(128 <= (128 * m) / p <= 255) by (nonlinear_arith)
        requires
            p <= m < 2 * p,
            p > 0,
    ;
    (e, (128 * m) / p)
}

/// A larger magnitude has no smaller logarithm.
proof fn log_rises(a: int, b: int)
    requires
        0 <= a <= b < 32768,
    ensures
        0 <= log_of(a) <= log_of(b) <= 1919,
{
    two_to_values();
    assert(log_of(0) == 0);
    if b >= 1 {
        let (e, q) = log_parts(b);
        if a >= 1 {
            let (d, t) = log_parts(a);
            if d > e {
                two_to_monotonic(e + 1, d);
            } else if d == e {
                two_to_positive(e);
                vstd::arithmetic::div_mod::lemma_div_is_ordered(128 * a, 128 * b, two_to(e));
            }
        }
    }
}

/// The antilogarithm of a level, by its two parts.
proof fn antilog_parts(x: int)
    requires
        0 <= x < 1920,
    ensures
        antilog_of(x) == ((128 + x % 128) * two_to(x / 128)) / 128,
        0 <= x / 128 <= 14,
        1 <= antilog_of(x) < 32768,
        two_to(x / 128) <= antilog_of(x) < two_to(x / 128 + 1),
{
    two_to_values();
    let e = x / 128;
    let p = two_to(e);
    two_to_positive(e);
    two_to_monotonic(e + 1, 15);
    let m = 128 + x % 128;
    assert(p <= (m * p) / 128 < 2 * p) by (nonlinear_arith)
        requires
            128 <= m <= 255,
            p >= 1,
    ;
}

/// The largest difference that a code can stand for.
proof fn antilog_limit(x: int)
    requires
        0 <= x <= 1846,
    ensures
        antilog_of(x) <= 23296,
{
    antilog_parts(x);
    two_to_values();
    let e = x / 128;
    if e < 14 {
        two_to_monotonic(e + 1, 14);
    }
}

/// A magnitude has a logarithm of at most `x` where the antilogarithm of `x`
/// reaches it.
proof fn log_at_most(m: int, x: int)
    requires
        0 <= x < 1920,
        0 <= m <= antilog_of(x),
    ensures
        log_of(m) <= x,
{
    antilog_parts(x);
    let a = antilog_of(x);
    log_rises(m, a);
    let (e, q) = log_parts(a);
    let k = x / 128;
    if e < k {
        two_to_monotonic(e + 1, k);
    } else if e > k {
        two_to_monotonic(k + 1, e);
    }
    let p = two_to(k);
    let n = 128 + x % 128;
    two_to_positive(k);
    assert((128 * a) / p <= n) by (nonlinear_arith)
        requires
            a == (n * p) / 128,
            p >= 1,
    ;
}

/// A magnitude has a logarithm of at least `x` where it lies beyond the
/// antilogarithm of `x`.
proof fn log_at_least(m: int, x: int)
    requires
        0 <= x < 1920,
        antilog_of(x) < m < 32768,
    ensures
        log_of(m) >= x,
{
    antilog_parts(x);
    let a = antilog_of(x);
    let (e, q) = log_parts(m);
    let k = x / 128;
    if e < k {
        two_to_monotonic(e + 1, k);
    } else if e == k {
        let p = two_to(k);
        let n = 128 + x % 128;
        two_to_positive(k);
        assert((128 * m) / p >= n) by (nonlinear_arith)
            requires
                (n * p) / 128 < m,
                p >= 1,
        ;
    }
}

/// A larger log difference reaches no lower magnitude.
proof fn reached_rises(rate: Rate, a: int, b: int, mag: int)
    requires
        a <= b,
        0 <= mag,
    ensures
        reached(rate, a, mag) <= reached(rate, b, mag),
    decreases mag,
{
    reached_range(rate, a, mag);
    if mag > 0 {
        reached_rises(rate, a, b, mag - 1);
    }
}

/// Where the code of a difference stands in the order of values.
spec fn place(rate: Rate, d: int, y: int) -> int {
    let half = rate.code_count() / 2;
    let k = reached(rate, log_of(magnitude(d)) - y, top_magnitude(rate));
    if k == 0 && rate != Rate::R16 {
        half - 1
    } else if d >= 0 {
        half + k
    } else {
        half - 1 - k
    }
}

/// The estimate of the signal is a 15-bit value.
proof fn estimate_range(s: CodecModel)
    ensures
        -16384 <= estimate(s) <= 16383,
{
    reveal(estimate);
}

/// The code of a value, by its difference from the estimate.
proof fn code_place(s: CodecModel, sl: int)
    requires
        s.wf(),
        -8064 <= sl <= 8064,
    ensures
        ordered(s.rate, input_code(s, sl)) == place(s.rate, sl - estimate(s), scale(s) / 4),
{
    reveal(input_code);
    estimate_range(s);
    scale_range(s);
    let d = sl - estimate(s);
    let w = d % 65536;
    assert(signed_of(w, 65536) == d);
    log_rises(0, magnitude(d));
    log_rises(magnitude(d), magnitude(d));
    let l = log_of(magnitude(d)) - scale(s) / 4;
    assert(signed_of(l % 4096, 4096) == l);
    reached_range(s.rate, l, top_magnitude(s.rate));
}

/// A larger difference stands no lower in the order.
proof fn place_rises(rate: Rate, a: int, b: int, y: int)
    requires
        -32768 < a <= b < 32768,
    ensures
        place(rate, a, y) <= place(rate, b, y),
{
    let top = top_magnitude(rate);
    let la = log_of(magnitude(a)) - y;
    let lb = log_of(magnitude(b)) - y;
    reached_range(rate, la, top);
    reached_range(rate, lb, top);
    if a >= 0 {
        log_rises(a, b);
        reached_rises(rate, la, lb, top);
    } else if b < 0 {
        log_rises(-b, -a);
        reached_rises(rate, lb, la, top);
    }
}

/// The difference that a code stands for: none, or the antilogarithm of a level
/// that reaches just the code's magnitude.
proof fn code_level(s: CodecModel, code: int) -> (x: int)
    requires
        s.wf(),
        0 <= code < s.rate.code_count(),
    ensures
        s.rate.level(code) == 2048 ==> difference_magnitude(s, code) == 0,
        s.rate.level(code) != 2048 ==> {
            &&& 0 <= x <= 1846
            &&& difference_magnitude(s, code) == antilog_of(x)
            &&& reached(s.rate, x - scale(s) / 4, top_magnitude(s.rate)) == s.rate.magnitude_of(
                code,
            )
        },
{
    reveal(difference_magnitude);
    scale_range(s);
    let y = scale(s) / 4;
    let level = s.rate.level(code);
    assert(0 <= level <= 566 || level == 2048 || level == 4030);
    if level != 2048 {
        levels_quantize_to_their_code(s.rate, code);
        reached_range(s.rate, signed_of(level, 4096), top_magnitude(s.rate));
    }
    signed_of(level, 4096) + y
}

/// The reconstructed signal of a value's code lies in the code's interval or
/// next to it: values beyond it stand no lower in the order than the code, and
/// values before it no higher.
proof fn reconstruction_is_near(s: CodecModel, sl: int, x: int)
    requires
        s.wf(),
        -8064 <= sl <= 8064,
        -8064 <= x <= 8064,
    ensures
        ({
            let code = input_code(s, sl);
            let r = reconstructed(s, code);
            &&& -32768 < r < 32768
            &&& x > r ==> ordered(s.rate, input_code(s, x)) >= ordered(s.rate, code)
            &&& x < r ==> ordered(s.rate, input_code(s, x)) <= ordered(s.rate, code)
        }),
{
    let code = input_code(s, sl);
    let rate = s.rate;
    let half = rate.code_count() / 2;
    let top = top_magnitude(rate);
    let y = scale(s) / 4;
    let se = estimate(s);
    let d = x - se;
    estimate_range(s);
    scale_range(s);
    input_code_range(s, sl);
    code_place(s, sl);
    code_place(s, x);
    let k = rate.magnitude_of(code);
    let l = log_of(magnitude(d)) - y;
    let v = code_level(s, code);
    let a = difference_magnitude(s, code);
    reached_range(rate, l, top);
    reached_range(rate, log_of(magnitude(sl - se)) - y, top);
    if rate.level(code) == 2048 {
        assert(code == rate.code_count() - 1 && rate != Rate::R16);
        assert(reconstructed(s, code) == se);
        assert(ordered(rate, code) == half - 1);
    } else {
        antilog_parts(v);
        antilog_limit(v);
        assert(k > 0 || rate == Rate::R16);
        if rate.sign_of(code) == 0 {
            assert(sl >= se);
            assert(reconstructed(s, code) == se + a);
            assert(ordered(rate, code) == half + k);
        } else {
            assert(sl < se);
            assert(reconstructed(s, code) == se - a);
            assert(ordered(rate, code) == half - 1 - k);
        }
        if magnitude(d) > a {
            log_at_least(magnitude(d), v);
            reached_rises(rate, v - y, l, top);
        } else {
            log_at_most(magnitude(d), v);
            reached_rises(rate, l, v - y, top);
        }
    }
}

/// The linear value of a word is within the span of the levels.
proof fn expanded_range(word: u8, law: Law)
    ensures
        -8064 <= expanded(word, law) <= 8064,
{
    word_parts(word, law);
    level_magnitude_range(level_of(word, law), law);
}

/// A word that is decoded from the code of a word, in the state that coded it,
/// has that code again.
pub proof fn word_keeps_its_code(s: CodecModel, word: u8, law: Law)
    requires
        s.wf(),
    ensures
        ({
            let code = input_code(s, expanded(word, law));
            input_code(s, expanded(output_word(s, code, law), law)) == code
        }),
{
    let code = input_code(s, expanded(word, law));
    let r = reconstructed(s, code);
    let sp = compressed(r % 65536, law);
    let here = expanded(sp, law);
    expanded_range(word, law);
    expanded_range(sp, law);
    input_code_range(s, expanded(word, law));
    input_code_range(s, here);
    reconstruction_is_near(s, expanded(word, law), here);
    let rank = ordered(s.rate, code);
    let again = ordered(s.rate, input_code(s, here));
    code_place(s, here);
    code_place(s, expanded(word, law));
    if again != rank {
        let up = again < rank;
        let moved = neighbor(sp, law, up);
        let there = expanded(moved, law);
        expanded_range(moved, law);
        input_code_range(s, there);
        estimate_range(s);
        code_place(s, there);
        let se = estimate(s);
        let y = scale(s) / 4;
        neighbor_is_next(sp, word, law);
        compressed_is_adjacent(r, moved, law);
        reconstruction_is_near(s, expanded(word, law), there);
        if up {
            if here >= expanded(word, law) {
                place_rises(s.rate, expanded(word, law) - se, here - se, y);
            }
            assert(here < there <= expanded(word, law));
            place_rises(s.rate, there - se, expanded(word, law) - se, y);
            assert(here <= r < there);
        } else {
            if here <= expanded(word, law) {
                place_rises(s.rate, here - se, expanded(word, law) - se, y);
            }
            assert(expanded(word, law) <= there < here);
            place_rises(s.rate, expanded(word, law) - se, there - se, y);
            assert(there < r <= here);
        }
        assert(ordered(s.rate, input_code(s, there)) == rank);
    }
}

/// The linear values of words.
pub open spec fn expanded_all(words: Seq<u8>, law: Law) -> Seq<int> {
    Seq::new(words.len(), |n: int| expanded(words[n], law))
}

/// The words that come out of one stage of coding and decoding, where the two
/// take a rate before each word.
pub open spec fn stage(s: CodecModel, rates: Seq<Rate>, words: Seq<u8>, law: Law) -> Seq<u8> {
    let values = expanded_all(words, law);
    Seq::new(
        words.len(),
        |n: int|
            output_word(
                at_rate(switched_track(s, rates, values, n), rates[n]),
                switched_codes(s, rates, values)[n],
                law,
            ),
    )
}

/// The states of an encoder are in order.
proof fn track_wf(s: CodecModel, rates: Seq<Rate>, targets: Seq<int>, n: int)
    requires
        s.wf(),
    ensures
        switched_track(s, rates, targets, n).wf(),
    decreases n,
{
    if n > 0 {
        track_wf(s, rates, targets, n - 1);
        let before = at_rate(switched_track(s, rates, targets, n - 1), rates[n - 1]);
        input_code_range(before, targets[n - 1]);
        next_wf(before, input_code(before, targets[n - 1]));
    }
}

/// A second stage goes through the states of the first.
proof fn stages_keep_step(s: CodecModel, rates: Seq<Rate>, words: Seq<u8>, law: Law, n: int)
    requires
        s.wf(),
        0 <= n <= words.len(),
    ensures
        switched_track(s, rates, expanded_all(stage(s, rates, words, law), law), n)
            == switched_track(s, rates, expanded_all(words, law), n),
    decreases n,
{
    if n > 0 {
        stages_keep_step(s, rates, words, law, n - 1);
        let values = expanded_all(words, law);
        track_wf(s, rates, values, n - 1);
        let before = at_rate(switched_track(s, rates, values, n - 1), rates[n - 1]);
        word_keeps_its_code(before, words[n - 1], law);
    }
}

/// Stages in tandem: a second stage that starts in the state of the first, and
/// changes rate where the first does, sends the same codes and puts out the same
/// words. So does every stage behind it.
pub proof fn tandem_is_transparent(s: CodecModel, rates: Seq<Rate>, words: Seq<u8>, law: Law)
    requires
        s.wf(),
    ensures
        switched_codes(s, rates, expanded_all(stage(s, rates, words, law), law))
            == switched_codes(s, rates, expanded_all(words, law)),
        stage(s, rates, stage(s, rates, words, law), law) == stage(s, rates, words, law),
{
    let first = stage(s, rates, words, law);
    let values = expanded_all(words, law);
    let again = expanded_all(first, law);
    assert forall|n: int| 0 <= n < words.len() implies switched_codes(s, rates, again)[n]
        == switched_codes(s, rates, values)[n] && stage(s, rates, first, law)[n] == first[n] by {
        stages_keep_step(s, rates, words, law, n);
        track_wf(s, rates, values, n);
        word_keeps_its_code(at_rate(switched_track(s, rates, values, n), rates[n]), words[n], law);
    }
    assert(switched_codes(s, rates, again) =~= switched_codes(s, rates, values));
    assert(stage(s, rates, first, law) =~= first);
}

} // verus!
