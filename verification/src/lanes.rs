//! Streams of codes that several channels take in turn.
//!
//! Code `m` of a stream belongs to channel `m % channels`. Every channel keeps
//! a state of its own, which only its own codes move.

use vstd::prelude::*;

use crate::arith::{high_nibble, low_nibble};

verus! {

/// The states of all channels after the first `m` codes.
pub open spec fn lanes_run<S>(
    states: Seq<S>,
    codes: Seq<int>,
    next: spec_fn(S, int) -> S,
    m: int,
) -> Seq<S>
    decreases m,
{
    if m <= 0 {
        states
    } else {
        let before = lanes_run(states, codes, next, m - 1);
        let ch = (m - 1) % states.len() as int;
        before.update(ch, next(before[ch], codes[m - 1]))
    }
}

/// The state that code `m` leaves its channel in.
pub open spec fn lanes_out<S>(
    states: Seq<S>,
    codes: Seq<int>,
    next: spec_fn(S, int) -> S,
    m: int,
) -> S {
    lanes_run(states, codes, next, m + 1)[m % states.len() as int]
}

/// The states of all channels after encoding `m` samples, each with the code
/// that `pick` gives for it.
pub open spec fn lanes_track<S>(
    states: Seq<S>,
    targets: Seq<int>,
    pick: spec_fn(S, int) -> int,
    next: spec_fn(S, int) -> S,
    m: int,
) -> Seq<S>
    decreases m,
{
    if m <= 0 {
        states
    } else {
        let before = lanes_track(states, targets, pick, next, m - 1);
        let ch = (m - 1) % states.len() as int;
        before.update(ch, next(before[ch], pick(before[ch], targets[m - 1])))
    }
}

/// The codes picked for a run of samples.
pub open spec fn lanes_chosen<S>(
    states: Seq<S>,
    targets: Seq<int>,
    pick: spec_fn(S, int) -> int,
    next: spec_fn(S, int) -> S,
) -> Seq<int> {
    Seq::new(
        targets.len(),
        |m: int|
            pick(
                lanes_track(states, targets, pick, next, m)[m % states.len() as int],
                targets[m],
            ),
    )
}

/// Every code belongs to a channel.
pub proof fn lane_range(m: int, channels: int)
    requires
        0 < channels,
    ensures
        0 <= m % channels < channels,
{
    vstd::arithmetic::div_mod::lemma_mod_bound(m, channels);
}

/// No code adds or drops a channel.
pub proof fn lanes_run_len<S>(
    states: Seq<S>,
    codes: Seq<int>,
    next: spec_fn(S, int) -> S,
    m: int,
)
    requires
        states.len() > 0,
    ensures
        lanes_run(states, codes, next, m).len() == states.len(),
    decreases m,
{
    if m > 0 {
        lane_range(m - 1, states.len() as int);
        lanes_run_len(states, codes, next, m - 1);
    }
}

/// One more code.
pub proof fn lanes_step<S>(states: Seq<S>, codes: Seq<int>, next: spec_fn(S, int) -> S, m: int)
    requires
        states.len() > 0,
        0 <= m,
    ensures
        0 <= m % (states.len() as int) < states.len(),
        lanes_run(states, codes, next, m).len() == states.len(),
        lanes_run(states, codes, next, m + 1) == lanes_run(states, codes, next, m).update(
            m % states.len() as int,
            next(lanes_run(states, codes, next, m)[m % states.len() as int], codes[m]),
        ),
        lanes_out(states, codes, next, m) == next(
            lanes_run(states, codes, next, m)[m % states.len() as int],
            codes[m],
        ),
{
    lanes_run_len(states, codes, next, m);
    lane_range(m, states.len() as int);
}

/// One more sample.
pub proof fn lanes_track_step<S>(
    states: Seq<S>,
    targets: Seq<int>,
    pick: spec_fn(S, int) -> int,
    next: spec_fn(S, int) -> S,
    m: int,
)
    requires
        states.len() > 0,
        0 <= m,
    ensures
        0 <= m % (states.len() as int) < states.len(),
        lanes_track(states, targets, pick, next, m).len() == states.len(),
        ({
            let before = lanes_track(states, targets, pick, next, m);
            let ch = m % states.len() as int;
            lanes_track(states, targets, pick, next, m + 1) == before.update(
                ch,
                next(before[ch], pick(before[ch], targets[m])),
            )
        }),
    decreases m,
{
    lane_range(m, states.len() as int);
    if m > 0 {
        lanes_track_step(states, targets, pick, next, m - 1);
    }
}

/// A property that every sample keeps holds of all channels throughout.
pub proof fn lanes_track_invariant<S>(
    states: Seq<S>,
    targets: Seq<int>,
    pick: spec_fn(S, int) -> int,
    next: spec_fn(S, int) -> S,
    inv: spec_fn(S) -> bool,
    m: int,
    ch: int,
)
    requires
        0 <= m,
        0 <= ch < states.len(),
        forall|q: int| 0 <= q < states.len() ==> inv(#[trigger] states[q]),
        forall|s: S, code: int| inv(s) ==> inv(#[trigger] next(s, code)),
    ensures
        inv(lanes_track(states, targets, pick, next, m)[ch]),
    decreases m,
{
    if m > 0 {
        lanes_track_step(states, targets, pick, next, m - 1);
        lanes_track_invariant(states, targets, pick, next, inv, m - 1, ch);
    }
}

/// The turns go round.
pub proof fn next_turn(m: int, channels: int)
    requires
        0 <= m,
        0 < channels,
    ensures
        (m + 1) % channels == (if m % channels + 1 == channels {
            0
        } else {
            m % channels + 1
        }),
{
    vstd::arithmetic::div_mod::lemma_fundamental_div_mod(m, channels);
    lane_range(m, channels);
    let q = m / channels;
    let r = m % channels;
    if r + 1 == channels {
        assert(m + 1 == (q + 1) * channels + 0) by (nonlinear_arith)
            requires
                m == channels * q + r,
                r + 1 == channels,
        ;
        vstd::arithmetic::div_mod::lemma_fundamental_div_mod_converse(m + 1, channels, q + 1, 0);
    } else {
        assert(m + 1 == q * channels + (r + 1)) by (nonlinear_arith)
            requires
                m == channels * q + r,
        ;
        vstd::arithmetic::div_mod::lemma_fundamental_div_mod_converse(m + 1, channels, q, r + 1);
    }
}

/// The states depend on no later code.
pub proof fn lanes_run_prefix<S>(
    states: Seq<S>,
    a: Seq<int>,
    b: Seq<int>,
    next: spec_fn(S, int) -> S,
    m: int,
)
    requires
        m <= a.len(),
        m <= b.len(),
        forall|q: int| 0 <= q < m ==> a[q] == b[q],
    ensures
        lanes_run(states, a, next, m) == lanes_run(states, b, next, m),
    decreases m,
{
    if m > 0 {
        lanes_run_prefix(states, a, b, next, m - 1);
    }
}

/// Cutting a stream behind a whole turn of all channels changes nothing: the
/// second part goes on where the first left off.
pub proof fn lanes_split<S>(
    states: Seq<S>,
    a: Seq<int>,
    b: Seq<int>,
    next: spec_fn(S, int) -> S,
    k: int,
)
    requires
        states.len() > 0,
        a.len() % states.len() == 0,
        0 <= k <= b.len(),
    ensures
        lanes_run(lanes_run(states, a, next, a.len() as int), b, next, k) == lanes_run(
            states,
            a + b,
            next,
            a.len() + k,
        ),
    decreases k,
{
    let n = a.len() as int;
    let c = states.len() as int;
    lanes_run_len(states, a, next, n);
    if k == 0 {
        lanes_run_prefix(states, a, a + b, next, n);
    } else {
        lanes_split(states, a, b, next, k - 1);
        same_turn(n, k - 1, c);
        assert((a + b)[n + k - 1] == b[k - 1]);
    }
}

/// An encoder's states depend only on the samples so far.
pub proof fn lanes_track_prefix<S>(
    states: Seq<S>,
    a: Seq<int>,
    b: Seq<int>,
    pick: spec_fn(S, int) -> int,
    next: spec_fn(S, int) -> S,
    m: int,
)
    requires
        m <= a.len(),
        m <= b.len(),
        forall|q: int| 0 <= q < m ==> a[q] == b[q],
    ensures
        lanes_track(states, a, pick, next, m) == lanes_track(states, b, pick, next, m),
    decreases m,
{
    if m > 0 {
        lanes_track_prefix(states, a, b, pick, next, m - 1);
    }
}

/// An encoder that is handed its samples in two parts, cut behind a whole turn
/// of all channels, goes on where it left off.
pub proof fn lanes_track_split<S>(
    states: Seq<S>,
    a: Seq<int>,
    b: Seq<int>,
    pick: spec_fn(S, int) -> int,
    next: spec_fn(S, int) -> S,
    k: int,
)
    requires
        states.len() > 0,
        a.len() % states.len() == 0,
        0 <= k <= b.len(),
    ensures
        lanes_track(
            lanes_track(states, a, pick, next, a.len() as int),
            b,
            pick,
            next,
            k,
        ) == lanes_track(states, a + b, pick, next, a.len() + k),
    decreases k,
{
    let n = a.len() as int;
    let c = states.len() as int;
    lanes_track_step(states, a, pick, next, n);
    if k == 0 {
        lanes_track_prefix(states, a, a + b, pick, next, n);
    } else {
        lanes_track_split(states, a, b, pick, next, k - 1);
        same_turn(n, k - 1, c);
        assert((a + b)[n + k - 1] == b[k - 1]);
    }
}

/// A whole number of turns later it is the same channel's turn.
pub proof fn same_turn(n: int, k: int, c: int)
    requires
        c > 0,
        n % c == 0,
    ensures
        (n + k) % c == k % c,
{
    vstd::arithmetic::div_mod::lemma_add_mod_noop(n, k, c);
    vstd::arithmetic::div_mod::lemma_mod_twice(k, c);
}

/// The codes of samples in two parts are the codes of the parts.
pub proof fn lanes_chosen_split<S>(
    states: Seq<S>,
    a: Seq<int>,
    b: Seq<int>,
    pick: spec_fn(S, int) -> int,
    next: spec_fn(S, int) -> S,
)
    requires
        states.len() > 0,
        a.len() % states.len() == 0,
    ensures
        lanes_chosen(states, a + b, pick, next) == lanes_chosen(states, a, pick, next)
            + lanes_chosen(lanes_track(states, a, pick, next, a.len() as int), b, pick, next),
{
    let n = a.len() as int;
    let c = states.len() as int;
    let middle = lanes_track(states, a, pick, next, n);
    lanes_track_step(states, a, pick, next, n);
    let whole = lanes_chosen(states, a + b, pick, next);
    let parts = lanes_chosen(states, a, pick, next) + lanes_chosen(middle, b, pick, next);
    assert forall|m: int| 0 <= m < whole.len() implies whole[m] == parts[m] by {
        if m < n {
            lanes_track_prefix(states, a + b, a, pick, next, m);
        } else {
            lanes_track_split(states, a, b, pick, next, m - n);
            same_turn(n, m - n, c);
        }
    }
    assert(whole =~= parts);
}

/// The states behind the codes of a stream in two parts are those of the
/// parts.
pub proof fn lanes_out_split<S>(
    states: Seq<S>,
    a: Seq<int>,
    b: Seq<int>,
    next: spec_fn(S, int) -> S,
    m: int,
)
    requires
        states.len() > 0,
        a.len() % states.len() == 0,
        0 <= m < a.len() + b.len(),
    ensures
        lanes_out(states, a + b, next, m) == (if m < a.len() {
            lanes_out(states, a, next, m)
        } else {
            lanes_out(lanes_run(states, a, next, a.len() as int), b, next, m - a.len())
        }),
{
    let n = a.len() as int;
    let c = states.len() as int;
    if m < n {
        lanes_run_prefix(states, a + b, a, next, m + 1);
    } else {
        lanes_run_len(states, a, next, n);
        lanes_split(states, a, b, next, m - n + 1);
        same_turn(n, m - n, c);
    }
}

/// How many of the first `m` items belong to channel `ch`.
pub open spec fn lane_len(m: int, channels: int, ch: int) -> int {
    (m - ch + channels - 1) / channels
}

/// The items of channel `ch`: those at `ch`, `ch + channels` and so on.
pub open spec fn lane_of<T>(items: Seq<T>, channels: int, ch: int) -> Seq<T> {
    Seq::new(
        lane_len(items.len() as int, channels, ch) as nat,
        |k: int| items[k * channels + ch],
    )
}

/// One more item belongs to one channel and to no other.
proof fn lane_len_step(m: int, channels: int, ch: int)
    requires
        0 <= m,
        0 <= ch < channels,
    ensures
        0 <= lane_len(m, channels, ch),
        m % channels == ch ==> lane_len(m, channels, ch) == m / channels,
        lane_len(m + 1, channels, ch) == lane_len(m, channels, ch) + (if m % channels == ch {
            1int
        } else {
            0
        }),
{
    let q = m / channels;
    let r = m % channels;
    vstd::arithmetic::div_mod::lemma_fundamental_div_mod(m, channels);
    lane_range(m, channels);
    vstd::arithmetic::mul::lemma_mul_is_commutative(channels, q);
    assert(q >= 0) by {
        vstd::arithmetic::div_mod::lemma_div_pos_is_pos(m, channels);
    }
    assert((q + 1) * channels == q * channels + channels) by (nonlinear_arith);
    let x = m - ch + channels - 1;
    if r > ch {
        vstd::arithmetic::div_mod::lemma_fundamental_div_mod_converse(
            x,
            channels,
            q + 1,
            r - ch - 1,
        );
        vstd::arithmetic::div_mod::lemma_fundamental_div_mod_converse(
            x + 1,
            channels,
            q + 1,
            r - ch,
        );
    } else {
        vstd::arithmetic::div_mod::lemma_fundamental_div_mod_converse(
            x,
            channels,
            q,
            r - ch + channels - 1,
        );
        if r == ch {
            vstd::arithmetic::div_mod::lemma_fundamental_div_mod_converse(
                x + 1,
                channels,
                q + 1,
                0,
            );
        } else {
            vstd::arithmetic::div_mod::lemma_fundamental_div_mod_converse(
                x + 1,
                channels,
                q,
                r - ch + channels,
            );
        }
    }
}

/// No item belongs to a channel twice, and none is left out.
proof fn lane_len_rises(a: int, b: int, channels: int, ch: int)
    requires
        0 <= a <= b,
        0 <= ch < channels,
    ensures
        0 <= lane_len(a, channels, ch) <= lane_len(b, channels, ch),
    decreases b - a,
{
    lane_len_step(a, channels, ch);
    if a < b {
        lane_len_rises(a + 1, b, channels, ch);
    }
}

/// A channel goes by its own codes and its own state alone: its state is that
/// of a single channel that takes just these codes.
pub proof fn lanes_are_apart<S>(
    states: Seq<S>,
    codes: Seq<int>,
    next: spec_fn(S, int) -> S,
    m: int,
    ch: int,
)
    requires
        0 <= ch < states.len(),
        0 <= m <= codes.len(),
    ensures
        ({
            let c = states.len() as int;
            lanes_run(states, codes, next, m)[ch] == lanes_run(
                seq![states[ch]],
                lane_of(codes, c, ch),
                next,
                lane_len(m, c, ch),
            )[0]
        }),
    decreases m,
{
    let c = states.len() as int;
    let own = lane_of(codes, c, ch);
    if m == 0 {
        vstd::arithmetic::div_mod::lemma_basic_div(c - 1 - ch, c);
    } else {
        let k = lane_len(m - 1, c, ch);
        lanes_are_apart(states, codes, next, m - 1, ch);
        lane_len_step(m - 1, c, ch);
        lanes_step(states, codes, next, m - 1);
        if (m - 1) % c == ch {
            lane_len_rises(m, codes.len() as int, c, ch);
            vstd::arithmetic::div_mod::lemma_fundamental_div_mod(m - 1, c);
            vstd::arithmetic::mul::lemma_mul_is_commutative(c, k);
            assert(own[k] == codes[m - 1]);
            assert(k % 1 == 0);
            lanes_step(seq![states[ch]], own, next, k);
        }
    }
}

/// What code `k` of a channel leaves behind follows from the channel's own
/// codes and its own state alone.
pub proof fn lanes_out_apart<S>(
    states: Seq<S>,
    codes: Seq<int>,
    next: spec_fn(S, int) -> S,
    k: int,
    ch: int,
)
    requires
        0 <= ch < states.len(),
        0 <= k < lane_len(codes.len() as int, states.len() as int, ch),
    ensures
        ({
            let c = states.len() as int;
            &&& 0 <= k * c + ch < codes.len()
            &&& lanes_out(states, codes, next, k * c + ch) == lanes_out(
                seq![states[ch]],
                lane_of(codes, c, ch),
                next,
                k,
            )
        }),
{
    let c = states.len() as int;
    let m = k * c + ch;
    assert(m >= 0) by (nonlinear_arith)
        requires
            k >= 0,
            c > 0,
            ch >= 0,
            m == k * c + ch,
    ;
    vstd::arithmetic::div_mod::lemma_fundamental_div_mod_converse(m, c, k, ch);
    lane_len_step(m, c, ch);
    if m >= codes.len() {
        lane_len_rises(codes.len() as int, m, c, ch);
    }
    lanes_are_apart(states, codes, next, m + 1, ch);
    assert(k % 1 == 0);
}

/// The decoder, fed with the chosen codes, walks the same states as the
/// encoder.
pub proof fn lanes_lockstep<S>(
    states: Seq<S>,
    targets: Seq<int>,
    pick: spec_fn(S, int) -> int,
    next: spec_fn(S, int) -> S,
    m: int,
)
    requires
        0 <= m <= targets.len(),
    ensures
        lanes_run(states, lanes_chosen(states, targets, pick, next), next, m) == lanes_track(
            states,
            targets,
            pick,
            next,
            m,
        ),
    decreases m,
{
    if m > 0 {
        lanes_lockstep(states, targets, pick, next, m - 1);
    }
}

/// A property that every code keeps holds of all channels throughout.
pub proof fn lanes_invariant<S>(
    states: Seq<S>,
    codes: Seq<int>,
    next: spec_fn(S, int) -> S,
    inv: spec_fn(S) -> bool,
    m: int,
    ch: int,
)
    requires
        0 <= ch < states.len(),
        forall|q: int| 0 <= q < states.len() ==> inv(#[trigger] states[q]),
        forall|s: S, code: int| inv(s) ==> inv(#[trigger] next(s, code)),
    ensures
        inv(lanes_run(states, codes, next, m)[ch]),
    decreases m,
{
    if m > 0 {
        lanes_run_len(states, codes, next, m - 1);
        lanes_invariant(states, codes, next, inv, m - 1, ch);
    }
}

/// The codes of a packet, two to a byte, the low nibble first or the high one.
pub open spec fn packet_codes(packet: Seq<u8>, low_first: bool) -> Seq<int> {
    Seq::new(
        2 * packet.len(),
        |m: int|
            if (m % 2 == 0) == low_first {
                low_nibble(packet[m / 2])
            } else {
                high_nibble(packet[m / 2])
            },
    )
}

/// Codes packed two to a byte; an odd one out is joined by a zero code.
pub open spec fn packed(codes: Seq<int>, low_first: bool) -> Seq<u8> {
    Seq::new(
        (codes.len() + 1) / 2,
        |b: int|
            {
                let first = codes[2 * b];
                let second = if 2 * b + 1 < codes.len() {
                    codes[2 * b + 1]
                } else {
                    0
                };
                if low_first {
                    (first + 16 * second) as u8
                } else {
                    (16 * first + second) as u8
                }
            },
    )
}

/// The codes of two packets in a row are those of the packets joined.
pub proof fn packet_codes_join(a: Seq<u8>, b: Seq<u8>, low_first: bool)
    ensures
        packet_codes(a + b, low_first) == packet_codes(a, low_first) + packet_codes(b, low_first),
{
    let joined = packet_codes(a + b, low_first);
    let parts = packet_codes(a, low_first) + packet_codes(b, low_first);
    assert forall|m: int| 0 <= m < joined.len() implies joined[m] == parts[m] by {
        if m < 2 * a.len() {
            assert((a + b)[m / 2] == a[m / 2]);
        } else {
            let k = m - 2 * a.len();
            assert(k / 2 == m / 2 - a.len() && k % 2 == m % 2);
            assert((a + b)[m / 2] == b[k / 2]);
        }
    }
    assert(joined =~= parts);
}

/// Codes behind whole bytes are packed into bytes of their own.
pub proof fn packed_join(a: Seq<int>, b: Seq<int>, low_first: bool)
    requires
        a.len() % 2 == 0,
    ensures
        packed(a + b, low_first) == packed(a, low_first) + packed(b, low_first),
{
    let whole = packed(a + b, low_first);
    let parts = packed(a, low_first) + packed(b, low_first);
    let half = a.len() as int / 2;
    assert forall|k: int| 0 <= k < whole.len() implies whole[k] == parts[k] by {
        if k < half {
            assert((a + b)[2 * k] == a[2 * k]);
            assert((a + b)[2 * k + 1] == a[2 * k + 1]);
        } else {
            let j = k - half;
            assert((a + b)[2 * k] == b[2 * j]);
            if 2 * k + 1 < (a + b).len() {
                assert((a + b)[2 * k + 1] == b[2 * j + 1]);
            }
        }
    }
    assert(whole =~= parts);
}

/// Unpacking gives the packed codes back, and a zero code behind an odd number
/// of them.
pub proof fn packed_round_trip(codes: Seq<int>, low_first: bool)
    requires
        forall|m: int| 0 <= m < codes.len() ==> 0 <= #[trigger] codes[m] < 16,
    ensures
        packet_codes(packed(codes, low_first), low_first) == (if codes.len() % 2 == 0 {
            codes
        } else {
            codes.push(0)
        }),
{
    let got = packet_codes(packed(codes, low_first), low_first);
    let want = if codes.len() % 2 == 0 {
        codes
    } else {
        codes.push(0)
    };
    assert(got.len() == want.len());
    assert forall|m: int| 0 <= m < got.len() implies got[m] == want[m] by {
        let b = m / 2;
        let first = codes[2 * b];
        assert(0 <= first < 16);
        if 2 * b + 1 < codes.len() {
            assert(0 <= codes[2 * b + 1] < 16);
        }
        assert(m == 2 * b || m == 2 * b + 1);
    }
    assert(got =~= want);
}

/// The codes that a buffer holds, one to a byte.
pub open spec fn code_seq(bytes: Seq<u8>) -> Seq<int> {
    Seq::new(bytes.len(), |k: int| bytes[k] as int)
}

/// Packs four-bit codes two to a byte.
pub fn pack_nibbles(codes: &Vec<u8>, low_first: bool) -> (out: Vec<u8>)
    requires
        forall|k: int| 0 <= k < codes@.len() ==> (#[trigger] codes@[k]) < 16,
    ensures
        out@ == packed(code_seq(codes@), low_first),
{
    let n: usize = codes.len();
    let ghost want = packed(code_seq(codes@), low_first);
    let mut out: Vec<u8> = Vec::new();
    let mut i: usize = 0;
    while i < n
        invariant
            i <= n == codes@.len(),
            i % 2 == 0 || i == n,
            out@.len() == (i + 1) / 2,
            want == packed(code_seq(codes@), low_first),
            out@ == want.take((i + 1) / 2),
            forall|k: int| 0 <= k < codes@.len() ==> (#[trigger] codes@[k]) < 16,
        decreases n - i,
    {
        let ghost b = i as int / 2;
        let first: u8 = codes[i];
        let mut second: u8 = 0;
        let mut step: usize = 1;
        if n - i > 1 {
            second = codes[i + 1];
            step = 2;
        }
        out.push(
            if low_first {
                first + 16 * second
            } else {
                16 * first + second
            },
        );
        proof {
            assert(2 * b == i);
            assert(out@ =~= want.take(b + 1));
        }
        i = i + step;
    }
    assert(want.take((n + 1) / 2) =~= want);
    out
}

} // verus!
