//! Interleaved buffers: element `i` of channel `ch` lies at
//! `i * channels + ch`.

use vstd::prelude::*;

use vstd::arithmetic::div_mod::{lemma_fundamental_div_mod, lemma_fundamental_div_mod_converse};

verus! {

/// The place of element `i` of channel `ch`.
pub proof fn place(i: int, ch: int, channels: int, n: int)
    requires
        0 <= i < n,
        0 <= ch < channels,
    ensures
        0 <= i * channels + ch < n * channels,
        (i * channels + ch) / channels == i,
        (i * channels + ch) % channels == ch,
{
    lemma_fundamental_div_mod_converse(i * channels + ch, channels, i, ch);
    assert(0 <= i * channels + ch < n * channels) by (nonlinear_arith)
        requires
            0 <= i < n,
            0 <= ch < channels,
    ;
}

/// Every place is that of one element of one channel.
pub proof fn owner(j: int, channels: int, n: int)
    requires
        0 <= j < n * channels,
        0 < channels,
    ensures
        0 <= j / channels < n,
        0 <= j % channels < channels,
        j == (j / channels) * channels + j % channels,
{
    lemma_fundamental_div_mod(j, channels);
    assert(0 <= j / channels < n) by (nonlinear_arith)
        requires
            0 <= j < n * channels,
            0 < channels,
    ;
    assert(j == (j / channels) * channels + j % channels) by (nonlinear_arith)
        requires
            j == channels * (j / channels) + j % channels,
    ;
}

/// `out` agrees with `want` on all of the channels before `ch` and on the
/// first `k` elements of channel `ch`.
#[verifier::opaque]
pub open spec fn filled<T>(
    out: Seq<T>,
    want: Seq<T>,
    channels: int,
    n: int,
    ch: int,
    k: int,
) -> bool {
    &&& out.len() == n * channels
    &&& want.len() == n * channels
    &&& forall|j: int|
        0 <= j < out.len() && (j % channels < ch || (j % channels == ch && j / channels < k))
            ==> out[j] == want[j]
}

/// Nothing is filled at the start.
pub proof fn fill_start<T>(out: Seq<T>, want: Seq<T>, channels: int, n: int)
    requires
        out.len() == n * channels,
        want.len() == n * channels,
        0 < channels,
    ensures
        filled(out, want, channels, n, 0, 0),
{
    reveal(filled);
    assert forall|j: int|
        0 <= j < out.len() && (j % channels < 0 || (j % channels == 0 && j / channels
            < 0)) implies out[j] == want[j] by {
        owner(j, channels, n);
    }
}

/// Writing the next element of a channel.
pub proof fn fill_step<T>(
    out: Seq<T>,
    want: Seq<T>,
    channels: int,
    n: int,
    ch: int,
    k: int,
    v: T,
)
    requires
        filled(out, want, channels, n, ch, k),
        0 <= k < n,
        0 <= ch < channels,
        v == want[k * channels + ch],
    ensures
        0 <= k * channels + ch < out.len(),
        filled(out.update(k * channels + ch, v), want, channels, n, ch, k + 1),
{
    reveal(filled);
    place(k, ch, channels, n);
    let next = out.update(k * channels + ch, v);
    assert forall|j: int|
        0 <= j < next.len() && (j % channels < ch || (j % channels == ch && j / channels < k
            + 1)) implies next[j] == want[j] by {
        owner(j, channels, n);
    }
}

/// A finished channel gives way to the next one.
pub proof fn fill_turn<T>(out: Seq<T>, want: Seq<T>, channels: int, n: int, ch: int)
    requires
        filled(out, want, channels, n, ch, n),
        0 <= ch < channels,
    ensures
        filled(out, want, channels, n, ch + 1, 0),
{
    reveal(filled);
    assert forall|j: int|
        0 <= j < out.len() && (j % channels < ch + 1 || (j % channels == ch + 1 && j / channels
            < 0)) implies out[j] == want[j] by {
        owner(j, channels, n);
    }
}

/// Behind the last channel the buffer is what was wanted.
pub proof fn fill_end<T>(out: Seq<T>, want: Seq<T>, channels: int, n: int)
    requires
        filled(out, want, channels, n, channels, 0),
        0 < channels,
    ensures
        out == want,
{
    reveal(filled);
    assert forall|j: int| 0 <= j < out.len() implies out[j] == want[j] by {
        owner(j, channels, n);
    }
    assert(out =~= want);
}

} // verus!
