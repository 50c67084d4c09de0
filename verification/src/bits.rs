//! Codes of any width, packed into bytes without gaps.
//!
//! A packed stream is a sequence of bits. Codes and bytes are both read from it
//! in one of two orders: with the most significant bit first, or with the least
//! significant bit first. The packer and the unpacker keep the bits that do not
//! make up a byte or a code yet.

use vstd::prelude::*;

use crate::words::{power_of_two, two_to, two_to_adds, two_to_monotonic, two_to_positive, two_to_values};

verus! {

/// The order of bits within bytes and codes.
#[derive(Clone, Copy, Debug, PartialEq, Eq, Structural)]
pub enum BitOrder {
    /// The most significant bit comes first.
    MsbFirst,
    /// The least significant bit comes first.
    LsbFirst,
}

impl Default for BitOrder {
    fn default() -> (r: BitOrder)
        ensures
            r == BitOrder::MsbFirst,
    {
        BitOrder::MsbFirst
    }
}

/// The lowest `n` bits of a number, in order.
pub open spec fn to_bits(v: int, n: int, order: BitOrder) -> Seq<bool>
    decreases n,
{
    if n <= 0 {
        Seq::empty()
    } else {
        match order {
            BitOrder::MsbFirst => to_bits(v / 2, n - 1, order).push(v % 2 == 1),
            BitOrder::LsbFirst => seq![v % 2 == 1] + to_bits(v / 2, n - 1, order),
        }
    }
}

/// The number that bits stand for, in order.
pub open spec fn of_bits(b: Seq<bool>, order: BitOrder) -> int
    decreases b.len(),
{
    if b.len() == 0 {
        0
    } else {
        match order {
            BitOrder::MsbFirst => 2 * of_bits(b.drop_last(), order) + (if b.last() {
                1int
            } else {
                0int
            }),
            BitOrder::LsbFirst => (if b[0] {
                1int
            } else {
                0int
            }) + 2 * of_bits(b.drop_first(), order),
        }
    }
}

/// The numbers of `w` bits each that bits begin with.
pub open spec fn pieces(b: Seq<bool>, w: int, order: BitOrder) -> Seq<u8>
    decreases b.len(),
{
    if w <= 0 || b.len() < w {
        Seq::empty()
    } else {
        seq![of_bits(b.take(w), order) as u8] + pieces(b.skip(w), w, order)
    }
}

/// The bits behind the last whole number of `w` bits.
pub open spec fn leftover(b: Seq<bool>, w: int) -> Seq<bool>
    decreases b.len(),
{
    if w <= 0 || b.len() < w {
        b
    } else {
        leftover(b.skip(w), w)
    }
}

/// The bits of a run of numbers of `w` bits each.
pub open spec fn joined(numbers: Seq<u8>, w: int, order: BitOrder) -> Seq<bool>
    decreases numbers.len(),
{
    if numbers.len() == 0 {
        Seq::empty()
    } else {
        joined(numbers.drop_last(), w, order) + to_bits(numbers.last() as int, w, order)
    }
}

/// There are as many bits as asked for.
pub proof fn to_bits_len(v: int, n: int, order: BitOrder)
    ensures
        to_bits(v, n, order).len() == (if n <= 0 { 0 } else { n }),
    decreases n,
{
    if n > 0 {
        to_bits_len(v / 2, n - 1, order);
    }
}

/// A number can be read back from its bits.
pub proof fn bits_round_trip(v: int, n: int, order: BitOrder)
    requires
        0 <= v < two_to(n),
        0 <= n,
    ensures
        of_bits(to_bits(v, n, order), order) == v,
    decreases n,
{
    to_bits_len(v, n, order);
    if n > 0 {
        bits_round_trip(v / 2, n - 1, order);
        to_bits_len(v / 2, n - 1, order);
        let b = to_bits(v, n, order);
        match order {
            BitOrder::MsbFirst => {
                assert(b.drop_last() =~= to_bits(v / 2, n - 1, order));
            },
            BitOrder::LsbFirst => {
                assert(b.drop_first() =~= to_bits(v / 2, n - 1, order));
            },
        }
    }
}

/// The number joined from two: in the first order the earlier one is worth
/// more, in the second the later one.
pub open spec fn concat_value(a: int, n: int, b: int, m: int, order: BitOrder) -> int {
    match order {
        BitOrder::MsbFirst => a * two_to(m) + b,
        BitOrder::LsbFirst => a + b * two_to(n),
    }
}

/// The bits of two numbers in a row are those of the number joined from them.
pub proof fn bits_concat(a: int, n: int, b: int, m: int, order: BitOrder)
    requires
        0 <= n,
        0 <= m,
        0 <= a < two_to(n),
        0 <= b < two_to(m),
    ensures
        to_bits(concat_value(a, n, b, m, order), n + m, order) == to_bits(a, n, order) + to_bits(
            b,
            m,
            order,
        ),
    decreases
            match order {
                BitOrder::MsbFirst => m,
                BitOrder::LsbFirst => n,
            },
{
    let v = concat_value(a, n, b, m, order);
    match order {
        BitOrder::MsbFirst => {
            if m == 0 {
                assert(a * 1 == a);
                assert(to_bits(a, n, order) + to_bits(b, 0, order) =~= to_bits(a, n, order));
            } else {
                bits_concat(a, n, b / 2, m - 1, order);
                let p = two_to(m - 1);
                let x = a * p;
                assert(a * (2 * p) == 2 * x) by (nonlinear_arith)
                    requires
                        x == a * p,
                ;
                assert(v == 2 * x + b);
                assert(v / 2 == x + b / 2 && v % 2 == b % 2);
                assert(to_bits(v, n + m, order) =~= to_bits(a, n, order) + to_bits(b, m, order));
            }
        },
        BitOrder::LsbFirst => {
            if n == 0 {
                assert(b * 1 == b);
                assert(to_bits(a, 0, order) + to_bits(b, m, order) =~= to_bits(b, m, order));
            } else {
                bits_concat(a / 2, n - 1, b, m, order);
                let p = two_to(n - 1);
                let x = b * p;
                assert(b * (2 * p) == 2 * x) by (nonlinear_arith)
                    requires
                        x == b * p,
                ;
                assert(v == a + 2 * x);
                assert(v / 2 == a / 2 + x && v % 2 == a % 2);
                assert(to_bits(v, n + m, order) =~= to_bits(a, n, order) + to_bits(b, m, order));
            }
        },
    }
}

/// What follows the last whole number is shorter than one.
pub proof fn leftover_short(b: Seq<bool>, w: int)
    requires
        w > 0,
    ensures
        leftover(b, w).len() < w,
        leftover(b, w).len() <= b.len(),
        pieces(b, w, BitOrder::MsbFirst).len() * w + leftover(b, w).len() == b.len(),
        pieces(b, w, BitOrder::LsbFirst).len() == pieces(b, w, BitOrder::MsbFirst).len(),
    decreases b.len(),
{
    if b.len() >= w {
        leftover_short(b.skip(w), w);
        let k = pieces(b.skip(w), w, BitOrder::MsbFirst).len() as int;
        assert((k + 1) * w == k * w + w) by (nonlinear_arith);
    } else {
        assert(0 * w == 0);
    }
}

/// Cutting pieces off the front of a longer run: first those of its beginning,
/// then those of what was left over there with the rest.
pub proof fn pieces_append(a: Seq<bool>, c: Seq<bool>, w: int, order: BitOrder)
    requires
        w > 0,
    ensures
        pieces(a + c, w, order) == pieces(a, w, order) + pieces(leftover(a, w) + c, w, order),
        leftover(a + c, w) == leftover(leftover(a, w) + c, w),
    decreases a.len(),
{
    if a.len() >= w {
        pieces_append(a.skip(w), c, w, order);
        assert((a + c).take(w) =~= a.take(w));
        assert((a + c).skip(w) =~= a.skip(w) + c);
        assert(pieces(a + c, w, order) =~= pieces(a, w, order) + pieces(
            leftover(a, w) + c,
            w,
            order,
        ));
    } else {
        assert(pieces(a, w, order) + pieces(a + c, w, order) =~= pieces(a + c, w, order));
    }
}

/// Joining adds at the end.
pub proof fn joined_push(numbers: Seq<u8>, last: u8, w: int, order: BitOrder)
    ensures
        joined(numbers.push(last), w, order) == joined(numbers, w, order) + to_bits(
            last as int,
            w,
            order,
        ),
{
    assert(numbers.push(last).drop_last() =~= numbers);
}

/// Two runs join one behind the other.
pub proof fn joined_append(a: Seq<u8>, b: Seq<u8>, w: int, order: BitOrder)
    ensures
        joined(a + b, w, order) == joined(a, w, order) + joined(b, w, order),
    decreases b.len(),
{
    if b.len() == 0 {
        assert(a + b =~= a);
        assert(joined(a, w, order) + joined(b, w, order) =~= joined(a, w, order));
    } else {
        joined_append(a, b.drop_last(), w, order);
        assert((a + b).drop_last() =~= a + b.drop_last());
        assert((a + b).last() == b.last());
        assert(joined(a + b, w, order) =~= joined(a, w, order) + joined(b, w, order));
    }
}

/// Products of bounded factors.
proof fn concat_bound(a: int, n: int, b: int, m: int, order: BitOrder)
    requires
        0 <= n,
        0 <= m,
        0 <= a < two_to(n),
        0 <= b < two_to(m),
    ensures
        0 <= concat_value(a, n, b, m, order) < two_to(n + m),
        0 <= a * two_to(m) < two_to(n + m),
        0 <= b * two_to(n) < two_to(n + m),
{
    two_to_adds(n, m);
    let p = two_to(n);
    let q = two_to(m);
    two_to_positive(n);
    two_to_positive(m);
    assert(0 <= a * q <= (p - 1) * q) by (nonlinear_arith)
        requires
            0 <= a <= p - 1,
            q > 0,
    ;
    assert((p - 1) * q == p * q - q) by (nonlinear_arith);
    assert(0 <= b * p <= (q - 1) * p) by (nonlinear_arith)
        requires
            0 <= b <= q - 1,
            p > 0,
    ;
    assert((q - 1) * p == p * q - p) by (nonlinear_arith);
}

/// A number of `n` bits is below the power of `n`; up to 40 bits are handled.
proof fn small_powers(n: int)
    requires
        n <= 40,
    ensures
        1 <= two_to(n) <= 0x100_0000_0000,
{
    two_to_values();
    two_to_adds(16, 16);
    two_to_adds(32, 8);
    two_to_monotonic(n, 40);
    two_to_positive(n);
}

/// Puts `m` bits behind `n` bits.
fn append(acc: u64, n: u32, v: u64, m: u32, order: BitOrder) -> (r: u64)
    requires
        n + m <= 40,
        acc < two_to(n as int),
        v < two_to(m as int),
    ensures
        r < two_to(n + m),
        to_bits(r as int, n + m, order) == to_bits(acc as int, n as int, order) + to_bits(
            v as int,
            m as int,
            order,
        ),
{
    proof {
        concat_bound(acc as int, n as int, v as int, m as int, order);
        small_powers(n + m);
        bits_concat(acc as int, n as int, v as int, m as int, order);
    }
    match order {
        BitOrder::MsbFirst => acc * power_of_two(m) + v,
        BitOrder::LsbFirst => acc + v * power_of_two(n),
    }
}

/// Takes `w` bits off the front of `n` bits.
fn split_front(acc: u64, n: u32, w: u32, order: BitOrder) -> (r: (u64, u64))
    requires
        w <= n <= 40,
        acc < two_to(n as int),
    ensures
        r.0 < two_to(w as int),
        r.1 < two_to(n - w),
        to_bits(acc as int, n as int, order) == to_bits(r.0 as int, w as int, order) + to_bits(
            r.1 as int,
            n - w,
            order,
        ),
{
    proof {
        two_to_adds(w as int, n - w);
    }
    let cut: u32 = match order {
        BitOrder::MsbFirst => n - w,
        BitOrder::LsbFirst => w,
    };
    let p: u64 = power_of_two(cut);
    let q: u64 = acc / p;
    let m: u64 = acc % p;
    proof {
        let other = two_to(n - cut);
        two_to_adds(cut as int, n - cut);
        let a = acc as int;
        let pi = p as int;
        assert(0 <= a / pi < other) by (nonlinear_arith)
            requires
                0 <= a < pi * other,
                pi > 0,
        ;
        assert(a == (a / pi) * pi + a % pi) by (nonlinear_arith)
            requires
                pi > 0,
        ;
    }
    match order {
        BitOrder::MsbFirst => {
            proof {
                bits_concat(q as int, w as int, m as int, n - w, order);
            }
            (q, m)
        },
        BitOrder::LsbFirst => {
            proof {
                bits_concat(m as int, w as int, q as int, n - w, order);
            }
            (m, q)
        },
    }
}

/// The first piece of a run that starts with a number.
proof fn first_piece(head: int, w: int, tail: Seq<bool>, order: BitOrder)
    requires
        w > 0,
        0 <= head < two_to(w),
    ensures
        pieces(to_bits(head, w, order) + tail, w, order) == seq![head as u8] + pieces(
            tail,
            w,
            order,
        ),
        leftover(to_bits(head, w, order) + tail, w) == leftover(tail, w),
{
    to_bits_len(head, w, order);
    let b = to_bits(head, w, order) + tail;
    assert(b.take(w) =~= to_bits(head, w, order));
    assert(b.skip(w) =~= tail);
    bits_round_trip(head, w, order);
}

/// Packs codes into bytes.
#[derive(Clone, Copy, Debug)]
pub struct BitPacker {
    order: BitOrder,
    acc: u32,
    nbits: u32,
}

impl BitPacker {
    /// Fewer bits are pending than make up a byte.
    pub closed spec fn wf(self) -> bool {
        &&& self.nbits < 8
        &&& self.acc < two_to(self.nbits as int)
    }

    /// The bit order.
    pub closed spec fn bit_order(self) -> BitOrder {
        self.order
    }

    /// The pending bits.
    pub closed spec fn pending(self) -> Seq<bool> {
        to_bits(self.acc as int, self.nbits as int, self.order)
    }

    /// Fewer than eight bits wait for their byte.
    pub proof fn pending_is_short(self)
        requires
            self.wf(),
        ensures
            self.pending().len() < 8,
    {
        to_bits_len(self.acc as int, self.nbits as int, self.order);
    }

    /// A packer with nothing pending.
    pub fn new(order: BitOrder) -> (r: BitPacker)
        ensures
            r.wf(),
            r.bit_order() == order,
            r.pending() == Seq::<bool>::empty(),
    {
        BitPacker { order, acc: 0, nbits: 0 }
    }

    /// Appends the lowest `bits` bits of a code and puts out the bytes that are
    /// now complete.
    pub fn push(&mut self, code: u32, bits: u8, out: &mut Vec<u8>)
        requires
            old(self).wf(),
            bits < 32,
            old(self).pending().len() + bits <= 32,
        ensures
            final(self).wf(),
            final(self).bit_order() == old(self).bit_order(),
            ({
                let order = old(self).bit_order();
                let total = old(self).pending() + to_bits(
                    code as int % two_to(bits as int),
                    bits as int,
                    order,
                );
                &&& final(self).pending() == leftover(total, 8)
                &&& final(out)@ == old(out)@ + pieces(total, 8, order)
            }),
    {
        let order: BitOrder = self.order;
        let width: u32 = bits as u32;
        proof {
            to_bits_len(self.acc as int, self.nbits as int, order);
        }
        let v: u64 = code as u64 % power_of_two(width);
        let mut acc: u64 = append(self.acc as u64, self.nbits, v, width, order);
        let mut nbits: u32 = self.nbits + width;
        let ghost total = to_bits(acc as int, nbits as int, order);
        let ghost before = out@;
        assert(before + pieces(total, 8, order) =~= out@ + pieces(total, 8, order));
        while nbits >= 8
            invariant
                nbits <= 39,
                acc < two_to(nbits as int),
                leftover(to_bits(acc as int, nbits as int, order), 8) == leftover(total, 8),
                out@ + pieces(to_bits(acc as int, nbits as int, order), 8, order) == before
                    + pieces(total, 8, order),
            decreases nbits,
        {
            let cut: (u64, u64) = split_front(acc, nbits, 8, order);
            proof {
                two_to_values();
                first_piece(
                    cut.0 as int,
                    8,
                    to_bits(cut.1 as int, nbits - 8, order),
                    order,
                );
                let tail = pieces(to_bits(cut.1 as int, nbits - 8, order), 8, order);
                assert(out@ + (seq![cut.0 as u8] + tail) =~= out@.push(cut.0 as u8) + tail);
            }
            out.push(cut.0 as u8);
            acc = cut.1;
            nbits = nbits - 8;
        }
        proof {
            two_to_values();
            two_to_monotonic(nbits as int, 7);
            to_bits_len(acc as int, nbits as int, order);
            let tail = pieces(to_bits(acc as int, nbits as int, order), 8, order);
            assert(tail =~= Seq::<u8>::empty());
            assert(out@ + tail =~= out@);
        }
        self.acc = acc as u32;
        self.nbits = nbits;
    }

    /// The number of pending bits.
    pub fn pending_bits(&self) -> (r: u32)
        requires
            self.wf(),
        ensures
            r == self.pending().len(),
            r < 8,
    {
        proof {
            to_bits_len(self.acc as int, self.nbits as int, self.order);
        }
        self.nbits
    }

    /// Puts out the pending bits in a byte of their own, filled up with zeros.
    pub fn flush(&mut self, out: &mut Vec<u8>)
        requires
            old(self).wf(),
        ensures
            final(self).wf(),
            final(self).bit_order() == old(self).bit_order(),
            final(self).pending() == Seq::<bool>::empty(),
            final(out)@ == old(out)@ + flushed(old(self).pending(), old(self).bit_order()),
    {
        proof {
            to_bits_len(self.acc as int, self.nbits as int, self.order);
            two_to_values();
        }
        if self.nbits > 0 {
            let order: BitOrder = self.order;
            let fill: u32 = 8 - self.nbits;
            let byte: u64 = append(self.acc as u64, self.nbits, 0, fill, order);
            proof {
                zero_bits(fill as int, order);
                bits_round_trip(byte as int, 8, order);
            }
            out.push(byte as u8);
        }
        self.acc = 0;
        self.nbits = 0;
        assert(out@ =~= old(out)@ + flushed(old(self).pending(), old(self).bit_order()));
    }
}

/// Zero bits.
pub open spec fn zeros(n: int) -> Seq<bool> {
    Seq::new(n as nat, |i: int| false)
}

/// The byte that pending bits are put out in, if there are any.
pub open spec fn flushed(pending: Seq<bool>, order: BitOrder) -> Seq<u8> {
    if pending.len() == 0 {
        Seq::empty()
    } else {
        seq![of_bits(pending + zeros(8 - pending.len()), order) as u8]
    }
}

/// The bits of zero.
proof fn zero_bits(n: int, order: BitOrder)
    ensures
        to_bits(0, n, order) == zeros(if n <= 0 { 0 } else { n }),
    decreases n,
{
    if n > 0 {
        zero_bits(n - 1, order);
    }
    assert(to_bits(0, n, order) =~= zeros(if n <= 0 { 0 } else { n }));
}

impl Default for BitPacker {
    fn default() -> (r: BitPacker)
        ensures
            r.wf(),
            r.bit_order() == BitOrder::MsbFirst,
            r.pending() == Seq::<bool>::empty(),
    {
        BitPacker::new(BitOrder::MsbFirst)
    }
}

/// Unpacks codes from bytes.
#[derive(Clone, Copy, Debug)]
pub struct BitUnpacker {
    order: BitOrder,
    acc: u32,
    nbits: u32,
}

impl Default for BitUnpacker {
    fn default() -> (r: BitUnpacker)
        ensures
            r.wf(),
            r.bit_order() == BitOrder::MsbFirst,
            r.pending() == Seq::<bool>::empty(),
    {
        BitUnpacker::new(BitOrder::MsbFirst)
    }
}

impl BitUnpacker {
    /// At most 24 bits are pending.
    pub closed spec fn wf(self) -> bool {
        &&& self.nbits <= 24
        &&& self.acc < two_to(self.nbits as int)
    }

    /// The bit order.
    pub closed spec fn bit_order(self) -> BitOrder {
        self.order
    }

    /// The pending bits.
    pub closed spec fn pending(self) -> Seq<bool> {
        to_bits(self.acc as int, self.nbits as int, self.order)
    }

    /// An unpacker with nothing pending.
    pub fn new(order: BitOrder) -> (r: BitUnpacker)
        ensures
            r.wf(),
            r.bit_order() == order,
            r.pending() == Seq::<bool>::empty(),
    {
        BitUnpacker { order, acc: 0, nbits: 0 }
    }

    /// Takes one byte and puts out the codes that are now complete.
    fn feed_byte(&mut self, byte: u8, width: u32, out: &mut Vec<u8>)
        requires
            old(self).wf(),
            1 <= width <= 25,
        ensures
            final(self).wf(),
            final(self).bit_order() == old(self).bit_order(),
            ({
                let order = old(self).bit_order();
                let total = old(self).pending() + to_bits(byte as int, 8, order);
                &&& final(self).pending() == leftover(total, width as int)
                &&& final(out)@ == old(out)@ + pieces(total, width as int, order)
            }),
    {
        let order: BitOrder = self.order;
        proof {
            two_to_values();
        }
        let mut acc: u64 = append(self.acc as u64, self.nbits, byte as u64, 8, order);
        let mut nbits: u32 = self.nbits + 8;
        let ghost total = to_bits(acc as int, nbits as int, order);
        let ghost before = out@;
        let ghost w = width as int;
        while nbits >= width
            invariant
                1 <= width <= 25,
                w == width,
                nbits <= 32,
                acc < two_to(nbits as int),
                leftover(to_bits(acc as int, nbits as int, order), w) == leftover(total, w),
                out@ + pieces(to_bits(acc as int, nbits as int, order), w, order) == before
                    + pieces(total, w, order),
            decreases nbits,
        {
            let cut: (u64, u64) = split_front(acc, nbits, width, order);
            proof {
                first_piece(
                    cut.0 as int,
                    w,
                    to_bits(cut.1 as int, nbits - width, order),
                    order,
                );
                let tail = pieces(to_bits(cut.1 as int, nbits - width, order), w, order);
                assert(out@ + (seq![cut.0 as u8] + tail) =~= out@.push(cut.0 as u8) + tail);
            }
            out.push(cut.0 as u8);
            acc = cut.1;
            nbits = nbits - width;
        }
        proof {
            small_powers(nbits as int);
            two_to_values();
            two_to_adds(16, 8);
            two_to_monotonic(nbits as int, 24);
            to_bits_len(acc as int, nbits as int, order);
            let tail = pieces(to_bits(acc as int, nbits as int, order), w, order);
            assert(tail =~= Seq::<u8>::empty());
            assert(out@ + tail =~= out@);
        }
        self.acc = acc as u32;
        self.nbits = nbits;
    }

    /// Takes bytes and puts out every code of `bits` bits that is now complete.
    /// Without a byte nothing changes.
    pub fn feed(&mut self, bytes: &[u8], bits: u8, out: &mut Vec<u8>)
        requires
            old(self).wf(),
            1 <= bits <= 25,
        ensures
            final(self).wf(),
            final(self).bit_order() == old(self).bit_order(),
            ({
                let order = old(self).bit_order();
                let total = old(self).pending() + joined(bytes@, 8, order);
                if bytes@.len() == 0 {
                    &&& final(self).pending() == old(self).pending()
                    &&& final(out)@ == old(out)@
                } else {
                    &&& final(self).pending() == leftover(total, bits as int)
                    &&& final(out)@ == old(out)@ + pieces(total, bits as int, order)
                }
            }),
    {
        let ghost order = self.bit_order();
        let ghost start = self.pending();
        let ghost before = out@;
        let ghost w = bits as int;
        let n: usize = bytes.len();
        if n == 0 {
            return;
        }
        proof {
            joined_push(Seq::empty(), bytes@[0], 8, order);
            assert(bytes@.take(1) =~= Seq::<u8>::empty().push(bytes@[0]));
            assert(joined(bytes@.take(1), 8, order) =~= to_bits(bytes@[0] as int, 8, order));
        }
        self.feed_byte(bytes[0], bits as u32, out);
        let mut i: usize = 1;
        while i < n
            invariant
                1 <= i <= n == bytes@.len(),
                1 <= bits <= 25,
                w == bits,
                self.wf(),
                self.bit_order() == order,
                self.pending() == leftover(start + joined(bytes@.take(i as int), 8, order), w),
                out@ == before + pieces(start + joined(bytes@.take(i as int), 8, order), w, order),
            decreases n - i,
        {
            let ghost so_far = start + joined(bytes@.take(i as int), 8, order);
            let ghost mine = to_bits(bytes@[i as int] as int, 8, order);
            proof {
                joined_push(bytes@.take(i as int), bytes@[i as int], 8, order);
                assert(bytes@.take(i + 1) =~= bytes@.take(i as int).push(bytes@[i as int]));
                pieces_append(so_far, mine, w, order);
                assert(start + joined(bytes@.take(i + 1), 8, order) =~= so_far + mine);
            }
            let ghost mid = out@;
            self.feed_byte(bytes[i], bits as u32, out);
            proof {
                let a = pieces(so_far, w, order);
                let c = pieces(leftover(so_far, w) + mine, w, order);
                assert(before + a + c =~= before + (a + c));
            }
            i = i + 1;
        }
        assert(bytes@.take(n as int) =~= bytes@);
    }

    /// The number of pending bits.
    pub fn pending_bits(&self) -> (r: u32)
        requires
            self.wf(),
        ensures
            r == self.pending().len(),
    {
        proof {
            to_bits_len(self.acc as int, self.nbits as int, self.order);
        }
        self.nbits
    }

    /// Drops the pending bits.
    pub fn reset(&mut self)
        ensures
            final(self).wf(),
            final(self).bit_order() == old(self).bit_order(),
            final(self).pending() == Seq::<bool>::empty(),
    {
        self.acc = 0;
        self.nbits = 0;
    }
}

/// Feeding two runs of bytes is feeding them joined: the same codes come out
/// and the same bits are left.
pub proof fn feed_split(pending: Seq<bool>, a: Seq<u8>, b: Seq<u8>, w: int, order: BitOrder)
    requires
        w > 0,
    ensures
        pieces(pending + joined(a + b, 8, order), w, order) == pieces(
            pending + joined(a, 8, order),
            w,
            order,
        ) + pieces(
            leftover(pending + joined(a, 8, order), w) + joined(b, 8, order),
            w,
            order,
        ),
        leftover(pending + joined(a + b, 8, order), w) == leftover(
            leftover(pending + joined(a, 8, order), w) + joined(b, 8, order),
            w,
        ),
{
    joined_append(a, b, 8, order);
    pieces_append(pending + joined(a, 8, order), joined(b, 8, order), w, order);
    assert(pending + joined(a + b, 8, order) =~= (pending + joined(a, 8, order)) + joined(
        b,
        8,
        order,
    ));
}

/// Only the lowest bits count.
pub proof fn to_bits_low(v: int, n: int, order: BitOrder)
    requires
        0 <= v,
        0 <= n,
    ensures
        to_bits(v % two_to(n), n, order) == to_bits(v, n, order),
    decreases n,
{
    two_to_positive(n);
    if n > 0 {
        let p = two_to(n - 1);
        two_to_positive(n - 1);
        let q = v % (2 * p);
        assert(q / 2 == (v / 2) % p && q % 2 == v % 2) by {
            vstd::arithmetic::div_mod::lemma_fundamental_div_mod(v, 2 * p);
            vstd::arithmetic::div_mod::lemma_mod_bound(v, 2 * p);
            let k = v / (2 * p);
            assert(v == 2 * (p * k) + q) by (nonlinear_arith)
                requires
                    v == (2 * p) * k + q,
            ;
            assert(v / 2 == p * k + q / 2);
            assert(v / 2 == k * p + q / 2) by (nonlinear_arith)
                requires
                    v / 2 == p * k + q / 2,
            ;
            vstd::arithmetic::div_mod::lemma_fundamental_div_mod_converse(v / 2, p, k, q / 2);
        }
        to_bits_low(v / 2, n - 1, order);
    }
}

/// Bits stand for a number below the power of their count.
pub proof fn of_bits_range(b: Seq<bool>, order: BitOrder)
    ensures
        0 <= of_bits(b, order) < two_to(b.len() as int),
    decreases b.len(),
{
    if b.len() > 0 {
        match order {
            BitOrder::MsbFirst => {
                of_bits_range(b.drop_last(), order);
            },
            BitOrder::LsbFirst => {
                of_bits_range(b.drop_first(), order);
            },
        }
    }
}

/// The bits of the number that bits stand for are those bits.
pub proof fn bits_of_value(b: Seq<bool>, order: BitOrder)
    ensures
        to_bits(of_bits(b, order), b.len() as int, order) == b,
    decreases b.len(),
{
    if b.len() > 0 {
        match order {
            BitOrder::MsbFirst => {
                bits_of_value(b.drop_last(), order);
                assert(b.drop_last().push(b.last()) =~= b);
            },
            BitOrder::LsbFirst => {
                bits_of_value(b.drop_first(), order);
                assert(seq![b[0]] + b.drop_first() =~= b);
            },
        }
    } else {
        assert(to_bits(of_bits(b, order), 0, order) =~= b);
    }
}

/// Pieces of at most eight bits are below the power of their width.
pub proof fn pieces_range(b: Seq<bool>, w: int, order: BitOrder, k: int)
    requires
        1 <= w <= 8,
        0 <= k < pieces(b, w, order).len(),
    ensures
        pieces(b, w, order)[k] < two_to(w),
    decreases b.len(),
{
    two_to_values();
    two_to_monotonic(w, 8);
    of_bits_range(b.take(w), order);
    if k > 0 {
        pieces_range(b.skip(w), w, order, k - 1);
    }
}

/// Pieces of at most eight bits and what is left over make up the bits again.
pub proof fn pieces_join(b: Seq<bool>, w: int, order: BitOrder)
    requires
        1 <= w <= 8,
    ensures
        joined(pieces(b, w, order), w, order) + leftover(b, w) == b,
    decreases b.len(),
{
    if b.len() >= w {
        two_to_values();
        two_to_monotonic(w, 8);
        of_bits_range(b.take(w), order);
        bits_of_value(b.take(w), order);
        pieces_join(b.skip(w), w, order);
        let head = of_bits(b.take(w), order) as u8;
        let tail = pieces(b.skip(w), w, order);
        joined_append(seq![head], tail, w, order);
        joined_push(Seq::empty(), head, w, order);
        assert(Seq::<u8>::empty().push(head) =~= seq![head]);
        assert(joined(seq![head], w, order) =~= b.take(w));
        assert(b.take(w) + (joined(tail, w, order) + leftover(b.skip(w), w)) =~= b);
        assert(joined(pieces(b, w, order), w, order) + leftover(b, w) =~= b.take(w) + (joined(
            tail,
            w,
            order,
        ) + leftover(b.skip(w), w)));
    } else {
        assert(joined(Seq::<u8>::empty(), w, order) + b =~= b);
    }
}

/// A run of joined numbers has as many bits as they are wide.
pub proof fn joined_len(numbers: Seq<u8>, w: int, order: BitOrder)
    requires
        0 <= w,
    ensures
        joined(numbers, w, order).len() == numbers.len() * w,
    decreases numbers.len(),
{
    if numbers.len() > 0 {
        joined_len(numbers.drop_last(), w, order);
        to_bits_len(numbers.last() as int, w, order);
        let k = numbers.len() - 1;
        assert((k + 1) * w == k * w + w) by (nonlinear_arith);
    } else {
        assert(0 * w == 0);
    }
}

/// Cutting a run of joined numbers at their width gives the numbers back.
pub proof fn joined_pieces(numbers: Seq<u8>, tail: Seq<bool>, w: int, order: BitOrder)
    requires
        1 <= w <= 8,
        forall|k: int| 0 <= k < numbers.len() ==> (#[trigger] numbers[k]) < two_to(w),
    ensures
        pieces(joined(numbers, w, order) + tail, w, order) == numbers + pieces(tail, w, order),
        leftover(joined(numbers, w, order) + tail, w) == leftover(tail, w),
    decreases numbers.len(),
{
    if numbers.len() == 0 {
        assert(joined(numbers, w, order) + tail =~= tail);
        assert(numbers + pieces(tail, w, order) =~= pieces(tail, w, order));
    } else {
        let front = numbers.drop_last();
        let last = numbers.last();
        assert(last == numbers[numbers.len() - 1]);
        assert forall|k: int| 0 <= k < front.len() implies (#[trigger] front[k]) < two_to(w) by {
            assert(front[k] == numbers[k]);
        }
        let mine = to_bits(last as int, w, order);
        joined_pieces(front, mine + tail, w, order);
        assert(joined(numbers, w, order) + tail =~= joined(front, w, order) + (mine + tail));
        first_piece(last as int, w, tail, order);
        assert(numbers + pieces(tail, w, order) =~= front + (seq![last] + pieces(tail, w, order)));
    }
}

/// Bytes packed from bits, the last one filled up with zeros.
pub open spec fn packed_bytes(b: Seq<bool>, order: BitOrder) -> Seq<u8> {
    pieces(b, 8, order) + flushed(leftover(b, 8), order)
}

/// The packed bytes hold the bits, then fewer than eight zeros; there are as
/// many bytes as the bits need.
pub proof fn packed_bytes_hold(b: Seq<bool>, order: BitOrder)
    ensures
        ({
            let bytes = packed_bytes(b, order);
            let fill = 8 * bytes.len() - b.len();
            &&& bytes.len() == (b.len() + 7) / 8
            &&& 0 <= fill < 8
            &&& joined(bytes, 8, order) == b + zeros(fill)
        }),
{
    let bytes = packed_bytes(b, order);
    let rest = leftover(b, 8);
    leftover_short(b, 8);
    pieces_join(b, 8, order);
    let whole = pieces(b, 8, order);
    joined_append(whole, flushed(rest, order), 8, order);
    joined_len(whole, 8, order);
    if rest.len() > 0 {
        let padded = rest + zeros(8 - rest.len());
        of_bits_range(padded, order);
        bits_of_value(padded, order);
        two_to_values();
        let byte = of_bits(padded, order) as u8;
        joined_push(Seq::empty(), byte, 8, order);
        assert(Seq::<u8>::empty().push(byte) =~= flushed(rest, order));
        assert(joined(flushed(rest, order), 8, order) =~= padded);
        assert(joined(bytes, 8, order) =~= b + zeros(8 - rest.len()));
    } else {
        assert(joined(bytes, 8, order) =~= b + zeros(0));
    }
}

/// Pieces of zero bits are zero.
pub proof fn zero_pieces(n: int, w: int, order: BitOrder, k: int)
    requires
        0 <= n,
        w > 0,
        0 <= k < pieces(zeros(n), w, order).len(),
    ensures
        pieces(zeros(n), w, order)[k] == 0,
    decreases n,
{
    if n >= w {
        zero_bits(w, order);
        two_to_positive(w);
        bits_round_trip(0, w, order);
        assert(zeros(n).take(w) =~= zeros(w));
        assert(zeros(n).skip(w) =~= zeros(n - w));
        if k > 0 {
            zero_pieces(n - w, w, order, k - 1);
        }
    }
}

} // verus!
