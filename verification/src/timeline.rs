//! The packets of a block encoder over its whole life.
//!
//! Whatever comes in and whenever packets are taken out, packet number `k` is
//! stamped with `k` times the samples per channel of a block, and the end of the
//! stream leaves no sample behind.

use vstd::prelude::*;

use crate::frame_encoder::{
    drained, drained_counts, fed, finished, finished_counts, flushed, fresh_feed, padded, sizeable,
    turns_left, unit_bounds, whole_blocks_can_be_made, BlockFormat, FeedModel, PacketModel,
};
use crate::options::Quantizer;
use crate::pcm::{bytes_pcm, pcm_error};

verus! {

/// What is done with an encoder.
pub enum Deed {
    /// A frame comes in.
    Frame(Seq<u8>),
    /// The first packet that waits is taken, if there is one.
    Take,
    /// The stream ends.
    End,
}

/// The encoder behind a deed, and the packet that was taken.
pub open spec fn behind_deed(m: FeedModel, deed: Deed) -> (FeedModel, Seq<PacketModel>) {
    match deed {
        Deed::Frame(bytes) => (fed(m, bytes).0, Seq::empty()),
        Deed::Take => if m.pending.len() > 0 {
            (FeedModel { pending: m.pending.skip(1), ..m }, seq![m.pending[0]])
        } else {
            (m, Seq::empty())
        },
        Deed::End => (flushed(m).0, Seq::empty()),
    }
}

/// The encoder behind deeds, and the packets that were taken.
pub open spec fn life(m: FeedModel, deeds: Seq<Deed>) -> (FeedModel, Seq<PacketModel>)
    decreases deeds.len(),
{
    if deeds.len() == 0 {
        (m, Seq::empty())
    } else {
        let (before, taken) = life(m, deeds.drop_last());
        let (after, more) = behind_deed(before, deeds.last());
        (after, taken + more)
    }
}

/// All packets of an encoder's life: those that were taken, then those that
/// wait.
pub open spec fn all_packets(m: FeedModel, deeds: Seq<Deed>) -> Seq<PacketModel> {
    life(m, deeds).1 + life(m, deeds).0.pending
}

/// The bytes of a packet.
pub open spec fn packet_bytes(m: FeedModel) -> int {
    if m.format == BlockFormat::ImaQt {
        34 * m.channels
    } else {
        m.block_size
    }
}

/// Packets stamped in steps of a block, the first of them with so many samples
/// per channel before it.
pub open spec fn stamped(m: FeedModel, packets: Seq<PacketModel>, first: int) -> bool {
    forall|k: int|
        0 <= k < packets.len() ==> {
            &&& (#[trigger] packets[k]).pts == first + k * m.per_block()
            &&& packets[k].ticks == m.ticks
            &&& packets[k].data.len() == packet_bytes(m)
        }
}

/// Nothing about the blocks of two encoders differs.
pub open spec fn same_blocks(m: FeedModel, n: FeedModel) -> bool {
    &&& m.format == n.format
    &&& m.channels == n.channels
    &&& m.block_size == n.block_size
    &&& m.ticks == n.ticks
    &&& m.quantizer == n.quantizer
}

/// A block is as long as its packet says.
pub proof fn block_length(m: FeedModel, samples: Seq<i16>)
    requires
        m.wf(),
    ensures
        m.block(samples) matches Ok(data) ==> data.len() == packet_bytes(m),
        m.states_behind(samples).len() == m.channels,
{
    reveal(FeedModel::block);
    reveal(FeedModel::states_behind);
}

/// One more packet behind packets that are stamped.
proof fn stamped_one_more(
    m: FeedModel,
    packets: Seq<PacketModel>,
    first: int,
    packet: PacketModel,
)
    requires
        stamped(m, packets, first),
        packet.pts == first + packets.len() * m.per_block(),
        packet.ticks == m.ticks,
        packet.data.len() == packet_bytes(m),
    ensures
        stamped(m, packets.push(packet), first),
{
}

/// Making blocks adds packets behind those that wait. Each new one is stamped
/// with the samples per channel of all packets before it.
pub proof fn drained_stamps(m: FeedModel)
    requires
        m.wf(),
    ensures
        ({
            let n = drained(m).0;
            let new = n.pending.skip(m.pending.len() as int);
            &&& n.wf()
            &&& same_blocks(n, m)
            &&& n.flushed == m.flushed
            &&& m.pending.len() <= n.pending.len()
            &&& n.pending.take(m.pending.len() as int) == m.pending
            &&& stamped(m, new, m.emitted)
            &&& n.emitted == m.emitted + new.len() * m.per_block()
        }),
    decreases m.pcm.len(),
{
    let unit = m.unit();
    unit_bounds(m);
    let waiting = m.pending.len() as int;
    assert(0 * m.per_block() == 0);
    if m.pcm.len() < unit {
        assert(m.pending.take(waiting) =~= m.pending);
        assert(m.pending.skip(waiting) =~= Seq::empty());
    } else {
        let block = m.pcm.take(unit);
        turns_left(m.pcm.len() as int, unit, m.channels);
        block_length(m, block);
        match m.block(block) {
            Err(_) => {
                assert(m.pending.take(waiting) =~= m.pending);
                assert(m.pending.skip(waiting) =~= Seq::empty());
            },
            Ok(data) => {
                let rest = m.without(unit);
                block_behind_cut(m, block, unit);
                let n = rest.with_block(block, data);
                assert(n.wf());
                drained_stamps(n);
                let end = drained(n).0;
                assert(n.pending.take(waiting) =~= m.pending);
                assert(end.pending.take(waiting) =~= end.pending.take(waiting + 1).take(waiting));
                assert(end.pending.take(waiting) =~= m.pending);
                let old_new = end.pending.skip(waiting + 1);
                let new = end.pending.skip(waiting);
                let p = m.per_block();
                assert(end.pending[waiting] == end.pending.take(waiting + 1)[waiting]);
                assert forall|k: int| 0 <= k < new.len() implies {
                    &&& (#[trigger] new[k]).pts == m.emitted + k * p
                    &&& new[k].ticks == m.ticks
                    &&& new[k].data.len() == packet_bytes(m)
                } by {
                    if k > 0 {
                        assert(new[k] == old_new[k - 1]);
                        assert(k * p == (k - 1) * p + p) by (nonlinear_arith);
                    }
                }
                assert(new.len() * p == old_new.len() * p + p) by (nonlinear_arith)
                    requires
                        new.len() == old_new.len() + 1,
                ;
            },
        }
    }
}

/// The samples that wait say nothing about where a block leads.
proof fn block_behind_cut(m: FeedModel, block: Seq<i16>, n: int)
    ensures
        m.without(n).states_behind(block) == m.states_behind(block),
        m.without(n).block(block) == m.block(block),
{
    reveal(FeedModel::block);
    reveal(FeedModel::states_behind);
}

/// So does the end of the stream, and it leaves no sample waiting.
pub proof fn finished_stamps(m: FeedModel)
    requires
        m.wf(),
    ensures
        ({
            let n = finished(m).0;
            let new = n.pending.skip(m.pending.len() as int);
            &&& n.wf()
            &&& same_blocks(n, m)
            &&& n.flushed == m.flushed
            &&& m.pending.len() <= n.pending.len()
            &&& n.pending.take(m.pending.len() as int) == m.pending
            &&& stamped(m, new, m.emitted)
            &&& n.emitted == m.emitted + new.len() * m.per_block()
            &&& finished(m).1 is None ==> n.pcm.len() == 0
        }),
{
    drained_stamps(m);
    let (rest, error) = drained(m);
    if error is None && rest.pcm.len() > 0 {
        let bare = FeedModel { pcm: Seq::empty(), ..rest };
        let full = padded(rest.pcm, rest.channels, rest.unit());
        vstd::arithmetic::div_mod::lemma_small_mod(0, m.channels as nat);
        block_length(rest, full);
        assert(bare.states_behind(full) == rest.states_behind(full)) by {
            reveal(FeedModel::states_behind);
        }
        match rest.block(full) {
            Err(_) => {},
            Ok(data) => {
                let n = bare.with_block(full, data);
                let waiting = m.pending.len() as int;
                let new = rest.pending.skip(waiting);
                let packet = PacketModel { pts: rest.emitted, ticks: rest.ticks, data };
                stamped_one_more(m, new, m.emitted, packet);
                assert(n.pending.skip(waiting) =~= new.push(packet));
                assert(n.pending.take(waiting) =~= rest.pending.take(waiting));
                let p = m.per_block();
                assert((new.len() + 1) * p == new.len() * p + p) by (nonlinear_arith);
            },
        }
    }
}

/// Two runs of packets, the second stamped from where the first ends.
proof fn stamped_join(m: FeedModel, a: Seq<PacketModel>, b: Seq<PacketModel>)
    requires
        stamped(m, a, 0),
        stamped(m, b, a.len() * m.per_block()),
    ensures
        stamped(m, a + b, 0),
{
    let p = m.per_block();
    assert forall|k: int| 0 <= k < (a + b).len() implies {
        &&& (#[trigger] (a + b)[k]).pts == 0 + k * p
        &&& (a + b)[k].ticks == m.ticks
        &&& (a + b)[k].data.len() == packet_bytes(m)
    } by {
        let n = a.len() as int;
        if k < n {
            assert((a + b)[k] == a[k]);
        } else {
            assert((a + b)[k] == b[k - n]);
            assert(k * p == n * p + (k - n) * p) by (nonlinear_arith);
        }
    }
}

/// Over the life of an encoder, packet number `k` is stamped with `k` times the
/// samples per channel of a block and has the bytes of a block, whatever frames
/// came in and whenever packets were taken.
pub proof fn stamps_over_a_life(
    format: BlockFormat,
    channels: int,
    block_size: int,
    ticks: u32,
    quantizer: Quantizer,
    deeds: Seq<Deed>,
)
    requires
        fresh_feed(format, channels, block_size, ticks, quantizer).wf(),
    ensures
        ({
            let m = fresh_feed(format, channels, block_size, ticks, quantizer);
            let n = life(m, deeds).0;
            let all = all_packets(m, deeds);
            &&& n.wf()
            &&& same_blocks(n, m)
            &&& n.emitted == all.len() * m.per_block()
            &&& forall|k: int|
                0 <= k < all.len() ==> {
                    &&& (#[trigger] all[k]).pts == k * m.per_block()
                    &&& all[k].ticks == ticks
                    &&& all[k].data.len() == packet_bytes(m)
                }
        }),
    decreases deeds.len(),
{
    let m = fresh_feed(format, channels, block_size, ticks, quantizer);
    let all = all_packets(m, deeds);
    assert(0 * m.per_block() == 0);
    if deeds.len() == 0 {
        assert(all =~= Seq::empty());
    } else {
        let earlier = deeds.drop_last();
        stamps_over_a_life(format, channels, block_size, ticks, quantizer, earlier);
        let (before, taken) = life(m, earlier);
        let past = all_packets(m, earlier);
        assert(stamped(m, past, 0));
        match deeds.last() {
            Deed::Frame(bytes) => {
                if pcm_error(bytes.len() as int, channels) is None {
                    let k = bytes.len() as int / 2;
                    vstd::arithmetic::div_mod::lemma_add_mod_noop(
                        before.pcm.len() as int,
                        k,
                        channels,
                    );
                    vstd::arithmetic::div_mod::lemma_small_mod(0, channels as nat);
                    let full = FeedModel { pcm: before.pcm + bytes_pcm(bytes), ..before };
                    drained_stamps(full);
                    grown(m, taken, before, drained(full).0);
                }
                assert(taken + Seq::empty() =~= taken);
            },
            Deed::Take => {
                if before.pending.len() > 0 {
                    assert(all =~= past);
                } else {
                    assert(taken + Seq::empty() =~= taken);
                }
            },
            Deed::End => {
                if !before.flushed {
                    let full = FeedModel { flushed: true, ..before };
                    finished_stamps(full);
                    grown(m, taken, before, finished(full).0);
                }
                assert(taken + Seq::empty() =~= taken);
            },
        }
        assert(stamped(m, all, 0));
    }
}

/// Packets behind those of a life, stamped from where it had come to.
proof fn grown(m: FeedModel, taken: Seq<PacketModel>, before: FeedModel, after: FeedModel)
    requires
        same_blocks(before, m),
        stamped(m, taken + before.pending, 0),
        before.emitted == (taken + before.pending).len() * m.per_block(),
        before.pending.len() <= after.pending.len(),
        after.pending.take(before.pending.len() as int) == before.pending,
        stamped(before, after.pending.skip(before.pending.len() as int), before.emitted),
        after.emitted == before.emitted + after.pending.skip(before.pending.len() as int).len()
            * m.per_block(),
    ensures
        stamped(m, taken + after.pending, 0),
        after.emitted == (taken + after.pending).len() * m.per_block(),
{
    let waiting = before.pending.len() as int;
    let new = after.pending.skip(waiting);
    assert(stamped(m, new, before.emitted)) by {
        assert(before.per_block() == m.per_block());
        assert(packet_bytes(before) == packet_bytes(m));
    }
    stamped_join(m, taken + before.pending, new);
    assert(after.pending =~= before.pending + new);
    assert(taken + after.pending =~= (taken + before.pending) + new);
    let p = m.per_block();
    let a = (taken + before.pending).len() as int;
    let b = new.len() as int;
    assert((a + b) * p == a * p + b * p) by (nonlinear_arith);
}

/// With a suitable size no block fails on the way.
pub proof fn drained_without_fail(m: FeedModel)
    requires
        m.wf(),
        sizeable(m),
    ensures
        drained(m).1 is None,
    decreases m.pcm.len(),
{
    let unit = m.unit();
    unit_bounds(m);
    if m.pcm.len() >= unit {
        let block = m.pcm.take(unit);
        turns_left(m.pcm.len() as int, unit, m.channels);
        whole_blocks_can_be_made(m, block);
        block_length(m, block);
        block_behind_cut(m, block, unit);
        drained_without_fail(m.without(unit).with_block(block, m.block(block)->Ok_0));
    }
}

/// With a suitable size a frame fails only for its own length, and the end of
/// the stream does not fail.
pub proof fn no_deed_fails(m: FeedModel, bytes: Seq<u8>)
    requires
        m.wf(),
        sizeable(m),
    ensures
        fed(m, bytes).1 == pcm_error(bytes.len() as int, m.channels),
        flushed(m).1 is None,
{
    let c = m.channels;
    if pcm_error(bytes.len() as int, c) is None {
        vstd::arithmetic::div_mod::lemma_add_mod_noop(
            m.pcm.len() as int,
            bytes.len() as int / 2,
            c,
        );
        vstd::arithmetic::div_mod::lemma_small_mod(0, c as nat);
        drained_without_fail(FeedModel { pcm: m.pcm + bytes_pcm(bytes), ..m });
    }
    if !m.flushed {
        let last = FeedModel { flushed: true, ..m };
        drained_without_fail(last);
        drained_stamps(last);
        unit_bounds(last);
        drained_counts(last);
        let rest = drained(last).0;
        if rest.pcm.len() > 0 {
            whole_blocks_can_be_made(rest, padded(rest.pcm, c, rest.unit()));
        }
    }
}

/// The samples of the frames that were let in.
pub open spec fn sent(deeds: Seq<Deed>, channels: int) -> int
    decreases deeds.len(),
{
    if deeds.len() == 0 {
        0
    } else {
        let before = sent(deeds.drop_last(), channels);
        match deeds.last() {
            Deed::Frame(bytes) => if pcm_error(bytes.len() as int, channels) is None {
                before + bytes.len() as int / 2
            } else {
                before
            },
            _ => before,
        }
    }
}

/// Until the stream ends, every sample that was let in is in a packet or waits
/// for one, and less than a block waits.
pub proof fn no_sample_is_lost(
    format: BlockFormat,
    channels: int,
    block_size: int,
    ticks: u32,
    quantizer: Quantizer,
    deeds: Seq<Deed>,
)
    requires
        fresh_feed(format, channels, block_size, ticks, quantizer).wf(),
        sizeable(fresh_feed(format, channels, block_size, ticks, quantizer)),
        forall|i: int| 0 <= i < deeds.len() ==> !(#[trigger] deeds[i] is End),
    ensures
        ({
            let m = fresh_feed(format, channels, block_size, ticks, quantizer);
            let n = life(m, deeds).0;
            &&& !n.flushed
            &&& n.pcm.len() < m.unit()
            &&& all_packets(m, deeds).len() * m.unit() + n.pcm.len() == sent(deeds, channels)
        }),
    decreases deeds.len(),
{
    let m = fresh_feed(format, channels, block_size, ticks, quantizer);
    let unit = m.unit();
    unit_bounds(m);
    if deeds.len() == 0 {
        assert(all_packets(m, deeds) =~= Seq::empty());
        assert(0 * unit == 0);
    } else {
        let earlier = deeds.drop_last();
        assert forall|i: int| 0 <= i < earlier.len() implies !(#[trigger] earlier[i] is End) by {
            assert(earlier[i] == deeds[i]);
        }
        no_sample_is_lost(format, channels, block_size, ticks, quantizer, earlier);
        stamps_over_a_life(format, channels, block_size, ticks, quantizer, earlier);
        let (before, taken) = life(m, earlier);
        let packets = all_packets(m, earlier).len() as int;
        match deeds.last() {
            Deed::Frame(bytes) => {
                no_deed_fails(before, bytes);
                if pcm_error(bytes.len() as int, channels) is None {
                    let full = FeedModel { pcm: before.pcm + bytes_pcm(bytes), ..before };
                    vstd::arithmetic::div_mod::lemma_add_mod_noop(
                        before.pcm.len() as int,
                        bytes.len() as int / 2,
                        channels,
                    );
                    vstd::arithmetic::div_mod::lemma_small_mod(0, channels as nat);
                    drained_stamps(full);
                    drained_counts(full);
                    let len = full.pcm.len() as int;
                    let blocks = len / unit;
                    vstd::arithmetic::div_mod::lemma_fundamental_div_mod(len, unit);
                    vstd::arithmetic::div_mod::lemma_mod_bound(len, unit);
                    vstd::arithmetic::div_mod::lemma_div_pos_is_pos(len, unit);
                    vstd::arithmetic::mul::lemma_mul_is_commutative(unit, blocks);
                    assert(blocks * unit >= 0) by (nonlinear_arith)
                        requires
                            blocks >= 0,
                            unit >= 0,
                    ;
                    assert((packets + blocks) * unit == packets * unit + blocks * unit)
                        by (nonlinear_arith);
                    assert(full.unit() == unit);
                    assert(all_packets(m, deeds).len() == packets + blocks);
                }
            },
            Deed::Take => {
                assert(all_packets(m, deeds).len() == packets);
            },
            Deed::End => {
                assert(deeds[deeds.len() - 1] is End);
            },
        }
    }
}

/// At the end of a stream as many packets have been made as its samples fill,
/// the last one filled up, and nothing waits for a block any more. No frame
/// failed but for its own length. A second end changes nothing.
pub proof fn whole_stream(
    format: BlockFormat,
    channels: int,
    block_size: int,
    ticks: u32,
    quantizer: Quantizer,
    deeds: Seq<Deed>,
)
    requires
        fresh_feed(format, channels, block_size, ticks, quantizer).wf(),
        sizeable(fresh_feed(format, channels, block_size, ticks, quantizer)),
        forall|i: int| 0 <= i < deeds.len() ==> !(#[trigger] deeds[i] is End),
    ensures
        ({
            let m = fresh_feed(format, channels, block_size, ticks, quantizer);
            let ended = deeds.push(Deed::End);
            let all = all_packets(m, ended);
            &&& forall|i: int|
                0 <= i < deeds.len() && deeds[i] is Frame ==> fed(
                    life(m, #[trigger] deeds.take(i)).0,
                    deeds[i]->Frame_0,
                ).1 == pcm_error(deeds[i]->Frame_0.len() as int, channels)
            &&& flushed(life(m, deeds).0).1 is None
            &&& all.len() == (sent(deeds, channels) + m.unit() - 1) / m.unit()
            &&& forall|k: int|
                0 <= k < all.len() ==> {
                    &&& (#[trigger] all[k]).pts == k * m.per_block()
                    &&& all[k].ticks == ticks
                    &&& all[k].data.len() == packet_bytes(m)
                }
            &&& life(m, ended).0.pcm.len() == 0
            &&& life(m, ended.push(Deed::End)) == life(m, ended)
        }),
{
    let m = fresh_feed(format, channels, block_size, ticks, quantizer);
    let ended = deeds.push(Deed::End);
    let unit = m.unit();
    unit_bounds(m);
    no_sample_is_lost(format, channels, block_size, ticks, quantizer, deeds);
    stamps_over_a_life(format, channels, block_size, ticks, quantizer, deeds);
    stamps_over_a_life(format, channels, block_size, ticks, quantizer, ended);
    let (before, taken) = life(m, deeds);
    assert(ended.drop_last() =~= deeds);
    no_deed_fails(before, Seq::empty());
    assert forall|i: int| 0 <= i < deeds.len() && deeds[i] is Frame implies fed(
        life(m, #[trigger] deeds.take(i)).0,
        deeds[i]->Frame_0,
    ).1 == pcm_error(deeds[i]->Frame_0.len() as int, channels) by {
        stamps_over_a_life(format, channels, block_size, ticks, quantizer, deeds.take(i));
        no_deed_fails(life(m, deeds.take(i)).0, deeds[i]->Frame_0);
    }
    let last = FeedModel { flushed: true, ..before };
    finished_counts(last);
    finished_stamps(last);
    let packets = all_packets(m, deeds).len() as int;
    let left = before.pcm.len() as int;
    let blocks = (left + unit - 1) / unit;
    assert(last.unit() == unit);
    assert(all_packets(m, ended).len() == packets + blocks);
    assert((sent(deeds, channels) + unit - 1) / unit == packets + blocks) by {
        let x = left + unit - 1;
        vstd::arithmetic::div_mod::lemma_fundamental_div_mod(x, unit);
        vstd::arithmetic::div_mod::lemma_mod_bound(x, unit);
        vstd::arithmetic::mul::lemma_mul_is_commutative(unit, blocks);
        assert((packets + blocks) * unit == packets * unit + blocks * unit) by (nonlinear_arith);
        vstd::arithmetic::div_mod::lemma_fundamental_div_mod_converse(
            packets * unit + x,
            unit,
            packets + blocks,
            x % unit,
        );
    }
    let again = ended.push(Deed::End);
    assert(again.drop_last() =~= ended);
    let (after, out) = life(m, ended);
    assert(after.flushed);
    assert(out + Seq::empty() =~= out);
}

/// A mono stream of Microsoft ADPCM in blocks of the default size: of `n` samples
/// come `n / 500` packets, rounded up, of 256 bytes each, and the one of number
/// `k` is stamped `500 * k`. The end of the stream does not fail, and a second
/// one adds nothing.
pub proof fn ms_mono_stream(ticks: u32, deeds: Seq<Deed>)
    requires
        forall|i: int| 0 <= i < deeds.len() ==> !(#[trigger] deeds[i] is End),
    ensures
        ({
            let m = fresh_feed(BlockFormat::Ms, 1, 256, ticks, Quantizer::Search);
            let ended = deeds.push(Deed::End);
            let all = all_packets(m, ended);
            &&& flushed(life(m, deeds).0).1 is None
            &&& life(m, ended.push(Deed::End)) == life(m, ended)
            &&& all.len() == (sent(deeds, 1) + 499) / 500
            &&& forall|k: int|
                0 <= k < all.len() ==> {
                    &&& (#[trigger] all[k]).pts == 500 * k
                    &&& all[k].ticks == ticks
                    &&& all[k].data.len() == 256
                }
        }),
{
    let m = fresh_feed(BlockFormat::Ms, 1, 256, ticks, Quantizer::Search);
    assert(m.per_block() == 500) by {
        vstd::arithmetic::div_mod::lemma_div_basics(498);
    }
    assert(m.unit() == 500);
    whole_stream(BlockFormat::Ms, 1, 256, ticks, Quantizer::Search, deeds);
}

/// Every packet that waits can be taken, in order, and then none waits.
pub proof fn all_packets_can_be_taken(m: FeedModel, deeds: Seq<Deed>)
    ensures
        ({
            let waiting = life(m, deeds).0.pending.len();
            let taking = deeds + Seq::new(waiting, |i: int| Deed::Take);
            &&& life(m, taking).1 == all_packets(m, deeds)
            &&& life(m, taking).0.pending.len() == 0
        }),
{
    let (before, taken) = life(m, deeds);
    let waiting = before.pending.len() as int;
    takes(m, deeds, waiting);
    assert(before.pending.take(waiting) =~= before.pending);
}

/// So many packets taken.
proof fn takes(m: FeedModel, deeds: Seq<Deed>, n: int)
    requires
        0 <= n <= life(m, deeds).0.pending.len(),
    ensures
        ({
            let (before, taken) = life(m, deeds);
            let after = life(m, deeds + Seq::new(n as nat, |i: int| Deed::Take));
            &&& after.1 == taken + before.pending.take(n)
            &&& after.0.pending == before.pending.skip(n)
        }),
    decreases n,
{
    let (before, taken) = life(m, deeds);
    let taking = deeds + Seq::new(n as nat, |i: int| Deed::Take);
    if n == 0 {
        assert(taking =~= deeds);
        assert(taken + before.pending.take(0) =~= taken);
        assert(before.pending.skip(0) =~= before.pending);
    } else {
        takes(m, deeds, n - 1);
        assert(taking.drop_last() =~= deeds + Seq::new((n - 1) as nat, |i: int| Deed::Take));
        assert(before.pending.skip(n - 1).skip(1) =~= before.pending.skip(n));
        assert((taken + before.pending.take(n - 1)) + seq![before.pending.skip(n - 1)[0]] =~= taken
            + before.pending.take(n));
    }
}

} // verus!
