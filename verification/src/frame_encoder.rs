//! Encoding frames to packets.
//!
//! The block encoders gather samples until they make a block. At the end of the
//! stream the last block is filled up with the last sample of each channel. The
//! stream encoders make one packet of each frame.

use std::collections::VecDeque;

use vstd::prelude::*;

use crate::encoder::{
    encode_block, ima_encode_block, ima_qt_encode_block, ms_block, ms_encode_error, qt_blocks,
    qt_encode_error, wav_block, wav_encode_error,
};
use crate::error::Error;
use crate::ima_wav::{ImaCodecState, ImaModel};
use crate::ladder::{
    ima_encode_block_reference, ima_qt_encode_block_reference, qt_ladder_blocks, qt_ladder_states,
    state_models, wav_ladder_block, wav_ladder_states,
};
use crate::lanes::next_turn;
use crate::options::Quantizer;
use crate::pcm::{bytes_pcm, pcm_error, push_pcm};
use crate::three_bit::{
    ima_encode_block_3bit, ima_encode_block_3bit_reference, search3_starts_afresh, wav3_block,
    wav3_encode_error, wav3_room, wav3_room_size, wav3_states,
};
use crate::variant::{format_extra, word_bytes_of, Variant};

verus! {

/// The bytes of one block or frame.
#[derive(Debug)]
pub struct EncodedPacket {
    /// The samples per channel before this packet.
    pub pts: i64,
    /// Ticks of the time stamp per second.
    pub ticks: u32,
    /// The encoded bytes.
    pub data: Vec<u8>,
}

/// A packet over mathematical values.
pub struct PacketModel {
    pub pts: int,
    pub ticks: u32,
    pub data: Seq<u8>,
}

impl View for EncodedPacket {
    type V = PacketModel;

    open spec fn view(&self) -> PacketModel {
        PacketModel { pts: self.pts as int, ticks: self.ticks, data: self.data@ }
    }
}

/// Packets over mathematical values.
pub open spec fn packet_models(packets: Seq<EncodedPacket>) -> Seq<PacketModel> {
    Seq::new(packets.len(), |k: int| packets[k]@)
}

/// Takes the first packet that waits.
pub(crate) fn take_packet(pending: &mut VecDeque<EncodedPacket>) -> (r: Result<EncodedPacket, Error>)
    ensures
        match r {
            Ok(packet) => {
                &&& old(pending)@.len() > 0
                &&& packet@ == packet_models(old(pending)@)[0]
                &&& packet_models(final(pending)@) == packet_models(old(pending)@).skip(1)
            },
            Err(e) => {
                &&& e == Error::NeedMore
                &&& old(pending)@.len() == 0
                &&& final(pending)@ == old(pending)@
            },
        },
{
    match pending.pop_front() {
        Some(packet) => {
            assert(packet_models(pending@) =~= packet_models(old(pending)@).skip(1));
            Ok(packet)
        },
        None => Err(Error::NeedMore),
    }
}

// ---- Block encoders ----

/// The blocks that an encoder makes.
#[derive(Clone, Copy, Debug, PartialEq, Eq, Structural)]
pub enum BlockFormat {
    /// Microsoft ADPCM.
    Ms,
    /// IMA ADPCM in WAV blocks, four bits to a code.
    ImaWav,
    /// IMA ADPCM in WAV blocks, three bits to a code.
    ImaWav3,
    /// IMA ADPCM in QuickTime blocks.
    ImaQt,
}

/// The WAV blocks of IMA ADPCM with so many bits to a code.
pub open spec fn wav_format(bits: int) -> BlockFormat {
    if bits == 3 {
        BlockFormat::ImaWav3
    } else {
        BlockFormat::ImaWav
    }
}

/// Gathers samples and makes blocks of them.
pub struct BlockFeed {
    format: BlockFormat,
    channels: usize,
    block_size: usize,
    ticks: u32,
    quantizer: Quantizer,
    states: Vec<ImaCodecState>,
    pcm: Vec<i16>,
    pending: VecDeque<EncodedPacket>,
    emitted: i64,
    flushed: bool,
}

/// A block encoder over mathematical values.
pub struct FeedModel {
    /// The blocks that it makes.
    pub format: BlockFormat,
    /// The number of channels.
    pub channels: int,
    /// The bytes of a block.
    pub block_size: int,
    /// Ticks of the time stamps per second.
    pub ticks: u32,
    /// How codes are picked.
    pub quantizer: Quantizer,
    /// Where the ladder has come to in each channel.
    pub states: Seq<ImaModel>,
    /// The samples that do not make a block yet.
    pub pcm: Seq<i16>,
    /// The packets that wait to be taken.
    pub pending: Seq<PacketModel>,
    /// The samples per channel in packets.
    pub emitted: int,
    /// Whether the stream has ended.
    pub flushed: bool,
}

impl View for BlockFeed {
    type V = FeedModel;

    closed spec fn view(&self) -> FeedModel {
        FeedModel {
            format: self.format,
            channels: self.channels as int,
            block_size: self.block_size as int,
            ticks: self.ticks,
            quantizer: self.quantizer,
            states: state_models(self.states@),
            pcm: self.pcm@,
            pending: packet_models(self.pending@),
            emitted: self.emitted as int,
            flushed: self.flushed,
        }
    }
}

impl FeedModel {
    /// What the blocks demand.
    pub open spec fn wf(self) -> bool {
        &&& 1 <= self.channels
        &&& self.format == BlockFormat::Ms ==> self.channels <= 2
        &&& self.format == BlockFormat::ImaWav ==> self.channels <= 8
        &&& self.format == BlockFormat::ImaWav3 ==> self.channels <= 8
        &&& self.format == BlockFormat::ImaQt ==> self.channels <= 2
        &&& 0 <= self.block_size
        &&& 3 * self.block_size + 16 <= usize::MAX
        &&& self.pcm.len() as int % self.channels == 0
        &&& 0 <= self.emitted
        &&& self.states.len() == self.channels
    }

    /// The variant of the blocks.
    pub open spec fn variant(self) -> Variant {
        match self.format {
            BlockFormat::Ms => Variant::Ms,
            BlockFormat::ImaWav | BlockFormat::ImaWav3 => Variant::ImaWav,
            BlockFormat::ImaQt => Variant::ImaQt,
        }
    }

    /// The extension of a WAV format header for the blocks.
    pub open spec fn wave_extra(self) -> Option<Seq<u8>> {
        if self.format == BlockFormat::ImaWav3 {
            format_extra3(self.channels, self.block_size)
        } else {
            format_extra(self.variant(), self.channels, self.block_size)
        }
    }

    /// The samples per channel of a block.
    pub open spec fn per_block(self) -> int {
        match self.format {
            BlockFormat::Ms => 2 + (2 * room_behind(self.block_size, 7 * self.channels))
                / self.channels,
            BlockFormat::ImaWav => 1 + (room_behind(self.block_size, 4 * self.channels) / (4
                * self.channels)) * 8,
            BlockFormat::ImaWav3 => 1 + (room_behind(self.block_size, 4 * self.channels) / (12
                * self.channels)) * 32,
            BlockFormat::ImaQt => 64,
        }
    }

    /// The samples of a block.
    pub open spec fn unit(self) -> int {
        self.per_block() * self.channels
    }

    /// The block of samples.
    #[verifier::opaque]
    pub open spec fn block(self, samples: Seq<i16>) -> Result<Seq<u8>, Error> {
        let len = samples.len() as int;
        match self.format {
            BlockFormat::Ms => match ms_encode_error(len, self.channels, self.block_size) {
                Some(e) => Err(e),
                None => Ok(ms_block(samples, self.channels, self.block_size)),
            },
            BlockFormat::ImaWav => match wav_encode_error(len, self.channels, self.block_size) {
                Some(e) => Err(e),
                None => Ok(
                    match self.quantizer {
                        Quantizer::Search => wav_block(samples, self.channels, self.block_size),
                        Quantizer::Reference => wav_ladder_block(
                            self.states,
                            samples,
                            self.channels,
                            self.block_size,
                        ),
                    },
                ),
            },
            BlockFormat::ImaWav3 => match wav3_encode_error(len, self.channels, self.block_size) {
                Some(e) => Err(e),
                None => Ok(
                    wav3_block(
                        self.quantizer,
                        self.states,
                        samples,
                        self.channels,
                        self.block_size,
                    ),
                ),
            },
            BlockFormat::ImaQt => match qt_encode_error(len, self.channels) {
                Some(e) => Err(e),
                None => Ok(
                    match self.quantizer {
                        Quantizer::Search => qt_blocks(samples, self.channels),
                        Quantizer::Reference => qt_ladder_blocks(
                            self.states,
                            samples,
                            self.channels,
                        ),
                    },
                ),
            },
        }
    }

    /// Where the ladder has come to behind a block of samples.
    #[verifier::opaque]
    pub open spec fn states_behind(self, samples: Seq<i16>) -> Seq<ImaModel> {
        if self.quantizer == Quantizer::Search {
            self.states
        } else {
            match self.format {
                BlockFormat::Ms => self.states,
                BlockFormat::ImaWav => wav_ladder_states(self.states, samples, self.channels),
                BlockFormat::ImaWav3 => wav3_states(
                    self.quantizer,
                    self.states,
                    samples,
                    self.channels,
                ),
                BlockFormat::ImaQt => qt_ladder_states(self.states, samples, self.channels),
            }
        }
    }

    /// The encoder behind a block of samples.
    pub open spec fn with_block(self, samples: Seq<i16>, data: Seq<u8>) -> FeedModel {
        FeedModel { states: self.states_behind(samples), ..self.with_packet(data) }
    }

    /// The encoder with one more block in its packets.
    pub open spec fn with_packet(self, data: Seq<u8>) -> FeedModel {
        FeedModel {
            pending: self.pending.push(
                PacketModel { pts: self.emitted, ticks: self.ticks, data },
            ),
            emitted: self.emitted + self.per_block(),
            ..self
        }
    }

    /// The encoder without its first samples.
    pub open spec fn without(self, n: int) -> FeedModel {
        FeedModel { pcm: self.pcm.skip(n), ..self }
    }
}

/// The extension of a WAV format header for three-bit IMA ADPCM, where a block
/// holds whole groups of all channels: the samples per channel of a block.
pub open spec fn format_extra3(channels: int, block_size: int) -> Option<Seq<u8>> {
    let n = 1 + 32 * wav3_room(channels, block_size);
    if block_size < 4 * channels || (block_size - 4 * channels) % (12 * channels) != 0 || n
        > 65535 {
        None
    } else {
        Some(word_bytes_of(n as u16))
    }
}

/// Builds the extension of a WAV format header for three-bit IMA ADPCM.
fn build_format_extra3(channels: usize, block_size: usize) -> (r: Option<Vec<u8>>)
    requires
        1 <= channels <= 8,
        3 * block_size <= usize::MAX,
    ensures
        match r {
            Some(ext) => format_extra3(channels as int, block_size as int) == Some(ext@),
            None => format_extra3(channels as int, block_size as int) is None,
        },
{
    let header: usize = 4 * channels;
    if block_size < header || (block_size - header) % (12 * channels) != 0 {
        return None;
    }
    proof {
        wav3_room_size(channels as int, block_size as int);
    }
    let n: usize = 1 + 32 * ((block_size - header) / (12 * channels));
    if n > 65535 {
        return None;
    }
    let word: u16 = n as u16;
    let ext: Vec<u8> = vec![(word % 256) as u8, (word / 256) as u8];
    assert(ext@ =~= word_bytes_of(word));
    Some(ext)
}

/// The bytes behind a header.
pub open spec fn room_behind(block_size: int, header: int) -> int {
    if block_size < header {
        0
    } else {
        block_size - header
    }
}

/// The encoder once every whole block has been made, or the first error on the
/// way. The samples of a block that could not be made are gone.
pub open spec fn drained(m: FeedModel) -> (FeedModel, Option<Error>)
    decreases m.pcm.len(),
{
    let unit = m.unit();
    if unit <= 0 || m.pcm.len() < unit {
        (m, None)
    } else {
        match m.block(m.pcm.take(unit)) {
            Err(e) => (m.without(unit), Some(e)),
            Ok(data) => drained(m.without(unit).with_block(m.pcm.take(unit), data)),
        }
    }
}

/// Samples filled up to a whole block with the last sample of each channel.
pub open spec fn padded(pcm: Seq<i16>, channels: int, unit: int) -> Seq<i16> {
    pcm + Seq::new(
        (unit - pcm.len()) as nat,
        |k: int| pcm[pcm.len() - channels + k % channels],
    )
}

/// The encoder at the end of the stream.
pub open spec fn finished(m: FeedModel) -> (FeedModel, Option<Error>) {
    let (rest, error) = drained(m);
    if error is Some || rest.pcm.len() == 0 {
        (rest, error)
    } else {
        let bare = FeedModel { pcm: Seq::empty(), ..rest };
        let full = padded(rest.pcm, rest.channels, rest.unit());
        match rest.block(full) {
            Err(e) => (bare, Some(e)),
            Ok(data) => (bare.with_block(full, data), None),
        }
    }
}

/// A block takes whole turns of all channels, and no more samples than its
/// bytes have nibbles for.
pub proof fn unit_bounds(m: FeedModel)
    requires
        m.wf(),
    ensures
        1 <= m.per_block() <= m.unit(),
        m.unit() <= 3 * m.block_size + 16 || m.unit() <= 128,
        m.unit() % m.channels == 0,
{
    let c = m.channels;
    let n = m.per_block();
    vstd::arithmetic::div_mod::lemma_mod_multiples_basic(n, c);
    match m.format {
        BlockFormat::Ms => {
            let body = room_behind(m.block_size, 7 * c);
            vstd::arithmetic::div_mod::lemma_fundamental_div_mod(2 * body, c);
            vstd::arithmetic::div_mod::lemma_mod_bound(2 * body, c);
            vstd::arithmetic::div_mod::lemma_div_pos_is_pos(2 * body, c);
            let q = (2 * body) / c;
            assert(n * c <= 2 * c + 2 * body) by (nonlinear_arith)
                requires
                    n == 2 + q,
                    c * q <= 2 * body,
                    c >= 1,
            ;
        },
        BlockFormat::ImaWav => {
            let body = room_behind(m.block_size, 4 * c);
            vstd::arithmetic::div_mod::lemma_fundamental_div_mod(body, 4 * c);
            vstd::arithmetic::div_mod::lemma_mod_bound(body, 4 * c);
            vstd::arithmetic::div_mod::lemma_div_pos_is_pos(body, 4 * c);
            let q = body / (4 * c);
            assert(n * c <= c + 2 * body) by (nonlinear_arith)
                requires
                    n == 1 + q * 8,
                    (4 * c) * q <= body,
                    c >= 1,
            ;
        },
        BlockFormat::ImaWav3 => {
            let body = room_behind(m.block_size, 4 * c);
            vstd::arithmetic::div_mod::lemma_fundamental_div_mod(body, 12 * c);
            vstd::arithmetic::div_mod::lemma_mod_bound(body, 12 * c);
            vstd::arithmetic::div_mod::lemma_div_pos_is_pos(body, 12 * c);
            let q = body / (12 * c);
            assert(n * c <= c + 3 * body) by (nonlinear_arith)
                requires
                    n == 1 + q * 32,
                    (12 * c) * q <= body,
                    q >= 0,
                    c >= 1,
            ;
        },
        BlockFormat::ImaQt => {},
    }
    assert(n <= n * c) by (nonlinear_arith)
        requires
            n >= 1,
            c >= 1,
    ;
}

impl BlockFeed {
    /// The samples and sizes are in order.
    pub closed spec fn wf(self) -> bool {
        self@.wf()
    }

    /// An encoder that has not seen a frame.
    fn new(
        format: BlockFormat,
        channels: usize,
        block_size: usize,
        ticks: u32,
        quantizer: Quantizer,
    ) -> (r: BlockFeed)
        requires
            1 <= channels,
            channels <= 8,
            format == BlockFormat::Ms || format == BlockFormat::ImaQt ==> channels <= 2,
            3 * block_size + 16 <= usize::MAX,
        ensures
            r.wf(),
            r@ == fresh_feed(format, channels as int, block_size as int, ticks, quantizer),
    {
        let r: BlockFeed = BlockFeed {
            format,
            channels,
            block_size,
            ticks,
            quantizer,
            states: vec![ImaCodecState { predictor: 0, step_index: 0 }; channels],
            pcm: Vec::new(),
            pending: VecDeque::new(),
            emitted: 0,
            flushed: false,
        };
        assert(r@.pending =~= Seq::<PacketModel>::empty());
        assert(r@.states =~= fresh_states(channels as int));
        assert(0int % channels as int == 0) by {
            vstd::arithmetic::div_mod::lemma_small_mod(0, channels as nat);
        }
        r
    }

    /// The samples per channel of a block.
    fn samples_per_block(&self) -> (r: usize)
        requires
            self.wf(),
        ensures
            r == self@.per_block(),
    {
        proof {
            unit_bounds(self@);
        }
        let c: usize = self.channels;
        match self.format {
            BlockFormat::Ms => {
                let header: usize = 7 * c;
                let body: usize = if self.block_size < header {
                    0
                } else {
                    self.block_size - header
                };
                2 + (body * 2) / c
            },
            BlockFormat::ImaWav => {
                let header: usize = 4 * c;
                let body: usize = if self.block_size < header {
                    0
                } else {
                    self.block_size - header
                };
                1 + (body / header) * 8
            },
            BlockFormat::ImaWav3 => {
                let header: usize = 4 * c;
                let body: usize = if self.block_size < header {
                    0
                } else {
                    self.block_size - header
                };
                1 + (body / (12 * c)) * 32
            },
            BlockFormat::ImaQt => 64,
        }
    }

    /// Makes a block.
    fn encode(&mut self, samples: &[i16]) -> (r: Result<Vec<u8>, Error>)
        requires
            old(self).wf(),
        ensures
            final(self).wf(),
            match r {
                Ok(data) => {
                    &&& old(self)@.block(samples@) == Ok::<Seq<u8>, Error>(data@)
                    &&& final(self)@ == (FeedModel {
                        states: old(self)@.states_behind(samples@),
                        ..old(self)@
                    })
                },
                Err(e) => {
                    &&& old(self)@.block(samples@) == Err::<Seq<u8>, Error>(e)
                    &&& final(self)@ == old(self)@
                },
            },
    {
        reveal(FeedModel::block);
        reveal(FeedModel::states_behind);
        proof {
            search3_starts_afresh(
                Seq::empty(),
                self@.states,
                samples@,
                self@.channels,
                self@.block_size,
            );
        }
        match self.format {
            BlockFormat::Ms => encode_block(samples, self.channels, self.block_size),
            BlockFormat::ImaWav => match self.quantizer {
                Quantizer::Search => ima_encode_block(samples, self.channels, self.block_size),
                Quantizer::Reference => ima_encode_block_reference(
                    samples,
                    self.channels,
                    self.block_size,
                    self.states.as_mut_slice(),
                ),
            },
            BlockFormat::ImaWav3 => match self.quantizer {
                Quantizer::Search => ima_encode_block_3bit(
                    samples,
                    self.channels,
                    self.block_size,
                ),
                Quantizer::Reference => ima_encode_block_3bit_reference(
                    samples,
                    self.channels,
                    self.block_size,
                    self.states.as_mut_slice(),
                ),
            },
            BlockFormat::ImaQt => match self.quantizer {
                Quantizer::Search => ima_qt_encode_block(samples, self.channels),
                Quantizer::Reference => ima_qt_encode_block_reference(
                    samples,
                    self.channels,
                    self.states.as_mut_slice(),
                ),
            },
        }
    }

    /// Puts a block into a packet.
    fn emit(&mut self, data: Vec<u8>, per_block: usize)
        requires
            old(self).wf(),
            per_block == old(self)@.per_block(),
            old(self)@.emitted + per_block <= i64::MAX,
        ensures
            final(self).wf(),
            final(self)@ == old(self)@.with_packet(data@),
    {
        let packet: EncodedPacket = EncodedPacket { pts: self.emitted, ticks: self.ticks, data };
        self.pending.push_back(packet);
        self.emitted = self.emitted + per_block as i64;
        assert(self@.pending =~= old(self)@.with_packet(data@).pending);
    }

    /// Makes all whole blocks.
    fn drain(&mut self) -> (r: Result<(), Error>)
        requires
            old(self).wf(),
            old(self)@.emitted + old(self)@.pcm.len() <= i64::MAX,
        ensures
            final(self).wf(),
            drained(old(self)@) == (final(self)@, error_of(r)),
            final(self)@.emitted + final(self)@.pcm.len() <= old(self)@.emitted
                + old(self)@.pcm.len(),
            r is Ok ==> final(self)@.pcm.len() < final(self)@.unit(),
            final(self)@.per_block() == old(self)@.per_block(),
            final(self)@.unit() == old(self)@.unit(),
    {
        let ghost m = self@;
        let n: usize = self.samples_per_block();
        proof {
            unit_bounds(m);
        }
        let unit: usize = n * self.channels;
        while self.pcm.len() >= unit
            invariant
                m == old(self)@,
                self.wf(),
                unit > 0,
                unit == self@.unit(),
                n == self@.per_block(),
                n <= unit,
                unit as int % self@.channels == 0,
                self@.per_block() == m.per_block(),
                self@.unit() == m.unit(),
                drained(m) == drained(self@),
                self@.emitted + self@.pcm.len() <= m.emitted + m.pcm.len() <= i64::MAX,
            decreases self@.pcm.len(),
        {
            let ghost before = self@;
            let mut tail: Vec<i16> = self.pcm.split_off(unit);
            std::mem::swap(&mut self.pcm, &mut tail);
            proof {
                assert(tail@ =~= before.pcm.take(unit as int));
                assert(self@.pcm =~= before.pcm.skip(unit as int));
                assert(self@ == before.without(unit as int));
                turns_left(before.pcm.len() as int, unit as int, before.channels);
                reveal(FeedModel::block);
            }
            let data: Vec<u8> = match self.encode(tail.as_slice()) {
                Ok(data) => data,
                Err(e) => {
                    return Err(e);
                },
            };
            self.emit(data, n);
        }
        Ok(())
    }
}

/// Whole turns without whole turns are whole turns.
pub(crate) proof fn turns_left(len: int, unit: int, channels: int)
    requires
        channels > 0,
        len % channels == 0,
        unit % channels == 0,
    ensures
        (len - unit) % channels == 0,
{
    vstd::arithmetic::div_mod::lemma_sub_mod_noop(len, unit, channels);
    vstd::arithmetic::div_mod::lemma_small_mod(0, channels as nat);
}

/// Channels that have come to nothing yet.
pub open spec fn fresh_states(channels: int) -> Seq<ImaModel> {
    Seq::new(channels as nat, |ch: int| ImaModel { predictor: 0, step_index: 0 })
}

/// A block encoder that has not seen a frame.
pub open spec fn fresh_feed(
    format: BlockFormat,
    channels: int,
    block_size: int,
    ticks: u32,
    quantizer: Quantizer,
) -> FeedModel {
    FeedModel {
        format,
        channels,
        block_size,
        ticks,
        quantizer,
        states: fresh_states(channels),
        pcm: Seq::empty(),
        pending: Seq::empty(),
        emitted: 0,
        flushed: false,
    }
}

impl BlockFeed {
    /// Takes in the samples of a frame, 16 bits each and the low byte first,
    /// and makes all whole blocks.
    fn send_frame(&mut self, bytes: &[u8]) -> (r: Result<(), Error>)
        requires
            old(self).wf(),
            old(self)@.emitted + old(self)@.pcm.len() + bytes@.len() <= i64::MAX,
        ensures
            final(self).wf(),
            fed(old(self)@, bytes@) == (final(self)@, error_of(r)),
    {
        let ghost m = self@;
        match push_pcm(&mut self.pcm, bytes, self.channels) {
            Err(e) => {
                return Err(e);
            },
            Ok(_) => {},
        }
        proof {
            let k = bytes@.len() as int / 2;
            vstd::arithmetic::div_mod::lemma_add_mod_noop(m.pcm.len() as int, k, m.channels);
            vstd::arithmetic::div_mod::lemma_small_mod(0, m.channels as nat);
            assert(self@ == (FeedModel { pcm: m.pcm + bytes_pcm(bytes@), ..m }));
        }
        self.drain()
    }

    /// Fills up the last block with the last sample of each channel.
    fn pad(&mut self, unit: usize)
        requires
            old(self).wf(),
            unit == old(self)@.unit(),
            0 < old(self)@.pcm.len() < unit,
        ensures
            final(self)@ == (FeedModel {
                pcm: padded(old(self)@.pcm, old(self)@.channels, unit as int),
                ..old(self)@
            }),
    {
        let ghost m = self@;
        let ghost full = padded(m.pcm, m.channels, unit as int);
        let len: usize = self.pcm.len();
        let c: usize = self.channels;
        proof {
            at_least_one_turn(len as int, c as int);
        }
        let mut cursor: usize = 0;
        let mut k: usize = 0;
        proof {
            vstd::arithmetic::div_mod::lemma_small_mod(0, c as nat);
            assert(self.pcm@ =~= full.take(len as int));
        }
        while k < unit - len
            invariant
                len < unit,
                k <= unit - len,
                0 < c <= len,
                c == m.channels,
                len == m.pcm.len(),
                cursor == k as int % c as int,
                cursor < c,
                full == padded(m.pcm, m.channels, unit as int),
                self.pcm@ == full.take(len + k),
                self@ == (FeedModel { pcm: full.take(len + k), ..m }),
            decreases unit - len - k,
        {
            let s: i16 = self.pcm[len - c + cursor];
            assert(s == full[len + k]);
            self.pcm.push(s);
            proof {
                next_turn(k as int, c as int);
                assert(self.pcm@ =~= full.take(len + k + 1));
            }
            cursor = if cursor + 1 == c {
                0
            } else {
                cursor + 1
            };
            k = k + 1;
        }
        assert(full.take(unit as int) =~= full);
    }

    /// Makes the last block, filled up.
    fn flush(&mut self) -> (r: Result<(), Error>)
        requires
            old(self).wf(),
            !old(self)@.flushed ==> old(self)@.emitted + old(self)@.pcm.len() + old(
                self,
            )@.per_block() <= i64::MAX,
        ensures
            final(self).wf(),
            flushed(old(self)@) == (final(self)@, error_of(r)),
    {
        if self.flushed {
            return Ok(());
        }
        self.flushed = true;
        let ghost m = self@;
        match self.drain() {
            Err(e) => {
                return Err(e);
            },
            Ok(_) => {},
        }
        if self.pcm.len() == 0 {
            return Ok(());
        }
        let ghost rest = self@;
        let n: usize = self.samples_per_block();
        proof {
            unit_bounds(rest);
        }
        let unit: usize = n * self.channels;
        self.pad(unit);
        let mut full: Vec<i16> = Vec::new();
        std::mem::swap(&mut self.pcm, &mut full);
        proof {
            vstd::arithmetic::div_mod::lemma_small_mod(0, rest.channels as nat);
            assert(self@.pcm =~= Seq::<i16>::empty());
            assert(self@ == (FeedModel { pcm: Seq::empty(), ..rest }));
            reveal(FeedModel::block);
        }
        match self.encode(full.as_slice()) {
            Ok(data) => {
                self.emit(data, n);
                Ok(())
            },
            Err(e) => Err(e),
        }
    }

    /// Takes the first packet that waits.
    fn receive_packet(&mut self) -> (r: Result<EncodedPacket, Error>)
        requires
            old(self).wf(),
        ensures
            final(self).wf(),
            match r {
                Ok(packet) => {
                    &&& old(self)@.pending.len() > 0
                    &&& packet@ == old(self)@.pending[0]
                    &&& final(self)@ == (FeedModel {
                        pending: old(self)@.pending.skip(1),
                        ..old(self)@
                    })
                },
                Err(e) => {
                    &&& e == Error::NeedMore
                    &&& old(self)@.pending.len() == 0
                    &&& final(self)@ == old(self)@
                },
            },
    {
        take_packet(&mut self.pending)
    }
}

/// Whole turns of samples are at least one, where there are samples.
proof fn at_least_one_turn(len: int, channels: int)
    requires
        channels > 0,
        len > 0,
        len % channels == 0,
    ensures
        channels <= len,
{
    if len < channels {
        vstd::arithmetic::div_mod::lemma_small_mod(len as nat, channels as nat);
    }
}

/// The encoder behind a frame.
pub open spec fn fed(m: FeedModel, bytes: Seq<u8>) -> (FeedModel, Option<Error>) {
    match pcm_error(bytes.len() as int, m.channels) {
        Some(e) => (m, Some(e)),
        None => drained(FeedModel { pcm: m.pcm + bytes_pcm(bytes), ..m }),
    }
}

/// The encoder behind the end of the stream. A second end changes nothing.
pub open spec fn flushed(m: FeedModel) -> (FeedModel, Option<Error>) {
    if m.flushed {
        (m, None)
    } else {
        finished(FeedModel { flushed: true, ..m })
    }
}

/// The error of a result.
pub open spec fn error_of<T>(r: Result<T, Error>) -> Option<Error> {
    match r {
        Ok(_) => None,
        Err(e) => Some(e),
    }
}

/// Making blocks changes neither what blocks are made nor how.
pub proof fn drained_keeps_format(m: FeedModel)
    ensures
        drained(m).0.format == m.format,
        drained(m).0.channels == m.channels,
        drained(m).0.block_size == m.block_size,
    decreases m.pcm.len(),
{
    let unit = m.unit();
    if unit > 0 && m.pcm.len() >= unit {
        match m.block(m.pcm.take(unit)) {
            Err(_) => {},
            Ok(data) => {
                drained_keeps_format(m.without(unit).with_block(m.pcm.take(unit), data));
            },
        }
    }
}

proof fn fed_keeps_format(m: FeedModel, bytes: Seq<u8>)
    ensures
        fed(m, bytes).0.format == m.format,
{
    drained_keeps_format(FeedModel { pcm: m.pcm + bytes_pcm(bytes), ..m });
}

proof fn flushed_keeps_format(m: FeedModel)
    ensures
        flushed(m).0.format == m.format,
{
    drained_keeps_format(FeedModel { flushed: true, ..m });
}

/// The frame encoder of Microsoft ADPCM.
pub struct MsEncoder {
    feed: BlockFeed,
}

impl View for MsEncoder {
    type V = FeedModel;

    closed spec fn view(&self) -> FeedModel {
        self.feed@
    }
}

impl MsEncoder {
    /// The samples and sizes are in order.
    pub closed spec fn wf(self) -> bool {
        self.feed.wf() && self@.format == BlockFormat::Ms
    }

    /// An encoder that has not seen a frame.
    pub fn new(channels: usize, block_size: usize, ticks: u32) -> (r: MsEncoder)
        requires
            1 <= channels <= 2,
            3 * block_size + 16 <= usize::MAX,
        ensures
            r.wf(),
            r@ == fresh_feed(
                BlockFormat::Ms,
                channels as int,
                block_size as int,
                ticks,
                Quantizer::Search,
            ),
    {
        MsEncoder {
            feed: BlockFeed::new(BlockFormat::Ms, channels, block_size, ticks, Quantizer::Search),
        }
    }

    /// Sets the bytes of a block, over all channels, before the first frame.
    pub fn set_block_size(&mut self, block_size: usize)
        requires
            old(self).wf(),
            3 * block_size + 16 <= usize::MAX,
        ensures
            final(self).wf(),
            final(self)@ == (FeedModel { block_size: block_size as int, ..old(self)@ }),
    {
        self.feed.block_size = block_size;
    }

    /// The extension of a WAV format header for the blocks that this encoder
    /// makes.
    pub fn wave_format_extra(&self) -> (r: Option<Vec<u8>>)
        requires
            self.wf(),
        ensures
            match r {
                Some(ext) => self@.wave_extra() == Some(ext@),
                None => self@.wave_extra() is None,
            },
    {
        Variant::Ms.build_wave_format_extra(self.feed.channels as u16, self.feed.block_size)
    }

    /// Takes in the samples of a frame, 16 bits each and the low byte first,
    /// and makes all whole blocks.
    pub fn send_frame(&mut self, bytes: &[u8]) -> (r: Result<(), Error>)
        requires
            old(self).wf(),
            old(self)@.emitted + old(self)@.pcm.len() + bytes@.len() <= i64::MAX,
        ensures
            final(self).wf(),
            fed(old(self)@, bytes@) == (final(self)@, error_of(r)),
    {
        proof {
            fed_keeps_format(self@, bytes@);
        }
        self.feed.send_frame(bytes)
    }

    /// Takes the first packet that waits.
    pub fn receive_packet(&mut self) -> (r: Result<EncodedPacket, Error>)
        requires
            old(self).wf(),
        ensures
            final(self).wf(),
            match r {
                Ok(packet) => {
                    &&& old(self)@.pending.len() > 0
                    &&& packet@ == old(self)@.pending[0]
                    &&& final(self)@ == (FeedModel {
                        pending: old(self)@.pending.skip(1),
                        ..old(self)@
                    })
                },
                Err(e) => {
                    &&& e == Error::NeedMore
                    &&& old(self)@.pending.len() == 0
                    &&& final(self)@ == old(self)@
                },
            },
    {
        self.feed.receive_packet()
    }

    /// Makes the last block, filled up with the last sample of each channel.
    pub fn flush(&mut self) -> (r: Result<(), Error>)
        requires
            old(self).wf(),
            !old(self)@.flushed ==> old(self)@.emitted + old(self)@.pcm.len() + old(
                self,
            )@.per_block() <= i64::MAX,
        ensures
            final(self).wf(),
            flushed(old(self)@) == (final(self)@, error_of(r)),
    {
        proof {
            flushed_keeps_format(self@);
        }
        self.feed.flush()
    }
}

/// The frame encoder of IMA ADPCM in WAV blocks.
pub struct ImaWavEncoder {
    feed: BlockFeed,
}

impl View for ImaWavEncoder {
    type V = FeedModel;

    closed spec fn view(&self) -> FeedModel {
        self.feed@
    }
}

impl ImaWavEncoder {
    /// The samples and sizes are in order.
    pub closed spec fn wf(self) -> bool {
        self.feed.wf() && (self@.format == BlockFormat::ImaWav || self@.format
            == BlockFormat::ImaWav3)
    }

    /// An encoder that has not seen a frame.
    pub fn new(channels: usize, block_size: usize, ticks: u32, quantizer: Quantizer) -> (r:
        ImaWavEncoder)
        requires
            1 <= channels <= 8,
            3 * block_size + 16 <= usize::MAX,
        ensures
            r.wf(),
            r@ == fresh_feed(
                BlockFormat::ImaWav,
                channels as int,
                block_size as int,
                ticks,
                quantizer,
            ),
    {
        ImaWavEncoder {
            feed: BlockFeed::new(BlockFormat::ImaWav, channels, block_size, ticks, quantizer),
        }
    }

    /// Sets the bytes of a block, over all channels, before the first frame.
    pub fn set_block_size(&mut self, block_size: usize)
        requires
            old(self).wf(),
            3 * block_size + 16 <= usize::MAX,
        ensures
            final(self).wf(),
            final(self)@ == (FeedModel { block_size: block_size as int, ..old(self)@ }),
    {
        self.feed.block_size = block_size;
    }

    /// Sets the bits of a code, three or four, before the first frame.
    pub fn set_bits_per_sample(&mut self, bits: u8)
        requires
            old(self).wf(),
            bits == 3 || bits == 4,
        ensures
            final(self).wf(),
            final(self)@ == (FeedModel { format: wav_format(bits as int), ..old(self)@ }),
    {
        self.feed.format = if bits == 3 {
            BlockFormat::ImaWav3
        } else {
            BlockFormat::ImaWav
        };
    }

    /// The extension of a WAV format header for the blocks that this encoder
    /// makes.
    pub fn wave_format_extra(&self) -> (r: Option<Vec<u8>>)
        requires
            self.wf(),
        ensures
            match r {
                Some(ext) => self@.wave_extra() == Some(ext@),
                None => self@.wave_extra() is None,
            },
    {
        if self.feed.format == BlockFormat::ImaWav3 {
            build_format_extra3(self.feed.channels, self.feed.block_size)
        } else {
            Variant::ImaWav.build_wave_format_extra(
                self.feed.channels as u16,
                self.feed.block_size,
            )
        }
    }

    /// Takes in the samples of a frame, 16 bits each and the low byte first,
    /// and makes all whole blocks.
    pub fn send_frame(&mut self, bytes: &[u8]) -> (r: Result<(), Error>)
        requires
            old(self).wf(),
            old(self)@.emitted + old(self)@.pcm.len() + bytes@.len() <= i64::MAX,
        ensures
            final(self).wf(),
            fed(old(self)@, bytes@) == (final(self)@, error_of(r)),
    {
        proof {
            fed_keeps_format(self@, bytes@);
        }
        self.feed.send_frame(bytes)
    }

    /// Takes the first packet that waits.
    pub fn receive_packet(&mut self) -> (r: Result<EncodedPacket, Error>)
        requires
            old(self).wf(),
        ensures
            final(self).wf(),
            match r {
                Ok(packet) => {
                    &&& old(self)@.pending.len() > 0
                    &&& packet@ == old(self)@.pending[0]
                    &&& final(self)@ == (FeedModel {
                        pending: old(self)@.pending.skip(1),
                        ..old(self)@
                    })
                },
                Err(e) => {
                    &&& e == Error::NeedMore
                    &&& old(self)@.pending.len() == 0
                    &&& final(self)@ == old(self)@
                },
            },
    {
        self.feed.receive_packet()
    }

    /// Makes the last block, filled up with the last sample of each channel.
    pub fn flush(&mut self) -> (r: Result<(), Error>)
        requires
            old(self).wf(),
            !old(self)@.flushed ==> old(self)@.emitted + old(self)@.pcm.len() + old(
                self,
            )@.per_block() <= i64::MAX,
        ensures
            final(self).wf(),
            flushed(old(self)@) == (final(self)@, error_of(r)),
    {
        proof {
            flushed_keeps_format(self@);
        }
        self.feed.flush()
    }
}

/// The frame encoder of IMA ADPCM in QuickTime blocks, whose size is fixed.
pub struct ImaQtEncoder {
    feed: BlockFeed,
}

impl View for ImaQtEncoder {
    type V = FeedModel;

    closed spec fn view(&self) -> FeedModel {
        self.feed@
    }
}

impl ImaQtEncoder {
    /// The samples and sizes are in order.
    pub closed spec fn wf(self) -> bool {
        self.feed.wf() && self@.format == BlockFormat::ImaQt
    }

    /// An encoder that has not seen a frame.
    pub fn new(channels: usize, ticks: u32, quantizer: Quantizer) -> (r: ImaQtEncoder)
        requires
            1 <= channels <= 2,
        ensures
            r.wf(),
            r@ == fresh_feed(BlockFormat::ImaQt, channels as int, 0, ticks, quantizer),
    {
        ImaQtEncoder { feed: BlockFeed::new(BlockFormat::ImaQt, channels, 0, ticks, quantizer) }
    }

    /// The extension of a WAV format header: QuickTime blocks have none.
    pub fn wave_format_extra(&self) -> (r: Option<Vec<u8>>)
        requires
            self.wf(),
        ensures
            r is None,
            self@.wave_extra() is None,
    {
        None
    }

    /// Takes in the samples of a frame, 16 bits each and the low byte first,
    /// and makes all whole blocks.
    pub fn send_frame(&mut self, bytes: &[u8]) -> (r: Result<(), Error>)
        requires
            old(self).wf(),
            old(self)@.emitted + old(self)@.pcm.len() + bytes@.len() <= i64::MAX,
        ensures
            final(self).wf(),
            fed(old(self)@, bytes@) == (final(self)@, error_of(r)),
    {
        proof {
            fed_keeps_format(self@, bytes@);
        }
        self.feed.send_frame(bytes)
    }

    /// Takes the first packet that waits.
    pub fn receive_packet(&mut self) -> (r: Result<EncodedPacket, Error>)
        requires
            old(self).wf(),
        ensures
            final(self).wf(),
            match r {
                Ok(packet) => {
                    &&& old(self)@.pending.len() > 0
                    &&& packet@ == old(self)@.pending[0]
                    &&& final(self)@ == (FeedModel {
                        pending: old(self)@.pending.skip(1),
                        ..old(self)@
                    })
                },
                Err(e) => {
                    &&& e == Error::NeedMore
                    &&& old(self)@.pending.len() == 0
                    &&& final(self)@ == old(self)@
                },
            },
    {
        self.feed.receive_packet()
    }

    /// Makes the last block, filled up with the last sample of each channel.
    pub fn flush(&mut self) -> (r: Result<(), Error>)
        requires
            old(self).wf(),
            !old(self)@.flushed ==> old(self)@.emitted + old(self)@.pcm.len() + old(
                self,
            )@.per_block() <= i64::MAX,
        ensures
            final(self).wf(),
            flushed(old(self)@) == (final(self)@, error_of(r)),
    {
        proof {
            flushed_keeps_format(self@);
        }
        self.feed.flush()
    }
}

// ---- What holds of the block encoders as wholes ----

/// More samples behind those of an encoder.
pub open spec fn with_samples(m: FeedModel, more: Seq<i16>) -> FeedModel {
    FeedModel { pcm: m.pcm + more, ..m }
}

/// Samples that come later change nothing about the blocks before them.
pub proof fn drained_goes_on(m: FeedModel, more: Seq<i16>)
    requires
        drained(m).1 is None,
    ensures
        drained(with_samples(m, more)) == drained(with_samples(drained(m).0, more)),
    decreases m.pcm.len(),
{
    let unit = m.unit();
    if unit > 0 && m.pcm.len() >= unit {
        let longer = with_samples(m, more);
        assert(longer.pcm.take(unit) =~= m.pcm.take(unit));
        reveal(FeedModel::block);
        match m.block(m.pcm.take(unit)) {
            Err(_) => {},
            Ok(data) => {
                let block = m.pcm.take(unit);
                let n = m.without(unit).with_block(block, data);
                reveal(FeedModel::states_behind);
                assert(longer.pcm.skip(unit) =~= m.pcm.skip(unit) + more);
                assert(longer.without(unit).with_block(block, data) == with_samples(n, more));
                drained_goes_on(n, more);
            },
        }
    }
}

/// How samples are cut into frames makes no difference.
pub proof fn frames_join(m: FeedModel, a: Seq<u8>, b: Seq<u8>)
    requires
        m.channels > 0,
        pcm_error(a.len() as int, m.channels) is None,
        pcm_error(b.len() as int, m.channels) is None,
        fed(m, a).1 is None,
    ensures
        fed(fed(m, a).0, b) == fed(m, a + b),
{
    drained_keeps_format(with_samples(m, bytes_pcm(a)));
    let x = a.len() as int / 2;
    let y = b.len() as int / 2;
    assert((a + b).len() as int / 2 == x + y);
    vstd::arithmetic::div_mod::lemma_add_mod_noop(x, y, m.channels);
    vstd::arithmetic::div_mod::lemma_small_mod(0, m.channels as nat);
    drained_goes_on(with_samples(m, bytes_pcm(a)), bytes_pcm(b));
    assert(bytes_pcm(a + b) =~= bytes_pcm(a) + bytes_pcm(b));
    assert((m.pcm + bytes_pcm(a)) + bytes_pcm(b) =~= m.pcm + (bytes_pcm(a) + bytes_pcm(b)));
}

/// So many blocks come of so many samples, and what remains is less than a
/// block.
pub proof fn drained_counts(m: FeedModel)
    requires
        m.unit() > 0,
        drained(m).1 is None,
    ensures
        ({
            let blocks = m.pcm.len() as int / m.unit();
            let n = drained(m).0;
            &&& n.pending.len() == m.pending.len() + blocks
            &&& n.emitted == m.emitted + blocks * m.per_block()
            &&& n.pcm == m.pcm.skip(blocks * m.unit())
            &&& n.pcm.len() < m.unit()
        }),
    decreases m.pcm.len(),
{
    let unit = m.unit();
    let len = m.pcm.len() as int;
    vstd::arithmetic::div_mod::lemma_fundamental_div_mod(len, unit);
    vstd::arithmetic::div_mod::lemma_mod_bound(len, unit);
    if len < unit {
        vstd::arithmetic::div_mod::lemma_basic_div(len, unit);
        assert(m.pcm.skip(0) =~= m.pcm);
        assert(0 * unit == 0);
        assert(0 * m.per_block() == 0);
    } else {
        match m.block(m.pcm.take(unit)) {
            Err(_) => {},
            Ok(data) => {
                let n = m.without(unit).with_block(m.pcm.take(unit), data);
                drained_counts(n);
                let k = (len - unit) / unit;
                vstd::arithmetic::div_mod::lemma_div_minus_one(len, unit);
                assert(k == len / unit - 1);
                vstd::arithmetic::div_mod::lemma_div_pos_is_pos(len - unit, unit);
                assert((k + 1) * unit == k * unit + unit) by (nonlinear_arith);
                let p = m.per_block();
                assert((k + 1) * p == k * p + p) by (nonlinear_arith);
                assert(k * unit <= len - unit) by {
                    vstd::arithmetic::div_mod::lemma_fundamental_div_mod(len - unit, unit);
                    vstd::arithmetic::div_mod::lemma_mod_bound(len - unit, unit);
                    vstd::arithmetic::mul::lemma_mul_is_commutative(k, unit);
                }
                assert(k * unit >= 0) by (nonlinear_arith)
                    requires
                        k >= 0,
                        unit > 0,
                ;
                assert(m.pcm.skip(unit).skip(k * unit) =~= m.pcm.skip((k + 1) * unit));
            },
        }
    }
}

/// At the end of the stream every sample is in a block, and the time stamps
/// count whole blocks.
pub proof fn finished_counts(m: FeedModel)
    requires
        m.wf(),
        finished(m).1 is None,
    ensures
        ({
            let blocks = (m.pcm.len() as int + m.unit() - 1) / m.unit();
            let n = finished(m).0;
            &&& n.pending.len() == m.pending.len() + blocks
            &&& n.emitted == m.emitted + blocks * m.per_block()
            &&& n.pcm.len() == 0
        }),
{
    unit_bounds(m);
    drained_counts(m);
    drained_keeps_format(m);
    let unit = m.unit();
    let len = m.pcm.len() as int;
    let k = len / unit;
    vstd::arithmetic::div_mod::lemma_fundamental_div_mod(len, unit);
    vstd::arithmetic::div_mod::lemma_mod_bound(len, unit);
    let r = len % unit;
    let rest = drained(m).0;
    assert(k * unit == unit * k) by (nonlinear_arith);
    assert(k >= 0) by {
        vstd::arithmetic::div_mod::lemma_div_pos_is_pos(len, unit);
    }
    assert(k * unit >= 0) by (nonlinear_arith)
        requires
            k >= 0,
            unit > 0,
    ;
    assert(rest.pcm.len() == r);
    let p = m.per_block();
    if r == 0 {
        vstd::arithmetic::div_mod::lemma_fundamental_div_mod_converse(
            len + unit - 1,
            unit,
            k,
            unit - 1,
        );
    } else {
        assert((k + 1) * unit == k * unit + unit) by (nonlinear_arith);
        vstd::arithmetic::div_mod::lemma_fundamental_div_mod_converse(
            len + unit - 1,
            unit,
            k + 1,
            r - 1,
        );
        assert((k + 1) * p == k * p + p) by (nonlinear_arith);
        assert(rest.per_block() == p);
    }
}

/// The size leaves room for a block's headers, and for IMA ADPCM for whole groups
/// of all channels.
pub open spec fn sizeable(m: FeedModel) -> bool {
    match m.format {
        BlockFormat::Ms => 7 * m.channels <= m.block_size,
        BlockFormat::ImaWav => 4 * m.channels <= m.block_size && m.block_size % (4 * m.channels)
            == 0,
        BlockFormat::ImaWav3 => 4 * m.channels <= m.block_size && (m.block_size - 4 * m.channels)
            % (12 * m.channels) == 0,
        BlockFormat::ImaQt => true,
    }
}

/// Whole blocks can always be made in blocks of a suitable size.
pub proof fn whole_blocks_can_be_made(m: FeedModel, samples: Seq<i16>)
    requires
        m.wf(),
        sizeable(m),
        samples.len() == m.unit(),
    ensures
        m.block(samples) is Ok,
{
    reveal(FeedModel::block);
    unit_bounds(m);
    let c = m.channels;
    let n = m.per_block();
    match m.format {
        BlockFormat::Ms => {
            vstd::arithmetic::div_mod::lemma_div_multiples_vanish(n, c);
            vstd::arithmetic::mul::lemma_mul_is_commutative(n, c);
            vstd::arithmetic::div_mod::lemma_div_pos_is_pos(2 * (m.block_size - 7 * c), c);
        },
        BlockFormat::ImaWav => {
            vstd::arithmetic::div_mod::lemma_mod_sub_multiples_vanish(m.block_size, 4 * c);
        },
        BlockFormat::ImaWav3 | BlockFormat::ImaQt => {},
    }
}

} // verus!
