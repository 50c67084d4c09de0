//! Frame encoders of the stream codecs: one packet for each frame, with the
//! state carried from frame to frame.

use std::collections::VecDeque;

use vstd::prelude::*;

use crate::dialogic::{
    self, encode_packet_multi_wide16, narrowed, sample_seq, vox_picker, vox_runs_valid,
    vox_stepper, NibbleOrder, VoxModel,
};
use crate::error::Error;
use crate::frame_encoder::{
    error_of, packet_models, take_packet, EncodedPacket, PacketModel,
};
use crate::lanes::{
    lanes_chosen, lanes_chosen_split, lanes_track, lanes_track_split, lanes_track_step, packed,
    packed_join,
};
use crate::pcm::{bytes_pcm, pcm_error, push_pcm};
use crate::yamaha::{
    self, yamaha_picker, yamaha_run_valid, yamaha_stepper, Chip, YamahaModel,
};
use crate::yamaha_a::{self, rhythm_picker, rhythm_stepper, targets_of, RhythmModel};

verus! {

/// A stream encoder over mathematical values.
pub struct StreamModel<S> {
    /// The states of the channels.
    pub states: Seq<S>,
    /// Ticks of the time stamps per second.
    pub ticks: u32,
    /// The packets that wait to be taken.
    pub pending: Seq<PacketModel>,
    /// The samples per channel in packets.
    pub emitted: int,
}

impl<S> StreamModel<S> {
    /// The encoder with one more frame of the given targets in its packets.
    pub open spec fn with_frame(
        self,
        targets: Seq<int>,
        pick: spec_fn(S, int) -> int,
        next: spec_fn(S, int) -> S,
        low_first: bool,
    ) -> StreamModel<S> {
        StreamModel {
            states: lanes_track(self.states, targets, pick, next, targets.len() as int),
            pending: self.pending.push(
                PacketModel {
                    pts: self.emitted,
                    ticks: self.ticks,
                    data: packed(lanes_chosen(self.states, targets, pick, next), low_first),
                },
            ),
            emitted: self.emitted + targets.len() as int / self.states.len() as int,
            ..self
        }
    }

    /// The encoder without its first packet.
    pub open spec fn without_packet(self) -> StreamModel<S> {
        StreamModel { pending: self.pending.skip(1), ..self }
    }
}

// ---- VOX ----

/// The frame encoder of VOX.
pub struct DialogicEncoder {
    state: Vec<dialogic::Channel>,
    order: NibbleOrder,
    ticks: u32,
    pending: VecDeque<EncodedPacket>,
    emitted: i64,
}

impl View for DialogicEncoder {
    type V = StreamModel<VoxModel>;

    closed spec fn view(&self) -> StreamModel<VoxModel> {
        StreamModel {
            states: dialogic::models(self.state@),
            ticks: self.ticks,
            pending: packet_models(self.pending@),
            emitted: self.emitted as int,
        }
    }
}

/// The encoder behind a frame.
pub open spec fn vox_fed(m: StreamModel<VoxModel>, order: NibbleOrder, bytes: Seq<u8>) -> (
    StreamModel<VoxModel>,
    Option<Error>,
) {
    match pcm_error(bytes.len() as int, m.states.len() as int) {
        Some(e) => (m, Some(e)),
        None => if bytes.len() == 0 {
            (m, None)
        } else {
            (
                m.with_frame(
                    narrowed(bytes_pcm(bytes)),
                    vox_picker(),
                    vox_stepper(),
                    order is LoFirst,
                ),
                None,
            )
        },
    }
}

impl DialogicEncoder {
    /// The states are in order.
    pub closed spec fn wf(self) -> bool {
        &&& self.state@.len() > 0
        &&& forall|ch: int| 0 <= ch < self.state@.len() ==> (#[trigger] self@.states[ch]).valid()
        &&& self.emitted >= 0
    }

    /// Which nibble of a byte holds the earlier code.
    pub closed spec fn nibble_order(self) -> NibbleOrder {
        self.order
    }

    /// An encoder that has not seen a frame.
    pub fn new(channels: usize, order: NibbleOrder, ticks: u32) -> (r: DialogicEncoder)
        requires
            channels > 0,
        ensures
            r.wf(),
            r.nibble_order() == order,
            r@ == (StreamModel {
                states: Seq::new(channels as nat, |ch: int| dialogic::fresh()),
                ticks,
                pending: Seq::empty(),
                emitted: 0,
            }),
    {
        let state: Vec<dialogic::Channel> = vec![
            dialogic::Channel { predictor: 0, step_index: 0 };
            channels
        ];
        let r: DialogicEncoder = DialogicEncoder {
            state,
            order,
            ticks,
            pending: VecDeque::new(),
            emitted: 0,
        };
        assert(r@.pending =~= Seq::<PacketModel>::empty());
        assert(r@.states =~= Seq::new(channels as nat, |ch: int| dialogic::fresh()));
        r
    }

    /// Encodes the samples of a frame, 16 bits each and the low byte first, to
    /// one packet.
    pub fn send_frame(&mut self, bytes: &[u8]) -> (r: Result<(), Error>)
        requires
            old(self).wf(),
            old(self)@.emitted + bytes@.len() <= i64::MAX,
        ensures
            final(self).wf(),
            final(self).nibble_order() == old(self).nibble_order(),
            vox_fed(old(self)@, old(self).nibble_order(), bytes@) == (final(self)@, error_of(r)),
    {
        let ghost m = self@;
        let channels: usize = self.state.len();
        let mut pcm: Vec<i16> = Vec::new();
        match push_pcm(&mut pcm, bytes, channels) {
            Err(e) => {
                return Err(e);
            },
            Ok(_) => {},
        }
        assert(pcm@ =~= bytes_pcm(bytes@));
        if pcm.len() == 0 {
            return Ok(());
        }
        let ghost targets = narrowed(pcm@);
        proof {
            vox_runs_valid(m.states, targets);
            vstd::arithmetic::div_mod::lemma_div_is_ordered_by_denominator(
                pcm@.len() as int,
                1,
                channels as int,
            );
        }
        let n: usize = pcm.len() / channels;
        let data: Vec<u8> = encode_packet_multi_wide16(
            pcm.as_slice(),
            self.state.as_mut_slice(),
            self.order,
        );
        let packet: EncodedPacket = EncodedPacket { pts: self.emitted, ticks: self.ticks, data };
        self.pending.push_back(packet);
        self.emitted = self.emitted + n as i64;
        proof {
            let want = m.with_frame(targets, vox_picker(), vox_stepper(), self.order is LoFirst);
            assert(self@.pending =~= want.pending);
            assert(self@.states =~= want.states);
            assert(self@ == want);
        }
        Ok(())
    }

    /// Takes the first packet that waits.
    pub fn receive_packet(&mut self) -> (r: Result<EncodedPacket, Error>)
        requires
            old(self).wf(),
        ensures
            final(self).wf(),
            final(self).nibble_order() == old(self).nibble_order(),
            match r {
                Ok(packet) => {
                    &&& old(self)@.pending.len() > 0
                    &&& packet@ == old(self)@.pending[0]
                    &&& final(self)@ == old(self)@.without_packet()
                },
                Err(e) => {
                    &&& e == Error::NeedMore
                    &&& old(self)@.pending.len() == 0
                    &&& final(self)@ == old(self)@
                },
            },
    {
        let r: Result<EncodedPacket, Error> = take_packet(&mut self.pending);
        assert(self@.states == old(self)@.states);
        r
    }
}

// ---- ADPCM-B ----

/// The frame encoder of ADPCM-B.
pub struct YamahaEncoder {
    state: Vec<yamaha::Channel>,
    ticks: u32,
    pending: VecDeque<EncodedPacket>,
    emitted: i64,
}

impl View for YamahaEncoder {
    type V = StreamModel<YamahaModel>;

    closed spec fn view(&self) -> StreamModel<YamahaModel> {
        StreamModel {
            states: yamaha::models(self.state@),
            ticks: self.ticks,
            pending: packet_models(self.pending@),
            emitted: self.emitted as int,
        }
    }
}

/// The encoder behind a frame.
pub open spec fn yamaha_fed(m: StreamModel<YamahaModel>, bytes: Seq<u8>) -> (
    StreamModel<YamahaModel>,
    Option<Error>,
) {
    match pcm_error(bytes.len() as int, m.states.len() as int) {
        Some(e) => (m, Some(e)),
        None => if bytes.len() == 0 {
            (m, None)
        } else {
            (
                m.with_frame(
                    sample_seq(bytes_pcm(bytes)),
                    yamaha_picker(),
                    yamaha_stepper(),
                    true,
                ),
                None,
            )
        },
    }
}

impl YamahaEncoder {
    /// The states are in order.
    pub closed spec fn wf(self) -> bool {
        &&& self.state@.len() > 0
        &&& forall|ch: int| 0 <= ch < self.state@.len() ==> (#[trigger] self@.states[ch]).valid()
        &&& self.emitted >= 0
    }

    /// An encoder that has not seen a frame.
    pub fn new(channels: usize, chip: Chip, ticks: u32) -> (r: YamahaEncoder)
        requires
            channels > 0,
        ensures
            r.wf(),
            r@ == (StreamModel {
                states: Seq::new(channels as nat, |ch: int| yamaha::fresh(chip)),
                ticks,
                pending: Seq::empty(),
                emitted: 0,
            }),
    {
        let state: Vec<yamaha::Channel> = vec![yamaha::Channel::for_chip(chip); channels];
        let r: YamahaEncoder = YamahaEncoder {
            state,
            ticks,
            pending: VecDeque::new(),
            emitted: 0,
        };
        assert(r@.pending =~= Seq::<PacketModel>::empty());
        assert(r@.states =~= Seq::new(channels as nat, |ch: int| yamaha::fresh(chip)));
        r
    }

    /// Encodes the samples of a frame, 16 bits each and the low byte first, to
    /// one packet.
    pub fn send_frame(&mut self, bytes: &[u8]) -> (r: Result<(), Error>)
        requires
            old(self).wf(),
            old(self)@.emitted + bytes@.len() <= i64::MAX,
        ensures
            final(self).wf(),
            yamaha_fed(old(self)@, bytes@) == (final(self)@, error_of(r)),
    {
        let ghost m = self@;
        let channels: usize = self.state.len();
        let mut pcm: Vec<i16> = Vec::new();
        match push_pcm(&mut pcm, bytes, channels) {
            Err(e) => {
                return Err(e);
            },
            Ok(_) => {},
        }
        assert(pcm@ =~= bytes_pcm(bytes@));
        if pcm.len() == 0 {
            return Ok(());
        }
        let ghost targets = sample_seq(pcm@);
        proof {
            yamaha_run_valid(m.states, targets);
            vstd::arithmetic::div_mod::lemma_div_is_ordered_by_denominator(
                pcm@.len() as int,
                1,
                channels as int,
            );
        }
        let n: usize = pcm.len() / channels;
        let data: Vec<u8> = yamaha::encode_packet(pcm.as_slice(), self.state.as_mut_slice());
        let packet: EncodedPacket = EncodedPacket { pts: self.emitted, ticks: self.ticks, data };
        self.pending.push_back(packet);
        self.emitted = self.emitted + n as i64;
        proof {
            let want = m.with_frame(targets, yamaha_picker(), yamaha_stepper(), true);
            assert(self@.pending =~= want.pending);
            assert(self@.states =~= want.states);
            assert(self@ == want);
        }
        Ok(())
    }

    /// Takes the first packet that waits.
    pub fn receive_packet(&mut self) -> (r: Result<EncodedPacket, Error>)
        requires
            old(self).wf(),
        ensures
            final(self).wf(),
            match r {
                Ok(packet) => {
                    &&& old(self)@.pending.len() > 0
                    &&& packet@ == old(self)@.pending[0]
                    &&& final(self)@ == old(self)@.without_packet()
                },
                Err(e) => {
                    &&& e == Error::NeedMore
                    &&& old(self)@.pending.len() == 0
                    &&& final(self)@ == old(self)@
                },
            },
    {
        take_packet(&mut self.pending)
    }
}

// ---- ADPCM-A ----

/// The frame encoder of ADPCM-A, of one channel.
pub struct YamahaAEncoder {
    state: Vec<yamaha_a::Channel>,
    ticks: u32,
    pending: VecDeque<EncodedPacket>,
    emitted: i64,
}

impl View for YamahaAEncoder {
    type V = StreamModel<RhythmModel>;

    closed spec fn view(&self) -> StreamModel<RhythmModel> {
        StreamModel {
            states: seq![self.state@[0]@],
            ticks: self.ticks,
            pending: packet_models(self.pending@),
            emitted: self.emitted as int,
        }
    }
}

/// The encoder behind a frame.
pub open spec fn rhythm_fed(m: StreamModel<RhythmModel>, bytes: Seq<u8>) -> (
    StreamModel<RhythmModel>,
    Option<Error>,
) {
    match pcm_error(bytes.len() as int, 1) {
        Some(e) => (m, Some(e)),
        None => if bytes.len() == 0 {
            (m, None)
        } else {
            (
                m.with_frame(
                    targets_of(bytes_pcm(bytes), yamaha_a::Output::Wide16),
                    rhythm_picker(),
                    rhythm_stepper(),
                    true,
                ),
                None,
            )
        },
    }
}

impl YamahaAEncoder {
    /// There is a state.
    pub closed spec fn wf(self) -> bool {
        self.state@.len() == 1 && self.emitted >= 0
    }

    /// An encoder that has not seen a frame.
    pub fn new(ticks: u32) -> (r: YamahaAEncoder)
        ensures
            r.wf(),
            r@ == (StreamModel {
                states: seq![yamaha_a::fresh()],
                ticks,
                pending: Seq::empty(),
                emitted: 0,
            }),
    {
        let state: Vec<yamaha_a::Channel> = vec![yamaha_a::Channel { acc: 0, step_index: 0 }];
        let r: YamahaAEncoder = YamahaAEncoder {
            state,
            ticks,
            pending: VecDeque::new(),
            emitted: 0,
        };
        assert(r@.pending =~= Seq::<PacketModel>::empty());
        r
    }

    /// Encodes the samples of a frame, 16 bits each and the low byte first, to
    /// one packet.
    pub fn send_frame(&mut self, bytes: &[u8]) -> (r: Result<(), Error>)
        requires
            old(self).wf(),
            old(self)@.emitted + bytes@.len() <= i64::MAX,
        ensures
            final(self).wf(),
            rhythm_fed(old(self)@, bytes@) == (final(self)@, error_of(r)),
    {
        let ghost m = self@;
        let mut pcm: Vec<i16> = Vec::new();
        match push_pcm(&mut pcm, bytes, 1) {
            Err(e) => {
                return Err(e);
            },
            Ok(_) => {},
        }
        assert(pcm@ =~= bytes_pcm(bytes@));
        if pcm.len() == 0 {
            return Ok(());
        }
        let ghost targets = targets_of(pcm@, yamaha_a::Output::Wide16);
        proof {
            lanes_track_step(
                m.states,
                targets,
                rhythm_picker(),
                rhythm_stepper(),
                targets.len() as int,
            );
        }
        let n: i64 = pcm.len() as i64;
        let data: Vec<u8> = yamaha_a::encode_packet(
            pcm.as_slice(),
            self.state.as_mut_slice(),
            yamaha_a::Output::Wide16,
        );
        let packet: EncodedPacket = EncodedPacket { pts: self.emitted, ticks: self.ticks, data };
        self.pending.push_back(packet);
        self.emitted = self.emitted + n;
        proof {
            let want = m.with_frame(targets, rhythm_picker(), rhythm_stepper(), true);
            assert(self@.pending =~= want.pending);
            assert(self@.states =~= want.states);
            assert(m.states.len() == 1);
            vstd::arithmetic::div_mod::lemma_div_basics(targets.len() as int);
            assert(self@ == want);
        }
        Ok(())
    }

    /// Takes the first packet that waits.
    pub fn receive_packet(&mut self) -> (r: Result<EncodedPacket, Error>)
        requires
            old(self).wf(),
        ensures
            final(self).wf(),
            match r {
                Ok(packet) => {
                    &&& old(self)@.pending.len() > 0
                    &&& packet@ == old(self)@.pending[0]
                    &&& final(self)@ == old(self)@.without_packet()
                },
                Err(e) => {
                    &&& e == Error::NeedMore
                    &&& old(self)@.pending.len() == 0
                    &&& final(self)@ == old(self)@
                },
            },
    {
        take_packet(&mut self.pending)
    }
}

/// Two frames give the bytes, the states and the time of one, as long as the
/// first fills its bytes and gives each channel its turn equally often.
pub proof fn stream_frames_join<S>(
    m: StreamModel<S>,
    a: Seq<int>,
    b: Seq<int>,
    pick: spec_fn(S, int) -> int,
    next: spec_fn(S, int) -> S,
    low_first: bool,
)
    requires
        m.states.len() > 0,
        a.len() % m.states.len() == 0,
        a.len() % 2 == 0,
    ensures
        ({
            let one = m.with_frame(a + b, pick, next, low_first);
            let first = m.with_frame(a, pick, next, low_first);
            let two = first.with_frame(b, pick, next, low_first);
            &&& one.states == two.states
            &&& one.emitted == two.emitted
            &&& one.pending.last().data == first.pending.last().data + two.pending.last().data
        }),
{
    let c = m.states.len() as int;
    let n = a.len() as int;
    lanes_track_step(m.states, a, pick, next, n);
    lanes_track_split(m.states, a, b, pick, next, b.len() as int);
    lanes_chosen_split(m.states, a, b, pick, next);
    let middle = lanes_track(m.states, a, pick, next, n);
    let x = lanes_chosen(m.states, a, pick, next);
    let y = lanes_chosen(middle, b, pick, next);
    packed_join(x, y, low_first);
    vstd::arithmetic::div_mod::lemma_fundamental_div_mod(n, c);
    let q = n / c;
    vstd::arithmetic::div_mod::lemma_hoist_over_denominator(b.len() as int, q, c as nat);
    vstd::arithmetic::mul::lemma_mul_is_commutative(q, c);
    assert((a + b).len() == b.len() + q * c);
}

} // verus!
