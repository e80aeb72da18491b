//! Client session loop, as a state machine.
//!
//! The session is driven by one call of [`Session::step`] per loop iteration.
//! Each step samples the externally supplied push-to-talk signal, a batch of
//! newly captured microphone samples (only read while transmitting) and at
//! most one received datagram (only read while idle), and returns the actions
//! the caller must perform: send an encoded block, run the effects engine and
//! play a received block, or play one squelch burst. The caller owns the
//! socket, the clock and the effects engine; every decision is taken here.

use vstd::prelude::*;

use crate::block::SampleBlock;
use crate::codec::{spec_decode, Packet, PacketModel};
use crate::TX_BUFFER_SIZE;

verus! {

/// Sample rate shared by every component, in samples per second.
pub const SAMPLE_RATE: u64 = 44100;

/// Nominal time between two consecutive audio blocks, in microseconds:
/// the time one block of samples takes to play.
pub const BLOCK_INTERVAL_MICROS: u64 = 1_000_000 * (TX_BUFFER_SIZE as u64) / SAMPLE_RATE;

/// How long the idle side waits for the next audio packet before it judges
/// the transmission over: seven nominal block intervals. Covers the case
/// where the remote release burst itself was lost.
pub const SILENCE_TIMEOUT_MICROS: u64 = 7 * BLOCK_INTERVAL_MICROS;

/// What one step of the session asks its caller to do, in order.
pub enum Action {
    /// A transmission just ended: synthesise one squelch burst and queue it
    /// for playback.
    PlaySquelch,
    /// Encode this block as an `Audio` packet (after applying microphone
    /// gain) and send it to the relay.
    SendAudio(SampleBlock),
    /// A block was received: run the effects engine over it and queue it for
    /// playback.
    PlayAudio(SampleBlock),
    /// A `Ping` reached the client; not a defined data case, only logged.
    UnexpectedPing,
    /// A received datagram failed to decode; logged and discarded.
    DiscardBadPacket,
}

/// The model of an action: payloads as sample-word sequences.
pub enum ActionModel {
    PlaySquelch,
    SendAudio(Seq<u32>),
    PlayAudio(Seq<u32>),
    UnexpectedPing,
    DiscardBadPacket,
}

impl View for Action {
    type V = ActionModel;

    open spec fn view(&self) -> ActionModel {
        match self {
            Action::PlaySquelch => ActionModel::PlaySquelch,
            Action::SendAudio(b) => ActionModel::SendAudio(b@),
            Action::PlayAudio(b) => ActionModel::PlayAudio(b@),
            Action::UnexpectedPing => ActionModel::UnexpectedPing,
            Action::DiscardBadPacket => ActionModel::DiscardBadPacket,
        }
    }
}

/// The models of a sequence of actions.
pub open spec fn views_of(s: Seq<Action>) -> Seq<ActionModel> {
    s.map_values(|a: Action| a@)
}

/// The model of the session state.
pub struct SessionModel {
    /// The push-to-talk signal as sampled by the previous step.
    pub ptt: bool,
    /// Whether an incoming stream is currently judged live.
    pub signal_present: bool,
    /// When the last audio packet arrived, in microseconds.
    pub last_rx_micros: u64,
    /// Captured microphone samples not yet amounting to a full block.
    pub pending: Seq<u32>,
}

/// The client session state; see the module description.
pub struct Session {
    ptt: bool,
    signal_present: bool,
    last_rx_micros: u64,
    pending: Vec<u32>,
}

impl View for Session {
    type V = SessionModel;

    closed spec fn view(&self) -> SessionModel {
        SessionModel {
            ptt: self.ptt,
            signal_present: self.signal_present,
            last_rx_micros: self.last_rx_micros,
            pending: self.pending@,
        }
    }
}

/// The view of an optional batch of samples.
pub open spec fn mic_view(mic: Option<Vec<u32>>) -> Option<Seq<u32>> {
    match mic {
        Some(v) => Some(v@),
        None => None,
    }
}

/// The view of an optional received datagram.
pub open spec fn datagram_view(datagram: Option<Vec<u8>>) -> Option<Seq<u8>> {
    match datagram {
        Some(v) => Some(v@),
        None => None,
    }
}

/// The send actions that chunking an accumulated sample sequence emits: one
/// `SendAudio` per full block, oldest first.
pub open spec fn send_actions(acc: Seq<u32>) -> Seq<ActionModel>
    decreases acc.len(),
{
    if acc.len() < TX_BUFFER_SIZE {
        Seq::empty()
    } else {
        seq![ActionModel::SendAudio(acc.take(TX_BUFFER_SIZE as int))] + send_actions(
            acc.skip(TX_BUFFER_SIZE as int),
        )
    }
}

/// What chunking leaves pending: the final fragment shorter than one block.
pub open spec fn leftover(acc: Seq<u32>) -> Seq<u32>
    decreases acc.len(),
{
    if acc.len() < TX_BUFFER_SIZE {
        acc
    } else {
        leftover(acc.skip(TX_BUFFER_SIZE as int))
    }
}

/// The squelch burst played the moment push-to-talk is released.
pub open spec fn release_burst(pre: SessionModel, ptt: bool) -> Seq<ActionModel> {
    if pre.ptt && !ptt {
        seq![ActionModel::PlaySquelch]
    } else {
        Seq::empty()
    }
}

/// Whether the silence timeout expires at time `now`: a stream was live and
/// no audio has arrived for the full timeout.
pub open spec fn timeout_expired(pre: SessionModel, now: u64) -> bool {
    pre.signal_present && now >= pre.last_rx_micros + SILENCE_TIMEOUT_MICROS
}

/// The session state after one step.
pub open spec fn step_model(
    pre: SessionModel,
    ptt: bool,
    now: u64,
    mic: Option<Seq<u32>>,
    datagram: Option<Seq<u8>>,
) -> SessionModel {
    if ptt {
        let acc = match mic {
            Some(s) => pre.pending + s,
            None => pre.pending,
        };
        SessionModel { ptt, pending: leftover(acc), ..pre }
    } else {
        match datagram {
            Some(bs) => match spec_decode(bs) {
                Ok(PacketModel::Audio(ws)) => SessionModel {
                    ptt,
                    signal_present: true,
                    last_rx_micros: now,
                    ..pre
                },
                _ => SessionModel { ptt, ..pre },
            },
            None => {
                if timeout_expired(pre, now) {
                    SessionModel { ptt, signal_present: false, ..pre }
                } else {
                    SessionModel { ptt, ..pre }
                }
            },
        }
    }
}

/// The actions one step emits, in order.
pub open spec fn step_actions(
    pre: SessionModel,
    ptt: bool,
    now: u64,
    mic: Option<Seq<u32>>,
    datagram: Option<Seq<u8>>,
) -> Seq<ActionModel> {
    release_burst(pre, ptt) + (if ptt {
        match mic {
            Some(s) => send_actions(pre.pending + s),
            None => Seq::empty(),
        }
    } else {
        match datagram {
            Some(bs) => match spec_decode(bs) {
                Ok(PacketModel::Audio(ws)) => seq![ActionModel::PlayAudio(ws)],
                Ok(PacketModel::Ping) => seq![ActionModel::UnexpectedPing],
                Err(_) => seq![ActionModel::DiscardBadPacket],
            },
            None => {
                if timeout_expired(pre, now) {
                    seq![ActionModel::PlaySquelch]
                } else {
                    Seq::empty()
                }
            },
        }
    })
}

/// Appending one action appends its model.
proof fn lemma_views_push(s: Seq<Action>, a: Action)
    ensures
        views_of(s.push(a)) == views_of(s).push(a@),
{
    assert(views_of(s.push(a)) =~= views_of(s).push(a@));
}

impl Session {
    /// The session never holds a full block back: chunking always leaves less
    /// than one block pending.
    pub open spec fn wf(&self) -> bool {
        self@.pending.len() < TX_BUFFER_SIZE
    }

    /// A fresh session: idle, no live stream, nothing pending; `now_micros`
    /// is the current reading of the caller's monotonic clock.
    pub fn new(now_micros: u64) -> (r: Self)
        ensures
            r.wf(),
            r@ == (SessionModel {
                ptt: false,
                signal_present: false,
                last_rx_micros: now_micros,
                pending: Seq::<u32>::empty(),
            }),
    {
        let r = Session {
            ptt: false,
            signal_present: false,
            last_rx_micros: now_micros,
            pending: Vec::new(),
        };
        proof {
            assert(r@.pending =~= Seq::<u32>::empty());
        }
        r
    }

    /// Appends newly captured samples and emits one `SendAudio` per full
    /// block accumulated, keeping the fragment.
    fn pump_mic(&mut self, samples: Vec<u32>, acts: &mut Vec<Action>)
        ensures
            final(self)@ == (SessionModel {
                pending: leftover(old(self)@.pending + samples@),
                ..old(self)@
            }),
            views_of(final(acts)@) == views_of(old(acts)@) + send_actions(
                old(self)@.pending + samples@,
            ),
            final(self).wf(),
    {
        let ghost acc = self.pending@ + samples@;
        let ghost base = views_of(acts@);
        let mut samples = samples;
        self.pending.append(&mut samples);
        proof {
            assert(views_of(acts@) + send_actions(self.pending@) =~= base + send_actions(acc));
        }
        while self.pending.len() >= TX_BUFFER_SIZE
            invariant
                views_of(acts@) + send_actions(self.pending@) == base + send_actions(acc),
                leftover(self.pending@) == leftover(acc),
                self.ptt == old(self).ptt,
                self.signal_present == old(self).signal_present,
                self.last_rx_micros == old(self).last_rx_micros,
            decreases self.pending@.len(),
        {
            let ghost p = self.pending@;
            let mut rest = self.pending.split_off(TX_BUFFER_SIZE);
            core::mem::swap(&mut self.pending, &mut rest);
            proof {
                assert(rest@ =~= p.take(TX_BUFFER_SIZE as int));
                assert(self.pending@ =~= p.skip(TX_BUFFER_SIZE as int));
            }
            let block = SampleBlock::from_exact(rest);
            proof {
                lemma_views_push(acts@, Action::SendAudio(block));
            }
            acts.push(Action::SendAudio(block));
            proof {
                assert(send_actions(p) == seq![ActionModel::SendAudio(p.take(TX_BUFFER_SIZE as int))]
                    + send_actions(p.skip(TX_BUFFER_SIZE as int)));
                assert(views_of(acts@) + send_actions(self.pending@) =~= base + send_actions(acc));
            }
        }
    }

    /// One iteration of the session loop.
    ///
    /// `ptt` is the externally driven push-to-talk signal, `now_micros` the
    /// caller's monotonic clock. `mic` is the batch of samples captured since
    /// the previous step, read only while transmitting; `datagram` is the
    /// datagram received since the previous step, read only while idle.
    pub fn step(
        &mut self,
        ptt: bool,
        now_micros: u64,
        mic: Option<Vec<u32>>,
        datagram: Option<Vec<u8>>,
    ) -> (acts: Vec<Action>)
        requires
            old(self).wf(),
        ensures
            final(self).wf(),
            final(self)@ == step_model(
                old(self)@,
                ptt,
                now_micros,
                mic_view(mic),
                datagram_view(datagram),
            ),
            views_of(acts@) == step_actions(
                old(self)@,
                ptt,
                now_micros,
                mic_view(mic),
                datagram_view(datagram),
            ),
    {
        let ghost pre = self@;
        let mut acts: Vec<Action> = Vec::new();
        if self.ptt && !ptt {
            proof {
                lemma_views_push(acts@, Action::PlaySquelch);
            }
            acts.push(Action::PlaySquelch);
        }
        self.ptt = ptt;
        proof {
            assert(views_of(acts@) =~= release_burst(pre, ptt));
        }
        if ptt {
            match mic {
                Some(samples) => {
                    self.pump_mic(samples, &mut acts);
                },
                None => {},
            }
        } else {
            match &datagram {
                Some(bytes) => {
                    match Packet::decode(bytes.as_slice()) {
                        Ok(Packet::Audio(b)) => {
                            self.last_rx_micros = now_micros;
                            self.signal_present = true;
                            proof {
                                lemma_views_push(acts@, Action::PlayAudio(b));
                            }
                            acts.push(Action::PlayAudio(b));
                        },
                        Ok(Packet::Ping) => {
                            proof {
                                lemma_views_push(acts@, Action::UnexpectedPing);
                            }
                            acts.push(Action::UnexpectedPing);
                        },
                        Err(_) => {
                            proof {
                                lemma_views_push(acts@, Action::DiscardBadPacket);
                            }
                            acts.push(Action::DiscardBadPacket);
                        },
                    }
                },
                None => {
                    if self.signal_present && now_micros >= self.last_rx_micros && now_micros
                        - self.last_rx_micros >= SILENCE_TIMEOUT_MICROS {
                        self.signal_present = false;
                        proof {
                            lemma_views_push(acts@, Action::PlaySquelch);
                        }
                        acts.push(Action::PlaySquelch);
                    }
                },
            }
        }
        proof {
            assert(views_of(acts@) =~= step_actions(
                pre,
                ptt,
                now_micros,
                mic_view(mic),
                datagram_view(datagram),
            ));
        }
        acts
    }
}

/// Silence timeout fires exactly once. If a stream was live and the timeout
/// has expired while the session is idle, the expiring step emits exactly one
/// squelch burst and clears "signal present"; an idle step at any later time
/// emits nothing further.
pub proof fn lemma_silence_timeout_once(pre: SessionModel, now1: u64, now2: u64)
    requires
        !pre.ptt,
        timeout_expired(pre, now1),
        now2 >= now1,
    ensures
        step_actions(pre, false, now1, None, None) == seq![ActionModel::PlaySquelch],
        !step_model(pre, false, now1, None, None).signal_present,
        step_actions(step_model(pre, false, now1, None, None), false, now2, None, None)
            == Seq::<ActionModel>::empty(),
        step_model(step_model(pre, false, now1, None, None), false, now2, None, None)
            == step_model(pre, false, now1, None, None),
{
    let s1 = step_model(pre, false, now1, None, None);
    assert(step_actions(pre, false, now1, None, None) =~= seq![ActionModel::PlaySquelch]);
    assert(step_actions(s1, false, now2, None, None) =~= Seq::<ActionModel>::empty());
}

/// A later arrival re-asserts "signal present" without re-triggering the
/// burst: an idle step that receives a decodable audio block emits only the
/// playback of that block, marks the stream live and records the arrival
/// time.
pub proof fn lemma_arrival_reasserts_signal(pre: SessionModel, now: u64, bs: Seq<u8>, ws: Seq<u32>)
    requires
        !pre.ptt,
        spec_decode(bs) == Ok::<PacketModel, crate::codec::DecodeError>(PacketModel::Audio(ws)),
    ensures
        step_actions(pre, false, now, None, Some(bs)) == seq![ActionModel::PlayAudio(ws)],
        step_model(pre, false, now, None, Some(bs)) == (SessionModel {
            ptt: false,
            signal_present: true,
            last_rx_micros: now,
            pending: pre.pending,
        }),
{
    assert(step_actions(pre, false, now, None, Some(bs)) =~= seq![ActionModel::PlayAudio(ws)]);
}

/// The concatenation of the full blocks that chunking cuts off the front of
/// an accumulated sample sequence; `send_actions` emits exactly these blocks,
/// in this order.
pub open spec fn sent_samples(acc: Seq<u32>) -> Seq<u32>
    decreases acc.len(),
{
    if acc.len() < TX_BUFFER_SIZE {
        Seq::empty()
    } else {
        acc.take(TX_BUFFER_SIZE as int) + sent_samples(acc.skip(TX_BUFFER_SIZE as int))
    }
}

/// Transmit chunking loses, duplicates and reorders nothing: the samples
/// sent, followed by what stays pending, are exactly the accumulated input,
/// and every block sent is exactly one block long.
pub proof fn lemma_chunking_conserves_samples(acc: Seq<u32>)
    ensures
        sent_samples(acc) + leftover(acc) == acc,
        forall|i: int|
            0 <= i < send_actions(acc).len() ==> ((#[trigger] send_actions(acc)[i]) matches
                ActionModel::SendAudio(ws) && ws.len() == TX_BUFFER_SIZE),
    decreases acc.len(),
{
    if acc.len() < TX_BUFFER_SIZE {
        assert(sent_samples(acc) + leftover(acc) =~= acc);
    } else {
        let tail = acc.skip(TX_BUFFER_SIZE as int);
        lemma_chunking_conserves_samples(tail);
        assert(sent_samples(acc) == acc.take(TX_BUFFER_SIZE as int) + sent_samples(tail));
        assert(leftover(acc) == leftover(tail));
        assert(sent_samples(acc) + leftover(acc) =~= acc.take(TX_BUFFER_SIZE as int) + (
        sent_samples(tail) + leftover(tail)));
        assert(acc.take(TX_BUFFER_SIZE as int) + tail =~= acc);
        assert(sent_samples(acc) + leftover(acc) =~= acc);
        assert(forall|i: int|
            0 <= i < send_actions(acc).len() ==> ((#[trigger] send_actions(acc)[i]) matches
                ActionModel::SendAudio(ws) && ws.len() == TX_BUFFER_SIZE)) by {
            let tail = send_actions(acc.skip(TX_BUFFER_SIZE as int));
            assert(forall|i: int|
                1 <= i < send_actions(acc).len() ==> send_actions(acc)[i] == tail[i - 1]);
        }
    }
}

} // verus!
