//! The voice sink of one voice connection: turns the connection's events into
//! per-speaker buffers, keeps a bounded queue of buffers that are ready to be
//! recognised, and hands them to workers once their speaker is known.
//!
//! Buffers live in an arena and are addressed by handles that a sink never
//! uses twice. A sink that takes the place of another starts its handles
//! where the other stopped, so that a hold never resolves to a buffer of
//! another sink. A buffer stays in the arena as long as it is queued, still
//! being filled, or held by a worker.

use vstd::prelude::*;
use std::collections::HashMap;
use std::collections::VecDeque;
use crate::ids_map::{
    ids_get_by_left,
    ids_insert,
    ids_new,
    ids_remove_by_left,
    ids_remove_by_right,
    pairs,
    IdsMap,
};
use crate::keys::keys_u32;
use crate::voice::Voice;
use crate::voice_receiver_laws::{
    lemma_appended_structured,
    lemma_closed_covering,
    lemma_closed_none,
    lemma_closed_twice,
    lemma_closed_wf,
    lemma_first_attributed,
    lemma_opened_wf,
    lemma_released_wf,
    lemma_speaking_state_updated_wf,
    lemma_voice_taken_wf,
};
use crate::voice_receiver_model::{ssrc_of, VoiceReceiverView, VoiceSlotView};

verus! {

broadcast use vstd::std_specs::hash::group_hash_axioms;

/// Limits of a voice sink.
#[derive(Debug, Clone, Copy, PartialEq, Eq, Structural)]
pub struct VoiceReceiverConfiguration {
    /// How many buffers wait in the ready queue before the oldest is dropped.
    pub queue_size: usize,
    /// How many chunks a buffer takes before it is cut.
    pub cut_voice_chunks_size: usize,
}

impl Default for VoiceReceiverConfiguration {
    fn default() -> (configuration: VoiceReceiverConfiguration)
        ensures
            configuration == (VoiceReceiverConfiguration {
                queue_size: 25,
                cut_voice_chunks_size: 1000,
            }),
    {
        VoiceReceiverConfiguration { queue_size: 25, cut_voice_chunks_size: 1000 }
    }
}

/// Who a buffer belongs to, and whether it continues a buffer that was cut.
#[derive(Debug, Clone, Copy, PartialEq, Eq, Structural)]
pub struct ReceivingVoiceInfo {
    pub client_user_id: u64,
    pub continues: bool,
}

/// A worker's hold on a buffer of the sink.
#[derive(Debug, Clone, Copy, PartialEq, Eq, Structural)]
pub struct ReceivingVoiceContainer {
    pub handle: u64,
}

/// A buffer together with what is known about it.
#[derive(Debug, Clone, Copy, PartialEq, Eq, Structural)]
pub struct InfoVoiceContainer<I, C> {
    pub info: I,
    pub container: C,
}

/// One event of a voice connection.
#[derive(Debug, Clone, PartialEq)]
pub enum VoiceEvent {
    /// The stream `ssrc` belongs to `user_id`, or to nobody any more.
    SpeakingStateUpdate { ssrc: u32, user_id: Option<u64> },
    /// The stream `ssrc` started or stopped speaking.
    SpeakingUpdate { ssrc: u32, speaking: bool },
    /// A packet of the stream `ssrc`, with its decoded audio if there is any.
    VoicePacket { ssrc: u32, audio: Option<Vec<i16>> },
    /// `user_id` left the channel.
    ClientDisconnect { user_id: u64 },
    DriverConnect,
    DriverDisconnect,
    DriverReconnect,
}

/// A buffer in the arena.
struct VoiceSlot {
    voice: Voice,
    queued: bool,
    claimed: bool,
    continues: bool,
    cut: bool,
}

impl View for VoiceSlot {
    type V = VoiceSlotView;

    closed spec fn view(&self) -> VoiceSlotView {
        VoiceSlotView {
            voice: self.voice@,
            queued: self.queued,
            claimed: self.claimed,
            continues: self.continues,
            cut: self.cut,
        }
    }
}

/// The voice sink of one voice connection.
pub struct VoiceReceiver {
    configuration: VoiceReceiverConfiguration,
    ids_map: IdsMap,
    voices: HashMap<u64, VoiceSlot>,
    queue_clients_voices: VecDeque<u64>,
    processing_clients_voices: HashMap<u32, u64>,
    next_handle: u64,
    first_handle: u64,
}

impl View for VoiceReceiver {
    type V = VoiceReceiverView;

    closed spec fn view(&self) -> VoiceReceiverView {
        VoiceReceiverView {
            queue_size: self.configuration.queue_size,
            cut_voice_chunks_size: self.configuration.cut_voice_chunks_size,
            ids: pairs(self.ids_map),
            voices: Map::new(
                |handle: u64| self.voices@.contains_key(handle),
                |handle: u64| self.voices@[handle]@,
            ),
            queue: self.queue_clients_voices@,
            processing: self.processing_clients_voices@,
            next_handle: self.next_handle,
            first_handle: self.first_handle,
        }
    }
}

impl VoiceReceiver {
    /// An idle sink: no stream is known, no buffer lives. Its handles start
    /// at 0.
    pub fn with_configuration(configuration: VoiceReceiverConfiguration) -> (receiver: VoiceReceiver)
        ensures
            receiver@ == VoiceReceiverView::idle(configuration, 0),
            receiver@.wf(),
    {
        VoiceReceiver::with_first_handle(configuration, 0)
    }

    /// An idle sink whose handles start at `first_handle`, for a sink that
    /// takes the place of another: holds that the other sink handed out lie
    /// below and resolve to nothing here.
    pub fn with_first_handle(
        configuration: VoiceReceiverConfiguration,
        first_handle: u64,
    ) -> (receiver: VoiceReceiver)
        ensures
            receiver@ == VoiceReceiverView::idle(configuration, first_handle),
            receiver@.wf(),
    {
        let receiver = VoiceReceiver {
            configuration,
            ids_map: ids_new(),
            voices: HashMap::new(),
            queue_clients_voices: VecDeque::new(),
            processing_clients_voices: HashMap::new(),
            next_handle: first_handle,
            first_handle,
        };
        assert(receiver@.ids =~= Map::<u32, u64>::empty());
        assert(receiver@.voices =~= Map::<u64, VoiceSlotView>::empty());
        receiver
    }

    /// The next handle that this sink gives out.
    pub fn next_handle(&self) -> (handle: u64)
        ensures
            handle == self@.next_handle,
    {
        self.next_handle
    }

    /// Stops the stream `ssrc` filling its buffer.
    fn close(&mut self, ssrc: u32, cut: bool)
        requires
            old(self)@.structured(),
            forall|other: u32| #[trigger]
                old(self)@.processing.contains_key(other) && other != ssrc ==> old(self)@.short(
                    other,
                ),
        ensures
            final(self)@ == old(self)@.closed(set![ssrc], cut),
            final(self)@.wf(),
    {
        let ghost before = old(self)@;
        proof {
            lemma_closed_wf(before, set![ssrc], cut);
        }
        match self.processing_clients_voices.remove(&ssrc) {
            Some(handle) => {
                assert(before.processing.contains_key(ssrc));
                assert(before.voices.contains_key(handle));
                match self.voices.remove(&handle) {
                    Some(slot) => {
                        if slot.queued || slot.claimed {
                            let mut slot = slot;
                            slot.voice.mark_completed();
                            slot.cut = cut;
                            self.voices.insert(handle, slot);
                        }
                    },
                    None => {},
                }
                assert(before.ending(set![ssrc], handle));
                assert forall|other: u64| other != handle implies !before.ending(
                    set![ssrc],
                    other,
                ) by {}
                assert(self@.voices =~= before.closed(set![ssrc], cut).voices);
                assert(self@.processing =~= before.closed(set![ssrc], cut).processing);
            },
            None => {
                assert forall|other: u64| !before.ending(set![ssrc], other) by {}
                assert(self@.voices =~= before.closed(set![ssrc], cut).voices);
                assert(self@.processing =~= before.closed(set![ssrc], cut).processing);
            },
        }
    }

    /// Makes room in the ready queue.
    fn evict(&mut self)
        requires
            old(self)@.wf(),
        ensures
            final(self)@ == old(self)@.evicted(),
    {
        let ghost before = old(self)@;
        if self.queue_clients_voices.len() >= self.configuration.queue_size {
            match self.queue_clients_voices.pop_front() {
                Some(oldest) => {
                    assert(before.voices.contains_key(before.queue[0]));
                    match self.voices.remove(&oldest) {
                        Some(slot) => {
                            let in_flight = match self.processing_clients_voices.get(&slot.voice.id) {
                                Some(handle) => *handle == oldest,
                                None => false,
                            };
                            if in_flight {
                                let mut slot = slot;
                                slot.queued = false;
                                self.voices.insert(oldest, slot);
                            }
                        },
                        None => {},
                    }
                    assert(self@.voices =~= before.evicted().voices);
                    assert(self@.queue =~= before.evicted().queue);
                },
                None => {},
            }
        }
    }

    /// Opens a fresh buffer for the stream `ssrc` at the tail of the ready
    /// queue.
    fn open_buffer(&mut self, ssrc: u32, continues: bool)
        requires
            old(self)@.wf(),
            !old(self)@.processing.contains_key(ssrc),
        ensures
            final(self)@ == old(self)@.opened(ssrc, continues),
            final(self)@.wf(),
    {
        let ghost before = old(self)@;
        proof {
            lemma_opened_wf(before, ssrc, continues);
        }
        if self.next_handle == u64::MAX {
            return ;
        }
        self.evict();
        let ghost room = self@;
        let handle = self.next_handle;
        let slot = VoiceSlot {
            voice: Voice::new(ssrc),
            queued: true,
            claimed: false,
            continues,
            cut: false,
        };
        self.voices.insert(handle, slot);
        self.queue_clients_voices.push_back(handle);
        self.processing_clients_voices.insert(ssrc, handle);
        self.next_handle = handle + 1;
        assert(self@.voices =~= before.opened(ssrc, continues).voices);
    }

    /// Opens a fresh buffer for the stream `ssrc` and puts it at the tail of
    /// the ready queue, as a start of speech does: a full queue loses its
    /// oldest buffer for it, and a buffer that the stream was filling before
    /// is completed. Returns a hold on the new buffer, which is empty and
    /// open, or `None` when the sink has used up its handles and nothing was
    /// opened.
    pub fn create_voice_in_queue(&mut self, ssrc: u32) -> (created: Option<ReceivingVoiceContainer>)
        requires
            old(self)@.wf(),
        ensures
            final(self)@ == old(self)@.closed(set![ssrc], false).opened(ssrc, false),
            final(self)@.wf(),
            created == if old(self)@.next_handle < u64::MAX {
                Some(ReceivingVoiceContainer { handle: old(self)@.next_handle })
            } else {
                None
            },
    {
        let handle = self.next_handle;
        self.close(ssrc, false);
        self.open_buffer(ssrc, false);
        if handle < u64::MAX {
            Some(ReceivingVoiceContainer { handle })
        } else {
            None
        }
    }

    /// The stream `ssrc` belongs to `user_id` from now on, or to nobody.
    pub fn update_for_speaking(&mut self, ssrc: u32, user_id: Option<u64>)
        requires
            old(self)@.wf(),
        ensures
            final(self)@ == old(self)@.speaking_state_updated(ssrc, user_id),
            final(self)@.wf(),
    {
        proof {
            lemma_speaking_state_updated_wf(old(self)@, ssrc, user_id);
        }
        match user_id {
            Some(user) => ids_insert(&mut self.ids_map, ssrc, user),
            None => ids_remove_by_left(&mut self.ids_map, ssrc),
        }
        assert(self@.voices =~= old(self)@.voices);
    }

    /// The stream `ssrc` started or stopped speaking.
    pub fn update_for_speaking_update_data(&mut self, ssrc: u32, speaking: bool)
        requires
            old(self)@.wf(),
        ensures
            final(self)@ == old(self)@.speaking_updated(ssrc, speaking),
            final(self)@.wf(),
    {
        if self.processing_clients_voices.contains_key(&ssrc) {
            if !speaking {
                self.close(ssrc, false);
            }
        } else if speaking {
            self.open_buffer(ssrc, false);
        }
    }

    /// A packet of the stream `ssrc` arrived.
    pub fn update_for_voice_data(&mut self, ssrc: u32, audio: Option<Vec<i16>>)
        requires
            old(self)@.wf(),
        ensures
            final(self)@ == old(self)@.voice_data_received(
                ssrc,
                match audio {
                    Some(chunk) => Some(chunk@),
                    None => None,
                },
            ),
            final(self)@.wf(),
    {
        let ghost before = old(self)@;
        let chunk = match audio {
            Some(chunk) => chunk,
            None => {
                return ;
            },
        };
        let handle = match self.processing_clients_voices.get(&ssrc) {
            Some(handle) => *handle,
            None => {
                return ;
            },
        };
        proof {
            lemma_appended_structured(before, ssrc, chunk@);
        }
        assert(before.voices.contains_key(handle));
        let cut = match self.voices.remove(&handle) {
            Some(slot) => {
                let mut slot = slot;
                slot.voice.append(chunk);
                let cut = slot.voice.chunks.len() >= self.configuration.cut_voice_chunks_size;
                assert(slot.voice.chunks@.len() == slot.voice@.chunks.len());
                self.voices.insert(handle, slot);
                cut
            },
            None => false,
        };
        assert(self@.voices =~= before.appended(handle, chunk@).voices);
        assert(self@ == before.appended(handle, chunk@));
        if cut {
            self.close(ssrc, true);
            self.open_buffer(ssrc, true);
        } else {
            assert(self@.short(ssrc));
        }
    }

    /// `user_id` left the channel.
    pub fn update_for_disconnect(&mut self, user_id: u64)
        requires
            old(self)@.wf(),
        ensures
            final(self)@ == old(self)@.disconnected(user_id),
            final(self)@.wf(),
    {
        let ghost before = old(self)@;
        match ids_remove_by_right(&mut self.ids_map, user_id) {
            Some(ssrc) => {
                assert(ssrc_of(before.ids, user_id) == Some(ssrc)) by {
                    let chosen = choose|other: u32|
                        before.ids.contains_key(other) && #[trigger] before.ids[other] == user_id;
                    assert(before.ids[chosen] == before.ids[ssrc]);
                }
                assert(self@.voices =~= before.voices);
                assert(self@ == (VoiceReceiverView { ids: before.ids.remove(ssrc), ..before }));
                assert forall|other: u32| #[trigger]
                    self@.processing.contains_key(other) implies self@.short(other) by {
                    assert(before.short(other));
                }
                self.close(ssrc, false);
            },
            None => {
                assert(ssrc_of(before.ids, user_id) is None);
                assert(self@.voices =~= before.voices);
            },
        }
    }

    /// The driver was reset: every stream stops filling its buffer.
    pub fn reset_in_processing(&mut self)
        requires
            old(self)@.wf(),
        ensures
            final(self)@ == old(self)@.reset(),
            final(self)@.wf(),
    {
        let ghost before = old(self)@;
        let ssrcs = keys_u32(&self.processing_clients_voices);
        let mut i: usize = 0;
        proof {
            lemma_closed_none(before, false);
            assert(ssrcs@.take(0).to_set() =~= Set::<u32>::empty());
        }
        while i < ssrcs.len()
            invariant
                i <= ssrcs.len(),
                before.wf(),
                self@ == before.closed(ssrcs@.take(i as int).to_set(), false),
                self@.wf(),
            decreases ssrcs.len() - i,
        {
            proof {
                let done = ssrcs@.take(i as int).to_set();
                lemma_closed_twice(before, done, set![ssrcs[i as int]], false);
                assert(ssrcs@.take(i + 1) =~= ssrcs@.take(i as int).push(ssrcs[i as int]));
                vstd::seq_lib::seq_to_set_distributes_over_add(
                    ssrcs@.take(i as int),
                    seq![ssrcs[i as int]],
                );
                let one = seq![ssrcs[i as int]];
                assert forall|ssrc: u32| one.to_set().contains(ssrc) <==> ssrc
                    == ssrcs[i as int] by {
                    assert(one[0] == ssrcs[i as int]);
                }
                assert(one.to_set() =~= set![ssrcs[i as int]]);
                assert(ssrcs@.take(i as int) + seq![ssrcs[i as int]] =~= ssrcs@.take(i + 1));
            }
            self.close(ssrcs[i], false);
            i = i + 1;
        }
        proof {
            assert(ssrcs@.take(ssrcs.len() as int) =~= ssrcs@);
            lemma_closed_covering(before, ssrcs@.to_set(), false);
        }
    }

    /// Handles one event of the voice connection.
    pub fn act(&mut self, event: VoiceEvent)
        requires
            old(self)@.wf(),
        ensures
            final(self)@ == old(self)@.after_event(event),
            final(self)@.wf(),
    {
        match event {
            VoiceEvent::SpeakingStateUpdate { ssrc, user_id } => self.update_for_speaking(
                ssrc,
                user_id,
            ),
            VoiceEvent::SpeakingUpdate { ssrc, speaking } => self.update_for_speaking_update_data(
                ssrc,
                speaking,
            ),
            VoiceEvent::VoicePacket { ssrc, audio } => self.update_for_voice_data(ssrc, audio),
            VoiceEvent::ClientDisconnect { user_id } => self.update_for_disconnect(user_id),
            VoiceEvent::DriverConnect => self.reset_in_processing(),
            VoiceEvent::DriverDisconnect => self.reset_in_processing(),
            VoiceEvent::DriverReconnect => self.reset_in_processing(),
        }
    }

    /// Takes the oldest buffer with a known speaker from the ready queue.
    ///
    /// Buffers whose speaker is not known yet are passed over and go to the
    /// tail of the queue, so that a buffer whose first audio came before its
    /// speaker was announced is kept for later.
    pub fn next_voice(
        &mut self,
    ) -> (next: Option<InfoVoiceContainer<ReceivingVoiceInfo, ReceivingVoiceContainer>>)
        requires
            old(self)@.wf(),
        ensures
            next == old(self)@.next_voice(),
            final(self)@ == old(self)@.voice_taken(),
            final(self)@.wf(),
    {
        let ghost before = old(self)@;
        let ghost place = before.first_attributed(0);
        proof {
            lemma_voice_taken_wf(before);
            lemma_first_attributed(before, 0);
            assert(before.queue.skip(0) =~= before.queue);
        }
        let mut voices_to_revert: Vec<u64> = Vec::new();
        let mut next: Option<InfoVoiceContainer<ReceivingVoiceInfo, ReceivingVoiceContainer>> =
            None;
        while next.is_none() && self.queue_clients_voices.len() > 0
            invariant
                before.wf(),
                place == before.first_attributed(0),
                place <= before.queue.len(),
                forall|j: int| 0 <= j < place ==> !before.attributed(j),
                place < before.queue.len() ==> before.attributed(place),
                self@.ids == before.ids,
                self@.processing == before.processing,
                self@.next_handle == before.next_handle,
                self@.first_handle == before.first_handle,
                self@.queue_size == before.queue_size,
                self@.cut_voice_chunks_size == before.cut_voice_chunks_size,
                next is None ==> {
                    &&& self@.voices == before.voices
                    &&& voices_to_revert@.len() <= place
                    &&& voices_to_revert@ == before.queue.take(voices_to_revert@.len() as int)
                    &&& self@.queue == before.queue.skip(voices_to_revert@.len() as int)
                },
                next is Some ==> {
                    &&& place < before.queue.len()
                    &&& next == before.next_voice()
                    &&& self@.voices == before.voice_taken().voices
                    &&& voices_to_revert@ == before.queue.take(place)
                    &&& self@.queue == before.queue.skip(place + 1)
                },
            decreases self.queue_clients_voices.len() + if next is None { 1int } else { 0int },
        {
            let ghost k = voices_to_revert@.len() as int;
            match self.queue_clients_voices.pop_front() {
                Some(handle) => {
                    assert(handle == before.queue[k]);
                    assert(before.voices.contains_key(before.queue[k]));
                    assert(self@.queue =~= before.queue.skip(k + 1));
                    match self.voices.remove(&handle) {
                        Some(slot) => {
                            match ids_get_by_left(&self.ids_map, slot.voice.id) {
                                Some(client_user_id) => {
                                    assert(before.attributed(k));
                                    assert(k == place);
                                    let mut slot = slot;
                                    slot.queued = false;
                                    slot.claimed = true;
                                    let continues = slot.continues;
                                    self.voices.insert(handle, slot);
                                    next = Some(
                                        InfoVoiceContainer {
                                            info: ReceivingVoiceInfo { client_user_id, continues },
                                            container: ReceivingVoiceContainer { handle },
                                        },
                                    );
                                    assert(self@.voices =~= before.voice_taken().voices);
                                },
                                None => {
                                    assert(!before.attributed(k));
                                    assert(k != place);
                                    self.voices.insert(handle, slot);
                                    voices_to_revert.push(handle);
                                    assert(self@.voices =~= before.voices);
                                    assert(voices_to_revert@ =~= before.queue.take(k + 1));
                                },
                            }
                        },
                        None => {},
                    }
                },
                None => {},
            }
        }
        let ghost base = self@.queue;
        let mut j: usize = 0;
        assert(voices_to_revert@.take(0) =~= Seq::<u64>::empty());
        assert(base + Seq::<u64>::empty() =~= base);
        while j < voices_to_revert.len()
            invariant
                j <= voices_to_revert.len(),
                self@.ids == before.ids,
                self@.processing == before.processing,
                self@.next_handle == before.next_handle,
                self@.first_handle == before.first_handle,
                self@.queue_size == before.queue_size,
                self@.cut_voice_chunks_size == before.cut_voice_chunks_size,
                next is None ==> self@.voices == before.voices,
                next is Some ==> self@.voices == before.voice_taken().voices,
                self@.queue == base + voices_to_revert@.take(j as int),
            decreases voices_to_revert.len() - j,
        {
            self.queue_clients_voices.push_back(voices_to_revert[j]);
            assert(voices_to_revert@.take(j + 1) =~= voices_to_revert@.take(j as int).push(
                voices_to_revert[j as int],
            ));
            assert(self@.queue =~= base + voices_to_revert@.take(j + 1));
            j = j + 1;
        }
        proof {
            assert(voices_to_revert@.take(voices_to_revert.len() as int) =~= voices_to_revert@);
            if next is None {
                assert(voices_to_revert@.len() == before.queue.len());
                assert(place == before.queue.len());
                assert(self@.queue =~= before.queue);
            } else {
                assert(before.queue.skip(place + 1) =~= before.queue.subrange(
                    place + 1,
                    before.queue.len() as int,
                ));
            }
        }
        next
    }

    /// The buffer `container` stands for, as long as it lives.
    pub fn voice(&self, container: &ReceivingVoiceContainer) -> (voice: Option<&Voice>)
        ensures
            match voice {
                Some(voice) => self@.voices.contains_key(container.handle) && voice@
                    == self@.voices[container.handle].voice,
                None => !self@.voices.contains_key(container.handle),
            },
    {
        match self.voices.get(&container.handle) {
            Some(slot) => Some(&slot.voice),
            None => None,
        }
    }

    /// Whether the buffer `container` stands for was completed by a cut
    /// rather than by the end of speech; `false` for a buffer that is gone.
    pub fn is_cut(&self, container: &ReceivingVoiceContainer) -> (cut: bool)
        ensures
            cut == (self@.voices.contains_key(container.handle)
                && self@.voices[container.handle].cut),
    {
        match self.voices.get(&container.handle) {
            Some(slot) => slot.cut,
            None => false,
        }
    }

    /// A worker lets go of its buffer.
    pub fn release(&mut self, container: ReceivingVoiceContainer)
        requires
            old(self)@.wf(),
        ensures
            final(self)@ == old(self)@.released(container.handle),
            final(self)@.wf(),
    {
        let ghost before = old(self)@;
        proof {
            lemma_released_wf(before, container.handle);
        }
        match self.voices.remove(&container.handle) {
            Some(slot) => {
                if slot.claimed {
                    let in_flight = match self.processing_clients_voices.get(&slot.voice.id) {
                        Some(handle) => *handle == container.handle,
                        None => false,
                    };
                    if in_flight {
                        let mut slot = slot;
                        slot.claimed = false;
                        self.voices.insert(container.handle, slot);
                    }
                } else {
                    self.voices.insert(container.handle, slot);
                }
            },
            None => {},
        }
        assert(self@.voices =~= before.released(container.handle).voices);
    }
}

} // verus!
