//! The state of a voice sink and what each event does to it.

use vstd::prelude::*;
use crate::ids_map::{one_to_one, without_right};
use crate::voice::VoiceView;
use crate::voice_receiver::{
    InfoVoiceContainer,
    ReceivingVoiceContainer,
    ReceivingVoiceInfo,
    VoiceEvent,
    VoiceReceiverConfiguration,
};

verus! {

/// A buffer of the arena: its content, whether it waits in the ready queue,
/// whether a worker holds it, whether it was opened by a cut, and whether it
/// was completed by one.
pub struct VoiceSlotView {
    pub voice: VoiceView,
    pub queued: bool,
    pub claimed: bool,
    pub continues: bool,
    pub cut: bool,
}

/// The state of a voice sink.
pub struct VoiceReceiverView {
    pub queue_size: usize,
    pub cut_voice_chunks_size: usize,
    /// Which user each stream belongs to.
    pub ids: Map<u32, u64>,
    /// The live buffers by handle.
    pub voices: Map<u64, VoiceSlotView>,
    /// The ready queue, oldest first.
    pub queue: Seq<u64>,
    /// The buffer that each speaking stream is filling.
    pub processing: Map<u32, u64>,
    /// The next handle to give out.
    pub next_handle: u64,
    /// The first handle that this sink gave or will give out.
    pub first_handle: u64,
}

/// The stream that belongs to `user`, if there is one.
pub open spec fn ssrc_of(ids: Map<u32, u64>, user: u64) -> Option<u32> {
    if exists|ssrc: u32| ids.contains_key(ssrc) && #[trigger] ids[ssrc] == user {
        Some(choose|ssrc: u32| ids.contains_key(ssrc) && #[trigger] ids[ssrc] == user)
    } else {
        None
    }
}

impl VoiceReceiverView {
    /// The state of an idle sink whose handles start at `first_handle`: no
    /// stream is known and no buffer lives.
    pub open spec fn idle(configuration: VoiceReceiverConfiguration, first_handle: u64)
        -> VoiceReceiverView {
        VoiceReceiverView {
            queue_size: configuration.queue_size,
            cut_voice_chunks_size: configuration.cut_voice_chunks_size,
            ids: Map::<u32, u64>::empty(),
            voices: Map::<u64, VoiceSlotView>::empty(),
            queue: Seq::<u64>::empty(),
            processing: Map::<u32, u64>::empty(),
            next_handle: first_handle,
            first_handle,
        }
    }

    /// Whether `handle` is the buffer that its stream is filling.
    pub open spec fn in_flight(self, handle: u64) -> bool {
        &&& self.voices.contains_key(handle)
        &&& self.processing.contains_key(self.voices[handle].voice.id)
        &&& self.processing[self.voices[handle].voice.id] == handle
    }

    /// How long the ready queue may get.
    pub open spec fn capacity(self) -> int {
        if self.queue_size == 0 {
            1
        } else {
            self.queue_size as int
        }
    }

    /// How many chunks a buffer that is being filled holds at most.
    pub open spec fn chunk_limit(self) -> int {
        if self.cut_voice_chunks_size == 0 {
            1
        } else {
            self.cut_voice_chunks_size as int
        }
    }

    /// The invariant of a voice sink.
    ///
    /// No user has two streams. The queue holds live buffers, each once, and
    /// no more than its capacity. A buffer knows whether it is queued, and a
    /// queued buffer is not held by a worker. A buffer that is being filled
    /// carries its stream's SSRC, is not completed and is short of the cut
    /// threshold. Every live buffer is queued, held, or being filled, and
    /// its handle was given out by this sink.
    pub open spec fn wf(self) -> bool {
        &&& self.structured()
        &&& forall|ssrc: u32| #[trigger] self.processing.contains_key(ssrc) ==> self.short(ssrc)
    }

    /// Whether the buffer that the stream `ssrc` is filling is short of the
    /// cut threshold.
    pub open spec fn short(self, ssrc: u32) -> bool {
        self.voices[self.processing[ssrc]].voice.chunks.len() < self.chunk_limit()
    }

    /// The invariant of a voice sink but for the length of the buffers that
    /// are being filled.
    pub open spec fn structured(self) -> bool {
        &&& one_to_one(self.ids)
        &&& self.first_handle <= self.next_handle
        &&& self.queue.no_duplicates()
        &&& self.queue.len() <= self.capacity()
        &&& forall|i: int| 0 <= i < self.queue.len() ==> self.voices.contains_key(#[trigger] self.queue[i])
        &&& forall|handle: u64| #[trigger]
            self.voices.contains_key(handle) ==> {
                &&& self.voices[handle].queued <==> self.queue.contains(handle)
                &&& !(self.voices[handle].queued && self.voices[handle].claimed)
                &&& handle < self.next_handle
                &&& self.first_handle <= handle
                &&& self.voices[handle].queued || self.voices[handle].claimed || self.in_flight(
                    handle,
                )
            }
        &&& forall|ssrc: u32| #[trigger]
            self.processing.contains_key(ssrc) ==> {
                &&& self.voices.contains_key(self.processing[ssrc])
                &&& self.voices[self.processing[ssrc]].voice.id == ssrc
                &&& !self.voices[self.processing[ssrc]].voice.is_completed
            }
    }

    /// Whether `handle` is being filled by one of the streams `ssrcs`.
    pub open spec fn ending(self, ssrcs: Set<u32>, handle: u64) -> bool {
        self.in_flight(handle) && ssrcs.contains(self.voices[handle].voice.id)
    }

    /// The state after the streams `ssrcs` stopped filling their buffers:
    /// each such buffer is completed, or gone if it is neither queued nor held
    /// by a worker. `cut` says whether a cut or the end of speech completed
    /// them.
    pub open spec fn closed(self, ssrcs: Set<u32>, cut: bool) -> VoiceReceiverView {
        VoiceReceiverView {
            processing: self.processing.remove_keys(ssrcs),
            voices: Map::new(
                |handle: u64|
                    self.voices.contains_key(handle) && (!self.ending(ssrcs, handle)
                        || self.voices[handle].queued || self.voices[handle].claimed),
                |handle: u64|
                    if self.ending(ssrcs, handle) {
                        VoiceSlotView {
                            voice: VoiceView { is_completed: true, ..self.voices[handle].voice },
                            cut,
                            ..self.voices[handle]
                        }
                    } else {
                        self.voices[handle]
                    },
            ),
            ..self
        }
    }

    /// Whether opening a buffer pushes the oldest queued buffer out.
    pub open spec fn evicts(self) -> bool {
        self.queue.len() > 0 && self.queue.len() >= self.queue_size
    }

    /// The state after the oldest queued buffer was pushed out, if the queue
    /// is at its capacity: the buffer leaves the queue, and the arena too
    /// unless it is still being filled.
    pub open spec fn evicted(self) -> VoiceReceiverView {
        if self.evicts() {
            let oldest = self.queue[0];
            VoiceReceiverView {
                queue: self.queue.drop_first(),
                voices: if self.in_flight(oldest) {
                    self.voices.insert(
                        oldest,
                        VoiceSlotView { queued: false, ..self.voices[oldest] },
                    )
                } else {
                    self.voices.remove(oldest)
                },
                ..self
            }
        } else {
            self
        }
    }

    /// The state after the stream `ssrc` opened a fresh buffer: room is made
    /// in the queue, and an empty buffer under a new handle is queued at the
    /// tail and is what the stream fills from now on. `continues` says
    /// whether the buffer follows one that was cut. With all handles used up
    /// nothing happens.
    pub open spec fn opened(self, ssrc: u32, continues: bool) -> VoiceReceiverView {
        if self.next_handle == u64::MAX {
            self
        } else {
            let room = self.evicted();
            VoiceReceiverView {
                voices: room.voices.insert(
                    self.next_handle,
                    VoiceSlotView {
                        voice: VoiceView {
                            id: ssrc,
                            chunks: Seq::<Seq<i16>>::empty(),
                            is_completed: false,
                        },
                        queued: true,
                        claimed: false,
                        continues,
                        cut: false,
                    },
                ),
                queue: room.queue.push(self.next_handle),
                processing: room.processing.insert(ssrc, self.next_handle),
                next_handle: (self.next_handle + 1) as u64,
                ..room
            }
        }
    }

    /// The state after the stream `ssrc` was said to belong to `user_id`, or
    /// to nobody.
    pub open spec fn speaking_state_updated(self, ssrc: u32, user_id: Option<u64>)
        -> VoiceReceiverView {
        VoiceReceiverView {
            ids: match user_id {
                Some(user) => without_right(self.ids.remove(ssrc), user).insert(ssrc, user),
                None => self.ids.remove(ssrc),
            },
            ..self
        }
    }

    /// The state after the stream `ssrc` started or stopped speaking: a
    /// start opens a buffer unless one is being filled, a stop closes the one
    /// that is being filled.
    pub open spec fn speaking_updated(self, ssrc: u32, speaking: bool) -> VoiceReceiverView {
        if self.processing.contains_key(ssrc) {
            if speaking {
                self
            } else {
                self.closed(set![ssrc], false)
            }
        } else if speaking {
            self.opened(ssrc, false)
        } else {
            self
        }
    }

    /// The state after `chunk` was appended to the buffer `handle`.
    pub open spec fn appended(self, handle: u64, chunk: Seq<i16>) -> VoiceReceiverView {
        VoiceReceiverView {
            voices: self.voices.insert(
                handle,
                VoiceSlotView {
                    voice: VoiceView {
                        chunks: self.voices[handle].voice.chunks.push(chunk),
                        ..self.voices[handle].voice
                    },
                    ..self.voices[handle]
                },
            ),
            ..self
        }
    }

    /// The state after a packet of the stream `ssrc` arrived. Audio goes to
    /// the buffer that the stream is filling and is dropped if there is none.
    /// A buffer that reaches the cut threshold is closed, and a fresh one is
    /// opened for the stream.
    pub open spec fn voice_data_received(self, ssrc: u32, audio: Option<Seq<i16>>)
        -> VoiceReceiverView {
        match audio {
            Some(chunk) => if self.processing.contains_key(ssrc) {
                let handle = self.processing[ssrc];
                let grown = self.appended(handle, chunk);
                if grown.voices[handle].voice.chunks.len() >= self.cut_voice_chunks_size {
                    grown.closed(set![ssrc], true).opened(ssrc, true)
                } else {
                    grown
                }
            } else {
                self
            },
            None => self,
        }
    }

    /// The state after `user_id` left: the user's stream belongs to nobody
    /// and stops filling its buffer.
    pub open spec fn disconnected(self, user_id: u64) -> VoiceReceiverView {
        match ssrc_of(self.ids, user_id) {
            Some(ssrc) => (VoiceReceiverView { ids: self.ids.remove(ssrc), ..self }).closed(
                set![ssrc],
                false,
            ),
            None => self,
        }
    }

    /// The state after the driver was reset: no stream is filling a buffer.
    pub open spec fn reset(self) -> VoiceReceiverView {
        self.closed(Set::full(), false)
    }

    /// The state after `event`.
    pub open spec fn after_event(self, event: VoiceEvent) -> VoiceReceiverView {
        match event {
            VoiceEvent::SpeakingStateUpdate { ssrc, user_id } => self.speaking_state_updated(
                ssrc,
                user_id,
            ),
            VoiceEvent::SpeakingUpdate { ssrc, speaking } => self.speaking_updated(ssrc, speaking),
            VoiceEvent::VoicePacket { ssrc, audio } => self.voice_data_received(
                ssrc,
                match audio {
                    Some(chunk) => Some(chunk@),
                    None => None,
                },
            ),
            VoiceEvent::ClientDisconnect { user_id } => self.disconnected(user_id),
            VoiceEvent::DriverConnect => self.reset(),
            VoiceEvent::DriverDisconnect => self.reset(),
            VoiceEvent::DriverReconnect => self.reset(),
        }
    }

    /// Whether the buffer at place `i` of the queue has a known speaker.
    pub open spec fn attributed(self, i: int) -> bool {
        self.ids.contains_key(self.voices[self.queue[i]].voice.id)
    }

    /// The first place at or after `i` of the queue whose buffer has a known
    /// speaker, or the length of the queue.
    pub open spec fn first_attributed(self, i: int) -> int
        decreases self.queue.len() - i,
    {
        if 0 <= i < self.queue.len() && !self.attributed(i) {
            self.first_attributed(i + 1)
        } else {
            i
        }
    }

    /// What a worker gets from the queue: the oldest buffer with a known
    /// speaker, with that speaker.
    pub open spec fn next_voice(self) -> Option<
        InfoVoiceContainer<ReceivingVoiceInfo, ReceivingVoiceContainer>,
    > {
        let place = self.first_attributed(0);
        if 0 <= place < self.queue.len() {
            Some(
                InfoVoiceContainer {
                    info: ReceivingVoiceInfo {
                        client_user_id: self.ids[self.voices[self.queue[place]].voice.id],
                        continues: self.voices[self.queue[place]].continues,
                    },
                    container: ReceivingVoiceContainer { handle: self.queue[place] },
                },
            )
        } else {
            None
        }
    }

    /// The state after a worker took its buffer from the queue: the buffers
    /// that were passed over because their speaker is unknown go to the tail,
    /// in their order, and the buffer taken is held by the worker.
    pub open spec fn voice_taken(self) -> VoiceReceiverView {
        let place = self.first_attributed(0);
        if 0 <= place < self.queue.len() {
            let handle = self.queue[place];
            VoiceReceiverView {
                queue: self.queue.subrange(place + 1, self.queue.len() as int) + self.queue.take(
                    place,
                ),
                voices: self.voices.insert(
                    handle,
                    VoiceSlotView { queued: false, claimed: true, ..self.voices[handle] },
                ),
                ..self
            }
        } else {
            self
        }
    }

    /// The state after a worker let go of the buffer `handle`: the buffer is
    /// gone unless it is still being filled.
    pub open spec fn released(self, handle: u64) -> VoiceReceiverView {
        if self.voices.contains_key(handle) && self.voices[handle].claimed {
            VoiceReceiverView {
                voices: if self.in_flight(handle) {
                    self.voices.insert(
                        handle,
                        VoiceSlotView { claimed: false, ..self.voices[handle] },
                    )
                } else {
                    self.voices.remove(handle)
                },
                ..self
            }
        } else {
            self
        }
    }
}

} // verus!
