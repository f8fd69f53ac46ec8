//! What holds of a voice sink in every state: its invariant is kept by every
//! event, buffers reach workers under the right name, the queue stays
//! bounded, and buffers are cut at the threshold.

use vstd::prelude::*;
use crate::voice_receiver::VoiceEvent;
use crate::voice_receiver_model::VoiceReceiverView;

verus! {

/// Closing streams keeps the invariant, even when the buffers of those
/// streams had reached the cut threshold.
pub proof fn lemma_closed_wf(state: VoiceReceiverView, ssrcs: Set<u32>, cut: bool)
    requires
        state.structured(),
        forall|ssrc: u32| #[trigger]
            state.processing.contains_key(ssrc) && !ssrcs.contains(ssrc) ==> state.short(ssrc),
    ensures
        state.closed(ssrcs, cut).wf(),
{
    let after = state.closed(ssrcs, cut);
    assert forall|i: int| 0 <= i < after.queue.len() implies after.voices.contains_key(
        #[trigger] after.queue[i],
    ) by {
        assert(state.voices.contains_key(state.queue[i]));
        assert(state.queue.contains(state.queue[i]));
    }
    assert forall|ssrc: u32| #[trigger] after.processing.contains_key(ssrc) implies {
        &&& after.voices.contains_key(after.processing[ssrc])
        &&& after.voices[after.processing[ssrc]].voice.id == ssrc
        &&& !after.voices[after.processing[ssrc]].voice.is_completed
        &&& after.short(ssrc)
    } by {
        assert(state.processing.contains_key(ssrc));
        assert(state.short(ssrc));
    }
    assert forall|handle: u64| #[trigger] after.voices.contains_key(handle) implies {
        &&& after.voices[handle].queued <==> after.queue.contains(handle)
        &&& !(after.voices[handle].queued && after.voices[handle].claimed)
        &&& handle < after.next_handle
        &&& after.first_handle <= handle
        &&& after.voices[handle].queued || after.voices[handle].claimed || after.in_flight(handle)
    } by {
        assert(state.voices.contains_key(handle));
        if !state.ending(ssrcs, handle) && state.in_flight(handle) {
            assert(after.processing.contains_key(state.voices[handle].voice.id));
        }
    }
}

/// Making room in the queue keeps the invariant and leaves a free place.
pub proof fn lemma_evicted_wf(state: VoiceReceiverView)
    requires
        state.wf(),
    ensures
        state.evicted().wf(),
        state.evicted().queue.len() < state.capacity(),
        state.evicted().processing == state.processing,
        state.evicted().next_handle == state.next_handle,
{
    let after = state.evicted();
    if state.evicts() {
        let oldest = state.queue[0];
        assert(state.voices.contains_key(oldest));
        assert(state.queue.contains(oldest));
        assert forall|i: int| 0 <= i < after.queue.len() implies after.voices.contains_key(
            #[trigger] after.queue[i],
        ) by {
            assert(after.queue[i] == state.queue[i + 1]);
            assert(state.voices.contains_key(state.queue[i + 1]));
        }
        assert forall|handle: u64| #[trigger] after.voices.contains_key(handle) implies {
            &&& after.voices[handle].queued <==> after.queue.contains(handle)
            &&& !(after.voices[handle].queued && after.voices[handle].claimed)
            &&& handle < after.next_handle
            &&& after.first_handle <= handle
            &&& after.voices[handle].queued || after.voices[handle].claimed || after.in_flight(
                handle,
            )
        } by {
            assert(state.voices.contains_key(handle));
            if handle != oldest {
                if state.queue.contains(handle) {
                    let k = choose|k: int| 0 <= k < state.queue.len() && state.queue[k] == handle;
                    assert(after.queue[k - 1] == handle);
                }
                if after.queue.contains(handle) {
                    let k = choose|k: int| 0 <= k < after.queue.len() && after.queue[k] == handle;
                    assert(state.queue[k + 1] == handle);
                }
            } else {
                if after.queue.contains(handle) {
                    let k = choose|k: int| 0 <= k < after.queue.len() && after.queue[k] == handle;
                    assert(state.queue[k + 1] == handle);
                }
            }
        }
        assert forall|ssrc: u32| #[trigger] after.processing.contains_key(ssrc) implies {
            &&& after.voices.contains_key(after.processing[ssrc])
            &&& after.voices[after.processing[ssrc]].voice.id == ssrc
            &&& !after.voices[after.processing[ssrc]].voice.is_completed
            &&& after.short(ssrc)
        } by {
            assert(state.short(ssrc));
        }
    }
}

/// Opening a buffer for a stream that fills none keeps the invariant.
pub proof fn lemma_opened_wf(state: VoiceReceiverView, ssrc: u32, continues: bool)
    requires
        state.wf(),
        !state.processing.contains_key(ssrc),
    ensures
        state.opened(ssrc, continues).wf(),
{
    if state.next_handle != u64::MAX {
        lemma_evicted_wf(state);
        let room = state.evicted();
        let after = state.opened(ssrc, continues);
        let fresh = state.next_handle;
        assert(!room.voices.contains_key(fresh));
        assert(!room.queue.contains(fresh)) by {
            if room.queue.contains(fresh) {
                let k = choose|k: int| 0 <= k < room.queue.len() && room.queue[k] == fresh;
                assert(room.voices.contains_key(room.queue[k]));
            }
        }
        assert(after.queue.no_duplicates());
        assert forall|i: int| 0 <= i < after.queue.len() implies after.voices.contains_key(
            #[trigger] after.queue[i],
        ) by {
            if i < room.queue.len() {
                assert(room.voices.contains_key(room.queue[i]));
            }
        }
        assert forall|handle: u64| #[trigger] after.voices.contains_key(handle) implies {
            &&& after.voices[handle].queued <==> after.queue.contains(handle)
            &&& !(after.voices[handle].queued && after.voices[handle].claimed)
            &&& handle < after.next_handle
            &&& after.first_handle <= handle
            &&& after.voices[handle].queued || after.voices[handle].claimed || after.in_flight(
                handle,
            )
        } by {
            if handle == fresh {
                assert(after.queue[room.queue.len() as int] == fresh);
            } else {
                assert(room.voices.contains_key(handle));
                if room.queue.contains(handle) {
                    let k = choose|k: int| 0 <= k < room.queue.len() && room.queue[k] == handle;
                    assert(after.queue[k] == handle);
                }
                if after.queue.contains(handle) {
                    let k = choose|k: int| 0 <= k < after.queue.len() && after.queue[k] == handle;
                    assert(room.queue[k] == handle);
                }
                if room.in_flight(handle) {
                    assert(room.processing.contains_key(room.voices[handle].voice.id));
                }
            }
        }
        assert forall|other: u32| #[trigger] after.processing.contains_key(other) implies {
            &&& after.voices.contains_key(after.processing[other])
            &&& after.voices[after.processing[other]].voice.id == other
            &&& !after.voices[after.processing[other]].voice.is_completed
            &&& after.short(other)
        } by {
            if other != ssrc {
                assert(room.processing.contains_key(other));
                assert(room.short(other));
            }
        }
    }
}

/// Appending to a buffer that is being filled keeps the structure, and the
/// length of every other such buffer.
pub proof fn lemma_appended_structured(state: VoiceReceiverView, ssrc: u32, chunk: Seq<i16>)
    requires
        state.wf(),
        state.processing.contains_key(ssrc),
    ensures
        state.appended(state.processing[ssrc], chunk).structured(),
        forall|other: u32| #[trigger]
            state.processing.contains_key(other) && other != ssrc ==> state.appended(
                state.processing[ssrc],
                chunk,
            ).short(other),
{
    let handle = state.processing[ssrc];
    let after = state.appended(handle, chunk);
    assert forall|i: int| 0 <= i < after.queue.len() implies after.voices.contains_key(
        #[trigger] after.queue[i],
    ) by {
        assert(state.voices.contains_key(state.queue[i]));
    }
    assert forall|other: u64| #[trigger] after.voices.contains_key(other) implies {
        &&& after.voices[other].queued <==> after.queue.contains(other)
        &&& !(after.voices[other].queued && after.voices[other].claimed)
        &&& other < after.next_handle
        &&& after.first_handle <= other
        &&& after.voices[other].queued || after.voices[other].claimed || after.in_flight(other)
    } by {
        assert(state.voices.contains_key(other));
    }
    assert forall|other: u32| #[trigger] after.processing.contains_key(other) implies {
        &&& after.voices.contains_key(after.processing[other])
        &&& after.voices[after.processing[other]].voice.id == other
        &&& !after.voices[after.processing[other]].voice.is_completed
    } by {
        assert(state.processing.contains_key(other));
    }
    assert forall|other: u32| #[trigger]
        state.processing.contains_key(other) && other != ssrc implies after.short(other) by {
        assert(state.short(other));
    }
}

/// Handing a buffer to a worker keeps the invariant.
pub proof fn lemma_voice_taken_wf(state: VoiceReceiverView)
    requires
        state.wf(),
    ensures
        state.voice_taken().wf(),
{
    let place = state.first_attributed(0);
    lemma_first_attributed(state, 0);
    if 0 <= place < state.queue.len() {
        let after = state.voice_taken();
        let taken = state.queue[place];
        let len = state.queue.len() as int;
        assert(state.voices.contains_key(taken));
        assert(state.queue.contains(taken));
        assert forall|i: int| 0 <= i < after.queue.len() implies #[trigger] after.queue[i]
            == state.queue[if i < len - place - 1 {
            i + place + 1
        } else {
            i - (len - place - 1)
        }] by {}
        assert forall|i: int, j: int|
            0 <= i < after.queue.len() && 0 <= j < after.queue.len() && i != j implies after.queue[i]
            != after.queue[j] by {}
        assert forall|i: int| 0 <= i < after.queue.len() implies after.voices.contains_key(
            #[trigger] after.queue[i],
        ) by {
            let k = if i < len - place - 1 {
                i + place + 1
            } else {
                i - (len - place - 1)
            };
            assert(state.voices.contains_key(state.queue[k]));
        }
        assert forall|handle: u64| #[trigger] after.voices.contains_key(handle) implies {
            &&& after.voices[handle].queued <==> after.queue.contains(handle)
            &&& !(after.voices[handle].queued && after.voices[handle].claimed)
            &&& handle < after.next_handle
            &&& after.first_handle <= handle
            &&& after.voices[handle].queued || after.voices[handle].claimed || after.in_flight(
                handle,
            )
        } by {
            assert(state.voices.contains_key(handle));
            if after.queue.contains(handle) {
                let i = choose|i: int| 0 <= i < after.queue.len() && after.queue[i] == handle;
                let k = if i < len - place - 1 {
                    i + place + 1
                } else {
                    i - (len - place - 1)
                };
                assert(state.queue[k] == handle);
            }
            if handle != taken && state.queue.contains(handle) {
                let k = choose|k: int| 0 <= k < state.queue.len() && state.queue[k] == handle;
                if k > place {
                    assert(after.queue[k - place - 1] == handle);
                } else {
                    assert(after.queue[k + (len - place - 1)] == handle);
                }
            }
        }
        assert forall|ssrc: u32| #[trigger] after.processing.contains_key(ssrc) implies {
            &&& after.voices.contains_key(after.processing[ssrc])
            &&& after.voices[after.processing[ssrc]].voice.id == ssrc
            &&& !after.voices[after.processing[ssrc]].voice.is_completed
            &&& after.short(ssrc)
        } by {
            assert(state.short(ssrc));
        }
    }
}

/// The first buffer with a known speaker lies within the queue or at its
/// end, and no buffer before it has a known speaker.
pub proof fn lemma_first_attributed(state: VoiceReceiverView, i: int)
    requires
        0 <= i <= state.queue.len(),
    ensures
        i <= state.first_attributed(i) <= state.queue.len(),
        forall|k: int| i <= k < state.first_attributed(i) ==> !state.attributed(k),
        state.first_attributed(i) < state.queue.len() ==> state.attributed(
            state.first_attributed(i),
        ),
    decreases state.queue.len() - i,
{
    if i < state.queue.len() && !state.attributed(i) {
        lemma_first_attributed(state, i + 1);
    }
}

/// Letting go of a buffer keeps the invariant.
pub proof fn lemma_released_wf(state: VoiceReceiverView, handle: u64)
    requires
        state.wf(),
    ensures
        state.released(handle).wf(),
{
    let after = state.released(handle);
    if state.voices.contains_key(handle) && state.voices[handle].claimed {
        assert(!state.queue.contains(handle));
        assert forall|i: int| 0 <= i < after.queue.len() implies after.voices.contains_key(
            #[trigger] after.queue[i],
        ) by {
            assert(state.voices.contains_key(state.queue[i]));
            assert(state.queue.contains(state.queue[i]));
        }
        assert forall|other: u64| #[trigger] after.voices.contains_key(other) implies {
            &&& after.voices[other].queued <==> after.queue.contains(other)
            &&& !(after.voices[other].queued && after.voices[other].claimed)
            &&& other < after.next_handle
            &&& after.first_handle <= other
            &&& after.voices[other].queued || after.voices[other].claimed || after.in_flight(other)
        } by {
            assert(state.voices.contains_key(other));
        }
        assert forall|ssrc: u32| #[trigger] after.processing.contains_key(ssrc) implies {
            &&& after.voices.contains_key(after.processing[ssrc])
            &&& after.voices[after.processing[ssrc]].voice.id == ssrc
            &&& !after.voices[after.processing[ssrc]].voice.is_completed
            &&& after.short(ssrc)
        } by {
            assert(state.short(ssrc));
        }
    }
}

/// Changing who a stream belongs to keeps the invariant.
pub proof fn lemma_speaking_state_updated_wf(
    state: VoiceReceiverView,
    ssrc: u32,
    user_id: Option<u64>,
)
    requires
        state.wf(),
    ensures
        state.speaking_state_updated(ssrc, user_id).wf(),
{
    let after = state.speaking_state_updated(ssrc, user_id);
    assert forall|other: u32| #[trigger] after.processing.contains_key(other) implies after.short(
        other,
    ) by {
        assert(state.short(other));
    }
}

/// Closing one set of streams and then another is closing both at once.
pub proof fn lemma_closed_twice(
    state: VoiceReceiverView,
    first: Set<u32>,
    second: Set<u32>,
    cut: bool,
)
    requires
        state.structured(),
    ensures
        state.closed(first, cut).closed(second, cut) == state.closed(first.union(second), cut),
{
    let once = state.closed(first, cut);
    let twice = once.closed(second, cut);
    let both = state.closed(first.union(second), cut);
    assert(twice.processing =~= both.processing);
    assert forall|handle: u64| #[trigger]
        state.voices.contains_key(handle) implies (once.voices.contains_key(handle)
        && once.ending(second, handle)) == (state.ending(second, handle) && !state.ending(
        first,
        handle,
    )) by {
        if state.in_flight(handle) && !first.contains(state.voices[handle].voice.id) {
            assert(once.processing.contains_key(state.voices[handle].voice.id));
        }
    }
    assert(twice.voices =~= both.voices);
}

/// Closing every stream that fills a buffer is closing all streams.
pub proof fn lemma_closed_covering(state: VoiceReceiverView, ssrcs: Set<u32>, cut: bool)
    requires
        forall|ssrc: u32| #[trigger] state.processing.contains_key(ssrc) ==> ssrcs.contains(ssrc),
    ensures
        state.closed(ssrcs, cut) == state.closed(Set::full(), cut),
{
    assert(state.closed(ssrcs, cut).processing =~= state.closed(Set::full(), cut).processing);
    assert(state.closed(ssrcs, cut).voices =~= state.closed(Set::full(), cut).voices);
}

/// Closing no stream changes nothing.
pub proof fn lemma_closed_none(state: VoiceReceiverView, cut: bool)
    ensures
        state.closed(Set::empty(), cut) == state,
{
    assert(state.closed(Set::empty(), cut).processing =~= state.processing);
    assert(state.closed(Set::empty(), cut).voices =~= state.voices);
}

/// A worker is given a buffer only under the name of the user its stream
/// belongs to, and no buffer is lost from the queue on the way: the buffers
/// that were passed over are all still queued. When no queued buffer has a
/// known speaker, nothing is handed out and nothing changes.
pub proof fn lemma_next_voice_is_faithful(state: VoiceReceiverView)
    requires
        state.wf(),
    ensures
        match state.next_voice() {
            Some(next) => {
                let handle = next.container.handle;
                &&& state.queue.contains(handle)
                &&& state.voices.contains_key(handle)
                &&& state.ids.contains_key(state.voices[handle].voice.id)
                &&& next.info.client_user_id == state.ids[state.voices[handle].voice.id]
                &&& state.voice_taken().voices[handle].claimed
                &&& state.voice_taken().voices[handle].voice == state.voices[handle].voice
                &&& !state.voice_taken().queue.contains(handle)
                &&& forall|other: u64|
                    other != handle ==> (state.queue.contains(other)
                        <==> #[trigger] state.voice_taken().queue.contains(other))
            },
            None => {
                &&& state.voice_taken() == state
                &&& forall|i: int| 0 <= i < state.queue.len() ==> !state.attributed(i)
            },
        },
{
    lemma_first_attributed(state, 0);
    lemma_voice_taken_wf(state);
    let place = state.first_attributed(0);
    if place < state.queue.len() {
        let after = state.voice_taken();
        let handle = state.queue[place];
        let len = state.queue.len() as int;
        assert(state.voices.contains_key(handle));
        assert(after.voices.contains_key(handle));
        assert forall|other: u64| other != handle implies (state.queue.contains(other)
            <==> #[trigger] after.queue.contains(other)) by {
            if state.queue.contains(other) {
                let k = choose|k: int| 0 <= k < state.queue.len() && state.queue[k] == other;
                if k > place {
                    assert(after.queue[k - place - 1] == other);
                } else {
                    assert(after.queue[k + (len - place - 1)] == other);
                }
            }
            if after.queue.contains(other) {
                let i = choose|i: int| 0 <= i < after.queue.len() && after.queue[i] == other;
                if i < len - place - 1 {
                    assert(state.queue[i + place + 1] == other);
                } else {
                    assert(state.queue[i - (len - place - 1)] == other);
                }
            }
        }
    }
}

/// A queued buffer whose speaker is not known is never handed out and stays
/// queued, untouched, whatever else is taken from the queue.
pub proof fn lemma_unknown_speaker_is_kept(state: VoiceReceiverView, handle: u64)
    requires
        state.wf(),
        state.queue.contains(handle),
        !state.ids.contains_key(state.voices[handle].voice.id),
    ensures
        state.next_voice() matches Some(next) ==> next.container.handle != handle,
        state.voice_taken().queue.contains(handle),
        state.voice_taken().voices.contains_key(handle),
        state.voice_taken().voices[handle] == state.voices[handle],
{
    lemma_next_voice_is_faithful(state);
    let k = choose|k: int| 0 <= k < state.queue.len() && state.queue[k] == handle;
    assert(state.voices.contains_key(state.queue[k]));
}

/// A hold that this sink did not hand out resolves to nothing: no live
/// buffer has a handle below the sink's first, nor one that is yet to be
/// given out.
pub proof fn lemma_foreign_hold_is_gone(state: VoiceReceiverView, handle: u64)
    requires
        state.wf(),
        handle < state.first_handle || handle >= state.next_handle,
    ensures
        !state.voices.contains_key(handle),
{
}

/// No event, hand-out or release moves the range of handles backwards: the
/// first handle stays and the next one never falls, so a handle is never
/// given out twice.
pub proof fn lemma_handles_only_grow(state: VoiceReceiverView, event: VoiceEvent, handle: u64)
    ensures
        state.after_event(event).first_handle == state.first_handle,
        state.after_event(event).next_handle >= state.next_handle,
        state.voice_taken().first_handle == state.first_handle,
        state.voice_taken().next_handle == state.next_handle,
        state.released(handle).first_handle == state.first_handle,
        state.released(handle).next_handle == state.next_handle,
{
}

/// The ready queue never holds more buffers than the sink was configured
/// for.
pub proof fn lemma_queue_within_capacity(state: VoiceReceiverView)
    requires
        state.wf(),
        state.queue_size >= 1,
    ensures
        state.queue.len() <= state.queue_size,
{
}

/// Opening a buffer on a full queue pushes out exactly the oldest buffer:
/// the others keep their order and the new buffer is last.
pub proof fn lemma_full_queue_evicts_oldest(
    state: VoiceReceiverView,
    ssrc: u32,
    continues: bool,
)
    requires
        state.wf(),
        state.queue_size >= 1,
        state.queue.len() == state.queue_size,
        state.next_handle < u64::MAX,
    ensures
        state.opened(ssrc, continues).queue == state.queue.drop_first().push(state.next_handle),
        state.opened(ssrc, continues).queue.len() == state.queue_size,
{
}

/// Opening a buffer on a queue with room pushes nothing out.
pub proof fn lemma_roomy_queue_keeps_all(state: VoiceReceiverView, ssrc: u32, continues: bool)
    requires
        state.wf(),
        state.queue.len() < state.queue_size,
        state.next_handle < u64::MAX,
    ensures
        state.opened(ssrc, continues).queue == state.queue.push(state.next_handle),
{
}

/// What opening a buffer does to the ready queue of a sink with room for at
/// least one buffer and handles left: the new buffer, empty and open, is
/// last; a full queue loses its oldest buffer and no other, a queue with
/// room loses none; the order of the rest is kept, and the queue is never
/// longer than the sink was configured for.
pub proof fn lemma_opening_fills_the_queue(state: VoiceReceiverView, ssrc: u32, continues: bool)
    requires
        state.wf(),
        state.queue_size >= 1,
        state.next_handle < u64::MAX,
    ensures
        ({
            let after = state.opened(ssrc, continues);
            let fresh = state.next_handle;
            &&& after.queue == if state.queue.len() == state.queue_size {
                state.queue.drop_first().push(fresh)
            } else {
                state.queue.push(fresh)
            }
            &&& after.queue.len() == if state.queue.len() == state.queue_size {
                state.queue_size as int
            } else {
                state.queue.len() as int + 1
            }
            &&& after.queue.len() <= state.queue_size
            &&& after.voices.contains_key(fresh)
            &&& after.voices[fresh].voice.id == ssrc
            &&& after.voices[fresh].voice.chunks.len() == 0
            &&& !after.voices[fresh].voice.is_completed
            &&& after.processing.contains_key(ssrc)
            &&& after.processing[ssrc] == fresh
        }),
{
}

/// A buffer is cut exactly when it reaches the threshold. Below the
/// threshold the chunk is appended and the stream keeps its buffer. At the
/// threshold the stream gets a fresh, empty buffer under a new handle, and
/// the old buffer, if it is still alive, is completed and holds exactly the
/// threshold's number of chunks.
pub proof fn lemma_cut_at_threshold(state: VoiceReceiverView, ssrc: u32, chunk: Seq<i16>)
    requires
        state.wf(),
        state.processing.contains_key(ssrc),
        state.cut_voice_chunks_size >= 1,
        state.next_handle < u64::MAX,
    ensures
        ({
            let handle = state.processing[ssrc];
            let length = state.voices[handle].voice.chunks.len();
            let after = state.voice_data_received(ssrc, Some(chunk));
            &&& length + 1 <= state.cut_voice_chunks_size
            &&& length + 1 < state.cut_voice_chunks_size ==> {
                &&& after.processing.contains_key(ssrc)
                &&& after.processing[ssrc] == handle
                &&& after.voices[handle].voice.chunks == state.voices[handle].voice.chunks.push(
                    chunk,
                )
                &&& !after.voices[handle].voice.is_completed
            }
            &&& length + 1 == state.cut_voice_chunks_size ==> {
                &&& after.processing.contains_key(ssrc)
                &&& after.processing[ssrc] == state.next_handle
                &&& after.processing[ssrc] != handle
                &&& after.voices[state.next_handle].voice.chunks.len() == 0
                &&& after.voices[state.next_handle].continues
                &&& after.voices.contains_key(handle) ==> {
                    &&& after.voices[handle].voice.is_completed
                    &&& after.voices[handle].cut
                    &&& after.voices[handle].voice.chunks.len() == state.cut_voice_chunks_size
                }
            }
        }),
{
    let handle = state.processing[ssrc];
    let grown = state.appended(handle, chunk);
    let after = state.voice_data_received(ssrc, Some(chunk));
    assert(state.short(ssrc));
    assert(state.voices.contains_key(handle));
    if grown.voices[handle].voice.chunks.len() >= state.cut_voice_chunks_size {
        lemma_appended_structured(state, ssrc, chunk);
        lemma_closed_wf(grown, set![ssrc], true);
        let shut = grown.closed(set![ssrc], true);
        assert(grown.ending(set![ssrc], handle));
        lemma_evicted_wf(shut);
        if after.voices.contains_key(handle) {
            assert(shut.voices.contains_key(handle));
            assert(shut.voices[handle].voice.is_completed);
            let room = shut.evicted();
            if shut.evicts() && shut.queue[0] == handle {
                assert(!shut.in_flight(handle));
            }
        }
    }
}

} // verus!
