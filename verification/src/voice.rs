//! Speaker buffers: one continuous speaking turn of one audio stream.

use vstd::prelude::*;

verus! {

/// One speaking turn of one stream: its SSRC, the audio chunks received so
/// far in arrival order, and whether the turn is over.
#[derive(Debug, Clone)]
pub struct Voice {
    pub id: u32,
    pub chunks: Vec<Vec<i16>>,
    pub is_completed: bool,
}

/// A speaker buffer as a voice connection's client sees it.
pub type ClientVoice = Voice;

/// The mathematical content of a [`Voice`].
pub struct VoiceView {
    pub id: u32,
    pub chunks: Seq<Seq<i16>>,
    pub is_completed: bool,
}

/// The samples of each chunk, in order.
pub open spec fn chunks_view(chunks: Seq<Vec<i16>>) -> Seq<Seq<i16>> {
    chunks.map_values(|chunk: Vec<i16>| chunk@)
}

impl View for Voice {
    type V = VoiceView;

    open spec fn view(&self) -> VoiceView {
        VoiceView {
            id: self.id,
            chunks: chunks_view(self.chunks@),
            is_completed: self.is_completed,
        }
    }
}

impl Voice {
    /// A fresh, empty, still open buffer for the stream `id`.
    pub fn new(id: u32) -> (voice: Voice)
        ensures
            voice@ == (VoiceView { id, chunks: Seq::<Seq<i16>>::empty(), is_completed: false }),
    {
        let voice = Voice { id, chunks: Vec::new(), is_completed: false };
        assert(chunks_view(voice.chunks@) =~= Seq::<Seq<i16>>::empty());
        voice
    }

    /// Appends one chunk at the end; nothing else changes.
    pub fn append(&mut self, chunk: Vec<i16>)
        ensures
            final(self)@ == (VoiceView { chunks: old(self)@.chunks.push(chunk@), ..old(self)@ }),
    {
        self.chunks.push(chunk);
        assert(chunks_view(self.chunks@) =~= chunks_view(old(self).chunks@).push(chunk@));
    }

    /// Marks the turn as over; the audio is untouched.
    pub fn mark_completed(&mut self)
        ensures
            final(self)@ == (VoiceView { is_completed: true, ..old(self)@ }),
    {
        self.is_completed = true;
    }
}

} // verus!
