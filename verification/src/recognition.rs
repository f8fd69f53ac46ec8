//! The recognition engine: walks one speaker buffer chunk by chunk and
//! classifies what the speech decoder says about each chunk.

use vstd::prelude::*;
use crate::voice::Voice;

verus! {

/// Whether a transcription is an incremental hypothesis or a locked segment.
#[derive(Debug, PartialEq, Eq, Clone, Copy, Structural)]
pub enum RecognitionResultType {
    Partial,
    Final,
}

/// A non-empty transcription with its kind.
#[derive(Debug, PartialEq, Clone)]
pub struct RecognitionResult {
    pub result_type: RecognitionResultType,
    pub text: String,
}

/// What one pull of the engine produced.
#[derive(Debug, PartialEq, Clone)]
pub enum RecognitionState {
    WaitingChunk,
    RepeatedResult,
    EmptyResult,
    Result(RecognitionResult),
}

/// What the engine needs next from its driver.
#[derive(Debug, PartialEq, Clone)]
pub enum RecognitionStep {
    /// The buffer is completed and every chunk was consumed.
    Finished,
    /// No unread chunk yet, but the speaker is still talking.
    WaitingChunk,
    /// The next chunk, converted to the decoder's format: feed it to the
    /// decoder and report back through [`Recognition::accept`].
    Samples(Vec<i16>),
    /// The next chunk is not whole stereo frames and cannot be decoded.
    BadChunk,
}

/// What [`fon::Audio::with_audio`] makes of interleaved 16-bit stereo
/// `samples` recorded at `from_hz` when asked for mono at `to_hz`.
pub uninterp spec fn resampled(samples: Seq<i16>, from_hz: u32, to_hz: u32) -> Seq<i16>;

/// Converts interleaved 16-bit stereo at `from_hz` to 16-bit mono at `to_hz`
/// with `fon::Audio::<Ch16, 1>::with_audio`. The samples go in through
/// `with_i16_buffer`, which refuses a buffer that is not whole stereo
/// frames, and come out through `as_i16_slice`. The resampler behind
/// `with_audio` gives up on pairs of rates whose ratio it cannot hold in 32
/// bits, so only the pair that this library converts between is let in. The
/// result is a function of the arguments alone; nothing more is claimed of
/// it.
#[verifier::external_body]
fn resample(samples: &Vec<i16>, from_hz: u32, to_hz: u32) -> (mono: Vec<i16>)
    requires
        samples@.len() % 2 == 0,
        from_hz == CAPTURE_HZ,
        to_hz == BASE_HZ,
    ensures
        mono@ == resampled(samples@, from_hz, to_hz),
{
    let stereo = fon::Audio::<fon::chan::Ch16, 2>::with_i16_buffer(from_hz, samples.as_slice());
    let mut mono = fon::Audio::<fon::chan::Ch16, 1>::with_audio(to_hz, &stereo);
    mono.as_i16_slice().to_vec()
}

/// Sample rate of captured audio.
pub const CAPTURE_HZ: u32 = 48_000;

/// Sample rate the decoder expects.
pub const BASE_HZ: u32 = 16_000;

/// The chunk as the decoder wants it, or `None` for a chunk that is not whole
/// stereo frames.
pub fn decoder_samples(chunk: &Vec<i16>) -> (samples: Option<Vec<i16>>)
    ensures
        chunk@.len() % 2 == 0 ==> samples is Some && samples->0@ == resampled(
            chunk@,
            CAPTURE_HZ,
            BASE_HZ,
        ),
        chunk@.len() % 2 != 0 ==> samples is None,
{
    if chunk.len() % 2 == 0 {
        Some(resample(chunk, CAPTURE_HZ, BASE_HZ))
    } else {
        None
    }
}

/// Private forward-only cursor over one speaker buffer, together with the
/// last partial transcription that was let through.
pub struct Recognition {
    last_partial: String,
    last_processed_chunk: usize,
}

/// The state a decoder answer is classified as, given the last partial text
/// that was let through.
pub open spec fn classified(last_partial: Seq<char>, finalized: bool, text: String)
    -> RecognitionState {
    if finalized {
        if text@.len() > 0 {
            RecognitionState::Result(
                RecognitionResult { result_type: RecognitionResultType::Final, text },
            )
        } else {
            RecognitionState::EmptyResult
        }
    } else if text@ != last_partial {
        if text@.len() > 0 {
            RecognitionState::Result(
                RecognitionResult { result_type: RecognitionResultType::Partial, text },
            )
        } else {
            RecognitionState::EmptyResult
        }
    } else {
        RecognitionState::RepeatedResult
    }
}

/// The last partial text remembered after a decoder answer.
pub open spec fn remembered(last_partial: Seq<char>, finalized: bool, text: Seq<char>) -> Seq<
    char,
> {
    if finalized {
        last_partial
    } else {
        text
    }
}

impl Recognition {
    /// The last partial transcription that was let through.
    pub closed spec fn last_partial(&self) -> Seq<char> {
        self.last_partial@
    }

    /// How many chunks of the buffer were consumed.
    pub closed spec fn cursor(&self) -> nat {
        self.last_processed_chunk as nat
    }

    /// An engine at the start of a buffer.
    pub fn new() -> (recognition: Recognition)
        ensures
            recognition.cursor() == 0,
            recognition.last_partial() == Seq::<char>::empty(),
    {
        Recognition { last_partial: String::new(), last_processed_chunk: 0 }
    }

    /// Looks for the next unread chunk of `voice`.
    ///
    /// With no unread chunk the engine stays where it is and says whether the
    /// buffer is over. With one, the cursor moves past it and the chunk comes
    /// back in the decoder's format, unless it is malformed, in which case the
    /// engine stays put.
    pub fn step(&mut self, voice: &Voice) -> (step: RecognitionStep)
        ensures
            final(self).last_partial() == old(self).last_partial(),
            old(self).cursor() >= voice@.chunks.len() ==> {
                &&& final(self).cursor() == old(self).cursor()
                &&& voice.is_completed ==> step == RecognitionStep::Finished
                &&& !voice.is_completed ==> step == RecognitionStep::WaitingChunk
            },
            old(self).cursor() < voice@.chunks.len() ==> {
                let chunk = voice@.chunks[old(self).cursor() as int];
                &&& chunk.len() % 2 == 0 ==> {
                    &&& final(self).cursor() == old(self).cursor() + 1
                    &&& step matches RecognitionStep::Samples(samples)
                    &&& samples@ == resampled(chunk, CAPTURE_HZ, BASE_HZ)
                }
                &&& chunk.len() % 2 != 0 ==> {
                    &&& final(self).cursor() == old(self).cursor()
                    &&& step == RecognitionStep::BadChunk
                }
            },
    {
        if voice.chunks.len() <= self.last_processed_chunk {
            if voice.is_completed {
                RecognitionStep::Finished
            } else {
                RecognitionStep::WaitingChunk
            }
        } else {
            match decoder_samples(&voice.chunks[self.last_processed_chunk]) {
                Some(samples) => {
                    self.last_processed_chunk = self.last_processed_chunk + 1;
                    RecognitionStep::Samples(samples)
                },
                None => RecognitionStep::BadChunk,
            }
        }
    }

    /// One pull of the engine for a decoder whose answer to the next unread
    /// chunk is at hand: `finalized` and `text` are what the decoder says
    /// once it is fed that chunk in its own format. They are not looked at
    /// when there is no chunk to read.
    ///
    /// `None` ends the buffer: it is completed and read to the end, or its
    /// next chunk is malformed. Otherwise the engine waits for a chunk, or
    /// moves past the next one and classifies the answer as
    /// [`Recognition::accept`] does.
    pub fn next(
        &mut self,
        voice: &Voice,
        finalized: bool,
        text: String,
    ) -> (state: Option<RecognitionState>)
        ensures
            old(self).cursor() >= voice@.chunks.len() ==> {
                &&& final(self).cursor() == old(self).cursor()
                &&& final(self).last_partial() == old(self).last_partial()
                &&& state == if voice.is_completed {
                    None
                } else {
                    Some(RecognitionState::WaitingChunk)
                }
            },
            old(self).cursor() < voice@.chunks.len() ==> {
                let chunk = voice@.chunks[old(self).cursor() as int];
                &&& chunk.len() % 2 == 0 ==> {
                    &&& final(self).cursor() == old(self).cursor() + 1
                    &&& final(self).last_partial() == remembered(
                        old(self).last_partial(),
                        finalized,
                        text@,
                    )
                    &&& state == Some(classified(old(self).last_partial(), finalized, text))
                }
                &&& chunk.len() % 2 != 0 ==> {
                    &&& final(self).cursor() == old(self).cursor()
                    &&& final(self).last_partial() == old(self).last_partial()
                    &&& state is None
                }
            },
    {
        match self.step(voice) {
            RecognitionStep::Finished => None,
            RecognitionStep::BadChunk => None,
            RecognitionStep::WaitingChunk => Some(RecognitionState::WaitingChunk),
            RecognitionStep::Samples(_) => Some(self.accept(finalized, text)),
        }
    }

    /// Classifies the decoder's answer to the chunk handed out last.
    ///
    /// `finalized` is the decoder's verdict on the chunk; `text` is its final
    /// result when `finalized`, its partial result otherwise. A partial text
    /// equal to the one remembered is a repetition; any other partial text is
    /// remembered. Empty text is never a result.
    pub fn accept(&mut self, finalized: bool, text: String) -> (state: RecognitionState)
        ensures
            state == classified(old(self).last_partial(), finalized, text),
            final(self).last_partial() == remembered(old(self).last_partial(), finalized, text@),
            final(self).cursor() == old(self).cursor(),
    {
        if finalized {
            if !text.as_str().is_empty() {
                RecognitionState::Result(
                    RecognitionResult { result_type: RecognitionResultType::Final, text },
                )
            } else {
                RecognitionState::EmptyResult
            }
        } else if !(text == self.last_partial) {
            self.last_partial = text.clone();
            if !text.as_str().is_empty() {
                RecognitionState::Result(
                    RecognitionResult { result_type: RecognitionResultType::Partial, text },
                )
            } else {
                RecognitionState::EmptyResult
            }
        } else {
            RecognitionState::RepeatedResult
        }
    }
}

/// Of two consecutive partial answers with the same text, the second is
/// always a repetition, so at most the first is emitted; and the first is
/// emitted exactly when the text is non-empty and differs from what was
/// remembered before.
pub proof fn lemma_identical_partials_emit_once(last_partial: Seq<char>, text: String)
    ensures
        classified(remembered(last_partial, false, text@), false, text)
            == RecognitionState::RepeatedResult,
        classified(last_partial, false, text) is Result <==> (text@.len() > 0 && text@
            != last_partial),
{
}

} // verus!
