//! The recognizer worker: the events it sends for one speaker buffer.

use vstd::prelude::*;
use crate::recognition::{RecognitionResult, RecognitionState};

verus! {

/// Who is speaking, and in which group.
#[derive(Debug, Clone, Copy, PartialEq, Eq, Structural)]
pub struct GuildVoiceInfo {
    pub user_id: u64,
    pub guild_id: u64,
    /// Whether the boundary that the event marks was forced by a cut: on a
    /// start, the buffer continues one that was cut; on an end, the buffer
    /// was cut itself. It says nothing on a result.
    pub forced_cut: bool,
}

/// One event of the recognizer's stream. The events of one buffer are a
/// start, any number of results, and an end.
#[derive(Debug, Clone, PartialEq)]
pub enum RecognizerState<I: Copy> {
    RecognitionStart(I),
    RecognitionResult(I, RecognitionResult),
    RecognitionEnd(I),
}

/// Where a worker is with one buffer.
#[derive(Debug, Clone, Copy, PartialEq, Eq, Structural)]
pub enum TaskPhase {
    /// The start was handed out; results may follow.
    Running,
    /// The end was handed out.
    Finished,
    /// The consumer is gone; nothing more is sent for this buffer.
    Aborted,
}

/// What a worker does next for its buffer.
#[derive(Debug, Clone, PartialEq)]
pub enum TaskAction<I: Copy> {
    /// Send this event, then come back.
    Send(RecognizerState<I>),
    /// Wait a moment for more audio, then come back.
    Sleep,
    /// Come back at once.
    Continue,
    /// The buffer is done with; take the next one.
    Stop,
}

/// What one pull of the engine brought.
#[derive(Debug, Clone, PartialEq)]
pub enum Pull<I: Copy> {
    /// The engine's answer to the pull.
    State(RecognitionState),
    /// The engine is through with the buffer, or has failed on it; the end
    /// goes out under this identity.
    Through(I),
}

/// A worker's handling of one buffer, identified by `info`.
pub struct RecognitionTask<I: Copy> {
    info: I,
    phase: TaskPhase,
}

/// What a running task does about one pull of the engine.
pub open spec fn task_action<I: Copy>(info: I, pulled: Pull<I>) -> TaskAction<I> {
    match pulled {
        Pull::Through(last) => TaskAction::Send(RecognizerState::RecognitionEnd(last)),
        Pull::State(RecognitionState::WaitingChunk) => TaskAction::Sleep,
        Pull::State(RecognitionState::RepeatedResult) => TaskAction::Continue,
        Pull::State(RecognitionState::EmptyResult) => TaskAction::Continue,
        Pull::State(RecognitionState::Result(result)) => TaskAction::Send(
            RecognizerState::RecognitionResult(info, result),
        ),
    }
}

impl<I: Copy> RecognitionTask<I> {
    /// Whose buffer this is.
    pub closed spec fn info(&self) -> I {
        self.info
    }

    /// Where the task is.
    pub closed spec fn phase(&self) -> TaskPhase {
        self.phase
    }

    /// Takes a buffer on: the task is running, and its first event, the
    /// start, is to be sent.
    pub fn start(info: I) -> (started: (RecognitionTask<I>, RecognizerState<I>))
        ensures
            started.0.info() == info,
            started.0.phase() == TaskPhase::Running,
            started.1 == RecognizerState::RecognitionStart(info),
    {
        (RecognitionTask { info, phase: TaskPhase::Running }, RecognizerState::RecognitionStart(info))
    }

    /// Decides what to do about one pull of the engine.
    ///
    /// A running task sends every result under its own identity, sleeps
    /// while the speaker pauses, skips repeated and empty answers, and sends
    /// the end, once, when the engine is through or has failed. A task that
    /// is finished or aborted stops and sends nothing.
    pub fn advance(&mut self, pulled: Pull<I>) -> (action: TaskAction<I>)
        ensures
            final(self).info() == old(self).info(),
            final(self).phase() == phase_after(old(self).phase(), pulled),
            action == if old(self).phase() == TaskPhase::Running {
                task_action(old(self).info(), pulled)
            } else {
                TaskAction::<I>::Stop
            },
    {
        match self.phase {
            TaskPhase::Running => match pulled {
                Pull::Through(last) => {
                    self.phase = TaskPhase::Finished;
                    TaskAction::Send(RecognizerState::RecognitionEnd(last))
                },
                Pull::State(RecognitionState::WaitingChunk) => TaskAction::Sleep,
                Pull::State(RecognitionState::RepeatedResult) => TaskAction::Continue,
                Pull::State(RecognitionState::EmptyResult) => TaskAction::Continue,
                Pull::State(RecognitionState::Result(result)) => TaskAction::Send(
                    RecognizerState::RecognitionResult(self.info, result),
                ),
            },
            TaskPhase::Finished => TaskAction::Stop,
            TaskPhase::Aborted => TaskAction::Stop,
        }
    }

    /// Notes that an event could not be delivered: a running task is aborted,
    /// so that nothing more is sent for its buffer.
    pub fn send_failed(&mut self)
        ensures
            final(self).info() == old(self).info(),
            final(self).phase() == if old(self).phase() == TaskPhase::Running {
                TaskPhase::Aborted
            } else {
                old(self).phase()
            },
    {
        match self.phase {
            TaskPhase::Running => {
                self.phase = TaskPhase::Aborted;
            },
            TaskPhase::Finished => {},
            TaskPhase::Aborted => {},
        }
    }
}

/// Where a task is after one pull of the engine.
pub open spec fn phase_after<I: Copy>(phase: TaskPhase, pulled: Pull<I>) -> TaskPhase {
    if phase == TaskPhase::Running && pulled is Through {
        TaskPhase::Finished
    } else {
        phase
    }
}

/// The events that a task in `phase` sends for the pulls `pulled`, in order,
/// when every event is delivered.
pub open spec fn sent<I: Copy>(info: I, phase: TaskPhase, pulled: Seq<Pull<I>>) -> Seq<
    RecognizerState<I>,
>
    decreases pulled.len(),
{
    if pulled.len() == 0 || phase != TaskPhase::Running {
        Seq::empty()
    } else {
        let later = sent(info, phase_after(phase, pulled[0]), pulled.drop_first());
        match task_action(info, pulled[0]) {
            TaskAction::Send(event) => seq![event] + later,
            _ => later,
        }
    }
}

/// After its start a buffer sends results only, under its own identity,
/// and at most one end, which is the last event it sends.
pub proof fn lemma_events_are_ordered<I: Copy>(info: I, pulled: Seq<Pull<I>>)
    ensures
        forall|i: int|
            0 <= i < sent(info, TaskPhase::Running, pulled).len() ==> {
                let event = #[trigger] sent(info, TaskPhase::Running, pulled)[i];
                &&& !(event is RecognitionStart)
                &&& event matches RecognizerState::RecognitionResult(whose, _) ==> whose == info
                &&& event is RecognitionEnd ==> i == sent(info, TaskPhase::Running, pulled).len()
                    - 1
            },
    decreases pulled.len(),
{
    if pulled.len() > 0 {
        let rest = pulled.drop_first();
        if pulled[0] is Through {
            assert(sent(info, TaskPhase::Finished, rest) =~= Seq::<RecognizerState<I>>::empty());
        } else {
            lemma_events_are_ordered(info, rest);
            let later = sent(info, TaskPhase::Running, rest);
            let all = sent(info, TaskPhase::Running, pulled);
            match task_action(info, pulled[0]) {
                TaskAction::Send(event) => {
                    assert(all =~= seq![event] + later);
                    assert forall|i: int| 0 <= i < all.len() implies {
                        let e = #[trigger] all[i];
                        &&& !(e is RecognitionStart)
                        &&& e matches RecognizerState::RecognitionResult(whose, _) ==> whose == info
                        &&& e is RecognitionEnd ==> i == all.len() - 1
                    } by {
                        if i > 0 {
                            assert(all[i] == later[i - 1]);
                        }
                    }
                },
                _ => {},
            }
        }
    }
}

/// A running task sends an end exactly when the engine is through, and
/// never sends a second start.
pub proof fn lemma_end_only_when_through<I: Copy>(info: I, pulled: Pull<I>)
    ensures
        pulled is Through <==> (task_action(info, pulled) matches TaskAction::Send(
            RecognizerState::RecognitionEnd(_),
        )),
        !(task_action(info, pulled) matches TaskAction::Send(RecognizerState::RecognitionStart(_))),
{
}

} // verus!
