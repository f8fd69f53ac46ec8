use red_alert::recognition::{RecognitionResult, RecognitionResultType, RecognitionState};
use red_alert::recognizer::{
    GuildVoiceInfo, Pull, RecognitionTask, RecognizerState, TaskAction,
};

fn info() -> GuildVoiceInfo {
    GuildVoiceInfo { user_id: 1, guild_id: 2, forced_cut: false }
}

fn heard(text: &str) -> RecognitionResult {
    RecognitionResult { result_type: RecognitionResultType::Final, text: text.to_string() }
}

#[test]
fn events_of_a_buffer_are_ordered() {
    let (mut task, first) = RecognitionTask::start(info());
    assert_eq!(first, RecognizerState::RecognitionStart(info()));
    assert_eq!(task.advance(Pull::State(RecognitionState::WaitingChunk)), TaskAction::Sleep);
    assert_eq!(task.advance(Pull::State(RecognitionState::EmptyResult)), TaskAction::Continue);
    assert_eq!(task.advance(Pull::State(RecognitionState::RepeatedResult)), TaskAction::Continue);
    assert_eq!(
        task.advance(Pull::State(RecognitionState::Result(heard("код красный")))),
        TaskAction::Send(RecognizerState::RecognitionResult(info(), heard("код красный")))
    );
    assert_eq!(task.advance(Pull::Through(info())), TaskAction::Send(RecognizerState::RecognitionEnd(info())));
    assert_eq!(task.advance(Pull::Through(info())), TaskAction::Stop);
    assert_eq!(task.advance(Pull::State(RecognitionState::Result(heard("поздно")))), TaskAction::Stop);
}

#[test]
fn nothing_is_sent_once_the_consumer_is_gone() {
    let (mut task, _) = RecognitionTask::start(info());
    task.send_failed();
    assert_eq!(task.advance(Pull::State(RecognitionState::Result(heard("код")))), TaskAction::Stop);
    assert_eq!(task.advance(Pull::Through(info())), TaskAction::Stop);
    let (mut done, _) = RecognitionTask::start(info());
    assert_eq!(done.advance(Pull::Through(info())), TaskAction::Send(RecognizerState::RecognitionEnd(info())));
    done.send_failed();
    assert_eq!(done.advance(Pull::Through(info())), TaskAction::Stop);
}

#[test]
fn the_end_goes_out_under_the_identity_given() {
    let (mut task, _) = RecognitionTask::start(info());
    let cut = GuildVoiceInfo { forced_cut: true, ..info() };
    assert_eq!(
        task.advance(Pull::Through(cut)),
        TaskAction::Send(RecognizerState::RecognitionEnd(cut))
    );
}
