use red_alert::actions_history::{RedAlertActionType, RedAlertActionsHistory};
use red_alert::guilds_voice_config::RedAlertGuildsVoiceConfig;
use red_alert::guilds_voices_receivers::GuildsVoicesReceivers;
use red_alert::listen_actions::start_listen;
use red_alert::recognition::{Recognition, RecognitionState, RecognitionStep};
use red_alert::recognizer::{
    GuildVoiceInfo, Pull, RecognitionTask, RecognizerState, TaskAction,
};
use red_alert::recognizer_performer::{Kick, SessionTracker};
use red_alert::voice_config::{RedAlertVoiceConfig, WordMatch};
use red_alert::voice_receiver::VoiceEvent;

const GUILD: u64 = 500;
const U1: u64 = 1;
const U2: u64 = 2;

fn closest_words(config: &RedAlertVoiceConfig, text: &str) -> Vec<WordMatch> {
    let mut corpus = ngrammatic::CorpusBuilder::new().finish();
    for word in text.split_ascii_whitespace() {
        corpus.add_text(word);
    }
    let mut matches = Vec::new();
    for query in config.query_words() {
        if let Some(best) = corpus.search(&query, 0.0).into_iter().next() {
            matches.push(WordMatch {
                query,
                text: best.text,
                similarity: (best.similarity * 1_000_000.0).round() as u32,
            });
        }
    }
    matches
}

fn decode(chunks_seen: usize) -> (bool, String) {
    if chunks_seen < 10 {
        (false, String::new())
    } else if chunks_seen < 30 {
        (false, "код".to_string())
    } else {
        (true, "код красный @targetAlias".to_string())
    }
}

#[test]
fn speech_to_moderation_action() {
    let mut receivers = GuildsVoicesReceivers::new();
    assert_eq!(start_listen(&mut receivers, GUILD, Ok(())).is_ok(), true);
    receivers.act(GUILD, VoiceEvent::SpeakingUpdate { ssrc: 42, speaking: true });
    receivers.act(GUILD, VoiceEvent::SpeakingStateUpdate { ssrc: 42, user_id: Some(U1) });
    for value in 0..30i16 {
        receivers.act(GUILD, VoiceEvent::VoicePacket { ssrc: 42, audio: Some(vec![value; 1920]) });
    }
    receivers.act(GUILD, VoiceEvent::SpeakingUpdate { ssrc: 42, speaking: false });

    let taken = receivers.next_guild_voice().expect("the buffer is ready");
    assert_eq!(taken.info, GuildVoiceInfo { user_id: U1, guild_id: GUILD, forced_cut: false });

    let (mut task, start) = RecognitionTask::start(taken.info);
    let mut events = vec![start];
    let mut recognition = Recognition::new();
    let mut chunks_seen = 0;
    loop {
        let voice = receivers.voice(&GUILD, &taken.container).expect("held buffers live");
        let last = GuildVoiceInfo {
            forced_cut: receivers.is_cut(&GUILD, &taken.container),
            ..taken.info
        };
        let pulled = match recognition.step(voice) {
            RecognitionStep::Finished | RecognitionStep::BadChunk => Pull::Through(last),
            RecognitionStep::WaitingChunk => Pull::State(RecognitionState::WaitingChunk),
            RecognitionStep::Samples(samples) => {
                assert_eq!(samples.len(), 320);
                chunks_seen += 1;
                let (finalized, text) = decode(chunks_seen);
                Pull::State(recognition.accept(finalized, text))
            }
        };
        match task.advance(pulled) {
            TaskAction::Send(event) => events.push(event),
            TaskAction::Sleep => panic!("a completed buffer is never waited for"),
            TaskAction::Continue => {}
            TaskAction::Stop => break,
        }
    }
    receivers.release(GUILD, taken.container);
    assert_eq!(receivers.voice(&GUILD, &taken.container).is_none(), true);
    assert_eq!(chunks_seen, 30);
    assert_eq!(events.len(), 4);
    assert_eq!(events[0], RecognizerState::RecognitionStart(taken.info));
    assert_eq!(events[3], RecognizerState::RecognitionEnd(taken.info));

    let configs = RedAlertGuildsVoiceConfig::new(RedAlertVoiceConfig {
        target_words: vec!["код красный".to_string()],
        self_words: Vec::new(),
        aliases: vec![("targetAlias".to_string(), U2)],
        similarity_threshold: 800_000,
    });
    let mut tracker = SessionTracker::new();
    let mut history = RedAlertActionsHistory::new();
    let mut called: Vec<Kick> = Vec::new();
    for event in &events {
        let matches = match event {
            RecognizerState::RecognitionResult(info, result) => {
                closest_words(configs.get(&info.guild_id), &result.text)
            }
            _ => Vec::new(),
        };
        called.extend(tracker.process(event, &configs, &matches));
    }
    assert_eq!(called.len(), 1);
    assert_eq!(called[0].target_id, U2);
    assert_eq!(called[0].author_id, U1);
    for kick in called {
        history.log_history(kick.guild_id, 1_700_000_000_000, kick.into_action(true));
    }
    let entries = history.extract(&GUILD).expect("the action was logged");
    assert_eq!(entries.len(), 1);
    assert_eq!(
        matches!(
            &entries[0].action,
            RedAlertActionType::Voice { author_id: U1, target_id: U2, is_success: true, .. }
        ),
        true
    );
}
