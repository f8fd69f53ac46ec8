use red_alert::actions_history::RedAlertActionType;
use red_alert::guilds_voice_config::RedAlertGuildsVoiceConfig;
use red_alert::recognition::{RecognitionResult, RecognitionResultType};
use red_alert::recognizer::{GuildVoiceInfo, RecognizerState};
use red_alert::recognizer_performer::{Kick, SessionTracker};
use red_alert::voice_config::{RedAlertVoiceConfig, RedAlertVoiceSearchResult, WordMatch};

fn configs() -> RedAlertGuildsVoiceConfig {
    RedAlertGuildsVoiceConfig::new(RedAlertVoiceConfig {
        target_words: vec!["код красный".to_string()],
        self_words: vec!["самокик".to_string()],
        aliases: vec![("targetAlias".to_string(), 2), ("вася".to_string(), 4)],
        similarity_threshold: 800_000,
    })
}

fn closest_words(config: &RedAlertVoiceConfig, text: &str) -> Vec<WordMatch> {
    let mut corpus = ngrammatic::CorpusBuilder::new().finish();
    for word in text.split_ascii_whitespace() {
        corpus.add_text(word);
    }
    let mut matches = Vec::new();
    for query in config.query_words() {
        if let Some(best) = corpus.search(&query, 0.0).into_iter().next() {
            matches.push(WordMatch {
                query,
                text: best.text,
                similarity: (best.similarity * 1_000_000.0).round() as u32,
            });
        }
    }
    matches
}

fn result(info: GuildVoiceInfo, kind: RecognitionResultType, text: &str) -> RecognizerState<GuildVoiceInfo> {
    RecognizerState::RecognitionResult(
        info,
        RecognitionResult { result_type: kind, text: text.to_string() },
    )
}

fn run(
    tracker: &mut SessionTracker,
    configs: &RedAlertGuildsVoiceConfig,
    state: &RecognizerState<GuildVoiceInfo>,
) -> Vec<Kick> {
    let matches = match state {
        RecognizerState::RecognitionResult(info, result) => {
            closest_words(configs.get(&info.guild_id), &result.text)
        }
        _ => Vec::new(),
    };
    tracker.process(state, configs, &matches)
}

#[test]
fn final_result_orders_one_kick() {
    let configs = configs();
    let mut tracker = SessionTracker::new();
    let info = GuildVoiceInfo { user_id: 1, guild_id: 77, forced_cut: false };
    assert_eq!(run(&mut tracker, &configs, &RecognizerState::RecognitionStart(info)), Vec::new());
    let kicks = run(
        &mut tracker,
        &configs,
        &result(info, RecognitionResultType::Final, "код красный @targetAlias"),
    );
    assert_eq!(kicks.len(), 1);
    assert_eq!(kicks[0].guild_id, 77);
    assert_eq!(kicks[0].author_id, 1);
    assert_eq!(kicks[0].target_id, 2);
    assert_eq!(kicks[0].full_text, "код красный @targetAlias");
    assert_eq!(kicks[0].reason.word, "код красный targetAlias");
    assert_eq!(run(&mut tracker, &configs, &RecognizerState::RecognitionEnd(info)), Vec::new());
}

#[test]
fn self_phrase_orders_the_speaker() {
    let mut configs = configs();
    let mut own = configs.remove(&5);
    own.similarity_threshold = 900_000;
    configs.insert(5, own);
    let mut tracker = SessionTracker::new();
    let info = GuildVoiceInfo { user_id: 3, guild_id: 5, forced_cut: false };
    let kicks = run(&mut tracker, &configs, &result(info, RecognitionResultType::Final, "самокик"));
    assert_eq!(kicks.len(), 1);
    assert_eq!(kicks[0].target_id, 3);
    assert_eq!(kicks[0].reason.total_similarity, 1_000_000);
}

#[test]
fn a_target_is_ordered_once_per_turn() {
    let configs = configs();
    let mut tracker = SessionTracker::new();
    let info = GuildVoiceInfo { user_id: 1, guild_id: 77, forced_cut: false };
    let partial = result(info, RecognitionResultType::Partial, "код красный вася");
    let longer = result(info, RecognitionResultType::Partial, "код красный вася самокик");
    assert_eq!(run(&mut tracker, &configs, &partial).len(), 1);
    assert_eq!(run(&mut tracker, &configs, &partial).len(), 0);
    let kicks = run(&mut tracker, &configs, &longer);
    assert_eq!(kicks.iter().map(|kick| kick.target_id).collect::<Vec<u64>>(), vec![1]);
    assert_eq!(run(&mut tracker, &configs, &RecognizerState::RecognitionEnd(info)).len(), 0);
    let again = run(&mut tracker, &configs, &longer);
    assert_eq!(again.iter().map(|kick| kick.target_id).collect::<Vec<u64>>(), vec![1, 4]);
    assert_eq!(run(&mut tracker, &configs, &RecognizerState::RecognitionStart(info)).len(), 0);
    assert_eq!(run(&mut tracker, &configs, &partial).len(), 1);
}

#[test]
fn a_forced_cut_is_no_turn_boundary() {
    let configs = configs();
    let mut tracker = SessionTracker::new();
    let info = GuildVoiceInfo { user_id: 1, guild_id: 77, forced_cut: false };
    let forced = GuildVoiceInfo { forced_cut: true, ..info };
    let text = "код красный вася";
    assert_eq!(run(&mut tracker, &configs, &RecognizerState::RecognitionStart(info)).len(), 0);
    assert_eq!(run(&mut tracker, &configs, &result(info, RecognitionResultType::Partial, text)).len(), 1);
    assert_eq!(run(&mut tracker, &configs, &RecognizerState::RecognitionStart(forced)).len(), 0);
    assert_eq!(run(&mut tracker, &configs, &RecognizerState::RecognitionEnd(forced)).len(), 0);
    assert_eq!(run(&mut tracker, &configs, &result(forced, RecognitionResultType::Partial, text)).len(), 0);
    assert_eq!(run(&mut tracker, &configs, &RecognizerState::RecognitionEnd(info)).len(), 0);
    assert_eq!(run(&mut tracker, &configs, &result(forced, RecognitionResultType::Final, text)).len(), 1);
}

#[test]
fn speakers_are_tracked_apart() {
    let configs = configs();
    let mut tracker = SessionTracker::new();
    let first = GuildVoiceInfo { user_id: 1, guild_id: 77, forced_cut: false };
    let second = GuildVoiceInfo { user_id: 9, guild_id: 77, forced_cut: false };
    let text = "код красный вася";
    assert_eq!(run(&mut tracker, &configs, &result(first, RecognitionResultType::Partial, text)).len(), 1);
    assert_eq!(run(&mut tracker, &configs, &result(second, RecognitionResultType::Partial, text)).len(), 1);
    assert_eq!(run(&mut tracker, &configs, &RecognizerState::RecognitionEnd(second)).len(), 0);
    assert_eq!(run(&mut tracker, &configs, &result(first, RecognitionResultType::Final, text)).len(), 0);
    assert_eq!(run(&mut tracker, &configs, &result(second, RecognitionResultType::Final, text)).len(), 1);
}

#[test]
fn register_filters_repeated_targets() {
    let mut tracker = SessionTracker::new();
    let reason = RedAlertVoiceSearchResult {
        word: "a".to_string(),
        real_word: "a".to_string(),
        total_similarity: 1,
    };
    let found = vec![(5, reason.clone()), (6, reason.clone()), (5, reason.clone())];
    let fresh = tracker.register(1, &found);
    assert_eq!(fresh.iter().map(|entry| entry.0).collect::<Vec<u64>>(), vec![5, 6]);
    assert_eq!(tracker.register(1, &found).len(), 0);
    tracker.reset(1);
    assert_eq!(tracker.register(1, &found).len(), 2);
}

#[test]
fn kick_becomes_history_entry() {
    let reason = RedAlertVoiceSearchResult {
        word: "самокик".to_string(),
        real_word: "самокик".to_string(),
        total_similarity: 1_000_000,
    };
    let kick = Kick {
        guild_id: 1,
        author_id: 2,
        target_id: 3,
        full_text: "ну самокик".to_string(),
        reason: reason.clone(),
    };
    assert_eq!(
        kick.into_action(true),
        RedAlertActionType::Voice {
            author_id: 2,
            target_id: 3,
            full_text: "ну самокик".to_string(),
            reason,
            is_success: true,
        }
    );
}
