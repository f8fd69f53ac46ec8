use red_alert::actions_history::{
    RedAlertActionInfo, RedAlertActionType, RedAlertActionsHistory, HISTORY_LIMIT,
};
use red_alert::voice_config::RedAlertVoiceSearchResult;

fn text(target_id: u64) -> RedAlertActionType {
    RedAlertActionType::Text { author_id: 1, target_id, is_success: true }
}

#[test]
fn history_keeps_the_latest_hundred() {
    let mut history = RedAlertActionsHistory::new();
    for target in 0..105u64 {
        history.log_history(7, target as i64, text(target));
    }
    assert_eq!(HISTORY_LIMIT, 100);
    assert_eq!(history.len(&7), 100);
    let entries = history.extract(&7).expect("the group has a log");
    assert_eq!(entries.len(), 100);
    assert_eq!(entries[0], RedAlertActionInfo { time: 5, action: text(5) });
    assert_eq!(entries[99], RedAlertActionInfo { time: 104, action: text(104) });
    assert_eq!(history.extract(&7), None);
    assert_eq!(history.len(&7), 0);
}

#[test]
fn groups_have_their_own_logs() {
    let mut history = RedAlertActionsHistory::default();
    history.log_history(1, 10, text(100));
    history.log_history(2, 20, text(200));
    history.log_history(1, 30, text(300));
    assert_eq!(history.len(&1), 2);
    assert_eq!(history.len(&2), 1);
    assert_eq!(history.len(&3), 0);
    let first = history.extract(&1).expect("group 1 has a log");
    assert_eq!(first.len(), 2);
    assert_eq!(first[1].time, 30);
    assert_eq!(history.len(&2), 1);
}

#[test]
fn voice_actions_are_logged_as_they_are() {
    let mut history = RedAlertActionsHistory::new();
    let reason = RedAlertVoiceSearchResult {
        word: "самокик".to_string(),
        real_word: "самокик".to_string(),
        total_similarity: 1_000_000,
    };
    let action = RedAlertActionType::Voice {
        author_id: 3,
        target_id: 3,
        full_text: "самокик".to_string(),
        reason,
        is_success: false,
    };
    history.log_history(9, -5, action.clone());
    let entries = history.extract(&9).expect("the group has a log");
    assert_eq!(entries.len(), 1);
    assert_eq!(entries[0], RedAlertActionInfo { time: -5, action });
}
