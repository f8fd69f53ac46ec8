use red_alert::monitoring_performer::{monitoring_action, MonitoringAction, VoiceStateInfo};

fn member(user_id: u64, channel_id: u64) -> VoiceStateInfo {
    VoiceStateInfo { user_id, channel_id: Some(channel_id), self_mute: false, mute: false }
}

const BOT: u64 = 1000;
const A: u64 = 11;
const B: u64 = 22;

#[test]
fn monitor_follows_the_busiest_channel() {
    let mut states = vec![member(1, A), member(2, A), member(3, A), member(4, B)];
    assert_eq!(monitoring_action(BOT, &states), MonitoringAction::Join(A));
    states.push(member(BOT, A));
    assert_eq!(monitoring_action(BOT, &states), MonitoringAction::Nothing);

    let states = vec![member(BOT, A), member(4, B), member(5, B)];
    assert_eq!(monitoring_action(BOT, &states), MonitoringAction::Join(B));

    let states = vec![member(BOT, B)];
    assert_eq!(monitoring_action(BOT, &states), MonitoringAction::Leave);
    let states: Vec<VoiceStateInfo> = Vec::new();
    assert_eq!(monitoring_action(BOT, &states), MonitoringAction::Nothing);
}

#[test]
fn muted_members_and_the_bot_do_not_count() {
    let states = vec![
        VoiceStateInfo { user_id: 1, channel_id: Some(A), self_mute: true, mute: false },
        VoiceStateInfo { user_id: 2, channel_id: Some(A), self_mute: false, mute: true },
        VoiceStateInfo { user_id: 3, channel_id: None, self_mute: false, mute: false },
        member(BOT, A),
    ];
    assert_eq!(monitoring_action(BOT, &states), MonitoringAction::Leave);
    let states = vec![
        VoiceStateInfo { user_id: 1, channel_id: Some(A), self_mute: true, mute: false },
        member(2, B),
        VoiceStateInfo { user_id: BOT, channel_id: Some(A), self_mute: true, mute: true },
    ];
    assert_eq!(monitoring_action(BOT, &states), MonitoringAction::Join(B));
}

#[test]
fn ties_go_to_the_greater_channel_id() {
    let states = vec![member(1, A), member(2, B)];
    assert_eq!(monitoring_action(BOT, &states), MonitoringAction::Join(B));
    let states = vec![member(2, B), member(1, A)];
    assert_eq!(monitoring_action(BOT, &states), MonitoringAction::Join(B));
    let states = vec![member(2, B), member(1, A), member(3, A)];
    assert_eq!(monitoring_action(BOT, &states), MonitoringAction::Join(A));
}
