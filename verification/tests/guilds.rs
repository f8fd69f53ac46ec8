use red_alert::guilds_voice_config::RedAlertGuildsVoiceConfig;
use red_alert::guilds_voices_receivers::GuildsVoicesReceivers;
use red_alert::listen_actions::{start_listen, stop_listen, StartListenError, StopListenError};
use red_alert::queued_items_container::QueuedItemsContainer;
use red_alert::voice_config::RedAlertVoiceConfig;
use red_alert::voice_receiver::{VoiceEvent, VoiceReceiver, VoiceReceiverConfiguration};

fn base() -> RedAlertVoiceConfig {
    RedAlertVoiceConfig {
        target_words: vec!["код красный".to_string()],
        self_words: Vec::new(),
        aliases: Vec::new(),
        similarity_threshold: 750_000,
    }
}

#[test]
fn groups_fall_back_to_the_base_record() {
    let mut configs = RedAlertGuildsVoiceConfig::new(base());
    assert_eq!(configs.get(&1), &base());
    assert_eq!(configs.base(), &base());
    let mut own = configs.remove(&1);
    assert_eq!(own, base());
    own.similarity_threshold = 1;
    configs.insert(1, own.clone());
    assert_eq!(configs.get(&1), &own);
    assert_eq!(configs.get(&2), &base());
    assert_eq!(configs.specific().len(), 1);
    assert_eq!(configs.remove(&1), own);
    assert_eq!(configs.get(&1), &base());
    assert_eq!(configs.specific().len(), 0);
}

#[test]
fn auto_track_is_switched() {
    let mut configs = RedAlertGuildsVoiceConfig::new(base());
    assert_eq!(configs.auto_track_ids().len(), 0);
    assert_eq!(configs.switch_auto_track(5), true);
    assert_eq!(configs.auto_track_ids().contains(&5), true);
    assert_eq!(configs.switch_auto_track(6), true);
    assert_eq!(configs.switch_auto_track(5), false);
    assert_eq!(configs.auto_track_ids().contains(&5), false);
    assert_eq!(configs.auto_track_ids().len(), 1);
}

#[test]
fn listening_starts_with_a_fresh_sink() {
    let mut receivers = GuildsVoicesReceivers::new();
    assert_eq!(
        start_listen(&mut receivers, 1, Err(StartListenError::SongbirdMissing)),
        Err(StartListenError::SongbirdMissing)
    );
    assert_eq!(
        start_listen(&mut receivers, 1, Err(StartListenError::ConnectingError)),
        Err(StartListenError::ConnectingError)
    );
    assert_eq!(receivers.contains(&1), false);
    assert_eq!(start_listen(&mut receivers, 1, Ok(())), Ok(()));
    assert_eq!(receivers.contains(&1), true);
    receivers.act(1, VoiceEvent::SpeakingStateUpdate { ssrc: 4, user_id: Some(40) });
    receivers.act(1, VoiceEvent::SpeakingUpdate { ssrc: 4, speaking: true });
    assert_eq!(start_listen(&mut receivers, 1, Ok(())).is_ok(), true);
    assert_eq!(receivers.next_guild_voice(), None);
}

#[test]
fn listening_stops_only_after_a_clean_leave() {
    let mut receivers = GuildsVoicesReceivers::new();
    assert_eq!(start_listen(&mut receivers, 1, Ok(())).is_ok(), true);
    for error in [
        StopListenError::SongbirdMissing,
        StopListenError::NoListeners,
        StopListenError::DisconnectingError,
    ] {
        assert_eq!(stop_listen(&mut receivers, 1, Err(error)), Err(error));
        assert_eq!(receivers.contains(&1), true);
    }
    assert_eq!(stop_listen(&mut receivers, 1, Ok(())), Ok(()));
    assert_eq!(receivers.contains(&1), false);
}

#[test]
fn workers_draw_from_every_group() {
    let mut receivers = GuildsVoicesReceivers::new();
    for guild in [1u64, 2, 3] {
        receivers.open(guild, VoiceReceiverConfiguration::default());
    }
    receivers.act(1, VoiceEvent::SpeakingStateUpdate { ssrc: 4, user_id: Some(40) });
    receivers.act(1, VoiceEvent::SpeakingUpdate { ssrc: 4, speaking: true });
    receivers.act(3, VoiceEvent::SpeakingUpdate { ssrc: 4, speaking: true });
    receivers.act(9, VoiceEvent::SpeakingUpdate { ssrc: 4, speaking: true });
    receivers.act(1, VoiceEvent::VoicePacket { ssrc: 4, audio: Some(vec![7, 7]) });
    let next = receivers.next_guild_voice().expect("group 1 has a buffer with a known speaker");
    assert_eq!(next.info.guild_id, 1);
    assert_eq!(next.info.user_id, 40);
    assert_eq!(
        receivers.voice(&1, &next.container).map(|voice| voice.chunks.clone()),
        Some(vec![vec![7i16, 7]])
    );
    assert_eq!(receivers.voice(&2, &next.container).is_none(), true);
    assert_eq!(receivers.next_guild_voice(), None);
    receivers.act(3, VoiceEvent::SpeakingStateUpdate { ssrc: 4, user_id: Some(41) });
    let next = QueuedItemsContainer::next(&mut receivers).expect("group 3 has one now");
    assert_eq!(next.info.guild_id, 3);
    assert_eq!(next.info.user_id, 41);
    receivers.act(3, VoiceEvent::SpeakingUpdate { ssrc: 4, speaking: false });
    assert_eq!(receivers.voice(&3, &next.container).map(|voice| voice.is_completed), Some(true));
    receivers.release(3, next.container);
    assert_eq!(receivers.voice(&3, &next.container).is_none(), true);
    assert_eq!(receivers.remove(&3).is_some(), true);
    assert_eq!(receivers.remove(&3).is_none(), true);
}

#[test]
fn a_sink_is_a_queue_of_its_own() {
    let mut sink = VoiceReceiver::with_configuration(VoiceReceiverConfiguration::default());
    sink.act(VoiceEvent::SpeakingStateUpdate { ssrc: 1, user_id: Some(10) });
    sink.act(VoiceEvent::SpeakingUpdate { ssrc: 1, speaking: true });
    let next = QueuedItemsContainer::next(&mut sink).expect("the buffer is queued");
    assert_eq!(next.info.client_user_id, 10);
    assert_eq!(QueuedItemsContainer::next(&mut sink), None);
}

#[test]
fn a_hold_never_reaches_into_another_sink() {
    let mut receivers = GuildsVoicesReceivers::new();
    assert_eq!(start_listen(&mut receivers, 1, Ok(())), Ok(()));
    receivers.act(1, VoiceEvent::SpeakingStateUpdate { ssrc: 7, user_id: Some(5) });
    receivers.act(1, VoiceEvent::SpeakingUpdate { ssrc: 7, speaking: true });
    let hold = receivers.next_guild_voice().expect("user 5 has a buffer");
    assert_eq!(receivers.voice(&1, &hold.container).map(|voice| voice.id), Some(7));

    assert_eq!(start_listen(&mut receivers, 1, Ok(())), Ok(()));
    receivers.act(1, VoiceEvent::SpeakingStateUpdate { ssrc: 9, user_id: Some(6) });
    receivers.act(1, VoiceEvent::SpeakingUpdate { ssrc: 9, speaking: true });
    assert_eq!(receivers.voice(&1, &hold.container).is_none(), true);
    assert_eq!(receivers.is_cut(&1, &hold.container), false);
    receivers.release(1, hold.container);
    let fresh = receivers.next_guild_voice().expect("user 6 has a buffer");
    assert_eq!(fresh.info.user_id, 6);
    assert_eq!(fresh.container != hold.container, true);

    assert_eq!(stop_listen(&mut receivers, 1, Ok(())), Ok(()));
    assert_eq!(start_listen(&mut receivers, 1, Ok(())), Ok(()));
    receivers.act(1, VoiceEvent::SpeakingStateUpdate { ssrc: 3, user_id: Some(8) });
    receivers.act(1, VoiceEvent::SpeakingUpdate { ssrc: 3, speaking: true });
    assert_eq!(receivers.voice(&1, &hold.container).is_none(), true);
    assert_eq!(receivers.voice(&1, &fresh.container).is_none(), true);
    let third = receivers.next_guild_voice().expect("user 8 has a buffer");
    assert_eq!(third.info.user_id, 8);
    assert_eq!(third.container.handle, 2);
}

#[test]
fn an_end_is_forced_by_a_cut_or_by_a_lost_sink() {
    let mut receivers = GuildsVoicesReceivers::new();
    receivers.open(1, VoiceReceiverConfiguration { queue_size: 25, cut_voice_chunks_size: 2 });
    receivers.act(1, VoiceEvent::SpeakingStateUpdate { ssrc: 7, user_id: Some(5) });
    receivers.act(1, VoiceEvent::SpeakingUpdate { ssrc: 7, speaking: true });
    receivers.act(1, VoiceEvent::VoicePacket { ssrc: 7, audio: Some(vec![1, 1]) });
    receivers.act(1, VoiceEvent::VoicePacket { ssrc: 7, audio: Some(vec![2, 2]) });
    receivers.act(1, VoiceEvent::SpeakingUpdate { ssrc: 7, speaking: false });
    let cut = receivers.next_guild_voice().expect("the cut buffer");
    let rest = receivers.next_guild_voice().expect("its continuation");
    assert_eq!(cut.info.forced_cut, false);
    assert_eq!(rest.info.forced_cut, true);
    assert_eq!(receivers.end_identity(cut.info, &cut.container).forced_cut, true);
    assert_eq!(receivers.end_identity(rest.info, &rest.container).forced_cut, false);
    assert_eq!(receivers.end_identity(rest.info, &rest.container).user_id, 5);
    assert_eq!(receivers.end_identity(rest.info, &rest.container).guild_id, 1);
    receivers.release(1, rest.container);
    assert_eq!(receivers.end_identity(rest.info, &rest.container).forced_cut, true);
    assert_eq!(receivers.remove(&1).is_some(), true);
    assert_eq!(receivers.end_identity(cut.info, &cut.container).forced_cut, true);
}
