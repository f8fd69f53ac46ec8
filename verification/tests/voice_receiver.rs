use red_alert::voice_receiver::{
    ReceivingVoiceContainer, VoiceEvent, VoiceReceiver, VoiceReceiverConfiguration,
};

fn receiver(queue_size: usize, cut_voice_chunks_size: usize) -> VoiceReceiver {
    VoiceReceiver::with_configuration(VoiceReceiverConfiguration {
        queue_size,
        cut_voice_chunks_size,
    })
}

fn frame(value: i16) -> Option<Vec<i16>> {
    Some(vec![value; 4])
}

#[test]
fn default_configuration_limits() {
    let configuration = VoiceReceiverConfiguration::default();
    assert_eq!(configuration.queue_size, 25);
    assert_eq!(configuration.cut_voice_chunks_size, 1000);
}

#[test]
fn buffer_waits_for_its_speaker() {
    let mut sink = receiver(25, 1000);
    sink.update_for_speaking_update_data(42, true);
    sink.update_for_voice_data(42, frame(1));
    assert_eq!(sink.next_voice(), None);
    assert_eq!(sink.next_voice(), None);
    sink.update_for_speaking(42, Some(7));
    let next = sink.next_voice().expect("the buffer is still queued");
    assert_eq!(next.info.client_user_id, 7);
    let voice = sink.voice(&next.container).expect("the buffer lives");
    assert_eq!(voice.id, 42);
    assert_eq!(voice.chunks, vec![vec![1i16; 4]]);
    assert_eq!(voice.is_completed, false);
    assert_eq!(sink.next_voice(), None);
}

#[test]
fn unknown_speakers_are_requeued_behind() {
    let mut sink = receiver(25, 1000);
    sink.update_for_speaking_update_data(1, true);
    sink.update_for_speaking_update_data(2, true);
    sink.update_for_speaking_update_data(3, true);
    sink.update_for_speaking(2, Some(20));
    let first = sink.next_voice().expect("stream 2 is known");
    assert_eq!(first.info.client_user_id, 20);
    assert_eq!(sink.voice(&first.container).map(|voice| voice.id), Some(2));
    sink.update_for_speaking(1, Some(10));
    sink.update_for_speaking(3, Some(30));
    let second = sink.next_voice().expect("stream 3 went ahead of stream 1");
    assert_eq!(second.info.client_user_id, 30);
    let third = sink.next_voice().expect("stream 1 was requeued");
    assert_eq!(third.info.client_user_id, 10);
    assert_eq!(sink.next_voice(), None);
}

#[test]
fn overflow_evicts_exactly_the_oldest() {
    let capacity = 3usize;
    let mut sink = receiver(capacity, 1000);
    for ssrc in 1..=4u32 {
        sink.update_for_speaking(ssrc, Some(100 + ssrc as u64));
        sink.update_for_speaking_update_data(ssrc, true);
    }
    let mut users = Vec::new();
    while let Some(next) = sink.next_voice() {
        users.push(next.info.client_user_id);
    }
    assert_eq!(users, vec![102, 103, 104]);
}

#[test]
fn evicted_buffer_is_gone_once_its_speaker_stops() {
    let mut sink = receiver(1, 1000);
    sink.update_for_speaking(1, Some(11));
    sink.update_for_speaking(2, Some(12));
    sink.update_for_speaking_update_data(1, true);
    sink.update_for_speaking_update_data(2, true);
    let evicted = ReceivingVoiceContainer { handle: 0 };
    assert_eq!(sink.voice(&evicted).map(|voice| voice.id), Some(1));
    sink.update_for_voice_data(1, frame(5));
    assert_eq!(sink.voice(&evicted).map(|voice| voice.chunks.len()), Some(1));
    sink.update_for_speaking_update_data(1, false);
    assert_eq!(sink.voice(&evicted).is_none(), true);
    let next = sink.next_voice().expect("stream 2 is queued");
    assert_eq!(next.info.client_user_id, 12);
}

#[test]
fn zero_capacity_still_holds_one_buffer() {
    let mut sink = receiver(0, 1000);
    sink.update_for_speaking(1, Some(11));
    sink.update_for_speaking(2, Some(12));
    sink.update_for_speaking_update_data(1, true);
    sink.update_for_speaking_update_data(2, true);
    let next = sink.next_voice().expect("the newest buffer is queued");
    assert_eq!(next.info.client_user_id, 12);
    assert_eq!(sink.next_voice(), None);
}

#[test]
fn cut_yields_one_completed_buffer_per_threshold() {
    let mut sink = receiver(25, 3);
    sink.update_for_speaking(9, Some(90));
    sink.update_for_speaking_update_data(9, true);
    for value in 0..7i16 {
        sink.update_for_voice_data(9, frame(value));
    }
    let mut seen = Vec::new();
    while let Some(next) = sink.next_voice() {
        let voice = sink.voice(&next.container).expect("held buffers live");
        seen.push((voice.chunks.len(), voice.is_completed, voice.chunks[0][0]));
    }
    assert_eq!(seen, vec![(3, true, 0), (3, true, 3), (1, false, 6)]);
}

#[test]
fn cut_buffers_are_marked_on_both_sides() {
    let mut sink = receiver(25, 2);
    sink.update_for_speaking(9, Some(90));
    sink.update_for_speaking_update_data(9, true);
    for value in 0..3i16 {
        sink.update_for_voice_data(9, frame(value));
    }
    sink.update_for_speaking_update_data(9, false);
    let first = sink.next_voice().expect("the cut buffer");
    let second = sink.next_voice().expect("its continuation");
    assert_eq!(first.info.continues, false);
    assert_eq!(sink.is_cut(&first.container), true);
    assert_eq!(second.info.continues, true);
    assert_eq!(sink.is_cut(&second.container), false);
    assert_eq!(sink.voice(&second.container).map(|voice| voice.is_completed), Some(true));
    sink.release(second.container);
    assert_eq!(sink.is_cut(&second.container), false);
}

#[test]
fn frames_without_a_buffer_are_dropped() {
    let mut sink = receiver(25, 1000);
    sink.update_for_speaking(5, Some(50));
    sink.update_for_voice_data(5, frame(1));
    assert_eq!(sink.next_voice(), None);
    sink.update_for_speaking_update_data(5, true);
    sink.update_for_voice_data(5, None);
    sink.update_for_voice_data(6, frame(2));
    let next = sink.next_voice().expect("the buffer is queued");
    assert_eq!(sink.voice(&next.container).map(|voice| voice.chunks.len()), Some(0));
}

#[test]
fn stop_completes_but_keeps_the_buffer_queued() {
    let mut sink = receiver(25, 1000);
    sink.update_for_speaking(42, Some(1));
    sink.update_for_speaking_update_data(42, true);
    for value in 0..30i16 {
        sink.update_for_voice_data(42, frame(value));
    }
    sink.update_for_speaking_update_data(42, false);
    sink.update_for_voice_data(42, frame(99));
    let next = sink.next_voice().expect("the buffer stays queued until drained");
    assert_eq!(next.info.client_user_id, 1);
    let voice = sink.voice(&next.container).expect("the buffer lives");
    assert_eq!(voice.chunks.len(), 30);
    assert_eq!(voice.is_completed, true);
    sink.release(next.container);
    assert_eq!(sink.voice(&next.container).is_none(), true);
}

#[test]
fn repeated_start_keeps_the_buffer() {
    let mut sink = receiver(25, 1000);
    sink.update_for_speaking(4, Some(40));
    sink.update_for_speaking_update_data(4, true);
    sink.update_for_voice_data(4, frame(1));
    sink.update_for_speaking_update_data(4, true);
    sink.update_for_voice_data(4, frame(2));
    let next = sink.next_voice().expect("one buffer");
    assert_eq!(sink.voice(&next.container).map(|voice| voice.chunks.len()), Some(2));
    assert_eq!(sink.next_voice(), None);
}

#[test]
fn disconnect_forgets_the_user_and_completes_the_buffer() {
    let mut sink = receiver(25, 1000);
    sink.update_for_speaking(8, Some(80));
    sink.update_for_speaking_update_data(8, true);
    let next = sink.next_voice().expect("the buffer is queued");
    assert_eq!(sink.voice(&next.container).map(|voice| voice.is_completed), Some(false));
    sink.update_for_disconnect(80);
    assert_eq!(sink.voice(&next.container).map(|voice| voice.is_completed), Some(true));
    sink.update_for_speaking_update_data(8, true);
    assert_eq!(sink.next_voice(), None);
    sink.update_for_disconnect(81);
}

#[test]
fn a_user_has_one_stream() {
    let mut sink = receiver(25, 1000);
    sink.update_for_speaking(1, Some(5));
    sink.update_for_speaking(2, Some(5));
    sink.update_for_speaking_update_data(1, true);
    sink.update_for_speaking_update_data(2, true);
    let next = sink.next_voice().expect("stream 2 belongs to the user");
    assert_eq!(sink.voice(&next.container).map(|voice| voice.id), Some(2));
    assert_eq!(sink.next_voice(), None);
    sink.update_for_speaking(2, None);
    sink.update_for_speaking(1, Some(5));
    let next = sink.next_voice().expect("stream 1 belongs to the user now");
    assert_eq!(sink.voice(&next.container).map(|voice| voice.id), Some(1));
}

#[test]
fn driver_reset_completes_every_open_buffer() {
    let mut sink = receiver(25, 1000);
    sink.act(VoiceEvent::SpeakingStateUpdate { ssrc: 1, user_id: Some(10) });
    sink.act(VoiceEvent::SpeakingStateUpdate { ssrc: 2, user_id: Some(20) });
    sink.act(VoiceEvent::SpeakingUpdate { ssrc: 1, speaking: true });
    sink.act(VoiceEvent::SpeakingUpdate { ssrc: 2, speaking: true });
    sink.act(VoiceEvent::VoicePacket { ssrc: 1, audio: frame(1) });
    sink.act(VoiceEvent::DriverReconnect);
    sink.act(VoiceEvent::VoicePacket { ssrc: 1, audio: frame(2) });
    let mut seen = Vec::new();
    while let Some(next) = sink.next_voice() {
        let voice = sink.voice(&next.container).expect("held buffers live");
        seen.push((voice.id, voice.chunks.len(), voice.is_completed));
    }
    assert_eq!(seen, vec![(1, 1, true), (2, 0, true)]);
}

#[test]
fn released_buffer_lives_while_it_is_filled() {
    let mut sink = receiver(25, 1000);
    sink.act(VoiceEvent::SpeakingStateUpdate { ssrc: 3, user_id: Some(30) });
    sink.act(VoiceEvent::SpeakingUpdate { ssrc: 3, speaking: true });
    let next = sink.next_voice().expect("the buffer is queued");
    sink.release(next.container);
    assert_eq!(sink.voice(&next.container).is_some(), true);
    sink.act(VoiceEvent::ClientDisconnect { user_id: 30 });
    assert_eq!(sink.voice(&next.container).is_none(), true);
}

#[test]
fn handles_start_where_they_are_told_to() {
    let mut sink = VoiceReceiver::with_first_handle(
        VoiceReceiverConfiguration { queue_size: 25, cut_voice_chunks_size: 1000 },
        40,
    );
    assert_eq!(sink.next_handle(), 40);
    sink.update_for_speaking(1, Some(10));
    sink.update_for_speaking_update_data(1, true);
    assert_eq!(sink.next_handle(), 41);
    let next = sink.next_voice().expect("the buffer is queued");
    assert_eq!(next.container, ReceivingVoiceContainer { handle: 40 });
    assert_eq!(sink.voice(&ReceivingVoiceContainer { handle: 0 }).is_none(), true);
    assert_eq!(receiver(1, 1).next_handle(), 0);
}

#[test]
fn opening_a_buffer_fills_the_queue_from_the_tail() {
    let mut sink = receiver(2, 1000);
    for ssrc in 1..=3u32 {
        sink.update_for_speaking(ssrc, Some(10 + ssrc as u64));
    }
    let first = sink.create_voice_in_queue(1).expect("handles are left");
    let second = sink.create_voice_in_queue(2).expect("handles are left");
    assert_eq!((first.handle, second.handle), (0, 1));
    let voice = sink.voice(&second).expect("the new buffer lives");
    assert_eq!((voice.id, voice.chunks.len(), voice.is_completed), (2, 0, false));
    let third = sink.create_voice_in_queue(3).expect("handles are left");
    assert_eq!(sink.voice(&first).map(|voice| voice.id), Some(1));
    sink.update_for_voice_data(3, frame(7));
    assert_eq!(sink.voice(&third).map(|voice| voice.chunks.len()), Some(1));
    let again = sink.create_voice_in_queue(3).expect("handles are left");
    assert_eq!(sink.voice(&third).map(|voice| voice.is_completed), Some(true));
    assert_eq!(sink.voice(&second).map(|voice| voice.id), Some(2));
    sink.update_for_speaking_update_data(2, false);
    assert_eq!(sink.voice(&second).is_none(), true);
    let mut users = Vec::new();
    while let Some(next) = sink.next_voice() {
        users.push((next.info.client_user_id, next.container));
    }
    assert_eq!(users, vec![(13, third), (13, again)]);
}
