//! Starting and stopping to listen on a group's voice channel.

use vstd::prelude::*;
use crate::guilds_voices_receivers::{all_wf, raised_floor, GuildsVoicesReceivers};
use crate::voice_receiver::VoiceReceiverConfiguration;
use crate::voice_receiver_model::VoiceReceiverView;

verus! {

/// Why listening could not start.
#[derive(Debug, Clone, Copy, PartialEq, Eq, Structural)]
pub enum StartListenError {
    SongbirdMissing,
    ConnectingError,
}

/// Why listening could not stop.
#[derive(Debug, Clone, Copy, PartialEq, Eq, Structural)]
pub enum StopListenError {
    SongbirdMissing,
    DisconnectingError,
    NoListeners,
}

/// The limits a voice sink gets when nothing else is asked for.
pub open spec fn default_configuration() -> VoiceReceiverConfiguration {
    VoiceReceiverConfiguration { queue_size: 25, cut_voice_chunks_size: 1000 }
}

/// Finishes an attempt to join a voice channel of `guild_id`.
///
/// After a successful join the group gets a fresh voice sink with the default
/// limits, in place of any sink it had; what workers hold of the old sink
/// resolves to nothing in the new one. A failed join changes nothing and its
/// error is passed on.
pub fn start_listen(
    guilds_voices_receivers: &mut GuildsVoicesReceivers,
    guild_id: u64,
    connection: Result<(), StartListenError>,
) -> (started: Result<(), StartListenError>)
    requires
        all_wf(old(guilds_voices_receivers)@.receivers),
    ensures
        all_wf(final(guilds_voices_receivers)@.receivers),
        started == connection,
        final(guilds_voices_receivers)@.receivers == if connection is Ok {
            old(guilds_voices_receivers)@.receivers.insert(
                guild_id,
                VoiceReceiverView::idle(
                    default_configuration(),
                    raised_floor(
                        old(guilds_voices_receivers)@.receivers,
                        old(guilds_voices_receivers)@.floor,
                        guild_id,
                    ),
                ),
            )
        } else {
            old(guilds_voices_receivers)@.receivers
        },
        final(guilds_voices_receivers)@.floor == if connection is Ok {
            raised_floor(
                old(guilds_voices_receivers)@.receivers,
                old(guilds_voices_receivers)@.floor,
                guild_id,
            )
        } else {
            old(guilds_voices_receivers)@.floor
        },
{
    if connection.is_ok() {
        guilds_voices_receivers.open(guild_id, VoiceReceiverConfiguration::default());
    }
    connection
}

/// Finishes an attempt to leave voice in `guild_id`.
///
/// After a successful leave the group's voice sink is gone. A failed leave
/// changes nothing and its error is passed on.
pub fn stop_listen(
    guilds_voices_receivers: &mut GuildsVoicesReceivers,
    guild_id: u64,
    disconnection: Result<(), StopListenError>,
) -> (stopped: Result<(), StopListenError>)
    requires
        all_wf(old(guilds_voices_receivers)@.receivers),
    ensures
        all_wf(final(guilds_voices_receivers)@.receivers),
        stopped == disconnection,
        final(guilds_voices_receivers)@.receivers == if disconnection is Ok {
            old(guilds_voices_receivers)@.receivers.remove(guild_id)
        } else {
            old(guilds_voices_receivers)@.receivers
        },
        final(guilds_voices_receivers)@.floor == if disconnection is Ok {
            raised_floor(
                old(guilds_voices_receivers)@.receivers,
                old(guilds_voices_receivers)@.floor,
                guild_id,
            )
        } else {
            old(guilds_voices_receivers)@.floor
        },
{
    if disconnection.is_ok() {
        guilds_voices_receivers.remove(&guild_id);
    }
    disconnection
}

} // verus!
