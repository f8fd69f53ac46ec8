//! Queues that workers draw their items from.

use vstd::prelude::*;
use crate::guilds_voices_receivers::{all_wf, next_of, GuildsVoicesReceivers};
use crate::recognizer::GuildVoiceInfo;
use crate::voice_receiver::{
    InfoVoiceContainer,
    ReceivingVoiceContainer,
    ReceivingVoiceInfo,
    VoiceReceiver,
};

verus! {

/// A queue that hands out one item at a time, or nothing when it has none.
pub trait QueuedItemsContainer {
    type Item;

    /// Whether the queue keeps its invariant.
    spec fn ready(&self) -> bool;

    fn next(&mut self) -> (item: Option<Self::Item>)
        requires
            old(self).ready(),
        ensures
            final(self).ready(),
    ;
}

impl QueuedItemsContainer for VoiceReceiver {
    type Item = InfoVoiceContainer<ReceivingVoiceInfo, ReceivingVoiceContainer>;

    open spec fn ready(&self) -> bool {
        self@.wf()
    }

    fn next(&mut self) -> (item: Option<Self::Item>)
        ensures
            item == old(self)@.next_voice(),
            final(self)@ == old(self)@.voice_taken(),
    {
        self.next_voice()
    }
}

impl QueuedItemsContainer for GuildsVoicesReceivers {
    type Item = InfoVoiceContainer<GuildVoiceInfo, ReceivingVoiceContainer>;

    open spec fn ready(&self) -> bool {
        all_wf(self@.receivers)
    }

    fn next(&mut self) -> (item: Option<Self::Item>)
        ensures
            match item {
                Some(taken) => {
                    let guild_id = taken.info.guild_id;
                    &&& old(self)@.receivers.contains_key(guild_id)
                    &&& item == next_of(old(self)@.receivers, guild_id)
                    &&& final(self)@.receivers == old(self)@.receivers.insert(
                        guild_id,
                        old(self)@.receivers[guild_id].voice_taken(),
                    )
                },
                None => {
                    &&& final(self)@.receivers == old(self)@.receivers
                    &&& forall|guild_id: u64| #[trigger]
                        old(self)@.receivers.contains_key(guild_id) ==> old(self)@.receivers[guild_id].next_voice()
                            is None
                },
            },
    {
        self.next_guild_voice()
    }
}

} // verus!
