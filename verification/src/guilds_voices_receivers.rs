//! The voice sinks of all groups, and the queue that the recognizer workers
//! draw from.

use vstd::prelude::*;
use std::collections::HashMap;
use crate::keys::keys_u64;
use crate::recognizer::GuildVoiceInfo;
use crate::voice::Voice;
use crate::voice_receiver::{
    InfoVoiceContainer,
    ReceivingVoiceContainer,
    ReceivingVoiceInfo,
    VoiceEvent,
    VoiceReceiver,
    VoiceReceiverConfiguration,
};
use crate::voice_receiver_laws::lemma_next_voice_is_faithful;
use crate::voice_receiver_model::VoiceReceiverView;

verus! {

broadcast use vstd::std_specs::hash::group_hash_axioms;

/// The voice sink of each group that is listened to.
///
/// Workers hold buffers by group and handle. So that a hold never resolves
/// to a buffer of a sink that took another's place, every new sink starts
/// its handles at or above the floor: a mark that is at or above the next
/// handle of every sink that was taken away or replaced.
pub struct GuildsVoicesReceivers {
    receivers: HashMap<u64, VoiceReceiver>,
    floor: u64,
}

/// The first handle of a sink that is opened for `guild_id`, and the floor
/// after the sink of `guild_id` is taken away: the floor so far, or the next
/// handle of the group's present sink where that is greater.
pub open spec fn raised_floor(receivers: Map<u64, VoiceReceiverView>, floor: u64, guild_id: u64)
    -> u64 {
    if receivers.contains_key(guild_id) && receivers[guild_id].next_handle > floor {
        receivers[guild_id].next_handle
    } else {
        floor
    }
}

/// Whether every sink keeps its invariant.
pub open spec fn all_wf(receivers: Map<u64, VoiceReceiverView>) -> bool {
    forall|guild_id: u64| #[trigger] receivers.contains_key(guild_id) ==> receivers[guild_id].wf()
}

/// What the sink of `guild_id` hands out, under the group's name.
pub open spec fn next_of(receivers: Map<u64, VoiceReceiverView>, guild_id: u64) -> Option<
    InfoVoiceContainer<GuildVoiceInfo, ReceivingVoiceContainer>,
> {
    match receivers[guild_id].next_voice() {
        Some(next) => Some(
            InfoVoiceContainer {
                info: GuildVoiceInfo {
                    user_id: next.info.client_user_id,
                    guild_id,
                    forced_cut: next.info.continues,
                },
                container: next.container,
            },
        ),
        None => None,
    }
}

/// Every buffer of a group's sink lies below the first handle of the sink
/// that takes its place, so a hold on it resolves to nothing from then on.
pub proof fn lemma_old_holds_lie_below(
    receivers: Map<u64, VoiceReceiverView>,
    floor: u64,
    guild_id: u64,
    handle: u64,
)
    requires
        receivers.contains_key(guild_id),
        receivers[guild_id].wf(),
        receivers[guild_id].voices.contains_key(handle),
    ensures
        handle < raised_floor(receivers, floor, guild_id),
{
}

/// The state of the sinks of all groups.
pub struct GuildsVoicesReceiversView {
    /// The state of the sink of each group that is listened to.
    pub receivers: Map<u64, VoiceReceiverView>,
    /// The floor under the handles of sinks to come.
    pub floor: u64,
}

impl View for GuildsVoicesReceivers {
    type V = GuildsVoicesReceiversView;

    closed spec fn view(&self) -> GuildsVoicesReceiversView {
        GuildsVoicesReceiversView {
            receivers: Map::new(
                |guild_id: u64| self.receivers@.contains_key(guild_id),
                |guild_id: u64| self.receivers@[guild_id]@,
            ),
            floor: self.floor,
        }
    }
}

impl GuildsVoicesReceivers {
    /// No group is listened to.
    pub fn new() -> (receivers: GuildsVoicesReceivers)
        ensures
            receivers@.receivers == Map::<u64, VoiceReceiverView>::empty(),
            receivers@.floor == 0,
            all_wf(receivers@.receivers),
    {
        let receivers = GuildsVoicesReceivers { receivers: HashMap::new(), floor: 0 };
        assert(receivers@.receivers =~= Map::<u64, VoiceReceiverView>::empty());
        receivers
    }

    /// Gives `guild_id` a fresh, idle sink with the limits `configuration`,
    /// in place of the one it had. The handles of the new sink start at the
    /// floor, raised above every handle that the group's old sink gave out:
    /// what workers still hold of the old sink resolves to nothing in the
    /// new one.
    pub fn open(&mut self, guild_id: u64, configuration: VoiceReceiverConfiguration)
        requires
            all_wf(old(self)@.receivers),
        ensures
            final(self)@.receivers == old(self)@.receivers.insert(
                guild_id,
                VoiceReceiverView::idle(
                    configuration,
                    raised_floor(old(self)@.receivers, old(self)@.floor, guild_id),
                ),
            ),
            final(self)@.floor == raised_floor(old(self)@.receivers, old(self)@.floor, guild_id),
            all_wf(final(self)@.receivers),
    {
        let first_handle = match self.receivers.get(&guild_id) {
            Some(receiver) => {
                let reached = receiver.next_handle();
                if reached > self.floor {
                    reached
                } else {
                    self.floor
                }
            },
            None => self.floor,
        };
        let voice_receiver = VoiceReceiver::with_first_handle(configuration, first_handle);
        self.floor = first_handle;
        self.receivers.insert(guild_id, voice_receiver);
        assert(self@.receivers =~= old(self)@.receivers.insert(guild_id, voice_receiver@));
    }

    /// Takes the sink of `guild_id` away.
    pub fn remove(&mut self, guild_id: &u64) -> (removed: Option<VoiceReceiver>)
        requires
            all_wf(old(self)@.receivers),
        ensures
            final(self)@.receivers == old(self)@.receivers.remove(*guild_id),
            final(self)@.floor == raised_floor(old(self)@.receivers, old(self)@.floor, *guild_id),
            all_wf(final(self)@.receivers),
            match removed {
                Some(receiver) => old(self)@.receivers.contains_key(*guild_id) && receiver@ == old(self)@.receivers[*guild_id],
                None => !old(self)@.receivers.contains_key(*guild_id),
            },
    {
        let removed = self.receivers.remove(guild_id);
        match &removed {
            Some(receiver) => {
                let reached = receiver.next_handle();
                if reached > self.floor {
                    self.floor = reached;
                }
            },
            None => {},
        }
        assert(self@.receivers =~= old(self)@.receivers.remove(*guild_id));
        removed
    }

    /// Whether `guild_id` is listened to.
    pub fn contains(&self, guild_id: &u64) -> (listened: bool)
        ensures
            listened == self@.receivers.contains_key(*guild_id),
    {
        self.receivers.contains_key(guild_id)
    }

    /// Hands `event` to the sink of `guild_id`; an event of a group that is
    /// not listened to is dropped.
    pub fn act(&mut self, guild_id: u64, event: VoiceEvent)
        requires
            all_wf(old(self)@.receivers),
        ensures
            all_wf(final(self)@.receivers),
            final(self)@.floor == old(self)@.floor,
            final(self)@.receivers == if old(self)@.receivers.contains_key(guild_id) {
                old(self)@.receivers.insert(guild_id, old(self)@.receivers[guild_id].after_event(event))
            } else {
                old(self)@.receivers
            },
    {
        match self.receivers.remove(&guild_id) {
            Some(receiver) => {
                assert(old(self)@.receivers.contains_key(guild_id));
                let mut receiver = receiver;
                receiver.act(event);
                self.receivers.insert(guild_id, receiver);
                assert(self@.receivers =~= old(self)@.receivers.insert(guild_id, old(self)@.receivers[guild_id].after_event(event)));
            },
            None => {
                assert(self@.receivers =~= old(self)@.receivers);
            },
        }
    }

    /// Takes a buffer with a known speaker from the queue of some group.
    ///
    /// The groups are tried in no particular order. The first one that has
    /// such a buffer hands out its oldest; the sinks of the others stay as
    /// they are. `None` means that no group has one.
    pub fn next_guild_voice(
        &mut self,
    ) -> (next: Option<InfoVoiceContainer<GuildVoiceInfo, ReceivingVoiceContainer>>)
        requires
            all_wf(old(self)@.receivers),
        ensures
            all_wf(final(self)@.receivers),
            final(self)@.floor == old(self)@.floor,
            match next {
                Some(taken) => {
                    let guild_id = taken.info.guild_id;
                    &&& old(self)@.receivers.contains_key(guild_id)
                    &&& next == next_of(old(self)@.receivers, guild_id)
                    &&& final(self)@.receivers == old(self)@.receivers.insert(
                        guild_id,
                        old(self)@.receivers[guild_id].voice_taken(),
                    )
                },
                None => {
                    &&& final(self)@.receivers == old(self)@.receivers
                    &&& forall|guild_id: u64| #[trigger]
                        old(self)@.receivers.contains_key(guild_id) ==> old(self)@.receivers[guild_id].next_voice()
                            is None
                },
            },
    {
        let ghost before = old(self)@.receivers;
        let guilds = keys_u64(&self.receivers);
        let mut i: usize = 0;
        assert(self@.receivers =~= before);
        while i < guilds.len()
            invariant
                i <= guilds.len(),
                all_wf(before),
                before == old(self)@.receivers,
                self@.floor == old(self)@.floor,
                self@.receivers == before,
                guilds@.to_set() == before.dom(),
                forall|k: int| 0 <= k < i ==> before[#[trigger] guilds[k]].next_voice() is None,
            decreases guilds.len() - i,
        {
            let guild_id = guilds[i];
            assert(guilds@.contains(guild_id));
            assert(before.contains_key(guild_id));
            match self.receivers.remove(&guild_id) {
                Some(receiver) => {
                    let mut receiver = receiver;
                    assert(receiver@ == before[guild_id]);
                    proof {
                        lemma_next_voice_is_faithful(receiver@);
                    }
                    let found = receiver.next_voice();
                    self.receivers.insert(guild_id, receiver);
                    match found {
                        Some(found) => {
                            assert(self@.receivers =~= before.insert(
                                guild_id,
                                before[guild_id].voice_taken(),
                            ));
                            assert(all_wf(self@.receivers));
                            return Some(
                                InfoVoiceContainer {
                                    info: GuildVoiceInfo {
                                        user_id: found.info.client_user_id,
                                        guild_id,
                                        forced_cut: found.info.continues,
                                    },
                                    container: found.container,
                                },
                            );
                        },
                        None => {
                            assert(self@.receivers =~= before);
                        },
                    }
                },
                None => {},
            }
            i = i + 1;
        }
        assert forall|guild_id: u64| #[trigger] before.contains_key(guild_id) implies before[guild_id].next_voice()
            is None by {
            assert(guilds@.to_set().contains(guild_id));
            let k = choose|k: int| 0 <= k < guilds@.len() && guilds@[k] == guild_id;
            assert(before[guilds[k]].next_voice() is None);
        }
        None
    }

    /// The buffer of `guild_id` that `container` stands for, as long as it
    /// lives.
    pub fn voice(&self, guild_id: &u64, container: &ReceivingVoiceContainer) -> (voice: Option<&Voice>)
        ensures
            match voice {
                Some(voice) => {
                    &&& self@.receivers.contains_key(*guild_id)
                    &&& self@.receivers[*guild_id].voices.contains_key(container.handle)
                    &&& voice@ == self@.receivers[*guild_id].voices[container.handle].voice
                },
                None => !self@.receivers.contains_key(*guild_id) || !self@.receivers[*guild_id].voices.contains_key(
                    container.handle,
                ),
            },
    {
        match self.receivers.get(guild_id) {
            Some(receiver) => receiver.voice(container),
            None => None,
        }
    }

    /// Whether the buffer of `guild_id` that `container` stands for was
    /// completed by a cut rather than by the end of speech; `false` for a
    /// buffer that is gone.
    pub fn is_cut(&self, guild_id: &u64, container: &ReceivingVoiceContainer) -> (cut: bool)
        ensures
            cut == (self@.receivers.contains_key(*guild_id) && self@.receivers[*guild_id].voices.contains_key(
                container.handle,
            ) && self@.receivers[*guild_id].voices[container.handle].cut),
    {
        match self.receivers.get(guild_id) {
            Some(receiver) => receiver.is_cut(container),
            None => false,
        }
    }

    /// The identity that the end of a worker's buffer goes out under. The
    /// end counts as forced when the buffer was cut, and also when it is gone
    /// with its sink: then its speaker did not end it, and what was acted on
    /// for the speaker is not to be forgotten.
    pub fn end_identity(
        &self,
        info: GuildVoiceInfo,
        container: &ReceivingVoiceContainer,
    ) -> (last: GuildVoiceInfo)
        ensures
            last == (GuildVoiceInfo {
                forced_cut: !self@.receivers.contains_key(info.guild_id)
                    || !self@.receivers[info.guild_id].voices.contains_key(container.handle)
                    || self@.receivers[info.guild_id].voices[container.handle].cut,
                ..info
            }),
    {
        let forced_cut = match self.voice(&info.guild_id, container) {
            Some(_) => self.is_cut(&info.guild_id, container),
            None => true,
        };
        GuildVoiceInfo { forced_cut, user_id: info.user_id, guild_id: info.guild_id }
    }

    /// A worker lets go of its buffer of `guild_id`.
    pub fn release(&mut self, guild_id: u64, container: ReceivingVoiceContainer)
        requires
            all_wf(old(self)@.receivers),
        ensures
            all_wf(final(self)@.receivers),
            final(self)@.floor == old(self)@.floor,
            final(self)@.receivers == if old(self)@.receivers.contains_key(guild_id) {
                old(self)@.receivers.insert(guild_id, old(self)@.receivers[guild_id].released(container.handle))
            } else {
                old(self)@.receivers
            },
    {
        match self.receivers.remove(&guild_id) {
            Some(receiver) => {
                assert(old(self)@.receivers.contains_key(guild_id));
                let mut receiver = receiver;
                receiver.release(container);
                self.receivers.insert(guild_id, receiver);
                assert(self@.receivers =~= old(self)@.receivers.insert(
                    guild_id,
                    old(self)@.receivers[guild_id].released(container.handle),
                ));
            },
            None => {
                assert(self@.receivers =~= old(self)@.receivers);
            },
        }
    }
}

} // verus!
