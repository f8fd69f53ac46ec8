//! The channel monitor: which voice channel of a group to listen on.

use vstd::prelude::*;

verus! {

/// Where one member of a group is in voice, and whether they are muted.
#[derive(Debug, Clone, Copy, PartialEq, Eq)]
pub struct VoiceStateInfo {
    pub user_id: u64,
    pub channel_id: Option<u64>,
    pub self_mute: bool,
    pub mute: bool,
}

/// What the monitor does for one group on one tick.
#[derive(Debug, Clone, Copy, PartialEq, Eq, Structural)]
pub enum MonitoringAction {
    /// Nothing changed.
    Nothing,
    /// Join this channel, replacing any listener the group has.
    Join(u64),
    /// Leave voice and tear the listener down.
    Leave,
}

/// Whether `state` counts as an occupant of `channel`: it is in that channel,
/// it is not the bot, and it is not muted.
pub open spec fn counted(state: VoiceStateInfo, bot: u64, channel: u64) -> bool {
    &&& state.channel_id == Some(channel)
    &&& state.user_id != bot
    &&& !state.self_mute
    &&& !state.mute
}

/// How many of `states` count as occupants of `channel`.
pub open spec fn occupants(states: Seq<VoiceStateInfo>, bot: u64, channel: u64) -> nat
    decreases states.len(),
{
    if states.len() == 0 {
        0
    } else {
        occupants(states.drop_last(), bot, channel) + if counted(states.last(), bot, channel) {
            1nat
        } else {
            0nat
        }
    }
}

/// The channel the bot is in: that of its last state that names one.
pub open spec fn bot_channel(states: Seq<VoiceStateInfo>, bot: u64) -> Option<u64>
    decreases states.len(),
{
    if states.len() == 0 {
        None
    } else if states.last().user_id == bot && states.last().channel_id is Some {
        states.last().channel_id
    } else {
        bot_channel(states.drop_last(), bot)
    }
}

/// Whether `channel` is occupied and no channel has more occupants, nor as
/// many under a greater id.
pub open spec fn is_busiest(states: Seq<VoiceStateInfo>, bot: u64, channel: u64) -> bool {
    &&& occupants(states, bot, channel) > 0
    &&& forall|other: u64| #[trigger]
        occupants(states, bot, other) <= occupants(states, bot, channel)
    &&& forall|other: u64|
        #[trigger] occupants(states, bot, other) == occupants(states, bot, channel) ==> other
            <= channel
}

/// Whether no channel has an occupant.
pub open spec fn all_empty(states: Seq<VoiceStateInfo>, bot: u64) -> bool {
    forall|channel: u64| #[trigger] occupants(states, bot, channel) == 0
}

/// What to do when the busiest channel is `target` and the bot is in
/// `current`.
pub open spec fn decision(target: Option<u64>, current: Option<u64>) -> MonitoringAction {
    match target {
        Some(channel) => if current == Some(channel) {
            MonitoringAction::Nothing
        } else {
            MonitoringAction::Join(channel)
        },
        None => if current is None {
            MonitoringAction::Nothing
        } else {
            MonitoringAction::Leave
        },
    }
}

/// No channel has more occupants than there are states.
pub proof fn lemma_occupants_bounded(states: Seq<VoiceStateInfo>, bot: u64, channel: u64)
    ensures
        occupants(states, bot, channel) <= states.len(),
    decreases states.len(),
{
    if states.len() > 0 {
        lemma_occupants_bounded(states.drop_last(), bot, channel);
    }
}

/// At most one channel is the busiest.
pub proof fn lemma_busiest_is_unique(states: Seq<VoiceStateInfo>, bot: u64, a: u64, b: u64)
    requires
        is_busiest(states, bot, a),
        is_busiest(states, bot, b),
    ensures
        a == b,
{
    assert(occupants(states, bot, a) <= occupants(states, bot, b));
    assert(occupants(states, bot, b) <= occupants(states, bot, a));
}

/// Whether `channel` has an entry in `counts`.
spec fn listed(counts: Seq<(u64, usize)>, channel: u64) -> bool {
    exists|k: int| 0 <= k < counts.len() && (#[trigger] counts[k]).0 == channel
}

/// Whether `counts` holds exactly the occupied channels of `states`, each
/// once, with its number of occupants.
spec fn counts_of(counts: Seq<(u64, usize)>, states: Seq<VoiceStateInfo>, bot: u64)
    -> bool {
    &&& forall|k: int|
        0 <= k < counts.len() ==> (#[trigger] counts[k]).1 > 0 && counts[k].1 == occupants(
            states,
            bot,
            counts[k].0,
        )
    &&& forall|k: int, l: int|
        0 <= k < l < counts.len() ==> (#[trigger] counts[k]).0 != (#[trigger] counts[l]).0
    &&& forall|channel: u64|
        !listed(counts, channel) ==> #[trigger] occupants(states, bot, channel) == 0
}

/// Counts the occupants of every occupied channel and finds the bot.
fn count_occupants(bot_user_id: u64, voice_states: &Vec<VoiceStateInfo>) -> (found: (
    Vec<(u64, usize)>,
    Option<u64>,
))
    ensures
        counts_of(found.0@, voice_states@, bot_user_id),
        found.1 == bot_channel(voice_states@, bot_user_id),
{
    let mut bot_channel_id: Option<u64> = None;
    let mut counts: Vec<(u64, usize)> = Vec::new();
    let mut i: usize = 0;
    while i < voice_states.len()
        invariant
            i <= voice_states.len(),
            counts_of(counts@, voice_states@.take(i as int), bot_user_id),
            bot_channel_id == bot_channel(voice_states@.take(i as int), bot_user_id),
        decreases voice_states.len() - i,
    {
        let state = voice_states[i];
        let ghost before = voice_states@.take(i as int);
        let ghost now = voice_states@.take(i + 1);
        let ghost old_counts = counts@;
        proof {
            assert(now.drop_last() =~= before);
            assert(now.last() == state);
        }
        if let Some(channel) = state.channel_id {
            if state.user_id == bot_user_id {
                bot_channel_id = Some(channel);
            } else if !(state.self_mute || state.mute) {
                let mut k: usize = 0;
                while k < counts.len() && counts[k].0 != channel
                    invariant
                        k <= counts.len(),
                        forall|l: int| 0 <= l < k ==> (#[trigger] counts[l]).0 != channel,
                    decreases counts.len() - k,
                {
                    k = k + 1;
                }
                if k < counts.len() {
                    proof {
                        lemma_occupants_bounded(before, bot_user_id, channel);
                    }
                    let entry = (channel, counts[k].1 + 1);
                    counts.set(k, entry);
                    proof {
                        assert forall|other: u64| !listed(counts@, other) implies #[trigger] occupants(
                            now,
                            bot_user_id,
                            other,
                        ) == 0 by {
                            assert(counts@[k as int].0 == channel);
                            if listed(old_counts, other) {
                                let l = choose|l: int|
                                    0 <= l < old_counts.len() && (#[trigger] old_counts[l]).0
                                        == other;
                                assert(counts@[l].0 == other);
                            }
                            assert(occupants(before, bot_user_id, other) == 0);
                            assert(other != channel);
                        }
                    }
                } else {
                    assert(!listed(old_counts, channel));
                    counts.push((channel, 1));
                    proof {
                        assert forall|other: u64| !listed(counts@, other) implies #[trigger] occupants(
                            now,
                            bot_user_id,
                            other,
                        ) == 0 by {
                            assert(counts@[old_counts.len() as int].0 == channel);
                            if listed(old_counts, other) {
                                let l = choose|l: int|
                                    0 <= l < old_counts.len() && (#[trigger] old_counts[l]).0
                                        == other;
                                assert(counts@[l].0 == other);
                            }
                            assert(occupants(before, bot_user_id, other) == 0);
                            assert(other != channel);
                        }
                    }
                }
            }
        }
        proof {
            if counts@ == old_counts {
                assert forall|other: u64| !listed(counts@, other) implies #[trigger] occupants(
                    now,
                    bot_user_id,
                    other,
                ) == 0 by {
                    assert(occupants(before, bot_user_id, other) == 0);
                }
            }
        }
        i = i + 1;
    }
    assert(voice_states@.take(voice_states.len() as int) =~= voice_states@);
    (counts, bot_channel_id)
}

/// Decides what the monitor does for one group.
///
/// The occupants of a channel are its members other than the bot that are not
/// muted. The monitor wants to be in the channel with the most occupants, the
/// greater channel id winning a tie. It joins that channel unless it is there
/// already, and leaves voice when no channel is occupied.
pub fn monitoring_action(
    bot_user_id: u64,
    voice_states: &Vec<VoiceStateInfo>,
) -> (action: MonitoringAction)
    ensures
        forall|channel: u64|
            is_busiest(voice_states@, bot_user_id, channel) ==> action == decision(
                Some(channel),
                bot_channel(voice_states@, bot_user_id),
            ),
        all_empty(voice_states@, bot_user_id) ==> action == decision(
            None,
            bot_channel(voice_states@, bot_user_id),
        ),
        all_empty(voice_states@, bot_user_id) || exists|channel: u64|
            is_busiest(voice_states@, bot_user_id, channel),
{
    let (counts, bot_channel_id) = count_occupants(bot_user_id, voice_states);
    let ghost states = voice_states@;
    let mut best: Option<(u64, usize)> = None;
    let mut k: usize = 0;
    while k < counts.len()
        invariant
            k <= counts.len(),
            counts_of(counts@, states, bot_user_id),
            k == 0 <==> best is None,
            best matches Some(entry) ==> {
                &&& exists|l: int| 0 <= l < k && counts[l] == entry
                &&& forall|l: int|
                    0 <= l < k ==> (#[trigger] counts[l]).1 < entry.1 || (counts[l].1 == entry.1
                        && counts[l].0 <= entry.0)
            },
        decreases counts.len() - k,
    {
        let entry = counts[k];
        let better = match best {
            None => true,
            Some(held) => entry.1 > held.1 || (entry.1 == held.1 && entry.0 > held.0),
        };
        if better {
            best = Some(entry);
        }
        k = k + 1;
    }
    match best {
        Some(entry) => {
            proof {
                let channel = entry.0;
                assert forall|other: u64| #[trigger]
                    occupants(states, bot_user_id, other) <= occupants(
                        states,
                        bot_user_id,
                        channel,
                    ) by {
                    if listed(counts@, other) {
                        let l = choose|l: int|
                            0 <= l < counts@.len() && (#[trigger] counts@[l]).0 == other;
                        assert(counts[l].1 <= entry.1);
                    }
                }
                assert forall|other: u64| #[trigger]
                    occupants(states, bot_user_id, other) == occupants(
                        states,
                        bot_user_id,
                        channel,
                    ) implies other <= channel by {
                    if listed(counts@, other) {
                        let l = choose|l: int|
                            0 <= l < counts@.len() && (#[trigger] counts@[l]).0 == other;
                        assert(counts[l].1 <= entry.1);
                    }
                }
                assert(is_busiest(states, bot_user_id, channel));
                assert forall|other: u64| is_busiest(states, bot_user_id, other) implies other
                    == channel by {
                    lemma_busiest_is_unique(states, bot_user_id, other, channel);
                }
                assert(occupants(states, bot_user_id, channel) != 0);
            }
            if bot_channel_id == Some(entry.0) {
                MonitoringAction::Nothing
            } else {
                MonitoringAction::Join(entry.0)
            }
        },
        None => {
            proof {
                assert forall|channel: u64| #[trigger]
                    occupants(states, bot_user_id, channel) == 0 by {
                    assert(!listed(counts@, channel));
                }
            }
            if bot_channel_id.is_none() {
                MonitoringAction::Nothing
            } else {
                MonitoringAction::Leave
            }
        },
    }
}

} // verus!
