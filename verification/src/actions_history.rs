//! The bounded log of moderation actions of each group.

use vstd::prelude::*;
use std::collections::HashMap;
use std::collections::VecDeque;
use crate::voice_config::RedAlertVoiceSearchResult;

verus! {

broadcast use vstd::std_specs::hash::group_hash_axioms;

/// How many actions are kept for one group.
pub const HISTORY_LIMIT: usize = 100;

/// One moderation action: who asked for it, who it was aimed at, and whether
/// the member was removed. A voice action also keeps the recognised text and
/// the phrase that matched.
#[derive(Debug, Clone, PartialEq)]
pub enum RedAlertActionType {
    Voice {
        author_id: u64,
        target_id: u64,
        full_text: String,
        reason: RedAlertVoiceSearchResult,
        is_success: bool,
    },
    Text { author_id: u64, target_id: u64, is_success: bool },
}

/// An action together with the moment it was logged, in milliseconds since
/// the Unix epoch.
#[derive(Debug, Clone, PartialEq)]
pub struct RedAlertActionInfo {
    pub time: i64,
    pub action: RedAlertActionType,
}

/// Per-group action log; each group keeps its latest [`HISTORY_LIMIT`]
/// actions, oldest first.
pub struct RedAlertActionsHistory(HashMap<u64, VecDeque<RedAlertActionInfo>>);

/// The log `entries` after `info` was appended: the oldest entry leaves once
/// there are more than [`HISTORY_LIMIT`].
pub open spec fn logged(entries: Seq<RedAlertActionInfo>, info: RedAlertActionInfo) -> Seq<
    RedAlertActionInfo,
> {
    let grown = entries.push(info);
    if grown.len() > HISTORY_LIMIT {
        grown.drop_first()
    } else {
        grown
    }
}

/// The log of `guild_id` in `history`; empty for a group without one.
pub open spec fn entries_of(history: Map<u64, Seq<RedAlertActionInfo>>, guild_id: u64) -> Seq<
    RedAlertActionInfo,
> {
    if history.contains_key(guild_id) {
        history[guild_id]
    } else {
        Seq::empty()
    }
}

/// `history` after `action`, stamped `time`, was appended to the log of
/// `guild_id`.
pub open spec fn with_logged(
    history: Map<u64, Seq<RedAlertActionInfo>>,
    guild_id: u64,
    time: i64,
    action: RedAlertActionType,
) -> Map<u64, Seq<RedAlertActionInfo>> {
    history.insert(
        guild_id,
        logged(entries_of(history, guild_id), RedAlertActionInfo { time, action }),
    )
}

impl View for RedAlertActionsHistory {
    type V = Map<u64, Seq<RedAlertActionInfo>>;

    closed spec fn view(&self) -> Map<u64, Seq<RedAlertActionInfo>> {
        Map::new(|guild_id: u64| self.0@.contains_key(guild_id), |guild_id: u64| self.0@[guild_id]@)
    }
}

impl RedAlertActionsHistory {
    /// No log is empty, and none is longer than [`HISTORY_LIMIT`].
    #[verifier::type_invariant]
    spec fn bounded(&self) -> bool {
        forall|guild_id: u64| #[trigger]
            self.0@.contains_key(guild_id) ==> 0 < self.0@[guild_id]@.len() <= HISTORY_LIMIT
    }

    /// A history without any log.
    pub fn new() -> (history: RedAlertActionsHistory)
        ensures
            history@ == Map::<u64, Seq<RedAlertActionInfo>>::empty(),
    {
        let history = RedAlertActionsHistory(HashMap::new());
        assert(history@ =~= Map::<u64, Seq<RedAlertActionInfo>>::empty());
        history
    }

    /// Appends `action_type`, stamped `time`, to the log of `guild_id`. The
    /// caller reads the clock; `time` is in milliseconds since the Unix
    /// epoch.
    pub fn log_history(&mut self, guild_id: u64, time: i64, action_type: RedAlertActionType)
        ensures
            final(self)@ == with_logged(old(self)@, guild_id, time, action_type),
            0 < final(self)@[guild_id].len() <= HISTORY_LIMIT,
    {
        proof {
            use_type_invariant(&*self);
        }
        let action_info = RedAlertActionInfo { time, action: action_type };
        let mut logs = HashMap::new();
        std::mem::swap(&mut self.0, &mut logs);
        let mut entries = match logs.remove(&guild_id) {
            Some(entries) => entries,
            None => VecDeque::new(),
        };
        entries.push_back(action_info);
        if entries.len() > HISTORY_LIMIT {
            entries.pop_front();
        }
        logs.insert(guild_id, entries);
        self.0 = logs;
        assert(final(self)@ =~= old(self)@.insert(
            guild_id,
            logged(entries_of(old(self)@, guild_id), action_info),
        ));
    }

    /// Takes the log of `guild_id` out of the history.
    pub fn extract(&mut self, guild_id: &u64) -> (entries: Option<VecDeque<RedAlertActionInfo>>)
        ensures
            final(self)@ == old(self)@.remove(*guild_id),
            match entries {
                Some(entries) => old(self)@.contains_key(*guild_id) && entries@ == old(
                    self,
                )@[*guild_id] && 0 < entries@.len() <= HISTORY_LIMIT,
                None => !old(self)@.contains_key(*guild_id),
            },
    {
        proof {
            use_type_invariant(&*self);
        }
        let mut logs = HashMap::new();
        std::mem::swap(&mut self.0, &mut logs);
        let entries = logs.remove(guild_id);
        self.0 = logs;
        assert(final(self)@ =~= old(self)@.remove(*guild_id));
        entries
    }

    /// How many actions the log of `guild_id` holds.
    pub fn len(&self, guild_id: &u64) -> (len: usize)
        ensures
            len == entries_of(self@, *guild_id).len(),
            len <= HISTORY_LIMIT,
    {
        proof {
            use_type_invariant(self);
        }
        match self.0.get(guild_id) {
            Some(entries) => entries.len(),
            None => 0,
        }
    }
}

impl Default for RedAlertActionsHistory {
    fn default() -> (history: RedAlertActionsHistory)
        ensures
            history@ == Map::<u64, Seq<RedAlertActionInfo>>::empty(),
    {
        RedAlertActionsHistory::new()
    }
}

} // verus!
