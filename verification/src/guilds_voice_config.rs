//! Trigger phrases of every group: one record per group over a shared base
//! record, and the groups whose channel is followed automatically.

use vstd::prelude::*;
use std::collections::HashMap;
use std::collections::HashSet;
use crate::voice_config::{RedAlertVoiceConfig, RedAlertVoiceConfigView};

verus! {

broadcast use vstd::std_specs::hash::group_hash_axioms;

/// The configuration of all groups.
pub struct RedAlertGuildsVoiceConfig {
    auto_track_ids: HashSet<u64>,
    base: RedAlertVoiceConfig,
    specific: HashMap<u64, RedAlertVoiceConfig>,
}

/// The mathematical content of a [`RedAlertGuildsVoiceConfig`].
pub struct RedAlertGuildsVoiceConfigView {
    pub auto_track_ids: Set<u64>,
    pub base: RedAlertVoiceConfigView,
    pub specific: Map<u64, RedAlertVoiceConfigView>,
}

impl View for RedAlertGuildsVoiceConfig {
    type V = RedAlertGuildsVoiceConfigView;

    closed spec fn view(&self) -> RedAlertGuildsVoiceConfigView {
        RedAlertGuildsVoiceConfigView {
            auto_track_ids: self.auto_track_ids@,
            base: self.base@,
            specific: Map::new(
                |guild_id: u64| self.specific@.contains_key(guild_id),
                |guild_id: u64| self.specific@[guild_id]@,
            ),
        }
    }
}

impl RedAlertGuildsVoiceConfigView {
    /// The invariant of the configuration: the base record and every group's
    /// own record are well formed.
    pub open spec fn wf(self) -> bool {
        &&& self.base.wf()
        &&& forall|guild_id: u64| #[trigger]
            self.specific.contains_key(guild_id) ==> self.specific[guild_id].wf()
    }

    /// The record that holds for `guild_id`: its own, or the base record.
    pub open spec fn get(self, guild_id: u64) -> RedAlertVoiceConfigView {
        if self.specific.contains_key(guild_id) {
            self.specific[guild_id]
        } else {
            self.base
        }
    }
}

impl RedAlertGuildsVoiceConfig {
    /// A configuration in which every group has the record `base` and no
    /// group is followed.
    pub fn new(base: RedAlertVoiceConfig) -> (config: RedAlertGuildsVoiceConfig)
        ensures
            config@.auto_track_ids == Set::<u64>::empty(),
            config@.base == base@,
            config@.specific == Map::<u64, RedAlertVoiceConfigView>::empty(),
            base@.wf() ==> config@.wf(),
    {
        let config = RedAlertGuildsVoiceConfig {
            auto_track_ids: HashSet::new(),
            base,
            specific: HashMap::new(),
        };
        assert(config@.specific =~= Map::<u64, RedAlertVoiceConfigView>::empty());
        config
    }

    /// The base record.
    pub fn base(&self) -> (base: &RedAlertVoiceConfig)
        ensures
            base@ == self@.base,
    {
        &self.base
    }

    /// The groups' own records.
    pub fn specific(&self) -> (specific: &HashMap<u64, RedAlertVoiceConfig>)
        ensures
            specific@.dom() == self@.specific.dom(),
            forall|guild_id: u64| #[trigger]
                specific@.contains_key(guild_id) ==> specific@[guild_id]@
                    == self@.specific[guild_id],
    {
        assert(self.specific@.dom() =~= self@.specific.dom());
        &self.specific
    }

    /// The record that holds for `guild_id`.
    pub fn get(&self, guild_id: &u64) -> (config: &RedAlertVoiceConfig)
        ensures
            config@ == self@.get(*guild_id),
            self@.wf() ==> config@.wf(),
    {
        match self.specific.get(guild_id) {
            Some(config) => {
                assert(self@.specific.contains_key(*guild_id));
                config
            },
            None => &self.base,
        }
    }

    /// Takes the record of `guild_id` out; a group without a record of its
    /// own gets a copy of the base record.
    pub fn remove(&mut self, guild_id: &u64) -> (config: RedAlertVoiceConfig)
        ensures
            config@ == old(self)@.get(*guild_id),
            final(self)@ == (RedAlertGuildsVoiceConfigView {
                specific: old(self)@.specific.remove(*guild_id),
                ..old(self)@
            }),
            old(self)@.wf() ==> config@.wf() && final(self)@.wf(),
    {
        let config = match self.specific.remove(guild_id) {
            Some(config) => config,
            None => self.base.cloned(),
        };
        assert(final(self)@.specific =~= old(self)@.specific.remove(*guild_id));
        config
    }

    /// Gives `guild_id` the record `guild_voice_config`.
    pub fn insert(&mut self, guild_id: u64, guild_voice_config: RedAlertVoiceConfig)
        ensures
            final(self)@ == (RedAlertGuildsVoiceConfigView {
                specific: old(self)@.specific.insert(guild_id, guild_voice_config@),
                ..old(self)@
            }),
            old(self)@.wf() && guild_voice_config@.wf() ==> final(self)@.wf(),
    {
        self.specific.insert(guild_id, guild_voice_config);
        assert(final(self)@.specific =~= old(self)@.specific.insert(
            guild_id,
            guild_voice_config@,
        ));
    }

    /// Starts following `guild_id` if it was not followed, stops otherwise;
    /// says whether it is followed now.
    pub fn switch_auto_track(&mut self, guild_id: u64) -> (followed: bool)
        ensures
            followed == !old(self)@.auto_track_ids.contains(guild_id),
            final(self)@ == (RedAlertGuildsVoiceConfigView {
                auto_track_ids: if followed {
                    old(self)@.auto_track_ids.insert(guild_id)
                } else {
                    old(self)@.auto_track_ids.remove(guild_id)
                },
                ..old(self)@
            }),
            final(self)@.wf() == old(self)@.wf(),
    {
        if self.auto_track_ids.remove(&guild_id) {
            assert(final(self)@.specific =~= old(self)@.specific);
            false
        } else {
            self.auto_track_ids.insert(guild_id);
            assert(final(self)@.specific =~= old(self)@.specific);
            assert(final(self)@.auto_track_ids =~= old(self)@.auto_track_ids.insert(guild_id));
            true
        }
    }

    /// The groups that are followed.
    pub fn auto_track_ids(&self) -> (ids: &HashSet<u64>)
        ensures
            ids@ == self@.auto_track_ids,
    {
        &self.auto_track_ids
    }
}

} // verus!
