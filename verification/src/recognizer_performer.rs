//! The session tracker: turns the recognizer's events into moderation
//! actions, each target at most once per speaking turn.

use vstd::prelude::*;
use std::collections::HashMap;
use std::collections::HashSet;
use crate::actions_history::RedAlertActionType;
use crate::guilds_voice_config::RedAlertGuildsVoiceConfig;
use crate::recognizer::{GuildVoiceInfo, RecognizerState};
use crate::phrase_matcher::{
    aliased_phrase,
    clamped,
    kick_candidates,
    kicks,
    kicks_view,
    listed_kicks,
    phrase_found,
};
use crate::phrase_matcher_laws::{
    lemma_aliased_user_is_kicked,
    lemma_kicks_are_candidates,
    lemma_kicks_are_tagged_with_own_phrases,
    own_phrase,
};
use crate::voice_config::{
    matches_view,
    RedAlertVoiceConfigView,
    RedAlertVoiceSearchResult,
    RedAlertVoiceSearchResultView,
    WordMatch,
    WordMatchView,
};

verus! {

broadcast use vstd::std_specs::hash::group_hash_axioms;

/// An order to remove `target_id` from voice in `guild_id`, because
/// `author_id` said `full_text`.
#[derive(Debug, Clone, PartialEq)]
pub struct Kick {
    pub guild_id: u64,
    pub author_id: u64,
    pub target_id: u64,
    pub full_text: String,
    pub reason: RedAlertVoiceSearchResult,
}

/// The mathematical content of a [`Kick`].
pub struct KickView {
    pub guild_id: u64,
    pub author_id: u64,
    pub target_id: u64,
    pub full_text: Seq<char>,
    pub reason: RedAlertVoiceSearchResultView,
}

impl View for Kick {
    type V = KickView;

    open spec fn view(&self) -> KickView {
        KickView {
            guild_id: self.guild_id,
            author_id: self.author_id,
            target_id: self.target_id,
            full_text: self.full_text@,
            reason: self.reason@,
        }
    }
}

impl Kick {
    /// The history entry for this order once the removal was tried.
    pub fn into_action(self, is_success: bool) -> (action: RedAlertActionType)
        ensures
            action == (RedAlertActionType::Voice {
                author_id: self.author_id,
                target_id: self.target_id,
                full_text: self.full_text,
                reason: self.reason,
                is_success,
            }),
    {
        RedAlertActionType::Voice {
            author_id: self.author_id,
            target_id: self.target_id,
            full_text: self.full_text,
            reason: self.reason,
            is_success,
        }
    }
}

/// The users named in `found`.
pub open spec fn targets(found: Seq<(u64, RedAlertVoiceSearchResultView)>) -> Set<u64> {
    Set::new(|target: u64| exists|k: int| 0 <= k < found.len() && (#[trigger] found[k]).0 == target)
}

/// The entries of `found` that are still to be acted on when `actioned` were
/// acted on already: each target once, at its first entry.
pub open spec fn fresh_kicks(
    found: Seq<(u64, RedAlertVoiceSearchResultView)>,
    actioned: Set<u64>,
) -> Seq<(u64, RedAlertVoiceSearchResultView)>
    decreases found.len(),
{
    if found.len() == 0 {
        Seq::empty()
    } else {
        let before = fresh_kicks(found.drop_last(), actioned);
        let target = found.last().0;
        if actioned.contains(target) || targets(found.drop_last()).contains(target) {
            before
        } else {
            before.push(found.last())
        }
    }
}

/// The orders that `fresh` stands for, given who spoke, where, and what.
pub open spec fn orders(
    info: GuildVoiceInfo,
    text: Seq<char>,
    fresh: Seq<(u64, RedAlertVoiceSearchResultView)>,
) -> Seq<KickView> {
    fresh.map_values(
        |entry: (u64, RedAlertVoiceSearchResultView)|
            KickView {
                guild_id: info.guild_id,
                author_id: info.user_id,
                target_id: entry.0,
                full_text: text,
                reason: entry.1,
            },
    )
}

/// The views of a list of orders.
pub open spec fn orders_view(kicks: Seq<Kick>) -> Seq<KickView> {
    kicks.map_values(|kick: Kick| kick@)
}

/// The targets of one more entry are those before it and its own.
pub proof fn lemma_targets_push(
    found: Seq<(u64, RedAlertVoiceSearchResultView)>,
    entry: (u64, RedAlertVoiceSearchResultView),
)
    ensures
        targets(found.push(entry)) == targets(found).insert(entry.0),
{
    let grown = found.push(entry);
    assert forall|target: u64| targets(grown).contains(target) <==> targets(found).insert(
        entry.0,
    ).contains(target) by {
        if targets(grown).contains(target) {
            let k = choose|k: int| 0 <= k < grown.len() && (#[trigger] grown[k]).0 == target;
            if k < found.len() {
                assert(found[k].0 == target);
            }
        }
        if targets(found).contains(target) {
            let k = choose|k: int| 0 <= k < found.len() && (#[trigger] found[k]).0 == target;
            assert(grown[k].0 == target);
        }
        if target == entry.0 {
            assert(grown[found.len() as int].0 == target);
        }
    }
    assert(targets(grown) =~= targets(found).insert(entry.0));
}

/// What is still to be acted on names exactly the found users that were not
/// acted on yet.
pub proof fn lemma_fresh_targets(
    found: Seq<(u64, RedAlertVoiceSearchResultView)>,
    actioned: Set<u64>,
)
    ensures
        targets(fresh_kicks(found, actioned)) == targets(found).difference(actioned),
    decreases found.len(),
{
    if found.len() == 0 {
        assert(targets(fresh_kicks(found, actioned)) =~= targets(found).difference(actioned));
    } else {
        let head = found.drop_last();
        lemma_fresh_targets(head, actioned);
        lemma_targets_push(head, found.last());
        assert(head.push(found.last()) =~= found);
        let before = fresh_kicks(head, actioned);
        if !(actioned.contains(found.last().0) || targets(head).contains(found.last().0)) {
            lemma_targets_push(before, found.last());
        }
        assert(targets(fresh_kicks(found, actioned)) =~= targets(found).difference(actioned));
    }
}

/// Within one speaking turn a target is acted on at most once: whoever was
/// named by one result is not ordered again by a later result, whatever
/// that result names.
pub proof fn lemma_at_most_once_per_turn(
    first: Seq<(u64, RedAlertVoiceSearchResultView)>,
    second: Seq<(u64, RedAlertVoiceSearchResultView)>,
    actioned: Set<u64>,
    target: u64,
)
    requires
        targets(first).contains(target),
    ensures
        !targets(fresh_kicks(second, actioned.union(targets(first)))).contains(target),
{
    lemma_fresh_targets(second, actioned.union(targets(first)));
}

/// After a start or an end nothing counts as acted on, so every target that
/// a result names is ordered again.
pub proof fn lemma_turn_boundary_resets(
    found: Seq<(u64, RedAlertVoiceSearchResultView)>,
    target: u64,
)
    requires
        targets(found).contains(target),
    ensures
        targets(fresh_kicks(found, Set::empty())).contains(target),
{
    lemma_fresh_targets(found, Set::empty());
}

/// A target phrase with its one alias names one user and nobody else: when
/// the group has no self phrases and a single alias, and a target phrase is
/// found together with that alias, then exactly one user is found, the user
/// of the alias, and at the start of a speaking turn exactly that one order
/// goes out. The speaker gets none, unless the alias is the speaker's own.
pub proof fn lemma_one_alias_one_order(
    config: RedAlertVoiceConfigView,
    author: u64,
    text: Seq<char>,
    matches: Seq<WordMatchView>,
    a: int,
)
    requires
        config.self_words.len() == 0,
        config.aliases.len() == 1,
        0 <= a < config.target_words.len(),
        phrase_found(text, matches, config.target_words[a], clamped(config.similarity_threshold))
            is Some,
        phrase_found(
            text,
            matches,
            aliased_phrase(config.target_words[a], config.aliases[0].0),
            clamped(config.similarity_threshold),
        ) is Some,
    ensures
        ({
            let found = listed_kicks(
                kick_candidates(config, author),
                kicks(config, author, text, matches),
            );
            &&& found.len() == 1
            &&& found[0].0 == config.aliases[0].1
            &&& fresh_kicks(found, Set::empty()) == found
        }),
{
    let user = config.aliases[0].1;
    let reasons = kicks(config, author, text, matches);
    let candidates = kick_candidates(config, author);
    lemma_aliased_user_is_kicked(config, author, text, matches, a, 0);
    lemma_kicks_are_tagged_with_own_phrases(config, author, text, matches);
    lemma_kicks_are_candidates(config, author, text, matches);
    assert(candidates =~= seq![author, user]);
    assert(candidates.drop_last() =~= seq![author]);
    assert(candidates.drop_last().drop_last() =~= Seq::<u64>::empty());
    if author != user {
        if reasons.contains_key(author) {
            assert(own_phrase(config, author, author, reasons[author].word));
        }
        assert(!reasons.contains_key(author));
        assert(!seq![author].contains(user));
    } else {
        assert(seq![author][0] == user);
    }
    reveal_with_fuel(listed_kicks, 3);
    let found = listed_kicks(candidates, reasons);
    assert(found =~= seq![(user, reasons[user])]);
    assert(found.drop_last() =~= Seq::<(u64, RedAlertVoiceSearchResultView)>::empty());
    assert(!targets(found.drop_last()).contains(user));
    reveal_with_fuel(fresh_kicks, 2);
    assert(fresh_kicks(found, Set::empty()) =~= found);
}

/// For each speaker, the targets that were acted on in the current speaking
/// turn.
pub struct SessionTracker {
    authors_processed_kicks: HashMap<u64, HashSet<u64>>,
}

impl SessionTracker {
    /// The targets acted on for `author` in the current speaking turn.
    pub closed spec fn actioned(&self, author: u64) -> Set<u64> {
        if self.authors_processed_kicks@.contains_key(author) {
            self.authors_processed_kicks@[author]@
        } else {
            Set::empty()
        }
    }

    /// A tracker in which nobody was acted on.
    pub fn new() -> (tracker: SessionTracker)
        ensures
            forall|author: u64| #[trigger] tracker.actioned(author) == Set::<u64>::empty(),
    {
        SessionTracker { authors_processed_kicks: HashMap::new() }
    }

    /// Forgets what was acted on for `author`; other speakers keep theirs.
    pub fn reset(&mut self, author: u64)
        ensures
            final(self).actioned(author) == Set::<u64>::empty(),
            forall|other: u64|
                other != author ==> #[trigger] final(self).actioned(other) == old(self).actioned(
                    other,
                ),
    {
        self.authors_processed_kicks.remove(&author);
    }

    /// Takes note of what a result of `author` has found and returns what is
    /// still to be acted on. Everything found counts as acted on from now,
    /// before any removal was tried.
    pub fn register(
        &mut self,
        author: u64,
        found: &Vec<(u64, RedAlertVoiceSearchResult)>,
    ) -> (fresh: Vec<(u64, RedAlertVoiceSearchResult)>)
        ensures
            kicks_view(fresh@) == fresh_kicks(kicks_view(found@), old(self).actioned(author)),
            final(self).actioned(author) == old(self).actioned(author).union(
                targets(kicks_view(found@)),
            ),
            forall|other: u64|
                other != author ==> #[trigger] final(self).actioned(other) == old(self).actioned(
                    other,
                ),
    {
        let ghost before = old(self).actioned(author);
        let ghost all = kicks_view(found@);
        let mut processed = match self.authors_processed_kicks.remove(&author) {
            Some(processed) => processed,
            None => HashSet::new(),
        };
        let mut fresh: Vec<(u64, RedAlertVoiceSearchResult)> = Vec::new();
        let mut i: usize = 0;
        assert(targets(all.take(0)) =~= Set::<u64>::empty());
        assert(processed@ =~= before.union(targets(all.take(0))));
        while i < found.len()
            invariant
                i <= found.len(),
                all == kicks_view(found@),
                processed@ == before.union(targets(all.take(i as int))),
                kicks_view(fresh@) == fresh_kicks(all.take(i as int), before),
            decreases found.len() - i,
        {
            let target = found[i].0;
            proof {
                let now = all.take(i + 1);
                assert(now.drop_last() =~= all.take(i as int));
                assert(now.last() == all[i as int]);
                assert(all.take(i as int).push(all[i as int]) =~= now);
                lemma_targets_push(all.take(i as int), all[i as int]);
            }
            let ghost listed = kicks_view(fresh@);
            if processed.insert(target) {
                let entry = (target, found[i].1.cloned());
                fresh.push(entry);
                assert(kicks_view(fresh@) =~= listed.push((target, entry.1@)));
            }
            assert(processed@ =~= before.union(targets(all.take(i + 1))));
            i = i + 1;
        }
        assert(all.take(found.len() as int) =~= all);
        self.authors_processed_kicks.insert(author, processed);
        fresh
    }

    /// Handles one event of the recognizer.
    ///
    /// A start or an end orders nothing. It forgets what was acted on for
    /// the speaker, unless the boundary was forced by a cut: a buffer that
    /// was cut and the one that continues it belong to one speaking turn. A
    /// result is matched against the phrases of the speaker's group, with
    /// `matches` as the closest words of the text, and everything found that
    /// was not acted on in this turn is ordered and counts as acted on.
    pub fn process(
        &mut self,
        state: &RecognizerState<GuildVoiceInfo>,
        guilds_voice_config: &RedAlertGuildsVoiceConfig,
        matches: &Vec<WordMatch>,
    ) -> (ordered: Vec<Kick>)
        ensures
            match *state {
                RecognizerState::RecognitionStart(info) | RecognizerState::RecognitionEnd(info) => {
                    &&& ordered@.len() == 0
                    &&& final(self).actioned(info.user_id) == if info.forced_cut {
                        old(self).actioned(info.user_id)
                    } else {
                        Set::<u64>::empty()
                    }
                    &&& forall|other: u64|
                        other != info.user_id ==> #[trigger] final(self).actioned(other) == old(
                            self,
                        ).actioned(other)
                },
                RecognizerState::RecognitionResult(info, result) => {
                    let found = listed_kicks(
                        kick_candidates(guilds_voice_config@.get(info.guild_id), info.user_id),
                        kicks(
                            guilds_voice_config@.get(info.guild_id),
                            info.user_id,
                            result.text@,
                            matches_view(matches@),
                        ),
                    );
                    &&& orders_view(ordered@) == orders(
                        info,
                        result.text@,
                        fresh_kicks(found, old(self).actioned(info.user_id)),
                    )
                    &&& final(self).actioned(info.user_id) == old(self).actioned(
                        info.user_id,
                    ).union(targets(found))
                    &&& forall|other: u64|
                        other != info.user_id ==> #[trigger] final(self).actioned(other) == old(
                            self,
                        ).actioned(other)
                },
            },
    {
        match state {
            RecognizerState::RecognitionStart(info) => {
                if !info.forced_cut {
                    self.reset(info.user_id);
                }
                Vec::new()
            },
            RecognizerState::RecognitionEnd(info) => {
                if !info.forced_cut {
                    self.reset(info.user_id);
                }
                Vec::new()
            },
            RecognizerState::RecognitionResult(info, result) => {
                let found = guilds_voice_config.get(&info.guild_id).kick_list(
                    info.user_id,
                    &result.text,
                    matches,
                );
                let fresh = self.register(info.user_id, &found);
                let ghost wanted = orders(*info, result.text@, kicks_view(fresh@));
                let mut ordered: Vec<Kick> = Vec::new();
                let mut i: usize = 0;
                while i < fresh.len()
                    invariant
                        i <= fresh.len(),
                        wanted == orders(*info, result.text@, kicks_view(fresh@)),
                        orders_view(ordered@) == wanted.take(i as int),
                    decreases fresh.len() - i,
                {
                    let kick = Kick {
                        guild_id: info.guild_id,
                        author_id: info.user_id,
                        target_id: fresh[i].0,
                        full_text: result.text.clone(),
                        reason: fresh[i].1.cloned(),
                    };
                    let ghost listed = orders_view(ordered@);
                    ordered.push(kick);
                    assert(orders_view(ordered@) =~= listed.push(kick@));
                    assert(wanted.take(i + 1) =~= wanted.take(i as int).push(wanted[i as int]));
                    i = i + 1;
                }
                assert(wanted.take(fresh.len() as int) =~= wanted);
                ordered
            },
        }
    }
}

} // verus!
