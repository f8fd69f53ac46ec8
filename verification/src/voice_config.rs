//! Trigger phrases of one group: the record itself, how it is edited, and
//! the words it asks the matcher to look up.
//!
//! Similarities and thresholds are fixed-point numbers: [`SIMILARITY_UNIT`]
//! stands for 1.0.

use vstd::prelude::*;
use crate::phrase_matcher::clamped;
use crate::text::{chars_of, contains, is_substring, split_words, strings_view, words};

verus! {

/// The fixed-point value that stands for a similarity of 1.0.
pub const SIMILARITY_UNIT: u32 = 1_000_000;

/// Trigger phrases of one group.
///
/// `self_words` remove the speaker, `target_words` followed by an alias
/// remove the user the alias stands for. `aliases` pairs each alias with a
/// user id. `similarity_threshold` is the minimum match quality; values above
/// [`SIMILARITY_UNIT`] count as [`SIMILARITY_UNIT`].
///
/// A record is well formed when no two of its aliases have the same name
/// ([`RedAlertVoiceConfigView::wf`]). [`RedAlertVoiceConfig::new`] makes well
/// formed records, every method keeps them so, and
/// [`RedAlertVoiceConfig::is_wf`] tells of a record put together by hand.
#[derive(Debug, Clone, PartialEq)]
pub struct RedAlertVoiceConfig {
    pub target_words: Vec<String>,
    pub self_words: Vec<String>,
    pub aliases: Vec<(String, u64)>,
    pub similarity_threshold: u32,
}

/// Why a user was matched: the configured phrase, what was actually heard in
/// its place, and the mean similarity of its words.
#[derive(Debug, Clone, PartialEq)]
pub struct RedAlertVoiceSearchResult {
    pub word: String,
    pub real_word: String,
    pub total_similarity: u32,
}

/// The closest word of the searched text to `query`, with its similarity.
#[derive(Debug, Clone, PartialEq)]
pub struct WordMatch {
    pub query: String,
    pub text: String,
    pub similarity: u32,
}

/// The mathematical content of a [`RedAlertVoiceConfig`].
pub struct RedAlertVoiceConfigView {
    pub target_words: Seq<Seq<char>>,
    pub self_words: Seq<Seq<char>>,
    pub aliases: Seq<(Seq<char>, u64)>,
    pub similarity_threshold: u32,
}

/// The mathematical content of a [`RedAlertVoiceSearchResult`].
pub struct RedAlertVoiceSearchResultView {
    pub word: Seq<char>,
    pub real_word: Seq<char>,
    pub total_similarity: u32,
}

/// The mathematical content of a [`WordMatch`].
pub struct WordMatchView {
    pub query: Seq<char>,
    pub text: Seq<char>,
    pub similarity: u32,
}

/// The aliases with their names as character sequences.
pub open spec fn aliases_view(aliases: Seq<(String, u64)>) -> Seq<(Seq<char>, u64)> {
    aliases.map_values(|alias: (String, u64)| (alias.0@, alias.1))
}

/// The matches with their words as character sequences.
pub open spec fn matches_view(matches: Seq<WordMatch>) -> Seq<WordMatchView> {
    matches.map_values(|m: WordMatch| m@)
}

impl View for RedAlertVoiceConfig {
    type V = RedAlertVoiceConfigView;

    open spec fn view(&self) -> RedAlertVoiceConfigView {
        RedAlertVoiceConfigView {
            target_words: strings_view(self.target_words@),
            self_words: strings_view(self.self_words@),
            aliases: aliases_view(self.aliases@),
            similarity_threshold: self.similarity_threshold,
        }
    }
}

impl View for RedAlertVoiceSearchResult {
    type V = RedAlertVoiceSearchResultView;

    open spec fn view(&self) -> RedAlertVoiceSearchResultView {
        RedAlertVoiceSearchResultView {
            word: self.word@,
            real_word: self.real_word@,
            total_similarity: self.total_similarity,
        }
    }
}

impl View for WordMatch {
    type V = WordMatchView;

    open spec fn view(&self) -> WordMatchView {
        WordMatchView { query: self.query@, text: self.text@, similarity: self.similarity }
    }
}

/// A copy of `strings`.
pub fn clone_strings(strings: &Vec<String>) -> (copy: Vec<String>)
    ensures
        strings_view(copy@) == strings_view(strings@),
{
    let mut copy: Vec<String> = Vec::new();
    let mut i: usize = 0;
    while i < strings.len()
        invariant
            i <= strings.len(),
            strings_view(copy@) == strings_view(strings@).take(i as int),
        decreases strings.len() - i,
    {
        let item = strings[i].clone();
        let ghost before = strings_view(copy@);
        copy.push(item);
        assert(strings_view(copy@) =~= before.push(item@));
        assert(strings_view(strings@).take(i + 1) =~= before.push(strings[i as int]@));
        i = i + 1;
    }
    assert(strings_view(strings@).take(strings.len() as int) =~= strings_view(strings@));
    copy
}

impl RedAlertVoiceSearchResult {
    /// A copy of this result.
    pub fn cloned(&self) -> (copy: RedAlertVoiceSearchResult)
        ensures
            copy@ == self@,
    {
        RedAlertVoiceSearchResult {
            word: self.word.clone(),
            real_word: self.real_word.clone(),
            total_similarity: self.total_similarity,
        }
    }

    /// The similarity in whole percent, rounded down.
    pub fn similarity_percent(&self) -> (percent: u32)
        ensures
            percent == self.total_similarity / 10_000,
    {
        self.total_similarity / 10_000
    }
}

/// The words of all `phrases`, phrase after phrase.
pub open spec fn all_words(phrases: Seq<Seq<char>>) -> Seq<Seq<char>>
    decreases phrases.len(),
{
    if phrases.len() == 0 {
        Seq::empty()
    } else {
        all_words(phrases.drop_last()) + words(phrases.last())
    }
}

/// The names of `aliases`, in order.
pub open spec fn alias_names(aliases: Seq<(Seq<char>, u64)>) -> Seq<Seq<char>> {
    aliases.map_values(|alias: (Seq<char>, u64)| alias.0)
}

/// Appends the words of all `phrases` to `out`.
fn push_words(out: &mut Vec<String>, phrases: &Vec<String>)
    ensures
        strings_view(final(out)@) == strings_view(old(out)@) + all_words(strings_view(phrases@)),
{
    let ghost start = strings_view(old(out)@);
    let ghost all = strings_view(phrases@);
    let mut i: usize = 0;
    assert(all.take(0) =~= Seq::<Seq<char>>::empty());
    assert(start + Seq::<Seq<char>>::empty() =~= start);
    while i < phrases.len()
        invariant
            i <= phrases.len(),
            all == strings_view(phrases@),
            strings_view(out@) == start + all_words(all.take(i as int)),
        decreases phrases.len() - i,
    {
        let mut found = split_words(phrases[i].as_str());
        let ghost before = strings_view(out@);
        let ghost added = strings_view(found@);
        out.append(&mut found);
        proof {
            let now = all.take(i + 1);
            assert(now.drop_last() =~= all.take(i as int));
            assert(now.last() == phrases[i as int]@);
            assert(strings_view(out@) =~= before + added);
            assert(before + added =~= start + (all_words(all.take(i as int)) + added));
        }
        i = i + 1;
    }
    assert(all.take(phrases.len() as int) =~= all);
}

/// What [`RedAlertVoiceConfig::switch_alias`] did.
#[derive(Debug, Clone, Copy, PartialEq, Eq, Structural)]
pub enum AliasChange {
    /// The alias was new and now stands for the user.
    Added,
    /// The alias stood for this very user and is gone.
    Removed,
    /// The alias stood for another user and now stands for this one.
    Replaced,
}

/// The first place of `phrases` that holds `phrase`, or the length.
pub open spec fn position(phrases: Seq<Seq<char>>, phrase: Seq<char>) -> int
    decreases phrases.len(),
{
    if phrases.len() == 0 {
        0
    } else if phrases[0] == phrase {
        0
    } else {
        1 + position(phrases.drop_first(), phrase)
    }
}

/// `phrases` with `phrase` switched: its first occurrence is taken out, or,
/// where it does not occur, it is put at the end.
pub open spec fn switched(phrases: Seq<Seq<char>>, phrase: Seq<char>) -> Seq<Seq<char>> {
    let at = position(phrases, phrase);
    if at < phrases.len() {
        phrases.remove(at)
    } else {
        phrases.push(phrase)
    }
}

/// The first place of `aliases` whose name is `name`, or the length.
pub open spec fn alias_position(aliases: Seq<(Seq<char>, u64)>, name: Seq<char>) -> int
    decreases aliases.len(),
{
    if aliases.len() == 0 {
        0
    } else if aliases[0].0 == name {
        0
    } else {
        1 + alias_position(aliases.drop_first(), name)
    }
}

/// What switching the alias `name` for `user_id` does to `aliases`.
pub open spec fn alias_change(aliases: Seq<(Seq<char>, u64)>, name: Seq<char>, user_id: u64)
    -> AliasChange {
    let at = alias_position(aliases, name);
    if at >= aliases.len() {
        AliasChange::Added
    } else if aliases[at].1 == user_id {
        AliasChange::Removed
    } else {
        AliasChange::Replaced
    }
}

/// `aliases` after the alias `name` was switched for `user_id`: a new alias
/// is put at the end; an alias of this user is taken out; an alias of another
/// user is taken out and put at the end for this user.
pub open spec fn alias_switched(aliases: Seq<(Seq<char>, u64)>, name: Seq<char>, user_id: u64)
    -> Seq<(Seq<char>, u64)> {
    let at = alias_position(aliases, name);
    match alias_change(aliases, name, user_id) {
        AliasChange::Added => aliases.push((name, user_id)),
        AliasChange::Removed => aliases.remove(at),
        AliasChange::Replaced => aliases.remove(at).push((name, user_id)),
    }
}

/// Whether no two aliases have the same name.
pub open spec fn distinct_names(aliases: Seq<(Seq<char>, u64)>) -> bool {
    forall|a: int, b: int|
        0 <= a < b < aliases.len() ==> (#[trigger] aliases[a]).0 != (#[trigger] aliases[b]).0
}

/// The place of a phrase lies within the list or at its end; nothing before
/// it is the phrase, and it is the phrase unless it is the end.
pub proof fn lemma_position(phrases: Seq<Seq<char>>, phrase: Seq<char>)
    ensures
        0 <= position(phrases, phrase) <= phrases.len(),
        forall|k: int| 0 <= k < position(phrases, phrase) ==> phrases[k] != phrase,
        position(phrases, phrase) < phrases.len() ==> phrases[position(phrases, phrase)] == phrase,
    decreases phrases.len(),
{
    if phrases.len() > 0 && phrases[0] != phrase {
        let rest = phrases.drop_first();
        lemma_position(rest, phrase);
        assert forall|k: int| 0 <= k < position(phrases, phrase) implies phrases[k] != phrase by {
            if k > 0 {
                assert(rest[k - 1] == phrases[k]);
            }
        }
    }
}

/// The place of an alias lies within the list or at its end; nothing before
/// it has the name, and it has the name unless it is the end.
pub proof fn lemma_alias_position(aliases: Seq<(Seq<char>, u64)>, name: Seq<char>)
    ensures
        0 <= alias_position(aliases, name) <= aliases.len(),
        forall|k: int| 0 <= k < alias_position(aliases, name) ==> aliases[k].0 != name,
        alias_position(aliases, name) < aliases.len() ==> aliases[alias_position(
            aliases,
            name,
        )].0 == name,
    decreases aliases.len(),
{
    if aliases.len() > 0 && aliases[0].0 != name {
        let rest = aliases.drop_first();
        lemma_alias_position(rest, name);
        assert forall|k: int| 0 <= k < alias_position(aliases, name) implies aliases[k].0
            != name by {
            if k > 0 {
                assert(rest[k - 1] == aliases[k]);
            }
        }
    }
}

/// Switching an alias keeps the names of the aliases distinct.
pub proof fn lemma_alias_switched_distinct(
    aliases: Seq<(Seq<char>, u64)>,
    name: Seq<char>,
    user_id: u64,
)
    requires
        distinct_names(aliases),
    ensures
        distinct_names(alias_switched(aliases, name, user_id)),
{
    lemma_alias_position(aliases, name);
    let at = alias_position(aliases, name);
    let after = alias_switched(aliases, name, user_id);
    if at < aliases.len() {
        let without = aliases.remove(at);
        assert forall|k: int| 0 <= k < without.len() implies (#[trigger] without[k]).0 != name
            && without[k] == aliases[if k < at {
            k
        } else {
            k + 1
        }] by {
            let j = if k < at {
                k
            } else {
                k + 1
            };
            assert(without[k] == aliases[j]);
            if j < at {
            } else {
                assert(aliases[at].0 != aliases[j].0);
            }
        }
        assert forall|a: int, b: int| 0 <= a < b < after.len() implies (#[trigger] after[a]).0 != (
        #[trigger] after[b]).0 by {
            if b < without.len() {
                let i = if a < at {
                    a
                } else {
                    a + 1
                };
                let j = if b < at {
                    b
                } else {
                    b + 1
                };
                assert(aliases[i].0 != aliases[j].0);
            } else {
                assert(without[a].0 != name);
            }
        }
    } else {
        assert forall|a: int, b: int| 0 <= a < b < after.len() implies (#[trigger] after[a]).0 != (
        #[trigger] after[b]).0 by {
            if b < aliases.len() {
                assert(aliases[a].0 != aliases[b].0);
            }
        }
    }
}

/// Switching an alias keeps distinct names distinct, stated for any list.
proof fn lemma_alias_switched_distinct_if(
    aliases: Seq<(Seq<char>, u64)>,
    name: Seq<char>,
    user_id: u64,
)
    ensures
        distinct_names(aliases) ==> distinct_names(alias_switched(aliases, name, user_id)),
{
    if distinct_names(aliases) {
        lemma_alias_switched_distinct(aliases, name, user_id);
    }
}

/// Takes the first occurrence of `phrase` out of `phrases`, or puts it at
/// the end where it does not occur; says whether it was put in.
pub fn switch_phrase(phrases: &mut Vec<String>, phrase: String) -> (added: bool)
    ensures
        strings_view(final(phrases)@) == switched(strings_view(old(phrases)@), phrase@),
        added == (position(strings_view(old(phrases)@), phrase@) >= old(phrases)@.len()),
{
    let ghost before = strings_view(old(phrases)@);
    let mut i: usize = 0;
    proof {
        lemma_position(before, phrase@);
        assert(before.skip(0) =~= before);
    }
    while i < phrases.len()
        invariant
            i <= phrases.len(),
            *phrases == *old(phrases),
            before == strings_view(phrases@),
            position(before, phrase@) == i + position(before.skip(i as int), phrase@),
        decreases phrases.len() - i,
    {
        assert(before.skip(i as int)[0] == phrases[i as int]@);
        if phrases[i] == phrase {
            phrases.remove(i);
            assert(strings_view(phrases@) =~= before.remove(i as int));
            return false;
        }
        assert(before.skip(i as int).drop_first() =~= before.skip(i + 1));
        i = i + 1;
    }
    phrases.push(phrase);
    assert(strings_view(phrases@) =~= before.push(phrase@));
    true
}

impl RedAlertVoiceConfigView {
    /// The invariant of a record: no two aliases have the same name.
    pub open spec fn wf(self) -> bool {
        distinct_names(self.aliases)
    }
}

impl RedAlertVoiceConfig {
    /// A record without aliases.
    pub fn new(
        target_words: Vec<String>,
        self_words: Vec<String>,
        similarity_threshold: u32,
    ) -> (config: RedAlertVoiceConfig)
        ensures
            config@ == (RedAlertVoiceConfigView {
                target_words: strings_view(target_words@),
                self_words: strings_view(self_words@),
                aliases: Seq::<(Seq<char>, u64)>::empty(),
                similarity_threshold,
            }),
            config@.wf(),
    {
        let config = RedAlertVoiceConfig {
            target_words,
            self_words,
            aliases: Vec::new(),
            similarity_threshold,
        };
        assert(config@.aliases =~= Seq::<(Seq<char>, u64)>::empty());
        config
    }

    /// Whether the record is well formed.
    pub fn is_wf(&self) -> (valid: bool)
        ensures
            valid == self@.wf(),
    {
        let ghost all = self@.aliases;
        let mut b: usize = 0;
        while b < self.aliases.len()
            invariant
                b <= self.aliases.len(),
                all == aliases_view(self.aliases@),
                forall|i: int, j: int|
                    0 <= i < j < b ==> (#[trigger] all[i]).0 != (#[trigger] all[j]).0,
            decreases self.aliases.len() - b,
        {
            let mut a: usize = 0;
            while a < b
                invariant
                    a <= b < self.aliases.len(),
                    all == aliases_view(self.aliases@),
                    forall|i: int| 0 <= i < a ==> (#[trigger] all[i]).0 != all[b as int].0,
                decreases b - a,
            {
                if self.aliases[a].0 == self.aliases[b].0 {
                    assert(all[a as int].0 == all[b as int].0);
                    return false;
                }
                a = a + 1;
            }
            b = b + 1;
        }
        true
    }

    /// A copy of this configuration.
    pub fn cloned(&self) -> (copy: RedAlertVoiceConfig)
        ensures
            copy@ == self@,
    {
        let mut aliases: Vec<(String, u64)> = Vec::new();
        let mut i: usize = 0;
        while i < self.aliases.len()
            invariant
                i <= self.aliases.len(),
                aliases_view(aliases@) == aliases_view(self.aliases@).take(i as int),
            decreases self.aliases.len() - i,
        {
            let item = (self.aliases[i].0.clone(), self.aliases[i].1);
            let ghost before = aliases_view(aliases@);
            aliases.push(item);
            assert(aliases_view(aliases@) =~= before.push((item.0@, item.1)));
            assert(aliases_view(self.aliases@).take(i + 1) =~= before.push(
                (self.aliases[i as int].0@, self.aliases[i as int].1),
            ));
            i = i + 1;
        }
        assert(aliases_view(self.aliases@).take(self.aliases.len() as int) =~= aliases_view(
            self.aliases@,
        ));
        RedAlertVoiceConfig {
            target_words: clone_strings(&self.target_words),
            self_words: clone_strings(&self.self_words),
            aliases,
            similarity_threshold: self.similarity_threshold,
        }
    }

    /// Every word that [`RedAlertVoiceConfig::should_kick`] looks up: the
    /// words of the self phrases, of the target phrases and of the alias
    /// names, in this order.
    pub fn query_words(&self) -> (out: Vec<String>)
        ensures
            strings_view(out@) == all_words(self@.self_words) + all_words(self@.target_words)
                + all_words(alias_names(self@.aliases)),
    {
        let mut out: Vec<String> = Vec::new();
        assert(strings_view(out@) =~= Seq::<Seq<char>>::empty());
        push_words(&mut out, &self.self_words);
        push_words(&mut out, &self.target_words);
        let mut names: Vec<String> = Vec::new();
        let mut i: usize = 0;
        assert(strings_view(names@) =~= alias_names(self@.aliases).take(0));
        while i < self.aliases.len()
            invariant
                i <= self.aliases.len(),
                strings_view(names@) == alias_names(self@.aliases).take(i as int),
            decreases self.aliases.len() - i,
        {
            let name = self.aliases[i].0.clone();
            let ghost before = strings_view(names@);
            names.push(name);
            assert(strings_view(names@) =~= before.push(name@));
            assert(alias_names(self@.aliases).take(i + 1) =~= before.push(
                self.aliases[i as int].0@,
            ));
            i = i + 1;
        }
        assert(alias_names(self@.aliases).take(self.aliases.len() as int) =~= alias_names(
            self@.aliases,
        ));
        push_words(&mut out, &names);
        assert(strings_view(out@) =~= all_words(self@.self_words) + all_words(
            self@.target_words,
        ) + all_words(alias_names(self@.aliases)));
        out
    }

    /// Adds `word` to the self phrases, or removes it if it is one already;
    /// says whether it was added.
    pub fn switch_self_word(&mut self, word: String) -> (added: bool)
        ensures
            final(self)@ == (RedAlertVoiceConfigView {
                self_words: switched(old(self)@.self_words, word@),
                ..old(self)@
            }),
            added == (position(old(self)@.self_words, word@) >= old(self)@.self_words.len()),
            final(self)@.wf() == old(self)@.wf(),
    {
        switch_phrase(&mut self.self_words, word)
    }

    /// Adds `word` to the target phrases, or removes it if it is one already;
    /// says whether it was added.
    pub fn switch_target_word(&mut self, word: String) -> (added: bool)
        ensures
            final(self)@ == (RedAlertVoiceConfigView {
                target_words: switched(old(self)@.target_words, word@),
                ..old(self)@
            }),
            added == (position(old(self)@.target_words, word@) >= old(self)@.target_words.len()),
            final(self)@.wf() == old(self)@.wf(),
    {
        switch_phrase(&mut self.target_words, word)
    }

    /// Makes the alias `word` stand for `user_id`, or removes it if it does
    /// so already. A well formed record stays well formed.
    pub fn switch_alias(&mut self, word: String, user_id: u64) -> (change: AliasChange)
        ensures
            final(self)@ == (RedAlertVoiceConfigView {
                aliases: alias_switched(old(self)@.aliases, word@, user_id),
                ..old(self)@
            }),
            change == alias_change(old(self)@.aliases, word@, user_id),
            old(self)@.wf() ==> final(self)@.wf(),
    {
        let ghost before = old(self)@.aliases;
        let mut i: usize = 0;
        proof {
            lemma_alias_position(before, word@);
            lemma_alias_switched_distinct_if(before, word@, user_id);
            assert(before.skip(0) =~= before);
        }
        while i < self.aliases.len()
            invariant
                i <= self.aliases.len(),
                *self == *old(self),
                before == aliases_view(self.aliases@),
                alias_position(before, word@) == i + alias_position(before.skip(i as int), word@),
            decreases self.aliases.len() - i,
        {
            assert(before.skip(i as int)[0] == (self.aliases[i as int].0@, self.aliases[i as int].1));
            if self.aliases[i].0 == word {
                let saved = self.aliases.remove(i);
                assert(aliases_view(self.aliases@) =~= before.remove(i as int));
                if saved.1 == user_id {
                    return AliasChange::Removed;
                }
                let ghost without = aliases_view(self.aliases@);
                self.aliases.push((word, user_id));
                assert(aliases_view(self.aliases@) =~= without.push((word@, user_id)));
                return AliasChange::Replaced;
            }
            assert(before.skip(i as int).drop_first() =~= before.skip(i + 1));
            i = i + 1;
        }
        self.aliases.push((word, user_id));
        assert(aliases_view(self.aliases@) =~= before.push((word@, user_id)));
        AliasChange::Added
    }

    /// Sets the similarity threshold to `similarity_threshold`, brought down
    /// to [`SIMILARITY_UNIT`] where it is above; returns what was set.
    pub fn set_similarity_threshold(&mut self, similarity_threshold: u32) -> (set: u32)
        ensures
            set == clamped(similarity_threshold),
            final(self)@ == (RedAlertVoiceConfigView {
                similarity_threshold: set,
                ..old(self)@
            }),
            final(self)@.wf() == old(self)@.wf(),
    {
        let set = if similarity_threshold > SIMILARITY_UNIT {
            SIMILARITY_UNIT
        } else {
            similarity_threshold
        };
        self.similarity_threshold = set;
        set
    }
}

/// Trigger phrases matched by plain containment.
#[derive(Debug, Clone, PartialEq)]
pub struct VoiceConfig {
    pub target_words: Vec<String>,
    pub self_words: Vec<String>,
    pub aliases: Vec<(String, u64)>,
}

/// Settings of the moderation commands.
#[derive(Debug, Clone, PartialEq)]
pub struct RedAlertCommandsConfig {
    pub listening_text: Option<String>,
    pub voice: VoiceConfig,
}

/// Whether one of `phrases` occurs in `text`.
pub open spec fn any_contained(phrases: Seq<Seq<char>>, text: Seq<char>) -> bool {
    exists|i: int| 0 <= i < phrases.len() && is_substring(text, #[trigger] phrases[i])
}

/// The user of the first alias whose name occurs in `text`.
pub open spec fn first_named(aliases: Seq<(Seq<char>, u64)>, text: Seq<char>) -> Option<u64>
    decreases aliases.len(),
{
    if aliases.len() == 0 {
        None
    } else if is_substring(text, aliases[0].0) {
        Some(aliases[0].1)
    } else {
        first_named(aliases.drop_first(), text)
    }
}

/// Whether one of `phrases` occurs in `text`.
fn contains_any(phrases: &Vec<String>, text: &Vec<char>) -> (found: bool)
    ensures
        found == any_contained(strings_view(phrases@), text@),
{
    let mut i: usize = 0;
    while i < phrases.len()
        invariant
            i <= phrases.len(),
            forall|k: int| 0 <= k < i ==> !is_substring(text@, #[trigger] strings_view(phrases@)[k]),
        decreases phrases.len() - i,
    {
        let phrase = chars_of(phrases[i].as_str());
        if contains(text, &phrase) {
            assert(strings_view(phrases@)[i as int] == phrase@);
            return true;
        }
        assert(strings_view(phrases@)[i as int] == phrase@);
        i = i + 1;
    }
    false
}

impl VoiceConfig {
    /// Decides who is to be removed for `text` spoken by `author_user_id`:
    /// the speaker if a self phrase occurs in the text; otherwise, if a
    /// target phrase occurs in it, the user of the first alias that occurs in
    /// it too.
    pub fn should_kick(&self, author_user_id: u64, text: &String) -> (kicked: Option<u64>)
        ensures
            kicked == if any_contained(strings_view(self.self_words@), text@) {
                Some(author_user_id)
            } else if any_contained(strings_view(self.target_words@), text@) {
                first_named(aliases_view(self.aliases@), text@)
            } else {
                None
            },
    {
        let text_chars = chars_of(text.as_str());
        if contains_any(&self.self_words, &text_chars) {
            return Some(author_user_id);
        }
        if !contains_any(&self.target_words, &text_chars) {
            return None;
        }
        let ghost all = aliases_view(self.aliases@);
        let mut i: usize = 0;
        assert(all.skip(0) =~= all);
        while i < self.aliases.len()
            invariant
                i <= self.aliases.len(),
                all == aliases_view(self.aliases@),
                text_chars@ == text@,
                !any_contained(strings_view(self.self_words@), text@),
                any_contained(strings_view(self.target_words@), text@),
                first_named(all, text@) == first_named(all.skip(i as int), text@),
            decreases self.aliases.len() - i,
        {
            let name = chars_of(self.aliases[i].0.as_str());
            assert(all.skip(i as int)[0] == (self.aliases[i as int].0@, self.aliases[i as int].1));
            if contains(&text_chars, &name) {
                return Some(self.aliases[i].1);
            }
            assert(all.skip(i as int).drop_first() =~= all.skip(i + 1));
            i = i + 1;
        }
        None
    }
}

} // verus!
