//! The fuzzy matcher: looks for a group's trigger phrases in recognised
//! text and decides who is to be removed.
//!
//! A phrase is looked for word by word. For each word the caller says which
//! word of the text is closest to it and how similar the two are; the matcher
//! accepts or rejects the words, weighs the phrase as a whole, and checks
//! that what was heard stands in the text as one run.

use vstd::prelude::*;
use vstd::string::*;
use std::collections::HashMap;
use crate::text::{chars_of, contains, is_substring, join_words, joined, split_words, strings_view, words};
use crate::voice_config::{
    matches_view,
    RedAlertVoiceConfig,
    RedAlertVoiceConfigView,
    RedAlertVoiceSearchResult,
    RedAlertVoiceSearchResultView,
    WordMatch,
    WordMatchView,
    SIMILARITY_UNIT,
};

verus! {

broadcast use vstd::std_specs::hash::group_hash_axioms;

/// The threshold brought into the range from 0 to [`SIMILARITY_UNIT`].
pub open spec fn clamped(threshold: u32) -> int {
    if threshold > SIMILARITY_UNIT {
        SIMILARITY_UNIT as int
    } else {
        threshold as int
    }
}

/// The first entry of `matches` that answers `word`.
pub open spec fn best_match(matches: Seq<WordMatchView>, word: Seq<char>) -> Option<
    WordMatchView,
>
    decreases matches.len(),
{
    if matches.len() == 0 {
        None
    } else if matches[0].query == word {
        Some(matches[0])
    } else {
        best_match(matches.drop_first(), word)
    }
}

/// `len × (1 − threshold)` rounded to the nearest integer, halves up.
pub open spec fn letters_allowed(len: nat, threshold: int) -> int {
    (2 * len * (SIMILARITY_UNIT - threshold) + SIMILARITY_UNIT) / (2 * SIMILARITY_UNIT)
}

/// Whether `m` may stand for `word` in a phrase of `count` words: its
/// similarity is at least `threshold / count`, and the two lengths differ by
/// no more than [`letters_allowed`] of the heard word's length.
pub open spec fn word_accepted(m: WordMatchView, word: Seq<char>, count: nat, threshold: int)
    -> bool {
    let heard = m.text.len() as int;
    let asked = word.len() as int;
    &&& m.similarity * count >= threshold
    &&& heard - asked <= letters_allowed(m.text.len(), threshold)
    &&& asked - heard <= letters_allowed(m.text.len(), threshold)
}

/// Whether `word` has a match that is accepted.
pub open spec fn word_passes(
    matches: Seq<WordMatchView>,
    word: Seq<char>,
    count: nat,
    threshold: int,
) -> bool {
    match best_match(matches, word) {
        Some(m) => word_accepted(m, word, count, threshold),
        None => false,
    }
}

/// What was heard in place of `word`.
pub open spec fn heard_word(matches: Seq<WordMatchView>, word: Seq<char>) -> Seq<char> {
    match best_match(matches, word) {
        Some(m) => m.text,
        None => Seq::empty(),
    }
}

/// What was heard in place of each of `words`.
pub open spec fn heard_words(matches: Seq<WordMatchView>, words: Seq<Seq<char>>) -> Seq<
    Seq<char>,
> {
    words.map_values(|word: Seq<char>| heard_word(matches, word))
}

/// The similarity of what was heard in place of `word`.
pub open spec fn heard_similarity(matches: Seq<WordMatchView>, word: Seq<char>) -> nat {
    match best_match(matches, word) {
        Some(m) => m.similarity as nat,
        None => 0,
    }
}

/// The sum of the similarities of what was heard in place of `words`.
pub open spec fn similarity_sum(matches: Seq<WordMatchView>, words: Seq<Seq<char>>) -> nat
    decreases words.len(),
{
    if words.len() == 0 {
        0
    } else {
        similarity_sum(matches, words.drop_last()) + heard_similarity(matches, words.last())
    }
}

/// Looks for `phrase` in `text`.
///
/// The phrase is present when it has at least one word, every word has an
/// accepted match, the mean similarity of the matches is at least
/// `threshold`, and the heard words, joined by single spaces, occur in
/// `text`. The answer is then what was heard and the mean similarity,
/// rounded down.
pub open spec fn phrase_found(
    text: Seq<char>,
    matches: Seq<WordMatchView>,
    phrase: Seq<char>,
    threshold: int,
) -> Option<(Seq<char>, u32)> {
    let asked = words(phrase);
    let heard = joined(heard_words(matches, asked));
    let sum = similarity_sum(matches, asked);
    if asked.len() > 0 && (forall|j: int|
        0 <= j < asked.len() ==> word_passes(matches, #[trigger] asked[j], asked.len(), threshold))
        && sum >= threshold * asked.len() && is_substring(text, heard) {
        Some((heard, (sum / asked.len()) as u32))
    } else {
        None
    }
}

/// The first of `self_words` that is found in `text`, as a search result.
pub open spec fn first_self_match(
    self_words: Seq<Seq<char>>,
    text: Seq<char>,
    matches: Seq<WordMatchView>,
    threshold: int,
) -> Option<RedAlertVoiceSearchResultView>
    decreases self_words.len(),
{
    if self_words.len() == 0 {
        None
    } else {
        match phrase_found(text, matches, self_words[0], threshold) {
            Some((heard, similarity)) => Some(
                RedAlertVoiceSearchResultView {
                    word: self_words[0],
                    real_word: heard,
                    total_similarity: similarity,
                },
            ),
            None => first_self_match(self_words.drop_first(), text, matches, threshold),
        }
    }
}

/// `target` followed by the alias `name`.
pub open spec fn aliased_phrase(target: Seq<char>, name: Seq<char>) -> Seq<char> {
    target + seq![' '] + name
}

/// `found` extended by every alias that is found in `text` behind `target`,
/// taken in order; a later alias of the same user replaces an earlier one.
pub open spec fn alias_kicks(
    found: Map<u64, RedAlertVoiceSearchResultView>,
    target: Seq<char>,
    aliases: Seq<(Seq<char>, u64)>,
    text: Seq<char>,
    matches: Seq<WordMatchView>,
    threshold: int,
) -> Map<u64, RedAlertVoiceSearchResultView>
    decreases aliases.len(),
{
    if aliases.len() == 0 {
        found
    } else {
        let before = alias_kicks(found, target, aliases.drop_last(), text, matches, threshold);
        let phrase = aliased_phrase(target, aliases.last().0);
        match phrase_found(text, matches, phrase, threshold) {
            Some((heard, similarity)) => before.insert(
                aliases.last().1,
                RedAlertVoiceSearchResultView {
                    word: phrase,
                    real_word: heard,
                    total_similarity: similarity,
                },
            ),
            None => before,
        }
    }
}

/// `found` extended by the aliases behind every target phrase that is itself
/// found in `text`, the target phrases taken in order.
pub open spec fn target_kicks(
    found: Map<u64, RedAlertVoiceSearchResultView>,
    targets: Seq<Seq<char>>,
    aliases: Seq<(Seq<char>, u64)>,
    text: Seq<char>,
    matches: Seq<WordMatchView>,
    threshold: int,
) -> Map<u64, RedAlertVoiceSearchResultView>
    decreases targets.len(),
{
    if targets.len() == 0 {
        found
    } else {
        let before = target_kicks(found, targets.drop_last(), aliases, text, matches, threshold);
        if phrase_found(text, matches, targets.last(), threshold) is Some {
            alias_kicks(before, targets.last(), aliases, text, matches, threshold)
        } else {
            before
        }
    }
}

/// Who is to be removed for `text` spoken by `author`, and why.
pub open spec fn kicks(
    config: RedAlertVoiceConfigView,
    author: u64,
    text: Seq<char>,
    matches: Seq<WordMatchView>,
) -> Map<u64, RedAlertVoiceSearchResultView> {
    let threshold = clamped(config.similarity_threshold);
    let own = match first_self_match(config.self_words, text, matches, threshold) {
        Some(reason) => Map::empty().insert(author, reason),
        None => Map::empty(),
    };
    target_kicks(own, config.target_words, config.aliases, text, matches, threshold)
}

/// Whether `found` holds exactly the users of `reasons`, each with that
/// reason.
pub open spec fn kicks_are(
    found: Map<u64, RedAlertVoiceSearchResult>,
    reasons: Map<u64, RedAlertVoiceSearchResultView>,
) -> bool {
    &&& found.dom() == reasons.dom()
    &&& forall|user: u64| #[trigger] found.contains_key(user) ==> found[user]@ == reasons[user]
}

/// The users that `text` can ever name: the speaker, then the user of each
/// alias in order.
pub open spec fn kick_candidates(config: RedAlertVoiceConfigView, author: u64) -> Seq<u64> {
    seq![author] + config.aliases.map_values(|alias: (Seq<char>, u64)| alias.1)
}

/// The entries of `reasons` in the order in which their users first occur in
/// `candidates`.
pub open spec fn listed_kicks(
    candidates: Seq<u64>,
    reasons: Map<u64, RedAlertVoiceSearchResultView>,
) -> Seq<(u64, RedAlertVoiceSearchResultView)>
    decreases candidates.len(),
{
    if candidates.len() == 0 {
        Seq::empty()
    } else {
        let before = listed_kicks(candidates.drop_last(), reasons);
        let user = candidates.last();
        if reasons.contains_key(user) && !candidates.drop_last().contains(user) {
            before.push((user, reasons[user]))
        } else {
            before
        }
    }
}

/// The users and reasons of a list of kicks, the reasons as views.
pub open spec fn kicks_view(kicks: Seq<(u64, RedAlertVoiceSearchResult)>) -> Seq<
    (u64, RedAlertVoiceSearchResultView),
> {
    kicks.map_values(|kick: (u64, RedAlertVoiceSearchResult)| (kick.0, kick.1@))
}

/// Whether `matches` fits `text`: every entry names a word of `text` as the
/// closest one, with a similarity that is no more than
/// [`SIMILARITY_UNIT`]. A list that was read off an index of the words of
/// `text` fits it.
pub open spec fn matches_fit(matches: Seq<WordMatchView>, text: Seq<char>) -> bool {
    forall|i: int|
        0 <= i < matches.len() ==> {
            &&& words(text).contains((#[trigger] matches[i]).text)
            &&& matches[i].similarity <= SIMILARITY_UNIT
        }
}

/// Whether `matches` fits `text`.
pub fn fits(matches: &Vec<WordMatch>, text: &str) -> (fit: bool)
    ensures
        fit == matches_fit(matches_view(matches@), text@),
{
    let text_words = split_words(text);
    let ghost all = matches_view(matches@);
    let ghost known = words(text@);
    let mut i: usize = 0;
    while i < matches.len()
        invariant
            i <= matches.len(),
            all == matches_view(matches@),
            known == words(text@),
            known == strings_view(text_words@),
            forall|k: int|
                0 <= k < i ==> {
                    &&& known.contains((#[trigger] all[k]).text)
                    &&& all[k].similarity <= SIMILARITY_UNIT
                },
        decreases matches.len() - i,
    {
        assert(all[i as int] == matches[i as int]@);
        if matches[i].similarity > SIMILARITY_UNIT {
            return false;
        }
        let mut k: usize = 0;
        let mut found = false;
        while k < text_words.len() && !found
            invariant
                k <= text_words.len(),
                i < matches.len(),
                known == strings_view(text_words@),
                found ==> known.contains(matches[i as int].text@),
                !found ==> forall|j: int| 0 <= j < k ==> known[j] != matches[i as int].text@,
            decreases text_words.len() - k, if found { 0int } else { 1int },
        {
            assert(known[k as int] == text_words[k as int]@);
            if text_words[k] == matches[i].text {
                found = true;
            } else {
                k = k + 1;
            }
        }
        if !found {
            assert(!known.contains(all[i as int].text));
            return false;
        }
        i = i + 1;
    }
    true
}

/// The first entry of `matches` that answers `word`.
fn find_match<'a>(matches: &'a Vec<WordMatch>, word: &String) -> (found: Option<&'a WordMatch>)
    ensures
        match found {
            Some(m) => best_match(matches_view(matches@), word@) == Some(m@),
            None => best_match(matches_view(matches@), word@) is None,
        },
{
    let ghost all = matches_view(matches@);
    let mut i: usize = 0;
    assert(all.skip(0) =~= all);
    while i < matches.len()
        invariant
            i <= matches.len(),
            all == matches_view(matches@),
            best_match(all, word@) == best_match(all.skip(i as int), word@),
        decreases matches.len() - i,
    {
        if matches[i].query == *word {
            return Some(&matches[i]);
        }
        assert(all.skip(i as int).drop_first() =~= all.skip(i + 1));
        i = i + 1;
    }
    None
}

/// Whether `m` may stand for `word` in a phrase of `count` words.
fn accepts(m: &WordMatch, word: &String, count: usize, threshold: u32) -> (ok: bool)
    requires
        threshold <= SIMILARITY_UNIT,
    ensures
        ok == word_accepted(m@, word@, count as nat, threshold as int),
{
    assert(m.similarity * count <= 0xffff_ffff * 0xffff_ffff_ffff_ffff) by (nonlinear_arith)
        requires
            m.similarity <= 0xffff_ffff,
            count <= 0xffff_ffff_ffff_ffff,
    ;
    let weighted: u128 = (m.similarity as u128) * (count as u128);
    if weighted < threshold as u128 {
        return false;
    }
    let heard = m.text.as_str().unicode_len();
    let asked = word.as_str().unicode_len();
    let slack: u128 = (SIMILARITY_UNIT - threshold) as u128;
    assert(2 * heard * slack <= 2 * 0xffff_ffff_ffff_ffff * 1_000_000) by (nonlinear_arith)
        requires
            heard <= 0xffff_ffff_ffff_ffff,
            slack <= 1_000_000,
    ;
    let allowed: u128 = (2 * (heard as u128) * slack + SIMILARITY_UNIT as u128) / (2
        * SIMILARITY_UNIT as u128);
    if heard >= asked {
        (heard - asked) as u128 <= allowed
    } else {
        (asked - heard) as u128 <= allowed
    }
}

/// Looks for `phrase` in `text`: what was heard in its place and the mean
/// similarity, or `None` when the phrase is not present. A threshold above
/// [`SIMILARITY_UNIT`] counts as [`SIMILARITY_UNIT`].
pub fn find_phrase(
    text: &Vec<char>,
    matches: &Vec<WordMatch>,
    phrase: &str,
    similarity_threshold: u32,
) -> (found: Option<(String, u32)>)
    ensures
        match found {
            Some((heard, similarity)) => phrase_found(
                text@,
                matches_view(matches@),
                phrase@,
                clamped(similarity_threshold),
            ) == Some((heard@, similarity)),
            None => phrase_found(
                text@,
                matches_view(matches@),
                phrase@,
                clamped(similarity_threshold),
            ) is None,
        },
{
    let threshold = if similarity_threshold > SIMILARITY_UNIT {
        SIMILARITY_UNIT
    } else {
        similarity_threshold
    };
    let asked = split_words(phrase);
    let count = asked.len();
    let ghost all = matches_view(matches@);
    let ghost wanted = words(phrase@);
    let mut heard: Vec<String> = Vec::new();
    let mut sum: u128 = 0;
    let mut i: usize = 0;
    assert(strings_view(heard@) =~= heard_words(all, wanted.take(0)));
    while i < count
        invariant
            i <= count,
            count == asked@.len(),
            threshold <= SIMILARITY_UNIT,
            threshold == clamped(similarity_threshold),
            all == matches_view(matches@),
            wanted == strings_view(asked@),
            wanted == words(phrase@),
            forall|j: int|
                0 <= j < i ==> word_passes(all, #[trigger] wanted[j], count as nat, threshold as int),
            strings_view(heard@) == heard_words(all, wanted.take(i as int)),
            sum == similarity_sum(all, wanted.take(i as int)),
            sum <= i * 0xffff_ffff,
        decreases count - i,
    {
        assert(wanted[i as int] == asked[i as int]@);
        let m = match find_match(matches, &asked[i]) {
            Some(m) => m,
            None => {
                assert(!word_passes(all, wanted[i as int], count as nat, threshold as int));
                return None;
            },
        };
        if !accepts(m, &asked[i], count, threshold) {
            assert(!word_passes(all, wanted[i as int], count as nat, threshold as int));
            return None;
        }
        let text_heard = m.text.clone();
        proof {
            let now = wanted.take(i + 1);
            assert(now.drop_last() =~= wanted.take(i as int));
            assert(now.last() == wanted[i as int]);
            assert(heard_word(all, wanted[i as int]) == text_heard@);
            assert(strings_view(heard@.push(text_heard)) =~= strings_view(heard@).push(
                text_heard@,
            ));
            assert(heard_words(all, now) =~= heard_words(all, wanted.take(i as int)).push(
                text_heard@,
            ));
        }
        heard.push(text_heard);
        sum = sum + m.similarity as u128;
        i = i + 1;
    }
    assert(wanted.take(count as int) =~= wanted);
    if count == 0 {
        return None;
    }
    assert(threshold * count <= 1_000_000 * 0xffff_ffff_ffff_ffff) by (nonlinear_arith)
        requires
            threshold <= 1_000_000,
            count <= 0xffff_ffff_ffff_ffff,
    ;
    if sum < (threshold as u128) * (count as u128) {
        return None;
    }
    let said = join_words(&heard);
    let said_chars = chars_of(said.as_str());
    if contains(text, &said_chars) {
        let mean = sum / (count as u128);
        assert(mean <= 0xffff_ffff) by (nonlinear_arith)
            requires
                mean == sum / (count as u128),
                sum <= count * 0xffff_ffff,
                count > 0,
        ;
        Some((said, mean as u32))
    } else {
        None
    }
}

impl RedAlertVoiceConfig {
    /// Decides who is to be removed for `text` spoken by `author_user_id`.
    ///
    /// `matches` says, for each word of the configured phrases and aliases,
    /// which word of `text` is closest to it; a word without an entry has no
    /// match. The list is meant to fit the text ([`matches_fit`], tested by
    /// [`fits`]); then no similarity that comes back is above
    /// [`SIMILARITY_UNIT`] and a text without words names nobody. The first
    /// self phrase that is found puts the speaker on the
    /// list. Every target phrase that is found is tried again with each alias
    /// behind it, and each such phrase that is found puts the alias's user on
    /// the list.
    pub fn should_kick(
        &self,
        author_user_id: u64,
        text: &String,
        matches: &Vec<WordMatch>,
    ) -> (found: HashMap<u64, RedAlertVoiceSearchResult>)
        ensures
            kicks_are(found@, kicks(self@, author_user_id, text@, matches_view(matches@))),
    {
        let threshold = if self.similarity_threshold > SIMILARITY_UNIT {
            SIMILARITY_UNIT
        } else {
            self.similarity_threshold
        };
        let text_chars = chars_of(text.as_str());
        let ghost all = matches_view(matches@);
        let ghost config = self@;
        let mut found: HashMap<u64, RedAlertVoiceSearchResult> = HashMap::new();
        let ghost mut reasons: Map<u64, RedAlertVoiceSearchResultView> = Map::empty();
        let mut i: usize = 0;
        let mut done = false;
        assert(config.self_words.skip(0) =~= config.self_words);
        while i < self.self_words.len() && !done
            invariant
                i <= self.self_words.len(),
                threshold == clamped(self.similarity_threshold),
                text_chars@ == text@,
                all == matches_view(matches@),
                config == self@,
                kicks_are(found@, reasons),
                !done ==> reasons == Map::<u64, RedAlertVoiceSearchResultView>::empty()
                    && first_self_match(config.self_words, text@, all, threshold as int)
                    == first_self_match(config.self_words.skip(i as int), text@, all, threshold as int),
                done ==> first_self_match(config.self_words, text@, all, threshold as int) is Some
                    && reasons == Map::<u64, RedAlertVoiceSearchResultView>::empty().insert(
                    author_user_id,
                    first_self_match(config.self_words, text@, all, threshold as int)->0,
                ),
            decreases self.self_words.len() - i, if done { 0int } else { 1int },
        {
            assert(config.self_words.skip(i as int)[0] == self.self_words[i as int]@);
            match find_phrase(&text_chars, matches, self.self_words[i].as_str(), threshold) {
                Some((heard, similarity)) => {
                    let reason = RedAlertVoiceSearchResult {
                        word: self.self_words[i].clone(),
                        real_word: heard,
                        total_similarity: similarity,
                    };
                    proof {
                        reasons = reasons.insert(author_user_id, reason@);
                    }
                    found.insert(author_user_id, reason);
                    done = true;
                },
                None => {
                    assert(config.self_words.skip(i as int).drop_first() =~= config.self_words.skip(
                        i + 1,
                    ));
                    i = i + 1;
                },
            }
        }
        let ghost own = reasons;
        let mut a: usize = 0;
        assert(config.target_words.take(0) =~= Seq::<Seq<char>>::empty());
        while a < self.target_words.len()
            invariant
                a <= self.target_words.len(),
                threshold == clamped(self.similarity_threshold),
                text_chars@ == text@,
                all == matches_view(matches@),
                config == self@,
                kicks_are(found@, reasons),
                reasons == target_kicks(
                    own,
                    config.target_words.take(a as int),
                    config.aliases,
                    text@,
                    all,
                    threshold as int,
                ),
            decreases self.target_words.len() - a,
        {
            let ghost target = self.target_words[a as int]@;
            let ghost before = reasons;
            proof {
                let now = config.target_words.take(a + 1);
                assert(now.drop_last() =~= config.target_words.take(a as int));
                assert(now.last() == target);
            }
            if find_phrase(&text_chars, matches, self.target_words[a].as_str(), threshold).is_some() {
                let mut b: usize = 0;
                assert(config.aliases.take(0) =~= Seq::<(Seq<char>, u64)>::empty());
                while b < self.aliases.len()
                    invariant
                        b <= self.aliases.len(),
                        a < self.target_words.len(),
                        target == self.target_words[a as int]@,
                        threshold == clamped(self.similarity_threshold),
                        text_chars@ == text@,
                        all == matches_view(matches@),
                        config == self@,
                        kicks_are(found@, reasons),
                        reasons == alias_kicks(
                            before,
                            target,
                            config.aliases.take(b as int),
                            text@,
                            all,
                            threshold as int,
                        ),
                    decreases self.aliases.len() - b,
                {
                    proof {
                        reveal_strlit(" ");
                        let now = config.aliases.take(b + 1);
                        assert(now.drop_last() =~= config.aliases.take(b as int));
                        assert(now.last() == (self.aliases[b as int].0@, self.aliases[b as int].1));
                        assert(" "@ =~= seq![' ']);
                    }
                    let phrase = self.target_words[a].clone().concat(" ").concat(
                        self.aliases[b].0.as_str(),
                    );
                    assert(phrase@ == aliased_phrase(target, self.aliases[b as int].0@));
                    match find_phrase(&text_chars, matches, phrase.as_str(), threshold) {
                        Some((heard, similarity)) => {
                            let reason = RedAlertVoiceSearchResult {
                                word: phrase,
                                real_word: heard,
                                total_similarity: similarity,
                            };
                            proof {
                                reasons = reasons.insert(self.aliases[b as int].1, reason@);
                            }
                            found.insert(self.aliases[b].1, reason);
                        },
                        None => {},
                    }
                    b = b + 1;
                }
                assert(config.aliases.take(self.aliases.len() as int) =~= config.aliases);
            }
            a = a + 1;
        }
        assert(config.target_words.take(self.target_words.len() as int) =~= config.target_words);
        found
    }

    /// Who is to be removed for `text` spoken by `author_user_id`, as a list
    /// without repeated users: the speaker first, the others in the order of
    /// their first alias.
    pub fn kick_list(
        &self,
        author_user_id: u64,
        text: &String,
        matches: &Vec<WordMatch>,
    ) -> (list: Vec<(u64, RedAlertVoiceSearchResult)>)
        ensures
            kicks_view(list@) == listed_kicks(
                kick_candidates(self@, author_user_id),
                kicks(self@, author_user_id, text@, matches_view(matches@)),
            ),
    {
        let mut found = self.should_kick(author_user_id, text, matches);
        let ghost reasons = kicks(self@, author_user_id, text@, matches_view(matches@));
        let ghost candidates = kick_candidates(self@, author_user_id);
        let mut list: Vec<(u64, RedAlertVoiceSearchResult)> = Vec::new();
        assert(candidates.take(1) =~= seq![author_user_id]);
        assert(candidates.take(1).drop_last() =~= Seq::<u64>::empty());
        assert(listed_kicks(Seq::<u64>::empty(), reasons) =~= Seq::empty());
        match found.remove(&author_user_id) {
            Some(reason) => {
                list.push((author_user_id, reason));
            },
            None => {},
        }
        assert(kicks_view(list@) =~= listed_kicks(candidates.take(1), reasons));
        let mut b: usize = 0;
        while b < self.aliases.len()
            invariant
                b <= self.aliases.len(),
                candidates == kick_candidates(self@, author_user_id),
                kicks_view(list@) == listed_kicks(candidates.take(b + 1), reasons),
                forall|user: u64| #[trigger]
                    found@.contains_key(user) <==> reasons.contains_key(user)
                        && !candidates.take(b + 1).contains(user),
                forall|user: u64| #[trigger]
                    found@.contains_key(user) ==> found@[user]@ == reasons[user],
            decreases self.aliases.len() - b,
        {
            let user = self.aliases[b].1;
            proof {
                let now = candidates.take(b + 2);
                assert(now.drop_last() =~= candidates.take(b + 1));
                assert(now.last() == user);
                let seen = candidates.take(b + 1);
                assert forall|other: u64| now.contains(other) <==> seen.contains(other) || other
                    == user by {
                    if now.contains(other) {
                        let k = choose|k: int| 0 <= k < now.len() && now[k] == other;
                        if k < b + 1 {
                            assert(seen[k] == other);
                        }
                    }
                    if seen.contains(other) {
                        let k = choose|k: int| 0 <= k < seen.len() && seen[k] == other;
                        assert(now[k] == other);
                    }
                    if other == user {
                        assert(now[b + 1] == other);
                    }
                }
            }
            let ghost before = kicks_view(list@);
            match found.remove(&user) {
                Some(reason) => {
                    list.push((user, reason));
                    assert(kicks_view(list@) =~= before.push((user, reason@)));
                },
                None => {},
            }
            b = b + 1;
        }
        assert(candidates.take(self.aliases.len() + 1) =~= candidates);
        list
    }
}

} // verus!
