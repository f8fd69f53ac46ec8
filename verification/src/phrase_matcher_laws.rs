//! What holds of the matcher whatever the text and the configuration are.

use vstd::prelude::*;
use crate::phrase_matcher::{
    alias_kicks,
    aliased_phrase,
    best_match,
    clamped,
    first_self_match,
    heard_words,
    kick_candidates,
    kicks,
    letters_allowed,
    matches_fit,
    phrase_found,
    similarity_sum,
    target_kicks,
    word_passes,
};
use crate::text::{is_substring, joined, words};
use crate::voice_config::{
    RedAlertVoiceConfigView,
    RedAlertVoiceSearchResultView,
    WordMatchView,
    SIMILARITY_UNIT,
};

verus! {

/// Whether `matches` answers every one of `asked` with the word itself at
/// full similarity.
pub open spec fn heard_exactly(matches: Seq<WordMatchView>, asked: Seq<Seq<char>>) -> bool {
    forall|j: int|
        0 <= j < asked.len() ==> best_match(matches, #[trigger] asked[j]) == Some(
            WordMatchView { query: asked[j], text: asked[j], similarity: SIMILARITY_UNIT },
        )
}

/// Words that are heard exactly add up to full similarity each.
pub proof fn lemma_exact_similarity_sum(matches: Seq<WordMatchView>, asked: Seq<Seq<char>>)
    requires
        heard_exactly(matches, asked),
    ensures
        similarity_sum(matches, asked) == asked.len() * SIMILARITY_UNIT,
        heard_words(matches, asked) == asked,
    decreases asked.len(),
{
    if asked.len() > 0 {
        let head = asked.drop_last();
        assert forall|j: int| 0 <= j < head.len() implies best_match(matches, #[trigger] head[j])
            == Some(
            WordMatchView { query: head[j], text: head[j], similarity: SIMILARITY_UNIT },
        ) by {
            assert(head[j] == asked[j]);
        }
        lemma_exact_similarity_sum(matches, head);
        assert(best_match(matches, asked[asked.len() - 1]) is Some);
        assert(asked.len() * SIMILARITY_UNIT == head.len() * SIMILARITY_UNIT + SIMILARITY_UNIT)
            by (nonlinear_arith)
            requires
                asked.len() == head.len() + 1,
        ;
    }
    assert(heard_words(matches, asked) =~= asked);
}

/// A phrase whose every word is heard exactly is found at any threshold, with
/// full similarity, as soon as its words, joined by single spaces, occur in
/// the text.
pub proof fn lemma_exact_phrase_is_found(
    text: Seq<char>,
    matches: Seq<WordMatchView>,
    phrase: Seq<char>,
    threshold: int,
)
    requires
        0 <= threshold <= SIMILARITY_UNIT,
        words(phrase).len() > 0,
        heard_exactly(matches, words(phrase)),
        is_substring(text, joined(words(phrase))),
    ensures
        phrase_found(text, matches, phrase, threshold) == Some(
            (joined(words(phrase)), SIMILARITY_UNIT),
        ),
{
    let asked = words(phrase);
    lemma_exact_similarity_sum(matches, asked);
    let count = asked.len();
    assert(threshold * count <= SIMILARITY_UNIT * count) by (nonlinear_arith)
        requires
            0 <= threshold <= SIMILARITY_UNIT,
            count >= 0,
    ;
    assert(count * SIMILARITY_UNIT / (count as int) == SIMILARITY_UNIT) by (nonlinear_arith)
        requires
            count > 0,
    ;
    assert forall|j: int| 0 <= j < asked.len() implies word_passes(
        matches,
        #[trigger] asked[j],
        asked.len(),
        threshold,
    ) by {
        let len = asked[j].len();
        assert(SIMILARITY_UNIT * count >= threshold) by (nonlinear_arith)
            requires
                0 <= threshold <= SIMILARITY_UNIT,
                count >= 1,
        ;
        assert(letters_allowed(len, threshold) >= 0) by (nonlinear_arith)
            requires
                0 <= threshold <= SIMILARITY_UNIT,
                len >= 0,
                letters_allowed(len, threshold) == (2 * len * (SIMILARITY_UNIT - threshold)
                    + SIMILARITY_UNIT) / (2 * SIMILARITY_UNIT),
        ;
    }
}

/// Without target phrases nobody but the speaker is ever matched, and the
/// speaker is matched exactly when a self phrase is found.
pub proof fn lemma_self_phrases_only(
    config: RedAlertVoiceConfigView,
    author: u64,
    text: Seq<char>,
    matches: Seq<WordMatchView>,
)
    requires
        config.target_words.len() == 0,
    ensures
        forall|user: u64|
            #[trigger] kicks(config, author, text, matches).contains_key(user) ==> user == author,
        kicks(config, author, text, matches).contains_key(author) == first_self_match(
            config.self_words,
            text,
            matches,
            clamped(config.similarity_threshold),
        ) is Some,
        kicks(config, author, text, matches).contains_key(author) ==> kicks(
            config,
            author,
            text,
            matches,
        )[author] == first_self_match(
            config.self_words,
            text,
            matches,
            clamped(config.similarity_threshold),
        )->0,
{
}

/// Trying the aliases behind a target phrase takes nobody off the list.
pub proof fn lemma_alias_kicks_grow(
    found: Map<u64, RedAlertVoiceSearchResultView>,
    target: Seq<char>,
    aliases: Seq<(Seq<char>, u64)>,
    text: Seq<char>,
    matches: Seq<WordMatchView>,
    threshold: int,
)
    ensures
        forall|user: u64|
            found.contains_key(user) ==> #[trigger] alias_kicks(
                found,
                target,
                aliases,
                text,
                matches,
                threshold,
            ).contains_key(user),
    decreases aliases.len(),
{
    if aliases.len() > 0 {
        lemma_alias_kicks_grow(found, target, aliases.drop_last(), text, matches, threshold);
        let before = alias_kicks(found, target, aliases.drop_last(), text, matches, threshold);
        assert forall|user: u64| found.contains_key(user) implies #[trigger] alias_kicks(
            found,
            target,
            aliases,
            text,
            matches,
            threshold,
        ).contains_key(user) by {
            assert(before.contains_key(user));
        }
    }
}

/// Trying the target phrases takes nobody off the list.
pub proof fn lemma_target_kicks_grow(
    found: Map<u64, RedAlertVoiceSearchResultView>,
    targets: Seq<Seq<char>>,
    aliases: Seq<(Seq<char>, u64)>,
    text: Seq<char>,
    matches: Seq<WordMatchView>,
    threshold: int,
)
    ensures
        forall|user: u64|
            found.contains_key(user) ==> #[trigger] target_kicks(
                found,
                targets,
                aliases,
                text,
                matches,
                threshold,
            ).contains_key(user),
    decreases targets.len(),
{
    if targets.len() > 0 {
        let before = target_kicks(found, targets.drop_last(), aliases, text, matches, threshold);
        lemma_target_kicks_grow(found, targets.drop_last(), aliases, text, matches, threshold);
        lemma_alias_kicks_grow(before, targets.last(), aliases, text, matches, threshold);
        assert forall|user: u64| found.contains_key(user) implies #[trigger] target_kicks(
            found,
            targets,
            aliases,
            text,
            matches,
            threshold,
        ).contains_key(user) by {
            assert(before.contains_key(user));
            assert(alias_kicks(
                before,
                targets.last(),
                aliases,
                text,
                matches,
                threshold,
            ).contains_key(user));
        }
    }
}

/// An alias that is found behind a target phrase puts its user on the list.
pub proof fn lemma_alias_kicks_hold(
    found: Map<u64, RedAlertVoiceSearchResultView>,
    target: Seq<char>,
    aliases: Seq<(Seq<char>, u64)>,
    text: Seq<char>,
    matches: Seq<WordMatchView>,
    threshold: int,
    b: int,
)
    requires
        0 <= b < aliases.len(),
        phrase_found(text, matches, aliased_phrase(target, aliases[b].0), threshold) is Some,
    ensures
        alias_kicks(found, target, aliases, text, matches, threshold).contains_key(aliases[b].1),
    decreases aliases.len(),
{
    if b < aliases.len() - 1 {
        assert(aliases.drop_last()[b] == aliases[b]);
        lemma_alias_kicks_hold(found, target, aliases.drop_last(), text, matches, threshold, b);
    }
}

/// An alias found behind a found target phrase puts its user on the list,
/// whatever the list held before and whatever target phrases follow.
pub proof fn lemma_target_kicks_hold(
    found: Map<u64, RedAlertVoiceSearchResultView>,
    targets: Seq<Seq<char>>,
    aliases: Seq<(Seq<char>, u64)>,
    text: Seq<char>,
    matches: Seq<WordMatchView>,
    threshold: int,
    a: int,
    b: int,
)
    requires
        0 <= a < targets.len(),
        0 <= b < aliases.len(),
        phrase_found(text, matches, targets[a], threshold) is Some,
        phrase_found(text, matches, aliased_phrase(targets[a], aliases[b].0), threshold) is Some,
    ensures
        target_kicks(found, targets, aliases, text, matches, threshold).contains_key(aliases[b].1),
    decreases targets.len(),
{
    let before = target_kicks(found, targets.drop_last(), aliases, text, matches, threshold);
    if a < targets.len() - 1 {
        lemma_target_kicks_hold(
            found,
            targets.drop_last(),
            aliases,
            text,
            matches,
            threshold,
            a,
            b,
        );
        assert(targets.drop_last()[a] == targets[a]);
        lemma_alias_kicks_grow(before, targets.last(), aliases, text, matches, threshold);
        assert(before.contains_key(aliases[b].1));
        assert(alias_kicks(
            before,
            targets.last(),
            aliases,
            text,
            matches,
            threshold,
        ).contains_key(aliases[b].1));
    } else {
        lemma_alias_kicks_hold(before, targets.last(), aliases, text, matches, threshold, b);
    }
}

/// Every alias that is found behind a target phrase that is found itself
/// puts its user on the list: text that holds a target phrase with two
/// aliases of two users names them both.
pub proof fn lemma_aliased_user_is_kicked(
    config: RedAlertVoiceConfigView,
    author: u64,
    text: Seq<char>,
    matches: Seq<WordMatchView>,
    a: int,
    b: int,
)
    requires
        0 <= a < config.target_words.len(),
        0 <= b < config.aliases.len(),
        phrase_found(text, matches, config.target_words[a], clamped(config.similarity_threshold))
            is Some,
        phrase_found(
            text,
            matches,
            aliased_phrase(config.target_words[a], config.aliases[b].0),
            clamped(config.similarity_threshold),
        ) is Some,
    ensures
        kicks(config, author, text, matches).contains_key(config.aliases[b].1),
{
    let threshold = clamped(config.similarity_threshold);
    let own = match first_self_match(config.self_words, text, matches, threshold) {
        Some(reason) => Map::empty().insert(author, reason),
        None => Map::empty(),
    };
    lemma_target_kicks_hold(
        own,
        config.target_words,
        config.aliases,
        text,
        matches,
        threshold,
        a,
        b,
    );
}

/// Whether `word` is a phrase of `user`'s own: a self phrase when `user` is
/// the speaker, or a target phrase followed by an alias of `user`.
pub open spec fn own_phrase(
    config: RedAlertVoiceConfigView,
    author: u64,
    user: u64,
    word: Seq<char>,
) -> bool {
    ||| user == author && config.self_words.contains(word)
    ||| exists|a: int, b: int|
        0 <= a < config.target_words.len() && 0 <= b < config.aliases.len()
            && config.aliases[b].1 == user && word == #[trigger] aliased_phrase(
            config.target_words[a],
            config.aliases[b].0,
        )
}

/// Whether every entry of `reasons` is tagged with a phrase of its user's
/// own.
pub open spec fn all_own(
    config: RedAlertVoiceConfigView,
    author: u64,
    reasons: Map<u64, RedAlertVoiceSearchResultView>,
) -> bool {
    forall|user: u64| #[trigger]
        reasons.contains_key(user) ==> own_phrase(config, author, user, reasons[user].word)
}

/// The first self phrase that is found is a self phrase.
pub proof fn lemma_first_self_match_is_own(
    self_words: Seq<Seq<char>>,
    text: Seq<char>,
    matches: Seq<WordMatchView>,
    threshold: int,
)
    ensures
        first_self_match(self_words, text, matches, threshold) matches Some(reason)
            ==> self_words.contains(reason.word),
    decreases self_words.len(),
{
    if self_words.len() > 0 {
        if phrase_found(text, matches, self_words[0], threshold) is None {
            let rest = self_words.drop_first();
            lemma_first_self_match_is_own(rest, text, matches, threshold);
            let later = first_self_match(rest, text, matches, threshold);
            if later is Some {
                let word = later->0.word;
                let k = choose|k: int| 0 <= k < rest.len() && rest[k] == word;
                assert(self_words[k + 1] == word);
            }
        } else {
            assert(self_words[0] == first_self_match(self_words, text, matches, threshold)->0.word);
        }
    }
}

/// Trying aliases behind a target phrase keeps every entry tagged with a
/// phrase of its user's own.
pub proof fn lemma_alias_kicks_own(
    config: RedAlertVoiceConfigView,
    author: u64,
    found: Map<u64, RedAlertVoiceSearchResultView>,
    a: int,
    aliases: Seq<(Seq<char>, u64)>,
    text: Seq<char>,
    matches: Seq<WordMatchView>,
    threshold: int,
)
    requires
        all_own(config, author, found),
        0 <= a < config.target_words.len(),
        aliases.len() <= config.aliases.len(),
        aliases == config.aliases.take(aliases.len() as int),
    ensures
        all_own(
            config,
            author,
            alias_kicks(found, config.target_words[a], aliases, text, matches, threshold),
        ),
    decreases aliases.len(),
{
    if aliases.len() > 0 {
        let head = aliases.drop_last();
        assert(head =~= config.aliases.take(head.len() as int));
        lemma_alias_kicks_own(config, author, found, a, head, text, matches, threshold);
        let b = aliases.len() - 1;
        assert(aliases.last() == config.aliases[b]);
        let phrase = aliased_phrase(config.target_words[a], config.aliases[b].0);
        assert(own_phrase(config, author, config.aliases[b].1, phrase));
    }
}

/// Trying target phrases keeps every entry tagged with a phrase of its
/// user's own.
pub proof fn lemma_target_kicks_own(
    config: RedAlertVoiceConfigView,
    author: u64,
    found: Map<u64, RedAlertVoiceSearchResultView>,
    targets: Seq<Seq<char>>,
    text: Seq<char>,
    matches: Seq<WordMatchView>,
    threshold: int,
)
    requires
        all_own(config, author, found),
        targets.len() <= config.target_words.len(),
        targets == config.target_words.take(targets.len() as int),
    ensures
        all_own(
            config,
            author,
            target_kicks(found, targets, config.aliases, text, matches, threshold),
        ),
    decreases targets.len(),
{
    if targets.len() > 0 {
        let head = targets.drop_last();
        assert(head =~= config.target_words.take(head.len() as int));
        lemma_target_kicks_own(config, author, found, head, text, matches, threshold);
        let a = targets.len() - 1;
        assert(targets.last() == config.target_words[a]);
        assert(config.aliases =~= config.aliases.take(config.aliases.len() as int));
        lemma_alias_kicks_own(
            config,
            author,
            target_kicks(found, head, config.aliases, text, matches, threshold),
            a,
            config.aliases,
            text,
            matches,
            threshold,
        );
    }
}

/// Every user on the list is tagged with a phrase of their own: the speaker
/// with a self phrase or with a target phrase and an alias of theirs, anybody
/// else with a target phrase and an alias of theirs.
pub proof fn lemma_kicks_are_tagged_with_own_phrases(
    config: RedAlertVoiceConfigView,
    author: u64,
    text: Seq<char>,
    matches: Seq<WordMatchView>,
)
    ensures
        all_own(config, author, kicks(config, author, text, matches)),
{
    let threshold = clamped(config.similarity_threshold);
    let own = match first_self_match(config.self_words, text, matches, threshold) {
        Some(reason) => Map::empty().insert(author, reason),
        None => Map::empty(),
    };
    lemma_first_self_match_is_own(config.self_words, text, matches, threshold);
    assert(config.target_words =~= config.target_words.take(config.target_words.len() as int));
    lemma_target_kicks_own(config, author, own, config.target_words, text, matches, threshold);
}

/// Whether every user of `reasons` occurs in `candidates`.
pub open spec fn covered_by(
    reasons: Map<u64, RedAlertVoiceSearchResultView>,
    candidates: Seq<u64>,
) -> bool {
    forall|user: u64| #[trigger] reasons.contains_key(user) ==> candidates.contains(user)
}

/// Whoever is matched behind a target phrase is the user of an alias.
pub proof fn lemma_alias_kicks_covered(
    found: Map<u64, RedAlertVoiceSearchResultView>,
    target: Seq<char>,
    aliases: Seq<(Seq<char>, u64)>,
    text: Seq<char>,
    matches: Seq<WordMatchView>,
    threshold: int,
    candidates: Seq<u64>,
)
    requires
        covered_by(found, candidates),
        forall|b: int| 0 <= b < aliases.len() ==> candidates.contains(#[trigger] aliases[b].1),
    ensures
        covered_by(alias_kicks(found, target, aliases, text, matches, threshold), candidates),
    decreases aliases.len(),
{
    if aliases.len() > 0 {
        lemma_alias_kicks_covered(
            found,
            target,
            aliases.drop_last(),
            text,
            matches,
            threshold,
            candidates,
        );
        assert(candidates.contains(aliases[aliases.len() - 1].1));
    }
}

/// Whoever is matched by a target phrase is the user of an alias.
pub proof fn lemma_target_kicks_covered(
    found: Map<u64, RedAlertVoiceSearchResultView>,
    targets: Seq<Seq<char>>,
    aliases: Seq<(Seq<char>, u64)>,
    text: Seq<char>,
    matches: Seq<WordMatchView>,
    threshold: int,
    candidates: Seq<u64>,
)
    requires
        covered_by(found, candidates),
        forall|b: int| 0 <= b < aliases.len() ==> candidates.contains(#[trigger] aliases[b].1),
    ensures
        covered_by(target_kicks(found, targets, aliases, text, matches, threshold), candidates),
    decreases targets.len(),
{
    if targets.len() > 0 {
        lemma_target_kicks_covered(
            found,
            targets.drop_last(),
            aliases,
            text,
            matches,
            threshold,
            candidates,
        );
        lemma_alias_kicks_covered(
            target_kicks(found, targets.drop_last(), aliases, text, matches, threshold),
            targets.last(),
            aliases,
            text,
            matches,
            threshold,
            candidates,
        );
    }
}

/// Nobody but the speaker and the users of the aliases is ever matched.
pub proof fn lemma_kicks_are_candidates(
    config: RedAlertVoiceConfigView,
    author: u64,
    text: Seq<char>,
    matches: Seq<WordMatchView>,
)
    ensures
        covered_by(kicks(config, author, text, matches), kick_candidates(config, author)),
{
    let candidates = kick_candidates(config, author);
    let threshold = clamped(config.similarity_threshold);
    let own = match first_self_match(config.self_words, text, matches, threshold) {
        Some(reason) => Map::empty().insert(author, reason),
        None => Map::empty(),
    };
    assert(candidates[0] == author);
    assert forall|b: int| 0 <= b < config.aliases.len() implies candidates.contains(
        #[trigger] config.aliases[b].1,
    ) by {
        assert(candidates[b + 1] == config.aliases[b].1);
    }
    lemma_target_kicks_covered(
        own,
        config.target_words,
        config.aliases,
        text,
        matches,
        threshold,
        candidates,
    );
}

/// Whether every reason of `reasons` has a similarity of at most
/// [`SIMILARITY_UNIT`].
pub open spec fn all_within_unit(reasons: Map<u64, RedAlertVoiceSearchResultView>) -> bool {
    forall|user: u64| #[trigger]
        reasons.contains_key(user) ==> reasons[user].total_similarity <= SIMILARITY_UNIT
}

/// The match of a word is an entry of the list.
pub proof fn lemma_best_match_is_listed(matches: Seq<WordMatchView>, word: Seq<char>)
    ensures
        best_match(matches, word) matches Some(m) ==> matches.contains(m),
    decreases matches.len(),
{
    if matches.len() > 0 && matches[0].query != word {
        let rest = matches.drop_first();
        lemma_best_match_is_listed(rest, word);
        if best_match(rest, word) is Some {
            let m = best_match(rest, word)->0;
            let k = choose|k: int| 0 <= k < rest.len() && rest[k] == m;
            assert(matches[k + 1] == m);
        }
    } else if matches.len() > 0 {
        assert(matches[0] == best_match(matches, word)->0);
    }
}

/// With matches that fit the text, the similarities of what was heard add
/// up to no more than full similarity for each word.
pub proof fn lemma_similarity_sum_within_unit(
    matches: Seq<WordMatchView>,
    text: Seq<char>,
    asked: Seq<Seq<char>>,
)
    requires
        matches_fit(matches, text),
    ensures
        similarity_sum(matches, asked) <= asked.len() * SIMILARITY_UNIT,
    decreases asked.len(),
{
    if asked.len() > 0 {
        let head = asked.drop_last();
        lemma_similarity_sum_within_unit(matches, text, head);
        lemma_best_match_is_listed(matches, asked.last());
        if best_match(matches, asked.last()) is Some {
            let m = best_match(matches, asked.last())->0;
            let k = choose|k: int| 0 <= k < matches.len() && matches[k] == m;
            assert(matches[k].similarity <= SIMILARITY_UNIT);
        }
        assert(asked.len() * SIMILARITY_UNIT == head.len() * SIMILARITY_UNIT + SIMILARITY_UNIT)
            by (nonlinear_arith)
            requires
                asked.len() == head.len() + 1,
        ;
    }
}

/// With matches that fit the text, a phrase is never found with more than
/// full similarity, and never in a text without words.
pub proof fn lemma_fitting_matches_bound_a_phrase(
    text: Seq<char>,
    matches: Seq<WordMatchView>,
    phrase: Seq<char>,
    threshold: int,
)
    requires
        matches_fit(matches, text),
    ensures
        phrase_found(text, matches, phrase, threshold) matches Some(found) ==> found.1
            <= SIMILARITY_UNIT && words(text).len() > 0,
{
    let asked = words(phrase);
    if phrase_found(text, matches, phrase, threshold) is Some {
        lemma_similarity_sum_within_unit(matches, text, asked);
        let sum = similarity_sum(matches, asked);
        let count = asked.len();
        assert(sum / count <= SIMILARITY_UNIT) by (nonlinear_arith)
            requires
                count > 0,
                sum <= count * SIMILARITY_UNIT,
        ;
        assert(word_passes(matches, asked[0], asked.len(), threshold));
        lemma_best_match_is_listed(matches, asked[0]);
        let m = best_match(matches, asked[0])->0;
        let k = choose|k: int| 0 <= k < matches.len() && matches[k] == m;
        assert(words(text).contains(matches[k].text));
    }
}

/// With matches that fit the text, trying aliases keeps every similarity
/// within full similarity, and changes nothing in a text without words.
pub proof fn lemma_alias_kicks_with_fitting_matches(
    found: Map<u64, RedAlertVoiceSearchResultView>,
    target: Seq<char>,
    aliases: Seq<(Seq<char>, u64)>,
    text: Seq<char>,
    matches: Seq<WordMatchView>,
    threshold: int,
)
    requires
        matches_fit(matches, text),
    ensures
        all_within_unit(found) ==> all_within_unit(
            alias_kicks(found, target, aliases, text, matches, threshold),
        ),
        words(text).len() == 0 ==> alias_kicks(found, target, aliases, text, matches, threshold)
            == found,
    decreases aliases.len(),
{
    if aliases.len() > 0 {
        lemma_alias_kicks_with_fitting_matches(
            found,
            target,
            aliases.drop_last(),
            text,
            matches,
            threshold,
        );
        lemma_fitting_matches_bound_a_phrase(
            text,
            matches,
            aliased_phrase(target, aliases.last().0),
            threshold,
        );
    }
}

/// With matches that fit the text, trying target phrases keeps every
/// similarity within full similarity, and changes nothing in a text
/// without words.
pub proof fn lemma_target_kicks_with_fitting_matches(
    found: Map<u64, RedAlertVoiceSearchResultView>,
    targets: Seq<Seq<char>>,
    aliases: Seq<(Seq<char>, u64)>,
    text: Seq<char>,
    matches: Seq<WordMatchView>,
    threshold: int,
)
    requires
        matches_fit(matches, text),
    ensures
        all_within_unit(found) ==> all_within_unit(
            target_kicks(found, targets, aliases, text, matches, threshold),
        ),
        words(text).len() == 0 ==> target_kicks(found, targets, aliases, text, matches, threshold)
            == found,
    decreases targets.len(),
{
    if targets.len() > 0 {
        lemma_target_kicks_with_fitting_matches(
            found,
            targets.drop_last(),
            aliases,
            text,
            matches,
            threshold,
        );
        lemma_alias_kicks_with_fitting_matches(
            target_kicks(found, targets.drop_last(), aliases, text, matches, threshold),
            targets.last(),
            aliases,
            text,
            matches,
            threshold,
        );
        lemma_fitting_matches_bound_a_phrase(text, matches, targets.last(), threshold);
    }
}

/// With matches that fit the text, the first self phrase that is found has
/// no more than full similarity, and none is found in a text without words.
pub proof fn lemma_first_self_match_with_fitting_matches(
    self_words: Seq<Seq<char>>,
    text: Seq<char>,
    matches: Seq<WordMatchView>,
    threshold: int,
)
    requires
        matches_fit(matches, text),
    ensures
        first_self_match(self_words, text, matches, threshold) matches Some(reason)
            ==> reason.total_similarity <= SIMILARITY_UNIT && words(text).len() > 0,
    decreases self_words.len(),
{
    if self_words.len() > 0 {
        lemma_fitting_matches_bound_a_phrase(text, matches, self_words[0], threshold);
        lemma_first_self_match_with_fitting_matches(
            self_words.drop_first(),
            text,
            matches,
            threshold,
        );
    }
}

/// With matches that fit the text, nobody is named with more than full
/// similarity.
pub proof fn lemma_similarities_are_within_unit(
    config: RedAlertVoiceConfigView,
    author: u64,
    text: Seq<char>,
    matches: Seq<WordMatchView>,
)
    requires
        matches_fit(matches, text),
    ensures
        all_within_unit(kicks(config, author, text, matches)),
{
    let threshold = clamped(config.similarity_threshold);
    let own = match first_self_match(config.self_words, text, matches, threshold) {
        Some(reason) => Map::empty().insert(author, reason),
        None => Map::empty(),
    };
    lemma_first_self_match_with_fitting_matches(config.self_words, text, matches, threshold);
    assert(all_within_unit(own));
    lemma_target_kicks_with_fitting_matches(
        own,
        config.target_words,
        config.aliases,
        text,
        matches,
        threshold,
    );
}

/// With matches that fit the text, a text without words names nobody.
pub proof fn lemma_wordless_text_names_nobody(
    config: RedAlertVoiceConfigView,
    author: u64,
    text: Seq<char>,
    matches: Seq<WordMatchView>,
)
    requires
        matches_fit(matches, text),
        words(text).len() == 0,
    ensures
        kicks(config, author, text, matches) == Map::<u64, RedAlertVoiceSearchResultView>::empty(),
{
    let threshold = clamped(config.similarity_threshold);
    lemma_first_self_match_with_fitting_matches(config.self_words, text, matches, threshold);
    lemma_target_kicks_with_fitting_matches(
        Map::empty(),
        config.target_words,
        config.aliases,
        text,
        matches,
        threshold,
    );
}

} // verus!
