use red_alert::text::{contains, join_words, split_words};
use red_alert::phrase_matcher::{find_phrase, fits};
use red_alert::voice_config::{
    AliasChange, RedAlertVoiceConfig, RedAlertVoiceSearchResult, VoiceConfig, WordMatch,
    SIMILARITY_UNIT,
};

fn strings(words: &[&str]) -> Vec<String> {
    words.iter().map(|word| word.to_string()).collect()
}

fn config(
    self_words: &[&str],
    target_words: &[&str],
    aliases: &[(&str, u64)],
    similarity_threshold: u32,
) -> RedAlertVoiceConfig {
    RedAlertVoiceConfig {
        target_words: strings(target_words),
        self_words: strings(self_words),
        aliases: aliases.iter().map(|(name, user)| (name.to_string(), *user)).collect(),
        similarity_threshold,
    }
}

fn closest_words(config: &RedAlertVoiceConfig, text: &str) -> Vec<WordMatch> {
    let mut corpus = ngrammatic::CorpusBuilder::new().finish();
    for word in split_words(text) {
        corpus.add_text(&word);
    }
    let mut matches = Vec::new();
    for query in config.query_words() {
        if let Some(best) = corpus.search(&query, 0.0).into_iter().next() {
            matches.push(WordMatch {
                query,
                text: best.text,
                similarity: (best.similarity * 1_000_000.0).round() as u32,
            });
        }
    }
    matches
}

fn exact(words: &[&str]) -> Vec<WordMatch> {
    words
        .iter()
        .map(|word| WordMatch {
            query: word.to_string(),
            text: word.to_string(),
            similarity: SIMILARITY_UNIT,
        })
        .collect()
}

#[test]
fn words_are_split_at_ascii_whitespace() {
    assert_eq!(split_words("  код \t красный\n@targetAlias  "), strings(&["код", "красный", "@targetAlias"]));
    assert_eq!(split_words(""), Vec::<String>::new());
    assert_eq!(split_words(" \r\n "), Vec::<String>::new());
    assert_eq!(split_words("один\u{a0}два"), strings(&["один\u{a0}два"]));
}

#[test]
fn words_are_joined_by_single_spaces() {
    assert_eq!(join_words(&strings(&["код", "красный"])), "код красный");
    assert_eq!(join_words(&strings(&["код"])), "код");
    assert_eq!(join_words(&Vec::new()), "");
}

#[test]
fn contains_finds_contiguous_runs() {
    let text: Vec<char> = "код красный".chars().collect();
    let inside: Vec<char> = "д кр".chars().collect();
    let outside: Vec<char> = "кодк".chars().collect();
    assert_eq!(contains(&text, &inside), true);
    assert_eq!(contains(&text, &outside), false);
    assert_eq!(contains(&text, &Vec::new()), true);
    assert_eq!(contains(&Vec::new(), &inside), false);
}

#[test]
fn exact_self_phrase_at_full_threshold() {
    let config = config(&["самокик"], &[], &[], SIMILARITY_UNIT);
    let text = "самокик".to_string();
    let matches = closest_words(&config, &text);
    assert_eq!(matches.len(), 1);
    assert_eq!(matches[0].similarity, SIMILARITY_UNIT);
    let found = config.should_kick(3, &text, &matches);
    assert_eq!(found.len(), 1);
    assert_eq!(
        found.get(&3),
        Some(&RedAlertVoiceSearchResult {
            word: "самокик".to_string(),
            real_word: "самокик".to_string(),
            total_similarity: SIMILARITY_UNIT,
        })
    );
}

#[test]
fn self_phrase_at_high_threshold() {
    let config = config(&["самокик"], &["код красный"], &[("вася", 10)], 900_000);
    let text = "самокик".to_string();
    let matches = closest_words(&config, &text);
    let list = config.kick_list(3, &text, &matches);
    assert_eq!(list.len(), 1);
    assert_eq!(list[0].0, 3);
    assert_eq!(list[0].1.total_similarity, SIMILARITY_UNIT);
    assert_eq!(list[0].1.similarity_percent(), 100);
}

#[test]
fn zero_threshold_matches_whatever_shares_letters() {
    let config = config(&["самокик", "кик"], &[], &[], 0);
    let text = "кикимора".to_string();
    let matches = closest_words(&config, &text);
    let found = config.should_kick(3, &text, &matches);
    let reason = found.get(&3).expect("the speaker is matched");
    assert_eq!(reason.word, "самокик");
    assert_eq!(reason.real_word, "кикимора");
    assert_eq!(reason.total_similarity < SIMILARITY_UNIT, true);
}

#[test]
fn misheard_alias_is_still_found() {
    let config = config(&[], &["код красный"], &[("targetAlias", 2)], 800_000);
    let text = "код красный @targetAlias".to_string();
    let matches = closest_words(&config, &text);
    let found = config.should_kick(1, &text, &matches);
    assert_eq!(found.len(), 1);
    let reason = found.get(&2).expect("the alias's user is matched");
    assert_eq!(reason.word, "код красный targetAlias");
    assert_eq!(reason.real_word, "код красный @targetAlias");
    assert_eq!(reason.total_similarity, 984_694);
}

#[test]
fn two_aliases_yield_two_users() {
    let config = config(&[], &["код красный"], &[("вася", 10), ("петя", 20)], 800_000);
    let text = "код красный вася код красный петя".to_string();
    let matches = closest_words(&config, &text);
    let found = config.should_kick(1, &text, &matches);
    assert_eq!(found.len(), 2);
    assert_eq!(found.get(&10).map(|reason| reason.word.clone()), Some("код красный вася".to_string()));
    assert_eq!(found.get(&20).map(|reason| reason.word.clone()), Some("код красный петя".to_string()));
    let list = config.kick_list(1, &text, &matches);
    assert_eq!(list.iter().map(|kick| kick.0).collect::<Vec<u64>>(), vec![10, 20]);
}

#[test]
fn heard_phrase_must_occur_in_the_text() {
    let config = config(&[], &["код красный"], &[("вася", 10), ("петя", 20)], 800_000);
    let text = "код красный вася петя".to_string();
    let matches = closest_words(&config, &text);
    let found = config.should_kick(1, &text, &matches);
    assert_eq!(found.len(), 1);
    assert_eq!(found.contains_key(&10), true);
}

#[test]
fn alias_without_target_phrase_is_ignored() {
    let config = config(&[], &["код красный"], &[("вася", 10)], 800_000);
    let text = "привет вася".to_string();
    let matches = closest_words(&config, &text);
    assert_eq!(config.should_kick(1, &text, &matches).len(), 0);
    assert_eq!(config.kick_list(1, &text, &matches).len(), 0);
}

#[test]
fn first_self_phrase_wins() {
    let config = config(&["раз", "два"], &[], &[], 1_000_000);
    let text = "два раз".to_string();
    let found = config.should_kick(5, &text, &exact(&["раз", "два"]));
    assert_eq!(found.get(&5).map(|reason| reason.word.clone()), Some("раз".to_string()));
}

#[test]
fn later_alias_of_a_user_replaces_the_earlier() {
    let config = config(&["стоп"], &["код"], &[("вася", 7), ("василий", 7)], 500_000);
    let text = "стоп код вася код василий".to_string();
    let found = config.should_kick(7, &text, &exact(&["стоп", "код", "вася", "василий"]));
    assert_eq!(found.len(), 1);
    assert_eq!(found.get(&7).map(|reason| reason.word.clone()), Some("код василий".to_string()));
}

#[test]
fn phrase_formulas() {
    let text: Vec<char> = "abcdefghij xy".chars().collect();
    let close = vec![
        WordMatch { query: "abcdefgh".to_string(), text: "abcdefghij".to_string(), similarity: 600_000 },
        WordMatch { query: "xy".to_string(), text: "xy".to_string(), similarity: 900_001 },
    ];
    assert_eq!(
        find_phrase(&text, &close, "abcdefgh xy", 750_000),
        Some(("abcdefghij xy".to_string(), 750_000))
    );
    assert_eq!(find_phrase(&text, &close, "abcdefgh xy", 750_001), None);
    assert_eq!(find_phrase(&text, &close, "abcdefgh", 600_001), None);
    assert_eq!(find_phrase(&text, &close, "abcdefgh", 600_000), Some(("abcdefghij".to_string(), 600_000)));
    assert_eq!(find_phrase(&text, &close, "abcdefgh", 0), Some(("abcdefghij".to_string(), 600_000)));
    let far = vec![WordMatch {
        query: "abcdefg".to_string(),
        text: "abcdefghij".to_string(),
        similarity: 1_000_000,
    }];
    assert_eq!(find_phrase(&text, &far, "abcdefg", 750_000), Some(("abcdefghij".to_string(), 1_000_000)));
    assert_eq!(find_phrase(&text, &far, "abcdefg", 750_001), None);
    let weak = vec![
        WordMatch { query: "a".to_string(), text: "a".to_string(), similarity: 299_999 },
        WordMatch { query: "b".to_string(), text: "b".to_string(), similarity: 1_000_000 },
        WordMatch { query: "c".to_string(), text: "c".to_string(), similarity: 1_000_000 },
    ];
    let letters: Vec<char> = "a b c".chars().collect();
    assert_eq!(find_phrase(&letters, &weak, "a b c", 900_000), None);
    assert_eq!(find_phrase(&letters, &weak, "a b c", 766_666), Some(("a b c".to_string(), 766_666)));
    assert_eq!(find_phrase(&letters, &weak, "", 0), None);
    assert_eq!(find_phrase(&letters, &weak, "d", 0), None);
}

#[test]
fn threshold_above_one_counts_as_one() {
    let config = config(&["самокик"], &[], &[], 5_000_000);
    let text = "самокик".to_string();
    assert_eq!(config.should_kick(3, &text, &exact(&["самокик"])).len(), 1);
    let nearly = vec![WordMatch {
        query: "самокик".to_string(),
        text: "самокик".to_string(),
        similarity: 999_999,
    }];
    assert_eq!(config.should_kick(3, &text, &nearly).len(), 0);
}

#[test]
fn query_words_cover_all_phrases() {
    let config = config(&["само кик"], &["код красный"], &[("вася пупкин", 1)], 0);
    assert_eq!(
        config.query_words(),
        strings(&["само", "кик", "код", "красный", "вася", "пупкин"])
    );
}

#[test]
fn phrases_and_aliases_are_switched() {
    let mut config = config(&["раз"], &[], &[], 500_000);
    assert_eq!(config.switch_self_word("два".to_string()), true);
    assert_eq!(config.self_words, strings(&["раз", "два"]));
    assert_eq!(config.switch_self_word("раз".to_string()), false);
    assert_eq!(config.self_words, strings(&["два"]));
    assert_eq!(config.switch_target_word("код".to_string()), true);
    assert_eq!(config.switch_target_word("код".to_string()), false);
    assert_eq!(config.target_words, Vec::<String>::new());
    assert_eq!(config.switch_alias("вася".to_string(), 1), AliasChange::Added);
    assert_eq!(config.switch_alias("петя".to_string(), 2), AliasChange::Added);
    assert_eq!(config.switch_alias("вася".to_string(), 3), AliasChange::Replaced);
    assert_eq!(config.aliases, vec![("петя".to_string(), 2), ("вася".to_string(), 3)]);
    assert_eq!(config.switch_alias("петя".to_string(), 2), AliasChange::Removed);
    assert_eq!(config.aliases, vec![("вася".to_string(), 3)]);
    assert_eq!(config.set_similarity_threshold(2_000_000), 1_000_000);
    assert_eq!(config.similarity_threshold, 1_000_000);
    assert_eq!(config.set_similarity_threshold(250_000), 250_000);
    assert_eq!(config.cloned(), config);
}

#[test]
fn plain_config_matches_by_containment() {
    let config = VoiceConfig {
        target_words: strings(&["код красный"]),
        self_words: strings(&["самокик"]),
        aliases: vec![("вася".to_string(), 10), ("петя".to_string(), 20)],
    };
    assert_eq!(config.should_kick(1, &"ой самокик".to_string()), Some(1));
    assert_eq!(config.should_kick(1, &"код красный на петя и вася".to_string()), Some(10));
    assert_eq!(config.should_kick(1, &"код красный".to_string()), None);
    assert_eq!(config.should_kick(1, &"вася".to_string()), None);
}

#[test]
fn records_keep_their_aliases_apart() {
    let mut config = RedAlertVoiceConfig::new(strings(&["код"]), strings(&["стоп"]), 500_000);
    assert_eq!(config.is_wf(), true);
    assert_eq!(config.aliases.len(), 0);
    assert_eq!(config.target_words, strings(&["код"]));
    assert_eq!(config.self_words, strings(&["стоп"]));
    assert_eq!(config.similarity_threshold, 500_000);
    config.switch_alias("вася".to_string(), 1);
    config.switch_alias("петя".to_string(), 1);
    config.switch_alias("вася".to_string(), 2);
    assert_eq!(config.is_wf(), true);
    config.aliases.push(("петя".to_string(), 3));
    assert_eq!(config.is_wf(), false);
    config.switch_alias("петя".to_string(), 1);
    assert_eq!(config.is_wf(), true);
    assert_eq!(config.aliases, vec![("вася".to_string(), 2), ("петя".to_string(), 3)]);
}

#[test]
fn matches_fit_the_text_they_were_read_from() {
    let config = config(&["самокик"], &["код красный"], &[("targetAlias", 2)], 800_000);
    let text = "код красный @targetAlias";
    let matches = closest_words(&config, text);
    assert_eq!(matches.len() > 0, true);
    assert_eq!(fits(&matches, text), true);
    assert_eq!(fits(&matches, "код красный"), false);
    assert_eq!(fits(&Vec::new(), ""), true);
    assert_eq!(fits(&exact(&["код"]), " \t "), false);
    let inflated = vec![WordMatch {
        query: "код".to_string(),
        text: "код".to_string(),
        similarity: SIMILARITY_UNIT + 1,
    }];
    assert_eq!(fits(&inflated, "код"), false);
    let part = vec![WordMatch {
        query: "код".to_string(),
        text: "ко".to_string(),
        similarity: SIMILARITY_UNIT,
    }];
    assert_eq!(fits(&part, "код красный"), false);
    assert_eq!(fits(&exact(&["красный", "код"]), "код  красный"), true);
}
