use red_alert::actions_history::RedAlertActionType;
use red_alert::commands_handler::{
    args, is_whitespace, route, starts_with, HelpInfo, PrintTextCommand,
};
use red_alert::handler::RedAlertDeportationResult;
use red_alert::handler::RedAlertDeportationResult::{Deported, Error, NotFound};
use red_alert::is_sub::IsSub;
use red_alert::keys::{keys_u32, keys_u64};
use red_alert::text::chars_of;
use std::collections::HashMap;
use red_alert::mentions::{
    channel_of, mentioned, parse_number, user_of, users_of, Mentioned,
};
use red_alert::text_command::{
    common_red_alert, history_entries, needs_self_kick, CommonRedAlertResult,
};

fn strings(words: &[&str]) -> Vec<String> {
    words.iter().map(|word| word.to_string()).collect()
}

#[test]
fn arguments_are_cut_and_lowered() {
    assert_eq!(args("Код  КРАСНЫЙ\u{a0}<@42>"), strings(&["код", "", "красный", "<@42>"]));
    assert_eq!(args(""), strings(&[""]));
    assert_eq!(args("help "), strings(&["help", ""]));
    assert_eq!(args("\tA"), strings(&["", "a"]));
}

#[test]
fn longest_prefix_wins() {
    let prefixes = vec![
        strings(&["код", "красный"]),
        strings(&["слушать", "код", "красный"]),
        strings(&["код", "красный", "история"]),
        strings(&["код", "красный", "фраза"]),
        strings(&["код"]),
    ];
    assert_eq!(route(&args("код красный история"), &prefixes), Some(2));
    assert_eq!(route(&args("Код Красный <@1> <@2>"), &prefixes), Some(0));
    assert_eq!(route(&args("слушать код красный 5"), &prefixes), Some(1));
    assert_eq!(route(&args("код зелёный"), &prefixes), Some(4));
    assert_eq!(route(&args("привет"), &prefixes), None);
    assert_eq!(route(&args("код красный"), &Vec::new()), None);
}

#[test]
fn earliest_of_equal_prefixes_wins() {
    let prefixes = vec![strings(&["a"]), strings(&["a", "b"]), strings(&["a", "b"]), Vec::new()];
    assert_eq!(route(&strings(&["a", "b", "c"]), &prefixes), Some(1));
    assert_eq!(route(&strings(&["z"]), &prefixes), Some(3));
    assert_eq!(starts_with(&strings(&["a"]), &strings(&["a", "b"])), false);
    assert_eq!(starts_with(&strings(&["a", "b"]), &strings(&["a", "b"])), true);
}

#[test]
fn print_text_command_hands_out_copies() {
    let command = PrintTextCommand {
        prefix_anchor: "помощь".to_string(),
        help_info: Some(HelpInfo { header_suffix: None, description: "список".to_string() }),
        text: "...".to_string(),
    };
    assert_eq!(command.prefix_anchor(), "помощь");
    assert_eq!(
        command.help_info(),
        Some(HelpInfo { header_suffix: None, description: "список".to_string() })
    );
    let silent = PrintTextCommand {
        prefix_anchor: String::new(),
        help_info: None,
        text: String::new(),
    };
    assert_eq!(silent.help_info(), None);
    let full = HelpInfo { header_suffix: Some("{id}".to_string()), description: "d".to_string() };
    assert_eq!(full.cloned(), full);
}

#[test]
fn deportation_results_are_told_apart() {
    assert_eq!(RedAlertDeportationResult::Deported.is_deported(), true);
    assert_eq!(RedAlertDeportationResult::Deported.is_not_found(), false);
    assert_eq!(RedAlertDeportationResult::NotFound.is_deported(), false);
    assert_eq!(RedAlertDeportationResult::NotFound.is_not_found(), true);
    assert_eq!(RedAlertDeportationResult::Error("no".to_string()).is_deported(), false);
    assert_eq!(RedAlertDeportationResult::Error("no".to_string()).is_not_found(), false);
}

#[test]
fn author_is_tried_when_nobody_else_can_be() {
    assert_eq!(needs_self_kick(1, &vec![], &vec![]), true);
    assert_eq!(needs_self_kick(1, &vec![2], &vec![NotFound]), true);
    assert_eq!(needs_self_kick(1, &vec![1], &vec![NotFound]), false);
    assert_eq!(needs_self_kick(1, &vec![2], &vec![Deported]), false);
    assert_eq!(needs_self_kick(1, &vec![2], &vec![Error("e".to_string())]), false);
    assert_eq!(needs_self_kick(1, &vec![2, 3], &vec![NotFound, NotFound]), true);
    assert_eq!(needs_self_kick(1, &vec![2, 1], &vec![NotFound, NotFound]), false);
    assert_eq!(needs_self_kick(1, &vec![2, 3], &vec![NotFound, Error("e".to_string())]), false);
    assert_eq!(needs_self_kick(1, &vec![2, 3], &vec![Deported, NotFound]), false);
}

#[test]
fn runs_are_summed_up() {
    assert_eq!(
        common_red_alert(1, &vec![], vec![], Some(NotFound)),
        CommonRedAlertResult::Empty { auto_self_kick_result: NotFound }
    );
    assert_eq!(
        common_red_alert(1, &vec![1], vec![Deported], None),
        CommonRedAlertResult::SingleSuccess { is_self_kick: true }
    );
    assert_eq!(
        common_red_alert(1, &vec![2], vec![NotFound], Some(Deported)),
        CommonRedAlertResult::SingleNotFound { auto_self_kick_result: Some(Deported) }
    );
    assert_eq!(
        common_red_alert(1, &vec![1], vec![NotFound], None),
        CommonRedAlertResult::SingleNotFound { auto_self_kick_result: None }
    );
    assert_eq!(
        common_red_alert(1, &vec![2], vec![Error("e".to_string())], None),
        CommonRedAlertResult::SingleError { error: "e".to_string(), is_self_kick_try: false }
    );
    assert_eq!(
        common_red_alert(1, &vec![2, 3], vec![NotFound, NotFound], Some(Error("x".to_string()))),
        CommonRedAlertResult::Mass {
            results: vec![NotFound, NotFound],
            auto_self_kick_result: Some(Error("x".to_string())),
        }
    );
}

#[test]
fn every_attempt_is_logged() {
    assert_eq!(
        history_entries(1, &vec![], &vec![], &Some(Deported)),
        vec![RedAlertActionType::Text { author_id: 1, target_id: 1, is_success: true }]
    );
    assert_eq!(
        history_entries(1, &vec![2, 3], &vec![Deported, NotFound], &None),
        vec![
            RedAlertActionType::Text { author_id: 1, target_id: 2, is_success: true },
            RedAlertActionType::Text { author_id: 1, target_id: 3, is_success: false },
        ]
    );
    assert_eq!(
        history_entries(1, &vec![2], &vec![NotFound], &Some(NotFound)),
        vec![
            RedAlertActionType::Text { author_id: 1, target_id: 2, is_success: false },
            RedAlertActionType::Text { author_id: 1, target_id: 1, is_success: false },
        ]
    );
}

#[test]
fn single_pass_search() {
    assert_eq!(vec![1, 2, 3, 4].is_sub(&vec![2, 3]), true);
    assert_eq!(vec![1, 2, 3, 4].is_sub(&vec![4]), true);
    assert_eq!(vec![1, 2, 3, 4].is_sub(&vec![3, 2]), false);
    assert_eq!(vec![1, 2, 3, 4].is_sub(&vec![]), false);
    assert_eq!(Vec::<u8>::new().is_sub(&vec![1]), false);
    assert_eq!(vec![1, 1, 2].is_sub(&vec![1, 2]), false);
    assert_eq!(vec![1, 3, 1, 2].is_sub(&vec![1, 2]), true);
}

#[test]
fn users_are_read_from_mentions_and_ids() {
    assert_eq!(user_of("<@123>"), Some(123));
    assert_eq!(user_of("<@!456>"), Some(456));
    assert_eq!(user_of("789"), Some(789));
    assert_eq!(user_of("<#5>"), None);
    assert_eq!(user_of("<@&5>"), None);
    assert_eq!(user_of("<:smile:42>"), None);
    assert_eq!(user_of("вася"), None);
    assert_eq!(user_of("<@!é"), None);
    assert_eq!(user_of(""), None);
    assert_eq!(user_of("18446744073709551616"), None);
    assert_eq!(user_of("18446744073709551615"), Some(u64::MAX));
}

#[test]
fn channels_are_read_from_mentions_and_ids() {
    assert_eq!(channel_of("<#77>"), Some(77));
    assert_eq!(channel_of("77"), Some(77));
    assert_eq!(channel_of("<@77>"), None);
    assert_eq!(channel_of("<#x>"), None);
    assert_eq!(mentioned("<#77>"), Some(Mentioned::Channel(77)));
    assert_eq!(mentioned("<@&3>"), Some(Mentioned::Role(3)));
    assert_eq!(mentioned("<a:wave:9>"), Some(Mentioned::Emoji));
    assert_eq!(mentioned("77"), None);
}

#[test]
fn arguments_that_name_nobody_are_passed_over() {
    assert_eq!(users_of(&strings(&["<@1>", "кто", "2", "<#3>", "<@!4>"])), vec![1, 2, 4]);
    assert_eq!(users_of(&Vec::new()), Vec::<u64>::new());
}

#[test]
fn keys_come_out_once_each() {
    let mut map: HashMap<u32, &str> = HashMap::new();
    map.insert(3, "c");
    map.insert(1, "a");
    map.insert(2, "b");
    let mut keys = keys_u32(&map);
    keys.sort();
    assert_eq!(keys, vec![1, 2, 3]);
    let wide: HashMap<u64, ()> = HashMap::new();
    assert_eq!(keys_u64(&wide), Vec::<u64>::new());
    assert_eq!(chars_of("код"), vec!['к', 'о', 'д']);
}

#[test]
fn numbers_are_read_as_the_standard_parser_reads_them() {
    assert_eq!(parse_number("+5"), Some(5));
    assert_eq!(parse_number("007"), Some(7));
    assert_eq!(parse_number("0"), Some(0));
    assert_eq!(parse_number("18446744073709551615"), Some(u64::MAX));
    for text in [
        "", "+", "++1", "+-1", "-1", "5a", "a5", " 5", "5 ", "１２", "1_000", "0x10", "1e3",
        "18446744073709551616", "99999999999999999999999", "+18446744073709551615", "42",
    ] {
        assert_eq!(parse_number(text), text.parse::<u64>().ok());
    }
}

#[test]
fn white_space_is_what_the_standard_library_says() {
    let mut count = 0;
    for code in 0..=0x10FFFFu32 {
        if let Some(c) = char::from_u32(code) {
            assert_eq!(is_whitespace(c), c.is_whitespace(), "U+{:04X}", code);
            if is_whitespace(c) {
                count += 1;
            }
        }
    }
    assert_eq!(count, 25);
}
