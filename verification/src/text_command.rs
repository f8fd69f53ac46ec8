//! The text command that removes members from voice by name.

use vstd::prelude::*;
use crate::actions_history::RedAlertActionType;
use crate::handler::RedAlertDeportationResult;

verus! {

/// How the text command ended.
#[derive(Debug, Clone, PartialEq)]
pub enum CommonRedAlertResult {
    /// Nobody was named; the author was tried instead.
    Empty { auto_self_kick_result: RedAlertDeportationResult },
    /// The one member named was removed.
    SingleSuccess { is_self_kick: bool },
    /// The one member named is not in voice; the author was tried instead,
    /// unless it was the author who was named.
    SingleNotFound { auto_self_kick_result: Option<RedAlertDeportationResult> },
    /// Removing the one member named failed.
    SingleError { error: String, is_self_kick_try: bool },
    /// Several members were named; the author was tried instead if none of
    /// them is in voice and the author is not among them.
    Mass {
        results: Vec<RedAlertDeportationResult>,
        auto_self_kick_result: Option<RedAlertDeportationResult>,
    },
}

/// Whether every one of `results` says that the member is not in voice.
pub open spec fn none_found(results: Seq<RedAlertDeportationResult>) -> bool {
    forall|i: int| 0 <= i < results.len() ==> #[trigger] results[i] is NotFound
}

/// Whether the author is to be tried after the members named ended as
/// `results` say.
pub open spec fn self_kick_needed(
    author: u64,
    targets: Seq<u64>,
    results: Seq<RedAlertDeportationResult>,
) -> bool {
    if results.len() == 0 {
        true
    } else if results.len() == 1 {
        results[0] is NotFound && author != targets[0]
    } else {
        none_found(results) && !targets.contains(author)
    }
}

/// The history entries of one run of the command: one for every member
/// named, in order, and one for the author if the author was tried.
pub open spec fn text_entries(
    author: u64,
    targets: Seq<u64>,
    results: Seq<RedAlertDeportationResult>,
    auto_self_kick_result: Option<RedAlertDeportationResult>,
) -> Seq<RedAlertActionType> {
    let named = Seq::new(
        targets.len(),
        |i: int|
            RedAlertActionType::Text {
                author_id: author,
                target_id: targets[i],
                is_success: results[i] is Deported,
            },
    );
    match auto_self_kick_result {
        Some(result) => named.push(
            RedAlertActionType::Text {
                author_id: author,
                target_id: author,
                is_success: result is Deported,
            },
        ),
        None => named,
    }
}

/// Decides whether the author is to be tried, once the members named were.
pub fn needs_self_kick(
    author_user_id: u64,
    target_users_ids: &Vec<u64>,
    red_alert_results: &Vec<RedAlertDeportationResult>,
) -> (needed: bool)
    requires
        red_alert_results@.len() == target_users_ids@.len(),
    ensures
        needed == self_kick_needed(author_user_id, target_users_ids@, red_alert_results@),
{
    if red_alert_results.len() == 0 {
        return true;
    }
    if red_alert_results.len() == 1 {
        return red_alert_results[0].is_not_found() && author_user_id != target_users_ids[0];
    }
    let mut i: usize = 0;
    while i < red_alert_results.len()
        invariant
            i <= red_alert_results.len(),
            red_alert_results@.len() == target_users_ids@.len(),
            forall|k: int| 0 <= k < i ==> #[trigger] red_alert_results@[k] is NotFound,
            forall|k: int| 0 <= k < i ==> target_users_ids@[k] != author_user_id,
        decreases red_alert_results.len() - i,
    {
        if !red_alert_results[i].is_not_found() {
            return false;
        }
        if target_users_ids[i] == author_user_id {
            return false;
        }
        i = i + 1;
    }
    true
}

/// Sums one run of the command up.
///
/// `red_alert_results` says how each member named ended, and
/// `auto_self_kick_result` how the author ended, if the author had to be
/// tried.
pub fn common_red_alert(
    author_user_id: u64,
    target_users_ids: &Vec<u64>,
    red_alert_results: Vec<RedAlertDeportationResult>,
    auto_self_kick_result: Option<RedAlertDeportationResult>,
) -> (summary: CommonRedAlertResult)
    requires
        red_alert_results@.len() == target_users_ids@.len(),
        auto_self_kick_result is Some == self_kick_needed(
            author_user_id,
            target_users_ids@,
            red_alert_results@,
        ),
    ensures
        red_alert_results@.len() == 0 ==> summary == (CommonRedAlertResult::Empty {
            auto_self_kick_result: auto_self_kick_result->0,
        }),
        red_alert_results@.len() == 1 ==> summary == match red_alert_results@[0] {
            RedAlertDeportationResult::Deported => CommonRedAlertResult::SingleSuccess {
                is_self_kick: author_user_id == target_users_ids@[0],
            },
            RedAlertDeportationResult::NotFound => CommonRedAlertResult::SingleNotFound {
                auto_self_kick_result,
            },
            RedAlertDeportationResult::Error(error) => CommonRedAlertResult::SingleError {
                error,
                is_self_kick_try: author_user_id == target_users_ids@[0],
            },
        },
        red_alert_results@.len() > 1 ==> summary == (CommonRedAlertResult::Mass {
            results: red_alert_results,
            auto_self_kick_result,
        }),
{
    let mut red_alert_results = red_alert_results;
    if red_alert_results.len() == 0 {
        match auto_self_kick_result {
            Some(result) => CommonRedAlertResult::Empty { auto_self_kick_result: result },
            None => vstd::pervasive::unreached(),
        }
    } else if red_alert_results.len() == 1 {
        let is_self_kick = author_user_id == target_users_ids[0];
        match red_alert_results.remove(0) {
            RedAlertDeportationResult::Deported => CommonRedAlertResult::SingleSuccess {
                is_self_kick,
            },
            RedAlertDeportationResult::NotFound => CommonRedAlertResult::SingleNotFound {
                auto_self_kick_result,
            },
            RedAlertDeportationResult::Error(error) => CommonRedAlertResult::SingleError {
                error,
                is_self_kick_try: is_self_kick,
            },
        }
    } else {
        CommonRedAlertResult::Mass { results: red_alert_results, auto_self_kick_result }
    }
}

/// The history entries of one run of the command.
pub fn history_entries(
    author_user_id: u64,
    target_users_ids: &Vec<u64>,
    red_alert_results: &Vec<RedAlertDeportationResult>,
    auto_self_kick_result: &Option<RedAlertDeportationResult>,
) -> (entries: Vec<RedAlertActionType>)
    requires
        red_alert_results@.len() == target_users_ids@.len(),
    ensures
        entries@ == text_entries(
            author_user_id,
            target_users_ids@,
            red_alert_results@,
            *auto_self_kick_result,
        ),
{
    let ghost wanted = text_entries(author_user_id, target_users_ids@, red_alert_results@, None);
    let mut entries: Vec<RedAlertActionType> = Vec::new();
    let mut i: usize = 0;
    while i < target_users_ids.len()
        invariant
            i <= target_users_ids.len(),
            red_alert_results@.len() == target_users_ids@.len(),
            wanted == text_entries(author_user_id, target_users_ids@, red_alert_results@, None),
            entries@ == wanted.take(i as int),
        decreases target_users_ids.len() - i,
    {
        entries.push(
            RedAlertActionType::Text {
                author_id: author_user_id,
                target_id: target_users_ids[i],
                is_success: red_alert_results[i].is_deported(),
            },
        );
        assert(entries@ =~= wanted.take(i + 1));
        i = i + 1;
    }
    assert(wanted.take(target_users_ids.len() as int) =~= wanted);
    match auto_self_kick_result {
        Some(result) => {
            entries.push(
                RedAlertActionType::Text {
                    author_id: author_user_id,
                    target_id: author_user_id,
                    is_success: result.is_deported(),
                },
            );
        },
        None => {},
    }
    entries
}

} // verus!
