//! Command arguments that name a user or a channel, as a mention or as a
//! bare id.

use vstd::prelude::*;
use vstd::string::*;
use vstd::utf8::is_ascii_chars;
use serenity::model::mention::Mention;
use std::str::FromStr;
use crate::text::{chars_of, strings_view};

verus! {

/// What a mention names.
#[derive(Debug, Clone, Copy, PartialEq, Eq, Structural)]
pub enum Mentioned {
    Channel(u64),
    Role(u64),
    User(u64),
    Emoji,
}

/// What `Mention::from_str` reads out of `text`: what the mention names, or
/// `None` where `text` is no mention.
pub uninterp spec fn mention_of(text: Seq<char>) -> Option<Mentioned>;

/// Whether `c` is a decimal digit.
pub open spec fn is_digit(c: char) -> bool {
    '0' <= c <= '9'
}

/// The number that the decimal digits `digits` write.
pub open spec fn decimal(digits: Seq<char>) -> nat
    decreases digits.len(),
{
    if digits.len() == 0 {
        0
    } else {
        decimal(digits.drop_last()) * 10 + (digits.last() as nat - '0' as nat) as nat
    }
}

/// The digits of `text`: all of it but a plus sign in front.
pub open spec fn digits_of(text: Seq<char>) -> Seq<char> {
    if text.len() > 0 && text[0] == '+' {
        text.drop_first()
    } else {
        text
    }
}

/// The number that `text` writes: one or more decimal digits, with or
/// without a plus sign in front, that write a number of 64 bits. Anything
/// else writes no number.
pub open spec fn number_of(text: Seq<char>) -> Option<u64> {
    let digits = digits_of(text);
    if digits.len() > 0 && (forall|i: int| 0 <= i < digits.len() ==> is_digit(#[trigger] digits[i]))
        && decimal(digits) <= u64::MAX {
        Some(decimal(digits) as u64)
    } else {
        None
    }
}

/// A number only grows with every digit that is written behind it.
pub proof fn lemma_decimal_grows(digits: Seq<char>, k: int)
    requires
        0 <= k <= digits.len(),
        forall|i: int| 0 <= i < digits.len() ==> is_digit(#[trigger] digits[i]),
    ensures
        decimal(digits.take(k)) <= decimal(digits),
    decreases digits.len() - k,
{
    if k < digits.len() {
        lemma_decimal_grows(digits, k + 1);
        assert(digits.take(k + 1).drop_last() =~= digits.take(k));
        assert(is_digit(digits[k]));
    } else {
        assert(digits.take(k) =~= digits);
    }
}

/// `Mention::from_str` of serenity: reads `text` as a mention of a channel,
/// a role, a user or an emoji. The parser cuts `text` at fixed byte
/// positions, which only ASCII text is sure to take; the result depends on
/// the text alone.
#[verifier::external_body]
fn parse_mention(text: &str) -> (mention: Option<Mentioned>)
    requires
        is_ascii(text),
    ensures
        mention == mention_of(text@),
{
    match Mention::from_str(text) {
        Ok(Mention::Channel(id)) => Some(Mentioned::Channel(id.0)),
        Ok(Mention::Role(id)) => Some(Mentioned::Role(id.0)),
        Ok(Mention::User(id)) => Some(Mentioned::User(id.0)),
        Ok(Mention::Emoji(_, _)) => Some(Mentioned::Emoji),
        Err(_) => None,
    }
}

/// Reads `text` as a decimal number of 64 bits.
pub fn parse_number(text: &str) -> (number: Option<u64>)
    ensures
        number == number_of(text@),
{
    let chars = chars_of(text);
    let start: usize = if chars.len() > 0 && chars[0] == '+' {
        1
    } else {
        0
    };
    let ghost digits = digits_of(text@);
    assert(digits =~= chars@.skip(start as int));
    if start == chars.len() {
        return None;
    }
    let mut number: u64 = 0;
    let mut i: usize = start;
    assert(digits.take(0) =~= Seq::<char>::empty());
    while i < chars.len()
        invariant
            start <= i <= chars.len(),
            start <= 1,
            chars@ == text@,
            digits == chars@.skip(start as int),
            digits == digits_of(text@),
            digits.len() > 0,
            forall|k: int| 0 <= k < i - start ==> is_digit(#[trigger] digits[k]),
            number == decimal(digits.take(i - start)),
        decreases chars.len() - i,
    {
        let c = chars[i];
        assert(digits[i - start] == c);
        if !('0' <= c && c <= '9') {
            return None;
        }
        let digit: u64 = (c as u32 - '0' as u32) as u64;
        proof {
            assert(digits.take(i - start + 1).drop_last() =~= digits.take(i - start));
            assert(digits.take(i - start + 1).last() == c);
        }
        let grown = match number.checked_mul(10) {
            Some(tenfold) => tenfold.checked_add(digit),
            None => None,
        };
        match grown {
            Some(grown) => {
                number = grown;
            },
            None => {
                proof {
                    let written = digits.take(i - start + 1);
                    assert(decimal(written) > u64::MAX);
                    if forall|k: int| 0 <= k < digits.len() ==> is_digit(#[trigger] digits[k]) {
                        lemma_decimal_grows(digits, i - start + 1);
                    }
                }
                return None;
            },
        }
        i = i + 1;
    }
    assert(digits.take(digits.len() as int) =~= digits);
    Some(number)
}

/// What `text` names when it is read as a mention first and as a bare id
/// otherwise. Text that is not ASCII names nothing.
pub open spec fn named(text: Seq<char>) -> Option<Mentioned> {
    if !is_ascii_chars(text) {
        None
    } else {
        mention_of(text)
    }
}

/// The user that `text` names: the user of a user mention, or the bare id
/// where `text` is no mention at all.
pub open spec fn user_named(text: Seq<char>) -> Option<u64> {
    match named(text) {
        Some(Mentioned::User(id)) => Some(id),
        Some(_) => None,
        None => number_of(text),
    }
}

/// The channel that `text` names: the channel of a channel mention, or the
/// bare id where `text` is no mention at all.
pub open spec fn channel_named(text: Seq<char>) -> Option<u64> {
    match named(text) {
        Some(Mentioned::Channel(id)) => Some(id),
        Some(_) => None,
        None => number_of(text),
    }
}

/// Reads `text` as a mention.
pub fn mentioned(text: &str) -> (mention: Option<Mentioned>)
    ensures
        mention == named(text@),
{
    if text.is_ascii() {
        parse_mention(text)
    } else {
        None
    }
}

/// Reads a user out of a mention or a bare id.
pub fn user_of(text: &str) -> (user: Option<u64>)
    ensures
        user == user_named(text@),
{
    match mentioned(text) {
        Some(Mentioned::User(id)) => Some(id),
        Some(_) => None,
        None => parse_number(text),
    }
}

/// Reads a channel out of a mention or a bare id.
pub fn channel_of(text: &str) -> (channel: Option<u64>)
    ensures
        channel == channel_named(text@),
{
    match mentioned(text) {
        Some(Mentioned::Channel(id)) => Some(id),
        Some(_) => None,
        None => parse_number(text),
    }
}

/// The users that the arguments name, in order; arguments that name no user
/// are passed over.
pub open spec fn users_named(args: Seq<Seq<char>>) -> Seq<u64>
    decreases args.len(),
{
    if args.len() == 0 {
        Seq::empty()
    } else {
        match user_named(args.last()) {
            Some(user) => users_named(args.drop_last()).push(user),
            None => users_named(args.drop_last()),
        }
    }
}

/// Reads the users that the arguments name.
pub fn users_of(args: &Vec<String>) -> (users: Vec<u64>)
    ensures
        users@ == users_named(strings_view(args@)),
{
    let ghost all = strings_view(args@);
    let mut users: Vec<u64> = Vec::new();
    let mut i: usize = 0;
    assert(all.take(0) =~= Seq::<Seq<char>>::empty());
    while i < args.len()
        invariant
            i <= args.len(),
            all == strings_view(args@),
            users@ == users_named(all.take(i as int)),
        decreases args.len() - i,
    {
        proof {
            let now = all.take(i + 1);
            assert(now.drop_last() =~= all.take(i as int));
            assert(now.last() == args[i as int]@);
        }
        match user_of(args[i].as_str()) {
            Some(user) => users.push(user),
            None => {},
        }
        i = i + 1;
    }
    assert(all.take(args.len() as int) =~= all);
    users
}

} // verus!
