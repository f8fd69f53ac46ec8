//! Text commands: how a message is cut into arguments and which command it
//! is meant for.

use vstd::prelude::*;
use vstd::string::*;
use crate::text::{chars_of, strings_view};

verus! {

/// What the help command says about a command.
#[derive(Debug, Clone, PartialEq)]
pub struct HelpInfo {
    pub header_suffix: Option<String>,
    pub description: String,
}

/// A command that answers with a fixed text.
#[derive(Debug, Clone, PartialEq)]
pub struct PrintTextCommand {
    pub prefix_anchor: String,
    pub help_info: Option<HelpInfo>,
    pub text: String,
}

impl HelpInfo {
    /// A copy of this entry.
    pub fn cloned(&self) -> (copy: HelpInfo)
        ensures
            copy.description@ == self.description@,
            copy.header_suffix is Some == self.header_suffix is Some,
            self.header_suffix is Some ==> copy.header_suffix->0@ == self.header_suffix->0@,
    {
        HelpInfo {
            header_suffix: match &self.header_suffix {
                Some(suffix) => Some(suffix.clone()),
                None => None,
            },
            description: self.description.clone(),
        }
    }
}

impl PrintTextCommand {
    /// The words a message starts with when it is meant for this command.
    pub fn prefix_anchor(&self) -> (anchor: String)
        ensures
            anchor@ == self.prefix_anchor@,
    {
        self.prefix_anchor.clone()
    }

    /// What the help command says about this command, if anything.
    pub fn help_info(&self) -> (info: Option<HelpInfo>)
        ensures
            info is Some == self.help_info is Some,
            self.help_info matches Some(own) ==> {
                &&& info->0.description@ == own.description@
                &&& info->0.header_suffix is Some == own.header_suffix is Some
                &&& own.header_suffix is Some ==> info->0.header_suffix->0@
                    == own.header_suffix->0@
            },
    {
        match &self.help_info {
            Some(info) => Some(info.cloned()),
            None => None,
        }
    }
}

/// Whether `c` has the Unicode property White_Space: the controls from tab
/// to carriage return, the space, next line, the no-break space, the ogham
/// space mark, the spaces from en quad to hair space, the line and the
/// paragraph separator, the narrow no-break space, the medium mathematical
/// space and the ideographic space.
pub open spec fn whitespace(c: char) -> bool {
    ||| '\u{9}' <= c <= '\u{D}'
    ||| c == '\u{20}'
    ||| c == '\u{85}'
    ||| c == '\u{A0}'
    ||| c == '\u{1680}'
    ||| '\u{2000}' <= c <= '\u{200A}'
    ||| c == '\u{2028}'
    ||| c == '\u{2029}'
    ||| c == '\u{202F}'
    ||| c == '\u{205F}'
    ||| c == '\u{3000}'
}

/// `text` in lower case, as `str::to_lowercase` makes it.
pub uninterp spec fn lowercased(text: Seq<char>) -> Seq<char>;

/// Whether `c` has the Unicode property White_Space.
pub fn is_whitespace(c: char) -> (white: bool)
    ensures
        white == whitespace(c),
{
    ('\u{9}' <= c && c <= '\u{D}') || c == '\u{20}' || c == '\u{85}' || c == '\u{A0}' || c
        == '\u{1680}' || ('\u{2000}' <= c && c <= '\u{200A}') || c == '\u{2028}' || c
        == '\u{2029}' || c == '\u{202F}' || c == '\u{205F}' || c == '\u{3000}'
}

/// `str::to_lowercase`: the lower-case equivalent of `text`. The result
/// depends on the text alone.
#[verifier::external_body]
fn to_lowercase(text: &str) -> (lower: String)
    ensures
        lower@ == lowercased(text@),
{
    text.to_lowercase()
}

/// The first position at or after `i` that holds whitespace, or the end.
pub open spec fn first_white(s: Seq<char>, i: int) -> int
    decreases s.len() - i,
{
    if 0 <= i < s.len() && !whitespace(s[i]) {
        first_white(s, i + 1)
    } else {
        i
    }
}

/// The pieces of `s` from `i` on when it is cut at every whitespace
/// character; neighbouring whitespace characters have an empty piece
/// between them.
pub open spec fn pieces_from(s: Seq<char>, i: int) -> Seq<Seq<char>>
    decreases s.len() - i,
{
    let end = first_white(s, i);
    if 0 <= i <= end < s.len() {
        seq![s.subrange(i, end)] + pieces_from(s, end + 1)
    } else {
        seq![s.subrange(i, s.len() as int)]
    }
}

/// Each of `pieces` in lower case.
pub open spec fn lowered(pieces: Seq<Seq<char>>) -> Seq<Seq<char>> {
    pieces.map_values(|piece: Seq<char>| lowercased(piece))
}

/// The arguments of a message: its pieces, each in lower case.
pub open spec fn args_of(s: Seq<char>) -> Seq<Seq<char>> {
    lowered(pieces_from(s, 0))
}

/// Cuts `string` at every whitespace character and puts each piece in lower
/// case.
pub fn args(string: &str) -> (out: Vec<String>)
    ensures
        strings_view(out@) == args_of(string@),
{
    let chars = chars_of(string);
    let n = chars.len();
    let mut out: Vec<String> = Vec::new();
    let mut start: usize = 0;
    let mut i: usize = 0;
    let ghost mut cut: Seq<Seq<char>> = Seq::empty();
    assert(cut + pieces_from(chars@, 0) =~= pieces_from(chars@, 0));
    assert(strings_view(out@) =~= lowered(cut));
    loop
        invariant_except_break
            chars@ == string@,
            n == chars@.len(),
            start <= i <= n,
            first_white(chars@, start as int) == first_white(chars@, i as int),
            cut + pieces_from(chars@, start as int) == pieces_from(chars@, 0),
            strings_view(out@) == lowered(cut),
        ensures
            strings_view(out@) == args_of(string@),
        decreases n - i,
    {
        if i < n && !is_whitespace(chars[i]) {
            i = i + 1;
        } else {
            let piece = to_lowercase(string.substring_char(start, i));
            let ghost raw = chars@.subrange(start as int, i as int);
            let ghost before = strings_view(out@);
            out.push(piece);
            proof {
                assert(strings_view(out@) =~= before.push(piece@));
                assert(lowered(cut.push(raw)) =~= lowered(cut).push(
                    lowercased(raw),
                ));
            }
            if i == n {
                proof {
                    assert(pieces_from(chars@, start as int) =~= seq![raw]);
                    assert(cut.push(raw) =~= cut + seq![raw]);
                }
                break ;
            }
            proof {
                assert(pieces_from(chars@, start as int) =~= seq![raw] + pieces_from(
                    chars@,
                    i + 1,
                ));
                assert(cut.push(raw) + pieces_from(chars@, i + 1) =~= cut + (seq![raw]
                    + pieces_from(chars@, i + 1)));
                cut = cut.push(raw);
            }
            i = i + 1;
            start = i;
        }
    }
    out
}

/// Whether `content` starts with the words `prefix`.
pub open spec fn is_prefix(prefix: Seq<Seq<char>>, content: Seq<Seq<char>>) -> bool {
    prefix.len() <= content.len() && content.take(prefix.len() as int) == prefix
}

/// The prefixes as sequences of words.
pub open spec fn prefixes_view(prefixes: Seq<Vec<String>>) -> Seq<Seq<Seq<char>>> {
    prefixes.map_values(|prefix: Vec<String>| strings_view(prefix@))
}

/// Whether the command at place `chosen` is the one a message with the
/// arguments `content` is meant for: its prefix starts the message, no
/// command with a longer prefix does, and among those with a prefix of the
/// same length it comes first.
pub open spec fn routed_to(prefixes: Seq<Seq<Seq<char>>>, content: Seq<Seq<char>>, chosen: int)
    -> bool {
    &&& 0 <= chosen < prefixes.len()
    &&& is_prefix(prefixes[chosen], content)
    &&& forall|other: int|
        0 <= other < prefixes.len() && is_prefix(#[trigger] prefixes[other], content) ==> {
            ||| prefixes[other].len() < prefixes[chosen].len()
            ||| prefixes[other].len() == prefixes[chosen].len() && chosen <= other
        }
}

/// Whether `content` starts with the words `prefix`.
pub fn starts_with(content: &Vec<String>, prefix: &Vec<String>) -> (starts: bool)
    ensures
        starts == is_prefix(strings_view(prefix@), strings_view(content@)),
{
    if prefix.len() > content.len() {
        return false;
    }
    let ghost wanted = strings_view(prefix@);
    let ghost given = strings_view(content@);
    let mut i: usize = 0;
    while i < prefix.len()
        invariant
            i <= prefix.len(),
            prefix.len() <= content.len(),
            wanted == strings_view(prefix@),
            given == strings_view(content@),
            forall|k: int| 0 <= k < i ==> given[k] == wanted[k],
        decreases prefix.len() - i,
    {
        if !(content[i] == prefix[i]) {
            assert(given.take(wanted.len() as int)[i as int] != wanted[i as int]);
            return false;
        }
        i = i + 1;
    }
    assert(given.take(wanted.len() as int) =~= wanted);
    true
}

/// Finds the command that a message with the arguments `content_args` is
/// meant for: the one with the longest prefix that starts the message, the
/// earliest of them if several are as long. What follows the prefix are the
/// command's own arguments.
pub fn route(content_args: &Vec<String>, prefixes: &Vec<Vec<String>>) -> (chosen: Option<usize>)
    ensures
        match chosen {
            Some(chosen) => routed_to(
                prefixes_view(prefixes@),
                strings_view(content_args@),
                chosen as int,
            ),
            None => forall|other: int|
                0 <= other < prefixes@.len() ==> !is_prefix(
                    #[trigger] prefixes_view(prefixes@)[other],
                    strings_view(content_args@),
                ),
        },
{
    let ghost all = prefixes_view(prefixes@);
    let ghost content = strings_view(content_args@);
    let mut chosen: Option<usize> = None;
    let mut i: usize = 0;
    while i < prefixes.len()
        invariant
            i <= prefixes.len(),
            all == prefixes_view(prefixes@),
            content == strings_view(content_args@),
            match chosen {
                Some(best) => {
                    &&& best < i
                    &&& is_prefix(all[best as int], content)
                    &&& forall|other: int|
                        0 <= other < i && is_prefix(#[trigger] all[other], content) ==> {
                            ||| all[other].len() < all[best as int].len()
                            ||| all[other].len() == all[best as int].len() && best <= other
                        }
                },
                None => forall|other: int|
                    0 <= other < i ==> !is_prefix(#[trigger] all[other], content),
            },
        decreases prefixes.len() - i,
    {
        assert(all[i as int] == strings_view(prefixes[i as int]@));
        if starts_with(content_args, &prefixes[i]) {
            let longer = match chosen {
                Some(best) => prefixes[i].len() > prefixes[best].len(),
                None => true,
            };
            if longer {
                chosen = Some(i);
            }
        }
        i = i + 1;
    }
    chosen
}

} // verus!
