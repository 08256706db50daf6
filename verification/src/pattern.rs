//! Regular expressions, through the `regex` crate: compiling, escaping,
//! splitting a text at matches, listing matches and reading capture groups.
use vstd::prelude::*;

use crate::text::views;

verus! {

#[verifier::external_type_specification]
#[verifier::external_body]
pub struct ExRegex(regex::Regex);

/// Whether `regex::Regex::new` accepts the pattern.
pub uninterp spec fn regex_compiles(pattern: Seq<char>) -> bool;

/// The pieces of `text` between the matches of `pattern`, in order
/// (`Regex::split`).
pub uninterp spec fn regex_split_pieces(pattern: Seq<char>, text: Seq<char>) -> Seq<Seq<char>>;

/// The successive non-overlapping matches of `pattern` in `text`
/// (`Regex::find_iter`).
pub uninterp spec fn regex_found(pattern: Seq<char>, text: Seq<char>) -> Seq<Seq<char>>;

/// The capture groups of the leftmost match of `pattern` in `text`, group 0
/// (the whole match) first; a group that took no part is `None`
/// (`Regex::captures`). `None` when nothing matches.
pub uninterp spec fn regex_capture_groups(pattern: Seq<char>, text: Seq<char>) -> Option<
    Seq<Option<Seq<char>>>,
>;

/// A compiled regular expression together with its source.
pub struct CompiledPattern {
    regex: regex::Regex,
    source: String,
}

impl CompiledPattern {
    /// The pattern the expression was compiled from.
    pub closed spec fn source(self) -> Seq<char> {
        self.source@
    }
}

/// Compiles a pattern (`regex::Regex::new`); `None` when the pattern is
/// rejected. The compiled expression remembers its source.
#[verifier::external_body]
pub(crate) fn compile(pattern: &str) -> (res: Option<CompiledPattern>)
    ensures
        res is Some <==> regex_compiles(pattern@),
        res matches Some(c) ==> c.source() == pattern@,
{
    regex::Regex::new(pattern).ok().map(|regex| CompiledPattern { regex, source: pattern.to_string() })
}

/// Splits `text` at the matches of the expression (`Regex::split`).
#[verifier::external_body]
pub(crate) fn split_at_matches(re: &CompiledPattern, text: &str) -> (res: Vec<String>)
    ensures
        views(res@) == regex_split_pieces(re.source(), text@),
{
    re.regex.split(text).map(|piece| piece.to_string()).collect()
}

/// The matched texts of the expression in `text`, left to right
/// (`Regex::find_iter`).
#[verifier::external_body]
pub(crate) fn find_matches(re: &CompiledPattern, text: &str) -> (res: Vec<String>)
    ensures
        views(res@) == regex_found(re.source(), text@),
{
    re.regex.find_iter(text).map(|found| found.as_str().to_string()).collect()
}

/// The character views of optional capture groups.
pub open spec fn groups_view(g: Seq<Option<String>>) -> Seq<Option<Seq<char>>> {
    g.map_values(
        |o: Option<String>|
            match o {
                Some(s) => Some(s@),
                None => None,
            },
    )
}

/// The capture groups of the leftmost match (`Regex::captures`).
#[verifier::external_body]
pub(crate) fn capture_groups(re: &CompiledPattern, text: &str) -> (res: Option<Vec<Option<String>>>)
    ensures
        match res {
            Some(g) => regex_capture_groups(re.source(), text@) == Some(groups_view(g@)),
            None => regex_capture_groups(re.source(), text@) is None,
        },
{
    re.regex.captures(text).map(
        |caps| caps.iter().map(|group| group.map(|m| m.as_str().to_string())).collect(),
    )
}

/// The characters that `regex::escape` prefixes with a backslash.
pub open spec fn is_meta_character(c: char) -> bool {
    c == '\\' || c == '.' || c == '+' || c == '*' || c == '?' || c == '(' || c == ')' || c == '|'
        || c == '[' || c == ']' || c == '{' || c == '}' || c == '^' || c == '$' || c == '#' || c
        == '&' || c == '-' || c == '~'
}

/// A text with every meta character prefixed by a backslash, so that it
/// matches itself literally.
pub open spec fn escaped(s: Seq<char>) -> Seq<char>
    decreases s.len(),
{
    if s.len() == 0 {
        seq![]
    } else if is_meta_character(s.last()) {
        escaped(s.drop_last()) + seq!['\\', s.last()]
    } else {
        escaped(s.drop_last()).push(s.last())
    }
}

/// Escapes the meta characters of a text (`regex::escape`).
#[verifier::external_body]
pub(crate) fn escape(text: &str) -> (res: String)
    ensures
        res@ == escaped(text@),
{
    regex::escape(text)
}

} // verus!
