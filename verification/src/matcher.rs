//! The boundary to the `regex` crate.
//!
//! The regular expression engine is not verified here. This module holds
//! everything that the rest of the crate assumes of it: the named results,
//! one type declaration and the functions that make the calls. All other
//! modules reason about regular expressions through these items only.

use regex::{Regex, RegexBuilder};
use vstd::prelude::*;

use crate::text::opt_view;

verus! {

/// The error of the `regex` crate for a pattern that does not compile.
#[verifier::external_type_specification]
#[verifier::external_body]
pub struct ExRegexError(regex::Error);

/// One capture group of a successful match.
#[derive(Debug, Clone)]
pub struct CaptureGroup {
    /// The name of the group, if it has one.
    pub name: Option<String>,
    /// What the group matched. `None` for an unnamed group and for a group
    /// that took no part in the match.
    pub text: Option<String>,
}

/// The mathematical content of a [`CaptureGroup`].
pub ghost struct Capture {
    pub name: Option<Seq<char>>,
    pub text: Option<Seq<char>>,
}

impl View for CaptureGroup {
    type V = Capture;

    open spec fn view(&self) -> Capture {
        Capture { name: opt_view(self.name), text: opt_view(self.text) }
    }
}

/// The contents of a list of capture groups.
pub open spec fn captures_view(groups: Option<Vec<CaptureGroup>>) -> Option<Seq<Capture>> {
    match groups {
        Some(groups) => Some(groups@.map_values(|g: CaptureGroup| g@)),
        None => None,
    }
}

/// Whether `source` compiles as a regular expression that ignores case if
/// `ignore_case` is set: whether `RegexBuilder::build` succeeds on it.
pub uninterp spec fn regex_compiles(source: Seq<char>, ignore_case: bool) -> bool;

/// What `Regex::captures` finds in `text` for the regular expression
/// `source`, which ignores case if `ignore_case` is set. `None` when nothing
/// in `text` matches. Otherwise the capture groups of the leftmost match, one
/// entry for each group of the expression in the order of
/// `Regex::capture_names`, each with its name and, for a named group, with
/// what `Captures::name` returns for it.
pub uninterp spec fn regex_captures(source: Seq<char>, ignore_case: bool, text: Seq<char>) -> Option<
    Seq<Capture>,
>;

/// Compiles `source` with `RegexBuilder::new`, `case_insensitive(ignore_case)`
/// and `build`, searches `text` with `Regex::captures`, and lists the groups
/// of `Regex::capture_names` with the text that `Captures::name` gives for
/// each.
///
/// Trusted: the result is an error exactly when the expression does not
/// compile, and otherwise it is the named result [`regex_captures`]. Nothing
/// more is assumed of the engine.
#[verifier::external_body]
pub(crate) fn search(source: &str, ignore_case: bool, text: &str) -> (found: Result<
    Option<Vec<CaptureGroup>>,
    regex::Error,
>)
    ensures
        found is Ok <==> regex_compiles(source@, ignore_case),
        found matches Ok(groups) ==> captures_view(groups) == regex_captures(
            source@,
            ignore_case,
            text@,
        ),
{
    let regex = RegexBuilder::new(source).case_insensitive(ignore_case).build()?;
    Ok(regex.captures(text).map(|found| {
        regex.capture_names()
            .map(|name| CaptureGroup {
                name: name.map(|n| n.to_string()),
                text: name.and_then(|n| found.name(n)).map(|m| m.as_str().to_string()),
            })
            .collect()
    }))
}

/// The characters that have a meaning in a regular expression.
pub open spec fn is_meta_character(c: char) -> bool {
    ||| c == '\\'
    ||| c == '.'
    ||| c == '+'
    ||| c == '*'
    ||| c == '?'
    ||| c == '('
    ||| c == ')'
    ||| c == '|'
    ||| c == '['
    ||| c == ']'
    ||| c == '{'
    ||| c == '}'
    ||| c == '^'
    ||| c == '$'
    ||| c == '#'
    ||| c == '&'
    ||| c == '-'
    ||| c == '~'
}

/// One character as literal text of a regular expression: a meta character
/// is preceded by a backslash.
pub open spec fn escaped_char(c: char) -> Seq<char> {
    if is_meta_character(c) {
        seq!['\\', c]
    } else {
        seq![c]
    }
}

/// `text` as literal text of a regular expression.
pub open spec fn escaped(text: Seq<char>) -> Seq<char>
    decreases text.len(),
{
    if text.len() == 0 {
        Seq::empty()
    } else {
        escaped(text.drop_last()) + escaped_char(text.last())
    }
}

/// Calls `regex::escape`.
///
/// Trusted: the result is `text` with a backslash before each meta character.
#[verifier::external_body]
pub(crate) fn escape(text: &str) -> (literal: String)
    ensures
        literal@ == escaped(text@),
{
    regex::escape(text)
}

/// Whether `pattern` compiles as a regular expression with the default
/// settings: whether `Regex::new` succeeds on it.
pub uninterp spec fn regex_is_valid(pattern: Seq<char>) -> bool;

/// Whether the regular expression `pattern`, with the default settings,
/// matches somewhere in `text`: what `Regex::is_match` returns.
pub uninterp spec fn regex_is_match(pattern: Seq<char>, text: Seq<char>) -> bool;

/// Compiles `pattern` with `Regex::new` and asks `Regex::is_match` for `text`.
///
/// Trusted: the result is an error exactly when the expression does not
/// compile, and otherwise it is the named result [`regex_is_match`].
#[verifier::external_body]
pub(crate) fn is_match(pattern: &str, text: &str) -> (found: Result<bool, regex::Error>)
    ensures
        found is Ok <==> regex_is_valid(pattern@),
        found matches Ok(matched) ==> matched == regex_is_match(pattern@, text@),
{
    Regex::new(pattern).map(|regex| regex.is_match(text))
}

} // verus!
