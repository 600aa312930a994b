//! Line classification by regular expressions. Matching is done by the
//! `regex` crate; its outcomes are named here and the rest of the library
//! is stated over those names.

use vstd::prelude::*;
use crate::text::{chars_of, chars_contain, contains};

verus! {

/// A single-line comment, possibly indented.
pub const COMMENT_PATTERN: &'static str = "^\\s*//.*$";

/// An attribute annotation on a line of its own.
pub const ATTRIBUTE_PATTERN: &'static str = "^\\s*#\\[.+\\]$";

/// A line holding nothing but white space.
pub const BLANK_PATTERN: &'static str = "^\\s*$";

/// A module opener: `mod name` or `pub mod name`, optionally followed by `{`.
pub const OPENER_PATTERN: &'static str = "^\\s*(pub\\s+)?mod\\s+\\w+(\\s+\\{)?\\s*$";

/// A file-bound module declaration: `mod name;` or `pub mod name;`.
pub const DECLARATION_PATTERN: &'static str = "^\\s*(pub\\s+)?mod\\s+(?P<modname>\\w+)\\s*;\\s*$";

/// The capture group of `DECLARATION_PATTERN` that holds the module's name.
pub const NAME_GROUP: &'static str = "modname";

/// The substring that marks a module as test-only.
pub const TEST_MARK: &'static str = "tests";

/// Whether `regex::Regex::new` accepts `pattern`.
pub uninterp spec fn regex_compiles(pattern: Seq<char>) -> bool;

/// What `regex::Regex::is_match` answers for the compiled `pattern` on `text`.
pub uninterp spec fn regex_matches(pattern: Seq<char>, text: Seq<char>) -> bool;

/// What the compiled `pattern` captures in its group called `group` on `text`,
/// as `regex::Regex::captures` and `regex::Captures::name` report it.
pub uninterp spec fn regex_named_group(
    pattern: Seq<char>,
    text: Seq<char>,
    group: Seq<char>,
) -> Option<Seq<char>>;

/// Relies on `regex::Regex::new`: whether the pattern compiles.
#[verifier::external_body]
fn pattern_compiles(pattern: &str) -> (r: bool)
    ensures
        r == regex_compiles(pattern@),
{
    regex::Regex::new(pattern).is_ok()
}

/// Relies on `regex::Regex::new` and `regex::Regex::is_match`: whether `text`
/// matches the pattern.
#[verifier::external_body]
fn pattern_is_match(pattern: &str, text: &str) -> (r: bool)
    requires
        regex_compiles(pattern@),
    ensures
        r == regex_matches(pattern@, text@),
{
    match regex::Regex::new(pattern) {
        Ok(re) => re.is_match(text),
        Err(_) => false,
    }
}

/// Relies on `regex::Regex::new`, `regex::Regex::captures` and
/// `regex::Captures::name`: the text of a named group of the first match.
#[verifier::external_body]
fn pattern_named_group(pattern: &str, text: &str, group: &str) -> (r: Option<String>)
    requires
        regex_compiles(pattern@),
    ensures
        match r {
            Some(g) => regex_named_group(pattern@, text@, group@) == Some(g@),
            None => regex_named_group(pattern@, text@, group@) is None,
        },
{
    match regex::Regex::new(pattern) {
        Ok(re) => match re.captures(text) {
            Some(caps) => match caps.name(group) {
                Some(m) => Some(m.as_str().to_string()),
                None => None,
            },
            None => None,
        },
        Err(_) => None,
    }
}

/// Every pattern of the rules compiles.
pub open spec fn rules_compile() -> bool {
    regex_compiles(COMMENT_PATTERN@) && regex_compiles(ATTRIBUTE_PATTERN@)
        && regex_compiles(BLANK_PATTERN@) && regex_compiles(OPENER_PATTERN@)
        && regex_compiles(DECLARATION_PATTERN@)
}

/// The line is a single-line comment.
pub open spec fn is_comment(line: Seq<char>) -> bool {
    regex_matches(COMMENT_PATTERN@, line)
}

/// The line is an attribute annotation or blank: leading decoration of a block.
pub open spec fn is_decoration(line: Seq<char>) -> bool {
    regex_matches(ATTRIBUTE_PATTERN@, line) || regex_matches(BLANK_PATTERN@, line)
}

/// The line opens a module whose name marks it as test-only.
pub open spec fn is_test_opener(line: Seq<char>) -> bool {
    regex_matches(OPENER_PATTERN@, line) && contains(line, TEST_MARK@)
}

/// The line declares a file-bound submodule.
pub open spec fn is_declaration(line: Seq<char>) -> bool {
    regex_matches(DECLARATION_PATTERN@, line)
}

/// The module name that a declaration line gives.
pub open spec fn declared_name(line: Seq<char>) -> Option<Seq<char>> {
    regex_named_group(DECLARATION_PATTERN@, line, NAME_GROUP@)
}

/// Whether every pattern of the rules compiles.
pub fn check_rules() -> (r: bool)
    ensures
        r == rules_compile(),
{
    pattern_compiles(COMMENT_PATTERN) && pattern_compiles(ATTRIBUTE_PATTERN)
        && pattern_compiles(BLANK_PATTERN) && pattern_compiles(OPENER_PATTERN)
        && pattern_compiles(DECLARATION_PATTERN)
}

/// Whether `line` is a single-line comment.
pub fn comment_line(line: &str) -> (r: bool)
    requires
        rules_compile(),
    ensures
        r == is_comment(line@),
{
    pattern_is_match(COMMENT_PATTERN, line)
}

/// Whether `line` is an attribute annotation or blank.
pub fn decoration_line(line: &str) -> (r: bool)
    requires
        rules_compile(),
    ensures
        r == is_decoration(line@),
{
    pattern_is_match(ATTRIBUTE_PATTERN, line) || pattern_is_match(BLANK_PATTERN, line)
}

/// Whether `line` opens a test-only module.
pub fn test_opener_line(line: &str) -> (r: bool)
    requires
        rules_compile(),
    ensures
        r == is_test_opener(line@),
{
    if pattern_is_match(OPENER_PATTERN, line) {
        let chars = chars_of(line);
        let mark = chars_of(TEST_MARK);
        chars_contain(&chars, &mark)
    } else {
        false
    }
}

/// Whether `line` declares a file-bound submodule.
pub fn declaration_line(line: &str) -> (r: bool)
    requires
        rules_compile(),
    ensures
        r == is_declaration(line@),
{
    pattern_is_match(DECLARATION_PATTERN, line)
}

/// The module name in a declaration line.
pub fn declaration_name(line: &str) -> (r: Option<String>)
    requires
        rules_compile(),
    ensures
        match r {
            Some(n) => declared_name(line@) == Some(n@),
            None => declared_name(line@) is None,
        },
{
    pattern_named_group(DECLARATION_PATTERN, line, NAME_GROUP)
}

} // verus!
