//! Regular expressions, compiled and run by `fancy_regex`.
//!
//! A `Pattern` keeps the source it was compiled from, so that contracts can speak
//! of a match as a function of the source and the searched text.
use vstd::prelude::*;

verus! {

#[verifier::external_type_specification]
#[verifier::external_body]
pub struct ExRegex(fancy_regex::Regex);

/// Whether `fancy_regex::Regex::new` accepts a pattern.
pub uninterp spec fn regex_compiles(pattern: Seq<char>) -> bool;

/// What `fancy_regex::Regex::is_match` reports for a pattern and a text:
/// `None` when the matcher gives up with an error.
pub uninterp spec fn regex_finds(pattern: Seq<char>, text: Seq<char>) -> Option<bool>;

/// The groups of the first match that `fancy_regex::Regex::captures` finds, group 0
/// being the whole match: `None` when nothing matches or the matcher gives up.
pub uninterp spec fn regex_captures(pattern: Seq<char>, text: Seq<char>) -> Option<
    Seq<Option<Seq<char>>>,
>;

/// A compiled regular expression together with its source.
pub struct Pattern {
    source: String,
    compiled: fancy_regex::Regex,
}

impl Pattern {
    pub closed spec fn source(&self) -> Seq<char> {
        self.source@
    }
}

/// Relies on `fancy_regex::Regex::new`: whether it succeeds depends on the pattern alone.
#[verifier::external_body]
fn compile(source: &str) -> (r: Option<Pattern>)
    ensures
        r.is_some() == regex_compiles(source@),
        r matches Some(p) ==> p.source() == source@,
{
    match fancy_regex::Regex::new(source) {
        Ok(compiled) => Some(Pattern { source: source.to_string(), compiled }),
        Err(_) => None,
    }
}

/// Relies on `fancy_regex::Regex::is_match`, run on the regex compiled from `p`'s source.
#[verifier::external_body]
fn search(p: &Pattern, text: &str) -> (r: Option<bool>)
    ensures
        r == regex_finds(p.source(), text@),
{
    p.compiled.is_match(text).ok()
}

/// Relies on `fancy_regex::Regex::captures`, run on the regex compiled from `p`'s source;
/// each group is handed out as an owned string.
#[verifier::external_body]
fn captures(p: &Pattern, text: &str) -> (r: Option<Vec<Option<String>>>)
    ensures
        groups_view(r) == regex_captures(p.source(), text@),
{
    match p.compiled.captures(text) {
        Ok(Some(caps)) => Some(caps.iter().map(|m| m.map(|m| m.as_str().to_string())).collect()),
        _ => None,
    }
}

/// The character view of the groups of a match.
pub open spec fn groups_view(r: Option<Vec<Option<String>>>) -> Option<Seq<Option<Seq<char>>>> {
    match r {
        Some(v) => Some(v@.map_values(|g: Option<String>| opt_view(g))),
        None => None,
    }
}

pub open spec fn opt_view(g: Option<String>) -> Option<Seq<char>> {
    match g {
        Some(s) => Some(s@),
        None => None,
    }
}

/// A pattern matches a text when it compiles and the search finds a match.
pub open spec fn pattern_matches(pattern: Seq<char>, text: Seq<char>) -> bool {
    regex_compiles(pattern) && regex_finds(pattern, text) == Some(true)
}

/// The groups of the first match of a pattern in a text, if it compiles and matches.
pub open spec fn pattern_groups(pattern: Seq<char>, text: Seq<char>) -> Option<
    Seq<Option<Seq<char>>>,
> {
    if regex_compiles(pattern) {
        regex_captures(pattern, text)
    } else {
        None
    }
}

/// The text of group `i` of a match, if that group took part in it.
pub open spec fn group_text(groups: Seq<Option<Seq<char>>>, i: int) -> Option<Seq<char>> {
    if 0 <= i < groups.len() {
        groups[i]
    } else {
        None
    }
}

/// Whether `pattern` matches somewhere in `text`.
pub fn is_match(pattern: &str, text: &str) -> (r: bool)
    ensures
        r == pattern_matches(pattern@, text@),
{
    match compile(pattern) {
        Some(p) => match search(&p, text) {
            Some(found) => found,
            None => false,
        },
        None => false,
    }
}

/// The groups of the first match of `pattern` in `text`.
pub fn groups(pattern: &str, text: &str) -> (r: Option<Vec<Option<String>>>)
    ensures
        groups_view(r) == pattern_groups(pattern@, text@),
{
    match compile(pattern) {
        Some(p) => captures(&p, text),
        None => None,
    }
}

/// The text of group `i` in a list of groups.
pub fn group_at(gs: &Vec<Option<String>>, i: usize) -> (r: Option<String>)
    ensures
        opt_view(r) == group_text(gs@.map_values(|g: Option<String>| opt_view(g)), i as int),
{
    if i < gs.len() {
        match &gs[i] {
            Some(s) => Some(s.clone()),
            None => None,
        }
    } else {
        None
    }
}

} // verus!
