//! Detection of manual pages by their extension.
use vstd::prelude::*;

use crate::blob::{BlobView, FileBlob};
use crate::language::{name_lookup, Language, Registry};
use crate::pattern::{is_match, pattern_matches};

verus! {

/// Conventional extensions of manual pages: a section digit, `0p`, `n`, `man`
/// or `mdoc`, possibly followed by `.in`.
pub const MANPAGE_PATTERN: &'static str = r"\.(?:[1-9](?![0-9])[a-z_0-9]*|0p|n|man|mdoc)(?:\.in)?$";

/// Detection of manual pages by their extension.
#[derive(Debug, Clone, Copy)]
pub struct Manpage;

/// A language found by name, as a list of at most one.
pub open spec fn found_list(r: Option<int>) -> Seq<usize> {
    match r {
        Some(i) => seq![i as usize],
        None => seq![],
    }
}

/// The candidates when there are any; else Roff Manpage then Roff for a manual
/// page extension; else nothing.
pub open spec fn manpage_result(ls: Seq<Language>, b: BlobView, c: Seq<usize>) -> Seq<usize> {
    if c.len() > 0 {
        c
    } else if pattern_matches(MANPAGE_PATTERN@, b.name) {
        found_list(name_lookup(ls, "Roff Manpage"@)) + found_list(name_lookup(ls, "Roff"@))
    } else {
        seq![]
    }
}

impl Manpage {
    /// Whether a file name has a manual page extension.
    pub fn is_manpage(name: &str) -> (r: bool)
        ensures
            r == pattern_matches(MANPAGE_PATTERN@, name@),
    {
        is_match(MANPAGE_PATTERN, name)
    }

    pub fn call(&self, blob: &FileBlob, registry: &Registry, candidates: &Vec<usize>) -> (r: Vec<usize>)
        requires
            registry.wf(),
        ensures
            r@ == manpage_result(registry.langs(), blob@, candidates@),
    {
        if candidates.len() > 0 {
            return candidates.clone();
        }
        let mut out: Vec<usize> = Vec::new();
        if Manpage::is_manpage(blob.name()) {
            if let Some(i) = Language::find_by_name(registry, "Roff Manpage") {
                out.push(i);
            }
            let ghost first = out@;
            if let Some(i) = Language::find_by_name(registry, "Roff") {
                out.push(i);
            }
            proof {
                assert(out@ =~= first + found_list(name_lookup(registry.langs(), "Roff"@)));
            }
        }
        out
    }
}

} // verus!
