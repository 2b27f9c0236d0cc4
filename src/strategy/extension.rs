//! Detection by file extension.
use vstd::prelude::*;

use crate::blob::{extension_is, BlobView, FileBlob};
use crate::language::{extension_lookup, Language, Registry};
use crate::strategy::{narrow, narrow_to};
use crate::text::{basename_of, chars_of, in_list, outer_extension_of, string_of, to_lower};

verus! {

/// Detection by the extensions of the file name, longest first.
#[derive(Debug, Clone, Copy)]
pub struct Extension;

/// Extensions too widely shared to say anything about a language.
pub open spec fn generic_extension(e: Seq<char>) -> bool {
    e == ".1"@ || e == ".2"@ || e == ".3"@ || e == ".4"@ || e == ".5"@ || e == ".6"@ || e == ".7"@
        || e == ".8"@ || e == ".9"@ || e == ".app"@ || e == ".cmp"@ || e == ".msg"@ || e
        == ".resource"@ || e == ".sol"@ || e == ".stl"@ || e == ".tag"@ || e == ".url"@
}

/// The file's outermost extension, case-folded, is generic.
pub open spec fn has_generic_extension(name: Seq<char>) -> bool {
    extension_is(name, |e: Seq<char>| generic_extension(e))
}

/// The candidates unchanged for a generic extension; else the languages of the
/// longest known extension, kept to the candidates.
pub open spec fn extension_result(ls: Seq<Language>, b: BlobView, c: Seq<usize>) -> Seq<usize> {
    if has_generic_extension(b.name) {
        c
    } else {
        narrow(extension_lookup(ls, b.name), c)
    }
}

impl Extension {
    /// Whether the outermost extension of the file name is generic.
    pub fn is_generic(filename: &str) -> (r: bool)
        ensures
            r == has_generic_extension(filename@),
    {
        let cs = chars_of(filename);
        let base = basename_of(cs.as_slice());
        match outer_extension_of(base.as_slice()) {
            Some(e) => {
                let lowered = to_lower(string_of(e.as_slice()).as_str());
                in_list(
                    &lowered,
                    &[".1", ".2", ".3", ".4", ".5", ".6", ".7", ".8", ".9", ".app", ".cmp", ".msg", ".resource", ".sol", ".stl", ".tag", ".url"],
                )
            },
            None => false,
        }
    }

    pub fn call(&self, blob: &FileBlob, registry: &Registry, candidates: &Vec<usize>) -> (r: Vec<usize>)
        requires
            registry.wf(),
        ensures
            r@ == extension_result(registry.langs(), blob@, candidates@),
    {
        if Extension::is_generic(blob.name()) {
            return candidates.clone();
        }
        let found = Language::find_by_extension(registry, blob.name());
        narrow_to(found, candidates)
    }
}

} // verus!
