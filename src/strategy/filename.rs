//! Detection by exact file name.
use vstd::prelude::*;

use crate::blob::{BlobView, FileBlob};
use crate::language::{all_matches, with_filename, Language, Registry};
use crate::strategy::{narrow, narrow_to};
use crate::text::basename;

verus! {

/// Detection by the exact name of the file (`Makefile`, `Dockerfile`).
#[derive(Debug, Clone, Copy)]
pub struct Filename;

/// The languages that list the blob's file name, kept to the candidates.
pub open spec fn filename_result(ls: Seq<Language>, b: BlobView, c: Seq<usize>) -> Seq<usize> {
    narrow(all_matches(ls, with_filename(basename(b.name)), ls.len() as int), c)
}

impl Filename {
    pub fn call(&self, blob: &FileBlob, registry: &Registry, candidates: &Vec<usize>) -> (r: Vec<usize>)
        requires
            registry.wf(),
        ensures
            r@ == filename_result(registry.langs(), blob@, candidates@),
    {
        let found = Language::find_by_filename(registry, blob.name());
        narrow_to(found, candidates)
    }
}

} // verus!
