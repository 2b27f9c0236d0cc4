//! The statistical classifier stage.
use vstd::prelude::*;

use crate::blob::FileBlob;
use crate::language::Registry;

verus! {

/// The statistical classifier. It ranks candidates against a trained model; no
/// model ships with the library, so the stage has no opinion.
#[derive(Debug, Clone, Copy)]
pub struct Classifier;

impl Classifier {
    pub fn call(&self, blob: &FileBlob, registry: &Registry, candidates: &Vec<usize>) -> (r: Vec<usize>)
        ensures
            r@.len() == 0,
    {
        Vec::new()
    }
}

} // verus!
