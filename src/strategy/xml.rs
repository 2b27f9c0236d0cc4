//! Detection of XML by its declaration.
use vstd::prelude::*;

use crate::blob::{blob_lines, BlobView, FileBlob};
use crate::language::{name_lookup, Language, Registry};
use crate::text::{chars_of, contains_chars, contains_seq, join_lines, join_with_newlines};

verus! {

/// Number of leading lines searched for an XML declaration.
pub const XML_SEARCH_LINES: usize = 2;

/// Detection of XML by the declaration in its first lines.
#[derive(Debug, Clone, Copy)]
pub struct Xml;

/// The first two lines of a blob, joined.
pub open spec fn xml_header(d: Seq<u8>) -> Seq<char> {
    let lines = blob_lines(d);
    join_lines(lines.take(if lines.len() < 2 { lines.len() as int } else { 2 }))
}

/// The candidates when there are any; else XML when the first two lines hold an
/// XML declaration; else nothing.
pub open spec fn xml_result(ls: Seq<Language>, b: BlobView, c: Seq<usize>) -> Seq<usize> {
    if c.len() > 0 {
        c
    } else if contains_seq(xml_header(b.data), "<?xml version="@) {
        match name_lookup(ls, "XML"@) {
            Some(i) => seq![i as usize],
            None => seq![],
        }
    } else {
        seq![]
    }
}

impl Xml {
    pub fn call(&self, blob: &FileBlob, registry: &Registry, candidates: &Vec<usize>) -> (r: Vec<usize>)
        requires
            registry.wf(),
        ensures
            r@ == xml_result(registry.langs(), blob@, candidates@),
    {
        if candidates.len() > 0 {
            return candidates.clone();
        }
        let lines = blob.first_lines(XML_SEARCH_LINES);
        let header = join_with_newlines(lines.as_slice());
        let needle = chars_of("<?xml version=");
        if contains_chars(header.as_slice(), needle.as_slice()) {
            match Language::find_by_name(registry, "XML") {
                Some(i) => {
                    let mut v: Vec<usize> = Vec::new();
                    v.push(i);
                    v
                },
                None => Vec::new(),
            }
        } else {
            Vec::new()
        }
    }
}

} // verus!
