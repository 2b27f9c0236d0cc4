//! Detection by Emacs and Vim modelines.
use vstd::prelude::*;

use crate::blob::{binary_data, blob_lines, last_n, BlobView, FileBlob};
use crate::language::{lookup_spec, Language, Registry};
use crate::pattern::{group_at, group_text, groups, opt_view, pattern_groups};
use crate::strategy::{narrow, narrow_to};
use crate::text::{
    chars_of, contains_chars, contains_seq, join_lines, join_with_newlines, string_of, trim,
    trim_chars,
};

verus! {

/// An Emacs modeline: `-*- mode: NAME -*-`, `-*- NAME -*-`, or a mode among
/// other `key: value;` settings. Group 1 or group 2 holds the name.
pub const EMACS_MODELINE_PATTERN: &'static str = r"(?i)-\*-(?:\s*(?:mode:\s*)?([^:;\s]+)(?:;|(?:\s*-\*-))|\s*(?:[^:]*?:\s*[^;]*?;)*?\s*mode\s*:\s*([^;]+?)(?:;|\s*-\*-))";

/// A Vim modeline: `vi:`, `vim:`, `vimN:`, `Vi:` or `ex:` at the start of a line
/// or after white space, then options holding `ft=`, `filetype=` or `syntax=`.
pub const VIM_MODELINE_PATTERN: &'static str = r"(?m)(?:^|\s)(?:vi|vim[0-9]*|Vi|ex):[^\n]*?[\s:](?:ft|filetype|syntax)\s*=\s*([A-Za-z0-9_+#.-]+)";

/// Number of lines searched at the start and at the end of a file.
pub const MODELINE_SEARCH_LINES: usize = 5;

/// Detection by editor modelines in the first and last lines of a file.
#[derive(Debug, Clone, Copy)]
pub struct Modeline;

/// The mode an Emacs modeline names, trimmed.
pub open spec fn emacs_mode(content: Seq<char>) -> Option<Seq<char>> {
    match pattern_groups(EMACS_MODELINE_PATTERN@, content) {
        Some(g) => match group_text(g, 1) {
            Some(m) => Some(trim(m)),
            None => match group_text(g, 2) {
                Some(m) => Some(trim(m)),
                None => None,
            },
        },
        None => None,
    }
}

/// The file type a Vim modeline names.
pub open spec fn vim_mode(content: Seq<char>) -> Option<Seq<char>> {
    match pattern_groups(VIM_MODELINE_PATTERN@, content) {
        Some(g) => group_text(g, 1),
        None => None,
    }
}

/// The language name a modeline gives: an Emacs modeline first, then a Vim one.
pub open spec fn modeline_of(content: Seq<char>) -> Option<Seq<char>> {
    match emacs_mode(content) {
        Some(m) => Some(m),
        None => vim_mode(content),
    }
}

/// The first and the last lines of a blob, joined, where modelines are searched.
pub open spec fn modeline_area(d: Seq<u8>) -> (Seq<char>, Seq<char>) {
    let lines = blob_lines(d);
    let header = join_lines(lines.take(if lines.len() < 5 { lines.len() as int } else { 5 }));
    let footer = join_lines(last_n(lines, 5));
    (header, footer)
}

/// Nothing for links, binary data and Vimball archives; else the language that a
/// modeline names (looked up by name, then alias), kept to the candidates.
pub open spec fn modeline_result(ls: Seq<Language>, b: BlobView, c: Seq<usize>) -> Seq<usize> {
    let (header, footer) = modeline_area(b.data);
    if b.symlink || binary_data(b.data) || contains_seq(header, "UseVimball"@) {
        seq![]
    } else {
        match modeline_of(header + seq!['\n'] + footer) {
            Some(m) => match lookup_spec(ls, m) {
                Some(i) => narrow(seq![i as usize], c),
                None => seq![],
            },
            None => seq![],
        }
    }
}

impl Modeline {
    /// The language name that a modeline in `content` gives.
    pub fn modeline(content: &str) -> (r: Option<String>)
        ensures
            opt_view(r) == modeline_of(content@),
    {
        if let Some(g) = groups(EMACS_MODELINE_PATTERN, content) {
            if let Some(m) = group_at(&g, 1) {
                let cs = chars_of(m.as_str());
                return Some(string_of(trim_chars(cs.as_slice()).as_slice()));
            }
            if let Some(m) = group_at(&g, 2) {
                let cs = chars_of(m.as_str());
                return Some(string_of(trim_chars(cs.as_slice()).as_slice()));
            }
        }
        match groups(VIM_MODELINE_PATTERN, content) {
            Some(g) => group_at(&g, 1),
            None => None,
        }
    }

    pub fn call(&self, blob: &FileBlob, registry: &Registry, candidates: &Vec<usize>) -> (r: Vec<usize>)
        requires
            registry.wf(),
        ensures
            r@ == modeline_result(registry.langs(), blob@, candidates@),
    {
        if blob.is_symlink() || blob.is_binary() {
            return Vec::new();
        }
        let head_lines = blob.first_lines(MODELINE_SEARCH_LINES);
        let header = join_with_newlines(head_lines.as_slice());
        let tail_lines = blob.last_lines(MODELINE_SEARCH_LINES);
        let footer = join_with_newlines(tail_lines.as_slice());
        let marker = chars_of("UseVimball");
        if contains_chars(header.as_slice(), marker.as_slice()) {
            return Vec::new();
        }
        let mut content = header.clone();
        content.push('\n');
        let mut j: usize = 0;
        while j < footer.len()
            invariant
                j <= footer@.len(),
                content@ == header@ + seq!['\n'] + footer@.take(j as int),
            decreases footer@.len() - j,
        {
            content.push(footer[j]);
            proof {
                assert(footer@.take(j + 1) =~= footer@.take(j as int).push(footer@[j as int]));
            }
            j = j + 1;
        }
        proof {
            assert(footer@.take(j as int) =~= footer@);
        }
        let text = string_of(content.as_slice());
        match Modeline::modeline(text.as_str()) {
            Some(m) => match Language::lookup(registry, m.as_str()) {
                Some(i) => {
                    let mut v: Vec<usize> = Vec::new();
                    v.push(i);
                    narrow_to(v, candidates)
                },
                None => Vec::new(),
            },
            None => Vec::new(),
        }
    }
}

} // verus!
