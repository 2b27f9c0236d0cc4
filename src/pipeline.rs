//! The detection pipeline: strategies in a fixed order, narrowing candidates
//! until one language remains.
use vstd::prelude::*;

use crate::blob::{binary_data, binary_extension, extension_is, BlobView, FileBlob, DOCUMENTATION_PATTERN};
use crate::generated::generated_spec;
use crate::language::LanguageType;
use crate::pattern::pattern_matches;
use crate::vendor::VENDOR_PATTERN;
use crate::classifier::Classifier;
use crate::heuristics::Heuristics;
use crate::language::{Language, Registry};
use crate::strategy::extension::Extension;
use crate::strategy::filename::Filename;
use crate::strategy::manpage::Manpage;
use crate::strategy::modeline::Modeline;
use crate::strategy::shebang::Shebang;
use crate::strategy::xml::Xml;
use crate::strategy::{strategy_result, StrategyType};

verus! {

/// Number of strategies in the pipeline.
pub const STRATEGY_COUNT: usize = 8;

/// The strategy at position `k`: modeline, file name, shebang, extension, XML,
/// manual page, heuristics, classifier.
pub open spec fn strategy_at(k: int) -> StrategyType {
    if k == 0 {
        StrategyType::Modeline(Modeline)
    } else if k == 1 {
        StrategyType::Filename(Filename)
    } else if k == 2 {
        StrategyType::Shebang(Shebang)
    } else if k == 3 {
        StrategyType::Extension(Extension)
    } else if k == 4 {
        StrategyType::Xml(Xml)
    } else if k == 5 {
        StrategyType::Manpage(Manpage)
    } else if k == 6 {
        StrategyType::Heuristics(Heuristics)
    } else {
        StrategyType::Classifier(Classifier)
    }
}

/// The verdict of the strategies from position `k` on, given the candidates so
/// far: a strategy that answers one language decides; one that answers several
/// replaces the candidates; one that answers none leaves them. At the end a sole
/// candidate is the verdict.
pub open spec fn run_from(ls: Seq<Language>, b: BlobView, k: int, c: Seq<usize>) -> Option<usize>
    decreases 8 - k,
{
    if k < 0 || k >= 8 {
        if c.len() == 1 {
            Some(c[0])
        } else {
            None
        }
    } else {
        let r = strategy_result(strategy_at(k), ls, b, c);
        if r.len() == 1 {
            Some(r[0])
        } else if r.len() > 0 {
            run_from(ls, b, k + 1, r)
        } else {
            run_from(ls, b, k + 1, c)
        }
    }
}

/// Blobs the pipeline refuses at once: a binary extension, binary content, or no
/// content when empty blobs are not allowed.
pub open spec fn refused(b: BlobView, allow_empty: bool) -> bool {
    extension_is(b.name, |e: Seq<char>| binary_extension(e)) || binary_data(b.data) || (!allow_empty
        && b.data.len() == 0)
}

/// The language the pipeline detects for a blob.
pub open spec fn detect_spec(ls: Seq<Language>, b: BlobView, allow_empty: bool) -> Option<usize> {
    if refused(b, allow_empty) {
        None
    } else {
        run_from(ls, b, 0, seq![])
    }
}

/// The strategy at position `k`.
fn strategy(k: usize) -> (r: StrategyType)
    ensures
        r == strategy_at(k as int),
{
    if k == 0 {
        StrategyType::Modeline(Modeline)
    } else if k == 1 {
        StrategyType::Filename(Filename)
    } else if k == 2 {
        StrategyType::Shebang(Shebang)
    } else if k == 3 {
        StrategyType::Extension(Extension)
    } else if k == 4 {
        StrategyType::Xml(Xml)
    } else if k == 5 {
        StrategyType::Manpage(Manpage)
    } else if k == 6 {
        StrategyType::Heuristics(Heuristics)
    } else {
        StrategyType::Classifier(Classifier)
    }
}

/// Detects the language of a blob, as an index into the registry. Binary blobs,
/// blobs with a binary extension and, unless `allow_empty`, empty blobs get none.
pub fn detect(blob: &FileBlob, registry: &Registry, allow_empty: bool) -> (r: Option<usize>)
    requires
        registry.wf(),
    ensures
        r == detect_spec(registry.langs(), blob@, allow_empty),
        refused(blob@, allow_empty) ==> r is None,
        r matches Some(i) ==> i < registry.langs().len(),
{
    proof {
        registry.lemma_len_fits();
        lemma_run_bounded(registry.langs(), blob@, 0, seq![]);
    }
    if blob.likely_binary() || blob.is_binary() || (!allow_empty && blob.is_empty()) {
        return None;
    }
    let mut candidates: Vec<usize> = Vec::new();
    let mut k: usize = 0;
    while k < STRATEGY_COUNT
        invariant
            registry.wf(),
            k <= 8,
            detect_spec(registry.langs(), blob@, allow_empty) matches Some(i) ==> i < registry.langs().len(),
            detect_spec(registry.langs(), blob@, allow_empty) == run_from(
                registry.langs(),
                blob@,
                k as int,
                candidates@,
            ),
        decreases 8 - k,
    {
        let s = strategy(k);
        let result = s.call(blob, registry, &candidates);
        if result.len() == 1 {
            return Some(result[0]);
        } else if result.len() > 0 {
            candidates = result;
        }
        k = k + 1;
    }
    if candidates.len() == 1 {
        Some(candidates[0])
    } else {
        None
    }
}

/// A verdict is a language of the registry.
pub proof fn lemma_run_bounded(ls: Seq<Language>, b: BlobView, k: int, c: Seq<usize>)
    requires
        ls.len() <= usize::MAX,
        crate::language::bounded(c, ls.len() as int),
    ensures
        run_from(ls, b, k, c) matches Some(i) ==> i < ls.len(),
    decreases 8 - k,
{
    if 0 <= k < 8 {
        crate::strategy::lemma_result_bounded(strategy_at(k), ls, b, c);
        let r = strategy_result(strategy_at(k), ls, b, c);
        if r.len() > 1 {
            lemma_run_bounded(ls, b, k + 1, r);
        } else if r.len() == 0 {
            lemma_run_bounded(ls, b, k + 1, c);
        }
    }
}

/// A blob counts in language statistics when it is not vendored, documentation
/// or generated, and its detected language is a programming or markup language.
pub open spec fn included(ls: Seq<Language>, b: BlobView) -> bool {
    &&& !pattern_matches(VENDOR_PATTERN@, b.name)
    &&& !pattern_matches(DOCUMENTATION_PATTERN@, b.name)
    &&& !generated_spec(b.name, b.data)
    &&& match detect_spec(ls, b, false) {
        Some(i) => ls[i as int].language_type == LanguageType::Programming || ls[i as int].language_type
            == LanguageType::Markup,
        None => false,
    }
}

impl FileBlob {
    /// The detected language of the blob; empty blobs get none.
    pub fn language(&self, registry: &Registry) -> (r: Option<usize>)
        requires
            registry.wf(),
        ensures
            r == detect_spec(registry.langs(), self@, false),
            r matches Some(i) ==> i < registry.langs().len(),
    {
        detect(self, registry, false)
    }

    /// Whether the blob counts in language statistics.
    pub fn include_in_language_stats(&self, registry: &Registry) -> (r: bool)
        requires
            registry.wf(),
        ensures
            r == included(registry.langs(), self@),
    {
        if self.is_vendored() || self.is_documentation() || self.is_generated() {
            return false;
        }
        match self.language(registry) {
            Some(i) => {
                let t = registry.language(i).language_type;
                t == LanguageType::Programming || t == LanguageType::Markup
            },
            None => false,
        }
    }
}

/// A vendored path never counts in language statistics, whatever the blob holds.
pub proof fn lemma_vendored_excluded(ls: Seq<Language>, b: BlobView)
    requires
        pattern_matches(VENDOR_PATTERN@, b.name),
    ensures
        !included(ls, b),
{
}

/// Binary blobs, blobs with a binary extension and empty blobs get no language.
pub proof fn lemma_refused_undetected(ls: Seq<Language>, b: BlobView)
    requires
        binary_data(b.data) || extension_is(b.name, |e: Seq<char>| binary_extension(e))
            || b.data.len() == 0,
    ensures
        detect_spec(ls, b, false) is None,
{
}

} // verus!
