//! Detection strategies. Each one looks at a blob and the current candidates and
//! answers with languages: none means no opinion; otherwise, when there are
//! candidates, only languages among them.
pub mod extension;
pub mod filename;
pub mod manpage;
pub mod modeline;
pub mod shebang;
pub mod xml;

use vstd::prelude::*;

use crate::blob::{BlobView, FileBlob};
use crate::classifier::Classifier;
use crate::heuristics::{builtin_table, heuristics_result, Heuristics};
use crate::language::{Language, Registry};
use extension::{extension_result, Extension};
use filename::{filename_result, Filename};
use manpage::{manpage_result, Manpage};
use modeline::{modeline_result, Modeline};
use shebang::{shebang_result, Shebang};
use xml::{xml_result, Xml};

verus! {

/// The members of `s` that `c` holds, in the order of `s`.
pub open spec fn keep_members(s: Seq<usize>, c: Seq<usize>) -> Seq<usize>
    decreases s.len(),
{
    if s.len() == 0 {
        seq![]
    } else {
        let rest = keep_members(s.drop_last(), c);
        if c.contains(s.last()) {
            rest.push(s.last())
        } else {
            rest
        }
    }
}

/// The languages a strategy found, kept to the candidates when there are any.
pub open spec fn narrow(found: Seq<usize>, candidates: Seq<usize>) -> Seq<usize> {
    if candidates.len() == 0 {
        found
    } else {
        keep_members(found, candidates)
    }
}

/// Every language that survives narrowing is a candidate, when there are candidates.
pub proof fn lemma_narrow_within(found: Seq<usize>, candidates: Seq<usize>)
    ensures
        candidates.len() > 0 ==> forall|x: usize|
            #[trigger] narrow(found, candidates).contains(x) ==> candidates.contains(x),
    decreases found.len(),
{
    if candidates.len() > 0 && found.len() > 0 {
        lemma_narrow_within(found.drop_last(), candidates);
        let rest = keep_members(found.drop_last(), candidates);
        assert forall|x: usize| #[trigger] narrow(found, candidates).contains(x) implies candidates.contains(x) by {
            if candidates.contains(found.last()) {
                let r = rest.push(found.last());
                let k = choose|k: int| 0 <= k < r.len() && r[k] == x;
                if k < rest.len() {
                    assert(rest.contains(x));
                    assert(narrow(found.drop_last(), candidates).contains(x));
                }
            } else {
                assert(narrow(found.drop_last(), candidates).contains(x));
            }
        }
    }
}

/// Whether `v` holds `x`.
pub fn holds(v: &Vec<usize>, x: usize) -> (r: bool)
    ensures
        r == v@.contains(x),
{
    let mut j: usize = 0;
    while j < v.len()
        invariant
            j <= v@.len(),
            forall|q: int| 0 <= q < j ==> v@[q] != x,
        decreases v@.len() - j,
    {
        if v[j] == x {
            return true;
        }
        j = j + 1;
    }
    false
}

/// Keeps the languages of `found` that are candidates; with no candidates, all of them.
pub fn narrow_to(found: Vec<usize>, candidates: &Vec<usize>) -> (r: Vec<usize>)
    ensures
        r@ == narrow(found@, candidates@),
{
    if candidates.len() == 0 {
        return found;
    }
    let mut out: Vec<usize> = Vec::new();
    let mut j: usize = 0;
    while j < found.len()
        invariant
            candidates@.len() > 0,
            j <= found@.len(),
            out@ == keep_members(found@.take(j as int), candidates@),
        decreases found@.len() - j,
    {
        proof {
            assert(found@.take(j + 1).drop_last() =~= found@.take(j as int));
        }
        if holds(candidates, found[j]) {
            out.push(found[j]);
        }
        j = j + 1;
    }
    proof {
        assert(found@.take(j as int) =~= found@);
    }
    out
}

/// A detection strategy, one variant per kind.
#[derive(Debug, Clone, Copy)]
pub enum StrategyType {
    Modeline(Modeline),
    Filename(Filename),
    Shebang(Shebang),
    Extension(Extension),
    Xml(Xml),
    Manpage(Manpage),
    Heuristics(Heuristics),
    Classifier(Classifier),
}

/// What a strategy answers for a blob and candidates.
pub open spec fn strategy_result(s: StrategyType, ls: Seq<Language>, b: BlobView, c: Seq<usize>) -> Seq<usize> {
    match s {
        StrategyType::Modeline(_) => modeline_result(ls, b, c),
        StrategyType::Filename(_) => filename_result(ls, b, c),
        StrategyType::Shebang(_) => shebang_result(ls, b, c),
        StrategyType::Extension(_) => extension_result(ls, b, c),
        StrategyType::Xml(_) => xml_result(ls, b, c),
        StrategyType::Manpage(_) => manpage_result(ls, b, c),
        StrategyType::Heuristics(_) => heuristics_result(ls, builtin_table(), b, c),
        StrategyType::Classifier(_) => seq![],
    }
}

impl StrategyType {
    /// Runs the strategy. With candidates, every language it answers is one of them.
    pub fn call(&self, blob: &FileBlob, registry: &Registry, candidates: &Vec<usize>) -> (r: Vec<usize>)
        requires
            registry.wf(),
        ensures
            r@ == strategy_result(*self, registry.langs(), blob@, candidates@),
            candidates@.len() > 0 ==> forall|x: usize| #[trigger] r@.contains(x) ==> candidates@.contains(x),
    {
        let r = match self {
            StrategyType::Modeline(s) => s.call(blob, registry, candidates),
            StrategyType::Filename(s) => s.call(blob, registry, candidates),
            StrategyType::Shebang(s) => s.call(blob, registry, candidates),
            StrategyType::Extension(s) => s.call(blob, registry, candidates),
            StrategyType::Xml(s) => s.call(blob, registry, candidates),
            StrategyType::Manpage(s) => s.call(blob, registry, candidates),
            StrategyType::Heuristics(s) => s.call(blob, registry, candidates),
            StrategyType::Classifier(s) => s.call(blob, registry, candidates),
        };
        proof {
            lemma_result_within(*self, registry.langs(), blob@, candidates@);
        }
        r
    }
}

/// Every strategy honours the candidates: with candidates, each language it
/// answers is one of them.
pub proof fn lemma_result_within(s: StrategyType, ls: Seq<Language>, b: BlobView, c: Seq<usize>)
    ensures
        c.len() > 0 ==> forall|x: usize| #[trigger] strategy_result(s, ls, b, c).contains(x) ==> c.contains(x),
{
    if c.len() > 0 {
        match s {
            StrategyType::Modeline(_) => {
                let (header, footer) = modeline::modeline_area(b.data);
                if let Some(m) = modeline::modeline_of(header + seq!['\n'] + footer) {
                    if let Some(i) = crate::language::lookup_spec(ls, m) {
                        lemma_narrow_within(seq![i as usize], c);
                    }
                }
            },
            StrategyType::Filename(_) => {
                lemma_narrow_within(crate::language::all_matches(ls, crate::language::with_filename(crate::text::basename(b.name)), ls.len() as int), c);
            },
            StrategyType::Shebang(_) => {
                if let Some(t) = shebang::interpreter_of(b.data) {
                    lemma_narrow_within(crate::language::all_matches(ls, crate::language::with_interpreter(t), ls.len() as int), c);
                }
            },
            StrategyType::Extension(_) => {
                lemma_narrow_within(crate::language::extension_lookup(ls, b.name), c);
            },
            StrategyType::Xml(_) => {},
            StrategyType::Manpage(_) => {},
            StrategyType::Heuristics(_) => {
                let head = b.data.take(if b.data.len() < 51200 { b.data.len() as int } else { 51200 });
                if !(b.symlink || crate::blob::binary_data(b.data) || !vstd::utf8::valid_utf8(head)) {
                    crate::heuristics::lemma_heuristics_within(
                        ls,
                        builtin_table(),
                        crate::text::lower_of(b.name),
                        vstd::utf8::decode_utf8(head),
                        c,
                        0,
                    );
                }
            },
            StrategyType::Classifier(_) => {},
        }
    }
}

/// Narrowing keeps only languages that were found.
pub proof fn lemma_narrow_subset(found: Seq<usize>, candidates: Seq<usize>, n: int)
    requires
        crate::language::bounded(found, n),
    ensures
        crate::language::bounded(narrow(found, candidates), n),
    decreases found.len(),
{
    if candidates.len() > 0 && found.len() > 0 {
        lemma_narrow_subset(found.drop_last(), candidates, n);
        assert(crate::language::bounded(found.drop_last(), n)) by {
            assert forall|k: int| 0 <= k < found.drop_last().len() implies #[trigger] found.drop_last()[k] < n by {
                assert(found.drop_last()[k] == found[k]);
            }
        }
        assert(narrow(found.drop_last(), candidates) == keep_members(found.drop_last(), candidates));
    }
}

/// The languages a strategy answers are in the registry, when the candidates are.
pub proof fn lemma_result_bounded(s: StrategyType, ls: Seq<Language>, b: BlobView, c: Seq<usize>)
    requires
        ls.len() <= usize::MAX,
        crate::language::bounded(c, ls.len() as int),
    ensures
        crate::language::bounded(strategy_result(s, ls, b, c), ls.len() as int),
{
    let n = ls.len() as int;
    match s {
        StrategyType::Modeline(_) => {
            let (header, footer) = modeline::modeline_area(b.data);
            if let Some(m) = modeline::modeline_of(header + seq!['\n'] + footer) {
                crate::language::lemma_lookup_bounds(ls, m);
                if let Some(i) = crate::language::lookup_spec(ls, m) {
                    lemma_narrow_subset(seq![i as usize], c, n);
                }
            }
        },
        StrategyType::Filename(_) => {
            let found = crate::language::all_matches(ls, crate::language::with_filename(crate::text::basename(b.name)), n);
            crate::language::lemma_all_matches_bounded(ls, crate::language::with_filename(crate::text::basename(b.name)), n);
            lemma_narrow_subset(found, c, n);
        },
        StrategyType::Shebang(_) => {
            if let Some(t) = shebang::interpreter_of(b.data) {
                crate::language::lemma_all_matches_bounded(ls, crate::language::with_interpreter(t), n);
                lemma_narrow_subset(crate::language::all_matches(ls, crate::language::with_interpreter(t), n), c, n);
            }
        },
        StrategyType::Extension(_) => {
            crate::language::lemma_extension_lookup_bounded(ls, b.name);
            lemma_narrow_subset(crate::language::extension_lookup(ls, b.name), c, n);
        },
        StrategyType::Xml(_) => {
            crate::language::lemma_name_lookup_bounds(ls, "XML"@);
        },
        StrategyType::Manpage(_) => {
            crate::language::lemma_name_lookup_bounds(ls, "Roff Manpage"@);
            crate::language::lemma_name_lookup_bounds(ls, "Roff"@);
            let l1 = manpage::found_list(crate::language::name_lookup(ls, "Roff Manpage"@));
            let l2 = manpage::found_list(crate::language::name_lookup(ls, "Roff"@));
            assert(crate::language::bounded(l1 + l2, n)) by {
                assert forall|k: int| 0 <= k < (l1 + l2).len() implies #[trigger] (l1 + l2)[k] < n by {
                    if k < l1.len() {
                        assert((l1 + l2)[k] == l1[k]);
                    } else {
                        assert((l1 + l2)[k] == l2[k - l1.len()]);
                    }
                }
            }
        },
        StrategyType::Heuristics(_) => {
            let head = b.data.take(if b.data.len() < 51200 { b.data.len() as int } else { 51200 });
            if !(b.symlink || crate::blob::binary_data(b.data) || !vstd::utf8::valid_utf8(head)) {
                crate::heuristics::lemma_heuristics_bounded(
                    ls,
                    builtin_table(),
                    crate::text::lower_of(b.name),
                    vstd::utf8::decode_utf8(head),
                    c,
                    0,
                );
            }
        },
        StrategyType::Classifier(_) => {},
    }
}

} // verus!
