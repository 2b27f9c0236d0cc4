//! Disambiguation by content for extensions that several languages share.
//!
//! The rules are data: for each group of extensions, a list of rules tried in
//! order, each a conjunction of patterns that must (or must not) match and the
//! languages it stands for.
use vstd::prelude::*;
use vstd::utf8::{decode_utf8, valid_utf8};

use crate::blob::{binary_data, BlobView, FileBlob};
use crate::language::{name_lookup, Language, Registry};
use crate::pattern::{is_match, pattern_matches};
use crate::strategy::{narrow, narrow_to};
use crate::text::{chars_of, lower_of, to_lower, utf8_text};

verus! {

/// Most bytes of a file that rules look at.
pub const HEURISTICS_CONSIDER_BYTES: usize = 51200;

/// Objective-C declarations and imports.
pub const OBJECTIVE_C_PATTERN: &'static str = r#"(?m)^\s*(@(interface|class|protocol|property|end|synchronised|selector|implementation)\b|#import\s+.+\.h[">])"#;

/// Includes of C++ standard headers.
pub const CPP_PATTERN: &'static str = r#"(?m)^\s*#\s*include <(cstdint|string|vector|map|list|array|bitset|queue|stack|forward_list|unordered_map|unordered_set|(i|o|io)stream)>"#;

/// React imports and JSX elements.
pub const JSX_PATTERN: &'static str = r"import\s+React|\bReact\.|<[A-Z][A-Za-z]+>|</[A-Z][A-Za-z]+>|<[A-Z][A-Za-z]+\s";

/// A `man` title line.
pub const MAN_TITLE_PATTERN: &'static str = r#"(?m)^[.'][ \t]*TH +(?:"[^"]+"|[^\s"]+) +(?:"[^"]*"|[^\s"]+)"#;

/// A `man` section heading.
pub const MAN_HEADING_PATTERN: &'static str = r#"(?m)^[.'][ \t]*SH +(?:"[^"]+"|[^\s"]+)"#;

/// An `mdoc` date line.
pub const MDOC_DATE_PATTERN: &'static str = r"(?m)^[.'][ \t]*Dd +\S+";

/// An `mdoc` title line.
pub const MDOC_TITLE_PATTERN: &'static str = r"(?m)^[.'][ \t]*Dt +\S+";

/// An `mdoc` section heading.
pub const MDOC_HEADING_PATTERN: &'static str = r"(?m)^[.'][ \t]*Sh +\S+";

/// A pattern that must match, or with `negate`, must not.
pub struct Clause {
    pub pattern: String,
    pub negate: bool,
}

/// A conjunction of clauses (none: always holds) and the languages it stands for,
/// by name; a rule whose languages are all unknown to the registry is skipped.
pub struct Rule {
    pub clauses: Vec<Clause>,
    pub languages: Vec<String>,
}

/// The rules for a group of extensions.
pub struct Disambiguation {
    pub extensions: Vec<String>,
    pub rules: Vec<Rule>,
}

/// A clause as a pattern and a polarity.
pub type ClauseView = (Seq<char>, bool);

/// A rule as its clauses and its language names.
pub type RuleView = (Seq<ClauseView>, Seq<Seq<char>>);

/// A disambiguation as its extensions and its rules.
pub type DisambiguationView = (Seq<Seq<char>>, Seq<RuleView>);

pub open spec fn clause_view(c: Clause) -> ClauseView {
    (c.pattern@, c.negate)
}

pub open spec fn rule_view(r: Rule) -> RuleView {
    (r.clauses@.map_values(|c: Clause| clause_view(c)), r.languages@.map_values(|s: String| s@))
}

pub open spec fn disambiguation_view(d: Disambiguation) -> DisambiguationView {
    (d.extensions@.map_values(|s: String| s@), d.rules@.map_values(|r: Rule| rule_view(r)))
}

pub open spec fn table_view(t: Seq<Disambiguation>) -> Seq<DisambiguationView> {
    t.map_values(|d: Disambiguation| disambiguation_view(d))
}

/// A clause holds of a text.
pub open spec fn clause_holds(c: ClauseView, content: Seq<char>) -> bool {
    if c.1 {
        !pattern_matches(c.0, content)
    } else {
        pattern_matches(c.0, content)
    }
}

/// All clauses from `i` on hold of a text.
pub open spec fn clauses_hold(cs: Seq<ClauseView>, content: Seq<char>, i: int) -> bool
    decreases cs.len() - i,
{
    if i < 0 || i >= cs.len() {
        true
    } else {
        clause_holds(cs[i], content) && clauses_hold(cs, content, i + 1)
    }
}

/// The languages that the names of a rule resolve to, in order, skipping unknown names.
pub open spec fn resolve_names(ls: Seq<Language>, names: Seq<Seq<char>>) -> Seq<usize>
    decreases names.len(),
{
    if names.len() == 0 {
        seq![]
    } else {
        let rest = resolve_names(ls, names.drop_last());
        match name_lookup(ls, names.last()) {
            Some(i) => rest.push(i as usize),
            None => rest,
        }
    }
}

/// The languages of the first rule from `i` on that holds and names a known
/// language, kept to the candidates.
pub open spec fn disambiguate_from(
    ls: Seq<Language>,
    rules: Seq<RuleView>,
    content: Seq<char>,
    c: Seq<usize>,
    i: int,
) -> Seq<usize>
    decreases rules.len() - i,
{
    if i < 0 || i >= rules.len() {
        seq![]
    } else if clauses_hold(rules[i].0, content, 0) && resolve_names(ls, rules[i].1).len() > 0 {
        narrow(resolve_names(ls, rules[i].1), c)
    } else {
        disambiguate_from(ls, rules, content, c, i + 1)
    }
}

/// `s` ends with `e`.
pub open spec fn ends_with(s: Seq<char>, e: Seq<char>) -> bool {
    s.len() >= e.len() && s.subrange(s.len() - e.len(), s.len() as int) == e
}

/// Some extension of the list ends the name.
pub open spec fn ends_with_any(s: Seq<char>, exts: Seq<Seq<char>>) -> bool {
    exists|k: int| 0 <= k < exts.len() && ends_with(s, #[trigger] exts[k])
}

/// The first non-empty answer of the disambiguations from `j` on whose extensions
/// end the case-folded path.
pub open spec fn heuristics_from(
    ls: Seq<Language>,
    table: Seq<DisambiguationView>,
    name: Seq<char>,
    content: Seq<char>,
    c: Seq<usize>,
    j: int,
) -> Seq<usize>
    decreases table.len() - j,
{
    if j < 0 || j >= table.len() {
        seq![]
    } else {
        let r = if ends_with_any(name, table[j].0) {
            disambiguate_from(ls, table[j].1, content, c, 0)
        } else {
            seq![]
        };
        if r.len() > 0 {
            r
        } else {
            heuristics_from(ls, table, name, content, c, j + 1)
        }
    }
}

/// Nothing for links and binary data, or when the first 50 KiB are not UTF-8;
/// else what the table says of those bytes.
pub open spec fn heuristics_result(
    ls: Seq<Language>,
    table: Seq<DisambiguationView>,
    b: BlobView,
    c: Seq<usize>,
) -> Seq<usize> {
    let head = b.data.take(if b.data.len() < 51200 { b.data.len() as int } else { 51200 });
    if b.symlink || binary_data(b.data) || !valid_utf8(head) {
        seq![]
    } else {
        heuristics_from(ls, table, lower_of(b.name), decode_utf8(head), c, 0)
    }
}

fn clause(pattern: &str, negate: bool) -> (r: Clause)
    ensures
        clause_view(r) == (pattern@, negate),
{
    Clause { pattern: String::from_str(pattern), negate }
}

fn names(items: &[&str]) -> (r: Vec<String>)
    ensures
        r@.len() == items@.len(),
        forall|j: int| 0 <= j < items@.len() ==> #[trigger] r@[j]@ == items@[j]@,
{
    let mut out: Vec<String> = Vec::new();
    let mut j: usize = 0;
    while j < items.len()
        invariant
            j <= items@.len(),
            out@.len() == j,
            forall|q: int| 0 <= q < j ==> #[trigger] out@[q]@ == items@[q]@,
        decreases items@.len() - j,
    {
        out.push(String::from_str(items[j]));
        j = j + 1;
    }
    out
}

/// Extensions of manual pages that the Roff rules cover.
pub open spec fn manpage_extensions() -> Seq<Seq<char>> {
    seq![".1"@, ".2"@, ".3"@, ".4"@, ".5"@, ".6"@, ".7"@, ".8"@, ".9"@, ".1in"@, ".1m"@, ".1x"@, ".3in"@, ".3m"@, ".3p"@, ".3pm"@, ".3qt"@, ".3x"@, ".man"@, ".mdoc"@]
}

/// The built-in rules: C, C++ and Objective-C headers; JavaScript and JSX; manual
/// pages and other Roff.
pub open spec fn builtin_table() -> Seq<DisambiguationView> {
    seq![
        (
            seq![".h"@],
            seq![
                (seq![(OBJECTIVE_C_PATTERN@, false)], seq!["Objective-C"@]),
                (seq![(CPP_PATTERN@, false)], seq!["C++"@]),
                (seq![], seq!["C"@]),
            ],
        ),
        (
            seq![".js"@],
            seq![(seq![(JSX_PATTERN@, false)], seq!["JSX"@]), (seq![], seq!["JavaScript"@])],
        ),
        (
            manpage_extensions(),
            seq![
                (
                    seq![(MDOC_DATE_PATTERN@, false), (MDOC_TITLE_PATTERN@, false), (MDOC_HEADING_PATTERN@, false)],
                    seq!["Roff Manpage"@],
                ),
                (seq![(MAN_TITLE_PATTERN@, false), (MAN_HEADING_PATTERN@, false)], seq!["Roff Manpage"@]),
                (seq![], seq!["Roff"@]),
            ],
        ),
    ]
}

/// Content disambiguation for shared extensions.
#[derive(Debug, Clone, Copy)]
pub struct Heuristics;

impl Heuristics {
    /// The built-in rule table.
    pub fn table() -> (r: Vec<Disambiguation>)
        ensures
            table_view(r@) == builtin_table(),
    {
        let mut t: Vec<Disambiguation> = Vec::new();

        let mut rules: Vec<Rule> = Vec::new();
        let mut cs: Vec<Clause> = Vec::new();
        cs.push(clause(OBJECTIVE_C_PATTERN, false));
        rules.push(Rule { clauses: cs, languages: names(&["Objective-C"]) });
        let mut cs: Vec<Clause> = Vec::new();
        cs.push(clause(CPP_PATTERN, false));
        rules.push(Rule { clauses: cs, languages: names(&["C++"]) });
        rules.push(Rule { clauses: Vec::new(), languages: names(&["C"]) });
        let d = Disambiguation { extensions: names(&[".h"]), rules };
        assert(disambiguation_view(d) =~~= builtin_table()[0]);
        t.push(d);

        let mut rules: Vec<Rule> = Vec::new();
        let mut cs: Vec<Clause> = Vec::new();
        cs.push(clause(JSX_PATTERN, false));
        rules.push(Rule { clauses: cs, languages: names(&["JSX"]) });
        rules.push(Rule { clauses: Vec::new(), languages: names(&["JavaScript"]) });
        let d = Disambiguation { extensions: names(&[".js"]), rules };
        assert(disambiguation_view(d) =~~= builtin_table()[1]);
        t.push(d);

        let mut rules: Vec<Rule> = Vec::new();
        let mut cs: Vec<Clause> = Vec::new();
        cs.push(clause(MDOC_DATE_PATTERN, false));
        cs.push(clause(MDOC_TITLE_PATTERN, false));
        cs.push(clause(MDOC_HEADING_PATTERN, false));
        rules.push(Rule { clauses: cs, languages: names(&["Roff Manpage"]) });
        let mut cs: Vec<Clause> = Vec::new();
        cs.push(clause(MAN_TITLE_PATTERN, false));
        cs.push(clause(MAN_HEADING_PATTERN, false));
        rules.push(Rule { clauses: cs, languages: names(&["Roff Manpage"]) });
        rules.push(Rule { clauses: Vec::new(), languages: names(&["Roff"]) });
        let d = Disambiguation {
            extensions: names(
                &[".1", ".2", ".3", ".4", ".5", ".6", ".7", ".8", ".9", ".1in", ".1m", ".1x", ".3in", ".3m", ".3p", ".3pm", ".3qt", ".3x", ".man", ".mdoc"],
            ),
            rules,
        };
        assert(disambiguation_view(d) =~~= builtin_table()[2]);
        t.push(d);
        assert(table_view(t@) =~= builtin_table());
        t
    }
}

/// Whether `s` ends with `e`.
fn ends_with_chars(s: &[char], e: &[char]) -> (r: bool)
    ensures
        r == ends_with(s@, e@),
{
    if e.len() > s.len() {
        return false;
    }
    let off = s.len() - e.len();
    let mut k: usize = 0;
    while k < e.len()
        invariant
            e@.len() <= s.len(),
            off == s.len() - e.len(),
            s@.len() == s.len(),
            e@.len() == e.len(),
            k <= e@.len(),
            forall|q: int| 0 <= q < k ==> s@[off + q] == e@[q],
        decreases e@.len() - k,
    {
        if s[off + k] != e[k] {
            assert(s@.subrange(off as int, s@.len() as int)[k as int] != e@[k as int]);
            return false;
        }
        k = k + 1;
    }
    assert(s@.subrange(off as int, s@.len() as int) =~= e@);
    true
}

/// Whether every clause holds of the text.
fn all_clauses_hold(cs: &Vec<Clause>, content: &str) -> (r: bool)
    ensures
        r == clauses_hold(cs@.map_values(|c: Clause| clause_view(c)), content@, 0),
{
    let ghost v = cs@.map_values(|c: Clause| clause_view(c));
    let mut i: usize = 0;
    while i < cs.len()
        invariant
            v == cs@.map_values(|c: Clause| clause_view(c)),
            i <= cs@.len(),
            clauses_hold(v, content@, 0) == clauses_hold(v, content@, i as int),
        decreases cs@.len() - i,
    {
        let c = &cs[i];
        let found = is_match(c.pattern.as_str(), content);
        let holds = if c.negate { !found } else { found };
        assert(v[i as int] == clause_view(cs@[i as int]));
        if !holds {
            return false;
        }
        i = i + 1;
    }
    true
}

impl Heuristics {
    /// The languages that a list of names resolves to, skipping unknown names.
    fn resolve(registry: &Registry, names: &Vec<String>) -> (r: Vec<usize>)
        requires
            registry.wf(),
        ensures
            r@ == resolve_names(registry.langs(), names@.map_values(|s: String| s@)),
    {
        let ghost v = names@.map_values(|s: String| s@);
        let mut out: Vec<usize> = Vec::new();
        let mut j: usize = 0;
        while j < names.len()
            invariant
                registry.wf(),
                v == names@.map_values(|s: String| s@),
                j <= names@.len(),
                out@ == resolve_names(registry.langs(), v.take(j as int)),
            decreases names@.len() - j,
        {
            proof {
                assert(v.take(j + 1).drop_last() =~= v.take(j as int));
                assert(v.take(j + 1).last() == names@[j as int]@);
            }
            match Language::find_by_name(registry, names[j].as_str()) {
                Some(i) => {
                    out.push(i);
                },
                None => {},
            }
            j = j + 1;
        }
        proof {
            assert(v.take(j as int) =~= v);
        }
        out
    }

    /// The answer of the first rule that holds and names a known language.
    fn disambiguate(
        registry: &Registry,
        rules: &Vec<Rule>,
        content: &str,
        candidates: &Vec<usize>,
    ) -> (r: Vec<usize>)
        requires
            registry.wf(),
        ensures
            r@ == disambiguate_from(
                registry.langs(),
                rules@.map_values(|r: Rule| rule_view(r)),
                content@,
                candidates@,
                0,
            ),
    {
        let ghost v = rules@.map_values(|r: Rule| rule_view(r));
        let mut i: usize = 0;
        while i < rules.len()
            invariant
                registry.wf(),
                v == rules@.map_values(|r: Rule| rule_view(r)),
                i <= rules@.len(),
                disambiguate_from(registry.langs(), v, content@, candidates@, 0)
                    == disambiguate_from(registry.langs(), v, content@, candidates@, i as int),
            decreases rules@.len() - i,
        {
            let rule = &rules[i];
            assert(v[i as int] == rule_view(rules@[i as int]));
            if all_clauses_hold(&rule.clauses, content) {
                let langs = Heuristics::resolve(registry, &rule.languages);
                if langs.len() > 0 {
                    return narrow_to(langs, candidates);
                }
            }
            i = i + 1;
        }
        Vec::new()
    }

    /// Whether one of the extensions of a disambiguation ends the name.
    fn applies(d: &Disambiguation, name: &[char]) -> (r: bool)
        ensures
            r == ends_with_any(name@, disambiguation_view(*d).0),
    {
        let ghost v = d.extensions@.map_values(|s: String| s@);
        let mut k: usize = 0;
        while k < d.extensions.len()
            invariant
                v == d.extensions@.map_values(|s: String| s@),
                k <= v.len(),
                forall|q: int| 0 <= q < k ==> !ends_with(name@, #[trigger] v[q]),
            decreases v.len() - k,
        {
            let e = chars_of(d.extensions[k].as_str());
            if ends_with_chars(name, e.as_slice()) {
                assert(ends_with(name@, v[k as int]));
                return true;
            }
            k = k + 1;
        }
        false
    }

    pub fn call(&self, blob: &FileBlob, registry: &Registry, candidates: &Vec<usize>) -> (r: Vec<usize>)
        requires
            registry.wf(),
        ensures
            r@ == heuristics_result(registry.langs(), builtin_table(), blob@, candidates@),
    {
        if blob.is_binary() || blob.is_symlink() {
            return Vec::new();
        }
        let data = blob.data();
        let n = if data.len() < HEURISTICS_CONSIDER_BYTES {
            data.len()
        } else {
            HEURISTICS_CONSIDER_BYTES
        };
        proof {
            assert(data@.subrange(0, n as int) =~= data@.take(n as int));
        }
        let content = match utf8_text(&data[0..n]) {
            Some(t) => t,
            None => {
                return Vec::new();
            },
        };
        let lowered = to_lower(blob.name());
        let name = chars_of(lowered.as_str());
        let table = Heuristics::table();
        let ghost tv = table_view(table@);
        assert(heuristics_result(registry.langs(), builtin_table(), blob@, candidates@)
            == heuristics_from(registry.langs(), tv, name@, content@, candidates@, 0));
        let mut j: usize = 0;
        while j < table.len()
            invariant
                registry.wf(),
                tv == table_view(table@),
                tv == builtin_table(),
                name@ == lower_of(blob@.name),
                j <= table@.len(),
                heuristics_result(registry.langs(), builtin_table(), blob@, candidates@)
                    == heuristics_from(registry.langs(), tv, name@, content@, candidates@, 0),
                heuristics_from(registry.langs(), tv, name@, content@, candidates@, 0)
                    == heuristics_from(registry.langs(), tv, name@, content@, candidates@, j as int),
            decreases table@.len() - j,
        {
            assert(tv[j as int] == disambiguation_view(table@[j as int]));
            if Heuristics::applies(&table[j], name.as_slice()) {
                let r = Heuristics::disambiguate(registry, &table[j].rules, content.as_str(), candidates);
                if r.len() > 0 {
                    return r;
                }
            }
            j = j + 1;
        }
        Vec::new()
    }
}

proof fn lemma_disambiguate_within(
    ls: Seq<Language>,
    rules: Seq<RuleView>,
    content: Seq<char>,
    c: Seq<usize>,
    i: int,
)
    requires
        c.len() > 0,
    ensures
        forall|x: usize| #[trigger] disambiguate_from(ls, rules, content, c, i).contains(x) ==> c.contains(x),
    decreases rules.len() - i,
{
    let r = disambiguate_from(ls, rules, content, c, i);
    if 0 <= i < rules.len() {
        if clauses_hold(rules[i].0, content, 0) && resolve_names(ls, rules[i].1).len() > 0 {
            let found = resolve_names(ls, rules[i].1);
            crate::strategy::lemma_narrow_within(found, c);
            assert forall|x: usize| #[trigger] r.contains(x) implies c.contains(x) by {
                assert(r == crate::strategy::narrow(found, c));
                assert(crate::strategy::narrow(found, c).contains(x));
            }
        } else {
            lemma_disambiguate_within(ls, rules, content, c, i + 1);
            assert forall|x: usize| #[trigger] r.contains(x) implies c.contains(x) by {
                assert(r == disambiguate_from(ls, rules, content, c, i + 1));
                assert(disambiguate_from(ls, rules, content, c, i + 1).contains(x));
            }
        }
    } else {
        assert(r.len() == 0);
    }
}

/// With candidates, every language the rules answer is one of them.
pub proof fn lemma_heuristics_within(
    ls: Seq<Language>,
    table: Seq<DisambiguationView>,
    name: Seq<char>,
    content: Seq<char>,
    c: Seq<usize>,
    j: int,
)
    requires
        c.len() > 0,
    ensures
        forall|x: usize| #[trigger] heuristics_from(ls, table, name, content, c, j).contains(x) ==> c.contains(x),
    decreases table.len() - j,
{
    let r = heuristics_from(ls, table, name, content, c, j);
    if 0 <= j < table.len() {
        lemma_disambiguate_within(ls, table[j].1, content, c, 0);
        lemma_heuristics_within(ls, table, name, content, c, j + 1);
        let here = if ends_with_any(name, table[j].0) {
            disambiguate_from(ls, table[j].1, content, c, 0)
        } else {
            seq![]
        };
        assert forall|x: usize| #[trigger] r.contains(x) implies c.contains(x) by {
            if here.len() > 0 {
                assert(r == here);
                assert(disambiguate_from(ls, table[j].1, content, c, 0).contains(x));
            } else {
                assert(r == heuristics_from(ls, table, name, content, c, j + 1));
                assert(heuristics_from(ls, table, name, content, c, j + 1).contains(x));
            }
        }
    } else {
        assert(r.len() == 0);
    }
}

proof fn lemma_resolve_bounded(ls: Seq<Language>, names: Seq<Seq<char>>)
    ensures
        crate::language::bounded(resolve_names(ls, names), ls.len() as int),
    decreases names.len(),
{
    if names.len() > 0 {
        lemma_resolve_bounded(ls, names.drop_last());
        crate::language::lemma_name_lookup_bounds(ls, names.last());
    }
}

proof fn lemma_disambiguate_bounded(
    ls: Seq<Language>,
    rules: Seq<RuleView>,
    content: Seq<char>,
    c: Seq<usize>,
    i: int,
)
    ensures
        crate::language::bounded(disambiguate_from(ls, rules, content, c, i), ls.len() as int),
    decreases rules.len() - i,
{
    if 0 <= i < rules.len() {
        lemma_resolve_bounded(ls, rules[i].1);
        crate::strategy::lemma_narrow_subset(resolve_names(ls, rules[i].1), c, ls.len() as int);
        lemma_disambiguate_bounded(ls, rules, content, c, i + 1);
    }
}

/// The languages the rules answer are in the registry.
pub proof fn lemma_heuristics_bounded(
    ls: Seq<Language>,
    table: Seq<DisambiguationView>,
    name: Seq<char>,
    content: Seq<char>,
    c: Seq<usize>,
    j: int,
)
    ensures
        crate::language::bounded(heuristics_from(ls, table, name, content, c, j), ls.len() as int),
    decreases table.len() - j,
{
    if 0 <= j < table.len() {
        lemma_disambiguate_bounded(ls, table[j].1, content, c, 0);
        lemma_heuristics_bounded(ls, table, name, content, c, j + 1);
    }
}

} // verus!
