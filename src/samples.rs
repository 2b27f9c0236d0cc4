//! What a corpus of sample files says about each language: the extensions,
//! interpreters and file names its samples show.
use vstd::prelude::*;

use crate::keyed::{has_key, lemma_map_of, map_of, pair_views, sorted_keys, upsert};
use crate::order::lex_lt;
use crate::text::views;

verus! {

/// A sample file of a language.
pub struct Sample {
    /// Where the sample is.
    pub path: String,
    /// The language it is a sample of.
    pub language: String,
    /// Its file name, for samples of a language's known file names.
    pub filename: Option<String>,
    /// The interpreter its `#!` line names, if any.
    pub interpreter: Option<String>,
    /// Its extension, dot included, if any.
    pub extension: Option<String>,
}

/// What the samples of one language show, each list without repeats, in the
/// order first seen.
pub struct SampleData {
    pub extensions: Vec<String>,
    pub interpreters: Vec<String>,
    pub filenames: Vec<String>,
}

/// A field of a sample.
#[derive(Debug, Clone, Copy, PartialEq, Eq, Structural)]
pub enum SampleField {
    Extension,
    Interpreter,
    Filename,
}

pub open spec fn field_of(f: SampleField, s: Sample) -> Option<String> {
    match f {
        SampleField::Extension => s.extension,
        SampleField::Interpreter => s.interpreter,
        SampleField::Filename => s.filename,
    }
}

/// The distinct values of a field over the samples of language `l`, in the order
/// first seen.
pub open spec fn distinct_values(samples: Seq<Sample>, l: Seq<char>, f: SampleField) -> Seq<Seq<char>>
    decreases samples.len(),
{
    if samples.len() == 0 {
        seq![]
    } else {
        let r = distinct_values(samples.drop_last(), l, f);
        let s = samples.last();
        match field_of(f, s) {
            Some(v) => if s.language@ == l && !r.contains(v@) {
                r.push(v@)
            } else {
                r
            },
            None => r,
        }
    }
}

/// The samples of language `l` show something.
pub open spec fn shows_something(samples: Seq<Sample>, l: Seq<char>) -> bool {
    distinct_values(samples, l, SampleField::Extension).len() > 0 || distinct_values(
        samples,
        l,
        SampleField::Interpreter,
    ).len() > 0 || distinct_values(samples, l, SampleField::Filename).len() > 0
}

/// Some sample is of language `l`.
pub open spec fn has_samples(samples: Seq<Sample>, l: Seq<char>) -> bool {
    exists|k: int| 0 <= k < samples.len() && #[trigger] samples[k].language@ == l
}

/// The data of one language matches the samples.
pub open spec fn data_matches(samples: Seq<Sample>, l: Seq<char>, d: SampleData) -> bool {
    &&& views(d.extensions@) == distinct_values(samples, l, SampleField::Extension)
    &&& views(d.interpreters@) == distinct_values(samples, l, SampleField::Interpreter)
    &&& views(d.filenames@) == distinct_values(samples, l, SampleField::Filename)
}

/// Whether `v` holds a string equal to `s`.
fn holds(v: &Vec<String>, s: &String) -> (r: bool)
    ensures
        r == views(v@).contains(s@),
{
    let mut j: usize = 0;
    while j < v.len()
        invariant
            j <= v@.len(),
            forall|q: int| 0 <= q < j ==> #[trigger] v@[q]@ != s@,
        decreases v@.len() - j,
    {
        if v[j] == *s {
            assert(views(v@)[j as int] == s@);
            return true;
        }
        j = j + 1;
    }
    proof {
        if views(v@).contains(s@) {
            let q = choose|q: int| 0 <= q < views(v@).len() && views(v@)[q] == s@;
            assert(v@[q]@ == s@);
        }
    }
    false
}

/// The value of a field of a sample.
fn field(f: SampleField, s: &Sample) -> (r: &Option<String>)
    ensures
        *r == field_of(f, *s),
{
    match f {
        SampleField::Extension => &s.extension,
        SampleField::Interpreter => &s.interpreter,
        SampleField::Filename => &s.filename,
    }
}

/// The distinct values of a field over the samples of `lang`, in the order first seen.
fn distinct(samples: &Vec<Sample>, lang: &String, f: SampleField) -> (r: Vec<String>)
    ensures
        views(r@) == distinct_values(samples@, lang@, f),
{
    let mut out: Vec<String> = Vec::new();
    let mut i: usize = 0;
    while i < samples.len()
        invariant
            i <= samples@.len(),
            views(out@) == distinct_values(samples@.take(i as int), lang@, f),
        decreases samples@.len() - i,
    {
        proof {
            assert(samples@.take(i + 1).drop_last() =~= samples@.take(i as int));
            assert(samples@.take(i + 1).last() == samples@[i as int]);
        }
        let s = &samples[i];
        if s.language == *lang {
            if let Some(v) = field(f, s) {
                if !holds(&out, v) {
                    let c = v.clone();
                    let ghost before = out@;
                    out.push(c);
                    proof {
                        assert(views(out@) =~= views(before).push(v@));
                    }
                }
            }
        }
        i = i + 1;
    }
    proof {
        assert(samples@.take(i as int) =~= samples@);
    }
    out
}

proof fn lemma_values_need_samples(samples: Seq<Sample>, l: Seq<char>, f: SampleField)
    requires
        distinct_values(samples, l, f).len() > 0,
    ensures
        has_samples(samples, l),
    decreases samples.len(),
{
    let r = distinct_values(samples.drop_last(), l, f);
    if r.len() > 0 {
        lemma_values_need_samples(samples.drop_last(), l, f);
        let k = choose|k: int| 0 <= k < samples.drop_last().len() && #[trigger] samples.drop_last()[k].language@ == l;
        assert(samples[k].language@ == l);
    } else {
        assert(samples[samples.len() - 1].language@ == l);
    }
}

/// `key` is one of the first `k` keys.
pub open spec fn listed_before<V>(lv: Seq<(Seq<char>, V)>, key: Seq<char>, k: int) -> bool {
    exists|j: int| 0 <= j < k && #[trigger] lv[j].0 == key
}

/// For each language with samples that show something, what they show; sorted by
/// language name.
pub fn extract_sample_data(samples: &Vec<Sample>) -> (r: Vec<(String, SampleData)>)
    ensures
        forall|a: int, b: int| 0 <= a < b < r@.len() ==> lex_lt(#[trigger] r@[a].0@, #[trigger] r@[b].0@),
        forall|k: int|
            0 <= k < r@.len() ==> data_matches(samples@, #[trigger] r@[k].0@, r@[k].1) && shows_something(
                samples@,
                r@[k].0@,
            ),
        forall|l: Seq<char>|
            shows_something(samples@, l) ==> exists|k: int| 0 <= k < r@.len() && #[trigger] r@[k].0@ == l,
{
    let mut langs: Vec<(String, ())> = Vec::new();
    let mut i: usize = 0;
    proof {
        assert(map_of(pair_views(langs@)) =~= Map::<Seq<char>, ()>::empty());
    }
    while i < samples.len()
        invariant
            i <= samples@.len(),
            sorted_keys(pair_views(langs@)),
            forall|l: Seq<char>| #[trigger] map_of(pair_views(langs@)).contains_key(l) <==> has_samples(samples@.take(i as int), l),
        decreases samples@.len() - i,
    {
        let ghost before = map_of(pair_views(langs@));
        upsert(&mut langs, samples[i].language.clone(), ());
        proof {
            let t = samples@.take(i + 1);
            assert forall|l: Seq<char>| #[trigger] map_of(pair_views(langs@)).contains_key(l) <==> has_samples(t, l) by {
                if has_samples(t, l) {
                    let k = choose|k: int| 0 <= k < t.len() && #[trigger] t[k].language@ == l;
                    if k < i {
                        assert(samples@.take(i as int)[k].language@ == l);
                    }
                }
                if has_samples(samples@.take(i as int), l) {
                    let k = choose|k: int| 0 <= k < i && #[trigger] samples@.take(i as int)[k].language@ == l;
                    assert(t[k].language@ == l);
                }
                if l == samples@[i as int].language@ {
                    assert(t[i as int].language@ == l);
                }
            }
        }
        i = i + 1;
    }
    proof {
        assert(samples@.take(i as int) =~= samples@);
        lemma_map_of(pair_views(langs@));
    }
    let ghost lv = pair_views(langs@);
    let mut out: Vec<(String, SampleData)> = Vec::new();
    let mut k: usize = 0;
    while k < langs.len()
        invariant
            lv == pair_views(langs@),
            sorted_keys(lv),
            forall|l: Seq<char>| #[trigger] map_of(lv).contains_key(l) <==> has_samples(samples@, l),
            forall|l: Seq<char>| #[trigger] map_of(lv).contains_key(l) <==> has_key(lv, l),
            k <= lv.len(),
            forall|a: int| 0 <= a < out@.len() ==> #[trigger] listed_before(lv, out@[a].0@, k as int),
            forall|a: int, b: int| 0 <= a < b < out@.len() ==> lex_lt(#[trigger] out@[a].0@, #[trigger] out@[b].0@),
            forall|a: int|
                0 <= a < out@.len() ==> data_matches(samples@, #[trigger] out@[a].0@, out@[a].1) && shows_something(
                    samples@,
                    out@[a].0@,
                ),
            forall|j: int|
                0 <= j < k && shows_something(samples@, #[trigger] lv[j].0) ==> exists|a: int| 0 <= a < out@.len() && out@[a].0@ == lv[j].0,
        decreases lv.len() - k,
    {
        let lang = &langs[k].0;
        let data = SampleData {
            extensions: distinct(samples, lang, SampleField::Extension),
            interpreters: distinct(samples, lang, SampleField::Interpreter),
            filenames: distinct(samples, lang, SampleField::Filename),
        };
        let ghost before = out@;
        let ghost key = lv[k as int].0;
        assert(lang@ == key);
        assert(views(data.extensions@).len() == data.extensions@.len());
        assert(views(data.interpreters@).len() == data.interpreters@.len());
        assert(views(data.filenames@).len() == data.filenames@.len());
        let shows = data.extensions.len() > 0 || data.interpreters.len() > 0 || data.filenames.len() > 0;
        assert(shows == shows_something(samples@, key));
        if shows {
            out.push((lang.clone(), data));
            proof {
                assert(out@[before.len() as int].0@ == key);
                assert forall|a: int| 0 <= a < before.len() implies lex_lt(#[trigger] out@[a].0@, key) by {
                    assert(out@[a] == before[a]);
                    assert(listed_before(lv, before[a].0@, k as int));
                    let j = choose|j: int| 0 <= j < k && #[trigger] lv[j].0 == before[a].0@;
                }
            }
        }
        proof {
            assert forall|a: int| 0 <= a < out@.len() implies #[trigger] listed_before(lv, out@[a].0@, k + 1) by {
                if a < before.len() {
                    assert(out@[a] == before[a]);
                    assert(listed_before(lv, before[a].0@, k as int));
                    let j = choose|j: int| 0 <= j < k && #[trigger] lv[j].0 == before[a].0@;
                    assert(lv[j].0 == out@[a].0@);
                } else {
                    assert(lv[k as int].0 == out@[a].0@);
                }
            }
            assert forall|j: int| 0 <= j < k + 1 && shows_something(samples@, #[trigger] lv[j].0) implies exists|a: int| 0 <= a < out@.len() && out@[a].0@ == lv[j].0 by {
                if j < k {
                    let a = choose|a: int| 0 <= a < before.len() && before[a].0@ == lv[j].0;
                    assert(out@[a] == before[a]);
                } else {
                    assert(out@[before.len() as int].0@ == lv[j].0);
                }
            }
        }
        k = k + 1;
    }
    proof {
        assert forall|l: Seq<char>| shows_something(samples@, l) implies exists|a: int| 0 <= a < out@.len() && #[trigger] out@[a].0@ == l by {
            if distinct_values(samples@, l, SampleField::Extension).len() > 0 {
                lemma_values_need_samples(samples@, l, SampleField::Extension);
            } else if distinct_values(samples@, l, SampleField::Interpreter).len() > 0 {
                lemma_values_need_samples(samples@, l, SampleField::Interpreter);
            } else {
                lemma_values_need_samples(samples@, l, SampleField::Filename);
            }
            assert(map_of(lv).contains_key(l));
            let j = choose|j: int| 0 <= j < lv.len() && #[trigger] lv[j].0 == l;
            assert(shows_something(samples@, lv[j].0));
        }
    }
    out
}

} // verus!
