//! Language statistics over a tree of files: a cache from path to language and
//! size, built by a full walk or patched from a list of changes, and the queries
//! over it.
use vstd::prelude::*;

use crate::blob::{is_submodule_mode, is_symlink_mode, BlobView, FileBlob};
use crate::keyed::{
    find_key, lemma_map_of, lemma_sorted_unique, map_of, pair_views, remove_key, sorted_keys, upsert,
};
use crate::language::{group_of, Language, Registry};
use crate::pipeline::{detect_spec, included};
use crate::pattern::opt_view;
use crate::text::{basename, basename_of, chars_eq, chars_of, views};

verus! {

/// What the cache keeps for a path: the language its bytes count for, and their number.
pub type StatValue = (String, usize);

/// The cache of an analysis, kept sorted by path.
pub struct FileStatsCache {
    entries: Vec<(String, StatValue)>,
}

impl FileStatsCache {
    /// The entries as path and value pairs, in path order.
    pub closed spec fn pairs(&self) -> Seq<(Seq<char>, StatValue)> {
        pair_views(self.entries@)
    }

    /// Entries are strictly sorted by path.
    pub open spec fn wf(&self) -> bool {
        sorted_keys(self.pairs())
    }

    /// The cache as a map from path.
    pub open spec fn map(&self) -> Map<Seq<char>, StatValue> {
        map_of(self.pairs())
    }

    /// An empty cache.
    pub fn new() -> (r: FileStatsCache)
        ensures
            r.wf(),
            r.pairs() == Seq::<(Seq<char>, StatValue)>::empty(),
    {
        let r = FileStatsCache { entries: Vec::new() };
        assert(r.pairs() =~= Seq::<(Seq<char>, StatValue)>::empty());
        r
    }

    /// The entries, in path order.
    pub fn entries(&self) -> (r: &[(String, StatValue)])
        ensures
            pair_views(r@) == self.pairs(),
    {
        self.entries.as_slice()
    }

    /// Number of entries.
    pub fn len(&self) -> (r: usize)
        ensures
            r == self.pairs().len(),
    {
        self.entries.len()
    }

    /// Records the language and size of `path`, replacing what was there.
    pub fn record(&mut self, path: String, language: String, size: usize)
        requires
            old(self).wf(),
        ensures
            final(self).wf(),
            final(self).map() == old(self).map().insert(path@, (language, size)),
    {
        upsert(&mut self.entries, path, (language, size));
    }

    /// Forgets `path`.
    pub fn remove(&mut self, path: &String)
        requires
            old(self).wf(),
        ensures
            final(self).wf(),
            final(self).map() == old(self).map().remove(path@),
    {
        remove_key(&mut self.entries, path);
    }
}

/// Name of the language that statistics for the language at `i` roll up into.
pub open spec fn group_name(ls: Seq<Language>, i: int) -> String {
    match group_of(ls, i) {
        Some(g) => ls[g].name,
        None => ls[i].name,
    }
}

/// What a file contributes to the statistics: nothing for links, submodules and
/// files that do not count; else its group language and its size.
pub open spec fn file_record(ls: Seq<Language>, b: BlobView) -> Option<StatValue> {
    if !b.symlink && !b.submodule && included(ls, b) {
        match detect_spec(ls, b, false) {
            Some(i) => Some((group_name(ls, i as int), b.data.len() as usize)),
            None => None,
        }
    } else {
        None
    }
}

/// The cache after recording the files of a walk, in order, on top of `m`.
pub open spec fn walk_from(ls: Seq<Language>, m: Map<Seq<char>, StatValue>, w: Seq<BlobView>) -> Map<
    Seq<char>,
    StatValue,
>
    decreases w.len(),
{
    if w.len() == 0 {
        m
    } else {
        let prev = walk_from(ls, m, w.drop_last());
        match file_record(ls, w.last()) {
            Some(v) => prev.insert(w.last().name, v),
            None => prev,
        }
    }
}

/// The views of a list of blobs.
pub open spec fn blob_views(v: Seq<FileBlob>) -> Seq<BlobView> {
    v.map_values(|b: FileBlob| b@)
}

/// Records what one file contributes.
pub fn record_file(cache: &mut FileStatsCache, registry: &Registry, blob: &FileBlob)
    requires
        old(cache).wf(),
        registry.wf(),
    ensures
        final(cache).wf(),
        final(cache).map() == (match file_record(registry.langs(), blob@) {
            Some(v) => old(cache).map().insert(blob@.name, v),
            None => old(cache).map(),
        }),
{
    if blob.is_symlink() || blob.is_submodule() || !blob.include_in_language_stats(registry) {
        return;
    }
    match blob.language(registry) {
        Some(i) => {
            let g = match Language::group(registry, i) {
                Some(g) => g,
                None => i,
            };
            let name = registry.language(g).name.clone();
            cache.record(String::from_str(blob.name()), name, blob.size());
        },
        None => {},
    }
}

/// Builds the cache of a walk.
pub fn build_cache(registry: &Registry, files: &Vec<FileBlob>) -> (r: FileStatsCache)
    requires
        registry.wf(),
    ensures
        r.wf(),
        r.map() == walk_from(registry.langs(), Map::empty(), blob_views(files@)),
{
    let mut cache = FileStatsCache::new();
    proof {
        lemma_map_of(cache.pairs());
        assert(cache.map() =~= Map::<Seq<char>, StatValue>::empty());
    }
    let mut i: usize = 0;
    while i < files.len()
        invariant
            registry.wf(),
            i <= files@.len(),
            cache.wf(),
            cache.map() == walk_from(registry.langs(), Map::empty(), blob_views(files@).take(i as int)),
        decreases files@.len() - i,
    {
        record_file(&mut cache, registry, &files[i]);
        proof {
            let w = blob_views(files@).take(i + 1);
            assert(w.drop_last() =~= blob_views(files@).take(i as int));
            assert(w.last() == files@[i as int]@);
        }
        i = i + 1;
    }
    proof {
        assert(blob_views(files@).take(i as int) =~= blob_views(files@));
    }
    cache
}

/// The last file of a walk named `p` that contributes to the statistics.
pub open spec fn last_writer(ls: Seq<Language>, w: Seq<BlobView>, p: Seq<char>) -> Option<int>
    decreases w.len(),
{
    if w.len() == 0 {
        None
    } else if w.last().name == p && file_record(ls, w.last()) is Some {
        Some(w.len() - 1)
    } else {
        last_writer(ls, w.drop_last(), p)
    }
}

/// After a walk, a path holds what its last contributing file recorded, or what
/// it held before the walk.
pub proof fn lemma_walk_char(ls: Seq<Language>, m: Map<Seq<char>, StatValue>, w: Seq<BlobView>, p: Seq<char>)
    ensures
        match last_writer(ls, w, p) {
            Some(k) => 0 <= k < w.len() && w[k].name == p && file_record(ls, w[k]) is Some
                && walk_from(ls, m, w).contains_key(p) && walk_from(ls, m, w)[p] == file_record(ls, w[k])->0,
            None => (walk_from(ls, m, w).contains_key(p) == m.contains_key(p)) && (m.contains_key(p)
                ==> walk_from(ls, m, w)[p] == m[p]) && forall|k: int|
                0 <= k < w.len() && #[trigger] w[k].name == p ==> file_record(ls, w[k]) is None,
        },
    decreases w.len(),
{
    if w.len() > 0 {
        lemma_walk_char(ls, m, w.drop_last(), p);
        if last_writer(ls, w, p) is None {
            assert forall|k: int| 0 <= k < w.len() && #[trigger] w[k].name == p implies file_record(ls, w[k]) is None by {
                if k < w.len() - 1 {
                    assert(w.drop_last()[k] == w[k]);
                }
            }
        }
    }
}

/// Names in a walk are unique.
pub open spec fn unique_names(w: Seq<BlobView>) -> bool {
    forall|a: int, b: int| 0 <= a < w.len() && 0 <= b < w.len() && a != b ==> #[trigger] w[a].name != #[trigger] w[b].name
}

/// The cache a walk builds does not depend on the order of the walk: two walks
/// over the same files, each file once, build the same cache.
pub proof fn lemma_walk_order_independent(ls: Seq<Language>, w1: Seq<BlobView>, w2: Seq<BlobView>)
    requires
        unique_names(w1),
        unique_names(w2),
        forall|b: BlobView| w1.contains(b) <==> w2.contains(b),
    ensures
        walk_from(ls, Map::empty(), w1) == walk_from(ls, Map::empty(), w2),
{
    let e = Map::<Seq<char>, StatValue>::empty();
    let m1 = walk_from(ls, e, w1);
    let m2 = walk_from(ls, e, w2);
    assert forall|p: Seq<char>| #[trigger] m1.contains_key(p) == m2.contains_key(p) && (m1.contains_key(p) ==> m1[p] == m2[p]) by {
        lemma_walk_char(ls, e, w1, p);
        lemma_walk_char(ls, e, w2, p);
        if let Some(k1) = last_writer(ls, w1, p) {
            assert(w1.contains(w1[k1]));
            assert(w2.contains(w1[k1]));
            let j = choose|j: int| 0 <= j < w2.len() && w2[j] == w1[k1];
            assert(w2[j].name == p);
            if let Some(k2) = last_writer(ls, w2, p) {
                assert(k2 == j);
            }
        } else if let Some(k2) = last_writer(ls, w2, p) {
            assert(w2.contains(w2[k2]));
            assert(w1.contains(w2[k2]));
            let j = choose|j: int| 0 <= j < w1.len() && w1[j] == w2[k2];
            assert(w1[j].name == p);
        }
    }
    assert(m1 =~= m2);
}

/// Walking the same files again changes nothing.
pub proof fn lemma_walk_idempotent(ls: Seq<Language>, m: Map<Seq<char>, StatValue>, w: Seq<BlobView>)
    ensures
        walk_from(ls, walk_from(ls, m, w), w) == walk_from(ls, m, w),
{
    let once = walk_from(ls, m, w);
    let twice = walk_from(ls, once, w);
    assert forall|p: Seq<char>| #[trigger] twice.contains_key(p) == once.contains_key(p) && (once.contains_key(p) ==> twice[p] == once[p]) by {
        lemma_walk_char(ls, m, w, p);
        lemma_walk_char(ls, once, w, p);
    }
    assert(twice =~= once);
}

/// How a path changed between two snapshots.
#[derive(Debug, Clone, Copy, PartialEq, Eq, Structural)]
pub enum ChangeKind {
    Added,
    Modified,
    Renamed,
    Deleted,
}

/// One changed path between two snapshots: the path it had before, the mode and
/// blob it has after (named by its new path; unused when deleted).
pub struct Change {
    pub kind: ChangeKind,
    pub old_path: String,
    pub mode: u32,
    pub blob: FileBlob,
}

/// What a change is made of.
pub struct ChangeView {
    pub kind: ChangeKind,
    pub old_path: Seq<char>,
    pub mode: u32,
    pub blob: BlobView,
}

pub open spec fn change_view(c: Change) -> ChangeView {
    ChangeView { kind: c.kind, old_path: c.old_path@, mode: c.mode, blob: c.blob@ }
}

pub open spec fn change_views(v: Seq<Change>) -> Seq<ChangeView> {
    v.map_values(|c: Change| change_view(c))
}

/// The cache after one change: the old path is forgotten; unless the path was
/// deleted or is now a link or a submodule, the new file is recorded.
pub open spec fn apply_change(ls: Seq<Language>, m: Map<Seq<char>, StatValue>, c: ChangeView) -> Map<
    Seq<char>,
    StatValue,
> {
    let m2 = m.remove(c.old_path);
    if c.kind == ChangeKind::Deleted || is_symlink_mode(c.mode) || is_submodule_mode(c.mode) {
        m2
    } else {
        match file_record(ls, c.blob) {
            Some(v) => m2.insert(c.blob.name, v),
            None => m2,
        }
    }
}

/// The cache after a list of changes, in order.
pub open spec fn apply_changes(ls: Seq<Language>, m: Map<Seq<char>, StatValue>, cs: Seq<ChangeView>) -> Map<
    Seq<char>,
    StatValue,
>
    decreases cs.len(),
{
    if cs.len() == 0 {
        m
    } else {
        apply_change(ls, apply_changes(ls, m, cs.drop_last()), cs.last())
    }
}

/// Applies one change to a cache.
pub fn apply_one(cache: &mut FileStatsCache, registry: &Registry, change: &Change)
    requires
        old(cache).wf(),
        registry.wf(),
    ensures
        final(cache).wf(),
        final(cache).map() == apply_change(registry.langs(), old(cache).map(), change_view(*change)),
{
    cache.remove(&change.old_path);
    let file_bits = change.mode & 0o170000;
    if change.kind == ChangeKind::Deleted || file_bits == 0o120000 || file_bits == 0o160000 {
        return;
    }
    record_file(cache, registry, &change.blob);
}

/// An empty change list leaves the predecessor's cache exactly as it was: the
/// same map, and so the same sorted entries.
pub proof fn lemma_no_changes(ls: Seq<Language>, s: Seq<(Seq<char>, StatValue)>)
    requires
        sorted_keys(s),
    ensures
        apply_changes(ls, map_of(s), Seq::<ChangeView>::empty()) == map_of(s),
        cache_pairs(apply_changes(ls, map_of(s), Seq::<ChangeView>::empty())) == s,
{
    lemma_cache_pairs(s, map_of(s));
}

proof fn lemma_apply_concat(ls: Seq<Language>, m: Map<Seq<char>, StatValue>, a: Seq<ChangeView>, b: Seq<ChangeView>)
    ensures
        apply_changes(ls, m, a + b) == apply_changes(ls, apply_changes(ls, m, a), b),
    decreases b.len(),
{
    if b.len() == 0 {
        assert(a + b =~= a);
    } else {
        lemma_apply_concat(ls, m, a, b.drop_last());
        assert((a + b).drop_last() =~= a + b.drop_last());
        assert((a + b).last() == b.last());
    }
}

/// The deletion of a path.
pub open spec fn deletion(p: Seq<char>) -> ChangeView {
    ChangeView {
        kind: ChangeKind::Deleted,
        old_path: p,
        mode: 0,
        blob: BlobView { name: p, data: Seq::empty(), symlink: false, submodule: false },
    }
}

/// The addition of a regular file.
pub open spec fn addition(b: BlobView) -> ChangeView {
    ChangeView { kind: ChangeKind::Added, old_path: b.name, mode: 0o100644, blob: b }
}

/// The deletions of a list of paths.
pub open spec fn deletions(ps: Seq<Seq<char>>) -> Seq<ChangeView> {
    ps.map_values(|p: Seq<char>| deletion(p))
}

/// The additions of the files of a walk.
pub open spec fn additions(w: Seq<BlobView>) -> Seq<ChangeView> {
    w.map_values(|b: BlobView| addition(b))
}

/// A change list that deletes every path of `old_paths` and then adds every file of a walk.
pub open spec fn full_delta(old_paths: Seq<Seq<char>>, w: Seq<BlobView>) -> Seq<ChangeView> {
    deletions(old_paths) + additions(w)
}

proof fn lemma_deletions(ls: Seq<Language>, m: Map<Seq<char>, StatValue>, ps: Seq<Seq<char>>)
    ensures
        forall|q: Seq<char>| #[trigger] apply_changes(ls, m, deletions(ps)).contains_key(q)
            ==> m.contains_key(q) && !ps.contains(q),
    decreases ps.len(),
{
    if ps.len() > 0 {
        lemma_deletions(ls, m, ps.drop_last());
        let d = deletions(ps);
        assert(d.drop_last() =~= deletions(ps.drop_last()));
        assert(d.last() == deletion(ps.last()));
        let prev = apply_changes(ls, m, d.drop_last());
        assert(apply_changes(ls, m, d) == prev.remove(ps.last()));
        assert forall|q: Seq<char>| #[trigger] apply_changes(ls, m, d).contains_key(q) implies m.contains_key(q) && !ps.contains(q) by {
            assert(prev.contains_key(q) && q != ps.last());
            if ps.contains(q) {
                let k = choose|k: int| 0 <= k < ps.len() && ps[k] == q;
                assert(k < ps.len() - 1);
                assert(ps.drop_last()[k] == q);
                assert(ps.drop_last().contains(q));
            }
        }
    }
}

proof fn lemma_additions(ls: Seq<Language>, w: Seq<BlobView>)
    requires
        unique_names(w),
    ensures
        apply_changes(ls, Map::empty(), additions(w)) == walk_from(ls, Map::empty(), w),
    decreases w.len(),
{
    if w.len() > 0 {
        let t = w.drop_last();
        assert(unique_names(t)) by {
            assert forall|a: int, b: int| 0 <= a < t.len() && 0 <= b < t.len() && a != b implies #[trigger] t[a].name != #[trigger] t[b].name by {
                assert(t[a] == w[a] && t[b] == w[b]);
            }
        }
        lemma_additions(ls, t);
        let adds = additions(w);
        assert(adds.drop_last() =~= additions(t));
        let prev = walk_from(ls, Map::empty(), t);
        lemma_walk_char(ls, Map::empty(), t, w.last().name);
        assert(!prev.contains_key(w.last().name)) by {
            if let Some(k) = last_writer(ls, t, w.last().name) {
                assert(t[k] == w[k]);
            }
        }
        assert(prev.remove(w.last().name) =~= prev);
        assert(adds.last() == addition(w.last()));
        assert(0o100644u32 & 0o170000u32 == 0o100000u32) by (bit_vector);
        assert(!is_symlink_mode(0o100644u32) && !is_submodule_mode(0o100644u32));
        assert(apply_changes(ls, Map::empty(), adds) == apply_change(ls, prev, addition(w.last())));
    }
}

/// Rebuilding from a change list that deletes every old path and adds every file
/// of a walk gives the cache that a full walk builds.
pub proof fn lemma_full_delta_matches_walk(
    ls: Seq<Language>,
    m: Map<Seq<char>, StatValue>,
    old_paths: Seq<Seq<char>>,
    w: Seq<BlobView>,
)
    requires
        forall|p: Seq<char>| m.contains_key(p) ==> old_paths.contains(p),
        unique_names(w),
    ensures
        apply_changes(ls, m, full_delta(old_paths, w)) == walk_from(ls, Map::empty(), w),
{
    let dels = deletions(old_paths);
    let adds = additions(w);
    lemma_apply_concat(ls, m, dels, adds);
    lemma_deletions(ls, m, old_paths);
    assert(apply_changes(ls, m, dels) =~= Map::<Seq<char>, StatValue>::empty());
    lemma_additions(ls, w);
}

/// The cache pairs in canonical form for a map: sorted by path.
pub open spec fn cache_pairs(m: Map<Seq<char>, StatValue>) -> Seq<(Seq<char>, StatValue)> {
    choose|s: Seq<(Seq<char>, StatValue)>| sorted_keys(s) && map_of(s) == m
}

/// Bytes in a cache.
pub open spec fn total_bytes(s: Seq<(Seq<char>, StatValue)>) -> nat
    decreases s.len(),
{
    if s.len() == 0 {
        0
    } else {
        total_bytes(s.drop_last()) + s.last().1.1 as nat
    }
}

/// Bytes in a cache that count for language `l`.
pub open spec fn lang_total(s: Seq<(Seq<char>, StatValue)>, l: Seq<char>) -> nat
    decreases s.len(),
{
    if s.len() == 0 {
        0
    } else {
        lang_total(s.drop_last(), l) + if s.last().1.0@ == l {
            s.last().1.1 as nat
        } else {
            0
        }
    }
}

/// Some entry counts for language `l`.
pub open spec fn has_language(s: Seq<(Seq<char>, StatValue)>, l: Seq<char>) -> bool {
    exists|k: int| 0 <= k < s.len() && #[trigger] s[k].1.0@ == l
}

/// Bytes per language, for the languages of the cache.
pub open spec fn totals_map(s: Seq<(Seq<char>, StatValue)>) -> Map<Seq<char>, usize> {
    Map::new(|l: Seq<char>| has_language(s, l), |l: Seq<char>| lang_total(s, l) as usize)
}

/// Bytes per language, sorted by language name.
pub open spec fn breakdown_spec(s: Seq<(Seq<char>, StatValue)>) -> Seq<(Seq<char>, usize)> {
    choose|r: Seq<(Seq<char>, usize)>| sorted_keys(r) && map_of(r) == totals_map(s)
}

/// Position of the first largest count from `i` on, `b` being the best so far.
pub open spec fn best_from(r: Seq<(Seq<char>, usize)>, i: int, b: int) -> int
    decreases r.len() - i,
{
    if i < 0 || i >= r.len() {
        b
    } else if r[i].1 > r[b].1 {
        best_from(r, i + 1, i)
    } else {
        best_from(r, i + 1, b)
    }
}

/// The language with the most bytes; of several, the one whose name sorts first.
pub open spec fn primary_of(r: Seq<(Seq<char>, usize)>) -> Option<Seq<char>> {
    if r.len() == 0 {
        None
    } else {
        Some(r[best_from(r, 1, 0)].0)
    }
}

/// Paths whose bytes count for language `l`, in path order.
pub open spec fn files_of(s: Seq<(Seq<char>, StatValue)>, l: Seq<char>) -> Seq<Seq<char>>
    decreases s.len(),
{
    if s.len() == 0 {
        seq![]
    } else {
        let rest = files_of(s.drop_last(), l);
        if s.last().1.0@ == l {
            rest.push(s.last().0)
        } else {
            rest
        }
    }
}

proof fn lemma_prefix_totals(s: Seq<(Seq<char>, StatValue)>, i: int, l: Seq<char>)
    requires
        0 <= i <= s.len(),
    ensures
        lang_total(s.take(i), l) <= total_bytes(s.take(i)),
        total_bytes(s.take(i)) <= total_bytes(s),
    decreases s.len() - i,
{
    if i < s.len() {
        lemma_prefix_totals(s, i + 1, l);
        assert(s.take(i + 1).drop_last() =~= s.take(i));
    } else {
        assert(s.take(i) =~= s);
    }
    lemma_lang_le_total(s.take(i), l);
}

proof fn lemma_lang_le_total(s: Seq<(Seq<char>, StatValue)>, l: Seq<char>)
    ensures
        lang_total(s, l) <= total_bytes(s),
    decreases s.len(),
{
    if s.len() > 0 {
        lemma_lang_le_total(s.drop_last(), l);
    }
}

/// Total bytes in a cache, unless they overflow.
fn checked_total(v: &[(String, StatValue)]) -> (r: Option<usize>)
    ensures
        r matches Some(t) ==> t == total_bytes(pair_views(v@)),
        r is None ==> total_bytes(pair_views(v@)) > usize::MAX,
{
    let ghost s = pair_views(v@);
    let mut acc: usize = 0;
    let mut i: usize = 0;
    while i < v.len()
        invariant
            s == pair_views(v@),
            i <= v@.len(),
            acc == total_bytes(s.take(i as int)),
        decreases v@.len() - i,
    {
        proof {
            assert(s.take(i + 1).drop_last() =~= s.take(i as int));
        }
        match acc.checked_add(v[i].1.1) {
            Some(x) => {
                acc = x;
            },
            None => {
                proof {
                    lemma_prefix_totals(s, i + 1, Seq::empty());
                }
                return None;
            },
        }
        i = i + 1;
    }
    proof {
        assert(s.take(i as int) =~= s);
    }
    Some(acc)
}

/// Bytes per language, sorted by language name, given that the total fits.
fn breakdown(v: &[(String, StatValue)]) -> (r: Vec<(String, usize)>)
    requires
        total_bytes(pair_views(v@)) <= usize::MAX,
    ensures
        sorted_keys(pair_views(r@)),
        map_of(pair_views(r@)) == totals_map(pair_views(v@)),
{
    let ghost s = pair_views(v@);
    let mut out: Vec<(String, usize)> = Vec::new();
    proof {
        assert(map_of(pair_views(out@)) =~= totals_map(s.take(0)));
    }
    let mut i: usize = 0;
    while i < v.len()
        invariant
            s == pair_views(v@),
            total_bytes(s) <= usize::MAX,
            i <= v@.len(),
            sorted_keys(pair_views(out@)),
            map_of(pair_views(out@)) == totals_map(s.take(i as int)),
        decreases v@.len() - i,
    {
        let lang = &v[i].1.0;
        let n = v[i].1.1;
        let ghost l = lang@;
        let ghost before = s.take(i as int);
        let ghost after = s.take(i + 1);
        proof {
            assert(after.drop_last() =~= before);
            assert(after.last() == s[i as int]);
            lemma_prefix_totals(s, i + 1, l);
            lemma_map_of(pair_views(out@));
        }
        let current: usize = match find_key(&out, lang) {
            Some(j) => out[j].1,
            None => 0,
        };
        proof {
            if map_of(pair_views(out@)).contains_key(l) {
                assert(has_language(before, l));
                assert(current == lang_total(before, l));
            } else {
                assert(!has_language(before, l));
                assert(lang_total(before, l) == 0) by {
                    lemma_absent_total(before, l);
                }
            }
            assert(lang_total(after, l) == lang_total(before, l) + n);
        }
        let ghost old_map = map_of(pair_views(out@));
        upsert(&mut out, lang.clone(), current + n);
        proof {
            assert(has_language(after, l)) by {
                assert(after[i as int].1.0@ == l);
            }
            assert forall|q: Seq<char>| q != l implies (#[trigger] has_language(after, q) == has_language(before, q) && lang_total(after, q) == lang_total(before, q)) by {
                if has_language(after, q) {
                    let k = choose|k: int| 0 <= k < after.len() && #[trigger] after[k].1.0@ == q;
                    assert(k < i);
                    assert(before[k] == after[k]);
                }
                if has_language(before, q) {
                    let k = choose|k: int| 0 <= k < before.len() && #[trigger] before[k].1.0@ == q;
                    assert(after[k] == before[k]);
                }
            }
            assert(map_of(pair_views(out@)) =~= totals_map(after));
        }
        i = i + 1;
    }
    proof {
        assert(s.take(i as int) =~= s);
    }
    out
}

proof fn lemma_absent_total(s: Seq<(Seq<char>, StatValue)>, l: Seq<char>)
    requires
        !has_language(s, l),
    ensures
        lang_total(s, l) == 0,
    decreases s.len(),
{
    if s.len() > 0 {
        assert(!has_language(s.drop_last(), l)) by {
            if has_language(s.drop_last(), l) {
                let k = choose|k: int| 0 <= k < s.drop_last().len() && #[trigger] s.drop_last()[k].1.0@ == l;
                assert(s[k].1.0@ == l);
            }
        }
        lemma_absent_total(s.drop_last(), l);
        assert(s[s.len() - 1].1.0@ != l);
    }
}

/// Statistics of an analysis.
pub struct LanguageStats {
    /// Bytes per language, sorted by language name.
    pub language_breakdown: Vec<(String, usize)>,
    /// Total bytes.
    pub total_size: usize,
    /// The language with the most bytes; of several, the one whose name sorts first.
    pub language: Option<String>,
    /// Paths per language, both sorted.
    pub file_breakdown: Vec<(String, Vec<String>)>,
}

pub open spec fn file_views(v: Seq<(String, Vec<String>)>) -> Seq<(Seq<char>, Seq<Seq<char>>)> {
    v.map_values(|e: (String, Vec<String>)| (e.0@, views(e.1@)))
}

/// Paths per language, for the languages of a breakdown.
pub open spec fn files_spec(s: Seq<(Seq<char>, StatValue)>) -> Seq<(Seq<char>, Seq<Seq<char>>)> {
    breakdown_spec(s).map_values(|e: (Seq<char>, usize)| (e.0, files_of(s, e.0)))
}

/// The statistics are those of the cache pairs `s`.
pub open spec fn stats_match(st: LanguageStats, s: Seq<(Seq<char>, StatValue)>) -> bool {
    &&& pair_views(st.language_breakdown@) == breakdown_spec(s)
    &&& st.total_size == total_bytes(s)
    &&& opt_view(st.language) == primary_of(breakdown_spec(s))
    &&& file_views(st.file_breakdown@) == files_spec(s)
}

/// The paths of the entries that count for `lang`, in path order.
fn files_for(v: &[(String, StatValue)], lang: &String) -> (r: Vec<String>)
    ensures
        views(r@) == files_of(pair_views(v@), lang@),
{
    let ghost s = pair_views(v@);
    let mut out: Vec<String> = Vec::new();
    let mut i: usize = 0;
    while i < v.len()
        invariant
            s == pair_views(v@),
            i <= v@.len(),
            views(out@) == files_of(s.take(i as int), lang@),
        decreases v@.len() - i,
    {
        proof {
            assert(s.take(i + 1).drop_last() =~= s.take(i as int));
            assert(s.take(i + 1).last() == s[i as int]);
        }
        if v[i].1.0 == *lang {
            let p = v[i].0.clone();
            let ghost before = out@;
            out.push(p);
            proof {
                assert(views(out@) =~= views(before).push(p@));
            }
        }
        i = i + 1;
    }
    proof {
        assert(s.take(i as int) =~= s);
    }
    out
}

/// The name of the first language with the most bytes.
fn primary(r: &Vec<(String, usize)>) -> (p: Option<String>)
    ensures
        opt_view(p) == primary_of(pair_views(r@)),
{
    if r.len() == 0 {
        return None;
    }
    let ghost rv = pair_views(r@);
    let mut best: usize = 0;
    let mut i: usize = 1;
    while i < r.len()
        invariant
            rv == pair_views(r@),
            rv.len() > 0,
            1 <= i <= rv.len(),
            best < i,
            best_from(rv, 1, 0) == best_from(rv, i as int, best as int),
        decreases rv.len() - i,
    {
        if r[i].1 > r[best].1 {
            best = i;
        }
        i = i + 1;
    }
    Some(r[best].0.clone())
}

impl FileStatsCache {
    /// The statistics of the cache; none when its total byte count does not fit
    /// in `usize`.
    pub fn stats(&self) -> (r: Option<LanguageStats>)
        requires
            self.wf(),
        ensures
            r is None <==> total_bytes(self.pairs()) > usize::MAX,
            r matches Some(st) ==> stats_match(st, self.pairs()),
    {
        let v = self.entries.as_slice();
        let total = match checked_total(v) {
            Some(t) => t,
            None => {
                return None;
            },
        };
        let langs = breakdown(v);
        proof {
            lemma_sorted_unique(pair_views(langs@), breakdown_spec(self.pairs()));
        }
        let language = primary(&langs);
        let mut files: Vec<(String, Vec<String>)> = Vec::new();
        let mut k: usize = 0;
        while k < langs.len()
            invariant
                pair_views(langs@) == breakdown_spec(self.pairs()),
                v@ == self.entries@,
                k <= langs@.len(),
                file_views(files@) == files_spec(self.pairs()).take(k as int),
            decreases langs@.len() - k,
        {
            let paths = files_for(v, &langs[k].0);
            let name = langs[k].0.clone();
            let ghost before = files@;
            files.push((name, paths));
            proof {
                let bd = breakdown_spec(self.pairs());
                assert(name@ == bd[k as int].0);
                assert(pair_views(v@) == self.pairs());
                assert(views(paths@) == files_of(self.pairs(), bd[k as int].0));
                assert(files_spec(self.pairs())[k as int] == (bd[k as int].0, files_of(self.pairs(), bd[k as int].0)));
                assert(file_views(files@) =~= file_views(before).push((name@, views(paths@))));
                assert(file_views(files@) =~= files_spec(self.pairs()).take(k + 1));
            }
            k = k + 1;
        }
        proof {
            assert(files_spec(self.pairs()).take(k as int) =~= files_spec(self.pairs()));
        }
        Some(LanguageStats { language_breakdown: langs, total_size: total, language, file_breakdown: files })
    }
}

/// A sorted sequence is the canonical form of its map.
pub proof fn lemma_cache_pairs(s: Seq<(Seq<char>, StatValue)>, m: Map<Seq<char>, StatValue>)
    requires
        sorted_keys(s),
        map_of(s) == m,
    ensures
        cache_pairs(m) == s,
{
    let c = cache_pairs(m);
    assert(sorted_keys(c) && map_of(c) == m);
    lemma_sorted_unique(c, s);
}

/// Two walks over the same files, each once, in any order, leave the same cache,
/// and so the same statistics.
pub proof fn lemma_analysis_order_independent(ls: Seq<Language>, w1: Seq<BlobView>, w2: Seq<BlobView>)
    requires
        unique_names(w1),
        unique_names(w2),
        forall|b: BlobView| w1.contains(b) <==> w2.contains(b),
    ensures
        cache_pairs(walk_from(ls, Map::empty(), w1)) == cache_pairs(walk_from(ls, Map::empty(), w2)),
{
    lemma_walk_order_independent(ls, w1, w2);
}

/// Analysis of a directory whose files are handed over already read.
pub struct DirectoryAnalyzer {
    root: String,
    cache: Option<FileStatsCache>,
}

impl DirectoryAnalyzer {
    /// The cache pairs, once analysed.
    pub closed spec fn cached(&self) -> Option<Seq<(Seq<char>, StatValue)>> {
        match self.cache {
            Some(c) => Some(c.pairs()),
            None => None,
        }
    }

    /// The root directory, as given.
    pub closed spec fn root_view(&self) -> Seq<char> {
        self.root@
    }

    /// A cache, once there, is well formed.
    pub closed spec fn wf(&self) -> bool {
        self.cache matches Some(c) ==> c.wf()
    }

    /// An analyzer for the tree under `root`, not analysed yet.
    pub fn new(root: &str) -> (r: DirectoryAnalyzer)
        ensures
            r.wf(),
            r.root_view() == root@,
            r.cached() is None,
    {
        DirectoryAnalyzer { root: String::from_str(root), cache: None }
    }

    /// The root directory.
    pub fn root(&self) -> (r: &str)
        ensures
            r@ == self.root_view(),
    {
        self.root.as_str()
    }

    /// Analyses the files of the tree, each named by its path relative to the root:
    /// the cache becomes that of the walk, and its statistics are returned (none
    /// when the byte count does not fit in `usize`).
    pub fn analyze(&mut self, registry: &Registry, files: &Vec<FileBlob>) -> (r: Option<LanguageStats>)
        requires
            registry.wf(),
        ensures
            final(self).wf(),
            final(self).root_view() == old(self).root_view(),
            final(self).cached() == Some(
                cache_pairs(walk_from(registry.langs(), Map::empty(), blob_views(files@))),
            ),
            r is None <==> total_bytes(
                cache_pairs(walk_from(registry.langs(), Map::empty(), blob_views(files@))),
            ) > usize::MAX,
            r matches Some(st) ==> stats_match(
                st,
                cache_pairs(walk_from(registry.langs(), Map::empty(), blob_views(files@))),
            ),
    {
        let cache = build_cache(registry, files);
        proof {
            lemma_cache_pairs(cache.pairs(), cache.map());
        }
        let r = cache.stats();
        self.cache = Some(cache);
        r
    }

    /// The statistics of the last analysis.
    pub fn stats(&self) -> (r: Option<LanguageStats>)
        requires
            self.wf(),
        ensures
            r matches Some(st) ==> self.cached() matches Some(s) && stats_match(st, s),
            r is None <==> (self.cached() matches Some(s) ==> total_bytes(s) > usize::MAX),
    {
        match &self.cache {
            Some(c) => c.stats(),
            None => None,
        }
    }

    /// Bytes per language, sorted by language name.
    pub fn languages(&self) -> (r: Option<Vec<(String, usize)>>)
        requires
            self.wf(),
        ensures
            r matches Some(v) ==> self.cached() matches Some(s) && pair_views(v@) == breakdown_spec(s),
            r is None <==> (self.cached() matches Some(s) ==> total_bytes(s) > usize::MAX),
    {
        match self.stats() {
            Some(st) => Some(st.language_breakdown),
            None => None,
        }
    }

    /// The language with the most bytes.
    pub fn language(&self) -> (r: Option<Option<String>>)
        requires
            self.wf(),
        ensures
            r matches Some(l) ==> self.cached() matches Some(s) && opt_view(l) == primary_of(breakdown_spec(s)),
            r is None <==> (self.cached() matches Some(s) ==> total_bytes(s) > usize::MAX),
    {
        match self.stats() {
            Some(st) => Some(st.language),
            None => None,
        }
    }

    /// Total bytes.
    pub fn size(&self) -> (r: Option<usize>)
        requires
            self.wf(),
        ensures
            r matches Some(n) ==> self.cached() matches Some(s) && n == total_bytes(s),
            r is None <==> (self.cached() matches Some(s) ==> total_bytes(s) > usize::MAX),
    {
        match self.stats() {
            Some(st) => Some(st.total_size),
            None => None,
        }
    }

    /// Paths per language.
    pub fn breakdown_by_file(&self) -> (r: Option<Vec<(String, Vec<String>)>>)
        requires
            self.wf(),
        ensures
            r matches Some(v) ==> self.cached() matches Some(s) && file_views(v@) == files_spec(s),
            r is None <==> (self.cached() matches Some(s) ==> total_bytes(s) > usize::MAX),
    {
        match self.stats() {
            Some(st) => Some(st.file_breakdown),
            None => None,
        }
    }

    /// The cache of the last analysis.
    pub fn get_cache(&self) -> (r: Option<&FileStatsCache>)
        ensures
            match r {
                Some(c) => self.cached() == Some(c.pairs()),
                None => self.cached() is None,
            },
    {
        match &self.cache {
            Some(c) => Some(c),
            None => None,
        }
    }
}

/// Most entries of a tree that a snapshot analysis takes on, unless told otherwise.
pub const MAX_TREE_SIZE: usize = 100000;

/// Some change touches a `.gitattributes` file, before or after.
pub open spec fn touches_attributes(cs: Seq<ChangeView>) -> bool {
    exists|k: int| 0 <= k < cs.len() && #[trigger] attributes_change(cs[k])
}

/// The change is to a `.gitattributes` file, before or after.
pub open spec fn attributes_change(c: ChangeView) -> bool {
    basename(c.old_path) == ".gitattributes"@ || basename(c.blob.name) == ".gitattributes"@
}

/// What a snapshot analysis needs next to have its cache.
#[derive(Debug, Clone, Copy, PartialEq, Eq, Structural)]
pub enum CacheStep {
    /// The cache is there.
    Ready,
    /// The files of the snapshot's tree, with the tree's entry count.
    NeedTree,
    /// The changes from the predecessor snapshot, with the tree's entry count.
    NeedChanges,
}

/// Analysis of a version-controlled snapshot, possibly on top of the cache of a
/// predecessor snapshot. The files and changes are read by the caller.
pub struct Repository {
    commit_id: String,
    max_tree_size: usize,
    old_commit_id: Option<String>,
    old_stats: Option<FileStatsCache>,
    cache: Option<FileStatsCache>,
    tree_needed: bool,
}

/// Whether any change touches a `.gitattributes` file.
fn changes_touch_attributes(changes: &Vec<Change>) -> (r: bool)
    ensures
        r == touches_attributes(change_views(changes@)),
{
    let marker = chars_of(".gitattributes");
    let ghost cv = change_views(changes@);
    let mut k: usize = 0;
    while k < changes.len()
        invariant
            cv == change_views(changes@),
            marker@ == ".gitattributes"@,
            k <= changes@.len(),
            forall|q: int| 0 <= q < k ==> !#[trigger] attributes_change(cv[q]),
        decreases changes@.len() - k,
    {
        let c = &changes[k];
        assert(cv[k as int] == change_view(changes@[k as int]));
        let old_name = basename_of(chars_of(c.old_path.as_str()).as_slice());
        let new_name = basename_of(chars_of(c.blob.name()).as_slice());
        assert(old_name@ == basename(cv[k as int].old_path));
        assert(new_name@ == basename(cv[k as int].blob.name));
        if chars_eq(old_name.as_slice(), marker.as_slice()) || chars_eq(new_name.as_slice(), marker.as_slice()) {
            assert(attributes_change(cv[k as int]));
            return true;
        }
        assert(old_name@ != marker@ && new_name@ != marker@);
        assert(!attributes_change(cv[k as int]));
        k = k + 1;
    }
    false
}

impl Repository {
    /// The predecessor's cache pairs, if any.
    pub closed spec fn old_cached(&self) -> Option<Seq<(Seq<char>, StatValue)>> {
        match self.old_stats {
            Some(c) => Some(c.pairs()),
            None => None,
        }
    }

    /// The cache pairs, once there.
    pub closed spec fn cached(&self) -> Option<Seq<(Seq<char>, StatValue)>> {
        match self.cache {
            Some(c) => Some(c.pairs()),
            None => None,
        }
    }

    pub closed spec fn commit_view(&self) -> Seq<char> {
        self.commit_id@
    }

    pub closed spec fn old_commit_view(&self) -> Option<Seq<char>> {
        match self.old_commit_id {
            Some(c) => Some(c@),
            None => None,
        }
    }

    pub closed spec fn ceiling(&self) -> usize {
        self.max_tree_size
    }

    /// The changes were refused and the whole tree is due.
    pub closed spec fn tree_needed(&self) -> bool {
        self.tree_needed
    }

    /// Caches, once there, are well formed.
    pub closed spec fn wf(&self) -> bool {
        &&& self.cache matches Some(c) ==> c.wf()
        &&& self.old_stats matches Some(c) ==> c.wf()
    }

    /// An analysis of the snapshot `commit_id`; trees with more than
    /// `max_tree_size` entries (by default `MAX_TREE_SIZE`) are not analysed.
    pub fn new(commit_id: &str, max_tree_size: Option<usize>) -> (r: Repository)
        ensures
            r.wf(),
            r.commit_view() == commit_id@,
            r.ceiling() == (match max_tree_size {
                Some(n) => n,
                None => MAX_TREE_SIZE,
            }),
            r.old_commit_view() is None,
            r.old_cached() is None,
            r.cached() is None,
            !r.tree_needed(),
    {
        let max = match max_tree_size {
            Some(n) => n,
            None => MAX_TREE_SIZE,
        };
        Repository {
            commit_id: String::from_str(commit_id),
            max_tree_size: max,
            old_commit_id: None,
            old_stats: None,
            cache: None,
            tree_needed: false,
        }
    }

    /// An analysis of `commit_id` on top of the cache of `old_commit_id`.
    pub fn incremental(
        commit_id: &str,
        old_commit_id: &str,
        old_stats: FileStatsCache,
        max_tree_size: Option<usize>,
    ) -> (r: Repository)
        requires
            old_stats.wf(),
        ensures
            r.wf(),
            r.commit_view() == commit_id@,
            r.ceiling() == (match max_tree_size {
                Some(n) => n,
                None => MAX_TREE_SIZE,
            }),
            r.old_commit_view() == Some(old_commit_id@),
            r.old_cached() == Some(old_stats.pairs()),
            r.cached() is None,
            !r.tree_needed(),
    {
        let mut r = Repository::new(commit_id, max_tree_size);
        r.old_commit_id = Some(String::from_str(old_commit_id));
        r.old_stats = Some(old_stats);
        r
    }

    /// Takes the cache of a predecessor snapshot.
    pub fn load_existing_stats(&mut self, old_commit_id: &str, old_stats: FileStatsCache)
        requires
            old(self).wf(),
            old_stats.wf(),
        ensures
            final(self).wf(),
            final(self).commit_view() == old(self).commit_view(),
            final(self).ceiling() == old(self).ceiling(),
            final(self).old_commit_view() == Some(old_commit_id@),
            final(self).old_cached() == Some(old_stats.pairs()),
            final(self).cached() == old(self).cached(),
            final(self).tree_needed() == old(self).tree_needed(),
    {
        self.old_commit_id = Some(String::from_str(old_commit_id));
        self.old_stats = Some(old_stats);
    }

    /// What is needed next. When the predecessor is the same snapshot, its cache
    /// is taken over as it is; after refused changes, the whole tree is needed.
    pub fn next_step(&mut self) -> (r: CacheStep)
        requires
            old(self).wf(),
        ensures
            final(self).wf(),
            final(self).commit_view() == old(self).commit_view(),
            final(self).ceiling() == old(self).ceiling(),
            final(self).old_commit_view() == old(self).old_commit_view(),
            final(self).old_cached() == old(self).old_cached(),
            final(self).tree_needed() == old(self).tree_needed(),
            old(self).cached() is Some ==> r == CacheStep::Ready && final(self).cached() == old(self).cached(),
            old(self).cached() is None && old(self).tree_needed() ==> r == CacheStep::NeedTree
                && final(self).cached() is None,
            old(self).cached() is None && !old(self).tree_needed() ==> match (old(self).old_commit_view(), old(self).old_cached()) {
                (Some(o), Some(s)) => if o == old(self).commit_view() {
                    r == CacheStep::Ready && final(self).cached() == Some(s)
                } else {
                    r == CacheStep::NeedChanges && final(self).cached() is None
                },
                _ => r == CacheStep::NeedTree && final(self).cached() is None,
            },
    {
        if self.cache.is_some() {
            return CacheStep::Ready;
        }
        if self.tree_needed {
            return CacheStep::NeedTree;
        }
        match (&self.old_commit_id, &self.old_stats) {
            (Some(o), Some(s)) => {
                if *o == self.commit_id {
                    self.cache = Some(s.clone_cache());
                    CacheStep::Ready
                } else {
                    CacheStep::NeedChanges
                }
            },
            _ => CacheStep::NeedTree,
        }
    }

    /// Builds the cache from the snapshot's files: empty when the tree has more
    /// entries than the ceiling.
    pub fn supply_tree(&mut self, registry: &Registry, tree_size: usize, files: &Vec<FileBlob>)
        requires
            old(self).wf(),
            registry.wf(),
        ensures
            final(self).wf(),
            final(self).commit_view() == old(self).commit_view(),
            final(self).ceiling() == old(self).ceiling(),
            final(self).old_commit_view() == old(self).old_commit_view(),
            final(self).old_cached() == old(self).old_cached(),
            final(self).cached() == Some(
                if tree_size > old(self).ceiling() {
                    Seq::<(Seq<char>, StatValue)>::empty()
                } else {
                    cache_pairs(walk_from(registry.langs(), Map::empty(), blob_views(files@)))
                },
            ),
            !final(self).tree_needed(),
    {
        self.tree_needed = false;
        if tree_size > self.max_tree_size {
            self.cache = Some(FileStatsCache::new());
        } else {
            let cache = build_cache(registry, files);
            proof {
                lemma_cache_pairs(cache.pairs(), cache.map());
            }
            self.cache = Some(cache);
        }
    }

    /// Patches the predecessor's cache with the changes since. When a change
    /// touches a `.gitattributes` file nothing is done and `false` says that the
    /// whole tree is needed; a tree over the ceiling leaves an empty cache.
    pub fn supply_changes(&mut self, registry: &Registry, tree_size: usize, changes: &Vec<Change>) -> (r: bool)
        requires
            old(self).wf(),
            registry.wf(),
        ensures
            final(self).wf(),
            final(self).commit_view() == old(self).commit_view(),
            final(self).ceiling() == old(self).ceiling(),
            final(self).old_commit_view() == old(self).old_commit_view(),
            final(self).old_cached() == old(self).old_cached(),
            tree_size > old(self).ceiling() ==> r && final(self).cached() == Some(
                Seq::<(Seq<char>, StatValue)>::empty(),
            ),
            tree_size <= old(self).ceiling() ==> r == !touches_attributes(change_views(changes@)),
            tree_size <= old(self).ceiling() && r ==> final(self).cached() == Some(
                cache_pairs(
                    apply_changes(
                        registry.langs(),
                        match old(self).old_cached() {
                            Some(s) => map_of(s),
                            None => Map::empty(),
                        },
                        change_views(changes@),
                    ),
                ),
            ),
            !r ==> final(self).cached() == old(self).cached() && final(self).tree_needed(),
            r ==> !final(self).tree_needed(),
    {
        self.tree_needed = false;
        if tree_size > self.max_tree_size {
            self.cache = Some(FileStatsCache::new());
            return true;
        }
        if changes_touch_attributes(changes) {
            self.tree_needed = true;
            return false;
        }
        let mut cache = match &self.old_stats {
            Some(s) => s.clone_cache(),
            None => FileStatsCache::new(),
        };
        let ghost start = cache.map();
        proof {
            lemma_map_of(cache.pairs());
            if self.old_stats is None {
                assert(cache.map() =~= Map::<Seq<char>, StatValue>::empty());
            }
        }
        let mut i: usize = 0;
        while i < changes.len()
            invariant
                registry.wf(),
                cache.wf(),
                i <= changes@.len(),
                cache.map() == apply_changes(registry.langs(), start, change_views(changes@).take(i as int)),
            decreases changes@.len() - i,
        {
            apply_one(&mut cache, registry, &changes[i]);
            proof {
                let cs = change_views(changes@).take(i + 1);
                assert(cs.drop_last() =~= change_views(changes@).take(i as int));
                assert(cs.last() == change_view(changes@[i as int]));
            }
            i = i + 1;
        }
        proof {
            assert(change_views(changes@).take(i as int) =~= change_views(changes@));
            lemma_cache_pairs(cache.pairs(), cache.map());
        }
        self.cache = Some(cache);
        true
    }

    /// The statistics, once the cache is there; none as well when the byte count
    /// does not fit in `usize`.
    pub fn stats(&self) -> (r: Option<LanguageStats>)
        requires
            self.wf(),
        ensures
            r matches Some(st) ==> self.cached() matches Some(s) && stats_match(st, s),
            r is None <==> (self.cached() matches Some(s) ==> total_bytes(s) > usize::MAX),
    {
        match &self.cache {
            Some(c) => c.stats(),
            None => None,
        }
    }

    /// Bytes per language, sorted by language name.
    pub fn languages(&self) -> (r: Option<Vec<(String, usize)>>)
        requires
            self.wf(),
        ensures
            r matches Some(v) ==> self.cached() matches Some(s) && pair_views(v@) == breakdown_spec(s),
            r is None <==> (self.cached() matches Some(s) ==> total_bytes(s) > usize::MAX),
    {
        match self.stats() {
            Some(st) => Some(st.language_breakdown),
            None => None,
        }
    }

    /// The language with the most bytes.
    pub fn language(&self) -> (r: Option<Option<String>>)
        requires
            self.wf(),
        ensures
            r matches Some(l) ==> self.cached() matches Some(s) && opt_view(l) == primary_of(breakdown_spec(s)),
            r is None <==> (self.cached() matches Some(s) ==> total_bytes(s) > usize::MAX),
    {
        match self.stats() {
            Some(st) => Some(st.language),
            None => None,
        }
    }

    /// Total bytes.
    pub fn size(&self) -> (r: Option<usize>)
        requires
            self.wf(),
        ensures
            r matches Some(n) ==> self.cached() matches Some(s) && n == total_bytes(s),
            r is None <==> (self.cached() matches Some(s) ==> total_bytes(s) > usize::MAX),
    {
        match self.stats() {
            Some(st) => Some(st.total_size),
            None => None,
        }
    }

    /// Paths per language.
    pub fn breakdown_by_file(&self) -> (r: Option<Vec<(String, Vec<String>)>>)
        requires
            self.wf(),
        ensures
            r matches Some(v) ==> self.cached() matches Some(s) && file_views(v@) == files_spec(s),
            r is None <==> (self.cached() matches Some(s) ==> total_bytes(s) > usize::MAX),
    {
        match self.stats() {
            Some(st) => Some(st.file_breakdown),
            None => None,
        }
    }

    /// The cache, once there.
    pub fn get_cache(&self) -> (r: Option<&FileStatsCache>)
        ensures
            match r {
                Some(c) => self.cached() == Some(c.pairs()),
                None => self.cached() is None,
            },
    {
        match &self.cache {
            Some(c) => Some(c),
            None => None,
        }
    }
}

impl FileStatsCache {
    /// A copy of the cache.
    pub fn clone_cache(&self) -> (r: FileStatsCache)
        ensures
            r.pairs() == self.pairs(),
    {
        let mut entries: Vec<(String, StatValue)> = Vec::new();
        let mut i: usize = 0;
        while i < self.entries.len()
            invariant
                i <= self.entries@.len(),
                pair_views(entries@) == pair_views(self.entries@).take(i as int),
            decreases self.entries@.len() - i,
        {
            let ent = &self.entries[i];
            let e = (ent.0.clone(), (ent.1.0.clone(), ent.1.1));
            assert(e.1 == ent.1);
            let ghost before = entries@;
            entries.push(e);
            proof {
                assert(pair_views(entries@) =~= pair_views(before).push((e.0@, e.1)));
                assert(pair_views(entries@) =~= pair_views(self.entries@).take(i + 1));
            }
            i = i + 1;
        }
        proof {
            assert(pair_views(self.entries@).take(i as int) =~= pair_views(self.entries@));
        }
        FileStatsCache { entries }
    }
}

} // verus!
