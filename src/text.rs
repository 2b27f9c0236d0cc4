//! Character-level helpers: views of strings as character sequences, line
//! splitting, path components and the case folding that lookups rely on.
use vstd::prelude::*;
use vstd::slice::slice_to_vec;
use vstd::utf8::{decode_utf8, valid_utf8};

verus! {

/// Lowercase form of a character sequence, as `str::to_lowercase` computes it.
pub uninterp spec fn lower_of(s: Seq<char>) -> Seq<char>;

/// Relies on `str::to_lowercase`: the result depends on the characters alone.
#[verifier::external_body]
pub(crate) fn to_lower(s: &str) -> (r: String)
    ensures
        r@ == lower_of(s@),
{
    s.to_lowercase()
}

/// Relies on `str::chars`: a string is the sequence of its characters.
#[verifier::external_body]
pub(crate) fn chars_of(s: &str) -> (r: Vec<char>)
    ensures
        r@ == s@,
{
    s.chars().collect()
}

/// Relies on `String: FromIterator<char>`: the string holds exactly the given characters.
#[verifier::external_body]
pub(crate) fn string_of(cs: &[char]) -> (r: String)
    ensures
        r@ == cs@,
{
    cs.iter().collect()
}

/// Relies on `std::str::from_utf8`: it accepts exactly the valid UTF-8 byte sequences.
#[verifier::external_body]
pub(crate) fn utf8_text(b: &[u8]) -> (r: Option<String>)
    ensures
        r.is_some() == valid_utf8(b@),
        r matches Some(s) ==> s@ == decode_utf8(b@),
{
    std::str::from_utf8(b).ok().map(|s| s.to_string())
}

/// The character views of a list of strings.
pub open spec fn views(v: Seq<String>) -> Seq<Seq<char>> {
    v.map_values(|l: String| l@)
}

/// A line ends at a line feed or a carriage return.
pub open spec fn is_line_break(c: char) -> bool {
    c == '\n' || c == '\r'
}

/// Position of the first line break at or after `i` (the length if none).
pub open spec fn break_from(s: Seq<char>, i: int) -> int
    decreases s.len() - i,
{
    if i >= s.len() {
        s.len() as int
    } else if is_line_break(s[i]) {
        i
    } else {
        break_from(s, i + 1)
    }
}

/// Where the next line starts after the break at `k`: a CR LF pair counts as one break.
pub open spec fn after_break(s: Seq<char>, k: int) -> int {
    if s[k] == '\r' && k + 1 < s.len() && s[k + 1] == '\n' {
        k + 2
    } else {
        k + 1
    }
}

/// The lines of `s` from position `i` on, without their terminators.
pub open spec fn lines_from(s: Seq<char>, i: int) -> Seq<Seq<char>>
    decreases s.len() - i,
{
    if i < 0 || i >= s.len() {
        seq![]
    } else {
        let k = break_from(s, i);
        if k < i {
            seq![]
        } else if k >= s.len() {
            seq![s.subrange(i, s.len() as int)]
        } else {
            seq![s.subrange(i, k)] + lines_from(s, after_break(s, k))
        }
    }
}

/// The lines of a text: split at `\n`, `\r` and `\r\n`; a final terminator opens no new line.
pub open spec fn lines_of(s: Seq<char>) -> Seq<Seq<char>> {
    lines_from(s, 0)
}

proof fn lemma_break_from_bounds(s: Seq<char>, i: int)
    requires
        0 <= i <= s.len(),
    ensures
        i <= break_from(s, i) <= s.len(),
        break_from(s, i) < s.len() ==> is_line_break(s[break_from(s, i)]),
    decreases s.len() - i,
{
    if i < s.len() && !is_line_break(s[i]) {
        lemma_break_from_bounds(s, i + 1);
    }
}

/// Splits a text into its lines.
pub fn split_lines(s: &[char]) -> (r: Vec<String>)
    ensures
        views(r@) == lines_of(s@),
{
    let n = s.len();
    let mut out: Vec<String> = Vec::new();
    let mut start: usize = 0;
    let mut i: usize = 0;
    while i < n
        invariant
            n == s@.len(),
            start <= i <= n,
            break_from(s@, start as int) == break_from(s@, i as int),
            views(out@) + lines_from(s@, start as int) == lines_of(s@),
        decreases n - i,
    {
        if s[i] == '\n' || s[i] == '\r' {
            let line = string_of(&s[start..i]);
            let next: usize = if s[i] == '\r' && i + 1 < n && s[i + 1] == '\n' {
                i + 2
            } else {
                i + 1
            };
            proof {
                lemma_break_from_bounds(s@, start as int);
                assert(break_from(s@, i as int) == i as int);
                assert(lines_from(s@, start as int) == seq![s@.subrange(start as int, i as int)]
                    + lines_from(s@, next as int));
                assert(views(out@.push(line)) =~= views(out@).push(line@));
                assert(views(out@).push(line@) + lines_from(s@, next as int)
                    =~= views(out@) + lines_from(s@, start as int));
            }
            out.push(line);
            start = next;
            i = next;
        } else {
            i = i + 1;
        }
    }
    if start < n {
        let line = string_of(&s[start..n]);
        proof {
            lemma_break_from_bounds(s@, start as int);
            assert(break_from(s@, n as int) == n as int);
            assert(views(out@.push(line)) =~= views(out@) + lines_from(s@, start as int));
        }
        out.push(line);
    } else {
        proof {
            assert(views(out@) =~= views(out@) + lines_from(s@, start as int));
        }
    }
    out
}

/// Start of the last path component of `s[0..i]`: just past the last `/`, or 0.
pub open spec fn name_start(s: Seq<char>, i: int) -> int
    decreases i,
{
    if i <= 0 {
        0
    } else if s[i - 1] == '/' {
        i
    } else {
        name_start(s, i - 1)
    }
}

/// The last component of a path: what follows its last `/`.
pub open spec fn basename(s: Seq<char>) -> Seq<char> {
    s.subrange(name_start(s, s.len() as int), s.len() as int)
}

proof fn lemma_name_start_bounds(s: Seq<char>, i: int)
    requires
        0 <= i <= s.len(),
    ensures
        0 <= name_start(s, i) <= i,
    decreases i,
{
    if i > 0 && s[i - 1] != '/' {
        lemma_name_start_bounds(s, i - 1);
    }
}

/// The last component of a path.
pub fn basename_of(s: &[char]) -> (r: Vec<char>)
    ensures
        r@ == basename(s@),
{
    let n = s.len();
    let mut i: usize = n;
    while i > 0 && s[i - 1] != '/'
        invariant
            i <= n == s@.len(),
            name_start(s@, i as int) == name_start(s@, n as int),
        decreases i,
    {
        i = i - 1;
    }
    proof {
        lemma_name_start_bounds(s@, n as int);
    }
    slice_to_vec(&s[i..n])
}

/// Position of the last `.` in `s[0..i]`, if any.
pub open spec fn last_dot(s: Seq<char>, i: int) -> Option<int>
    decreases i,
{
    if i <= 0 {
        None
    } else if s[i - 1] == '.' {
        Some(i - 1)
    } else {
        last_dot(s, i - 1)
    }
}

proof fn lemma_last_dot_bounds(s: Seq<char>, i: int)
    requires
        0 <= i <= s.len(),
    ensures
        last_dot(s, i) matches Some(p) ==> 0 <= p < i && s[p] == '.',
    decreases i,
{
    if i > 0 && s[i - 1] != '.' {
        lemma_last_dot_bounds(s, i - 1);
    }
}

/// The outermost extension of a file name: from its last `.` to the end. The
/// leading dot of a hidden file's name (`.bashrc`) starts no extension.
pub open spec fn outer_extension(name: Seq<char>) -> Option<Seq<char>> {
    match last_dot(name, name.len() as int) {
        Some(p) => if p > 0 {
            Some(name.subrange(p, name.len() as int))
        } else {
            None
        },
        None => None,
    }
}

/// The outermost extension of a file name, dot included.
pub fn outer_extension_of(name: &[char]) -> (r: Option<Vec<char>>)
    ensures
        r matches Some(v) ==> outer_extension(name@) == Some(v@),
        r is None ==> outer_extension(name@) is None,
{
    let n = name.len();
    let mut i: usize = n;
    while i > 0 && name[i - 1] != '.'
        invariant
            i <= n == name@.len(),
            last_dot(name@, i as int) == last_dot(name@, n as int),
        decreases i,
    {
        i = i - 1;
    }
    if i <= 1 {
        None
    } else {
        proof {
            lemma_last_dot_bounds(name@, n as int);
        }
        Some(slice_to_vec(&name[i - 1..n]))
    }
}

/// Characters that `char::is_whitespace` accepts (Unicode White_Space).
pub open spec fn is_white(c: char) -> bool {
    let u = c as u32;
    (0x9 <= u <= 0xd) || u == 0x20 || u == 0x85 || u == 0xa0 || u == 0x1680 || (0x2000 <= u
        <= 0x200a) || u == 0x2028 || u == 0x2029 || u == 0x202f || u == 0x205f || u == 0x3000
}

/// Whether a character is white space.
pub fn white(c: char) -> (r: bool)
    ensures
        r == is_white(c),
{
    let u = c as u32;
    (0x9 <= u && u <= 0xd) || u == 0x20 || u == 0x85 || u == 0xa0 || u == 0x1680 || (0x2000 <= u
        && u <= 0x200a) || u == 0x2028 || u == 0x2029 || u == 0x202f || u == 0x205f || u == 0x3000
}

/// First position at or after `i` that holds no white space (the length if none).
pub open spec fn skip_white(s: Seq<char>, i: int) -> int
    decreases s.len() - i,
{
    if i < 0 || i >= s.len() {
        i
    } else if is_white(s[i]) {
        skip_white(s, i + 1)
    } else {
        i
    }
}

/// End of `s[lo..j]` once its trailing white space is dropped.
pub open spec fn trim_end(s: Seq<char>, lo: int, j: int) -> int
    decreases j - lo,
{
    if j <= lo {
        lo
    } else if is_white(s[j - 1]) {
        trim_end(s, lo, j - 1)
    } else {
        j
    }
}

/// `s` without leading and trailing white space, as `str::trim` gives it.
pub open spec fn trim(s: Seq<char>) -> Seq<char> {
    let lo = skip_white(s, 0);
    s.subrange(lo, trim_end(s, lo, s.len() as int))
}

proof fn lemma_skip_white_bounds(s: Seq<char>, i: int)
    requires
        0 <= i <= s.len(),
    ensures
        i <= skip_white(s, i) <= s.len(),
    decreases s.len() - i,
{
    if i < s.len() && is_white(s[i]) {
        lemma_skip_white_bounds(s, i + 1);
    }
}

proof fn lemma_trim_end_bounds(s: Seq<char>, lo: int, j: int)
    requires
        0 <= lo <= j <= s.len(),
    ensures
        lo <= trim_end(s, lo, j) <= j,
    decreases j - lo,
{
    if j > lo && is_white(s[j - 1]) {
        lemma_trim_end_bounds(s, lo, j - 1);
    }
}

/// Drops leading and trailing white space.
pub fn trim_chars(s: &[char]) -> (r: Vec<char>)
    ensures
        r@ == trim(s@),
{
    let n = s.len();
    let mut lo: usize = 0;
    while lo < n && white(s[lo])
        invariant
            lo <= n == s@.len(),
            skip_white(s@, lo as int) == skip_white(s@, 0),
        decreases n - lo,
    {
        lo = lo + 1;
    }
    let mut hi: usize = n;
    while hi > lo && white(s[hi - 1])
        invariant
            lo <= hi <= n == s@.len(),
            lo == skip_white(s@, 0),
            trim_end(s@, lo as int, hi as int) == trim_end(s@, lo as int, n as int),
        decreases hi,
    {
        hi = hi - 1;
    }
    slice_to_vec(&s[lo..hi])
}

/// Position of the first occurrence of `c` in `s` at or after `i`.
pub open spec fn find_char(s: Seq<char>, c: char, i: int) -> Option<int>
    decreases s.len() - i,
{
    if i < 0 || i >= s.len() {
        None
    } else if s[i] == c {
        Some(i)
    } else {
        find_char(s, c, i + 1)
    }
}

pub proof fn lemma_find_char_bounds(s: Seq<char>, c: char, i: int)
    requires
        0 <= i <= s.len(),
    ensures
        find_char(s, c, i) matches Some(p) ==> i <= p < s.len() && s[p] == c,
        find_char(s, c, i) is None ==> forall|k: int| i <= k < s.len() ==> s[k] != c,
    decreases s.len() - i,
{
    if i < s.len() && s[i] != c {
        lemma_find_char_bounds(s, c, i + 1);
    }
}

/// Position of the first occurrence of `c` in `s`.
pub fn position_of(s: &[char], c: char) -> (r: Option<usize>)
    ensures
        r matches Some(p) ==> find_char(s@, c, 0) == Some(p as int),
        r is None ==> find_char(s@, c, 0) is None,
{
    let n = s.len();
    let mut i: usize = 0;
    while i < n
        invariant
            i <= n == s@.len(),
            find_char(s@, c, i as int) == find_char(s@, c, 0),
        decreases n - i,
    {
        if s[i] == c {
            return Some(i);
        }
        i = i + 1;
    }
    None
}

/// Whether `needle` occurs in `hay` starting at position `i`.
pub open spec fn occurs_at(hay: Seq<char>, needle: Seq<char>, i: int) -> bool {
    0 <= i && i + needle.len() <= hay.len() && hay.subrange(i, i + needle.len()) == needle
}

/// Whether `needle` occurs anywhere in `hay`.
pub open spec fn contains_seq(hay: Seq<char>, needle: Seq<char>) -> bool {
    exists|i: int| occurs_at(hay, needle, i)
}

/// Whether `needle` occurs in `hay` at position `i`.
fn occurs_here(hay: &[char], needle: &[char], i: usize) -> (r: bool)
    ensures
        r == occurs_at(hay@, needle@, i as int),
{
    if i > hay.len() || needle.len() > hay.len() - i {
        return false;
    }
    let mut j: usize = 0;
    while j < needle.len()
        invariant
            i + needle@.len() <= hay.len(),
            hay@.len() == hay.len(),
            j <= needle@.len(),
            forall|k: int| 0 <= k < j ==> hay@[i + k] == needle@[k],
        decreases needle@.len() - j,
    {
        if hay[i + j] != needle[j] {
            assert(hay@.subrange(i as int, i + needle@.len())[j as int] != needle@[j as int]);
            return false;
        }
        j = j + 1;
    }
    assert(hay@.subrange(i as int, i + needle@.len()) =~= needle@);
    true
}

/// Whether `needle` occurs anywhere in `hay`.
pub fn contains_chars(hay: &[char], needle: &[char]) -> (r: bool)
    ensures
        r == contains_seq(hay@, needle@),
{
    let mut i: usize = 0;
    while i < hay.len()
        invariant
            i <= hay.len(),
            forall|k: int| 0 <= k < i ==> !occurs_at(hay@, needle@, k),
        decreases hay@.len() - i,
    {
        if occurs_here(hay, needle, i) {
            return true;
        }
        i = i + 1;
    }
    if occurs_here(hay, needle, i) {
        return true;
    }
    assert forall|k: int| !occurs_at(hay@, needle@, k) by {
        if 0 <= k && k <= i {
        }
    }
    false
}

/// The lines of a sequence joined with `\n` between them.
pub open spec fn join_lines(ls: Seq<Seq<char>>) -> Seq<char>
    decreases ls.len(),
{
    if ls.len() == 0 {
        seq![]
    } else if ls.len() == 1 {
        ls[0]
    } else {
        join_lines(ls.drop_last()) + seq!['\n'] + ls.last()
    }
}

/// Joins lines with `\n` between them.
pub fn join_with_newlines(ls: &[String]) -> (r: Vec<char>)
    ensures
        r@ == join_lines(views(ls@)),
{
    let mut out: Vec<char> = Vec::new();
    let mut i: usize = 0;
    while i < ls.len()
        invariant
            i <= ls@.len(),
            out@ == join_lines(views(ls@.take(i as int))),
        decreases ls@.len() - i,
    {
        let line = chars_of(ls[i].as_str());
        if i > 0 {
            out.push('\n');
        }
        let mut j: usize = 0;
        let ghost before = out@;
        while j < line.len()
            invariant
                j <= line@.len(),
                out@ == before + line@.take(j as int),
            decreases line@.len() - j,
        {
            out.push(line[j]);
            proof {
                assert(line@.take(j + 1) =~= line@.take(j as int).push(line@[j as int]));
            }
            j = j + 1;
        }
        proof {
            let done = views(ls@.take(i + 1));
            assert(done.drop_last() =~= views(ls@.take(i as int)));
            assert(line@.take(j as int) =~= line@);
            if i == 0 {
                assert(done =~= seq![ls@[0]@]);
                assert(out@ =~= done[0]);
            } else {
                assert(out@ =~= join_lines(done.drop_last()) + seq!['\n'] + done.last());
            }
        }
        i = i + 1;
    }
    proof {
        assert(ls@.take(i as int) =~= ls@);
    }
    out
}

/// Whether one of a few fixed strings is `e`.
pub fn in_list(e: &String, list: &[&str]) -> (r: bool)
    ensures
        r == exists|j: int| 0 <= j < list@.len() && #[trigger] list@[j]@ == e@,
{
    let mut j: usize = 0;
    while j < list.len()
        invariant
            j <= list@.len(),
            forall|q: int| 0 <= q < j ==> #[trigger] list@[q]@ != e@,
        decreases list@.len() - j,
    {
        if *e == String::from_str(list[j]) {
            return true;
        }
        j = j + 1;
    }
    false
}

/// End of the run of non-white characters that starts at `i`.
pub open spec fn word_end(s: Seq<char>, i: int) -> int
    decreases s.len() - i,
{
    if i < 0 || i >= s.len() {
        s.len() as int
    } else if is_white(s[i]) {
        i
    } else {
        word_end(s, i + 1)
    }
}

/// The white-space separated words of `s` from position `i` on.
pub open spec fn words_from(s: Seq<char>, i: int) -> Seq<Seq<char>>
    decreases s.len() - i,
{
    if i < 0 || i >= s.len() {
        seq![]
    } else {
        let j = skip_white(s, i);
        let k = word_end(s, j);
        if j < i || j >= s.len() || k <= j || k > s.len() {
            seq![]
        } else {
            seq![s.subrange(j, k)] + words_from(s, k)
        }
    }
}

/// The character views of a list of character vectors.
pub open spec fn char_views(v: Seq<Vec<char>>) -> Seq<Seq<char>> {
    v.map_values(|w: Vec<char>| w@)
}

proof fn lemma_word_end_bounds(s: Seq<char>, i: int)
    requires
        0 <= i <= s.len(),
    ensures
        i <= word_end(s, i) <= s.len(),
        i < s.len() && !is_white(s[i]) ==> word_end(s, i) > i,
    decreases s.len() - i,
{
    if i < s.len() && !is_white(s[i]) {
        lemma_word_end_bounds(s, i + 1);
    }
}

/// The white-space separated words of `s` from position `from` on.
pub fn split_words(s: &[char], from: usize) -> (r: Vec<Vec<char>>)
    ensures
        char_views(r@) == words_from(s@, from as int),
{
    let n = s.len();
    let mut out: Vec<Vec<char>> = Vec::new();
    let mut i: usize = from;
    if i >= n {
        return out;
    }
    while i < n
        invariant
            n == s@.len(),
            from <= i,
            char_views(out@) + words_from(s@, i as int) == words_from(s@, from as int),
        decreases n - i,
    {
        let mut j: usize = i;
        while j < n && white(s[j])
            invariant
                i <= j <= n == s@.len(),
                skip_white(s@, j as int) == skip_white(s@, i as int),
            decreases n - j,
        {
            j = j + 1;
        }
        if j >= n {
            proof {
                assert(char_views(out@) + words_from(s@, i as int) =~= char_views(out@));
            }
            return out;
        }
        let mut k: usize = j;
        while k < n && !white(s[k])
            invariant
                j <= k <= n == s@.len(),
                word_end(s@, k as int) == word_end(s@, j as int),
            decreases n - k,
        {
            k = k + 1;
        }
        proof {
            lemma_word_end_bounds(s@, j as int);
        }
        let w = slice_to_vec(&s[j..k]);
        proof {
            assert(char_views(out@.push(w)) =~= char_views(out@).push(w@));
            assert(char_views(out@).push(w@) + words_from(s@, k as int) =~= char_views(out@)
                + words_from(s@, i as int));
        }
        out.push(w);
        i = k;
    }
    proof {
        assert(char_views(out@) + words_from(s@, i as int) =~= char_views(out@));
    }
    out
}

/// Whether two character sequences are equal.
pub fn chars_eq(a: &[char], b: &[char]) -> (r: bool)
    ensures
        r == (a@ == b@),
{
    if a.len() != b.len() {
        return false;
    }
    let mut j: usize = 0;
    while j < a.len()
        invariant
            a@.len() == b@.len(),
            j <= a@.len(),
            forall|q: int| 0 <= q < j ==> a@[q] == b@[q],
        decreases a@.len() - j,
    {
        if a[j] != b[j] {
            return false;
        }
        j = j + 1;
    }
    assert(a@ =~= b@);
    true
}

} // verus!
