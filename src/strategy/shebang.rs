//! Detection by the interpreter a `#!` line names.
use vstd::prelude::*;
use vstd::utf8::{decode_utf8, valid_utf8};

use crate::blob::{BlobView, FileBlob};
use crate::language::{all_matches, with_interpreter, Language, Registry};
use crate::pattern::{group_at, group_text, groups, opt_view, pattern_groups};
use crate::strategy::{narrow, narrow_to};
use crate::text::{
    basename, basename_of, break_from, char_views, chars_eq, chars_of, last_dot, lines_of,
    split_lines, split_words, string_of, utf8_text, views, words_from,
};

verus! {

/// The `exec PROG "$0" "$@"` line with which a shell script hands itself to another
/// interpreter; group 1 holds the program.
pub const EXEC_PATTERN: &'static str = r#"exec (\w+)[\s'"]+\$0[\s'"]+\$@"#;

/// Most bytes of a file that the `#!` line is read from.
pub const SHEBANG_SCOPE: usize = 1024;

/// Number of leading lines searched for an `exec` hand-over.
pub const EXEC_SEARCH_LINES: usize = 5;

/// Detection by the interpreter named in a `#!` line.
#[derive(Debug, Clone, Copy)]
pub struct Shebang;

/// Index of the first word at or after `i` that is no option (does not start with `-`).
pub open spec fn first_operand(ws: Seq<Seq<char>>, i: int) -> Option<int>
    decreases ws.len() - i,
{
    if i < 0 || i >= ws.len() {
        None
    } else if ws[i].len() > 0 && ws[i][0] == '-' {
        first_operand(ws, i + 1)
    } else {
        Some(i)
    }
}

/// Every character is an ASCII digit.
pub open spec fn all_digits(s: Seq<char>) -> bool {
    forall|k: int| 0 <= k < s.len() ==> '0' <= #[trigger] s[k] <= '9'
}

/// A name without a trailing `.N` minor version made of digits (`python2.7` gives `python2`).
pub open spec fn strip_version(name: Seq<char>) -> Seq<char> {
    match last_dot(name, name.len() as int) {
        Some(p) => if p + 1 < name.len() && all_digits(name.subrange(p + 1, name.len() as int)) {
            name.take(p)
        } else {
            name
        },
        None => name,
    }
}

/// The program of the first `exec` hand-over among `lines`, from line `j` on.
pub open spec fn exec_target(lines: Seq<Seq<char>>, j: int) -> Option<Seq<char>>
    decreases lines.len() - j,
{
    if j < 0 || j >= lines.len() {
        None
    } else {
        match pattern_groups(EXEC_PATTERN@, lines[j]) {
            Some(g) => match group_text(g, 1) {
                Some(p) => Some(p),
                None => exec_target(lines, j + 1),
            },
            None => exec_target(lines, j + 1),
        }
    }
}

/// The interpreter that the words of a `#!` line name, given the file's lines: the
/// last path component of the first word, or of the first operand after `env`;
/// without a minor version; for `sh`, the program an `exec` line hands over to;
/// nothing for `osascript -l`.
pub open spec fn interpreter_from_words(ws: Seq<Seq<char>>, lines: Seq<Seq<char>>) -> Option<Seq<char>> {
    if ws.len() == 0 {
        None
    } else {
        let target = if basename(ws[0]) == "env"@ {
            first_operand(ws, 1)
        } else {
            Some(0int)
        };
        match target {
            None => None,
            Some(k) => {
                let name = strip_version(basename(ws[k]));
                if name == "osascript"@ && ws.contains("-l"@) {
                    None
                } else if name == "sh"@ {
                    match exec_target(lines.take(if lines.len() < 5 { lines.len() as int } else { 5 }), 0) {
                        Some(p) => Some(p),
                        None => Some(name),
                    }
                } else {
                    Some(name)
                }
            },
        }
    }
}

/// The interpreter of a file that starts with `#!`, read from its first kilobyte,
/// which must be UTF-8.
pub open spec fn interpreter_of(d: Seq<u8>) -> Option<Seq<char>> {
    if d.len() < 2 || d[0] != 35u8 || d[1] != 33u8 {
        None
    } else {
        let head = d.take(if d.len() < 1024 { d.len() as int } else { 1024 });
        if !valid_utf8(head) {
            None
        } else {
            let text = decode_utf8(head);
            let line = text.take(break_from(text, 0));
            interpreter_from_words(words_from(line, 2), lines_of(text))
        }
    }
}

/// Nothing for links; else the languages that list the interpreter, kept to the
/// candidates.
pub open spec fn shebang_result(ls: Seq<Language>, b: BlobView, c: Seq<usize>) -> Seq<usize> {
    if b.symlink {
        seq![]
    } else {
        match interpreter_of(b.data) {
            Some(s) => narrow(all_matches(ls, with_interpreter(s), ls.len() as int), c),
            None => seq![],
        }
    }
}

/// Drops a trailing `.N` minor version made of digits.
fn strip_minor_version(name: &[char]) -> (r: Vec<char>)
    ensures
        r@ == strip_version(name@),
{
    let n = name.len();
    let mut i: usize = n;
    while i > 0 && name[i - 1] != '.'
        invariant
            i <= n == name@.len(),
            last_dot(name@, i as int) == last_dot(name@, n as int),
        decreases i,
    {
        i = i - 1;
    }
    if i == 0 || i >= n {
        return slice_to_vec_chars(name);
    }
    let mut k: usize = i;
    while k < n
        invariant
            0 < i <= k <= n == name@.len(),
            name@[i - 1] == '.',
            last_dot(name@, i as int) == last_dot(name@, n as int),
            forall|q: int| i <= q < k ==> '0' <= #[trigger] name@[q] <= '9',
        decreases n - k,
    {
        if !('0' <= name[k] && name[k] <= '9') {
            proof {
                assert(last_dot(name@, i as int) == Some(i - 1));
                assert(!all_digits(name@.subrange(i as int, n as int))) by {
                    assert(name@.subrange(i as int, n as int)[k - i] == name@[k as int]);
                }
            }
            return slice_to_vec_chars(name);
        }
        k = k + 1;
    }
    proof {
        assert(all_digits(name@.subrange(i as int, n as int))) by {
            assert forall|q: int| 0 <= q < n - i implies '0' <= #[trigger] name@.subrange(i as int, n as int)[q] <= '9' by {
                assert(name@.subrange(i as int, n as int)[q] == name@[i + q]);
            }
        }
        assert(name@.subrange(0, i - 1) =~= name@.take(i - 1));
    }
    slice_to_vec_chars(&name[0..i - 1])
}

fn slice_to_vec_chars(s: &[char]) -> (r: Vec<char>)
    ensures
        r@ == s@,
{
    vstd::slice::slice_to_vec(s)
}

/// Whether some word is `target`.
fn has_word(ws: &Vec<Vec<char>>, target: &[char]) -> (r: bool)
    ensures
        r == char_views(ws@).contains(target@),
{
    let mut j: usize = 0;
    while j < ws.len()
        invariant
            j <= ws@.len(),
            forall|q: int| 0 <= q < j ==> #[trigger] ws@[q]@ != target@,
        decreases ws@.len() - j,
    {
        if chars_eq(ws[j].as_slice(), target) {
            assert(char_views(ws@)[j as int] == target@);
            return true;
        }
        j = j + 1;
    }
    proof {
        if char_views(ws@).contains(target@) {
            let q = choose|q: int| 0 <= q < char_views(ws@).len() && char_views(ws@)[q] == target@;
            assert(ws@[q]@ == target@);
        }
    }
    false
}

impl Shebang {
    /// The interpreter that the `#!` line of a file names.
    pub fn interpreter(data: &[u8]) -> (r: Option<String>)
        ensures
            opt_view(r) == interpreter_of(data@),
    {
        if data.len() < 2 || data[0] != 35u8 || data[1] != 33u8 {
            return None;
        }
        let n = if data.len() < SHEBANG_SCOPE {
            data.len()
        } else {
            SHEBANG_SCOPE
        };
        proof {
            assert(data@.subrange(0, n as int) =~= data@.take(n as int));
        }
        let text = match utf8_text(&data[0..n]) {
            Some(t) => t,
            None => {
                return None;
            },
        };
        let cs = chars_of(text.as_str());
        let mut e: usize = 0;
        while e < cs.len() && cs[e] != '\n' && cs[e] != '\r'
            invariant
                e <= cs@.len(),
                break_from(cs@, e as int) == break_from(cs@, 0),
            decreases cs@.len() - e,
        {
            e = e + 1;
        }
        proof {
            assert(cs@.subrange(0, e as int) =~= cs@.take(break_from(cs@, 0)));
        }
        let ws = split_words(&cs.as_slice()[0..e], 2);
        let ghost wsv = char_views(ws@);
        if ws.len() == 0 {
            return None;
        }
        let prog = basename_of(ws[0].as_slice());
        let env = chars_of("env");
        let mut k: usize = 0;
        if chars_eq(prog.as_slice(), env.as_slice()) {
            k = 1;
            while k < ws.len() && ws[k].len() > 0 && ws[k][0] == '-'
                invariant
                    1 <= k <= ws@.len(),
                    wsv == char_views(ws@),
                    first_operand(wsv, k as int) == first_operand(wsv, 1),
                decreases ws@.len() - k,
            {
                k = k + 1;
            }
            if k >= ws.len() {
                return None;
            }
        }
        assert(ws@[k as int]@ == wsv[k as int]);
        let name = strip_minor_version(basename_of(ws[k].as_slice()).as_slice());
        if chars_eq(name.as_slice(), chars_of("osascript").as_slice()) && has_word(
            &ws,
            chars_of("-l").as_slice(),
        ) {
            return None;
        }
        if chars_eq(name.as_slice(), chars_of("sh").as_slice()) {
            let lines = split_lines(cs.as_slice());
            let ghost first = views(lines@).take(
                if lines@.len() < 5 { lines@.len() as int } else { 5 },
            );
            assert(interpreter_of(data@) == (match exec_target(first, 0) {
                Some(p) => Some(p),
                None => Some(name@),
            }));
            let mut j: usize = 0;
            while j < lines.len() && j < EXEC_SEARCH_LINES
                invariant
                    interpreter_of(data@) == (match exec_target(first, 0) {
                        Some(p) => Some(p),
                        None => Some(name@),
                    }),
                    j <= lines@.len(),
                    j <= 5,
                    first == views(lines@).take(if lines@.len() < 5 { lines@.len() as int } else { 5 }),
                    exec_target(first, j as int) == exec_target(first, 0),
                decreases lines@.len() - j,
            {
                assert(first[j as int] == lines@[j as int]@);
                if let Some(g) = groups(EXEC_PATTERN, lines[j].as_str()) {
                    if let Some(p) = group_at(&g, 1) {
                        proof {
                            assert(j < first.len());
                            assert(exec_target(first, j as int) == Some(p@));
                            assert(exec_target(first, 0) == Some(p@));
                        }
                        return Some(p);
                    }
                }
                j = j + 1;
            }
        }
        Some(string_of(name.as_slice()))
    }

    pub fn call(&self, blob: &FileBlob, registry: &Registry, candidates: &Vec<usize>) -> (r: Vec<usize>)
        requires
            registry.wf(),
        ensures
            r@ == shebang_result(registry.langs(), blob@, candidates@),
    {
        if blob.is_symlink() {
            return Vec::new();
        }
        match Shebang::interpreter(blob.data()) {
            Some(s) => {
                let found = Language::find_by_interpreter(registry, s.as_str());
                narrow_to(found, candidates)
            },
            None => Vec::new(),
        }
    }
}

} // verus!
