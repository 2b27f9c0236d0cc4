//! Blobs: a file's name and bytes, with the predicates that detection and
//! statistics derive from them.
use vstd::prelude::*;
use vstd::utf8::{decode_utf8, valid_utf8};

use crate::generated::{is_generated, generated_spec};
use crate::pattern::{is_match, pattern_matches};
use crate::text::{
    basename, basename_of, chars_of, lines_of, lower_of, outer_extension, outer_extension_of,
    in_list, split_lines, string_of, to_lower, utf8_text, views,
};
use crate::vendor::{is_vendored, VENDOR_PATTERN};

verus! {

/// Documentation paths: doc directories, readmes, licences, change logs, samples.
pub const DOCUMENTATION_PATTERN: &'static str = r"^[Dd]ocs?/|(^|/)[Dd]ocumentation/|(^|/)[Gg]roovydoc/|(^|/)[Jj]avadoc/|^[Mm]an/|^[Ee]xamples/|^[Dd]emos?/|(^|/)inst/doc/|(^|/)CITATION(\.cff|(S)?(\.(bib|md))?)$|(^|/)CHANGE(S|LOG)?(\.|$)|(^|/)CONTRIBUTING(\.|$)|(^|/)COPYING(\.|$)|(^|/)INSTALL(\.|$)|(^|/)LICEN[CS]E(\.|$)|(^|/)[Ll]icen[cs]e(\.|$)|(^|/)README(\.|$)|(^|/)[Rr]eadme(\.|$)|^[Ss]amples?/";

/// What a blob is made of.
pub struct BlobView {
    pub name: Seq<char>,
    pub data: Seq<u8>,
    pub symlink: bool,
    pub submodule: bool,
}

/// A file: its path as presented, its bytes and whether it is a symbolic link.
pub struct FileBlob {
    name: String,
    data: Vec<u8>,
    symlink: bool,
    submodule: bool,
}

impl View for FileBlob {
    type V = BlobView;

    closed spec fn view(&self) -> BlobView {
        BlobView { name: self.name@, data: self.data@, symlink: self.symlink, submodule: self.submodule }
    }
}

/// POSIX file-type bits of a mode.
pub open spec fn file_type_bits(mode: u32) -> u32 {
    mode & 0o170000
}

/// The mode of a symbolic link.
pub open spec fn is_symlink_mode(mode: u32) -> bool {
    file_type_bits(mode) == 0o120000
}

/// The mode of a submodule entry.
pub open spec fn is_submodule_mode(mode: u32) -> bool {
    file_type_bits(mode) == 0o160000
}

/// Bytes that are not text: they hold a zero byte or are not UTF-8.
pub open spec fn binary_data(d: Seq<u8>) -> bool {
    d.len() > 0 && (d.contains(0u8) || !valid_utf8(d))
}

/// The lines of a blob: none for binary or empty data.
pub open spec fn blob_lines(d: Seq<u8>) -> Seq<Seq<char>> {
    if d.len() == 0 || binary_data(d) {
        seq![]
    } else {
        lines_of(decode_utf8(d))
    }
}

/// The last `n` items of a sequence, or all of them.
pub open spec fn last_n<T>(s: Seq<T>, n: int) -> Seq<T> {
    if n >= s.len() {
        s
    } else {
        s.skip(s.len() - n)
    }
}

/// Extensions that mark a file as binary whatever it holds.
pub open spec fn binary_extension(e: Seq<char>) -> bool {
    e == ".png"@ || e == ".jpg"@ || e == ".jpeg"@ || e == ".gif"@ || e == ".pdf"@ || e == ".zip"@
        || e == ".gz"@ || e == ".tar"@ || e == ".tgz"@ || e == ".exe"@ || e == ".dll"@ || e
        == ".so"@ || e == ".o"@
}

/// Extensions of images.
pub open spec fn image_extension(e: Seq<char>) -> bool {
    e == ".png"@ || e == ".jpg"@ || e == ".jpeg"@ || e == ".gif"@
}

/// The outermost extension of the file name in a path, dot included.
pub open spec fn path_extension(name: Seq<char>) -> Option<Seq<char>> {
    outer_extension(basename(name))
}

/// The file name in a path has an extension that `test` accepts once case-folded.
pub open spec fn extension_is(name: Seq<char>, test: spec_fn(Seq<char>) -> bool) -> bool {
    match path_extension(name) {
        Some(e) => test(lower_of(e)),
        None => false,
    }
}

/// Suffixes of `s` that start at a `.` at or after `i`, longest first.
pub open spec fn dot_suffixes(s: Seq<char>, i: int) -> Seq<Seq<char>>
    decreases s.len() - i,
{
    if i < 0 || i >= s.len() {
        seq![]
    } else if s[i] == '.' {
        seq![s.subrange(i, s.len() as int)] + dot_suffixes(s, i + 1)
    } else {
        dot_suffixes(s, i + 1)
    }
}

/// Whether some byte is zero.
fn has_zero(d: &[u8]) -> (r: bool)
    ensures
        r == d@.contains(0u8),
{
    let mut j: usize = 0;
    while j < d.len()
        invariant
            j <= d@.len(),
            forall|q: int| 0 <= q < j ==> #[trigger] d@[q] != 0u8,
        decreases d@.len() - j,
    {
        if d[j] == 0 {
            return true;
        }
        j = j + 1;
    }
    false
}

/// Relies on `encoding_rs::Encoding::for_bom`: the encoding named by a leading
/// byte-order mark, and the mark's length.
#[verifier::external_body]
fn bom_encoding(data: &[u8]) -> (r: Option<(String, usize)>)
    ensures
        bom_view(r) == bom_of(data@),
{
    encoding_rs::Encoding::for_bom(data).map(|(enc, len)| (enc.name().to_string(), len))
}

/// The encoding a byte-order mark announces: UTF-8 (`EF BB BF`), UTF-16LE
/// (`FF FE`) or UTF-16BE (`FE FF`), with the length of the mark.
pub open spec fn bom_of(d: Seq<u8>) -> Option<(Seq<char>, usize)> {
    if d.len() >= 3 && d[0] == 0xefu8 && d[1] == 0xbbu8 && d[2] == 0xbfu8 {
        Some(("UTF-8"@, 3usize))
    } else if d.len() >= 2 && d[0] == 0xffu8 && d[1] == 0xfeu8 {
        Some(("UTF-16LE"@, 2usize))
    } else if d.len() >= 2 && d[0] == 0xfeu8 && d[1] == 0xffu8 {
        Some(("UTF-16BE"@, 2usize))
    } else {
        None
    }
}

pub open spec fn bom_view(r: Option<(String, usize)>) -> Option<(Seq<char>, usize)> {
    match r {
        Some((s, n)) => Some((s@, n)),
        None => None,
    }
}

/// The encoding of a blob with a confidence out of 100: none for binary or empty
/// data; the one a byte-order mark announces, with full confidence; else UTF-8 at 60.
pub open spec fn encoding_of(d: Seq<u8>) -> Option<(Seq<char>, u32)> {
    if d.len() == 0 || binary_data(d) {
        None
    } else {
        match bom_of(d) {
            Some((name, _)) => Some((name, 100u32)),
            None => Some(("UTF-8"@, 60u32)),
        }
    }
}

impl FileBlob {
    /// A blob over bytes already in memory.
    pub fn from_data(path: &str, data: Vec<u8>) -> (r: FileBlob)
        ensures
            r@.name == path@,
            r@.data == data@,
            !r@.symlink,
            !r@.submodule,
    {
        FileBlob { name: String::from_str(path), data, symlink: false, submodule: false }
    }

    /// A blob for a symbolic link: it holds no bytes.
    pub fn symlink(path: &str) -> (r: FileBlob)
        ensures
            r@.name == path@,
            r@.data.len() == 0,
            r@.symlink,
            !r@.submodule,
    {
        FileBlob { name: String::from_str(path), data: Vec::new(), symlink: true, submodule: false }
    }

    /// A blob for an entry of a version-controlled tree with POSIX mode bits; a
    /// link or a submodule keeps no bytes.
    pub fn from_entry(path: &str, data: Vec<u8>, mode: u32) -> (r: FileBlob)
        ensures
            r@.name == path@,
            r@.symlink == is_symlink_mode(mode),
            r@.submodule == is_submodule_mode(mode),
            r@.data == (if is_symlink_mode(mode) || is_submodule_mode(mode) {
                Seq::<u8>::empty()
            } else {
                data@
            }),
    {
        let bits = mode & 0o170000;
        if bits == 0o120000 {
            FileBlob { name: String::from_str(path), data: Vec::new(), symlink: true, submodule: false }
        } else if bits == 0o160000 {
            FileBlob { name: String::from_str(path), data: Vec::new(), symlink: false, submodule: true }
        } else {
            FileBlob { name: String::from_str(path), data, symlink: false, submodule: false }
        }
    }

    /// Whether the blob stands for a submodule of a version-controlled tree.
    pub fn is_submodule(&self) -> (r: bool)
        ensures
            r == self@.submodule,
    {
        self.submodule
    }

    /// The path as presented.
    pub fn name(&self) -> (r: &str)
        ensures
            r@ == self@.name,
    {
        self.name.as_str()
    }

    /// The bytes.
    pub fn data(&self) -> (r: &[u8])
        ensures
            r@ == self@.data,
    {
        self.data.as_slice()
    }

    /// Number of bytes.
    pub fn size(&self) -> (r: usize)
        ensures
            r == self@.data.len(),
    {
        self.data.len()
    }

    /// Whether the blob is a symbolic link.
    pub fn is_symlink(&self) -> (r: bool)
        ensures
            r == self@.symlink,
    {
        self.symlink
    }

    /// Whether the blob holds no bytes.
    pub fn is_empty(&self) -> (r: bool)
        ensures
            r == (self@.data.len() == 0),
    {
        self.data.len() == 0
    }

    /// Whether the bytes are binary: not empty, and holding a zero byte or not UTF-8.
    pub fn is_binary(&self) -> (r: bool)
        ensures
            r == binary_data(self@.data),
    {
        if self.data.len() == 0 {
            return false;
        }
        if has_zero(self.data.as_slice()) {
            return true;
        }
        utf8_text(self.data.as_slice()).is_none()
    }

    /// Whether the bytes are text.
    pub fn is_text(&self) -> (r: bool)
        ensures
            r == !binary_data(self@.data),
    {
        !self.is_binary()
    }

    /// The outermost extension of the file name, dot included.
    pub fn extension(&self) -> (r: Option<String>)
        ensures
            r matches Some(e) ==> path_extension(self@.name) == Some(e@),
            r is None ==> path_extension(self@.name) is None,
    {
        let cs = chars_of(self.name.as_str());
        let base = basename_of(cs.as_slice());
        match outer_extension_of(base.as_slice()) {
            Some(e) => Some(string_of(e.as_slice())),
            None => None,
        }
    }

    /// Every trailing extension of the case-folded file name, longest first:
    /// `a.html.erb` gives `.html.erb` and `.erb`.
    pub fn extensions(&self) -> (r: Vec<String>)
        ensures
            views(r@) == dot_suffixes(lower_of(basename(self@.name)), 0),
    {
        let cs = chars_of(self.name.as_str());
        let base = string_of(basename_of(cs.as_slice()).as_slice());
        let lowered = to_lower(base.as_str());
        let name = chars_of(lowered.as_str());
        let n = name.len();
        let mut out: Vec<String> = Vec::new();
        let mut i: usize = 0;
        while i < n
            invariant
                n == name@.len(),
                i <= n,
                views(out@) + dot_suffixes(name@, i as int) == dot_suffixes(name@, 0),
            decreases n - i,
        {
            if name[i] == '.' {
                let e = string_of(&name.as_slice()[i..n]);
                proof {
                    assert(views(out@.push(e)) =~= views(out@).push(e@));
                    assert(views(out@).push(e@) + dot_suffixes(name@, i + 1) =~= views(out@)
                        + dot_suffixes(name@, i as int));
                }
                out.push(e);
            }
            i = i + 1;
        }
        proof {
            assert(views(out@) + dot_suffixes(name@, n as int) =~= views(out@));
        }
        out
    }

    /// Whether the extension alone marks the file as binary.
    pub fn likely_binary(&self) -> (r: bool)
        ensures
            r == extension_is(self@.name, |e: Seq<char>| binary_extension(e)),
    {
        match self.extension() {
            Some(e) => {
                let lowered = to_lower(e.as_str());
                in_list(
                    &lowered,
                    &[".png", ".jpg", ".jpeg", ".gif", ".pdf", ".zip", ".gz", ".tar", ".tgz", ".exe", ".dll", ".so", ".o"],
                )
            },
            None => false,
        }
    }

    /// Whether the extension names an image.
    pub fn is_image(&self) -> (r: bool)
        ensures
            r == extension_is(self@.name, |e: Seq<char>| image_extension(e)),
    {
        match self.extension() {
            Some(e) => {
                let lowered = to_lower(e.as_str());
                in_list(&lowered, &[".png", ".jpg", ".jpeg", ".gif"])
            },
            None => false,
        }
    }

    /// Whether the path names vendored code.
    pub fn is_vendored(&self) -> (r: bool)
        ensures
            r == pattern_matches(VENDOR_PATTERN@, self@.name),
    {
        is_vendored(self.name.as_str())
    }

    /// Whether the path names documentation.
    pub fn is_documentation(&self) -> (r: bool)
        ensures
            r == pattern_matches(DOCUMENTATION_PATTERN@, self@.name),
    {
        is_match(DOCUMENTATION_PATTERN, self.name.as_str())
    }

    /// Whether the file was generated by a tool.
    pub fn is_generated(&self) -> (r: bool)
        ensures
            r == generated_spec(self@.name, self@.data),
    {
        is_generated(self.name.as_str(), self.data.as_slice())
    }

    /// The lines of the text: none for binary or empty data.
    pub fn lines(&self) -> (r: Vec<String>)
        ensures
            views(r@) == blob_lines(self@.data),
    {
        lines_of_bytes(self.data.as_slice())
    }

    /// The first `n` lines.
    pub fn first_lines(&self, n: usize) -> (r: Vec<String>)
        ensures
            views(r@) == blob_lines(self@.data).take(
                if n <= blob_lines(self@.data).len() { n as int } else { blob_lines(self@.data).len() as int },
            ),
    {
        let mut all = self.lines();
        if n < all.len() {
            all.truncate(n);
            proof {
                assert(views(all@) =~= blob_lines(self@.data).take(n as int));
            }
        } else {
            proof {
                assert(blob_lines(self@.data).take(blob_lines(self@.data).len() as int) =~= blob_lines(self@.data));
            }
        }
        all
    }

    /// The last `n` lines.
    pub fn last_lines(&self, n: usize) -> (r: Vec<String>)
        ensures
            views(r@) == last_n(blob_lines(self@.data), n as int),
    {
        let all = self.lines();
        if n >= all.len() {
            all
        } else {
            let mut out: Vec<String> = Vec::new();
            let start = all.len() - n;
            let mut j: usize = start;
            while j < all.len()
                invariant
                    start <= j <= all@.len(),
                    start == all@.len() - n,
                    views(out@) == views(all@).subrange(start as int, j as int),
                decreases all@.len() - j,
            {
                let ghost before = out@;
                let line = all[j].clone();
                out.push(line);
                proof {
                    assert(line == all@[j as int]);
                    assert(views(out@) =~= views(before).push(all@[j as int]@));
                    assert(views(out@) =~= views(all@).subrange(start as int, j + 1));
                }
                j = j + 1;
            }
            proof {
                assert(views(all@).subrange(start as int, j as int) =~= views(all@).skip(start as int));
            }
            out
        }
    }

    /// Number of lines.
    pub fn loc(&self) -> (r: usize)
        ensures
            r == blob_lines(self@.data).len(),
    {
        self.lines().len()
    }

    /// The encoding and how sure the guess is, out of 100.
    pub fn encoding(&self) -> (r: Option<(String, u32)>)
        ensures
            match r {
                Some((name, c)) => encoding_of(self@.data) == Some((name@, c)),
                None => encoding_of(self@.data) is None,
            },
    {
        if self.is_binary() || self.is_empty() {
            return None;
        }
        match bom_encoding(self.data.as_slice()) {
            Some((name, _)) => Some((name, 100)),
            None => Some((String::from_str("UTF-8"), 60)),
        }
    }
}

/// The lines of some bytes, as a blob sees them.
pub fn lines_of_bytes(d: &[u8]) -> (r: Vec<String>)
    ensures
        views(r@) == blob_lines(d@),
{
    if d.len() == 0 {
        return Vec::new();
    }
    if has_zero(d) {
        return Vec::new();
    }
    match utf8_text(d) {
        Some(text) => {
            let cs = chars_of(text.as_str());
            split_lines(cs.as_slice())
        },
        None => Vec::new(),
    }
}

} // verus!
