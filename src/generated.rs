//! Files produced by tools rather than written by hand.
use vstd::prelude::*;

use crate::blob::{blob_lines, lines_of_bytes};
use crate::pattern::{is_match, pattern_matches};
use crate::text::{join_lines, join_with_newlines, string_of, views};

verus! {

/// Paths of lock files, compiled protocol buffers and similar tool output.
pub const GENERATED_PATH_PATTERN: &'static str = r"(^|/)(package-lock\.json|npm-shrinkwrap\.json|yarn\.lock|pnpm-lock\.yaml|Cargo\.lock|Gopkg\.lock|composer\.lock|poetry\.lock|Pipfile\.lock|Gemfile\.lock|go\.sum)$|\.(pb\.go|pb\.cc|pb\.h|pb\.c|designer\.cs|g\.dart|freezed\.dart)$|_pb2(_grpc)?\.py$|(^|/)\.pnp\.(c|m)?js$|\.(js|css)\.map$";

/// Notices that tools leave at the top of what they write.
pub const GENERATED_MARKER_PATTERN: &'static str = r"(?i)(\bcode generated\b.*\bdo not edit\b|@generated\b|\bauto-?generated\b|\bgenerated by\b.*\bdo not (edit|modify)\b)";

/// Number of leading lines searched for a generator's notice.
pub const GENERATED_HEADER_LINES: usize = 5;

/// A path of tool output, or a notice of one in the first lines.
pub open spec fn generated_spec(name: Seq<char>, data: Seq<u8>) -> bool {
    let lines = blob_lines(data);
    let head = lines.take(if lines.len() < 5 { lines.len() as int } else { 5 });
    pattern_matches(GENERATED_PATH_PATTERN@, name) || pattern_matches(
        GENERATED_MARKER_PATTERN@,
        join_lines(head),
    )
}

/// Whether a file was generated by a tool, judged by its path and first lines.
pub fn is_generated(name: &str, data: &[u8]) -> (r: bool)
    ensures
        r == generated_spec(name@, data@),
{
    if is_match(GENERATED_PATH_PATTERN, name) {
        return true;
    }
    let mut lines = lines_of_bytes(data);
    if lines.len() > GENERATED_HEADER_LINES {
        lines.truncate(GENERATED_HEADER_LINES);
    }
    proof {
        let all = blob_lines(data@);
        assert(views(lines@) =~= all.take(if all.len() < 5 { all.len() as int } else { 5 }));
    }
    let head = join_with_newlines(lines.as_slice());
    is_match(GENERATED_MARKER_PATTERN, string_of(head.as_slice()).as_str())
}

} // verus!
