//! Paths of third-party code that language statistics leave out.
use vstd::prelude::*;

use crate::pattern::{is_match, pattern_matches};

verus! {

/// Vendored paths: dependency directories, minified and bundled libraries,
/// build-system helpers.
pub const VENDOR_PATTERN: &'static str = r"(^|/)cache/|^[Dd]ependencies/|(^|/)dist/|^deps/|(^|/)configure$|(^|/)config\.guess$|(^|/)config\.sub$|(^|/)aclocal\.m4|(^|/)libtool\.m4|(^|/)ltoptions\.m4|(^|/)ltsugar\.m4|(^|/)ltversion\.m4|(^|/)lt~obsolete\.m4|(^|/)dotnet-install\.(ps1|sh)$|(^|/)node_modules/|(^|/)\.yarn/releases/|(^|/)\.yarn/plugins/|(^|/)\.yarn/sdks/|(^|/)\.yarn/versions/|(^|/)\.yarn/unplugged/|(^|/)bower_components/|(\.|-)min\.(js|css)$|(^|/)bootstrap([^/.]*)(\..*)?\.(js|css|less|scss|styl)$|(^|/)jquery([^.]*)\.js$|(^|/)jquery\-\d\.\d+(\.\d+)?\.js$|(^|/)jquery\-ui(\-\d\.\d+(\.\d+)?)?(\.\w+)?\.(js|css)$|(3rd|[Tt]hird)[-_]?[Pp]arty/|(^|/)vendors?/|(^|/)[Ee]xtern(als?)?/|(^|/)[Vv]+endor/";

/// Whether a path names vendored code.
pub fn is_vendored(path: &str) -> (r: bool)
    ensures
        r == pattern_matches(VENDOR_PATTERN@, path@),
{
    is_match(VENDOR_PATTERN, path)
}

} // verus!
