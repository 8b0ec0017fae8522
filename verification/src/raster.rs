//! Where a rasterized vector icon lands.
//!
//! Rasterizing writes a raster file whose name is the vector source's final
//! component with its extension replaced, placed in a chosen output
//! directory. The rendering itself reads and writes files and drives a
//! renderer whose fit transform is floating-point arithmetic, so it stays
//! with the caller; the library fixes the output path it must use.

use vstd::prelude::*;

use crate::paths::file_name;
use crate::paths::file_name_of;
use crate::paths::join_path;
use crate::paths::spec_join;
use crate::paths::with_extension;
use crate::paths::with_extension_of;

verus! {

/// The raster file that rendering `svg_path` into `cache_dir` produces:
/// the source's final component, extension replaced by `png`, under
/// `cache_dir`.
pub open spec fn spec_png_output_path(cache_dir: Seq<char>, svg_path: Seq<char>) -> Seq<char> {
    spec_join(cache_dir, with_extension_of(file_name_of(svg_path), "png"@))
}

/// The output path for rasterizing `svg_path` into `cache_dir`. A source
/// path with an empty final component (a bare root, or one ending in a
/// separator) has no name to derive the output from and is left out.
pub fn png_output_path(cache_dir: &str, svg_path: &str) -> (r: String)
    requires
        file_name_of(svg_path@).len() > 0,
    ensures
        r@ == spec_png_output_path(cache_dir@, svg_path@),
{
    let name = file_name(svg_path);
    let target = with_extension(name.as_str(), "png");
    join_path(cache_dir, target.as_str())
}

} // verus!
