//! Assembles the finished script: the manifest header followed by the
//! flattened source tree.

use crate::flatten::{flatten, join_src_tree, well_formed};
use crate::manifest::{generate_manifest, manifest_header};
use crate::tree::{SourceNode, SrcTree};
use vstd::prelude::*;

verus! {

/// The text of the script for a manifest and a source tree.
pub open spec fn script_text(manifest: Seq<char>, source: SourceNode) -> Seq<char> {
    manifest_header(manifest) + flatten(source)
}

/// Builds the script for the manifest text `cargo_contents` and the source
/// tree `source`: the generated header, then the flattened tree.
pub fn scriptify(cargo_contents: &str, source: SrcTree) -> (script: String)
    requires
        well_formed(source@),
    ensures
        script@ == script_text(cargo_contents@, source@),
{
    let mut script = generate_manifest(cargo_contents);
    let body = join_src_tree(source);
    script.append(body.as_str());
    script
}

} // verus!
