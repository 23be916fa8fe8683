//! Generates the script header that embeds a dependency manifest: after the
//! interpreter line, every line of the manifest becomes a doc-comment line
//! between the opening and the closing fence; the block that re-invokes the
//! interpreter ends the header.

use crate::lines::{line_texts, split_into_lines, split_lines, LINE_FEED};
use crate::text::{push_chars, to_chars};
use vstd::prelude::*;

verus! {

/// The line that names the interpreter of the script.
pub const INTERPRETER_LINE: &'static str = "#!/usr/bin/env nix-shell\n";

/// The line that opens the embedded manifest.
pub const MANIFEST_FENCE_LINE: &'static str = "//! ```cargo\n";

/// The line that closes the embedded manifest.
pub const MANIFEST_FENCE_CLOSE_LINE: &'static str = "//! ```\n";

/// What stands before each line of the embedded manifest.
pub const MANIFEST_LINE_PREFIX: &'static str = "//! ";

/// The block that ends the header and re-invokes the interpreter.
pub const INTERPRETER_DIRECTIVE: &'static str =
    "/*\n#!nix-shell -i rust-script -p rustc -p rust-script -p cargo\n*/\n";

/// One line of the embedded manifest: the prefix, the line, a line feed.
pub open spec fn embedded_line(line: Seq<char>) -> Seq<char> {
    MANIFEST_LINE_PREFIX@ + line + seq![LINE_FEED]
}

/// The embedded forms of `lines`, in order.
pub open spec fn embedded_lines(lines: Seq<Seq<char>>) -> Seq<char>
    decreases lines.len(),
{
    if lines.len() == 0 {
        Seq::empty()
    } else {
        embedded_lines(lines.drop_last()) + embedded_line(lines.last())
    }
}

/// The header generated for a manifest with the text `manifest`.
pub open spec fn manifest_header(manifest: Seq<char>) -> Seq<char> {
    INTERPRETER_LINE@ + MANIFEST_FENCE_LINE@ + embedded_lines(split_lines(manifest))
        + MANIFEST_FENCE_CLOSE_LINE@ + INTERPRETER_DIRECTIVE@
}

/// Generates the header for the manifest text `cargo_contents`: the
/// interpreter line, the opening fence, each line of the manifest behind the
/// doc-comment prefix, the closing fence, and the block that re-invokes the
/// interpreter.
pub fn generate_manifest(cargo_contents: &str) -> (manifest: String)
    ensures
        manifest@ == manifest_header(cargo_contents@),
{
    let mut manifest = String::from_str(INTERPRETER_LINE);
    manifest.append(MANIFEST_FENCE_LINE);
    let chars = to_chars(cargo_contents);
    let lines = split_into_lines(&chars);
    let ghost opening = manifest@;
    let ghost all = line_texts(lines@);
    let mut i: usize = 0;
    assert(all.take(0) =~= Seq::empty());
    while i < lines.len()
        invariant
            i <= lines.len(),
            all == line_texts(lines@),
            manifest@ == opening + embedded_lines(all.take(i as int)),
        decreases lines.len() - i,
    {
        manifest.append(MANIFEST_LINE_PREFIX);
        push_chars(&mut manifest, &lines[i]);
        manifest.push(LINE_FEED);
        proof {
            let next = all.take(i + 1);
            assert(next.drop_last() =~= all.take(i as int));
            assert(manifest@ =~= opening + embedded_lines(next));
        }
        i += 1;
    }
    assert(all.take(all.len() as int) =~= all);
    manifest.append(MANIFEST_FENCE_CLOSE_LINE);
    manifest.append(INTERPRETER_DIRECTIVE);
    manifest
}

} // verus!
