//! Serialises a source tree into one text in which nested `mod` blocks stand
//! for the files and directories of the project.

use crate::tree::{lemma_models, models, SourceNode, SrcTree};
use vstd::prelude::*;

verus! {

/// Name of the file that holds a directory's own module content.
pub const MODULE_ROOT_FILE: &'static str = "mod.rs";

/// Name of the file that holds the program's entry point.
pub const ENTRY_FILE: &'static str = "main.rs";

/// Name of the top-level source directory, which is the implicit root scope.
pub const SOURCE_ROOT_DIR: &'static str = "src";

/// Extension that is stripped from a file name to get its module name.
pub const SOURCE_EXTENSION: &'static str = ".rs";

/// Whether a file of this name is emitted bare, at the scope of its directory.
pub open spec fn is_inlined_file(name: Seq<char>) -> bool {
    name == MODULE_ROOT_FILE@ || name == ENTRY_FILE@
}

/// The module that a file of this name defines: the name without its extension.
pub open spec fn module_name(file_name: Seq<char>) -> Seq<char> {
    file_name.subrange(0, file_name.len() - SOURCE_EXTENSION@.len())
}

/// The line that opens the scope block of module `name`.
pub open spec fn scope_open(name: Seq<char>) -> Seq<char> {
    "mod "@ + name + " {\n"@
}

/// The module block that wraps the text of one file.
pub open spec fn file_block(name: Seq<char>, content: Seq<char>) -> Seq<char> {
    scope_open(module_name(name)) + content + "\n}"@
}

/// The module block that wraps the entries of one directory: the opening
/// line, the entries, and the closing brace on a line of its own.
pub open spec fn directory_block(name: Seq<char>, body: Seq<char>) -> Seq<char> {
    scope_open(name) + body + "}\n"@
}

/// Every file that gets a module block has a name long enough to strip the
/// extension from.
pub open spec fn well_formed(node: SourceNode) -> bool
    decreases node,
{
    match node {
        SourceNode::Leaf { name, content } => is_inlined_file(name) || name.len()
            >= SOURCE_EXTENSION@.len(),
        SourceNode::Branch { name, children } => forall|i: int|
            0 <= i < children.len() ==> well_formed(#[trigger] children[i]),
    }
}

/// Whether every file of the tree has a name that ends with the source
/// extension.
pub open spec fn has_source_file_names(node: SourceNode) -> bool
    decreases node,
{
    match node {
        SourceNode::Leaf { name, content } => SOURCE_EXTENSION@.is_suffix_of(name),
        SourceNode::Branch { name, children } => forall|i: int|
            0 <= i < children.len() ==> has_source_file_names(#[trigger] children[i]),
    }
}

/// The flattened text of a tree.
pub open spec fn flatten(node: SourceNode) -> Seq<char>
    decreases node,
{
    match node {
        SourceNode::Leaf { name, content } => if is_inlined_file(name) {
            content
        } else {
            file_block(name, content)
        },
        SourceNode::Branch { name, children } => if name == SOURCE_ROOT_DIR@ {
            flatten_entries(children)
        } else {
            directory_block(name, flatten_entries(children))
        },
    }
}

/// The flattened texts of `entries`, in order, each followed by a line feed.
pub open spec fn flatten_entries(entries: Seq<SourceNode>) -> Seq<char>
    decreases entries,
{
    if entries.len() == 0 {
        Seq::empty()
    } else {
        flatten_entries(entries.drop_last()) + flatten(entries.last()) + "\n"@
    }
}

/// Tells whether a file of this name is emitted bare.
fn is_inlined_file_name(name: &String) -> (inlined: bool)
    ensures
        inlined == is_inlined_file(name@),
{
    *name == String::from_str(MODULE_ROOT_FILE) || *name == String::from_str(ENTRY_FILE)
}

/// Tells whether every file of `tree` that gets a module block has a name
/// long enough to strip the extension from.
#[verifier::loop_isolation(false)]
pub fn is_well_formed(tree: &SrcTree) -> (ok: bool)
    ensures
        ok == well_formed(tree@),
    decreases tree,
{
    match tree {
        SrcTree::File { name, data } => {
            is_inlined_file_name(name) || name.as_str().unicode_len()
                >= SOURCE_EXTENSION.unicode_len()
        },
        SrcTree::Directory { name, children } => {
            proof {
                lemma_models(children@);
            }
            let mut i: usize = 0;
            while i < children.len()
                invariant
                    i <= children.len(),
                    forall|j: int| 0 <= j < i ==> well_formed(#[trigger] children@[j]@),
                decreases children.len() - i,
            {
                if !is_well_formed(&children[i]) {
                    assert(!well_formed(tree@->children[i as int]));
                    return false;
                }
                i += 1;
            }
            true
        },
    }
}

/// Starts a buffer with the line that opens the scope block of module `name`.
fn open_scope(name: &str) -> (buffer: String)
    ensures
        buffer@ == scope_open(name@),
{
    let mut buffer = String::from_str("mod ");
    buffer.append(name);
    buffer.append(" {\n");
    buffer
}

/// Flattens `tree` into one text: a file becomes a `mod` block named after it,
/// unless it is the module root or the entry file, whose text is emitted bare;
/// a directory becomes a `mod` block around its entries, each followed by a
/// line feed, unless it is the source root, whose entries are emitted bare.
#[verifier::loop_isolation(false)]
pub fn join_src_tree(tree: SrcTree) -> (out: String)
    requires
        well_formed(tree@),
    ensures
        out@ == flatten(tree@),
    decreases tree,
{
    match tree {
        SrcTree::File { name, data } => {
            if is_inlined_file_name(&name) {
                data
            } else {
                let name_len = name.as_str().unicode_len();
                let ext_len = SOURCE_EXTENSION.unicode_len();
                let stem = name.as_str().substring_char(0, name_len - ext_len);
                let mut buffer = open_scope(stem);
                buffer.append(data.as_str());
                buffer.append("\n}");
                buffer
            }
        },
        SrcTree::Directory { name, children } => {
            let ghost entries = tree@->children;
            let is_root = name == String::from_str(SOURCE_ROOT_DIR);
            let mut buffer = if is_root {
                String::new()
            } else {
                open_scope(name.as_str())
            };
            let ghost head = buffer@;
            proof {
                lemma_models(children@);
            }
            for child in it: children
                invariant
                    it.seq() == children@,
                    buffer@ == head + flatten_entries(entries.take(it.index() as int)),
            {
                let ghost done = it.index() as int;
                assert(child@ == entries[done]);
                let part = join_src_tree(child);
                buffer.append(part.as_str());
                buffer.append("\n");
                proof {
                    let next = entries.take(done + 1);
                    assert(next.drop_last() =~= entries.take(done));
                }
            }
            assert(entries.take(entries.len() as int) =~= entries);
            if !is_root {
                buffer.append("}\n");
            }
            buffer
        },
    }
}

/// The module name of a source file is its name without the extension.
pub proof fn lemma_module_name_strips_extension(file_name: Seq<char>)
    requires
        SOURCE_EXTENSION@.is_suffix_of(file_name),
    ensures
        module_name(file_name) + SOURCE_EXTENSION@ == file_name,
{
}

/// A tree in which every file name ends with the source extension is well
/// formed.
pub proof fn lemma_source_file_names_are_well_formed(node: SourceNode)
    requires
        has_source_file_names(node),
    ensures
        well_formed(node),
    decreases node,
{
    match node {
        SourceNode::Leaf { name, content } => {},
        SourceNode::Branch { name, children } => {
            assert forall|i: int| 0 <= i < children.len() implies well_formed(
                #[trigger] children[i],
            ) by {
                lemma_source_file_names_are_well_formed(children[i]);
            }
        },
    }
}

/// A file that is neither the module root nor the entry file flattens to
/// exactly one module block: the opening line that names the module after
/// the file name without its extension, the file's text unchanged, and the
/// closing brace on a line of its own. Nothing else is added.
pub proof fn lemma_file_gets_one_block(name: Seq<char>, content: Seq<char>)
    requires
        !is_inlined_file(name),
    ensures
        flatten(SourceNode::Leaf { name, content }) == "mod "@ + module_name(name) + " {\n"@
            + content + "\n}"@,
{
}

/// The module root file and the entry file flatten to their own text, with
/// nothing added before or after it.
pub proof fn lemma_inlined_file_is_bare(name: Seq<char>, content: Seq<char>)
    requires
        is_inlined_file(name),
    ensures
        flatten(SourceNode::Leaf { name, content }) == content,
{
}

/// The source root directory gets no module block: it flattens to its
/// entries alone, each followed by a line feed.
pub proof fn lemma_source_root_is_bare(children: Seq<SourceNode>)
    ensures
        flatten(SourceNode::Branch { name: SOURCE_ROOT_DIR@, children }) == flatten_entries(
            children,
        ),
{
}

/// Any other directory flattens to exactly one module block named after it:
/// the opening line, the entries in load order, each followed by a line
/// feed, and the closing brace followed by a line feed.
pub proof fn lemma_directory_gets_one_block(name: Seq<char>, children: Seq<SourceNode>)
    requires
        name != SOURCE_ROOT_DIR@,
    ensures
        flatten(SourceNode::Branch { name, children }) == "mod "@ + name + " {\n"@
            + flatten_entries(children) + "}\n"@,
{
}

/// Flattening the entries of two lists laid end to end gives the two
/// flattened texts laid end to end.
pub proof fn lemma_flatten_entries_concat(first: Seq<SourceNode>, second: Seq<SourceNode>)
    ensures
        flatten_entries(first + second) == flatten_entries(first) + flatten_entries(second),
    decreases second.len(),
{
    if second.len() > 0 {
        let all = first + second;
        assert(all.drop_last() =~= first + second.drop_last());
        lemma_flatten_entries_concat(first, second.drop_last());
        assert(flatten_entries(all) == flatten_entries(all.drop_last()) + flatten(all.last())
            + "\n"@);
        assert(flatten_entries(second) == flatten_entries(second.drop_last()) + flatten(
            second.last(),
        ) + "\n"@);
    }
}

/// The flattened entries hold each entry's text in load order: the text of
/// entry `i` and its line feed stand right after the texts of the entries
/// before it and right before the texts of the entries after it.
pub proof fn lemma_entries_in_load_order(entries: Seq<SourceNode>, i: int)
    requires
        0 <= i < entries.len(),
    ensures
        flatten_entries(entries) == flatten_entries(entries.take(i)) + flatten(entries[i])
            + "\n"@ + flatten_entries(entries.skip(i + 1)),
{
    let before = entries.take(i);
    let one = seq![entries[i]];
    let after = entries.skip(i + 1);
    assert(entries =~= before + one + after);
    lemma_flatten_entries_concat(before + one, after);
    lemma_flatten_entries_concat(before, one);
    assert(flatten_entries(one) == flatten_entries(one.drop_last()) + flatten(one.last())
        + "\n"@);
    assert(flatten_entries(before) + (flatten(entries[i]) + "\n"@) =~= flatten_entries(before)
        + flatten(entries[i]) + "\n"@);
}

} // verus!
