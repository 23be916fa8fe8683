//! The in-memory source tree of a project and its mathematical model.

use crate::normalize::{clean, clean_code};
use vstd::prelude::*;

verus! {

/// Mathematical model of a source tree: a file with its text, or a directory
/// with its entries in the order in which they were loaded.
pub enum SourceNode {
    Leaf { name: Seq<char>, content: Seq<char> },
    Branch { name: Seq<char>, children: Seq<SourceNode> },
}

/// A source file or a directory of a project, as loaded into memory.
#[derive(Debug)]
pub enum SrcTree {
    File { name: String, data: String },
    Directory { name: String, children: Vec<SrcTree> },
}

/// The models of `trees`, in the same order.
pub open spec fn models(trees: Seq<SrcTree>) -> Seq<SourceNode>
    decreases trees,
{
    if trees.len() == 0 {
        Seq::empty()
    } else {
        models(trees.drop_last()).push(trees.last()@)
    }
}

impl View for SrcTree {
    type V = SourceNode;

    open spec fn view(&self) -> SourceNode
        decreases self,
    {
        match self {
            SrcTree::File { name, data } => SourceNode::Leaf { name: name@, content: data@ },
            SrcTree::Directory { name, children } => SourceNode::Branch {
                name: name@,
                children: models(children@),
            },
        }
    }
}

/// `models` keeps the length and maps each tree to its own model.
pub proof fn lemma_models(trees: Seq<SrcTree>)
    ensures
        models(trees).len() == trees.len(),
        forall|i: int| 0 <= i < trees.len() ==> (#[trigger] models(trees)[i]) == trees[i]@,
    decreases trees.len(),
{
    if trees.len() > 0 {
        let init = trees.drop_last();
        lemma_models(init);
        assert(models(trees) == models(init).push(trees.last()@));
        assert forall|i: int| 0 <= i < trees.len() implies (#[trigger] models(trees)[i])
            == trees[i]@ by {
            if i < init.len() {
                assert(models(init)[i] == init[i]@);
            }
        }
    } else {
        assert(models(trees).len() == 0);
    }
}

impl SrcTree {
    /// The node for a file named `name` that was read as `contents`: its text
    /// is `contents` without the module declarations.
    pub fn from_file(name: String, contents: String) -> (tree: SrcTree)
        ensures
            tree@ == (SourceNode::Leaf { name: name@, content: clean(contents@) }),
    {
        SrcTree::File { name, data: clean_code(contents) }
    }

    /// The node for a directory named `name` whose entries were loaded as
    /// `children`, in that order.
    pub fn from_directory(name: String, children: Vec<SrcTree>) -> (tree: SrcTree)
        ensures
            tree@ == (SourceNode::Branch { name: name@, children: models(children@) }),
    {
        SrcTree::Directory { name, children }
    }

    /// The name of the file or directory.
    pub fn name(&self) -> (name: &String)
        ensures
            name@ == match self@ {
                SourceNode::Leaf { name, .. } => name,
                SourceNode::Branch { name, .. } => name,
            },
    {
        match self {
            SrcTree::File { name, .. } => name,
            SrcTree::Directory { name, .. } => name,
        }
    }
}

} // verus!
