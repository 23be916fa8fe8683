use scriptify::flatten::{is_well_formed, join_src_tree};
use scriptify::tree::SrcTree;

fn file(name: &str, data: &str) -> SrcTree {
    SrcTree::File { name: name.to_string(), data: data.to_string() }
}

fn dir(name: &str, children: Vec<SrcTree>) -> SrcTree {
    SrcTree::Directory { name: name.to_string(), children }
}

#[test]
fn plain_file_is_wrapped_in_a_module_block() {
    let out = join_src_tree(file("foo.rs", "pub fn bar(){}"));
    assert_eq!(out, "mod foo {\npub fn bar(){}\n}");
}

#[test]
fn wrapped_file_keeps_its_text_verbatim() {
    let text = "// héllo → wörld\nfn f() {}\n\n";
    let out = join_src_tree(file("geo.rs", text));
    assert_eq!(out, format!("mod geo {{\n{}\n}}", text));
    assert_eq!(out.matches("mod geo {\n").count(), 1);
}

#[test]
fn empty_file_gives_an_empty_block() {
    assert_eq!(join_src_tree(file("empty.rs", "")), "mod empty {\n\n}");
}

#[test]
fn module_root_file_is_emitted_bare() {
    assert_eq!(join_src_tree(file("mod.rs", "pub fn a(){}")), "pub fn a(){}");
}

#[test]
fn entry_file_is_emitted_bare() {
    assert_eq!(join_src_tree(file("main.rs", "fn main(){}")), "fn main(){}");
}

#[test]
fn inlined_names_match_exactly() {
    assert_eq!(join_src_tree(file("Main.rs", "x")), "mod Main {\nx\n}");
    assert_eq!(join_src_tree(file("mod.rss", "x")), "mod mod. {\nx\n}");
    assert_eq!(join_src_tree(file("amain.rs", "x")), "mod amain {\nx\n}");
}

#[test]
fn module_name_is_the_file_name_without_its_last_three_characters() {
    assert_eq!(join_src_tree(file("a.b.rs", "x")), "mod a.b {\nx\n}");
    assert_eq!(join_src_tree(file("notes.txt", "x")), "mod notes. {\nx\n}");
    assert_eq!(join_src_tree(file(".rs", "x")), "mod  {\nx\n}");
    assert_eq!(join_src_tree(file("é.rs", "x")), "mod é {\nx\n}");
}

#[test]
fn source_root_is_not_wrapped() {
    let tree = dir("src", vec![file("a.rs", "A"), file("b.rs", "B")]);
    assert_eq!(join_src_tree(tree), "mod a {\nA\n}\nmod b {\nB\n}\n");
}

#[test]
fn empty_source_root_flattens_to_nothing() {
    assert_eq!(join_src_tree(dir("src", vec![])), "");
}

#[test]
fn source_root_is_not_wrapped_at_any_depth() {
    let tree = dir("outer", vec![dir("src", vec![file("a.rs", "A")])]);
    assert_eq!(join_src_tree(tree), "mod outer {\nmod a {\nA\n}\n\n}\n");
}

#[test]
fn directory_is_wrapped_in_one_block() {
    let tree = dir("util", vec![file("mod.rs", "pub mod x;"), file("x.rs", "X")]);
    assert_eq!(join_src_tree(tree), "mod util {\npub mod x;\nmod x {\nX\n}\n}\n");
}

#[test]
fn directory_name_is_case_sensitive() {
    assert_eq!(join_src_tree(dir("Src", vec![])), "mod Src {\n}\n");
}

#[test]
fn children_keep_their_load_order() {
    let first = dir("src", vec![file("b.rs", "B"), file("a.rs", "A")]);
    assert_eq!(join_src_tree(first), "mod b {\nB\n}\nmod a {\nA\n}\n");
    let second = dir("src", vec![file("a.rs", "A"), file("b.rs", "B")]);
    assert_eq!(join_src_tree(second), "mod a {\nA\n}\nmod b {\nB\n}\n");
}

#[test]
fn module_root_file_is_bare_at_every_depth() {
    let tree = dir(
        "src",
        vec![dir("a", vec![dir("b", vec![file("mod.rs", "DEEP")])]), file("main.rs", "TOP")],
    );
    assert_eq!(join_src_tree(tree), "mod a {\nmod b {\nDEEP\n}\n\n}\n\nTOP\n");
}

#[test]
fn project_with_entry_file_and_one_module() {
    let tree = SrcTree::from_directory(
        "src".to_string(),
        vec![
            SrcTree::from_file("foo.rs".to_string(), "pub fn bar(){}".to_string()),
            SrcTree::from_file("main.rs".to_string(), "mod foo;\nfn main(){}".to_string()),
        ],
    );
    assert_eq!(join_src_tree(tree), "mod foo {\npub fn bar(){}\n}\nfn main(){}\n");
}

#[test]
fn empty_directory_under_the_source_root() {
    let sub = dir("empty", vec![]);
    assert_eq!(join_src_tree(sub), "mod empty {\n}\n");
    let tree = dir("src", vec![dir("empty", vec![])]);
    assert_eq!(join_src_tree(tree), "mod empty {\n}\n\n");
}

#[test]
fn well_formed_trees_are_recognised() {
    assert!(is_well_formed(&file("foo.rs", "")));
    assert!(is_well_formed(&file(".rs", "")));
    assert!(is_well_formed(&file("abc", "")));
    assert!(is_well_formed(&file("mod.rs", "")));
    assert!(is_well_formed(&file("main.rs", "")));
    assert!(is_well_formed(&dir("src", vec![])));
    assert!(is_well_formed(&dir("x", vec![file("a.rs", ""), dir("y", vec![file("b.rs", "")])])));
    assert!(is_well_formed(&file("éé.", "")));
}

#[test]
fn short_file_names_are_not_well_formed() {
    assert!(!is_well_formed(&file("", "")));
    assert!(!is_well_formed(&file("a", "")));
    assert!(!is_well_formed(&file("rs", "")));
    assert!(!is_well_formed(&file("éé", "")));
    assert!(!is_well_formed(&dir("src", vec![file("a.rs", ""), file("b", "")])));
    assert!(!is_well_formed(&dir("x", vec![dir("y", vec![file("zz", "")])])));
}

#[test]
fn short_directory_names_are_well_formed() {
    assert!(is_well_formed(&dir("a", vec![])));
    assert_eq!(join_src_tree(dir("a", vec![])), "mod a {\n}\n");
}

#[test]
fn directory_block_closes_right_after_its_last_entry() {
    let tree = dir("e", vec![file("mod.rs", "fn f(){}")]);
    assert_eq!(join_src_tree(tree), "mod e {\nfn f(){}\n}\n");
    assert_eq!(join_src_tree(dir("e", vec![])), "mod e {\n}\n");
}
