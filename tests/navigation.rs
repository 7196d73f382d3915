use mdwiki::summary::SUMMARY_HEAD;
use mdwiki::tree::{path_before, PageIndex, TreeNode, WikiTree};

fn file(p: &str) -> TreeNode {
    TreeNode { path: p.to_string(), is_dir: false }
}

fn dir(p: &str) -> TreeNode {
    TreeNode { path: p.to_string(), is_dir: true }
}

fn paths(t: &PageIndex) -> Vec<String> {
    t.nodes.iter().map(|n| n.path.clone()).collect()
}

#[test]
fn path_order() {
    assert!(path_before("a", "a/b.md"));
    assert!(path_before("a/z.md", "a.md"));
    assert!(path_before("a.md", "b"));
    assert!(path_before("B.md", "a.md"));
    assert!(!path_before("a", "a"));
    assert!(!path_before("c.md", "a/b.md"));
}

#[test]
fn directory_entries_before_later_files() {
    let listing = vec![file("c.md"), file("a/b.md"), dir("a"), file("a/a.md"), file("README.md")];
    let tree = PageIndex::scan(listing);
    assert_eq!(paths(&tree), vec!["a", "a/a.md", "a/b.md", "c.md"]);
    let text = tree.render_summary();
    let expected = format!(
        "{}- [a](a/README.md)\n  - [a](a/a.md)\n  - [b](a/b.md)\n- [c](c.md)\n",
        SUMMARY_HEAD
    );
    assert_eq!(text, expected);
}

#[test]
fn assets_never_listed() {
    let listing = vec![
        dir("images"),
        file("images/pic.md"),
        file("images/photo.png"),
        dir("images/sub"),
        file("images/sub/page.md"),
        file("page.md"),
    ];
    let tree = PageIndex::scan(listing);
    assert_eq!(paths(&tree), vec!["page.md"]);
    let text = tree.render_summary();
    assert!(!text.contains("images"));
}

#[test]
fn index_and_reserved_files_left_out() {
    let listing = vec![
        file("README.md"),
        file("SUMMARY.md"),
        file("index.md"),
        dir("docs"),
        file("docs/README.md"),
        file("docs/notes.txt"),
        file("docs/guide.md"),
        dir("edit"),
        file("edit/draft.md"),
    ];
    let tree = PageIndex::scan(listing);
    assert_eq!(paths(&tree), vec!["docs", "docs/guide.md", "edit"]);
}

#[test]
fn rendering_twice_is_identical() {
    let listing = vec![dir("x"), file("x/y.md"), file("z.md")];
    let tree = PageIndex::scan(listing);
    assert_eq!(tree.render_summary(), tree.render_summary());
    let a = PageIndex::scan(vec![file("z.md"), file("x/y.md"), dir("x")]).render_summary();
    let b = PageIndex::scan(vec![dir("x"), file("z.md"), file("x/y.md")]).render_summary();
    assert_eq!(a, b);
}

#[test]
fn titles_and_indentation() {
    let listing = vec![
        dir("my_dir"),
        dir("my_dir/deeper"),
        file("my_dir/deeper/long_page_name.md"),
    ];
    let text = PageIndex::scan(listing).render_summary();
    let expected = format!(
        "{}- [my dir](my_dir/README.md)\n  - [deeper](my_dir/deeper/README.md)\n    - [long page name](my_dir/deeper/long_page_name.md)\n",
        SUMMARY_HEAD
    );
    assert_eq!(text, expected);
}

#[test]
fn empty_tree_has_only_the_head() {
    let tree = PageIndex::scan(Vec::new());
    assert!(tree.nodes.is_empty());
    assert_eq!(tree.render_summary(), SUMMARY_HEAD);
}

fn shape(t: &WikiTree) -> String {
    match t {
        WikiTree::File(p) => p.clone(),
        WikiTree::Directory(p, kids) => {
            let inner: Vec<String> = kids.iter().map(shape).collect();
            format!("{}[{}]", p, inner.join(","))
        }
    }
}

#[test]
fn nested_tree_owns_its_children() {
    let listing = vec![file("c.md"), file("a/b.md"), dir("a"), file("a/a.md"), dir("a/d"), file("a/d/e.md")];
    let tree = PageIndex::scan(listing).tree();
    assert_eq!(tree.path(), "");
    assert_eq!(shape(&tree), "[a[a/a.md,a/b.md,a/d[a/d/e.md]],c.md]");
    match &tree {
        WikiTree::Directory(_, kids) => {
            assert_eq!(kids[0].path(), "a");
            assert_eq!(kids[1].path(), "c.md");
        }
        WikiTree::File(_) => panic!("the root is a directory"),
    }
}

#[test]
fn nested_tree_of_empty_index_is_bare_root() {
    let tree = PageIndex::scan(Vec::new()).tree();
    assert_eq!(shape(&tree), "[]");
}
