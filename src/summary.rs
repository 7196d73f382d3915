use vstd::prelude::*;

use crate::path::{
    depth, file_name, has_page_extension, last_component, md_stem, path_components,
    spaces_for_underscores, underscores_to_spaces,
};
use crate::path::{first_component, is_assets_dir};
use crate::tree::{
    lemma_index_order_independent, lemma_page_index_without_assets,
    occurrences, page_index, path_determines_entry, without_assets, PageIndex, TreeNode,
};

verus! {

/// The first lines of the navigation document, before the page entries.
pub const SUMMARY_HEAD: &'static str = "# Summary\n\n[Home](README.md)\n\n";

pub open spec fn spaces(n: nat) -> Seq<char> {
    Seq::new(n, |i: int| ' ')
}

/// The label of a node in the navigation: its name, without the extension
/// for a page, with underscores shown as spaces.
pub open spec fn node_title(n: TreeNode) -> Seq<char> {
    if n.is_dir {
        underscores_to_spaces(last_component(n.path@))
    } else {
        underscores_to_spaces(md_stem(last_component(n.path@)))
    }
}

/// Where a node's entry links to: a page itself, or a directory's index file.
pub open spec fn node_link(n: TreeNode) -> Seq<char> {
    if n.is_dir {
        n.path@ + "/README.md"@
    } else {
        n.path@
    }
}

/// Two spaces per directory above the node.
pub open spec fn indent(p: Seq<char>) -> nat {
    if depth(p) > 0 {
        (2 * (depth(p) - 1)) as nat
    } else {
        0
    }
}

/// The navigation entry of a node, indented by two spaces per directory
/// above it.
pub open spec fn nav_line(n: TreeNode) -> Seq<char> {
    spaces(indent(n.path@)) + "- ["@ + node_title(n) + "]("@ + node_link(n)
        + ")\n"@
}

pub open spec fn nav_lines(s: Seq<TreeNode>) -> Seq<char>
    decreases s.len(),
{
    if s.len() == 0 {
        Seq::<char>::empty()
    } else {
        nav_lines(s.drop_last()) + nav_line(s.last())
    }
}

/// The navigation document of a tree: the fixed head, then one entry per
/// node in order.
pub open spec fn navigation(s: Seq<TreeNode>) -> Seq<char> {
    SUMMARY_HEAD@ + nav_lines(s)
}

fn nav_line_of(n: &TreeNode) -> (r: String)
    ensures
        r@ == nav_line(*n),
{
    let parts = path_components(n.path.as_str());
    let d = if parts.len() > 0 {
        parts.len() - 1
    } else {
        0
    };
    let name_string = file_name(n.path.as_str());
    let name = name_string.as_str();
    let mut r = String::new();
    let mut k: usize = 0;
    assert(r@ =~= spaces(0));
    while k < d
        invariant
            k <= d,
            r@ == spaces((2 * k) as nat),
        decreases d - k,
    {
        let ghost before = r@;
        r.append("  ");
        proof {
            reveal_strlit("  ");
        }
        assert(2 * (k + 1) == 2 * k + 2);
        assert(r@ =~= spaces((2 * (k + 1)) as nat)) by {
            assert(r@ == before + "  "@);
            assert("  "@.len() == 2 && "  "@[0] == ' ' && "  "@[1] == ' ');
        }
        k = k + 1;
    }
    assert(2 * d == indent(n.path@));
    let title = if n.is_dir {
        spaces_for_underscores(name)
    } else if has_page_extension(name) {
        let len = name.unicode_len();
        spaces_for_underscores(name.substring_char(0, len - 3))
    } else {
        spaces_for_underscores(name)
    };
    let mut link = String::from_str(n.path.as_str());
    if n.is_dir {
        link.append("/README.md");
    }
    r.append("- [");
    r.append(title.as_str());
    r.append("](");
    r.append(link.as_str());
    r.append(")\n");
    r
}

impl PageIndex {
    /// The navigation document of this tree.
    pub fn render_summary(&self) -> (r: String)
        ensures
            r@ == navigation(self.nodes@),
    {
        let mut r = String::from_str(SUMMARY_HEAD);
        let mut i: usize = 0;
        assert(self.nodes@.subrange(0, 0) =~= Seq::<TreeNode>::empty());
        while i < self.nodes.len()
            invariant
                i <= self.nodes@.len(),
                r@ == SUMMARY_HEAD@ + nav_lines(self.nodes@.subrange(0, i as int)),
            decreases self.nodes@.len() - i,
        {
            let line = nav_line_of(&self.nodes[i]);
            r.append(line.as_str());
            let ghost next = self.nodes@.subrange(0, i + 1);
            assert(next.drop_last() =~= self.nodes@.subrange(0, i as int));
            assert(r@ =~= SUMMARY_HEAD@ + nav_lines(next));
            i = i + 1;
        }
        assert(self.nodes@.subrange(0, i as int) =~= self.nodes@);
        r
    }
}

/// Rendering does not depend on the order in which the file system lists
/// entries: two listings of the same entries, where entries with the same
/// path are the same entry, give byte-identical navigation documents.
pub proof fn lemma_navigation_order_independent(l1: Seq<TreeNode>, l2: Seq<TreeNode>)
    requires
        forall|x: TreeNode| occurrences(l1, x) == occurrences(l2, x),
        path_determines_entry(l1),
    ensures
        navigation(page_index(l1)) == navigation(page_index(l2)),
{
    lemma_index_order_independent(l1, l2);
}


/// Nothing in the assets directory shows in the navigation document,
/// whatever its extension: the document is the same as for the listing
/// without those entries, and no entry of it is for a node there.
pub proof fn lemma_navigation_ignores_assets(listing: Seq<TreeNode>)
    ensures
        navigation(page_index(listing)) == navigation(page_index(without_assets(listing))),
        forall|i: int|
            0 <= i < page_index(listing).len() ==> !is_assets_dir(
                first_component(#[trigger] page_index(listing)[i].path@),
            ),
{
    lemma_page_index_without_assets(listing);
    assert forall|i: int| 0 <= i < page_index(listing).len() implies !is_assets_dir(
        first_component(#[trigger] page_index(listing)[i].path@),
    ) by {
        crate::tree::lemma_page_index(listing);
    }
}

} // verus!
