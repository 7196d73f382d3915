use vstd::prelude::*;

use crate::path::{
    file_name, first_component, first_name, has_md_extension, has_page_extension, is_assets_dir,
    is_reserved, is_reserved_name, last_component, str_eq,
};

verus! {

/// A file or directory of the content tree, by its path relative to the
/// content root ('/'-separated).
#[derive(Debug)]
pub struct TreeNode {
    pub path: String,
    pub is_dir: bool,
}

/// The page tree of the wiki as its nodes in depth-first pre-order: each
/// directory comes right before its contents, and siblings come in byte-wise
/// order of their names. The root itself is not among the nodes.
#[derive(Debug)]
pub struct PageIndex {
    pub nodes: Vec<TreeNode>,
}

/// The page tree as nested nodes: a page, or a directory that owns its
/// children. Paths are relative to the content root; the root is the
/// directory with the empty path.
#[derive(Debug)]
pub enum WikiTree {
    File(String),
    Directory(String, Vec<WikiTree>),
}

/// The rank of a character in the path order: the separator comes first,
/// then every other character by its code point.
pub open spec fn char_rank(c: char) -> int {
    if c == '/' {
        0
    } else {
        c as int + 1
    }
}

/// The order of paths component by component: a directory comes before
/// everything under it, and sibling names compare byte-wise.
pub open spec fn path_lt(a: Seq<char>, b: Seq<char>) -> bool
    decreases a.len(),
{
    if a.len() == 0 {
        b.len() > 0
    } else if b.len() == 0 {
        false
    } else if a[0] != b[0] {
        char_rank(a[0]) < char_rank(b[0])
    } else {
        path_lt(a.drop_first(), b.drop_first())
    }
}

/// A node that belongs to the page tree: any directory outside the assets
/// directory; a markdown file that is not a directory's index file and not
/// reserved.
pub open spec fn is_page_node(n: TreeNode) -> bool {
    if n.is_dir {
        !is_assets_dir(first_component(n.path@))
    } else {
        has_md_extension(last_component(n.path@)) && last_component(n.path@) != "README.md"@
            && !is_reserved(n.path@)
    }
}

/// `s` with `x` placed before the first node that follows it in path order.
pub open spec fn insert_sorted(x: TreeNode, s: Seq<TreeNode>) -> Seq<TreeNode>
    decreases s.len(),
{
    if s.len() == 0 {
        seq![x]
    } else if path_lt(x.path@, s[0].path@) {
        seq![x] + s
    } else {
        seq![s[0]] + insert_sorted(x, s.drop_first())
    }
}

/// The page nodes of a listing, in path order.
pub open spec fn page_index(s: Seq<TreeNode>) -> Seq<TreeNode>
    decreases s.len(),
{
    if s.len() == 0 {
        Seq::<TreeNode>::empty()
    } else if is_page_node(s[0]) {
        insert_sorted(s[0], page_index(s.drop_first()))
    } else {
        page_index(s.drop_first())
    }
}

pub open spec fn is_sorted(s: Seq<TreeNode>) -> bool {
    forall|i: int, j: int| 0 <= i < j < s.len() ==> !path_lt(s[j].path@, s[i].path@)
}

impl PageIndex {
    pub open spec fn wf(&self) -> bool {
        &&& is_sorted(self.nodes@)
        &&& forall|i: int| 0 <= i < self.nodes@.len() ==> is_page_node(#[trigger] self.nodes@[i])
    }
}

fn char_rank_exec(c: char) -> (r: u32)
    ensures
        r == char_rank(c),
{
    if c == '/' {
        0
    } else {
        c as u32 + 1
    }
}

/// Whether path `a` comes before path `b` in the tree order.
pub fn path_before(a: &str, b: &str) -> (r: bool)
    ensures
        r == path_lt(a@, b@),
{
    let na = a.unicode_len();
    let nb = b.unicode_len();
    let mut i: usize = 0;
    assert(a@.subrange(0, na as int) =~= a@);
    assert(b@.subrange(0, nb as int) =~= b@);
    while i < na && i < nb
        invariant
            na == a@.len(),
            nb == b@.len(),
            i <= na,
            i <= nb,
            path_lt(a@, b@) == path_lt(a@.subrange(i as int, na as int), b@.subrange(i as int, nb as int)),
        decreases na - i,
    {
        let ca = a.get_char(i);
        let cb = b.get_char(i);
        let ghost ra = a@.subrange(i as int, na as int);
        let ghost rb = b@.subrange(i as int, nb as int);
        assert(ra[0] == ca && rb[0] == cb);
        if ca != cb {
            return char_rank_exec(ca) < char_rank_exec(cb);
        }
        assert(ra.drop_first() =~= a@.subrange(i + 1, na as int));
        assert(rb.drop_first() =~= b@.subrange(i + 1, nb as int));
        i = i + 1;
    }
    i < nb
}

fn is_page_entry(n: &TreeNode) -> (r: bool)
    ensures
        r == is_page_node(*n),
{
    if n.is_dir {
        let first = first_name(n.path.as_str());
        !str_eq(first.as_str(), "images")
    } else {
        let name = file_name(n.path.as_str());
        has_page_extension(name.as_str()) && !str_eq(name.as_str(), "README.md")
            && !is_reserved_name(n.path.as_str())
    }
}

proof fn lemma_insert_at(x: TreeNode, s: Seq<TreeNode>, j: int)
    requires
        0 <= j <= s.len(),
        forall|k: int| 0 <= k < j ==> !path_lt(x.path@, #[trigger] s[k].path@),
        j == s.len() || path_lt(x.path@, s[j].path@),
    ensures
        insert_sorted(x, s) == s.insert(j, x),
    decreases j,
{
    if j == 0 {
        assert(insert_sorted(x, s) =~= s.insert(j, x));
    } else {
        assert(!path_lt(x.path@, s[0].path@));
        let t = s.drop_first();
        assert forall|k: int| 0 <= k < j - 1 implies !path_lt(x.path@, #[trigger] t[k].path@) by {
            assert(t[k] == s[k + 1]);
        }
        lemma_insert_at(x, t, j - 1);
        assert(insert_sorted(x, s) =~= s.insert(j, x));
    }
}

fn insert_node(out: &mut Vec<TreeNode>, x: TreeNode)
    ensures
        final(out)@ == insert_sorted(x, old(out)@),
{
    let mut j: usize = 0;
    while j < out.len() && !path_before(x.path.as_str(), out[j].path.as_str())
        invariant
            j <= out@.len(),
            forall|k: int| 0 <= k < j ==> !path_lt(x.path@, #[trigger] out@[k].path@),
        decreases out@.len() - j,
    {
        j = j + 1;
    }
    proof {
        lemma_insert_at(x, out@, j as int);
    }
    out.insert(j, x);
}

impl PageIndex {
    /// The page tree of a listing of the content root, which names every file
    /// and directory under it in any order.
    pub fn scan(listing: Vec<TreeNode>) -> (r: PageIndex)
        ensures
            r.nodes@ == page_index(listing@),
            r.wf(),
    {
        proof {
            lemma_page_index(listing@);
        }
        let ghost all = listing@;
        let n = listing.len();
        let mut rest = listing;
        let mut out: Vec<TreeNode> = Vec::new();
        assert(all.subrange(n as int, n as int) =~= Seq::<TreeNode>::empty());
        while rest.len() > 0
            invariant
                n == all.len(),
                rest@.len() <= n,
                rest@ == all.subrange(0, rest@.len() as int),
                out@ == page_index(all.subrange(rest@.len() as int, n as int)),
            decreases rest@.len(),
        {
            let k = rest.len();
            let x = rest.pop().unwrap();
            let ghost tail = all.subrange(k as int, n as int);
            let ghost tail1 = all.subrange(k - 1, n as int);
            assert(tail1.drop_first() =~= tail);
            assert(tail1[0] == x);
            if is_page_entry(&x) {
                insert_node(&mut out, x);
            }
        }
        assert(all.subrange(0, n as int) =~= all);
        PageIndex { nodes: out }
    }
}

proof fn lemma_path_lt_irreflexive(a: Seq<char>)
    ensures
        !path_lt(a, a),
    decreases a.len(),
{
    if a.len() > 0 {
        lemma_path_lt_irreflexive(a.drop_first());
    }
}

proof fn lemma_path_lt_transitive(a: Seq<char>, b: Seq<char>, c: Seq<char>)
    requires
        path_lt(a, b),
        path_lt(b, c),
    ensures
        path_lt(a, c),
    decreases a.len(),
{
    if a.len() > 0 && a[0] == b[0] && b[0] == c[0] {
        lemma_path_lt_transitive(a.drop_first(), b.drop_first(), c.drop_first());
    }
}

proof fn lemma_insert_sorted(x: TreeNode, s: Seq<TreeNode>)
    requires
        is_sorted(s),
    ensures
        is_sorted(insert_sorted(x, s)),
        insert_sorted(x, s).len() == s.len() + 1,
        forall|i: int|
            0 <= i < insert_sorted(x, s).len() ==> #[trigger] insert_sorted(x, s)[i] == x
                || s.contains(insert_sorted(x, s)[i]),
    decreases s.len(),
{
    let r = insert_sorted(x, s);
    if s.len() == 0 {
    } else if path_lt(x.path@, s[0].path@) {
        assert forall|i: int, j: int| 0 <= i < j < r.len() implies !path_lt(
            r[j].path@,
            r[i].path@,
        ) by {
            if i == 0 {
                if path_lt(s[j - 1].path@, x.path@) {
                    lemma_path_lt_transitive(s[j - 1].path@, x.path@, s[0].path@);
                    if j - 1 == 0 {
                        lemma_path_lt_irreflexive(s[0].path@);
                    }
                }
            }
        }
        assert forall|i: int| 0 <= i < r.len() implies #[trigger] r[i] == x || s.contains(r[i]) by {
            if i > 0 {
                assert(r[i] == s[i - 1]);
            }
        }
    } else {
        let t = s.drop_first();
        assert(is_sorted(t)) by {
            assert forall|i: int, j: int| 0 <= i < j < t.len() implies !path_lt(
                t[j].path@,
                t[i].path@,
            ) by {
                assert(t[i] == s[i + 1] && t[j] == s[j + 1]);
            }
        }
        lemma_insert_sorted(x, t);
        let u = insert_sorted(x, t);
        assert forall|i: int| 0 <= i < r.len() implies #[trigger] r[i] == x || s.contains(r[i]) by {
            if i > 0 {
                assert(r[i] == u[i - 1]);
                if u[i - 1] != x {
                    let k = choose|k: int| 0 <= k < t.len() && t[k] == u[i - 1];
                    assert(s[k + 1] == r[i]);
                }
            } else {
                assert(s[0] == r[0]);
            }
        }
        assert forall|i: int, j: int| 0 <= i < j < r.len() implies !path_lt(
            r[j].path@,
            r[i].path@,
        ) by {
            if i == 0 {
                assert(r[j] == u[j - 1]);
                if u[j - 1] != x {
                    let k = choose|k: int| 0 <= k < t.len() && t[k] == u[j - 1];
                    assert(s[k + 1] == r[j]);
                }
            } else {
                assert(r[j] == u[j - 1] && r[i] == u[i - 1]);
            }
        }
    }
}

/// The page index is sorted, and holds only page nodes taken from the listing.
pub proof fn lemma_page_index(s: Seq<TreeNode>)
    ensures
        is_sorted(page_index(s)),
        forall|i: int|
            0 <= i < page_index(s).len() ==> is_page_node(#[trigger] page_index(s)[i])
                && s.contains(page_index(s)[i]),
    decreases s.len(),
{
    if s.len() > 0 {
        let t = s.drop_first();
        lemma_page_index(t);
        let p = page_index(t);
        if is_page_node(s[0]) {
            lemma_insert_sorted(s[0], p);
            let r = page_index(s);
            assert forall|i: int| 0 <= i < r.len() implies is_page_node(#[trigger] r[i])
                && s.contains(r[i]) by {
                if r[i] == s[0] {
                    assert(s[0] == r[i]);
                } else {
                    let k = choose|k: int| 0 <= k < p.len() && p[k] == r[i];
                    let m = choose|m: int| 0 <= m < t.len() && t[m] == p[k];
                    assert(s[m + 1] == r[i]);
                }
            }
        } else {
            let r = page_index(s);
            assert forall|i: int| 0 <= i < r.len() implies is_page_node(#[trigger] r[i])
                && s.contains(r[i]) by {
                let m = choose|m: int| 0 <= m < t.len() && t[m] == r[i];
                assert(s[m + 1] == r[i]);
            }
        }
    }
}

/// Nothing under the assets directory is kept in the page tree, whatever its
/// extension, so the navigation document has no entry for it.
pub proof fn lemma_assets_never_listed(listing: Seq<TreeNode>, n: TreeNode)
    requires
        is_assets_dir(first_component(n.path@)),
    ensures
        !page_index(listing).contains(n),
        forall|i: int|
            0 <= i < page_index(listing).len() ==> !is_assets_dir(
                first_component(#[trigger] page_index(listing)[i].path@),
            ),
{
    lemma_page_index(listing);
    if page_index(listing).contains(n) {
        let i = choose|i: int| 0 <= i < page_index(listing).len() && page_index(listing)[i] == n;
        assert(is_page_node(page_index(listing)[i]));
    }
}

/// How many times `x` occurs in `s`.
pub open spec fn occurrences(s: Seq<TreeNode>, x: TreeNode) -> nat
    decreases s.len(),
{
    if s.len() == 0 {
        0
    } else {
        occurrences(s.drop_first(), x) + if s[0] == x {
            1nat
        } else {
            0nat
        }
    }
}

/// Entries of `s` with the same path are the same entry.
pub open spec fn path_determines_entry(s: Seq<TreeNode>) -> bool {
    forall|i: int, j: int|
        0 <= i < s.len() && 0 <= j < s.len() && s[i].path@ == s[j].path@ ==> s[i] == s[j]
}

proof fn lemma_occurrences_positive(s: Seq<TreeNode>, x: TreeNode)
    ensures
        occurrences(s, x) > 0 <==> s.contains(x),
    decreases s.len(),
{
    if s.len() > 0 {
        let t = s.drop_first();
        lemma_occurrences_positive(t, x);
        if t.contains(x) {
            let k = choose|k: int| 0 <= k < t.len() && t[k] == x;
            assert(s[k + 1] == x);
        }
        if s.contains(x) && s[0] != x {
            let k = choose|k: int| 0 <= k < s.len() && s[k] == x;
            assert(t[k - 1] == x);
        }
    }
}

proof fn lemma_occurrences_insert(y: TreeNode, s: Seq<TreeNode>, x: TreeNode)
    ensures
        occurrences(insert_sorted(y, s), x) == occurrences(s, x) + if x == y {
            1nat
        } else {
            0nat
        },
    decreases s.len(),
{
    let r = insert_sorted(y, s);
    if s.len() == 0 {
        assert(r.drop_first() =~= Seq::<TreeNode>::empty());
        assert(r[0] == y);
        assert(occurrences(r.drop_first(), x) == 0);
    } else if path_lt(y.path@, s[0].path@) {
        assert(r.drop_first() =~= s);
        assert(r[0] == y);
    } else {
        lemma_occurrences_insert(y, s.drop_first(), x);
        assert(r.drop_first() =~= insert_sorted(y, s.drop_first()));
        assert(r[0] == s[0]);
        assert(occurrences(s, x) == occurrences(s.drop_first(), x) + if s[0] == x {
            1nat
        } else {
            0nat
        });
    }
}

/// The page index keeps every page node of the listing, as often as the
/// listing names it, and nothing else.
pub proof fn lemma_occurrences_page_index(s: Seq<TreeNode>, x: TreeNode)
    ensures
        occurrences(page_index(s), x) == if is_page_node(x) {
            occurrences(s, x)
        } else {
            0
        },
    decreases s.len(),
{
    if s.len() > 0 {
        lemma_occurrences_page_index(s.drop_first(), x);
        if is_page_node(s[0]) {
            lemma_occurrences_insert(s[0], page_index(s.drop_first()), x);
        }
    }
}

proof fn lemma_char_cast_injective(x: char, y: char)
    requires
        x != y,
    ensures
        x as int != y as int,
{
}

proof fn lemma_char_cast_nonnegative(x: char)
    ensures
        x as int >= 0,
{
}

proof fn lemma_path_lt_total(a: Seq<char>, b: Seq<char>)
    requires
        a != b,
    ensures
        path_lt(a, b) || path_lt(b, a),
    decreases a.len(),
{
    if a.len() > 0 && b.len() > 0 && a[0] == b[0] {
        if a.drop_first() == b.drop_first() {
            assert(a =~= seq![a[0]] + a.drop_first());
            assert(b =~= seq![b[0]] + b.drop_first());
        }
        lemma_path_lt_total(a.drop_first(), b.drop_first());
    } else if a.len() == 0 && b.len() == 0 {
        assert(a =~= b);
    } else if a.len() > 0 && b.len() > 0 {
        let (x, y) = (a[0], b[0]);
        if x != '/' && y != '/' {
            lemma_char_cast_injective(x, y);
            assert(char_rank(x) != char_rank(y));
        } else if x == '/' {
            lemma_char_cast_nonnegative(y);
            assert(char_rank(x) < char_rank(y));
            assert(path_lt(a, b));
        } else {
            lemma_char_cast_nonnegative(x);
            assert(char_rank(y) < char_rank(x));
            assert(path_lt(b, a));
        }
    }
}

proof fn lemma_sorted_unique(s1: Seq<TreeNode>, s2: Seq<TreeNode>)
    requires
        is_sorted(s1),
        is_sorted(s2),
        forall|x: TreeNode| occurrences(s1, x) == occurrences(s2, x),
        path_determines_entry(s1),
    ensures
        s1 == s2,
    decreases s1.len(),
{
    if s2.len() > 0 {
        lemma_occurrences_positive(s2, s2[0]);
        lemma_occurrences_positive(s1, s2[0]);
        assert(s2.contains(s2[0]));
    }
    if s1.len() > 0 {
        lemma_occurrences_positive(s1, s1[0]);
        lemma_occurrences_positive(s2, s1[0]);
        assert(s1.contains(s1[0]));
    }
    if s1.len() == 0 {
        assert(s1 =~= s2);
    } else {
        let a = s1[0];
        let b = s2[0];
        let i = choose|i: int| 0 <= i < s1.len() && s1[i] == b;
        let j = choose|j: int| 0 <= j < s2.len() && s2[j] == a;
        if a != b {
            assert(i != 0 && j != 0);
            assert(!path_lt(b.path@, a.path@));
            assert(!path_lt(a.path@, b.path@));
            if a.path@ == b.path@ {
                assert(s1[0] == s1[i]);
            } else {
                lemma_path_lt_total(a.path@, b.path@);
            }
        }
        let t1 = s1.drop_first();
        let t2 = s2.drop_first();
        assert forall|x: TreeNode| occurrences(t1, x) == occurrences(t2, x) by {
            assert(occurrences(s1, x) == occurrences(s2, x));
        }
        assert(is_sorted(t1)) by {
            assert forall|p: int, q: int| 0 <= p < q < t1.len() implies !path_lt(
                t1[q].path@,
                t1[p].path@,
            ) by {
                assert(t1[p] == s1[p + 1] && t1[q] == s1[q + 1]);
            }
        }
        assert(is_sorted(t2)) by {
            assert forall|p: int, q: int| 0 <= p < q < t2.len() implies !path_lt(
                t2[q].path@,
                t2[p].path@,
            ) by {
                assert(t2[p] == s2[p + 1] && t2[q] == s2[q + 1]);
            }
        }
        assert(path_determines_entry(t1)) by {
            assert forall|p: int, q: int|
                0 <= p < t1.len() && 0 <= q < t1.len() && t1[p].path@ == t1[q].path@ implies t1[p]
                == t1[q] by {
                assert(t1[p] == s1[p + 1] && t1[q] == s1[q + 1]);
            }
        }
        lemma_sorted_unique(t1, t2);
        assert(s1 =~= seq![a] + t1);
        assert(s2 =~= seq![b] + t2);
    }
}

/// The page index does not depend on the order in which the file system
/// lists entries: two listings of the same entries, where entries with the
/// same path are the same entry, give the same page index.
pub proof fn lemma_index_order_independent(l1: Seq<TreeNode>, l2: Seq<TreeNode>)
    requires
        forall|x: TreeNode| occurrences(l1, x) == occurrences(l2, x),
        path_determines_entry(l1),
    ensures
        page_index(l1) == page_index(l2),
{
    let first = page_index(l1);
    let second = page_index(l2);
    lemma_page_index(l1);
    lemma_page_index(l2);
    assert forall|x: TreeNode| occurrences(first, x) == occurrences(second, x) by {
        lemma_occurrences_page_index(l1, x);
        lemma_occurrences_page_index(l2, x);
        assert(occurrences(l1, x) == occurrences(l2, x));
    }
    assert(path_determines_entry(first)) by {
        assert forall|i: int, j: int|
            0 <= i < first.len() && 0 <= j < first.len() && first[i].path@ == first[j].path@ implies first[i]
            == first[j] by {
            assert(l1.contains(first[i]) && l1.contains(first[j]));
            let a = choose|a: int| 0 <= a < l1.len() && l1[a] == first[i];
            let b = choose|b: int| 0 <= b < l1.len() && l1[b] == first[j];
            assert(l1[a].path@ == l1[b].path@);
        }
    }
    lemma_sorted_unique(first, second);
}

/// A node as its path and whether it is a directory.
pub open spec fn node_view(n: TreeNode) -> (Seq<char>, bool) {
    (n.path@, n.is_dir)
}

pub open spec fn node_views(s: Seq<TreeNode>) -> Seq<(Seq<char>, bool)> {
    s.map_values(|n: TreeNode| node_view(n))
}

/// The nodes of a tree in depth-first pre-order.
pub open spec fn flatten(t: WikiTree) -> Seq<(Seq<char>, bool)>
    decreases t,
{
    match t {
        WikiTree::File(p) => seq![(p@, false)],
        WikiTree::Directory(p, kids) => seq![(p@, true)] + flatten_all(kids@),
    }
}

/// The nodes of a sequence of trees, one tree after the other.
pub open spec fn flatten_all(kids: Seq<WikiTree>) -> Seq<(Seq<char>, bool)>
    decreases kids,
{
    if kids.len() == 0 {
        Seq::empty()
    } else {
        flatten_all(kids.drop_last()) + flatten(kids.last())
    }
}

/// `p` lies inside the directory `d`; everything lies inside the root.
pub open spec fn is_inside(p: Seq<char>, d: Seq<char>) -> bool {
    d.len() == 0 || (p.len() > d.len() && p.subrange(0, d.len() as int) == d && p[d.len() as int]
        == '/')
}

/// The nesting of a tree: every child lies inside its directory, and no
/// directory is followed among its siblings by a node that lies inside it,
/// so each directory holds all the nodes after it, in pre-order, that lie
/// inside it.
pub open spec fn is_nested(t: WikiTree) -> bool
    decreases t,
{
    match t {
        WikiTree::File(_) => true,
        WikiTree::Directory(p, kids) => all_nested(kids@, p@),
    }
}

/// The nesting of the children `kids` of the directory `d`.
pub open spec fn all_nested(kids: Seq<WikiTree>, d: Seq<char>) -> bool
    decreases kids,
{
    if kids.len() == 0 {
        true
    } else {
        &&& all_nested(kids.drop_last(), d)
        &&& is_inside(kids.last().path_view(), d)
        &&& is_nested(kids.last())
        &&& (kids.len() >= 2 && kids[kids.len() - 2] is Directory) ==> !is_inside(
            kids.last().path_view(),
            kids[kids.len() - 2].path_view(),
        )
    }
}

impl WikiTree {
    pub open spec fn path_view(&self) -> Seq<char> {
        match self {
            WikiTree::File(p) => p@,
            WikiTree::Directory(p, _) => p@,
        }
    }

    pub fn path(&self) -> (r: &String)
        ensures
            r@ == self.path_view(),
    {
        match self {
            WikiTree::File(path) => path,
            WikiTree::Directory(path, _) => path,
        }
    }
}

fn inside(p: &str, d: &str) -> (r: bool)
    ensures
        r == is_inside(p@, d@),
{
    let nd = d.unicode_len();
    if nd == 0 {
        return true;
    }
    let np = p.unicode_len();
    if np <= nd {
        return false;
    }
    let mut i: usize = 0;
    while i < nd
        invariant
            nd == d@.len(),
            np == p@.len(),
            nd < np,
            i <= nd,
            p@.subrange(0, i as int) == d@.subrange(0, i as int),
        decreases nd - i,
    {
        if p.get_char(i) != d.get_char(i) {
            assert(p@.subrange(0, nd as int)[i as int] != d@[i as int]);
            return false;
        }
        assert(p@.subrange(0, i + 1) =~= p@.subrange(0, i as int).push(p@[i as int]));
        assert(d@.subrange(0, i + 1) =~= d@.subrange(0, i as int).push(d@[i as int]));
        i = i + 1;
    }
    assert(d@.subrange(0, nd as int) =~= d@);
    p.get_char(nd) == '/'
}

/// The trees of the nodes from `start` on that lie inside `dir`, up to the
/// first node that does not, and where that node is.
fn children_from(nodes: &Vec<TreeNode>, start: usize, dir: &str) -> (r: (Vec<WikiTree>, usize))
    requires
        start <= nodes@.len(),
    ensures
        start <= r.1 <= nodes@.len(),
        flatten_all(r.0@) == node_views(nodes@.subrange(start as int, r.1 as int)),
        dir@.len() == 0 ==> r.1 == nodes@.len(),
        r.1 < nodes@.len() ==> !is_inside(nodes@[r.1 as int].path@, dir@),
        all_nested(r.0@, dir@),
    decreases nodes@.len() - start,
{
    let mut kids: Vec<WikiTree> = Vec::new();
    let mut i: usize = start;
    assert(node_views(nodes@.subrange(start as int, start as int)) =~= Seq::empty());
    while i < nodes.len() && inside(nodes[i].path.as_str(), dir)
        invariant
            start <= i <= nodes@.len(),
            flatten_all(kids@) == node_views(nodes@.subrange(start as int, i as int)),
            all_nested(kids@, dir@),
            (kids@.len() > 0 && kids@.last() is Directory && i < nodes@.len()) ==> !is_inside(
                nodes@[i as int].path@,
                kids@.last().path_view(),
            ),
        decreases nodes@.len() - i,
    {
        let n = &nodes[i];
        let path = String::from_str(n.path.as_str());
        let (node, next) = if n.is_dir {
            let (sub, j) = children_from(nodes, i + 1, n.path.as_str());
            assert(node_views(nodes@.subrange(i as int, j as int)) =~= seq![node_view(*n)]
                + node_views(nodes@.subrange(i + 1, j as int)));
            let node = WikiTree::Directory(path, sub);
            assert(flatten(node) == node_views(nodes@.subrange(i as int, j as int)));
            (node, j)
        } else {
            assert(node_views(nodes@.subrange(i as int, i + 1)) =~= seq![node_view(*n)]);
            let node = WikiTree::File(path);
            assert(flatten(node) == node_views(nodes@.subrange(i as int, i + 1)));
            (node, i + 1)
        };
        let ghost before = kids@;
        kids.push(node);
        assert(kids@.drop_last() =~= before);
        assert(kids@.last() == node);
        assert(flatten_all(kids@) == flatten_all(before) + flatten(node));
        assert(node_views(nodes@.subrange(start as int, next as int)) =~= node_views(
            nodes@.subrange(start as int, i as int),
        ) + node_views(nodes@.subrange(i as int, next as int)));
        assert(kids@.len() >= 2 ==> kids@[kids@.len() - 2] == before.last());
        assert(is_nested(node));
        assert(node.path_view() == n.path@);
        assert(all_nested(kids@, dir@));
        i = next;
    }
    (kids, i)
}

impl PageIndex {
    /// The nested tree of this index, rooted at the content root: its nodes
    /// in pre-order are the root and then the index's nodes, and each
    /// directory holds the nodes that follow it and lie inside it.
    pub fn tree(&self) -> (r: WikiTree)
        ensures
            flatten(r) == seq![(Seq::<char>::empty(), true)] + node_views(self.nodes@),
            is_nested(r),
    {
        let (kids, end) = children_from(&self.nodes, 0, "");
        proof {
            reveal_strlit("");
        }
        assert(self.nodes@.subrange(0, end as int) =~= self.nodes@);
        assert(""@ =~= Seq::<char>::empty());
        let root = WikiTree::Directory(String::new(), kids);
        assert(root.path_view() =~= Seq::<char>::empty());
        assert(is_nested(root));
        root
    }
}


/// The listing without its entries in the assets directory.
pub open spec fn without_assets(s: Seq<TreeNode>) -> Seq<TreeNode>
    decreases s.len(),
{
    if s.len() == 0 {
        s
    } else if is_assets_dir(first_component(s[0].path@)) {
        without_assets(s.drop_first())
    } else {
        seq![s[0]] + without_assets(s.drop_first())
    }
}

/// Entries in the assets directory make no difference to the page index:
/// it is the same as that of the listing without them.
pub proof fn lemma_page_index_without_assets(s: Seq<TreeNode>)
    ensures
        page_index(s) == page_index(without_assets(s)),
    decreases s.len(),
{
    if s.len() > 0 {
        let rest = s.drop_first();
        lemma_page_index_without_assets(rest);
        if is_assets_dir(first_component(s[0].path@)) {
            assert(!is_page_node(s[0]));
        } else {
            let w = seq![s[0]] + without_assets(rest);
            assert(w.drop_first() =~= without_assets(rest));
            assert(w[0] == s[0]);
        }
    }
}

} // verus!
