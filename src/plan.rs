use vstd::prelude::*;

use crate::path::{components, path_components, views};

verus! {

/// The components joined with '/'.
pub open spec fn join_path(cs: Seq<Seq<char>>) -> Seq<char>
    decreases cs.len(),
{
    if cs.len() == 0 {
        Seq::<char>::empty()
    } else if cs.len() == 1 {
        cs[0]
    } else {
        join_path(cs.drop_last()) + seq!['/'] + cs.last()
    }
}

/// Number of components of a path.
pub open spec fn n_components(p: Seq<char>) -> int {
    components(p).len() as int
}

/// The index file of the ancestor of `p` made of its first `k` components;
/// `k == 0` is the content root.
pub open spec fn index_path(p: Seq<char>, k: int) -> Seq<char> {
    if k == 0 {
        "README.md"@
    } else {
        join_path(components(p).take(k)) + "/README.md"@
    }
}

/// The placeholder page of that ancestor, titled with its name.
pub open spec fn index_text(p: Seq<char>, k: int) -> Seq<char> {
    if k == 0 {
        "# TODO"@
    } else {
        "# "@ + components(p)[k - 1]
    }
}

/// What a new page at `p` has to look at first: the page itself, then the
/// index file of each directory above it, nearest first.
pub open spec fn probe_paths(p: Seq<char>) -> Seq<Seq<char>> {
    seq![p] + Seq::new(n_components(p) as nat, |i: int| index_path(p, n_components(p) - 1 - i))
}

/// The placeholder index files to write for the first `n` directories above
/// `p` (nearest first), where `exists[i]` tells whether the `i`th path of
/// `probe_paths(p)` is a file.
pub open spec fn missing_indexes(p: Seq<char>, exists: Seq<bool>, n: int) -> Seq<
    (Seq<char>, Seq<char>),
>
    decreases n,
{
    if n <= 0 {
        Seq::empty()
    } else {
        missing_indexes(p, exists, n - 1) + if !exists[n] {
            seq![(index_path(p, n_components(p) - n), index_text(p, n_components(p) - n))]
        } else {
            Seq::empty()
        }
    }
}

/// The files that creating the page `p` with `content` writes, in order: a
/// placeholder index for each directory above it that has none, then the page.
pub open spec fn create_plan(p: Seq<char>, content: Seq<char>, exists: Seq<bool>) -> Seq<
    (Seq<char>, Seq<char>),
> {
    missing_indexes(p, exists, n_components(p)) + seq![(p, content)]
}

/// A file to write, creating the directories above it where missing.
#[derive(Debug)]
pub struct FileWrite {
    pub path: String,
    pub content: String,
}

pub open spec fn write_views(ws: Seq<FileWrite>) -> Seq<(Seq<char>, Seq<char>)> {
    ws.map_values(|w: FileWrite| (w.path@, w.content@))
}

/// `prefixes[k]` is the path of the first `k` components of `p`.
fn ancestor_dirs(parts: &Vec<String>) -> (r: Vec<String>)
    requires
        parts@.len() >= 1,
    ensures
        r@.len() == parts@.len(),
        forall|k: int| 0 <= k < r@.len() ==> (#[trigger] r@[k])@ == join_path(views(parts@).take(k)),
{
    let mut r: Vec<String> = Vec::new();
    r.push(String::new());
    assert(views(parts@).take(0) =~= Seq::<Seq<char>>::empty());
    let mut k: usize = 1;
    while k < parts.len()
        invariant
            1 <= k <= parts@.len(),
            r@.len() == k,
            forall|j: int| 0 <= j < k ==> (#[trigger] r@[j])@ == join_path(views(parts@).take(j)),
        decreases parts@.len() - k,
    {
        let mut next = String::from_str(r[k - 1].as_str());
        if k > 1 {
            next.append("/");
        }
        next.append(parts[k - 1].as_str());
        let ghost cs = views(parts@).take(k as int);
        assert(cs.drop_last() =~= views(parts@).take(k - 1));
        assert(cs.last() == parts@[k - 1]@);
        if k == 1 {
            assert(r@[0]@ =~= Seq::<char>::empty());
            assert(next@ =~= join_path(cs));
        } else {
            proof {
                reveal_strlit("/");
            }
            assert(next@ =~= join_path(cs));
        }
        r.push(next);
        k = k + 1;
    }
    r
}

fn index_file(dirs: &Vec<String>, parts: &Vec<String>, k: usize, p: Ghost<Seq<char>>) -> (r: (
    String,
    String,
))
    requires
        views(parts@) == components(p@),
        dirs@.len() == parts@.len(),
        forall|j: int| 0 <= j < dirs@.len() ==> (#[trigger] dirs@[j])@ == join_path(views(parts@).take(j)),
        k < parts@.len(),
    ensures
        r.0@ == index_path(p@, k as int),
        r.1@ == index_text(p@, k as int),
{
    if k == 0 {
        (String::from_str("README.md"), String::from_str("# TODO"))
    } else {
        let mut path = String::from_str(dirs[k].as_str());
        path.append("/README.md");
        let mut text = String::from_str("# ");
        text.append(parts[k - 1].as_str());
        assert(components(p@)[k - 1] == parts@[k - 1]@);
        (path, text)
    }
}

/// The paths to look at before creating the page `file`.
pub fn create_probes(file: &str) -> (r: Vec<String>)
    ensures
        views(r@) == probe_paths(file@),
{
    let parts = path_components(file);
    let d = parts.len();
    let mut r: Vec<String> = Vec::new();
    r.push(String::from_str(file));
    if d == 0 {
        assert(views(r@) =~= probe_paths(file@));
        return r;
    }
    let dirs = ancestor_dirs(&parts);
    let mut i: usize = 0;
    while i < d
        invariant
            d == parts@.len(),
            d == n_components(file@),
            d >= 1,
            views(parts@) == components(file@),
            dirs@.len() == d,
            forall|j: int| 0 <= j < dirs@.len() ==> (#[trigger] dirs@[j])@ == join_path(views(parts@).take(j)),
            i <= d,
            views(r@) == probe_paths(file@).take(i + 1),
        decreases d - i,
    {
        let (path, _text) = index_file(&dirs, &parts, d - 1 - i, Ghost(file@));
        let ghost prev = r@;
        r.push(path);
        assert(views(r@) =~= views(prev).push(path@));
        assert(probe_paths(file@).take(i + 2) =~= probe_paths(file@).take(i + 1).push(
            index_path(file@, d - 1 - i),
        ));
        i = i + 1;
    }
    assert(probe_paths(file@).take(d + 1) =~= probe_paths(file@));
    r
}

/// The files that creating the page `file` with `content` writes, given for
/// each path of `create_probes(file)` whether it is a file.
pub fn create_writes(file: &str, content: &str, exists: &Vec<bool>) -> (r: Vec<FileWrite>)
    requires
        exists@.len() == n_components(file@) + 1,
    ensures
        write_views(r@) == create_plan(file@, content@, exists@),
{
    let parts = path_components(file);
    let d = parts.len();
    let mut r: Vec<FileWrite> = Vec::new();
    if d == 0 {
        r.push(FileWrite { path: String::from_str(file), content: String::from_str(content) });
        assert(write_views(r@) =~= create_plan(file@, content@, exists@));
        return r;
    }
    let dirs = ancestor_dirs(&parts);
    let m = exists.len();
    let mut n: usize = 1;
    assert(write_views(r@) =~= missing_indexes(file@, exists@, 0));
    while n < m
        invariant
            m == exists@.len(),
            d == parts@.len(),
            d == n_components(file@),
            exists@.len() == d + 1,
            d >= 1,
            views(parts@) == components(file@),
            dirs@.len() == d,
            forall|j: int| 0 <= j < dirs@.len() ==> (#[trigger] dirs@[j])@ == join_path(views(parts@).take(j)),
            1 <= n <= d + 1,
            write_views(r@) == missing_indexes(file@, exists@, n - 1),
        decreases d + 1 - n,
    {
        if !exists[n] {
            let (path, text) = index_file(&dirs, &parts, d - n, Ghost(file@));
            let ghost prev = r@;
            r.push(FileWrite { path, content: text });
            assert(write_views(r@) =~= write_views(prev).push((path@, text@)));
        }
        assert(write_views(r@) =~= missing_indexes(file@, exists@, n as int));
        n = n + 1;
    }
    let ghost prev = r@;
    r.push(FileWrite { path: String::from_str(file), content: String::from_str(content) });
    assert(write_views(r@) =~= write_views(prev).push((file@, content@)));
    r
}

} // verus!
