use vstd::prelude::*;

verus! {

/// The pieces of `s` between the '/' separators, empty ones included:
/// "a/b.md" has the pieces "a" and "b.md", "" has one empty piece.
pub open spec fn split_path(s: Seq<char>) -> Seq<Seq<char>>
    decreases s.len(),
{
    if s.len() == 0 {
        seq![Seq::<char>::empty()]
    } else {
        let prev = split_path(s.drop_last());
        if s.last() == '/' {
            prev.push(Seq::<char>::empty())
        } else {
            prev.update(prev.len() - 1, prev.last().push(s.last()))
        }
    }
}

proof fn lemma_split_path_nonempty(s: Seq<char>)
    ensures
        split_path(s).len() >= 1,
    decreases s.len(),
{
    if s.len() > 0 {
        lemma_split_path_nonempty(s.drop_last());
    }
}

/// The pieces after the first that name something: neither empty nor ".".
pub open spec fn named_pieces(s: Seq<Seq<char>>) -> Seq<Seq<char>>
    decreases s.len(),
{
    if s.len() == 0 {
        Seq::empty()
    } else if s.last().len() == 0 || s.last() == seq!['.'] {
        named_pieces(s.drop_last())
    } else {
        named_pieces(s.drop_last()).push(s.last())
    }
}

/// The components of a path, as `std::path::Path::components` reads a
/// '/'-separated path: a leading '/' is the root component, written "/"; a
/// leading "." is kept as the current directory; empty pieces and later "."
/// pieces are dropped. "a//b/./c.md/" has the components "a", "b", "c.md".
pub open spec fn components(p: Seq<char>) -> Seq<Seq<char>> {
    let pieces = split_path(p);
    let head = if pieces[0].len() == 0 {
        if p.len() > 0 {
            seq![seq!['/']]
        } else {
            Seq::<Seq<char>>::empty()
        }
    } else {
        seq![pieces[0]]
    };
    head + named_pieces(pieces.drop_first())
}

/// A component that names a file or directory: not the root, not "." and
/// not "..".
pub open spec fn is_plain_name(c: Seq<char>) -> bool {
    c.len() > 0 && c != seq!['.'] && c != seq!['.', '.'] && c != seq!['/']
}

/// Every component of the path is a plain name: no root, no parent and no
/// leading current-directory component.
pub open spec fn is_simple(p: Seq<char>) -> bool {
    forall|i: int| 0 <= i < components(p).len() ==> is_plain_name(#[trigger] components(p)[i])
}

/// The first component, or nothing for a path without components.
pub open spec fn first_component(p: Seq<char>) -> Seq<char> {
    if components(p).len() > 0 {
        components(p)[0]
    } else {
        Seq::empty()
    }
}

/// The last component, or nothing for a path without components.
pub open spec fn last_component(p: Seq<char>) -> Seq<char> {
    if components(p).len() > 0 {
        components(p).last()
    } else {
        Seq::empty()
    }
}

/// Number of components: "a/b.md" has depth 2.
pub open spec fn depth(p: Seq<char>) -> int {
    components(p).len() as int
}

/// A file name with a non-empty stem and the extension "md".
pub open spec fn has_md_extension(name: Seq<char>) -> bool {
    name.len() > 3 && name.subrange(name.len() - 3, name.len() as int) == seq!['.', 'm', 'd']
}

/// The name without its ".md" extension, where it has one.
pub open spec fn md_stem(name: Seq<char>) -> Seq<char> {
    if has_md_extension(name) {
        name.subrange(0, name.len() - 3)
    } else {
        name
    }
}

/// Generated files that no page may be: the navigation document and the
/// rendered site's index.
pub open spec fn is_reserved_file_name(name: Seq<char>) -> bool {
    name == "SUMMARY.md"@ || name == "index.md"@
}

/// Top-level names taken by the web application's own routes and by the
/// uploaded-images directory.
pub open spec fn is_reserved_prefix(name: Seq<char>) -> bool {
    name == "edit"@ || name == "upload"@ || name == "images"@
}

/// The directory of uploaded binary assets, kept out of the page tree.
pub open spec fn is_assets_dir(name: Seq<char>) -> bool {
    name == "images"@
}

pub open spec fn is_reserved(p: Seq<char>) -> bool {
    is_reserved_file_name(last_component(p)) || is_reserved_prefix(first_component(p))
}

/// Replaces every underscore by a space.
pub open spec fn underscores_to_spaces(s: Seq<char>) -> Seq<char> {
    s.map_values(|c: char|
        if c == '_' {
            ' '
        } else {
            c
        })
}

pub open spec fn views(v: Seq<String>) -> Seq<Seq<char>> {
    v.map_values(|c: String| c@)
}

pub fn str_eq(a: &str, b: &str) -> (r: bool)
    ensures
        r == (a@ == b@),
{
    let n = a.unicode_len();
    if n != b.unicode_len() {
        return false;
    }
    let mut i: usize = 0;
    while i < n
        invariant
            n == a@.len(),
            n == b@.len(),
            i <= n,
            a@.subrange(0, i as int) == b@.subrange(0, i as int),
        decreases n - i,
    {
        if a.get_char(i) != b.get_char(i) {
            return false;
        }
        assert(a@.subrange(0, i + 1) == a@.subrange(0, i as int).push(a@[i as int]));
        assert(b@.subrange(0, i + 1) == b@.subrange(0, i as int).push(b@[i as int]));
        i = i + 1;
    }
    assert(a@ == a@.subrange(0, n as int));
    assert(b@ == b@.subrange(0, n as int));
    true
}

/// Splits a path at each '/', keeping empty pieces.
fn path_pieces(p: &str) -> (r: Vec<String>)
    ensures
        views(r@) == split_path(p@),
{
    let n = p.unicode_len();
    let mut parts: Vec<String> = Vec::new();
    let mut start: usize = 0;
    let mut i: usize = 0;
    assert(p@.subrange(0, 0) =~= Seq::<char>::empty());
    assert(views(parts@).push(p@.subrange(0, 0)) =~= split_path(p@.subrange(0, 0)));
    while i < n
        invariant
            n == p@.len(),
            start <= i <= n,
            views(parts@).push(p@.subrange(start as int, i as int)) == split_path(
                p@.subrange(0, i as int),
            ),
        decreases n - i,
    {
        let c = p.get_char(i);
        let ghost before = p@.subrange(0, i as int);
        let ghost after = p@.subrange(0, i + 1);
        assert(after.drop_last() =~= before);
        assert(after.last() == c);
        if c == '/' {
            let part = String::from_str(p.substring_char(start, i));
            let ghost prev = parts@;
            parts.push(part);
            assert(views(parts@) =~= views(prev).push(part@)) by {
                assert(parts@ =~= prev.push(part));
            }
            start = i + 1;
            assert(p@.subrange(start as int, i + 1) =~= Seq::<char>::empty());
            assert(views(parts@).push(p@.subrange(start as int, i + 1)) =~= split_path(after));
        } else {
            assert(p@.subrange(start as int, i + 1) =~= p@.subrange(start as int, i as int).push(c));
            assert(views(parts@).push(p@.subrange(start as int, i + 1)) =~= split_path(after));
        }
        i = i + 1;
    }
    let last = String::from_str(p.substring_char(start, n));
    let ghost prev = parts@;
    parts.push(last);
    assert(views(parts@) =~= views(prev).push(last@)) by {
        assert(parts@ =~= prev.push(last));
    }
    assert(p@.subrange(0, n as int) =~= p@);
    parts
}

fn is_dot(c: &str) -> (r: bool)
    ensures
        r == (c@ == seq!['.']),
{
    if c.unicode_len() == 1 && c.get_char(0) == '.' {
        assert(c@ =~= seq!['.']);
        true
    } else {
        assert(c@ != seq!['.']) by {
            if c@ == seq!['.'] {
                assert(c@[0] == '.');
            }
        }
        false
    }
}

/// Splits a path into its components.
pub fn path_components(p: &str) -> (r: Vec<String>)
    ensures
        views(r@) == components(p@),
{
    let pieces = path_pieces(p);
    proof {
        lemma_split_path_nonempty(p@);
    }
    let ghost ps = views(pieces@);
    let mut r: Vec<String> = Vec::new();
    if pieces[0].unicode_len() == 0 {
        if p.unicode_len() > 0 {
            proof {
                reveal_strlit("/");
            }
            let root = String::from_str("/");
            assert(root@ =~= seq!['/']);
            r.push(root);
            assert(views(r@) =~= seq![seq!['/']]);
        } else {
            assert(views(r@) =~= Seq::<Seq<char>>::empty());
        }
    } else {
        r.push(String::from_str(pieces[0].as_str()));
        assert(views(r@) =~= seq![ps[0]]);
    }
    let ghost head = views(r@);
    assert(ps.subrange(1, 1) =~= Seq::<Seq<char>>::empty());
    assert(views(r@) =~= head + named_pieces(ps.subrange(1, 1)));
    let mut i: usize = 1;
    while i < pieces.len()
        invariant
            ps == views(pieces@),
            ps == split_path(p@),
            1 <= i <= pieces@.len(),
            views(r@) == head + named_pieces(ps.subrange(1, i as int)),
        decreases pieces@.len() - i,
    {
        let piece = pieces[i].as_str();
        let ghost sub = ps.subrange(1, i + 1);
        assert(sub.drop_last() =~= ps.subrange(1, i as int));
        assert(sub.last() == piece@);
        if piece.unicode_len() != 0 && !is_dot(piece) {
            let ghost before = r@;
            r.push(String::from_str(piece));
            assert(views(r@) =~= views(before).push(piece@)) by {
                assert(r@ =~= before.push(r@.last()));
            }
        }
        assert(views(r@) =~= head + named_pieces(sub));
        i = i + 1;
    }
    assert(ps.subrange(1, ps.len() as int) =~= ps.drop_first());
    r
}

fn is_plain_component(c: &str) -> (r: bool)
    ensures
        r == is_plain_name(c@),
{
    let n = c.unicode_len();
    if n == 0 {
        return false;
    }
    if n == 1 && c.get_char(0) == '.' {
        assert(c@ =~= seq!['.']);
        return false;
    }
    if n == 1 && c.get_char(0) == '/' {
        assert(c@ =~= seq!['/']);
        return false;
    }
    if n == 2 && c.get_char(0) == '.' && c.get_char(1) == '.' {
        assert(c@ =~= seq!['.', '.']);
        return false;
    }
    assert(c@ != seq!['.'] && c@ != seq!['/']) by {
        if n == 1 {
            assert(c@[0] != seq!['.'][0]);
            assert(c@[0] != seq!['/'][0]);
        }
    }
    assert(c@ != seq!['.', '.']) by {
        if n == 2 {
            if c@[0] == '.' {
                assert(c@[1] != seq!['.', '.'][1]);
            } else {
                assert(c@[0] != seq!['.', '.'][0]);
            }
        }
    }
    true
}

/// Whether every component of the path is a plain name.
pub fn path_is_simple(path: &str) -> (r: bool)
    ensures
        r == is_simple(path@),
{
    let parts = path_components(path);
    let mut i: usize = 0;
    while i < parts.len()
        invariant
            views(parts@) == components(path@),
            i <= parts@.len(),
            forall|j: int| 0 <= j < i ==> is_plain_name(#[trigger] components(path@)[j]),
        decreases parts@.len() - i,
    {
        if !is_plain_component(parts[i].as_str()) {
            assert(components(path@)[i as int] == parts@[i as int]@);
            return false;
        }
        assert(components(path@)[i as int] == parts@[i as int]@);
        i = i + 1;
    }
    true
}

/// Whether the file name carries the page extension ".md" after a non-empty stem.
pub fn has_page_extension(name: &str) -> (r: bool)
    ensures
        r == has_md_extension(name@),
{
    let n = name.unicode_len();
    if n <= 3 {
        return false;
    }
    let ok = name.get_char(n - 3) == '.' && name.get_char(n - 2) == 'm' && name.get_char(n - 1)
        == 'd';
    let ghost ext = name@.subrange(n - 3, n as int);
    if ok {
        assert(ext =~= seq!['.', 'm', 'd']);
    } else {
        assert(ext != seq!['.', 'm', 'd']) by {
            if ext == seq!['.', 'm', 'd'] {
                assert(ext[0] == '.' && ext[1] == 'm' && ext[2] == 'd');
            }
        }
    }
    ok
}

/// The first component of a path, empty where it has none.
pub fn first_name(path: &str) -> (r: String)
    ensures
        r@ == first_component(path@),
{
    let parts = path_components(path);
    if parts.len() == 0 {
        String::new()
    } else {
        assert(parts@[0]@ == components(path@)[0]);
        String::from_str(parts[0].as_str())
    }
}

/// The last component of a path, empty where it has none.
pub fn file_name(path: &str) -> (r: String)
    ensures
        r@ == last_component(path@),
{
    let mut parts = path_components(path);
    if parts.len() == 0 {
        return String::new();
    }
    let ghost v = parts@;
    let r = parts.pop().unwrap();
    assert(r@ == views(v).last());
    r
}

/// Whether the path names a generated file or lies under a name reserved by
/// the application.
pub fn is_reserved_name(path: &str) -> (r: bool)
    ensures
        r == is_reserved(path@),
{
    let last = file_name(path);
    let first = first_name(path);
    str_eq(last.as_str(), "SUMMARY.md") || str_eq(last.as_str(), "index.md") || str_eq(
        first.as_str(),
        "edit",
    ) || str_eq(first.as_str(), "upload") || str_eq(first.as_str(), "images")
}

/// The path with every underscore replaced by a space.
pub fn spaces_for_underscores(s: &str) -> (r: String)
    ensures
        r@ == underscores_to_spaces(s@),
{
    let n = s.unicode_len();
    let mut r = String::new();
    let mut i: usize = 0;
    while i < n
        invariant
            n == s@.len(),
            i <= n,
            r@ == underscores_to_spaces(s@.subrange(0, i as int)),
        decreases n - i,
    {
        let ghost before = r@;
        if s.get_char(i) == '_' {
            r.append(" ");
            proof {
                reveal_strlit(" ");
            }
        } else {
            r.append(s.substring_char(i, i + 1));
        }
        assert(underscores_to_spaces(s@.subrange(0, i + 1)) =~= underscores_to_spaces(
            s@.subrange(0, i as int),
        ).push(if s@[i as int] == '_' { ' ' } else { s@[i as int] }));
        assert(r@ =~= before.push(if s@[i as int] == '_' { ' ' } else { s@[i as int] }));
        i = i + 1;
    }
    assert(s@.subrange(0, n as int) =~= s@);
    r
}

} // verus!
