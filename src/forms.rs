use vstd::prelude::*;

verus! {

/// The fields of the login form.
#[derive(Debug)]
pub struct LoginForm {
    pub username: String,
    pub password: String,
}

/// The fields of the form that creates a page.
#[derive(Debug)]
pub struct NewForm {
    pub file: String,
    pub content: String,
}

/// The fields of the form that edits a page.
#[derive(Debug)]
pub struct EditForm {
    pub content: String,
}

/// Replaces every space by an underscore.
pub open spec fn spaces_to_underscores(s: Seq<char>) -> Seq<char> {
    s.map_values(|c: char|
        if c == ' ' {
            '_'
        } else {
            c
        })
}

impl NewForm {
    /// The path of the page to create: the path typed in, with spaces made
    /// underscores.
    pub fn page_path(&self) -> (r: String)
        ensures
            r@ == spaces_to_underscores(self.file@),
    {
        let s = self.file.as_str();
        let n = s.unicode_len();
        let mut r = String::new();
        let mut i: usize = 0;
        while i < n
            invariant
                n == s@.len(),
                i <= n,
                r@ == spaces_to_underscores(s@.subrange(0, i as int)),
            decreases n - i,
        {
            let ghost before = r@;
            if s.get_char(i) == ' ' {
                r.append("_");
                proof {
                    reveal_strlit("_");
                }
            } else {
                r.append(s.substring_char(i, i + 1));
            }
            assert(spaces_to_underscores(s@.subrange(0, i + 1)) =~= spaces_to_underscores(
                s@.subrange(0, i as int),
            ).push(if s@[i as int] == ' ' { '_' } else { s@[i as int] }));
            assert(r@ =~= before.push(if s@[i as int] == ' ' { '_' } else { s@[i as int] }));
            i = i + 1;
        }
        assert(s@.subrange(0, n as int) =~= s@);
        r
    }
}

} // verus!
