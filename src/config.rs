use vstd::prelude::*;

use crate::path::{
    depth, file_name, first_component, first_name, has_md_extension, has_page_extension,
    is_reserved, is_reserved_name, is_simple, last_component, path_components, path_is_simple,
    str_eq,
};
use crate::response::{ResponseKind, WikiResponse};

verus! {

/// Most components a new page's path may have, the file name included.
pub const MAX_PAGE_DEPTH: usize = 4;

/// A user known to the wiki; the name also attributes commits.
#[derive(Clone, Debug)]
pub struct User {
    pub username: String,
    pub password: String,
}

/// Settings of the wiki: where the book lives, who may log in, and whether
/// anonymous readers are let in.
#[derive(Debug)]
pub struct Config {
    pub path: String,
    pub book_path: String,
    pub users: Vec<User>,
    pub allow_anonymous: bool,
}

impl Default for Config {
    fn default() -> (r: Config)
        ensures
            r.path@ == "./mdwiki"@,
            r.book_path@ == "book"@,
            r.users@.len() == 0,
            r.allow_anonymous,
    {
        Config {
            path: String::from_str("./mdwiki"),
            book_path: String::from_str("book"),
            users: Vec::new(),
            allow_anonymous: true,
        }
    }
}

/// The reason a path is refused as a page path, if it is.
pub open spec fn unsafe_path_reason(p: Seq<char>) -> Option<Seq<char>> {
    if !is_simple(p) {
        Some(
            "Path '"@ + p
                + "' must be 'simple' i.e. in the form 'filename.extension' or 'directory/filename.extension'"@,
        )
    } else if !has_md_extension(last_component(p)) {
        Some("File '"@ + p + "' needs to be a markdown file with '.md' extension"@)
    } else if is_reserved(p) {
        Some("Path '"@ + p + "' contains reserved filenames/directories"@)
    } else {
        None
    }
}

pub open spec fn is_safe_page_path(p: Seq<char>) -> bool {
    is_simple(p) && has_md_extension(last_component(p)) && !is_reserved(p)
}

/// A page may be created at `p`.
pub open spec fn can_create_spec(p: Seq<char>, exists: bool) -> bool {
    is_simple(p) && has_md_extension(last_component(p)) && !is_reserved(p) && depth(p)
        <= MAX_PAGE_DEPTH && !exists
}

/// The page at `p` may be edited.
pub open spec fn can_edit_spec(p: Seq<char>, exists: bool) -> bool {
    is_simple(p) && has_md_extension(last_component(p)) && !is_reserved(p) && exists
}

/// The message that comes with the verdict on creating a page at `p`.
pub open spec fn create_message(p: Seq<char>, exists: bool) -> Option<Seq<char>> {
    if unsafe_path_reason(p).is_some() {
        unsafe_path_reason(p)
    } else if depth(p) > MAX_PAGE_DEPTH {
        Some("Path '"@ + p + "' contains too many nested directories"@)
    } else if exists {
        Some("File '"@ + p + "' already exists"@)
    } else {
        None
    }
}

/// The message that comes with the verdict on editing the page at `p`.
pub open spec fn edit_message(p: Seq<char>, exists: bool) -> Option<Seq<char>> {
    if unsafe_path_reason(p).is_some() {
        unsafe_path_reason(p)
    } else if !exists {
        Some("No file named '"@ + p + "'"@)
    } else {
        None
    }
}

/// Top-level names of the rendered site that anyone may fetch.
pub open spec fn is_public_asset(name: Seq<char>) -> bool {
    name == "css"@ || name == "FontAwesome"@ || name == "favicon.svg"@
}

/// The index of the first user with the given name.
pub open spec fn is_first_user_named(users: Seq<User>, i: int, name: Seq<char>) -> bool {
    &&& 0 <= i < users.len()
    &&& users[i].username@ == name
    &&& forall|j: int| 0 <= j < i ==> (#[trigger] users[j]).username@ != name
}

fn message(a: &str, p: &str, b: &str) -> (r: String)
    ensures
        r@ == a@ + p@ + b@,
{
    let mut r = String::from_str(a);
    r.append(p);
    r.append(b);
    r
}

impl Config {
    fn safe_path(&self, path: &str) -> (r: WikiResponse)
        ensures
            unsafe_path_reason(path@).is_none() ==> r.kind() == ResponseKind::OK
                && r.message().is_none(),
            unsafe_path_reason(path@).is_some() ==> r.kind() == ResponseKind::BadRequest
                && r.message() == unsafe_path_reason(path@),
    {
        if !path_is_simple(path) {
            return WikiResponse::BadRequest(
                Some(
                    message(
                        "Path '",
                        path,
                        "' must be 'simple' i.e. in the form 'filename.extension' or 'directory/filename.extension'",
                    ),
                ),
            );
        }
        let name = file_name(path);
        if !has_page_extension(name.as_str()) {
            return WikiResponse::BadRequest(
                Some(message("File '", path, "' needs to be a markdown file with '.md' extension")),
            );
        }
        if is_reserved_name(path) {
            return WikiResponse::BadRequest(
                Some(message("Path '", path, "' contains reserved filenames/directories")),
            );
        }
        WikiResponse::OK(None)
    }

    /// Whether the page at `path`, which does or does not exist as a file
    /// (`exists`), may be edited.
    pub fn can_edit(&self, path: &str, exists: bool) -> (r: WikiResponse)
        ensures
            r.kind() == (if can_edit_spec(path@, exists) {
                ResponseKind::OK
            } else if is_safe_page_path(path@) {
                ResponseKind::NotFound
            } else {
                ResponseKind::BadRequest
            }),
            r.message() == edit_message(path@, exists),
    {
        let r = self.safe_path(path);
        if !r.is_ok() {
            return r;
        }
        if !exists {
            return WikiResponse::NotFound(Some(message("No file named '", path, "'")));
        }
        WikiResponse::OK(None)
    }

    /// Whether a page may be created at `path`, where a file does or does not
    /// exist already (`exists`).
    pub fn can_create(&self, path: &str, exists: bool) -> (r: WikiResponse)
        ensures
            r.kind() == (if can_create_spec(path@, exists) {
                ResponseKind::OK
            } else {
                ResponseKind::BadRequest
            }),
            r.message() == create_message(path@, exists),
    {
        let r = self.safe_path(path);
        if !r.is_ok() {
            return r;
        }
        let parts = path_components(path);
        if parts.len() > MAX_PAGE_DEPTH {
            return WikiResponse::BadRequest(
                Some(message("Path '", path, "' contains too many nested directories")),
            );
        }
        if exists {
            return WikiResponse::BadRequest(Some(message("File '", path, "' already exists")));
        }
        WikiResponse::OK(None)
    }

    /// The first user with the given name.
    pub fn user_named(&self, username: &str) -> (r: Option<usize>)
        ensures
            r matches Some(i) ==> is_first_user_named(self.users@, i as int, username@),
            r is None ==> forall|j: int|
                0 <= j < self.users@.len() ==> (#[trigger] self.users@[j]).username@ != username@,
    {
        let mut i: usize = 0;
        while i < self.users.len()
            invariant
                i <= self.users@.len(),
                forall|j: int| 0 <= j < i ==> (#[trigger] self.users@[j]).username@ != username@,
            decreases self.users@.len() - i,
        {
            if str_eq(self.users[i].username.as_str(), username) {
                return Some(i);
            }
            i = i + 1;
        }
        None
    }

    /// The user that the name and password log in: the first user with that
    /// name, where the password is exactly theirs.
    pub fn check_login(&self, username: &str, password: &str) -> (r: Option<usize>)
        ensures
            r matches Some(i) ==> is_first_user_named(self.users@, i as int, username@)
                && self.users@[i as int].password@ == password@,
            r is None ==> forall|i: int|
                is_first_user_named(self.users@, i, username@) ==> self.users@[i].password@
                    != password@,
    {
        match self.user_named(username) {
            Some(i) => {
                if str_eq(self.users[i].password.as_str(), password) {
                    Some(i)
                } else {
                    proof {
                        assert forall|k: int|
                            is_first_user_named(self.users@, k, username@) implies k == i by {
                            if k < i {
                                assert(self.users@[k].username@ != username@);
                            } else if k > i {
                                assert(self.users@[i as int].username@ != username@);
                            }
                        }
                    }
                    None
                }
            },
            None => None,
        }
    }

    /// Whether a file of the rendered site may be served: always to a logged-in
    /// user or where anonymous readers are allowed, else only the public assets.
    pub fn may_serve(&self, logged_in: bool, path: &str) -> (r: bool)
        ensures
            r == (self.allow_anonymous || logged_in || is_public_asset(first_component(path@))),
    {
        if self.allow_anonymous || logged_in {
            return true;
        }
        let first = first_name(path);
        str_eq(first.as_str(), "css") || str_eq(first.as_str(), "FontAwesome") || str_eq(
            first.as_str(),
            "favicon.svg",
        )
    }
}

} // verus!
