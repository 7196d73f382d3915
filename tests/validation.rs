use mdwiki::config::{Config, User};
use mdwiki::path::{
    file_name, first_name, has_page_extension, is_reserved_name, path_components, path_is_simple,
    spaces_for_underscores, str_eq,
};
use mdwiki::response::{ResponseKind, WikiResponse};

fn kind(r: &WikiResponse) -> ResponseKind {
    match r {
        WikiResponse::OK(_) => ResponseKind::OK,
        WikiResponse::BadRequest(_) => ResponseKind::BadRequest,
        WikiResponse::NotAllowed(_) => ResponseKind::NotAllowed,
        WikiResponse::NotFound(_) => ResponseKind::NotFound,
        WikiResponse::Error(_) => ResponseKind::Error,
    }
}

fn msg(r: &WikiResponse) -> Option<String> {
    r.msg().cloned()
}

#[test]
fn components_read_like_std_paths() {
    assert_eq!(path_components("a/b/c.md"), vec!["a", "b", "c.md"]);
    assert!(path_components("").is_empty());
    assert_eq!(path_components("/x"), vec!["/", "x"]);
    assert_eq!(path_components("a//b"), vec!["a", "b"]);
    assert_eq!(path_components("a/./b.md/"), vec!["a", "b.md"]);
    assert_eq!(path_components("./a"), vec![".", "a"]);
    assert_eq!(path_components("a/../b"), vec!["a", "..", "b"]);
    assert_eq!(file_name("dir/page.md"), "page.md");
    assert_eq!(file_name("page.md"), "page.md");
    assert_eq!(file_name("dir//page.md/"), "page.md");
    assert_eq!(file_name(""), "");
    assert_eq!(first_name("/x"), "/");
    assert_eq!(first_name(".//docs/a.md"), ".");
}

#[test]
fn simple_paths() {
    assert!(path_is_simple("page.md"));
    assert!(path_is_simple("dir/sub/page.md"));
    assert!(path_is_simple(".hidden.md"));
    assert!(path_is_simple("dir//page.md"));
    assert!(path_is_simple("dir/./page.md"));
    assert!(path_is_simple("dir/page.md/"));
    assert!(!path_is_simple("../page.md"));
    assert!(!path_is_simple("dir/../page.md"));
    assert!(!path_is_simple("./page.md"));
    assert!(!path_is_simple("/page.md"));
}

#[test]
fn page_extension() {
    assert!(has_page_extension("a.md"));
    assert!(has_page_extension("x.y.md"));
    assert!(!has_page_extension(".md"));
    assert!(!has_page_extension("a.txt"));
    assert!(!has_page_extension("amd"));
    assert!(!has_page_extension("a.mdx"));
}

#[test]
fn reserved_names_and_prefixes() {
    assert!(is_reserved_name("SUMMARY.md"));
    assert!(is_reserved_name("dir/index.md"));
    assert!(!is_reserved_name("new/page.md"));
    assert!(is_reserved_name("images//pic.md"));
    assert!(is_reserved_name("edit/page.md"));
    assert!(is_reserved_name("upload/page.md"));
    assert!(is_reserved_name("images/pic.md"));
    assert!(!is_reserved_name("README.md"));
    assert!(!is_reserved_name("newer/page.md"));
    assert!(!is_reserved_name("docs/images/page.md"));
}

#[test]
fn string_helpers() {
    assert!(str_eq("abc", "abc"));
    assert!(!str_eq("abc", "abd"));
    assert!(!str_eq("abc", "ab"));
    assert_eq!(spaces_for_underscores("my_long_page"), "my long page");
}

#[test]
fn create_allowed() {
    let c = Config::default();
    let r = c.can_create("newfile.md", false);
    assert_eq!(kind(&r), ResponseKind::OK);
    assert_eq!(msg(&r), None);
    assert!(c.can_create("a/b/c/d.md", false).is_ok());
    assert!(c.can_create("new/page.md", false).is_ok());
    // repeated separators and "." pieces do not count as directories
    assert!(c.can_create("a//b/./c/d.md", false).is_ok());
}

#[test]
fn create_refusals() {
    let c = Config::default();
    let r = c.can_create("../x.md", false);
    assert_eq!(kind(&r), ResponseKind::BadRequest);
    assert_eq!(
        msg(&r).unwrap(),
        "Path '../x.md' must be 'simple' i.e. in the form 'filename.extension' or 'directory/filename.extension'"
    );
    let r = c.can_create("notes.txt", false);
    assert_eq!(kind(&r), ResponseKind::BadRequest);
    assert_eq!(
        msg(&r).unwrap(),
        "File 'notes.txt' needs to be a markdown file with '.md' extension"
    );
    let r = c.can_create("images/a.md", false);
    assert_eq!(kind(&r), ResponseKind::BadRequest);
    assert_eq!(
        msg(&r).unwrap(),
        "Path 'images/a.md' contains reserved filenames/directories"
    );
    let r = c.can_create("a/b/c/d/e.md", false);
    assert_eq!(kind(&r), ResponseKind::BadRequest);
    assert_eq!(
        msg(&r).unwrap(),
        "Path 'a/b/c/d/e.md' contains too many nested directories"
    );
    let r = c.can_create("README.md", true);
    assert_eq!(kind(&r), ResponseKind::BadRequest);
    assert_eq!(msg(&r).unwrap(), "File 'README.md' already exists");
    // the static checks come before the existence check
    let r = c.can_create("SUMMARY.md", true);
    assert_eq!(
        msg(&r).unwrap(),
        "Path 'SUMMARY.md' contains reserved filenames/directories"
    );
}

#[test]
fn edit_verdicts() {
    let c = Config::default();
    assert!(c.can_edit("README.md", true).is_ok());
    let r = c.can_edit("missing.md", false);
    assert_eq!(kind(&r), ResponseKind::NotFound);
    assert_eq!(msg(&r).unwrap(), "No file named 'missing.md'");
    let r = c.can_edit("SUMMARY.md", true);
    assert_eq!(kind(&r), ResponseKind::BadRequest);
    // editing has no depth limit
    assert!(c.can_edit("a/b/c/d/e.md", true).is_ok());
}

#[test]
fn response_accessors() {
    let ok = WikiResponse::OK(None);
    assert!(ok.is_ok());
    assert!(ok.msg().is_none());
    assert!(ok.result().is_ok());
    let nf = WikiResponse::NotFound(Some("gone".to_string()));
    assert!(!nf.is_ok());
    assert_eq!(nf.msg().unwrap(), "gone");
    match nf.result() {
        Err(WikiResponse::NotFound(Some(m))) => assert_eq!(m, "gone"),
        _ => panic!("expected the response back as an error"),
    }
    assert!(!WikiResponse::NotAllowed(None).is_ok());
    assert!(WikiResponse::Error(None).result().is_err());
}

fn users() -> Config {
    let mut c = Config::default();
    c.users.push(User { username: "user".to_string(), password: "password".to_string() });
    c.users.push(User { username: "other".to_string(), password: "secret".to_string() });
    c.users.push(User { username: "user".to_string(), password: "shadowed".to_string() });
    c
}

#[test]
fn default_config() {
    let c = Config::default();
    assert_eq!(c.path, "./mdwiki");
    assert_eq!(c.book_path, "book");
    assert!(c.users.is_empty());
    assert!(c.allow_anonymous);
}

#[test]
fn user_lookup_and_login() {
    let c = users();
    assert_eq!(c.user_named("other"), Some(1));
    assert_eq!(c.user_named("user"), Some(0));
    assert_eq!(c.user_named("nobody"), None);
    assert_eq!(c.check_login("user", "password"), Some(0));
    assert_eq!(c.check_login("user", "shadowed"), None);
    assert_eq!(c.check_login("other", "secret"), Some(1));
    assert_eq!(c.check_login("other", "Secret"), None);
    assert_eq!(c.check_login("nobody", ""), None);
}

#[test]
fn serving_gate() {
    let mut c = Config::default();
    assert!(c.may_serve(false, "index.html"));
    c.allow_anonymous = false;
    assert!(!c.may_serve(false, "index.html"));
    assert!(c.may_serve(true, "index.html"));
    assert!(c.may_serve(false, "css/general.css"));
    assert!(c.may_serve(false, "FontAwesome/fonts/x.woff"));
    assert!(c.may_serve(false, "favicon.svg"));
    assert!(!c.may_serve(false, "cssx/general.css"));
}
