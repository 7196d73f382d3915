use std::collections::BTreeMap;

use mdwiki::actor::{Action, Event, Stage, WikiRequest, WikiState, COMMIT_EMAIL};
use mdwiki::config::{Config, User};
use mdwiki::forms::NewForm;
use mdwiki::names::rand_safe_string;
use mdwiki::plan::{create_probes, create_writes};
use mdwiki::response::WikiResponse;
use mdwiki::summary::SUMMARY_HEAD;
use mdwiki::tree::TreeNode;

/// An in-memory content root with its history, answering the actor's actions.
struct Sim {
    files: BTreeMap<String, String>,
    dirs: Vec<String>,
    commits: Vec<(String, String, String)>,
    writes: usize,
    rebuilds: usize,
    fail_commit: bool,
    fail_rebuild: bool,
    fail_write: bool,
    fail_scan: bool,
}

impl Sim {
    fn bootstrapped() -> Sim {
        let mut files = BTreeMap::new();
        files.insert("README.md".to_string(), "# Welcome".to_string());
        files.insert("SUMMARY.md".to_string(), String::new());
        Sim {
            files,
            dirs: vec!["images".to_string()],
            commits: Vec::new(),
            writes: 0,
            rebuilds: 0,
            fail_commit: false,
            fail_rebuild: false,
            fail_write: false,
            fail_scan: false,
        }
    }

    fn perform(&mut self, action: Action) -> Result<Event, WikiResponse> {
        match action {
            Action::Probe(paths) => {
                Ok(Event::Probed(paths.iter().map(|p| self.files.contains_key(p)).collect()))
            }
            Action::Write(ws) => {
                if self.fail_write {
                    return Ok(Event::Written(false));
                }
                for w in ws {
                    let parts: Vec<&str> = w.path.split('/').collect();
                    for k in 1..parts.len() {
                        let d = parts[..k].join("/");
                        if !self.dirs.contains(&d) {
                            self.dirs.push(d);
                        }
                    }
                    self.files.insert(w.path, w.content);
                    self.writes += 1;
                }
                Ok(Event::Written(true))
            }
            Action::Scan => {
                let mut listing: Vec<TreeNode> = self
                    .dirs
                    .iter()
                    .map(|d| TreeNode { path: d.clone(), is_dir: true })
                    .collect();
                for f in self.files.keys().rev() {
                    listing.push(TreeNode { path: f.clone(), is_dir: false });
                }
                if self.fail_scan {
                    return Ok(Event::Scanned(None));
                }
                Ok(Event::Scanned(Some(listing)))
            }
            Action::SaveSummary(text) => {
                self.files.insert("SUMMARY.md".to_string(), text);
                Ok(Event::SummarySaved(true))
            }
            Action::Commit(c) => {
                if self.fail_commit {
                    return Ok(Event::Committed(false));
                }
                self.commits.push((c.author, c.email, c.message));
                Ok(Event::Committed(true))
            }
            Action::Rebuild => {
                if self.fail_rebuild {
                    return Ok(Event::Rebuilt(false));
                }
                self.rebuilds += 1;
                Ok(Event::Rebuilt(true))
            }
            Action::Reply(r) => Err(r),
        }
    }
}

fn serve(state: &mut WikiState, sim: &mut Sim, req: WikiRequest) -> WikiResponse {
    let mut action = state.begin(req);
    loop {
        match sim.perform(action) {
            Ok(ev) => action = state.step(ev),
            Err(r) => {
                assert_eq!(state.stage, Stage::Idle);
                return r;
            }
        }
    }
}

fn user(name: &str) -> User {
    User { username: name.to_string(), password: String::new() }
}

fn create(name: &str, file: &str, content: &str) -> WikiRequest {
    WikiRequest::CreateFile {
        user: user(name),
        file: file.to_string(),
        content: content.to_string(),
    }
}

fn edit(name: &str, file: &str, content: &str) -> WikiRequest {
    WikiRequest::EditFile { user: user(name), file: file.to_string(), content: content.to_string() }
}

#[test]
fn create_page_in_new_directory() {
    let mut state = WikiState::new(Config::default());
    let mut sim = Sim::bootstrapped();
    let r = serve(&mut state, &mut sim, create("alice", "notes/page.md", "Hello"));
    assert!(r.is_ok());
    assert_eq!(sim.files["notes/page.md"], "Hello");
    assert_eq!(sim.files["notes/README.md"], "# notes");
    assert_eq!(sim.files["README.md"], "# Welcome");
    assert!(sim.files["SUMMARY.md"].contains("- [page](notes/page.md)\n"));
    assert!(sim.files["SUMMARY.md"].contains("- [notes](notes/README.md)\n"));
    assert_eq!(
        sim.commits,
        vec![(
            "alice".to_string(),
            COMMIT_EMAIL.to_string(),
            "Create notes/page.md".to_string()
        )]
    );
    assert_eq!(state.history.len(), 1);
    assert_eq!(state.history[0].message, "Create notes/page.md");
    assert_eq!(sim.rebuilds, 1);
}

#[test]
fn create_page_on_fresh_wiki() {
    let mut state = WikiState::new(Config::default());
    let mut sim = Sim::bootstrapped();
    let r = serve(&mut state, &mut sim, create("alice", "new/page.md", "Hello"));
    assert!(matches!(r, WikiResponse::OK(None)));
    assert_eq!(sim.files["new/page.md"], "Hello");
    assert_eq!(sim.files["new/README.md"], "# new");
    assert_eq!(sim.files["README.md"], "# Welcome");
    assert!(sim.dirs.contains(&"new".to_string()));
    let expected = format!("{}- [new](new/README.md)\n  - [page](new/page.md)\n", SUMMARY_HEAD);
    assert_eq!(sim.files["SUMMARY.md"], expected);
    assert_eq!(
        sim.commits,
        vec![("alice".to_string(), COMMIT_EMAIL.to_string(), "Create new/page.md".to_string())]
    );
    assert_eq!(sim.rebuilds, 1);
}

#[test]
fn scan_failure_is_internal_error() {
    let mut state = WikiState::new(Config::default());
    let mut sim = Sim::bootstrapped();
    sim.fail_scan = true;
    let r = serve(&mut state, &mut sim, create("alice", "x.md", "body"));
    assert!(matches!(r, WikiResponse::Error(None)));
    assert_eq!(sim.files["x.md"], "body");
    assert_eq!(sim.files["SUMMARY.md"], "");
    assert!(sim.commits.is_empty());
    assert_eq!(sim.rebuilds, 0);
}

#[test]
fn edit_missing_page_is_not_found() {
    let mut state = WikiState::new(Config::default());
    let mut sim = Sim::bootstrapped();
    let r = serve(&mut state, &mut sim, edit("alice", "missing.md", "x"));
    match r {
        WikiResponse::NotFound(Some(m)) => assert_eq!(m, "No file named 'missing.md'"),
        _ => panic!("expected not found"),
    }
    assert_eq!(sim.writes, 0);
    assert!(sim.commits.is_empty());
    assert!(state.history.is_empty());
}

#[test]
fn create_existing_page_is_bad_request() {
    let mut state = WikiState::new(Config::default());
    let mut sim = Sim::bootstrapped();
    let r = serve(&mut state, &mut sim, create("alice", "README.md", "x"));
    match r {
        WikiResponse::BadRequest(Some(m)) => assert_eq!(m, "File 'README.md' already exists"),
        _ => panic!("expected a bad request"),
    }
    assert_eq!(sim.files["README.md"], "# Welcome");
    assert_eq!(sim.writes, 0);
    assert!(sim.commits.is_empty());
}

#[test]
fn two_creates_commit_in_order() {
    let mut state = WikiState::new(Config::default());
    let mut sim = Sim::bootstrapped();
    let first = serve(&mut state, &mut sim, create("alice", "one.md", "1"));
    let second = serve(&mut state, &mut sim, create("bob", "two.md", "2"));
    assert!(first.is_ok() && second.is_ok());
    let messages: Vec<&str> = sim.commits.iter().map(|c| c.2.as_str()).collect();
    assert_eq!(messages, vec!["Create one.md", "Create two.md"]);
    assert_eq!(sim.commits[0].0, "alice");
    assert_eq!(sim.commits[1].0, "bob");
}

#[test]
fn many_requests_one_commit_each_in_order() {
    let mut state = WikiState::new(Config::default());
    let mut sim = Sim::bootstrapped();
    let mut expected = Vec::new();
    for i in 0..5 {
        let name = format!("page{}.md", i);
        assert!(serve(&mut state, &mut sim, create("u", &name, "c")).is_ok());
        expected.push(format!("Create {}", name));
        assert!(serve(&mut state, &mut sim, edit("u", &name, "d")).is_ok());
        expected.push(format!("Edit {}", name));
    }
    let got: Vec<String> = state.history.iter().map(|c| c.message.clone()).collect();
    assert_eq!(got, expected);
    let sim_got: Vec<String> = sim.commits.iter().map(|c| c.2.clone()).collect();
    assert_eq!(sim_got, expected);
    assert_eq!(sim.files["page3.md"], "d");
}

#[test]
fn edit_rewrites_navigation_and_commits() {
    let mut state = WikiState::new(Config::default());
    let mut sim = Sim::bootstrapped();
    let r = serve(&mut state, &mut sim, edit("carol", "README.md", "EDITEDCONTENT"));
    assert!(r.is_ok());
    assert_eq!(sim.files["README.md"], "EDITEDCONTENT");
    assert_eq!(sim.commits[0].2, "Edit README.md");
    assert_eq!(sim.commits[0].1, "mdwiki@example.com");
    assert_eq!(sim.rebuilds, 1);
}

#[test]
fn commit_failure_keeps_written_file() {
    let mut state = WikiState::new(Config::default());
    let mut sim = Sim::bootstrapped();
    sim.fail_commit = true;
    let r = serve(&mut state, &mut sim, create("alice", "kept.md", "body"));
    assert!(matches!(r, WikiResponse::Error(None)));
    assert_eq!(sim.files["kept.md"], "body");
    assert!(sim.commits.is_empty());
    assert!(state.history.is_empty());
    assert_eq!(sim.rebuilds, 0);
}

#[test]
fn write_failure_is_internal_error() {
    let mut state = WikiState::new(Config::default());
    let mut sim = Sim::bootstrapped();
    sim.fail_write = true;
    let r = serve(&mut state, &mut sim, create("alice", "x.md", "body"));
    assert!(matches!(r, WikiResponse::Error(None)));
    assert!(sim.commits.is_empty());
}

#[test]
fn rebuild_failure_after_commit() {
    let mut state = WikiState::new(Config::default());
    let mut sim = Sim::bootstrapped();
    sim.fail_rebuild = true;
    let r = serve(&mut state, &mut sim, create("alice", "x.md", "body"));
    assert!(matches!(r, WikiResponse::Error(None)));
    assert_eq!(sim.commits.len(), 1);
    assert_eq!(state.history.len(), 1);
}

#[test]
fn unexpected_event_aborts_request() {
    let mut state = WikiState::new(Config::default());
    let action = state.begin(create("alice", "x.md", "body"));
    assert!(matches!(action, Action::Probe(_)));
    let action = state.step(Event::Rebuilt(true));
    assert!(matches!(action, Action::Reply(WikiResponse::Error(None))));
    assert_eq!(state.stage, Stage::Idle);
}

#[test]
fn probe_answer_of_wrong_length_aborts() {
    let mut state = WikiState::new(Config::default());
    state.begin(create("alice", "a/b.md", "body"));
    let action = state.step(Event::Probed(vec![false]));
    assert!(matches!(action, Action::Reply(WikiResponse::Error(None))));
}

#[test]
fn probes_and_placeholder_indexes() {
    assert_eq!(create_probes("a/b/c.md"), vec!["a/b/c.md", "a/b/README.md", "a/README.md", "README.md"]);
    assert_eq!(create_probes("c.md"), vec!["c.md", "README.md"]);
    let ws = create_writes("a/b/c.md", "text", &vec![false, false, true, false]);
    let got: Vec<(String, String)> = ws.into_iter().map(|w| (w.path, w.content)).collect();
    assert_eq!(
        got,
        vec![
            ("a/b/README.md".to_string(), "# b".to_string()),
            ("README.md".to_string(), "# TODO".to_string()),
            ("a/b/c.md".to_string(), "text".to_string()),
        ]
    );
}

#[test]
fn new_form_path_uses_underscores() {
    let f = NewForm { file: "my new page.md".to_string(), content: String::new() };
    assert_eq!(f.page_path(), "my_new_page.md");
}

#[test]
fn random_names_are_lowercase_letters() {
    let s = rand_safe_string(16);
    assert_eq!(s.chars().count(), 16);
    assert!(s.chars().all(|c| c.is_ascii_lowercase()));
    assert_eq!(rand_safe_string(0), "");
}
