use vstd::prelude::*;

use crate::config::{
    can_create_spec, create_message, edit_message, is_safe_page_path, Config, User,
};
use crate::path::views;
use crate::plan::{
    create_plan, create_probes, create_writes, n_components, probe_paths, write_views, FileWrite,
};
use crate::response::{ResponseKind, WikiResponse};
use crate::summary::navigation;
use crate::tree::{page_index, PageIndex, TreeNode};

verus! {

/// The address that every commit of the wiki is signed with.
pub const COMMIT_EMAIL: &'static str = "mdwiki@example.com";

/// A change asked of the wiki by a user.
#[derive(Debug)]
pub enum WikiRequest {
    CreateFile { user: User, file: String, content: String },
    EditFile { user: User, file: String, content: String },
}

impl WikiRequest {
    pub open spec fn is_create(&self) -> bool {
        self is CreateFile
    }

    pub open spec fn file_view(&self) -> Seq<char> {
        match self {
            WikiRequest::CreateFile { file, .. } => file@,
            WikiRequest::EditFile { file, .. } => file@,
        }
    }

    pub open spec fn content_view(&self) -> Seq<char> {
        match self {
            WikiRequest::CreateFile { content, .. } => content@,
            WikiRequest::EditFile { content, .. } => content@,
        }
    }

    pub open spec fn author_view(&self) -> Seq<char> {
        match self {
            WikiRequest::CreateFile { user, .. } => user.username@,
            WikiRequest::EditFile { user, .. } => user.username@,
        }
    }
}

/// A commit to make of every change in the working tree.
#[derive(Debug)]
pub struct CommitRecord {
    pub author: String,
    pub email: String,
    pub message: String,
}

/// A commit as its author, email and message.
pub type CommitView = (Seq<char>, Seq<char>, Seq<char>);

pub open spec fn record_view(c: CommitRecord) -> CommitView {
    (c.author@, c.email@, c.message@)
}

pub open spec fn history_view(h: Seq<CommitRecord>) -> Seq<CommitView> {
    h.map_values(|c: CommitRecord| record_view(c))
}

pub open spec fn commit_message(r: WikiRequest) -> Seq<char> {
    if r.is_create() {
        "Create "@ + r.file_view()
    } else {
        "Edit "@ + r.file_view()
    }
}

/// The commit that a request makes once its files are written.
pub open spec fn commit_of(r: WikiRequest) -> CommitView {
    (r.author_view(), COMMIT_EMAIL@, commit_message(r))
}

/// The commits of the requests whose flag is set, in order.
pub open spec fn committed_of(reqs: Seq<WikiRequest>, flags: Seq<bool>) -> Seq<CommitView>
    decreases reqs.len(),
{
    if reqs.len() == 0 || flags.len() == 0 {
        Seq::empty()
    } else {
        committed_of(reqs.drop_last(), flags.drop_last()) + if flags.last() {
            seq![commit_of(reqs.last())]
        } else {
            Seq::empty()
        }
    }
}

/// Where the request in hand stands.
#[derive(Clone, Copy, Debug, PartialEq, Eq, Structural)]
pub enum Stage {
    Idle,
    Probing,
    Writing,
    Indexing,
    SavingSummary,
    Committing,
    Rebuilding,
}

/// What the actor needs done outside before it can go on.
#[derive(Debug)]
pub enum Action {
    /// Tell for each path (relative to the content root) whether a file is there.
    Probe(Vec<String>),
    /// Write these files in order, creating missing directories above them.
    Write(Vec<FileWrite>),
    /// List every file and directory under the content root.
    Scan,
    /// Store this text as the navigation document.
    SaveSummary(String),
    /// Commit every change of the working tree.
    Commit(CommitRecord),
    /// Rebuild the rendered site.
    Rebuild,
    /// Answer the request in hand; the actor takes the next one.
    Reply(WikiResponse),
}

/// How the last action went.
#[derive(Debug)]
pub enum Event {
    Probed(Vec<bool>),
    Written(bool),
    /// The listing of the content root, or `None` where it could not be read
    /// whole.
    Scanned(Option<Vec<TreeNode>>),
    SummarySaved(bool),
    Committed(bool),
    Rebuilt(bool),
}

/// The single writer of the wiki. It takes one request at a time and walks it
/// through validation, writing, indexing, committing and rebuilding; each
/// step hands an action out and takes its outcome back as an event.
pub struct WikiState {
    pub config: Config,
    pub stage: Stage,
    pub request: Option<WikiRequest>,
    /// The commits made so far, oldest first.
    pub history: Vec<CommitRecord>,
    /// Every request taken up, in order.
    pub taken: Ghost<Seq<WikiRequest>>,
    /// For each request taken up, whether its commit was made.
    pub committed: Ghost<Seq<bool>>,
}

/// The verdict on a request before anything outside is looked at.
pub open spec fn static_ok(r: WikiRequest) -> bool {
    if r.is_create() {
        can_create_spec(r.file_view(), false)
    } else {
        is_safe_page_path(r.file_view())
    }
}

/// The kind of reply to a request, given whether its file exists.
pub open spec fn verdict_kind(r: WikiRequest, exists: bool) -> ResponseKind {
    if r.is_create() {
        if can_create_spec(r.file_view(), exists) {
            ResponseKind::OK
        } else {
            ResponseKind::BadRequest
        }
    } else if !is_safe_page_path(r.file_view()) {
        ResponseKind::BadRequest
    } else if exists {
        ResponseKind::OK
    } else {
        ResponseKind::NotFound
    }
}

pub open spec fn verdict_message(r: WikiRequest, exists: bool) -> Option<Seq<char>> {
    if r.is_create() {
        create_message(r.file_view(), exists)
    } else {
        edit_message(r.file_view(), exists)
    }
}

/// The paths a request looks at.
pub open spec fn probes_of(r: WikiRequest) -> Seq<Seq<char>> {
    if r.is_create() {
        probe_paths(r.file_view())
    } else {
        seq![r.file_view()]
    }
}

/// The files a request writes, given what its probes found.
pub open spec fn writes_of(r: WikiRequest, exists: Seq<bool>) -> Seq<(Seq<char>, Seq<char>)> {
    if r.is_create() {
        create_plan(r.file_view(), r.content_view(), exists)
    } else {
        seq![(r.file_view(), r.content_view())]
    }
}

/// The actor as the stage, the request in hand and the commits made.
pub struct ActorView {
    pub stage: Stage,
    pub request: Option<WikiRequest>,
    pub history: Seq<CommitView>,
}

impl WikiState {
    pub open spec fn view(&self) -> ActorView {
        ActorView {
            stage: self.stage,
            request: self.request,
            history: history_view(self.history@),
        }
    }
}

/// The actor with no request in hand.
pub open spec fn idle(v: ActorView) -> ActorView {
    ActorView { stage: Stage::Idle, request: None, history: v.history }
}

/// The actor after taking up `req` while idle.
pub open spec fn begin_view(v: ActorView, req: WikiRequest) -> ActorView {
    if static_ok(req) {
        ActorView { stage: Stage::Probing, request: Some(req), history: v.history }
    } else {
        idle(v)
    }
}

/// The actor after the outcome `ev` of its last action.
pub open spec fn next_view(v: ActorView, ev: Event) -> ActorView {
    let req = v.request.unwrap();
    let moved = |stage: Stage| ActorView { stage, request: v.request, history: v.history };
    if v.stage == Stage::Idle {
        v
    } else if !answers(v.stage, ev) || is_failure(ev) {
        idle(v)
    } else {
        match v.stage {
            Stage::Probing => {
                let ex = probed_flags(ev);
                if ex.len() != probes_of(req).len() || verdict_kind(req, ex[0]) != ResponseKind::OK {
                    idle(v)
                } else {
                    moved(Stage::Writing)
                }
            },
            Stage::Writing => moved(Stage::Indexing),
            Stage::Indexing => moved(Stage::SavingSummary),
            Stage::SavingSummary => moved(Stage::Committing),
            Stage::Committing => ActorView {
                stage: Stage::Rebuilding,
                request: v.request,
                history: v.history.push(commit_of(req)),
            },
            _ => idle(v),
        }
    }
}

pub open spec fn is_internal_error(a: Action) -> bool {
    a matches Action::Reply(resp) && resp.kind() == ResponseKind::Error && resp.message().is_none()
}

impl WikiState {
    pub open spec fn wf(&self) -> bool {
        &&& (self.stage == Stage::Idle) == self.request.is_none()
        &&& self.taken@.len() == self.committed@.len()
        &&& self.request matches Some(r) ==> self.taken@.len() > 0 && self.taken@.last() == r
            && self.committed@.last() == (self.stage == Stage::Rebuilding)
        &&& history_view(self.history@) == committed_of(self.taken@, self.committed@)
    }

    /// An idle actor with no history yet.
    pub fn new(config: Config) -> (r: WikiState)
        ensures
            r.wf(),
            r.stage == Stage::Idle,
            r.history@.len() == 0,
            r.taken@.len() == 0,
            r.config == config,
    {
        let r = WikiState {
            config,
            stage: Stage::Idle,
            request: None,
            history: Vec::new(),
            taken: Ghost(Seq::empty()),
            committed: Ghost(Seq::empty()),
        };
        assert(history_view(r.history@) =~= committed_of(r.taken@, r.committed@));
        r
    }
}

fn copy_string(s: &String) -> (r: String)
    ensures
        r@ == s@,
{
    String::from_str(s.as_str())
}

/// Whether the event answers the action that the stage handed out.
pub open spec fn answers(stage: Stage, ev: Event) -> bool {
    match ev {
        Event::Probed(_) => stage == Stage::Probing,
        Event::Written(_) => stage == Stage::Writing,
        Event::Scanned(_) => stage == Stage::Indexing,
        Event::SummarySaved(_) => stage == Stage::SavingSummary,
        Event::Committed(_) => stage == Stage::Committing,
        Event::Rebuilt(_) => stage == Stage::Rebuilding,
    }
}

pub open spec fn probed_flags(ev: Event) -> Seq<bool> {
    match ev {
        Event::Probed(ex) => ex@,
        _ => Seq::empty(),
    }
}

pub open spec fn scanned_listing(ev: Event) -> Seq<TreeNode> {
    match ev {
        Event::Scanned(Some(listing)) => listing@,
        _ => Seq::empty(),
    }
}

/// Whether the event reports that the action failed.
pub open spec fn is_failure(ev: Event) -> bool {
    match ev {
        Event::Probed(_) => false,
        Event::Written(ok) => !ok,
        Event::Scanned(listing) => listing is None,
        Event::SummarySaved(ok) => !ok,
        Event::Committed(ok) => !ok,
        Event::Rebuilt(ok) => !ok,
    }
}

proof fn lemma_committed_of_push(reqs: Seq<WikiRequest>, flags: Seq<bool>, r: WikiRequest, f: bool)
    requires
        reqs.len() == flags.len(),
    ensures
        committed_of(reqs.push(r), flags.push(f)) == committed_of(reqs, flags) + if f {
            seq![commit_of(r)]
        } else {
            Seq::empty()
        },
{
    assert(reqs.push(r).drop_last() =~= reqs);
    assert(flags.push(f).drop_last() =~= flags);
}

impl WikiState {
    /// Takes up a request: refuses it at once where its path can never be
    /// valid, else asks which files it touches exist.
    pub fn begin(&mut self, req: WikiRequest) -> (r: Action)
        requires
            old(self).wf(),
            old(self).stage == Stage::Idle,
        ensures
            final(self).wf(),
            final(self).taken@ == old(self).taken@.push(req),
            final(self).history@ == old(self).history@,
            final(self).config == old(self).config,
            final(self).view() == begin_view(old(self).view(), req),
            static_ok(req) ==> final(self).stage == Stage::Probing && (r matches Action::Probe(ps)
                && views(ps@) == probes_of(req)),
            !static_ok(req) ==> final(self).stage == Stage::Idle && (r matches Action::Reply(resp)
                && resp.kind() == verdict_kind(req, !req.is_create()) && resp.message()
                == verdict_message(req, !req.is_create())),
    {
        proof {
            lemma_committed_of_push(self.taken@, self.committed@, req, false);
        }
        self.taken = Ghost(self.taken@.push(req));
        self.committed = Ghost(self.committed@.push(false));
        let verdict = match &req {
            WikiRequest::CreateFile { file, .. } => self.config.can_create(file.as_str(), false),
            WikiRequest::EditFile { file, .. } => self.config.can_edit(file.as_str(), true),
        };
        if !verdict.is_ok() {
            return Action::Reply(verdict);
        }
        let probes = match &req {
            WikiRequest::CreateFile { file, .. } => create_probes(file.as_str()),
            WikiRequest::EditFile { file, .. } => {
                let mut v: Vec<String> = Vec::new();
                v.push(copy_string(file));
                assert(views(v@) =~= seq![file@]);
                v
            },
        };
        self.request = Some(req);
        self.stage = Stage::Probing;
        Action::Probe(probes)
    }

    /// Drops the request in hand with an internal error.
    fn abort(&mut self) -> (r: Action)
        requires
            old(self).wf(),
            old(self).stage != Stage::Idle,
        ensures
            final(self).wf(),
            final(self).stage == Stage::Idle,
            final(self).taken == old(self).taken,
            final(self).committed == old(self).committed,
            final(self).history@ == old(self).history@,
            final(self).config == old(self).config,
            final(self).request is None,
            is_internal_error(r),
    {
        self.stage = Stage::Idle;
        self.request = None;
        Action::Reply(WikiResponse::Error(None))
    }

    /// Goes on with the request in hand, given the outcome of the last action.
    pub fn step(&mut self, ev: Event) -> (r: Action)
        requires
            old(self).wf(),
            old(self).stage != Stage::Idle,
        ensures
            final(self).wf(),
            final(self).taken@ == old(self).taken@,
            final(self).config == old(self).config,
            final(self).view() == next_view(old(self).view(), ev),
            ({
                let req = old(self).request.unwrap();
                let stage = old(self).stage;
                &&& (!answers(stage, ev) || is_failure(ev)) ==> final(self).stage == Stage::Idle
                    && is_internal_error(r)
                &&& (stage == Stage::Committing && ev == Event::Committed(true)) ==> history_view(
                    final(self).history@,
                ) == history_view(old(self).history@).push(commit_of(req))
                &&& !(stage == Stage::Committing && ev == Event::Committed(true))
                    ==> final(self).history@ == old(self).history@
                &&& (stage == Stage::Probing && ev is Probed) ==> {
                    let ex = probed_flags(ev);
                    if ex.len() != probes_of(req).len() {
                        final(self).stage == Stage::Idle && is_internal_error(r)
                    } else if verdict_kind(req, ex[0]) == ResponseKind::OK {
                        final(self).stage == Stage::Writing && (r matches Action::Write(ws)
                            && write_views(ws@) == writes_of(req, ex))
                    } else {
                        final(self).stage == Stage::Idle && (r matches Action::Reply(resp)
                            && resp.kind() == verdict_kind(req, ex[0]) && resp.message()
                            == verdict_message(req, ex[0]))
                    }
                }
                &&& (stage == Stage::Writing && ev == Event::Written(true)) ==> final(self).stage
                    == Stage::Indexing && r is Scan
                &&& (stage == Stage::Indexing && ev matches Event::Scanned(Some(_)))
                    ==> final(self).stage == Stage::SavingSummary && (r matches Action::SaveSummary(
                    text,
                ) && text@ == navigation(page_index(scanned_listing(ev))))
                &&& (stage == Stage::SavingSummary && ev == Event::SummarySaved(true))
                    ==> final(self).stage == Stage::Committing && (r matches Action::Commit(c)
                    && record_view(c) == commit_of(req))
                &&& (stage == Stage::Committing && ev == Event::Committed(true))
                    ==> final(self).stage == Stage::Rebuilding && r is Rebuild
                &&& (stage == Stage::Rebuilding && ev == Event::Rebuilt(true)) ==> final(self).stage
                    == Stage::Idle && (r matches Action::Reply(resp) && resp.kind()
                    == ResponseKind::OK && resp.message().is_none())
            }),
    {
        let stage = self.stage;
        match ev {
            Event::Probed(ex) => {
                if stage != Stage::Probing {
                    return self.abort();
                }
                let (verdict, writes) = match self.request.as_ref().unwrap() {
                    WikiRequest::CreateFile { file, content, .. } => {
                        let n = crate::path::path_components(file.as_str()).len();
                        assert(n == n_components(file@));
                        assert(probe_paths(file@).len() == n + 1);
                        if ex.len() == 0 || ex.len() - 1 != n {
                            return self.abort();
                        }
                        let v = self.config.can_create(file.as_str(), ex[0]);
                        if !v.is_ok() {
                            (v, None)
                        } else {
                            (v, Some(create_writes(file.as_str(), content.as_str(), &ex)))
                        }
                    },
                    WikiRequest::EditFile { file, content, .. } => {
                        if ex.len() != 1 {
                            return self.abort();
                        }
                        let v = self.config.can_edit(file.as_str(), ex[0]);
                        if !v.is_ok() {
                            (v, None)
                        } else {
                            let mut ws: Vec<FileWrite> = Vec::new();
                            ws.push(
                                FileWrite { path: copy_string(file), content: copy_string(content) },
                            );
                            assert(write_views(ws@) =~= seq![(file@, content@)]);
                            (v, Some(ws))
                        }
                    },
                };
                match writes {
                    Some(ws) => {
                        self.stage = Stage::Writing;
                        Action::Write(ws)
                    },
                    None => {
                        self.stage = Stage::Idle;
                        self.request = None;
                        Action::Reply(verdict)
                    },
                }
            },
            Event::Written(ok) => {
                if stage != Stage::Writing || !ok {
                    return self.abort();
                }
                self.stage = Stage::Indexing;
                Action::Scan
            },
            Event::Scanned(listing) => {
                if stage != Stage::Indexing || listing.is_none() {
                    return self.abort();
                }
                let tree = PageIndex::scan(listing.unwrap());
                self.stage = Stage::SavingSummary;
                Action::SaveSummary(tree.render_summary())
            },
            Event::SummarySaved(ok) => {
                if stage != Stage::SavingSummary || !ok {
                    return self.abort();
                }
                let record = self.commit_record();
                self.stage = Stage::Committing;
                Action::Commit(record)
            },
            Event::Committed(ok) => {
                if stage != Stage::Committing || !ok {
                    return self.abort();
                }
                let record = self.commit_record();
                let ghost req = self.request.unwrap();
                proof {
                    lemma_committed_of_push(
                        self.taken@.drop_last(),
                        self.committed@.drop_last(),
                        req,
                        true,
                    );
                    assert(self.taken@.drop_last().push(req) =~= self.taken@);
                }
                self.history.push(record);
                self.committed = Ghost(self.committed@.drop_last().push(true));
                assert(history_view(self.history@) =~= history_view(old(self).history@).push(
                    commit_of(req),
                ));
                self.stage = Stage::Rebuilding;
                Action::Rebuild
            },
            Event::Rebuilt(ok) => {
                if stage != Stage::Rebuilding || !ok {
                    return self.abort();
                }
                self.stage = Stage::Idle;
                self.request = None;
                Action::Reply(WikiResponse::OK(None))
            },
        }
    }

    fn commit_record(&self) -> (c: CommitRecord)
        requires
            self.request is Some,
        ensures
            record_view(c) == commit_of(self.request.unwrap()),
    {
        match self.request.as_ref().unwrap() {
            WikiRequest::CreateFile { user, file, .. } => {
                let mut message = String::from_str("Create ");
                message.append(file.as_str());
                CommitRecord {
                    author: copy_string(&user.username),
                    email: String::from_str(COMMIT_EMAIL),
                    message,
                }
            },
            WikiRequest::EditFile { user, file, .. } => {
                let mut message = String::from_str("Edit ");
                message.append(file.as_str());
                CommitRecord {
                    author: copy_string(&user.username),
                    email: String::from_str(COMMIT_EMAIL),
                    message,
                }
            },
        }
    }
}

proof fn lemma_committed_of_all(reqs: Seq<WikiRequest>, flags: Seq<bool>)
    requires
        reqs.len() == flags.len(),
        forall|i: int| 0 <= i < flags.len() ==> #[trigger] flags[i],
    ensures
        committed_of(reqs, flags) == reqs.map_values(|r: WikiRequest| commit_of(r)),
    decreases reqs.len(),
{
    if reqs.len() > 0 {
        let fl = flags.drop_last();
        assert forall|i: int| 0 <= i < fl.len() implies #[trigger] fl[i] by {
            assert(fl[i] == flags[i]);
        }
        lemma_committed_of_all(reqs.drop_last(), fl);
        assert(flags.last() == flags[flags.len() - 1]);
        assert(reqs.map_values(|r: WikiRequest| commit_of(r)) =~= reqs.drop_last().map_values(
            |r: WikiRequest| commit_of(r),
        ).push(commit_of(reqs.last())));
    }
}

/// The history follows the order in which requests were taken up: it holds
/// the commit of each request that got as far as committing, in that order,
/// and so, when every request taken up committed, exactly one commit per
/// request, in the order of the requests.
pub proof fn lemma_history_in_request_order(s: WikiState)
    requires
        s.wf(),
    ensures
        history_view(s.history@) == committed_of(s.taken@, s.committed@),
        (forall|i: int| 0 <= i < s.committed@.len() ==> #[trigger] s.committed@[i])
            ==> history_view(s.history@) == s.taken@.map_values(|r: WikiRequest| commit_of(r)),
{
    if forall|i: int| 0 <= i < s.committed@.len() ==> #[trigger] s.committed@[i] {
        lemma_committed_of_all(s.taken@, s.committed@);
    }
}


/// The actor after the outcomes `evs`, one after the other.
pub open spec fn run_events(v: ActorView, evs: Seq<Event>) -> ActorView
    decreases evs.len(),
{
    if evs.len() == 0 {
        v
    } else {
        run_events(next_view(v, evs[0]), evs.drop_first())
    }
}

/// The actor after taking up each request in turn, the `i`th answered by
/// the outcomes `evs[i]`.
pub open spec fn serve_all(v: ActorView, reqs: Seq<WikiRequest>, evs: Seq<Seq<Event>>) -> ActorView
    decreases reqs.len(),
{
    if reqs.len() == 0 || evs.len() == 0 {
        v
    } else {
        serve_all(run_events(begin_view(v, reqs[0]), evs[0]), reqs.drop_first(), evs.drop_first())
    }
}

/// The outcomes of a request whose every stage succeeds: its files may be
/// written, and the write, scan, navigation, commit and rebuild all succeed.
pub open spec fn is_success_cycle(req: WikiRequest, evs: Seq<Event>) -> bool {
    &&& static_ok(req)
    &&& evs.len() == 6
    &&& evs[0] is Probed
    &&& probed_flags(evs[0]).len() == probes_of(req).len()
    &&& verdict_kind(req, probed_flags(evs[0])[0]) == ResponseKind::OK
    &&& evs[1] == Event::Written(true)
    &&& evs[2] matches Event::Scanned(Some(_))
    &&& evs[3] == Event::SummarySaved(true)
    &&& evs[4] == Event::Committed(true)
    &&& evs[5] == Event::Rebuilt(true)
}

proof fn lemma_one_cycle(v: ActorView, req: WikiRequest, evs: Seq<Event>)
    requires
        v.stage == Stage::Idle,
        is_success_cycle(req, evs),
    ensures
        run_events(begin_view(v, req), evs) == idle(
            ActorView { stage: Stage::Idle, request: None, history: v.history.push(commit_of(req)) },
        ),
{
    let v1 = begin_view(v, req);
    let v2 = next_view(v1, evs[0]);
    let v3 = next_view(v2, evs[1]);
    let v4 = next_view(v3, evs[2]);
    let v5 = next_view(v4, evs[3]);
    let v6 = next_view(v5, evs[4]);
    let v7 = next_view(v6, evs[5]);
    assert(v2.stage == Stage::Writing && v2.request == Some(req));
    assert(v3.stage == Stage::Indexing && v3.request == Some(req));
    assert(v4.stage == Stage::SavingSummary && v4.request == Some(req));
    assert(v5.stage == Stage::Committing && v5.request == Some(req));
    assert(v6.stage == Stage::Rebuilding && v6.history == v.history.push(commit_of(req)));
    let e = evs;
    assert(run_events(v1, e) == run_events(v2, e.drop_first()));
    assert(run_events(v2, e.drop_first()) == run_events(v3, e.drop_first().drop_first()));
    assert(run_events(v3, e.subrange(2, 6)) == run_events(v4, e.subrange(3, 6))) by {
        assert(e.subrange(2, 6).drop_first() =~= e.subrange(3, 6));
    }
    assert(run_events(v4, e.subrange(3, 6)) == run_events(v5, e.subrange(4, 6))) by {
        assert(e.subrange(3, 6).drop_first() =~= e.subrange(4, 6));
    }
    assert(run_events(v5, e.subrange(4, 6)) == run_events(v6, e.subrange(5, 6))) by {
        assert(e.subrange(4, 6).drop_first() =~= e.subrange(5, 6));
    }
    assert(run_events(v6, e.subrange(5, 6)) == run_events(v7, e.subrange(6, 6))) by {
        assert(e.subrange(5, 6).drop_first() =~= e.subrange(6, 6));
    }
    assert(e.drop_first().drop_first() =~= e.subrange(2, 6));
    assert(e.subrange(6, 6) =~= Seq::<Event>::empty());
}

/// Requests are committed in the order they are taken up: when each of the
/// requests `reqs`, taken up one after the other by an idle actor, goes
/// through every stage successfully, the history gains exactly one commit
/// per request, in the order of the requests, and the actor is idle again.
pub proof fn lemma_commits_follow_request_order(
    v: ActorView,
    reqs: Seq<WikiRequest>,
    evs: Seq<Seq<Event>>,
)
    requires
        v.stage == Stage::Idle,
        reqs.len() == evs.len(),
        forall|i: int| 0 <= i < reqs.len() ==> is_success_cycle(reqs[i], #[trigger] evs[i]),
    ensures
        serve_all(v, reqs, evs).history == v.history + reqs.map_values(
            |r: WikiRequest| commit_of(r),
        ),
        serve_all(v, reqs, evs).stage == Stage::Idle,
    decreases reqs.len(),
{
    if reqs.len() == 0 {
        assert(reqs.map_values(|r: WikiRequest| commit_of(r)) =~= Seq::<CommitView>::empty());
        assert(v.history + Seq::<CommitView>::empty() =~= v.history);
    } else {
        assert(is_success_cycle(reqs[0], evs[0]));
        lemma_one_cycle(v, reqs[0], evs[0]);
        let w = run_events(begin_view(v, reqs[0]), evs[0]);
        let rest = reqs.drop_first();
        let erest = evs.drop_first();
        assert forall|i: int| 0 <= i < rest.len() implies is_success_cycle(
            rest[i],
            #[trigger] erest[i],
        ) by {
            assert(rest[i] == reqs[i + 1] && erest[i] == evs[i + 1]);
        }
        lemma_commits_follow_request_order(w, rest, erest);
        assert(reqs.map_values(|r: WikiRequest| commit_of(r)) =~= seq![commit_of(reqs[0])]
            + rest.map_values(|r: WikiRequest| commit_of(r)));
        assert(v.history + reqs.map_values(|r: WikiRequest| commit_of(r)) =~= v.history.push(
            commit_of(reqs[0]),
        ) + rest.map_values(|r: WikiRequest| commit_of(r)));
    }
}

} // verus!
