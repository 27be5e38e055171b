//! What a script builds: commits of file changes, gathered into a response.
use vstd::prelude::*;

verus! {

/// A file written by a commit.
#[derive(Debug, PartialEq, Eq)]
pub struct File {
    pub filename: String,
    pub mode: String,
    pub content: String,
}

/// A file moved by a commit.
#[derive(Debug, PartialEq, Eq)]
pub struct FileMove {
    pub source: String,
    pub destination: String,
}

/// The changes to one repository namespace, as handed to the caller.
#[derive(Debug, PartialEq, Eq)]
pub struct Commit {
    pub namespace: String,
    pub message: Option<String>,
    pub files_created: Vec<File>,
    pub files_deleted: Vec<String>,
    pub files_moved: Vec<FileMove>,
}

/// The changes to one repository namespace, as a script builds them.
#[derive(Debug)]
pub struct GcCommit {
    pub namespace: String,
    pub message: Option<String>,
    pub files_created: Vec<File>,
    pub files_deleted: Vec<String>,
    pub files_moved: Vec<FileMove>,
}

/// What a script decided.
#[derive(Debug)]
pub enum Response {
    Change { commits: Vec<Commit> },
    Notify { message: String },
}

/// A response as a script builds it.
#[derive(Debug)]
pub struct GcResponse {
    pub category: String,
    pub notification: Option<String>,
    pub commits: Vec<GcCommit>,
}

pub struct FileView {
    pub filename: Seq<char>,
    pub mode: Seq<char>,
    pub content: Seq<char>,
}

pub struct FileMoveView {
    pub source: Seq<char>,
    pub destination: Seq<char>,
}

pub struct CommitView {
    pub namespace: Seq<char>,
    pub message: Option<Seq<char>>,
    pub files_created: Seq<FileView>,
    pub files_deleted: Seq<Seq<char>>,
    pub files_moved: Seq<FileMoveView>,
}

pub enum ResponseView {
    Change { commits: Seq<CommitView> },
    Notify { message: Seq<char> },
}

pub struct GcResponseView {
    pub category: Seq<char>,
    pub notification: Option<Seq<char>>,
    pub commits: Seq<CommitView>,
}

pub open spec fn opt_view(o: Option<String>) -> Option<Seq<char>> {
    match o {
        Some(s) => Some(s@),
        None => None,
    }
}

pub open spec fn file_views(v: Seq<File>) -> Seq<FileView> {
    v.map_values(|f: File| f@)
}

pub open spec fn move_views(v: Seq<FileMove>) -> Seq<FileMoveView> {
    v.map_values(|m: FileMove| m@)
}

pub open spec fn name_views(v: Seq<String>) -> Seq<Seq<char>> {
    v.map_values(|s: String| s@)
}

pub open spec fn commit_views(v: Seq<Commit>) -> Seq<CommitView> {
    v.map_values(|c: Commit| c@)
}

pub open spec fn gc_commit_views(v: Seq<GcCommit>) -> Seq<CommitView> {
    v.map_values(|c: GcCommit| c@)
}

impl View for File {
    type V = FileView;

    open spec fn view(&self) -> FileView {
        FileView { filename: self.filename@, mode: self.mode@, content: self.content@ }
    }
}

impl View for FileMove {
    type V = FileMoveView;

    open spec fn view(&self) -> FileMoveView {
        FileMoveView { source: self.source@, destination: self.destination@ }
    }
}

impl View for Commit {
    type V = CommitView;

    open spec fn view(&self) -> CommitView {
        CommitView {
            namespace: self.namespace@,
            message: opt_view(self.message),
            files_created: file_views(self.files_created@),
            files_deleted: name_views(self.files_deleted@),
            files_moved: move_views(self.files_moved@),
        }
    }
}

impl View for GcCommit {
    type V = CommitView;

    open spec fn view(&self) -> CommitView {
        CommitView {
            namespace: self.namespace@,
            message: opt_view(self.message),
            files_created: file_views(self.files_created@),
            files_deleted: name_views(self.files_deleted@),
            files_moved: move_views(self.files_moved@),
        }
    }
}

impl View for Response {
    type V = ResponseView;

    open spec fn view(&self) -> ResponseView {
        match self {
            Response::Change { commits } => ResponseView::Change { commits: commit_views(commits@) },
            Response::Notify { message } => ResponseView::Notify { message: message@ },
        }
    }
}

impl View for GcResponse {
    type V = GcResponseView;

    open spec fn view(&self) -> GcResponseView {
        GcResponseView {
            category: self.category@,
            notification: opt_view(self.notification),
            commits: gc_commit_views(self.commits@),
        }
    }
}

impl Clone for File {
    fn clone(&self) -> (r: Self)
        ensures
            r@ == self@,
    {
        File {
            filename: self.filename.clone(),
            mode: self.mode.clone(),
            content: self.content.clone(),
        }
    }
}

impl Clone for FileMove {
    fn clone(&self) -> (r: Self)
        ensures
            r@ == self@,
    {
        FileMove { source: self.source.clone(), destination: self.destination.clone() }
    }
}

fn copy_files(v: &Vec<File>) -> (r: Vec<File>)
    ensures
        file_views(r@) == file_views(v@),
{
    let r = v.clone();
    assert(file_views(r@) =~= file_views(v@)) by {
        assert forall|i: int| 0 <= i < v@.len() implies r@[i]@ == v@[i]@ by {
            assert(cloned::<File>(v[i], r[i]));
        }
    }
    r
}

fn copy_moves(v: &Vec<FileMove>) -> (r: Vec<FileMove>)
    ensures
        move_views(r@) == move_views(v@),
{
    let r = v.clone();
    assert(move_views(r@) =~= move_views(v@)) by {
        assert forall|i: int| 0 <= i < v@.len() implies r@[i]@ == v@[i]@ by {
            assert(cloned::<FileMove>(v[i], r[i]));
        }
    }
    r
}

fn copy_names(v: &Vec<String>) -> (r: Vec<String>)
    ensures
        name_views(r@) == name_views(v@),
{
    let r = v.clone();
    assert(name_views(r@) =~= name_views(v@)) by {
        assert forall|i: int| 0 <= i < v@.len() implies r@[i]@ == v@[i]@ by {
            assert(cloned::<String>(v[i], r[i]));
        }
    }
    r
}

fn copy_message(m: &Option<String>) -> (r: Option<String>)
    ensures
        opt_view(r) == opt_view(*m),
{
    match m {
        Some(s) => Some(s.clone()),
        None => None,
    }
}

impl Clone for GcCommit {
    fn clone(&self) -> (r: Self)
        ensures
            r@ == self@,
    {
        GcCommit {
            namespace: self.namespace.clone(),
            message: copy_message(&self.message),
            files_created: copy_files(&self.files_created),
            files_deleted: copy_names(&self.files_deleted),
            files_moved: copy_moves(&self.files_moved),
        }
    }
}

impl GcCommit {
    /// An empty commit for `namespace`.
    pub fn new(namespace: &str) -> (r: Self)
        ensures
            r@ == (CommitView {
                namespace: namespace@,
                message: None,
                files_created: Seq::empty(),
                files_deleted: Seq::empty(),
                files_moved: Seq::empty(),
            }),
    {
        let r = GcCommit {
            namespace: String::from_str(namespace),
            message: None,
            files_created: Vec::new(),
            files_deleted: Vec::new(),
            files_moved: Vec::new(),
        };
        assert(r@.files_created =~= Seq::<FileView>::empty());
        assert(r@.files_deleted =~= Seq::<Seq<char>>::empty());
        assert(r@.files_moved =~= Seq::<FileMoveView>::empty());
        r
    }

    /// Stages writing `content` to `filename`, with file mode `mode`, or `0644` when none is given.
    pub fn write_file(&mut self, filename: &str, content: &str, mode: Option<&str>)
        ensures
            final(self)@ == (CommitView {
                files_created: old(self)@.files_created.push(
                    FileView {
                        filename: filename@,
                        mode: match mode {
                            Some(m) => m@,
                            None => "0644"@,
                        },
                        content: content@,
                    },
                ),
                ..old(self)@
            }),
    {
        let mode = match mode {
            Some(m) => String::from_str(m),
            None => String::from_str("0644"),
        };
        self.files_created.push(
            File { filename: String::from_str(filename), mode, content: String::from_str(content) },
        );
        assert(file_views(self.files_created@) =~= file_views(old(self).files_created@).push(
            self.files_created@.last()@,
        ));
    }

    /// Stages deleting `filename`.
    pub fn delete_file(&mut self, filename: &str)
        ensures
            final(self)@ == (CommitView {
                files_deleted: old(self)@.files_deleted.push(filename@),
                ..old(self)@
            }),
    {
        self.files_deleted.push(String::from_str(filename));
        assert(name_views(self.files_deleted@) =~= name_views(old(self).files_deleted@).push(
            filename@,
        ));
    }

    /// Stages moving `source` to `destination`.
    pub fn move_file(&mut self, source: &str, destination: &str)
        ensures
            final(self)@ == (CommitView {
                files_moved: old(self)@.files_moved.push(
                    FileMoveView { source: source@, destination: destination@ },
                ),
                ..old(self)@
            }),
    {
        self.files_moved.push(
            FileMove { source: String::from_str(source), destination: String::from_str(destination) },
        );
        assert(move_views(self.files_moved@) =~= move_views(old(self).files_moved@).push(
            self.files_moved@.last()@,
        ));
    }

    /// Sets the commit message.
    pub fn set_message(&mut self, summary: &str)
        ensures
            final(self)@ == (CommitView { message: Some(summary@), ..old(self)@ }),
    {
        self.message = Some(String::from_str(summary));
    }

    /// The commit as handed to the caller.
    pub fn to_commit(&self) -> (r: Commit)
        ensures
            r@ == self@,
    {
        Commit {
            namespace: self.namespace.clone(),
            message: copy_message(&self.message),
            files_created: copy_files(&self.files_created),
            files_deleted: copy_names(&self.files_deleted),
            files_moved: copy_moves(&self.files_moved),
        }
    }
}

impl Clone for Commit {
    fn clone(&self) -> (r: Self)
        ensures
            r@ == self@,
    {
        Commit {
            namespace: self.namespace.clone(),
            message: copy_message(&self.message),
            files_created: copy_files(&self.files_created),
            files_deleted: copy_names(&self.files_deleted),
            files_moved: copy_moves(&self.files_moved),
        }
    }
}

impl Default for Commit {
    fn default() -> (r: Self)
        ensures
            r@ == (CommitView {
                namespace: Seq::empty(),
                message: None,
                files_created: Seq::empty(),
                files_deleted: Seq::empty(),
                files_moved: Seq::empty(),
            }),
    {
        let r = Commit {
            namespace: String::new(),
            message: None,
            files_created: Vec::new(),
            files_deleted: Vec::new(),
            files_moved: Vec::new(),
        };
        assert(r@.files_created =~= Seq::<FileView>::empty());
        assert(r@.files_deleted =~= Seq::<Seq<char>>::empty());
        assert(r@.files_moved =~= Seq::<FileMoveView>::empty());
        r
    }
}

/// What a response of `category` built by a script is handed to the caller
/// as: the commits of a `CHANGE`, the notification (or `No message`) of a
/// `NOTIFY`; any other category is refused with a message naming it.
pub open spec fn response_of(r: GcResponseView) -> Result<ResponseView, Seq<char>> {
    if r.category == "CHANGE"@ {
        Ok(ResponseView::Change { commits: r.commits })
    } else if r.category == "NOTIFY"@ {
        Ok(
            ResponseView::Notify {
                message: match r.notification {
                    Some(m) => m,
                    None => "No message"@,
                },
            },
        )
    } else {
        Err("Unknown response category: "@ + r.category)
    }
}

impl GcResponse {
    /// An empty response of `category`.
    pub fn new(category: &str) -> (r: Self)
        ensures
            r@ == (GcResponseView {
                category: category@,
                notification: None,
                commits: Seq::empty(),
            }),
    {
        let r = GcResponse {
            category: String::from_str(category),
            notification: None,
            commits: Vec::new(),
        };
        assert(r@.commits =~= Seq::<CommitView>::empty());
        r
    }

    /// Adds a copy of `commit` to the response.
    pub fn add_commit(&mut self, commit: &GcCommit)
        ensures
            final(self)@ == (GcResponseView {
                commits: old(self)@.commits.push(commit@),
                ..old(self)@
            }),
    {
        self.commits.push(commit.clone());
        assert(gc_commit_views(self.commits@) =~= gc_commit_views(old(self).commits@).push(
            commit@,
        ));
    }

    /// Attaches a notification message, or clears it.
    pub fn ack(&mut self, notification: Option<&str>)
        ensures
            final(self)@ == (GcResponseView {
                notification: match notification {
                    Some(m) => Some(m@),
                    None => None,
                },
                ..old(self)@
            }),
    {
        self.notification = match notification {
            Some(m) => Some(String::from_str(m)),
            None => None,
        };
    }

    /// The response as handed to the caller, or why the category is refused.
    pub fn to_response(&self) -> (r: Result<Response, String>)
        ensures
            match response_of(self@) {
                Ok(v) => r matches Ok(resp) && resp@ == v,
                Err(m) => r matches Err(msg) && msg@ == m,
            },
    {
        let change = String::from_str("CHANGE");
        let notify = String::from_str("NOTIFY");
        if self.category == change {
            let mut commits: Vec<Commit> = Vec::new();
            let n = self.commits.len();
            for i in 0..n
                invariant
                    n == self.commits@.len(),
                    commit_views(commits@) == gc_commit_views(self.commits@.take(i as int)),
            {
                commits.push(self.commits[i].to_commit());
                assert(gc_commit_views(self.commits@.take(i + 1)) =~= gc_commit_views(
                    self.commits@.take(i as int),
                ).push(self.commits@[i as int]@));
                assert(commit_views(commits@) =~= gc_commit_views(self.commits@.take(i + 1)));
            }
            assert(self.commits@.take(n as int) =~= self.commits@);
            Ok(Response::Change { commits })
        } else if self.category == notify {
            let message = match &self.notification {
                Some(m) => m.clone(),
                None => String::from_str("No message"),
            };
            Ok(Response::Notify { message })
        } else {
            let mut msg = String::from_str("Unknown response category: ");
            msg.append(self.category.as_str());
            Err(msg)
        }
    }
}

} // verus!
